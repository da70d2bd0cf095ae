//! Storage of the waiting lists: one list of UTXO ids for each pair of a token
//! address and an amount.

use crate::primitives::{Address, U256};
use vstd::prelude::*;

verus! {

/// The participants waiting under one (token, amount) key, oldest first.
pub struct Queue {
    pub token: Address,
    pub amount: U256,
    pub participants: Vec<U256>,
}

/// All waiting lists. A key that was never pushed to has the empty list.
pub struct QueuesStorage {
    queues: Vec<Queue>,
}

impl QueuesStorage {
    /// Entry `i` is the list kept for `(token, amount)`.
    pub closed spec fn keyed_at(&self, i: int, token: Address, amount: U256) -> bool {
        &&& 0 <= i < self.queues@.len()
        &&& self.queues@[i].token == token
        &&& self.queues@[i].amount == amount
    }

    /// No key has two entries.
    pub closed spec fn wf(&self) -> bool {
        forall|i: int, j: int|
            0 <= i < j < self.queues@.len() ==> !(#[trigger] self.queues@[i].token
                == #[trigger] self.queues@[j].token && self.queues@[i].amount
                == self.queues@[j].amount)
    }

    /// The ids waiting under `(token, amount)`, in arrival order.
    pub closed spec fn queue(&self, token: Address, amount: U256) -> Seq<U256> {
        if exists|i: int| self.keyed_at(i, token, amount) {
            self.queues@[choose|i: int| self.keyed_at(i, token, amount)].participants@
        } else {
            Seq::empty()
        }
    }

    proof fn lemma_queue_at(&self, i: int, token: Address, amount: U256)
        requires
            self.wf(),
            self.keyed_at(i, token, amount),
        ensures
            self.queue(token, amount) == self.queues@[i].participants@,
    {
        let c = choose|k: int| self.keyed_at(k, token, amount);
        assert(self.keyed_at(c, token, amount));
        if c != i {
            if c < i {
                assert(self.queues@[c].token == self.queues@[i].token);
            } else {
                assert(self.queues@[i].token == self.queues@[c].token);
            }
        }
    }

    proof fn lemma_queue_absent(&self, token: Address, amount: U256)
        requires
            forall|i: int| 0 <= i < self.queues@.len() ==> !self.keyed_at(i, token, amount),
        ensures
            self.queue(token, amount) == Seq::<U256>::empty(),
    {
    }

    /// Storage with no list.
    pub fn new() -> (s: QueuesStorage)
        ensures
            s.wf(),
            forall|token: Address, amount: U256| #[trigger] s.queue(token, amount) == Seq::<U256>::empty(),
    {
        QueuesStorage { queues: Vec::new() }
    }

    /// The index of the entry for `(token, amount)`, if there is one.
    fn find(&self, token: &Address, amount: &U256) -> (r: Option<usize>)
        ensures
            match r {
                Some(i) => self.keyed_at(i as int, *token, *amount),
                None => forall|i: int|
                    0 <= i < self.queues@.len() ==> !self.keyed_at(i, *token, *amount),
            },
    {
        let mut i: usize = 0;
        while i < self.queues.len()
            invariant
                i <= self.queues@.len(),
                forall|j: int| 0 <= j < i ==> !self.keyed_at(j, *token, *amount),
            decreases self.queues@.len() - i,
        {
            if self.queues[i].token == *token && self.queues[i].amount == *amount {
                return Some(i);
            }
            i = i + 1;
        }
        None
    }

    /// Appends `utxo_id` to the list of `(token, amount)`.
    pub fn push(&mut self, token: Address, amount: U256, utxo_id: U256)
        requires
            old(self).wf(),
        ensures
            final(self).wf(),
            final(self).queue(token, amount) == old(self).queue(token, amount).push(utxo_id),
            forall|t: Address, a: U256|
                !(t == token && a == amount) ==> #[trigger] final(self).queue(t, a) == old(self).queue(t, a),
    {
        let found = self.find(&token, &amount);
        match found {
            Some(i) => {
                proof {
                    old(self).lemma_queue_at(i as int, token, amount);
                }
                self.queues[i].participants.push(utxo_id);
                proof {
                    assert(self.keyed_at(i as int, token, amount));
                    assert(self.wf()) by {
                        assert forall|x: int, y: int| 0 <= x < y < self.queues@.len() implies !(
                        #[trigger] self.queues@[x].token == #[trigger] self.queues@[y].token
                            && self.queues@[x].amount == self.queues@[y].amount) by {
                            assert(self.queues@[x].token == old(self).queues@[x].token);
                            assert(self.queues@[y].token == old(self).queues@[y].token);
                            assert(self.queues@[x].amount == old(self).queues@[x].amount);
                            assert(self.queues@[y].amount == old(self).queues@[y].amount);
                        }
                    }
                    self.lemma_queue_at(i as int, token, amount);
                    assert forall|t: Address, a: U256| !(t == token && a == amount) implies (
                    #[trigger] self.queue(t, a)) == old(self).queue(t, a) by {
                        self.lemma_frame(*old(self), t, a, i as int);
                    }
                }
            },
            None => {
                let mut participants: Vec<U256> = Vec::new();
                participants.push(utxo_id);
                let ghost n = self.queues@.len() as int;
                self.queues.push(Queue { token, amount, participants });
                proof {
                    old(self).lemma_queue_absent(token, amount);
                    assert(self.keyed_at(n, token, amount));
                    assert(self.wf()) by {
                        assert forall|x: int, y: int| 0 <= x < y < self.queues@.len() implies !(
                        #[trigger] self.queues@[x].token == #[trigger] self.queues@[y].token
                            && self.queues@[x].amount == self.queues@[y].amount) by {
                            if y == n {
                                assert(!old(self).keyed_at(x, token, amount));
                            }
                        }
                    }
                    self.lemma_queue_at(n, token, amount);
                    assert(self.queues@[n].participants@ =~= Seq::<U256>::empty().push(utxo_id));
                    assert forall|t: Address, a: U256| !(t == token && a == amount) implies (
                    #[trigger] self.queue(t, a)) == old(self).queue(t, a) by {
                        self.lemma_frame(*old(self), t, a, n);
                    }
                }
            },
        }
    }

    /// An entry-wise change at index `k` leaves the list of every other key as it was.
    proof fn lemma_frame(&self, before: QueuesStorage, t: Address, a: U256, k: int)
        requires
            self.wf(),
            before.wf(),
            before.queues@.len() <= self.queues@.len() <= before.queues@.len() + 1,
            forall|i: int|
                0 <= i < before.queues@.len() ==> self.queues@[i].token == before.queues@[i].token
                    && self.queues@[i].amount == before.queues@[i].amount,
            forall|i: int|
                0 <= i < before.queues@.len() && i != k ==> self.queues@[i].participants@
                    == before.queues@[i].participants@,
            0 <= k < self.queues@.len(),
            !(self.queues@[k].token == t && self.queues@[k].amount == a),
            self.queues@.len() == before.queues@.len() + 1 ==> k == before.queues@.len(),
        ensures
            self.queue(t, a) == before.queue(t, a),
    {
        if exists|i: int| before.keyed_at(i, t, a) {
            let c = choose|i: int| before.keyed_at(i, t, a);
            assert(before.keyed_at(c, t, a));
            assert(self.keyed_at(c, t, a));
            self.lemma_queue_at(c, t, a);
            before.lemma_queue_at(c, t, a);
        } else {
            assert forall|i: int| 0 <= i < self.queues@.len() implies !self.keyed_at(i, t, a) by {
                if i < before.queues@.len() {
                    assert(!before.keyed_at(i, t, a));
                }
            }
            self.lemma_queue_absent(t, a);
        }
    }

    /// Empties the list of `(token, amount)` and returns what it held.
    pub fn pop(&mut self, token: Address, amount: U256) -> (participants: Vec<U256>)
        requires
            old(self).wf(),
        ensures
            final(self).wf(),
            participants@ == old(self).queue(token, amount),
            final(self).queue(token, amount) == Seq::<U256>::empty(),
            forall|t: Address, a: U256|
                !(t == token && a == amount) ==> #[trigger] final(self).queue(t, a) == old(self).queue(t, a),
    {
        let found = self.find(&token, &amount);
        match found {
            Some(i) => {
                proof {
                    old(self).lemma_queue_at(i as int, token, amount);
                }
                let mut participants: Vec<U256> = Vec::new();
                std::mem::swap(&mut participants, &mut self.queues[i].participants);
                proof {
                    assert(self.keyed_at(i as int, token, amount));
                    assert(self.wf()) by {
                        assert forall|x: int, y: int| 0 <= x < y < self.queues@.len() implies !(
                        #[trigger] self.queues@[x].token == #[trigger] self.queues@[y].token
                            && self.queues@[x].amount == self.queues@[y].amount) by {
                            assert(self.queues@[x].token == old(self).queues@[x].token);
                            assert(self.queues@[y].token == old(self).queues@[y].token);
                            assert(self.queues@[x].amount == old(self).queues@[x].amount);
                            assert(self.queues@[y].amount == old(self).queues@[y].amount);
                        }
                    }
                    self.lemma_queue_at(i as int, token, amount);
                    assert forall|t: Address, a: U256| !(t == token && a == amount) implies (
                    #[trigger] self.queue(t, a)) == old(self).queue(t, a) by {
                        self.lemma_frame(*old(self), t, a, i as int);
                    }
                }
                participants
            },
            None => {
                proof {
                    self.lemma_queue_absent(token, amount);
                }
                Vec::new()
            },
        }
    }

    /// Takes the first `number` ids out of the list of `(token, amount)`,
    /// oldest first; the others stay, in their order.
    pub fn pop_from_queue(&mut self, token: Address, amount: U256, number: usize) -> (participants:
        Vec<U256>)
        requires
            old(self).wf(),
            number <= old(self).queue(token, amount).len(),
        ensures
            final(self).wf(),
            participants@ == old(self).queue(token, amount).take(number as int),
            final(self).queue(token, amount) == old(self).queue(token, amount).skip(number as int),
            forall|t: Address, a: U256|
                !(t == token && a == amount) ==> #[trigger] final(self).queue(t, a) == old(self).queue(t, a),
    {
        let found = self.find(&token, &amount);
        match found {
            Some(i) => {
                proof {
                    old(self).lemma_queue_at(i as int, token, amount);
                }
                let mut participants = self.queues[i].participants.split_off(number);
                std::mem::swap(&mut participants, &mut self.queues[i].participants);
                proof {
                    assert(self.keyed_at(i as int, token, amount));
                    assert(self.wf()) by {
                        assert forall|x: int, y: int| 0 <= x < y < self.queues@.len() implies !(
                        #[trigger] self.queues@[x].token == #[trigger] self.queues@[y].token
                            && self.queues@[x].amount == self.queues@[y].amount) by {
                            assert(self.queues@[x].token == old(self).queues@[x].token);
                            assert(self.queues@[y].token == old(self).queues@[y].token);
                            assert(self.queues@[x].amount == old(self).queues@[x].amount);
                            assert(self.queues@[y].amount == old(self).queues@[y].amount);
                        }
                    }
                    self.lemma_queue_at(i as int, token, amount);
                    assert(participants@ =~= old(self).queue(token, amount).take(number as int));
                    assert(self.queue(token, amount) =~= old(self).queue(token, amount).skip(
                        number as int,
                    ));
                    assert forall|t: Address, a: U256| !(t == token && a == amount) implies (
                    #[trigger] self.queue(t, a)) == old(self).queue(t, a) by {
                        self.lemma_frame(*old(self), t, a, i as int);
                    }
                }
                participants
            },
            None => {
                proof {
                    self.lemma_queue_absent(token, amount);
                }
                let participants: Vec<U256> = Vec::new();
                assert(participants@ =~= self.queue(token, amount).take(number as int));
                assert(self.queue(token, amount) =~= self.queue(token, amount).skip(number as int));
                participants
            },
        }
    }

    /// The number of ids waiting under `(token, amount)`.
    pub fn len(&self, token: Address, amount: U256) -> (n: usize)
        requires
            self.wf(),
        ensures
            n == self.queue(token, amount).len(),
    {
        let found = self.find(&token, &amount);
        match found {
            Some(i) => {
                proof {
                    self.lemma_queue_at(i as int, token, amount);
                }
                self.queues[i].participants.len()
            },
            None => {
                proof {
                    self.lemma_queue_absent(token, amount);
                }
                0
            },
        }
    }

    /// Whether `utxo_id` waits under any key.
    pub fn contains_anywhere(&self, utxo_id: U256) -> (r: bool)
        requires
            self.wf(),
        ensures
            r == exists|token: Address, amount: U256| #[trigger]
                self.queue(token, amount).contains(utxo_id),
    {
        let mut i: usize = 0;
        while i < self.queues.len()
            invariant
                i <= self.queues@.len(),
                self.wf(),
                forall|j: int| 0 <= j < i ==> !(#[trigger] self.queues@[j]).participants@.contains(utxo_id),
            decreases self.queues@.len() - i,
        {
            let list = &self.queues[i].participants;
            let mut k: usize = 0;
            while k < list.len()
                invariant
                    k <= list@.len(),
                    i < self.queues@.len(),
                    self.wf(),
                    list@ == self.queues@[i as int].participants@,
                    forall|j: int| 0 <= j < k ==> list@[j] != utxo_id,
                decreases list@.len() - k,
            {
                if list[k] == utxo_id {
                    proof {
                        let token = self.queues@[i as int].token;
                        let amount = self.queues@[i as int].amount;
                        assert(self.keyed_at(i as int, token, amount));
                        self.lemma_queue_at(i as int, token, amount);
                        assert(list@[k as int] == utxo_id);
                        assert(self.queue(token, amount).contains(utxo_id));
                    }
                    return true;
                }
                k = k + 1;
            }
            i = i + 1;
        }
        proof {
            assert forall|token: Address, amount: U256| !(#[trigger] self.queue(
                token,
                amount,
            ).contains(utxo_id)) by {
                if exists|j: int| self.keyed_at(j, token, amount) {
                    let c = choose|j: int| self.keyed_at(j, token, amount);
                    assert(self.keyed_at(c, token, amount));
                    assert(!self.queues@[c].participants@.contains(utxo_id));
                }
            }
        }
        false
    }
}

} // verus!
