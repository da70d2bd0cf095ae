//! Matchmaking for participants that have not yet been placed in a room.
//!
//! A [`Waiter`] keeps one queue for each (token, amount) key and hands out the
//! queued ids as a batch at the moment a queue reaches the room size.

pub mod queue;

use crate::primitives::{Address, U256};
use vstd::prelude::*;

verus! {

/// What one add hands out: the queue with `id` appended, when that is a full
/// room, and nothing otherwise.
pub open spec fn batch_of_add(waiting: Seq<U256>, room_size: nat, id: U256) -> Option<Seq<U256>> {
    if waiting.len() + 1 == room_size {
        Some(waiting.push(id))
    } else {
        None
    }
}

/// The queue that one add leaves behind: empty after a batch, else one longer.
pub open spec fn waiting_after_add(waiting: Seq<U256>, room_size: nat, id: U256) -> Seq<U256> {
    if waiting.len() + 1 == room_size {
        Seq::empty()
    } else {
        waiting.push(id)
    }
}

/// The queue of one key after the adds of `ids`, in order, to an empty queue.
pub open spec fn waiting_after_adds(room_size: nat, ids: Seq<U256>) -> Seq<U256>
    decreases ids.len(),
{
    if ids.len() == 0 {
        Seq::empty()
    } else {
        waiting_after_add(waiting_after_adds(room_size, ids.drop_last()), room_size, ids.last())
    }
}

proof fn lemma_mod_step(k: int, n: int)
    requires
        k >= 0,
        n >= 1,
    ensures
        0 <= k % n < n,
        k % n <= k,
        k % n + 1 == n ==> (k + 1) % n == 0,
        k % n + 1 < n ==> (k + 1) % n == k % n + 1,
{
    vstd::arithmetic::div_mod::lemma_fundamental_div_mod(k, n);
    vstd::arithmetic::div_mod::lemma_mod_bound(k, n);
    vstd::arithmetic::div_mod::lemma_mod_decreases(k as nat, n as nat);
    let q = k / n;
    let r = k % n;
    assert(n * q == q * n) by (nonlinear_arith);
    if r + 1 == n {
        assert(k + 1 == (q + 1) * n + 0) by (nonlinear_arith)
            requires
                k == q * n + r,
                r + 1 == n,
        ;
        vstd::arithmetic::div_mod::lemma_fundamental_div_mod_converse(k + 1, n, q + 1, 0);
    } else {
        vstd::arithmetic::div_mod::lemma_fundamental_div_mod_converse(k + 1, n, q, r + 1);
    }
}

/// After `k` adds the queue holds the last `k mod room_size` ids, in order.
pub proof fn lemma_waiting_after_adds(room_size: nat, ids: Seq<U256>)
    requires
        room_size >= 1,
    ensures
        waiting_after_adds(room_size, ids) == ids.subrange(
            ids.len() - (ids.len() as int) % (room_size as int),
            ids.len() as int,
        ),
    decreases ids.len(),
{
    let k = ids.len() as int;
    let n = room_size as int;
    if k == 0 {
        assert(0int % n == 0) by {
            vstd::arithmetic::div_mod::lemma_small_mod(0, room_size);
        }
        assert(waiting_after_adds(room_size, ids) =~= ids.subrange(0, 0));
    } else {
        let before = ids.drop_last();
        lemma_waiting_after_adds(room_size, before);
        lemma_mod_step(k - 1, n);
        lemma_mod_step(k, n);
        let w = waiting_after_adds(room_size, before);
        assert(w == before.subrange((k - 1) - (k - 1) % n, k - 1));
        if w.len() + 1 == room_size {
            assert(waiting_after_adds(room_size, ids) =~= ids.subrange(k, k));
        } else {
            assert(w.push(ids.last()) =~= ids.subrange(k - k % n, k));
        }
    }
}

/// Queue atomicity. Take the adds made under one key, starting from an empty
/// queue, in the order in which they took effect. The add numbered `k` (from
/// zero) hands out a batch exactly when `k + 1` is a multiple of the room
/// size, so exactly one add in every `room_size` consecutive ones does; and
/// the batch is the `room_size` ids added last, oldest first.
pub proof fn lemma_queue_atomicity(room_size: nat, ids: Seq<U256>, k: int)
    requires
        room_size >= 1,
        0 <= k < ids.len(),
    ensures
        batch_of_add(waiting_after_adds(room_size, ids.take(k)), room_size, ids[k]) == (if (k + 1)
            % (room_size as int) == 0 {
            Some(ids.subrange(k + 1 - room_size, k + 1))
        } else {
            None
        }),
        (k + 1) % (room_size as int) == 0 ==> k + 1 >= room_size,
{
    let n = room_size as int;
    let before = ids.take(k);
    lemma_waiting_after_adds(room_size, before);
    lemma_mod_step(k, n);
    lemma_mod_step(k + 1, n);
    let w = waiting_after_adds(room_size, before);
    assert(w == before.subrange(k - k % n, k));
    if w.len() + 1 == room_size {
        assert(w.push(ids[k]) =~= ids.subrange(k + 1 - room_size, k + 1));
    }
}

pub struct Waiter {
    /// The queues of participants waiting for a room.
    queue: queue::QueuesStorage,
    /// Number of participants that a room starts with.
    min_participants: usize,
}

impl Waiter {
    /// The room size that the waiter was made with.
    pub closed spec fn room_size(&self) -> nat {
        self.min_participants as nat
    }

    /// The ids waiting under `(token, amount)`, oldest first.
    pub closed spec fn waiting(&self, token: Address, amount: U256) -> Seq<U256> {
        self.queue.queue(token, amount)
    }

    /// The room size is at least one and every queue is shorter than it.
    pub closed spec fn wf(&self) -> bool {
        &&& self.queue.wf()
        &&& self.min_participants >= 1
        &&& forall|token: Address, amount: U256|
            (#[trigger] self.queue.queue(token, amount)).len() < self.min_participants
    }

    /// A well-formed waiter holds fewer than a room's worth of ids under each key.
    pub proof fn lemma_waiting_below_room_size(&self, token: Address, amount: U256)
        requires
            self.wf(),
        ensures
            self.waiting(token, amount).len() < self.room_size(),
            self.room_size() >= 1,
    {
    }

    /// A waiter with empty queues that forms rooms of `min_participants`.
    pub fn new(min_participants: usize) -> (w: Waiter)
        requires
            min_participants >= 1,
        ensures
            w.wf(),
            w.room_size() == min_participants,
            forall|token: Address, amount: U256| #[trigger] w.waiting(token, amount) == Seq::<U256>::empty(),
    {
        Waiter { queue: queue::QueuesStorage::new(), min_participants }
    }

    /// The room size.
    pub fn min_participants(&self) -> (n: usize)
        ensures
            n == self.room_size(),
    {
        self.min_participants
    }

    /// Adds a participant to the queue of `(token, amount)`. When that makes
    /// the queue a full room, a room's worth of ids is taken from its front
    /// and returned, oldest first, which empties it; otherwise the id stays
    /// queued and nothing is returned.
    pub fn add_participant(&mut self, token: Address, amount: U256, participant: U256) -> (batch:
        Option<Vec<U256>>)
        requires
            old(self).wf(),
        ensures
            final(self).wf(),
            final(self).room_size() == old(self).room_size(),
            match batch {
                Some(ids) => Some(ids@) == batch_of_add(
                    old(self).waiting(token, amount),
                    old(self).room_size(),
                    participant,
                ),
                None => batch_of_add(
                    old(self).waiting(token, amount),
                    old(self).room_size(),
                    participant,
                ) is None,
            },
            final(self).waiting(token, amount) == waiting_after_add(
                old(self).waiting(token, amount),
                old(self).room_size(),
                participant,
            ),
            forall|t: Address, a: U256|
                !(t == token && a == amount) ==> #[trigger] final(self).waiting(t, a) == old(self).waiting(t, a),
    {
        self.queue.push(token, amount, participant);
        if self.is_filled(token, amount) {
            let batch = self.queue.pop_from_queue(token, amount, self.min_participants);
            proof {
                let queue = old(self).waiting(token, amount).push(participant);
                assert(queue.take(self.min_participants as int) =~= queue);
                assert(queue.skip(self.min_participants as int) =~= Seq::<U256>::empty());
            }
            Some(batch)
        } else {
            None
        }
    }

    fn is_filled(&self, token: Address, amount: U256) -> (r: bool)
        requires
            self.queue.wf(),
        ensures
            r == (self.queue.queue(token, amount).len() >= self.min_participants),
    {
        self.queue.len(token, amount) >= self.min_participants
    }

    /// Whether `utxo_id` is queued under some key.
    pub open spec fn waiting_anywhere(&self, utxo_id: U256) -> bool {
        exists|token: Address, amount: U256| #[trigger] self.waiting(token, amount).contains(utxo_id)
    }

    /// Whether `utxo_id` is queued under some key.
    pub fn is_waiting_anywhere(&self, utxo_id: U256) -> (r: bool)
        requires
            self.wf(),
        ensures
            r == self.waiting_anywhere(utxo_id),
    {
        let r = self.queue.contains_anywhere(utxo_id);
        proof {
            if r {
                let (token, amount) = choose|token: Address, amount: U256| #[trigger]
                    self.queue.queue(token, amount).contains(utxo_id);
                assert(self.waiting(token, amount).contains(utxo_id));
            }
            if self.waiting_anywhere(utxo_id) {
                let (token, amount) = choose|token: Address, amount: U256| #[trigger]
                    self.waiting(token, amount).contains(utxo_id);
                assert(self.queue.queue(token, amount).contains(utxo_id));
            }
        }
        r
    }

    /// The number of ids queued under `(token, amount)`.
    pub fn waiting_len(&self, token: Address, amount: U256) -> (n: usize)
        requires
            self.wf(),
        ensures
            n == self.waiting(token, amount).len(),
            n < self.room_size(),
    {
        self.queue.len(token, amount)
    }
}

} // verus!
