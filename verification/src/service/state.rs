//! The record of one room and the rules by which it moves: who may connect,
//! whose turn it is to decode, and when the signatures are complete.

use crate::primitives::{Address, U256};
use crate::service::types::{
    clone_outputs, EncodedOutput, Input, RsaPublicKey, RsaPublicKeyView, Signature,
    TransferRequest, TransferRequestView,
};
use vstd::prelude::*;

verus! {

/// Where a room stands.
#[derive(Clone, Copy, Debug, PartialEq, Eq, Structural)]
pub enum Phase {
    /// Participants are still connecting with their keys.
    Connecting,
    /// The keys went out; participants decode in turn.
    Decoding,
    /// The outputs are plain; signatures are being collected.
    Signing,
    /// Every signature is in; the transfer is with the chain connector.
    Submitting,
    /// The transaction was submitted.
    Done,
    /// The room was given up.
    Aborted,
}

/// How far one participant has come.
#[derive(Clone, Copy, Debug, PartialEq, Eq, Structural)]
pub enum ShuffleRound {
    AwaitingKey,
    KeyShared,
    Decoding(usize),
    Signing,
    Signed,
    Done,
    Aborted,
}

/// Why a room refused an event.
#[derive(Clone, Copy, Debug, PartialEq, Eq, Structural)]
pub enum RoomError {
    /// The room is done or aborted.
    Closed,
    /// The id is not among the room's participants.
    UnknownParticipant,
    /// The participant has connected before.
    AlreadyConnected,
    /// A round came from a participant whose turn it is not, or outside the
    /// decoding rounds.
    WrongTurn,
    /// A signature came while the room was not collecting signatures.
    NotSigning,
    /// The participant has signed before.
    DuplicateSignature,
    /// A room access token could not be issued.
    TokenIssue,
    /// A transfer result came while no transfer was under way.
    NoTransferPending,
}

/// What a decoding round led to.
#[derive(Clone, Copy, Debug, PartialEq, Eq, Structural)]
pub enum RoundResult {
    /// The participant at this index decodes next.
    Round(usize),
    /// That was the last round: the outputs are plain.
    Finished,
}

/// The mathematical state of a room. `keys[i]` and `signatures[i]` belong to
/// `participants[i]`.
pub struct RoomView {
    pub id: u128,
    pub token: Address,
    pub amount: U256,
    pub participants: Seq<U256>,
    pub keys: Seq<Option<RsaPublicKeyView>>,
    pub current_round: nat,
    pub outputs: Seq<Seq<u8>>,
    pub signatures: Seq<Option<Signature>>,
    pub phase: Phase,
}

/// A refused event says nothing; an accepted one gives a well-formed room.
pub open spec fn accepted_wf(outcome: Result<RoomView, RoomError>) -> bool {
    match outcome {
        Ok(room) => room.wf(),
        Err(_) => true,
    }
}

impl RoomView {
    /// The number of participants.
    pub open spec fn size(self) -> nat {
        self.participants.len()
    }

    pub open spec fn all_connected(self) -> bool {
        forall|i: int| 0 <= i < self.keys.len() ==> (#[trigger] self.keys[i]) is Some
    }

    pub open spec fn all_signed(self) -> bool {
        forall|i: int| 0 <= i < self.signatures.len() ==> (#[trigger] self.signatures[i]) is Some
    }

    pub open spec fn none_signed(self) -> bool {
        forall|i: int| 0 <= i < self.signatures.len() ==> (#[trigger] self.signatures[i]) is None
    }

    pub open spec fn closed(self) -> bool {
        self.phase == Phase::Done || self.phase == Phase::Aborted
    }

    /// The shape of a room, and what each phase implies of its contents.
    pub open spec fn wf(self) -> bool {
        &&& 1 <= self.participants.len() <= usize::MAX
        &&& self.participants.no_duplicates()
        &&& self.keys.len() == self.participants.len()
        &&& self.signatures.len() == self.participants.len()
        &&& self.current_round <= self.participants.len()
        &&& match self.phase {
            Phase::Connecting => {
                &&& !self.all_connected()
                &&& self.current_round == 0
                &&& self.outputs.len() == 0
                &&& self.none_signed()
            },
            Phase::Decoding => {
                &&& self.all_connected()
                &&& self.current_round < self.participants.len()
                &&& self.none_signed()
            },
            Phase::Signing => {
                &&& self.all_connected()
                &&& self.current_round == self.participants.len()
                &&& !self.all_signed()
            },
            Phase::Submitting | Phase::Done => {
                &&& self.all_connected()
                &&& self.current_round == self.participants.len()
                &&& self.all_signed()
            },
            Phase::Aborted => true,
        }
    }

    /// A room as it is created: nobody connected, nothing decoded or signed.
    pub open spec fn fresh(
        id: u128,
        token: Address,
        amount: U256,
        participants: Seq<U256>,
    ) -> RoomView {
        RoomView {
            id,
            token,
            amount,
            participants,
            keys: Seq::new(participants.len(), |i: int| None),
            current_round: 0,
            outputs: Seq::empty(),
            signatures: Seq::new(participants.len(), |i: int| None),
            phase: Phase::Connecting,
        }
    }

    /// The place of `utxo_id` in the shuffle order, if it has one.
    pub open spec fn position(self, utxo_id: U256) -> Option<int> {
        if self.participants.contains(utxo_id) {
            Some(self.participants.index_of(utxo_id))
        } else {
            None
        }
    }

    /// The keys that `participants[i]` layers under: those of the participants
    /// after it, the last participant's first.
    pub open spec fn keys_for(self, i: int) -> Seq<RsaPublicKeyView> {
        Seq::new(
            (self.participants.len() - 1 - i) as nat,
            |j: int| self.keys[self.participants.len() - 1 - j]->0,
        )
    }

    /// The participants that have connected, among the first `n`, in room order.
    pub open spec fn connected_upto(self, n: int) -> Seq<U256>
        decreases n,
    {
        if n <= 0 {
            Seq::empty()
        } else if self.keys[n - 1] is Some {
            self.connected_upto(n - 1).push(self.participants[n - 1])
        } else {
            self.connected_upto(n - 1)
        }
    }

    /// The participants that have connected, in room order.
    pub open spec fn connected(self) -> Seq<U256> {
        self.connected_upto(self.participants.len() as int)
    }

    /// The inputs of the transfer: each participant with its signature.
    pub open spec fn inputs(self) -> Seq<Input> {
        Seq::new(
            self.participants.len(),
            |i: int| Input { utxo_id: self.participants[i], signature: self.signatures[i]->0 },
        )
    }

    /// The transfer that a fully signed room asks for.
    pub open spec fn transfer(self) -> TransferRequestView {
        TransferRequestView { inputs: self.inputs(), outputs: self.outputs }
    }

    /// A participant connects with its key.
    pub open spec fn connect(
        self,
        utxo_id: U256,
        key: RsaPublicKeyView,
    ) -> Result<RoomView, RoomError> {
        if self.closed() {
            Err(RoomError::Closed)
        } else {
            match self.position(utxo_id) {
                None => Err(RoomError::UnknownParticipant),
                Some(i) => if self.keys[i] is Some {
                    Err(RoomError::AlreadyConnected)
                } else {
                    let keyed = RoomView { keys: self.keys.update(i, Some(key)), ..self };
                    if keyed.all_connected() {
                        Ok(RoomView { phase: Phase::Decoding, ..keyed })
                    } else {
                        Ok(keyed)
                    }
                },
            }
        }
    }

    /// A participant hands in the outputs that it has decoded.
    pub open spec fn pass_outputs(self, utxo_id: U256, outputs: Seq<Seq<u8>>) -> Result<
        RoomView,
        RoomError,
    > {
        if self.closed() {
            Err(RoomError::Closed)
        } else if self.phase != Phase::Decoding {
            Err(RoomError::WrongTurn)
        } else if self.participants[self.current_round as int] != utxo_id {
            Err(RoomError::WrongTurn)
        } else {
            let round = self.current_round + 1;
            Ok(
                RoomView {
                    outputs,
                    current_round: round,
                    phase: if round < self.participants.len() {
                        Phase::Decoding
                    } else {
                        Phase::Signing
                    },
                    ..self
                },
            )
        }
    }

    /// A participant hands in its signature.
    pub open spec fn pass_signature(self, utxo_id: U256, signature: Signature) -> Result<
        RoomView,
        RoomError,
    > {
        if self.closed() {
            Err(RoomError::Closed)
        } else if self.phase != Phase::Signing {
            Err(RoomError::NotSigning)
        } else {
            match self.position(utxo_id) {
                None => Err(RoomError::UnknownParticipant),
                Some(i) => if self.signatures[i] is Some {
                    Err(RoomError::DuplicateSignature)
                } else {
                    let signed = RoomView {
                        signatures: self.signatures.update(i, Some(signature)),
                        ..self
                    };
                    if signed.all_signed() {
                        Ok(RoomView { phase: Phase::Submitting, ..signed })
                    } else {
                        Ok(signed)
                    }
                },
            }
        }
    }

    /// The chain connector reports on the transfer.
    pub open spec fn settle(self, submitted: bool) -> Result<RoomView, RoomError> {
        if self.closed() {
            Err(RoomError::Closed)
        } else if self.phase != Phase::Submitting {
            Err(RoomError::NoTransferPending)
        } else {
            Ok(RoomView { phase: if submitted { Phase::Done } else { Phase::Aborted }, ..self })
        }
    }

    /// The room is given up.
    pub open spec fn abort(self) -> RoomView {
        RoomView { phase: Phase::Aborted, ..self }
    }

    /// How far the participant at `i` has come.
    pub open spec fn status_at(self, i: int) -> ShuffleRound {
        match self.phase {
            Phase::Aborted => ShuffleRound::Aborted,
            Phase::Done => ShuffleRound::Done,
            Phase::Connecting => if self.keys[i] is Some {
                ShuffleRound::KeyShared
            } else {
                ShuffleRound::AwaitingKey
            },
            Phase::Decoding => ShuffleRound::Decoding(self.current_round as usize),
            Phase::Signing | Phase::Submitting => if self.signatures[i] is Some {
                ShuffleRound::Signed
            } else {
                ShuffleRound::Signing
            },
        }
    }

    /// Every accepted event leaves a well-formed room well-formed.
    pub proof fn lemma_steps_keep_wf(self)
        requires
            self.wf(),
        ensures
            forall|u: U256, k: RsaPublicKeyView| accepted_wf(#[trigger] self.connect(u, k)),
            forall|u: U256, o: Seq<Seq<u8>>| accepted_wf(#[trigger] self.pass_outputs(u, o)),
            forall|u: U256, s: Signature| accepted_wf(#[trigger] self.pass_signature(u, s)),
            forall|b: bool| accepted_wf(#[trigger] self.settle(b)),
            self.abort().wf(),
    {
        assert forall|u: U256, k: RsaPublicKeyView| accepted_wf(
            #[trigger] self.connect(u, k),
        ) by {
            self.lemma_connect(u, k);
        }
        assert forall|u: U256, o: Seq<Seq<u8>>| accepted_wf(#[trigger] self.pass_outputs(u, o)) by {
            self.lemma_pass_outputs(u, o);
        }
        assert forall|u: U256, s: Signature| accepted_wf(#[trigger] self.pass_signature(u, s)) by {
            self.lemma_pass_signature(u, s);
        }
    }

    pub proof fn lemma_pass_outputs(self, utxo_id: U256, outputs: Seq<Seq<u8>>)
        requires
            self.wf(),
        ensures
            self.pass_outputs(utxo_id, outputs) matches Ok(r) ==> {
                &&& r.wf()
                &&& self.phase == Phase::Decoding
                &&& utxo_id == self.participants[self.current_round as int]
                &&& r.current_round == self.current_round + 1
                &&& r.outputs == outputs
                &&& (r.phase == Phase::Signing <==> r.current_round == self.size())
            },
    {
        if self.pass_outputs(utxo_id, outputs) is Ok {
            assert(self.signatures[0] is None);
        }
    }

    /// The room after the decoding rounds of `senders`, each with its outputs,
    /// if every one of them is accepted; the first refusal otherwise.
    pub open spec fn after_rounds(self, senders: Seq<U256>, outputs: Seq<Seq<Seq<u8>>>) -> Result<
        RoomView,
        RoomError,
    >
        decreases senders.len(),
    {
        if senders.len() == 0 {
            Ok(self)
        } else {
            match self.after_rounds(senders.drop_last(), outputs.drop_last()) {
                Ok(room) => room.pass_outputs(senders.last(), outputs.last()),
                Err(e) => Err(e),
            }
        }
    }

    /// Turn discipline. From the moment the keys have gone out, the senders
    /// of the rounds that a room accepts are its participants in shuffle
    /// order: the `k`-th accepted round comes from `participants[k]`, there
    /// are at most as many as participants, and the room collects signatures
    /// exactly when all of them have had their turn.
    pub proof fn lemma_turn_discipline(self, senders: Seq<U256>, outputs: Seq<Seq<Seq<u8>>>)
        requires
            self.wf(),
            self.phase == Phase::Decoding,
            self.current_round == 0,
            senders.len() == outputs.len(),
            self.after_rounds(senders, outputs) is Ok,
        ensures
            senders.len() <= self.size(),
            senders == self.participants.take(senders.len() as int),
            self.after_rounds(senders, outputs)->Ok_0.wf(),
            self.after_rounds(senders, outputs)->Ok_0.current_round == senders.len(),
            self.after_rounds(senders, outputs)->Ok_0.participants == self.participants,
            self.after_rounds(senders, outputs)->Ok_0.phase == Phase::Signing <==> senders.len()
                == self.size(),
            self.after_rounds(senders, outputs)->Ok_0.phase == Phase::Decoding <==> senders.len()
                < self.size(),
        decreases senders.len(),
    {
        if senders.len() == 0 {
            assert(senders =~= self.participants.take(0));
        } else {
            let before = self.after_rounds(senders.drop_last(), outputs.drop_last());
            self.lemma_turn_discipline(senders.drop_last(), outputs.drop_last());
            let room = before->Ok_0;
            room.lemma_pass_outputs(senders.last(), outputs.last());
            assert(senders =~= self.participants.take(senders.len() as int)) by {
                assert(senders.drop_last() == self.participants.take(senders.len() - 1));
                assert forall|i: int| 0 <= i < senders.len() implies senders[i]
                    == self.participants.take(senders.len() as int)[i] by {
                    if i < senders.len() - 1 {
                        assert(senders[i] == senders.drop_last()[i]);
                    }
                }
            }
        }
    }

    /// The place of a status in the order in which a participant passes
    /// through them, in a room of `size` participants.
    pub open spec fn rank(status: ShuffleRound, size: nat) -> int {
        let size = size as int;
        match status {
            ShuffleRound::AwaitingKey => 0,
            ShuffleRound::KeyShared => 1,
            ShuffleRound::Decoding(round) => 2 + round,
            ShuffleRound::Signing => 2 + size,
            ShuffleRound::Signed => 3 + size,
            ShuffleRound::Done => 4 + size,
            ShuffleRound::Aborted => 5 + size,
        }
    }

    /// Whether `next` is `self` after one accepted event.
    pub open spec fn steps_to(self, next: RoomView) -> bool {
        ||| exists|u: U256, k: RsaPublicKeyView| #[trigger]
            self.connect(u, k) == Ok::<RoomView, RoomError>(next)
        ||| exists|u: U256, o: Seq<Seq<u8>>| #[trigger]
            self.pass_outputs(u, o) == Ok::<RoomView, RoomError>(next)
        ||| exists|u: U256, s: Signature| #[trigger]
            self.pass_signature(u, s) == Ok::<RoomView, RoomError>(next)
        ||| exists|b: bool| #[trigger] self.settle(b) == Ok::<RoomView, RoomError>(next)
    }

    /// What no accepted event changes, and what each may change. The
    /// participants, the class and the id stay. No participant's status
    /// moves backwards. The round moves only by one, only in the decoding
    /// phase, and only for the participant whose turn it is; a signature is
    /// taken only after the last round, in a room that is not closed.
    pub proof fn lemma_accepted_steps(self, next: RoomView)
        requires
            self.wf(),
            self.steps_to(next),
        ensures
            next.wf(),
            !self.closed(),
            next.id == self.id,
            next.token == self.token,
            next.amount == self.amount,
            next.participants == self.participants,
            forall|i: int|
                0 <= i < self.size() ==> Self::rank(self.status_at(i), self.size()) <= Self::rank(
                    #[trigger] next.status_at(i),
                    self.size(),
                ),
            next.current_round == self.current_round || (next.current_round == self.current_round
                + 1 && self.phase == Phase::Decoding),
            next.signatures != self.signatures ==> self.current_round == self.size() && self.phase
                == Phase::Signing,
    {
        self.lemma_steps_keep_wf();
        if exists|u: U256, k: RsaPublicKeyView| #[trigger]
            self.connect(u, k) == Ok::<RoomView, RoomError>(next) {
            let (u, k) = choose|u: U256, k: RsaPublicKeyView| #[trigger]
                self.connect(u, k) == Ok::<RoomView, RoomError>(next);
            self.lemma_connect(u, k);
            self.lemma_position(u);
        } else if exists|u: U256, o: Seq<Seq<u8>>| #[trigger]
            self.pass_outputs(u, o) == Ok::<RoomView, RoomError>(next) {
            let (u, o) = choose|u: U256, o: Seq<Seq<u8>>| #[trigger]
                self.pass_outputs(u, o) == Ok::<RoomView, RoomError>(next);
            self.lemma_pass_outputs(u, o);
            assert forall|i: int| 0 <= i < self.size() implies Self::rank(
                self.status_at(i),
                self.size(),
            ) <= Self::rank(#[trigger] next.status_at(i), self.size()) by {
                assert(next.signatures[i] is None);
            }
        } else if exists|u: U256, s: Signature| #[trigger]
            self.pass_signature(u, s) == Ok::<RoomView, RoomError>(next) {
            let (u, s) = choose|u: U256, s: Signature| #[trigger]
                self.pass_signature(u, s) == Ok::<RoomView, RoomError>(next);
            self.lemma_pass_signature(u, s);
            self.lemma_position(u);
        } else {
            let b = choose|b: bool| #[trigger] self.settle(b) == Ok::<RoomView, RoomError>(next);
            assert forall|i: int| 0 <= i < self.size() implies Self::rank(
                self.status_at(i),
                self.size(),
            ) <= Self::rank(#[trigger] next.status_at(i), self.size()) by {
                assert(self.signatures[i] is Some);
            }
        }
    }

    /// A position that `position` names holds the id asked for.
    pub proof fn lemma_position(self, utxo_id: U256)
        requires
            self.participants.no_duplicates(),
        ensures
            match self.position(utxo_id) {
                Some(i) => 0 <= i < self.participants.len() && self.participants[i] == utxo_id,
                None => !self.participants.contains(utxo_id),
            },
            forall|i: int|
                0 <= i < self.participants.len() && self.participants[i] == utxo_id
                    ==> self.position(utxo_id) == Some(i),
    {
        if self.participants.contains(utxo_id) {
            let k = self.participants.index_of(utxo_id);
            assert(0 <= k < self.participants.len() && self.participants[k] == utxo_id);
        }
    }

    pub proof fn lemma_connect(self, utxo_id: U256, key: RsaPublicKeyView)
        requires
            self.wf(),
        ensures
            self.connect(utxo_id, key) matches Ok(r) ==> {
                &&& r.wf()
                &&& self.phase == Phase::Connecting
                &&& (r.phase == Phase::Decoding <==> r.all_connected())
                &&& (r.phase == Phase::Connecting || r.phase == Phase::Decoding)
            },
    {
        self.lemma_position(utxo_id);
        if let Ok(r) = self.connect(utxo_id, key) {
            let i = self.position(utxo_id)->0;
            assert(self.keys[i] is None);
            assert(!self.all_connected());
        }
    }

    pub proof fn lemma_pass_signature(self, utxo_id: U256, signature: Signature)
        requires
            self.wf(),
        ensures
            self.pass_signature(utxo_id, signature) matches Ok(r) ==> {
                &&& r.wf()
                &&& (r.phase == Phase::Submitting <==> r.all_signed())
                &&& (r.phase == Phase::Signing || r.phase == Phase::Submitting)
            },
    {
        self.lemma_position(utxo_id);
    }
}

/// One room: its participants in shuffle order and what they have handed in.
pub struct Room {
    id: u128,
    token: Address,
    amount: U256,
    participants: Vec<U256>,
    keys: Vec<Option<RsaPublicKey>>,
    current_round: usize,
    outputs: Vec<EncodedOutput>,
    signatures: Vec<Option<Signature>>,
    phase: Phase,
}

impl View for Room {
    type V = RoomView;

    closed spec fn view(&self) -> RoomView {
        RoomView {
            id: self.id,
            token: self.token,
            amount: self.amount,
            participants: self.participants@,
            keys: self.keys.deep_view(),
            current_round: self.current_round as nat,
            outputs: self.outputs.deep_view(),
            signatures: self.signatures@,
            phase: self.phase,
        }
    }
}

/// Whether no id occurs twice in `ids`.
pub fn all_distinct(ids: &Vec<U256>) -> (r: bool)
    ensures
        r == ids@.no_duplicates(),
{
    let mut i: usize = 0;
    while i < ids.len()
        invariant
            i <= ids@.len(),
            forall|a: int, b: int| 0 <= a < b < ids@.len() && a < i ==> ids@[a] != ids@[b],
        decreases ids@.len() - i,
    {
        let mut j: usize = i + 1;
        while j < ids.len()
            invariant
                i < ids@.len(),
                i < j <= ids@.len(),
                forall|b: int| i < b < j ==> ids@[i as int] != ids@[b],
            decreases ids@.len() - j,
        {
            if ids[i] == ids[j] {
                assert(ids@[i as int] == ids@[j as int]);
                return false;
            }
            j = j + 1;
        }
        i = i + 1;
    }
    assert forall|a: int, b: int| 0 <= a < ids@.len() && 0 <= b < ids@.len() && a != b implies ids@[a]
        != ids@[b] by {
        if a < b {
        } else {
            assert(ids@[b] != ids@[a]);
        }
    }
    true
}

impl Room {
    /// A new room for `participants`, which decode in the order given. There
    /// is no room without participants, nor one with an id in it twice.
    pub fn new(id: u128, token: Address, amount: U256, participants: Vec<U256>) -> (r: Option<Room>)
        ensures
            r is Some <==> participants@.len() >= 1 && participants@.no_duplicates(),
            r matches Some(room) ==> room@ == RoomView::fresh(id, token, amount, participants@)
                && room@.wf(),
    {
        if participants.len() == 0 || !all_distinct(&participants) {
            return None;
        }
        let n = participants.len();
        let mut keys: Vec<Option<RsaPublicKey>> = Vec::new();
        let mut signatures: Vec<Option<Signature>> = Vec::new();
        let mut i: usize = 0;
        while i < n
            invariant
                i <= n,
                keys@.len() == i,
                signatures@.len() == i,
                forall|j: int| 0 <= j < i ==> (#[trigger] keys@[j]) is None,
                forall|j: int| 0 <= j < i ==> (#[trigger] signatures@[j]) is None,
            decreases n - i,
        {
            keys.push(None);
            signatures.push(None);
            i = i + 1;
        }
        let room = Room {
            id,
            token,
            amount,
            participants,
            keys,
            current_round: 0,
            outputs: Vec::new(),
            signatures,
            phase: Phase::Connecting,
        };
        proof {
            let fresh = RoomView::fresh(id, token, amount, room.participants@);
            assert(room@.keys =~= fresh.keys);
            assert(room@.signatures =~= fresh.signatures);
            assert(room@.outputs =~= fresh.outputs);
            assert(room@.keys[0] is None);
        }
        Some(room)
    }

    pub fn id(&self) -> (r: u128)
        ensures
            r == self@.id,
    {
        self.id
    }

    pub fn token(&self) -> (r: Address)
        ensures
            r == self@.token,
    {
        self.token
    }

    pub fn amount(&self) -> (r: U256)
        ensures
            r == self@.amount,
    {
        self.amount
    }

    /// The participants in shuffle order.
    pub fn participants(&self) -> (r: &Vec<U256>)
        ensures
            r@ == self@.participants,
    {
        &self.participants
    }

    /// The number of participants.
    pub fn size(&self) -> (r: usize)
        ensures
            r == self@.size(),
    {
        self.participants.len()
    }

    pub fn phase(&self) -> (r: Phase)
        ensures
            r == self@.phase,
    {
        self.phase
    }

    /// The index of the participant that decodes next; the room's size once
    /// the rounds are over.
    pub fn current_round(&self) -> (r: usize)
        ensures
            r == self@.current_round,
    {
        self.current_round
    }

    /// The outputs that were handed in last.
    pub fn outputs(&self) -> (r: &Vec<EncodedOutput>)
        ensures
            r.deep_view() == self@.outputs,
    {
        &self.outputs
    }

    /// Whether the room is done or aborted.
    pub fn is_closed(&self) -> (r: bool)
        ensures
            r == self@.closed(),
    {
        match self.phase {
            Phase::Done => true,
            Phase::Aborted => true,
            _ => false,
        }
    }

    /// The place of `utxo_id` in the shuffle order, if it has one.
    pub fn position(&self, utxo_id: &U256) -> (r: Option<usize>)
        requires
            self@.participants.no_duplicates(),
        ensures
            match r {
                Some(i) => self@.position(*utxo_id) == Some(i as int) && i < self@.size(),
                None => self@.position(*utxo_id) is None,
            },
    {
        let mut i: usize = 0;
        while i < self.participants.len()
            invariant
                i <= self.participants@.len(),
                self@.participants.no_duplicates(),
                forall|j: int| 0 <= j < i ==> self.participants@[j] != *utxo_id,
            decreases self.participants@.len() - i,
        {
            if self.participants[i] == *utxo_id {
                proof {
                    self@.lemma_position(*utxo_id);
                }
                return Some(i);
            }
            i = i + 1;
        }
        proof {
            self@.lemma_position(*utxo_id);
        }
        None
    }

    fn all_connected(&self) -> (r: bool)
        ensures
            r == self@.all_connected(),
    {
        let mut i: usize = 0;
        while i < self.keys.len()
            invariant
                i <= self.keys@.len(),
                forall|j: int| 0 <= j < i ==> (#[trigger] self.keys@[j]) is Some,
            decreases self.keys@.len() - i,
        {
            if self.keys[i].is_none() {
                assert(self@.keys[i as int] is None);
                return false;
            }
            i = i + 1;
        }
        assert forall|j: int| 0 <= j < self@.keys.len() implies (#[trigger] self@.keys[j]) is Some by {
            assert(self.keys@[j] is Some);
        }
        true
    }

    fn all_signed(&self) -> (r: bool)
        ensures
            r == self@.all_signed(),
    {
        let mut i: usize = 0;
        while i < self.signatures.len()
            invariant
                i <= self.signatures@.len(),
                forall|j: int| 0 <= j < i ==> (#[trigger] self.signatures@[j]) is Some,
            decreases self.signatures@.len() - i,
        {
            if self.signatures[i].is_none() {
                assert(self@.signatures[i as int] is None);
                return false;
            }
            i = i + 1;
        }
        true
    }

    /// Records the key of a participant that connects. Says whether that was
    /// the last key missing.
    pub fn connect_participant(&mut self, utxo_id: &U256, key: RsaPublicKey) -> (r: Result<
        bool,
        RoomError,
    >)
        requires
            old(self)@.wf(),
        ensures
            final(self)@.wf(),
            match r {
                Ok(complete) => old(self)@.connect(*utxo_id, key@) == Ok::<RoomView, RoomError>(
                    final(self)@,
                ) && complete == (final(self)@.phase == Phase::Decoding),
                Err(e) => old(self)@.connect(*utxo_id, key@) == Err::<RoomView, RoomError>(e)
                    && final(self)@ == old(self)@,
            },
    {
        if self.is_closed() {
            return Err(RoomError::Closed);
        }
        let i = match self.position(utxo_id) {
            None => {
                return Err(RoomError::UnknownParticipant);
            },
            Some(i) => i,
        };
        if self.keys[i].is_some() {
            assert(self@.keys[i as int] is Some);
            return Err(RoomError::AlreadyConnected);
        }
        assert(self@.keys[i as int] is None);
        proof {
            old(self)@.lemma_connect(*utxo_id, key@);
        }
        let ghost key_view = key@;
        self.keys[i] = Some(key);
        assert(self.keys.deep_view() =~= old(self).keys.deep_view().update(i as int, Some(key_view)));
        let complete = self.all_connected();
        if complete {
            self.phase = Phase::Decoding;
        }
        Ok(complete)
    }

    /// Takes the outputs of the participant whose turn it is and moves on to
    /// the next round, or to signing after the last.
    pub fn pass_decoded_outputs(&mut self, utxo_id: &U256, outputs: Vec<EncodedOutput>) -> (r:
        Result<RoundResult, RoomError>)
        requires
            old(self)@.wf(),
        ensures
            final(self)@.wf(),
            match r {
                Ok(next) => old(self)@.pass_outputs(*utxo_id, outputs.deep_view()) == Ok::<
                    RoomView,
                    RoomError,
                >(final(self)@) && next == (if final(self)@.phase == Phase::Signing {
                    RoundResult::Finished
                } else {
                    RoundResult::Round(final(self)@.current_round as usize)
                }),
                Err(e) => old(self)@.pass_outputs(*utxo_id, outputs.deep_view()) == Err::<
                    RoomView,
                    RoomError,
                >(e) && final(self)@ == old(self)@,
            },
    {
        if self.is_closed() {
            return Err(RoomError::Closed);
        }
        match self.phase {
            Phase::Decoding => {},
            _ => {
                return Err(RoomError::WrongTurn);
            },
        }
        if self.participants[self.current_round] != *utxo_id {
            return Err(RoomError::WrongTurn);
        }
        proof {
            old(self)@.lemma_pass_outputs(*utxo_id, outputs.deep_view());
        }
        let size = self.participants.len();
        assert(self.current_round < size);
        let next: usize = self.current_round + 1;
        self.outputs = outputs;
        self.current_round = next;
        if self.current_round < self.participants.len() {
            Ok(RoundResult::Round(self.current_round))
        } else {
            self.phase = Phase::Signing;
            Ok(RoundResult::Finished)
        }
    }

    /// Records a participant's signature. When that completes the set, the
    /// transfer to submit is returned.
    pub fn pass_signature(&mut self, utxo_id: &U256, signature: Signature) -> (r: Result<
        Option<TransferRequest>,
        RoomError,
    >)
        requires
            old(self)@.wf(),
        ensures
            final(self)@.wf(),
            match r {
                Ok(request) => old(self)@.pass_signature(*utxo_id, signature) == Ok::<
                    RoomView,
                    RoomError,
                >(final(self)@) && match request {
                    Some(transfer) => final(self)@.phase == Phase::Submitting && transfer@
                        == final(self)@.transfer(),
                    None => final(self)@.phase == Phase::Signing,
                },
                Err(e) => old(self)@.pass_signature(*utxo_id, signature) == Err::<
                    RoomView,
                    RoomError,
                >(e) && final(self)@ == old(self)@,
            },
    {
        if self.is_closed() {
            return Err(RoomError::Closed);
        }
        match self.phase {
            Phase::Signing => {},
            _ => {
                return Err(RoomError::NotSigning);
            },
        }
        let i = match self.position(utxo_id) {
            None => {
                return Err(RoomError::UnknownParticipant);
            },
            Some(i) => i,
        };
        if self.signatures[i].is_some() {
            return Err(RoomError::DuplicateSignature);
        }
        proof {
            old(self)@.lemma_pass_signature(*utxo_id, signature);
        }
        self.signatures[i] = Some(signature);
        assert(self.signatures@ =~= old(self).signatures@.update(i as int, Some(signature)));
        if self.all_signed() {
            self.phase = Phase::Submitting;
            Ok(Some(self.transfer_request()))
        } else {
            Ok(None)
        }
    }

    /// The transfer of a fully signed room.
    fn transfer_request(&self) -> (r: TransferRequest)
        requires
            self@.all_signed(),
            self@.signatures.len() == self@.participants.len(),
        ensures
            r@ == self@.transfer(),
    {
        let mut inputs: Vec<Input> = Vec::new();
        let mut i: usize = 0;
        while i < self.participants.len()
            invariant
                i <= self.participants@.len(),
                self.signatures@.len() == self.participants@.len(),
                self@.all_signed(),
                inputs@.len() == i,
                forall|j: int| 0 <= j < i ==> inputs@[j] == self@.inputs()[j],
            decreases self.participants@.len() - i,
        {
            assert(self@.signatures[i as int] is Some);
            let signature = match self.signatures[i] {
                Some(s) => s,
                None => Signature { bytes: [0u8; 65] },
            };
            inputs.push(Input { utxo_id: self.participants[i], signature });
            i = i + 1;
        }
        assert(inputs@ =~= self@.inputs());
        TransferRequest { inputs, outputs: clone_outputs(&self.outputs) }
    }

    /// Takes the chain connector's report on the transfer: the room is done
    /// if the transaction was submitted, aborted if not.
    pub fn settle(&mut self, submitted: bool) -> (r: Result<(), RoomError>)
        requires
            old(self)@.wf(),
        ensures
            final(self)@.wf(),
            match r {
                Ok(()) => old(self)@.settle(submitted) == Ok::<RoomView, RoomError>(final(self)@),
                Err(e) => old(self)@.settle(submitted) == Err::<RoomView, RoomError>(e) && final(self)@ == old(self)@,
            },
    {
        if self.is_closed() {
            return Err(RoomError::Closed);
        }
        match self.phase {
            Phase::Submitting => {},
            _ => {
                return Err(RoomError::NoTransferPending);
            },
        }
        self.phase = if submitted {
            Phase::Done
        } else {
            Phase::Aborted
        };
        Ok(())
    }

    /// Gives the room up.
    pub fn abort(&mut self)
        ensures
            final(self)@ == old(self)@.abort(),
    {
        self.phase = Phase::Aborted;
    }

    /// The keys that the participant at `i` layers under: those of the
    /// participants after it, the last participant's first.
    pub fn keys_for(&self, i: usize) -> (r: Vec<RsaPublicKey>)
        requires
            self@.keys.len() == self@.participants.len(),
            self@.all_connected(),
            i < self@.size(),
        ensures
            r.deep_view() == self@.keys_for(i as int),
    {
        let n = self.participants.len();
        let mut r: Vec<RsaPublicKey> = Vec::new();
        let mut j: usize = n - 1;
        while j > i
            invariant
                n == self.participants@.len(),
                self.keys@.len() == n,
                self@.all_connected(),
                i <= j <= n - 1,
                r@.len() == n - 1 - j,
                forall|k: int| 0 <= k < r@.len() ==> r@[k]@ == (self@.keys[n - 1 - k]->0),
            decreases j,
        {
            assert(self@.keys[j as int] is Some);
            match &self.keys[j] {
                Some(key) => {
                    r.push(key.clone());
                },
                None => {},
            }
            j = j - 1;
        }
        assert(r.deep_view() =~= self@.keys_for(i as int));
        r
    }

    /// The participants that have connected, in room order.
    pub fn connected(&self) -> (r: Vec<U256>)
        requires
            self@.keys.len() == self@.participants.len(),
        ensures
            r@ == self@.connected(),
    {
        let mut r: Vec<U256> = Vec::new();
        let mut i: usize = 0;
        while i < self.participants.len()
            invariant
                i <= self.participants@.len(),
                self.keys@.len() == self.participants@.len(),
                r@ == self@.connected_upto(i as int),
            decreases self.participants@.len() - i,
        {
            assert(self@.keys[i as int] is Some <==> self.keys@[i as int] is Some);
            if self.keys[i].is_some() {
                r.push(self.participants[i]);
            }
            i = i + 1;
        }
        r
    }

    /// How far the participant `utxo_id` has come; `None` if the room does not
    /// have it.
    pub fn status(&self, utxo_id: &U256) -> (r: Option<ShuffleRound>)
        requires
            self@.wf(),
        ensures
            match self@.position(*utxo_id) {
                Some(i) => r == Some(self@.status_at(i)),
                None => r is None,
            },
    {
        let i = match self.position(utxo_id) {
            None => {
                return None;
            },
            Some(i) => i,
        };
        assert(self@.keys[i as int] is Some <==> self.keys@[i as int] is Some);
        Some(
            match self.phase {
                Phase::Aborted => ShuffleRound::Aborted,
                Phase::Done => ShuffleRound::Done,
                Phase::Connecting => if self.keys[i].is_some() {
                    ShuffleRound::KeyShared
                } else {
                    ShuffleRound::AwaitingKey
                },
                Phase::Decoding => ShuffleRound::Decoding(self.current_round),
                Phase::Signing | Phase::Submitting => if self.signatures[i].is_some() {
                    ShuffleRound::Signed
                } else {
                    ShuffleRound::Signing
                },
            },
        )
    }
}

} // verus!
