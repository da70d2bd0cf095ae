//! The shuffle service: what each endpoint decides, and the record of the
//! rooms that have been formed.
//!
//! The endpoints here are the decisions only. The transport reads a request,
//! asks the chain where that is needed, calls the endpoint, and sends what it
//! answers: a response, or an event for a room's session.

pub mod auth;
pub mod room;
pub mod state;
pub mod types;

use crate::primitives::{Address, U256};
use crate::service::auth::{
    join_verdict, minted, shuffle_claim_at, shuffle_token, unix_time,
    verify_join_signature_at, JoinSignatureError, RoomAccessClaim, ShuffleAccessClaim,
    TokenError, TokensGenerator,
};
use crate::service::room::{RoomConnectionManager, RoomEvents, RoomEventsView};
use crate::service::state::{Room, RoomView};
use crate::service::types::{
    rsa_key_accepted, canonical, EncodedOutput, RsaPublicKey, RsaPublicKeyView, Signature,
};
use crate::waiter::{batch_of_add, waiting_after_add, waiting_after_adds, Waiter};
use uuid::Uuid;
use vstd::prelude::*;

verus! {

/// An unspent output as the chain reports it.
#[derive(Clone, Copy, Debug, PartialEq, Eq)]
pub struct Utxo {
    pub id: U256,
    pub owner: Address,
    pub token: Address,
    pub amount: U256,
}

/// What the chain connector found for a UTXO id.
#[derive(Clone, Copy, Debug, PartialEq, Eq)]
pub enum ChainLookup {
    /// The connector failed.
    Failed,
    /// The chain has no such UTXO.
    Absent,
    Found(Utxo),
}

/// A UTXO that has been placed in a room.
#[derive(Clone, Copy, Debug, PartialEq, Eq)]
pub struct Participant {
    pub utxo_id: U256,
    pub token: Address,
    pub amount: U256,
    pub room_id: u128,
}

/// The status codes that the endpoints answer with.
#[derive(Clone, Copy, Debug, PartialEq, Eq, Structural)]
pub enum Code {
    InvalidArgument,
    Unauthenticated,
    NotFound,
    Internal,
}

/// Why an endpoint refused a request.
#[derive(Clone, Copy, Debug, PartialEq, Eq, Structural)]
pub enum Rejection {
    /// The UTXO id is longer than 32 bytes.
    MalformedUtxoId,
    /// The chain connector failed.
    ChainFailure,
    /// The chain has no UTXO with the id.
    UnknownUtxo,
    /// The join signature or its timestamp was not accepted.
    InvalidJoin(JoinSignatureError),
    /// The UTXO is waiting or shuffling already.
    AlreadyJoined,
    /// The id drawn for a new room is in use.
    RoomIdTaken,
    /// No token could be minted.
    TokenFailure,
    /// The request carries no token that is accepted.
    InvalidToken,
    /// The UTXO has not been placed in a room.
    ParticipantAbsent,
    /// There is no room with the id.
    RoomAbsent,
    /// The request has no public key.
    MissingPublicKey,
    /// The public key is outside the bounds for an RSA key.
    InvalidPublicKey,
    /// The signature is not 65 bytes long.
    MalformedSignature,
    /// The room's session no longer takes events.
    ChannelClosed,
}

impl Rejection {
    /// The status code for each refusal: the client's faults are invalid
    /// arguments, a missing or refused token is unauthenticated, a UTXO
    /// without a room and a room that is not there are not found, and the
    /// failures of the chain, of minting and of a room's channel are
    /// internal.
    pub open spec fn spec_code(self) -> Code {
        match self {
            Rejection::MalformedUtxoId => Code::InvalidArgument,
            Rejection::ChainFailure => Code::Internal,
            Rejection::UnknownUtxo => Code::InvalidArgument,
            Rejection::InvalidJoin(_) => Code::InvalidArgument,
            Rejection::AlreadyJoined => Code::InvalidArgument,
            Rejection::RoomIdTaken => Code::Internal,
            Rejection::TokenFailure => Code::Internal,
            Rejection::InvalidToken => Code::Unauthenticated,
            Rejection::ParticipantAbsent => Code::NotFound,
            Rejection::RoomAbsent => Code::NotFound,
            Rejection::MissingPublicKey => Code::InvalidArgument,
            Rejection::InvalidPublicKey => Code::InvalidArgument,
            Rejection::MalformedSignature => Code::InvalidArgument,
            Rejection::ChannelClosed => Code::Internal,
        }
    }

    /// The words sent with each refusal.
    pub open spec fn spec_message(self) -> Seq<char> {
        match self {
            Rejection::MalformedUtxoId => "invalid utxo id"@,
            Rejection::ChainFailure => "internal error"@,
            Rejection::UnknownUtxo => "no utxo with such id"@,
            Rejection::InvalidJoin(_) => "invalid signature or timestamp"@,
            Rejection::AlreadyJoined => "utxo has already joined"@,
            Rejection::RoomIdTaken => "internal error"@,
            Rejection::TokenFailure => "internal error"@,
            Rejection::InvalidToken => "invalid token"@,
            Rejection::ParticipantAbsent => "participant is absent"@,
            Rejection::RoomAbsent => "room is absent"@,
            Rejection::MissingPublicKey => "public key is missing"@,
            Rejection::InvalidPublicKey => "invalid rsa public key"@,
            Rejection::MalformedSignature => "invalid signature"@,
            Rejection::ChannelClosed => "internal error"@,
        }
    }

    pub fn code(&self) -> (r: Code)
        ensures
            r == self.spec_code(),
    {
        match self {
            Rejection::MalformedUtxoId => Code::InvalidArgument,
            Rejection::ChainFailure => Code::Internal,
            Rejection::UnknownUtxo => Code::InvalidArgument,
            Rejection::InvalidJoin(_) => Code::InvalidArgument,
            Rejection::AlreadyJoined => Code::InvalidArgument,
            Rejection::RoomIdTaken => Code::Internal,
            Rejection::TokenFailure => Code::Internal,
            Rejection::InvalidToken => Code::Unauthenticated,
            Rejection::ParticipantAbsent => Code::NotFound,
            Rejection::RoomAbsent => Code::NotFound,
            Rejection::MissingPublicKey => Code::InvalidArgument,
            Rejection::InvalidPublicKey => Code::InvalidArgument,
            Rejection::MalformedSignature => Code::InvalidArgument,
            Rejection::ChannelClosed => Code::Internal,
        }
    }

    pub fn message(&self) -> (r: String)
        ensures
            r@ == self.spec_message(),
    {
        match self {
            Rejection::MalformedUtxoId => "invalid utxo id".to_owned(),
            Rejection::ChainFailure => "internal error".to_owned(),
            Rejection::UnknownUtxo => "no utxo with such id".to_owned(),
            Rejection::InvalidJoin(_) => "invalid signature or timestamp".to_owned(),
            Rejection::AlreadyJoined => "utxo has already joined".to_owned(),
            Rejection::RoomIdTaken => "internal error".to_owned(),
            Rejection::TokenFailure => "internal error".to_owned(),
            Rejection::InvalidToken => "invalid token".to_owned(),
            Rejection::ParticipantAbsent => "participant is absent".to_owned(),
            Rejection::RoomAbsent => "room is absent".to_owned(),
            Rejection::MissingPublicKey => "public key is missing".to_owned(),
            Rejection::InvalidPublicKey => "invalid rsa public key".to_owned(),
            Rejection::MalformedSignature => "invalid signature".to_owned(),
            Rejection::ChannelClosed => "internal error".to_owned(),
        }
    }
}

/// Reads the UTXO id of a request: a big-endian integer of at most 32 bytes.
pub fn parse_utxo_id(bytes: &[u8]) -> (r: Result<U256, Rejection>)
    ensures
        match r {
            Ok(id) => bytes@.len() <= 32 && id@ == crate::primitives::left_pad_32(bytes@),
            Err(e) => bytes@.len() > 32 && e == Rejection::MalformedUtxoId,
        },
{
    if bytes.len() > 32 {
        Err(Rejection::MalformedUtxoId)
    } else {
        Ok(U256::from_big_endian(bytes))
    }
}

/// Draws a room id with `Uuid::new_v4`, which is random: nothing is promised
/// of the value.
#[verifier::external_body]
fn fresh_room_id() -> (r: u128) {
    Uuid::new_v4().as_u128()
}

/// A room as the service records it when it is formed.
pub struct RoomRecord {
    id: u128,
    token: Address,
    amount: U256,
    participants: Vec<U256>,
    formed_at: u64,
    spawned: bool,
}

pub struct RoomRecordView {
    pub id: u128,
    pub token: Address,
    pub amount: U256,
    pub participants: Seq<U256>,
    /// When the room was formed, in seconds since 1970.
    pub formed_at: u64,
    /// Whether a session has been started for the room.
    pub spawned: bool,
}

impl View for RoomRecord {
    type V = RoomRecordView;

    closed spec fn view(&self) -> RoomRecordView {
        RoomRecordView {
            id: self.id,
            token: self.token,
            amount: self.amount,
            participants: self.participants@,
            formed_at: self.formed_at,
            spawned: self.spawned,
        }
    }
}

impl DeepView for RoomRecord {
    type V = RoomRecordView;

    closed spec fn deep_view(&self) -> RoomRecordView {
        self@
    }
}

/// Some room has the id.
pub open spec fn has_room(rooms: Seq<RoomRecordView>, id: u128) -> bool {
    exists|i: int| 0 <= i < rooms.len() && (#[trigger] rooms[i]).id == id
}

/// The place of the room with the id.
pub open spec fn index_of_room(rooms: Seq<RoomRecordView>, id: u128) -> int {
    choose|i: int| 0 <= i < rooms.len() && (#[trigger] rooms[i]).id == id
}

/// Some room has the UTXO among its participants.
pub open spec fn hosts(rooms: Seq<RoomRecordView>, utxo_id: U256) -> bool {
    exists|i: int| 0 <= i < rooms.len() && (#[trigger] rooms[i]).participants.contains(utxo_id)
}

/// The place of the room that has the UTXO among its participants.
pub open spec fn index_of_host(rooms: Seq<RoomRecordView>, utxo_id: U256) -> int {
    choose|i: int| 0 <= i < rooms.len() && (#[trigger] rooms[i]).participants.contains(utxo_id)
}

/// The participant record of a UTXO that a room hosts.
pub open spec fn participant_in(rooms: Seq<RoomRecordView>, utxo_id: U256) -> Participant {
    let room = rooms[index_of_host(rooms, utxo_id)];
    Participant { utxo_id, token: room.token, amount: room.amount, room_id: room.id }
}

/// Rooms have participants, none twice; no two rooms share an id; and no
/// UTXO is in two rooms.
pub open spec fn rooms_wf(rooms: Seq<RoomRecordView>) -> bool {
    &&& forall|i: int|
        0 <= i < rooms.len() ==> (#[trigger] rooms[i]).participants.len() >= 1
            && rooms[i].participants.no_duplicates()
    &&& forall|i: int, j: int|
        0 <= i < j < rooms.len() ==> (#[trigger] rooms[i]).id != (#[trigger] rooms[j]).id
    &&& forall|i: int, j: int, u: U256|
        0 <= i < j < rooms.len() && (#[trigger] rooms[i].participants.contains(u)) ==> !(
        #[trigger] rooms[j].participants.contains(u))
}

/// The record of a room that has just been formed, at the time `formed_at`.
pub open spec fn new_record(
    id: u128,
    token: Address,
    amount: U256,
    participants: Seq<U256>,
    formed_at: u64,
) -> RoomRecordView {
    RoomRecordView { id, token, amount, participants, formed_at, spawned: false }
}

/// Whether a room's deadline has passed at `now`: `deadline` seconds or more
/// have gone by since it was formed.
pub open spec fn is_overdue(room: RoomRecordView, deadline: u64, now: u64) -> bool {
    room.formed_at + deadline <= now
}

/// The ids of the rooms whose deadline has passed at `now`, in the order of
/// the rooms.
pub open spec fn overdue(rooms: Seq<RoomRecordView>, deadline: u64, now: u64) -> Seq<u128>
    decreases rooms.len(),
{
    if rooms.len() == 0 {
        Seq::empty()
    } else if is_overdue(rooms.last(), deadline, now) {
        overdue(rooms.drop_last(), deadline, now).push(rooms.last().id)
    } else {
        overdue(rooms.drop_last(), deadline, now)
    }
}

/// Deadline of a room. A room is named as overdue at `now` exactly if it is
/// one of the rooms and `deadline` seconds have passed since it was formed:
/// so every room that is not cleared within its deadline is named from then
/// on, whether or not anybody has connected to it.
pub proof fn lemma_overdue(rooms: Seq<RoomRecordView>, deadline: u64, now: u64, id: u128)
    ensures
        overdue(rooms, deadline, now).contains(id) <==> exists|i: int|
            0 <= i < rooms.len() && (#[trigger] rooms[i]).id == id && is_overdue(
                rooms[i],
                deadline,
                now,
            ),
    decreases rooms.len(),
{
    if rooms.len() > 0 {
        let rest = rooms.drop_last();
        let last = rooms.last();
        lemma_overdue(rest, deadline, now, id);
        let named = overdue(rest, deadline, now);
        if overdue(rooms, deadline, now).contains(id) {
            if named.contains(id) {
                let i = choose|i: int|
                    0 <= i < rest.len() && (#[trigger] rest[i]).id == id && is_overdue(
                        rest[i],
                        deadline,
                        now,
                    );
                assert(rooms[i].id == id);
            } else {
                let k = choose|k: int|
                    0 <= k < overdue(rooms, deadline, now).len() && overdue(
                        rooms,
                        deadline,
                        now,
                    )[k] == id;
                if is_overdue(last, deadline, now) {
                    if k < named.len() {
                        assert(named[k] == id);
                    }
                    assert(rooms[rooms.len() - 1].id == id);
                } else {
                    assert(named[k] == id);
                }
            }
        }
        if exists|i: int|
            0 <= i < rooms.len() && (#[trigger] rooms[i]).id == id && is_overdue(
                rooms[i],
                deadline,
                now,
            ) {
            let i = choose|i: int|
                0 <= i < rooms.len() && (#[trigger] rooms[i]).id == id && is_overdue(
                    rooms[i],
                    deadline,
                    now,
                );
            if i < rest.len() {
                assert(rest[i].id == id);
                assert(named.contains(id));
                let k = choose|k: int| 0 <= k < named.len() && named[k] == id;
                assert(overdue(rooms, deadline, now)[k] == id);
            } else {
                assert(overdue(rooms, deadline, now)[named.len() as int] == id);
            }
        }
    }
}

/// The rooms after a session has been started for the room with the id.
pub open spec fn with_spawned(rooms: Seq<RoomRecordView>, id: u128) -> Seq<RoomRecordView> {
    let i = index_of_room(rooms, id);
    rooms.update(i, RoomRecordView { spawned: true, ..rooms[i] })
}

/// The room's state when its session starts.
pub open spec fn starting_room(record: RoomRecordView) -> RoomView {
    RoomView::fresh(record.id, record.token, record.amount, record.participants)
}

/// In well-formed rooms, an id names one place.
pub proof fn lemma_room_index(rooms: Seq<RoomRecordView>, i: int)
    requires
        rooms_wf(rooms),
        0 <= i < rooms.len(),
    ensures
        has_room(rooms, rooms[i].id),
        index_of_room(rooms, rooms[i].id) == i,
{
    let k = index_of_room(rooms, rooms[i].id);
    assert(0 <= k < rooms.len() && rooms[k].id == rooms[i].id);
    if k < i {
        assert(rooms[k].id != rooms[i].id);
    } else if i < k {
        assert(rooms[i].id != rooms[k].id);
    }
}

/// In well-formed rooms, a UTXO has one host.
pub proof fn lemma_host_index(rooms: Seq<RoomRecordView>, i: int, utxo_id: U256)
    requires
        rooms_wf(rooms),
        0 <= i < rooms.len(),
        rooms[i].participants.contains(utxo_id),
    ensures
        hosts(rooms, utxo_id),
        index_of_host(rooms, utxo_id) == i,
{
    let k = index_of_host(rooms, utxo_id);
    assert(0 <= k < rooms.len() && rooms[k].participants.contains(utxo_id));
    if k < i {
        assert(!rooms[i].participants.contains(utxo_id));
    } else if i < k {
        assert(!rooms[k].participants.contains(utxo_id));
    }
}

/// A copy of a list of ids.
pub fn clone_ids(ids: &Vec<U256>) -> (r: Vec<U256>)
    ensures
        r@ == ids@,
{
    let mut r: Vec<U256> = Vec::new();
    let mut i: usize = 0;
    while i < ids.len()
        invariant
            i <= ids@.len(),
            r@ == ids@.subrange(0, i as int),
        decreases ids@.len() - i,
    {
        r.push(ids[i]);
        assert(r@ =~= ids@.subrange(0, i + 1));
        i = i + 1;
    }
    assert(r@ =~= ids@);
    r
}

/// Whether `ids` holds `id`.
pub fn holds(ids: &Vec<U256>, id: &U256) -> (r: bool)
    ensures
        r == ids@.contains(*id),
{
    let mut i: usize = 0;
    while i < ids.len()
        invariant
            i <= ids@.len(),
            forall|j: int| 0 <= j < i ==> ids@[j] != *id,
        decreases ids@.len() - i,
    {
        if ids[i] == *id {
            assert(ids@[i as int] == *id);
            return true;
        }
        i = i + 1;
    }
    false
}

/// How an endpoint reaches the session of a room.
pub enum RoomStream {
    /// The session runs already: the event goes to its channel.
    Existing,
    /// The session starts with this call: the caller runs it.
    Spawned(RoomConnectionManager),
}

/// The service: the waiter, the rooms that have been formed, and the keys
/// and settings that the endpoints work with.
pub struct Protocol {
    tokens_generator: TokensGenerator,
    shuffle_round_deadline: u64,
    waiter: Waiter,
    rooms: Vec<RoomRecord>,
}

impl Protocol {
    /// The rooms that have been formed and not yet cleared, oldest first.
    pub closed spec fn rooms(&self) -> Seq<RoomRecordView> {
        self.rooms.deep_view()
    }

    /// The ids waiting for a room under `(token, amount)`, oldest first.
    pub closed spec fn waiting(&self, token: Address, amount: U256) -> Seq<U256> {
        self.waiter.waiting(token, amount)
    }

    /// The number of participants that form a room.
    pub closed spec fn room_size(&self) -> nat {
        self.waiter.room_size()
    }

    /// The key that tokens are signed with.
    pub closed spec fn secret(&self) -> Seq<char> {
        self.tokens_generator.secret()
    }

    /// The seconds after which a room is given up.
    pub closed spec fn deadline(&self) -> u64 {
        self.shuffle_round_deadline
    }

    /// The waiter and the rooms are well-formed, nobody waits twice, and
    /// nobody waits who is in a room.
    pub closed spec fn wf(&self) -> bool {
        &&& self.waiter.wf()
        &&& rooms_wf(self.rooms())
        &&& forall|token: Address, amount: U256| (#[trigger] self.waiter.waiting(token, amount)).no_duplicates()
        &&& forall|token: Address, amount: U256, u: U256|
            (#[trigger] self.waiter.waiting(token, amount).contains(u)) ==> !hosts(self.rooms(), u)
        &&& forall|t1: Address, a1: U256, t2: Address, a2: U256, u: U256|
            (#[trigger] self.waiter.waiting(t1, a1).contains(u)) && (#[trigger] self.waiter.waiting(
                t2,
                a2,
            ).contains(u)) ==> t1 == t2 && a1 == a2
    }

    /// The UTXO waits under some class.
    pub closed spec fn waits(&self, utxo_id: U256) -> bool {
        self.waiter.waiting_anywhere(utxo_id)
    }

    /// A UTXO waits exactly if it is in the queue of some class.
    pub proof fn lemma_waits(&self, utxo_id: U256)
        ensures
            self.waits(utxo_id) <==> exists|token: Address, amount: U256| #[trigger]
                self.waiting(token, amount).contains(utxo_id),
    {
        if self.waits(utxo_id) {
            let (token, amount) = choose|token: Address, amount: U256| #[trigger]
                self.waiter.waiting(token, amount).contains(utxo_id);
            assert(self.waiting(token, amount).contains(utxo_id));
        }
        if exists|token: Address, amount: U256| #[trigger]
            self.waiting(token, amount).contains(utxo_id) {
            let (token, amount) = choose|token: Address, amount: U256| #[trigger]
                self.waiting(token, amount).contains(utxo_id);
            assert(self.waiter.waiting(token, amount).contains(utxo_id));
        }
    }

    /// What well-formedness says of the queues and the rooms.
    pub proof fn lemma_wf(&self, token: Address, amount: U256, utxo_id: U256)
        requires
            self.wf(),
        ensures
            rooms_wf(self.rooms()),
            self.room_size() >= 1,
            self.waiting(token, amount).len() < self.room_size(),
            self.waiting(token, amount).no_duplicates(),
            self.waiting(token, amount).contains(utxo_id) ==> !hosts(self.rooms(), utxo_id),
            self.waiting(token, amount).contains(utxo_id) ==> self.waits(utxo_id),
            forall|t: Address, a: U256|
                self.waiting(token, amount).contains(utxo_id) && (#[trigger] self.waiting(
                    t,
                    a,
                ).contains(utxo_id)) ==> t == token && a == amount,
    {
        self.waiter.lemma_waiting_below_room_size(token, amount);
    }

    /// The settings are the same and no queue differs.
    pub open spec fn same_queues(&self, other: &Protocol) -> bool {
        &&& self.room_size() == other.room_size()
        &&& self.secret() == other.secret()
        &&& self.deadline() == other.deadline()
        &&& forall|token: Address, amount: U256| #[trigger]
            self.waiting(token, amount) == other.waiting(token, amount)
    }

    /// A service without rooms or waiting participants.
    pub fn new(
        token_key: String,
        shuffle_round_deadline: u64,
        min_room_size: usize,
    ) -> (r: Protocol)
        requires
            min_room_size >= 1,
        ensures
            r.wf(),
            r.rooms() == Seq::<RoomRecordView>::empty(),
            r.room_size() == min_room_size,
            r.secret() == token_key@,
            r.deadline() == shuffle_round_deadline,
            forall|token: Address, amount: U256| #[trigger]
                r.waiting(token, amount) == Seq::<U256>::empty(),
    {
        let r = Protocol {
            tokens_generator: TokensGenerator::new(token_key),
            shuffle_round_deadline,
            waiter: Waiter::new(min_room_size),
            rooms: Vec::new(),
        };
        assert(r.rooms() =~= Seq::<RoomRecordView>::empty());
        r
    }

    /// The number of participants that form a room.
    pub fn min_room_size(&self) -> (r: usize)
        ensures
            r == self.room_size(),
    {
        self.waiter.min_participants()
    }

    /// The seconds after which a room is given up.
    pub fn shuffle_round_deadline(&self) -> (r: u64)
        ensures
            r == self.deadline(),
    {
        self.shuffle_round_deadline
    }

    /// The place of the room with the id.
    fn find_room(&self, room_id: u128) -> (r: Option<usize>)
        ensures
            match r {
                Some(i) => i < self.rooms().len() && self.rooms()[i as int].id == room_id,
                None => !has_room(self.rooms(), room_id),
            },
    {
        let mut i: usize = 0;
        while i < self.rooms.len()
            invariant
                i <= self.rooms@.len(),
                forall|j: int| 0 <= j < i ==> (#[trigger] self.rooms()[j]).id != room_id,
            decreases self.rooms@.len() - i,
        {
            if self.rooms[i].id == room_id {
                return Some(i);
            }
            i = i + 1;
        }
        None
    }

    /// The place of the room that has the UTXO among its participants.
    fn find_host(&self, utxo_id: &U256) -> (r: Option<usize>)
        ensures
            match r {
                Some(i) => i < self.rooms().len() && self.rooms()[i as int].participants.contains(
                    *utxo_id,
                ),
                None => !hosts(self.rooms(), *utxo_id),
            },
    {
        let mut i: usize = 0;
        while i < self.rooms.len()
            invariant
                i <= self.rooms@.len(),
                forall|j: int|
                    0 <= j < i ==> !(#[trigger] self.rooms()[j]).participants.contains(*utxo_id),
            decreases self.rooms@.len() - i,
        {
            if holds(&self.rooms[i].participants, utxo_id) {
                return Some(i);
            }
            i = i + 1;
        }
        None
    }

    /// The participant record of a UTXO, if a room hosts it.
    pub fn get_participant(&self, utxo_id: &U256) -> (r: Option<Participant>)
        requires
            self.wf(),
        ensures
            r is Some <==> hosts(self.rooms(), *utxo_id),
            r matches Some(p) ==> p == participant_in(self.rooms(), *utxo_id),
    {
        match self.find_host(utxo_id) {
            None => None,
            Some(i) => {
                proof {
                    lemma_host_index(self.rooms(), i as int, *utxo_id);
                }
                let room = &self.rooms[i];
                Some(
                    Participant {
                        utxo_id: *utxo_id,
                        token: room.token,
                        amount: room.amount,
                        room_id: room.id,
                    },
                )
            },
        }
    }

    /// The way to the session of a room. For a room whose session does not
    /// run yet, the session is made, with the service's deadline and key,
    /// and the room is marked as started; for an unknown room there is no
    /// way.
    pub fn get_room_stream(&mut self, room_id: u128) -> (r: Option<RoomStream>)
        requires
            old(self).wf(),
        ensures
            final(self).wf(),
            final(self).same_queues(old(self)),
            match r {
                None => !has_room(old(self).rooms(), room_id) && final(self).rooms() == old(
                    self,
                ).rooms(),
                Some(RoomStream::Existing) => has_room(old(self).rooms(), room_id) && old(
                    self,
                ).rooms()[index_of_room(old(self).rooms(), room_id)].spawned && final(self).rooms()
                    == old(self).rooms(),
                Some(RoomStream::Spawned(session)) => {
                    &&& has_room(old(self).rooms(), room_id)
                    &&& !old(self).rooms()[index_of_room(old(self).rooms(), room_id)].spawned
                    &&& final(self).rooms() == with_spawned(old(self).rooms(), room_id)
                    &&& session.room() == starting_room(
                        old(self).rooms()[index_of_room(old(self).rooms(), room_id)],
                    )
                    &&& session.room().wf()
                    &&& session.deadline() == old(self).deadline()
                    &&& session.secret() == old(self).secret()
                },
            },
    {
        let i = match self.find_room(room_id) {
            None => {
                return None;
            },
            Some(i) => i,
        };
        proof {
            lemma_room_index(self.rooms(), i as int);
        }
        if self.rooms[i].spawned {
            return Some(RoomStream::Existing);
        }
        let record = &self.rooms[i];
        let participants = clone_ids(&record.participants);
        let room = match Room::new(record.id, record.token, record.amount, participants) {
            None => {
                assert(self.rooms()[i as int].participants.len() >= 1);
                assert(false);
                return None;
            },
            Some(room) => room,
        };
        let mut session = RoomConnectionManager::new(room, self.tokens_generator.clone());
        session.set_deadline(self.shuffle_round_deadline);
        self.rooms[i].spawned = true;
        proof {
            assert(self.rooms() =~= with_spawned(old(self).rooms(), room_id));
            let before = old(self).rooms();
            let after = self.rooms();
            assert forall|k: int| 0 <= k < after.len() implies (#[trigger] after[k]).id
                == before[k].id && after[k].participants == before[k].participants by {}
            assert(rooms_wf(after)) by {
                assert forall|a: int, b: int, u: U256|
                    0 <= a < b < after.len() && (#[trigger] after[a].participants.contains(
                        u,
                    )) implies !(#[trigger] after[b].participants.contains(u)) by {
                    assert(before[a].participants.contains(u));
                    assert(!before[b].participants.contains(u));
                }
                assert forall|a: int, b: int| 0 <= a < b < after.len() implies (
                #[trigger] after[a]).id != (#[trigger] after[b]).id by {
                    assert(before[a].id != before[b].id);
                }
            }
            assert forall|u: U256| hosts(after, u) implies hosts(before, u) by {
                let k = index_of_host(after, u);
                assert(before[k].participants.contains(u));
            }
        }
        Some(RoomStream::Spawned(session))
    }

    /// The ids of the rooms whose deadline has passed at `now`: those formed
    /// the service's deadline or longer ago, in the order of the rooms.
    pub fn overdue_rooms(&self, now: u64) -> (r: Vec<u128>)
        ensures
            r@ == overdue(self.rooms(), self.deadline(), now),
    {
        let mut r: Vec<u128> = Vec::new();
        let mut i: usize = 0;
        while i < self.rooms.len()
            invariant
                i <= self.rooms@.len(),
                r@ == overdue(self.rooms().take(i as int), self.deadline(), now),
            decreases self.rooms@.len() - i,
        {
            proof {
                assert(self.rooms().take(i + 1).drop_last() =~= self.rooms().take(i as int));
                assert(self.rooms().take(i + 1).last() == self.rooms()[i as int]);
            }
            let record = &self.rooms[i];
            let due = match record.formed_at.checked_add(self.shuffle_round_deadline) {
                Some(end) => end <= now,
                None => false,
            };
            if due {
                r.push(record.id);
            }
            i = i + 1;
        }
        assert(self.rooms().take(self.rooms().len() as int) =~= self.rooms());
        r
    }

    /// The rooms that [`overdue`] names at a reading of the clock; none if
    /// the clock stands before 1970.
    pub open spec fn overdue_at(&self, now: Option<u64>) -> Seq<u128> {
        match now {
            Some(now) => overdue(self.rooms(), self.deadline(), now),
            None => Seq::empty(),
        }
    }

    /// The ids of the rooms whose deadline has passed: reads the clock, then
    /// answers as [`Protocol::overdue_rooms`] does.
    pub fn overdue_rooms_now(&self) -> (r: Vec<u128>)
        ensures
            exists|now: Option<u64>| r@ == #[trigger] self.overdue_at(now),
    {
        let now = unix_time();
        let r = match now {
            Some(now) => self.overdue_rooms(now),
            None => Vec::new(),
        };
        assert(r@ =~= self.overdue_at(now));
        r
    }

    /// Forgets a room: its participants are free to join again, and its
    /// session can no longer be reached.
    pub fn clear_room(&mut self, room_id: u128)
        requires
            old(self).wf(),
        ensures
            final(self).wf(),
            final(self).same_queues(old(self)),
            !has_room(final(self).rooms(), room_id),
            final(self).rooms() == (if has_room(old(self).rooms(), room_id) {
                old(self).rooms().remove(index_of_room(old(self).rooms(), room_id))
            } else {
                old(self).rooms()
            }),
    {
        let i = match self.find_room(room_id) {
            None => {
                return ;
            },
            Some(i) => i,
        };
        proof {
            lemma_room_index(self.rooms(), i as int);
        }
        let _ = self.rooms.remove(i);
        proof {
            let before = old(self).rooms();
            let after = self.rooms();
            assert(after =~= before.remove(i as int));
            assert forall|k: int| 0 <= k < after.len() implies (#[trigger] after[k]) == (if k
                < i {
                before[k]
            } else {
                before[k + 1]
            }) by {}
            assert(rooms_wf(after)) by {
                assert forall|k: int| 0 <= k < after.len() implies (
                #[trigger] after[k]).participants.len() >= 1
                    && after[k].participants.no_duplicates() by {
                    let m = if k < i { k } else { k + 1 };
                    assert(before[m].participants.len() >= 1);
                }
                assert forall|a: int, b: int| 0 <= a < b < after.len() implies (
                #[trigger] after[a]).id != (#[trigger] after[b]).id by {
                    let ma = if a < i { a } else { a + 1 };
                    let mb = if b < i { b } else { b + 1 };
                    assert(before[ma].id != before[mb].id);
                }
                assert forall|a: int, b: int, u: U256|
                    0 <= a < b < after.len() && (#[trigger] after[a].participants.contains(
                        u,
                    )) implies !(#[trigger] after[b].participants.contains(u)) by {
                    let ma = if a < i { a } else { a + 1 };
                    let mb = if b < i { b } else { b + 1 };
                    assert(before[ma].participants.contains(u));
                    assert(!before[mb].participants.contains(u));
                }
            }
            assert forall|u: U256| hosts(after, u) implies hosts(before, u) by {
                let k = index_of_host(after, u);
                let m = if k < i { k } else { k + 1 };
                assert(before[m].participants.contains(u));
            }
            assert(!has_room(after, room_id)) by {
                assert forall|k: int| 0 <= k < after.len() implies (#[trigger] after[k]).id
                    != room_id by {
                    let m = if k < i { k } else { k + 1 };
                    if m < i {
                        assert(before[m].id != before[i as int].id);
                    } else {
                        assert(before[i as int].id != before[m].id);
                    }
                }
            }
        }
    }
}

/// The answer to a join request.
#[derive(Debug, PartialEq, Eq)]
pub struct JoinShuffleRoomResponse {
    pub room_access_token: String,
}

/// The answer to the question whether a room is ready.
#[derive(Debug, PartialEq, Eq)]
pub struct IsReadyForShuffleResponse {
    pub ready: bool,
    pub room_access_token: String,
}

/// An event for the session of a room, and the way to that session.
pub struct Dispatch {
    pub room_id: u128,
    pub stream: RoomStream,
    pub event: RoomEvents,
}

/// The class whose queue a join request adds to.
pub open spec fn class_of(lookup: ChainLookup) -> (Address, U256) {
    (lookup->Found_0.token, lookup->Found_0.amount)
}

impl Protocol {
    /// The token that a join or a refresh at `now` hands out for the three
    /// values of a claim.
    pub open spec fn access_token(
        &self,
        token: Address,
        amount: U256,
        utxo_id: U256,
        now: Option<u64>,
    ) -> Result<Seq<char>, TokenError> {
        minted(now, shuffle_token(self.secret(), shuffle_claim_at(token, amount, utxo_id, now->0)))
    }

    /// Why a join request is refused, if it is. In this order: the chain
    /// must know the UTXO; the signature must be the owner's and not dated
    /// ahead of `now`; the UTXO must be neither waiting nor in a room; the
    /// id drawn for the room that the join would complete must be free; and
    /// the token must be minted.
    pub open spec fn join_refusal(
        &self,
        lookup: ChainLookup,
        timestamp: u64,
        signature: Seq<u8>,
        now: Option<u64>,
        room_id: u128,
    ) -> Option<Rejection> {
        match lookup {
            ChainLookup::Failed => Some(Rejection::ChainFailure),
            ChainLookup::Absent => Some(Rejection::UnknownUtxo),
            ChainLookup::Found(utxo) => match join_verdict(
                utxo.id,
                timestamp,
                signature,
                utxo.owner,
                now,
            ) {
                Err(e) => Some(Rejection::InvalidJoin(e)),
                Ok(()) => if hosts(self.rooms(), utxo.id) || self.waits(utxo.id) {
                    Some(Rejection::AlreadyJoined)
                } else if self.waiting(utxo.token, utxo.amount).len() + 1 == self.room_size()
                    && has_room(self.rooms(), room_id) {
                    Some(Rejection::RoomIdTaken)
                } else if self.access_token(utxo.token, utxo.amount, utxo.id, now) is Err {
                    Some(Rejection::TokenFailure)
                } else {
                    None
                },
            },
        }
    }

    /// What a join request does. A refused request changes nothing. An
    /// accepted one queues the UTXO under its class; if that fills the
    /// queue, the queue is emptied into a new room with the id `room_id`,
    /// formed at `now`, whose participants are the queued ids, oldest first.
    /// The answer is the shuffle access token of the UTXO.
    pub open spec fn joined(
        &self,
        after: &Protocol,
        answer: Result<JoinShuffleRoomResponse, Rejection>,
        lookup: ChainLookup,
        timestamp: u64,
        signature: Seq<u8>,
        now: Option<u64>,
        room_id: u128,
    ) -> bool {
        match answer {
            Err(e) => {
                &&& self.join_refusal(lookup, timestamp, signature, now, room_id) == Some(e)
                &&& after.rooms() == self.rooms()
                &&& after.same_queues(self)
            },
            Ok(response) => {
                let utxo = lookup->Found_0;
                let queue = self.waiting(utxo.token, utxo.amount);
                &&& self.join_refusal(lookup, timestamp, signature, now, room_id) is None
                &&& Ok::<Seq<char>, TokenError>(response.room_access_token@) == self.access_token(
                    utxo.token,
                    utxo.amount,
                    utxo.id,
                    now,
                )
                &&& after.room_size() == self.room_size()
                &&& after.secret() == self.secret()
                &&& after.deadline() == self.deadline()
                &&& after.waiting(utxo.token, utxo.amount) == waiting_after_add(
                    queue,
                    self.room_size(),
                    utxo.id,
                )
                &&& forall|t: Address, a: U256|
                    !(t == utxo.token && a == utxo.amount) ==> #[trigger] after.waiting(t, a)
                        == self.waiting(t, a)
                &&& after.rooms() == (match batch_of_add(queue, self.room_size(), utxo.id) {
                    Some(ids) => self.rooms().push(
                        new_record(room_id, utxo.token, utxo.amount, ids, now->0),
                    ),
                    None => self.rooms(),
                })
            },
        }
    }

    /// Decides a join request as of the time `now`, with `room_id` as the id
    /// of the room that the join may complete: see [`Protocol::joined`].
    pub fn join_shuffle_room_at(
        &mut self,
        lookup: ChainLookup,
        timestamp: u64,
        signature: Vec<u8>,
        now: Option<u64>,
        room_id: u128,
    ) -> (r: Result<JoinShuffleRoomResponse, Rejection>)
        requires
            old(self).wf(),
        ensures
            final(self).wf(),
            old(self).joined(final(self), r, lookup, timestamp, signature@, now, room_id),
    {
        let utxo = match lookup {
            ChainLookup::Failed => {
                return Err(Rejection::ChainFailure);
            },
            ChainLookup::Absent => {
                return Err(Rejection::UnknownUtxo);
            },
            ChainLookup::Found(utxo) => utxo,
        };
        match verify_join_signature_at(&utxo.id, timestamp, &signature, utxo.owner, now) {
            Err(e) => {
                return Err(Rejection::InvalidJoin(e));
            },
            Ok(()) => {},
        }
        if self.find_host(&utxo.id).is_some() || self.waiter.is_waiting_anywhere(utxo.id) {
            return Err(Rejection::AlreadyJoined);
        }
        proof {
            self.lemma_wf(utxo.token, utxo.amount, utxo.id);
        }
        let room_size = self.waiter.min_participants();
        let queued = self.waiter.waiting_len(utxo.token, utxo.amount);
        let completes = queued + 1 == room_size;
        if completes && self.find_room(room_id).is_some() {
            return Err(Rejection::RoomIdTaken);
        }
        let token = match self.tokens_generator.generate_shuffle_token_at(
            utxo.token,
            utxo.amount,
            utxo.id,
            now,
        ) {
            Err(_) => {
                return Err(Rejection::TokenFailure);
            },
            Ok(token) => token,
        };
        let formed_at = match now {
            Some(now) => now,
            None => {
                assert(false);
                0
            },
        };
        let ghost queue = self.waiting(utxo.token, utxo.amount);
        match self.waiter.add_participant(utxo.token, utxo.amount, utxo.id) {
            None => {
                proof {
                    assert forall|t: Address, a: U256| (#[trigger] self.waiter.waiting(
                        t,
                        a,
                    )).no_duplicates() by {
                        old(self).lemma_wf(t, a, utxo.id);
                        if t == utxo.token && a == utxo.amount {
                            lemma_push_no_duplicates(queue, utxo.id);
                        }
                    }
                    assert forall|t: Address, a: U256, u: U256| (#[trigger] self.waiter.waiting(
                        t,
                        a,
                    ).contains(u)) implies !hosts(self.rooms(), u) by {
                        old(self).lemma_wf(t, a, u);
                        if t == utxo.token && a == utxo.amount {
                            lemma_push_contains(queue, utxo.id, u);
                        }
                    }
                    assert forall|t1: Address, a1: U256, t2: Address, a2: U256, u: U256|
                        (#[trigger] self.waiter.waiting(t1, a1).contains(u)) && (
                        #[trigger] self.waiter.waiting(t2, a2).contains(u)) implies t1 == t2 && a1
                        == a2 by {
                        old(self).lemma_wf(t1, a1, u);
                        old(self).lemma_wf(t2, a2, u);
                        lemma_push_contains(queue, utxo.id, u);
                        if u == utxo.id {
                            if !(t1 == utxo.token && a1 == utxo.amount) {
                                assert(old(self).waiter.waiting(t1, a1).contains(utxo.id));
                            }
                            if !(t2 == utxo.token && a2 == utxo.amount) {
                                assert(old(self).waiter.waiting(t2, a2).contains(utxo.id));
                            }
                        }
                    }
                }
            },
            Some(participants) => {
                proof {
                    lemma_push_no_duplicates(queue, utxo.id);
                }
                let ghost before = self.rooms();
                let ghost ids = participants@;
                self.rooms.push(
                    RoomRecord {
                        id: room_id,
                        token: utxo.token,
                        amount: utxo.amount,
                        participants,
                        formed_at,
                        spawned: false,
                    },
                );
                proof {
                    let after = self.rooms();
                    let record = new_record(room_id, utxo.token, utxo.amount, ids, formed_at);
                    assert(after =~= before.push(record));
                    assert(rooms_wf(after)) by {
                        assert forall|a: int, b: int| 0 <= a < b < after.len() implies (
                        #[trigger] after[a]).id != (#[trigger] after[b]).id by {
                            if b == before.len() {
                                assert(before[a].id != room_id);
                            } else {
                                assert(before[a].id != before[b].id);
                            }
                        }
                        assert forall|a: int, b: int, u: U256|
                            0 <= a < b < after.len() && (#[trigger] after[a].participants.contains(
                                u,
                            )) implies !(#[trigger] after[b].participants.contains(u)) by {
                            assert(before[a].participants.contains(u));
                            if b == before.len() {
                                assert(hosts(before, u));
                                lemma_push_contains(queue, utxo.id, u);
                                if queue.contains(u) {
                                    old(self).lemma_wf(utxo.token, utxo.amount, u);
                                }
                            } else {
                                assert(!before[b].participants.contains(u));
                            }
                        }
                    }
                    assert forall|t: Address, a: U256| (#[trigger] self.waiter.waiting(
                        t,
                        a,
                    )).no_duplicates() by {
                        old(self).lemma_wf(t, a, utxo.id);
                    }
                    assert forall|t: Address, a: U256, u: U256| (#[trigger] self.waiter.waiting(
                        t,
                        a,
                    ).contains(u)) implies !hosts(self.rooms(), u) by {
                        old(self).lemma_wf(t, a, u);
                        if hosts(after, u) {
                            let k = index_of_host(after, u);
                            if k == before.len() {
                                lemma_push_contains(queue, utxo.id, u);
                                old(self).lemma_wf(utxo.token, utxo.amount, u);
                                assert(old(self).waiter.waiting(t, a).contains(u));
                            } else {
                                assert(before[k].participants.contains(u));
                            }
                        }
                    }
                    assert forall|t1: Address, a1: U256, t2: Address, a2: U256, u: U256|
                        (#[trigger] self.waiter.waiting(t1, a1).contains(u)) && (
                        #[trigger] self.waiter.waiting(t2, a2).contains(u)) implies t1 == t2 && a1
                        == a2 by {
                        old(self).lemma_wf(t1, a1, u);
                        old(self).lemma_wf(t2, a2, u);
                    }
                }
            },
        }
        Ok(JoinShuffleRoomResponse { room_access_token: token })
    }
}

impl Protocol {
    /// Decides a join request: reads the clock and draws a room id, then
    /// decides as [`Protocol::join_shuffle_room_at`] does. Whatever the clock
    /// and the draw, a lookup without a UTXO is refused and nothing changes.
    pub fn join_shuffle_room(
        &mut self,
        lookup: ChainLookup,
        timestamp: u64,
        signature: Vec<u8>,
    ) -> (r: Result<JoinShuffleRoomResponse, Rejection>)
        requires
            old(self).wf(),
        ensures
            final(self).wf(),
            exists|now: Option<u64>, room_id: u128| #[trigger]
                old(self).joined(final(self), r, lookup, timestamp, signature@, now, room_id),
            lookup is Failed ==> r == Err::<JoinShuffleRoomResponse, Rejection>(
                Rejection::ChainFailure,
            ),
            lookup is Absent ==> r == Err::<JoinShuffleRoomResponse, Rejection>(
                Rejection::UnknownUtxo,
            ),
    {
        let now = unix_time();
        let room_id = fresh_room_id();
        let r = self.join_shuffle_room_at(lookup, timestamp, signature, now, room_id);
        assert(old(self).joined(self, r, lookup, timestamp, signature@, now, room_id));
        r
    }

    /// What the refresh of a shuffle access token answers: refused without
    /// an accepted token; else whether a room hosts the UTXO, with a new
    /// token for the same class and UTXO as the one presented.
    pub open spec fn refreshed(
        &self,
        answer: Result<IsReadyForShuffleResponse, Rejection>,
        claims: Result<ShuffleAccessClaim, TokenError>,
        now: Option<u64>,
    ) -> bool {
        match claims {
            Err(_) => answer == Err::<IsReadyForShuffleResponse, Rejection>(Rejection::InvalidToken),
            Ok(claim) => match self.access_token(claim.token, claim.amount, claim.utxo_id, now) {
                Err(_) => answer == Err::<IsReadyForShuffleResponse, Rejection>(
                    Rejection::TokenFailure,
                ),
                Ok(text) => answer matches Ok(response) && response.ready == hosts(
                    self.rooms(),
                    claim.utxo_id,
                ) && response.room_access_token@ == text,
            },
        }
    }

    /// Answers whether the room of a UTXO is ready, for the claims read from
    /// the request's token and as of the time `now`.
    pub fn is_ready_for_shuffle_with(
        &self,
        claims: Result<ShuffleAccessClaim, TokenError>,
        now: Option<u64>,
    ) -> (r: Result<IsReadyForShuffleResponse, Rejection>)
        requires
            self.wf(),
        ensures
            self.refreshed(r, claims, now),
    {
        let claim = match claims {
            Err(_) => {
                return Err(Rejection::InvalidToken);
            },
            Ok(claim) => claim,
        };
        let participant = self.get_participant(&claim.utxo_id);
        let new_token = match self.tokens_generator.generate_shuffle_token_at(
            claim.token,
            claim.amount,
            claim.utxo_id,
            now,
        ) {
            Err(_) => {
                return Err(Rejection::TokenFailure);
            },
            Ok(token) => token,
        };
        Ok(IsReadyForShuffleResponse { ready: participant.is_some(), room_access_token: new_token })
    }

    /// Answers whether the room of the caller's UTXO is ready: reads the
    /// token from the authorization header and the clock, then answers as
    /// [`Protocol::is_ready_for_shuffle_with`] does. A request without a
    /// well-formed header is refused.
    pub fn is_ready_for_shuffle(&self, authorization: Option<&str>) -> (r: Result<
        IsReadyForShuffleResponse,
        Rejection,
    >)
        requires
            self.wf(),
        ensures
            exists|claims: Result<ShuffleAccessClaim, TokenError>, now: Option<u64>| #[trigger]
                self.refreshed(r, claims, now),
            authorization is None || crate::service::auth::bearer_of(authorization->0@) is None ==> r
                == Err::<IsReadyForShuffleResponse, Rejection>(Rejection::InvalidToken),
    {
        let claims = self.tokens_generator.decode_shuffle_token(authorization);
        let now = unix_time();
        let r = self.is_ready_for_shuffle_with(claims, now);
        assert(self.refreshed(r, claims, now));
        r
    }

    /// What connecting to a room answers. In this order: the token must be
    /// accepted; a room must host the UTXO; the request must carry a public
    /// key; and the key must be within the bounds for an RSA key. Then the
    /// way to the room's session is found, starting the session if need be,
    /// and the event that adds the participant goes to it. A refused request
    /// changes nothing.
    pub open spec fn connected(
        &self,
        after: &Protocol,
        answer: Result<Dispatch, Rejection>,
        claims: Result<ShuffleAccessClaim, TokenError>,
        public_key: Option<(Seq<u8>, Seq<u8>)>,
    ) -> bool {
        &&& after.same_queues(self)
        &&& match self.connect_refusal(claims, public_key) {
            Some(e) => answer == Err::<Dispatch, Rejection>(e) && after.rooms() == self.rooms(),
            None => {
                let utxo_id = claims->Ok_0.utxo_id;
                let room_id = participant_in(self.rooms(), utxo_id).room_id;
                let (modulus, exponent) = public_key->Some_0;
                &&& answer matches Ok(dispatch)
                &&& dispatch.room_id == room_id
                &&& self.streamed(after, dispatch.stream, room_id)
                &&& dispatch.event@ == (RoomEventsView::AddParticipant {
                    utxo_id,
                    key: RsaPublicKeyView {
                        modulus: canonical(modulus),
                        exponent: canonical(exponent),
                    },
                })
            },
        }
    }

    /// Why a request to connect is refused, if it is.
    pub open spec fn connect_refusal(
        &self,
        claims: Result<ShuffleAccessClaim, TokenError>,
        public_key: Option<(Seq<u8>, Seq<u8>)>,
    ) -> Option<Rejection> {
        match claims {
            Err(_) => Some(Rejection::InvalidToken),
            Ok(claim) => if !hosts(self.rooms(), claim.utxo_id) {
                Some(Rejection::ParticipantAbsent)
            } else {
                match public_key {
                    None => Some(Rejection::MissingPublicKey),
                    Some((modulus, exponent)) => if !rsa_key_accepted(modulus, exponent) {
                        Some(Rejection::InvalidPublicKey)
                    } else {
                        None
                    },
                }
            },
        }
    }

    /// The way to the session of an existing room, and what finding it does
    /// to the record: a room whose session had not started is marked as
    /// started, and its session is handed out, at the room's opening state
    /// and with the service's deadline and key.
    pub open spec fn streamed(&self, after: &Protocol, stream: RoomStream, room_id: u128) -> bool {
        let record = self.rooms()[index_of_room(self.rooms(), room_id)];
        &&& has_room(self.rooms(), room_id)
        &&& match stream {
            RoomStream::Existing => record.spawned && after.rooms() == self.rooms(),
            RoomStream::Spawned(session) => {
                &&& !record.spawned
                &&& after.rooms() == with_spawned(self.rooms(), room_id)
                &&& session.room() == starting_room(record)
                &&& session.room().wf()
                &&& session.deadline() == self.deadline()
                &&& session.secret() == self.secret()
            },
        }
    }

    /// Decides a request to connect, for the claims read from its token.
    pub fn connect_shuffle_room_with(
        &mut self,
        claims: Result<ShuffleAccessClaim, TokenError>,
        public_key: Option<(Vec<u8>, Vec<u8>)>,
    ) -> (r: Result<Dispatch, Rejection>)
        requires
            old(self).wf(),
        ensures
            final(self).wf(),
            old(self).connected(final(self), r, claims, key_bytes(public_key)),
    {
        let claim = match claims {
            Err(_) => {
                return Err(Rejection::InvalidToken);
            },
            Ok(claim) => claim,
        };
        let participant = match self.get_participant(&claim.utxo_id) {
            None => {
                return Err(Rejection::ParticipantAbsent);
            },
            Some(participant) => participant,
        };
        let room_id = participant.room_id;
        let raw = match public_key {
            None => {
                return Err(Rejection::MissingPublicKey);
            },
            Some(raw) => raw,
        };
        let key = match RsaPublicKey::from_components(raw.0.as_slice(), raw.1.as_slice()) {
            None => {
                return Err(Rejection::InvalidPublicKey);
            },
            Some(key) => key,
        };
        proof {
            let i = index_of_host(self.rooms(), claim.utxo_id);
            lemma_room_index(self.rooms(), i);
        }
        let stream = match self.get_room_stream(room_id) {
            None => {
                assert(false);
                return Err(Rejection::RoomAbsent);
            },
            Some(stream) => stream,
        };
        Ok(
            Dispatch {
                room_id,
                stream,
                event: RoomEvents::AddParticipant { utxo_id: participant.utxo_id, key },
            },
        )
    }

    /// Decides a request to connect: reads the token from the authorization
    /// header, then decides as [`Protocol::connect_shuffle_room_with`] does.
    pub fn connect_shuffle_room(
        &mut self,
        authorization: Option<&str>,
        public_key: Option<(Vec<u8>, Vec<u8>)>,
    ) -> (r: Result<Dispatch, Rejection>)
        requires
            old(self).wf(),
        ensures
            final(self).wf(),
            exists|claims: Result<ShuffleAccessClaim, TokenError>| #[trigger]
                old(self).connected(final(self), r, claims, key_bytes(public_key)),
            authorization is None || crate::service::auth::bearer_of(authorization->0@) is None ==> r
                == Err::<Dispatch, Rejection>(Rejection::InvalidToken),
    {
        let claims = self.tokens_generator.decode_shuffle_token(authorization);
        let r = self.connect_shuffle_room_with(claims, public_key);
        assert(old(self).connected(self, r, claims, key_bytes(public_key)));
        r
    }

    /// What a call made inside a room answers: the token must be accepted
    /// and, for a signature, the bytes must be a signature; the room must
    /// exist. Then the event goes to the room's session.
    pub open spec fn dispatched(
        &self,
        after: &Protocol,
        answer: Result<Dispatch, Rejection>,
        claims: Result<RoomAccessClaim, TokenError>,
        event: Option<RoomEventsView>,
    ) -> bool {
        &&& after.same_queues(self)
        &&& match claims {
            Err(_) => answer == Err::<Dispatch, Rejection>(Rejection::InvalidToken)
                && after.rooms() == self.rooms(),
            Ok(claim) => match event {
                None => answer == Err::<Dispatch, Rejection>(Rejection::MalformedSignature)
                    && after.rooms() == self.rooms(),
                Some(event) => if !has_room(self.rooms(), claim.room_id) {
                    answer == Err::<Dispatch, Rejection>(Rejection::RoomAbsent) && after.rooms()
                        == self.rooms()
                } else {
                    &&& answer matches Ok(dispatch)
                    &&& dispatch.room_id == claim.room_id
                    &&& self.streamed(after, dispatch.stream, claim.room_id)
                    &&& dispatch.event@ == event
                },
            },
        }
    }

    /// Decides a shuffle round, for the claims read from the request's token.
    pub fn shuffle_round_with(
        &mut self,
        claims: Result<RoomAccessClaim, TokenError>,
        encoded_outputs: Vec<EncodedOutput>,
    ) -> (r: Result<Dispatch, Rejection>)
        requires
            old(self).wf(),
        ensures
            final(self).wf(),
            old(self).dispatched(
                final(self),
                r,
                claims,
                Some(
                    RoomEventsView::ShuffleRound(claims->Ok_0.utxo_id, encoded_outputs.deep_view()),
                ),
            ),
    {
        let claim = match claims {
            Err(_) => {
                return Err(Rejection::InvalidToken);
            },
            Ok(claim) => claim,
        };
        let stream = match self.get_room_stream(claim.room_id) {
            None => {
                return Err(Rejection::RoomAbsent);
            },
            Some(stream) => stream,
        };
        Ok(
            Dispatch {
                room_id: claim.room_id,
                stream,
                event: RoomEvents::ShuffleRound((claim.utxo_id, encoded_outputs)),
            },
        )
    }

    /// Decides a shuffle round: reads the token from the authorization
    /// header, then decides as [`Protocol::shuffle_round_with`] does.
    pub fn shuffle_round(
        &mut self,
        authorization: Option<&str>,
        encoded_outputs: Vec<EncodedOutput>,
    ) -> (r: Result<Dispatch, Rejection>)
        requires
            old(self).wf(),
        ensures
            final(self).wf(),
            exists|claims: Result<RoomAccessClaim, TokenError>| #[trigger]
                old(self).dispatched(
                    final(self),
                    r,
                    claims,
                    Some(
                        RoomEventsView::ShuffleRound(
                            claims->Ok_0.utxo_id,
                            encoded_outputs.deep_view(),
                        ),
                    ),
                ),
            authorization is None || crate::service::auth::bearer_of(authorization->0@) is None ==> r
                == Err::<Dispatch, Rejection>(Rejection::InvalidToken),
    {
        let claims = self.tokens_generator.decode_room_token(authorization);
        let r = self.shuffle_round_with(claims, encoded_outputs);
        assert(old(self).dispatched(
            self,
            r,
            claims,
            Some(RoomEventsView::ShuffleRound(claims->Ok_0.utxo_id, encoded_outputs.deep_view())),
        ));
        r
    }

    /// Decides the handing in of a signature, for the claims read from the
    /// request's token.
    pub fn sign_shuffle_tx_with(
        &mut self,
        claims: Result<RoomAccessClaim, TokenError>,
        signature: &[u8],
    ) -> (r: Result<Dispatch, Rejection>)
        requires
            old(self).wf(),
        ensures
            final(self).wf(),
            old(self).dispatched(final(self), r, claims, signed_event(claims->Ok_0.utxo_id, signature@)),
    {
        let claim = match claims {
            Err(_) => {
                return Err(Rejection::InvalidToken);
            },
            Ok(claim) => claim,
        };
        let signature = match Signature::from_slice(signature) {
            None => {
                return Err(Rejection::MalformedSignature);
            },
            Some(signature) => signature,
        };
        proof {
            Signature::lemma_view_injective(
                signature,
                signed_event(claim.utxo_id, signature@)->0->SignedOutput_1,
            );
        }
        let stream = match self.get_room_stream(claim.room_id) {
            None => {
                return Err(Rejection::RoomAbsent);
            },
            Some(stream) => stream,
        };
        Ok(
            Dispatch {
                room_id: claim.room_id,
                stream,
                event: RoomEvents::SignedOutput((claim.utxo_id, signature)),
            },
        )
    }

    /// Decides the handing in of a signature: reads the token from the
    /// authorization header, then decides as
    /// [`Protocol::sign_shuffle_tx_with`] does.
    pub fn sign_shuffle_tx(&mut self, authorization: Option<&str>, signature: &[u8]) -> (r: Result<
        Dispatch,
        Rejection,
    >)
        requires
            old(self).wf(),
        ensures
            final(self).wf(),
            exists|claims: Result<RoomAccessClaim, TokenError>| #[trigger]
                old(self).dispatched(
                    final(self),
                    r,
                    claims,
                    signed_event(claims->Ok_0.utxo_id, signature@),
                ),
            authorization is None || crate::service::auth::bearer_of(authorization->0@) is None ==> r
                == Err::<Dispatch, Rejection>(Rejection::InvalidToken),
    {
        let claims = self.tokens_generator.decode_room_token(authorization);
        let r = self.sign_shuffle_tx_with(claims, signature);
        assert(old(self).dispatched(self, r, claims, signed_event(claims->Ok_0.utxo_id, signature@)));
        r
    }
}

/// The two byte strings of a public key as the request carries it.
pub open spec fn key_bytes(public_key: Option<(Vec<u8>, Vec<u8>)>) -> Option<(Seq<u8>, Seq<u8>)> {
    match public_key {
        Some((modulus, exponent)) => Some((modulus@, exponent@)),
        None => None,
    }
}

/// The event that hands in a signature of 65 bytes; none for bytes of
/// another length.
pub open spec fn signed_event(utxo_id: U256, signature: Seq<u8>) -> Option<RoomEventsView> {
    if signature.len() == 65 {
        Some(
            RoomEventsView::SignedOutput(
                utxo_id,
                choose|s: Signature| s@ == signature,
            ),
        )
    } else {
        None
    }
}

/// Token refresh. Whenever a refresh is answered, at whatever time, the token
/// in the answer is the one minted for a claim that names the same token
/// address, amount and UTXO as the claim presented; only the expiry is new.
/// So tokens refreshed one after the other all carry the first one's payload.
pub proof fn lemma_refresh_keeps_claim(
    service: &Protocol,
    answer: Result<IsReadyForShuffleResponse, Rejection>,
    claim: ShuffleAccessClaim,
    now: Option<u64>,
)
    requires
        service.refreshed(answer, Ok(claim), now),
        answer is Ok,
    ensures
        now is Some,
        now->0 + crate::service::auth::TOKEN_LIFETIME <= u64::MAX,
        shuffle_token(
            service.secret(),
            ShuffleAccessClaim {
                exp: (now->0 + crate::service::auth::TOKEN_LIFETIME) as u64,
                ..claim
            },
        ) == Some(answer->Ok_0.room_access_token@),
        answer->Ok_0.ready == hosts(service.rooms(), claim.utxo_id),
{
}

/// The participants of the rooms that the joins of `ids`, in order, form in
/// a class whose queue was empty.
pub open spec fn rooms_after_joins(room_size: nat, ids: Seq<U256>) -> Seq<Seq<U256>>
    decreases ids.len(),
{
    if ids.len() == 0 {
        Seq::empty()
    } else {
        let formed = rooms_after_joins(room_size, ids.drop_last());
        match batch_of_add(
            waiting_after_adds(room_size, ids.drop_last()),
            room_size,
            ids.last(),
        ) {
            Some(batch) => formed.push(batch),
            None => formed,
        }
    }
}

/// Room formation. In a class whose queue was empty, fewer accepted joins
/// than a room has participants form no room; exactly that many form one
/// room, whose participants are the joined ids in the order of joining, and
/// leave the queue empty.
pub proof fn lemma_room_formation(room_size: nat, ids: Seq<U256>)
    requires
        room_size >= 1,
        ids.len() <= room_size,
    ensures
        ids.len() < room_size ==> rooms_after_joins(room_size, ids) == Seq::<Seq<U256>>::empty()
            && waiting_after_adds(room_size, ids) == ids,
        ids.len() == room_size ==> rooms_after_joins(room_size, ids) == seq![ids]
            && waiting_after_adds(room_size, ids) == Seq::<U256>::empty(),
    decreases ids.len(),
{
    if ids.len() == 0 {
        assert(waiting_after_adds(room_size, ids) =~= ids);
    } else {
        lemma_room_formation(room_size, ids.drop_last());
        assert(ids.drop_last().push(ids.last()) =~= ids);
        if ids.len() == room_size {
            assert(rooms_after_joins(room_size, ids) =~= seq![ids]);
        }
    }
}

/// A sequence without duplicates stays so when an id that it lacks is added.
pub proof fn lemma_push_no_duplicates(ids: Seq<U256>, id: U256)
    requires
        ids.no_duplicates(),
        !ids.contains(id),
    ensures
        ids.push(id).no_duplicates(),
{
    assert forall|i: int, j: int| 0 <= i < ids.len() + 1 && 0 <= j < ids.len() + 1 && i != j implies ids.push(
        id,
    )[i] != ids.push(id)[j] by {
        if i < ids.len() && j < ids.len() {
        } else if i < ids.len() {
            assert(ids.contains(ids[i]));
        } else {
            assert(ids.contains(ids[j]));
        }
    }
}

/// What a sequence holds after an id has been added.
pub proof fn lemma_push_contains(ids: Seq<U256>, id: U256, u: U256)
    ensures
        ids.push(id).contains(u) <==> ids.contains(u) || u == id,
{
    if ids.push(id).contains(u) {
        let k = choose|k: int| 0 <= k < ids.push(id).len() && ids.push(id)[k] == u;
        if k < ids.len() {
            assert(ids[k] == u);
        }
    }
    if ids.contains(u) {
        let k = choose|k: int| 0 <= k < ids.len() && ids[k] == u;
        assert(ids.push(id)[k] == u);
    }
    if u == id {
        assert(ids.push(id)[ids.len() as int] == u);
    }
}

} // verus!
