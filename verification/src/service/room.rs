//! The session of one room: what it sends to whom as participants connect,
//! decode in turn and sign, and when it ends.
//!
//! The session decides; it does not wait or send. The task that owns it hands
//! in what happened (an event from the room's channel, the deadline, the
//! outcome of the transfer) and gets back the events to push into the
//! participants' streams and what to do next.

use crate::primitives::U256;
use crate::service::auth::{
    minted, room_claim_at, room_token, unix_time, TokensGenerator,
};
use crate::service::state::{Phase, Room, RoomError, RoomView, RoundResult};
use crate::service::types::{
    clone_bytes, clone_outputs, Delivery, DeliveryView, EncodedOutput, RsaPublicKey,
    RsaPublicKeyView, ShuffleEvent, ShuffleEventView, Signature, TransferRequest,
    TransferRequestView,
};
use vstd::prelude::*;

verus! {

/// The seconds after which a room that is not done is given up, unless the
/// service is configured otherwise.
pub const DEFAULT_ROUND_DEADLINE: u64 = 2 * 60;

/// What reaches a room from the endpoints.
#[derive(Debug, PartialEq, Eq)]
pub enum RoomEvents {
    /// A participant hands in the outputs that it has decoded.
    ShuffleRound((U256, Vec<EncodedOutput>)),
    /// A participant hands in its signature over the plain outputs.
    SignedOutput((U256, Signature)),
    /// A participant has opened its stream and brings its key.
    AddParticipant { utxo_id: U256, key: RsaPublicKey },
}

pub enum RoomEventsView {
    ShuffleRound(U256, Seq<Seq<u8>>),
    SignedOutput(U256, Signature),
    AddParticipant { utxo_id: U256, key: RsaPublicKeyView },
}

impl View for RoomEvents {
    type V = RoomEventsView;

    open spec fn view(&self) -> RoomEventsView {
        match self {
            RoomEvents::ShuffleRound((utxo_id, outputs)) => RoomEventsView::ShuffleRound(
                *utxo_id,
                outputs.deep_view(),
            ),
            RoomEvents::SignedOutput((utxo_id, signature)) => RoomEventsView::SignedOutput(
                *utxo_id,
                *signature,
            ),
            RoomEvents::AddParticipant { utxo_id, key } => RoomEventsView::AddParticipant {
                utxo_id: *utxo_id,
                key: key@,
            },
        }
    }
}

/// What the owning task hands to the session.
#[derive(Debug, PartialEq, Eq)]
pub enum RoomInput {
    /// The deadline has passed.
    Deadline,
    /// An event came in on the room's channel.
    Event(RoomEvents),
    /// The chain connector has answered the transfer: the transaction hash,
    /// or why there is none.
    Transferred(Result<Vec<u8>, String>),
    /// The stream of this participant no longer takes events.
    Disconnected(U256),
}

pub enum RoomInputView {
    Deadline,
    Event(RoomEventsView),
    Transferred(Result<Seq<u8>, Seq<char>>),
    Disconnected(U256),
}

impl View for RoomInput {
    type V = RoomInputView;

    open spec fn view(&self) -> RoomInputView {
        match self {
            RoomInput::Deadline => RoomInputView::Deadline,
            RoomInput::Event(event) => RoomInputView::Event(event@),
            RoomInput::Transferred(Ok(hash)) => RoomInputView::Transferred(Ok(hash@)),
            RoomInput::Transferred(Err(reason)) => RoomInputView::Transferred(Err(reason@)),
            RoomInput::Disconnected(utxo_id) => RoomInputView::Disconnected(*utxo_id),
        }
    }
}

/// What the owning task does after it has sent a turn's deliveries.
#[derive(Debug, PartialEq, Eq)]
pub enum Next {
    /// Wait for the next input.
    Continue,
    /// Ask the chain connector for this transfer and hand in its answer.
    Transfer(TransferRequest),
    /// Remove the room and stop.
    Exit,
}

pub enum NextView {
    Continue,
    Transfer(TransferRequestView),
    Exit,
}

impl View for Next {
    type V = NextView;

    open spec fn view(&self) -> NextView {
        match self {
            Next::Continue => NextView::Continue,
            Next::Transfer(request) => NextView::Transfer(request@),
            Next::Exit => NextView::Exit,
        }
    }
}

/// The session's answer to one input.
#[derive(Debug, PartialEq, Eq)]
pub struct Turn {
    pub deliveries: Vec<Delivery>,
    pub next: Next,
}

pub struct TurnView {
    pub deliveries: Seq<DeliveryView>,
    pub next: NextView,
}

impl View for Turn {
    type V = TurnView;

    open spec fn view(&self) -> TurnView {
        TurnView { deliveries: self.deliveries.deep_view(), next: self.next@ }
    }
}

/// What handling an event gave: the deliveries, and the transfer if the event
/// completed the signatures.
#[derive(Debug, PartialEq, Eq)]
pub struct Handled {
    pub deliveries: Vec<Delivery>,
    pub transfer: Option<TransferRequest>,
}

pub struct HandledView {
    pub deliveries: Seq<DeliveryView>,
    pub transfer: Option<TransferRequestView>,
}

impl View for Handled {
    type V = HandledView;

    open spec fn view(&self) -> HandledView {
        HandledView {
            deliveries: self.deliveries.deep_view(),
            transfer: match self.transfer {
                Some(request) => Some(request@),
                None => None,
            },
        }
    }
}

/// The words that participants are sent when the room fails for `error`.
pub open spec fn error_text(error: RoomError) -> Seq<char> {
    match error {
        RoomError::Closed => "room is closed"@,
        RoomError::UnknownParticipant => "not a participant of this room"@,
        RoomError::AlreadyConnected => "participant is already connected"@,
        RoomError::WrongTurn => "shuffle round out of turn"@,
        RoomError::NotSigning => "room is not collecting signatures"@,
        RoomError::DuplicateSignature => "participant has already signed"@,
        RoomError::TokenIssue => "failed to generate room access token"@,
        RoomError::NoTransferPending => "no transfer is pending"@,
    }
}

/// The words sent when the deadline has passed.
pub open spec fn deadline_text() -> Seq<char> {
    "deadline"@
}

/// The words sent when a participant's stream has closed.
pub open spec fn disconnected_text() -> Seq<char> {
    "participant has disconnected"@
}

/// `ids` without `id`, in the same order.
pub open spec fn without(ids: Seq<U256>, id: U256) -> Seq<U256>
    decreases ids.len(),
{
    if ids.len() == 0 {
        Seq::empty()
    } else if ids.last() == id {
        without(ids.drop_last(), id)
    } else {
        without(ids.drop_last(), id).push(ids.last())
    }
}

/// The same event for each of `recipients`, in their order.
pub open spec fn broadcast(recipients: Seq<U256>, event: ShuffleEventView) -> Seq<DeliveryView> {
    Seq::new(recipients.len(), |i: int| DeliveryView { utxo_id: recipients[i], event })
}

/// Whether a room access token can be minted at `now` for every participant.
pub open spec fn tokens_mintable(room: RoomView, secret: Seq<char>, now: Option<u64>) -> bool {
    forall|i: int|
        0 <= i < room.participants.len() ==> (#[trigger] minted(
            now,
            room_token(secret, room_claim_at(room.id, room.participants[i], now->0)),
        )) is Ok
}

/// What the participant at `i` is sent once all keys are in: the keys of the
/// participants after it, the last one's first, with its room access token.
pub open spec fn key_delivery(
    room: RoomView,
    secret: Seq<char>,
    now: Option<u64>,
    i: int,
) -> DeliveryView {
    DeliveryView {
        utxo_id: room.participants[i],
        event: ShuffleEventView::ShuffleInfo {
            public_keys_list: room.keys_for(i),
            shuffle_access_token: minted(
                now,
                room_token(secret, room_claim_at(room.id, room.participants[i], now->0)),
            )->Ok_0,
        },
    }
}

/// The key deliveries, one for each participant, in shuffle order.
pub open spec fn key_deliveries(
    room: RoomView,
    secret: Seq<char>,
    now: Option<u64>,
) -> Seq<DeliveryView> {
    Seq::new(room.participants.len(), |i: int| key_delivery(room, secret, now, i))
}

/// The delivery that opens the first round: an empty list for the first
/// participant.
pub open spec fn opening_delivery(room: RoomView) -> DeliveryView {
    DeliveryView {
        utxo_id: room.participants[0],
        event: ShuffleEventView::EncodedOutputs { outputs: Seq::empty() },
    }
}

/// The room and the answer after a participant has connected. The last
/// participant to connect sets off the key deliveries and the first round.
pub open spec fn added(
    room: RoomView,
    secret: Seq<char>,
    now: Option<u64>,
    utxo_id: U256,
    key: RsaPublicKeyView,
) -> (RoomView, Result<Seq<DeliveryView>, RoomError>) {
    match room.connect(utxo_id, key) {
        Err(e) => (room, Err(e)),
        Ok(next) => if next.phase != Phase::Decoding {
            (next, Ok(Seq::empty()))
        } else if tokens_mintable(next, secret, now) {
            (next, Ok(key_deliveries(next, secret, now).push(opening_delivery(next))))
        } else {
            (next, Err(RoomError::TokenIssue))
        },
    }
}

/// The room and the answer after a decoding round: the outputs go to the
/// next participant, or after the last round to everyone, for signing.
pub open spec fn decoded(room: RoomView, utxo_id: U256, outputs: Seq<Seq<u8>>) -> (
    RoomView,
    Result<Seq<DeliveryView>, RoomError>,
) {
    match room.pass_outputs(utxo_id, outputs) {
        Err(e) => (room, Err(e)),
        Ok(next) => if next.phase == Phase::Signing {
            (
                next,
                Ok(broadcast(next.participants, ShuffleEventView::TxSigningOutputs { outputs })),
            )
        } else {
            (
                next,
                Ok(
                    seq![
                        DeliveryView {
                            utxo_id: next.participants[next.current_round as int],
                            event: ShuffleEventView::EncodedOutputs { outputs },
                        },
                    ],
                ),
            )
        },
    }
}

/// The room and the answer after a signature: the transfer, once every
/// participant has signed.
pub open spec fn signed(room: RoomView, utxo_id: U256, signature: Signature) -> (
    RoomView,
    Result<Option<TransferRequestView>, RoomError>,
) {
    match room.pass_signature(utxo_id, signature) {
        Err(e) => (room, Err(e)),
        Ok(next) => if next.phase == Phase::Submitting {
            (next, Ok(Some(next.transfer())))
        } else {
            (next, Ok(None))
        },
    }
}

/// The room and the answer after any event.
pub open spec fn handled(
    room: RoomView,
    secret: Seq<char>,
    now: Option<u64>,
    event: RoomEventsView,
) -> (RoomView, Result<HandledView, RoomError>) {
    match event {
        RoomEventsView::AddParticipant { utxo_id, key } => {
            let (next, answer) = added(room, secret, now, utxo_id, key);
            (
                next,
                match answer {
                    Ok(deliveries) => Ok(HandledView { deliveries, transfer: None }),
                    Err(e) => Err(e),
                },
            )
        },
        RoomEventsView::ShuffleRound(utxo_id, outputs) => {
            let (next, answer) = decoded(room, utxo_id, outputs);
            (
                next,
                match answer {
                    Ok(deliveries) => Ok(HandledView { deliveries, transfer: None }),
                    Err(e) => Err(e),
                },
            )
        },
        RoomEventsView::SignedOutput(utxo_id, signature) => {
            let (next, answer) = signed(room, utxo_id, signature);
            (
                next,
                match answer {
                    Ok(transfer) => Ok(HandledView { deliveries: Seq::empty(), transfer }),
                    Err(e) => Err(e),
                },
            )
        },
    }
}

/// Who is told of a failure: every connected participant, and the one whose
/// connecting failed, whose stream is open too.
pub open spec fn failure_recipients(room: RoomView, event: RoomEventsView) -> Seq<U256> {
    match event {
        RoomEventsView::AddParticipant { utxo_id, key } => if room.connected().contains(utxo_id) {
            room.connected()
        } else {
            room.connected().push(utxo_id)
        },
        _ => room.connected(),
    }
}

/// The room and the turn after one input.
///
/// A closed room answers nothing and exits. The deadline aborts the room and
/// tells every connected participant. An event that the room accepts is
/// answered with its deliveries, and with the transfer when it completed the
/// signatures; one that it refuses aborts the room and tells the connected
/// participants why. The connector's answer to the transfer ends the room:
/// done, with the hash sent to every participant, or aborted, with the reason.
/// A participant whose stream has closed aborts the room; the other connected
/// participants are told.
pub open spec fn turned(
    room: RoomView,
    secret: Seq<char>,
    now: Option<u64>,
    input: RoomInputView,
) -> (RoomView, TurnView) {
    if room.closed() {
        (room, TurnView { deliveries: Seq::empty(), next: NextView::Exit })
    } else {
        match input {
            RoomInputView::Deadline => (
                room.abort(),
                TurnView {
                    deliveries: broadcast(
                        room.connected(),
                        ShuffleEventView::Error { error: deadline_text() },
                    ),
                    next: NextView::Exit,
                },
            ),
            RoomInputView::Event(event) => {
                let (next, answer) = handled(room, secret, now, event);
                match answer {
                    Ok(done) => (
                        next,
                        TurnView {
                            deliveries: done.deliveries,
                            next: match done.transfer {
                                Some(request) => NextView::Transfer(request),
                                None => NextView::Continue,
                            },
                        },
                    ),
                    Err(e) => (
                        next.abort(),
                        TurnView {
                            deliveries: broadcast(
                                failure_recipients(next, event),
                                ShuffleEventView::Error { error: error_text(e) },
                            ),
                            next: NextView::Exit,
                        },
                    ),
                }
            },
            RoomInputView::Disconnected(utxo_id) => (
                room.abort(),
                TurnView {
                    deliveries: broadcast(
                        without(room.connected(), utxo_id),
                        ShuffleEventView::Error { error: disconnected_text() },
                    ),
                    next: NextView::Exit,
                },
            ),
            RoomInputView::Transferred(outcome) => match room.settle(outcome is Ok) {
                Err(e) => (
                    room.abort(),
                    TurnView {
                        deliveries: broadcast(
                            room.connected(),
                            ShuffleEventView::Error { error: error_text(e) },
                        ),
                        next: NextView::Exit,
                    },
                ),
                Ok(next) => (
                    next,
                    TurnView {
                        deliveries: broadcast(
                            room.participants,
                            match outcome {
                                Ok(tx_hash) => ShuffleEventView::ShuffleTxHash { tx_hash },
                                Err(error) => ShuffleEventView::Error { error },
                            },
                        ),
                        next: NextView::Exit,
                    },
                ),
            },
        }
    }
}

/// Key-distribution order. Once every participant has connected, the
/// delivery for `participants[i]` holds exactly the keys of the participants
/// after it, in the order `participants[N-1]`, `participants[N-2]`, ...,
/// `participants[i+1]`: the key at place `j` is that of `participants[N-1-j]`.
pub proof fn lemma_key_distribution_order(
    room: RoomView,
    secret: Seq<char>,
    now: Option<u64>,
    i: int,
)
    requires
        room.wf(),
        room.all_connected(),
        0 <= i < room.size(),
    ensures
        key_deliveries(room, secret, now).len() == room.size(),
        key_deliveries(room, secret, now)[i].utxo_id == room.participants[i],
        key_deliveries(room, secret, now)[i].event is ShuffleInfo,
        key_deliveries(room, secret, now)[i].event->public_keys_list.len() == room.size() - 1 - i,
        forall|j: int|
            0 <= j < room.size() - 1 - i ==> Some(
                #[trigger] key_deliveries(room, secret, now)[i].event->public_keys_list[j],
            ) == room.keys[room.size() - 1 - j],
{
    assert forall|j: int| 0 <= j < room.size() - 1 - i implies Some(
        #[trigger] key_deliveries(room, secret, now)[i].event->public_keys_list[j],
    ) == room.keys[room.size() - 1 - j] by {
        assert(room.keys[room.size() - 1 - j] is Some);
    }
}

/// Signature completeness. A turn asks for the transfer exactly when its
/// input brought the last signature that was missing; the transfer then
/// names every participant, in shuffle order, with its signature, and the
/// outputs of the last round. No other turn asks for a transfer.
pub proof fn lemma_signature_completeness(
    room: RoomView,
    secret: Seq<char>,
    now: Option<u64>,
    input: RoomInputView,
)
    requires
        room.wf(),
    ensures
        turned(room, secret, now, input).0.wf(),
        turned(room, secret, now, input).1.next is Transfer <==> !room.all_signed() && turned(
            room,
            secret,
            now,
            input,
        ).0.all_signed(),
        turned(room, secret, now, input).1.next matches NextView::Transfer(request) ==> {
            &&& input is Event
            &&& input->Event_0 is SignedOutput
            &&& request.outputs == room.outputs
            &&& request.inputs.len() == room.size()
            &&& forall|i: int|
                0 <= i < room.size() ==> (#[trigger] request.inputs[i]).utxo_id
                    == room.participants[i] && Some(request.inputs[i].signature) == turned(
                    room,
                    secret,
                    now,
                    input,
                ).0.signatures[i]
        },
{
    room.lemma_steps_keep_wf();
    if !room.closed() {
        match input {
            RoomInputView::Deadline => {},
            RoomInputView::Disconnected(utxo_id) => {},
            RoomInputView::Transferred(outcome) => {},
            RoomInputView::Event(event) => {
                match event {
                    RoomEventsView::AddParticipant { utxo_id, key } => {
                        room.lemma_connect(utxo_id, key);
                        if room.connect(utxo_id, key) is Ok {
                            assert(room.signatures[0] is None);
                        }
                    },
                    RoomEventsView::ShuffleRound(utxo_id, outputs) => {
                        room.lemma_pass_outputs(utxo_id, outputs);
                        if room.pass_outputs(utxo_id, outputs) is Ok {
                            assert(room.signatures[0] is None);
                        }
                    },
                    RoomEventsView::SignedOutput(utxo_id, signature) => {
                        room.lemma_pass_signature(utxo_id, signature);
                        if let Ok(next) = room.pass_signature(utxo_id, signature) {
                            if next.phase == Phase::Submitting {
                                let request = next.transfer();
                                assert forall|i: int| 0 <= i < room.size() implies (
                                #[trigger] request.inputs[i]).utxo_id == room.participants[i]
                                    && Some(request.inputs[i].signature) == next.signatures[i] by {
                                    assert(next.signatures[i] is Some);
                                }
                            }
                        }
                    },
                }
            },
        }
    }
}

/// Deadline. In any room that is not closed, the deadline aborts the room,
/// sends every connected participant an error and ends the session; and a
/// closed room answers every input with nothing but the order to end.
pub proof fn lemma_deadline_aborts(
    room: RoomView,
    secret: Seq<char>,
    now: Option<u64>,
    input: RoomInputView,
)
    requires
        room.wf(),
    ensures
        !room.closed() ==> turned(room, secret, now, RoomInputView::Deadline) == (
            room.abort(),
            TurnView {
                deliveries: broadcast(
                    room.connected(),
                    ShuffleEventView::Error { error: deadline_text() },
                ),
                next: NextView::Exit,
            },
        ),
        room.abort().closed(),
        room.closed() ==> turned(room, secret, now, input) == (
            room,
            TurnView { deliveries: Seq::empty(), next: NextView::Exit },
        ),
        turned(room, secret, now, input).1.next is Exit <==> turned(room, secret, now, input).0.closed(),
{
    room.lemma_steps_keep_wf();
    if !room.closed() {
        match input {
            RoomInputView::Deadline => {},
            RoomInputView::Disconnected(utxo_id) => {},
            RoomInputView::Transferred(outcome) => {},
            RoomInputView::Event(event) => {
                match event {
                    RoomEventsView::AddParticipant { utxo_id, key } => {
                        room.lemma_connect(utxo_id, key);
                    },
                    RoomEventsView::ShuffleRound(utxo_id, outputs) => {
                        room.lemma_pass_outputs(utxo_id, outputs);
                    },
                    RoomEventsView::SignedOutput(utxo_id, signature) => {
                        room.lemma_pass_signature(utxo_id, signature);
                    },
                }
            },
        }
    }
}

/// The words for a failure, as a string to send.
pub fn error_message(error: RoomError) -> (r: String)
    ensures
        r@ == error_text(error),
{
    match error {
        RoomError::Closed => "room is closed".to_owned(),
        RoomError::UnknownParticipant => "not a participant of this room".to_owned(),
        RoomError::AlreadyConnected => "participant is already connected".to_owned(),
        RoomError::WrongTurn => "shuffle round out of turn".to_owned(),
        RoomError::NotSigning => "room is not collecting signatures".to_owned(),
        RoomError::DuplicateSignature => "participant has already signed".to_owned(),
        RoomError::TokenIssue => "failed to generate room access token".to_owned(),
        RoomError::NoTransferPending => "no transfer is pending".to_owned(),
    }
}

/// An error event with the words `error` for each of `recipients`.
pub fn broadcast_error(recipients: &Vec<U256>, error: &String) -> (r: Vec<Delivery>)
    ensures
        r.deep_view() == broadcast(recipients@, ShuffleEventView::Error { error: error@ }),
{
    let mut r: Vec<Delivery> = Vec::new();
    let mut i: usize = 0;
    while i < recipients.len()
        invariant
            i <= recipients@.len(),
            r@.len() == i,
            forall|j: int|
                0 <= j < i ==> (#[trigger] r@[j])@ == (DeliveryView {
                    utxo_id: recipients@[j],
                    event: ShuffleEventView::Error { error: error@ },
                }),
        decreases recipients@.len() - i,
    {
        r.push(Delivery { utxo_id: recipients[i], event: ShuffleEvent::Error { error: error.clone() } });
        i = i + 1;
    }
    assert(r.deep_view() =~= broadcast(recipients@, ShuffleEventView::Error { error: error@ }));
    r
}

/// The transaction hash for each of `recipients`.
pub fn broadcast_tx_hash(recipients: &Vec<U256>, tx_hash: &Vec<u8>) -> (r: Vec<Delivery>)
    ensures
        r.deep_view() == broadcast(recipients@, ShuffleEventView::ShuffleTxHash { tx_hash: tx_hash@ }),
{
    let mut r: Vec<Delivery> = Vec::new();
    let mut i: usize = 0;
    while i < recipients.len()
        invariant
            i <= recipients@.len(),
            r@.len() == i,
            forall|j: int|
                0 <= j < i ==> (#[trigger] r@[j])@ == (DeliveryView {
                    utxo_id: recipients@[j],
                    event: ShuffleEventView::ShuffleTxHash { tx_hash: tx_hash@ },
                }),
        decreases recipients@.len() - i,
    {
        r.push(
            Delivery {
                utxo_id: recipients[i],
                event: ShuffleEvent::ShuffleTxHash { tx_hash: clone_bytes(tx_hash) },
            },
        );
        i = i + 1;
    }
    assert(r.deep_view() =~= broadcast(
        recipients@,
        ShuffleEventView::ShuffleTxHash { tx_hash: tx_hash@ },
    ));
    r
}

/// `ids` without `id`, in the same order.
pub fn remove_id(ids: &Vec<U256>, id: &U256) -> (r: Vec<U256>)
    ensures
        r@ == without(ids@, *id),
{
    let mut r: Vec<U256> = Vec::new();
    let mut i: usize = 0;
    while i < ids.len()
        invariant
            i <= ids@.len(),
            r@ == without(ids@.take(i as int), *id),
        decreases ids@.len() - i,
    {
        proof {
            assert(ids@.take(i + 1).drop_last() =~= ids@.take(i as int));
            assert(ids@.take(i + 1).last() == ids@[i as int]);
        }
        if ids[i] != *id {
            r.push(ids[i]);
        }
        i = i + 1;
    }
    assert(ids@.take(ids@.len() as int) =~= ids@);
    r
}

/// The session of one room.
pub struct RoomConnectionManager {
    room: Room,
    deadline: u64,
    token_generator: TokensGenerator,
}

impl RoomConnectionManager {
    /// The state of the room.
    pub closed spec fn room(&self) -> RoomView {
        self.room@
    }

    /// The key under which the room's tokens are signed.
    pub closed spec fn secret(&self) -> Seq<char> {
        self.token_generator.secret()
    }

    /// The seconds after which the room is given up.
    pub closed spec fn deadline(&self) -> u64 {
        self.deadline
    }

    /// A session for `room` with the default deadline.
    pub fn new(room: Room, token_generator: TokensGenerator) -> (r: RoomConnectionManager)
        ensures
            r.room() == room@,
            r.secret() == token_generator.secret(),
            r.deadline() == DEFAULT_ROUND_DEADLINE,
    {
        RoomConnectionManager { room, deadline: DEFAULT_ROUND_DEADLINE, token_generator }
    }

    /// Sets the seconds after which the room is given up, and hands the
    /// session back for further calls.
    pub fn set_deadline(&mut self, deadline: u64) -> (r: &mut RoomConnectionManager)
        ensures
            r.deadline() == deadline,
            r.room() == old(self).room(),
            r.secret() == old(self).secret(),
            *final(self) == *final(r),
    {
        self.deadline = deadline;
        self
    }

    /// The seconds after which the room is given up.
    pub fn deadline_secs(&self) -> (r: u64)
        ensures
            r == self.deadline(),
    {
        self.deadline
    }

    pub fn room_id(&self) -> (r: u128)
        ensures
            r == self.room().id,
    {
        self.room.id()
    }

    pub fn phase(&self) -> (r: Phase)
        ensures
            r == self.room().phase,
    {
        self.room.phase()
    }

    /// The participants in shuffle order.
    pub fn participants(&self) -> (r: &Vec<U256>)
        ensures
            r@ == self.room().participants,
    {
        self.room.participants()
    }

    /// The room that the session runs.
    pub fn state(&self) -> (r: &Room)
        ensures
            r@ == self.room(),
    {
        &self.room
    }

    /// The event that hands `outputs` to `participant` for decoding.
    fn send_encoded_outputs(participant: &U256, outputs: Vec<EncodedOutput>) -> (r: Delivery)
        ensures
            r@ == (DeliveryView {
                utxo_id: *participant,
                event: ShuffleEventView::EncodedOutputs { outputs: outputs.deep_view() },
            }),
    {
        Delivery { utxo_id: *participant, event: ShuffleEvent::EncodedOutputs { outputs } }
    }

    /// The plain outputs for every participant, to be signed.
    pub fn distribute_outputs(&self, outputs: Vec<EncodedOutput>) -> (r: Vec<Delivery>)
        ensures
            r.deep_view() == broadcast(
                self.room().participants,
                ShuffleEventView::TxSigningOutputs { outputs: outputs.deep_view() },
            ),
    {
        let recipients = self.room.participants();
        let mut r: Vec<Delivery> = Vec::new();
        let mut i: usize = 0;
        while i < recipients.len()
            invariant
                i <= recipients@.len(),
                r@.len() == i,
                forall|j: int|
                    0 <= j < i ==> (#[trigger] r@[j])@ == (DeliveryView {
                        utxo_id: recipients@[j],
                        event: ShuffleEventView::TxSigningOutputs { outputs: outputs.deep_view() },
                    }),
            decreases recipients@.len() - i,
        {
            r.push(
                Delivery {
                    utxo_id: recipients[i],
                    event: ShuffleEvent::TxSigningOutputs { outputs: clone_outputs(&outputs) },
                },
            );
            i = i + 1;
        }
        assert(r.deep_view() =~= broadcast(
            recipients@,
            ShuffleEventView::TxSigningOutputs { outputs: outputs.deep_view() },
        ));
        r
    }

    /// For each participant, in shuffle order, the keys of the participants
    /// after it, the last one's first, and a room access token minted at
    /// `now`. Fails if a token cannot be minted.
    pub fn distribute_public_keys(&self, now: Option<u64>) -> (r: Result<Vec<Delivery>, RoomError>)
        requires
            self.room().wf(),
            self.room().all_connected(),
        ensures
            match r {
                Ok(deliveries) => tokens_mintable(self.room(), self.secret(), now)
                    && deliveries.deep_view() == key_deliveries(self.room(), self.secret(), now),
                Err(e) => !tokens_mintable(self.room(), self.secret(), now) && e
                    == RoomError::TokenIssue,
            },
    {
        let participants = self.room.participants();
        let room_id = self.room.id();
        let mut r: Vec<Delivery> = Vec::new();
        let mut i: usize = 0;
        while i < participants.len()
            invariant
                i <= participants@.len(),
                participants@ == self.room().participants,
                room_id == self.room().id,
                self.room().wf(),
                self.room().all_connected(),
                r@.len() == i,
                forall|j: int|
                    0 <= j < i ==> (#[trigger] minted(
                        now,
                        room_token(
                            self.secret(),
                            room_claim_at(self.room().id, self.room().participants[j], now->0),
                        ),
                    )) is Ok,
                forall|j: int|
                    0 <= j < i ==> (#[trigger] r@[j])@ == key_delivery(
                        self.room(),
                        self.secret(),
                        now,
                        j,
                    ),
            decreases participants@.len() - i,
        {
            let utxo_id = participants[i];
            let token = match self.token_generator.generate_room_token_at(room_id, utxo_id, now) {
                Err(_) => {
                    assert(!(minted(
                        now,
                        room_token(
                            self.secret(),
                            room_claim_at(self.room().id, self.room().participants[i as int], now->0),
                        ),
                    ) is Ok));
                    return Err(RoomError::TokenIssue);
                },
                Ok(token) => token,
            };
            let keys = self.room.keys_for(i);
            r.push(
                Delivery {
                    utxo_id,
                    event: ShuffleEvent::ShuffleInfo {
                        public_keys_list: keys,
                        shuffle_access_token: token,
                    },
                },
            );
            i = i + 1;
        }
        assert(r.deep_view() =~= key_deliveries(self.room(), self.secret(), now));
        Ok(r)
    }

    /// A participant has opened its stream. Its key is recorded; if it was
    /// the last to connect, every participant is sent its keys and token,
    /// and the first participant the empty list that opens the first round.
    pub fn event_add_participant(
        &mut self,
        utxo_id: U256,
        public_key: RsaPublicKey,
        now: Option<u64>,
    ) -> (r: Result<Vec<Delivery>, RoomError>)
        requires
            old(self).room().wf(),
        ensures
            final(self).room().wf(),
            final(self).secret() == old(self).secret(),
            final(self).deadline() == old(self).deadline(),
            (final(self).room(), deliveries_view(r)) == added(
                old(self).room(),
                old(self).secret(),
                now,
                utxo_id,
                public_key@,
            ),
    {
        let complete = match self.room.connect_participant(&utxo_id, public_key) {
            Err(e) => {
                return Err(e);
            },
            Ok(complete) => complete,
        };
        if !complete {
            let nothing: Vec<Delivery> = Vec::new();
            assert(nothing.deep_view() =~= Seq::<DeliveryView>::empty());
            return Ok(nothing);
        }
        proof {
            old(self).room().lemma_connect(utxo_id, public_key@);
        }
        let mut deliveries = match self.distribute_public_keys(now) {
            Err(e) => {
                return Err(e);
            },
            Ok(deliveries) => deliveries,
        };
        let first = self.room.participants()[0];
        let nothing: Vec<EncodedOutput> = Vec::new();
        assert(nothing.deep_view() =~= Seq::<Seq<u8>>::empty());
        let opening = Self::send_encoded_outputs(&first, nothing);
        assert(opening@ == opening_delivery(self.room()));
        let ghost before = deliveries.deep_view();
        deliveries.push(opening);
        assert(deliveries.deep_view() =~= before.push(opening@));
        Ok(deliveries)
    }

    /// A participant has handed in decoded outputs. If it was its turn, the
    /// outputs go on to the next participant, or after the last round to
    /// every participant for signing.
    pub fn event_shuffle_round(&mut self, utxo_id: U256, decoded_outputs: Vec<EncodedOutput>) -> (r:
        Result<Vec<Delivery>, RoomError>)
        requires
            old(self).room().wf(),
        ensures
            final(self).room().wf(),
            final(self).secret() == old(self).secret(),
            final(self).deadline() == old(self).deadline(),
            (final(self).room(), deliveries_view(r)) == decoded(
                old(self).room(),
                utxo_id,
                decoded_outputs.deep_view(),
            ),
    {
        let copy = clone_outputs(&decoded_outputs);
        let next = match self.room.pass_decoded_outputs(&utxo_id, decoded_outputs) {
            Err(e) => {
                return Err(e);
            },
            Ok(next) => next,
        };
        proof {
            old(self).room().lemma_pass_outputs(utxo_id, decoded_outputs.deep_view());
        }
        match next {
            RoundResult::Finished => {
                assert(self.room().phase == Phase::Signing);
                let deliveries = self.distribute_outputs(copy);
                assert(deliveries.deep_view() == broadcast(
                    self.room().participants,
                    ShuffleEventView::TxSigningOutputs { outputs: decoded_outputs.deep_view() },
                ));
                Ok(deliveries)
            },
            RoundResult::Round(_) => {
                let current_round = self.room.current_round();
                let participant = self.room.participants()[current_round];
                let delivery = Self::send_encoded_outputs(&participant, copy);
                let mut deliveries: Vec<Delivery> = Vec::new();
                deliveries.push(delivery);
                assert(deliveries.deep_view() =~= seq![delivery@]);
                Ok(deliveries)
            },
        }
    }

    /// A participant has handed in its signature. When it completes the
    /// set, the transfer to submit is returned.
    pub fn event_signed_output(&mut self, utxo_id: U256, signature: Signature) -> (r: Result<
        Option<TransferRequest>,
        RoomError,
    >)
        requires
            old(self).room().wf(),
        ensures
            final(self).room().wf(),
            final(self).secret() == old(self).secret(),
            final(self).deadline() == old(self).deadline(),
            (final(self).room(), transfer_view(r)) == signed(old(self).room(), utxo_id, signature),
    {
        self.room.pass_signature(&utxo_id, signature)
    }

    /// Handles one event from the room's channel, as of the time `now`.
    pub fn handle_event_at(&mut self, event: RoomEvents, now: Option<u64>) -> (r: Result<
        Handled,
        RoomError,
    >)
        requires
            old(self).room().wf(),
        ensures
            final(self).room().wf(),
            final(self).secret() == old(self).secret(),
            final(self).deadline() == old(self).deadline(),
            (final(self).room(), handled_view(r)) == handled(
                old(self).room(),
                old(self).secret(),
                now,
                event@,
            ),
    {
        match event {
            RoomEvents::AddParticipant { utxo_id, key } => {
                match self.event_add_participant(utxo_id, key, now) {
                    Ok(deliveries) => Ok(Handled { deliveries, transfer: None }),
                    Err(e) => Err(e),
                }
            },
            RoomEvents::ShuffleRound((utxo_id, decoded_outputs)) => {
                match self.event_shuffle_round(utxo_id, decoded_outputs) {
                    Ok(deliveries) => Ok(Handled { deliveries, transfer: None }),
                    Err(e) => Err(e),
                }
            },
            RoomEvents::SignedOutput((utxo_id, signature)) => {
                match self.event_signed_output(utxo_id, signature) {
                    Ok(transfer) => {
                        let handled = Handled { deliveries: Vec::new(), transfer };
                        assert(handled@.deliveries =~= Seq::<DeliveryView>::empty());
                        Ok(handled)
                    },
                    Err(e) => Err(e),
                }
            },
        }
    }

    /// Handles one event from the room's channel. The clock is read for the
    /// expiry of the tokens; whatever it says, the room moves as the event
    /// asks.
    pub fn handle_event(&mut self, event: RoomEvents) -> (r: Result<Handled, RoomError>)
        requires
            old(self).room().wf(),
        ensures
            final(self).room().wf(),
            final(self).secret() == old(self).secret(),
            final(self).deadline() == old(self).deadline(),
            exists|now: Option<u64>|
                (final(self).room(), handled_view(r)) == #[trigger] handled(
                    old(self).room(),
                    old(self).secret(),
                    now,
                    event@,
                ),
    {
        let now = unix_time();
        let r = self.handle_event_at(event, now);
        assert((self.room(), handled_view(r)) == handled(
            old(self).room(),
            old(self).secret(),
            now,
            event@,
        ));
        r
    }

    /// Who is told that handling `event` failed.
    fn recipients_of_failure(&self, newcomer: Option<U256>) -> (r: Vec<U256>)
        requires
            self.room().keys.len() == self.room().participants.len(),
        ensures
            r@ == (match newcomer {
                Some(utxo_id) => if self.room().connected().contains(utxo_id) {
                    self.room().connected()
                } else {
                    self.room().connected().push(utxo_id)
                },
                None => self.room().connected(),
            }),
    {
        let mut recipients = self.room.connected();
        match newcomer {
            None => {},
            Some(utxo_id) => {
                let mut found = false;
                let mut i: usize = 0;
                while i < recipients.len()
                    invariant
                        i <= recipients@.len(),
                        found <==> exists|j: int| 0 <= j < i && recipients@[j] == utxo_id,
                    decreases recipients@.len() - i,
                {
                    if recipients[i] == utxo_id {
                        found = true;
                    }
                    i = i + 1;
                }
                if !found {
                    recipients.push(utxo_id);
                }
            },
        }
        recipients
    }

    /// Answers one input as of the time `now`: see [`turned`].
    pub fn step_at(&mut self, input: RoomInput, now: Option<u64>) -> (turn: Turn)
        requires
            old(self).room().wf(),
        ensures
            final(self).room().wf(),
            final(self).secret() == old(self).secret(),
            final(self).deadline() == old(self).deadline(),
            (final(self).room(), turn@) == turned(old(self).room(), old(self).secret(), now, input@),
    {
        if self.room.is_closed() {
            let turn = Turn { deliveries: Vec::new(), next: Next::Exit };
            assert(turn@.deliveries =~= Seq::<DeliveryView>::empty());
            return turn;
        }
        match input {
            RoomInput::Deadline => {
                let recipients = self.room.connected();
                self.room.abort();
                Turn {
                    deliveries: broadcast_error(&recipients, &"deadline".to_owned()),
                    next: Next::Exit,
                }
            },
            RoomInput::Event(event) => {
                let newcomer = match &event {
                    RoomEvents::AddParticipant { utxo_id, key } => Some(*utxo_id),
                    _ => None,
                };
                let ghost event_view = event@;
                match self.handle_event_at(event, now) {
                    Ok(done) => {
                        let Handled { deliveries, transfer } = done;
                        Turn {
                            deliveries,
                            next: match transfer {
                                Some(request) => Next::Transfer(request),
                                None => Next::Continue,
                            },
                        }
                    },
                    Err(e) => {
                        let recipients = self.recipients_of_failure(newcomer);
                        assert(recipients@ == failure_recipients(self.room(), event_view));
                        self.room.abort();
                        Turn {
                            deliveries: broadcast_error(&recipients, &error_message(e)),
                            next: Next::Exit,
                        }
                    },
                }
            },
            RoomInput::Disconnected(utxo_id) => {
                let connected = self.room.connected();
                let recipients = remove_id(&connected, &utxo_id);
                self.room.abort();
                Turn {
                    deliveries: broadcast_error(
                        &recipients,
                        &"participant has disconnected".to_owned(),
                    ),
                    next: Next::Exit,
                }
            },
            RoomInput::Transferred(outcome) => {
                match self.room.settle(outcome.is_ok()) {
                    Err(e) => {
                        let recipients = self.room.connected();
                        self.room.abort();
                        Turn {
                            deliveries: broadcast_error(&recipients, &error_message(e)),
                            next: Next::Exit,
                        }
                    },
                    Ok(()) => {
                        let deliveries = match &outcome {
                            Ok(tx_hash) => broadcast_tx_hash(self.room.participants(), tx_hash),
                            Err(reason) => broadcast_error(self.room.participants(), reason),
                        };
                        Turn { deliveries, next: Next::Exit }
                    },
                }
            },
        }
    }

    /// Answers one input: the deadline, an event, or the outcome of the
    /// transfer. The clock is read for the expiry of the tokens; whatever it
    /// says, the room moves as [`turned`] says.
    pub fn step(&mut self, input: RoomInput) -> (turn: Turn)
        requires
            old(self).room().wf(),
        ensures
            final(self).room().wf(),
            final(self).secret() == old(self).secret(),
            final(self).deadline() == old(self).deadline(),
            exists|now: Option<u64>|
                (final(self).room(), turn@) == #[trigger] turned(
                    old(self).room(),
                    old(self).secret(),
                    now,
                    input@,
                ),
    {
        let now = unix_time();
        let turn = self.step_at(input, now);
        assert((self.room(), turn@) == turned(old(self).room(), old(self).secret(), now, input@));
        turn
    }
}

/// The deliveries of an answer as values of the model.
pub open spec fn deliveries_view(r: Result<Vec<Delivery>, RoomError>) -> Result<
    Seq<DeliveryView>,
    RoomError,
> {
    match r {
        Ok(deliveries) => Ok(deliveries.deep_view()),
        Err(e) => Err(e),
    }
}

/// The transfer of an answer as a value of the model.
pub open spec fn transfer_view(r: Result<Option<TransferRequest>, RoomError>) -> Result<
    Option<TransferRequestView>,
    RoomError,
> {
    match r {
        Ok(Some(request)) => Ok(Some(request@)),
        Ok(None) => Ok(None),
        Err(e) => Err(e),
    }
}

/// The answer to an event as a value of the model.
pub open spec fn handled_view(r: Result<Handled, RoomError>) -> Result<HandledView, RoomError> {
    match r {
        Ok(done) => Ok(done@),
        Err(e) => Err(e),
    }
}

} // verus!
