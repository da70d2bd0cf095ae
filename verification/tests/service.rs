use ethers_core::utils::hash_message;
use ethers_signers::{LocalWallet, Signer};
use open_fastrlp::Encodable;
use shuffle_service::primitives::{Address, U256};
use shuffle_service::service::auth::{
    join_message_bytes, JoinSignatureError, SignatureFault, TokenError, TokensGenerator,
};
use shuffle_service::service::room::{Next, RoomEvents, RoomInput};
use shuffle_service::service::state::Phase;
use shuffle_service::service::types::{RsaPublicKey, ShuffleEvent, Signature};
use shuffle_service::service::{
    parse_utxo_id, ChainLookup, Code, Dispatch, Participant, Protocol, Rejection, RoomStream, Utxo,
};
use std::time::{SystemTime, UNIX_EPOCH};

const SECRET: &str = "service secret";
const NOW: u64 = 1_700_000_000;

fn token_address() -> Address {
    Address { bytes: [0xaa; 20] }
}

fn amount() -> U256 {
    U256::from_u64(1_000)
}

fn wallet(n: u8) -> LocalWallet {
    LocalWallet::from_bytes(&[n; 32]).unwrap()
}

fn utxo(n: u8) -> Utxo {
    Utxo {
        id: U256::from_u64(n as u64),
        owner: Address { bytes: wallet(n).address().0 },
        token: token_address(),
        amount: amount(),
    }
}

fn signed_by(signer: u8, utxo_id: &U256, timestamp: u64) -> Vec<u8> {
    let message = join_message_bytes(utxo_id, timestamp);
    let signature = wallet(signer).sign_hash(hash_message(&message)).unwrap();
    let mut out: Vec<u8> = Vec::new();
    signature.encode(&mut out);
    out
}

fn service(room_size: usize) -> Protocol {
    Protocol::new(SECRET.to_string(), 30, room_size)
}

fn join(p: &mut Protocol, n: u8, room_id: u128) -> Result<String, Rejection> {
    let u = utxo(n);
    p.join_shuffle_room_at(ChainLookup::Found(u), NOW - 1, signed_by(n, &u.id, NOW - 1), Some(NOW), room_id)
        .map(|response| response.room_access_token)
}

fn join_token(n: u8) -> String {
    TokensGenerator::new(SECRET.to_string())
        .generate_shuffle_token_at(token_address(), amount(), utxo(n).id, Some(NOW))
        .unwrap()
}

fn bearer(token: &str) -> String {
    format!("Bearer {}", token)
}

fn fresh_shuffle_token(n: u8) -> String {
    let u = utxo(n);
    bearer(&TokensGenerator::new(SECRET.to_string()).generate_shuffle_token(u.token, u.amount, u.id).unwrap())
}

fn fresh_room_token(n: u8, room_id: u128) -> String {
    bearer(&TokensGenerator::new(SECRET.to_string()).generate_room_token(room_id, utxo(n).id).unwrap())
}

fn good_key() -> Option<(Vec<u8>, Vec<u8>)> {
    Some((vec![0, 0xc5, 0x01], vec![1, 0, 1]))
}

fn room_of_three() -> Protocol {
    let mut p = service(3);
    join(&mut p, 1, 10).unwrap();
    join(&mut p, 2, 11).unwrap();
    join(&mut p, 3, 12).unwrap();
    p
}

#[test]
fn utxo_id_of_at_most_32_bytes() {
    assert_eq!(parse_utxo_id(&[1, 2]), Ok(U256::from_u64(0x0102)));
    assert_eq!(parse_utxo_id(&[]), Ok(U256::zero()));
    assert_eq!(parse_utxo_id(&[9u8; 32]), Ok(U256 { bytes: [9u8; 32] }));
    assert_eq!(parse_utxo_id(&[9u8; 33]), Err(Rejection::MalformedUtxoId));
}

#[test]
fn status_codes_of_the_refusals() {
    let undecodable = JoinSignatureError::InvalidSignature(SignatureFault::Undecodable);
    assert_eq!(Rejection::MalformedUtxoId.code(), Code::InvalidArgument);
    assert_eq!(Rejection::UnknownUtxo.code(), Code::InvalidArgument);
    assert_eq!(Rejection::InvalidJoin(undecodable).code(), Code::InvalidArgument);
    assert_eq!(Rejection::InvalidJoin(JoinSignatureError::InvalidTimestamp(3)).code(), Code::InvalidArgument);
    assert_eq!(Rejection::AlreadyJoined.code(), Code::InvalidArgument);
    assert_eq!(Rejection::MissingPublicKey.code(), Code::InvalidArgument);
    assert_eq!(Rejection::InvalidPublicKey.code(), Code::InvalidArgument);
    assert_eq!(Rejection::MalformedSignature.code(), Code::InvalidArgument);
    assert_eq!(Rejection::InvalidToken.code(), Code::Unauthenticated);
    assert_eq!(Rejection::ParticipantAbsent.code(), Code::NotFound);
    assert_eq!(Rejection::ChainFailure.code(), Code::Internal);
    assert_eq!(Rejection::RoomIdTaken.code(), Code::Internal);
    assert_eq!(Rejection::TokenFailure.code(), Code::Internal);
    assert_eq!(Rejection::RoomAbsent.code(), Code::NotFound);
    assert_eq!(Rejection::RoomAbsent.message(), "room is absent");
    assert_eq!(Rejection::ChannelClosed.code(), Code::Internal);
    assert_eq!(Rejection::InvalidToken.message(), "invalid token");
    assert_eq!(Rejection::UnknownUtxo.message(), "no utxo with such id");
    assert_eq!(Rejection::InvalidJoin(undecodable).message(), "invalid signature or timestamp");
    assert_eq!(Rejection::ParticipantAbsent.message(), "participant is absent");
    assert_eq!(Rejection::MissingPublicKey.message(), "public key is missing");
    assert_eq!(Rejection::InvalidPublicKey.message(), "invalid rsa public key");
    assert_eq!(Rejection::ChainFailure.message(), "internal error");
}

#[test]
fn settings_are_kept() {
    let p = service(4);
    assert_eq!(p.min_room_size(), 4);
    assert_eq!(p.shuffle_round_deadline(), 30);
}

#[test]
fn join_gives_the_shuffle_token_of_the_utxo() {
    let mut p = service(3);
    let text = join(&mut p, 1, 10).unwrap();
    let expected = TokensGenerator::new(SECRET.to_string())
        .generate_shuffle_token_at(token_address(), amount(), utxo(1).id, Some(NOW))
        .unwrap();
    assert_eq!(text, expected);
    assert_eq!(p.get_participant(&utxo(1).id), None);
}

#[test]
fn room_forms_with_the_last_join_in_join_order() {
    let mut p = service(3);
    join(&mut p, 2, 10).unwrap();
    join(&mut p, 3, 11).unwrap();
    assert_eq!(p.get_participant(&utxo(2).id), None);
    join(&mut p, 1, 12).unwrap();
    for n in [1u8, 2, 3] {
        assert_eq!(
            p.get_participant(&utxo(n).id),
            Some(Participant { utxo_id: utxo(n).id, token: token_address(), amount: amount(), room_id: 12 })
        );
    }
    match p.get_room_stream(12) {
        Some(RoomStream::Spawned(session)) => {
            assert_eq!(session.participants(), &vec![utxo(2).id, utxo(3).id, utxo(1).id]);
            assert_eq!(session.room_id(), 12);
            assert_eq!(session.deadline_secs(), 30);
            assert_eq!(session.phase(), Phase::Connecting);
        }
        _ => panic!("the room should start now"),
    }
    assert!(matches!(p.get_room_stream(12), Some(RoomStream::Existing)));
    assert!(p.get_room_stream(10).is_none());
    assert!(p.get_room_stream(11).is_none());
}

#[test]
fn lookup_without_a_utxo_is_refused() {
    let mut p = service(2);
    assert_eq!(
        p.join_shuffle_room(ChainLookup::Failed, 1, vec![]),
        Err(Rejection::ChainFailure)
    );
    assert_eq!(
        p.join_shuffle_room(ChainLookup::Absent, 1, vec![]),
        Err(Rejection::UnknownUtxo)
    );
}

#[test]
fn bad_join_signature_leaves_the_queue_unchanged() {
    let mut p = service(2);
    join(&mut p, 1, 10).unwrap();
    let u = utxo(2);
    let forged = signed_by(9, &u.id, NOW - 1);
    let refused = p.join_shuffle_room_at(ChainLookup::Found(u), NOW - 1, forged, Some(NOW), 11);
    assert_eq!(
        refused,
        Err(Rejection::InvalidJoin(JoinSignatureError::InvalidSignature(SignatureFault::WrongSigner)))
    );
    assert_eq!(refused.unwrap_err().code(), Code::InvalidArgument);
    assert_eq!(p.get_participant(&utxo(1).id), None);
    assert_eq!(p.get_participant(&u.id), None);
    join(&mut p, 2, 12).unwrap();
    assert_eq!(p.get_participant(&utxo(1).id).unwrap().room_id, 12);
    assert_eq!(p.get_participant(&u.id).unwrap().room_id, 12);
}

#[test]
fn join_dated_ahead_is_refused() {
    let mut p = service(2);
    let u = utxo(1);
    let signature = signed_by(1, &u.id, NOW + 1);
    assert_eq!(
        p.join_shuffle_room_at(ChainLookup::Found(u), NOW + 1, signature, Some(NOW), 10),
        Err(Rejection::InvalidJoin(JoinSignatureError::InvalidTimestamp(NOW + 1)))
    );
}

#[test]
fn join_reads_the_clock_and_draws_a_room_id() {
    let mut p = service(1);
    let now = SystemTime::now().duration_since(UNIX_EPOCH).unwrap().as_secs();
    let u = utxo(1);
    let response = p.join_shuffle_room(ChainLookup::Found(u), now - 5, signed_by(1, &u.id, now - 5));
    let text = response.unwrap().room_access_token;
    let claim = TokensGenerator::new(SECRET.to_string()).decode_shuffle_token(Some(&bearer(&text))).unwrap();
    assert_eq!((claim.token, claim.amount, claim.utxo_id), (u.token, u.amount, u.id));
    let first = p.get_participant(&u.id).unwrap().room_id;
    let v = utxo(2);
    p.join_shuffle_room(ChainLookup::Found(v), now - 5, signed_by(2, &v.id, now - 5)).unwrap();
    let second = p.get_participant(&v.id).unwrap().room_id;
    assert_ne!(first, second);
}

#[test]
fn joining_twice_is_refused() {
    let mut p = service(3);
    join(&mut p, 1, 10).unwrap();
    assert_eq!(join(&mut p, 1, 11), Err(Rejection::AlreadyJoined));
    join(&mut p, 2, 12).unwrap();
    join(&mut p, 3, 13).unwrap();
    assert_eq!(join(&mut p, 2, 14), Err(Rejection::AlreadyJoined));
    assert_eq!(p.get_participant(&utxo(1).id).unwrap().room_id, 13);
}

#[test]
fn room_id_in_use_is_refused() {
    let mut p = service(1);
    join(&mut p, 1, 10).unwrap();
    assert_eq!(join(&mut p, 2, 10), Err(Rejection::RoomIdTaken));
    assert_eq!(p.get_participant(&utxo(2).id), None);
    join(&mut p, 2, 11).unwrap();
    assert_eq!(p.get_participant(&utxo(2).id).unwrap().room_id, 11);
}

#[test]
fn join_without_a_clock_is_refused() {
    let mut p = service(2);
    let u = utxo(1);
    assert_eq!(
        p.join_shuffle_room_at(ChainLookup::Found(u), 5, signed_by(1, &u.id, 5), None, 10),
        Err(Rejection::InvalidJoin(JoinSignatureError::InvalidTimestamp(5)))
    );
}

#[test]
fn refresh_keeps_the_claim() {
    let mut p = service(2);
    let first = join(&mut p, 1, 10).unwrap();
    let generator = TokensGenerator::new(SECRET.to_string());
    let claim = generator.decode_shuffle_token(Some(&fresh_shuffle_token(1))).unwrap();
    let answer = p.is_ready_for_shuffle_with(Ok(claim), Some(NOW + 100)).unwrap();
    assert!(!answer.ready);
    let expected = generator
        .generate_shuffle_token_at(token_address(), amount(), utxo(1).id, Some(NOW + 100))
        .unwrap();
    assert_eq!(answer.room_access_token, expected);
    assert_ne!(answer.room_access_token, first);

    let again = p.is_ready_for_shuffle(Some(&fresh_shuffle_token(1))).unwrap();
    let once_more = p.is_ready_for_shuffle(Some(&bearer(&again.room_access_token))).unwrap();
    let decoded = generator.decode_shuffle_token(Some(&bearer(&once_more.room_access_token))).unwrap();
    assert_eq!((decoded.token, decoded.amount, decoded.utxo_id), (claim.token, claim.amount, claim.utxo_id));

    join(&mut p, 2, 11).unwrap();
    assert!(p.is_ready_for_shuffle(Some(&fresh_shuffle_token(1))).unwrap().ready);
}

#[test]
fn refresh_without_a_token_is_unauthenticated() {
    let p = service(2);
    assert_eq!(p.is_ready_for_shuffle(None), Err(Rejection::InvalidToken));
    assert_eq!(p.is_ready_for_shuffle(Some("abc")), Err(Rejection::InvalidToken));
    assert_eq!(p.is_ready_for_shuffle(Some("Bearer abc")), Err(Rejection::InvalidToken));
    assert_eq!(p.is_ready_for_shuffle(Some(&fresh_room_token(1, 10))), Err(Rejection::InvalidToken));
    assert_eq!(
        p.is_ready_for_shuffle_with(Err(TokenError::MissingHeader), Some(NOW)),
        Err(Rejection::InvalidToken)
    );
}

#[test]
fn connect_starts_the_session_once() {
    let mut p = room_of_three();
    let first = p.connect_shuffle_room(Some(&fresh_shuffle_token(2)), good_key()).unwrap();
    assert_eq!(first.room_id, 12);
    assert_eq!(
        first.event,
        RoomEvents::AddParticipant {
            utxo_id: utxo(2).id,
            key: RsaPublicKey { modulus: vec![0xc5, 0x01], exponent: vec![1, 0, 1] },
        }
    );
    assert!(matches!(first.stream, RoomStream::Spawned(_)));
    let second = p.connect_shuffle_room(Some(&fresh_shuffle_token(1)), good_key()).unwrap();
    assert_eq!(second.room_id, 12);
    assert!(matches!(second.stream, RoomStream::Existing));
}

#[test]
fn connect_refusals() {
    let mut p = room_of_three();
    let refused = |r: Result<Dispatch, Rejection>| r.err().unwrap();
    assert_eq!(refused(p.connect_shuffle_room(None, good_key())), Rejection::InvalidToken);
    assert_eq!(
        refused(p.connect_shuffle_room(Some(&fresh_room_token(1, 12)), good_key())),
        Rejection::InvalidToken
    );
    assert_eq!(
        refused(p.connect_shuffle_room(Some(&fresh_shuffle_token(4)), good_key())),
        Rejection::ParticipantAbsent
    );
    assert_eq!(
        refused(p.connect_shuffle_room(Some(&fresh_shuffle_token(1)), None)),
        Rejection::MissingPublicKey
    );
    assert_eq!(
        refused(p.connect_shuffle_room(Some(&fresh_shuffle_token(1)), Some((vec![0xc5], vec![1])))),
        Rejection::InvalidPublicKey
    );
    assert!(matches!(p.get_room_stream(12), Some(RoomStream::Spawned(_))));
}

#[test]
fn shuffle_round_with_a_shuffle_access_token_is_unauthenticated() {
    let mut p = room_of_three();
    let session = match p.get_room_stream(12) {
        Some(RoomStream::Spawned(session)) => session,
        _ => panic!("the room should start now"),
    };
    let refused = p.shuffle_round(Some(&fresh_shuffle_token(1)), vec![vec![1u8]]).err().unwrap();
    assert_eq!(refused, Rejection::InvalidToken);
    assert_eq!(refused.code(), Code::Unauthenticated);
    assert_eq!(session.phase(), Phase::Connecting);
    assert_eq!(session.state().current_round(), 0);
    assert!(matches!(p.get_room_stream(12), Some(RoomStream::Existing)));
}

#[test]
fn calls_inside_a_room_go_to_its_session() {
    let mut p = room_of_three();
    let round = p.shuffle_round(Some(&fresh_room_token(1, 12)), vec![vec![1u8], vec![2u8]]).unwrap();
    assert_eq!(round.room_id, 12);
    assert_eq!(round.event, RoomEvents::ShuffleRound((utxo(1).id, vec![vec![1u8], vec![2u8]])));
    assert!(matches!(round.stream, RoomStream::Spawned(_)));
    let signed = p.sign_shuffle_tx(Some(&fresh_room_token(3, 12)), &[7u8; 65]).unwrap();
    assert_eq!(signed.room_id, 12);
    assert_eq!(signed.event, RoomEvents::SignedOutput((utxo(3).id, Signature { bytes: [7u8; 65] })));
    assert!(matches!(signed.stream, RoomStream::Existing));
}

#[test]
fn refusals_inside_a_room() {
    let mut p = room_of_three();
    let refused = |r: Result<Dispatch, Rejection>| r.err().unwrap();
    assert_eq!(refused(p.shuffle_round(None, vec![])), Rejection::InvalidToken);
    assert_eq!(refused(p.sign_shuffle_tx(Some("Bearer x"), &[7u8; 65])), Rejection::InvalidToken);
    assert_eq!(
        refused(p.shuffle_round(Some(&fresh_room_token(1, 99)), vec![])),
        Rejection::RoomAbsent
    );
    assert_eq!(
        refused(p.shuffle_round(Some(&fresh_room_token(1, 99)), vec![])).code(),
        Code::NotFound
    );
    assert_eq!(
        refused(p.sign_shuffle_tx(Some(&fresh_room_token(1, 99)), &[7u8; 65])).code(),
        Code::NotFound
    );
    assert_eq!(
        refused(p.sign_shuffle_tx(Some(&fresh_room_token(1, 99)), &[7u8; 65])),
        Rejection::RoomAbsent
    );
    assert_eq!(
        refused(p.sign_shuffle_tx(Some(&fresh_room_token(1, 12)), &[7u8; 64])),
        Rejection::MalformedSignature
    );
    assert!(matches!(p.get_room_stream(12), Some(RoomStream::Spawned(_))));
}

#[test]
fn cleared_room_is_unreachable_and_frees_its_participants() {
    let mut p = room_of_three();
    let mut session = match p.get_room_stream(12) {
        Some(RoomStream::Spawned(session)) => session,
        _ => panic!("the room should start now"),
    };
    let turn = session.step(RoomInput::Deadline);
    assert_eq!(turn.next, Next::Exit);
    p.clear_room(12);
    assert!(p.get_room_stream(12).is_none());
    assert_eq!(p.get_participant(&utxo(1).id), None);
    assert_eq!(
        p.shuffle_round(Some(&fresh_room_token(1, 12)), vec![]).err().unwrap(),
        Rejection::RoomAbsent
    );
    p.clear_room(12);
    join(&mut p, 1, 20).unwrap();
}

#[test]
fn three_joins_to_the_transaction_hash() {
    let mut p = room_of_three();
    let mut session = None;
    let mut last = None;
    for n in [1u8, 2, 3] {
        let dispatch = p.connect_shuffle_room(Some(&fresh_shuffle_token(n)), good_key()).unwrap();
        if let RoomStream::Spawned(started) = dispatch.stream {
            session = Some(started);
        }
        last = Some(session.as_mut().unwrap().step(RoomInput::Event(dispatch.event)));
    }
    let mut session = session.unwrap();
    let keys_out = last.unwrap();
    assert_eq!(keys_out.deliveries.len(), 4);
    let mut room_tokens = Vec::new();
    for delivery in keys_out.deliveries.iter().take(3) {
        match &delivery.event {
            ShuffleEvent::ShuffleInfo { shuffle_access_token, .. } => {
                room_tokens.push(bearer(shuffle_access_token))
            }
            other => panic!("unexpected event {:?}", other),
        }
    }
    for (n, outputs) in [(0usize, vec![vec![1u8]]), (1, vec![vec![2u8]]), (2, vec![vec![3u8; 20]])] {
        let dispatch = p.shuffle_round(Some(&room_tokens[n]), outputs).unwrap();
        assert!(matches!(dispatch.stream, RoomStream::Existing));
        assert_eq!(session.step(RoomInput::Event(dispatch.event)).next, Next::Continue);
    }
    let mut next = Next::Continue;
    for n in 0..3usize {
        let dispatch = p.sign_shuffle_tx(Some(&room_tokens[n]), &[n as u8 + 1; 65]).unwrap();
        next = session.step(RoomInput::Event(dispatch.event)).next;
    }
    let request = match next {
        Next::Transfer(request) => request,
        other => panic!("unexpected {:?}", other),
    };
    assert_eq!(
        request.inputs.iter().map(|input| input.utxo_id).collect::<Vec<_>>(),
        vec![utxo(1).id, utxo(2).id, utxo(3).id]
    );
    assert_eq!(request.outputs, vec![vec![3u8; 20]]);
    let done = session.step(RoomInput::Transferred(Ok(vec![0x5a; 32])));
    assert_eq!(done.next, Next::Exit);
    assert_eq!(done.deliveries.len(), 3);
    assert_eq!(session.phase(), Phase::Done);
    p.clear_room(session.room_id());
    assert!(p.get_room_stream(12).is_none());
}

#[test]
fn no_token_past_the_end_of_time() {
    let mut p = service(2);
    let u = utxo(1);
    let late = u64::MAX - 10;
    assert_eq!(
        p.join_shuffle_room_at(ChainLookup::Found(u), 5, signed_by(1, &u.id, 5), Some(late), 10),
        Err(Rejection::TokenFailure)
    );
    join(&mut p, 1, 10).unwrap();
    let claim = TokensGenerator::new(SECRET.to_string())
        .decode_shuffle_token(Some(&fresh_shuffle_token(1)))
        .unwrap();
    assert_eq!(p.is_ready_for_shuffle_with(Ok(claim), Some(late)), Err(Rejection::TokenFailure));
    assert_eq!(p.is_ready_for_shuffle_with(Ok(claim), None), Err(Rejection::TokenFailure));
}

#[test]
fn room_is_overdue_from_its_deadline_on() {
    let mut p = service(1);
    assert_eq!(p.overdue_rooms(u64::MAX), Vec::<u128>::new());
    join(&mut p, 1, 10).unwrap();
    let u = utxo(2);
    p.join_shuffle_room_at(ChainLookup::Found(u), NOW, signed_by(2, &u.id, NOW), Some(NOW + 10), 11)
        .unwrap();
    assert_eq!(p.overdue_rooms(NOW), Vec::<u128>::new());
    assert_eq!(p.overdue_rooms(NOW + 29), Vec::<u128>::new());
    assert_eq!(p.overdue_rooms(NOW + 30), vec![10]);
    assert_eq!(p.overdue_rooms(NOW + 39), vec![10]);
    assert_eq!(p.overdue_rooms(NOW + 40), vec![10, 11]);
    assert!(matches!(p.get_room_stream(11), Some(RoomStream::Spawned(_))));
    assert_eq!(p.overdue_rooms(u64::MAX), vec![10, 11]);
    assert_eq!(p.overdue_rooms_now(), vec![10, 11]);
    p.clear_room(10);
    assert_eq!(p.overdue_rooms(NOW + 40), vec![11]);
    assert_eq!(join(&mut p, 1, 12), Ok(join_token(1)));
}

#[test]
fn room_formed_now_is_not_overdue() {
    let mut p = service(1);
    let now = SystemTime::now().duration_since(UNIX_EPOCH).unwrap().as_secs();
    let u = utxo(1);
    p.join_shuffle_room(ChainLookup::Found(u), now - 5, signed_by(1, &u.id, now - 5)).unwrap();
    assert_eq!(p.overdue_rooms_now(), Vec::<u128>::new());
    assert_eq!(p.overdue_rooms(now + 31).len(), 1);
}

#[test]
fn deadline_past_the_end_of_time_never_comes() {
    let mut p = Protocol::new(SECRET.to_string(), u64::MAX, 1);
    join(&mut p, 1, 10).unwrap();
    assert_eq!(p.overdue_rooms(u64::MAX), Vec::<u128>::new());
}
