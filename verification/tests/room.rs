use shuffle_service::primitives::{Address, U256};
use shuffle_service::service::auth::TokensGenerator;
use shuffle_service::service::room::{
    Handled, Next, RoomConnectionManager, RoomEvents, RoomInput, Turn, DEFAULT_ROUND_DEADLINE,
};
use shuffle_service::service::state::{Phase, Room, RoomError, RoundResult, ShuffleRound};
use shuffle_service::service::types::{
    Delivery, Input, RsaPublicKey, ShuffleEvent, Signature, TransferRequest,
};

const ROOM_ID: u128 = 0x1234_5678_9abc_def0_0fed_cba9_8765_4321;
const NOW: u64 = 1_700_000_000;

fn id(n: u64) -> U256 {
    U256::from_u64(n)
}

fn key(n: u8) -> RsaPublicKey {
    RsaPublicKey { modulus: vec![0xc0 + n, 1, 2, 3], exponent: vec![1, 0, 1] }
}

fn signature(n: u8) -> Signature {
    Signature { bytes: [n; 65] }
}

fn generator() -> TokensGenerator {
    TokensGenerator::new("room secret".to_string())
}

fn session(participants: Vec<U256>) -> RoomConnectionManager {
    let room = Room::new(ROOM_ID, Address { bytes: [9u8; 20] }, id(100), participants).unwrap();
    RoomConnectionManager::new(room, generator())
}

fn add(n: u64, k: u8) -> RoomInput {
    RoomInput::Event(RoomEvents::AddParticipant { utxo_id: id(n), key: key(k) })
}

fn round(n: u64, outputs: &Vec<Vec<u8>>) -> RoomInput {
    RoomInput::Event(RoomEvents::ShuffleRound((id(n), outputs.clone())))
}

fn sign(n: u64, s: u8) -> RoomInput {
    RoomInput::Event(RoomEvents::SignedOutput((id(n), signature(s))))
}

fn info(to: u64, keys: Vec<RsaPublicKey>) -> Delivery {
    Delivery {
        utxo_id: id(to),
        event: ShuffleEvent::ShuffleInfo {
            public_keys_list: keys,
            shuffle_access_token: generator()
                .generate_room_token_at(ROOM_ID, id(to), Some(NOW))
                .unwrap(),
        },
    }
}

fn error_to(to: u64, words: &str) -> Delivery {
    Delivery { utxo_id: id(to), event: ShuffleEvent::Error { error: words.to_string() } }
}

fn connected_three() -> RoomConnectionManager {
    let mut s = session(vec![id(1), id(2), id(3)]);
    s.step_at(add(1, 1), Some(NOW));
    s.step_at(add(2, 2), Some(NOW));
    s.step_at(add(3, 3), Some(NOW));
    s
}

fn signing_three(outputs: &Vec<Vec<u8>>) -> RoomConnectionManager {
    let mut s = connected_three();
    s.step_at(round(1, &vec![vec![1u8]]), Some(NOW));
    s.step_at(round(2, &vec![vec![2u8]]), Some(NOW));
    s.step_at(round(3, outputs), Some(NOW));
    s
}

#[test]
fn new_room_rejects_empty_and_repeated_participants() {
    let class = Address { bytes: [9u8; 20] };
    assert!(Room::new(ROOM_ID, class, id(5), vec![]).is_none());
    assert!(Room::new(ROOM_ID, class, id(5), vec![id(1), id(2), id(1)]).is_none());
    let room = Room::new(ROOM_ID, class, id(5), vec![id(1), id(2)]).unwrap();
    assert_eq!(room.id(), ROOM_ID);
    assert_eq!(room.token(), class);
    assert_eq!(room.amount(), id(5));
    assert_eq!(room.participants(), &vec![id(1), id(2)]);
    assert_eq!(room.size(), 2);
    assert_eq!(room.phase(), Phase::Connecting);
    assert_eq!(room.current_round(), 0);
    assert!(room.outputs().is_empty());
    assert!(room.connected().is_empty());
}

#[test]
fn default_deadline_is_two_minutes() {
    let mut s = session(vec![id(1)]);
    assert_eq!(DEFAULT_ROUND_DEADLINE, 120);
    assert_eq!(s.deadline_secs(), 120);
    s.set_deadline(2);
    assert_eq!(s.deadline_secs(), 2);
    assert_eq!(s.room_id(), ROOM_ID);
    assert_eq!(s.participants(), &vec![id(1)]);
}

#[test]
fn happy_path_with_three_participants() {
    let mut s = session(vec![id(1), id(2), id(3)]);

    assert_eq!(s.step_at(add(1, 1), Some(NOW)), Turn { deliveries: vec![], next: Next::Continue });
    assert_eq!(s.step_at(add(2, 2), Some(NOW)), Turn { deliveries: vec![], next: Next::Continue });
    assert_eq!(s.phase(), Phase::Connecting);

    let turn = s.step_at(add(3, 3), Some(NOW));
    assert_eq!(
        turn,
        Turn {
            deliveries: vec![
                info(1, vec![key(3), key(2)]),
                info(2, vec![key(3)]),
                info(3, vec![]),
                Delivery { utxo_id: id(1), event: ShuffleEvent::EncodedOutputs { outputs: vec![] } },
            ],
            next: Next::Continue,
        }
    );
    assert_eq!(s.phase(), Phase::Decoding);

    let l1 = vec![vec![1u8, 1], vec![1u8, 2], vec![1u8, 3]];
    assert_eq!(
        s.step_at(round(1, &l1), Some(NOW)),
        Turn {
            deliveries: vec![Delivery {
                utxo_id: id(2),
                event: ShuffleEvent::EncodedOutputs { outputs: l1.clone() },
            }],
            next: Next::Continue,
        }
    );
    let l2 = vec![vec![2u8, 1], vec![2u8, 2], vec![2u8, 3]];
    assert_eq!(
        s.step_at(round(2, &l2), Some(NOW)),
        Turn {
            deliveries: vec![Delivery {
                utxo_id: id(3),
                event: ShuffleEvent::EncodedOutputs { outputs: l2.clone() },
            }],
            next: Next::Continue,
        }
    );
    let l3 = vec![vec![3u8; 20], vec![4u8; 20], vec![5u8; 20]];
    let signing = |to: u64| Delivery {
        utxo_id: id(to),
        event: ShuffleEvent::TxSigningOutputs { outputs: l3.clone() },
    };
    assert_eq!(
        s.step_at(round(3, &l3), Some(NOW)),
        Turn { deliveries: vec![signing(1), signing(2), signing(3)], next: Next::Continue }
    );
    assert_eq!(s.phase(), Phase::Signing);

    assert_eq!(s.step_at(sign(2, 22), Some(NOW)), Turn { deliveries: vec![], next: Next::Continue });
    assert_eq!(s.step_at(sign(1, 11), Some(NOW)), Turn { deliveries: vec![], next: Next::Continue });
    assert_eq!(
        s.step_at(sign(3, 33), Some(NOW)),
        Turn {
            deliveries: vec![],
            next: Next::Transfer(TransferRequest {
                inputs: vec![
                    Input { utxo_id: id(1), signature: signature(11) },
                    Input { utxo_id: id(2), signature: signature(22) },
                    Input { utxo_id: id(3), signature: signature(33) },
                ],
                outputs: l3.clone(),
            }),
        }
    );
    assert_eq!(s.phase(), Phase::Submitting);

    let hash = vec![0xabu8; 32];
    let sent = |to: u64| Delivery {
        utxo_id: id(to),
        event: ShuffleEvent::ShuffleTxHash { tx_hash: hash.clone() },
    };
    assert_eq!(
        s.step_at(RoomInput::Transferred(Ok(hash.clone())), Some(NOW)),
        Turn { deliveries: vec![sent(1), sent(2), sent(3)], next: Next::Exit }
    );
    assert_eq!(s.phase(), Phase::Done);
}

#[test]
fn wrong_turn_aborts_the_room() {
    let mut s = connected_three();
    let turn = s.step_at(round(2, &vec![vec![7u8]]), Some(NOW));
    let words = "shuffle round out of turn";
    assert_eq!(
        turn,
        Turn {
            deliveries: vec![error_to(1, words), error_to(2, words), error_to(3, words)],
            next: Next::Exit,
        }
    );
    assert_eq!(s.phase(), Phase::Aborted);
    assert_eq!(s.state().current_round(), 0);
}

#[test]
fn deadline_before_anyone_connects() {
    let mut s = session(vec![id(1), id(2), id(3)]);
    s.set_deadline(2);
    assert_eq!(s.step_at(RoomInput::Deadline, Some(NOW)), Turn { deliveries: vec![], next: Next::Exit });
    assert_eq!(s.phase(), Phase::Aborted);
}

#[test]
fn deadline_tells_the_connected_participants() {
    let mut s = session(vec![id(1), id(2), id(3)]);
    s.step_at(add(3, 3), Some(NOW));
    s.step_at(add(1, 1), Some(NOW));
    assert_eq!(
        s.step_at(RoomInput::Deadline, Some(NOW)),
        Turn { deliveries: vec![error_to(1, "deadline"), error_to(3, "deadline")], next: Next::Exit }
    );
    assert_eq!(s.phase(), Phase::Aborted);
}

#[test]
fn closed_room_answers_nothing() {
    let mut s = session(vec![id(1), id(2)]);
    s.step_at(RoomInput::Deadline, Some(NOW));
    assert_eq!(s.step_at(add(1, 1), Some(NOW)), Turn { deliveries: vec![], next: Next::Exit });
    assert_eq!(s.step_at(RoomInput::Deadline, Some(NOW)), Turn { deliveries: vec![], next: Next::Exit });
    assert_eq!(s.phase(), Phase::Aborted);
    assert_eq!(s.handle_event_at(RoomEvents::SignedOutput((id(1), signature(1))), Some(NOW)), Err(RoomError::Closed));
}

#[test]
fn chain_failure_aborts_the_room() {
    let l3 = vec![vec![3u8; 20]];
    let mut s = signing_three(&l3);
    s.step_at(sign(1, 1), Some(NOW));
    s.step_at(sign(2, 2), Some(NOW));
    let turn = s.step_at(sign(3, 3), Some(NOW));
    assert!(matches!(turn.next, Next::Transfer(_)));
    let failed = s.step_at(RoomInput::Transferred(Err("Failed to send transaction".to_string())), Some(NOW));
    let words = "Failed to send transaction";
    assert_eq!(
        failed,
        Turn {
            deliveries: vec![error_to(1, words), error_to(2, words), error_to(3, words)],
            next: Next::Exit,
        }
    );
    assert_eq!(s.phase(), Phase::Aborted);
}

#[test]
fn unknown_participant_is_told_of_the_failure() {
    let mut s = session(vec![id(1), id(2)]);
    s.step_at(add(1, 1), Some(NOW));
    let words = "not a participant of this room";
    assert_eq!(
        s.step_at(add(9, 9), Some(NOW)),
        Turn { deliveries: vec![error_to(1, words), error_to(9, words)], next: Next::Exit }
    );
    assert_eq!(s.phase(), Phase::Aborted);
}

#[test]
fn connecting_twice_aborts_the_room() {
    let mut s = session(vec![id(1), id(2)]);
    s.step_at(add(1, 1), Some(NOW));
    let words = "participant is already connected";
    assert_eq!(
        s.step_at(add(1, 5), Some(NOW)),
        Turn { deliveries: vec![error_to(1, words)], next: Next::Exit }
    );
}

#[test]
fn signature_before_signing_aborts_the_room() {
    let mut s = connected_three();
    let words = "room is not collecting signatures";
    assert_eq!(
        s.step_at(sign(1, 1), Some(NOW)),
        Turn {
            deliveries: vec![error_to(1, words), error_to(2, words), error_to(3, words)],
            next: Next::Exit,
        }
    );
}

#[test]
fn second_signature_of_one_participant_aborts_the_room() {
    let mut s = signing_three(&vec![vec![1u8; 20]]);
    s.step_at(sign(1, 1), Some(NOW));
    let words = "participant has already signed";
    assert_eq!(
        s.step_at(sign(1, 2), Some(NOW)),
        Turn {
            deliveries: vec![error_to(1, words), error_to(2, words), error_to(3, words)],
            next: Next::Exit,
        }
    );
}

#[test]
fn signature_of_a_stranger_aborts_the_room() {
    let mut s = signing_three(&vec![vec![1u8; 20]]);
    assert_eq!(
        s.handle_event_at(RoomEvents::SignedOutput((id(8), signature(1))), Some(NOW)),
        Err(RoomError::UnknownParticipant)
    );
    assert_eq!(s.phase(), Phase::Signing);
}

#[test]
fn round_after_the_last_is_out_of_turn() {
    let mut s = signing_three(&vec![vec![1u8; 20]]);
    assert_eq!(
        s.handle_event_at(RoomEvents::ShuffleRound((id(1), vec![])), Some(NOW)),
        Err(RoomError::WrongTurn)
    );
}

#[test]
fn round_before_the_keys_are_out_is_out_of_turn() {
    let mut s = session(vec![id(1), id(2)]);
    s.step_at(add(1, 1), Some(NOW));
    assert_eq!(
        s.handle_event_at(RoomEvents::ShuffleRound((id(1), vec![])), Some(NOW)),
        Err(RoomError::WrongTurn)
    );
}

#[test]
fn transfer_result_without_a_transfer_aborts() {
    let mut s = connected_three();
    let words = "no transfer is pending";
    assert_eq!(
        s.step_at(RoomInput::Transferred(Ok(vec![1u8; 32])), Some(NOW)),
        Turn {
            deliveries: vec![error_to(1, words), error_to(2, words), error_to(3, words)],
            next: Next::Exit,
        }
    );
    assert_eq!(s.phase(), Phase::Aborted);
}

#[test]
fn no_token_without_a_clock() {
    let mut s = session(vec![id(1)]);
    let words = "failed to generate room access token";
    assert_eq!(
        s.step_at(add(1, 1), None),
        Turn { deliveries: vec![error_to(1, words)], next: Next::Exit }
    );
    assert_eq!(s.phase(), Phase::Aborted);
}

#[test]
fn single_participant_room_runs_through() {
    let mut s = session(vec![id(1)]);
    let turn = s.step_at(add(1, 1), Some(NOW));
    assert_eq!(
        turn.deliveries,
        vec![
            info(1, vec![]),
            Delivery { utxo_id: id(1), event: ShuffleEvent::EncodedOutputs { outputs: vec![] } },
        ]
    );
    let outputs = vec![vec![6u8; 20]];
    let turn = s.step_at(round(1, &outputs), Some(NOW));
    assert_eq!(
        turn.deliveries,
        vec![Delivery { utxo_id: id(1), event: ShuffleEvent::TxSigningOutputs { outputs: outputs.clone() } }]
    );
    let turn = s.step_at(sign(1, 4), Some(NOW));
    assert_eq!(
        turn.next,
        Next::Transfer(TransferRequest {
            inputs: vec![Input { utxo_id: id(1), signature: signature(4) }],
            outputs,
        })
    );
}

#[test]
fn step_reads_the_clock_and_handles_the_event() {
    let mut s = session(vec![id(1), id(2)]);
    assert_eq!(s.step(add(2, 2)), Turn { deliveries: vec![], next: Next::Continue });
    let turn = s.step(add(1, 1));
    assert_eq!(turn.next, Next::Continue);
    assert_eq!(turn.deliveries.len(), 3);
    assert_eq!(turn.deliveries[0].utxo_id, id(1));
    assert_eq!(turn.deliveries[1].utxo_id, id(2));
    match &turn.deliveries[0].event {
        ShuffleEvent::ShuffleInfo { public_keys_list, shuffle_access_token } => {
            assert_eq!(public_keys_list, &vec![key(2)]);
            let header = format!("Bearer {}", shuffle_access_token);
            let claim = generator().decode_room_token(Some(&header)).unwrap();
            assert_eq!(claim.utxo_id, id(1));
            assert_eq!(claim.room_id, ROOM_ID);
        }
        other => panic!("unexpected event {:?}", other),
    }
    assert_eq!(
        s.handle_event(RoomEvents::ShuffleRound((id(1), vec![vec![1u8]]))),
        Ok(Handled {
            deliveries: vec![Delivery {
                utxo_id: id(2),
                event: ShuffleEvent::EncodedOutputs { outputs: vec![vec![1u8]] },
            }],
            transfer: None,
        })
    );
}

#[test]
fn room_methods_report_rounds_and_status() {
    let class = Address { bytes: [9u8; 20] };
    let mut room = Room::new(ROOM_ID, class, id(5), vec![id(1), id(2)]).unwrap();
    assert_eq!(room.status(&id(1)), Some(ShuffleRound::AwaitingKey));
    assert_eq!(room.status(&id(7)), None);
    assert_eq!(room.connect_participant(&id(2), key(2)), Ok(false));
    assert_eq!(room.status(&id(2)), Some(ShuffleRound::KeyShared));
    assert_eq!(room.connected(), vec![id(2)]);
    assert_eq!(room.connect_participant(&id(2), key(2)), Err(RoomError::AlreadyConnected));
    assert_eq!(room.connect_participant(&id(1), key(1)), Ok(true));
    assert_eq!(room.keys_for(0), vec![key(2)]);
    assert_eq!(room.keys_for(1), vec![]);
    assert_eq!(room.status(&id(1)), Some(ShuffleRound::Decoding(0)));
    assert_eq!(room.pass_decoded_outputs(&id(2), vec![]), Err(RoomError::WrongTurn));
    assert_eq!(room.pass_decoded_outputs(&id(1), vec![vec![1u8]]), Ok(RoundResult::Round(1)));
    assert_eq!(room.current_round(), 1);
    assert_eq!(room.pass_decoded_outputs(&id(2), vec![vec![2u8]]), Ok(RoundResult::Finished));
    assert_eq!(room.outputs(), &vec![vec![2u8]]);
    assert_eq!(room.settle(true), Err(RoomError::NoTransferPending));
    assert_eq!(room.pass_signature(&id(2), signature(2)), Ok(None));
    assert_eq!(room.status(&id(2)), Some(ShuffleRound::Signed));
    assert_eq!(room.status(&id(1)), Some(ShuffleRound::Signing));
    assert_eq!(room.pass_signature(&id(2), signature(2)), Err(RoomError::DuplicateSignature));
    assert!(room.pass_signature(&id(1), signature(1)).unwrap().is_some());
    assert_eq!(room.settle(true), Ok(()));
    assert_eq!(room.phase(), Phase::Done);
    assert!(room.is_closed());
    assert_eq!(room.status(&id(1)), Some(ShuffleRound::Done));
    assert_eq!(room.settle(true), Err(RoomError::Closed));
    room.abort();
    assert_eq!(room.status(&id(1)), Some(ShuffleRound::Aborted));
}

#[test]
fn closed_stream_aborts_the_room() {
    let mut s = connected_three();
    let words = "participant has disconnected";
    assert_eq!(
        s.step_at(RoomInput::Disconnected(id(2)), Some(NOW)),
        Turn { deliveries: vec![error_to(1, words), error_to(3, words)], next: Next::Exit }
    );
    assert_eq!(s.phase(), Phase::Aborted);
}
