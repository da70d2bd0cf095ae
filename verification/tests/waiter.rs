use shuffle_service::primitives::{Address, U256};
use shuffle_service::waiter::queue::QueuesStorage;
use shuffle_service::waiter::Waiter;

fn class(n: u8) -> (Address, U256) {
    (Address { bytes: [n; 20] }, U256::from_u64(5))
}

fn id(n: u64) -> U256 {
    U256::from_u64(n)
}

#[test]
fn batch_comes_with_the_last_of_three() {
    let (token, amount) = class(7);
    let mut waiter = Waiter::new(3);
    assert_eq!(waiter.min_participants(), 3);
    assert_eq!(waiter.add_participant(token, amount, id(1)), None);
    assert_eq!(waiter.add_participant(token, amount, id(2)), None);
    assert_eq!(waiter.waiting_len(token, amount), 2);
    assert_eq!(waiter.add_participant(token, amount, id(3)), Some(vec![id(1), id(2), id(3)]));
    assert_eq!(waiter.waiting_len(token, amount), 0);
    assert_eq!(waiter.add_participant(token, amount, id(4)), None);
    assert_eq!(waiter.waiting_len(token, amount), 1);
}

#[test]
fn one_batch_in_every_run_of_room_size() {
    let (token, amount) = class(7);
    let mut waiter = Waiter::new(2);
    let mut batches = Vec::new();
    for n in 1..=7u64 {
        batches.push(waiter.add_participant(token, amount, id(n)));
    }
    assert_eq!(
        batches,
        vec![
            None,
            Some(vec![id(1), id(2)]),
            None,
            Some(vec![id(3), id(4)]),
            None,
            Some(vec![id(5), id(6)]),
            None,
        ]
    );
}

#[test]
fn room_of_one_forms_at_once() {
    let (token, amount) = class(7);
    let mut waiter = Waiter::new(1);
    assert_eq!(waiter.add_participant(token, amount, id(1)), Some(vec![id(1)]));
    assert_eq!(waiter.add_participant(token, amount, id(2)), Some(vec![id(2)]));
}

#[test]
fn classes_do_not_mix() {
    let (token_a, amount) = class(1);
    let (token_b, _) = class(2);
    let mut waiter = Waiter::new(2);
    assert_eq!(waiter.add_participant(token_a, amount, id(1)), None);
    assert_eq!(waiter.add_participant(token_b, amount, id(2)), None);
    assert_eq!(waiter.add_participant(token_a, id(6), id(3)), None);
    assert!(waiter.is_waiting_anywhere(id(3)));
    assert!(!waiter.is_waiting_anywhere(id(4)));
    assert_eq!(waiter.add_participant(token_b, amount, id(4)), Some(vec![id(2), id(4)]));
    assert_eq!(waiter.add_participant(token_a, amount, id(5)), Some(vec![id(1), id(5)]));
    assert!(!waiter.is_waiting_anywhere(id(1)));
    assert!(waiter.is_waiting_anywhere(id(3)));
}

#[test]
fn storage_keeps_arrival_order() {
    let (token, amount) = class(1);
    let mut storage = QueuesStorage::new();
    assert_eq!(storage.len(token, amount), 0);
    assert_eq!(storage.pop(token, amount), vec![]);
    storage.push(token, amount, id(3));
    storage.push(token, amount, id(1));
    storage.push(token, id(9), id(2));
    assert_eq!(storage.len(token, amount), 2);
    assert_eq!(storage.len(token, id(9)), 1);
    assert!(storage.contains_anywhere(id(2)));
    assert_eq!(storage.pop(token, amount), vec![id(3), id(1)]);
    assert_eq!(storage.len(token, amount), 0);
    assert_eq!(storage.len(token, id(9)), 1);
    storage.push(token, amount, id(8));
    assert_eq!(storage.pop(token, amount), vec![id(8)]);
}

#[test]
fn first_ids_leave_the_queue() {
    let (token, amount) = class(1);
    let mut storage = QueuesStorage::new();
    assert_eq!(storage.pop_from_queue(token, amount, 0), vec![]);
    for n in 1..=5u64 {
        storage.push(token, amount, id(n));
    }
    storage.push(token, id(9), id(7));
    assert_eq!(storage.pop_from_queue(token, amount, 2), vec![id(1), id(2)]);
    assert_eq!(storage.len(token, amount), 3);
    assert_eq!(storage.pop_from_queue(token, amount, 0), vec![]);
    assert_eq!(storage.pop_from_queue(token, amount, 3), vec![id(3), id(4), id(5)]);
    assert_eq!(storage.len(token, amount), 0);
    assert_eq!(storage.len(token, id(9)), 1);
}
