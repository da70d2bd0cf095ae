//! Coordinator core of a UTXO coin-shuffle service.
//!
//! Participants whose UTXOs share a token and an amount are queued by the
//! [`waiter`], grouped into rooms, and driven through the shuffle by the room
//! session in [`service`]. Every executable function carries a contract that
//! the verifier proves.

pub mod config;
pub mod primitives;
pub mod service;
pub mod waiter;
