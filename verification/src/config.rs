//! The settings of the service that its rules depend on.

use vstd::prelude::*;

verus! {

/// The room size of a service that is configured with none.
pub const DEFAULT_MIN_ROOM_SIZE: usize = 3;

/// The seconds to the deadline of a service that is configured with none.
pub const DEFAULT_SHUFFLE_ROUND_DEADLINE: u64 = 120;

/// Why settings are turned down.
#[derive(Clone, Copy, Debug, PartialEq, Eq, Structural)]
pub enum ConfigError {
    /// A shuffle needs at least two participants.
    RoomTooSmall(usize),
    /// A deadline of no seconds would abort every room at once.
    NoDeadline,
}

/// The size of the rooms and the seconds after which a room is given up.
#[derive(Clone, Copy, Debug, PartialEq, Eq, Structural)]
pub struct ServiceSettings {
    pub min_room_size: usize,
    pub shuffle_round_deadline: u64,
}

impl ServiceSettings {
    /// Rooms of three, given up after two minutes.
    pub fn standard() -> (r: ServiceSettings)
        ensures
            r.min_room_size == DEFAULT_MIN_ROOM_SIZE,
            r.shuffle_round_deadline == DEFAULT_SHUFFLE_ROUND_DEADLINE,
    {
        ServiceSettings {
            min_room_size: DEFAULT_MIN_ROOM_SIZE,
            shuffle_round_deadline: DEFAULT_SHUFFLE_ROUND_DEADLINE,
        }
    }

    /// Accepts a room size of at least two and a deadline of at least one
    /// second; the size is looked at first.
    pub fn new(min_room_size: usize, shuffle_round_deadline: u64) -> (r: Result<
        ServiceSettings,
        ConfigError,
    >)
        ensures
            r == (if min_room_size < 2 {
                Err::<ServiceSettings, ConfigError>(ConfigError::RoomTooSmall(min_room_size))
            } else if shuffle_round_deadline == 0 {
                Err::<ServiceSettings, ConfigError>(ConfigError::NoDeadline)
            } else {
                Ok::<ServiceSettings, ConfigError>(
                    ServiceSettings { min_room_size, shuffle_round_deadline },
                )
            }),
    {
        if min_room_size < 2 {
            Err(ConfigError::RoomTooSmall(min_room_size))
        } else if shuffle_round_deadline == 0 {
            Err(ConfigError::NoDeadline)
        } else {
            Ok(ServiceSettings { min_room_size, shuffle_round_deadline })
        }
    }
}

} // verus!
