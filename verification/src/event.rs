//! Key positions and key events.

use crate::hw_specific::NUM_KEYS;
use std::time::{Instant, SystemTime};
use vstd::prelude::*;

verus! {

/// `std::time::Instant`, carried through unread.
#[verifier::external_type_specification]
#[verifier::external_body]
pub struct ExInstant(std::time::Instant);

/// `std::time::SystemTime`, carried through unread.
#[verifier::external_type_specification]
#[verifier::external_body]
pub struct ExSystemTime(std::time::SystemTime);

#[derive(Debug, Clone, Copy, PartialEq, Eq, Structural)]
pub enum KeyPosition {
    Up,
    Down,
}

/// The electrical level that an interrupt reports for a GPIO line.
#[derive(Debug, Clone, Copy, PartialEq, Eq, Structural)]
pub enum Level {
    Low,
    High,
}

impl From<Level> for KeyPosition {
    fn from(level: Level) -> (key_position: Self) {
        match level {
            Level::High => KeyPosition::Down,
            Level::Low => KeyPosition::Up,
        }
    }
}

impl vstd::std_specs::convert::FromSpecImpl<Level> for KeyPosition {
    open spec fn obeys_from_spec() -> bool {
        true
    }

    open spec fn from_spec(level: Level) -> KeyPosition {
        match level {
            Level::High => KeyPosition::Down,
            Level::Low => KeyPosition::Up,
        }
    }
}

impl From<KeyPosition> for bool {
    fn from(key_position: KeyPosition) -> (if_down: bool) {
        match key_position {
            KeyPosition::Up => false,
            KeyPosition::Down => true,
        }
    }
}

impl vstd::std_specs::convert::FromSpecImpl<KeyPosition> for bool {
    open spec fn obeys_from_spec() -> bool {
        true
    }

    open spec fn from_spec(key_position: KeyPosition) -> bool {
        key_position == KeyPosition::Down
    }
}

impl From<bool> for KeyPosition {
    fn from(if_down: bool) -> (key_position: Self) {
        if if_down {
            KeyPosition::Down
        } else {
            KeyPosition::Up
        }
    }
}

impl vstd::std_specs::convert::FromSpecImpl<bool> for KeyPosition {
    open spec fn obeys_from_spec() -> bool {
        true
    }

    open spec fn from_spec(if_down: bool) -> KeyPosition {
        position_of(if_down)
    }
}

/// The position of a key that is down or not.
pub open spec fn position_of(if_down: bool) -> KeyPosition {
    if if_down {
        KeyPosition::Down
    } else {
        KeyPosition::Up
    }
}

/// One of these gets returned for every debounced key event.
#[derive(Debug, Clone, Copy)]
pub struct KeyEvent {
    /// Which key, by index position.
    pub key_index: usize,
    /// Which key, by char assigned to the key.
    pub char: char,
    /// Whether the key is up or down.
    pub key_position: KeyPosition,
    /// When the event happened, as an Instant.
    pub event_instant: Instant,
    /// When the event happened, as a SystemTime.
    pub event_systime: SystemTime,
    /// The values of all the keys at the time of the key event. Useful for
    /// metakeys.
    pub up_down_values: [KeyPosition; NUM_KEYS],
    /// Where this event comes among all those that were queued for its
    /// registration, counted from one.
    pub event_num: usize,
    /// How many events, this one included, were queued when it was queued.
    pub additional_events_still_queued: usize,
}

/// A position turned into a truth value and back is the same position, and the
/// other way round.
pub proof fn law_position_round_trip(key_position: KeyPosition, if_down: bool)
    ensures
        <KeyPosition as vstd::std_specs::convert::FromSpec<bool>>::from_spec(
            <bool as vstd::std_specs::convert::FromSpec<KeyPosition>>::from_spec(key_position),
        ) == key_position,
        <bool as vstd::std_specs::convert::FromSpec<KeyPosition>>::from_spec(
            <KeyPosition as vstd::std_specs::convert::FromSpec<bool>>::from_spec(if_down),
        ) == if_down,
{
}

/// A key is down just where its truth value is true, and a line that is reported high means
/// that its key is down.
pub proof fn law_true_means_down(key_position: KeyPosition, if_down: bool, level: Level)
    ensures
        <KeyPosition as vstd::std_specs::convert::FromSpec<bool>>::from_spec(if_down)
            is Down <==> if_down,
        <bool as vstd::std_specs::convert::FromSpec<KeyPosition>>::from_spec(key_position)
            <==> key_position is Down,
        <KeyPosition as vstd::std_specs::convert::FromSpec<Level>>::from_spec(level)
            is Down <==> level is High,
        position_of(if_down) is Down <==> if_down,
{
}

} // verus!
