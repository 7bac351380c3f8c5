//! Keys and LEDs by index or by place in the grid, and the errors of naming one
//! that is not there.

use crate::hw_specific::{key_at, HardwareInfo, NUM_LEDS};
use vstd::prelude::*;

verus! {

#[derive(Debug, Copy, Clone, PartialEq, Eq, Structural)]
pub struct Point {
    pub x: usize,
    pub y: usize,
}

#[derive(Debug, Copy, Clone, PartialEq, Eq, Structural)]
pub enum KeyLocation {
    Coordinate(Point),
    Index(usize),
}

#[derive(Debug, Copy, Clone, PartialEq, Eq, Structural)]
pub enum KeybowError {
    /// There is no key or LED at this location.
    BadKeyLocation { bad_location: KeyLocation },
    /// Brightness is a global multiplier applied to all LEDs, and this is no
    /// setting of it.
    BadBrightness { bad_brightness: u8 },
}

/// The key/LED index that `location` stands for, where it stands for one.
pub open spec fn location_index(location: KeyLocation) -> Option<int> {
    match location {
        KeyLocation::Index(index) => if index < NUM_LEDS {
            Some(index as int)
        } else {
            None
        },
        KeyLocation::Coordinate(point) => if point.x < 4 && point.y < 3 {
            Some(key_at(point.x as int, point.y as int))
        } else {
            None
        },
    }
}

/// An index stands for itself, where there is such a key, and a place in the grid for the index
/// that is found by counting four to a row. Nothing else stands for a key, and two locations
/// are the same key just where they come to the same count.
pub proof fn law_location_counts_four_to_a_row(index: usize, x: usize, y: usize)
    ensures
        location_index(KeyLocation::Index(index)) is Some <==> index < 12,
        index < 12 ==> location_index(KeyLocation::Index(index)) == Some(index as int),
        location_index(KeyLocation::Coordinate(Point { x, y })) is Some <==> x < 4 && y < 3,
        x < 4 && y < 3 ==> location_index(KeyLocation::Coordinate(Point { x, y })) == Some(
            4 * y + x,
        ),
        index < 12 && x < 4 && y < 3 ==> (location_index(KeyLocation::Index(index))
            == location_index(KeyLocation::Coordinate(Point { x, y })) <==> index == 4 * y + x),
{
}

/// Look up (x,y) and get back key/LED index.
pub fn coord_to_index(coordinate: Point) -> (r: Result<usize, KeybowError>)
    ensures
        coordinate.x < 4 && coordinate.y < 3 ==> r == Ok::<usize, KeybowError>(
            key_at(coordinate.x as int, coordinate.y as int) as usize,
        ) && r->Ok_0 < NUM_LEDS,
        !(coordinate.x < 4 && coordinate.y < 3) ==> r == Err::<usize, KeybowError>(
            KeybowError::BadKeyLocation { bad_location: KeyLocation::Coordinate(coordinate) },
        ),
{
    let two_d_array = HardwareInfo::get_info().xy_to_index_lookup;
    if coordinate.x >= two_d_array.len() || coordinate.y >= two_d_array[0].len() {
        Err(KeybowError::BadKeyLocation { bad_location: KeyLocation::Coordinate(coordinate) })
    } else {
        Ok(two_d_array[coordinate.x][coordinate.y])
    }
}

/// The index that a location stands for, or the error that names the location.
pub fn location_to_index(location: KeyLocation) -> (r: Result<usize, KeybowError>)
    ensures
        match location_index(location) {
            Some(index) => r == Ok::<usize, KeybowError>(index as usize) && index < NUM_LEDS,
            None => r == Err::<usize, KeybowError>(
                KeybowError::BadKeyLocation { bad_location: location },
            ),
        },
{
    match location {
        KeyLocation::Coordinate(coordinate) => coord_to_index(coordinate),
        KeyLocation::Index(index) => if index >= NUM_LEDS {
            Err(KeybowError::BadKeyLocation { bad_location: KeyLocation::Index(index) })
        } else {
            Ok(index)
        },
    }
}

} // verus!
