//! Markers: labels attached to frames.

use vstd::prelude::*;
use crate::unique::{is_random_uuid, random_uuid_bits};

verus! {

/// An opaque label that can be attached to any number of frames, in any number
/// of clips. Two markers are the same label exactly when their values are equal.
#[derive(Debug, Clone, Copy, PartialEq, Eq, Hash, Structural)]
pub struct Marker {
    value: u128,
}

impl View for Marker {
    type V = u128;

    /// The 128-bit value that identifies this marker.
    closed spec fn view(&self) -> u128 {
        self.value
    }
}

impl Marker {
    /// Creates a marker with a value drawn at random.
    pub fn new() -> (marker: Marker)
        ensures
            is_random_uuid(marker@),
    {
        Marker { value: random_uuid_bits() }
    }

    /// The marker with the given value, as read back from stored data.
    pub fn from_u128(value: u128) -> (marker: Marker)
        ensures
            marker@ == value,
    {
        Marker { value }
    }

    /// The 128-bit value that identifies this marker.
    pub fn as_u128(&self) -> (value: u128)
        ensures
            value == self@,
    {
        self.value
    }

    /// A marker is nothing more than its value: markers with equal values are
    /// equal.
    pub broadcast proof fn lemma_value_is_marker(a: Marker, b: Marker)
        ensures
            (#[trigger] a@ == #[trigger] b@) ==> a == b,
    {
    }
}

} // verus!
