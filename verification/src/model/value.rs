//! Decoded device readings.

use vstd::prelude::*;

verus! {

/// A reading decoded from a device status frame.
///
/// Analog points are transmitted as integers in hundredths of the engineering
/// unit; `Hundredths(n)` carries such a raw count, whose reading is `n / 100`.
#[derive(Debug, Clone, Copy, PartialEq, Eq, Structural)]
pub enum Value {
    /// Unsigned integer reading.
    UInt(u32),
    /// Boolean reading.
    Bool(bool),
    /// Analog reading in hundredths of the unit.
    Hundredths(u32),
}

} // verus!
