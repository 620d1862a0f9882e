//! Shared data model: commands, port runtime state and decoded values.

pub mod command;
pub mod state;
pub mod value;

pub use command::{Command, CommandType, DeviceSetting, PortStatus, SendData};
pub use state::{PortRuntimeState, SystemState};
pub use value::Value;

use vstd::prelude::*;

verus! {

/// Wrapping (modulo 256) sum of all bytes of `data`.
pub open spec fn byte_sum(data: Seq<u8>) -> u8
    decreases data.len(),
{
    if data.len() == 0 {
        0u8
    } else {
        ((byte_sum(data.drop_last()) as int + data.last() as int) % 256) as u8
    }
}

/// Additive checksum of `data`: the byte sum, wrapping on overflow.
pub fn get_sum(data: &[u8]) -> (sum: u8)
    ensures
        sum == byte_sum(data@),
{
    let mut acc: u8 = 0;
    let mut i: usize = 0;
    while i < data.len()
        invariant
            0 <= i <= data.len(),
            acc == byte_sum(data@.take(i as int)),
        decreases data.len() - i,
    {
        assert(data@.take(i + 1).drop_last() == data@.take(i as int));
        acc = acc.wrapping_add(data[i]);
        i = i + 1;
    }
    assert(data@.take(data.len() as int) == data@);
    acc
}

} // verus!
