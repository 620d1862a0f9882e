//! Polling command codes.

use vstd::prelude::*;

verus! {

/// Read-status command.
pub const READ_STATUS: u8 = 0x08;
/// Read-status sub-command.
pub const READ_SUBCMD: u8 = 0x02;
/// Status page.
pub const STATUS_PAGE: u8 = 0x30;
/// Status offset.
pub const STATUS_OFFSET: u8 = 0x10;

} // verus!
