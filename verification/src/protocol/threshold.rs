//! Fault-handling thresholds.

use vstd::prelude::*;

verus! {

/// A device that timed out this many times starts being skipped.
pub const DEVICE_TIMEOUT_SKIP: u32 = 3;
/// A skipped device is retried after this many skipped rounds.
pub const DEVICE_SKIP_ROUNDS: u32 = 10;
/// Port-wide timeouts above which a standby promotes itself.
pub const PORT_FAILOVER_TIMEOUT: u32 = 20;
/// Parse failures above which a promoted standby steps back.
pub const PARSE_FAIL_FAILOVER: u32 = 100;
/// Unchanged frames after which the same data is published again.
pub const SAME_DATA_BROADCAST: u32 = 10;

} // verus!
