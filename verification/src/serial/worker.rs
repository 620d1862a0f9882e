//! Polling decisions of the acquisition loop.

use vstd::prelude::*;

use super::manager::{same_record, LinkState};
use crate::config::RunLocation;
use crate::model::{byte_sum, get_sum, SendData};
use crate::protocol::cmd::{READ_STATUS, READ_SUBCMD, STATUS_OFFSET, STATUS_PAGE};
use crate::protocol::threshold::{DEVICE_SKIP_ROUNDS, DEVICE_TIMEOUT_SKIP};

verus! {

/// Status query for the device at `addr` with a status block of `len`
/// bytes: address, command, sub-command, page, offset, length, checksum.
pub open spec fn poll_frame(addr: u8, len: u8) -> Seq<u8> {
    let body = seq![addr, READ_STATUS, READ_SUBCMD, STATUS_PAGE, STATUS_OFFSET, len];
    body.push(byte_sum(body))
}

/// Builds the status query for a device.
pub fn build_poll_frame(addr: u8, len: u8) -> (f: Vec<u8>)
    ensures
        f@ == poll_frame(addr, len),
{
    let mut f: Vec<u8> = Vec::new();
    f.push(addr);
    f.push(READ_STATUS);
    f.push(READ_SUBCMD);
    f.push(STATUS_PAGE);
    f.push(STATUS_OFFSET);
    f.push(len);
    let sum = get_sum(f.as_slice());
    let ghost body = f@;
    assert(body =~= seq![addr, READ_STATUS, READ_SUBCMD, STATUS_PAGE, STATUS_OFFSET, len]);
    f.push(sum);
    assert(f@ =~= body.push(sum));
    f
}

/// What a primary does for the polled device when no command is queued.
pub enum PollAction {
    /// The device keeps timing out and this round is skipped; polling has
    /// moved on to the next device.
    Skip,
    /// The device is disabled.
    Idle,
    /// Send this query.
    Send(SendData),
}

/// Whether the polled device is skipped this round: it timed out more than
/// `DEVICE_TIMEOUT_SKIP` times and has not yet sat out
/// `DEVICE_SKIP_ROUNDS` rounds.
pub open spec fn skips(timeout_count: u32, current_round: u32) -> bool {
    timeout_count > DEVICE_TIMEOUT_SKIP && current_round <= DEVICE_SKIP_ROUNDS
}

/// Decides the primary's poll of the current device. A device that keeps
/// timing out sits out rounds (and polling moves on); after enough rounds
/// it is tried again. A disabled device is not polled.
pub fn plan_poll(link: &mut LinkState) -> (a: PollAction)
    requires
        old(link).wf(),
        old(link).devices.len() > 0,
    ensures
        final(link).wf(),
        final(link).keeps_frame(*old(link)),
        final(link).current_run == old(link).current_run,
        final(link).time_out_count == old(link).time_out_count,
        final(link).parse_fail_count == old(link).parse_fail_count,
        ({
            let i = old(link).index as int;
            let (d, e) = (old(link).devices@[i], final(link).devices@[i]);
            &&& e.timeout_count == d.timeout_count
            &&& e.parse_fail_count == d.parse_fail_count
            &&& e.is_enabled == d.is_enabled
            &&& same_record(d, e)
            &&& if skips(d.timeout_count, d.current_round) {
                &&& a is Skip
                &&& e.current_round == d.current_round + 1
                &&& final(link).index == (i + 1) % (old(link).devices.len() as int)
            } else {
                &&& final(link).index == old(link).index
                &&& e.current_round == (if d.timeout_count > DEVICE_TIMEOUT_SKIP {
                    0
                } else {
                    d.current_round
                })
                &&& if d.is_enabled {
                    a matches PollAction::Send(sd) && sd.device_id == 1 && sd.command@ == poll_frame(
                        old(link).device_ids@[i],
                        old(link).data_lens@[i],
                    )
                } else {
                    a is Idle
                }
            }
        }),
{
    let i = link.index;
    let t = link.devices[i].timeout_count;
    let round = link.devices[i].current_round;
    let pf = link.devices[i].parse_fail_count;
    let en = link.devices[i].is_enabled;
    if t > DEVICE_TIMEOUT_SKIP {
        if round > DEVICE_SKIP_ROUNDS {
            link.set_round(0);
        } else {
            link.set_round(round + 1);
            link.index = (i + 1) % link.devices.len();
            return PollAction::Skip;
        }
    }
    if !en {
        return PollAction::Idle;
    }
    let frame = build_poll_frame(link.device_ids[i], link.data_lens[i]);
    PollAction::Send(SendData { device_id: 1, command: frame })
}

} // verus!
