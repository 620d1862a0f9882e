//! Per-port acquisition state and the decisions taken on each read:
//! publishing, cutting frames, counting faults and switching roles.

use vstd::prelude::*;

use crate::config::RunLocation;
use crate::model::command::{hex_digit, push_hex_byte};
use crate::protocol::threshold::{PARSE_FAIL_FAILOVER, PORT_FAILOVER_TIMEOUT, SAME_DATA_BROADCAST};
use crate::protocol::{checksum_ok, find_double_zero, first_double_zero, verify_checksum};
use crate::text::{push_str, string_from_chars};

verus! {

/// `x + 1`, wrapping to 0 after the largest value.
pub open spec fn bump(x: u32) -> u32 {
    if x == u32::MAX {
        0
    } else {
        (x + 1) as u32
    }
}

fn bump_exec(x: u32) -> (r: u32)
    ensures
        r == bump(x),
{
    if x == u32::MAX {
        0
    } else {
        x + 1
    }
}

// ------------------------------------------------------------------
//  Per-device state
// ------------------------------------------------------------------

/// Runtime state of one device on a port.
#[derive(Debug)]
pub struct DeviceRuntimeState {
    /// Consecutive read timeouts.
    pub timeout_count: u32,
    /// Rounds skipped since the device was last polled while timing out.
    pub current_round: u32,
    /// Consecutive unparsable frames.
    pub parse_fail_count: u32,
    /// Status data last published.
    pub last_data: Vec<u8>,
    /// Consecutive reads equal to `last_data`.
    pub same_count: u32,
    /// Whether the device is polled.
    pub is_enabled: bool,
}

/// One publishing decision: from the stored data and repetition count and
/// a new reading, the new stored data, the new count and whether to
/// publish. New data is published at once; unchanged data every
/// `SAME_DATA_BROADCAST`-th time.
pub open spec fn broadcast_step(last: Seq<u8>, same: nat, data: Seq<u8>) -> (Seq<u8>, nat, bool) {
    if data == last {
        if same + 1 >= SAME_DATA_BROADCAST {
            (last, 0, true)
        } else {
            (last, same + 1, false)
        }
    } else {
        (data, 0, true)
    }
}

impl DeviceRuntimeState {
    /// The data last published.
    pub open spec fn last_data_view(&self) -> Seq<u8> {
        self.last_data@
    }

    /// How many reads in a row repeated the data last published.
    pub open spec fn same_count_view(&self) -> nat {
        self.same_count as nat
    }

    /// The repetition count stays below the publishing period.
    pub open spec fn wf(&self) -> bool {
        self.same_count_view() < SAME_DATA_BROADCAST
    }

    /// A fresh state: no faults, enabled, last data a single zero byte.
    pub fn new() -> (s: Self)
        ensures
            s.wf(),
            s.timeout_count == 0,
            s.current_round == 0,
            s.parse_fail_count == 0,
            s.is_enabled,
            s.last_data_view() == seq![0u8],
            s.same_count_view() == 0,
    {
        let mut last_data: Vec<u8> = Vec::new();
        last_data.push(0);
        DeviceRuntimeState {
            timeout_count: 0,
            current_round: 0,
            parse_fail_count: 0,
            last_data,
            same_count: 0,
            is_enabled: true,
        }
    }

    /// Decides whether a reading is published, and records it.
    pub fn should_broadcast(&mut self, data: &[u8]) -> (r: bool)
        requires
            old(self).wf(),
        ensures
            final(self).wf(),
            (final(self).last_data_view(), final(self).same_count_view(), r) == broadcast_step(
                old(self).last_data_view(),
                old(self).same_count_view(),
                data@,
            ),
            final(self).timeout_count == old(self).timeout_count,
            final(self).current_round == old(self).current_round,
            final(self).parse_fail_count == old(self).parse_fail_count,
            final(self).is_enabled == old(self).is_enabled,
    {
        if bytes_eq(data, self.last_data.as_slice()) {
            self.same_count = self.same_count + 1;
            if self.same_count >= SAME_DATA_BROADCAST {
                self.same_count = 0;
                true
            } else {
                false
            }
        } else {
            self.same_count = 0;
            let mut copy: Vec<u8> = Vec::new();
            let mut i: usize = 0;
            while i < data.len()
                invariant
                    0 <= i <= data.len(),
                    copy@ == data@.take(i as int),
                decreases data.len() - i,
            {
                copy.push(data[i]);
                i = i + 1;
                assert(copy@ =~= data@.take(i as int));
            }
            assert(copy@ =~= data@);
            self.last_data = copy;
            true
        }
    }
}

/// Decides equality of two byte slices.
pub fn bytes_eq(a: &[u8], b: &[u8]) -> (r: bool)
    ensures
        r == (a@ == b@),
{
    if a.len() != b.len() {
        return false;
    }
    let mut i: usize = 0;
    while i < a.len()
        invariant
            0 <= i <= a.len(),
            a.len() == b.len(),
            forall|k: int| 0 <= k < i ==> a@[k] == b@[k],
        decreases a.len() - i,
    {
        if a[i] != b[i] {
            return false;
        }
        i = i + 1;
    }
    assert(a@ =~= b@);
    true
}

/// Repetition count after `k` further readings equal to the stored data.
pub open spec fn same_after(same: nat, k: nat) -> nat
    decreases k,
{
    if k == 0 {
        same
    } else {
        broadcast_step(Seq::empty(), same_after(same, (k - 1) as nat), Seq::empty()).1
    }
}

/// Unchanged data is published once every `SAME_DATA_BROADCAST` readings:
/// starting from a count below the period, after `k` equal readings the
/// count is `(same + k) % SAME_DATA_BROADCAST`, and the `k`-th of them is
/// published exactly when that is zero.
pub proof fn law_unchanged_data_period(last: Seq<u8>, same: nat, k: nat)
    requires
        same < SAME_DATA_BROADCAST,
        k > 0,
    ensures
        same_after(same, k) == (same + k) % (SAME_DATA_BROADCAST as nat),
        broadcast_step(last, same_after(same, (k - 1) as nat), last).1 == same_after(same, k),
        broadcast_step(last, same_after(same, (k - 1) as nat), last).2 <==> (same + k) % (SAME_DATA_BROADCAST as nat) == 0,
    decreases k,
{
    if k > 1 {
        law_unchanged_data_period(last, same, (k - 1) as nat);
    }
    let p = same_after(same, (k - 1) as nat);
    assert(p == (same + k - 1) % (SAME_DATA_BROADCAST as int)) by {
        if k == 1 {
            assert(p == same);
        }
    }
}

// ------------------------------------------------------------------
//  Frames
// ------------------------------------------------------------------

/// Length of a frame `[addr][cmd][len][status × (len + 1)][sum]`.
pub open spec fn frame_len_of(len_byte: u8) -> int {
    len_byte + 5
}

/// Expected total length of the frame being read into `buf`. A standby
/// reads frames forwarded behind a header and a `00 00` separator; when
/// their length byte is not in yet, one more byte than read is asked for.
pub open spec fn expected_frame_len_spec(buf: Seq<u8>, current_run: RunLocation) -> int {
    if current_run == RunLocation::Secondary {
        match first_double_zero(buf) {
            Some(idx) => if idx + 2 + 3 <= buf.len() {
                idx + 2 + frame_len_of(buf[idx + 4])
            } else {
                buf.len() + 1int
            },
            None => buf.len() + 1int,
        }
    } else {
        frame_len_of(buf[2])
    }
}

/// How many bytes the frame being read is expected to have.
pub fn expected_frame_len(buf: &[u8], current_run: RunLocation) -> (n: usize)
    requires
        current_run == RunLocation::Primary ==> buf.len() >= 3,
        buf.len() + 261 < usize::MAX,
    ensures
        n == expected_frame_len_spec(buf@, current_run),
{
    let total = buf.len();
    if current_run == RunLocation::Secondary {
        match find_double_zero(buf) {
            Some(idx) => {
                let data_start = idx + 2;
                if data_start + 3 <= total {
                    let len_byte = buf[data_start + 2] as usize;
                    data_start + len_byte + 5
                } else {
                    total + 1
                }
            },
            None => total + 1,
        }
    } else {
        let len_byte = buf[2] as usize;
        len_byte + 5
    }
}

/// Space-separated upper-case hexadecimal.
pub open spec fn hex_spaced(bytes: Seq<u8>) -> Seq<char>
    decreases bytes.len(),
{
    if bytes.len() == 0 {
        Seq::empty()
    } else {
        let pair = seq![hex_digit(bytes.last() as int / 16), hex_digit(bytes.last() as int % 16)];
        if bytes.len() == 1 {
            pair
        } else {
            hex_spaced(bytes.drop_last()) + seq![' '] + pair
        }
    }
}

/// Formats bytes as upper-case hexadecimal pairs separated by spaces.
pub fn format_hex(data: &[u8]) -> (s: String)
    ensures
        s@ == hex_spaced(data@),
{
    let mut out: Vec<char> = Vec::new();
    let mut i: usize = 0;
    while i < data.len()
        invariant
            0 <= i <= data.len(),
            out@ == hex_spaced(data@.take(i as int)),
        decreases data.len() - i,
    {
        let ghost before = out@;
        if i > 0 {
            out.push(' ');
        }
        push_hex_byte(&mut out, data[i]);
        assert(data@.take(i + 1).drop_last() =~= data@.take(i as int));
        assert(out@ =~= hex_spaced(data@.take(i + 1)));
        i = i + 1;
    }
    assert(data@.take(data.len() as int) =~= data@);
    string_from_chars(out.as_slice())
}

/// Index of the first device whose address is `addr`.
pub open spec fn first_device(ids: Seq<u8>, addr: u8) -> Option<int> {
    if exists|i: int| 0 <= i < ids.len() && ids[i] == addr {
        Some(choose|i: int| 0 <= i < ids.len() && ids[i] == addr && forall|j: int| 0 <= j < i ==> ids[j] != addr)
    } else {
        None
    }
}

fn find_device(ids: &Vec<u8>, addr: u8) -> (r: Option<usize>)
    ensures
        r matches Some(i) ==> i < ids.len(),
        match first_device(ids@, addr) {
            Some(i) => r == Some(i as usize),
            None => r is None,
        },
{
    let mut i: usize = 0;
    while i < ids.len()
        invariant
            0 <= i <= ids.len(),
            forall|j: int| 0 <= j < i ==> ids@[j] != addr,
        decreases ids.len() - i,
    {
        if ids[i] == addr {
            proof {
                let q = choose|k: int| 0 <= k < ids@.len() && ids@[k] == addr && forall|j: int| 0 <= j < k ==> ids@[j] != addr;
                if q < i {
                } else if q > i {
                    assert(ids@[i as int] == addr);
                }
                assert(first_device(ids@, addr) == Some(i as int));
            }
            return Some(i);
        }
        i = i + 1;
    }
    None
}

/// How a read buffer is cut into the frame to parse.
pub struct FrameSplit {
    /// The frame.
    pub frame: Vec<u8>,
    /// Device addressed by a valid forwarding header, if any.
    pub device_index: Option<usize>,
    /// Whether a promoted standby saw a forwarded frame, so that the
    /// primary is back and the standby steps back.
    pub back_to_standby: bool,
}

/// Whether a promoted standby sees that the primary is back.
pub open spec fn sees_primary_back(buf: Seq<u8>, run_on: RunLocation, current_run: RunLocation) -> bool {
    current_run == RunLocation::Primary && run_on == RunLocation::Secondary && first_double_zero(buf) is Some
}

/// The frame inside a forwarded buffer whose separator is at `idx`: what
/// follows the separator, cut to its length byte when it has one.
pub open spec fn forwarded_frame(buf: Seq<u8>, idx: int) -> Seq<u8> {
    let data = buf.skip(idx + 2);
    if data.len() >= 4 {
        let want = data[2] + 5;
        data.take(if want < data.len() {
            want
        } else {
            data.len() as int
        })
    } else {
        data
    }
}

/// The device a forwarding header addresses: a header is the 7 bytes
/// before the separator with a valid checksum, its first byte the address.
pub open spec fn forwarded_device(buf: Seq<u8>, idx: int, ids: Seq<u8>) -> Option<int> {
    if idx == 7 && checksum_ok(buf.take(7)) {
        first_device(ids, buf[0])
    } else {
        None
    }
}

/// Cuts the frame to parse out of a read buffer. A standby (or a promoted
/// standby that sees the primary is back) strips the forwarding header and
/// separator and learns which device was polled; otherwise the buffer is
/// the frame.
#[verifier::spinoff_prover]
pub fn split_frame(buf: &[u8], run_on: RunLocation, current_run: RunLocation, device_ids: &Vec<u8>) -> (r: FrameSplit)
    ensures
        r.back_to_standby == sees_primary_back(buf@, run_on, current_run),
        r.device_index matches Some(i) ==> i < device_ids.len(),
        ({
            let effective = if r.back_to_standby {
                RunLocation::Secondary
            } else {
                current_run
            };
            match first_double_zero(buf@) {
                Some(idx) => if effective == RunLocation::Secondary {
                    r.frame@ == forwarded_frame(buf@, idx) && match forwarded_device(buf@, idx, device_ids@) {
                        Some(i) => r.device_index == Some(i as usize),
                        None => r.device_index is None,
                    }
                } else {
                    r.frame@ == buf@ && r.device_index is None
                },
                None => r.frame@ == buf@ && r.device_index is None,
            }
        }),
{
    let found = find_double_zero(buf);
    let back = current_run == RunLocation::Primary && run_on == RunLocation::Secondary && found.is_some();
    let effective = if back {
        RunLocation::Secondary
    } else {
        current_run
    };
    match found {
        Some(idx) if effective == RunLocation::Secondary => {
            assert(idx + 1 < buf.len());
            let mut device_index: Option<usize> = None;
            if idx == 7 {
                let mut header: Vec<u8> = Vec::new();
                let mut k: usize = 0;
                while k < 7
                    invariant
                        0 <= k <= 7,
                        7 < buf.len(),
                        header@ == buf@.take(k as int),
                    decreases 7 - k,
                {
                    header.push(buf[k]);
                    k = k + 1;
                    assert(header@ =~= buf@.take(k as int));
                }
                if verify_checksum(header.as_slice()) {
                    device_index = find_device(device_ids, buf[0]);
                }
            }
            let start = idx + 2;
            let avail = buf.len() - start;
            let keep = if avail >= 4 {
                let want = buf[start + 2] as usize + 5;
                if want < avail {
                    want
                } else {
                    avail
                }
            } else {
                avail
            };
            let mut frame: Vec<u8> = Vec::new();
            let mut k: usize = 0;
            while k < keep
                invariant
                    0 <= k <= keep,
                    start + keep <= buf.len(),
                    frame@ == buf@.subrange(start as int, start + k),
                decreases keep - k,
            {
                frame.push(buf[start + k]);
                k = k + 1;
                assert(frame@ =~= buf@.subrange(start as int, start + k));
            }
            assert(buf@.subrange(start as int, start + keep) =~= forwarded_frame(buf@, idx as int));
            FrameSplit { frame, device_index, back_to_standby: back }
        },
        _ => {
            let mut frame: Vec<u8> = Vec::new();
            let mut k: usize = 0;
            while k < buf.len()
                invariant
                    0 <= k <= buf.len(),
                    frame@ == buf@.take(k as int),
                decreases buf.len() - k,
            {
                frame.push(buf[k]);
                k = k + 1;
                assert(frame@ =~= buf@.take(k as int));
            }
            assert(buf@.take(buf.len() as int) =~= buf@);
            FrameSplit { frame, device_index: None, back_to_standby: back }
        },
    }
}

// ------------------------------------------------------------------
//  Port state: role, fault counters, devices
// ------------------------------------------------------------------

/// Acquisition state of one port: the configured and the acting role,
/// port-wide fault counters, the device being polled and each device's
/// state, address and data length.
#[derive(Debug)]
pub struct LinkState {
    /// Role set in the configuration.
    pub run_on: RunLocation,
    /// Role currently acted.
    pub current_run: RunLocation,
    /// Consecutive timeouts on the port.
    pub time_out_count: u32,
    /// Consecutive unparsable frames on the port.
    pub parse_fail_count: u32,
    /// Device being polled.
    pub index: usize,
    /// State of each device.
    pub devices: Vec<DeviceRuntimeState>,
    /// Address of each device.
    pub device_ids: Vec<u8>,
    /// Status length of each device.
    pub data_lens: Vec<u8>,
}

/// Name of a role in messages.
pub open spec fn role_name(r: RunLocation) -> Seq<char> {
    match r {
        RunLocation::Primary => "主机"@,
        RunLocation::Secondary => "备机"@,
    }
}

/// Message logged on a role switch.
pub open spec fn switch_text(old: RunLocation, new: RunLocation, reason: Seq<char>) -> Seq<char> {
    "角色切换 "@ + role_name(old) + " → "@ + role_name(new) + "："@ + reason
}

/// `b` is `a` with its fault counters cleared.
pub open spec fn cleared(a: DeviceRuntimeState, b: DeviceRuntimeState) -> bool {
    &&& b.timeout_count == 0
    &&& b.parse_fail_count == 0
    &&& b.current_round == a.current_round
    &&& b.is_enabled == a.is_enabled
    &&& b.last_data@ == a.last_data@
    &&& b.same_count == a.same_count
}

/// `b` is `a` with other counters: the publishing record is kept.
pub open spec fn same_record(a: DeviceRuntimeState, b: DeviceRuntimeState) -> bool {
    &&& b.last_data@ == a.last_data@
    &&& b.same_count == a.same_count
}

fn set_device(devs: &mut Vec<DeviceRuntimeState>, i: usize, timeout_count: u32, parse_fail_count: u32, current_round: u32, is_enabled: bool)
    requires
        i < old(devs).len(),
    ensures
        final(devs).len() == old(devs).len(),
        forall|j: int| 0 <= j < final(devs).len() && j != i ==> #[trigger] final(devs)@[j] == old(devs)@[j],
        final(devs)@[i as int].timeout_count == timeout_count,
        final(devs)@[i as int].parse_fail_count == parse_fail_count,
        final(devs)@[i as int].current_round == current_round,
        final(devs)@[i as int].is_enabled == is_enabled,
        same_record(old(devs)@[i as int], final(devs)@[i as int]),
{
    let d = devs.remove(i);
    let DeviceRuntimeState { last_data, same_count, .. } = d;
    devs.insert(i, DeviceRuntimeState { timeout_count, current_round, parse_fail_count, last_data, same_count, is_enabled });
    assert forall|j: int| 0 <= j < devs.len() && j != i implies #[trigger] devs@[j] == old(devs)@[j] by {
        if j < i {
        } else {
        }
    }
}

impl LinkState {
    /// Well formed: one state, address and length per device, the polled
    /// device among them, every device state well formed.
    pub open spec fn wf(&self) -> bool {
        &&& self.devices.len() == self.device_ids.len()
        &&& self.devices.len() == self.data_lens.len()
        &&& (self.devices.len() > 0 ==> self.index < self.devices.len())
        &&& forall|i: int| 0 <= i < self.devices.len() ==> (#[trigger] self.devices@[i]).wf()
    }

    /// Fresh state for the devices with the given addresses and lengths,
    /// polling the first.
    pub fn new(run_on: RunLocation, current_run: RunLocation, device_ids: Vec<u8>, data_lens: Vec<u8>) -> (s: Self)
        requires
            device_ids.len() == data_lens.len(),
        ensures
            s.wf(),
            s.run_on == run_on,
            s.current_run == current_run,
            s.time_out_count == 0,
            s.parse_fail_count == 0,
            s.index == 0,
            s.device_ids@ == device_ids@,
            s.data_lens@ == data_lens@,
            forall|i: int| 0 <= i < s.devices.len() ==> {
                let d = #[trigger] s.devices@[i];
                &&& d.timeout_count == 0
                &&& d.current_round == 0
                &&& d.parse_fail_count == 0
                &&& d.is_enabled
                &&& d.last_data@ == seq![0u8]
                &&& d.same_count == 0
            },
    {
        let mut devices: Vec<DeviceRuntimeState> = Vec::new();
        let mut i: usize = 0;
        while i < device_ids.len()
            invariant
                0 <= i <= device_ids.len(),
                devices.len() == i,
                forall|k: int| 0 <= k < i ==> {
                    let d = #[trigger] devices@[k];
                    &&& d.wf()
                    &&& d.timeout_count == 0
                    &&& d.current_round == 0
                    &&& d.parse_fail_count == 0
                    &&& d.is_enabled
                    &&& d.last_data@ == seq![0u8]
                    &&& d.same_count == 0
                },
            decreases device_ids.len() - i,
        {
            devices.push(DeviceRuntimeState::new());
            i = i + 1;
        }
        LinkState { run_on, current_run, time_out_count: 0, parse_fail_count: 0, index: 0, devices, device_ids, data_lens }
    }

    /// Takes up `new_role`, clears every fault counter and returns the
    /// message to log.
    pub fn switch_role(&mut self, new_role: RunLocation, reason: &str) -> (msg: String)
        requires
            old(self).wf(),
        ensures
            final(self).wf(),
            msg@ == switch_text(old(self).current_run, new_role, reason@),
            final(self).current_run == new_role,
            final(self).run_on == old(self).run_on,
            final(self).time_out_count == 0,
            final(self).parse_fail_count == 0,
            final(self).index == old(self).index,
            final(self).device_ids@ == old(self).device_ids@,
            final(self).data_lens@ == old(self).data_lens@,
            final(self).devices.len() == old(self).devices.len(),
            forall|i: int| 0 <= i < final(self).devices.len() ==> cleared(old(self).devices@[i], #[trigger] final(self).devices@[i]),
    {
        let mut out: Vec<char> = Vec::new();
        push_str(&mut out, "角色切换 ");
        push_str(&mut out, if self.current_run == RunLocation::Primary { "主机" } else { "备机" });
        push_str(&mut out, " → ");
        push_str(&mut out, if new_role == RunLocation::Primary { "主机" } else { "备机" });
        push_str(&mut out, "：");
        push_str(&mut out, reason);
        self.current_run = new_role;
        self.time_out_count = 0;
        self.parse_fail_count = 0;
        let ghost before = self.devices@;
        let ghost old_self = *old(self);
        let mut i: usize = 0;
        while i < self.devices.len()
            invariant
                0 <= i <= self.devices.len(),
                self.current_run == new_role,
                self.run_on == old_self.run_on,
                self.time_out_count == 0,
                self.parse_fail_count == 0,
                self.index == old_self.index,
                self.device_ids@ == old_self.device_ids@,
                self.data_lens@ == old_self.data_lens@,
                old_self.wf(),
                before == old_self.devices@,
                self.devices.len() == before.len(),
                forall|k: int| 0 <= k < i ==> cleared(before[k], #[trigger] self.devices@[k]),
                forall|k: int| i <= k < self.devices.len() ==> #[trigger] self.devices@[k] == before[k],
                forall|k: int| 0 <= k < before.len() ==> (#[trigger] before[k]).wf(),
            decreases self.devices.len() - i,
        {
            let round = self.devices[i].current_round;
            let enabled = self.devices[i].is_enabled;
            set_device(&mut self.devices, i, 0, 0, round, enabled);
            i = i + 1;
        }
        string_from_chars(out.as_slice())
    }

    /// The devices other than the polled one, the addresses, the lengths
    /// and the configured role are as in `old`.
    pub open spec fn keeps_frame(&self, old: LinkState) -> bool {
        &&& self.run_on == old.run_on
        &&& self.device_ids@ == old.device_ids@
        &&& self.data_lens@ == old.data_lens@
        &&& self.devices.len() == old.devices.len()
        &&& forall|j: int| 0 <= j < self.devices.len() && j != old.index ==> #[trigger] self.devices@[j] == old.devices@[j]
    }

    /// A frame arrived: the polled device and the port have no timeouts
    /// in a row any more.
    pub fn record_read(&mut self)
        requires
            old(self).wf(),
            old(self).devices.len() > 0,
        ensures
            final(self).wf(),
            final(self).keeps_frame(*old(self)),
            final(self).current_run == old(self).current_run,
            final(self).index == old(self).index,
            final(self).time_out_count == 0,
            final(self).parse_fail_count == old(self).parse_fail_count,
            ({
                let (a, b) = (old(self).devices@[old(self).index as int], final(self).devices@[old(self).index as int]);
                b.timeout_count == 0 && b.parse_fail_count == a.parse_fail_count && b.current_round == a.current_round
                    && b.is_enabled == a.is_enabled && same_record(a, b)
            }),
    {
        let i = self.index;
        let pf = self.devices[i].parse_fail_count;
        let round = self.devices[i].current_round;
        let en = self.devices[i].is_enabled;
        set_device(&mut self.devices, i, 0, pf, round, en);
        self.time_out_count = 0;
    }

    /// A frame parsed: the polled device and the port have no parse
    /// failures in a row any more.
    pub fn record_parse_ok(&mut self)
        requires
            old(self).wf(),
            old(self).devices.len() > 0,
        ensures
            final(self).wf(),
            final(self).keeps_frame(*old(self)),
            final(self).current_run == old(self).current_run,
            final(self).index == old(self).index,
            final(self).time_out_count == old(self).time_out_count,
            final(self).parse_fail_count == 0,
            ({
                let (a, b) = (old(self).devices@[old(self).index as int], final(self).devices@[old(self).index as int]);
                b.timeout_count == a.timeout_count && b.parse_fail_count == 0 && b.current_round == a.current_round
                    && b.is_enabled == a.is_enabled && same_record(a, b)
            }),
    {
        let i = self.index;
        let t = self.devices[i].timeout_count;
        let round = self.devices[i].current_round;
        let en = self.devices[i].is_enabled;
        set_device(&mut self.devices, i, t, 0, round, en);
        self.parse_fail_count = 0;
    }

    /// A frame did not parse: counts the failure for the polled device and
    /// the port; a standby acting as primary that fails too often steps
    /// back, and the message to log is returned.
    pub fn record_parse_failure(&mut self) -> (msg: Option<String>)
        requires
            old(self).wf(),
            old(self).devices.len() > 0,
        ensures
            final(self).wf(),
            final(self).run_on == old(self).run_on,
            final(self).index == old(self).index,
            final(self).device_ids@ == old(self).device_ids@,
            final(self).data_lens@ == old(self).data_lens@,
            final(self).devices.len() == old(self).devices.len(),
            ({
                let counted = bump(old(self).parse_fail_count);
                let fails = counted > PARSE_FAIL_FAILOVER && old(self).current_run == RunLocation::Primary
                    && old(self).run_on == RunLocation::Secondary;
                if fails {
                    &&& msg matches Some(m) && m@ == switch_text(
                        RunLocation::Primary,
                        RunLocation::Secondary,
                        "解析失败过多，切换为备机"@,
                    )
                    &&& final(self).current_run == RunLocation::Secondary
                    &&& final(self).time_out_count == 0
                    &&& final(self).parse_fail_count == 0
                    &&& forall|i: int| 0 <= i < final(self).devices.len() ==> {
                        let (a, b) = (old(self).devices@[i], #[trigger] final(self).devices@[i]);
                        b.timeout_count == 0 && b.parse_fail_count == 0 && b.current_round == a.current_round
                            && b.is_enabled == a.is_enabled && same_record(a, b)
                    }
                } else {
                    &&& msg is None
                    &&& final(self).current_run == old(self).current_run
                    &&& final(self).time_out_count == old(self).time_out_count
                    &&& final(self).parse_fail_count == counted
                    &&& final(self).keeps_frame(*old(self))
                    &&& ({
                        let (a, b) = (old(self).devices@[old(self).index as int], final(self).devices@[old(self).index as int]);
                        b.timeout_count == a.timeout_count && b.parse_fail_count == bump(a.parse_fail_count)
                            && b.current_round == a.current_round && b.is_enabled == a.is_enabled && same_record(a, b)
                    })
                }
            }),
    {
        let i = self.index;
        let t = self.devices[i].timeout_count;
        let pf = bump_exec(self.devices[i].parse_fail_count);
        let round = self.devices[i].current_round;
        let en = self.devices[i].is_enabled;
        set_device(&mut self.devices, i, t, pf, round, en);
        self.parse_fail_count = bump_exec(self.parse_fail_count);
        if self.parse_fail_count > PARSE_FAIL_FAILOVER && self.current_run == RunLocation::Primary
            && self.run_on == RunLocation::Secondary {
            let m = self.switch_role(RunLocation::Secondary, "解析失败过多，切换为备机");
            Some(m)
        } else {
            None
        }
    }

    /// A read timed out: counts the timeout for the polled device and the
    /// port; a standby that times out too often takes over as primary, and
    /// the message to log is returned.
    pub fn record_timeout(&mut self) -> (msg: Option<String>)
        requires
            old(self).wf(),
            old(self).devices.len() > 0,
        ensures
            final(self).wf(),
            final(self).run_on == old(self).run_on,
            final(self).index == old(self).index,
            final(self).device_ids@ == old(self).device_ids@,
            final(self).data_lens@ == old(self).data_lens@,
            final(self).devices.len() == old(self).devices.len(),
            ({
                let counted = bump(old(self).time_out_count);
                let takes_over = counted > PORT_FAILOVER_TIMEOUT && old(self).current_run == RunLocation::Secondary
                    && old(self).run_on == RunLocation::Secondary;
                if takes_over {
                    &&& msg matches Some(m) && m@ == switch_text(
                        RunLocation::Secondary,
                        RunLocation::Primary,
                        "超时过多，备机升级为主机"@,
                    )
                    &&& final(self).current_run == RunLocation::Primary
                    &&& final(self).time_out_count == 0
                    &&& final(self).parse_fail_count == 0
                    &&& forall|i: int| 0 <= i < final(self).devices.len() ==> {
                        let (a, b) = (old(self).devices@[i], #[trigger] final(self).devices@[i]);
                        b.timeout_count == 0 && b.parse_fail_count == 0 && b.current_round == a.current_round
                            && b.is_enabled == a.is_enabled && same_record(a, b)
                    }
                } else {
                    &&& msg is None
                    &&& final(self).current_run == old(self).current_run
                    &&& final(self).time_out_count == counted
                    &&& final(self).parse_fail_count == old(self).parse_fail_count
                    &&& final(self).keeps_frame(*old(self))
                    &&& ({
                        let (a, b) = (old(self).devices@[old(self).index as int], final(self).devices@[old(self).index as int]);
                        b.timeout_count == bump(a.timeout_count) && b.parse_fail_count == a.parse_fail_count
                            && b.current_round == a.current_round && b.is_enabled == a.is_enabled && same_record(a, b)
                    })
                }
            }),
    {
        let i = self.index;
        let t = bump_exec(self.devices[i].timeout_count);
        let pf = self.devices[i].parse_fail_count;
        let round = self.devices[i].current_round;
        let en = self.devices[i].is_enabled;
        set_device(&mut self.devices, i, t, pf, round, en);
        self.time_out_count = bump_exec(self.time_out_count);
        if self.time_out_count > PORT_FAILOVER_TIMEOUT && self.current_run == RunLocation::Secondary
            && self.run_on == RunLocation::Secondary {
            let m = self.switch_role(RunLocation::Primary, "超时过多，备机升级为主机");
            Some(m)
        } else {
            None
        }
    }

    /// Publishing decision for a reading of the polled device.
    pub fn publish(&mut self, data: &[u8]) -> (r: bool)
        requires
            old(self).wf(),
            old(self).devices.len() > 0,
        ensures
            final(self).wf(),
            final(self).keeps_frame(*old(self)),
            final(self).current_run == old(self).current_run,
            final(self).index == old(self).index,
            final(self).time_out_count == old(self).time_out_count,
            final(self).parse_fail_count == old(self).parse_fail_count,
            ({
                let (a, b) = (old(self).devices@[old(self).index as int], final(self).devices@[old(self).index as int]);
                &&& (b.last_data@, b.same_count as nat, r) == broadcast_step(a.last_data@, a.same_count as nat, data@)
                &&& b.timeout_count == a.timeout_count
                &&& b.parse_fail_count == a.parse_fail_count
                &&& b.current_round == a.current_round
                &&& b.is_enabled == a.is_enabled
            }),
    {
        let i = self.index;
        let mut d = self.devices.remove(i);
        let r = d.should_broadcast(data);
        self.devices.insert(i, d);
        assert forall|j: int| 0 <= j < self.devices.len() && j != old(self).index implies #[trigger] self.devices@[j]
            == old(self).devices@[j] by {
            if j < i {
            } else {
            }
        }
        r
    }

    /// Cuts the frame out of a read buffer (see [`split_frame`]). A
    /// promoted standby that sees a forwarded frame steps back first; a
    /// valid forwarding header selects the polled device. Returns the
    /// frame and the message to log, if the role changed.
    pub fn take_frame(&mut self, buf: &[u8]) -> (r: (Vec<u8>, Option<String>))
        requires
            old(self).wf(),
        ensures
            final(self).wf(),
            final(self).run_on == old(self).run_on,
            final(self).device_ids@ == old(self).device_ids@,
            final(self).data_lens@ == old(self).data_lens@,
            final(self).devices.len() == old(self).devices.len(),
            ({
                let back = sees_primary_back(buf@, old(self).run_on, old(self).current_run);
                let effective = if back {
                    RunLocation::Secondary
                } else {
                    old(self).current_run
                };
                &&& final(self).current_run == effective
                &&& (back ==> (r.1 matches Some(m) && m@ == switch_text(
                    RunLocation::Primary,
                    RunLocation::Secondary,
                    "检测到主机转发帧，切回备机"@,
                )) && final(self).time_out_count == 0 && final(self).parse_fail_count == 0)
                &&& (!back ==> r.1 is None && final(self).time_out_count == old(self).time_out_count
                    && final(self).parse_fail_count == old(self).parse_fail_count
                    && final(self).devices@ == old(self).devices@)
                &&& match first_double_zero(buf@) {
                    Some(idx) => if effective == RunLocation::Secondary {
                        &&& r.0@ == forwarded_frame(buf@, idx)
                        &&& final(self).index == match forwarded_device(buf@, idx, old(self).device_ids@) {
                            Some(i) => i as usize,
                            None => old(self).index,
                        }
                    } else {
                        r.0@ == buf@ && final(self).index == old(self).index
                    },
                    None => r.0@ == buf@ && final(self).index == old(self).index,
                }
            }),
    {
        let split = split_frame(buf, self.run_on, self.current_run, &self.device_ids);
        let msg = if split.back_to_standby {
            Some(self.switch_role(RunLocation::Secondary, "检测到主机转发帧，切回备机"))
        } else {
            None
        };
        match split.device_index {
            Some(i) => {
                self.index = i;
            },
            None => {},
        }
        (split.frame, msg)
    }

    /// After a poll, a primary moves on to the next device.
    pub fn advance(&mut self)
        requires
            old(self).wf(),
        ensures
            final(self).wf(),
            final(self).keeps_frame(*old(self)),
            final(self).devices@ == old(self).devices@,
            final(self).current_run == old(self).current_run,
            final(self).time_out_count == old(self).time_out_count,
            final(self).parse_fail_count == old(self).parse_fail_count,
            final(self).index == (if old(self).current_run == RunLocation::Primary && old(self).devices.len() > 0 {
                ((old(self).index + 1) % (old(self).devices.len() as int)) as usize
            } else {
                old(self).index
            }),
    {
        if self.current_run == RunLocation::Primary && self.devices.len() > 0 {
            self.index = (self.index + 1) % self.devices.len();
        }
    }

    /// Enables or disables polling of every device with address `device_id`.
    pub fn set_device_enabled(&mut self, device_id: u8, enabled: bool)
        requires
            old(self).wf(),
        ensures
            final(self).wf(),
            final(self).run_on == old(self).run_on,
            final(self).current_run == old(self).current_run,
            final(self).index == old(self).index,
            final(self).time_out_count == old(self).time_out_count,
            final(self).parse_fail_count == old(self).parse_fail_count,
            final(self).device_ids@ == old(self).device_ids@,
            final(self).data_lens@ == old(self).data_lens@,
            final(self).devices.len() == old(self).devices.len(),
            forall|i: int| 0 <= i < final(self).devices.len() ==> {
                let (a, b) = (old(self).devices@[i], #[trigger] final(self).devices@[i]);
                &&& b.is_enabled == (if old(self).device_ids@[i] == device_id {
                    enabled
                } else {
                    a.is_enabled
                })
                &&& b.timeout_count == a.timeout_count
                &&& b.parse_fail_count == a.parse_fail_count
                &&& b.current_round == a.current_round
                &&& same_record(a, b)
            },
    {
        let ghost old_self = *old(self);
        let mut i: usize = 0;
        while i < self.devices.len()
            invariant
                0 <= i <= self.devices.len(),
                old_self.wf(),
                self.run_on == old_self.run_on,
                self.current_run == old_self.current_run,
                self.index == old_self.index,
                self.time_out_count == old_self.time_out_count,
                self.parse_fail_count == old_self.parse_fail_count,
                self.device_ids@ == old_self.device_ids@,
                self.data_lens@ == old_self.data_lens@,
                self.devices.len() == old_self.devices.len(),
                forall|k: int| 0 <= k < i ==> {
                    let (a, b) = (old_self.devices@[k], #[trigger] self.devices@[k]);
                    &&& b.is_enabled == (if old_self.device_ids@[k] == device_id {
                        enabled
                    } else {
                        a.is_enabled
                    })
                    &&& b.timeout_count == a.timeout_count
                    &&& b.parse_fail_count == a.parse_fail_count
                    &&& b.current_round == a.current_round
                    &&& same_record(a, b)
                },
                forall|k: int| i <= k < self.devices.len() ==> #[trigger] self.devices@[k] == old_self.devices@[k],
            decreases self.devices.len() - i,
        {
            if self.device_ids[i] == device_id {
                let t = self.devices[i].timeout_count;
                let pf = self.devices[i].parse_fail_count;
                let round = self.devices[i].current_round;
                set_device(&mut self.devices, i, t, pf, round, enabled);
            }
            i = i + 1;
        }
    }


    /// Sets the skipped-round count of the polled device.
    pub fn set_round(&mut self, round: u32)
        requires
            old(self).wf(),
            old(self).devices.len() > 0,
        ensures
            final(self).wf(),
            final(self).keeps_frame(*old(self)),
            final(self).current_run == old(self).current_run,
            final(self).index == old(self).index,
            final(self).time_out_count == old(self).time_out_count,
            final(self).parse_fail_count == old(self).parse_fail_count,
            ({
                let (a, b) = (old(self).devices@[old(self).index as int], final(self).devices@[old(self).index as int]);
                b.timeout_count == a.timeout_count && b.parse_fail_count == a.parse_fail_count
                    && b.current_round == round && b.is_enabled == a.is_enabled && same_record(a, b)
            }),
    {
        let i = self.index;
        let t = self.devices[i].timeout_count;
        let pf = self.devices[i].parse_fail_count;
        let en = self.devices[i].is_enabled;
        set_device(&mut self.devices, i, t, pf, round, en);
    }

}

// ------------------------------------------------------------------
//  Address/data framing
// ------------------------------------------------------------------

/// Number of one bits of `b`.
pub open spec fn ones(b: nat) -> nat
    decreases b,
{
    if b == 0 {
        0
    } else {
        ones(b / 2) + b % 2
    }
}

/// Whether sending `byte` with even parity puts `mark` into the parity bit
/// (the parity bit of even parity is the parity of the byte's one bits).
/// Marking the address byte and spacing the data bytes is done byte by
/// byte with this choice between even and odd parity.
pub fn even_parity_marks(byte: u8, mark: bool) -> (even: bool)
    ensures
        even == ((ones(byte as nat) % 2 == 1) == mark),
{
    let mut b: u8 = byte;
    let mut count: u8 = 0;
    proof {
        lemma_ones_le(byte as nat);
    }
    while b > 0
        invariant
            count + ones(b as nat) == ones(byte as nat),
            ones(byte as nat) <= 255,
        decreases b,
    {
        count = count + b % 2;
        b = b / 2;
    }
    (count % 2 == 1) == mark
}

proof fn lemma_ones_le(b: nat)
    ensures
        ones(b) <= b,
    decreases b,
{
    if b > 0 {
        lemma_ones_le(b / 2);
    }
}

} // verus!
