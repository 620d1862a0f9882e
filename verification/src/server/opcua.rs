//! What the OPC UA front end publishes and how a written hex command is
//! turned into a serial command.

use vstd::prelude::*;

use crate::calc_engine::config::{data_type_of, normalize_data_type, CalcDataType};
use crate::model::{byte_sum, get_sum, Command, CommandType, SendData};
use crate::protocol::{hex_decode, hex_str_to_bytes};
use crate::serial::port_config::SerialPortConfig;
use crate::text::{push_decimal, push_str, decimal, string_from_chars, strings_view};

verus! {

/// Data type of a published variable.
#[derive(Debug, Clone, Copy, PartialEq, Eq, Structural)]
pub enum ExpectedType {
    UInt32,
    Bool,
    Float32,
    Float64,
}

/// Published type for a type name; unknown names are published as
/// single-precision numbers.
pub open spec fn expected_type_spec(s: Seq<char>) -> ExpectedType {
    match data_type_of(s) {
        Some(CalcDataType::UInt) => ExpectedType::UInt32,
        Some(CalcDataType::Bool) => ExpectedType::Bool,
        Some(CalcDataType::Float) => ExpectedType::Float32,
        Some(CalcDataType::Double) => ExpectedType::Float64,
        None => ExpectedType::Float32,
    }
}

pub fn expected_type_from_str(s: &str) -> (t: ExpectedType)
    ensures
        t == expected_type_spec(s@),
{
    match normalize_data_type(s) {
        Some(CalcDataType::UInt) => ExpectedType::UInt32,
        Some(CalcDataType::Bool) => ExpectedType::Bool,
        Some(CalcDataType::Float) => ExpectedType::Float32,
        Some(CalcDataType::Double) => ExpectedType::Float64,
        None => ExpectedType::Float32,
    }
}

// ------------------------------------------------------------------
//  Address space plan
// ------------------------------------------------------------------

/// KKS names of the data points of `devices`, in order.
pub open spec fn device_kks(devices: Seq<crate::csv_parser::DeviceConfig>) -> Seq<Seq<char>>
    decreases devices.len(),
{
    if devices.len() == 0 {
        Seq::empty()
    } else {
        device_kks(devices.drop_last()) + devices.last().records@.map_values(|r: crate::csv_parser::Record| r.kks@)
    }
}

/// KKS names of the data points of all ports, in order.
pub open spec fn port_kks(ports: Seq<SerialPortConfig>) -> Seq<Seq<char>>
    decreases ports.len(),
{
    if ports.len() == 0 {
        Seq::empty()
    } else {
        port_kks(ports.drop_last()) + device_kks(ports.last().devices@)
    }
}

/// Name of the writable command variable of a port.
pub open spec fn send_name(port: Seq<char>) -> Seq<char> {
    port + "_Send"@
}

fn push_string(out: &mut Vec<String>, s: &String)
    ensures
        strings_view(final(out)@) == strings_view(old(out)@).push(s@),
{
    out.push(s.clone());
    assert(strings_view(out@) =~= strings_view(old(out)@).push(s@));
}

/// Browse names of the published variables: every data point by its bare
/// KKS, port by port, then every formula output; and, per port, the name
/// of its writable command variable, `<port>_Send`.
pub fn plan_browse_names(serial_ports: &Vec<SerialPortConfig>, calc_outputs: &Vec<String>) -> (r: (
    Vec<String>,
    Vec<(String, String)>,
))
    ensures
        strings_view(r.0@) == port_kks(serial_ports@) + strings_view(calc_outputs@),
        r.1.len() == serial_ports.len(),
        forall|i: int| 0 <= i < r.1.len() ==> (#[trigger] r.1@[i]).0@ == serial_ports@[i].port_number@
            && r.1@[i].1@ == send_name(serial_ports@[i].port_number@),
{
    let mut data_names: Vec<String> = Vec::new();
    let mut send_pairs: Vec<(String, String)> = Vec::new();
    let mut p: usize = 0;
    assert(serial_ports@.take(0) =~= Seq::<SerialPortConfig>::empty());
    while p < serial_ports.len()
        invariant
            0 <= p <= serial_ports.len(),
            strings_view(data_names@) == port_kks(serial_ports@.take(p as int)),
            send_pairs.len() == p,
            forall|i: int| 0 <= i < p ==> (#[trigger] send_pairs@[i]).0@ == serial_ports@[i].port_number@
                && send_pairs@[i].1@ == send_name(serial_ports@[i].port_number@),
        decreases serial_ports.len() - p,
    {
        let port = &serial_ports[p];
        let ghost before = strings_view(data_names@);
        let mut d: usize = 0;
        assert(port.devices@.take(0) =~= Seq::<crate::csv_parser::DeviceConfig>::empty());
        assert(before + device_kks(port.devices@.take(0)) =~= before);
        while d < port.devices.len()
            invariant
                0 <= d <= port.devices.len(),
                strings_view(data_names@) == before + device_kks(port.devices@.take(d as int)),
            decreases port.devices.len() - d,
        {
            let dev = &port.devices[d];
            let ghost mid = strings_view(data_names@);
            let mut k: usize = 0;
            while k < dev.records.len()
                invariant
                    0 <= k <= dev.records.len(),
                    strings_view(data_names@) == mid + dev.records@.take(k as int).map_values(
                        |r: crate::csv_parser::Record| r.kks@,
                    ),
                decreases dev.records.len() - k,
            {
                push_string(&mut data_names, &dev.records[k].kks);
                assert(dev.records@.take(k + 1).map_values(|r: crate::csv_parser::Record| r.kks@) =~= dev.records@.take(
                    k as int,
                ).map_values(|r: crate::csv_parser::Record| r.kks@).push(dev.records@[k as int].kks@));
                k = k + 1;
            }
            assert(dev.records@.take(dev.records.len() as int) =~= dev.records@);
            assert(port.devices@.take(d + 1).drop_last() =~= port.devices@.take(d as int));
            d = d + 1;
        }
        assert(port.devices@.take(port.devices.len() as int) =~= port.devices@);
        assert(serial_ports@.take(p + 1).drop_last() =~= serial_ports@.take(p as int));
        let mut name: Vec<char> = Vec::new();
        push_str(&mut name, port.port_number.as_str());
        push_str(&mut name, "_Send");
        send_pairs.push((port.port_number.clone(), string_from_chars(name.as_slice())));
        p = p + 1;
    }
    assert(serial_ports@.take(serial_ports.len() as int) =~= serial_ports@);
    let ghost ports_part = strings_view(data_names@);
    let mut c: usize = 0;
    while c < calc_outputs.len()
        invariant
            0 <= c <= calc_outputs.len(),
            strings_view(data_names@) == ports_part + strings_view(calc_outputs@).take(c as int),
        decreases calc_outputs.len() - c,
    {
        push_string(&mut data_names, &calc_outputs[c]);
        assert(strings_view(calc_outputs@).take(c + 1) =~= strings_view(calc_outputs@).take(c as int).push(
            calc_outputs@[c as int]@,
        ));
        c = c + 1;
    }
    assert(strings_view(calc_outputs@).take(calc_outputs.len() as int) =~= strings_view(calc_outputs@));
    (data_names, send_pairs)
}

// ------------------------------------------------------------------
//  Written commands
// ------------------------------------------------------------------

/// ASCII white space (`char::is_ascii_whitespace`).
pub open spec fn is_ascii_space(c: char) -> bool {
    c == ' ' || c == '\t' || c == '\n' || c == '\u{c}' || c == '\r'
}

/// `s` without its ASCII white space.
pub open spec fn strip_ascii_space(s: Seq<char>) -> Seq<char>
    decreases s.len(),
{
    if s.len() == 0 {
        Seq::empty()
    } else if is_ascii_space(s.last()) {
        strip_ascii_space(s.drop_last())
    } else {
        strip_ascii_space(s.drop_last()).push(s.last())
    }
}

/// Message for a written command shorter than two bytes.
pub open spec fn too_short_text() -> Seq<char> {
    "十六进制长度过短（至少需 2 字节）"@
}

/// Prefix of the message for an unreadable hex command.
pub open spec fn bad_hex_prefix() -> Seq<char> {
    "十六进制解析失败: "@
}

/// Turns a hex string written to a port's command variable into the
/// command for that port: white space is dropped, the bytes are decoded,
/// at least two are needed, the additive checksum is appended and the
/// first byte addresses the device.
pub fn forward_hex_command(hex_str: &str, com: &str) -> (r: Result<Command, String>)
    ensures
        ({
            let c = strip_ascii_space(hex_str@);
            if (vstd::utf8::encode_utf8(c).len() as usize) % 2 != 0 {
                r matches Err(m) && m@ == bad_hex_prefix() + "Hex 字符串长度不是偶数"@
            } else if !(vstd::utf8::is_ascii_chars(c) && hex_decode(c) is Some) {
                r matches Err(m) && m@ == bad_hex_prefix() + "invalid digit found in string"@
            } else {
                let bs = hex_decode(c)->Some_0;
                if bs.len() < 2 {
                    r matches Err(m) && m@ == too_short_text()
                } else {
                    r matches Ok(cmd) && cmd.com@ == com@ && (cmd.command matches CommandType::SendData(sd)
                        && sd.device_id == bs[0] as u32 && sd.command@ == bs.push(byte_sum(bs)))
                }
            }
        }),
{
    let cs = crate::text::chars_of(hex_str);
    let mut kept: Vec<char> = Vec::new();
    let mut i: usize = 0;
    assert(cs@.take(0) =~= Seq::<char>::empty());
    while i < cs.len()
        invariant
            0 <= i <= cs.len(),
            cs@ == hex_str@,
            kept@ == strip_ascii_space(cs@.take(i as int)),
        decreases cs.len() - i,
    {
        let ch = cs[i];
        assert(cs@.take(i + 1).drop_last() =~= cs@.take(i as int));
        if !(ch == ' ' || ch == '\t' || ch == '\n' || ch == '\u{c}' || ch == '\r') {
            kept.push(ch);
        }
        i = i + 1;
    }
    assert(cs@.take(cs.len() as int) =~= cs@);
    let cleaned = string_from_chars(kept.as_slice());
    let mut bytes = match hex_str_to_bytes(cleaned.as_str()) {
        Ok(b) => b,
        Err(e) => {
            let mut out: Vec<char> = Vec::new();
            push_str(&mut out, "十六进制解析失败: ");
            push_str(&mut out, e.as_str());
            return Err(string_from_chars(out.as_slice()));
        },
    };
    if bytes.len() < 2 {
        let mut out: Vec<char> = Vec::new();
        push_str(&mut out, "十六进制长度过短（至少需 2 字节）");
        return Err(string_from_chars(out.as_slice()));
    }
    let sum = get_sum(bytes.as_slice());
    bytes.push(sum);
    let device_id = bytes[0] as u32;
    let mut name: Vec<char> = Vec::new();
    push_str(&mut name, com);
    Ok(Command {
        com: string_from_chars(name.as_slice()),
        command: CommandType::SendData(SendData { device_id, command: bytes }),
    })
}

/// Message returned once a written command was handed to its port.
pub open spec fn forwarded_text(com: Seq<char>, device_id: u32) -> Seq<char> {
    "已发送到 "@ + com + " 设备 "@ + decimal(device_id as nat)
}

pub fn forwarded_message(com: &str, device_id: u32) -> (s: String)
    ensures
        s@ == forwarded_text(com@, device_id),
{
    let mut out: Vec<char> = Vec::new();
    push_str(&mut out, "已发送到 ");
    push_str(&mut out, com);
    push_str(&mut out, " 设备 ");
    push_decimal(&mut out, device_id as u64);
    string_from_chars(out.as_slice())
}

/// The command text held by a port's command variable, if one is waiting:
/// the trimmed value, unless it is empty or `0` (the cleared state).
pub fn pending_command(value: &str) -> (r: Option<String>)
    ensures
        ({
            let t = crate::numtext::trimmed(value@);
            if t.len() == 0 || t == "0"@ {
                r is None
            } else {
                r matches Some(s) && s@ == t
            }
        }),
{
    let t = crate::numtext::trim_chars(value);
    if t.len() == 0 || crate::text::chars_eq(t.as_slice(), "0") {
        None
    } else {
        Some(string_from_chars(t.as_slice()))
    }
}


/// Of a batch of named readings, the ones that have a published variable:
/// the positions, in order, of the entries of `names` that `published`
/// holds. Readings of names that were never published are not written.
pub fn written_updates(published: &Vec<String>, names: &Vec<String>) -> (r: Vec<usize>)
    ensures
        forall|k: int| 0 <= k < r.len() ==> #[trigger] r@[k] < names.len(),
        forall|a: int, b: int| 0 <= a < b < r.len() ==> r@[a] < r@[b],
        forall|i: int| 0 <= i < names.len() ==> (#[trigger] r@.contains(i as usize) <==> strings_view(
            published@,
        ).contains(names@[i]@)),
{
    let mut r: Vec<usize> = Vec::new();
    let mut i: usize = 0;
    while i < names.len()
        invariant
            0 <= i <= names.len(),
            forall|k: int| 0 <= k < r.len() ==> #[trigger] r@[k] < i,
            forall|a: int, b: int| 0 <= a < b < r.len() ==> r@[a] < r@[b],
            forall|j: int| 0 <= j < i ==> (#[trigger] r@.contains(j as usize) <==> strings_view(
                published@,
            ).contains(names@[j]@)),
        decreases names.len() - i,
    {
        let ghost before = r@;
        let hit = crate::text::contains_str(published, names[i].as_str());
        if hit {
            r.push(i);
        }
        proof {
            assert forall|j: int| 0 <= j < i + 1 implies (#[trigger] r@.contains(j as usize) <==> strings_view(
                published@,
            ).contains(names@[j]@)) by {
                if hit {
                    assert(r@ == before.push(i));
                    if r@.contains(j as usize) && j != i {
                        let k = choose|k: int| 0 <= k < r@.len() && r@[k] == j as usize;
                        assert(k < before.len());
                        assert(before.contains(j as usize));
                    }
                    if j < i && before.contains(j as usize) {
                        let k = choose|k: int| 0 <= k < before.len() && before[k] == j as usize;
                        assert(r@[k] == j as usize);
                    }
                    if j == i {
                        assert(r@[before.len() as int] == i);
                    }
                } else {
                    assert(r@ == before);
                    if j == i && before.contains(i) {
                        let k = choose|k: int| 0 <= k < before.len() && before[k] == i;
                        assert(before[k] < i);
                    }
                }
            }
            assert forall|k: int| 0 <= k < r.len() implies #[trigger] r@[k] < i + 1 by {
                if k < before.len() {
                    assert(r@[k] == before[k]);
                }
            }
        }
        i = i + 1;
    }
    r
}

} // verus!
