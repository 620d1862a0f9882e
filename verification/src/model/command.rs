//! Commands addressed to a serial port.

use vstd::prelude::*;

use crate::text::{string_from_chars};

verus! {

/// A command for a given serial port.
#[derive(Debug, Clone)]
pub struct Command {
    /// Target port name, e.g. `"COM3"`.
    pub com: String,
    /// The command itself.
    pub command: CommandType,
}

/// The kinds of command.
#[derive(Debug, Clone)]
pub enum CommandType {
    /// Raw bytes to send to a device.
    SendData(SendData),
    /// Enable or disable a whole port.
    PortStatus(PortStatus),
    /// Enable or disable a single device.
    DeviceSetting(DeviceSetting),
}

/// Raw bytes to send to a device.
#[derive(Debug, Clone)]
pub struct SendData {
    /// Target device id.
    pub device_id: u32,
    /// The bytes to send.
    pub command: Vec<u8>,
}

/// Port enable flag.
#[derive(Debug, Clone)]
pub struct PortStatus {
    pub device_status: bool,
}

/// Device enable flag.
#[derive(Debug, Clone)]
pub struct DeviceSetting {
    pub device_id: u8,
    pub device_status: bool,
}

/// Upper-case hexadecimal digit for `d < 16`.
pub open spec fn hex_digit(d: int) -> char {
    if d < 10 {
        ((d + 48) as u8) as char
    } else {
        ((d + 55) as u8) as char
    }
}

/// Two upper-case hexadecimal digits per byte, most significant first.
pub open spec fn hex_upper(bytes: Seq<u8>) -> Seq<char>
    decreases bytes.len(),
{
    if bytes.len() == 0 {
        Seq::empty()
    } else {
        hex_upper(bytes.drop_last()) + seq![
            hex_digit(bytes.last() as int / 16),
            hex_digit(bytes.last() as int % 16),
        ]
    }
}

/// Upper-case hexadecimal digit of a nibble.
pub fn hex_digit_exec(d: u8) -> (c: char)
    requires
        d < 16,
    ensures
        c == hex_digit(d as int),
{
    if d < 10 {
        (d + 48) as char
    } else {
        (d + 55) as char
    }
}

/// Appends the two hexadecimal digits of `b` to `out`.
pub fn push_hex_byte(out: &mut Vec<char>, b: u8)
    ensures
        final(out)@ == old(out)@ + seq![hex_digit(b as int / 16), hex_digit(b as int % 16)],
{
    out.push(hex_digit_exec(b / 16));
    out.push(hex_digit_exec(b % 16));
}

impl SendData {
    /// The command bytes as upper-case hexadecimal, e.g. `"0A1BFF"`.
    pub fn command_as_string(&self) -> (s: String)
        ensures
            s@ == hex_upper(self.command@),
            s@.len() == 2 * self.command@.len(),
            vstd::utf8::is_ascii_chars(s@),
            crate::protocol::hex_decode(s@) == Some(self.command@),
    {
        proof {
            crate::protocol::law_hex_round_trip(self.command@);
        }
        let mut out: Vec<char> = Vec::new();
        let mut i: usize = 0;
        while i < self.command.len()
            invariant
                0 <= i <= self.command.len(),
                out@ == hex_upper(self.command@.take(i as int)),
            decreases self.command.len() - i,
        {
            assert(self.command@.take(i + 1).drop_last() == self.command@.take(i as int));
            push_hex_byte(&mut out, self.command[i]);
            i = i + 1;
        }
        assert(self.command@.take(self.command.len() as int) == self.command@);
        string_from_chars(out.as_slice())
    }
}

} // verus!
