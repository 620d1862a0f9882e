//! The gateway's own settings: its role in a primary/standby pair and the
//! default serial line parameters.

use vstd::prelude::*;

verus! {

/// Number of data bits in a serial character.
#[derive(Debug, Clone, Copy, PartialEq, Eq, Structural)]
pub enum DataBitsDef {
    Five,
    Six,
    Seven,
    Eight,
}

/// Parity of a serial character: none, odd, even, or a parity bit held at
/// one (`Mark`) or at zero (`Space`).
#[derive(Debug, Clone, Copy, PartialEq, Eq, Structural)]
pub enum ParityDef {
    NoParity,
    Odd,
    Even,
    Mark,
    Space,
}

/// Number of stop bits after a serial character.
#[derive(Debug, Clone, Copy, PartialEq, Eq, Structural)]
pub enum StopBitsDef {
    One,
    Two,
}

/// Where the acquisition runs: on the primary or on the standby.
#[derive(Debug, Clone, Copy, PartialEq, Eq, Structural)]
pub enum RunLocation {
    Primary,
    Secondary,
}

/// Network and primary/standby settings.
#[derive(Debug, Clone)]
pub struct Server {
    /// Address of the primary machine (kept for the standby link).
    pub _primary_ip: String,
    /// Address of the standby machine (kept for the standby link).
    pub _secondary_ip: String,
    /// The role this machine is configured for.
    pub run_on: RunLocation,
    /// The role it acts at start.
    pub current_run: RunLocation,
}

/// Default serial line parameters; each port file may override the rate.
#[derive(Debug, Clone)]
pub struct Serial {
    pub _baud_rate: u32,
    pub data_bits: DataBitsDef,
    pub parity: ParityDef,
    pub stop_bits: StopBitsDef,
    /// Flow control (kept for later use).
    pub _flow_control: String,
}

/// Miscellaneous settings.
#[derive(Debug, Clone)]
pub struct Settings {
    /// Communication time-out in milliseconds (kept for later use).
    pub _timeout: u64,
}

/// The whole settings file.
#[derive(Debug, Clone)]
pub struct Config {
    pub server: Server,
    pub serial: Serial,
    pub _settings: Settings,
}

} // verus!
