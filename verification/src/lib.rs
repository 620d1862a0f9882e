//! Verified core of the serial-acquisition gateway: frame protocol, device
//! configuration parsing, the formula engine's front end and rule analysis.

pub mod calc_engine;
pub mod config;
pub mod csv_parser;
pub mod file_scanner;
pub mod model;
pub mod nesting;
pub mod numtext;
pub mod protocol;
pub mod serial;
pub mod server;
pub mod text;
