//! Serial acquisition: the decisions of the polling loop (what to send,
//! how to cut a frame out of what was read, when to publish, when to fail
//! over) and the per-port configuration.

pub mod manager;
pub mod port_config;
pub mod worker;
