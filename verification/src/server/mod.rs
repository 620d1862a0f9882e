//! Front ends: the OPC UA address space plan and command forwarding, and
//! the routing of client messages.

pub mod opcua;
pub mod tcp;
