//! Runtime state of the serial ports and their devices.

use std::collections::HashMap;

use vstd::prelude::*;

use crate::text::{decimal, str_eq, push_decimal, push_str, string_from_chars};

verus! {

/// Snapshot of one serial port's runtime state.
#[derive(Debug, Clone)]
pub struct PortRuntimeState {
    /// Port name.
    pub port_number: String,
    /// Whether the port is online.
    pub status: bool,
    /// Online flag of each device on the port, by device id.
    pub device_status: HashMap<u8, bool>,
}

/// Mathematical model of a [`PortRuntimeState`].
pub struct PortView {
    pub port_number: Seq<char>,
    pub status: bool,
    pub device_status: Map<u8, bool>,
}

impl PortRuntimeState {
    pub open spec fn view(&self) -> PortView {
        PortView {
            port_number: self.port_number@,
            status: self.status,
            device_status: self.device_status@,
        }
    }

    /// A copy with the same contents.
    pub fn duplicate(&self) -> (r: PortRuntimeState)
        ensures
            r.view() == self.view(),
    {
        PortRuntimeState {
            port_number: self.port_number.clone(),
            status: self.status,
            device_status: self.device_status.clone(),
        }
    }
}

/// Text of the error for an unknown port.
pub open spec fn port_not_found_msg(port: Seq<char>) -> Seq<char> {
    "端口 "@ + port + " 未找到"@
}

/// Text of the error for an unknown device on a known port.
pub open spec fn device_not_found_msg(device_id: u8, port: Seq<char>) -> Seq<char> {
    "设备 "@ + decimal(device_id as nat) + " 在端口 "@ + port + " 中未找到"@
}

/// Text of the error for a device id that a port already has.
pub open spec fn device_exists_msg(device_id: u8, port: Seq<char>) -> Seq<char> {
    "Device ID "@ + decimal(device_id as nat) + " already exists in port "@ + port
}

/// Index of the first port named `name`, if any.
pub open spec fn find_port(ports: Seq<PortView>, name: Seq<char>) -> Option<int>
    decreases ports.len(),
{
    if ports.len() == 0 {
        None
    } else {
        match find_port(ports.drop_last(), name) {
            Some(i) => Some(i),
            None => if ports.last().port_number == name {
                Some(ports.len() - 1)
            } else {
                None
            },
        }
    }
}

/// State of all serial ports and their devices.
///
/// Callers that share it between threads put it behind a lock.
#[derive(Debug)]
pub struct SystemState {
    ports: Vec<PortRuntimeState>,
}

impl SystemState {
    /// The ports, in the order they were added.
    pub closed spec fn view(&self) -> Seq<PortView> {
        self.ports@.map_values(|p: PortRuntimeState| p.view())
    }

    /// An empty state.
    pub fn new() -> (s: SystemState)
        ensures
            s.view() == Seq::<PortView>::empty(),
    {
        SystemState { ports: Vec::new() }
    }

    /// Adds a port at the end.
    pub fn add_port(&mut self, port: PortRuntimeState)
        ensures
            final(self).view() == old(self).view().push(port.view()),
    {
        self.ports.push(port);
        assert(self.view() =~= old(self).view().push(port.view()));
    }

    /// Index of the first port named `name`.
    fn position(&self, name: &str) -> (r: Option<usize>)
        ensures
            match r {
                Some(i) => find_port(self.view(), name@) == Some(i as int),
                None => find_port(self.view(), name@) is None,
            },
            r matches Some(i) ==> i < self.ports.len(),
    {
        let mut i: usize = 0;
        while i < self.ports.len()
            invariant
                0 <= i <= self.ports.len(),
                find_port(self.view().take(i as int), name@) is None,
            decreases self.ports.len() - i,
        {
            assert(self.view().take(i + 1).drop_last() == self.view().take(i as int));
            let found = str_eq(self.ports[i].port_number.as_str(), name);
            assert(self.view()[i as int] == self.ports@[i as int].view());
            proof {
                lemma_find_port_prefix(self.view(), name@, i as int);
            }
            if found {
                return Some(i);
            }
            i = i + 1;
        }
        assert(self.view().take(self.ports.len() as int) == self.view());
        None
    }

    /// Sets the online flag of the first port named `port_number`.
    ///
    /// Fails, changing nothing, when no port has that name.
    pub fn set_port_status(&mut self, port_number: &str, status: bool) -> (r: Result<(), String>)
        ensures
            match find_port(old(self).view(), port_number@) {
                Some(i) => {
                    &&& r is Ok
                    &&& final(self).view() == old(self).view().update(
                        i,
                        PortView { status: status, ..old(self).view()[i] },
                    )
                },
                None => {
                    &&& r matches Err(e) && e@ == port_not_found_msg(port_number@)
                    &&& final(self).view() == old(self).view()
                },
            },
    {
        match self.position(port_number) {
            Some(i) => {
                let mut p = self.ports[i].duplicate();
                p.status = status;
                let ghost pv = p.view();
                self.ports.set(i, p);
                assert(self.view() =~= old(self).view().update(
                    i as int,
                    PortView { status: status, ..old(self).view()[i as int] },
                ));
                Ok(())
            },
            None => Err(port_not_found(port_number)),
        }
    }

    /// Sets the online flag of a device that the first port named
    /// `port_number` already lists.
    ///
    /// Fails, changing nothing, when the port or the device is unknown.
    pub fn set_device_status(&mut self, port_number: &str, device_id: u8, status: bool) -> (r:
        Result<(), String>)
        ensures
            match find_port(old(self).view(), port_number@) {
                Some(i) => if old(self).view()[i].device_status.contains_key(device_id) {
                    &&& r is Ok
                    &&& final(self).view() == old(self).view().update(
                        i,
                        PortView {
                            device_status: old(self).view()[i].device_status.insert(
                                device_id,
                                status,
                            ),
                            ..old(self).view()[i]
                        },
                    )
                } else {
                    &&& r matches Err(e) && e@ == device_not_found_msg(device_id, port_number@)
                    &&& final(self).view() == old(self).view()
                },
                None => {
                    &&& r matches Err(e) && e@ == port_not_found_msg(port_number@)
                    &&& final(self).view() == old(self).view()
                },
            },
    {
        match self.position(port_number) {
            Some(i) => {
                let mut p = self.ports[i].duplicate();
                if !p.device_status.contains_key(&device_id) {
                    return Err(device_not_found(device_id, port_number));
                }
                p.device_status.insert(device_id, status);
                self.ports.set(i, p);
                assert(self.view() =~= old(self).view().update(
                    i as int,
                    PortView {
                        device_status: old(self).view()[i as int].device_status.insert(
                            device_id,
                            status,
                        ),
                        ..old(self).view()[i as int]
                    },
                ));
                Ok(())
            },
            None => Err(port_not_found(port_number)),
        }
    }

    /// Adds a device with the given online flag to the first port named
    /// `port_number`.
    ///
    /// Fails, changing nothing, when the port is unknown or already lists
    /// the device.
    pub fn add_device_status(&mut self, port_number: &str, device_id: u8, status: bool) -> (r:
        Result<(), String>)
        ensures
            match find_port(old(self).view(), port_number@) {
                Some(i) => if !old(self).view()[i].device_status.contains_key(device_id) {
                    &&& r is Ok
                    &&& final(self).view() == old(self).view().update(
                        i,
                        PortView {
                            device_status: old(self).view()[i].device_status.insert(
                                device_id,
                                status,
                            ),
                            ..old(self).view()[i]
                        },
                    )
                } else {
                    &&& r matches Err(e) && e@ == device_exists_msg(device_id, port_number@)
                    &&& final(self).view() == old(self).view()
                },
                None => {
                    &&& r matches Err(e) && e@ == port_not_found_msg(port_number@)
                    &&& final(self).view() == old(self).view()
                },
            },
    {
        match self.position(port_number) {
            Some(i) => {
                let mut p = self.ports[i].duplicate();
                if p.device_status.contains_key(&device_id) {
                    let mut out: Vec<char> = Vec::new();
                    push_str(&mut out, "Device ID ");
                    push_decimal(&mut out, device_id as u64);
                    push_str(&mut out, " already exists in port ");
                    push_str(&mut out, port_number);
                    return Err(string_from_chars(out.as_slice()));
                }
                p.device_status.insert(device_id, status);
                self.ports.set(i, p);
                assert(self.view() =~= old(self).view().update(
                    i as int,
                    PortView {
                        device_status: old(self).view()[i as int].device_status.insert(
                            device_id,
                            status,
                        ),
                        ..old(self).view()[i as int]
                    },
                ));
                Ok(())
            },
            None => Err(port_not_found(port_number)),
        }
    }

    /// A copy of every port's state, in order.
    pub fn get_state(&self) -> (r: Vec<PortRuntimeState>)
        ensures
            r@.map_values(|p: PortRuntimeState| p.view()) == self.view(),
    {
        let mut out: Vec<PortRuntimeState> = Vec::new();
        let mut i: usize = 0;
        while i < self.ports.len()
            invariant
                0 <= i <= self.ports.len(),
                out@.map_values(|p: PortRuntimeState| p.view()) == self.view().take(i as int),
            decreases self.ports.len() - i,
        {
            let d = self.ports[i].duplicate();
            let ghost before = out@;
            out.push(d);
            assert(out@ == before.push(d));
            assert(self.view()[i as int] == self.ports@[i as int].view());
            assert(self.view().take(i + 1) =~= self.view().take(i as int).push(d.view()));
            i = i + 1;
            assert(out@.map_values(|p: PortRuntimeState| p.view()) =~= self.view().take(i as int));
        }
        assert(self.view().take(self.ports.len() as int) =~= self.view());
        out
    }
}

/// `find_port` on a prefix extended by one element.
proof fn lemma_find_port_prefix(ports: Seq<PortView>, name: Seq<char>, i: int)
    requires
        0 <= i < ports.len(),
        find_port(ports.take(i), name) is None,
    ensures
        find_port(ports.take(i + 1), name) == if ports[i].port_number == name {
            Some(i)
        } else {
            None::<int>
        },
        ports[i].port_number == name ==> find_port(ports, name) == Some(i),
    decreases ports.len(),
{
    assert(ports.take(i + 1).drop_last() =~= ports.take(i));
    if ports[i].port_number == name {
        lemma_find_port_extends(ports, name, i + 1);
    }
}

/// A match found in a prefix is the match of the whole sequence.
proof fn lemma_find_port_extends(ports: Seq<PortView>, name: Seq<char>, k: int)
    requires
        0 <= k <= ports.len(),
        find_port(ports.take(k), name) is Some,
    ensures
        find_port(ports, name) == find_port(ports.take(k), name),
    decreases ports.len() - k,
{
    if k == ports.len() {
        assert(ports.take(k) =~= ports);
    } else {
        assert(ports.take(k + 1).drop_last() =~= ports.take(k));
        lemma_find_port_extends(ports, name, k + 1);
    }
}

fn port_not_found(port_number: &str) -> (s: String)
    ensures
        s@ == port_not_found_msg(port_number@),
{
    let mut out: Vec<char> = Vec::new();
    push_str(&mut out, "端口 ");
    push_str(&mut out, port_number);
    push_str(&mut out, " 未找到");
    string_from_chars(out.as_slice())
}

fn device_not_found(device_id: u8, port_number: &str) -> (s: String)
    ensures
        s@ == device_not_found_msg(device_id, port_number@),
{
    let mut out: Vec<char> = Vec::new();
    push_str(&mut out, "设备 ");
    push_decimal(&mut out, device_id as u64);
    push_str(&mut out, " 在端口 ");
    push_str(&mut out, port_number);
    push_str(&mut out, " 中未找到");
    string_from_chars(out.as_slice())
}

} // verus!
