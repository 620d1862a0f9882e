//! Per-port configuration: the devices sharing one serial line.

use std::collections::HashMap;

use vstd::prelude::*;

use crate::csv_parser::{self, DeviceConfig};
use crate::model::PortRuntimeState;
use crate::text::str_eq;

verus! {

/// One serial port and the devices on it.
#[derive(Debug, Clone)]
pub struct SerialPortConfig {
    /// Port name, e.g. `"COM3"`.
    pub port_number: String,
    pub baud_rate: u32,
    /// Whether the port uses mark/space parity framing.
    pub is_special: bool,
    /// The devices on the port.
    pub devices: Vec<DeviceConfig>,
    /// Whether the port is enabled.
    pub status: bool,
}

/// The addresses of the devices, as a set.
pub open spec fn device_id_set(devices: Seq<DeviceConfig>) -> Set<u8> {
    Set::new(|id: u8| exists|i: int| 0 <= i < devices.len() && #[trigger] devices[i].config.device_id == id)
}

impl SerialPortConfig {
    /// An enabled port with the given devices.
    pub fn new(port_number: String, baud_rate: u32, is_special: bool, devices: Vec<DeviceConfig>) -> (c: Self)
        ensures
            c.port_number == port_number,
            c.baud_rate == baud_rate,
            c.is_special == is_special,
            c.devices == devices,
            c.status,
    {
        SerialPortConfig { port_number, baud_rate, is_special, devices, status: true }
    }

    /// An enabled port without devices, from a device file's header.
    pub fn from_csv_config(conf: &csv_parser::Config) -> (c: Self)
        ensures
            c.port_number@ == conf.com@,
            c.baud_rate == conf.baud_rate,
            c.is_special == conf.is_special,
            c.devices@.len() == 0,
            c.status,
    {
        Self::new(conf.com.clone(), conf.baud_rate, conf.is_special, Vec::new())
    }

    /// Initial runtime state of the port: online, every device online.
    pub fn to_runtime_state(&self) -> (s: PortRuntimeState)
        ensures
            s.port_number@ == self.port_number@,
            s.status,
            s.device_status@.dom() == device_id_set(self.devices@),
            forall|id: u8| #[trigger] s.device_status@.contains_key(id) ==> s.device_status@[id],
    {
        let mut map: HashMap<u8, bool> = HashMap::new();
        let mut i: usize = 0;
        while i < self.devices.len()
            invariant
                0 <= i <= self.devices.len(),
                map@.dom() == device_id_set(self.devices@.take(i as int)),
                forall|id: u8| #[trigger] map@.contains_key(id) ==> map@[id],
            decreases self.devices.len() - i,
        {
            let id = self.devices[i].config.device_id;
            map.insert(id, true);
            proof {
                let before = self.devices@.take(i as int);
                let after = self.devices@.take(i + 1);
                assert forall|k: u8| #[trigger] device_id_set(after).contains(k) <==> device_id_set(before).insert(id).contains(k) by {
                    if device_id_set(after).contains(k) && k != id {
                        let j = choose|j: int| 0 <= j < after.len() && #[trigger] after[j].config.device_id == k;
                        assert(j < before.len());
                        assert(before[j].config.device_id == k);
                    }
                    if device_id_set(before).contains(k) {
                        let j = choose|j: int| 0 <= j < before.len() && #[trigger] before[j].config.device_id == k;
                        assert(after[j].config.device_id == k);
                    }
                    if k == id {
                        assert(after[i as int].config.device_id == k);
                    }
                }
                assert(device_id_set(after) =~= device_id_set(before).insert(id));
            }
            i = i + 1;
        }
        assert(self.devices@.take(self.devices.len() as int) =~= self.devices@);
        PortRuntimeState { port_number: self.port_number.clone(), status: true, device_status: map }
    }
}


// ------------------------------------------------------------------
//  Grouping device files by port
// ------------------------------------------------------------------

/// The devices of `devs` on port `com`, in order.
pub open spec fn devices_on(devs: Seq<DeviceConfig>, com: Seq<char>) -> Seq<DeviceConfig>
    decreases devs.len(),
{
    if devs.len() == 0 {
        Seq::empty()
    } else {
        let r = devices_on(devs.drop_last(), com);
        if devs.last().config.com@ == com {
            r.push(devs.last())
        } else {
            r
        }
    }
}

/// Position of the first device of `devs` on port `com`; -1 when none is.
pub open spec fn first_on_port(devs: Seq<DeviceConfig>, com: Seq<char>) -> int
    decreases devs.len(),
{
    if devs.len() == 0 {
        -1
    } else {
        let r = first_on_port(devs.drop_last(), com);
        if r >= 0 {
            r
        } else if devs.last().config.com@ == com {
            devs.len() - 1
        } else {
            -1
        }
    }
}

/// `port` is the port that `devs` give for its name: set up from the first
/// device file of that port, enabled, and holding all its devices in order.
pub open spec fn port_built(port: SerialPortConfig, devs: Seq<DeviceConfig>) -> bool {
    let f = first_on_port(devs, port.port_number@);
    &&& 0 <= f
    &&& port.baud_rate == devs[f].config.baud_rate
    &&& port.is_special == devs[f].config.is_special
    &&& port.status
    &&& port.devices@ == devices_on(devs, port.port_number@)
}

/// Some port of `ports` is named `com`.
pub open spec fn has_port(ports: Seq<SerialPortConfig>, com: Seq<char>) -> bool {
    exists|p: int| 0 <= p < ports.len() && #[trigger] ports[p].port_number@ == com
}

proof fn lemma_first_on_port(devs: Seq<DeviceConfig>, com: Seq<char>)
    ensures
        first_on_port(devs, com) < devs.len(),
        first_on_port(devs, com) == -1 <==> forall|j: int| 0 <= j < devs.len() ==> #[trigger] devs[j].config.com@ != com,
        first_on_port(devs, com) >= 0 ==> devs[first_on_port(devs, com)].config.com@ == com,
    decreases devs.len(),
{
    if devs.len() > 0 {
        let t = devs.drop_last();
        lemma_first_on_port(t, com);
        if first_on_port(t, com) == -1 && devs.last().config.com@ != com {
            assert forall|j: int| 0 <= j < devs.len() implies #[trigger] devs[j].config.com@ != com by {
                if j < t.len() {
                    assert(t[j] == devs[j]);
                }
            }
        }
        if first_on_port(t, com) >= 0 {
            let f = first_on_port(t, com);
            assert(t[f] == devs[f]);
        }
    }
}

proof fn lemma_none_on_port(devs: Seq<DeviceConfig>, com: Seq<char>)
    requires
        forall|j: int| 0 <= j < devs.len() ==> #[trigger] devs[j].config.com@ != com,
    ensures
        devices_on(devs, com) == Seq::<DeviceConfig>::empty(),
    decreases devs.len(),
{
    if devs.len() > 0 {
        let t = devs.drop_last();
        assert forall|j: int| 0 <= j < t.len() implies #[trigger] t[j].config.com@ != com by {
            assert(t[j] == devs[j]);
        }
        lemma_none_on_port(t, com);
        assert(devs[devs.len() - 1].config.com@ != com);
    }
}

/// Position of the first port named `name`.
fn port_named(ports: &Vec<SerialPortConfig>, name: &str) -> (r: Option<usize>)
    ensures
        match r {
            Some(p) => p < ports.len() && ports@[p as int].port_number@ == name@,
            None => forall|p: int| 0 <= p < ports.len() ==> #[trigger] ports@[p].port_number@ != name@,
        },
{
    let mut p: usize = 0;
    while p < ports.len()
        invariant
            0 <= p <= ports.len(),
            forall|q: int| 0 <= q < p ==> #[trigger] ports@[q].port_number@ != name@,
        decreases ports.len() - p,
    {
        if str_eq(ports[p].port_number.as_str(), name) {
            return Some(p);
        }
        p = p + 1;
    }
    None
}

/// The ports of a set of device files: one per distinct port name, in the
/// order in which the names first appear; each is set up from the first
/// file of its port and holds all the devices of that port, in order.
pub fn group_by_port(devices: Vec<DeviceConfig>) -> (ports: Vec<SerialPortConfig>)
    ensures
        forall|a: int, b: int| 0 <= a < b < ports.len() ==> first_on_port(devices@, ports@[a].port_number@)
            < first_on_port(devices@, ports@[b].port_number@),
        forall|a: int, b: int| 0 <= a < b < ports.len() ==> ports@[a].port_number@ != ports@[b].port_number@,
        forall|p: int| 0 <= p < ports.len() ==> port_built(#[trigger] ports@[p], devices@),
        forall|i: int| 0 <= i < devices.len() ==> has_port(ports@, #[trigger] devices@[i].config.com@),
{
    let ghost orig = devices@;
    let n = devices.len();
    let mut rest = devices;
    let mut ports: Vec<SerialPortConfig> = Vec::new();
    let mut i: usize = 0;
    while i < n
        invariant
            n == orig.len(),
            0 <= i <= n,
            rest@ == orig.subrange(i as int, n as int),
            forall|a: int, b: int| 0 <= a < b < ports.len() ==> first_on_port(orig.take(i as int), ports@[a].port_number@)
                < first_on_port(orig.take(i as int), ports@[b].port_number@),
            forall|p: int| 0 <= p < ports.len() ==> port_built(#[trigger] ports@[p], orig.take(i as int)),
            forall|j: int| 0 <= j < i ==> has_port(ports@, #[trigger] orig[j].config.com@),
        decreases n - i,
    {
        let ghost pb = ports@;
        let ghost before = orig.take(i as int);
        let ghost after = orig.take(i + 1);
        assert(after.drop_last() =~= before);
        assert(after.last() == orig[i as int]);
        assert(rest@[0] == orig[i as int]);
        let d = rest.remove(0);
        assert(rest@ =~= orig.subrange(i + 1, n as int));
        let found = port_named(&ports, d.config.com.as_str());
        proof {
            // what one more device changes, for a port of each name
            assert forall|name: Seq<char>| true implies {
                &&& first_on_port(after, name) == if first_on_port(before, name) >= 0 {
                    first_on_port(before, name)
                } else if d.config.com@ == name {
                    i as int
                } else {
                    -1
                }
                &&& devices_on(after, name) == if d.config.com@ == name {
                    devices_on(before, name).push(d)
                } else {
                    devices_on(before, name)
                }
            } by {}
            assert forall|p: int| 0 <= p < pb.len() implies first_on_port(before, #[trigger] pb[p].port_number@) >= 0
                && first_on_port(before, pb[p].port_number@) < i by {
                assert(port_built(pb[p], before));
                lemma_first_on_port(before, pb[p].port_number@);
            }
        }
        match found {
            Some(p) => {
                let mut port = ports.remove(p);
                port.devices.push(d);
                ports.insert(p, port);
                proof {
                    assert(ports@ =~= pb.update(p as int, port));
                    assert forall|q: int| 0 <= q < ports.len() implies port_built(#[trigger] ports@[q], after) by {
                        assert(port_built(pb[q], before));
                        if q != p {
                            assert(ports@[q] == pb[q]);
                            if pb[q].port_number@ == d.config.com@ {
                                assert(pb[q].port_number@ == pb[p as int].port_number@);
                                if q < p {
                                    assert(first_on_port(before, pb[q].port_number@) < first_on_port(before, pb[p as int].port_number@));
                                } else {
                                    assert(first_on_port(before, pb[p as int].port_number@) < first_on_port(before, pb[q].port_number@));
                                }
                            }
                        }
                    }
                    assert forall|a: int, b: int| 0 <= a < b < ports.len() implies first_on_port(after, ports@[a].port_number@)
                        < first_on_port(after, ports@[b].port_number@) by {
                        assert(ports@[a].port_number@ == pb[a].port_number@);
                        assert(ports@[b].port_number@ == pb[b].port_number@);
                        assert(first_on_port(before, pb[a].port_number@) < first_on_port(before, pb[b].port_number@));
                    }
                    assert forall|j: int| 0 <= j < i + 1 implies has_port(ports@, #[trigger] orig[j].config.com@) by {
                        if j < i {
                            assert(has_port(pb, orig[j].config.com@));
                            let q = choose|q: int| 0 <= q < pb.len() && #[trigger] pb[q].port_number@ == orig[j].config.com@;
                            assert(ports@[q].port_number@ == pb[q].port_number@);
                        } else {
                            assert(ports@[p as int].port_number@ == orig[j].config.com@);
                        }
                    }
                }
            },
            None => {
                let mut port = SerialPortConfig::from_csv_config(&d.config);
                let ghost com = d.config.com@;
                proof {
                    assert forall|j: int| 0 <= j < before.len() implies #[trigger] before[j].config.com@ != com by {
                        assert(before[j] == orig[j]);
                        assert(has_port(pb, orig[j].config.com@));
                        let q = choose|q: int| 0 <= q < pb.len() && #[trigger] pb[q].port_number@ == orig[j].config.com@;
                    }
                    lemma_first_on_port(before, com);
                    lemma_none_on_port(before, com);
                }
                port.devices.push(d);
                ports.push(port);
                proof {
                    assert(port.devices@ =~= devices_on(before, com).push(d));
                    assert forall|q: int| 0 <= q < ports.len() implies port_built(#[trigger] ports@[q], after) by {
                        if q < pb.len() {
                            assert(ports@[q] == pb[q]);
                            assert(port_built(pb[q], before));
                            assert(pb[q].port_number@ != com);
                        } else {
                            assert(ports@[q] == port);
                            assert(after[i as int] == d);
                        }
                    }
                    assert forall|a: int, b: int| 0 <= a < b < ports.len() implies first_on_port(after, ports@[a].port_number@)
                        < first_on_port(after, ports@[b].port_number@) by {
                        assert(ports@[a] == pb[a]);
                        if b < pb.len() {
                            assert(ports@[b] == pb[b]);
                        } else {
                            assert(ports@[b].port_number@ == com);
                        }
                    }
                    assert forall|j: int| 0 <= j < i + 1 implies has_port(ports@, #[trigger] orig[j].config.com@) by {
                        if j < i {
                            assert(has_port(pb, orig[j].config.com@));
                            let q = choose|q: int| 0 <= q < pb.len() && #[trigger] pb[q].port_number@ == orig[j].config.com@;
                            assert(ports@[q] == pb[q]);
                        } else {
                            assert(ports@[pb.len() as int].port_number@ == orig[j].config.com@);
                        }
                    }
                }
            },
        }
        i = i + 1;
    }
    proof {
        assert(orig.take(n as int) =~= orig);
        assert forall|a: int, b: int| 0 <= a < b < ports.len() implies ports@[a].port_number@ != ports@[b].port_number@ by {
        }
        assert forall|k: int| 0 <= k < devices.len() implies has_port(ports@, #[trigger] devices@[k].config.com@) by {
            assert(orig[k] == devices@[k]);
        }
    }
    ports
}

} // verus!
