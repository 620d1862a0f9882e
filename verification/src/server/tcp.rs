//! Routing of commands received from clients to the serial ports.

use vstd::prelude::*;

use crate::text::{str_eq, strings_view};

verus! {

/// Index of the first port named `com`.
pub open spec fn route_spec(ports: Seq<Seq<char>>, com: Seq<char>) -> Option<int> {
    if exists|i: int| 0 <= i < ports.len() && ports[i] == com {
        Some(choose|i: int| 0 <= i < ports.len() && ports[i] == com && forall|j: int| 0 <= j < i ==> ports[j] != com)
    } else {
        None
    }
}

/// The port a command for `com` goes to: the first port with that name;
/// `None` when no port has it (the command is dropped).
pub fn route_command(port_names: &Vec<String>, com: &str) -> (r: Option<usize>)
    ensures
        match route_spec(strings_view(port_names@), com@) {
            Some(i) => r == Some(i as usize),
            None => r is None,
        },
{
    let ghost pv = strings_view(port_names@);
    let mut i: usize = 0;
    while i < port_names.len()
        invariant
            0 <= i <= port_names.len(),
            pv == strings_view(port_names@),
            forall|j: int| 0 <= j < i ==> pv[j] != com@,
        decreases port_names.len() - i,
    {
        if str_eq(port_names[i].as_str(), com) {
            proof {
                assert(pv[i as int] == com@);
                let q = choose|k: int| 0 <= k < pv.len() && pv[k] == com@ && forall|j: int| 0 <= j < k ==> pv[j] != com@;
                if q > i {
                    assert(pv[i as int] != com@);
                }
                assert(route_spec(pv, com@) == Some(i as int));
            }
            return Some(i);
        }
        i = i + 1;
    }
    None
}

} // verus!
