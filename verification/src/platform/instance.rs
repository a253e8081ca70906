//! Choosing the device on which to open a connection for an interface.

use vstd::prelude::*;
use vstd::string::*;
use crate::common::Error;
use crate::model::status::NetworkInterfaceStatus;

verus! {

/// The position of the last status named `name`, if any.
pub open spec fn last_named(statuses: Seq<NetworkInterfaceStatus>, name: Seq<char>) -> Option<int>
    decreases statuses.len(),
{
    if statuses.len() == 0 {
        None
    } else if statuses.last()@.name == Some(name) {
        Some(statuses.len() - 1)
    } else {
        last_named(statuses.drop_last(), name)
    }
}

/// The device of the interface named `network_interface`: of the last such
/// status, if several are.  Fails as an illegal state if none is.
pub fn find_interface_device(statuses: Vec<NetworkInterfaceStatus>, network_interface: &String) -> (r: Result<String, Error>)
    ensures
        match last_named(statuses@, network_interface@) {
            Some(i) => r matches Ok(device) && device@ == statuses@[i]@.network_link_status.device,
            None => r matches Err(Error::IllegalState(m)) && m@ == "Failed to find a device matching "@
                + network_interface@,
        },
{
    let mut i: usize = statuses.len();
    assert(statuses@.take(i as int) =~= statuses@);
    while i > 0
        invariant
            i <= statuses@.len(),
            last_named(statuses@, network_interface@) == last_named(statuses@.take(i as int), network_interface@),
        decreases i,
    {
        let matches = match statuses[i - 1].get_name() {
            Some(name) => *name == *network_interface,
            None => false,
        };
        let ghost t = statuses@.take(i as int);
        assert(t.last() == statuses@[i - 1]);
        if matches {
            return Ok(statuses[i - 1].get_network_link_status().get_device().clone());
        }
        assert(t.drop_last() =~= statuses@.take(i - 1));
        i = i - 1;
    }
    let mut message = String::new();
    message.append("Failed to find a device matching ");
    message.append(network_interface.as_str());
    Err(Error::IllegalState(message))
}

} // verus!
