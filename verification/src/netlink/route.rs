//! What a new-address message reports: the link's index and the address.

use vstd::prelude::*;
use std::collections::HashMap;
use crate::model::config::{IpAddress, IpAddressType};
use crate::model::status::{IpAddressView, addresses_view, copy_addresses};
use crate::net::{ipv4_text, ipv6_text, push_ipv4_text, push_ipv6_text};
use crate::platform::netlink::{AddressAttribute, AddressFamily, RouteMessage};
use crate::platform::netlink::processor::{address_message_report, last_address};

verus! {

broadcast use vstd::std_specs::hash::group_hash_axioms;

/// Reads the addresses that netlink lists.
pub struct NetlinkRustyRouterAddress {}

/// An address with the index of its link.
#[derive(Debug)]
pub struct NetlinkRustyRouterAddressResult {
    pub index: u64,
    pub address: IpAddress,
}

/// The addresses of one link.
#[derive(Debug)]
pub struct NetlinkRustyRouterDeviceAddressesResult {
    pub addresses: Vec<IpAddress>,
}

/// What a message reports of an address: only a new-address message with an
/// address of its family reports one.
pub open spec fn new_address_report(message: RouteMessage) -> Option<(u64, (IpAddressType, Seq<char>, u64))> {
    match message {
        RouteMessage::NewAddress(m) => address_message_report(m),
        _ => None,
    }
}

/// The addresses that the new-address messages among `messages` report,
/// by the index of their link, each link's in the order reported.
pub open spec fn addresses_by_index(messages: Seq<RouteMessage>) -> Map<u64, Seq<IpAddressView>>
    decreases messages.len(),
{
    if messages.len() == 0 {
        Map::empty()
    } else {
        let earlier = addresses_by_index(messages.drop_last());
        match new_address_report(messages.last()) {
            Some((index, address)) => earlier.insert(
                index,
                if earlier.contains_key(index) {
                    earlier[index].push(address)
                } else {
                    seq![address]
                },
            ),
            None => earlier,
        }
    }
}

impl NetlinkRustyRouterAddress {
    pub fn new() -> (r: NetlinkRustyRouterAddress) {
        NetlinkRustyRouterAddress {}
    }

    /// The address that a new-address message reports, with its link's
    /// index, if it carries an address of its family.
    pub fn process_address_message(&self, message: RouteMessage) -> (r: Option<NetlinkRustyRouterAddressResult>)
        ensures
            match r {
                Some(a) => new_address_report(message) == Some((a.index, a.address@)),
                None => new_address_report(message) is None,
            },
    {
        let msg = match message {
            RouteMessage::NewAddress(msg) => msg,
            _ => {
                return None;
            },
        };
        let index = msg.index as u64;
        let prefix = msg.prefix_len as u64;
        let (family, wanted): (IpAddressType, usize) = match msg.family {
            AddressFamily::Inet => (IpAddressType::IpV4, 4),
            AddressFamily::Inet6 => (IpAddressType::IpV6, 16),
            AddressFamily::Other(_) => {
                return None;
            },
        };
        let mut found: Option<usize> = None;
        let mut i: usize = 0;
        while i < msg.attributes.len()
            invariant
                i <= msg.attributes@.len(),
                match found {
                    Some(k) => k < i && (msg.attributes@[k as int] matches AddressAttribute::Address(d)
                        && d@.len() == wanted && last_address(msg.attributes@.take(i as int), wanted as nat)
                        == Some(d@)),
                    None => last_address(msg.attributes@.take(i as int), wanted as nat) is None,
                },
            decreases msg.attributes@.len() - i,
        {
            match &msg.attributes[i] {
                AddressAttribute::Address(data) => {
                    if data.len() == wanted {
                        found = Some(i);
                    }
                },
                AddressAttribute::Other => {},
            }
            assert(msg.attributes@.take(i + 1).drop_last() =~= msg.attributes@.take(i as int));
            i = i + 1;
        }
        assert(msg.attributes@.take(msg.attributes@.len() as int) =~= msg.attributes@);
        match found {
            Some(k) => match &msg.attributes[k] {
                AddressAttribute::Address(data) => {
                    let mut text = String::new();
                    if wanted == 4 {
                        push_ipv4_text(&mut text, data.as_slice());
                        assert(text@ =~= ipv4_text(data@));
                    } else {
                        push_ipv6_text(&mut text, data.as_slice());
                        assert(text@ =~= ipv6_text(data@));
                    }
                    Some(NetlinkRustyRouterAddressResult { index, address: IpAddress(family, text, prefix) })
                },
                AddressAttribute::Other => None,
            },
            None => None,
        }
    }

    /// The addresses that the messages of an address dump report, by the
    /// index of their link.
    pub fn list_router_interfaces(&self, messages: Vec<RouteMessage>) -> (r: HashMap<
        u64,
        NetlinkRustyRouterDeviceAddressesResult,
    >)
        ensures
            r@.dom() == addresses_by_index(messages@).dom(),
            forall|i: u64| #[trigger] r@.contains_key(i) ==> addresses_view(r@[i].addresses@) == addresses_by_index(
                messages@,
            )[i],
    {
        let ghost all = messages@;
        let count = messages.len();
        let mut result: HashMap<u64, NetlinkRustyRouterDeviceAddressesResult> = HashMap::new();
        let mut rest = messages;
        let mut k: usize = 0;
        while rest.len() > 0
            invariant
                all.len() == count,
                k + rest@.len() == all.len(),
                rest@ == all.skip(k as int),
                result@.dom() == addresses_by_index(all.take(k as int)).dom(),
                forall|i: u64| #[trigger] result@.contains_key(i) ==> addresses_view(result@[i].addresses@)
                    == addresses_by_index(all.take(k as int))[i],
            decreases rest@.len(),
        {
            let message = rest.remove(0);
            proof {
                assert(all.take(k + 1).drop_last() =~= all.take(k as int));
                assert(all.take(k + 1).last() == message);
            }
            let ghost before = result@;
            match self.process_address_message(message) {
                Some(found) => {
                    let mut addresses = match result.get(&found.index) {
                        Some(existing) => copy_addresses(&existing.addresses),
                        None => Vec::new(),
                    };
                    let ghost earlier = addresses@;
                    let ghost address = found.address@;
                    addresses.push(found.address);
                    proof {
                        assert(addresses_view(addresses@) =~= addresses_view(earlier).push(address));
                    }
                    result.insert(found.index, NetlinkRustyRouterDeviceAddressesResult { addresses });
                },
                None => {},
            }
            proof {
                assert(result@.dom() =~= addresses_by_index(all.take(k + 1)).dom());
                assert(rest@ =~= all.skip(k + 1));
            }
            k = k + 1;
        }
        assert(all.take(k as int) =~= all);
        result
    }
}

} // verus!
