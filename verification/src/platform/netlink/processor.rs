//! What the router reads of route netlink messages: a link's device, state
//! and configured name, and an interface address.

use vstd::prelude::*;
use std::sync::Arc;
use crate::collections::StringMap;
use crate::model::config::{IpAddress, IpAddressType, NetworkLink, Router};
use crate::model::status::{NetworkLinkOperationalState, NetworkLinkStatus, NetworkLinkStatusView};
use crate::net::{ipv4_text, ipv6_text, push_ipv4_text, push_ipv6_text};
use super::{AddressAttribute, AddressFamily, AddressMessage, LinkAttribute, LinkMessage, LinkState, RouteMessage};

verus! {

/// The device name that the last name attribute gives, if any.
pub open spec fn last_device(attributes: Seq<LinkAttribute>) -> Option<Seq<char>>
    decreases attributes.len(),
{
    if attributes.len() == 0 {
        None
    } else {
        match attributes.last() {
            LinkAttribute::IfName(name) => Some(name@),
            _ => last_device(attributes.drop_last()),
        }
    }
}

/// The operational state that a reported link state stands for.
pub open spec fn state_of(state: LinkState) -> NetworkLinkOperationalState {
    match state {
        LinkState::Up => NetworkLinkOperationalState::Up,
        LinkState::Down => NetworkLinkOperationalState::Down,
        LinkState::Other => NetworkLinkOperationalState::Unknown,
    }
}

/// The state that the last state attribute gives; unknown without one.
pub open spec fn last_state(attributes: Seq<LinkAttribute>) -> NetworkLinkOperationalState
    decreases attributes.len(),
{
    if attributes.len() == 0 {
        NetworkLinkOperationalState::Unknown
    } else {
        match attributes.last() {
            LinkAttribute::OperState(state) => state_of(state),
            _ => last_state(attributes.drop_last()),
        }
    }
}

/// The configured link names by device: for each device, the name of the last
/// configured link on it.
pub open spec fn devices_to_links(entries: Seq<(String, NetworkLink)>) -> Map<Seq<char>, Seq<char>>
    decreases entries.len(),
{
    if entries.len() == 0 {
        Map::empty()
    } else {
        devices_to_links(entries.drop_last()).insert(entries.last().1.device()@, entries.last().0@)
    }
}

/// A device is named by the last configured link on it, and by none if no
/// configured link is on it.
pub proof fn lemma_devices_to_links(entries: Seq<(String, NetworkLink)>, device: Seq<char>)
    ensures
        (forall|j: int| 0 <= j < entries.len() ==> #[trigger] entries[j].1.device()@ != device) ==> !devices_to_links(
            entries,
        ).contains_key(device),
        forall|j: int|
            0 <= j < entries.len() && #[trigger] entries[j].1.device()@ == device && (forall|k: int|
                j < k < entries.len() ==> #[trigger] entries[k].1.device()@ != device) ==> devices_to_links(
                entries,
            ).contains_key(device) && devices_to_links(entries)[device] == entries[j].0@,
    decreases entries.len(),
{
    if entries.len() > 0 {
        let rest = entries.drop_last();
        let last = entries.len() - 1;
        lemma_devices_to_links(rest, device);
        assert forall|j: int| 0 <= j < rest.len() implies #[trigger] rest[j] == entries[j] by {}
        if entries[last].1.device()@ != device {
            assert forall|j: int|
                0 <= j < entries.len() && #[trigger] entries[j].1.device()@ == device && (forall|k: int|
                    j < k < entries.len() ==> #[trigger] entries[k].1.device()@ != device) implies devices_to_links(
                entries,
            ).contains_key(device) && devices_to_links(entries)[device] == entries[j].0@ by {
                assert(j < last);
                assert(rest[j] == entries[j]);
                assert forall|k: int| j < k < rest.len() implies #[trigger] rest[k].1.device()@ != device by {
                    assert(rest[k] == entries[k]);
                }
            }
            if forall|j: int| 0 <= j < entries.len() ==> #[trigger] entries[j].1.device()@ != device {
                assert forall|j: int| 0 <= j < rest.len() implies #[trigger] rest[j].1.device()@ != device by {
                    assert(rest[j] == entries[j]);
                }
            }
        } else {
            assert forall|j: int|
                0 <= j < entries.len() && #[trigger] entries[j].1.device()@ == device && (forall|k: int|
                    j < k < entries.len() ==> #[trigger] entries[k].1.device()@ != device) implies devices_to_links(
                entries,
            ).contains_key(device) && devices_to_links(entries)[device] == entries[j].0@ by {
                if j < last {
                    assert(entries[last].1.device()@ != device);
                }
            }
        }
    }
}

/// The name that a link message reports is the name that the configuration
/// gives the message's device: that of the last configured link on it, none
/// if no configured link is on it.
pub proof fn lemma_configured_link_name(entries: Seq<(String, NetworkLink)>, m: LinkMessage, device: Seq<char>)
    requires
        last_device(m.attributes@) == Some(device),
    ensures
        (forall|j: int| 0 <= j < entries.len() ==> #[trigger] entries[j].1.device()@ != device) ==> link_message_report(
            devices_to_links(entries),
            m,
        ) == Some(
            (
                m.index as u64,
                NetworkLinkStatusView { name: None, device, operational_state: last_state(m.attributes@) },
            ),
        ),
        forall|j: int|
            0 <= j < entries.len() && #[trigger] entries[j].1.device()@ == device && (forall|k: int|
                j < k < entries.len() ==> #[trigger] entries[k].1.device()@ != device) ==> link_message_report(
                devices_to_links(entries),
                m,
            ) == Some(
                (
                    m.index as u64,
                    NetworkLinkStatusView {
                        name: Some(entries[j].0@),
                        device,
                        operational_state: last_state(m.attributes@),
                    },
                ),
            ),
{
    lemma_devices_to_links(entries, device);
}

/// What a link message reports, given the configured link names by device:
/// the link's index and status, if the message names a device.
pub open spec fn link_report(links: Map<Seq<char>, Seq<char>>, message: RouteMessage) -> Option<
    (u64, NetworkLinkStatusView),
> {
    match message {
        RouteMessage::NewLink(m) => link_message_report(links, m),
        RouteMessage::DelLink(m) => link_message_report(links, m),
        _ => None,
    }
}

/// What the body of a link message reports.
pub open spec fn link_message_report(links: Map<Seq<char>, Seq<char>>, m: LinkMessage) -> Option<
    (u64, NetworkLinkStatusView),
> {
    match last_device(m.attributes@) {
        None => None,
        Some(device) => Some(
            (
                m.index as u64,
                NetworkLinkStatusView {
                    name: if links.contains_key(device) {
                        Some(links[device])
                    } else {
                        None
                    },
                    device,
                    operational_state: last_state(m.attributes@),
                },
            ),
        ),
    }
}

/// The bytes of the last address attribute of `len` bytes, if any.
pub open spec fn last_address(attributes: Seq<AddressAttribute>, len: nat) -> Option<Seq<u8>>
    decreases attributes.len(),
{
    if attributes.len() == 0 {
        None
    } else {
        match attributes.last() {
            AddressAttribute::Address(data) if data@.len() == len => Some(data@),
            _ => last_address(attributes.drop_last(), len),
        }
    }
}

/// What an address message reports: the link's index and the address with
/// its prefix length, if it carries an address of its family.
pub open spec fn address_report(message: RouteMessage) -> Option<(u64, (IpAddressType, Seq<char>, u64))> {
    match message {
        RouteMessage::NewAddress(m) => address_message_report(m),
        RouteMessage::DelAddress(m) => address_message_report(m),
        _ => None,
    }
}

/// What the body of an address message reports.
pub open spec fn address_message_report(m: AddressMessage) -> Option<(u64, (IpAddressType, Seq<char>, u64))> {
    match m.family {
        AddressFamily::Inet => match last_address(m.attributes@, 4) {
            Some(b) => Some((m.index as u64, (IpAddressType::IpV4, ipv4_text(b), m.prefix_len as u64))),
            None => None,
        },
        AddressFamily::Inet6 => match last_address(m.attributes@, 16) {
            Some(b) => Some((m.index as u64, (IpAddressType::IpV6, ipv6_text(b), m.prefix_len as u64))),
            None => None,
        },
        AddressFamily::Other(_) => None,
    }
}

/// A link's state is read from its last state attribute, up as up, down as
/// down and any other state as unknown, and its device from its last name
/// attribute.
pub proof fn lemma_link_attributes_read(attributes: Seq<LinkAttribute>, state: LinkState, name: String)
    ensures
        state_of(LinkState::Up) == NetworkLinkOperationalState::Up,
        state_of(LinkState::Down) == NetworkLinkOperationalState::Down,
        state_of(LinkState::Other) == NetworkLinkOperationalState::Unknown,
        last_state(attributes.push(LinkAttribute::OperState(state))) == state_of(state),
        last_state(Seq::<LinkAttribute>::empty()) == NetworkLinkOperationalState::Unknown,
        last_device(attributes.push(LinkAttribute::IfName(name))) == Some(name@),
        last_device(Seq::<LinkAttribute>::empty()) is None,
{
    assert(attributes.push(LinkAttribute::OperState(state)).drop_last() =~= attributes);
    assert(attributes.push(LinkAttribute::IfName(name)).drop_last() =~= attributes);
}

/// An address message reports the link's index and prefix length as they
/// are, and the text of the address that its last address attribute of its
/// family carries: four bytes read as IPv4, sixteen as IPv6, most
/// significant first.
pub proof fn lemma_address_report_fields(m: AddressMessage)
    ensures
        m.family is Inet ==> match last_address(m.attributes@, 4) {
            Some(b) => address_message_report(m) matches Some((index, (family, text, prefix))) && index
                == m.index && prefix == m.prefix_len && family == IpAddressType::IpV4
                && crate::model::address_value::ipv4_value(text) == Some(
                seq![(b[0] as nat * 256 + b[1] as nat) as u16, (b[2] as nat * 256 + b[3] as nat) as u16],
            ),
            None => address_message_report(m) is None,
        },
        m.family is Inet6 ==> match last_address(m.attributes@, 16) {
            Some(b) => address_message_report(m) matches Some((index, (family, text, prefix))) && index
                == m.index && prefix == m.prefix_len && family == IpAddressType::IpV6
                && crate::model::address_value::ipv6_value(text) == Some(
                crate::model::address_value::groups_of(b, 0, 8),
            ),
            None => address_message_report(m) is None,
        },
        m.family is Other ==> address_message_report(m) is None,
{
    lemma_last_address_length(m.attributes@, 4);
    lemma_last_address_length(m.attributes@, 16);
    if let Some(b) = last_address(m.attributes@, 4) {
        crate::model::address_value::lemma_ipv4_text_value(b);
    }
    if let Some(b) = last_address(m.attributes@, 16) {
        crate::model::address_value::lemma_ipv6_text_value(b);
    }
}

/// The address that `last_address` finds has the length asked for.
proof fn lemma_last_address_length(attributes: Seq<AddressAttribute>, len: nat)
    ensures
        last_address(attributes, len) matches Some(b) ==> b.len() == len,
    decreases attributes.len(),
{
    if attributes.len() > 0 {
        lemma_last_address_length(attributes.drop_last(), len);
    }
}

/// Reads link and address messages with the configured names of links.
pub struct NetlinkMessageProcessor {
    device_links: StringMap<String>,
}

impl NetlinkMessageProcessor {
    /// The configured link names by device.
    pub closed spec fn links_by_device(self) -> Map<Seq<char>, Seq<char>> {
        self.device_links@.map_values(|name: String| name@)
    }

    pub fn new(config: Arc<Router>) -> (r: NetlinkMessageProcessor)
        ensures
            r.links_by_device() == devices_to_links(config.links().entries_view()),
    {
        let entries = config.get_network_links().entries();
        let mut device_links: StringMap<String> = StringMap::new();
        let mut i: usize = 0;
        while i < entries.len()
            invariant
                i <= entries@.len(),
                entries@ == config.links().entries_view(),
                device_links@.map_values(|name: String| name@) == devices_to_links(entries@.take(i as int)),
            decreases entries@.len() - i,
        {
            let (name, link) = &entries[i];
            device_links.insert(link.get_device().clone(), name.clone());
            proof {
                assert(entries@.take(i + 1).drop_last() =~= entries@.take(i as int));
                assert(device_links@.map_values(|name: String| name@) =~= devices_to_links(
                    entries@.take(i + 1),
                ));
            }
            i = i + 1;
        }
        assert(entries@.take(entries@.len() as int) =~= entries@);
        NetlinkMessageProcessor { device_links }
    }

    /// The link's index and status that a new or deleted link message
    /// reports, if it names a device.
    pub fn process_link_message(&self, message: RouteMessage) -> (r: Option<(u64, NetworkLinkStatus)>)
        ensures
            match r {
                Some((index, status)) => link_report(self.links_by_device(), message) == Some(
                    (index, status@),
                ),
                None => link_report(self.links_by_device(), message) is None,
            },
    {
        let msg = match message {
            RouteMessage::NewLink(msg) => msg,
            RouteMessage::DelLink(msg) => msg,
            _ => {
                return None;
            },
        };
        let mut device: Option<String> = None;
        let mut state = NetworkLinkOperationalState::Unknown;
        let index = msg.index as u64;
        let mut i: usize = 0;
        while i < msg.attributes.len()
            invariant
                i <= msg.attributes@.len(),
                match device {
                    Some(d) => last_device(msg.attributes@.take(i as int)) == Some(d@),
                    None => last_device(msg.attributes@.take(i as int)) is None,
                },
                state == last_state(msg.attributes@.take(i as int)),
            decreases msg.attributes@.len() - i,
        {
            match &msg.attributes[i] {
                LinkAttribute::IfName(name) => {
                    device = Some(name.clone());
                },
                LinkAttribute::OperState(operational_state) => {
                    state = match operational_state {
                        LinkState::Up => NetworkLinkOperationalState::Up,
                        LinkState::Down => NetworkLinkOperationalState::Down,
                        LinkState::Other => NetworkLinkOperationalState::Unknown,
                    };
                },
                LinkAttribute::Other => {},
            }
            assert(msg.attributes@.take(i + 1).drop_last() =~= msg.attributes@.take(i as int));
            i = i + 1;
        }
        assert(msg.attributes@.take(msg.attributes@.len() as int) =~= msg.attributes@);
        match device {
            Some(device) => {
                let name = match self.device_links.get(&device) {
                    Some(n) => Some(n.clone()),
                    None => None,
                };
                Some((index, NetworkLinkStatus::new(name, device, state)))
            },
            None => None,
        }
    }

    /// The link's index and the address that a new or deleted address
    /// message reports, if it carries an address of its family.
    pub fn process_address_message(&self, message: RouteMessage) -> (r: Option<(u64, IpAddress)>)
        ensures
            match r {
                Some((index, address)) => address_report(message) == Some((index, address@)),
                None => address_report(message) is None,
            },
    {
        let msg = match message {
            RouteMessage::NewAddress(msg) => msg,
            RouteMessage::DelAddress(msg) => msg,
            _ => {
                return None;
            },
        };
        let index = msg.index as u64;
        // The prefix is taken as the system gives it.
        let prefix = msg.prefix_len as u64;
        let wanted: usize = match msg.family {
            AddressFamily::Inet => 4,
            AddressFamily::Inet6 => 16,
            AddressFamily::Other(_) => {
                return None;
            },
        };
        let mut found: Option<usize> = None;
        let mut i: usize = 0;
        while i < msg.attributes.len()
            invariant
                i <= msg.attributes@.len(),
                match found {
                    Some(k) => k < i && (msg.attributes@[k as int] matches AddressAttribute::Address(d)
                        && d@.len() == wanted && last_address(msg.attributes@.take(i as int), wanted as nat)
                        == Some(d@)),
                    None => last_address(msg.attributes@.take(i as int), wanted as nat) is None,
                },
            decreases msg.attributes@.len() - i,
        {
            match &msg.attributes[i] {
                AddressAttribute::Address(data) => {
                    if data.len() == wanted {
                        found = Some(i);
                    }
                },
                AddressAttribute::Other => {},
            }
            assert(msg.attributes@.take(i + 1).drop_last() =~= msg.attributes@.take(i as int));
            i = i + 1;
        }
        assert(msg.attributes@.take(msg.attributes@.len() as int) =~= msg.attributes@);
        match found {
            Some(k) => match &msg.attributes[k] {
                AddressAttribute::Address(data) => {
                    let mut text = String::new();
                    if wanted == 4 {
                        push_ipv4_text(&mut text, data.as_slice());
                        assert(text@ =~= ipv4_text(data@));
                        Some((index, IpAddress(IpAddressType::IpV4, text, prefix)))
                    } else {
                        push_ipv6_text(&mut text, data.as_slice());
                        assert(text@ =~= ipv6_text(data@));
                        Some((index, IpAddress(IpAddressType::IpV6, text, prefix)))
                    }
                },
                AddressAttribute::Other => None,
            },
            None => None,
        }
    }
}

} // verus!
