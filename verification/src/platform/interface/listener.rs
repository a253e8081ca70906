//! How a netlink report updates what the interface manager knows: a new or
//! deleted link, and an address added to or removed from an interface.

use vstd::prelude::*;
use crate::model::config::IpAddress;
use crate::model::status::{
    IpAddressView, NetworkInterfaceStatus, NetworkInterfaceStatusView, NetworkLinkOperationalState,
    NetworkLinkStatus, NetworkLinkStatusView, addresses_view, copy_addresses, same_address,
};
use crate::ordering::{SortKey, is_index_permutation, is_rearrangement, is_sorted, sort_by_key};
use crate::platform::netlink::RouteMessage;
use crate::platform::netlink::processor::{NetlinkMessageProcessor, address_report, link_report};
use crate::model::status::copy_name;
use super::database::{InterfaceManagerDatabase, keys_distinct, removal};
use super::model::{CanonicalNetworkId, CanonicalNetworkIdView, NetworkStatusItem};

verus! {

/// Whether `after` is `before` with `id`'s key-sharing items taken out and an
/// item stored with the given identifier, status and refresh time.
pub open spec fn stores_link(
    before: Seq<NetworkStatusItem<NetworkLinkStatus>>,
    after: Seq<NetworkStatusItem<NetworkLinkStatus>>,
    id: CanonicalNetworkIdView,
    status: NetworkLinkStatusView,
    refreshed: u64,
) -> bool {
    exists|x: NetworkStatusItem<NetworkLinkStatus>|
        #![trigger removal(before, id).0.push(x)]
        x.id_view() == id && x.status_of()@ == status && x.refreshed_at() == refreshed && after
            == removal(before, id).0.push(x)
}

/// Whether `after` is `before` with `id`'s key-sharing items taken out and an
/// item stored with the given identifier, status and refresh time.
pub open spec fn stores_interface(
    before: Seq<NetworkStatusItem<NetworkInterfaceStatus>>,
    after: Seq<NetworkStatusItem<NetworkInterfaceStatus>>,
    id: CanonicalNetworkIdView,
    status: NetworkInterfaceStatusView,
    refreshed: u64,
) -> bool {
    exists|x: NetworkStatusItem<NetworkInterfaceStatus>|
        #![trigger removal(before, id).0.push(x)]
        x.id_view() == id && x.status_of()@ == status && x.refreshed_at() == refreshed && after
            == removal(before, id).0.push(x)
}

/// The interface item with device index `index`, if there is one.
pub open spec fn interface_at(items: Seq<NetworkStatusItem<NetworkInterfaceStatus>>, index: u64) -> Option<
    NetworkStatusItem<NetworkInterfaceStatus>,
> {
    if exists|i: int| 0 <= i < items.len() && #[trigger] items[i].id_view().id == Some(index) {
        Some(items[choose|i: int| 0 <= i < items.len() && #[trigger] items[i].id_view().id == Some(index)])
    } else {
        None
    }
}

/// The interface item with device index `index` whose link is on `device`,
/// if there is one.
pub open spec fn interface_on_link(
    items: Seq<NetworkStatusItem<NetworkInterfaceStatus>>,
    index: u64,
    device: Seq<char>,
) -> Option<NetworkStatusItem<NetworkInterfaceStatus>> {
    match interface_at(items, index) {
        Some(x) => if x.status_of()@.network_link_status.device == device {
            Some(x)
        } else {
            None
        },
        None => None,
    }
}

/// `s` without the first address equal to `a`.
pub open spec fn without_first(s: Seq<IpAddressView>, a: IpAddressView) -> Seq<IpAddressView>
    decreases s.len(),
{
    if s.len() == 0 {
        s
    } else if s[0] == a {
        s.drop_first()
    } else {
        seq![s[0]] + without_first(s.drop_first(), a)
    }
}

/// Whether `s` lists addresses in order: by family, value and prefix length
/// (`address_le`).
pub open spec fn addresses_sorted(s: Seq<IpAddressView>) -> bool {
    forall|i: int, j: int| 0 <= i < j < s.len() ==> crate::model::status::address_le(#[trigger] s[i], #[trigger] s[j])
}

/// What a report of a new link does: the link is stored under its device
/// index, name and device; the interface on it, if any, takes its status.
pub open spec fn after_new_link(
    links: Seq<NetworkStatusItem<NetworkLinkStatus>>,
    interfaces: Seq<NetworkStatusItem<NetworkInterfaceStatus>>,
    index: u64,
    status: NetworkLinkStatusView,
    now: u64,
    new_links: Seq<NetworkStatusItem<NetworkLinkStatus>>,
    new_interfaces: Seq<NetworkStatusItem<NetworkInterfaceStatus>>,
) -> bool {
    let id = CanonicalNetworkIdView { id: Some(index), name: status.name, device: Some(status.device) };
    &&& stores_link(links, new_links, id, status, now)
    &&& match interface_on_link(interfaces, index, status.device) {
        None => new_interfaces == interfaces,
        Some(f) => stores_interface(
            interfaces,
            new_interfaces,
            CanonicalNetworkIdView {
                id: Some(index),
                name: f.status_of()@.name,
                device: Some(f.status_of()@.network_link_status.device),
            },
            NetworkInterfaceStatusView { network_link_status: status, ..f.status_of()@ },
            now,
        ),
    }
}

/// What a report of a deleted link does: a configured link is stored as not
/// found, any other is taken out; the interface on it, if any, takes that
/// status if it is configured and is taken out if not.
pub open spec fn after_deleted_link(
    links: Seq<NetworkStatusItem<NetworkLinkStatus>>,
    interfaces: Seq<NetworkStatusItem<NetworkInterfaceStatus>>,
    index: u64,
    status: NetworkLinkStatusView,
    now: u64,
    new_links: Seq<NetworkStatusItem<NetworkLinkStatus>>,
    new_interfaces: Seq<NetworkStatusItem<NetworkInterfaceStatus>>,
) -> bool {
    let id = CanonicalNetworkIdView { id: None, name: status.name, device: Some(status.device) };
    let link_status = if status.name is Some {
        NetworkLinkStatusView { operational_state: NetworkLinkOperationalState::NotFound, ..status }
    } else {
        status
    };
    &&& if status.name is Some {
        stores_link(links, new_links, id, link_status, now)
    } else {
        new_links == removal(links, id).0
    }
    &&& match interface_on_link(interfaces, index, status.device) {
        None => new_interfaces == interfaces,
        Some(f) => {
            let interface_id = CanonicalNetworkIdView {
                id: None,
                name: f.status_of()@.name,
                device: Some(f.status_of()@.network_link_status.device),
            };
            if interface_id.name is Some {
                stores_interface(
                    interfaces,
                    new_interfaces,
                    interface_id,
                    NetworkInterfaceStatusView { network_link_status: link_status, ..f.status_of()@ },
                    now,
                )
            } else {
                new_interfaces == removal(interfaces, interface_id).0
            }
        },
    }
}

/// What a report of a new address does: the interface with the link's index,
/// if any, lists the address too, its addresses in order.
pub open spec fn after_new_address(
    interfaces: Seq<NetworkStatusItem<NetworkInterfaceStatus>>,
    index: u64,
    address: IpAddressView,
    now: u64,
    new_interfaces: Seq<NetworkStatusItem<NetworkInterfaceStatus>>,
) -> bool {
    match interface_at(interfaces, index) {
        None => new_interfaces == interfaces,
        Some(f) => exists|addresses: Seq<IpAddressView>|
            #![trigger addresses_sorted(addresses)]
            addresses_sorted(addresses) && is_rearrangement(addresses, f.status_of()@.addresses.push(address))
                && stores_interface(
                interfaces,
                new_interfaces,
                f.id_view(),
                NetworkInterfaceStatusView { addresses, ..f.status_of()@ },
                now,
            ),
    }
}

/// What a report of a deleted address does: the interface with the link's
/// index, if any, no longer lists the first equal address.
pub open spec fn after_deleted_address(
    interfaces: Seq<NetworkStatusItem<NetworkInterfaceStatus>>,
    index: u64,
    address: IpAddressView,
    now: u64,
    new_interfaces: Seq<NetworkStatusItem<NetworkInterfaceStatus>>,
) -> bool {
    match interface_at(interfaces, index) {
        None => new_interfaces == interfaces,
        Some(f) => stores_interface(
            interfaces,
            new_interfaces,
            f.id_view(),
            NetworkInterfaceStatusView {
                addresses: without_first(f.status_of()@.addresses, address),
                ..f.status_of()@
            },
            now,
        ),
    }
}

/// What a route netlink report does to the links and interfaces known.
pub open spec fn after_message(
    processor_links: Map<Seq<char>, Seq<char>>,
    message: RouteMessage,
    links: Seq<NetworkStatusItem<NetworkLinkStatus>>,
    interfaces: Seq<NetworkStatusItem<NetworkInterfaceStatus>>,
    now: u64,
    new_links: Seq<NetworkStatusItem<NetworkLinkStatus>>,
    new_interfaces: Seq<NetworkStatusItem<NetworkInterfaceStatus>>,
) -> bool {
    match message {
        RouteMessage::NewLink(_) => match link_report(processor_links, message) {
            Some((index, status)) => after_new_link(
                links,
                interfaces,
                index,
                status,
                now,
                new_links,
                new_interfaces,
            ),
            None => new_links == links && new_interfaces == interfaces,
        },
        RouteMessage::DelLink(_) => match link_report(processor_links, message) {
            Some((index, status)) => after_deleted_link(
                links,
                interfaces,
                index,
                status,
                now,
                new_links,
                new_interfaces,
            ),
            None => new_links == links && new_interfaces == interfaces,
        },
        RouteMessage::NewAddress(_) => new_links == links && match address_report(message) {
            Some((index, address)) => after_new_address(interfaces, index, address, now, new_interfaces),
            None => new_interfaces == interfaces,
        },
        RouteMessage::DelAddress(_) => new_links == links && match address_report(message) {
            Some((index, address)) => after_deleted_address(
                interfaces,
                index,
                address,
                now,
                new_interfaces,
            ),
            None => new_interfaces == interfaces,
        },
        RouteMessage::Other => new_links == links && new_interfaces == interfaces,
    }
}


/// With no two items sharing a key, the item with a device index is the one
/// found with it.
proof fn lemma_interface_at(items: Seq<NetworkStatusItem<NetworkInterfaceStatus>>, index: u64, x: NetworkStatusItem<NetworkInterfaceStatus>)
    requires
        keys_distinct(items),
        items.contains(x),
        x.id_view().id == Some(index),
    ensures
        interface_at(items, index) == Some(x),
{
    let k = choose|k: int| 0 <= k < items.len() && items[k] == x;
    assert(items[k].id_view().id == Some(index));
    let j = choose|i: int| 0 <= i < items.len() && #[trigger] items[i].id_view().id == Some(index);
    if j != k {
        assert(crate::platform::interface::database::shares_key(items[j].id_view(), items[k].id_view()));
    }
}

/// Applies a report of a new link.
fn on_new_link(
    database: &mut InterfaceManagerDatabase,
    processor: &NetlinkMessageProcessor,
    message: RouteMessage,
    now: u64,
)
    requires
        message is NewLink,
    ensures
        match link_report(processor.links_by_device(), message) {
            Some((index, status)) => after_new_link(
                old(database).links_view(),
                old(database).interfaces_view(),
                index,
                status,
                now,
                final(database).links_view(),
                final(database).interfaces_view(),
            ),
            None => final(database).links_view() == old(database).links_view()
                && final(database).interfaces_view() == old(database).interfaces_view(),
        },
{
    let (index, link) = match processor.process_link_message(message) {
        Some(report) => report,
        None => {
            return;
        },
    };
    let ghost links0 = database.links_view();
    let ghost interfaces0 = database.interfaces_view();
    let id = CanonicalNetworkId::new(Some(index), copy_name(link.get_name()), Some(link.get_device().clone()));
    let item = NetworkStatusItem::new_with_refresh(id, link.clone(), now);
    let ghost stored = item;
    // What the new link replaces is of no further use.
    let _ = database.set_link_status_item(item);
    assert(database.links_view() == removal(links0, stored.id_view()).0.push(stored));
    let updated = match database.get_interface_status_item_by_device_index(&index) {
        Some(interface) => {
            proof {
                lemma_interface_at(interfaces0, index, *interface);
            }
            let status = interface.get_status();
            if *status.get_network_link_status().get_device() == *link.get_device() {
                let interface_id = CanonicalNetworkId::new(
                    Some(index),
                    copy_name(status.get_name()),
                    Some(status.get_network_link_status().get_device().clone()),
                );
                let interface_status = NetworkInterfaceStatus::new(
                    copy_name(status.get_name()),
                    copy_addresses(status.get_addresses()),
                    link.clone(),
                );
                Some(NetworkStatusItem::new_with_refresh(interface_id, interface_status, now))
            } else {
                None
            }
        },
        None => None,
    };
    match updated {
        Some(u) => {
            let ghost stored_interface = u;
            let _ = database.set_interface_status_item(u);
            assert(database.interfaces_view() == removal(interfaces0, stored_interface.id_view()).0.push(
                stored_interface,
            ));
        },
        None => {},
    }
}


/// Applies a report of a deleted link.
fn on_deleted_link(
    database: &mut InterfaceManagerDatabase,
    processor: &NetlinkMessageProcessor,
    message: RouteMessage,
    now: u64,
)
    requires
        message is DelLink,
    ensures
        match link_report(processor.links_by_device(), message) {
            Some((index, status)) => after_deleted_link(
                old(database).links_view(),
                old(database).interfaces_view(),
                index,
                status,
                now,
                final(database).links_view(),
                final(database).interfaces_view(),
            ),
            None => final(database).links_view() == old(database).links_view()
                && final(database).interfaces_view() == old(database).interfaces_view(),
        },
{
    let (index, link) = match processor.process_link_message(message) {
        Some(report) => report,
        None => {
            return;
        },
    };
    let ghost links0 = database.links_view();
    let ghost interfaces0 = database.interfaces_view();
    let mut deleted_items = Vec::new();
    let id = CanonicalNetworkId::new(None, copy_name(link.get_name()), Some(link.get_device().clone()));
    let link_status = if id.name().is_some() {
        let status = NetworkLinkStatus::new(
            copy_name(link.get_name()),
            link.get_device().clone(),
            NetworkLinkOperationalState::NotFound,
        );
        let item = NetworkStatusItem::new_with_refresh(id, status.clone(), now);
        let ghost stored = item;
        let _ = database.set_link_status_item(item);
        assert(database.links_view() == removal(links0, stored.id_view()).0.push(stored));
        status
    } else {
        database.remove_link_status_item(&id, &mut deleted_items);
        link
    };
    let updated = match database.get_interface_status_item_by_device_index(&index) {
        Some(interface) => {
            proof {
                lemma_interface_at(interfaces0, index, *interface);
            }
            let status = interface.get_status();
            if *status.get_network_link_status().get_device() == *link_status.get_device() {
                let interface_id = CanonicalNetworkId::new(
                    None,
                    copy_name(status.get_name()),
                    Some(status.get_network_link_status().get_device().clone()),
                );
                let interface_status = NetworkInterfaceStatus::new(
                    copy_name(status.get_name()),
                    copy_addresses(status.get_addresses()),
                    link_status.clone(),
                );
                Some(NetworkStatusItem::new_with_refresh(interface_id, interface_status, now))
            } else {
                None
            }
        },
        None => None,
    };
    match updated {
        Some(u) => {
            if u.get_id().name().is_some() {
                let ghost stored_interface = u;
                let _ = database.set_interface_status_item(u);
                assert(database.interfaces_view() == removal(interfaces0, stored_interface.id_view()).0.push(
                    stored_interface,
                ));
            } else {
                let mut deleted_interfaces = Vec::new();
                database.remove_interface_status_item(u.get_id(), &mut deleted_interfaces);
            }
        },
        None => {},
    }
}

/// Applies a report of a new address.
fn on_new_address(
    database: &mut InterfaceManagerDatabase,
    processor: &NetlinkMessageProcessor,
    message: RouteMessage,
    now: u64,
)
    requires
        message is NewAddress,
    ensures
        final(database).links_view() == old(database).links_view(),
        match address_report(message) {
            Some((index, address)) => after_new_address(
                old(database).interfaces_view(),
                index,
                address,
                now,
                final(database).interfaces_view(),
            ),
            None => final(database).interfaces_view() == old(database).interfaces_view(),
        },
{
    let (index, address) = match processor.process_address_message(message) {
        Some(report) => report,
        None => {
            return;
        },
    };
    let ghost interfaces0 = database.interfaces_view();
    let updated = match database.get_interface_status_item_by_device_index(&index) {
        Some(interface) => {
            proof {
                lemma_interface_at(interfaces0, index, *interface);
            }
            let status = interface.get_status();
            let mut addresses = copy_addresses(status.get_addresses());
            let ghost unsorted_before = addresses@;
            addresses.push(address);
            let ghost unsorted = addresses@;
            let addresses = sort_by_key(addresses);
            proof {
                let p = choose|p: Seq<int>|
                    is_index_permutation(p, unsorted.len()) && addresses@.len() == unsorted.len() && forall|i: int|
                        0 <= i < addresses@.len() ==> #[trigger] addresses@[i] == unsorted[p[i]];
                let target = status@.addresses.push(address@);
                assert(addresses_view(unsorted) =~= target);
                assert forall|k: int| 0 <= k < addresses@.len() implies #[trigger] addresses_view(addresses@)[k]
                    == target[p[k]] by {
                    assert(addresses@[k] == unsorted[p[k]]);
                }
                assert(is_index_permutation(p, target.len()));
                assert(is_rearrangement(addresses_view(addresses@), target));
                assert forall|i: int, j: int| 0 <= i < j < addresses_view(addresses@).len() implies crate::model::status::address_le(
                    #[trigger] addresses_view(addresses@)[i],
                    #[trigger] addresses_view(addresses@)[j],
                ) by {
                    assert(addresses@[i].sorts_no_later(&addresses@[j]));
                }
            }
            let interface_status = NetworkInterfaceStatus::new(
                copy_name(status.get_name()),
                addresses,
                status.get_network_link_status().clone(),
            );
            Some(NetworkStatusItem::new_with_refresh(interface.get_id().clone(), interface_status, now))
        },
        None => None,
    };
    match updated {
        Some(u) => {
            let ghost stored_interface = u;
            let _ = database.set_interface_status_item(u);
            assert(database.interfaces_view() == removal(interfaces0, stored_interface.id_view()).0.push(
                stored_interface,
            ));
            assert(addresses_sorted(stored_interface.status_of()@.addresses));
        },
        None => {},
    }
}


/// The position of the first address equal to `a`, if there is one.
fn position_of_address(v: &Vec<IpAddress>, a: &IpAddress) -> (r: Option<usize>)
    ensures
        match r {
            Some(i) => i < v@.len() && addresses_view(v@)[i as int] == a@ && forall|j: int|
                0 <= j < i ==> #[trigger] addresses_view(v@)[j] != a@,
            None => forall|j: int| 0 <= j < v@.len() ==> #[trigger] addresses_view(v@)[j] != a@,
        },
{
    let mut i: usize = 0;
    while i < v.len()
        invariant
            i <= v@.len(),
            forall|j: int| 0 <= j < i ==> #[trigger] addresses_view(v@)[j] != a@,
        decreases v@.len() - i,
    {
        if same_address(&v[i], a) {
            return Some(i);
        }
        assert(addresses_view(v@)[i as int] == v@[i as int]@);
        i = i + 1;
    }
    None
}

proof fn lemma_without_first_at(v: Seq<IpAddressView>, a: IpAddressView, i: int)
    requires
        0 <= i < v.len(),
        v[i] == a,
        forall|j: int| 0 <= j < i ==> #[trigger] v[j] != a,
    ensures
        without_first(v, a) == v.take(i) + v.skip(i + 1),
    decreases i,
{
    if i == 0 {
        assert(v.drop_first() =~= v.skip(1));
        assert(v.take(0) + v.skip(1) =~= v.skip(1));
    } else {
        let t = v.drop_first();
        assert forall|j: int| 0 <= j < i - 1 implies #[trigger] t[j] != a by {
            assert(t[j] == v[j + 1]);
        }
        assert(v[0] != a);
        lemma_without_first_at(t, a, i - 1);
        assert(seq![v[0]] + (t.take(i - 1) + t.skip(i)) =~= v.take(i) + v.skip(i + 1));
    }
}

proof fn lemma_without_first_absent(v: Seq<IpAddressView>, a: IpAddressView)
    requires
        forall|j: int| 0 <= j < v.len() ==> #[trigger] v[j] != a,
    ensures
        without_first(v, a) == v,
    decreases v.len(),
{
    if v.len() > 0 {
        let t = v.drop_first();
        assert forall|j: int| 0 <= j < t.len() implies #[trigger] t[j] != a by {
            assert(t[j] == v[j + 1]);
        }
        assert(v[0] != a);
        lemma_without_first_absent(t, a);
        assert(seq![v[0]] + t =~= v);
    }
}

/// Applies a report of a deleted address.
fn on_deleted_address(
    database: &mut InterfaceManagerDatabase,
    processor: &NetlinkMessageProcessor,
    message: RouteMessage,
    now: u64,
)
    requires
        message is DelAddress,
    ensures
        final(database).links_view() == old(database).links_view(),
        match address_report(message) {
            Some((index, address)) => after_deleted_address(
                old(database).interfaces_view(),
                index,
                address,
                now,
                final(database).interfaces_view(),
            ),
            None => final(database).interfaces_view() == old(database).interfaces_view(),
        },
{
    let (index, address) = match processor.process_address_message(message) {
        Some(report) => report,
        None => {
            return;
        },
    };
    let ghost interfaces0 = database.interfaces_view();
    let updated = match database.get_interface_status_item_by_device_index(&index) {
        Some(interface) => {
            proof {
                lemma_interface_at(interfaces0, index, *interface);
            }
            let status = interface.get_status();
            let mut addresses = copy_addresses(status.get_addresses());
            let ghost v = addresses_view(addresses@);
            match position_of_address(&addresses, &address) {
                Some(i) => {
                    proof {
                        lemma_without_first_at(v, address@, i as int);
                        assert(addresses_view(addresses@.remove(i as int)) =~= v.take(i as int) + v.skip(i + 1));
                    }
                    addresses.remove(i);
                },
                None => {
                    proof {
                        lemma_without_first_absent(v, address@);
                    }
                },
            }
            assert(addresses_view(addresses@) == without_first(status@.addresses, address@));
            let interface_status = NetworkInterfaceStatus::new(
                copy_name(status.get_name()),
                addresses,
                status.get_network_link_status().clone(),
            );
            Some(NetworkStatusItem::new_with_refresh(interface.get_id().clone(), interface_status, now))
        },
        None => None,
    };
    match updated {
        Some(u) => {
            let ghost stored_interface = u;
            let _ = database.set_interface_status_item(u);
            assert(database.interfaces_view() == removal(interfaces0, stored_interface.id_view()).0.push(
                stored_interface,
            ));
        },
        None => {},
    }
}

/// Applies a route netlink report to what the interface manager knows;
/// `now` is when the report came.
pub fn message_received(
    database: &mut InterfaceManagerDatabase,
    processor: &NetlinkMessageProcessor,
    message: RouteMessage,
    now: u64,
)
    ensures
        after_message(
            processor.links_by_device(),
            message,
            old(database).links_view(),
            old(database).interfaces_view(),
            now,
            final(database).links_view(),
            final(database).interfaces_view(),
        ),
{
    match &message {
        RouteMessage::NewLink(_) => on_new_link(database, processor, message, now),
        RouteMessage::DelLink(_) => on_deleted_link(database, processor, message, now),
        RouteMessage::NewAddress(_) => on_new_address(database, processor, message, now),
        RouteMessage::DelAddress(_) => on_deleted_address(database, processor, message, now),
        RouteMessage::Other => {},
    }
}


/// After a new-link report for device index `index`, the interface that had
/// that index and sat on the reported device is still known, with its name
/// and addresses, and now carries the reported link status.
pub proof fn lemma_new_link_updates_interface(
    links: Seq<NetworkStatusItem<NetworkLinkStatus>>,
    interfaces: Seq<NetworkStatusItem<NetworkInterfaceStatus>>,
    index: u64,
    status: NetworkLinkStatusView,
    now: u64,
    new_links: Seq<NetworkStatusItem<NetworkLinkStatus>>,
    new_interfaces: Seq<NetworkStatusItem<NetworkInterfaceStatus>>,
    k: int,
)
    requires
        keys_distinct(interfaces),
        after_new_link(links, interfaces, index, status, now, new_links, new_interfaces),
        0 <= k < interfaces.len(),
        interfaces[k].id_view().id == Some(index),
        interfaces[k].status_of()@.network_link_status.device == status.device,
    ensures
        exists|j: int|
            0 <= j < new_interfaces.len() && (#[trigger] new_interfaces[j]).status_of()@.name
                == interfaces[k].status_of()@.name && new_interfaces[j].status_of()@.addresses
                == interfaces[k].status_of()@.addresses
                && new_interfaces[j].status_of()@.network_link_status == status
                && new_interfaces[j].id_view().id == Some(index),
{
    assert(interfaces.contains(interfaces[k]));
    lemma_interface_at(interfaces, index, interfaces[k]);
    let f = interfaces[k];
    let iid = CanonicalNetworkIdView {
        id: Some(index),
        name: f.status_of()@.name,
        device: Some(f.status_of()@.network_link_status.device),
    };
    let st = NetworkInterfaceStatusView { network_link_status: status, ..f.status_of()@ };
    let x = choose|x: NetworkStatusItem<NetworkInterfaceStatus>|
        #![trigger removal(interfaces, iid).0.push(x)]
        x.id_view() == iid && x.status_of()@ == st && x.refreshed_at() == now && new_interfaces
            == removal(interfaces, iid).0.push(x);
    let j = new_interfaces.len() - 1;
    assert(new_interfaces[j] == x);
}

/// After a deleted-link report for a device that no configured link names,
/// no link on that device is known any more; for a device that a configured
/// link names, that link is known as not found.
pub proof fn lemma_deleted_link_links(
    links: Seq<NetworkStatusItem<NetworkLinkStatus>>,
    interfaces: Seq<NetworkStatusItem<NetworkInterfaceStatus>>,
    index: u64,
    status: NetworkLinkStatusView,
    now: u64,
    new_links: Seq<NetworkStatusItem<NetworkLinkStatus>>,
    new_interfaces: Seq<NetworkStatusItem<NetworkInterfaceStatus>>,
)
    requires
        keys_distinct(links),
        after_deleted_link(links, interfaces, index, status, now, new_links, new_interfaces),
    ensures
        status.name is None ==> forall|i: int|
            0 <= i < new_links.len() ==> (#[trigger] new_links[i]).id_view().device != Some(status.device),
        status.name is None ==> new_links.len() <= links.len(),
        status.name is Some ==> exists|j: int|
            0 <= j < new_links.len() && (#[trigger] new_links[j]).status_of()@.name == status.name
                && new_links[j].status_of()@.device == status.device
                && new_links[j].status_of()@.operational_state == NetworkLinkOperationalState::NotFound,
{
    let id = CanonicalNetworkIdView { id: None, name: status.name, device: Some(status.device) };
    crate::platform::interface::database::lemma_removal(links, id);
    if status.name is None {
        assert forall|i: int| 0 <= i < new_links.len() implies (#[trigger] new_links[i]).id_view().device
            != Some(status.device) by {
            assert(!crate::platform::interface::database::shares_key(id, new_links[i].id_view()));
        }
    } else {
        let ls = NetworkLinkStatusView { operational_state: NetworkLinkOperationalState::NotFound, ..status };
        let x = choose|x: NetworkStatusItem<NetworkLinkStatus>|
            #![trigger removal(links, id).0.push(x)]
            x.id_view() == id && x.status_of()@ == ls && x.refreshed_at() == now && new_links
                == removal(links, id).0.push(x);
        assert(new_links[new_links.len() - 1] == x);
    }
}

/// After a deleted-link report, the interface that had the reported device
/// index and sat on the reported device is known, with its name and
/// addresses and its link not found, if it is configured; if it is not, no
/// interface on that device is known any more.
pub proof fn lemma_deleted_link_interface(
    links: Seq<NetworkStatusItem<NetworkLinkStatus>>,
    interfaces: Seq<NetworkStatusItem<NetworkInterfaceStatus>>,
    index: u64,
    status: NetworkLinkStatusView,
    now: u64,
    new_links: Seq<NetworkStatusItem<NetworkLinkStatus>>,
    new_interfaces: Seq<NetworkStatusItem<NetworkInterfaceStatus>>,
    k: int,
)
    requires
        keys_distinct(interfaces),
        after_deleted_link(links, interfaces, index, status, now, new_links, new_interfaces),
        0 <= k < interfaces.len(),
        interfaces[k].id_view().id == Some(index),
        interfaces[k].status_of()@.network_link_status.device == status.device,
    ensures
        interfaces[k].status_of()@.name is Some ==> exists|j: int|
            0 <= j < new_interfaces.len() && (#[trigger] new_interfaces[j]).status_of()@.name
                == interfaces[k].status_of()@.name && new_interfaces[j].status_of()@.addresses
                == interfaces[k].status_of()@.addresses
                && new_interfaces[j].status_of()@.network_link_status.device == status.device
                && (status.name is Some ==> new_interfaces[j].status_of()@.network_link_status.operational_state
                == NetworkLinkOperationalState::NotFound),
        interfaces[k].status_of()@.name is None ==> forall|j: int|
            0 <= j < new_interfaces.len() ==> (#[trigger] new_interfaces[j]).id_view().device != Some(
                status.device,
            ),
{
    assert(interfaces.contains(interfaces[k]));
    lemma_interface_at(interfaces, index, interfaces[k]);
    let f = interfaces[k];
    let iid = CanonicalNetworkIdView {
        id: None,
        name: f.status_of()@.name,
        device: Some(f.status_of()@.network_link_status.device),
    };
    let link_status = if status.name is Some {
        NetworkLinkStatusView { operational_state: NetworkLinkOperationalState::NotFound, ..status }
    } else {
        status
    };
    crate::platform::interface::database::lemma_removal(interfaces, iid);
    if iid.name is Some {
        let st = NetworkInterfaceStatusView { network_link_status: link_status, ..f.status_of()@ };
        let x = choose|x: NetworkStatusItem<NetworkInterfaceStatus>|
            #![trigger removal(interfaces, iid).0.push(x)]
            x.id_view() == iid && x.status_of()@ == st && x.refreshed_at() == now && new_interfaces
                == removal(interfaces, iid).0.push(x);
        assert(new_interfaces[new_interfaces.len() - 1] == x);
    } else {
        assert forall|j: int| 0 <= j < new_interfaces.len() implies (#[trigger] new_interfaces[j]).id_view().device
            != Some(status.device) by {
            assert(!crate::platform::interface::database::shares_key(iid, new_interfaces[j].id_view()));
        }
    }
}

/// After a new-address report for device index `index`, the interface with
/// that index lists the new address and every address it listed before, in
/// order, and keeps its name and link status.
pub proof fn lemma_new_address_listed(
    interfaces: Seq<NetworkStatusItem<NetworkInterfaceStatus>>,
    index: u64,
    address: IpAddressView,
    now: u64,
    new_interfaces: Seq<NetworkStatusItem<NetworkInterfaceStatus>>,
    k: int,
)
    requires
        keys_distinct(interfaces),
        after_new_address(interfaces, index, address, now, new_interfaces),
        0 <= k < interfaces.len(),
        interfaces[k].id_view().id == Some(index),
    ensures
        exists|j: int|
            0 <= j < new_interfaces.len() && (#[trigger] new_interfaces[j]).id_view() == interfaces[k].id_view()
                && new_interfaces[j].status_of()@.name == interfaces[k].status_of()@.name
                && new_interfaces[j].status_of()@.network_link_status
                == interfaces[k].status_of()@.network_link_status
                && new_interfaces[j].status_of()@.addresses.contains(address)
                && (forall|a: IpAddressView| #[trigger] interfaces[k].status_of()@.addresses.contains(a)
                ==> new_interfaces[j].status_of()@.addresses.contains(a))
                && new_interfaces[j].status_of()@.addresses.len() == interfaces[k].status_of()@.addresses.len() + 1
                && addresses_sorted(new_interfaces[j].status_of()@.addresses),
{
    assert(interfaces.contains(interfaces[k]));
    lemma_interface_at(interfaces, index, interfaces[k]);
    let f = interfaces[k];
    let old_addresses = f.status_of()@.addresses.push(address);
    let addresses = choose|addresses: Seq<IpAddressView>|
        #![trigger addresses_sorted(addresses)]
        addresses_sorted(addresses) && is_rearrangement(addresses, old_addresses) && stores_interface(
            interfaces,
            new_interfaces,
            f.id_view(),
            NetworkInterfaceStatusView { addresses, ..f.status_of()@ },
            now,
        );
    let st = NetworkInterfaceStatusView { addresses, ..f.status_of()@ };
    let x = choose|x: NetworkStatusItem<NetworkInterfaceStatus>|
        #![trigger removal(interfaces, f.id_view()).0.push(x)]
        x.id_view() == f.id_view() && x.status_of()@ == st && x.refreshed_at() == now && new_interfaces
            == removal(interfaces, f.id_view()).0.push(x);
    let j = new_interfaces.len() - 1;
    assert(new_interfaces[j] == x);
    let perm = choose|p: Seq<int>|
        is_index_permutation(p, old_addresses.len()) && addresses.len() == old_addresses.len()
            && forall|i: int| 0 <= i < addresses.len() ==> #[trigger] addresses[i] == old_addresses[p[i]];
    let n = old_addresses.len() as int;
    lemma_permutation_onto(perm, old_addresses.len(), n - 1);
    let t = choose|i: int| 0 <= i < n && perm[i] == n - 1;
    assert(addresses[t] == address);
    assert forall|a: IpAddressView| #[trigger] f.status_of()@.addresses.contains(a) implies addresses.contains(a) by {
        let m = choose|m: int| 0 <= m < f.status_of()@.addresses.len() && f.status_of()@.addresses[m] == a;
        lemma_permutation_onto(perm, old_addresses.len(), m);
        let u = choose|i: int| 0 <= i < n && perm[i] == m;
        assert(addresses[u] == old_addresses[m]);
    }
}

/// A permutation of the positions `0..n` reaches each of them.
proof fn lemma_permutation_onto(p: Seq<int>, n: nat, m: int)
    requires
        is_index_permutation(p, n),
        0 <= m < n,
    ensures
        exists|i: int| 0 <= i < n && p[i] == m,
{
    if !(exists|i: int| 0 <= i < n && p[i] == m) {
        let dom = vstd::set_lib::set_int_range(0, n as int);
        vstd::set_lib::lemma_int_range(0, n as int);
        let f = |i: int| p[i];
        let img = dom.map(f);
        assert(vstd::relations::injective_on(f, dom)) by {
            assert forall|a: int, b: int| dom.contains(a) && dom.contains(b) && #[trigger] f(a) == #[trigger] f(b)
                implies a == b by {
                if a != b {
                    assert(p[a] != p[b]);
                }
            }
        }
        vstd::set_lib::lemma_map_size(dom, img, f);
        let rest = dom.remove(m);
        assert(img.subset_of(rest)) by {
            assert forall|v: int| #[trigger] img.contains(v) implies rest.contains(v) by {
                let i = choose|i: int| dom.contains(i) && f(i) == v;
                assert(0 <= p[i] < n);
            }
        }
        assert(dom.contains(m));
        vstd::set_lib::lemma_len_subset(img, rest);
        assert(false);
    }
}

/// After a deleted-address report for device index `index`, the interface
/// with that index lists one copy fewer of the address, and nothing else
/// changes in its list, if it listed the address; otherwise its list is as it
/// was. It keeps its name and link status either way.
pub proof fn lemma_deleted_address_unlisted(
    interfaces: Seq<NetworkStatusItem<NetworkInterfaceStatus>>,
    index: u64,
    address: IpAddressView,
    now: u64,
    new_interfaces: Seq<NetworkStatusItem<NetworkInterfaceStatus>>,
    k: int,
)
    requires
        keys_distinct(interfaces),
        after_deleted_address(interfaces, index, address, now, new_interfaces),
        0 <= k < interfaces.len(),
        interfaces[k].id_view().id == Some(index),
    ensures
        exists|j: int|
            0 <= j < new_interfaces.len() && (#[trigger] new_interfaces[j]).id_view() == interfaces[k].id_view()
                && new_interfaces[j].status_of()@.name == interfaces[k].status_of()@.name
                && new_interfaces[j].status_of()@.network_link_status
                == interfaces[k].status_of()@.network_link_status && (if interfaces[k].status_of()@.addresses.contains(
                address,
            ) {
                new_interfaces[j].status_of()@.addresses.len() + 1 == interfaces[k].status_of()@.addresses.len()
                    && new_interfaces[j].status_of()@.addresses.to_multiset()
                    == interfaces[k].status_of()@.addresses.to_multiset().remove(address)
            } else {
                new_interfaces[j].status_of()@.addresses == interfaces[k].status_of()@.addresses
            }),
{
    broadcast use vstd::seq_lib::group_to_multiset_ensures;
    assert(interfaces.contains(interfaces[k]));
    lemma_interface_at(interfaces, index, interfaces[k]);
    let f = interfaces[k];
    let v = f.status_of()@.addresses;
    let st = NetworkInterfaceStatusView { addresses: without_first(v, address), ..f.status_of()@ };
    let x = choose|x: NetworkStatusItem<NetworkInterfaceStatus>|
        #![trigger removal(interfaces, f.id_view()).0.push(x)]
        x.id_view() == f.id_view() && x.status_of()@ == st && x.refreshed_at() == now && new_interfaces
            == removal(interfaces, f.id_view()).0.push(x);
    let j = new_interfaces.len() - 1;
    assert(new_interfaces[j] == x);
    if v.contains(address) {
        let i0 = choose|i: int| 0 <= i < v.len() && v[i] == address;
        let i = lemma_first_position(v, address, i0);
        lemma_without_first_at(v, address, i);
        assert(v.remove(i) =~= v.take(i) + v.skip(i + 1));
        assert(v.remove(i).to_multiset() == v.to_multiset().remove(v[i]));
    } else {
        assert forall|m: int| 0 <= m < v.len() implies #[trigger] v[m] != address by {
            if v[m] == address {
                assert(v.contains(address));
            }
        }
        lemma_without_first_absent(v, address);
    }
}

/// The first position of `a` in `v`, given any position of it.
proof fn lemma_first_position(v: Seq<IpAddressView>, a: IpAddressView, i0: int) -> (i: int)
    requires
        0 <= i0 < v.len(),
        v[i0] == a,
    ensures
        0 <= i <= i0,
        v[i] == a,
        forall|j: int| 0 <= j < i ==> #[trigger] v[j] != a,
    decreases i0,
{
    if exists|j: int| 0 <= j < i0 && v[j] == a {
        let j = choose|j: int| 0 <= j < i0 && v[j] == a;
        lemma_first_position(v, a, j)
    } else {
        i0
    }
}

/// A link that a new-link report names is known afterwards under its device
/// index, name and device, with the reported status, refreshed when the report
/// came, and no other link shares any of these with it.
pub proof fn lemma_new_link_found(
    links: Seq<NetworkStatusItem<NetworkLinkStatus>>,
    interfaces: Seq<NetworkStatusItem<NetworkInterfaceStatus>>,
    index: u64,
    status: NetworkLinkStatusView,
    now: u64,
    new_links: Seq<NetworkStatusItem<NetworkLinkStatus>>,
    new_interfaces: Seq<NetworkStatusItem<NetworkInterfaceStatus>>,
)
    requires
        keys_distinct(links),
        after_new_link(links, interfaces, index, status, now, new_links, new_interfaces),
    ensures
        new_links.len() > 0,
        new_links.last().id_view() == (CanonicalNetworkIdView {
            id: Some(index),
            name: status.name,
            device: Some(status.device),
        }),
        new_links.last().status_of()@ == status,
        new_links.last().refreshed_at() == now,
        keys_distinct(new_links),
        forall|j: int|
            0 <= j < new_links.len() - 1 ==> !crate::platform::interface::database::shares_key(
                new_links.last().id_view(),
                #[trigger] new_links[j].id_view(),
            ),
{
    let id = CanonicalNetworkIdView { id: Some(index), name: status.name, device: Some(status.device) };
    let x = choose|x: NetworkStatusItem<NetworkLinkStatus>|
        #![trigger removal(links, id).0.push(x)]
        x.id_view() == id && x.status_of()@ == status && x.refreshed_at() == now && new_links == removal(links, id).0.push(x);
    crate::platform::interface::database::lemma_store(links, x);
}

} // verus!
