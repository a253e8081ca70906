//! The periodic scan of the interface manager: from the links and addresses
//! that netlink lists and from the configuration, what links and interfaces
//! there are; then the known items are brought up to date with them.

use vstd::prelude::*;
use crate::model::config::{IpAddress, NetworkInterface, Router};
use crate::model::status::{
    IpAddressView, NetworkInterfaceStatus, NetworkInterfaceStatusView, NetworkLinkOperationalState,
    NetworkLinkStatus, NetworkLinkStatusView, addresses_view, copy_addresses, copy_name,
};
use crate::ordering::{SortKey, is_index_permutation, is_rearrangement, is_sorted, sort_by_key};
use super::listener::addresses_sorted;
use crate::platform::netlink::RouteMessage;
use crate::platform::netlink::processor::{NetlinkMessageProcessor, address_report, link_report};
use super::model::{CanonicalNetworkId, CanonicalNetworkIdView, NetworkStatusItem, same_id};
use super::database::InterfaceManagerDatabase;
use super::reconcile::{item_view, settle, store_all};

verus! {

/// What a list of link messages reports, in order.
pub open spec fn link_reports(links: Map<Seq<char>, Seq<char>>, messages: Seq<RouteMessage>) -> Seq<
    (u64, NetworkLinkStatusView),
>
    decreases messages.len(),
{
    if messages.len() == 0 {
        Seq::empty()
    } else {
        let earlier = link_reports(links, messages.drop_last());
        match link_report(links, messages.last()) {
            Some(report) => earlier.push(report),
            None => earlier,
        }
    }
}

/// What a list of address messages reports, in order.
pub open spec fn address_reports(messages: Seq<RouteMessage>) -> Seq<(u64, (crate::model::config::IpAddressType, Seq<char>, u64))>
    decreases messages.len(),
{
    if messages.len() == 0 {
        Seq::empty()
    } else {
        let earlier = address_reports(messages.drop_last());
        match address_report(messages.last()) {
            Some(report) => earlier.push(report),
            None => earlier,
        }
    }
}

/// Reads the link messages in order, keeping what they report.
fn read_link_reports(processor: &NetlinkMessageProcessor, messages: Vec<RouteMessage>) -> (r: Vec<(u64, NetworkLinkStatus)>)
    ensures
        r@.len() == link_reports(processor.links_by_device(), messages@).len(),
        forall|i: int| 0 <= i < r@.len() ==> (#[trigger] r@[i]).0 == link_reports(processor.links_by_device(), messages@)[i].0
            && r@[i].1@ == link_reports(processor.links_by_device(), messages@)[i].1,
{
    let ghost all = messages@;
    let count = messages.len();
    let mut rest = messages;
    let mut reports: Vec<(u64, NetworkLinkStatus)> = Vec::new();
    let mut k: usize = 0;
    while rest.len() > 0
        invariant
            all.len() == count,
            k + rest@.len() == all.len(),
            rest@ == all.skip(k as int),
            reports@.len() == link_reports(processor.links_by_device(), all.take(k as int)).len(),
            forall|i: int| 0 <= i < reports@.len() ==> (#[trigger] reports@[i]).0 == link_reports(
                processor.links_by_device(),
                all.take(k as int),
            )[i].0 && reports@[i].1@ == link_reports(processor.links_by_device(), all.take(k as int))[i].1,
        decreases rest@.len(),
    {
        let message = rest.remove(0);
        proof {
            assert(all.take(k + 1).drop_last() =~= all.take(k as int));
            assert(all.take(k + 1).last() == message);
        }
        match processor.process_link_message(message) {
            Some(report) => {
                reports.push(report);
            },
            None => {},
        }
        proof {
            assert(rest@ =~= all.skip(k + 1));
        }
        k = k + 1;
    }
    assert(all.take(k as int) =~= all);
    reports
}

/// Reads the address messages in order, keeping what they report.
fn read_address_reports(processor: &NetlinkMessageProcessor, messages: Vec<RouteMessage>) -> (r: Vec<(u64, IpAddress)>)
    ensures
        r@.len() == address_reports(messages@).len(),
        forall|i: int| 0 <= i < r@.len() ==> (#[trigger] r@[i]).0 == address_reports(messages@)[i].0
            && r@[i].1@ == address_reports(messages@)[i].1,
{
    let ghost all = messages@;
    let count = messages.len();
    let mut rest = messages;
    let mut reports: Vec<(u64, IpAddress)> = Vec::new();
    let mut k: usize = 0;
    while rest.len() > 0
        invariant
            all.len() == count,
            k + rest@.len() == all.len(),
            rest@ == all.skip(k as int),
            reports@.len() == address_reports(all.take(k as int)).len(),
            forall|i: int| 0 <= i < reports@.len() ==> (#[trigger] reports@[i]).0 == address_reports(
                all.take(k as int),
            )[i].0 && reports@[i].1@ == address_reports(all.take(k as int))[i].1,
        decreases rest@.len(),
    {
        let message = rest.remove(0);
        proof {
            assert(all.take(k + 1).drop_last() =~= all.take(k as int));
            assert(all.take(k + 1).last() == message);
        }
        match processor.process_address_message(message) {
            Some(report) => {
                reports.push(report);
            },
            None => {},
        }
        proof {
            assert(rest@ =~= all.skip(k + 1));
        }
        k = k + 1;
    }
    assert(all.take(k as int) =~= all);
    reports
}

/// Whether some item of `s` has the identifier `id`.
pub open spec fn has_id<T>(s: Seq<NetworkStatusItem<T>>, id: CanonicalNetworkIdView) -> bool {
    exists|i: int| 0 <= i < s.len() && #[trigger] s[i].id_view() == id
}

/// Whether no two items of `s` have the same identifier.
pub open spec fn ids_distinct<T>(s: Seq<NetworkStatusItem<T>>) -> bool {
    forall|i: int, j: int| 0 <= i < s.len() && 0 <= j < s.len() && i != j ==> #[trigger] s[i].id_view() != #[trigger] s[j].id_view()
}

/// Puts `x` in `items` in place of the item with its identifier, or at the
/// end if there is none.
fn upsert<T>(items: &mut Vec<NetworkStatusItem<T>>, x: NetworkStatusItem<T>)
    requires
        ids_distinct(old(items)@),
    ensures
        ids_distinct(final(items)@),
        has_id(final(items)@, x.id_view()),
        final(items)@.contains(x),
        forall|id: CanonicalNetworkIdView| #[trigger] has_id(old(items)@, id) ==> has_id(final(items)@, id),
        forall|i: int| 0 <= i < final(items)@.len() ==> #[trigger] final(items)@[i] == x || old(items)@.contains(final(items)@[i]),
{
    let ghost before = items@;
    let ghost xid = x.id_view();
    let mut i: usize = 0;
    while i < items.len()
        invariant
            items@ == before,
            before == old(items)@,
            ids_distinct(before),
            i <= items@.len(),
            forall|j: int| 0 <= j < i ==> #[trigger] items@[j].id_view() != xid,
            xid == x.id_view(),
        decreases items@.len() - i,
    {
        if same_id(items[i].get_id(), x.get_id()) {
            assert(before[i as int].id_view() == xid);
            items.remove(i);
            items.insert(i, x);
            proof {
                assert(items@ =~= before.update(i as int, items@[i as int]));
                assert(items@[i as int].id_view() == xid);
                assert forall|a: int, b: int| 0 <= a < items@.len() && 0 <= b < items@.len() && a != b implies #[trigger] items@[a].id_view()
                    != #[trigger] items@[b].id_view() by {
                    if a != i && b != i {
                        assert(items@[a] == before[a] && items@[b] == before[b]);
                    } else if a == i {
                        assert(items@[b] == before[b]);
                        assert(before[i as int].id_view() != before[b].id_view());
                    } else {
                        assert(items@[a] == before[a]);
                        assert(before[i as int].id_view() != before[a].id_view());
                    }
                }
                assert forall|id: CanonicalNetworkIdView| #[trigger] has_id(old(items)@, id) implies has_id(items@, id) by {
                    let j = choose|j: int| 0 <= j < before.len() && #[trigger] before[j].id_view() == id;
                    assert(items@[j].id_view() == id);
                }
                assert forall|j: int| 0 <= j < items@.len() implies #[trigger] items@[j] == x || old(items)@.contains(items@[j]) by {
                    if j != i {
                        assert(items@[j] == before[j]);
                    }
                }
            }
            return;
        }
        i = i + 1;
    }
    items.push(x);
    proof {
        assert forall|id: CanonicalNetworkIdView| #[trigger] has_id(before, id) implies has_id(items@, id) by {
            let j = choose|j: int| 0 <= j < before.len() && #[trigger] before[j].id_view() == id;
            assert(items@[j].id_view() == id);
        }
        assert(items@[before.len() as int].id_view() == xid);
        assert forall|j: int| 0 <= j < items@.len() implies #[trigger] items@[j] == x || before.contains(items@[j]) by {
            if j < before.len() {
                assert(items@[j] == before[j]);
            }
        }
    }
}


/// The identifier under which a reported link is kept.
pub open spec fn report_id(index: u64, status: NetworkLinkStatusView) -> CanonicalNetworkIdView {
    CanonicalNetworkIdView { id: Some(index), name: status.name, device: Some(status.device) }
}

/// The status of a configured link that netlink does not list.
pub open spec fn missing_link_status(name: Seq<char>, device: Seq<char>) -> NetworkLinkStatusView {
    NetworkLinkStatusView { name: Some(name), device, operational_state: NetworkLinkOperationalState::NotFound }
}

/// Whether every link item of `s` was refreshed at `now`, is named as its
/// status is, and, if it has no device index, is a configured link that was
/// not found.
pub open spec fn link_items_consistent(s: Seq<NetworkStatusItem<NetworkLinkStatus>>, now: u64) -> bool {
    forall|i: int|
        0 <= i < s.len() ==> {
            let x = #[trigger] s[i];
            &&& x.refreshed_at() == now
            &&& x.id_view().name == x.status_of()@.name
            &&& x.id_view().id is None ==> x.id_view().device is Some && x.status_of()@
                == missing_link_status(x.id_view().name->0, x.id_view().device->0)
            &&& x.id_view().id is None ==> x.id_view().name is Some
        }
}

/// Whether every interface item of `s` was refreshed at `now` and is named as
/// its status is.
pub open spec fn interface_items_consistent(s: Seq<NetworkStatusItem<NetworkInterfaceStatus>>, now: u64) -> bool {
    forall|i: int|
        0 <= i < s.len() ==> {
            let x = #[trigger] s[i];
            &&& x.refreshed_at() == now
            &&& x.id_view().name == x.status_of()@.name
        }
}

/// Whether some report names the link `name`.
pub open spec fn reported_name(reports: Seq<(u64, NetworkLinkStatusView)>, name: Seq<char>) -> bool {
    exists|k: int| 0 <= k < reports.len() && #[trigger] reports[k].1.name == Some(name)
}

/// The reports by value.
pub open spec fn report_views(reports: Seq<(u64, NetworkLinkStatus)>) -> Seq<(u64, NetworkLinkStatusView)> {
    reports.map_values(|r: (u64, NetworkLinkStatus)| (r.0, r.1@))
}

/// The address reports by value.
pub open spec fn address_views(reports: Seq<(u64, IpAddress)>) -> Seq<(u64, IpAddressView)> {
    reports.map_values(|r: (u64, IpAddress)| (r.0, r.1@))
}

/// Whether the report at `k` is the last of the first `n` with its
/// identifier.
pub open spec fn latest_report(reports: Seq<(u64, NetworkLinkStatusView)>, n: int, k: int) -> bool {
    &&& 0 <= k < n <= reports.len()
    &&& forall|m: int|
        k < m < n ==> #[trigger] report_id(reports[m].0, reports[m].1) != report_id(reports[k].0, reports[k].1)
}

/// Whether `x` is the link of the last of the first `n` reports with its
/// identifier.
pub open spec fn reported_link_item(
    reports: Seq<(u64, NetworkLinkStatusView)>,
    n: int,
    x: NetworkStatusItem<NetworkLinkStatus>,
) -> bool {
    exists|k: int|
        #[trigger] latest_report(reports, n, k) && x.id_view() == report_id(reports[k].0, reports[k].1)
            && x.status_of()@ == reports[k].1
}

/// Whether `x` stands for the configured link at position `j`, which no
/// report names.
pub open spec fn missing_link_item(
    config: Router,
    reports: Seq<(u64, NetworkLinkStatusView)>,
    j: int,
    x: NetworkStatusItem<NetworkLinkStatus>,
) -> bool {
    let entries = config.links().entries_view();
    &&& 0 <= j < entries.len()
    &&& !reported_name(reports, entries[j].0@)
    &&& x.id_view() == CanonicalNetworkIdView {
        id: None,
        name: Some(entries[j].0@),
        device: Some(entries[j].1.device()@),
    }
}

/// The addresses that the reports list on the link of device index
/// `index`, in order.
pub open spec fn addresses_at(reports: Seq<(u64, IpAddressView)>, index: u64) -> Seq<IpAddressView>
    decreases reports.len(),
{
    if reports.len() == 0 {
        Seq::empty()
    } else {
        let earlier = addresses_at(reports.drop_last(), index);
        if reports.last().0 == index {
            earlier.push(reports.last().1)
        } else {
            earlier
        }
    }
}

/// The position of the last report that names the link `name`.
pub open spec fn last_report_named(reports: Seq<(u64, NetworkLinkStatusView)>, name: Seq<char>) -> Option<int>
    decreases reports.len(),
{
    if reports.len() == 0 {
        None
    } else if reports.last().1.name == Some(name) {
        Some(reports.len() - 1)
    } else {
        last_report_named(reports.drop_last(), name)
    }
}

/// The position of the last report of device index `index`.
pub open spec fn last_report_at(reports: Seq<(u64, NetworkLinkStatusView)>, index: u64) -> Option<int>
    decreases reports.len(),
{
    if reports.len() == 0 {
        None
    } else if reports.last().0 == index {
        Some(reports.len() - 1)
    } else {
        last_report_at(reports.drop_last(), index)
    }
}

/// The position of the last configured interface on the link `link`.
pub open spec fn last_interface_on(entries: Seq<(String, NetworkInterface)>, link: Seq<char>) -> Option<int>
    decreases entries.len(),
{
    if entries.len() == 0 {
        None
    } else if entries.last().1.link()@ == link {
        Some(entries.len() - 1)
    } else {
        last_interface_on(entries.drop_last(), link)
    }
}

/// Whether the configured interface at position `m` is on a listed link of
/// device index `index`, and so takes the addresses listed for it.
pub open spec fn claims(config: Router, reports: Seq<(u64, NetworkLinkStatusView)>, m: int, index: u64) -> bool {
    match last_report_named(reports, config.interfaces().entries_view()[m].1.link()@) {
        Some(k) => reports[k].0 == index,
        None => false,
    }
}

/// Whether one of the first `j` configured interfaces takes the addresses
/// of device index `index`.
pub open spec fn claimed(config: Router, reports: Seq<(u64, NetworkLinkStatusView)>, j: int, index: u64) -> bool {
    exists|m: int| 0 <= m < j && #[trigger] claims(config, reports, m, index)
}

/// Whether `s` holds the addresses of `group`, in the order in which
/// addresses are listed.
pub open spec fn sorted_from(s: Seq<IpAddressView>, group: Seq<IpAddressView>) -> bool {
    is_rearrangement(s, group) && addresses_sorted(s)
}

/// Whether `x` is what a scan finds of the configured interface at position
/// `j`: on its link if a report names it, with the addresses listed for the
/// link's device index unless an earlier configured interface takes them;
/// otherwise without addresses, not found if its link is configured and it
/// is the last interface on it, misconfigured if not.
pub open spec fn configured_interface_item(
    config: Router,
    reports: Seq<(u64, NetworkLinkStatusView)>,
    areports: Seq<(u64, IpAddressView)>,
    j: int,
    x: NetworkStatusItem<NetworkInterfaceStatus>,
    now: u64,
) -> bool {
    let entries = config.interfaces().entries_view();
    let name = entries[j].0@;
    let link = entries[j].1.link()@;
    let s = x.status_of()@;
    &&& 0 <= j < entries.len()
    &&& x.refreshed_at() == now
    &&& s.name == Some(name)
    &&& x.id_view().name == Some(name)
    &&& match last_report_named(reports, link) {
        Some(k) => {
            &&& x.id_view().id == Some(reports[k].0)
            &&& x.id_view().device == Some(reports[k].1.device)
            &&& s.network_link_status == reports[k].1
            &&& if claimed(config, reports, j, reports[k].0) {
                s.addresses.len() == 0
            } else {
                sorted_from(s.addresses, addresses_at(areports, reports[k].0))
            }
        },
        None => {
            &&& x.id_view().id is None
            &&& s.addresses.len() == 0
            &&& if config.links()@.contains_key(link) {
                let device = config.links()@[link].device()@;
                &&& x.id_view().device == Some(device)
                &&& s.network_link_status == NetworkLinkStatusView {
                    name: Some(link),
                    device,
                    operational_state: if last_interface_on(entries, link) == Some(j) {
                        NetworkLinkOperationalState::NotFound
                    } else {
                        NetworkLinkOperationalState::Misconfigured
                    },
                }
            } else {
                &&& x.id_view().device is None
                &&& s.network_link_status == NetworkLinkStatusView {
                    name: Some(link),
                    device: Seq::empty(),
                    operational_state: NetworkLinkOperationalState::Misconfigured,
                }
            }
        },
    }
}

/// Whether `x` is what a scan finds of a listed link with addresses that no
/// configured interface takes: an unnamed interface with those addresses,
/// on the last link listed with the device index.
pub open spec fn address_only_item(
    config: Router,
    reports: Seq<(u64, NetworkLinkStatusView)>,
    areports: Seq<(u64, IpAddressView)>,
    x: NetworkStatusItem<NetworkInterfaceStatus>,
    now: u64,
) -> bool {
    let s = x.status_of()@;
    &&& x.refreshed_at() == now
    &&& x.id_view().name is None
    &&& s.name is None
    &&& x.id_view().id is Some
    &&& addresses_at(areports, x.id_view().id->0).len() > 0
    &&& !claimed(config, reports, config.interfaces().entries_view().len() as int, x.id_view().id->0)
    &&& last_report_at(reports, x.id_view().id->0) is Some
    &&& x.id_view().device == Some(reports[last_report_at(reports, x.id_view().id->0)->0].1.device)
    &&& s.network_link_status == reports[last_report_at(reports, x.id_view().id->0)->0].1
    &&& sorted_from(s.addresses, addresses_at(areports, x.id_view().id->0))
}

/// Whether some item of `s` is what a scan finds of the configured interface
/// at `j`.
pub open spec fn has_configured_item(
    config: Router,
    reports: Seq<(u64, NetworkLinkStatusView)>,
    areports: Seq<(u64, IpAddressView)>,
    s: Seq<NetworkStatusItem<NetworkInterfaceStatus>>,
    j: int,
    now: u64,
) -> bool {
    exists|i: int| 0 <= i < s.len() && configured_interface_item(config, reports, areports, j, #[trigger] s[i], now)
}

/// Whether some item of `s` is unnamed and of device index `index`.
pub open spec fn has_unnamed_at<T>(s: Seq<NetworkStatusItem<T>>, index: u64) -> bool {
    exists|i: int| 0 <= i < s.len() && (#[trigger] s[i]).id_view().name is None && s[i].id_view().id == Some(index)
}

/// Whether `links` and `interfaces` are what a scan finds from the
/// configuration, the link and address messages and the time (see
/// `gather_scan`).
pub open spec fn scan_found(
    config: Router,
    processor_links: Map<Seq<char>, Seq<char>>,
    link_data: Seq<RouteMessage>,
    network_data: Seq<RouteMessage>,
    links: Seq<NetworkStatusItem<NetworkLinkStatus>>,
    interfaces: Seq<NetworkStatusItem<NetworkInterfaceStatus>>,
    now: u64,
) -> bool {
    let reports = link_reports(processor_links, link_data);
    let areports = address_reports(network_data);
    let n = config.interfaces().entries_view().len() as int;
    &&& ids_distinct(links)
    &&& link_items_consistent(links, now)
    &&& forall|k: int| 0 <= k < reports.len() ==> has_id(links, #[trigger] report_id(reports[k].0, reports[k].1))
    &&& forall|j: int|
        0 <= j < config.links().entries_view().len() && !reported_name(
            reports,
            #[trigger] config.links().entries_view()[j].0@,
        ) ==> has_id(
            links,
            CanonicalNetworkIdView {
                id: None,
                name: Some(config.links().entries_view()[j].0@),
                device: Some(config.links().entries_view()[j].1.device()@),
            },
        )
    &&& forall|i: int|
        0 <= i < links.len() && (#[trigger] links[i]).id_view().id is Some ==> reported_link_item(
            reports,
            reports.len() as int,
            links[i],
        )
    &&& forall|i: int|
        0 <= i < links.len() && (#[trigger] links[i]).id_view().id is None ==> exists|j: int|
            missing_link_item(config, reports, j, links[i])
    &&& ids_distinct(interfaces)
    &&& interface_items_consistent(interfaces, now)
    &&& forall|j: int| 0 <= j < n ==> #[trigger] has_configured_item(config, reports, areports, interfaces, j, now)
    &&& forall|i: int|
        0 <= i < interfaces.len() && (#[trigger] interfaces[i]).id_view().name is Some ==> exists|j: int|
            configured_interface_item(config, reports, areports, j, interfaces[i], now)
    &&& forall|i: int|
        0 <= i < interfaces.len() && (#[trigger] interfaces[i]).id_view().name is None ==> address_only_item(
            config,
            reports,
            areports,
            interfaces[i],
            now,
        )
    &&& forall|index: u64|
        #[trigger] addresses_at(areports, index).len() > 0 && !claimed(config, reports, n, index) && last_report_at(
            reports,
            index,
        ) is Some ==> has_unnamed_at(interfaces, index)
}

/// A scan finds every configured link that no link message names as not
/// found, under its configured name and device, refreshed at the scan; and
/// every link it finds with a device index is one that a link message
/// reports, with the status reported.
pub proof fn lemma_scan_links(
    config: Router,
    processor_links: Map<Seq<char>, Seq<char>>,
    link_data: Seq<RouteMessage>,
    network_data: Seq<RouteMessage>,
    links: Seq<NetworkStatusItem<NetworkLinkStatus>>,
    interfaces: Seq<NetworkStatusItem<NetworkInterfaceStatus>>,
    now: u64,
    j: int,
)
    requires
        scan_found(config, processor_links, link_data, network_data, links, interfaces, now),
        0 <= j < config.links().entries_view().len(),
        !reported_name(link_reports(processor_links, link_data), config.links().entries_view()[j].0@),
    ensures
        exists|i: int|
            0 <= i < links.len() && (#[trigger] links[i]).status_of()@ == (NetworkLinkStatusView {
                name: Some(config.links().entries_view()[j].0@),
                device: config.links().entries_view()[j].1.device()@,
                operational_state: NetworkLinkOperationalState::NotFound,
            }) && links[i].refreshed_at() == now,
        forall|i: int|
            0 <= i < links.len() && (#[trigger] links[i]).id_view().id is Some ==> exists|k: int|
                0 <= k < link_reports(processor_links, link_data).len() && links[i].status_of()@
                    == link_reports(processor_links, link_data)[k].1 && links[i].id_view().id == Some(
                    link_reports(processor_links, link_data)[k].0,
                ),
{
    let reports = link_reports(processor_links, link_data);
    let entries = config.links().entries_view();
    let id = CanonicalNetworkIdView { id: None, name: Some(entries[j].0@), device: Some(entries[j].1.device()@) };
    assert(has_id(links, id));
    let i = choose|i: int| 0 <= i < links.len() && #[trigger] links[i].id_view() == id;
    assert(links[i].id_view() == id);
    assert forall|i: int| 0 <= i < links.len() && (#[trigger] links[i]).id_view().id is Some implies exists|k: int|
        0 <= k < reports.len() && links[i].status_of()@ == reports[k].1 && links[i].id_view().id == Some(reports[k].0) by {
        assert(reported_link_item(reports, reports.len() as int, links[i]));
        let k = choose|k: int|
            #[trigger] latest_report(reports, reports.len() as int, k) && links[i].id_view() == report_id(
                reports[k].0,
                reports[k].1,
            ) && links[i].status_of()@ == reports[k].1;
        assert(0 <= k < reports.len());
    }
}

/// The position of the last listed link whose status names it `name`.
fn last_link_named(listed: &Vec<NetworkStatusItem<NetworkLinkStatus>>, name: &String) -> (r: Option<usize>)
    ensures
        match r {
            Some(i) => i < listed@.len() && listed@[i as int].status_of()@.name == Some(name@) && forall|j: int|
                i < j < listed@.len() ==> #[trigger] listed@[j].status_of()@.name != Some(name@),
            None => forall|j: int| 0 <= j < listed@.len() ==> #[trigger] listed@[j].status_of()@.name != Some(name@),
        },
{
    let mut i: usize = listed.len();
    while i > 0
        invariant
            i <= listed@.len(),
            forall|j: int| i <= j < listed@.len() ==> #[trigger] listed@[j].status_of()@.name != Some(name@),
        decreases i,
    {
        i = i - 1;
        match listed[i].get_status().get_name() {
            Some(n) => {
                if *n == *name {
                    return Some(i);
                }
            },
            None => {},
        }
    }
    None
}


/// The links that netlink lists, as items refreshed at `now`, in the order
/// listed; and the same keyed by identifier, a later one replacing an earlier.
fn link_items(reports: &Vec<(u64, NetworkLinkStatus)>, now: u64) -> (r: (
    Vec<NetworkStatusItem<NetworkLinkStatus>>,
    Vec<NetworkStatusItem<NetworkLinkStatus>>,
))
    ensures
        r.0@.len() == reports@.len(),
        forall|k: int|
            0 <= k < reports@.len() ==> (#[trigger] r.0@[k]).id_view() == report_id(reports@[k].0, reports@[k].1@)
                && r.0@[k].status_of()@ == reports@[k].1@ && r.0@[k].refreshed_at() == now,
        ids_distinct(r.1@),
        link_items_consistent(r.1@, now),
        forall|k: int| 0 <= k < reports@.len() ==> has_id(r.1@, #[trigger] report_id(reports@[k].0, reports@[k].1@)),
        forall|i: int| 0 <= i < r.1@.len() ==> (#[trigger] r.1@[i]).id_view().id is Some,
        forall|i: int|
            0 <= i < r.1@.len() ==> reported_link_item(report_views(reports@), reports@.len() as int, #[trigger] r.1@[i]),
{
    let ghost rv = report_views(reports@);
    let mut listed: Vec<NetworkStatusItem<NetworkLinkStatus>> = Vec::new();
    let mut keyed: Vec<NetworkStatusItem<NetworkLinkStatus>> = Vec::new();
    let mut k: usize = 0;
    while k < reports.len()
        invariant
            k <= reports@.len(),
            rv == report_views(reports@),
            listed@.len() == k,
            forall|j: int|
                0 <= j < k ==> (#[trigger] listed@[j]).id_view() == report_id(reports@[j].0, reports@[j].1@)
                    && listed@[j].status_of()@ == reports@[j].1@ && listed@[j].refreshed_at() == now,
            ids_distinct(keyed@),
            link_items_consistent(keyed@, now),
            forall|j: int| 0 <= j < k ==> has_id(keyed@, #[trigger] report_id(reports@[j].0, reports@[j].1@)),
            forall|i: int| 0 <= i < keyed@.len() ==> (#[trigger] keyed@[i]).id_view().id is Some,
            forall|i: int| 0 <= i < keyed@.len() ==> reported_link_item(rv, k as int, #[trigger] keyed@[i]),
        decreases reports@.len() - k,
    {
        let (index, status) = &reports[k];
        let id = CanonicalNetworkId::new(Some(*index), copy_name(status.get_name()), Some(status.get_device().clone()));
        let item = NetworkStatusItem::new_with_refresh(id, status.clone(), now);
        let copy = NetworkStatusItem::new_with_refresh(item.get_id().clone(), status.clone(), now);
        listed.push(item);
        let ghost before = keyed@;
        upsert(&mut keyed, copy);
        proof {
            assert(rv[k as int] == (reports@[k as int].0, reports@[k as int].1@));
            assert forall|i: int| 0 <= i < keyed@.len() implies (#[trigger] keyed@[i]).id_view().id is Some by {
                if keyed@[i] != copy {
                    let j = choose|j: int| 0 <= j < before.len() && before[j] == keyed@[i];
                }
            }
            assert forall|i: int| 0 <= i < keyed@.len() implies {
                let x = #[trigger] keyed@[i];
                &&& x.refreshed_at() == now
                &&& x.id_view().name == x.status_of()@.name
                &&& x.id_view().id is None ==> x.id_view().device is Some && x.status_of()@
                    == missing_link_status(x.id_view().name->0, x.id_view().device->0)
                &&& x.id_view().id is None ==> x.id_view().name is Some
            } by {
                if keyed@[i] != copy {
                    let j = choose|j: int| 0 <= j < before.len() && before[j] == keyed@[i];
                }
            }
            assert forall|i: int| 0 <= i < keyed@.len() implies reported_link_item(rv, k + 1, #[trigger] keyed@[i]) by {
                if keyed@[i] == copy {
                    assert(latest_report(rv, k + 1, k as int));
                } else {
                    let j = choose|j: int| 0 <= j < before.len() && before[j] == keyed@[i];
                    assert(reported_link_item(rv, k as int, before[j]));
                    let k0 = choose|k0: int|
                        #[trigger] latest_report(rv, k as int, k0) && before[j].id_view() == report_id(rv[k0].0, rv[k0].1)
                            && before[j].status_of()@ == rv[k0].1;
                    let ix = choose|ix: int| 0 <= ix < keyed@.len() && keyed@[ix] == copy;
                    assert(ix != i);
                    assert(keyed@[i].id_view() != keyed@[ix].id_view());
                    assert(latest_report(rv, k + 1, k0));
                }
            }
        }
        k = k + 1;
    }
    (listed, keyed)
}

/// The last report naming `name` is the one that a search from the end
/// finds.
proof fn lemma_last_report_named(reports: Seq<(u64, NetworkLinkStatusView)>, name: Seq<char>, found: Option<int>)
    requires
        match found {
            Some(i) => 0 <= i < reports.len() && reports[i].1.name == Some(name) && forall|j: int|
                i < j < reports.len() ==> #[trigger] reports[j].1.name != Some(name),
            None => forall|j: int| 0 <= j < reports.len() ==> #[trigger] reports[j].1.name != Some(name),
        },
    ensures
        last_report_named(reports, name) == found,
        found is None ==> !reported_name(reports, name),
    decreases reports.len(),
{
    if reports.len() > 0 {
        let last = reports.len() - 1;
        let rest = reports.drop_last();
        if reports.last().1.name == Some(name) {
            match found {
                Some(i) => {
                    if i < last {
                        assert(reports[last].1.name != Some(name));
                    }
                },
                None => {
                    assert(reports[last].1.name != Some(name));
                },
            }
        } else {
            match found {
                Some(i) => {
                    assert(i != last);
                    assert forall|j: int| i < j < rest.len() implies #[trigger] rest[j].1.name != Some(name) by {
                        assert(rest[j] == reports[j]);
                    }
                    lemma_last_report_named(rest, name, found);
                },
                None => {
                    assert forall|j: int| 0 <= j < rest.len() implies #[trigger] rest[j].1.name != Some(name) by {
                        assert(rest[j] == reports[j]);
                    }
                    lemma_last_report_named(rest, name, found);
                },
            }
        }
    }
}

/// The last report of device index `index` is the one that a search from
/// the end finds.
proof fn lemma_last_report_at(reports: Seq<(u64, NetworkLinkStatusView)>, index: u64, found: Option<int>)
    requires
        match found {
            Some(i) => 0 <= i < reports.len() && reports[i].0 == index && forall|j: int|
                i < j < reports.len() ==> #[trigger] reports[j].0 != index,
            None => forall|j: int| 0 <= j < reports.len() ==> #[trigger] reports[j].0 != index,
        },
    ensures
        last_report_at(reports, index) == found,
    decreases reports.len(),
{
    if reports.len() > 0 {
        let last = reports.len() - 1;
        let rest = reports.drop_last();
        if reports.last().0 == index {
            match found {
                Some(i) => {
                    if i < last {
                        assert(reports[last].0 != index);
                    }
                },
                None => {
                    assert(reports[last].0 != index);
                },
            }
        } else {
            match found {
                Some(i) => {
                    assert(i != last);
                    assert forall|j: int| i < j < rest.len() implies #[trigger] rest[j].0 != index by {
                        assert(rest[j] == reports[j]);
                    }
                    lemma_last_report_at(rest, index, found);
                },
                None => {
                    assert forall|j: int| 0 <= j < rest.len() implies #[trigger] rest[j].0 != index by {
                        assert(rest[j] == reports[j]);
                    }
                    lemma_last_report_at(rest, index, found);
                },
            }
        }
    }
}

/// The last configured interface on `link` is the one that a search from
/// the end finds.
proof fn lemma_last_interface_on(entries: Seq<(String, NetworkInterface)>, link: Seq<char>, found: Option<int>)
    requires
        match found {
            Some(i) => 0 <= i < entries.len() && entries[i].1.link()@ == link && forall|j: int|
                i < j < entries.len() ==> #[trigger] entries[j].1.link()@ != link,
            None => forall|j: int| 0 <= j < entries.len() ==> #[trigger] entries[j].1.link()@ != link,
        },
    ensures
        last_interface_on(entries, link) == found,
    decreases entries.len(),
{
    if entries.len() > 0 {
        let last = entries.len() - 1;
        let rest = entries.drop_last();
        if entries.last().1.link()@ == link {
            match found {
                Some(i) => {
                    if i < last {
                        assert(entries[last].1.link()@ != link);
                    }
                },
                None => {
                    assert(entries[last].1.link()@ != link);
                },
            }
        } else {
            match found {
                Some(i) => {
                    assert(i != last);
                    assert forall|j: int| i < j < rest.len() implies #[trigger] rest[j].1.link()@ != link by {
                        assert(rest[j] == entries[j]);
                    }
                    lemma_last_interface_on(rest, link, found);
                },
                None => {
                    assert forall|j: int| 0 <= j < rest.len() implies #[trigger] rest[j].1.link()@ != link by {
                        assert(rest[j] == entries[j]);
                    }
                    lemma_last_interface_on(rest, link, found);
                },
            }
        }
    }
}

/// One more configured interface takes the addresses it claims.
proof fn lemma_claimed_step(config: Router, reports: Seq<(u64, NetworkLinkStatusView)>, j: int, index: u64)
    requires
        0 <= j,
    ensures
        claimed(config, reports, j + 1, index) == (claimed(config, reports, j, index) || claims(
            config,
            reports,
            j,
            index,
        )),
{
    if claimed(config, reports, j, index) {
        let m = choose|m: int| 0 <= m < j && #[trigger] claims(config, reports, m, index);
        assert(0 <= m < j + 1 && claims(config, reports, m, index));
    }
    if claimed(config, reports, j + 1, index) && !claims(config, reports, j, index) {
        let m = choose|m: int| 0 <= m < j + 1 && #[trigger] claims(config, reports, m, index);
        assert(m != j);
    }
}

/// Sorting a list of addresses sorts their views.
proof fn lemma_sorted_views(sorted: Seq<IpAddress>, unsorted: Seq<IpAddress>)
    requires
        is_rearrangement(sorted, unsorted),
        is_sorted(sorted),
    ensures
        sorted_from(addresses_view(sorted), addresses_view(unsorted)),
{
    let p = choose|p: Seq<int>|
        is_index_permutation(p, unsorted.len()) && sorted.len() == unsorted.len() && forall|i: int|
            0 <= i < sorted.len() ==> #[trigger] sorted[i] == unsorted[p[i]];
    assert forall|i: int| 0 <= i < addresses_view(sorted).len() implies #[trigger] addresses_view(sorted)[i]
        == addresses_view(unsorted)[p[i]] by {
        assert(sorted[i] == unsorted[p[i]]);
    }
    assert(addresses_view(unsorted).len() == unsorted.len());
    assert(addresses_view(sorted).len() == sorted.len());
    assert(is_index_permutation(p, addresses_view(unsorted).len()));
    assert(is_rearrangement(addresses_view(sorted), addresses_view(unsorted)));
    assert forall|i: int, j: int| 0 <= i < j < addresses_view(sorted).len() implies crate::model::status::address_le(
        #[trigger] addresses_view(sorted)[i],
        #[trigger] addresses_view(sorted)[j],
    ) by {
        assert(sorted[i].sorts_no_later(&sorted[j]));
    }
}

/// No addresses are the sorted form of no addresses.
proof fn lemma_sorted_empty(group: Seq<IpAddressView>)
    requires
        group.len() == 0,
    ensures
        sorted_from(Seq::<IpAddressView>::empty(), group),
{
    let p = Seq::<int>::empty();
    assert(is_index_permutation(p, 0));
    assert(is_rearrangement(Seq::<IpAddressView>::empty(), group));
}

/// Whether `groups` holds, once for each device index, the addresses listed
/// for it, and only indexes with addresses.
spec fn groups_exact(groups: Seq<(u64, Vec<IpAddress>)>, areports: Seq<(u64, IpAddressView)>) -> bool {
    &&& forall|a: int, b: int|
        0 <= a < groups.len() && 0 <= b < groups.len() && a != b ==> #[trigger] groups[a].0 != #[trigger] groups[b].0
    &&& forall|a: int|
        0 <= a < groups.len() ==> addresses_view((#[trigger] groups[a]).1@) == addresses_at(areports, groups[a].0)
            && addresses_at(areports, groups[a].0).len() > 0
}

/// The listed addresses grouped by device index, in the order in which the
/// indexes first appear.
fn group_addresses(reports: &Vec<(u64, IpAddress)>) -> (r: Vec<(u64, Vec<IpAddress>)>)
    ensures
        groups_exact(r@, address_views(reports@)),
        forall|index: u64|
            #[trigger] addresses_at(address_views(reports@), index).len() > 0 ==> exists|a: int|
                0 <= a < r@.len() && #[trigger] r@[a].0 == index,
{
    let ghost all = address_views(reports@);
    let mut groups: Vec<(u64, Vec<IpAddress>)> = Vec::new();
    let mut k: usize = 0;
    while k < reports.len()
        invariant
            k <= reports@.len(),
            all == address_views(reports@),
            groups_exact(groups@, all.take(k as int)),
            forall|index: u64|
                #[trigger] addresses_at(all.take(k as int), index).len() > 0 ==> exists|a: int|
                    0 <= a < groups@.len() && #[trigger] groups@[a].0 == index,
        decreases reports@.len() - k,
    {
        let index = reports[k].0;
        let address = reports[k].1.clone();
        let ghost before = groups@;
        let ghost prev = all.take(k as int);
        let ghost next = all.take(k + 1);
        proof {
            assert(next.drop_last() =~= prev);
            assert(next.last() == (index, address@));
        }
        add_to_group(&mut groups, index, address);
        proof {
            assert forall|i: u64| #[trigger] addresses_at(next, i) == if i == index {
                addresses_at(prev, i).push(address@)
            } else {
                addresses_at(prev, i)
            } by {}
            if exists|i: int|
                0 <= i < before.len() && #[trigger] before[i].0 == index && (forall|j: int|
                    0 <= j < i ==> #[trigger] before[j].0 != index) && groups@.len() == before.len()
                    && groups@[i].0 == index && groups@[i].1@ == before[i].1@.push(address)
                    && forall|j: int| 0 <= j < before.len() && j != i ==> #[trigger] groups@[j] == before[j] {
                let i = choose|i: int|
                    0 <= i < before.len() && #[trigger] before[i].0 == index && (forall|j: int|
                        0 <= j < i ==> #[trigger] before[j].0 != index) && groups@.len() == before.len()
                        && groups@[i].0 == index && groups@[i].1@ == before[i].1@.push(address)
                        && forall|j: int| 0 <= j < before.len() && j != i ==> #[trigger] groups@[j] == before[j];
                assert(addresses_view(before[i].1@.push(address)) =~= addresses_view(before[i].1@).push(address@));
                assert forall|a: int| 0 <= a < groups@.len() implies #[trigger] groups@[a].0 == before[a].0 by {
                    if a != i {
                        assert(groups@[a] == before[a]);
                    }
                }
                assert forall|a: int, b: int|
                    0 <= a < groups@.len() && 0 <= b < groups@.len() && a != b implies #[trigger] groups@[a].0
                    != #[trigger] groups@[b].0 by {
                    assert(groups@[a].0 == before[a].0);
                    assert(groups@[b].0 == before[b].0);
                }
                assert forall|a: int| 0 <= a < groups@.len() implies addresses_view((#[trigger] groups@[a]).1@)
                    == addresses_at(next, groups@[a].0) && addresses_at(next, groups@[a].0).len() > 0 by {
                    if a != i {
                        assert(groups@[a] == before[a]);
                        assert(before[a].0 != before[i].0);
                    }
                }
                assert forall|idx: u64| #[trigger] addresses_at(next, idx).len() > 0 implies exists|a: int|
                    0 <= a < groups@.len() && #[trigger] groups@[a].0 == idx by {
                    if idx == index {
                        assert(groups@[i].0 == idx);
                    } else {
                        assert(addresses_at(prev, idx).len() > 0);
                        let a = choose|a: int| 0 <= a < before.len() && #[trigger] before[a].0 == idx;
                        assert(groups@[a].0 == idx);
                    }
                }
            } else {
                let n = before.len() as int;
                assert(forall|j: int| 0 <= j < before.len() ==> #[trigger] before[j].0 != index);
                assert(addresses_at(prev, index).len() == 0) by {
                    if addresses_at(prev, index).len() > 0 {
                        let a = choose|a: int| 0 <= a < before.len() && #[trigger] before[a].0 == index;
                    }
                }
                assert(addresses_view(groups@[n].1@) =~= addresses_at(next, index));
                assert forall|a: int, b: int|
                    0 <= a < groups@.len() && 0 <= b < groups@.len() && a != b implies #[trigger] groups@[a].0
                    != #[trigger] groups@[b].0 by {
                    if a < n && b < n {
                        assert(groups@[a] == before[a] && groups@[b] == before[b]);
                    } else if a < n {
                        assert(groups@[a] == before[a]);
                    } else {
                        assert(groups@[b] == before[b]);
                    }
                }
                assert forall|a: int| 0 <= a < groups@.len() implies addresses_view((#[trigger] groups@[a]).1@)
                    == addresses_at(next, groups@[a].0) && addresses_at(next, groups@[a].0).len() > 0 by {
                    if a < n {
                        assert(groups@[a] == before[a]);
                    }
                }
                assert forall|idx: u64| #[trigger] addresses_at(next, idx).len() > 0 implies exists|a: int|
                    0 <= a < groups@.len() && #[trigger] groups@[a].0 == idx by {
                    if idx == index {
                        assert(groups@[n].0 == idx);
                    } else {
                        assert(addresses_at(prev, idx).len() > 0);
                        let a = choose|a: int| 0 <= a < before.len() && #[trigger] before[a].0 == idx;
                        assert(groups@[a] == before[a]);
                    }
                }
            }
        }
        k = k + 1;
    }
    assert(all.take(reports@.len() as int) =~= all);
    groups
}

/// Adds an address to the group of its link's index, opening a group at the
/// end for an index not seen yet.
fn add_to_group(groups: &mut Vec<(u64, Vec<IpAddress>)>, index: u64, address: IpAddress)
    ensures
        (exists|i: int|
            0 <= i < old(groups)@.len() && #[trigger] old(groups)@[i].0 == index && (forall|j: int|
                0 <= j < i ==> #[trigger] old(groups)@[j].0 != index) && final(groups)@.len() == old(groups)@.len()
                && final(groups)@[i].0 == index && final(groups)@[i].1@ == old(groups)@[i].1@.push(address)
                && forall|j: int| 0 <= j < old(groups)@.len() && j != i ==> #[trigger] final(groups)@[j] == old(groups)@[j])
            || ((forall|j: int| 0 <= j < old(groups)@.len() ==> #[trigger] old(groups)@[j].0 != index)
            && final(groups)@.len() == old(groups)@.len() + 1 && (forall|j: int|
            0 <= j < old(groups)@.len() ==> #[trigger] final(groups)@[j] == old(groups)@[j])
            && final(groups)@[old(groups)@.len() as int].0 == index
            && final(groups)@[old(groups)@.len() as int].1@ == seq![address]),
{
    let mut i: usize = 0;
    while i < groups.len()
        invariant
            i <= groups@.len(),
            groups@ == old(groups)@,
            forall|j: int| 0 <= j < i ==> #[trigger] groups@[j].0 != index,
        decreases groups@.len() - i,
    {
        if groups[i].0 == index {
            let ghost before = groups@;
            let (g, mut addresses) = groups.remove(i);
            addresses.push(address);
            groups.insert(i, (g, addresses));
            proof {
                assert forall|j: int| 0 <= j < before.len() && j != i implies #[trigger] groups@[j] == before[j] by {}
                assert(before[i as int].0 == index);
            }
            return;
        }
        i = i + 1;
    }
    let mut addresses = Vec::new();
    addresses.push(address);
    groups.push((index, addresses));
    assert(addresses@ =~= seq![address]);
}

/// Takes out the first group of addresses of `index`, if there is one.
fn take_group(groups: &mut Vec<(u64, Vec<IpAddress>)>, index: u64) -> (r: Option<Vec<IpAddress>>)
    ensures
        match r {
            Some(addresses) => exists|i: int|
                0 <= i < old(groups)@.len() && #[trigger] old(groups)@[i].0 == index && (forall|j: int|
                    0 <= j < i ==> #[trigger] old(groups)@[j].0 != index) && final(groups)@ == old(groups)@.remove(i)
                    && addresses == old(groups)@[i].1,
            None => final(groups)@ == old(groups)@ && forall|j: int| 0 <= j < old(groups)@.len() ==> #[trigger] old(groups)@[j].0 != index,
        },
{
    let mut i: usize = 0;
    while i < groups.len()
        invariant
            i <= groups@.len(),
            groups@ == old(groups)@,
            forall|j: int| 0 <= j < i ==> #[trigger] groups@[j].0 != index,
        decreases groups@.len() - i,
    {
        if groups[i].0 == index {
            let (_, addresses) = groups.remove(i);
            return Some(addresses);
        }
        i = i + 1;
    }
    None
}


/// Upserting a link item of a configured link that was not found keeps the
/// link items consistent.
proof fn lemma_upsert_links(
    before: Seq<NetworkStatusItem<NetworkLinkStatus>>,
    after: Seq<NetworkStatusItem<NetworkLinkStatus>>,
    x: NetworkStatusItem<NetworkLinkStatus>,
    now: u64,
)
    requires
        link_items_consistent(before, now),
        x.refreshed_at() == now,
        x.id_view().name == x.status_of()@.name,
        x.id_view().id is None,
        x.id_view().name is Some,
        x.id_view().device is Some,
        x.status_of()@ == missing_link_status(x.id_view().name->0, x.id_view().device->0),
        forall|i: int| 0 <= i < after.len() ==> #[trigger] after[i] == x || before.contains(after[i]),
    ensures
        link_items_consistent(after, now),
{
    assert forall|i: int| 0 <= i < after.len() implies {
        let y = #[trigger] after[i];
        &&& y.refreshed_at() == now
        &&& y.id_view().name == y.status_of()@.name
        &&& y.id_view().id is None ==> y.id_view().device is Some && y.status_of()@
            == missing_link_status(y.id_view().name->0, y.id_view().device->0)
        &&& y.id_view().id is None ==> y.id_view().name is Some
    } by {
        if after[i] != x {
            let j = choose|j: int| 0 <= j < before.len() && before[j] == after[i];
        }
    }
}

/// The position of the last listed link with device index `index`.
fn last_link_at_index(listed: &Vec<NetworkStatusItem<NetworkLinkStatus>>, index: u64) -> (r: Option<usize>)
    ensures
        match r {
            Some(i) => i < listed@.len() && listed@[i as int].id_view().id == Some(index) && forall|j: int|
                i < j < listed@.len() ==> #[trigger] listed@[j].id_view().id != Some(index),
            None => forall|j: int| 0 <= j < listed@.len() ==> #[trigger] listed@[j].id_view().id != Some(index),
        },
{
    let mut i: usize = listed.len();
    while i > 0
        invariant
            i <= listed@.len(),
            forall|j: int| i <= j < listed@.len() ==> #[trigger] listed@[j].id_view().id != Some(index),
        decreases i,
    {
        i = i - 1;
        if listed[i].get_id().id() == Some(index) {
            return Some(i);
        }
    }
    None
}

/// The position of the last configured interface on the link named `name`.
fn last_interface_on_link(entries: &[(String, NetworkInterface)], name: &String) -> (r: Option<usize>)
    ensures
        match r {
            Some(i) => i < entries@.len() && entries@[i as int].1.link()@ == name@ && forall|j: int|
                i < j < entries@.len() ==> #[trigger] entries@[j].1.link()@ != name@,
            None => forall|j: int| 0 <= j < entries@.len() ==> #[trigger] entries@[j].1.link()@ != name@,
        },
{
    let mut i: usize = entries.len();
    while i > 0
        invariant
            i <= entries@.len(),
            forall|j: int| i <= j < entries@.len() ==> #[trigger] entries@[j].1.link()@ != name@,
        decreases i,
    {
        i = i - 1;
        if *entries[i].1.get_network_link() == *name {
            return Some(i);
        }
    }
    None
}

/// Whether `listed` holds the link items of `reports`, in order.
spec fn lists_reports(listed: Seq<NetworkStatusItem<NetworkLinkStatus>>, reports: Seq<(u64, NetworkLinkStatusView)>, now: u64) -> bool {
    &&& listed.len() == reports.len()
    &&& forall|k: int|
        0 <= k < reports.len() ==> (#[trigger] listed[k]).id_view() == report_id(reports[k].0, reports[k].1)
            && listed[k].status_of()@ == reports[k].1 && listed[k].refreshed_at() == now
}

/// The last listed link that carries the name `name` is the last report
/// naming it.
proof fn lemma_listed_named(
    listed: Seq<NetworkStatusItem<NetworkLinkStatus>>,
    reports: Seq<(u64, NetworkLinkStatusView)>,
    now: u64,
    name: Seq<char>,
    found: Option<usize>,
)
    requires
        lists_reports(listed, reports, now),
        match found {
            Some(i) => i < listed.len() && listed[i as int].status_of()@.name == Some(name) && forall|j: int|
                i < j < listed.len() ==> #[trigger] listed[j].status_of()@.name != Some(name),
            None => forall|j: int| 0 <= j < listed.len() ==> #[trigger] listed[j].status_of()@.name != Some(name),
        },
    ensures
        match found {
            Some(i) => last_report_named(reports, name) == Some(i as int) && reports[i as int].1 == listed[i as int].status_of()@
                && reports[i as int].0 == listed[i as int].id_view().id->0,
            None => last_report_named(reports, name) is None && !reported_name(reports, name),
        },
{
    match found {
        Some(i) => {
            assert(listed[i as int].status_of()@ == reports[i as int].1);
            assert forall|j: int| i < j < reports.len() implies #[trigger] reports[j].1.name != Some(name) by {
                assert(listed[j].status_of()@ == reports[j].1);
            }
            lemma_last_report_named(reports, name, Some(i as int));
        },
        None => {
            assert forall|j: int| 0 <= j < reports.len() implies #[trigger] reports[j].1.name != Some(name) by {
                assert(listed[j].status_of()@ == reports[j].1);
            }
            lemma_last_report_named(reports, name, None);
        },
    }
}

/// The last listed link of device index `index` is the last report of it.
proof fn lemma_listed_at(
    listed: Seq<NetworkStatusItem<NetworkLinkStatus>>,
    reports: Seq<(u64, NetworkLinkStatusView)>,
    now: u64,
    index: u64,
    found: Option<usize>,
)
    requires
        lists_reports(listed, reports, now),
        match found {
            Some(i) => i < listed.len() && listed[i as int].id_view().id == Some(index) && forall|j: int|
                i < j < listed.len() ==> #[trigger] listed[j].id_view().id != Some(index),
            None => forall|j: int| 0 <= j < listed.len() ==> #[trigger] listed[j].id_view().id != Some(index),
        },
    ensures
        match found {
            Some(i) => last_report_at(reports, index) == Some(i as int) && reports[i as int].1 == listed[i as int].status_of()@,
            None => last_report_at(reports, index) is None,
        },
{
    match found {
        Some(i) => {
            assert(listed[i as int].id_view() == report_id(reports[i as int].0, reports[i as int].1));
            assert forall|j: int| i < j < reports.len() implies #[trigger] reports[j].0 != index by {
                assert(listed[j].id_view() == report_id(reports[j].0, reports[j].1));
                assert(listed[j].id_view().id == Some(reports[j].0));
            }
            lemma_last_report_at(reports, index, Some(i as int));
        },
        None => {
            assert forall|j: int| 0 <= j < reports.len() implies #[trigger] reports[j].0 != index by {
                assert(listed[j].id_view() == report_id(reports[j].0, reports[j].1));
                assert(listed[j].id_view().id == Some(reports[j].0));
            }
            lemma_last_report_at(reports, index, None);
        },
    }
}

/// Whether each group is of a device index that none of the first `j`
/// configured interfaces takes, and each such index with addresses has a
/// group.
spec fn groups_unclaimed(
    groups: Seq<(u64, Vec<IpAddress>)>,
    config: Router,
    reports: Seq<(u64, NetworkLinkStatusView)>,
    areports: Seq<(u64, IpAddressView)>,
    j: int,
) -> bool {
    &&& forall|a: int| 0 <= a < groups.len() ==> !claimed(config, reports, j, (#[trigger] groups[a]).0)
    &&& forall|index: u64|
        #[trigger] addresses_at(areports, index).len() > 0 && !claimed(config, reports, j, index) ==> exists|a: int|
            0 <= a < groups.len() && #[trigger] groups[a].0 == index
}

/// What a scan finds of each configured interface, in the order configured;
/// each takes from `groups` the addresses of the device index of its link.
#[verifier::rlimit(40)]
fn configured_interfaces(
    config: &Router,
    listed: &Vec<NetworkStatusItem<NetworkLinkStatus>>,
    groups: &mut Vec<(u64, Vec<IpAddress>)>,
    Ghost(reports): Ghost<Seq<(u64, NetworkLinkStatusView)>>,
    Ghost(areports): Ghost<Seq<(u64, IpAddressView)>>,
    now: u64,
) -> (r: Vec<NetworkStatusItem<NetworkInterfaceStatus>>)
    requires
        lists_reports(listed@, reports, now),
        groups_exact(old(groups)@, areports),
        groups_unclaimed(old(groups)@, *config, reports, areports, 0),
    ensures
        r@.len() == config.interfaces().entries_view().len(),
        forall|m: int|
            0 <= m < r@.len() ==> configured_interface_item(*config, reports, areports, m, #[trigger] r@[m], now),
        groups_exact(final(groups)@, areports),
        groups_unclaimed(final(groups)@, *config, reports, areports, config.interfaces().entries_view().len() as int),
{
    let interface_entries = config.get_network_interfaces().entries();
    let ghost entries = interface_entries@;
    let mut interfaces: Vec<NetworkStatusItem<NetworkInterfaceStatus>> = Vec::new();
    let mut j: usize = 0;
    while j < interface_entries.len()
        invariant
            entries == interface_entries@,
            entries == config.interfaces().entries_view(),
            lists_reports(listed@, reports, now),
            j <= entries.len(),
            interfaces@.len() == j,
            forall|m: int|
                0 <= m < j ==> configured_interface_item(*config, reports, areports, m, #[trigger] interfaces@[m], now),
            groups_exact(groups@, areports),
            groups_unclaimed(groups@, *config, reports, areports, j as int),
        decreases entries.len() - j,
    {
        let (interface_name, interface) = &interface_entries[j];
        let link_name = interface.get_network_link();
        let ghost link = entries[j as int].1.link()@;
        let ghost before = groups@;
        let item = match last_link_named(listed, link_name) {
            Some(li) => {
                proof {
                    lemma_listed_named(listed@, reports, now, link, Some(li));
                }
                let link_item = &listed[li];
                let index = link_item.get_id().id();
                let found = match index {
                    Some(index) => take_group(groups, index),
                    None => None,
                };
                let addresses = match found {
                    Some(a) => {
                        let sorted = sort_by_key(a);
                        proof {
                            lemma_sorted_views(sorted@, a@);
                        }
                        sorted
                    },
                    None => Vec::new(),
                };
                let device = match link_item.get_id().device() {
                    Some(d) => Some(d.clone()),
                    None => None,
                };
                let id = CanonicalNetworkId::new(index, Some(interface_name.clone()), device);
                let x = NetworkStatusItem::new_with_refresh(
                    id,
                    NetworkInterfaceStatus::new(Some(interface_name.clone()), addresses, link_item.get_status().clone()),
                    now,
                );
                proof {
                    let k = li as int;
                    let idx = reports[k].0;
                    assert(index == Some(idx));
                    if claimed(*config, reports, j as int, idx) {
                        assert(found is None) by {
                            if found is Some {
                                let a = choose|a: int| 0 <= a < before.len() && #[trigger] before[a].0 == idx;
                            }
                        }
                        assert(addresses_view(addresses@) =~= Seq::<IpAddressView>::empty());
                    } else if addresses_at(areports, idx).len() > 0 {
                        assert(found is Some);
                        let a = choose|a: int|
                            0 <= a < before.len() && #[trigger] before[a].0 == idx && (forall|b: int|
                                0 <= b < a ==> #[trigger] before[b].0 != idx) && groups@ == before.remove(a)
                                && found->0 == before[a].1;
                        assert(addresses_view(found->0@) == addresses_at(areports, idx));
                    } else {
                        assert(found is None) by {
                            if found is Some {
                                let a = choose|a: int|
                                    0 <= a < before.len() && #[trigger] before[a].0 == idx && (forall|b: int|
                                        0 <= b < a ==> #[trigger] before[b].0 != idx) && groups@ == before.remove(a)
                                        && found->0 == before[a].1;
                            }
                        }
                        lemma_sorted_empty(addresses_at(areports, idx));
                        assert(addresses_view(addresses@) =~= Seq::<IpAddressView>::empty());
                    }
                    // The addresses of `idx` are now taken; no other group goes.
                    assert forall|i: u64| #[trigger] claimed(*config, reports, j + 1, i) == (claimed(
                        *config,
                        reports,
                        j as int,
                        i,
                    ) || i == idx) by {
                        lemma_claimed_step(*config, reports, j as int, i);
                    }
                    if found is Some {
                        let a = choose|a: int|
                            0 <= a < before.len() && #[trigger] before[a].0 == idx && (forall|b: int|
                                0 <= b < a ==> #[trigger] before[b].0 != idx) && groups@ == before.remove(a)
                                && found->0 == before[a].1;
                        assert forall|b: int| 0 <= b < groups@.len() implies #[trigger] groups@[b] == if b < a {
                            before[b]
                        } else {
                            before[b + 1]
                        } by {}
                        assert forall|c: int, b: int|
                            0 <= c < groups@.len() && 0 <= b < groups@.len() && c != b implies #[trigger] groups@[c].0
                            != #[trigger] groups@[b].0 by {
                            let c0 = if c < a { c } else { c + 1 };
                            let b0 = if b < a { b } else { b + 1 };
                            assert(groups@[c] == before[c0] && groups@[b] == before[b0]);
                        }
                        assert forall|c: int| 0 <= c < groups@.len() implies addresses_view((#[trigger] groups@[c]).1@)
                            == addresses_at(areports, groups@[c].0) && addresses_at(areports, groups@[c].0).len() > 0
                            && !claimed(*config, reports, j + 1, groups@[c].0) by {
                            let c0 = if c < a { c } else { c + 1 };
                            assert(groups@[c] == before[c0]);
                            assert(before[c0].0 != before[a].0);
                        }
                        assert forall|i: u64|
                            #[trigger] addresses_at(areports, i).len() > 0 && !claimed(*config, reports, j + 1, i) implies exists|c: int|
                            0 <= c < groups@.len() && #[trigger] groups@[c].0 == i by {
                            let c0 = choose|c0: int| 0 <= c0 < before.len() && #[trigger] before[c0].0 == i;
                            assert(c0 != a);
                            let c = if c0 < a { c0 } else { c0 - 1 };
                            assert(groups@[c] == before[c0]);
                        }
                    } else {
                        assert(groups@ == before);
                        assert forall|c: int| 0 <= c < groups@.len() implies !claimed(
                            *config,
                            reports,
                            j + 1,
                            (#[trigger] groups@[c]).0,
                        ) by {
                            assert(before[c].0 != idx);
                        }
                        assert forall|i: u64|
                            #[trigger] addresses_at(areports, i).len() > 0 && !claimed(*config, reports, j + 1, i) implies exists|c: int|
                            0 <= c < groups@.len() && #[trigger] groups@[c].0 == i by {}
                    }
                }
                x
            },
            None => {
                proof {
                    lemma_listed_named(listed@, reports, now, link, None);
                    assert forall|i: u64| #[trigger] claimed(*config, reports, j + 1, i) == claimed(
                        *config,
                        reports,
                        j as int,
                        i,
                    ) by {
                        lemma_claimed_step(*config, reports, j as int, i);
                    }
                }
                match config.get_network_links().get(link_name) {
                    Some(link_config) => {
                        let last = last_interface_on_link(interface_entries, link_name);
                        proof {
                            match last {
                                Some(p) => lemma_last_interface_on(entries, link, Some(p as int)),
                                None => lemma_last_interface_on(entries, link, None),
                            }
                        }
                        let state = match last {
                            Some(p) => if p == j {
                                NetworkLinkOperationalState::NotFound
                            } else {
                                NetworkLinkOperationalState::Misconfigured
                            },
                            None => NetworkLinkOperationalState::Misconfigured,
                        };
                        let id = CanonicalNetworkId::new(None, Some(interface_name.clone()), Some(link_config.get_device().clone()));
                        let x = NetworkStatusItem::new_with_refresh(
                            id,
                            NetworkInterfaceStatus::new(
                                Some(interface_name.clone()),
                                Vec::new(),
                                NetworkLinkStatus::new(Some(link_name.clone()), link_config.get_device().clone(), state),
                            ),
                            now,
                        );
                        x
                    },
                    None => {
                        let id = CanonicalNetworkId::new(None, Some(interface_name.clone()), None);
                        NetworkStatusItem::new_with_refresh(
                            id,
                            NetworkInterfaceStatus::new(
                                Some(interface_name.clone()),
                                Vec::new(),
                                NetworkLinkStatus::new(
                                    Some(link_name.clone()),
                                    String::new(),
                                    NetworkLinkOperationalState::Misconfigured,
                                ),
                            ),
                            now,
                        )
                    },
                }
            },
        };
        proof {
            assert(configured_interface_item(*config, reports, areports, j as int, item, now));
        }
        interfaces.push(item);
        j = j + 1;
    }
    interfaces
}

/// Appends to `interfaces` what a scan finds of each listed link with
/// addresses that no configured interface takes.
fn address_only_interfaces(
    config: &Router,
    listed: &Vec<NetworkStatusItem<NetworkLinkStatus>>,
    groups: Vec<(u64, Vec<IpAddress>)>,
    interfaces: &mut Vec<NetworkStatusItem<NetworkInterfaceStatus>>,
    Ghost(reports): Ghost<Seq<(u64, NetworkLinkStatusView)>>,
    Ghost(areports): Ghost<Seq<(u64, IpAddressView)>>,
    now: u64,
)
    requires
        lists_reports(listed@, reports, now),
        groups_exact(groups@, areports),
        groups_unclaimed(groups@, *config, reports, areports, config.interfaces().entries_view().len() as int),
    ensures
        final(interfaces)@.len() >= old(interfaces)@.len(),
        forall|i: int| 0 <= i < old(interfaces)@.len() ==> #[trigger] final(interfaces)@[i] == old(interfaces)@[i],
        forall|i: int|
            old(interfaces)@.len() <= i < final(interfaces)@.len() ==> address_only_item(
                *config,
                reports,
                areports,
                #[trigger] final(interfaces)@[i],
                now,
            ),
        forall|a: int, b: int|
            old(interfaces)@.len() <= a < final(interfaces)@.len() && old(interfaces)@.len() <= b
                < final(interfaces)@.len() && a != b ==> (#[trigger] final(interfaces)@[a]).id_view().id
                != (#[trigger] final(interfaces)@[b]).id_view().id,
        forall|index: u64|
            #[trigger] addresses_at(areports, index).len() > 0 && !claimed(
                *config,
                reports,
                config.interfaces().entries_view().len() as int,
                index,
            ) && last_report_at(reports, index) is Some ==> has_unnamed_at(final(interfaces)@, index),
{
    let ghost start = interfaces@;
    let ghost n = config.interfaces().entries_view().len() as int;
    let mut groups = groups;
    while groups.len() > 0
        invariant
            n == config.interfaces().entries_view().len(),
            lists_reports(listed@, reports, now),
            groups_exact(groups@, areports),
            forall|a: int| 0 <= a < groups@.len() ==> !claimed(*config, reports, n, (#[trigger] groups@[a]).0),
            interfaces@.len() >= start.len(),
            forall|i: int| 0 <= i < start.len() ==> #[trigger] interfaces@[i] == start[i],
            forall|i: int|
                start.len() <= i < interfaces@.len() ==> address_only_item(
                    *config,
                    reports,
                    areports,
                    #[trigger] interfaces@[i],
                    now,
                ),
            forall|a: int, b: int|
                start.len() <= a < interfaces@.len() && start.len() <= b < interfaces@.len() && a != b
                    ==> (#[trigger] interfaces@[a]).id_view().id != (#[trigger] interfaces@[b]).id_view().id,
            forall|i: int, a: int|
                start.len() <= i < interfaces@.len() && 0 <= a < groups@.len() ==> (#[trigger] interfaces@[i]).id_view().id
                    != Some((#[trigger] groups@[a]).0),
            forall|index: u64|
                #[trigger] addresses_at(areports, index).len() > 0 && !claimed(*config, reports, n, index)
                    && last_report_at(reports, index) is Some ==> (exists|a: int|
                    0 <= a < groups@.len() && #[trigger] groups@[a].0 == index) || has_unnamed_at(
                    interfaces@,
                    index,
                ),
        decreases groups@.len(),
    {
        let ghost before = groups@;
        let ghost before_interfaces = interfaces@;
        let (index, group) = groups.remove(0);
        proof {
            assert(before[0].0 == index);
            assert forall|a: int| 0 <= a < groups@.len() implies #[trigger] groups@[a] == before[a + 1] by {}
            assert forall|a: int| 0 <= a < groups@.len() implies (#[trigger] groups@[a]).0 != index by {
                assert(groups@[a] == before[a + 1]);
            }
        }
        match last_link_at_index(listed, index) {
            Some(li) => {
                proof {
                    lemma_listed_at(listed@, reports, now, index, Some(li));
                }
                let link = &listed[li];
                let sorted = sort_by_key(group);
                proof {
                    lemma_sorted_views(sorted@, group@);
                }
                let id = CanonicalNetworkId::new(Some(index), None, Some(link.get_status().get_device().clone()));
                let item = NetworkStatusItem::new_with_refresh(
                    id,
                    NetworkInterfaceStatus::new(None, sorted, link.get_status().clone()),
                    now,
                );
                interfaces.push(item);
                proof {
                    assert(interfaces@[interfaces@.len() - 1] == item);
                    assert(address_only_item(*config, reports, areports, item, now));
                    assert forall|i: int| 0 <= i < start.len() implies #[trigger] interfaces@[i] == start[i] by {
                        assert(interfaces@[i] == before_interfaces[i]);
                    }
                    assert forall|i: int|
                        start.len() <= i < interfaces@.len() implies address_only_item(
                        *config,
                        reports,
                        areports,
                        #[trigger] interfaces@[i],
                        now,
                    ) by {
                        if i < before_interfaces.len() {
                            assert(interfaces@[i] == before_interfaces[i]);
                        }
                    }
                    assert forall|a: int, b: int|
                        start.len() <= a < interfaces@.len() && start.len() <= b < interfaces@.len() && a != b implies (
                        #[trigger] interfaces@[a]).id_view().id != (#[trigger] interfaces@[b]).id_view().id by {
                        if a < before_interfaces.len() && b < before_interfaces.len() {
                            assert(interfaces@[a] == before_interfaces[a]);
                            assert(interfaces@[b] == before_interfaces[b]);
                        } else if a < before_interfaces.len() {
                            assert(interfaces@[a] == before_interfaces[a]);
                            assert(before_interfaces[a].id_view().id != Some(before[0].0));
                        } else {
                            assert(interfaces@[b] == before_interfaces[b]);
                            assert(before_interfaces[b].id_view().id != Some(before[0].0));
                        }
                    }
                    assert forall|i: int, a: int|
                        start.len() <= i < interfaces@.len() && 0 <= a < groups@.len() implies (
                        #[trigger] interfaces@[i]).id_view().id != Some((#[trigger] groups@[a]).0) by {
                        assert(groups@[a] == before[a + 1]);
                        if i < before_interfaces.len() {
                            assert(interfaces@[i] == before_interfaces[i]);
                        }
                    }
                    assert forall|idx: u64|
                        #[trigger] addresses_at(areports, idx).len() > 0 && !claimed(*config, reports, n, idx)
                            && last_report_at(reports, idx) is Some implies (exists|a: int|
                        0 <= a < groups@.len() && #[trigger] groups@[a].0 == idx) || has_unnamed_at(interfaces@, idx) by {
                        if idx == index {
                            assert(interfaces@[interfaces@.len() - 1].id_view().id == Some(idx));
                        } else if has_unnamed_at(before_interfaces, idx) {
                            let i = choose|i: int|
                                0 <= i < before_interfaces.len() && (#[trigger] before_interfaces[i]).id_view().name is None
                                    && before_interfaces[i].id_view().id == Some(idx);
                            assert(interfaces@[i] == before_interfaces[i]);
                        } else {
                            let a = choose|a: int| 0 <= a < before.len() && #[trigger] before[a].0 == idx;
                            assert(a != 0);
                            assert(groups@[a - 1] == before[a]);
                        }
                    }
                }
            },
            None => {
                proof {
                    lemma_listed_at(listed@, reports, now, index, None);
                    assert forall|i: int, a: int|
                        start.len() <= i < interfaces@.len() && 0 <= a < groups@.len() implies (
                        #[trigger] interfaces@[i]).id_view().id != Some((#[trigger] groups@[a]).0) by {
                        assert(groups@[a] == before[a + 1]);
                    }
                    assert forall|idx: u64|
                        #[trigger] addresses_at(areports, idx).len() > 0 && !claimed(*config, reports, n, idx)
                            && last_report_at(reports, idx) is Some implies (exists|a: int|
                        0 <= a < groups@.len() && #[trigger] groups@[a].0 == idx) || has_unnamed_at(interfaces@, idx) by {
                        if !has_unnamed_at(interfaces@, idx) {
                            let a = choose|a: int| 0 <= a < before.len() && #[trigger] before[a].0 == idx;
                            assert(a != 0);
                            assert(groups@[a - 1] == before[a]);
                        }
                    }
                }
            },
        }
        proof {
            assert forall|c: int, b: int|
                0 <= c < groups@.len() && 0 <= b < groups@.len() && c != b implies #[trigger] groups@[c].0
                != #[trigger] groups@[b].0 by {
                assert(groups@[c] == before[c + 1] && groups@[b] == before[b + 1]);
            }
            assert forall|c: int| 0 <= c < groups@.len() implies addresses_view((#[trigger] groups@[c]).1@) == addresses_at(
                areports,
                groups@[c].0,
            ) && addresses_at(areports, groups@[c].0).len() > 0 && !claimed(*config, reports, n, groups@[c].0) by {
                assert(groups@[c] == before[c + 1]);
            }
        }
    }
}

/// What a scan finds: the links that netlink lists, each under its device
/// index, name and device with the status of the last report of it, and the
/// configured links that no report names, as not found; and the interfaces:
/// each configured one (see `configured_interface_item`) and each listed link
/// with addresses that no configured interface takes (see
/// `address_only_item`).  Every item is refreshed at `now`.
#[verifier::rlimit(40)]
pub fn gather_scan(
    config: &Router,
    processor: &NetlinkMessageProcessor,
    link_data: Vec<RouteMessage>,
    network_data: Vec<RouteMessage>,
    now: u64,
) -> (r: (Vec<NetworkStatusItem<NetworkLinkStatus>>, Vec<NetworkStatusItem<NetworkInterfaceStatus>>))
    ensures
        scan_found(*config, processor.links_by_device(), link_data@, network_data@, r.0@, r.1@, now),
{
    let ghost reports = link_reports(processor.links_by_device(), link_data@);
    let ghost areports = address_reports(network_data@);
    let report_list = read_link_reports(processor, link_data);
    proof {
        assert(report_views(report_list@) =~= reports);
    }
    let (listed, mut network_links) = link_items(&report_list, now);
    let link_entries = config.get_network_links().entries();
    let interface_entries = config.get_network_interfaces().entries();
    proof {
        assert forall|k: int| 0 <= k < reports.len() implies #[trigger] report_id(reports[k].0, reports[k].1)
            == report_id(report_list@[k].0, report_list@[k].1@) by {
            assert(reports[k] == report_views(report_list@)[k]);
        }
        assert(lists_reports(listed@, reports, now)) by {
            assert forall|k: int| 0 <= k < reports.len() implies (#[trigger] listed@[k]).id_view() == report_id(
                reports[k].0,
                reports[k].1,
            ) && listed@[k].status_of()@ == reports[k].1 && listed@[k].refreshed_at() == now by {
                assert(reports[k] == report_views(report_list@)[k]);
            }
        }
    }

    // Configured links that netlink does not list.
    let mut j: usize = 0;
    while j < link_entries.len()
        invariant
            j <= link_entries@.len(),
            link_entries@ == config.links().entries_view(),
            lists_reports(listed@, reports, now),
            ids_distinct(network_links@),
            link_items_consistent(network_links@, now),
            forall|k: int| 0 <= k < reports.len() ==> has_id(
                network_links@,
                #[trigger] report_id(reports[k].0, reports[k].1),
            ),
            forall|m: int|
                0 <= m < j && !reported_name(reports, #[trigger] link_entries@[m].0@) ==> has_id(
                    network_links@,
                    CanonicalNetworkIdView {
                        id: None,
                        name: Some(link_entries@[m].0@),
                        device: Some(link_entries@[m].1.device()@),
                    },
                ),
            forall|i: int|
                0 <= i < network_links@.len() && (#[trigger] network_links@[i]).id_view().id is Some
                    ==> reported_link_item(reports, reports.len() as int, network_links@[i]),
            forall|i: int|
                0 <= i < network_links@.len() && (#[trigger] network_links@[i]).id_view().id is None ==> exists|jj: int|
                    missing_link_item(*config, reports, jj, network_links@[i]),
        decreases link_entries@.len() - j,
    {
        let (name, link) = &link_entries[j];
        match last_link_named(&listed, name) {
            Some(_) => {
                proof {
                    let k = choose|k: int| 0 <= k < listed@.len() && listed@[k].status_of()@.name == Some(name@);
                }
            },
            None => {
                proof {
                    lemma_listed_named(listed@, reports, now, name@, None);
                }
                let device = link.get_device().clone();
                let id = CanonicalNetworkId::new(None, Some(name.clone()), Some(device.clone()));
                let status = NetworkLinkStatus::new(Some(name.clone()), device, NetworkLinkOperationalState::NotFound);
                let item = NetworkStatusItem::new_with_refresh(id, status, now);
                let ghost before = network_links@;
                let ghost x = item;
                upsert(&mut network_links, item);
                proof {
                    lemma_upsert_links(before, network_links@, x, now);
                    assert(missing_link_item(*config, reports, j as int, x));
                    assert forall|i: int|
                        0 <= i < network_links@.len() && (#[trigger] network_links@[i]).id_view().id is Some implies reported_link_item(
                        reports,
                        reports.len() as int,
                        network_links@[i],
                    ) by {
                        let b = choose|b: int| 0 <= b < before.len() && before[b] == network_links@[i];
                    }
                    assert forall|i: int|
                        0 <= i < network_links@.len() && (#[trigger] network_links@[i]).id_view().id is None implies exists|jj: int|
                        missing_link_item(*config, reports, jj, network_links@[i]) by {
                        if network_links@[i] != x {
                            let b = choose|b: int| 0 <= b < before.len() && before[b] == network_links@[i];
                        }
                    }
                }
            },
        }
        j = j + 1;
    }

    let address_list = read_address_reports(processor, network_data);
    proof {
        assert(address_views(address_list@) =~= areports);
    }
    let mut groups = group_addresses(&address_list);
    proof {
        assert(groups_unclaimed(groups@, *config, reports, areports, 0));
    }
    let mut interfaces = configured_interfaces(config, &listed, &mut groups, Ghost(reports), Ghost(areports), now);
    let ghost configured = interfaces@;
    address_only_interfaces(config, &listed, groups, &mut interfaces, Ghost(reports), Ghost(areports), now);
    proof {
        let n = configured.len() as int;
        assert forall|i: int| 0 <= i < interfaces@.len() implies ((#[trigger] interfaces@[i]).id_view().name is Some
            <==> i < n) by {
            if i < n {
                assert(interfaces@[i] == configured[i]);
                assert(configured_interface_item(*config, reports, areports, i, configured[i], now));
            }
        }
        assert forall|a: int, b: int|
            0 <= a < interfaces@.len() && 0 <= b < interfaces@.len() && a != b implies #[trigger] interfaces@[a].id_view()
            != #[trigger] interfaces@[b].id_view() by {
            if a < n && b < n {
                assert(interfaces@[a] == configured[a] && interfaces@[b] == configured[b]);
                assert(configured_interface_item(*config, reports, areports, a, configured[a], now));
                assert(configured_interface_item(*config, reports, areports, b, configured[b], now));
                assert(interface_entries@[a].0@ != interface_entries@[b].0@);
            }
        }
        assert forall|i: int| 0 <= i < interfaces@.len() implies {
            let x = #[trigger] interfaces@[i];
            &&& x.refreshed_at() == now
            &&& x.id_view().name == x.status_of()@.name
        } by {
            if i < n {
                assert(interfaces@[i] == configured[i]);
                assert(configured_interface_item(*config, reports, areports, i, configured[i], now));
            }
        }
        assert forall|m: int| 0 <= m < n implies #[trigger] has_configured_item(
            *config,
            reports,
            areports,
            interfaces@,
            m,
            now,
        ) by {
            assert(interfaces@[m] == configured[m]);
            assert(configured_interface_item(*config, reports, areports, m, configured[m], now));
        }
        assert forall|i: int|
            0 <= i < interfaces@.len() && (#[trigger] interfaces@[i]).id_view().name is Some implies exists|m: int|
            configured_interface_item(*config, reports, areports, m, interfaces@[i], now) by {
            assert(interfaces@[i] == configured[i]);
            assert(configured_interface_item(*config, reports, areports, i, configured[i], now));
        }
    }
    (network_links, interfaces)
}


/// The status of an interface that a scan no longer finds: its link not
/// found.
pub open spec fn lost_interface_view(x: NetworkStatusItem<NetworkInterfaceStatus>, now: u64) -> (
    CanonicalNetworkIdView,
    NetworkInterfaceStatusView,
    u64,
) {
    (
        x.id_view(),
        NetworkInterfaceStatusView {
            network_link_status: NetworkLinkStatusView {
                operational_state: NetworkLinkOperationalState::NotFound,
                ..x.status_of()@.network_link_status
            },
            ..x.status_of()@
        },
        now,
    )
}

/// What a scan changed: the links and interfaces announced as changed, and
/// those no longer found.
pub struct PollChanges {
    pub updated_links: Vec<NetworkStatusItem<NetworkLinkStatus>>,
    pub deleted_links: Vec<NetworkStatusItem<NetworkLinkStatus>>,
    pub updated_interfaces: Vec<NetworkStatusItem<NetworkInterfaceStatus>>,
    pub deleted_interfaces: Vec<NetworkStatusItem<NetworkInterfaceStatus>>,
}

/// Scans: from the listed links and addresses and the configuration, finds
/// the links and interfaces there are (`gather_scan`), then brings the known
/// links and then the known interfaces up to date with them (`settle`).  The
/// interfaces no longer found are reported with their link not found.
pub fn try_poll(
    config: &Router,
    processor: &NetlinkMessageProcessor,
    link_data: Vec<RouteMessage>,
    network_data: Vec<RouteMessage>,
    database: &mut InterfaceManagerDatabase,
    now: u64,
) -> (r: PollChanges)
    ensures
        exists|links: Seq<NetworkStatusItem<NetworkLinkStatus>>, interfaces: Seq<NetworkStatusItem<NetworkInterfaceStatus>>|
            #![trigger settle(old(database).links_view(), links), settle(old(database).interfaces_view(), interfaces)]
            {
                &&& scan_found(*config, processor.links_by_device(), link_data@, network_data@, links, interfaces, now)
                &&& final(database).links_view() == store_all(Seq::empty(), settle(old(database).links_view(), links).1)
                &&& final(database).interfaces_view() == store_all(
                    Seq::empty(),
                    settle(old(database).interfaces_view(), interfaces).1,
                )
                &&& r.updated_links@.map_values(|x: NetworkStatusItem<NetworkLinkStatus>| item_view(x)) == settle(
                    old(database).links_view(),
                    links,
                ).2
                &&& r.deleted_links@ == settle(old(database).links_view(), links).0
                &&& r.updated_interfaces@.map_values(|x: NetworkStatusItem<NetworkInterfaceStatus>| item_view(x))
                    == settle(old(database).interfaces_view(), interfaces).2
                &&& r.deleted_interfaces@.map_values(|x: NetworkStatusItem<NetworkInterfaceStatus>| item_view(x))
                    == settle(old(database).interfaces_view(), interfaces).0.map_values(
                    |x: NetworkStatusItem<NetworkInterfaceStatus>| lost_interface_view(x, now),
                )
            },
{
    let (network_links, network_interfaces) = gather_scan(config, processor, link_data, network_data, now);
    let ghost links = network_links@;
    let ghost interfaces = network_interfaces@;
    let ghost links0 = database.links_view();
    let ghost interfaces0 = database.interfaces_view();
    let (updated_links, deleted_links) = database.settle_links(network_links);
    let (updated_interfaces, unfound) = database.settle_interfaces(network_interfaces);
    let mut deleted_interfaces: Vec<NetworkStatusItem<NetworkInterfaceStatus>> = Vec::new();
    let mut i: usize = 0;
    while i < unfound.len()
        invariant
            i <= unfound@.len(),
            deleted_interfaces@.map_values(|x: NetworkStatusItem<NetworkInterfaceStatus>| item_view(x)) == unfound@.take(
                i as int,
            ).map_values(|x: NetworkStatusItem<NetworkInterfaceStatus>| lost_interface_view(x, now)),
        decreases unfound@.len() - i,
    {
        let item = &unfound[i];
        let status = item.get_status();
        let link = status.get_network_link_status();
        let lost = NetworkStatusItem::new_with_refresh(
            item.get_id().clone(),
            NetworkInterfaceStatus::new(
                copy_name(status.get_name()),
                copy_addresses(status.get_addresses()),
                NetworkLinkStatus::new(
                    copy_name(link.get_name()),
                    link.get_device().clone(),
                    NetworkLinkOperationalState::NotFound,
                ),
            ),
            now,
        );
        let ghost before = deleted_interfaces@;
        deleted_interfaces.push(lost);
        proof {
            assert(unfound@.take(i + 1) =~= unfound@.take(i as int).push(unfound@[i as int]));
            assert(deleted_interfaces@.map_values(|x: NetworkStatusItem<NetworkInterfaceStatus>| item_view(x)) =~= before.map_values(
                |x: NetworkStatusItem<NetworkInterfaceStatus>| item_view(x),
            ).push(item_view(lost)));
            assert(unfound@.take(i + 1).map_values(|x: NetworkStatusItem<NetworkInterfaceStatus>| lost_interface_view(x, now))
                =~= unfound@.take(i as int).map_values(|x: NetworkStatusItem<NetworkInterfaceStatus>| lost_interface_view(x, now)).push(
                lost_interface_view(unfound@[i as int], now),
            ));
        }
        i = i + 1;
    }
    assert(unfound@.take(unfound@.len() as int) =~= unfound@);
    proof {
        // The scan's links and interfaces witness the postcondition.
        assert(settle(links0, links) == settle(links0, links));
        assert(settle(interfaces0, interfaces) == settle(interfaces0, interfaces));
    }
    PollChanges { updated_links, deleted_links, updated_interfaces, deleted_interfaces }
}

} // verus!
