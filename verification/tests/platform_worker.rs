use rusty_router::collections::StringMap;
use rusty_router::model::{
    IpAddress, IpAddressType, NetworkInterface, NetworkInterfaceStatus, NetworkLink,
    NetworkLinkOperationalState, NetworkLinkStatus, NetworkLinkType, Router,
};
use rusty_router::platform::interface::database::InterfaceManagerDatabase;
use rusty_router::platform::interface::listener::message_received;
use rusty_router::platform::interface::model::{nanos_of_reading, now_nanos, CanonicalNetworkId, NetworkStatusItem};
use rusty_router::platform::interface::worker::try_poll;
use rusty_router::platform::netlink::processor::NetlinkMessageProcessor;
use rusty_router::platform::netlink::{
    AddressAttribute, AddressFamily, AddressMessage, LinkAttribute, LinkMessage, LinkState,
    RouteMessage,
};

const SECOND: u64 = 1_000_000_000;

fn router(links: &[(&str, &str)], interfaces: &[(&str, &str)]) -> Router {
    let mut link_map = StringMap::new();
    for (name, device) in links {
        link_map.insert(String::from(*name), NetworkLink::new(String::from(*device), NetworkLinkType::GenericInterface));
    }
    let mut interface_map = StringMap::new();
    for (name, link) in interfaces {
        interface_map.insert(String::from(*name), NetworkInterface::new(None, String::from(*link), vec![]));
    }
    Router::new(link_map, interface_map, StringMap::new())
}

fn new_link(index: u32, device: &str, state: LinkState) -> RouteMessage {
    RouteMessage::NewLink(LinkMessage {
        index,
        attributes: vec![LinkAttribute::IfName(String::from(device)), LinkAttribute::OperState(state)],
    })
}

fn new_address(index: u32, prefix_len: u8, bytes: Vec<u8>) -> RouteMessage {
    RouteMessage::NewAddress(AddressMessage {
        family: AddressFamily::Inet,
        prefix_len,
        index,
        attributes: vec![AddressAttribute::Address(bytes)],
    })
}

fn link_status(name: Option<&str>, device: &str, state: NetworkLinkOperationalState) -> NetworkLinkStatus {
    NetworkLinkStatus::new(name.map(String::from), String::from(device), state)
}

fn v4(address: &str, prefix: u64) -> IpAddress {
    IpAddress::new(IpAddressType::IpV4, String::from(address), prefix)
}

fn six_link_config(with_nine: bool) -> Router {
    let mut links = vec![
        ("SomeLink2", "SomeDevice2"),
        ("SomeLink3", "SomeDevice3"),
        ("SomeLink5", "SomeDevice5"),
        ("SomeLink6", "SomeDevice6"),
        ("SomeLink7", "SomeDevice7"),
        ("SomeLink8", "SomeDevice8"),
    ];
    let mut interfaces = vec![
        ("SomeInterface4", "SomeLink4"),
        ("SomeInterface5", "SomeLink5"),
        ("SomeInterface6", "SomeLink6"),
        ("SomeInterface7", "SomeLink7"),
    ];
    if with_nine {
        links.push(("SomeLink9", "SomeDevice9"));
        interfaces.push(("SomeInterface9", "SomeLink9"));
    }
    router(&links, &interfaces)
}

#[test]
pub fn test_interface_manager_worker_links() {
    let config = router(&[("SomeLink2", "SomeDevice2"), ("SomeLink3", "SomeDevice3")], &[]);
    let processor = NetlinkMessageProcessor::new(std::sync::Arc::new(router(&[("SomeLink2", "SomeDevice2"), ("SomeLink3", "SomeDevice3")], &[])));
    let mut database = InterfaceManagerDatabase::new();

    let links = vec![new_link(100, "SomeDevice1", LinkState::Up), new_link(101, "SomeDevice2", LinkState::Up)];
    try_poll(&config, &processor, links, vec![], &mut database, 100 * SECOND);

    assert_eq!(database.list_link_status(), vec![
        link_status(None, "SomeDevice1", NetworkLinkOperationalState::Up),
        link_status(Some("SomeLink2"), "SomeDevice2", NetworkLinkOperationalState::Up),
        link_status(Some("SomeLink3"), "SomeDevice3", NetworkLinkOperationalState::NotFound),
    ]);
}

#[test]
pub fn test_interface_manager_worker_interfaces() {
    let config = six_link_config(false);
    let processor = NetlinkMessageProcessor::new(std::sync::Arc::new(six_link_config(false)));
    let mut database = InterfaceManagerDatabase::new();

    let links = vec![
        new_link(100, "SomeDevice1", LinkState::Up),
        new_link(101, "SomeDevice2", LinkState::Up),
        new_link(105, "SomeDevice5", LinkState::Down),
        new_link(107, "SomeDevice7", LinkState::Up),
        new_link(108, "SomeDevice8", LinkState::Up),
    ];
    let addresses = vec![new_address(107, 20, vec![1, 2, 3, 4]), new_address(108, 32, vec![2, 3, 4, 5])];
    try_poll(&config, &processor, links, addresses, &mut database, 100 * SECOND);

    assert_eq!(database.list_link_status(), vec![
        link_status(None, "SomeDevice1", NetworkLinkOperationalState::Up),
        link_status(Some("SomeLink2"), "SomeDevice2", NetworkLinkOperationalState::Up),
        link_status(Some("SomeLink3"), "SomeDevice3", NetworkLinkOperationalState::NotFound),
        link_status(Some("SomeLink5"), "SomeDevice5", NetworkLinkOperationalState::Down),
        link_status(Some("SomeLink6"), "SomeDevice6", NetworkLinkOperationalState::NotFound),
        link_status(Some("SomeLink7"), "SomeDevice7", NetworkLinkOperationalState::Up),
        link_status(Some("SomeLink8"), "SomeDevice8", NetworkLinkOperationalState::Up),
    ]);
    assert_eq!(database.list_interface_status(), vec![
        NetworkInterfaceStatus::new(None, vec![v4("2.3.4.5", 32)], link_status(Some("SomeLink8"), "SomeDevice8", NetworkLinkOperationalState::Up)),
        NetworkInterfaceStatus::new(Some(String::from("SomeInterface4")), vec![], link_status(Some("SomeLink4"), "", NetworkLinkOperationalState::Misconfigured)),
        NetworkInterfaceStatus::new(Some(String::from("SomeInterface5")), vec![], link_status(Some("SomeLink5"), "SomeDevice5", NetworkLinkOperationalState::Down)),
        NetworkInterfaceStatus::new(Some(String::from("SomeInterface6")), vec![], link_status(Some("SomeLink6"), "SomeDevice6", NetworkLinkOperationalState::NotFound)),
        NetworkInterfaceStatus::new(Some(String::from("SomeInterface7")), vec![v4("1.2.3.4", 20)], link_status(Some("SomeLink7"), "SomeDevice7", NetworkLinkOperationalState::Up)),
    ]);
}

#[test]
pub fn test_interface_manager_worker_interfaces_update() {
    let config = six_link_config(true);
    let processor = NetlinkMessageProcessor::new(std::sync::Arc::new(six_link_config(true)));
    let mut database = InterfaceManagerDatabase::new();
    let start = 100 * SECOND;

    let links = vec![
        new_link(100, "SomeDevice1", LinkState::Up),
        new_link(101, "SomeDevice2", LinkState::Down),
        new_link(105, "SomeDevice5", LinkState::Down),
        new_link(107, "SomeDevice7", LinkState::Up),
        new_link(108, "SomeDevice8", LinkState::Up),
        new_link(109, "SomeDevice9", LinkState::Down),
        new_link(110, "SomeDeviceA", LinkState::Down),
    ];
    let addresses = vec![
        new_address(107, 20, vec![1, 2, 3, 4]),
        new_address(108, 32, vec![2, 3, 4, 5]),
        new_address(110, 32, vec![3, 4, 5, 6]),
    ];
    try_poll(&config, &processor, links, addresses, &mut database, start);

    database.set_link_status_item(NetworkStatusItem::new_with_refresh(
        CanonicalNetworkId::new(Some(109), Some(String::from("SomeLink9")), Some(String::from("SomeDevice9"))),
        link_status(Some("SomeLink9"), "SomeDevice9", NetworkLinkOperationalState::Down),
        start - 11 * SECOND,
    ));
    database.set_interface_status_item(NetworkStatusItem::new_with_refresh(
        CanonicalNetworkId::new(Some(109), Some(String::from("SomeInterface9")), Some(String::from("SomeDevice9"))),
        NetworkInterfaceStatus::new(Some(String::from("SomeInterface9")), vec![], link_status(Some("SomeLink9"), "SomeDevice9", NetworkLinkOperationalState::Down)),
        start - 11 * SECOND,
    ));

    let links = vec![
        new_link(101, "SomeDevice2", LinkState::Up),
        new_link(105, "SomeDevice5", LinkState::Down),
        new_link(107, "SomeDevice7", LinkState::Up),
        new_link(108, "SomeDevice8", LinkState::Up),
        new_link(109, "SomeDevice9", LinkState::Up),
    ];
    let addresses = vec![new_address(107, 20, vec![1, 2, 3, 4]), new_address(108, 32, vec![2, 3, 4, 5])];
    try_poll(&config, &processor, links, addresses, &mut database, start + 1);

    assert_eq!(database.list_link_status(), vec![
        link_status(Some("SomeLink2"), "SomeDevice2", NetworkLinkOperationalState::Down),
        link_status(Some("SomeLink3"), "SomeDevice3", NetworkLinkOperationalState::NotFound),
        link_status(Some("SomeLink5"), "SomeDevice5", NetworkLinkOperationalState::Down),
        link_status(Some("SomeLink6"), "SomeDevice6", NetworkLinkOperationalState::NotFound),
        link_status(Some("SomeLink7"), "SomeDevice7", NetworkLinkOperationalState::Up),
        link_status(Some("SomeLink8"), "SomeDevice8", NetworkLinkOperationalState::Up),
        link_status(Some("SomeLink9"), "SomeDevice9", NetworkLinkOperationalState::Up),
    ]);
    assert_eq!(database.list_interface_status(), vec![
        NetworkInterfaceStatus::new(None, vec![v4("2.3.4.5", 32)], link_status(Some("SomeLink8"), "SomeDevice8", NetworkLinkOperationalState::Up)),
        NetworkInterfaceStatus::new(Some(String::from("SomeInterface4")), vec![], link_status(Some("SomeLink4"), "", NetworkLinkOperationalState::Misconfigured)),
        NetworkInterfaceStatus::new(Some(String::from("SomeInterface5")), vec![], link_status(Some("SomeLink5"), "SomeDevice5", NetworkLinkOperationalState::Down)),
        NetworkInterfaceStatus::new(Some(String::from("SomeInterface6")), vec![], link_status(Some("SomeLink6"), "SomeDevice6", NetworkLinkOperationalState::NotFound)),
        NetworkInterfaceStatus::new(Some(String::from("SomeInterface7")), vec![v4("1.2.3.4", 20)], link_status(Some("SomeLink7"), "SomeDevice7", NetworkLinkOperationalState::Up)),
        NetworkInterfaceStatus::new(Some(String::from("SomeInterface9")), vec![], link_status(Some("SomeLink9"), "SomeDevice9", NetworkLinkOperationalState::Up)),
    ]);
}

#[test]
pub fn test_interface_listener() {
    let config = six_link_config(true);
    let processor = NetlinkMessageProcessor::new(std::sync::Arc::new(config));
    let mut database = InterfaceManagerDatabase::new();
    database.set_link_status_item(NetworkStatusItem::new(
        CanonicalNetworkId::new(Some(110), None, Some(String::from("SomeDeviceA"))),
        link_status(None, "SomeDeviceA", NetworkLinkOperationalState::Down),
    ));
    println!("{:?}", database.list_interface_status());

    message_received(&mut database, &processor, new_link(101, "SomeDevice2", LinkState::Up), now_nanos());

    assert_eq!(database.list_link_status(), vec![
        link_status(None, "SomeDeviceA", NetworkLinkOperationalState::Down),
        link_status(Some("SomeLink2"), "SomeDevice2", NetworkLinkOperationalState::Up),
    ]);
}

#[test]
pub fn test_interface_manager_list_empty() {
    let config = router(&[], &[]);
    let processor = NetlinkMessageProcessor::new(std::sync::Arc::new(router(&[], &[])));
    let mut database = InterfaceManagerDatabase::new();
    try_poll(&config, &processor, vec![], vec![], &mut database, now_nanos());

    assert!(database.list_link_status() == vec![]);
    assert!(database.list_interface_status() == vec![]);
}

#[test]
fn listener_tracks_addresses_and_deletions() {
    let config = router(&[("SomeLink7", "SomeDevice7")], &[("SomeInterface7", "SomeLink7")]);
    let processor = NetlinkMessageProcessor::new(std::sync::Arc::new(router(&[("SomeLink7", "SomeDevice7")], &[("SomeInterface7", "SomeLink7")])));
    let mut database = InterfaceManagerDatabase::new();
    let start = 50 * SECOND;
    try_poll(&config, &processor, vec![new_link(107, "SomeDevice7", LinkState::Up)], vec![], &mut database, start);
    assert_eq!(database.list_interface_status()[0].get_addresses(), &vec![]);

    message_received(&mut database, &processor, new_address(107, 24, vec![10, 0, 0, 1]), start);
    let interfaces = database.list_interface_status();
    assert_eq!(interfaces.len(), 1);
    assert_eq!(interfaces[0].get_name(), &Some(String::from("SomeInterface7")));
    assert_eq!(interfaces[0].get_addresses(), &vec![v4("10.0.0.1", 24)]);

    message_received(
        &mut database,
        &processor,
        RouteMessage::DelAddress(AddressMessage {
            family: AddressFamily::Inet,
            prefix_len: 24,
            index: 107,
            attributes: vec![AddressAttribute::Address(vec![10, 0, 0, 1])],
        }),
        start,
    );
    assert_eq!(database.list_interface_status()[0].get_addresses(), &vec![]);

    message_received(
        &mut database,
        &processor,
        RouteMessage::DelLink(LinkMessage { index: 107, attributes: vec![LinkAttribute::IfName(String::from("SomeDevice7"))] }),
        start,
    );
    assert_eq!(database.list_link_status(), vec![
        link_status(Some("SomeLink7"), "SomeDevice7", NetworkLinkOperationalState::NotFound),
    ]);
    assert_eq!(
        database.list_interface_status()[0].get_network_link_status(),
        &link_status(Some("SomeLink7"), "SomeDevice7", NetworkLinkOperationalState::NotFound)
    );
}

#[test]
fn clock_readings() {
    assert_eq!(nanos_of_reading(3, 5), 3_000_000_005);
    assert_eq!(nanos_of_reading(-1, 0), 0);
    let a = now_nanos();
    let b = now_nanos();
    assert!(a > 0);
    assert!(b >= a);
}

#[test]
pub fn interface_test_list_network_interfaces_empty() {
    let config = router(&[], &[]);
    let processor = NetlinkMessageProcessor::new(std::sync::Arc::new(router(&[], &[])));
    let mut database = InterfaceManagerDatabase::new();
    let changes = try_poll(&config, &processor, vec![], vec![], &mut database, now_nanos());
    assert!(changes.updated_links.is_empty());
    assert!(changes.deleted_links.is_empty());
    assert!(changes.updated_interfaces.is_empty());
    assert!(changes.deleted_interfaces.is_empty());
}

#[test]
fn poll_reports_changes_and_losses() {
    let config = router(&[("SomeLink7", "SomeDevice7")], &[]);
    let processor = NetlinkMessageProcessor::new(std::sync::Arc::new(router(&[("SomeLink7", "SomeDevice7")], &[])));
    let mut database = InterfaceManagerDatabase::new();
    let first = try_poll(
        &config,
        &processor,
        vec![new_link(107, "SomeDevice7", LinkState::Up), new_link(110, "SomeDeviceA", LinkState::Up)],
        vec![new_address(110, 32, vec![3, 4, 5, 6])],
        &mut database,
        10 * SECOND,
    );
    assert_eq!(first.updated_links.len(), 2);
    assert_eq!(first.updated_interfaces.len(), 1);
    assert!(first.deleted_links.is_empty());

    let second = try_poll(&config, &processor, vec![new_link(107, "SomeDevice7", LinkState::Up)], vec![], &mut database, 30 * SECOND);
    assert!(second.updated_links.is_empty());
    assert_eq!(second.deleted_links.len(), 1);
    assert_eq!(second.deleted_links[0].get_status().get_device(), "SomeDeviceA");
    assert_eq!(second.deleted_interfaces.len(), 1);
    assert_eq!(
        second.deleted_interfaces[0].get_status().get_network_link_status().get_operational_state(),
        &NetworkLinkOperationalState::NotFound
    );
    assert_eq!(database.list_interface_status(), vec![]);
}
