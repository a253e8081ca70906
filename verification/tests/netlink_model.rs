use rusty_router::common::Error;
use rusty_router::model::{
    IpAddressType, NetworkInterfaceStatus, NetworkLinkOperationalState, NetworkLinkStatus,
};
use rusty_router::netlink::cache::NetlinkRouterCache;
use rusty_router::netlink::link::{NetlinkRustyRouterLink, NetlinkRustyRouterLinkStatus};
use rusty_router::netlink::route::NetlinkRustyRouterAddress;
use rusty_router::platform::instance::find_interface_device;
use rusty_router::platform::netlink::{
    AddressAttribute, AddressFamily, AddressMessage, LinkAttribute, LinkMessage, LinkState,
    RouteMessage,
};

#[test]
fn cache_lookups_follow_updates() {
    let mut cache = NetlinkRouterCache::new();
    assert_eq!(cache.lookup_interface_name(&3), None);
    cache.update_interface_cache(3, String::from("eth0"));
    cache.update_interface_cache(4, String::from("eth1"));
    assert_eq!(cache.lookup_interface_name(&3), Some(&String::from("eth0")));
    assert_eq!(cache.lookup_interface_index(&String::from("eth1")), Some(&4));
    cache.update_interface_cache(3, String::from("wan0"));
    assert_eq!(cache.lookup_interface_name(&3), Some(&String::from("wan0")));
    assert_eq!(cache.lookup_interface_index(&String::from("wan0")), Some(&3));
}

#[test]
fn new_link_messages_report_links() {
    let message = RouteMessage::NewLink(LinkMessage {
        index: 12,
        attributes: vec![LinkAttribute::OperState(LinkState::Down), LinkAttribute::IfName(String::from("eth2"))],
    });
    assert_eq!(
        NetlinkRustyRouterLink::process_link_message(message),
        Some(NetlinkRustyRouterLinkStatus { index: 12, name: String::from("eth2"), state: NetworkLinkOperationalState::Down })
    );
    let deleted = RouteMessage::DelLink(LinkMessage { index: 12, attributes: vec![LinkAttribute::IfName(String::from("eth2"))] });
    assert_eq!(NetlinkRustyRouterLink::process_link_message(deleted), None);
}

#[test]
fn new_address_messages_report_addresses() {
    let reader = NetlinkRustyRouterAddress::new();
    let message = RouteMessage::NewAddress(AddressMessage {
        family: AddressFamily::Inet,
        prefix_len: 16,
        index: 5,
        attributes: vec![AddressAttribute::Other, AddressAttribute::Address(vec![172, 16, 0, 9])],
    });
    let found = reader.process_address_message(message).expect("an address");
    assert_eq!(found.index, 5);
    assert_eq!(found.address.0, IpAddressType::IpV4);
    assert_eq!(found.address.1, "172.16.0.9");
    assert_eq!(found.address.2, 16);
    let deleted = RouteMessage::DelAddress(AddressMessage {
        family: AddressFamily::Inet,
        prefix_len: 16,
        index: 5,
        attributes: vec![AddressAttribute::Address(vec![172, 16, 0, 9])],
    });
    assert!(reader.process_address_message(deleted).is_none());
}

#[test]
fn device_of_named_interface() {
    let statuses = vec![
        NetworkInterfaceStatus::new(
            Some(String::from("lan")),
            vec![],
            NetworkLinkStatus::new(Some(String::from("l1")), String::from("eth0"), NetworkLinkOperationalState::Up),
        ),
        NetworkInterfaceStatus::new(
            Some(String::from("wan")),
            vec![],
            NetworkLinkStatus::new(Some(String::from("l2")), String::from("eth1"), NetworkLinkOperationalState::Up),
        ),
    ];
    match find_interface_device(statuses, &String::from("wan")) {
        Ok(device) => assert_eq!(device, "eth1"),
        Err(e) => panic!("unexpected {}", e.to_string()),
    }
    match find_interface_device(vec![], &String::from("dmz")) {
        Err(e @ Error::IllegalState(_)) => assert_eq!(e.to_string(), "Illegal State Error: Failed to find a device matching dmz"),
        Err(e) => panic!("unexpected {}", e.to_string()),
        Ok(device) => panic!("unexpected {}", device),
    }
}

#[test]
fn error_messages() {
    assert_eq!(Error::Protocol(String::from("bad")).to_string(), "Protocol Error: bad");
    let io = std::io::Error::new(std::io::ErrorKind::Other, "boom");
    assert_eq!(Error::Io(io, String::from("reading")).to_string(), "Io Error: boom - reading");
    assert_eq!(NetworkLinkOperationalState::Misconfigured.to_string(), "Misconfigured");
}

#[test]
fn link_dump_by_index() {
    let messages = vec![
        RouteMessage::NewLink(LinkMessage { index: 1, attributes: vec![LinkAttribute::IfName(String::from("lo"))] }),
        RouteMessage::NewLink(LinkMessage {
            index: 2,
            attributes: vec![LinkAttribute::IfName(String::from("eth0")), LinkAttribute::OperState(LinkState::Down)],
        }),
        RouteMessage::NewLink(LinkMessage { index: 3, attributes: vec![] }),
        RouteMessage::NewLink(LinkMessage {
            index: 2,
            attributes: vec![LinkAttribute::IfName(String::from("eth0")), LinkAttribute::OperState(LinkState::Up)],
        }),
    ];
    let links = NetlinkRustyRouterLink::list_network_interfaces(messages);
    assert_eq!(links.len(), 2);
    assert_eq!(links[&1], NetlinkRustyRouterLinkStatus { index: 1, name: String::from("lo"), state: NetworkLinkOperationalState::Unknown });
    assert_eq!(links[&2], NetlinkRustyRouterLinkStatus { index: 2, name: String::from("eth0"), state: NetworkLinkOperationalState::Up });
}

#[test]
fn address_dump_by_index() {
    let address = |index: u32, bytes: Vec<u8>| {
        RouteMessage::NewAddress(AddressMessage {
            family: AddressFamily::Inet,
            prefix_len: 24,
            index,
            attributes: vec![AddressAttribute::Address(bytes)],
        })
    };
    let reader = NetlinkRustyRouterAddress::new();
    let found = reader.list_router_interfaces(vec![
        address(4, vec![10, 0, 0, 1]),
        address(5, vec![10, 0, 1, 1]),
        address(4, vec![10, 0, 0, 2]),
        RouteMessage::Other,
    ]);
    assert_eq!(found.len(), 2);
    let four: Vec<String> = found[&4].addresses.iter().map(|a| a.to_string()).collect();
    assert_eq!(four, vec![String::from("10.0.0.1/24"), String::from("10.0.0.2/24")]);
    assert_eq!(found[&5].addresses.len(), 1);
}
