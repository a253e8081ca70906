use rusty_router::collections::StringMap;
use rusty_router::model::{
    IpAddress, IpAddressType, NetworkLink, NetworkLinkOperationalState, NetworkLinkStatus,
    NetworkLinkType, Router,
};
use rusty_router::platform::netlink::processor::NetlinkMessageProcessor;
use rusty_router::platform::netlink::{
    AddressAttribute, AddressFamily, AddressMessage, LinkAttribute, LinkMessage, LinkState,
    RouteMessage,
};
use std::sync::Arc;

fn empty_router() -> Arc<Router> {
    Arc::new(Router::new(StringMap::new(), StringMap::new(), StringMap::new()))
}

fn three_link_router() -> Arc<Router> {
    let mut links = StringMap::new();
    links.insert(String::from("NetworkLink1"), NetworkLink::new(String::from("Device1"), NetworkLinkType::GenericInterface));
    links.insert(String::from("NetworkLink2"), NetworkLink::new(String::from("Device2"), NetworkLinkType::GenericInterface));
    links.insert(String::from("NetworkLink3"), NetworkLink::new(String::from("Device3"), NetworkLinkType::GenericInterface));
    Arc::new(Router::new(links, StringMap::new(), StringMap::new()))
}

fn link(index: u32, attributes: Vec<LinkAttribute>) -> LinkMessage {
    LinkMessage { index, attributes }
}

fn address(family: AddressFamily, index: u32, prefix_len: u8, bytes: Option<Vec<u8>>) -> AddressMessage {
    AddressMessage {
        family,
        prefix_len,
        index,
        attributes: match bytes {
            Some(b) => vec![AddressAttribute::Address(b)],
            None => vec![],
        },
    }
}

fn check_link_messages(subject: &NetlinkMessageProcessor) {
    assert!(subject.process_link_message(RouteMessage::NewLink(link(7, vec![]))) == None);

    assert!(
        subject.process_link_message(RouteMessage::NewLink(link(10, vec![LinkAttribute::IfName(String::from("SomeDevice"))])))
            == Some((10, NetworkLinkStatus::new(None, String::from("SomeDevice"), NetworkLinkOperationalState::Unknown)))
    );

    assert!(
        subject.process_link_message(RouteMessage::NewLink(link(10, vec![LinkAttribute::IfName(String::from("SomeDevice"))])))
            == Some((10, NetworkLinkStatus::new(None, String::from("SomeDevice"), NetworkLinkOperationalState::Unknown)))
    );

    assert!(
        subject.process_link_message(RouteMessage::NewLink(link(
            15,
            vec![LinkAttribute::IfName(String::from("SomeDevice1")), LinkAttribute::OperState(LinkState::Up)]
        ))) == Some((15, NetworkLinkStatus::new(None, String::from("SomeDevice1"), NetworkLinkOperationalState::Up)))
    );

    assert!(
        subject.process_link_message(RouteMessage::DelLink(link(
            15,
            vec![LinkAttribute::IfName(String::from("SomeDevice1")), LinkAttribute::OperState(LinkState::Other)]
        ))) == Some((15, NetworkLinkStatus::new(None, String::from("SomeDevice1"), NetworkLinkOperationalState::Unknown)))
    );

    // A request for links is no report.
    assert!(subject.process_link_message(RouteMessage::Other) == None);
}

fn check_configured_link_messages(subject: &NetlinkMessageProcessor) {
    assert!(subject.process_link_message(RouteMessage::NewLink(link(0, vec![]))) == None);

    assert!(
        subject.process_link_message(RouteMessage::NewLink(link(
            15,
            vec![LinkAttribute::IfName(String::from("SomeDevice1")), LinkAttribute::OperState(LinkState::Up)]
        ))) == Some((15, NetworkLinkStatus::new(None, String::from("SomeDevice1"), NetworkLinkOperationalState::Up)))
    );

    assert!(
        subject.process_link_message(RouteMessage::NewLink(link(
            20,
            vec![LinkAttribute::IfName(String::from("Device2")), LinkAttribute::OperState(LinkState::Down)]
        ))) == Some((
            20,
            NetworkLinkStatus::new(Some(String::from("NetworkLink2")), String::from("Device2"), NetworkLinkOperationalState::Down)
        ))
    );
}

#[test]
pub fn processor_test_process_link_message() {
    check_link_messages(&NetlinkMessageProcessor::new(empty_router()));
    check_configured_link_messages(&NetlinkMessageProcessor::new(three_link_router()));
}

#[test]
pub fn mod_test_process_link_message() {
    check_link_messages(&NetlinkMessageProcessor::new(empty_router()));
    check_configured_link_messages(&NetlinkMessageProcessor::new(three_link_router()));
}

fn check_address_messages(subject: &NetlinkMessageProcessor) {
    assert!(subject.process_address_message(RouteMessage::NewAddress(address(AddressFamily::Other(3), 4, 9, None))) == None);

    assert!(
        subject.process_address_message(RouteMessage::NewAddress(address(AddressFamily::Inet, 10, 20, Some(vec![1, 2, 3, 4]))))
            == Some((10, IpAddress::new(IpAddressType::IpV4, String::from("1.2.3.4"), 20)))
    );

    assert!(
        subject.process_address_message(RouteMessage::DelAddress(address(
            AddressFamily::Inet6,
            15,
            56,
            Some(vec![16, 15, 14, 13, 12, 11, 10, 9, 8, 7, 6, 5, 4, 3, 2, 1])
        ))) == Some((15, IpAddress::new(IpAddressType::IpV6, String::from("100f:e0d:c0b:a09:807:605:403:201"), 56)))
    );

    // A request for addresses is no report.
    assert!(subject.process_address_message(RouteMessage::Other) == None);
}

#[test]
pub fn processor_test_process_address_message() {
    check_address_messages(&NetlinkMessageProcessor::new(empty_router()));
}

#[test]
pub fn mod_test_process_address_message() {
    check_address_messages(&NetlinkMessageProcessor::new(empty_router()));
}

#[test]
fn address_of_wrong_length_is_no_report() {
    let subject = NetlinkMessageProcessor::new(empty_router());
    assert!(subject.process_address_message(RouteMessage::NewAddress(address(AddressFamily::Inet, 1, 8, Some(vec![1, 2, 3])))) == None);
    assert!(subject.process_address_message(RouteMessage::NewLink(link(1, vec![]))) == None);
}

#[test]
fn ipv6_text_forms() {
    let subject = NetlinkMessageProcessor::new(empty_router());
    let report = |bytes: Vec<u8>| match subject.process_address_message(RouteMessage::NewAddress(address(AddressFamily::Inet6, 1, 64, Some(bytes)))) {
        Some((_, a)) => a.1,
        None => panic!("expected an address"),
    };
    assert_eq!(report(vec![0; 16]), "::");
    assert_eq!(report(vec![0, 0, 0, 0, 0, 0, 0, 0, 0, 0, 0, 0, 0, 0, 0, 1]), "::1");
    assert_eq!(report(vec![0xfe, 0x80, 0, 0, 0, 0, 0, 0, 0, 0, 0, 0, 0, 0, 0, 1]), "fe80::1");
    assert_eq!(report(vec![0, 0, 0, 0, 0, 0, 0, 0, 0, 0, 0xff, 0xff, 192, 168, 0, 1]), "::ffff:192.168.0.1");
    assert_eq!(report(vec![0x20, 0x01, 0x0d, 0xb8, 0, 1, 0, 0, 0, 1, 0, 0, 0, 0, 0, 1]), "2001:db8:1:0:1::1");
    assert_eq!(
        IpAddress::new(IpAddressType::IpV4, String::from("10.0.0.1"), 24).to_string(),
        "10.0.0.1/24"
    );
}
