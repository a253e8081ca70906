use rusty_router::net::{Ipv4Addr, Ipv4Netmask};
use rusty_router::ospfv2::packet::{OspfHelloPacket, OspfHelloPacketBuilder, OspfMessageType};
use rusty_router::proto_common::{InternetChecksum, ProtocolError};
use rusty_router::speaker::{all_spf_routers, reply_to_packet};
use std::convert::TryFrom;

fn sample_builder(neighbors: Vec<Ipv4Addr>) -> OspfHelloPacketBuilder {
    OspfHelloPacketBuilder::new(
        Ipv4Addr::new(2, 2, 2, 2),
        Ipv4Addr::new(0, 0, 0, 0),
        Ipv4Netmask::new(4294967292),
        10,
        2,
        5,
        40,
        Ipv4Addr::new(172, 16, 10, 1),
        Ipv4Addr::new(0, 0, 0, 0),
        neighbors,
    )
}

#[test]
fn hello_build_then_parse() -> Result<(), ProtocolError> {
    let packet = sample_builder(vec![Ipv4Addr::new(1, 1, 1, 1), Ipv4Addr::new(3, 3, 3, 3)]).build()?;
    assert_eq!(packet.header().get_type(), &OspfMessageType::Hello);
    assert_eq!(packet.header().get_length(), 52);
    let bytes = Result::<Vec<u8>, ProtocolError>::from(&packet)?;
    assert_eq!(bytes.len(), 52);
    assert_eq!(InternetChecksum::checksum(&bytes[..])?, 0);
    let parsed = OspfHelloPacket::try_from(&bytes[..])?;
    assert_eq!(parsed.hello_interval(), 10);
    assert_eq!(parsed.options(), 2);
    assert_eq!(parsed.router_priority(), 5);
    assert_eq!(parsed.router_dead_interval(), 40);
    assert_eq!(parsed.network_mask().netmask_number(), 4294967292);
    assert_eq!(parsed.designated_router(), Ipv4Addr::new(172, 16, 10, 1));
    assert_eq!(parsed.backup_designated_router(), Ipv4Addr::new(0, 0, 0, 0));
    assert_eq!(parsed.neighbors(), &[Ipv4Addr::new(1, 1, 1, 1), Ipv4Addr::new(3, 3, 3, 3)][..]);
    assert_eq!(parsed.header().get_checksum(), packet.header().get_checksum());
    Ok(())
}

#[test]
fn hello_refuses_too_many_neighbors() {
    let neighbors = vec![Ipv4Addr::new(1, 1, 1, 1); 16373];
    match sample_builder(neighbors).build() {
        Err(ProtocolError::UnsupportedFieldValue(_, _, 16373)) => {}
        Err(e) => panic!("unexpected {}", e.to_string()),
        Ok(_) => panic!("expected an error"),
    }
}

#[test]
fn hello_refuses_authenticated_packet() -> Result<(), ProtocolError> {
    let packet = sample_builder(vec![]).build()?;
    let mut bytes = Result::<Vec<u8>, ProtocolError>::from(&packet)?;
    bytes[15] = 1;
    bytes[12] = 0;
    bytes[13] = 0;
    let c = InternetChecksum::checksum(&bytes[..])?;
    bytes[12] = (c >> 8) as u8;
    bytes[13] = (c & 0xff) as u8;
    match OspfHelloPacket::try_from(&bytes[..]) {
        Err(ProtocolError::UnsupportedFieldValue(_, field, 1)) => assert_eq!(field, "AuthType"),
        Err(e) => panic!("unexpected {}", e.to_string()),
        Ok(_) => panic!("expected an error"),
    }
    Ok(())
}

#[test]
fn speaker_answers_other_routers_only() -> Result<(), ProtocolError> {
    assert_eq!(all_spf_routers(), Ipv4Addr::new(224, 0, 0, 5));
    let data = [
        0x45, 0, 0, 20, 0, 0, 0x40, 0, 1, 89, 0, 0, 10, 0, 0, 7, 224, 0, 0, 5,
    ];
    assert_eq!(reply_to_packet(&data[..], Ipv4Addr::new(10, 0, 0, 7))?, None);
    let reply = reply_to_packet(&data[..], Ipv4Addr::new(10, 0, 0, 8))?.expect("a hello");
    let expected = Result::<Vec<u8>, ProtocolError>::from(&sample_builder(vec![Ipv4Addr::new(1, 1, 1, 1)]).build()?)?;
    assert_eq!(reply, expected);
    assert!(reply_to_packet(&data[..10], Ipv4Addr::new(10, 0, 0, 8)).is_err());
    Ok(())
}

#[test]
fn hello_with_large_word_sum_parses_back() -> Result<(), ProtocolError> {
    let neighbors = vec![Ipv4Addr::new(255, 255, 255, 255); 40];
    let packet = OspfHelloPacketBuilder::new(
        Ipv4Addr::new(255, 255, 255, 255),
        Ipv4Addr::new(255, 255, 255, 255),
        Ipv4Netmask::new(0xFFFF_FFFF),
        0xFFFF,
        0xFF,
        0xFF,
        0xFFFF_FFFF,
        Ipv4Addr::new(255, 255, 255, 255),
        Ipv4Addr::new(255, 255, 255, 255),
        neighbors,
    )
    .build()?;
    let bytes = Result::<Vec<u8>, ProtocolError>::from(&packet)?;
    assert_eq!(InternetChecksum::checksum(&bytes[..])?, 0);
    let parsed = OspfHelloPacket::try_from(&bytes[..])?;
    assert_eq!(parsed.neighbors().len(), 40);
    assert_eq!(parsed.header().get_checksum(), packet.header().get_checksum());
    Ok(())
}
