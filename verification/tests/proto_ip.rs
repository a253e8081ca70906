use rusty_router::net::Ipv4Addr;
use rusty_router::proto_common::{InternetChecksum, ProtocolError};
use rusty_router::proto_ip::{IpV4Header, IpV4HeaderBuilder, IpVersion, Ipv4Flag, Ipv4Flags};

type Result<T> = std::result::Result<T, ProtocolError>;

#[test]
fn parse_header() -> Result<()> {
    let data = [
        0x45, 12, 34, 56, 78, 90, 0xD1, 98, 127, 89, 0x88, 0x8f, 127, 0, 0, 1, 8, 9, 10, 11,
    ];
    let header = IpV4Header::try_from(&data[..])?;
    assert_eq!(InternetChecksum::checksum(&data[..])?, 57343);
    assert_eq!(header.get_version(), &IpVersion::ipv4());
    assert_eq!(header.get_internet_header_length(), 20 / 4);
    assert_eq!(header.get_total_length(), 8760);
    assert_eq!(header.get_identification(), 20058);
    assert_eq!(
        header.get_flags(),
        &Ipv4Flags::new(&[Ipv4Flag::DontFragment, Ipv4Flag::MoreFragments])
    );
    assert_eq!(header.get_type_of_service(), 12);
    assert_eq!(header.get_fragment_offset(), 35600);
    assert_eq!(header.get_time_to_live(), 127);
    assert_eq!(header.get_protocol(), 89);
    assert_eq!(header.get_header_checksum(), 0x888F);
    assert_eq!(header.get_source_address(), Ipv4Addr::from(127 << 24 | 1));
    assert_eq!(
        header.get_destination_address(),
        Ipv4Addr::from(8 << 24 | 9 << 16 | 10 << 8 | 11)
    );
    Ok(())
}

#[test]
fn parse_small_header_sad() {
    let data = [
        0x45, 12, 34, 56, 78, 90, 0xB1, 98, 127, 89, 0x88, 0x8f, 127, 1, 8, 9, 10, 11,
    ];

    if let Err(e) = IpV4Header::try_from(&data[..]) {
        assert_eq!(
            e.to_string(),
            "[IPv4] Expecting data of at least 20 bytes but only 18 bytes are available"
                .to_string()
        );
    } else {
        assert!(false, "Result was expected to be an Err");
    }
}

#[test]
fn parse_insufficient_header_data_sad() {
    let data = [
        0x46, 12, 34, 56, 78, 90, 0xB1, 98, 127, 89, 0x88, 0x8f, 127, 0, 0, 1, 8, 9, 10, 11,
    ];

    if let Err(e) = IpV4Header::try_from(&data[..]) {
        assert_eq!(
            e.to_string(),
            "[IPv4] Expecting data of at least 24 bytes but only 20 bytes are available"
                .to_string()
        );
    } else {
        assert!(false, "Result was expected to be an Err");
    }
}

#[test]
fn parse_invalid_header_length_sad() {
    let data = [
        0x44, 12, 34, 56, 78, 90, 0xB1, 98, 127, 89, 0x88, 0x8f, 127, 0, 0, 1, 8, 9, 10, 11,
    ];

    if let Err(e) = IpV4Header::try_from(&data[..]) {
        assert_eq!(
            e.to_string(),
            "[IPv4] The value '4' for field 'Internet Header Length' is not supported"
                .to_string()
        );
    } else {
        assert!(false, "Result was expected to be an Err");
    }
}

#[test]
fn parse_inversion_sad() {
    let data = [
        0x35, 12, 34, 56, 78, 90, 0xB1, 98, 127, 89, 0x88, 0x8f, 127, 0, 0, 1, 8, 9, 10, 11,
    ];

    if let Err(e) = IpV4Header::try_from(&data[..]) {
        assert_eq!(
            e.to_string(),
            "[IPv4] The value '3' for field 'Version' is not supported".to_string()
        );
    } else {
        assert!(false, "Result was expected to be an Err");
    }
}

#[test]
fn serialized_header_parses_back() -> Result<()> {
    let data = [
        0x45, 12, 34, 56, 78, 90, 0x40, 0, 127, 89, 0x88, 0x8f, 127, 0, 0, 1, 8, 9, 10, 11,
    ];
    let header = IpV4Header::try_from(&data[..])?;
    let bytes: Vec<u8> = Vec::from(&header);
    assert_eq!(bytes, data.to_vec());
    let again = IpV4Header::try_from(&bytes[..])?;
    assert_eq!(again.get_identification(), header.get_identification());
    assert_eq!(again.get_flags(), header.get_flags());
    Ok(())
}

#[test]
fn flags_from_bits() {
    let flags = Ipv4Flags::try_from(3u8).unwrap();
    // The field holds three bits, never all eight that the test looks for.
    assert!(!flags.is_set(Ipv4Flag::Reserved));
    assert!(!flags.is_set(Ipv4Flag::DontFragment));
    assert!(!flags.is_set(Ipv4Flag::MoreFragments));
    assert_eq!(u8::from(&flags), 3);
    assert!(Ipv4Flags::try_from(8u8).is_err());
}

#[test]
fn version_values() {
    assert_eq!(IpVersion::ipv4().get_value(), 4);
    assert_eq!(IpVersion::ipv6().get_value(), 6);
    assert!(IpVersion::custom(16).is_err());
    assert_eq!(IpVersion::custom(7).unwrap().get_value(), 7);
}

#[test]
fn builder_fills_length_and_checksum() -> Result<()> {
    let mut builder = IpV4HeaderBuilder::new(Ipv4Addr::new(10, 0, 0, 1), Ipv4Addr::new(224, 0, 0, 5), 89);
    builder.force_identification(Some(0x1234));
    let header = builder.build(44)?;
    assert_eq!(header.get_total_length(), 64);
    assert_eq!(header.get_identification(), 0x1234);
    assert_eq!(header.get_internet_header_length(), 5);
    assert_eq!(header.get_time_to_live(), 128);
    let bytes: Vec<u8> = Vec::from(&header);
    assert_eq!(InternetChecksum::checksum(&bytes[..])?, 0);
    Ok(())
}

#[test]
fn builder_draws_identifications() -> Result<()> {
    let mut seen = std::collections::HashSet::new();
    for _ in 0..16 {
        let builder = IpV4HeaderBuilder::new(Ipv4Addr::new(10, 0, 0, 1), Ipv4Addr::new(10, 0, 0, 2), 6);
        seen.insert(builder.build(0)?.get_identification());
    }
    assert!(seen.len() > 1);
    Ok(())
}

#[test]
fn builder_refuses_oversized_payload() {
    let builder = IpV4HeaderBuilder::new(Ipv4Addr::new(10, 0, 0, 1), Ipv4Addr::new(10, 0, 0, 2), 6);
    match builder.build(65516) {
        Err(ProtocolError::InvalidLength(_, 65515, 65516)) => {}
        other => panic!("unexpected {:?}", other.map(|h| h.get_total_length())),
    }
    let mut builder = IpV4HeaderBuilder::new(Ipv4Addr::new(10, 0, 0, 1), Ipv4Addr::new(10, 0, 0, 2), 6);
    assert!(builder.force_internet_header_length(Some(16)).is_err());
}

#[test]
fn built_header_reads_back() -> Result<()> {
    let mut builder = IpV4HeaderBuilder::new(Ipv4Addr::new(192, 168, 1, 1), Ipv4Addr::new(224, 0, 0, 5), 89);
    builder.force_identification(Some(77));
    let header = builder.build(100)?;
    let again = IpV4Header::try_from(&Vec::<u8>::from(&header)[..])?;
    assert_eq!(again.get_version(), header.get_version());
    assert_eq!(again.get_internet_header_length(), header.get_internet_header_length());
    assert_eq!(again.get_type_of_service(), header.get_type_of_service());
    assert_eq!(again.get_total_length(), header.get_total_length());
    assert_eq!(again.get_identification(), header.get_identification());
    assert_eq!(again.get_flags(), header.get_flags());
    assert_eq!(again.get_fragment_offset(), header.get_fragment_offset());
    assert_eq!(again.get_time_to_live(), header.get_time_to_live());
    assert_eq!(again.get_protocol(), header.get_protocol());
    assert_eq!(again.get_header_checksum(), header.get_header_checksum());
    assert_eq!(again.get_source_address(), header.get_source_address());
    assert_eq!(again.get_destination_address(), header.get_destination_address());
    Ok(())
}
