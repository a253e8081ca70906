use rusty_router::net::Ipv4Addr;
use rusty_router::ospfv2::packet::{
    OspfAuthenticationHeader, OspfAuthenticationType, OspfHeader, OspfHeaderBuilder,
    OspfMessageType, OspfVersion,
};
use rusty_router::proto_common::ProtocolError;
use std::convert::TryFrom;
use std::result::Result;

#[test]
fn header_it_parses_version() -> Result<(), ProtocolError> {
    assert_eq!(OspfVersion::try_from(2)?, OspfVersion::V2);
    Ok(())
}

#[test]
fn header_it_fails_to_parse_version() {
    if let Err(e) = OspfVersion::try_from(5) {
        assert_eq!(
            e.to_string(),
            "[OspfV2] The value '5' for field 'Version' is not supported".to_string()
        );
    } else {
        assert!(false, "Result was expected to be an Err");
    }
}

#[test]
fn header_it_parses_type() -> Result<(), ProtocolError> {
    assert_eq!(OspfMessageType::try_from(1)?, OspfMessageType::Hello);
    assert_eq!(
        OspfMessageType::try_from(2)?,
        OspfMessageType::DatabaseDescription
    );
    assert_eq!(
        OspfMessageType::try_from(3)?,
        OspfMessageType::LinkStateRequest
    );
    assert_eq!(
        OspfMessageType::try_from(4)?,
        OspfMessageType::LinkStateUpdate
    );
    assert_eq!(
        OspfMessageType::try_from(5)?,
        OspfMessageType::LinkStateAcknoledgement
    );
    Ok(())
}

#[test]
fn header_it_fails_to_parse_type() {
    if let Err(e) = OspfMessageType::try_from(0) {
        assert_eq!(
            e.to_string(),
            "[OspfV2] The value '0' for field 'Type' is not supported".to_string()
        );
    } else {
        assert!(false, "Result was expected to be an Err");
    }
}

#[test]
fn header_it_parses_authn_type() -> Result<(), ProtocolError> {
    assert_eq!(
        OspfAuthenticationType::try_from(0)?,
        OspfAuthenticationType::Null
    );
    assert_eq!(
        OspfAuthenticationType::try_from(1)?,
        OspfAuthenticationType::SimplePassword
    );
    assert_eq!(
        OspfAuthenticationType::try_from(2)?,
        OspfAuthenticationType::CryptographicAuthentication
    );
    Ok(())
}

#[test]
fn header_it_fails_to_parse_authn_type() {
    if let Err(e) = OspfAuthenticationType::try_from(10) {
        assert_eq!(
            e.to_string(),
            "[OspfV2] The value '10' for field 'AuthenticationType' is not supported"
                .to_string()
        );
    } else {
        assert!(false, "Result was expected to be an Err");
    }
}

#[test]
fn header_it_parses_authn_header() -> Result<(), ProtocolError> {
    assert_eq!(
        OspfAuthenticationHeader::new(
            &OspfAuthenticationType::Null,
            &[34, 12, 98, 234, 1, 0, 22, 4]
        )?,
        OspfAuthenticationHeader::Null
    );
    assert_eq!(
        OspfAuthenticationHeader::new(
            &OspfAuthenticationType::SimplePassword,
            &[34, 12, 98, 234, 1, 0, 22, 4]
        )?,
        OspfAuthenticationHeader::SimplePassword([34, 12, 98, 234, 1, 0, 22, 4])
    );
    assert_ne!(
        OspfAuthenticationHeader::new(
            &OspfAuthenticationType::SimplePassword,
            &[34, 12, 98, 234, 1, 0, 21, 4]
        )?,
        OspfAuthenticationHeader::SimplePassword([34, 12, 98, 234, 1, 0, 22, 4])
    );
    assert_eq!(
        OspfAuthenticationHeader::new(
            &OspfAuthenticationType::CryptographicAuthentication,
            &[34, 12, 98, 234, 254, 0, 22, 4]
        )?,
        OspfAuthenticationHeader::CryptographicAuthentication {
            key_id: 98,
            authentication_data_length: 234,
            cryptographic_sequence_number: 4261418500,
        }
    );
    assert_ne!(
        OspfAuthenticationHeader::new(
            &OspfAuthenticationType::CryptographicAuthentication,
            &[34, 12, 98, 234, 62, 0, 22, 4]
        )?,
        OspfAuthenticationHeader::CryptographicAuthentication {
            key_id: 98,
            authentication_data_length: 234,
            cryptographic_sequence_number: 4261418500,
        }
    );
    Ok(())
}

#[test]
fn header_it_parse_ospf_header_happy_null_auth() -> Result<(), ProtocolError> {
    let subject = OspfHeader::try_from(
        &[
            2, 1, 0, 24, 127, 0, 0, 1, 0, 0, 0, 1, 126, 228, 0, 0, 0, 0, 0, 0, 0, 0, 0, 0,
        ][..],
    )?;
    assert_eq!(subject.get_version(), &OspfVersion::V2);
    assert_eq!(subject.get_type(), &OspfMessageType::Hello);
    assert_eq!(subject.get_length(), 24);
    assert_eq!(subject.get_router_id(), Ipv4Addr::from(2130706433));
    assert_eq!(subject.get_area_id(), Ipv4Addr::from(1));
    assert_eq!(subject.get_checksum(), 32484);
    assert_eq!(
        subject.get_authentication_type(),
        &OspfAuthenticationType::Null
    );
    assert_eq!(
        subject.get_authentication_header(),
        &OspfAuthenticationHeader::Null
    );
    Ok(())
}

#[test]
fn it_parse_ospf_header_happy_null_auth_longer_packet() -> Result<(), ProtocolError> {
    let subject = OspfHeader::try_from(
        &[
            2, 1, 0, 24, 127, 0, 0, 1, 0, 0, 0, 1, 126, 228, 0, 0, 0, 0, 0, 0, 0, 0, 0, 0, 1,
            2, 3, 4, 5,
        ][..],
    )?;
    assert_eq!(subject.get_version(), &OspfVersion::V2);
    assert_eq!(subject.get_type(), &OspfMessageType::Hello);
    assert_eq!(subject.get_length(), 24);
    assert_eq!(subject.get_router_id(), Ipv4Addr::from(2130706433));
    assert_eq!(subject.get_area_id(), Ipv4Addr::from(1));
    assert_eq!(subject.get_checksum(), 32484);
    assert_eq!(
        subject.get_authentication_type(),
        &OspfAuthenticationType::Null
    );
    assert_eq!(
        subject.get_authentication_header(),
        &OspfAuthenticationHeader::Null
    );
    Ok(())
}

#[test]
fn header_it_parse_ospf_header_too_short_sad() -> Result<(), ProtocolError> {
    if let Err(e) = OspfHeader::try_from(
        &[
            2, 1, 0, 24, 127, 0, 0, 1, 0, 0, 0, 1, 126, 228, 0, 0, 0, 0, 0, 0, 0, 0, 0,
        ][..],
    ) {
        assert_eq!(
            e.to_string(),
            "[OspfV2] Expecting header to be 24 bytes but only 23 bytes are available"
                .to_string()
        );
    } else {
        assert!(false, "Result was expected to be an Err");
    }
    Ok(())
}

#[test]
fn it_parse_ospf_packet_too_short() -> Result<(), ProtocolError> {
    if let Err(e) = OspfHeader::try_from(
        &[
            2, 1, 1, 0, 127, 0, 0, 1, 0, 0, 0, 1, 126, 228, 0, 0, 0, 0, 0, 0, 0, 0, 0, 0,
        ][..],
    ) {
        assert_eq!(
            e.to_string(),
            "[OspfV2] Expecting data of at least 256 bytes but only 24 bytes are available"
                .to_string()
        );
    } else {
        assert!(false, "Result was expected to be an Err");
    }
    Ok(())
}

#[test]
fn header_it_parse_ospf_header_happy_simple_auth() -> Result<(), ProtocolError> {
    let subject = OspfHeader::try_from(
        &[
            2, 1, 0, 24, 127, 0, 0, 1, 0, 0, 0, 1, 126, 227, 0, 1, 10, 11, 12, 13, 14, 15, 16,
            17,
        ][..],
    )?;
    assert_eq!(subject.get_version(), &OspfVersion::V2);
    assert_eq!(subject.get_type(), &OspfMessageType::Hello);
    assert_eq!(subject.get_length(), 24);
    assert_eq!(subject.get_router_id(), Ipv4Addr::from(2130706433));
    assert_eq!(subject.get_area_id(), Ipv4Addr::from(1));
    assert_eq!(subject.get_checksum(), 32483);
    assert_eq!(
        subject.get_authentication_type(),
        &OspfAuthenticationType::SimplePassword
    );
    assert_eq!(
        subject.get_authentication_header(),
        &OspfAuthenticationHeader::SimplePassword([10, 11, 12, 13, 14, 15, 16, 17])
    );
    Ok(())
}

#[test]
fn header_it_parse_ospf_header_happy_crypto_auth() -> Result<(), ProtocolError> {
    let subject = OspfHeader::try_from(
        &[
            2, 1, 0, 24, 127, 0, 0, 1, 0, 0, 0, 1, 0, 0, 0, 2, 10, 11, 12, 13, 14, 15, 16, 17,
        ][..],
    )?;
    assert_eq!(subject.get_version(), &OspfVersion::V2);
    assert_eq!(subject.get_type(), &OspfMessageType::Hello);
    assert_eq!(subject.get_length(), 24);
    assert_eq!(subject.get_router_id(), Ipv4Addr::from(2130706433));
    assert_eq!(subject.get_area_id(), Ipv4Addr::from(1));
    assert_eq!(subject.get_checksum(), 0);
    assert_eq!(
        subject.get_authentication_type(),
        &OspfAuthenticationType::CryptographicAuthentication
    );
    assert_eq!(
        subject.get_authentication_header(),
        &OspfAuthenticationHeader::CryptographicAuthentication {
            key_id: 12,
            authentication_data_length: 13,
            cryptographic_sequence_number: 235868177,
        }
    );
    Ok(())
}

#[test]
fn header_writes_back_as_read() -> Result<(), ProtocolError> {
    let data = [2, 1, 0, 24, 127, 0, 0, 1, 0, 0, 0, 1, 126, 227, 0, 1, 10, 11, 12, 13, 14, 15, 16, 17];
    let subject = OspfHeader::try_from(&data[..])?;
    let bytes: Vec<u8> = Vec::from(&subject);
    assert_eq!(bytes, data.to_vec());
    Ok(())
}

#[test]
fn header_refuses_bad_checksum() {
    match OspfHeader::try_from(&[2, 1, 0, 24, 127, 0, 0, 1, 0, 0, 0, 1, 126, 229, 0, 0, 0, 0, 0, 0, 0, 0, 0, 0][..]) {
        Err(ProtocolError::InvalidChecksum { expected, actual, .. }) => {
            assert_eq!(expected, 32484);
            assert_eq!(actual, 32485);
        }
        other => panic!("unexpected {:?}", other),
    }
}

#[test]
fn header_field_numbers() {
    assert_eq!(u8::from(&OspfVersion::V2), 2);
    assert_eq!(u8::from(&OspfMessageType::LinkStateUpdate), 4);
    assert_eq!(u16::from(&OspfAuthenticationType::CryptographicAuthentication), 2);
    assert_eq!(u64::from(&OspfAuthenticationHeader::SimplePassword([1, 2, 3, 4, 5, 6, 7, 8])), 0x0102030405060708);
}

#[test]
fn header_builder_builds_null_auth_header() {
    let header = OspfHeaderBuilder::new(OspfMessageType::Hello, 44, Ipv4Addr::new(1, 2, 3, 4), Ipv4Addr::new(0, 0, 0, 0))
        .with_checksum(0xabcd)
        .build();
    assert_eq!(header.get_version(), &OspfVersion::V2);
    assert_eq!(header.get_length(), 44);
    assert_eq!(header.get_checksum(), 0xabcd);
    assert_eq!(header.get_router_id(), Ipv4Addr::new(1, 2, 3, 4));
    assert_eq!(header.get_authentication_header(), &OspfAuthenticationHeader::Null);
}

#[test]
fn header_checksum_leaves_out_authentication_data() -> Result<(), ProtocolError> {
    let mut data = [2, 1, 0, 24, 127, 0, 0, 1, 0, 0, 0, 1, 126, 227, 0, 1, 10, 11, 12, 13, 14, 15, 16, 17];
    data[16..24].copy_from_slice(&[99, 98, 97, 96, 95, 94, 93, 92]);
    let subject = OspfHeader::try_from(&data[..])?;
    assert_eq!(subject.get_checksum(), 32483);
    assert_eq!(
        subject.get_authentication_header(),
        &OspfAuthenticationHeader::SimplePassword([99, 98, 97, 96, 95, 94, 93, 92])
    );
    Ok(())
}

#[test]
fn header_checksum_folds_every_carry() -> Result<(), ProtocolError> {
    let data = [2, 1, 0, 24, 255, 255, 253, 231, 0, 0, 0, 0, 255, 254, 0, 0, 0, 0, 0, 0, 0, 0, 0, 0];
    assert_eq!(rusty_router::proto_common::InternetChecksum::checksum(&data[..])?, 0);
    let subject = OspfHeader::try_from(&data[..])?;
    assert_eq!(subject.get_checksum(), 0xFFFE);
    assert_eq!(subject.get_router_id(), Ipv4Addr::new(255, 255, 253, 231));
    assert_eq!(subject.get_area_id(), Ipv4Addr::new(0, 0, 0, 0));
    assert_eq!(subject.get_type(), &OspfMessageType::Hello);
    assert_eq!(subject.get_authentication_type(), &OspfAuthenticationType::Null);
    Ok(())
}
