use rusty_router::ospfv2::{
    OspfAuthenticationHeader, OspfAuthenticationType, OspfHeader, OspfMessageType, OspfParseError,
    OspfVersion,
};
use std::convert::TryFrom;
use std::result::Result;

#[test]
fn lib_it_parses_version() -> Result<(), OspfParseError> {
    assert_eq!(OspfVersion::try_from(2)?, OspfVersion::V2);
    Ok(())
}

#[test]
fn lib_it_fails_to_parse_version() {
    if let Err(e) = OspfVersion::try_from(5) {
        assert_eq!(e.to_string(), "Expected version 2 but found 5".to_string());
    } else {
        assert!(false, "Result was expected to be an Err");
    }
}

#[test]
fn lib_it_parses_type() -> Result<(), OspfParseError> {
    assert_eq!(OspfMessageType::try_from(1)?, OspfMessageType::Hello);
    assert_eq!(OspfMessageType::try_from(2)?, OspfMessageType::DatabaseDescription);
    assert_eq!(OspfMessageType::try_from(3)?, OspfMessageType::LinkStateRequest);
    assert_eq!(OspfMessageType::try_from(4)?, OspfMessageType::LinkStateUpdate);
    assert_eq!(OspfMessageType::try_from(5)?, OspfMessageType::LinkStateAcknoledgement);
    Ok(())
}

#[test]
fn lib_it_fails_to_parse_type() {
    if let Err(e) = OspfMessageType::try_from(0) {
        assert_eq!(e.to_string(), "The message type 0 is not a valid OSPFv2 message type".to_string());
    } else {
        assert!(false, "Result was expected to be an Err");
    }
}

#[test]
fn lib_it_parses_authn_type() -> Result<(), OspfParseError> {
    assert_eq!(OspfAuthenticationType::try_from(0)?, OspfAuthenticationType::Null);
    assert_eq!(OspfAuthenticationType::try_from(1)?, OspfAuthenticationType::SimplePassword);
    assert_eq!(OspfAuthenticationType::try_from(2)?, OspfAuthenticationType::CryptographicAuthentication);
    Ok(())
}

#[test]
fn lib_it_fails_to_parse_authn_type() {
    if let Err(e) = OspfAuthenticationType::try_from(10) {
        assert_eq!(e.to_string(), "The authentication type 10 is not supported".to_string());
    } else {
        assert!(false, "Result was expected to be an Err");
    }
}

#[test]
fn lib_it_parses_authn_header() -> Result<(), OspfParseError> {
    assert_eq!(OspfAuthenticationHeader::new(&OspfAuthenticationType::Null, &[34, 12, 98, 234, 1, 0, 22, 4])?, OspfAuthenticationHeader::Null);
    assert_eq!(OspfAuthenticationHeader::new(&OspfAuthenticationType::SimplePassword, &[34, 12, 98, 234, 1, 0, 22, 4])?, OspfAuthenticationHeader::SimplePassword([34, 12, 98, 234, 1, 0, 22, 4]));
    assert_ne!(OspfAuthenticationHeader::new(&OspfAuthenticationType::SimplePassword, &[34, 12, 98, 234, 1, 0, 21, 4])?, OspfAuthenticationHeader::SimplePassword([34, 12, 98, 234, 1, 0, 22, 4]));
    assert_eq!(OspfAuthenticationHeader::new(&OspfAuthenticationType::CryptographicAuthentication, &[34, 12, 98, 234, 254, 0, 22, 4])?, OspfAuthenticationHeader::CryptographicAuthentication {
        key_id: 98,
        authentication_data_length: 234,
        cryptographic_sequence_number: 4261418500,
    });
    assert_ne!(OspfAuthenticationHeader::new(&OspfAuthenticationType::CryptographicAuthentication, &[34, 12, 98, 234, 62, 0, 22, 4])?, OspfAuthenticationHeader::CryptographicAuthentication {
        key_id: 98,
        authentication_data_length: 234,
        cryptographic_sequence_number: 4261418500,
    });
    Ok(())
}

#[test]
fn lib_it_parse_ospf_header_happy_null_auth() -> Result<(), OspfParseError> {
    let subject = OspfHeader::try_from(&[
        2, 1, 0, 0,
        127, 0, 0, 1,
        0, 0, 0, 1,
        126, 252, 0, 0,
        0, 0, 0, 0,
        0, 0, 0, 0,
    ][..])?;
    assert_eq!(subject.get_version(), &OspfVersion::V2);
    assert_eq!(subject.get_type(), &OspfMessageType::Hello);
    assert_eq!(subject.get_length(), 0);
    assert_eq!(subject.get_router_id(), 2130706433);
    assert_eq!(subject.get_area_id(), 1);
    assert_eq!(subject.get_checksum(), 32508);
    assert_eq!(subject.get_authentication_type(), &OspfAuthenticationType::Null);
    assert_eq!(subject.get_authentication_header(), &OspfAuthenticationHeader::Null);
    Ok(())
}

#[test]
fn lib_it_parse_ospf_header_too_short_sad() -> Result<(), OspfParseError> {
    if let Err(e) = OspfHeader::try_from(&[
        2, 1, 0, 0,
        127, 0, 0, 1,
        0, 0, 0, 1,
        126, 252, 0, 0,
        0, 0, 0, 0,
        0, 0, 0,
    ][..]) {
        assert_eq!(e.to_string(), "Expecting header to be 24 bytes but only 23 bytes were read".to_string());
    } else {
        assert!(false, "Result was expected to be an Err");
    }
    Ok(())
}

#[test]
fn lib_it_parse_ospf_header_happy_simple_auth() -> Result<(), OspfParseError> {
    let subject = OspfHeader::try_from(&[
        2, 1, 0, 1,
        127, 0, 0, 1,
        0, 0, 0, 1,
        126, 250, 0, 1,
        10, 11, 12, 13,
        14, 15, 16, 17,
    ][..])?;
    assert_eq!(subject.get_version(), &OspfVersion::V2);
    assert_eq!(subject.get_type(), &OspfMessageType::Hello);
    assert_eq!(subject.get_length(), 1);
    assert_eq!(subject.get_router_id(), 2130706433);
    assert_eq!(subject.get_area_id(), 1);
    assert_eq!(subject.get_checksum(), 32506);
    assert_eq!(subject.get_authentication_type(), &OspfAuthenticationType::SimplePassword);
    assert_eq!(subject.get_authentication_header(), &OspfAuthenticationHeader::SimplePassword([10, 11, 12, 13, 14, 15, 16, 17]));
    Ok(())
}

#[test]
fn lib_it_parse_ospf_header_happy_crypto_auth() -> Result<(), OspfParseError> {
    let subject = OspfHeader::try_from(&[
        2, 1, 0, 0,
        127, 0, 0, 1,
        0, 0, 0, 1,
        0, 0, 0, 2,
        10, 11, 12, 13,
        14, 15, 16, 17,
    ][..])?;
    assert_eq!(subject.get_version(), &OspfVersion::V2);
    assert_eq!(subject.get_type(), &OspfMessageType::Hello);
    assert_eq!(subject.get_length(), 0);
    assert_eq!(subject.get_router_id(), 2130706433);
    assert_eq!(subject.get_area_id(), 1);
    assert_eq!(subject.get_checksum(), 0);
    assert_eq!(subject.get_authentication_type(), &OspfAuthenticationType::CryptographicAuthentication);
    assert_eq!(subject.get_authentication_header(), &OspfAuthenticationHeader::CryptographicAuthentication {
        key_id: 12,
        authentication_data_length: 13,
        cryptographic_sequence_number: 235868177,
    });
    Ok(())
}
