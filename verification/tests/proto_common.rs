use rusty_router::proto_common::{u16_from_be_bytes, u32_from_be_bytes, InternetChecksum, ProtocolError, ProtocolParseError};

#[test]
pub fn test_conversion_ident() -> Result<(), ProtocolParseError> {
    let label = "Label";

    let value = vec![0xA1, 0xB3];
    let value_ref = &value[..];
    assert_eq!(u16_from_be_bytes(label, value_ref)?, 0xA1B3);

    Ok(())
}

#[test]
pub fn test_conversion_literal() -> Result<(), ProtocolParseError> {
    let label = "Label";
    assert_eq!(u16_from_be_bytes(label, &[0xA1, 0xB3][..])?, 0xA1B3);

    Ok(())
}

#[test]
fn conversion_of_short_field_names_the_label() {
    let value = vec![0xA1];
    match u16_from_be_bytes("Label", &value[..]) {
        Err(ProtocolError::ConversionError(label, _, length)) => {
            assert_eq!(label, "Label");
            assert_eq!(length, 1);
        }
        other => panic!("Expected failure, got {:?}", other),
    }
}

#[test]
fn conversion_of_four_bytes() {
    assert_eq!(u32_from_be_bytes("Label", &[0x12, 0x34, 0x56, 0x78]), Ok(0x12345678));
    assert!(u32_from_be_bytes("Label", &[0x12, 0x34, 0x56]).is_err());
}

#[test]
pub fn test_checksum() -> Result<(), ProtocolParseError> {
    assert_eq!(InternetChecksum::checksum(&[])?, 65535);
    assert_eq!(InternetChecksum::checksum(&[0x80])?, 32767);
    assert_eq!(InternetChecksum::checksum(&[0x00, 0x01])?, 65534);
    assert_eq!(InternetChecksum::checksum(&[0xFF, 0xFF, 0xFF, 0xFF, 0xFF, 0xFF, 0xFF, 0xFF, 0xFF, 0xFF, 0xFF, 0xFF])?, 0);
    assert_eq!(InternetChecksum::checksum(&[0x01, 0x03, 0x07, 0x0F, 0x11, 0x33, 0x77, 0xFF])?, 28347);
    Ok(())
}

#[test]
pub fn test_checksum_update() -> Result<(), ProtocolParseError> {
    let mut checksum = InternetChecksum::new();
    checksum.add(&[0x01, 0x03, 0x07, 0x0F, 0x11, 0x33, 0x77, 0xFF, 0x10, 0x30, 0x77, 0xF0, 0x11, 0x33, 0x77, 0xFF])?;
    assert_eq!(checksum.calculate(), 23912);

    checksum.subtract(&[0x10, 0x30, 0x77, 0xFF])?;
    assert_eq!(checksum.calculate(), 58775);
    assert_eq!(InternetChecksum::checksum(&[0x01, 0x03, 0x07, 0x0F, 0x11, 0x33, 0x77, 0xF0, 0x11, 0x33, 0x77, 0xFF])?, 58775);

    Ok(())
}

#[test]
fn checksum_add_then_subtract_restores_sum() -> Result<(), ProtocolParseError> {
    let mut checksum = InternetChecksum::new();
    checksum.add(&[0x45, 0x00, 0x00, 0x1c])?;
    let before = checksum.calculate();
    checksum.add(&[0xde, 0xad, 0xbe, 0xef])?;
    checksum.subtract(&[0xde, 0xad, 0xbe, 0xef])?;
    assert_eq!(checksum.calculate(), before);
    Ok(())
}

#[test]
fn error_messages_render() {
    assert_eq!(
        ProtocolError::InvalidMinimumLength("IPv4", 20, 18).to_string(),
        "[IPv4] Expecting data of at least 20 bytes but only 18 bytes are available"
    );
    assert_eq!(
        ProtocolError::UnsupportedFieldValue("OspfV2", "Version", 5).to_string(),
        "[OspfV2] The value '5' for field 'Version' is not supported"
    );
    assert_eq!(
        ProtocolError::InvalidChecksum { proto: "OspfV2", expected: 0x7ee4, actual: 0x1 }.to_string(),
        "[OspfV2] Checksum mismatch.  Expected: 0x7ee4, Actual: 0x0001"
    );
}

#[test]
fn data_followed_by_its_checksum_sums_to_zero() -> Result<(), ProtocolParseError> {
    let data = [0x45, 0x00, 0x00, 0x1c, 0xde, 0xad, 0xbe, 0xef, 0x01, 0x02];
    let c = InternetChecksum::checksum(&data)?;
    let mut with_checksum = data.to_vec();
    with_checksum.extend_from_slice(&c.to_be_bytes());
    assert_eq!(InternetChecksum::checksum(&with_checksum)?, 0);
    assert_eq!(InternetChecksum::checksum(&[0x00, 0x00, 0xff, 0xff])?, 0);
    Ok(())
}

#[test]
fn adding_in_turn_checksums_the_joined_data() -> Result<(), ProtocolParseError> {
    let a = [0x01, 0x03, 0x07, 0x0F, 0x11, 0x33];
    let b = [0x77, 0xFF, 0x10, 0x30, 0x77];
    let mut first = InternetChecksum::new();
    first.add(&a)?;
    first.add(&b)?;
    let mut joined = a.to_vec();
    joined.extend_from_slice(&b);
    assert_eq!(first.calculate(), InternetChecksum::checksum(&joined)?);
    let mut second = InternetChecksum::new();
    second.add(&b)?;
    second.add(&a)?;
    assert_eq!(second.calculate(), first.calculate());
    Ok(())
}
