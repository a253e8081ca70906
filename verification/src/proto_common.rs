//! Errors shared by the protocol parsers, big-endian field conversion and the
//! Internet checksum (RFC 1071).

use vstd::prelude::*;
use vstd::string::*;
use crate::text::{decimal, hex16, push_decimal, push_hex16};

pub mod checksum;

pub use checksum::InternetChecksum;

verus! {

/// A failure to read or build a protocol data unit.  The first field of each
/// variant names the protocol.
#[derive(Debug, PartialEq, Eq)]
pub enum ProtocolError {
    InvalidMinimumLength(&'static str, usize, usize),
    InvalidHeaderLength(&'static str, usize, usize),
    InvalidLength(&'static str, usize, usize),
    InvalidBitBoundary(&'static str, usize),
    UnsupportedFieldValue(&'static str, &'static str, usize),
    ConversionError(&'static str, &'static str, u32),
    InvalidChecksum { proto: &'static str, expected: u16, actual: u16 },
}

/// The error type under the name that the parsing modules use for it.
pub type ProtocolParseError = ProtocolError;

/// The human readable message of a protocol error.
pub open spec fn protocol_error_message(e: ProtocolError) -> Seq<char> {
    match e {
        ProtocolError::InvalidMinimumLength(p, expected, actual) => "["@ + p@
            + "] Expecting data of at least "@ + decimal(expected as nat)
            + " bytes but only "@ + decimal(actual as nat) + " bytes are available"@,
        ProtocolError::InvalidHeaderLength(p, expected, actual) => "["@ + p@
            + "] Expecting header to be "@ + decimal(expected as nat) + " bytes but only "@
            + decimal(actual as nat) + " bytes are available"@,
        ProtocolError::InvalidLength(p, expected, actual) => "["@ + p@
            + "] Expecting data to be "@ + decimal(expected as nat) + " bytes but "@
            + decimal(actual as nat) + " bytes are available"@,
        ProtocolError::InvalidBitBoundary(p, actual) => "["@ + p@
            + "] Expecting data to be aligned with a word boundary but was "@
            + decimal(actual as nat) + " bytes long"@,
        ProtocolError::UnsupportedFieldValue(p, field, value) => "["@ + p@ + "] The value '"@
            + decimal(value as nat) + "' for field '"@ + field@ + "' is not supported"@,
        ProtocolError::ConversionError(p, place, position) => "["@ + p@
            + "] Failed to perform byte conversion "@ + place@ + ":"@ + decimal(position as nat),
        ProtocolError::InvalidChecksum { proto, expected, actual } => "["@ + proto@
            + "] Checksum mismatch.  Expected: "@ + hex16(expected) + ", Actual: "@ + hex16(
            actual,
        ),
    }
}

impl ProtocolError {
    /// Renders the error as its human readable message.
    pub fn to_string(&self) -> (r: String)
        ensures
            r@ == protocol_error_message(*self),
    {
        let mut s = String::new();
        match self {
            ProtocolError::InvalidMinimumLength(p, expected, actual) => {
                s.append("[");
                s.append(p);
                s.append("] Expecting data of at least ");
                push_decimal(&mut s, *expected as u64);
                s.append(" bytes but only ");
                push_decimal(&mut s, *actual as u64);
                s.append(" bytes are available");
            },
            ProtocolError::InvalidHeaderLength(p, expected, actual) => {
                s.append("[");
                s.append(p);
                s.append("] Expecting header to be ");
                push_decimal(&mut s, *expected as u64);
                s.append(" bytes but only ");
                push_decimal(&mut s, *actual as u64);
                s.append(" bytes are available");
            },
            ProtocolError::InvalidLength(p, expected, actual) => {
                s.append("[");
                s.append(p);
                s.append("] Expecting data to be ");
                push_decimal(&mut s, *expected as u64);
                s.append(" bytes but ");
                push_decimal(&mut s, *actual as u64);
                s.append(" bytes are available");
            },
            ProtocolError::InvalidBitBoundary(p, actual) => {
                s.append("[");
                s.append(p);
                s.append("] Expecting data to be aligned with a word boundary but was ");
                push_decimal(&mut s, *actual as u64);
                s.append(" bytes long");
            },
            ProtocolError::UnsupportedFieldValue(p, field, value) => {
                s.append("[");
                s.append(p);
                s.append("] The value '");
                push_decimal(&mut s, *value as u64);
                s.append("' for field '");
                s.append(field);
                s.append("' is not supported");
            },
            ProtocolError::ConversionError(p, place, position) => {
                s.append("[");
                s.append(p);
                s.append("] Failed to perform byte conversion ");
                s.append(place);
                s.append(":");
                push_decimal(&mut s, *position as u64);
            },
            ProtocolError::InvalidChecksum { proto, expected, actual } => {
                s.append("[");
                s.append(proto);
                s.append("] Checksum mismatch.  Expected: ");
                push_hex16(&mut s, *expected);
                s.append(", Actual: ");
                push_hex16(&mut s, *actual);
            },
        }
        assert(s@ =~= protocol_error_message(*self));
        s
    }
}

/// The value of two bytes read in network (big-endian) order.
pub open spec fn be_u16(hi: u8, lo: u8) -> u16 {
    (hi as nat * 256 + lo as nat) as u16
}

/// The value of four bytes read in network (big-endian) order.
pub open spec fn be_u32(b0: u8, b1: u8, b2: u8, b3: u8) -> u32 {
    (b0 as nat * 16777216 + b1 as nat * 65536 + b2 as nat * 256 + b3 as nat) as u32
}

/// Reads a big-endian `u16` from a field that must be exactly two bytes long;
/// `label` names the protocol in the error.
pub fn u16_from_be_bytes(label: &'static str, value: &[u8]) -> (r: Result<u16, ProtocolError>)
    ensures
        value@.len() == 2 ==> r == Ok::<u16, ProtocolError>(be_u16(value@[0], value@[1])),
        value@.len() != 2 ==> r == Err::<u16, ProtocolError>(
            ProtocolError::ConversionError(label, "u16_from_be_bytes", value@.len() as u32),
        ),
{
    if value.len() != 2 {
        return Err(ProtocolError::ConversionError(label, "u16_from_be_bytes", value.len() as u32));
    }
    Ok(value[0] as u16 * 256 + value[1] as u16)
}

/// Reads a big-endian `u32` from a field that must be exactly four bytes long;
/// `label` names the protocol in the error.
pub fn u32_from_be_bytes(label: &'static str, value: &[u8]) -> (r: Result<u32, ProtocolError>)
    ensures
        value@.len() == 4 ==> r == Ok::<u32, ProtocolError>(
            be_u32(value@[0], value@[1], value@[2], value@[3]),
        ),
        value@.len() != 4 ==> r == Err::<u32, ProtocolError>(
            ProtocolError::ConversionError(label, "u32_from_be_bytes", value@.len() as u32),
        ),
{
    if value.len() != 4 {
        return Err(ProtocolError::ConversionError(label, "u32_from_be_bytes", value.len() as u32));
    }
    Ok(value[0] as u32 * 16777216 + value[1] as u32 * 65536 + value[2] as u32 * 256
        + value[3] as u32)
}

} // verus!
