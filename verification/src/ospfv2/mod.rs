//! OSPFv2 (RFC 2328) packets.  This module holds the first form of the header
//! reader, whose identifiers are plain numbers and whose errors are
//! `OspfParseError`; `packet` holds the header with addresses, its writer and
//! the hello packet.

use vstd::prelude::*;
use vstd::string::*;
use crate::text::{decimal, hex16, push_decimal, push_hex16};
use crate::proto_common::checksum::{calculate_final_result, checksum_of, internet_checksum};

pub mod constants;
pub mod packet;

verus! {

/// A failure to read an OSPFv2 header.
#[derive(Debug, PartialEq, Eq)]
pub enum OspfParseError {
    InvalidHeaderLength(u8),
    InvalidVersion(u8),
    InvalidType(u8),
    UnsupportedAuthenticationType(u16),
    ConversionError(&'static str, u32),
    InvalidChecksum { expected: u16, actual: u16 },
}

/// The human readable message of an OSPFv2 parse error.
pub open spec fn ospf_parse_error_message(e: OspfParseError) -> Seq<char> {
    match e {
        OspfParseError::InvalidHeaderLength(n) => "Expecting header to be 24 bytes but only "@
            + decimal(n as nat) + " bytes were read"@,
        OspfParseError::InvalidVersion(v) => "Expected version 2 but found "@ + decimal(v as nat),
        OspfParseError::InvalidType(t) => "The message type "@ + decimal(t as nat)
            + " is not a valid OSPFv2 message type"@,
        OspfParseError::UnsupportedAuthenticationType(t) => "The authentication type "@ + decimal(
            t as nat,
        ) + " is not supported"@,
        OspfParseError::ConversionError(place, position) => "Failed to perform byte conversion "@
            + place@ + ":"@ + decimal(position as nat),
        OspfParseError::InvalidChecksum { expected, actual } => "Checksum mismatch.  Expected: "@
            + hex16(expected) + ", Actual: "@ + hex16(actual),
    }
}

impl OspfParseError {
    /// Renders the error as its human readable message.
    pub fn to_string(&self) -> (r: String)
        ensures
            r@ == ospf_parse_error_message(*self),
    {
        let mut s = String::new();
        match self {
            OspfParseError::InvalidHeaderLength(n) => {
                s.append("Expecting header to be 24 bytes but only ");
                push_decimal(&mut s, *n as u64);
                s.append(" bytes were read");
            },
            OspfParseError::InvalidVersion(v) => {
                s.append("Expected version 2 but found ");
                push_decimal(&mut s, *v as u64);
            },
            OspfParseError::InvalidType(t) => {
                s.append("The message type ");
                push_decimal(&mut s, *t as u64);
                s.append(" is not a valid OSPFv2 message type");
            },
            OspfParseError::UnsupportedAuthenticationType(t) => {
                s.append("The authentication type ");
                push_decimal(&mut s, *t as u64);
                s.append(" is not supported");
            },
            OspfParseError::ConversionError(place, position) => {
                s.append("Failed to perform byte conversion ");
                s.append(place);
                s.append(":");
                push_decimal(&mut s, *position as u64);
            },
            OspfParseError::InvalidChecksum { expected, actual } => {
                s.append("Checksum mismatch.  Expected: ");
                push_hex16(&mut s, *expected);
                s.append(", Actual: ");
                push_hex16(&mut s, *actual);
            },
        }
        assert(s@ =~= ospf_parse_error_message(*self));
        s
    }
}

/// The OSPF version; only version 2 is known.
#[derive(Debug, PartialEq, Eq, Structural)]
pub enum OspfVersion {
    V2,
}

/// The version that a version byte stands for.
pub open spec fn version_from_byte(version: u8) -> Result<OspfVersion, OspfParseError> {
    if version == 2 {
        Ok(OspfVersion::V2)
    } else {
        Err(OspfParseError::InvalidVersion(version))
    }
}

impl TryFrom<u8> for OspfVersion {
    type Error = OspfParseError;

    fn try_from(version: u8) -> (r: Result<Self, OspfParseError>) {
        if version == 2 {
            return Ok(Self::V2);
        }
        Err(OspfParseError::InvalidVersion(version))
    }
}

impl vstd::std_specs::convert::TryFromSpecImpl<u8> for OspfVersion {
    open spec fn obeys_try_from_spec() -> bool {
        true
    }

    open spec fn try_from_spec(version: u8) -> Result<Self, OspfParseError> {
        version_from_byte(version)
    }
}

/// The five OSPFv2 packet types.
#[derive(Debug, PartialEq, Eq, Structural)]
pub enum OspfMessageType {
    Hello,
    DatabaseDescription,
    LinkStateRequest,
    LinkStateUpdate,
    LinkStateAcknoledgement,
}

/// The packet type that a type byte stands for.
pub open spec fn message_type_from_byte(t: u8) -> Result<OspfMessageType, OspfParseError> {
    if t == 1 {
        Ok(OspfMessageType::Hello)
    } else if t == 2 {
        Ok(OspfMessageType::DatabaseDescription)
    } else if t == 3 {
        Ok(OspfMessageType::LinkStateRequest)
    } else if t == 4 {
        Ok(OspfMessageType::LinkStateUpdate)
    } else if t == 5 {
        Ok(OspfMessageType::LinkStateAcknoledgement)
    } else {
        Err(OspfParseError::InvalidType(t))
    }
}

impl TryFrom<u8> for OspfMessageType {
    type Error = OspfParseError;

    fn try_from(message_type: u8) -> (r: Result<Self, OspfParseError>) {
        if message_type == 1 {
            return Ok(Self::Hello);
        }
        if message_type == 2 {
            return Ok(Self::DatabaseDescription);
        }
        if message_type == 3 {
            return Ok(Self::LinkStateRequest);
        }
        if message_type == 4 {
            return Ok(Self::LinkStateUpdate);
        }
        if message_type == 5 {
            return Ok(Self::LinkStateAcknoledgement);
        }
        Err(OspfParseError::InvalidType(message_type))
    }
}

impl vstd::std_specs::convert::TryFromSpecImpl<u8> for OspfMessageType {
    open spec fn obeys_try_from_spec() -> bool {
        true
    }

    open spec fn try_from_spec(t: u8) -> Result<Self, OspfParseError> {
        message_type_from_byte(t)
    }
}

/// The authentication types of RFC 2328; others that IANA assigns are not
/// supported.
#[derive(Debug, PartialEq, Eq, Structural)]
pub enum OspfAuthenticationType {
    Null,
    SimplePassword,
    CryptographicAuthentication,
}

/// The authentication type that a 16-bit field stands for.
pub open spec fn authentication_type_from_u16(t: u16) -> Result<
    OspfAuthenticationType,
    OspfParseError,
> {
    if t == 0 {
        Ok(OspfAuthenticationType::Null)
    } else if t == 1 {
        Ok(OspfAuthenticationType::SimplePassword)
    } else if t == 2 {
        Ok(OspfAuthenticationType::CryptographicAuthentication)
    } else {
        Err(OspfParseError::UnsupportedAuthenticationType(t))
    }
}

impl TryFrom<u16> for OspfAuthenticationType {
    type Error = OspfParseError;

    fn try_from(authentication_type: u16) -> (r: Result<Self, OspfParseError>) {
        if authentication_type == 0 {
            return Ok(Self::Null);
        }
        if authentication_type == 1 {
            return Ok(Self::SimplePassword);
        }
        if authentication_type == 2 {
            return Ok(Self::CryptographicAuthentication);
        }
        Err(OspfParseError::UnsupportedAuthenticationType(authentication_type))
    }
}

impl vstd::std_specs::convert::TryFromSpecImpl<u16> for OspfAuthenticationType {
    open spec fn obeys_try_from_spec() -> bool {
        true
    }

    open spec fn try_from_spec(t: u16) -> Result<Self, OspfParseError> {
        authentication_type_from_u16(t)
    }
}

/// The eight bytes of authentication data in an OSPF header.
#[derive(Debug, PartialEq, Eq)]
pub enum OspfAuthenticationHeader {
    Null,
    SimplePassword([u8; 8]),
    CryptographicAuthentication {
        key_id: u8,
        authentication_data_length: u8,
        cryptographic_sequence_number: u32,
    },
}

/// The big-endian value of four bytes of `s` from `b`.
pub open spec fn be32_at(s: Seq<u8>, b: int) -> u32 {
    (s[b] as nat * 16777216 + s[b + 1] as nat * 65536 + s[b + 2] as nat * 256 + s[b
        + 3] as nat) as u32
}

/// The big-endian value of two bytes of `s` from `b`.
pub open spec fn be16_at(s: Seq<u8>, b: int) -> u16 {
    (s[b] as nat * 256 + s[b + 1] as nat) as u16
}

/// The authentication data that `header` holds for the given type.
pub open spec fn authentication_header_of(
    authentication_type: OspfAuthenticationType,
    header: Seq<u8>,
) -> OspfAuthenticationHeader {
    match authentication_type {
        OspfAuthenticationType::Null => OspfAuthenticationHeader::Null,
        OspfAuthenticationType::SimplePassword => OspfAuthenticationHeader::SimplePassword(
            [header[0], header[1], header[2], header[3], header[4], header[5], header[6], header[7]],
        ),
        OspfAuthenticationType::CryptographicAuthentication => {
            OspfAuthenticationHeader::CryptographicAuthentication {
                key_id: header[2],
                authentication_data_length: header[3],
                cryptographic_sequence_number: be32_at(header, 4),
            }
        },
    }
}

/// Reads four big-endian bytes of `s` from `b`.
pub fn read_be32(s: &[u8], b: usize) -> (r: u32)
    requires
        b + 4 <= s@.len(),
    ensures
        r == be32_at(s@, b as int),
{
    s[b] as u32 * 16777216 + s[b + 1] as u32 * 65536 + s[b + 2] as u32 * 256 + s[b + 3] as u32
}

/// Reads two big-endian bytes of `s` from `b`.
pub fn read_be16(s: &[u8], b: usize) -> (r: u16)
    requires
        b + 2 <= s@.len(),
    ensures
        r == be16_at(s@, b as int),
{
    s[b] as u16 * 256 + s[b + 1] as u16
}

impl OspfAuthenticationHeader {
    /// The authentication data that `header` holds for `authentication_type`.
    pub fn new(authentication_type: &OspfAuthenticationType, header: &[u8; 8]) -> (r: Result<
        OspfAuthenticationHeader,
        OspfParseError,
    >)
        ensures
            r == Ok::<OspfAuthenticationHeader, OspfParseError>(
                authentication_header_of(*authentication_type, header@),
            ),
    {
        let r = match authentication_type {
            OspfAuthenticationType::Null => OspfAuthenticationHeader::Null,
            OspfAuthenticationType::SimplePassword => OspfAuthenticationHeader::SimplePassword(
                [
                    header[0],
                    header[1],
                    header[2],
                    header[3],
                    header[4],
                    header[5],
                    header[6],
                    header[7],
                ],
            ),
            OspfAuthenticationType::CryptographicAuthentication => {
                OspfAuthenticationHeader::CryptographicAuthentication {
                    key_id: header[2],
                    authentication_data_length: header[3],
                    cryptographic_sequence_number: read_be32(header.as_slice(), 4),
                }
            },
        };
        Ok(r)
    }
}

/// The words that the OSPF checksum adds for the first `n` bytes of `d`: each
/// byte weighed by its place in a big-endian 16-bit word, the checksum field
/// (bytes 12 and 13) and the authentication data (bytes 16 to 23) left out.
pub open spec fn ospf_word_sum(d: Seq<u8>, n: nat) -> nat
    decreases n,
{
    if n == 0 {
        0
    } else {
        let i = n - 1;
        ospf_word_sum(d, i as nat) + if (12 <= i < 14) || (16 <= i < 24) {
            0
        } else if i % 2 == 0 {
            d[i] as nat * 256
        } else {
            d[i] as nat
        }
    }
}

/// The checksum that an OSPF header must carry for the first `n` bytes of
/// `d`: the Internet checksum of its word sum, the word sum folded into 16 bits
/// with end-around carry and complemented.
pub open spec fn ospf_expected_checksum(d: Seq<u8>, n: nat) -> u16 {
    checksum_of(ospf_word_sum(d, n))
}

/// The first `n` bytes of `d` with the checksum field (bytes 12..14) and the
/// authentication data (bytes 16..24) zeroed.
pub open spec fn checksummed_bytes(d: Seq<u8>, n: nat) -> Seq<u8> {
    Seq::new(n, |i: int| if (12 <= i < 14) || (16 <= i < 24) { 0u8 } else { d[i] })
}

proof fn lemma_ospf_word_sum_as_words(d: Seq<u8>, n: nat, k: nat)
    requires
        2 * k <= n,
    ensures
        ospf_word_sum(d, 2 * k) == crate::proto_common::checksum::word16_sum(checksummed_bytes(d, n), k),
    decreases k,
{
    if k > 0 {
        lemma_ospf_word_sum_as_words(d, n, (k - 1) as nat);
        let i = 2 * (k - 1);
        assert(ospf_word_sum(d, (i + 1) as nat) == ospf_word_sum(d, i as nat) + (if (12 <= i < 14) || (16 <= i < 24) {
            0
        } else {
            d[i] as nat * 256
        }));
        assert(ospf_word_sum(d, (i + 2) as nat) == ospf_word_sum(d, (i + 1) as nat) + (if (12 <= i + 1 < 14) || (16
            <= i + 1 < 24) {
            0
        } else {
            d[i + 1] as nat
        }));
    }
}

/// RFC 2328 D.4: the checksum that an OSPF header must carry is the Internet
/// checksum (RFC 1071) of the packet's bytes with the checksum field and the
/// authentication data taken as zero.
pub proof fn lemma_ospf_checksum_is_internet_checksum(d: Seq<u8>, n: nat)
    requires
        n % 2 == 0,
        n <= d.len(),
    ensures
        ospf_expected_checksum(d, n) == internet_checksum(checksummed_bytes(d, n)),
{
    lemma_ospf_word_sum_as_words(d, n, n / 2);
    assert((checksummed_bytes(d, n).len() + 1) / 2 == n / 2);
}

/// Computes `ospf_expected_checksum(data@, n)`.
pub fn ospf_checksum(data: &[u8], n: usize) -> (r: u16)
    requires
        n <= data@.len(),
    ensures
        r == ospf_expected_checksum(data@, n as nat),
{
    let mut sum: u128 = 0;
    let mut i: usize = 0;
    while i < n
        invariant
            i <= n <= data@.len(),
            sum == ospf_word_sum(data@, i as nat),
            sum <= 65280 * i,
        decreases n - i,
    {
        if (12 <= i && i < 14) || (16 <= i && i < 24) {
        } else if i % 2 == 0 {
            sum = sum + data[i] as u128 * 256;
        } else {
            sum = sum + data[i] as u128;
        }
        i = i + 1;
    }
    calculate_final_result(sum)
}

/// The fields of an OSPFv2 header.
pub struct OspfHeaderView {
    pub version: OspfVersion,
    pub message_type: OspfMessageType,
    pub packet_length: u16,
    pub router_id: u32,
    pub area_id: u32,
    pub checksum: u16,
    pub authentication_type: OspfAuthenticationType,
    pub authentication_header: OspfAuthenticationHeader,
}

/// An OSPFv2 header whose router and area identifiers are plain numbers.
#[derive(Debug)]
pub struct OspfHeader {
    version: OspfVersion,
    message_type: OspfMessageType,
    packet_length: u16,
    router_id: u32,
    area_id: u32,
    checksum: u16,
    authentication_type: OspfAuthenticationType,
    authentication_header: OspfAuthenticationHeader,
}

impl View for OspfHeader {
    type V = OspfHeaderView;

    closed spec fn view(&self) -> OspfHeaderView {
        OspfHeaderView {
            version: self.version,
            message_type: self.message_type,
            packet_length: self.packet_length,
            router_id: self.router_id,
            area_id: self.area_id,
            checksum: self.checksum,
            authentication_type: self.authentication_type,
            authentication_header: self.authentication_header,
        }
    }
}

/// The OSPFv2 header at the start of `d`, or why there is none.  The checksum
/// covers all of `d` and is zero under cryptographic authentication.
pub open spec fn parse_ospf_header(d: Seq<u8>) -> Result<OspfHeaderView, OspfParseError> {
    if d.len() < 24 {
        Err(OspfParseError::InvalidHeaderLength(d.len() as u8))
    } else {
        match authentication_type_from_u16(be16_at(d, 14)) {
            Err(e) => Err(e),
            Ok(authentication_type) => {
                let expected = if authentication_type
                    == OspfAuthenticationType::CryptographicAuthentication {
                    0u16
                } else {
                    ospf_expected_checksum(d, d.len())
                };
                let checksum = be16_at(d, 12);
                if checksum != expected {
                    Err(OspfParseError::InvalidChecksum { expected, actual: checksum })
                } else {
                    match version_from_byte(d[0]) {
                        Err(e) => Err(e),
                        Ok(version) => match message_type_from_byte(d[1]) {
                            Err(e) => Err(e),
                            Ok(message_type) => Ok(
                                OspfHeaderView {
                                    version,
                                    message_type,
                                    packet_length: be16_at(d, 2),
                                    router_id: be32_at(d, 4),
                                    area_id: be32_at(d, 8),
                                    checksum,
                                    authentication_header: authentication_header_of(
                                        authentication_type,
                                        d.subrange(16, 24),
                                    ),
                                    authentication_type,
                                },
                            ),
                        },
                    }
                }
            },
        }
    }
}

impl OspfHeader {
    pub fn get_version(&self) -> (r: &OspfVersion)
        ensures
            *r == self@.version,
    {
        &self.version
    }

    pub fn get_type(&self) -> (r: &OspfMessageType)
        ensures
            *r == self@.message_type,
    {
        &self.message_type
    }

    pub fn get_length(&self) -> (r: u16)
        ensures
            r == self@.packet_length,
    {
        self.packet_length
    }

    pub fn get_router_id(&self) -> (r: u32)
        ensures
            r == self@.router_id,
    {
        self.router_id
    }

    pub fn get_area_id(&self) -> (r: u32)
        ensures
            r == self@.area_id,
    {
        self.area_id
    }

    pub fn get_checksum(&self) -> (r: u16)
        ensures
            r == self@.checksum,
    {
        self.checksum
    }

    pub fn get_authentication_type(&self) -> (r: &OspfAuthenticationType)
        ensures
            *r == self@.authentication_type,
    {
        &self.authentication_type
    }

    pub fn get_authentication_header(&self) -> (r: &OspfAuthenticationHeader)
        ensures
            *r == self@.authentication_header,
    {
        &self.authentication_header
    }
}

impl<'a> TryFrom<&'a [u8]> for OspfHeader {
    type Error = OspfParseError;

    fn try_from(data: &'a [u8]) -> (r: Result<Self, OspfParseError>)
        ensures
            match r {
                Ok(h) => parse_ospf_header(data@) == Ok::<OspfHeaderView, OspfParseError>(h@),
                Err(e) => parse_ospf_header(data@) == Err::<OspfHeaderView, OspfParseError>(e),
            },
    {
        if data.len() < 24 {
            return Err(OspfParseError::InvalidHeaderLength(data.len() as u8));
        }
        let authentication_type = match OspfAuthenticationType::try_from(read_be16(data, 14)) {
            Ok(t) => t,
            Err(e) => return Err(e),
        };
        let expected_checksum = match authentication_type {
            OspfAuthenticationType::CryptographicAuthentication => 0u16,
            _ => ospf_checksum(data, data.len()),
        };
        let checksum = read_be16(data, 12);
        if checksum != expected_checksum {
            return Err(OspfParseError::InvalidChecksum { expected: expected_checksum, actual: checksum });
        }
        let version = match OspfVersion::try_from(data[0]) {
            Ok(v) => v,
            Err(e) => return Err(e),
        };
        let message_type = match OspfMessageType::try_from(data[1]) {
            Ok(t) => t,
            Err(e) => return Err(e),
        };
        let authentication_bytes: [u8; 8] = [
            data[16],
            data[17],
            data[18],
            data[19],
            data[20],
            data[21],
            data[22],
            data[23],
        ];
        assert(authentication_bytes@ =~= data@.subrange(16, 24));
        let authentication_header = match OspfAuthenticationHeader::new(
            &authentication_type,
            &authentication_bytes,
        ) {
            Ok(h) => h,
            Err(e) => return Err(e),
        };
        Ok(
            OspfHeader {
                version,
                message_type,
                packet_length: read_be16(data, 2),
                router_id: read_be32(data, 4),
                area_id: read_be32(data, 8),
                authentication_header,
                authentication_type,
                checksum,
            },
        )
    }
}

impl<'a> vstd::std_specs::convert::TryFromSpecImpl<&'a [u8]> for OspfHeader {
    open spec fn obeys_try_from_spec() -> bool {
        false
    }

    open spec fn try_from_spec(data: &'a [u8]) -> Result<Self, OspfParseError> {
        arbitrary()
    }
}

} // verus!
