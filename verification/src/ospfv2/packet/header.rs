//! The OSPFv2 packet header (RFC 2328, A.3.1) with addressed identifiers:
//! reading it from bytes, building it and writing it back.

use vstd::prelude::*;
use crate::net::{Ipv4Addr, octets_of};
use crate::ospfv2::{be16_at, be32_at, ospf_checksum, ospf_expected_checksum, read_be16, read_be32};
use crate::proto_common::ProtocolError;
use crate::proto_ip::{hi, lo, push_octets, push_u16};

verus! {

/// The protocol's name in the errors of this module.
pub const PROTOCOL: &'static str = "OspfV2";

/// The length of an OSPFv2 header in bytes.
pub const OSPF_V2_HEADER_LENGTH: u16 = 24;

/// The OSPF version; only version 2 is known.
#[derive(Debug, PartialEq, Eq, Structural)]
pub enum OspfVersion {
    V2,
}

/// The version that a version byte stands for.
pub open spec fn version_from_byte(version: u8) -> Result<OspfVersion, ProtocolError> {
    if version == 2 {
        Ok(OspfVersion::V2)
    } else {
        Err(ProtocolError::UnsupportedFieldValue(PROTOCOL, "Version", version as usize))
    }
}

/// The byte that a version is written as.
pub open spec fn version_byte(version: OspfVersion) -> u8 {
    match version {
        OspfVersion::V2 => 2,
    }
}

impl TryFrom<u8> for OspfVersion {
    type Error = ProtocolError;

    fn try_from(version: u8) -> (r: Result<Self, ProtocolError>) {
        if version == 2 {
            return Ok(Self::V2);
        }
        Err(ProtocolError::UnsupportedFieldValue(PROTOCOL, "Version", version as usize))
    }
}

impl vstd::std_specs::convert::TryFromSpecImpl<u8> for OspfVersion {
    open spec fn obeys_try_from_spec() -> bool {
        true
    }

    open spec fn try_from_spec(version: u8) -> Result<Self, ProtocolError> {
        version_from_byte(version)
    }
}

impl<'a> From<&'a OspfVersion> for u8 {
    fn from(version: &'a OspfVersion) -> (r: u8) {
        match version {
            OspfVersion::V2 => 2u8,
        }
    }
}

impl<'a> vstd::std_specs::convert::FromSpecImpl<&'a OspfVersion> for u8 {
    open spec fn obeys_from_spec() -> bool {
        true
    }

    open spec fn from_spec(version: &'a OspfVersion) -> u8 {
        version_byte(*version)
    }
}

/// The five OSPFv2 packet types.
#[derive(Clone, Debug, PartialEq, Eq, Structural)]
pub enum OspfMessageType {
    Hello,
    DatabaseDescription,
    LinkStateRequest,
    LinkStateUpdate,
    LinkStateAcknoledgement,
}

/// The packet type that a type byte stands for.
pub open spec fn message_type_from_byte(t: u8) -> Result<OspfMessageType, ProtocolError> {
    if t == 1 {
        Ok(OspfMessageType::Hello)
    } else if t == 2 {
        Ok(OspfMessageType::DatabaseDescription)
    } else if t == 3 {
        Ok(OspfMessageType::LinkStateRequest)
    } else if t == 4 {
        Ok(OspfMessageType::LinkStateUpdate)
    } else if t == 5 {
        Ok(OspfMessageType::LinkStateAcknoledgement)
    } else {
        Err(ProtocolError::UnsupportedFieldValue(PROTOCOL, "Type", t as usize))
    }
}

/// The byte that a packet type is written as.
pub open spec fn message_type_byte(t: OspfMessageType) -> u8 {
    match t {
        OspfMessageType::Hello => 1,
        OspfMessageType::DatabaseDescription => 2,
        OspfMessageType::LinkStateRequest => 3,
        OspfMessageType::LinkStateUpdate => 4,
        OspfMessageType::LinkStateAcknoledgement => 5,
    }
}

impl TryFrom<u8> for OspfMessageType {
    type Error = ProtocolError;

    fn try_from(message_type: u8) -> (r: Result<Self, ProtocolError>) {
        if message_type == 1 {
            return Ok(Self::Hello);
        }
        if message_type == 2 {
            return Ok(Self::DatabaseDescription);
        }
        if message_type == 3 {
            return Ok(Self::LinkStateRequest);
        }
        if message_type == 4 {
            return Ok(Self::LinkStateUpdate);
        }
        if message_type == 5 {
            return Ok(Self::LinkStateAcknoledgement);
        }
        Err(ProtocolError::UnsupportedFieldValue(PROTOCOL, "Type", message_type as usize))
    }
}

impl vstd::std_specs::convert::TryFromSpecImpl<u8> for OspfMessageType {
    open spec fn obeys_try_from_spec() -> bool {
        true
    }

    open spec fn try_from_spec(t: u8) -> Result<Self, ProtocolError> {
        message_type_from_byte(t)
    }
}

impl<'a> From<&'a OspfMessageType> for u8 {
    fn from(value: &'a OspfMessageType) -> (r: u8) {
        match value {
            OspfMessageType::Hello => 1u8,
            OspfMessageType::DatabaseDescription => 2u8,
            OspfMessageType::LinkStateRequest => 3u8,
            OspfMessageType::LinkStateUpdate => 4u8,
            OspfMessageType::LinkStateAcknoledgement => 5u8,
        }
    }
}

impl<'a> vstd::std_specs::convert::FromSpecImpl<&'a OspfMessageType> for u8 {
    open spec fn obeys_from_spec() -> bool {
        true
    }

    open spec fn from_spec(value: &'a OspfMessageType) -> u8 {
        message_type_byte(*value)
    }
}

/// The authentication types of RFC 2328; others that IANA assigns are not
/// supported.
#[derive(Debug, PartialEq, Eq, Structural)]
pub enum OspfAuthenticationType {
    Null,
    SimplePassword,
    CryptographicAuthentication,
}

/// The authentication type that a 16-bit field stands for.
pub open spec fn authentication_type_from_u16(t: u16) -> Result<
    OspfAuthenticationType,
    ProtocolError,
> {
    if t == 0 {
        Ok(OspfAuthenticationType::Null)
    } else if t == 1 {
        Ok(OspfAuthenticationType::SimplePassword)
    } else if t == 2 {
        Ok(OspfAuthenticationType::CryptographicAuthentication)
    } else {
        Err(ProtocolError::UnsupportedFieldValue(PROTOCOL, "AuthenticationType", t as usize))
    }
}

/// The number that an authentication type is written as.
pub open spec fn authentication_type_number(t: OspfAuthenticationType) -> u16 {
    match t {
        OspfAuthenticationType::Null => 0,
        OspfAuthenticationType::SimplePassword => 1,
        OspfAuthenticationType::CryptographicAuthentication => 2,
    }
}

impl TryFrom<u16> for OspfAuthenticationType {
    type Error = ProtocolError;

    fn try_from(authentication_type: u16) -> (r: Result<Self, ProtocolError>) {
        if authentication_type == 0 {
            return Ok(Self::Null);
        }
        if authentication_type == 1 {
            return Ok(Self::SimplePassword);
        }
        if authentication_type == 2 {
            return Ok(Self::CryptographicAuthentication);
        }
        Err(
            ProtocolError::UnsupportedFieldValue(
                PROTOCOL,
                "AuthenticationType",
                authentication_type as usize,
            ),
        )
    }
}

impl vstd::std_specs::convert::TryFromSpecImpl<u16> for OspfAuthenticationType {
    open spec fn obeys_try_from_spec() -> bool {
        true
    }

    open spec fn try_from_spec(t: u16) -> Result<Self, ProtocolError> {
        authentication_type_from_u16(t)
    }
}

impl<'a> From<&'a OspfAuthenticationType> for u16 {
    fn from(authentication_type: &'a OspfAuthenticationType) -> (r: u16) {
        match authentication_type {
            OspfAuthenticationType::Null => 0u16,
            OspfAuthenticationType::SimplePassword => 1u16,
            OspfAuthenticationType::CryptographicAuthentication => 2u16,
        }
    }
}

impl<'a> vstd::std_specs::convert::FromSpecImpl<&'a OspfAuthenticationType> for u16 {
    open spec fn obeys_from_spec() -> bool {
        true
    }

    open spec fn from_spec(t: &'a OspfAuthenticationType) -> u16 {
        authentication_type_number(*t)
    }
}


/// The eight bytes of authentication data in an OSPF header.
#[derive(Debug, PartialEq, Eq)]
pub enum OspfAuthenticationHeader {
    Null,
    SimplePassword([u8; 8]),
    CryptographicAuthentication {
        key_id: u8,
        authentication_data_length: u8,
        cryptographic_sequence_number: u32,
    },
}

/// The authentication data that `header` holds for the given type.
pub open spec fn authentication_header_of(
    authentication_type: OspfAuthenticationType,
    header: Seq<u8>,
) -> OspfAuthenticationHeader {
    match authentication_type {
        OspfAuthenticationType::Null => OspfAuthenticationHeader::Null,
        OspfAuthenticationType::SimplePassword => OspfAuthenticationHeader::SimplePassword(
            [header[0], header[1], header[2], header[3], header[4], header[5], header[6], header[7]],
        ),
        OspfAuthenticationType::CryptographicAuthentication => {
            OspfAuthenticationHeader::CryptographicAuthentication {
                key_id: header[2],
                authentication_data_length: header[3],
                cryptographic_sequence_number: be32_at(header, 4),
            }
        },
    }
}

/// The four bytes of a 32-bit number, most significant first.
pub open spec fn be32_bytes(v: u32) -> Seq<u8> {
    octets_of(v)
}

/// The two bytes of a 16-bit number, most significant first.
pub open spec fn be16_bytes(v: u16) -> Seq<u8> {
    seq![hi(v), lo(v)]
}

/// The eight bytes that authentication data is written as: the password as
/// it is, or two zero bytes, the key, the data length and the sequence number.
pub open spec fn authentication_bytes_of(header: OspfAuthenticationHeader) -> Seq<u8> {
    match header {
        OspfAuthenticationHeader::Null => seq![0u8, 0u8, 0u8, 0u8, 0u8, 0u8, 0u8, 0u8],
        OspfAuthenticationHeader::SimplePassword(data) => data@,
        OspfAuthenticationHeader::CryptographicAuthentication {
            key_id,
            authentication_data_length,
            cryptographic_sequence_number,
        } => seq![0u8, 0u8, key_id, authentication_data_length] + be32_bytes(
            cryptographic_sequence_number,
        ),
    }
}

/// The big-endian value of eight bytes.
pub open spec fn be64_of(b: Seq<u8>) -> u64 {
    ((((((((b[0] as nat * 256 + b[1] as nat) * 256 + b[2] as nat) * 256 + b[3] as nat) * 256
        + b[4] as nat) * 256 + b[5] as nat) * 256 + b[6] as nat) * 256 + b[7] as nat)) as u64
}

/// Reads eight big-endian bytes.
fn read_be64(b: &[u8; 8]) -> (r: u64)
    ensures
        r == be64_of(b@),
{
    let mut r: u64 = b[0] as u64;
    r = r * 256 + b[1] as u64;
    r = r * 256 + b[2] as u64;
    r = r * 256 + b[3] as u64;
    r = r * 256 + b[4] as u64;
    r = r * 256 + b[5] as u64;
    r = r * 256 + b[6] as u64;
    r = r * 256 + b[7] as u64;
    r
}

impl OspfAuthenticationHeader {
    /// The authentication data that `header` holds for `authentication_type`.
    pub fn new(authentication_type: &OspfAuthenticationType, header: &[u8; 8]) -> (r: Result<
        OspfAuthenticationHeader,
        ProtocolError,
    >)
        ensures
            r == Ok::<OspfAuthenticationHeader, ProtocolError>(
                authentication_header_of(*authentication_type, header@),
            ),
    {
        Ok(
            match authentication_type {
                OspfAuthenticationType::Null => OspfAuthenticationHeader::Null,
                OspfAuthenticationType::SimplePassword => OspfAuthenticationHeader::SimplePassword(
                    [
                        header[0],
                        header[1],
                        header[2],
                        header[3],
                        header[4],
                        header[5],
                        header[6],
                        header[7],
                    ],
                ),
                OspfAuthenticationType::CryptographicAuthentication => {
                    OspfAuthenticationHeader::CryptographicAuthentication {
                        key_id: header[2],
                        authentication_data_length: header[3],
                        cryptographic_sequence_number: read_be32(header.as_slice(), 4),
                    }
                },
            },
        )
    }

    /// The eight bytes that this authentication data is written as.
    fn to_bytes(&self) -> (r: [u8; 8])
        ensures
            r@ == authentication_bytes_of(*self),
    {
        let r = match self {
            OspfAuthenticationHeader::Null => [0u8; 8],
            OspfAuthenticationHeader::SimplePassword(data) => [
                data[0],
                data[1],
                data[2],
                data[3],
                data[4],
                data[5],
                data[6],
                data[7],
            ],
            OspfAuthenticationHeader::CryptographicAuthentication {
                key_id,
                authentication_data_length,
                cryptographic_sequence_number,
            } => {
                let n = *cryptographic_sequence_number;
                [
                    0u8,
                    0u8,
                    *key_id,
                    *authentication_data_length,
                    (n / 16777216) as u8,
                    ((n / 65536) % 256) as u8,
                    ((n / 256) % 256) as u8,
                    (n % 256) as u8,
                ]
            },
        };
        assert(r@ =~= authentication_bytes_of(*self));
        r
    }
}

impl<'a> From<&'a OspfAuthenticationHeader> for u64 {
    fn from(value: &'a OspfAuthenticationHeader) -> (r: u64)
        ensures
            r == be64_of(authentication_bytes_of(*value)),
    {
        read_be64(&value.to_bytes())
    }
}

impl<'a> vstd::std_specs::convert::FromSpecImpl<&'a OspfAuthenticationHeader> for u64 {
    open spec fn obeys_from_spec() -> bool {
        true
    }

    open spec fn from_spec(value: &'a OspfAuthenticationHeader) -> u64 {
        be64_of(authentication_bytes_of(*value))
    }
}


/// The fields of an OSPFv2 header, the identifiers as 32-bit numbers.
pub struct OspfHeaderView {
    pub version: OspfVersion,
    pub message_type: OspfMessageType,
    pub packet_length: u16,
    pub router_id: u32,
    pub area_id: u32,
    pub checksum: u16,
    pub authentication_type: OspfAuthenticationType,
    pub authentication_header: OspfAuthenticationHeader,
}

/// An OSPFv2 packet header.
#[derive(Debug)]
pub struct OspfHeader {
    version: OspfVersion,
    message_type: OspfMessageType,
    packet_length: u16,
    router_id: Ipv4Addr,
    area_id: Ipv4Addr,
    checksum: u16,
    authentication_type: OspfAuthenticationType,
    authentication_header: OspfAuthenticationHeader,
}

impl View for OspfHeader {
    type V = OspfHeaderView;

    closed spec fn view(&self) -> OspfHeaderView {
        OspfHeaderView {
            version: self.version,
            message_type: self.message_type,
            packet_length: self.packet_length,
            router_id: self.router_id@,
            area_id: self.area_id@,
            checksum: self.checksum,
            authentication_type: self.authentication_type,
            authentication_header: self.authentication_header,
        }
    }
}

/// The header that an OSPFv2 packet starts with, or why `d` holds none.  The
/// packet is the first `packet_length` bytes of `d`; the rest is ignored.
/// Its checksum leaves out the checksum field and the authentication data,
/// and is zero under cryptographic authentication.
pub open spec fn header_from_bytes(d: Seq<u8>) -> Result<OspfHeaderView, ProtocolError> {
    let packet_length = be16_at(d, 2);
    if d.len() < 24 {
        Err(ProtocolError::InvalidHeaderLength(PROTOCOL, 24, d.len() as usize))
    } else if packet_length < 24 {
        Err(ProtocolError::InvalidHeaderLength(PROTOCOL, 24, d.len() as usize))
    } else if d.len() < packet_length {
        Err(ProtocolError::InvalidMinimumLength(PROTOCOL, packet_length as usize, d.len() as usize))
    } else if packet_length % 4 != 0 {
        Err(ProtocolError::InvalidBitBoundary(PROTOCOL, packet_length as usize))
    } else {
        match authentication_type_from_u16(be16_at(d, 14)) {
            Err(e) => Err(e),
            Ok(authentication_type) => {
                let expected = if authentication_type
                    == OspfAuthenticationType::CryptographicAuthentication {
                    0u16
                } else {
                    ospf_expected_checksum(d, packet_length as nat)
                };
                let checksum = be16_at(d, 12);
                if checksum != expected {
                    Err(ProtocolError::InvalidChecksum { proto: PROTOCOL, expected, actual: checksum })
                } else {
                    match version_from_byte(d[0]) {
                        Err(e) => Err(e),
                        Ok(version) => match message_type_from_byte(d[1]) {
                            Err(e) => Err(e),
                            Ok(message_type) => Ok(
                                OspfHeaderView {
                                    version,
                                    message_type,
                                    packet_length,
                                    router_id: be32_at(d, 4),
                                    area_id: be32_at(d, 8),
                                    checksum,
                                    authentication_header: authentication_header_of(
                                        authentication_type,
                                        d.subrange(16, 24),
                                    ),
                                    authentication_type,
                                },
                            ),
                        },
                    }
                }
            },
        }
    }
}

/// The 24 bytes that a header is written as.
pub open spec fn header_bytes(h: OspfHeaderView) -> Seq<u8> {
    seq![version_byte(h.version), message_type_byte(h.message_type)] + be16_bytes(
        h.packet_length,
    ) + octets_of(h.router_id) + octets_of(h.area_id) + be16_bytes(h.checksum) + be16_bytes(
        authentication_type_number(h.authentication_type),
    ) + authentication_bytes_of(h.authentication_header)
}

impl OspfHeader {
    pub fn get_version(&self) -> (r: &OspfVersion)
        ensures
            *r == self@.version,
    {
        &self.version
    }

    pub fn get_type(&self) -> (r: &OspfMessageType)
        ensures
            *r == self@.message_type,
    {
        &self.message_type
    }

    pub fn get_length(&self) -> (r: u16)
        ensures
            r == self@.packet_length,
    {
        self.packet_length
    }

    pub fn get_router_id(&self) -> (r: Ipv4Addr)
        ensures
            r@ == self@.router_id,
    {
        self.router_id
    }

    pub fn get_area_id(&self) -> (r: Ipv4Addr)
        ensures
            r@ == self@.area_id,
    {
        self.area_id
    }

    pub fn get_checksum(&self) -> (r: u16)
        ensures
            r == self@.checksum,
    {
        self.checksum
    }

    pub fn get_authentication_type(&self) -> (r: &OspfAuthenticationType)
        ensures
            *r == self@.authentication_type,
    {
        &self.authentication_type
    }

    pub fn get_authentication_header(&self) -> (r: &OspfAuthenticationHeader)
        ensures
            *r == self@.authentication_header,
    {
        &self.authentication_header
    }
}

impl<'a> TryFrom<&'a [u8]> for OspfHeader {
    type Error = ProtocolError;

    fn try_from(data: &'a [u8]) -> (r: Result<Self, ProtocolError>)
        ensures
            match r {
                Ok(h) => header_from_bytes(data@) == Ok::<OspfHeaderView, ProtocolError>(h@),
                Err(e) => header_from_bytes(data@) == Err::<OspfHeaderView, ProtocolError>(e),
            },
    {
        // Too short for a header at all.
        if data.len() < 24 {
            return Err(ProtocolError::InvalidHeaderLength(PROTOCOL, 24, data.len()));
        }
        let packet_length = read_be16(data, 2);
        if packet_length < 24 {
            return Err(ProtocolError::InvalidHeaderLength(PROTOCOL, 24, data.len()));
        }
        // A longer buffer is truncated to the packet; a shorter one is refused.
        if data.len() < packet_length as usize {
            return Err(
                ProtocolError::InvalidMinimumLength(PROTOCOL, packet_length as usize, data.len()),
            );
        }
        if packet_length % 4 != 0 {
            return Err(ProtocolError::InvalidBitBoundary(PROTOCOL, packet_length as usize));
        }
        let length = packet_length as usize;
        let authentication_type = match OspfAuthenticationType::try_from(read_be16(data, 14)) {
            Ok(t) => t,
            Err(e) => return Err(e),
        };
        let expected_checksum = match authentication_type {
            OspfAuthenticationType::CryptographicAuthentication => 0u16,
            _ => ospf_checksum(data, length),
        };
        let checksum = read_be16(data, 12);
        if checksum != expected_checksum {
            return Err(
                ProtocolError::InvalidChecksum {
                    proto: PROTOCOL,
                    expected: expected_checksum,
                    actual: checksum,
                },
            );
        }
        let version = match OspfVersion::try_from(data[0]) {
            Ok(v) => v,
            Err(e) => return Err(e),
        };
        let message_type = match OspfMessageType::try_from(data[1]) {
            Ok(t) => t,
            Err(e) => return Err(e),
        };
        let authentication_bytes: [u8; 8] = [
            data[16],
            data[17],
            data[18],
            data[19],
            data[20],
            data[21],
            data[22],
            data[23],
        ];
        assert(authentication_bytes@ =~= data@.subrange(16, 24));
        let authentication_header = match OspfAuthenticationHeader::new(
            &authentication_type,
            &authentication_bytes,
        ) {
            Ok(h) => h,
            Err(e) => return Err(e),
        };
        Ok(
            OspfHeader {
                version,
                message_type,
                router_id: Ipv4Addr::from(read_be32(data, 4)),
                area_id: Ipv4Addr::from(read_be32(data, 8)),
                authentication_header,
                authentication_type,
                packet_length,
                checksum,
            },
        )
    }
}

impl<'a> vstd::std_specs::convert::TryFromSpecImpl<&'a [u8]> for OspfHeader {
    open spec fn obeys_try_from_spec() -> bool {
        false
    }

    open spec fn try_from_spec(data: &'a [u8]) -> Result<Self, ProtocolError> {
        arbitrary()
    }
}

/// Appends the bytes of `header` to `buffer`.
fn push_header(buffer: &mut Vec<u8>, header: &OspfHeader)
    ensures
        final(buffer)@ == old(buffer)@ + header_bytes(header@),
{
    buffer.push(u8::from(header.get_version()));
    buffer.push(u8::from(header.get_type()));
    push_u16(buffer, header.get_length());
    push_octets(buffer, &header.get_router_id());
    push_octets(buffer, &header.get_area_id());
    push_u16(buffer, header.get_checksum());
    push_u16(buffer, u16::from(header.get_authentication_type()));
    let a = header.get_authentication_header().to_bytes();
    let mut i: usize = 0;
    while i < 8
        invariant
            0 <= i <= 8,
            buffer@ == old(buffer)@ + seq![version_byte(header@.version), message_type_byte(header@.message_type)]
                + be16_bytes(header@.packet_length) + octets_of(header@.router_id)
                + octets_of(header@.area_id) + be16_bytes(header@.checksum) + be16_bytes(
                authentication_type_number(header@.authentication_type),
            ) + a@.take(i as int),
            a@ == authentication_bytes_of(header@.authentication_header),
        decreases 8 - i,
    {
        buffer.push(a[i]);
        i = i + 1;
        assert(a@.take(i as int) =~= a@.take(i - 1) + seq![a@[i - 1]]);
    }
    assert(a@.take(8) =~= a@);
    assert(buffer@ =~= old(buffer)@ + header_bytes(header@));
}

impl<'a> From<&'a OspfHeader> for Vec<u8> {
    fn from(header: &'a OspfHeader) -> (r: Vec<u8>)
        ensures
            r@ == header_bytes(header@),
    {
        let mut buffer: Vec<u8> = Vec::new();
        push_header(&mut buffer, header);
        buffer
    }
}

impl<'a> vstd::std_specs::convert::FromSpecImpl<&'a OspfHeader> for Vec<u8> {
    open spec fn obeys_from_spec() -> bool {
        false
    }

    open spec fn from_spec(header: &'a OspfHeader) -> Vec<u8> {
        arbitrary()
    }
}


/// The fields that a header builder holds.
pub struct OspfHeaderBuilderView {
    pub message_type: OspfMessageType,
    pub packet_length: u16,
    pub router_id: u32,
    pub area_id: u32,
    pub checksum: u16,
}

/// Builds headers of version 2 without authentication.
#[derive(Clone, Debug)]
pub struct OspfHeaderBuilder {
    message_type: OspfMessageType,
    packet_length: u16,
    router_id: Ipv4Addr,
    area_id: Ipv4Addr,
    checksum: u16,
}

impl View for OspfHeaderBuilder {
    type V = OspfHeaderBuilderView;

    closed spec fn view(&self) -> OspfHeaderBuilderView {
        OspfHeaderBuilderView {
            message_type: self.message_type,
            packet_length: self.packet_length,
            router_id: self.router_id@,
            area_id: self.area_id@,
            checksum: self.checksum,
        }
    }
}

/// The header that a builder with the fields `b` builds.
pub open spec fn built_header(b: OspfHeaderBuilderView) -> OspfHeaderView {
    OspfHeaderView {
        version: OspfVersion::V2,
        message_type: b.message_type,
        packet_length: b.packet_length,
        router_id: b.router_id,
        area_id: b.area_id,
        checksum: b.checksum,
        authentication_type: OspfAuthenticationType::Null,
        authentication_header: OspfAuthenticationHeader::Null,
    }
}

impl OspfHeaderBuilder {
    /// A builder for a header of the given type, length and identifiers, with
    /// a zero checksum.
    pub fn new(
        message_type: OspfMessageType,
        packet_length: u16,
        router_id: Ipv4Addr,
        area_id: Ipv4Addr,
    ) -> (r: Self)
        ensures
            r@ == (OspfHeaderBuilderView {
                message_type,
                packet_length,
                router_id: router_id@,
                area_id: area_id@,
                checksum: 0,
            }),
    {
        OspfHeaderBuilder { message_type, packet_length, router_id, area_id, checksum: 0u16 }
    }

    /// The same builder with the given checksum.
    pub fn with_checksum(self, checksum: u16) -> (r: Self)
        ensures
            r@ == (OspfHeaderBuilderView { checksum, ..self@ }),
    {
        let mut b = self;
        b.checksum = checksum;
        b
    }

    /// The header: version 2, no authentication.
    pub fn build(self) -> (r: OspfHeader)
        ensures
            r@ == built_header(self@),
            r@.version == OspfVersion::V2,
            r@.message_type == self@.message_type,
            r@.packet_length == self@.packet_length,
            r@.router_id == self@.router_id,
            r@.area_id == self@.area_id,
            r@.checksum == self@.checksum,
            r@.authentication_type == OspfAuthenticationType::Null,
            r@.authentication_header == OspfAuthenticationHeader::Null,
    {
        OspfHeader {
            version: OspfVersion::V2,
            message_type: self.message_type,
            packet_length: self.packet_length,
            router_id: self.router_id,
            area_id: self.area_id,
            checksum: self.checksum,
            authentication_type: OspfAuthenticationType::Null,
            authentication_header: OspfAuthenticationHeader::Null,
        }
    }
}

/// A built header is of version 2, without authentication, and carries the
/// type, length, router, area and checksum that the builder was given.
pub proof fn lemma_built_header_fields(b: OspfHeaderBuilderView)
    ensures
        built_header(b).version == OspfVersion::V2,
        built_header(b).message_type == b.message_type,
        built_header(b).packet_length == b.packet_length,
        built_header(b).router_id == b.router_id,
        built_header(b).area_id == b.area_id,
        built_header(b).checksum == b.checksum,
        built_header(b).authentication_type == OspfAuthenticationType::Null,
        built_header(b).authentication_header == OspfAuthenticationHeader::Null,
{
}

/// A header read from bytes takes each field from its place (RFC 2328
/// A.3.1): the length from bytes 2..4, the router from 4..8, the area from
/// 8..12 and the checksum from 12..14, most significant byte first; the
/// packet it heads lies within the bytes.
pub proof fn lemma_header_field_places(d: Seq<u8>)
    ensures
        header_from_bytes(d) matches Ok(h) ==> {
            &&& 24 <= h.packet_length <= d.len()
            &&& h.packet_length % 4 == 0
            &&& h.packet_length as nat == d[2] as nat * 256 + d[3] as nat
            &&& h.router_id as nat == d[4] as nat * 16777216 + d[5] as nat * 65536 + d[6] as nat * 256
                + d[7] as nat
            &&& h.area_id as nat == d[8] as nat * 16777216 + d[9] as nat * 65536 + d[10] as nat * 256
                + d[11] as nat
            &&& h.checksum as nat == d[12] as nat * 256 + d[13] as nat
            &&& version_from_byte(d[0]) == Ok::<OspfVersion, ProtocolError>(h.version)
            &&& message_type_from_byte(d[1]) == Ok::<OspfMessageType, ProtocolError>(h.message_type)
            &&& authentication_type_from_u16(be16_at(d, 14)) == Ok::<OspfAuthenticationType, ProtocolError>(
                h.authentication_type,
            )
        },
{
    if header_from_bytes(d) is Ok {
        assert((d[2] as nat * 256 + d[3] as nat) < 65536);
        assert((d[12] as nat * 256 + d[13] as nat) < 65536);
        assert((d[4] as nat * 16777216 + d[5] as nat * 65536 + d[6] as nat * 256 + d[7] as nat) < 4294967296);
        assert((d[8] as nat * 16777216 + d[9] as nat * 65536 + d[10] as nat * 256 + d[11] as nat) < 4294967296);
    }
}

/// A header is written with each field in its place (RFC 2328 A.3.1): the
/// version, the type, the length at bytes 2..4, the router at 4..8, the area
/// at 8..12, the checksum at 12..14 and the authentication type at 14..16,
/// most significant byte first, then eight bytes of authentication data.
pub proof fn lemma_header_bytes_places(h: OspfHeaderView)
    ensures
        header_bytes(h).len() == 24,
        header_bytes(h)[0] == version_byte(h.version),
        header_bytes(h)[1] == message_type_byte(h.message_type),
        header_bytes(h)[2] as nat * 256 + header_bytes(h)[3] as nat == h.packet_length,
        header_bytes(h)[4] as nat * 16777216 + header_bytes(h)[5] as nat * 65536 + header_bytes(h)[6] as nat
            * 256 + header_bytes(h)[7] as nat == h.router_id,
        header_bytes(h)[8] as nat * 16777216 + header_bytes(h)[9] as nat * 65536 + header_bytes(h)[10] as nat
            * 256 + header_bytes(h)[11] as nat == h.area_id,
        header_bytes(h)[12] as nat * 256 + header_bytes(h)[13] as nat == h.checksum,
        header_bytes(h)[14] as nat * 256 + header_bytes(h)[15] as nat == authentication_type_number(
            h.authentication_type,
        ),
        header_bytes(h).subrange(16, 24) == authentication_bytes_of(h.authentication_header),
{
    let d = header_bytes(h);
    if let OspfAuthenticationHeader::SimplePassword(data) = h.authentication_header {
        assert(data@.len() == 8);
    }
    assert(authentication_bytes_of(h.authentication_header).len() == 8);
    lemma_be16_roundtrip(h.packet_length);
    lemma_be32_roundtrip(h.router_id);
    lemma_be32_roundtrip(h.area_id);
    lemma_be16_roundtrip(h.checksum);
    lemma_be16_roundtrip(authentication_type_number(h.authentication_type));
    assert(be16_at(d, 2) == be16_at(be16_bytes(h.packet_length), 0));
    assert(be32_at(d, 4) == be32_at(octets_of(h.router_id), 0));
    assert(be32_at(d, 8) == be32_at(octets_of(h.area_id), 0));
    assert(be16_at(d, 12) == be16_at(be16_bytes(h.checksum), 0));
    assert(be16_at(d, 14) == be16_at(be16_bytes(authentication_type_number(h.authentication_type)), 0));
    assert((d[2] as nat * 256 + d[3] as nat) < 65536);
    assert((d[12] as nat * 256 + d[13] as nat) < 65536);
    assert((d[14] as nat * 256 + d[15] as nat) < 65536);
    assert((d[4] as nat * 16777216 + d[5] as nat * 65536 + d[6] as nat * 256 + d[7] as nat) < 4294967296);
    assert((d[8] as nat * 16777216 + d[9] as nat * 65536 + d[10] as nat * 256 + d[11] as nat) < 4294967296);
    assert(d.subrange(16, 24) =~= authentication_bytes_of(h.authentication_header));
}


/// Each version, packet type and authentication type reads back from the
/// number it is written as, and a number that reads as one of them is the
/// number it is written as.
pub proof fn lemma_field_numbers_roundtrip(
    version: OspfVersion,
    message_type: OspfMessageType,
    authentication_type: OspfAuthenticationType,
    b: u8,
    n: u16,
)
    ensures
        version_from_byte(version_byte(version)) == Ok::<OspfVersion, ProtocolError>(version),
        message_type_from_byte(message_type_byte(message_type)) == Ok::<
            OspfMessageType,
            ProtocolError,
        >(message_type),
        authentication_type_from_u16(authentication_type_number(authentication_type)) == Ok::<
            OspfAuthenticationType,
            ProtocolError,
        >(authentication_type),
        version_from_byte(b) matches Ok(v) ==> version_byte(v) == b,
        message_type_from_byte(b) matches Ok(t) ==> message_type_byte(t) == b,
        authentication_type_from_u16(n) matches Ok(t) ==> authentication_type_number(t) == n,
{
}

/// Whether authentication data is of the kind that the type announces.
pub open spec fn authentication_matches(
    authentication_type: OspfAuthenticationType,
    header: OspfAuthenticationHeader,
) -> bool {
    match (authentication_type, header) {
        (OspfAuthenticationType::Null, OspfAuthenticationHeader::Null) => true,
        (OspfAuthenticationType::SimplePassword, OspfAuthenticationHeader::SimplePassword(_)) => true,
        (
            OspfAuthenticationType::CryptographicAuthentication,
            OspfAuthenticationHeader::CryptographicAuthentication { .. },
        ) => true,
        _ => false,
    }
}

/// Authentication data reads back from the eight bytes it is written as,
/// under the type it is of.
pub proof fn lemma_authentication_roundtrip(
    authentication_type: OspfAuthenticationType,
    header: OspfAuthenticationHeader,
)
    requires
        authentication_matches(authentication_type, header),
    ensures
        authentication_bytes_of(header).len() == 8,
        authentication_header_of(authentication_type, authentication_bytes_of(header)) == header,
{
    match header {
        OspfAuthenticationHeader::SimplePassword(data) => {
            let b = authentication_bytes_of(header);
            assert(b == data@);
            assert([b[0], b[1], b[2], b[3], b[4], b[5], b[6], b[7]] =~= data);
        },
        OspfAuthenticationHeader::CryptographicAuthentication { cryptographic_sequence_number, .. } => {
            let b = authentication_bytes_of(header);
            let n = cryptographic_sequence_number;
            assert(be32_at(b, 4) == n) by {
                assert(b[4] == (n / 16777216) as u8);
                assert(b[5] == ((n / 65536) % 256) as u8);
                assert(b[6] == ((n / 256) % 256) as u8);
                assert(b[7] == (n % 256) as u8);
                assert(((n / 16777216) as u8) as nat * 16777216 + (((n / 65536) % 256) as u8) as nat * 65536
                    + (((n / 256) % 256) as u8) as nat * 256 + ((n % 256) as u8) as nat == n)
                    by (bit_vector);
            }
        },
        _ => {},
    }
}


pub(crate) proof fn lemma_be16_roundtrip(v: u16)
    ensures
        be16_at(be16_bytes(v), 0) == v,
{
    assert(((v / 256) as u8) as nat * 256 + ((v % 256) as u8) as nat == v) by (bit_vector);
}

pub(crate) proof fn lemma_be32_roundtrip(v: u32)
    ensures
        be32_at(octets_of(v), 0) == v,
{
    assert(((v / 16777216) as u8) as nat * 16777216 + (((v / 65536) % 256) as u8) as nat * 65536
        + (((v / 256) % 256) as u8) as nat * 256 + ((v % 256) as u8) as nat == v) by (bit_vector);
}

/// A header reads back from its bytes followed by the rest of its packet,
/// when its length is a whole number of words no shorter than a header, its
/// authentication data is of its announced type, and its checksum is the one
/// that reading expects of those bytes.
pub proof fn lemma_header_roundtrip(h: OspfHeaderView, body: Seq<u8>)
    requires
        h.packet_length >= 24,
        h.packet_length % 4 == 0,
        24 + body.len() >= h.packet_length,
        authentication_matches(h.authentication_type, h.authentication_header),
        h.checksum == (if h.authentication_type
            == OspfAuthenticationType::CryptographicAuthentication {
            0u16
        } else {
            ospf_expected_checksum(header_bytes(h) + body, h.packet_length as nat)
        }),
    ensures
        header_from_bytes(header_bytes(h) + body) == Ok::<OspfHeaderView, ProtocolError>(h),
{
    let hb = header_bytes(h);
    let d = hb + body;
    lemma_authentication_roundtrip(h.authentication_type, h.authentication_header);
    assert(hb.len() == 24);
    lemma_be16_roundtrip(h.packet_length);
    lemma_be16_roundtrip(h.checksum);
    lemma_be16_roundtrip(authentication_type_number(h.authentication_type));
    lemma_be32_roundtrip(h.router_id);
    lemma_be32_roundtrip(h.area_id);
    let pl = be16_bytes(h.packet_length);
    assert(be16_at(d, 2) == be16_at(pl, 0));
    let ck = be16_bytes(h.checksum);
    assert(be16_at(d, 12) == be16_at(ck, 0));
    let at = be16_bytes(authentication_type_number(h.authentication_type));
    assert(be16_at(d, 14) == be16_at(at, 0));
    let r = octets_of(h.router_id);
    assert(be32_at(d, 4) == be32_at(r, 0));
    let a = octets_of(h.area_id);
    assert(be32_at(d, 8) == be32_at(a, 0));
    assert(d.subrange(16, 24) =~= authentication_bytes_of(h.authentication_header));
    lemma_field_numbers_roundtrip(h.version, h.message_type, h.authentication_type, 0, 0);
    assert(d[0] == version_byte(h.version));
    assert(d[1] == message_type_byte(h.message_type));
}


proof fn lemma_word_sum_same(d1: Seq<u8>, d2: Seq<u8>, n: nat)
    requires
        n <= d1.len(),
        n <= d2.len(),
        forall|i: int|
            0 <= i < n && !((12 <= i < 14) || (16 <= i < 24)) ==> #[trigger] d1[i] == d2[i],
    ensures
        crate::ospfv2::ospf_word_sum(d1, n) == crate::ospfv2::ospf_word_sum(d2, n),
    decreases n,
{
    if n > 0 {
        lemma_word_sum_same(d1, d2, (n - 1) as nat);
    }
}

/// The checksum that reading expects of a packet does not depend on the
/// checksum the header carries, so it can be computed before it is filled in.
pub proof fn lemma_checksum_ignores_checksum_field(h: OspfHeaderView, body: Seq<u8>, checksum: u16)
    requires
        24 + body.len() >= h.packet_length,
    ensures
        ospf_expected_checksum(header_bytes(h) + body, h.packet_length as nat)
            == ospf_expected_checksum(
            header_bytes(OspfHeaderView { checksum, ..h }) + body,
            h.packet_length as nat,
        ),
{
    let d1 = header_bytes(h) + body;
    let d2 = header_bytes(OspfHeaderView { checksum, ..h }) + body;
    assert forall|i: int|
        0 <= i < h.packet_length && !((12 <= i < 14) || (16 <= i < 24)) implies #[trigger] d1[i]
        == d2[i] by {
        if i >= 24 {
            assert(d1[i] == body[i - 24]);
            assert(d2[i] == body[i - 24]);
        }
    }
    lemma_word_sum_same(d1, d2, h.packet_length as nat);
}

} // verus!
