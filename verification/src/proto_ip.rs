//! The IPv4 header (RFC 791): parsing, serialisation and a builder.

use vstd::prelude::*;
use crate::net::{Ipv4Addr, octets_of};
use crate::proto_common::{ProtocolError, InternetChecksum};
use crate::proto_common::checksum::internet_checksum;

verus! {

/// The protocol name that IPv4 errors carry.
pub const IP_V4_PROTO: &'static str = "IPv4";

/// The largest payload that fits an IPv4 packet without fragmentation.
pub const MAX_UNFRAGMENTED_PAYLOAD: usize = 65515;

/// The version field of an IP header: a 4-bit number.
#[derive(Clone, Copy, Debug, PartialEq, Eq, Structural)]
pub struct IpVersion {
    version: u8,
}

impl View for IpVersion {
    type V = u8;

    closed spec fn view(&self) -> u8 {
        self.version
    }
}

impl IpVersion {
    /// A version always fits the 4-bit field.
    #[verifier::type_invariant]
    closed spec fn fits(self) -> bool {
        self.version <= 0x0F
    }

    /// Version 4.
    pub fn ipv4() -> (r: Self)
        ensures
            r@ == 4,
    {
        Self { version: 4 }
    }

    /// Version 6.
    pub fn ipv6() -> (r: Self)
        ensures
            r@ == 6,
    {
        Self { version: 6 }
    }

    /// Any version that fits the 4-bit field.
    pub fn custom(value: u8) -> (r: Result<Self, ProtocolError>)
        ensures
            value <= 0x0F ==> (r matches Ok(v) && v@ == value),
            value > 0x0F ==> r == Err::<Self, ProtocolError>(
                ProtocolError::UnsupportedFieldValue(IP_V4_PROTO, "Version", value as usize),
            ),
    {
        if value > 0x0F {
            Err(ProtocolError::UnsupportedFieldValue(IP_V4_PROTO, "Version", value as usize))
        } else {
            Ok(Self { version: value })
        }
    }

    /// The version number, which fits the 4-bit field.
    pub fn get_value(&self) -> (r: u8)
        ensures
            r == self@,
            r <= 0x0F,
    {
        proof {
            use_type_invariant(self);
        }
        self.version
    }
}

/// One of the three flag bits of an IPv4 header.
pub enum Ipv4Flag {
    Reserved,
    DontFragment,
    MoreFragments,
}

/// The bit of a flag within the 3-bit flags field.
pub open spec fn flag_bit(flag: Ipv4Flag) -> u8 {
    match flag {
        Ipv4Flag::Reserved => 1,
        Ipv4Flag::DontFragment => 2,
        Ipv4Flag::MoreFragments => 4,
    }
}

/// The position of a flag in the declaration of `Ipv4Flag`.
pub open spec fn flag_position(flag: Ipv4Flag) -> u8 {
    match flag {
        Ipv4Flag::Reserved => 0,
        Ipv4Flag::DontFragment => 1,
        Ipv4Flag::MoreFragments => 2,
    }
}

impl Ipv4Flag {
    fn get_value(&self) -> (r: u8)
        ensures
            r == flag_bit(*self),
    {
        match self {
            Self::Reserved => 1,
            Self::DontFragment => 2,
            Self::MoreFragments => 4,
        }
    }

    fn position(&self) -> (r: u8)
        ensures
            r == flag_position(*self),
    {
        match self {
            Self::Reserved => 0,
            Self::DontFragment => 1,
            Self::MoreFragments => 2,
        }
    }
}

/// The bits of a list of flags, or-ed together.
pub open spec fn flags_bits(flags: Seq<Ipv4Flag>) -> u8
    decreases flags.len(),
{
    if flags.len() == 0 {
        0
    } else {
        flags_bits(flags.drop_last()) | flag_bit(flags.last())
    }
}

/// The 3-bit flags field of an IPv4 header.
#[derive(Clone, Copy, Debug, PartialEq, Eq, Structural)]
pub struct Ipv4Flags {
    flags: u8,
}

impl View for Ipv4Flags {
    type V = u8;

    closed spec fn view(&self) -> u8 {
        self.flags
    }
}

proof fn lemma_flags_bits_small(flags: Seq<Ipv4Flag>)
    ensures
        flags_bits(flags) < 8,
    decreases flags.len(),
{
    if flags.len() > 0 {
        lemma_flags_bits_small(flags.drop_last());
        let a = flags_bits(flags.drop_last());
        let b = flag_bit(flags.last());
        assert(a < 8 && b < 8 ==> a | b < 8) by (bit_vector);
    }
}

impl Ipv4Flags {
    /// The field with exactly the given flags set.
    pub fn new(flags: &[Ipv4Flag]) -> (r: Ipv4Flags)
        ensures
            r@ == flags_bits(flags@),
            r@ < 8,
    {
        let mut ipv4_flags = 0u8;
        let mut i: usize = 0;
        while i < flags.len()
            invariant
                i <= flags@.len(),
                ipv4_flags == flags_bits(flags@.take(i as int)),
            decreases flags@.len() - i,
        {
            assert(flags@.take(i + 1).drop_last() =~= flags@.take(i as int));
            ipv4_flags = ipv4_flags | flags[i].get_value();
            i = i + 1;
        }
        assert(flags@.take(flags@.len() as int) =~= flags@);
        proof {
            lemma_flags_bits_small(flags@);
        }
        Ipv4Flags { flags: ipv4_flags }
    }

    /// Whether the field, and-ed with the position of `flag` in the
    /// declaration of `Ipv4Flag`, has all eight bits set.  The field holds at
    /// most three bits, so this never holds.
    pub fn is_set(&self, flag: Ipv4Flag) -> (r: bool)
        ensures
            r == (self@ & flag_position(flag) == 0xFF),
    {
        (self.flags & flag.position()) == 0xFF
    }
}

impl TryFrom<u8> for Ipv4Flags {
    type Error = ProtocolError;

    fn try_from(flags: u8) -> (r: Result<Self, ProtocolError>)
        ensures
            flags & 0xF8 == 0 ==> (r matches Ok(f) && f@ == flags),
            flags & 0xF8 != 0 ==> r == Err::<Self, ProtocolError>(
                ProtocolError::UnsupportedFieldValue(IP_V4_PROTO, "Flags", flags as usize),
            ),
    {
        if flags & 0xF8 != 0 {
            Err(ProtocolError::UnsupportedFieldValue(IP_V4_PROTO, "Flags", flags as usize))
        } else {
            Ok(Self { flags })
        }
    }
}

impl vstd::std_specs::convert::TryFromSpecImpl<u8> for Ipv4Flags {
    open spec fn obeys_try_from_spec() -> bool {
        true
    }

    closed spec fn try_from_spec(flags: u8) -> Result<Self, ProtocolError> {
        if flags & 0xF8 != 0 {
            Err(ProtocolError::UnsupportedFieldValue(IP_V4_PROTO, "Flags", flags as usize))
        } else {
            Ok(Self { flags })
        }
    }
}

impl From<&Ipv4Flags> for u8 {
    fn from(value: &Ipv4Flags) -> (r: u8)
        ensures
            r == value@,
    {
        value.flags
    }
}

impl vstd::std_specs::convert::FromSpecImpl<&Ipv4Flags> for u8 {
    open spec fn obeys_from_spec() -> bool {
        true
    }

    open spec fn from_spec(value: &Ipv4Flags) -> u8 {
        value@
    }
}

/// The fields of an IPv4 header as numbers.
pub struct IpV4HeaderView {
    pub version: u8,
    pub internet_header_length: u8,
    pub type_of_service: u8,
    pub total_length: u16,
    pub identification: u16,
    pub flags: u8,
    pub fragment_offset: u16,
    pub time_to_live: u8,
    pub protocol: u8,
    pub header_checksum: u16,
    pub source_address: u32,
    pub destination_address: u32,
}

/// An IPv4 header; options are not kept.
#[derive(Clone, Copy, Debug)]
pub struct IpV4Header {
    version: IpVersion,
    internet_header_length: u8,
    type_of_service: u8,
    total_length: u16,
    identification: u16,
    flags: Ipv4Flags,
    fragment_offset: u16,
    time_to_live: u8,
    protocol: u8,
    header_checksum: u16,
    source_address: Ipv4Addr,
    destination_address: Ipv4Addr,
}

impl View for IpV4Header {
    type V = IpV4HeaderView;

    closed spec fn view(&self) -> IpV4HeaderView {
        IpV4HeaderView {
            version: self.version@,
            internet_header_length: self.internet_header_length,
            type_of_service: self.type_of_service,
            total_length: self.total_length,
            identification: self.identification,
            flags: self.flags@,
            fragment_offset: self.fragment_offset,
            time_to_live: self.time_to_live,
            protocol: self.protocol,
            header_checksum: self.header_checksum,
            source_address: self.source_address@,
            destination_address: self.destination_address@,
        }
    }
}

/// The big-endian value of two bytes.
pub open spec fn be16(hi: u8, lo: u8) -> u16 {
    (hi as nat * 256 + lo as nat) as u16
}

/// The big-endian value of four bytes.
pub open spec fn be32(b0: u8, b1: u8, b2: u8, b3: u8) -> u32 {
    (b0 as nat * 16777216 + b1 as nat * 65536 + b2 as nat * 256 + b3 as nat) as u32
}

/// The IPv4 header at the start of `d`, or why there is none.
pub open spec fn parse_ipv4_header(d: Seq<u8>) -> Result<IpV4HeaderView, ProtocolError> {
    if d.len() < 20 {
        Err(ProtocolError::InvalidMinimumLength(IP_V4_PROTO, 20, d.len() as usize))
    } else if d[0] / 16 != 4 {
        Err(ProtocolError::UnsupportedFieldValue(IP_V4_PROTO, "Version", (d[0] / 16) as usize))
    } else if (d[0] % 16) * 4 < 20 {
        Err(
            ProtocolError::UnsupportedFieldValue(
                IP_V4_PROTO,
                "Internet Header Length",
                (d[0] % 16) as usize,
            ),
        )
    } else if (d[0] % 16) * 4 > d.len() {
        Err(
            ProtocolError::InvalidMinimumLength(
                IP_V4_PROTO,
                ((d[0] % 16) * 4) as usize,
                d.len() as usize,
            ),
        )
    } else {
        Ok(
            IpV4HeaderView {
                version: 4,
                internet_header_length: d[0] % 16,
                type_of_service: d[1],
                total_length: be16(d[2], d[3]),
                identification: be16(d[4], d[5]),
                flags: d[6] / 32,
                fragment_offset: ((be16(d[6], d[7]) % 8192) * 8) as u16,
                time_to_live: d[8],
                protocol: d[9],
                header_checksum: be16(d[10], d[11]),
                source_address: be32(d[12], d[13], d[14], d[15]),
                destination_address: be32(d[16], d[17], d[18], d[19]),
            },
        )
    }
}

/// The high byte of a 16-bit value.
pub open spec fn hi(v: u16) -> u8 {
    (v / 256) as u8
}

/// The low byte of a 16-bit value.
pub open spec fn lo(v: u16) -> u8 {
    (v % 256) as u8
}

/// The 16-bit word that carries the flags and the fragment offset.
pub open spec fn flags_and_offset(h: IpV4HeaderView) -> u16 {
    h.fragment_offset | (((h.flags % 8) as nat * 8192) as u16)
}

/// The 20 bytes of an IPv4 header: the header length is always written as
/// five words, and the fragment offset is or-ed into the flags word as it is.
pub open spec fn serialize_ipv4_header(h: IpV4HeaderView) -> Seq<u8> {
    seq![
        ((h.version % 16) * 16 + 5) as u8,
        h.type_of_service,
        hi(h.total_length),
        lo(h.total_length),
        hi(h.identification),
        lo(h.identification),
        hi(flags_and_offset(h)),
        lo(flags_and_offset(h)),
        h.time_to_live,
        h.protocol,
        hi(h.header_checksum),
        lo(h.header_checksum),
    ] + octets_of(h.source_address) + octets_of(h.destination_address)
}

pub(crate) fn push_u16(buffer: &mut Vec<u8>, v: u16)
    ensures
        final(buffer)@ == old(buffer)@ + seq![hi(v), lo(v)],
{
    buffer.push((v / 256) as u8);
    buffer.push((v % 256) as u8);
}

pub(crate) fn push_octets(buffer: &mut Vec<u8>, a: &Ipv4Addr)
    ensures
        final(buffer)@ == old(buffer)@ + octets_of(a@),
{
    let o = a.octets();
    buffer.push(o[0]);
    buffer.push(o[1]);
    buffer.push(o[2]);
    buffer.push(o[3]);
    assert(buffer@ =~= old(buffer)@ + octets_of(a@));
}

impl IpV4Header {
    /// Every header is of version 4, and its flags fit their three bits.
    #[verifier::type_invariant]
    closed spec fn inv(self) -> bool {
        self.version@ == 4 && self.flags@ < 8
    }

    pub fn get_version(&self) -> (r: &IpVersion)
        ensures
            r@ == self@.version,
            r@ == 4,
    {
        proof {
            use_type_invariant(self);
        }
        &self.version
    }

    pub fn get_internet_header_length(&self) -> (r: u8)
        ensures
            r == self@.internet_header_length,
    {
        self.internet_header_length
    }

    pub fn get_type_of_service(&self) -> (r: u8)
        ensures
            r == self@.type_of_service,
    {
        self.type_of_service
    }

    pub fn get_total_length(&self) -> (r: u16)
        ensures
            r == self@.total_length,
    {
        self.total_length
    }

    pub fn get_identification(&self) -> (r: u16)
        ensures
            r == self@.identification,
    {
        self.identification
    }

    pub fn get_flags(&self) -> (r: &Ipv4Flags)
        ensures
            r@ == self@.flags,
    {
        &self.flags
    }

    pub fn get_fragment_offset(&self) -> (r: u16)
        ensures
            r == self@.fragment_offset,
    {
        self.fragment_offset
    }

    pub fn get_time_to_live(&self) -> (r: u8)
        ensures
            r == self@.time_to_live,
    {
        self.time_to_live
    }

    pub fn get_protocol(&self) -> (r: u8)
        ensures
            r == self@.protocol,
    {
        self.protocol
    }

    pub fn get_header_checksum(&self) -> (r: u16)
        ensures
            r == self@.header_checksum,
    {
        self.header_checksum
    }

    pub fn get_source_address(&self) -> (r: Ipv4Addr)
        ensures
            r@ == self@.source_address,
    {
        self.source_address
    }

    pub fn get_destination_address(&self) -> (r: Ipv4Addr)
        ensures
            r@ == self@.destination_address,
    {
        self.destination_address
    }

    /// Reads the IPv4 header at the start of `data`.
    pub fn parse(data: &[u8]) -> (r: Result<IpV4Header, ProtocolError>)
        ensures
            match r {
                Ok(h) => parse_ipv4_header(data@) == Ok::<IpV4HeaderView, ProtocolError>(h@),
                Err(e) => parse_ipv4_header(data@) == Err::<IpV4HeaderView, ProtocolError>(e),
            },
    {
        if data.len() < 20 {
            return Err(ProtocolError::InvalidMinimumLength(IP_V4_PROTO, 20, data.len()));
        }
        let version = data[0] / 16;
        if version != 4 {
            return Err(
                ProtocolError::UnsupportedFieldValue(IP_V4_PROTO, "Version", version as usize),
            );
        }
        let internet_header_length = data[0] % 16;
        let header_length = (internet_header_length as u16) * 4;
        if header_length < 20 {
            return Err(
                ProtocolError::UnsupportedFieldValue(
                    IP_V4_PROTO,
                    "Internet Header Length",
                    internet_header_length as usize,
                ),
            );
        }
        if header_length as usize > data.len() {
            return Err(
                ProtocolError::InvalidMinimumLength(
                    IP_V4_PROTO,
                    header_length as usize,
                    data.len(),
                ),
            );
        }
        let flags_word = data[6] as u16 * 256 + data[7] as u16;
        let header = IpV4Header {
            version: IpVersion::ipv4(),
            internet_header_length,
            type_of_service: data[1],
            total_length: data[2] as u16 * 256 + data[3] as u16,
            identification: data[4] as u16 * 256 + data[5] as u16,
            flags: Ipv4Flags { flags: data[6] / 32 },
            fragment_offset: (flags_word % 8192) * 8,
            time_to_live: data[8],
            protocol: data[9],
            header_checksum: data[10] as u16 * 256 + data[11] as u16,
            source_address: Ipv4Addr::new(data[12], data[13], data[14], data[15]),
            destination_address: Ipv4Addr::new(data[16], data[17], data[18], data[19]),
        };
        Ok(header)
    }

    /// The header's 20 bytes in network order.  A header of five words
    /// without fragment offset reads back from them as it is.
    pub fn to_bytes(&self) -> (r: Vec<u8>)
        ensures
            r@ == serialize_ipv4_header(self@),
            self@.internet_header_length == 5 && self@.fragment_offset == 0 ==> parse_ipv4_header(r@) == Ok::<
                IpV4HeaderView,
                ProtocolError,
            >(self@),
    {
        proof {
            use_type_invariant(self);
            if self@.internet_header_length == 5 && self@.fragment_offset == 0 {
                lemma_serialize_then_parse(self@);
            }
        }
        let mut buffer: Vec<u8> = Vec::new();
        let flags_with_fragment_offset: u16 = self.fragment_offset | ((self.flags.flags % 8) as u16
            * 8192);
        buffer.push((self.version.version % 16) * 16 + 5);
        buffer.push(self.type_of_service);
        push_u16(&mut buffer, self.total_length);
        push_u16(&mut buffer, self.identification);
        push_u16(&mut buffer, flags_with_fragment_offset);
        buffer.push(self.time_to_live);
        buffer.push(self.protocol);
        push_u16(&mut buffer, self.header_checksum);
        push_octets(&mut buffer, &self.source_address);
        push_octets(&mut buffer, &self.destination_address);
        assert(buffer@ =~= serialize_ipv4_header(self@));
        buffer
    }
}

impl<'a> TryFrom<&'a [u8]> for IpV4Header {
    type Error = ProtocolError;

    fn try_from(data: &'a [u8]) -> (r: Result<Self, ProtocolError>)
        ensures
            match r {
                Ok(h) => parse_ipv4_header(data@) == Ok::<IpV4HeaderView, ProtocolError>(h@),
                Err(e) => parse_ipv4_header(data@) == Err::<IpV4HeaderView, ProtocolError>(e),
            },
    {
        IpV4Header::parse(data)
    }
}

impl<'a> vstd::std_specs::convert::TryFromSpecImpl<&'a [u8]> for IpV4Header {
    open spec fn obeys_try_from_spec() -> bool {
        false
    }

    open spec fn try_from_spec(data: &'a [u8]) -> Result<Self, ProtocolError> {
        arbitrary()
    }
}

impl From<&IpV4Header> for Vec<u8> {
    fn from(header: &IpV4Header) -> (r: Vec<u8>)
        ensures
            r@ == serialize_ipv4_header(header@),
            header@.internet_header_length == 5 && header@.fragment_offset == 0 ==> parse_ipv4_header(r@)
                == Ok::<IpV4HeaderView, ProtocolError>(header@),
    {
        header.to_bytes()
    }
}

impl vstd::std_specs::convert::FromSpecImpl<&IpV4Header> for Vec<u8> {
    open spec fn obeys_from_spec() -> bool {
        false
    }

    open spec fn from_spec(header: &IpV4Header) -> Vec<u8> {
        arbitrary()
    }
}

/// Draws a random 16-bit number from `rand`'s thread-local generator
/// (`rand::random`).  Nothing is promised of the value.
#[verifier::external_body]
fn random_identification() -> u16 {
    rand::random::<u16>()
}

/// What a builder holds: the header so far and the values forced on it.
pub struct IpV4HeaderBuilderView {
    pub header: IpV4HeaderView,
    pub identification: Option<u16>,
    pub header_checksum: Option<u16>,
    pub internet_header_length: Option<u8>,
}

/// Builds IPv4 headers for a source, a destination and a protocol.
#[derive(Clone, Copy)]
pub struct IpV4HeaderBuilder {
    header: IpV4Header,
    identification: Option<u16>,
    header_checksum: Option<u16>,
    internet_header_length: Option<u8>,
}

impl View for IpV4HeaderBuilder {
    type V = IpV4HeaderBuilderView;

    closed spec fn view(&self) -> IpV4HeaderBuilderView {
        IpV4HeaderBuilderView {
            header: self.header@,
            identification: self.identification,
            header_checksum: self.header_checksum,
            internet_header_length: self.internet_header_length,
        }
    }
}

/// The header before its checksum: the payload length, identification and
/// header length filled in.
pub open spec fn unchecked_header(
    b: IpV4HeaderBuilderView,
    payload_length: nat,
    identification: u16,
) -> IpV4HeaderView {
    IpV4HeaderView {
        total_length: (20 + payload_length) as u16,
        identification: match b.identification {
            Some(i) => i,
            None => identification,
        },
        internet_header_length: match b.internet_header_length {
            Some(l) => l,
            None => 5,
        },
        ..b.header
    }
}

/// The header that a builder builds for a payload length, `identification`
/// standing for the random number drawn when none is forced.  Unless forced,
/// the checksum is that of the serialised header.
pub open spec fn built_header(
    b: IpV4HeaderBuilderView,
    payload_length: nat,
    identification: u16,
) -> IpV4HeaderView {
    let h = unchecked_header(b, payload_length, identification);
    IpV4HeaderView {
        header_checksum: match b.header_checksum {
            Some(c) => c,
            None => internet_checksum(serialize_ipv4_header(h)),
        },
        ..h
    }
}

impl IpV4HeaderBuilder {
    /// A builder for a version 4 header with a time to live of 128 and every
    /// other field zero.  Left zero, the identification and checksum can be
    /// filled in by the kernel.
    pub fn new(source_address: Ipv4Addr, destination_address: Ipv4Addr, protocol: u8) -> (r:
        IpV4HeaderBuilder)
        ensures
            r@.header == (IpV4HeaderView {
                version: 4,
                internet_header_length: 0,
                type_of_service: 0,
                total_length: 0,
                identification: 0,
                flags: 0,
                fragment_offset: 0,
                time_to_live: 128,
                protocol,
                header_checksum: 0,
                source_address: source_address@,
                destination_address: destination_address@,
            }),
            r@.identification is None,
            r@.header_checksum is None,
            r@.internet_header_length is None,
    {
        let no_flags: Vec<Ipv4Flag> = Vec::new();
        let flags = Ipv4Flags::new(no_flags.as_slice());
        IpV4HeaderBuilder {
            header: IpV4Header {
                version: IpVersion::ipv4(),
                time_to_live: 128,
                protocol,
                source_address,
                destination_address,
                total_length: 0,
                identification: 0,
                fragment_offset: 0,
                header_checksum: 0,
                type_of_service: 0,
                internet_header_length: 0,
                flags,
            },
            identification: None,
            header_checksum: None,
            internet_header_length: None,
        }
    }

    /// Forces the header length field, or stops forcing it with `None`.
    pub fn force_internet_header_length(&mut self, internet_header_length: Option<u8>) -> (r:
        Result<(), ProtocolError>)
        ensures
            match internet_header_length {
                Some(l) if l > 0x0F => r == Err::<(), ProtocolError>(
                    ProtocolError::UnsupportedFieldValue(
                        IP_V4_PROTO,
                        "InternetHeaderLength",
                        l as usize,
                    ),
                ) && final(self)@ == old(self)@,
                _ => r is Ok && final(self)@ == (IpV4HeaderBuilderView {
                    internet_header_length,
                    ..old(self)@
                }),
            },
    {
        match internet_header_length {
            Some(l) => {
                if l > 0x0F {
                    Err(
                        ProtocolError::UnsupportedFieldValue(
                            IP_V4_PROTO,
                            "InternetHeaderLength",
                            l as usize,
                        ),
                    )
                } else {
                    self.internet_header_length = Some(l);
                    Ok(())
                }
            },
            None => {
                self.internet_header_length = None;
                Ok(())
            },
        }
    }

    /// Forces the identification, or lets `build` draw it at random with `None`.
    pub fn force_identification(&mut self, identification: Option<u16>)
        ensures
            final(self)@ == (IpV4HeaderBuilderView { identification, ..old(self)@ }),
    {
        self.identification = identification;
    }

    /// Forces the checksum, or lets `build` compute it with `None`.
    pub fn force_header_checksum(&mut self, header_checksum: Option<u16>)
        ensures
            final(self)@ == (IpV4HeaderBuilderView { header_checksum, ..old(self)@ }),
    {
        self.header_checksum = header_checksum;
    }

    /// Builds the header for a payload of `payload_length` bytes, drawing the
    /// identification at random unless it is forced.
    pub fn build(self, payload_length: usize) -> (r: Result<IpV4Header, ProtocolError>)
        ensures
            payload_length > MAX_UNFRAGMENTED_PAYLOAD ==> r == Err::<IpV4Header, ProtocolError>(
                ProtocolError::InvalidLength(
                    "IPv4 payload length without fragmentation",
                    MAX_UNFRAGMENTED_PAYLOAD,
                    payload_length,
                ),
            ),
            payload_length <= MAX_UNFRAGMENTED_PAYLOAD ==> (r matches Ok(h) && exists|i: u16|
                h@ == built_header(self@, payload_length as nat, i)),
            payload_length <= MAX_UNFRAGMENTED_PAYLOAD && self@.identification is Some ==> (
            r matches Ok(h) && h@ == built_header(self@, payload_length as nat, 0)),
            payload_length <= MAX_UNFRAGMENTED_PAYLOAD ==> (r matches Ok(h) && (self@.header_checksum matches Some(
                c,
            ) ==> h@.header_checksum == c) && (self@.identification matches Some(i) ==> h@.identification
                == i) && h@.total_length == 20 + payload_length && h@.source_address
                == self@.header.source_address && h@.destination_address == self@.header.destination_address
                && h@.protocol == self@.header.protocol && h@.time_to_live == self@.header.time_to_live),
    {
        let identification = match self.identification {
            Some(identification) => identification,
            None => random_identification(),
        };
        let r = self.build_with_identification(payload_length, identification);
        proof {
            if let Ok(h) = r {
                assert(h@ == built_header(self@, payload_length as nat, identification));
            }
        }
        r
    }

    /// Builds the header for a payload of `payload_length` bytes, taking
    /// `identification` unless another one is forced.
    pub fn build_with_identification(self, payload_length: usize, identification: u16) -> (r:
        Result<IpV4Header, ProtocolError>)
        ensures
            payload_length > MAX_UNFRAGMENTED_PAYLOAD ==> r == Err::<IpV4Header, ProtocolError>(
                ProtocolError::InvalidLength(
                    "IPv4 payload length without fragmentation",
                    MAX_UNFRAGMENTED_PAYLOAD,
                    payload_length,
                ),
            ),
            payload_length <= MAX_UNFRAGMENTED_PAYLOAD ==> (r matches Ok(h) && h@ == built_header(
                self@,
                payload_length as nat,
                identification,
            )),
            payload_length <= MAX_UNFRAGMENTED_PAYLOAD ==> (r matches Ok(h) && (self@.header_checksum matches Some(
                c,
            ) ==> h@.header_checksum == c) && (self@.identification matches Some(i) ==> h@.identification
                == i) && h@.total_length == 20 + payload_length && h@.source_address
                == self@.header.source_address && h@.destination_address == self@.header.destination_address
                && h@.protocol == self@.header.protocol && h@.time_to_live == self@.header.time_to_live),
    {
        if payload_length > MAX_UNFRAGMENTED_PAYLOAD {
            return Err(
                ProtocolError::InvalidLength(
                    "IPv4 payload length without fragmentation",
                    MAX_UNFRAGMENTED_PAYLOAD,
                    payload_length,
                ),
            );
        }
        proof {
            use_type_invariant(&self.header);
        }
        let mut header = self.header;
        header.total_length = 20 + payload_length as u16;
        header.identification = match self.identification {
            Some(i) => i,
            None => identification,
        };
        header.internet_header_length = match self.internet_header_length {
            Some(l) => l,
            None => 5,
        };
        header.header_checksum = match self.header_checksum {
            Some(c) => c,
            None => match InternetChecksum::checksum(&header.to_bytes()) {
                Ok(c) => c,
                Err(e) => return Err(e),
            },
        };
        Ok(header)
    }
}

/// An IPv4 header read from bytes takes each field from its place (RFC 791
/// 3.1): version and header length from the halves of byte 0, the type of
/// service from byte 1, the total length from bytes 2..4, the identification
/// from 4..6, the flags from the top three bits of byte 6, the time to live
/// from byte 8, the protocol from byte 9, the checksum from 10..12, and the
/// source and destination from 12..16 and 16..20, most significant byte
/// first.
pub proof fn lemma_parsed_header_places(d: Seq<u8>)
    ensures
        parse_ipv4_header(d) matches Ok(h) ==> {
            &&& d.len() >= 20
            &&& h.version == 4 && d[0] / 16 == 4
            &&& h.internet_header_length == d[0] % 16
            &&& h.type_of_service == d[1]
            &&& h.total_length as nat == d[2] as nat * 256 + d[3] as nat
            &&& h.identification as nat == d[4] as nat * 256 + d[5] as nat
            &&& h.flags == d[6] / 32
            &&& h.time_to_live == d[8]
            &&& h.protocol == d[9]
            &&& h.header_checksum as nat == d[10] as nat * 256 + d[11] as nat
            &&& h.source_address as nat == d[12] as nat * 16777216 + d[13] as nat * 65536 + d[14] as nat * 256 + d[15] as nat
            &&& h.destination_address as nat == d[16] as nat * 16777216 + d[17] as nat * 65536 + d[18] as nat * 256 + d[19] as nat
        },
{
    if parse_ipv4_header(d) is Ok {
        assert((d[2] as nat * 256 + d[3] as nat) < 65536);
        assert((d[4] as nat * 256 + d[5] as nat) < 65536);
        assert((d[10] as nat * 256 + d[11] as nat) < 65536);
        assert((d[12] as nat * 16777216 + d[13] as nat * 65536 + d[14] as nat * 256 + d[15] as nat) < 4294967296);
        assert((d[16] as nat * 16777216 + d[17] as nat * 65536 + d[18] as nat * 256 + d[19] as nat) < 4294967296);
    }
}

/// An IPv4 header is written as twenty bytes with each field in its place
/// (RFC 791 3.1): version and a header length of five words in byte 0, the
/// type of service in byte 1, the total length at bytes 2..4, the
/// identification at 4..6, the flags in the top three bits of byte 6, the
/// time to live at byte 8, the protocol at byte 9, the checksum at 10..12,
/// and the source and destination at 12..16 and 16..20, most significant
/// byte first.
pub proof fn lemma_serialized_header_places(h: IpV4HeaderView)
    requires
        h.fragment_offset < 8192,
    ensures
        serialize_ipv4_header(h).len() == 20,
        serialize_ipv4_header(h)[0] / 16 == h.version % 16,
        serialize_ipv4_header(h)[0] % 16 == 5,
        serialize_ipv4_header(h)[1] == h.type_of_service,
        serialize_ipv4_header(h)[2] as nat * 256 + serialize_ipv4_header(h)[3] as nat == h.total_length,
        serialize_ipv4_header(h)[4] as nat * 256 + serialize_ipv4_header(h)[5] as nat == h.identification,
        serialize_ipv4_header(h)[6] / 32 == h.flags % 8,
        serialize_ipv4_header(h)[8] == h.time_to_live,
        serialize_ipv4_header(h)[9] == h.protocol,
        serialize_ipv4_header(h)[10] as nat * 256 + serialize_ipv4_header(h)[11] as nat == h.header_checksum,
        serialize_ipv4_header(h)[12] as nat * 16777216 + serialize_ipv4_header(h)[13] as nat * 65536 + serialize_ipv4_header(h)[14] as nat * 256 + serialize_ipv4_header(h)[15] as nat == h.source_address,
        serialize_ipv4_header(h)[16] as nat * 16777216 + serialize_ipv4_header(h)[17] as nat * 65536 + serialize_ipv4_header(h)[18] as nat * 256 + serialize_ipv4_header(h)[19] as nat == h.destination_address,
{
    let d = serialize_ipv4_header(h);
    let v = h.version;
    assert(((v % 16) * 16 + 5) / 16 == v % 16 && ((v % 16) * 16 + 5) % 16 == 5) by (nonlinear_arith);
    let t = h.total_length;
    let i = h.identification;
    let c = h.header_checksum;
    assert(((t / 256) as u8) as nat * 256 + ((t % 256) as u8) as nat == t) by (bit_vector);
    assert(((i / 256) as u8) as nat * 256 + ((i % 256) as u8) as nat == i) by (bit_vector);
    assert(((c / 256) as u8) as nat * 256 + ((c % 256) as u8) as nat == c) by (bit_vector);
    let fo = flags_and_offset(h);
    let f = h.flags;
    let o = h.fragment_offset;
    let g = ((f % 8) as nat * 8192) as u16;
    assert(fo == o | g);
    assert(g == (((f % 8) as u16) * 8192) as u16);
    assert((((o | g) / 256) as u8) / 32 == f % 8) by (bit_vector)
        requires
            o < 8192,
            g == (((f % 8) as u16) * 8192) as u16,
    ;
    let sa = h.source_address;
    let da = h.destination_address;
    assert(((sa / 16777216) as u8) as nat * 16777216 + (((sa / 65536) % 256) as u8) as nat * 65536
        + (((sa / 256) % 256) as u8) as nat * 256 + ((sa % 256) as u8) as nat == sa) by (bit_vector);
    assert(((da / 16777216) as u8) as nat * 16777216 + (((da / 65536) % 256) as u8) as nat * 65536
        + (((da / 256) % 256) as u8) as nat * 256 + ((da % 256) as u8) as nat == da) by (bit_vector);
}


/// A header built for a payload of `payload_length` bytes carries a forced
/// checksum, identification and header length as they were forced, a total
/// length of the payload and twenty bytes, and the builder's addresses,
/// protocol, time to live, type of service and flags; without a forced
/// checksum, its checksum is the Internet checksum of the header it
/// completes.
pub proof fn lemma_built_header_fields(b: IpV4HeaderBuilderView, payload_length: nat, identification: u16)
    ensures
        b.header_checksum matches Some(c) ==> built_header(b, payload_length, identification).header_checksum == c,
        b.header_checksum is None ==> built_header(b, payload_length, identification).header_checksum
            == internet_checksum(
            serialize_ipv4_header(IpV4HeaderView { header_checksum: b.header.header_checksum, ..built_header(b, payload_length, identification) }),
        ),
        b.identification matches Some(i) ==> built_header(b, payload_length, identification).identification == i,
        b.identification is None ==> built_header(b, payload_length, identification).identification == identification,
        b.internet_header_length matches Some(l) ==> built_header(b, payload_length, identification).internet_header_length == l,
        b.internet_header_length is None ==> built_header(b, payload_length, identification).internet_header_length == 5,
        built_header(b, payload_length, identification).total_length == (20 + payload_length) as u16,
        built_header(b, payload_length, identification).source_address == b.header.source_address,
        built_header(b, payload_length, identification).destination_address == b.header.destination_address,
        built_header(b, payload_length, identification).protocol == b.header.protocol,
        built_header(b, payload_length, identification).time_to_live == b.header.time_to_live,
        built_header(b, payload_length, identification).type_of_service == b.header.type_of_service,
        built_header(b, payload_length, identification).flags == b.header.flags,
        built_header(b, payload_length, identification).version == b.header.version,
{
    let h = unchecked_header(b, payload_length, identification);
    assert((IpV4HeaderView { header_checksum: b.header.header_checksum, ..built_header(b, payload_length, identification) }) == h);
}


/// A header built without a forced checksum, from a builder whose header
/// carries a zero checksum (as `new` makes it), has the checksum that makes
/// its twenty bytes sum to zero: the Internet checksum of its bytes is zero.
pub proof fn lemma_built_header_checksum_verifies(b: IpV4HeaderBuilderView, payload_length: nat, identification: u16)
    requires
        b.header_checksum is None,
        b.header.header_checksum == 0,
    ensures
        internet_checksum(serialize_ipv4_header(built_header(b, payload_length, identification))) == 0,
{
    let h0 = unchecked_header(b, payload_length, identification);
    let h1 = built_header(b, payload_length, identification);
    let s0 = serialize_ipv4_header(h0);
    let s1 = serialize_ipv4_header(h1);
    let c = internet_checksum(s0);
    assert(h1.header_checksum == c);
    let a = s0.take(10);
    let r = s0.skip(12);
    let z = seq![0u8, 0u8];
    let t = seq![hi(c), lo(c)];
    assert(s0 =~= a + (z + r));
    assert(s1 =~= a + (t + r));
    crate::proto_common::checksum::lemma_word16_total_append(a, z + r);
    crate::proto_common::checksum::lemma_word16_total_append(a, t + r);
    crate::proto_common::checksum::lemma_word16_total_append(z, r);
    crate::proto_common::checksum::lemma_word16_total_append(t, r);
    crate::proto_common::checksum::lemma_word16_total_pair(0, 0);
    crate::proto_common::checksum::lemma_word16_total_pair(hi(c), lo(c));
    assert(hi(c) as nat * 256 + lo(c) as nat == c) by {
        assert(((c / 256) as u8) as nat * 256 + ((c % 256) as u8) as nat == c) by (bit_vector);
    }
    let w = crate::proto_common::checksum::word16_total(s0);
    crate::proto_common::checksum::lemma_sum_with_own_checksum(w);
}


/// A header of version 4 and five words, with a zero fragment offset and three
/// flag bits, reads back from its serialisation as it was.
#[verifier::spinoff_prover]
#[verifier::rlimit(40)]
pub proof fn lemma_serialize_then_parse(h: IpV4HeaderView)
    requires
        h.version == 4,
        h.internet_header_length == 5,
        h.fragment_offset == 0,
        h.flags < 8,
    ensures
        parse_ipv4_header(serialize_ipv4_header(h)) == Ok::<IpV4HeaderView, ProtocolError>(h),
{
    let d = serialize_ipv4_header(h);
    let f: u16 = ((h.flags % 8) as nat * 8192) as u16;
    assert(0u16 | f == f) by (bit_vector);
    assert(flags_and_offset(h) == f);
    assert(d[0] == 69);
    assert(be16(d[2], d[3]) == h.total_length);
    assert(be16(d[4], d[5]) == h.identification);
    assert(be16(d[10], d[11]) == h.header_checksum);
    assert(d[6] / 32 == h.flags);
    assert((be16(d[6], d[7]) % 8192) * 8 == 0);
    assert(be32(d[12], d[13], d[14], d[15]) == h.source_address);
    assert(be32(d[16], d[17], d[18], d[19]) == h.destination_address);
}

/// A header that a builder builds reads back from its serialisation as it
/// was built, whenever its header length is left to the builder or forced
/// to five words (every builder starts from a version 4 header without flags
/// or fragment offset, and forcing other fields keeps that).
pub proof fn lemma_built_header_roundtrip(b: IpV4HeaderBuilderView, payload_length: nat, identification: u16)
    requires
        b.header.version == 4,
        b.header.flags < 8,
        b.header.fragment_offset == 0,
        b.internet_header_length is None || b.internet_header_length == Some(5u8),
    ensures
        parse_ipv4_header(serialize_ipv4_header(built_header(b, payload_length, identification))) == Ok::<
            IpV4HeaderView,
            ProtocolError,
        >(built_header(b, payload_length, identification)),
{
    lemma_serialize_then_parse(built_header(b, payload_length, identification));
}

} // verus!
