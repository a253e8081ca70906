//! The OSPFv2 hello packet (RFC 2328, A.3.2): building it with its checksum,
//! reading it and writing it.

use vstd::prelude::*;
use crate::net::{Ipv4Addr, Ipv4Netmask, octets_of};
use crate::ospfv2::{be16_at, be32_at, read_be16, read_be32};
use crate::proto_common::{InternetChecksum, ProtocolError};
use crate::proto_common::checksum::internet_checksum;
use crate::proto_ip::{push_octets, push_u16};
use super::header::{
    OSPF_V2_HEADER_LENGTH, OspfAuthenticationType, OspfHeader, OspfHeaderBuilder,
    OspfHeaderBuilderView, OspfHeaderView, OspfMessageType, PROTOCOL, authentication_type_number,
    be16_bytes, built_header, header_bytes, header_from_bytes, OspfAuthenticationHeader,
    lemma_be16_roundtrip, lemma_be32_roundtrip, lemma_checksum_ignores_checksum_field,
    lemma_header_roundtrip,
};
use crate::ospfv2::{ospf_expected_checksum, ospf_word_sum};
use crate::proto_common::checksum::word16_sum;

verus! {

/// The fields of a hello packet, addresses and masks as 32-bit numbers.
pub struct OspfHelloPacketView {
    pub header: OspfHeaderView,
    pub network_mask: u32,
    pub hello_interval: u16,
    pub options: u8,
    pub router_priority: u8,
    pub router_dead_interval: u32,
    pub designated_router: u32,
    pub backup_designated_router: u32,
    pub neighbors: Seq<u32>,
}

/// An OSPFv2 hello packet.
#[derive(Debug)]
pub struct OspfHelloPacket {
    header: OspfHeader,
    network_mask: Ipv4Netmask,
    hello_interval: u16,
    options: u8,
    router_priority: u8,
    router_dead_interval: u32,
    designated_router: Ipv4Addr,
    backup_designated_router: Ipv4Addr,
    neighbors: Vec<Ipv4Addr>,
}

/// The numbers of a list of addresses.
pub open spec fn address_numbers(s: Seq<Ipv4Addr>) -> Seq<u32> {
    s.map_values(|a: Ipv4Addr| a@)
}

impl View for OspfHelloPacket {
    type V = OspfHelloPacketView;

    closed spec fn view(&self) -> OspfHelloPacketView {
        OspfHelloPacketView {
            header: self.header@,
            network_mask: self.network_mask@,
            hello_interval: self.hello_interval,
            options: self.options,
            router_priority: self.router_priority,
            router_dead_interval: self.router_dead_interval,
            designated_router: self.designated_router@,
            backup_designated_router: self.backup_designated_router@,
            neighbors: address_numbers(self.neighbors@),
        }
    }
}

/// The neighbours listed from byte 44 up to `length`, four bytes each.
pub open spec fn neighbors_from_bytes(d: Seq<u8>, length: nat) -> Seq<u32> {
    Seq::new(((length - 44) / 4) as nat, |i: int| be32_at(d, 44 + 4 * i))
}

/// The hello packet at the start of `d`, or why there is none.
pub open spec fn hello_from_bytes(d: Seq<u8>) -> Result<OspfHelloPacketView, ProtocolError> {
    match header_from_bytes(d) {
        Err(e) => Err(e),
        Ok(header) => {
            let length = header.packet_length;
            if length < 44 {
                Err(ProtocolError::InvalidMinimumLength(PROTOCOL, 44, length as usize))
            } else if length % 4 != 0 {
                Err(ProtocolError::InvalidBitBoundary(PROTOCOL, length as usize))
            } else if header.authentication_type != OspfAuthenticationType::Null {
                Err(
                    ProtocolError::UnsupportedFieldValue(
                        PROTOCOL,
                        "AuthType",
                        authentication_type_number(header.authentication_type) as usize,
                    ),
                )
            } else {
                Ok(
                    OspfHelloPacketView {
                        header,
                        network_mask: be32_at(d, 24),
                        hello_interval: be16_at(d, 28),
                        options: d[30],
                        router_priority: d[31],
                        router_dead_interval: be32_at(d, 32),
                        designated_router: be32_at(d, 36),
                        backup_designated_router: be32_at(d, 40),
                        neighbors: neighbors_from_bytes(d, length as nat),
                    },
                )
            }
        },
    }
}

/// The bytes of a list of addresses, four each, in order.
pub open spec fn neighbor_bytes(s: Seq<u32>) -> Seq<u8>
    decreases s.len(),
{
    if s.len() == 0 {
        Seq::empty()
    } else {
        neighbor_bytes(s.drop_last()) + octets_of(s.last())
    }
}

/// The bytes that follow the header of a hello packet.
pub open spec fn hello_body(p: OspfHelloPacketView) -> Seq<u8> {
    octets_of(p.network_mask) + be16_bytes(p.hello_interval) + seq![p.options, p.router_priority]
        + octets_of(p.router_dead_interval) + octets_of(p.designated_router) + octets_of(
        p.backup_designated_router,
    ) + neighbor_bytes(p.neighbors)
}

/// The bytes that a hello packet is written as.
pub open spec fn hello_bytes(p: OspfHelloPacketView) -> Seq<u8> {
    header_bytes(p.header) + hello_body(p)
}

impl OspfHelloPacket {
    pub fn header(&self) -> (r: &OspfHeader)
        ensures
            r@ == self@.header,
    {
        &self.header
    }

    pub fn network_mask(&self) -> (r: &Ipv4Netmask)
        ensures
            r@ == self@.network_mask,
    {
        &self.network_mask
    }

    pub fn hello_interval(&self) -> (r: u16)
        ensures
            r == self@.hello_interval,
    {
        self.hello_interval
    }

    pub fn options(&self) -> (r: u8)
        ensures
            r == self@.options,
    {
        self.options
    }

    pub fn router_priority(&self) -> (r: u8)
        ensures
            r == self@.router_priority,
    {
        self.router_priority
    }

    pub fn router_dead_interval(&self) -> (r: u32)
        ensures
            r == self@.router_dead_interval,
    {
        self.router_dead_interval
    }

    pub fn designated_router(&self) -> (r: Ipv4Addr)
        ensures
            r@ == self@.designated_router,
    {
        self.designated_router
    }

    pub fn backup_designated_router(&self) -> (r: Ipv4Addr)
        ensures
            r@ == self@.backup_designated_router,
    {
        self.backup_designated_router
    }

    pub fn neighbors(&self) -> (r: &[Ipv4Addr])
        ensures
            address_numbers(r@) == self@.neighbors,
    {
        self.neighbors.as_slice()
    }
}

impl<'a> TryFrom<&'a [u8]> for OspfHelloPacket {
    type Error = ProtocolError;

    fn try_from(data: &'a [u8]) -> (r: Result<Self, ProtocolError>)
        ensures
            match r {
                Ok(p) => hello_from_bytes(data@) == Ok::<OspfHelloPacketView, ProtocolError>(p@),
                Err(e) => hello_from_bytes(data@) == Err::<OspfHelloPacketView, ProtocolError>(e),
            },
            r matches Ok(p) ==> p@.options == data@[30] && p@.router_priority == data@[31]
                && p@.hello_interval as nat == data@[28] as nat * 256 + data@[29] as nat,
    {
        let header = match OspfHeader::try_from(data) {
            Ok(h) => h,
            Err(e) => return Err(e),
        };
        let length = header.get_length();
        if length < 44 {
            return Err(ProtocolError::InvalidMinimumLength(PROTOCOL, 44, length as usize));
        }
        if length % 4 != 0 {
            return Err(ProtocolError::InvalidBitBoundary(PROTOCOL, length as usize));
        }
        match header.get_authentication_type() {
            OspfAuthenticationType::Null => {},
            t => {
                return Err(
                    ProtocolError::UnsupportedFieldValue(PROTOCOL, "AuthType", u16::from(t) as usize),
                );
            },
        }
        let network_mask = Ipv4Netmask::new(read_be32(data, 24));
        let hello_interval = read_be16(data, 28);
        let options = data[30];
        let router_priority = data[31];
        let router_dead_interval = read_be32(data, 32);
        let designated_router = Ipv4Addr::from(read_be32(data, 36));
        let backup_designated_router = Ipv4Addr::from(read_be32(data, 40));

        let mut neighbors: Vec<Ipv4Addr> = Vec::new();
        let end = length as usize;
        let mut i: usize = 44;
        while i < end
            invariant
                44 <= i <= end,
                end <= data@.len(),
                end % 4 == 0,
                i % 4 == 0,
                neighbors@.len() == (i - 44) / 4,
                forall|k: int|
                    0 <= k < neighbors@.len() ==> #[trigger] neighbors@[k]@ == be32_at(
                        data@,
                        44 + 4 * k,
                    ),
            decreases end - i,
        {
            neighbors.push(Ipv4Addr::from(read_be32(data, i)));
            i = i + 4;
        }
        let r = OspfHelloPacket {
            header,
            options,
            backup_designated_router,
            designated_router,
            neighbors,
            router_dead_interval,
            router_priority,
            hello_interval,
            network_mask,
        };
        assert(r@.neighbors =~= neighbors_from_bytes(data@, length as nat));
        proof {
            lemma_hello_field_places(data@);
        }
        Ok(r)
    }
}

impl<'a> vstd::std_specs::convert::TryFromSpecImpl<&'a [u8]> for OspfHelloPacket {
    open spec fn obeys_try_from_spec() -> bool {
        false
    }

    open spec fn try_from_spec(data: &'a [u8]) -> Result<Self, ProtocolError> {
        arbitrary()
    }
}

impl<'a> From<&'a OspfHelloPacket> for Result<Vec<u8>, ProtocolError> {
    fn from(value: &'a OspfHelloPacket) -> (r: Result<Vec<u8>, ProtocolError>)
        ensures
            r matches Ok(bytes) && bytes@ == hello_bytes(value@),
            r matches Ok(bytes) && bytes@.len() == 44 + 4 * value@.neighbors.len() && bytes@[30]
                == value@.options && bytes@[31] == value@.router_priority && bytes@[28] as nat * 256
                + bytes@[29] as nat == value@.hello_interval,
    {
        let mut payload = Vec::<u8>::from(value.header());
        let mask = Ipv4Addr::from(value.network_mask().netmask_number());
        push_octets(&mut payload, &mask);
        push_u16(&mut payload, value.hello_interval());
        payload.push(value.options());
        payload.push(value.router_priority());
        push_octets(&mut payload, &Ipv4Addr::from(value.router_dead_interval()));
        push_octets(&mut payload, &value.designated_router());
        push_octets(&mut payload, &value.backup_designated_router());
        let ghost fixed = payload@;
        let neighbors = value.neighbors();
        let mut i: usize = 0;
        while i < neighbors.len()
            invariant
                0 <= i <= neighbors@.len(),
                address_numbers(neighbors@) == value@.neighbors,
                payload@ == fixed + neighbor_bytes(address_numbers(neighbors@).take(i as int)),
            decreases neighbors@.len() - i,
        {
            push_octets(&mut payload, &neighbors[i]);
            proof {
                let s = address_numbers(neighbors@);
                assert(s.take(i + 1).drop_last() =~= s.take(i as int));
            }
            i = i + 1;
        }
        assert(address_numbers(neighbors@).take(neighbors@.len() as int) =~= address_numbers(
            neighbors@,
        ));
        assert(payload@ =~= hello_bytes(value@));
        proof {
            lemma_hello_bytes_places(value@);
        }
        Ok(payload)
    }
}

impl<'a> vstd::std_specs::convert::FromSpecImpl<&'a OspfHelloPacket> for Result<Vec<u8>, ProtocolError> {
    open spec fn obeys_from_spec() -> bool {
        false
    }

    open spec fn from_spec(value: &'a OspfHelloPacket) -> Result<Vec<u8>, ProtocolError> {
        arbitrary()
    }
}


/// The fields that a hello packet builder holds.
pub struct OspfHelloPacketBuilderView {
    pub router_id: u32,
    pub area_id: u32,
    pub network_mask: u32,
    pub hello_interval: u16,
    pub options: u8,
    pub router_priority: u8,
    pub router_dead_interval: u32,
    pub designated_router: u32,
    pub backup_designated_router: u32,
    pub neighbors: Seq<u32>,
}

/// Builds hello packets without authentication, with their checksum.
#[derive(Clone, Debug)]
pub struct OspfHelloPacketBuilder {
    router_id: Ipv4Addr,
    area_id: Ipv4Addr,
    network_mask: Ipv4Netmask,
    hello_interval: u16,
    options: u8,
    router_priority: u8,
    router_dead_interval: u32,
    designated_router: Ipv4Addr,
    backup_designated_router: Ipv4Addr,
    neighbors: Vec<Ipv4Addr>,
}

impl View for OspfHelloPacketBuilder {
    type V = OspfHelloPacketBuilderView;

    closed spec fn view(&self) -> OspfHelloPacketBuilderView {
        OspfHelloPacketBuilderView {
            router_id: self.router_id@,
            area_id: self.area_id@,
            network_mask: self.network_mask@,
            hello_interval: self.hello_interval,
            options: self.options,
            router_priority: self.router_priority,
            router_dead_interval: self.router_dead_interval,
            designated_router: self.designated_router@,
            backup_designated_router: self.backup_designated_router@,
            neighbors: address_numbers(self.neighbors@),
        }
    }
}

/// The most neighbours that a hello packet can list within 65536 bytes.
pub open spec fn max_neighbors() -> nat {
    16372
}

/// The packet that a builder with the fields `b` makes, carrying `checksum`.
pub open spec fn hello_with_checksum(b: OspfHelloPacketBuilderView, checksum: u16) -> OspfHelloPacketView {
    OspfHelloPacketView {
        header: built_header(
            OspfHeaderBuilderView {
                message_type: OspfMessageType::Hello,
                packet_length: (44 + 4 * b.neighbors.len()) as u16,
                router_id: b.router_id,
                area_id: b.area_id,
                checksum,
            },
        ),
        network_mask: b.network_mask,
        hello_interval: b.hello_interval,
        options: b.options,
        router_priority: b.router_priority,
        router_dead_interval: b.router_dead_interval,
        designated_router: b.designated_router,
        backup_designated_router: b.backup_designated_router,
        neighbors: b.neighbors,
    }
}

/// The packet that a builder with the fields `b` builds: its checksum is the
/// Internet checksum of its bytes written with a zero checksum.
pub open spec fn built_hello(b: OspfHelloPacketBuilderView) -> OspfHelloPacketView {
    hello_with_checksum(b, internet_checksum(hello_bytes(hello_with_checksum(b, 0))))
}

impl OspfHelloPacketBuilder {
    /// A builder with the given fields.
    pub fn new(
        router_id: Ipv4Addr,
        area_id: Ipv4Addr,
        network_mask: Ipv4Netmask,
        hello_interval: u16,
        options: u8,
        router_priority: u8,
        router_dead_interval: u32,
        designated_router: Ipv4Addr,
        backup_designated_router: Ipv4Addr,
        neighbors: Vec<Ipv4Addr>,
    ) -> (r: Self)
        ensures
            r@ == (OspfHelloPacketBuilderView {
                router_id: router_id@,
                area_id: area_id@,
                network_mask: network_mask@,
                hello_interval,
                options,
                router_priority,
                router_dead_interval,
                designated_router: designated_router@,
                backup_designated_router: backup_designated_router@,
                neighbors: address_numbers(neighbors@),
            }),
    {
        OspfHelloPacketBuilder {
            router_id,
            area_id,
            network_mask,
            hello_interval,
            options,
            router_priority,
            router_dead_interval,
            designated_router,
            backup_designated_router,
            neighbors,
        }
    }

    /// The hello packet, or an error when it would list more neighbours than
    /// fit in a packet.
    pub fn build(self) -> (r: Result<OspfHelloPacket, ProtocolError>)
        ensures
            self@.neighbors.len() > max_neighbors() ==> r == Err::<OspfHelloPacket, ProtocolError>(
                ProtocolError::UnsupportedFieldValue(
                    PROTOCOL,
                    "Neighbor List Length",
                    self@.neighbors.len() as usize,
                ),
            ),
            self@.neighbors.len() <= max_neighbors() ==> (r matches Ok(p) && p@ == built_hello(self@)),
            r matches Ok(p) ==> p@.options == self@.options && p@.router_priority == self@.router_priority
                && p@.header.router_id == self@.router_id && p@.header.area_id == self@.area_id
                && p@.hello_interval == self@.hello_interval && p@.network_mask == self@.network_mask
                && p@.router_dead_interval == self@.router_dead_interval
                && p@.designated_router == self@.designated_router
                && p@.backup_designated_router == self@.backup_designated_router
                && p@.neighbors == self@.neighbors,
    {
        let count = self.neighbors.len();
        if count > (65536 - (OSPF_V2_HEADER_LENGTH as usize) - 20) / 4 - 1 {
            return Err(ProtocolError::UnsupportedFieldValue(PROTOCOL, "Neighbor List Length", count));
        }
        let packet_length = OSPF_V2_HEADER_LENGTH + 20 + 4 * count as u16;
        let router_id = self.router_id;
        let area_id = self.area_id;
        let mut packet = OspfHelloPacket {
            header: OspfHeaderBuilder::new(OspfMessageType::Hello, packet_length, router_id, area_id).build(),
            network_mask: self.network_mask,
            hello_interval: self.hello_interval,
            options: self.options,
            router_priority: self.router_priority,
            backup_designated_router: self.backup_designated_router,
            designated_router: self.designated_router,
            neighbors: self.neighbors,
            router_dead_interval: self.router_dead_interval,
        };
        assert(packet@ == hello_with_checksum(self@, 0));
        let bytes = match Result::<Vec<u8>, ProtocolError>::from(&packet) {
            Ok(b) => b,
            Err(e) => return Err(e),
        };
        let checksum = match InternetChecksum::checksum(bytes.as_slice()) {
            Ok(c) => c,
            Err(e) => return Err(e),
        };
        packet.header = OspfHeaderBuilder::new(OspfMessageType::Hello, packet_length, router_id, area_id)
            .with_checksum(checksum)
            .build();
        Ok(packet)
    }
}


proof fn lemma_neighbor_bytes(s: Seq<u32>)
    ensures
        neighbor_bytes(s).len() == 4 * s.len(),
        forall|k: int|
            0 <= k < s.len() ==> #[trigger] be32_at(neighbor_bytes(s), 4 * k) == s[k],
    decreases s.len(),
{
    if s.len() > 0 {
        let p = s.drop_last();
        lemma_neighbor_bytes(p);
        let b = neighbor_bytes(s);
        let last = s.last();
        assert(b == neighbor_bytes(p) + octets_of(last));
        assert forall|k: int| 0 <= k < s.len() implies #[trigger] be32_at(b, 4 * k) == s[k] by {
            if k < p.len() {
                assert(be32_at(b, 4 * k) == be32_at(neighbor_bytes(p), 4 * k));
                assert(p[k] == s[k]);
            } else {
                assert(k == p.len());
                let o = octets_of(last);
                assert(be32_at(b, 4 * k) == be32_at(o, 0));
                assert(((last / 16777216) as u8) as nat * 16777216 + (((last / 65536) % 256) as u8) as nat * 65536
                    + (((last / 256) % 256) as u8) as nat * 256 + ((last % 256) as u8) as nat == last)
                    by (bit_vector);
            }
        }
    }
}

/// A hello packet read from bytes takes each field from its place (RFC 2328
/// A.3.2): the network mask from bytes 24..28, the hello interval from
/// 28..30, the options from byte 30, the router priority from byte 31, the
/// dead interval from 32..36, the designated and backup designated routers
/// from 36..40 and 40..44, and the neighbours four bytes each from byte 44 to
/// the end of the packet, most significant byte first.
pub proof fn lemma_hello_field_places(d: Seq<u8>)
    ensures
        hello_from_bytes(d) matches Ok(p) ==> {
            &&& 44 <= p.header.packet_length <= d.len()
            &&& p.header.authentication_type == OspfAuthenticationType::Null
            &&& p.network_mask as nat == d[24] as nat * 16777216 + d[25] as nat * 65536 + d[26] as nat * 256 + d[27] as nat
            &&& p.hello_interval as nat == d[28] as nat * 256 + d[29] as nat
            &&& p.options == d[30]
            &&& p.router_priority == d[31]
            &&& p.router_dead_interval as nat == d[32] as nat * 16777216 + d[33] as nat * 65536 + d[34] as nat * 256 + d[35] as nat
            &&& p.designated_router as nat == d[36] as nat * 16777216 + d[37] as nat * 65536 + d[38] as nat * 256 + d[39] as nat
            &&& p.backup_designated_router as nat == d[40] as nat * 16777216 + d[41] as nat * 65536 + d[42] as nat * 256 + d[43] as nat
            &&& p.neighbors.len() == (p.header.packet_length - 44) / 4
            &&& forall|k: int| 0 <= k < p.neighbors.len() ==> (#[trigger] p.neighbors[k]) as nat == d[44 + 4 * k] as nat * 16777216 + d[44 + 4 * k + 1] as nat * 65536 + d[44 + 4 * k + 2] as nat * 256 + d[44 + 4 * k + 3] as nat
        },
{
    crate::ospfv2::packet::header::lemma_header_field_places(d);
    if let Ok(p) = hello_from_bytes(d) {
        assert((d[24] as nat * 16777216 + d[25] as nat * 65536 + d[26] as nat * 256 + d[27] as nat) < 4294967296);
        assert((d[28] as nat * 256 + d[29] as nat) < 65536);
        assert((d[32] as nat * 16777216 + d[33] as nat * 65536 + d[34] as nat * 256 + d[35] as nat) < 4294967296);
        assert((d[36] as nat * 16777216 + d[37] as nat * 65536 + d[38] as nat * 256 + d[39] as nat) < 4294967296);
        assert((d[40] as nat * 16777216 + d[41] as nat * 65536 + d[42] as nat * 256 + d[43] as nat) < 4294967296);
        assert forall|k: int| 0 <= k < p.neighbors.len() implies (#[trigger] p.neighbors[k]) as nat == d[44 + 4 * k] as nat * 16777216 + d[44 + 4 * k + 1] as nat * 65536 + d[44 + 4 * k + 2] as nat * 256 + d[44 + 4 * k + 3] as nat by {
            assert((d[44 + 4 * k] as nat * 16777216 + d[44 + 4 * k + 1] as nat * 65536 + d[44 + 4 * k + 2] as nat * 256 + d[44 + 4 * k + 3] as nat) < 4294967296);
        }
    }
}

/// A hello packet is written with each field in its place (RFC 2328 A.3.2):
/// its 24-byte header, then the network mask at bytes 24..28, the hello
/// interval at 28..30, the options at byte 30, the router priority at byte
/// 31, the dead interval at 32..36, the designated and backup designated
/// routers at 36..40 and 40..44, and the neighbours four bytes each from byte
/// 44, most significant byte first.
pub proof fn lemma_hello_bytes_places(p: OspfHelloPacketView)
    ensures
        hello_bytes(p).len() == 44 + 4 * p.neighbors.len(),
        hello_bytes(p).subrange(0, 24) == header_bytes(p.header),
        hello_bytes(p)[24] as nat * 16777216 + hello_bytes(p)[25] as nat * 65536 + hello_bytes(p)[26] as nat * 256 + hello_bytes(p)[27] as nat == p.network_mask,
        hello_bytes(p)[28] as nat * 256 + hello_bytes(p)[29] as nat == p.hello_interval,
        hello_bytes(p)[30] == p.options,
        hello_bytes(p)[31] == p.router_priority,
        hello_bytes(p)[32] as nat * 16777216 + hello_bytes(p)[33] as nat * 65536 + hello_bytes(p)[34] as nat * 256 + hello_bytes(p)[35] as nat == p.router_dead_interval,
        hello_bytes(p)[36] as nat * 16777216 + hello_bytes(p)[37] as nat * 65536 + hello_bytes(p)[38] as nat * 256 + hello_bytes(p)[39] as nat == p.designated_router,
        hello_bytes(p)[40] as nat * 16777216 + hello_bytes(p)[41] as nat * 65536 + hello_bytes(p)[42] as nat * 256 + hello_bytes(p)[43] as nat == p.backup_designated_router,
        forall|k: int|
            0 <= k < p.neighbors.len() ==> hello_bytes(p)[44 + 4 * k] as nat * 16777216 + hello_bytes(p)[44 + 4 * k + 1] as nat * 65536 + hello_bytes(p)[44 + 4 * k + 2] as nat * 256 + hello_bytes(p)[44 + 4 * k + 3] as nat == #[trigger] p.neighbors[k],
{
    let d = hello_bytes(p);
    let h = p.header;
    lemma_neighbor_bytes(p.neighbors);
    crate::ospfv2::packet::header::lemma_header_bytes_places(h);
    assert(d.subrange(0, 24) =~= header_bytes(h));
    lemma_be16_roundtrip(p.hello_interval);
    lemma_be32_roundtrip(p.network_mask);
    lemma_be32_roundtrip(p.router_dead_interval);
    lemma_be32_roundtrip(p.designated_router);
    lemma_be32_roundtrip(p.backup_designated_router);
    assert(be32_at(d, 24) == be32_at(octets_of(p.network_mask), 0));
    assert(be16_at(d, 28) == be16_at(be16_bytes(p.hello_interval), 0));
    assert(be32_at(d, 32) == be32_at(octets_of(p.router_dead_interval), 0));
    assert(be32_at(d, 36) == be32_at(octets_of(p.designated_router), 0));
    assert(be32_at(d, 40) == be32_at(octets_of(p.backup_designated_router), 0));
    assert((d[24] as nat * 16777216 + d[25] as nat * 65536 + d[26] as nat * 256 + d[27] as nat) < 4294967296);
    assert((d[28] as nat * 256 + d[29] as nat) < 65536);
    assert((d[32] as nat * 16777216 + d[33] as nat * 65536 + d[34] as nat * 256 + d[35] as nat) < 4294967296);
    assert((d[36] as nat * 16777216 + d[37] as nat * 65536 + d[38] as nat * 256 + d[39] as nat) < 4294967296);
    assert((d[40] as nat * 16777216 + d[41] as nat * 65536 + d[42] as nat * 256 + d[43] as nat) < 4294967296);
    let nb = neighbor_bytes(p.neighbors);
    assert forall|k: int|
        0 <= k < p.neighbors.len() implies d[44 + 4 * k] as nat * 16777216 + d[44 + 4 * k + 1] as nat * 65536 + d[44 + 4 * k + 2] as nat * 256 + d[44 + 4 * k + 3] as nat == #[trigger] p.neighbors[k] by {
        assert(be32_at(d, 44 + 4 * k) == be32_at(nb, 4 * k));
        assert((d[44 + 4 * k] as nat * 16777216 + d[44 + 4 * k + 1] as nat * 65536 + d[44 + 4 * k + 2] as nat * 256 + d[44 + 4 * k + 3] as nat) < 4294967296);
    }
}

/// A built hello packet carries the fields its builder was given: a hello
/// header of the builder's router and area, as long as its 44 bytes and its
/// neighbours, without authentication, and the builder's mask, intervals,
/// options, priority, routers and neighbours.
pub proof fn lemma_built_hello_fields(b: OspfHelloPacketBuilderView)
    ensures
        built_hello(b).header.version == crate::ospfv2::packet::header::OspfVersion::V2,
        built_hello(b).header.message_type == OspfMessageType::Hello,
        built_hello(b).header.packet_length == (44 + 4 * b.neighbors.len()) as u16,
        built_hello(b).header.router_id == b.router_id,
        built_hello(b).header.area_id == b.area_id,
        built_hello(b).header.authentication_type == OspfAuthenticationType::Null,
        built_hello(b).header.authentication_header == OspfAuthenticationHeader::Null,
        built_hello(b).network_mask == b.network_mask,
        built_hello(b).hello_interval == b.hello_interval,
        built_hello(b).options == b.options,
        built_hello(b).router_priority == b.router_priority,
        built_hello(b).router_dead_interval == b.router_dead_interval,
        built_hello(b).designated_router == b.designated_router,
        built_hello(b).backup_designated_router == b.backup_designated_router,
        built_hello(b).neighbors == b.neighbors,
{
    let c = internet_checksum(hello_bytes(hello_with_checksum(b, 0)));
    let hb = OspfHeaderBuilderView {
        message_type: OspfMessageType::Hello,
        packet_length: (44 + 4 * b.neighbors.len()) as u16,
        router_id: b.router_id,
        area_id: b.area_id,
        checksum: c,
    };
    crate::ospfv2::packet::header::lemma_built_header_fields(hb);
}


/// A hello packet reads back from its bytes, when its length counts its
/// neighbours, it carries no authentication, and its checksum is the one
/// that reading expects of those bytes.
#[verifier::spinoff_prover]
#[verifier::rlimit(60)]
pub proof fn lemma_hello_roundtrip(p: OspfHelloPacketView)
    requires
        p.neighbors.len() <= max_neighbors(),
        p.header.packet_length == 44 + 4 * p.neighbors.len(),
        p.header.authentication_type == OspfAuthenticationType::Null,
        p.header.authentication_header == OspfAuthenticationHeader::Null,
        p.header.checksum == ospf_expected_checksum(hello_bytes(p), p.header.packet_length as nat),
    ensures
        hello_from_bytes(hello_bytes(p)) == Ok::<OspfHelloPacketView, ProtocolError>(p),
{
    let h = p.header;
    let body = hello_body(p);
    let d = hello_bytes(p);
    lemma_neighbor_bytes(p.neighbors);
    assert(header_bytes(h).len() == 24);
    lemma_header_roundtrip(h, body);
    let mask = octets_of(p.network_mask);
    assert(be32_at(d, 24) == be32_at(mask, 0));
    let hi = be16_bytes(p.hello_interval);
    assert(be16_at(d, 28) == be16_at(hi, 0));
    let dead = octets_of(p.router_dead_interval);
    assert(be32_at(d, 32) == be32_at(dead, 0));
    let dr = octets_of(p.designated_router);
    assert(be32_at(d, 36) == be32_at(dr, 0));
    let bdr = octets_of(p.backup_designated_router);
    assert(be32_at(d, 40) == be32_at(bdr, 0));
    lemma_be16_roundtrip(p.hello_interval);
    lemma_be32_roundtrip(p.network_mask);
    lemma_be32_roundtrip(p.router_dead_interval);
    lemma_be32_roundtrip(p.designated_router);
    lemma_be32_roundtrip(p.backup_designated_router);
    let nb = neighbor_bytes(p.neighbors);
    assert forall|k: int| 0 <= k < p.neighbors.len() implies be32_at(d, 44 + 4 * k)
        == p.neighbors[k] by {
        assert(be32_at(d, 44 + 4 * k) == be32_at(nb, 4 * k));
    }
    assert(neighbors_from_bytes(d, h.packet_length as nat) =~= p.neighbors);
}


/// Over bytes whose checksum field and authentication data are zero, the sum
/// of 16-bit words is the sum that the OSPF checksum takes.
proof fn lemma_word_sums_agree(d: Seq<u8>, k: nat)
    requires
        2 * k <= d.len(),
        24 <= d.len(),
        d[12] == 0,
        d[13] == 0,
        forall|i: int| 16 <= i < 24 ==> #[trigger] d[i] == 0,
    ensures
        word16_sum(d, k) == ospf_word_sum(d, 2 * k),
    decreases k,
{
    if k > 0 {
        lemma_word_sums_agree(d, (k - 1) as nat);
        let i = 2 * (k - 1);
        assert(ospf_word_sum(d, (i + 1) as nat) == ospf_word_sum(d, i as nat) + d[i] as nat * 256);
        assert(ospf_word_sum(d, (i + 2) as nat) == ospf_word_sum(d, (i + 1) as nat) + d[i + 1] as nat);
    }
}

/// Over the bytes of a hello packet that carries a zero checksum and no
/// authentication, the Internet checksum is the OSPF checksum.
#[verifier::spinoff_prover]
proof fn lemma_zero_checksum_agrees(p0: OspfHelloPacketView)
    requires
        p0.neighbors.len() <= max_neighbors(),
        p0.header.packet_length == 44 + 4 * p0.neighbors.len(),
        p0.header.checksum == 0,
        p0.header.authentication_type == OspfAuthenticationType::Null,
        p0.header.authentication_header == OspfAuthenticationHeader::Null,
    ensures
        internet_checksum(hello_bytes(p0)) == ospf_expected_checksum(
            hello_bytes(p0),
            p0.header.packet_length as nat,
        ),
{
    let d0 = hello_bytes(p0);
    let n = p0.header.packet_length as nat;
    let hb = header_bytes(p0.header);
    lemma_neighbor_bytes(p0.neighbors);
    assert(hb.len() == 24);
    assert(d0.len() == n);
    assert(d0[12] == hb[12]);
    assert(d0[13] == hb[13]);
    assert forall|i: int| 16 <= i < 24 implies #[trigger] d0[i] == 0 by {
        assert(d0[i] == hb[i]);
    }
    lemma_word_sums_agree(d0, n / 2);
    assert((d0.len() + 1) / 2 == n / 2);
}

/// A built hello packet reads back as it was built.
pub proof fn lemma_build_then_parse(b: OspfHelloPacketBuilderView)
    requires
        b.neighbors.len() <= max_neighbors(),
    ensures
        hello_from_bytes(hello_bytes(built_hello(b))) == Ok::<OspfHelloPacketView, ProtocolError>(
            built_hello(b),
        ),
{
    let p0 = hello_with_checksum(b, 0);
    lemma_zero_checksum_agrees(p0);
    let c = internet_checksum(hello_bytes(p0));
    let p = built_hello(b);
    lemma_neighbor_bytes(p0.neighbors);
    lemma_checksum_ignores_checksum_field(p0.header, hello_body(p0), c);
    assert(p.header == (OspfHeaderView { checksum: c, ..p0.header }));
    assert(hello_body(p) == hello_body(p0));
    lemma_hello_roundtrip(p);
}

} // verus!
