//! The router's OSPF speaker: to each IP packet that another router sends on
//! the interface it answers with a hello packet to all OSPF routers.

use vstd::prelude::*;
use crate::net::Ipv4Addr;
use crate::net::Ipv4Netmask;
use crate::ospfv2::packet::hello::{OspfHelloPacketBuilder, OspfHelloPacketBuilderView, built_hello, hello_bytes,
    lemma_built_hello_fields, lemma_hello_bytes_places};
use crate::ospfv2::packet::header::lemma_header_bytes_places;
use crate::proto_common::ProtocolError;
use crate::proto_ip::{IpV4Header, IpV4HeaderView, parse_ipv4_header};

verus! {

/// The address of all OSPF routers, 224.0.0.5.
pub fn all_spf_routers() -> (r: Ipv4Addr)
    ensures
        r@ == 0xE0000005,
{
    Ipv4Addr::new(224, 0, 0, 5)
}

/// The hello packet that the speaker sends: router 2.2.2.2 in area 0.0.0.0
/// on a /30 network, hello every 10 seconds, options 2, priority 5, dead after
/// 40 seconds, designated router 172.16.10.1, no backup, neighbour 1.1.1.1.
pub open spec fn speaker_hello() -> OspfHelloPacketBuilderView {
    OspfHelloPacketBuilderView {
        router_id: 0x02020202,
        area_id: 0,
        network_mask: 4294967292,
        hello_interval: 10,
        options: 2,
        router_priority: 5,
        router_dead_interval: 40,
        designated_router: 0xAC100A01,
        backup_designated_router: 0,
        neighbors: seq![0x01010101u32],
    }
}

/// Whether `d` is a hello packet as the speaker sends it: version 2, type
/// hello, 48 bytes, router 2.2.2.2 in the backbone area 0.0.0.0, a /30 mask,
/// hello every 10 seconds, options 2, priority 5, dead after 40 seconds,
/// designated router 172.16.10.1, no backup, and the one neighbour 1.1.1.1,
/// each field in its place.
pub open spec fn is_speaker_hello(d: Seq<u8>) -> bool {
    &&& d.len() == 48
    &&& d[0] == 2 && d[1] == 1
    &&& d[2] as nat * 256 + d[3] as nat == 48
    &&& d[4] as nat * 16777216 + d[5] as nat * 65536 + d[6] as nat * 256 + d[7] as nat == 0x02020202
    &&& d[8] as nat * 16777216 + d[9] as nat * 65536 + d[10] as nat * 256 + d[11] as nat == 0
    &&& d[24] as nat * 16777216 + d[25] as nat * 65536 + d[26] as nat * 256 + d[27] as nat == 0xFFFFFFFC
    &&& d[28] as nat * 256 + d[29] as nat == 10
    &&& d[30] == 2 && d[31] == 5
    &&& d[32] as nat * 16777216 + d[33] as nat * 65536 + d[34] as nat * 256 + d[35] as nat == 40
    &&& d[36] as nat * 16777216 + d[37] as nat * 65536 + d[38] as nat * 256 + d[39] as nat == 0xAC100A01
    &&& d[40] as nat * 16777216 + d[41] as nat * 65536 + d[42] as nat * 256 + d[43] as nat == 0
    &&& d[44] as nat * 16777216 + d[45] as nat * 65536 + d[46] as nat * 256 + d[47] as nat == 0x01010101
}

/// The speaker's hello packet is written as `is_speaker_hello` describes.
proof fn lemma_speaker_hello_bytes()
    ensures
        is_speaker_hello(hello_bytes(built_hello(speaker_hello()))),
{
    let b = speaker_hello();
    let p = built_hello(b);
    lemma_built_hello_fields(b);
    lemma_hello_bytes_places(p);
    lemma_header_bytes_places(p.header);
    let d = hello_bytes(p);
    assert(d.subrange(0, 24)[0] == d[0] && d.subrange(0, 24)[1] == d[1]);
    assert(d.subrange(0, 24)[2] == d[2] && d.subrange(0, 24)[3] == d[3]);
    assert(d.subrange(0, 24)[4] == d[4] && d.subrange(0, 24)[5] == d[5] && d.subrange(0, 24)[6] == d[6]
        && d.subrange(0, 24)[7] == d[7]);
    assert(d.subrange(0, 24)[8] == d[8] && d.subrange(0, 24)[9] == d[9] && d.subrange(0, 24)[10] == d[10]
        && d.subrange(0, 24)[11] == d[11]);
    assert(p.neighbors[0] == 0x01010101u32);
}

/// The answer to an IP packet received from the network: nothing for a
/// packet that the router sent itself, the bytes of the speaker's hello
/// packet for any other, and the error of a packet that is no IPv4 packet.
pub fn reply_to_packet(packet: &[u8], local_address: Ipv4Addr) -> (r: Result<Option<Vec<u8>>, ProtocolError>)
    ensures
        match parse_ipv4_header(packet@) {
            Err(e) => r == Err::<Option<Vec<u8>>, ProtocolError>(e),
            Ok(h) => if h.source_address == local_address@ {
                r == Ok::<Option<Vec<u8>>, ProtocolError>(None)
            } else {
                r matches Ok(Some(bytes)) && bytes@ == hello_bytes(built_hello(speaker_hello()))
                    && is_speaker_hello(bytes@)
            },
        },
{
    let ip = match IpV4Header::try_from(packet) {
        Ok(ip) => ip,
        Err(e) => return Err(e),
    };
    assert(parse_ipv4_header(packet@) == Ok::<IpV4HeaderView, ProtocolError>(ip@));
    if ip.get_source_address().to_bits() == local_address.to_bits() {
        return Ok(None);
    }
    assert(ip@.source_address != local_address@);
    let mut neighbors: Vec<Ipv4Addr> = Vec::new();
    neighbors.push(Ipv4Addr::new(1, 1, 1, 1));
    let builder = OspfHelloPacketBuilder::new(
        Ipv4Addr::new(2, 2, 2, 2),
        Ipv4Addr::new(0, 0, 0, 0),
        Ipv4Netmask::new(4294967292),
        10,
        2,
        5,
        40,
        Ipv4Addr::new(172, 16, 10, 1),
        Ipv4Addr::new(0, 0, 0, 0),
        neighbors,
    );
    proof {
        assert(builder@.neighbors =~= seq![0x01010101u32]);
        assert(builder@ == speaker_hello());
    }
    assert(builder@.neighbors.len() == 1);
    let response = match builder.build() {
        Ok(p) => p,
        Err(e) => return Err(e),
    };
    assert(response@ == built_hello(speaker_hello()));
    proof {
        lemma_speaker_hello_bytes();
    }
    match Result::<Vec<u8>, ProtocolError>::from(&response) {
        Ok(bytes) => Ok(Some(bytes)),
        Err(e) => Err(e),
    }
}

} // verus!
