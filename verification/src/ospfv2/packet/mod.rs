//! OSPFv2 packets with addressed headers: the header and the hello packet.

pub mod header;
pub mod hello;

pub use header::{
    OSPF_V2_HEADER_LENGTH, OspfAuthenticationHeader, OspfAuthenticationType, OspfHeader,
    OspfHeaderBuilder, OspfMessageType, OspfVersion, PROTOCOL,
};
pub use hello::{OspfHelloPacket, OspfHelloPacketBuilder};
