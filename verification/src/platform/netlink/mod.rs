//! Route netlink messages as plain values, what the router reads of them,
//! and the walk over the frames of a received buffer.

use vstd::prelude::*;

pub mod processor;
pub mod socket;

verus! {

/// The operational state that a link reports.
#[derive(Debug, PartialEq, Eq, Structural, Clone, Copy)]
pub enum LinkState {
    Up,
    Down,
    Other,
}

/// An attribute of a link message: its device name, its operational state,
/// or one that the router does not read.
#[derive(Debug, PartialEq, Eq)]
pub enum LinkAttribute {
    IfName(String),
    OperState(LinkState),
    Other,
}

/// A link message: the link's index and its attributes in order.
#[derive(Debug, PartialEq, Eq)]
pub struct LinkMessage {
    pub index: u32,
    pub attributes: Vec<LinkAttribute>,
}

/// The address family of an address message.
#[derive(Debug, PartialEq, Eq, Structural, Clone, Copy)]
pub enum AddressFamily {
    Inet,
    Inet6,
    Other(u16),
}

/// An attribute of an address message: an address's bytes, or one that the
/// router does not read.
#[derive(Debug, PartialEq, Eq)]
pub enum AddressAttribute {
    Address(Vec<u8>),
    Other,
}

/// An address message: the family, the prefix length, the link's index and
/// the attributes in order.
#[derive(Debug, PartialEq, Eq)]
pub struct AddressMessage {
    pub family: AddressFamily,
    pub prefix_len: u8,
    pub index: u32,
    pub attributes: Vec<AddressAttribute>,
}

/// The route netlink messages that the router reads; any other is `Other`.
#[derive(Debug, PartialEq, Eq)]
pub enum RouteMessage {
    NewLink(LinkMessage),
    DelLink(LinkMessage),
    NewAddress(AddressMessage),
    DelAddress(AddressMessage),
    Other,
}

} // verus!
