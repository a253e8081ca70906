//! A router described by its network interfaces and the router interfaces
//! that each routing table (VRF) places on them.

use vstd::prelude::*;
use std::collections::HashMap;

verus! {

/// A router's network interfaces and routing tables, each by name.
#[derive(Debug)]
pub struct Router {
    pub network_interfaces: HashMap<String, NetworkInterface>,
    pub vrf: HashMap<String, Vrf>,
}

/// A network interface: its device and kind.
#[derive(Debug)]
pub struct NetworkInterface {
    pub device: String,
    pub network_interface_type: NetworkInterfaceType,
}

/// The kinds of network interface.
#[derive(Debug, PartialEq, Eq, Structural, Hash, Clone, Copy)]
pub enum NetworkInterfaceType {
    GenericInterface,
}

/// A routing table with its interfaces, static routes and source priorities.
#[derive(Debug)]
pub struct Vrf {
    pub vrf_type: VrfTable,
    pub router_interfaces: Vec<RouterInterface>,
    pub static_routes: Vec<StaticRoute>,
    pub priority: HashMap<RouteSource, u64>,
}

/// The kernel table that a VRF uses.
#[derive(Debug, PartialEq, Eq, Structural, Clone, Copy)]
pub enum VrfTable {
    Base,
    VirtualTable(u64),
}

/// An interface of a routing table on a network interface, with one address
/// of each family.
#[derive(Debug)]
pub struct RouterInterface {
    pub network_interface: String,
    pub router_interface_type: RouterInterfaceType,
    pub ip_v4: IpV4Address,
    pub ip_v6: IpV6Address,
}

/// Whether a router interface is the interface itself or a numbered
/// sub-interface.
#[derive(Debug, PartialEq, Eq, Structural, Clone, Copy)]
pub enum RouterInterfaceType {
    Base,
    Subinterface(u64),
}

/// Where a route comes from.
#[derive(Debug, PartialEq, Eq, Structural, Hash, Clone, Copy)]
pub enum RouteSource {
    Static,
}

/// A configured route.
#[derive(Debug)]
pub struct StaticRoute {
    pub prefix: IpPrefix,
    pub next_hop: NextHop,
    pub metric: u64,
}

/// An IPv4 address in text with its prefix length.
#[derive(Debug, PartialEq, Eq)]
pub struct IpV4Address(pub String, pub u64);

/// An IPv6 address in text with its prefix length.
#[derive(Debug, PartialEq, Eq)]
pub struct IpV6Address(pub String, pub u64);

/// A prefix: an address in text and its length.
#[derive(Debug, PartialEq, Eq)]
pub enum IpPrefix {
    IpV4(String, u64),
    IpV6(String, u64),
}

/// The next hop of a route, an address in text.
#[derive(Debug, PartialEq, Eq)]
pub enum NextHop {
    IpV4(String),
    IpV6(String),
}

} // verus!
