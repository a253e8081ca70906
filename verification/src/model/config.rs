//! The router's configuration: network links, the interfaces on them and the
//! routing tables (VRFs).

use vstd::prelude::*;
use std::collections::HashMap;
use crate::collections::StringMap;
use crate::text::{decimal, push_decimal};

verus! {

/// The configuration of a router, each part keyed by its name.
#[derive(Debug)]
pub struct Router {
    network_links: StringMap<NetworkLink>,
    network_interfaces: StringMap<NetworkInterface>,
    vrfs: StringMap<Vrf>,
}

impl Router {
    /// The parts of the configuration, held as they are.
    pub closed spec fn links(self) -> StringMap<NetworkLink> {
        self.network_links
    }

    /// The network interfaces, by name.
    pub closed spec fn interfaces(self) -> StringMap<NetworkInterface> {
        self.network_interfaces
    }

    /// The routing tables, by name.
    pub closed spec fn tables(self) -> StringMap<Vrf> {
        self.vrfs
    }

    pub fn new(
        network_links: StringMap<NetworkLink>,
        network_interfaces: StringMap<NetworkInterface>,
        vrfs: StringMap<Vrf>,
    ) -> (r: Router)
        ensures
            r.links() == network_links,
            r.interfaces() == network_interfaces,
            r.tables() == vrfs,
    {
        Router { network_links, network_interfaces, vrfs }
    }

    pub fn get_network_links(&self) -> (r: &StringMap<NetworkLink>)
        ensures
            *r == self.links(),
    {
        &self.network_links
    }

    pub fn get_network_interfaces(&self) -> (r: &StringMap<NetworkInterface>)
        ensures
            *r == self.interfaces(),
    {
        &self.network_interfaces
    }

    pub fn get_vrfs(&self) -> (r: &StringMap<Vrf>)
        ensures
            *r == self.tables(),
    {
        &self.vrfs
    }
}

/// A network link: the operating system's device that carries it.
#[derive(Debug)]
pub struct NetworkLink {
    device: String,
    network_link_type: NetworkLinkType,
}

impl NetworkLink {
    /// The device's name.
    pub closed spec fn device(self) -> String {
        self.device
    }

    /// The kind of link.
    pub closed spec fn link_type(self) -> NetworkLinkType {
        self.network_link_type
    }

    pub fn new(device: String, network_link_type: NetworkLinkType) -> (r: NetworkLink)
        ensures
            r.device() == device,
            r.link_type() == network_link_type,
    {
        NetworkLink { device, network_link_type }
    }

    pub fn get_device(&self) -> (r: &String)
        ensures
            *r == self.device(),
    {
        &self.device
    }

    pub fn get_network_link_type(&self) -> (r: &NetworkLinkType)
        ensures
            *r == self.link_type(),
    {
        &self.network_link_type
    }
}

/// The kinds of network link.
#[derive(Debug, PartialEq, Eq, Structural, Hash, Clone, Copy)]
pub enum NetworkLinkType {
    GenericInterface,
}

/// A routing table with its static routes and the priority of each route
/// source.
#[derive(Debug)]
pub struct Vrf {
    pub table: VrfTable,
    pub static_routes: Vec<StaticRoute>,
    pub priority: HashMap<RouteSource, u64>,
}

/// The kernel table that a VRF uses.
#[derive(Debug, PartialEq, Eq, Structural, Clone, Copy)]
pub enum VrfTable {
    Base,
    VirtualTable(u64),
}

/// A network interface: the VRF it is in, the link it runs on and its
/// addresses.
#[derive(Debug)]
pub struct NetworkInterface {
    vrf: Option<String>,
    network_link: String,
    ip_addresses: Vec<IpAddress>,
}

impl NetworkInterface {
    /// The VRF's name, if the interface is in one.
    pub closed spec fn vrf(self) -> Option<String> {
        self.vrf
    }

    /// The name of the network link it runs on.
    pub closed spec fn link(self) -> String {
        self.network_link
    }

    /// Its configured addresses.
    pub closed spec fn addresses(self) -> Seq<IpAddress> {
        self.ip_addresses@
    }

    pub fn new(vrf: Option<String>, network_link: String, ip_addresses: Vec<IpAddress>) -> (r:
        NetworkInterface)
        ensures
            r.vrf() == vrf,
            r.link() == network_link,
            r.addresses() == ip_addresses@,
    {
        NetworkInterface { vrf, network_link, ip_addresses }
    }

    pub fn get_vrf(&self) -> (r: &Option<String>)
        ensures
            *r == self.vrf(),
    {
        &self.vrf
    }

    pub fn get_network_link(&self) -> (r: &String)
        ensures
            *r == self.link(),
    {
        &self.network_link
    }

    pub fn get_ip_addresses(&self) -> (r: &Vec<IpAddress>)
        ensures
            r@ == self.addresses(),
    {
        &self.ip_addresses
    }
}

/// Where a route comes from.
#[derive(Debug, PartialEq, Eq, Structural, Hash, Clone, Copy)]
pub enum RouteSource {
    Static,
}

/// A configured route.
#[derive(Debug)]
pub struct StaticRoute {
    pub prefix: IpAddress,
    pub next_hop: String,
    pub metric: u64,
}

/// An address with its family and prefix length, the address in text.
#[derive(Debug, PartialEq, Eq)]
pub struct IpAddress(pub IpAddressType, pub String, pub u64);

/// The text form of an address: the address, a slash and the prefix length.
pub open spec fn ip_address_text(a: IpAddress) -> Seq<char> {
    a.1@ + "/"@ + decimal(a.2 as nat)
}

impl IpAddress {
    pub fn new(family: IpAddressType, address: String, prefix: u64) -> (r: IpAddress)
        ensures
            r == IpAddress(family, address, prefix),
    {
        IpAddress(family, address, prefix)
    }

    /// The address in text, followed by a slash and the prefix length.
    pub fn to_string(&self) -> (r: String)
        ensures
            r@ == ip_address_text(*self),
    {
        let mut s = self.1.clone();
        s.append("/");
        push_decimal(&mut s, self.2);
        proof {
            reveal_strlit("/");
        }
        s
    }
}

/// The address families.
#[derive(Debug, PartialEq, Eq, Structural, Clone, Copy)]
pub enum IpAddressType {
    IpV4,
    IpV6,
}

} // verus!
