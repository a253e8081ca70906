//! A router described by its routing tables alone: static routes with their
//! prefixes and next hops, and the priority of each route source.

use vstd::prelude::*;
use std::collections::HashMap;

verus! {

/// A router's routing tables by name.
#[derive(Debug)]
pub struct Router {
    pub vrfs: HashMap<String, Vrf>,
}

/// A routing table.
#[derive(Debug)]
pub struct Vrf {
    pub priority: HashMap<RouteSource, u64>,
    pub static_routes: Vec<StaticRoute>,
}

/// Where a route comes from.
#[derive(Debug, PartialEq, Eq, Structural, Hash, Clone, Copy)]
pub enum RouteSource {
    STATIC,
}

/// A configured route.
#[derive(Debug)]
pub struct StaticRoute {
    pub prefix: IpPrefix,
    pub next_hop: NetworkInterface,
    pub metric: u64,
}

/// A prefix: an address in text and its length.
#[derive(Debug, PartialEq, Eq)]
pub enum IpPrefix {
    IPV4(String, u64),
    IPV6(String, u64),
}

/// Where a route leads: an address in text or a serial line.
#[derive(Debug, PartialEq, Eq)]
pub enum NetworkInterface {
    IPV4(String),
    IPV6(String),
    SERIAL(String),
}

} // verus!
