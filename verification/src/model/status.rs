//! The status of network links and interfaces as the router reports it.

use vstd::prelude::*;
use vstd::string::*;
use crate::model::config::{IpAddress, IpAddressType};
use crate::model::address_value::{groups_lt, groups_of, ipv4_value, ipv6_value,
    lemma_ipv4_text_order, lemma_ipv6_text_value, lemma_value_order, read_ipv4, read_ipv6,
    same_value, value_before, value_lt, value_view};
use crate::net::{group, ipv4_text, ipv6_text, octets_of};
use crate::ordering::{SortKey, chars_lt, lemma_chars_irreflexive, lemma_chars_total,
    lemma_chars_transitive, lemma_name_order, name_goes_first, name_le, name_view, str_lt};

verus! {

/// The operational state of a network link.
#[derive(Debug, PartialEq, Eq, Structural, Clone, Copy)]
pub enum NetworkLinkOperationalState {
    Up,
    Down,
    Unknown,
    NotFound,
    Misconfigured,
}

/// The name of an operational state.
pub open spec fn operational_state_text(s: NetworkLinkOperationalState) -> Seq<char> {
    match s {
        NetworkLinkOperationalState::Up => "Up"@,
        NetworkLinkOperationalState::Down => "Down"@,
        NetworkLinkOperationalState::Unknown => "Unknown"@,
        NetworkLinkOperationalState::NotFound => "NotFound"@,
        NetworkLinkOperationalState::Misconfigured => "Misconfigured"@,
    }
}

impl NetworkLinkOperationalState {
    /// The state's name.
    pub fn to_string(&self) -> (r: String)
        ensures
            r@ == operational_state_text(*self),
    {
        match self {
            NetworkLinkOperationalState::Up => String::from_str("Up"),
            NetworkLinkOperationalState::Down => String::from_str("Down"),
            NetworkLinkOperationalState::Unknown => String::from_str("Unknown"),
            NetworkLinkOperationalState::NotFound => String::from_str("NotFound"),
            NetworkLinkOperationalState::Misconfigured => String::from_str("Misconfigured"),
        }
    }
}

/// An address by value: family, text and prefix length.
pub type IpAddressView = (IpAddressType, Seq<char>, u64);

impl View for IpAddress {
    type V = IpAddressView;

    open spec fn view(&self) -> IpAddressView {
        (self.0, self.1@, self.2)
    }
}

impl Clone for IpAddress {
    fn clone(&self) -> (r: Self)
        ensures
            r@ == self@,
    {
        IpAddress(self.0, self.1.clone(), self.2)
    }
}

/// The value an address's text stands for in its family.
pub open spec fn address_value(a: IpAddressView) -> Option<Seq<u16>> {
    match a.0 {
        IpAddressType::IpV4 => ipv4_value(a.1),
        IpAddressType::IpV6 => ipv6_value(a.1),
    }
}

/// The order in which addresses are listed: IPv4 before IPv6, then by the
/// address's value, then by prefix length; a text that is no address of its
/// family comes after every one that is, and texts that stand for the same
/// value are ordered as text.
pub open spec fn address_le(a: IpAddressView, b: IpAddressView) -> bool {
    let fa = if a.0 == IpAddressType::IpV4 { 0int } else { 1int };
    let fb = if b.0 == IpAddressType::IpV4 { 0int } else { 1int };
    if fa != fb {
        fa < fb
    } else if address_value(a) != address_value(b) {
        value_lt(address_value(a), address_value(b))
    } else if a.2 != b.2 {
        a.2 < b.2
    } else {
        a.1 == b.1 || chars_lt(a.1, b.1)
    }
}

/// IPv4 addresses written as text are listed by their numbers, and an
/// address with a shorter prefix before the same address with a longer one.
pub proof fn lemma_ipv4_address_order(x: u32, p: u64, y: u32, q: u64)
    ensures
        address_le(
            (IpAddressType::IpV4, ipv4_text(octets_of(x)), p),
            (IpAddressType::IpV4, ipv4_text(octets_of(y)), q),
        ) <==> (x < y || (x == y && p <= q)),
{
    lemma_ipv4_text_order(x, y);
    lemma_ipv4_text_order(y, x);
    let vx = ipv4_value(ipv4_text(octets_of(x)));
    let vy = ipv4_value(ipv4_text(octets_of(y)));
    lemma_value_order(vx, vy, vx);
}

/// Sixteen bytes are determined by their eight groups.
proof fn lemma_groups_determine_bytes(b: Seq<u8>, c: Seq<u8>)
    requires
        b.len() == 16,
        c.len() == 16,
        groups_of(b, 0, 8) == groups_of(c, 0, 8),
    ensures
        b == c,
{
    assert forall|k: int| 0 <= k < 16 implies b[k] == c[k] by {
        let i = k / 2;
        assert(groups_of(b, 0, 8)[i] == groups_of(c, 0, 8)[i]);
        let (b0, b1, c0, c1) = (b[2 * i] as int, b[2 * i + 1] as int, c[2 * i] as int, c[2 * i + 1] as int);
        assert(b0 * 256 + b1 < 65536 && c0 * 256 + c1 < 65536);
        assert(groups_of(b, 0, 8)[i] == group(b, i) as u16);
        assert(groups_of(c, 0, 8)[i] == group(c, i) as u16);
        assert(group(b, i) == b0 * 256 + b1 && group(c, i) == c0 * 256 + c1);
        assert((group(b, i) as u16) as int == group(b, i));
        assert((group(c, i) as u16) as int == group(c, i));
        assert(b0 * 256 + b1 == c0 * 256 + c1);
        assert(b0 == c0 && b1 == c1) by (nonlinear_arith)
            requires
                b0 * 256 + b1 == c0 * 256 + c1,
                0 <= b1 < 256,
                0 <= c1 < 256,
                0 <= b0,
                0 <= c0,
        {
            if b0 < c0 {
                assert(b0 * 256 + 256 <= c0 * 256);
            } else if c0 < b0 {
                assert(c0 * 256 + 256 <= b0 * 256);
            }
        }
    }
    assert(b =~= c);
}

/// IPv6 addresses written as text are listed by their groups, most
/// significant first, and an address with a shorter prefix before the same
/// address with a longer one.
pub proof fn lemma_ipv6_address_order(b: Seq<u8>, p: u64, c: Seq<u8>, q: u64)
    requires
        b.len() == 16,
        c.len() == 16,
    ensures
        address_le((IpAddressType::IpV6, ipv6_text(b), p), (IpAddressType::IpV6, ipv6_text(c), q)) <==> (
        groups_lt(groups_of(b, 0, 8), groups_of(c, 0, 8)) || (b == c && p <= q)),
{
    lemma_ipv6_text_value(b);
    lemma_ipv6_text_value(c);
    let gb = groups_of(b, 0, 8);
    let gc = groups_of(c, 0, 8);
    lemma_value_order(Some(gb), Some(gc), Some(gb));
    if gb == gc {
        lemma_groups_determine_bytes(b, c);
    }
}

/// The value of an address.
fn value_of(a: &IpAddress) -> (r: Option<Vec<u16>>)
    ensures
        value_view(r) == address_value(a@),
{
    match a.0 {
        IpAddressType::IpV4 => read_ipv4(a.1.as_str()),
        IpAddressType::IpV6 => read_ipv6(a.1.as_str()),
    }
}

impl SortKey for IpAddress {
    open spec fn sorts_no_later(&self, other: &Self) -> bool {
        address_le(self@, other@)
    }

    proof fn lemma_total_preorder(a: &Self, b: &Self, c: &Self) {
        lemma_value_order(address_value(a@), address_value(b@), address_value(c@));
        lemma_value_order(address_value(b@), address_value(c@), address_value(a@));
        lemma_chars_total(a.1@, b.1@);
        lemma_chars_total(b.1@, c.1@);
        lemma_chars_total(a.1@, c.1@);
        if a.1@ != b.1@ && b.1@ != c.1@ && chars_lt(a.1@, b.1@) && chars_lt(b.1@, c.1@) {
            lemma_chars_transitive(a.1@, b.1@, c.1@);
        }
        if a.1@ == c.1@ {
            lemma_chars_irreflexive(a.1@);
        }
    }

    fn goes_no_later(&self, other: &Self) -> (r: bool) {
        let fa: u8 = match self.0 {
            IpAddressType::IpV4 => 0,
            IpAddressType::IpV6 => 1,
        };
        let fb: u8 = match other.0 {
            IpAddressType::IpV4 => 0,
            IpAddressType::IpV6 => 1,
        };
        if fa != fb {
            return fa < fb;
        }
        let va = value_of(self);
        let vb = value_of(other);
        if !same_value(&va, &vb) {
            return value_before(&va, &vb);
        }
        if self.2 != other.2 {
            return self.2 < other.2;
        }
        self.1 == other.1 || str_lt(self.1.as_str(), other.1.as_str())
    }
}

/// Whether two addresses are the same.
pub fn same_address(a: &IpAddress, b: &IpAddress) -> (r: bool)
    ensures
        r == (a@ == b@),
{
    a.0 == b.0 && a.1 == b.1 && a.2 == b.2
}

/// The views of a list of addresses.
pub open spec fn addresses_view(s: Seq<IpAddress>) -> Seq<IpAddressView> {
    s.map_values(|a: IpAddress| a@)
}

/// Copies a list of addresses.
pub fn copy_addresses(v: &Vec<IpAddress>) -> (r: Vec<IpAddress>)
    ensures
        addresses_view(r@) == addresses_view(v@),
{
    let mut r: Vec<IpAddress> = Vec::new();
    let mut i: usize = 0;
    while i < v.len()
        invariant
            i <= v@.len(),
            addresses_view(r@) == addresses_view(v@).take(i as int),
        decreases v@.len() - i,
    {
        let a = v[i].clone();
        assert(a@ == v@[i as int]@);
        let ghost before = r@;
        r.push(a);
        assert(addresses_view(r@) =~= addresses_view(before).push(a@));
        assert(addresses_view(v@).take(i + 1) =~= addresses_view(v@).take(i as int).push(v@[i as int]@));
        i = i + 1;
    }
    assert(addresses_view(v@).take(v@.len() as int) =~= addresses_view(v@));
    r
}

/// Whether two lists of addresses hold the same addresses in the same order.
pub fn same_addresses(a: &Vec<IpAddress>, b: &Vec<IpAddress>) -> (r: bool)
    ensures
        r == (addresses_view(a@) == addresses_view(b@)),
{
    if a.len() != b.len() {
        assert(addresses_view(a@).len() != addresses_view(b@).len());
        return false;
    }
    let mut i: usize = 0;
    while i < a.len()
        invariant
            a@.len() == b@.len(),
            i <= a@.len(),
            addresses_view(a@).take(i as int) == addresses_view(b@).take(i as int),
        decreases a@.len() - i,
    {
        if !same_address(&a[i], &b[i]) {
            assert(addresses_view(a@)[i as int] != addresses_view(b@)[i as int]);
            return false;
        }
        assert(addresses_view(a@).take(i + 1) =~= addresses_view(b@).take(i + 1)) by {
            assert(addresses_view(a@).take(i + 1) =~= addresses_view(a@).take(i as int).push(a@[i as int]@));
            assert(addresses_view(b@).take(i + 1) =~= addresses_view(b@).take(i as int).push(b@[i as int]@));
        }
        i = i + 1;
    }
    assert(addresses_view(a@).take(a@.len() as int) =~= addresses_view(a@));
    assert(addresses_view(b@).take(b@.len() as int) =~= addresses_view(b@));
    true
}

/// The status of a link by value.
pub struct NetworkLinkStatusView {
    pub name: Option<Seq<char>>,
    pub device: Seq<char>,
    pub operational_state: NetworkLinkOperationalState,
}

/// The status of a network link: the name the configuration gives it, if
/// any, its device and its state.
#[derive(Debug, PartialEq, Eq)]
pub struct NetworkLinkStatus {
    name: Option<String>,
    device: String,
    operational_state: NetworkLinkOperationalState,
}

impl View for NetworkLinkStatus {
    type V = NetworkLinkStatusView;

    closed spec fn view(&self) -> NetworkLinkStatusView {
        NetworkLinkStatusView {
            name: name_view(self.name),
            device: self.device@,
            operational_state: self.operational_state,
        }
    }
}

/// Copies an optional name.
pub fn copy_name(name: &Option<String>) -> (r: Option<String>)
    ensures
        name_view(r) == name_view(*name),
{
    match name {
        Some(n) => Some(n.clone()),
        None => None,
    }
}

/// Whether two optional names are the same.
pub fn same_name(a: &Option<String>, b: &Option<String>) -> (r: bool)
    ensures
        r == (name_view(*a) == name_view(*b)),
{
    match (a, b) {
        (Some(x), Some(y)) => *x == *y,
        (None, None) => true,
        _ => false,
    }
}

impl NetworkLinkStatus {
    pub fn new(
        name: Option<String>,
        device: String,
        operational_state: NetworkLinkOperationalState,
    ) -> (r: NetworkLinkStatus)
        ensures
            r@ == (NetworkLinkStatusView { name: name_view(name), device: device@, operational_state }),
    {
        NetworkLinkStatus { name, device, operational_state }
    }

    pub fn get_device(&self) -> (r: &String)
        ensures
            r@ == self@.device,
    {
        &self.device
    }

    pub fn get_name(&self) -> (r: &Option<String>)
        ensures
            name_view(*r) == self@.name,
    {
        &self.name
    }

    pub fn get_operational_state(&self) -> (r: &NetworkLinkOperationalState)
        ensures
            *r == self@.operational_state,
    {
        &self.operational_state
    }
}

impl Clone for NetworkLinkStatus {
    fn clone(&self) -> (r: Self)
        ensures
            r@ == self@,
    {
        NetworkLinkStatus {
            name: copy_name(&self.name),
            device: self.device.clone(),
            operational_state: self.operational_state,
        }
    }
}

impl SortKey for NetworkLinkStatus {
    open spec fn sorts_no_later(&self, other: &Self) -> bool {
        name_le(self@.name, other@.name)
    }

    proof fn lemma_total_preorder(a: &Self, b: &Self, c: &Self) {
        lemma_name_order(a@.name, b@.name, c@.name);
    }

    fn goes_no_later(&self, other: &Self) -> (r: bool) {
        name_goes_first(&self.name, &other.name)
    }
}

/// Whether two link statuses are the same.
pub fn same_link_status(a: &NetworkLinkStatus, b: &NetworkLinkStatus) -> (r: bool)
    ensures
        r == (a@ == b@),
{
    same_name(&a.name, &b.name) && a.device == b.device && a.operational_state == b.operational_state
}

/// The status of an interface by value.
pub struct NetworkInterfaceStatusView {
    pub name: Option<Seq<char>>,
    pub addresses: Seq<IpAddressView>,
    pub network_link_status: NetworkLinkStatusView,
}

/// The status of a network interface: its configured name, if any, its
/// addresses and the status of its link.
#[derive(Debug, PartialEq, Eq)]
pub struct NetworkInterfaceStatus {
    name: Option<String>,
    addresses: Vec<IpAddress>,
    network_link_status: NetworkLinkStatus,
}

impl View for NetworkInterfaceStatus {
    type V = NetworkInterfaceStatusView;

    closed spec fn view(&self) -> NetworkInterfaceStatusView {
        NetworkInterfaceStatusView {
            name: name_view(self.name),
            addresses: addresses_view(self.addresses@),
            network_link_status: self.network_link_status@,
        }
    }
}

impl NetworkInterfaceStatus {
    pub fn new(
        name: Option<String>,
        addresses: Vec<IpAddress>,
        network_link_status: NetworkLinkStatus,
    ) -> (r: NetworkInterfaceStatus)
        ensures
            r@ == (NetworkInterfaceStatusView {
                name: name_view(name),
                addresses: addresses_view(addresses@),
                network_link_status: network_link_status@,
            }),
    {
        NetworkInterfaceStatus { name, addresses, network_link_status }
    }

    pub fn get_name(&self) -> (r: &Option<String>)
        ensures
            name_view(*r) == self@.name,
    {
        &self.name
    }

    pub fn get_network_link_status(&self) -> (r: &NetworkLinkStatus)
        ensures
            r@ == self@.network_link_status,
    {
        &self.network_link_status
    }

    pub fn get_addresses(&self) -> (r: &Vec<IpAddress>)
        ensures
            addresses_view(r@) == self@.addresses,
    {
        &self.addresses
    }
}

impl Clone for NetworkInterfaceStatus {
    fn clone(&self) -> (r: Self)
        ensures
            r@ == self@,
    {
        NetworkInterfaceStatus {
            name: copy_name(&self.name),
            addresses: copy_addresses(&self.addresses),
            network_link_status: self.network_link_status.clone(),
        }
    }
}

impl SortKey for NetworkInterfaceStatus {
    open spec fn sorts_no_later(&self, other: &Self) -> bool {
        name_le(self@.name, other@.name)
    }

    proof fn lemma_total_preorder(a: &Self, b: &Self, c: &Self) {
        lemma_name_order(a@.name, b@.name, c@.name);
    }

    fn goes_no_later(&self, other: &Self) -> (r: bool) {
        name_goes_first(&self.name, &other.name)
    }
}

/// Whether two interface statuses are the same.
pub fn same_interface_status(a: &NetworkInterfaceStatus, b: &NetworkInterfaceStatus) -> (r: bool)
    ensures
        r == (a@ == b@),
{
    same_name(&a.name, &b.name) && same_addresses(&a.addresses, &b.addresses)
        && same_link_status(&a.network_link_status, &b.network_link_status)
}

} // verus!
