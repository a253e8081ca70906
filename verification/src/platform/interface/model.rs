//! How the interface manager names what it tracks, and the tracked items
//! with the time at which they were last refreshed.

use vstd::prelude::*;
use crate::model::status::{NetworkInterfaceStatus, NetworkLinkStatus};
use crate::ordering::name_view;
use crate::model::status::{copy_name, same_name};

verus! {

/// An identifier by value: the device index, the configured name and the
/// device name, each if known.
pub struct CanonicalNetworkIdView {
    pub id: Option<u64>,
    pub name: Option<Seq<char>>,
    pub device: Option<Seq<char>>,
}

/// Identifies a link or an interface by whichever of its device index,
/// configured name and device name are known.
#[derive(Debug, Hash, PartialEq, Eq)]
pub struct CanonicalNetworkId {
    id: Option<u64>,
    name: Option<String>,
    device: Option<String>,
}

impl View for CanonicalNetworkId {
    type V = CanonicalNetworkIdView;

    closed spec fn view(&self) -> CanonicalNetworkIdView {
        CanonicalNetworkIdView { id: self.id, name: name_view(self.name), device: name_view(self.device) }
    }
}

impl CanonicalNetworkId {
    pub fn new(id: Option<u64>, name: Option<String>, device: Option<String>) -> (r: Self)
        ensures
            r@ == (CanonicalNetworkIdView { id, name: name_view(name), device: name_view(device) }),
    {
        Self { id, name, device }
    }

    pub fn id(&self) -> (r: Option<u64>)
        ensures
            r == self@.id,
    {
        self.id
    }

    pub fn name(&self) -> (r: Option<&String>)
        ensures
            r is Some <==> self@.name is Some,
            r matches Some(n) ==> self@.name == Some(n@),
    {
        self.name.as_ref()
    }

    pub fn device(&self) -> (r: Option<&String>)
        ensures
            r is Some <==> self@.device is Some,
            r matches Some(d) ==> self@.device == Some(d@),
    {
        self.device.as_ref()
    }
}

impl Clone for CanonicalNetworkId {
    fn clone(&self) -> (r: Self)
        ensures
            r@ == self@,
    {
        CanonicalNetworkId { id: self.id, name: copy_name(&self.name), device: copy_name(&self.device) }
    }
}

/// Whether two identifiers are the same.
pub fn same_id(a: &CanonicalNetworkId, b: &CanonicalNetworkId) -> (r: bool)
    ensures
        r == (a@ == b@),
{
    a.id == b.id && same_name(&a.name, &b.name) && same_name(&a.device, &b.device)
}

/// Reads the monotonic clock with nix's `clock_gettime(CLOCK_MONOTONIC)`,
/// as seconds and nanoseconds, or none where the call fails.  Nothing is
/// claimed of the reading: it is the time.
#[verifier::external_body]
fn monotonic_clock() -> Option<(i64, i64)> {
    match nix::time::clock_gettime(nix::time::ClockId::CLOCK_MONOTONIC) {
        Ok(t) => Some((t.tv_sec() as i64, t.tv_nsec() as i64)),
        Err(_) => None,
    }
}

/// Nanoseconds on the monotonic clock, from seconds and nanoseconds: zero
/// for a time before the clock's start, the largest value past it.
pub open spec fn clock_nanos(seconds: i64, nanoseconds: i64) -> u64 {
    let total = seconds * 1_000_000_000 + nanoseconds;
    if total < 0 {
        0
    } else if total > u64::MAX {
        u64::MAX
    } else {
        total as u64
    }
}

/// Converts a reading of the monotonic clock to nanoseconds.
pub fn nanos_of_reading(seconds: i64, nanoseconds: i64) -> (r: u64)
    ensures
        r == clock_nanos(seconds, nanoseconds),
{
    let total: i128 = seconds as i128 * 1_000_000_000 + nanoseconds as i128;
    if total < 0 {
        0
    } else if total > u64::MAX as i128 {
        u64::MAX
    } else {
        total as u64
    }
}

/// The time now in nanoseconds on the monotonic clock; zero if the clock
/// cannot be read.
pub fn now_nanos() -> (r: u64) {
    match monotonic_clock() {
        Some((seconds, nanoseconds)) => nanos_of_reading(seconds, nanoseconds),
        None => 0,
    }
}

/// A tracked link or interface: its identifier, its status and when it was
/// last refreshed, in nanoseconds on the monotonic clock.
#[derive(Debug, PartialEq, Eq)]
pub struct NetworkStatusItem<T> {
    id: CanonicalNetworkId,
    status: T,
    refreshed: u64,
}

impl<T> NetworkStatusItem<T> {
    /// The item's identifier.
    pub closed spec fn id_view(self) -> CanonicalNetworkIdView {
        self.id@
    }

    /// The item's status.
    pub closed spec fn status_of(self) -> T {
        self.status
    }

    /// When the item was last refreshed.
    pub closed spec fn refreshed_at(self) -> u64 {
        self.refreshed
    }

    /// An item refreshed now.
    pub fn new(id: CanonicalNetworkId, status: T) -> (r: NetworkStatusItem<T>)
        ensures
            r.id_view() == id@,
            r.status_of() == status,
    {
        NetworkStatusItem { id, refreshed: now_nanos(), status }
    }

    /// An item refreshed at the given time.
    pub fn new_with_refresh(id: CanonicalNetworkId, status: T, refreshed: u64) -> (r:
        NetworkStatusItem<T>)
        ensures
            r.id_view() == id@,
            r.status_of() == status,
            r.refreshed_at() == refreshed,
    {
        NetworkStatusItem { id, status, refreshed }
    }

    pub fn get_refreshed(&self) -> (r: u64)
        ensures
            r == self.refreshed_at(),
    {
        self.refreshed
    }

    pub fn get_id(&self) -> (r: &CanonicalNetworkId)
        ensures
            r@ == self.id_view(),
    {
        &self.id
    }

    pub fn get_status(&self) -> (r: &T)
        ensures
            *r == self.status_of(),
    {
        &self.status
    }
}

impl Clone for NetworkStatusItem<NetworkLinkStatus> {
    fn clone(&self) -> (r: Self)
        ensures
            r.id_view() == self.id_view(),
            r.status_of()@ == self.status_of()@,
            r.refreshed_at() == self.refreshed_at(),
    {
        NetworkStatusItem { id: self.id.clone(), status: self.status.clone(), refreshed: self.refreshed }
    }
}

impl Clone for NetworkStatusItem<NetworkInterfaceStatus> {
    fn clone(&self) -> (r: Self)
        ensures
            r.id_view() == self.id_view(),
            r.status_of()@ == self.status_of()@,
            r.refreshed_at() == self.refreshed_at(),
    {
        NetworkStatusItem { id: self.id.clone(), status: self.status.clone(), refreshed: self.refreshed }
    }
}

} // verus!
