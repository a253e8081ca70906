//! What the interface manager knows of links and interfaces.  Each is found
//! by its configured name, its device name or its device index, so no two
//! items may share any of these; storing an item first takes out those that
//! share a key with it.

use vstd::prelude::*;
use crate::model::status::{NetworkInterfaceStatus, NetworkLinkStatus};
use crate::ordering::{SortKey, is_index_permutation, is_rearrangement, is_sorted, sort_by_key};
use crate::model::status::{NetworkInterfaceStatusView, NetworkLinkStatusView};
use super::model::{CanonicalNetworkId, CanonicalNetworkIdView, NetworkStatusItem};
use super::reconcile::{item_view, settle, settle_table, store_all};

verus! {

/// Whether `x` has the name that `id` names.
pub open spec fn name_matches(id: CanonicalNetworkIdView, x: CanonicalNetworkIdView) -> bool {
    id.name is Some && x.name == id.name
}

/// Whether `x` has the device that `id` names.
pub open spec fn device_matches(id: CanonicalNetworkIdView, x: CanonicalNetworkIdView) -> bool {
    id.device is Some && x.device == id.device
}

/// Whether `x` has the device index that `id` names.
pub open spec fn index_matches(id: CanonicalNetworkIdView, x: CanonicalNetworkIdView) -> bool {
    id.id is Some && x.id == id.id
}

/// Whether two identifiers share a name, a device or a device index.
pub open spec fn shares_key(a: CanonicalNetworkIdView, b: CanonicalNetworkIdView) -> bool {
    name_matches(a, b) || device_matches(a, b) || index_matches(a, b)
}

/// Whether no two items of `s` share a key.
pub open spec fn keys_distinct<T>(s: Seq<NetworkStatusItem<T>>) -> bool {
    forall|i: int, j: int|
        0 <= i < s.len() && 0 <= j < s.len() && i != j ==> !shares_key(
            #[trigger] s[i].id_view(),
            #[trigger] s[j].id_view(),
        )
}

/// Takes out of `s` the item whose identifier satisfies `p`, if there is
/// one: the items left, and the item taken as a sequence of at most one.
pub open spec fn extract<T>(s: Seq<NetworkStatusItem<T>>, p: spec_fn(CanonicalNetworkIdView) -> bool) -> (
    Seq<NetworkStatusItem<T>>,
    Seq<NetworkStatusItem<T>>,
) {
    if exists|i: int| 0 <= i < s.len() && #[trigger] p(s[i].id_view()) {
        let i = choose|i: int| 0 <= i < s.len() && #[trigger] p(s[i].id_view());
        (s.remove(i), seq![s[i]])
    } else {
        (s, Seq::empty())
    }
}

/// Removing what shares a key with `id` from `s`: the item with its name,
/// then the item with its device, then the item with its device index.
/// Gives the items left and the items taken out, in that order.
pub open spec fn removal<T>(s: Seq<NetworkStatusItem<T>>, id: CanonicalNetworkIdView) -> (
    Seq<NetworkStatusItem<T>>,
    Seq<NetworkStatusItem<T>>,
) {
    let (a, r1) = extract(s, |x: CanonicalNetworkIdView| name_matches(id, x));
    let (b, r2) = extract(a, |x: CanonicalNetworkIdView| device_matches(id, x));
    let (c, r3) = extract(b, |x: CanonicalNetworkIdView| index_matches(id, x));
    (c, r1 + r2 + r3)
}

/// Items keyed by name, device name and device index, no two sharing a key.
pub struct StatusTable<T> {
    items: Vec<NetworkStatusItem<T>>,
}

proof fn lemma_distinct_remove<T>(s: Seq<NetworkStatusItem<T>>, i: int)
    requires
        keys_distinct(s),
        0 <= i < s.len(),
    ensures
        keys_distinct(s.remove(i)),
        forall|j: int| 0 <= j < s.remove(i).len() ==> #[trigger] s.remove(i)[j] == s[if j < i { j } else { j + 1 }],
{
    let r = s.remove(i);
    assert forall|a: int, b: int| 0 <= a < r.len() && 0 <= b < r.len() && a != b implies !shares_key(
        #[trigger] r[a].id_view(),
        #[trigger] r[b].id_view(),
    ) by {
        let a2 = if a < i { a } else { a + 1 };
        let b2 = if b < i { b } else { b + 1 };
        assert(r[a] == s[a2] && r[b] == s[b2]);
        assert(!shares_key(s[a2].id_view(), s[b2].id_view()));
    }
}

/// Taking out the item that matches `p`: what is left has no item that
/// matches, and nothing else was taken, when at most one item matches.
proof fn lemma_extract<T>(s: Seq<NetworkStatusItem<T>>, p: spec_fn(CanonicalNetworkIdView) -> bool)
    requires
        keys_distinct(s),
        forall|i: int, j: int|
            0 <= i < s.len() && 0 <= j < s.len() && p(#[trigger] s[i].id_view()) && p(#[trigger] s[j].id_view()) ==> i
                == j,
    ensures
        keys_distinct(extract(s, p).0),
        forall|j: int| 0 <= j < extract(s, p).0.len() ==> !p(#[trigger] extract(s, p).0[j].id_view()),
        forall|j: int| 0 <= j < extract(s, p).1.len() ==> p(#[trigger] extract(s, p).1[j].id_view()),
        extract(s, p).0.to_multiset().add(extract(s, p).1.to_multiset()) == s.to_multiset(),
        extract(s, p).0.len() + extract(s, p).1.len() == s.len(),
        forall|j: int| 0 <= j < extract(s, p).0.len() ==> s.contains(#[trigger] extract(s, p).0[j]),
        forall|j: int| 0 <= j < extract(s, p).1.len() ==> s.contains(#[trigger] extract(s, p).1[j]),
{
    broadcast use vstd::seq_lib::group_to_multiset_ensures;
    if exists|i: int| 0 <= i < s.len() && #[trigger] p(s[i].id_view()) {
        let i = choose|i: int| 0 <= i < s.len() && #[trigger] p(s[i].id_view());
        lemma_distinct_remove(s, i);
        let r = s.remove(i);
        assert forall|j: int| 0 <= j < r.len() implies !p(#[trigger] r[j].id_view()) by {
            let j2 = if j < i { j } else { j + 1 };
            assert(r[j] == s[j2]);
        }
        assert forall|j: int| 0 <= j < r.len() implies s.contains(#[trigger] r[j]) by {
            let j2 = if j < i { j } else { j + 1 };
            assert(r[j] == s[j2]);
        }
        assert(s.contains(s[i]));
        vstd::seq_lib::to_multiset_remove(s, i);
        let t = seq![s[i]];
        assert(t.to_multiset() =~= Seq::<NetworkStatusItem<T>>::empty().push(s[i]).to_multiset()) by {
            assert(t =~= Seq::<NetworkStatusItem<T>>::empty().push(s[i]));
        }
        vstd::seq_lib::to_multiset_build(Seq::<NetworkStatusItem<T>>::empty(), s[i]);
        s.to_multiset_ensures();
        assert(s.to_multiset().count(s[i]) > 0);
        assert(r.to_multiset().add(t.to_multiset()) =~= s.to_multiset());
    } else {
        assert(Seq::<NetworkStatusItem<T>>::empty().to_multiset() =~= vstd::multiset::Multiset::empty());
        assert(s.to_multiset().add(vstd::multiset::Multiset::empty()) =~= s.to_multiset());
    }
}

/// What removal guarantees: nothing left shares a key with `id`, everything
/// taken out does, and together they are the items there were.
pub proof fn lemma_removal<T>(s: Seq<NetworkStatusItem<T>>, id: CanonicalNetworkIdView)
    requires
        keys_distinct(s),
    ensures
        keys_distinct(removal(s, id).0),
        forall|j: int| 0 <= j < removal(s, id).0.len() ==> !shares_key(id, #[trigger] removal(s, id).0[j].id_view()),
        forall|j: int| 0 <= j < removal(s, id).1.len() ==> shares_key(id, #[trigger] removal(s, id).1[j].id_view()),
        removal(s, id).0.to_multiset().add(removal(s, id).1.to_multiset()) == s.to_multiset(),
        removal(s, id).0.len() + removal(s, id).1.len() == s.len(),
        forall|j: int| 0 <= j < removal(s, id).0.len() ==> s.contains(#[trigger] removal(s, id).0[j]),
{
    broadcast use vstd::seq_lib::group_to_multiset_ensures;
    let pn = |x: CanonicalNetworkIdView| name_matches(id, x);
    let pd = |x: CanonicalNetworkIdView| device_matches(id, x);
    let pi = |x: CanonicalNetworkIdView| index_matches(id, x);
    assert forall|i: int, j: int|
        0 <= i < s.len() && 0 <= j < s.len() && pn(#[trigger] s[i].id_view()) && pn(#[trigger] s[j].id_view()) implies i
        == j by {
        if i != j {
            assert(!shares_key(s[i].id_view(), s[j].id_view()));
        }
    }
    lemma_extract(s, pn);
    let (a, r1) = extract(s, pn);
    assert forall|i: int, j: int|
        0 <= i < a.len() && 0 <= j < a.len() && pd(#[trigger] a[i].id_view()) && pd(#[trigger] a[j].id_view()) implies i
        == j by {
        if i != j {
            assert(!shares_key(a[i].id_view(), a[j].id_view()));
        }
    }
    lemma_extract(a, pd);
    let (b, r2) = extract(a, pd);
    assert forall|i: int, j: int|
        0 <= i < b.len() && 0 <= j < b.len() && pi(#[trigger] b[i].id_view()) && pi(#[trigger] b[j].id_view()) implies i
        == j by {
        if i != j {
            assert(!shares_key(b[i].id_view(), b[j].id_view()));
        }
    }
    lemma_extract(b, pi);
    let (c, r3) = extract(b, pi);
    assert forall|j: int| 0 <= j < c.len() implies !shares_key(id, #[trigger] c[j].id_view()) by {
        assert(b.contains(c[j]));
        let k = choose|k: int| 0 <= k < b.len() && b[k] == c[j];
        assert(!pd(b[k].id_view()));
        assert(a.contains(b[k]));
        let m = choose|m: int| 0 <= m < a.len() && a[m] == b[k];
        assert(!pn(a[m].id_view()));
        assert(!pi(c[j].id_view()));
    }
    let r = r1 + r2 + r3;
    assert forall|j: int| 0 <= j < r.len() implies shares_key(id, #[trigger] r[j].id_view()) by {
        if j < r1.len() {
            assert(r[j] == r1[j]);
            assert(pn(r1[j].id_view()));
        } else if j < r1.len() + r2.len() {
            assert(r[j] == r2[j - r1.len()]);
            assert(pd(r2[j - r1.len()].id_view()));
        } else {
            assert(r[j] == r3[j - r1.len() - r2.len()]);
            assert(pi(r3[j - r1.len() - r2.len()].id_view()));
        }
    }
    vstd::seq_lib::lemma_multiset_commutative(r1 + r2, r3);
    vstd::seq_lib::lemma_multiset_commutative(r1, r2);
    assert(c.to_multiset().add(r.to_multiset()) =~= s.to_multiset());
    assert forall|j: int| 0 <= j < c.len() implies s.contains(#[trigger] c[j]) by {
        assert(b.contains(c[j]));
        let k = choose|k: int| 0 <= k < b.len() && b[k] == c[j];
        assert(a.contains(b[k]));
        let m = choose|m: int| 0 <= m < a.len() && a[m] == b[k];
        assert(s.contains(a[m]));
    }
}


proof fn lemma_extract_at<T>(s: Seq<NetworkStatusItem<T>>, p: spec_fn(CanonicalNetworkIdView) -> bool, i: int)
    requires
        0 <= i < s.len(),
        p(s[i].id_view()),
        forall|j: int| 0 <= j < s.len() && #[trigger] p(s[j].id_view()) ==> j == i,
    ensures
        extract(s, p) == (s.remove(i), seq![s[i]]),
{
    assert(p(s[i].id_view()));
}

proof fn lemma_extract_none<T>(s: Seq<NetworkStatusItem<T>>, p: spec_fn(CanonicalNetworkIdView) -> bool)
    requires
        forall|j: int| 0 <= j < s.len() ==> !#[trigger] p(s[j].id_view()),
    ensures
        extract(s, p) == (s, Seq::<NetworkStatusItem<T>>::empty()),
{
}

/// The position of the item named `name`, if there is one.
fn position_by_name<T>(items: &Vec<NetworkStatusItem<T>>, name: &String) -> (r: Option<usize>)
    ensures
        match r {
            Some(i) => i < items@.len() && items@[i as int].id_view().name == Some(name@),
            None => forall|j: int| 0 <= j < items@.len() ==> #[trigger] items@[j].id_view().name != Some(name@),
        },
{
    let mut i: usize = 0;
    while i < items.len()
        invariant
            i <= items@.len(),
            forall|j: int| 0 <= j < i ==> #[trigger] items@[j].id_view().name != Some(name@),
        decreases items@.len() - i,
    {
        match items[i].get_id().name() {
            Some(n) => {
                if *n == *name {
                    return Some(i);
                }
            },
            None => {},
        }
        i = i + 1;
    }
    None
}

/// The position of the item on device `device`, if there is one.
fn position_by_device<T>(items: &Vec<NetworkStatusItem<T>>, device: &String) -> (r: Option<usize>)
    ensures
        match r {
            Some(i) => i < items@.len() && items@[i as int].id_view().device == Some(device@),
            None => forall|j: int| 0 <= j < items@.len() ==> #[trigger] items@[j].id_view().device != Some(device@),
        },
{
    let mut i: usize = 0;
    while i < items.len()
        invariant
            i <= items@.len(),
            forall|j: int| 0 <= j < i ==> #[trigger] items@[j].id_view().device != Some(device@),
        decreases items@.len() - i,
    {
        match items[i].get_id().device() {
            Some(d) => {
                if *d == *device {
                    return Some(i);
                }
            },
            None => {},
        }
        i = i + 1;
    }
    None
}

/// The position of the item with device index `index`, if there is one.
fn position_by_index<T>(items: &Vec<NetworkStatusItem<T>>, index: u64) -> (r: Option<usize>)
    ensures
        match r {
            Some(i) => i < items@.len() && items@[i as int].id_view().id == Some(index),
            None => forall|j: int| 0 <= j < items@.len() ==> #[trigger] items@[j].id_view().id != Some(index),
        },
{
    let mut i: usize = 0;
    while i < items.len()
        invariant
            i <= items@.len(),
            forall|j: int| 0 <= j < i ==> #[trigger] items@[j].id_view().id != Some(index),
        decreases items@.len() - i,
    {
        if items[i].get_id().id() == Some(index) {
            return Some(i);
        }
        i = i + 1;
    }
    None
}

impl<T> StatusTable<T> {
    #[verifier::type_invariant]
    closed spec fn inv(self) -> bool {
        keys_distinct(self.items@)
    }

    /// The items, in the order in which they were stored.
    pub closed spec fn items_view(self) -> Seq<NetworkStatusItem<T>> {
        self.items@
    }

    /// An empty table.
    pub fn new() -> (r: Self)
        ensures
            r.items_view() == Seq::<NetworkStatusItem<T>>::empty(),
    {
        StatusTable { items: Vec::new() }
    }

    /// No two of the items share a key.
    pub fn items(&self) -> (r: &[NetworkStatusItem<T>])
        ensures
            r@ == self.items_view(),
            keys_distinct(r@),
    {
        proof {
            use_type_invariant(self);
        }
        self.items.as_slice()
    }

    /// Takes out the items that share a key with `id` and appends them to
    /// `deleted`: the one with its name, then the one with its device, then
    /// the one with its device index.
    pub fn remove_status_item(&mut self, id: &CanonicalNetworkId, deleted: &mut Vec<NetworkStatusItem<T>>)
        ensures
            final(self).items_view() == removal(old(self).items_view(), id@).0,
            final(deleted)@ == old(deleted)@ + removal(old(self).items_view(), id@).1,
            keys_distinct(old(self).items_view()),
    {
        proof {
            use_type_invariant(&*self);
            lemma_removal(self.items@, id@);
        }
        let ghost idv = id@;
        let ghost s0 = self.items@;
        let ghost d0 = deleted@;
        let mut items: Vec<NetworkStatusItem<T>> = Vec::new();
        std::mem::swap(&mut items, &mut self.items);
        let pn = Ghost(|x: CanonicalNetworkIdView| name_matches(idv, x));
        let pd = Ghost(|x: CanonicalNetworkIdView| device_matches(idv, x));
        let pi = Ghost(|x: CanonicalNetworkIdView| index_matches(idv, x));
        // The item with the name.
        let found = match id.name() {
            Some(name) => position_by_name(&items, name),
            None => None,
        };
        match found {
            Some(i) => {
                proof {
                    assert forall|j: int| 0 <= j < s0.len() && #[trigger] pn@(s0[j].id_view()) implies j == i by {
                        if j != i {
                            assert(!shares_key(s0[j].id_view(), s0[i as int].id_view()));
                        }
                    }
                    lemma_extract_at(s0, pn@, i as int);
                    lemma_distinct_remove(s0, i as int);
                }
                let x = items.remove(i);
                deleted.push(x);
            },
            None => {
                proof {
                    lemma_extract_none(s0, pn@);
                }
            },
        }
        let ghost s1 = items@;
        assert(s1 == extract(s0, pn@).0);
        assert(deleted@ == d0 + extract(s0, pn@).1);
        // The item with the device.
        let found = match id.device() {
            Some(device) => position_by_device(&items, device),
            None => None,
        };
        match found {
            Some(i) => {
                proof {
                    assert forall|j: int| 0 <= j < s1.len() && #[trigger] pd@(s1[j].id_view()) implies j == i by {
                        if j != i {
                            assert(!shares_key(s1[j].id_view(), s1[i as int].id_view()));
                        }
                    }
                    lemma_extract_at(s1, pd@, i as int);
                    lemma_distinct_remove(s1, i as int);
                }
                let x = items.remove(i);
                deleted.push(x);
            },
            None => {
                proof {
                    lemma_extract_none(s1, pd@);
                }
            },
        }
        let ghost s2 = items@;
        assert(s2 == extract(s1, pd@).0);
        assert(deleted@ == d0 + extract(s0, pn@).1 + extract(s1, pd@).1);
        // The item with the device index.
        let found = match id.id() {
            Some(index) => position_by_index(&items, index),
            None => None,
        };
        match found {
            Some(i) => {
                proof {
                    assert forall|j: int| 0 <= j < s2.len() && #[trigger] pi@(s2[j].id_view()) implies j == i by {
                        if j != i {
                            assert(!shares_key(s2[j].id_view(), s2[i as int].id_view()));
                        }
                    }
                    lemma_extract_at(s2, pi@, i as int);
                }
                let x = items.remove(i);
                deleted.push(x);
            },
            None => {
                proof {
                    lemma_extract_none(s2, pi@);
                }
            },
        }
        proof {
            assert(items@ == removal(s0, idv).0);
            assert(deleted@ =~= d0 + removal(s0, idv).1);
        }
        self.items = items;
    }

    /// Stores `item` in place of the items that share a key with it, and
    /// returns those.
    pub fn set_status_item(&mut self, item: NetworkStatusItem<T>) -> (r: Vec<NetworkStatusItem<T>>)
        ensures
            final(self).items_view() == removal(old(self).items_view(), item.id_view()).0.push(item),
            r@ == removal(old(self).items_view(), item.id_view()).1,
    {
        let mut deleted = Vec::new();
        self.remove_status_item(item.get_id(), &mut deleted);
        proof {
            use_type_invariant(&*self);
            lemma_removal(old(self).items_view(), item.id_view());
        }
        let ghost left = self.items@;
        let mut items: Vec<NetworkStatusItem<T>> = Vec::new();
        std::mem::swap(&mut items, &mut self.items);
        items.push(item);
        proof {
            let s = items@;
            assert forall|a: int, b: int| 0 <= a < s.len() && 0 <= b < s.len() && a != b implies !shares_key(
                #[trigger] s[a].id_view(),
                #[trigger] s[b].id_view(),
            ) by {
                if a < left.len() && b < left.len() {
                    assert(s[a] == left[a] && s[b] == left[b]);
                } else if a < left.len() {
                    assert(s[a] == left[a]);
                    assert(!shares_key(item.id_view(), left[a].id_view()));
                } else {
                    assert(s[b] == left[b]);
                    assert(!shares_key(item.id_view(), left[b].id_view()));
                }
            }
        }
        self.items = items;
        assert(deleted@ =~= removal(old(self).items_view(), item.id_view()).1);
        deleted
    }

    /// Takes out all items, leaving the table empty.
    pub fn take_status_items(&mut self) -> (r: Vec<NetworkStatusItem<T>>)
        ensures
            r@ == old(self).items_view(),
            final(self).items_view() == Seq::<NetworkStatusItem<T>>::empty(),
    {
        let mut items: Vec<NetworkStatusItem<T>> = Vec::new();
        std::mem::swap(&mut items, &mut self.items);
        items
    }

    /// The item with device index `index`, if there is one.
    pub fn get_status_item_by_device_index(&self, index: u64) -> (r: Option<&NetworkStatusItem<T>>)
        ensures
            r is Some <==> exists|i: int| 0 <= i < self.items_view().len() && #[trigger] self.items_view()[i].id_view().id
                == Some(index),
            r matches Some(x) ==> self.items_view().contains(*x) && x.id_view().id == Some(index),
            keys_distinct(self.items_view()),
    {
        proof {
            use_type_invariant(self);
        }
        match position_by_index(&self.items, index) {
            Some(i) => {
                assert(self.items@.contains(self.items@[i as int]));
                Some(&self.items[i])
            },
            None => None,
        }
    }
}


/// The statuses of the link items, by value.
pub open spec fn link_statuses(s: Seq<NetworkStatusItem<NetworkLinkStatus>>) -> Seq<NetworkLinkStatusView> {
    s.map_values(|x: NetworkStatusItem<NetworkLinkStatus>| x.status_of()@)
}

/// The statuses of the interface items, by value.
pub open spec fn interface_statuses(s: Seq<NetworkStatusItem<NetworkInterfaceStatus>>) -> Seq<
    NetworkInterfaceStatusView,
> {
    s.map_values(|x: NetworkStatusItem<NetworkInterfaceStatus>| x.status_of()@)
}

/// A list of link statuses by value.
pub open spec fn link_status_views(s: Seq<NetworkLinkStatus>) -> Seq<NetworkLinkStatusView> {
    s.map_values(|x: NetworkLinkStatus| x@)
}

/// A list of interface statuses by value.
pub open spec fn interface_status_views(s: Seq<NetworkInterfaceStatus>) -> Seq<NetworkInterfaceStatusView> {
    s.map_values(|x: NetworkInterfaceStatus| x@)
}

/// The link and interface items that the interface manager keeps.
pub struct InterfaceManagerDatabase {
    network_links: StatusTable<NetworkLinkStatus>,
    network_interfaces: StatusTable<NetworkInterfaceStatus>,
}

impl InterfaceManagerDatabase {
    /// The link items.
    pub closed spec fn links_view(self) -> Seq<NetworkStatusItem<NetworkLinkStatus>> {
        self.network_links.items_view()
    }

    /// The interface items.
    pub closed spec fn interfaces_view(self) -> Seq<NetworkStatusItem<NetworkInterfaceStatus>> {
        self.network_interfaces.items_view()
    }

    pub fn new() -> (r: InterfaceManagerDatabase)
        ensures
            r.links_view() == Seq::<NetworkStatusItem<NetworkLinkStatus>>::empty(),
            r.interfaces_view() == Seq::<NetworkStatusItem<NetworkInterfaceStatus>>::empty(),
    {
        InterfaceManagerDatabase { network_links: StatusTable::new(), network_interfaces: StatusTable::new() }
    }

    /// No two link items share a key, nor two interface items.
    pub fn link_items(&self) -> (r: &[NetworkStatusItem<NetworkLinkStatus>])
        ensures
            r@ == self.links_view(),
            keys_distinct(r@),
    {
        self.network_links.items()
    }

    /// The interface items; no two share a key.
    pub fn interface_items(&self) -> (r: &[NetworkStatusItem<NetworkInterfaceStatus>])
        ensures
            r@ == self.interfaces_view(),
            keys_distinct(r@),
    {
        self.network_interfaces.items()
    }

    /// The statuses of all links, ordered by name (links without a name
    /// first).
    pub fn list_link_status(&self) -> (r: Vec<NetworkLinkStatus>)
        ensures
            is_sorted(r@),
            is_rearrangement(link_status_views(r@), link_statuses(self.links_view())),
    {
        let items = self.network_links.items();
        let mut data: Vec<NetworkLinkStatus> = Vec::new();
        let mut i: usize = 0;
        while i < items.len()
            invariant
                i <= items@.len(),
                items@ == self.links_view(),
                data@.len() == i,
                forall|j: int| 0 <= j < i ==> #[trigger] data@[j]@ == items@[j].status_of()@,
            decreases items@.len() - i,
        {
            data.push(items[i].get_status().clone());
            i = i + 1;
        }
        let ghost copies = data@;
        let r = sort_by_key(data);
        proof {
            let p = choose|p: Seq<int>|
                is_index_permutation(p, copies.len()) && r@.len() == copies.len() && forall|i: int|
                    0 <= i < r@.len() ==> #[trigger] r@[i] == copies[p[i]];
            assert forall|k: int| 0 <= k < r@.len() implies #[trigger] link_status_views(r@)[k]
                == link_statuses(self.links_view())[p[k]] by {
                assert(r@[k] == copies[p[k]]);
            }
            assert(is_index_permutation(p, link_statuses(self.links_view()).len()));
            assert(link_status_views(r@).len() == link_statuses(self.links_view()).len());
            assert(is_rearrangement(link_status_views(r@), link_statuses(self.links_view())));
        }
        r
    }

    /// Takes out all link items.
    pub fn take_link_status_items(&mut self) -> (r: Vec<NetworkStatusItem<NetworkLinkStatus>>)
        ensures
            r@ == old(self).links_view(),
            final(self).links_view() == Seq::<NetworkStatusItem<NetworkLinkStatus>>::empty(),
            final(self).interfaces_view() == old(self).interfaces_view(),
    {
        self.network_links.take_status_items()
    }

    /// Stores a link item in place of those that share a key with it, and
    /// returns those.
    pub fn set_link_status_item(&mut self, link: NetworkStatusItem<NetworkLinkStatus>) -> (r: Vec<
        NetworkStatusItem<NetworkLinkStatus>,
    >)
        ensures
            final(self).links_view() == removal(old(self).links_view(), link.id_view()).0.push(link),
            r@ == removal(old(self).links_view(), link.id_view()).1,
            final(self).interfaces_view() == old(self).interfaces_view(),
            keys_distinct(final(self).links_view()),
            forall|j: int| 0 <= j < r@.len() ==> shares_key(link.id_view(), #[trigger] r@[j].id_view()),
            forall|j: int|
                0 <= j < final(self).links_view().len() - 1 ==> !shares_key(
                    link.id_view(),
                    #[trigger] final(self).links_view()[j].id_view(),
                ),
            final(self).links_view().drop_last().to_multiset().add(r@.to_multiset()) == old(self).links_view().to_multiset(),
    {
        proof {
            use_type_invariant(&self.network_links);
            lemma_removal(self.links_view(), link.id_view());
            lemma_store(self.links_view(), link);
            assert(removal(self.links_view(), link.id_view()).0.push(link).drop_last() =~= removal(self.links_view(), link.id_view()).0);
        }
        self.network_links.set_status_item(link)
    }

    /// The statuses of all interfaces, ordered by name (interfaces without a
    /// name first).
    pub fn list_interface_status(&self) -> (r: Vec<NetworkInterfaceStatus>)
        ensures
            is_sorted(r@),
            is_rearrangement(interface_status_views(r@), interface_statuses(self.interfaces_view())),
    {
        let items = self.network_interfaces.items();
        let mut data: Vec<NetworkInterfaceStatus> = Vec::new();
        let mut i: usize = 0;
        while i < items.len()
            invariant
                i <= items@.len(),
                items@ == self.interfaces_view(),
                data@.len() == i,
                forall|j: int| 0 <= j < i ==> #[trigger] data@[j]@ == items@[j].status_of()@,
            decreases items@.len() - i,
        {
            data.push(items[i].get_status().clone());
            i = i + 1;
        }
        let ghost copies = data@;
        let r = sort_by_key(data);
        proof {
            let p = choose|p: Seq<int>|
                is_index_permutation(p, copies.len()) && r@.len() == copies.len() && forall|i: int|
                    0 <= i < r@.len() ==> #[trigger] r@[i] == copies[p[i]];
            assert forall|k: int| 0 <= k < r@.len() implies #[trigger] interface_status_views(r@)[k]
                == interface_statuses(self.interfaces_view())[p[k]] by {
                assert(r@[k] == copies[p[k]]);
            }
            assert(is_index_permutation(p, interface_statuses(self.interfaces_view()).len()));
            assert(interface_status_views(r@).len() == interface_statuses(self.interfaces_view()).len());
            assert(is_rearrangement(interface_status_views(r@), interface_statuses(self.interfaces_view())));
        }
        r
    }

    /// The interface item with device index `device_index`, if there is one.
    pub fn get_interface_status_item_by_device_index(&self, device_index: &u64) -> (r: Option<
        &NetworkStatusItem<NetworkInterfaceStatus>,
    >)
        ensures
            r is Some <==> exists|i: int|
                0 <= i < self.interfaces_view().len() && #[trigger] self.interfaces_view()[i].id_view().id
                    == Some(*device_index),
            r matches Some(x) ==> self.interfaces_view().contains(*x) && x.id_view().id == Some(*device_index),
            keys_distinct(self.interfaces_view()),
    {
        self.network_interfaces.get_status_item_by_device_index(*device_index)
    }

    /// Takes out all interface items.
    pub fn take_interface_status_items(&mut self) -> (r: Vec<NetworkStatusItem<NetworkInterfaceStatus>>)
        ensures
            r@ == old(self).interfaces_view(),
            final(self).interfaces_view() == Seq::<NetworkStatusItem<NetworkInterfaceStatus>>::empty(),
            final(self).links_view() == old(self).links_view(),
    {
        self.network_interfaces.take_status_items()
    }

    /// Stores an interface item in place of those that share a key with it,
    /// and returns those.
    pub fn set_interface_status_item(&mut self, interface: NetworkStatusItem<NetworkInterfaceStatus>) -> (r: Vec<
        NetworkStatusItem<NetworkInterfaceStatus>,
    >)
        ensures
            final(self).interfaces_view() == removal(old(self).interfaces_view(), interface.id_view()).0.push(
                interface,
            ),
            r@ == removal(old(self).interfaces_view(), interface.id_view()).1,
            final(self).links_view() == old(self).links_view(),
            keys_distinct(final(self).interfaces_view()),
            forall|j: int| 0 <= j < r@.len() ==> shares_key(interface.id_view(), #[trigger] r@[j].id_view()),
            forall|j: int|
                0 <= j < final(self).interfaces_view().len() - 1 ==> !shares_key(
                    interface.id_view(),
                    #[trigger] final(self).interfaces_view()[j].id_view(),
                ),
            final(self).interfaces_view().drop_last().to_multiset().add(r@.to_multiset()) == old(self).interfaces_view().to_multiset(),
    {
        proof {
            use_type_invariant(&self.network_interfaces);
            lemma_removal(self.interfaces_view(), interface.id_view());
            lemma_store(self.interfaces_view(), interface);
            assert(removal(self.interfaces_view(), interface.id_view()).0.push(interface).drop_last() =~= removal(self.interfaces_view(), interface.id_view()).0);
        }
        self.network_interfaces.set_status_item(interface)
    }

    /// Takes out the link items that share a key with `id`, appending them to
    /// `deleted`.
    pub fn remove_link_status_item(
        &mut self,
        id: &CanonicalNetworkId,
        deleted_items: &mut Vec<NetworkStatusItem<NetworkLinkStatus>>,
    )
        ensures
            final(self).links_view() == removal(old(self).links_view(), id@).0,
            final(deleted_items)@ == old(deleted_items)@ + removal(old(self).links_view(), id@).1,
            final(self).interfaces_view() == old(self).interfaces_view(),
            keys_distinct(old(self).links_view()),
    {
        self.network_links.remove_status_item(id, deleted_items)
    }

    /// Takes out the interface items that share a key with `id`, appending
    /// them to `deleted`.
    pub fn remove_interface_status_item(
        &mut self,
        id: &CanonicalNetworkId,
        deleted_items: &mut Vec<NetworkStatusItem<NetworkInterfaceStatus>>,
    )
        ensures
            final(self).interfaces_view() == removal(old(self).interfaces_view(), id@).0,
            final(deleted_items)@ == old(deleted_items)@ + removal(old(self).interfaces_view(), id@).1,
            final(self).links_view() == old(self).links_view(),
            keys_distinct(old(self).interfaces_view()),
    {
        self.network_interfaces.remove_status_item(id, deleted_items)
    }
}


impl InterfaceManagerDatabase {
    /// Brings the link items up to date with the links a scan found; see
    /// `settle`.  Returns copies of the links announced as changed and the
    /// links the scan did not find.
    pub fn settle_links(&mut self, found: Vec<NetworkStatusItem<NetworkLinkStatus>>) -> (r: (
        Vec<NetworkStatusItem<NetworkLinkStatus>>,
        Vec<NetworkStatusItem<NetworkLinkStatus>>,
    ))
        ensures
            r.0@.map_values(|x: NetworkStatusItem<NetworkLinkStatus>| item_view(x)) == settle(old(self).links_view(), found@).2,
            r.1@ == settle(old(self).links_view(), found@).0,
            final(self).links_view() == store_all(Seq::empty(), settle(old(self).links_view(), found@).1),
            final(self).interfaces_view() == old(self).interfaces_view(),
    {
        settle_table(&mut self.network_links, found)
    }

    /// Brings the interface items up to date with the interfaces a scan
    /// found; see `settle`.  Returns copies of the interfaces announced as
    /// changed and the interfaces the scan did not find.
    pub fn settle_interfaces(&mut self, found: Vec<NetworkStatusItem<NetworkInterfaceStatus>>) -> (r: (
        Vec<NetworkStatusItem<NetworkInterfaceStatus>>,
        Vec<NetworkStatusItem<NetworkInterfaceStatus>>,
    ))
        ensures
            r.0@.map_values(|x: NetworkStatusItem<NetworkInterfaceStatus>| item_view(x)) == settle(old(self).interfaces_view(), found@).2,
            r.1@ == settle(old(self).interfaces_view(), found@).0,
            final(self).interfaces_view() == store_all(Seq::empty(), settle(old(self).interfaces_view(), found@).1),
            final(self).links_view() == old(self).links_view(),
    {
        settle_table(&mut self.network_interfaces, found)
    }
}


/// Storing an item keeps the items apart: afterwards no two share a key, the
/// item stored is the one item that shares a key with itself (so it is what
/// its name, its device and its device index find), and every item there was
/// is either still there or among those taken out.
pub proof fn lemma_store<T>(items: Seq<NetworkStatusItem<T>>, x: NetworkStatusItem<T>)
    requires
        keys_distinct(items),
    ensures
        keys_distinct(removal(items, x.id_view()).0.push(x)),
        forall|j: int|
            0 <= j < removal(items, x.id_view()).0.len() ==> !shares_key(
                x.id_view(),
                #[trigger] removal(items, x.id_view()).0.push(x)[j].id_view(),
            ),
        removal(items, x.id_view()).0.push(x).last() == x,
        removal(items, x.id_view()).0.to_multiset().add(removal(items, x.id_view()).1.to_multiset())
            == items.to_multiset(),
{
    lemma_removal(items, x.id_view());
    let left = removal(items, x.id_view()).0;
    let s = left.push(x);
    assert forall|a: int, b: int| 0 <= a < s.len() && 0 <= b < s.len() && a != b implies !shares_key(
        #[trigger] s[a].id_view(),
        #[trigger] s[b].id_view(),
    ) by {
        if a < left.len() && b < left.len() {
            assert(s[a] == left[a] && s[b] == left[b]);
        } else if a < left.len() {
            assert(s[a] == left[a]);
            assert(!shares_key(x.id_view(), left[a].id_view()));
        } else {
            assert(s[b] == left[b]);
            assert(!shares_key(x.id_view(), left[b].id_view()));
        }
    }
    assert forall|j: int| 0 <= j < left.len() implies !shares_key(x.id_view(), #[trigger] s[j].id_view()) by {
        assert(s[j] == left[j]);
    }
}

} // verus!
