//! Bringing a table up to date with what a scan found.  Each item found
//! takes out what shares a key with it; if one of those has the very same
//! identifier it is kept, unless it was refreshed more than the hold period
//! before the item found and its status differs.  Whatever the scan did not
//! find is deleted, and the table is rebuilt from the items kept.

use vstd::prelude::*;
use crate::model::status::{NetworkInterfaceStatus, NetworkLinkStatus, same_interface_status, same_link_status};
use super::database::{StatusTable, device_matches, extract, index_matches, keys_distinct, lemma_removal, lemma_store, name_matches, removal, shares_key};
use super::model::{CanonicalNetworkIdView, NetworkStatusItem, same_id};

verus! {

/// How long a status is held against a differing one, in nanoseconds.
pub const ENTROPY_HOLD_PERIOD_NANOS: u64 = 5_000_000_000;

/// A status that can be compared and copied by value.
pub trait StatusValue: View + Sized {
    fn same_status(&self, other: &Self) -> (r: bool)
        ensures
            r == (self@ == other@),
    ;

    fn copy_status(&self) -> (r: Self)
        ensures
            r@ == self@,
    ;
}

impl StatusValue for NetworkLinkStatus {
    fn same_status(&self, other: &Self) -> (r: bool) {
        same_link_status(self, other)
    }

    fn copy_status(&self) -> (r: Self) {
        self.clone()
    }
}

impl StatusValue for NetworkInterfaceStatus {
    fn same_status(&self, other: &Self) -> (r: bool) {
        same_interface_status(self, other)
    }

    fn copy_status(&self) -> (r: Self) {
        self.clone()
    }
}

/// An item by value: identifier, status and refresh time.
pub open spec fn item_view<T: View>(x: NetworkStatusItem<T>) -> (CanonicalNetworkIdView, T::V, u64) {
    (x.id_view(), x.status_of()@, x.refreshed_at())
}

/// The first item of `s` with identifier `id`, if any.
pub open spec fn first_with_id<T>(s: Seq<NetworkStatusItem<T>>, id: CanonicalNetworkIdView) -> Option<
    NetworkStatusItem<T>,
>
    decreases s.len(),
{
    if s.len() == 0 {
        None
    } else if s[0].id_view() == id {
        Some(s[0])
    } else {
        first_with_id(s.drop_first(), id)
    }
}

/// Whether `found` takes the place of `known`: `known` was refreshed more
/// than the hold period before `found`, and their statuses differ.
pub open spec fn replaces<T: View>(known: NetworkStatusItem<T>, found: NetworkStatusItem<T>) -> bool {
    known.refreshed_at() + ENTROPY_HOLD_PERIOD_NANOS < found.refreshed_at() && known.status_of()@
        != found.status_of()@
}

/// Settling the items found, in order, against the table's items: the items
/// left in the table, the items kept, and the items announced as changed.
pub open spec fn settle<T: View>(table: Seq<NetworkStatusItem<T>>, found: Seq<NetworkStatusItem<T>>) -> (
    Seq<NetworkStatusItem<T>>,
    Seq<NetworkStatusItem<T>>,
    Seq<(CanonicalNetworkIdView, T::V, u64)>,
)
    decreases found.len(),
{
    if found.len() == 0 {
        (table, Seq::empty(), Seq::empty())
    } else {
        let (left, kept, announced) = settle(table, found.drop_last());
        let x = found.last();
        let (rest, removed) = removal(left, x.id_view());
        match first_with_id(removed, x.id_view()) {
            Some(known) => if replaces(known, x) {
                (rest, kept.push(x), announced.push(item_view(x)))
            } else {
                (rest, kept.push(known), announced)
            },
            None => (rest, kept.push(x), announced.push(item_view(x))),
        }
    }
}

/// Storing `items` one after the other into `table`.
pub open spec fn store_all<T>(table: Seq<NetworkStatusItem<T>>, items: Seq<NetworkStatusItem<T>>) -> Seq<
    NetworkStatusItem<T>,
>
    decreases items.len(),
{
    if items.len() == 0 {
        table
    } else {
        let t = store_all(table, items.drop_last());
        removal(t, items.last().id_view()).0.push(items.last())
    }
}

/// The position of the first item of `s` with the identifier of `x`.
fn position_with_id<T>(s: &Vec<NetworkStatusItem<T>>, x: &NetworkStatusItem<T>) -> (r: Option<usize>)
    ensures
        match r {
            Some(i) => i < s@.len() && first_with_id(s@, x.id_view()) == Some(s@[i as int]),
            None => first_with_id(s@, x.id_view()) is None,
        },
{
    let mut i: usize = 0;
    assert(s@.skip(0) =~= s@);
    while i < s.len()
        invariant
            i <= s@.len(),
            first_with_id(s@, x.id_view()) == first_with_id(s@.skip(i as int), x.id_view()),
        decreases s@.len() - i,
    {
        if same_id(s[i].get_id(), x.get_id()) {
            assert(s@.skip(i as int)[0] == s@[i as int]);
            return Some(i);
        }
        assert(s@.skip(i as int).drop_first() =~= s@.skip(i + 1));
        i = i + 1;
    }
    assert(s@.skip(i as int) =~= Seq::<NetworkStatusItem<T>>::empty());
    None
}

/// Settles the items found against `table`, in order, and rebuilds it from the
/// items kept.  Returns copies of the items announced as changed, and the
/// items that the scan did not find.
pub fn settle_table<T: StatusValue>(table: &mut StatusTable<T>, found: Vec<NetworkStatusItem<T>>) -> (r: (
    Vec<NetworkStatusItem<T>>,
    Vec<NetworkStatusItem<T>>,
))
    ensures
        r.0@.map_values(|x: NetworkStatusItem<T>| item_view(x)) == settle(old(table).items_view(), found@).2,
        r.1@ == settle(old(table).items_view(), found@).0,
        final(table).items_view() == store_all(Seq::empty(), settle(old(table).items_view(), found@).1),
{
    let ghost found0 = found@;
    let count = found.len();
    let mut incoming = found;
    let mut announced: Vec<NetworkStatusItem<T>> = Vec::new();
    let mut kept: Vec<NetworkStatusItem<T>> = Vec::new();
    let mut k: usize = 0;
    while incoming.len() > 0
        invariant
            found0.len() == count,
            k + incoming@.len() == found0.len(),
            incoming@ == found0.skip(k as int),
            ({
                let (left, kept_so_far, announced_so_far) = settle(
                    old(table).items_view(),
                    found0.take(k as int),
                );
                &&& table.items_view() == left
                &&& kept@ == kept_so_far
                &&& announced@.map_values(|x: NetworkStatusItem<T>| item_view(x)) == announced_so_far
            }),
        decreases incoming@.len(),
    {
        let x = incoming.remove(0);
        let ghost before = table.items_view();
        let mut deleted: Vec<NetworkStatusItem<T>> = Vec::new();
        table.remove_status_item(x.get_id(), &mut deleted);
        proof {
            assert(found0.take(k + 1).drop_last() =~= found0.take(k as int));
            assert(found0.take(k + 1).last() == x);
            assert(deleted@ =~= removal(before, x.id_view()).1);
        }
        let ghost old_announced = announced@;
        match position_with_id(&deleted, &x) {
            Some(j) => {
                let known = deleted.remove(j);
                let held = (known.get_refreshed() as u128) + (ENTROPY_HOLD_PERIOD_NANOS as u128)
                    < (x.get_refreshed() as u128);
                if held && !known.get_status().same_status(x.get_status()) {
                    let copy = NetworkStatusItem::new_with_refresh(
                        x.get_id().clone(),
                        x.get_status().copy_status(),
                        x.get_refreshed(),
                    );
                    announced.push(copy);
                    kept.push(x);
                    proof {
                        assert(announced@.map_values(|x: NetworkStatusItem<T>| item_view(x)) =~= old_announced.map_values(
                            |x: NetworkStatusItem<T>| item_view(x),
                        ).push(item_view(x)));
                    }
                } else {
                    kept.push(known);
                }
            },
            None => {
                let copy = NetworkStatusItem::new_with_refresh(
                    x.get_id().clone(),
                    x.get_status().copy_status(),
                    x.get_refreshed(),
                );
                announced.push(copy);
                kept.push(x);
                proof {
                    assert(announced@.map_values(|x: NetworkStatusItem<T>| item_view(x)) =~= old_announced.map_values(
                        |x: NetworkStatusItem<T>| item_view(x),
                    ).push(item_view(x)));
                }
            },
        }
        proof {
            assert(incoming@ =~= found0.skip(k + 1));
        }
        k = k + 1;
    }
    assert(found0.take(k as int) =~= found0);
    let unfound = table.take_status_items();
    let ghost kept0 = kept@;
    let count = kept.len();
    let mut m: usize = 0;
    let mut to_store = kept;
    while to_store.len() > 0
        invariant
            kept0.len() == count,
            m + to_store@.len() == kept0.len(),
            to_store@ == kept0.skip(m as int),
            table.items_view() == store_all(Seq::empty(), kept0.take(m as int)),
        decreases to_store@.len(),
    {
        let item = to_store.remove(0);
        proof {
            assert(kept0.take(m + 1).drop_last() =~= kept0.take(m as int));
            assert(kept0.take(m + 1).last() == item);
        }
        let _ = table.set_status_item(item);
        proof {
            assert(to_store@ =~= kept0.skip(m + 1));
        }
        m = m + 1;
    }
    assert(kept0.take(m as int) =~= kept0);
    (announced, unfound)
}


/// The item that a scan finds under the identifier of a known item, which
/// carries a name, a device or a device index, is settled against that item:
/// the known item is kept, and nothing announced, when it was refreshed no
/// more than the hold period before the item found or has the same status;
/// otherwise the item found takes its place and is announced.
pub proof fn lemma_hold<T: View>(table: Seq<NetworkStatusItem<T>>, i: int, x: NetworkStatusItem<T>)
    requires
        keys_distinct(table),
        0 <= i < table.len(),
        table[i].id_view() == x.id_view(),
        x.id_view().name is Some || x.id_view().device is Some || x.id_view().id is Some,
    ensures
        !replaces(table[i], x) ==> settle(table, seq![x]).1 == seq![table[i]] && settle(table, seq![x]).2
            == Seq::<(CanonicalNetworkIdView, T::V, u64)>::empty(),
        replaces(table[i], x) ==> settle(table, seq![x]).1 == seq![x] && settle(table, seq![x]).2 == seq![
            item_view(x),
        ],
{
    let id = x.id_view();
    let found = seq![x];
    assert(found.drop_last() =~= Seq::<NetworkStatusItem<T>>::empty());
    assert(found.last() == x);
    let pn = |q: CanonicalNetworkIdView| name_matches(id, q);
    let pd = |q: CanonicalNetworkIdView| device_matches(id, q);
    let pi = |q: CanonicalNetworkIdView| index_matches(id, q);
    let (rest, removed) = removal(table, id);
    // The known item matches every key that the identifier carries, and no
    // other item matches any.
    assert forall|j: int| 0 <= j < table.len() && j != i implies !shares_key(id, #[trigger] table[j].id_view()) by {
        assert(!shares_key(table[i].id_view(), table[j].id_view()));
    }
    if id.name is Some {
        assert(pn(table[i].id_view()));
        let k = choose|k: int| 0 <= k < table.len() && #[trigger] pn(table[k].id_view());
        if k != i {
            assert(shares_key(id, table[k].id_view()));
        }
        assert(extract(table, pn).1 == seq![table[i]]);
    } else {
        assert forall|j: int| 0 <= j < table.len() implies !#[trigger] pn(table[j].id_view()) by {}
        assert(extract(table, pn).1 =~= Seq::<NetworkStatusItem<T>>::empty());
        let a = extract(table, pn).0;
        assert(a == table);
        if id.device is Some {
            assert(pd(table[i].id_view()));
            let k = choose|k: int| 0 <= k < a.len() && #[trigger] pd(a[k].id_view());
            if k != i {
                assert(shares_key(id, table[k].id_view()));
            }
            assert(extract(a, pd).1 == seq![table[i]]);
        } else {
            assert forall|j: int| 0 <= j < a.len() implies !#[trigger] pd(a[j].id_view()) by {}
            assert(extract(a, pd).1 =~= Seq::<NetworkStatusItem<T>>::empty());
            let b = extract(a, pd).0;
            assert(b == table);
            assert(pi(table[i].id_view()));
            let k = choose|k: int| 0 <= k < b.len() && #[trigger] pi(b[k].id_view());
            if k != i {
                assert(shares_key(id, table[k].id_view()));
            }
            assert(extract(b, pi).1 == seq![table[i]]);
        }
    }
    assert(removed.len() > 0 && removed[0] == table[i]);
    assert(first_with_id(removed, id) == Some(table[i]));
    let empty = Seq::<NetworkStatusItem<T>>::empty();
    assert(settle(table, empty) == (table, empty, Seq::<(CanonicalNetworkIdView, T::V, u64)>::empty()));
    assert(empty.push(table[i]) =~= seq![table[i]]);
    assert(empty.push(x) =~= seq![x]);
    assert(Seq::<(CanonicalNetworkIdView, T::V, u64)>::empty().push(item_view(x)) =~= seq![item_view(x)]);
}

/// Whether an identifier carries a name, a device or a device index.
pub open spec fn has_key(id: CanonicalNetworkIdView) -> bool {
    id.name is Some || id.device is Some || id.id is Some
}

/// Removal keeps the items that share no key with the identifier, and takes
/// out those that do.
proof fn lemma_removal_member<T>(s: Seq<NetworkStatusItem<T>>, id: CanonicalNetworkIdView, z: NetworkStatusItem<T>)
    requires
        keys_distinct(s),
        s.contains(z),
    ensures
        !shares_key(id, z.id_view()) ==> removal(s, id).0.contains(z),
        shares_key(id, z.id_view()) ==> removal(s, id).1.contains(z),
{
    broadcast use vstd::seq_lib::group_to_multiset_ensures;
    lemma_removal(s, id);
    let (left, removed) = removal(s, id);
    assert(s.to_multiset().count(z) > 0);
    assert(left.to_multiset().count(z) + removed.to_multiset().count(z) > 0);
    if !shares_key(id, z.id_view()) {
        if removed.contains(z) {
            let j = choose|j: int| 0 <= j < removed.len() && removed[j] == z;
        }
    } else {
        if left.contains(z) {
            let j = choose|j: int| 0 <= j < left.len() && left[j] == z;
        }
    }
}

/// The first item with an identifier is the one item that has it.
proof fn lemma_first_with_id<T>(s: Seq<NetworkStatusItem<T>>, id: CanonicalNetworkIdView, z: NetworkStatusItem<T>)
    requires
        s.contains(z),
        z.id_view() == id,
        forall|j: int| 0 <= j < s.len() && (#[trigger] s[j]).id_view() == id ==> s[j] == z,
    ensures
        first_with_id(s, id) == Some(z),
    decreases s.len(),
{
    if s[0].id_view() != id {
        let t = s.drop_first();
        let j = choose|j: int| 0 <= j < s.len() && s[j] == z;
        assert(t[j - 1] == z);
        assert forall|k: int| 0 <= k < t.len() && (#[trigger] t[k]).id_view() == id implies t[k] == z by {
            assert(t[k] == s[k + 1]);
        }
        lemma_first_with_id(t, id, z);
    }
}

/// The first item with an identifier has it, and is one of the items.
proof fn lemma_first_with_id_found<T>(s: Seq<NetworkStatusItem<T>>, id: CanonicalNetworkIdView)
    ensures
        first_with_id(s, id) matches Some(z) ==> z.id_view() == id && s.contains(z),
    decreases s.len(),
{
    if s.len() > 0 && s[0].id_view() != id {
        lemma_first_with_id_found(s.drop_first(), id);
        if first_with_id(s, id) is Some {
            let z = first_with_id(s, id)->0;
            let j = choose|j: int| 0 <= j < s.drop_first().len() && s.drop_first()[j] == z;
            assert(s[j + 1] == z);
        }
    }
}

/// Settling keeps one item for each item found, with its identifier, and
/// leaves in the table only items of the table, no two sharing a key.
proof fn lemma_settle_shape<T: View>(table: Seq<NetworkStatusItem<T>>, found: Seq<NetworkStatusItem<T>>)
    requires
        keys_distinct(table),
    ensures
        settle(table, found).1.len() == found.len(),
        forall|j: int| 0 <= j < found.len() ==> (#[trigger] settle(table, found).1[j]).id_view() == found[j].id_view(),
        keys_distinct(settle(table, found).0),
        forall|w: NetworkStatusItem<T>| #[trigger] settle(table, found).0.contains(w) ==> table.contains(w),
    decreases found.len(),
{
    if found.len() > 0 {
        let f = found.drop_last();
        lemma_settle_shape(table, f);
        let (left, kept, announced) = settle(table, f);
        let x = found.last();
        lemma_removal(left, x.id_view());
        lemma_first_with_id_found(removal(left, x.id_view()).1, x.id_view());
        assert forall|j: int| 0 <= j < found.len() implies (#[trigger] settle(table, found).1[j]).id_view()
            == found[j].id_view() by {
            if j < f.len() {
                assert(settle(table, found).1[j] == kept[j]);
                assert(found[j] == f[j]);
            }
        }
        assert forall|w: NetworkStatusItem<T>| #[trigger] settle(table, found).0.contains(w) implies table.contains(w) by {
            let j = choose|j: int| 0 <= j < settle(table, found).0.len() && settle(table, found).0[j] == w;
            assert(left.contains(w));
        }
    }
}

/// An item of the table that shares no key with any item found stays in the
/// table while settling.
proof fn lemma_settle_leaves<T: View>(
    table: Seq<NetworkStatusItem<T>>,
    found: Seq<NetworkStatusItem<T>>,
    z: NetworkStatusItem<T>,
)
    requires
        keys_distinct(table),
        table.contains(z),
        forall|j: int| 0 <= j < found.len() ==> !shares_key((#[trigger] found[j]).id_view(), z.id_view()),
    ensures
        settle(table, found).0.contains(z),
    decreases found.len(),
{
    if found.len() > 0 {
        let f = found.drop_last();
        assert forall|j: int| 0 <= j < f.len() implies !shares_key((#[trigger] f[j]).id_view(), z.id_view()) by {
            assert(f[j] == found[j]);
        }
        lemma_settle_leaves(table, f, z);
        lemma_settle_shape(table, f);
        let left = settle(table, f).0;
        assert(!shares_key(found[found.len() - 1].id_view(), z.id_view()));
        lemma_removal_member(left, found.last().id_view(), z);
    }
}

/// Storing items one after the other, no two of which share a key, keeps
/// each of them.
proof fn lemma_store_all_keeps<T>(items: Seq<NetworkStatusItem<T>>, k: int)
    requires
        0 <= k < items.len(),
        forall|j: int| k < j < items.len() ==> !shares_key((#[trigger] items[j]).id_view(), items[k].id_view()),
    ensures
        keys_distinct(store_all(Seq::empty(), items)),
        store_all(Seq::empty(), items).contains(items[k]),
    decreases items.len(),
{
    lemma_store_all_distinct(items);
    let t = store_all(Seq::empty(), items.drop_last());
    let x = items.last();
    if k == items.len() - 1 {
        assert(removal(t, x.id_view()).0.push(x)[removal(t, x.id_view()).0.len() as int] == x);
    } else {
        let d = items.drop_last();
        assert forall|j: int| k < j < d.len() implies !shares_key((#[trigger] d[j]).id_view(), d[k].id_view()) by {
            assert(d[j] == items[j]);
        }
        lemma_store_all_keeps(d, k);
        assert(!shares_key(items[items.len() - 1].id_view(), items[k].id_view()));
        lemma_removal_member(t, x.id_view(), items[k]);
        let l = removal(t, x.id_view()).0;
        let j = choose|j: int| 0 <= j < l.len() && l[j] == items[k];
        assert(l.push(x)[j] == items[k]);
    }
}

/// Storing items one after the other keeps the table's keys apart.
proof fn lemma_store_all_distinct<T>(items: Seq<NetworkStatusItem<T>>)
    ensures
        keys_distinct(store_all(Seq::empty(), items)),
    decreases items.len(),
{
    if items.len() > 0 {
        lemma_store_all_distinct(items.drop_last());
        lemma_store(store_all(Seq::empty(), items.drop_last()), items.last());
    }
}

/// The hold period over a whole scan: where the items found share no key
/// with one another, the item kept for an item found that has a known item's
/// identifier is the item found if it replaces the known one (refreshed more
/// than the hold period earlier, with another status), and the known one if
/// not; either way it is what the table holds afterwards.
pub proof fn lemma_scan_hold<T: View>(
    table: Seq<NetworkStatusItem<T>>,
    found: Seq<NetworkStatusItem<T>>,
    k: int,
    i: int,
)
    requires
        keys_distinct(table),
        keys_distinct(found),
        0 <= k < found.len(),
        0 <= i < table.len(),
        table[i].id_view() == found[k].id_view(),
        has_key(found[k].id_view()),
    ensures
        settle(table, found).1[k] == (if replaces(table[i], found[k]) {
            found[k]
        } else {
            table[i]
        }),
        store_all(Seq::empty(), settle(table, found).1).contains(settle(table, found).1[k]),
{
    lemma_settle_shape(table, found);
    let kept = settle(table, found).1;
    assert forall|j: int| k < j < kept.len() implies !shares_key((#[trigger] kept[j]).id_view(), kept[k].id_view()) by {
        assert(kept[j].id_view() == found[j].id_view());
        assert(kept[k].id_view() == found[k].id_view());
        assert(!shares_key(found[j].id_view(), found[k].id_view()));
    }
    lemma_store_all_keeps(kept, k);
    lemma_settled_at(table, found, k, i);
}

/// The item kept for the item found at `k` (see `lemma_scan_hold`).
proof fn lemma_settled_at<T: View>(table: Seq<NetworkStatusItem<T>>, found: Seq<NetworkStatusItem<T>>, k: int, i: int)
    requires
        keys_distinct(table),
        keys_distinct(found),
        0 <= k < found.len(),
        0 <= i < table.len(),
        table[i].id_view() == found[k].id_view(),
        has_key(found[k].id_view()),
    ensures
        settle(table, found).1[k] == (if replaces(table[i], found[k]) {
            found[k]
        } else {
            table[i]
        }),
    decreases found.len(),
{
    let f = found.drop_last();
    assert forall|a: int, b: int| 0 <= a < f.len() && 0 <= b < f.len() && a != b implies !shares_key(
        #[trigger] f[a].id_view(),
        #[trigger] f[b].id_view(),
    ) by {
        assert(f[a] == found[a] && f[b] == found[b]);
    }
    lemma_settle_shape(table, f);
    if k < found.len() - 1 {
        lemma_settled_at(table, f, k, i);
        assert(settle(table, found).1[k] == settle(table, f).1[k]);
        assert(found[k] == f[k]);
    } else {
        let z = table[i];
        let x = found[k];
        assert(table.contains(z));
        assert forall|j: int| 0 <= j < f.len() implies !shares_key((#[trigger] f[j]).id_view(), z.id_view()) by {
            assert(f[j] == found[j]);
            assert(!shares_key(found[j].id_view(), found[k].id_view()));
        }
        lemma_settle_leaves(table, f, z);
        let left = settle(table, f).0;
        assert(shares_key(x.id_view(), z.id_view()));
        lemma_removal_member(left, x.id_view(), z);
        lemma_removal(left, x.id_view());
        let removed = removal(left, x.id_view()).1;
        assert forall|j: int| 0 <= j < removed.len() && (#[trigger] removed[j]).id_view() == x.id_view() implies removed[j]
            == z by {
            let w = removed[j];
            assert(removed.contains(w));
            lemma_removal_source(left, x.id_view(), w);
            assert(table.contains(w));
            let a = choose|a: int| 0 <= a < table.len() && table[a] == w;
            if a != i {
                assert(!shares_key(table[a].id_view(), table[i].id_view()));
            }
        }
        lemma_first_with_id(removed, x.id_view(), z);
    }
}

/// What removal takes out was in the sequence.
proof fn lemma_removal_source<T>(s: Seq<NetworkStatusItem<T>>, id: CanonicalNetworkIdView, w: NetworkStatusItem<T>)
    requires
        keys_distinct(s),
        removal(s, id).1.contains(w),
    ensures
        s.contains(w),
{
    broadcast use vstd::seq_lib::group_to_multiset_ensures;
    lemma_removal(s, id);
    assert(removal(s, id).1.to_multiset().count(w) > 0);
    assert(s.to_multiset().count(w) > 0);
}

} // verus!
