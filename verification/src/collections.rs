//! A map keyed by names, kept as a list of entries in insertion order.

use vstd::prelude::*;

verus! {

/// Whether some entry of `s` has the key `k`.
pub open spec fn has_key<V>(s: Seq<(String, V)>, k: Seq<char>) -> bool {
    exists|i: int| 0 <= i < s.len() && #[trigger] s[i].0@ == k
}

/// The value of the entry of `s` with the key `k`.
pub open spec fn value_at_key<V>(s: Seq<(String, V)>, k: Seq<char>) -> V {
    s[choose|i: int| 0 <= i < s.len() && #[trigger] s[i].0@ == k].1
}

/// Whether no two entries of `s` share a key.
pub open spec fn distinct_keys<V>(s: Seq<(String, V)>) -> bool {
    forall|i: int, j: int| 0 <= i < s.len() && 0 <= j < s.len() && i != j ==> #[trigger] s[i].0@ != #[trigger] s[j].0@
}

/// The map that a list of entries with distinct keys stands for.
pub open spec fn map_of_entries<V>(s: Seq<(String, V)>) -> Map<Seq<char>, V> {
    Map::new(|k: Seq<char>| has_key(s, k), |k: Seq<char>| value_at_key(s, k))
}

/// A map from names to values.  No two entries share a name; entries keep
/// the order in which their names were first inserted.
#[derive(Debug)]
pub struct StringMap<V> {
    entries: Vec<(String, V)>,
}

impl<V> View for StringMap<V> {
    type V = Map<Seq<char>, V>;

    closed spec fn view(&self) -> Map<Seq<char>, V> {
        map_of_entries(self.entries@)
    }
}

/// The entry of `s` at `i` has the key `k`: its value is the value at `k`.
pub proof fn lemma_value_at<V>(s: Seq<(String, V)>, i: int)
    requires
        distinct_keys(s),
        0 <= i < s.len(),
    ensures
        has_key(s, s[i].0@),
        value_at_key(s, s[i].0@) == s[i].1,
{
    let k = s[i].0@;
    assert(s[i].0@ == k);
    let j = choose|j: int| 0 <= j < s.len() && #[trigger] s[j].0@ == k;
    assert(j == i);
}

impl<V> StringMap<V> {
    #[verifier::type_invariant]
    closed spec fn inv(self) -> bool {
        distinct_keys(self.entries@)
    }

    /// The entries, in the order in which their names were first inserted.
    pub closed spec fn entries_view(self) -> Seq<(String, V)> {
        self.entries@
    }

    /// An empty map.
    pub fn new() -> (r: Self)
        ensures
            r@ == Map::<Seq<char>, V>::empty(),
            r.entries_view() == Seq::<(String, V)>::empty(),
    {
        let r = StringMap { entries: Vec::new() };
        assert(r@ =~= Map::<Seq<char>, V>::empty());
        r
    }

    /// The number of entries.
    pub fn len(&self) -> (r: usize)
        ensures
            r == self.entries_view().len(),
            r == self@.len(),
    {
        proof {
            use_type_invariant(self);
            lemma_entries_dom(self.entries@);
        }
        self.entries.len()
    }

    /// The entries as a slice: no two share a name, and they stand for the
    /// map.
    pub fn entries(&self) -> (r: &[(String, V)])
        ensures
            r@ == self.entries_view(),
            distinct_keys(r@),
            self@ == map_of_entries(r@),
            self@.dom().finite(),
            self@.len() == r@.len(),
    {
        proof {
            use_type_invariant(self);
            lemma_entries_dom(self.entries@);
        }
        self.entries.as_slice()
    }

    /// The position of the entry named `key`, if there is one.
    fn position(&self, key: &String) -> (r: Option<usize>)
        ensures
            match r {
                Some(i) => i < self.entries@.len() && self.entries@[i as int].0@ == key@,
                None => !has_key(self.entries@, key@),
            },
    {
        let mut i: usize = 0;
        while i < self.entries.len()
            invariant
                i <= self.entries@.len(),
                forall|j: int| 0 <= j < i ==> #[trigger] self.entries@[j].0@ != key@,
            decreases self.entries@.len() - i,
        {
            if self.entries[i].0 == *key {
                return Some(i);
            }
            i = i + 1;
        }
        None
    }

    /// The value named `key`, if there is one.
    pub fn get(&self, key: &String) -> (r: Option<&V>)
        ensures
            r is Some <==> self@.contains_key(key@),
            r matches Some(v) ==> *v == self@[key@],
    {
        proof {
            use_type_invariant(self);
        }
        match self.position(key) {
            Some(i) => {
                proof {
                    lemma_value_at(self.entries@, i as int);
                }
                Some(&self.entries[i].1)
            },
            None => None,
        }
    }

    /// Whether a value is named `key`.
    pub fn contains_key(&self, key: &String) -> (r: bool)
        ensures
            r == self@.contains_key(key@),
    {
        self.position(key).is_some()
    }

    /// Names `value` by `key`: an entry of that name gets the value in its
    /// place, otherwise the entry is added at the end.  Returns the value
    /// the name had.
    pub fn insert(&mut self, key: String, value: V) -> (r: Option<V>)
        ensures
            final(self)@ == old(self)@.insert(key@, value),
            r is Some <==> old(self)@.contains_key(key@),
            r matches Some(v) ==> v == old(self)@[key@],
            old(self)@.contains_key(key@) ==> final(self).entries_view().len()
                == old(self).entries_view().len(),
            !old(self)@.contains_key(key@) ==> final(self).entries_view() == old(
                self,
            ).entries_view().push((key, value)),
    {
        proof {
            use_type_invariant(&*self);
        }
        let ghost k = key@;
        let ghost before = self.entries@;
        let position = self.position(&key);
        let mut entries: Vec<(String, V)> = Vec::new();
        std::mem::swap(&mut entries, &mut self.entries);
        let r = match position {
            Some(i) => {
                proof {
                    lemma_value_at(before, i as int);
                }
                let (_, old_value) = entries.remove(i);
                entries.insert(i, (key, value));
                proof {
                    let after = entries@;
                    assert(after =~= before.update(i as int, (after[i as int].0, value)));
                    assert(distinct_keys(after)) by {
                        assert forall|a: int, b: int|
                            0 <= a < after.len() && 0 <= b < after.len() && a != b implies #[trigger] after[a].0@
                            != #[trigger] after[b].0@ by {
                            if a != i && b != i {
                                assert(after[a] == before[a] && after[b] == before[b]);
                            } else if a == i {
                                assert(after[b] == before[b]);
                                assert(before[a].0@ != before[b].0@);
                            } else {
                                assert(after[a] == before[a]);
                                assert(before[a].0@ != before[b].0@);
                            }
                        }
                    }
                    assert(map_of_entries(after) =~= map_of_entries(before).insert(k, value)) by {
                        assert forall|q: Seq<char>| #[trigger] has_key(after, q) == (has_key(before, q) || q == k) by {
                            if has_key(before, q) {
                                let j = choose|j: int| 0 <= j < before.len() && #[trigger] before[j].0@ == q;
                                assert(after[j].0@ == q);
                            }
                            if has_key(after, q) {
                                let j = choose|j: int| 0 <= j < after.len() && #[trigger] after[j].0@ == q;
                                if j != i {
                                    assert(before[j].0@ == q);
                                }
                            }
                            if q == k {
                                assert(after[i as int].0@ == q);
                            }
                        }
                        assert forall|q: Seq<char>| has_key(after, q) implies #[trigger] value_at_key(after, q)
                            == map_of_entries(before).insert(k, value)[q] by {
                            let j = choose|j: int| 0 <= j < after.len() && #[trigger] after[j].0@ == q;
                            lemma_value_at(after, j);
                            if j != i {
                                assert(before[j] == after[j]);
                                lemma_value_at(before, j);
                            }
                        }
                    }
                }
                Some(old_value)
            },
            None => {
                entries.push((key, value));
                proof {
                    let after = entries@;
                    assert(after =~= before.push((after[before.len() as int].0, value)));
                    assert(distinct_keys(after)) by {
                        assert forall|a: int, b: int|
                            0 <= a < after.len() && 0 <= b < after.len() && a != b implies #[trigger] after[a].0@
                            != #[trigger] after[b].0@ by {
                            assert(after[before.len() as int].0@ == k);
                            if a < before.len() && b < before.len() {
                                assert(after[a] == before[a] && after[b] == before[b]);
                            } else if a < before.len() {
                                assert(after[a] == before[a]);
                                assert(before[a].0@ != k);
                            } else {
                                assert(after[b] == before[b]);
                                assert(before[b].0@ != k);
                            }
                        }
                    }
                    assert(map_of_entries(after) =~= map_of_entries(before).insert(k, value)) by {
                        assert forall|q: Seq<char>| #[trigger] has_key(after, q) == (has_key(before, q) || q == k) by {
                            if has_key(before, q) {
                                let j = choose|j: int| 0 <= j < before.len() && #[trigger] before[j].0@ == q;
                                assert(after[j].0@ == q);
                            }
                            if has_key(after, q) {
                                let j = choose|j: int| 0 <= j < after.len() && #[trigger] after[j].0@ == q;
                                if j < before.len() {
                                    assert(before[j].0@ == q);
                                }
                            }
                            if q == k {
                                assert(after[before.len() as int].0@ == q);
                            }
                        }
                        assert forall|q: Seq<char>| has_key(after, q) implies #[trigger] value_at_key(after, q)
                            == map_of_entries(before).insert(k, value)[q] by {
                            let j = choose|j: int| 0 <= j < after.len() && #[trigger] after[j].0@ == q;
                            lemma_value_at(after, j);
                            if j < before.len() {
                                assert(before[j] == after[j]);
                                lemma_value_at(before, j);
                            }
                        }
                    }
                }
                None
            },
        };
        self.entries = entries;
        r
    }

    /// Takes out the value named `key`, if there is one; the other entries
    /// keep their order.
    pub fn remove(&mut self, key: &String) -> (r: Option<V>)
        ensures
            final(self)@ == old(self)@.remove(key@),
            r is Some <==> old(self)@.contains_key(key@),
            r matches Some(v) ==> v == old(self)@[key@],
    {
        proof {
            use_type_invariant(&*self);
        }
        let ghost k = key@;
        let ghost before = self.entries@;
        match self.position(key) {
            Some(i) => {
                proof {
                    lemma_value_at(before, i as int);
                }
                let mut entries: Vec<(String, V)> = Vec::new();
                std::mem::swap(&mut entries, &mut self.entries);
                let (_, value) = entries.remove(i);
                proof {
                    let after = entries@;
                    assert(after =~= before.remove(i as int));
                    assert forall|a: int| 0 <= a < after.len() implies #[trigger] after[a] == before[
                        if a < i { a } else { a + 1 }
                    ] by {}
                    assert(distinct_keys(after)) by {
                        assert forall|a: int, b: int|
                            0 <= a < after.len() && 0 <= b < after.len() && a != b implies #[trigger] after[a].0@
                            != #[trigger] after[b].0@ by {
                            let a2 = if a < i { a } else { a + 1 };
                            let b2 = if b < i { b } else { b + 1 };
                            assert(after[a] == before[a2] && after[b] == before[b2]);
                            assert(a2 != b2);
                            assert(before[a2].0@ != before[b2].0@);
                        }
                    }
                    assert(map_of_entries(after) =~= map_of_entries(before).remove(k)) by {
                        assert forall|q: Seq<char>| #[trigger] has_key(after, q) == (has_key(before, q) && q != k) by {
                            if has_key(before, q) && q != k {
                                let j = choose|j: int| 0 <= j < before.len() && #[trigger] before[j].0@ == q;
                                assert(j != i);
                                let j2 = if j < i { j } else { j - 1 };
                                assert(after[j2] == before[j]);
                            }
                            if has_key(after, q) {
                                let j = choose|j: int| 0 <= j < after.len() && #[trigger] after[j].0@ == q;
                                let j2 = if j < i { j } else { j + 1 };
                                assert(before[j2].0@ == q);
                                assert(j2 != i);
                            }
                        }
                        assert forall|q: Seq<char>| has_key(after, q) implies #[trigger] value_at_key(after, q)
                            == map_of_entries(before).remove(k)[q] by {
                            let j = choose|j: int| 0 <= j < after.len() && #[trigger] after[j].0@ == q;
                            lemma_value_at(after, j);
                            let j2 = if j < i { j } else { j + 1 };
                            assert(before[j2] == after[j]);
                            lemma_value_at(before, j2);
                        }
                    }
                }
                self.entries = entries;
                Some(value)
            },
            None => {
                proof {
                    assert(map_of_entries(before) =~= map_of_entries(before).remove(k));
                }
                None
            },
        }
    }
}

/// The keys of a list with distinct keys are as many as its entries.
proof fn lemma_entries_dom<V>(s: Seq<(String, V)>)
    requires
        distinct_keys(s),
    ensures
        map_of_entries(s).dom().finite(),
        map_of_entries(s).dom().len() == s.len(),
    decreases s.len(),
{
    let d = map_of_entries(s).dom();
    if s.len() == 0 {
        assert(d =~= Set::<Seq<char>>::empty());
    } else {
        let p = s.drop_last();
        assert(distinct_keys(p)) by {
            assert forall|a: int, b: int| 0 <= a < p.len() && 0 <= b < p.len() && a != b implies #[trigger] p[a].0@
                != #[trigger] p[b].0@ by {
                assert(p[a] == s[a] && p[b] == s[b]);
            }
        }
        lemma_entries_dom(p);
        let k = s.last().0@;
        assert(d =~= map_of_entries(p).dom().insert(k)) by {
            assert forall|q: Seq<char>| #[trigger] d.contains(q) == (map_of_entries(p).dom().contains(q) || q == k) by {
                if has_key(s, q) {
                    let j = choose|j: int| 0 <= j < s.len() && #[trigger] s[j].0@ == q;
                    if j < p.len() {
                        assert(p[j].0@ == q);
                    }
                }
                if has_key(p, q) {
                    let j = choose|j: int| 0 <= j < p.len() && #[trigger] p[j].0@ == q;
                    assert(s[j].0@ == q);
                }
                if q == k {
                    assert(s[s.len() - 1].0@ == q);
                }
            }
        }
        assert(!map_of_entries(p).dom().contains(k)) by {
            if has_key(p, k) {
                let j = choose|j: int| 0 <= j < p.len() && #[trigger] p[j].0@ == k;
                assert(s[j].0@ == s[s.len() - 1].0@);
            }
        }
    }
}

} // verus!
