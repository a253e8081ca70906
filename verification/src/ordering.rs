//! Orders on names and a selection sort over a total preorder.

use vstd::prelude::*;
use vstd::string::*;

verus! {

/// Whether the characters of `a` come strictly before those of `b` in
/// lexicographic order by code point, which is the order of their UTF-8
/// bytes and so the order of Rust's strings.
pub open spec fn chars_lt(a: Seq<char>, b: Seq<char>) -> bool
    decreases a.len(),
{
    if a.len() == 0 {
        b.len() > 0
    } else if b.len() == 0 {
        false
    } else if a[0] != b[0] {
        (a[0] as int) < (b[0] as int)
    } else {
        chars_lt(a.drop_first(), b.drop_first())
    }
}

/// Strict lexicographic order is irreflexive.
pub proof fn lemma_chars_irreflexive(a: Seq<char>)
    ensures
        !chars_lt(a, a),
    decreases a.len(),
{
    if a.len() > 0 {
        lemma_chars_irreflexive(a.drop_first());
    }
}

/// Of two distinct sequences one comes strictly before the other, and never
/// both.
pub proof fn lemma_chars_total(a: Seq<char>, b: Seq<char>)
    ensures
        a != b ==> chars_lt(a, b) || chars_lt(b, a),
        !(chars_lt(a, b) && chars_lt(b, a)),
    decreases a.len(),
{
    if a.len() == 0 && b.len() == 0 {
        assert(a =~= b);
    } else if a.len() > 0 && b.len() > 0 {
        lemma_chars_total(a.drop_first(), b.drop_first());
        if a[0] == b[0] && a != b {
            assert(a =~= seq![a[0]] + a.drop_first());
            assert(b =~= seq![b[0]] + b.drop_first());
        }
    }
}

/// Strict lexicographic order is transitive.
pub proof fn lemma_chars_transitive(a: Seq<char>, b: Seq<char>, c: Seq<char>)
    requires
        chars_lt(a, b),
        chars_lt(b, c),
    ensures
        chars_lt(a, c),
    decreases a.len(),
{
    if a.len() > 0 && c.len() > 0 {
        if a[0] == b[0] && b[0] == c[0] {
            lemma_chars_transitive(a.drop_first(), b.drop_first(), c.drop_first());
        }
    }
}

/// Whether `a` comes strictly before `b`.
pub fn str_lt(a: &str, b: &str) -> (r: bool)
    ensures
        r == chars_lt(a@, b@),
{
    let la = a.unicode_len();
    let lb = b.unicode_len();
    let mut i: usize = 0;
    assert(a@.skip(0) =~= a@);
    assert(b@.skip(0) =~= b@);
    while i < la && i < lb
        invariant
            la == a@.len(),
            lb == b@.len(),
            i <= la,
            i <= lb,
            chars_lt(a@, b@) == chars_lt(a@.skip(i as int), b@.skip(i as int)),
        decreases la - i,
    {
        let ca = a.get_char(i);
        let cb = b.get_char(i);
        if ca != cb {
            return (ca as u32) < (cb as u32);
        }
        assert(a@.skip(i as int).drop_first() =~= a@.skip(i + 1));
        assert(b@.skip(i as int).drop_first() =~= b@.skip(i + 1));
        i = i + 1;
    }
    i == la && i < lb
}

/// The order of optional names: no name first, then names in order.
pub open spec fn name_le(a: Option<Seq<char>>, b: Option<Seq<char>>) -> bool {
    match (a, b) {
        (None, _) => true,
        (Some(_), None) => false,
        (Some(x), Some(y)) => !chars_lt(y, x),
    }
}

/// The views of an optional name.
pub open spec fn name_view(a: Option<String>) -> Option<Seq<char>> {
    match a {
        Some(s) => Some(s@),
        None => None,
    }
}

/// `name_le` is a total preorder.
pub proof fn lemma_name_order(a: Option<Seq<char>>, b: Option<Seq<char>>, c: Option<Seq<char>>)
    ensures
        name_le(a, b) || name_le(b, a),
        name_le(a, b) && name_le(b, c) ==> name_le(a, c),
{
    match (a, b, c) {
        (Some(x), Some(y), Some(z)) => {
            lemma_chars_total(x, y);
            lemma_chars_total(y, z);
            lemma_chars_total(x, z);
            if chars_lt(z, x) {
                if chars_lt(z, y) {
                } else if chars_lt(y, x) {
                } else {
                    if y != z {
                        lemma_chars_total(y, z);
                    }
                    if y != x {
                        lemma_chars_total(x, y);
                    }
                    if y == z {
                    } else {
                        assert(chars_lt(y, z));
                        lemma_chars_transitive(y, z, x);
                    }
                }
            }
        },
        (Some(x), Some(y), None) => {
            lemma_chars_total(x, y);
        },
        _ => {},
    }
}

/// Whether `a` comes before `b` or ties with it, as optional names.
pub fn name_goes_first(a: &Option<String>, b: &Option<String>) -> (r: bool)
    ensures
        r == name_le(name_view(*a), name_view(*b)),
{
    match (a, b) {
        (None, _) => true,
        (Some(_), None) => false,
        (Some(x), Some(y)) => !str_lt(y.as_str(), x.as_str()),
    }
}

/// Values that sort by a total preorder.
pub trait SortKey: Sized {
    /// Whether `self` sorts before `other` or ties with it.
    spec fn sorts_no_later(&self, other: &Self) -> bool;

    /// The order is total and transitive.
    proof fn lemma_total_preorder(a: &Self, b: &Self, c: &Self)
        ensures
            a.sorts_no_later(b) || b.sorts_no_later(a),
            a.sorts_no_later(b) && b.sorts_no_later(c) ==> a.sorts_no_later(c),
    ;

    /// Computes `sorts_no_later`.
    fn goes_no_later(&self, other: &Self) -> (r: bool)
        ensures
            r == self.sorts_no_later(other),
    ;
}

/// Whether `s` is in order.
pub open spec fn is_sorted<T: SortKey>(s: Seq<T>) -> bool {
    forall|i: int, j: int| 0 <= i < j < s.len() ==> #[trigger] s[i].sorts_no_later(#[trigger] &s[j])
}

/// Whether `p` lists each of the positions `0..n` once.
pub open spec fn is_index_permutation(p: Seq<int>, n: nat) -> bool {
    &&& p.len() == n
    &&& forall|i: int| 0 <= i < n ==> 0 <= #[trigger] p[i] < n
    &&& forall|i: int, j: int| 0 <= i < n && 0 <= j < n && i != j ==> #[trigger] p[i] != #[trigger] p[j]
}

/// Whether `r` holds the values of `v` rearranged.
pub open spec fn is_rearrangement<T>(r: Seq<T>, v: Seq<T>) -> bool {
    exists|p: Seq<int>|
        is_index_permutation(p, v.len()) && r.len() == v.len() && forall|i: int|
            0 <= i < r.len() ==> #[trigger] r[i] == v[p[i]]
}

/// Sorts `v` by selection: the result holds the values of `v`, rearranged
/// into order.
pub fn sort_by_key<T: SortKey>(v: Vec<T>) -> (r: Vec<T>)
    ensures
        r@.len() == v@.len(),
        is_rearrangement(r@, v@),
        is_sorted(r@),
{
    let ghost input = v@;
    let mut rest = v;
    let mut out: Vec<T> = Vec::new();
    let ghost mut rest_at: Seq<int> = Seq::new(input.len(), |i: int| i);
    let ghost mut out_at: Seq<int> = Seq::empty();
    while rest.len() > 0
        invariant
            out@.len() + rest@.len() == input.len(),
            rest_at.len() == rest@.len(),
            out_at.len() == out@.len(),
            forall|j: int| 0 <= j < rest@.len() ==> 0 <= #[trigger] rest_at[j] < input.len() && rest@[j]
                == input[rest_at[j]],
            forall|j: int| 0 <= j < out@.len() ==> 0 <= #[trigger] out_at[j] < input.len() && out@[j]
                == input[out_at[j]],
            forall|a: int, b: int| 0 <= a < out_at.len() + rest_at.len() && 0 <= b < out_at.len() + rest_at.len() && a != b
                ==> #[trigger] (out_at + rest_at)[a] != #[trigger] (out_at + rest_at)[b],
            is_sorted(out@),
            forall|i: int, j: int|
                0 <= i < out@.len() && 0 <= j < rest@.len() ==> #[trigger] out@[i].sorts_no_later(
                    #[trigger] &rest@[j],
                ),
        decreases rest@.len(),
    {
        let mut m: usize = 0;
        let mut k: usize = 1;
        proof {
            T::lemma_total_preorder(&rest@[0], &rest@[0], &rest@[0]);
        }
        while k < rest.len()
            invariant
                0 <= m < rest@.len(),
                1 <= k <= rest@.len(),
                forall|j: int| 0 <= j < k ==> #[trigger] rest@[m as int].sorts_no_later(&rest@[j]),
            decreases rest@.len() - k,
        {
            if !rest[m].goes_no_later(&rest[k]) {
                proof {
                    assert forall|j: int| 0 <= j < k implies #[trigger] rest@[k as int].sorts_no_later(
                        &rest@[j],
                    ) by {
                        T::lemma_total_preorder(&rest@[m as int], &rest@[k as int], &rest@[j]);
                        T::lemma_total_preorder(&rest@[k as int], &rest@[m as int], &rest@[j]);
                    }
                    T::lemma_total_preorder(&rest@[k as int], &rest@[k as int], &rest@[k as int]);
                }
                m = k;
            }
            k = k + 1;
        }
        let ghost old_rest = rest@;
        let ghost old_out = out@;
        let ghost old_all = out_at + rest_at;
        let x = rest.remove(m);
        out.push(x);
        proof {
            let moved = rest_at[m as int];
            out_at = out_at.push(moved);
            rest_at = rest_at.remove(m as int);
            let all = out_at + rest_at;
            let ol = old_out.len() as int;
            assert forall|a: int| 0 <= a < all.len() implies #[trigger] all[a] == old_all[
                if a < ol { a } else if a == ol { ol + m } else if a <= ol + m { a - 1 } else { a }
            ] by {}
            assert forall|a: int, b: int| 0 <= a < all.len() && 0 <= b < all.len() && a != b implies #[trigger] all[a]
                != #[trigger] all[b] by {
                let a2 = if a < ol { a } else if a == ol { ol + m } else if a <= ol + m { a - 1 } else { a };
                let b2 = if b < ol { b } else if b == ol { ol + m } else if b <= ol + m { b - 1 } else { b };
                assert(all[a] == old_all[a2] && all[b] == old_all[b2]);
                assert(a2 != b2);
            }
            assert forall|j: int| 0 <= j < rest@.len() implies 0 <= #[trigger] rest_at[j] < input.len()
                && rest@[j] == input[rest_at[j]] by {
                let j2 = if j < m { j } else { j + 1 };
                assert(rest@[j] == old_rest[j2]);
            }
            assert forall|i: int, j: int| 0 <= i < j < out@.len() implies #[trigger] out@[i].sorts_no_later(
                #[trigger] &out@[j],
            ) by {
                if j < old_out.len() {
                    assert(out@[i] == old_out[i] && out@[j] == old_out[j]);
                } else {
                    assert(out@[j] == old_rest[m as int]);
                    assert(out@[i] == old_out[i]);
                }
            }
            assert forall|i: int, j: int| 0 <= i < out@.len() && 0 <= j < rest@.len() implies #[trigger] out@[i].sorts_no_later(
                #[trigger] &rest@[j],
            ) by {
                let j2 = if j < m { j } else { j + 1 };
                assert(rest@[j] == old_rest[j2]);
                if i < old_out.len() {
                    assert(out@[i] == old_out[i]);
                } else {
                    assert(out@[i] == old_rest[m as int]);
                }
            }
        }
    }
    proof {
        assert(out_at + rest_at =~= out_at);
        assert(is_index_permutation(out_at, input.len()));
    }
    out
}

} // verus!
