//! The value an address's text stands for, read as RFC 4291 and RFC 791 write
//! addresses, so that addresses can be ordered by value rather than by text.
//!
//! An address's value is the sequence of its 16-bit groups, most significant
//! first: eight for IPv6, with `::` standing for the run of zero groups it
//! replaces and a dotted decimal tail for the last two; two for IPv4. Ordered
//! lexicographically, these sequences order addresses as their numbers do.

use vstd::prelude::*;
use crate::net::{group, hex_groups, ipv4_text, ipv6_text, is_ipv4_mapped, octets_of, zero_run_scan};
use crate::text::{decimal, digit_char, hex};

verus! {

/// The value of a hexadecimal digit character, if `c` is one.
pub open spec fn hex_digit_value(c: char) -> Option<nat> {
    if '0' <= c && c <= '9' {
        Some((c as nat - '0' as nat) as nat)
    } else if 'a' <= c && c <= 'f' {
        Some((c as nat - 'a' as nat + 10) as nat)
    } else if 'A' <= c && c <= 'F' {
        Some((c as nat - 'A' as nat + 10) as nat)
    } else {
        None
    }
}

/// What has been read of an address's text so far.
pub struct AddressReading {
    /// No character so far breaks the address syntax.
    pub ok: bool,
    /// Some character has been read.
    pub started: bool,
    /// The last character read was a colon that ended a group or opened the text.
    pub colon: bool,
    /// Some colon has been read.
    pub colons: bool,
    /// A `::` has been read.
    pub compressed: bool,
    /// The groups before `::`, once it has been read.
    pub before: Seq<u16>,
    /// The groups read since `::`, or since the start where there is none.
    pub after: Seq<u16>,
    /// The dotted decimal numbers read in the current field.
    pub octets: Seq<u16>,
    /// The digits of the current number.
    pub digits: nat,
    /// The current number read as hexadecimal.
    pub hex_value: nat,
    /// The current number read as decimal.
    pub decimal_value: nat,
    /// The current number has a hexadecimal letter.
    pub hex_letter: bool,
}

/// Nothing read yet.
pub open spec fn reading_start() -> AddressReading {
    AddressReading {
        ok: true,
        started: false,
        colon: false,
        colons: false,
        compressed: false,
        before: Seq::empty(),
        after: Seq::empty(),
        octets: Seq::empty(),
        digits: 0,
        hex_value: 0,
        decimal_value: 0,
        hex_letter: false,
    }
}

/// The reading once the syntax is broken.
pub open spec fn reading_broken(s: AddressReading) -> AddressReading {
    AddressReading { ok: false, ..s }
}

/// The reading after one more character.
pub open spec fn reading_step(s: AddressReading, c: char) -> AddressReading {
    if !s.ok {
        s
    } else if hex_digit_value(c) is Some {
        let d = hex_digit_value(c)->0;
        if s.digits >= 4 || s.hex_value > 0xfff || s.decimal_value > 9999 {
            reading_broken(s)
        } else {
            AddressReading {
                started: true,
                colon: false,
                digits: s.digits + 1,
                hex_value: s.hex_value * 16 + d,
                decimal_value: s.decimal_value * 10 + d,
                hex_letter: s.hex_letter || d >= 10,
                ..s
            }
        }
    } else if c == '.' {
        if s.digits == 0 || s.digits > 3 || s.hex_letter || s.decimal_value > 255 || s.octets.len()
            >= 3 {
            reading_broken(s)
        } else {
            AddressReading {
                started: true,
                colon: false,
                octets: s.octets.push(s.decimal_value as u16),
                digits: 0,
                hex_value: 0,
                decimal_value: 0,
                hex_letter: false,
                ..s
            }
        }
    } else if c == ':' {
        if s.octets.len() > 0 {
            reading_broken(s)
        } else if s.digits > 0 {
            if s.before.len() + s.after.len() >= 8 {
                reading_broken(s)
            } else {
                AddressReading {
                    started: true,
                    colon: true,
                    colons: true,
                    after: s.after.push(s.hex_value as u16),
                    digits: 0,
                    hex_value: 0,
                    decimal_value: 0,
                    hex_letter: false,
                    ..s
                }
            }
        } else if s.colon {
            if s.compressed {
                reading_broken(s)
            } else {
                AddressReading {
                    colon: false,
                    compressed: true,
                    before: s.after,
                    after: Seq::empty(),
                    ..s
                }
            }
        } else if !s.started {
            AddressReading { started: true, colon: true, colons: true, ..s }
        } else {
            reading_broken(s)
        }
    } else {
        reading_broken(s)
    }
}

/// The reading of the whole of `t`, character by character.
pub open spec fn read_text(t: Seq<char>) -> AddressReading
    decreases t.len(),
{
    if t.len() == 0 {
        reading_start()
    } else {
        reading_step(read_text(t.drop_last()), t.last())
    }
}

/// The groups that the last field adds: one hexadecimal group, two groups
/// of a dotted decimal address, or none for an empty field.
pub open spec fn last_field_groups(s: AddressReading) -> Option<Seq<u16>> {
    if s.digits == 0 {
        if s.octets.len() == 0 {
            Some(Seq::empty())
        } else {
            None
        }
    } else if s.octets.len() == 0 {
        Some(seq![s.hex_value as u16])
    } else if s.octets.len() == 3 && s.digits <= 3 && !s.hex_letter && s.decimal_value <= 255 {
        Some(
            seq![
                (s.octets[0] * 256 + s.octets[1]) as u16,
                (s.octets[2] * 256 + s.decimal_value) as u16,
            ],
        )
    } else {
        None
    }
}

/// `n` zero groups.
pub open spec fn zero_groups(n: nat) -> Seq<u16> {
    Seq::new(n, |i: int| 0u16)
}

/// The eight groups of an IPv6 address's text, if it is one.
pub open spec fn ipv6_value(t: Seq<char>) -> Option<Seq<u16>> {
    let s = read_text(t);
    if !s.ok || s.colon {
        None
    } else {
        match last_field_groups(s) {
            None => None,
            Some(tail) => {
                let groups = s.after + tail;
                if s.compressed {
                    if s.before.len() <= 7 && groups.len() <= 7 - s.before.len() {
                        Some(
                            s.before + zero_groups((8 - s.before.len() - groups.len()) as nat)
                                + groups,
                        )
                    } else {
                        None
                    }
                } else if groups.len() == 8 {
                    Some(groups)
                } else {
                    None
                }
            },
        }
    }
}

/// The two groups of an IPv4 address's dotted decimal text, if it is one.
pub open spec fn ipv4_value(t: Seq<char>) -> Option<Seq<u16>> {
    let s = read_text(t);
    if s.ok && !s.colons && s.octets.len() == 3 {
        last_field_groups(s)
    } else {
        None
    }
}

/// Whether `a` comes strictly before `b` in lexicographic order.
pub open spec fn groups_lt(a: Seq<u16>, b: Seq<u16>) -> bool
    decreases a.len(),
{
    if a.len() == 0 {
        b.len() > 0
    } else if b.len() == 0 {
        false
    } else if a[0] != b[0] {
        a[0] < b[0]
    } else {
        groups_lt(a.drop_first(), b.drop_first())
    }
}

/// The strict order of address values: by value, and a text that is no
/// address after every one that is.
pub open spec fn value_lt(a: Option<Seq<u16>>, b: Option<Seq<u16>>) -> bool {
    match (a, b) {
        (Some(x), Some(y)) => groups_lt(x, y),
        (Some(_), None) => true,
        _ => false,
    }
}

proof fn lemma_groups_irreflexive(a: Seq<u16>)
    ensures
        !groups_lt(a, a),
    decreases a.len(),
{
    if a.len() > 0 {
        lemma_groups_irreflexive(a.drop_first());
    }
}

proof fn lemma_groups_total(a: Seq<u16>, b: Seq<u16>)
    ensures
        a != b ==> groups_lt(a, b) || groups_lt(b, a),
        !(groups_lt(a, b) && groups_lt(b, a)),
    decreases a.len(),
{
    if a.len() == 0 && b.len() == 0 {
        assert(a =~= b);
    } else if a.len() > 0 && b.len() > 0 {
        lemma_groups_total(a.drop_first(), b.drop_first());
        if a[0] == b[0] && a != b {
            assert(a =~= seq![a[0]] + a.drop_first());
            assert(b =~= seq![b[0]] + b.drop_first());
        }
    }
}

proof fn lemma_groups_transitive(a: Seq<u16>, b: Seq<u16>, c: Seq<u16>)
    requires
        groups_lt(a, b),
        groups_lt(b, c),
    ensures
        groups_lt(a, c),
    decreases a.len(),
{
    if a.len() > 0 && c.len() > 0 {
        if a[0] == b[0] && b[0] == c[0] {
            lemma_groups_transitive(a.drop_first(), b.drop_first(), c.drop_first());
        }
    }
}

/// The order of address values is a strict total order.
pub proof fn lemma_value_order(a: Option<Seq<u16>>, b: Option<Seq<u16>>, c: Option<Seq<u16>>)
    ensures
        !value_lt(a, a),
        a != b ==> value_lt(a, b) || value_lt(b, a),
        !(value_lt(a, b) && value_lt(b, a)),
        value_lt(a, b) && value_lt(b, c) ==> value_lt(a, c),
{
    if let Some(x) = a {
        lemma_groups_irreflexive(x);
        if let Some(y) = b {
            lemma_groups_total(x, y);
            if let Some(z) = c {
                if groups_lt(x, y) && groups_lt(y, z) {
                    lemma_groups_transitive(x, y, z);
                }
            }
        }
    }
}

/// Reading one more character is one more step.
proof fn lemma_read_push(s: Seq<char>, c: char)
    ensures
        read_text(s.push(c)) == reading_step(read_text(s), c),
{
    assert(s.push(c).drop_last() =~= s);
}

/// Whether a reading stands at the start of a number.
pub open spec fn at_number_start(r: AddressReading) -> bool {
    r.ok && r.digits == 0 && r.hex_value == 0 && r.decimal_value == 0 && !r.hex_letter
}

/// Reading the decimal digits of `n` from the start of a number reads `n`,
/// and changes nothing else than the number and `started` and `colon`.
proof fn lemma_read_decimal(s: Seq<char>, n: nat)
    requires
        n < 1000,
        at_number_start(read_text(s)),
    ensures
        ({
            let r = read_text(s + decimal(n));
            let r0 = read_text(s);
            &&& r.ok
            &&& r.decimal_value == n
            &&& !r.hex_letter
            &&& r.digits == decimal(n).len()
            &&& (n < 10 ==> r.digits == 1 && r.hex_value <= 9)
            &&& (10 <= n < 100 ==> r.digits == 2 && r.hex_value <= 0x99)
            &&& (100 <= n ==> r.digits == 3 && r.hex_value <= 0x999)
            &&& r.started && !r.colon
            &&& r.colons == r0.colons && r.compressed == r0.compressed
            &&& r.before == r0.before && r.after == r0.after && r.octets == r0.octets
        }),
    decreases n,
{
    let d = n % 10;
    assert(hex_digit_value(digit_char(d)) == Some(d)) by {
        assert(d < 10);
    }
    if n < 10 {
        assert(decimal(n) == seq![digit_char(n)]);
        assert(s + decimal(n) =~= s.push(digit_char(n)));
        lemma_read_push(s, digit_char(n));
    } else {
        lemma_read_decimal(s, n / 10);
        assert(decimal(n) == decimal(n / 10) + seq![digit_char(d)]);
        assert(s + decimal(n) =~= (s + decimal(n / 10)).push(digit_char(d)));
        lemma_read_push(s + decimal(n / 10), digit_char(d));
    }
}

/// Reading the hexadecimal digits of `n`, a 16-bit number, from the start of
/// a number reads `n`, and changes nothing else than the number and
/// `started` and `colon`.
proof fn lemma_read_hex(s: Seq<char>, n: nat)
    requires
        n < 65536,
        at_number_start(read_text(s)),
    ensures
        ({
            let r = read_text(s + hex(n));
            let r0 = read_text(s);
            &&& r.ok
            &&& r.hex_value == n
            &&& 0 < r.digits <= 4
            &&& (n < 4096 ==> r.digits <= 3 && r.decimal_value <= 1665)
            &&& (n < 256 ==> r.digits <= 2 && r.decimal_value <= 165)
            &&& (n < 16 ==> r.digits == 1 && r.decimal_value <= 15)
            &&& r.started && !r.colon
            &&& r.colons == r0.colons && r.compressed == r0.compressed
            &&& r.before == r0.before && r.after == r0.after && r.octets == r0.octets
        }),
    decreases n,
{
    let d = n % 16;
    assert(hex_digit_value(digit_char(d)) == Some(d)) by {
        assert(d < 16);
    }
    if n < 16 {
        assert(hex(n) == seq![digit_char(n)]);
        assert(s + hex(n) =~= s.push(digit_char(n)));
        lemma_read_push(s, digit_char(n));
    } else {
        lemma_read_hex(s, n / 16);
        assert(hex(n) == hex(n / 16) + seq![digit_char(d)]);
        assert(s + hex(n) =~= (s + hex(n / 16)).push(digit_char(d)));
        lemma_read_push(s + hex(n / 16), digit_char(d));
    }
}

/// Groups `from..to` of sixteen address bytes.
pub open spec fn groups_of(b: Seq<u8>, from: int, to: int) -> Seq<u16> {
    Seq::new((to - from) as nat, |i: int| group(b, from + i) as u16)
}

/// Reading groups `from..to` written in hexadecimal and separated by colons
/// adds all but the last to the groups read, and leaves the last as the
/// current number.
proof fn lemma_read_hex_groups(s: Seq<char>, b: Seq<u8>, from: int, to: int)
    requires
        b.len() == 16,
        0 <= from < to <= 8,
        at_number_start(read_text(s)),
        read_text(s).octets.len() == 0,
        read_text(s).before.len() + read_text(s).after.len() + (to - from) <= 8,
    ensures
        ({
            let r = read_text(s + hex_groups(b, from, to));
            let r0 = read_text(s);
            &&& r.ok
            &&& r.hex_value == group(b, to - 1)
            &&& 0 < r.digits
            &&& r.started && !r.colon
            &&& (to - from >= 2 ==> r.colons)
            &&& (to - from == 1 ==> r.colons == r0.colons)
            &&& r.compressed == r0.compressed
            &&& r.before == r0.before
            &&& r.after == r0.after + groups_of(b, from, to - 1)
            &&& r.octets == r0.octets
        }),
    decreases to - from,
{
    reveal_strlit(":");
    assert(group(b, to - 1) < 65536) by {
        assert(b[2 * (to - 1)] < 256 && b[2 * (to - 1) + 1] < 256);
    }
    if to == from + 1 {
        assert(hex_groups(b, from, to) == hex(group(b, from)));
        lemma_read_hex(s, group(b, from));
        assert(groups_of(b, from, to - 1) =~= Seq::<u16>::empty());
        assert(read_text(s).after + groups_of(b, from, to - 1) =~= read_text(s).after);
    } else {
        lemma_read_hex_groups(s, b, from, to - 1);
        let s1 = s + hex_groups(b, from, to - 1);
        let r1 = read_text(s1);
        lemma_read_push(s1, ':');
        assert(hex_digit_value(':') is None);
        let s2 = s1.push(':');
        assert(read_text(s2).after =~= read_text(s).after + groups_of(b, from, to - 1));
        lemma_read_hex(s2, group(b, to - 1));
        assert(hex_groups(b, from, to) == hex_groups(b, from, to - 1) + ":"@ + hex(group(b, to - 1)));
        assert(":"@ =~= seq![':']);
        assert(s + hex_groups(b, from, to) =~= s2 + hex(group(b, to - 1)));
    }
}

/// Reading a dot after a number of at most three decimal digits, at most
/// 255, keeps it as an octet and starts a new number.
proof fn lemma_read_dot(s: Seq<char>)
    requires
        read_text(s).ok,
        0 < read_text(s).digits <= 3,
        !read_text(s).hex_letter,
        read_text(s).decimal_value <= 255,
        read_text(s).octets.len() < 3,
    ensures
        at_number_start(read_text(s.push('.'))),
        read_text(s.push('.')).octets == read_text(s).octets.push(read_text(s).decimal_value as u16),
        read_text(s.push('.')).colons == read_text(s).colons,
        read_text(s.push('.')).compressed == read_text(s).compressed,
        read_text(s.push('.')).before == read_text(s).before,
        read_text(s.push('.')).after == read_text(s).after,
        !read_text(s.push('.')).colon,
{
    lemma_read_push(s, '.');
    assert(hex_digit_value('.') is None);
}

/// Reading the dotted decimal text of four octets from the start of a number
/// keeps the first three as octets and leaves the last as the current number.
proof fn lemma_read_dotted(s: Seq<char>, o: Seq<u8>)
    requires
        o.len() == 4,
        at_number_start(read_text(s)),
        read_text(s).octets.len() == 0,
    ensures
        ({
            let r = read_text(s + ipv4_text(o));
            let r0 = read_text(s);
            &&& r.ok
            &&& r.octets == seq![o[0] as u16, o[1] as u16, o[2] as u16]
            &&& 0 < r.digits <= 3
            &&& !r.hex_letter
            &&& r.decimal_value == o[3]
            &&& !r.colon
            &&& r.colons == r0.colons && r.compressed == r0.compressed
            &&& r.before == r0.before && r.after == r0.after
        }),
{
    reveal_strlit(".");
    let dot: Seq<char> = "."@;
    assert(dot =~= seq!['.']);
    lemma_read_decimal(s, o[0] as nat);
    let s1 = s + decimal(o[0] as nat);
    lemma_read_dot(s1);
    let s2 = s1.push('.');
    lemma_read_decimal(s2, o[1] as nat);
    let s3 = s2 + decimal(o[1] as nat);
    lemma_read_dot(s3);
    let s4 = s3.push('.');
    lemma_read_decimal(s4, o[2] as nat);
    let s5 = s4 + decimal(o[2] as nat);
    lemma_read_dot(s5);
    let s6 = s5.push('.');
    lemma_read_decimal(s6, o[3] as nat);
    let s7 = s6 + decimal(o[3] as nat);
    assert(s7 =~= s + ipv4_text(o));
    assert(read_text(s7).octets =~= seq![o[0] as u16, o[1] as u16, o[2] as u16]);
}

/// The dotted decimal text of four octets reads as their two 16-bit groups:
/// an IPv4 address's text stands for its number.
pub proof fn lemma_ipv4_text_value(o: Seq<u8>)
    requires
        o.len() == 4,
    ensures
        ipv4_value(ipv4_text(o)) == Some(
            seq![(o[0] as nat * 256 + o[1] as nat) as u16, (o[2] as nat * 256 + o[3] as nat) as u16],
        ),
{
    let e = Seq::<char>::empty();
    assert(read_text(e) == reading_start());
    lemma_read_dotted(e, o);
    assert(e + ipv4_text(o) =~= ipv4_text(o));
}

/// The longest run of zero groups that the scan finds is made of zero
/// groups and lies within the eight.
proof fn lemma_zero_run(b: Seq<u8>, i: int, start: int, len: int, best_start: int, best_len: int)
    requires
        0 <= i <= 8,
        0 <= best_len,
        0 <= best_start,
        best_start + best_len <= i,
        0 <= len <= i,
        len > 0 ==> start + len == i && 0 <= start,
        forall|j: int| best_start <= j < best_start + best_len ==> group(b, j) == 0,
        forall|j: int| start <= j < start + len ==> group(b, j) == 0,
    ensures
        ({
            let (s, l) = zero_run_scan(b, i, start, len, best_start, best_len);
            &&& 0 <= s && 0 <= l && s + l <= 8
            &&& forall|j: int| s <= j < s + l ==> group(b, j) == 0
        }),
    decreases 8 - i,
{
    if i < 8 {
        if group(b, i) == 0 {
            let s = if len == 0 { i } else { start };
            if len + 1 > best_len {
                lemma_zero_run(b, i + 1, s, len + 1, s, len + 1);
            } else {
                lemma_zero_run(b, i + 1, s, len + 1, best_start, best_len);
            }
        } else {
            lemma_zero_run(b, i + 1, 0, 0, best_start, best_len);
        }
    }
}

/// Reading `::` from the start.
proof fn lemma_read_double_colon()
    ensures
        ({
            let r = read_text(seq![':', ':']);
            &&& r.ok && r.compressed && !r.colon && r.colons && r.started
            &&& r.before.len() == 0 && r.after.len() == 0 && r.octets.len() == 0
            &&& at_number_start(r)
        }),
{
    let e = Seq::<char>::empty();
    assert(read_text(e) == reading_start());
    assert(hex_digit_value(':') is None);
    lemma_read_push(e, ':');
    lemma_read_push(e.push(':'), ':');
    assert(e.push(':').push(':') =~= seq![':', ':']);
}

/// The text of an IPv4-mapped IPv6 address reads as its eight groups.
#[verifier::spinoff_prover]
proof fn lemma_mapped_text_value(b: Seq<u8>)
    requires
        b.len() == 16,
        is_ipv4_mapped(b),
    ensures
        ipv6_value(ipv6_text(b)) == Some(groups_of(b, 0, 8)),
{
    reveal_strlit("::ffff:");
    let c2 = seq![':', ':'];
    lemma_read_double_colon();
    reveal_with_fuel(hex, 5);
    assert(hex(65535) =~= seq!['f', 'f', 'f', 'f']);
    lemma_read_hex(c2, 65535);
    let s1 = c2 + hex(65535);
    assert(hex_digit_value(':') is None);
    lemma_read_push(s1, ':');
    let s2 = s1.push(':');
    assert(read_text(s2).after =~= seq![65535u16]);
    let o = b.subrange(12, 16);
    lemma_read_dotted(s2, o);
    assert(s2 + ipv4_text(o) =~= ipv6_text(b));
    let r = read_text(s2 + ipv4_text(o));
    assert(last_field_groups(r) == Some(seq![(o[0] * 256 + o[1]) as u16, (o[2] * 256 + o[3]) as u16]));
    assert(groups_of(b, 0, 8) =~= zero_groups(5) + (seq![65535u16] + seq![
        (o[0] * 256 + o[1]) as u16,
        (o[2] * 256 + o[3]) as u16,
    ]));
}

/// The text of an IPv6 address written with `::` for its longest run of zero
/// groups reads as its eight groups.
#[verifier::spinoff_prover]
proof fn lemma_compressed_text_value(b: Seq<u8>)
    requires
        b.len() == 16,
        !is_ipv4_mapped(b),
        zero_run_scan(b, 0, 0, 0, 0, 0).1 > 1,
    ensures
        ipv6_value(ipv6_text(b)) == Some(groups_of(b, 0, 8)),
{
    reveal_strlit("::");
    let e = Seq::<char>::empty();
    assert(read_text(e) == reading_start());
    let c2 = seq![':', ':'];
    lemma_read_double_colon();
    let (st, l) = zero_run_scan(b, 0, 0, 0, 0, 0);
    lemma_zero_run(b, 0, 0, 0, 0, 0);
    let left = hex_groups(b, 0, st);
    let sm = left + "::"@;
    if st > 0 {
        lemma_read_hex_groups(e, b, 0, st);
        assert(e + left =~= left);
        assert(hex_digit_value(':') is None);
        lemma_read_push(left, ':');
        lemma_read_push(left.push(':'), ':');
        assert(left.push(':').push(':') =~= sm);
        assert(read_text(sm).before =~= groups_of(b, 0, st));
    } else {
        assert(left =~= Seq::<char>::empty());
        assert(sm =~= c2);
        assert(read_text(sm).before =~= groups_of(b, 0, st));
    }
    let rm = read_text(sm);
    assert(rm.ok && rm.compressed && !rm.colon && rm.after.len() == 0 && rm.octets.len() == 0);
    assert(at_number_start(rm));
    if st + l < 8 {
        lemma_read_hex_groups(sm, b, st + l, 8);
        assert(sm + hex_groups(b, st + l, 8) =~= ipv6_text(b));
        let r = read_text(ipv6_text(b));
        assert(r.after + seq![group(b, 7) as u16] =~= groups_of(b, st + l, 8));
        assert(groups_of(b, 0, 8) =~= groups_of(b, 0, st) + zero_groups(l as nat) + groups_of(b, st + l, 8));
    } else {
        assert(hex_groups(b, st + l, 8) =~= Seq::<char>::empty());
        assert(sm =~= ipv6_text(b));
        assert(rm.after + Seq::<u16>::empty() =~= Seq::<u16>::empty());
        assert(groups_of(b, 0, 8) =~= groups_of(b, 0, st) + zero_groups(l as nat) + Seq::<u16>::empty());
    }
}

/// The text of an IPv6 address reads as its eight groups: an IPv6 address's
/// text stands for its number.
pub proof fn lemma_ipv6_text_value(b: Seq<u8>)
    requires
        b.len() == 16,
    ensures
        ipv6_value(ipv6_text(b)) == Some(groups_of(b, 0, 8)),
{
    if is_ipv4_mapped(b) {
        lemma_mapped_text_value(b);
    } else if zero_run_scan(b, 0, 0, 0, 0, 0).1 > 1 {
        lemma_compressed_text_value(b);
    } else {
        let e = Seq::<char>::empty();
        assert(read_text(e) == reading_start());
        lemma_read_hex_groups(e, b, 0, 8);
        assert(e + hex_groups(b, 0, 8) =~= ipv6_text(b));
        let r = read_text(ipv6_text(b));
        assert(r.after + seq![group(b, 7) as u16] =~= groups_of(b, 0, 8));
    }
}

/// IPv4 addresses written as text are ordered by value as their numbers are.
pub proof fn lemma_ipv4_text_order(x: u32, y: u32)
    ensures
        value_lt(ipv4_value(ipv4_text(octets_of(x))), ipv4_value(ipv4_text(octets_of(y)))) <==> x < y,
{
    lemma_ipv4_text_value(octets_of(x));
    lemma_ipv4_text_value(octets_of(y));
    let ox = octets_of(x);
    let oy = octets_of(y);
    assert((ox[0] as nat * 256 + ox[1] as nat) as u16 == x / 65536 && (ox[2] as nat * 256 + ox[3] as nat) as u16 == x % 65536) by {
        assert(((x / 16777216) as u8) as u32 * 256 + (((x / 65536) % 256) as u8) as u32 == x / 65536
            && (((x / 256) % 256) as u8) as u32 * 256 + ((x % 256) as u8) as u32 == x % 65536) by (bit_vector);
    }
    assert((oy[0] as nat * 256 + oy[1] as nat) as u16 == y / 65536 && (oy[2] as nat * 256 + oy[3] as nat) as u16 == y % 65536) by {
        assert(((y / 16777216) as u8) as u32 * 256 + (((y / 65536) % 256) as u8) as u32 == y / 65536
            && (((y / 256) % 256) as u8) as u32 * 256 + ((y % 256) as u8) as u32 == y % 65536) by (bit_vector);
    }
    let gx = seq![(x / 65536) as u16, (x % 65536) as u16];
    let gy = seq![(y / 65536) as u16, (y % 65536) as u16];
    assert(groups_lt(gx, gy) == ((x / 65536) < (y / 65536) || ((x / 65536) == (y / 65536) && (x % 65536) < (y % 65536)))) by {
        reveal_with_fuel(groups_lt, 3);
        assert(gx.drop_first() =~= seq![(x % 65536) as u16]);
        assert(gy.drop_first() =~= seq![(y % 65536) as u16]);
        assert(gx.drop_first().drop_first() =~= Seq::<u16>::empty());
        assert(gy.drop_first().drop_first() =~= Seq::<u16>::empty());
    }
    assert(x < y <==> ((x / 65536) < (y / 65536) || ((x / 65536) == (y / 65536) && (x % 65536) < (y % 65536)))) by (bit_vector);
}

/// The value of a hexadecimal digit character.
fn hex_digit(c: char) -> (r: Option<u32>)
    ensures
        match hex_digit_value(c) {
            Some(d) => r == Some(d as u32),
            None => r is None,
        },
{
    if '0' <= c && c <= '9' {
        Some((c as u32) - ('0' as u32))
    } else if 'a' <= c && c <= 'f' {
        Some((c as u32) - ('a' as u32) + 10)
    } else if 'A' <= c && c <= 'F' {
        Some((c as u32) - ('A' as u32) + 10)
    } else {
        None
    }
}

/// Reads an address's text character by character.
struct AddressReader {
    ok: bool,
    started: bool,
    colon: bool,
    colons: bool,
    compressed: bool,
    before: Vec<u16>,
    after: Vec<u16>,
    octets: Vec<u16>,
    digits: u8,
    hex_value: u32,
    decimal_value: u32,
    hex_letter: bool,
}

impl View for AddressReader {
    type V = AddressReading;

    closed spec fn view(&self) -> AddressReading {
        AddressReading {
            ok: self.ok,
            started: self.started,
            colon: self.colon,
            colons: self.colons,
            compressed: self.compressed,
            before: self.before@,
            after: self.after@,
            octets: self.octets@,
            digits: self.digits as nat,
            hex_value: self.hex_value as nat,
            decimal_value: self.decimal_value as nat,
            hex_letter: self.hex_letter,
        }
    }
}

impl AddressReader {
    fn new() -> (r: Self)
        ensures
            r@ == reading_start(),
    {
        let r = AddressReader {
            ok: true,
            started: false,
            colon: false,
            colons: false,
            compressed: false,
            before: Vec::new(),
            after: Vec::new(),
            octets: Vec::new(),
            digits: 0,
            hex_value: 0,
            decimal_value: 0,
            hex_letter: false,
        };
        assert(r@ =~= reading_start());
        r
    }

    /// Reads one more character.
    fn read(&mut self, c: char)
        ensures
            final(self)@ == reading_step(old(self)@, c),
    {
        if !self.ok {
            return;
        }
        match hex_digit(c) {
            Some(d) => {
                if self.digits >= 4 || self.hex_value > 0xfff || self.decimal_value > 9999 {
                    self.ok = false;
                } else {
                    self.started = true;
                    self.colon = false;
                    self.digits = self.digits + 1;
                    self.hex_value = self.hex_value * 16 + d;
                    self.decimal_value = self.decimal_value * 10 + d;
                    self.hex_letter = self.hex_letter || d >= 10;
                }
                return;
            },
            None => {},
        }
        if c == '.' {
            if self.digits == 0 || self.digits > 3 || self.hex_letter || self.decimal_value > 255
                || self.octets.len() >= 3 {
                self.ok = false;
            } else {
                self.started = true;
                self.colon = false;
                self.octets.push(self.decimal_value as u16);
                self.digits = 0;
                self.hex_value = 0;
                self.decimal_value = 0;
                self.hex_letter = false;
            }
        } else if c == ':' {
            if self.octets.len() > 0 {
                self.ok = false;
            } else if self.digits > 0 {
                if self.before.len() >= 8 || self.after.len() >= 8 - self.before.len() {
                    self.ok = false;
                } else {
                    self.started = true;
                    self.colon = true;
                    self.colons = true;
                    self.after.push(self.hex_value as u16);
                    self.digits = 0;
                    self.hex_value = 0;
                    self.decimal_value = 0;
                    self.hex_letter = false;
                }
            } else if self.colon {
                if self.compressed {
                    self.ok = false;
                } else {
                    self.colon = false;
                    self.compressed = true;
                    std::mem::swap(&mut self.before, &mut self.after);
                    self.after = Vec::new();
                }
            } else if !self.started {
                self.started = true;
                self.colon = true;
                self.colons = true;
            } else {
                self.ok = false;
            }
        } else {
            self.ok = false;
        }
    }

    /// Reads the whole of `t`.
    fn read_all(t: &str) -> (r: Self)
        ensures
            r@ == read_text(t@),
    {
        let n = t.unicode_len();
        let mut r = AddressReader::new();
        let mut i: usize = 0;
        assert(t@.take(0) =~= Seq::<char>::empty());
        while i < n
            invariant
                n == t@.len(),
                i <= n,
                r@ == read_text(t@.take(i as int)),
            decreases n - i,
        {
            let c = t.get_char(i);
            r.read(c);
            assert(t@.take(i + 1).drop_last() =~= t@.take(i as int));
            i = i + 1;
        }
        assert(t@.take(n as int) =~= t@);
        r
    }

    /// The groups that the last field adds.
    fn last_field(&self) -> (r: Option<Vec<u16>>)
        ensures
            match last_field_groups(self@) {
                Some(g) => r matches Some(v) && v@ == g,
                None => r is None,
            },
    {
        if self.digits == 0 {
            if self.octets.len() == 0 {
                let v: Vec<u16> = Vec::new();
                assert(v@ =~= Seq::<u16>::empty());
                Some(v)
            } else {
                None
            }
        } else if self.octets.len() == 0 {
            let mut v: Vec<u16> = Vec::new();
            v.push(self.hex_value as u16);
            assert(v@ =~= seq![self.hex_value as u16]);
            Some(v)
        } else if self.octets.len() == 3 && self.digits <= 3 && !self.hex_letter
            && self.decimal_value <= 255 {
            let o0 = self.octets[0] as u32;
            let o1 = self.octets[1] as u32;
            let o2 = self.octets[2] as u32;
            let mut v: Vec<u16> = Vec::new();
            v.push((o0 * 256 + o1) as u16);
            v.push((o2 * 256 + self.decimal_value) as u16);
            assert(v@ =~= seq![
                (self@.octets[0] * 256 + self@.octets[1]) as u16,
                (self@.octets[2] * 256 + self@.decimal_value) as u16,
            ]);
            Some(v)
        } else {
            None
        }
    }
}

/// The eight groups of an IPv6 address's text, if it is one.
pub fn read_ipv6(t: &str) -> (r: Option<Vec<u16>>)
    ensures
        match ipv6_value(t@) {
            Some(g) => r matches Some(v) && v@ == g,
            None => r is None,
        },
{
    let s = AddressReader::read_all(t);
    if !s.ok || s.colon {
        return None;
    }
    let tail = match s.last_field() {
        Some(tail) => tail,
        None => return None,
    };
    let mut groups = s.after.clone();
    assert(groups@ =~= s.after@);
    let mut k: usize = 0;
    while k < tail.len()
        invariant
            k <= tail@.len(),
            groups@ == s@.after + tail@.take(k as int),
        decreases tail@.len() - k,
    {
        assert(tail@.take(k + 1) =~= tail@.take(k as int).push(tail@[k as int]));
        groups.push(tail[k]);
        k = k + 1;
    }
    assert(tail@.take(tail@.len() as int) =~= tail@);
    if s.compressed {
        if s.before.len() <= 7 && groups.len() <= 7 - s.before.len() {
            let mut v = s.before.clone();
            assert(v@ =~= s.before@);
            let zeros: usize = 8 - s.before.len() - groups.len();
            let mut j: usize = 0;
            while j < zeros
                invariant
                    j <= zeros,
                    v@ == s@.before + zero_groups(j as nat),
                decreases zeros - j,
            {
                v.push(0);
                assert(zero_groups((j + 1) as nat) =~= zero_groups(j as nat).push(0u16));
                j = j + 1;
            }
            let mut m: usize = 0;
            while m < groups.len()
                invariant
                    m <= groups@.len(),
                    v@ == s@.before + zero_groups(zeros as nat) + groups@.take(m as int),
                decreases groups@.len() - m,
            {
                assert(groups@.take(m + 1) =~= groups@.take(m as int).push(groups@[m as int]));
                v.push(groups[m]);
                m = m + 1;
            }
            assert(groups@.take(groups@.len() as int) =~= groups@);
            Some(v)
        } else {
            None
        }
    } else if groups.len() == 8 {
        Some(groups)
    } else {
        None
    }
}

/// The two groups of an IPv4 address's dotted decimal text, if it is one.
pub fn read_ipv4(t: &str) -> (r: Option<Vec<u16>>)
    ensures
        match ipv4_value(t@) {
            Some(g) => r matches Some(v) && v@ == g,
            None => r is None,
        },
{
    let s = AddressReader::read_all(t);
    if s.ok && !s.colons && s.octets.len() == 3 {
        s.last_field()
    } else {
        None
    }
}

/// Whether two address values are the same.
pub fn same_value(a: &Option<Vec<u16>>, b: &Option<Vec<u16>>) -> (r: bool)
    ensures
        r == (value_view(*a) == value_view(*b)),
{
    match (a, b) {
        (Some(x), Some(y)) => {
            if x.len() != y.len() {
                return false;
            }
            let mut i: usize = 0;
            while i < x.len()
                invariant
                    value_view(*a) == Some(x@),
                    value_view(*b) == Some(y@),
                    x@.len() == y@.len(),
                    i <= x@.len(),
                    x@.take(i as int) == y@.take(i as int),
                decreases x@.len() - i,
            {
                if x[i] != y[i] {
                    assert(x@[i as int] != y@[i as int]);
                    return false;
                }
                assert(x@.take(i + 1) =~= x@.take(i as int).push(x@[i as int]));
                assert(y@.take(i + 1) =~= y@.take(i as int).push(y@[i as int]));
                i = i + 1;
            }
            assert(x@.take(x@.len() as int) =~= x@);
            assert(y@.take(y@.len() as int) =~= y@);
            true
        },
        (None, None) => true,
        _ => false,
    }
}

/// The view of an address value.
pub open spec fn value_view(a: Option<Vec<u16>>) -> Option<Seq<u16>> {
    match a {
        Some(v) => Some(v@),
        None => None,
    }
}

/// Whether value `a` comes strictly before value `b`.
pub fn value_before(a: &Option<Vec<u16>>, b: &Option<Vec<u16>>) -> (r: bool)
    ensures
        r == value_lt(value_view(*a), value_view(*b)),
{
    match (a, b) {
        (Some(x), Some(y)) => {
            let mut i: usize = 0;
            assert(x@.skip(0) =~= x@);
            assert(y@.skip(0) =~= y@);
            while i < x.len() && i < y.len()
                invariant
                    value_view(*a) == Some(x@),
                    value_view(*b) == Some(y@),
                    i <= x@.len(),
                    i <= y@.len(),
                    groups_lt(x@, y@) == groups_lt(x@.skip(i as int), y@.skip(i as int)),
                decreases x@.len() - i,
            {
                if x[i] != y[i] {
                    assert(x@.skip(i as int)[0] == x@[i as int]);
                    assert(y@.skip(i as int)[0] == y@[i as int]);
                    return x[i] < y[i];
                }
                assert(x@.skip(i as int).drop_first() =~= x@.skip(i + 1));
                assert(y@.skip(i as int).drop_first() =~= y@.skip(i + 1));
                i = i + 1;
            }
            i == x.len() && i < y.len()
        },
        (Some(_), None) => true,
        _ => false,
    }
}

} // verus!
