//! IPv4 addresses and netmasks as plain numbers, and the text forms of
//! IPv4 and IPv6 addresses.

use vstd::prelude::*;
use vstd::string::*;
use crate::text::{decimal, hex, push_decimal, push_hex};

verus! {

/// An IPv4 address, held as its 32-bit number in host order.
#[derive(Clone, Copy, Debug, PartialEq, Eq, Structural, Hash)]
pub struct Ipv4Addr {
    bits: u32,
}

impl View for Ipv4Addr {
    type V = u32;

    closed spec fn view(&self) -> u32 {
        self.bits
    }
}

/// The four octets of an address, most significant first.
pub open spec fn octets_of(bits: u32) -> Seq<u8> {
    seq![
        (bits / 16777216) as u8,
        ((bits / 65536) % 256) as u8,
        ((bits / 256) % 256) as u8,
        (bits % 256) as u8,
    ]
}

impl Ipv4Addr {
    /// The address `a.b.c.d`.
    pub fn new(a: u8, b: u8, c: u8, d: u8) -> (r: Ipv4Addr)
        ensures
            r@ == a as nat * 16777216 + b as nat * 65536 + c as nat * 256 + d as nat,
    {
        Ipv4Addr { bits: a as u32 * 16777216 + b as u32 * 65536 + c as u32 * 256 + d as u32 }
    }

    /// The address with the given 32-bit number.
    pub fn from_bits(bits: u32) -> (r: Ipv4Addr)
        ensures
            r@ == bits,
    {
        Ipv4Addr { bits }
    }

    /// The address's 32-bit number.
    pub fn to_bits(&self) -> (r: u32)
        ensures
            r == self@,
    {
        self.bits
    }

    /// The address's four octets, most significant first.
    pub fn octets(&self) -> (r: [u8; 4])
        ensures
            r@ == octets_of(self@),
    {
        let r = [
            (self.bits / 16777216) as u8,
            ((self.bits / 65536) % 256) as u8,
            ((self.bits / 256) % 256) as u8,
            (self.bits % 256) as u8,
        ];
        assert(r@ =~= octets_of(self@));
        r
    }
}

impl From<u32> for Ipv4Addr {
    fn from(bits: u32) -> (r: Ipv4Addr)
        ensures
            r@ == bits,
    {
        Ipv4Addr { bits }
    }
}

impl vstd::std_specs::convert::FromSpecImpl<u32> for Ipv4Addr {
    open spec fn obeys_from_spec() -> bool {
        true
    }

    closed spec fn from_spec(bits: u32) -> Ipv4Addr {
        Ipv4Addr { bits }
    }
}

/// An IPv4 netmask, held as its 32-bit number.
#[derive(Clone, Copy, Debug, PartialEq, Eq, Structural)]
pub struct Ipv4Netmask {
    netmask: u32,
}

impl View for Ipv4Netmask {
    type V = u32;

    closed spec fn view(&self) -> u32 {
        self.netmask
    }
}

impl Ipv4Netmask {
    /// The netmask with the given 32-bit number.
    pub fn new(netmask: u32) -> (r: Ipv4Netmask)
        ensures
            r@ == netmask,
    {
        Ipv4Netmask { netmask }
    }

    /// The netmask's 32-bit number.
    pub fn netmask_number(&self) -> (r: u32)
        ensures
            r == self@,
    {
        self.netmask
    }
}


/// The dotted decimal text of four octets.
pub open spec fn ipv4_text(o: Seq<u8>) -> Seq<char> {
    decimal(o[0] as nat) + "."@ + decimal(o[1] as nat) + "."@ + decimal(o[2] as nat) + "."@
        + decimal(o[3] as nat)
}

/// Appends the dotted decimal text of the first four bytes of `o`.
pub fn push_ipv4_text(s: &mut String, o: &[u8])
    requires
        o@.len() >= 4,
    ensures
        final(s)@ == old(s)@ + ipv4_text(o@),
{
    proof {
        reveal_strlit(".");
    }
    push_decimal(s, o[0] as u64);
    s.append(".");
    push_decimal(s, o[1] as u64);
    s.append(".");
    push_decimal(s, o[2] as u64);
    s.append(".");
    push_decimal(s, o[3] as u64);
    assert(s@ =~= old(s)@ + ipv4_text(o@));
}

/// The `i`th 16-bit group of sixteen address bytes.
pub open spec fn group(b: Seq<u8>, i: int) -> nat {
    b[2 * i] as nat * 256 + b[2 * i + 1] as nat
}

/// The start and length of the longest run of zero groups, the first of
/// equally long ones: a scan from group `i` with the current run and the
/// best so far.
pub open spec fn zero_run_scan(b: Seq<u8>, i: int, start: int, len: int, best_start: int, best_len: int) -> (int, int)
    decreases 8 - i,
{
    if i >= 8 {
        (best_start, best_len)
    } else if group(b, i) == 0 {
        let s = if len == 0 { i } else { start };
        if len + 1 > best_len {
            zero_run_scan(b, i + 1, s, len + 1, s, len + 1)
        } else {
            zero_run_scan(b, i + 1, s, len + 1, best_start, best_len)
        }
    } else {
        zero_run_scan(b, i + 1, 0, 0, best_start, best_len)
    }
}

/// The groups `from..to` in lower-case hexadecimal without leading zeros,
/// separated by colons.
pub open spec fn hex_groups(b: Seq<u8>, from: int, to: int) -> Seq<char>
    decreases to - from,
{
    if to <= from {
        Seq::empty()
    } else if to == from + 1 {
        hex(group(b, from))
    } else {
        hex_groups(b, from, to - 1) + ":"@ + hex(group(b, to - 1))
    }
}

/// Whether sixteen address bytes hold an IPv4 address mapped into IPv6.
pub open spec fn is_ipv4_mapped(b: Seq<u8>) -> bool {
    group(b, 0) == 0 && group(b, 1) == 0 && group(b, 2) == 0 && group(b, 3) == 0 && group(b, 4) == 0
        && group(b, 5) == 65535
}

/// The text of an IPv6 address as Rust writes it: an IPv4-mapped address as
/// `::ffff:` and its dotted decimal text; otherwise the groups in hexadecimal
/// with the longest run of two or more zero groups, the first of equally long
/// ones, written as `::`.
pub open spec fn ipv6_text(b: Seq<u8>) -> Seq<char> {
    if is_ipv4_mapped(b) {
        "::ffff:"@ + ipv4_text(b.subrange(12, 16))
    } else {
        let (start, len) = zero_run_scan(b, 0, 0, 0, 0, 0);
        if len > 1 {
            hex_groups(b, 0, start) + "::"@ + hex_groups(b, start + len, 8)
        } else {
            hex_groups(b, 0, 8)
        }
    }
}

proof fn lemma_zero_run_bounds(b: Seq<u8>, i: int, start: int, len: int, best_start: int, best_len: int)
    requires
        0 <= i <= 8,
        0 <= best_len,
        0 <= best_start,
        best_start + best_len <= i,
        0 <= len <= i,
        len > 0 ==> start + len == i && 0 <= start,
    ensures
        ({
            let (s, l) = zero_run_scan(b, i, start, len, best_start, best_len);
            0 <= s && 0 <= l && s + l <= 8
        }),
    decreases 8 - i,
{
    if i < 8 {
        if group(b, i) == 0 {
            let s = if len == 0 { i } else { start };
            if len + 1 > best_len {
                lemma_zero_run_bounds(b, i + 1, s, len + 1, s, len + 1);
            } else {
                lemma_zero_run_bounds(b, i + 1, s, len + 1, best_start, best_len);
            }
        } else {
            lemma_zero_run_bounds(b, i + 1, 0, 0, best_start, best_len);
        }
    }
}

/// Appends groups `from..to` in hexadecimal separated by colons.
fn push_hex_groups(s: &mut String, b: &[u8], from: usize, to: usize)
    requires
        b@.len() == 16,
        from <= to <= 8,
    ensures
        final(s)@ == old(s)@ + hex_groups(b@, from as int, to as int),
{
    proof {
        reveal_strlit(":");
    }
    let mut i = from;
    while i < to
        invariant
            from <= i <= to <= 8,
            b@.len() == 16,
            s@ == old(s)@ + hex_groups(b@, from as int, i as int),
        decreases to - i,
    {
        if i > from {
            s.append(":");
        }
        push_hex(s, b[2 * i] as u64 * 256 + b[2 * i + 1] as u64);
        proof {
            if i > from {
                assert(hex_groups(b@, from as int, i + 1) == hex_groups(b@, from as int, i as int) + ":"@
                    + hex(group(b@, i as int)));
            } else {
                assert(hex_groups(b@, from as int, i as int) =~= Seq::<char>::empty());
            }
        }
        i = i + 1;
    }
}

/// Appends the text of the IPv6 address held in sixteen bytes.
pub fn push_ipv6_text(s: &mut String, b: &[u8])
    requires
        b@.len() == 16,
    ensures
        final(s)@ == old(s)@ + ipv6_text(b@),
{
    proof {
        reveal_strlit("::ffff:");
        reveal_strlit("::");
    }
    let g0 = b[0] as u64 * 256 + b[1] as u64;
    let g1 = b[2] as u64 * 256 + b[3] as u64;
    let g2 = b[4] as u64 * 256 + b[5] as u64;
    let g3 = b[6] as u64 * 256 + b[7] as u64;
    let g4 = b[8] as u64 * 256 + b[9] as u64;
    let g5 = b[10] as u64 * 256 + b[11] as u64;
    if g0 == 0 && g1 == 0 && g2 == 0 && g3 == 0 && g4 == 0 && g5 == 65535 {
        s.append("::ffff:");
        let tail = [b[12], b[13], b[14], b[15]];
        push_ipv4_text(s, &tail);
        assert(tail@ =~= b@.subrange(12, 16));
        return;
    }
    // The longest run of zero groups, the first of equally long ones.
    let mut start: usize = 0;
    let mut len: usize = 0;
    let mut best_start: usize = 0;
    let mut best_len: usize = 0;
    let mut i: usize = 0;
    while i < 8
        invariant
            i <= 8,
            b@.len() == 16,
            best_start + best_len <= i,
            len <= i,
            len > 0 ==> start + len == i,
            zero_run_scan(b@, i as int, start as int, len as int, best_start as int, best_len as int)
                == zero_run_scan(b@, 0, 0, 0, 0, 0),
        decreases 8 - i,
    {
        if b[2 * i] == 0 && b[2 * i + 1] == 0 {
            if len == 0 {
                start = i;
            }
            len = len + 1;
            if len > best_len {
                best_start = start;
                best_len = len;
            }
        } else {
            start = 0;
            len = 0;
        }
        i = i + 1;
    }
    proof {
        lemma_zero_run_bounds(b@, 0, 0, 0, 0, 0);
    }
    if best_len > 1 {
        push_hex_groups(s, b, 0, best_start);
        s.append("::");
        push_hex_groups(s, b, best_start + best_len, 8);
    } else {
        push_hex_groups(s, b, 0, 8);
    }
}

} // verus!
