//! The Internet checksum: the ones' complement of the ones' complement sum of
//! the data's 16-bit big-endian words (RFC 1071).
//!
//! The data is accumulated as big-endian 64-bit words, zero padded at the end;
//! since 2^16, 2^32 and 2^64 are all 1 modulo 65535, folding that sum gives the
//! same result as summing 16-bit words.

use vstd::prelude::*;
use vstd::arithmetic::div_mod::lemma_mod_multiples_vanish;
use super::ProtocolError;

verus! {

/// The byte at `i`, or zero past either end of `s`.
pub open spec fn byte_at(s: Seq<u8>, i: int) -> nat {
    if 0 <= i < s.len() {
        s[i] as nat
    } else {
        0
    }
}

/// The big-endian 64-bit word of `s` starting at `b`, zero padded.
pub open spec fn word64_at(s: Seq<u8>, b: int) -> nat {
    byte_at(s, b) * 72057594037927936 + byte_at(s, b + 1) * 281474976710656 + byte_at(s, b + 2)
        * 1099511627776 + byte_at(s, b + 3) * 4294967296 + byte_at(s, b + 4) * 16777216 + byte_at(
        s,
        b + 5,
    ) * 65536 + byte_at(s, b + 6) * 256 + byte_at(s, b + 7)
}

/// The sum of the first `n` big-endian 64-bit words of `s`.
pub open spec fn word64_sum(s: Seq<u8>, n: nat) -> nat
    decreases n,
{
    if n == 0 {
        0
    } else {
        word64_sum(s, (n - 1) as nat) + word64_at(s, 8 * (n - 1))
    }
}

/// The value that the checksum accumulates for `s`: the sum of its big-endian
/// 64-bit words, the last one zero padded.
pub open spec fn partial_sum(s: Seq<u8>) -> nat {
    word64_sum(s, s.len() / 8 + 1)
}

/// The big-endian 16-bit word of `s` starting at `b`, zero padded.
pub open spec fn word16_at(s: Seq<u8>, b: int) -> nat {
    byte_at(s, b) * 256 + byte_at(s, b + 1)
}

/// The sum of the first `n` big-endian 16-bit words of `s`.
pub open spec fn word16_sum(s: Seq<u8>, n: nat) -> nat
    decreases n,
{
    if n == 0 {
        0
    } else {
        word16_sum(s, (n - 1) as nat) + word16_at(s, 2 * (n - 1))
    }
}

/// The sum of all 16-bit words of `s`, an odd last byte padded with zero.
pub open spec fn word16_total(s: Seq<u8>) -> nat {
    word16_sum(s, (s.len() + 1) / 2)
}

/// `x` folded into 16 bits with end-around carry: zero for zero, otherwise the
/// number in 1..=65535 that is congruent to `x` modulo 65535.
pub open spec fn ones_fold(x: nat) -> nat {
    if x == 0 {
        0
    } else {
        ((x - 1) % 65535 + 1) as nat
    }
}

/// The checksum of an accumulated value: the complement of its fold.
pub open spec fn checksum_of(acc: nat) -> u16 {
    (65535 - ones_fold(acc)) as u16
}

/// The Internet checksum of `s` as RFC 1071 defines it.
pub open spec fn internet_checksum(s: Seq<u8>) -> u16 {
    checksum_of(word16_total(s))
}

/// An incrementally updated Internet checksum.
pub struct InternetChecksum {
    accumulator: u128,
}

impl View for InternetChecksum {
    type V = nat;

    /// The accumulated sum.
    closed spec fn view(&self) -> nat {
        self.accumulator as nat
    }
}

proof fn lemma_congruent_fold(a: nat, b: nat, e: nat)
    requires
        a == b + 65535 * e,
        b == 0 ==> e == 0,
    ensures
        ones_fold(a) == ones_fold(b),
{
    if b > 0 {
        lemma_mod_multiples_vanish(e as int, (b - 1) as int, 65535);
        assert(65535 * e + (b - 1) == a - 1);
    }
}

proof fn lemma_fold64(x: nat, q: nat, r: nat)
    requires
        x == q * 18446744073709551616 + r,
    ensures
        ones_fold(x) == ones_fold(q + r),
{
    lemma_congruent_fold(x, q + r, q * 281479271743489);
}

proof fn lemma_fold32(x: nat, q: nat, r: nat)
    requires
        x == q * 4294967296 + r,
    ensures
        ones_fold(x) == ones_fold(q + r),
{
    lemma_congruent_fold(x, q + r, q * 65537);
}

pub(crate) proof fn lemma_fold16(x: nat, q: nat, r: nat)
    requires
        x == q * 65536 + r,
    ensures
        ones_fold(x) == ones_fold(q + r),
{
    lemma_congruent_fold(x, q + r, q);
}

proof fn lemma_word64_sum_bound(s: Seq<u8>, n: nat)
    ensures
        word64_sum(s, n) <= n * 18446744073709551615,
    decreases n,
{
    if n > 0 {
        lemma_word64_sum_bound(s, (n - 1) as nat);
    }
}

/// The value accumulated for `s` is at most one full 64-bit word for each of
/// its eight-byte words, the zero-padded last one included; so data of up to
/// 2^64 bytes can be added to a checksum that holds less than 2^64.
pub proof fn lemma_partial_sum_bound(s: Seq<u8>)
    ensures
        partial_sum(s) <= (s.len() / 8 + 1) * 18446744073709551615,
{
    lemma_word64_sum_bound(s, (s.len() / 8 + 1) as nat);
}

/// Folding a sum with end-around carry: the six folds of the accumulator
/// compute `ones_fold` exactly and leave at most 16 bits.
pub(crate) fn calculate_final_result(accumulator: u128) -> (r: u16)
    ensures
        r == checksum_of(accumulator as nat),
{
    let x1 = accumulator % 0x1_0000_0000_0000_0000 + accumulator / 0x1_0000_0000_0000_0000;
    proof {
        lemma_fold64(accumulator as nat, (accumulator / 0x1_0000_0000_0000_0000) as nat, (accumulator % 0x1_0000_0000_0000_0000) as nat);
    }
    let x2 = x1 % 0x1_0000_0000_0000_0000 + x1 / 0x1_0000_0000_0000_0000;
    proof {
        lemma_fold64(x1 as nat, (x1 / 0x1_0000_0000_0000_0000) as nat, (x1 % 0x1_0000_0000_0000_0000) as nat);
    }
    let x3 = x2 % 0x1_0000_0000 + x2 / 0x1_0000_0000;
    proof {
        lemma_fold32(x2 as nat, (x2 / 0x1_0000_0000) as nat, (x2 % 0x1_0000_0000) as nat);
    }
    let x4 = x3 % 0x1_0000_0000 + x3 / 0x1_0000_0000;
    proof {
        lemma_fold32(x3 as nat, (x3 / 0x1_0000_0000) as nat, (x3 % 0x1_0000_0000) as nat);
    }
    let x5 = x4 % 0x1_0000 + x4 / 0x1_0000;
    proof {
        lemma_fold16(x4 as nat, (x4 / 0x1_0000) as nat, (x4 % 0x1_0000) as nat);
    }
    let x6 = x5 % 0x1_0000 + x5 / 0x1_0000;
    proof {
        lemma_fold16(x5 as nat, (x5 / 0x1_0000) as nat, (x5 % 0x1_0000) as nat);
        assert(x6 <= 65535);
        assert(ones_fold(x6 as nat) == x6) by {
            if x6 > 0 {
                assert((x6 - 1) % 65535 == x6 - 1);
            }
        }
    }
    (0xFFFF - x6) as u16
}

/// The byte of `data` at `start + k`, or zero past its end.
fn byte_or_zero(data: &[u8], start: usize, k: usize) -> (r: u8)
    requires
        k < 8,
    ensures
        r == byte_at(data@, start + k),
{
    if start < data.len() && k < data.len() - start {
        data[start + k]
    } else {
        0
    }
}

/// The big-endian 64-bit word of `data` starting at `start`, zero padded.
fn word64_at_exec(data: &[u8], start: usize) -> (w: u64)
    ensures
        w == word64_at(data@, start as int),
{
    byte_or_zero(data, start, 0) as u64 * 72057594037927936 + byte_or_zero(data, start, 1) as u64
        * 281474976710656 + byte_or_zero(data, start, 2) as u64 * 1099511627776 + byte_or_zero(
        data,
        start,
        3,
    ) as u64 * 4294967296 + byte_or_zero(data, start, 4) as u64 * 16777216 + byte_or_zero(
        data,
        start,
        5,
    ) as u64 * 65536 + byte_or_zero(data, start, 6) as u64 * 256 + byte_or_zero(data, start, 7) as u64
}

impl InternetChecksum {
    /// A checksum over no data.
    pub fn new() -> (r: InternetChecksum)
        ensures
            r@ == 0,
    {
        InternetChecksum { accumulator: 0 }
    }

    /// Adds `data` to the checksum.
    pub fn add(&mut self, data: &[u8]) -> (r: Result<(), ProtocolError>)
        requires
            old(self)@ + partial_sum(data@) <= u128::MAX,
        ensures
            r is Ok,
            final(self)@ == old(self)@ + partial_sum(data@),
    {
        let partial = match Self::calculate_partial_result(data) {
            Ok(p) => p,
            Err(e) => return Err(e),
        };
        self.accumulator = self.accumulator + partial;
        Ok(())
    }

    /// Removes `data`, added before, from the checksum.
    pub fn subtract(&mut self, data: &[u8]) -> (r: Result<(), ProtocolError>)
        requires
            old(self)@ >= partial_sum(data@),
        ensures
            r is Ok,
            final(self)@ == old(self)@ - partial_sum(data@),
    {
        let partial = match Self::calculate_partial_result(data) {
            Ok(p) => p,
            Err(e) => return Err(e),
        };
        self.accumulator = self.accumulator - partial;
        Ok(())
    }

    /// The checksum of the data accumulated so far.
    pub fn calculate(&self) -> (r: u16)
        ensures
            r == checksum_of(self@),
    {
        calculate_final_result(self.accumulator)
    }

    /// The Internet checksum of `data`.
    pub fn checksum(data: &[u8]) -> (r: Result<u16, ProtocolError>)
        ensures
            r == Ok::<u16, ProtocolError>(checksum_of(partial_sum(data@))),
            r == Ok::<u16, ProtocolError>(internet_checksum(data@)),
    {
        let partial = match Self::calculate_partial_result(data) {
            Ok(p) => p,
            Err(e) => return Err(e),
        };
        proof {
            lemma_checksum_is_ones_complement_sum(data@);
        }
        Ok(calculate_final_result(partial))
    }

    /// The sum of the big-endian 64-bit words of `data`, zero padded.
    fn calculate_partial_result(data: &[u8]) -> (r: Result<u128, ProtocolError>)
        ensures
            r == Ok::<u128, ProtocolError>(partial_sum(data@) as u128),
            partial_sum(data@) <= u128::MAX,
    {
        let len = data.len();
        let n = len / 8;
        let mut accumulator: u128 = 0;
        let mut i: usize = 0;
        while i <= n
            invariant
                len == data@.len(),
                n == len / 8,
                i <= n + 1,
                accumulator == word64_sum(data@, i as nat),
            decreases n + 1 - i,
        {
            proof {
                lemma_word64_sum_bound(data@, (i + 1) as nat);
            }
            assert(i * 8 <= data@.len()) by {
                assert(i <= data@.len() / 8);
            }
            let start: usize = i * 8;
            let w = word64_at_exec(data, start);
            accumulator = accumulator + w as u128;
            i = i + 1;
        }
        proof {
            lemma_word64_sum_bound(data@, (n + 1) as nat);
        }
        Ok(accumulator)
    }
}

/// The 64-bit words of `s` exceed its 16-bit words by a multiple of 65535.
pub open spec fn word_excess(s: Seq<u8>, n: nat) -> nat
    decreases n,
{
    if n == 0 {
        0
    } else {
        word_excess(s, (n - 1) as nat) + word16_at(s, 8 * (n - 1)) * 4295032833 + word16_at(
            s,
            8 * (n - 1) + 2,
        ) * 65537 + word16_at(s, 8 * (n - 1) + 4)
    }
}

proof fn lemma_words64_as_words16(s: Seq<u8>, n: nat)
    ensures
        word64_sum(s, n) == word16_sum(s, 4 * n) + 65535 * word_excess(s, n),
        word_excess(s, n) <= 4295032833 * word16_sum(s, 4 * n),
    decreases n,
{
    if n > 0 {
        let m = (n - 1) as nat;
        lemma_words64_as_words16(s, m);
        let b: int = (8 * m) as int;
        assert(word16_sum(s, 4 * n) == word16_sum(s, 4 * m) + word16_at(s, b) + word16_at(s, b + 2)
            + word16_at(s, b + 4) + word16_at(s, b + 6)) by {
            assert(word16_sum(s, 4 * m + 1) == word16_sum(s, 4 * m) + word16_at(s, b));
            assert(word16_sum(s, 4 * m + 2) == word16_sum(s, 4 * m + 1) + word16_at(s, b + 2));
            assert(word16_sum(s, 4 * m + 3) == word16_sum(s, 4 * m + 2) + word16_at(s, b + 4));
            assert(word16_sum(s, 4 * m + 4) == word16_sum(s, 4 * m + 3) + word16_at(s, b + 6));
        }
    }
}

proof fn lemma_word16_sum_padding(s: Seq<u8>, m: nat, m0: nat)
    requires
        m0 <= m,
        s.len() <= 2 * m0,
    ensures
        word16_sum(s, m) == word16_sum(s, m0),
    decreases m,
{
    if m > m0 {
        lemma_word16_sum_padding(s, (m - 1) as nat, m0);
        assert(word16_at(s, 2 * (m - 1)) == 0);
    }
}

/// The 64-bit word sum of `s` exceeds its 16-bit word sum by a multiple of
/// 65535, and by none where the 16-bit word sum is zero.
proof fn lemma_partial_sum_split(s: Seq<u8>) -> (e: nat)
    ensures
        partial_sum(s) == word16_total(s) + 65535 * e,
        word16_total(s) == 0 ==> e == 0,
{
    let n = s.len() / 8 + 1;
    lemma_words64_as_words16(s, n);
    lemma_word16_sum_padding(s, 4 * n, (s.len() + 1) / 2);
    word_excess(s, n)
}

/// RFC 1071: the checksum of the 64-bit word sum is the checksum of the ones'
/// complement sum of the data's 16-bit words.
pub proof fn lemma_checksum_is_ones_complement_sum(s: Seq<u8>)
    ensures
        checksum_of(partial_sum(s)) == internet_checksum(s),
{
    let e = lemma_partial_sum_split(s);
    lemma_congruent_fold(partial_sum(s), word16_total(s), e);
}

proof fn lemma_word16_sum_prefix(a: Seq<u8>, b: Seq<u8>, k: nat)
    requires
        2 * k <= a.len(),
    ensures
        word16_sum(a + b, k) == word16_sum(a, k),
    decreases k,
{
    if k > 0 {
        lemma_word16_sum_prefix(a, b, (k - 1) as nat);
        let i: int = 2 * (k - 1);
        assert(byte_at(a + b, i) == byte_at(a, i));
        assert(byte_at(a + b, i + 1) == byte_at(a, i + 1));
    }
}

proof fn lemma_word16_sum_suffix(a: Seq<u8>, b: Seq<u8>, j: nat)
    requires
        a.len() % 2 == 0,
    ensures
        word16_sum(a + b, a.len() / 2 + j) == word16_sum(a, a.len() / 2) + word16_sum(b, j),
    decreases j,
{
    let h: nat = a.len() / 2;
    if j == 0 {
        lemma_word16_sum_prefix(a, b, h);
    } else {
        lemma_word16_sum_suffix(a, b, (j - 1) as nat);
        let i: int = 2 * (j - 1);
        assert(byte_at(a + b, 2 * h + i) == byte_at(b, i));
        assert(byte_at(a + b, 2 * h + i + 1) == byte_at(b, i + 1));
        assert(2 * ((h + j) - 1) == 2 * h + i);
    }
}

/// The 16-bit word sum of data that follows an even number of bytes adds to
/// the sum of those bytes.
pub(crate) proof fn lemma_word16_total_append(a: Seq<u8>, b: Seq<u8>)
    requires
        a.len() % 2 == 0,
    ensures
        word16_total(a + b) == word16_total(a) + word16_total(b),
{
    lemma_word16_sum_suffix(a, b, ((b.len() + 1) / 2) as nat);
    assert((a + b).len() == a.len() + b.len());
    assert(((a + b).len() + 1) / 2 == a.len() / 2 + (b.len() + 1) / 2);
    assert((a.len() + 1) / 2 == a.len() / 2);
}

/// Adding `a` and then `b` to a checksum, `a` of even length, gives the
/// checksum of adding `a` followed by `b` at once, whatever was accumulated
/// before; from an empty checksum that is the Internet checksum of the joined
/// data. The order of the two additions does not matter.
pub proof fn lemma_add_in_turn(acc: nat, a: Seq<u8>, b: Seq<u8>)
    requires
        a.len() % 2 == 0,
    ensures
        checksum_of(acc + partial_sum(a) + partial_sum(b)) == checksum_of(acc + partial_sum(a + b)),
        checksum_of(acc + partial_sum(a) + partial_sum(b)) == checksum_of(acc + partial_sum(b) + partial_sum(a)),
        checksum_of(0 + partial_sum(a) + partial_sum(b)) == internet_checksum(a + b),
{
    let ea = lemma_partial_sum_split(a);
    let eb = lemma_partial_sum_split(b);
    let eab = lemma_partial_sum_split(a + b);
    lemma_word16_total_append(a, b);
    let x: nat = acc + word16_total(a + b);
    assert(acc + partial_sum(a) + partial_sum(b) == x + 65535 * (ea + eb)) by (nonlinear_arith)
        requires
            partial_sum(a) == word16_total(a) + 65535 * ea,
            partial_sum(b) == word16_total(b) + 65535 * eb,
            x == acc + word16_total(a) + word16_total(b),
    ;
    lemma_congruent_fold(acc + partial_sum(a) + partial_sum(b), x, ea + eb);
    lemma_congruent_fold(acc + partial_sum(a + b), x, eab);
    lemma_checksum_is_ones_complement_sum(a + b);
    lemma_congruent_fold(0 + partial_sum(a) + partial_sum(b), word16_total(a + b), ea + eb);
}

/// Data of even length followed by its own checksum, high byte first, has
/// the checksum zero.
pub proof fn lemma_checksum_of_checksummed(d: Seq<u8>)
    requires
        d.len() % 2 == 0,
    ensures
        internet_checksum(d + seq![(internet_checksum(d) / 256) as u8, (internet_checksum(d) % 256) as u8]) == 0,
{
    let c = internet_checksum(d);
    let t = seq![(c / 256) as u8, (c % 256) as u8];
    lemma_word16_total_append(d, t);
    lemma_word16_total_pair((c / 256) as u8, (c % 256) as u8);
    assert(c == (c / 256) * 256 + c % 256);
    lemma_sum_with_own_checksum(word16_total(d));
}

/// Two bytes sum to the 16-bit word they make, high byte first.
pub(crate) proof fn lemma_word16_total_pair(hi: u8, lo: u8)
    ensures
        word16_total(seq![hi, lo]) == hi as nat * 256 + lo as nat,
{
    let t = seq![hi, lo];
    assert(word16_total(t) == word16_sum(t, 1));
    assert(word16_sum(t, 0) == 0);
    assert(word16_sum(t, 1) == word16_at(t, 0));
}

/// A sum with its own checksum added has checksum zero.
pub proof fn lemma_sum_with_own_checksum(w: nat)
    ensures
        checksum_of((w + checksum_of(w)) as nat) == 0,
{
    let c = checksum_of(w);
    let total = w + c;
    if w == 0 {
        assert(total == 65535);
    } else {
        let f = ones_fold(w);
        assert(1 <= f <= 65535);
        assert(c == 65535 - f);
        let q: int = (w - 1) / 65535;
        assert(w - 1 == q * 65535 + (f - 1)) by {
            vstd::arithmetic::div_mod::lemma_fundamental_div_mod((w - 1) as int, 65535);
        }
        assert(total - 1 == (q + 1) * 65535 - 1);
        assert(((total - 1) as int) % 65535 == 65534) by {
            vstd::arithmetic::div_mod::lemma_mod_multiples_vanish(q + 1, -1, 65535);
            assert((q + 1) * 65535 + (-1) == (total - 1) as int);
        }
    }
}

/// Adding data and then subtracting the same data leaves the accumulated sum,
/// and so the checksum, as it was.
pub proof fn lemma_add_then_subtract(acc: nat, s: Seq<u8>)
    ensures
        (acc + partial_sum(s)) - partial_sum(s) == acc,
        checksum_of(((acc + partial_sum(s)) - partial_sum(s)) as nat) == checksum_of(acc),
{
}

} // verus!
