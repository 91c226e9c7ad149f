//! Nim-sum arithmetic: the bitwise XOR of a sequence of row counts, and
//! the lemmas of classical Nim theory that the strategy rests on.

use vstd::prelude::*;

verus! {

/// The XOR of the first `n` entries of `s`.
pub open spec fn xor_prefix(s: Seq<u8>, n: int) -> u8
    decreases n,
{
    if n <= 0 {
        0
    } else {
        xor_prefix(s, n - 1) ^ s[n - 1]
    }
}

/// The nim-sum of a position: the XOR of every entry.
pub open spec fn nim_sum(s: Seq<u8>) -> u8 {
    xor_prefix(s, s.len() as int)
}

/// The highest power of two not above `d`, as a mask; `1` when `d == 0`.
pub open spec fn top_bit(d: u8) -> u8 {
    if d >= 128 {
        128
    } else if d >= 64 {
        64
    } else if d >= 32 {
        32
    } else if d >= 16 {
        16
    } else if d >= 8 {
        8
    } else if d >= 4 {
        4
    } else if d >= 2 {
        2
    } else {
        1
    }
}

/// Replacing one entry of a position XORs the old and the new entry into
/// its nim-sum; entries at or past the prefix bound leave the prefix alone.
pub proof fn lemma_xor_prefix_update(s: Seq<u8>, y: int, v: u8, n: int)
    requires
        0 <= y < s.len(),
        n <= s.len(),
    ensures
        y < n ==> xor_prefix(s.update(y, v), n) == (xor_prefix(s, n) ^ s[y]) ^ v,
        y >= n ==> xor_prefix(s.update(y, v), n) == xor_prefix(s, n),
    decreases n,
{
    let t = s.update(y, v);
    if n <= 0 {
    } else {
        lemma_xor_prefix_update(s, y, v, n - 1);
        let p = xor_prefix(s, n - 1);
        let e = s[n - 1];
        let q = s[y];
        if y < n - 1 {
            assert(t[n - 1] == e);
            assert(xor_prefix(t, n) == ((p ^ q) ^ v) ^ e);
            assert(((p ^ q) ^ v) ^ e == ((p ^ e) ^ q) ^ v) by (bit_vector);
        } else if y == n - 1 {
            assert(xor_prefix(t, n - 1) == p);
            assert(t[n - 1] == v);
            assert(p ^ v == ((p ^ e) ^ e) ^ v) by (bit_vector);
        } else {
            assert(t[n - 1] == e);
        }
    }
}

/// Replacing one entry of a position XORs the old and the new entry into
/// its nim-sum.
pub proof fn lemma_nim_sum_update(s: Seq<u8>, y: int, v: u8)
    requires
        0 <= y < s.len(),
    ensures
        nim_sum(s.update(y, v)) == (nim_sum(s) ^ s[y]) ^ v,
{
    lemma_xor_prefix_update(s, y, v, s.len() as int);
}

/// Any bit set in an XOR of entries is set in at least one entry.
pub proof fn lemma_xor_prefix_bit_witness(s: Seq<u8>, n: int, m: u8)
    requires
        0 <= n <= s.len(),
        xor_prefix(s, n) & m != 0,
    ensures
        exists|i: int| 0 <= i < n && #[trigger] (s[i] & m) != 0,
    decreases n,
{
    if n <= 0 {
        assert(0u8 & m == 0) by (bit_vector);
    } else {
        let p = xor_prefix(s, n - 1);
        let e = s[n - 1];
        assert((p ^ e) & m != 0 ==> p & m != 0 || e & m != 0) by (bit_vector);
        if e & m != 0 {
            assert(0 <= n - 1 < n && (s[n - 1] & m) != 0);
        } else {
            lemma_xor_prefix_bit_witness(s, n - 1, m);
        }
    }
}

/// For a non-zero nim-sum `d`, some entry carries `d`'s highest bit, and
/// XOR-ing `d` into such an entry strictly lowers it: the heart of the
/// existence half of Nim theory.
pub proof fn lemma_top_bit_witness(s: Seq<u8>)
    requires
        nim_sum(s) != 0,
    ensures
        exists|i: int| 0 <= i < s.len() && #[trigger] (s[i] & top_bit(nim_sum(s))) != 0,
{
    let d = nim_sum(s);
    assert(d & top_bit(d) != 0) by (bit_vector)
        requires
            d != 0,
    ;
    lemma_xor_prefix_bit_witness(s, s.len() as int, top_bit(d));
}

/// An entry that carries the highest bit of `d` shrinks when `d` is
/// XOR-ed into it.
pub proof fn lemma_xor_shrinks(x: u8, d: u8)
    by (bit_vector)
    requires
        d != 0,
        x & top_bit(d) != 0,
    ensures
        (x ^ d) < x,
{
}

} // verus!
