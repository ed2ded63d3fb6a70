//! Single bits and nibbles of a 64-bit word, and the facts that tie a word to them.
use vstd::prelude::*;

verus! {

/// Bit `i` of `x`, counted from the least significant bit.
pub open spec fn bit(x: u64, i: u64) -> u64 {
    (x >> i) & 1
}

/// Nibble `i` of `x` (bits `4i + 3 .. 4i`), counted from the least significant nibble.
pub open spec fn nibble(x: u64, i: u64) -> u64 {
    (x >> ((4 * i) as u64)) & 0xf
}

pub proof fn lemma_nibble_bound(x: u64, i: u64)
    ensures
        nibble(x, i) < 16,
{
    assert(((x >> ((4 * i) as u64)) & 0xf) < 16) by (bit_vector);
}

proof fn lemma_shift_step(x: u64, n: u64)
    by (bit_vector)
    requires
        n < 63,
    ensures
        x >> n == ((x >> ((n + 1) as u64)) << 1u64) | ((x >> n) & 1),
{
}

proof fn lemma_top_bit(x: u64)
    by (bit_vector)
    ensures
        x >> 63u64 == (x >> 63u64) & 1,
        x >> 0u64 == x,
{
}

proof fn lemma_high_parts_equal(a: u64, b: u64, n: u64)
    requires
        n < 64,
        forall|i: u64| i < 64 ==> #[trigger] bit(a, i) == bit(b, i),
    ensures
        a >> n == b >> n,
    decreases 64 - n,
{
    if n == 63 {
        lemma_top_bit(a);
        lemma_top_bit(b);
        assert(bit(a, 63) == bit(b, 63));
    } else {
        lemma_high_parts_equal(a, b, (n + 1) as u64);
        lemma_shift_step(a, n);
        lemma_shift_step(b, n);
        assert(bit(a, n) == bit(b, n));
    }
}

/// Two words with the same 64 bits are the same word.
pub proof fn lemma_bits_determine(a: u64, b: u64)
    requires
        forall|i: u64| i < 64 ==> #[trigger] bit(a, i) == bit(b, i),
    ensures
        a == b,
{
    lemma_high_parts_equal(a, b, 0);
    lemma_top_bit(a);
    lemma_top_bit(b);
}

proof fn lemma_bit_of_nibble(x: u64, i: u64)
    by (bit_vector)
    requires
        i < 64,
    ensures
        bit(x, i) == (nibble(x, i / 4) >> (i % 4)) & 1,
{
}

/// Two words with the same 16 nibbles are the same word.
pub proof fn lemma_nibbles_determine(a: u64, b: u64)
    requires
        forall|k: u64| k < 16 ==> #[trigger] nibble(a, k) == nibble(b, k),
    ensures
        a == b,
{
    assert forall|i: u64| i < 64 implies #[trigger] bit(a, i) == bit(b, i) by {
        lemma_bit_of_nibble(a, i);
        lemma_bit_of_nibble(b, i);
        assert(nibble(a, i / 4) == nibble(b, i / 4));
    }
    lemma_bits_determine(a, b);
}

/// Setting a clear bit `p` to `v` changes bit `p` alone.
pub proof fn lemma_set_bit(s: u64, v: u64, p: u64, k: u64)
    by (bit_vector)
    requires
        v <= 1,
        p < 64,
        k < 64,
        bit(s, p) == 0,
    ensures
        bit(s | (v << p), p) == v,
        k != p ==> bit(s | (v << p), k) == bit(s, k),
{
}

/// Setting a clear nibble `i` to `v` changes nibble `i` alone.
pub proof fn lemma_set_nibble(s: u64, v: u64, i: u64, k: u64)
    by (bit_vector)
    requires
        v < 16,
        i < 16,
        k < 16,
        nibble(s, i) == 0,
    ensures
        nibble(s | (v << ((4 * i) as u64)), i) == v,
        k != i ==> nibble(s | (v << ((4 * i) as u64)), k) == nibble(s, k),
{
}

pub proof fn lemma_zero_word()
    ensures
        forall|i: u64| #[trigger] bit(0, i) == 0,
        forall|k: u64| #[trigger] nibble(0, k) == 0,
{
    assert forall|i: u64| #[trigger] bit(0, i) == 0 by {
        assert((0u64 >> i) & 1 == 0) by (bit_vector);
    }
    assert forall|k: u64| #[trigger] nibble(0, k) == 0 by {
        assert((0u64 >> ((4 * k) as u64)) & 0xf == 0) by (bit_vector);
    }
}

} // verus!
