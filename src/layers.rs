//! The stateless layers of the cipher: substitution, bit permutation, whitening,
//! and the conversions between bytes and the 64-bit state.
use vstd::prelude::*;

use crate::BLOCK_SIZE_IN_BYTES;
use crate::bits::{
    bit, lemma_bits_determine, lemma_nibble_bound, lemma_nibbles_determine, lemma_set_bit,
    lemma_set_nibble, lemma_zero_word, nibble,
};

verus! {

/// The S-box, indexed by a 4-bit nibble.
pub const S_BOX: [u8; 16] = [0xC, 5, 6, 0xB, 9, 0, 0xA, 0xD, 3, 0xE, 0xF, 8, 4, 7, 1, 2];

/// The point inverse of `S_BOX`.
pub const INV_S_BOX: [u8; 16] = [5, 0xE, 0xF, 8, 0xC, 1, 2, 0xD, 0xB, 4, 6, 3, 0, 7, 9, 0xA];

pub open spec fn sbox(v: u64) -> u64 {
    S_BOX@[v as int] as u64
}

pub open spec fn inv_sbox(v: u64) -> u64 {
    INV_S_BOX@[v as int] as u64
}

/// Both tables map nibbles to nibbles, and the second undoes the first.
pub proof fn lemma_sbox_tables(v: u64)
    requires
        v < 16,
    ensures
        sbox(v) < 16,
        inv_sbox(v) < 16,
        inv_sbox(sbox(v)) == v,
{
    assert(S_BOX@ =~= seq![0xCu8, 5, 6, 0xB, 9, 0, 0xA, 0xD, 3, 0xE, 0xF, 8, 4, 7, 1, 2]);
    assert(INV_S_BOX@ =~= seq![5u8, 0xE, 0xF, 8, 0xC, 1, 2, 0xD, 0xB, 4, 6, 3, 0, 7, 9, 0xA]);
}

/// `x` with each of its nibbles below `n` passed through `table`, and the nibbles
/// from `n` up cleared.
pub open spec fn map_nibbles(x: u64, table: Seq<u8>, n: u64) -> u64
    decreases n,
{
    if n == 0 {
        0
    } else {
        let k = (n - 1) as u64;
        map_nibbles(x, table, k) | ((table[nibble(x, k) as int] as u64) << ((4 * k) as u64))
    }
}

/// The substitution layer: every nibble of `x` through the S-box, in place.
pub open spec fn substitute(x: u64) -> u64 {
    map_nibbles(x, S_BOX@, 16)
}

/// The inverse substitution layer: every nibble of `x` through the inverse S-box.
pub open spec fn inv_substitute(x: u64) -> u64 {
    map_nibbles(x, INV_S_BOX@, 16)
}

proof fn lemma_map_nibbles(x: u64, table: Seq<u8>, n: u64)
    requires
        n <= 16,
        table.len() == 16,
        forall|v: int| 0 <= v < 16 ==> #[trigger] table[v] < 16,
    ensures
        forall|k: u64|
            k < n ==> #[trigger] nibble(map_nibbles(x, table, n), k) == table[nibble(
                x,
                k,
            ) as int] as u64,
        forall|k: u64| n <= k < 16 ==> #[trigger] nibble(map_nibbles(x, table, n), k) == 0,
    decreases n,
{
    if n == 0 {
        lemma_zero_word();
    } else {
        let i = (n - 1) as u64;
        lemma_map_nibbles(x, table, i);
        let s = map_nibbles(x, table, i);
        lemma_nibble_bound(x, i);
        let v = table[nibble(x, i) as int] as u64;
        assert forall|k: u64| k < 16 implies #[trigger] nibble(map_nibbles(x, table, n), k) == (
        if k < n {
            table[nibble(x, k) as int] as u64
        } else {
            0
        }) by {
            lemma_set_nibble(s, v, i, k);
        }
    }
}

/// Nibble `k` of `substitute(x)` is the S-box applied to nibble `k` of `x`.
pub proof fn lemma_substitute_nibbles(x: u64)
    ensures
        forall|k: u64| k < 16 ==> #[trigger] nibble(substitute(x), k) == sbox(nibble(x, k)),
        forall|k: u64| k < 16 ==> #[trigger] nibble(inv_substitute(x), k) == inv_sbox(nibble(x, k)),
{
    assert forall|v: int| 0 <= v < 16 implies #[trigger] S_BOX@[v] < 16 && INV_S_BOX@[v] < 16 by {
        lemma_sbox_tables(v as u64);
    }
    lemma_map_nibbles(x, S_BOX@, 16);
    lemma_map_nibbles(x, INV_S_BOX@, 16);
}

/// The inverse substitution layer undoes the substitution layer.
pub proof fn lemma_inv_substitute(x: u64)
    ensures
        inv_substitute(substitute(x)) == x,
{
    let y = substitute(x);
    lemma_substitute_nibbles(x);
    lemma_substitute_nibbles(y);
    assert forall|k: u64| k < 16 implies #[trigger] nibble(inv_substitute(y), k) == nibble(x, k) by {
        lemma_nibble_bound(x, k);
        lemma_sbox_tables(nibble(x, k));
    }
    lemma_nibbles_determine(inv_substitute(y), x);
}

/// Destination of source bit `i` in the permutation layer: `16 i mod 63`, and 63 for 63.
pub open spec fn p_dest(i: u64) -> u64 {
    ((i % 4) * 16 + i / 4) as u64
}

/// Destination of source bit `j` in the inverse permutation layer.
pub open spec fn p_inv_dest(j: u64) -> u64 {
    ((j % 16) * 4 + j / 16) as u64
}

/// The destination of bit `i` in the layer (`inverse` false) or its inverse.
pub open spec fn bit_dest(i: u64, inverse: bool) -> u64 {
    if inverse {
        p_inv_dest(i)
    } else {
        p_dest(i)
    }
}

pub proof fn lemma_p_dest_bijective(i: u64)
    requires
        i < 64,
    ensures
        p_dest(i) < 64,
        p_inv_dest(i) < 64,
        p_inv_dest(p_dest(i)) == i,
        p_dest(p_inv_dest(i)) == i,
{
}

/// The bits of `x` below `n`, each moved to its destination; all other bits clear.
pub open spec fn scatter_bits(x: u64, inverse: bool, n: u64) -> u64
    decreases n,
{
    if n == 0 {
        0
    } else {
        let k = (n - 1) as u64;
        scatter_bits(x, inverse, k) | (bit(x, k) << bit_dest(k, inverse))
    }
}

/// The permutation layer: bit `i` of `x` moves to bit `p_dest(i)`.
pub open spec fn permute(x: u64) -> u64 {
    scatter_bits(x, false, 64)
}

/// The inverse permutation layer: bit `j` of `x` moves to bit `p_inv_dest(j)`.
pub open spec fn inv_permute(x: u64) -> u64 {
    scatter_bits(x, true, 64)
}

proof fn lemma_scatter_bits(x: u64, inverse: bool, n: u64)
    requires
        n <= 64,
    ensures
        forall|k: u64|
            k < n ==> #[trigger] bit(scatter_bits(x, inverse, n), bit_dest(k, inverse)) == bit(x, k),
        forall|j: u64|
            j < 64 && bit_dest(j, !inverse) >= n ==> #[trigger] bit(
                scatter_bits(x, inverse, n),
                j,
            ) == 0,
    decreases n,
{
    if n == 0 {
        lemma_zero_word();
    } else {
        let i = (n - 1) as u64;
        lemma_scatter_bits(x, inverse, i);
        let s = scatter_bits(x, inverse, i);
        let p = bit_dest(i, inverse);
        lemma_p_dest_bijective(i);
        assert(bit(x, i) <= 1) by (bit_vector);
        assert(bit(s, p) == 0);
        assert forall|k: u64| k < n implies #[trigger] bit(
            scatter_bits(x, inverse, n),
            bit_dest(k, inverse),
        ) == bit(x, k) by {
            lemma_p_dest_bijective(k);
            lemma_set_bit(s, bit(x, i), p, bit_dest(k, inverse));
        }
        assert forall|j: u64| j < 64 && bit_dest(j, !inverse) >= n implies #[trigger] bit(
            scatter_bits(x, inverse, n),
            j,
        ) == 0 by {
            lemma_p_dest_bijective(j);
            lemma_set_bit(s, bit(x, i), p, j);
        }
    }
}

/// Bit `i` of `x` is bit `p_dest(i)` of `permute(x)`, and bit `p_inv_dest(i)` of
/// `inv_permute(x)`.
pub proof fn lemma_permute_bits(x: u64)
    ensures
        forall|i: u64| i < 64 ==> #[trigger] bit(permute(x), p_dest(i)) == bit(x, i),
        forall|i: u64| i < 64 ==> #[trigger] bit(inv_permute(x), p_inv_dest(i)) == bit(x, i),
{
    lemma_scatter_bits(x, false, 64);
    lemma_scatter_bits(x, true, 64);
    assert forall|i: u64| i < 64 implies #[trigger] bit(permute(x), p_dest(i)) == bit(x, i) by {
        assert(bit_dest(i, false) == p_dest(i));
    }
    assert forall|i: u64| i < 64 implies #[trigger] bit(inv_permute(x), p_inv_dest(i)) == bit(
        x,
        i,
    ) by {
        assert(bit_dest(i, true) == p_inv_dest(i));
    }
}

/// The inverse permutation layer undoes the permutation layer.
pub proof fn lemma_inv_permute(x: u64)
    ensures
        inv_permute(permute(x)) == x,
{
    let y = permute(x);
    lemma_permute_bits(x);
    lemma_permute_bits(y);
    assert forall|i: u64| i < 64 implies #[trigger] bit(inv_permute(y), i) == bit(x, i) by {
        lemma_p_dest_bijective(i);
        assert(bit(inv_permute(y), p_inv_dest(p_dest(i))) == bit(y, p_dest(i)));
    }
    lemma_bits_determine(inv_permute(y), x);
}

/// Whitening: the state XORed with a round key.
pub open spec fn whiten(x: u64, k: u64) -> u64 {
    x ^ k
}

/// Whitening twice with the same key gives the state back.
pub proof fn lemma_whiten_self_inverse(x: u64, k: u64)
    ensures
        whiten(whiten(x, k), k) == x,
{
    assert((x ^ k) ^ k == x) by (bit_vector);
}

/// Substitution layer of the cipher.
pub fn s_box_layer(state: u64) -> (r: u64)
    ensures
        r == substitute(state),
        forall|k: u64| k < 16 ==> #[trigger] nibble(r, k) == sbox(nibble(state, k)),
{
    proof {
        lemma_substitute_nibbles(state);
    }
    let mut new_state: u64 = 0;
    for i in 0..16u64
        invariant
            new_state == map_nibbles(state, S_BOX@, i),
    {
        let shift = i * 4;
        let x = (state >> shift) & 0xf;
        proof {
            lemma_nibble_bound(state, i);
        }
        let y = S_BOX[x as usize] as u64;
        new_state = new_state | (y << shift);
    }
    new_state
}

/// Inverse substitution layer of the cipher.
pub fn inv_s_box_layer(state: u64) -> (r: u64)
    ensures
        r == inv_substitute(state),
        forall|k: u64| k < 16 ==> #[trigger] nibble(r, k) == inv_sbox(nibble(state, k)),
{
    proof {
        lemma_substitute_nibbles(state);
    }
    let mut new_state: u64 = 0;
    for i in 0..16u64
        invariant
            new_state == map_nibbles(state, INV_S_BOX@, i),
    {
        let shift = i * 4;
        let x = (state >> shift) & 0xf;
        proof {
            lemma_nibble_bound(state, i);
        }
        let y = INV_S_BOX[x as usize] as u64;
        new_state = new_state | (y << shift);
    }
    new_state
}

/// Permutation layer of the cipher.
pub fn p_layer(state: u64) -> (r: u64)
    ensures
        r == permute(state),
        forall|i: u64| i < 64 ==> #[trigger] bit(r, p_dest(i)) == bit(state, i),
{
    proof {
        lemma_permute_bits(state);
    }
    let mut new_state: u64 = 0;
    for i in 0..64u64
        invariant
            new_state == scatter_bits(state, false, i),
    {
        let dest = (i % 4) * 16 + i / 4;
        let x = (state >> i) & 1;
        new_state = new_state | (x << dest);
    }
    new_state
}

/// Inverse permutation layer of the cipher.
pub fn inv_p_layer(state: u64) -> (r: u64)
    ensures
        r == inv_permute(state),
        forall|i: u64| i < 64 ==> #[trigger] bit(r, p_inv_dest(i)) == bit(state, i),
{
    proof {
        lemma_permute_bits(state);
    }
    let mut new_state: u64 = 0;
    for i in 0..64u64
        invariant
            new_state == scatter_bits(state, true, i),
    {
        let dest = (i % 16) * 4 + i / 16;
        let x = (state >> i) & 1;
        new_state = new_state | (x << dest);
    }
    new_state
}

/// Whitening of the state with a round key.
pub fn add_round_key(state: u64, round_key: u64) -> (r: u64)
    ensures
        r == whiten(state, round_key),
{
    state ^ round_key
}

/// The big-endian value of the first eight bytes of `b`: most significant byte first,
/// and within a byte the most significant bit first.
pub open spec fn be_u64(b: Seq<u8>) -> u64 {
    ((b[0] as u64) << 56u64) | ((b[1] as u64) << 48u64) | ((b[2] as u64) << 40u64) | ((
    b[3] as u64) << 32u64) | ((b[4] as u64) << 24u64) | ((b[5] as u64) << 16u64) | ((
    b[6] as u64) << 8u64) | (b[7] as u64)
}

/// The eight bytes of `s`, most significant first.
pub open spec fn u64_be(s: u64) -> Seq<u8> {
    Seq::new(8, |i: int| (s >> ((7 - i) * 8) as u64) as u8)
}

proof fn lemma_u64_be_bytes(s: u64)
    ensures
        u64_be(s).len() == 8,
        u64_be(s)[0] == (s >> 56u64) as u8,
        u64_be(s)[1] == (s >> 48u64) as u8,
        u64_be(s)[2] == (s >> 40u64) as u8,
        u64_be(s)[3] == (s >> 32u64) as u8,
        u64_be(s)[4] == (s >> 24u64) as u8,
        u64_be(s)[5] == (s >> 16u64) as u8,
        u64_be(s)[6] == (s >> 8u64) as u8,
        u64_be(s)[7] == (s >> 0u64) as u8,
{
}

proof fn lemma_be_bytes(b0: u8, b1: u8, b2: u8, b3: u8, b4: u8, b5: u8, b6: u8, b7: u8)
    by (bit_vector)
    ensures
        ({
            let s = ((b0 as u64) << 56u64) | ((b1 as u64) << 48u64) | ((b2 as u64) << 40u64) | ((
            b3 as u64) << 32u64) | ((b4 as u64) << 24u64) | ((b5 as u64) << 16u64) | ((
            b6 as u64) << 8u64) | (b7 as u64);
            &&& (s >> 56u64) as u8 == b0
            &&& (s >> 48u64) as u8 == b1
            &&& (s >> 40u64) as u8 == b2
            &&& (s >> 32u64) as u8 == b3
            &&& (s >> 24u64) as u8 == b4
            &&& (s >> 16u64) as u8 == b5
            &&& (s >> 8u64) as u8 == b6
            &&& s as u8 == b7
        }),
{
}

/// Bytes to state and back gives the bytes.
pub proof fn lemma_bytes_state_bytes(b: Seq<u8>)
    requires
        b.len() == 8,
    ensures
        u64_be(be_u64(b)) == b,
{
    lemma_be_bytes(b[0], b[1], b[2], b[3], b[4], b[5], b[6], b[7]);
    let v = be_u64(b);
    lemma_u64_be_bytes(v);
    assert(v >> 0u64 == v) by (bit_vector);
    assert(u64_be(be_u64(b)) =~= b);
}

/// State to bytes and back gives the state.
pub proof fn lemma_state_bytes_state(s: u64)
    ensures
        be_u64(u64_be(s)) == s,
{
    lemma_u64_be_bytes(s);
    assert(s >> 0u64 == s) by (bit_vector);
    assert((((s >> 56u64) as u8 as u64) << 56u64) | (((s >> 48u64) as u8 as u64) << 48u64) | (((
    s >> 40u64) as u8 as u64) << 40u64) | (((s >> 32u64) as u8 as u64) << 32u64) | (((
    s >> 24u64) as u8 as u64) << 24u64) | (((s >> 16u64) as u8 as u64) << 16u64) | (((
    s >> 8u64) as u8 as u64) << 8u64) | (s as u8 as u64) == s) by (bit_vector);
}

/// The state whose bytes, most significant first, are the first eight of `bytes`.
pub fn bytes_to_state(bytes: &[u8]) -> (r: u64)
    requires
        bytes@.len() >= 8,
    ensures
        r == be_u64(bytes@),
{
    let mut state: u64 = 0;
    let mut i: usize = 0;
    while i < BLOCK_SIZE_IN_BYTES
        invariant
            i <= 8,
            bytes@.len() >= 8,
            state == be_prefix(bytes@, i as nat),
        decreases 8 - i,
    {
        let x = (bytes[i] as u64) << ((7 - i) * 8) as u64;
        state = state | x;
        i = i + 1;
    }
    proof {
        lemma_be_prefix(bytes@);
    }
    state
}

/// The first `n` bytes of `b` placed as in `be_u64`, the lower bytes clear.
spec fn be_prefix(b: Seq<u8>, n: nat) -> u64
    decreases n,
{
    if n == 0 {
        0
    } else {
        be_prefix(b, (n - 1) as nat) | ((b[n - 1] as u64) << ((7 - (n - 1)) * 8) as u64)
    }
}

proof fn lemma_be_prefix(b: Seq<u8>)
    requires
        b.len() >= 8,
    ensures
        be_prefix(b, 8) == be_u64(b),
{
    reveal_with_fuel(be_prefix, 9);
    let (b0, b1, b2, b3, b4, b5, b6, b7) = (b[0], b[1], b[2], b[3], b[4], b[5], b[6], b[7]);
    assert(((((((((0u64 | ((b0 as u64) << 56u64)) | ((b1 as u64) << 48u64)) | ((b2 as u64)
        << 40u64)) | ((b3 as u64) << 32u64)) | ((b4 as u64) << 24u64)) | ((b5 as u64) << 16u64))
        | ((b6 as u64) << 8u64)) | ((b7 as u64) << 0u64)) == ((b0 as u64) << 56u64) | ((b1 as u64)
        << 48u64) | ((b2 as u64) << 40u64) | ((b3 as u64) << 32u64) | ((b4 as u64) << 24u64) | ((
    b5 as u64) << 16u64) | ((b6 as u64) << 8u64) | (b7 as u64)) by (bit_vector);
}

/// The eight bytes of `state`, most significant first.
pub fn state_to_bytes(state: u64) -> (r: [u8; 8])
    ensures
        r@ == u64_be(state),
{
    let mut bytes = [0u8; 8];
    let mut i: usize = 0;
    while i < BLOCK_SIZE_IN_BYTES
        invariant
            i <= 8,
            bytes@.len() == 8,
            forall|j: int| 0 <= j < i ==> #[trigger] bytes@[j] == u64_be(state)[j],
        decreases 8 - i,
    {
        let shift = ((7 - i) * 8) as u64;
        let x = (state >> shift) & 0xff;
        proof {
            assert(x < 256 && x as u8 == (state >> shift) as u8) by (bit_vector)
                requires
                    x == (state >> shift) & 0xff,
            ;
        }
        bytes[i] = x as u8;
        i = i + 1;
    }
    assert(bytes@ =~= u64_be(state));
    bytes
}

/// How many zero bytes bring a length of `n` to a multiple of the block size.
pub open spec fn pad_len(n: nat) -> nat {
    ((8 - n % 8) % 8) as nat
}

/// `d` followed by the fewest zero bytes that make its length a multiple of 8.
pub open spec fn padded(d: Seq<u8>) -> Seq<u8> {
    d + Seq::new(pad_len(d.len()), |i: int| 0u8)
}

/// Appends zero bytes to `data` until its length is a multiple of the block size.
pub fn pad(data: &[u8]) -> (r: Vec<u8>)
    ensures
        r@ == padded(data@),
        r@.len() % 8 == 0,
{
    let mut out: Vec<u8> = Vec::new();
    out.extend_from_slice(data);
    let ghost n = data@.len();
    assert(out@ =~= data@ + Seq::new(0, |i: int| 0u8));
    while out.len() % BLOCK_SIZE_IN_BYTES != 0
        invariant
            n <= out@.len() <= n + pad_len(n),
            out@ =~= data@ + Seq::new((out@.len() - n) as nat, |i: int| 0u8),
        decreases n + pad_len(n) - out@.len(),
    {
        out.push(0);
        assert(out@ =~= data@ + Seq::new((out@.len() - n) as nat, |i: int| 0u8));
    }
    out
}

/// Padding gives a whole number of blocks that begins with the data, and padding
/// that again changes nothing.
pub proof fn lemma_pad(d: Seq<u8>)
    ensures
        padded(padded(d)) == padded(d),
        padded(d).len() % 8 == 0,
        padded(d).subrange(0, d.len() as int) == d,
{
    assert(padded(padded(d)) =~= padded(d));
    assert(padded(d).subrange(0, d.len() as int) =~= d);
}

/// The first `n` bytes of `b`, with zero bytes after its end where it is shorter.
pub open spec fn fit(b: Seq<u8>, n: nat) -> Seq<u8> {
    Seq::new(n, |i: int| if i < b.len() { b[i] } else { 0u8 })
}

/// The first `N` bytes of `data`, zero-padded where it is shorter.
pub fn fit_bytes<const N: usize>(data: &[u8]) -> (r: [u8; N])
    ensures
        r@ == fit(data@, N as nat),
{
    let mut out = [0u8; N];
    let mut i: usize = 0;
    while i < N && i < data.len()
        invariant
            i <= N,
            i <= data@.len(),
            out@.len() == N,
            forall|j: int| 0 <= j < N ==> #[trigger] out@[j] == (if j < i { data@[j] } else { 0u8 }),
        decreases N - i,
    {
        out[i] = data[i];
        i = i + 1;
    }
    assert(i == N || i == data@.len());
    assert forall|j: int| 0 <= j < N implies #[trigger] out@[j] == fit(data@, N as nat)[j] by {
        if j < i {
            assert(out@[j] == data@[j]);
        }
    }
    assert(out@ =~= fit(data@, N as nat));
    out
}

} // verus!
