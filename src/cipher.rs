//! The round function, driven by a list of round keys, and the ECB drivers over it.
//! Both key sizes share all of this; they differ only in how the round keys are made.
use vstd::prelude::*;

use rayon::prelude::ParallelIterator;
use rayon::prelude::ParallelSlice;

use crate::layers::{
    add_round_key, be_u64, bytes_to_state, inv_p_layer, inv_permute, inv_s_box_layer,
    inv_substitute, lemma_bytes_state_bytes, lemma_inv_permute, lemma_state_bytes_state, lemma_inv_substitute, lemma_whiten_self_inverse,
    p_layer, permute, s_box_layer, state_to_bytes, substitute, u64_be, whiten,
};
use crate::{BLOCK_SIZE_IN_BYTES, NUM_ROUNDS};

verus! {

/// Number of round keys: one per full round and one for the final whitening.
pub open spec fn num_round_keys() -> nat {
    32
}

/// One full round: whiten with `k`, substitute, permute.
pub open spec fn round(x: u64, k: u64) -> u64 {
    permute(substitute(whiten(x, k)))
}

/// One round undone: inverse permute, inverse substitute, whiten with `k`.
pub open spec fn inv_round(x: u64, k: u64) -> u64 {
    whiten(inv_substitute(inv_permute(x)), k)
}

/// The first `n` full rounds applied to `x`, round `i` with round key `i`.
pub open spec fn rounds(x: u64, rks: Seq<u64>, n: nat) -> u64
    decreases n,
{
    if n == 0 {
        x
    } else {
        round(rounds(x, rks, (n - 1) as nat), rks[n - 1])
    }
}

/// Rounds `n - 1` down to 0 undone, starting from `x`.
pub open spec fn inv_rounds(x: u64, rks: Seq<u64>, n: nat) -> u64
    decreases n,
{
    if n == 0 {
        x
    } else {
        inv_rounds(inv_round(x, rks[n - 1]), rks, (n - 1) as nat)
    }
}

/// Encryption of a state: 31 full rounds, then whitening with round key 31.
pub open spec fn encrypt_state(x: u64, rks: Seq<u64>) -> u64 {
    whiten(rounds(x, rks, 31), rks[31])
}

/// Decryption of a state: whitening with round key 31, then rounds 30 down to 0 undone.
pub open spec fn decrypt_state(y: u64, rks: Seq<u64>) -> u64 {
    inv_rounds(whiten(y, rks[31]), rks, 31)
}

proof fn lemma_inv_rounds_rounds(x: u64, rks: Seq<u64>, n: nat)
    ensures
        inv_rounds(rounds(x, rks, n), rks, n) == x,
    decreases n,
{
    if n > 0 {
        let m = (n - 1) as nat;
        let y = rounds(x, rks, m);
        let k = rks[m as int];
        lemma_inv_permute(substitute(whiten(y, k)));
        lemma_inv_substitute(whiten(y, k));
        lemma_whiten_self_inverse(y, k);
        assert(inv_round(round(y, k), k) == y);
        lemma_inv_rounds_rounds(x, rks, m);
    }
}

/// Decrypting an encrypted state with the same round keys gives the state back.
pub proof fn lemma_decrypt_encrypt_state(x: u64, rks: Seq<u64>)
    requires
        rks.len() == num_round_keys(),
    ensures
        decrypt_state(encrypt_state(x, rks), rks) == x,
{
    lemma_whiten_self_inverse(rounds(x, rks, 31), rks[31]);
    lemma_inv_rounds_rounds(x, rks, 31);
}

/// Decrypting an encrypted block with the same round keys gives the block back.
pub proof fn lemma_crypt_block_round_trip(x: Seq<u8>, rks: Seq<u64>)
    requires
        x.len() == 8,
        rks.len() == num_round_keys(),
    ensures
        crypt_block_spec(crypt_block_spec(x, rks, false), rks, true) == x,
{
    let e = encrypt_state(be_u64(x), rks);
    lemma_state_bytes_state(e);
    lemma_decrypt_encrypt_state(be_u64(x), rks);
    lemma_bytes_state_bytes(x);
}

/// Encrypts one state with the given round keys.
pub fn encrypt(state: u64, round_keys: &[u64]) -> (r: u64)
    requires
        round_keys@.len() == num_round_keys(),
    ensures
        r == encrypt_state(state, round_keys@),
{
    let mut state = state;
    let ghost x = state;
    for i in 0..NUM_ROUNDS
        invariant
            round_keys@.len() == num_round_keys(),
            state == rounds(x, round_keys@, i as nat),
    {
        state = add_round_key(state, round_keys[i]);
        state = s_box_layer(state);
        state = p_layer(state);
    }
    add_round_key(state, round_keys[NUM_ROUNDS])
}

/// Decrypts one state with the given round keys, using them in reverse order.
pub fn decrypt(state: u64, round_keys: &[u64]) -> (r: u64)
    requires
        round_keys@.len() == num_round_keys(),
    ensures
        r == decrypt_state(state, round_keys@),
{
    let ghost y = state;
    let mut state = add_round_key(state, round_keys[NUM_ROUNDS]);
    let mut i: usize = NUM_ROUNDS;
    while i > 0
        invariant
            i <= NUM_ROUNDS,
            round_keys@.len() == num_round_keys(),
            inv_rounds(state, round_keys@, i as nat) == decrypt_state(y, round_keys@),
        decreases i,
    {
        i = i - 1;
        state = inv_p_layer(state);
        state = inv_s_box_layer(state);
        state = add_round_key(state, round_keys[i]);
    }
    state
}

/// A block of eight bytes encrypted (or, with `decrypt`, decrypted) with the round keys.
pub open spec fn crypt_block_spec(b: Seq<u8>, rks: Seq<u64>, decrypt: bool) -> Seq<u8> {
    if decrypt {
        u64_be(decrypt_state(be_u64(b), rks))
    } else {
        u64_be(encrypt_state(be_u64(b), rks))
    }
}

/// Block `i` of `d`: bytes `8i .. 8i + 8`.
pub open spec fn block_of(d: Seq<u8>, i: int) -> Seq<u8> {
    d.subrange(8 * i, 8 * i + 8)
}

/// The first `n` blocks of `d`, each encrypted or decrypted on its own.
pub open spec fn crypted_blocks(d: Seq<u8>, rks: Seq<u64>, decrypt: bool, n: nat) -> Seq<
    Seq<u8>,
> {
    Seq::new(n, |i: int| crypt_block_spec(block_of(d, i), rks, decrypt))
}

/// ECB over block-aligned `d`: each block encrypted or decrypted on its own, the results
/// concatenated in block order.
pub open spec fn ecb_spec(d: Seq<u8>, rks: Seq<u64>, decrypt: bool) -> Seq<u8> {
    crypted_blocks(d, rks, decrypt, d.len() / 8).flatten()
}

/// Encrypts or decrypts the first eight bytes of `block`.
pub fn crypt_block(block: &[u8], round_keys: &[u64], decrypt: bool) -> (r: [u8; 8])
    requires
        block@.len() >= 8,
        round_keys@.len() == num_round_keys(),
    ensures
        r@ == crypt_block_spec(block@, round_keys@, decrypt),
{
    let state = bytes_to_state(block);
    let out = if decrypt {
        self::decrypt(state, round_keys)
    } else {
        self::encrypt(state, round_keys)
    };
    state_to_bytes(out)
}

proof fn lemma_crypted_blocks_push(d: Seq<u8>, rks: Seq<u64>, decrypt: bool, n: nat)
    ensures
        crypted_blocks(d, rks, decrypt, n + 1).flatten() == crypted_blocks(
            d,
            rks,
            decrypt,
            n,
        ).flatten() + crypt_block_spec(block_of(d, n as int), rks, decrypt),
{
    let s = crypted_blocks(d, rks, decrypt, n);
    let b = crypt_block_spec(block_of(d, n as int), rks, decrypt);
    assert(crypted_blocks(d, rks, decrypt, n + 1) =~= s.push(b));
    s.lemma_flatten_push(b);
}

/// Concatenating eight-byte blocks gives a sequence whose block `i` is block `i`.
proof fn lemma_flatten_blocks(s: Seq<Seq<u8>>)
    requires
        forall|i: int| 0 <= i < s.len() ==> (#[trigger] s[i]).len() == 8,
    ensures
        s.flatten().len() == 8 * s.len(),
        forall|i: int| 0 <= i < s.len() ==> #[trigger] block_of(s.flatten(), i) == s[i],
    decreases s.len(),
{
    if s.len() > 0 {
        let init = s.drop_last();
        let last = s.last();
        lemma_flatten_blocks(init);
        assert(init.push(last) =~= s);
        init.lemma_flatten_push(last);
        let f = s.flatten();
        assert(f == init.flatten() + last);
        assert forall|i: int| 0 <= i < s.len() implies #[trigger] block_of(f, i) == s[i] by {
            if i < s.len() - 1 {
                assert(block_of(init.flatten(), i) == init[i]);
                assert(block_of(f, i) =~= block_of(init.flatten(), i));
            } else {
                assert(block_of(f, i) =~= last);
            }
        }
    }
}

/// A block-aligned sequence is the concatenation of its blocks.
proof fn lemma_blocks_flatten(d: Seq<u8>)
    requires
        d.len() % 8 == 0,
    ensures
        Seq::new(d.len() / 8, |i: int| block_of(d, i)).flatten() == d,
{
    let u = Seq::new(d.len() / 8, |i: int| block_of(d, i));
    lemma_flatten_blocks(u);
    let f = u.flatten();
    assert forall|j: int| 0 <= j < d.len() implies #[trigger] f[j] == d[j] by {
        let i = j / 8;
        assert(block_of(f, i) == block_of(d, i));
        assert(block_of(f, i)[j % 8] == f[j]);
    }
    assert(f =~= d);
}

/// Decrypting an ECB encryption of block-aligned data with the same round keys gives
/// the data back.
pub proof fn lemma_ecb_blocks_round_trip(d: Seq<u8>, rks: Seq<u64>)
    requires
        d.len() % 8 == 0,
        rks.len() == num_round_keys(),
    ensures
        ecb_spec(ecb_spec(d, rks, false), rks, true) == d,
{
    let n = d.len() / 8;
    let enc = crypted_blocks(d, rks, false, n);
    assert forall|i: int| 0 <= i < enc.len() implies (#[trigger] enc[i]).len() == 8 by {
        let b = encrypt_state(be_u64(block_of(d, i)), rks);
        assert(u64_be(b).len() == 8);
    }
    lemma_flatten_blocks(enc);
    let e = ecb_spec(d, rks, false);
    let dec = crypted_blocks(e, rks, true, e.len() / 8);
    assert forall|i: int| 0 <= i < n implies #[trigger] dec[i] == block_of(d, i) by {
        lemma_crypt_block_round_trip(block_of(d, i), rks);
    }
    assert(dec =~= Seq::new(n, |i: int| block_of(d, i)));
    lemma_blocks_flatten(d);
}

/// Encrypts or decrypts each block of block-aligned `data` on its own, in order.
pub fn ecb(data: &[u8], round_keys: &[u64], decrypt: bool) -> (r: Vec<u8>)
    requires
        data@.len() % 8 == 0,
        round_keys@.len() == num_round_keys(),
    ensures
        r@ == ecb_spec(data@, round_keys@, decrypt),
{
    let mut out: Vec<u8> = Vec::new();
    let n = data.len() / BLOCK_SIZE_IN_BYTES;
    for i in 0..n
        invariant
            n == data@.len() / 8,
            data@.len() % 8 == 0,
            data@.len() <= usize::MAX,
            round_keys@.len() == num_round_keys(),
            out@ == crypted_blocks(data@, round_keys@, decrypt, i as nat).flatten(),
    {
        proof {
            assert(8 * i + 8 <= data@.len()) by (nonlinear_arith)
                requires
                    i < n,
                    n == data@.len() / 8,
            ;
        }
        let start = i * BLOCK_SIZE_IN_BYTES;
        let block = vstd::slice::slice_subrange(data, start, start + BLOCK_SIZE_IN_BYTES);
        let crypted = crypt_block(block, round_keys, decrypt);
        proof {
            assert(block@ == block_of(data@, i as int));
            lemma_crypted_blocks_push(data@, round_keys@, decrypt, i as nat);
        }
        out.extend_from_slice(crypted.as_slice());
    }
    out
}

/// Relies on rayon's `par_chunks`, whose chunks of a block-aligned slice are its blocks
/// in order, and on `collect` into a `Vec`, which keeps that order.
#[verifier::external_body]
fn par_crypt_blocks(data: &[u8], round_keys: &[u64], decrypt: bool) -> (r: Vec<[u8; 8]>)
    requires
        data@.len() % 8 == 0,
        round_keys@.len() == num_round_keys(),
    ensures
        r@.len() == data@.len() / 8,
        forall|i: int|
            0 <= i < r@.len() ==> (#[trigger] r@[i])@ == crypt_block_spec(
                block_of(data@, i),
                round_keys@,
                decrypt,
            ),
{
    data.par_chunks(BLOCK_SIZE_IN_BYTES).map(|block| crypt_block(block, round_keys, decrypt)).collect()
}

/// Encrypts or decrypts the blocks of block-aligned `data` in parallel; the result is
/// the same as that of `ecb`.
pub fn par_ecb(data: &[u8], round_keys: &[u64], decrypt: bool) -> (r: Vec<u8>)
    requires
        data@.len() % 8 == 0,
        round_keys@.len() == num_round_keys(),
    ensures
        r@ == ecb_spec(data@, round_keys@, decrypt),
{
    let blocks = par_crypt_blocks(data, round_keys, decrypt);
    let mut out: Vec<u8> = Vec::new();
    for i in 0..blocks.len()
        invariant
            blocks@.len() == data@.len() / 8,
            forall|j: int|
                0 <= j < blocks@.len() ==> (#[trigger] blocks@[j])@ == crypt_block_spec(
                    block_of(data@, j),
                    round_keys@,
                    decrypt,
                ),
            out@ == crypted_blocks(data@, round_keys@, decrypt, i as nat).flatten(),
    {
        proof {
            lemma_crypted_blocks_push(data@, round_keys@, decrypt, i as nat);
        }
        out.extend_from_slice(blocks[i].as_slice());
    }
    out
}

} // verus!
