//! PRESENT with a 128-bit key: the key, its schedule register, and the block and ECB
//! operations under it. The schedule is the one published with the cipher for 128-bit
//! keys; the round function is shared with the 80-bit variant.
use vstd::prelude::*;

use crate::cipher::{
    crypt_block, crypt_block_spec, ecb, ecb_spec, lemma_crypt_block_round_trip,
    lemma_ecb_blocks_round_trip, par_ecb,
};
use crate::layers::{
    be_u64, bytes_to_state, fit, fit_bytes, lemma_pad, lemma_sbox_tables, pad, padded, sbox, S_BOX,
};
use crate::{CipherError, BLOCK_SIZE_IN_BYTES, NUM_ROUNDS};

verus! {

/// Length of a 128-bit key in bytes.
pub const KEY_LENGTH_IN_BYTES: usize = 16;

/// A 128-bit key.
#[derive(Clone, Copy)]
pub struct Key {
    bytes: [u8; KEY_LENGTH_IN_BYTES],
}

impl View for Key {
    type V = Seq<u8>;

    /// The sixteen key bytes.
    closed spec fn view(&self) -> Seq<u8> {
        self.bytes@
    }
}

impl Key {
    /// A key from its first sixteen bytes; a shorter input is zero-padded on the right.
    pub fn new(bytes: &[u8]) -> (k: Key)
        ensures
            k@ == fit(bytes@, 16),
    {
        Key { bytes: fit_bytes(bytes) }
    }
}

/// The 128-bit key register: `a` holds bits 127..64, `b` bits 63..0.
#[derive(Clone, Copy)]
pub struct KeyRegister {
    pub a: u64,
    pub b: u64,
}

/// The 128-bit value that the words `a` and `b` hold.
pub open spec fn reg128(a: u64, b: u64) -> u128 {
    ((a as u128) << 64u128) | (b as u128)
}

impl View for KeyRegister {
    type V = u128;

    open spec fn view(&self) -> u128 {
        reg128(self.a, self.b)
    }
}

/// The register rotated left by 61 bits.
pub open spec fn rotate128(v: u128) -> u128 {
    (v << 61u128) | (v >> 67u128)
}

/// Bits 127..124 and bits 123..120 each passed through the S-box, the other bits kept.
pub open spec fn substitute_top128(v: u128) -> u128 {
    ((sbox(((v >> 124u128) & 0xf) as u64) as u128) << 124u128) | ((sbox(
        ((v >> 120u128) & 0xf) as u64,
    ) as u128) << 120u128) | (v & 0x00ff_ffff_ffff_ffff_ffff_ffff_ffff_ffffu128)
}

/// Bits 66..62 XORed with the low five bits of the round counter.
pub open spec fn mix_counter128(v: u128, c: u64) -> u128 {
    v ^ (((c & 0x1f) as u128) << 62u128)
}

/// One step of the key schedule, with round counter `c`.
pub open spec fn advance128(v: u128, c: u64) -> u128 {
    mix_counter128(substitute_top128(rotate128(v)), c)
}

/// The register after `r` steps from `v`, step `i` with counter `i`.
pub open spec fn register128_at(v: u128, r: nat) -> u128
    decreases r,
{
    if r == 0 {
        v
    } else {
        advance128(register128_at(v, (r - 1) as nat), r as u64)
    }
}

/// The register made from a key: its sixteen bytes as one big-endian 128-bit value.
pub open spec fn key_register128(k: Seq<u8>) -> u128 {
    reg128(be_u64(k), be_u64(k.subrange(8, 16)))
}

/// The round key of a register value: its top 64 bits.
pub open spec fn round_key128(v: u128) -> u64 {
    (v >> 64u128) as u64
}

/// Round keys 0 to 31 of a key: round key `r` comes from the register after `r` steps.
pub open spec fn round_keys128(k: Seq<u8>) -> Seq<u64> {
    Seq::new(32, |r: int| round_key128(register128_at(key_register128(k), r as nat)))
}

proof fn lemma_split(v: u128)
    by (bit_vector)
    ensures
        reg128((v >> 64u128) as u64, v as u64) == v,
        round_key128(v) == (v >> 64u128) as u64,
{
}

proof fn lemma_round_key(a: u64, b: u64)
    by (bit_vector)
    ensures
        round_key128(reg128(a, b)) == a,
{
}

impl KeyRegister {
    /// The register as one 128-bit value.
    fn value(&self) -> (r: u128)
        ensures
            r == self@,
    {
        ((self.a as u128) << 64) | (self.b as u128)
    }

    /// Stores a 128-bit value in the two words.
    fn store(&mut self, v: u128)
        ensures
            final(self)@ == v,
    {
        proof {
            lemma_split(v);
        }
        self.a = (v >> 64) as u64;
        self.b = v as u64;
    }

    /// Rotates the register left by 61 bits.
    pub fn rotate(&mut self)
        ensures
            final(self)@ == rotate128(old(self)@),
    {
        let v = self.value();
        self.store((v << 61) | (v >> 67));
    }

    /// Passes the top two nibbles of the register through the S-box.
    pub fn update2(&mut self)
        ensures
            final(self)@ == substitute_top128(old(self)@),
    {
        let v = self.value();
        let hi = ((v >> 124) & 0xf) as u64;
        let lo = ((v >> 120) & 0xf) as u64;
        proof {
            assert(((v >> 124u128) & 0xf) < 16 && ((v >> 120u128) & 0xf) < 16) by (bit_vector);
            lemma_sbox_tables(hi);
            lemma_sbox_tables(lo);
        }
        let s_hi = S_BOX[hi as usize] as u128;
        let s_lo = S_BOX[lo as usize] as u128;
        self.store((s_hi << 124) | (s_lo << 120) | (v & 0x00ff_ffff_ffff_ffff_ffff_ffff_ffff_ffff));
    }

    /// XORs bits 66..62 of the register with the low five bits of `round_counter`.
    pub fn update3(&mut self, round_counter: u64)
        ensures
            final(self)@ == mix_counter128(old(self)@, round_counter),
    {
        let v = self.value();
        self.store(v ^ (((round_counter & 0x1f) as u128) << 62));
    }

    /// One step of the key schedule: rotate, substitute the top two nibbles, mix in the
    /// counter.
    pub fn update(&mut self, round_counter: u64)
        ensures
            final(self)@ == advance128(old(self)@, round_counter),
    {
        self.rotate();
        self.update2();
        self.update3(round_counter);
    }
}

impl From<Key> for KeyRegister {
    fn from(key: Key) -> (r: KeyRegister) {
        let a = bytes_to_state(key.bytes.as_slice());
        let b = bytes_to_state(vstd::slice::slice_subrange(key.bytes.as_slice(), 8, 16));
        KeyRegister { a, b }
    }
}

impl vstd::std_specs::convert::FromSpecImpl<Key> for KeyRegister {
    open spec fn obeys_from_spec() -> bool {
        true
    }

    open spec fn from_spec(key: Key) -> KeyRegister {
        register_of(key)
    }
}

/// The register that `KeyRegister::from` makes of `key`.
pub open spec fn register_of(key: Key) -> KeyRegister {
    KeyRegister { a: be_u64(key@), b: be_u64(key@.subrange(8, 16)) }
}

/// Round keys 0 to 31 of `key`, in the order encryption uses them.
pub fn round_keys(key: Key) -> (r: Vec<u64>)
    ensures
        r@ == round_keys128(key@),
{
    let mut register = KeyRegister::from(key);
    let ghost start = key_register128(key@);
    proof {
        lemma_round_key(register.a, register.b);
    }
    let mut keys: Vec<u64> = Vec::new();
    keys.push(register.a);
    for i in 0..NUM_ROUNDS
        invariant
            register@ == register128_at(start, i as nat),
            keys@ =~= Seq::new((i + 1) as nat, |r: int| round_key128(register128_at(start, r as nat))),
    {
        register.update((i + 1) as u64);
        proof {
            lemma_round_key(register.a, register.b);
        }
        keys.push(register.a);
    }
    keys
}

/// Encryption of the first block of `data` (zero-padded) under `key`.
pub open spec fn encrypt_block_spec(data: Seq<u8>, key: Seq<u8>) -> Seq<u8> {
    crypt_block_spec(fit(data, 8), round_keys128(key), false)
}

/// Decryption of the block `data` under `key`.
pub open spec fn decrypt_block_spec(data: Seq<u8>, key: Seq<u8>) -> Seq<u8> {
    crypt_block_spec(data, round_keys128(key), true)
}

/// ECB encryption of `data`, zero-padded to whole blocks, under `key`.
pub open spec fn ecb_encrypt_spec(data: Seq<u8>, key: Seq<u8>) -> Seq<u8> {
    ecb_spec(padded(data), round_keys128(key), false)
}

/// ECB decryption of block-aligned `data` under `key`.
pub open spec fn ecb_decrypt_spec(data: Seq<u8>, key: Seq<u8>) -> Seq<u8> {
    ecb_spec(data, round_keys128(key), true)
}

/// Decrypting an encrypted block under the same key gives the block back.
pub proof fn lemma_block_round_trip(x: Seq<u8>, key: Key)
    requires
        x.len() == 8,
    ensures
        decrypt_block_spec(encrypt_block_spec(x, key@), key@) == x,
{
    assert(fit(x, 8) =~= x);
    lemma_crypt_block_round_trip(x, round_keys128(key@));
}

/// Decrypting an ECB encryption under the same key gives the data back, followed by
/// the zero bytes that padding added.
pub proof fn lemma_ecb_round_trip(data: Seq<u8>, key: Key)
    ensures
        ecb_decrypt_spec(ecb_encrypt_spec(data, key@), key@) == padded(data),
{
    lemma_pad(data);
    lemma_ecb_blocks_round_trip(padded(data), round_keys128(key@));
}

/// Encrypts one block: the first eight bytes of `data`, zero-padded where it is shorter.
pub fn encrypt_block(data: &[u8], key: Key) -> (r: [u8; BLOCK_SIZE_IN_BYTES])
    ensures
        r@ == encrypt_block_spec(data@, key@),
{
    let block: [u8; BLOCK_SIZE_IN_BYTES] = fit_bytes(data);
    let keys = round_keys(key);
    crypt_block(block.as_slice(), keys.as_slice(), false)
}

/// Decrypts one block; `data` must be exactly one block long.
pub fn decrypt_block(data: &[u8], key: Key) -> (r: Result<[u8; BLOCK_SIZE_IN_BYTES], CipherError>)
    ensures
        data@.len() == 8 <==> r is Ok,
        r matches Ok(b) ==> b@ == decrypt_block_spec(data@, key@),
        r matches Err(e) ==> e == CipherError::InvalidBlockLength,
{
    if data.len() != BLOCK_SIZE_IN_BYTES {
        return Err(CipherError::InvalidBlockLength);
    }
    let keys = round_keys(key);
    Ok(crypt_block(data, keys.as_slice(), true))
}

/// Encrypts `data`, zero-padded to whole blocks, block by block.
pub fn ecb_encrypt(data: &[u8], key: Key) -> (r: Vec<u8>)
    ensures
        r@ == ecb_encrypt_spec(data@, key@),
{
    let padded = pad(data);
    let keys = round_keys(key);
    ecb(padded.as_slice(), keys.as_slice(), false)
}

/// Decrypts block-aligned `data` block by block.
pub fn ecb_decrypt(data: &[u8], key: Key) -> (r: Result<Vec<u8>, CipherError>)
    ensures
        data@.len() % 8 == 0 <==> r is Ok,
        r matches Ok(d) ==> d@ == ecb_decrypt_spec(data@, key@),
        r matches Err(e) ==> e == CipherError::InvalidBlockLength,
{
    if data.len() % BLOCK_SIZE_IN_BYTES != 0 {
        return Err(CipherError::InvalidBlockLength);
    }
    let keys = round_keys(key);
    Ok(ecb(data, keys.as_slice(), true))
}

/// Encrypts `data`, zero-padded to whole blocks, with the blocks spread over worker
/// threads; the output is that of `ecb_encrypt`.
pub fn par_ecb_encrypt(data: &[u8], key: Key) -> (r: Vec<u8>)
    ensures
        r@ == ecb_encrypt_spec(data@, key@),
{
    let padded = pad(data);
    let keys = round_keys(key);
    par_ecb(padded.as_slice(), keys.as_slice(), false)
}

/// Decrypts block-aligned `data` with the blocks spread over worker threads; the output
/// is that of `ecb_decrypt`.
pub fn par_ecb_decrypt(data: &[u8], key: Key) -> (r: Result<Vec<u8>, CipherError>)
    ensures
        data@.len() % 8 == 0 <==> r is Ok,
        r matches Ok(d) ==> d@ == ecb_decrypt_spec(data@, key@),
        r matches Err(e) ==> e == CipherError::InvalidBlockLength,
{
    if data.len() % BLOCK_SIZE_IN_BYTES != 0 {
        return Err(CipherError::InvalidBlockLength);
    }
    let keys = round_keys(key);
    Ok(par_ecb(data, keys.as_slice(), true))
}

} // verus!
