//! PRESENT with an 80-bit key: the key, its schedule register, and the block and ECB
//! operations under it.
use vstd::prelude::*;

use crate::cipher::{
    crypt_block, crypt_block_spec, ecb, ecb_spec, lemma_crypt_block_round_trip,
    lemma_ecb_blocks_round_trip, par_ecb,
};
use crate::layers::{
    be_u64, bytes_to_state, fit, fit_bytes, lemma_pad, lemma_sbox_tables, pad, padded, sbox, S_BOX,
};
use crate::{CipherError, BLOCK_SIZE_IN_BYTES, NUM_ROUNDS};

verus! {

/// Length of an 80-bit key in bytes.
pub const KEY_LENGTH_IN_BYTES: usize = 10;

/// An 80-bit key.
#[derive(Clone, Copy)]
pub struct Key {
    bytes: [u8; KEY_LENGTH_IN_BYTES],
}

impl View for Key {
    type V = Seq<u8>;

    /// The ten key bytes.
    closed spec fn view(&self) -> Seq<u8> {
        self.bytes@
    }
}

impl Key {
    /// A key from its first ten bytes; a shorter input is zero-padded on the right.
    pub fn new(bytes: &[u8]) -> (k: Key)
        ensures
            k@ == fit(bytes@, 10),
    {
        Key { bytes: fit_bytes(bytes) }
    }
}

/// The 80-bit key register: `a` holds bits 79..16, `b` bits 15..0 in its top 16 bits.
#[derive(Clone, Copy)]
pub struct KeyRegister {
    pub a: u64,
    pub b: u64,
}

/// The 80-bit value that the words `a` and `b` hold.
pub open spec fn reg80(a: u64, b: u64) -> u128 {
    ((a as u128) << 16u128) | ((b >> 48u64) as u128)
}

impl View for KeyRegister {
    type V = u128;

    open spec fn view(&self) -> u128 {
        reg80(self.a, self.b)
    }
}

/// The 80-bit value rotated left by 61 bits.
pub open spec fn rotate80(v: u128) -> u128 {
    ((v << 61u128) | (v >> 19u128)) & 0xffff_ffff_ffff_ffff_ffffu128
}

/// Bits 79..76 passed through the S-box, the other bits kept.
pub open spec fn substitute_top80(v: u128) -> u128 {
    ((sbox((v >> 76u128) as u64) as u128) << 76u128) | (v & 0x0fff_ffff_ffff_ffff_ffffu128)
}

/// Bits 19..15 XORed with the low five bits of the round counter.
pub open spec fn mix_counter80(v: u128, c: u64) -> u128 {
    v ^ (((c & 0x1f) as u128) << 15u128)
}

/// One step of the key schedule, with round counter `c`.
pub open spec fn advance80(v: u128, c: u64) -> u128 {
    mix_counter80(substitute_top80(rotate80(v)), c)
}

/// The register after `r` steps from `v`, step `i` with counter `i`.
pub open spec fn register80_at(v: u128, r: nat) -> u128
    decreases r,
{
    if r == 0 {
        v
    } else {
        advance80(register80_at(v, (r - 1) as nat), r as u64)
    }
}

/// The register made from a key: its ten bytes as one big-endian 80-bit value.
pub open spec fn key_register80(k: Seq<u8>) -> u128 {
    ((be_u64(k) as u128) << 16u128) | ((k[8] as u128) << 8u128) | (k[9] as u128)
}

/// The round key of a register value: its top 64 bits.
pub open spec fn round_key80(v: u128) -> u64 {
    (v >> 16u128) as u64
}

/// Round keys 0 to 31 of a key: round key `r` comes from the register after `r` steps.
pub open spec fn round_keys80(k: Seq<u8>) -> Seq<u64> {
    Seq::new(32, |r: int| round_key80(register80_at(key_register80(k), r as nat)))
}

proof fn lemma_rotate(a: u64, b: u64)
    by (bit_vector)
    ensures
        ({
            let w = a & 0xffff_ffff_fff8_0000u64;
            let x = a & 0x0000_0000_0007_fff8u64;
            let y = a & 0x7u64;
            let z = b & 0xffff_0000_0000_0000u64;
            let na = (y << 61u64) | (z >> 3u64) | (w >> 19u64);
            let nb = x << 45u64;
            &&& reg80(na, nb) == rotate80(reg80(a, b))
            &&& nb & 0xffff_ffff_ffffu64 == 0
        }),
{
}

proof fn lemma_substitute_top(a: u64, b: u64, s: u64)
    by (bit_vector)
    requires
        s < 16,
    ensures
        (reg80(a, b) >> 76u128) as u64 == (a >> 60u64) & 0xf,
        reg80((s << 60u64) | (a & 0x0fff_ffff_ffff_ffffu64), b) == ((s as u128) << 76u128) | (
        reg80(a, b) & 0x0fff_ffff_ffff_ffff_ffffu128),
{
}

proof fn lemma_mix_counter(a: u64, b: u64, c: u64)
    by (bit_vector)
    ensures
        ({
            let w = (a & 0xf) << 1u64;
            let x = (b >> 63u64) & 1;
            let z = (w | x) ^ c;
            let na = ((z & 0x1e) >> 1u64) | (a & 0xffff_ffff_ffff_fff0u64);
            let nb = ((z & 1) << 63u64) | (b & 0x7fff_ffff_ffff_ffffu64);
            &&& reg80(na, nb) == mix_counter80(reg80(a, b), c)
            &&& nb & 0xffff_ffff_ffffu64 == b & 0xffff_ffff_ffffu64
        }),
{
}

proof fn lemma_round_key(a: u64, b: u64)
    by (bit_vector)
    ensures
        round_key80(reg80(a, b)) == a,
{
}

proof fn lemma_key_register(a: u64, k8: u8, k9: u8)
    by (bit_vector)
    ensures
        ({
            let b = ((k8 as u64) << 56u64) | ((k9 as u64) << 48u64);
            &&& reg80(a, b) == ((a as u128) << 16u128) | ((k8 as u128) << 8u128) | (k9 as u128)
            &&& b & 0xffff_ffff_ffffu64 == 0
        }),
{
}

impl KeyRegister {
    /// `b` holds nothing below its top 16 bits.
    pub open spec fn wf(&self) -> bool {
        self.b & 0xffff_ffff_ffffu64 == 0
    }

    /// Rotates the 80-bit register left by 61 bits.
    pub fn rotate(&mut self)
        ensures
            final(self).wf(),
            final(self)@ == rotate80(old(self)@),
    {
        let w = self.a & 0xffff_ffff_fff8_0000;
        let x = self.a & 0x0000_0000_0007_fff8;
        let y = self.a & 0x7;
        let z = self.b & 0xffff_0000_0000_0000;
        proof {
            lemma_rotate(self.a, self.b);
        }
        self.a = (y << 61) | (z >> 3) | (w >> 19);
        self.b = x << 45;
    }

    /// Passes the top nibble of the register through the S-box.
    pub fn update2(&mut self)
        ensures
            final(self).b == old(self).b,
            final(self)@ == substitute_top80(old(self)@),
    {
        let a = self.a;
        let w = (a >> 60) & 0xf;
        proof {
            assert(((a >> 60u64) & 0xf) < 16) by (bit_vector);
            lemma_sbox_tables(w);
            lemma_substitute_top(self.a, self.b, sbox(w));
        }
        let x = S_BOX[w as usize];
        let y = (x as u64) << 60;
        let z = self.a & 0x0fff_ffff_ffff_ffff;
        self.a = y | z;
    }

    /// XORs bits 19..15 of the register with the low five bits of `round_counter`.
    pub fn update3(&mut self, round_counter: u64)
        ensures
            final(self).b & 0xffff_ffff_ffffu64 == old(self).b & 0xffff_ffff_ffffu64,
            final(self)@ == mix_counter80(old(self)@, round_counter),
    {
        let w = (self.a & 0xf) << 1;
        let x = (self.b >> 63) & 1;
        let y = w | x;
        let z = y ^ round_counter;
        proof {
            lemma_mix_counter(self.a, self.b, round_counter);
        }
        let p = (z & 0b11110) >> 1;
        let q = (z & 0b00001) << 63;
        let r = self.a & 0xffff_ffff_ffff_fff0;
        let s = self.b & 0x7fff_ffff_ffff_ffff;
        self.a = p | r;
        self.b = q | s;
    }

    /// One step of the key schedule: rotate, substitute the top nibble, mix in the counter.
    pub fn update(&mut self, round_counter: u64)
        ensures
            final(self).wf(),
            final(self)@ == advance80(old(self)@, round_counter),
    {
        self.rotate();
        self.update2();
        self.update3(round_counter);
    }
}

impl From<Key> for KeyRegister {
    fn from(key: Key) -> (r: KeyRegister) {
        let a = bytes_to_state(key.bytes.as_slice());
        let b = ((key.bytes[8] as u64) << 56) | ((key.bytes[9] as u64) << 48);
        KeyRegister { a, b }
    }
}

impl vstd::std_specs::convert::FromSpecImpl<Key> for KeyRegister {
    open spec fn obeys_from_spec() -> bool {
        true
    }

    open spec fn from_spec(key: Key) -> KeyRegister {
        register_of(key)
    }
}

/// The register that `KeyRegister::from` makes of `key`.
pub open spec fn register_of(key: Key) -> KeyRegister {
    KeyRegister {
        a: be_u64(key@),
        b: ((key@[8] as u64) << 56u64) | ((key@[9] as u64) << 48u64),
    }
}

/// The register made from `key` holds the key's 80-bit value.
pub proof fn lemma_register_from_key(key: Key)
    ensures
        register_of(key).wf(),
        register_of(key)@ == key_register80(key@),
{
    lemma_key_register(be_u64(key@), key@[8], key@[9]);
}

/// Round keys 0 to 31 of `key`, in the order encryption uses them.
pub fn round_keys(key: Key) -> (r: Vec<u64>)
    ensures
        r@ == round_keys80(key@),
{
    let mut register = KeyRegister::from(key);
    let ghost start = key_register80(key@);
    proof {
        lemma_register_from_key(key);
        lemma_round_key(register.a, register.b);
    }
    let mut keys: Vec<u64> = Vec::new();
    keys.push(register.a);
    for i in 0..NUM_ROUNDS
        invariant
            register@ == register80_at(start, i as nat),
            keys@ =~= Seq::new((i + 1) as nat, |r: int| round_key80(register80_at(start, r as nat))),
    {
        register.update((i + 1) as u64);
        proof {
            lemma_round_key(register.a, register.b);
        }
        keys.push(register.a);
    }
    keys
}

/// Encryption of the first block of `data` (zero-padded) under `key`.
pub open spec fn encrypt_block_spec(data: Seq<u8>, key: Seq<u8>) -> Seq<u8> {
    crypt_block_spec(fit(data, 8), round_keys80(key), false)
}

/// Decryption of the block `data` under `key`.
pub open spec fn decrypt_block_spec(data: Seq<u8>, key: Seq<u8>) -> Seq<u8> {
    crypt_block_spec(data, round_keys80(key), true)
}

/// ECB encryption of `data`, zero-padded to whole blocks, under `key`.
pub open spec fn ecb_encrypt_spec(data: Seq<u8>, key: Seq<u8>) -> Seq<u8> {
    ecb_spec(padded(data), round_keys80(key), false)
}

/// ECB decryption of block-aligned `data` under `key`.
pub open spec fn ecb_decrypt_spec(data: Seq<u8>, key: Seq<u8>) -> Seq<u8> {
    ecb_spec(data, round_keys80(key), true)
}

/// Decrypting an encrypted block under the same key gives the block back.
pub proof fn lemma_block_round_trip(x: Seq<u8>, key: Key)
    requires
        x.len() == 8,
    ensures
        decrypt_block_spec(encrypt_block_spec(x, key@), key@) == x,
{
    assert(fit(x, 8) =~= x);
    lemma_crypt_block_round_trip(x, round_keys80(key@));
}

/// Decrypting an ECB encryption under the same key gives the data back, followed by
/// the zero bytes that padding added.
pub proof fn lemma_ecb_round_trip(data: Seq<u8>, key: Key)
    ensures
        ecb_decrypt_spec(ecb_encrypt_spec(data, key@), key@) == padded(data),
{
    lemma_pad(data);
    lemma_ecb_blocks_round_trip(padded(data), round_keys80(key@));
}

/// Encrypts one block: the first eight bytes of `data`, zero-padded where it is shorter.
pub fn encrypt_block(data: &[u8], key: Key) -> (r: [u8; BLOCK_SIZE_IN_BYTES])
    ensures
        r@ == encrypt_block_spec(data@, key@),
{
    let block: [u8; BLOCK_SIZE_IN_BYTES] = fit_bytes(data);
    let keys = round_keys(key);
    crypt_block(block.as_slice(), keys.as_slice(), false)
}

/// Decrypts one block; `data` must be exactly one block long.
pub fn decrypt_block(data: &[u8], key: Key) -> (r: Result<[u8; BLOCK_SIZE_IN_BYTES], CipherError>)
    ensures
        data@.len() == 8 <==> r is Ok,
        r matches Ok(b) ==> b@ == decrypt_block_spec(data@, key@),
        r matches Err(e) ==> e == CipherError::InvalidBlockLength,
{
    if data.len() != BLOCK_SIZE_IN_BYTES {
        return Err(CipherError::InvalidBlockLength);
    }
    let keys = round_keys(key);
    Ok(crypt_block(data, keys.as_slice(), true))
}

/// Encrypts `data`, zero-padded to whole blocks, block by block.
pub fn ecb_encrypt(data: &[u8], key: Key) -> (r: Vec<u8>)
    ensures
        r@ == ecb_encrypt_spec(data@, key@),
{
    let padded = pad(data);
    let keys = round_keys(key);
    ecb(padded.as_slice(), keys.as_slice(), false)
}

/// Decrypts block-aligned `data` block by block.
pub fn ecb_decrypt(data: &[u8], key: Key) -> (r: Result<Vec<u8>, CipherError>)
    ensures
        data@.len() % 8 == 0 <==> r is Ok,
        r matches Ok(d) ==> d@ == ecb_decrypt_spec(data@, key@),
        r matches Err(e) ==> e == CipherError::InvalidBlockLength,
{
    if data.len() % BLOCK_SIZE_IN_BYTES != 0 {
        return Err(CipherError::InvalidBlockLength);
    }
    let keys = round_keys(key);
    Ok(ecb(data, keys.as_slice(), true))
}

/// Encrypts `data`, zero-padded to whole blocks, with the blocks spread over worker
/// threads; the output is that of `ecb_encrypt`.
pub fn par_ecb_encrypt(data: &[u8], key: Key) -> (r: Vec<u8>)
    ensures
        r@ == ecb_encrypt_spec(data@, key@),
{
    let padded = pad(data);
    let keys = round_keys(key);
    par_ecb(padded.as_slice(), keys.as_slice(), false)
}

/// Decrypts block-aligned `data` with the blocks spread over worker threads; the output
/// is that of `ecb_decrypt`.
pub fn par_ecb_decrypt(data: &[u8], key: Key) -> (r: Result<Vec<u8>, CipherError>)
    ensures
        data@.len() % 8 == 0 <==> r is Ok,
        r matches Ok(d) ==> d@ == ecb_decrypt_spec(data@, key@),
        r matches Err(e) ==> e == CipherError::InvalidBlockLength,
{
    if data.len() % BLOCK_SIZE_IN_BYTES != 0 {
        return Err(CipherError::InvalidBlockLength);
    }
    let keys = round_keys(key);
    Ok(par_ecb(data, keys.as_slice(), true))
}

} // verus!
