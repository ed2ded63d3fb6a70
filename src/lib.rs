//! The PRESENT lightweight block cipher: a 64-bit substitution-permutation network with
//! 80-bit and 128-bit key schedules, and ECB mode over byte sequences, sequential and
//! parallel.
use vstd::prelude::*;

pub mod bits;
pub mod cipher;
pub mod layers;
pub mod present128;
pub mod present80;

pub use crate::layers::{
    add_round_key, bytes_to_state, inv_p_layer, inv_s_box_layer, p_layer, pad, s_box_layer,
    state_to_bytes,
};

use crate::layers::fit;

verus! {

/// Number of bytes in one cipher block.
pub const BLOCK_SIZE_IN_BYTES: usize = 8;

/// Number of full rounds; a final whitening follows them.
pub const NUM_ROUNDS: usize = 31;

/// What a cipher operation can refuse.
#[derive(Debug, Clone, Copy, PartialEq, Eq, Structural)]
pub enum CipherError {
    /// The input to a decryption is not a whole number of blocks.
    InvalidBlockLength,
}

/// Encrypts one block (the first eight bytes of `data`, zero-padded) under the 80-bit
/// key made of `key` as `present80::Key::new` makes it.
pub fn encrypt(data: &[u8], key: &[u8]) -> (r: [u8; BLOCK_SIZE_IN_BYTES])
    ensures
        r@ == present80::encrypt_block_spec(data@, fit(key@, 10)),
{
    present80::encrypt_block(data, present80::Key::new(key))
}

} // verus!
