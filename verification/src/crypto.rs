//! The node's AES engine: payloads are encrypted in whole blocks, the last
//! one padded with zero bytes.
use vstd::prelude::*;

verus! {

/// The AES block size.
pub const CIPHER_BLOCK_SIZE: usize = 16;

/// The node's hardware AES engine.
#[derive(Clone, Copy, Debug, PartialEq, Eq)]
pub struct HardwareAES;

impl HardwareAES {
    /// The length of `len` bytes once padded with zeros to whole blocks, as
    /// the engine encrypts them.
    pub fn padded_len(len: usize) -> (r: usize)
        requires
            len + CIPHER_BLOCK_SIZE <= usize::MAX,
        ensures
            r == len + (16 - len % 16) % 16,
            r % CIPHER_BLOCK_SIZE == 0,
            len <= r < len + CIPHER_BLOCK_SIZE,
    {
        let pad = (CIPHER_BLOCK_SIZE - (len % CIPHER_BLOCK_SIZE)) % CIPHER_BLOCK_SIZE;
        len + pad
    }
}

} // verus!
