use vstd::prelude::*;

use crate::error::{Error, ErrorKind};
use crate::generator::NextRandom;
use crate::util::{fold, fold_spec};
use rand::{RngCore, SeedableRng};
use rand_chacha::{ChaCha12Rng, ChaCha20Rng, ChaCha8Rng};

verus! {

/// Byte `i` of the ChaCha8 keystream under the 32-byte `key`, with an all-zero nonce.
pub uninterp spec fn chacha8_stream(key: Seq<u8>, i: nat) -> u8;

/// Byte `i` of the ChaCha12 keystream under the 32-byte `key`, with an all-zero nonce.
pub uninterp spec fn chacha12_stream(key: Seq<u8>, i: nat) -> u8;

/// Byte `i` of the ChaCha20 keystream under the 32-byte `key`, with an all-zero nonce.
pub uninterp spec fn chacha20_stream(key: Seq<u8>, i: nat) -> u8;

/// Relies on rand_chacha's `ChaCha8Rng`: seeded with `key`, moved to 32-bit word
/// `word_pos` by `set_word_pos`, `fill_bytes` writes the keystream bytes from byte
/// `4 * word_pos` on.
#[verifier::external_body]
fn chacha8_fill(key: &Vec<u8>, word_pos: u64, buf: &mut [u8])
    requires
        key@.len() == 32,
    ensures
        final(buf)@.len() == old(buf)@.len(),
        forall|j: int|
            0 <= j < old(buf)@.len() ==> #[trigger] final(buf)@[j] == chacha8_stream(
                key@,
                (word_pos * 4 + j) as nat,
            ),
{
    let seed: [u8; 32] = key.as_slice().try_into().unwrap();
    let mut rng = ChaCha8Rng::from_seed(seed);
    rng.set_word_pos(word_pos as u128);
    rng.fill_bytes(buf);
}

/// Relies on rand_chacha's `ChaCha12Rng`: seeded with `key`, moved to 32-bit word
/// `word_pos` by `set_word_pos`, `fill_bytes` writes the keystream bytes from byte
/// `4 * word_pos` on.
#[verifier::external_body]
fn chacha12_fill(key: &Vec<u8>, word_pos: u64, buf: &mut [u8])
    requires
        key@.len() == 32,
    ensures
        final(buf)@.len() == old(buf)@.len(),
        forall|j: int|
            0 <= j < old(buf)@.len() ==> #[trigger] final(buf)@[j] == chacha12_stream(
                key@,
                (word_pos * 4 + j) as nat,
            ),
{
    let seed: [u8; 32] = key.as_slice().try_into().unwrap();
    let mut rng = ChaCha12Rng::from_seed(seed);
    rng.set_word_pos(word_pos as u128);
    rng.fill_bytes(buf);
}

/// Relies on rand_chacha's `ChaCha20Rng`: seeded with `key`, moved to 32-bit word
/// `word_pos` by `set_word_pos`, `fill_bytes` writes the keystream bytes from byte
/// `4 * word_pos` on.
#[verifier::external_body]
fn chacha20_fill(key: &Vec<u8>, word_pos: u64, buf: &mut [u8])
    requires
        key@.len() == 32,
    ensures
        final(buf)@.len() == old(buf)@.len(),
        forall|j: int|
            0 <= j < old(buf)@.len() ==> #[trigger] final(buf)@[j] == chacha20_stream(
                key@,
                (word_pos * 4 + j) as nat,
            ),
{
    let seed: [u8; 32] = key.as_slice().try_into().unwrap();
    let mut rng = ChaCha20Rng::from_seed(seed);
    rng.set_word_pos(word_pos as u128);
    rng.fill_bytes(buf);
}

/// The ChaCha8 keystream generator.
pub struct GeneratorChaCha8 {
    key: Vec<u8>,
    offset: u64,
    seed: Ghost<Seq<u8>>,
}

impl GeneratorChaCha8 {
    /// Size of one block of output, in bytes.
    pub const BASE_SIZE: usize = 2048;

    /// Default number of blocks in one chunk.
    pub const DEFAULT_CHUNK_FACTOR: usize = 1536;

    /// Creates a generator at offset zero. The seed is folded onto 32 bytes.
    pub fn new(seed: &[u8]) -> (r: GeneratorChaCha8)
        requires
            seed@.len() > 0,
        ensures
            r.inv(),
            r.key() == seed@,
            r.pos() == 0,
    {
        GeneratorChaCha8 { key: fold(seed, 32), offset: 0, seed: Ghost(seed@) }
    }
}

impl NextRandom for GeneratorChaCha8 {
    closed spec fn key(&self) -> Seq<u8> {
        self.seed@
    }

    closed spec fn pos(&self) -> nat {
        self.offset as nat
    }

    closed spec fn inv(&self) -> bool {
        &&& self.key@ == fold_spec(self.seed@, 32)
        &&& self.offset % 4 == 0
    }

    open spec fn stream_byte(key: Seq<u8>, i: nat) -> u8 {
        chacha8_stream(fold_spec(key, 32), i)
    }

    fn get_base_size(&self) -> (r: usize) {
        GeneratorChaCha8::BASE_SIZE
    }

    fn get_pos(&self) -> (r: u64) {
        self.offset
    }

    fn next(&mut self, buf: &mut [u8], count: usize) {
        let len = buf.len();
        chacha8_fill(&self.key, self.offset / 4, buf);
        proof {
            assert forall|j: int| 0 <= j < len implies #[trigger] buf@[j] == Self::stream_byte(
                self.seed@,
                (old(self).offset + j) as nat,
            ) by {
                assert((self.offset / 4) * 4 == self.offset);
            }
        }
        self.offset = self.offset + len as u64;
        proof {
            assert(len == count * 2048);
            assert((count * 2048) % 4 == 0) by (nonlinear_arith);
        }
    }

    fn seek(&mut self, byte_offset: u64) -> (r: Result<(), Error>) {
        if byte_offset % 2048 != 0 {
            return Err(Error::new(ErrorKind::SeekAlignment));
        }
        self.offset = byte_offset;
        Ok(())
    }
}

/// The ChaCha12 keystream generator.
pub struct GeneratorChaCha12 {
    key: Vec<u8>,
    offset: u64,
    seed: Ghost<Seq<u8>>,
}

impl GeneratorChaCha12 {
    /// Size of one block of output, in bytes.
    pub const BASE_SIZE: usize = 2048;

    /// Default number of blocks in one chunk.
    pub const DEFAULT_CHUNK_FACTOR: usize = 1536;

    /// Creates a generator at offset zero. The seed is folded onto 32 bytes.
    pub fn new(seed: &[u8]) -> (r: GeneratorChaCha12)
        requires
            seed@.len() > 0,
        ensures
            r.inv(),
            r.key() == seed@,
            r.pos() == 0,
    {
        GeneratorChaCha12 { key: fold(seed, 32), offset: 0, seed: Ghost(seed@) }
    }
}

impl NextRandom for GeneratorChaCha12 {
    closed spec fn key(&self) -> Seq<u8> {
        self.seed@
    }

    closed spec fn pos(&self) -> nat {
        self.offset as nat
    }

    closed spec fn inv(&self) -> bool {
        &&& self.key@ == fold_spec(self.seed@, 32)
        &&& self.offset % 4 == 0
    }

    open spec fn stream_byte(key: Seq<u8>, i: nat) -> u8 {
        chacha12_stream(fold_spec(key, 32), i)
    }

    fn get_base_size(&self) -> (r: usize) {
        GeneratorChaCha12::BASE_SIZE
    }

    fn get_pos(&self) -> (r: u64) {
        self.offset
    }

    fn next(&mut self, buf: &mut [u8], count: usize) {
        let len = buf.len();
        chacha12_fill(&self.key, self.offset / 4, buf);
        proof {
            assert forall|j: int| 0 <= j < len implies #[trigger] buf@[j] == Self::stream_byte(
                self.seed@,
                (old(self).offset + j) as nat,
            ) by {
                assert((self.offset / 4) * 4 == self.offset);
            }
        }
        self.offset = self.offset + len as u64;
        proof {
            assert(len == count * 2048);
            assert((count * 2048) % 4 == 0) by (nonlinear_arith);
        }
    }

    fn seek(&mut self, byte_offset: u64) -> (r: Result<(), Error>) {
        if byte_offset % 2048 != 0 {
            return Err(Error::new(ErrorKind::SeekAlignment));
        }
        self.offset = byte_offset;
        Ok(())
    }
}

/// The ChaCha20 keystream generator.
pub struct GeneratorChaCha20 {
    key: Vec<u8>,
    offset: u64,
    seed: Ghost<Seq<u8>>,
}

impl GeneratorChaCha20 {
    /// Size of one block of output, in bytes.
    pub const BASE_SIZE: usize = 2048;

    /// Default number of blocks in one chunk.
    pub const DEFAULT_CHUNK_FACTOR: usize = 1536;

    /// Creates a generator at offset zero. The seed is folded onto 32 bytes.
    pub fn new(seed: &[u8]) -> (r: GeneratorChaCha20)
        requires
            seed@.len() > 0,
        ensures
            r.inv(),
            r.key() == seed@,
            r.pos() == 0,
    {
        GeneratorChaCha20 { key: fold(seed, 32), offset: 0, seed: Ghost(seed@) }
    }
}

impl NextRandom for GeneratorChaCha20 {
    closed spec fn key(&self) -> Seq<u8> {
        self.seed@
    }

    closed spec fn pos(&self) -> nat {
        self.offset as nat
    }

    closed spec fn inv(&self) -> bool {
        &&& self.key@ == fold_spec(self.seed@, 32)
        &&& self.offset % 4 == 0
    }

    open spec fn stream_byte(key: Seq<u8>, i: nat) -> u8 {
        chacha20_stream(fold_spec(key, 32), i)
    }

    fn get_base_size(&self) -> (r: usize) {
        GeneratorChaCha20::BASE_SIZE
    }

    fn get_pos(&self) -> (r: u64) {
        self.offset
    }

    fn next(&mut self, buf: &mut [u8], count: usize) {
        let len = buf.len();
        chacha20_fill(&self.key, self.offset / 4, buf);
        proof {
            assert forall|j: int| 0 <= j < len implies #[trigger] buf@[j] == Self::stream_byte(
                self.seed@,
                (old(self).offset + j) as nat,
            ) by {
                assert((self.offset / 4) * 4 == self.offset);
            }
        }
        self.offset = self.offset + len as u64;
        proof {
            assert(len == count * 2048);
            assert((count * 2048) % 4 == 0) by (nonlinear_arith);
        }
    }

    fn seek(&mut self, byte_offset: u64) -> (r: Result<(), Error>) {
        if byte_offset % 2048 != 0 {
            return Err(Error::new(ErrorKind::SeekAlignment));
        }
        self.offset = byte_offset;
        Ok(())
    }
}

} // verus!
