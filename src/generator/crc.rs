use vstd::prelude::*;

use crate::error::{Error, ErrorKind};
use crate::generator::NextRandom;
use crate::util::{fold, fold_spec};

verus! {

/// The reflected ECMA-182 polynomial of CRC-64/XZ.
pub const CRC64_ECMA_POLY: u64 = 0xC96C5795D7870F42;

/// One bit step of the reflected CRC division.
pub open spec fn crc_bit_step(d: u64, p: u64) -> u64 {
    if d & 1 == 0 {
        d >> 1
    } else {
        (d >> 1) ^ p
    }
}

/// `n` bit steps applied to `d`.
pub open spec fn crc_bit_steps(d: u64, p: u64, n: nat) -> u64
    decreases n,
{
    if n == 0 {
        d
    } else {
        crc_bit_step(crc_bit_steps(d, p, (n - 1) as nat), p)
    }
}

/// Entry `i` of the byte-wise lookup table for polynomial `p`.
pub open spec fn crc_table_entry(p: u64, i: nat) -> u64 {
    crc_bit_steps(i as u64, p, 8)
}

/// The CRC register after absorbing one byte.
pub open spec fn crc_update(crc: u64, b: u8) -> u64 {
    crc_table_entry(CRC64_ECMA_POLY, (((crc & 0xff) as u8) ^ b) as nat) ^ (crc >> 8)
}

/// The CRC register after absorbing `data`, starting from `crc`.
pub open spec fn crc_bytes(crc: u64, data: Seq<u8>) -> u64
    decreases data.len(),
{
    if data.len() == 0 {
        crc
    } else {
        crc_update(crc_bytes(crc, data.drop_last()), data.last())
    }
}

/// Little-endian bytes of a 64-bit word.
pub open spec fn le64(x: u64) -> Seq<u8> {
    seq![
        (x & 0xff) as u8,
        ((x >> 8) & 0xff) as u8,
        ((x >> 16) & 0xff) as u8,
        ((x >> 24) & 0xff) as u8,
        ((x >> 32) & 0xff) as u8,
        ((x >> 40) & 0xff) as u8,
        ((x >> 48) & 0xff) as u8,
        ((x >> 56) & 0xff) as u8,
    ]
}

/// The register that starts block `counter`: all ones, then the folded seed,
/// then the counter in little-endian order.
pub open spec fn crc_block_init(folded_seed: Seq<u8>, counter: u64) -> u64 {
    crc_bytes(crc_bytes(!0u64, folded_seed), le64(counter))
}

/// The register after absorbing the bytes `0, 1, ..., k` into the block start.
pub open spec fn crc_block_word(folded_seed: Seq<u8>, counter: u64, k: nat) -> u64
    decreases k,
{
    if k == 0 {
        crc_update(crc_block_init(folded_seed, counter), 0u8)
    } else {
        crc_update(crc_block_word(folded_seed, counter, (k - 1) as nat), k as u8)
    }
}

/// Byte `i` of the CRC keystream for a folded seed: block `i / 2048` holds 256
/// inverted registers, each stored as eight little-endian bytes.
pub open spec fn crc_stream_byte(folded_seed: Seq<u8>, i: nat) -> u8 {
    let block = i / 2048;
    let within = i % 2048;
    le64(!crc_block_word(folded_seed, block as u64, within / 8))[(within % 8) as int]
}

/// Builds the byte-wise lookup table of polynomial `p`.
pub fn crc64_gen_lut(p: u64) -> (lut: Vec<u64>)
    ensures
        lut@.len() == 256,
        forall|i: int| 0 <= i < 256 ==> lut@[i] == crc_table_entry(p, i as nat),
{
    let mut lut: Vec<u64> = Vec::new();
    let mut i: u64 = 0;
    while i < 256
        invariant
            i <= 256,
            lut@.len() == i,
            forall|j: int| 0 <= j < i ==> lut@[j] == crc_table_entry(p, j as nat),
        decreases 256 - i,
    {
        let mut d: u64 = i;
        let mut n: u64 = 0;
        while n < 8
            invariant
                n <= 8,
                d == crc_bit_steps(i, p, n as nat),
            decreases 8 - n,
        {
            if d & 1 == 0 {
                d = d >> 1;
            } else {
                d = (d >> 1) ^ p;
            }
            n = n + 1;
        }
        lut.push(d);
        i = i + 1;
    }
    lut
}

/// Absorbs `data` into the register `crc`, using the ECMA lookup table.
pub fn crc64(lut: &Vec<u64>, crc: u64, data: &[u8]) -> (r: u64)
    requires
        lut@.len() == 256,
        forall|i: int| 0 <= i < 256 ==> lut@[i] == crc_table_entry(CRC64_ECMA_POLY, i as nat),
    ensures
        r == crc_bytes(crc, data@),
{
    let mut c = crc;
    let mut i: usize = 0;
    while i < data.len()
        invariant
            i <= data@.len(),
            lut@.len() == 256,
            forall|k: int| 0 <= k < 256 ==> lut@[k] == crc_table_entry(CRC64_ECMA_POLY, k as nat),
            c == crc_bytes(crc, data@.subrange(0, i as int)),
        decreases data@.len() - i,
    {
        c = crc_step(lut, c, data[i]);
        proof {
            assert(data@.subrange(0, i + 1).drop_last() =~= data@.subrange(0, i as int));
        }
        i = i + 1;
    }
    proof {
        assert(data@.subrange(0, data@.len() as int) =~= data@);
    }
    c
}

/// Absorbs one byte.
fn crc_step(lut: &Vec<u64>, crc: u64, b: u8) -> (r: u64)
    requires
        lut@.len() == 256,
        forall|i: int| 0 <= i < 256 ==> lut@[i] == crc_table_entry(CRC64_ECMA_POLY, i as nat),
    ensures
        r == crc_update(crc, b),
{
    let idx: u8 = ((crc & 0xff) as u8) ^ b;
    lut[idx as usize] ^ (crc >> 8)
}

/// Little-endian bytes of a 64-bit word.
pub(crate) fn le64_bytes(x: u64) -> (r: [u8; 8])
    ensures
        r@ == le64(x),
{
    let r: [u8; 8] = [
        (x & 0xff) as u8,
        ((x >> 8) & 0xff) as u8,
        ((x >> 16) & 0xff) as u8,
        ((x >> 24) & 0xff) as u8,
        ((x >> 32) & 0xff) as u8,
        ((x >> 40) & 0xff) as u8,
        ((x >> 48) & 0xff) as u8,
        ((x >> 56) & 0xff) as u8,
    ];
    proof {
        assert(r@ =~= le64(x));
    }
    r
}

/// Offsets inside a block: byte `b` of word `o` of block `c`.
proof fn lemma_block_index(c: nat, o: nat, b: nat)
    requires
        o < 256,
        b < 8,
    ensures
        (c * 2048 + o * 8 + b) / 2048 == c,
        (c * 2048 + o * 8 + b) % 2048 == o * 8 + b,
        (o * 8 + b) / 8 == o,
        (o * 8 + b) % 8 == b,
{
    assert((c * 2048 + o * 8 + b) / 2048 == c) by (nonlinear_arith)
        requires
            o < 256,
            b < 8,
    ;
    assert((c * 2048 + o * 8 + b) % 2048 == o * 8 + b) by (nonlinear_arith)
        requires
            o < 256,
            b < 8,
    ;
    assert((o * 8 + b) / 8 == o) by (nonlinear_arith)
        requires
            b < 8,
    ;
    assert((o * 8 + b) % 8 == b) by (nonlinear_arith)
        requires
            b < 8,
    ;
}

/// The CRC-64 based keystream generator.
pub struct GeneratorCrc {
    lut: Vec<u64>,
    folded_seed: Vec<u8>,
    counter: u64,
    seed: Ghost<Seq<u8>>,
}

impl GeneratorCrc {
    /// Size of one block of output, in bytes.
    pub const BASE_SIZE: usize = 2048;

    /// Default number of blocks in one chunk.
    pub const DEFAULT_CHUNK_FACTOR: usize = 1536;

    /// Creates a generator at offset zero, keyed by `seed`.
    pub fn new(seed: &[u8]) -> (r: GeneratorCrc)
        requires
            seed@.len() > 0,
        ensures
            r.inv(),
            r.key() == seed@,
            r.pos() == 0,
    {
        let lut = crc64_gen_lut(CRC64_ECMA_POLY);
        let folded_seed = fold(seed, 8);
        GeneratorCrc { lut, folded_seed, counter: 0, seed: Ghost(seed@) }
    }

    /// Writes block number `self.counter` into `buf` at `chunk_offs`.
    fn next_block(&mut self, buf: &mut [u8], chunk_offs: usize)
        requires
            old(self).inv(),
            chunk_offs + 2048 <= old(buf)@.len(),
            (old(self).counter + 1) * 2048 <= u64::MAX,
        ensures
            final(self).inv(),
            final(self).seed == old(self).seed,
            final(self).counter == old(self).counter + 1,
            final(buf)@.len() == old(buf)@.len(),
            forall|j: int|
                0 <= j < chunk_offs ==> final(buf)@[j] == old(buf)@[j],
            forall|j: int|
                chunk_offs <= j < chunk_offs + 2048 ==> #[trigger] final(buf)@[j] == crc_stream_byte(
                    fold_spec(old(self).seed@, 8),
                    (old(self).counter * 2048 + j - chunk_offs) as nat,
                ),
    {
        let ghost fs = fold_spec(self.seed@, 8);
        let ghost ctr = self.counter;
        let ghost buf0 = buf@;
        let blen = buf.len();
        let mut crc: u64 = !0u64;
        crc = crc64(&self.lut, crc, self.folded_seed.as_slice());
        let ctr_bytes = le64_bytes(self.counter);
        crc = crc64(&self.lut, crc, &ctr_bytes);
        assert(crc == crc_block_init(fs, ctr));
        self.counter = self.counter + 1;
        let mut offs: usize = 0;
        while offs < 256
            invariant
                self.inv(),
                self.seed == old(self).seed,
                self.counter == ctr + 1,
                fs == fold_spec(self.seed@, 8),
                offs <= 256,
                chunk_offs + 2048 <= buf@.len(),
                buf@.len() == buf0.len(),
                blen == buf@.len(),
                offs == 0 ==> crc == crc_block_init(fs, ctr),
                offs > 0 ==> crc == crc_block_word(fs, ctr, (offs - 1) as nat),
                forall|j: int| 0 <= j < chunk_offs ==> buf@[j] == buf0[j],
                forall|j: int|
                    chunk_offs <= j < chunk_offs + offs * 8 ==> #[trigger] buf@[j] == crc_stream_byte(
                        fs,
                        (ctr * 2048 + j - chunk_offs) as nat,
                    ),
            decreases 256 - offs,
        {
            crc = crc_step(&self.lut, crc, offs as u8);
            assert(crc == crc_block_word(fs, ctr, offs as nat));
            let word = le64_bytes(!crc);
            let mut b: usize = 0;
            while b < 8
                invariant
                    self.inv(),
                    offs < 256,
                    b <= 8,
                    chunk_offs + 2048 <= buf@.len(),
                    buf@.len() == buf0.len(),
                    blen == buf@.len(),
                    word@ == le64(!crc_block_word(fs, ctr, offs as nat)),
                    forall|j: int| 0 <= j < chunk_offs ==> buf@[j] == buf0[j],
                    forall|j: int|
                        chunk_offs <= j < chunk_offs + offs * 8 + b ==> #[trigger] buf@[j]
                            == crc_stream_byte(fs, (ctr * 2048 + j - chunk_offs) as nat),
                decreases 8 - b,
            {
                let idx: usize = chunk_offs + offs * 8 + b;
                buf[idx] = word[b];
                proof {
                    lemma_block_index(ctr as nat, offs as nat, b as nat);
                }
                b = b + 1;
            }
            offs = offs + 1;
        }
    }
}

impl NextRandom for GeneratorCrc {
    closed spec fn key(&self) -> Seq<u8> {
        self.seed@
    }

    closed spec fn pos(&self) -> nat {
        (self.counter * 2048) as nat
    }

    closed spec fn inv(&self) -> bool {
        &&& self.lut@.len() == 256
        &&& forall|i: int|
            0 <= i < 256 ==> self.lut@[i] == crc_table_entry(CRC64_ECMA_POLY, i as nat)
        &&& self.folded_seed@ == fold_spec(self.seed@, 8)
        &&& self.counter * 2048 <= u64::MAX
    }

    open spec fn stream_byte(key: Seq<u8>, i: nat) -> u8 {
        crc_stream_byte(fold_spec(key, 8), i)
    }

    fn get_base_size(&self) -> (r: usize) {
        GeneratorCrc::BASE_SIZE
    }

    fn get_pos(&self) -> (r: u64) {
        self.counter * 2048
    }

    fn next(&mut self, buf: &mut [u8], count: usize) {
        let ghost buf0 = buf@;
        let ghost pos0 = self.pos();
        let blen = buf.len();
        let mut i: usize = 0;
        while i < count
            invariant
                self.inv(),
                self.seed == old(self).seed,
                buf0.len() == count * 2048,
                buf@.len() == buf0.len(),
                blen == buf@.len(),
                pos0 == old(self).pos(),
                pos0 + buf0.len() <= u64::MAX,
                i <= count,
                self.pos() == pos0 + i * 2048,
                forall|j: int|
                    0 <= j < i * 2048 ==> buf@[j] == Self::stream_byte(
                        self.seed@,
                        (pos0 + j) as nat,
                    ),
            decreases count - i,
        {
            proof {
                assert(i * 2048 + 2048 <= count * 2048) by (nonlinear_arith)
                    requires
                        i < count,
                ;
            }
            let chunk_offs: usize = i * 2048;
            let ghost prev = buf@;
            let ghost ctr = self.counter;
            self.next_block(buf, chunk_offs);
            proof {
                assert forall|j: int| 0 <= j < (i + 1) * 2048 implies buf@[j] == Self::stream_byte(
                    self.seed@,
                    (pos0 + j) as nat,
                ) by {
                    if j >= chunk_offs {
                        assert(ctr * 2048 + j - chunk_offs == pos0 + j);
                    }
                }
            }
            i = i + 1;
        }
    }

    fn seek(&mut self, byte_offset: u64) -> (r: Result<(), Error>) {
        if byte_offset % 2048 != 0 {
            return Err(Error::new(ErrorKind::SeekAlignment));
        }
        self.counter = byte_offset / 2048;
        Ok(())
    }
}

} // verus!
