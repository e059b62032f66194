use vstd::prelude::*;

use crate::generator::crc::GeneratorCrc;
use crate::generator::NextRandom;

verus! {

/// A source of fixed-size hash blocks.
///
/// A source may describe itself: then block `k` is `block(k)`, and `handed`
/// blocks have gone out so far. A source that keeps the defaults claims nothing.
pub trait NextHash: Sized {
    /// Whether the source describes its blocks.
    open spec fn described(&self) -> bool {
        false
    }

    /// The number of blocks handed out so far.
    open spec fn handed(&self) -> nat {
        0
    }

    /// Block `k` of the source.
    open spec fn block(&self, k: nat) -> Seq<u8> {
        Seq::empty()
    }

    /// Get the size of the hash, in bytes.
    fn get_size(&self) -> usize;

    /// Generate the next hash.
    fn next(&mut self) -> (r: Vec<u8>)
        ensures
            old(self).described() ==> {
                &&& final(self).described()
                &&& r@ == old(self).block(old(self).handed())
                &&& final(self).handed() == old(self).handed() + 1
                &&& forall|k: nat| #[trigger] final(self).block(k) == old(self).block(k)
            },
    ;

    /// Generate the next `count` hashes and append them to `chunk_buffer`.
    fn next_chunk(&mut self, chunk_buffer: &mut Vec<u8>, count: usize)
        ensures
            final(chunk_buffer)@.len() >= old(chunk_buffer)@.len(),
            old(chunk_buffer)@ == final(chunk_buffer)@.subrange(0, old(chunk_buffer)@.len() as int),
            old(self).described() ==> {
                &&& final(self).described()
                &&& final(chunk_buffer)@ == old(chunk_buffer)@ + Seq::new(
                    count as nat,
                    |i: int| old(self).block((old(self).handed() + i) as nat),
                ).flatten()
                &&& final(self).handed() == old(self).handed() + count
            },
    {
        let ghost start = chunk_buffer@;
        let ghost h0 = *self;
        let mut i: usize = 0;
        proof {
            let f0 = |i: int| h0.block((h0.handed() + i) as nat);
            assert(Seq::new(0, f0).len() == 0);
            assert(Seq::new(0, f0).flatten() =~= Seq::<u8>::empty());
            assert(start + Seq::new(0, f0).flatten() =~= start);
        }
        while i < count
            invariant
                i <= count,
                chunk_buffer@.len() >= start.len(),
                start == chunk_buffer@.subrange(0, start.len() as int),
                h0.described() ==> {
                    &&& self.described()
                    &&& self.handed() == h0.handed() + i
                    &&& forall|k: nat| #[trigger] self.block(k) == h0.block(k)
                    &&& chunk_buffer@ == start + Seq::new(
                        i as nat,
                        |i: int| h0.block((h0.handed() + i) as nat),
                    ).flatten()
                },
            decreases count - i,
        {
            let mut h = self.next();
            let ghost before = chunk_buffer@;
            let ghost hv = h@;
            chunk_buffer.append(&mut h);
            proof {
                assert(chunk_buffer@.subrange(0, start.len() as int) =~= before.subrange(0, start.len() as int));
                if h0.described() {
                    let f = |i: int| h0.block((h0.handed() + i) as nat);
                    assert(Seq::new((i + 1) as nat, f) =~= Seq::new(i as nat, f).push(
                        h0.block((h0.handed() + i) as nat),
                    ));
                    Seq::new(i as nat, f).lemma_flatten_push(h0.block((h0.handed() + i) as nat));
                    assert(chunk_buffer@ =~= start + Seq::new((i + 1) as nat, f).flatten());
                }
            }
            i = i + 1;
        }
    }
}

/// Hash blocks from the CRC keystream of a seed: block `k` is bytes
/// `2048 * k` up to `2048 * (k + 1)` of that stream.
pub struct HasherCRC {
    seed: Vec<u8>,
    counter: u64,
    handed: Ghost<nat>,
}

/// The number of blocks a CRC hasher can hand out.
pub const HASHER_BLOCKS: u64 = 0x1f_ffff_ffff_ffff;

/// Block `k` of the CRC hasher of `seed`: 2048 keystream bytes, or nothing
/// where the seed is empty or the stream is used up.
pub open spec fn crc_hash_block(seed: Seq<u8>, k: nat) -> Seq<u8> {
    if seed.len() > 0 && k < HASHER_BLOCKS {
        Seq::new(2048, |j: int| <GeneratorCrc as NextRandom>::stream_byte(seed, (k * 2048 + j) as nat))
    } else {
        Seq::empty()
    }
}

impl HasherCRC {
    pub closed spec fn seed(&self) -> Seq<u8> {
        self.seed@
    }

    pub closed spec fn counter(&self) -> u64 {
        self.counter
    }

    pub fn new(seed: &[u8]) -> (r: HasherCRC)
        ensures
            r.seed() == seed@,
            r.counter() == 0,
            r.described(),
            r.handed() == 0,
    {
        let mut v: Vec<u8> = Vec::new();
        let mut i: usize = 0;
        while i < seed.len()
            invariant
                i <= seed@.len(),
                v@ == seed@.subrange(0, i as int),
            decreases seed@.len() - i,
        {
            v.push(seed[i]);
            proof {
                assert(seed@.subrange(0, i + 1) =~= seed@.subrange(0, i as int).push(seed@[i as int]));
            }
            i = i + 1;
        }
        proof {
            assert(seed@.subrange(0, seed@.len() as int) =~= seed@);
        }
        HasherCRC { seed: v, counter: 0, handed: Ghost(0) }
    }

    /// The next block: `Some` with the 2048 keystream bytes of block `counter`,
    /// or `None` where the seed is empty or the stream is used up.
    pub fn next_block(&mut self) -> (r: Option<Vec<u8>>)
        ensures
            final(self).seed() == old(self).seed(),
            final(self).handed() == old(self).handed(),
            r is None ==> final(self).counter() == old(self).counter(),
            r is Some <==> old(self).seed().len() > 0 && old(self).counter() < 0x1f_ffff_ffff_ffff,
            r is Some ==> final(self).counter() == old(self).counter() + 1,
            r matches Some(b) ==> b@.len() == 2048 && forall|j: int|
                0 <= j < 2048 ==> #[trigger] b@[j] == <GeneratorCrc as NextRandom>::stream_byte(
                    old(self).seed(),
                    (old(self).counter() * 2048 + j) as nat,
                ),
    {
        if self.seed.len() == 0 || self.counter >= 0x1f_ffff_ffff_ffff {
            return None;
        }
        let mut g = GeneratorCrc::new(self.seed.as_slice());
        let off: u64 = self.counter * 2048;
        let _ = g.seek(off);
        let mut buf: Vec<u8> = vec![0u8; 2048];
        g.next(buf.as_mut_slice(), 1);
        self.counter = self.counter + 1;
        Some(buf)
    }
}

impl NextHash for HasherCRC {
    closed spec fn described(&self) -> bool {
        self.seed@.len() == 0 || self.counter == if self.handed@ < HASHER_BLOCKS {
            self.handed@
        } else {
            HASHER_BLOCKS as nat
        }
    }

    closed spec fn handed(&self) -> nat {
        self.handed@
    }

    closed spec fn block(&self, k: nat) -> Seq<u8> {
        crc_hash_block(self.seed@, k)
    }

    fn get_size(&self) -> usize {
        2048
    }

    fn next(&mut self) -> (r: Vec<u8>) {
        let ghost h = self.handed@;
        let res = match self.next_block() {
            Some(b) => b,
            None => Vec::new(),
        };
        self.handed = Ghost(h + 1);
        proof {
            if old(self).described() {
                if res@.len() > 0 {
                    assert(res@ =~= crc_hash_block(self.seed@, h));
                } else {
                    assert(res@ =~= crc_hash_block(self.seed@, h));
                }
            }
        }
        res
    }
}

/// A CRC hasher describes its blocks: block `k` is `crc_hash_block(seed, k)`.
pub proof fn lemma_crc_hasher_blocks(h: &HasherCRC, k: nat)
    ensures
        h.block(k) == crc_hash_block(h.seed(), k),
{
}

} // verus!
