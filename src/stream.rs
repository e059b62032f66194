use vstd::prelude::*;

use crate::bufcache::{BufCache, BufCacheCons};
use crate::error::{Error, ErrorKind};
use crate::generator::NextRandom;
use crate::generator::chacha::{GeneratorChaCha12, GeneratorChaCha20, GeneratorChaCha8};
use crate::generator::crc::GeneratorCrc;
use crate::kdf::{kdf, kdf_spec};

verus! {

/// The keystream algorithms.
#[derive(Clone, Copy, Debug, PartialEq, Eq, Structural)]
pub enum DtStreamType {
    ChaCha8,
    ChaCha12,
    ChaCha20,
    Crc,
}

/// Byte `i` of the sequence that generator type `t` walks under `key`.
pub open spec fn gen_stream_byte(t: DtStreamType, key: Seq<u8>, i: nat) -> u8 {
    match t {
        DtStreamType::ChaCha8 => <GeneratorChaCha8 as NextRandom>::stream_byte(key, i),
        DtStreamType::ChaCha12 => <GeneratorChaCha12 as NextRandom>::stream_byte(key, i),
        DtStreamType::ChaCha20 => <GeneratorChaCha20 as NextRandom>::stream_byte(key, i),
        DtStreamType::Crc => <GeneratorCrc as NextRandom>::stream_byte(key, i),
    }
}

/// Byte `i` of the stream of thread `thread_id`: the generator keyed with the
/// derived key of that thread and round, each byte inverted if `invert` is set.
pub open spec fn thread_stream_byte(
    t: DtStreamType,
    seed: Seq<u8>,
    round_id: u64,
    thread_id: u32,
    invert: bool,
    i: nat,
) -> u8 {
    let b = gen_stream_byte(t, kdf_spec(seed, thread_id, round_id), i);
    if invert {
        b ^ 0xffu8
    } else {
        b
    }
}

/// Inverting a stream twice gives the stream back: each byte of the inverted
/// stream, inverted again, is the byte of the plain one.
pub proof fn lemma_invert_involution(
    t: DtStreamType,
    seed: Seq<u8>,
    round_id: u64,
    thread_id: u32,
    i: nat,
)
    ensures
        thread_stream_byte(t, seed, round_id, thread_id, true, i) ^ 0xffu8 == thread_stream_byte(
            t,
            seed,
            round_id,
            thread_id,
            false,
            i,
        ),
{
    let b = gen_stream_byte(t, kdf_spec(seed, thread_id, round_id), i);
    assert((b ^ 0xffu8) ^ 0xffu8 == b) by (bit_vector);
}

/// One generator of any of the supported types.
pub enum AnyGenerator {
    ChaCha8(GeneratorChaCha8),
    ChaCha12(GeneratorChaCha12),
    ChaCha20(GeneratorChaCha20),
    Crc(GeneratorCrc),
}

impl AnyGenerator {
    pub open spec fn stype(&self) -> DtStreamType {
        match self {
            AnyGenerator::ChaCha8(_) => DtStreamType::ChaCha8,
            AnyGenerator::ChaCha12(_) => DtStreamType::ChaCha12,
            AnyGenerator::ChaCha20(_) => DtStreamType::ChaCha20,
            AnyGenerator::Crc(_) => DtStreamType::Crc,
        }
    }

    pub open spec fn key(&self) -> Seq<u8> {
        match self {
            AnyGenerator::ChaCha8(g) => g.key(),
            AnyGenerator::ChaCha12(g) => g.key(),
            AnyGenerator::ChaCha20(g) => g.key(),
            AnyGenerator::Crc(g) => g.key(),
        }
    }

    pub open spec fn pos(&self) -> nat {
        match self {
            AnyGenerator::ChaCha8(g) => g.pos(),
            AnyGenerator::ChaCha12(g) => g.pos(),
            AnyGenerator::ChaCha20(g) => g.pos(),
            AnyGenerator::Crc(g) => g.pos(),
        }
    }

    pub open spec fn inv(&self) -> bool {
        match self {
            AnyGenerator::ChaCha8(g) => g.inv(),
            AnyGenerator::ChaCha12(g) => g.inv(),
            AnyGenerator::ChaCha20(g) => g.inv(),
            AnyGenerator::Crc(g) => g.inv(),
        }
    }

    /// Creates a generator of type `t` keyed by `key`, at offset zero.
    pub fn new(t: DtStreamType, key: &[u8]) -> (r: AnyGenerator)
        requires
            key@.len() > 0,
        ensures
            r.inv(),
            r.stype() == t,
            r.key() == key@,
            r.pos() == 0,
    {
        match t {
            DtStreamType::ChaCha8 => AnyGenerator::ChaCha8(GeneratorChaCha8::new(key)),
            DtStreamType::ChaCha12 => AnyGenerator::ChaCha12(GeneratorChaCha12::new(key)),
            DtStreamType::ChaCha20 => AnyGenerator::ChaCha20(GeneratorChaCha20::new(key)),
            DtStreamType::Crc => AnyGenerator::Crc(GeneratorCrc::new(key)),
        }
    }

    pub fn next(&mut self, buf: &mut [u8], count: usize)
        requires
            old(self).inv(),
            old(buf)@.len() == count * 2048,
            old(self).pos() + old(buf)@.len() <= u64::MAX,
        ensures
            final(self).inv(),
            final(self).stype() == old(self).stype(),
            final(self).key() == old(self).key(),
            final(self).pos() == old(self).pos() + old(buf)@.len(),
            final(buf)@.len() == old(buf)@.len(),
            forall|j: int|
                0 <= j < old(buf)@.len() ==> #[trigger] final(buf)@[j] == gen_stream_byte(
                    old(self).stype(),
                    old(self).key(),
                    (old(self).pos() + j) as nat,
                ),
    {
        match self {
            AnyGenerator::ChaCha8(g) => g.next(buf, count),
            AnyGenerator::ChaCha12(g) => g.next(buf, count),
            AnyGenerator::ChaCha20(g) => g.next(buf, count),
            AnyGenerator::Crc(g) => g.next(buf, count),
        }
    }

    pub fn seek(&mut self, byte_offset: u64) -> (r: Result<(), Error>)
        requires
            old(self).inv(),
        ensures
            final(self).inv(),
            final(self).stype() == old(self).stype(),
            final(self).key() == old(self).key(),
            r is Ok <==> byte_offset % 2048 == 0,
            r is Ok ==> final(self).pos() == byte_offset,
            r is Err ==> r->Err_0.kind == ErrorKind::SeekAlignment,
    {
        match self {
            AnyGenerator::ChaCha8(g) => g.seek(byte_offset),
            AnyGenerator::ChaCha12(g) => g.seek(byte_offset),
            AnyGenerator::ChaCha20(g) => g.seek(byte_offset),
            AnyGenerator::Crc(g) => g.seek(byte_offset),
        }
    }
}

/// One chunk of a stream's output.
pub struct DtStreamChunk {
    /// Position of the chunk among those of its stream since activation.
    pub index: u64,
    pub data: Vec<u8>,
}

/// The largest chunk factor a stream accepts.
pub const MAX_CHUNK_FACTOR: usize = 1048576;

/// The keystream of one thread id: a generator keyed with the thread's
/// derived key, cut into chunks of `chunk_factor` base blocks.
pub struct DtStream {
    stype: DtStreamType,
    seed: Vec<u8>,
    round_id: u64,
    invert_pattern: bool,
    thread_id: u32,
    generator: Option<AnyGenerator>,
    index: u64,
    chunk_factor: usize,
    cons: BufCacheCons,
}

impl DtStream {
    pub closed spec fn stype(&self) -> DtStreamType {
        self.stype
    }

    pub closed spec fn seed(&self) -> Seq<u8> {
        self.seed@
    }

    pub closed spec fn round_id(&self) -> u64 {
        self.round_id
    }

    pub closed spec fn invert(&self) -> bool {
        self.invert_pattern
    }

    pub closed spec fn thread_id(&self) -> u32 {
        self.thread_id
    }

    pub closed spec fn active(&self) -> bool {
        self.generator is Some
    }

    /// Offset of the next byte of the stream.
    pub closed spec fn pos(&self) -> nat {
        self.generator->Some_0.pos()
    }

    /// Index of the next chunk since activation.
    pub closed spec fn chunk_index(&self) -> u64 {
        self.index
    }

    pub closed spec fn factor(&self) -> nat {
        self.chunk_factor as nat
    }

    pub closed spec fn wf(&self) -> bool {
        &&& self.cons.id == self.thread_id
        &&& self.generator matches Some(g) ==> {
            &&& g.inv()
            &&& g.stype() == self.stype
            &&& g.key() == kdf_spec(self.seed@, self.thread_id, self.round_id)
            &&& 0 < self.chunk_factor <= MAX_CHUNK_FACTOR
        }
    }

    /// Creates an idle stream and registers its buffer consumer in `cache`.
    pub fn new(
        stype: DtStreamType,
        seed: Vec<u8>,
        round_id: u64,
        invert_pattern: bool,
        thread_id: u32,
        cache: &mut BufCache,
    ) -> (r: DtStream)
        requires
            old(cache).wf(),
        ensures
            r.wf(),
            !r.active(),
            r.stype() == stype,
            r.seed() == seed@,
            r.round_id() == round_id,
            r.invert() == invert_pattern,
            r.thread_id() == thread_id,
            final(cache).wf(),
            final(cache)@ == old(cache)@.insert(thread_id, Seq::<Seq<u8>>::empty()),
    {
        let cons = cache.new_consumer(thread_id);
        DtStream {
            stype,
            seed,
            round_id,
            invert_pattern,
            thread_id,
            generator: None,
            index: 0,
            chunk_factor: 1,
            cons,
        }
    }

    /// Stops the stream.
    pub fn stop(&mut self)
        requires
            old(self).wf(),
        ensures
            final(self).wf(),
            !final(self).active(),
            final(self).stype() == old(self).stype(),
            final(self).seed() == old(self).seed(),
            final(self).round_id() == old(self).round_id(),
            final(self).invert() == old(self).invert(),
            final(self).thread_id() == old(self).thread_id(),
    {
        self.generator = None;
    }

    /// (Re)starts the stream at `byte_offset`, with chunks of `chunk_factor` base blocks.
    pub fn activate(&mut self, byte_offset: u64, chunk_factor: usize) -> (r: Result<(), Error>)
        requires
            old(self).wf(),
            0 < chunk_factor <= MAX_CHUNK_FACTOR,
        ensures
            final(self).wf(),
            final(self).stype() == old(self).stype(),
            final(self).seed() == old(self).seed(),
            final(self).round_id() == old(self).round_id(),
            final(self).invert() == old(self).invert(),
            final(self).thread_id() == old(self).thread_id(),
            r is Ok <==> byte_offset % 2048 == 0,
            r is Ok ==> final(self).active() && final(self).pos() == byte_offset
                && final(self).factor() == chunk_factor && final(self).chunk_index() == 0,
            r is Err ==> !final(self).active() && r->Err_0.kind == ErrorKind::SeekAlignment,
    {
        self.stop();
        let key = kdf(self.seed.as_slice(), self.thread_id, self.round_id);
        let mut generator = AnyGenerator::new(self.stype, key.as_slice());
        match generator.seek(byte_offset) {
            Ok(()) => {},
            Err(e) => {
                return Err(e);
            },
        }
        self.generator = Some(generator);
        self.index = 0;
        self.chunk_factor = chunk_factor;
        Ok(())
    }

    pub fn is_active(&self) -> (r: bool)
        ensures
            r == self.active(),
    {
        self.generator.is_some()
    }

    /// Size of one base block of the generator, in bytes.
    pub fn get_generator_outsize(&self) -> (r: usize)
        ensures
            r == 2048,
    {
        2048
    }

    /// The number of base blocks in one chunk, for the stream's generator type.
    pub fn get_default_chunk_factor(&self) -> (r: usize)
        ensures
            r == 1536,
    {
        match self.stype {
            DtStreamType::ChaCha8 => GeneratorChaCha8::DEFAULT_CHUNK_FACTOR,
            DtStreamType::ChaCha12 => GeneratorChaCha12::DEFAULT_CHUNK_FACTOR,
            DtStreamType::ChaCha20 => GeneratorChaCha20::DEFAULT_CHUNK_FACTOR,
            DtStreamType::Crc => GeneratorCrc::DEFAULT_CHUNK_FACTOR,
        }
    }

    /// Size of one chunk, in bytes.
    pub fn get_chunk_size(&self) -> (r: usize)
        requires
            self.wf(),
            self.active(),
        ensures
            r == 2048 * self.factor(),
    {
        2048 * self.chunk_factor
    }

    /// Produces the next chunk: the `2048 * factor` stream bytes from the current
    /// position on, in a buffer taken from this stream's pool in `cache`.
    /// Fails, and changes nothing, where the chunk would pass offset `u64::MAX`.
    pub fn get_chunk(&mut self, cache: &mut BufCache) -> (r: Result<DtStreamChunk, Error>)
        requires
            old(self).wf(),
            old(self).active(),
            old(cache).wf(),
            old(cache)@.contains_key(old(self).thread_id()),
        ensures
            final(self).wf(),
            final(self).active(),
            final(self).stype() == old(self).stype(),
            final(self).seed() == old(self).seed(),
            final(self).round_id() == old(self).round_id(),
            final(self).invert() == old(self).invert(),
            final(self).thread_id() == old(self).thread_id(),
            final(self).factor() == old(self).factor(),
            final(cache).wf(),
            final(cache)@.dom() == old(cache)@.dom(),
            r is Ok <==> old(self).pos() + 2048 * old(self).factor() <= u64::MAX,
            r is Err ==> final(self).pos() == old(self).pos() && r->Err_0.kind == ErrorKind::Generator,
            r is Err ==> final(self).chunk_index() == old(self).chunk_index(),
            r matches Ok(c) ==> {
                &&& c.index == old(self).chunk_index()
                &&& final(self).chunk_index() == if old(self).chunk_index() < u64::MAX {
                    (old(self).chunk_index() + 1) as u64
                } else {
                    old(self).chunk_index()
                }
                &&& final(self).pos() == old(self).pos() + 2048 * old(self).factor()
                &&& c.data@.len() == 2048 * old(self).factor()
                &&& forall|m: int|
                    0 <= m < c.data@.len() ==> #[trigger] c.data@[m] == thread_stream_byte(
                        old(self).stype(),
                        old(self).seed(),
                        old(self).round_id(),
                        old(self).thread_id(),
                        old(self).invert(),
                        (old(self).pos() + m) as nat,
                    )
            },
    {
        let chunk_size: usize = 2048 * self.chunk_factor;
        let mut generator = self.generator.take().unwrap();
        let ghost g0 = generator;
        let p = generator_pos(&generator);
        if p > u64::MAX - chunk_size as u64 {
            self.generator = Some(generator);
            return Err(Error::new(ErrorKind::Generator));
        }
        let mut buf = self.cons.pull(cache, chunk_size);
        generator.next(buf.as_mut_slice(), self.chunk_factor);
        if self.invert_pattern {
            let mut i: usize = 0;
            while i < buf.len()
                invariant
                    i <= buf@.len(),
                    buf@.len() == chunk_size,
                    forall|m: int|
                        0 <= m < buf@.len() ==> #[trigger] buf@[m] == {
                            let b = gen_stream_byte(g0.stype(), g0.key(), (g0.pos() + m) as nat);
                            if m < i {
                                b ^ 0xffu8
                            } else {
                                b
                            }
                        },
                decreases buf@.len() - i,
            {
                let v = buf[i] ^ 0xffu8;
                buf.set(i, v);
                i = i + 1;
            }
        }
        self.generator = Some(generator);
        let index = self.index;
        self.index = if self.index < u64::MAX { self.index + 1 } else { self.index };
        Ok(DtStreamChunk { index, data: buf })
    }
}

/// The position of a generator, as a 64-bit number.
fn generator_pos(g: &AnyGenerator) -> (r: u64)
    requires
        g.inv(),
    ensures
        r == g.pos(),
{
    match g {
        AnyGenerator::ChaCha8(g) => g.get_pos(),
        AnyGenerator::ChaCha12(g) => g.get_pos(),
        AnyGenerator::ChaCha20(g) => g.get_pos(),
        AnyGenerator::Crc(g) => g.get_pos(),
    }
}

} // verus!
