use vstd::prelude::*;

use crate::bufcache::BufCache;
use crate::error::{Error, ErrorKind};
use crate::stream::{thread_stream_byte, DtStream, DtStreamType};

verus! {

/// Size of one chunk, in bytes: 1536 base blocks of 2048 bytes.
pub const CHUNK_SIZE: u64 = 3145728;

/// The largest number of streams.
pub const MAX_THREADS: usize = 65536;

/// Byte `j` of the aggregated keystream of `t` streams: chunks are taken from
/// the streams in turn, starting with stream 0.
pub open spec fn agg_stream_byte(
    stype: DtStreamType,
    seed: Seq<u8>,
    round_id: u64,
    invert: bool,
    t: nat,
    j: nat,
) -> u8 {
    let c = j / (CHUNK_SIZE as nat);
    let i = c % t;
    let k = c / t;
    thread_stream_byte(stype, seed, round_id, i as u32, invert, k * (CHUNK_SIZE as nat) + j % (CHUNK_SIZE as nat))
}

/// The number of chunks that stream `i` has produced once the global chunks
/// before `g` are out.
pub open spec fn stream_chunks_before(g: nat, t: nat, i: nat) -> nat {
    g / t + if i < g % t { 1nat } else { 0nat }
}

proof fn lemma_step(g: nat, t: nat, i: nat)
    requires
        0 < t,
        i < t,
    ensures
        stream_chunks_before(g + 1, t, i) == stream_chunks_before(g, t, i) + if i == g % t {
            1nat
        } else {
            0nat
        },
        (g + 1) % t == if g % t + 1 == t { 0 } else { g % t + 1 },
{
    let q = g / t;
    let r = g % t;
    vstd::arithmetic::div_mod::lemma_fundamental_div_mod(g as int, t as int);
    assert((q + 1) * t == t * q + t) by (nonlinear_arith);
    assert(q * t == t * q) by (nonlinear_arith);
    if r + 1 == t {
        vstd::arithmetic::div_mod::lemma_fundamental_div_mod_converse((g + 1) as int, t as int, (q + 1) as int, 0);
    } else {
        vstd::arithmetic::div_mod::lemma_fundamental_div_mod_converse((g + 1) as int, t as int, q as int, (r + 1) as int);
    }
}

proof fn lemma_chunk_bytes(g: nat, m: nat)
    requires
        m < CHUNK_SIZE,
    ensures
        (g * (CHUNK_SIZE as nat) + m) / (CHUNK_SIZE as nat) == g,
        (g * (CHUNK_SIZE as nat) + m) % (CHUNK_SIZE as nat) == m,
{
    vstd::arithmetic::div_mod::lemma_fundamental_div_mod_converse(
        (g * (CHUNK_SIZE as nat) + m) as int,
        CHUNK_SIZE as int,
        g as int,
        m as int,
    );
}

/// A chunk handed out by the aggregator.
pub struct DtStreamAggChunk {
    data: Vec<u8>,
    thread_id: u32,
}

impl DtStreamAggChunk {
    pub closed spec fn data(&self) -> Seq<u8> {
        self.data@
    }

    pub closed spec fn thread(&self) -> u32 {
        self.thread_id
    }

    pub fn get_data(&self) -> (r: &[u8])
        ensures
            r@ == self.data(),
    {
        self.data.as_slice()
    }
}

/// What activation settled on.
pub struct DtStreamAggActivateResult {
    /// The start offset, rounded down to a chunk boundary.
    pub byte_offset: u64,
    /// Size of one chunk, in bytes.
    pub chunk_size: u64,
}

/// Interleaves the chunks of `num_threads` streams into one keystream.
pub struct DtStreamAgg {
    num_threads: usize,
    streams: Vec<DtStream>,
    cache: BufCache,
    current_index: usize,
    is_active: bool,
    stype: DtStreamType,
    seed: Ghost<Seq<u8>>,
    round_id: u64,
    invert_pattern: bool,
    next_offset: u64,
    chunk_index: Ghost<nat>,
}

impl DtStreamAgg {
    pub closed spec fn stype(&self) -> DtStreamType {
        self.stype
    }

    pub closed spec fn seed(&self) -> Seq<u8> {
        self.seed@
    }

    pub closed spec fn round_id(&self) -> u64 {
        self.round_id
    }

    pub closed spec fn invert(&self) -> bool {
        self.invert_pattern
    }

    pub closed spec fn threads(&self) -> nat {
        self.num_threads as nat
    }

    pub closed spec fn active(&self) -> bool {
        self.is_active
    }

    /// The buffers waiting for reuse, for each stream.
    pub closed spec fn pools(&self) -> Map<u32, Seq<Seq<u8>>> {
        self.cache@
    }

    /// Offset of the next byte that `wait_chunk` hands out.
    pub closed spec fn position(&self) -> nat {
        self.chunk_index@ * (CHUNK_SIZE as nat)
    }

    pub closed spec fn wf(&self) -> bool {
        &&& 0 < self.num_threads <= MAX_THREADS
        &&& self.streams@.len() == self.num_threads
        &&& self.cache.wf()
        &&& forall|i: int|
            0 <= i < self.num_threads ==> {
                let s = #[trigger] self.streams@[i];
                &&& s.wf()
                &&& s.stype() == self.stype
                &&& s.seed() == self.seed@
                &&& s.round_id() == self.round_id
                &&& s.invert() == self.invert_pattern
                &&& s.thread_id() == i as u32
                &&& self.cache@.contains_key(i as u32)
            }
        &&& self.is_active ==> {
            &&& self.current_index == self.chunk_index@ % (self.num_threads as nat)
            &&& self.position() == self.next_offset
            &&& forall|i: int|
                0 <= i < self.num_threads ==> {
                    let s = #[trigger] self.streams@[i];
                    &&& s.active()
                    &&& s.factor() == 1536
                    &&& s.pos() == stream_chunks_before(
                        self.chunk_index@,
                        self.num_threads as nat,
                        i as nat,
                    ) * (CHUNK_SIZE as nat)
                }
        }
    }

    /// Creates `num_threads` idle streams of type `stype` for the seed and round.
    pub fn new(
        stype: DtStreamType,
        seed: Vec<u8>,
        round_id: u64,
        invert_pattern: bool,
        num_threads: usize,
    ) -> (r: DtStreamAgg)
        requires
            0 < num_threads <= MAX_THREADS,
        ensures
            r.wf(),
            !r.active(),
            r.stype() == stype,
            r.seed() == seed@,
            r.round_id() == round_id,
            r.invert() == invert_pattern,
            r.threads() == num_threads,
    {
        let mut cache = BufCache::new();
        let mut streams: Vec<DtStream> = Vec::new();
        let mut i: usize = 0;
        while i < num_threads
            invariant
                i <= num_threads <= MAX_THREADS,
                streams@.len() == i,
                cache.wf(),
                forall|k: int|
                    0 <= k < i ==> {
                        let s = #[trigger] streams@[k];
                        &&& s.wf()
                        &&& s.stype() == stype
                        &&& s.seed() == seed@
                        &&& s.round_id() == round_id
                        &&& s.invert() == invert_pattern
                        &&& s.thread_id() == k as u32
                        &&& cache@.contains_key(k as u32)
                    },
            decreases num_threads - i,
        {
            let s = DtStream::new(stype, seed.clone(), round_id, invert_pattern, i as u32, &mut cache);
            streams.push(s);
            i = i + 1;
        }
        DtStreamAgg {
            num_threads,
            streams,
            cache,
            current_index: 0,
            is_active: false,
            stype,
            seed: Ghost(seed@),
            round_id,
            invert_pattern,
            next_offset: 0,
            chunk_index: Ghost(0),
        }
    }

    /// The chunk size for a device with sectors of `sector_size` bytes, and the
    /// chunk factor.
    fn calc_chunk_size(&self, sector_size: u32) -> (r: Result<(u64, u64), Error>)
        ensures
            r is Ok <==> sector_size != 0 && CHUNK_SIZE % (sector_size as u64) == 0,
            r matches Ok(v) ==> v == (CHUNK_SIZE, 1536u64),
            r matches Err(e) ==> e.kind == ErrorKind::GeometryMismatch,
    {
        let chunk_factor: u64 = 1536;
        let chunk_size: u64 = 2048 * chunk_factor;
        if sector_size == 0 || chunk_size % (sector_size as u64) != 0 {
            return Err(Error::new(ErrorKind::GeometryMismatch));
        }
        Ok((chunk_size, chunk_factor))
    }

    /// Starts all streams so that the aggregated keystream begins at
    /// `byte_offset`, rounded down to a chunk boundary.
    ///
    /// Fails with `GeometryMismatch` where the chunk size is not a multiple of
    /// `sector_size`, and with `SeekAlignment` where the chunk at the rounded
    /// offset would pass offset `u64::MAX`.
    pub fn activate(&mut self, byte_offset: u64, sector_size: u32) -> (r: Result<
        DtStreamAggActivateResult,
        Error,
    >)
        requires
            old(self).wf(),
        ensures
            final(self).wf(),
            final(self).stype() == old(self).stype(),
            final(self).seed() == old(self).seed(),
            final(self).round_id() == old(self).round_id(),
            final(self).invert() == old(self).invert(),
            final(self).threads() == old(self).threads(),
            sector_size == 0 || CHUNK_SIZE % (sector_size as u64) != 0 ==> r is Err
                && r->Err_0.kind == ErrorKind::GeometryMismatch && final(self).active() == old(
                self,
            ).active() && final(self).position() == old(self).position(),
            sector_size != 0 && CHUNK_SIZE % (sector_size as u64) == 0 ==> {
                let adjusted = byte_offset - byte_offset % CHUNK_SIZE;
                &&& adjusted + CHUNK_SIZE > u64::MAX ==> r is Err && r->Err_0.kind
                    == ErrorKind::SeekAlignment
                &&& adjusted + CHUNK_SIZE <= u64::MAX ==> (r matches Ok(res) && res.byte_offset
                    == adjusted && res.chunk_size == CHUNK_SIZE && final(self).active()
                    && final(self).position() == adjusted)
            },
    {
        let (chunk_size, chunk_factor) = match self.calc_chunk_size(sector_size) {
            Ok(v) => v,
            Err(e) => {
                return Err(e);
            },
        };
        self.is_active = false;
        let chunk_index: u64 = byte_offset / chunk_size;
        let adjusted: u64 = byte_offset - byte_offset % chunk_size;
        proof {
            vstd::arithmetic::div_mod::lemma_fundamental_div_mod(byte_offset as int, CHUNK_SIZE as int);
            assert(adjusted == chunk_index * CHUNK_SIZE);
        }
        if adjusted > u64::MAX - chunk_size {
            return Err(Error::new(ErrorKind::SeekAlignment));
        }
        let t: u64 = self.num_threads as u64;
        let current: u64 = chunk_index % t;
        let iteration: u64 = chunk_index / t;
        let ghost g = chunk_index as nat;
        proof {
            assert(iteration <= chunk_index) by (nonlinear_arith)
                requires
                    iteration == chunk_index / t,
                    t >= 1,
            ;
            assert((iteration + 1) * CHUNK_SIZE <= (chunk_index + 1) * CHUNK_SIZE) by (nonlinear_arith)
                requires
                    iteration <= chunk_index,
            ;
        }
        let mut i: usize = 0;
        while i < self.num_threads
            invariant
                0 < self.num_threads <= MAX_THREADS,
                self.streams@.len() == self.num_threads,
                self.cache.wf(),
                !self.is_active,
                t == self.num_threads,
                chunk_size == CHUNK_SIZE,
                chunk_factor == 1536,
                current == g % (t as nat),
                iteration == g / (t as nat),
                (iteration + 1) * CHUNK_SIZE <= u64::MAX,
                i <= self.num_threads,
                self.stype == old(self).stype,
                self.seed == old(self).seed,
                self.round_id == old(self).round_id,
                self.invert_pattern == old(self).invert_pattern,
                self.num_threads == old(self).num_threads,
                forall|k: int|
                    0 <= k < self.num_threads ==> {
                        let s = #[trigger] self.streams@[k];
                        &&& s.wf()
                        &&& s.stype() == self.stype
                        &&& s.seed() == self.seed@
                        &&& s.round_id() == self.round_id
                        &&& s.invert() == self.invert_pattern
                        &&& s.thread_id() == k as u32
                        &&& self.cache@.contains_key(k as u32)
                    },
                forall|k: int|
                    0 <= k < i ==> {
                        let s = #[trigger] self.streams@[k];
                        &&& s.active()
                        &&& s.factor() == 1536
                        &&& s.pos() == stream_chunks_before(g, t as nat, k as nat) * (
                        CHUNK_SIZE as nat)
                    },
            decreases self.num_threads - i,
        {
            let k: u64 = if (i as u64) < current {
                iteration + 1
            } else {
                iteration
            };
            let thread_offset: u64 = k * chunk_size;
            proof {
                assert(k * CHUNK_SIZE <= (iteration + 1) * CHUNK_SIZE) by (nonlinear_arith)
                    requires
                        k <= iteration + 1,
                ;
                assert(k * 3145728 == (k * 1536) * 2048) by (nonlinear_arith);
                vstd::arithmetic::div_mod::lemma_mod_multiples_basic((k * 1536) as int, 2048);
            }
            let res = self.streams[i].activate(thread_offset, chunk_factor as usize);
            match res {
                Ok(()) => {},
                Err(e) => {
                    return Err(e);
                },
            }
            i = i + 1;
        }
        self.current_index = current as usize;
        self.next_offset = adjusted;
        self.chunk_index = Ghost(g);
        self.is_active = true;
        Ok(DtStreamAggActivateResult { byte_offset: adjusted, chunk_size })
    }

    pub fn is_active(&self) -> (r: bool)
        ensures
            r == self.active(),
    {
        self.is_active
    }

    /// Size of one chunk, in bytes.
    pub fn get_chunk_size(&self) -> (r: u64)
        ensures
            r == CHUNK_SIZE,
    {
        CHUNK_SIZE
    }

    /// The number of base blocks in one chunk.
    pub fn get_default_chunk_factor(&self) -> (r: usize)
        ensures
            r == 1536,
    {
        1536
    }

    /// Hands out the next chunk of the aggregated keystream: the `CHUNK_SIZE`
    /// bytes from `position()` on. Fails, and changes nothing, where that chunk
    /// would pass offset `u64::MAX`.
    pub fn wait_chunk(&mut self) -> (r: Result<DtStreamAggChunk, Error>)
        requires
            old(self).wf(),
            old(self).active(),
        ensures
            final(self).wf(),
            final(self).active(),
            final(self).stype() == old(self).stype(),
            final(self).seed() == old(self).seed(),
            final(self).round_id() == old(self).round_id(),
            final(self).invert() == old(self).invert(),
            final(self).threads() == old(self).threads(),
            r is Ok <==> old(self).position() + CHUNK_SIZE <= u64::MAX,
            r is Err ==> final(self).position() == old(self).position() && r->Err_0.kind
                == ErrorKind::Generator,
            r matches Ok(c) ==> {
                &&& final(self).position() == old(self).position() + CHUNK_SIZE
                &&& c.thread() < old(self).threads()
                &&& c.thread() as nat == (old(self).position() / (CHUNK_SIZE as nat)) % old(
                    self,
                ).threads()
                &&& c.data().len() == CHUNK_SIZE
                &&& forall|m: int|
                    0 <= m < CHUNK_SIZE ==> #[trigger] c.data()[m] == agg_stream_byte(
                        old(self).stype(),
                        old(self).seed(),
                        old(self).round_id(),
                        old(self).invert(),
                        old(self).threads(),
                        (old(self).position() + m) as nat,
                    )
            },
    {
        if self.next_offset > u64::MAX - CHUNK_SIZE {
            return Err(Error::new(ErrorKind::Generator));
        }
        let ghost g = self.chunk_index@;
        let ghost t = self.num_threads as nat;
        let ci = self.current_index;
        proof {
            vstd::arithmetic::div_mod::lemma_fundamental_div_mod(g as int, t as int);
            assert(g / t <= g) by (nonlinear_arith)
                requires
                    t >= 1,
            ;
            assert(self.streams@[ci as int].pos() == (g / t) * CHUNK_SIZE);
            assert((g / t) * CHUNK_SIZE <= g * CHUNK_SIZE) by (nonlinear_arith)
                requires
                    g / t <= g,
            ;
        }
        let ghost s0 = self.streams@[ci as int];
        proof {
            lemma_chunk_bytes(g, 0);
        }
        let res = self.streams[ci].get_chunk(&mut self.cache);
        let chunk = match res {
            Ok(c) => c,
            Err(e) => {
                return Err(e);
            },
        };
        let next = if ci + 1 == self.num_threads {
            0
        } else {
            ci + 1
        };
        self.current_index = next;
        self.next_offset = self.next_offset + CHUNK_SIZE;
        self.chunk_index = Ghost(g + 1);
        proof {
            assert forall|i: int| 0 <= i < self.num_threads implies {
                let s = #[trigger] self.streams@[i];
                &&& s.active()
                &&& s.factor() == 1536
                &&& s.pos() == stream_chunks_before(g + 1, t, i as nat) * (CHUNK_SIZE as nat)
            } by {
                lemma_step(g, t, i as nat);
            }
            lemma_step(g, t, 0);
            assert forall|m: int| 0 <= m < CHUNK_SIZE implies #[trigger] chunk.data@[m] == agg_stream_byte(
                self.stype,
                self.seed@,
                self.round_id,
                self.invert_pattern,
                t,
                (g * CHUNK_SIZE + m) as nat,
            ) by {
                lemma_chunk_bytes(g, m as nat);
            }
        }
        Ok(DtStreamAggChunk { data: chunk.data, thread_id: ci as u32 })
    }

    /// Returns the buffer of a used chunk to its stream's pool.
    pub fn recycle(&mut self, chunk: DtStreamAggChunk)
        requires
            old(self).wf(),
            chunk.thread() < old(self).threads(),
        ensures
            final(self).wf(),
            final(self).active() == old(self).active(),
            final(self).position() == old(self).position(),
            final(self).stype() == old(self).stype(),
            final(self).seed() == old(self).seed(),
            final(self).round_id() == old(self).round_id(),
            final(self).invert() == old(self).invert(),
            final(self).threads() == old(self).threads(),
            final(self).pools() == old(self).pools().insert(
                chunk.thread(),
                old(self).pools()[chunk.thread()].push(chunk.data()),
            ),
    {
        proof {
            let k = chunk.thread_id as int;
            assert(self.cache@.contains_key(self.streams@[k].thread_id()));
        }
        self.cache.push(chunk.thread_id, chunk.data);
    }
}

} // verus!
