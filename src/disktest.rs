use vstd::prelude::*;

use crate::error::{Error, ErrorKind};
use crate::rawio::{overwrite, read_count, same_model, same_params, RawIo, RawIoOsIntf, RawIoResult, DEFAULT_SECTOR_SIZE};
use crate::stream::DtStreamType;
use crate::stream_aggregator::{agg_stream_byte, DtStreamAgg, CHUNK_SIZE, MAX_THREADS};
use std::sync::atomic::{AtomicBool, Ordering};
use std::sync::Arc;
use vstd::slice::slice_subrange;

verus! {

/// How much the run reports, from everything to warnings only.
#[derive(Clone, Copy, Debug, PartialEq, Eq, PartialOrd, Ord, Structural)]
pub enum DisktestQuiet {
    Normal,
    Reduced,
    NoInfo,
    NoWarn,
}

impl DisktestQuiet {
    /// The level as a number: 0 for `Normal` up to 3 for `NoWarn`.
    pub fn level(&self) -> (r: u8)
        ensures
            r == match self {
                DisktestQuiet::Normal => 0u8,
                DisktestQuiet::Reduced => 1u8,
                DisktestQuiet::NoInfo => 2u8,
                DisktestQuiet::NoWarn => 3u8,
            },
    {
        match self {
            DisktestQuiet::Normal => 0,
            DisktestQuiet::Reduced => 1,
            DisktestQuiet::NoInfo => 2,
            DisktestQuiet::NoWarn => 3,
        }
    }
}

/// `n` bytes of the aggregated keystream, from offset `start` on.
pub open spec fn keystream(
    stype: DtStreamType,
    seed: Seq<u8>,
    round_id: u64,
    invert: bool,
    threads: nat,
    start: nat,
    n: nat,
) -> Seq<u8> {
    Seq::new(n, |j: int| agg_stream_byte(stype, seed, round_id, invert, threads, (start + j) as nat))
}

/// `offset` rounded down to a chunk boundary.
pub open spec fn chunk_floor(offset: u64) -> nat {
    (offset - offset % CHUNK_SIZE) as nat
}

/// Writing `n + m` bytes from offset zero hands out the same bytes as writing
/// `n` bytes from offset zero and then `m` bytes from offset `n`, where `n` is
/// a chunk boundary.
pub proof fn lemma_seek_equivalence(
    stype: DtStreamType,
    seed: Seq<u8>,
    round_id: u64,
    invert: bool,
    threads: nat,
    n: u64,
    m: nat,
)
    requires
        n % CHUNK_SIZE == 0,
    ensures
        chunk_floor(0) == 0,
        chunk_floor(n) == n,
        keystream(stype, seed, round_id, invert, threads, 0, (n + m) as nat) == keystream(
            stype,
            seed,
            round_id,
            invert,
            threads,
            0,
            n as nat,
        ) + keystream(stype, seed, round_id, invert, threads, chunk_floor(n), m),
{
    assert(keystream(stype, seed, round_id, invert, threads, 0, (n + m) as nat) =~= keystream(
        stype,
        seed,
        round_id,
        invert,
        threads,
        0,
        n as nat,
    ) + keystream(stype, seed, round_id, invert, threads, n as nat, m));
}

/// Two runs with the same seed, round, algorithm, inversion, thread count and
/// start offset hand out byte-identical streams up to their common length.
pub proof fn lemma_determinism(
    stype: DtStreamType,
    seed: Seq<u8>,
    round_id: u64,
    invert: bool,
    threads: nat,
    start: nat,
    n1: nat,
    n2: nat,
)
    requires
        n1 <= n2,
    ensures
        keystream(stype, seed, round_id, invert, threads, start, n1) == keystream(
            stype,
            seed,
            round_id,
            invert,
            threads,
            start,
            n2,
        ).subrange(0, n1 as int),
{
    assert(keystream(stype, seed, round_id, invert, threads, start, n1) =~= keystream(
        stype,
        seed,
        round_id,
        invert,
        threads,
        start,
        n2,
    ).subrange(0, n1 as int));
}

/// A start offset `q * CHUNK_SIZE + e` inside chunk `q` selects the same
/// stream position as the chunk boundary `q * CHUNK_SIZE`.
pub proof fn lemma_offset_adjustment(q: u64, e: u64)
    requires
        e < CHUNK_SIZE,
        q * CHUNK_SIZE + e <= u64::MAX,
    ensures
        chunk_floor((q * CHUNK_SIZE + e) as u64) == q * CHUNK_SIZE,
{
    vstd::arithmetic::div_mod::lemma_fundamental_div_mod_converse(
        (q * CHUNK_SIZE + e) as int,
        CHUNK_SIZE as int,
        q as int,
        e as int,
    );
}

/// Receives the progress of a run.
pub trait ProgressSink {
    /// `processed` more bytes are done; `total` since the run started.
    fn progress(&mut self, processed: u64, total: u64);
}

/// A sink that ignores progress.
pub struct NoProgress;

impl ProgressSink for NoProgress {
    fn progress(&mut self, processed: u64, total: u64) {
    }
}

/// `seek` rounded down to a chunk boundary: where a run actually starts.
pub fn seek_rounding(seek: u64) -> (r: u64)
    ensures
        r == chunk_floor(seek),
{
    seek - seek % CHUNK_SIZE
}

/// Whether a byte limit is worth a warning on a device with the given sector
/// size: it is a limit, and not a whole number of sectors.
pub fn max_bytes_misaligned(max_bytes: u64, sector_size: Option<u32>) -> (r: bool)
    ensures
        r == (sector_size matches Some(s) && s > 0 && max_bytes < u64::MAX && max_bytes % (s as u64)
            != 0),
{
    match sector_size {
        Some(s) => s > 0 && max_bytes < u64::MAX && max_bytes % (s as u64) != 0,
        None => false,
    }
}

/// Whether a device with this sector size can take whole chunks; a device
/// that reports none is taken to have sectors of 512 bytes.
pub open spec fn sector_fits(sector_size: Option<u32>) -> bool {
    match sector_size {
        Some(x) => x != 0 && CHUNK_SIZE % (x as u64) == 0,
        None => true,
    }
}

/// The contents `c` after the bytes `t` were written from offset `s`; no
/// change where nothing was written.
pub open spec fn written_over(c: Seq<u8>, s: nat, t: Seq<u8>) -> Seq<u8> {
    if t.len() == 0 {
        c
    } else {
        overwrite(c, s, t)
    }
}

proof fn lemma_written_over_append(c: Seq<u8>, s: nat, t: Seq<u8>, b: Seq<u8>)
    requires
        b.len() > 0,
    ensures
        overwrite(written_over(c, s, t), s + t.len(), b) == written_over(c, s, t + b),
{
    let lhs = overwrite(written_over(c, s, t), s + t.len(), b);
    let rhs = written_over(c, s, t + b);
    if t.len() > 0 {
        assert forall|i: int| 0 <= i < rhs.len() implies #[trigger] lhs[i] == rhs[i] by {
            if s <= i < s + t.len() {
                assert((t + b)[i - s] == t[i - s]);
            } else if s + t.len() <= i < s + t.len() + b.len() {
                assert((t + b)[i - s] == b[i - s - t.len()]);
            }
        }
        assert(lhs =~= rhs);
    } else {
        assert(t + b =~= b);
        assert(lhs =~= rhs);
    }
}

/// What a modelled endpoint holds.
pub open spec fn contents_of<F: RawIoOsIntf>(f: F) -> Seq<u8> {
    f.model()->Some_0.0
}

/// Where a modelled endpoint's cursor stands.
pub open spec fn cursor_of<F: RawIoOsIntf>(f: F) -> nat {
    f.model()->Some_0.1
}

/// How many bytes a verification from `start` checks on a device of `len`
/// bytes under the limit `max_bytes`.
pub open spec fn verify_len(len: nat, start: nat, max_bytes: u64) -> nat {
    if max_bytes <= len - start {
        max_bytes as nat
    } else {
        (len - start) as nat
    }
}

/// The size a modelled endpoint is bounded by.
pub open spec fn capacity_of<F: RawIoOsIntf>(f: F) -> u64 {
    f.model_capacity()->Some_0
}

/// An unlimited write that runs until a modelled endpoint is full, where the
/// room from the rounded start to the bound is a whole number of chunks.
pub open spec fn fills_up<F: RawIoOsIntf>(dt: Disktest, file: DisktestFile<F>, seek: u64, max_bytes: u64) -> bool {
    let e = file.endpoint();
    &&& !dt.abortable()
    &&& e.model() is Some
    &&& e.model_capacity() is Some
    &&& sector_fits(e.model_sector())
    &&& max_bytes == Disktest::UNLIMITED
    &&& chunk_floor(seek) <= capacity_of(e)
    &&& (capacity_of(e) - chunk_floor(seek)) % (CHUNK_SIZE as int) == 0
    &&& capacity_of(e) + CHUNK_SIZE <= usize::MAX
    &&& capacity_of(e) + CHUNK_SIZE <= u64::MAX
}

/// A limited write on a modelled endpoint whose bound lies before the end of
/// the range to be written.
pub open spec fn overfills<F: RawIoOsIntf>(dt: Disktest, file: DisktestFile<F>, seek: u64, max_bytes: u64) -> bool {
    let e = file.endpoint();
    &&& !dt.abortable()
    &&& e.model() is Some
    &&& e.model_capacity() is Some
    &&& sector_fits(e.model_sector())
    &&& max_bytes < Disktest::UNLIMITED
    &&& 0 < max_bytes
    &&& capacity_of(e) < chunk_floor(seek) + max_bytes
    &&& chunk_floor(seek) + max_bytes + CHUNK_SIZE <= usize::MAX
    &&& chunk_floor(seek) + max_bytes + CHUNK_SIZE <= u64::MAX
}

proof fn lemma_last_chunk(w: nat, room: nat)
    requires
        w <= room,
        w % (CHUNK_SIZE as nat) == 0,
        room % (CHUNK_SIZE as nat) == 0,
        w + CHUNK_SIZE > room,
    ensures
        w == room,
{
    let cs = CHUNK_SIZE as int;
    vstd::arithmetic::div_mod::lemma_fundamental_div_mod(w as int, cs);
    vstd::arithmetic::div_mod::lemma_fundamental_div_mod(room as int, cs);
    let a = w as int / cs;
    let b = room as int / cs;
    assert(a == b) by (nonlinear_arith)
        requires
            w == cs * a,
            room == cs * b,
            w <= room,
            w + cs > room,
            cs > 0,
    ;
}

/// Copies the first `n` bytes of `tmp` into `buffer` from offset `at` on.
fn copy_read(buffer: &mut Vec<u8>, at: usize, tmp: &Vec<u8>, n: usize)
    requires
        at + n <= old(buffer)@.len(),
        n <= tmp@.len(),
    ensures
        final(buffer)@.len() == old(buffer)@.len(),
        final(buffer)@.subrange(0, (at + n) as int) == old(buffer)@.subrange(0, at as int)
            + tmp@.subrange(0, n as int),
{
    let ghost b0 = buffer@;
    let blen = buffer.len();
    let mut k: usize = 0;
    while k < n
        invariant
            blen == buffer@.len(),
            k <= n <= tmp@.len(),
            at + n <= b0.len(),
            buffer@.len() == b0.len(),
            buffer@.subrange(0, at as int) == b0.subrange(0, at as int),
            forall|m: int| 0 <= m < k ==> #[trigger] buffer@[at + m] == tmp@[m],
        decreases n - k,
    {
        buffer.set(at + k, tmp[k]);
        proof {
            assert(buffer@.subrange(0, at as int) =~= b0.subrange(0, at as int));
        }
        k = k + 1;
    }
    proof {
        let lhs = buffer@.subrange(0, (at + n) as int);
        let rhs = b0.subrange(0, at as int) + tmp@.subrange(0, n as int);
        assert forall|j: int| 0 <= j < at + n implies #[trigger] lhs[j] == rhs[j] by {
            if j >= at {
                assert(buffer@[at + (j - at)] == tmp@[j - at]);
            } else {
                assert(buffer@.subrange(0, at as int)[j] == b0.subrange(0, at as int)[j]);
            }
        }
        assert(lhs =~= rhs);
    }
}

proof fn lemma_buffer_model(buf: Seq<u8>, b0: Seq<u8>, at: int, n: int, c: Seq<u8>, base: int)
    requires
        0 <= at,
        0 <= n,
        at + n <= buf.len(),
        at <= b0.len(),
        buf.subrange(0, at) == b0.subrange(0, at),
        forall|j: int| 0 <= j < at ==> #[trigger] b0[j] == c[base + j],
        forall|j: int| 0 <= j < n ==> #[trigger] buf[at + j] == c[base + at + j],
    ensures
        forall|j: int| 0 <= j < at + n ==> #[trigger] buf[j] == c[base + j],
{
    assert forall|j: int| 0 <= j < at + n implies #[trigger] buf[j] == c[base + j] by {
        if j >= at {
            assert(buf[at + (j - at)] == c[base + at + (j - at)]);
        } else {
            assert(buf.subrange(0, at)[j] == b0.subrange(0, at)[j]);
            assert(buf.subrange(0, at)[j] == buf[j]);
            assert(b0.subrange(0, at)[j] == b0[j]);
            assert(b0[j] == c[base + j]);
        }
    }
}

/// Reads up to `want` more bytes into `buffer` from offset `at` on.
fn read_more<F: RawIoOsIntf>(file: &mut DisktestFile<F>, buffer: &mut Vec<u8>, at: usize, want: usize) -> (r:
    Result<usize, Error>)
    requires
        at + want <= old(buffer)@.len(),
    ensures
        final(buffer)@.len() == old(buffer)@.len(),
        final(buffer)@.subrange(0, at as int) == old(buffer)@.subrange(0, at as int),
        final(file).written() == old(file).written(),
        final(file).write_calls() == old(file).write_calls(),
        r matches Err(e) ==> e.kind == ErrorKind::Io,
        r is Err ==> final(file).read_back() == old(file).read_back(),
        final(file).closes() >= old(file).closes(),
        r matches Ok(n) ==> n <= want && final(file).read_back() == old(file).read_back()
            + final(buffer)@.subrange(at as int, at + n),
        old(file).endpoint().model() matches Some((c, p)) ==> {
            let n = read_count(c, p, want as nat);
            &&& r == Ok::<usize, Error>(n as usize)
            &&& forall|j: int| 0 <= j < n ==> #[trigger] final(buffer)@[at + j] == c[p + j]
            &&& final(file).endpoint().model() == Some((c, (p + n) as nat))
            &&& same_params(old(file).endpoint(), final(file).endpoint())
        },
{
    let mut tmp: Vec<u8> = vec![0u8; want];
    let n: usize = match file.read(tmp.as_mut_slice()) {
        Ok(RawIoResult::Processed(n)) => n,
        Ok(RawIoResult::Enospc) => {
            return Err(Error::new(ErrorKind::Io));
        },
        Err(_) => {
            return Err(Error::new(ErrorKind::Io));
        },
    };
    let ghost b0 = buffer@;
    copy_read(buffer, at, &tmp, n);
    proof {
        let lhs = buffer@.subrange(0, (at + n) as int);
        let rhs = b0.subrange(0, at as int) + tmp@.subrange(0, n as int);
        assert forall|j: int| 0 <= j < at implies #[trigger] buffer@.subrange(0, at as int)[j] == b0.subrange(0, at as int)[j] by {
            assert(lhs[j] == rhs[j]);
        }
        assert(buffer@.subrange(0, at as int) =~= b0.subrange(0, at as int));
        assert forall|j: int| 0 <= j < n implies #[trigger] buffer@.subrange(at as int, at + n)[j] == tmp@.subrange(0, n as int)[j] by {
            assert(lhs[at + j] == rhs[at + j]);
        }
        assert(buffer@.subrange(at as int, at + n) =~= tmp@.subrange(0, n as int));
        assert forall|j: int| 0 <= j < n implies #[trigger] buffer@[at + j] == tmp@[j] by {
            assert(lhs[at + j] == rhs[at + j]);
        }
    }
    Ok(n)
}

proof fn lemma_seq_extend(t: Seq<u8>, g: Seq<u8>, c: Seq<u8>, s: int, br: int, k: int)
    requires
        0 <= s,
        0 <= br,
        0 <= k <= g.len(),
        s + br + k <= c.len(),
        t == c.subrange(s, s + br),
        forall|j: int| 0 <= j < k ==> #[trigger] g[j] == c[s + br + j],
    ensures
        t + g.subrange(0, k) == c.subrange(s, s + br + k),
{
    assert forall|j: int| 0 <= j < br + k implies #[trigger] (t + g.subrange(0, k))[j] == c.subrange(s, s + br + k)[j] by {
        if j >= br {
            assert(g[j - br] == c[s + br + (j - br)]);
        }
    }
    assert(t + g.subrange(0, k) =~= c.subrange(s, s + br + k));
}

proof fn lemma_ks_extend(
    t: Seq<u8>,
    g: Seq<u8>,
    stype: DtStreamType,
    seed: Seq<u8>,
    round_id: u64,
    invert: bool,
    threads: nat,
    start: nat,
    br: nat,
    k: nat,
)
    requires
        k <= g.len(),
        t == keystream(stype, seed, round_id, invert, threads, start, br),
        forall|j: int|
            0 <= j < k ==> #[trigger] g[j] == agg_stream_byte(
                stype,
                seed,
                round_id,
                invert,
                threads,
                (start + br + j) as nat,
            ),
    ensures
        t + g.subrange(0, k as int) == keystream(stype, seed, round_id, invert, threads, start, br + k),
{
    let ks = keystream(stype, seed, round_id, invert, threads, start, br + k);
    assert forall|j: int| 0 <= j < br + k implies #[trigger] (t + g.subrange(0, k as int))[j] == ks[j] by {
        if j >= br {
            assert(g[j - br] == agg_stream_byte(stype, seed, round_id, invert, threads, (start + br + (j - br)) as nat));
        }
    }
    assert(t + g.subrange(0, k as int) =~= ks);
}

/// The endpoint of one run, with the range written since the last seek,
/// whose operating system caches are dropped on close.
pub struct DisktestFile<F: RawIoOsIntf> {
    io: RawIo<F>,
    read: bool,
    write: bool,
    drop_offset: u64,
    drop_count: u64,
    written: Ghost<Seq<u8>>,
    read_back: Ghost<Seq<u8>>,
    write_calls: Ghost<nat>,
    refused: Ghost<nat>,
    failed: Ghost<nat>,
    last_refused: Ghost<bool>,
    closes: Ghost<nat>,
}

impl<F: RawIoOsIntf> DisktestFile<F> {
    /// The bytes of all writes that the endpoint took, in order.
    pub closed spec fn written(&self) -> Seq<u8> {
        self.written@
    }

    /// The bytes of all reads that the endpoint answered, in order.
    pub closed spec fn read_back(&self) -> Seq<u8> {
        self.read_back@
    }

    /// The number of write calls made on the endpoint.
    pub closed spec fn write_calls(&self) -> nat {
        self.write_calls@
    }

    /// The endpoint.
    pub closed spec fn endpoint(&self) -> F {
        self.io.os()
    }

    /// The three records together.
    /// The write calls the endpoint refused (out of space or failed), those
    /// that failed, and whether the last write call was refused.
    pub closed spec fn refusals(&self) -> (nat, nat, bool) {
        (self.refused@, self.failed@, self.last_refused@)
    }

    /// How many times the endpoint was closed.
    pub closed spec fn closes(&self) -> nat {
        self.closes@
    }

    /// The records together.
    pub open spec fn logs(&self) -> (Seq<u8>, Seq<u8>, nat) {
        (self.written(), self.read_back(), self.write_calls())
    }

    /// Start and length of the range written since the last seek.
    pub closed spec fn drop_range(&self) -> (u64, u64) {
        (self.drop_offset, self.drop_count)
    }

    /// Whether the run reads, and whether it writes.
    pub closed spec fn mode(&self) -> (bool, bool) {
        (self.read, self.write)
    }

    /// Takes an open endpoint for a run that reads, writes, or both.
    pub fn open(io: F, read: bool, write: bool) -> (r: DisktestFile<F>)
        ensures
            r.drop_range() == (0u64, 0u64),
            r.mode() == (read, write),
            r.logs() == (Seq::<u8>::empty(), Seq::<u8>::empty(), 0nat),
            r.refusals() == (0nat, 0nat, false),
            r.endpoint() == io,
    {
        DisktestFile {
            io: RawIo::new(io),
            read,
            write,
            drop_offset: 0,
            drop_count: 0,
            written: Ghost(Seq::empty()),
            read_back: Ghost(Seq::empty()),
            write_calls: Ghost(0),
            refused: Ghost(0),
            failed: Ghost(0),
            last_refused: Ghost(false),
            closes: Ghost(0),
        }
    }

    /// The endpoint.
    pub fn get_io(&self) -> (r: &F)
        ensures
            *r == self.endpoint(),
    {
        self.io.get_os()
    }

    /// The endpoint, for changes.
    pub fn get_io_mut(&mut self) -> (r: &mut F)
        ensures
            *r == old(self).endpoint(),
            final(self).endpoint() == *final(r),
            final(self).logs() == old(self).logs(),
            final(self).refusals() == old(self).refusals(),
            final(self).drop_range() == old(self).drop_range(),
    {
        self.io.get_os_mut()
    }

    /// Whether the run reads, and whether it writes.
    pub fn get_mode(&self) -> (r: (bool, bool))
        ensures
            r == self.mode(),
    {
        (self.read, self.write)
    }

    /// Closes the endpoint; where bytes were written since the last seek, drops
    /// their caches on the way.
    fn close(&mut self) -> (r: Result<(), Error>)
        ensures
            final(self).closes() == old(self).closes() + 1,
            final(self).logs() == old(self).logs(),
            final(self).refusals() == old(self).refusals(),
            old(self).endpoint().model() is Some ==> r is Ok && same_model(
                old(self).endpoint(),
                final(self).endpoint(),
            ),
            final(self).drop_range().1 == 0,
            r matches Err(e) ==> e.kind == ErrorKind::Io,
    {
        self.closes = Ghost(self.closes@ + 1);
        let drop_offset = self.drop_offset;
        let drop_count = self.drop_count;
        self.drop_offset = if drop_offset <= u64::MAX - drop_count {
            drop_offset + drop_count
        } else {
            u64::MAX
        };
        self.drop_count = 0;
        let res = if drop_count > 0 {
            self.io.drop_file_caches(drop_offset, drop_count)
        } else {
            self.io.close()
        };
        match res {
            Ok(()) => Ok(()),
            Err(_) => Err(Error::new(ErrorKind::Io)),
        }
    }

    /// The physical sector size, or `None` where this is not a raw device.
    fn get_sector_size(&self) -> (r: Option<u32>)
        ensures
            self.endpoint().model() is Some ==> r == self.endpoint().model_sector(),
    {
        self.io.get_sector_size()
    }

    /// Drops the caches of what was written, then moves to `offset`.
    fn seek(&mut self, offset: u64) -> (r: Result<u64, Error>)
        ensures
            final(self).closes() >= old(self).closes(),
            final(self).logs() == old(self).logs(),
            final(self).refusals() == old(self).refusals(),
            old(self).endpoint().model() matches Some((c, _)) ==> r == Ok::<u64, Error>(offset)
                && final(self).endpoint().model() == Some((c, offset as nat)) && same_params(
                old(self).endpoint(),
                final(self).endpoint(),
            ),
            r is Ok ==> final(self).drop_range() == (offset, 0u64),
            r matches Err(e) ==> e.kind == ErrorKind::Io,
    {
        if self.drop_count > 0 {
            match self.close() {
                Ok(()) => {},
                Err(e) => {
                    return Err(e);
                },
            }
        }
        match self.seek_noflush(offset) {
            Ok(x) => {
                self.drop_offset = offset;
                self.drop_count = 0;
                Ok(x)
            },
            Err(e) => Err(e),
        }
    }

    /// Moves to `offset`.
    fn seek_noflush(&mut self, offset: u64) -> (r: Result<u64, Error>)
        ensures
            final(self).closes() >= old(self).closes(),
            final(self).logs() == old(self).logs(),
            final(self).refusals() == old(self).refusals(),
            old(self).endpoint().model() matches Some((c, _)) ==> r == Ok::<u64, Error>(offset)
                && final(self).endpoint().model() == Some((c, offset as nat)) && same_params(
                old(self).endpoint(),
                final(self).endpoint(),
            ),
            final(self).drop_range() == old(self).drop_range(),
            r matches Err(e) ==> e.kind == ErrorKind::Io,
    {
        match self.io.seek(offset) {
            Ok(x) => Ok(x),
            Err(_) => Err(Error::new(ErrorKind::Io)),
        }
    }

    /// Flushes all buffers.
    fn sync(&mut self) -> (r: Result<(), Error>)
        ensures
            final(self).closes() >= old(self).closes(),
            final(self).logs() == old(self).logs(),
            final(self).refusals() == old(self).refusals(),
            old(self).endpoint().model() is Some ==> r is Ok && same_model(
                old(self).endpoint(),
                final(self).endpoint(),
            ),
            r matches Err(e) ==> e.kind == ErrorKind::Io,
    {
        match self.io.sync() {
            Ok(()) => Ok(()),
            Err(_) => Err(Error::new(ErrorKind::Io)),
        }
    }

    /// Reads up to `buffer.len()` bytes.
    fn read(&mut self, buffer: &mut [u8]) -> (r: Result<RawIoResult, Error>)
        ensures
            final(self).closes() >= old(self).closes(),
            final(buffer)@.len() == old(buffer)@.len(),
            final(self).written() == old(self).written(),
            final(self).write_calls() == old(self).write_calls(),
            r matches Ok(RawIoResult::Processed(n)) ==> final(self).read_back() == old(self).read_back()
                + final(buffer)@.subrange(0, n as int),
            !(r matches Ok(RawIoResult::Processed(_))) ==> final(self).read_back() == old(self).read_back(),
            old(self).endpoint().model() matches Some((c, p)) ==> {
                let n = read_count(c, p, old(buffer)@.len());
                &&& r == Ok::<RawIoResult, Error>(RawIoResult::Processed(n as usize))
                &&& forall|j: int| 0 <= j < n ==> #[trigger] final(buffer)@[j] == c[p + j]
                &&& final(self).endpoint().model() == Some((c, (p + n) as nat))
                &&& same_params(old(self).endpoint(), final(self).endpoint())
            },
            r matches Ok(RawIoResult::Processed(n)) ==> n <= old(buffer)@.len(),
            r matches Err(e) ==> e.kind == ErrorKind::Io,
    {
        match self.io.read(buffer) {
            Ok(x) => {
                match x {
                    RawIoResult::Processed(n) => {
                        self.read_back = Ghost(self.read_back@ + buffer@.subrange(0, n as int));
                    },
                    RawIoResult::Enospc => {},
                }
                Ok(x)
            },
            Err(_) => Err(Error::new(ErrorKind::Io)),
        }
    }

    /// Writes `buffer` and counts it into the range whose caches are dropped.
    fn write(&mut self, buffer: &[u8]) -> (r: Result<RawIoResult, Error>)
        ensures
            final(self).closes() >= old(self).closes(),
            final(self).read_back() == old(self).read_back(),
            final(self).write_calls() == old(self).write_calls() + 1,
            r matches Ok(RawIoResult::Processed(_)) ==> final(self).written() == old(self).written()
                + buffer@,
            !(r matches Ok(RawIoResult::Processed(_))) ==> final(self).written() == old(self).written(),
            old(self).endpoint().model() matches Some((c, p)) ==> {
                &&& (r matches Ok(RawIoResult::Processed(k)) ==> final(self).endpoint().model()
                    == Some((overwrite(c, p, buffer@), (p + buffer@.len()) as nat)))
                &&& (!(r matches Ok(RawIoResult::Processed(_))) ==> final(self).endpoint().model()
                    == old(self).endpoint().model())
                &&& (old(self).endpoint().model_unbounded() && p + buffer@.len() <= usize::MAX ==> (r
                    matches Ok(RawIoResult::Processed(_))))
                &&& (old(self).endpoint().model_capacity() matches Some(k) ==> (p + buffer@.len() > k
                    ==> r == Ok::<RawIoResult, Error>(RawIoResult::Enospc)))
                &&& (old(self).endpoint().model_capacity() matches Some(k) ==> (p + buffer@.len() <= k
                    && p + buffer@.len() <= usize::MAX ==> (r matches Ok(RawIoResult::Processed(_)))))
                &&& same_params(old(self).endpoint(), final(self).endpoint())
            },
            r matches Err(e) ==> e.kind == ErrorKind::Io,
            r matches Ok(RawIoResult::Processed(_)) ==> final(self).refusals() == (
                old(self).refusals().0,
                old(self).refusals().1,
                false,
            ),
            r matches Ok(RawIoResult::Enospc) ==> final(self).refusals() == (
                old(self).refusals().0 + 1,
                old(self).refusals().1,
                true,
            ),
            r is Err ==> final(self).refusals() == (
                old(self).refusals().0 + 1,
                old(self).refusals().1 + 1,
                true,
            ),
    {
        self.write_calls = Ghost(self.write_calls@ + 1);
        match self.io.write(buffer) {
            Ok(res) => {
                match res {
                    RawIoResult::Processed(_) => {
                        self.written = Ghost(self.written@ + buffer@);
                        self.last_refused = Ghost(false);
                    },
                    RawIoResult::Enospc => {
                        self.refused = Ghost(self.refused@ + 1);
                        self.last_refused = Ghost(true);
                    },
                }
                let len = buffer.len() as u64;
                self.drop_count = if self.drop_count <= u64::MAX - len {
                    self.drop_count + len
                } else {
                    u64::MAX
                };
                Ok(res)
            },
            Err(_) => {
                self.refused = Ghost(self.refused@ + 1);
                self.failed = Ghost(self.failed@ + 1);
                self.last_refused = Ghost(true);
                Err(Error::new(ErrorKind::Io))
            },
        }
    }
}

/// Flushes, then closes, dropping the caches of what was written.
fn write_finalize<F: RawIoOsIntf>(file: &mut DisktestFile<F>) -> (r: Result<(), Error>)
    ensures
        r is Ok ==> final(file).closes() > old(file).closes(),
        final(file).closes() >= old(file).closes(),
        final(file).logs() == old(file).logs(),
        final(file).refusals() == old(file).refusals(),
        old(file).endpoint().model() is Some ==> r is Ok && same_model(
            old(file).endpoint(),
            final(file).endpoint(),
        ),
        r matches Err(e) ==> e.kind == ErrorKind::Io,
{
    match file.sync() {
        Ok(()) => {},
        Err(e) => {
            return Err(e);
        },
    }
    file.close()
}

/// Closes after verification.
fn verify_finalize<F: RawIoOsIntf>(file: &mut DisktestFile<F>) -> (r: Result<(), Error>)
    ensures
        r is Ok ==> final(file).closes() > old(file).closes(),
        final(file).closes() >= old(file).closes(),
        final(file).logs() == old(file).logs(),
        old(file).endpoint().model() is Some ==> r is Ok && same_model(
            old(file).endpoint(),
            final(file).endpoint(),
        ),
        r matches Err(e) ==> e.kind == ErrorKind::Io,
{
    file.close()
}

/// The write and verify drivers.
pub struct Disktest {
    stream_agg: DtStreamAgg,
    abort: Option<Arc<AtomicBool>>,
    quiet_level: DisktestQuiet,
    transferred: Ghost<Seq<u8>>,
}

/// What the write driver does after one write call.
#[derive(Clone, Copy, Debug, PartialEq, Eq, Structural)]
pub enum WriteStep {
    /// Go on with the next chunk.
    Continue,
    /// Finish successfully; this many bytes were written in all.
    Done(u64),
    /// Finish with this error.
    Fail(ErrorKind),
}

/// Decides how a write run goes on after the endpoint answered a write of
/// `len` bytes, `written` bytes having been written before it: running out of
/// space ends the run successfully only where no byte limit was given, an
/// endpoint error ends it with `Io`, and a write that reaches the limit ends it.
pub fn write_step(res: &Result<RawIoResult, Error>, max_bytes: u64, written: u64, len: u64) -> (r:
    WriteStep)
    requires
        written + len <= max_bytes,
    ensures
        match *res {
            Ok(RawIoResult::Processed(_)) => r == if written + len == max_bytes {
                WriteStep::Done((written + len) as u64)
            } else {
                WriteStep::Continue
            },
            Ok(RawIoResult::Enospc) => r == if max_bytes == Disktest::UNLIMITED {
                WriteStep::Done(written)
            } else {
                WriteStep::Fail(ErrorKind::OutOfSpace)
            },
            Err(_) => r == WriteStep::Fail(ErrorKind::Io),
        },
{
    match res {
        Ok(RawIoResult::Processed(_)) => {
            if written + len == max_bytes {
                WriteStep::Done(written + len)
            } else {
                WriteStep::Continue
            }
        },
        Ok(RawIoResult::Enospc) => {
            if max_bytes == Disktest::UNLIMITED {
                WriteStep::Done(written)
            } else {
                WriteStep::Fail(ErrorKind::OutOfSpace)
            }
        },
        Err(_) => WriteStep::Fail(ErrorKind::Io),
    }
}

/// Compares the bytes read back with the expected ones: `None` where they
/// agree, else the absolute offset `base + i` of the first byte `i` that differs.
pub fn compare_chunk(read: &[u8], expected: &[u8], base: u64) -> (r: Option<u64>)
    requires
        read@.len() <= expected@.len(),
        base + read@.len() <= u64::MAX,
    ensures
        r is None <==> read@ == expected@.subrange(0, read@.len() as int),
        r matches Some(off) ==> {
            &&& base <= off < base + read@.len()
            &&& read@[off - base] != expected@[off - base]
            &&& read@.subrange(0, off - base) == expected@.subrange(0, off - base)
        },
{
    let mut i: usize = 0;
    while i < read.len()
        invariant
            i <= read@.len() <= expected@.len(),
            base + read@.len() <= u64::MAX,
            forall|m: int| 0 <= m < i ==> read@[m] == expected@[m],
        decreases read@.len() - i,
    {
        if read[i] != expected[i] {
            proof {
                assert(read@.subrange(0, i as int) =~= expected@.subrange(0, i as int));
                assert(read@[i as int] != expected@.subrange(0, read@.len() as int)[i as int]);
            }
            return Some(base + i as u64);
        }
        i = i + 1;
    }
    proof {
        assert(read@ =~= expected@.subrange(0, read@.len() as int));
    }
    None
}

impl Disktest {
    /// `max_bytes` that means: until the device is full.
    pub const UNLIMITED: u64 = 0xffff_ffff_ffff_ffff;

    pub closed spec fn stype(&self) -> DtStreamType {
        self.stream_agg.stype()
    }

    pub closed spec fn seed(&self) -> Seq<u8> {
        self.stream_agg.seed()
    }

    pub closed spec fn round_id(&self) -> u64 {
        self.stream_agg.round_id()
    }

    pub closed spec fn invert(&self) -> bool {
        self.stream_agg.invert()
    }

    pub closed spec fn threads(&self) -> nat {
        self.stream_agg.threads()
    }

    /// The bytes that the last run handed to successful writes, or that it read
    /// back, in order.
    pub closed spec fn transferred(&self) -> Seq<u8> {
        self.transferred@
    }

    pub closed spec fn wf(&self) -> bool {
        self.stream_agg.wf()
    }

    /// Creates the drivers for one seed and round, with `nr_threads` streams.
    pub fn new(
        algorithm: DtStreamType,
        seed: Vec<u8>,
        round_id: u64,
        invert_pattern: bool,
        nr_threads: usize,
        quiet_level: DisktestQuiet,
        abort: Option<Arc<AtomicBool>>,
    ) -> (r: Disktest)
        requires
            0 < nr_threads <= MAX_THREADS,
        ensures
            r.wf(),
            r.stype() == algorithm,
            r.seed() == seed@,
            r.round_id() == round_id,
            r.invert() == invert_pattern,
            r.threads() == nr_threads,
            r.transferred() == Seq::<u8>::empty(),
            r.abortable() == abort is Some,
    {
        Disktest {
            stream_agg: DtStreamAgg::new(algorithm, seed, round_id, invert_pattern, nr_threads),
            abort,
            quiet_level,
            transferred: Ghost(Seq::empty()),
        }
    }

    /// Whether the run has an abort flag to watch.
    pub closed spec fn abortable(&self) -> bool {
        self.abort is Some
    }

    /// Whether the abort flag is raised.
    fn abort_requested(&self) -> (r: bool)
        ensures
            !self.abortable() ==> !r,
    {
        match &self.abort {
            Some(a) => a.load(Ordering::Relaxed),
            None => false,
        }
    }

    /// Starts the keystream at `seek`, rounded down to a chunk boundary, and
    /// moves the endpoint there. Returns the chunk size.
    fn init<F: RawIoOsIntf>(&mut self, file: &mut DisktestFile<F>, seek: u64) -> (r: Result<u64, Error>)
        requires
            old(self).wf(),
        ensures
            final(self).wf(),
            final(self).stype() == old(self).stype(),
            final(self).seed() == old(self).seed(),
            final(self).round_id() == old(self).round_id(),
            final(self).invert() == old(self).invert(),
            final(self).threads() == old(self).threads(),
            final(self).transferred() == old(self).transferred(),
            final(self).abortable() == old(self).abortable(),
            r is Ok ==> r->Ok_0 == CHUNK_SIZE && final(self).stream_agg.active()
                && final(self).stream_agg.position() == chunk_floor(seek)
                && final(file).drop_range() == (chunk_floor(seek) as u64, 0u64),
            chunk_floor(seek) + CHUNK_SIZE > u64::MAX ==> r is Err,
            r matches Err(e) ==> !(e.kind is DataMismatch),
            final(file).logs() == old(file).logs(),
            final(file).refusals() == old(file).refusals(),
            final(file).closes() >= old(file).closes(),
            r matches Err(e) ==> (e.kind == ErrorKind::SeekAlignment ==> chunk_floor(seek) + CHUNK_SIZE
                > u64::MAX),
            r matches Err(e) ==> (e.kind == ErrorKind::SeekAlignment || e.kind
                == ErrorKind::GeometryMismatch || e.kind == ErrorKind::Io),
            old(file).endpoint().model() is Some && !sector_fits(old(file).endpoint().model_sector())
                ==> (r matches Err(e) && e.kind == ErrorKind::GeometryMismatch),
            old(file).endpoint().model() is Some && sector_fits(old(file).endpoint().model_sector())
                && chunk_floor(seek) + CHUNK_SIZE > u64::MAX ==> (r matches Err(e) && e.kind
                == ErrorKind::SeekAlignment),
            old(file).endpoint().model() is Some && sector_fits(old(file).endpoint().model_sector())
                && chunk_floor(seek) + CHUNK_SIZE <= u64::MAX ==> r is Ok,
            old(file).endpoint().model() matches Some((c, _)) ==> (r is Ok ==> final(file).endpoint().model()
                == Some((c, chunk_floor(seek))))
                && (r is Err ==> final(file).endpoint().model() == old(file).endpoint().model())
                && same_params(old(file).endpoint(), final(file).endpoint()),
    {
        let sector_size = match file.get_sector_size() {
            Some(s) => s,
            None => DEFAULT_SECTOR_SIZE,
        };
        let res = match self.stream_agg.activate(seek, sector_size) {
            Ok(res) => res,
            Err(e) => {
                return Err(e);
            },
        };
        match file.seek(res.byte_offset) {
            Ok(_) => {},
            Err(_) => {
                return Err(Error::new(ErrorKind::Io));
            },
        }
        Ok(res.chunk_size)
    }

    /// Writes the keystream from `seek` on, rounded down to a chunk boundary,
    /// until `max_bytes` bytes are written or, where `max_bytes` is `UNLIMITED`,
    /// until the endpoint is full. Returns the number of bytes written.
    ///
    /// Whatever the outcome, the bytes handed to writes that the endpoint took
    /// are the keystream from the rounded offset on; the abort flag is checked
    /// before each chunk.
    pub fn write<F: RawIoOsIntf, P: ProgressSink>(
        &mut self,
        file: &mut DisktestFile<F>,
        seek: u64,
        max_bytes: u64,
        progress: &mut P,
    ) -> (r: Result<u64, Error>)
        requires
            old(self).wf(),
        ensures
            final(self).wf(),
            final(self).stype() == old(self).stype(),
            final(self).seed() == old(self).seed(),
            final(self).round_id() == old(self).round_id(),
            final(self).invert() == old(self).invert(),
            final(self).threads() == old(self).threads(),
            final(self).transferred() == keystream(
                old(self).stype(),
                old(self).seed(),
                old(self).round_id(),
                old(self).invert(),
                old(self).threads(),
                chunk_floor(seek),
                final(self).transferred().len(),
            ),
            final(self).transferred().len() <= max_bytes,
            final(file).written() == old(file).written() + final(self).transferred(),
            final(file).read_back() == old(file).read_back(),
            r matches Err(e) ==> (e.kind == ErrorKind::SeekAlignment ==> chunk_floor(seek) + CHUNK_SIZE
                > u64::MAX),
            r matches Err(e) ==> (e.kind == ErrorKind::Aborted ==> old(self).abortable()),
            old(file).endpoint().model() is Some && !sector_fits(old(file).endpoint().model_sector())
                ==> (r matches Err(e) && e.kind == ErrorKind::GeometryMismatch),
            old(file).endpoint().model() is Some && sector_fits(old(file).endpoint().model_sector())
                && chunk_floor(seek) + CHUNK_SIZE > u64::MAX ==> (r matches Err(e) && e.kind
                == ErrorKind::SeekAlignment),
            r is Ok ==> final(file).closes() > old(file).closes(),
            final(file).refusals().0 <= old(file).refusals().0 + 1,
            final(file).refusals().0 == old(file).refusals().0 + 1 ==> final(file).refusals().2,
            final(file).refusals().1 > old(file).refusals().1 ==> (r matches Err(e) && e.kind
                == ErrorKind::Io),
            final(file).refusals().0 > old(file).refusals().0 && final(file).refusals().1 == old(
                file,
            ).refusals().1 && max_bytes < Disktest::UNLIMITED ==> (r matches Err(e) && e.kind
                == ErrorKind::OutOfSpace),
            final(self).abortable() == old(self).abortable(),
            old(file).endpoint().model() is Some ==> same_params(old(file).endpoint(), final(file).endpoint()),
            chunk_floor(seek) + CHUNK_SIZE > u64::MAX ==> r is Err,
            r matches Err(e) ==> !(e.kind is DataMismatch),
            r is Ok ==> {
                let n = r->Ok_0;
                &&& n == final(self).transferred().len()
                &&& n < max_bytes ==> max_bytes == Disktest::UNLIMITED
            },
            old(file).endpoint().model() matches Some((c, _)) ==> (final(file).endpoint().model() matches Some((c1, _))
                && c1 == written_over(c, chunk_floor(seek), final(self).transferred())),
            !old(self).abortable() && old(file).endpoint().model() is Some
                && old(file).endpoint().model_unbounded() && sector_fits(
                old(file).endpoint().model_sector(),
            ) && max_bytes < Disktest::UNLIMITED && chunk_floor(seek) + max_bytes + CHUNK_SIZE
                <= usize::MAX && chunk_floor(seek) + max_bytes + CHUNK_SIZE <= u64::MAX ==> r == Ok::<
                u64,
                Error,
            >(max_bytes),
            overfills(*old(self), *old(file), seek, max_bytes) ==> (r matches Err(e) && e.kind
                == ErrorKind::OutOfSpace),
            fills_up(*old(self), *old(file), seek, max_bytes) ==> r == Ok::<u64, Error>(
                (capacity_of(old(file).endpoint()) - chunk_floor(seek)) as u64,
            ),
    {
        self.transferred = Ghost(Seq::empty());
        proof {
            assert(self.transferred@ =~= keystream(
                old(self).stype(),
                old(self).seed(),
                old(self).round_id(),
                old(self).invert(),
                old(self).threads(),
                chunk_floor(seek),
                0,
            ));
        }
        let write_chunk_size = match self.init(file, seek) {
            Ok(cs) => cs,
            Err(e) => {
                return Err(e);
            },
        };
        if max_bytes == 0 {
            match write_finalize(file) {
                Ok(()) => {},
                Err(e) => {
                    return Err(e);
                },
            }
            return Ok(0);
        }
        let mut bytes_left: u64 = max_bytes;
        let mut bytes_written: u64 = 0;
        loop
            invariant
                self.wf(),
                self.stream_agg.active(),
                self.stype() == old(self).stype(),
                self.seed() == old(self).seed(),
                self.round_id() == old(self).round_id(),
                self.invert() == old(self).invert(),
                self.threads() == old(self).threads(),
                write_chunk_size == CHUNK_SIZE,
                bytes_written + bytes_left == max_bytes,
                old(file).endpoint().model() is Some ==> sector_fits(old(file).endpoint().model_sector()),
                chunk_floor(seek) + CHUNK_SIZE <= u64::MAX,
                file.refusals().0 == old(file).refusals().0,
                file.refusals().1 == old(file).refusals().1,
                file.closes() >= old(file).closes(),
                bytes_left > 0,
                self.abortable() == old(self).abortable(),
                overfills(*old(self), *old(file), seek, max_bytes) ==> (chunk_floor(seek) + bytes_written
                    <= capacity_of(old(file).endpoint()) || bytes_written == 0),
                fills_up(*old(self), *old(file), seek, max_bytes) ==> (bytes_written
                    <= capacity_of(old(file).endpoint()) - chunk_floor(seek) && bytes_written
                    % CHUNK_SIZE == 0),
                old(file).endpoint().model() matches Some((c, _)) ==> file.endpoint().model() == Some(
                    (
                        written_over(c, chunk_floor(seek), self.transferred@),
                        (chunk_floor(seek) + bytes_written) as nat,
                    ),
                ) && same_params(old(file).endpoint(), file.endpoint()),
                file.written() == old(file).written() + self.transferred@,
                file.read_back() == old(file).read_back(),
                self.stream_agg.position() == chunk_floor(seek) + bytes_written,
                self.stream_agg.position() <= u64::MAX,
                self.transferred@ == keystream(
                    old(self).stype(),
                    old(self).seed(),
                    old(self).round_id(),
                    old(self).invert(),
                    old(self).threads(),
                    chunk_floor(seek),
                    bytes_written as nat,
                ),
            decreases u64::MAX - self.stream_agg.position(),
        {
            if self.abort_requested() {
                let _ = write_finalize(file);
                return Err(Error::new(ErrorKind::Aborted));
            }
            let chunk = match self.stream_agg.wait_chunk() {
                Ok(c) => c,
                Err(e) => {
                    let _ = write_finalize(file);
                    return Err(e);
                },
            };
            let write_len: u64 = if write_chunk_size < bytes_left {
                write_chunk_size
            } else {
                bytes_left
            };
            let data = chunk.get_data();
            let part = slice_subrange(data, 0, write_len as usize);
            let res = file.write(part);
            let accepted = match &res {
                Ok(RawIoResult::Processed(_)) => true,
                _ => false,
            };
            if accepted {
                proof {
                    let ks = keystream(
                        old(self).stype(),
                        old(self).seed(),
                        old(self).round_id(),
                        old(self).invert(),
                        old(self).threads(),
                        chunk_floor(seek),
                        (bytes_written + write_len) as nat,
                    );
                    assert forall|j: int| 0 <= j < bytes_written + write_len implies #[trigger] (
                    self.transferred@ + part@)[j] == ks[j] by {
                        if j >= bytes_written {
                            let m = j - bytes_written;
                            assert(part@[m] == chunk.data()[m]);
                        }
                    }
                    assert(self.transferred@ + part@ =~= ks);
                    if old(file).endpoint().model() is Some {
                        let c = old(file).endpoint().model()->Some_0.0;
                        lemma_written_over_append(c, chunk_floor(seek), self.transferred@, part@);
                    }
                }
                self.transferred = Ghost(self.transferred@ + part@);
            }
            proof {
                if fills_up(*old(self), *old(file), seek, max_bytes) && !accepted {
                    lemma_last_chunk(
                        bytes_written as nat,
                        (capacity_of(old(file).endpoint()) - chunk_floor(seek)) as nat,
                    );
                }
            }
            let step = write_step(&res, max_bytes, bytes_written, write_len);
            if accepted {
                bytes_written = bytes_written + write_len;
                bytes_left = bytes_left - write_len;
            }
            match step {
                WriteStep::Fail(kind) => {
                    let _ = write_finalize(file);
                    return Err(Error::new(kind));
                },
                WriteStep::Done(n) => {
                    match write_finalize(file) {
                        Ok(()) => {},
                        Err(e) => {
                            return Err(e);
                        },
                    }
                    return Ok(n);
                },
                WriteStep::Continue => {},
            }
            self.stream_agg.recycle(chunk);
            progress.progress(write_len, bytes_written);
        }
    }

    /// Takes the next keystream chunk and compares `got` with its start.
    /// `None` where they agree; the offset of the first difference otherwise.
    /// The bytes compared up to and including that one join `transferred`.
    fn check_chunk(&mut self, got: &[u8], base: u64, start: Ghost<nat>, done: Ghost<nat>) -> (r:
        Result<Option<u64>, Error>)
        requires
            old(self).wf(),
            old(self).stream_agg.active(),
            old(self).stream_agg.position() == base,
            base == start@ + done@,
            got@.len() <= CHUNK_SIZE,
            old(self).transferred() == keystream(
                old(self).stype(),
                old(self).seed(),
                old(self).round_id(),
                old(self).invert(),
                old(self).threads(),
                start@,
                done@,
            ),
        ensures
            final(self).wf(),
            final(self).stream_agg.active(),
            final(self).stype() == old(self).stype(),
            final(self).seed() == old(self).seed(),
            final(self).round_id() == old(self).round_id(),
            final(self).invert() == old(self).invert(),
            final(self).threads() == old(self).threads(),
            final(self).abortable() == old(self).abortable(),
            r is Ok <==> base + CHUNK_SIZE <= u64::MAX,
            r matches Err(e) ==> e.kind == ErrorKind::Generator && final(self).transferred()
                == old(self).transferred(),
            r matches Ok(None) ==> final(self).transferred() == old(self).transferred() + got@
                && final(self).stream_agg.position() == base + CHUNK_SIZE
                && final(self).transferred() == keystream(
                old(self).stype(),
                old(self).seed(),
                old(self).round_id(),
                old(self).invert(),
                old(self).threads(),
                start@,
                (done@ + got@.len()) as nat,
            ),
            r matches Ok(Some(off)) ==> {
                let i = off - base;
                let ks = keystream(
                    old(self).stype(),
                    old(self).seed(),
                    old(self).round_id(),
                    old(self).invert(),
                    old(self).threads(),
                    start@,
                    (done@ + i + 1) as nat,
                );
                &&& base <= off < base + got@.len()
                &&& final(self).transferred() == old(self).transferred() + got@.subrange(0, i + 1)
                &&& final(self).transferred().subrange(0, done@ + i) == ks.subrange(0, done@ + i)
                &&& final(self).transferred()[done@ + i] != ks[done@ + i]
            },
    {
        let chunk = match self.stream_agg.wait_chunk() {
            Ok(c) => c,
            Err(e) => {
                return Err(e);
            },
        };
        let data = chunk.get_data();
        let ghost t0 = self.transferred@;
        proof {
            assert forall|m: int| 0 <= m < CHUNK_SIZE implies #[trigger] data@[m] == agg_stream_byte(
                old(self).stype(),
                old(self).seed(),
                old(self).round_id(),
                old(self).invert(),
                old(self).threads(),
                (start@ + done@ + m) as nat,
            ) by {
                assert(chunk.data()[m] == data@[m]);
            }
        }
        match compare_chunk(got, data, base) {
            Some(off) => {
                let ghost i = off - base;
                self.transferred = Ghost(self.transferred@ + got@.subrange(0, i + 1));
                proof {
                    assert forall|j: int| 0 <= j < i implies #[trigger] got@[j] == agg_stream_byte(
                        old(self).stype(),
                        old(self).seed(),
                        old(self).round_id(),
                        old(self).invert(),
                        old(self).threads(),
                        (start@ + done@ + j) as nat,
                    ) by {
                        assert(got@.subrange(0, i)[j] == data@.subrange(0, i)[j]);
                    }
                    lemma_ks_extend(
                        t0,
                        got@,
                        old(self).stype(),
                        old(self).seed(),
                        old(self).round_id(),
                        old(self).invert(),
                        old(self).threads(),
                        start@,
                        done@,
                        i as nat,
                    );
                    lemma_determinism(
                        old(self).stype(),
                        old(self).seed(),
                        old(self).round_id(),
                        old(self).invert(),
                        old(self).threads(),
                        start@,
                        (done@ + i) as nat,
                        (done@ + i + 1) as nat,
                    );
                    assert(self.transferred@.subrange(0, done@ + i) =~= t0 + got@.subrange(0, i as int));
                    assert(self.transferred@[done@ + i] == got@[i]);
                }
                Ok(Some(off))
            },
            None => {
                self.transferred = Ghost(self.transferred@ + got@);
                proof {
                    assert forall|j: int| 0 <= j < got@.len() implies #[trigger] got@[j] == agg_stream_byte(
                        old(self).stype(),
                        old(self).seed(),
                        old(self).round_id(),
                        old(self).invert(),
                        old(self).threads(),
                        (start@ + done@ + j) as nat,
                    ) by {
                        assert(data@.subrange(0, got@.len() as int)[j] == data@[j]);
                    }
                    assert(got@ =~= got@.subrange(0, got@.len() as int));
                    lemma_ks_extend(
                        t0,
                        got@,
                        old(self).stype(),
                        old(self).seed(),
                        old(self).round_id(),
                        old(self).invert(),
                        old(self).threads(),
                        start@,
                        done@,
                        got@.len(),
                    );
                }
                self.stream_agg.recycle(chunk);
                Ok(None)
            },
        }
    }

    /// Reads back from `seek` on, rounded down to a chunk boundary, and compares
    /// with the keystream, until `max_bytes` bytes are checked or the endpoint
    /// has no more. Returns the number of bytes verified; at the first byte that
    /// differs, fails with `DataMismatch` and that byte's absolute offset.
    ///
    /// The bytes compared are recorded in `transferred`: on success they are the
    /// keystream; where they are not, the run failed with `DataMismatch`.
    #[verifier::rlimit(100)]
    #[verifier::spinoff_prover]
    pub fn verify<F: RawIoOsIntf, P: ProgressSink>(
        &mut self,
        file: &mut DisktestFile<F>,
        seek: u64,
        max_bytes: u64,
        progress: &mut P,
    ) -> (r: Result<u64, Error>)
        requires
            old(self).wf(),
        ensures
            final(self).wf(),
            final(self).stype() == old(self).stype(),
            final(self).seed() == old(self).seed(),
            final(self).round_id() == old(self).round_id(),
            final(self).invert() == old(self).invert(),
            final(self).threads() == old(self).threads(),
            r matches Err(e) ==> (e.kind == ErrorKind::SeekAlignment ==> chunk_floor(seek) + CHUNK_SIZE
                > u64::MAX),
            r matches Err(e) ==> (e.kind == ErrorKind::Aborted ==> old(self).abortable()),
            old(file).endpoint().model() is Some && !sector_fits(old(file).endpoint().model_sector())
                ==> (r matches Err(e) && e.kind == ErrorKind::GeometryMismatch),
            old(file).endpoint().model() is Some && sector_fits(old(file).endpoint().model_sector())
                && chunk_floor(seek) + CHUNK_SIZE > u64::MAX ==> (r matches Err(e) && e.kind
                == ErrorKind::SeekAlignment),
            r is Ok ==> final(file).closes() > old(file).closes(),
            final(self).abortable() == old(self).abortable(),
            old(file).endpoint().model() is Some ==> same_params(old(file).endpoint(), final(file).endpoint()),
            chunk_floor(seek) + CHUNK_SIZE > u64::MAX ==> r is Err,
            final(self).transferred().len() <= max_bytes,
            old(file).endpoint().model() is Some && chunk_floor(seek) <= contents_of(
                old(file).endpoint(),
            ).len() ==> chunk_floor(seek) + final(self).transferred().len() <= contents_of(
                old(file).endpoint(),
            ).len(),
            final(file).written() == old(file).written(),
            final(file).write_calls() == old(file).write_calls(),
            final(self).transferred() == final(file).read_back().subrange(
                old(file).read_back().len() as int,
                (old(file).read_back().len() + final(self).transferred().len()) as int,
            ),
            final(self).transferred() != keystream(
                old(self).stype(),
                old(self).seed(),
                old(self).round_id(),
                old(self).invert(),
                old(self).threads(),
                chunk_floor(seek),
                final(self).transferred().len(),
            ) ==> (r matches Err(e) && e.kind is DataMismatch),
            r is Ok ==> {
                let n = r->Ok_0;
                &&& n <= max_bytes
                &&& n == final(self).transferred().len()
                &&& final(self).transferred() == keystream(
                    old(self).stype(),
                    old(self).seed(),
                    old(self).round_id(),
                    old(self).invert(),
                    old(self).threads(),
                    chunk_floor(seek),
                    n as nat,
                )
            },
            r matches Err(e) ==> (e.kind matches ErrorKind::DataMismatch(off) ==> {
                let i = off - chunk_floor(seek);
                let ks = keystream(
                    old(self).stype(),
                    old(self).seed(),
                    old(self).round_id(),
                    old(self).invert(),
                    old(self).threads(),
                    chunk_floor(seek),
                    (i + 1) as nat,
                );
                &&& chunk_floor(seek) <= off
                &&& i + 1 == final(self).transferred().len()
                &&& final(self).transferred().subrange(0, i) == ks.subrange(0, i)
                &&& final(self).transferred()[i] != ks[i]
            }),
            old(file).endpoint().model() is Some ==> (final(file).endpoint().model() is Some
                && contents_of(final(file).endpoint()) == contents_of(old(file).endpoint())),
            old(file).endpoint().model() is Some && chunk_floor(seek) <= contents_of(
                old(file).endpoint(),
            ).len() ==> final(self).transferred() == contents_of(old(file).endpoint()).subrange(
                chunk_floor(seek) as int,
                (chunk_floor(seek) + final(self).transferred().len()) as int,
            ),
            !old(self).abortable() && old(file).endpoint().model() is Some && sector_fits(
                old(file).endpoint().model_sector(),
            ) && chunk_floor(seek) <= contents_of(old(file).endpoint()).len() && contents_of(
                old(file).endpoint(),
            ).len() + CHUNK_SIZE <= u64::MAX ==> {
                let c = contents_of(old(file).endpoint());
                let m = verify_len(c.len(), chunk_floor(seek), max_bytes);
                &&& (r == Ok::<u64, Error>(m as u64) || (r matches Err(e) && e.kind is DataMismatch))
                &&& (c.subrange(chunk_floor(seek) as int, (chunk_floor(seek) + m) as int) == keystream(
                    old(self).stype(),
                    old(self).seed(),
                    old(self).round_id(),
                    old(self).invert(),
                    old(self).threads(),
                    chunk_floor(seek),
                    m,
                ) ==> r == Ok::<u64, Error>(m as u64))
            },
    {
        self.transferred = Ghost(Seq::empty());
        proof {
            assert(self.transferred@ == keystream(
                old(self).stype(),
                old(self).seed(),
                old(self).round_id(),
                old(self).invert(),
                old(self).threads(),
                chunk_floor(seek),
                0,
            )) by {
 assert(self.transferred@ =~= keystream(
                old(self).stype(),
                old(self).seed(),
                old(self).round_id(),
                old(self).invert(),
                old(self).threads(),
                chunk_floor(seek),
                0,
            ));
 }
        }
        let readbuf_len = match self.init(file, seek) {
            Ok(cs) => cs,
            Err(e) => {
                return Err(e);
            },
        };
        let start: u64 = seek - seek % readbuf_len;
        assert(chunk_floor(seek) + CHUNK_SIZE <= u64::MAX);
        let mut buffer: Vec<u8> = vec![0u8; readbuf_len as usize];
        let mut bytes_left: u64 = max_bytes;
        let mut bytes_read: u64 = 0;
        let mut read_count: usize = 0;
        let mut read_len: usize = if readbuf_len < bytes_left {
            readbuf_len as usize
        } else {
            bytes_left as usize
        };
        proof {
            if old(file).endpoint().model() is Some && start <= contents_of(old(file).endpoint()).len() {
                assert(self.transferred@ == contents_of(old(file).endpoint()).subrange(
                    start as int,
                    start as int,
                )) by {
 assert(self.transferred@ =~= contents_of(old(file).endpoint()).subrange(
                    start as int,
                    start as int,
                ));
 }
            }
        }
        loop
            invariant
                self.wf(),
                self.stream_agg.active(),
                self.stype() == old(self).stype(),
                self.seed() == old(self).seed(),
                self.round_id() == old(self).round_id(),
                self.invert() == old(self).invert(),
                self.threads() == old(self).threads(),
                readbuf_len == CHUNK_SIZE,
                start == chunk_floor(seek),
                chunk_floor(seek) + CHUNK_SIZE <= u64::MAX,
                buffer@.len() == CHUNK_SIZE,
                file.written() == old(file).written(),
                file.write_calls() == old(file).write_calls(),
                self.abortable() == old(self).abortable(),
                old(file).endpoint().model() is Some ==> sector_fits(old(file).endpoint().model_sector()),
                chunk_floor(seek) + CHUNK_SIZE <= u64::MAX,
                file.closes() >= old(file).closes(),
                read_count < read_len || max_bytes == 0,

                old(file).endpoint().model() is Some ==> (file.endpoint().model() is Some
                    && same_params(old(file).endpoint(), file.endpoint())
                    && contents_of(file.endpoint()) == contents_of(old(file).endpoint())
                    && cursor_of(file.endpoint()) == start + bytes_read + read_count),
                old(file).endpoint().model() is Some && start <= contents_of(old(file).endpoint()).len() ==> (
                    start + bytes_read + read_count <= contents_of(old(file).endpoint()).len()
                    && self.transferred@ == contents_of(old(file).endpoint()).subrange(
                        start as int,
                        start + bytes_read,
                    ) && forall|j: int|
                    0 <= j < read_count ==> #[trigger] buffer@[j] == contents_of(
                        old(file).endpoint(),
                    )[start + bytes_read + j]),
                file.read_back() == old(file).read_back() + self.transferred@ + buffer@.subrange(
                    0,
                    read_count as int,
                ),
                bytes_read + bytes_left == max_bytes,
                read_count <= read_len <= CHUNK_SIZE,
                read_len <= bytes_left,
                read_len == CHUNK_SIZE || read_len == bytes_left,
                self.stream_agg.position() == chunk_floor(seek) + bytes_read,
                self.stream_agg.position() <= u64::MAX,
                self.transferred@ == keystream(
                    old(self).stype(),
                    old(self).seed(),
                    old(self).round_id(),
                    old(self).invert(),
                    old(self).threads(),
                    chunk_floor(seek),
                    bytes_read as nat,
                ),
            decreases max_bytes - bytes_read - read_count,
        {
            if self.abort_requested() {
                let _ = verify_finalize(file);
                return Err(Error::new(ErrorKind::Aborted));
            }
            let want: usize = read_len - read_count;
            let ghost b0 = buffer@;
            let ghost rb0 = file.read_back();
            let n: usize = match read_more(file, &mut buffer, read_count, want) {
                Ok(n) => n,
                Err(e) => {
                    let _ = verify_finalize(file);
                    return Err(e);
                },
            };
            proof {
                assert(buffer@.subrange(0, read_count as int) + buffer@.subrange(
                    read_count as int,
                    (read_count + n) as int,
                ) == buffer@.subrange(0, (read_count + n) as int)) by {
 assert(buffer@.subrange(0, read_count as int) + buffer@.subrange(
                    read_count as int,
                    (read_count + n) as int,
                ) =~= buffer@.subrange(0, (read_count + n) as int));
 }
                assert(file.read_back() == old(file).read_back() + self.transferred@ + buffer@.subrange(
                    0,
                    (read_count + n) as int,
                )) by {
 assert(file.read_back() =~= old(file).read_back() + self.transferred@ + buffer@.subrange(
                    0,
                    (read_count + n) as int,
                ));
 }
                if old(file).endpoint().model() is Some && start <= contents_of(old(file).endpoint()).len() {
                    lemma_buffer_model(
                        buffer@,
                        b0,
                        read_count as int,
                        n as int,
                        contents_of(old(file).endpoint()),
                        start + bytes_read,
                    );
                }
            }
            read_count = read_count + n;
            if read_count == read_len || (read_count > 0 && n == 0) {
                let got = slice_subrange(buffer.as_slice(), 0, read_count);
                let base: u64 = start + bytes_read;
                let ghost t0 = self.transferred@;
                let ghost has_model = old(file).endpoint().model() is Some && start <= contents_of(
                    old(file).endpoint(),
                ).len();
                match self.check_chunk(got, base, Ghost(chunk_floor(seek)), Ghost(bytes_read as nat)) {
                    Err(e) => {
                        let _ = verify_finalize(file);
                        return Err(e);
                    },
                    Ok(Some(off)) => {
                        let _ = verify_finalize(file);
                        proof {
                            let i = off - base;
                            if has_model {
                                lemma_seq_extend(
                                    t0,
                                    got@,
                                    contents_of(old(file).endpoint()),
                                    start as int,
                                    bytes_read as int,
                                    i + 1,
                                );
                            }
                            let ol = old(file).read_back().len() as int;
                            assert(file.read_back() == old(file).read_back() + t0 + got@);
                            assert(self.transferred@ == file.read_back().subrange(
                                ol,
                                ol + self.transferred@.len(),
                            )) by {
 assert(self.transferred@ =~= file.read_back().subrange(
                                ol,
                                ol + self.transferred@.len(),
                            ));
 }
                        }
                        return Err(Error::new(ErrorKind::DataMismatch(off)));
                    },
                    Ok(None) => {},
                }
                proof {
                    assert(got@ == got@.subrange(0, read_count as int)) by {
 assert(got@ =~= got@.subrange(0, read_count as int));
 }
                    if has_model {
                        lemma_seq_extend(
                            t0,
                            got@,
                            contents_of(old(file).endpoint()),
                            start as int,
                            bytes_read as int,
                            read_count as int,
                        );
                    }
                    assert(file.read_back() == old(file).read_back() + self.transferred@ + buffer@.subrange(0, 0)) by {
 assert(file.read_back() =~= old(file).read_back() + self.transferred@ + buffer@.subrange(0, 0));
 }
                }
                bytes_read = bytes_read + read_count as u64;
                bytes_left = bytes_left - read_count as u64;
                if bytes_left == 0 || n == 0 {
                    match verify_finalize(file) {
                        Ok(()) => {},
                        Err(e) => {
                            return Err(e);
                        },
                    }
                    return Ok(bytes_read);
                }
                progress.progress(read_count as u64, bytes_read);
                read_count = 0;
                read_len = if readbuf_len < bytes_left {
                    readbuf_len as usize
                } else {
                    bytes_left as usize
                };
            }
            if n == 0 {
                match verify_finalize(file) {
                    Ok(()) => {},
                    Err(e) => {
                        return Err(e);
                    },
                }
                return Ok(bytes_read);
            }
        }
    }

}

} // verus!
