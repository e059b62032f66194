use vstd::prelude::*;

use crate::error::{Error, ErrorKind};
use crate::util::{all_digit_codes, all_digits, ascii_lower, codes, lower_codes, str_codes};
use vstd::slice::slice_subrange;

verus! {

/// Sector size assumed where the endpoint reports none.
pub const DEFAULT_SECTOR_SIZE: u32 = 512;

/// Outcome of a read or write that the endpoint carried out.
#[derive(Clone, Copy, Debug, PartialEq, Eq, Structural)]
pub enum RawIoResult {
    /// Number of bytes processed.
    Processed(usize),
    /// Out of space.
    Enospc,
}

/// `c` with `b` written at offset `p`, extended with zeros where needed.
pub open spec fn overwrite(c: Seq<u8>, p: nat, b: Seq<u8>) -> Seq<u8> {
    let len = if c.len() >= p + b.len() { c.len() } else { p + b.len() };
    Seq::new(
        len as nat,
        |i: int|
            if p <= i < p + b.len() {
                b[i - p]
            } else if i < c.len() {
                c[i]
            } else {
                0u8
            },
    )
}

/// How many bytes a read of `want` bytes at `p` gets from contents `c`.
pub open spec fn read_count(c: Seq<u8>, p: nat, want: nat) -> nat {
    if p >= c.len() {
        0
    } else if want <= c.len() - p {
        want
    } else {
        (c.len() - p) as nat
    }
}

/// Two states of an endpoint report the same sector size and bound.
pub open spec fn same_params<F: RawIoOsIntf>(a: F, b: F) -> bool {
    b.model_sector() == a.model_sector() && b.model_unbounded() == a.model_unbounded()
        && b.model_capacity() == a.model_capacity()
}

/// Two states of an endpoint hold the same model and parameters.
pub open spec fn same_model<F: RawIoOsIntf>(a: F, b: F) -> bool {
    b.model() == a.model() && same_params(a, b)
}

/// A file or device that the test runs against.
///
/// An endpoint may describe itself through `model`: then its contract says
/// exactly what each call does to its contents and cursor. An endpoint that
/// keeps the default claims nothing beyond the lengths of reads.
pub trait RawIoOsIntf {
    /// The contents and the cursor, where the endpoint models them.
    open spec fn model(&self) -> Option<(Seq<u8>, nat)> {
        None
    }

    /// The sector size that a modelled endpoint reports.
    open spec fn model_sector(&self) -> Option<u32> {
        None
    }

    /// Whether a modelled endpoint takes every write.
    open spec fn model_unbounded(&self) -> bool {
        false
    }

    /// The size beyond which a modelled endpoint reports that it is full.
    open spec fn model_capacity(&self) -> Option<u64> {
        None
    }

    /// The physical sector size, or `None` where this is not a raw device.
    fn get_sector_size(&self) -> (r: Option<u32>)
        ensures
            self.model() is Some ==> r == self.model_sector(),
    ;

    /// Flush all buffers, drop the operating system's caches of the given
    /// range, and close.
    fn drop_file_caches(&mut self, offset: u64, size: u64) -> (r: Result<(), Error>)
        ensures
            old(self).model() is Some ==> r is Ok && final(self).model() == old(self).model()
                && final(self).model_sector() == old(self).model_sector()
                && final(self).model_unbounded() == old(self).model_unbounded()
                && final(self).model_capacity() == old(self).model_capacity(),
    ;

    /// Flush all buffers and close.
    fn close(&mut self) -> (r: Result<(), Error>)
        ensures
            old(self).model() is Some ==> r is Ok && final(self).model() == old(self).model()
                && final(self).model_sector() == old(self).model_sector()
                && final(self).model_unbounded() == old(self).model_unbounded()
                && final(self).model_capacity() == old(self).model_capacity(),
    ;

    /// Flush all buffers.
    fn sync(&mut self) -> (r: Result<(), Error>)
        ensures
            old(self).model() is Some ==> r is Ok && final(self).model() == old(self).model()
                && final(self).model_sector() == old(self).model_sector()
                && final(self).model_unbounded() == old(self).model_unbounded()
                && final(self).model_capacity() == old(self).model_capacity(),
    ;

    /// Truncate or extend to `size` bytes.
    fn set_len(&mut self, size: u64) -> Result<(), Error>;

    /// Move to the absolute offset `offset`.
    fn seek(&mut self, offset: u64) -> (r: Result<u64, Error>)
        ensures
            old(self).model() matches Some((c, _)) ==> r == Ok::<u64, Error>(offset)
                && final(self).model() == Some((c, offset as nat))
                && final(self).model_sector() == old(self).model_sector()
                && final(self).model_unbounded() == old(self).model_unbounded()
                && final(self).model_capacity() == old(self).model_capacity(),
    ;

    /// Read up to `buffer.len()` bytes; `Ok(0)` at the end of the device.
    fn read(&mut self, buffer: &mut [u8]) -> (r: Result<RawIoResult, Error>)
        ensures
            final(buffer)@.len() == old(buffer)@.len(),
            r matches Ok(RawIoResult::Processed(n)) ==> n <= old(buffer)@.len(),
            old(self).model() matches Some((c, p)) ==> {
                let n = read_count(c, p, old(buffer)@.len());
                &&& r == Ok::<RawIoResult, Error>(RawIoResult::Processed(n as usize))
                &&& forall|j: int| 0 <= j < n ==> #[trigger] final(buffer)@[j] == c[p + j]
                &&& final(self).model() == Some((c, (p + n) as nat))
                &&& final(self).model_sector() == old(self).model_sector()
                &&& final(self).model_unbounded() == old(self).model_unbounded()
                &&& final(self).model_capacity() == old(self).model_capacity()
            },
    ;

    /// Write `buffer`.
    fn write(&mut self, buffer: &[u8]) -> (r: Result<RawIoResult, Error>)
        ensures
            old(self).model() matches Some((c, p)) ==> {
                &&& (r matches Ok(RawIoResult::Processed(k)) ==> k == buffer@.len()
                    && final(self).model() == Some((overwrite(c, p, buffer@), (p + buffer@.len()) as nat)))
                &&& (!(r matches Ok(RawIoResult::Processed(_))) ==> final(self).model()
                    == old(self).model())
                &&& (old(self).model_unbounded() && p + buffer@.len() <= usize::MAX ==> (r
                    matches Ok(RawIoResult::Processed(_))))
                &&& (old(self).model_capacity() matches Some(k) ==> (p + buffer@.len() > k ==> r
                    == Ok::<RawIoResult, Error>(RawIoResult::Enospc)))
                &&& (old(self).model_capacity() matches Some(k) ==> (p + buffer@.len() <= k && p
                    + buffer@.len() <= usize::MAX ==> (r matches Ok(RawIoResult::Processed(_)))))
                &&& final(self).model_sector() == old(self).model_sector()
                &&& final(self).model_unbounded() == old(self).model_unbounded()
                &&& final(self).model_capacity() == old(self).model_capacity()
            },
    ;
}

/// The prefix `\\.\` of a Windows device path, as character codes.
pub open spec fn device_prefix() -> Seq<u32> {
    seq![92u32, 92, 46, 92]
}

/// The word "physicaldrive", as character codes.
pub open spec fn physical_drive_word() -> Seq<u32> {
    seq![112u32, 104, 121, 115, 105, 99, 97, 108, 100, 114, 105, 118, 101]
}

pub open spec fn is_ascii_letter(c: u32) -> bool {
    (65 <= c <= 90) || (97 <= c <= 122)
}

/// A Windows raw device path: `\\.\X:` for a drive letter `X`, or
/// `\\.\PhysicalDriveN` (the word in any case) for a drive number `N`
/// written in ASCII digits; other Unicode decimal digits are not accepted.
pub open spec fn is_raw_dev_path(s: Seq<u32>) -> bool {
    &&& s.len() >= 4
    &&& s.subrange(0, 4) == device_prefix()
    &&& {
        ||| (s.len() == 6 && is_ascii_letter(s[4]) && s[5] == 58)
        ||| (s.len() > 17 && s.subrange(4, 17).map_values(|c: u32| ascii_lower(c))
            == physical_drive_word() && all_digits(s.subrange(17, s.len() as int)))
    }
}

/// Whether `path` names a raw Windows drive or volume; see `is_raw_dev_path`.
pub fn is_raw_dev(path: &str) -> (r: bool)
    ensures
        r == is_raw_dev_path(codes(path@)),
{
    let c = str_codes(path);
    let n = c.len();
    if n < 4 || c[0] != 92 || c[1] != 92 || c[2] != 46 || c[3] != 92 {
        proof {
            if n >= 4 {
                assert(c@.subrange(0, 4)[0] == c@[0]);
                assert(c@.subrange(0, 4)[1] == c@[1]);
                assert(c@.subrange(0, 4)[2] == c@[2]);
                assert(c@.subrange(0, 4)[3] == c@[3]);
            }
        }
        return false;
    }
    proof {
        assert(c@.subrange(0, 4) =~= device_prefix());
    }
    if n == 6 {
        let l = c[4];
        return ((65 <= l && l <= 90) || (97 <= l && l <= 122)) && c[5] == 58;
    }
    if n <= 17 {
        return false;
    }
    let word: [u32; 13] = [112, 104, 121, 115, 105, 99, 97, 108, 100, 114, 105, 118, 101];
    proof {
        assert(word@ =~= physical_drive_word());
    }
    let lower = lower_codes(slice_subrange(c.as_slice(), 4, 17));
    let mut i: usize = 0;
    while i < 13
        invariant
            i <= 13,
            lower@.len() == 13,
            lower@ == c@.subrange(4, 17).map_values(|x: u32| ascii_lower(x)),
            c@ == codes(path@),
            n == c@.len(),
            n > 17,
            c@.subrange(0, 4) == device_prefix(),
            word@ == physical_drive_word(),
            forall|j: int| 0 <= j < i ==> lower@[j] == word@[j],
        decreases 13 - i,
    {
        if lower[i] != word[i] {
            proof {
                assert(lower@[i as int] != physical_drive_word()[i as int]);
            }
            return false;
        }
        i = i + 1;
    }
    proof {
        assert(lower@ =~= physical_drive_word());
    }
    all_digit_codes(c.as_slice(), 17, n)
}

/// The size of a disk from its geometry: bytes per sector times sectors per
/// track times tracks per cylinder times cylinders; `u64::MAX` where the
/// product does not fit, and zero for a negative cylinder count.
pub open spec fn geometry_size(bytes_per_sector: u32, sectors_per_track: u32, tracks_per_cylinder: u32, cylinders: i64) -> u64 {
    let p = bytes_per_sector as nat * sectors_per_track as nat * tracks_per_cylinder as nat * (if cylinders < 0 { 0 } else { cylinders as nat });
    if p <= u64::MAX {
        p as u64
    } else {
        u64::MAX
    }
}

/// Computes `geometry_size`.
pub fn disk_size_from_geometry(
    bytes_per_sector: u32,
    sectors_per_track: u32,
    tracks_per_cylinder: u32,
    cylinders: i64,
) -> (r: u64)
    ensures
        r == geometry_size(bytes_per_sector, sectors_per_track, tracks_per_cylinder, cylinders),
{
    let c: u64 = if cylinders < 0 {
        0
    } else {
        cylinders as u64
    };
    let x: u64 = bytes_per_sector as u64;
    let y: u64 = sectors_per_track as u64;
    let z: u64 = tracks_per_cylinder as u64;
    assert(x * y <= 0xffff_fffe_0000_0001u64) by (nonlinear_arith)
        requires
            x <= 0xffff_ffffu64,
            y <= 0xffff_ffffu64,
    ;
    let a: u64 = x * y;
    assert((a as int) * (z as int) <= 0xffff_fffe_0000_0001int * 0xffff_ffffint) by (nonlinear_arith)
        requires
            a <= 0xffff_fffe_0000_0001u64,
            z <= 0xffff_ffffu64,
    ;
    let b: u128 = a as u128 * z as u128;
    let ghost p: nat = bytes_per_sector as nat * sectors_per_track as nat * tracks_per_cylinder as nat * c as nat;
    assert(p == b as nat * c as nat);
    if b > u64::MAX as u128 {
        if c == 0 {
            assert(p == 0) by (nonlinear_arith)
                requires
                    p == b as nat * c as nat,
                    c == 0,
            ;
            return 0;
        }
        assert(p >= b) by (nonlinear_arith)
            requires
                p == b as nat * c as nat,
                c >= 1,
        ;
        return u64::MAX;
    }
    let b64: u64 = b as u64;
    match b64.checked_mul(c) {
        Some(v) => v,
        None => u64::MAX,
    }
}

/// Decides the result of a write from what the device answered. A failed
/// call ran out of space where the position after the bytes that did go out
/// has reached the disk size (a failure there still counts those bytes) or
/// where the device reports a full disk; any other failure is `Io`.
pub fn write_outcome(ok: bool, count: u32, offset_after: u64, disk_size: u64, disk_full: bool) -> (r:
    Result<RawIoResult, Error>)
    ensures
        ok ==> r == Ok::<RawIoResult, Error>(RawIoResult::Processed(count as usize)),
        !ok && offset_after >= disk_size && count == 0 ==> r == Ok::<RawIoResult, Error>(
            RawIoResult::Enospc,
        ),
        !ok && offset_after >= disk_size && count > 0 ==> r == Ok::<RawIoResult, Error>(
            RawIoResult::Processed(count as usize),
        ),
        !ok && offset_after < disk_size && disk_full ==> r == Ok::<RawIoResult, Error>(
            RawIoResult::Enospc,
        ),
        !ok && offset_after < disk_size && !disk_full ==> r is Err && r->Err_0.kind == ErrorKind::Io,
{
    if ok {
        Ok(RawIoResult::Processed(count as usize))
    } else if offset_after >= disk_size {
        if count == 0 {
            Ok(RawIoResult::Enospc)
        } else {
            Ok(RawIoResult::Processed(count as usize))
        }
    } else if disk_full {
        Ok(RawIoResult::Enospc)
    } else {
        Err(Error::new(ErrorKind::Io))
    }
}

/// Decides the result of a read from what the device answered: a failed read
/// at or past the end of the disk is a short read.
pub fn read_outcome(ok: bool, count: u32, offset_after: u64, disk_size: u64) -> (r: Result<
    RawIoResult,
    Error,
>)
    ensures
        ok || offset_after >= disk_size ==> r == Ok::<RawIoResult, Error>(RawIoResult::Processed(count as usize)),
        !ok && offset_after < disk_size ==> r is Err && r->Err_0.kind == ErrorKind::Io,
{
    if ok || offset_after >= disk_size {
        Ok(RawIoResult::Processed(count as usize))
    } else {
        Err(Error::new(ErrorKind::Io))
    }
}

/// An endpoint held in memory: a byte vector, a cursor, and an optional
/// capacity beyond which writes report that the space is used up.
pub struct MemRawIo {
    data: Vec<u8>,
    cursor: u64,
    capacity: Option<u64>,
    sector_size: Option<u32>,
}

impl MemRawIo {
    pub closed spec fn contents(&self) -> Seq<u8> {
        self.data@
    }

    pub closed spec fn cursor(&self) -> u64 {
        self.cursor
    }

    pub closed spec fn capacity(&self) -> Option<u64> {
        self.capacity
    }

    pub closed spec fn sector(&self) -> Option<u32> {
        self.sector_size
    }

    /// An empty endpoint, bounded by `capacity` if given, that reports `sector_size`.
    pub fn new(capacity: Option<u64>, sector_size: Option<u32>) -> (r: MemRawIo)
        ensures
            r.contents() == Seq::<u8>::empty(),
            r.cursor() == 0,
            r.capacity() == capacity,
            r.model_sector() == sector_size,
            r.sector() == sector_size,
    {
        MemRawIo { data: Vec::new(), cursor: 0, capacity, sector_size }
    }

    /// The bytes stored so far.
    pub fn get_data(&self) -> (r: &[u8])
        ensures
            r@ == self.contents(),
    {
        self.data.as_slice()
    }

    /// Overwrites the stored byte at `offset`.
    pub fn set_byte(&mut self, offset: usize, value: u8)
        requires
            offset < old(self).contents().len(),
        ensures
            final(self).contents() == old(self).contents().update(offset as int, value),
            final(self).cursor() == old(self).cursor(),
            final(self).capacity() == old(self).capacity(),
            final(self).sector() == old(self).sector(),
    {
        self.data.set(offset, value);
    }
}

impl RawIoOsIntf for MemRawIo {
    closed spec fn model(&self) -> Option<(Seq<u8>, nat)> {
        Some((self.data@, self.cursor as nat))
    }

    closed spec fn model_sector(&self) -> Option<u32> {
        self.sector_size
    }

    closed spec fn model_unbounded(&self) -> bool {
        self.capacity is None
    }

    closed spec fn model_capacity(&self) -> Option<u64> {
        self.capacity
    }

    fn get_sector_size(&self) -> (r: Option<u32>) {
        self.sector_size
    }

    fn drop_file_caches(&mut self, offset: u64, size: u64) -> (r: Result<(), Error>) {
        Ok(())
    }

    fn close(&mut self) -> (r: Result<(), Error>) {
        Ok(())
    }

    fn sync(&mut self) -> (r: Result<(), Error>) {
        Ok(())
    }

    fn set_len(&mut self, size: u64) -> Result<(), Error> {
        if size > usize::MAX as u64 {
            return Err(Error::new(ErrorKind::Io));
        }
        self.data.resize(size as usize, 0u8);
        Ok(())
    }

    fn seek(&mut self, offset: u64) -> (r: Result<u64, Error>) {
        self.cursor = offset;
        Ok(offset)
    }

    fn read(&mut self, buffer: &mut [u8]) -> (r: Result<RawIoResult, Error>) {
        let len = self.data.len() as u64;
        if self.cursor >= len {
            return Ok(RawIoResult::Processed(0));
        }
        let start = self.cursor as usize;
        let avail = self.data.len() - start;
        let n: usize = if buffer.len() < avail {
            buffer.len()
        } else {
            avail
        };
        let dlen = self.data.len();
        let mut i: usize = 0;
        while i < n
            invariant
                dlen == self.data@.len(),
                i <= n <= buffer@.len(),
                n <= avail,
                start + avail == self.data@.len(),
                buffer@.len() == old(buffer)@.len(),
                forall|j: int| 0 <= j < i ==> #[trigger] buffer@[j] == self.data@[start + j],
            decreases n - i,
        {
            buffer[i] = self.data[start + i];
            i = i + 1;
        }
        self.cursor = self.cursor + n as u64;
        Ok(RawIoResult::Processed(n))
    }

    fn write(&mut self, buffer: &[u8]) -> (r: Result<RawIoResult, Error>) {
        let ghost c = self.data@;
        let len = buffer.len() as u64;
        if self.cursor > u64::MAX - len {
            return Ok(RawIoResult::Enospc);
        }
        let end = self.cursor + len;
        match self.capacity {
            Some(cap) => {
                if end > cap {
                    return Ok(RawIoResult::Enospc);
                }
            },
            None => {},
        }
        if end > usize::MAX as u64 {
            return Err(Error::new(ErrorKind::Io));
        }
        let start = self.cursor as usize;
        proof {
            assert(self.data@.subrange(0, c.len() as int) =~= c);
        }
        while self.data.len() < end as usize
            invariant
                self.data@.len() >= c.len(),
                self.data@.len() <= if c.len() >= end { c.len() } else { end as nat },
                self.data@.subrange(0, c.len() as int) == c,
                end == self.cursor + buffer@.len(),
                self.cursor as nat == start,
                self.capacity == old(self).capacity,
                self.sector_size == old(self).sector_size,
                forall|j: int| c.len() <= j < self.data@.len() ==> #[trigger] self.data@[j] == 0u8,
                end <= usize::MAX,
            decreases end - self.data@.len(),
        {
            let ghost before = self.data@;
            self.data.push(0u8);
            proof {
                assert(self.data@.subrange(0, c.len() as int) =~= before.subrange(0, c.len() as int));
            }
        }
        let ghost d0 = self.data@;
        proof {
            assert forall|j: int| 0 <= j < c.len() implies #[trigger] d0[j] == c[j] by {
                assert(d0.subrange(0, c.len() as int)[j] == d0[j]);
            }
        }
        let dlen = self.data.len();
        let mut i: usize = 0;
        while i < buffer.len()
            invariant
                dlen == self.data@.len(),
                d0.len() == dlen,
                self.capacity == old(self).capacity,
                self.sector_size == old(self).sector_size,
                self.cursor == old(self).cursor,
                i <= buffer@.len(),
                start + buffer@.len() <= self.data@.len(),
                forall|j: int| 0 <= j < dlen && !(start <= j < start + i) ==> #[trigger] self.data@[j] == d0[j],
                forall|j: int| start <= j < start + i ==> #[trigger] self.data@[j] == buffer@[j - start],
            decreases buffer@.len() - i,
        {
            self.data.set(start + i, buffer[i]);
            i = i + 1;
        }
        proof {
            let o = overwrite(c, start as nat, buffer@);
            assert(o.len() == self.data@.len());
            assert forall|j: int| 0 <= j < o.len() implies #[trigger] o[j] == self.data@[j] by {
                if !(start <= j < start + buffer@.len()) {
                    if j < c.len() {
                        assert(d0[j] == c[j]);
                    } else {
                        assert(d0[j] == 0u8);
                    }
                }
            }
            assert(o =~= self.data@);
        }
        self.cursor = end;
        proof {
            assert(self.data@ == overwrite(c, start as nat, buffer@));
            assert(old(self).model() == Some((c, start as nat)));
            assert(self.cursor as nat == (start + buffer@.len()) as nat);
            assert(self.model() == Some((overwrite(c, start as nat, buffer@), (start + buffer@.len()) as nat)));
            assert(self.model_unbounded() == old(self).model_unbounded());
            assert(self.model_sector() == old(self).model_sector());
        }
        Ok(RawIoResult::Processed(buffer.len()))
    }
}

/// A memory endpoint models its stored bytes and cursor, reports its own
/// sector size, and takes every write where it has no capacity bound.
pub proof fn lemma_mem_model(io: &MemRawIo)
    ensures
        io.model() == Some((io.contents(), io.cursor() as nat)),
        io.model_unbounded() == (io.capacity() is None),
        io.model_capacity() == io.capacity(),
        io.model_sector() == io.sector(),
{
}

/// An endpoint, as the drivers use it.
pub struct RawIo<F: RawIoOsIntf> {
    os: F,
}

impl<F: RawIoOsIntf> RawIo<F> {
    /// Wraps an open endpoint.
    pub fn new(os: F) -> (r: RawIo<F>)
        ensures
            r.os() == os,
    {
        RawIo { os }
    }

    pub closed spec fn os(&self) -> F {
        self.os
    }

    /// The endpoint itself.
    pub fn get_os(&self) -> (r: &F)
        ensures
            *r == self.os(),
    {
        &self.os
    }

    /// The endpoint itself, for changes.
    pub fn get_os_mut(&mut self) -> (r: &mut F)
        ensures
            *r == old(self).os(),
            final(self).os() == *final(r),
    {
        &mut self.os
    }

    /// The physical sector size, or `None` where this is not a raw device.
    pub fn get_sector_size(&self) -> (r: Option<u32>)
        ensures
            self.os().model() is Some ==> r == self.os().model_sector(),
    {
        self.os.get_sector_size()
    }

    /// Flush, drop the caches of the given range, and close.
    pub fn drop_file_caches(&mut self, offset: u64, size: u64) -> (r: Result<(), Error>)
        ensures
            old(self).os().model() is Some ==> r is Ok && same_model(old(self).os(), final(self).os()),
    {
        self.os.drop_file_caches(offset, size)
    }

    /// Flush and close.
    pub fn close(&mut self) -> (r: Result<(), Error>)
        ensures
            old(self).os().model() is Some ==> r is Ok && same_model(old(self).os(), final(self).os()),
    {
        self.os.close()
    }

    /// Flush all buffers.
    pub fn sync(&mut self) -> (r: Result<(), Error>)
        ensures
            old(self).os().model() is Some ==> r is Ok && same_model(old(self).os(), final(self).os()),
    {
        self.os.sync()
    }

    /// Truncate or extend to `size` bytes.
    pub fn set_len(&mut self, size: u64) -> Result<(), Error> {
        self.os.set_len(size)
    }

    /// Move to the absolute offset `offset`.
    pub fn seek(&mut self, offset: u64) -> (r: Result<u64, Error>)
        ensures
            old(self).os().model() matches Some((c, _)) ==> r == Ok::<u64, Error>(offset)
                && final(self).os().model() == Some((c, offset as nat))
                && same_params(old(self).os(), final(self).os()),
    {
        self.os.seek(offset)
    }

    /// Read up to `buffer.len()` bytes; `Ok(0)` at the end of the device.
    pub fn read(&mut self, buffer: &mut [u8]) -> (r: Result<RawIoResult, Error>)
        ensures
            final(buffer)@.len() == old(buffer)@.len(),
            r matches Ok(RawIoResult::Processed(n)) ==> n <= old(buffer)@.len(),
            old(self).os().model() matches Some((c, p)) ==> {
                let n = read_count(c, p, old(buffer)@.len());
                &&& r == Ok::<RawIoResult, Error>(RawIoResult::Processed(n as usize))
                &&& forall|j: int| 0 <= j < n ==> #[trigger] final(buffer)@[j] == c[p + j]
                &&& final(self).os().model() == Some((c, (p + n) as nat))
                &&& same_params(old(self).os(), final(self).os())
            },
    {
        self.os.read(buffer)
    }

    /// Write `buffer`.
    pub fn write(&mut self, buffer: &[u8]) -> (r: Result<RawIoResult, Error>)
        ensures
            old(self).os().model() matches Some((c, p)) ==> {
                &&& (r matches Ok(RawIoResult::Processed(k)) ==> k == buffer@.len()
                    && final(self).os().model() == Some((overwrite(c, p, buffer@), (p + buffer@.len()) as nat)))
                &&& (!(r matches Ok(RawIoResult::Processed(_))) ==> final(self).os().model()
                    == old(self).os().model())
                &&& (old(self).os().model_unbounded() && p + buffer@.len() <= usize::MAX ==> (r
                    matches Ok(RawIoResult::Processed(_))))
                &&& (old(self).os().model_capacity() matches Some(k) ==> (p + buffer@.len() > k ==> r
                    == Ok::<RawIoResult, Error>(RawIoResult::Enospc)))
                &&& (old(self).os().model_capacity() matches Some(k) ==> (p + buffer@.len() <= k && p
                    + buffer@.len() <= usize::MAX ==> (r matches Ok(RawIoResult::Processed(_)))))
                &&& same_params(old(self).os(), final(self).os())
            },
    {
        self.os.write(buffer)
    }
}

} // verus!
