use vstd::prelude::*;

pub mod chacha;
pub mod crc;

use crate::error::Error;

verus! {

/// A seekable keystream generator.
///
/// A generator walks one infinite byte sequence that its key determines,
/// `Self::stream_byte(key, i)` for `i = 0, 1, 2, ...`; `pos` is the offset of
/// the next byte it hands out.
pub trait NextRandom: Sized {
    /// The key that selects the byte sequence.
    spec fn key(&self) -> Seq<u8>;

    /// Offset of the next output byte.
    spec fn pos(&self) -> nat;

    /// Internal consistency.
    spec fn inv(&self) -> bool;

    /// Byte `i` of the sequence that `key` selects.
    spec fn stream_byte(key: Seq<u8>, i: nat) -> u8;

    /// Get the size of the `next()` output with `count = 1`, in bytes.
    fn get_base_size(&self) -> (r: usize)
        ensures
            r == 2048,
    ;

    /// Offset of the next output byte.
    fn get_pos(&self) -> (r: u64)
        requires
            self.inv(),
        ensures
            r == self.pos(),
    ;

    /// Fill `buf` with the next `count` base blocks.
    fn next(&mut self, buf: &mut [u8], count: usize)
        requires
            old(self).inv(),
            old(buf)@.len() == count * 2048,
            old(self).pos() + old(buf)@.len() <= u64::MAX,
        ensures
            final(self).inv(),
            final(self).key() == old(self).key(),
            final(self).pos() == old(self).pos() + old(buf)@.len(),
            final(buf)@.len() == old(buf)@.len(),
            forall|j: int|
                0 <= j < old(buf)@.len() ==> final(buf)@[j] == Self::stream_byte(
                    old(self).key(),
                    (old(self).pos() + j) as nat,
                ),
    ;

    /// Reposition to an absolute byte offset, which must be a multiple of the base size.
    fn seek(&mut self, byte_offset: u64) -> (r: Result<(), Error>)
        requires
            old(self).inv(),
        ensures
            final(self).inv(),
            final(self).key() == old(self).key(),
            r is Ok <==> byte_offset % 2048 == 0,
            r is Ok ==> final(self).pos() == byte_offset,
            r is Err ==> final(self).pos() == old(self).pos() && r->Err_0.kind
                == crate::error::ErrorKind::SeekAlignment,
    ;
}

} // verus!
