use vstd::prelude::*;

use ring::{digest, pbkdf2};
use std::num::NonZeroU32;

verus! {

/// The PBKDF2 iteration count.
pub const ITERATIONS: u32 = 50000;

/// Length of a derived key, in bytes.
pub const DK_SIZE: usize = 32;

/// The SHA-512 digest of `data`.
pub uninterp spec fn sha512_of(data: Seq<u8>) -> Seq<u8>;

/// PBKDF2 with HMAC-SHA512: `len` bytes derived from `secret` and `salt` in `iterations` rounds.
pub uninterp spec fn pbkdf2_hmac_sha512(iterations: u32, salt: Seq<u8>, secret: Seq<u8>, len: nat) -> Seq<u8>;

/// Relies on ring::digest::digest with SHA512: a 64-byte digest of `data`.
#[verifier::external_body]
fn sha512(data: &[u8]) -> (r: Vec<u8>)
    ensures
        r@ == sha512_of(data@),
        r@.len() == 64,
{
    digest::digest(&digest::SHA512, data).as_ref().to_vec()
}

/// Relies on ring::pbkdf2::derive with PBKDF2_HMAC_SHA512: it fills all of the
/// `out_len` output bytes.
#[verifier::external_body]
fn pbkdf2_derive(iterations: u32, salt: &[u8], secret: &[u8], out_len: usize) -> (r: Vec<u8>)
    requires
        iterations > 0,
        out_len <= 64,
    ensures
        r@ == pbkdf2_hmac_sha512(iterations, salt@, secret@, out_len as nat),
        r@.len() == out_len,
{
    let mut out = vec![0u8; out_len];
    let iterations = NonZeroU32::new(iterations).unwrap();
    pbkdf2::derive(pbkdf2::PBKDF2_HMAC_SHA512, iterations, salt, secret, &mut out);
    out
}

/// Little-endian bytes of a 32-bit word.
pub open spec fn le32(x: u32) -> Seq<u8> {
    seq![
        (x & 0xff) as u8,
        ((x >> 8) & 0xff) as u8,
        ((x >> 16) & 0xff) as u8,
        ((x >> 24) & 0xff) as u8,
    ]
}

/// The bytes of the text "disktest salt".
pub open spec fn salt_label() -> Seq<u8> {
    seq![100u8, 105, 115, 107, 116, 101, 115, 116, 32, 115, 97, 108, 116]
}

/// The password: the seed and the thread id; from round one on, also the
/// letter 'R' and the round id.
pub open spec fn kdf_password(seed: Seq<u8>, thread_id: u32, round_id: u64) -> Seq<u8> {
    if round_id == 0 {
        seed + le32(thread_id)
    } else {
        seed + le32(thread_id) + seq![82u8] + crate::generator::crc::le64(round_id)
    }
}

/// The salt: the SHA-512 digest of the label followed by the password.
pub open spec fn kdf_salt(password: Seq<u8>) -> Seq<u8> {
    sha512_of(salt_label() + password)
}

/// The key of one thread in one round.
pub open spec fn kdf_spec(seed: Seq<u8>, thread_id: u32, round_id: u64) -> Seq<u8> {
    let password = kdf_password(seed, thread_id, round_id);
    pbkdf2_hmac_sha512(ITERATIONS, kdf_salt(password), password, DK_SIZE as nat)
}

fn push_bytes(v: &mut Vec<u8>, data: &[u8])
    ensures
        final(v)@ == old(v)@ + data@,
{
    let mut i: usize = 0;
    let ghost v0 = v@;
    while i < data.len()
        invariant
            i <= data@.len(),
            v@ == v0 + data@.subrange(0, i as int),
        decreases data@.len() - i,
    {
        v.push(data[i]);
        proof {
            assert(v0 + data@.subrange(0, i + 1) =~= v0 + data@.subrange(0, i as int) + seq![data@[i as int]]);
        }
        i = i + 1;
    }
    proof {
        assert(data@.subrange(0, data@.len() as int) =~= data@);
    }
}

pub fn derive_salt(password: &[u8]) -> (r: Vec<u8>)
    ensures
        r@ == kdf_salt(password@),
{
    let label: [u8; 13] = [100u8, 105, 115, 107, 116, 101, 115, 116, 32, 115, 97, 108, 116];
    let mut input: Vec<u8> = Vec::new();
    push_bytes(&mut input, &label);
    proof {
        assert(label@ =~= salt_label());
    }
    push_bytes(&mut input, password);
    sha512(input.as_slice())
}

/// Derive the 32-byte key of thread `thread_id` in round `round_id` from `seed`.
pub fn kdf(seed: &[u8], thread_id: u32, round_id: u64) -> (r: Vec<u8>)
    ensures
        r@ == kdf_spec(seed@, thread_id, round_id),
        r@.len() == DK_SIZE,
{
    let mut password: Vec<u8> = Vec::new();
    push_bytes(&mut password, seed);
    let tid: [u8; 4] = [
        (thread_id & 0xff) as u8,
        ((thread_id >> 8) & 0xff) as u8,
        ((thread_id >> 16) & 0xff) as u8,
        ((thread_id >> 24) & 0xff) as u8,
    ];
    push_bytes(&mut password, &tid);
    proof {
        assert(tid@ =~= le32(thread_id));
    }
    if round_id > 0 {
        let letter: [u8; 1] = [82u8];
        push_bytes(&mut password, &letter);
        let rid = crate::generator::crc::le64_bytes(round_id);
        push_bytes(&mut password, &rid);
        proof {
            assert(letter@ =~= seq![82u8]);
        }
    }
    proof {
        assert(password@ =~= kdf_password(seed@, thread_id, round_id));
    }
    let salt = derive_salt(password.as_slice());
    pbkdf2_derive(ITERATIONS, salt.as_slice(), password.as_slice(), DK_SIZE)
}

} // verus!
