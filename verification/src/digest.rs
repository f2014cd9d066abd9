//! The stable 128-bit hash behind the local embedding strategy.

use md5::{Digest, Md5};
use vstd::prelude::*;
use vstd::utf8::encode_utf8;

verus! {

/// The MD5 digest of a byte sequence, its sixteen bytes read as one
/// big-endian integer.
pub uninterp spec fn md5_digest(bytes: Seq<u8>) -> u128;

/// Hashes the UTF-8 encoding of `text` with `Md5::new`, `update` and
/// `finalize` of the `md-5` crate and reads the digest as a big-endian
/// integer. The digest depends on the bytes alone; the contract only gives
/// it the name `md5_digest`.
#[verifier::external_body]
pub(crate) fn md5_hash(text: &str) -> (h: u128)
    ensures
        h == md5_digest(encode_utf8(text@)),
{
    let mut hasher = Md5::new();
    hasher.update(text.as_bytes());
    let result = hasher.finalize();
    u128::from_be_bytes(result.into())
}

/// The bucket, among `dim` buckets, that a piece of text hashes to.
pub open spec fn bucket_of(chars: Seq<char>, dim: nat) -> int
    recommends
        dim > 0,
{
    (md5_digest(encode_utf8(chars)) as int) % (dim as int)
}

/// Hashes a piece of text into one of `dim` buckets.
pub fn bucket(chars: &[char], dim: usize) -> (b: usize)
    requires
        dim > 0,
    ensures
        b == bucket_of(chars@, dim as nat),
        b < dim,
{
    let s = crate::text::string_of(chars);
    let h = md5_hash(s.as_str());
    (h % (dim as u128)) as usize
}

} // verus!
