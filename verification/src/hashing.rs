//! The hash primitive behind the filter's probes.

use vstd::prelude::*;

verus! {

/// What `murmur3::murmur3_x64_128` returns when it reads the bytes of `key`
/// from an in-memory cursor with the given `seed`: the 128-bit digest, or
/// `None` where the read reported an error.
pub uninterp spec fn murmur3_x64_128_digest(key: Seq<char>, seed: u32) -> Option<u128>;

/// Calls `murmur3::murmur3_x64_128` on a cursor over the UTF-8 bytes of `key`.
///
/// The digest is computed from the bytes read and the seed alone, so the
/// contract claims only that equal keys and seeds give equal results. It does
/// not claim that the read succeeds, nor anything about the digest's value.
#[verifier::external_body]
pub(crate) fn hash_key(key: &str, seed: u32) -> (r: Option<u128>)
    ensures
        r == murmur3_x64_128_digest(key@, seed),
{
    murmur3::murmur3_x64_128(&mut std::io::Cursor::new(key), seed).ok()
}

} // verus!
