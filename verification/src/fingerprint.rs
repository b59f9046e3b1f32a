//! Audio file fingerprinting for the analysis cache.
//!
//! A file's fingerprint is the hash of a sample of its contents (its
//! first megabyte, or all of it when shorter) with the file size
//! appended, so that files differing only in their tail still get
//! distinct keys.

use vstd::prelude::*;

use crate::bytes::le4;

verus! {

/// The 64-bit hash the fingerprint function computes over a byte
/// sequence; it depends on the bytes alone.
pub uninterp spec fn xxh3_of(data: Seq<u8>) -> u64;

/// Relies on `xxhash_rust::xxh3::xxh3_64`: the 64-bit hash of the
/// bytes, a pure function of its input.
#[verifier::external_body]
fn xxh3_64_bytes(data: &Vec<u8>) -> (r: u64)
    ensures
        r == xxh3_of(data@),
{
    xxhash_rust::xxh3::xxh3_64(data.as_slice())
}

/// The bytes hashed for a file: the sample read from its head, then the
/// file size as eight little-endian bytes.
pub open spec fn spec_fingerprint_input(sample: Seq<u8>, file_size: u64) -> Seq<u8> {
    sample + le4((file_size & 0xFFFF_FFFF) as u32) + le4(((file_size >> 32) & 0xFFFF_FFFF) as u32)
}

/// The fingerprint of a file: the hash of its sample with the file size
/// appended.
pub fn fingerprint_of_sample(sample: &Vec<u8>, file_size: u64) -> (r: u64)
    requires
        sample@.len() <= 0x0010_0000,
    ensures
        r == xxh3_of(spec_fingerprint_input(sample@, file_size)),
{
    let mut buf: Vec<u8> = Vec::new();
    crate::bytes::push_bytes(&mut buf, sample);
    proof {
        let fs = file_size;
        assert((fs & 0xFFFF_FFFF) <= 0xFFFF_FFFF && ((fs >> 32) & 0xFFFF_FFFF) <= 0xFFFF_FFFF)
            by (bit_vector);
    }
    crate::bytes::push_u32_le(&mut buf, (file_size & 0xFFFF_FFFF) as u32);
    crate::bytes::push_u32_le(&mut buf, ((file_size >> 32) & 0xFFFF_FFFF) as u32);
    proof {
        assert(buf@ =~= spec_fingerprint_input(sample@, file_size));
    }
    xxh3_64_bytes(&buf)
}

/// The cache file name for a fingerprint: sixteen hex digits and the
/// `.json` suffix.
pub open spec fn spec_cache_key(file_hash: u64) -> Seq<char> {
    crate::textfmt::spec_hex_lower(file_hash as u128, 16) + ".json"@
}

/// The cache file name for a fingerprint.
pub fn cache_key(file_hash: u64) -> (r: String)
    ensures
        r@ == spec_cache_key(file_hash),
{
    let mut r = crate::textfmt::u128_hex_pad(file_hash as u128, 16, false);
    r.append(".json");
    proof {
        assert(r@ =~= spec_cache_key(file_hash));
    }
    r
}

} // verus!
