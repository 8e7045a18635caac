//! The 64-bit xxHash used for the section table and for file contents.

use std::hash::Hasher;
use twox_hash::XxHash64;
use vstd::prelude::*;

verus! {

/// Seed of every hash in a package.
pub const HASH_SEED: u64 = 1246736989840;

/// The xxHash64 digest of `data` under `seed`.
pub uninterp spec fn xxh64_of(seed: u64, data: Seq<u8>) -> u64;

/// Relies on twox_hash's `XxHash64`: a hasher made with `with_seed(seed)`
/// that is fed `data` in one `write` finishes with the digest of `data`.
#[verifier::external_body]
fn xxh64(seed: u64, data: &[u8]) -> (r: u64)
    ensures
        r == xxh64_of(seed, data@),
{
    let mut hasher = XxHash64::with_seed(seed);
    hasher.write(data);
    hasher.finish()
}

/// The package hash of `data`.
pub open spec fn package_hash(data: Seq<u8>) -> u64 {
    xxh64_of(HASH_SEED, data)
}

/// Hashes `data` with the package seed.
pub fn hash_bytes(data: &[u8]) -> (r: u64)
    ensures
        r == package_hash(data@),
{
    xxh64(HASH_SEED, data)
}

} // verus!
