//! The standard library's default hasher, as the broker uses it to spread
//! keys over partitions and to make identifiers.

use vstd::prelude::*;
use std::collections::hash_map::DefaultHasher;
use std::hash::{Hash, Hasher};

verus! {

/// The value a fresh `DefaultHasher` finishes with after hashing the string
/// with these characters. `DefaultHasher::new` builds the same hasher every
/// time, and `str` hashes its bytes followed by a terminator, so the value
/// depends on the string alone.
pub uninterp spec fn default_hash_str(s: Seq<char>) -> u64;

/// Hashes `s` with a fresh `DefaultHasher` (`DefaultHasher::new`,
/// `Hash::hash`, `Hasher::finish`).
#[verifier::external_body]
pub fn hash_str(s: &str) -> (h: u64)
    ensures
        h == default_hash_str(s@),
{
    let mut hasher = DefaultHasher::new();
    s.hash(&mut hasher);
    hasher.finish()
}

/// Hashes `x` with a fresh `DefaultHasher`. Integers are hashed through
/// their bytes in the machine's order, so nothing is promised of the value.
#[verifier::external_body]
pub fn hash_u64(x: u64) -> u64 {
    let mut hasher = DefaultHasher::new();
    x.hash(&mut hasher);
    hasher.finish()
}

} // verus!
