//! The freshness rule of the local expiring key/value cache. The
//! store itself (files and their modification times) lives with the
//! callers; the core states only when an entry of a given age is
//! stale.

use vstd::prelude::*;

verus! {

/// How long a cached value stays fresh, in seconds: one day.
pub const CACHE_TTL_SECONDS: u64 = 86400;

/// Whether a cache entry written `age_seconds` ago has expired.
pub fn cache_age_expired(age_seconds: u64) -> (r: bool)
    ensures
        r == (age_seconds > CACHE_TTL_SECONDS),
{
    age_seconds > CACHE_TTL_SECONDS
}

} // verus!
