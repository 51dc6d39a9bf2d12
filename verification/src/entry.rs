//! A single cache record: a stored value with its creation time and
//! optional expiry, both in whole seconds.

use vstd::prelude::*;

verus! {

/// A stored value together with the second at which it was created and,
/// optionally, the second after which it no longer may be served.
/// A record is immutable once constructed; re-insertion under the same
/// key replaces it wholesale.
#[derive(Debug, Clone)]
pub struct CacheEntry<T> {
    pub data: T,
    pub created_at: u64,
    pub expires_at: Option<u64>,
}

/// A record is expired when it carries an expiry and the current time is
/// strictly after it.
pub open spec fn is_expired<T>(entry: CacheEntry<T>, now: u64) -> bool {
    match entry.expires_at {
        Some(e) => now > e,
        None => false,
    }
}

/// The expiry computed at insertion time: `now + ttl` seconds, saturated
/// at the largest representable second. A TTL of zero means the record
/// never expires.
pub open spec fn spec_expiry(now: u64, ttl: u64) -> Option<u64> {
    if ttl == 0 {
        None
    } else if now + ttl <= u64::MAX {
        Some((now + ttl) as u64)
    } else {
        Some(u64::MAX)
    }
}

/// Builds the record inserted at time `now` with a lifetime of `ttl`
/// seconds (zero: no expiry).
pub fn make_entry<T>(data: T, now: u64, ttl: u64) -> (entry: CacheEntry<T>)
    ensures
        entry == (CacheEntry { data, created_at: now, expires_at: spec_expiry(now, ttl) }),
{
    let expires_at: Option<u64> = if ttl == 0 {
        None
    } else if now <= u64::MAX - ttl {
        Some(now + ttl)
    } else {
        Some(u64::MAX)
    };
    CacheEntry { data, created_at: now, expires_at }
}

/// Decides [`is_expired`] for a record at time `now`.
pub fn check_expired<T>(entry: &CacheEntry<T>, now: u64) -> (expired: bool)
    ensures
        expired == is_expired(*entry, now),
{
    match entry.expires_at {
        Some(e) => now > e,
        None => false,
    }
}

} // verus!
