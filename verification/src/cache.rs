//! The TTL discipline shared by the release caches: an entry carries the
//! time it was last refreshed, starts out already expired so the first
//! access always refreshes, and is refreshed again only once its
//! time-to-live has elapsed.
//!
//! The caches themselves live with the snapshot types they hold
//! (`CachedKernelData`, `CachedZFSMeta`); callers are expected to serialize
//! all access to an entry through one exclusive lock, so that the first
//! caller to find an expired entry performs the one refresh of that expiry
//! window and everyone queued behind it observes a fresh entry.

use vstd::prelude::*;

verus! {

/// Seconds a refreshed entry stays fresh.
pub const CACHE_TTL_SECS: u64 = 60;

/// How far in the past a new entry's refresh time is set: twice the TTL,
/// so a new entry is expired from the start.
pub const CACHE_INITIAL_AGE_SECS: u64 = 120;

/// Whether an entry last refreshed at `last_updated` is past its TTL at
/// time `now`.
pub open spec fn spec_expired(last_updated: u64, now: u64) -> bool {
    now - last_updated > CACHE_TTL_SECS
}

/// An entry created at process start (time `start`) is already past its
/// TTL at every later time, so the very first access refreshes it.
pub proof fn lemma_initial_entry_expired(start: u64, now: u64)
    requires
        CACHE_INITIAL_AGE_SECS <= start <= now,
    ensures
        spec_expired((start - CACHE_INITIAL_AGE_SECS) as u64, now),
{
}

/// After a refresh at time `t`, an access within the TTL observes a fresh
/// entry and does not refresh: the refresh that filled the entry is the
/// only one of its expiry window.
pub proof fn lemma_fresh_entry_not_expired(t: u64, now: u64)
    requires
        t <= now <= t + CACHE_TTL_SECS,
    ensures
        !spec_expired(t, now),
{
}

/// Once the TTL has elapsed since the refresh at time `t`, the entry is
/// expired again and the next access performs exactly one more refresh.
pub proof fn lemma_entry_expires_after_ttl(t: u64, now: u64)
    requires
        now > t + CACHE_TTL_SECS,
    ensures
        spec_expired(t, now),
{
}

} // verus!
