//! Verification of stored content: integrity evidence, and when a verification result
//! is stale or due again.

pub mod integrity_checks;

use vstd::prelude::*;

verus! {

/// Verification recommendations.
#[derive(Debug, Clone, Copy, PartialEq, Eq)]
pub enum VerificationRecommendation {
    AcceptAsValid,
    RequireAdditionalVerification,
    RequireReUpload,
    MarkForReview,
    InvestigateCorruption,
    ScheduleReverification,
}

/// Whether a chunk last verified at `last` is due for verification again at `now`:
/// only under periodic re-verification, once `interval` seconds have passed.
pub fn needs_reverification(periodic: bool, interval: u64, now: u64, last: u64) -> (due: bool)
    requires
        periodic ==> last <= now,
    ensures
        due == (periodic && now - last >= interval),
{
    if !periodic {
        return false;
    }
    now - last >= interval
}

/// Whether a verification result cached at `cached_at` has expired at `now`, after `ttl`
/// seconds.
pub fn is_cache_expired(now: u64, cached_at: u64, ttl: u64) -> (expired: bool)
    requires
        cached_at <= now,
    ensures
        expired == (now - cached_at >= ttl),
{
    now - cached_at >= ttl
}

} // verus!
