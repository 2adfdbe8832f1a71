//! Time as the cache sees it: instants are whole milliseconds since the Unix
//! epoch, lifetimes are whole milliseconds.

use vstd::prelude::*;

verus! {

/// A length of time in whole milliseconds.
#[derive(Clone, Copy, Debug, PartialEq, Eq, Structural)]
pub struct Span {
    pub millis: u64,
}

impl Span {
    /// A span of `millis` milliseconds.
    pub fn from_millis(millis: u64) -> (s: Span)
        ensures
            s.millis == millis,
    {
        Span { millis }
    }

    /// A span of `secs` seconds. The count of milliseconds has to fit in 64 bits.
    pub fn from_secs(secs: u64) -> (s: Span)
        requires
            secs * 1000 <= u64::MAX,
        ensures
            s.millis == secs * 1000,
    {
        Span { millis: secs * 1000 }
    }

    /// The span in milliseconds.
    pub fn as_millis(&self) -> (m: u64)
        ensures
            m == self.millis,
    {
        self.millis
    }
}

/// The instant at which something set at `now` with lifetime `ttl` expires.
pub open spec fn deadline_of(now: i64, ttl: Span) -> int {
    now + ttl.millis
}

/// Computes `now + ttl`. The sum of a 64-bit instant and a 64-bit span always
/// fits in 128 bits, so no input is left out.
pub fn deadline(now: i64, ttl: Span) -> (d: i128)
    ensures
        d == deadline_of(now, ttl),
{
    now as i128 + ttl.millis as i128
}

/// While the clock does not go back, a deadline that is set later is never
/// the earlier one, and what is set now is live now unless its lifetime is 0.
pub proof fn lemma_deadline_ascends(earlier: i64, later: i64, ttl: Span)
    requires
        earlier <= later,
    ensures
        deadline_of(earlier, ttl) <= deadline_of(later, ttl),
        deadline_of(later, ttl) > later <==> ttl.millis > 0,
{
}

/// Whether a deadline still lies strictly after `now`.
pub fn is_live(expires_at: i128, now: i64) -> (live: bool)
    ensures
        live == (expires_at > now),
{
    expires_at > now as i128
}

/// Reads the wall clock with `std::time::SystemTime::now`, turns the reading
/// into a `chrono::DateTime<Utc>` by chrono's `From<SystemTime>`, and gives it
/// as `DateTime::timestamp_millis` does: milliseconds since the Unix epoch,
/// negative where the clock stands before it. Nothing is claimed of the
/// value: it is whatever the machine's clock says, and two readings need not
/// even ascend.
#[verifier::external_body]
pub(crate) fn now_millis() -> (now: i64) {
    chrono::DateTime::<chrono::Utc>::from(std::time::SystemTime::now()).timestamp_millis()
}

} // verus!
