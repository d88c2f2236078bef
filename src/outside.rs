use vstd::prelude::*;

use crate::resource::Timestamp;

use rand::Rng;

verus! {

/// Relies on chrono::Utc::now (with DateTime::timestamp and
/// DateTime::timestamp_subsec_nanos) for the current time.
/// Nothing is promised of the value: it is the clock's.
#[verifier::external_body]
pub(crate) fn current_time() -> (r: Timestamp) {
    let now = chrono::Utc::now();
    Timestamp { secs: now.timestamp(), nanos: now.timestamp_subsec_nanos() }
}

/// Relies on rand's Rng::gen_range over the thread-local generator:
/// a value drawn from `0..n`, which panics on an empty range.
#[verifier::external_body]
pub(crate) fn random_below(n: usize) -> (r: usize)
    requires
        n > 0,
    ensures
        r < n,
{
    rand::thread_rng().gen_range(0..n)
}

} // verus!
