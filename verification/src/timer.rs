//! Deadlines and the random length of an election timeout.

use vstd::prelude::*;

use crate::model::deadline;

verus! {

/// The time `wait` after `now`; the end of time if that is beyond it.
pub fn deadline_after(now: u64, wait: u64) -> (at: u64)
    ensures
        at == deadline(now, wait),
{
    if wait > u64::MAX - now {
        u64::MAX
    } else {
        now + wait
    }
}

/// Draws the length of an election timeout from the thread's random number
/// generator, by `rand::Rng::gen_range` on `rand::thread_rng()` with the
/// inclusive range from `min` to `max`.
///
/// Believed, not proved: the number drawn lies in that range. `gen_range`
/// panics on an empty range, which `min <= max` rules out. Nothing is said
/// of which number comes: two calls may differ. The generator itself panics
/// where the operating system gives it no entropy, when a thread first uses
/// it and when it reseeds; no argument causes that and none prevents it.
#[verifier::external_body]
pub(crate) fn election_timeout(min: u64, max: u64) -> (wait: u64)
    requires
        min <= max,
    ensures
        min <= wait <= max,
{
    rand::Rng::gen_range(&mut rand::thread_rng(), min..=max)
}

} // verus!
