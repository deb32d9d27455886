//! The clock that senders and receivers are driven by.
//!
//! A channel never reads the time itself. Its clock starts at zero and moves
//! only when the owner of the channel says how much time has passed.

use std::time::Duration;
use vstd::prelude::*;

verus! {

/// The length of a span of time in nanoseconds.
pub uninterp spec fn duration_nanos(d: Duration) -> nat;

/// `Duration::as_nanos`: the whole span in nanoseconds.
#[verifier::external_body]
pub(crate) fn nanos_of(d: &Duration) -> (n: u128)
    ensures
        n == duration_nanos(*d),
{
    d.as_nanos()
}

/// The clock after it has run `delta` nanoseconds past `now`. It stops at
/// the largest value it can hold.
pub open spec fn advanced(now: u128, delta: nat) -> u128 {
    if now + delta > u128::MAX {
        u128::MAX
    } else {
        (now + delta) as u128
    }
}

/// Moves a clock that stands at `now` forward by `delta`.
pub fn advance(now: u128, delta: Duration) -> (later: u128)
    ensures
        later == advanced(now, duration_nanos(delta)),
{
    let nanos: u128 = nanos_of(&delta);
    if nanos > u128::MAX - now {
        u128::MAX
    } else {
        now + nanos
    }
}

} // verus!
