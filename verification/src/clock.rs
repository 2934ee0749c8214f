//! The monotonic clock of the host, as far as the library reads it.

use vstd::prelude::*;
use std::time::{Duration, Instant};

verus! {

/// `std::time::Instant`, a reading of the monotonic clock. Nothing is known
/// of what a reading holds.
#[verifier::external_type_specification]
#[verifier::external_body]
pub struct ExInstant(Instant);

/// The number of whole milliseconds in a duration.
pub uninterp spec fn duration_millis(d: Duration) -> nat;

/// The number of whole nanoseconds in a duration. A duration is shorter
/// than another one just when it has fewer nanoseconds.
pub uninterp spec fn duration_nanos(d: Duration) -> nat;

/// `Duration::as_nanos` gives the whole nanoseconds in the duration.
pub assume_specification[ Duration::as_nanos ](d: &Duration) -> (ns: u128)
    ensures
        ns == duration_nanos(*d),
;

/// `Instant::now` reads the clock. Nothing is claimed of the reading.
pub assume_specification[ Instant::now ]() -> Instant;

/// `Instant::elapsed` gives the time since a reading was taken. Nothing is
/// claimed of its length.
pub assume_specification[ Instant::elapsed ](start: &Instant) -> Duration;

/// `Duration::as_millis` gives the whole milliseconds in the duration.
pub assume_specification[ Duration::as_millis ](d: &Duration) -> (ms: u128)
    ensures
        ms == duration_millis(*d),
;

/// `Duration` is plain data: a clone is the same duration.
pub assume_specification[ <Duration as Clone>::clone ](d: &Duration) -> (r: Duration)
    ensures
        r == *d,
;

} // verus!
