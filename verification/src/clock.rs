//! Reading the clock, and printing durations.

use std::time::Instant;

use vstd::prelude::*;

verus! {

/// `std::time::Instant`, a point in time that only the clock can make.
#[verifier::external_type_specification]
#[verifier::external_body]
pub struct ExInstant(Instant);

/// `Instant::now`: the time of the call, of which nothing can be said.
#[verifier::external_body]
pub(crate) fn now() -> (t: Instant) {
    Instant::now()
}

/// `Instant::elapsed`, in nanoseconds: the time since `t`, of which nothing
/// can be said.
#[verifier::external_body]
pub(crate) fn nanos_since(t: &Instant) -> (n: u64) {
    t.elapsed().as_nanos() as u64
}

/// A duration of `nanos` nanoseconds in seconds with one digit behind the
/// point, as `Duration::as_secs_f32` and the number formatter give it.
pub uninterp spec fn seconds_text(nanos: u64) -> Seq<char>;

/// `Duration::as_secs_f32`, printed with one digit behind the point.
///
/// Which digits come out is a matter of single-precision rounding, so the
/// result only has a name.
#[verifier::external_body]
pub(crate) fn print_seconds(nanos: u64) -> (s: String)
    ensures
        s@ == seconds_text(nanos),
{
    format!("{:.1}", std::time::Duration::from_nanos(nanos).as_secs_f32())
}

} // verus!
