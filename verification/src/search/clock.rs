//! The wall clock, by which searches time themselves.

use vstd::prelude::*;
use std::time::Instant;

verus! {

/// `std::time::Instant`, a moment of the clock. Nothing is known of a value
/// of it.
#[verifier::external_type_specification]
#[verifier::external_body]
pub struct ExInstant(std::time::Instant);

/// `Instant::now` gives the present moment. Nothing is claimed of it.
pub assume_specification[ std::time::Instant::now ]() -> (r: std::time::Instant)
;

/// `Instant::elapsed` gives the time that has passed since the instant.
/// Nothing is claimed of it.
pub assume_specification[ std::time::Instant::elapsed ](instant: &std::time::Instant) -> (r:
    core::time::Duration)
;

/// `Duration::as_millis` gives the whole milliseconds of the duration.
/// Nothing is claimed of it.
pub assume_specification[ core::time::Duration::as_millis ](duration: &core::time::Duration) -> (r:
    u128)
;

/// The milliseconds that have passed since `start`, or the greatest 32-bit
/// number if there are more. What the clock says decides the result.
pub(crate) fn millis_since(start: &Instant) -> (r: u32) {
    saturate_millis(start.elapsed().as_millis())
}

/// A number of milliseconds in 32 bits: the number itself, or the greatest
/// 32-bit number if it is greater.
pub open spec fn saturated_millis(millis: u128) -> u32 {
    if millis > 0xFFFF_FFFF {
        0xFFFF_FFFFu32
    } else {
        millis as u32
    }
}

/// Brings a number of milliseconds into 32 bits: the number itself, or the
/// greatest 32-bit number if it is greater.
pub fn saturate_millis(millis: u128) -> (r: u32)
    ensures
        r == saturated_millis(millis),
{
    if millis > 0xFFFF_FFFF {
        0xFFFF_FFFF
    } else {
        millis as u32
    }
}

} // verus!
