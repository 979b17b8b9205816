//! Average speed between two sightings, and the test against a limit.
//!
//! Speeds are in hundredths of a mile per hour, rounded to the nearest
//! hundredth with halves rounded up.  The test against the limit is made on
//! the exact average, not on the rounded figure.

use vstd::prelude::*;

verus! {

/// Miles between two mileposts.
pub open spec fn distance(mile1: int, mile2: int) -> int {
    if mile1 <= mile2 {
        mile2 - mile1
    } else {
        mile1 - mile2
    }
}

/// `miles / seconds * 3600 * 100`, rounded to the nearest integer, halves up.
pub open spec fn rounded_speed(miles: int, seconds: int) -> int {
    (720000 * miles + seconds) / (2 * seconds)
}

/// Whether the exact average speed is more than half a mile per hour above
/// `limit`: `miles / seconds * 3600 > limit + 1/2`.
pub open spec fn over_limit(miles: int, seconds: int, limit: int) -> bool {
    7200 * miles > (2 * limit + 1) * seconds
}

/// The speed field of a ticket: the rounded speed, held at the largest value
/// the field can carry.
pub open spec fn ticket_speed(miles: int, seconds: int) -> int {
    if rounded_speed(miles, seconds) > 65535 {
        65535
    } else {
        rounded_speed(miles, seconds)
    }
}

/// The rounded speed is the integer nearest to the exact one: it lies within
/// half a hundredth of `miles / seconds * 360000`, and a speed exactly
/// halfway between two hundredths goes to the upper one.
pub proof fn lemma_rounded_speed_is_nearest(miles: int, seconds: int)
    requires
        0 <= miles,
        0 < seconds,
    ensures
        0 <= rounded_speed(miles, seconds),
        (2 * rounded_speed(miles, seconds) - 1) * seconds <= 720000 * miles,
        720000 * miles < (2 * rounded_speed(miles, seconds) + 1) * seconds,
{
    let n = 720000 * miles + seconds;
    let d = 2 * seconds;
    let r = n / d;
    assert(n == d * r + n % d && 0 <= n % d < d) by {
        vstd::arithmetic::div_mod::lemma_fundamental_div_mod(n, d);
        vstd::arithmetic::div_mod::lemma_mod_bound(n, d);
    }
    assert(0 <= r) by {
        vstd::arithmetic::div_mod::lemma_div_pos_is_pos(n, d);
    }
    assert((2 * r - 1) * seconds == d * r - seconds) by (nonlinear_arith)
        requires
            d == 2 * seconds,
    ;
    assert((2 * r + 1) * seconds == d * r + seconds) by (nonlinear_arith)
        requires
            d == 2 * seconds,
    ;
}

/// Miles between two mileposts.
pub fn miles_between(mile1: u16, mile2: u16) -> (d: u16)
    ensures
        d == distance(mile1 as int, mile2 as int),
{
    if mile1 <= mile2 {
        mile2 - mile1
    } else {
        mile1 - mile2
    }
}

/// Average speed over `miles` covered in `seconds`, in hundredths of a mile
/// per hour.
pub fn average_speed(miles: u16, seconds: u32) -> (s: u64)
    requires
        seconds > 0,
    ensures
        s == rounded_speed(miles as int, seconds as int),
{
    let n: u64 = 720000u64 * (miles as u64) + (seconds as u64);
    let d: u64 = 2u64 * (seconds as u64);
    n / d
}

/// Whether covering `miles` in `seconds` breaks `limit` (in miles per hour)
/// by more than half a mile per hour.
pub fn exceeds_limit(miles: u16, seconds: u32, limit: u16) -> (b: bool)
    ensures
        b == over_limit(miles as int, seconds as int, limit as int),
{
    let lhs: u64 = 7200u64 * (miles as u64);
    let factor: u64 = 2u64 * (limit as u64) + 1u64;
    assert(factor * (seconds as u64) <= 131071 * 4294967295) by (nonlinear_arith)
        requires
            factor <= 131071,
            seconds <= 4294967295,
    ;
    let rhs: u64 = factor * (seconds as u64);
    lhs > rhs
}

/// The speed to write on a ticket.
pub fn speed_for_ticket(miles: u16, seconds: u32) -> (s: u16)
    requires
        seconds > 0,
    ensures
        s == ticket_speed(miles as int, seconds as int),
{
    let exact: u64 = average_speed(miles, seconds);
    if exact > 65535 {
        65535
    } else {
        exact as u16
    }
}

} // verus!
