//! Instants and spans in milliseconds, with arithmetic that saturates.
use vstd::prelude::*;

verus! {

/// The nearest number that an `i64` holds.
pub open spec fn clamped(i: int) -> i64 {
    if i < i64::MIN {
        i64::MIN
    } else if i > i64::MAX {
        i64::MAX
    } else {
        i as i64
    }
}

fn clamp(i: i128) -> (r: i64)
    ensures
        r == clamped(i as int),
{
    if i < i64::MIN as i128 {
        i64::MIN
    } else if i > i64::MAX as i128 {
        i64::MAX
    } else {
        i as i64
    }
}

/// `a + b`, kept within the range of `i64`.
pub fn plus(a: i64, b: i64) -> (r: i64)
    ensures
        r == clamped(a + b),
{
    clamp(a as i128 + b as i128)
}

/// `a - b`, kept within the range of `i64`.
pub fn minus(a: i64, b: i64) -> (r: i64)
    ensures
        r == clamped(a - b),
{
    clamp(a as i128 - b as i128)
}

/// Seconds as milliseconds, if the product fits.
pub open spec fn secs_as_ms(secs: int) -> Option<i64> {
    if i64::MIN <= secs * 1000 <= i64::MAX {
        Some((secs * 1000) as i64)
    } else {
        None
    }
}

pub fn seconds_to_ms(secs: i64) -> (r: Option<i64>)
    ensures
        r == secs_as_ms(secs as int),
{
    let wide: i128 = secs as i128 * 1000;
    if wide < i64::MIN as i128 || wide > i64::MAX as i128 {
        None
    } else {
        Some(wide as i64)
    }
}

/// The optional seconds as milliseconds.
pub open spec fn opt_secs_as_ms(secs: Option<i64>) -> Option<i64> {
    match secs {
        Some(s) => secs_as_ms(s as int),
        None => None,
    }
}

} // verus!
