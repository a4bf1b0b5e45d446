//! The wall clock, read once per command.

use vstd::prelude::*;
use std::time::{SystemTime, UNIX_EPOCH};

verus! {

/// Relies on `std::time::SystemTime::now` and `SystemTime::duration_since`
/// (converted with `Duration::as_millis`): milliseconds since the Unix
/// epoch, or zero should the clock stand before the epoch. Nothing can be
/// promised of a clock reading; callers state what holds for every value.
#[verifier::external_body]
pub fn get_millis_since_epoch() -> u128 {
    SystemTime::now().duration_since(UNIX_EPOCH).map(|d| d.as_millis()).unwrap_or(0)
}

} // verus!
