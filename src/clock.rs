use vstd::prelude::*;

verus! {

/// Relies on chrono's `Local::today` for the local calendar date, and on
/// `Datelike::num_days_from_ce`, which numbers it from 1 January of year 1 as
/// day 1. Nothing is promised of the value: it is the time.
#[verifier::external_body]
pub(crate) fn today() -> (r: i32) {
    chrono::Datelike::num_days_from_ce(&chrono::Local::today())
}

} // verus!
