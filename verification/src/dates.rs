//! The one clock access the pipeline needs: the current UTC date, rendered
//! as `YYYY-MM-DD`. Everything that uses a date takes it as an argument.

use vstd::prelude::*;

verus! {

/// Relies on chrono's `Utc::now`, `TimeDelta::days` and `NaiveDate`: the
/// current UTC date shifted by `days`, rendered as `YYYY-MM-DD`. The result
/// depends on the clock, so nothing is promised of it. The bound keeps the
/// shifted date well inside chrono's representable range, where neither
/// `TimeDelta::days` nor the date addition panics; the pipeline only ever
/// shifts by a few days.
#[verifier::external_body]
pub fn utc_date_plus_days(days: i64) -> String
    requires
        -1000000 <= days <= 1000000,
{
    let d = (chrono::Utc::now() + chrono::Duration::days(days)).date_naive();
    format!("{}", d)
}

} // verus!
