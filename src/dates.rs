//! Calendar days as plain day numbers, read and written through chrono.

use vstd::prelude::*;

verus! {

/// The day number (days from the common era) that a `YYYY-MM-DD` date names.
pub uninterp spec fn day_number_of(s: Seq<char>) -> Option<i64>;

/// The `YYYY-MM-DD` text of a day number, where chrono can represent that day.
pub uninterp spec fn day_text_of(n: i64) -> Option<Seq<char>>;

/// Relies on chrono's `NaiveDate::parse_from_str` with the format `%Y-%m-%d` and
/// `Datelike::num_days_from_ce`, which returns an `i32`.
#[verifier::external_body]
pub(crate) fn day_number(s: &str) -> (r: Option<i64>)
    ensures
        r == day_number_of(s@),
        r matches Some(n) ==> i32::MIN <= n <= i32::MAX,
{
    match chrono::NaiveDate::parse_from_str(s, "%Y-%m-%d") {
        Ok(d) => Some(chrono::Datelike::num_days_from_ce(&d) as i64),
        Err(_) => None,
    }
}

/// Relies on chrono's `NaiveDate::from_num_days_from_ce_opt` and on formatting
/// the date with `%Y-%m-%d`.
#[verifier::external_body]
pub(crate) fn day_text(n: i64) -> (r: Option<String>)
    ensures
        match r {
            Some(t) => day_text_of(n) == Some(t@),
            None => day_text_of(n) is None,
        },
{
    let d = i32::try_from(n).ok().and_then(chrono::NaiveDate::from_num_days_from_ce_opt);
    match d {
        Some(d) => Some(d.format("%Y-%m-%d").to_string()),
        None => None,
    }
}

} // verus!
