//! Calendar dates, reduced to day numbers.
//!
//! The engine only ever needs the signed difference in days between two
//! dates, so a date string is carried as its day number in the proleptic
//! Gregorian calendar. Parsing and the day count are delegated to chrono.
use vstd::prelude::*;

verus! {

/// Day number that a `YYYY-MM-DD` date string parses to, if any: an
/// uninterpreted function of the text alone.
pub uninterp spec fn date_value(s: Seq<char>) -> Option<int>;

/// Bound on any day number chrono can produce: its supported years span
/// roughly half a million days around the common era.
pub const DAY_MAG_CAP: i64 = 100_000_000;

/// Relies on `chrono::NaiveDate::parse_from_str` with the `%Y-%m-%d` format
/// and `chrono::Datelike::num_days_from_ce`: the parse depends on the text
/// alone, and the day count (January 1 of year 1 is day 1) stays within
/// chrono's year range of about -262000 to 262000, so well inside
/// [`DAY_MAG_CAP`].
#[verifier::external_body]
pub fn parse_date_days(s: &str) -> (r: Option<i64>)
    ensures
        (r is Some) == (date_value(s@) is Some),
        r matches Some(d) ==> date_value(s@) == Some(d as int) && -DAY_MAG_CAP <= d <= DAY_MAG_CAP,
{
    match chrono::NaiveDate::parse_from_str(s, "%Y-%m-%d") {
        Ok(d) => Some(chrono::Datelike::num_days_from_ce(&d) as i64),
        Err(_) => None,
    }
}

} // verus!
