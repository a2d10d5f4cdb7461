//! Calendar dates as the catalog hands them out: `"YYYY-MM-DD"` strings.
//!
//! Parsing and epoch conversion are done by the `chrono` crate; this module
//! gives that computation a name the rest of the library can reason with.

use vstd::prelude::*;

verus! {

/// The year and the UTC midnight epoch second of the calendar date written
/// in `s` as `"YYYY-MM-DD"`, or `None` when `s` is not such a date. The
/// result depends on the characters of `s` alone.
pub uninterp spec fn date_info(s: Seq<char>) -> Option<(i32, i64)>;

/// Relies on `chrono::NaiveDate::parse_from_str` with the `"%Y-%m-%d"`
/// format, `Datelike::year`, and `NaiveDateTime::timestamp` at UTC
/// midnight: all are pure functions of the string.
#[verifier::external_body]
pub fn parse_date_ymd(s: &str) -> (r: Option<(i32, i64)>)
    ensures
        r == date_info(s@),
{
    match chrono::NaiveDate::parse_from_str(s, "%Y-%m-%d") {
        Ok(d) => {
            let year = chrono::Datelike::year(&d);
            let epoch = d.and_hms_opt(0, 0, 0).unwrap().and_utc().timestamp();
            Some((year, epoch))
        },
        Err(_) => None,
    }
}

/// The year of a catalog date string, if it parses.
pub fn date_year(s: &str) -> (r: Option<i32>)
    ensures
        r == match date_info(s@) {
            Some(p) => Some(p.0),
            None => None::<i32>,
        },
{
    match parse_date_ymd(s) {
        Some(p) => Some(p.0),
        None => None,
    }
}

/// The UTC midnight epoch second of a catalog date string, if it parses.
pub fn date_epoch(s: &str) -> (r: Option<i64>)
    ensures
        r == match date_info(s@) {
            Some(p) => Some(p.1),
            None => None::<i64>,
        },
{
    match parse_date_ymd(s) {
        Some(p) => Some(p.1),
        None => None,
    }
}

} // verus!
