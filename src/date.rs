use chrono::Datelike;
use vstd::prelude::*;

verus! {

/// A calendar date as year, month and day.
#[derive(Clone, Copy, Debug, PartialEq, Eq, Structural)]
pub struct Date {
    pub year: i32,
    pub month: u32,
    pub day: u32,
}

/// What `chrono` reads from a text under the format `%Y-%m-%d`: the year,
/// month and day of the date, or nothing when the text is no such date.
pub uninterp spec fn ymd_of(s: Seq<char>) -> Option<(i32, u32, u32)>;

impl Date {
    pub open spec fn ymd(self) -> (i32, u32, u32) {
        (self.year, self.month, self.day)
    }
}

/// Chronological order: by year, then month, then day.
pub open spec fn date_lt(a: Date, b: Date) -> bool {
    a.year < b.year || (a.year == b.year && (a.month < b.month || (a.month == b.month
        && a.day < b.day)))
}

/// Relies on `chrono::NaiveDate::parse_from_str` with the format `%Y-%m-%d`:
/// the result is a function of the text alone.
#[verifier::external_body]
fn parse_ymd(s: &str) -> (r: Option<Date>)
    ensures
        r matches Some(d) ==> ymd_of(s@) == Some(d.ymd()),
        r is None ==> ymd_of(s@) is None,
{
    match chrono::NaiveDate::parse_from_str(s, "%Y-%m-%d") {
        Ok(d) => Some(Date { year: d.year(), month: d.month(), day: d.day() }),
        Err(_) => None,
    }
}

/// Reads a `YYYY-MM-DD` date; `None` when the text is not a calendar date.
pub fn valid_date_ymd(s: &str) -> (r: Option<Date>)
    ensures
        r matches Some(d) ==> ymd_of(s@) == Some(d.ymd()),
        r is None <==> ymd_of(s@) is None,
{
    parse_ymd(s)
}

/// Exec comparison in chronological order.
pub fn date_before(a: &Date, b: &Date) -> (r: bool)
    ensures
        r == date_lt(*a, *b),
{
    a.year < b.year || (a.year == b.year && (a.month < b.month || (a.month == b.month && a.day
        < b.day)))
}

} // verus!
