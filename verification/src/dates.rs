use chrono::Datelike;
use vstd::prelude::*;

verus! {

/// A day of the calendar.
#[derive(Clone, Copy, Debug, PartialEq, Eq, Structural)]
pub struct CalendarDate {
    pub year: i32,
    pub month: u32,
    pub day: u32,
}

/// The year, month and day that `chrono` reads from a text in the form
/// `%Y-%m-%d`, or nothing where it reads no date.
pub uninterp spec fn iso_date(text: Seq<char>) -> Option<(i32, u32, u32)>;

/// Calls `chrono::NaiveDate::parse_from_str` with the format `%Y-%m-%d`
/// and takes the date apart with `Datelike::year`, `month` and `day`. The
/// parser depends on the text alone; the contract only names what it
/// yields and claims nothing else of it.
#[verifier::external_body]
fn parse_iso_date(text: &str) -> (parts: Option<(i32, u32, u32)>)
    ensures
        parts == iso_date(text@),
{
    match chrono::NaiveDate::parse_from_str(text, "%Y-%m-%d") {
        Ok(date) => Some((date.year(), date.month(), date.day())),
        Err(_) => None,
    }
}

/// The date a text in the form `YYYY-MM-DD` stands for.
pub open spec fn date_of(text: Seq<char>) -> Option<CalendarDate> {
    match iso_date(text) {
        Some(parts) => Some(CalendarDate { year: parts.0, month: parts.1, day: parts.2 }),
        None => None,
    }
}

/// Reads a date in the form `YYYY-MM-DD`.
pub fn read_date(text: &str) -> (date: Option<CalendarDate>)
    ensures
        date == date_of(text@),
{
    match parse_iso_date(text) {
        Some((year, month, day)) => Some(CalendarDate { year, month, day }),
        None => None,
    }
}

} // verus!
