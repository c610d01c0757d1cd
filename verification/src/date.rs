//! Calendar dates: what a due date parses to, and the order of two dates.

use chrono::Datelike;
use vstd::prelude::*;

verus! {

/// A day of the proleptic Gregorian calendar.
#[derive(Debug, PartialEq, Eq, Clone, Copy)]
pub struct Date {
    pub year: i32,
    pub month: u32,
    pub day: u32,
}

/// True when `a` is an earlier day than `b`.
pub open spec fn date_before(a: Date, b: Date) -> bool {
    ||| a.year < b.year
    ||| a.year == b.year && a.month < b.month
    ||| a.year == b.year && a.month == b.month && a.day < b.day
}

/// What `chrono::NaiveDate::parse_from_str` makes of `text` under `format`:
/// the date it returns, or nothing where it returns an error.
pub uninterp spec fn parsed_date(text: Seq<char>, format: Seq<char>) -> Option<Date>;

/// The format in which a due date is written: year, month and day, with
/// hyphens between them.
pub open spec fn due_format() -> Seq<char> {
    "%Y-%m-%d"@
}

/// Calls `chrono::NaiveDate::parse_from_str`. The result depends on the two
/// texts alone; it is handed on as year, month and day of the parsed date, or
/// as nothing where parsing fails.
#[verifier::external_body]
fn parse_date(text: &str, format: &str) -> (r: Option<Date>)
    ensures
        r == parsed_date(text@, format@),
{
    match chrono::NaiveDate::parse_from_str(text, format) {
        Ok(d) => Some(Date { year: d.year(), month: d.month(), day: d.day() }),
        Err(_) => None,
    }
}

/// Calls `chrono::Local::now` and takes the calendar date of that moment in
/// the local time zone. Which day comes back depends on the clock; claimed
/// is only that `chrono` counts months from 1 to 12 and days from 1 to 31.
#[verifier::external_body]
fn today_local() -> (r: Date)
    ensures
        1 <= r.month <= 12,
        1 <= r.day <= 31,
{
    let d = chrono::Local::now().date_naive();
    Date { year: d.year(), month: d.month(), day: d.day() }
}

impl Date {
    /// True when `self` is an earlier day than `other`.
    pub fn is_before(&self, other: &Date) -> (b: bool)
        ensures
            b == date_before(*self, *other),
    {
        self.year < other.year || (self.year == other.year && (self.month < other.month || (
        self.month == other.month && self.day < other.day)))
    }

    /// The current day in the local time zone.
    pub fn today() -> (r: Date)
        ensures
            1 <= r.month <= 12,
            1 <= r.day <= 31,
    {
        today_local()
    }
}

/// Parses the text of a due date as a calendar date.
pub fn parse_due_date(date_str: &str) -> (r: Option<Date>)
    ensures
        r == parsed_date(date_str@, due_format()),
{
    parse_date(date_str, "%Y-%m-%d")
}

/// True when a due date was parsed and lies before `today`.
pub open spec fn lies_before(parsed: Option<Date>, today: Date) -> bool {
    parsed matches Some(d) && date_before(d, today)
}

/// True when a due date was parsed and lies before `today`.
pub fn is_past(parsed: Option<Date>, today: Date) -> (b: bool)
    ensures
        b == lies_before(parsed, today),
{
    match parsed {
        Some(d) => d.is_before(&today),
        None => false,
    }
}

/// True when `due` is set, parses as a calendar date, and that date lies
/// before `today`.
pub open spec fn is_overdue(due: Option<Seq<char>>, today: Date) -> bool {
    due matches Some(text) && lies_before(parsed_date(text, due_format()), today)
}

/// True when `due` is set, parses as a calendar date, and that date lies
/// before `today`.
pub fn overdue(due: &Option<String>, today: Date) -> (b: bool)
    ensures
        b == is_overdue(crate::text::opt_view(*due), today),
{
    match due {
        Some(text) => is_past(parse_due_date(text.as_str()), today),
        None => false,
    }
}

} // verus!
