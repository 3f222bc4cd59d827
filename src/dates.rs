use vstd::prelude::*;

use chrono::Datelike;

verus! {

/// A calendar date: year, month (1 to 12), day of month (1 to 31), and its
/// day number counted from January 1 of year 1, which is day 1.
#[derive(Clone, Copy, PartialEq, Eq, Debug, Structural)]
pub struct CalendarDate {
    pub year: i32,
    pub month: u32,
    pub day: u32,
    pub day_number: i32,
}

impl CalendarDate {
    pub open spec fn wf(self) -> bool {
        1 <= self.month <= 12 && 1 <= self.day <= 31
    }

    pub open spec fn fields(self) -> (int, int, int, int) {
        (self.year as int, self.month as int, self.day as int, self.day_number as int)
    }
}

/// The date that text in the form `YYYY-MM-DD` denotes, as
/// (year, month, day, day number); `None` where the text denotes none.
pub uninterp spec fn parsed_date(text: Seq<u8>) -> Option<(int, int, int, int)>;

/// The (year, month, day) of a day number; `None` outside the supported range.
pub uninterp spec fn calendar_of(day_number: int) -> Option<(int, int, int)>;

/// Relies on `chrono::NaiveDate::parse_from_str` with the format `%Y-%m-%d`,
/// and on the `Datelike` getters, whose months range over 1 to 12 and days
/// over 1 to 31, and on `num_days_from_ce`, which counts days as
/// `from_num_days_from_ce_opt` does. Text that is not UTF-8 denotes no date.
#[verifier::external_body]
pub(crate) fn parse_date(text: &[u8]) -> (r: Option<CalendarDate>)
    ensures
        r matches Some(c) ==> parsed_date(text@) == Some(c.fields()) && c.wf() && calendar_of(
            c.day_number as int,
        ) == Some((c.year as int, c.month as int, c.day as int)),
        r is None ==> parsed_date(text@) is None,
{
    let s = std::str::from_utf8(text).ok()?;
    let d = chrono::NaiveDate::parse_from_str(s, "%Y-%m-%d").ok()?;
    Some(CalendarDate { year: d.year(), month: d.month(), day: d.day(), day_number: d.num_days_from_ce() })
}

/// Relies on `chrono::NaiveDate::from_num_days_from_ce_opt`, which makes the
/// date of a day number, and on the `Datelike` getters.
#[verifier::external_body]
pub(crate) fn date_of_day(day_number: i32) -> (r: Option<CalendarDate>)
    ensures
        r matches Some(c) ==> calendar_of(day_number as int) == Some(
            (c.year as int, c.month as int, c.day as int),
        ) && c.wf() && c.day_number == day_number,
        r is None ==> calendar_of(day_number as int) is None,
{
    let d = chrono::NaiveDate::from_num_days_from_ce_opt(day_number)?;
    Some(CalendarDate { year: d.year(), month: d.month(), day: d.day(), day_number })
}

} // verus!
