//! Calendar dates and the names of backup files.
use vstd::prelude::*;

verus! {

/// Whether `year` is a leap year of the proleptic Gregorian calendar.
pub open spec fn is_leap_year(year: int) -> bool {
    (year % 4 == 0 && year % 100 != 0) || year % 400 == 0
}

/// The number of days of `month` (1 to 12) in `year`.
pub open spec fn days_in_month(year: int, month: int) -> int {
    if month == 2 {
        if is_leap_year(year) { 29 } else { 28 }
    } else if month == 4 || month == 6 || month == 9 || month == 11 {
        30
    } else {
        31
    }
}

/// Whether the triple is a date with a four-digit year.
pub open spec fn valid_date(year: int, month: int, day: int) -> bool {
    &&& 0 <= year <= 9999
    &&& 1 <= month <= 12
    &&& 1 <= day <= days_in_month(year, month)
}

/// The decimal digit of `d` (0 to 9).
pub open spec fn digit(d: int) -> char {
    seq!['0', '1', '2', '3', '4', '5', '6', '7', '8', '9'][d]
}

/// `n` (0 to 99) in two digits.
pub open spec fn two_digits(n: int) -> Seq<char> {
    seq![digit(n / 10), digit(n % 10)]
}

/// `n` (0 to 9999) in four digits.
pub open spec fn four_digits(n: int) -> Seq<char> {
    two_digits(n / 100) + two_digits(n % 100)
}

/// The date in the form YYYYMMDD.
pub open spec fn date_stamp(year: int, month: int, day: int) -> Seq<char> {
    four_digits(year) + two_digits(month) + two_digits(day)
}

/// A day of the calendar; well formed when it is a valid date with a
/// four-digit year.
#[derive(Debug, Clone, Copy, PartialEq, Eq, Structural)]
pub struct CalendarDate {
    pub year: i32,
    pub month: u32,
    pub day: u32,
}

impl CalendarDate {
    pub open spec fn wf(&self) -> bool {
        valid_date(self.year as int, self.month as int, self.day as int)
    }

    /// The date of the given year, month and day, if there is one and its year
    /// has four digits.
    pub fn new(year: i32, month: u32, day: u32) -> (r: Option<CalendarDate>)
        ensures
            r is Some <==> valid_date(year as int, month as int, day as int),
            r matches Some(d) ==> d.wf() && d.year == year && d.month == month
                && d.day == day,
    {
        if year < 0 || year > 9999 || month < 1 || month > 12 || day < 1 {
            return None;
        }
        let leap = (year % 4 == 0 && year % 100 != 0) || year % 400 == 0;
        let last: u32 = if month == 2 {
            if leap { 29 } else { 28 }
        } else if month == 4 || month == 6 || month == 9 || month == 11 {
            30
        } else {
            31
        };
        if day > last {
            return None;
        }
        Some(CalendarDate { year, month, day })
    }
}

/// Relies on chrono's `NaiveDate::from_ymd_opt`, which accepts every valid
/// date with a four-digit year, and on `format("%Y%m%d")`, which writes such
/// a year in four digits and the month and day in two, zero-padded.
#[verifier::external_body]
fn format_ymd(date: &CalendarDate) -> (r: String)
    requires
        date.wf(),
    ensures
        r@ == date_stamp(date.year as int, date.month as int, date.day as int),
{
    let d = chrono::NaiveDate::from_ymd_opt(date.year, date.month, date.day).unwrap();
    d.format("%Y%m%d").to_string()
}

/// The name of the backup file made on `date`:
/// `uninstalled_packages_YYYYMMDD.csv`.
pub fn generate_backup_name(date: &CalendarDate) -> (r: String)
    requires
        date.wf(),
    ensures
        r@ == "uninstalled_packages_"@ + date_stamp(date.year as int, date.month as int, date.day as int)
            + ".csv"@,
{
    let mut name = "uninstalled_packages_".to_owned();
    let stamp = format_ymd(date);
    name.append(stamp.as_str());
    name.append(".csv");
    name
}

} // verus!
