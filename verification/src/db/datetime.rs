//! Calendar date-times held as plain fields, and their text as chrono writes it.

use vstd::prelude::*;
use crate::db::catalog::zero_padded;

verus! {

/// Smallest year that chrono's `NaiveDate` holds.
pub const MIN_YEAR: i32 = -262143;

/// Largest year that chrono's `NaiveDate` holds.
pub const MAX_YEAR: i32 = 262142;

/// Leap years of the proleptic Gregorian calendar.
pub open spec fn is_leap_year(y: int) -> bool {
    (y % 4 == 0 && y % 100 != 0) || y % 400 == 0
}

/// Number of days in a month (1-based) of a year.
pub open spec fn days_in_month(y: int, m: int) -> int {
    if m == 2 {
        if is_leap_year(y) { 29 } else { 28 }
    } else if m == 4 || m == 6 || m == 9 || m == 11 {
        30
    } else {
        31
    }
}

/// A date and time of day without time zone, as chrono's `NaiveDateTime`.
/// A nanosecond value from one to two seconds marks a leap second, allowed only at second 59.
#[derive(Debug, Clone, Copy, PartialEq, Eq)]
pub struct DateTimeValue {
    pub year: i32,
    pub month: u32,
    pub day: u32,
    pub hour: u32,
    pub minute: u32,
    pub second: u32,
    pub nanosecond: u32,
}

impl DateTimeValue {
    /// The fields name a date-time that chrono accepts.
    pub open spec fn valid(&self) -> bool {
        &&& MIN_YEAR <= self.year <= MAX_YEAR
        &&& 1 <= self.month <= 12
        &&& 1 <= self.day <= days_in_month(self.year as int, self.month as int)
        &&& self.hour < 24
        &&& self.minute < 60
        &&& self.second < 60
        &&& self.nanosecond < 2_000_000_000
        &&& (self.nanosecond >= 1_000_000_000 ==> self.second == 59)
    }

    /// Builds a date-time from its fields, or `None` when they name no date-time.
    pub fn new(year: i32, month: u32, day: u32, hour: u32, minute: u32, second: u32, nanosecond: u32) -> (r: Option<DateTimeValue>)
        ensures
            r matches Some(v) ==> v.valid() && v == (DateTimeValue { year, month, day, hour, minute, second, nanosecond }),
            r is None ==> !(DateTimeValue { year, month, day, hour, minute, second, nanosecond }).valid(),
    {
        let v = DateTimeValue { year, month, day, hour, minute, second, nanosecond };
        if year < MIN_YEAR || year > MAX_YEAR || month < 1 || month > 12 || day < 1 {
            return None;
        }
        let leap = (year % 4 == 0 && year % 100 != 0) || year % 400 == 0;
        let dim: u32 = if month == 2 {
            if leap { 29 } else { 28 }
        } else if month == 4 || month == 6 || month == 9 || month == 11 {
            30
        } else {
            31
        };
        if day > dim || hour >= 24 || minute >= 60 || second >= 60 || nanosecond >= 2_000_000_000 {
            return None;
        }
        if nanosecond >= 1_000_000_000 && second != 59 {
            return None;
        }
        Some(v)
    }
}

/// A year as chrono writes it: four digits, zero-padded, for years 0 to 9999;
/// otherwise a sign (`+` or `-`) and the magnitude, zero-padded to four digits.
pub open spec fn year_text(y: int) -> Seq<char> {
    if 0 <= y <= 9999 {
        zero_padded(y as nat, 4)
    } else if y > 9999 {
        seq!['+'] + zero_padded(y as nat, 4)
    } else {
        seq!['-'] + zero_padded((-y) as nat, 4)
    }
}

/// The seconds chrono shows: 60 during a leap second (nanoseconds of a
/// second or more).
pub open spec fn shown_second(v: DateTimeValue) -> nat {
    if v.nanosecond >= 1_000_000_000 { (v.second + 1) as nat } else { v.second as nat }
}

/// `YYYY-MM-DD HH:MM:SS`, each part zero-padded.
pub open spec fn date_and_clock_text(v: DateTimeValue) -> Seq<char> {
    year_text(v.year as int) + "-"@ + zero_padded(v.month as nat, 2) + "-"@ + zero_padded(v.day as nat, 2)
        + " "@ + zero_padded(v.hour as nat, 2) + ":"@ + zero_padded(v.minute as nat, 2)
        + ":"@ + zero_padded(shown_second(v), 2)
}

/// The fraction of a second chrono's `Display` appends: nothing when it is
/// zero, else a point and three, six or nine digits, the fewest that hold it.
pub open spec fn fraction_text(nano: nat) -> Seq<char> {
    if nano == 0 {
        Seq::empty()
    } else if nano % 1_000_000 == 0 {
        seq!['.'] + zero_padded(nano / 1_000_000, 3)
    } else if nano % 1_000 == 0 {
        seq!['.'] + zero_padded(nano / 1_000, 6)
    } else {
        seq!['.'] + zero_padded(nano, 9)
    }
}

/// The `Display` text of a date-time, as chrono writes a `NaiveDateTime`.
pub open spec fn datetime_text(v: DateTimeValue) -> Seq<char> {
    date_and_clock_text(v) + fraction_text((v.nanosecond % 1_000_000_000) as nat)
}

/// The `%Y-%m-%d %H:%M:%S` text of a date-time.
pub open spec fn datetime_sql_text(v: DateTimeValue) -> Seq<char> {
    date_and_clock_text(v)
}

/// Builds chrono's `NaiveDateTime` from the fields (`NaiveDate::from_ymd_opt`,
/// `and_hms_nano_opt`, both `Some` on valid fields) and calls its `to_string`,
/// whose text is `datetime_text`.
#[verifier::external_body]
pub(crate) fn datetime_to_string(v: &DateTimeValue) -> (r: String)
    requires
        v.valid(),
    ensures
        r@ == datetime_text(*v),
{
    chrono::NaiveDate::from_ymd_opt(v.year, v.month, v.day)
        .unwrap()
        .and_hms_nano_opt(v.hour, v.minute, v.second, v.nanosecond)
        .unwrap()
        .to_string()
}

/// Builds chrono's `NaiveDateTime` from the fields and calls
/// `format("%Y-%m-%d %H:%M:%S")`, whose text is `datetime_sql_text`.
#[verifier::external_body]
pub(crate) fn datetime_to_sql_string(v: &DateTimeValue) -> (r: String)
    requires
        v.valid(),
    ensures
        r@ == datetime_sql_text(*v),
{
    chrono::NaiveDate::from_ymd_opt(v.year, v.month, v.day)
        .unwrap()
        .and_hms_nano_opt(v.hour, v.minute, v.second, v.nanosecond)
        .unwrap()
        .format("%Y-%m-%d %H:%M:%S")
        .to_string()
}

impl DateTimeValue {
    /// The date-time as chrono's `NaiveDateTime` displays it.
    pub fn to_display_string(&self) -> (r: String)
        requires
            self.valid(),
        ensures
            r@ == datetime_text(*self),
    {
        datetime_to_string(self)
    }

    /// The date-time as `%Y-%m-%d %H:%M:%S`, the form SQL statements bind.
    pub fn to_sql_string(&self) -> (r: String)
        requires
            self.valid(),
        ensures
            r@ == datetime_sql_text(*self),
    {
        datetime_to_sql_string(self)
    }
}

} // verus!
