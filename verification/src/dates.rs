//! Calendar dates as the farm writes them (`YYYY-MM-DD`), read through chrono.

use chrono::Datelike;
use vstd::prelude::*;

verus! {

/// What chrono reads from `s` with the pattern `%Y-%m-%d`: year, month
/// (1-based), day of month and weekday (0 = Monday), or `None` when chrono
/// refuses the text.
pub uninterp spec fn iso_date_fields(s: Seq<char>) -> Option<(i32, u32, u32, u32)>;

/// `chrono::NaiveDate::parse_from_str(s, "%Y-%m-%d")`, taken apart.
/// Trusted: the result is the named reading `iso_date_fields`, and, as chrono
/// documents for every `NaiveDate`, the month lies in 1..=12, the day in
/// 1..=31 and the weekday index (from Monday) below 7.
#[verifier::external_body]
pub(crate) fn parse_iso_date(s: &str) -> (r: Option<(i32, u32, u32, u32)>)
    ensures
        r == iso_date_fields(s@),
        r matches Some((y, m, d, w)) ==> 1 <= m <= 12 && 1 <= d <= 31 && w < 7,
{
    match chrono::NaiveDate::parse_from_str(s, "%Y-%m-%d") {
        Ok(d) => Some((d.year(), d.month(), d.day(), d.weekday().num_days_from_monday())),
        Err(_) => None,
    }
}

/// Three-letter month names, January first.
pub open spec fn short_month(m: int) -> Seq<char> {
    if m == 1 { "Jan"@ }
    else if m == 2 { "Feb"@ }
    else if m == 3 { "Mar"@ }
    else if m == 4 { "Apr"@ }
    else if m == 5 { "May"@ }
    else if m == 6 { "Jun"@ }
    else if m == 7 { "Jul"@ }
    else if m == 8 { "Aug"@ }
    else if m == 9 { "Sep"@ }
    else if m == 10 { "Oct"@ }
    else if m == 11 { "Nov"@ }
    else { "Dec"@ }
}

pub fn short_month_name(m: u32) -> (r: &'static str)
    requires
        1 <= m <= 12,
    ensures
        r@ == short_month(m as int),
{
    if m == 1 { "Jan" }
    else if m == 2 { "Feb" }
    else if m == 3 { "Mar" }
    else if m == 4 { "Apr" }
    else if m == 5 { "May" }
    else if m == 6 { "Jun" }
    else if m == 7 { "Jul" }
    else if m == 8 { "Aug" }
    else if m == 9 { "Sep" }
    else if m == 10 { "Oct" }
    else if m == 11 { "Nov" }
    else { "Dec" }
}

/// Full month names, January first.
pub open spec fn long_month(m: int) -> Seq<char> {
    if m == 1 { "January"@ }
    else if m == 2 { "February"@ }
    else if m == 3 { "March"@ }
    else if m == 4 { "April"@ }
    else if m == 5 { "May"@ }
    else if m == 6 { "June"@ }
    else if m == 7 { "July"@ }
    else if m == 8 { "August"@ }
    else if m == 9 { "September"@ }
    else if m == 10 { "October"@ }
    else if m == 11 { "November"@ }
    else { "December"@ }
}

pub fn long_month_name(m: u32) -> (r: &'static str)
    requires
        1 <= m <= 12,
    ensures
        r@ == long_month(m as int),
{
    if m == 1 { "January" }
    else if m == 2 { "February" }
    else if m == 3 { "March" }
    else if m == 4 { "April" }
    else if m == 5 { "May" }
    else if m == 6 { "June" }
    else if m == 7 { "July" }
    else if m == 8 { "August" }
    else if m == 9 { "September" }
    else if m == 10 { "October" }
    else if m == 11 { "November" }
    else { "December" }
}

/// Weekday names, Monday first (chrono's `%A`).
pub open spec fn weekday_name(w: int) -> Seq<char> {
    if w == 0 { "Monday"@ }
    else if w == 1 { "Tuesday"@ }
    else if w == 2 { "Wednesday"@ }
    else if w == 3 { "Thursday"@ }
    else if w == 4 { "Friday"@ }
    else if w == 5 { "Saturday"@ }
    else { "Sunday"@ }
}

pub fn weekday_str(w: u32) -> (r: &'static str)
    requires
        w < 7,
    ensures
        r@ == weekday_name(w as int),
{
    if w == 0 { "Monday" }
    else if w == 1 { "Tuesday" }
    else if w == 2 { "Wednesday" }
    else if w == 3 { "Thursday" }
    else if w == 4 { "Friday" }
    else if w == 5 { "Saturday" }
    else { "Sunday" }
}

/// Proleptic Gregorian leap year.
pub open spec fn is_leap(y: int) -> bool {
    (y % 4 == 0 && y % 100 != 0) || y % 400 == 0
}

pub open spec fn days_in_month(y: int, m: int) -> int {
    if m == 2 {
        if is_leap(y) { 29 } else { 28 }
    } else if m == 4 || m == 6 || m == 9 || m == 11 {
        30
    } else {
        31
    }
}

/// Days of the months before `m` in year `y`.
pub open spec fn days_before_month(y: int, m: int) -> int
    decreases m,
{
    if m <= 1 {
        0
    } else {
        days_before_month(y, m - 1) + days_in_month(y, m - 1)
    }
}

/// The day number of a date in the proleptic Gregorian calendar, 1 January of
/// year 1 being day 1 (chrono's `num_days_from_ce`).
pub open spec fn days_from_ce(y: int, m: int, d: int) -> int {
    365 * (y - 1) + (y - 1) / 4 - (y - 1) / 100 + (y - 1) / 400 + days_before_month(y, m) + d
}

/// The dates chrono's `NaiveDate::from_ymd_opt` accepts: years -262143 ..= 262142
/// (its documented range), a month 1..=12 and a day that the month has.
pub open spec fn is_real_date(y: int, m: int, d: int) -> bool {
    &&& -262143 <= y <= 262142
    &&& 1 <= m <= 12
    &&& 1 <= d <= days_in_month(y, m)
}

pub fn real_date(y: i32, m: u32, d: u32) -> (r: bool)
    ensures
        r == is_real_date(y as int, m as int, d as int),
{
    if y < -262143 || y > 262142 || m < 1 || m > 12 || d < 1 {
        return false;
    }
    let leap = (y % 4 == 0 && y % 100 != 0) || y % 400 == 0;
    let dim: u32 = if m == 2 {
        if leap { 29 } else { 28 }
    } else if m == 4 || m == 6 || m == 9 || m == 11 {
        30
    } else {
        31
    };
    d <= dim
}

} // verus!
