//! Calendar dates written as `YYYY-MM-DD`, read by chrono.

use vstd::prelude::*;
use chrono::Datelike;
use crate::num::{digit_char, digits_of};

verus! {

/// What chrono reads from a date written as `YYYY-MM-DD`: the day number
/// (days since 1 January of year 1, that day being 1), the year, the month
/// (1 to 12) and the day of the month (1 to 31); `None` where chrono refuses
/// the text.
pub uninterp spec fn calendar_date_of(text: Seq<char>) -> Option<(i64, i64, i64, i64)>;

/// Calls chrono's `NaiveDate::parse_from_str(text, "%Y-%m-%d")` and, on
/// success, reads `num_days_from_ce`, `year`, `month` and `day` of the date.
/// Claimed: the result is `calendar_date_of` the text; the day number and
/// year lie in `i32`, the month in `1..=12` and the day in `1..=31`, as
/// chrono's `Datelike` documents.
#[verifier::external_body]
pub(crate) fn parse_calendar_date(text: &str) -> (r: Option<(i64, i64, i64, i64)>)
    ensures
        r == calendar_date_of(text@),
        r matches Some(c) ==> i32::MIN <= c.0 <= i32::MAX && i32::MIN <= c.1 <= i32::MAX && 1
            <= c.2 <= 12 && 1 <= c.3 <= 31,
{
    match chrono::NaiveDate::parse_from_str(text, "%Y-%m-%d") {
        Ok(d) => Some((d.num_days_from_ce() as i64, d.year() as i64, d.month() as i64, d.day() as i64)),
        Err(_) => None,
    }
}

/// The day number of a date written as `YYYY-MM-DD`.
pub open spec fn day_number_of(text: Seq<char>) -> Option<i64> {
    match calendar_date_of(text) {
        Some(c) => Some(c.0),
        None => None,
    }
}

/// The day number of a date written as `YYYY-MM-DD`, or `None`.
pub fn day_number(text: &str) -> (r: Option<i64>)
    ensures
        r == day_number_of(text@),
        r matches Some(d) ==> i32::MIN <= d <= i32::MAX,
{
    match parse_calendar_date(text) {
        Some(c) => Some(c.0),
        None => None,
    }
}

/// The English name of month `m`.
pub open spec fn month_name(m: int) -> Seq<char> {
    if m == 1 {
        "January"@
    } else if m == 2 {
        "February"@
    } else if m == 3 {
        "March"@
    } else if m == 4 {
        "April"@
    } else if m == 5 {
        "May"@
    } else if m == 6 {
        "June"@
    } else if m == 7 {
        "July"@
    } else if m == 8 {
        "August"@
    } else if m == 9 {
        "September"@
    } else if m == 10 {
        "October"@
    } else if m == 11 {
        "November"@
    } else {
        "December"@
    }
}

/// Two decimal digits of `n` (for `n` below 100), with a leading zero.
pub open spec fn two_digits(n: int) -> Seq<char> {
    seq![digit_char((n / 10) as nat), digit_char((n % 10) as nat)]
}

/// Digits padded with zeros on the left to at least four.
pub open spec fn pad4(ds: Seq<char>) -> Seq<char> {
    if ds.len() < 4 {
        Seq::new((4 - ds.len()) as nat, |i: int| '0') + ds
    } else {
        ds
    }
}

/// A year as chrono's `%Y` writes it: four digits at least, and a sign when
/// the year is outside `0..=9999`.
pub open spec fn year_text(y: int) -> Seq<char> {
    if 0 <= y <= 9999 {
        pad4(digits_of(y as nat))
    } else if y > 9999 {
        seq!['+'] + pad4(digits_of(y as nat))
    } else {
        seq!['-'] + pad4(digits_of((-y) as nat))
    }
}

/// The heading of a day: "05 August 2026" for "2026-08-05" (chrono's
/// "%d %B %Y"), or the text itself where it is not such a date.
pub open spec fn date_heading(text: Seq<char>) -> Seq<char> {
    match calendar_date_of(text) {
        Some(c) => two_digits(c.3 as int) + seq![' '] + month_name(c.2 as int) + seq![' ']
            + year_text(c.1 as int),
        None => text,
    }
}

/// Calls chrono's `NaiveDate::parse_from_str(text, "%Y-%m-%d")` and, on
/// success, writes the date with `format("%d %B %Y")`. Claimed: a heading
/// comes back exactly where `calendar_date_of` reads a date (it is the same
/// parse), and it is written as chrono documents those specifiers: the day
/// of the month zero-padded to two digits, the full English month name, and
/// the year zero-padded to four digits with a sign outside `0..=9999`.
#[verifier::external_body]
fn format_heading(text: &str) -> (r: Option<String>)
    ensures
        match r {
            Some(h) => calendar_date_of(text@) matches Some(c) && h@ == date_heading(text@),
            None => calendar_date_of(text@) is None,
        },
{
    match chrono::NaiveDate::parse_from_str(text, "%Y-%m-%d") {
        Ok(d) => Some(d.format("%d %B %Y").to_string()),
        Err(_) => None,
    }
}

/// The heading of a day (see `date_heading`).
pub fn format_date_heading(date: &str) -> (r: String)
    ensures
        r@ == date_heading(date@),
{
    match format_heading(date) {
        Some(h) => h,
        None => {
            let mut s = String::new();
            s.append(date);
            s
        },
    }
}

} // verus!
