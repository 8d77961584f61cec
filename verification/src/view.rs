//! Which days a multi-day view shows.

use vstd::prelude::*;
use crate::text::opt_view;

verus! {

/// How many days back each day of a `days`-day view lies, oldest first:
/// `days - 1`, ..., 1, 0 (today).
pub fn day_offsets(days: u32) -> (r: Vec<u32>)
    ensures
        r@.len() == days,
        forall|i: int| 0 <= i < days ==> r@[i] == days - 1 - i,
{
    let mut r: Vec<u32> = Vec::new();
    let mut k: u32 = days;
    while k > 0
        invariant
            k <= days,
            r@.len() == days - k,
            forall|i: int| 0 <= i < r@.len() ==> r@[i] == days - 1 - i,
        decreases k,
    {
        k -= 1;
        r.push(k);
    }
    r
}

/// The date that chrono writes as `YYYY-MM-DD` for day number `n` (days
/// since 1 January of year 1, that day being 1); `None` where the day lies
/// outside chrono's calendar.
pub uninterp spec fn date_text_of_day(n: i64) -> Option<Seq<char>>;

/// Calls chrono's `NaiveDate::from_num_days_from_ce_opt` and writes the date
/// with `format("%Y-%m-%d")`. Claimed: the result is `date_text_of_day` of
/// the day number.
#[verifier::external_body]
fn date_text_of_day_number(n: i64) -> (r: Option<String>)
    requires
        i32::MIN <= n <= i32::MAX,
    ensures
        opt_view(r) == date_text_of_day(n),
{
    match chrono::NaiveDate::from_num_days_from_ce_opt(n as i32) {
        Some(d) => Some(d.format("%Y-%m-%d").to_string()),
        None => None,
    }
}

/// The date of the day `back` days before day number `today`; `None` where
/// that day lies outside the calendar.
pub open spec fn date_back(today: i64, back: int) -> Option<Seq<char>> {
    let n = today - back;
    if i32::MIN <= n <= i32::MAX {
        date_text_of_day(n as i64)
    } else {
        None
    }
}

/// The dates of a `days`-day view ending today (day number `today`), oldest
/// first; `None` for a day outside the calendar.
pub fn last_days(today: i64, days: u32) -> (r: Vec<Option<String>>)
    requires
        i32::MIN <= today <= i32::MAX,
    ensures
        r@.len() == days,
        forall|i: int| 0 <= i < days ==> opt_view(#[trigger] r@[i]) == date_back(today, days - 1 - i),
{
    let offsets = day_offsets(days);
    let mut r: Vec<Option<String>> = Vec::new();
    let mut i: usize = 0;
    while i < offsets.len()
        invariant
            i <= offsets.len() == days,
            i32::MIN <= today <= i32::MAX,
            forall|k: int| 0 <= k < days ==> offsets@[k] == days - 1 - k,
            r@.len() == i,
            forall|k: int| 0 <= k < i ==> opt_view(#[trigger] r@[k]) == date_back(today, days - 1 - k),
        decreases offsets.len() - i,
    {
        let n: i64 = today - offsets[i] as i64;
        let d = if i32::MIN as i64 <= n && n <= i32::MAX as i64 {
            date_text_of_day_number(n)
        } else {
            None
        };
        r.push(d);
        i += 1;
    }
    r
}

} // verus!
