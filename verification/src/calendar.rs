//! Calendar days in UTC.
//!
//! A moment is a count of seconds since 1970-01-01T00:00:00Z, and a calendar
//! day is a count of whole days since 1970-01-01. Days are compared as
//! numbers; only their text form is left to `chrono`.

use vstd::prelude::*;
use vstd::arithmetic::div_mod::{lemma_fundamental_div_mod_converse_div, lemma_fundamental_div_mod};

verus! {

/// The number of seconds in one calendar day.
pub const SECONDS_PER_DAY: i64 = 86_400;

/// The day number of 0000-01-01, the earliest day with a four-digit year.
pub const FIRST_DAY: i64 = -719_528;

/// The day number of 9999-12-31, the latest day with a four-digit year.
pub const LAST_DAY: i64 = 2_932_896;

/// The UTC calendar day that contains the moment `timestamp`.
pub open spec fn utc_day(timestamp: int) -> int {
    timestamp / 86_400
}

/// Whether a day number lies within the years 0000 to 9999.
pub open spec fn has_four_digit_year(day: int) -> bool {
    FIRST_DAY <= day <= LAST_DAY
}

/// The text `YYYY-MM-DD` of the calendar day with the given day number, as
/// `chrono` writes it.
pub uninterp spec fn iso_date_text(day: int) -> Seq<char>;

/// Returns the UTC calendar day that contains the moment `timestamp`.
pub fn utc_day_of(timestamp: i64) -> (day: i64)
    ensures
        day == utc_day(timestamp as int),
{
    if timestamp >= 0 {
        timestamp / SECONDS_PER_DAY
    } else {
        let past: i64 = -(timestamp + 1);
        let whole: i64 = past / SECONDS_PER_DAY;
        proof {
            lemma_fundamental_div_mod(past as int, 86_400);
            let rest = (past as int) % 86_400;
            lemma_fundamental_div_mod_converse_div(
                timestamp as int,
                86_400,
                -1 - whole,
                86_399 - rest,
            );
        }
        -1 - whole
    }
}

/// Formats a day number through `chrono::NaiveDate::from_epoch_days` and
/// `NaiveDate::format` with the pattern `%Y-%m-%d`.
///
/// Trusted: `from_epoch_days` accepts every day of the years 0000 to 9999,
/// and the text depends on the day number alone.
#[verifier::external_body]
fn epoch_day_text(day: i32) -> (text: Option<String>)
    ensures
        has_four_digit_year(day as int) ==> text is Some,
        text matches Some(s) ==> s@ == iso_date_text(day as int),
{
    match chrono::NaiveDate::from_epoch_days(day) {
        Some(date) => Some(date.format("%Y-%m-%d").to_string()),
        None => None,
    }
}

/// Returns the text `YYYY-MM-DD` of a calendar day, or `None` for a day
/// outside the years 0000 to 9999.
pub fn date_label(day: i64) -> (label: Option<String>)
    ensures
        label is Some <==> has_four_digit_year(day as int),
        label matches Some(text) ==> text@ == iso_date_text(day as int),
{
    if FIRST_DAY <= day && day <= LAST_DAY {
        epoch_day_text(day as i32)
    } else {
        None
    }
}

} // verus!
