//! Dates and times, computed by `chrono`.

use vstd::prelude::*;
use chrono::{NaiveDate, NaiveDateTime};

verus! {

#[verifier::external_type_specification]
#[verifier::external_body]
pub struct ExNaiveDateTime(chrono::NaiveDateTime);

#[verifier::external_type_specification]
#[verifier::external_body]
pub struct ExNaiveDate(chrono::NaiveDate);

/// The RFC 3339 text of a date and time read as UTC, as chrono writes it.
pub uninterp spec fn utc_rfc3339(dt: NaiveDateTime) -> Seq<char>;

/// The date that chrono parses from `s` with the strftime format `fmt`, if any.
pub uninterp spec fn parsed_date(s: Seq<char>, fmt: Seq<char>) -> Option<NaiveDate>;

/// The signed number of whole days from `earlier` to `later`.
pub uninterp spec fn days_between(later: NaiveDate, earlier: NaiveDate) -> i64;

/// `DateTime::<Utc>::from_naive_utc_and_offset(dt, Utc).to_rfc3339()`: the
/// result is named after `dt` alone (chrono's formatting is not restated).
#[verifier::external_body]
pub(crate) fn naive_to_rfc3339(dt: &NaiveDateTime) -> (r: String)
    ensures
        r@ == utc_rfc3339(*dt),
{
    chrono::DateTime::<chrono::Utc>::from_naive_utc_and_offset(*dt, chrono::Utc).to_rfc3339()
}

/// Whether `s` is the RFC 3339 text of some UTC time.
pub open spec fn is_clock_reading(s: Seq<char>) -> bool {
    exists|dt: NaiveDateTime| s == utc_rfc3339(dt)
}

/// `Utc::now().to_rfc3339()`: the RFC 3339 text of the current UTC time,
/// the same text `naive_to_rfc3339` gives for that time. Which time it is
/// is not stated.
#[verifier::external_body]
pub(crate) fn now_rfc3339() -> (r: String)
    ensures
        is_clock_reading(r@),
{
    chrono::Utc::now().to_rfc3339()
}

/// `Utc::now().date_naive()`. Today's date: nothing is stated of it.
#[verifier::external_body]
pub(crate) fn today_utc() -> NaiveDate {
    chrono::Utc::now().date_naive()
}

/// `NaiveDate::parse_from_str(s, fmt).ok()`; the result is named after `s`
/// and `fmt`.
#[verifier::external_body]
pub(crate) fn parse_date(s: &str, fmt: &str) -> (r: Option<NaiveDate>)
    ensures
        r == parsed_date(s@, fmt@),
{
    NaiveDate::parse_from_str(s, fmt).ok()
}

/// `(later - earlier).num_days()`; the result is named after both dates.
#[verifier::external_body]
pub(crate) fn days_from(later: NaiveDate, earlier: NaiveDate) -> (r: i64)
    ensures
        r == days_between(later, earlier),
{
    (later - earlier).num_days()
}

} // verus!
