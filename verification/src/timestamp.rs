//! Calendar timestamps, held as microseconds since the Unix epoch, UTC.
//!
//! The calendar itself (which microsecond counts name a real date, and what
//! their `YYYY-MM-DD HH:MM:SS[.frac]` text is) is chrono's; this module
//! states its range, names its text forms, and wraps the calls.

use vstd::prelude::*;

verus! {

/// The first microsecond count chrono's calendar can hold: midnight on the
/// first day of year -262143, the value of `DateTime::<Utc>::MIN_UTC` in
/// microseconds.
pub const TIMESTAMP_MIN_MICROS: i64 = -8334601228800000000;

/// The last microsecond count chrono's calendar can hold: the last
/// microsecond of year 262142, the value of `DateTime::<Utc>::MAX_UTC` in
/// microseconds.
pub const TIMESTAMP_MAX_MICROS: i64 = 8210266876799999999;

/// Whether a count of microseconds since the epoch lies within chrono's
/// calendar: `DateTime::from_timestamp_micros` returns a value exactly on
/// this interval.
pub open spec fn timestamp_in_range(micros: i64) -> bool {
    TIMESTAMP_MIN_MICROS <= micros <= TIMESTAMP_MAX_MICROS
}

/// The `YYYY-MM-DD HH:MM:SS[.frac]` text of an in-range timestamp, as
/// chrono's formatter writes it; a function of the microsecond count alone,
/// since the zone is fixed to UTC and the format string is fixed.
pub uninterp spec fn timestamp_text(micros: i64) -> Seq<u8>;

/// What chrono's parser yields for a piece of text under the fixed
/// `YYYY-MM-DD HH:MM:SS[.frac]` format: the microsecond count, or nothing
/// when the text is not a timestamp; a function of the text alone. The
/// count can fall outside the calendar range: chrono parses a leap second
/// in the calendar's last second as one second past it.
pub uninterp spec fn timestamp_micros_of_text(text: Seq<char>) -> Option<i64>;

/// Relies on `chrono::DateTime::<Utc>::from_timestamp_micros`: it returns
/// `Some` exactly when the count lies between the microsecond values of
/// `DateTime::MIN_UTC` and `DateTime::MAX_UTC`, the interval that
/// `timestamp_in_range` writes out.
#[verifier::external_body]
pub(crate) fn micros_in_range(micros: i64) -> (r: bool)
    ensures
        r == timestamp_in_range(micros),
{
    chrono::DateTime::<chrono::Utc>::from_timestamp_micros(micros).is_some()
}

/// Relies on `chrono::DateTime::<Utc>::from_timestamp_micros` and chrono's
/// `format`: an in-range count formats as its fixed UTC text; an
/// out-of-range count has none.
#[verifier::external_body]
pub(crate) fn format_timestamp(micros: i64) -> (r: Option<Vec<u8>>)
    ensures
        r is Some <==> timestamp_in_range(micros),
        r matches Some(v) ==> v@ == timestamp_text(micros),
{
    chrono::DateTime::<chrono::Utc>::from_timestamp_micros(micros)
        .map(|dt| dt.naive_utc().format("%Y-%m-%d %H:%M:%S%.f").to_string().into_bytes())
}

/// Relies on `chrono::NaiveDateTime::parse_from_str` with the fixed format:
/// the parse depends on the text alone and never panics. Its count is not
/// promised to lie in the calendar range — parsed leap seconds at the
/// calendar's edge fall one second past it — so callers check the range
/// themselves.
#[verifier::external_body]
pub(crate) fn parse_timestamp_micros(text: &str) -> (r: Option<i64>)
    ensures
        r == timestamp_micros_of_text(text@),
{
    chrono::NaiveDateTime::parse_from_str(text, "%Y-%m-%d %H:%M:%S%.f")
        .ok()
        .map(|dt| dt.and_utc().timestamp_micros())
}

} // verus!
