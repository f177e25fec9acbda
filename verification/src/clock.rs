//! UTC timestamps rendered as text with `chrono`.
//!
//! Reading the clock is left to the caller, which passes a UNIX time in
//! seconds; the rendering is chrono's.

use vstd::prelude::*;

verus! {

/// What chrono renders for the UTC time `secs` seconds after the UNIX epoch
/// with the format string `fmt`; `None` when chrono cannot represent that
/// time.
pub uninterp spec fn utc_format(secs: i64, fmt: Seq<char>) -> Option<Seq<char>>;

/// What chrono's RFC 3339 rendering gives for the UTC time `secs` seconds
/// after the UNIX epoch; `None` when chrono cannot represent that time.
pub uninterp spec fn utc_rfc3339(secs: i64) -> Option<Seq<char>>;

/// The last second of the year 9999.
pub open spec fn end_of_year_9999() -> int {
    253402300799
}

/// `DateTime::<Utc>::from_timestamp(secs, 0)` rendered with `format(fmt)`.
/// The result is named `utc_format`. `from_timestamp` fails only for times
/// chrono cannot represent, which lie far outside 1970 to 9999; the two
/// formats allowed are valid, so rendering never fails.
#[verifier::external_body]
pub(crate) fn format_utc(secs: i64, fmt: &str) -> (r: Option<String>)
    requires
        fmt@ == "%Y%m%d-%H%M%S"@ || fmt@ == "%Y-%m-%d"@,
    ensures
        match r {
            Some(s) => utc_format(secs, fmt@) == Some(s@),
            None => utc_format(secs, fmt@) is None,
        },
        0 <= secs <= end_of_year_9999() ==> r is Some,
{
    match chrono::DateTime::from_timestamp(secs, 0) {
        Some(t) => Some(t.format(fmt).to_string()),
        None => None,
    }
}

/// `DateTime::<Utc>::from_timestamp(secs, 0)` rendered with `to_rfc3339`.
/// The result is named `utc_rfc3339`; as for `format_utc`, it is present for
/// every time from 1970 to the end of 9999.
#[verifier::external_body]
pub(crate) fn rfc3339_utc(secs: i64) -> (r: Option<String>)
    ensures
        match r {
            Some(s) => utc_rfc3339(secs) == Some(s@),
            None => utc_rfc3339(secs) is None,
        },
        0 <= secs <= end_of_year_9999() ==> r is Some,
{
    match chrono::DateTime::from_timestamp(secs, 0) {
        Some(t) => Some(t.to_rfc3339()),
        None => None,
    }
}

} // verus!
