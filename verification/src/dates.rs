//! Calendar text of Unix timestamps (UTC).
use vstd::prelude::*;

verus! {

/// The `strftime`-style patterns the library formats dates with.
pub open spec fn known_pattern(fmt: Seq<char>) -> bool {
    fmt == "%Y-%m-%d %H:%M"@ || fmt == "%Y-%m-%d"@
}

/// The text of the UTC date and time `ts` (seconds since the Unix epoch)
/// in the pattern `fmt`, or `None` where `ts` is out of the calendar's range.
pub uninterp spec fn utc_text(ts: i64, fmt: Seq<char>) -> Option<Seq<char>>;

/// `chrono::DateTime::from_timestamp(ts, 0)`, formatted with `fmt`
/// (`DateTime::format`, then `to_string`).  The contract names the result
/// `utc_text(ts, fmt)`; `None` comes where `from_timestamp` rejects `ts`.
/// The pattern is one the library uses, so that formatting cannot fail.
#[verifier::external_body]
pub(crate) fn format_utc(ts: i64, fmt: &str) -> (r: Option<String>)
    requires
        known_pattern(fmt@),
    ensures
        match r {
            Some(s) => utc_text(ts, fmt@) == Some(s@),
            None => utc_text(ts, fmt@) is None,
        },
{
    chrono::DateTime::from_timestamp(ts, 0).map(|dt| dt.format(fmt).to_string())
}

/// `YYYY-MM-DD HH:MM` in UTC, or `unknown` for an out-of-range timestamp.
pub open spec fn minute_text(ts: i64) -> Seq<char> {
    match utc_text(ts, "%Y-%m-%d %H:%M"@) {
        Some(s) => s,
        None => "unknown"@,
    }
}

/// The date and time of a message as the API shows it: `YYYY-MM-DD HH:MM`
/// in UTC, or `unknown`.
pub fn minute_string(ts: i64) -> (r: String)
    ensures
        r@ == minute_text(ts),
{
    match format_utc(ts, "%Y-%m-%d %H:%M") {
        Some(s) => s,
        None => crate::text::copy_str("unknown"),
    }
}

} // verus!
