//! Archive-wide statistics.
use vstd::prelude::*;
use crate::dates;

verus! {

/// The dates of the oldest and the newest message (`YYYY-MM-DD`).
#[derive(Debug, Clone, PartialEq)]
pub struct DateRange {
    pub oldest: String,
    pub newest: String,
}

/// Archive-wide statistics.
#[derive(Debug, Clone, PartialEq)]
pub struct ArchiveStats {
    pub total_messages: usize,
    pub total_threads: usize,
    pub tag_count: usize,
    pub date_range: Option<DateRange>,
}

/// The date range of the archive, from the timestamps of its oldest and its
/// newest message: both dates as `YYYY-MM-DD` in UTC, or `None` where a
/// timestamp is missing or out of the calendar's range.
pub open spec fn date_range_spec(oldest: Option<i64>, newest: Option<i64>) -> Option<(Seq<char>, Seq<char>)> {
    match (oldest, newest) {
        (Some(o), Some(n)) => match (dates::utc_text(o, "%Y-%m-%d"@), dates::utc_text(n, "%Y-%m-%d"@)) {
            (Some(a), Some(b)) => Some((a, b)),
            _ => None,
        },
        _ => None,
    }
}

/// The date range of the archive (see `date_range_spec`).
pub fn date_range(oldest: Option<i64>, newest: Option<i64>) -> (r: Option<DateRange>)
    ensures
        match date_range_spec(oldest, newest) {
            Some((a, b)) => r matches Some(d) && d.oldest@ == a && d.newest@ == b,
            None => r is None,
        },
{
    let o = match oldest {
        Some(t) => dates::format_utc(t, "%Y-%m-%d"),
        None => None,
    };
    let n = match newest {
        Some(t) => dates::format_utc(t, "%Y-%m-%d"),
        None => None,
    };
    match (o, n) {
        (Some(a), Some(b)) => Some(DateRange { oldest: a, newest: b }),
        _ => None,
    }
}

} // verus!
