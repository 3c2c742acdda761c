//! Time bucketing: the label of the day, month or year that a second falls in.

use crate::timestamp::in_utc_range;
use vstd::prelude::*;

verus! {

/// The span of time that one bucket covers.
#[derive(Debug, PartialEq, Eq, Clone, Copy, Structural)]
pub enum TimeResolution {
    Daily,
    Monthly,
    Yearly,
}

impl TimeResolution {
    /// The date format of the labels at this resolution: year, month and day of the
    /// month for days, year and month for months, the year alone for years.
    pub open spec fn spec_pattern(&self) -> Seq<char> {
        match self {
            TimeResolution::Daily => "%Y-%m-%d"@,
            TimeResolution::Monthly => "%Y-%m"@,
            TimeResolution::Yearly => "%Y"@,
        }
    }

    /// Returns the date format of the labels at this resolution.
    pub fn pattern(&self) -> (pattern: &'static str)
        ensures
            pattern@ == self.spec_pattern(),
    {
        match self {
            TimeResolution::Daily => "%Y-%m-%d",
            TimeResolution::Monthly => "%Y-%m",
            TimeResolution::Yearly => "%Y",
        }
    }
}

/// Whether `pattern` is the date format of one of the three resolutions.
pub open spec fn is_bucket_pattern(pattern: Seq<char>) -> bool {
    pattern == "%Y-%m-%d"@ || pattern == "%Y-%m"@ || pattern == "%Y"@
}

/// The text that the calendar date of `seconds` since the Unix epoch, taken in UTC,
/// gives in the date format `pattern`.
pub uninterp spec fn utc_label(seconds: int, pattern: Seq<char>) -> Seq<char>;

/// Whether `label` names one unbroken stretch of time around `seconds`: whenever an
/// earlier and a later second carry the same label as each other, that label is `label`.
pub open spec fn label_spans(seconds: int, pattern: Seq<char>, label: Seq<char>) -> bool {
    forall|earlier: int, later: int|
        in_utc_range(earlier) && in_utc_range(later) && earlier <= seconds <= later
            && #[trigger] utc_label(earlier, pattern) == #[trigger] utc_label(later, pattern)
            ==> utc_label(earlier, pattern) == label
}

/// Formats the UTC calendar date of `seconds` since the Unix epoch with `pattern`.
///
/// Calls `chrono::DateTime::from_timestamp`, then `format` and `to_string` on the date
/// it yields. Three things are taken from chrono without proof. `from_timestamp`
/// returns a date exactly for the seconds from the start of the year -262143 to the
/// end of the year 262142. The text depends on the second and the pattern alone. And
/// with the three bucket patterns the text writes out the year, the year and month, or
/// the year, month and day of the date, each of which is one unbroken stretch of
/// seconds and has a text of its own; so a second between two seconds with equal
/// labels has that label too.
#[verifier::external_body]
pub(crate) fn format_utc(seconds: i64, pattern: &str) -> (label: Option<String>)
    requires
        is_bucket_pattern(pattern@),
    ensures
        label is Some <==> in_utc_range(seconds as int),
        label matches Some(text) ==> text@ == utc_label(seconds as int, pattern@),
        label matches Some(text) ==> label_spans(seconds as int, pattern@, text@),
{
    match chrono::DateTime::from_timestamp(seconds, 0) {
        Some(time) => Some(time.format(pattern).to_string()),
        None => None,
    }
}

/// Returns the label of the bucket that `seconds` since the Unix epoch fall in.
pub fn bucket_label(seconds: i64, resolution: &TimeResolution) -> (label: String)
    requires
        in_utc_range(seconds as int),
    ensures
        label@ == utc_label(seconds as int, resolution.spec_pattern()),
        label_spans(seconds as int, resolution.spec_pattern(), label@),
{
    format_utc(seconds, resolution.pattern()).unwrap()
}

} // verus!
