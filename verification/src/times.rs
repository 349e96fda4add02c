//! Points in time, given as seconds since the beginning of 1970 and nanoseconds, in UTC.

use crate::text::text_opt;
use std::fmt::Write;
use vstd::prelude::*;
use vstd::string::*;

verus! {

/// A point in time under a format; nothing where there is no such point or the format is none.
pub uninterp spec fn utc_text(seconds: i64, nanos: u32, format: Seq<char>) -> Option<Seq<char>>;

/// `chrono::DateTime::from_timestamp` and `DateTime::format`: whether there is a text, and which,
/// depends on the point in time and on the format alone.
#[verifier::external_body]
pub(crate) fn format_utc(seconds: i64, nanos: u32, format: &str) -> (r: Option<String>)
    ensures
        text_opt(r) == utc_text(seconds, nanos, format@),
{
    let time = chrono::DateTime::from_timestamp(seconds, nanos)?;
    let mut out = String::new();
    write!(out, "{}", time.format(format)).ok()?;
    Some(out)
}

/// A point in time in the form of RFC 3339; nothing where there is no such point.
pub uninterp spec fn rfc3339_text(seconds: i64, nanos: u32) -> Option<Seq<char>>;

/// `chrono::DateTime::from_timestamp` and `DateTime::to_rfc3339`: the text depends on the point in
/// time alone.
#[verifier::external_body]
pub(crate) fn to_rfc3339(seconds: i64, nanos: u32) -> (r: Option<String>)
    ensures
        text_opt(r) == rfc3339_text(seconds, nanos),
{
    chrono::DateTime::from_timestamp(seconds, nanos).map(|t| t.to_rfc3339())
}

/// The whole seconds from one point in time to another; nothing where one of them is none.
pub uninterp spec fn seconds_between(
    seconds: i64,
    nanos: u32,
    later_seconds: i64,
    later_nanos: u32,
) -> Option<i64>;

/// `chrono::DateTime::signed_duration_since` and `TimeDelta::num_seconds`: the seconds depend on
/// the two points in time alone.
#[verifier::external_body]
pub(crate) fn seconds_since(
    seconds: i64,
    nanos: u32,
    later_seconds: i64,
    later_nanos: u32,
) -> (r: Option<i64>)
    ensures
        r == seconds_between(seconds, nanos, later_seconds, later_nanos),
{
    let start = chrono::DateTime::from_timestamp(seconds, nanos)?;
    let later = chrono::DateTime::from_timestamp(later_seconds, later_nanos)?;
    Some(later.signed_duration_since(start).num_seconds())
}

} // verus!
