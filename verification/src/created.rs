//! Creation times of targets, made readable with `chrono` and
//! `chrono-humanize`.
use vstd::prelude::*;

use crate::text::{parse_i64, parse_i64_spec, str_chars};

verus! {

/// The UNIX timestamp of the date and time that `chrono::DateTime::parse_from_str`
/// reads from `s` by the format `fmt`, or `None` where it fails.
pub uninterp spec fn chrono_parse_timestamp(s: Seq<char>, fmt: Seq<char>) -> Option<i64>;

/// Whether `chrono::DateTime::from_timestamp(secs, 0)` gives a date and time.
pub uninterp spec fn chrono_timestamp_in_range(secs: i64) -> bool;

/// Calls `chrono::DateTime::parse_from_str(s, fmt)` and takes the timestamp
/// (`DateTime::timestamp`) of the result. The result is named by
/// `chrono_parse_timestamp`; chrono documents that `from_timestamp`
/// round-trips with `timestamp`, so a parsed instant is in range.
#[verifier::external_body]
fn parse_timestamp(s: &str, fmt: &str) -> (r: Option<i64>)
    ensures
        r == chrono_parse_timestamp(s@, fmt@),
        r matches Some(t) ==> chrono_timestamp_in_range(t),
{
    match chrono::DateTime::parse_from_str(s, fmt) {
        Ok(dt) => Some(dt.timestamp()),
        Err(_) => None,
    }
}

/// Calls `chrono::DateTime::from_timestamp(secs, 0)` and, where that gives a
/// date, `chrono_humanize::HumanTime::from(..).to_string()`. The text depends
/// on the current time, so it is not named; claimed are only whether there is
/// one and that it is never empty (every phrase `HumanTime` displays, such as
/// "now", "a minute ago" or "in 2 days", has words in it).
#[verifier::external_body]
fn humanize_timestamp(secs: i64) -> (r: Option<String>)
    ensures
        r is Some == chrono_timestamp_in_range(secs),
        r matches Some(text) ==> text@.len() > 0,
{
    match chrono::DateTime::from_timestamp(secs, 0) {
        Some(dt) => Some(chrono_humanize::HumanTime::from(dt).to_string()),
        None => None,
    }
}

/// The two layouts in which `docker ps` prints a creation time.
pub open spec fn docker_time_format_long() -> Seq<char> {
    "%Y-%m-%d %H:%M:%S %z %Z"@
}

pub open spec fn docker_time_format_short() -> Seq<char> {
    "%Y-%m-%d %H:%M:%S %z"@
}

/// Whether a `docker ps` creation time is read in either layout.
pub open spec fn docker_time_parses(created_at: Seq<char>) -> bool {
    chrono_parse_timestamp(created_at, docker_time_format_long()) is Some
        || chrono_parse_timestamp(created_at, docker_time_format_short()) is Some
}

/// The timestamp of a `docker ps` creation time: read in the long layout,
/// else in the short one.
pub open spec fn spec_docker_timestamp(created_at: Seq<char>) -> Option<i64> {
    match chrono_parse_timestamp(created_at, docker_time_format_long()) {
        Some(t) => Some(t),
        None => chrono_parse_timestamp(created_at, docker_time_format_short()),
    }
}

/// The timestamp of a `docker ps` creation time, in whichever of the two
/// layouts reads it first.
pub fn docker_timestamp(created_at: &str) -> (r: Option<i64>)
    ensures
        r == spec_docker_timestamp(created_at@),
        r matches Some(t) ==> chrono_timestamp_in_range(t),
{
    match parse_timestamp(created_at, "%Y-%m-%d %H:%M:%S %z %Z") {
        Some(t) => Some(t),
        None => parse_timestamp(created_at, "%Y-%m-%d %H:%M:%S %z"),
    }
}

/// A `docker ps` creation time made relative to now ("2 hours ago"); a time in
/// neither layout is kept as it is.
pub fn docker_created(created_at: &str) -> (r: String)
    ensures
        !docker_time_parses(created_at@) ==> r@ == created_at@,
        docker_time_parses(created_at@) ==> r@.len() > 0,
{
    match docker_timestamp(created_at) {
        Some(t) => match humanize_timestamp(t) {
            Some(h) => h,
            None => String::from_str(created_at),
        },
        None => String::from_str(created_at),
    }
}

/// Whether a tmux `session_created` value is a timestamp that chrono can place.
pub open spec fn tmux_time_readable(ts: Seq<char>) -> bool {
    parse_i64_spec(ts) matches Some(t) && chrono_timestamp_in_range(t)
}

/// A tmux `session_created` timestamp made relative to now; empty exactly
/// when it is no integer or out of chrono's range.
pub fn tmux_created(created_ts: &str) -> (r: String)
    ensures
        !tmux_time_readable(created_ts@) ==> r@ == Seq::<char>::empty(),
        tmux_time_readable(created_ts@) ==> r@.len() > 0,
{
    let v = str_chars(created_ts);
    match parse_i64(&v) {
        Some(t) => match humanize_timestamp(t) {
            Some(h) => h,
            None => String::new(),
        },
        None => String::new(),
    }
}

} // verus!
