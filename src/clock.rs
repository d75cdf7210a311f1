use crate::error::{Error, Result};
use crate::record::{ts_in_range, MAX_TS_MS};
use vstd::prelude::*;

verus! {

#[verifier::external_type_specification]
#[verifier::external_body]
pub struct ExParseError(chrono::ParseError);

/// Milliseconds since 1970-01-01 00:00 of the wall-clock time that `s`
/// spells in the strftime layout `fmt`, when it spells one.
pub uninterp spec fn local_millis_parsed(s: Seq<char>, fmt: Seq<char>) -> Option<int>;

/// Relies on chrono's `NaiveDateTime::parse_from_str`, read back with
/// `and_utc().timestamp_millis()`: the outcome depends on the text and the
/// layout alone.
#[verifier::external_body]
fn parse_local_millis(s: &str, fmt: &str) -> (r: std::result::Result<i64, chrono::ParseError>)
    ensures
        match r {
            Ok(t) => local_millis_parsed(s@, fmt@) == Some(t as int),
            Err(_) => local_millis_parsed(s@, fmt@) is None,
        },
{
    match chrono::NaiveDateTime::parse_from_str(s, fmt) {
        Ok(d) => Ok(d.and_utc().timestamp_millis()),
        Err(e) => Err(e),
    }
}

/// The text that lays out the wall-clock time `t` (milliseconds since
/// 1970-01-01 00:00) in the strftime layout `fmt`, when `t` is a date.
pub uninterp spec fn local_millis_formatted(t: int, fmt: Seq<char>) -> Option<Seq<char>>;

/// The strftime layouts that this library writes times in.
pub open spec fn known_layout(fmt: Seq<char>) -> bool {
    fmt == crate::record::FMT@ || fmt == crate::summary::MINUTE_FMT@
}

/// Relies on chrono's `DateTime::from_timestamp_millis`, `naive_utc` and
/// `format(..).to_string()`: the outcome depends on the time and the layout
/// alone. Layouts are limited to the library's own, which chrono accepts.
#[verifier::external_body]
fn format_local_millis(t: i64, fmt: &str) -> (r: Option<String>)
    requires
        known_layout(fmt@),
    ensures
        match r {
            Some(text) => local_millis_formatted(t as int, fmt@) == Some(text@),
            None => local_millis_formatted(t as int, fmt@) is None,
        },
{
    match chrono::DateTime::from_timestamp_millis(t) {
        Some(d) => Some(d.naive_utc().format(fmt).to_string()),
        None => None,
    }
}

/// Lays out the wall-clock time `t` in `fmt`, one of the library's layouts;
/// `None` when `t` is no date.
pub fn format_local_time(t: i64, fmt: &str) -> (r: Option<String>)
    requires
        known_layout(fmt@),
    ensures
        match r {
            Some(text) => local_millis_formatted(t as int, fmt@) == Some(text@),
            None => local_millis_formatted(t as int, fmt@) is None,
        },
{
    format_local_millis(t, fmt)
}

/// Relies on chrono's `Local::now`: the current wall-clock time in the
/// machine's time zone, as milliseconds since 1970-01-01 00:00.
#[verifier::external_body]
pub(crate) fn local_now_millis() -> (r: i64) {
    chrono::Local::now().naive_local().and_utc().timestamp_millis()
}

/// Relies on std's `format!` with `{:?}` on chrono's `ParseError`: the text
/// starts with `"Chrono error: "`.
#[verifier::external_body]
fn parse_error_text(e: &chrono::ParseError) -> (r: String)
    ensures
        r@.len() >= 14,
        r@.subrange(0, 14) == "Chrono error: "@,
{
    format!("Chrono error: {:?}", e)
}

/// Reads the wall-clock time that `s` spells in the strftime layout `fmt`,
/// as milliseconds since 1970-01-01 00:00. Fails when `s` does not fit the
/// layout, and when the time lies outside the calendar range.
pub fn parse_local_time(s: &str, fmt: &str) -> (r: Result<i64>)
    ensures
        match r {
            Ok(t) => local_millis_parsed(s@, fmt@) == Some(t as int) && ts_in_range(t),
            Err(_) => !(local_millis_parsed(s@, fmt@) matches Some(t) && -MAX_TS_MS <= t
                <= MAX_TS_MS),
        },
{
    match parse_local_millis(s, fmt) {
        Ok(t) => {
            if -MAX_TS_MS <= t && t <= MAX_TS_MS {
                Ok(t)
            } else {
                Err(Error::new2("time outside the calendar range"))
            }
        },
        Err(e) => Err(Error { msg: parse_error_text(&e) }),
    }
}

} // verus!
