use crate::clock::{local_millis_parsed, parse_local_time};
use crate::error::Result;
use crate::record::{ts_in_range, MAX_TS_MS};
use vstd::prelude::*;

verus! {

/// What a report covers and how it is laid out. Times are milliseconds of
/// local wall-clock time since 1970-01-01 00:00.
#[derive(Debug, Clone)]
pub struct ReportOpts {
    pub monitor_dir: String,
    pub from: i64,
    pub to: Option<i64>,
    /// Length of a chunk in minutes; zero makes the whole range one chunk.
    pub chunk_minutes: u64,
    /// Most tags listed per chunk; zero lists them all.
    pub chunk_colors: u64,
    /// Output layout: `simple`, `jsonstream` or `jsonpretty`.
    pub format: String,
}

/// Layout of the times that the report's options give.
pub const FMT: &'static str = "%Y-%m-%d_%H:%M";

/// Reads a report option's time, laid out as `FMT`.
pub fn parse_datetime(s: &str) -> (r: Result<i64>)
    ensures
        match r {
            Ok(t) => local_millis_parsed(s@, FMT@) == Some(t as int) && ts_in_range(t),
            Err(_) => !(local_millis_parsed(s@, FMT@) matches Some(t) && -MAX_TS_MS <= t
                <= MAX_TS_MS),
        },
{
    parse_local_time(s, FMT)
}

/// Layout of a log file's name, which gives the time its log starts.
pub const FILE_FMT: &'static str = "monitor.%Y-%m-%d_%H:%M.log";

/// Reads the time at which a log file starts from its name, laid out as
/// `FILE_FMT`.
pub fn extract_date(s: &str) -> (r: Result<i64>)
    ensures
        match r {
            Ok(t) => local_millis_parsed(s@, FILE_FMT@) == Some(t as int) && ts_in_range(t),
            Err(_) => !(local_millis_parsed(s@, FILE_FMT@) matches Some(t) && -MAX_TS_MS <= t
                <= MAX_TS_MS),
        },
{
    parse_local_time(s, FILE_FMT)
}

/// A log file that starts at `t` belongs to the report: it starts no
/// earlier than the report and, when the report has an end, before it.
pub fn file_in_range(opts: &ReportOpts, t: i64) -> (b: bool)
    ensures
        b == (opts.from <= t && match opts.to {
            Some(to) => t < to,
            None => true,
        }),
{
    if opts.from > t {
        return false;
    }
    match opts.to {
        Some(to) => t < to,
        None => true,
    }
}

} // verus!
