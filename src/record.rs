use std::collections::HashMap;
use crate::clock::{local_millis_parsed, parse_local_time};
use crate::error::Result;
use vstd::prelude::*;

verus! {

/// Largest magnitude of a timestamp, in milliseconds either side of
/// 1970-01-01 00:00 (about 316,000 years): wider than any calendar date
/// that chrono represents.
pub const MAX_TS_MS: i64 = 10_000_000_000_000_000;

/// A timestamp is a count of milliseconds of local wall-clock time since
/// 1970-01-01 00:00, inside the calendar range.
pub open spec fn ts_in_range(t: i64) -> bool {
    -MAX_TS_MS <= t <= MAX_TS_MS
}

/// Layout in which snapshot times are written.
pub const FMT: &'static str = "%Y-%m-%d_%H:%M:%S%.3f";

/// Layout in which event times are read: seconds with any fraction.
pub const PARSE_FMT: &'static str = "%Y-%m-%d_%H:%M:%S%.f";

/// Reads an event's time, laid out as `PARSE_FMT`.
pub fn parse_timestamp(s: &str) -> (r: Result<i64>)
    ensures
        match r {
            Ok(t) => local_millis_parsed(s@, PARSE_FMT@) == Some(t as int) && ts_in_range(t),
            Err(_) => !(local_millis_parsed(s@, PARSE_FMT@) matches Some(t) && -MAX_TS_MS <= t
                <= MAX_TS_MS),
        },
{
    parse_local_time(s, PARSE_FMT)
}

/// One decoded log line: a typed event with the fields its type carries.
#[derive(Debug)]
pub struct Record {
    pub type_: String,
    pub timestamp: Option<i64>,
    pub idle_msecs: Option<u64>,
    pub window_id: Option<u64>,
    pub window_title: Option<String>,
    pub windows: Option<Vec<HashMap<String, String>>>,
    pub desktops: Option<Vec<HashMap<String, String>>>,
}

/// One point-in-time snapshot, opened by a `meta` event and filled by the
/// events that follow it.
#[derive(Debug)]
pub struct AssembledRecord {
    pub timestamp: i64,
    pub idle_msecs: Option<u64>,
    pub window_id: Option<u64>,
    pub window_title: Option<String>,
    pub windows: Option<Vec<HashMap<String, String>>>,
    pub desktops: Option<Vec<HashMap<String, String>>>,
}

/// A snapshot at `timestamp` on which no other event has been observed yet.
pub open spec fn fresh_record(timestamp: i64) -> AssembledRecord {
    AssembledRecord {
        timestamp,
        idle_msecs: None,
        window_id: None,
        window_title: None,
        windows: None,
        desktops: None,
    }
}

impl AssembledRecord {
    pub fn new(timestamp: i64) -> (r: Self)
        ensures
            r == fresh_record(timestamp),
    {
        Self {
            timestamp,
            idle_msecs: None,
            window_id: None,
            window_title: None,
            windows: None,
            desktops: None,
        }
    }
}

/// The elements of `v` in reverse order, moved rather than copied.
pub(crate) fn into_reversed<T>(v: Vec<T>) -> (r: Vec<T>)
    ensures
        r@.len() == v@.len(),
        forall|i: int| 0 <= i < r@.len() ==> r@[i] == v@[v@.len() - 1 - i],
{
    let ghost orig = v@;
    let n = v.len();
    let mut rest = v;
    let mut out: Vec<T> = Vec::new();
    while rest.len() > 0
        invariant
            n == orig.len(),
            rest@ == orig.subrange(0, rest@.len() as int),
            out@.len() + rest@.len() == n,
            forall|i: int| 0 <= i < out@.len() ==> out@[i] == orig[n - 1 - i],
        decreases rest@.len(),
    {
        let e = rest.pop().unwrap();
        out.push(e);
    }
    out
}

} // verus!
