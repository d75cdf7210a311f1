use easytrack::cli::{parse_datetime, FMT};
use easytrack::clock::{format_local_time, parse_local_time};
use easytrack::error::Error;
use easytrack::record::{parse_timestamp, PARSE_FMT};
use easytrack::summary::MINUTE_FMT;

#[test]
fn report_times_parse_to_milliseconds() {
    assert_eq!(parse_datetime("2021-04-04_00:00").unwrap(), 1_617_494_400_000);
    assert_eq!(parse_datetime("1970-01-01_00:01").unwrap(), 60_000);
    assert_eq!(parse_local_time("1969-12-31_23:59", FMT).unwrap(), -60_000);
}

#[test]
fn event_times_keep_their_fraction() {
    assert_eq!(
        parse_timestamp("2021-04-04_00:00:01.500").unwrap(),
        1_617_494_401_500
    );
    assert_eq!(
        parse_local_time("1970-01-01_00:00:02.007", PARSE_FMT).unwrap(),
        2_007
    );
}

#[test]
fn malformed_time_is_an_error() {
    let e = parse_datetime("2021-04-04 00:00").unwrap_err();
    assert!(e.msg.starts_with("Chrono error: "));
    assert!(parse_timestamp("yesterday").is_err());
}

#[test]
fn times_format_back() {
    assert_eq!(
        format_local_time(1_617_494_400_000, MINUTE_FMT).unwrap(),
        "2021-04-04_00:00"
    );
    assert_eq!(
        format_local_time(1_617_494_401_500, easytrack::record::FMT).unwrap(),
        "2021-04-04_00:00:01.500"
    );
    assert!(format_local_time(i64::MAX, MINUTE_FMT).is_none());
}

#[test]
fn error_constructors_keep_the_message() {
    assert_eq!(Error::new("a".to_string()).msg, "a");
    assert_eq!(Error::new2("b").msg, "b");
    assert_eq!(Error::from("ctx", std::fmt::Error).msg, "ctx; error: Error");
}

#[test]
fn file_names_give_their_start() {
    assert_eq!(
        easytrack::cli::extract_date("monitor.2021-04-04_00:00.log").unwrap(),
        1_617_494_400_000
    );
    assert!(easytrack::cli::extract_date("monitor.2021-04-04.log").is_err());
}
