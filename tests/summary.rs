use easytrack::cli::{parse_datetime, ReportOpts};
use easytrack::record::AssembledRecord;
use easytrack::summary::{make_summary, summarize, Summary};

const MIN: i64 = 60_000;

fn opts(from: i64, to: Option<i64>, chunk_minutes: u64, chunk_colors: u64) -> ReportOpts {
    ReportOpts {
        monitor_dir: "/tmp".to_string(),
        from,
        to,
        chunk_minutes,
        chunk_colors,
        format: "simple".to_string(),
    }
}

fn rec(ts: i64, title: Option<&str>, idle_msecs: Option<u64>) -> AssembledRecord {
    let mut r = AssembledRecord::new(ts);
    r.window_title = title.map(|t| t.to_string());
    r.idle_msecs = idle_msecs;
    r
}

fn parts(s: &Summary) -> Vec<(String, u64, u64)> {
    s.parts
        .iter()
        .map(|p| (p.tag.clone(), p.ticks, p.idle_ticks))
        .collect()
}

#[test]
fn three_records_two_tags() {
    let recs = vec![
        rec(0, Some("A"), None),
        rec(1000, Some("A"), Some(0)),
        rec(2000, Some("B"), Some(20_000)),
    ];
    let s = summarize(recs, &opts(0, None, 0, 0), 0);
    assert_eq!(
        parts(&s),
        vec![("A".to_string(), 2, 0), ("B".to_string(), 0, 1)]
    );
    assert_eq!(s.total_ticks, 2);
    assert_eq!(s.total_idle_ticks, 1);
    assert_eq!(s.to, None);
    assert_eq!(s.untracked_ticks, None);
}

#[test]
fn idle_threshold_boundary() {
    let busy = summarize(vec![rec(0, None, Some(14_999))], &opts(0, None, 0, 0), 0);
    assert_eq!((busy.total_ticks, busy.total_idle_ticks), (1, 0));
    let idle = summarize(vec![rec(0, None, Some(15_000))], &opts(0, None, 0, 0), 0);
    assert_eq!((idle.total_ticks, idle.total_idle_ticks), (0, 1));
    assert_eq!(parts(&idle), vec![("no window".to_string(), 0, 1)]);
}

#[test]
fn untracked_ticks_over_a_bounded_window() {
    let from = parse_datetime("2021-04-04_00:00").unwrap();
    let to = parse_datetime("2021-04-04_00:05").unwrap();
    assert_eq!(to - from, 300_000);
    let mut recs = vec![];
    for i in 0..100 {
        recs.push(rec(from + i, Some("work"), None));
    }
    for i in 0..50 {
        recs.push(rec(from + 100 + i, Some("work"), Some(60_000)));
    }
    let s = summarize(recs, &opts(from, Some(to), 0, 0), 0);
    assert_eq!(s.from, from);
    assert_eq!(s.to, Some(to));
    assert_eq!(s.total_ticks, 100);
    assert_eq!(s.total_idle_ticks, 50);
    assert_eq!(s.untracked_ticks, Some(150));
}

#[test]
fn untracked_ticks_may_be_negative() {
    let recs: Vec<AssembledRecord> = (0..5).map(|i| rec(i, None, None)).collect();
    let s = summarize(recs, &opts(0, Some(2_500), 0, 0), 0);
    assert_eq!(s.untracked_ticks, Some(-3));
    let s = summarize(vec![rec(0, None, None)], &opts(2_500, Some(0), 0, 0), 0);
    assert_eq!(s.untracked_ticks, Some(-3));
}

#[test]
fn equal_ticks_keep_first_encounter_order() {
    let recs = vec![
        rec(0, Some("late"), None),
        rec(1, Some("early"), Some(30_000)),
        rec(2, Some("big"), None),
        rec(3, Some("big"), None),
        rec(4, Some("big"), None),
        rec(5, Some("late"), Some(30_000)),
        rec(6, Some("early"), None),
        rec(7, Some("one"), None),
    ];
    let s = summarize(recs, &opts(0, None, 0, 0), 0);
    assert_eq!(
        parts(&s),
        vec![
            ("big".to_string(), 3, 0),
            ("late".to_string(), 1, 1),
            ("early".to_string(), 1, 1),
            ("one".to_string(), 1, 0),
        ]
    );
}

#[test]
fn truncation_keeps_totals() {
    let recs = vec![
        rec(0, Some("a"), None),
        rec(1, Some("b"), None),
        rec(2, Some("b"), None),
        rec(3, Some("c"), Some(15_000)),
    ];
    let s = summarize(recs, &opts(0, None, 0, 1), 0);
    assert_eq!(parts(&s), vec![("b".to_string(), 2, 0)]);
    assert_eq!(s.total_ticks, 3);
    assert_eq!(s.total_idle_ticks, 1);
}

#[test]
fn parts_add_up_without_truncation() {
    let recs: Vec<AssembledRecord> = (0..20)
        .map(|i| {
            let title = if i % 3 == 0 { None } else { Some(if i % 2 == 0 { "x" } else { "y" }) };
            rec(i, title, Some((i as u64) * 1_000))
        })
        .collect();
    let s = summarize(recs, &opts(0, None, 0, 0), 0);
    let sum: u64 = s.parts.iter().map(|p| p.ticks + p.idle_ticks).sum();
    assert_eq!(sum, s.total_ticks + s.total_idle_ticks);
    assert_eq!(sum, 20);
}

#[test]
fn chunk_window_is_the_bucket() {
    let recs = vec![rec(7 * MIN + 10, Some("a"), None), rec(8 * MIN, Some("a"), None)];
    let s = summarize(recs, &opts(0, None, 5, 0), 1_000_000 * MIN);
    assert_eq!(s.from, 5 * MIN);
    assert_eq!(s.to, Some(10 * MIN));
    assert_eq!(s.untracked_ticks, Some(298));
}

#[test]
fn chunk_window_ends_at_the_report_end() {
    let recs = vec![rec(7 * MIN, Some("a"), None)];
    let s = summarize(recs, &opts(0, Some(8 * MIN), 5, 0), 0);
    assert_eq!(s.to, Some(8 * MIN));
    assert_eq!(s.untracked_ticks, Some(179));
}

#[test]
fn chunk_window_ends_at_the_clock() {
    let recs = vec![rec(7 * MIN, Some("a"), None)];
    let s = summarize(recs, &opts(0, None, 5, 0), 6 * MIN + 500);
    assert_eq!(s.to, Some(6 * MIN + 500));
    assert_eq!(s.untracked_ticks, Some(59));
}

#[test]
fn make_summary_uses_the_report_range() {
    let recs = vec![rec(MIN, Some("a"), None)];
    let s = make_summary(recs, &opts(0, Some(2 * MIN), 0, 0)).unwrap();
    assert_eq!(s.from, 0);
    assert_eq!(s.to, Some(2 * MIN));
    assert_eq!(s.untracked_ticks, Some(119));
}

#[test]
fn make_summary_reads_the_clock_for_an_open_end() {
    let recs = vec![rec(MIN, Some("a"), None)];
    let s = make_summary(recs, &opts(0, None, 5, 0)).unwrap();
    assert_eq!(s.from, 0);
    assert_eq!(s.to, Some(5 * MIN));
    assert_eq!(s.untracked_ticks, Some(299));
}

#[test]
fn files_inside_the_report_range() {
    let bounded = opts(10, Some(20), 0, 0);
    assert!(!easytrack::cli::file_in_range(&bounded, 9));
    assert!(easytrack::cli::file_in_range(&bounded, 10));
    assert!(easytrack::cli::file_in_range(&bounded, 19));
    assert!(!easytrack::cli::file_in_range(&bounded, 20));
    let open = opts(10, None, 0, 0);
    assert!(easytrack::cli::file_in_range(&open, i64::MAX));
    assert!(!easytrack::cli::file_in_range(&open, 9));
}
