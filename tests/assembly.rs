use easytrack::assembly::assemble;
use easytrack::record::Record;

fn event(kind: &str) -> Record {
    Record {
        type_: kind.to_string(),
        timestamp: None,
        idle_msecs: None,
        window_id: None,
        window_title: None,
        windows: None,
        desktops: None,
    }
}

fn meta(ts: i64) -> Record {
    let mut e = event("meta");
    e.timestamp = Some(ts);
    e
}

fn idle(msecs: u64) -> Record {
    let mut e = event("xprintidle");
    e.idle_msecs = Some(msecs);
    e
}

fn active(id: Option<u64>, title: Option<&str>) -> Record {
    let mut e = event("xdotool_active_window");
    e.window_id = id;
    e.window_title = title.map(|t| t.to_string());
    e
}

#[test]
fn one_snapshot_per_meta_with_final_flush() {
    let events = vec![
        meta(1000),
        idle(20),
        active(Some(7), Some("editor")),
        meta(2000),
        active(Some(8), Some("browser")),
        meta(3000),
    ];
    let recs = assemble(events).unwrap();
    assert_eq!(recs.len(), 3);
    assert_eq!(recs[0].timestamp, 1000);
    assert_eq!(recs[0].idle_msecs, Some(20));
    assert_eq!(recs[0].window_id, Some(7));
    assert_eq!(recs[0].window_title.as_deref(), Some("editor"));
    assert_eq!(recs[1].timestamp, 2000);
    assert_eq!(recs[1].idle_msecs, None);
    assert_eq!(recs[1].window_title.as_deref(), Some("browser"));
    assert_eq!(recs[2].timestamp, 3000);
    assert_eq!(recs[2].window_title, None);
}

#[test]
fn single_meta_is_flushed() {
    let recs = assemble(vec![meta(5)]).unwrap();
    assert_eq!(recs.len(), 1);
    assert_eq!(recs[0].timestamp, 5);
}

#[test]
fn last_snapshot_keeps_its_events() {
    let recs = assemble(vec![meta(1), meta(2), idle(16000)]).unwrap();
    assert_eq!(recs.len(), 2);
    assert_eq!(recs[0].idle_msecs, None);
    assert_eq!(recs[1].idle_msecs, Some(16000));
}

#[test]
fn empty_stream_gives_no_snapshot() {
    let recs = assemble(vec![]).unwrap();
    assert!(recs.is_empty());
}

#[test]
fn later_event_of_a_kind_overwrites_earlier() {
    let recs = assemble(vec![meta(1), idle(10), idle(30)]).unwrap();
    assert_eq!(recs[0].idle_msecs, Some(30));
}

#[test]
fn active_window_pair_is_overwritten_together() {
    let recs = assemble(vec![
        meta(1),
        active(Some(3), Some("term")),
        active(Some(4), None),
    ])
    .unwrap();
    assert_eq!(recs[0].window_id, Some(4));
    assert_eq!(recs[0].window_title, None);
}

#[test]
fn windows_and_desktops_are_recorded() {
    let mut w = event("wmctrl_windows");
    let mut m = std::collections::HashMap::new();
    m.insert("title".to_string(), "x".to_string());
    w.windows = Some(vec![m]);
    let mut d = event("wmctrl_desktops");
    d.desktops = Some(vec![]);
    let recs = assemble(vec![meta(1), w, d]).unwrap();
    assert_eq!(recs[0].windows.as_ref().unwrap().len(), 1);
    assert_eq!(recs[0].desktops.as_ref().unwrap().len(), 0);
}

#[test]
fn stream_not_opening_with_meta_fails() {
    assert!(assemble(vec![idle(5), meta(1)]).is_err());
    assert!(assemble(vec![active(None, None)]).is_err());
}

#[test]
fn unknown_kind_fails_anywhere() {
    assert!(assemble(vec![event("bogus")]).is_err());
    assert!(assemble(vec![meta(1), event("bogus"), meta(2)]).is_err());
    assert!(assemble(vec![meta(1), meta(2), event("Meta")]).is_err());
}

#[test]
fn meta_without_timestamp_fails() {
    assert!(assemble(vec![event("meta")]).is_err());
}
