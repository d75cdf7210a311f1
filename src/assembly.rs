use crate::error::{Error, Result};
use crate::record::{fresh_record, into_reversed, AssembledRecord, Record};
use vstd::prelude::*;

verus! {

/// The five kinds of event that the log holds, and everything else.
pub enum EventKind {
    Meta,
    Windows,
    Desktops,
    Idle,
    ActiveWindow,
    Unknown,
}

/// The kind that a type tag names.
pub open spec fn kind_of(tag: Seq<char>) -> EventKind {
    if tag == "meta"@ {
        EventKind::Meta
    } else if tag == "wmctrl_windows"@ {
        EventKind::Windows
    } else if tag == "wmctrl_desktops"@ {
        EventKind::Desktops
    } else if tag == "xprintidle"@ {
        EventKind::Idle
    } else if tag == "xdotool_active_window"@ {
        EventKind::ActiveWindow
    } else {
        EventKind::Unknown
    }
}

/// The snapshot `c` after a non-`meta` event `e` of kind `k` has overwritten
/// the fields that its kind carries.
pub open spec fn apply_event(c: AssembledRecord, k: EventKind, e: Record) -> AssembledRecord {
    match k {
        EventKind::Windows => AssembledRecord { windows: e.windows, ..c },
        EventKind::Desktops => AssembledRecord { desktops: e.desktops, ..c },
        EventKind::Idle => AssembledRecord { idle_msecs: e.idle_msecs, ..c },
        EventKind::ActiveWindow => AssembledRecord {
            window_id: e.window_id,
            window_title: e.window_title,
            ..c
        },
        _ => c,
    }
}

/// One transition of the assembler: from the finished snapshots `done` and
/// the snapshot in progress `cur`, on event `e`; `None` when `e` is a
/// protocol violation.
pub open spec fn step(
    done: Seq<AssembledRecord>,
    cur: Option<AssembledRecord>,
    e: Record,
) -> Option<(Seq<AssembledRecord>, Option<AssembledRecord>)> {
    match kind_of(e.type_@) {
        EventKind::Meta => match e.timestamp {
            Some(ts) => Some(
                (
                    match cur {
                        Some(c) => done.push(c),
                        None => done,
                    },
                    Some(fresh_record(ts)),
                ),
            ),
            None => None,
        },
        EventKind::Unknown => None,
        k => match cur {
            Some(c) => Some((done, Some(apply_event(c, k, e)))),
            None => None,
        },
    }
}

/// The assembler's state after the whole of `events`, from no snapshot in
/// progress; `None` once an event violates the protocol.
pub open spec fn fold_events(events: Seq<Record>) -> Option<
    (Seq<AssembledRecord>, Option<AssembledRecord>),
>
    decreases events.len(),
{
    if events.len() == 0 {
        Some((Seq::empty(), None))
    } else {
        match fold_events(events.drop_last()) {
            Some((done, cur)) => step(done, cur, events.last()),
            None => None,
        }
    }
}

/// The snapshots assembled from `events`, the one still in progress at the
/// end flushed last; `None` when the stream violates the protocol.
pub open spec fn assembled(events: Seq<Record>) -> Option<Seq<AssembledRecord>> {
    match fold_events(events) {
        Some((done, cur)) => Some(
            match cur {
                Some(c) => done.push(c),
                None => done,
            },
        ),
        None => None,
    }
}

/// Once a prefix of the stream violates the protocol, so does the stream.
pub proof fn lemma_violation_persists(events: Seq<Record>, k: int)
    requires
        0 <= k <= events.len(),
        fold_events(events.subrange(0, k)) is None,
    ensures
        fold_events(events) is None,
    decreases events.len(),
{
    if k == events.len() {
        assert(events.subrange(0, k) == events);
    } else {
        assert(events.drop_last().subrange(0, k) == events.subrange(0, k));
        lemma_violation_persists(events.drop_last(), k);
    }
}

/// Number of `meta` events in `events`.
pub open spec fn meta_count(events: Seq<Record>) -> nat
    decreases events.len(),
{
    if events.len() == 0 {
        0
    } else {
        meta_count(events.drop_last()) + if kind_of(events.last().type_@) is Meta {
            1nat
        } else {
            0nat
        }
    }
}

/// Timestamps of the `meta` events of `events` that carry one, in order.
pub open spec fn meta_stamps(events: Seq<Record>) -> Seq<i64>
    decreases events.len(),
{
    if events.len() == 0 {
        Seq::empty()
    } else {
        let rest = meta_stamps(events.drop_last());
        match (kind_of(events.last().type_@), events.last().timestamp) {
            (EventKind::Meta, Some(t)) => rest.push(t),
            _ => rest,
        }
    }
}

/// A stream that opens with `meta`, holds only recognised kinds, and whose
/// `meta` events carry their timestamp.
pub open spec fn well_formed_stream(events: Seq<Record>) -> bool {
    &&& events.len() > 0
    &&& kind_of(events[0].type_@) is Meta
    &&& forall|i: int|
        0 <= i < events.len() ==> !(#[trigger] kind_of(events[i].type_@) is Unknown)
    &&& forall|i: int|
        0 <= i < events.len() && #[trigger] kind_of(events[i].type_@) is Meta
            ==> events[i].timestamp is Some
}

proof fn lemma_fold_well_formed(events: Seq<Record>)
    requires
        well_formed_stream(events),
    ensures
        fold_events(events) matches Some((done, cur)) && cur matches Some(c) && done.len() + 1
            == meta_count(events) && meta_stamps(events) == done.map_values(
            |r: AssembledRecord| r.timestamp,
        ).push(c.timestamp),
    decreases events.len(),
{
    let prefix = events.drop_last();
    if events.len() == 1 {
        assert(fold_events(prefix) == Some((Seq::<AssembledRecord>::empty(), None::<AssembledRecord>)));
        assert(meta_count(prefix) == 0);
        assert(meta_stamps(prefix) == Seq::<i64>::empty());
    } else {
        assert(well_formed_stream(prefix)) by {
            assert forall|i: int| 0 <= i < prefix.len() implies !(#[trigger] kind_of(
                prefix[i].type_@,
            ) is Unknown) by {
                assert(prefix[i] == events[i]);
            }
            assert forall|i: int|
                0 <= i < prefix.len() && #[trigger] kind_of(prefix[i].type_@) is Meta implies prefix[i].timestamp is Some by {
                assert(prefix[i] == events[i]);
            }
        }
        lemma_fold_well_formed(prefix);
    }
    let last = events.last();
    assert(!(kind_of(events[events.len() - 1].type_@) is Unknown));
    if kind_of(last.type_@) is Meta {
        assert(last.timestamp is Some);
    }
    if events.len() > 1 {
        let (done0, cur0) = fold_events(prefix).unwrap();
        let c0 = cur0.unwrap();
        if kind_of(last.type_@) is Meta {
            assert(done0.push(c0).map_values(|r: AssembledRecord| r.timestamp) == done0.map_values(
                |r: AssembledRecord| r.timestamp,
            ).push(c0.timestamp));
        }
    }
}

/// A stream that opens with `meta` and holds only recognised kinds is
/// assembled into exactly one snapshot per `meta` event, in the order of
/// those events and at their times, the last one flushed at the end of the
/// stream.
pub proof fn lemma_one_snapshot_per_meta(events: Seq<Record>)
    requires
        well_formed_stream(events),
    ensures
        assembled(events) matches Some(s) && s.len() == meta_count(events) && s.map_values(
            |r: AssembledRecord| r.timestamp,
        ) == meta_stamps(events),
{
    lemma_fold_well_formed(events);
    let (done, cur) = fold_events(events).unwrap();
    let c = cur.unwrap();
    assert(done.push(c).map_values(|r: AssembledRecord| r.timestamp) == done.map_values(
        |r: AssembledRecord| r.timestamp,
    ).push(c.timestamp));
}

/// A stream that does not open with `meta`, or that holds an event of an
/// unrecognised kind anywhere, is rejected.
pub proof fn lemma_protocol_violations_rejected(events: Seq<Record>)
    ensures
        events.len() > 0 && !(kind_of(events[0].type_@) is Meta) ==> assembled(events) is None,
        forall|i: int|
            0 <= i < events.len() && #[trigger] kind_of(events[i].type_@) is Unknown
                ==> assembled(events) is None,
{
    if events.len() > 0 && !(kind_of(events[0].type_@) is Meta) {
        let first = events.subrange(0, 1);
        assert(fold_events(first.drop_last()) == Some(
            (Seq::<AssembledRecord>::empty(), None::<AssembledRecord>),
        ));
        assert(first.last() == events[0]);
        lemma_violation_persists(events, 1);
    }
    assert forall|i: int|
        0 <= i < events.len() && #[trigger] kind_of(events[i].type_@) is Unknown implies assembled(
        events,
    ) is None by {
        let upto = events.subrange(0, i + 1);
        assert(upto.drop_last() == events.subrange(0, i));
        assert(upto.last() == events[i]);
        lemma_violation_persists(events, i + 1);
    }
}

fn event_kind(tag: &String) -> (k: EventKind)
    ensures
        k == kind_of(tag@),
{
    if *tag == "meta".to_owned() {
        EventKind::Meta
    } else if *tag == "wmctrl_windows".to_owned() {
        EventKind::Windows
    } else if *tag == "wmctrl_desktops".to_owned() {
        EventKind::Desktops
    } else if *tag == "xprintidle".to_owned() {
        EventKind::Idle
    } else if *tag == "xdotool_active_window".to_owned() {
        EventKind::ActiveWindow
    } else {
        EventKind::Unknown
    }
}

/// Folds a stream of events into snapshots, one for each `meta` event.
pub fn assemble(records: Vec<Record>) -> (r: Result<Vec<AssembledRecord>>)
    ensures
        r is Err <==> assembled(records@) is None,
        r is Ok ==> Some(r->Ok_0@) == assembled(records@),
{
    let ghost evs = records@;
    let n = records.len();
    let mut pending = into_reversed(records);
    let mut done: Vec<AssembledRecord> = Vec::new();
    let mut cur: Option<AssembledRecord> = None;
    while pending.len() > 0
        invariant
            evs == records@,
            n == evs.len(),
            pending@.len() <= n,
            forall|i: int| 0 <= i < pending@.len() ==> pending@[i] == evs[n - 1 - i],
            fold_events(evs.subrange(0, n - pending@.len())) == Some((done@, cur)),
        decreases pending@.len(),
    {
        let ghost k = n - pending@.len();
        let e = pending.pop().unwrap();
        proof {
            assert(evs.subrange(0, k + 1).drop_last() == evs.subrange(0, k));
            assert(evs.subrange(0, k + 1).last() == e);
        }
        match event_kind(&e.type_) {
            EventKind::Meta => match e.timestamp {
                Some(ts) => {
                    match cur {
                        Some(c) => done.push(c),
                        None => {},
                    }
                    cur = Some(AssembledRecord::new(ts));
                },
                None => {
                    proof {
                        lemma_violation_persists(evs, k + 1);
                    }
                    return Err(Error::new2("meta event without a timestamp"));
                },
            },
            EventKind::Unknown => {
                proof {
                    lemma_violation_persists(evs, k + 1);
                }
                return Err(Error::new2("unknown event type"));
            },
            EventKind::Windows => match &mut cur {
                Some(c) => {
                    c.windows = e.windows;
                },
                None => {
                    proof {
                        lemma_violation_persists(evs, k + 1);
                    }
                    return Err(Error::new2("first entry wasn't a meta"));
                },
            },
            EventKind::Desktops => match &mut cur {
                Some(c) => {
                    c.desktops = e.desktops;
                },
                None => {
                    proof {
                        lemma_violation_persists(evs, k + 1);
                    }
                    return Err(Error::new2("first entry wasn't a meta"));
                },
            },
            EventKind::Idle => match &mut cur {
                Some(c) => {
                    c.idle_msecs = e.idle_msecs;
                },
                None => {
                    proof {
                        lemma_violation_persists(evs, k + 1);
                    }
                    return Err(Error::new2("first entry wasn't a meta"));
                },
            },
            EventKind::ActiveWindow => match &mut cur {
                Some(c) => {
                    c.window_id = e.window_id;
                    c.window_title = e.window_title;
                },
                None => {
                    proof {
                        lemma_violation_persists(evs, k + 1);
                    }
                    return Err(Error::new2("first entry wasn't a meta"));
                },
            },
        }
    }
    proof {
        assert(evs.subrange(0, n as int) == evs);
    }
    match cur {
        Some(c) => done.push(c),
        None => {},
    }
    Ok(done)
}

} // verus!
