use crate::chunking::{bucket_key, bucket_of, chunk_span};
use crate::cli::ReportOpts;
use crate::clock::local_now_millis;
use crate::error::Result;
use crate::record::{into_reversed, ts_in_range, AssembledRecord};
use vstd::prelude::*;

verus! {

/// Idle time, in milliseconds, from which a snapshot counts as idle.
pub const IDLE_THRESHOLD_MSECS: u64 = 15000;

/// Layout of a summary's window bounds.
pub const MINUTE_FMT: &'static str = "%Y-%m-%d_%H:%M";

/// Longest chunk, in minutes, that a summary accepts (about 190 million
/// years).
pub const MAX_CHUNK_MINUTES: u64 = 100_000_000_000_000;

/// Most snapshots that one summary counts: more than memory can hold.
pub const MAX_TICKS: u64 = 1_000_000_000_000_000_000;

/// The reduction of one chunk: its time window, its busy, idle and
/// untracked ticks, and its ranked parts.
#[derive(Debug)]
pub struct Summary {
    pub from: i64,
    pub to: Option<i64>,
    pub total_ticks: u64,
    pub total_idle_ticks: u64,
    pub untracked_ticks: Option<i64>,
    pub parts: Vec<SummaryPart>,
}

/// Ticks counted for one tag within a chunk.
#[derive(Debug, Clone)]
pub struct SummaryPart {
    pub tag: String,
    pub ticks: u64,
    pub idle_ticks: u64,
}

/// A part as the contracts see it: tag, busy ticks, idle ticks.
pub type PartView = (Seq<char>, nat, nat);

impl View for SummaryPart {
    type V = PartView;

    open spec fn view(&self) -> PartView {
        (self.tag@, self.ticks as nat, self.idle_ticks as nat)
    }
}

/// The contents of a list of parts.
pub open spec fn parts_view(v: Seq<SummaryPart>) -> Seq<PartView> {
    v.map_values(|p: SummaryPart| p@)
}

/// The tag of a snapshot: its window title, or `"no window"` without one.
pub open spec fn tag_of(r: AssembledRecord) -> Seq<char> {
    match r.window_title {
        Some(t) => t@,
        None => "no window"@,
    }
}

/// A snapshot is idle when it saw at least the threshold of idle time.
pub open spec fn is_idle(r: AssembledRecord) -> bool {
    match r.idle_msecs {
        Some(m) => m >= IDLE_THRESHOLD_MSECS,
        None => false,
    }
}

/// Busy plus idle ticks of a part.
pub open spec fn part_total(p: PartView) -> nat {
    p.1 + p.2
}

/// `groups` holds each tag at most once.
pub open spec fn tags_unique(groups: Seq<PartView>) -> bool {
    forall|a: int, b: int|
        0 <= a < groups.len() && 0 <= b < groups.len() && a != b ==> #[trigger] groups[a].0
            != #[trigger] groups[b].0
}

/// Part `p` after one more tick, busy or idle.
pub open spec fn bumped(p: PartView, idle: bool) -> PartView {
    if idle {
        (p.0, p.1, p.2 + 1)
    } else {
        (p.0, p.1 + 1, p.2)
    }
}

/// A position of `tag` in `groups`, where it has one.
pub open spec fn tag_slot(groups: Seq<PartView>, tag: Seq<char>) -> int {
    choose|i: int| 0 <= i < groups.len() && groups[i].0 == tag
}

/// `groups` after one more tick for `tag`, busy or idle: the tag's part
/// grows by one, or a new part for it comes last.
pub open spec fn add_tick(groups: Seq<PartView>, tag: Seq<char>, idle: bool) -> Seq<PartView> {
    if exists|i: int| 0 <= i < groups.len() && groups[i].0 == tag {
        let i = tag_slot(groups, tag);
        groups.update(i, bumped(groups[i], idle))
    } else {
        groups.push(bumped((tag, 0nat, 0nat), idle))
    }
}

/// The parts of a chunk, one per tag, in order of the tag's first snapshot.
pub open spec fn grouped(recs: Seq<AssembledRecord>) -> Seq<PartView>
    decreases recs.len(),
{
    if recs.len() == 0 {
        Seq::empty()
    } else {
        add_tick(grouped(recs.drop_last()), tag_of(recs.last()), is_idle(recs.last()))
    }
}

/// Number of idle snapshots in `recs`.
pub open spec fn idle_count(recs: Seq<AssembledRecord>) -> nat
    decreases recs.len(),
{
    if recs.len() == 0 {
        0
    } else {
        idle_count(recs.drop_last()) + if is_idle(recs.last()) {
            1nat
        } else {
            0nat
        }
    }
}

/// Number of busy snapshots in `recs`.
pub open spec fn busy_count(recs: Seq<AssembledRecord>) -> nat
    decreases recs.len(),
{
    if recs.len() == 0 {
        0
    } else {
        busy_count(recs.drop_last()) + if is_idle(recs.last()) {
            0nat
        } else {
            1nat
        }
    }
}

/// Sum of busy and idle ticks over `parts`.
pub open spec fn ticks_sum(parts: Seq<PartView>) -> nat
    decreases parts.len(),
{
    if parts.len() == 0 {
        0
    } else {
        part_total(parts[0]) + ticks_sum(parts.drop_first())
    }
}

/// `s` with `x` placed before the first part of `s` that has fewer ticks
/// in all than `x`, or last when there is none.
pub open spec fn insert_ranked(s: Seq<PartView>, x: PartView) -> Seq<PartView>
    decreases s.len(),
{
    if s.len() == 0 {
        seq![x]
    } else if part_total(s[0]) < part_total(x) {
        seq![x] + s
    } else {
        seq![s[0]] + insert_ranked(s.drop_first(), x)
    }
}

/// `parts` ranked by ticks in all, most first; parts with equal ticks keep
/// their order in `parts`.
pub open spec fn ranked(parts: Seq<PartView>) -> Seq<PartView>
    decreases parts.len(),
{
    if parts.len() == 0 {
        Seq::empty()
    } else {
        insert_ranked(ranked(parts.drop_last()), parts.last())
    }
}

proof fn lemma_insert_ranked_at(s: Seq<PartView>, x: PartView, pos: int)
    requires
        0 <= pos <= s.len(),
        forall|j: int| 0 <= j < pos ==> part_total(#[trigger] s[j]) >= part_total(x),
        pos < s.len() ==> part_total(s[pos]) < part_total(x),
    ensures
        insert_ranked(s, x) == s.insert(pos, x),
    decreases s.len(),
{
    if s.len() == 0 {
        assert(s.insert(pos, x) == seq![x]);
    } else if part_total(s[0]) < part_total(x) {
        assert(s.insert(pos, x) == seq![x] + s);
    } else {
        let rest = s.drop_first();
        assert forall|j: int| 0 <= j < pos - 1 implies part_total(#[trigger] rest[j]) >= part_total(
            x,
        ) by {
            assert(rest[j] == s[j + 1]);
        }
        lemma_insert_ranked_at(rest, x, pos - 1);
        assert(s.insert(pos, x) == seq![s[0]] + rest.insert(pos - 1, x));
    }
}

proof fn lemma_sum_prepend(x: PartView, s: Seq<PartView>)
    ensures
        ticks_sum(seq![x] + s) == part_total(x) + ticks_sum(s),
{
    assert((seq![x] + s).drop_first() == s);
}

proof fn lemma_sum_push(s: Seq<PartView>, x: PartView)
    ensures
        ticks_sum(s.push(x)) == ticks_sum(s) + part_total(x),
    decreases s.len(),
{
    if s.len() > 0 {
        assert(s.push(x).drop_first() == s.drop_first().push(x));
        assert(s.push(x)[0] == s[0]);
        lemma_sum_push(s.drop_first(), x);
    } else {
        assert(ticks_sum(s.push(x).drop_first()) == 0);
        assert(ticks_sum(s) == 0);
    }
}

proof fn lemma_sum_update(s: Seq<PartView>, i: int, y: PartView)
    requires
        0 <= i < s.len(),
    ensures
        ticks_sum(s.update(i, y)) + part_total(s[i]) == ticks_sum(s) + part_total(y),
    decreases s.len(),
{
    if i == 0 {
        assert(s.update(i, y).drop_first() == s.drop_first());
    } else {
        assert(s.update(i, y).drop_first() == s.drop_first().update(i - 1, y));
        lemma_sum_update(s.drop_first(), i - 1, y);
    }
}

proof fn lemma_sum_insert_ranked(s: Seq<PartView>, x: PartView)
    ensures
        ticks_sum(insert_ranked(s, x)) == ticks_sum(s) + part_total(x),
    decreases s.len(),
{
    if s.len() == 0 {
        lemma_sum_push(s, x);
        assert(s.push(x) == seq![x]);
    } else if part_total(s[0]) < part_total(x) {
        lemma_sum_prepend(x, s);
    } else {
        lemma_sum_insert_ranked(s.drop_first(), x);
        lemma_sum_prepend(s[0], insert_ranked(s.drop_first(), x));
    }
}

proof fn lemma_sum_ranked(parts: Seq<PartView>)
    ensures
        ticks_sum(ranked(parts)) == ticks_sum(parts),
    decreases parts.len(),
{
    if parts.len() > 0 {
        lemma_sum_ranked(parts.drop_last());
        lemma_sum_insert_ranked(ranked(parts.drop_last()), parts.last());
        lemma_sum_push(parts.drop_last(), parts.last());
        assert(parts.drop_last().push(parts.last()) == parts);
    }
}

proof fn lemma_sum_grouped(recs: Seq<AssembledRecord>)
    ensures
        ticks_sum(grouped(recs)) == recs.len(),
    decreases recs.len(),
{
    if recs.len() > 0 {
        let g = grouped(recs.drop_last());
        let tag = tag_of(recs.last());
        lemma_sum_grouped(recs.drop_last());
        if exists|i: int| 0 <= i < g.len() && g[i].0 == tag {
            let i = tag_slot(g, tag);
            lemma_sum_update(g, i, bumped(g[i], is_idle(recs.last())));
            assert(grouped(recs) == g.update(i, bumped(g[i], is_idle(recs.last()))));
        } else {
            lemma_sum_push(g, bumped((tag, 0nat, 0nat), is_idle(recs.last())));
            assert(grouped(recs) == g.push(bumped((tag, 0nat, 0nat), is_idle(recs.last()))));
        }
    }
}

/// With no limit on the tags listed, the parts of a summary account for
/// every snapshot of its chunk exactly once: their ticks add up to the busy
/// and idle totals, which add up to the number of snapshots.
pub proof fn lemma_parts_account_for_every_tick(
    s: Summary,
    recs: Seq<AssembledRecord>,
    opts: ReportOpts,
    now: i64,
)
    requires
        recs.len() > 0,
        opts.chunk_colors == 0,
        summarizes(s, recs, opts, now),
    ensures
        ticks_sum(parts_view(s.parts@)) == s.total_ticks + s.total_idle_ticks,
        s.total_ticks + s.total_idle_ticks == recs.len(),
{
    lemma_counts_cover(recs);
    lemma_sum_grouped(recs);
    lemma_sum_ranked(grouped(recs));
}

/// Holds of a part with `v` ticks in all.
pub open spec fn with_total(v: nat) -> spec_fn(PartView) -> bool {
    |p: PartView| part_total(p) == v
}

/// Each part has at least as many ticks in all as the next.
pub open spec fn ranked_order(s: Seq<PartView>) -> bool {
    forall|i: int| 0 <= i < s.len() - 1 ==> part_total(#[trigger] s[i]) >= part_total(s[i + 1])
}

proof fn lemma_head_is_largest(s: Seq<PartView>)
    requires
        s.len() > 0,
        ranked_order(s),
    ensures
        forall|i: int| 0 <= i < s.len() ==> part_total(#[trigger] s[i]) <= part_total(s[0]),
    decreases s.len(),
{
    if s.len() > 1 {
        let rest = s.drop_first();
        assert(ranked_order(rest)) by {
            assert forall|i: int| 0 <= i < rest.len() - 1 implies part_total(#[trigger] rest[i])
                >= part_total(rest[i + 1]) by {
                assert(rest[i] == s[i + 1] && rest[i + 1] == s[i + 2]);
            }
        }
        lemma_head_is_largest(rest);
        assert forall|i: int| 0 <= i < s.len() implies part_total(#[trigger] s[i]) <= part_total(
            s[0],
        ) by {
            if i > 0 {
                assert(s[i] == rest[i - 1]);
                assert(s[1] == rest[0]);
            }
        }
    }
}

proof fn lemma_insert_keeps_order(s: Seq<PartView>, x: PartView)
    requires
        ranked_order(s),
    ensures
        ranked_order(insert_ranked(s, x)),
        s.len() > 0 ==> insert_ranked(s, x)[0] == s[0] || insert_ranked(s, x)[0] == x,
    decreases s.len(),
{
    if s.len() == 0 {
    } else if part_total(s[0]) < part_total(x) {
        let r = seq![x] + s;
        assert forall|i: int| 0 <= i < r.len() - 1 implies part_total(#[trigger] r[i]) >= part_total(
            r[i + 1],
        ) by {
            if i > 0 {
                assert(r[i] == s[i - 1] && r[i + 1] == s[i]);
            }
        }
    } else {
        let rest = s.drop_first();
        assert(ranked_order(rest)) by {
            assert forall|i: int| 0 <= i < rest.len() - 1 implies part_total(#[trigger] rest[i])
                >= part_total(rest[i + 1]) by {
                assert(rest[i] == s[i + 1] && rest[i + 1] == s[i + 2]);
            }
        }
        lemma_insert_keeps_order(rest, x);
        let tail = insert_ranked(rest, x);
        let r = seq![s[0]] + tail;
        if rest.len() == 0 {
            assert(tail == seq![x]);
        } else {
            assert(s[1] == rest[0]);
        }
        assert forall|i: int| 0 <= i < r.len() - 1 implies part_total(#[trigger] r[i]) >= part_total(
            r[i + 1],
        ) by {
            if i > 0 {
                assert(r[i] == tail[i - 1] && r[i + 1] == tail[i]);
            }
        }
    }
}

proof fn lemma_ranked_order(parts: Seq<PartView>)
    ensures
        ranked_order(ranked(parts)),
    decreases parts.len(),
{
    if parts.len() > 0 {
        lemma_ranked_order(parts.drop_last());
        lemma_insert_keeps_order(ranked(parts.drop_last()), parts.last());
    }
}

proof fn lemma_insert_filter(s: Seq<PartView>, x: PartView, v: nat)
    requires
        ranked_order(s),
    ensures
        insert_ranked(s, x).filter(with_total(v)) == if part_total(x) == v {
            s.filter(with_total(v)).push(x)
        } else {
            s.filter(with_total(v))
        },
    decreases s.len(),
{
    let p = with_total(v);
    broadcast use Seq::lemma_filter_prepend, Seq::lemma_filter_push;

    if s.len() == 0 {
        assert(seq![x] == s.push(x));
    } else if part_total(s[0]) < part_total(x) {
        s.lemma_filter_prepend(x, p);
        if part_total(x) == v {
            lemma_head_is_largest(s);
            assert(s.all(|q: PartView| !p(q)));
            s.lemma_all_neg_filter_empty(p);
            assert(seq![x] + s.filter(p) == s.filter(p).push(x));
        } else {
            assert(Seq::<PartView>::empty() + s.filter(p) == s.filter(p));
        }
    } else {
        let rest = s.drop_first();
        assert(ranked_order(rest)) by {
            assert forall|i: int| 0 <= i < rest.len() - 1 implies part_total(#[trigger] rest[i])
                >= part_total(rest[i + 1]) by {
                assert(rest[i] == s[i + 1] && rest[i + 1] == s[i + 2]);
            }
        }
        lemma_insert_filter(rest, x, v);
        assert(s == seq![s[0]] + rest);
        rest.lemma_filter_prepend(s[0], p);
        insert_ranked(rest, x).lemma_filter_prepend(s[0], p);
        let head: Seq<PartView> = if p(s[0]) {
            seq![s[0]]
        } else {
            Seq::empty()
        };
        assert((head + rest.filter(p)).push(x) == head + rest.filter(p).push(x));
    }
}

/// Ranking is stable: among parts with the same ticks in all, the ranked
/// list keeps the order of the unranked one, which is the order in which
/// their tags were first met.
pub proof fn lemma_ranking_is_stable(parts: Seq<PartView>, v: nat)
    ensures
        ranked(parts).filter(with_total(v)) == parts.filter(with_total(v)),
    decreases parts.len(),
{
    broadcast use Seq::lemma_filter_push;

    if parts.len() == 0 {
    } else {
        let rest = parts.drop_last();
        lemma_ranking_is_stable(rest, v);
        lemma_ranked_order(rest);
        lemma_insert_filter(ranked(rest), parts.last(), v);
        assert(rest.push(parts.last()) == parts);
    }
}

fn ticks_of(p: &SummaryPart) -> (t: u128)
    ensures
        t == part_total(p@),
{
    p.ticks as u128 + p.idle_ticks as u128
}

/// `groups` ranked by ticks in all, most first, stably.
fn rank_parts(groups: Vec<SummaryPart>) -> (r: Vec<SummaryPart>)
    ensures
        parts_view(r@) == ranked(parts_view(groups@)),
{
    let ghost gs = parts_view(groups@);
    let n = groups.len();
    let mut pending = into_reversed(groups);
    let mut out: Vec<SummaryPart> = Vec::new();
    while pending.len() > 0
        invariant
            n == gs.len(),
            pending@.len() <= n,
            forall|i: int| 0 <= i < pending@.len() ==> #[trigger] pending@[i]@ == gs[n - 1 - i],
            parts_view(out@) == ranked(gs.subrange(0, n - pending@.len())),
        decreases pending@.len(),
    {
        let ghost k = n - pending@.len();
        let x = pending.pop().unwrap();
        let xt = ticks_of(&x);
        let mut pos: usize = 0;
        while pos < out.len() && ticks_of(&out[pos]) >= xt
            invariant
                0 <= pos <= out@.len(),
                forall|j: int| 0 <= j < pos ==> part_total(#[trigger] out@[j]@) >= xt,
            decreases out@.len() - pos,
        {
            pos += 1;
        }
        let ghost before = parts_view(out@);
        proof {
            let upto = gs.subrange(0, k + 1);
            assert(upto.drop_last() == gs.subrange(0, k));
            assert(upto.last() == x@);
            assert forall|j: int| 0 <= j < pos implies part_total(#[trigger] before[j]) >= part_total(
                x@,
            ) by {
                assert(before[j] == out@[j]@);
            }
            lemma_insert_ranked_at(before, x@, pos as int);
        }
        out.insert(pos, x);
        proof {
            assert(parts_view(out@) == before.insert(pos as int, x@));
        }
    }
    proof {
        assert(gs.subrange(0, n as int) == gs);
    }
    out
}

/// The first `top_n` of `parts`, or all of them when `top_n` is zero.
pub open spec fn listed(parts: Seq<PartView>, top_n: u64) -> Seq<PartView> {
    if top_n == 0 || parts.len() <= top_n {
        parts
    } else {
        parts.take(top_n as int)
    }
}

/// The report's end is read from the clock: chunks are set, no end is.
pub open spec fn needs_clock(opts: ReportOpts) -> bool {
    opts.chunk_minutes > 0 && opts.to is None
}

/// Start of a chunk's window whose first snapshot is at `first_ts`: the
/// report's start without chunks, else the first snapshot's bucket.
pub open spec fn window_from(first_ts: i64, opts: ReportOpts) -> int {
    if opts.chunk_minutes == 0 {
        opts.from as int
    } else {
        bucket_key(first_ts, opts.chunk_minutes)
    }
}

/// End of that window: the report's end without chunks; else the earlier of
/// the report's end (the clock's `now` without one) and the bucket's end.
pub open spec fn window_to(first_ts: i64, opts: ReportOpts, now: i64) -> Option<int> {
    if opts.chunk_minutes == 0 {
        match opts.to {
            Some(t) => Some(t as int),
            None => None,
        }
    } else {
        let upper: int = match opts.to {
            Some(t) => t as int,
            None => now as int,
        };
        let end = window_from(first_ts, opts) + chunk_span(opts.chunk_minutes);
        Some(
            if upper < end {
                upper
            } else {
                end
            },
        )
    }
}

/// Whole seconds from `from` to `to` (milliseconds), rounded toward zero.
pub open spec fn whole_seconds(from: int, to: int) -> int {
    if to >= from {
        (to - from) / 1000
    } else {
        -((from - to) / 1000)
    }
}

/// `s` is the summary of the chunk `recs` under `opts`, with the clock at
/// `now`.
pub open spec fn summarizes(s: Summary, recs: Seq<AssembledRecord>, opts: ReportOpts, now: i64) -> bool {
    let from = window_from(recs[0].timestamp, opts);
    let to = window_to(recs[0].timestamp, opts, now);
    &&& s.from as int == from
    &&& s.total_ticks == busy_count(recs)
    &&& s.total_idle_ticks == idle_count(recs)
    &&& match to {
        Some(t) => {
            &&& s.to matches Some(st) && st as int == t
            &&& s.untracked_ticks matches Some(u) && u as int == whole_seconds(from, t)
                - busy_count(recs) - idle_count(recs)
        },
        None => s.to is None && s.untracked_ticks is None,
    }
    &&& parts_view(s.parts@) == listed(ranked(grouped(recs)), opts.chunk_colors)
}

/// Summarizes the chunk `recs` under `opts`, reading the clock as `now`
/// where the window's end calls for it.
pub fn summarize(recs: Vec<AssembledRecord>, opts: &ReportOpts, now: i64) -> (s: Summary)
    requires
        recs@.len() > 0,
        recs@.len() <= MAX_TICKS,
        opts.chunk_minutes > 0 ==> opts.chunk_minutes <= MAX_CHUNK_MINUTES && ts_in_range(
            recs@[0].timestamp,
        ),
    ensures
        summarizes(s, recs@, *opts, now),
{
    let (groups, busy, idle) = group_ticks(&recs);
    proof {
        lemma_counts_cover(recs@);
    }
    let first_ts = recs[0].timestamp;
    let (from, to): (i64, Option<i64>) = if opts.chunk_minutes == 0 {
        (opts.from, opts.to)
    } else {
        let span: i128 = opts.chunk_minutes as i128 * 60_000;
        let start = bucket_of(first_ts, span, opts.chunk_minutes);
        let upper: i64 = match opts.to {
            Some(t) => t,
            None => now,
        };
        let end: i128 = start + span;
        let to: i64 = if (upper as i128) < end {
            upper
        } else {
            end as i64
        };
        (start as i64, Some(to))
    };
    let untracked: Option<i64> = match to {
        Some(t) => {
            let diff: i128 = t as i128 - from as i128;
            let secs: i128 = if diff >= 0 {
                diff / 1000
            } else {
                -((-diff) / 1000)
            };
            Some((secs - busy as i128 - idle as i128) as i64)
        },
        None => None,
    };
    let mut parts = rank_parts(groups);
    if opts.chunk_colors != 0 && opts.chunk_colors < parts.len() as u64 {
        parts.truncate(opts.chunk_colors as usize);
        proof {
            assert(parts_view(parts@) == ranked(grouped(recs@)).take(opts.chunk_colors as int));
        }
    }
    Summary { from, to, total_ticks: busy, total_idle_ticks: idle, untracked_ticks: untracked, parts }
}

/// Summarizes the chunk `recs` under `opts`, reading the clock when the
/// window's end calls for it (chunks are set, no end is).
pub fn make_summary(recs: Vec<AssembledRecord>, opts: &ReportOpts) -> (r: Result<Summary>)
    requires
        recs@.len() > 0,
        recs@.len() <= MAX_TICKS,
        opts.chunk_minutes > 0 ==> opts.chunk_minutes <= MAX_CHUNK_MINUTES && ts_in_range(
            recs@[0].timestamp,
        ),
    ensures
        r matches Ok(s) && exists|now: i64| summarizes(s, recs@, *opts, now),
        r matches Ok(s) && (!needs_clock(*opts) ==> summarizes(s, recs@, *opts, 0)),
{
    let now: i64 = if opts.chunk_minutes > 0 && opts.to.is_none() {
        local_now_millis()
    } else {
        0
    };
    let s = summarize(recs, opts, now);
    Ok(s)
}

proof fn lemma_counts_cover(recs: Seq<AssembledRecord>)
    ensures
        busy_count(recs) + idle_count(recs) == recs.len(),
    decreases recs.len(),
{
    if recs.len() > 0 {
        lemma_counts_cover(recs.drop_last());
    }
}

/// The tag of a snapshot, as an owned string.
fn make_tag(rec: &AssembledRecord) -> (t: String)
    ensures
        t@ == tag_of(*rec),
{
    match &rec.window_title {
        Some(title) => title.clone(),
        None => "no window".to_owned(),
    }
}

fn record_is_idle(rec: &AssembledRecord) -> (b: bool)
    ensures
        b == is_idle(*rec),
{
    match rec.idle_msecs {
        Some(m) => m >= IDLE_THRESHOLD_MSECS,
        None => false,
    }
}

/// The parts of `recs`, one per tag in order of first appearance, with
/// the busy and idle ticks of the whole chunk.
fn group_ticks(recs: &Vec<AssembledRecord>) -> (r: (Vec<SummaryPart>, u64, u64))
    ensures
        parts_view(r.0@) == grouped(recs@),
        r.1 == busy_count(recs@),
        r.2 == idle_count(recs@),
{
    let mut groups: Vec<SummaryPart> = Vec::new();
    let mut busy: u64 = 0;
    let mut idle: u64 = 0;
    let n = recs.len();
    let mut i: usize = 0;
    while i < n
        invariant
            n == recs@.len(),
            i <= n,
            parts_view(groups@) == grouped(recs@.subrange(0, i as int)),
            tags_unique(parts_view(groups@)),
            forall|k: int|
                0 <= k < groups@.len() ==> #[trigger] groups@[k].ticks + groups@[k].idle_ticks
                    <= i,
            busy == busy_count(recs@.subrange(0, i as int)),
            idle == idle_count(recs@.subrange(0, i as int)),
            busy + idle == i,
        decreases n - i,
    {
        let rec = &recs[i];
        let tag = make_tag(rec);
        let is_idle_rec = record_is_idle(rec);
        let ghost before = parts_view(groups@);
        proof {
            let upto = recs@.subrange(0, i + 1);
            assert(upto.drop_last() == recs@.subrange(0, i as int));
            assert(upto.last() == recs@[i as int]);
        }
        let mut j: usize = 0;
        while j < groups.len()
            invariant
                0 <= j <= groups@.len(),
                forall|k: int| 0 <= k < j ==> groups@[k].tag@ != tag@,
            ensures
                0 <= j <= groups@.len(),
                forall|k: int| 0 <= k < j ==> groups@[k].tag@ != tag@,
                j < groups@.len() ==> groups@[j as int].tag@ == tag@,
            decreases groups@.len() - j,
        {
            if groups[j].tag == tag {
                break;
            }
            j += 1;
        }
        if j < groups.len() {
            let old_part = &groups[j];
            let bumped = if is_idle_rec {
                SummaryPart {
                    tag: old_part.tag.clone(),
                    ticks: old_part.ticks,
                    idle_ticks: old_part.idle_ticks + 1,
                }
            } else {
                SummaryPart {
                    tag: old_part.tag.clone(),
                    ticks: old_part.ticks + 1,
                    idle_ticks: old_part.idle_ticks,
                }
            };
            groups.set(j, bumped);
            proof {
                assert(before[j as int].0 == tag@);
                assert(tag_slot(before, tag@) == j);
                assert(parts_view(groups@) == add_tick(before, tag@, is_idle_rec));
            }
        } else {
            let fresh = if is_idle_rec {
                SummaryPart { tag, ticks: 0, idle_ticks: 1 }
            } else {
                SummaryPart { tag, ticks: 1, idle_ticks: 0 }
            };
            groups.push(fresh);
            proof {
                assert(!exists|c: int| 0 <= c < before.len() && before[c].0 == fresh.tag@);
                assert(parts_view(groups@) == add_tick(before, fresh.tag@, is_idle_rec));
            }
        }
        if is_idle_rec {
            idle += 1;
        } else {
            busy += 1;
        }
        i += 1;
    }
    proof {
        assert(recs@.subrange(0, n as int) == recs@);
    }
    (groups, busy, idle)
}

} // verus!
