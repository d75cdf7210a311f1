use crate::error::Result;
use crate::record::{into_reversed, AssembledRecord};
use vstd::arithmetic::div_mod::{lemma_fundamental_div_mod, lemma_fundamental_div_mod_converse_div};
use vstd::prelude::*;

verus! {

/// Length of a chunk of `chunk_minutes` minutes, in milliseconds.
pub open spec fn chunk_span(chunk_minutes: u64) -> int {
    chunk_minutes * 60_000
}

/// The bucket of timestamp `t`: `t` truncated down to the nearest multiple
/// of the chunk length since the epoch.
pub open spec fn bucket_key(t: i64, chunk_minutes: u64) -> int {
    (t as int / chunk_span(chunk_minutes)) * chunk_span(chunk_minutes)
}

/// The contents of each chunk.
pub open spec fn chunk_views(v: Seq<Vec<AssembledRecord>>) -> Seq<Seq<AssembledRecord>> {
    v.map_values(|c: Vec<AssembledRecord>| c@)
}

/// `chunks` partitions `recs` into maximal runs of one bucket: concatenated
/// they give `recs` back, none is empty, the records of a chunk share one
/// bucket and neighbouring chunks have different buckets. With no chunk
/// length the whole of `recs` is one chunk.
pub open spec fn is_chunking(
    chunks: Seq<Seq<AssembledRecord>>,
    recs: Seq<AssembledRecord>,
    chunk_minutes: u64,
) -> bool {
    &&& chunks.flatten() == recs
    &&& forall|i: int| 0 <= i < chunks.len() ==> #[trigger] chunks[i].len() > 0
    &&& chunk_minutes == 0 ==> chunks.len() <= 1
    &&& chunk_minutes > 0 ==> forall|i: int, j: int|
        0 <= i < chunks.len() && 0 <= j < chunks[i].len() ==> bucket_key(
            #[trigger] chunks[i][j].timestamp,
            chunk_minutes,
        ) == bucket_key(chunks[i][0].timestamp, chunk_minutes)
    &&& chunk_minutes > 0 ==> forall|i: int|
        0 <= i < chunks.len() - 1 ==> bucket_key(#[trigger] chunks[i][0].timestamp, chunk_minutes)
            != bucket_key(chunks[i + 1][0].timestamp, chunk_minutes)
}

/// With no chunk length, a chunking of `recs` is a single chunk holding all
/// of them, or no chunk at all when `recs` is empty.
pub proof fn lemma_single_chunk_without_length(
    chunks: Seq<Seq<AssembledRecord>>,
    recs: Seq<AssembledRecord>,
)
    requires
        is_chunking(chunks, recs, 0),
    ensures
        recs.len() == 0 ==> chunks.len() == 0,
        recs.len() > 0 ==> chunks.len() == 1 && chunks[0] == recs,
{
    if chunks.len() == 1 {
        assert(chunks.drop_first().flatten() == Seq::<AssembledRecord>::empty());
        assert(chunks.flatten() == chunks[0]);
        assert(chunks[0].len() > 0);
    }
}

/// The bucket of `t` for a chunk length of `span` milliseconds.
pub(crate) fn bucket_of(t: i64, span: i128, chunk_minutes: u64) -> (k: i128)
    requires
        chunk_minutes > 0,
        span == chunk_span(chunk_minutes),
    ensures
        k == bucket_key(t, chunk_minutes),
        t - span < k <= t,
{
    let ti = t as i128;
    let q: i128 = if ti >= 0 {
        ti / span
    } else {
        let a: i128 = -ti;
        let c: i128 = (a + span - 1) / span;
        proof {
            let rr: int = (a + span - 1) % (span as int);
            lemma_fundamental_div_mod(a + span - 1, span as int);
            assert(ti == (-c) * span + (span - 1 - rr)) by (nonlinear_arith)
                requires
                    a + span - 1 == span * c + rr,
                    ti == -a,
            ;
            lemma_fundamental_div_mod_converse_div(ti as int, span as int, -c, span - 1 - rr);
            assert(ti as int / span as int == -c);
        }
        -c
    };
    proof {
        lemma_fundamental_div_mod(ti as int, span as int);
        let r: int = ti as int % (span as int);
        assert(q * span == ti - r) by (nonlinear_arith)
            requires
                q == ti as int / span as int,
                ti == span * (ti as int / span as int) + r,
        ;
        assert(0 <= r < span);
    }
    q * span
}

/// Splits `recs` into chunks: one chunk when `chunk_minutes` is zero (none
/// when `recs` is empty), else a new chunk wherever a record's bucket
/// differs from the previous record's.
pub fn split_chunks(recs: Vec<AssembledRecord>, chunk_minutes: u64) -> (r: Result<
    Vec<Vec<AssembledRecord>>,
>)
    ensures
        r matches Ok(chunks) && is_chunking(chunk_views(chunks@), recs@, chunk_minutes),
{
    let ghost rs = recs@;
    let n = recs.len();
    let span: i128 = chunk_minutes as i128 * 60_000;
    let mut pending = into_reversed(recs);
    let mut res: Vec<Vec<AssembledRecord>> = Vec::new();
    let mut cur: Vec<AssembledRecord> = Vec::new();
    let mut cur_key: i128 = 0;
    while pending.len() > 0
        invariant
            n == rs.len(),
            pending@.len() <= n,
            forall|i: int| 0 <= i < pending@.len() ==> pending@[i] == rs[n - 1 - i],
            span == chunk_span(chunk_minutes),
            chunk_views(res@).flatten_alt() + cur@ == rs.subrange(0, n - pending@.len()),
            forall|i: int| 0 <= i < res@.len() ==> #[trigger] res@[i]@.len() > 0,
            (n - pending@.len() > 0) == (cur@.len() > 0),
            chunk_minutes == 0 ==> res@.len() == 0,
            chunk_minutes > 0 ==> forall|i: int, j: int|
                0 <= i < res@.len() && 0 <= j < res@[i]@.len() ==> bucket_key(
                    #[trigger] res@[i]@[j].timestamp,
                    chunk_minutes,
                ) == bucket_key(res@[i]@[0].timestamp, chunk_minutes),
            chunk_minutes > 0 ==> forall|j: int|
                0 <= j < cur@.len() ==> bucket_key(#[trigger] cur@[j].timestamp, chunk_minutes)
                    == cur_key,
            chunk_minutes > 0 ==> forall|i: int|
                0 <= i < res@.len() - 1 ==> bucket_key(
                    #[trigger] res@[i]@[0].timestamp,
                    chunk_minutes,
                ) != bucket_key(res@[i + 1]@[0].timestamp, chunk_minutes),
            chunk_minutes > 0 && res@.len() > 0 ==> bucket_key(
                res@[res@.len() - 1]@[0].timestamp,
                chunk_minutes,
            ) != cur_key,
        decreases pending@.len(),
    {
        let ghost k = n - pending@.len();
        let rec = pending.pop().unwrap();
        if chunk_minutes > 0 {
            let key = bucket_of(rec.timestamp, span, chunk_minutes);
            if cur.len() > 0 && key != cur_key {
                let ghost old_res = res@;
                let ghost old_cur = cur@;
                res.push(cur);
                cur = Vec::new();
                proof {
                    assert(chunk_views(res@).drop_last() == chunk_views(old_res));
                    assert(chunk_views(res@).last() == old_cur);
                }
            }
            cur_key = key;
        }
        cur.push(rec);
        proof {
            assert(rs.subrange(0, k + 1) == rs.subrange(0, k).push(rec));
        }
    }
    if cur.len() > 0 {
        let ghost old_res = res@;
        let ghost old_cur = cur@;
        res.push(cur);
        proof {
            assert(chunk_views(res@).drop_last() == chunk_views(old_res));
            assert(chunk_views(res@).last() == old_cur);
        }
    }
    proof {
        assert(rs.subrange(0, n as int) == rs);
        chunk_views(res@).lemma_flatten_and_flatten_alt_are_equivalent();
    }
    Ok(res)
}

} // verus!
