use easytrack::chunking::split_chunks;
use easytrack::record::AssembledRecord;

const MIN: i64 = 60_000;

fn stamps(chunks: &[Vec<AssembledRecord>]) -> Vec<Vec<i64>> {
    chunks
        .iter()
        .map(|c| c.iter().map(|r| r.timestamp).collect())
        .collect()
}

fn records(ts: &[i64]) -> Vec<AssembledRecord> {
    ts.iter().map(|t| AssembledRecord::new(*t)).collect()
}

#[test]
fn zero_length_makes_one_chunk() {
    let chunks = split_chunks(records(&[1, 5 * MIN, 90 * MIN]), 0).unwrap();
    assert_eq!(stamps(&chunks), vec![vec![1, 5 * MIN, 90 * MIN]]);
}

#[test]
fn zero_length_on_nothing_makes_no_chunk() {
    assert!(split_chunks(vec![], 0).unwrap().is_empty());
    assert!(split_chunks(vec![], 5).unwrap().is_empty());
}

#[test]
fn chunks_follow_aligned_buckets() {
    let ts = [4 * MIN, 5 * MIN, 9 * MIN + 59_999, 10 * MIN, 31 * MIN];
    let chunks = split_chunks(records(&ts), 5).unwrap();
    assert_eq!(
        stamps(&chunks),
        vec![
            vec![4 * MIN],
            vec![5 * MIN, 9 * MIN + 59_999],
            vec![10 * MIN],
            vec![31 * MIN],
        ]
    );
}

#[test]
fn buckets_before_the_epoch_round_down() {
    let chunks = split_chunks(records(&[-MIN - 1, -MIN, -1, 0]), 1).unwrap();
    assert_eq!(stamps(&chunks), vec![vec![-MIN - 1], vec![-MIN, -1], vec![0]]);
}

#[test]
fn unsorted_input_keeps_its_order() {
    let chunks = split_chunks(records(&[0, 10 * MIN, 1]), 5).unwrap();
    assert_eq!(stamps(&chunks), vec![vec![0], vec![10 * MIN], vec![1]]);
}
