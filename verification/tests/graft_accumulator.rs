//! The shard accumulator.
use zodl_slipstream::graft::Retention;
use zodl_slipstream::graft_accumulator::{
    shard_of, AccRow, FeedAction, ShardAccumulator, SHARD_SPAN,
};

type H = u32; // the accumulator is hash-agnostic; a tiny stand-in keeps tests readable

const SHARD: u64 = 1 << 16;

fn items(n: u64) -> Vec<(H, Retention)> {
    (0..n).map(|i| (i as H, Retention::Ephemeral)).collect()
}

fn positions(action: &FeedAction<H>) -> Vec<u64> {
    match action {
        FeedAction::Build(r) | FeedAction::Buffer(r) => r.iter().map(|x| x.0).collect(),
        FeedAction::CloseCleanShard { rows, .. } => rows.iter().map(|x| x.0).collect(),
    }
}

#[test]
fn rule1_eager_flush_on_first_note_then_passthrough() {
    let mut a = ShardAccumulator::<H>::seed(0, vec![], false);
    // Chunk 1: clean prefix → buffered.
    let acts = a.feed(0, items(100), &[]);
    assert!(matches!(&acts[..], [FeedAction::Buffer(r)] if r.len() == 100));
    // Chunk 2: a note at position 150 → ONE Build with prefix + span (0..200).
    let acts = a.feed(100, items(100), &[150]);
    assert_eq!(acts.len(), 1);
    assert!(matches!(&acts[0], FeedAction::Build(r) if r.len() == 200));
    assert_eq!(positions(&acts[0]).first(), Some(&0));
    assert_eq!(positions(&acts[0]).last(), Some(&199));
    // Chunk 3: same shard → straight Build (passthrough).
    let acts = a.feed(200, items(50), &[]);
    assert!(matches!(&acts[..], [FeedAction::Build(r)] if r.len() == 50));
}

#[test]
fn rule2_clean_close_emits_full_rowset_and_reopens_buffering() {
    let mut a = ShardAccumulator::<H>::seed(0, vec![], false);
    let acts = a.feed(0, items(SHARD), &[]);
    assert!(matches!(&acts[..], [FeedAction::Buffer(_)]));
    // First position of shard 1 closes shard 0 clean.
    let acts = a.feed(SHARD, items(10), &[]);
    assert_eq!(acts.len(), 2);
    match &acts[0] {
        FeedAction::CloseCleanShard { shard_index, rows } => {
            assert_eq!(*shard_index, 0);
            assert_eq!(
                rows.len(),
                SHARD as usize,
                "complete row set for the verdict"
            );
        }
        other => panic!("expected close, got {other:?}"),
    }
    assert!(matches!(&acts[1], FeedAction::Buffer(r) if r.len() == 10));
}

#[test]
fn rule3_noted_shard_closes_silently_no_graft_verdict() {
    let mut a = ShardAccumulator::<H>::seed(0, vec![], false);
    let _ = a.feed(0, items(SHARD), &[5]); // noted → flushed passthrough
    let acts = a.feed(SHARD, items(10), &[]);
    // No CloseCleanShard for shard 0 — it was built already.
    assert!(matches!(&acts[..], [FeedAction::Buffer(r)] if r.len() == 10));
}

#[test]
fn rule4_seed_modes() {
    // Fresh: buffering.
    let mut fresh = ShardAccumulator::<H>::seed(10, vec![], false);
    let acts = fresh.feed(10, items(5), &[]);
    assert!(matches!(&acts[..], [FeedAction::Buffer(_)]));
    // Resume: buffered prefix from the DB continues the same shard.
    let prefix: Vec<AccRow<H>> = (0..10u64)
        .map(|p| (p, p as H, Retention::Ephemeral))
        .collect();
    let mut resumed = ShardAccumulator::<H>::seed(10, prefix, false);
    let acts = resumed.feed(10, items(SHARD - 10), &[]);
    assert!(matches!(&acts[..], [FeedAction::Buffer(_)]));
    let acts = resumed.feed(SHARD, items(1), &[]);
    match &acts[0] {
        FeedAction::CloseCleanShard { rows, .. } => {
            assert_eq!(
                rows.len(),
                SHARD as usize,
                "prefix + resumed rows = complete shard"
            );
            assert_eq!(rows.first().map(|r| r.0), Some(0));
        }
        other => panic!("expected close, got {other:?}"),
    }
    // Store-has-internals: passthrough from the first feed.
    let mut built = ShardAccumulator::<H>::seed(10, vec![], true);
    let acts = built.feed(10, items(5), &[]);
    assert!(matches!(&acts[..], [FeedAction::Build(_)]));
}

#[test]
fn seed_of_a_built_shard_drops_stale_rows() {
    let stale: Vec<AccRow<H>> = (0..10u64)
        .map(|p| (p, p as H, Retention::Ephemeral))
        .collect();
    let mut a = ShardAccumulator::<H>::seed(10, stale, true);
    let acts = a.feed(10, items(5), &[]);
    match &acts[..] {
        [FeedAction::Build(rows)] => assert_eq!(
            rows.iter().map(|r| r.0).collect::<Vec<_>>(),
            (10..15).collect::<Vec<_>>()
        ),
        other => panic!("expected Build, got {other:?}"),
    }
    assert!(a.finish().is_none());
}

#[test]
fn rule5_finish_builds_never_grafts() {
    let mut a = ShardAccumulator::<H>::seed(0, vec![], false);
    let _ = a.feed(0, items(100), &[]);
    match a.finish() {
        Some(FeedAction::Build(rows)) => assert_eq!(rows.len(), 100),
        other => panic!("expected Build, got {other:?}"),
    }
    // Passthrough shard: nothing pending at finish.
    let mut p = ShardAccumulator::<H>::seed(0, vec![], true);
    let _ = p.feed(0, items(100), &[]);
    assert!(p.finish().is_none());
}

#[test]
fn rule6_buffer_actions_carry_only_new_rows() {
    let mut a = ShardAccumulator::<H>::seed(0, vec![], false);
    let first = a.feed(0, items(100), &[]);
    let second = a.feed(100, items(50), &[]);
    assert_eq!(positions(&first[0]), (0..100).collect::<Vec<_>>());
    assert_eq!(positions(&second[0]), (100..150).collect::<Vec<_>>());
}

#[test]
fn straddle_three_shards_mixed() {
    // One feed spanning: tail of shard 0 (clean), all of shard 1 (noted), head of
    // shard 2 (open).
    let start = SHARD - 10;
    let mut a = ShardAccumulator::<H>::seed(start, vec![], false);
    let len = 10 + SHARD + 5;
    let note_in_shard1 = SHARD + 1234;
    let acts = a.feed(start, items(len), &[note_in_shard1]);
    assert_eq!(acts.len(), 4, "close0 comes on transition: {acts:?}");
    // [shard0 tail → Buffer], [transition → CloseCleanShard 0], [shard1 noted → Build],
    // [transition to 2: shard1 was passthrough → no close], [shard2 head → Buffer].
    assert!(matches!(&acts[0], FeedAction::Buffer(r) if r.len() == 10));
    assert!(
        matches!(&acts[1], FeedAction::CloseCleanShard { shard_index: 0, rows } if rows.len() == 10)
    );
    assert!(matches!(&acts[2], FeedAction::Build(r) if r.len() == SHARD as usize));
    assert!(matches!(&acts[3], FeedAction::Buffer(r) if r.len() == 5));
    // Finish builds the open shard-2 head.
    match a.finish() {
        Some(FeedAction::Build(rows)) => assert_eq!(rows.len(), 5),
        other => panic!("expected Build, got {other:?}"),
    }
}

#[test]
fn every_row_is_placed_once() {
    // What is built or closed, with what finish builds, is the stream in order.
    let mut a = ShardAccumulator::<H>::seed(0, vec![], false);
    let mut placed = Vec::new();
    let mut take = |act: &FeedAction<H>| {
        if !matches!(act, FeedAction::Buffer(_)) {
            placed.extend(positions(act));
        }
    };
    let mut at = 0;
    for (n, notes) in [
        (40_000, vec![]),
        (40_000, vec![70_000]),
        (60_000, vec![]),
        (90_000, vec![200_000]),
    ] {
        for act in &a.feed(at, items(n), &notes) {
            take(act);
        }
        at += n;
    }
    if let Some(act) = a.finish() {
        take(&act);
    }
    assert_eq!(placed, (0..at).collect::<Vec<_>>());
}

#[test]
fn shards_span_a_power_of_two() {
    assert_eq!(SHARD_SPAN, SHARD);
    assert_eq!(shard_of(SHARD - 1), 0);
    assert_eq!(shard_of(SHARD), 1);
}

#[test]
fn noted_shards_never_graft_however_the_stream_is_sliced() {
    // A note in the second shard, which its third slice closes.
    for slice in [SHARD, SHARD / 2, 50_000, 3 * SHARD] {
        let mut a = ShardAccumulator::<H>::seed(0, vec![], false);
        let mut closed = vec![];
        let mut at = 0;
        while at < 3 * SHARD {
            let n = slice.min(3 * SHARD - at);
            let notes: Vec<u64> = [SHARD + 7]
                .into_iter()
                .filter(|p| at <= *p && *p < at + n)
                .collect();
            for action in a.feed(at, items(n), &notes) {
                if let FeedAction::CloseCleanShard { shard_index, rows } = action {
                    assert_eq!(rows.len() as u64, SHARD);
                    closed.push(shard_index);
                }
            }
            at += n;
        }
        assert_eq!(closed, vec![0], "slices of {slice}");
    }
}
