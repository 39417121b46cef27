//! Planning, splitting, pumping, admission, collapse detection, release, supervision.
use prost::Message;
use zodl_slipstream::block_source::CompactBlock;
use zodl_slipstream::config::EngineConfig;
use zodl_slipstream::error::WireRate;
use zodl_slipstream::fetch::{
    after_failure, complete_fetch, AcquireOutcome, AdmitStep, AheadGate, ChunkSplitter, Continuity,
    FetchEvent, FetchPlan, FetchStats, FetchSupervisor, PlanChunkCursor, Pump, ReleaseStage,
    ReleaseSummary, RetryStep, SubChunk, SuperviseStep, WireDetector, WireFailoverArm, WireWindow,
};
use zodl_slipstream::SlipstreamError;

#[test]
fn plan_chunking_covers_range_exactly() {
    let p = FetchPlan::new(1000, 1999, 300, 4);
    assert_eq!(p.chunk_count(), 4);
    assert_eq!(p.chunk_range(0), (1000, 1299));
    assert_eq!(p.chunk_range(3), (1900, 1999));
}

#[test]
fn plan_single_block_range() {
    let p = FetchPlan::new(5, 5, 100, 2);
    assert_eq!(p.chunk_count(), 1);
    assert_eq!(p.chunk_range(0), (5, 5));
}

#[test]
fn plan_chunks_follow_each_other() {
    let p = FetchPlan::new(7, 1_234, 100, 3);
    assert_eq!(p.chunk_range(0).0, 7);
    for i in 1..p.chunk_count() {
        assert_eq!(p.chunk_range(i).0, p.chunk_range(i - 1).1 + 1);
    }
    assert_eq!(p.chunk_range(p.chunk_count() - 1).1, 1_234);
    assert_eq!(p.retries_per_chunk, 3);
    assert_eq!(p.chunk_timeout_nanos, 120_000_000_000);
    assert_eq!(p.split_bytes, EngineConfig::DEFAULT_CHUNK_SPLIT_BYTES);
    assert!(p.failover.is_none());
}

/// Block with a controllable wire size via the `header` field; prev_hash links to
/// height-1 so released runs pass the continuity check.
fn block_sized(height: u64, payload: usize) -> CompactBlock {
    let wire = zcash_client_backend::proto::compact_formats::CompactBlock {
        height,
        hash: hash_of(height),
        prev_hash: hash_of(height - 1),
        header: vec![0xAB; payload],
        ..Default::default()
    }
    .encode_to_vec();
    let len = wire.len();
    let b = CompactBlock::from_wire(wire).expect("an encoded block reads");
    assert_eq!(b.wire_len, len);
    b
}

fn hash_of(height: u64) -> Vec<u8> {
    let mut v = vec![0u8; 32];
    v[..8].copy_from_slice(&height.to_le_bytes());
    v
}

fn linked(from: u64, count: u64, payload: usize) -> Vec<CompactBlock> {
    (from..from + count)
        .map(|h| block_sized(h, payload))
        .collect()
}

fn assert_heights_consecutive(subs: &[SubChunk], from: u64, to: u64) {
    let heights: Vec<u64> = subs
        .iter()
        .flat_map(|s| s.blocks.iter().map(|b| b.height))
        .collect();
    let expected: Vec<u64> = (from..=to).collect();
    assert_eq!(
        heights, expected,
        "released heights must be exactly {from}..={to}, no dups"
    );
}

#[test]
fn splitter_small_blocks_single_subchunk_fast_path() {
    let mut s = ChunkSplitter::new(1024 * 1024);
    for b in linked(100, 10, 16) {
        assert!(s.push(b).is_none(), "small blocks must not split");
    }
    let (blocks, bytes) = s.finish().expect("tail");
    assert_eq!(blocks.len(), 10);
    assert_eq!(
        blocks.iter().map(|b| b.height).collect::<Vec<_>>(),
        (100..110).collect::<Vec<_>>()
    );
    assert!(bytes > 0);
}

#[test]
fn splitter_splits_at_threshold_preserving_order() {
    // ~1040-byte blocks against a 2500-byte budget → 2-block sub-chunks.
    let mut s = ChunkSplitter::new(2500);
    let mut emitted: Vec<Vec<CompactBlock>> = Vec::new();
    for b in linked(100, 7, 1000) {
        if let Some((blocks, bytes)) = s.push(b) {
            assert!(bytes <= 2500, "emitted sub-chunk must respect the budget");
            emitted.push(blocks);
        }
    }
    if let Some((blocks, _)) = s.finish() {
        emitted.push(blocks);
    }
    assert_eq!(
        emitted.len(),
        4,
        "7 blocks at 2/sub-chunk = 3 full + 1 tail"
    );
    assert_eq!(
        emitted.iter().map(Vec::len).collect::<Vec<_>>(),
        vec![2, 2, 2, 1]
    );
    let heights: Vec<u64> = emitted.iter().flatten().map(|b| b.height).collect();
    assert_eq!(
        heights,
        (100..107).collect::<Vec<_>>(),
        "order preserved, nothing lost"
    );
}

#[test]
fn splitter_oversized_block_forms_own_subchunk() {
    let mut s = ChunkSplitter::new(1000);
    assert!(
        s.push(block_sized(100, 5000)).is_none(),
        "first block always accumulates"
    );
    let (blocks, _) = s
        .push(block_sized(101, 5000))
        .expect("oversized block flushes alone");
    assert_eq!(blocks.len(), 1);
    assert_eq!(blocks[0].height, 100);
    let (tail, _) = s.finish().expect("tail");
    assert_eq!(tail[0].height, 101);
}

#[test]
fn splitter_empty_finish_is_none() {
    assert!(ChunkSplitter::new(1000).finish().is_none());
}

const SECOND: u64 = 1_000_000_000;

/// Feeds a stream to a pump, handing on what it gives; `gap` passes before each block.
fn pump(
    blocks: Vec<CompactBlock>,
    end: Result<(), &str>,
    cursor: &mut PlanChunkCursor,
    split: usize,
    gap: u64,
    deadline: u64,
    out: &mut Vec<SubChunk>,
) -> Result<(), SlipstreamError> {
    let mut p = Pump::start(cursor, split);
    let mut waited = 0;
    for b in blocks {
        waited += gap;
        if let Some(sub) = p.block(cursor, b, waited, deadline)? {
            cursor.handed_on(&sub);
            out.push(sub);
            waited = 0;
        }
    }
    match end {
        Err(detail) => Err(p.broken(detail)),
        Ok(()) => {
            let sub = p.end(cursor)?;
            cursor.handed_on(&sub);
            out.push(sub);
            Ok(())
        }
    }
}

#[test]
fn pump_emits_ordered_subchunks_with_final_marker() {
    let mut cursor = PlanChunkCursor::new(0, 100, 119);
    let mut subs = Vec::new();
    pump(linked(100, 20, 1000), Ok(()), &mut cursor, 2500, 0, 120 * SECOND, &mut subs)
        .expect("pump");
    assert!(subs.len() > 1, "split must produce multiple sub-chunks");
    assert_eq!(
        subs.iter().map(|s| s.sub_index).collect::<Vec<_>>(),
        (0..subs.len() as u64).collect::<Vec<_>>(),
        "sub_index dense from 0"
    );
    let lasts: Vec<bool> = subs.iter().map(|s| s.is_last).collect();
    assert!(
        lasts.iter().rev().skip(1).all(|l| !*l),
        "only the final sub-chunk is last"
    );
    assert!(
        *lasts.last().expect("nonempty"),
        "final sub-chunk carries is_last"
    );
    assert_heights_consecutive(&subs, 100, 119);
    assert_eq!(
        cursor.resume_from, 120,
        "cursor advanced past the plan chunk"
    );
    assert_eq!(cursor.next_sub_index, subs.len() as u64);
}

#[test]
fn pump_small_chunk_single_subchunk_fast_path() {
    let mut cursor = PlanChunkCursor::new(3, 100, 109);
    let mut subs = Vec::new();
    pump(
        linked(100, 10, 100),
        Ok(()),
        &mut cursor,
        EngineConfig::DEFAULT_CHUNK_SPLIT_BYTES,
        0,
        120 * SECOND,
        &mut subs,
    )
    .expect("pump");
    assert_eq!(
        subs.len(),
        1,
        "normal-era plan chunk = exactly one sub-chunk"
    );
    assert!(subs[0].is_last);
    assert_eq!(subs[0].sub_index, 0);
    assert_eq!(subs[0].blocks.len(), 10);
}

#[test]
fn pump_short_stream_errors_without_emitting_tail() {
    let mut cursor = PlanChunkCursor::new(0, 100, 119);
    let mut subs = Vec::new();
    // Clean end at 111 — 8 blocks short.
    let err = pump(linked(100, 12, 1000), Ok(()), &mut cursor, 2500, 0, 120 * SECOND, &mut subs)
        .expect_err("short stream must error");
    assert!(err.message().contains("ended short"), "got: {err:?}");
    assert!(
        subs.iter().all(|s| !s.is_last),
        "no is_last on a short stream"
    );
    // 12 blocks at 2/sub-chunk → 5 emitted (10 blocks), 2-block tail discarded.
    let emitted_through = subs.last().and_then(|s| s.blocks.last()).map(|b| b.height);
    assert_eq!(
        cursor.resume_from,
        emitted_through.expect("subs emitted") + 1
    );
    assert_eq!(
        err.message(),
        "transport: block stream 100..119 (plan chunk 0): stream ended short at 111, expected 119"
    );
    let mut silent = PlanChunkCursor::new(4, 100, 119);
    let err = pump(vec![], Ok(()), &mut silent, 2500, 0, SECOND, &mut subs).expect_err("silence");
    assert_eq!(
        err.message(),
        "transport: block stream 100..119 (plan chunk 4): stream ended short at 99, expected 119"
    );
}

#[test]
fn pump_resume_after_midstream_error_no_duplicates() {
    let mut cursor = PlanChunkCursor::new(0, 100, 139);
    let mut subs = Vec::new();
    // Attempt 1: 18 blocks then a transport error.
    let err = pump(
        linked(100, 18, 1000),
        Err("backend dropped"),
        &mut cursor,
        2500,
        0,
        120 * SECOND,
        &mut subs,
    )
    .expect_err("attempt 1 must surface the stream error");
    assert!(err.message().contains("backend dropped"), "got: {err:?}");
    assert!(cursor.emitted_this_attempt, "attempt 1 made progress");
    // 18 blocks at 2/sub-chunk → 8 sub-chunks (16 blocks) emitted; 2 discarded.
    assert_eq!(cursor.resume_from, 116, "resume = last emitted height + 1");
    let subs_before = cursor.next_sub_index;

    // Attempt 2 (the worker's retry): resume_from..=end, clean.
    cursor.begin_attempt();
    assert!(!cursor.emitted_this_attempt);
    let again = linked(cursor.resume_from, 140 - cursor.resume_from, 1000);
    pump(again, Ok(()), &mut cursor, 2500, 0, 120 * SECOND, &mut subs)
        .expect("attempt 2 completes");
    assert!(
        cursor.next_sub_index > subs_before,
        "sub_index continued, not reset"
    );
    assert_eq!(
        subs.iter().map(|s| s.sub_index).collect::<Vec<_>>(),
        (0..subs.len() as u64).collect::<Vec<_>>(),
        "sub_index dense across the retry boundary"
    );
    assert_eq!(
        subs.iter().filter(|s| s.is_last).count(),
        1,
        "exactly one is_last"
    );
    assert!(subs.last().expect("nonempty").is_last);
    assert_heights_consecutive(&subs, 100, 139);
}

#[test]
fn pump_deadline_resets_on_each_emitted_subchunk() {
    let mut cursor = PlanChunkCursor::new(0, 100, 129);
    let mut subs = Vec::new();
    // One block per second; 2-block sub-chunks → an emission every ~2s against a 5s
    // deadline; total 30s >> 5s.
    pump(linked(100, 30, 1000), Ok(()), &mut cursor, 2500, SECOND, 5 * SECOND, &mut subs)
        .expect("slow-but-progressing stream must complete");
    assert_heights_consecutive(&subs, 100, 129);
}

#[test]
fn pump_deadline_fires_without_subchunk_progress() {
    let mut cursor = PlanChunkCursor::new(0, 100, 129);
    let mut subs = Vec::new();
    // Budget is huge → nothing ever emits → the 5s progress deadline fires.
    let err = pump(
        linked(100, 30, 1000),
        Ok(()),
        &mut cursor,
        usize::MAX >> 8,
        SECOND,
        5 * SECOND,
        &mut subs,
    )
    .expect_err("no progress must time out");
    assert!(
        err.message().contains("no completed sub-chunk"),
        "got: {err:?}"
    );
    assert!(!cursor.emitted_this_attempt);
    assert_eq!(
        cursor.resume_from, 100,
        "no emission → resume from plan start"
    );
    assert_eq!(
        err.message(),
        "transport: block stream 100..129 (plan chunk 0): no completed sub-chunk within 5s"
    );
}

#[test]
fn gate_floor_is_exempt_even_when_budget_exhausted() {
    let gate = AheadGate::new(1000);
    // Ahead worker (plan 1) takes the whole budget.
    assert_eq!(
        gate.admission(0, 1, 1000, AcquireOutcome::NotTried),
        AdmitStep::Acquire(1000)
    );
    assert_eq!(
        gate.admission(0, 1, 1000, AcquireOutcome::Granted),
        AdmitStep::Admitted,
        "ahead worker gets a permit"
    );
    // Floor worker (plan 0) is exempt.
    assert_eq!(
        gate.admission(0, 0, 999_999, AcquireOutcome::NotTried),
        AdmitStep::Exempt,
        "floor must not consume budget"
    );
}

#[test]
fn gate_blocked_ahead_worker_unblocks_when_it_becomes_floor() {
    let gate = AheadGate::new(1000);
    assert_eq!(
        gate.admission(0, 2, 500, AcquireOutcome::TimedOut),
        AdmitStep::Acquire(500),
        "ahead worker must wait while budget is held"
    );
    // The release stage advances the floor to 2 → exemption kicks in.
    assert_eq!(
        gate.admission(2, 2, 500, AcquireOutcome::TimedOut),
        AdmitStep::Exempt,
        "now-floor worker proceeds without a permit"
    );
}

#[test]
fn gate_never_asks_for_more_than_it_has() {
    assert_eq!(AheadGate::new(0).cap(), 1);
    assert_eq!(AheadGate::for_split(1000).cap(), 8000);
    assert_eq!(AheadGate::for_split(usize::MAX).cap(), usize::MAX);
    let gate = AheadGate::new(1000);
    for (bytes, need) in [(0, 1), (1, 1), (999, 999), (1001, 1000), (usize::MAX, 1000)] {
        assert_eq!(
            gate.admission(0, 1, bytes, AcquireOutcome::NotTried),
            AdmitStep::Acquire(need)
        );
    }
    assert_eq!(
        AheadGate::new(usize::MAX).admission(0, 1, usize::MAX, AcquireOutcome::NotTried),
        AdmitStep::Acquire(u32::MAX)
    );
    assert_eq!(
        gate.admission(0, 1, 10, AcquireOutcome::Closed),
        AdmitStep::Exempt
    );
}

fn nanos(secs: f64) -> u64 {
    (secs * 1e9) as u64
}

/// Feed `mbps` for `secs` seconds starting at `t0` (1 arrival/second).
fn feed(d: &mut WireDetector, mbps: f64, t0: f64, secs: u64) -> Result<(), SlipstreamError> {
    let bytes = (mbps * 1024.0 * 1024.0) as u64;
    for i in 0..secs {
        d.arrival(bytes, nanos(t0 + i as f64 + 1.0))?;
    }
    Ok(())
}

#[test]
fn detector_steady_slow_never_fires() {
    let mut d = WireDetector::new(WireFailoverArm::default());
    feed(&mut d, 2.3, 0.0, 120).expect("steady 2.3 MB/s must never fire");
}

#[test]
fn detector_fires_on_healthy_to_collapse() {
    let mut d = WireDetector::new(WireFailoverArm::default());
    feed(&mut d, 14.0, 0.0, 30).expect("healthy phase");
    let err = feed(&mut d, 0.5, 30.0, 30).expect_err("collapse must fire");
    assert!(
        matches!(err, SlipstreamError::WireCollapse { .. }),
        "{err:?}"
    );
}

#[test]
fn detector_no_overreaction_above_painful() {
    let mut d = WireDetector::new(WireFailoverArm::default());
    feed(&mut d, 20.0, 0.0, 30).expect("healthy phase");
    feed(&mut d, 3.0, 30.0, 60).expect("3 MB/s is usable — no fire");
}

#[test]
fn detector_stall_threshold_exact() {
    let arm = WireFailoverArm::default();
    let mut d = WireDetector::new(arm);
    feed(&mut d, 10.0, 0.0, 20).expect("warmup");
    for i in 0..arm.stall_secs - 1 {
        d.starve_tick(nanos(20.0 + i as f64))
            .expect("below threshold");
    }
    let err = d
        .starve_tick(nanos(20.0 + arm.stall_secs as f64))
        .expect_err("stall fires at N");
    assert!(
        matches!(err, SlipstreamError::WireCollapse { measured_mbps, .. } if measured_mbps == WireRate { bytes_per_kilosecond: 0 })
    );
}

#[test]
fn detector_arrival_resets_starve() {
    let arm = WireFailoverArm::default();
    let mut d = WireDetector::new(arm);
    feed(&mut d, 10.0, 0.0, 20).expect("warmup");
    for round in 0..3u64 {
        let base = 20.0 + round as f64 * 12.0;
        for i in 0..arm.stall_secs - 1 {
            d.starve_tick(nanos(base + i as f64))
                .expect("below threshold");
        }
        // 40 MB after the gap keeps the 10 s window comfortably usable.
        d.arrival(
            40 * 1024 * 1024,
            nanos(base + (arm.stall_secs - 1) as f64),
        )
        .expect("healthy blip arrival");
    }
}

#[test]
fn detector_silent_before_warmup() {
    let mut d = WireDetector::new(WireFailoverArm::default());
    // 10 s of trickle + 11 starves, all inside the warmup horizon.
    feed(&mut d, 0.05, 0.0, 10).expect("pre-warmup trickle");
    for i in 0..11u64 {
        d.starve_tick(nanos(10.0 + i as f64))
            .expect("pre-warmup starves");
    }
}

#[test]
fn detector_absolute_floor_fires() {
    let mut d = WireDetector::new(WireFailoverArm::default());
    // 0.1 MB/s from the start: warmup needs >4 MiB, so ~45 s in.
    let err = feed(&mut d, 0.1, 0.0, 120).expect_err("sub-floor trickle must fire");
    assert!(matches!(err, SlipstreamError::WireCollapse { .. }));
}

#[test]
fn detector_reports_what_it_measured() {
    // A healthy best window of 10 MiB/s, then one second of nothing per ten.
    let mut d = WireDetector::new(WireFailoverArm::default());
    feed(&mut d, 10.0, 0.0, 20).expect("healthy phase");
    let err = d.arrival(1024 * 1024, 40 * SECOND).expect_err("collapse");
    assert_eq!(
        err.message(),
        "wire collapse: 0.10 MB/s sustained (floor 1.50)"
    );
}

fn sub(plan_index: u64, sub_index: u64, is_last: bool, blocks: Vec<CompactBlock>) -> SubChunk {
    let bytes = blocks.iter().map(|b| b.wire_len).sum();
    SubChunk {
        plan_index,
        sub_index,
        is_last,
        bytes,
        blocks,
    }
}

struct Drained {
    indices: Vec<u64>,
    heights: Vec<u64>,
    floor: u64,
}

fn release(
    subs: Vec<SubChunk>,
) -> (Drained, Result<ReleaseSummary, SlipstreamError>) {
    let mut stage = ReleaseStage::new(None);
    let mut d = Drained {
        indices: vec![],
        heights: vec![],
        floor: 0,
    };
    for (i, s) in subs.into_iter().enumerate() {
        if let Err(e) = stage.arrive(s, i as u64) {
            return (d, Err(e));
        }
        loop {
            match stage.release_next() {
                Ok(Some(r)) => {
                    d.indices.push(r.chunk.index);
                    d.heights.extend(r.chunk.blocks.iter().map(|b| b.height));
                    if let Some(f) = r.new_floor {
                        d.floor = f;
                    }
                }
                Ok(None) => break,
                Err(e) => return (d, Err(e)),
            }
        }
    }
    (d, Ok(stage.into_summary()))
}

#[test]
fn release_orders_scrambled_subchunks_strictly() {
    let all = linked(100, 60, 64);
    let subs = vec![
        // plan 2: [140-149](0), [150-159](1, last)
        sub(2, 1, true, all[50..60].to_vec()),
        // plan 1: [120-139](0, last)
        sub(1, 0, true, all[20..40].to_vec()),
        // plan 0: [100-109](0), [110-119](1, last)
        sub(0, 1, true, all[10..20].to_vec()),
        sub(2, 0, false, all[40..50].to_vec()),
        sub(0, 0, false, all[0..10].to_vec()),
    ];
    let (d, summary) = release(subs);
    let summary = summary.expect("release");
    assert_eq!(summary.plans_released, 3);
    assert_eq!(summary.blocks, 60);
    assert_eq!(
        d.heights,
        (100..160).collect::<Vec<_>>(),
        "strict height order"
    );
    assert_eq!(
        d.indices,
        (0..5).collect::<Vec<_>>(),
        "queue chunk index dense from 0"
    );
    assert_eq!(d.floor, 3, "floor advanced past the last plan chunk");
    let bytes: usize = all.iter().map(|b| b.wire_len).sum();
    assert_eq!(summary.bytes, bytes as u64);
    assert_eq!(summary.wire_samples.len(), 5);
    assert_eq!(summary.wire_samples[4], (4, bytes as u64));
}

#[test]
fn release_does_not_show_the_order_of_arrival() {
    let all = linked(100, 40, 64);
    let piece = |i: usize| match i {
        0 => sub(0, 0, false, all[0..10].to_vec()),
        1 => sub(0, 1, true, all[10..20].to_vec()),
        2 => sub(1, 0, false, all[20..30].to_vec()),
        _ => sub(1, 1, true, all[30..40].to_vec()),
    };
    for a in 0..4 {
        for b in 0..4 {
            for c in 0..4 {
                for d in 0..4 {
                    let order = [a, b, c, d];
                    if (0..4).any(|i| !order.contains(&i)) {
                        continue;
                    }
                    let (drained, summary) =
                        release(order.iter().map(|i| piece(*i)).collect());
                    let summary = summary.expect("release");
                    assert_eq!(drained.heights, (100..140).collect::<Vec<_>>());
                    assert_eq!(drained.indices, vec![0, 1, 2, 3]);
                    assert_eq!(drained.floor, 2);
                    assert_eq!((summary.blocks, summary.plans_released), (40, 2));
                }
            }
        }
    }
}

#[test]
fn release_waits_for_retry_continuation_before_advancing() {
    let all = linked(100, 30, 64);
    let (d, summary) = release(vec![
        sub(0, 0, false, all[0..10].to_vec()),
        sub(1, 0, true, all[20..30].to_vec()),
        // ...worker 0 reconnects and resumes...
        sub(0, 1, true, all[10..20].to_vec()),
    ]);
    assert_eq!(summary.expect("release").plans_released, 2);
    assert_eq!(d.heights, (100..130).collect::<Vec<_>>());
}

#[test]
fn release_rejects_gap_between_subchunks() {
    let (_, r) = release(vec![
        sub(0, 0, false, linked(100, 5, 64)),
        sub(0, 1, true, linked(200, 5, 64)),
    ]);
    let err = r.expect_err("gap must fail");
    assert!(
        matches!(err, SlipstreamError::Discontinuity { at: 200, .. }),
        "got: {err:?}"
    );
}

#[test]
fn release_stops_at_a_collapse() {
    let mut stage = ReleaseStage::new(Some(WireFailoverArm::default()));
    let mut big = linked(100, 1, 64);
    big[0].wire_len = 50 * 1024 * 1024;
    stage.arrive(sub(1, 0, true, big), 10 * SECOND).expect("warmup");
    for i in 0..11 {
        stage.starve_tick((20 + i) * SECOND).expect("below threshold");
    }
    assert!(matches!(
        stage.starve_tick(40 * SECOND),
        Err(SlipstreamError::WireCollapse { .. })
    ));
    assert!(matches!(stage.release_next(), Ok(None)), "plan 0 is missing");
}

#[test]
fn continuity_checks_heights_and_hashes() {
    let mut c = Continuity::new();
    c.verify_blocks(&linked(100, 5, 0)).expect("any start");
    c.verify_blocks(&vec![]).expect("nothing to check");
    c.verify_blocks(&linked(105, 5, 0)).expect("linked");
    let mut forked = linked(110, 2, 0);
    forked[0].prev_hash = hash_of(7);
    assert!(matches!(
        c.verify_blocks(&forked),
        Err(SlipstreamError::Discontinuity { at: 110, .. })
    ));
    // The chain ends before the break: what links there continues it still.
    let mut torn = linked(110, 3, 0);
    torn[2].prev_hash = hash_of(7);
    assert!(matches!(
        c.verify_blocks(&torn),
        Err(SlipstreamError::Discontinuity { at: 112, .. })
    ));
    c.verify_blocks(&linked(112, 1, 0)).expect("linked to the last good block");
}

#[test]
fn refused_subchunk_leaves_the_link_before_the_break() {
    let mut stage = ReleaseStage::new(None);
    let mut torn = linked(100, 3, 64);
    torn[2].prev_hash = hash_of(7);
    stage.arrive(sub(0, 0, true, torn), 1).expect("kept");
    assert!(matches!(
        stage.release_next(),
        Err(SlipstreamError::Discontinuity { at: 102, .. })
    ));
    stage.arrive(sub(0, 0, true, linked(102, 2, 64)), 2).expect("kept");
    let out = stage.release_next().expect("linked").expect("its turn");
    assert_eq!(out.chunk.index, 0, "nothing was released before");
    assert_eq!(out.chunk.blocks.len(), 2);
}

#[test]
fn splitter_closes_only_for_a_block_that_does_not_fit() {
    let budget = 700;
    let mut s = ChunkSplitter::new(budget);
    let mut closed = 0;
    for (i, b) in linked(100, 40, 64).into_iter().enumerate() {
        let n = b.wire_len;
        if let Some((blocks, bytes)) = s.push(b) {
            assert!(bytes + n > budget, "block {i} would have fitted");
            assert!(bytes <= budget);
            assert_eq!(bytes, blocks.iter().map(|b| b.wire_len).sum::<usize>());
            closed += 1;
        }
    }
    assert!(closed > 2);
}

#[test]
fn supervise_returns_first_worker_error_and_aborts_the_rest() {
    let mut s = FetchSupervisor::new(2);
    match s.step(FetchEvent::WorkerFailed(SlipstreamError::Transport(
        "plan chunk 8 gave up".into(),
    ))) {
        SuperviseStep::Abort(err) => assert!(
            err.message().contains("plan chunk 8 gave up"),
            "got: {err:?}"
        ),
        other => panic!("a failed worker fails the fetch: {other:?}"),
    }
}

#[test]
fn supervise_returns_release_summary_when_all_workers_succeed() {
    let mut s = FetchSupervisor::new(3);
    for _ in 0..3 {
        assert!(matches!(
            s.step(FetchEvent::WorkerDone),
            SuperviseStep::Wait
        ));
    }
    let summary = ReleaseSummary {
        blocks: 7,
        ..Default::default()
    };
    match s.step(FetchEvent::Released(summary)) {
        SuperviseStep::Done(summary) => assert_eq!(summary.blocks, 7),
        other => panic!("all workers succeeded: {other:?}"),
    }
}

#[test]
fn supervise_propagates_release_error_and_aborts_workers() {
    let mut s = FetchSupervisor::new(1);
    match s.step(FetchEvent::ReleaseFailed(SlipstreamError::Transport(
        "continuity broken".into(),
    ))) {
        SuperviseStep::Abort(err) => {
            assert!(err.message().contains("continuity broken"), "got: {err:?}")
        }
        other => panic!("a release error fails the fetch: {other:?}"),
    }
}

#[test]
fn supervise_maps_worker_panic_to_transport_error() {
    let mut s = FetchSupervisor::new(1);
    match s.step(FetchEvent::WorkerPanicked("synthetic worker panic".into())) {
        SuperviseStep::Abort(err) => assert!(
            matches!(err, SlipstreamError::Transport(ref m) if m.contains("worker panicked")),
            "got: {err:?}"
        ),
        other => panic!("a panicked worker fails the fetch: {other:?}"),
    }
}

#[test]
fn supervise_reports_worker_error_joined_after_release_finished() {
    let mut s = FetchSupervisor::new(1);
    assert!(matches!(
        s.step(FetchEvent::Released(ReleaseSummary::default())),
        SuperviseStep::Wait
    ));
    match s.step(FetchEvent::WorkerFailed(SlipstreamError::Transport(
        "late failure".into(),
    ))) {
        SuperviseStep::Abort(err) => {
            assert!(err.message().contains("late failure"), "got: {err:?}")
        }
        other => panic!("the late worker error must surface: {other:?}"),
    }
}

#[test]
fn supervise_waits_for_the_last_worker() {
    let mut s = FetchSupervisor::new(1);
    s.step(FetchEvent::Released(ReleaseSummary {
        blocks: 3,
        ..Default::default()
    }));
    assert!(matches!(
        s.step(FetchEvent::WorkerDone),
        SuperviseStep::Done(summary) if summary.blocks == 3
    ));
}

#[test]
fn failures_are_retried_while_there_is_progress() {
    let cause = SlipstreamError::Transport("reset".into());
    let retry = |attempt, emitted| match after_failure(attempt, emitted, 3, 8, (100, 199), &cause) {
        RetryStep::Retry {
            attempt,
            backoff_millis,
        } => Ok((attempt, backoff_millis)),
        RetryStep::GiveUp(e) => Err(e.message()),
    };
    assert_eq!(retry(1, false), Ok((1, 250)));
    assert_eq!(retry(2, false), Ok((2, 500)));
    assert_eq!(retry(3, false), Ok((3, 1000)));
    assert_eq!(
        retry(4, false),
        Err("transport: plan chunk 8 (100..199) failed after 4 zero-progress attempts: transport: reset".into())
    );
    assert_eq!(retry(4, true), Ok((0, 250)));
    match after_failure(50, false, 100, 0, (0, 0), &cause) {
        RetryStep::Retry { backoff_millis, .. } => assert_eq!(backoff_millis, 256_000),
        other => panic!("{other:?}"),
    }
}

#[test]
fn fetch_is_complete_with_all_plan_chunks() {
    let summary = |plans_released| ReleaseSummary {
        blocks: 5,
        bytes: 6,
        plans_released,
        wire_samples: vec![(1, 2)],
    };
    let stats = complete_fetch(summary(4), 4, 9).expect("complete");
    assert_eq!((stats.blocks, stats.bytes, stats.elapsed_nanos), (5, 6, 9));
    assert_eq!(stats.wire_samples, vec![(1, 2)]);
    assert_eq!(
        complete_fetch(summary(3), 4, 9).unwrap_err().message(),
        "transport: fetch incomplete: released 3/4 plan chunks"
    );
}

#[test]
fn worst_window_is_the_slowest() {
    let stats = |wire_samples| FetchStats {
        wire_samples,
        ..Default::default()
    };
    // 100 bytes in five seconds, 10 in the next six, 1000 in the next five.
    let s = stats(vec![
        (5 * SECOND, 100),
        (11 * SECOND, 110),
        (16 * SECOND, 1110),
    ]);
    assert_eq!(
        s.worst_window_mbps(5 * SECOND),
        WireWindow {
            bytes: 10,
            nanos: 6 * SECOND
        }
    );
    // The slowest span need not end at the first arrival that closes it.
    let s = stats(vec![(5 * SECOND, 41_943_040), (8 * SECOND, 41_943_040)]);
    assert_eq!(
        s.worst_window_mbps(5 * SECOND),
        WireWindow {
            bytes: 41_943_040,
            nanos: 8 * SECOND
        }
    );
}

#[test]
fn fetch_shorter_than_the_window_is_rated_as_a_whole() {
    let whole = WireWindow {
        bytes: 12,
        nanos: 3 * SECOND,
    };
    for wire_samples in [vec![], vec![(SECOND, 10), (2 * SECOND, 12)]] {
        let s = FetchStats {
            bytes: 12,
            elapsed_nanos: 3 * SECOND,
            wire_samples,
            ..Default::default()
        };
        assert_eq!(s.worst_window_mbps(5 * SECOND), whole);
    }
}

#[test]
fn streams_are_named_in_requests_and_failures() {
    let cursor = PlanChunkCursor::new(4, 100, 119);
    assert_eq!(cursor.request_name(), "get_block_range 100..119");
    let pump = Pump::start(&cursor, 2500);
    match pump.silent(30) {
        SlipstreamError::Transport(m) => assert_eq!(
            m,
            "block stream 100..119 (plan chunk 4): stream idle timeout (30s without a message)"
        ),
        other => panic!("{other:?}"),
    }
    match pump.broken("reset") {
        SlipstreamError::Transport(m) => {
            assert_eq!(m, "block stream 100..119 (plan chunk 4): reset")
        }
        other => panic!("{other:?}"),
    }
}

#[test]
fn plan_reaches_the_last_height() {
    let plan = FetchPlan::new(u64::MAX - 25, u64::MAX, 10, 1);
    assert_eq!(plan.chunk_count(), 3);
    assert_eq!(plan.chunk_range(0), (u64::MAX - 25, u64::MAX - 16));
    assert_eq!(plan.chunk_range(2), (u64::MAX - 5, u64::MAX));
    assert_eq!(plan.split_bytes, EngineConfig::DEFAULT_CHUNK_SPLIT_BYTES);
}
