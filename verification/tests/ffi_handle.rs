//! The host's handle: snapshots and the event ring.
use zodl_slipstream::config::Endpoint;
use zodl_slipstream::ffi_handle::{
    derive_snapshot, derive_snapshot_at, push_event_bounded, FfiSlipstreamEvent,
    FfiSlipstreamSnapshot, SlipstreamHandle, SyncState, TaskEnd, EVENT_RING_CAP,
};
use zodl_slipstream::{Network, Progress};

fn handle(state: SyncState, progress: Progress) -> SlipstreamHandle {
    SlipstreamHandle {
        progress,
        state,
        events: Vec::new(),
        endpoint: Endpoint {
            host: "localhost".into(),
            port: 9067,
            tls: false,
        },
        wallet_db_path: "/tmp/test.db".into(),
        network: Network::TestNetwork,
        total_memory_bytes: 0,
    }
}

#[test]
fn ring_overflow_evicts_droppable_before_critical() {
    let mut ring: Vec<FfiSlipstreamEvent> = Vec::new();
    // 3 criticals first (found-transactions), then fill the rest with progress.
    for i in 0..3 {
        push_event_bounded(&mut ring, FfiSlipstreamEvent { tag: 5, value: i });
    }
    for i in 0..(EVENT_RING_CAP - 3) {
        push_event_bounded(
            &mut ring,
            FfiSlipstreamEvent {
                tag: 2,
                value: i as u64,
            },
        );
    }
    assert_eq!(ring.len(), EVENT_RING_CAP);
    // The oldest PROGRESS event (value 0) must go, all 3 early criticals must survive,
    // and the new critical must be at the tail.
    push_event_bounded(&mut ring, FfiSlipstreamEvent { tag: 4, value: 9 });
    assert_eq!(ring.len(), EVENT_RING_CAP);
    assert_eq!(
        ring.iter().filter(|e| e.tag == 5).count(),
        3,
        "early criticals survive"
    );
    assert!(
        !ring.iter().any(|e| e.tag == 2 && e.value == 0),
        "oldest droppable evicted, not position 0"
    );
    let last = ring.last().unwrap();
    assert_eq!((last.tag, last.value), (4, 9));
}

#[test]
fn ring_overflow_all_critical_falls_back_to_oldest() {
    let mut ring: Vec<FfiSlipstreamEvent> = Vec::new();
    for i in 0..EVENT_RING_CAP {
        push_event_bounded(
            &mut ring,
            FfiSlipstreamEvent {
                tag: 5,
                value: i as u64,
            },
        );
    }
    push_event_bounded(&mut ring, FfiSlipstreamEvent { tag: 3, value: 7 });
    assert_eq!(ring.len(), EVENT_RING_CAP);
    assert!(
        !ring.iter().any(|e| e.value == 0 && e.tag == 5),
        "oldest critical evicted"
    );
    let last = ring.last().unwrap();
    assert_eq!((last.tag, last.value), (3, 7));
}

#[test]
fn ffi_snapshot_default_is_zero() {
    let s = FfiSlipstreamSnapshot::default();
    assert_eq!(s.chain_tip, 0);
    assert_eq!(s.fetched_blocks, 0);
    assert_eq!(s.scanned_blocks, 0);
    assert_eq!(s.enhanced_txs, 0);
    assert_eq!(s.current_range_end, 0);
    assert_eq!(s.state, 0);
    assert_eq!(
        s.pass_total_blocks, 0,
        "pass_total_blocks default must be 0"
    );
    assert_eq!(s.spendable_hint, 0, "spendable_hint default must be 0");
    assert_eq!(s.ranges_completed, 0, "ranges_completed default must be 0");
    assert_eq!(s.is_recovering, 0, "is_recovering default must be 0");
    assert_eq!(
        s.progress_permille, 0,
        "progress_permille default must be 0"
    );
    assert_eq!(s.stalled_seconds, 0, "stalled_seconds default must be 0");
    assert_eq!(s.tx_set_version, 0, "tx_set_version default must be 0");
}

#[test]
fn permille_floor_is_monotonic_and_clamped() {
    let mut p = Progress::default();
    assert_eq!(p.permille_floor(300), 300);
    assert_eq!(p.permille_floor(100), 300, "regression must hold the floor");
    assert_eq!(p.permille_floor(999), 999);
    assert_eq!(p.permille_floor(5000), 1000, "raw clamps to 1000");
    assert_eq!(p.permille_floor(0), 1000, "floor persists at max");
}

#[test]
fn snapshot_terminal_states_apply_v2_latches() {
    // Syncing + recovering flag set → surfaces as recovering, permille from counters.
    let mut p1 = Progress::default();
    p1.set_recovering(true);
    p1.set_pass_total(1000);
    p1.add_scanned(250);
    let mut h = handle(SyncState::Syncing, p1);
    let snap = h.snapshot();
    assert_eq!(snap.is_recovering, 1);
    assert_eq!(snap.progress_permille, 250);

    // Error → latch forces NOT recovering even though the live flag is still true.
    h.state = SyncState::Error(2);
    let snap = h.snapshot();
    assert_eq!(
        snap.is_recovering, 0,
        "Error must release the recovery gate"
    );
    assert_eq!(
        snap.stalled_seconds, 0,
        "stall clock only ticks while Syncing"
    );

    // Done → recovery off AND progress forced to (and floored at) 1000.
    h.state = SyncState::Done;
    let snap = h.snapshot();
    assert_eq!(snap.is_recovering, 0, "Done must clear recovering");
    assert_eq!(
        snap.progress_permille, 1000,
        "Done must complete the progress"
    );
}

#[test]
fn ffi_snapshot_counter_fields_roundtrip() {
    let mut h = handle(SyncState::Syncing, Progress::default());
    h.progress.set_pass_total(15_000);
    h.progress.add_scanned(7_500);
    h.progress.set_spendable();
    h.progress.add_ranges_completed(); // range 1 done
    h.progress.add_ranges_completed(); // range 2 done

    let snap = h.snapshot();
    assert_eq!(
        snap.pass_total_blocks, 15_000,
        "pass_total_blocks must equal set_pass_total value"
    );
    assert_eq!(
        snap.spendable_hint, 1,
        "spendable_hint must be 1 after set_spendable()"
    );
    assert_eq!(
        snap.scanned_blocks, 7_500,
        "scanned_blocks must equal add_scanned total"
    );
    assert_eq!(snap.state, 1, "state must be 1 (Syncing)");
    assert_eq!(
        snap.ranges_completed, 2,
        "ranges_completed must reflect add_ranges_completed calls"
    );
}

#[test]
fn ffi_snapshot_ranges_completed_roundtrip() {
    let mut h = handle(SyncState::Idle, Progress::default());
    assert_eq!(h.snapshot().ranges_completed, 0, "initial value must be 0");
    h.progress.add_ranges_completed();
    assert_eq!(
        h.snapshot().ranges_completed,
        1,
        "must be 1 after first range"
    );
    h.progress.add_ranges_completed();
    h.progress.add_ranges_completed();
    assert_eq!(
        h.snapshot().ranges_completed,
        3,
        "must be 3 after three ranges"
    );
}

#[test]
fn event_ring_cap_at_64() {
    let mut h = handle(SyncState::Idle, Progress::default());
    // Push 70 events — only the last 64 should survive.
    for i in 0u64..70 {
        h.push_event(FfiSlipstreamEvent { tag: 1, value: i });
    }
    assert_eq!(h.events.len(), EVENT_RING_CAP);
    // The oldest 6 (values 0..5) were dropped; first kept value is 6.
    assert_eq!(h.events[0].value, 6);
    // Last kept value is 69.
    assert_eq!(h.events[EVENT_RING_CAP - 1].value, 69);
}

#[test]
fn supervisor_converts_panic_to_error_state() {
    let mut h = handle(SyncState::Syncing, Progress::default());
    h.task_ended(TaskEnd::Panicked);
    assert_eq!(h.state, SyncState::Error(2), "panic must become Error(2)");
    assert!(
        h.events.iter().any(|e| e.tag == 4 && e.value == 2),
        "panic must push a tag=4/value=2 event, got {:?}",
        h.events
    );
}

#[test]
fn supervisor_ignores_cancellation() {
    let mut h = handle(SyncState::Syncing, Progress::default());
    h.task_ended(TaskEnd::Cancelled);
    assert_eq!(h.state, SyncState::Syncing, "cancel must not write state");
    assert!(h.events.is_empty(), "cancel must not push events");
}

#[test]
fn supervisor_passes_through_normal_completion() {
    let mut h = handle(SyncState::Syncing, Progress::default());
    h.task_ended(TaskEnd::Completed);
    assert_eq!(
        h.state,
        SyncState::Syncing,
        "completion must not write state"
    );
    assert!(h.events.is_empty(), "completion must not push events");
}

#[test]
fn event_ring_drain_is_atomic() {
    let mut h = handle(SyncState::Idle, Progress::default());
    h.push_event(FfiSlipstreamEvent { tag: 1, value: 10 });
    h.push_event(FfiSlipstreamEvent { tag: 3, value: 2 });

    let drained = h.drain_events();
    assert_eq!(drained.len(), 2);
    assert_eq!(drained[0].value, 10);
    assert_eq!(drained[1].value, 2);

    // Ring must be empty after drain.
    assert!(h.events.is_empty());
}

#[test]
fn stall_clock_counts_while_syncing() {
    let mut p = Progress::default();
    assert_eq!(
        derive_snapshot_at(&mut p, SyncState::Syncing, 500).stalled_seconds,
        0,
        "nothing before the first stamp"
    );
    p.touch_at(100);
    assert_eq!(
        derive_snapshot_at(&mut p, SyncState::Syncing, 130).stalled_seconds,
        30
    );
    assert_eq!(
        derive_snapshot_at(&mut p, SyncState::Syncing, 90).stalled_seconds,
        0
    );
    assert_eq!(
        derive_snapshot_at(&mut p, SyncState::Syncing, u64::MAX).stalled_seconds,
        u32::MAX
    );
    assert_eq!(
        derive_snapshot_at(&mut p, SyncState::Done, 130).stalled_seconds,
        0
    );
    assert_eq!(derive_snapshot(&mut p, SyncState::Idle).stalled_seconds, 0);
    assert!(derive_snapshot(&mut p, SyncState::Syncing).stalled_seconds > 1_000_000);
}

#[test]
fn snapshots_never_regress() {
    let mut p = Progress::default();
    p.set_pass_total(100);
    p.add_scanned(80);
    assert_eq!(
        derive_snapshot_at(&mut p, SyncState::Syncing, 0).progress_permille,
        800
    );
    p.begin_pass();
    assert_eq!(
        derive_snapshot_at(&mut p, SyncState::Syncing, 0).progress_permille,
        800
    );
    p.add_scanned(u64::MAX);
    p.set_pass_total(1);
    assert_eq!(
        derive_snapshot_at(&mut p, SyncState::Syncing, 0).progress_permille,
        1000
    );
    assert_eq!(derive_snapshot_at(&mut p, SyncState::Error(9), 0).state, 2);
    assert_eq!(derive_snapshot_at(&mut p, SyncState::Done, 0).state, 3);
}

#[test]
fn criticals_keep_their_order() {
    let mut ring: Vec<FfiSlipstreamEvent> = Vec::new();
    for i in 0..EVENT_RING_CAP as u64 {
        let tag = if i % 2 == 0 { 3 } else { 2 };
        push_event_bounded(&mut ring, FfiSlipstreamEvent { tag, value: i });
    }
    let mut expected: Vec<u64> = (0..EVENT_RING_CAP as u64).filter(|i| i % 2 == 0).collect();
    for i in 0..10 {
        push_event_bounded(&mut ring, FfiSlipstreamEvent { tag: 5, value: 1000 + i });
        expected.push(1000 + i);
    }
    assert_eq!(ring.len(), EVENT_RING_CAP);
    let criticals: Vec<u64> = ring.iter().filter(|e| e.tag > 2).map(|e| e.value).collect();
    assert_eq!(criticals, expected);
}
