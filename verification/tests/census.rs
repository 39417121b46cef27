//! The shard census and the benchmark's summary.
use zodl_slipstream::census::{BenchSummary, Fraction, PoolCensusOut, ShardCensus};

fn value(f: Fraction) -> f64 {
    f.numerator as f64 / f.denominator as f64
}

#[test]
fn census_counts_shards_and_notes() {
    let mut c = ShardCensus::default();
    // 2 commitments at the end of shard 0, 3 into shard 1; one note in shard 1.
    c.feed(65534, 5, &vec![65537]);
    assert_eq!(c.shards(), 2);
    assert_eq!(c.noted_shards(), 1);
    assert_eq!(c.commitments, 5);
    // shard 1 noted + tip discount → nothing graftable of the 2.
    assert!(value(c.graftable_fraction()) <= 0.5);
}

#[test]
fn census_graftable_fraction_typical() {
    let mut c = ShardCensus::default();
    // 10 full shards, single note in shard 0 → 10 touched, 1 noted, 1 tip → 8/10.
    c.feed(0, 65536 * 10, &vec![5]);
    assert!((value(c.graftable_fraction()) - 0.8).abs() < 1e-9);
    assert_eq!(
        c.graftable_fraction(),
        Fraction {
            numerator: 8,
            denominator: 10
        }
    );
}

#[test]
fn census_merge_unions() {
    let mut a = ShardCensus::default();
    a.feed(0, 65536, &vec![]);
    let mut b = ShardCensus::default();
    b.feed(65536, 65536, &vec![65540]);
    a.merge(&b);
    assert_eq!(a.shards(), 2);
    assert_eq!(a.noted_shards(), 1);
    assert_eq!(a.commitments, 131_072);
    a.merge(&b);
    assert_eq!(a.shards(), 2, "a shard counts once");
}

#[test]
fn census_empty_is_zero() {
    let mut c = ShardCensus::default();
    assert_eq!(c.shards(), 0);
    assert_eq!(value(c.graftable_fraction()), 0.0);
    c.feed(7, 0, &vec![]);
    assert_eq!(c.shards(), 0, "no commitments touch nothing");
}

#[test]
fn census_of_adjacent_runs_is_that_of_the_whole() {
    let mut parts = ShardCensus::default();
    parts.feed(100, 70_000, &vec![]);
    parts.feed(70_100, 70_000, &vec![]);
    let mut whole = ShardCensus::default();
    whole.feed(100, 140_000, &vec![]);
    assert_eq!(parts.touched, whole.touched);
    assert_eq!(parts.commitments, whole.commitments);
}

#[test]
fn bench_summary_json_shape() {
    let pool = || PoolCensusOut {
        shards: 3,
        noted_shards: 1,
        commitments: 42,
        graftable_fraction: format!("{}", 0.5),
    };
    let f = |v: f64| format!("{v}");
    let s = BenchSummary {
        engine_build: "test-build".into(),
        total_s: f(1.5),
        fetch_s: f(0.25),
        wire_mbps_avg: f(12.5),
        wire_worst_5s_mbps: f(8.0),
        wire_probe_ms: f(850.0),
        wire_switches: 1,
        scan_s: f(1.0),
        enhance_s: f(0.125),
        persist_wait_s: f(0.0),
        persist_overlap_s: f(0.5),
        blocks: 100,
        batch_epk_s: f(0.05),
        scan_recv_wait_s: f(0.1),
        scan_call_s: f(0.8),
        scan_prefetch_wait_s: f(0.05),
        scan_interleave_drain_s: f(0.03),
        scan_final_drain_s: f(0.02),
        scan_absorb_s: f(0.07),
        scan_state_prep_s: f(0.04),
        scan_prefetch_spawn_s: f(0.01),
        scan_submit_wait_s: f(0.02),
        scan_submit_extra_s: f(0.01),
        scan_reseed_s: f(0.03),
        scan_pass1_s: f(0.15),
        scan_pass2_s: f(0.65),
        persist_calls: 30,
        persist_rows_s: f(0.5),
        persist_tree_join_s: f(0.9),
        persist_flush_s: f(0.1),
        persist_downgrade_s: f(0.2),
        persist_build_s: f(0.4),
        persist_frontier_s: f(0.15),
        persist_insert_s: f(0.1),
        persist_ensure_s: f(0.05),
        persist_downgraded: 59000,
        enhance_fetch_s: f(0.06),
        enhance_store_s: f(0.04),
        enhance_address_s: f(0.01),
        sapling: pool(),
        orchard: pool(),
    };
    let j = s.to_json();
    assert!(j.starts_with('{') && j.ends_with('}'), "json shape: {j}");
    for key in [
        "\"engine_build\":\"test-build\"",
        "\"total_s\":1.5",
        "\"wire_mbps_avg\":12.5",
        "\"wire_worst_5s_mbps\":8",
        "\"wire_probe_ms\":850",
        "\"wire_switches\":1",
        "\"blocks\":100",
        "\"batch_epk_s\":0.05",
        "\"scan_call_s\":0.8",
        "\"scan_pass1_s\":0.15",
        "\"scan_pass2_s\":0.65",
        "\"enhance_fetch_s\":0.06",
        "\"orchard\":{",
        "\"graftable_fraction\":0.5",
        "\"commitments\":42",
    ] {
        assert!(j.contains(key), "missing {key} in {j}");
    }
    assert_eq!(
        j,
        "{\"engine_build\":\"test-build\",\"total_s\":1.5,\"fetch_s\":0.25,\"wire_mbps_avg\":12.5,\"wire_worst_5s_mbps\":8,\"wire_probe_ms\":850,\"wire_switches\":1,\"scan_s\":1,\"enhance_s\":0.125,\"persist_wait_s\":0,\"persist_overlap_s\":0.5,\"blocks\":100,\"batch_epk_s\":0.05,\"scan_recv_wait_s\":0.1,\"scan_call_s\":0.8,\"scan_prefetch_wait_s\":0.05,\"scan_interleave_drain_s\":0.03,\"scan_final_drain_s\":0.02,\"scan_absorb_s\":0.07,\"scan_state_prep_s\":0.04,\"scan_prefetch_spawn_s\":0.01,\"scan_submit_wait_s\":0.02,\"scan_submit_extra_s\":0.01,\"scan_reseed_s\":0.03,\"scan_pass1_s\":0.15,\"scan_pass2_s\":0.65,\"persist_calls\":30,\"persist_rows_s\":0.5,\"persist_tree_join_s\":0.9,\"persist_flush_s\":0.1,\"persist_downgrade_s\":0.2,\"persist_build_s\":0.4,\"persist_frontier_s\":0.15,\"persist_insert_s\":0.1,\"persist_ensure_s\":0.05,\"persist_downgraded\":59000,\"enhance_fetch_s\":0.06,\"enhance_store_s\":0.04,\"enhance_address_s\":0.01,\"sapling\":{\"shards\":3,\"noted_shards\":1,\"commitments\":42,\"graftable_fraction\":0.5},\"orchard\":{\"shards\":3,\"noted_shards\":1,\"commitments\":42,\"graftable_fraction\":0.5}}"
    );
}
