//! Progress counters, writers, snapshots of the engine.
use zodl_slipstream::events::{
    Coverage, WalletWriterGate, FLOOR_REBASELINE_EPSILON_PERMILLE,
};
use zodl_slipstream::{Progress, Snapshot};

#[test]
fn writer_gate_counts_and_releases_on_drop() {
    let mut p = Progress::default();
    assert_eq!(p.wallet_writers(), 0);
    {
        let gate = WalletWriterGate::hold(&mut p);
        assert_eq!(gate.progress.wallet_writers(), 1);
        {
            let nested = WalletWriterGate::hold(&mut *gate.progress);
            assert_eq!(nested.progress.wallet_writers(), 2);
        }
        assert_eq!(gate.progress.wallet_writers(), 1);
        gate.progress.add_scanned_at(7, 5);
    }
    assert_eq!(p.wallet_writers(), 0);
    assert_eq!((p.scanned(), p.last_progress_unix_secs()), (7, 5));
}

#[test]
fn writer_gate_releases_on_an_early_return() {
    fn write(p: &mut Progress, fails: bool) -> Result<usize, String> {
        let gate = WalletWriterGate::hold(p);
        if fails {
            return Err("disk full".to_string());
        }
        Ok(gate.progress.wallet_writers())
    }
    let mut p = Progress::default();
    assert_eq!(write(&mut p, false), Ok(1));
    assert!(write(&mut p, true).is_err());
    assert_eq!(p.wallet_writers(), 0);
}

#[test]
fn counters_stamp_a_given_second() {
    let mut p = Progress::default();
    p.add_fetched_at(1, 10);
    assert_eq!((p.fetched(), p.last_progress_unix_secs()), (1, 10));
    p.add_scanned_at(2, 11);
    assert_eq!((p.scanned(), p.last_progress_unix_secs()), (2, 11));
    p.add_enhanced_at(3, 12);
    assert_eq!((p.enhanced(), p.last_progress_unix_secs()), (3, 12));
    p.note_tip_refreshed_at(13);
    assert_eq!((p.tip_refreshes(), p.last_progress_unix_secs()), (1, 13));
    p.bump_tx_set_version_at(14);
    assert_eq!((p.tx_set_version(), p.last_progress_unix_secs()), (1, 14));
    p.add_reorg_at(15);
    assert_eq!((p.reorgs(), p.last_progress_unix_secs()), (1, 15));
    p.add_ranges_completed_at(16);
    assert_eq!((p.ranges_completed(), p.last_progress_unix_secs()), (1, 16));
    p.begin_pass_at(17);
    assert_eq!((p.scanned(), p.last_progress_unix_secs()), (0, 17));
}

#[test]
fn snapshot_default_is_idle_zeroes() {
    let s = Snapshot::default();
    assert_eq!(
        s.coverage,
        Coverage {
            covered: 0,
            whole: 0
        }
    );
    assert_eq!(s.bound, None);
}

#[test]
fn progress_counters_bump_and_read() {
    let mut p = Progress::default();

    // Initial state: all zeros.
    assert_eq!(p.chain_tip(), 0);
    assert_eq!(p.fetched(), 0);
    assert_eq!(p.scanned(), 0);
    assert_eq!(p.enhanced(), 0);
    assert_eq!(p.range_end(), 0);
    assert_eq!(p.reorgs(), 0);
    assert_eq!(p.pass_total(), 0);
    assert_eq!(p.spendable(), 0);
    assert_eq!(p.ranges_completed(), 0);

    // Set helpers.
    p.set_chain_tip(3_373_435);
    assert_eq!(p.chain_tip(), 3_373_435);

    p.set_range_end(3_323_500);
    assert_eq!(p.range_end(), 3_323_500);

    // Additive helpers.
    p.add_fetched(1_000);
    p.add_fetched(500);
    assert_eq!(p.fetched(), 1_500);

    p.add_scanned(800);
    assert_eq!(p.scanned(), 800);

    p.add_enhanced(3);
    assert_eq!(p.enhanced(), 3);

    p.add_reorg();
    p.add_reorg();
    assert_eq!(p.reorgs(), 2);
}

#[test]
fn progress_pass_total_and_spendable_hint() {
    let mut p = Progress::default();

    // Initial state: both zero.
    assert_eq!(p.pass_total(), 0);
    assert_eq!(p.spendable(), 0);

    // set_pass_total stores (not accumulates).
    p.set_pass_total(15_000);
    assert_eq!(p.pass_total(), 15_000);
    p.set_pass_total(15_000);
    assert_eq!(
        p.pass_total(),
        15_000,
        "re-suggest with same total stays stable"
    );
    p.set_pass_total(20_000);
    assert_eq!(
        p.pass_total(),
        20_000,
        "set_pass_total must overwrite, not add"
    );
    p.add_pass_total(7);
    assert_eq!(p.pass_total(), 7, "so must add_pass_total");

    // spendable latches to 1 and stays there.
    assert_eq!(p.spendable(), 0, "not yet spendable before set_spendable()");
    p.set_spendable();
    assert_eq!(
        p.spendable(),
        1,
        "spendable must be 1 after set_spendable()"
    );
    p.set_spendable(); // idempotent
    assert_eq!(p.spendable(), 1, "set_spendable is idempotent");
}

#[test]
fn pass_total_is_whole_pass() {
    let mut p = Progress::default();

    // First suggest: 0 scanned + 100 (ChainTip) + 200 (Historic) = 300.
    p.set_pass_total(300);
    assert_eq!(
        p.pass_total(),
        300,
        "whole-pass denominator set on first suggest"
    );

    // Scan ChainTip range.
    p.add_scanned(100);

    // Re-suggest: 100 scanned + 200 remaining = 300.
    p.set_pass_total(300);
    assert_eq!(
        p.pass_total(),
        300,
        "denominator stays 300 after re-suggest"
    );

    let ratio = p.scanned() as f64 / p.pass_total() as f64;
    assert!(
        (ratio - 1.0 / 3.0).abs() < 1e-9,
        "progress must be ~33.3% mid-pass"
    );

    // Scan Historic range.
    p.add_scanned(200);
    let final_ratio = p.scanned() as f64 / p.pass_total() as f64;
    assert!(
        (final_ratio - 1.0).abs() < 1e-9,
        "progress must be 100% when all ranges done"
    );
}

#[test]
fn counter_progress_ratio() {
    let mut p = Progress::default();
    p.set_pass_total(10_000);
    p.add_scanned(5_000);

    let ratio = p.scanned() as f64 / p.pass_total().max(1) as f64;
    assert!((ratio - 0.5).abs() < 1e-9, "5000/10000 must be 0.5");

    // pass_total == 0 edge: denominator is max(0, 1) = 1 → ratio = 0.
    let p2 = Progress::default();
    let ratio2 = p2.scanned() as f64 / p2.pass_total().max(1) as f64;
    assert_eq!(ratio2, 0.0, "0 scanned / 1 (clamped) must be 0.0");
}

#[test]
fn ranges_completed_increments() {
    let mut p = Progress::default();
    assert_eq!(p.ranges_completed(), 0, "initial value must be 0");

    p.add_ranges_completed();
    assert_eq!(p.ranges_completed(), 1, "must be 1 after first range");

    p.add_ranges_completed();
    assert_eq!(p.ranges_completed(), 2, "must be 2 after second range");

    for _ in 0..10 {
        p.add_ranges_completed();
    }
    assert_eq!(
        p.ranges_completed(),
        12,
        "must accumulate across all ranges"
    );
}

#[test]
fn begin_pass_resets_ratio_counters_only() {
    let mut p = Progress::default();

    // Pass 1: interrupted mid-restore.
    p.set_chain_tip(3_374_188);
    p.add_fetched(120_000);
    p.add_scanned(100_000);
    p.set_pass_total(269_188);
    p.set_range_end(3_321_165);
    p.set_spendable();
    p.add_enhanced(20);
    p.add_ranges_completed();
    p.add_reorg();
    p.note_tip_refreshed();
    p.bump_tx_set_version();
    p.bump_tx_set_version();

    // Pass 2 begins on the same handle.
    p.begin_pass();

    assert_eq!(p.scanned(), 0, "scanned must reset per pass");
    assert_eq!(p.fetched(), 0, "fetched must reset per pass");
    assert_eq!(p.pass_total(), 0, "pass_total must reset per pass");
    assert_eq!(p.range_end(), 0, "range_end must reset per pass");
    assert_eq!(p.spendable(), 0, "spendable latch re-arms each pass");

    assert_eq!(p.enhanced(), 20, "enhanced_txs is monotonic per handle");
    assert_eq!(
        p.ranges_completed(),
        1,
        "ranges_completed is monotonic per handle"
    );
    assert_eq!(p.reorgs(), 1, "reorgs_recovered is cumulative diagnostics");
    assert_eq!(
        p.chain_tip(),
        3_374_188,
        "chain_tip is overwritten by the new pass anyway"
    );
    assert_eq!(
        p.tip_refreshes(),
        1,
        "tip_refreshes is monotonic per handle"
    );
    assert_eq!(
        p.tx_set_version(),
        2,
        "tx_set_version is monotonic per handle"
    );
}

#[test]
fn floor_rebaseline_on_scope_expansion_only() {
    let mut p = Progress::default();
    assert_eq!(p.permille_floor(990), 990);
    // Within-scope drift up to the epsilon never re-baselines.
    assert!(
        !p.rebaseline_floor_if_scope_expanded(989),
        "1‰ dip is noise"
    );
    assert!(
        !p.rebaseline_floor_if_scope_expanded(990 - FLOOR_REBASELINE_EPSILON_PERMILLE),
        "exactly-epsilon dip is still within scope"
    );
    assert_eq!(p.permille_floor(0), 990, "floor held through noise");
    // The seed plummets → re-baseline to the truth.
    assert!(
        p.rebaseline_floor_if_scope_expanded(120),
        "material drop = scope expansion"
    );
    assert_eq!(
        p.permille_floor(0),
        120,
        "floor re-baselined to the expanded-scope seed"
    );
    // …and climbs monotonically again within the new scope.
    assert_eq!(p.permille_floor(300), 300);
}

#[test]
fn counters_stamp_the_clock() {
    let mut p = Progress::default();
    p.touch_at(17);
    assert_eq!(p.last_progress_unix_secs(), 17);
    p.set_chain_tip(1);
    p.set_pass_total(1);
    assert_eq!(p.last_progress_unix_secs(), 17, "setters are no progress");
    p.add_scanned(1);
    assert!(p.last_progress_unix_secs() > 1_700_000_000);
    p.touch_at(17);
    p.note_tip_refreshed();
    assert!(p.last_progress_unix_secs() > 1_700_000_000);
    p.touch_at(17);
    p.add_reorg();
    assert!(p.last_progress_unix_secs() > 1_700_000_000);
    assert!(!p.recovering());
    p.set_recovering(true);
    assert!(p.recovering());
    p.set_recovering(false);
    assert!(!p.recovering());
}

#[test]
fn counters_wrap() {
    let mut p = Progress::default();
    p.add_fetched(u64::MAX);
    p.add_fetched(2);
    assert_eq!(p.fetched(), 1);
}
