//! The sync pass: time, preflight, order of steps, failover.
use zodl_slipstream::config::{Endpoint, EngineConfig};
use zodl_slipstream::engine::{
    format_utc, preflight, should_resync, wall_clock_utc, Failover, PassEvent, PassStage,
    SyncOutcome, SyncPass, SyncReport, TransparentStats, ENGINE_BUILD, MAX_WIRE_SWITCHES,
};
use zodl_slipstream::enhance::EnhanceStats;
use zodl_slipstream::error::WireRate;
use zodl_slipstream::{Network, Progress, SlipstreamError, SlipstreamNetwork};

#[test]
fn format_utc_known_values() {
    assert_eq!(format_utc(0), "1970-01-01 00:00:00Z");
    assert_eq!(format_utc(1_700_000_000), "2023-11-14 22:13:20Z");
    // Leap-year day: 2024-02-29 12:00:00 UTC.
    assert_eq!(format_utc(1_709_208_000), "2024-02-29 12:00:00Z");
    // End-of-year boundary: 2025-12-31 23:59:59 UTC.
    assert_eq!(format_utc(1_767_225_599), "2025-12-31 23:59:59Z");
}

#[test]
fn format_utc_century_boundaries() {
    assert_eq!(format_utc(951_782_400), "2000-02-29 00:00:00Z");
    assert_eq!(format_utc(951_868_800), "2000-03-01 00:00:00Z");
    assert_eq!(format_utc(4_107_542_399), "2100-02-28 23:59:59Z");
    assert_eq!(format_utc(4_107_542_400), "2100-03-01 00:00:00Z");
    assert_eq!(format_utc(253_402_300_799), "9999-12-31 23:59:59Z");
    assert_eq!(format_utc(253_402_300_800), "10000-01-01 00:00:00Z");
    assert!(format_utc(u64::MAX).ends_with("Z"));
}

#[test]
fn format_utc_days_follow_each_other() {
    let month_lengths = |leap: bool| {
        [31, if leap { 29 } else { 28 }, 31, 30, 31, 30, 31, 31, 30, 31, 30, 31]
    };
    let mut day: u64 = 0;
    for year in 1970u64..2420 {
        let leap = year % 4 == 0 && (year % 100 != 0 || year % 400 == 0);
        for (m, len) in month_lengths(leap).iter().enumerate() {
            for d in 1..=*len {
                if d == 1 || d == *len {
                    assert_eq!(
                        format_utc(day * 86_400),
                        format!("{year:04}-{:02}-{d:02} 00:00:00Z", m + 1)
                    );
                }
                day += 1;
            }
        }
    }
}

#[test]
fn format_utc_texts_sort_as_the_seconds_do() {
    let points = [
        0, 1, 59, 60, 3_599, 3_600, 86_399, 86_400, 951_782_399, 951_782_400, 1_700_000_000,
        4_107_542_399, 4_107_542_400, 253_402_300_799,
    ];
    for pair in points.windows(2) {
        let (earlier, later) = (format_utc(pair[0]), format_utc(pair[1]));
        assert_eq!((earlier.len(), later.len()), (20, 20));
        assert!(earlier < later, "{earlier} before {later}");
    }
}

#[test]
fn wall_clock_utc_is_well_formed() {
    let s = wall_clock_utc();
    assert_eq!(s.len(), "2026-06-13 00:00:00Z".len());
    assert!(s.ends_with('Z'));
    assert!(s.starts_with("20"), "expected a 21st-century year, got {s}");
}

fn nanos(s: f64) -> u128 {
    (s * 1e9) as u128
}

fn make_outcome(fetch_s: f64, scan_s: f64, enhance_s: f64) -> SyncOutcome {
    let report = SyncReport {
        fetch_elapsed: nanos(fetch_s),
        scan_elapsed: nanos(scan_s),
        ..Default::default()
    };
    SyncOutcome {
        report,
        enhance: EnhanceStats::default(),
        transparent: TransparentStats {
            utxos: 0,
            accounts: 0,
        },
        enhance_elapsed: nanos(enhance_s),
        elapsed: nanos(fetch_s + scan_s + enhance_s),
        chain_tip: 0,
        wire_probe: 0,
        wire_switches: 0,
    }
}

#[test]
fn bound_picks_max_stage() {
    assert_eq!(make_outcome(5.0, 2.0, 1.0).bound(), "fetch");
    assert_eq!(make_outcome(2.0, 5.0, 1.0).bound(), "scan");
    assert_eq!(make_outcome(2.0, 1.0, 5.0).bound(), "enhance");
}

#[test]
fn bound_returns_idle_when_all_tiny() {
    // All < 1 s → idle.
    assert_eq!(make_outcome(0.5, 0.3, 0.1).bound(), "idle");
    assert_eq!(make_outcome(0.999999999, 0.0, 0.0).bound(), "idle");
    assert_eq!(make_outcome(1.0, 0.0, 0.0).bound(), "fetch");
}

#[test]
fn bound_ties_prefer_fetch_then_scan() {
    // Equal fetch=scan=5s, enhance=0 → fetch wins.
    assert_eq!(make_outcome(5.0, 5.0, 0.0).bound(), "fetch");
    // Equal scan=enhance=5s, fetch=0 → scan wins.
    assert_eq!(make_outcome(0.0, 5.0, 5.0).bound(), "scan");
}

#[test]
fn follow_should_resync_only_when_tip_advances() {
    assert!(!should_resync(3_375_000, 3_374_999)); // tip behind (server lag) → no
    assert!(!should_resync(3_375_000, 3_375_000)); // tip equal → no
    assert!(should_resync(3_375_000, 3_375_001)); // tip advanced → yes
    assert!(!should_resync(0, 0));
}

fn ep(host: &str) -> Endpoint {
    Endpoint {
        host: host.into(),
        port: 1,
        tls: false,
    }
}

fn config() -> EngineConfig {
    EngineConfig::new(
        SlipstreamNetwork::from(Network::MainNetwork),
        "/tmp/data.db".into(),
        ep("127.0.0.1"),
    )
}

#[test]
fn birthday_height_zero_is_rejected() {
    let cfg = config();
    let mut p = Progress::default();
    p.set_range_end(9);
    match preflight(&cfg, &vec![0], &mut p, 50) {
        Err(SlipstreamError::Config(m)) => assert_eq!(
            m,
            "birthday must be >= 1 (height 0 is not a valid wallet birthday)"
        ),
        other => panic!("expected Config error for birthday=0, got: {other:?}"),
    }
    assert!(preflight(&cfg, &vec![5, 0], &mut p, 50).is_err());
    assert_eq!(p.range_end(), 9, "a refused pass begins nothing");
    assert_eq!(p.last_progress_unix_secs(), 0);
    let mut bad = config();
    bad.fetch_streams = 0;
    match preflight(&bad, &vec![0], &mut p, 50) {
        Err(SlipstreamError::Config(m)) => assert_eq!(m, "fetch_streams must be >= 1"),
        other => panic!("{other:?}"),
    }
    preflight(&cfg, &vec![1, 5], &mut p, 50).expect("valid birthdays");
    assert_eq!(p.range_end(), 0, "the pass has begun");
    assert_eq!(p.last_progress_unix_secs(), 50, "at this second");
    preflight(&cfg, &vec![], &mut p, 50).expect("a keyless pass is valid");
}

#[test]
fn pass_meets_its_steps_in_order() {
    let cfg = config();
    let mut p = Progress::default();
    let mut pass = SyncPass::new(&cfg, vec![800_000, 1], false, 42);
    assert_eq!(pass.stage, PassStage::CheckAccount(0));
    pass.step(PassEvent::Known(true), &mut p, 60).unwrap();
    assert_eq!(pass.stage, PassStage::CheckAccount(1));
    pass.step(PassEvent::Known(false), &mut p, 60).unwrap();
    assert_eq!(pass.stage, PassStage::FetchTree(1));
    assert_eq!(pass.tree_height(1), 0);
    assert_eq!(pass.tree_height(0), 799_999);
    assert_eq!(p.last_progress_unix_secs(), 0);
    pass.step(PassEvent::Done, &mut p, 60).unwrap();
    assert_eq!(p.last_progress_unix_secs(), 60, "a server's answer is progress");
    assert_eq!(pass.stage, PassStage::ImportAccount(1));
    for stage in [
        PassStage::FetchRoots,
        PassStage::StoreRoots,
        PassStage::FetchTip,
    ] {
        pass.step(PassEvent::Done, &mut p, 60).unwrap();
        assert_eq!(pass.stage, stage);
    }
    pass.step(PassEvent::Tip(3_000_000), &mut p, 60).unwrap();
    assert_eq!(pass.stage, PassStage::StoreTip(3_000_000));
    assert_eq!(p.chain_tip(), 0, "a tip counts once it is stored");
    assert_eq!(p.tip_refreshes(), 0);
    pass.step(PassEvent::Done, &mut p, 60).unwrap();
    assert_eq!(p.chain_tip(), 3_000_000);
    assert_eq!(p.tip_refreshes(), 1);
    assert_eq!(pass.stage, PassStage::RefreshUtxos);
    let t = TransparentStats {
        utxos: 3,
        accounts: 2,
    };
    pass.step(PassEvent::Utxos(t), &mut p, 60).unwrap();
    assert_eq!(pass.stage, PassStage::Scan);
    let report = SyncReport {
        enhance: EnhanceStats {
            requests: 1,
            txs_stored: 2,
            statuses_set: 3,
            skipped: 4,
            fetch_wait: 5,
            store: 6,
            address: 7,
        },
        enhance_elapsed: 100,
        ..Default::default()
    };
    pass.step(PassEvent::Scanned(report), &mut p, 60).unwrap();
    assert_eq!(pass.stage, PassStage::Enhance);
    let last = EnhanceStats {
        requests: 10,
        txs_stored: 20,
        statuses_set: 30,
        skipped: 40,
        fetch_wait: 50,
        store: 60,
        address: 70,
    };
    pass.step(PassEvent::Enhanced(last, 11), &mut p, 60).unwrap();
    assert_eq!(pass.stage, PassStage::Finished);
    let o = pass.outcome(999);
    assert_eq!(o.chain_tip, 3_000_000);
    assert_eq!(o.transparent, t);
    assert_eq!(o.enhance_elapsed, 111);
    assert_eq!(o.elapsed, 999);
    assert_eq!(o.wire_probe, 42);
    assert_eq!(o.wire_switches, 0);
    assert_eq!(
        o.enhance,
        EnhanceStats {
            requests: 11,
            txs_stored: 22,
            statuses_set: 33,
            skipped: 44,
            fetch_wait: 55,
            store: 66,
            address: 77,
        }
    );
    assert_eq!(o.report.enhance, o.enhance);
}

fn collapse() -> PassEvent {
    PassEvent::Failed(SlipstreamError::WireCollapse {
        measured_mbps: WireRate {
            bytes_per_kilosecond: 0,
        },
        floor_mbps: WireRate {
            bytes_per_kilosecond: 0,
        },
    })
}

fn scanning(alternates: &[&str], via_tor: bool) -> SyncPass {
    let mut cfg = config();
    cfg.endpoint = ep("a");
    cfg.alternate_endpoints = alternates.iter().map(|h| ep(h)).collect();
    let mut pass = SyncPass::new(&cfg, vec![], via_tor, 0);
    pass.stage = PassStage::Scan;
    pass
}

#[test]
fn collapse_switches_twice_then_disarms() {
    let mut p = Progress::default();
    let mut pass = scanning(&["b", "c"], false);
    assert!(pass.failover.armed);
    pass.step(collapse(), &mut p, 60).unwrap();
    assert_eq!(pass.stage, PassStage::Race);
    assert_eq!(pass.candidates, vec![ep("b"), ep("c")]);
    pass.step(PassEvent::Raced(1), &mut p, 60).unwrap();
    assert_eq!(pass.stage, PassStage::Scan);
    assert_eq!(pass.failover.current, ep("c"));
    assert!(pass.failover.armed);
    // One endpoint is left that has not collapsed: nothing to race.
    pass.step(collapse(), &mut p, 60).unwrap();
    assert_eq!(pass.stage, PassStage::Scan);
    assert_eq!(pass.failover.current, ep("b"));
    assert_eq!(pass.failover.switches, MAX_WIRE_SWITCHES);
    assert!(!pass.failover.armed, "the switches are spent");
}

#[test]
fn all_collapsed_starts_over_without_the_last() {
    let mut f = Failover::new(
        &{
            let mut c = config();
            c.endpoint = ep("a");
            c.alternate_endpoints = vec![ep("b")];
            c
        },
        false,
    );
    assert_eq!(f.collapsed(), vec![ep("b")]);
    f.commit(ep("b"));
    assert_eq!(f.collapsed(), vec![ep("a")], "never the one that just collapsed");
    assert!(f.cooled.is_empty());
}

#[test]
fn other_failures_end_the_pass() {
    let mut p = Progress::default();
    let mut pass = scanning(&["b"], false);
    assert!(matches!(
        pass.step(PassEvent::Failed(SlipstreamError::Stopped), &mut p, 60),
        Err(SlipstreamError::Stopped)
    ));
    assert_eq!(pass.stage, PassStage::Scan);
    let mut early = SyncPass::new(&config(), vec![], false, 0);
    assert!(
        early.step(collapse(), &mut p, 60).is_err(),
        "a collapse counts during the scan alone"
    );
}

#[test]
fn tor_passes_never_arm() {
    assert!(!scanning(&["b"], true).failover.armed);
    let mut cfg = config();
    cfg.alternate_endpoints = vec![ep("b")];
    assert!(Failover::new(&cfg, false).armed);
    cfg.wire_failover = false;
    assert!(!Failover::new(&cfg, false).armed);
}

#[test]
fn passes_without_alternates_never_arm() {
    assert!(config().wire_failover);
    assert!(!Failover::new(&config(), false).armed);
    assert!(!scanning(&[], false).failover.armed);
}

#[test]
fn engine_build_is_tagged() {
    assert_eq!(ENGINE_BUILD, "2026-08-02.v0.8-ironwood-migration");
}
