//! Enhancement: rounds, answers, address requests.
use zodl_slipstream::enhance::{
    address_checked, address_step, apply_txid_fetch, effective_range_end, history_entry, history_stored,
    store_if_read, txid_answered, txid_applied, AddressHistory, AddressRequest, AddressStep, DataRequest,
    EnhanceRun, EnhanceStats, HistoryStep, OutputFilter, SkipSet, StatusFilter, StoreTx, TxStatus,
    TxidAction,
};
use zodl_slipstream::transaction::{mined_height, RawTransaction};
use zodl_slipstream::{Progress, SlipstreamError};

/// An encoded transaction of version one, without inputs and outputs.
fn empty_tx() -> Vec<u8> {
    vec![1, 0, 0, 0, 0, 0, 0, 0, 0, 0]
}

#[test]
fn enhance_stats_default_is_zero() {
    let s = EnhanceStats::default();
    assert_eq!(s.requests, 0);
    assert_eq!(s.txs_stored, 0);
    assert_eq!(s.statuses_set, 0);
    assert_eq!(s.skipped, 0);
}

#[test]
fn skip_dedupe_counts_unique_keys_only() {
    let mut skipped_keys = SkipSet::new();
    let mut skipped_count: u64 = 0;

    // The same open-range address, re-skipped across 3 rounds.
    let addr = "t1abc123";
    let key = format!("{addr}:open");

    for _ in 0..3 {
        if skipped_keys.insert(key.clone()) {
            skipped_count += 1;
        }
    }
    assert_eq!(
        skipped_count, 1,
        "duplicate open-range skip must count as 1 unique skip"
    );
    assert_eq!(skipped_keys.len(), 1);

    // A different address produces a distinct key.
    let key2 = "t1xyz456:open".to_string();
    if skipped_keys.insert(key2) {
        skipped_count += 1;
    }
    assert_eq!(
        skipped_count, 2,
        "distinct address must count as a separate skip"
    );

    // Range-keyed skip: same address+range across 2 rounds.
    let key3 = format!("{addr}:663150-663200:request_at");
    for _ in 0..2 {
        if skipped_keys.insert(key3.clone()) {
            skipped_count += 1;
        }
    }
    assert_eq!(
        skipped_count, 3,
        "requestAt skip must be counted once per unique address+range"
    );
}

#[test]
fn effective_range_end_clamps_open_ranges_to_tip() {
    let tip = 3_375_000;
    // Closed range passes through untouched.
    assert_eq!(effective_range_end(Some(100), tip), 100);
    // Open range → tip + 1 (end-exclusive ⇒ includes the tip block).
    assert_eq!(effective_range_end(None, tip), 3_375_001);
    assert_eq!(effective_range_end(None, u32::MAX), u32::MAX);
}

fn req(end: Option<u32>) -> AddressRequest {
    AddressRequest {
        address: "t1abc".into(),
        range_start: 663_150,
        range_end: end,
        timed: false,
        status_filter: StatusFilter::All,
        output_filter: OutputFilter::All,
    }
}

#[test]
fn rounds_end_with_the_requests() {
    let mut run = EnhanceRun::new();
    assert!(run.wants_round());
    let plan = run
        .begin_round(Ok(vec![
            DataRequest::Enhancement([1; 32]),
            DataRequest::InvolvingAddress(req(None)),
            DataRequest::GetStatus([2; 32]),
        ]))
        .unwrap()
        .expect("a round");
    assert_eq!(run.stats.requests, 3);
    assert_eq!(plan.fetches.len(), 2);
    assert_eq!(plan.fetches[0].txid, [1; 32]);
    assert!(plan.fetches[0].want_enhance);
    assert_eq!(plan.fetches[1].txid, [2; 32]);
    assert!(!plan.fetches[1].want_enhance);
    assert_eq!(plan.addresses.len(), 1);
    assert!(run.begin_round(Ok(vec![])).unwrap().is_none());
    assert!(!run.wants_round());
}

#[test]
fn at_most_three_rounds_run() {
    let mut run = EnhanceRun::new();
    for _ in 0..3 {
        assert!(run.wants_round());
        run.begin_round(Ok(vec![DataRequest::GetStatus([0; 32])]))
            .unwrap()
            .expect("a round");
    }
    assert!(!run.wants_round());
    let mut failing = EnhanceRun::new();
    match failing.begin_round(Err("locked".into())) {
        Err(SlipstreamError::Wallet(m)) => assert_eq!(m, "transaction_data_requests: locked"),
        other => panic!("{other:?}"),
    }
}

fn raw(height: u64) -> RawTransaction {
    RawTransaction {
        data: empty_tx(),
        height,
    }
}

#[test]
fn answers_become_actions() {
    assert!(matches!(
        apply_txid_fetch(true, Ok(None)),
        Ok(TxidAction::SetStatus(TxStatus::NotRecognized))
    ));
    assert!(matches!(
        apply_txid_fetch(false, Ok(Some(raw(7)))),
        Ok(TxidAction::SetStatus(TxStatus::Mined(7)))
    ));
    assert!(matches!(
        apply_txid_fetch(false, Ok(Some(raw(0)))),
        Ok(TxidAction::SetStatus(TxStatus::NotInMainChain))
    ));
    match apply_txid_fetch(true, Ok(Some(raw(7)))) {
        Ok(TxidAction::Store(StoreTx { data, mined_height })) => {
            assert_eq!(data, empty_tx());
            assert_eq!(mined_height, Some(7));
        }
        other => panic!("{other:?}"),
    }
    let broken = RawTransaction {
        data: vec![1, 0],
        height: 7,
    };
    match apply_txid_fetch(true, Ok(Some(broken))) {
        Err(SlipstreamError::Wallet(m)) => {
            assert!(m.starts_with("tx parse: ") && m.len() > 10, "{m}")
        }
        other => panic!("{other:?}"),
    }
    assert!(matches!(
        apply_txid_fetch(true, Err(SlipstreamError::Stopped)),
        Err(SlipstreamError::Stopped)
    ));
    match store_if_read(Err("bad".into()), vec![], None, "tx parse: ") {
        Err(SlipstreamError::Wallet(m)) => assert_eq!(m, "tx parse: bad"),
        other => panic!("{other:?}"),
    }
}

#[test]
fn mined_heights_are_block_heights() {
    assert_eq!(mined_height(0), None);
    assert_eq!(mined_height(1), Some(1));
    assert_eq!(mined_height(u32::MAX as u64), Some(u32::MAX));
    assert_eq!(mined_height(u32::MAX as u64 + 1), None);
}

#[test]
fn answered_requests_are_progress() {
    let mut p = Progress::default();
    txid_answered(&Err(SlipstreamError::Stopped), &mut p, 10);
    assert_eq!(p.last_progress_unix_secs(), 0, "a failure is no answer");
    txid_answered(&Ok(None), &mut p, 20);
    assert_eq!(p.last_progress_unix_secs(), 20, "not to know it is an answer");
    txid_answered(&Ok(Some(raw(5))), &mut p, 30);
    assert_eq!(p.last_progress_unix_secs(), 30);
    assert_eq!((p.enhanced(), p.tx_set_version()), (0, 0));
}

#[test]
fn applied_actions_are_counted() {
    let mut stats = EnhanceStats::default();
    let mut p = Progress::default();
    let unknown = TxidAction::SetStatus(TxStatus::NotRecognized);
    txid_applied(&unknown, Ok(()), &mut stats, &mut p, 70).unwrap();
    assert_eq!((stats.statuses_set, p.tx_set_version()), (1, 0));
    assert_eq!(p.last_progress_unix_secs(), 0);
    txid_applied(&TxidAction::SetStatus(TxStatus::Mined(3)), Ok(()), &mut stats, &mut p, 70).unwrap();
    assert_eq!((stats.statuses_set, p.tx_set_version(), p.enhanced()), (2, 1, 0));
    let store = TxidAction::Store(StoreTx {
        data: empty_tx(),
        mined_height: None,
    });
    txid_applied(&store, Ok(()), &mut stats, &mut p, 70).unwrap();
    assert_eq!((stats.txs_stored, p.tx_set_version(), p.enhanced()), (1, 2, 1));
    assert_eq!(p.last_progress_unix_secs(), 70);
    for (action, words) in [
        (&unknown, "set_transaction_status TxidNotRecognized: full"),
        (
            &TxidAction::SetStatus(TxStatus::NotInMainChain),
            "set_transaction_status: full",
        ),
        (&store, "decrypt_and_store: full"),
    ] {
        match txid_applied(action, Err("full".into()), &mut stats, &mut p, 70) {
            Err(SlipstreamError::Wallet(m)) => assert_eq!(m, words),
            other => panic!("{other:?}"),
        }
    }
    assert_eq!((stats.txs_stored, stats.statuses_set), (1, 2));
}

#[test]
fn address_requests_are_served_or_skipped() {
    let mut keys = SkipSet::new();
    let mut stats = EnhanceStats::default();
    match address_step(&req(Some(663_200)), Err("unused".into()), &mut keys, &mut stats) {
        Ok(AddressStep::Fetch {
            start,
            end,
            range_end,
        }) => assert_eq!((start, end, range_end), (663_150, 663_199, 663_200)),
        other => panic!("{other:?}"),
    }
    match address_step(&req(None), Ok(Some(700_000)), &mut keys, &mut stats) {
        Ok(AddressStep::Fetch { end, range_end, .. }) => {
            assert_eq!((end, range_end), (700_000, 700_001))
        }
        other => panic!("{other:?}"),
    }
    match address_step(&req(Some(0)), Ok(None), &mut keys, &mut stats) {
        Ok(AddressStep::Fetch { end, .. }) => assert_eq!(end, 0),
        other => panic!("{other:?}"),
    }
    match address_step(&req(None), Err("locked".into()), &mut keys, &mut stats) {
        Err(SlipstreamError::Wallet(m)) => {
            assert_eq!(m, "chain_height for open-range clamp: locked")
        }
        other => panic!("{other:?}"),
    }
    assert_eq!(stats.skipped, 0);
    let mut timed = req(Some(663_200));
    timed.timed = true;
    let mut unspent = req(Some(663_200));
    unspent.output_filter = OutputFilter::Unspent;
    for _ in 0..3 {
        for r in [&req(None), &timed, &unspent] {
            assert!(matches!(
                address_step(r, Ok(None), &mut keys, &mut stats),
                Ok(AddressStep::Skip)
            ));
        }
    }
    assert_eq!(stats.skipped, 3, "each skip counts once");
    assert_eq!(keys.len(), 3);
    for key in [
        "t1abc:open-no-tip",
        "t1abc:663150-663200:request_at",
        "t1abc:663150-663200:unspent",
    ] {
        assert!(!keys.insert(key.to_string()), "{key} is held");
    }
}

#[test]
fn address_history_honours_the_status_filter() {
    let mut p = Progress::default();
    let history = |filter| {
        let mut p = Progress::default();
        AddressHistory::received(
            Ok(vec![raw(0), raw(5), raw(0), raw(9)]),
            filter,
            101,
            &mut p,
            80,
        )
        .unwrap()
    };
    let heights = |filter| {
        let mut h = history(filter);
        let mut seen = Vec::new();
        loop {
            match h.step().unwrap() {
                HistoryStep::Store(s) => {
                    assert_eq!(s.data, empty_tx());
                    seen.push(s.mined_height)
                }
                HistoryStep::Checked(as_of) => {
                    assert_eq!(as_of, 100);
                    return seen;
                }
            }
        }
    };
    assert_eq!(heights(StatusFilter::All), vec![None, Some(5), None, Some(9)]);
    assert_eq!(heights(StatusFilter::Mined), vec![Some(5), Some(9)]);
    assert_eq!(heights(StatusFilter::Mempool), vec![None, None]);
    // A transaction that does not read ends the request, one that is not wanted does not.
    let broken = || RawTransaction {
        data: vec![],
        height: 0,
    };
    let mut all =
        AddressHistory::received(Ok(vec![broken()]), StatusFilter::All, 1, &mut p, 80).unwrap();
    match all.step() {
        Err(SlipstreamError::Wallet(m)) => assert!(m.starts_with("tx parse (taddr): "), "{m}"),
        other => panic!("{other:?}"),
    }
    let mut mined =
        AddressHistory::received(Ok(vec![broken()]), StatusFilter::Mined, 1, &mut p, 90).unwrap();
    assert!(matches!(mined.step(), Ok(HistoryStep::Checked(0))));
    match AddressHistory::received(
        Err(SlipstreamError::Transport("down".into())),
        StatusFilter::All,
        1,
        &mut p,
        100,
    ) {
        Err(SlipstreamError::Wallet(m)) => assert_eq!(m, "get_taddress_txids: transport: down"),
        other => panic!("{other:?}"),
    }
    assert_eq!(p.last_progress_unix_secs(), 90, "an answer is progress, a failure is none");
}

#[test]
fn address_outcomes_are_counted() {
    let mut stats = EnhanceStats::default();
    let mut p = Progress::default();
    history_stored(Ok(()), &mut stats, &mut p, 70).unwrap();
    assert_eq!((stats.txs_stored, p.enhanced(), p.tx_set_version()), (1, 1, 1));
    assert_eq!(p.last_progress_unix_secs(), 70);
    match history_stored(Err("x".into()), &mut stats, &mut p, 70) {
        Err(SlipstreamError::Wallet(m)) => assert_eq!(m, "decrypt_and_store (taddr): x"),
        other => panic!("{other:?}"),
    }
    assert!(address_checked(Ok(())).is_ok());
    match address_checked(Err("x".into())) {
        Err(SlipstreamError::Wallet(m)) => assert_eq!(m, "notify_address_checked: x"),
        other => panic!("{other:?}"),
    }
}

#[test]
fn stats_merge_field_by_field() {
    let mut a = EnhanceStats::default();
    a.waited(5);
    a.spent_storing(6);
    a.spent_on_addresses(7);
    let b = a;
    a.merge(&b);
    assert_eq!((a.fetch_wait, a.store, a.address), (10, 12, 14));
}

#[test]
fn readings_of_a_history_are_stored() {
    match history_entry(Ok([7; 32]), vec![1, 2], Some(9)) {
        Ok(HistoryStep::Store(s)) => assert_eq!((s.data, s.mined_height), (vec![1, 2], Some(9))),
        other => panic!("{other:?}"),
    }
    match history_entry(Err("no".into()), vec![1, 2], Some(9)) {
        Err(SlipstreamError::Wallet(m)) => assert_eq!(m, "tx parse (taddr): no"),
        other => panic!("{other:?}"),
    }
}
