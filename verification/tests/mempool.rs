//! Mempool sessions.
use zodl_slipstream::grpc::STREAM_IDLE_TIMEOUT;
use zodl_slipstream::mempool::{
    begin_session, offer_if_new, offered, session_step, MempoolEvent, MempoolStep, SeenTxids,
    SessionEnd, SessionStats, MEMPOOL_SESSION_IDLE, SEEN_TXIDS_CAP,
};
use zodl_slipstream::{Progress, SlipstreamError};

#[test]
fn session_idle_is_longer_than_hardening() {
    assert!(
        MEMPOOL_SESSION_IDLE > STREAM_IDLE_TIMEOUT,
        "an empty mempool is legitimately silent — must not reuse the 30 s stall timeout (D6)"
    );
}

#[test]
fn dedupe_set_admits_each_txid_once() {
    let mut seen = SeenTxids::new();
    let a = [1u8; 32];
    let b = [2u8; 32];
    assert!(seen.insert(a), "first sighting of a is new");
    assert!(!seen.insert(a), "replayed a is a duplicate — skipped");
    assert!(seen.insert(b), "first sighting of b is new");
    assert_eq!(seen.len(), 2, "only distinct txids are retained");
}

#[test]
fn seen_set_is_cleared_beyond_its_cap() {
    let mut seen = SeenTxids::new();
    for i in 0..SEEN_TXIDS_CAP as u32 {
        let mut id = [0u8; 32];
        id[..4].copy_from_slice(&i.to_le_bytes());
        seen.insert(id);
    }
    assert_eq!(begin_session(&mut seen), SessionStats::default());
    assert_eq!(seen.len(), SEEN_TXIDS_CAP, "the cap itself is kept");
    seen.insert([0xff; 32]);
    begin_session(&mut seen);
    assert_eq!(seen.len(), 0);
}

fn tx(lock_time: u8) -> Vec<u8> {
    vec![1, 0, 0, 0, 0, 0, lock_time, 0, 0, 0]
}

#[test]
fn session_offers_each_transaction_once() {
    let mut seen = SeenTxids::new();
    let mut stats = SessionStats::default();
    let first = match session_step(MempoolEvent::Transaction(tx(0)), &mut seen, &mut stats) {
        MempoolStep::Offer(id) => id,
        other => panic!("{other:?}"),
    };
    assert!(matches!(
        session_step(MempoolEvent::Transaction(tx(0)), &mut seen, &mut stats),
        MempoolStep::PassOver
    ));
    let second = match session_step(MempoolEvent::Transaction(tx(1)), &mut seen, &mut stats) {
        MempoolStep::Offer(id) => id,
        other => panic!("{other:?}"),
    };
    assert_ne!(first, second);
    // An entry that does not read is passed over, and the session goes on.
    assert!(matches!(
        session_step(MempoolEvent::Transaction(vec![9]), &mut seen, &mut stats),
        MempoolStep::PassOver
    ));
    assert_eq!(stats.received, 4);
    assert_eq!(seen.len(), 2);
}

#[test]
fn session_ends_as_the_stream_does() {
    let mut seen = SeenTxids::new();
    let mut stats = SessionStats::default();
    assert!(matches!(
        session_step(MempoolEvent::Silence, &mut seen, &mut stats),
        MempoolStep::End(SessionEnd::IdleReconnect)
    ));
    assert!(matches!(
        session_step(MempoolEvent::Closed, &mut seen, &mut stats),
        MempoolStep::End(SessionEnd::BlockBoundary)
    ));
    match session_step(MempoolEvent::Broken("reset".into()), &mut seen, &mut stats) {
        MempoolStep::Fail(SlipstreamError::Transport(m)) => {
            assert_eq!(m, "mempool stream: reset")
        }
        other => panic!("{other:?}"),
    }
    assert_eq!(stats, SessionStats::default());
}

#[test]
fn hits_are_counted() {
    let mut stats = SessionStats::default();
    let mut p = Progress::default();
    offered(Ok(()), Ok(false), &mut stats, &mut p, 40).unwrap();
    assert_eq!((stats.stored_hits, p.enhanced()), (0, 0));
    assert_eq!(p.last_progress_unix_secs(), 0);
    offered(Ok(()), Ok(true), &mut stats, &mut p, 40).unwrap();
    assert_eq!((stats.stored_hits, p.enhanced(), p.tx_set_version()), (1, 1, 1));
    assert_eq!(p.last_progress_unix_secs(), 40);
    match offered(Err("x".into()), Ok(true), &mut stats, &mut p, 40) {
        Err(SlipstreamError::Wallet(m)) => assert_eq!(m, "mempool decrypt_and_store: x"),
        other => panic!("{other:?}"),
    }
    match offered(Ok(()), Err("y".into()), &mut stats, &mut p, 40) {
        Err(SlipstreamError::Wallet(m)) => assert_eq!(m, "mempool hit check: y"),
        other => panic!("{other:?}"),
    }
    let mut seen = SeenTxids::new();
    assert!(matches!(
        offer_if_new(Ok([3; 32]), &mut seen),
        MempoolStep::Offer(id) if id == [3; 32]
    ));
}
