//! Routes and retries of connections, and what servers answer.
use zodl_slipstream::config::Endpoint;
use zodl_slipstream::connector::{
    after_connect_failure, after_tor_failure, direct_connect_backoff, route, tor_mode, tor_uri,
    ConnPurpose, ConnectRetry, Route, TorFailure, TorMode, DIRECT_CONNECT_ATTEMPTS,
    TOR_CONNECT_ATTEMPTS, TOR_CONNECT_TIMEOUT,
};
use zodl_slipstream::graft::ShieldedPool;
use zodl_slipstream::grpc::{
    after_treestate_failure, is_not_found, read_subtree_root, stream_message, transaction_answer,
    treestate_retry_backoff, unary_answer, RawSubtreeRoot, Status, StatusCode, Streamed,
    TreeStateRetry, Unary, TREESTATE_RETRY_MAX,
};
use zodl_slipstream::transaction::RawTransaction;
use zodl_slipstream::SlipstreamError;

#[test]
fn bulk_is_always_direct() {
    // Even when Tor is on, bulk fetch carries no Tor circuit.
    assert_eq!(tor_mode(ConnPurpose::BulkFetch), None);
}

#[test]
fn metadata_maps_to_isolated_and_default_circuits() {
    assert_eq!(
        tor_mode(ConnPurpose::MetadataUnique),
        Some(TorMode::Isolated)
    );
    assert_eq!(
        tor_mode(ConnPurpose::MetadataDefault),
        Some(TorMode::Default)
    );
}

#[test]
fn routes_follow_purpose_and_tor() {
    for purpose in [
        ConnPurpose::BulkFetch,
        ConnPurpose::MetadataUnique,
        ConnPurpose::MetadataDefault,
    ] {
        assert_eq!(route(false, purpose), Route::Direct);
    }
    assert_eq!(route(true, ConnPurpose::BulkFetch), Route::Direct);
    assert_eq!(
        route(true, ConnPurpose::MetadataUnique),
        Route::Tor(TorMode::Isolated)
    );
    assert_eq!(
        route(true, ConnPurpose::MetadataDefault),
        Route::Tor(TorMode::Default)
    );
}

#[test]
fn tor_connect_retry_constants_are_sane() {
    assert!(
        TOR_CONNECT_ATTEMPTS >= 2,
        "need at least one retry on a fresh circuit"
    );
    let secs = TOR_CONNECT_TIMEOUT;
    assert!(
        (5..=30).contains(&secs),
        "per-attempt timeout must be 5..=30s (room for a healthy circuit, cut a stuck one), got {secs}s"
    );
}

/// Runs an operation as a connection does, and counts its attempts.
fn retry(
    mut op: impl FnMut(u32) -> Result<u32, SlipstreamError>,
    attempts: u32,
) -> (Result<u32, SlipstreamError>, u32) {
    let mut attempt = 1;
    loop {
        match op(attempt) {
            Ok(v) => return (Ok(v), attempt),
            Err(e) => match after_connect_failure(e, attempt, attempts) {
                ConnectRetry::Fail(e) => return (Err(e), attempt),
                ConnectRetry::Retry { backoff_secs } => {
                    assert_eq!(backoff_secs, direct_connect_backoff(attempt));
                    attempt += 1;
                }
            },
        }
    }
}

#[test]
fn retry_transient_recovers_from_a_brief_outage() {
    let (out, calls) = retry(
        |n| {
            if n < 3 {
                Err(SlipstreamError::Transport("server down".into()))
            } else {
                Ok(n)
            }
        },
        DIRECT_CONNECT_ATTEMPTS,
    );
    assert_eq!(out.expect("recovers in place — no pass restart"), 3);
    assert_eq!(calls, 3, "stops retrying the moment the connect succeeds");
}

#[test]
fn retry_transient_gives_up_after_budget() {
    let (out, calls) = retry(
        |_| Err(SlipstreamError::Transport("still down".into())),
        4,
    );
    assert!(out.is_err());
    assert_eq!(calls, 4, "exactly `attempts` tries");
}

#[test]
fn retry_transient_does_not_retry_nontransient() {
    let (out, calls) = retry(
        |_| Err(SlipstreamError::Config("bad uri".into())),
        DIRECT_CONNECT_ATTEMPTS,
    );
    assert!(out.is_err());
    assert_eq!(calls, 1);
}

#[test]
fn direct_connect_backoff_is_capped_exponential() {
    assert_eq!(direct_connect_backoff(1), 1);
    assert_eq!(direct_connect_backoff(2), 2);
    assert_eq!(direct_connect_backoff(5), 16);
    assert_eq!(
        direct_connect_backoff(99),
        16,
        "held at the 16s cap, never overflows"
    );
    assert!(
        DIRECT_CONNECT_ATTEMPTS >= 2,
        "need at least one retry to absorb a blip"
    );
}

#[test]
fn direct_connect_waits_31_seconds_in_all() {
    let total: u64 = (1..DIRECT_CONNECT_ATTEMPTS)
        .map(direct_connect_backoff)
        .sum();
    assert_eq!(total, 31);
    assert_eq!(direct_connect_backoff(0), 1);
    assert_eq!(direct_connect_backoff(3), 4);
    assert_eq!(direct_connect_backoff(4), 8);
}

#[test]
fn tor_failures_are_retried_then_reported() {
    assert!(after_tor_failure(1, TorFailure::TimedOut).is_none());
    assert!(after_tor_failure(2, TorFailure::Failed("no".into())).is_none());
    match after_tor_failure(3, TorFailure::Failed("no route".into())) {
        Some(SlipstreamError::Transport(m)) => assert_eq!(m, "tor connect: no route"),
        other => panic!("{other:?}"),
    }
    match after_tor_failure(3, TorFailure::TimedOut) {
        Some(SlipstreamError::Transport(m)) => {
            assert_eq!(m, "tor connect: circuit build exceeded 15s")
        }
        other => panic!("{other:?}"),
    }
}

#[test]
fn tor_uri_is_checked() {
    let good = Endpoint {
        host: "zec.rocks".into(),
        port: 443,
        tls: true,
    };
    assert_eq!(tor_uri(&good).unwrap(), "https://zec.rocks:443");
    let bad = Endpoint {
        host: "not a host".into(),
        port: 1,
        tls: false,
    };
    match tor_uri(&bad) {
        Err(SlipstreamError::Config(m)) => {
            assert!(m.starts_with("bad endpoint uri for tor: "), "{m}");
            assert!(m.len() > "bad endpoint uri for tor: ".len());
        }
        other => panic!("{other:?}"),
    }
}

#[test]
fn retry_constants_are_sane() {
    // 2 additional attempts (3 total).
    assert_eq!(
        TREESTATE_RETRY_MAX, 2,
        "must allow exactly 2 retries (3 total)"
    );
    // Backoff schedule: attempt 1 = 1s, attempt 2 = 3s.
    assert_eq!(treestate_retry_backoff(1), 1);
    assert_eq!(treestate_retry_backoff(2), 3);
    // Attempt 3+ uses the default arm (3s cap).
    assert_eq!(treestate_retry_backoff(3), 3);
}

#[test]
fn transport_error_is_transient_for_retry() {
    let err = SlipstreamError::Transport("timed out after 30s".into());
    assert!(err.is_transient(), "Transport must be transient for retry");

    // Non-transient variants must NOT trigger retry.
    let wallet = SlipstreamError::Wallet("db error".into());
    assert!(!wallet.is_transient(), "Wallet must not be transient");
    let config = SlipstreamError::Config("bad host".into());
    assert!(!config.is_transient(), "Config must not be transient");
}

#[test]
fn treestate_failures_are_retried_twice() {
    let fail = || SlipstreamError::Transport("timed out".into());
    assert!(matches!(
        after_treestate_failure(fail(), 0),
        TreeStateRetry::Retry { attempt: 1, backoff_secs: 1 }
    ));
    assert!(matches!(
        after_treestate_failure(fail(), 1),
        TreeStateRetry::Retry { attempt: 2, backoff_secs: 3 }
    ));
    assert!(matches!(
        after_treestate_failure(fail(), 2),
        TreeStateRetry::Fail(SlipstreamError::Transport(_))
    ));
    assert!(matches!(
        after_treestate_failure(SlipstreamError::Stopped, 0),
        TreeStateRetry::Fail(SlipstreamError::Stopped)
    ));
}

fn status(code: StatusCode, message: &str) -> Status {
    Status {
        code,
        message: message.into(),
        text: format!("status: {message}"),
    }
}

#[test]
fn unary_timeout_fires_on_stalled_call() {
    match unary_answer::<()>("stalled_unary", Unary::TimedOut) {
        Err(SlipstreamError::Transport(msg)) => {
            assert_eq!(msg, "stalled_unary: timed out after 30s");
        }
        other => panic!("expected Transport timeout, got {other:?}"),
    }
    match unary_answer::<()>("ctx", Unary::Refused(status(StatusCode::Other, "down"))) {
        Err(SlipstreamError::Transport(msg)) => assert_eq!(msg, "ctx: status: down"),
        other => panic!("{other:?}"),
    }
    assert_eq!(unary_answer("ctx", Unary::Answered(7)).unwrap(), 7);
}

#[test]
fn stream_idle_timeout_fires_on_stalled_stream() {
    match stream_message::<u32>("stalled_stream", "items", Streamed::TimedOut) {
        Err(SlipstreamError::Transport(msg)) => {
            assert_eq!(
                msg,
                "stalled_stream: stream idle timeout (30s without a message)"
            );
        }
        other => panic!("expected Transport idle timeout, got {other:?}"),
    }
}

#[test]
fn stream_idle_timeout_passes_messages_and_end() {
    assert_eq!(
        stream_message("healthy", "items", Streamed::Message(7)).unwrap(),
        Some(7)
    );
    assert_eq!(
        stream_message("healthy", "items", Streamed::Message(8)).unwrap(),
        Some(8)
    );
    assert_eq!(
        stream_message::<u32>("healthy", "items", Streamed::End).unwrap(),
        None
    );
    match stream_message::<u32>("healthy", "utxo stream", Streamed::Broken("gone".into())) {
        Err(SlipstreamError::Transport(msg)) => assert_eq!(msg, "utxo stream: gone"),
        other => panic!("{other:?}"),
    }
}

#[test]
fn unknown_transactions_are_told_apart() {
    let raw = RawTransaction {
        data: vec![1],
        height: 5,
    };
    assert!(transaction_answer(Unary::Answered(raw)).unwrap().is_some());
    for (code, message) in [
        (StatusCode::NotFound, "whatever"),
        (StatusCode::Unknown, "Transaction NOT FOUND here"),
        (StatusCode::Internal, "No such transaction"),
    ] {
        assert!(transaction_answer(Unary::Refused(status(code, message)))
            .unwrap()
            .is_none());
    }
    for (code, message) in [
        (StatusCode::Unknown, "backend died"),
        (StatusCode::Internal, ""),
        (StatusCode::Other, "not found"),
    ] {
        match transaction_answer(Unary::Refused(status(code, message))) {
            Err(SlipstreamError::Transport(m)) => {
                assert_eq!(m, format!("get_transaction: status: {message}"))
            }
            other => panic!("{other:?}"),
        }
    }
    match transaction_answer(Unary::TimedOut) {
        Err(SlipstreamError::Transport(m)) => {
            assert_eq!(m, "get_transaction: timed out after 30s")
        }
        other => panic!("{other:?}"),
    }
    assert!(!is_not_found(StatusCode::Unknown, "Not Found"));
}

#[test]
fn subtree_roots_must_be_nodes() {
    let mut one = vec![0u8; 32];
    one[0] = 1;
    for pool in [
        ShieldedPool::Sapling,
        ShieldedPool::Orchard,
        ShieldedPool::Ironwood,
    ] {
        let root = read_subtree_root(
            pool,
            &RawSubtreeRoot {
                root_hash: one.clone(),
                completing_block_height: 0x1_0000_0005,
            },
        )
        .unwrap();
        assert_eq!(root.root.to_vec(), one);
        assert_eq!(root.height, 5);
    }
    // All ones is no element of either field; too few bytes are none at all.
    for (pool, label) in [
        (ShieldedPool::Sapling, "sapling root: "),
        (ShieldedPool::Orchard, "orchard root: "),
        (ShieldedPool::Ironwood, "ironwood root: "),
    ] {
        for bytes in [vec![0xff; 32], vec![1; 31]] {
            match read_subtree_root(
                pool,
                &RawSubtreeRoot {
                    root_hash: bytes,
                    completing_block_height: 1,
                },
            ) {
                Err(SlipstreamError::Transport(m)) => assert!(m.starts_with(label), "{m}"),
                other => panic!("{other:?}"),
            }
        }
    }
}

#[test]
fn subtree_root_bounds_are_the_field_orders() {
    // The greatest elements of the two fields, and the orders themselves.
    let pallas: [u8; 32] = [
        0x00, 0x00, 0x00, 0x00, 0xed, 0x30, 0x2d, 0x99, 0x1b, 0xf9, 0x4c, 0x09, 0xfc, 0x98, 0x46,
        0x22, 0, 0, 0, 0, 0, 0, 0, 0, 0, 0, 0, 0, 0, 0, 0, 0x40,
    ];
    let jubjub: [u8; 32] = [
        0x00, 0x00, 0x00, 0x00, 0xff, 0xff, 0xff, 0xff, 0xfe, 0x5b, 0xfe, 0xff, 0x02, 0xa4, 0xbd,
        0x53, 0x05, 0xd8, 0xa1, 0x09, 0x08, 0xd8, 0x39, 0x33, 0x48, 0x7d, 0x9d, 0x29, 0x53, 0xa7,
        0xed, 0x73,
    ];
    for (pool, greatest) in [
        (ShieldedPool::Orchard, pallas),
        (ShieldedPool::Sapling, jubjub),
    ] {
        let mut order = greatest;
        order[0] = 1;
        let read = |b: [u8; 32]| {
            read_subtree_root(
                pool,
                &RawSubtreeRoot {
                    root_hash: b.to_vec(),
                    completing_block_height: 1,
                },
            )
        };
        assert_eq!(read(greatest).unwrap().root, greatest);
        assert!(read(order).is_err());
    }
}
