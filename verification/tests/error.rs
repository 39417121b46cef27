//! Errors: their words, and which of them a retry may cure.
use zodl_slipstream::error::WireRate;
use zodl_slipstream::SlipstreamError;

#[test]
fn discontinuity_displays_height_and_detail() {
    let e = SlipstreamError::Discontinuity {
        at: 1_650_000,
        detail: "prev-hash mismatch".into(),
    };
    assert_eq!(
        e.message(),
        "chain discontinuity at height 1650000: prev-hash mismatch"
    );
}

#[test]
fn scan_continuity_displays_height() {
    let e = SlipstreamError::ScanContinuity { at: 663_195 };
    assert_eq!(e.message(), "scan continuity break at height 663195");
}

#[test]
fn transport_is_transient() {
    assert!(SlipstreamError::Transport("timeout".into()).is_transient());
    assert!(SlipstreamError::Transport("connect refused".into()).is_transient());
    assert!(
        SlipstreamError::Transport("stream idle timeout (30s without a message)".into())
            .is_transient()
    );
}

#[test]
fn config_is_not_transient() {
    assert!(!SlipstreamError::Config("bad birthday".into()).is_transient());
}

#[test]
fn wallet_is_not_transient() {
    assert!(!SlipstreamError::Wallet("scan_cached_blocks: ...".into()).is_transient());
}

#[test]
fn scan_continuity_is_not_transient() {
    assert!(!SlipstreamError::ScanContinuity { at: 663_195 }.is_transient());
}

#[test]
fn discontinuity_is_not_transient() {
    assert!(!SlipstreamError::Discontinuity {
        at: 1_000_000,
        detail: "prev-hash mismatch".into()
    }
    .is_transient());
}

#[test]
fn misbehaving_server_is_not_transient() {
    assert!(!SlipstreamError::MisbehavingServer.is_transient());
}

#[test]
fn stopped_is_not_transient() {
    assert!(!SlipstreamError::Stopped.is_transient());
}

#[test]
fn wire_collapse_is_not_transient() {
    let e = SlipstreamError::WireCollapse {
        measured_mbps: WireRate {
            bytes_per_kilosecond: 0,
        },
        floor_mbps: WireRate {
            bytes_per_kilosecond: 0,
        },
    };
    assert!(!e.is_transient());
}

#[test]
fn every_error_has_its_words() {
    assert_eq!(
        SlipstreamError::Config("x".into()).message(),
        "invalid configuration: x"
    );
    assert_eq!(SlipstreamError::Transport("x".into()).message(), "transport: x");
    assert_eq!(SlipstreamError::Wallet("x".into()).message(), "wallet db: x");
    assert_eq!(
        SlipstreamError::MisbehavingServer.message(),
        "misbehaving server (invalid or out-of-range data in response)"
    );
    assert_eq!(SlipstreamError::Stopped.message(), "engine is stopped");
    let rate = |mib_per_sec: u128, centi: u128| WireRate {
        bytes_per_kilosecond: mib_per_sec * 1_048_576_000 + centi * 10_485_760,
    };
    assert_eq!(
        SlipstreamError::WireCollapse {
            measured_mbps: rate(0, 50),
            floor_mbps: rate(2, 7),
        }
        .message(),
        "wire collapse: 0.50 MB/s sustained (floor 2.07)"
    );
}

#[test]
fn wire_rates_round_to_the_nearest_hundredth() {
    let text = |bytes_per_kilosecond: u128| {
        let mut s = String::new();
        WireRate {
            bytes_per_kilosecond,
        }
        .push_text(&mut s);
        s
    };
    assert_eq!(text(5_242_879), "0.00");
    assert_eq!(text(5_242_880), "0.00", "a tie goes to the even neighbour");
    assert_eq!(text(5_242_881), "0.01");
    assert_eq!(text(15_728_640), "0.02", "a tie goes to the even neighbour");
    assert_eq!(text(1_048_576_000), "1.00");
}
