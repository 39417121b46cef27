//! Endpoints and engine configurations.
use zodl_slipstream::config::{Endpoint, EngineConfig};
use zodl_slipstream::network::SlipstreamNetwork;
use zodl_slipstream::{Network, SlipstreamError, CRATE_NAME};

fn endpoint() -> Endpoint {
    Endpoint {
        host: "zec.rocks".into(),
        port: 443,
        tls: true,
    }
}

fn config() -> EngineConfig {
    EngineConfig::new(
        SlipstreamNetwork::from(Network::MainNetwork),
        "/tmp/data.db".to_string(),
        endpoint(),
    )
}

fn alt(host: &str) -> Endpoint {
    Endpoint {
        host: host.into(),
        port: 443,
        tls: true,
    }
}

fn fault(c: &EngineConfig) -> String {
    match c.validate() {
        Err(SlipstreamError::Config(m)) => m,
        other => panic!("expected a Config error, got {other:?}"),
    }
}

#[test]
fn smoke() {
    assert_eq!(CRATE_NAME, "zodl-slipstream");
}

#[test]
fn endpoint_selection_skipped_without_alternates_and_under_tor() {
    // No alternates: nothing to choose, no probe.
    assert!(config().probe_candidates(false).is_none());
    let (committed, elapsed) = config().with_selected_endpoint(false, 0, 7);
    assert_eq!(committed.endpoint, endpoint());
    assert_eq!(elapsed, 0);
    // Tor: the probe dials direct and must be skipped even with alternates.
    let mut cfg = config();
    cfg.alternate_endpoints = vec![alt("alt-1")];
    assert!(cfg.probe_candidates(true).is_none());
    let (committed, elapsed) = cfg.with_selected_endpoint(true, 1, 7);
    assert_eq!(committed.endpoint, endpoint());
    assert_eq!(elapsed, 0);
}

#[test]
fn endpoint_selection_commits_the_winner() {
    let mut cfg = config();
    cfg.alternate_endpoints = vec![alt("alt-1"), alt("alt-2")];
    assert_eq!(
        cfg.probe_candidates(false),
        Some(vec![endpoint(), alt("alt-1"), alt("alt-2")])
    );
    let (kept, _) = cfg.clone().with_selected_endpoint(false, 0, 850);
    assert_eq!(kept.endpoint, endpoint());
    let (committed, nanos) = cfg.with_selected_endpoint(false, 2, 850);
    assert_eq!(committed.endpoint, alt("alt-2"));
    assert_eq!(nanos, 850);
    assert_eq!(committed.alternate_endpoints, vec![alt("alt-1"), alt("alt-2")]);
}

#[test]
fn parse_uri_round_trips_uri() {
    for ep in [
        Endpoint {
            host: "zec.rocks".into(),
            port: 443,
            tls: true,
        },
        Endpoint {
            host: "127.0.0.1".into(),
            port: 9067,
            tls: false,
        },
    ] {
        assert_eq!(Endpoint::parse_uri(&ep.uri()).unwrap(), ep);
    }
}

#[test]
fn parse_uri_round_trips_odd_hosts() {
    for host in ["a", "a:b", "/", "a/", "::1", "ü"] {
        for tls in [true, false] {
            let ep = Endpoint {
                host: host.into(),
                port: 0,
                tls,
            };
            assert_eq!(Endpoint::parse_uri(&ep.uri()).unwrap(), ep);
        }
    }
}

#[test]
fn parse_uri_scheme_selects_tls() {
    let https = Endpoint::parse_uri("https://lwd.zcashexplorer.app:9067").unwrap();
    assert!(https.tls);
    assert_eq!(https.host, "lwd.zcashexplorer.app");
    assert_eq!(https.port, 9067);
    let http = Endpoint::parse_uri("http://localhost:9067").unwrap();
    assert!(!http.tls);
}

#[test]
fn parse_uri_tolerates_trailing_slash() {
    let ep = Endpoint::parse_uri("https://zec.rocks:443/").unwrap();
    assert_eq!(
        ep,
        Endpoint {
            host: "zec.rocks".into(),
            port: 443,
            tls: true
        }
    );
}

#[test]
fn parse_uri_rejects_malformed() {
    for bad in [
        "zec.rocks:443",           // no scheme
        "wss://zec.rocks:443",     // wrong scheme
        "https://zec.rocks",       // no port
        "https://:443",            // empty host
        "https://zec.rocks:port",  // non-numeric port
        "https://zec.rocks:70000", // port overflow
        "",
    ] {
        assert!(Endpoint::parse_uri(bad).is_err(), "should reject {bad:?}");
    }
}

#[test]
fn parse_uri_rejects_bracketed_hosts() {
    for bad in ["https://[::1]:443", "http://[2001:db8::1]:9067/"] {
        assert_eq!(
            Endpoint::parse_uri(bad).unwrap_err(),
            format!("endpoint URI port (invalid digit found in string): {bad:?}")
        );
    }
}

#[test]
fn parse_uri_errors_quote_the_uri() {
    assert_eq!(
        Endpoint::parse_uri("wss://a\"b").unwrap_err(),
        "endpoint URI must start with http:// or https://: \"wss://a\\\"b\""
    );
    assert_eq!(
        Endpoint::parse_uri("http://host").unwrap_err(),
        "endpoint URI missing :port: \"http://host\""
    );
    assert_eq!(
        Endpoint::parse_uri("http://:1").unwrap_err(),
        "endpoint URI has empty host: \"http://:1\""
    );
    assert_eq!(
        Endpoint::parse_uri("http://h:").unwrap_err(),
        "endpoint URI port (cannot parse integer from empty string): \"http://h:\""
    );
    assert_eq!(
        Endpoint::parse_uri("http://h:7x").unwrap_err(),
        "endpoint URI port (invalid digit found in string): \"http://h:7x\""
    );
    assert_eq!(
        Endpoint::parse_uri("http://h:65536").unwrap_err(),
        "endpoint URI port (number too large to fit in target type): \"http://h:65536\""
    );
}

#[test]
fn defaults_are_valid() {
    let c = config();
    assert!(c.validate().is_ok());
    assert_eq!(c.enhance_every_chunks, 3);
    assert!(c.sparse_persistence);
    assert_eq!(c.chunk_split_bytes, 8 * 1024 * 1024);
    assert!(c.write_behind);
}

#[test]
fn write_behind_without_sparse_rejected() {
    let mut c = config();
    c.write_behind = true;
    c.sparse_persistence = false;
    assert!(matches!(c.validate(), Err(SlipstreamError::Config(_))));
}

#[test]
fn write_behind_with_sparse_accepted() {
    let mut c = config();
    c.write_behind = true;
    assert!(c.validate().is_ok());
}

#[test]
fn tiny_chunk_split_bytes_rejected() {
    let mut c = config();
    c.chunk_split_bytes = 1024 * 1024 - 1;
    assert!(matches!(c.validate(), Err(SlipstreamError::Config(_))));
}

#[test]
fn chunk_split_bytes_one_mib_accepted() {
    let mut c = config();
    c.chunk_split_bytes = 1024 * 1024;
    assert!(c.validate().is_ok());
}

#[test]
fn zero_streams_rejected() {
    let mut c = config();
    c.fetch_streams = 0;
    assert!(matches!(c.validate(), Err(SlipstreamError::Config(_))));
}

#[test]
fn tiny_chunks_rejected() {
    let mut c = config();
    c.chunk_blocks = 99;
    assert!(matches!(c.validate(), Err(SlipstreamError::Config(_))));
}

#[test]
fn empty_host_rejected() {
    let mut c = config();
    c.endpoint.host = String::new();
    assert!(matches!(c.validate(), Err(SlipstreamError::Config(_))));
}

#[test]
fn tiny_memory_budget_rejected() {
    let mut c = config();
    c.memory_budget_bytes = 1024;
    assert!(matches!(c.validate(), Err(SlipstreamError::Config(_))));
}

#[test]
fn uri_scheme_follows_tls_flag() {
    let mut e = endpoint();
    assert_eq!(e.uri(), "https://zec.rocks:443");
    e.tls = false;
    assert_eq!(e.uri(), "http://zec.rocks:443");
}

#[test]
fn scan_batch_target_ms_below_500_rejected() {
    let mut c = config();
    c.scan_batch_target_ms = Some(499);
    assert!(matches!(c.validate(), Err(SlipstreamError::Config(_))));
}

#[test]
fn scan_batch_target_ms_at_500_accepted() {
    let mut c = config();
    c.scan_batch_target_ms = Some(500);
    assert!(c.validate().is_ok());
}

#[test]
fn scan_batch_target_ms_none_accepted() {
    let c = config();
    assert!(c.validate().is_ok());
}

#[test]
fn enhance_every_chunks_zero_rejected() {
    let mut c = config();
    c.enhance_every_chunks = 0;
    assert!(matches!(c.validate(), Err(SlipstreamError::Config(_))));
}

#[test]
fn enhance_every_chunks_one_accepted() {
    let mut c = config();
    c.enhance_every_chunks = 1;
    assert!(c.validate().is_ok());
}

#[test]
fn device_memory_scaling_derates_small_devices() {
    let c = config();
    // Unknown (0) and big devices keep defaults.
    assert_eq!(
        c.clone().scaled_for_device_memory(0).memory_budget_bytes,
        EngineConfig::DEFAULT_MEMORY_BUDGET
    );
    assert_eq!(
        c.clone()
            .scaled_for_device_memory(8 << 30)
            .chunk_split_bytes,
        EngineConfig::DEFAULT_CHUNK_SPLIT_BYTES
    );
    assert_eq!(
        c.clone()
            .scaled_for_device_memory(3 << 30)
            .memory_budget_bytes,
        EngineConfig::DEFAULT_MEMORY_BUDGET
    );
    // Devices below 3 GiB derate.
    let small = c.clone().scaled_for_device_memory((3 << 30) - 1);
    assert_eq!(
        small.memory_budget_bytes,
        EngineConfig::SMALL_DEVICE_MEMORY_BUDGET
    );
    assert_eq!(
        small.chunk_split_bytes,
        EngineConfig::SMALL_DEVICE_CHUNK_SPLIT_BYTES
    );
    small.validate().expect("derated config must validate");
}

#[test]
fn device_memory_scaling_never_raises_a_limit() {
    let mut c = config();
    c.memory_budget_bytes = 16 << 20;
    c.chunk_split_bytes = 1 << 20;
    let small = c.clone().scaled_for_device_memory(2 << 30);
    assert_eq!(small.memory_budget_bytes, 16 << 20);
    assert_eq!(small.chunk_split_bytes, 1 << 20);
}

#[test]
fn each_fault_has_its_words() {
    let mut c = config();
    c.endpoint.host = String::new();
    assert_eq!(fault(&c), "endpoint host is empty");
    let mut c = config();
    c.fetch_streams = 0;
    c.chunk_blocks = 0;
    assert_eq!(fault(&c), "fetch_streams must be >= 1", "the first fault counts");
    let mut c = config();
    c.chunk_blocks = 99;
    assert_eq!(fault(&c), "chunk_blocks must be >= 100");
    let mut c = config();
    c.memory_budget_bytes = 16 * 1024 * 1024 - 1;
    assert_eq!(fault(&c), "memory_budget_bytes must be >= 16 MiB");
    let mut c = config();
    c.chunk_split_bytes = 0;
    assert_eq!(fault(&c), "chunk_split_bytes must be >= 1 MiB");
    let mut c = config();
    c.scan_batch_target_ms = Some(0);
    assert_eq!(fault(&c), "scan_batch_target_ms must be >= 500 ms");
    let mut c = config();
    c.enhance_every_chunks = 0;
    assert_eq!(fault(&c), "enhance_every_chunks must be >= 1");
    let mut c = config();
    c.sparse_persistence = false;
    assert_eq!(
        fault(&c),
        "write_behind requires sparse_persistence (the deferred commit runs the sparse put_blocks path)"
    );
    let mut c = config();
    c.sparse_persistence = false;
    c.write_behind = false;
    assert_eq!(
        fault(&c),
        "graft_subtree requires sparse_persistence (the graft verdict lives in the sparse build path)"
    );
    let mut c = config();
    c.write_behind = false;
    assert!(fault(&c).starts_with("graft_subtree requires write_behind (the graft plan runs"));
    let mut c = config();
    c.sparse_persistence = false;
    c.write_behind = false;
    c.graft_subtree = false;
    c.gpu_subtree = true;
    assert_eq!(
        fault(&c),
        "gpu_subtree requires sparse_persistence (the GPU build replaces the sparse subtree build)"
    );
    for depth in [0, 65] {
        let mut c = config();
        c.persist_depth = depth;
        assert_eq!(fault(&c), "persist_depth must be in 1..=64");
    }
}
