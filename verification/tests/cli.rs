//! The rules of the command line.
use zodl_slipstream::cli::args::{
    account_of, parse_account, parse_custom_heights, parse_range, parse_server, resolve_network,
    validate_sync_args, NetworkArg,
};
use zodl_slipstream::cli::keys::{
    broadcast_verdict, check_created, check_payment, check_wallet, checked_seed, derive_hint,
    derive_ufvk, derived_key, payment_of, MAX_ZATOSHIS,
};
use zodl_slipstream::cli::run::{
    bench_config, bench_dir_fault, oracle_config, oracle_dir_fault, oracle_sides, oracle_tips,
    oracle_verdict, require_gpu_feature_if, sync_config, throttle_cap, BenchFlags, OracleSide,
    OracleVerdict, SyncFlags,
};
use zodl_slipstream::cli::show::{
    balance_source, balances_line, event_line, event_tag_name, persist_overlap, shown_count,
    state_name, summary_lines, ticker_line, uuid_prefix, watch_interval, watch_line, zec_display,
    Balance, BalanceSource,
};
use zodl_slipstream::config::{AnchorRetention, Endpoint, EngineConfig};
use zodl_slipstream::engine::{SyncOutcome, SyncReport, TransparentStats};
use zodl_slipstream::enhance::EnhanceStats;
use zodl_slipstream::ffi_handle::FfiSlipstreamSnapshot;
use zodl_slipstream::network::{NetworkType, NetworkUpgrade};
use zodl_slipstream::{Network, Progress, SlipstreamNetwork};

#[test]
fn custom_heights_parse_and_resolve_to_custom_params() {
    // Main constants, genesis base, one upgrade at 5000.
    let net = resolve_network(NetworkArg::Main, Some("genesis,nu6_2=5000")).unwrap();
    assert_eq!(net.network_type(), NetworkType::Main);
    assert_eq!(net.activation_height(NetworkUpgrade::Sapling), Some(1));
    assert_eq!(net.activation_height(NetworkUpgrade::Nu6_2), Some(5000));

    assert!(parse_custom_heights("nu9=1").is_err());
    assert!(parse_custom_heights("sapling").is_err());
    assert!(parse_custom_heights("sapling=x").is_err());
}

#[test]
fn custom_heights_grammar() {
    let h = parse_custom_heights(" sapling = 7 ,, nu5=9,sapling=8 ").unwrap();
    assert_eq!(h.sapling, Some(8), "a later part overrides");
    assert_eq!(h.nu5, Some(9));
    assert_eq!(h.canopy, None);
    assert_eq!(parse_custom_heights("").unwrap().sapling, None);
    assert_eq!(
        parse_custom_heights("nu5=3,genesis").unwrap().nu5,
        Some(1),
        "genesis overrides what came before"
    );
    let all = parse_custom_heights(
        "overwinter=1,sapling=2,blossom=3,heartwood=4,canopy=5,nu5=6,nu6=7,nu6_1=8,nu6_2=9",
    )
    .unwrap();
    assert_eq!(
        (all.overwinter, all.blossom, all.heartwood, all.canopy, all.nu6, all.nu6_1, all.nu6_2),
        (Some(1), Some(3), Some(4), Some(5), Some(7), Some(8), Some(9))
    );
    assert_eq!(
        parse_custom_heights("sapling").unwrap_err(),
        "expected upgrade=height, got \"sapling\""
    );
    assert_eq!(
        parse_custom_heights("genesis, nu9 =1").unwrap_err(),
        "unknown upgrade \"nu9\""
    );
    assert_eq!(
        parse_custom_heights("nu5=4294967296").unwrap_err(),
        "bad height in \"nu5=4294967296\": number too large to fit in target type"
    );
    assert_eq!(
        resolve_network(NetworkArg::Test, Some("x")).unwrap_err(),
        "error: --custom-heights: expected upgrade=height, got \"x\""
    );
    assert_eq!(
        resolve_network(NetworkArg::Test, None).unwrap(),
        SlipstreamNetwork::testnet()
    );
    assert_eq!(NetworkArg::Test.to_network(), Network::TestNetwork);
    assert_eq!(NetworkArg::Test.to_network_type(), NetworkType::Test);
}

#[test]
fn derive_ufvk_produces_a_testnet_ufvk() {
    let phrase = "abandon abandon abandon abandon abandon abandon abandon abandon abandon abandon abandon about";
    let encoded = derive_ufvk(Network::TestNetwork, phrase, 0).expect("derives");
    assert!(
        encoded.starts_with("uviewtest1"),
        "testnet UFVK must carry the uviewtest HRP, got {encoded}"
    );
}

const PHRASE: &str = "abandon abandon abandon abandon abandon abandon abandon abandon abandon abandon abandon about";

#[test]
fn derived_keys_depend_on_every_argument() {
    let main = derive_ufvk(Network::MainNetwork, PHRASE, 0).unwrap();
    assert!(main.starts_with("uview1"));
    assert_ne!(main, derive_ufvk(Network::MainNetwork, PHRASE, 1).unwrap());
    let other = "zoo zoo zoo zoo zoo zoo zoo zoo zoo zoo zoo wrong";
    assert_ne!(main, derive_ufvk(Network::MainNetwork, other, 0).unwrap());
    let err = derive_ufvk(Network::MainNetwork, "abandon abandon", 0).unwrap_err();
    assert!(err.starts_with("invalid mnemonic: ") && err.len() > 18, "{err}");
    assert_eq!(
        derive_ufvk(Network::MainNetwork, PHRASE, 0x8000_0000).unwrap_err(),
        "invalid account index 2147483648"
    );
    derive_ufvk(Network::MainNetwork, PHRASE, 0x7fff_ffff).expect("the last account");
    assert_eq!(
        derive_hint(Network::TestNetwork),
        "hint: slipstream sync --network test --server <lwd-url> --wallet-dir <dir> --ufvk '<above>' --birthday <height>"
    );
    assert!(derive_hint(Network::MainNetwork).contains("--network main"));
}

#[test]
fn payments_are_checked() {
    let ufvk = derive_ufvk(Network::TestNetwork, PHRASE, 0).unwrap();
    let own = check_payment(Network::TestNetwork, &ufvk, None, 5).unwrap();
    assert!(own.to.starts_with("utest1"), "{}", own.to);
    assert_eq!(own.zats, 5);
    let again = check_payment(Network::TestNetwork, &ufvk, Some(own.to.clone()), 6).unwrap();
    assert_eq!(again.to, own.to);
    assert_eq!(
        check_payment(Network::TestNetwork, "no key", None, 5).unwrap_err(),
        "default address"
    );
    assert_eq!(
        check_payment(Network::TestNetwork, &ufvk, Some("nowhere".into()), 5).unwrap_err(),
        "recipient address parses"
    );
    assert_eq!(
        check_payment(Network::TestNetwork, &ufvk, None, MAX_ZATOSHIS + 1).unwrap_err(),
        "amount out of range"
    );
    assert!(payment_of("x".into(), true, MAX_ZATOSHIS).is_ok());
    assert!(check_wallet(1, "k", "k").is_ok());
    assert_eq!(
        check_wallet(2, "k", "k").unwrap_err(),
        "send tooling expects a single-account wallet"
    );
    assert_eq!(
        check_wallet(1, "k", "l").unwrap_err(),
        "mnemonic/account does not match the wallet's UFVK"
    );
    assert!(check_created(1).is_ok());
    assert_eq!(
        check_created(2).unwrap_err(),
        "exactly one transaction expected"
    );
    assert_eq!(
        broadcast_verdict(0, "", "ab").unwrap(),
        "BROADCAST ACCEPTED: txid ab"
    );
    assert_eq!(
        broadcast_verdict(-25, "bad-txns", "ab").unwrap_err(),
        "BROADCAST REJECTED (-25): bad-txns"
    );
}

#[test]
fn parse_server_happy_https() {
    let ep = parse_server("https://zec.rocks:443").expect("ok");
    assert_eq!(ep.host, "zec.rocks");
    assert_eq!(ep.port, 443);
    assert!(ep.tls);
}

#[test]
fn parse_server_sad_missing_port() {
    let err = parse_server("https://zec.rocks").unwrap_err();
    assert!(err.contains("port"), "error should mention port: {err}");
}

#[test]
fn parse_server_sad_bad_scheme() {
    let err = parse_server("ftp://zec.rocks:443").unwrap_err();
    assert!(err.contains("http"), "error should mention http: {err}");
}

#[test]
fn parse_server_grammar() {
    let ep = parse_server("http://h:1///").unwrap();
    assert_eq!((ep.host.as_str(), ep.port, ep.tls), ("h", 1, false));
    assert_eq!(parse_server("http://:1").unwrap().host, "");
    assert_eq!(
        parse_server("http://a:b:1").unwrap_err(),
        "bad port: invalid digit found in string",
        "the first colon counts"
    );
    assert_eq!(
        parse_server("http://a").unwrap_err(),
        "server must include a port: http://a"
    );
    assert_eq!(
        parse_server("a:1").unwrap_err(),
        "server must start with http:// or https://: a:1"
    );
    assert_eq!(
        parse_server("http://a:").unwrap_err(),
        "bad port: cannot parse integer from empty string"
    );
}

#[test]
fn parse_range_happy() {
    let (start, end) = parse_range("2500000..2600000").expect("ok");
    assert_eq!(start, 2_500_000);
    assert_eq!(end, 2_600_000);
}

#[test]
fn parse_range_sad_end_before_start() {
    let err = parse_range("2600000..2500000").unwrap_err();
    assert!(err.contains(">="), "error should mention >=: {err}");
}

#[test]
fn parse_range_rejects_inclusive_syntax() {
    let err = parse_range("2500000..=2600000").unwrap_err();
    assert!(err.contains("..="), "error should mention ..=: {err}");
}

#[test]
fn parse_range_grammar() {
    assert_eq!(parse_range(" 5 .. 5 ").unwrap(), (5, 5));
    assert_eq!(parse_range("+1..2").unwrap(), (1, 2));
    assert_eq!(
        parse_range("5").unwrap_err(),
        "range must be start..end: 5"
    );
    assert_eq!(
        parse_range("x..5").unwrap_err(),
        "bad start: invalid digit found in string"
    );
    assert_eq!(
        parse_range("5..").unwrap_err(),
        "bad end: cannot parse integer from empty string"
    );
    assert_eq!(
        parse_range("1...5").unwrap_err(),
        "bad end: invalid digit found in string"
    );
    assert_eq!(
        parse_range("1..18446744073709551616").unwrap_err(),
        "bad end: number too large to fit in target type"
    );
    assert_eq!(
        parse_range("1..=2").unwrap_err(),
        "range must be start..end (not ..=): 1..=2"
    );
}

const VALID_MAINNET_UFVK: &str = "uview17fme6ux853km45g9ep07djpfzeydxxgm22xpmr7arzxyutlusalgpqlx7suga4ahzywfuwz4jclm00u7g8u65qvvdt45kttnfunvschssg3h3g06txs9ja32vx3xa8dej3unnatgzjvd0vumk37t8es3ludldrtse3q6226ws7eq4q0ywz78nudwpepgdn7jmxz8yvp7k6gxkeynkam0f8aqf9qpeaej55zhkw39x7epayhndul0j4xjttdxxlnwcd09nr8svyx8j0zng0w6scx3m5unpkaqxcm3hslhlfg4caz7r8d4xy9wm7klkg79w7j0uyzec5s3yje20eg946r6rmkf532nfydu26s8q9ua7mwxw2j2ag7hfcuu652gw6uta03vlm05zju3a9rwc4h367kqzfqrcz35pdwdk2a7yqnk850un3ujxcvve45ueajgvtr6dj4ufszgqwdy0aedgmkalx2p7qed2suarwkr35dl0c8dnqp3";

fn main_net() -> SlipstreamNetwork {
    SlipstreamNetwork::from(Network::MainNetwork)
}

#[test]
fn sync_requires_birthday_with_ufvk() {
    let result = validate_sync_args(&main_net(), Some("uview1someufvk"), None);
    assert!(result.is_err(), "ufvk without birthday must error");
    let msg = result.unwrap_err();
    assert!(
        msg.contains("birthday"),
        "error message should mention birthday: {msg}"
    );
}

#[test]
fn sync_allows_no_ufvk_no_birthday() {
    let result = validate_sync_args(&main_net(), None, None).expect("no args is valid");
    assert!(result.is_empty(), "no ufvk = no accounts to import");
}

#[test]
fn sync_allows_ufvk_with_birthday() {
    let accounts = validate_sync_args(&main_net(), Some(VALID_MAINNET_UFVK), Some(800_000))
        .expect("valid ufvk + birthday");
    assert_eq!(accounts.len(), 1, "one account to bootstrap");
    assert_eq!(
        accounts[0].birthday, 800_000,
        "birthday preserved as a BlockHeight"
    );
    assert_eq!(accounts[0].ufvk, VALID_MAINNET_UFVK);
}

#[test]
fn sync_rejects_undecodable_ufvk() {
    let result = validate_sync_args(&main_net(), Some("uview1someufvk"), Some(800_000));
    assert!(result.is_err(), "an undecodable ufvk must error");
}

#[test]
fn sync_allows_birthday_without_ufvk_returns_empty() {
    let result =
        validate_sync_args(&main_net(), None, Some(800_000)).expect("birthday-only is valid");
    assert!(result.is_empty(), "expected no accounts, got {result:?}");
}

#[test]
fn account_errors_have_their_words() {
    let err = parse_account(&main_net(), "uview1someufvk", 1).unwrap_err();
    assert!(err.starts_with("invalid --ufvk: ") && err.len() > 16, "{err}");
    assert_eq!(
        parse_account(&main_net(), VALID_MAINNET_UFVK, 4_294_967_296).unwrap_err(),
        "--birthday 4294967296 exceeds the u32 block-height range"
    );
    assert_eq!(
        account_of(Err("x".into()), "k", 1).unwrap_err(),
        "invalid --ufvk: x"
    );
    assert_eq!(account_of(Ok(()), "k", 7).unwrap().birthday, 7);
}

#[test]
fn require_gpu_feature_noop_when_not_requested() {
    assert!(require_gpu_feature_if(false, "--gpu-subtree-b", false).is_ok());
    assert!(require_gpu_feature_if(false, "--gpu-subtree", true).is_ok());
}

#[test]
fn require_gpu_feature_ok_when_built_with_gpu() {
    assert!(require_gpu_feature_if(true, "--gpu-subtree-b", true).is_ok());
    let err = require_gpu_feature_if(true, "--gpu-subtree-b", false).unwrap_err();
    assert!(
        err.starts_with("error: --gpu-subtree-b needs a build with --features gpu"),
        "{err}"
    );
}

fn ep() -> Endpoint {
    parse_server("https://zec.rocks:443").unwrap()
}

fn flags() -> SyncFlags {
    SyncFlags {
        network: main_net(),
        streams: 4,
        chunk: 10_000,
        sparse: true,
        chunk_split_bytes: EngineConfig::DEFAULT_CHUNK_SPLIT_BYTES,
        memory_budget_bytes: EngineConfig::DEFAULT_MEMORY_BUDGET,
        write_behind: true,
        gpu_subtree: false,
        persist_depth: 1,
        anchor_retention: None,
        anchor_retention_interval: 144,
    }
}

#[test]
fn sync_switches_keep_the_config_valid() {
    for sparse in [true, false] {
        for write_behind in [true, false] {
            let mut f = flags();
            f.sparse = sparse;
            f.write_behind = write_behind;
            let c = sync_config(&f, "/tmp/data.db".into(), ep(), false).unwrap();
            assert!(c.validate().is_ok(), "sparse {sparse} write_behind {write_behind}");
            assert_eq!(c.sparse_persistence, sparse);
            assert_eq!(c.write_behind, write_behind && sparse);
            assert_eq!(c.graft_subtree, write_behind && sparse);
        }
    }
    let mut f = flags();
    f.streams = 9;
    f.chunk = 123;
    f.chunk_split_bytes = 2_097_152;
    f.memory_budget_bytes = 67_108_864;
    f.persist_depth = 3;
    f.gpu_subtree = true;
    f.anchor_retention = Some(77);
    let c = sync_config(&f, "/tmp/data.db".into(), ep(), true).unwrap();
    assert_eq!(
        (c.fetch_streams, c.chunk_blocks, c.chunk_split_bytes, c.memory_budget_bytes),
        (9, 123, 2_097_152, 67_108_864)
    );
    assert_eq!((c.persist_depth, c.gpu_subtree), (3, true));
    assert_eq!(
        c.anchor_retention,
        Some(AnchorRetention {
            from_height: 77,
            interval: 144
        })
    );
    assert_eq!(c.wallet_db_path, "/tmp/data.db");
    let err = sync_config(&f, "x".into(), ep(), false).unwrap_err();
    assert!(err.starts_with("error: --gpu-subtree needs"), "{err}");
    f.anchor_retention_interval = 0;
    assert_eq!(
        sync_config(&f, "x".into(), ep(), true).unwrap_err(),
        "error: --anchor-retention-interval must be greater than zero"
    );
    f.anchor_retention = None;
    assert!(sync_config(&f, "x".into(), ep(), true).is_ok());
}

#[test]
fn bench_config_follows_its_flags() {
    let c = bench_config(
        &BenchFlags {
            network: main_net(),
            graft: false,
            gpu_subtree: true,
            batch_combine: false,
            local_treestate: true,
            treestate_verify_sample: 5,
            persist_depth: 6,
            graft_verify_sample: 7,
        },
        "/tmp/data.db".into(),
        ep(),
        vec![ep()],
    );
    assert_eq!(
        (c.graft_subtree, c.gpu_subtree, c.batch_combine, c.local_treestate),
        (false, true, false, true)
    );
    assert_eq!(
        (c.treestate_verify_sample, c.persist_depth, c.graft_verify_sample),
        (5, 6, 7)
    );
    assert_eq!(c.alternate_endpoints, vec![ep()]);
    assert_eq!(c.fetch_streams, 4);
    assert!(bench_dir_fault("/w").starts_with("error: /w already contains a data.db"));
}

#[test]
fn oracle_sides_are_checked_and_valid() {
    let side = |sparse, write_behind, gpu_subtree| OracleSide {
        sparse,
        write_behind,
        gpu_subtree,
        persist_depth: 4,
    };
    assert_eq!(
        oracle_sides(side(false, true, false), false).unwrap_err(),
        "error: --write-behind-b requires --sparse-b"
    );
    assert_eq!(
        oracle_sides(side(false, false, true), true).unwrap_err(),
        "error: --gpu-subtree-b requires --sparse-b"
    );
    assert!(oracle_sides(side(true, false, true), false)
        .unwrap_err()
        .starts_with("error: --gpu-subtree-b needs"));
    for b in [
        side(false, false, false),
        side(true, false, false),
        side(true, true, false),
        side(true, true, true),
    ] {
        let (first, second) = oracle_sides(b, true).unwrap();
        assert_eq!(second, b);
        assert!(!first.sparse && !first.write_behind && !first.gpu_subtree);
        for s in [first, second] {
            let c = oracle_config(s, main_net(), 4, 10_000, "/tmp/o.db".into(), ep());
            assert!(c.validate().is_ok(), "{s:?}");
            assert_eq!(c.sparse_persistence, s.sparse);
            assert_eq!(c.write_behind, s.write_behind);
            assert_eq!(c.persist_depth, s.persist_depth);
        }
    }
    assert_eq!(
        oracle_dir_fault("/w"),
        "error: /w already contains data.db — oracle needs fresh wallets"
    );
}

#[test]
fn oracle_verdicts() {
    assert!(oracle_tips(5, 5).is_none());
    let skew = oracle_tips(5, 6).unwrap();
    assert_eq!(skew.exit_code(), 3);
    match skew {
        OracleVerdict::TipSkew(m) => assert_eq!(
            m,
            "oracle: TIP SKEW (A=5 B=6) — rerun when the chain is quiet"
        ),
        other => panic!("{other:?}"),
    }
    assert_eq!(oracle_verdict(true).exit_code(), 0);
    assert_eq!(oracle_verdict(false).exit_code(), 1);
    assert_eq!(throttle_cap(0), None);
    assert_eq!(throttle_cap(2_000), Some(2_048_000));
}

#[test]
fn shown_texts() {
    assert_eq!(event_tag_name(1), "SyncStarted");
    assert_eq!(event_tag_name(5), "FoundTransactions");
    assert_eq!(event_tag_name(9), "Unknown");
    assert_eq!(event_line(3, 7), "event: SyncDone (value 7)");
    assert_eq!(zec_display(0), "0.00000000");
    assert_eq!(zec_display(123_456_789), "1.23456789");
    assert_eq!(zec_display(-5), "-0.00000005");
    assert_eq!(zec_display(i64::MIN), "-92233720368.54775808");
    assert_eq!(uuid_prefix(&vec![0xab, 0x01, 0xff, 0x10, 0x99]), "ab01ff10");
    assert_eq!(uuid_prefix(&vec![0x0f]), "0f");
    assert_eq!(uuid_prefix(&vec![]), "");
    for (n, name) in [(0, "idle"), (1, "syncing"), (2, "error"), (3, "done"), (4, "?")] {
        assert_eq!(state_name(n), name);
    }
    assert_eq!(watch_interval(50), 200);
    assert_eq!(watch_interval(1000), 1000);
    assert_eq!(shown_count(None), -1);
    assert_eq!(shown_count(Some(3)), 3);
    assert_eq!(shown_count(Some(u64::MAX)), i64::MAX);
    assert_eq!(persist_overlap(10, 4), 6);
    assert_eq!(persist_overlap(4, 10), 0);
    let mut p = Progress::default();
    p.add_fetched(1);
    p.add_scanned(2);
    p.add_enhanced(3);
    p.set_chain_tip(4);
    assert_eq!(
        ticker_line(&p),
        "progress: fetched 1 | scanned 2 | enhanced 3 (tip 4)"
    );
}

#[test]
fn watch_lines() {
    let mut s = FfiSlipstreamSnapshot::default();
    assert_eq!(balance_source(&s), BalanceSource::Summary);
    s.state = 1;
    s.is_recovering = 1;
    s.progress_permille = 250;
    s.stalled_seconds = 3;
    s.scanned_blocks = 10;
    s.pass_total_blocks = 40;
    s.chain_tip = 99;
    assert_eq!(balance_source(&s), BalanceSource::Reconciled);
    let none = balances_line(&vec![], BalanceSource::Summary);
    assert_eq!(none, "balance: (none yet)");
    let two = vec![
        Balance {
            account: "aa".into(),
            zats: 100_000_000,
        },
        Balance {
            account: "bb".into(),
            zats: 1,
        },
    ];
    assert_eq!(
        balances_line(&two, BalanceSource::Reconciled),
        "aa: 1.00000000 ZEC [Σ reconciled (recovering)] | bb: 0.00000001 ZEC [Σ reconciled (recovering)]"
    );
    assert_eq!(
        watch_line(&s, -1, &none),
        "[syncing] 250‰ | recovering: true | stalled: 3s | scanned 10/40 | tip 99 | visible txs: -1 | balance: (none yet)"
    );
}

#[test]
fn summaries() {
    let mut o = SyncOutcome {
        report: SyncReport {
            sapling_received: 1,
            orchard_received: 2,
            ..Default::default()
        },
        enhance: EnhanceStats {
            txs_stored: 3,
            statuses_set: 4,
            skipped: 5,
            ..Default::default()
        },
        transparent: TransparentStats {
            utxos: 6,
            accounts: 7,
        },
        enhance_elapsed: 0,
        elapsed: 0,
        chain_tip: 0,
        wire_probe: 0,
        wire_switches: 0,
    };
    assert_eq!(
        summary_lines(&o),
        vec![
            "notes found: sapling 1 orchard 2",
            "enhanced: 3 txs, 4 statuses (5 skipped)",
            "utxos: 6 across 7 accounts",
        ]
    );
    o.report.reorgs_recovered = 8;
    assert_eq!(summary_lines(&o)[3], "reorgs: 8 recovered");
}

#[test]
fn derivations_are_checked_step_by_step() {
    let seed = [7u8; 64];
    assert_eq!(checked_seed(Ok(seed), 0), Ok(seed));
    assert_eq!(checked_seed(Ok(seed), 0x7fff_ffff), Ok(seed));
    assert_eq!(
        checked_seed(Ok(seed), 0x8000_0000),
        Err("invalid account index 2147483648".to_string())
    );
    assert_eq!(
        checked_seed(Err("no".into()), 0x8000_0000),
        Err("invalid mnemonic: no".to_string())
    );
    assert_eq!(derived_key(Ok("uview".into())), Ok("uview".to_string()));
    assert_eq!(
        derived_key(Err("Bad".into())),
        Err("derivation failed: Bad".to_string())
    );
}
