//! The configurations of the commands, and what they refuse before they run.
use crate::config::{config_fault, AnchorRetention, Endpoint, EngineConfig};
use crate::network::SlipstreamNetwork;
use crate::text::{dec, push_dec};
use vstd::prelude::*;

verus! {

/// Refuses the GPU flag in a build without GPU support: the work would silently run on
/// the CPU.
pub fn require_gpu_feature_if(requested: bool, flag: &str, built_with_gpu: bool) -> (r: Result<
    (),
    String,
>)
    ensures
        !requested || built_with_gpu ==> r is Ok,
        requested && !built_with_gpu ==> (r matches Err(m) && m@ == gpu_fault(flag@)),
{
    if requested && !built_with_gpu {
        let mut m: String = "error: ".to_owned();
        m.push_str(flag);
        m.push_str(
            " needs a build with --features gpu (else it silently runs the CPU path — a false IDENTICAL). Rebuild, e.g.: cargo run -p slipstream-cli --features gpu -- …",
        );
        return Err(m);
    }
    Ok(())
}

/// The words for a GPU flag in a build without GPU support.
pub open spec fn gpu_fault(flag: Seq<char>) -> Seq<char> {
    "error: "@ + flag
        + " needs a build with --features gpu (else it silently runs the CPU path — a false IDENTICAL). Rebuild, e.g.: cargo run -p slipstream-cli --features gpu -- …"@
}

/// The flags of a sync.
#[derive(Debug, Clone, Copy)]
pub struct SyncFlags {
    pub network: SlipstreamNetwork,
    pub streams: usize,
    pub chunk: u32,
    pub sparse: bool,
    pub chunk_split_bytes: usize,
    pub memory_budget_bytes: usize,
    pub write_behind: bool,
    pub gpu_subtree: bool,
    pub persist_depth: usize,
    /// The height from which on checkpoints are kept, where any are.
    pub anchor_retention: Option<u32>,
    /// The grid on which they are kept.
    pub anchor_retention_interval: u32,
}

/// What is wrong with the flags of a sync, in words.
pub open spec fn sync_flags_fault(f: SyncFlags, built_with_gpu: bool) -> Option<Seq<char>> {
    if f.anchor_retention is Some && f.anchor_retention_interval == 0 {
        Some("error: --anchor-retention-interval must be greater than zero"@)
    } else if f.gpu_subtree && !built_with_gpu {
        Some(gpu_fault("--gpu-subtree"@))
    } else {
        None
    }
}

/// Whether a configuration is that of a sync with the given flags. What builds on the
/// sparse persistence is off without it, and grafting, which runs in the persist lane, is
/// off without write-behind: either switch leaves a configuration that works.
pub open spec fn is_sync_config(
    c: EngineConfig,
    f: SyncFlags,
    wallet_db_path: String,
    endpoint: Endpoint,
) -> bool {
    exists|base: EngineConfig| #[trigger]
        base.is_default(f.network, wallet_db_path, endpoint) && c == (EngineConfig {
            fetch_streams: f.streams,
            chunk_blocks: f.chunk,
            sparse_persistence: f.sparse,
            chunk_split_bytes: f.chunk_split_bytes,
            memory_budget_bytes: f.memory_budget_bytes,
            anchor_retention: match f.anchor_retention {
                Some(from_height) => Some(
                    AnchorRetention { from_height, interval: f.anchor_retention_interval },
                ),
                None => None,
            },
            write_behind: f.write_behind && f.sparse,
            gpu_subtree: f.gpu_subtree && f.sparse,
            graft_subtree: f.write_behind && f.sparse,
            persist_depth: f.persist_depth,
            ..base
        })
}

/// The configuration of a sync.
pub fn sync_config(
    f: &SyncFlags,
    wallet_db_path: String,
    endpoint: Endpoint,
    built_with_gpu: bool,
) -> (r: Result<EngineConfig, String>)
    ensures
        match sync_flags_fault(*f, built_with_gpu) {
            None => r matches Ok(c) && is_sync_config(c, *f, wallet_db_path, endpoint),
            Some(e) => r matches Err(m) && m@ == e,
        },
{
    let mut c: EngineConfig = EngineConfig::new(f.network, wallet_db_path, endpoint);
    let ghost base = c;
    c.fetch_streams = f.streams;
    c.chunk_blocks = f.chunk;
    c.sparse_persistence = f.sparse;
    c.chunk_split_bytes = f.chunk_split_bytes;
    c.memory_budget_bytes = f.memory_budget_bytes;
    match f.anchor_retention {
        Some(from_height) => {
            if f.anchor_retention_interval == 0 {
                return Err(
                    "error: --anchor-retention-interval must be greater than zero".to_owned(),
                );
            }
            c.anchor_retention = Some(
                AnchorRetention { from_height, interval: f.anchor_retention_interval },
            );
        },
        None => {},
    }
    match require_gpu_feature_if(f.gpu_subtree, "--gpu-subtree", built_with_gpu) {
        Ok(_) => {},
        Err(e) => {
            return Err(e);
        },
    }
    c.write_behind = f.write_behind && f.sparse;
    c.gpu_subtree = f.gpu_subtree && f.sparse;
    c.graft_subtree = f.write_behind && f.sparse;
    c.persist_depth = f.persist_depth;
    assert(base.is_default(f.network, wallet_db_path, endpoint));
    Ok(c)
}

/// Whatever switches are thrown, the configuration of a sync is valid as long as its numbers
/// are within their bounds and its endpoint has a host.
pub proof fn law_sync_switches_keep_valid(
    c: EngineConfig,
    f: SyncFlags,
    wallet_db_path: String,
    endpoint: Endpoint,
)
    requires
        is_sync_config(c, f, wallet_db_path, endpoint),
        endpoint.host@.len() > 0,
        f.streams >= 1,
        f.chunk >= 100,
        f.memory_budget_bytes >= 16_777_216,
        f.chunk_split_bytes >= 1_048_576,
        1 <= f.persist_depth <= 64,
    ensures
        config_fault(c) is None,
{
}

/// The flags of a benchmark.
#[derive(Debug, Clone, Copy)]
pub struct BenchFlags {
    pub network: SlipstreamNetwork,
    pub graft: bool,
    pub gpu_subtree: bool,
    pub batch_combine: bool,
    pub local_treestate: bool,
    pub treestate_verify_sample: u32,
    pub persist_depth: usize,
    pub graft_verify_sample: u32,
}

/// The configuration of a benchmark: a fresh restore with the defaults but for its flags.
pub fn bench_config(
    f: &BenchFlags,
    wallet_db_path: String,
    endpoint: Endpoint,
    alternates: Vec<Endpoint>,
) -> (r: EngineConfig)
    ensures
        exists|base: EngineConfig| #[trigger]
            base.is_default(f.network, wallet_db_path, endpoint) && r == (EngineConfig {
                gpu_subtree: f.gpu_subtree,
                graft_subtree: f.graft,
                local_treestate: f.local_treestate,
                treestate_verify_sample: f.treestate_verify_sample,
                persist_depth: f.persist_depth,
                graft_verify_sample: f.graft_verify_sample,
                batch_combine: f.batch_combine,
                alternate_endpoints: alternates,
                ..base
            }),
{
    let mut c: EngineConfig = EngineConfig::new(f.network, wallet_db_path, endpoint);
    let ghost base = c;
    c.gpu_subtree = f.gpu_subtree;
    c.graft_subtree = f.graft;
    c.local_treestate = f.local_treestate;
    c.treestate_verify_sample = f.treestate_verify_sample;
    c.persist_depth = f.persist_depth;
    c.graft_verify_sample = f.graft_verify_sample;
    c.batch_combine = f.batch_combine;
    c.alternate_endpoints = alternates;
    assert(base.is_default(f.network, wallet_db_path, endpoint));
    c
}

/// The words for a wallet directory that a benchmark cannot use.
pub fn bench_dir_fault(dir: &str) -> (r: String)
    ensures
        r@ == "error: "@ + dir@
            + " already contains a data.db — a bench is a FRESH restore; point --wallet-dir at an empty dir or omit it for a temp dir"@,
{
    let mut m: String = "error: ".to_owned();
    m.push_str(dir);
    m.push_str(
        " already contains a data.db — a bench is a FRESH restore; point --wallet-dir at an empty dir or omit it for a temp dir",
    );
    m
}

/// How one side of an oracle run persists.
#[derive(Debug, Clone, Copy, PartialEq, Eq, Structural)]
pub struct OracleSide {
    pub sparse: bool,
    pub write_behind: bool,
    pub gpu_subtree: bool,
    pub persist_depth: usize,
}

/// What is wrong with the flags of an oracle run's second side, in words.
pub open spec fn oracle_fault(b: OracleSide, built_with_gpu: bool) -> Option<Seq<char>> {
    if b.write_behind && !b.sparse {
        Some("error: --write-behind-b requires --sparse-b"@)
    } else if b.gpu_subtree && !b.sparse {
        Some("error: --gpu-subtree-b requires --sparse-b"@)
    } else if b.gpu_subtree && !built_with_gpu {
        Some(gpu_fault("--gpu-subtree-b"@))
    } else {
        None
    }
}

/// Checks the flags of an oracle run, and hands out how its two sides persist: the first
/// plainly, the second as the flags say.
pub fn oracle_sides(b: OracleSide, built_with_gpu: bool) -> (r: Result<
    (OracleSide, OracleSide),
    String,
>)
    ensures
        match oracle_fault(b, built_with_gpu) {
            None => r == Ok::<(OracleSide, OracleSide), String>(
                (
                    OracleSide {
                        sparse: false,
                        write_behind: false,
                        gpu_subtree: false,
                        persist_depth: 1,
                    },
                    b,
                ),
            ),
            Some(e) => r matches Err(m) && m@ == e,
        },
{
    if b.write_behind && !b.sparse {
        return Err("error: --write-behind-b requires --sparse-b".to_owned());
    }
    if b.gpu_subtree && !b.sparse {
        return Err("error: --gpu-subtree-b requires --sparse-b".to_owned());
    }
    match require_gpu_feature_if(b.gpu_subtree, "--gpu-subtree-b", built_with_gpu) {
        Ok(_) => {},
        Err(e) => {
            return Err(e);
        },
    }
    Ok(
        (
            OracleSide { sparse: false, write_behind: false, gpu_subtree: false, persist_depth: 1 },
            b,
        ),
    )
}

/// Whether a configuration is that of one side of an oracle run. Grafting needs the sparse
/// persistence and write-behind, and is off without them.
pub open spec fn is_oracle_config(
    c: EngineConfig,
    side: OracleSide,
    network: SlipstreamNetwork,
    streams: usize,
    chunk: u32,
    wallet_db_path: String,
    endpoint: Endpoint,
) -> bool {
    exists|base: EngineConfig| #[trigger]
        base.is_default(network, wallet_db_path, endpoint) && c == (EngineConfig {
            fetch_streams: streams,
            chunk_blocks: chunk,
            sparse_persistence: side.sparse,
            write_behind: side.write_behind,
            gpu_subtree: side.gpu_subtree,
            graft_subtree: side.sparse && side.write_behind,
            persist_depth: side.persist_depth,
            ..base
        })
}

/// The configuration of one side of an oracle run.
pub fn oracle_config(
    side: OracleSide,
    network: SlipstreamNetwork,
    streams: usize,
    chunk: u32,
    wallet_db_path: String,
    endpoint: Endpoint,
) -> (r: EngineConfig)
    ensures
        is_oracle_config(r, side, network, streams, chunk, wallet_db_path, endpoint),
{
    let mut c: EngineConfig = EngineConfig::new(network, wallet_db_path, endpoint);
    let ghost base = c;
    c.fetch_streams = streams;
    c.chunk_blocks = chunk;
    c.sparse_persistence = side.sparse;
    c.write_behind = side.write_behind;
    c.gpu_subtree = side.gpu_subtree;
    c.graft_subtree = side.sparse && side.write_behind;
    c.persist_depth = side.persist_depth;
    assert(base.is_default(network, wallet_db_path, endpoint));
    c
}

/// Both sides of an oracle run whose flags are accepted have valid configurations, as
/// long as the numbers are within their bounds and the endpoint has a host.
pub proof fn law_oracle_sides_are_valid(
    a: EngineConfig,
    b: EngineConfig,
    side: OracleSide,
    built_with_gpu: bool,
    network: SlipstreamNetwork,
    streams: usize,
    chunk: u32,
    path_a: String,
    path_b: String,
    endpoint: Endpoint,
)
    requires
        oracle_fault(side, built_with_gpu) is None,
        is_oracle_config(
            a,
            OracleSide { sparse: false, write_behind: false, gpu_subtree: false, persist_depth: 1 },
            network,
            streams,
            chunk,
            path_a,
            endpoint,
        ),
        is_oracle_config(b, side, network, streams, chunk, path_b, endpoint),
        endpoint.host@.len() > 0,
        streams >= 1,
        chunk >= 100,
        1 <= side.persist_depth <= 64,
    ensures
        config_fault(a) is None,
        config_fault(b) is None,
{
}

/// The words for a wallet directory that an oracle run cannot use.
pub fn oracle_dir_fault(dir: &str) -> (r: String)
    ensures
        r@ == "error: "@ + dir@ + " already contains data.db — oracle needs fresh wallets"@,
{
    let mut m: String = "error: ".to_owned();
    m.push_str(dir);
    m.push_str(" already contains data.db — oracle needs fresh wallets");
    m
}

/// What an oracle run found. Each has the exit code of the process.
#[derive(Debug)]
pub enum OracleVerdict {
    /// The wallets are the same: 0.
    Identical(String),
    /// They differ: 1.
    Diverged(String),
    /// The two sides saw different tips, so that nothing can be said: 3.
    TipSkew(String),
}

/// Whether the two sides of an oracle run can be compared: only at the same tip.
pub fn oracle_tips(tip_a: u64, tip_b: u64) -> (r: Option<OracleVerdict>)
    ensures
        tip_a == tip_b <==> r is None,
        r matches Some(v) ==> (v matches OracleVerdict::TipSkew(m) && m@ == "oracle: TIP SKEW (A="@
            + dec(tip_a as nat) + " B="@ + dec(tip_b as nat)
            + ") — rerun when the chain is quiet"@),
{
    if tip_a == tip_b {
        return None;
    }
    let mut m: String = "oracle: TIP SKEW (A=".to_owned();
    push_dec(&mut m, tip_a);
    m.push_str(" B=");
    push_dec(&mut m, tip_b);
    m.push_str(") — rerun when the chain is quiet");
    Some(OracleVerdict::TipSkew(m))
}

/// The verdict on a report that is clean, or is not.
pub fn oracle_verdict(clean: bool) -> (r: OracleVerdict)
    ensures
        clean ==> (r matches OracleVerdict::Identical(m) && m@ == "oracle: VERDICT IDENTICAL"@),
        !clean ==> (r matches OracleVerdict::Diverged(m) && m@ == "oracle: VERDICT DIVERGED"@),
{
    if clean {
        OracleVerdict::Identical("oracle: VERDICT IDENTICAL".to_owned())
    } else {
        OracleVerdict::Diverged("oracle: VERDICT DIVERGED".to_owned())
    }
}

impl OracleVerdict {
    /// The exit code of the process.
    pub fn exit_code(&self) -> (r: i32)
        ensures
            r == match self {
                OracleVerdict::Identical(_) => 0i32,
                OracleVerdict::Diverged(_) => 1i32,
                OracleVerdict::TipSkew(_) => 3i32,
            },
    {
        match self {
            OracleVerdict::Identical(_) => 0,
            OracleVerdict::Diverged(_) => 1,
            OracleVerdict::TipSkew(_) => 3,
        }
    }
}

/// The cap of a throttled connection in bytes per second, from its flag in KB per second:
/// none for zero. A flag too large for 64 bits of bytes is no cap that a machine meets.
pub fn throttle_cap(cap_kbps: u64) -> (r: Option<u64>)
    requires
        cap_kbps * 1024 <= u64::MAX,
    ensures
        cap_kbps == 0 ==> r is None,
        cap_kbps > 0 ==> r == Some((cap_kbps * 1024) as u64),
{
    if cap_kbps == 0 {
        None
    } else {
        Some(cap_kbps * 1024)
    }
}

/// The flags of a sync are refused where checkpoints are to be kept on a grid of no blocks,
/// and where the GPU is asked for that the build does not have; in no other case.
pub proof fn law_sync_flags_that_are_refused(f: SyncFlags, built_with_gpu: bool)
    ensures
        sync_flags_fault(f, built_with_gpu) is None <==> !(f.anchor_retention is Some
            && f.anchor_retention_interval == 0) && (f.gpu_subtree ==> built_with_gpu),
        f.anchor_retention is Some && f.anchor_retention_interval == 0 ==> sync_flags_fault(
            f,
            built_with_gpu,
        ) == Some("error: --anchor-retention-interval must be greater than zero"@),
        !(f.anchor_retention is Some && f.anchor_retention_interval == 0) && f.gpu_subtree
            && !built_with_gpu ==> sync_flags_fault(f, built_with_gpu) == Some(
            gpu_fault("--gpu-subtree"@),
        ),
{
}

/// A flag that needs the GPU is named in the refusal.
pub proof fn law_gpu_refusal_names_the_flag(flag: Seq<char>)
    ensures
        gpu_fault(flag) == "error: "@ + flag
            + " needs a build with --features gpu (else it silently runs the CPU path — a false IDENTICAL). Rebuild, e.g.: cargo run -p slipstream-cli --features gpu -- …"@,
{
}

/// A sync runs with its flags: each sets what it names, and what builds on the sparse
/// persistence is off without it.
pub proof fn law_sync_runs_with_its_flags(
    c: EngineConfig,
    f: SyncFlags,
    wallet_db_path: String,
    endpoint: Endpoint,
)
    requires
        is_sync_config(c, f, wallet_db_path, endpoint),
    ensures
        c.network == f.network,
        c.wallet_db_path == wallet_db_path,
        c.endpoint == endpoint,
        c.alternate_endpoints@.len() == 0,
        c.fetch_streams == f.streams,
        c.chunk_blocks == f.chunk,
        c.chunk_split_bytes == f.chunk_split_bytes,
        c.memory_budget_bytes == f.memory_budget_bytes,
        c.persist_depth == f.persist_depth,
        c.sparse_persistence == f.sparse,
        c.write_behind <==> f.write_behind && f.sparse,
        c.gpu_subtree <==> f.gpu_subtree && f.sparse,
        c.graft_subtree <==> f.write_behind && f.sparse,
        c.anchor_retention is Some <==> f.anchor_retention is Some,
        c.anchor_retention matches Some(kept) ==> kept.from_height == f.anchor_retention->Some_0
            && kept.interval == f.anchor_retention_interval,
        c.enhance_every_chunks == 3,
        c.scan_batch_target_ms is None,
        c.wire_failover && c.batch_combine && !c.local_treestate,
        c.graft_verify_sample == 16,
        c.treestate_verify_sample == 1,
{
}

/// The second side of an oracle run is refused where it asks for what needs the sparse
/// persistence without that, or for the GPU that the build does not have.
pub proof fn law_oracle_flags_that_are_refused(b: OracleSide, built_with_gpu: bool)
    ensures
        oracle_fault(b, built_with_gpu) is None <==> (b.write_behind ==> b.sparse) && (
        b.gpu_subtree ==> b.sparse && built_with_gpu),
        b.write_behind && !b.sparse ==> oracle_fault(b, built_with_gpu) == Some(
            "error: --write-behind-b requires --sparse-b"@,
        ),
        !b.write_behind && b.gpu_subtree && !b.sparse ==> oracle_fault(b, built_with_gpu) == Some(
            "error: --gpu-subtree-b requires --sparse-b"@,
        ),
        b.gpu_subtree && b.sparse && !built_with_gpu ==> oracle_fault(b, built_with_gpu) == Some(
            gpu_fault("--gpu-subtree-b"@),
        ),
{
}

/// A side of an oracle run persists as it is to, on its own wallet, and is a sync with the
/// defaults otherwise.
pub proof fn law_oracle_side_persists_as_asked(
    c: EngineConfig,
    side: OracleSide,
    network: SlipstreamNetwork,
    streams: usize,
    chunk: u32,
    wallet_db_path: String,
    endpoint: Endpoint,
)
    requires
        is_oracle_config(c, side, network, streams, chunk, wallet_db_path, endpoint),
    ensures
        c.network == network,
        c.wallet_db_path == wallet_db_path,
        c.endpoint == endpoint,
        c.fetch_streams == streams,
        c.chunk_blocks == chunk,
        c.sparse_persistence == side.sparse,
        c.write_behind == side.write_behind,
        c.gpu_subtree == side.gpu_subtree,
        c.graft_subtree <==> side.sparse && side.write_behind,
        c.persist_depth == side.persist_depth,
        c.memory_budget_bytes == 256 * 1024 * 1024,
        c.chunk_split_bytes == 8 * 1024 * 1024,
        c.anchor_retention is None,
{
}

} // verus!
