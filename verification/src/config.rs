//! Engine configuration and lightwalletd endpoints.
use crate::error::SlipstreamError;
use crate::network::SlipstreamNetwork;
use crate::text::{
    chars_of, debug_quoted, debug_text, dec, last_index_of, law_decimal_round_trip, lemma_dec,
    lemma_last_index, matches_at, parse_uint, parse_uint_spec, push_dec, rfind_char, starts_with,
    string_of, ParseUintError,
};
use vstd::prelude::*;

verus! {

/// A lightwalletd endpoint: exactly a host, a port and whether TLS is used.
#[derive(Clone, Debug, PartialEq, Eq)]
pub struct Endpoint {
    pub host: String,
    pub port: u16,
    pub tls: bool,
}

/// The scheme of an endpoint with or without TLS, separator included.
pub open spec fn scheme(tls: bool) -> Seq<char> {
    if tls {
        "https://"@
    } else {
        "http://"@
    }
}

/// The URI of an endpoint.
pub open spec fn uri_text(host: Seq<char>, port: nat, tls: bool) -> Seq<char> {
    scheme(tls) + host + ":"@ + dec(port)
}

/// What a URI means: whether TLS is used, the host and the port, or the words of
/// the error.
pub open spec fn parse_uri_spec(s: Seq<char>) -> Result<(bool, Seq<char>, nat), Seq<char>> {
    if starts_with(s, "https://"@) {
        parse_authority(s, true, s.skip(8))
    } else if starts_with(s, "http://"@) {
        parse_authority(s, false, s.skip(7))
    } else {
        Err("endpoint URI must start with http:// or https://: "@ + debug_text(s))
    }
}

/// One slash at the end is dropped.
pub open spec fn without_slash(s: Seq<char>) -> Seq<char> {
    if s.len() > 0 && s.last() == '/' {
        s.drop_last()
    } else {
        s
    }
}

/// Whether a host is a bracketed IPv6 literal. Servers are named by hosts and IPv4
/// addresses only.
pub open spec fn bracketed(host: Seq<char>) -> bool {
    host.len() > 0 && host[0] == '[' && host.last() == ']'
}

/// What stands behind the scheme of the URI `s`: the last colon parts host and port. Of a
/// bracketed host the colons belong to no port.
pub open spec fn parse_authority(s: Seq<char>, tls: bool, rest: Seq<char>) -> Result<
    (bool, Seq<char>, nat),
    Seq<char>,
> {
    let a = without_slash(rest);
    match last_index_of(a, ':') {
        None => Err("endpoint URI missing :port: "@ + debug_text(s)),
        Some(i) => if i == 0 {
            Err("endpoint URI has empty host: "@ + debug_text(s))
        } else if bracketed(a.take(i)) {
            Err(
                "endpoint URI port ("@ + ParseUintError::InvalidDigit.text() + "): "@ + debug_text(
                    s,
                ),
            )
        } else {
            match parse_uint_spec(a.skip(i + 1), 65_535) {
                Ok(port) => Ok((tls, a.take(i), port)),
                Err(e) => Err("endpoint URI port ("@ + e.text() + "): "@ + debug_text(s)),
            }
        },
    }
}

impl Endpoint {
    /// The URI of the endpoint; the scheme follows the `tls` flag.
    pub fn uri(&self) -> (r: String)
        ensures
            r@ == uri_text(self.host@, self.port as nat, self.tls),
    {
        let mut s: String = if self.tls {
            "https://".to_owned()
        } else {
            "http://".to_owned()
        };
        s.push_str(self.host.as_str());
        s.push_str(":");
        push_dec(&mut s, self.port as u64);
        s
    }

    /// The endpoint of a URI: the scheme selects TLS, one trailing slash is
    /// tolerated, the last colon parts the host from the port. A bracketed IPv6 literal is
    /// rejected.
    pub fn parse_uri(s: &str) -> (r: Result<Self, String>)
        ensures
            match r {
                Ok(e) => parse_uri_spec(s@) == Ok::<(bool, Seq<char>, nat), Seq<char>>(
                    (e.tls, e.host@, e.port as nat),
                ),
                Err(m) => parse_uri_spec(s@) == Err::<(bool, Seq<char>, nat), Seq<char>>(m@),
            },
    {
        let v: Vec<char> = chars_of(s);
        let https: Vec<char> = chars_of("https://");
        let http: Vec<char> = chars_of("http://");
        proof {
            reveal_strlit("https://");
            reveal_strlit("http://");
        }
        let (tls, from): (bool, usize) = if matches_at(&v, &https, 0) {
            (true, 8)
        } else if matches_at(&v, &http, 0) {
            (false, 7)
        } else {
            let mut m: String = "endpoint URI must start with http:// or https://: ".to_owned();
            let q: String = debug_quoted(s);
            m.push_str(q.as_str());
            return Err(m);
        };
        let ghost rest = s@.skip(from as int);
        let mut to: usize = v.len();
        if to > from && v[to - 1] == '/' {
            to = to - 1;
        }
        let ghost a = without_slash(rest);
        assert(v@.subrange(from as int, to as int) =~= a);
        let colon: usize = match rfind_char(&v, from, to, ':') {
            Some(i) => i,
            None => {
                let mut m: String = "endpoint URI missing :port: ".to_owned();
                let q: String = debug_quoted(s);
                m.push_str(q.as_str());
                return Err(m);
            },
        };
        if colon == from {
            let mut m: String = "endpoint URI has empty host: ".to_owned();
            let q: String = debug_quoted(s);
            m.push_str(q.as_str());
            return Err(m);
        }
        assert(v@.subrange(colon + 1, to as int) =~= a.skip(colon - from + 1));
        assert(v@.subrange(from as int, colon as int) =~= a.take(colon - from));
        assert(a.take(colon - from)[0] == v@[from as int]);
        assert(a.take(colon - from).last() == v@[colon - 1]);
        let port: Result<u64, ParseUintError> = if v[from] == '[' && v[colon - 1] == ']' {
            Err(ParseUintError::InvalidDigit)
        } else {
            parse_uint(&v, colon + 1, to, 65_535)
        };
        match port {
            Ok(port) => Ok(Endpoint { host: string_of(&v, from, colon), port: port as u16, tls }),
            Err(e) => {
                let mut m: String = "endpoint URI port (".to_owned();
                let t: String = e.message();
                m.push_str(t.as_str());
                m.push_str("): ");
                let q: String = debug_quoted(s);
                m.push_str(q.as_str());
                Err(m)
            },
        }
    }

    /// A copy of the endpoint.
    pub fn duplicate(&self) -> (r: Endpoint)
        ensures
            r == *self,
    {
        Endpoint { host: self.host.clone(), port: self.port, tls: self.tls }
    }

    /// Whether two endpoints have the same host, port and TLS flag.
    pub open spec fn same(self, other: Endpoint) -> bool {
        self.host@ == other.host@ && self.port == other.port && self.tls == other.tls
    }

    /// Whether two endpoints have the same host, port and TLS flag.
    pub fn is_same(&self, other: &Endpoint) -> (b: bool)
        ensures
            b == self.same(*other),
    {
        self.host == other.host && self.port == other.port && self.tls == other.tls
    }
}

/// Reading back the URI of an endpoint gives the endpoint, whatever its host, as
/// long as there is one and it is no bracketed literal.
pub proof fn law_uri_round_trip(host: Seq<char>, port: nat, tls: bool)
    requires
        host.len() > 0,
        !bracketed(host),
        port <= 65_535,
    ensures
        parse_uri_spec(uri_text(host, port, tls)) == Ok::<(bool, Seq<char>, nat), Seq<char>>(
            (tls, host, port),
        ),
{
    reveal_strlit("https://");
    reveal_strlit("http://");
    reveal_strlit(":");
    let s = uri_text(host, port, tls);
    let n = scheme(tls).len() as int;
    assert(s.subrange(0, n) =~= scheme(tls));
    assert(starts_with(s, scheme(tls)));
    if !tls {
        assert(s[4] == ':');
        assert(s.subrange(0, 8)[4] == ':') by {
            lemma_dec(port);
        }
        assert("https://"@[4] == 's');
        assert(!starts_with(s, "https://"@));
    }
    let rest = s.skip(n);
    assert(rest =~= host + ":"@ + dec(port));
    lemma_dec(port);
    assert(rest.last() == dec(port).last());
    assert(crate::text::is_digit(dec(port)[dec(port).len() - 1]));
    assert(without_slash(rest) == rest);
    lemma_last_index(rest, ':');
    let k = host.len() as int;
    assert(rest[k] == ':');
    match last_index_of(rest, ':') {
        Some(i) => {
            if i != k {
                assert(i > k);
                assert(rest[i] == dec(port)[i - k - 1]);
                assert(crate::text::is_digit(dec(port)[i - k - 1]));
            }
        },
        None => {},
    }
    assert(last_index_of(rest, ':') == Some(k));
    assert(rest.take(k) =~= host);
    assert(rest.skip(k + 1) =~= dec(port));
    law_decimal_round_trip(port, 65_535);
}

/// Which checkpoints stay: those on a grid of `interval` blocks, from a height on.
#[derive(Clone, Copy, Debug, PartialEq, Eq, Structural)]
pub struct AnchorRetention {
    pub from_height: u32,
    pub interval: u32,
}

/// Engine configuration. Made by [`EngineConfig::new`]; the fields are tunables.
#[derive(Clone, Debug)]
#[non_exhaustive]
pub struct EngineConfig {
    pub network: SlipstreamNetwork,
    /// The wallet database.
    pub wallet_db_path: String,
    pub endpoint: Endpoint,
    /// Other endpoints that a pass may choose.
    pub alternate_endpoints: Vec<Endpoint>,
    /// Switch the endpoint in the middle of a pass when its wire collapses.
    pub wire_failover: bool,
    /// Concurrent block streams.
    pub fetch_streams: usize,
    /// Blocks per chunk.
    pub chunk_blocks: u32,
    /// Upper bound for downloaded block data in flight.
    pub memory_budget_bytes: usize,
    /// Byte budget per fetched sub-chunk.
    pub chunk_split_bytes: usize,
    /// Target duration of a scan batch; one batch per chunk where there is none.
    pub scan_batch_target_ms: Option<u64>,
    /// Run an enhancement every so many chunks.
    pub enhance_every_chunks: u32,
    /// Persist through the sparse in-memory commitment tree.
    pub sparse_persistence: bool,
    /// Commit a chunk while the next one is decrypted.
    pub write_behind: bool,
    /// Compute Orchard subtrees on the GPU.
    pub gpu_subtree: bool,
    /// Take the server's roots for shards without notes.
    pub graft_subtree: bool,
    /// Build every so many graftable shards all the same, and compare; zero is off.
    pub graft_verify_sample: u32,
    /// Checkpoints that are kept for good.
    pub anchor_retention: Option<AnchorRetention>,
    /// Combine Orchard nodes in batches.
    pub batch_combine: bool,
    /// Derive the tree states at chunk boundaries locally.
    pub local_treestate: bool,
    /// Compare every so many local tree states with the server's; zero is off.
    pub treestate_verify_sample: u32,
    /// Units that may wait to be persisted before the scan blocks.
    pub persist_depth: usize,
}

/// The first fault of a configuration, in the words of the error.
pub open spec fn config_fault(c: EngineConfig) -> Option<Seq<char>> {
    if c.endpoint.host@.len() == 0 {
        Some("endpoint host is empty"@)
    } else if c.fetch_streams == 0 {
        Some("fetch_streams must be >= 1"@)
    } else if c.chunk_blocks < 100 {
        Some("chunk_blocks must be >= 100"@)
    } else if c.memory_budget_bytes < 16_777_216 {
        Some("memory_budget_bytes must be >= 16 MiB"@)
    } else if c.chunk_split_bytes < 1_048_576 {
        Some("chunk_split_bytes must be >= 1 MiB"@)
    } else if c.scan_batch_target_ms is Some && c.scan_batch_target_ms->Some_0 < 500 {
        Some("scan_batch_target_ms must be >= 500 ms"@)
    } else if c.enhance_every_chunks == 0 {
        Some("enhance_every_chunks must be >= 1"@)
    } else if c.write_behind && !c.sparse_persistence {
        Some(
            "write_behind requires sparse_persistence (the deferred commit runs the sparse put_blocks path)"@,
        )
    } else if c.graft_subtree && !c.sparse_persistence {
        Some(
            "graft_subtree requires sparse_persistence (the graft verdict lives in the sparse build path)"@,
        )
    } else if c.graft_subtree && !c.write_behind {
        Some(
            "graft_subtree requires write_behind (the graft plan runs in the persist lane; the inline path never grafts — v0.4 plan Task 7b rev 2)"@,
        )
    } else if c.gpu_subtree && !c.sparse_persistence {
        Some(
            "gpu_subtree requires sparse_persistence (the GPU build replaces the sparse subtree build)"@,
        )
    } else if c.persist_depth == 0 || c.persist_depth > 64 {
        Some("persist_depth must be in 1..=64"@)
    } else {
        None
    }
}

impl EngineConfig {
    pub const DEFAULT_FETCH_STREAMS: usize = 4;

    pub const DEFAULT_CHUNK_BLOCKS: u32 = 10_000;

    /// 256 MiB.
    pub const DEFAULT_MEMORY_BUDGET: usize = 268_435_456;

    /// Eight MiB.
    pub const DEFAULT_CHUNK_SPLIT_BYTES: usize = 8_388_608;

    pub const DEFAULT_ENHANCE_EVERY_CHUNKS: u32 = 3;

    /// 64 MiB.
    pub const SMALL_DEVICE_MEMORY_BUDGET: usize = 67_108_864;

    /// Four MiB.
    pub const SMALL_DEVICE_CHUNK_SPLIT_BYTES: usize = 4_194_304;

    /// Devices with less memory than three GiB get the small budgets.
    pub const SMALL_DEVICE_THRESHOLD_BYTES: u64 = 3_221_225_472;

    /// The configuration that a new engine starts from.
    pub open spec fn is_default(
        self,
        network: SlipstreamNetwork,
        wallet_db_path: String,
        endpoint: Endpoint,
    ) -> bool {
        &&& self.network == network
        &&& self.wallet_db_path == wallet_db_path
        &&& self.endpoint == endpoint
        &&& self.alternate_endpoints@.len() == 0
        &&& self.wire_failover
        &&& self.fetch_streams == 4
        &&& self.chunk_blocks == 10_000
        &&& self.memory_budget_bytes == 268_435_456
        &&& self.chunk_split_bytes == 8_388_608
        &&& self.scan_batch_target_ms is None
        &&& self.enhance_every_chunks == 3
        &&& self.sparse_persistence
        &&& self.write_behind
        &&& !self.gpu_subtree
        &&& self.graft_subtree
        &&& self.graft_verify_sample == 16
        &&& self.anchor_retention is None
        &&& self.batch_combine
        &&& !self.local_treestate
        &&& self.treestate_verify_sample == 1
        &&& self.persist_depth == 1
    }

    /// The shipped defaults for a network, a wallet and an endpoint.
    pub fn new(network: SlipstreamNetwork, wallet_db_path: String, endpoint: Endpoint) -> (r: Self)
        ensures
            r.is_default(network, wallet_db_path, endpoint),
    {
        EngineConfig {
            network,
            wallet_db_path,
            endpoint,
            alternate_endpoints: Vec::new(),
            wire_failover: true,
            fetch_streams: Self::DEFAULT_FETCH_STREAMS,
            chunk_blocks: Self::DEFAULT_CHUNK_BLOCKS,
            memory_budget_bytes: Self::DEFAULT_MEMORY_BUDGET,
            chunk_split_bytes: Self::DEFAULT_CHUNK_SPLIT_BYTES,
            scan_batch_target_ms: None,
            enhance_every_chunks: Self::DEFAULT_ENHANCE_EVERY_CHUNKS,
            sparse_persistence: true,
            write_behind: true,
            gpu_subtree: false,
            graft_subtree: true,
            graft_verify_sample: 16,
            anchor_retention: None,
            batch_combine: true,
            local_treestate: false,
            treestate_verify_sample: 1,
            persist_depth: 1,
        }
    }

    /// Checks the configuration; the first fault is the error.
    pub fn validate(&self) -> (r: Result<(), SlipstreamError>)
        ensures
            match config_fault(*self) {
                None => r is Ok,
                Some(fault) => r matches Err(SlipstreamError::Config(m)) && m@ == fault,
            },
    {
        if self.endpoint.host.as_str().is_empty() {
            return Err(SlipstreamError::Config("endpoint host is empty".to_owned()));
        }
        if self.fetch_streams == 0 {
            return Err(SlipstreamError::Config("fetch_streams must be >= 1".to_owned()));
        }
        if self.chunk_blocks < 100 {
            return Err(SlipstreamError::Config("chunk_blocks must be >= 100".to_owned()));
        }
        if self.memory_budget_bytes < 16_777_216 {
            return Err(
                SlipstreamError::Config("memory_budget_bytes must be >= 16 MiB".to_owned()),
            );
        }
        if self.chunk_split_bytes < 1_048_576 {
            return Err(SlipstreamError::Config("chunk_split_bytes must be >= 1 MiB".to_owned()));
        }
        match self.scan_batch_target_ms {
            Some(ms) => {
                if ms < 500 {
                    return Err(
                        SlipstreamError::Config(
                            "scan_batch_target_ms must be >= 500 ms".to_owned(),
                        ),
                    );
                }
            },
            None => {},
        }
        if self.enhance_every_chunks == 0 {
            return Err(SlipstreamError::Config("enhance_every_chunks must be >= 1".to_owned()));
        }
        if self.write_behind && !self.sparse_persistence {
            return Err(
                SlipstreamError::Config(
                    "write_behind requires sparse_persistence (the deferred commit runs the sparse put_blocks path)".to_owned(),
                ),
            );
        }
        if self.graft_subtree && !self.sparse_persistence {
            return Err(
                SlipstreamError::Config(
                    "graft_subtree requires sparse_persistence (the graft verdict lives in the sparse build path)".to_owned(),
                ),
            );
        }
        if self.graft_subtree && !self.write_behind {
            return Err(
                SlipstreamError::Config(
                    "graft_subtree requires write_behind (the graft plan runs in the persist lane; the inline path never grafts — v0.4 plan Task 7b rev 2)".to_owned(),
                ),
            );
        }
        if self.gpu_subtree && !self.sparse_persistence {
            return Err(
                SlipstreamError::Config(
                    "gpu_subtree requires sparse_persistence (the GPU build replaces the sparse subtree build)".to_owned(),
                ),
            );
        }
        if self.persist_depth == 0 || self.persist_depth > 64 {
            return Err(SlipstreamError::Config("persist_depth must be in 1..=64".to_owned()));
        }
        Ok(())
    }

    /// The configuration for a device with this much memory: a small device gets at most
    /// the small budgets.
    pub open spec fn scaled(self, total_memory_bytes: u64) -> EngineConfig {
        if 0 < total_memory_bytes < 3_221_225_472 {
            EngineConfig {
                memory_budget_bytes: if self.memory_budget_bytes < 67_108_864 {
                    self.memory_budget_bytes
                } else {
                    67_108_864
                },
                chunk_split_bytes: if self.chunk_split_bytes < 4_194_304 {
                    self.chunk_split_bytes
                } else {
                    4_194_304
                },
                ..self
            }
        } else {
            self
        }
    }

    /// The configuration for a device with this much memory: a small device gets at most
    /// the small budgets, an unknown size (zero) changes nothing. No budget is ever raised.
    #[must_use]
    pub fn scaled_for_device_memory(self, total_memory_bytes: u64) -> (r: Self)
        ensures
            r == self.scaled(total_memory_bytes),
    {
        let mut c: EngineConfig = self;
        if total_memory_bytes > 0 && total_memory_bytes < Self::SMALL_DEVICE_THRESHOLD_BYTES {
            if c.memory_budget_bytes > Self::SMALL_DEVICE_MEMORY_BUDGET {
                c.memory_budget_bytes = Self::SMALL_DEVICE_MEMORY_BUDGET;
            }
            if c.chunk_split_bytes > Self::SMALL_DEVICE_CHUNK_SPLIT_BYTES {
                c.chunk_split_bytes = Self::SMALL_DEVICE_CHUNK_SPLIT_BYTES;
            }
        }
        c
    }

    /// The endpoints that a pass may choose among: the configured one, then the
    /// alternates.
    pub open spec fn candidates(self) -> Seq<Endpoint> {
        seq![self.endpoint] + self.alternate_endpoints@
    }

    /// Whether a pass races the endpoints. It does not where there is nothing to
    /// choose, nor over Tor, which the race would bypass.
    pub open spec fn races_endpoints(self, via_tor: bool) -> bool {
        self.alternate_endpoints@.len() > 0 && !via_tor
    }

    /// The endpoints to race at the start of a pass; none where no race is run.
    pub fn probe_candidates(&self, via_tor: bool) -> (r: Option<Vec<Endpoint>>)
        ensures
            r is Some <==> self.races_endpoints(via_tor),
            r matches Some(v) ==> v@ == self.candidates(),
    {
        if self.alternate_endpoints.len() == 0 || via_tor {
            return None;
        }
        Some(self.all_endpoints())
    }

    /// The configured endpoint and the alternates.
    pub fn all_endpoints(&self) -> (r: Vec<Endpoint>)
        ensures
            r@ == self.candidates(),
    {
        let mut out: Vec<Endpoint> = Vec::new();
        out.push(self.endpoint.duplicate());
        let mut i: usize = 0;
        while i < self.alternate_endpoints.len()
            invariant
                0 <= i <= self.alternate_endpoints@.len(),
                out@ == seq![self.endpoint] + self.alternate_endpoints@.take(i as int),
            decreases self.alternate_endpoints@.len() - i,
        {
            out.push(self.alternate_endpoints[i].duplicate());
            assert(self.alternate_endpoints@.take(i + 1) =~= self.alternate_endpoints@.take(
                i as int,
            ).push(self.alternate_endpoints@[i as int]));
            i = i + 1;
            assert(out@ =~= seq![self.endpoint] + self.alternate_endpoints@.take(i as int));
        }
        assert(self.alternate_endpoints@.take(self.alternate_endpoints@.len() as int)
            =~= self.alternate_endpoints@);
        out
    }

    /// The configuration of a pass, and what the race cost: with `chosen` as its
    /// winner where one was run, else unchanged and free.
    pub fn with_selected_endpoint(self, via_tor: bool, chosen: usize, probe_nanos: u64) -> (r: (
        Self,
        u64,
    ))
        requires
            self.races_endpoints(via_tor) ==> chosen < self.candidates().len(),
        ensures
            self.races_endpoints(via_tor) ==> r.0 == (EngineConfig {
                endpoint: self.candidates()[chosen as int],
                ..self
            }) && r.1 == probe_nanos,
            !self.races_endpoints(via_tor) ==> r.0 == self && r.1 == 0,
    {
        if self.alternate_endpoints.len() == 0 || via_tor {
            return (self, 0);
        }
        let mut c: EngineConfig = self;
        if chosen > 0 {
            c.endpoint = c.alternate_endpoints[chosen - 1].duplicate();
        }
        (c, probe_nanos)
    }
}

/// The shipped defaults are valid for every endpoint that has a host.
pub proof fn law_defaults_are_valid(
    c: EngineConfig,
    network: SlipstreamNetwork,
    path: String,
    endpoint: Endpoint,
)
    requires
        c.is_default(network, path, endpoint),
        endpoint.host@.len() > 0,
    ensures
        config_fault(c) is None,
{
}

/// Scaling for a device keeps a valid configuration valid, whatever the device's memory.
pub proof fn law_scaling_keeps_valid(c: EngineConfig, total_memory_bytes: u64)
    requires
        config_fault(c) is None,
    ensures
        config_fault(c.scaled(total_memory_bytes)) is None,
{
}

/// Scaling for a device only ever derates, changes nothing but the two budgets, and
/// scaling again changes nothing.
pub proof fn law_scaling_only_derates(c: EngineConfig, total_memory_bytes: u64)
    ensures
        ({
            let r = c.scaled(total_memory_bytes);
            &&& r.memory_budget_bytes <= c.memory_budget_bytes
            &&& r.chunk_split_bytes <= c.chunk_split_bytes
            &&& r == (EngineConfig {
                memory_budget_bytes: r.memory_budget_bytes,
                chunk_split_bytes: r.chunk_split_bytes,
                ..c
            })
            &&& r.scaled(total_memory_bytes) == r
        }),
{
}

/// The scheme says whether TLS is used.
pub proof fn law_scheme_tells_tls(tls: bool)
    ensures
        scheme(true) == "https://"@,
        scheme(false) == "http://"@,
        scheme(tls) == scheme(!tls) ==> false,
{
    reveal_strlit("https://");
    reveal_strlit("http://");
}

/// A URI is the scheme, the host, a colon and the port's numeral.
pub proof fn law_uri_is_made_of_its_parts(host: Seq<char>, port: nat, tls: bool)
    ensures
        uri_text(host, port, tls) == (if tls {
            "https://"@
        } else {
            "http://"@
        }) + host + seq![':'] + dec(port),
{
    reveal_strlit(":");
    assert(":"@ =~= seq![':']);
}

/// Whatever host stands before the last colon of a URI and whatever numeral behind it, with
/// one slash at the end or none, the URI reads as that host and that port: exactly the host is
/// not empty and no bracketed literal, and the port is a number of 16 bits. Where one of these
/// does not hold, the error says which, and quotes the URI.
pub proof fn law_uri_reads_as_its_parts(
    tls: bool,
    host: Seq<char>,
    port: Seq<char>,
    slash: bool,
)
    requires
        forall|i: int| 0 <= i < port.len() ==> port[i] != ':' && port[i] != '/',
    ensures
        ({
            let tail = if slash {
                seq!['/']
            } else {
                Seq::empty()
            };
            let r = parse_uri_spec(scheme(tls) + host + seq![':'] + port + tail);
            &&& r is Ok <==> host.len() > 0 && !(host[0] == '[' && host.last() == ']')
                && parse_uint_spec(port, 65_535) is Ok
            &&& r is Ok ==> r == Ok::<(bool, Seq<char>, nat), Seq<char>>(
                (tls, host, parse_uint_spec(port, 65_535)->Ok_0),
            )
        }),
        ({
            let tail = if slash {
                seq!['/']
            } else {
                Seq::empty()
            };
            let s = scheme(tls) + host + seq![':'] + port + tail;
            &&& host.len() == 0 ==> parse_uri_spec(s) == Err::<(bool, Seq<char>, nat), Seq<char>>(
                "endpoint URI has empty host: "@ + debug_text(s),
            )
            &&& host.len() > 0 && host[0] == '[' && host.last() == ']' ==> parse_uri_spec(s)
                == Err::<(bool, Seq<char>, nat), Seq<char>>(
                "endpoint URI port ("@ + ParseUintError::InvalidDigit.text() + "): "@ + debug_text(
                    s,
                ),
            )
            &&& host.len() > 0 && !(host[0] == '[' && host.last() == ']') && parse_uint_spec(
                port,
                65_535,
            ) is Err ==> parse_uri_spec(s) == Err::<(bool, Seq<char>, nat), Seq<char>>(
                "endpoint URI port ("@ + parse_uint_spec(port, 65_535)->Err_0.text() + "): "@
                    + debug_text(s),
            )
        }),
{
    reveal_strlit("https://");
    reveal_strlit("http://");
    let tail = if slash {
        seq!['/']
    } else {
        Seq::<char>::empty()
    };
    let s = scheme(tls) + host + seq![':'] + port + tail;
    let n = scheme(tls).len() as int;
    assert(s.subrange(0, n) =~= scheme(tls));
    assert(starts_with(s, scheme(tls)));
    if !tls {
        assert(s[4] == ':');
        if s.len() >= 8 {
            assert(s.subrange(0, 8)[4] == ':');
        }
        assert("https://"@[4] == 's');
        assert(!starts_with(s, "https://"@));
    }
    let rest = s.skip(n);
    let a = host + seq![':'] + port;
    assert(rest =~= a + tail);
    assert(without_slash(rest) =~= a) by {
        if !slash {
            assert(a.last() != '/') by {
                if port.len() > 0 {
                    assert(a.last() == port[port.len() - 1]);
                }
            }
        }
    }
    lemma_last_index(a, ':');
    let k = host.len() as int;
    assert(a[k] == ':');
    match last_index_of(a, ':') {
        Some(i) => {
            if i != k {
                assert(i > k);
                assert(a[i] == port[i - k - 1]);
            }
        },
        None => {},
    }
    assert(a.take(k) =~= host);
    assert(a.skip(k + 1) =~= port);
}

/// A text that starts with neither scheme, or has no colon behind it, is no URI, and the error
/// says which.
pub proof fn law_uri_faults_are_told(s: Seq<char>, tls: bool, rest: Seq<char>)
    requires
        forall|i: int| 0 <= i < rest.len() ==> rest[i] != ':',
    ensures
        !starts_with(s, "https://"@) && !starts_with(s, "http://"@) ==> parse_uri_spec(s) == Err::<
            (bool, Seq<char>, nat),
            Seq<char>,
        >("endpoint URI must start with http:// or https://: "@ + debug_text(s)),
        parse_uri_spec(scheme(tls) + rest) == Err::<(bool, Seq<char>, nat), Seq<char>>(
            "endpoint URI missing :port: "@ + debug_text(scheme(tls) + rest),
        ),
{
    reveal_strlit("https://");
    reveal_strlit("http://");
    let u = scheme(tls) + rest;
    let n = scheme(tls).len() as int;
    assert(u.subrange(0, n) =~= scheme(tls));
    assert(starts_with(u, scheme(tls)));
    if !tls {
        if u.len() >= 8 {
            assert(u.subrange(0, 8)[4] == ':');
        }
        assert("https://"@[4] == 's');
        assert(!starts_with(u, "https://"@));
    }
    assert(u.skip(n) =~= rest);
    let a = without_slash(rest);
    lemma_last_index(a, ':');
    if last_index_of(a, ':') is Some {
        let i = last_index_of(a, ':')->Some_0;
        assert(a[i] == rest[i]);
    }
}

/// Two endpoints are the same where host, port and TLS are, and only then.
pub proof fn law_same_endpoints(a: Endpoint, b: Endpoint)
    ensures
        a.same(b) <==> a.host@ == b.host@ && a.port == b.port && a.tls == b.tls,
        a.same(b) ==> uri_text(a.host@, a.port as nat, a.tls) == uri_text(
            b.host@,
            b.port as nat,
            b.tls,
        ),
{
}

/// A configuration is valid exactly where it names a host, has a stream, chunks of a hundred
/// blocks, sixteen MiB in flight and a MiB per sub-chunk at least, scans batches of half a
/// second at least where it sets a time, enhances now and then, keeps between one and 64 units
/// waiting, and switches nothing on without what it needs: the deferred commit, the grafts and
/// the GPU need the sparse tree, and the grafts the deferred commit.
pub proof fn law_valid_configurations(c: EngineConfig)
    ensures
        config_fault(c) is None <==> {
            &&& c.endpoint.host@.len() > 0
            &&& c.fetch_streams >= 1
            &&& c.chunk_blocks >= 100
            &&& c.memory_budget_bytes >= 16 * 1024 * 1024
            &&& c.chunk_split_bytes >= 1024 * 1024
            &&& c.scan_batch_target_ms matches Some(ms) ==> ms >= 500
            &&& c.enhance_every_chunks >= 1
            &&& c.write_behind ==> c.sparse_persistence
            &&& c.graft_subtree ==> c.sparse_persistence && c.write_behind
            &&& c.gpu_subtree ==> c.sparse_persistence
            &&& 1 <= c.persist_depth <= 64
        },
{
}

/// The fault that is reported of a configuration is one that it has, and the first of them in
/// the order of the checks.
pub proof fn law_faults_are_told_in_order(c: EngineConfig)
    ensures
        c.endpoint.host@.len() == 0 ==> config_fault(c) == Some("endpoint host is empty"@),
        c.endpoint.host@.len() > 0 && c.fetch_streams == 0 ==> config_fault(c) == Some(
            "fetch_streams must be >= 1"@,
        ),
        c.endpoint.host@.len() > 0 && c.fetch_streams > 0 && c.chunk_blocks < 100 ==> config_fault(
            c,
        ) == Some("chunk_blocks must be >= 100"@),
        c.endpoint.host@.len() > 0 && c.fetch_streams > 0 && c.chunk_blocks >= 100
            && c.memory_budget_bytes < 16 * 1024 * 1024 ==> config_fault(c) == Some(
            "memory_budget_bytes must be >= 16 MiB"@,
        ),
        c.endpoint.host@.len() > 0 && c.fetch_streams > 0 && c.chunk_blocks >= 100
            && c.memory_budget_bytes >= 16 * 1024 * 1024 && c.chunk_split_bytes < 1024 * 1024
            ==> config_fault(c) == Some("chunk_split_bytes must be >= 1 MiB"@),
{
}

/// A new configuration has the shipped defaults: it is for the given network, wallet and
/// endpoint and no other endpoint, over four streams of chunks of ten thousand blocks, with
/// 256 MiB in flight and eight MiB per sub-chunk.
pub proof fn law_shipped_defaults(
    c: EngineConfig,
    network: SlipstreamNetwork,
    path: String,
    endpoint: Endpoint,
)
    requires
        c.is_default(network, path, endpoint),
    ensures
        c.network == network,
        c.wallet_db_path == path,
        c.endpoint == endpoint,
        c.candidates() == seq![endpoint],
        c.wire_failover,
        c.fetch_streams == 4,
        c.chunk_blocks == 10_000,
        c.memory_budget_bytes == 256 * 1024 * 1024,
        c.chunk_split_bytes == 8 * 1024 * 1024,
        c.scan_batch_target_ms is None,
        c.enhance_every_chunks == 3,
        c.sparse_persistence && c.write_behind && c.graft_subtree && c.batch_combine,
        !c.gpu_subtree && !c.local_treestate,
        c.graft_verify_sample == 16,
        c.treestate_verify_sample == 1,
        c.anchor_retention is None,
        c.persist_depth == 1,
{
    assert(c.candidates() =~= seq![endpoint]);
}

/// A device of less than three GiB gets 64 MiB in flight and four MiB per sub-chunk, or less
/// where less was set; a larger one, and one whose memory is not known, what was set.
pub proof fn law_small_devices_get_small_budgets(c: EngineConfig, total_memory_bytes: u64)
    ensures
        ({
            let r = c.scaled(total_memory_bytes);
            let small = 0 < total_memory_bytes < 3 * 1024 * 1024 * 1024;
            &&& !small ==> r == c
            &&& small ==> r.memory_budget_bytes <= 64 * 1024 * 1024
            &&& small ==> r.chunk_split_bytes <= 4 * 1024 * 1024
            &&& r.memory_budget_bytes == c.memory_budget_bytes || r.memory_budget_bytes == 64 * 1024
                * 1024
            &&& r.chunk_split_bytes == c.chunk_split_bytes || r.chunk_split_bytes == 4 * 1024 * 1024
        }),
{
}

/// The endpoints of a pass are the configured one and then every alternate in its place, and
/// they are raced where there is an alternate and the race does not bypass Tor.
pub proof fn law_every_endpoint_is_a_candidate(c: EngineConfig, i: int, via_tor: bool)
    requires
        0 <= i < c.alternate_endpoints@.len(),
    ensures
        c.candidates().len() == c.alternate_endpoints@.len() + 1,
        c.candidates()[0] == c.endpoint,
        c.candidates()[i + 1] == c.alternate_endpoints@[i],
        c.races_endpoints(via_tor) <==> !via_tor,
{
}

/// A pass without alternates races nothing.
pub proof fn law_one_endpoint_is_not_raced(c: EngineConfig, via_tor: bool)
    requires
        c.alternate_endpoints@.len() == 0,
    ensures
        !c.races_endpoints(via_tor),
        c.candidates() == seq![c.endpoint],
{
    assert(c.candidates() =~= seq![c.endpoint]);
}

/// A valid configuration that is changed in one respect for the worse is refused for it, in
/// these words.
pub proof fn law_one_change_is_told(c: EngineConfig, ms: u64, depth: usize)
    requires
        config_fault(c) is None,
    ensures
        ms < 500 ==> config_fault(
            (EngineConfig { scan_batch_target_ms: Some(ms), ..c }),
        ) == Some("scan_batch_target_ms must be >= 500 ms"@),
        config_fault((EngineConfig { enhance_every_chunks: 0, ..c })) == Some(
            "enhance_every_chunks must be >= 1"@,
        ),
        config_fault((EngineConfig { write_behind: true, sparse_persistence: false, ..c })) == Some(
            "write_behind requires sparse_persistence (the deferred commit runs the sparse put_blocks path)"@,
        ),
        config_fault(
            (EngineConfig {
                graft_subtree: true,
                write_behind: false,
                sparse_persistence: false,
                ..c
            }),
        ) == Some(
            "graft_subtree requires sparse_persistence (the graft verdict lives in the sparse build path)"@,
        ),
        config_fault(
            (EngineConfig {
                graft_subtree: true,
                write_behind: false,
                sparse_persistence: true,
                ..c
            }),
        ) == Some(
            "graft_subtree requires write_behind (the graft plan runs in the persist lane; the inline path never grafts — v0.4 plan Task 7b rev 2)"@,
        ),
        config_fault(
            (EngineConfig {
                gpu_subtree: true,
                graft_subtree: false,
                write_behind: false,
                sparse_persistence: false,
                ..c
            }),
        ) == Some(
            "gpu_subtree requires sparse_persistence (the GPU build replaces the sparse subtree build)"@,
        ),
        depth == 0 || depth > 64 ==> config_fault(
            (EngineConfig { persist_depth: depth, ..c }),
        ) == Some("persist_depth must be in 1..=64"@),
{
}

} // verus!
