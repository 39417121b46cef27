//! Which way a connection goes, and how often it is tried.
use crate::config::{uri_text, Endpoint};
use crate::error::SlipstreamError;
use crate::text::{dec, push_dec};
use vstd::prelude::*;

verus! {

/// What a connection is for.
#[derive(Debug, Clone, Copy, PartialEq, Eq, Structural)]
pub enum ConnPurpose {
    /// The download of compact blocks: public data of high volume, always direct.
    BulkFetch,
    /// Metadata that identifies the wallet.
    MetadataUnique,
    /// Metadata about the server.
    MetadataDefault,
}

/// Which Tor circuit a connection takes.
#[derive(Debug, Clone, Copy, PartialEq, Eq, Structural)]
pub enum TorMode {
    /// A circuit of its own.
    Isolated,
    /// The shared circuit.
    Default,
}

/// The circuit that a purpose asks for; none for a direct connection.
pub open spec fn circuit(purpose: ConnPurpose) -> Option<TorMode> {
    match purpose {
        ConnPurpose::BulkFetch => None,
        ConnPurpose::MetadataUnique => Some(TorMode::Isolated),
        ConnPurpose::MetadataDefault => Some(TorMode::Default),
    }
}

/// The circuit that a purpose asks for; none for a direct connection.
pub fn tor_mode(purpose: ConnPurpose) -> (r: Option<TorMode>)
    ensures
        r == circuit(purpose),
{
    match purpose {
        ConnPurpose::BulkFetch => None,
        ConnPurpose::MetadataUnique => Some(TorMode::Isolated),
        ConnPurpose::MetadataDefault => Some(TorMode::Default),
    }
}

/// Seconds that the building of a Tor circuit may take.
pub const TOR_CONNECT_TIMEOUT: u64 = 15;

/// Attempts at a Tor connection, each over a fresh circuit.
pub const TOR_CONNECT_ATTEMPTS: u32 = 3;

/// Attempts at a direct connection.
pub const DIRECT_CONNECT_ATTEMPTS: u32 = 6;

/// The way a connection goes.
#[derive(Debug, Clone, Copy, PartialEq, Eq, Structural)]
pub enum Route {
    Direct,
    Tor(TorMode),
}

/// The way a connection goes: over Tor where it is on and the purpose asks for it, else
/// directly.
pub fn route(tor_on: bool, purpose: ConnPurpose) -> (r: Route)
    ensures
        r == match circuit(purpose) {
            Some(mode) if tor_on => Route::Tor(mode),
            _ => Route::Direct,
        },
{
    if !tor_on {
        return Route::Direct;
    }
    match tor_mode(purpose) {
        Some(mode) => Route::Tor(mode),
        None => Route::Direct,
    }
}

/// The seconds between attempts at a direct connection: one, doubled with every attempt,
/// and sixteen at most.
pub open spec fn backoff_secs(attempt: u32) -> u64 {
    if attempt <= 1 {
        1
    } else if attempt == 2 {
        2
    } else if attempt == 3 {
        4
    } else if attempt == 4 {
        8
    } else {
        16
    }
}

/// The seconds between attempts at a direct connection.
pub fn direct_connect_backoff(attempt: u32) -> (secs: u64)
    ensures
        secs == backoff_secs(attempt),
        1 <= secs <= 16,
{
    match attempt {
        0 | 1 => 1,
        2 => 2,
        3 => 4,
        4 => 8,
        _ => 16,
    }
}

/// What follows a failed attempt.
#[derive(Debug)]
pub enum ConnectRetry {
    /// The failure stands.
    Fail(SlipstreamError),
    /// The next attempt is made after so many seconds.
    Retry { backoff_secs: u64 },
}

/// What follows the failure of the attempt of this number, counted from one: a transient
/// failure is tried again as long as attempts are left.
pub fn after_connect_failure(err: SlipstreamError, attempt: u32, attempts: u32) -> (r: ConnectRetry)
    ensures
        r == if err is Transport && attempt < attempts {
            ConnectRetry::Retry { backoff_secs: backoff_secs(attempt) }
        } else {
            ConnectRetry::Fail(err)
        },
{
    if !err.is_transient() || attempt >= attempts {
        return ConnectRetry::Fail(err);
    }
    ConnectRetry::Retry { backoff_secs: direct_connect_backoff(attempt) }
}

/// The seconds that are spent waiting, over all attempts at a direct connection from the
/// one of this number on.
pub open spec fn waits_from(attempt: u32, attempts: u32) -> nat
    decreases attempts - attempt,
{
    if attempt >= attempts {
        0
    } else {
        backoff_secs(attempt) as nat + waits_from((attempt + 1) as u32, attempts)
    }
}

/// A direct connection waits out an outage of up to 31 seconds.
pub proof fn law_direct_connect_waits()
    ensures
        waits_from(1, DIRECT_CONNECT_ATTEMPTS) == 31,
{
    reveal_with_fuel(waits_from, 7);
}

/// The wait grows with the attempts, never beyond sixteen seconds.
pub proof fn law_backoff_grows_to_its_cap(a: u32, b: u32)
    requires
        a <= b,
    ensures
        1 <= backoff_secs(a) <= backoff_secs(b) <= 16,
        1 < b <= 5 ==> backoff_secs(b) == 2 * backoff_secs((b - 1) as u32),
{
}

/// How an attempt over Tor failed.
#[derive(Debug)]
pub enum TorFailure {
    /// With an error, in words.
    Failed(String),
    /// The circuit took too long to build.
    TimedOut,
}

/// The words for a failed attempt over Tor.
pub open spec fn tor_failure_text(failure: TorFailure) -> Seq<char> {
    match failure {
        TorFailure::Failed(e) => "tor connect: "@ + e@,
        TorFailure::TimedOut => "tor connect: circuit build exceeded "@ + dec(
            TOR_CONNECT_TIMEOUT as nat,
        ) + "s"@,
    }
}

/// What follows the failure of the attempt of this number over Tor, counted from one:
/// another over a fresh circuit, or the error where attempts are spent. The connection
/// never falls back to a direct one.
pub fn after_tor_failure(attempt: u32, failure: TorFailure) -> (r: Option<SlipstreamError>)
    ensures
        attempt < TOR_CONNECT_ATTEMPTS <==> r is None,
        attempt < 3 <==> r is None,
        r matches Some(e) ==> e matches SlipstreamError::Transport(m) && m@ == tor_failure_text(
            failure,
        ),
{
    if attempt < TOR_CONNECT_ATTEMPTS {
        return None;
    }
    match failure {
        TorFailure::Failed(e) => {
            let mut m: String = "tor connect: ".to_owned();
            m.push_str(e.as_str());
            Some(SlipstreamError::Transport(m))
        },
        TorFailure::TimedOut => {
            let mut m: String = "tor connect: circuit build exceeded ".to_owned();
            push_dec(&mut m, TOR_CONNECT_TIMEOUT);
            m.push_str("s");
            Some(SlipstreamError::Transport(m))
        },
    }
}

/// What is wrong with a text as a URI, in words; none where it is one.
pub uninterp spec fn uri_fault(s: Seq<char>) -> Option<Seq<char>>;

/// `str::parse` of the URI type of the http crate, as tonic exports it. Which texts are
/// URIs, and the words for those that are none, is left to [`uri_fault`].
#[verifier::external_body]
fn check_uri(s: &str) -> (r: Option<String>)
    ensures
        match r {
            Some(e) => uri_fault(s@) == Some(e@),
            None => uri_fault(s@) is None,
        },
{
    match s.parse::<tonic::transport::Uri>() {
        Ok(_) => None,
        Err(e) => Some(e.to_string()),
    }
}

/// The URI of an endpoint, checked for a connection over Tor.
pub fn tor_uri(endpoint: &Endpoint) -> (r: Result<String, SlipstreamError>)
    ensures
        ({
            let uri = uri_text(endpoint.host@, endpoint.port as nat, endpoint.tls);
            match uri_fault(uri) {
                None => r matches Ok(s) && s@ == uri,
                Some(e) => r matches Err(SlipstreamError::Config(m)) && m@
                    == "bad endpoint uri for tor: "@ + e,
            }
        }),
{
    let uri: String = endpoint.uri();
    match check_uri(uri.as_str()) {
        None => Ok(uri),
        Some(e) => {
            let mut m: String = "bad endpoint uri for tor: ".to_owned();
            m.push_str(e.as_str());
            Err(SlipstreamError::Config(m))
        },
    }
}

/// The download of blocks is direct whether or not Tor is on; metadata that identifies the
/// wallet is never direct while it is.
pub proof fn law_routes(purpose: ConnPurpose)
    ensures
        purpose == ConnPurpose::BulkFetch ==> circuit(purpose) is None,
        purpose == ConnPurpose::MetadataUnique ==> circuit(purpose) == Some(TorMode::Isolated),
        purpose != ConnPurpose::BulkFetch ==> circuit(purpose) is Some,
{
}

/// Metadata about the server takes the shared circuit, metadata about the wallet one of its
/// own, and blocks none.
pub proof fn law_circuits(purpose: ConnPurpose)
    ensures
        circuit(purpose) == Some(TorMode::Default) <==> purpose == ConnPurpose::MetadataDefault,
        circuit(purpose) == Some(TorMode::Isolated) <==> purpose == ConnPurpose::MetadataUnique,
        circuit(purpose) is None <==> purpose == ConnPurpose::BulkFetch,
{
}

/// A failure over Tor says so and what it was: the error's own words, or how many seconds the
/// circuit was given.
pub proof fn law_tor_failures_are_told(e: String)
    ensures
        tor_failure_text(TorFailure::Failed(e)) == "tor connect: "@ + e@,
        tor_failure_text(TorFailure::TimedOut) == "tor connect: circuit build exceeded "@ + dec(15)
            + "s"@,
{
}

} // verus!
