//! The rules of talking to a lightwalletd server: deadlines, what an answer or its
//! absence means, and when a call is tried again.
use crate::error::SlipstreamError;
use crate::graft::ShieldedPool;
use crate::pallas::{le_value, modulus};
use crate::text::{contains_text, dec, push_dec, str_contains};
use crate::transaction::RawTransaction;
use vstd::prelude::*;
use zcash_primitives::merkle_tree::HashSer;

verus! {

/// Seconds that a single call may take, and the headers of a stream.
pub const UNARY_TIMEOUT: u64 = 30;

/// Seconds of silence that an open stream is allowed.
pub const STREAM_IDLE_TIMEOUT: u64 = 30;

/// Further attempts at a tree state after the first.
pub const TREESTATE_RETRY_MAX: u32 = 2;

/// The status codes that the engine tells apart.
#[derive(Debug, Clone, Copy, PartialEq, Eq, Structural)]
pub enum StatusCode {
    NotFound,
    Unknown,
    Internal,
    Other,
}

/// A server's refusal.
#[derive(Debug)]
pub struct Status {
    pub code: StatusCode,
    /// The server's message.
    pub message: String,
    /// The whole status in words.
    pub text: String,
}

/// What came of a single call.
#[derive(Debug)]
pub enum Unary<T> {
    Answered(T),
    Refused(Status),
    TimedOut,
}

/// What came of waiting for a message of a stream.
#[derive(Debug)]
pub enum Streamed<T> {
    Message(T),
    /// The stream broke, in words.
    Broken(String),
    End,
    TimedOut,
}

/// A transport error in a context.
pub fn transport_err(context: &str, e: &str) -> (r: SlipstreamError)
    ensures
        r matches SlipstreamError::Transport(m) && m@ == context@ + ": "@ + e@,
{
    let mut m: String = context.to_owned();
    m.push_str(": ");
    m.push_str(e);
    SlipstreamError::Transport(m)
}

/// The words for a call that took too long.
pub open spec fn timeout_text(context: Seq<char>) -> Seq<char> {
    context + ": timed out after "@ + dec(UNARY_TIMEOUT as nat) + "s"@
}

/// The words for a stream that fell silent.
pub open spec fn idle_text(context: Seq<char>) -> Seq<char> {
    context + ": stream idle timeout ("@ + dec(STREAM_IDLE_TIMEOUT as nat) + "s without a message)"@
}

fn timed_out(context: &str) -> (r: SlipstreamError)
    ensures
        r matches SlipstreamError::Transport(m) && m@ == timeout_text(context@),
{
    let mut m: String = context.to_owned();
    m.push_str(": timed out after ");
    push_dec(&mut m, UNARY_TIMEOUT);
    m.push_str("s");
    SlipstreamError::Transport(m)
}

/// The answer of a call, or a transport error: a refusal in its words, or the
/// expiry of the deadline.
pub fn unary_answer<T>(context: &str, outcome: Unary<T>) -> (r: Result<T, SlipstreamError>)
    ensures
        match outcome {
            Unary::Answered(v) => r == Ok::<T, SlipstreamError>(v),
            Unary::Refused(status) => r matches Err(SlipstreamError::Transport(m)) && m@ == context@
                + ": "@ + status.text@,
            Unary::TimedOut => r matches Err(SlipstreamError::Transport(m)) && m@ == timeout_text(
                context@,
            ),
        },
{
    match outcome {
        Unary::Answered(v) => Ok(v),
        Unary::Refused(status) => Err(transport_err(context, status.text.as_str())),
        Unary::TimedOut => Err(timed_out(context)),
    }
}

/// The next message of a stream, nothing at its end, or a transport error: silence in the
/// call's context, a break in the words for the stream's items.
pub fn stream_message<T>(context: &str, items: &str, event: Streamed<T>) -> (r: Result<
    Option<T>,
    SlipstreamError,
>)
    ensures
        match event {
            Streamed::Message(v) => r == Ok::<Option<T>, SlipstreamError>(Some(v)),
            Streamed::End => r == Ok::<Option<T>, SlipstreamError>(None),
            Streamed::Broken(e) => r matches Err(SlipstreamError::Transport(m)) && m@ == items@
                + ": "@ + e@,
            Streamed::TimedOut => r matches Err(SlipstreamError::Transport(m)) && m@ == idle_text(
                context@,
            ),
        },
{
    match event {
        Streamed::Message(v) => Ok(Some(v)),
        Streamed::End => Ok(None),
        Streamed::Broken(e) => Err(transport_err(items, e.as_str())),
        Streamed::TimedOut => {
            let mut m: String = context.to_owned();
            m.push_str(": stream idle timeout (");
            push_dec(&mut m, STREAM_IDLE_TIMEOUT);
            m.push_str("s without a message)");
            Err(SlipstreamError::Transport(m))
        },
    }
}

/// A text in lower case.
pub uninterp spec fn lowercase_text(s: Seq<char>) -> Seq<char>;

/// `str::to_lowercase` of std, which follows the Unicode property Lowercase and no
/// locale. What it makes of which text is left to [`lowercase_text`].
#[verifier::external_body]
fn lowercase(s: &str) -> (r: String)
    ensures
        r@ == lowercase_text(s@),
{
    s.to_lowercase()
}

/// Whether a status says that the server does not know the transaction, its message
/// being `lowered` in lower case. Servers answer with the code for it, or with a vague
/// code and a message.
pub open spec fn means_not_found(code: StatusCode, lowered: Seq<char>) -> bool {
    code == StatusCode::NotFound || ((code == StatusCode::Unknown || code == StatusCode::Internal)
        && (contains_text(lowered, "not found"@) || contains_text(
        lowered,
        "no such transaction"@,
    )))
}

/// Whether a status with this code and this message in lower case says that the server does
/// not know the transaction.
pub fn is_not_found(code: StatusCode, lowered: &str) -> (b: bool)
    ensures
        b == means_not_found(code, lowered@),
{
    match code {
        StatusCode::NotFound => true,
        StatusCode::Other => false,
        _ => str_contains(lowered, "not found") || str_contains(lowered, "no such transaction"),
    }
}

/// The answer to the request for a transaction: nothing where the server does not know
/// it, an error where the call failed otherwise.
pub fn transaction_answer(outcome: Unary<RawTransaction>) -> (r: Result<
    Option<RawTransaction>,
    SlipstreamError,
>)
    ensures
        match outcome {
            Unary::Answered(raw) => r == Ok::<Option<RawTransaction>, SlipstreamError>(Some(raw)),
            Unary::TimedOut => r matches Err(SlipstreamError::Transport(m)) && m@ == timeout_text(
                "get_transaction"@,
            ),
            Unary::Refused(status) => if means_not_found(
                status.code,
                lowercase_text(status.message@),
            ) {
                r == Ok::<Option<RawTransaction>, SlipstreamError>(None)
            } else {
                r matches Err(SlipstreamError::Transport(m)) && m@ == "get_transaction"@ + ": "@
                    + status.text@
            },
        },
{
    match outcome {
        Unary::Answered(raw) => Ok(Some(raw)),
        Unary::TimedOut => Err(timed_out("get_transaction")),
        Unary::Refused(status) => {
            let lowered: String = lowercase(status.message.as_str());
            if is_not_found(status.code, lowered.as_str()) {
                Ok(None)
            } else {
                Err(transport_err("get_transaction", status.text.as_str()))
            }
        },
    }
}

/// Seconds to wait before an attempt at a tree state after the first: one, then three.
pub fn treestate_retry_backoff(attempt: u32) -> (secs: u64)
    ensures
        secs == if attempt == 1 {
            1u64
        } else {
            3u64
        },
{
    match attempt {
        1 => 1,
        _ => 3,
    }
}

/// What follows a failed attempt at a tree state.
#[derive(Debug)]
pub enum TreeStateRetry {
    /// The failure stands.
    Fail(SlipstreamError),
    /// After so many seconds a fresh connection is tried: the attempt of this number.
    Retry { attempt: u32, backoff_secs: u64 },
}

/// What follows a failed attempt at a tree state, after `attempt` further attempts.
pub open spec fn treestate_retry(err: SlipstreamError, attempt: u32) -> TreeStateRetry {
    if err is Transport && attempt < TREESTATE_RETRY_MAX {
        TreeStateRetry::Retry {
            attempt: (attempt + 1) as u32,
            backoff_secs: if attempt == 0 {
                1
            } else {
                3
            },
        }
    } else {
        TreeStateRetry::Fail(err)
    }
}

/// How often a tree state is asked for where attempts fail with these errors in turn, after
/// `attempt` further attempts.
pub open spec fn treestate_calls(errs: Seq<SlipstreamError>, attempt: u32) -> nat
    decreases errs.len(),
{
    if errs.len() == 0 {
        0
    } else {
        match treestate_retry(errs[0], attempt) {
            TreeStateRetry::Fail(_) => 1,
            TreeStateRetry::Retry { attempt: next, .. } => 1 + treestate_calls(errs.skip(1), next),
        }
    }
}

/// Whatever the errors, a tree state is asked for once and as often again as it may be
/// retried, at most; after an error that is not transient it is not asked for again.
pub proof fn law_treestate_calls_are_bounded(errs: Seq<SlipstreamError>, attempt: u32)
    requires
        attempt <= TREESTATE_RETRY_MAX,
    ensures
        treestate_calls(errs, attempt) <= TREESTATE_RETRY_MAX + 1 - attempt,
        forall|i: int|
            0 <= i < errs.len() && !(#[trigger] errs[i] is Transport) ==> treestate_calls(
                errs,
                attempt,
            ) <= i + 1,
    decreases errs.len(),
{
    if errs.len() > 0 {
        match treestate_retry(errs[0], attempt) {
            TreeStateRetry::Fail(_) => {},
            TreeStateRetry::Retry { attempt: next, .. } => {
                law_treestate_calls_are_bounded(errs.skip(1), next);
                assert forall|i: int|
                    0 <= i < errs.len() && !(#[trigger] errs[i] is Transport) implies
                    treestate_calls(errs, attempt) <= i + 1 by {
                    assert(errs.skip(1)[i - 1] == errs[i]);
                }
            },
        }
    }
}

/// What follows a failed attempt at a tree state, after `attempt` further attempts: a
/// transient failure is tried again as long as attempts are left.
pub fn after_treestate_failure(err: SlipstreamError, attempt: u32) -> (r: TreeStateRetry)
    ensures
        r == treestate_retry(err, attempt),
{
    if err.is_transient() && attempt < TREESTATE_RETRY_MAX {
        TreeStateRetry::Retry {
            attempt: attempt + 1,
            backoff_secs: treestate_retry_backoff(attempt + 1),
        }
    } else {
        TreeStateRetry::Fail(err)
    }
}

/// The order of the field that the nodes of Sapling's tree are in.
pub open spec fn jubjub_base_order() -> int {
    0x73eda753299d7d483339d80809a1d80553bda402fffe5bfeffffffff00000001int
}

/// Whether bytes start with a node of a tree: 32 bytes that encode a number below the
/// order of the tree's field.
pub open spec fn starts_with_node(bytes: Seq<u8>, order: int) -> bool {
    bytes.len() >= 32 && le_value(bytes.take(32)) < order
}

/// The words of the error where bytes start with no node of Sapling's tree.
pub uninterp spec fn sapling_node_fault(bytes: Seq<u8>) -> Seq<char>;

/// The words of the error where bytes start with no node of Orchard's tree.
pub uninterp spec fn orchard_node_fault(bytes: Seq<u8>) -> Seq<char>;

/// `HashSer::read` of zcash_primitives for `sapling_crypto::Node`: reads 32 bytes, which
/// must be the canonical encoding of a number of the Jubjub base field, and ignores what
/// follows. The words of the error are left to [`sapling_node_fault`].
#[verifier::external_body]
fn read_sapling_node(bytes: &Vec<u8>) -> (r: Result<[u8; 32], String>)
    ensures
        match r {
            Ok(node) => starts_with_node(bytes@, jubjub_base_order()) && node@ == bytes@.take(32),
            Err(e) => !starts_with_node(bytes@, jubjub_base_order()) && e@ == sapling_node_fault(
                bytes@,
            ),
        },
{
    match sapling_crypto::Node::read(&bytes[..]) {
        Ok(node) => Ok(node.to_bytes()),
        Err(e) => Err(e.to_string()),
    }
}

/// `HashSer::read` of zcash_primitives for `orchard::tree::MerkleHashOrchard`: reads
/// 32 bytes, which must be the canonical encoding of a number of the Pallas base field,
/// and ignores what follows. The words of the error are left to [`orchard_node_fault`].
#[verifier::external_body]
fn read_orchard_node(bytes: &Vec<u8>) -> (r: Result<[u8; 32], String>)
    ensures
        match r {
            Ok(node) => starts_with_node(bytes@, modulus()) && node@ == bytes@.take(32),
            Err(e) => !starts_with_node(bytes@, modulus()) && e@ == orchard_node_fault(bytes@),
        },
{
    match orchard::tree::MerkleHashOrchard::read(&bytes[..]) {
        Ok(node) => Ok(node.to_bytes()),
        Err(e) => Err(e.to_string()),
    }
}

/// A subtree root as a server sends it.
#[derive(Debug)]
pub struct RawSubtreeRoot {
    pub root_hash: Vec<u8>,
    pub completing_block_height: u64,
}

/// The root of a complete subtree, and the height of the block that completed it.
#[derive(Debug, Clone, Copy)]
pub struct SubtreeRoot {
    pub height: u32,
    pub root: [u8; 32],
}

/// The name of a pool in errors.
pub open spec fn pool_label(pool: ShieldedPool) -> Seq<char> {
    match pool {
        ShieldedPool::Sapling => "sapling"@,
        ShieldedPool::Orchard => "orchard"@,
        ShieldedPool::Ironwood => "ironwood"@,
    }
}

/// The order of the field that a pool's nodes are in.
pub open spec fn pool_order(pool: ShieldedPool) -> int {
    match pool {
        ShieldedPool::Sapling => jubjub_base_order(),
        _ => modulus(),
    }
}

/// The words of the error where bytes start with no node of a pool's tree.
pub open spec fn pool_node_fault(pool: ShieldedPool, bytes: Seq<u8>) -> Seq<char> {
    match pool {
        ShieldedPool::Sapling => sapling_node_fault(bytes),
        _ => orchard_node_fault(bytes),
    }
}

/// Reads the node of a pool's tree that bytes start with.
pub fn read_pool_node(pool: ShieldedPool, bytes: &Vec<u8>) -> (r: Result<[u8; 32], String>)
    ensures
        match r {
            Ok(node) => starts_with_node(bytes@, pool_order(pool)) && node@ == bytes@.take(32),
            Err(e) => !starts_with_node(bytes@, pool_order(pool)) && e@ == pool_node_fault(
                pool,
                bytes@,
            ),
        },
{
    match pool {
        ShieldedPool::Sapling => read_sapling_node(bytes),
        _ => read_orchard_node(bytes),
    }
}

/// Reads a subtree root of a pool. The height is taken in its low 32 bits.
pub fn read_subtree_root(pool: ShieldedPool, raw: &RawSubtreeRoot) -> (r: Result<
    SubtreeRoot,
    SlipstreamError,
>)
    ensures
        match r {
            Ok(root) => starts_with_node(raw.root_hash@, pool_order(pool)) && root.root@
                == raw.root_hash@.take(32) && root.height == raw.completing_block_height as u32,
            Err(e) => !starts_with_node(raw.root_hash@, pool_order(pool)) && (
            e matches SlipstreamError::Transport(m) && m@ == pool_label(pool) + " root"@ + ": "@
                + pool_node_fault(pool, raw.root_hash@)),
        },
{
    match read_pool_node(pool, &raw.root_hash) {
        Ok(root) => Ok(SubtreeRoot { height: raw.completing_block_height as u32, root }),
        Err(e) => {
            let mut context: String = match pool {
                ShieldedPool::Sapling => "sapling".to_owned(),
                ShieldedPool::Orchard => "orchard".to_owned(),
                ShieldedPool::Ironwood => "ironwood".to_owned(),
            };
            context.push_str(" root");
            Err(transport_err(context.as_str(), e.as_str()))
        },
    }
}

/// A call that took too long says that it had thirty seconds, a silent stream that thirty
/// seconds brought no message.
pub proof fn law_deadlines_are_told(context: Seq<char>)
    ensures
        timeout_text(context) == context + ": timed out after "@ + dec(30) + "s"@,
        idle_text(context) == context + ": stream idle timeout ("@ + dec(30)
            + "s without a message)"@,
{
}

/// A refusal says that the transaction is not known where its code says so, or where a vague
/// code comes with a message that says so anywhere in it; every other refusal is a failure.
pub proof fn law_unknown_transactions(
    code: StatusCode,
    lowered: Seq<char>,
    before: Seq<char>,
    after: Seq<char>,
)
    ensures
        means_not_found(StatusCode::NotFound, lowered),
        !means_not_found(StatusCode::Other, lowered),
        code == StatusCode::Unknown || code == StatusCode::Internal ==> means_not_found(
            code,
            before + "not found"@ + after,
        ) && means_not_found(code, before + "no such transaction"@ + after),
        code == StatusCode::Unknown || code == StatusCode::Internal ==> (means_not_found(
            code,
            lowered,
        ) <==> contains_text(lowered, "not found"@) || contains_text(
            lowered,
            "no such transaction"@,
        )),
{
    crate::text::law_texts_are_found(before, "not found"@, after);
    crate::text::law_texts_are_found(before, "no such transaction"@, after);
}

/// A tree state is asked for again after a failure of the transport and after no other, twice
/// at most: after one second, then after three.
pub proof fn law_treestate_is_asked_for_again(err: SlipstreamError, attempt: u32)
    ensures
        treestate_retry(err, attempt) is Retry <==> err is Transport && attempt < 2,
        treestate_retry(err, attempt) is Fail ==> treestate_retry(err, attempt)
            == TreeStateRetry::Fail(err),
        err is Transport ==> treestate_retry(err, 0) == (TreeStateRetry::Retry {
            attempt: 1,
            backoff_secs: 1,
        }) && treestate_retry(err, 1) == (TreeStateRetry::Retry { attempt: 2, backoff_secs: 3 }),
{
}

/// Sapling's nodes are numbers of its own field, those of both other pools are Pallas's; bytes
/// start with one where 32 of them are such a number. Each pool has its own name, and the
/// error of its own reader.
pub proof fn law_nodes_of_pools(bytes: Seq<u8>, order: int)
    ensures
        starts_with_node(bytes, order) <==> bytes.len() >= 32 && le_value(bytes.take(32)) < order,
        pool_order(ShieldedPool::Sapling)
            == 0x73eda753299d7d483339d80809a1d80553bda402fffe5bfeffffffff00000001int,
        pool_order(ShieldedPool::Orchard) == modulus(),
        pool_order(ShieldedPool::Ironwood) == modulus(),
        pool_label(ShieldedPool::Sapling) == "sapling"@,
        pool_label(ShieldedPool::Orchard) == "orchard"@,
        pool_label(ShieldedPool::Ironwood) == "ironwood"@,
        pool_node_fault(ShieldedPool::Sapling, bytes) == sapling_node_fault(bytes),
        pool_node_fault(ShieldedPool::Orchard, bytes) == orchard_node_fault(bytes),
        pool_node_fault(ShieldedPool::Ironwood, bytes) == orchard_node_fault(bytes),
{
}

} // verus!
