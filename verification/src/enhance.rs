//! Enhancement: completes the wallet's records of detected transactions with what
//! the server knows of them.
//!
//! The wallet lists requests. A run answers them in rounds, because an answer can
//! bring up further requests. The requests for single transactions of a round come
//! first, then its requests for the history of an address.
use crate::error::SlipstreamError;
use crate::events::Progress;
use crate::text::{dec, push_dec};
use crate::transaction::{
    mined_height, mined_height_spec, read_transaction, transaction_reading, RawTransaction,
};
use vstd::prelude::*;

verus! {

/// Rounds of one run at most.
pub const ENHANCE_ROUNDS: u32 = 3;

/// The longest time span that is measured, in nanoseconds.
pub const SPAN_MAX_NANOS: u128 = 18_446_744_073_709_551_615_999_999_999;

/// Counters of an enhancement run. Time spans are in nanoseconds.
#[derive(Debug, Clone, Copy, PartialEq, Eq, Structural)]
pub struct EnhanceStats {
    /// Requests handled, over all rounds.
    pub requests: u64,
    /// Transactions stored.
    pub txs_stored: u64,
    /// Status records set.
    pub statuses_set: u64,
    /// Address requests that were skipped, each counted once.
    pub skipped: u64,
    /// Time spent waiting for transactions.
    pub fetch_wait: u128,
    /// Time spent storing them.
    pub store: u128,
    /// Time spent on address requests.
    pub address: u128,
}

impl Default for EnhanceStats {
    fn default() -> (r: EnhanceStats)
        ensures
            r == (EnhanceStats {
                requests: 0,
                txs_stored: 0,
                statuses_set: 0,
                skipped: 0,
                fetch_wait: 0,
                store: 0,
                address: 0,
            }),
    {
        EnhanceStats {
            requests: 0,
            txs_stored: 0,
            statuses_set: 0,
            skipped: 0,
            fetch_wait: 0,
            store: 0,
            address: 0,
        }
    }
}

impl EnhanceStats {
    /// Whether the time spans of two runs add up to a time span.
    pub open spec fn spans_add_up(self, other: EnhanceStats) -> bool {
        &&& self.fetch_wait + other.fetch_wait <= SPAN_MAX_NANOS
        &&& self.store + other.store <= SPAN_MAX_NANOS
        &&& self.address + other.address <= SPAN_MAX_NANOS
    }

    /// The counters of two runs together.
    pub open spec fn merged(self, other: EnhanceStats) -> EnhanceStats {
        EnhanceStats {
            requests: self.requests.wrapping_add(other.requests),
            txs_stored: self.txs_stored.wrapping_add(other.txs_stored),
            statuses_set: self.statuses_set.wrapping_add(other.statuses_set),
            skipped: self.skipped.wrapping_add(other.skipped),
            fetch_wait: (self.fetch_wait + other.fetch_wait) as u128,
            store: (self.store + other.store) as u128,
            address: (self.address + other.address) as u128,
        }
    }

    /// Adds the counters of another run.
    pub fn merge(&mut self, other: &EnhanceStats)
        requires
            old(self).spans_add_up(*other),
        ensures
            *final(self) == old(self).merged(*other),
    {
        self.requests = self.requests.wrapping_add(other.requests);
        self.txs_stored = self.txs_stored.wrapping_add(other.txs_stored);
        self.statuses_set = self.statuses_set.wrapping_add(other.statuses_set);
        self.skipped = self.skipped.wrapping_add(other.skipped);
        self.fetch_wait = self.fetch_wait + other.fetch_wait;
        self.store = self.store + other.store;
        self.address = self.address + other.address;
    }

    /// Counts time spent waiting for a transaction.
    pub fn waited(&mut self, nanos: u128)
        requires
            old(self).fetch_wait + nanos <= SPAN_MAX_NANOS,
        ensures
            *final(self) == (EnhanceStats {
                fetch_wait: (old(self).fetch_wait + nanos) as u128,
                ..*old(self)
            }),
    {
        self.fetch_wait = self.fetch_wait + nanos;
    }

    /// Counts time spent storing.
    pub fn spent_storing(&mut self, nanos: u128)
        requires
            old(self).store + nanos <= SPAN_MAX_NANOS,
        ensures
            *final(self) == (EnhanceStats {
                store: (old(self).store + nanos) as u128,
                ..*old(self)
            }),
    {
        self.store = self.store + nanos;
    }

    /// Counts time spent on address requests.
    pub fn spent_on_addresses(&mut self, nanos: u128)
        requires
            old(self).address + nanos <= SPAN_MAX_NANOS,
        ensures
            *final(self) == (EnhanceStats {
                address: (old(self).address + nanos) as u128,
                ..*old(self)
            }),
    {
        self.address = self.address + nanos;
    }
}

/// Which transactions of an address are wanted.
#[derive(Debug, Clone, Copy, PartialEq, Eq, Structural)]
pub enum StatusFilter {
    Mined,
    Mempool,
    All,
}

/// Which outputs the wanted transactions must have.
#[derive(Debug, Clone, Copy, PartialEq, Eq, Structural)]
pub enum OutputFilter {
    Unspent,
    All,
}

/// A request for the history of a transparent address.
#[derive(Debug)]
pub struct AddressRequest {
    /// The encoded address.
    pub address: String,
    /// The first height.
    pub range_start: u32,
    /// The height to stop before; none for an open range.
    pub range_end: Option<u32>,
    /// Whether the request must wait for a given time.
    pub timed: bool,
    pub status_filter: StatusFilter,
    pub output_filter: OutputFilter,
}

/// What the wallet asks for.
#[derive(Debug)]
pub enum DataRequest {
    /// The status of a transaction.
    GetStatus([u8; 32]),
    /// A whole transaction.
    Enhancement([u8; 32]),
    /// The history of an address.
    InvolvingAddress(AddressRequest),
}

/// A transaction to fetch.
#[derive(Debug, Clone, Copy, PartialEq, Eq)]
pub struct TxidFetch {
    pub txid: [u8; 32],
    /// Whether the transaction is stored, or only its status.
    pub want_enhance: bool,
}

/// The transactions that requests ask for, in their order.
pub open spec fn txid_fetches(requests: Seq<DataRequest>) -> Seq<TxidFetch>
    decreases requests.len(),
{
    if requests.len() == 0 {
        Seq::empty()
    } else {
        let rest = txid_fetches(requests.drop_last());
        match requests.last() {
            DataRequest::GetStatus(txid) => rest.push(TxidFetch { txid, want_enhance: false }),
            DataRequest::Enhancement(txid) => rest.push(TxidFetch { txid, want_enhance: true }),
            DataRequest::InvolvingAddress(_) => rest,
        }
    }
}

/// The address requests among requests, in their order.
pub open spec fn address_requests(requests: Seq<DataRequest>) -> Seq<AddressRequest>
    decreases requests.len(),
{
    if requests.len() == 0 {
        Seq::empty()
    } else {
        let rest = address_requests(requests.drop_last());
        match requests.last() {
            DataRequest::InvolvingAddress(a) => rest.push(a),
            _ => rest,
        }
    }
}

/// What one round does.
#[derive(Debug)]
pub struct RoundPlan {
    /// Fetched at once, stored one by one as they arrive.
    pub fetches: Vec<TxidFetch>,
    /// Handled one by one afterwards.
    pub addresses: Vec<AddressRequest>,
}

/// One enhancement run: its counters and the rounds it has begun.
#[derive(Debug)]
pub struct EnhanceRun {
    pub stats: EnhanceStats,
    pub rounds: u32,
    pub finished: bool,
}

impl EnhanceRun {
    /// A run that has begun nothing.
    pub fn new() -> (r: EnhanceRun)
        ensures
            r.rounds == 0,
            !r.finished,
            r.stats == (EnhanceStats {
                requests: 0,
                txs_stored: 0,
                statuses_set: 0,
                skipped: 0,
                fetch_wait: 0,
                store: 0,
                address: 0,
            }),
    {
        EnhanceRun { stats: EnhanceStats::default(), rounds: 0, finished: false }
    }

    /// Whether the wallet is asked for requests again.
    pub open spec fn goes_on(self) -> bool {
        !self.finished && self.rounds < ENHANCE_ROUNDS
    }

    /// Whether the wallet is asked for requests again: until it has none, and three
    /// times at most.
    pub fn wants_round(&self) -> (b: bool)
        ensures
            b == self.goes_on(),
    {
        !self.finished && self.rounds < ENHANCE_ROUNDS
    }

    /// Begins a round with the wallet's requests, or ends the run where there are none,
    /// or where the wallet could not tell.
    pub fn begin_round(&mut self, requests: Result<Vec<DataRequest>, String>) -> (r: Result<
        Option<RoundPlan>,
        SlipstreamError,
    >)
        requires
            old(self).goes_on(),
        ensures
            match requests {
                Err(e) => (r matches Err(SlipstreamError::Wallet(m)) && m@
                    == "transaction_data_requests: "@ + e@) && *final(self) == *old(self),
                Ok(v) => if v@.len() == 0 {
                    r matches Ok(None) && *final(self) == (EnhanceRun {
                        finished: true,
                        ..*old(self)
                    })
                } else {
                    &&& r is Ok && r->Ok_0 is Some
                    &&& r->Ok_0->Some_0.fetches@ == txid_fetches(v@)
                    &&& r->Ok_0->Some_0.addresses@ == address_requests(v@)
                    &&& *final(self) == (EnhanceRun {
                        stats: EnhanceStats {
                            requests: old(self).stats.requests.wrapping_add(v@.len() as u64),
                            ..old(self).stats
                        },
                        rounds: (old(self).rounds + 1) as u32,
                        finished: false,
                    })
                },
            },
    {
        let v: Vec<DataRequest> = match requests {
            Ok(v) => v,
            Err(e) => {
                let mut m: String = "transaction_data_requests: ".to_owned();
                m.push_str(e.as_str());
                return Err(SlipstreamError::Wallet(m));
            },
        };
        if v.len() == 0 {
            self.finished = true;
            return Ok(None);
        }
        self.stats.requests = self.stats.requests.wrapping_add(v.len() as u64);
        self.rounds = self.rounds + 1;
        Ok(Some(plan_round(v)))
    }
}

/// Parts the requests of a round.
fn plan_round(requests: Vec<DataRequest>) -> (r: RoundPlan)
    ensures
        r.fetches@ == txid_fetches(requests@),
        r.addresses@ == address_requests(requests@),
{
    let mut fetches: Vec<TxidFetch> = Vec::new();
    let mut addresses: Vec<AddressRequest> = Vec::new();
    let ghost all = requests@;
    let mut rest: Vec<DataRequest> = requests;
    while rest.len() > 0
        invariant
            rest@.len() <= all.len(),
            rest@ == all.take(rest@.len() as int),
            txid_fetches(all) == txid_fetches(rest@) + fetches@.reverse(),
            address_requests(all) == address_requests(rest@) + addresses@.reverse(),
        decreases rest@.len(),
    {
        let ghost before = rest@;
        let ghost f = fetches@;
        let ghost a = addresses@;
        let last: DataRequest = rest.pop().unwrap();
        assert(rest@ =~= before.drop_last());
        assert(rest@ =~= all.take(rest@.len() as int));
        match last {
            DataRequest::GetStatus(txid) => {
                fetches.push(TxidFetch { txid, want_enhance: false });
                assert(txid_fetches(rest@) + fetches@.reverse() =~= txid_fetches(before)
                    + f.reverse());
            },
            DataRequest::Enhancement(txid) => {
                fetches.push(TxidFetch { txid, want_enhance: true });
                assert(txid_fetches(rest@) + fetches@.reverse() =~= txid_fetches(before)
                    + f.reverse());
            },
            DataRequest::InvolvingAddress(req) => {
                addresses.push(req);
                assert(address_requests(rest@) + addresses@.reverse() =~= address_requests(before)
                    + a.reverse());
            },
        }
    }
    let mut fetches_out: Vec<TxidFetch> = Vec::new();
    while fetches.len() > 0
        invariant
            txid_fetches(all) == fetches_out@ + fetches@.reverse(),
        decreases fetches@.len(),
    {
        let ghost before = fetches@;
        let ghost out = fetches_out@;
        let f: TxidFetch = fetches.pop().unwrap();
        fetches_out.push(f);
        assert(fetches_out@ + fetches@.reverse() =~= out + before.reverse());
    }
    assert(fetches_out@ + fetches@.reverse() =~= fetches_out@);
    let mut addresses_out: Vec<AddressRequest> = Vec::new();
    while addresses.len() > 0
        invariant
            address_requests(all) == addresses_out@ + addresses@.reverse(),
        decreases addresses@.len(),
    {
        let ghost before = addresses@;
        let ghost out = addresses_out@;
        let a: AddressRequest = addresses.pop().unwrap();
        addresses_out.push(a);
        assert(addresses_out@ + addresses@.reverse() =~= out + before.reverse());
    }
    assert(addresses_out@ + addresses@.reverse() =~= addresses_out@);
    RoundPlan { fetches: fetches_out, addresses: addresses_out }
}

/// A round handles every request: it is fetched or handled as an address request.
pub proof fn law_round_handles_every_request(requests: Seq<DataRequest>)
    ensures
        txid_fetches(requests).len() + address_requests(requests).len() == requests.len(),
    decreases requests.len(),
{
    if requests.len() > 0 {
        law_round_handles_every_request(requests.drop_last());
    }
}

/// What the wallet records of a transaction.
#[derive(Debug, Clone, Copy, PartialEq, Eq, Structural)]
pub enum TxStatus {
    /// The server does not know it.
    NotRecognized,
    /// It is in no block of the main chain.
    NotInMainChain,
    /// It is in the block of this height.
    Mined(u32),
}

/// A transaction to decrypt and store.
#[derive(Debug)]
pub struct StoreTx {
    pub data: Vec<u8>,
    pub mined_height: Option<u32>,
}

/// What an answer makes of the wallet.
#[derive(Debug)]
pub enum TxidAction {
    SetStatus(TxStatus),
    Store(StoreTx),
}

/// What an answer to the request for a transaction asks of the wallet: a failed fetch is
/// the run's error, an unknown id is recorded as such, and a transaction is
/// stored or its status set. A transaction that does not read is an error.
pub fn apply_txid_fetch(
    want_enhance: bool,
    fetched: Result<Option<RawTransaction>, SlipstreamError>,
) -> (r: Result<TxidAction, SlipstreamError>)
    ensures
        match fetched {
            Err(e) => r == Err::<TxidAction, SlipstreamError>(e),
            Ok(None) => r == Ok::<TxidAction, SlipstreamError>(
                TxidAction::SetStatus(TxStatus::NotRecognized),
            ),
            Ok(Some(raw)) => if !want_enhance {
                r == Ok::<TxidAction, SlipstreamError>(
                    TxidAction::SetStatus(
                        match mined_height_spec(raw.height) {
                            Some(h) => TxStatus::Mined(h),
                            None => TxStatus::NotInMainChain,
                        },
                    ),
                )
            } else {
                match transaction_reading(raw.data@) {
                    Ok(_) => r == Ok::<TxidAction, SlipstreamError>(
                        TxidAction::Store(
                            StoreTx {
                                data: raw.data,
                                mined_height: mined_height_spec(raw.height),
                            },
                        ),
                    ),
                    Err(e) => r matches Err(SlipstreamError::Wallet(m)) && m@ == "tx parse: "@ + e,
                }
            },
        },
{
    match fetched {
        Err(e) => Err(e),
        Ok(None) => Ok(TxidAction::SetStatus(TxStatus::NotRecognized)),
        Ok(Some(raw)) => {
            let mined: Option<u32> = mined_height(raw.height);
            if want_enhance {
                let reading: Result<[u8; 32], String> = read_transaction(&raw.data);
                store_if_read(reading, raw.data, mined, "tx parse: ")
            } else {
                Ok(
                    TxidAction::SetStatus(
                        match mined {
                            Some(h) => TxStatus::Mined(h),
                            None => TxStatus::NotInMainChain,
                        },
                    ),
                )
            }
        },
    }
}

/// What a reading of a transaction's bytes leads to: the transaction is stored, or
/// the reading's error becomes the run's, behind `prefix`.
pub fn store_if_read(
    reading: Result<[u8; 32], String>,
    data: Vec<u8>,
    mined_height: Option<u32>,
    prefix: &str,
) -> (r: Result<TxidAction, SlipstreamError>)
    ensures
        match reading {
            Ok(_) => r == Ok::<TxidAction, SlipstreamError>(
                TxidAction::Store(StoreTx { data, mined_height }),
            ),
            Err(e) => r matches Err(SlipstreamError::Wallet(m)) && m@ == prefix@ + e@,
        },
{
    match reading {
        Ok(_) => Ok(TxidAction::Store(StoreTx { data, mined_height })),
        Err(e) => {
            let mut m: String = prefix.to_owned();
            m.push_str(e.as_str());
            Err(SlipstreamError::Wallet(m))
        },
    }
}

/// The words before the wallet's own, where it failed to do an action.
pub open spec fn action_context(action: TxidAction) -> Seq<char> {
    match action {
        TxidAction::SetStatus(TxStatus::NotRecognized) =>
            "set_transaction_status TxidNotRecognized: "@,
        TxidAction::SetStatus(_) => "set_transaction_status: "@,
        TxidAction::Store(_) => "decrypt_and_store: "@,
    }
}

/// The counters once the wallet has done an action.
pub open spec fn stats_after(stats: EnhanceStats, action: TxidAction) -> EnhanceStats {
    match action {
        TxidAction::SetStatus(_) => EnhanceStats {
            statuses_set: stats.statuses_set.wrapping_add(1),
            ..stats
        },
        TxidAction::Store(_) => EnhanceStats {
            txs_stored: stats.txs_stored.wrapping_add(1),
            ..stats
        },
    }
}

/// The progress once the wallet has done an action at the second `now`. A stored transaction
/// and a known status are new versions of the transaction set; an id that the server does
/// not know leaves the progress as it is.
pub open spec fn progress_after(p: Progress, action: TxidAction, now: u64) -> Progress {
    match action {
        TxidAction::SetStatus(TxStatus::NotRecognized) => p,
        TxidAction::SetStatus(_) => (Progress {
            tx_set_version: p.tx_set_version.wrapping_add(1),
            ..p
        }).stamped(now),
        TxidAction::Store(_) => (Progress {
            enhanced_txs: p.enhanced_txs.wrapping_add(1),
            tx_set_version: p.tx_set_version.wrapping_add(1),
            ..p
        }).stamped(now),
    }
}

/// Takes note of the answer to the request for a transaction. Every answer is progress, the
/// one that the server does not know the transaction too: over a slow connection they take
/// seconds each, and most of them store nothing.
pub fn txid_answered(
    fetched: &Result<Option<RawTransaction>, SlipstreamError>,
    progress: &mut Progress,
    now: u64,
)
    ensures
        *final(progress) == if fetched is Ok {
            old(progress).stamped(now)
        } else {
            *old(progress)
        },
{
    if fetched.is_ok() {
        progress.touch_at(now);
    }
}

/// Takes note of what the wallet made of an action at the second `now`.
pub fn txid_applied(
    action: &TxidAction,
    outcome: Result<(), String>,
    stats: &mut EnhanceStats,
    progress: &mut Progress,
    now: u64,
) -> (r: Result<(), SlipstreamError>)
    ensures
        match outcome {
            Err(e) => (r matches Err(SlipstreamError::Wallet(m)) && m@ == action_context(*action)
                + e@) && *final(stats) == *old(stats) && *final(progress) == *old(progress),
            Ok(_) => {
                &&& r is Ok
                &&& *final(stats) == stats_after(*old(stats), *action)
                &&& *final(progress) == progress_after(*old(progress), *action, now)
            },
        },
{
    match outcome {
        Err(e) => {
            let mut m: String = match action {
                TxidAction::SetStatus(TxStatus::NotRecognized) =>
                    "set_transaction_status TxidNotRecognized: ".to_owned(),
                TxidAction::SetStatus(_) => "set_transaction_status: ".to_owned(),
                TxidAction::Store(_) => "decrypt_and_store: ".to_owned(),
            };
            m.push_str(e.as_str());
            Err(SlipstreamError::Wallet(m))
        },
        Ok(_) => {
            match action {
                TxidAction::SetStatus(TxStatus::NotRecognized) => {
                    stats.statuses_set = stats.statuses_set.wrapping_add(1);
                },
                TxidAction::SetStatus(_) => {
                    stats.statuses_set = stats.statuses_set.wrapping_add(1);
                    progress.bump_tx_set_version_at(now);
                },
                TxidAction::Store(_) => {
                    stats.txs_stored = stats.txs_stored.wrapping_add(1);
                    progress.add_enhanced_at(1, now);
                    progress.bump_tx_set_version_at(now);
                },
            }
            Ok(())
        },
    }
}

/// The skipped requests of a sync pass, by their keys.
#[derive(Debug)]
pub struct SkipSet {
    keys: Vec<String>,
}

impl View for SkipSet {
    type V = Set<Seq<char>>;

    closed spec fn view(&self) -> Set<Seq<char>> {
        key_views(self.keys@).to_set()
    }
}

/// The views of keys.
spec fn key_views(keys: Seq<String>) -> Seq<Seq<char>> {
    keys.map_values(|key: String| key@)
}

impl SkipSet {
    #[verifier::type_invariant]
    spec fn distinct(self) -> bool {
        key_views(self.keys@).no_duplicates()
    }

    /// An empty set.
    pub fn new() -> (r: SkipSet)
        ensures
            r@ == Set::<Seq<char>>::empty(),
    {
        let r = SkipSet { keys: Vec::new() };
        assert(r@ =~= Set::<Seq<char>>::empty());
        r
    }

    /// How many keys the set holds.
    pub fn len(&self) -> (n: usize)
        ensures
            n == self@.len(),
    {
        proof {
            use_type_invariant(self);
            key_views(self.keys@).unique_seq_to_set();
        }
        self.keys.len()
    }

    /// Whether the set holds the key.
    fn holds(&self, key: &String) -> (b: bool)
        ensures
            b == self@.contains(key@),
    {
        let mut i: usize = 0;
        while i < self.keys.len()
            invariant
                0 <= i <= self.keys@.len(),
                forall|j: int| 0 <= j < i ==> #[trigger] key_views(self.keys@)[j] != key@,
            decreases self.keys@.len() - i,
        {
            if self.keys[i] == *key {
                assert(key_views(self.keys@)[i as int] == key@);
                return true;
            }
            i = i + 1;
        }
        false
    }

    /// Adds a key, and says whether it is new: a key counts once however often it
    /// comes.
    pub fn insert(&mut self, key: String) -> (fresh: bool)
        ensures
            fresh == !old(self)@.contains(key@),
            final(self)@ == old(self)@.insert(key@),
    {
        if self.holds(&key) {
            assert(self@ =~= self@.insert(key@));
            return false;
        }
        proof {
            use_type_invariant(&*self);
        }
        let ghost before = key_views(self.keys@);
        let ghost added = key@;
        let mut keys: Vec<String> = Vec::new();
        core::mem::swap(&mut keys, &mut self.keys);
        keys.push(key);
        proof {
            let after = key_views(keys@);
            assert(after =~= before.push(added));
            assert(!before.contains(added));
            assert forall|i: int, j: int|
                0 <= i < after.len() && 0 <= j < after.len() && i != j implies after[i]
                != after[j] by {
                if i < before.len() && j < before.len() {
                    assert(before[i] != before[j]);
                } else if i < before.len() {
                    assert(before.contains(before[i]));
                } else {
                    assert(before.contains(before[j]));
                }
            }
            assert forall|k: Seq<char>| after.contains(k) == (before.contains(k) || k == added) by {
                if before.contains(k) {
                    let n = choose|n: int| 0 <= n < before.len() && before[n] == k;
                    assert(after[n] == k);
                }
                assert(after[before.len() as int] == added);
                if after.contains(k) && k != added {
                    let n = choose|n: int| 0 <= n < after.len() && after[n] == k;
                    assert(before[n] == k);
                }
            }
        }
        self.keys = keys;
        assert(self@ =~= before.to_set().insert(added));
        true
    }
}

/// The height to stop before: an open range ends behind the chain tip.
pub open spec fn range_end_spec(range_end: Option<u32>, chain_height: u32) -> u32 {
    match range_end {
        Some(h) => h,
        None => if chain_height < u32::MAX {
            (chain_height + 1) as u32
        } else {
            u32::MAX
        },
    }
}

/// The height to stop before: an open range ends behind the chain tip, the completest
/// answer that a server can give now.
pub fn effective_range_end(range_end: Option<u32>, chain_height: u32) -> (r: u32)
    ensures
        r == range_end_spec(range_end, chain_height),
{
    match range_end {
        Some(h) => h,
        None => if chain_height < u32::MAX {
            chain_height + 1
        } else {
            u32::MAX
        },
    }
}

/// What is done about an address request.
#[derive(Debug)]
pub enum AddressStep {
    /// It cannot be served, and counts as skipped.
    Skip,
    /// The history is fetched for the heights from `start` to `end`, both included.
    Fetch { start: u64, end: u64, range_end: u32 },
}

/// The key of a skipped request; none where the request is served.
pub open spec fn skip_key(req: AddressRequest, chain_height: Option<u32>) -> Option<Seq<char>> {
    if req.range_end is None && chain_height is None {
        Some(req.address@ + ":open-no-tip"@)
    } else {
        let span = req.address@ + ":"@ + dec(req.range_start as nat) + "-"@ + dec(
            range_end_spec(req.range_end, chain_height.unwrap_or(0)) as nat,
        );
        if req.timed {
            Some(span + ":request_at"@)
        } else if req.output_filter == OutputFilter::Unspent {
            Some(span + ":unspent"@)
        } else {
            None
        }
    }
}

/// One less, but not below zero.
pub open spec fn one_less(n: u32) -> u32 {
    if n == 0 {
        0
    } else {
        (n - 1) as u32
    }
}

/// Decides about an address request. An open range is closed behind the chain tip,
/// and is skipped where the wallet has no tip; a timed request and one for
/// unspent outputs only are skipped; every skipped request counts once in a pass.
/// `chain_height` is what the wallet says of its tip, and is read for an open range
/// alone.
pub fn address_step(
    req: &AddressRequest,
    chain_height: Result<Option<u32>, String>,
    skipped: &mut SkipSet,
    stats: &mut EnhanceStats,
) -> (r: Result<AddressStep, SlipstreamError>)
    ensures
        match chain_height {
            Err(e) if req.range_end is None => (r matches Err(SlipstreamError::Wallet(m)) && m@
                == "chain_height for open-range clamp: "@ + e@) && final(skipped)@ == old(skipped)@
                && *final(stats) == *old(stats),
            _ => {
                let tip = match chain_height {
                    Ok(t) => t,
                    Err(_) => None,
                };
                match skip_key(*req, tip) {
                    Some(key) => {
                        &&& r matches Ok(AddressStep::Skip)
                        &&& final(skipped)@ == old(skipped)@.insert(key)
                        &&& *final(stats) == if old(skipped)@.contains(key) {
                            *old(stats)
                        } else {
                            EnhanceStats {
                                skipped: old(stats).skipped.wrapping_add(1),
                                ..*old(stats)
                            }
                        }
                    },
                    None => {
                        &&& r == Ok::<AddressStep, SlipstreamError>(
                            AddressStep::Fetch {
                                start: req.range_start as u64,
                                end: one_less(range_end_spec(req.range_end, tip.unwrap_or(0)))
                                    as u64,
                                range_end: range_end_spec(req.range_end, tip.unwrap_or(0)),
                            },
                        )
                        &&& final(skipped)@ == old(skipped)@
                        &&& *final(stats) == *old(stats)
                    },
                }
            },
        },
{
    let range_end: u32 = match req.range_end {
        Some(h) => h,
        None => match chain_height {
            Err(e) => {
                let mut m: String = "chain_height for open-range clamp: ".to_owned();
                m.push_str(e.as_str());
                return Err(SlipstreamError::Wallet(m));
            },
            Ok(Some(tip)) => effective_range_end(None, tip),
            Ok(None) => {
                let mut key: String = req.address.clone();
                key.push_str(":open-no-tip");
                if skipped.insert(key) {
                    stats.skipped = stats.skipped.wrapping_add(1);
                }
                return Ok(AddressStep::Skip);
            },
        },
    };
    let unspent: bool = match req.output_filter {
        OutputFilter::Unspent => true,
        OutputFilter::All => false,
    };
    if req.timed || unspent {
        let mut key: String = req.address.clone();
        key.push_str(":");
        push_dec(&mut key, req.range_start as u64);
        key.push_str("-");
        push_dec(&mut key, range_end as u64);
        if req.timed {
            key.push_str(":request_at");
        } else {
            key.push_str(":unspent");
        }
        if skipped.insert(key) {
            stats.skipped = stats.skipped.wrapping_add(1);
        }
        return Ok(AddressStep::Skip);
    }
    let last: u32 = if range_end == 0 {
        0
    } else {
        range_end - 1
    };
    Ok(AddressStep::Fetch { start: req.range_start as u64, end: last as u64, range_end })
}

/// Whether a transaction of an address is wanted.
pub open spec fn wanted(filter: StatusFilter, height: u64) -> bool {
    match filter {
        StatusFilter::Mined => mined_height_spec(height) is Some,
        StatusFilter::Mempool => mined_height_spec(height) is None,
        StatusFilter::All => true,
    }
}

/// The first wanted transaction from `from` on; the number of transactions where
/// none is.
pub open spec fn next_wanted(txs: Seq<RawTransaction>, filter: StatusFilter, from: int) -> int
    decreases txs.len() - from,
{
    if from < 0 || from >= txs.len() {
        txs.len() as int
    } else if wanted(filter, txs[from].height) {
        from
    } else {
        next_wanted(txs, filter, from + 1)
    }
}

/// What comes next for the history of an address.
#[derive(Debug)]
pub enum HistoryStep {
    /// Store a transaction.
    Store(StoreTx),
    /// The history is stored: tell the wallet that the address is checked up to this
    /// height.
    Checked(u32),
}

/// The history of an address, on its way into the wallet.
#[derive(Debug)]
pub struct AddressHistory {
    pub txs: Vec<RawTransaction>,
    pub filter: StatusFilter,
    /// The height that the fetched range stops before.
    pub range_end: u32,
    /// The transactions before this index are dealt with.
    pub next: usize,
}

impl AddressHistory {
    /// The history that the server sent, or its error as the wallet run's; an answer is
    /// progress at the second `now`.
    pub fn received(
        fetched: Result<Vec<RawTransaction>, SlipstreamError>,
        filter: StatusFilter,
        range_end: u32,
        progress: &mut Progress,
        now: u64,
    ) -> (r: Result<AddressHistory, SlipstreamError>)
        ensures
            match fetched {
                Err(e) => (r matches Err(SlipstreamError::Wallet(m)) && m@
                    == "get_taddress_txids: "@ + e.text()) && *final(progress) == *old(progress),
                Ok(txs) => r == Ok::<AddressHistory, SlipstreamError>(
                    AddressHistory { txs, filter, range_end, next: 0 },
                ) && *final(progress) == old(progress).stamped(now),
            },
    {
        match fetched {
            Err(e) => {
                let mut m: String = "get_taddress_txids: ".to_owned();
                let t: String = e.message();
                m.push_str(t.as_str());
                Err(SlipstreamError::Wallet(m))
            },
            Ok(txs) => {
                progress.touch_at(now);
                Ok(AddressHistory { txs, filter, range_end, next: 0 })
            },
        }
    }

    /// What comes next: the next wanted transaction, which must read, or the end.
    pub fn step(&mut self) -> (r: Result<HistoryStep, SlipstreamError>)
        requires
            old(self).next <= old(self).txs@.len(),
        ensures
            final(self).next <= final(self).txs@.len(),
            final(self).txs == old(self).txs,
            final(self).filter == old(self).filter,
            final(self).range_end == old(self).range_end,
            ({
                let i = next_wanted(old(self).txs@, old(self).filter, old(self).next as int);
                if i >= old(self).txs@.len() {
                    &&& r == Ok::<HistoryStep, SlipstreamError>(
                        HistoryStep::Checked(one_less(old(self).range_end)),
                    )
                    &&& final(self).next == old(self).txs@.len()
                } else {
                    &&& final(self).next == i + 1
                    &&& match transaction_reading(old(self).txs@[i].data@) {
                        Ok(_) => r matches Ok(HistoryStep::Store(s)) && s.data@
                            == old(self).txs@[i].data@ && s.mined_height == mined_height_spec(
                            old(self).txs@[i].height,
                        ),
                        Err(e) => r matches Err(SlipstreamError::Wallet(m)) && m@
                            == "tx parse (taddr): "@ + e,
                    }
                }
            }),
    {
        let mut i: usize = self.next;
        while i < self.txs.len()
            invariant
                old(self).next <= i <= self.txs@.len(),
                *self == *old(self),
                next_wanted(self.txs@, self.filter, i as int) == next_wanted(
                    self.txs@,
                    self.filter,
                    self.next as int,
                ),
            ensures
                i <= self.txs@.len(),
                *self == *old(self),
                i == next_wanted(self.txs@, self.filter, self.next as int),
            decreases self.txs@.len() - i,
        {
            let mined: Option<u32> = mined_height(self.txs[i].height);
            let take: bool = match self.filter {
                StatusFilter::Mined => mined.is_some(),
                StatusFilter::Mempool => mined.is_none(),
                StatusFilter::All => true,
            };
            if take {
                break;
            }
            i = i + 1;
        }
        if i == self.txs.len() {
            self.next = i;
            let as_of: u32 = if self.range_end == 0 {
                0
            } else {
                self.range_end - 1
            };
            return Ok(HistoryStep::Checked(as_of));
        }
        self.next = i + 1;
        let reading: Result<[u8; 32], String> = read_transaction(&self.txs[i].data);
        history_entry(reading, copy_bytes(&self.txs[i].data), mined_height(self.txs[i].height))
    }
}

/// What a reading of a transaction of an address leads to: the transaction is stored, or
/// the reading's error becomes the run's.
pub fn history_entry(
    reading: Result<[u8; 32], String>,
    data: Vec<u8>,
    mined_height: Option<u32>,
) -> (r: Result<HistoryStep, SlipstreamError>)
    ensures
        match reading {
            Ok(_) => r == Ok::<HistoryStep, SlipstreamError>(
                HistoryStep::Store(StoreTx { data, mined_height }),
            ),
            Err(e) => r matches Err(SlipstreamError::Wallet(m)) && m@ == "tx parse (taddr): "@ + e@,
        },
{
    match reading {
        Ok(_) => Ok(HistoryStep::Store(StoreTx { data, mined_height })),
        Err(e) => {
            let mut m: String = "tx parse (taddr): ".to_owned();
            m.push_str(e.as_str());
            Err(SlipstreamError::Wallet(m))
        },
    }
}

/// A copy of bytes.
fn copy_bytes(v: &Vec<u8>) -> (r: Vec<u8>)
    ensures
        r@ == v@,
{
    let mut out: Vec<u8> = Vec::new();
    let mut i: usize = 0;
    while i < v.len()
        invariant
            0 <= i <= v@.len(),
            out@ == v@.take(i as int),
        decreases v@.len() - i,
    {
        out.push(v[i]);
        i = i + 1;
        assert(out@ =~= v@.take(i as int));
    }
    assert(v@.take(v@.len() as int) =~= v@);
    out
}

/// Takes note of what the wallet made of a transaction of an address at the second `now`.
pub fn history_stored(
    outcome: Result<(), String>,
    stats: &mut EnhanceStats,
    progress: &mut Progress,
    now: u64,
) -> (r: Result<(), SlipstreamError>)
    ensures
        match outcome {
            Err(e) => (r matches Err(SlipstreamError::Wallet(m)) && m@
                == "decrypt_and_store (taddr): "@ + e@) && *final(stats) == *old(stats)
                && *final(progress) == *old(progress),
            Ok(_) => {
                &&& r is Ok
                &&& *final(stats) == (EnhanceStats {
                    txs_stored: old(stats).txs_stored.wrapping_add(1),
                    ..*old(stats)
                })
                &&& *final(progress) == (Progress {
                    enhanced_txs: old(progress).enhanced_txs.wrapping_add(1),
                    tx_set_version: old(progress).tx_set_version.wrapping_add(1),
                    ..*old(progress)
                }).stamped(now)
            },
        },
{
    match outcome {
        Err(e) => {
            let mut m: String = "decrypt_and_store (taddr): ".to_owned();
            m.push_str(e.as_str());
            Err(SlipstreamError::Wallet(m))
        },
        Ok(_) => {
            stats.txs_stored = stats.txs_stored.wrapping_add(1);
            progress.add_enhanced_at(1, now);
            progress.bump_tx_set_version_at(now);
            Ok(())
        },
    }
}

/// Takes note of whether the wallet recorded that an address is checked.
pub fn address_checked(outcome: Result<(), String>) -> (r: Result<(), SlipstreamError>)
    ensures
        match outcome {
            Err(e) => r matches Err(SlipstreamError::Wallet(m)) && m@ == "notify_address_checked: "@
                + e@,
            Ok(_) => r is Ok,
        },
{
    match outcome {
        Err(e) => {
            let mut m: String = "notify_address_checked: ".to_owned();
            m.push_str(e.as_str());
            Err(SlipstreamError::Wallet(m))
        },
        Ok(_) => Ok(()),
    }
}

/// A served request is checked exactly up to the last height that was fetched, and an
/// open range reaches the chain tip: nothing between two requests is missed.
pub proof fn law_checked_through_the_fetched_end(req: AddressRequest, tip: u32)
    requires
        tip < u32::MAX,
    ensures
        req.range_end is None ==> one_less(range_end_spec(req.range_end, tip)) == tip,
        req.range_end matches Some(h) ==> range_end_spec(req.range_end, tip) == h,
{
}

/// The keys that are held once requests were decided about, in their order.
pub open spec fn keys_after(
    reqs: Seq<AddressRequest>,
    tip: Option<u32>,
    keys: Set<Seq<char>>,
) -> Set<Seq<char>>
    decreases reqs.len(),
{
    if reqs.len() == 0 {
        keys
    } else {
        let held = keys_after(reqs.drop_last(), tip, keys);
        match skip_key(reqs.last(), tip) {
            Some(key) => held.insert(key),
            None => held,
        }
    }
}

/// How many of the requests count as skipped.
pub open spec fn skips_counted(
    reqs: Seq<AddressRequest>,
    tip: Option<u32>,
    keys: Set<Seq<char>>,
) -> nat
    decreases reqs.len(),
{
    if reqs.len() == 0 {
        0
    } else {
        let held = keys_after(reqs.drop_last(), tip, keys);
        let before = skips_counted(reqs.drop_last(), tip, keys);
        match skip_key(reqs.last(), tip) {
            Some(key) => if held.contains(key) {
                before
            } else {
                before + 1
            },
            None => before,
        }
    }
}

/// However often requests come again, in whatever order, a pass counts each distinct skip
/// once: as many as there are keys that were not held before.
pub proof fn law_distinct_skips_are_counted(
    reqs: Seq<AddressRequest>,
    tip: Option<u32>,
    keys: Set<Seq<char>>,
)
    requires
        keys.finite(),
    ensures
        keys_after(reqs, tip, keys).finite(),
        keys.subset_of(keys_after(reqs, tip, keys)),
        keys.len() + skips_counted(reqs, tip, keys) == keys_after(reqs, tip, keys).len(),
    decreases reqs.len(),
{
    if reqs.len() > 0 {
        law_distinct_skips_are_counted(reqs.drop_last(), tip, keys);
    }
}

/// Two runs add up counter by counter.
pub proof fn law_runs_add_up(a: EnhanceStats, b: EnhanceStats)
    requires
        a.spans_add_up(b),
    ensures
        a.requests + b.requests <= u64::MAX ==> a.merged(b).requests == a.requests + b.requests,
        a.txs_stored + b.txs_stored <= u64::MAX ==> a.merged(b).txs_stored == a.txs_stored
            + b.txs_stored,
        a.statuses_set + b.statuses_set <= u64::MAX ==> a.merged(b).statuses_set == a.statuses_set
            + b.statuses_set,
        a.skipped + b.skipped <= u64::MAX ==> a.merged(b).skipped == a.skipped + b.skipped,
        a.merged(b).fetch_wait == a.fetch_wait + b.fetch_wait,
        a.merged(b).store == a.store + b.store,
        a.merged(b).address == a.address + b.address,
{
}

/// Two runs whose every time span, added to the other's, is one that can be measured can be
/// added up, and no others.
pub proof fn law_measurable_runs_can_be_added(a: EnhanceStats, b: EnhanceStats)
    ensures
        a.spans_add_up(b) <==> a.fetch_wait + b.fetch_wait <= 18_446_744_073_709_551_615_999_999_999
            && a.store + b.store <= 18_446_744_073_709_551_615_999_999_999 && a.address + b.address
            <= 18_446_744_073_709_551_615_999_999_999,
{
}

/// A run asks the wallet again until it had nothing to ask for, and three times at most.
pub proof fn law_run_has_three_rounds(run: EnhanceRun)
    ensures
        run.goes_on() <==> !run.finished && run.rounds < 3,
{
}

/// Requests are planned one by one: what two lists of requests ask for one after the other is
/// what both ask for, a request for a status is a fetch that stores nothing, one for a
/// transaction a fetch that stores it, and one for an address is handed on as it is.
pub proof fn law_requests_are_planned_one_by_one(
    first: Seq<DataRequest>,
    second: Seq<DataRequest>,
    txid: [u8; 32],
    req: AddressRequest,
)
    ensures
        txid_fetches(first + second) == txid_fetches(first) + txid_fetches(second),
        address_requests(first + second) == address_requests(first) + address_requests(second),
        txid_fetches(seq![DataRequest::GetStatus(txid)]) == seq![
            TxidFetch { txid, want_enhance: false },
        ],
        txid_fetches(seq![DataRequest::Enhancement(txid)]) == seq![
            TxidFetch { txid, want_enhance: true },
        ],
        txid_fetches(seq![DataRequest::InvolvingAddress(req)]).len() == 0,
        address_requests(seq![DataRequest::GetStatus(txid)]).len() == 0,
        address_requests(seq![DataRequest::Enhancement(txid)]).len() == 0,
        address_requests(seq![DataRequest::InvolvingAddress(req)]) == seq![req],
    decreases second.len(),
{
    reveal_with_fuel(txid_fetches, 2);
    reveal_with_fuel(address_requests, 2);
    assert(seq![DataRequest::GetStatus(txid)].drop_last() =~= Seq::<DataRequest>::empty());
    assert(seq![DataRequest::Enhancement(txid)].drop_last() =~= Seq::<DataRequest>::empty());
    assert(seq![DataRequest::InvolvingAddress(req)].drop_last() =~= Seq::<DataRequest>::empty());
    assert(txid_fetches(seq![DataRequest::GetStatus(txid)]) =~= seq![
        TxidFetch { txid, want_enhance: false },
    ]);
    assert(txid_fetches(seq![DataRequest::Enhancement(txid)]) =~= seq![
        TxidFetch { txid, want_enhance: true },
    ]);
    assert(address_requests(seq![DataRequest::InvolvingAddress(req)]) =~= seq![req]);
    if second.len() == 0 {
        assert(first + second =~= first);
        assert(txid_fetches(first) + txid_fetches(second) =~= txid_fetches(first));
        assert(address_requests(first) + address_requests(second) =~= address_requests(first));
    } else {
        law_requests_are_planned_one_by_one(first, second.drop_last(), txid, req);
        assert((first + second).drop_last() =~= first + second.drop_last());
        assert((first + second).last() == second.last());
        assert(txid_fetches(first + second) =~= txid_fetches(first) + txid_fetches(second));
        assert(address_requests(first + second) =~= address_requests(first) + address_requests(
            second,
        ));
    }
}

/// What the wallet has done is counted once: a stored transaction as stored, a status as set,
/// and nothing else of the counters moves. The transaction set has a new version whenever a
/// transaction was stored or its status is known, and a stored one counts as enhanced.
pub proof fn law_actions_count_once(
    stats: EnhanceStats,
    p: Progress,
    action: TxidAction,
    now: u64,
)
    requires
        stats.txs_stored < u64::MAX,
        stats.statuses_set < u64::MAX,
        p.enhanced_txs < u64::MAX,
        p.tx_set_version < u64::MAX,
    ensures
        ({
            let s = stats_after(stats, action);
            let q = progress_after(p, action, now);
            let unknown = action == TxidAction::SetStatus(TxStatus::NotRecognized);
            &&& action is Store ==> s.txs_stored == stats.txs_stored + 1 && s.statuses_set
                == stats.statuses_set
            &&& action is SetStatus ==> s.statuses_set == stats.statuses_set + 1 && s.txs_stored
                == stats.txs_stored
            &&& s == (EnhanceStats {
                txs_stored: s.txs_stored,
                statuses_set: s.statuses_set,
                ..stats
            })
            &&& action is Store ==> q.enhanced_txs == p.enhanced_txs + 1
            &&& action is SetStatus ==> q.enhanced_txs == p.enhanced_txs
            &&& !unknown ==> q.tx_set_version == p.tx_set_version + 1 && q.last_progress_unix == now
            &&& unknown ==> q == p
            &&& q == (Progress {
                enhanced_txs: q.enhanced_txs,
                tx_set_version: q.tx_set_version,
                last_progress_unix: q.last_progress_unix,
                ..p
            })
        }),
{
}

/// The words before the wallet's own say what it failed to do.
pub proof fn law_failed_actions_are_named(action: TxidAction)
    ensures
        action is Store ==> action_context(action) == "decrypt_and_store: "@,
        action is SetStatus && action->SetStatus_0 is NotRecognized ==> action_context(action)
            == "set_transaction_status TxidNotRecognized: "@,
        action is SetStatus && !(action->SetStatus_0 is NotRecognized) ==> action_context(action)
            == "set_transaction_status: "@,
{
}

/// A filter looks at the height that the server gave and at nothing else: a mined transaction
/// has one that is a block height, and all transactions are wanted where none is filtered.
pub proof fn law_filter_goes_by_the_height(height: u64)
    ensures
        wanted(StatusFilter::All, height),
        wanted(StatusFilter::Mined, height) <==> 0 < height <= u32::MAX,
        wanted(StatusFilter::Mempool, height) <==> height == 0 || height > u32::MAX,
{
}

/// A step of a history stores the next transaction that the filter wants and passes over
/// none of these: the transactions in between are not wanted, and the history is over only
/// where no wanted one is left.
pub proof fn law_history_passes_over_the_unwanted_alone(
    txs: Seq<RawTransaction>,
    filter: StatusFilter,
    from: int,
)
    requires
        0 <= from <= txs.len(),
    ensures
        ({
            let i = next_wanted(txs, filter, from);
            &&& from <= i <= txs.len()
            &&& i < txs.len() ==> wanted(filter, txs[i].height)
            &&& forall|j: int| from <= j < i ==> !wanted(filter, (#[trigger] txs[j]).height)
        }),
    decreases txs.len() - from,
{
    if from < txs.len() && !wanted(filter, txs[from].height) {
        law_history_passes_over_the_unwanted_alone(txs, filter, from + 1);
    }
}

/// The indices of the transactions that steps store until the history is over.
pub open spec fn stored_from(txs: Seq<RawTransaction>, filter: StatusFilter, from: int) -> Seq<int>
    decreases txs.len() - from,
{
    let i = next_wanted(txs, filter, from);
    if from < 0 || i < from || i >= txs.len() {
        Seq::empty()
    } else {
        seq![i] + stored_from(txs, filter, i + 1)
    }
}

/// Once a history is over, exactly the transactions that the filter wants were stored, each
/// once and in the order in which they came, those of one block too.
pub proof fn law_history_is_stored_whole(
    txs: Seq<RawTransaction>,
    filter: StatusFilter,
    from: int,
)
    requires
        0 <= from <= txs.len(),
    ensures
        ({
            let stored = stored_from(txs, filter, from);
            &&& forall|j: int|
                from <= j < txs.len() ==> (stored.contains(j) <==> match filter {
                    StatusFilter::All => true,
                    StatusFilter::Mined => 0 < (#[trigger] txs[j]).height <= u32::MAX,
                    StatusFilter::Mempool => txs[j].height == 0 || txs[j].height > u32::MAX,
                })
            &&& forall|k: int|
                0 <= k < stored.len() ==> from <= #[trigger] stored[k] < txs.len()
            &&& forall|k: int, l: int|
                0 <= k < l < stored.len() ==> #[trigger] stored[k] < #[trigger] stored[l]
        }),
    decreases txs.len() - from,
{
    law_history_passes_over_the_unwanted_alone(txs, filter, from);
    let i = next_wanted(txs, filter, from);
    let stored = stored_from(txs, filter, from);
    assert forall|j: int| 0 <= j < txs.len() implies (wanted(filter, (#[trigger] txs[j]).height)
        <==> match filter {
        StatusFilter::All => true,
        StatusFilter::Mined => 0 < txs[j].height <= u32::MAX,
        StatusFilter::Mempool => txs[j].height == 0 || txs[j].height > u32::MAX,
    }) by {
        law_filter_goes_by_the_height(txs[j].height);
    }
    if i < txs.len() {
        law_history_is_stored_whole(txs, filter, i + 1);
        let rest = stored_from(txs, filter, i + 1);
        assert(stored == seq![i] + rest);
        assert forall|j: int| from <= j < txs.len() implies (stored.contains(j) <==> match filter {
            StatusFilter::All => true,
            StatusFilter::Mined => 0 < (#[trigger] txs[j]).height <= u32::MAX,
            StatusFilter::Mempool => txs[j].height == 0 || txs[j].height > u32::MAX,
        }) by {
            assert(stored.contains(j) <==> j == i || rest.contains(j)) by {
                if j == i {
                    assert(stored[0] == j);
                }
                if rest.contains(j) {
                    let k = choose|k: int| 0 <= k < rest.len() && rest[k] == j;
                    assert(stored[k + 1] == j);
                }
                if stored.contains(j) && j != i {
                    let k = choose|k: int| 0 <= k < stored.len() && stored[k] == j;
                    assert(rest[k - 1] == j);
                }
            }
            if j < i {
                assert(!wanted(filter, txs[j].height));
                if rest.contains(j) {
                    let k = choose|k: int| 0 <= k < rest.len() && rest[k] == j;
                    assert(rest[k] >= i + 1);
                }
            } else if j == i {
                assert(wanted(filter, txs[j].height));
            }
        }
        assert forall|k: int| 0 <= k < stored.len() implies from <= #[trigger] stored[k]
            < txs.len() by {
            if k > 0 {
                assert(stored[k] == rest[k - 1]);
            }
        }
        assert forall|k: int, l: int| 0 <= k < l < stored.len() implies #[trigger] stored[k]
            < #[trigger] stored[l] by {
            assert(stored[l] == rest[l - 1]);
            if k > 0 {
                assert(stored[k] == rest[k - 1]);
            }
        }
    } else {
        assert forall|j: int| from <= j < txs.len() implies (stored.contains(j) <==> match filter {
            StatusFilter::All => true,
            StatusFilter::Mined => 0 < (#[trigger] txs[j]).height <= u32::MAX,
            StatusFilter::Mempool => txs[j].height == 0 || txs[j].height > u32::MAX,
        }) by {
            assert(!wanted(filter, txs[j].height));
        }
    }
}

/// A request is served exactly where its range has an end, given or by the wallet's tip, it
/// need not wait and asks for all outputs. A skipped one is known by its address, its range
/// and the reason, so that two that differ in the address alone are two.
pub proof fn law_requests_are_served_or_named(
    req: AddressRequest,
    other: AddressRequest,
    tip: Option<u32>,
)
    ensures
        skip_key(req, tip) is None <==> (req.range_end is Some || tip is Some) && !req.timed
            && req.output_filter == OutputFilter::All,
        req.range_end is None && tip is None ==> skip_key(req, tip) == Some(
            req.address@ + ":open-no-tip"@,
        ),
        req.range_end matches Some(end) && req.timed ==> skip_key(req, tip) == Some(
            req.address@ + ":"@ + dec(req.range_start as nat) + "-"@ + dec(
                req.range_end->Some_0 as nat,
            ) + ":request_at"@,
        ),
        req.range_end is Some && !req.timed && req.output_filter == OutputFilter::Unspent
            ==> skip_key(req, tip) == Some(
            req.address@ + ":"@ + dec(req.range_start as nat) + "-"@ + dec(
                req.range_end->Some_0 as nat,
            ) + ":unspent"@,
        ),
        req.range_end is None && tip is Some && tip->Some_0 < u32::MAX && req.timed ==> skip_key(
            req,
            tip,
        ) == Some(
            req.address@ + ":"@ + dec(req.range_start as nat) + "-"@ + dec(
                (tip->Some_0 + 1) as nat,
            ) + ":request_at"@,
        ),
        req.range_end is None && tip is Some && tip->Some_0 < u32::MAX && !req.timed
            && req.output_filter == OutputFilter::Unspent ==> skip_key(req, tip) == Some(
            req.address@ + ":"@ + dec(req.range_start as nat) + "-"@ + dec(
                (tip->Some_0 + 1) as nat,
            ) + ":unspent"@,
        ),
        req.address@.len() == other.address@.len() && req.address@ != other.address@ && skip_key(
            req,
            tip,
        ) is Some ==> skip_key(req, tip) != skip_key(other, tip),
{
    if req.address@.len() == other.address@.len() && skip_key(req, tip) is Some && skip_key(
        req,
        tip,
    ) == skip_key(other, tip) {
        let n = req.address@.len() as int;
        assert(skip_key(req, tip)->Some_0.take(n) =~= req.address@);
        assert(skip_key(other, tip)->Some_0.take(n) =~= other.address@);
    }
}

/// A given end is taken as it is; an open range ends one behind the tip, as far as heights
/// go. The last height before an end is one less, and zero has none before it.
pub proof fn law_open_ranges_end_behind_the_tip(end: u32, tip: u32)
    ensures
        range_end_spec(Some(end), tip) == end,
        tip < u32::MAX ==> range_end_spec(None, tip) == tip + 1,
        tip == u32::MAX ==> range_end_spec(None, tip) == u32::MAX,
        end > 0 ==> one_less(end) + 1 == end,
        end == 0 ==> one_less(end) == 0,
{
}

} // verus!
