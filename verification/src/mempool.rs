//! The mempool between two sync passes. A session is one stream of the server's
//! mempool, from its opening to its end.
use crate::error::SlipstreamError;
use crate::events::Progress;
use crate::transaction::{read_transaction, transaction_reading};
use vstd::prelude::*;

verus! {

/// How a session ends, where it does not fail.
#[derive(Debug, Clone, Copy, PartialEq, Eq, Structural)]
pub enum SessionEnd {
    /// The server closed the stream: a block was mined.
    BlockBoundary,
    /// Nothing came for too long: a quiet mempool and a dead connection look alike.
    IdleReconnect,
}

/// Seconds of silence after which a session ends. An empty mempool is silent
/// for good reason, so this is longer than the silence that other streams are
/// allowed.
pub const MEMPOOL_SESSION_IDLE: u64 = 60;

/// The seen transactions are forgotten once there are more than this.
pub const SEEN_TXIDS_CAP: usize = 4096;

/// Counters of one session.
#[derive(Debug, Clone, Copy, PartialEq, Eq, Structural)]
pub struct SessionStats {
    pub received: u64,
    pub stored_hits: u64,
}

impl Default for SessionStats {
    fn default() -> (r: SessionStats)
        ensures
            r == (SessionStats { received: 0, stored_hits: 0 }),
    {
        SessionStats { received: 0, stored_hits: 0 }
    }
}

/// The transactions that were seen, over all sessions: a server sends its whole
/// mempool again whenever a session opens.
#[derive(Debug)]
pub struct SeenTxids {
    ids: Vec<[u8; 32]>,
}

impl View for SeenTxids {
    type V = Set<Seq<u8>>;

    closed spec fn view(&self) -> Set<Seq<u8>> {
        id_views(self.ids@).to_set()
    }
}

/// The views of ids.
spec fn id_views(ids: Seq<[u8; 32]>) -> Seq<Seq<u8>> {
    ids.map_values(|id: [u8; 32]| id@)
}

/// Whether two transaction ids are the same.
fn same_id(a: &[u8; 32], b: &[u8; 32]) -> (r: bool)
    ensures
        r == (a@ == b@),
{
    let mut i: usize = 0;
    while i < 32
        invariant
            0 <= i <= 32,
            forall|j: int| 0 <= j < i ==> a@[j] == b@[j],
        decreases 32 - i,
    {
        if a[i] != b[i] {
            return false;
        }
        i = i + 1;
    }
    assert(a@ =~= b@);
    true
}

impl SeenTxids {
    #[verifier::type_invariant]
    spec fn distinct(self) -> bool {
        id_views(self.ids@).no_duplicates()
    }

    /// Nothing seen.
    pub fn new() -> (r: SeenTxids)
        ensures
            r@ == Set::<Seq<u8>>::empty(),
    {
        let r = SeenTxids { ids: Vec::new() };
        assert(r@ =~= Set::<Seq<u8>>::empty());
        r
    }

    /// How many transactions were seen.
    pub fn len(&self) -> (n: usize)
        ensures
            n == self@.len(),
    {
        proof {
            use_type_invariant(self);
            id_views(self.ids@).unique_seq_to_set();
        }
        self.ids.len()
    }

    /// Forgets all.
    pub fn clear(&mut self)
        ensures
            final(self)@ == Set::<Seq<u8>>::empty(),
    {
        self.ids = Vec::new();
        assert(self@ =~= Set::<Seq<u8>>::empty());
    }

    /// Whether a transaction was seen.
    fn holds(&self, txid: &[u8; 32]) -> (b: bool)
        ensures
            b == self@.contains(txid@),
    {
        let mut i: usize = 0;
        while i < self.ids.len()
            invariant
                0 <= i <= self.ids@.len(),
                forall|j: int| 0 <= j < i ==> #[trigger] id_views(self.ids@)[j] != txid@,
            decreases self.ids@.len() - i,
        {
            if same_id(&self.ids[i], txid) {
                assert(id_views(self.ids@)[i as int] == txid@);
                return true;
            }
            i = i + 1;
        }
        false
    }

    /// Marks a transaction as seen, and says whether it is new.
    pub fn insert(&mut self, txid: [u8; 32]) -> (fresh: bool)
        ensures
            fresh == !old(self)@.contains(txid@),
            final(self)@ == old(self)@.insert(txid@),
    {
        if self.holds(&txid) {
            assert(self@ =~= self@.insert(txid@));
            return false;
        }
        proof {
            use_type_invariant(&*self);
        }
        let ghost before = id_views(self.ids@);
        let mut ids: Vec<[u8; 32]> = Vec::new();
        core::mem::swap(&mut ids, &mut self.ids);
        ids.push(txid);
        proof {
            let after = id_views(ids@);
            assert(after =~= before.push(txid@));
            assert(!before.contains(txid@));
            assert forall|i: int, j: int|
                0 <= i < after.len() && 0 <= j < after.len() && i != j implies after[i]
                != after[j] by {
                if i < before.len() && j < before.len() {
                    assert(before[i] != before[j]);
                } else if i < before.len() {
                    assert(before.contains(before[i]));
                } else {
                    assert(before.contains(before[j]));
                }
            }
            assert forall|k: Seq<u8>| after.contains(k) == (before.contains(k) || k == txid@) by {
                if before.contains(k) {
                    let n = choose|n: int| 0 <= n < before.len() && before[n] == k;
                    assert(after[n] == k);
                }
                assert(after[before.len() as int] == txid@);
                if after.contains(k) && k != txid@ {
                    let n = choose|n: int| 0 <= n < after.len() && after[n] == k;
                    assert(before[n] == k);
                }
            }
        }
        self.ids = ids;
        assert(self@ =~= before.to_set().insert(txid@));
        true
    }
}

/// What the stream brought.
#[derive(Debug)]
pub enum MempoolEvent {
    /// Nothing within the allowed silence.
    Silence,
    /// The end of the stream.
    Closed,
    /// The stream broke, in the server's words.
    Broken(String),
    /// An encoded transaction.
    Transaction(Vec<u8>),
}

/// What is done about it.
#[derive(Debug)]
pub enum MempoolStep {
    /// The session ends.
    End(SessionEnd),
    /// The session fails.
    Fail(SlipstreamError),
    /// The entry is passed over: it does not read, or was seen before.
    PassOver,
    /// The wallet is offered the transaction of this id.
    Offer([u8; 32]),
}

/// Starts a session: forgets the seen transactions where there are too many.
pub fn begin_session(seen: &mut SeenTxids) -> (r: SessionStats)
    ensures
        r == (SessionStats { received: 0, stored_hits: 0 }),
        final(seen)@ == if old(seen)@.len() > SEEN_TXIDS_CAP {
            Set::<Seq<u8>>::empty()
        } else {
            old(seen)@
        },
        old(seen)@.len() > 4096 ==> final(seen)@ == Set::<Seq<u8>>::empty(),
        old(seen)@.len() <= 4096 ==> final(seen)@ == old(seen)@,
{
    if seen.len() > SEEN_TXIDS_CAP {
        seen.clear();
    }
    SessionStats::default()
}

/// The transaction that the wallet is offered for an entry that reads so: none where it does
/// not read or was seen.
pub open spec fn offer_of(reading: Result<Seq<u8>, Seq<char>>, seen: Set<Seq<u8>>) -> Option<
    Seq<u8>,
> {
    match reading {
        Ok(txid) => if seen.contains(txid) {
            None
        } else {
            Some(txid)
        },
        Err(_) => None,
    }
}

/// What was seen once an entry that reads so is dealt with.
pub open spec fn seen_with(reading: Result<Seq<u8>, Seq<char>>, seen: Set<Seq<u8>>) -> Set<
    Seq<u8>,
> {
    match reading {
        Ok(txid) => seen.insert(txid),
        Err(_) => seen,
    }
}

/// What was seen once entries were dealt with, in their order.
pub open spec fn seen_after(entries: Seq<Seq<u8>>, seen: Set<Seq<u8>>) -> Set<Seq<u8>>
    decreases entries.len(),
{
    if entries.len() == 0 {
        seen
    } else {
        seen_with(transaction_reading(entries.last()), seen_after(entries.drop_last(), seen))
    }
}

/// The transactions that the wallet is offered for entries, in their order.
pub open spec fn offers(entries: Seq<Seq<u8>>, seen: Set<Seq<u8>>) -> Seq<Seq<u8>>
    decreases entries.len(),
{
    if entries.len() == 0 {
        Seq::empty()
    } else {
        let before = offers(entries.drop_last(), seen);
        match offer_of(
            transaction_reading(entries.last()),
            seen_after(entries.drop_last(), seen),
        ) {
            Some(txid) => before.push(txid),
            None => before,
        }
    }
}

/// However often a stream replays its entries, the wallet is offered each transaction that
/// was not seen before exactly once, and none that was.
pub proof fn law_each_transaction_is_offered_once(entries: Seq<Seq<u8>>, seen: Set<Seq<u8>>)
    ensures
        offers(entries, seen).no_duplicates(),
        forall|txid: Seq<u8>| #[trigger]
            offers(entries, seen).contains(txid) <==> !seen.contains(txid) && exists|i: int|
                0 <= i < entries.len() && #[trigger] transaction_reading(entries[i]) == Ok::<
                    Seq<u8>,
                    Seq<char>,
                >(txid),
    decreases entries.len(),
{
    lemma_seen_after(entries, seen);
    if entries.len() > 0 {
        let front = entries.drop_last();
        law_each_transaction_is_offered_once(front, seen);
        lemma_seen_after(front, seen);
        let reading = transaction_reading(entries.last());
        let before = offers(front, seen);
        let all = offers(entries, seen);
        assert forall|txid: Seq<u8>| #[trigger] all.contains(txid) <==> !seen.contains(txid)
            && exists|i: int|
            0 <= i < entries.len() && #[trigger] transaction_reading(entries[i]) == Ok::<
                Seq<u8>,
                Seq<char>,
            >(txid) by {
            if before.contains(txid) {
                let k = choose|k: int| 0 <= k < before.len() && before[k] == txid;
                assert(all[k] == txid);
                let i = choose|i: int|
                    0 <= i < front.len() && #[trigger] transaction_reading(front[i]) == Ok::<
                        Seq<u8>,
                        Seq<char>,
                    >(txid);
                assert(transaction_reading(entries[i]) == Ok::<Seq<u8>, Seq<char>>(txid));
            }
            if reading == Ok::<Seq<u8>, Seq<char>>(txid) {
                assert(transaction_reading(entries[entries.len() - 1]) == reading);
                if !seen_after(front, seen).contains(txid) {
                    assert(all[before.len() as int] == txid);
                }
            }
            if all.contains(txid) && !before.contains(txid) {
                let k = choose|k: int| 0 <= k < all.len() && all[k] == txid;
                assert(k == before.len());
            }
            if exists|i: int|
                0 <= i < entries.len() && #[trigger] transaction_reading(entries[i]) == Ok::<
                    Seq<u8>,
                    Seq<char>,
                >(txid) {
                let i = choose|i: int|
                    0 <= i < entries.len() && #[trigger] transaction_reading(entries[i]) == Ok::<
                        Seq<u8>,
                        Seq<char>,
                    >(txid);
                if i < front.len() {
                    assert(transaction_reading(front[i]) == Ok::<Seq<u8>, Seq<char>>(txid));
                }
            }
        }
        if all != before {
            assert(!before.contains(all.last()));
        }
    }
}

/// What was seen is what was seen before, and what was offered.
proof fn lemma_seen_after(entries: Seq<Seq<u8>>, seen: Set<Seq<u8>>)
    ensures
        forall|txid: Seq<u8>| #[trigger]
            seen_after(entries, seen).contains(txid) <==> seen.contains(txid) || offers(
                entries,
                seen,
            ).contains(txid),
    decreases entries.len(),
{
    if entries.len() > 0 {
        let front = entries.drop_last();
        lemma_seen_after(front, seen);
        let before = offers(front, seen);
        let all = offers(entries, seen);
        assert forall|txid: Seq<u8>| #[trigger] seen_after(entries, seen).contains(txid)
            <==> seen.contains(txid) || all.contains(txid) by {
            if before.contains(txid) {
                let k = choose|k: int| 0 <= k < before.len() && before[k] == txid;
                assert(all[k] == txid);
            }
            if all.contains(txid) && !before.contains(txid) {
                let k = choose|k: int| 0 <= k < all.len() && all[k] == txid;
                assert(k == before.len());
            }
            match transaction_reading(entries.last()) {
                Ok(id) => {
                    if !seen_after(front, seen).contains(id) {
                        assert(all[before.len() as int] == id);
                    }
                },
                Err(_) => {},
            }
        }
    }
}

/// Decides about what the stream brought. Every transaction counts as received; one that
/// does not read is passed over, for a malformed entry must not end the monitoring,
/// and so is one that was seen.
pub fn session_step(event: MempoolEvent, seen: &mut SeenTxids, stats: &mut SessionStats) -> (r:
    MempoolStep)
    ensures
        match event {
            MempoolEvent::Transaction(data) => {
                &&& *final(stats) == (SessionStats {
                    received: old(stats).received.wrapping_add(1),
                    ..*old(stats)
                })
                &&& final(seen)@ == seen_with(transaction_reading(data@), old(seen)@)
                &&& match offer_of(transaction_reading(data@), old(seen)@) {
                    Some(txid) => r matches MempoolStep::Offer(id) && id@ == txid,
                    None => r is PassOver,
                }
            },
            _ => {
                &&& *final(stats) == *old(stats)
                &&& final(seen)@ == old(seen)@
                &&& match event {
                    MempoolEvent::Silence => r == MempoolStep::End(SessionEnd::IdleReconnect),
                    MempoolEvent::Closed => r == MempoolStep::End(SessionEnd::BlockBoundary),
                    MempoolEvent::Broken(status) => (r matches MempoolStep::Fail(
                        SlipstreamError::Transport(m),
                    ) && m@ == "mempool stream: "@ + status@),
                    MempoolEvent::Transaction(_) => true,
                }
            },
        },
{
    match event {
        MempoolEvent::Silence => MempoolStep::End(SessionEnd::IdleReconnect),
        MempoolEvent::Closed => MempoolStep::End(SessionEnd::BlockBoundary),
        MempoolEvent::Broken(status) => {
            let mut m: String = "mempool stream: ".to_owned();
            m.push_str(status.as_str());
            MempoolStep::Fail(SlipstreamError::Transport(m))
        },
        MempoolEvent::Transaction(data) => {
            stats.received = stats.received.wrapping_add(1);
            offer_if_new(read_transaction(&data), seen)
        },
    }
}

/// What the reading of an entry leads to.
pub fn offer_if_new(reading: Result<[u8; 32], String>, seen: &mut SeenTxids) -> (r: MempoolStep)
    ensures
        match reading {
            Err(_) => r is PassOver && final(seen)@ == old(seen)@,
            Ok(txid) => {
                &&& final(seen)@ == old(seen)@.insert(txid@)
                &&& if old(seen)@.contains(txid@) {
                    r is PassOver
                } else {
                    r == MempoolStep::Offer(txid)
                }
            },
        },
{
    match reading {
        Err(_) => MempoolStep::PassOver,
        Ok(txid) => {
            if seen.insert(txid) {
                MempoolStep::Offer(txid)
            } else {
                MempoolStep::PassOver
            }
        },
    }
}

/// Takes note of what the wallet made of an offered transaction: whether it took it, asked
/// for afterwards. A transaction that the wallet holds is a hit, and progress at the second
/// `now`.
pub fn offered(
    stored: Result<(), String>,
    hit: Result<bool, String>,
    stats: &mut SessionStats,
    progress: &mut Progress,
    now: u64,
) -> (r: Result<(), SlipstreamError>)
    ensures
        match stored {
            Err(e) => (r matches Err(SlipstreamError::Wallet(m)) && m@
                == "mempool decrypt_and_store: "@ + e@) && *final(stats) == *old(stats)
                && *final(progress) == *old(progress),
            Ok(_) => match hit {
                Err(e) => (r matches Err(SlipstreamError::Wallet(m)) && m@ == "mempool hit check: "@
                    + e@) && *final(stats) == *old(stats) && *final(progress) == *old(progress),
                Ok(false) => r is Ok && *final(stats) == *old(stats) && *final(progress) == *old(
                    progress,
                ),
                Ok(true) => {
                    &&& r is Ok
                    &&& *final(stats) == (SessionStats {
                        stored_hits: old(stats).stored_hits.wrapping_add(1),
                        ..*old(stats)
                    })
                    &&& *final(progress) == (Progress {
                        enhanced_txs: old(progress).enhanced_txs.wrapping_add(1),
                        tx_set_version: old(progress).tx_set_version.wrapping_add(1),
                        ..*old(progress)
                    }).stamped(now)
                },
            },
        },
{
    match stored {
        Err(e) => {
            let mut m: String = "mempool decrypt_and_store: ".to_owned();
            m.push_str(e.as_str());
            return Err(SlipstreamError::Wallet(m));
        },
        Ok(_) => {},
    }
    match hit {
        Err(e) => {
            let mut m: String = "mempool hit check: ".to_owned();
            m.push_str(e.as_str());
            Err(SlipstreamError::Wallet(m))
        },
        Ok(held) => {
            if held {
                stats.stored_hits = stats.stored_hits.wrapping_add(1);
                progress.add_enhanced_at(1, now);
                progress.bump_tx_set_version_at(now);
            }
            Ok(())
        },
    }
}

/// An entry is offered exactly where it reads and was not seen, under the id that it reads
/// as; what reads is seen from then on, and what does not read changes nothing.
pub proof fn law_new_transactions_are_offered(
    txid: Seq<u8>,
    e: Seq<char>,
    seen: Set<Seq<u8>>,
    other: Seq<u8>,
)
    ensures
        offer_of(Ok(txid), seen) == Some(txid) <==> !seen.contains(txid),
        offer_of(Ok(txid), seen) is None <==> seen.contains(txid),
        offer_of(Err(e), seen) is None,
        seen_with(Ok(txid), seen).contains(other) <==> seen.contains(other) || other == txid,
        seen_with(Err(e), seen) == seen,
{
}

/// A session that hears nothing lasts a minute, twice as long as any other stream.
pub proof fn law_quiet_sessions_last_a_minute()
    ensures
        MEMPOOL_SESSION_IDLE == 60,
        MEMPOOL_SESSION_IDLE == 2 * crate::grpc::STREAM_IDLE_TIMEOUT,
{
}

} // verus!
