//! The state behind a host's handle: the polled snapshot, the bounded event ring,
//! and what the end of a sync task does to both.
use crate::clock::now_secs;
use crate::config::Endpoint;
use crate::events::Progress;
use crate::network::Network;
use vstd::prelude::*;

verus! {

/// The snapshot that a host polls. Every field is a plain integer.
#[derive(Debug, Clone, Copy, PartialEq, Eq, Structural)]
pub struct FfiSlipstreamSnapshot {
    /// Chain tip height, zero before the first fetch.
    pub chain_tip: u64,
    /// Blocks fetched in the current or last pass.
    pub fetched_blocks: u64,
    /// Blocks scanned in the current or last pass.
    pub scanned_blocks: u64,
    /// Transactions enhanced.
    pub enhanced_txs: u64,
    /// End of the range that is being processed.
    pub current_range_end: u64,
    /// 0 idle, 1 syncing, 2 error, 3 done.
    pub state: u8,
    /// Blocks in the current pass.
    pub pass_total_blocks: u64,
    /// One where funds are spendable.
    pub spendable_hint: u8,
    /// Ranges completed.
    pub ranges_completed: u64,
    /// One inside the recovery window; zero in a terminal state.
    pub is_recovering: u8,
    /// Progress in permille, which never falls in a session; 1000 when done.
    pub progress_permille: u16,
    /// Seconds since the last progress while syncing, zero otherwise.
    pub stalled_seconds: u32,
    /// Version of the stored transaction set.
    pub tx_set_version: u64,
}

impl Default for FfiSlipstreamSnapshot {
    fn default() -> (r: FfiSlipstreamSnapshot)
        ensures
            r == (FfiSlipstreamSnapshot {
                chain_tip: 0,
                fetched_blocks: 0,
                scanned_blocks: 0,
                enhanced_txs: 0,
                current_range_end: 0,
                state: 0,
                pass_total_blocks: 0,
                spendable_hint: 0,
                ranges_completed: 0,
                is_recovering: 0,
                progress_permille: 0,
                stalled_seconds: 0,
                tx_set_version: 0,
            }),
    {
        FfiSlipstreamSnapshot {
            chain_tip: 0,
            fetched_blocks: 0,
            scanned_blocks: 0,
            enhanced_txs: 0,
            current_range_end: 0,
            state: 0,
            pass_total_blocks: 0,
            spendable_hint: 0,
            ranges_completed: 0,
            is_recovering: 0,
            progress_permille: 0,
            stalled_seconds: 0,
            tx_set_version: 0,
        }
    }
}

/// One event of the ring.
#[derive(Debug, Clone, Copy, PartialEq, Eq, Structural)]
pub struct FfiSlipstreamEvent {
    /// 1 sync started, 2 progress, 3 done, 4 error, 5 found transactions.
    pub tag: u8,
    /// Transactions stored where the sync is done, the code of an error, else zero.
    pub value: u64,
}

/// State of the sync task.
#[derive(Debug, Clone, Copy, PartialEq, Eq, Structural)]
pub enum SyncState {
    Idle,
    Syncing,
    Error(u8),
    Done,
}

/// How many events the ring keeps.
pub const EVENT_RING_CAP: usize = 64;

/// Whether an event only paces a user interface, so that it may be lost.
pub open spec fn droppable(e: FfiSlipstreamEvent) -> bool {
    e.tag == 1 || e.tag == 2
}

/// The oldest droppable event of a ring, from `from` on.
pub open spec fn oldest_droppable(ring: Seq<FfiSlipstreamEvent>, from: int) -> Option<int>
    decreases ring.len() - from,
{
    if from < 0 || from >= ring.len() {
        None
    } else if droppable(ring[from]) {
        Some(from)
    } else {
        oldest_droppable(ring, from + 1)
    }
}

/// The event that leaves a full ring: the oldest droppable one, or the oldest of all
/// where every event is critical.
pub open spec fn evicted(ring: Seq<FfiSlipstreamEvent>) -> int {
    match oldest_droppable(ring, 0) {
        Some(i) => i,
        None => 0,
    }
}

/// The ring after a push.
pub open spec fn ring_after(
    ring: Seq<FfiSlipstreamEvent>,
    e: FfiSlipstreamEvent,
) -> Seq<FfiSlipstreamEvent> {
    if ring.len() >= EVENT_RING_CAP {
        ring.remove(evicted(ring)).push(e)
    } else {
        ring.push(e)
    }
}

proof fn lemma_oldest_droppable(ring: Seq<FfiSlipstreamEvent>, from: int)
    requires
        0 <= from,
    ensures
        match oldest_droppable(ring, from) {
            Some(i) => from <= i < ring.len() && droppable(ring[i]) && forall|j: int|
                from <= j < i ==> !droppable(#[trigger] ring[j]),
            None => forall|j: int| from <= j < ring.len() ==> !droppable(#[trigger] ring[j]),
        },
    decreases ring.len() - from,
{
    if from < ring.len() && !droppable(ring[from]) {
        lemma_oldest_droppable(ring, from + 1);
    }
}

/// Pushes an event. A full ring loses its oldest droppable event first: started and
/// progress events only pace a user interface, the others survive as long as anything
/// droppable remains.
pub fn push_event_bounded(ring: &mut Vec<FfiSlipstreamEvent>, e: FfiSlipstreamEvent)
    ensures
        final(ring)@ == ring_after(old(ring)@, e),
{
    if ring.len() >= EVENT_RING_CAP {
        let mut i: usize = 0;
        while i < ring.len() && !(ring[i].tag == 1 || ring[i].tag == 2)
            invariant
                0 <= i <= ring@.len(),
                oldest_droppable(ring@, i as int) == oldest_droppable(ring@, 0),
            decreases ring@.len() - i,
        {
            i = i + 1;
        }
        let at: usize = if i < ring.len() {
            i
        } else {
            0
        };
        assert(at == evicted(ring@));
        ring.remove(at);
    }
    ring.push(e);
}

/// Pushing never takes a ring beyond its capacity, puts the event last, and keeps the
/// others in order: it drops at most one of them.
pub proof fn law_ring_is_bounded(ring: Seq<FfiSlipstreamEvent>, e: FfiSlipstreamEvent)
    requires
        ring.len() <= EVENT_RING_CAP,
    ensures
        ring_after(ring, e).len() <= EVENT_RING_CAP,
        ring_after(ring, e).last() == e,
        ring.len() < EVENT_RING_CAP ==> ring_after(ring, e).drop_last() == ring,
        ring.len() == EVENT_RING_CAP ==> exists|i: int|
            0 <= i < ring.len() && ring_after(ring, e).drop_last() == #[trigger] ring.remove(i),
{
    lemma_oldest_droppable(ring, 0);
    assert(ring_after(ring, e).drop_last() == if ring.len() >= EVENT_RING_CAP {
        ring.remove(evicted(ring))
    } else {
        ring
    });
}

/// The critical events of a ring, in order.
pub open spec fn criticals(ring: Seq<FfiSlipstreamEvent>) -> Seq<FfiSlipstreamEvent> {
    ring.filter(|e: FfiSlipstreamEvent| !droppable(e))
}

/// As long as a full ring holds a droppable event, a push loses the oldest one of these
/// and no critical event: the critical events are those from before in their order, and
/// the new one where it is critical.
pub proof fn law_criticals_survive(ring: Seq<FfiSlipstreamEvent>, e: FfiSlipstreamEvent, d: int)
    requires
        0 <= d < ring.len(),
        droppable(ring[d]),
    ensures
        criticals(ring_after(ring, e)) == criticals(ring) + criticals(seq![e]),
        ring.len() >= EVENT_RING_CAP ==> evicted(ring) <= d && droppable(ring[evicted(ring)]),
{
    lemma_oldest_droppable(ring, 0);
    let pred = |e: FfiSlipstreamEvent| !droppable(e);
    if ring.len() >= EVENT_RING_CAP {
        let k = evicted(ring);
        let before = ring.take(k);
        let after = ring.skip(k + 1);
        let lost = seq![ring[k]];
        assert(lost.filter(pred) =~= Seq::<FfiSlipstreamEvent>::empty()) by {
            reveal_with_fuel(Seq::filter, 2);
            assert(lost.drop_last() =~= Seq::<FfiSlipstreamEvent>::empty());
        }
        assert(ring =~= before + lost + after);
        assert(ring_after(ring, e) =~= before + after + seq![e]);
        Seq::filter_distributes_over_add(before, lost, pred);
        Seq::filter_distributes_over_add(before + lost, after, pred);
        Seq::filter_distributes_over_add(before, after, pred);
        Seq::filter_distributes_over_add(before + after, seq![e], pred);
        assert(before.filter(pred) + lost.filter(pred) =~= before.filter(pred));
    } else {
        assert(ring_after(ring, e) =~= ring + seq![e]);
        Seq::filter_distributes_over_add(ring, seq![e], pred);
    }
}

/// How a sync task ended.
#[derive(Debug, Clone, Copy, PartialEq, Eq, Structural)]
pub enum TaskEnd {
    /// It ran to its end, and set the state itself.
    Completed,
    /// It was cancelled by whoever set the state.
    Cancelled,
    /// It panicked, and set nothing.
    Panicked,
}

/// What a host holds of the engine, besides the tasks that run it.
#[derive(Debug)]
pub struct SlipstreamHandle {
    /// The counters, written by the sync task.
    pub progress: Progress,
    /// State of the sync task.
    pub state: SyncState,
    /// Events that the host has not drained.
    pub events: Vec<FfiSlipstreamEvent>,
    /// The server.
    pub endpoint: Endpoint,
    /// The wallet database.
    pub wallet_db_path: String,
    /// The network.
    pub network: Network,
    /// Memory of the device in bytes, zero where it is unknown.
    pub total_memory_bytes: u64,
}

impl SlipstreamHandle {
    /// Pushes one event: see [`push_event_bounded`].
    pub fn push_event(&mut self, event: FfiSlipstreamEvent)
        ensures
            final(self).events@ == ring_after(old(self).events@, event),
            *final(self) == (SlipstreamHandle { events: final(self).events, ..*old(self) }),
    {
        push_event_bounded(&mut self.events, event);
    }

    /// The snapshot of this moment: see [`derive_snapshot`].
    pub fn snapshot(&mut self) -> (r: FfiSlipstreamSnapshot)
        ensures
            r == snapshot_spec(old(self).progress, old(self).state, r.stalled_seconds),
            old(self).state != SyncState::Syncing || old(self).progress.last_progress_unix == 0
                ==> r.stalled_seconds == 0,
            *final(self) == (SlipstreamHandle {
                progress: reported(old(self).progress, old(self).state),
                ..*old(self)
            }),
    {
        derive_snapshot(&mut self.progress, self.state)
    }

    /// Drains the ring: hands out its events, and leaves none.
    pub fn drain_events(&mut self) -> (r: Vec<FfiSlipstreamEvent>)
        ensures
            r@ == old(self).events@,
            final(self).events@.len() == 0,
            *final(self) == (SlipstreamHandle { events: final(self).events, ..*old(self) }),
    {
        let mut out: Vec<FfiSlipstreamEvent> = Vec::new();
        core::mem::swap(&mut out, &mut self.events);
        out
    }

    /// Takes note of the end of the sync task. A panic becomes the error state with
    /// code 2 and an error event; a completed or cancelled task changes nothing.
    pub fn task_ended(&mut self, end: TaskEnd)
        ensures
            end != TaskEnd::Panicked ==> *final(self) == *old(self),
            end == TaskEnd::Panicked ==> {
                &&& final(self).events@ == ring_after(
                    old(self).events@,
                    FfiSlipstreamEvent { tag: 4, value: 2 },
                )
                &&& *final(self) == (SlipstreamHandle {
                    state: SyncState::Error(2),
                    events: final(self).events,
                    ..*old(self)
                })
            },
    {
        match end {
            TaskEnd::Panicked => {
                self.state = SyncState::Error(2);
                push_event_bounded(&mut self.events, FfiSlipstreamEvent { tag: 4, value: 2 });
            },
            _ => {},
        }
    }
}

/// The state's number in a snapshot.
pub open spec fn state_code(state: SyncState) -> u8 {
    match state {
        SyncState::Idle => 0,
        SyncState::Syncing => 1,
        SyncState::Error(_) => 2,
        SyncState::Done => 3,
    }
}

/// The pass's progress in permille, as far as 64 bits hold a thousandfold of the
/// scanned blocks; zero where the pass has no blocks.
pub open spec fn raw_permille(p: Progress) -> u64 {
    if p.pass_total_blocks == 0 {
        0
    } else if p.scanned_blocks * 1000 > u64::MAX {
        u64::MAX / p.pass_total_blocks
    } else {
        ((p.scanned_blocks * 1000) as u64) / p.pass_total_blocks
    }
}

/// What a snapshot reports: the end where the pass is done, else the pass's progress.
pub open spec fn reported_raw(p: Progress, state: SyncState) -> u64 {
    if state == SyncState::Done {
        1000
    } else {
        raw_permille(p)
    }
}

/// The counters after a snapshot: the floor has risen to what was reported.
pub open spec fn reported(p: Progress, state: SyncState) -> Progress {
    Progress { progress_permille_floor: p.floor_after(reported_raw(p, state)), ..p }
}

/// The seconds without progress, at the second `now`.
pub open spec fn stalled_at(p: Progress, state: SyncState, now: u64) -> u32 {
    if state != SyncState::Syncing || p.last_progress_unix == 0 || now <= p.last_progress_unix {
        0
    } else if now - p.last_progress_unix > u32::MAX {
        u32::MAX
    } else {
        (now - p.last_progress_unix) as u32
    }
}

/// The snapshot of counters and state.
pub open spec fn snapshot_spec(
    p: Progress,
    state: SyncState,
    stalled_seconds: u32,
) -> FfiSlipstreamSnapshot {
    FfiSlipstreamSnapshot {
        chain_tip: p.chain_tip,
        fetched_blocks: p.fetched_blocks,
        scanned_blocks: p.scanned_blocks,
        enhanced_txs: p.enhanced_txs,
        current_range_end: p.current_range_end,
        state: state_code(state),
        pass_total_blocks: p.pass_total_blocks,
        spendable_hint: p.spendable_hint as u8,
        ranges_completed: p.ranges_completed,
        is_recovering: match state {
            SyncState::Done | SyncState::Error(_) => 0,
            _ => if p.recovering != 0 {
                1
            } else {
                0
            },
        },
        progress_permille: p.floor_after(reported_raw(p, state)) as u16,
        stalled_seconds,
        tx_set_version: p.tx_set_version,
    }
}

/// The snapshot of counters and state at the second `now`. The progress floor rises to
/// what is reported.
pub fn derive_snapshot_at(p: &mut Progress, state: SyncState, now: u64) -> (r:
    FfiSlipstreamSnapshot)
    ensures
        r == snapshot_spec(*old(p), state, stalled_at(*old(p), state, now)),
        *final(p) == reported(*old(p), state),
{
    let code: u8 = match state {
        SyncState::Idle => 0,
        SyncState::Syncing => 1,
        SyncState::Error(_) => 2,
        SyncState::Done => 3,
    };
    let total: u64 = p.pass_total();
    let raw: u64 = if total == 0 {
        0
    } else {
        match p.scanned().checked_mul(1000) {
            Some(thousandfold) => thousandfold / total,
            None => u64::MAX / total,
        }
    };
    let floor: u64 = match state {
        SyncState::Done => p.permille_floor(1000),
        _ => p.permille_floor(raw),
    };
    let is_recovering: u8 = match state {
        SyncState::Done => 0,
        SyncState::Error(_) => 0,
        _ => if p.recovering() {
            1
        } else {
            0
        },
    };
    let last: u64 = p.last_progress_unix_secs();
    let stalled_seconds: u32 = match state {
        SyncState::Syncing => {
            if last == 0 || now <= last {
                0
            } else if now - last > u32::MAX as u64 {
                u32::MAX
            } else {
                (now - last) as u32
            }
        },
        _ => 0,
    };
    FfiSlipstreamSnapshot {
        chain_tip: p.chain_tip(),
        fetched_blocks: p.fetched(),
        scanned_blocks: p.scanned(),
        enhanced_txs: p.enhanced(),
        current_range_end: p.range_end(),
        state: code,
        pass_total_blocks: p.pass_total(),
        spendable_hint: p.spendable() as u8,
        ranges_completed: p.ranges_completed(),
        is_recovering,
        progress_permille: floor as u16,
        stalled_seconds,
        tx_set_version: p.tx_set_version(),
    }
}

/// The snapshot of counters and state at this moment: [`derive_snapshot_at`] with the
/// clock's reading, which only the seconds without progress depend on.
pub fn derive_snapshot(p: &mut Progress, state: SyncState) -> (r: FfiSlipstreamSnapshot)
    ensures
        r == snapshot_spec(*old(p), state, r.stalled_seconds),
        state != SyncState::Syncing || old(p).last_progress_unix == 0 ==> r.stalled_seconds == 0,
        *final(p) == reported(*old(p), state),
{
    let now: u64 = now_secs();
    derive_snapshot_at(p, state, now)
}

/// A terminal state releases the recovery gate and stops the stall clock, and a pass
/// that is done reports 1000 permille, whatever the counters say.
pub proof fn law_terminal_states_latch(p: Progress, state: SyncState, now: u64)
    requires
        p.progress_permille_floor <= 1000,
    ensures
        ({
            let s = snapshot_spec(p, state, stalled_at(p, state, now));
            &&& state is Done || state is Error ==> s.is_recovering == 0 && s.stalled_seconds == 0
            &&& state is Done ==> s.progress_permille == 1000
            &&& s.progress_permille <= 1000
        }),
{
}

/// What snapshots report never falls within a session: neither what comes between two of
/// them nor a new pass lowers it, as long as the floor is not lowered.
pub proof fn law_snapshots_never_regress(
    p: Progress,
    first: SyncState,
    q: Progress,
    second: SyncState,
)
    requires
        p.progress_permille_floor <= 1000,
        q.progress_permille_floor == reported(p, first).progress_permille_floor,
    ensures
        snapshot_spec(p, first, 0).progress_permille <= snapshot_spec(
            q,
            second,
            0,
        ).progress_permille <= 1000,
{
}

/// A snapshot shows each counter under its own name, whatever the others are: the chain tip
/// that was set last, the blocks fetched and scanned, the transactions enhanced, the end of
/// the current range, the blocks of the pass, the ranges completed, whether funds are
/// spendable, and the version of the transaction set.
pub proof fn law_snapshot_shows_each_counter(p: Progress, state: SyncState, stalled: u32)
    ensures
        snapshot_spec(p, state, stalled).chain_tip == p.chain_tip,
        snapshot_spec(p, state, stalled).fetched_blocks == p.fetched_blocks,
        snapshot_spec(p, state, stalled).scanned_blocks == p.scanned_blocks,
        snapshot_spec(p, state, stalled).enhanced_txs == p.enhanced_txs,
        snapshot_spec(p, state, stalled).current_range_end == p.current_range_end,
        snapshot_spec(p, state, stalled).pass_total_blocks == p.pass_total_blocks,
        snapshot_spec(p, state, stalled).ranges_completed == p.ranges_completed,
        snapshot_spec(p, state, stalled).tx_set_version == p.tx_set_version,
        snapshot_spec(p, state, stalled).stalled_seconds == stalled,
        p.spendable_hint <= 1 ==> snapshot_spec(p, state, stalled).spendable_hint
            == p.spendable_hint,
{
}

/// A snapshot changes none of the counters that it shows, but for the floor of what was
/// reported, which is what it reports.
pub proof fn law_snapshot_keeps_the_counters(p: Progress, state: SyncState, stalled: u32)
    requires
        p.progress_permille_floor <= 1000,
    ensures
        reported(p, state) == (Progress {
            progress_permille_floor: reported(p, state).progress_permille_floor,
            ..p
        }),
        reported(p, state).progress_permille_floor == snapshot_spec(
            p,
            state,
            stalled,
        ).progress_permille,
{
}

/// The state is shown as 0 while idle, 1 while syncing, 2 after an error and 3 once done, and
/// a recovery is shown as long as the pass is neither done nor failed.
pub proof fn law_snapshot_shows_the_state(p: Progress, state: SyncState, stalled: u32)
    ensures
        ({
            let s = snapshot_spec(p, state, stalled);
            &&& s.state == 0 <==> state is Idle
            &&& s.state == 1 <==> state is Syncing
            &&& s.state == 2 <==> state is Error
            &&& s.state == 3 <==> state is Done
            &&& s.is_recovering == 1 <==> p.recovering != 0 && (state is Idle || state is Syncing)
            &&& s.is_recovering == 0 || s.is_recovering == 1
        }),
{
}

/// What a pass that is not done reports is at least the scanned part of its blocks in
/// permille, rounded down, and no more than that unless more was reported before: scanned
/// blocks move it, and a pass without blocks does not. A report of the whole takes as many
/// scanned blocks as the pass has.
pub proof fn law_reported_permille_is_the_scanned_part(
    p: Progress,
    state: SyncState,
    stalled: u32,
    permille: int,
)
    requires
        p.progress_permille_floor <= 1000,
        state !is Done,
        0 <= permille <= 1000,
    ensures
        p.pass_total_blocks > 0 && permille * p.pass_total_blocks <= p.scanned_blocks * 1000
            && permille * p.pass_total_blocks <= u64::MAX ==> snapshot_spec(
            p,
            state,
            stalled,
        ).progress_permille >= permille,
        p.pass_total_blocks > 0 && (permille * p.pass_total_blocks > p.scanned_blocks * 1000
            || permille * p.pass_total_blocks > u64::MAX) && p.progress_permille_floor < permille ==> snapshot_spec(
            p,
            state,
            stalled,
        ).progress_permille < permille,
        p.pass_total_blocks == 0 ==> snapshot_spec(p, state, stalled).progress_permille
            == p.progress_permille_floor,
{
    if p.pass_total_blocks > 0 {
        let n = if p.scanned_blocks * 1000 > u64::MAX {
            u64::MAX as int
        } else {
            p.scanned_blocks * 1000
        };
        let t = p.pass_total_blocks as int;
        let q = n / t;
        assert(raw_permille(p) == q);
        assert(q * t <= n < (q + 1) * t) by (nonlinear_arith)
            requires
                q == n / t,
                t > 0,
                n >= 0,
        ;
        if permille * t <= n && q < permille {
            assert((q + 1) * t <= permille * t) by (nonlinear_arith)
                requires
                    q + 1 <= permille,
                    t > 0,
            ;
        }
        if permille * t > n && q >= permille {
            assert(permille * t <= q * t) by (nonlinear_arith)
                requires
                    permille <= q,
                    t > 0,
            ;
        }
    }
}

/// While a pass is syncing, the stalled seconds are those from its last progress to now, as
/// far as the number holds them; they are none before any progress, while the clock is not
/// past it, and in every other state.
pub proof fn law_stall_counts_from_the_last_progress(p: Progress, state: SyncState, now: u64)
    ensures
        state is Syncing && 0 < p.last_progress_unix <= now && now - p.last_progress_unix
            <= u32::MAX ==> p.last_progress_unix + stalled_at(p, state, now) == now,
        state is Syncing && p.last_progress_unix > 0 && now > p.last_progress_unix + u32::MAX
            ==> stalled_at(p, state, now) == u32::MAX,
        state !is Syncing || p.last_progress_unix == 0 || now <= p.last_progress_unix
            ==> stalled_at(p, state, now) == 0,
{
}

/// Only events that a sync started and that it progresses may be lost, tags 1 and 2, and a
/// ring of fewer than 64 events loses none. A full ring loses the oldest of those, or, where
/// it holds none, its oldest event.
pub proof fn law_ring_loses_the_oldest_pacing_event(
    ring: Seq<FfiSlipstreamEvent>,
    e: FfiSlipstreamEvent,
    k: int,
)
    requires
        0 <= k < ring.len(),
    ensures
        droppable(ring[k]) <==> ring[k].tag == 1 || ring[k].tag == 2,
        ring.len() < 64 ==> ring_after(ring, e) == ring.push(e),
        ring.len() >= 64 && (ring[k].tag == 1 || ring[k].tag == 2) && (forall|j: int|
            0 <= j < k ==> (#[trigger] ring[j]).tag != 1 && ring[j].tag != 2) ==> ring_after(
            ring,
            e,
        ) == ring.take(k) + ring.skip(k + 1) + seq![e],
        ring.len() >= 64 && (forall|j: int|
            0 <= j < ring.len() ==> (#[trigger] ring[j]).tag != 1 && ring[j].tag != 2)
            ==> ring_after(ring, e) == ring.skip(1) + seq![e],
{
    lemma_oldest_droppable(ring, 0);
    if ring.len() >= 64 {
        let at = evicted(ring);
        assert(ring_after(ring, e) =~= ring.take(at) + ring.skip(at + 1) + seq![e]);
        if forall|j: int| 0 <= j < ring.len() ==> (#[trigger] ring[j]).tag != 1 && ring[j].tag != 2 {
            assert(oldest_droppable(ring, 0) is None) by {
                if oldest_droppable(ring, 0) is Some {
                    assert(droppable(ring[at]));
                }
            }
            assert(ring.take(0) + ring.skip(1) =~= ring.skip(1));
        }
        if (ring[k].tag == 1 || ring[k].tag == 2) && (forall|j: int|
            0 <= j < k ==> (#[trigger] ring[j]).tag != 1 && ring[j].tag != 2) {
            assert(droppable(ring[k]));
            assert(at == k) by {
                if at < k {
                    assert(droppable(ring[at]));
                }
            }
        }
    }
}

} // verus!
