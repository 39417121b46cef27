//! One sync pass: what it checks before it starts, the order of its steps, and the
//! failover between endpoints while it runs.
pub use crate::calendar::{format_utc, wall_clock_utc};
use crate::config::{config_fault, Endpoint, EngineConfig};
use crate::enhance::{EnhanceStats, SPAN_MAX_NANOS};
use crate::error::SlipstreamError;
use crate::events::Progress;
use vstd::prelude::*;

verus! {

/// The engine's build, logged at the start of every pass.
pub const ENGINE_BUILD: &'static str = "2026-08-02.v0.8-ironwood-migration";

/// Endpoint switches of a pass after which the pass goes on with what it has: to
/// complete counts more than to be fast.
pub const MAX_WIRE_SWITCHES: u32 = 2;

/// What the scan of a pass did. Time spans are in nanoseconds.
#[derive(Debug, Clone, Copy, PartialEq, Eq, Structural)]
pub struct SyncReport {
    /// Scan ranges processed.
    pub ranges_processed: u64,
    /// Blocks fetched, and their bytes.
    pub fetched_blocks: u64,
    pub fetched_bytes: u64,
    /// Blocks scanned, and the notes found in them.
    pub scanned_blocks: u64,
    pub sapling_received: u64,
    pub orchard_received: u64,
    /// Reorgs recovered from.
    pub reorgs_recovered: u64,
    pub fetch_elapsed: u128,
    pub scan_elapsed: u128,
    /// Enhancement between and within the ranges.
    pub enhance: EnhanceStats,
    pub enhance_elapsed: u128,
    pub persist_wait_elapsed: u128,
    pub persist_busy_elapsed: u128,
}

impl Default for SyncReport {
    fn default() -> (r: SyncReport)
        ensures
            r.ranges_processed == 0,
            r.fetched_blocks == 0,
            r.fetched_bytes == 0,
            r.scanned_blocks == 0,
            r.sapling_received == 0,
            r.orchard_received == 0,
            r.reorgs_recovered == 0,
            r.fetch_elapsed == 0,
            r.scan_elapsed == 0,
            r.enhance == (EnhanceStats {
                requests: 0,
                txs_stored: 0,
                statuses_set: 0,
                skipped: 0,
                fetch_wait: 0,
                store: 0,
                address: 0,
            }),
            r.enhance_elapsed == 0,
            r.persist_wait_elapsed == 0,
            r.persist_busy_elapsed == 0,
    {
        SyncReport {
            ranges_processed: 0,
            fetched_blocks: 0,
            fetched_bytes: 0,
            scanned_blocks: 0,
            sapling_received: 0,
            orchard_received: 0,
            reorgs_recovered: 0,
            fetch_elapsed: 0,
            scan_elapsed: 0,
            enhance: EnhanceStats::default(),
            enhance_elapsed: 0,
            persist_wait_elapsed: 0,
            persist_busy_elapsed: 0,
        }
    }
}

/// What the refresh of the transparent outputs found.
#[derive(Debug, Clone, Copy, PartialEq, Eq, Structural)]
pub struct TransparentStats {
    pub utxos: u64,
    pub accounts: u64,
}

/// What a pass did. Time spans are in nanoseconds.
#[derive(Debug, Clone, Copy, PartialEq, Eq, Structural)]
pub struct SyncOutcome {
    pub report: SyncReport,
    /// All enhancement of the pass.
    pub enhance: EnhanceStats,
    pub transparent: TransparentStats,
    pub enhance_elapsed: u128,
    pub elapsed: u128,
    pub chain_tip: u64,
    /// What the race of the endpoints took, zero where none was run.
    pub wire_probe: u64,
    /// Endpoint switches in the middle of the pass.
    pub wire_switches: u32,
}

/// The stage that took the most time; none where every stage took less than a second.
/// Of stages that took equally long, the earlier one.
pub open spec fn longest_stage(fetch: u128, scan: u128, enhance: u128) -> Seq<char> {
    if fetch < 1_000_000_000 && scan < 1_000_000_000 && enhance < 1_000_000_000 {
        "idle"@
    } else if fetch >= scan && fetch >= enhance {
        "fetch"@
    } else if scan >= enhance {
        "scan"@
    } else {
        "enhance"@
    }
}

impl SyncOutcome {
    /// The name of the stage that took the most time: `fetch`, `scan`, `enhance`, or
    /// `idle` where every stage took less than a second.
    pub fn bound(&self) -> (r: &'static str)
        ensures
            r@ == longest_stage(
                self.report.fetch_elapsed,
                self.report.scan_elapsed,
                self.enhance_elapsed,
            ),
    {
        let fetch: u128 = self.report.fetch_elapsed;
        let scan: u128 = self.report.scan_elapsed;
        let enhance: u128 = self.enhance_elapsed;
        if fetch < 1_000_000_000 && scan < 1_000_000_000 && enhance < 1_000_000_000 {
            return "idle";
        }
        if fetch >= scan && fetch >= enhance {
            "fetch"
        } else if scan >= enhance {
            "scan"
        } else {
            "enhance"
        }
    }
}

/// Whether an observed tip justifies another pass: only a higher one does. A lower one
/// is the lag of a server.
pub fn should_resync(last_synced_tip: u64, observed_tip: u64) -> (r: bool)
    ensures
        r == (observed_tip > last_synced_tip),
{
    observed_tip > last_synced_tip
}

/// Whether an endpoint is among others.
pub open spec fn among(e: Endpoint, others: Seq<Endpoint>) -> bool {
    exists|i: int| 0 <= i < others.len() && #[trigger] others[i].same(e)
}

/// The endpoints that are not among `cooled`, in their order.
pub open spec fn not_cooled(all: Seq<Endpoint>, cooled: Seq<Endpoint>) -> Seq<Endpoint> {
    all.filter(|e: Endpoint| !among(e, cooled))
}

/// The endpoints that a failover chooses among: those that have not collapsed in this
/// pass, or, where all have, all but the one that collapsed last.
pub open spec fn failover_candidates(
    all: Seq<Endpoint>,
    cooled: Seq<Endpoint>,
    current: Endpoint,
) -> Seq<Endpoint> {
    if not_cooled(all, cooled.push(current)).len() > 0 {
        not_cooled(all, cooled.push(current))
    } else {
        not_cooled(all, seq![current])
    }
}

/// The endpoints that have collapsed once `current` has: where that leaves none to choose,
/// all are forgiven.
pub open spec fn cooled_after(
    all: Seq<Endpoint>,
    cooled: Seq<Endpoint>,
    current: Endpoint,
) -> Seq<Endpoint> {
    if not_cooled(all, cooled.push(current)).len() > 0 {
        cooled.push(current)
    } else {
        Seq::empty()
    }
}

fn is_among(e: &Endpoint, others: &Vec<Endpoint>) -> (b: bool)
    ensures
        b == among(*e, others@),
{
    let mut i: usize = 0;
    while i < others.len()
        invariant
            0 <= i <= others@.len(),
            forall|j: int| 0 <= j < i ==> !(#[trigger] others@[j].same(*e)),
        decreases others@.len() - i,
    {
        if others[i].is_same(e) {
            return true;
        }
        i = i + 1;
    }
    false
}

fn keep_uncooled(all: &Vec<Endpoint>, cooled: &Vec<Endpoint>) -> (r: Vec<Endpoint>)
    ensures
        r@ == not_cooled(all@, cooled@),
{
    let ghost keep = |e: Endpoint| !among(e, cooled@);
    let mut out: Vec<Endpoint> = Vec::new();
    let mut i: usize = 0;
    proof {
        reveal(Seq::filter);
        assert(all@.take(0).filter(keep) =~= Seq::<Endpoint>::empty());
    }
    while i < all.len()
        invariant
            0 <= i <= all@.len(),
            keep == (|e: Endpoint| !among(e, cooled@)),
            out@ == all@.take(i as int).filter(keep),
        decreases all@.len() - i,
    {
        proof {
            reveal(Seq::filter);
            assert(all@.take(i + 1).drop_last() =~= all@.take(i as int));
            assert(all@.take(i + 1).last() == all@[i as int]);
        }
        if !is_among(&all[i], cooled) {
            out.push(all[i].duplicate());
        }
        i = i + 1;
    }
    assert(all@.take(all@.len() as int) =~= all@);
    out
}

/// The failover of one pass.
#[derive(Debug)]
pub struct Failover {
    /// The endpoints of the pass: the one it started with, then the alternates.
    pub all: Vec<Endpoint>,
    /// The endpoint in use.
    pub current: Endpoint,
    /// Whether the detector of wire collapses is armed.
    pub armed: bool,
    /// Switches so far.
    pub switches: u32,
    /// Endpoints that collapsed.
    pub cooled: Vec<Endpoint>,
}

impl Failover {
    /// The failover once it is committed to an endpoint: once the switches of a pass are
    /// spent, the detector is disarmed.
    pub open spec fn committed(self, next: Endpoint) -> Failover {
        Failover {
            current: next,
            armed: self.armed && self.switches < MAX_WIRE_SWITCHES,
            ..self
        }
    }

    /// The failover at the start of a pass with this configuration. Without alternates it
    /// is never armed, for there is nothing to switch to, nor over Tor: a race dials directly
    /// and would bypass the circuit.
    pub fn new(config: &EngineConfig, via_tor: bool) -> (r: Failover)
        ensures
            r.all@ == config.candidates(),
            r.current == config.endpoint,
            r.armed == (config.wire_failover && config.alternate_endpoints@.len() > 0 && !via_tor),
            r.switches == 0,
            r.cooled@.len() == 0,
    {
        Failover {
            all: config.all_endpoints(),
            current: config.endpoint.duplicate(),
            armed: config.wire_failover && config.alternate_endpoints.len() > 0 && !via_tor,
            switches: 0,
            cooled: Vec::new(),
        }
    }

    /// Takes note of a wire collapse, and hands out the endpoints to choose among.
    pub fn collapsed(&mut self) -> (r: Vec<Endpoint>)
        requires
            old(self).switches < u32::MAX,
        ensures
            r@ == failover_candidates(old(self).all@, old(self).cooled@, old(self).current),
            final(self).all == old(self).all,
            final(self).current == old(self).current,
            final(self).armed == old(self).armed,
            final(self).switches == old(self).switches + 1,
            final(self).cooled@ == cooled_after(
                old(self).all@,
                old(self).cooled@,
                old(self).current,
            ),
    {
        self.switches = self.switches + 1;
        self.cooled.push(self.current.duplicate());
        let candidates: Vec<Endpoint> = keep_uncooled(&self.all, &self.cooled);
        if candidates.len() > 0 {
            return candidates;
        }
        self.cooled = Vec::new();
        let mut last: Vec<Endpoint> = Vec::new();
        last.push(self.current.duplicate());
        assert(last@ =~= seq![self.current]);
        keep_uncooled(&self.all, &last)
    }

    /// Commits to an endpoint. Once the switches of a pass are spent, the detector is
    /// disarmed.
    pub fn commit(&mut self, next: Endpoint)
        ensures
            *final(self) == old(self).committed(next),
    {
        self.current = next;
        if self.switches >= MAX_WIRE_SWITCHES {
            self.armed = false;
        }
    }
}

/// A failover never goes back to the endpoint that just collapsed.
pub proof fn law_failover_leaves_the_collapsed(
    all: Seq<Endpoint>,
    cooled: Seq<Endpoint>,
    current: Endpoint,
    i: int,
)
    requires
        0 <= i < failover_candidates(all, cooled, current).len(),
    ensures
        !failover_candidates(all, cooled, current)[i].same(current),
        all.contains(failover_candidates(all, cooled, current)[i]),
{
    let c = failover_candidates(all, cooled, current);
    let with = cooled.push(current);
    if not_cooled(all, with).len() > 0 {
        let keep = |e: Endpoint| !among(e, with);
        lemma_filter(all, keep, i);
        if c[i].same(current) {
            assert(with[cooled.len() as int].same(c[i]));
        }
    } else {
        let keep = |e: Endpoint| !among(e, seq![current]);
        lemma_filter(all, keep, i);
        if c[i].same(current) {
            assert(seq![current][0].same(c[i]));
        }
    }
}

proof fn lemma_filter(s: Seq<Endpoint>, keep: spec_fn(Endpoint) -> bool, i: int)
    requires
        0 <= i < s.filter(keep).len(),
    ensures
        keep(s.filter(keep)[i]),
        s.contains(s.filter(keep)[i]),
    decreases s.len(),
{
    reveal(Seq::filter);
    if s.len() > 0 {
        let t = s.drop_last();
        if i < t.filter(keep).len() {
            lemma_filter(t, keep, i);
            let k = choose|k: int| 0 <= k < t.len() && t[k] == t.filter(keep)[i];
            assert(s[k] == s.filter(keep)[i]);
        } else {
            assert(s[s.len() - 1] == s.filter(keep)[i]);
        }
    }
}

proof fn lemma_filter_nonempty(s: Seq<Endpoint>, keep: spec_fn(Endpoint) -> bool, k: int)
    requires
        0 <= k < s.len(),
        keep(s[k]),
    ensures
        s.filter(keep).len() > 0,
    decreases s.len(),
{
    reveal(Seq::filter);
    if k < s.len() - 1 {
        lemma_filter_nonempty(s.drop_last(), keep, k);
    }
}

/// As long as the pass has another endpoint than the one that collapsed, there is one to
/// choose.
pub proof fn law_failover_finds_another(
    all: Seq<Endpoint>,
    cooled: Seq<Endpoint>,
    current: Endpoint,
    k: int,
)
    requires
        0 <= k < all.len(),
        !all[k].same(current),
    ensures
        failover_candidates(all, cooled, current).len() > 0,
{
    if not_cooled(all, cooled.push(current)).len() == 0 {
        let keep = |e: Endpoint| !among(e, seq![current]);
        lemma_filter_nonempty(all, keep, k);
    }
}

/// Where a pass stands.
#[derive(Debug, Clone, Copy, PartialEq, Eq, Structural)]
pub enum PassStage {
    /// Ask the wallet whether it tracks the account.
    CheckAccount(usize),
    /// Fetch the tree state before the account's birthday.
    FetchTree(usize),
    /// Import the account with that tree state.
    ImportAccount(usize),
    /// Fetch the subtree roots.
    FetchRoots,
    /// Store them.
    StoreRoots,
    /// Fetch the chain tip.
    FetchTip,
    /// Store it.
    StoreTip(u64),
    /// Refresh the transparent outputs.
    RefreshUtxos,
    /// Scan to completion with the endpoint in use.
    Scan,
    /// Race the candidates of a failover.
    Race,
    /// Run the last enhancement.
    Enhance,
    /// Nothing is left.
    Finished,
}

/// What came of a stage.
#[derive(Debug)]
pub enum PassEvent {
    /// It failed.
    Failed(SlipstreamError),
    /// It succeeded, with nothing to hand on.
    Done,
    /// Whether the wallet tracks the account.
    Known(bool),
    /// The server's chain tip.
    Tip(u64),
    /// What the refresh found.
    Utxos(TransparentStats),
    /// What the scan did.
    Scanned(SyncReport),
    /// The winner of a race.
    Raced(usize),
    /// What the last enhancement did, and how long it took.
    Enhanced(EnhanceStats, u128),
}

/// The stage that comes after an account is dealt with.
pub open spec fn after_account(account: usize, accounts: nat) -> PassStage {
    if account + 1 < accounts {
        PassStage::CheckAccount((account + 1) as usize)
    } else {
        PassStage::FetchRoots
    }
}

/// Whether an event can come of a stage.
pub open spec fn possible(stage: PassStage, event: PassEvent) -> bool {
    match event {
        PassEvent::Failed(_) => true,
        PassEvent::Done => match stage {
            PassStage::FetchTree(_)
            | PassStage::ImportAccount(_)
            | PassStage::FetchRoots
            | PassStage::StoreRoots
            | PassStage::StoreTip(_) => true,
            _ => false,
        },
        PassEvent::Known(_) => stage is CheckAccount,
        PassEvent::Tip(_) => stage is FetchTip,
        PassEvent::Utxos(_) => stage is RefreshUtxos,
        PassEvent::Scanned(_) => stage is Scan,
        PassEvent::Raced(_) => stage is Race,
        PassEvent::Enhanced(_, _) => stage is Enhance,
    }
}

/// The stage that follows a success.
pub open spec fn next_stage(stage: PassStage, event: PassEvent, accounts: nat) -> PassStage {
    match stage {
        PassStage::CheckAccount(i) => if event == PassEvent::Known(true) {
            after_account(i, accounts)
        } else {
            PassStage::FetchTree(i)
        },
        PassStage::FetchTree(i) => PassStage::ImportAccount(i),
        PassStage::ImportAccount(i) => after_account(i, accounts),
        PassStage::FetchRoots => PassStage::StoreRoots,
        PassStage::StoreRoots => PassStage::FetchTip,
        PassStage::FetchTip => match event {
            PassEvent::Tip(tip) => PassStage::StoreTip(tip),
            _ => stage,
        },
        PassStage::StoreTip(_) => PassStage::RefreshUtxos,
        PassStage::RefreshUtxos => PassStage::Scan,
        PassStage::Scan => PassStage::Enhance,
        PassStage::Race => PassStage::Scan,
        PassStage::Enhance => PassStage::Finished,
        PassStage::Finished => PassStage::Finished,
    }
}

/// Whether the success of a stage is an answer of the server, which counts as progress.
pub open spec fn is_answer(stage: PassStage) -> bool {
    match stage {
        PassStage::FetchTree(_)
        | PassStage::FetchRoots
        | PassStage::FetchTip
        | PassStage::RefreshUtxos => true,
        _ => false,
    }
}

/// What a pass checks before it does anything: the configuration, and that no account
/// has the birthday zero, before which there is no block. Then the pass begins, at the second
/// `now`.
pub fn preflight(
    config: &EngineConfig,
    birthdays: &Vec<u32>,
    progress: &mut Progress,
    now: u64,
) -> (r: Result<(), SlipstreamError>)
    ensures
        match config_fault(*config) {
            Some(fault) => (r matches Err(SlipstreamError::Config(m)) && m@ == fault)
                && *final(progress) == *old(progress),
            None => if birthdays@.contains(0) {
                (r matches Err(SlipstreamError::Config(m)) && m@
                    == "birthday must be >= 1 (height 0 is not a valid wallet birthday)"@)
                    && *final(progress) == *old(progress)
            } else {
                r is Ok && *final(progress) == old(progress).pass_begun().stamped(now)
            },
        },
{
    match config.validate() {
        Ok(_) => {},
        Err(e) => {
            return Err(e);
        },
    }
    let mut i: usize = 0;
    while i < birthdays.len()
        invariant
            0 <= i <= birthdays@.len(),
            forall|j: int| 0 <= j < i ==> birthdays@[j] != 0,
            *progress == *old(progress),
            config_fault(*config) is None,
        decreases birthdays@.len() - i,
    {
        if birthdays[i] == 0 {
            assert(birthdays@.contains(0));
            return Err(
                SlipstreamError::Config(
                    "birthday must be >= 1 (height 0 is not a valid wallet birthday)".to_owned(),
                ),
            );
        }
        i = i + 1;
    }
    assert(!birthdays@.contains(0));
    progress.begin_pass_at(now);
    Ok(())
}

/// One sync pass, between its preflight and its outcome.
#[derive(Debug)]
pub struct SyncPass {
    /// The birthdays of the accounts to bootstrap.
    pub birthdays: Vec<u32>,
    pub stage: PassStage,
    /// What the race at the start took.
    pub wire_probe: u64,
    pub chain_tip: u64,
    pub transparent: TransparentStats,
    pub failover: Failover,
    /// The endpoints that a race is run among.
    pub candidates: Vec<Endpoint>,
    pub report: SyncReport,
    /// What the last enhancement took.
    pub enhance_elapsed: u128,
}

impl SyncPass {
    /// What holds of a pass at every stage.
    pub open spec fn wf(self) -> bool {
        &&& !self.birthdays@.contains(0)
        &&& match self.stage {
            PassStage::CheckAccount(i) | PassStage::FetchTree(i) | PassStage::ImportAccount(i) => i
                < self.birthdays@.len(),
            _ => true,
        }
    }

    /// Whether the pass has not switched more often than it may, and its detector, which
    /// alone reports a collapse, is armed only while it may switch once more.
    pub open spec fn within_budget(self) -> bool {
        &&& self.failover.switches <= MAX_WIRE_SWITCHES
        &&& self.failover.armed && !(self.stage is Race) ==> self.failover.switches
            < MAX_WIRE_SWITCHES
    }

    /// A pass with its endpoint chosen.
    pub fn new(
        config: &EngineConfig,
        birthdays: Vec<u32>,
        via_tor: bool,
        wire_probe: u64,
    ) -> (r: SyncPass)
        requires
            !birthdays@.contains(0),
        ensures
            r.wf(),
            r.birthdays == birthdays,
            r.stage == if birthdays@.len() > 0 {
                PassStage::CheckAccount(0)
            } else {
                PassStage::FetchRoots
            },
            r.wire_probe == wire_probe,
            r.failover.all@ == config.candidates(),
            r.failover.current == config.endpoint,
            r.failover.armed == (config.wire_failover && config.alternate_endpoints@.len() > 0
                && !via_tor),
            r.failover.switches == 0,
            r.failover.cooled@.len() == 0,
            r.within_budget(),
            r.chain_tip == 0,
            r.transparent == (TransparentStats { utxos: 0, accounts: 0 }),
            r.candidates@.len() == 0,
            r.report.enhance_elapsed == 0,
            r.enhance_elapsed == 0,
    {
        let stage: PassStage = if birthdays.len() > 0 {
            PassStage::CheckAccount(0)
        } else {
            PassStage::FetchRoots
        };
        SyncPass {
            birthdays,
            stage,
            wire_probe,
            chain_tip: 0,
            transparent: TransparentStats { utxos: 0, accounts: 0 },
            failover: Failover::new(config, via_tor),
            candidates: Vec::new(),
            report: SyncReport::default(),
            enhance_elapsed: 0,
        }
    }

    /// The height of the tree state that an account is imported with: that of the block
    /// before its birthday.
    pub fn tree_height(&self, account: usize) -> (r: u64)
        requires
            self.wf(),
            account < self.birthdays@.len(),
        ensures
            r == self.birthdays@[account as int] - 1,
    {
        assert(self.birthdays@[account as int] != 0) by {
            if self.birthdays@[account as int] == 0 {
                assert(self.birthdays@.contains(0));
            }
        }
        self.birthdays[account] as u64 - 1
    }

    /// The stage that follows the account's.
    fn next_account(&self, account: usize) -> (r: PassStage)
        requires
            account < self.birthdays@.len(),
        ensures
            r == after_account(account, self.birthdays@.len()),
    {
        if account < self.birthdays.len() - 1 {
            PassStage::CheckAccount(account + 1)
        } else {
            PassStage::FetchRoots
        }
    }

    /// What a wire collapse makes of a pass: with one endpoint to choose it goes on
    /// scanning there, else the endpoints race.
    pub open spec fn collapse(self, after: SyncPass) -> bool {
        let c = failover_candidates(self.failover.all@, self.failover.cooled@, self.failover.current);
        &&& after.birthdays == self.birthdays
        &&& after.wire_probe == self.wire_probe
        &&& after.chain_tip == self.chain_tip
        &&& after.transparent == self.transparent
        &&& after.report == self.report
        &&& after.enhance_elapsed == self.enhance_elapsed
        &&& after.failover.all == self.failover.all
        &&& after.failover.switches == self.failover.switches + 1
        &&& after.failover.cooled@ == cooled_after(
            self.failover.all@,
            self.failover.cooled@,
            self.failover.current,
        )
        &&& if c.len() == 1 {
            &&& after.stage == PassStage::Scan
            &&& after.candidates == self.candidates
            &&& after.failover.current == c[0]
            &&& after.failover.armed == (self.failover.armed && after.failover.switches
                < MAX_WIRE_SWITCHES)
        } else {
            &&& after.stage == PassStage::Race
            &&& after.candidates@ == c
            &&& after.failover.current == self.failover.current
            &&& after.failover.armed == self.failover.armed
        }
    }

    /// What a success makes of a pass.
    pub open spec fn advanced(self, event: PassEvent, after: SyncPass) -> bool {
        &&& after.stage == next_stage(self.stage, event, self.birthdays@.len())
        &&& after.birthdays == self.birthdays
        &&& after.wire_probe == self.wire_probe
        &&& after.candidates == self.candidates
        &&& after.chain_tip == match self.stage {
            PassStage::StoreTip(tip) => tip,
            _ => self.chain_tip,
        }
        &&& after.transparent == match event {
            PassEvent::Utxos(t) => t,
            _ => self.transparent,
        }
        &&& after.failover == match event {
            PassEvent::Raced(chosen) => self.failover.committed(self.candidates@[chosen as int]),
            _ => self.failover,
        }
        &&& after.report == match event {
            PassEvent::Scanned(report) => report,
            PassEvent::Enhanced(stats, _) => SyncReport {
                enhance: self.report.enhance.merged(stats),
                ..self.report
            },
            _ => self.report,
        }
        &&& after.enhance_elapsed == match event {
            PassEvent::Enhanced(_, nanos) => (self.report.enhance_elapsed + nanos) as u128,
            _ => self.enhance_elapsed,
        }
    }

    /// Takes note of what came of the stage, and moves on. A failure is the pass's, but for
    /// a wire collapse during the scan, which the failover deals with: the scan resumes from
    /// the wallet. An answer of the server is progress at the second `now`.
    pub fn step(&mut self, event: PassEvent, progress: &mut Progress, now: u64) -> (r: Result<
        (),
        SlipstreamError,
    >)
        requires
            old(self).wf(),
            possible(old(self).stage, event),
            event matches PassEvent::Raced(chosen) ==> chosen < old(self).candidates@.len(),
            event is Failed ==> old(self).failover.switches < u32::MAX,
            event matches PassEvent::Enhanced(stats, nanos) ==> old(
                self,
            ).report.enhance.spans_add_up(stats) && old(self).report.enhance_elapsed + nanos
                <= SPAN_MAX_NANOS,
        ensures
            final(self).wf(),
            match event {
                PassEvent::Failed(e) => if e is WireCollapse && old(self).stage is Scan {
                    r is Ok && old(self).collapse(*final(self)) && *final(progress) == *old(
                        progress,
                    )
                } else {
                    r == Err::<(), SlipstreamError>(e) && *final(self) == *old(self)
                        && *final(progress) == *old(progress)
                },
                _ => {
                    &&& r is Ok
                    &&& old(self).advanced(event, *final(self))
                    &&& *final(progress) == match old(self).stage {
                        PassStage::StoreTip(tip) => (Progress {
                            chain_tip: tip,
                            tip_refreshes: old(progress).tip_refreshes.wrapping_add(1),
                            ..*old(progress)
                        }).stamped(now),
                        _ => if is_answer(old(self).stage) {
                            old(progress).stamped(now)
                        } else {
                            *old(progress)
                        },
                    }
                },
            },
    {
        match event {
            PassEvent::Failed(e) => {
                let in_scan: bool = match self.stage {
                    PassStage::Scan => true,
                    _ => false,
                };
                let collapse: bool = match &e {
                    SlipstreamError::WireCollapse { measured_mbps, floor_mbps } => true,
                    _ => false,
                };
                if !(in_scan && collapse) {
                    return Err(e);
                }
                let candidates: Vec<Endpoint> = self.failover.collapsed();
                if candidates.len() == 1 {
                    self.failover.commit(candidates[0].duplicate());
                } else {
                    self.candidates = candidates;
                    self.stage = PassStage::Race;
                }
            },
            PassEvent::Done => {
                match self.stage {
                    PassStage::FetchTree(i) => {
                        progress.touch_at(now);
                        self.stage = PassStage::ImportAccount(i);
                    },
                    PassStage::ImportAccount(i) => {
                        self.stage = self.next_account(i);
                    },
                    PassStage::FetchRoots => {
                        progress.touch_at(now);
                        self.stage = PassStage::StoreRoots;
                    },
                    PassStage::StoreRoots => {
                        self.stage = PassStage::FetchTip;
                    },
                    PassStage::StoreTip(tip) => {
                        self.chain_tip = tip;
                        progress.set_chain_tip(tip);
                        progress.note_tip_refreshed_at(now);
                        self.stage = PassStage::RefreshUtxos;
                    },
                    _ => {},
                }
            },
            PassEvent::Known(known) => {
                match self.stage {
                    PassStage::CheckAccount(i) => {
                        if known {
                            self.stage = self.next_account(i);
                        } else {
                            self.stage = PassStage::FetchTree(i);
                        }
                    },
                    _ => {},
                }
            },
            PassEvent::Tip(tip) => {
                progress.touch_at(now);
                self.stage = PassStage::StoreTip(tip);
            },
            PassEvent::Utxos(t) => {
                progress.touch_at(now);
                self.transparent = t;
                self.stage = PassStage::Scan;
            },
            PassEvent::Scanned(report) => {
                self.report = report;
                self.stage = PassStage::Enhance;
            },
            PassEvent::Raced(chosen) => {
                let next: Endpoint = self.candidates[chosen].duplicate();
                self.failover.commit(next);
                self.stage = PassStage::Scan;
            },
            PassEvent::Enhanced(stats, nanos) => {
                self.enhance_elapsed = self.report.enhance_elapsed + nanos;
                let mut merged: EnhanceStats = self.report.enhance;
                merged.merge(&stats);
                self.report.enhance = merged;
                self.stage = PassStage::Finished;
            },
        }
        Ok(())
    }

    /// The outcome of a finished pass that took so long.
    pub fn outcome(&self, elapsed: u128) -> (r: SyncOutcome)
        requires
            self.stage is Finished,
        ensures
            r == (SyncOutcome {
                report: self.report,
                enhance: self.report.enhance,
                transparent: self.transparent,
                enhance_elapsed: self.enhance_elapsed,
                elapsed,
                chain_tip: self.chain_tip,
                wire_probe: self.wire_probe,
                wire_switches: self.failover.switches,
            }),
    {
        SyncOutcome {
            report: self.report,
            enhance: self.report.enhance,
            transparent: self.transparent,
            enhance_elapsed: self.enhance_elapsed,
            elapsed,
            chain_tip: self.chain_tip,
            wire_probe: self.wire_probe,
            wire_switches: self.failover.switches,
        }
    }
}

/// How far a stage is from the end: no success leads back, but for a race, which leads
/// back to the scan that it interrupted.
pub open spec fn stages_left(stage: PassStage, accounts: nat) -> nat {
    match stage {
        PassStage::CheckAccount(i) => (9 + 3 * (accounts - i)) as nat,
        PassStage::FetchTree(i) => (8 + 3 * (accounts - i)) as nat,
        PassStage::ImportAccount(i) => (7 + 3 * (accounts - i)) as nat,
        PassStage::FetchRoots => 8,
        PassStage::StoreRoots => 7,
        PassStage::FetchTip => 6,
        PassStage::StoreTip(_) => 5,
        PassStage::RefreshUtxos => 4,
        PassStage::Race => 3,
        PassStage::Scan => 2,
        PassStage::Enhance => 1,
        PassStage::Finished => 0,
    }
}

/// Every success brings a pass closer to its end, and the pass meets its steps in order:
/// the tip is stored before the transparent outputs are refreshed, and those before the
/// scan; an account is imported only with the tree state that was fetched for it.
pub proof fn law_pass_advances(pass: SyncPass, event: PassEvent)
    requires
        pass.wf(),
        possible(pass.stage, event),
        event !is Failed,
    ensures
        ({
            let n = pass.birthdays@.len();
            let next = next_stage(pass.stage, event, n);
            &&& pass.stage is Finished || stages_left(next, n) < stages_left(pass.stage, n)
            &&& next is Scan ==> pass.stage is RefreshUtxos || pass.stage is Race
            &&& next is RefreshUtxos ==> pass.stage is StoreTip
            &&& next matches PassStage::StoreTip(tip) ==> event == PassEvent::Tip(tip)
            &&& next matches PassStage::ImportAccount(i) ==> pass.stage == PassStage::FetchTree(i)
            &&& next matches PassStage::FetchTree(i) ==> pass.stage == PassStage::CheckAccount(i)
                && event == PassEvent::Known(false)
        }),
{
    assert(pass.birthdays.len() == pass.birthdays@.len());
}

/// However sick the endpoints are, a pass switches at most as often as it may and then goes
/// on: a collapse is reported only while the detector is armed, which it is only while the
/// pass may still switch, and nothing arms it again.
pub proof fn law_switches_are_bounded(pass: SyncPass, event: PassEvent, after: SyncPass)
    requires
        pass.within_budget(),
        possible(pass.stage, event),
        match event {
            PassEvent::Failed(e) => e is WireCollapse && pass.stage is Scan && pass.failover.armed
                && pass.collapse(after),
            _ => pass.advanced(event, after),
        },
    ensures
        after.within_budget(),
{
}

/// The stage that took the most time is named: none where no stage took a second, else one
/// that no other stage outlasted, and no earlier one that took as long.
pub proof fn law_bound_is_the_longest_stage(fetch: u128, scan: u128, enhance: u128)
    ensures
        ({
            let r = longest_stage(fetch, scan, enhance);
            let idle = fetch < 1_000_000_000 && scan < 1_000_000_000 && enhance < 1_000_000_000;
            &&& r == "idle"@ <==> idle
            &&& r == "fetch"@ <==> !idle && fetch >= scan && fetch >= enhance
            &&& r == "scan"@ <==> !idle && scan > fetch && scan >= enhance
            &&& r == "enhance"@ <==> !idle && enhance > fetch && enhance > scan
        }),
{
    reveal_strlit("idle");
    reveal_strlit("fetch");
    reveal_strlit("scan");
    reveal_strlit("enhance");
    assert("idle"@.len() == 4 && "fetch"@.len() == 5 && "scan"@.len() == 4 && "enhance"@.len()
        == 7);
    assert("idle"@[0] != "scan"@[0]);
}

/// An endpoint has collapsed where one with the same host, port and TLS is listed, and is
/// offered again where none is.
pub proof fn law_among_compares_endpoints(e: Endpoint, others: Seq<Endpoint>, i: int)
    requires
        0 <= i < others.len(),
    ensures
        others[i].host@ == e.host@ && others[i].port == e.port && others[i].tls == e.tls
            ==> among(e, others),
        among(e, others) ==> exists|j: int|
            0 <= j < others.len() && (#[trigger] others[j]).host@ == e.host@ && others[j].port
                == e.port && others[j].tls == e.tls,
{
    if others[i].host@ == e.host@ && others[i].port == e.port && others[i].tls == e.tls {
        assert(others[i].same(e));
    }
    if among(e, others) {
        let j = choose|j: int| 0 <= j < others.len() && #[trigger] others[j].same(e);
        assert(others[j].host@ == e.host@);
    }
}

proof fn lemma_filter_keeps(s: Seq<Endpoint>, keep: spec_fn(Endpoint) -> bool, k: int)
    requires
        0 <= k < s.len(),
        keep(s[k]),
    ensures
        s.filter(keep).contains(s[k]),
    decreases s.len(),
{
    reveal(Seq::filter);
    let t = s.drop_last();
    if k < t.len() {
        lemma_filter_keeps(t, keep, k);
        let i = choose|i: int| 0 <= i < t.filter(keep).len() && t.filter(keep)[i] == s[k];
        assert(s.filter(keep)[i] == s[k]);
    } else {
        assert(s.filter(keep)[s.filter(keep).len() - 1] == s[k]);
    }
}

proof fn lemma_untried(e: Endpoint, cooled: Seq<Endpoint>, current: Endpoint)
    ensures
        !among(e, cooled.push(current)) <==> {
            &&& !(e.host@ == current.host@ && e.port == current.port && e.tls == current.tls)
            &&& forall|j: int|
                0 <= j < cooled.len() ==> !((#[trigger] cooled[j]).host@ == e.host@
                    && cooled[j].port == e.port && cooled[j].tls == e.tls)
        },
{
    let with = cooled.push(current);
    assert(with[cooled.len() as int] == current);
    if among(e, with) {
        let j = choose|j: int| 0 <= j < with.len() && #[trigger] with[j].same(e);
        if j < cooled.len() {
            assert(with[j] == cooled[j]);
        }
    } else {
        assert(!with[cooled.len() as int].same(e));
        assert forall|j: int| 0 <= j < cooled.len() implies !((#[trigger] cooled[j]).host@
            == e.host@ && cooled[j].port == e.port && cooled[j].tls == e.tls) by {
            assert(with[j] == cooled[j]);
            assert(!with[j].same(e));
        }
    }
}

/// While an endpoint is left that has not collapsed in this pass, a failover chooses among
/// all such endpoints and no others, and remembers that the current one has collapsed. Where
/// none is left, every endpoint but the current one may be chosen again.
pub proof fn law_failover_prefers_the_untried(
    all: Seq<Endpoint>,
    cooled: Seq<Endpoint>,
    current: Endpoint,
    k: int,
)
    requires
        0 <= k < all.len(),
    ensures
        ({
            let c = failover_candidates(all, cooled, current);
            let fresh = |e: Endpoint|
                {
                    &&& !(e.host@ == current.host@ && e.port == current.port && e.tls
                        == current.tls)
                    &&& forall|j: int|
                        0 <= j < cooled.len() ==> !((#[trigger] cooled[j]).host@ == e.host@
                            && cooled[j].port == e.port && cooled[j].tls == e.tls)
                };
            let some = exists|j: int| 0 <= j < all.len() && fresh(#[trigger] all[j]);
            &&& some ==> (c.contains(all[k]) <==> fresh(all[k]))
            &&& some ==> cooled_after(all, cooled, current) == cooled.push(current)
            &&& !some ==> (c.contains(all[k]) <==> !(all[k].host@ == current.host@
                && all[k].port == current.port && all[k].tls == current.tls))
            &&& !some ==> cooled_after(all, cooled, current).len() == 0
        }),
{
    let c = failover_candidates(all, cooled, current);
    let with = cooled.push(current);
    let keep = |e: Endpoint| !among(e, with);
    let kept = all.filter(keep);
    assert(not_cooled(all, with) == kept);
    let fresh = |e: Endpoint|
        {
            &&& !(e.host@ == current.host@ && e.port == current.port && e.tls == current.tls)
            &&& forall|j: int|
                0 <= j < cooled.len() ==> !((#[trigger] cooled[j]).host@ == e.host@
                    && cooled[j].port == e.port && cooled[j].tls == e.tls)
        };
    assert forall|e: Endpoint| #[trigger] fresh(e) == keep(e) by {
        lemma_untried(e, cooled, current);
    }
    let some = exists|j: int| 0 <= j < all.len() && fresh(#[trigger] all[j]);
    if some {
        let j = choose|j: int| 0 <= j < all.len() && fresh(#[trigger] all[j]);
        assert(keep(all[j]));
        lemma_filter_nonempty(all, keep, j);
        if fresh(all[k]) {
            assert(keep(all[k]));
            lemma_filter_keeps(all, keep, k);
        }
        if c.contains(all[k]) {
            let i = choose|i: int| 0 <= i < c.len() && c[i] == all[k];
            lemma_filter(all, keep, i);
            assert(keep(all[k]));
            assert(fresh(all[k]));
        }
    } else {
        if kept.len() > 0 {
            lemma_filter(all, keep, 0);
            let j = choose|j: int| 0 <= j < all.len() && all[j] == kept[0];
            assert(keep(all[j]));
            assert(fresh(all[j]));
        }
        let one = seq![current];
        let other = |e: Endpoint| !among(e, one);
        assert(c == all.filter(other));
        assert(one =~= Seq::<Endpoint>::empty().push(current));
        lemma_untried(all[k], Seq::empty(), current);
        if other(all[k]) {
            lemma_filter_keeps(all, other, k);
        }
        if c.contains(all[k]) {
            let i = choose|i: int| 0 <= i < c.len() && c[i] == all[k];
            lemma_filter(all, other, i);
        }
    }
}

/// A commit takes the endpoint into use and changes nothing else but the detector, which
/// stays as it was while fewer than two switches are spent and is off from the second on.
pub proof fn law_commit_disarms_after_two(f: Failover, next: Endpoint)
    ensures
        f.committed(next).current == next,
        f.committed(next).all == f.all,
        f.committed(next).cooled == f.cooled,
        f.committed(next).switches == f.switches,
        f.switches < 2 ==> f.committed(next).armed == f.armed,
        f.switches >= 2 ==> !f.committed(next).armed,
{
}

/// Each stage can fail, and can succeed with what it hands on: an account check with whether
/// the account is known, a fetch of the tip with the tip, the refresh, the scan, a race and
/// the last enhancement with what they found, every other stage with nothing. Nothing comes
/// of a finished pass but a failure.
pub proof fn law_stages_can_succeed(stage: PassStage, event: PassEvent)
    ensures
        event is Failed ==> possible(stage, event),
        event is Known ==> (possible(stage, event) <==> stage is CheckAccount),
        event is Tip ==> (possible(stage, event) <==> stage is FetchTip),
        event is Utxos ==> (possible(stage, event) <==> stage is RefreshUtxos),
        event is Scanned ==> (possible(stage, event) <==> stage is Scan),
        event is Raced ==> (possible(stage, event) <==> stage is Race),
        event is Enhanced ==> (possible(stage, event) <==> stage is Enhance),
        event is Done ==> (possible(stage, event) <==> stage is FetchTree || stage is ImportAccount
            || stage is FetchRoots || stage is StoreRoots || stage is StoreTip),
{
}

/// A success of one account's stage leads to the account's next one: a known account is done
/// with, an unknown one gets its tree state and is imported with it. An account that is done
/// with leads to the check of the next account, and the last one alone to the roots.
pub proof fn law_accounts_follow_each_other(pass: SyncPass, event: PassEvent, after: SyncPass)
    requires
        pass.wf(),
        possible(pass.stage, event),
        event !is Failed,
        pass.advanced(event, after),
    ensures
        ({
            let n = pass.birthdays@.len();
            &&& pass.stage matches PassStage::CheckAccount(i) ==> {
                &&& event == PassEvent::Known(false) ==> after.stage == PassStage::FetchTree(i)
                &&& event == PassEvent::Known(true) && i + 1 < n ==> after.stage
                    == PassStage::CheckAccount((i + 1) as usize)
                &&& event == PassEvent::Known(true) && i + 1 == n ==> after.stage is FetchRoots
            }
            &&& pass.stage matches PassStage::FetchTree(i) ==> after.stage
                == PassStage::ImportAccount(i)
            &&& pass.stage matches PassStage::ImportAccount(i) ==> {
                &&& i + 1 < n ==> after.stage == PassStage::CheckAccount((i + 1) as usize)
                &&& i + 1 == n ==> after.stage is FetchRoots
            }
        }),
{
}

/// Behind the accounts a pass meets its steps one after the other: the roots and the tip are
/// each fetched and stored, the transparent outputs are refreshed, the wallet is scanned and
/// enhanced. A race leads back to the scan.
pub proof fn law_steps_follow_each_other(pass: SyncPass, event: PassEvent, after: SyncPass)
    requires
        possible(pass.stage, event),
        event !is Failed,
        pass.advanced(event, after),
    ensures
        pass.stage is FetchRoots ==> after.stage is StoreRoots,
        pass.stage is StoreRoots ==> after.stage is FetchTip,
        event matches PassEvent::Tip(tip) ==> after.stage == PassStage::StoreTip(tip),
        pass.stage is StoreTip ==> after.stage is RefreshUtxos,
        pass.stage is RefreshUtxos ==> after.stage is Scan,
        pass.stage is Scan ==> after.stage is Enhance,
        pass.stage is Race ==> after.stage is Scan,
        pass.stage is Enhance ==> after.stage is Finished,
{
}

/// Whether a pass went from stage to stage by successes alone.
pub open spec fn successes(trail: Seq<SyncPass>, events: Seq<PassEvent>) -> bool {
    &&& trail.len() == events.len() + 1
    &&& forall|k: int|
        0 <= k < events.len() ==> possible((#[trigger] trail[k]).stage, events[k])
            && events[k] !is Failed && trail[k].advanced(events[k], trail[k + 1])
    &&& forall|k: int| 0 <= k < trail.len() ==> (#[trigger] trail[k]).wf()
}

/// Whether an account was known to the wallet or imported on the way.
pub open spec fn account_met(trail: Seq<SyncPass>, events: Seq<PassEvent>, account: int) -> bool {
    exists|k: int|
        0 <= k < events.len() && {
            ||| (#[trigger] trail[k]).stage == PassStage::CheckAccount(account as usize)
                && events[k] == PassEvent::Known(true)
            ||| trail[k].stage == PassStage::ImportAccount(account as usize) && events[k]
                == PassEvent::Done
        }
}

/// The accounts that come before a stage.
spec fn accounts_before(stage: PassStage, accounts: nat) -> int {
    match stage {
        PassStage::CheckAccount(i) | PassStage::FetchTree(i) | PassStage::ImportAccount(i) =>
            i as int,
        _ => accounts as int,
    }
}

proof fn lemma_accounts_met(trail: Seq<SyncPass>, events: Seq<PassEvent>, m: int, account: int)
    requires
        successes(trail, events),
        trail[0].stage == PassStage::CheckAccount(0),
        0 <= m < trail.len(),
        0 <= account < accounts_before(trail[m].stage, trail[0].birthdays@.len()),
        account < trail[0].birthdays@.len(),
    ensures
        account_met(trail, events, account),
        trail[m].birthdays == trail[0].birthdays,
    decreases m,
{
    if m > 0 {
        let before = trail[m - 1];
        assert(trail[m - 1].advanced(events[m - 1], trail[m - 1 + 1]));
        assert(possible(before.stage, events[m - 1]));
        lemma_birthdays_stay(trail, events, m - 1);
        law_accounts_follow_each_other(before, events[m - 1], trail[m]);
        law_steps_follow_each_other(before, events[m - 1], trail[m]);
        law_stages_can_succeed(before.stage, events[m - 1]);
        assert(trail[0].birthdays.len() == trail[0].birthdays@.len());
        if account < accounts_before(before.stage, trail[0].birthdays@.len()) {
            lemma_accounts_met(trail, events, m - 1, account);
        } else {
            assert(before.wf());
            assert(account == accounts_before(before.stage, trail[0].birthdays@.len()));
            assert(trail[m - 1].stage == PassStage::CheckAccount(account as usize)
                || trail[m - 1].stage == PassStage::ImportAccount(account as usize));
        }
    }
}

proof fn lemma_birthdays_stay(trail: Seq<SyncPass>, events: Seq<PassEvent>, m: int)
    requires
        successes(trail, events),
        0 <= m < trail.len(),
    ensures
        trail[m].birthdays == trail[0].birthdays,
    decreases m,
{
    if m > 0 {
        lemma_birthdays_stay(trail, events, m - 1);
        assert(trail[m - 1].advanced(events[m - 1], trail[m - 1 + 1]));
    }
}

/// Whichever way a pass goes from the check of its first account, once it is past the
/// accounts every one of them was known to the wallet or has been imported: no account is
/// passed over.
pub proof fn law_no_account_is_passed_over(
    trail: Seq<SyncPass>,
    events: Seq<PassEvent>,
    m: int,
    account: int,
)
    requires
        successes(trail, events),
        trail[0].stage == PassStage::CheckAccount(0),
        0 <= m < trail.len(),
        !(trail[m].stage is CheckAccount || trail[m].stage is FetchTree
            || trail[m].stage is ImportAccount),
        0 <= account < trail[0].birthdays@.len(),
    ensures
        account_met(trail, events, account),
{
    lemma_accounts_met(trail, events, m, account);
}

/// What comes of a stage is kept: a tip once it is stored, what the refresh found, the scan's
/// report as it came, the endpoint that won a race; the last enhancement is added to what the
/// scan's own enhancement counted. Every other event leaves these as they were.
pub proof fn law_pass_keeps_what_came(pass: SyncPass, event: PassEvent, after: SyncPass)
    requires
        possible(pass.stage, event),
        event !is Failed,
        pass.advanced(event, after),
        event matches PassEvent::Enhanced(stats, nanos) ==> pass.report.enhance_elapsed + nanos
            <= SPAN_MAX_NANOS,
        event matches PassEvent::Raced(chosen) ==> chosen < pass.candidates@.len(),
    ensures
        after.birthdays == pass.birthdays,
        after.wire_probe == pass.wire_probe,
        after.candidates == pass.candidates,
        pass.stage matches PassStage::StoreTip(tip) ==> after.chain_tip == tip,
        !(pass.stage is StoreTip) ==> after.chain_tip == pass.chain_tip,
        event matches PassEvent::Utxos(found) ==> after.transparent == found,
        !(event is Utxos) ==> after.transparent == pass.transparent,
        event matches PassEvent::Scanned(report) ==> after.report == report,
        event matches PassEvent::Enhanced(stats, nanos) ==> after.enhance_elapsed
            == pass.report.enhance_elapsed + nanos && after.report.enhance
            == pass.report.enhance.merged(stats) && after.report.fetched_blocks
            == pass.report.fetched_blocks && after.report.scanned_blocks
            == pass.report.scanned_blocks && after.report.fetched_bytes
            == pass.report.fetched_bytes && after.report.sapling_received
            == pass.report.sapling_received && after.report.orchard_received
            == pass.report.orchard_received && after.report.ranges_processed
            == pass.report.ranges_processed && after.report.reorgs_recovered
            == pass.report.reorgs_recovered && after.report.fetch_elapsed
            == pass.report.fetch_elapsed && after.report.scan_elapsed == pass.report.scan_elapsed
            && after.report.enhance_elapsed == pass.report.enhance_elapsed
            && after.report.persist_wait_elapsed == pass.report.persist_wait_elapsed
            && after.report.persist_busy_elapsed == pass.report.persist_busy_elapsed,
        !(event is Scanned || event is Enhanced) ==> after.report == pass.report,
        !(event is Enhanced) ==> after.enhance_elapsed == pass.enhance_elapsed,
        event matches PassEvent::Raced(chosen) ==> after.failover.current
            == pass.candidates@[chosen as int] && after.failover.switches
            == pass.failover.switches && after.failover.all == pass.failover.all
            && after.failover.cooled == pass.failover.cooled,
        !(event is Raced) ==> after.failover == pass.failover,
{
}

/// A wire collapse costs one switch and loses nothing that the pass has: it goes on scanning
/// with another endpoint, the only one there is to choose, or after a race of them all.
pub proof fn law_collapse_goes_on(pass: SyncPass, after: SyncPass)
    requires
        pass.collapse(after),
    ensures
        after.birthdays == pass.birthdays,
        after.wire_probe == pass.wire_probe,
        after.chain_tip == pass.chain_tip,
        after.transparent == pass.transparent,
        after.report == pass.report,
        after.enhance_elapsed == pass.enhance_elapsed,
        after.failover.all == pass.failover.all,
        after.failover.switches == pass.failover.switches + 1,
        after.stage is Scan || after.stage is Race,
        after.stage is Scan ==> !after.failover.current.same(pass.failover.current)
            && pass.failover.all@.contains(after.failover.current),
        after.stage is Scan && pass.failover.switches + 1 < 2 ==> after.failover.armed
            == pass.failover.armed,
        after.stage is Scan && pass.failover.switches + 1 >= 2 ==> !after.failover.armed,
        after.stage is Race ==> after.failover.current == pass.failover.current
            && after.failover.armed == pass.failover.armed && after.candidates@.len() != 1,
        forall|k: int|
            after.stage is Race && 0 <= k < after.candidates@.len() ==> !(
            #[trigger] after.candidates@[k]).same(pass.failover.current)
                && pass.failover.all@.contains(after.candidates@[k]),
{
    let f = pass.failover;
    let c = failover_candidates(f.all@, f.cooled@, f.current);
    if c.len() == 1 {
        law_failover_leaves_the_collapsed(f.all@, f.cooled@, f.current, 0);
    } else {
        assert forall|k: int| 0 <= k < after.candidates@.len() implies !(
        #[trigger] after.candidates@[k]).same(f.current) && f.all@.contains(
            after.candidates@[k],
        ) by {
            law_failover_leaves_the_collapsed(f.all@, f.cooled@, f.current, k);
        }
    }
}

/// The success of a stage is progress exactly where a server answered: with a tree state, the
/// roots, the tip or the transparent outputs.
pub proof fn law_answers_are_progress(stage: PassStage)
    ensures
        is_answer(stage) <==> stage is FetchTree || stage is FetchRoots || stage is FetchTip
            || stage is RefreshUtxos,
{
}

} // verus!
