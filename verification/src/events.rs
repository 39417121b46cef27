//! What the engine shows to its host: counters that are polled, and events that
//! are drained.
use crate::clock::now_secs;
use vstd::prelude::*;

verus! {

/// Progress of the engine, for hosts that poll. The counters are independent of
/// each other: a reader is promised no relation between two of them.
#[derive(Debug)]
pub struct Progress {
    /// Chain tip height as reported by the server.
    pub chain_tip: u64,
    /// Compact blocks fetched so far.
    pub fetched_blocks: u64,
    /// Compact blocks scanned so far.
    pub scanned_blocks: u64,
    /// Transactions enhanced so far.
    pub enhanced_txs: u64,
    /// End height of the range that is being processed, inclusive.
    pub current_range_end: u64,
    /// Reorgs that were recovered from.
    pub reorgs_recovered: u64,
    /// Blocks in the current pass, set whenever the scan ranges are suggested anew.
    pub pass_total_blocks: u64,
    /// One once funds are spendable in the current pass, zero before.
    pub spendable_hint: u64,
    /// Ranges whose scan and enhancement are complete.
    pub ranges_completed: u64,
    /// One while the pass is inside the recovery window, zero otherwise.
    pub recovering: u64,
    /// Unix seconds of the last forward progress.
    pub last_progress_unix: u64,
    /// The highest progress that was reported in this session, in permille.
    pub progress_permille_floor: u64,
    /// Tips that were fetched and persisted over the life of the handle.
    pub tip_refreshes: u64,
    /// Version of the stored transaction set.
    pub tx_set_version: u64,
    /// Writers of the wallet file that are in flight.
    pub wallet_writers: usize,
}

/// A seed that lies further below the progress floor than this means that the scan
/// scope has grown, not that progress was lost.
pub const FLOOR_REBASELINE_EPSILON_PERMILLE: u64 = 50;

impl Default for Progress {
    fn default() -> (r: Progress)
        ensures
            r == (Progress {
                chain_tip: 0,
                fetched_blocks: 0,
                scanned_blocks: 0,
                enhanced_txs: 0,
                current_range_end: 0,
                reorgs_recovered: 0,
                pass_total_blocks: 0,
                spendable_hint: 0,
                ranges_completed: 0,
                recovering: 0,
                last_progress_unix: 0,
                progress_permille_floor: 0,
                tip_refreshes: 0,
                tx_set_version: 0,
                wallet_writers: 0,
            }),
    {
        Progress {
            chain_tip: 0,
            fetched_blocks: 0,
            scanned_blocks: 0,
            enhanced_txs: 0,
            current_range_end: 0,
            reorgs_recovered: 0,
            pass_total_blocks: 0,
            spendable_hint: 0,
            ranges_completed: 0,
            recovering: 0,
            last_progress_unix: 0,
            progress_permille_floor: 0,
            tip_refreshes: 0,
            tx_set_version: 0,
            wallet_writers: 0,
        }
    }
}

/// The smaller of two numbers.
pub open spec fn lesser(a: u64, b: u64) -> u64 {
    if a <= b {
        a
    } else {
        b
    }
}

/// The larger of two numbers.
pub open spec fn larger(a: u64, b: u64) -> u64 {
    if a <= b {
        b
    } else {
        a
    }
}

impl Progress {
    /// The same progress, stamped at another second.
    pub open spec fn stamped(self, secs: u64) -> Progress {
        Progress { last_progress_unix: secs, ..self }
    }

    /// Counts `n` fetched blocks, and stamps the progress at the second `now`.
    pub fn add_fetched_at(&mut self, n: u64, now: u64)
        ensures
            *final(self) == (Progress {
                fetched_blocks: old(self).fetched_blocks.wrapping_add(n),
                ..*old(self)
            }).stamped(now),
    {
        self.fetched_blocks = self.fetched_blocks.wrapping_add(n);
        self.touch_at(now);
    }

    /// Counts `n` fetched blocks, and stamps the progress at the current second.
    pub fn add_fetched(&mut self, n: u64)
        ensures
            *final(self) == (Progress {
                fetched_blocks: old(self).fetched_blocks.wrapping_add(n),
                ..*old(self)
            }).stamped(final(self).last_progress_unix),
    {
        self.add_fetched_at(n, now_secs());
    }

    /// Counts `n` scanned blocks, and stamps the progress at the second `now`.
    pub fn add_scanned_at(&mut self, n: u64, now: u64)
        ensures
            *final(self) == (Progress {
                scanned_blocks: old(self).scanned_blocks.wrapping_add(n),
                ..*old(self)
            }).stamped(now),
    {
        self.scanned_blocks = self.scanned_blocks.wrapping_add(n);
        self.touch_at(now);
    }

    /// Counts `n` scanned blocks, and stamps the progress at the current second.
    pub fn add_scanned(&mut self, n: u64)
        ensures
            *final(self) == (Progress {
                scanned_blocks: old(self).scanned_blocks.wrapping_add(n),
                ..*old(self)
            }).stamped(final(self).last_progress_unix),
    {
        self.add_scanned_at(n, now_secs());
    }

    /// Counts `n` enhanced transactions, and stamps the progress at the second `now`.
    pub fn add_enhanced_at(&mut self, n: u64, now: u64)
        ensures
            *final(self) == (Progress {
                enhanced_txs: old(self).enhanced_txs.wrapping_add(n),
                ..*old(self)
            }).stamped(now),
    {
        self.enhanced_txs = self.enhanced_txs.wrapping_add(n);
        self.touch_at(now);
    }

    /// Counts `n` enhanced transactions, and stamps the progress at the current second.
    pub fn add_enhanced(&mut self, n: u64)
        ensures
            *final(self) == (Progress {
                enhanced_txs: old(self).enhanced_txs.wrapping_add(n),
                ..*old(self)
            }).stamped(final(self).last_progress_unix),
    {
        self.add_enhanced_at(n, now_secs());
    }

    /// Sets the chain tip. This stores a value and claims nothing of its
    /// freshness: see [`Progress::note_tip_refreshed`].
    pub fn set_chain_tip(&mut self, tip: u64)
        ensures
            *final(self) == (Progress { chain_tip: tip, ..*old(self) }),
    {
        self.chain_tip = tip;
    }

    /// Counts one freshly fetched tip that was persisted, and stamps the progress at
    /// the second `now`.
    pub fn note_tip_refreshed_at(&mut self, now: u64)
        ensures
            *final(self) == (Progress {
                tip_refreshes: old(self).tip_refreshes.wrapping_add(1),
                ..*old(self)
            }).stamped(now),
    {
        self.tip_refreshes = self.tip_refreshes.wrapping_add(1);
        self.touch_at(now);
    }

    /// Counts one freshly fetched tip that was persisted, and stamps the progress at
    /// the current second.
    pub fn note_tip_refreshed(&mut self)
        ensures
            *final(self) == (Progress {
                tip_refreshes: old(self).tip_refreshes.wrapping_add(1),
                ..*old(self)
            }).stamped(final(self).last_progress_unix),
    {
        self.note_tip_refreshed_at(now_secs());
    }

    /// How many freshly fetched tips were persisted.
    pub fn tip_refreshes(&self) -> (r: u64)
        ensures
            r == self.tip_refreshes,
    {
        self.tip_refreshes
    }

    /// How many writers of the wallet file are in flight.
    pub fn wallet_writers(&self) -> (r: usize)
        ensures
            r == self.wallet_writers,
    {
        self.wallet_writers
    }

    /// The progress with one more writer in flight.
    pub open spec fn writer_added(self) -> Progress {
        Progress { wallet_writers: self.wallet_writers.wrapping_add(1), ..self }
    }

    /// The progress with one writer less in flight.
    pub open spec fn writer_removed(self) -> Progress {
        Progress { wallet_writers: self.wallet_writers.wrapping_sub(1), ..self }
    }

    /// Counts a writer of the wallet file.
    pub fn writer_begun(&mut self)
        ensures
            *final(self) == old(self).writer_added(),
    {
        self.wallet_writers = self.wallet_writers.wrapping_add(1);
    }

    /// Counts a writer of the wallet file no more.
    pub fn writer_done(&mut self)
        ensures
            *final(self) == old(self).writer_removed(),
        opens_invariants none
        no_unwind
    {
        self.wallet_writers = if self.wallet_writers == 0 {
            usize::MAX
        } else {
            self.wallet_writers - 1
        };
    }

    /// Records that the stored transaction set changed, and stamps the progress at
    /// the second `now`.
    pub fn bump_tx_set_version_at(&mut self, now: u64)
        ensures
            *final(self) == (Progress {
                tx_set_version: old(self).tx_set_version.wrapping_add(1),
                ..*old(self)
            }).stamped(now),
    {
        self.tx_set_version = self.tx_set_version.wrapping_add(1);
        self.touch_at(now);
    }

    /// Records that the stored transaction set changed, and stamps the progress at
    /// the current second.
    pub fn bump_tx_set_version(&mut self)
        ensures
            *final(self) == (Progress {
                tx_set_version: old(self).tx_set_version.wrapping_add(1),
                ..*old(self)
            }).stamped(final(self).last_progress_unix),
    {
        self.bump_tx_set_version_at(now_secs());
    }

    /// The version of the stored transaction set.
    pub fn tx_set_version(&self) -> (r: u64)
        ensures
            r == self.tx_set_version,
    {
        self.tx_set_version
    }

    /// Sets the end of the range that is being processed.
    pub fn set_range_end(&mut self, end: u64)
        ensures
            *final(self) == (Progress { current_range_end: end, ..*old(self) }),
    {
        self.current_range_end = end;
    }

    /// Counts one reorg, and stamps the progress at the second `now`.
    pub fn add_reorg_at(&mut self, now: u64)
        ensures
            *final(self) == (Progress {
                reorgs_recovered: old(self).reorgs_recovered.wrapping_add(1),
                ..*old(self)
            }).stamped(now),
    {
        self.reorgs_recovered = self.reorgs_recovered.wrapping_add(1);
        self.touch_at(now);
    }

    /// Counts one reorg, and stamps the progress at the current second.
    pub fn add_reorg(&mut self)
        ensures
            *final(self) == (Progress {
                reorgs_recovered: old(self).reorgs_recovered.wrapping_add(1),
                ..*old(self)
            }).stamped(final(self).last_progress_unix),
    {
        self.add_reorg_at(now_secs());
    }

    /// Sets the blocks of the whole pass. The value replaces the earlier one.
    pub fn set_pass_total(&mut self, n: u64)
        ensures
            *final(self) == (Progress { pass_total_blocks: n, ..*old(self) }),
    {
        self.pass_total_blocks = n;
    }

    /// The earlier name of [`Progress::set_pass_total`]: the value replaces the
    /// earlier one, despite the name.
    pub fn add_pass_total(&mut self, n: u64)
        ensures
            *final(self) == (Progress { pass_total_blocks: n, ..*old(self) }),
    {
        self.pass_total_blocks = n;
    }

    /// Records that funds are spendable.
    pub fn set_spendable(&mut self)
        ensures
            *final(self) == (Progress { spendable_hint: 1, ..*old(self) }),
    {
        self.spendable_hint = 1;
    }

    /// Counts one completed range, and stamps the progress at the second `now`.
    pub fn add_ranges_completed_at(&mut self, now: u64)
        ensures
            *final(self) == (Progress {
                ranges_completed: old(self).ranges_completed.wrapping_add(1),
                ..*old(self)
            }).stamped(now),
    {
        self.ranges_completed = self.ranges_completed.wrapping_add(1);
        self.touch_at(now);
    }

    /// Counts one completed range, and stamps the progress at the current second.
    pub fn add_ranges_completed(&mut self)
        ensures
            *final(self) == (Progress {
                ranges_completed: old(self).ranges_completed.wrapping_add(1),
                ..*old(self)
            }).stamped(final(self).last_progress_unix),
    {
        self.add_ranges_completed_at(now_secs());
    }

    /// Stamps the progress with the second `now`.
    pub fn touch_at(&mut self, now: u64)
        ensures
            *final(self) == old(self).stamped(now),
    {
        self.last_progress_unix = now;
    }

    /// Stamps the progress with the current second, and changes nothing else.
    pub fn touch(&mut self)
        ensures
            *final(self) == old(self).stamped(final(self).last_progress_unix),
    {
        self.touch_at(now_secs());
    }

    /// Sets whether the pass is inside the recovery window.
    pub fn set_recovering(&mut self, recovering: bool)
        ensures
            *final(self) == (Progress {
                recovering: if recovering {
                    1
                } else {
                    0
                },
                ..*old(self)
            }),
    {
        self.recovering = if recovering {
            1
        } else {
            0
        };
    }

    /// Whether the pass is inside the recovery window.
    pub fn recovering(&self) -> (r: bool)
        ensures
            r == (self.recovering != 0),
    {
        self.recovering != 0
    }

    /// Unix seconds of the last forward progress.
    pub fn last_progress_unix_secs(&self) -> (r: u64)
        ensures
            r == self.last_progress_unix,
    {
        self.last_progress_unix
    }

    /// The floor once `raw` permille was reported.
    pub open spec fn floor_after(self, raw: u64) -> u64 {
        larger(self.progress_permille_floor, lesser(raw, 1000))
    }

    /// Raises the session's progress floor to `raw` permille, at most 1000, and returns
    /// the floor: what is reported never falls.
    pub fn permille_floor(&mut self, raw: u64) -> (r: u64)
        ensures
            r == old(self).floor_after(raw),
            *final(self) == (Progress { progress_permille_floor: r, ..*old(self) }),
    {
        let clamped: u64 = if raw <= 1000 {
            raw
        } else {
            1000
        };
        if self.progress_permille_floor < clamped {
            self.progress_permille_floor = clamped;
        }
        self.progress_permille_floor
    }

    /// Whether a seed lies so far below the floor that the scan scope must have
    /// grown.
    pub open spec fn scope_expanded(self, seed: u64) -> bool {
        seed + FLOOR_REBASELINE_EPSILON_PERMILLE < self.progress_permille_floor
    }

    /// Lowers the floor to the seed where the scan scope has grown, and says
    /// whether it did.
    pub fn rebaseline_floor_if_scope_expanded(&mut self, seed: u64) -> (r: bool)
        ensures
            r == old(self).scope_expanded(seed),
            *final(self) == if r {
                Progress { progress_permille_floor: lesser(seed, 1000), ..*old(self) }
            } else {
                *old(self)
            },
    {
        let current: u64 = self.progress_permille_floor;
        if seed.saturating_add(FLOOR_REBASELINE_EPSILON_PERMILLE) < current {
            self.progress_permille_floor = if seed <= 1000 {
                seed
            } else {
                1000
            };
            return true;
        }
        false
    }

    /// The progress at the start of a pass: what makes up the pass's ratio is zero
    /// again, what a host compares with what it saw last is kept.
    pub open spec fn pass_begun(self) -> Progress {
        Progress {
            scanned_blocks: 0,
            fetched_blocks: 0,
            pass_total_blocks: 0,
            current_range_end: 0,
            spendable_hint: 0,
            ..self
        }
    }

    /// Starts a pass, and stamps the progress at the second `now`.
    pub fn begin_pass_at(&mut self, now: u64)
        ensures
            *final(self) == old(self).pass_begun().stamped(now),
    {
        self.scanned_blocks = 0;
        self.fetched_blocks = 0;
        self.pass_total_blocks = 0;
        self.current_range_end = 0;
        self.spendable_hint = 0;
        self.touch_at(now);
    }

    /// Starts a pass, and stamps the progress at the current second.
    pub fn begin_pass(&mut self)
        ensures
            *final(self) == old(self).pass_begun().stamped(final(self).last_progress_unix),
    {
        self.begin_pass_at(now_secs());
    }

    /// The chain tip.
    pub fn chain_tip(&self) -> (r: u64)
        ensures
            r == self.chain_tip,
    {
        self.chain_tip
    }

    /// Blocks fetched.
    pub fn fetched(&self) -> (r: u64)
        ensures
            r == self.fetched_blocks,
    {
        self.fetched_blocks
    }

    /// Blocks scanned.
    pub fn scanned(&self) -> (r: u64)
        ensures
            r == self.scanned_blocks,
    {
        self.scanned_blocks
    }

    /// Transactions enhanced.
    pub fn enhanced(&self) -> (r: u64)
        ensures
            r == self.enhanced_txs,
    {
        self.enhanced_txs
    }

    /// The end of the range that is being processed.
    pub fn range_end(&self) -> (r: u64)
        ensures
            r == self.current_range_end,
    {
        self.current_range_end
    }

    /// Reorgs recovered from.
    pub fn reorgs(&self) -> (r: u64)
        ensures
            r == self.reorgs_recovered,
    {
        self.reorgs_recovered
    }

    /// Blocks of the whole pass.
    pub fn pass_total(&self) -> (r: u64)
        ensures
            r == self.pass_total_blocks,
    {
        self.pass_total_blocks
    }

    /// One where funds are spendable, zero otherwise.
    pub fn spendable(&self) -> (r: u64)
        ensures
            r == self.spendable_hint,
    {
        self.spendable_hint
    }

    /// Ranges completed.
    pub fn ranges_completed(&self) -> (r: u64)
        ensures
            r == self.ranges_completed,
    {
        self.ranges_completed
    }
}

/// Reported progress never falls, never passes 1000 once the floor is at most
/// that, and covers every report up to 1000.
pub proof fn law_reported_progress_is_monotone(p: Progress, first: u64, second: u64)
    requires
        p.progress_permille_floor <= 1000,
    ensures
        p.progress_permille_floor <= p.floor_after(first) <= 1000,
        first <= 1000 ==> first <= p.floor_after(first),
        ({
            let q = Progress { progress_permille_floor: p.floor_after(first), ..p };
            p.floor_after(first) <= q.floor_after(second) <= 1000
        }),
{
}

/// A seed within the margin of the floor never lowers the floor; a lowered floor is
/// the seed.
pub proof fn law_floor_falls_only_with_the_scope(p: Progress, seed: u64)
    ensures
        seed + FLOOR_REBASELINE_EPSILON_PERMILLE >= p.progress_permille_floor
            ==> !p.scope_expanded(seed),
        p.scope_expanded(seed) ==> lesser(seed, 1000) <= p.progress_permille_floor,
        p.scope_expanded(seed) && p.progress_permille_floor <= 1000 ==> lesser(seed, 1000) == seed,
{
}

/// The start of a pass keeps every counter that a host follows over the life of the
/// handle, the floor, the recovery flag and the writers in flight.
pub proof fn law_pass_start_keeps_session_counters(p: Progress)
    ensures
        p.pass_begun().enhanced_txs == p.enhanced_txs,
        p.pass_begun().ranges_completed == p.ranges_completed,
        p.pass_begun().reorgs_recovered == p.reorgs_recovered,
        p.pass_begun().tip_refreshes == p.tip_refreshes,
        p.pass_begun().tx_set_version == p.tx_set_version,
        p.pass_begun().wallet_writers == p.wallet_writers,
        p.pass_begun().progress_permille_floor == p.progress_permille_floor,
        p.pass_begun().recovering == p.recovering,
        p.pass_begun().chain_tip == p.chain_tip,
{
}

/// A writer of the wallet file in flight: it counts from [`WalletWriterGate::hold`] until this
/// token is dropped, by the writer's end as by an unwinding. The counters are read and written
/// through the token while it is held.
#[must_use]
#[non_exhaustive]
pub struct WalletWriterGate<'a> {
    /// The counters, with the writer among them.
    pub progress: &'a mut Progress,
}

impl<'a> WalletWriterGate<'a> {
    /// Counts a writer until the token is dropped. What the token leaves of the counters is
    /// what is left of them.
    pub fn hold(progress: &'a mut Progress) -> (gate: Self)
        ensures
            *gate.progress == old(progress).writer_added(),
            *final(progress) == *final(gate.progress),
    {
        progress.writer_begun();
        WalletWriterGate { progress }
    }
}

impl<'a> Drop for WalletWriterGate<'a> {
    /// The writer is done, or has failed: it counts no more.
    fn drop(&mut self)
        ensures
            *final(self).progress == old(self).progress.writer_removed(),
        opens_invariants none
        no_unwind
    {
        self.progress.writer_done();
    }
}

/// What a writer adds to the count, its end takes away again, whatever the count was.
pub proof fn law_release_undoes_hold(p: Progress)
    ensures
        p.writer_added().writer_removed() == p,
{
}

/// The resource that bounds the throughput.
#[derive(Clone, Copy, Debug, PartialEq, Eq, Structural)]
pub enum Bound {
    Download,
    Cpu,
    Commit,
    Idle,
}

/// How the engine shares the device.
#[derive(Clone, Copy, Debug, PartialEq, Eq, Structural)]
pub enum SyncMode {
    /// Foreground restore: all cores, large buffers.
    Sprint,
    /// Foreground catch-up.
    Cruise,
    /// Background slice: minimal footprint.
    Drip,
}

/// A part of a whole.
#[derive(Clone, Copy, Debug, PartialEq, Eq, Structural)]
pub struct Coverage {
    pub covered: u64,
    pub whole: u64,
}

/// The engine's state at one moment.
#[derive(Clone, Copy, Debug, PartialEq, Eq, Structural)]
#[non_exhaustive]
pub struct Snapshot {
    pub chain_tip: u32,
    pub fully_scanned_height: u32,
    /// The covered part of the whole recovery window.
    pub coverage: Coverage,
    pub download_bytes_per_sec: u64,
    pub scan_outputs_per_sec: u64,
    pub bound: Option<Bound>,
}

impl Default for Snapshot {
    fn default() -> (r: Snapshot)
        ensures
            r == (Snapshot {
                chain_tip: 0,
                fully_scanned_height: 0,
                coverage: Coverage { covered: 0, whole: 0 },
                download_bytes_per_sec: 0,
                scan_outputs_per_sec: 0,
                bound: None,
            }),
    {
        Snapshot {
            chain_tip: 0,
            fully_scanned_height: 0,
            coverage: Coverage { covered: 0, whole: 0 },
            download_bytes_per_sec: 0,
            scan_outputs_per_sec: 0,
            bound: None,
        }
    }
}

/// Events of the engine's life, drained by the host.
#[derive(Clone, Debug, PartialEq)]
#[non_exhaustive]
pub enum Event {
    Started { mode: SyncMode },
    Progress(Snapshot),
    Finished { fully_scanned_height: u32 },
    Failed { message: String },
}

/// A stamp changes when the last progress was and no counter.
pub proof fn law_stamp_moves_the_clock_alone(p: Progress, secs: u64)
    ensures
        p.stamped(secs).last_progress_unix == secs,
        p.stamped(secs).chain_tip == p.chain_tip,
        p.stamped(secs).fetched_blocks == p.fetched_blocks,
        p.stamped(secs).scanned_blocks == p.scanned_blocks,
        p.stamped(secs).enhanced_txs == p.enhanced_txs,
        p.stamped(secs).current_range_end == p.current_range_end,
        p.stamped(secs).reorgs_recovered == p.reorgs_recovered,
        p.stamped(secs).pass_total_blocks == p.pass_total_blocks,
        p.stamped(secs).spendable_hint == p.spendable_hint,
        p.stamped(secs).ranges_completed == p.ranges_completed,
        p.stamped(secs).recovering == p.recovering,
        p.stamped(secs).progress_permille_floor == p.progress_permille_floor,
        p.stamped(secs).tip_refreshes == p.tip_refreshes,
        p.stamped(secs).tx_set_version == p.tx_set_version,
        p.stamped(secs).wallet_writers == p.wallet_writers,
{
}

/// Each writer counts for one while it is in flight, and for none of the other counters.
pub proof fn law_writers_count_for_one(p: Progress)
    ensures
        p.wallet_writers < usize::MAX ==> p.writer_added().wallet_writers == p.wallet_writers + 1,
        p.wallet_writers > 0 ==> p.writer_removed().wallet_writers == p.wallet_writers - 1,
        p.writer_added() == (Progress {
            wallet_writers: p.writer_added().wallet_writers,
            ..p
        }),
        p.writer_removed() == (Progress {
            wallet_writers: p.writer_removed().wallet_writers,
            ..p
        }),
{
}

/// The floor after a report is the floor before or the report, cut at 1000, whichever is
/// greater: it is at least both, and one of them.
pub proof fn law_floor_is_the_greatest_report(p: Progress, raw: u64)
    ensures
        p.floor_after(raw) >= p.progress_permille_floor,
        raw <= 1000 ==> p.floor_after(raw) >= raw,
        raw > 1000 ==> p.floor_after(raw) >= 1000,
        p.floor_after(raw) == p.progress_permille_floor || p.floor_after(raw) == raw
            || p.floor_after(raw) == 1000,
        p.floor_after(raw) <= p.progress_permille_floor || p.floor_after(raw) <= raw,
        p.floor_after(raw) <= p.progress_permille_floor || p.floor_after(raw) <= 1000,
{
}

/// The scope has grown exactly where the seed lies more than 50 permille below the floor, and
/// the floor then falls to the seed, cut at 1000.
pub proof fn law_scope_grows_by_the_margin(p: Progress, seed: u64)
    ensures
        p.scope_expanded(seed) <==> p.progress_permille_floor > seed + 50,
        seed <= 1000 ==> lesser(seed, 1000) == seed,
        seed > 1000 ==> lesser(seed, 1000) == 1000,
{
}

/// A new pass has fetched and scanned nothing, has no range and no total, and nothing is
/// spendable by it yet.
pub proof fn law_pass_starts_from_zero(p: Progress)
    ensures
        p.pass_begun().scanned_blocks == 0,
        p.pass_begun().fetched_blocks == 0,
        p.pass_begun().pass_total_blocks == 0,
        p.pass_begun().current_range_end == 0,
        p.pass_begun().spendable_hint == 0,
        p.pass_begun().last_progress_unix == p.last_progress_unix,
{
}

} // verus!
