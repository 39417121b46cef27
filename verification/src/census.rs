//! The census of tree shards in a pass, and the summary of a benchmark.
use crate::text::{dec, push_dec};
use std::collections::BTreeSet;
use vstd::prelude::*;
use vstd::std_specs::btree::{group_btree_axioms, spec_btree_keys_iter};
use vstd::std_specs::iter::IteratorSpec;

verus! {

broadcast use {vstd::laws_cmp::group_laws_cmp, group_btree_axioms};

/// The leaves of one shard: both pools have shards of height 16.
pub const SHARD_LEAVES: u64 = 65_536;

/// Which shards a pass touched, and which of them hold notes of the wallet.
#[derive(Debug)]
pub struct ShardCensus {
    /// The shards that were touched.
    pub touched: BTreeSet<u64>,
    /// The shards that hold notes.
    pub noted: BTreeSet<u64>,
    /// All commitments fed.
    pub commitments: u64,
}

/// A part of a whole, exactly.
#[derive(Debug, Clone, Copy, PartialEq, Eq, Structural)]
pub struct Fraction {
    pub numerator: u64,
    pub denominator: u64,
}

/// The shards that `count` positions from `start` on lie in.
pub open spec fn shards_of_run(start: u64, count: u64) -> Set<u64> {
    Set::new(
        |s: u64| exists|p: int| start <= p < start + count && s == #[trigger] shard_index(p),
    )
}

/// The shard that a position lies in.
pub open spec fn shard_index(position: int) -> int {
    position / SHARD_LEAVES as int
}

/// The shards that the given positions lie in.
pub open spec fn shards_of(positions: Seq<u64>) -> Set<u64> {
    Set::new(
        |s: u64|
            exists|i: int|
                0 <= i < positions.len() && s == shard_index(#[trigger] positions[i] as int),
    )
}

impl Default for ShardCensus {
    fn default() -> (r: ShardCensus)
        ensures
            r.touched_shards() == Set::<u64>::empty(),
            r.shards_with_notes() == Set::<u64>::empty(),
            r.commitments == 0,
    {
        ShardCensus { touched: BTreeSet::new(), noted: BTreeSet::new(), commitments: 0 }
    }
}

impl ShardCensus {
    /// The shards that were touched.
    pub open spec fn touched_shards(self) -> Set<u64> {
        self.touched@
    }

    /// The shards that hold notes.
    pub open spec fn shards_with_notes(self) -> Set<u64> {
        self.noted@
    }

    /// Records `count` commitments in a row, the first at `start_position`, and the
    /// positions of the wallet's notes among them.
    pub fn feed(&mut self, start_position: u64, count: u64, note_positions: &Vec<u64>)
        requires
            count > 0 ==> start_position + count - 1 <= u64::MAX,
            old(self).commitments + count <= u64::MAX,
        ensures
            final(self).touched_shards() == old(self).touched_shards().union(
                shards_of_run(start_position, count),
            ),
            final(self).shards_with_notes() == old(self).shards_with_notes().union(
                shards_of(note_positions@),
            ),
            final(self).commitments == old(self).commitments + count,
    {
        let ghost touched = self.touched@;
        let ghost noted = self.noted@;
        if count > 0 {
            let first: u64 = start_position / SHARD_LEAVES;
            let last: u64 = (start_position + (count - 1)) / SHARD_LEAVES;
            let mut shard: u64 = first;
            loop
                invariant_except_break
                    first <= shard <= last,
                    self.touched@ == touched.union(Set::new(|s: u64| first <= s < shard)),
                invariant
                    self.noted@ == noted,
                    self.commitments == old(self).commitments,
                ensures
                    self.touched@ == touched.union(Set::new(|s: u64| first <= s <= last)),
                decreases last - shard,
            {
                let ghost before = self.touched@;
                self.touched.insert(shard);
                if shard == last {
                    assert(self.touched@ =~= touched.union(
                        Set::new(|s: u64| first <= s <= last),
                    ));
                    break;
                }
                shard = shard + 1;
                assert(self.touched@ =~= touched.union(Set::new(|s: u64| first <= s < shard)));
            }
            proof {
                let run = shards_of_run(start_position, count);
                assert forall|s: u64| run.contains(s) == (first <= s <= last) by {
                    if first <= s <= last {
                        let p = if s == first {
                            start_position as int
                        } else {
                            s * SHARD_LEAVES
                        };
                        assert(start_position <= p < start_position + count);
                        assert(s == shard_index(p));
                    }
                }
                assert(run =~= Set::new(|s: u64| first <= s <= last));
            }
            self.commitments = self.commitments + count;
        } else {
            assert(shards_of_run(start_position, count) =~= Set::<u64>::empty());
            assert(touched.union(Set::<u64>::empty()) =~= touched);
        }
        let mut i: usize = 0;
        assert(noted.union(shards_of(note_positions@.take(0))) =~= noted);
        while i < note_positions.len()
            invariant
                0 <= i <= note_positions@.len(),
                self.noted@ == noted.union(shards_of(note_positions@.take(i as int))),
                self.touched@ == touched.union(shards_of_run(start_position, count)),
                self.commitments == old(self).commitments + count,
            decreases note_positions@.len() - i,
        {
            self.noted.insert(note_positions[i] / SHARD_LEAVES);
            proof {
                let a = note_positions@.take(i as int);
                let b = note_positions@.take(i + 1);
                assert forall|s: u64| shards_of(b).contains(s) == shards_of(a).insert(
                    (note_positions@[i as int] / SHARD_LEAVES) as u64,
                ).contains(s) by {
                    if shards_of(a).contains(s) {
                        let k = choose|k: int|
                            0 <= k < a.len() && s == shard_index(#[trigger] a[k] as int);
                        assert(b[k] == a[k]);
                    }
                    if shards_of(b).contains(s) {
                        let k = choose|k: int|
                            0 <= k < b.len() && s == shard_index(#[trigger] b[k] as int);
                        if k < i {
                            assert(a[k] == b[k]);
                        }
                    }
                    assert(b[i as int] == note_positions@[i as int]);
                }
                assert(noted.union(shards_of(b)) =~= noted.union(shards_of(a)).insert(
                    (note_positions@[i as int] / SHARD_LEAVES) as u64,
                ));
            }
            i = i + 1;
        }
        assert(note_positions@.take(note_positions@.len() as int) =~= note_positions@);
    }

    /// Adds another census.
    pub fn merge(&mut self, other: &ShardCensus)
        requires
            old(self).commitments + other.commitments <= u64::MAX,
        ensures
            final(self).touched_shards() == old(self).touched_shards().union(
                other.touched_shards(),
            ),
            final(self).shards_with_notes() == old(self).shards_with_notes().union(
                other.shards_with_notes(),
            ),
            final(self).commitments == old(self).commitments + other.commitments,
    {
        add_all(&mut self.touched, &other.touched);
        add_all(&mut self.noted, &other.noted);
        self.commitments = self.commitments + other.commitments;
    }

    /// How many shards were touched.
    pub fn shards(&self) -> (n: u64)
        ensures
            n == self.touched_shards().len(),
    {
        self.touched.len() as u64
    }

    /// How many shards hold notes.
    pub fn noted_shards(&self) -> (n: u64)
        ensures
            n == self.shards_with_notes().len(),
    {
        self.noted.len() as u64
    }

    /// The part of the touched shards that need not be built, as far as the counts tell: all
    /// but one for each shard with notes and one for the tip.
    pub open spec fn graftable(self) -> Fraction {
        let touched = self.touched_shards().len();
        let built = self.shards_with_notes().len() + 1;
        if touched == 0 {
            Fraction { numerator: 0, denominator: 1 }
        } else {
            Fraction {
                numerator: if built >= touched {
                    0
                } else {
                    (touched - built) as u64
                },
                denominator: touched as u64,
            }
        }
    }

    /// The part of the touched shards that need not be built.
    pub fn graftable_fraction(&self) -> (r: Fraction)
        ensures
            r == self.graftable(),
    {
        let touched: u64 = self.shards();
        let noted: u64 = self.noted_shards();
        if touched == 0 {
            return Fraction { numerator: 0, denominator: 1 };
        }
        if noted >= touched - 1 {
            return Fraction { numerator: 0, denominator: touched };
        }
        Fraction { numerator: touched - noted - 1, denominator: touched }
    }
}

/// The first `n` keys.
spec fn first_keys(keys: Seq<&u64>, n: int) -> Set<u64> {
    keys.unref().take(n).to_set()
}

proof fn lemma_first_keys(keys: Seq<&u64>, n: int)
    requires
        0 <= n < keys.len(),
    ensures
        first_keys(keys, n + 1) == first_keys(keys, n).insert(*keys[n]),
{
    let a = keys.unref().take(n);
    let b = keys.unref().take(n + 1);
    assert(b =~= a.push(*keys[n]));
    assert forall|k: u64| b.contains(k) == (a.contains(k) || k == *keys[n]) by {
        if a.contains(k) {
            let j = choose|j: int| 0 <= j < a.len() && a[j] == k;
            assert(b[j] == k);
        }
        assert(b[n] == *keys[n]);
        if b.contains(k) && k != *keys[n] {
            let j = choose|j: int| 0 <= j < b.len() && b[j] == k;
            assert(a[j] == k);
        }
    }
    assert(first_keys(keys, n + 1) =~= first_keys(keys, n).insert(*keys[n]));
}

/// Adds the elements of one set to another.
fn add_all(set: &mut BTreeSet<u64>, other: &BTreeSet<u64>)
    ensures
        final(set)@ == old(set)@.union(other@),
{
    let ghost start = set@;
    proof {
        let keys = spec_btree_keys_iter(other).remaining();
        assert(keys.unref().take(keys.len() as int) =~= keys.unref());
        assert(start.union(Seq::<u64>::empty().to_set()) =~= start);
    }
    for x in it: other.iter()
        invariant
            first_keys(it.seq(), it.seq().len() as int) == other@,
            set@ == start.union(first_keys(it.seq(), it.index())),
    {
        proof {
            lemma_first_keys(it.seq(), it.index());
        }
        set.insert(*x);
        assert(set@ =~= start.union(first_keys(it.seq(), it.index() + 1)));
    }
}

/// Feeding two runs that follow each other touches what feeding the whole run does.
pub proof fn law_census_of_adjacent_runs(start: u64, first: u64, second: u64)
    requires
        start + first + second <= u64::MAX,
    ensures
        shards_of_run(start, first).union(shards_of_run((start + first) as u64, second))
            == shards_of_run(start, (first + second) as u64),
{
    let whole = shards_of_run(start, (first + second) as u64);
    let parts = shards_of_run(start, first).union(shards_of_run((start + first) as u64, second));
    assert forall|s: u64| whole.contains(s) == parts.contains(s) by {
        if whole.contains(s) {
            let p = choose|p: int|
                start <= p < start + (first + second) as u64 && s == #[trigger] shard_index(p);
            if p < start + first {
                assert(shards_of_run(start, first).contains(s));
            } else {
                assert(shards_of_run((start + first) as u64, second).contains(s));
            }
        }
    }
    assert(whole =~= parts);
}

/// The census of one pool in a benchmark's summary. A number that is no integer
/// is held as its text.
#[derive(Debug)]
pub struct PoolCensusOut {
    pub shards: u64,
    pub noted_shards: u64,
    pub commitments: u64,
    pub graftable_fraction: String,
}

impl PoolCensusOut {
    /// The census, with the text of its graftable fraction.
    pub fn of(c: &ShardCensus, graftable_fraction: String) -> (r: PoolCensusOut)
        ensures
            r.shards == c.touched_shards().len(),
            r.noted_shards == c.shards_with_notes().len(),
            r.commitments == c.commitments,
            r.graftable_fraction == graftable_fraction,
    {
        PoolCensusOut {
            shards: c.shards(),
            noted_shards: c.noted_shards(),
            commitments: c.commitments,
            graftable_fraction,
        }
    }

    /// The census as a JSON object.
    pub open spec fn json(self) -> Seq<char> {
        "{\"shards\":"@ + dec(self.shards as nat) + ",\"noted_shards\":"@ + dec(
            self.noted_shards as nat,
        ) + ",\"commitments\":"@ + dec(self.commitments as nat) + ",\"graftable_fraction\":"@
            + self.graftable_fraction@ + "}"@
    }

    fn push_json(&self, out: &mut String)
        ensures
            final(out)@ == old(out)@ + self.json(),
    {
        let ghost before = out@;
        out.push_str("{\"shards\":");
        push_dec(out, self.shards);
        out.push_str(",\"noted_shards\":");
        push_dec(out, self.noted_shards);
        out.push_str(",\"commitments\":");
        push_dec(out, self.commitments);
        out.push_str(",\"graftable_fraction\":");
        out.push_str(self.graftable_fraction.as_str());
        out.push_str("}");
        assert(out@ =~= before + self.json());
    }
}

/// The summary of a benchmark. A number that is no integer is held as its text.
#[derive(Debug)]
pub struct BenchSummary {
    pub engine_build: String,
    /// Seconds of the whole pass.
    pub total_s: String,
    /// Seconds of the fetch.
    pub fetch_s: String,
    /// Average wire throughput, in MB/s.
    pub wire_mbps_avg: String,
    /// Worst sustained five seconds on the wire, in MB/s.
    pub wire_worst_5s_mbps: String,
    /// Milliseconds of the endpoint race.
    pub wire_probe_ms: String,
    /// Endpoint switches in the pass.
    pub wire_switches: u64,
    /// Seconds of the scan.
    pub scan_s: String,
    /// Seconds of the enhancement.
    pub enhance_s: String,
    /// Seconds spent waiting for the persist lane.
    pub persist_wait_s: String,
    /// Seconds in which the persist lane ran beside the scan.
    pub persist_overlap_s: String,
    /// Blocks of the pass.
    pub blocks: u64,
    /// Seconds of batched key decompression.
    pub batch_epk_s: String,
    /// The scan's seconds by what they went to.
    pub scan_recv_wait_s: String,
    pub scan_call_s: String,
    pub scan_prefetch_wait_s: String,
    pub scan_interleave_drain_s: String,
    pub scan_final_drain_s: String,
    pub scan_absorb_s: String,
    pub scan_state_prep_s: String,
    pub scan_prefetch_spawn_s: String,
    pub scan_submit_wait_s: String,
    pub scan_submit_extra_s: String,
    pub scan_reseed_s: String,
    pub scan_pass1_s: String,
    pub scan_pass2_s: String,
    /// The persist lane's calls, and its seconds by what they went to.
    pub persist_calls: u64,
    pub persist_rows_s: String,
    pub persist_tree_join_s: String,
    pub persist_flush_s: String,
    pub persist_downgrade_s: String,
    pub persist_build_s: String,
    pub persist_frontier_s: String,
    pub persist_insert_s: String,
    pub persist_ensure_s: String,
    /// Checkpoints downgraded.
    pub persist_downgraded: u64,
    /// The enhancement's seconds by what they went to.
    pub enhance_fetch_s: String,
    pub enhance_store_s: String,
    pub enhance_address_s: String,
    pub sapling: PoolCensusOut,
    pub orchard: PoolCensusOut,
}

impl BenchSummary {
    /// The summary as a JSON object.
    pub open spec fn json(self) -> Seq<char> {
        "{\"engine_build\":\""@ + self.engine_build@ + "\""@
            + ",\"total_s\":"@ + self.total_s@
            + ",\"fetch_s\":"@ + self.fetch_s@
            + ",\"wire_mbps_avg\":"@ + self.wire_mbps_avg@
            + ",\"wire_worst_5s_mbps\":"@ + self.wire_worst_5s_mbps@
            + ",\"wire_probe_ms\":"@ + self.wire_probe_ms@
            + ",\"wire_switches\":"@ + dec(self.wire_switches as nat)
            + ",\"scan_s\":"@ + self.scan_s@
            + ",\"enhance_s\":"@ + self.enhance_s@
            + ",\"persist_wait_s\":"@ + self.persist_wait_s@
            + ",\"persist_overlap_s\":"@ + self.persist_overlap_s@
            + ",\"blocks\":"@ + dec(self.blocks as nat)
            + ",\"batch_epk_s\":"@ + self.batch_epk_s@
            + ",\"scan_recv_wait_s\":"@ + self.scan_recv_wait_s@
            + ",\"scan_call_s\":"@ + self.scan_call_s@
            + ",\"scan_prefetch_wait_s\":"@ + self.scan_prefetch_wait_s@
            + ",\"scan_interleave_drain_s\":"@ + self.scan_interleave_drain_s@
            + ",\"scan_final_drain_s\":"@ + self.scan_final_drain_s@
            + ",\"scan_absorb_s\":"@ + self.scan_absorb_s@
            + ",\"scan_state_prep_s\":"@ + self.scan_state_prep_s@
            + ",\"scan_prefetch_spawn_s\":"@ + self.scan_prefetch_spawn_s@
            + ",\"scan_submit_wait_s\":"@ + self.scan_submit_wait_s@
            + ",\"scan_submit_extra_s\":"@ + self.scan_submit_extra_s@
            + ",\"scan_reseed_s\":"@ + self.scan_reseed_s@
            + ",\"scan_pass1_s\":"@ + self.scan_pass1_s@
            + ",\"scan_pass2_s\":"@ + self.scan_pass2_s@
            + ",\"persist_calls\":"@ + dec(self.persist_calls as nat)
            + ",\"persist_rows_s\":"@ + self.persist_rows_s@
            + ",\"persist_tree_join_s\":"@ + self.persist_tree_join_s@
            + ",\"persist_flush_s\":"@ + self.persist_flush_s@
            + ",\"persist_downgrade_s\":"@ + self.persist_downgrade_s@
            + ",\"persist_build_s\":"@ + self.persist_build_s@
            + ",\"persist_frontier_s\":"@ + self.persist_frontier_s@
            + ",\"persist_insert_s\":"@ + self.persist_insert_s@
            + ",\"persist_ensure_s\":"@ + self.persist_ensure_s@
            + ",\"persist_downgraded\":"@ + dec(self.persist_downgraded as nat)
            + ",\"enhance_fetch_s\":"@ + self.enhance_fetch_s@
            + ",\"enhance_store_s\":"@ + self.enhance_store_s@
            + ",\"enhance_address_s\":"@ + self.enhance_address_s@
            + ",\"sapling\":"@ + self.sapling.json()
            + ",\"orchard\":"@ + self.orchard.json() + "}"@
    }

    /// The summary as a JSON object.
    pub fn to_json(&self) -> (r: String)
        ensures
            r@ == self.json(),
    {
        let mut s: String = "{\"engine_build\":\"".to_owned();
        s.push_str(self.engine_build.as_str());
        s.push_str("\"");
        s.push_str(",\"total_s\":");
        s.push_str(self.total_s.as_str());
        s.push_str(",\"fetch_s\":");
        s.push_str(self.fetch_s.as_str());
        s.push_str(",\"wire_mbps_avg\":");
        s.push_str(self.wire_mbps_avg.as_str());
        s.push_str(",\"wire_worst_5s_mbps\":");
        s.push_str(self.wire_worst_5s_mbps.as_str());
        s.push_str(",\"wire_probe_ms\":");
        s.push_str(self.wire_probe_ms.as_str());
        s.push_str(",\"wire_switches\":");
        push_dec(&mut s, self.wire_switches);
        s.push_str(",\"scan_s\":");
        s.push_str(self.scan_s.as_str());
        s.push_str(",\"enhance_s\":");
        s.push_str(self.enhance_s.as_str());
        s.push_str(",\"persist_wait_s\":");
        s.push_str(self.persist_wait_s.as_str());
        s.push_str(",\"persist_overlap_s\":");
        s.push_str(self.persist_overlap_s.as_str());
        s.push_str(",\"blocks\":");
        push_dec(&mut s, self.blocks);
        s.push_str(",\"batch_epk_s\":");
        s.push_str(self.batch_epk_s.as_str());
        s.push_str(",\"scan_recv_wait_s\":");
        s.push_str(self.scan_recv_wait_s.as_str());
        s.push_str(",\"scan_call_s\":");
        s.push_str(self.scan_call_s.as_str());
        s.push_str(",\"scan_prefetch_wait_s\":");
        s.push_str(self.scan_prefetch_wait_s.as_str());
        s.push_str(",\"scan_interleave_drain_s\":");
        s.push_str(self.scan_interleave_drain_s.as_str());
        s.push_str(",\"scan_final_drain_s\":");
        s.push_str(self.scan_final_drain_s.as_str());
        s.push_str(",\"scan_absorb_s\":");
        s.push_str(self.scan_absorb_s.as_str());
        s.push_str(",\"scan_state_prep_s\":");
        s.push_str(self.scan_state_prep_s.as_str());
        s.push_str(",\"scan_prefetch_spawn_s\":");
        s.push_str(self.scan_prefetch_spawn_s.as_str());
        s.push_str(",\"scan_submit_wait_s\":");
        s.push_str(self.scan_submit_wait_s.as_str());
        s.push_str(",\"scan_submit_extra_s\":");
        s.push_str(self.scan_submit_extra_s.as_str());
        s.push_str(",\"scan_reseed_s\":");
        s.push_str(self.scan_reseed_s.as_str());
        s.push_str(",\"scan_pass1_s\":");
        s.push_str(self.scan_pass1_s.as_str());
        s.push_str(",\"scan_pass2_s\":");
        s.push_str(self.scan_pass2_s.as_str());
        s.push_str(",\"persist_calls\":");
        push_dec(&mut s, self.persist_calls);
        s.push_str(",\"persist_rows_s\":");
        s.push_str(self.persist_rows_s.as_str());
        s.push_str(",\"persist_tree_join_s\":");
        s.push_str(self.persist_tree_join_s.as_str());
        s.push_str(",\"persist_flush_s\":");
        s.push_str(self.persist_flush_s.as_str());
        s.push_str(",\"persist_downgrade_s\":");
        s.push_str(self.persist_downgrade_s.as_str());
        s.push_str(",\"persist_build_s\":");
        s.push_str(self.persist_build_s.as_str());
        s.push_str(",\"persist_frontier_s\":");
        s.push_str(self.persist_frontier_s.as_str());
        s.push_str(",\"persist_insert_s\":");
        s.push_str(self.persist_insert_s.as_str());
        s.push_str(",\"persist_ensure_s\":");
        s.push_str(self.persist_ensure_s.as_str());
        s.push_str(",\"persist_downgraded\":");
        push_dec(&mut s, self.persist_downgraded);
        s.push_str(",\"enhance_fetch_s\":");
        s.push_str(self.enhance_fetch_s.as_str());
        s.push_str(",\"enhance_store_s\":");
        s.push_str(self.enhance_store_s.as_str());
        s.push_str(",\"enhance_address_s\":");
        s.push_str(self.enhance_address_s.as_str());
        s.push_str(",\"sapling\":");
        self.sapling.push_json(&mut s);
        s.push_str(",\"orchard\":");
        self.orchard.push_json(&mut s);
        s.push_str("}");
        s
    }
}

/// A shard holds 65536 positions in a row, and a run touches exactly the shards that one of
/// its positions lies in: from that of its first to that of its last, none where it is empty.
pub proof fn law_run_touches_its_shards(start: u64, count: u64, shard: u64)
    ensures
        shards_of_run(start, count).contains(shard) <==> count > 0 && start < 65_536 * (shard + 1)
            && 65_536 * shard < start + count,
{
    if shards_of_run(start, count).contains(shard) {
        let p = choose|p: int| start <= p < start + count && shard == #[trigger] shard_index(p);
        assert(65_536 * shard <= p < 65_536 * (shard + 1));
    }
    if count > 0 && start < 65_536 * (shard + 1) && 65_536 * shard < start + count {
        let p = if start <= 65_536 * shard {
            65_536 * shard
        } else {
            start as int
        };
        assert(shard == shard_index(p));
    }
}

/// A note makes its own shard one with notes, and no other.
pub proof fn law_notes_mark_their_shards(positions: Seq<u64>, position: u64, shard: u64)
    ensures
        shards_of(Seq::empty()) == Set::<u64>::empty(),
        shards_of(positions.push(position)).contains(shard) <==> shards_of(positions).contains(
            shard,
        ) || 65_536 * shard <= position < 65_536 * (shard + 1),
{
    assert(shards_of(Seq::empty()) =~= Set::<u64>::empty());
    let all = positions.push(position);
    assert(all[positions.len() as int] == position);
    if shards_of(positions).contains(shard) {
        let i = choose|i: int|
            0 <= i < positions.len() && shard == shard_index(#[trigger] positions[i] as int);
        assert(all[i] == positions[i]);
    }
    if shards_of(all).contains(shard) {
        let i = choose|i: int|
            0 <= i < all.len() && shard == shard_index(#[trigger] all[i] as int);
        if i < positions.len() {
            assert(positions[i] == all[i]);
        }
    }
    if 65_536 * shard <= position < 65_536 * (shard + 1) {
        assert(shard == shard_index(all[positions.len() as int] as int));
    }
}

/// The graftable part is of the touched shards: what is built besides it is one shard for the
/// tip and one for each shard with notes, and nothing is graftable where that is all.
pub proof fn law_graftable_part(c: ShardCensus)
    requires
        c.touched_shards().len() <= u64::MAX,
    ensures
        ({
            let f = c.graftable();
            let touched = c.touched_shards().len();
            let noted = c.shards_with_notes().len();
            &&& touched == 0 ==> f.numerator == 0 && f.denominator == 1
            &&& touched > 0 ==> f.denominator == touched
            &&& touched > noted + 1 ==> f.numerator + noted + 1 == touched
            &&& touched <= noted + 1 ==> f.numerator == 0
        }),
        c.touched_shards() == c.touched@,
        c.shards_with_notes() == c.noted@,
{
}

/// The census of a pool as JSON has its shards, those with notes, its commitments and the
/// graftable fraction under their names.
pub proof fn law_pool_census_holds_every_field(s: PoolCensusOut)
    ensures
        s.json() == "{\"shards\":"@ + dec(s.shards as nat) + ",\"noted_shards\":"@ + dec(
            s.noted_shards as nat,
        ) + ",\"commitments\":"@ + dec(s.commitments as nat) + ",\"graftable_fraction\":"@
            + s.graftable_fraction@ + "}"@,
{
}

/// The summary of a benchmark as JSON has every number under its name.
pub proof fn law_summary_holds_every_field(s: BenchSummary)
    ensures
        s.json() == "{\"engine_build\":\""@ + s.engine_build@ + "\""@
            + ",\"total_s\":"@ + s.total_s@
            + ",\"fetch_s\":"@ + s.fetch_s@
            + ",\"wire_mbps_avg\":"@ + s.wire_mbps_avg@
            + ",\"wire_worst_5s_mbps\":"@ + s.wire_worst_5s_mbps@
            + ",\"wire_probe_ms\":"@ + s.wire_probe_ms@
            + ",\"wire_switches\":"@ + dec(s.wire_switches as nat)
            + ",\"scan_s\":"@ + s.scan_s@
            + ",\"enhance_s\":"@ + s.enhance_s@
            + ",\"persist_wait_s\":"@ + s.persist_wait_s@
            + ",\"persist_overlap_s\":"@ + s.persist_overlap_s@
            + ",\"blocks\":"@ + dec(s.blocks as nat)
            + ",\"batch_epk_s\":"@ + s.batch_epk_s@
            + ",\"scan_recv_wait_s\":"@ + s.scan_recv_wait_s@
            + ",\"scan_call_s\":"@ + s.scan_call_s@
            + ",\"scan_prefetch_wait_s\":"@ + s.scan_prefetch_wait_s@
            + ",\"scan_interleave_drain_s\":"@ + s.scan_interleave_drain_s@
            + ",\"scan_final_drain_s\":"@ + s.scan_final_drain_s@
            + ",\"scan_absorb_s\":"@ + s.scan_absorb_s@
            + ",\"scan_state_prep_s\":"@ + s.scan_state_prep_s@
            + ",\"scan_prefetch_spawn_s\":"@ + s.scan_prefetch_spawn_s@
            + ",\"scan_submit_wait_s\":"@ + s.scan_submit_wait_s@
            + ",\"scan_submit_extra_s\":"@ + s.scan_submit_extra_s@
            + ",\"scan_reseed_s\":"@ + s.scan_reseed_s@
            + ",\"scan_pass1_s\":"@ + s.scan_pass1_s@
            + ",\"scan_pass2_s\":"@ + s.scan_pass2_s@
            + ",\"persist_calls\":"@ + dec(s.persist_calls as nat)
            + ",\"persist_rows_s\":"@ + s.persist_rows_s@
            + ",\"persist_tree_join_s\":"@ + s.persist_tree_join_s@
            + ",\"persist_flush_s\":"@ + s.persist_flush_s@
            + ",\"persist_downgrade_s\":"@ + s.persist_downgrade_s@
            + ",\"persist_build_s\":"@ + s.persist_build_s@
            + ",\"persist_frontier_s\":"@ + s.persist_frontier_s@
            + ",\"persist_insert_s\":"@ + s.persist_insert_s@
            + ",\"persist_ensure_s\":"@ + s.persist_ensure_s@
            + ",\"persist_downgraded\":"@ + dec(s.persist_downgraded as nat)
            + ",\"enhance_fetch_s\":"@ + s.enhance_fetch_s@
            + ",\"enhance_store_s\":"@ + s.enhance_store_s@
            + ",\"enhance_address_s\":"@ + s.enhance_address_s@
            + ",\"sapling\":"@ + s.sapling.json()
            + ",\"orchard\":"@ + s.orchard.json() + "}"@,
{
}

} // verus!
