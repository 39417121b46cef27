//! The reorder stage. Sub-chunks arrive in any order across the workers and are
//! released strictly by plan chunk and sub-chunk; a plan chunk is left only after
//! its final sub-chunk.
use crate::block_source::{wire_total, Chunk, CompactBlock};
use crate::error::SlipstreamError;
use crate::fetch::detector::{DetectorModel, WireDetector};
use crate::fetch::plan::WireFailoverArm;
use crate::fetch::pump::SubChunk;
use crate::text::dec;
use std::collections::BTreeMap;
use vstd::prelude::*;

verus! {

broadcast use vstd::laws_cmp::group_laws_cmp;

/// The last block of a chain that was released so far.
#[derive(Debug)]
pub struct Continuity {
    last: Option<(u64, Vec<u8>)>,
}

/// What a block must link to: the height and the hash of its predecessor.
pub type Link = Option<(u64, Seq<u8>)>;

/// The link that a block gives to its successor.
pub open spec fn link_of(block: CompactBlock) -> Link {
    Some((block.height, block.hash@))
}

/// Whether a block continues the chain: the next height, and the hash of its
/// predecessor. The first block of all continues it.
pub open spec fn continues(link: Link, block: CompactBlock) -> bool {
    match link {
        None => true,
        Some((height, hash)) => block.height == height + 1 && block.prev_hash@ == hash,
    }
}

/// The link before the `i`-th block.
pub open spec fn link_before(link: Link, blocks: Seq<CompactBlock>, i: int) -> Link {
    if i <= 0 {
        link
    } else {
        link_of(blocks[i - 1])
    }
}

/// Whether all blocks continue the chain.
pub open spec fn all_continue(link: Link, blocks: Seq<CompactBlock>) -> bool {
    forall|i: int|
        0 <= i < blocks.len() ==> continues(link_before(link, blocks, i), #[trigger] blocks[i])
}

/// Whether `i` is the first block that does not continue the chain.
pub open spec fn first_break(link: Link, blocks: Seq<CompactBlock>, i: int) -> bool {
    &&& 0 <= i < blocks.len()
    &&& !continues(link_before(link, blocks, i), blocks[i])
    &&& forall|j: int|
        0 <= j < i ==> continues(link_before(link, blocks, j), #[trigger] blocks[j])
}

/// Whether `at` is the link before the first block that does not continue the chain.
pub open spec fn link_at_break(link: Link, blocks: Seq<CompactBlock>, at: Link) -> bool {
    exists|i: int| #[trigger] first_break(link, blocks, i) && at == link_before(link, blocks, i)
}

/// A height as an error reports it.
pub open spec fn reported_height(height: u64) -> u32 {
    if height > u32::MAX {
        u32::MAX
    } else {
        height as u32
    }
}

/// What an error says of a block that does not continue the chain after `link`.
pub open spec fn break_detail(link: Link, block: CompactBlock) -> Seq<char> {
    match link {
        Some((height, hash)) => if block.height != height + 1 {
            "expected height "@ + dec((height + 1) as nat)
        } else {
            "prev-hash mismatch"@
        },
        None => ""@,
    }
}

/// Whether an error tells of the first block that does not continue the chain.
pub open spec fn tells_break(e: SlipstreamError, link: Link, blocks: Seq<CompactBlock>) -> bool {
    exists|i: int| #[trigger]
        first_break(link, blocks, i) && (e matches SlipstreamError::Discontinuity { at, detail }
            && at == reported_height(blocks[i].height) && detail@ == break_detail(
            link_before(link, blocks, i),
            blocks[i],
        ))
}

/// Blocks continue a chain as a whole exactly where they do so one run after the other:
/// what is released is one chain, and no run of a chain is refused.
pub proof fn law_released_runs_are_one_chain(
    link: Link,
    first: Seq<CompactBlock>,
    second: Seq<CompactBlock>,
)
    ensures
        all_continue(link, first + second) <==> all_continue(link, first) && all_continue(
            link_before(link, first, first.len() as int),
            second,
        ),
        link_before(link, first + second, (first + second).len() as int) == link_before(
            link_before(link, first, first.len() as int),
            second,
            second.len() as int,
        ),
{
    let whole = first + second;
    let between = link_before(link, first, first.len() as int);
    assert forall|i: int| 0 <= i < first.len() implies #[trigger] whole[i] == first[i]
        && link_before(link, whole, i) == link_before(link, first, i) by {}
    assert forall|k: int| 0 <= k < second.len() implies whole[first.len() + k]
        == #[trigger] second[k] && link_before(link, whole, first.len() + k) == link_before(
        between,
        second,
        k,
    ) by {}
    if all_continue(link, whole) {
        assert forall|i: int| 0 <= i < first.len() implies continues(
            link_before(link, first, i),
            #[trigger] first[i],
        ) by {
            assert(whole[i] == first[i]);
        }
        assert forall|k: int| 0 <= k < second.len() implies continues(
            link_before(between, second, k),
            #[trigger] second[k],
        ) by {
            assert(whole[first.len() + k] == second[k]);
        }
    }
    if all_continue(link, first) && all_continue(between, second) {
        assert forall|i: int| 0 <= i < whole.len() implies continues(
            link_before(link, whole, i),
            #[trigger] whole[i],
        ) by {
            if i >= first.len() {
                assert(whole[i] == second[i - first.len()]);
            } else {
                assert(whole[i] == first[i]);
            }
        }
    }
}

fn bytes_equal(a: &Vec<u8>, b: &Vec<u8>) -> (r: bool)
    ensures
        r == (a@ == b@),
{
    if a.len() != b.len() {
        return false;
    }
    let mut i: usize = 0;
    while i < a.len()
        invariant
            0 <= i <= a@.len(),
            a@.len() == b@.len(),
            forall|j: int| 0 <= j < i ==> a@[j] == b@[j],
        decreases a@.len() - i,
    {
        if a[i] != b[i] {
            return false;
        }
        i = i + 1;
    }
    assert(a@ =~= b@);
    true
}

fn copy_bytes(a: &Vec<u8>) -> (r: Vec<u8>)
    ensures
        r@ == a@,
{
    let mut out: Vec<u8> = Vec::new();
    let mut i: usize = 0;
    while i < a.len()
        invariant
            0 <= i <= a@.len(),
            out@ == a@.take(i as int),
        decreases a@.len() - i,
    {
        out.push(a[i]);
        assert(a@.take(i + 1) =~= a@.take(i as int).push(a@[i as int]));
        i = i + 1;
    }
    assert(a@.take(a@.len() as int) =~= a@);
    out
}

impl Continuity {
    /// The height and the hash that the next block must link to.
    pub closed spec fn link(&self) -> Link {
        match self.last {
            Some((h, hash)) => Some((h, hash@)),
            None => None,
        }
    }

    /// No block was released yet.
    pub fn new() -> (r: Self)
        ensures
            r.link() is None,
    {
        Continuity { last: None }
    }

    /// Checks that the blocks continue the chain and moves past them. The first
    /// one that does not is reported, and the chain ends before it.
    pub fn verify_blocks(&mut self, blocks: &Vec<CompactBlock>) -> (r: Result<(), SlipstreamError>)
        ensures
            r is Ok <==> all_continue(old(self).link(), blocks@),
            r is Ok ==> final(self).link() == link_before(
                old(self).link(),
                blocks@,
                blocks@.len() as int,
            ),
            r matches Err(e) ==> tells_break(e, old(self).link(), blocks@) && link_at_break(
                old(self).link(),
                blocks@,
                final(self).link(),
            ),
    {
        let ghost link0 = self.link();
        let mut i: usize = 0;
        while i < blocks.len()
            invariant
                0 <= i <= blocks@.len(),
                link0 == old(self).link(),
                self.link() == link_before(link0, blocks@, i as int),
                forall|j: int|
                    0 <= j < i ==> continues(link_before(link0, blocks@, j), #[trigger] blocks@[j]),
            decreases blocks@.len() - i,
        {
            let b: &CompactBlock = &blocks[i];
            let mut broken: Option<String> = None;
            match &self.last {
                Some((height, hash)) => {
                    let expected: Option<u64> = height.checked_add(1);
                    let right: bool = match expected {
                        Some(e) => b.height == e,
                        None => false,
                    };
                    if !right {
                        let mut d: String = "expected height ".to_owned();
                        let n: String = crate::text::u128_to_dec(*height as u128 + 1);
                        d.push_str(n.as_str());
                        broken = Some(d);
                    } else if !bytes_equal(&b.prev_hash, hash) {
                        broken = Some("prev-hash mismatch".to_owned());
                    }
                },
                None => {},
            }
            match broken {
                Some(detail) => {
                    let at: u32 = if b.height > 0xffff_ffff {
                        0xffff_ffff
                    } else {
                        b.height as u32
                    };
                    assert(first_break(old(self).link(), blocks@, i as int));
                    return Err(SlipstreamError::Discontinuity { at, detail });
                },
                None => {},
            }
            assert(continues(link_before(link0, blocks@, i as int), blocks@[i as int]));
            self.last = Some((b.height, copy_bytes(&b.hash)));
            i = i + 1;
        }
        Ok(())
    }
}

/// The place of a sub-chunk in the release order.
pub type Key = (u64, u64);

/// Whether one place comes before another.
pub open spec fn key_lt(a: Key, b: Key) -> bool {
    a.0 < b.0 || (a.0 == b.0 && a.1 < b.1)
}

/// The place that is released after a sub-chunk at `key`.
pub open spec fn next_key(key: Key, is_last: bool) -> Key {
    if is_last {
        ((key.0 + 1) as u64, 0)
    } else {
        (key.0, (key.1 + 1) as u64)
    }
}

/// The place of a sub-chunk.
pub open spec fn key_of(sub: SubChunk) -> Key {
    (sub.plan_index, sub.sub_index)
}

/// A sub-chunk as a worker makes it: its bytes are those of its blocks, and its
/// place has a successor.
pub open spec fn sub_ok(sub: SubChunk) -> bool {
    &&& sub.bytes == wire_total(sub.blocks@)
    &&& sub.plan_index < u64::MAX
    &&& sub.sub_index < u64::MAX
}

/// The totals of a release.
#[derive(Debug, Default)]
pub struct ReleaseSummary {
    pub blocks: u64,
    pub bytes: u64,
    /// Plan chunks whose final sub-chunk was released.
    pub plans_released: u64,
    /// The time of each arrival in nanoseconds since the fetch began, and all
    /// bytes that had arrived by then.
    pub wire_samples: Vec<(u64, u64)>,
}

/// What was released.
#[derive(Debug)]
pub struct Released {
    pub chunk: Chunk,
    pub plan_index: u64,
    /// The plan chunk that is released from now on, where this sub-chunk was the
    /// final one of its own.
    pub new_floor: Option<u64>,
}

/// The reorder stage of one fetch.
pub struct ReleaseStage {
    pending: BTreeMap<(u64, u64), SubChunk>,
    next: (u64, u64),
    emitted_chunks: u64,
    continuity: Continuity,
    summary: ReleaseSummary,
    wire_cum: u64,
    detector: Option<WireDetector>,
}

/// The detector of a stage, where it is armed.
pub open spec fn detector_model(d: Option<WireDetector>) -> Option<DetectorModel> {
    match d {
        Some(d) => Some(d@),
        None => None,
    }
}

impl ReleaseStage {
    /// What waits for its turn.
    pub closed spec fn pending(&self) -> Map<Key, SubChunk> {
        self.pending@
    }

    /// The place that is released next.
    pub closed spec fn next(&self) -> Key {
        self.next
    }

    /// The number of chunks that were released.
    pub closed spec fn emitted(&self) -> u64 {
        self.emitted_chunks
    }

    /// What the next released block must link to.
    pub closed spec fn link(&self) -> Link {
        self.continuity.link()
    }

    /// The totals so far.
    pub closed spec fn totals(&self) -> ReleaseSummary {
        self.summary
    }

    /// All bytes that have arrived.
    pub closed spec fn arrived(&self) -> u64 {
        self.wire_cum
    }

    /// The detector, where it is armed.
    pub closed spec fn detection(&self) -> Option<DetectorModel> {
        detector_model(self.detector)
    }

    /// Every waiting sub-chunk is in order and stands at its own place, and the
    /// detector has seen the same bytes.
    pub open spec fn valid(&self) -> bool {
        &&& forall|k: Key| #[trigger]
            self.pending().contains_key(k) ==> sub_ok(self.pending()[k]) && key_of(
                self.pending()[k],
            ) == k
        &&& self.detection() matches Some(d) ==> d.cum_bytes == self.arrived()
    }

    /// A stage at the start of a fetch.
    pub fn new(failover: Option<WireFailoverArm>) -> (r: Self)
        ensures
            r.valid(),
            r.pending() == Map::<Key, SubChunk>::empty(),
            r.next() == (0u64, 0u64),
            r.emitted() == 0,
            r.link() is None,
            r.stands_after(Seq::empty()),
            r.totals().blocks == 0,
            r.totals().bytes == 0,
            r.totals().plans_released == 0,
            r.totals().wire_samples@ == Seq::<(u64, u64)>::empty(),
            r.arrived() == 0,
            r.detection() is Some <==> failover is Some,
            failover matches Some(arm) ==> r.detection() == Some(
                (DetectorModel {
                    arm,
                    samples: Seq::empty(),
                    cum_bytes: 0,
                    starve_secs: 0,
                    best_window: 0,
                }),
            ),
    {
        let detector: Option<WireDetector> = match failover {
            Some(arm) => Some(WireDetector::new(arm)),
            None => None,
        };
        ReleaseStage {
            pending: BTreeMap::new(),
            next: (0, 0),
            emitted_chunks: 0,
            continuity: Continuity::new(),
            summary: ReleaseSummary {
                blocks: 0,
                bytes: 0,
                plans_released: 0,
                wire_samples: Vec::new(),
            },
            wire_cum: 0,
            detector,
        }
    }

    /// Whether the stage stands where a history of arrivals and releases leads, linked to the
    /// last released block, its totals too as long as they fit.
    pub open spec fn stands_after(&self, ops: Seq<ReleaseOp>) -> bool {
        let m = run(ops);
        &&& self.pending() == m.pending
        &&& self.next() == m.next
        &&& self.link() == link_after(m.log)
        &&& m.log.len() <= u64::MAX ==> self.emitted() == m.log.len()
        &&& m.blocks <= u64::MAX ==> self.totals().blocks == m.blocks
        &&& m.bytes <= u64::MAX ==> self.totals().bytes == m.bytes
        &&& m.plans_released <= u64::MAX ==> self.totals().plans_released == m.plans_released
    }

    /// One second passed without an arrival; fails where the armed detector fires.
    pub fn starve_tick(&mut self, now: u64) -> (r: Result<(), SlipstreamError>)
        requires
            old(self).valid(),
            old(self).detection() matches Some(d) ==> d.starve_secs < u64::MAX,
        ensures
            final(self).valid(),
            final(self).pending() == old(self).pending(),
            final(self).next() == old(self).next(),
            final(self).emitted() == old(self).emitted(),
            final(self).link() == old(self).link(),
            final(self).totals() == old(self).totals(),
            final(self).arrived() == old(self).arrived(),
            final(self).detection() == match old(self).detection() {
                Some(d) => Some((DetectorModel { starve_secs: d.starve_secs + 1, ..d })),
                None => None,
            },
            r is Err <==> (old(self).detection() matches Some(d) && d.fires_on_starve(now as int)),
            r matches Err(e) ==> old(self).detection()->Some_0.tells_stall(e),
    {
        let mut r: Result<(), SlipstreamError> = Ok(());
        match self.detector.take() {
            Some(mut d) => {
                r = d.starve_tick(now);
                self.detector = Some(d);
            },
            None => {},
        }
        assert(self.pending() == old(self).pending());
        r
    }

    /// A sub-chunk arrived: it is counted, shown to the armed detector and kept
    /// until its turn. Where the detector fires it is not kept.
    pub fn arrive(&mut self, sub: SubChunk, now: u64) -> (r: Result<(), SlipstreamError>)
        requires
            old(self).valid(),
            sub_ok(sub),
            old(self).arrived() + sub.bytes <= u64::MAX,
        ensures
            final(self).valid(),
            final(self).next() == old(self).next(),
            final(self).emitted() == old(self).emitted(),
            final(self).link() == old(self).link(),
            final(self).arrived() == old(self).arrived() + sub.bytes,
            final(self).totals().blocks == old(self).totals().blocks,
            final(self).totals().bytes == old(self).totals().bytes,
            final(self).totals().plans_released == old(self).totals().plans_released,
            final(self).totals().wire_samples@ == old(self).totals().wire_samples@.push(
                (now, final(self).arrived()),
            ),
            final(self).detection() == match old(self).detection() {
                Some(d) => Some(d.after_arrival(sub.bytes as nat, now)),
                None => None,
            },
            r is Err <==> (old(self).detection() matches Some(d) && d.fires_on_arrival(
                sub.bytes as nat,
                now,
            )),
            r matches Err(e) ==> final(self).detection()->Some_0.tells_collapse(e, now as int)
                && final(self).pending() == old(self).pending(),
            r is Ok ==> final(self).pending() == old(self).pending().insert(key_of(sub), sub),
            r is Ok ==> forall|ops: Seq<ReleaseOp>| #[trigger]
                old(self).stands_after(ops) ==> final(self).stands_after(
                    ops.push(ReleaseOp::Arrive(sub)),
                ),
    {
        let bytes: u64 = sub.bytes as u64;
        self.wire_cum = self.wire_cum + bytes;
        self.summary.wire_samples.push((now, self.wire_cum));
        let mut fired: Result<(), SlipstreamError> = Ok(());
        match self.detector.take() {
            Some(mut d) => {
                fired = d.arrival(bytes, now);
                self.detector = Some(d);
            },
            None => {},
        }
        assert(self.pending() == old(self).pending());
        if fired.is_err() {
            return fired;
        }
        let key: (u64, u64) = (sub.plan_index, sub.sub_index);
        let ghost kept = sub;
        self.pending.insert(key, sub);
        assert(self.pending() == old(self).pending().insert(key, kept));
        proof {
            assert forall|ops: Seq<ReleaseOp>| #[trigger] old(self).stands_after(ops) implies
                self.stands_after(ops.push(ReleaseOp::Arrive(kept))) by {
                assert(ops.push(ReleaseOp::Arrive(kept)).drop_last() =~= ops);
            }
        }
        Ok(())
    }

    /// Releases the sub-chunk whose turn it is, if it has arrived.
    pub fn release_next(&mut self) -> (r: Result<Option<Released>, SlipstreamError>)
        requires
            old(self).valid(),
        ensures
            final(self).valid(),
            final(self).arrived() == old(self).arrived(),
            final(self).detection() == old(self).detection(),
            r == Ok::<Option<Released>, SlipstreamError>(None) <==> !old(
                self,
            ).pending().contains_key(old(self).next()),
            r == Ok::<Option<Released>, SlipstreamError>(None) ==> *final(self) == *old(self),
            r is Err <==> old(self).pending().contains_key(old(self).next()) && !all_continue(
                old(self).link(),
                old(self).pending()[old(self).next()].blocks@,
            ),
            r matches Err(e) ==> {
                &&& tells_break(e, old(self).link(), old(self).pending()[old(self).next()].blocks@)
                &&& final(self).pending() == old(self).pending().remove(old(self).next())
                &&& final(self).next() == old(self).next()
                &&& final(self).emitted() == old(self).emitted()
                &&& final(self).totals() == old(self).totals()
                &&& link_at_break(
                    old(self).link(),
                    old(self).pending()[old(self).next()].blocks@,
                    final(self).link(),
                )
            },
            r is Ok ==> forall|ops: Seq<ReleaseOp>| #[trigger]
                old(self).stands_after(ops) ==> final(self).stands_after(
                    ops.push(ReleaseOp::Release),
                ),
            r matches Ok(Some(out)) ==> {
                let sub = old(self).pending()[old(self).next()];
                &&& final(self).pending() == old(self).pending().remove(old(self).next())
                &&& final(self).next() == next_key(old(self).next(), sub.is_last)
                &&& final(self).link() == link_before(
                    old(self).link(),
                    sub.blocks@,
                    sub.blocks@.len() as int,
                )
                &&& final(self).emitted() == old(self).emitted().wrapping_add(1)
                &&& final(self).totals().blocks == old(self).totals().blocks.wrapping_add(
                    sub.blocks@.len() as u64,
                )
                &&& final(self).totals().bytes == old(self).totals().bytes.wrapping_add(
                    sub.bytes as u64,
                )
                &&& final(self).totals().plans_released == if sub.is_last {
                    old(self).totals().plans_released.wrapping_add(1)
                } else {
                    old(self).totals().plans_released
                }
                &&& final(self).totals().wire_samples@ == old(self).totals().wire_samples@
                &&& out.chunk.index == old(self).emitted()
                &&& out.chunk.blocks@ == sub.blocks@
                &&& out.chunk.estimated_bytes == sub.bytes
                &&& out.plan_index == sub.plan_index
                &&& out.new_floor == if sub.is_last {
                    Some((sub.plan_index + 1) as u64)
                } else {
                    None
                }
            },
    {
        let key: (u64, u64) = self.next;
        let ghost had = self.pending@;
        if !self.pending.contains_key(&key) {
            proof {
                assert forall|ops: Seq<ReleaseOp>| #[trigger] old(self).stands_after(ops) implies
                    self.stands_after(ops.push(ReleaseOp::Release)) by {
                    assert(ops.push(ReleaseOp::Release).drop_last() =~= ops);
                }
            }
            return Ok(None);
        }
        let sub: SubChunk = self.pending.remove(&key).unwrap();
        assert(sub_ok(had[key]) && key_of(had[key]) == key);
        match self.continuity.verify_blocks(&sub.blocks) {
            Ok(_) => {},
            Err(e) => {
                assert(self.pending() == old(self).pending().remove(key));
                return Err(e);
            },
        }
        assert(self.pending() == old(self).pending().remove(key));
        let chunk: Chunk = Chunk::from_blocks(self.emitted_chunks, sub.blocks);
        let count: u64 = chunk.blocks.len() as u64;
        self.summary.blocks = self.summary.blocks.wrapping_add(count);
        self.summary.bytes = self.summary.bytes.wrapping_add(chunk.estimated_bytes);
        self.emitted_chunks = self.emitted_chunks.wrapping_add(1);
        let mut new_floor: Option<u64> = None;
        if sub.is_last {
            self.summary.plans_released = self.summary.plans_released.wrapping_add(1);
            self.next = (sub.plan_index + 1, 0);
            new_floor = Some(sub.plan_index + 1);
        } else {
            self.next = (self.next.0, self.next.1 + 1);
        }
        proof {
            assert forall|ops: Seq<ReleaseOp>| #[trigger] old(self).stands_after(ops) implies
                self.stands_after(ops.push(ReleaseOp::Release)) by {
                assert(ops.push(ReleaseOp::Release).drop_last() =~= ops);
                lemma_link_after_push(run(ops).log, had[key]);
            }
        }
        Ok(Some(Released { chunk, plan_index: sub.plan_index, new_floor }))
    }

    /// The totals at the end of the fetch.
    pub fn into_summary(self) -> (r: ReleaseSummary)
        ensures
            r == self.totals(),
    {
        self.summary
    }
}

/// The blocks of sub-chunks, one sub-chunk after the other.
pub open spec fn blocks_of(subs: Seq<SubChunk>) -> Seq<CompactBlock>
    decreases subs.len(),
{
    if subs.len() == 0 {
        Seq::empty()
    } else {
        blocks_of(subs.drop_last()) + subs.last().blocks@
    }
}

/// What a block must link to after these sub-chunks.
pub open spec fn link_after(subs: Seq<SubChunk>) -> Link {
    link_before(None, blocks_of(subs), blocks_of(subs).len() as int)
}

/// The link after one more sub-chunk is that after its blocks.
proof fn lemma_link_after_push(subs: Seq<SubChunk>, sub: SubChunk)
    ensures
        link_after(subs.push(sub)) == link_before(
            link_after(subs),
            sub.blocks@,
            sub.blocks@.len() as int,
        ),
{
    assert(subs.push(sub).drop_last() =~= subs);
    law_released_runs_are_one_chain(None, blocks_of(subs), sub.blocks@);
}

/// What can happen to a stage.
pub enum ReleaseOp {
    /// A sub-chunk arrived.
    Arrive(SubChunk),
    /// The next one was released, if it had arrived.
    Release,
}

/// What waits, what is next, and what was released so far: a released sub-chunk's place in
/// the log is the index of its chunk.
pub struct OrderModel {
    pub pending: Map<Key, SubChunk>,
    pub next: Key,
    pub log: Seq<SubChunk>,
    /// Blocks released.
    pub blocks: nat,
    /// Bytes released.
    pub bytes: nat,
    /// Plan chunks whose final sub-chunk was released.
    pub plans_released: nat,
    /// The plan chunk that is being released.
    pub floor: int,
}

/// A stage after a history of arrivals and releases.
pub open spec fn run(ops: Seq<ReleaseOp>) -> OrderModel
    decreases ops.len(),
{
    if ops.len() == 0 {
        OrderModel {
            pending: Map::empty(),
            next: (0, 0),
            log: Seq::empty(),
            blocks: 0,
            bytes: 0,
            plans_released: 0,
            floor: 0,
        }
    } else {
        let m = run(ops.drop_last());
        match ops.last() {
            ReleaseOp::Arrive(sub) => OrderModel {
                pending: m.pending.insert(key_of(sub), sub),
                ..m
            },
            ReleaseOp::Release => if m.pending.contains_key(m.next) {
                let sub = m.pending[m.next];
                OrderModel {
                    pending: m.pending.remove(m.next),
                    next: next_key(m.next, sub.is_last),
                    log: m.log.push(sub),
                    blocks: m.blocks + sub.blocks@.len(),
                    bytes: m.bytes + sub.bytes as nat,
                    plans_released: m.plans_released + if sub.is_last {
                        1nat
                    } else {
                        0nat
                    },
                    floor: if sub.is_last {
                        sub.plan_index + 1
                    } else {
                        m.floor
                    },
                }
            } else {
                m
            },
        }
    }
}

/// Whether all sub-chunks of a history are in order.
pub open spec fn arrivals_ok(ops: Seq<ReleaseOp>) -> bool {
    forall|i: int|
        0 <= i < ops.len() ==> ((#[trigger] ops[i]) matches ReleaseOp::Arrive(sub) ==> sub_ok(sub))
}

/// Whether a sub-chunk is among the arrivals of a history.
pub open spec fn arrived_in(ops: Seq<ReleaseOp>, sub: SubChunk) -> bool {
    exists|i: int| 0 <= i < ops.len() && #[trigger] ops[i] == ReleaseOp::Arrive(sub)
}

/// Whatever the order of arrival, sub-chunks are released strictly by plan chunk
/// and sub-chunk, each place at most once.
pub proof fn law_release_order(ops: Seq<ReleaseOp>)
    requires
        arrivals_ok(ops),
    ensures
        forall|i: int, j: int|
            0 <= i < j < run(ops).log.len() ==> key_lt(
                key_of(#[trigger] run(ops).log[i]),
                key_of(#[trigger] run(ops).log[j]),
            ),
        forall|i: int|
            0 <= i < run(ops).log.len() ==> key_lt(
                key_of(#[trigger] run(ops).log[i]),
                run(ops).next,
            ),
        forall|k: Key| #[trigger]
            run(ops).pending.contains_key(k) ==> key_of(run(ops).pending[k]) == k && sub_ok(
                run(ops).pending[k],
            ),
    decreases ops.len(),
{
    if ops.len() > 0 {
        let before = ops.drop_last();
        assert forall|i: int| 0 <= i < before.len() implies ((#[trigger] before[i])
            matches ReleaseOp::Arrive(sub) ==> sub_ok(sub)) by {
            assert(before[i] == ops[i]);
        }
        law_release_order(before);
        let m = run(before);
        let n = run(ops);
        assert(ops.last() == ops[ops.len() - 1]);
        match ops.last() {
            ReleaseOp::Arrive(sub) => {
                assert forall|k: Key| #[trigger] n.pending.contains_key(k) implies key_of(
                    n.pending[k],
                ) == k && sub_ok(n.pending[k]) by {
                    if k != key_of(sub) {
                        assert(m.pending.contains_key(k));
                    }
                }
            },
            ReleaseOp::Release => {
                if m.pending.contains_key(m.next) {
                    let sub = m.pending[m.next];
                    assert(key_of(sub) == m.next && sub_ok(sub));
                    assert(key_lt(m.next, n.next));
                    assert forall|i: int| 0 <= i < n.log.len() implies key_lt(
                        key_of(#[trigger] n.log[i]),
                        n.next,
                    ) by {
                        if i < m.log.len() {
                            assert(n.log[i] == m.log[i]);
                        }
                    }
                    assert forall|i: int, j: int| 0 <= i < j < n.log.len() implies key_lt(
                        key_of(#[trigger] n.log[i]),
                        key_of(#[trigger] n.log[j]),
                    ) by {
                        assert(n.log[i] == m.log[i]);
                        if j < m.log.len() {
                            assert(n.log[j] == m.log[j]);
                        }
                    }
                    assert forall|k: Key| #[trigger] n.pending.contains_key(k) implies key_of(
                        n.pending[k],
                    ) == k && sub_ok(n.pending[k]) by {
                        assert(m.pending.contains_key(k));
                    }
                }
            },
        }
    }
}

/// Nothing is lost and nothing is made up: the place of every arrival waits or was
/// released, and whatever waits or was released is one of the arrivals.
pub proof fn law_release_loses_nothing(ops: Seq<ReleaseOp>)
    requires
        arrivals_ok(ops),
    ensures
        forall|sub: SubChunk| #[trigger]
            arrived_in(ops, sub) ==> run(ops).pending.contains_key(key_of(sub)) || exists|i: int|
                0 <= i < run(ops).log.len() && key_of(#[trigger] run(ops).log[i]) == key_of(sub),
        forall|k: Key| #[trigger]
            run(ops).pending.contains_key(k) ==> arrived_in(ops, run(ops).pending[k]),
        forall|i: int| 0 <= i < run(ops).log.len() ==> arrived_in(ops, #[trigger] run(ops).log[i]),
    decreases ops.len(),
{
    if ops.len() > 0 {
        let before = ops.drop_last();
        assert forall|i: int| 0 <= i < before.len() implies ((#[trigger] before[i])
            matches ReleaseOp::Arrive(sub) ==> sub_ok(sub)) by {
            assert(before[i] == ops[i]);
        }
        law_release_loses_nothing(before);
        law_release_order(before);
        let m = run(before);
        let n = run(ops);
        let last = ops.len() - 1;
        assert(ops.last() == ops[last]);
        assert forall|sub: SubChunk| #[trigger] arrived_in(before, sub) implies arrived_in(
            ops,
            sub,
        ) by {
            let i = choose|i: int|
                0 <= i < before.len() && #[trigger] before[i] == ReleaseOp::Arrive(sub);
            assert(ops[i] == ReleaseOp::Arrive(sub));
        }
        assert forall|sub: SubChunk| #[trigger] arrived_in(ops, sub) implies n.pending.contains_key(
            key_of(sub),
        ) || exists|i: int|
            0 <= i < n.log.len() && key_of(#[trigger] n.log[i]) == key_of(sub) by {
            let i = choose|i: int| 0 <= i < ops.len() && #[trigger] ops[i] == ReleaseOp::Arrive(sub);
            if i < last {
                assert(before[i] == ReleaseOp::Arrive(sub));
                assert(arrived_in(before, sub));
                if m.pending.contains_key(key_of(sub)) {
                    if ops.last() is Release && m.next == key_of(sub) {
                        assert(n.log[n.log.len() - 1] == m.pending[m.next]);
                        assert(key_of(n.log[n.log.len() - 1]) == key_of(sub));
                    }
                } else {
                    let w = choose|w: int|
                        0 <= w < m.log.len() && key_of(#[trigger] m.log[w]) == key_of(sub);
                    assert(n.log[w] == m.log[w]);
                }
            }
        }
        match ops.last() {
            ReleaseOp::Arrive(sub) => {
                assert(arrived_in(ops, sub));
                assert forall|k: Key| #[trigger] n.pending.contains_key(k) implies arrived_in(
                    ops,
                    n.pending[k],
                ) by {
                    if k != key_of(sub) {
                        assert(m.pending.contains_key(k));
                    }
                }
            },
            ReleaseOp::Release => {
                if m.pending.contains_key(m.next) {
                    assert(arrived_in(before, m.pending[m.next]));
                    assert forall|k: Key| #[trigger] n.pending.contains_key(k) implies arrived_in(
                        ops,
                        n.pending[k],
                    ) by {
                        assert(m.pending.contains_key(k));
                    }
                    assert forall|i: int| 0 <= i < n.log.len() implies arrived_in(
                        ops,
                        #[trigger] n.log[i],
                    ) by {
                        if i < m.log.len() {
                            assert(n.log[i] == m.log[i]);
                        }
                    }
                }
            },
        }
    }
}

/// The place that follows the first `n` sub-chunks.
pub open spec fn place_after(subs: Seq<SubChunk>, n: int) -> Key {
    if n <= 0 {
        (0, 0)
    } else {
        next_key(key_of(subs[n - 1]), subs[n - 1].is_last)
    }
}

/// Whether these are all sub-chunks of a fetch in the order of their places: plan chunks
/// from zero on, sub-chunks from zero on in each, and the final one of each marked.
pub open spec fn complete(subs: Seq<SubChunk>) -> bool {
    &&& forall|i: int| 0 <= i < subs.len() ==> sub_ok(#[trigger] subs[i])
    &&& forall|i: int| 0 <= i < subs.len() ==> key_of(subs[i]) == #[trigger] place_after(subs, i)
    &&& subs.len() > 0 ==> subs.last().is_last
}

/// How many plan chunks the sub-chunks make up.
pub open spec fn plan_count(subs: Seq<SubChunk>) -> int {
    if subs.len() == 0 {
        0
    } else {
        subs.last().plan_index + 1
    }
}

/// All blocks of sub-chunks.
pub open spec fn block_count(subs: Seq<SubChunk>) -> nat
    decreases subs.len(),
{
    if subs.len() == 0 {
        0
    } else {
        block_count(subs.drop_last()) + subs.last().blocks@.len()
    }
}

/// All bytes of sub-chunks.
pub open spec fn byte_count(subs: Seq<SubChunk>) -> nat
    decreases subs.len(),
{
    if subs.len() == 0 {
        0
    } else {
        byte_count(subs.drop_last()) + subs.last().bytes as nat
    }
}

/// Whether a history brings none but these sub-chunks, perhaps not yet all of them.
pub open spec fn brings_only(ops: Seq<ReleaseOp>, subs: Seq<SubChunk>) -> bool {
    forall|i: int|
        0 <= i < ops.len() ==> ((#[trigger] ops[i]) matches ReleaseOp::Arrive(sub) ==> subs.contains(
            sub,
        ))
}

/// Whether a history brings these sub-chunks, each once, in whatever order.
pub open spec fn delivers(ops: Seq<ReleaseOp>, subs: Seq<SubChunk>) -> bool {
    &&& brings_only(ops, subs)
    &&& forall|j: int| 0 <= j < subs.len() ==> arrived_in(ops, #[trigger] subs[j])
    &&& places_once(ops)
}

/// Whether no two arrivals of a history have the same place.
pub open spec fn places_once(ops: Seq<ReleaseOp>) -> bool {
    forall|i: int, j: int|
        0 <= i < j < ops.len() ==> !((#[trigger] ops[i]) matches ReleaseOp::Arrive(a) && (
        #[trigger] ops[j]) matches ReleaseOp::Arrive(b) && key_of(a) == key_of(b))
}

/// The places of a complete set ascend.
proof fn lemma_places_ascend(subs: Seq<SubChunk>, i: int, j: int)
    requires
        complete(subs),
        0 <= i < j <= subs.len(),
    ensures
        key_lt(key_of(subs[i]), place_after(subs, j)),
    decreases j - i,
{
    assert(sub_ok(subs[j - 1]) && key_of(subs[j - 1]) == place_after(subs, j - 1));
    assert(sub_ok(subs[i]));
    if i < j - 1 {
        lemma_places_ascend(subs, i, j - 1);
    }
}

/// What was released walks from place to place, and the totals are those of the log.
#[verifier::spinoff_prover]
proof fn lemma_log_walks(ops: Seq<ReleaseOp>)
    requires
        arrivals_ok(ops),
    ensures
        ({
            let m = run(ops);
            &&& forall|i: int| 0 <= i < m.log.len() ==> sub_ok(#[trigger] m.log[i])
            &&& forall|i: int|
                0 <= i < m.log.len() ==> key_of(m.log[i]) == #[trigger] place_after(m.log, i)
            &&& m.next == place_after(m.log, m.log.len() as int)
            &&& m.blocks == block_count(m.log)
            &&& m.bytes == byte_count(m.log)
            &&& m.plans_released == m.floor == m.next.0
        }),
    decreases ops.len(),
{
    if ops.len() > 0 {
        let before = ops.drop_last();
        assert forall|i: int| 0 <= i < before.len() implies ((#[trigger] before[i])
            matches ReleaseOp::Arrive(sub) ==> sub_ok(sub)) by {
            assert(before[i] == ops[i]);
        }
        lemma_log_walks(before);
        law_release_order(before);
        let m = run(before);
        let n = run(ops);
        if ops.last() is Release && m.pending.contains_key(m.next) {
            let sub = m.pending[m.next];
            assert(n.log.drop_last() =~= m.log);
            assert(n.log.last() == sub);
            assert forall|i: int| 0 <= i < n.log.len() implies sub_ok(#[trigger] n.log[i]) by {
                if i < m.log.len() {
                    assert(n.log[i] == m.log[i]);
                }
            }
            assert forall|i: int| 0 <= i < n.log.len() implies key_of(n.log[i])
                == #[trigger] place_after(n.log, i) by {
                if i < m.log.len() {
                    assert(n.log[i] == m.log[i]);
                }
                if i > 0 {
                    assert(n.log[i - 1] == m.log[i - 1]);
                }
                assert(place_after(n.log, i) == place_after(m.log, i));
            }
        }
    }
}

/// Where every place arrives once, what waits was not released.
#[verifier::spinoff_prover]
proof fn lemma_waiting_not_released(ops: Seq<ReleaseOp>)
    requires
        arrivals_ok(ops),
        places_once(ops),
    ensures
        forall|k: Key, i: int|
            #![trigger run(ops).pending.contains_key(k), run(ops).log[i]]
            run(ops).pending.contains_key(k) && 0 <= i < run(ops).log.len() ==> key_of(
                run(ops).log[i],
            ) != k,
    decreases ops.len(),
{
    if ops.len() > 0 {
        let before = ops.drop_last();
        let last = ops.len() - 1;
        assert forall|i: int| 0 <= i < before.len() implies ((#[trigger] before[i])
            matches ReleaseOp::Arrive(sub) ==> sub_ok(sub)) by {
            assert(before[i] == ops[i]);
        }
        assert forall|i: int, j: int| 0 <= i < j < before.len() implies !((#[trigger] before[i])
            matches ReleaseOp::Arrive(a) && (#[trigger] before[j]) matches ReleaseOp::Arrive(b)
            && key_of(a) == key_of(b)) by {
            assert(before[i] == ops[i] && before[j] == ops[j]);
        }
        lemma_waiting_not_released(before);
        law_release_order(before);
        law_release_loses_nothing(before);
        let m = run(before);
        let n = run(ops);
        assert forall|k: Key, i: int|
            #![trigger n.pending.contains_key(k), n.log[i]]
            n.pending.contains_key(k) && 0 <= i < n.log.len() implies key_of(n.log[i]) != k by {
            match ops[last] {
                ReleaseOp::Arrive(sub) => {
                    if k == key_of(sub) {
                        assert(arrived_in(before, m.log[i]));
                        let w = choose|w: int|
                            0 <= w < before.len() && #[trigger] before[w] == ReleaseOp::Arrive(
                                m.log[i],
                            );
                        assert(ops[w] == before[w]);
                    } else {
                        assert(m.pending.contains_key(k));
                    }
                },
                ReleaseOp::Release => {
                    if m.pending.contains_key(m.next) {
                        assert(m.pending.contains_key(k));
                        if i < m.log.len() {
                            assert(n.log[i] == m.log[i]);
                        }
                    }
                },
            }
        }
    }
}

/// A place of a complete set is that of one sub-chunk.
proof fn lemma_place_is_index(subs: Seq<SubChunk>, j: int, i: int)
    requires
        complete(subs),
        0 <= j < subs.len(),
        0 <= i <= subs.len(),
        key_of(subs[j]) == place_after(subs, i),
    ensures
        i == j,
{
    if j < i {
        lemma_places_ascend(subs, j, i);
    } else if i < j {
        assert(key_of(subs[i]) == place_after(subs, i));
        assert(key_of(subs[j]) == place_after(subs, j));
        lemma_places_ascend(subs, i, j);
    }
}

/// What was released of a set belongs to it.
proof fn lemma_released_belongs(ops: Seq<ReleaseOp>, subs: Seq<SubChunk>, i: int)
    requires
        arrivals_ok(ops),
        brings_only(ops, subs),
        0 <= i < run(ops).log.len(),
    ensures
        subs.contains(run(ops).log[i]),
{
    law_release_loses_nothing(ops);
    let sub = run(ops).log[i];
    assert(arrived_in(ops, sub));
    let w = choose|w: int| 0 <= w < ops.len() && #[trigger] ops[w] == ReleaseOp::Arrive(sub);
    assert(ops[w] == ReleaseOp::Arrive(sub));
}

/// What was released of a complete set is its first part.
#[verifier::spinoff_prover]
proof fn lemma_log_is_prefix(ops: Seq<ReleaseOp>, subs: Seq<SubChunk>, n: int)
    requires
        arrivals_ok(ops),
        complete(subs),
        brings_only(ops, subs),
        0 <= n <= run(ops).log.len(),
    ensures
        n <= subs.len(),
        forall|i: int| 0 <= i < n ==> #[trigger] run(ops).log[i] == subs[i],
    decreases n,
{
    if n > 0 {
        let log = run(ops).log;
        let sub = log[n - 1];
        lemma_log_is_prefix(ops, subs, n - 1);
        assert(key_of(sub) == place_after(log, n - 1)) by {
            lemma_log_walks(ops);
        }
        assert(place_after(log, n - 1) == place_after(subs, n - 1)) by {
            if n > 1 {
                assert(log[n - 2] == subs[n - 2]);
            }
        }
        lemma_released_belongs(ops, subs, n - 1);
        let j = choose|j: int| 0 <= j < subs.len() && subs[j] == sub;
        lemma_place_is_index(subs, j, n - 1);
    }
}

/// Arrivals of a complete set are in order.
proof fn lemma_delivered_ok(ops: Seq<ReleaseOp>, subs: Seq<SubChunk>)
    requires
        complete(subs),
        brings_only(ops, subs),
    ensures
        arrivals_ok(ops),
{
    assert forall|i: int| 0 <= i < ops.len() implies ((#[trigger] ops[i])
        matches ReleaseOp::Arrive(sub) ==> sub_ok(sub)) by {
        if ops[i] is Arrive {
            let sub = ops[i]->Arrive_0;
            assert(subs.contains(sub));
            let j = choose|j: int| 0 <= j < subs.len() && subs[j] == sub;
            assert(sub_ok(subs[j]));
        }
    }
}

/// The first sub-chunk that was not released waits.
#[verifier::spinoff_prover]
proof fn lemma_missing_waits(ops: Seq<ReleaseOp>, subs: Seq<SubChunk>, n: int)
    requires
        arrivals_ok(ops),
        complete(subs),
        delivers(ops, subs),
        n == run(ops).log.len(),
        n < subs.len(),
        forall|i: int| 0 <= i < n ==> #[trigger] run(ops).log[i] == subs[i],
    ensures
        run(ops).pending.contains_key(place_after(subs, n)),
{
    let m = run(ops);
    assert(arrived_in(ops, subs[n]));
    assert(key_of(subs[n]) == place_after(subs, n));
    law_release_loses_nothing(ops);
    if !m.pending.contains_key(key_of(subs[n])) {
        let w = choose|w: int|
            0 <= w < m.log.len() && key_of(#[trigger] m.log[w]) == key_of(subs[n]);
        assert(m.log[w] == subs[w]);
        lemma_place_is_index(subs, w, n);
    }
}

/// What waits belongs to the set, and was not released.
#[verifier::spinoff_prover]
proof fn lemma_waiting_belongs(ops: Seq<ReleaseOp>, subs: Seq<SubChunk>, k: Key)
    requires
        arrivals_ok(ops),
        delivers(ops, subs),
        run(ops).pending.contains_key(k),
    ensures
        run(ops).log != subs,
{
    let m = run(ops);
    let sub = m.pending[k];
    assert(arrived_in(ops, sub)) by {
        law_release_loses_nothing(ops);
    }
    assert(key_of(sub) == k) by {
        law_release_order(ops);
    }
    let w = choose|w: int| 0 <= w < ops.len() && #[trigger] ops[w] == ReleaseOp::Arrive(sub);
    assert(ops[w] == ReleaseOp::Arrive(sub));
    assert(subs.contains(sub));
    let j = choose|j: int| 0 <= j < subs.len() && subs[j] == sub;
    if m.log == subs {
        lemma_waiting_not_released(ops);
        assert(key_of(m.log[j]) == k);
    }
}

/// A complete set of sub-chunks, in whatever order it arrives and however the releases fall
/// in between, is released wholly, in the order of places: once nothing more can be released,
/// nothing waits, the log is the set with all its blocks and bytes, every plan chunk is
/// released, and the floor is past the last one.
pub proof fn law_complete_set_is_released(ops: Seq<ReleaseOp>, subs: Seq<SubChunk>)
    requires
        complete(subs),
        delivers(ops, subs),
        !run(ops).pending.contains_key(run(ops).next),
    ensures
        run(ops).log == subs,
        run(ops).pending == Map::<Key, SubChunk>::empty(),
        run(ops).next == (plan_count(subs) as u64, 0u64),
        run(ops).blocks == block_count(subs),
        run(ops).bytes == byte_count(subs),
        run(ops).plans_released == plan_count(subs),
        run(ops).floor == plan_count(subs),
{
    let m = run(ops);
    lemma_delivered_ok(ops, subs);
    let n = m.log.len() as int;
    lemma_log_is_prefix(ops, subs, n);
    assert(m.next == place_after(subs, n)) by {
        lemma_log_walks(ops);
        if n > 0 {
            assert(m.log[n - 1] == subs[n - 1]);
        }
    }
    if n < subs.len() {
        lemma_missing_waits(ops, subs, n);
    }
    assert(m.log =~= subs);
    assert(m.next == (plan_count(subs) as u64, 0u64)) by {
        if n > 0 {
            assert(sub_ok(subs[n - 1]));
            assert(subs.last() == subs[n - 1]);
        }
    }
    assert(m.blocks == block_count(subs) && m.bytes == byte_count(subs) && m.plans_released
        == plan_count(subs) && m.floor == plan_count(subs)) by {
        lemma_log_walks(ops);
        if n > 0 {
            assert(sub_ok(subs[n - 1]));
        }
    }
    assert forall|k: Key| !#[trigger] m.pending.contains_key(k) by {
        if m.pending.contains_key(k) {
            lemma_waiting_belongs(ops, subs, k);
        }
    }
    assert(m.pending =~= Map::<Key, SubChunk>::empty());
}

/// The front of a linked run is linked, and what is behind it links to it.
proof fn lemma_linked_parts(link: Link, first: Seq<CompactBlock>, second: Seq<CompactBlock>)
    requires
        all_continue(link, first + second),
    ensures
        all_continue(link, first),
        all_continue(link_before(link, first, first.len() as int), second),
{
    law_released_runs_are_one_chain(link, first, second);
}

/// Each sub-chunk of a linked set links to those before it.
#[verifier::spinoff_prover]
proof fn lemma_each_links(subs: Seq<SubChunk>, n: int)
    requires
        all_continue(None, blocks_of(subs)),
        0 <= n < subs.len(),
    ensures
        all_continue(link_after(subs.take(n)), subs[n].blocks@),
    decreases subs.len(),
{
    let before = subs.drop_last();
    assert(all_continue(None, blocks_of(before)) && all_continue(
        link_after(before),
        subs.last().blocks@,
    )) by {
        lemma_linked_parts(None, blocks_of(before), subs.last().blocks@);
    }
    if n < before.len() {
        lemma_each_links(before, n);
        assert(before.take(n) =~= subs.take(n));
        assert(before[n] == subs[n]);
    } else {
        assert(before =~= subs.take(n));
        assert(subs.last() == subs[n]);
    }
}

/// A complete set whose blocks are one chain is never refused: at every point of its fetch, in
/// whatever order its sub-chunks arrive and however the releases fall in between, the sub-chunk
/// whose turn it is continues the chain.
pub proof fn law_linked_set_is_not_refused(
    stage: ReleaseStage,
    ops: Seq<ReleaseOp>,
    subs: Seq<SubChunk>,
)
    requires
        complete(subs),
        all_continue(None, blocks_of(subs)),
        brings_only(ops, subs),
        stage.stands_after(ops),
    ensures
        stage.pending().contains_key(stage.next()) ==> all_continue(
            stage.link(),
            stage.pending()[stage.next()].blocks@,
        ),
{
    let m = run(ops);
    if m.pending.contains_key(m.next) {
        let sub = m.pending[m.next];
        let n = m.log.len() as int;
        lemma_delivered_ok(ops, subs);
        lemma_log_is_prefix(ops, subs, n);
        assert(m.next == place_after(subs, n)) by {
            lemma_log_walks(ops);
            if n > 0 {
                assert(m.log[n - 1] == subs[n - 1]);
            }
        }
        assert(arrived_in(ops, sub)) by {
            law_release_loses_nothing(ops);
        }
        assert(key_of(sub) == m.next) by {
            law_release_order(ops);
        }
        let w = choose|w: int| 0 <= w < ops.len() && #[trigger] ops[w] == ReleaseOp::Arrive(sub);
        assert(ops[w] == ReleaseOp::Arrive(sub));
        let j = choose|j: int| 0 <= j < subs.len() && subs[j] == sub;
        lemma_place_is_index(subs, j, n);
        assert(m.log =~= subs.take(n));
        lemma_each_links(subs, n);
    }
}

/// The order of arrival does not show: two histories of the same complete set, both released
/// as far as can be, release the same sub-chunks in the same order, with the same totals.
pub proof fn law_arrival_order_does_not_show(
    first: Seq<ReleaseOp>,
    second: Seq<ReleaseOp>,
    subs: Seq<SubChunk>,
)
    requires
        complete(subs),
        delivers(first, subs),
        delivers(second, subs),
        !run(first).pending.contains_key(run(first).next),
        !run(second).pending.contains_key(run(second).next),
    ensures
        run(first) == run(second),
{
    law_complete_set_is_released(first, subs);
    law_complete_set_is_released(second, subs);
}

/// Blocks continue a chain where each follows the one before it: its height is the next one
/// and its predecessor's hash is the hash of that block. The first one follows the block that
/// was released last, and may be any where none was.
#[verifier::spinoff_prover]
pub proof fn law_chain_is_linked_block_by_block(
    height: u64,
    hash: Seq<u8>,
    blocks: Seq<CompactBlock>,
)
    requires
        blocks.len() > 0,
    ensures
        all_continue(None, blocks) <==> forall|i: int|
            1 <= i < blocks.len() ==> (#[trigger] blocks[i]).height == blocks[i - 1].height + 1
                && blocks[i].prev_hash@ == blocks[i - 1].hash@,
        all_continue(Some((height, hash)), blocks) <==> blocks[0].height == height + 1
            && blocks[0].prev_hash@ == hash && all_continue(None, blocks),
        link_before(Some((height, hash)), blocks, blocks.len() as int) == Some(
            (blocks.last().height, blocks.last().hash@),
        ),
{
    let some: Link = Some((height, hash));
    let none: Link = None;
    if all_continue(None, blocks) {
        assert forall|i: int| 1 <= i < blocks.len() implies (#[trigger] blocks[i]).height
            == blocks[i - 1].height + 1 && blocks[i].prev_hash@ == blocks[i - 1].hash@ by {
            assert(continues(link_before(none, blocks, i), blocks[i]));
        }
    }
    if forall|i: int|
        1 <= i < blocks.len() ==> (#[trigger] blocks[i]).height == blocks[i - 1].height + 1
            && blocks[i].prev_hash@ == blocks[i - 1].hash@ {
        assert forall|i: int| 0 <= i < blocks.len() implies continues(
            link_before(none, blocks, i),
            #[trigger] blocks[i],
        ) by {}
    }
    if all_continue(some, blocks) {
        assert(continues(link_before(some, blocks, 0), blocks[0]));
        assert forall|i: int| 0 <= i < blocks.len() implies continues(
            link_before(none, blocks, i),
            #[trigger] blocks[i],
        ) by {
            assert(continues(link_before(some, blocks, i), blocks[i]));
        }
    }
    if blocks[0].height == height + 1 && blocks[0].prev_hash@ == hash && all_continue(
        None,
        blocks,
    ) {
        assert forall|i: int| 0 <= i < blocks.len() implies continues(
            link_before(some, blocks, i),
            #[trigger] blocks[i],
        ) by {
            assert(continues(link_before(none, blocks, i), blocks[i]));
        }
    }
}

/// A break is reported at the first block that does not follow the one before it, with the
/// height that was expected or with the hash that does not match; the chain then ends at the
/// block before.
#[verifier::spinoff_prover]
pub proof fn law_first_break_is_told(
    e: SlipstreamError,
    blocks: Seq<CompactBlock>,
    k: int,
    at: Link,
)
    requires
        1 <= k < blocks.len(),
        all_continue(None, blocks.take(k)),
        !(blocks[k].height == blocks[k - 1].height + 1 && blocks[k].prev_hash@ == blocks[k
            - 1].hash@),
    ensures
        tells_break(e, None, blocks) ==> {
            &&& e is Discontinuity
            &&& blocks[k].height <= u32::MAX ==> e->Discontinuity_at == blocks[k].height
            &&& blocks[k].height > u32::MAX ==> e->Discontinuity_at == u32::MAX
            &&& blocks[k].height != blocks[k - 1].height + 1 ==> e->detail@ == "expected height "@
                + dec((blocks[k - 1].height + 1) as nat)
            &&& blocks[k].height == blocks[k - 1].height + 1 ==> e->detail@
                == "prev-hash mismatch"@
        },
        link_at_break(None, blocks, at) ==> at == Some((blocks[k - 1].height, blocks[k - 1].hash@)),
{
    let none: Link = None;
    let front = blocks.take(k);
    assert forall|i: int| 0 <= i < k implies continues(
        link_before(none, blocks, i),
        #[trigger] blocks[i],
    ) by {
        assert(front[i] == blocks[i]);
        assert(continues(link_before(none, front, i), front[i]));
        if i > 0 {
            assert(front[i - 1] == blocks[i - 1]);
        }
    }
    assert forall|i: int| #[trigger] first_break(none, blocks, i) implies i == k by {
        if i < k {
            assert(continues(link_before(none, blocks, i), blocks[i]));
        } else if i > k {
            assert(continues(link_before(none, blocks, k), blocks[k]));
        }
    }
}

/// Places are ordered by plan chunk and, within one, by sub-chunk; a sub-chunk stands at its
/// own indices, and behind it comes the next sub-chunk, or behind the final one the first of
/// the next plan chunk.
pub proof fn law_places(sub: SubChunk, a: Key, b: Key)
    requires
        sub.plan_index < u64::MAX,
        sub.sub_index < u64::MAX,
    ensures
        key_of(sub).0 == sub.plan_index && key_of(sub).1 == sub.sub_index,
        next_key(key_of(sub), true) == ((sub.plan_index + 1) as u64, 0u64),
        next_key(key_of(sub), false) == (sub.plan_index, (sub.sub_index + 1) as u64),
        key_lt(a, b) <==> a.0 < b.0 || (a.0 == b.0 && a.1 < b.1),
        sub_ok(sub) <==> sub.bytes == wire_total(sub.blocks@),
{
}

} // verus!
