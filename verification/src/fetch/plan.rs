//! The plan of a fetch: which heights, cut into which chunks, under which limits.
use crate::config::EngineConfig;
use vstd::arithmetic::div_mod::{lemma_fundamental_div_mod, lemma_div_is_ordered};
use vstd::prelude::*;

verus! {

/// Thresholds of the wire-collapse detector.
#[derive(Clone, Copy, Debug, PartialEq, Eq, Structural)]
pub struct WireFailoverArm {
    /// Consecutive seconds without any arrival, while the reorder stage was ready
    /// to receive, before a full stall fires.
    pub stall_secs: u64,
    /// Relative collapse: the rolling window falls below this percentage of the
    /// best window of the pass ...
    pub collapse_percent: u64,
    /// ... and below this rate, in hundredths of a MiB per second.
    pub painful_centi_mbps: u64,
    /// A window below this rate fires whatever came before, in hundredths of a
    /// MiB per second.
    pub floor_centi_mbps: u64,
}

impl Default for WireFailoverArm {
    fn default() -> (r: Self)
        ensures
            r == (WireFailoverArm {
                stall_secs: 12,
                collapse_percent: 15,
                painful_centi_mbps: 200,
                floor_centi_mbps: 20,
            }),
    {
        WireFailoverArm {
            stall_secs: 12,
            collapse_percent: 15,
            painful_centi_mbps: 200,
            floor_centi_mbps: 20,
        }
    }
}

/// What to fetch and how.
#[derive(Clone, Copy, Debug)]
pub struct FetchPlan {
    pub start: u64,
    /// Inclusive.
    pub end: u64,
    pub chunk_blocks: u32,
    pub streams: usize,
    /// How many attempts in a row may make no progress, per plan chunk.
    pub retries_per_chunk: u32,
    /// The time to accumulate one sub-chunk, in nanoseconds.
    pub chunk_timeout_nanos: u64,
    /// Byte budget per emitted sub-chunk.
    pub split_bytes: usize,
    /// Arms the wire-collapse detector.
    pub failover: Option<WireFailoverArm>,
}

/// Two minutes.
pub const DEFAULT_CHUNK_TIMEOUT_NANOS: u64 = 120_000_000_000;

impl FetchPlan {
    /// The range is not empty, a chunk holds a block, and the blocks of the range can
    /// be counted.
    pub open spec fn valid(self) -> bool {
        &&& self.start <= self.end
        &&& self.chunk_blocks > 0
        &&& self.end - self.start < u64::MAX
    }

    /// The number of plan chunks: the blocks of the range over the blocks of a
    /// chunk, rounded up.
    pub open spec fn chunk_count_spec(self) -> int {
        (self.end - self.start) / (self.chunk_blocks as int) + 1
    }

    /// The first height of a plan chunk.
    pub open spec fn chunk_start(self, index: int) -> int {
        self.start + index * self.chunk_blocks
    }

    /// The last height of a plan chunk.
    pub open spec fn chunk_end(self, index: int) -> int {
        let e = self.chunk_start(index) + self.chunk_blocks - 1;
        if e < self.end {
            e
        } else {
            self.end as int
        }
    }

    /// A plan of the heights `start..=end` with the shipped limits.
    pub fn new(start: u64, end: u64, chunk_blocks: u32, streams: usize) -> (r: Self)
        requires
            start <= end,
            chunk_blocks > 0,
        ensures
            r.start == start,
            r.end == end,
            r.chunk_blocks == chunk_blocks,
            r.streams == streams,
            r.retries_per_chunk == 3,
            r.chunk_timeout_nanos == DEFAULT_CHUNK_TIMEOUT_NANOS,
            r.split_bytes == EngineConfig::DEFAULT_CHUNK_SPLIT_BYTES,
            r.chunk_timeout_nanos == 120_000_000_000u64 && r.split_bytes == 8_388_608,
            r.failover is None,
    {
        FetchPlan {
            start,
            end,
            chunk_blocks,
            streams,
            retries_per_chunk: 3,
            chunk_timeout_nanos: DEFAULT_CHUNK_TIMEOUT_NANOS,
            split_bytes: EngineConfig::DEFAULT_CHUNK_SPLIT_BYTES,
            failover: None,
        }
    }

    /// How many plan chunks the range has.
    pub fn chunk_count(&self) -> (r: u64)
        requires
            self.valid(),
        ensures
            r == self.chunk_count_spec(),
    {
        let q: u64 = (self.end - self.start) / self.chunk_blocks as u64;
        proof {
            lemma_div_is_ordered(
                0,
                self.end - self.start,
                self.chunk_blocks as int,
            );
            lemma_fundamental_div_mod(self.end - self.start, self.chunk_blocks as int);
            assert(q <= self.end - self.start) by (nonlinear_arith)
                requires
                    q == (self.end - self.start) / (self.chunk_blocks as int),
                    self.chunk_blocks > 0,
                    self.end >= self.start,
            ;
        }
        q + 1
    }

    /// The first and the last height of a plan chunk.
    pub fn chunk_range(&self, index: u64) -> (r: (u64, u64))
        requires
            self.valid(),
            index < self.chunk_count_spec(),
        ensures
            r.0 == self.chunk_start(index as int),
            r.1 == self.chunk_end(index as int),
    {
        proof {
            law_chunk_is_a_range(*self, index as int);
            assert(0 <= index * self.chunk_blocks) by (nonlinear_arith);
        }
        let s: u64 = self.start + index * self.chunk_blocks as u64;
        let more: u64 = self.chunk_blocks as u64 - 1;
        if more < self.end - s {
            (s, s + more)
        } else {
            (s, self.end)
        }
    }
}

/// Every plan chunk holds at least one and at most `chunk_blocks` heights of the
/// range.
pub proof fn law_chunk_is_a_range(plan: FetchPlan, index: int)
    requires
        plan.valid(),
        0 <= index < plan.chunk_count_spec(),
    ensures
        plan.start <= plan.chunk_start(index) <= plan.chunk_end(index) <= plan.end,
        plan.chunk_end(index) - plan.chunk_start(index) < plan.chunk_blocks,
{
    let c = plan.chunk_blocks as int;
    let d = plan.end - plan.start;
    lemma_fundamental_div_mod(d, c);
    assert(0 <= index * c <= d) by (nonlinear_arith)
        requires
            0 <= index <= d / c,
            c > 0,
            d == c * (d / c) + d % c,
            0 <= d % c,
    ;
}

/// The plan chunks follow one another without a gap or an overlap, the first
/// starts where the range starts and the last ends where it ends.
pub proof fn law_chunks_are_adjacent(plan: FetchPlan, index: int)
    requires
        plan.valid(),
        0 <= index < plan.chunk_count_spec(),
    ensures
        index == 0 ==> plan.chunk_start(index) == plan.start,
        index + 1 < plan.chunk_count_spec() ==> plan.chunk_start(index + 1) == plan.chunk_end(index)
            + 1,
        index + 1 == plan.chunk_count_spec() ==> plan.chunk_end(index) == plan.end,
{
    let c = plan.chunk_blocks as int;
    let d = plan.end - plan.start;
    lemma_fundamental_div_mod(d, c);
    assert((index + 1) * c == index * c + c) by (nonlinear_arith);
    assert(0 * c == 0) by (nonlinear_arith);
    if index + 1 < plan.chunk_count_spec() {
        law_chunk_is_a_range(plan, index + 1);
    } else {
        assert(index * c + c > d) by (nonlinear_arith)
            requires
                index == d / c,
                c > 0,
                d == c * (d / c) + d % c,
                d % c < c,
        ;
    }
}

/// Every height of the range lies in exactly one plan chunk.
pub proof fn law_chunks_cover_range(plan: FetchPlan, height: int)
    requires
        plan.valid(),
        plan.start <= height <= plan.end,
    ensures
        exists|i: int|
            0 <= i < plan.chunk_count_spec() && #[trigger] plan.chunk_start(i) <= height
                <= plan.chunk_end(i),
        forall|i: int, j: int|
            0 <= i < plan.chunk_count_spec() && 0 <= j < plan.chunk_count_spec()
                && #[trigger] plan.chunk_start(i) <= height <= plan.chunk_end(i)
                && #[trigger] plan.chunk_start(j) <= height <= plan.chunk_end(j) ==> i == j,
{
    let c = plan.chunk_blocks as int;
    let d = plan.end - plan.start;
    let h = height - plan.start;
    let k = h / c;
    lemma_fundamental_div_mod(h, c);
    lemma_fundamental_div_mod(d, c);
    lemma_div_is_ordered(h, d, c);
    lemma_div_is_ordered(0, h, c);
    assert(k * c == c * k) by (nonlinear_arith);
    assert(0 <= k) by (nonlinear_arith)
        requires
            k == h / c,
            h >= 0,
            c > 0,
    ;
    assert(plan.chunk_start(k) <= height <= plan.chunk_end(k));
    assert forall|i: int, j: int|
        0 <= i < plan.chunk_count_spec() && 0 <= j < plan.chunk_count_spec()
            && #[trigger] plan.chunk_start(i) <= height <= plan.chunk_end(i)
            && #[trigger] plan.chunk_start(j) <= height <= plan.chunk_end(j) implies i == j by {
        assert(i == j) by (nonlinear_arith)
            requires
                c > 0,
                i * c <= h < i * c + c,
                j * c <= h < j * c + c,
        ;
    }
}

/// A plan can be carried out where its range holds a height and its chunks hold a block.
pub proof fn law_plans_that_can_be_carried_out(plan: FetchPlan)
    ensures
        plan.start <= plan.end && plan.chunk_blocks > 0 && (plan.start > 0 || plan.end < u64::MAX)
            ==> plan.valid(),
        plan.valid() ==> plan.start <= plan.end && plan.chunk_blocks > 0,
{
}

/// Every plan chunk but the last holds as many heights as a chunk is to hold.
pub proof fn law_chunks_are_full(plan: FetchPlan, index: int)
    requires
        plan.valid(),
        0 <= index,
        index + 1 < plan.chunk_count_spec(),
    ensures
        plan.chunk_end(index) - plan.chunk_start(index) + 1 == plan.chunk_blocks,
{
    law_chunks_are_adjacent(plan, index);
    assert((index + 1) * plan.chunk_blocks == index * plan.chunk_blocks + plan.chunk_blocks)
        by (nonlinear_arith);
}

} // verus!
