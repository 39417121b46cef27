//! One worker's stream of a plan chunk: what becomes of each block, of the end of
//! the stream and of an error, and where a retry resumes.
use crate::block_source::{wire_total, CompactBlock};
use crate::error::SlipstreamError;
use crate::fetch::splitter::{joined, overflows, ChunkSplitter};
use crate::text::{dec, push_dec};
use vstd::prelude::*;

verus! {

/// One worker's in-order slice of a plan chunk.
#[derive(Debug)]
pub struct SubChunk {
    pub plan_index: u64,
    /// From zero per plan chunk, dense across retries.
    pub sub_index: u64,
    /// Marks the final sub-chunk of the plan chunk.
    pub is_last: bool,
    /// The sum of the encoded lengths of the blocks.
    pub bytes: usize,
    pub blocks: Vec<CompactBlock>,
}

/// Where the stream of a plan chunk stands; it survives retries.
#[derive(Clone, Copy, Debug, PartialEq, Eq, Structural)]
pub struct PlanChunkCursor {
    pub plan_index: u64,
    /// The last height of the plan chunk.
    pub end: u64,
    /// The next height to request: one past the last block that was handed on.
    pub resume_from: u64,
    pub next_sub_index: u64,
    /// Whether this attempt has handed on a sub-chunk.
    pub emitted_this_attempt: bool,
}

impl PlanChunkCursor {
    /// A cursor at the start of a plan chunk.
    pub fn new(plan_index: u64, start: u64, end: u64) -> (r: Self)
        ensures
            r == (PlanChunkCursor {
                plan_index,
                end,
                resume_from: start,
                next_sub_index: 0,
                emitted_this_attempt: false,
            }),
    {
        PlanChunkCursor {
            plan_index,
            end,
            resume_from: start,
            next_sub_index: 0,
            emitted_this_attempt: false,
        }
    }

    /// The cursor at the start of an attempt.
    pub fn begin_attempt(&mut self)
        ensures
            *final(self) == (PlanChunkCursor { emitted_this_attempt: false, ..*old(self) }),
    {
        self.emitted_this_attempt = false;
    }

    /// The cursor once `blocks` have been handed on.
    pub open spec fn after(self, blocks: Seq<CompactBlock>) -> PlanChunkCursor {
        PlanChunkCursor {
            plan_index: self.plan_index,
            end: self.end,
            resume_from: (blocks.last().height + 1) as u64,
            next_sub_index: (self.next_sub_index + 1) as u64,
            emitted_this_attempt: true,
        }
    }

    /// Moves past a sub-chunk. Only a sub-chunk that was handed on moves the
    /// cursor.
    pub fn handed_on(&mut self, sub: &SubChunk)
        requires
            sub.blocks@.len() > 0,
            sub.blocks@.last().height < u64::MAX,
            old(self).next_sub_index < u64::MAX,
        ensures
            *final(self) == old(self).after(sub.blocks@),
    {
        let last: usize = sub.blocks.len() - 1;
        self.resume_from = sub.blocks[last].height + 1;
        self.next_sub_index = self.next_sub_index + 1;
        self.emitted_this_attempt = true;
    }

    /// The name of the request for the blocks that are still missing.
    pub fn request_name(&self) -> (r: String)
        ensures
            r@ == "get_block_range "@ + dec(self.resume_from as nat) + ".."@ + dec(self.end as nat),
    {
        let mut m: String = "get_block_range ".to_owned();
        push_dec(&mut m, self.resume_from);
        m.push_str("..");
        push_dec(&mut m, self.end);
        m
    }

    /// The sub-chunk that stands next in line.
    pub open spec fn is_next(
        self,
        sub: SubChunk,
        blocks: Seq<CompactBlock>,
        is_last: bool,
    ) -> bool {
        &&& sub.plan_index == self.plan_index
        &&& sub.sub_index == self.next_sub_index
        &&& sub.is_last == is_last
        &&& sub.blocks@ == blocks
        &&& sub.bytes == wire_total(blocks)
    }
}

/// The words that name a stream in errors.
pub open spec fn stream_name(cursor: PlanChunkCursor) -> Seq<char> {
    "block stream "@ + dec(cursor.resume_from as nat) + ".."@ + dec(cursor.end as nat)
        + " (plan chunk "@ + dec(cursor.plan_index as nat) + ")"@
}

/// The words for a stream that ended early.
pub open spec fn short_stream_text(name: Seq<char>, got: nat, end: nat) -> Seq<char> {
    name + ": stream ended short at "@ + dec(got) + ", expected "@ + dec(end)
}

/// The words for a stream that filled no sub-chunk in time.
pub open spec fn no_progress_text(name: Seq<char>, secs: nat) -> Seq<char> {
    name + ": no completed sub-chunk within "@ + dec(secs) + "s"@
}

/// One attempt at streaming the rest of a plan chunk.
pub struct Pump {
    name: String,
    splitter: ChunkSplitter,
}

impl Pump {
    /// The words that name the stream.
    pub closed spec fn name(&self) -> Seq<char> {
        self.name@
    }

    /// The budget per sub-chunk.
    pub closed spec fn budget(&self) -> nat {
        self.splitter.budget()
    }

    /// What is collected for the next sub-chunk.
    pub closed spec fn collected(&self) -> Seq<CompactBlock> {
        self.splitter.collected()
    }

    /// Starts an attempt where the cursor stands.
    pub fn start(cursor: &PlanChunkCursor, split_bytes: usize) -> (r: Self)
        ensures
            r.name() == stream_name(*cursor),
            r.budget() == split_bytes,
            r.collected() == Seq::<CompactBlock>::empty(),
    {
        let mut name: String = "block stream ".to_owned();
        push_dec(&mut name, cursor.resume_from);
        name.push_str("..");
        push_dec(&mut name, cursor.end);
        name.push_str(" (plan chunk ");
        push_dec(&mut name, cursor.plan_index);
        name.push_str(")");
        Pump { name, splitter: ChunkSplitter::new(split_bytes) }
    }

    /// Takes a streamed block, `waited` nanoseconds after the last sub-chunk was
    /// handed on. Past the deadline the attempt fails; else the block is
    /// collected, and a sub-chunk that it completes is to be handed on.
    pub fn block(
        &mut self,
        cursor: &PlanChunkCursor,
        block: CompactBlock,
        waited: u64,
        deadline: u64,
    ) -> (r: Result<Option<SubChunk>, SlipstreamError>)
        requires
            wire_total(old(self).collected()) + block.wire_len <= usize::MAX,
        ensures
            final(self).name() == old(self).name(),
            final(self).budget() == old(self).budget(),
            waited > deadline ==> (r matches Err(SlipstreamError::Transport(m)) && m@
                == no_progress_text(old(self).name(), deadline as nat / 1_000_000_000))
                && final(self).collected() == old(self).collected(),
            waited <= deadline && overflows(old(self).collected(), old(self).budget(), block) ==> (r
                matches Ok(Some(sub)) && cursor.is_next(sub, old(self).collected(), false))
                && final(self).collected() == seq![block],
            waited <= deadline && !overflows(old(self).collected(), old(self).budget(), block) ==> r
                == Ok::<Option<SubChunk>, SlipstreamError>(None) && final(self).collected() == old(
                self,
            ).collected().push(block),
    {
        if waited > deadline {
            let mut m: String = self.name.clone();
            m.push_str(": no completed sub-chunk within ");
            push_dec(&mut m, deadline / 1_000_000_000);
            m.push_str("s");
            return Err(SlipstreamError::Transport(m));
        }
        match self.splitter.push(block) {
            Some((blocks, bytes)) => Ok(
                Some(
                    SubChunk {
                        plan_index: cursor.plan_index,
                        sub_index: cursor.next_sub_index,
                        is_last: false,
                        bytes,
                        blocks,
                    },
                ),
            ),
            None => Ok(None),
        }
    }

    /// The stream ended cleanly: the rest is the final sub-chunk if it reaches the
    /// end of the plan chunk, else the stream was short and nothing of the rest is
    /// handed on.
    pub fn end(self, cursor: &PlanChunkCursor) -> (r: Result<SubChunk, SlipstreamError>)
        ensures
            ({
                let c = self.collected();
                if c.len() > 0 && c.last().height == cursor.end {
                    r matches Ok(sub) && cursor.is_next(sub, c, true)
                } else {
                    r matches Err(SlipstreamError::Transport(m)) && m@ == short_stream_text(
                        self.name(),
                        if c.len() > 0 {
                            c.last().height as nat
                        } else if cursor.resume_from > 0 {
                            (cursor.resume_from - 1) as nat
                        } else {
                            0
                        },
                        cursor.end as nat,
                    )
                }
            }),
    {
        let name: String = self.name;
        let mut got: u64 = cursor.resume_from.saturating_sub(1);
        match self.splitter.finish() {
            Some((blocks, bytes)) => {
                let last: usize = blocks.len() - 1;
                if blocks[last].height == cursor.end {
                    return Ok(
                        SubChunk {
                            plan_index: cursor.plan_index,
                            sub_index: cursor.next_sub_index,
                            is_last: true,
                            bytes,
                            blocks,
                        },
                    );
                }
                got = blocks[last].height;
            },
            None => {},
        }
        let mut m: String = name;
        m.push_str(": stream ended short at ");
        push_dec(&mut m, got);
        m.push_str(", expected ");
        push_dec(&mut m, cursor.end);
        Err(SlipstreamError::Transport(m))
    }

    /// The error where nothing came of the stream for so many seconds.
    pub fn silent(&self, secs: u64) -> (r: SlipstreamError)
        ensures
            r matches SlipstreamError::Transport(m) && m@ == self.name()
                + ": stream idle timeout ("@ + dec(secs as nat) + "s without a message)"@,
    {
        let mut m: String = self.name.clone();
        m.push_str(": stream idle timeout (");
        push_dec(&mut m, secs);
        m.push_str("s without a message)");
        SlipstreamError::Transport(m)
    }

    /// The error of an attempt whose stream broke with these words.
    pub fn broken(&self, detail: &str) -> (r: SlipstreamError)
        ensures
            r matches SlipstreamError::Transport(m) && m@ == self.name() + ": "@ + detail@,
    {
        let mut m: String = self.name.clone();
        m.push_str(": ");
        m.push_str(detail);
        SlipstreamError::Transport(m)
    }
}

/// Blocks of consecutive heights from `height` on.
pub open spec fn heights_from(blocks: Seq<CompactBlock>, height: int) -> bool {
    forall|i: int| 0 <= i < blocks.len() ==> (#[trigger] blocks[i]).height == height + i
}

/// The cursor once all sub-chunks have been handed on.
pub open spec fn after_all(
    cursor: PlanChunkCursor,
    subs: Seq<Seq<CompactBlock>>,
) -> PlanChunkCursor
    decreases subs.len(),
{
    if subs.len() == 0 {
        cursor
    } else {
        after_all(cursor, subs.drop_last()).after(subs.last())
    }
}

/// Where a server delivers consecutive heights from the requested one on, the
/// cursor stands exactly past the blocks that were handed on, and the indices of
/// their sub-chunks are dense. A retry therefore asks for the first height that
/// was not handed on: no height is skipped and none comes twice.
pub proof fn law_resume_point(cursor: PlanChunkCursor, subs: Seq<Seq<CompactBlock>>)
    requires
        heights_from(joined(subs), cursor.resume_from as int),
        forall|i: int| 0 <= i < subs.len() ==> (#[trigger] subs[i]).len() > 0,
        cursor.resume_from + joined(subs).len() <= u64::MAX,
        cursor.next_sub_index + subs.len() <= u64::MAX,
    ensures
        after_all(cursor, subs).resume_from == cursor.resume_from + joined(subs).len(),
        after_all(cursor, subs).next_sub_index == cursor.next_sub_index + subs.len(),
        after_all(cursor, subs).plan_index == cursor.plan_index,
        after_all(cursor, subs).end == cursor.end,
        after_all(cursor, subs).emitted_this_attempt == (subs.len() > 0
            || cursor.emitted_this_attempt),
    decreases subs.len(),
{
    if subs.len() > 0 {
        let front = subs.drop_last();
        assert forall|i: int| 0 <= i < joined(front).len() implies (#[trigger] joined(
            front,
        )[i]).height == cursor.resume_from + i by {
            assert(joined(subs)[i] == joined(front)[i]);
        }
        assert forall|i: int| 0 <= i < front.len() implies (#[trigger] front[i]).len() > 0 by {
            assert(front[i] == subs[i]);
        }
        law_resume_point(cursor, front);
        assert(subs.last() == subs[subs.len() - 1]);
        assert(joined(subs)[joined(subs).len() - 1] == subs.last().last());
    }
}

/// A sub-chunk that stands next in line is of the cursor's plan chunk, has the index that
/// follows those before it, and holds exactly the blocks, with all their bytes.
pub proof fn law_next_sub_chunk_holds_the_blocks(
    cursor: PlanChunkCursor,
    sub: SubChunk,
    blocks: Seq<CompactBlock>,
    is_last: bool,
)
    ensures
        cursor.is_next(sub, blocks, is_last) <==> sub.plan_index == cursor.plan_index
            && sub.sub_index == cursor.next_sub_index && sub.is_last == is_last && sub.blocks@
            == blocks && sub.bytes == wire_total(blocks),
{
}

/// One sub-chunk moves the cursor to the height behind its last block and to the next index,
/// and changes nothing of the plan chunk.
pub proof fn law_cursor_moves_behind_the_blocks(
    cursor: PlanChunkCursor,
    blocks: Seq<CompactBlock>,
)
    requires
        blocks.len() > 0,
        blocks.last().height < u64::MAX,
        cursor.next_sub_index < u64::MAX,
    ensures
        cursor.after(blocks).resume_from == blocks.last().height + 1,
        cursor.after(blocks).next_sub_index == cursor.next_sub_index + 1,
        cursor.after(blocks).emitted_this_attempt,
        cursor.after(blocks).plan_index == cursor.plan_index,
        cursor.after(blocks).end == cursor.end,
{
}

/// The errors of a stream name the heights it was to bring and its plan chunk, how far it
/// came, or how long nothing was completed.
pub proof fn law_stream_errors_are_told(cursor: PlanChunkCursor, got: nat, secs: nat)
    ensures
        stream_name(cursor) == "block stream "@ + dec(cursor.resume_from as nat) + ".."@ + dec(
            cursor.end as nat,
        ) + " (plan chunk "@ + dec(cursor.plan_index as nat) + ")"@,
        short_stream_text(stream_name(cursor), got, cursor.end as nat) == stream_name(cursor)
            + ": stream ended short at "@ + dec(got) + ", expected "@ + dec(cursor.end as nat),
        no_progress_text(stream_name(cursor), secs) == stream_name(cursor)
            + ": no completed sub-chunk within "@ + dec(secs) + "s"@,
{
}

} // verus!
