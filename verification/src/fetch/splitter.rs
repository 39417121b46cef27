//! Cuts a stream of blocks into sub-chunks of a bounded number of bytes.
use crate::block_source::{wire_total, CompactBlock};
use vstd::prelude::*;

verus! {

/// Collects streamed blocks and yields a sub-chunk whenever the next block would
/// exceed the budget; that block then opens the next sub-chunk.
pub struct ChunkSplitter {
    split_bytes: usize,
    acc: Vec<CompactBlock>,
    acc_bytes: usize,
}

/// Whether a block no longer fits beside what is collected.
pub open spec fn overflows(acc: Seq<CompactBlock>, budget: nat, block: CompactBlock) -> bool {
    acc.len() > 0 && wire_total(acc) + block.wire_len > budget
}

impl ChunkSplitter {
    /// The budget per sub-chunk.
    pub closed spec fn budget(&self) -> nat {
        self.split_bytes as nat
    }

    /// What is collected.
    pub closed spec fn collected(&self) -> Seq<CompactBlock> {
        self.acc@
    }

    #[verifier::type_invariant]
    spec fn bytes_are_counted(&self) -> bool {
        self.acc_bytes == wire_total(self.acc@)
    }

    /// A splitter with this budget that has collected nothing.
    pub fn new(split_bytes: usize) -> (r: Self)
        ensures
            r.budget() == split_bytes,
            r.collected() == Seq::<CompactBlock>::empty(),
    {
        ChunkSplitter { split_bytes, acc: Vec::new(), acc_bytes: 0 }
    }

    /// Takes the next block; gives the collected blocks and their bytes where the
    /// block does not fit beside them.
    pub fn push(&mut self, block: CompactBlock) -> (r: Option<(Vec<CompactBlock>, usize)>)
        requires
            wire_total(old(self).collected()) + block.wire_len <= usize::MAX,
        ensures
            final(self).budget() == old(self).budget(),
            r is Some <==> overflows(old(self).collected(), old(self).budget(), block),
            r matches Some(out) ==> out.0@ == old(self).collected() && out.1 == wire_total(out.0@)
                && final(self).collected() == seq![block],
            r is None ==> final(self).collected() == old(self).collected().push(block),
    {
        proof {
            use_type_invariant(&*self);
        }
        let n: usize = block.wire_len;
        let mut acc: Vec<CompactBlock> = Vec::new();
        let mut bytes: usize = 0;
        let split_bytes: usize = self.split_bytes;
        let mut whole: ChunkSplitter = ChunkSplitter { split_bytes, acc: Vec::new(), acc_bytes: 0 };
        core::mem::swap(self, &mut whole);
        let had: Vec<CompactBlock> = whole.acc;
        let had_bytes: usize = whole.acc_bytes;
        let mut completed: Option<(Vec<CompactBlock>, usize)> = None;
        if had.len() > 0 && had_bytes + n > split_bytes {
            completed = Some((had, had_bytes));
        } else {
            acc = had;
            bytes = had_bytes;
        }
        acc.push(block);
        assert(acc@.drop_last() =~= if completed is Some {
            Seq::empty()
        } else {
            old(self).collected()
        });
        bytes = bytes + n;
        *self = ChunkSplitter { split_bytes, acc, acc_bytes: bytes };
        completed
    }

    /// The rest at the end of the stream, where there is any.
    pub fn finish(self) -> (r: Option<(Vec<CompactBlock>, usize)>)
        ensures
            r is Some <==> self.collected().len() > 0,
            r matches Some(out) ==> out.0@ == self.collected() && out.1 == wire_total(out.0@),
    {
        proof {
            use_type_invariant(&self);
        }
        if self.acc.len() == 0 {
            None
        } else {
            Some((self.acc, self.acc_bytes))
        }
    }
}

/// The blocks of sub-chunks, one after the other.
pub open spec fn joined(subs: Seq<Seq<CompactBlock>>) -> Seq<CompactBlock>
    decreases subs.len(),
{
    if subs.len() == 0 {
        Seq::empty()
    } else {
        joined(subs.drop_last()) + subs.last()
    }
}

/// The sub-chunks that a splitter yields while it takes `blocks`, and what it has
/// collected then.
pub open spec fn split_run(
    acc: Seq<CompactBlock>,
    budget: nat,
    blocks: Seq<CompactBlock>,
) -> (Seq<Seq<CompactBlock>>, Seq<CompactBlock>)
    decreases blocks.len(),
{
    if blocks.len() == 0 {
        (Seq::empty(), acc)
    } else {
        let (subs, had) = split_run(acc, budget, blocks.drop_last());
        if overflows(had, budget, blocks.last()) {
            (subs.push(had), seq![blocks.last()])
        } else {
            (subs, had.push(blocks.last()))
        }
    }
}

/// A sub-chunk that may be yielded: not empty, and within the budget unless it is
/// one single block.
pub open spec fn sub_chunk_ok(sub: Seq<CompactBlock>, budget: nat) -> bool {
    sub.len() > 0 && (sub.len() == 1 || wire_total(sub) <= budget)
}

/// The block that follows the `i`-th sub-chunk: the first of the next one, or of the rest.
pub open spec fn block_after(
    subs: Seq<Seq<CompactBlock>>,
    rest: Seq<CompactBlock>,
    i: int,
) -> CompactBlock {
    if i + 1 < subs.len() {
        subs[i + 1][0]
    } else {
        rest[0]
    }
}

/// Splitting loses no block, repeats none and keeps their order; every sub-chunk
/// holds a block and keeps to the budget unless it is one oversized block, and the block
/// that follows it would not have fitted beside it.
pub proof fn law_splitting(budget: nat, blocks: Seq<CompactBlock>)
    ensures
        ({
            let (subs, rest) = split_run(Seq::empty(), budget, blocks);
            &&& joined(subs) + rest == blocks
            &&& forall|i: int| 0 <= i < subs.len() ==> sub_chunk_ok(#[trigger] subs[i], budget)
            &&& blocks.len() > 0 ==> sub_chunk_ok(rest, budget)
            &&& forall|i: int|
                0 <= i < subs.len() ==> overflows(
                    #[trigger] subs[i],
                    budget,
                    block_after(subs, rest, i),
                )
        }),
    decreases blocks.len(),
{
    let (subs, rest) = split_run(Seq::empty(), budget, blocks);
    if blocks.len() == 0 {
        assert(joined(subs) + rest =~= blocks);
    } else {
        law_splitting(budget, blocks.drop_last());
        let (subs0, had) = split_run(Seq::empty(), budget, blocks.drop_last());
        assert(blocks.drop_last().push(blocks.last()) =~= blocks);
        if blocks.drop_last().len() == 0 {
            assert(had =~= Seq::empty());
        }
        if overflows(had, budget, blocks.last()) {
            assert(subs.drop_last() =~= subs0);
            assert(joined(subs) + rest =~= blocks);
            assert forall|i: int| 0 <= i < subs.len() implies sub_chunk_ok(
                #[trigger] subs[i],
                budget,
            ) by {
                if i < subs0.len() {
                    assert(subs[i] == subs0[i]);
                }
            }
            assert forall|i: int| 0 <= i < subs.len() implies overflows(
                #[trigger] subs[i],
                budget,
                block_after(subs, rest, i),
            ) by {
                if i < subs0.len() {
                    assert(subs[i] == subs0[i]);
                    assert(block_after(subs, rest, i) == block_after(subs0, had, i));
                }
            }
        } else {
            assert(rest.drop_last() =~= had);
            assert(joined(subs) + rest =~= (joined(subs0) + had).push(blocks.last()));
            assert forall|i: int| 0 <= i < subs.len() implies overflows(
                #[trigger] subs[i],
                budget,
                block_after(subs, rest, i),
            ) by {
                assert(block_after(subs, rest, i) == block_after(subs0, had, i));
            }
        }
    }
}

/// A block no longer fits exactly where something is collected and the block would take its
/// bytes beyond the budget: a block that fills the budget to the last byte still fits, and
/// the first one always does.
pub proof fn law_blocks_fit_to_the_last_byte(
    acc: Seq<CompactBlock>,
    budget: nat,
    block: CompactBlock,
)
    ensures
        !overflows(Seq::empty(), budget, block),
        acc.len() > 0 ==> (overflows(acc, budget, block) <==> wire_total(acc.push(block)) > budget),
{
    assert(acc.push(block).drop_last() =~= acc);
}

} // verus!
