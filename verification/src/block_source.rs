//! Compact blocks as the engine handles them, and the in-memory source that
//! serves one chunk of them to a scan.
use prost::Message;
use vstd::prelude::*;

verus! {

/// A compact block: what the engine reads of it, and its wire form.
#[derive(Clone, Debug)]
pub struct CompactBlock {
    pub height: u64,
    pub hash: Vec<u8>,
    pub prev_hash: Vec<u8>,
    /// The length of the encoded message.
    pub wire_len: usize,
    /// The encoded message.
    pub wire: Vec<u8>,
}

/// What decoding a compact block message gives: its height, its hash, the hash
/// of its predecessor and its encoded length; nothing for bytes that are no such
/// message.
pub uninterp spec fn compact_block_fields(wire: Seq<u8>) -> Option<
    (u64, Seq<u8>, Seq<u8>, usize),
>;

/// `Message::decode` of prost on a `CompactBlock`, and `Message::encoded_len` of
/// the decoded message. What bytes decode to what is left to
/// [`compact_block_fields`].
#[verifier::external_body]
fn decode_block(wire: &Vec<u8>) -> (r: Option<(u64, Vec<u8>, Vec<u8>, usize)>)
    ensures
        match r {
            Some(f) => compact_block_fields(wire@) == Some((f.0, f.1@, f.2@, f.3)),
            None => compact_block_fields(wire@) is None,
        },
{
    match zcash_client_backend::proto::compact_formats::CompactBlock::decode(&wire[..]) {
        Ok(b) => {
            let n = b.encoded_len();
            Some((b.height, b.hash, b.prev_hash, n))
        },
        Err(_) => None,
    }
}

impl CompactBlock {
    /// Reads an encoded message; nothing where it does not decode.
    pub fn from_wire(wire: Vec<u8>) -> (r: Option<CompactBlock>)
        ensures
            match r {
                Some(b) => compact_block_fields(wire@) == Some(
                    (b.height, b.hash@, b.prev_hash@, b.wire_len),
                ) && b.wire@ == wire@,
                None => compact_block_fields(wire@) is None,
            },
    {
        match decode_block(&wire) {
            Some((height, hash, prev_hash, wire_len)) => {
                Some(CompactBlock { height, hash, prev_hash, wire_len, wire })
            },
            None => None,
        }
    }
}

/// The sum of the encoded lengths of blocks.
pub open spec fn wire_total(blocks: Seq<CompactBlock>) -> nat
    decreases blocks.len(),
{
    if blocks.len() == 0 {
        0
    } else {
        wire_total(blocks.drop_last()) + blocks.last().wire_len as nat
    }
}

/// One run of consecutive blocks on its way from the fetch to the scan.
#[derive(Clone, Debug)]
pub struct Chunk {
    /// Dense from zero.
    pub index: u64,
    pub blocks: Vec<CompactBlock>,
    /// The sum of the encoded lengths of the blocks.
    pub estimated_bytes: u64,
}

impl Chunk {
    /// Wraps blocks as the chunk of the given index.
    pub fn from_blocks(index: u64, blocks: Vec<CompactBlock>) -> (r: Chunk)
        requires
            wire_total(blocks@) <= u64::MAX,
        ensures
            r.index == index,
            r.blocks == blocks,
            r.estimated_bytes == wire_total(blocks@),
    {
        let mut total: u64 = 0;
        let mut i: usize = 0;
        while i < blocks.len()
            invariant
                0 <= i <= blocks@.len(),
                total == wire_total(blocks@.take(i as int)),
                wire_total(blocks@) <= u64::MAX,
            decreases blocks@.len() - i,
        {
            proof {
                assert(blocks@.take(i + 1).drop_last() =~= blocks@.take(i as int));
                lemma_wire_total_prefix(blocks@, i + 1);
            }
            total = total + blocks[i].wire_len as u64;
            i = i + 1;
        }
        assert(blocks@.take(blocks@.len() as int) =~= blocks@);
        Chunk { index, blocks, estimated_bytes: total }
    }
}

/// A prefix of blocks is no longer on the wire than all of them.
pub proof fn lemma_wire_total_prefix(blocks: Seq<CompactBlock>, n: int)
    requires
        0 <= n <= blocks.len(),
    ensures
        wire_total(blocks.take(n)) <= wire_total(blocks),
    decreases blocks.len() - n,
{
    if n == blocks.len() {
        assert(blocks.take(n) =~= blocks);
    } else {
        assert(blocks.take(n + 1).drop_last() =~= blocks.take(n));
        lemma_wire_total_prefix(blocks, n + 1);
    }
}

/// Serves exactly one chunk. A scan walks it twice, first to feed the decryption,
/// then to process what came out; the time of each walk is kept.
pub struct MemBlockSource<'a> {
    chunk: &'a Chunk,
    walk_wall: Vec<u64>,
}

/// The blocks at or above `from`, in order, at most `limit` of them.
pub open spec fn served(
    blocks: Seq<CompactBlock>,
    from: Option<u32>,
    limit: Option<usize>,
) -> Seq<CompactBlock> {
    let floor = match from {
        Some(h) => h as u64,
        None => 0u64,
    };
    let eligible = blocks.filter(|b: CompactBlock| b.height >= floor);
    match limit {
        Some(l) if l < eligible.len() => eligible.take(l as int),
        _ => eligible,
    }
}

/// The `i`-th entry, zero where there is none.
pub open spec fn entry_or_zero(s: Seq<u64>, i: int) -> u64 {
    if 0 <= i < s.len() {
        s[i]
    } else {
        0
    }
}

impl<'a> MemBlockSource<'a> {
    /// The chunk that is served.
    pub closed spec fn blocks(&self) -> Seq<CompactBlock> {
        self.chunk.blocks@
    }

    /// The walks so far, in nanoseconds each.
    pub closed spec fn walks(&self) -> Seq<u64> {
        self.walk_wall@
    }

    /// A source of the blocks of `chunk` that was not walked yet.
    pub fn new(chunk: &'a Chunk) -> (r: Self)
        ensures
            r.blocks() == chunk.blocks@,
            r.walks() == Seq::<u64>::empty(),
    {
        MemBlockSource { chunk, walk_wall: Vec::new() }
    }

    /// The times of the first and the second walk in nanoseconds, zero for a
    /// walk that did not happen.
    pub fn walk_walls(&self) -> (r: (u64, u64))
        ensures
            r.0 == entry_or_zero(self.walks(), 0),
            r.1 == entry_or_zero(self.walks(), 1),
    {
        let first: u64 = if self.walk_wall.len() > 0 {
            self.walk_wall[0]
        } else {
            0
        };
        let second: u64 = if self.walk_wall.len() > 1 {
            self.walk_wall[1]
        } else {
            0
        };
        (first, second)
    }

    /// Notes that a walk took this many nanoseconds.
    pub fn record_walk(&mut self, nanos: u64)
        ensures
            final(self).blocks() == old(self).blocks(),
            final(self).walks() == old(self).walks().push(nanos),
    {
        self.walk_wall.push(nanos);
    }

    /// The blocks that a walk from `from_height` with this limit visits, in order.
    pub fn with_blocks(&self, from_height: Option<u32>, limit: Option<usize>) -> (r: Vec<
        &'a CompactBlock,
    >)
        ensures
            r@.map_values(|b: &CompactBlock| *b) == served(self.blocks(), from_height, limit),
    {
        let floor: u64 = match from_height {
            Some(h) => h as u64,
            None => 0,
        };
        let blocks: &'a Vec<CompactBlock> = &self.chunk.blocks;
        let mut out: Vec<&'a CompactBlock> = Vec::new();
        let ghost pred = |b: CompactBlock| b.height >= floor;
        let mut i: usize = 0;
        let ghost mut eligible = Seq::<CompactBlock>::empty();
        proof {
            reveal(Seq::filter);
            assert(blocks@.take(0).filter(pred) =~= Seq::empty());
        }
        while i < blocks.len()
            invariant
                0 <= i <= blocks@.len(),
                pred == (|b: CompactBlock| b.height >= floor),
                eligible == blocks@.take(i as int).filter(pred),
                ({
                    let got = out@.map_values(|b: &CompactBlock| *b);
                    match limit {
                        Some(l) if l < eligible.len() => got == eligible.take(l as int),
                        _ => got == eligible,
                    }
                }),
            decreases blocks@.len() - i,
        {
            let ghost before = eligible;
            let ghost got = out@.map_values(|b: &CompactBlock| *b);
            proof {
                reveal(Seq::filter);
                assert(blocks@.take(i + 1).drop_last() =~= blocks@.take(i as int));
                eligible = blocks@.take(i + 1).filter(pred);
            }
            let b: &'a CompactBlock = &blocks[i];
            if b.height >= floor {
                let room: bool = match limit {
                    Some(l) => out.len() < l,
                    None => true,
                };
                if room {
                    out.push(b);
                    assert(out@.map_values(|b: &CompactBlock| *b) =~= got.push(*b));
                    assert(got =~= before);
                    assert(eligible.take(eligible.len() as int) =~= eligible);
                } else {
                    assert(eligible.take(limit->Some_0 as int) =~= before.take(
                        limit->Some_0 as int,
                    ));
                    assert(before.take(before.len() as int) =~= before);
                }
            }
            i = i + 1;
        }
        assert(blocks@.take(blocks@.len() as int) =~= blocks@);
        out
    }
}

/// The bytes of blocks are those of each: nothing for none, those of one block for one, and
/// for two runs the bytes of both.
pub proof fn law_wire_bytes_add_up(a: Seq<CompactBlock>, b: Seq<CompactBlock>, block: CompactBlock)
    ensures
        wire_total(Seq::empty()) == 0,
        wire_total(seq![block]) == block.wire_len,
        wire_total(a + b) == wire_total(a) + wire_total(b),
    decreases b.len(),
{
    reveal_with_fuel(wire_total, 2);
    assert(seq![block].drop_last() =~= Seq::<CompactBlock>::empty());
    if b.len() == 0 {
        assert(a + b =~= a);
    } else {
        law_wire_bytes_add_up(a, b.drop_last(), block);
        assert((a + b).drop_last() =~= a + b.drop_last());
        assert((a + b).last() == b.last());
    }
}

/// A walk visits every block from the asked height on and none below it, each run of blocks
/// after the one before it; a limit cuts the walk off behind so many blocks.
pub proof fn law_walk_visits_all_from_the_height(
    a: Seq<CompactBlock>,
    b: Seq<CompactBlock>,
    block: CompactBlock,
    from: Option<u32>,
    limit: usize,
)
    ensures
        served(a + b, from, None) == served(a, from, None) + served(b, from, None),
        (from matches Some(h) ==> block.height >= h) ==> served(seq![block], from, None) == seq![
            block,
        ],
        (from matches Some(h) && block.height < h) ==> served(seq![block], from, None).len() == 0,
        served(a, from, Some(limit)) == if limit < served(a, from, None).len() {
            served(a, from, None).take(limit as int)
        } else {
            served(a, from, None)
        },
{
    reveal_with_fuel(Seq::filter, 2);
    let floor = match from {
        Some(h) => h as u64,
        None => 0u64,
    };
    let pred = |b: CompactBlock| b.height >= floor;
    Seq::filter_distributes_over_add(a, b, pred);
    assert(seq![block].drop_last() =~= Seq::<CompactBlock>::empty());
    assert(seq![block].filter(pred) =~= if pred(block) {
        seq![block]
    } else {
        Seq::empty()
    });
}

/// A walk that did not happen took no time.
pub proof fn law_missing_walks_took_nothing(s: Seq<u64>, i: int)
    ensures
        0 <= i < s.len() ==> entry_or_zero(s, i) == s[i],
        i >= s.len() ==> entry_or_zero(s, i) == 0,
{
}

} // verus!
