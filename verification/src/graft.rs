//! The graft buffer: how the commitments of still-open, note-free shards are laid
//! out in the `ext_slipstream_graft_buffer` table, one row per position.
use crate::grpc::{pool_node_fault, pool_order, read_pool_node, starts_with_node};
use crate::text::{push_signed, signed_dec};
use vstd::prelude::*;

verus! {

/// Why a checkpointed leaf is kept.
#[derive(Clone, Copy, Debug, PartialEq, Eq, Structural)]
pub enum Marking {
    Unmarked,
    Marked,
    Reference,
}

/// How long the commitment tree keeps a leaf. `id` is the height of the block
/// whose checkpoint the leaf carries.
#[derive(Clone, Copy, Debug, PartialEq, Eq, Structural)]
pub enum Retention {
    Ephemeral,
    Marked,
    Checkpoint { id: u32, marking: Marking },
    Reference,
}

/// The shielded value pools.
#[derive(Clone, Copy, Debug, PartialEq, Eq, Structural)]
pub enum ShieldedPool {
    Sapling,
    Orchard,
    Ironwood,
}

/// One buffered commitment: its absolute position, its hash, its retention.
pub type BufferRow<H> = (u64, H, Retention);

/// DDL of the graft buffer, run only by the schema migration.
pub const GRAFT_BUFFER_DDL: &'static str =
    "CREATE TABLE ext_slipstream_graft_buffer (
    pool INTEGER NOT NULL,
    shard_index INTEGER NOT NULL,
    position INTEGER NOT NULL,
    commitment BLOB NOT NULL,
    retention_kind INTEGER NOT NULL,
    checkpoint_height INTEGER,
    marking INTEGER,
    PRIMARY KEY (pool, shard_index, position)
) WITHOUT ROWID";

/// The number that stands for a pool in the buffer table.
pub open spec fn pool_code_spec(pool: ShieldedPool) -> i64 {
    match pool {
        ShieldedPool::Sapling => 2,
        ShieldedPool::Orchard => 3,
        ShieldedPool::Ironwood => 4,
    }
}

/// The number that stands for a pool in the buffer table.
pub fn pool_code(pool: ShieldedPool) -> (r: i64)
    ensures
        r == pool_code_spec(pool),
{
    match pool {
        ShieldedPool::Sapling => 2,
        ShieldedPool::Orchard => 3,
        ShieldedPool::Ironwood => 4,
    }
}

/// Two pools never share a code, so their rows never collide.
pub proof fn law_pool_codes_are_distinct(a: ShieldedPool, b: ShieldedPool)
    ensures
        pool_code_spec(a) == pool_code_spec(b) <==> a == b,
{
}

/// The number that stands for a marking.
pub open spec fn marking_code(m: Marking) -> i64 {
    match m {
        Marking::Unmarked => 0,
        Marking::Marked => 1,
        Marking::Reference => 2,
    }
}

/// The columns `retention_kind`, `checkpoint_height` and `marking` of a retention.
pub open spec fn retention_columns(r: Retention) -> (i64, Option<i64>, Option<i64>) {
    match r {
        Retention::Ephemeral => (0, None, None),
        Retention::Marked => (1, None, None),
        Retention::Checkpoint { id, marking } => (2, Some(id as i64), Some(marking_code(marking))),
        Retention::Reference => (3, None, None),
    }
}

/// Encodes a retention as its three columns.
pub fn encode_retention(r: &Retention) -> (c: (i64, Option<i64>, Option<i64>))
    ensures
        c == retention_columns(*r),
{
    match r {
        Retention::Ephemeral => (0, None, None),
        Retention::Marked => (1, None, None),
        Retention::Checkpoint { id, marking } => {
            let m: i64 = match marking {
                Marking::Unmarked => 0,
                Marking::Marked => 1,
                Marking::Reference => 2,
            };
            (2, Some(*id as i64), Some(m))
        },
        Retention::Reference => (3, None, None),
    }
}

/// Why three columns are not a retention.
#[derive(Clone, Copy, Debug, PartialEq, Eq, Structural)]
pub enum CorruptRetention {
    /// A checkpoint row without a height.
    MissingHeight,
    /// A height outside the range of block heights.
    HeightOutOfRange,
    /// A marking that is none of the three.
    BadMarking(i64),
    /// A kind that is none of the four.
    BadKind(i64),
}

impl CorruptRetention {
    /// The sentence that describes the error.
    pub open spec fn text(self) -> Seq<char> {
        match self {
            CorruptRetention::MissingHeight => "graft buffer: checkpoint row without height"@,
            CorruptRetention::HeightOutOfRange => "graft buffer: height out of range"@,
            CorruptRetention::BadMarking(m) => "graft buffer: bad marking "@ + signed_dec(m as int),
            CorruptRetention::BadKind(k) => "graft buffer: bad retention kind "@ + signed_dec(
                k as int,
            ),
        }
    }

    /// The sentence that describes the error.
    pub fn message(&self) -> (r: String)
        ensures
            r@ == self.text(),
    {
        match self {
            CorruptRetention::MissingHeight => {
                "graft buffer: checkpoint row without height".to_owned()
            },
            CorruptRetention::HeightOutOfRange => "graft buffer: height out of range".to_owned(),
            CorruptRetention::BadMarking(m) => {
                let mut s: String = "graft buffer: bad marking ".to_owned();
                push_signed(&mut s, *m);
                s
            },
            CorruptRetention::BadKind(k) => {
                let mut s: String = "graft buffer: bad retention kind ".to_owned();
                push_signed(&mut s, *k);
                s
            },
        }
    }
}

/// What three columns mean. A checkpoint row needs a height that is a block
/// height; its marking defaults to none.
pub open spec fn retention_of_columns(
    kind: i64,
    checkpoint_height: Option<i64>,
    marking: Option<i64>,
) -> Result<Retention, CorruptRetention> {
    if kind == 0 {
        Ok(Retention::Ephemeral)
    } else if kind == 1 {
        Ok(Retention::Marked)
    } else if kind == 3 {
        Ok(Retention::Reference)
    } else if kind != 2 {
        Err(CorruptRetention::BadKind(kind))
    } else {
        match checkpoint_height {
            None => Err(CorruptRetention::MissingHeight),
            Some(h) => if !(0 <= h <= u32::MAX) {
                Err(CorruptRetention::HeightOutOfRange)
            } else {
                match marking {
                    None => Ok(Retention::Checkpoint { id: h as u32, marking: Marking::Unmarked }),
                    Some(0) => Ok(Retention::Checkpoint { id: h as u32, marking: Marking::Unmarked }),
                    Some(1) => Ok(Retention::Checkpoint { id: h as u32, marking: Marking::Marked }),
                    Some(2) => Ok(
                        Retention::Checkpoint { id: h as u32, marking: Marking::Reference },
                    ),
                    Some(m) => Err(CorruptRetention::BadMarking(m)),
                }
            },
        }
    }
}

/// Decodes the three columns of a retention.
pub fn decode_retention(kind: i64, checkpoint_height: Option<i64>, marking: Option<i64>) -> (r:
    Result<Retention, CorruptRetention>)
    ensures
        r == retention_of_columns(kind, checkpoint_height, marking),
{
    if kind == 0 {
        Ok(Retention::Ephemeral)
    } else if kind == 1 {
        Ok(Retention::Marked)
    } else if kind == 3 {
        Ok(Retention::Reference)
    } else if kind != 2 {
        Err(CorruptRetention::BadKind(kind))
    } else {
        match checkpoint_height {
            None => Err(CorruptRetention::MissingHeight),
            Some(h) => {
                if h < 0 || h > 0xffff_ffff {
                    return Err(CorruptRetention::HeightOutOfRange);
                }
                let code: i64 = match marking {
                    None => 0,
                    Some(m) => m,
                };
                if code == 0 {
                    Ok(Retention::Checkpoint { id: h as u32, marking: Marking::Unmarked })
                } else if code == 1 {
                    Ok(Retention::Checkpoint { id: h as u32, marking: Marking::Marked })
                } else if code == 2 {
                    Ok(Retention::Checkpoint { id: h as u32, marking: Marking::Reference })
                } else {
                    Err(CorruptRetention::BadMarking(code))
                }
            },
        }
    }
}

/// Reading back the columns of a retention gives that retention.
pub proof fn law_retention_round_trip(r: Retention)
    ensures
        retention_of_columns(
            retention_columns(r).0,
            retention_columns(r).1,
            retention_columns(r).2,
        ) == Ok::<Retention, CorruptRetention>(r),
{
}

/// Puts a row into the buffer, in place of the row at its position, if any: a rescan
/// changes nothing.
pub const APPEND_ROW_SQL: &'static str = "INSERT OR REPLACE INTO ext_slipstream_graft_buffer
         (pool, shard_index, position, commitment, retention_kind, checkpoint_height, marking)
         VALUES (?1, ?2, ?3, ?4, ?5, ?6, ?7)";

/// Reads the rows of a shard by position.
pub const LOAD_SHARD_SQL: &'static str =
    "SELECT position, commitment, retention_kind, checkpoint_height, marking
         FROM ext_slipstream_graft_buffer
         WHERE pool = ?1 AND shard_index = ?2
         ORDER BY position ASC";

/// Drops the rows of a shard.
pub const DELETE_SHARD_SQL: &'static str =
    "DELETE FROM ext_slipstream_graft_buffer WHERE pool = ?1 AND shard_index = ?2";

/// Drops the rows of a pool at and above a position.
pub const DELETE_FROM_POSITION_SQL: &'static str =
    "DELETE FROM ext_slipstream_graft_buffer WHERE pool = ?1 AND position >= ?2";

/// A buffered commitment as the columns of its row.
#[derive(Debug)]
pub struct BufferColumns {
    pub pool: i64,
    pub shard_index: i64,
    pub position: i64,
    pub commitment: Vec<u8>,
    pub retention_kind: i64,
    pub checkpoint_height: Option<i64>,
    pub marking: Option<i64>,
}

/// The columns of a row. Positions and shard indices are stored with the same bits, as
/// signed numbers.
pub fn encode_row(pool: ShieldedPool, shard_index: u64, row: &BufferRow<[u8; 32]>) -> (c:
    BufferColumns)
    ensures
        c.pool == pool_code_spec(pool),
        c.shard_index == shard_index as i64,
        c.position == row.0 as i64,
        c.commitment@ == row.1@,
        (c.retention_kind, c.checkpoint_height, c.marking) == retention_columns(row.2),
{
    let (retention_kind, checkpoint_height, marking): (i64, Option<i64>, Option<i64>) =
        encode_retention(&row.2);
    let node: [u8; 32] = row.1;
    let mut commitment: Vec<u8> = Vec::new();
    let mut i: usize = 0;
    while i < 32
        invariant
            0 <= i <= 32,
            commitment@ == node@.take(i as int),
        decreases 32 - i,
    {
        commitment.push(node[i]);
        i = i + 1;
        assert(commitment@ =~= node@.take(i as int));
    }
    assert(node@.take(32) =~= node@);
    BufferColumns {
        pool: pool_code(pool),
        shard_index: shard_index as i64,
        position: row.0 as i64,
        commitment,
        retention_kind,
        checkpoint_height,
        marking,
    }
}

/// The words of the error where the columns are no row of a pool's buffer.
pub open spec fn row_fault(pool: ShieldedPool, c: BufferColumns) -> Option<Seq<char>> {
    if !starts_with_node(c.commitment@, pool_order(pool)) {
        Some("graft buffer: hash de: "@ + pool_node_fault(pool, c.commitment@))
    } else {
        match retention_of_columns(c.retention_kind, c.checkpoint_height, c.marking) {
            Ok(_) => None,
            Err(e) => Some(e.text()),
        }
    }
}

/// Reads a row of a pool's buffer: its commitment must be a node of the pool's tree, and
/// its retention must be one.
pub fn decode_row(pool: ShieldedPool, c: &BufferColumns) -> (r: Result<
    BufferRow<[u8; 32]>,
    String,
>)
    ensures
        match row_fault(pool, *c) {
            None => {
                &&& r matches Ok(row)
                &&& row.0 == c.position as u64
                &&& row.1@ == c.commitment@.take(32)
                &&& retention_of_columns(c.retention_kind, c.checkpoint_height, c.marking) == Ok::<
                    Retention,
                    CorruptRetention,
                >(row.2)
            },
            Some(e) => r matches Err(m) && m@ == e,
        },
{
    let node: [u8; 32] = match read_pool_node(pool, &c.commitment) {
        Ok(node) => node,
        Err(e) => {
            let mut m: String = "graft buffer: hash de: ".to_owned();
            m.push_str(e.as_str());
            return Err(m);
        },
    };
    match decode_retention(c.retention_kind, c.checkpoint_height, c.marking) {
        Ok(retention) => Ok((c.position as u64, node, retention)),
        Err(e) => Err(e.message()),
    }
}

/// A buffered row reads back as it was written, whatever its position and retention, as
/// long as its commitment is a node of the pool's tree.
pub proof fn law_row_round_trip(
    pool: ShieldedPool,
    position: u64,
    node: Seq<u8>,
    retention: Retention,
    c: BufferColumns,
)
    requires
        node.len() == 32,
        starts_with_node(node, pool_order(pool)),
        c.position == position as i64,
        c.commitment@ == node,
        (c.retention_kind, c.checkpoint_height, c.marking) == retention_columns(retention),
    ensures
        row_fault(pool, c) is None,
        c.position as u64 == position,
        c.commitment@.take(32) == node,
        retention_of_columns(c.retention_kind, c.checkpoint_height, c.marking) == Ok::<
            Retention,
            CorruptRetention,
        >(retention),
{
    law_retention_round_trip(retention);
    assert(c.commitment@.take(32) =~= node);
    assert((position as i64) as u64 == position) by (bit_vector);
}

/// The numbers that the table holds: 2, 3 and 4 for the pools, 0 to 3 for the retentions, with
/// the height and the marking of a checkpoint and neither for any other.
pub proof fn law_table_numbers(id: u32, marking: Marking)
    ensures
        pool_code_spec(ShieldedPool::Sapling) == 2,
        pool_code_spec(ShieldedPool::Orchard) == 3,
        pool_code_spec(ShieldedPool::Ironwood) == 4,
        retention_columns(Retention::Ephemeral) == (0i64, None::<i64>, None::<i64>),
        retention_columns(Retention::Marked) == (1i64, None::<i64>, None::<i64>),
        retention_columns(Retention::Reference) == (3i64, None::<i64>, None::<i64>),
        retention_columns(Retention::Checkpoint { id, marking }).0 == 2,
        retention_columns(Retention::Checkpoint { id, marking }).1 == Some(id as i64),
        retention_columns(Retention::Checkpoint { id, marking }).2 == Some(marking_code(marking)),
        marking_code(Marking::Unmarked) == 0,
        marking_code(Marking::Marked) == 1,
        marking_code(Marking::Reference) == 2,
{
}

/// Columns that no retention has are corrupt, and the error says how: only a checkpoint needs
/// a height, which must be a block height, and a marking may be missing.
pub proof fn law_corrupt_columns(kind: i64, height: Option<i64>, marking: Option<i64>)
    ensures
        ({
            let r = retention_of_columns(kind, height, marking);
            &&& r is Ok <==> kind == 0 || kind == 1 || kind == 3 || (kind == 2 && (height
                matches Some(h) && 0 <= h <= 0xffff_ffff && (marking matches Some(m) ==> 0 <= m
                <= 2)))
            &&& !(0 <= kind <= 3) ==> r == Err::<Retention, CorruptRetention>(
                CorruptRetention::BadKind(kind),
            )
            &&& kind == 2 && height is None ==> r == Err::<Retention, CorruptRetention>(
                CorruptRetention::MissingHeight,
            )
            &&& (height matches Some(h) && kind == 2 && !(0 <= h <= 0xffff_ffff)) ==> r == Err::<
                Retention,
                CorruptRetention,
            >(CorruptRetention::HeightOutOfRange)
            &&& (height matches Some(h) && kind == 2 && 0 <= h <= 0xffff_ffff && (marking
                matches Some(m) && !(0 <= m <= 2))) ==> r == Err::<Retention, CorruptRetention>(
                CorruptRetention::BadMarking(marking->Some_0),
            )
            &&& kind == 2 && marking is None ==> r == retention_of_columns(kind, height, Some(0))
        }),
{
}

/// A row is read where its commitment is a node of the pool's tree and its columns are a
/// retention; else the first of the two that fails is told.
pub proof fn law_rows_that_are_refused(pool: ShieldedPool, c: BufferColumns)
    ensures
        row_fault(pool, c) is None <==> starts_with_node(c.commitment@, pool_order(pool))
            && retention_of_columns(c.retention_kind, c.checkpoint_height, c.marking) is Ok,
        !starts_with_node(c.commitment@, pool_order(pool)) ==> row_fault(pool, c) == Some(
            "graft buffer: hash de: "@ + pool_node_fault(pool, c.commitment@),
        ),
        starts_with_node(c.commitment@, pool_order(pool)) && retention_of_columns(
            c.retention_kind,
            c.checkpoint_height,
            c.marking,
        ) is Err ==> row_fault(pool, c) == Some(
            retention_of_columns(c.retention_kind, c.checkpoint_height, c.marking)->Err_0.text(),
        ),
{
}

/// The sentence of a corrupt retention says what it is, with the number that is none.
pub proof fn law_corruption_is_told(n: i64)
    ensures
        CorruptRetention::MissingHeight.text() == "graft buffer: checkpoint row without height"@,
        CorruptRetention::HeightOutOfRange.text() == "graft buffer: height out of range"@,
        CorruptRetention::BadMarking(n).text() == "graft buffer: bad marking "@ + signed_dec(
            n as int,
        ),
        CorruptRetention::BadKind(n).text() == "graft buffer: bad retention kind "@ + signed_dec(
            n as int,
        ),
{
}

} // verus!
