//! The graft buffer's rows.
use incrementalmerkletree::Hashable;
use orchard::tree::MerkleHashOrchard;
use rusqlite::Connection;
use zodl_slipstream::graft::{
    decode_retention, decode_row, encode_retention, encode_row, pool_code, BufferColumns,
    BufferRow, CorruptRetention, Marking, Retention, ShieldedPool, APPEND_ROW_SQL,
    DELETE_FROM_POSITION_SQL, DELETE_SHARD_SQL, GRAFT_BUFFER_DDL, LOAD_SHARD_SQL,
};

fn mem_conn() -> Connection {
    let conn = Connection::open_in_memory().expect("in-memory conn");
    conn.execute_batch(GRAFT_BUFFER_DDL).expect("table");
    conn
}

fn append_rows(conn: &Connection, pool: ShieldedPool, shard: u64, rows: &[BufferRow<[u8; 32]>]) {
    let mut stmt = conn.prepare(APPEND_ROW_SQL).expect("prepare");
    for row in rows {
        let c = encode_row(pool, shard, row);
        stmt.execute(rusqlite::params_from_iter([
            rusqlite::types::Value::from(c.pool),
            c.shard_index.into(),
            c.position.into(),
            c.commitment.into(),
            c.retention_kind.into(),
            c.checkpoint_height.into(),
            c.marking.into(),
        ]))
        .expect("append");
    }
}

fn load_shard(conn: &Connection, pool: ShieldedPool, shard: u64) -> Vec<BufferRow<[u8; 32]>> {
    let mut stmt = conn.prepare(LOAD_SHARD_SQL).expect("prepare");
    let rows = stmt
        .query_map([pool_code(pool), shard as i64], |row| {
            Ok(BufferColumns {
                pool: pool_code(pool),
                shard_index: shard as i64,
                position: row.get(0)?,
                commitment: row.get(1)?,
                retention_kind: row.get(2)?,
                checkpoint_height: row.get(3)?,
                marking: row.get(4)?,
            })
        })
        .expect("query");
    rows.map(|c| decode_row(pool, &c.expect("columns")).expect("row"))
        .collect()
}

fn h(n: u8) -> [u8; 32] {
    // Distinct valid nodes: hash the empty leaf up n levels.
    let mut v = MerkleHashOrchard::empty_leaf();
    for level in 0..n {
        v = MerkleHashOrchard::combine(incrementalmerkletree::Level::from(level), &v, &v);
    }
    v.to_bytes()
}

fn all_retentions() -> Vec<Retention> {
    vec![
        Retention::Ephemeral,
        Retention::Marked,
        Retention::Reference,
        Retention::Checkpoint {
            id: 123,
            marking: Marking::Unmarked,
        },
        Retention::Checkpoint {
            id: 456,
            marking: Marking::Marked,
        },
        Retention::Checkpoint {
            id: 789,
            marking: Marking::Reference,
        },
    ]
}

#[test]
fn append_load_round_trip_ordered_all_retentions() {
    let conn = mem_conn();
    let rows: Vec<BufferRow<[u8; 32]>> = all_retentions()
        .into_iter()
        .enumerate()
        .map(|(i, r)| (1000 + i as u64, h(i as u8), r))
        .collect();
    // Append out of order to prove ORDER BY, not insertion order.
    let mut shuffled = rows.clone();
    shuffled.reverse();
    append_rows(&conn, ShieldedPool::Orchard, 7, &shuffled);
    let loaded = load_shard(&conn, ShieldedPool::Orchard, 7);
    assert_eq!(loaded, rows);
}

#[test]
fn append_is_idempotent_under_rescan() {
    let conn = mem_conn();
    let rows = vec![
        (5, h(1), Retention::Ephemeral),
        (6, h(2), Retention::Marked),
    ];
    append_rows(&conn, ShieldedPool::Orchard, 0, &rows);
    append_rows(&conn, ShieldedPool::Orchard, 0, &rows);
    let loaded = load_shard(&conn, ShieldedPool::Orchard, 0);
    assert_eq!(
        loaded, rows,
        "REPLACE semantics — no duplicates, same content"
    );
}

#[test]
fn pools_and_shards_are_disjoint_and_delete_is_scoped() {
    let conn = mem_conn();
    let row = |p: u64| vec![(p, h(0), Retention::Ephemeral)];
    append_rows(&conn, ShieldedPool::Orchard, 1, &row(10));
    append_rows(&conn, ShieldedPool::Orchard, 2, &row(70_000));
    append_rows(&conn, ShieldedPool::Sapling, 1, &row(11));
    conn.execute(DELETE_SHARD_SQL, [pool_code(ShieldedPool::Orchard), 1])
        .expect("delete o1");
    assert!(load_shard(&conn, ShieldedPool::Orchard, 1).is_empty());
    assert_eq!(load_shard(&conn, ShieldedPool::Orchard, 2).len(), 1);
    assert_eq!(
        load_shard(&conn, ShieldedPool::Sapling, 1).len(),
        1,
        "sapling shard 1 untouched by orchard delete"
    );
}

#[test]
fn rewind_deletes_at_and_above_position() {
    let conn = mem_conn();
    let rows: Vec<BufferRow<[u8; 32]>> = (0..4u64)
        .map(|i| (100 + i, h(0), Retention::Ephemeral))
        .collect();
    append_rows(&conn, ShieldedPool::Orchard, 0, &rows);
    conn.execute(
        DELETE_FROM_POSITION_SQL,
        [pool_code(ShieldedPool::Orchard), 102],
    )
    .expect("rewind");
    let loaded = load_shard(&conn, ShieldedPool::Orchard, 0);
    assert_eq!(
        loaded.iter().map(|r| r.0).collect::<Vec<_>>(),
        vec![100, 101]
    );
}

#[test]
fn retentions_are_encoded() {
    assert_eq!(encode_retention(&Retention::Ephemeral), (0, None, None));
    assert_eq!(
        encode_retention(&Retention::Checkpoint {
            id: 9,
            marking: Marking::Reference
        }),
        (2, Some(9), Some(2))
    );
    assert_eq!(encode_retention(&Retention::Marked), (1, None, None));
    assert_eq!(encode_retention(&Retention::Reference), (3, None, None));
    for r in all_retentions() {
        let (k, h, m) = encode_retention(&r);
        assert_eq!(decode_retention(k, h, m).ok(), Some(r));
    }
    let fault = |k, h, m| match decode_retention(k, h, m) {
        Err(e) => e.message(),
        Ok(r) => panic!("{r:?}"),
    };
    assert!(matches!(
        decode_retention(4, None, None),
        Err(CorruptRetention::BadKind(4))
    ));
    assert_eq!(fault(4, None, None), "graft buffer: bad retention kind 4");
    assert_eq!(
        fault(2, None, Some(0)),
        "graft buffer: checkpoint row without height"
    );
    assert_eq!(
        fault(2, Some(-1), Some(0)),
        "graft buffer: height out of range"
    );
    assert_eq!(fault(2, Some(1), Some(7)), "graft buffer: bad marking 7");
    assert!(matches!(
        decode_retention(2, Some(1), None),
        Ok(Retention::Checkpoint {
            id: 1,
            marking: Marking::Unmarked
        })
    ));
}

#[test]
fn pool_codes_are_stable() {
    assert_eq!(pool_code(ShieldedPool::Sapling), 2);
    assert_eq!(pool_code(ShieldedPool::Orchard), 3);
    assert_eq!(pool_code(ShieldedPool::Ironwood), 4);
}

#[test]
fn rows_that_are_no_nodes_are_refused() {
    let good = encode_row(ShieldedPool::Orchard, 0, &(1, h(0), Retention::Marked));
    assert!(decode_row(ShieldedPool::Orchard, &good).is_ok());
    let short = BufferColumns {
        commitment: vec![0; 31],
        ..good
    };
    assert!(decode_row(ShieldedPool::Orchard, &short).is_err());
    let beyond = BufferColumns {
        commitment: vec![0xff; 32],
        ..short
    };
    for pool in [
        ShieldedPool::Sapling,
        ShieldedPool::Orchard,
        ShieldedPool::Ironwood,
    ] {
        assert!(decode_row(pool, &beyond).is_err(), "{pool:?}");
    }
}
