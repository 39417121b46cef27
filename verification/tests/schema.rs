//! The engine's schema and the staged chain.
use rusqlite::Connection;
use zodl_slipstream::darkside::{darkside_err, reset, reset_with_tree_sizes};
use zodl_slipstream::graft::GRAFT_BUFFER_DDL;
use zodl_slipstream::migrations::{
    external_migrations, reconcile_ironwood_batches, schema_init_batches, UpstreamRelease,
    MIGRATION_ID_EXT_RECONCILE_IRONWOOD, MIGRATION_ID_EXT_SCHEMA_INIT,
};

const RECONCILE: &str =
    "CREATE VIEW ext_slipstream_v_tx_reconciled AS SELECT pool FROM ext_slipstream_graft_buffer;";
const BALANCE: &str =
    "CREATE VIEW ext_slipstream_v_recovery_balance AS SELECT pool FROM ext_slipstream_v_tx_reconciled;";

fn count(conn: &Connection, sql: &str) -> i64 {
    conn.query_row(sql, [], |r| r.get(0)).expect("count")
}

fn object(conn: &Connection, kind: &str, name: &str) -> bool {
    count(
        conn,
        &format!("SELECT COUNT(*) FROM sqlite_master WHERE type = '{kind}' AND name = '{name}'"),
    ) == 1
}

#[test]
fn fresh_schema_has_the_buffer_and_the_views() {
    let conn = Connection::open_in_memory().expect("open");
    for sql in schema_init_batches(0, RECONCILE, BALANCE) {
        conn.execute_batch(&sql).expect("statement");
    }
    assert!(object(&conn, "table", "ext_slipstream_graft_buffer"));
    assert!(object(&conn, "view", "ext_slipstream_v_tx_reconciled"));
    assert!(object(&conn, "view", "ext_slipstream_v_recovery_balance"));
}

#[test]
fn legacy_rows_are_adopted_and_legacy_objects_dropped() {
    let conn = Connection::open_in_memory().expect("open");
    conn.execute_batch(&GRAFT_BUFFER_DDL.replace("ext_slipstream", "slipstream"))
        .expect("legacy schema");
    conn.execute_batch(
        "INSERT INTO slipstream_graft_buffer VALUES (3, 0, 100, x'00', 0, NULL, NULL), (3, 0, 101, x'01', 2, NULL, NULL);
         CREATE VIEW slipstream_v_tx_reconciled AS SELECT 1;
         CREATE VIEW slipstream_v_recovery_balance AS SELECT 1;",
    )
    .expect("legacy rows");
    for sql in schema_init_batches(1, RECONCILE, BALANCE) {
        conn.execute_batch(&sql).expect("statement");
    }
    assert_eq!(
        count(&conn, "SELECT COUNT(*) FROM ext_slipstream_graft_buffer"),
        2,
        "legacy buffer rows must be carried into the ext_ table"
    );
    assert_eq!(
        count(
            &conn,
            "SELECT COUNT(*) FROM sqlite_master WHERE name LIKE 'slipstream_%'"
        ),
        0,
        "legacy table and views must be dropped after adoption"
    );
}

#[test]
fn stale_views_are_rebuilt() {
    let conn = Connection::open_in_memory().expect("open");
    for sql in schema_init_batches(0, RECONCILE, BALANCE) {
        conn.execute_batch(&sql).expect("statement");
    }
    let newer = RECONCILE.replace("SELECT pool", "SELECT pool, position");
    for sql in reconcile_ironwood_batches(&newer, BALANCE) {
        conn.execute_batch(&sql).expect("statement");
    }
    let sql: String = conn
        .query_row(
            "SELECT sql FROM sqlite_master WHERE name = 'ext_slipstream_v_tx_reconciled'",
            [],
            |r| r.get(0),
        )
        .expect("view");
    assert!(sql.contains("position"));
    assert!(object(&conn, "view", "ext_slipstream_v_recovery_balance"));
}

#[test]
fn migration_ids_are_stable() {
    assert_eq!(
        MIGRATION_ID_EXT_SCHEMA_INIT,
        uuid::Uuid::parse_str("5903e190-57c4-4a45-8701-1edd943a4330")
            .unwrap()
            .as_u128()
    );
    assert_eq!(
        MIGRATION_ID_EXT_RECONCILE_IRONWOOD,
        uuid::Uuid::parse_str("9b1c2f04-7d3a-4c58-bf16-2a0e5c8d41e7")
            .unwrap()
            .as_u128()
    );
}

#[test]
fn staged_chains_start_empty() {
    let m = reset();
    assert_eq!(m.sapling_activation, 663_150);
    assert_eq!(m.branch_id, "2bb40e60");
    assert_eq!(m.chain_name, "main");
    assert_eq!(m.start_sapling_commitment_tree_size, 0);
    assert_eq!(m.start_orchard_commitment_tree_size, 0);
    let m = reset_with_tree_sizes(3, 4);
    assert_eq!(m.start_sapling_commitment_tree_size, 3);
    assert_eq!(m.start_orchard_commitment_tree_size, 4);
    assert_eq!(
        darkside_err("reset", "gone").message(),
        "transport: darkside reset: gone"
    );
}

#[test]
fn migrations_follow_their_own() {
    let all = external_migrations();
    assert_eq!(all.len(), 2);
    assert_eq!(all[0].id, MIGRATION_ID_EXT_SCHEMA_INIT);
    assert!(all[0].own.is_empty());
    assert_eq!(all[0].upstream, UpstreamRelease::V0_19_0);
    assert!(all[0].description.ends_with("adopting any pre-migration ad-hoc slipstream_* objects."));
    assert_eq!(all[1].id, MIGRATION_ID_EXT_RECONCILE_IRONWOOD);
    assert_eq!(all[1].own, vec![MIGRATION_ID_EXT_SCHEMA_INIT]);
    assert_eq!(all[1].upstream, UpstreamRelease::V0_22_0Rc2);
    assert_eq!(
        all[1].description,
        "Rebuilds the ext_slipstream_* reconciliation views to detect dangling Ironwood spends."
    );
}
