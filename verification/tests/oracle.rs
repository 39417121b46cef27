//! The semantic difference of two wallets.
use rusqlite::Connection;
use zodl_slipstream::oracle::{
    canonical_row, canonical_value, compared_columns, compared_floor, diff_table,
    is_transient_window_table, max_height_sql, oracle_err, select_sql, semantic_diff,
    table_columns, table_info_sql, transient_window_floor, union_tables, DiffReport, SqlValue,
    TableRows, LIST_TABLES_SQL,
};

fn mk_db(rows: &[(i64, &str)]) -> Connection {
    let conn = Connection::open_in_memory().expect("open");
    conn.execute_batch("CREATE TABLE t (a INTEGER, b TEXT); CREATE TABLE u (x BLOB);")
        .expect("schema");
    for (a, b) in rows {
        conn.execute("INSERT INTO t (a, b) VALUES (?1, ?2)", (a, b))
            .expect("insert");
    }
    conn
}

fn tables(conn: &Connection) -> Vec<String> {
    let mut stmt = conn.prepare(LIST_TABLES_SQL).expect("prepare");
    let names = stmt.query_map([], |r| r.get(0)).expect("tables");
    names.map(|n| n.expect("name")).collect()
}

fn columns(conn: &Connection, table: &str) -> Vec<String> {
    let mut stmt = conn.prepare(&table_info_sql(table)).expect("prepare");
    let names = stmt.query_map([], |r| r.get(1)).expect("columns");
    names.map(|n| n.expect("name")).collect()
}

fn rows(conn: &Connection, table: &str, cols: &Vec<String>) -> Vec<String> {
    if columns(conn, table).is_empty() {
        return vec![];
    }
    let mut stmt = conn
        .prepare(&select_sql(table, cols, None))
        .expect("prepare");
    let n = cols.len();
    let found = stmt
        .query_map([], |r| {
            let mut values = Vec::new();
            for i in 0..n {
                values.push(match r.get::<_, rusqlite::types::Value>(i)? {
                    rusqlite::types::Value::Null => SqlValue::Null,
                    rusqlite::types::Value::Integer(v) => SqlValue::Integer(v),
                    rusqlite::types::Value::Real(v) => SqlValue::Real(format!("{v:?}")),
                    rusqlite::types::Value::Text(v) => SqlValue::Text(v),
                    rusqlite::types::Value::Blob(v) => SqlValue::Blob(v),
                });
            }
            Ok(canonical_row(cols, &values))
        })
        .expect("rows");
    found.map(|r| r.expect("row")).collect()
}

fn diff(a: &Connection, b: &Connection) -> DiffReport {
    semantic_diff(
        union_tables(&tables(a), &tables(b))
            .into_iter()
            .map(|table| {
                let cols = table_columns(&table, &columns(a, &table), &columns(b, &table));
                TableRows {
                    rows_a: rows(a, &table, &cols),
                    rows_b: rows(b, &table, &cols),
                    table,
                }
            })
            .collect(),
    )
}

#[test]
fn identical_dbs_diff_clean() {
    let a = mk_db(&[(1, "x"), (2, "y")]);
    let b = mk_db(&[(2, "y"), (1, "x")]); // insertion order must not matter
    let report = diff(&a, &b);
    assert!(
        report.is_clean(),
        "expected clean diff:\n{}",
        report.render()
    );
}

#[test]
fn row_delta_is_detected() {
    let a = mk_db(&[(1, "x"), (2, "y")]);
    let b = mk_db(&[(1, "x"), (2, "z")]);
    let report = diff(&a, &b);
    assert!(!report.is_clean());
    let t = report
        .tables
        .iter()
        .find(|t| t.table == "t")
        .expect("table t");
    assert_eq!(t.only_in_a.len(), 1);
    assert_eq!(t.only_in_b.len(), 1);
    assert!(t.only_in_a[0].contains("'y'"));
}

#[test]
fn duplicate_row_multiplicity_is_detected() {
    let a = mk_db(&[(1, "x"), (1, "x")]);
    let b = mk_db(&[(1, "x")]);
    let report = diff(&a, &b);
    let t = report
        .tables
        .iter()
        .find(|t| t.table == "t")
        .expect("table t");
    assert!(!t.is_clean());
    assert_eq!(t.rows_a, 2);
    assert_eq!(t.rows_b, 1);
}

#[test]
fn missing_table_is_detected() {
    let a = mk_db(&[(1, "x")]);
    let b = Connection::open_in_memory().expect("open");
    b.execute_batch("CREATE TABLE t (a INTEGER, b TEXT);")
        .expect("schema");
    // table `u` missing in B entirely
    let report = diff(&a, &b);
    assert!(report.tables.iter().any(|t| t.table == "u"));
    // A table that only B has shows as a full-table difference.
    b.execute_batch("CREATE TABLE w (x TEXT); INSERT INTO w VALUES ('z');")
        .expect("schema");
    let report = diff(&a, &b);
    let w = report
        .tables
        .iter()
        .find(|t| t.table == "w")
        .expect("table w");
    assert_eq!((w.rows_a, w.rows_b), (0, 1));
    assert_eq!(w.only_in_b, vec!["x='z'|"]);
}

#[test]
fn values_have_one_form_each() {
    assert_eq!(canonical_value(&SqlValue::Null), "NULL");
    assert_eq!(canonical_value(&SqlValue::Integer(-7)), "-7");
    assert_eq!(canonical_value(&SqlValue::Real("1.5".into())), "1.5");
    assert_eq!(canonical_value(&SqlValue::Text("a'b".into())), "'a'b'");
    assert_eq!(canonical_value(&SqlValue::Blob(vec![0, 0xaf])), "x'00af'");
    assert_eq!(
        canonical_row(
            &vec!["a".into(), "b".into()],
            &vec![SqlValue::Integer(1), SqlValue::Null]
        ),
        "a=1|b=NULL|"
    );
}

#[test]
fn only_the_account_uuid_is_left_out() {
    let cols = || vec!["id".to_string(), "uuid".to_string()];
    assert_eq!(compared_columns("accounts", &cols()), vec!["id"]);
    assert_eq!(compared_columns("blocks", &cols()), vec!["id", "uuid"]);
}

#[test]
fn transient_rows_are_compared_above_a_floor() {
    assert!(is_transient_window_table("nullifier_map"));
    assert!(is_transient_window_table("tx_locator_map"));
    assert!(!is_transient_window_table("blocks"));
    assert_eq!(transient_window_floor(None, None), None);
    let floor = transient_window_floor(Some(1000), Some(2000)).expect("a floor");
    assert!(floor < 2000, "{floor}");
    assert_eq!(floor, 1900);
    assert_eq!(transient_window_floor(Some(5), None), Some(0));
    assert_eq!(compared_floor("nullifier_map", Some(None), Some(Some(500))), Some(400));
    assert_eq!(compared_floor("blocks", Some(None), Some(Some(500))), None);
    // A side without the table leaves every row of the other one compared.
    assert_eq!(compared_floor("nullifier_map", None, Some(Some(500))), None);
    assert_eq!(compared_floor("nullifier_map", Some(Some(500)), None), None);
}

#[test]
fn statements_quote_their_names() {
    assert_eq!(table_info_sql("t"), "PRAGMA table_info(\"t\")");
    assert_eq!(max_height_sql("t"), "SELECT MAX(block_height) FROM \"t\"");
    let cols = vec!["a".to_string(), "b".to_string()];
    assert_eq!(select_sql("t", &cols, None), "SELECT \"a\", \"b\" FROM \"t\"");
    assert_eq!(
        select_sql("t", &cols, Some(9)),
        "SELECT \"a\", \"b\" FROM \"t\" WHERE block_height >= 9"
    );
}

#[test]
fn reports_name_what_differs() {
    let many = |n: u32| (0..n).map(|i| format!("r{i}")).collect::<Vec<_>>();
    let d = diff_table("t".into(), many(9), vec![]);
    assert_eq!((d.rows_a, d.rows_b), (9, 0));
    assert_eq!(d.only_in_a, vec!["r0", "r1", "r2", "r3", "r4"]);
    let clean = diff_table("t".into(), many(2), many(2));
    assert!(clean.is_clean());
    let report = semantic_diff(vec![TableRows {
        table: "t".into(),
        rows_a: vec!["x".into()],
        rows_b: vec!["y".into()],
    }]);
    let text = report.render();
    assert!(text.contains("t") && text.contains("x") && text.contains("y"), "{text}");
    assert_eq!(oracle_err("open", "no").message(), "wallet db: oracle open: no");
}
