//! The engine's own schema in the wallet database, and what brings a wallet to it.
use crate::graft::GRAFT_BUFFER_DDL;
use vstd::prelude::*;

verus! {

/// The id of the migration that creates the schema.
pub const MIGRATION_ID_EXT_SCHEMA_INIT: u128 = 0x5903e190_57c4_4a45_8701_1edd943a4330;

/// The id of the migration that rebuilds the reconciliation views with a part for
/// Ironwood.
pub const MIGRATION_ID_EXT_RECONCILE_IRONWOOD: u128 = 0x9b1c2f04_7d3a_4c58_bf16_2a0e5c8d41e7;

/// Moves the rows of a buffer that an older build left behind.
pub const ADOPT_LEGACY_BUFFER_SQL: &'static str = "INSERT INTO ext_slipstream_graft_buffer
                     (pool, shard_index, position, commitment,
                      retention_kind, checkpoint_height, marking)
                 SELECT pool, shard_index, position, commitment,
                        retention_kind, checkpoint_height, marking
                 FROM slipstream_graft_buffer;
                 DROP TABLE slipstream_graft_buffer;";

/// Drops the views that an older build left behind.
pub const DROP_LEGACY_VIEWS_SQL: &'static str =
    "DROP VIEW IF EXISTS slipstream_v_recovery_balance;
             DROP VIEW IF EXISTS slipstream_v_tx_reconciled;";

/// Drops the views, which hold no state.
pub const DROP_VIEWS_SQL: &'static str = "DROP VIEW IF EXISTS ext_slipstream_v_recovery_balance;
             DROP VIEW IF EXISTS ext_slipstream_v_tx_reconciled;";

/// The statements that create the schema, in their order: the buffer, into which the rows
/// of an older build's are moved where there is one, then the views, in place of an older
/// build's.
pub open spec fn schema_init_sql(
    legacy_buffers: int,
    reconcile_view: Seq<char>,
    balance_view: Seq<char>,
) -> Seq<Seq<char>> {
    if legacy_buffers > 0 {
        seq![
            GRAFT_BUFFER_DDL@,
            ADOPT_LEGACY_BUFFER_SQL@,
            DROP_LEGACY_VIEWS_SQL@,
            reconcile_view,
            balance_view,
        ]
    } else {
        seq![GRAFT_BUFFER_DDL@, DROP_LEGACY_VIEWS_SQL@, reconcile_view, balance_view]
    }
}

/// The texts of strings.
pub open spec fn texts(v: Seq<String>) -> Seq<Seq<char>> {
    Seq::new(v.len(), |i: int| v[i]@)
}

/// The statements that create the schema, where so many tables of an older build's buffer
/// exist.
pub fn schema_init_batches(legacy_buffers: i64, reconcile_view: &str, balance_view: &str) -> (r:
    Vec<String>)
    ensures
        texts(r@) == schema_init_sql(legacy_buffers as int, reconcile_view@, balance_view@),
{
    let mut v: Vec<String> = Vec::new();
    v.push(GRAFT_BUFFER_DDL.to_owned());
    if legacy_buffers > 0 {
        v.push(ADOPT_LEGACY_BUFFER_SQL.to_owned());
    }
    v.push(DROP_LEGACY_VIEWS_SQL.to_owned());
    v.push(reconcile_view.to_owned());
    v.push(balance_view.to_owned());
    assert(texts(v@) =~= schema_init_sql(
        legacy_buffers as int,
        reconcile_view@,
        balance_view@,
    ));
    v
}

/// A released state of the upstream migration graph.
#[derive(Debug, Clone, Copy, PartialEq, Eq, Structural)]
pub enum UpstreamRelease {
    V0_19_0,
    /// The first release in which the received notes of Ironwood have a table.
    V0_22_0Rc2,
}

/// A migration of the engine's schema. It comes after every migration of an upstream
/// release and after some of the engine's own, and cannot be reverted.
#[derive(Debug)]
pub struct ExtMigration {
    pub id: u128,
    pub description: String,
    pub upstream: UpstreamRelease,
    pub own: Vec<u128>,
}

/// The engine's migrations.
pub fn external_migrations() -> (r: Vec<ExtMigration>)
    ensures
        r@.len() == 2,
        r@[0].id == MIGRATION_ID_EXT_SCHEMA_INIT,
        r@[0].description@
            == "Creates the ext_slipstream_* schema (graft buffer, reconciliation views), adopting any pre-migration ad-hoc slipstream_* objects."@,
        r@[0].upstream == UpstreamRelease::V0_19_0,
        r@[0].own@ == Seq::<u128>::empty(),
        r@[1].id == MIGRATION_ID_EXT_RECONCILE_IRONWOOD,
        r@[1].description@
            == "Rebuilds the ext_slipstream_* reconciliation views to detect dangling Ironwood spends."@,
        r@[1].upstream == UpstreamRelease::V0_22_0Rc2,
        r@[1].own@ == seq![MIGRATION_ID_EXT_SCHEMA_INIT],
{
    let mut own: Vec<u128> = Vec::new();
    own.push(MIGRATION_ID_EXT_SCHEMA_INIT);
    let mut v: Vec<ExtMigration> = Vec::new();
    v.push(
        ExtMigration {
            id: MIGRATION_ID_EXT_SCHEMA_INIT,
            description:
                "Creates the ext_slipstream_* schema (graft buffer, reconciliation views), adopting any pre-migration ad-hoc slipstream_* objects.".to_owned(),
            upstream: UpstreamRelease::V0_19_0,
            own: Vec::new(),
        },
    );
    v.push(
        ExtMigration {
            id: MIGRATION_ID_EXT_RECONCILE_IRONWOOD,
            description:
                "Rebuilds the ext_slipstream_* reconciliation views to detect dangling Ironwood spends.".to_owned(),
            upstream: UpstreamRelease::V0_22_0Rc2,
            own,
        },
    );
    v
}

/// The statements that rebuild the views.
pub fn reconcile_ironwood_batches(reconcile_view: &str, balance_view: &str) -> (r: Vec<String>)
    ensures
        texts(r@) == seq![DROP_VIEWS_SQL@, reconcile_view@, balance_view@],
{
    let mut v: Vec<String> = Vec::new();
    v.push(DROP_VIEWS_SQL.to_owned());
    v.push(reconcile_view.to_owned());
    v.push(balance_view.to_owned());
    assert(texts(v@) =~= seq![DROP_VIEWS_SQL@, reconcile_view@, balance_view@]);
    v
}

/// The schema is created in one order: the buffer before the rows of an older one are moved
/// into it, which happens exactly where there is one, and the older views are dropped before
/// the new ones are made, the view of balances last.
pub proof fn law_schema_is_created_in_order(
    legacy_buffers: int,
    reconcile_view: Seq<char>,
    balance_view: Seq<char>,
)
    ensures
        ({
            let s = schema_init_sql(legacy_buffers, reconcile_view, balance_view);
            let n = s.len() as int;
            &&& n == if legacy_buffers > 0 {
                5int
            } else {
                4int
            }
            &&& s[0] == GRAFT_BUFFER_DDL@
            &&& legacy_buffers > 0 ==> s[1] == ADOPT_LEGACY_BUFFER_SQL@
            &&& s[n - 3] == DROP_LEGACY_VIEWS_SQL@
            &&& s[n - 2] == reconcile_view
            &&& s[n - 1] == balance_view
        }),
{
}

/// The texts of statements are theirs, one for one.
pub proof fn law_statements_are_texts(v: Seq<String>, i: int)
    requires
        0 <= i < v.len(),
    ensures
        texts(v).len() == v.len(),
        texts(v)[i] == v[i]@,
{
}

} // verus!
