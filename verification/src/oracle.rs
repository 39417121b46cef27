//! Golden oracle: the semantic diff of two wallet databases. Rows are brought to
//! a canonical text and compared as multisets, table by table.
use crate::error::SlipstreamError;
use crate::text::{chars_of, dec, push_dec, same_text, u128_to_dec};
use vstd::prelude::*;

verus! {

/// A value of a database cell.
#[derive(Clone, Debug)]
pub enum SqlValue {
    Null,
    Integer(i64),
    /// A floating-point number, as it is written.
    Real(String),
    Text(String),
    Blob(Vec<u8>),
}

/// The table of the one column that is left out of the comparison: a random
/// identity that is drawn when an account is imported.
pub const ALLOWLIST_TABLE: &'static str = "accounts";

/// The one column that is left out of the comparison.
pub const ALLOWLIST_COLUMN: &'static str = "uuid";

/// How many rows of each side a report keeps per table.
pub const KEPT_ROWS: usize = 5;

/// The comparison of one table.
#[derive(Clone, Debug)]
pub struct TableDiff {
    pub table: String,
    pub rows_a: u64,
    pub rows_b: u64,
    /// Canonical rows that A has more often than B, in order, the first five.
    pub only_in_a: Vec<String>,
    /// Canonical rows that B has more often than A, in order, the first five.
    pub only_in_b: Vec<String>,
}

/// The comparison of all tables.
#[derive(Debug, Default)]
pub struct DiffReport {
    pub tables: Vec<TableDiff>,
}

/// The texts of strings.
pub open spec fn texts(v: Seq<String>) -> Seq<Seq<char>> {
    v.map_values(|s: String| s@)
}

/// Whether one text comes before another or equals it: by the first character in
/// which they differ, a prefix before what it is a prefix of.
pub open spec fn text_le(a: Seq<char>, b: Seq<char>) -> bool
    decreases a.len(),
{
    if a.len() == 0 {
        true
    } else if b.len() == 0 {
        false
    } else if a[0] != b[0] {
        a[0] < b[0]
    } else {
        text_le(a.skip(1), b.skip(1))
    }
}

/// Whether texts are in order.
pub open spec fn texts_sorted(v: Seq<Seq<char>>) -> bool {
    forall|i: int, j: int| 0 <= i <= j < v.len() ==> text_le(#[trigger] v[i], #[trigger] v[j])
}

/// The sort of a `Vec<String>` by std: the same strings, in the order of their
/// code points.
#[verifier::external_body]
fn sort_strings(v: &mut Vec<String>)
    ensures
        texts_sorted(texts(final(v)@)),
        texts(final(v)@).to_multiset() == texts(old(v)@).to_multiset(),
{
    v.sort();
}

/// The number of blocks below the highest one for which the backend keeps its
/// nullifier map: the constant `NULLIFIER_MAP_RETENTION_BLOCKS` of
/// `zcash_client_backend`, one hundred.
#[verifier::external_body]
fn nullifier_map_retention() -> (r: u32)
    ensures
        r == 100,
{
    zcash_client_backend::data_api::ll::wallet::NULLIFIER_MAP_RETENTION_BLOCKS
}

proof fn lemma_text_le_refl(a: Seq<char>)
    ensures
        text_le(a, a),
    decreases a.len(),
{
    if a.len() > 0 {
        lemma_text_le_refl(a.skip(1));
    }
}

proof fn lemma_text_le_antisym(a: Seq<char>, b: Seq<char>)
    requires
        text_le(a, b),
        text_le(b, a),
    ensures
        a == b,
    decreases a.len(),
{
    if a.len() == 0 {
        assert(a =~= b);
    } else {
        lemma_text_le_antisym(a.skip(1), b.skip(1));
        assert(a =~= seq![a[0]] + a.skip(1));
        assert(b =~= seq![b[0]] + b.skip(1));
    }
}

proof fn lemma_text_le_trans(a: Seq<char>, b: Seq<char>, c: Seq<char>)
    requires
        text_le(a, b),
        text_le(b, c),
    ensures
        text_le(a, c),
    decreases a.len(),
{
    if a.len() > 0 && a[0] == b[0] && b[0] == c[0] {
        lemma_text_le_trans(a.skip(1), b.skip(1), c.skip(1));
    }
}

/// How two texts compare.
#[derive(Clone, Copy, PartialEq, Eq, Structural)]
enum Side {
    Before,
    Same,
    After,
}

fn which_first(a: &Vec<char>, b: &Vec<char>) -> (r: Side)
    ensures
        r == Side::Same <==> a@ == b@,
        r == Side::Before <==> text_le(a@, b@) && a@ != b@,
        r == Side::After <==> text_le(b@, a@) && a@ != b@,
{
    let mut i: usize = 0;
    assert(a@.skip(0) =~= a@);
    assert(b@.skip(0) =~= b@);
    while i < a.len() && i < b.len() && a[i] == b[i]
        invariant
            0 <= i <= a@.len(),
            i <= b@.len(),
            a@.take(i as int) == b@.take(i as int),
            text_le(a@, b@) == text_le(a@.skip(i as int), b@.skip(i as int)),
            text_le(b@, a@) == text_le(b@.skip(i as int), a@.skip(i as int)),
        decreases a@.len() - i,
    {
        assert(a@.skip(i as int).skip(1) =~= a@.skip(i + 1));
        assert(b@.skip(i as int).skip(1) =~= b@.skip(i + 1));
        assert(a@.take(i + 1) =~= a@.take(i as int).push(a@[i as int]));
        assert(b@.take(i + 1) =~= b@.take(i as int).push(b@[i as int]));
        i = i + 1;
    }
    if i == a.len() {
        if i == b.len() {
            assert(a@ =~= a@.take(i as int));
            assert(b@ =~= b@.take(i as int));
            proof {
                lemma_text_le_refl(a@);
            }
            Side::Same
        } else {
            Side::Before
        }
    } else if i == b.len() {
        Side::After
    } else if a[i] < b[i] {
        Side::Before
    } else {
        Side::After
    }
}

/// The lowercase hexadecimal digit of a value below sixteen.
pub open spec fn hex_digit(n: int) -> char {
    if n < 10 {
        (48 + n) as char
    } else {
        (87 + n) as char
    }
}

/// Bytes in lowercase hexadecimal.
pub open spec fn hex(b: Seq<u8>) -> Seq<char>
    decreases b.len(),
{
    if b.len() == 0 {
        Seq::empty()
    } else {
        hex(b.drop_last()) + seq![hex_digit(b.last() as int / 16), hex_digit(b.last() as int % 16)]
    }
}

fn hex_char(n: u8) -> (c: char)
    requires
        n < 16,
    ensures
        c == hex_digit(n as int),
{
    if n < 10 {
        (48u8 + n) as char
    } else {
        (87u8 + n) as char
    }
}

/// Appends bytes in lowercase hexadecimal.
pub fn push_hex(out: &mut String, b: &Vec<u8>)
    ensures
        final(out)@ == old(out)@ + hex(b@),
{
    let ghost base = out@;
    let mut i: usize = 0;
    assert(b@.take(0) =~= Seq::empty());
    assert(base + Seq::<char>::empty() =~= base);
    while i < b.len()
        invariant
            0 <= i <= b@.len(),
            out@ == base + hex(b@.take(i as int)),
        decreases b@.len() - i,
    {
        out.push(hex_char(b[i] / 16));
        out.push(hex_char(b[i] % 16));
        assert(b@.take(i + 1).drop_last() =~= b@.take(i as int));
        i = i + 1;
        assert(out@ =~= base + hex(b@.take(i as int)));
    }
    assert(b@.take(b@.len() as int) =~= b@);
}

/// The canonical text of a cell.
pub open spec fn canonical_text(v: SqlValue) -> Seq<char> {
    match v {
        SqlValue::Null => "NULL"@,
        SqlValue::Integer(i) => if i < 0 {
            "-"@ + dec((-(i as int)) as nat)
        } else {
            dec(i as nat)
        },
        SqlValue::Real(r) => r@,
        SqlValue::Text(t) => "'"@ + t@ + "'"@,
        SqlValue::Blob(b) => "x'"@ + hex(b@) + "'"@,
    }
}

/// The canonical text of a cell.
pub fn canonical_value(v: &SqlValue) -> (r: String)
    ensures
        r@ == canonical_text(*v),
{
    match v {
        SqlValue::Null => "NULL".to_owned(),
        SqlValue::Integer(i) => {
            let wide: i128 = *i as i128;
            if wide < 0 {
                let mut s: String = "-".to_owned();
                let d: String = u128_to_dec((-wide) as u128);
                s.push_str(d.as_str());
                s
            } else {
                u128_to_dec(wide as u128)
            }
        },
        SqlValue::Real(r) => r.clone(),
        SqlValue::Text(t) => {
            let mut s: String = "'".to_owned();
            s.push_str(t.as_str());
            s.push_str("'");
            s
        },
        SqlValue::Blob(b) => {
            let mut s: String = "x'".to_owned();
            push_hex(&mut s, b);
            s.push_str("'");
            s
        },
    }
}

/// The canonical text of a row: each column with its value.
pub open spec fn canonical_row_text(cols: Seq<String>, values: Seq<SqlValue>) -> Seq<char>
    decreases cols.len(),
{
    if cols.len() == 0 || values.len() == 0 {
        Seq::empty()
    } else {
        canonical_row_text(cols.drop_last(), values.drop_last()) + cols.last()@ + "="@
            + canonical_text(values.last()) + "|"@
    }
}

/// The canonical text of a row with one value per column.
pub fn canonical_row(cols: &Vec<String>, values: &Vec<SqlValue>) -> (r: String)
    requires
        cols@.len() == values@.len(),
    ensures
        r@ == canonical_row_text(cols@, values@),
{
    let mut out: String = String::new();
    let mut i: usize = 0;
    while i < cols.len()
        invariant
            0 <= i <= cols@.len(),
            cols@.len() == values@.len(),
            out@ == canonical_row_text(cols@.take(i as int), values@.take(i as int)),
        decreases cols@.len() - i,
    {
        assert(cols@.take(i + 1).drop_last() =~= cols@.take(i as int));
        assert(values@.take(i + 1).drop_last() =~= values@.take(i as int));
        out.push_str(cols[i].as_str());
        out.push_str("=");
        let v: String = canonical_value(&values[i]);
        out.push_str(v.as_str());
        out.push_str("|");
        i = i + 1;
    }
    assert(cols@.take(cols@.len() as int) =~= cols@);
    assert(values@.take(values@.len() as int) =~= values@);
    out
}

/// Whether a column takes part in the comparison.
pub open spec fn column_compared(table: Seq<char>, column: Seq<char>) -> bool {
    !(table == ALLOWLIST_TABLE@ && column == ALLOWLIST_COLUMN@)
}

/// The columns of a table that take part in the comparison, in order.
pub fn compared_columns(table: &str, cols: &Vec<String>) -> (r: Vec<String>)
    ensures
        texts(r@) == texts(cols@).filter(|c: Seq<char>| column_compared(table@, c)),
{
    let ghost pred = |c: Seq<char>| column_compared(table@, c);
    let allowlisted: bool = same_text(table, ALLOWLIST_TABLE);
    let mut out: Vec<String> = Vec::new();
    let mut i: usize = 0;
    proof {
        reveal(Seq::filter);
        assert(texts(cols@).take(0).filter(pred) =~= Seq::empty());
        assert(texts(out@) =~= Seq::empty());
    }
    while i < cols.len()
        invariant
            0 <= i <= cols@.len(),
            pred == (|c: Seq<char>| column_compared(table@, c)),
            allowlisted == (table@ == ALLOWLIST_TABLE@),
            texts(out@) == texts(cols@).take(i as int).filter(pred),
        decreases cols@.len() - i,
    {
        proof {
            reveal(Seq::filter);
            assert(texts(cols@).take(i + 1).drop_last() =~= texts(cols@).take(i as int));
        }
        let ghost had = texts(out@);
        if !(allowlisted && same_text(cols[i].as_str(), ALLOWLIST_COLUMN)) {
            out.push(cols[i].clone());
            assert(texts(out@) =~= had.push(cols@[i as int]@));
        }
        i = i + 1;
    }
    assert(texts(cols@).take(cols@.len() as int) =~= texts(cols@));
    out
}

/// The columns by which a table is compared, given those of both sides: those of
/// A, or of B where A does not have the table.
pub fn table_columns(table: &str, cols_a: &Vec<String>, cols_b: &Vec<String>) -> (r: Vec<String>)
    ensures
        texts(r@) == texts(
            if cols_a@.len() > 0 {
                cols_a@
            } else {
                cols_b@
            },
        ).filter(|c: Seq<char>| column_compared(table@, c)),
{
    if cols_a.len() > 0 {
        compared_columns(table, cols_a)
    } else {
        compared_columns(table, cols_b)
    }
}

/// Whether which rows of a table remain depends on how often the wallet was
/// written, so that only a window at the top is compared.
pub open spec fn is_transient_spec(table: Seq<char>) -> bool {
    table == "nullifier_map"@ || table == "tx_locator_map"@
}

/// Whether only the top window of a table is compared.
pub fn is_transient_window_table(table: &str) -> (b: bool)
    ensures
        b == is_transient_spec(table@),
{
    same_text(table, "nullifier_map") || same_text(table, "tx_locator_map")
}

/// The lowest height of the compared window: a hundred blocks below the highest one
/// on either side.
pub open spec fn window_floor(max_a: Option<u32>, max_b: Option<u32>) -> Option<u32> {
    match (max_a, max_b) {
        (None, None) => None,
        (Some(a), None) => Some(a.saturating_sub(100)),
        (None, Some(b)) => Some(b.saturating_sub(100)),
        (Some(a), Some(b)) => Some(
            if a > b {
                a.saturating_sub(100)
            } else {
                b.saturating_sub(100)
            },
        ),
    }
}

/// The lowest height of the compared window, given the highest one on each side;
/// none where both tables are empty.
pub fn transient_window_floor(max_a: Option<u32>, max_b: Option<u32>) -> (r: Option<u32>)
    ensures
        r == window_floor(max_a, max_b),
{
    let top: u32 = match (max_a, max_b) {
        (None, None) => {
            return None;
        },
        (Some(a), None) => a,
        (None, Some(b)) => b,
        (Some(a), Some(b)) => if a > b {
            a
        } else {
            b
        },
    };
    Some(top.saturating_sub(nullifier_map_retention()))
}

/// The lowest height of the rows of a table that are compared, given the highest one on
/// each side; none where all rows are. A side whose highest height cannot be read, for want
/// of the table, leaves all rows compared.
pub fn compared_floor(table: &str, max_a: Option<Option<u32>>, max_b: Option<Option<u32>>) -> (r:
    Option<u32>)
    ensures
        r == match (max_a, max_b) {
            (Some(a), Some(b)) if is_transient_spec(table@) => window_floor(a, b),
            _ => None,
        },
{
    if is_transient_window_table(table) {
        match (max_a, max_b) {
            (Some(a), Some(b)) => transient_window_floor(a, b),
            _ => None,
        }
    } else {
        None
    }
}

/// The names in both lists, each name of the second one only where it is new.
pub open spec fn union_names(a: Seq<Seq<char>>, b: Seq<Seq<char>>) -> Seq<Seq<char>>
    decreases b.len(),
{
    if b.len() == 0 {
        a
    } else {
        let u = union_names(a, b.drop_last());
        if u.contains(b.last()) {
            u
        } else {
            u.push(b.last())
        }
    }
}

fn contains_string(v: &Vec<String>, s: &String) -> (b: bool)
    ensures
        b == texts(v@).contains(s@),
{
    let mut i: usize = 0;
    while i < v.len()
        invariant
            0 <= i <= v@.len(),
            forall|j: int| 0 <= j < i ==> texts(v@)[j] != s@,
        decreases v@.len() - i,
    {
        if v[i] == *s {
            assert(texts(v@)[i as int] == s@);
            return true;
        }
        i = i + 1;
    }
    false
}

/// The tables of both databases, in order.
pub fn union_tables(a: &Vec<String>, b: &Vec<String>) -> (r: Vec<String>)
    ensures
        texts_sorted(texts(r@)),
        texts(r@).to_multiset() == union_names(texts(a@), texts(b@)).to_multiset(),
{
    let mut out: Vec<String> = Vec::new();
    let mut i: usize = 0;
    while i < a.len()
        invariant
            0 <= i <= a@.len(),
            texts(out@) == texts(a@).take(i as int),
        decreases a@.len() - i,
    {
        let ghost had = texts(out@);
        out.push(a[i].clone());
        assert(texts(out@) =~= had.push(a@[i as int]@));
        assert(texts(a@).take(i + 1) =~= texts(a@).take(i as int).push(texts(a@)[i as int]));
        i = i + 1;
    }
    assert(texts(a@).take(a@.len() as int) =~= texts(a@));
    let mut j: usize = 0;
    assert(texts(b@).take(0) =~= Seq::empty());
    while j < b.len()
        invariant
            0 <= j <= b@.len(),
            texts(out@) == union_names(texts(a@), texts(b@).take(j as int)),
        decreases b@.len() - j,
    {
        assert(texts(b@).take(j + 1).drop_last() =~= texts(b@).take(j as int));
        assert(texts(b@).take(j + 1).last() == b@[j as int]@);
        let ghost had = texts(out@);
        if !contains_string(&out, &b[j]) {
            out.push(b[j].clone());
            assert(texts(out@) =~= had.push(b@[j as int]@));
        }
        j = j + 1;
    }
    assert(texts(b@).take(b@.len() as int) =~= texts(b@));
    sort_strings(&mut out);
    out
}

/// How often a text stands in a list.
pub open spec fn occurrences(v: Seq<Seq<char>>, x: Seq<char>) -> nat {
    v.to_multiset().count(x)
}

/// Whether `full` lists, in order, what `a` has more often than `b`, as often as
/// that.
pub open spec fn is_surplus(
    full: Seq<Seq<char>>,
    a: Seq<Seq<char>>,
    b: Seq<Seq<char>>,
) -> bool {
    &&& texts_sorted(full)
    &&& forall|x: Seq<char>| #[trigger]
        occurrences(full, x) == if occurrences(a, x) > occurrences(b, x) {
            (occurrences(a, x) - occurrences(b, x)) as nat
        } else {
            0
        }
}

/// The first five.
pub open spec fn first_five(v: Seq<Seq<char>>) -> Seq<Seq<char>> {
    if v.len() > 5 {
        v.take(5)
    } else {
        v
    }
}

/// Whether `kept` holds the first five rows that `a` has more often than `b`.
pub open spec fn keeps_surplus(
    kept: Seq<Seq<char>>,
    a: Seq<Seq<char>>,
    b: Seq<Seq<char>>,
) -> bool {
    exists|full: Seq<Seq<char>>| #[trigger] is_surplus(full, a, b) && kept == first_five(full)
}

/// The state of the walk over two sorted lists: `oa` and `ob` hold what was only
/// on one side among the first `i` and `j` texts.
spec fn walked(
    a: Seq<Seq<char>>,
    b: Seq<Seq<char>>,
    i: int,
    j: int,
    oa: Seq<Seq<char>>,
    ob: Seq<Seq<char>>,
) -> bool {
    &&& 0 <= i <= a.len()
    &&& 0 <= j <= b.len()
    &&& texts_sorted(oa)
    &&& texts_sorted(ob)
    &&& forall|x: Seq<char>|
        #![trigger occurrences(oa, x)]
        #![trigger occurrences(ob, x)]
        occurrences(oa, x) + occurrences(b.take(j), x) == occurrences(ob, x) + occurrences(
            a.take(i),
            x,
        )
    &&& forall|k: int|
        0 <= k < oa.len() ==> (j < b.len() ==> text_le(#[trigger] oa[k], b[j]) && oa[k] != b[j])
    &&& forall|k: int|
        0 <= k < ob.len() ==> (i < a.len() ==> text_le(#[trigger] ob[k], a[i]) && ob[k] != a[i])
    &&& forall|k: int| 0 <= k < oa.len() && i < a.len() ==> text_le(#[trigger] oa[k], a[i])
    &&& forall|k: int| 0 <= k < ob.len() && j < b.len() ==> text_le(#[trigger] ob[k], b[j])
    &&& forall|k: int, m: int|
        0 <= k < oa.len() && 0 <= m < ob.len() ==> #[trigger] oa[k] != #[trigger] ob[m]
}

/// Taking one text of `a` that comes before what is left of `b`.
proof fn lemma_walk_left(
    a: Seq<Seq<char>>,
    b: Seq<Seq<char>>,
    i: int,
    j: int,
    oa: Seq<Seq<char>>,
    ob: Seq<Seq<char>>,
)
    requires
        texts_sorted(a),
        texts_sorted(b),
        walked(a, b, i, j, oa, ob),
        i < a.len(),
        j < b.len() ==> text_le(a[i], b[j]) && a[i] != b[j],
    ensures
        walked(a, b, i + 1, j, oa.push(a[i]), ob),
{
    broadcast use vstd::seq_lib::group_to_multiset_ensures;

    let na = oa.push(a[i]);
    assert(a.take(i + 1) =~= a.take(i).push(a[i]));
    assert forall|x: Seq<char>|
        #![trigger occurrences(na, x)]
        #![trigger occurrences(ob, x)]
        occurrences(na, x) + occurrences(b.take(j), x) == occurrences(ob, x) + occurrences(
            a.take(i + 1),
            x,
        ) by {
        assert(na.to_multiset() =~= oa.to_multiset().insert(a[i]));
        assert(a.take(i + 1).to_multiset() =~= a.take(i).to_multiset().insert(a[i]));
        assert(occurrences(oa, x) + occurrences(b.take(j), x) == occurrences(ob, x) + occurrences(
            a.take(i),
            x,
        ));
    }
    assert forall|k: int, m: int| 0 <= k <= m < na.len() implies text_le(
        #[trigger] na[k],
        #[trigger] na[m],
    ) by {
        lemma_text_le_refl(a[i]);
        if m < oa.len() {
            assert(na[k] == oa[k] && na[m] == oa[m]);
        } else if k < oa.len() {
            assert(na[k] == oa[k]);
        }
    }
    assert forall|k: int| 0 <= k < na.len() && i + 1 < a.len() implies text_le(
        #[trigger] na[k],
        a[i + 1],
    ) by {
        assert(text_le(a[i], a[i + 1]));
        if k < oa.len() {
            assert(na[k] == oa[k]);
            lemma_text_le_trans(oa[k], a[i], a[i + 1]);
        }
    }
    assert forall|k: int| 0 <= k < ob.len() && i + 1 < a.len() implies text_le(
        #[trigger] ob[k],
        a[i + 1],
    ) && ob[k] != a[i + 1] by {
        assert(text_le(a[i], a[i + 1]));
        lemma_text_le_trans(ob[k], a[i], a[i + 1]);
        if ob[k] == a[i + 1] {
            lemma_text_le_antisym(a[i], a[i + 1]);
        }
    }
}

/// The walk reads the same from either side.
proof fn lemma_walk_mirrored(
    a: Seq<Seq<char>>,
    b: Seq<Seq<char>>,
    i: int,
    j: int,
    oa: Seq<Seq<char>>,
    ob: Seq<Seq<char>>,
)
    requires
        walked(a, b, i, j, oa, ob),
    ensures
        walked(b, a, j, i, ob, oa),
{
    assert forall|x: Seq<char>|
        #![trigger occurrences(ob, x)]
        #![trigger occurrences(oa, x)]
        occurrences(ob, x) + occurrences(a.take(i), x) == occurrences(oa, x) + occurrences(
            b.take(j),
            x,
        ) by {
        assert(occurrences(oa, x) + occurrences(b.take(j), x) == occurrences(ob, x) + occurrences(
            a.take(i),
            x,
        ));
    }
}

/// Passing over a text that stands on both sides.
proof fn lemma_walk_both(
    a: Seq<Seq<char>>,
    b: Seq<Seq<char>>,
    i: int,
    j: int,
    oa: Seq<Seq<char>>,
    ob: Seq<Seq<char>>,
)
    requires
        texts_sorted(a),
        texts_sorted(b),
        walked(a, b, i, j, oa, ob),
        i < a.len(),
        j < b.len(),
        a[i] == b[j],
    ensures
        walked(a, b, i + 1, j + 1, oa, ob),
{
    broadcast use vstd::seq_lib::group_to_multiset_ensures;

    assert(a.take(i + 1) =~= a.take(i).push(a[i]));
    assert(b.take(j + 1) =~= b.take(j).push(b[j]));
    assert forall|x: Seq<char>|
        #![trigger occurrences(oa, x)]
        #![trigger occurrences(ob, x)]
        occurrences(oa, x) + occurrences(b.take(j + 1), x) == occurrences(ob, x) + occurrences(
            a.take(i + 1),
            x,
        ) by {
        assert(a.take(i + 1).to_multiset() =~= a.take(i).to_multiset().insert(a[i]));
        assert(b.take(j + 1).to_multiset() =~= b.take(j).to_multiset().insert(b[j]));
        assert(occurrences(oa, x) + occurrences(b.take(j), x) == occurrences(ob, x) + occurrences(
            a.take(i),
            x,
        ));
    }
    if i + 1 < a.len() {
        assert(text_le(a[i], a[i + 1]));
    }
    if j + 1 < b.len() {
        assert(text_le(b[j], b[j + 1]));
    }
    assert forall|k: int| 0 <= k < oa.len() implies (j + 1 < b.len() ==> text_le(
        #[trigger] oa[k],
        b[j + 1],
    ) && oa[k] != b[j + 1]) && (i + 1 < a.len() ==> text_le(oa[k], a[i + 1])) by {
        if j + 1 < b.len() {
            lemma_text_le_trans(oa[k], b[j], b[j + 1]);
            if oa[k] == b[j + 1] {
                lemma_text_le_antisym(b[j], b[j + 1]);
            }
        }
        if i + 1 < a.len() {
            lemma_text_le_trans(oa[k], a[i], a[i + 1]);
        }
    }
    assert forall|k: int| 0 <= k < ob.len() implies (i + 1 < a.len() ==> text_le(
        #[trigger] ob[k],
        a[i + 1],
    ) && ob[k] != a[i + 1]) && (j + 1 < b.len() ==> text_le(ob[k], b[j + 1])) by {
        if i + 1 < a.len() {
            lemma_text_le_trans(ob[k], a[i], a[i + 1]);
            if ob[k] == a[i + 1] {
                lemma_text_le_antisym(a[i], a[i + 1]);
            }
        }
        if j + 1 < b.len() {
            lemma_text_le_trans(ob[k], b[j], b[j + 1]);
        }
    }
}

/// At the end of the walk each side holds exactly its surplus.
proof fn lemma_walk_end(
    a: Seq<Seq<char>>,
    b: Seq<Seq<char>>,
    oa: Seq<Seq<char>>,
    ob: Seq<Seq<char>>,
)
    requires
        walked(a, b, a.len() as int, b.len() as int, oa, ob),
    ensures
        is_surplus(oa, a, b),
        is_surplus(ob, b, a),
{
    broadcast use vstd::seq_lib::group_to_multiset_ensures;

    assert(a.take(a.len() as int) =~= a);
    assert(b.take(b.len() as int) =~= b);
    assert forall|x: Seq<char>|
        #![trigger occurrences(oa, x)]
        #![trigger occurrences(ob, x)]
        occurrences(oa, x) == 0 || occurrences(ob, x) == 0 by {
        if occurrences(oa, x) > 0 && occurrences(ob, x) > 0 {
            assert(oa.contains(x));
            assert(ob.contains(x));
            let k = choose|k: int| 0 <= k < oa.len() && oa[k] == x;
            let m = choose|m: int| 0 <= m < ob.len() && ob[m] == x;
            assert(oa[k] != ob[m]);
        }
    }
}

/// Walks over two sorted lists and keeps what is only on one side.
fn walk(a: &Vec<String>, b: &Vec<String>) -> (r: (Vec<String>, Vec<String>))
    requires
        texts_sorted(texts(a@)),
        texts_sorted(texts(b@)),
    ensures
        is_surplus(texts(r.0@), texts(a@), texts(b@)),
        is_surplus(texts(r.1@), texts(b@), texts(a@)),
{
    let mut oa: Vec<String> = Vec::new();
    let mut ob: Vec<String> = Vec::new();
    let mut i: usize = 0;
    let mut j: usize = 0;
    let ghost ta = texts(a@);
    let ghost tb = texts(b@);
    proof {
        assert(texts(oa@) =~= Seq::empty());
        assert(texts(ob@) =~= Seq::empty());
        assert(ta.take(0) =~= Seq::empty());
        assert(tb.take(0) =~= Seq::empty());
    }
    while i < a.len() || j < b.len()
        invariant
            0 <= i <= a@.len(),
            0 <= j <= b@.len(),
            ta == texts(a@),
            tb == texts(b@),
            texts_sorted(ta),
            texts_sorted(tb),
            walked(ta, tb, i as int, j as int, texts(oa@), texts(ob@)),
        decreases a@.len() - i + b@.len() - j,
    {
        let ghost ha = texts(oa@);
        let ghost hb = texts(ob@);
        let side: Side = if i == a.len() {
            Side::After
        } else if j == b.len() {
            Side::Before
        } else {
            which_first(&chars_of(a[i].as_str()), &chars_of(b[j].as_str()))
        };
        match side {
            Side::Same => {
                proof {
                    lemma_walk_both(ta, tb, i as int, j as int, ha, hb);
                }
                i = i + 1;
                j = j + 1;
            },
            Side::Before => {
                oa.push(a[i].clone());
                proof {
                    assert(texts(oa@) =~= ha.push(ta[i as int]));
                    lemma_walk_left(ta, tb, i as int, j as int, ha, hb);
                }
                i = i + 1;
            },
            Side::After => {
                ob.push(b[j].clone());
                proof {
                    assert(texts(ob@) =~= hb.push(tb[j as int]));
                    lemma_walk_mirrored(ta, tb, i as int, j as int, ha, hb);
                    lemma_walk_left(tb, ta, j as int, i as int, hb, ha);
                    lemma_walk_mirrored(tb, ta, j + 1, i as int, texts(ob@), ha);
                }
                j = j + 1;
            },
        }
    }
    proof {
        lemma_walk_end(ta, tb, texts(oa@), texts(ob@));
    }
    (oa, ob)
}

fn keep_five(v: Vec<String>) -> (r: Vec<String>)
    ensures
        texts(r@) == first_five(texts(v@)),
{
    let mut out: Vec<String> = v;
    if out.len() > KEPT_ROWS {
        let ghost had = out@;
        out.truncate(KEPT_ROWS);
        assert(texts(out@) =~= texts(had).take(5));
    }
    out
}

proof fn lemma_surplus_of_sorted(
    full: Seq<Seq<char>>,
    a: Seq<Seq<char>>,
    b: Seq<Seq<char>>,
    sa: Seq<Seq<char>>,
    sb: Seq<Seq<char>>,
)
    requires
        is_surplus(full, sa, sb),
        sa.to_multiset() == a.to_multiset(),
        sb.to_multiset() == b.to_multiset(),
    ensures
        is_surplus(full, a, b),
{
}

/// Compares the canonical rows of one table as multisets.
pub fn diff_table(table: String, rows_a: Vec<String>, rows_b: Vec<String>) -> (r: TableDiff)
    ensures
        r.table == table,
        r.rows_a == rows_a@.len(),
        r.rows_b == rows_b@.len(),
        keeps_surplus(texts(r.only_in_a@), texts(rows_a@), texts(rows_b@)),
        keeps_surplus(texts(r.only_in_b@), texts(rows_b@), texts(rows_a@)),
{
    let mut a: Vec<String> = rows_a;
    let mut b: Vec<String> = rows_b;
    let count_a: u64 = a.len() as u64;
    let count_b: u64 = b.len() as u64;
    sort_strings(&mut a);
    sort_strings(&mut b);
    let (oa, ob) = walk(&a, &b);
    proof {
        lemma_surplus_of_sorted(
            texts(oa@),
            texts(rows_a@),
            texts(rows_b@),
            texts(a@),
            texts(b@),
        );
        lemma_surplus_of_sorted(
            texts(ob@),
            texts(rows_b@),
            texts(rows_a@),
            texts(b@),
            texts(a@),
        );
    }
    TableDiff {
        table,
        rows_a: count_a,
        rows_b: count_b,
        only_in_a: keep_five(oa),
        only_in_b: keep_five(ob),
    }
}

/// A table with the canonical rows of both sides.
#[derive(Debug)]
pub struct TableRows {
    pub table: String,
    pub rows_a: Vec<String>,
    pub rows_b: Vec<String>,
}

/// Whether a comparison is that of these rows.
pub open spec fn compares(d: TableDiff, t: TableRows) -> bool {
    &&& d.table@ == t.table@
    &&& d.rows_a == t.rows_a@.len()
    &&& d.rows_b == t.rows_b@.len()
    &&& keeps_surplus(texts(d.only_in_a@), texts(t.rows_a@), texts(t.rows_b@))
    &&& keeps_surplus(texts(d.only_in_b@), texts(t.rows_b@), texts(t.rows_a@))
}

/// Compares every table, in the given order.
pub fn semantic_diff(tables: Vec<TableRows>) -> (r: DiffReport)
    ensures
        r.tables@.len() == tables@.len(),
        forall|i: int| 0 <= i < tables@.len() ==> compares(#[trigger] r.tables@[i], tables@[i]),
{
    let mut out: Vec<TableDiff> = Vec::new();
    let mut rest: Vec<TableRows> = tables;
    let ghost all = rest@;
    let mut left: Vec<TableRows> = Vec::new();
    while rest.len() > 0
        invariant
            rest@.len() + left@.len() == all.len(),
            rest@ == all.take(rest@.len() as int),
            forall|i: int|
                0 <= i < left@.len() ==> #[trigger] left@[i] == all[all.len() - 1 - i],
        decreases rest@.len(),
    {
        let t: TableRows = rest.pop().unwrap();
        left.push(t);
    }
    while left.len() > 0
        invariant
            left@.len() + out@.len() == all.len(),
            forall|i: int|
                0 <= i < left@.len() ==> #[trigger] left@[i] == all[all.len() - 1 - i],
            forall|i: int| 0 <= i < out@.len() ==> compares(#[trigger] out@[i], all[i]),
        decreases left@.len(),
    {
        let ghost n = left@.len();
        assert(left@[n - 1] == all[all.len() - n]);
        let t: TableRows = left.pop().unwrap();
        let d: TableDiff = diff_table(t.table, t.rows_a, t.rows_b);
        out.push(d);
    }
    DiffReport { tables: out }
}

impl TableDiff {
    /// Whether the comparison found no difference.
    pub open spec fn clean(self) -> bool {
        self.only_in_a@.len() == 0 && self.only_in_b@.len() == 0 && self.rows_a == self.rows_b
    }

    /// Whether the comparison found no difference.
    pub fn is_clean(&self) -> (b: bool)
        ensures
            b == self.clean(),
    {
        self.only_in_a.len() == 0 && self.only_in_b.len() == 0 && self.rows_a == self.rows_b
    }
}

/// A table is clean exactly when both sides hold the same rows equally often.
pub proof fn law_clean_means_same_rows(d: TableDiff, t: TableRows)
    requires
        compares(d, t),
    ensures
        d.clean() <==> texts(t.rows_a@).to_multiset() == texts(t.rows_b@).to_multiset(),
{
    broadcast use vstd::seq_lib::group_to_multiset_ensures;

    let a = texts(t.rows_a@);
    let b = texts(t.rows_b@);
    let fa = choose|full: Seq<Seq<char>>| #[trigger]
        is_surplus(full, a, b) && texts(d.only_in_a@) == first_five(full);
    let fb = choose|full: Seq<Seq<char>>| #[trigger]
        is_surplus(full, b, a) && texts(d.only_in_b@) == first_five(full);
    assert(texts(d.only_in_a@).len() == d.only_in_a@.len());
    assert(texts(d.only_in_b@).len() == d.only_in_b@.len());
    if d.clean() {
        assert(fa.len() == 0);
        assert(fb.len() == 0);
        assert forall|x: Seq<char>| a.to_multiset().count(x) == b.to_multiset().count(x) by {
            assert(occurrences(fa, x) == 0) by {
                assert(!fa.contains(x));
            }
            assert(occurrences(fb, x) == 0) by {
                assert(!fb.contains(x));
            }
        }
        assert(a.to_multiset() =~= b.to_multiset());
    }
    if a.to_multiset() == b.to_multiset() {
        if fa.len() > 0 {
            assert(fa.contains(fa[0]));
            assert(occurrences(fa, fa[0]) > 0);
        }
        if fb.len() > 0 {
            assert(fb.contains(fb[0]));
            assert(occurrences(fb, fb[0]) > 0);
        }
        assert(a.len() == a.to_multiset().len());
        assert(b.len() == b.to_multiset().len());
    }
}

/// A text filled up with spaces to a width of forty characters.
pub open spec fn padded(name: Seq<char>) -> Seq<char> {
    if name.len() < 40 {
        name + Seq::new((40 - name.len()) as nat, |i: int| ' ')
    } else {
        name
    }
}

/// The lines of rows that are only on one side, five at most.
pub open spec fn side_lines(label: Seq<char>, rows: Seq<Seq<char>>) -> Seq<char>
    decreases rows.len(),
{
    if rows.len() == 0 {
        Seq::empty()
    } else {
        side_lines(label, rows.drop_last()) + label + rows.last() + "\n"@
    }
}

/// The lines of one table.
pub open spec fn table_lines(t: TableDiff) -> Seq<char> {
    if t.clean() {
        "  OK   "@ + padded(t.table@) + " "@ + dec(t.rows_a as nat) + " rows\n"@
    } else {
        "  DIFF "@ + padded(t.table@) + " A="@ + dec(t.rows_a as nat) + " B="@ + dec(
            t.rows_b as nat,
        ) + " (+A "@ + dec(t.only_in_a@.len()) + " / +B "@ + dec(t.only_in_b@.len()) + ")\n"@
            + side_lines("       only-in-A: "@, first_five(texts(t.only_in_a@))) + side_lines(
            "       only-in-B: "@,
            first_five(texts(t.only_in_b@)),
        )
    }
}

/// The lines of all tables.
pub open spec fn report_lines(tables: Seq<TableDiff>) -> Seq<char>
    decreases tables.len(),
{
    if tables.len() == 0 {
        Seq::empty()
    } else {
        report_lines(tables.drop_last()) + table_lines(tables.last())
    }
}

fn push_padded(out: &mut String, name: &String)
    ensures
        final(out)@ == old(out)@ + padded(name@),
{
    let ghost base = out@;
    let chars: Vec<char> = chars_of(name.as_str());
    out.push_str(name.as_str());
    let mut n: usize = chars.len();
    let ghost pad: int = if n < 40 {
        40 - n
    } else {
        0
    };
    let ghost blanks = Seq::new(pad as nat, |i: int| ' ');
    let ghost mut k: int = 0;
    assert(base + name@ + blanks.take(0) =~= base + name@);
    while n < 40
        invariant
            0 <= k <= pad,
            chars@ == name@,
            n == chars@.len() + k,
            pad == if chars@.len() < 40 {
                40 - chars@.len()
            } else {
                0
            },
            blanks == Seq::new(pad as nat, |i: int| ' '),
            out@ == base + name@ + blanks.take(k),
        decreases 40 - n,
    {
        out.push(' ');
        n = n + 1;
        proof {
            assert(blanks.take(k + 1) =~= blanks.take(k).push(' '));
            assert(out@ =~= base + name@ + blanks.take(k + 1));
            k = k + 1;
        }
    }
    assert(blanks.take(k) =~= blanks);
    assert(out@ =~= base + padded(name@));
}

fn push_side(out: &mut String, label: &str, rows: &Vec<String>)
    ensures
        final(out)@ == old(out)@ + side_lines(label@, first_five(texts(rows@))),
{
    let ghost base = out@;
    let n: usize = if rows.len() > 5 {
        5
    } else {
        rows.len()
    };
    let ghost shown = first_five(texts(rows@));
    let mut i: usize = 0;
    assert(shown.take(0) =~= Seq::empty());
    assert(base + Seq::<char>::empty() =~= base);
    while i < n
        invariant
            0 <= i <= n <= rows@.len(),
            n == shown.len(),
            shown == first_five(texts(rows@)),
            out@ == base + side_lines(label@, shown.take(i as int)),
        decreases n - i,
    {
        assert(shown.take(i + 1).drop_last() =~= shown.take(i as int));
        assert(shown[i as int] == rows@[i as int]@);
        let ghost had = side_lines(label@, shown.take(i as int));
        out.push_str(label);
        out.push_str(rows[i].as_str());
        out.push_str("\n");
        i = i + 1;
        assert(out@ =~= base + (had + label@ + shown[i - 1] + "\n"@));
    }
    assert(shown.take(n as int) =~= shown);
}

fn push_table(out: &mut String, t: &TableDiff)
    ensures
        final(out)@ == old(out)@ + table_lines(*t),
{
    let ghost base = out@;
    if t.is_clean() {
        out.push_str("  OK   ");
        push_padded(out, &t.table);
        out.push_str(" ");
        push_dec(out, t.rows_a);
        out.push_str(" rows\n");
    } else {
        out.push_str("  DIFF ");
        push_padded(out, &t.table);
        out.push_str(" A=");
        push_dec(out, t.rows_a);
        out.push_str(" B=");
        push_dec(out, t.rows_b);
        out.push_str(" (+A ");
        push_dec(out, t.only_in_a.len() as u64);
        out.push_str(" / +B ");
        push_dec(out, t.only_in_b.len() as u64);
        out.push_str(")\n");
        push_side(out, "       only-in-A: ", &t.only_in_a);
        push_side(out, "       only-in-B: ", &t.only_in_b);
    }
    assert(out@ =~= base + table_lines(*t));
}

impl DiffReport {
    /// Whether no table differs.
    pub open spec fn clean(self) -> bool {
        forall|i: int| 0 <= i < self.tables@.len() ==> (#[trigger] self.tables@[i]).clean()
    }

    /// Whether no table differs.
    pub fn is_clean(&self) -> (b: bool)
        ensures
            b == self.clean(),
    {
        let mut i: usize = 0;
        while i < self.tables.len()
            invariant
                0 <= i <= self.tables@.len(),
                forall|j: int| 0 <= j < i ==> (#[trigger] self.tables@[j]).clean(),
            decreases self.tables@.len() - i,
        {
            if !self.tables[i].is_clean() {
                return false;
            }
            i = i + 1;
        }
        true
    }

    /// The verdict in lines for people to read.
    pub fn render(&self) -> (r: String)
        ensures
            r@ == report_lines(self.tables@),
    {
        let mut out: String = String::new();
        let mut i: usize = 0;
        while i < self.tables.len()
            invariant
                0 <= i <= self.tables@.len(),
                out@ == report_lines(self.tables@.take(i as int)),
            decreases self.tables@.len() - i,
        {
            assert(self.tables@.take(i + 1).drop_last() =~= self.tables@.take(i as int));
            push_table(&mut out, &self.tables[i]);
            i = i + 1;
        }
        assert(self.tables@.take(self.tables@.len() as int) =~= self.tables@);
        out
    }
}

/// Lists the tables of a database.
pub const LIST_TABLES_SQL: &'static str =
    "SELECT name FROM sqlite_master WHERE type='table' AND name NOT LIKE 'sqlite_%' ORDER BY name";

/// The statement that lists the columns of a table.
pub fn table_info_sql(table: &str) -> (r: String)
    ensures
        r@ == "PRAGMA table_info(\""@ + table@ + "\")"@,
{
    let mut s: String = "PRAGMA table_info(\"".to_owned();
    s.push_str(table);
    s.push_str("\")");
    s
}

/// The statement that finds the greatest height in a table.
pub fn max_height_sql(table: &str) -> (r: String)
    ensures
        r@ == "SELECT MAX(block_height) FROM \""@ + table@ + "\""@,
{
    let mut s: String = "SELECT MAX(block_height) FROM \"".to_owned();
    s.push_str(table);
    s.push_str("\"");
    s
}

/// Column names in quotes, separated by commas.
pub open spec fn column_list(cols: Seq<String>) -> Seq<char>
    decreases cols.len(),
{
    if cols.len() == 0 {
        Seq::empty()
    } else if cols.len() == 1 {
        "\""@ + cols[0]@ + "\""@
    } else {
        column_list(cols.drop_last()) + ", "@ + "\""@ + cols.last()@ + "\""@
    }
}

/// The statement that reads the compared columns of a table, from a height on where one
/// is given.
pub open spec fn select_text(
    table: Seq<char>,
    cols: Seq<String>,
    min_height: Option<u32>,
) -> Seq<char> {
    "SELECT "@ + column_list(cols) + " FROM \""@ + table + "\""@ + match min_height {
        Some(h) => " WHERE block_height >= "@ + dec(h as nat),
        None => Seq::empty(),
    }
}

/// The statement that reads the compared columns of a table.
pub fn select_sql(table: &str, cols: &Vec<String>, min_height: Option<u32>) -> (r: String)
    ensures
        r@ == select_text(table@, cols@, min_height),
{
    let mut list: String = String::new();
    let mut i: usize = 0;
    assert(list@ =~= Seq::<char>::empty());
    while i < cols.len()
        invariant
            0 <= i <= cols@.len(),
            list@ == column_list(cols@.take(i as int)),
        decreases cols@.len() - i,
    {
        let ghost before = list@;
        if i > 0 {
            list.push_str(", ");
        }
        list.push_str("\"");
        list.push_str(cols[i].as_str());
        list.push_str("\"");
        proof {
            let next = cols@.take(i + 1);
            assert(next.drop_last() =~= cols@.take(i as int));
            assert(next.last() == cols@[i as int]);
            if i == 0 {
                assert(before =~= Seq::<char>::empty());
                assert(list@ =~= "\""@ + cols@[0]@ + "\""@);
            }
            assert(list@ =~= column_list(next));
        }
        i = i + 1;
    }
    assert(cols@.take(cols@.len() as int) =~= cols@);
    let mut s: String = "SELECT ".to_owned();
    s.push_str(list.as_str());
    s.push_str(" FROM \"");
    s.push_str(table);
    s.push_str("\"");
    match min_height {
        Some(h) => {
            s.push_str(" WHERE block_height >= ");
            push_dec(&mut s, h as u64);
        },
        None => {},
    }
    assert(s@ =~= select_text(table@, cols@, min_height));
    s
}

/// An error of a database, in a context.
pub fn oracle_err(context: &str, e: &str) -> (r: SlipstreamError)
    ensures
        r matches SlipstreamError::Wallet(m) && m@ == "oracle "@ + context@ + ": "@ + e@,
{
    let mut m: String = "oracle ".to_owned();
    m.push_str(context);
    m.push_str(": ");
    m.push_str(e);
    SlipstreamError::Wallet(m)
}

/// The texts of strings are theirs, one for one.
pub proof fn law_texts_are_those_of_the_strings(v: Seq<String>, i: int)
    requires
        0 <= i < v.len(),
    ensures
        texts(v).len() == v.len(),
        texts(v)[i] == v[i]@,
{
}

/// Texts are in one order: of two texts one comes before the other, and both ways only where
/// they are the same; the first character in which they differ decides, and a text comes
/// before what it starts.
pub proof fn law_texts_have_one_order(
    common: Seq<char>,
    a: char,
    b: char,
    x: Seq<char>,
    y: Seq<char>,
)
    ensures
        text_le(x, y) || text_le(y, x),
        text_le(x, y) && text_le(y, x) ==> x == y,
        text_le(common, common + x),
        a < b ==> text_le(common.push(a) + x, common.push(b) + y) && !text_le(
            common.push(b) + y,
            common.push(a) + x,
        ),
    decreases common.len(), x.len(),
{
    if text_le(x, y) && text_le(y, x) {
        lemma_text_le_antisym(x, y);
    }
    lemma_text_le_total(x, y);
    if common.len() == 0 {
        assert((common.push(a) + x)[0] == a);
        assert((common.push(b) + y)[0] == b);
    } else {
        let rest = common.skip(1);
        law_texts_have_one_order(rest, a, b, x, y);
        assert((common + x).skip(1) =~= rest + x);
        assert((common.push(a) + x).skip(1) =~= rest.push(a) + x);
        assert((common.push(b) + y).skip(1) =~= rest.push(b) + y);
        assert((common.push(a) + x)[0] == (common.push(b) + y)[0]);
    }
}

proof fn lemma_text_le_total(x: Seq<char>, y: Seq<char>)
    ensures
        text_le(x, y) || text_le(y, x),
    decreases x.len(),
{
    if x.len() > 0 && y.len() > 0 && x[0] == y[0] {
        lemma_text_le_total(x.skip(1), y.skip(1));
    }
}

proof fn lemma_hex_digit(a: int, b: int)
    requires
        0 <= a < 16,
        0 <= b < 16,
    ensures
        hex_digit(a) == hex_digit(b) ==> a == b,
{
}

/// Hexadecimal has two digits for each byte, tells bytes apart, and is written byte by byte:
/// the text of two runs is that of the first and that of the second.
pub proof fn law_hex_tells_bytes_apart(a: Seq<u8>, b: Seq<u8>)
    ensures
        hex(a).len() == 2 * a.len(),
        hex(a + b) == hex(a) + hex(b),
        hex(a) == hex(b) ==> a == b,
    decreases b.len(), a.len(),
{
    lemma_hex_len(a);
    lemma_hex_len(b);
    lemma_hex_joins(a, b);
    if hex(a) == hex(b) {
        lemma_hex_injective(a, b);
    }
}

proof fn lemma_hex_len(a: Seq<u8>)
    ensures
        hex(a).len() == 2 * a.len(),
    decreases a.len(),
{
    if a.len() > 0 {
        lemma_hex_len(a.drop_last());
    }
}

proof fn lemma_hex_joins(a: Seq<u8>, b: Seq<u8>)
    ensures
        hex(a + b) == hex(a) + hex(b),
    decreases b.len(),
{
    if b.len() == 0 {
        assert(a + b =~= a);
        assert(hex(a) + hex(b) =~= hex(a));
    } else {
        lemma_hex_joins(a, b.drop_last());
        assert((a + b).drop_last() =~= a + b.drop_last());
        assert((a + b).last() == b.last());
        assert(hex(a + b) =~= hex(a) + hex(b));
    }
}

proof fn lemma_hex_injective(a: Seq<u8>, b: Seq<u8>)
    requires
        hex(a) == hex(b),
    ensures
        a == b,
    decreases a.len(),
{
    lemma_hex_len(a);
    lemma_hex_len(b);
    if a.len() == 0 {
        assert(a =~= b);
    } else {
        let n = hex(a).len() as int;
        let (x, y) = (a.last() as int, b.last() as int);
        assert(hex(a)[n - 2] == hex_digit(x / 16) && hex(a)[n - 1] == hex_digit(x % 16));
        assert(hex(b)[n - 2] == hex_digit(y / 16) && hex(b)[n - 1] == hex_digit(y % 16));
        lemma_hex_digit(x / 16, y / 16);
        lemma_hex_digit(x % 16, y % 16);
        assert(x == y);
        assert(hex(a).take(n - 2) =~= hex(a.drop_last()));
        assert(hex(b).take(n - 2) =~= hex(b.drop_last()));
        lemma_hex_injective(a.drop_last(), b.drop_last());
        assert(a =~= a.drop_last().push(a.last()));
        assert(b =~= b.drop_last().push(b.last()));
    }
}

/// One byte is its upper four bits and its lower four bits, each as a digit up to nine or a
/// letter from `a` on.
pub proof fn law_hex_digits(b: u8)
    ensures
        hex(seq![b]) == seq![hex_digit(b as int / 16), hex_digit(b as int % 16)],
        forall|n: int| 0 <= n < 10 ==> #[trigger] hex_digit(n) as int == '0' as int + n,
        forall|n: int| 10 <= n < 16 ==> #[trigger] hex_digit(n) as int == 'a' as int + (n - 10),
{
    reveal_with_fuel(hex, 2);
    assert(seq![b].drop_last() =~= Seq::<u8>::empty());
    assert(hex(seq![b]) =~= seq![hex_digit(b as int / 16), hex_digit(b as int % 16)]);
}

/// Whether two cells hold the same.
pub open spec fn same_value(v: SqlValue, w: SqlValue) -> bool {
    match (v, w) {
        (SqlValue::Null, SqlValue::Null) => true,
        (SqlValue::Integer(a), SqlValue::Integer(b)) => a == b,
        (SqlValue::Real(a), SqlValue::Real(b)) => a@ == b@,
        (SqlValue::Text(a), SqlValue::Text(b)) => a@ == b@,
        (SqlValue::Blob(a), SqlValue::Blob(b)) => a@ == b@,
        _ => false,
    }
}

/// The first character of the canonical text of a cell tells its kind.
proof fn lemma_kinds(v: SqlValue)
    requires
        v !is Real,
    ensures
        canonical_text(v).len() > 0,
        v is Null ==> canonical_text(v)[0] == 'N',
        v is Text ==> canonical_text(v)[0] == '\'',
        v is Blob ==> canonical_text(v)[0] == 'x',
        v is Integer ==> canonical_text(v)[0] == '-' || '0' <= canonical_text(v)[0] <= '9',
{
    reveal_strlit("NULL");
    reveal_strlit("'");
    reveal_strlit("x'");
    reveal_strlit("-");
    if v is Integer {
        let i = v->Integer_0 as int;
        let n = if i < 0 {
            (-i) as nat
        } else {
            i as nat
        };
        crate::text::law_numerals_are_decimal(n, n);
        crate::text::lemma_dec(n);
        assert('0' <= dec(n)[0] <= '9');
    }
}

/// The canonical text tells cells apart, whatever they hold: two cells with the same one, of
/// which none is a floating-point number, hold the same; so do two floating-point numbers as
/// they were written.
pub proof fn law_canonical_text_tells_cells_apart(v: SqlValue, w: SqlValue)
    requires
        v is Real <==> w is Real,
    ensures
        canonical_text(v) == canonical_text(w) <==> same_value(v, w),
{
    reveal_strlit("'");
    reveal_strlit("x'");
    if v !is Real {
        lemma_kinds(v);
        lemma_kinds(w);
        if canonical_text(v) == canonical_text(w) {
            let t = canonical_text(v);
            match (v, w) {
                (SqlValue::Integer(a), SqlValue::Integer(b)) => {
                    crate::text::law_signs_stand_in_front(a as int, b as int);
                    reveal_strlit("-");
                },
                (SqlValue::Text(a), SqlValue::Text(b)) => {
                    assert(t.subrange(1, t.len() - 1) =~= a@);
                    assert(t.subrange(1, t.len() - 1) =~= b@);
                },
                (SqlValue::Blob(a), SqlValue::Blob(b)) => {
                    assert(t.subrange(2, t.len() - 1) =~= hex(a@));
                    assert(t.subrange(2, t.len() - 1) =~= hex(b@));
                    law_hex_tells_bytes_apart(a@, b@);
                },
                _ => {},
            }
        }
    }
}

/// The text of a blob is its bytes in hexadecimal, two digits each, in `x'` and `'`; that of
/// a text is the text in quotes, of an integer its numeral, of nothing `NULL`, and a
/// floating-point number stands as it is written.
pub proof fn law_canonical_forms(v: SqlValue)
    ensures
        v matches SqlValue::Blob(b) ==> {
            &&& canonical_text(v).len() == 2 * b@.len() + 3
            &&& canonical_text(v).take(2) == seq!['x', '\'']
            &&& canonical_text(v).last() == '\''
            &&& canonical_text(v).subrange(2, canonical_text(v).len() - 1) == hex(b@)
        },
        v matches SqlValue::Text(t) ==> canonical_text(v) == seq!['\''] + t@ + seq!['\''],
        v matches SqlValue::Integer(i) ==> canonical_text(v) == crate::text::signed_dec(i as int),
        v is Null ==> canonical_text(v) == "NULL"@,
        v matches SqlValue::Real(r) ==> canonical_text(v) == r@,
{
    reveal_strlit("'");
    reveal_strlit("x'");
    assert("'"@ =~= seq!['\'']);
    assert("x'"@ =~= seq!['x', '\'']);
    if v is Blob {
        let b = v->Blob_0@;
        lemma_hex_len(b);
        let t = canonical_text(v);
        assert(t.take(2) =~= seq!['x', '\'']);
        assert(t.subrange(2, t.len() - 1) =~= hex(b));
    }
}

/// Rows of the same columns that differ in the text of one cell have different texts, be the
/// cell where it may: no cell is left out of a row.
pub proof fn law_rows_tell_cells_apart(
    cols: Seq<String>,
    v: Seq<SqlValue>,
    w: Seq<SqlValue>,
    k: int,
)
    requires
        cols.len() == v.len() == w.len(),
        0 <= k < cols.len(),
        forall|i: int|
            0 <= i < v.len() && i != k ==> canonical_text(#[trigger] v[i]) == canonical_text(w[i]),
        canonical_text(v[k]) != canonical_text(w[k]),
    ensures
        canonical_row_text(cols, v) != canonical_row_text(cols, w),
    decreases cols.len(),
{
    let (v0, w0) = (v.drop_last(), w.drop_last());
    let c0 = cols.drop_last();
    let (a, b) = (canonical_row_text(c0, v0), canonical_row_text(c0, w0));
    let n = cols.len() - 1;
    reveal_strlit("=");
    reveal_strlit("|");
    let head = cols.last()@ + "="@;
    assert(canonical_row_text(cols, v) =~= a + head + canonical_text(v[n]) + "|"@);
    assert(canonical_row_text(cols, w) =~= b + head + canonical_text(w[n]) + "|"@);
    if canonical_row_text(cols, v) == canonical_row_text(cols, w) {
        let t = canonical_row_text(cols, v);
        if k == n {
            lemma_same_cells_same_row(c0, v0, w0);
            let from = (a + head).len() as int;
            assert(t.subrange(from, t.len() - 1) =~= canonical_text(v[n]));
            assert(t.subrange(from, t.len() - 1) =~= canonical_text(w[n]));
        } else {
            assert(canonical_text(v[n]) == canonical_text(w[n]));
            let tail = (head + canonical_text(v[n]) + "|"@).len() as int;
            assert(t.take(t.len() - tail) =~= a);
            assert(t.take(t.len() - tail) =~= b);
            assert forall|i: int| 0 <= i < v0.len() && i != k implies canonical_text(
                #[trigger] v0[i],
            ) == canonical_text(w0[i]) by {
                assert(v0[i] == v[i] && w0[i] == w[i]);
            }
            law_rows_tell_cells_apart(c0, v0, w0, k);
        }
    }
}

proof fn lemma_same_cells_same_row(cols: Seq<String>, v: Seq<SqlValue>, w: Seq<SqlValue>)
    requires
        cols.len() == v.len() == w.len(),
        forall|i: int| 0 <= i < v.len() ==> canonical_text(#[trigger] v[i]) == canonical_text(w[i]),
    ensures
        canonical_row_text(cols, v) == canonical_row_text(cols, w),
    decreases cols.len(),
{
    if cols.len() > 0 {
        let (v0, w0) = (v.drop_last(), w.drop_last());
        assert forall|i: int| 0 <= i < v0.len() implies canonical_text(#[trigger] v0[i])
            == canonical_text(w0[i]) by {
            assert(v0[i] == v[i] && w0[i] == w[i]);
        }
        lemma_same_cells_same_row(cols.drop_last(), v0, w0);
        assert(canonical_text(v[v.len() - 1]) == canonical_text(w[v.len() - 1]));
    }
}

/// Two wallets whose tables differ in one row, in one blob of it, in any of its bytes, have
/// rows that differ.
pub proof fn law_rows_differ_in_any_byte(
    cols: Seq<String>,
    v: Seq<SqlValue>,
    k: int,
    a: Vec<u8>,
    b: Vec<u8>,
)
    requires
        cols.len() == v.len(),
        0 <= k < cols.len(),
        a@ != b@,
    ensures
        canonical_row_text(cols, v.update(k, SqlValue::Blob(a))) != canonical_row_text(
            cols,
            v.update(k, SqlValue::Blob(b)),
        ),
{
    law_canonical_text_tells_cells_apart(SqlValue::Blob(a), SqlValue::Blob(b));
    law_rows_tell_cells_apart(
        cols,
        v.update(k, SqlValue::Blob(a)),
        v.update(k, SqlValue::Blob(b)),
        k,
    );
}

/// A row is written column by column, each with its name, an equals sign, its cell and a bar.
pub proof fn law_rows_are_written_column_by_column(
    cols: Seq<String>,
    values: Seq<SqlValue>,
    col: String,
    value: SqlValue,
)
    requires
        cols.len() == values.len(),
    ensures
        canonical_row_text(Seq::empty(), Seq::empty()).len() == 0,
        canonical_row_text(cols.push(col), values.push(value)) == canonical_row_text(cols, values)
            + col@ + seq!['='] + canonical_text(value) + seq!['|'],
{
    reveal_strlit("=");
    reveal_strlit("|");
    assert("="@ =~= seq!['=']);
    assert("|"@ =~= seq!['|']);
    assert(cols.push(col).drop_last() =~= cols);
    assert(values.push(value).drop_last() =~= values);
}

/// Every column is compared but the random identity of the accounts.
pub proof fn law_one_column_is_left_out(table: Seq<char>, column: Seq<char>)
    ensures
        !column_compared(table, column) <==> table == "accounts"@ && column == "uuid"@,
{
}

/// Only the two maps that the wallet prunes are compared in a window, from a hundred blocks
/// below the greater of both tops on; where neither has a row, there is no window.
pub proof fn law_pruned_tables_are_compared_at_the_top(
    table: Seq<char>,
    a: Option<u32>,
    b: Option<u32>,
)
    ensures
        is_transient_spec(table) <==> table == "nullifier_map"@ || table == "tx_locator_map"@,
        window_floor(a, b) is None <==> a is None && b is None,
        window_floor(a, b) == window_floor(b, a),
        a matches Some(x) && (b matches Some(y) ==> y <= x) ==> (window_floor(a, b)
            == Some(0u32) && a->Some_0 <= 100) || (window_floor(a, b) is Some && window_floor(
            a,
            b,
        )->Some_0 + 100 == a->Some_0),
{
}

/// Every table of either side is compared, each once where the lists name it once, and no
/// other.
pub proof fn law_every_table_is_compared(a: Seq<Seq<char>>, b: Seq<Seq<char>>, name: Seq<char>)
    ensures
        union_names(a, b).contains(name) <==> a.contains(name) || b.contains(name),
        a.no_duplicates() ==> union_names(a, b).no_duplicates(),
    decreases b.len(),
{
    if b.len() > 0 {
        let before = b.drop_last();
        law_every_table_is_compared(a, before, name);
        law_every_table_is_compared(a, before, b.last());
        let u = union_names(a, before);
        let r = union_names(a, b);
        assert(b.contains(name) <==> before.contains(name) || b.last() == name) by {
            if b.contains(name) && b.last() != name {
                let i = choose|i: int| 0 <= i < b.len() && b[i] == name;
                assert(before[i] == name);
            }
            if before.contains(name) {
                let i = choose|i: int| 0 <= i < before.len() && before[i] == name;
                assert(b[i] == name);
            }
            if b.last() == name {
                assert(b[b.len() - 1] == name);
            }
        }
        if !u.contains(b.last()) {
            assert(r.contains(name) <==> u.contains(name) || name == b.last()) by {
                if u.contains(name) {
                    let i = choose|i: int| 0 <= i < u.len() && u[i] == name;
                    assert(r[i] == name);
                }
                assert(r[u.len() as int] == b.last());
                if r.contains(name) && name != b.last() {
                    let i = choose|i: int| 0 <= i < r.len() && r[i] == name;
                    assert(u[i] == name);
                }
            }
            if a.no_duplicates() {
                assert forall|i: int, j: int|
                    0 <= i < r.len() && 0 <= j < r.len() && i != j implies r[i] != r[j] by {
                    if i < u.len() && j < u.len() {
                        assert(u[i] != u[j]);
                    } else if i < u.len() {
                        assert(u.contains(u[i]));
                    } else {
                        assert(u.contains(u[j]));
                    }
                }
            }
        }
    }
}

/// The rows that a comparison shows of one side are rows that this side has more often than
/// the other, in order; where it shows fewer than five, it shows every such row, and it shows
/// one whenever there is one.
pub proof fn law_shown_rows_are_surplus(
    kept: Seq<Seq<char>>,
    a: Seq<Seq<char>>,
    b: Seq<Seq<char>>,
    x: Seq<char>,
)
    requires
        keeps_surplus(kept, a, b),
    ensures
        kept.len() <= 5,
        kept.contains(x) ==> a.to_multiset().count(x) > b.to_multiset().count(x),
        kept.to_multiset().count(x) <= a.to_multiset().count(x),
        kept.len() < 5 && a.to_multiset().count(x) > b.to_multiset().count(x)
            ==> kept.to_multiset().count(x) == a.to_multiset().count(x) - b.to_multiset().count(x),
        a.to_multiset().count(x) > b.to_multiset().count(x) ==> kept.len() > 0,
        forall|i: int, j: int|
            0 <= i <= j < kept.len() ==> text_le(#[trigger] kept[i], #[trigger] kept[j]),
{
    broadcast use vstd::seq_lib::group_to_multiset_ensures;

    let full = choose|full: Seq<Seq<char>>| #[trigger]
        is_surplus(full, a, b) && kept == first_five(full);
    assert(occurrences(full, x) == full.to_multiset().count(x));
    if kept.contains(x) {
        let i = choose|i: int| 0 <= i < kept.len() && kept[i] == x;
        assert(full[i] == x);
        assert(full.contains(x));
        assert(full.to_multiset().count(x) > 0);
    }
    assert(kept.to_multiset().count(x) <= full.to_multiset().count(x)) by {
        lemma_prefix_counts(full, kept.len() as int, x);
        assert(kept =~= full.take(kept.len() as int));
    }
    if full.len() < 5 {
        assert(kept == full);
    }
    if a.to_multiset().count(x) > b.to_multiset().count(x) {
        assert(full.contains(x));
    }
}

proof fn lemma_prefix_counts(s: Seq<Seq<char>>, n: int, x: Seq<char>)
    requires
        0 <= n <= s.len(),
    ensures
        s.take(n).to_multiset().count(x) <= s.to_multiset().count(x),
    decreases s.len() - n,
{
    broadcast use vstd::seq_lib::group_to_multiset_ensures;

    if n < s.len() {
        lemma_prefix_counts(s, n + 1, x);
        assert(s.take(n + 1) =~= s.take(n).push(s[n]));
    } else {
        assert(s.take(n) =~= s);
    }
}

/// A report is clean exactly where every table is, and a table where neither side has a row
/// more than the other and both have equally many.
pub proof fn law_one_dirty_table_is_enough(r: DiffReport, i: int)
    requires
        0 <= i < r.tables@.len(),
    ensures
        r.clean() ==> r.tables@[i].clean(),
        r.tables@[i].clean() <==> r.tables@[i].only_in_a@.len() == 0
            && r.tables@[i].only_in_b@.len() == 0 && r.tables@[i].rows_a == r.tables@[i].rows_b,
        (forall|j: int| 0 <= j < r.tables@.len() ==> (#[trigger] r.tables@[j]).clean())
            ==> r.clean(),
{
}

/// The comparison of a table is of its own rows: it has the table's name and how many rows
/// each side has, and shows of each side what it has more often than the other.
pub proof fn law_comparison_is_of_the_table(d: TableDiff, t: TableRows)
    requires
        compares(d, t),
    ensures
        d.table@ == t.table@,
        d.rows_a == t.rows_a@.len(),
        d.rows_b == t.rows_b@.len(),
        forall|k: int|
            0 <= k < d.only_in_a@.len() ==> texts(t.rows_a@).to_multiset().count(
                (#[trigger] d.only_in_a@[k])@,
            ) > texts(t.rows_b@).to_multiset().count(d.only_in_a@[k]@),
        forall|k: int|
            0 <= k < d.only_in_b@.len() ==> texts(t.rows_b@).to_multiset().count(
                (#[trigger] d.only_in_b@[k])@,
            ) > texts(t.rows_a@).to_multiset().count(d.only_in_b@[k]@),
{
    let (a, b) = (texts(t.rows_a@), texts(t.rows_b@));
    assert forall|k: int| 0 <= k < d.only_in_a@.len() implies a.to_multiset().count(
        (#[trigger] d.only_in_a@[k])@,
    ) > b.to_multiset().count(d.only_in_a@[k]@) by {
        assert(texts(d.only_in_a@)[k] == d.only_in_a@[k]@);
        law_shown_rows_are_surplus(texts(d.only_in_a@), a, b, d.only_in_a@[k]@);
    }
    assert forall|k: int| 0 <= k < d.only_in_b@.len() implies b.to_multiset().count(
        (#[trigger] d.only_in_b@[k])@,
    ) > a.to_multiset().count(d.only_in_b@[k]@) by {
        assert(texts(d.only_in_b@)[k] == d.only_in_b@[k]@);
        law_shown_rows_are_surplus(texts(d.only_in_b@), b, a, d.only_in_b@[k]@);
    }
}

/// A name is filled up to forty characters with blanks and never cut.
pub proof fn law_names_are_filled_up(name: Seq<char>)
    ensures
        padded(name).len() >= 40,
        padded(name).len() == 40 || padded(name) == name,
        padded(name).take(name.len() as int) == name,
        forall|i: int| name.len() <= i < padded(name).len() ==> #[trigger] padded(name)[i] == ' ',
{
    assert(padded(name).take(name.len() as int) =~= name);
}

/// A report has the lines of its tables one after the other. The line of a table says `OK`
/// where it is clean and `DIFF` where it is not, each with the table's name and the number of
/// rows; a table that differs shows the rows of each side line by line, A before B.
pub proof fn law_report_shows_every_table(tables: Seq<TableDiff>, t: TableDiff)
    ensures
        report_lines(Seq::empty()).len() == 0,
        report_lines(tables.push(t)) == report_lines(tables) + table_lines(t),
        t.clean() ==> table_lines(t).take(7) == "  OK   "@ && table_lines(t) == "  OK   "@
            + padded(t.table@) + " "@ + dec(t.rows_a as nat) + " rows\n"@,
        !t.clean() ==> table_lines(t).take(7) == "  DIFF "@,
        table_lines(t).subrange(7, 7int + padded(t.table@).len()) == padded(t.table@),
{
    reveal_strlit("  OK   ");
    reveal_strlit("  DIFF ");
    assert(tables.push(t).drop_last() =~= tables);
    if t.clean() {
        assert(table_lines(t).take(7) =~= "  OK   "@);
    } else {
        assert(table_lines(t).take(7) =~= "  DIFF "@);
    }
    assert(table_lines(t).subrange(7, 7int + padded(t.table@).len()) =~= padded(t.table@));
}

/// The lines of one side are its rows in order, each behind the label and with a line end.
pub proof fn law_rows_are_shown_line_by_line(
    label: Seq<char>,
    rows: Seq<Seq<char>>,
    row: Seq<char>,
)
    ensures
        side_lines(label, Seq::empty()).len() == 0,
        side_lines(label, rows.push(row)) == side_lines(label, rows) + label + row + seq!['\n'],
{
    reveal_strlit("\n");
    assert("\n"@ =~= seq!['\n']);
    assert(rows.push(row).drop_last() =~= rows);
}

/// A table that differs says how many rows each side has and how many of them the other does
/// not have, and shows the first five of these.
pub proof fn law_differences_are_shown(t: TableDiff)
    requires
        !t.clean(),
    ensures
        table_lines(t) == "  DIFF "@ + padded(t.table@) + " A="@ + dec(t.rows_a as nat) + " B="@
            + dec(t.rows_b as nat) + " (+A "@ + dec(t.only_in_a@.len()) + " / +B "@ + dec(
            t.only_in_b@.len(),
        ) + ")\n"@ + side_lines(
            "       only-in-A: "@,
            texts(t.only_in_a@).take(
                if t.only_in_a@.len() > 5 {
                    5
                } else {
                    t.only_in_a@.len() as int
                },
            ),
        ) + side_lines(
            "       only-in-B: "@,
            texts(t.only_in_b@).take(
                if t.only_in_b@.len() > 5 {
                    5
                } else {
                    t.only_in_b@.len() as int
                },
            ),
        ),
{
    let (a, b) = (texts(t.only_in_a@), texts(t.only_in_b@));
    if a.len() <= 5 {
        assert(a.take(a.len() as int) =~= a);
    }
    if b.len() <= 5 {
        assert(b.take(b.len() as int) =~= b);
    }
}

/// The statement for a table names each of its columns in quotes, separated by commas, and
/// the table, and leaves rows out only below the height that it was given.
pub proof fn law_every_column_is_read(
    table: Seq<char>,
    cols: Seq<String>,
    col: String,
    height: u32,
)
    ensures
        column_list(seq![col]) == seq!['"'] + col@ + seq!['"'],
        cols.len() > 0 ==> column_list(cols.push(col)) == column_list(cols) + seq![',', ' ', '"']
            + col@ + seq!['"'],
        select_text(table, cols, None) == "SELECT "@ + column_list(cols) + " FROM \""@ + table
            + "\""@,
        select_text(table, cols, Some(height)) == select_text(table, cols, None)
            + " WHERE block_height >= "@ + dec(height as nat),
{
    reveal_strlit("\"");
    reveal_strlit(", ");
    assert("\""@ =~= seq!['"']);
    assert(cols.push(col).drop_last() =~= cols);
    let none = select_text(table, cols, None);
    assert(none =~= "SELECT "@ + column_list(cols) + " FROM \""@ + table + "\""@);
    assert(select_text(table, cols, Some(height)) =~= none + " WHERE block_height >= "@ + dec(
        height as nat,
    ));
    if cols.len() > 0 {
        assert(column_list(cols.push(col)) =~= column_list(cols) + seq![',', ' ', '"'] + col@
            + seq!['"']);
    }
}

} // verus!
