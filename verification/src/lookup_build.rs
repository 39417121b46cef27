//! Precomputed combines. All combines that a run of leaves needs are computed
//! level by level in batches; building the tree then looks each of them up and
//! falls back to the scalar combine for those that are not there.
use crate::batch_sinsemilla::{
    law_batch_matches_scalar, orchard_combine_batch_cpu, scalar_combine, scalar_result, Consts,
};
use crate::pallas::{canonical, le_bytes, le_value, lemma_le_bytes};
use incrementalmerkletree::Hashable;
use std::collections::BTreeMap;
use vstd::prelude::*;

verus! {

broadcast use vstd::laws_cmp::group_laws_cmp;

/// The key of a combine: the level and both nodes, each as two halves. The level
/// is part of it so that equal pairs on different levels stay apart.
pub type CombineKey = (u8, u128, u128, u128, u128);

/// The key of a combine.
pub open spec fn key_of(level: u8, a: Seq<u8>, b: Seq<u8>) -> CombineKey {
    (
        level,
        le_value(a.take(16)) as u128,
        le_value(a.skip(16)) as u128,
        le_value(b.take(16)) as u128,
        le_value(b.skip(16)) as u128,
    )
}

/// The number of sixteen bytes from `from` on.
fn half_value(a: &[u8; 32], from: usize) -> (r: u128)
    requires
        from <= 16,
    ensures
        r == le_value(a@.subrange(from as int, from + 16)),
        le_value(a@.subrange(from as int, from + 16)) <= u128::MAX,
{
    let ghost s = a@.subrange(from as int, from + 16);
    let mut v: u128 = 0;
    let mut i: usize = 16;
    let ghost mut bound: int = 1;
    proof {
        vstd::arithmetic::power::lemma_pow0(256);
    }
    assert(s.skip(16) =~= Seq::empty());
    while i > 0
        invariant
            0 <= i <= 16,
            from <= 16,
            s == a@.subrange(from as int, from + 16),
            v == le_value(s.skip(i as int)),
            v < bound,
            bound == vstd::arithmetic::power::pow(256, (16 - i) as nat),
        decreases i,
    {
        proof {
            vstd::arithmetic::power::lemma_pow1(256);
            reveal(vstd::arithmetic::power::pow);
            assert(s.skip(i - 1).skip(1) =~= s.skip(i as int));
            assert(bound * 256 == vstd::arithmetic::power::pow(256, (16 - i + 1) as nat));
            lemma_pow256(16 - i);
        }
        i = i - 1;
        v = v * 256 + a[from + i] as u128;
        proof {
            bound = bound * 256;
        }
    }
    assert(s.skip(0) =~= s);
    v
}

proof fn lemma_pow256(n: int)
    requires
        0 <= n < 16,
    ensures
        vstd::arithmetic::power::pow(256, n as nat) * 256
            <= 0x1_0000_0000_0000_0000_0000_0000_0000_0000,
        vstd::arithmetic::power::pow(256, n as nat) >= 1,
    decreases 16 - n,
{
    reveal_with_fuel(vstd::arithmetic::power::pow, 17);
    if n < 15 {
        lemma_pow256(n + 1);
    }
    vstd::arithmetic::power::lemma_pow_positive(256, n as nat);
}

/// The key of a combine.
pub fn combine_key(level: u8, a: &[u8; 32], b: &[u8; 32]) -> (r: CombineKey)
    ensures
        r == key_of(level, a@, b@),
{
    assert(a@.subrange(0, 16) =~= a@.take(16));
    assert(a@.subrange(16, 32) =~= a@.skip(16));
    assert(b@.subrange(0, 16) =~= b@.take(16));
    assert(b@.subrange(16, 32) =~= b@.skip(16));
    (level, half_value(a, 0), half_value(a, 16), half_value(b, 0), half_value(b, 16))
}

/// Sixteen bytes make a number that fits.
proof fn lemma_half_fits(s: Seq<u8>, n: nat)
    requires
        s.len() <= n <= 16,
    ensures
        0 <= le_value(s) < vstd::arithmetic::power::pow(256, n),
    decreases s.len(),
{
    vstd::arithmetic::power::lemma_pow_positive(256, n);
    if s.len() > 0 {
        lemma_half_fits(s.skip(1), (n - 1) as nat);
        reveal(vstd::arithmetic::power::pow);
        let p = vstd::arithmetic::power::pow(256, (n - 1) as nat);
        assert(vstd::arithmetic::power::pow(256, n) == 256 * p);
        assert(le_value(s) == s[0] as int + 256 * le_value(s.skip(1)));
    }
}

proof fn lemma_half(s: Seq<u8>)
    requires
        s.len() == 16,
    ensures
        0 <= le_value(s) <= u128::MAX,
{
    lemma_half_fits(s, 16);
    lemma_pow256(15);
    reveal(vstd::arithmetic::power::pow);
    assert(vstd::arithmetic::power::pow(256, 16) == 256 * vstd::arithmetic::power::pow(256, 15));
}

/// Two combines have the same key only where they are the same combine.
pub proof fn law_keys_are_distinct(
    level: u8,
    a: Seq<u8>,
    b: Seq<u8>,
    level2: u8,
    a2: Seq<u8>,
    b2: Seq<u8>,
)
    requires
        a.len() == 32,
        b.len() == 32,
        a2.len() == 32,
        b2.len() == 32,
        key_of(level, a, b) == key_of(level2, a2, b2),
    ensures
        level == level2,
        a == a2,
        b == b2,
{
    lemma_half(a.take(16));
    lemma_half(a.skip(16));
    lemma_half(b.take(16));
    lemma_half(b.skip(16));
    lemma_half(a2.take(16));
    lemma_half(a2.skip(16));
    lemma_half(b2.take(16));
    lemma_half(b2.skip(16));
    lemma_le_bytes(a.take(16));
    lemma_le_bytes(a.skip(16));
    lemma_le_bytes(b.take(16));
    lemma_le_bytes(b.skip(16));
    lemma_le_bytes(a2.take(16));
    lemma_le_bytes(a2.skip(16));
    lemma_le_bytes(b2.take(16));
    lemma_le_bytes(b2.skip(16));
    assert(a =~= a.take(16) + a.skip(16));
    assert(a2 =~= a2.take(16) + a2.skip(16));
    assert(b =~= b.take(16) + b.skip(16));
    assert(b2 =~= b2.take(16) + b2.skip(16));
}

/// The root of an empty subtree at a level: the empty leaf is the field element two, and a
/// node combines two empty subtrees of the level below.
pub open spec fn empty_subtree(level: int) -> Seq<u8>
    decreases level,
{
    if level <= 0 {
        le_bytes(2, 32)
    } else {
        scalar_result((level - 1) as u8, empty_subtree(level - 1), empty_subtree(level - 1))
    }
}

/// `MerkleHashOrchard::empty_root`, for the levels that an Orchard tree has: the crate's
/// table starts with the empty leaf, and each entry is the `combine` of the one before
/// with itself, at that one's level.
#[verifier::external_body]
fn empty_root(level: u8) -> (r: [u8; 32])
    requires
        level <= 32,
    ensures
        r@ == empty_subtree(level as int),
        canonical(r@),
{
    orchard::tree::MerkleHashOrchard::empty_root(level.into()).to_bytes()
}

/// The nodes of a level, an odd number of them filled up with an empty subtree.
pub open spec fn filled(nodes: Seq<Seq<u8>>, level: int) -> Seq<Seq<u8>> {
    if nodes.len() % 2 == 1 {
        nodes.push(empty_subtree(level))
    } else {
        nodes
    }
}

/// The nodes above the nodes of a level.
pub open spec fn parents(nodes: Seq<Seq<u8>>, level: int) -> Seq<Seq<u8>> {
    let f = filled(nodes, level);
    Seq::new(
        f.len() / 2,
        |i: int| scalar_result(level as u8, f[2 * i], f[2 * i + 1]),
    )
}

/// The nodes of a level above the leaves.
pub open spec fn level_nodes(leaves: Seq<Seq<u8>>, level: int) -> Seq<Seq<u8>>
    decreases level,
{
    if level <= 0 {
        leaves
    } else {
        parents(level_nodes(leaves, level - 1), level - 1)
    }
}

/// The key of the `i`-th pair of a filled level.
pub open spec fn pair_key(level: u8, f: Seq<Seq<u8>>, i: int) -> CombineKey {
    key_of(level, f[2 * i], f[2 * i + 1])
}

/// Whether a key is that of one of the first `n` pairs of a filled level.
pub open spec fn among_pairs(level: u8, f: Seq<Seq<u8>>, n: int, key: CombineKey) -> bool {
    exists|i: int| 0 <= i < n && key == #[trigger] pair_key(level, f, i)
}

/// Whether a key is that of the `i`-th combine of a level.
pub open spec fn is_tree_key(leaves: Seq<Seq<u8>>, level: int, i: int, key: CombineKey) -> bool {
    let f = filled(level_nodes(leaves, level), level);
    &&& 0 <= level
    &&& level_nodes(leaves, level).len() > 1
    &&& 0 <= i
    &&& 2 * i + 1 < f.len()
    &&& key == pair_key(level as u8, f, i)
}

/// The views of nodes.
pub open spec fn node_views(nodes: Seq<[u8; 32]>) -> Seq<Seq<u8>> {
    nodes.map_values(|n: [u8; 32]| n@)
}

/// Precomputed combines.
pub struct CombineMap {
    map: BTreeMap<(u8, u128, u128, u128, u128), [u8; 32]>,
}

/// Whether every entry is the scalar combine that its key stands for.
pub open spec fn entries_sound(m: Map<CombineKey, [u8; 32]>) -> bool {
    forall|level: u8, a: Seq<u8>, b: Seq<u8>|
        a.len() == 32 && b.len() == 32 && m.contains_key(#[trigger] key_of(level, a, b))
            ==> canonical(a) && canonical(b) && m[key_of(level, a, b)]@ == scalar_result(
            level,
            a,
            b,
        )
}

impl CombineMap {
    /// The entries.
    pub closed spec fn entries(&self) -> Map<CombineKey, [u8; 32]> {
        self.map@
    }

    #[verifier::type_invariant]
    spec fn sound(&self) -> bool {
        entries_sound(self.map@)
    }

    /// The combine of two nodes: looked up where it was precomputed, else
    /// computed. Either way it is the scalar combine.
    pub fn combine(&self, level: u8, a: &[u8; 32], b: &[u8; 32]) -> (r: [u8; 32])
        ensures
            r@ == scalar_result(level, a@, b@),
    {
        proof {
            use_type_invariant(self);
        }
        let key: (u8, u128, u128, u128, u128) = combine_key(level, a, b);
        match self.map.get(&key) {
            Some(v) => *v,
            None => scalar_combine(level, a, b),
        }
    }
}

/// The nodes above a full level: the combine of each pair.
fn combine_pairs(cs: &Consts, level: u8, nodes: &Vec<[u8; 32]>) -> (above: Vec<[u8; 32]>)
    requires
        nodes@.len() % 2 == 0,
        forall|i: int| 0 <= i < nodes@.len() ==> canonical((#[trigger] nodes@[i])@),
    ensures
        above@.len() == nodes@.len() / 2,
        forall|i: int|
            0 <= i < above@.len() ==> (#[trigger] above@[i])@ == scalar_result(
                level,
                nodes@[2 * i]@,
                nodes@[2 * i + 1]@,
            ) && canonical(above@[i]@),
{
    let total: usize = nodes.len();
    let pairs: usize = total / 2;
    let mut layers: Vec<u8> = Vec::new();
    let mut lefts: Vec<[u8; 32]> = Vec::new();
    let mut rights: Vec<[u8; 32]> = Vec::new();
    let mut p: usize = 0;
    while p < pairs
        invariant
            0 <= p <= pairs,
            total == nodes@.len(),
            total == 2 * pairs,
            layers@.len() == p,
            lefts@.len() == p,
            rights@.len() == p,
            forall|i: int|
                0 <= i < p ==> (#[trigger] layers@[i]) == level && lefts@[i] == nodes@[2 * i]
                    && rights@[i] == nodes@[2 * i + 1],
        decreases pairs - p,
    {
        layers.push(level);
        lefts.push(nodes[2 * p]);
        rights.push(nodes[2 * p + 1]);
        p = p + 1;
    }
    let above: Vec<[u8; 32]> = orchard_combine_batch_cpu(cs, &layers, &lefts, &rights);
    assert forall|i: int| 0 <= i < above@.len() implies (#[trigger] above@[i])@ == scalar_result(
        level,
        nodes@[2 * i]@,
        nodes@[2 * i + 1]@,
    ) && canonical(above@[i]@) by {
        assert(layers@[i] == level);
        law_batch_matches_scalar(level, nodes@[2 * i]@, nodes@[2 * i + 1]@);
    }
    above
}

/// Precomputes all combines of the tree over `leaves`, level by level.
#[verifier::spinoff_prover]
pub fn precompute_shard_map(cs: &Consts, leaves: &Vec<[u8; 32]>) -> (r: CombineMap)
    requires
        leaves@.len() <= 0x1_0000_0000,
        forall|i: int| 0 <= i < leaves@.len() ==> canonical((#[trigger] leaves@[i])@),
    ensures
        forall|key: CombineKey|
            r.entries().contains_key(key) <==> exists|level: int, i: int|
                is_tree_key(node_views(leaves@), level, i, key),
{
    let ghost views = node_views(leaves@);
    let mut map: BTreeMap<(u8, u128, u128, u128, u128), [u8; 32]> = BTreeMap::new();
    let mut nodes: Vec<[u8; 32]> = Vec::new();
    let mut k: usize = 0;
    while k < leaves.len()
        invariant
            0 <= k <= leaves@.len(),
            nodes@ == leaves@.take(k as int),
        decreases leaves@.len() - k,
    {
        nodes.push(leaves[k]);
        assert(leaves@.take(k + 1) =~= leaves@.take(k as int).push(leaves@[k as int]));
        k = k + 1;
    }
    assert(leaves@.take(leaves@.len() as int) =~= leaves@);
    let mut level: u8 = 0;
    let ghost mut cap: int = 0x1_0000_0000;
    proof {
        vstd::arithmetic::power2::lemma2_to64();
        assert(entries_sound(map@));
    }
    while nodes.len() > 1
        invariant
            level <= 32,
            nodes@.len() <= cap,
            cap * vstd::arithmetic::power2::pow2(level as nat) == 0x1_0000_0000,
            cap >= 1,
            views == node_views(leaves@),
            node_views(nodes@) == level_nodes(views, level as int),
            forall|i: int| 0 <= i < nodes@.len() ==> canonical((#[trigger] nodes@[i])@),
            entries_sound(map@),
            forall|key: CombineKey|
                map@.contains_key(key) <==> exists|l: int, i: int|
                    l < level && is_tree_key(views, l, i, key),
        decreases nodes@.len(),
    {
        proof {
            lemma_levels(cap, level as int);
        }
        let ghost plain = node_views(nodes@);
        let ghost before_map = map@;
        if nodes.len() % 2 == 1 {
            nodes.push(empty_root(level));
        }
        let ghost f = filled(plain, level as int);
        assert(node_views(nodes@) =~= f);
        let total: usize = nodes.len();
        let pairs: usize = total / 2;
        let above: Vec<[u8; 32]> = combine_pairs(cs, level, &nodes);
        assert forall|i: int| 0 <= i < pairs implies (#[trigger] above@[i])@ == scalar_result(
            level,
            f[2 * i],
            f[2 * i + 1],
        ) by {
            assert(node_views(nodes@)[2 * i] == nodes@[2 * i]@);
            assert(node_views(nodes@)[2 * i + 1] == nodes@[2 * i + 1]@);
        }
        let mut e: usize = 0;
        while e < pairs
            invariant
                0 <= e <= pairs,
                total == nodes@.len(),
                total == 2 * pairs,
                above@.len() == pairs,
                node_views(nodes@) == f,
                plain == level_nodes(views, level as int),
                f == filled(plain, level as int),
                plain.len() > 1,
                f.len() == 2 * pairs,
                forall|i: int| 0 <= i < nodes@.len() ==> canonical((#[trigger] nodes@[i])@),
                forall|i: int|
                    0 <= i < pairs ==> (#[trigger] above@[i])@ == scalar_result(
                        level,
                        f[2 * i],
                        f[2 * i + 1],
                    ) && canonical(above@[i]@),
                entries_sound(map@),
                forall|key: CombineKey| #[trigger]
                    map@.contains_key(key) <==> before_map.contains_key(key) || among_pairs(
                        level,
                        f,
                        e as int,
                        key,
                    ),
            decreases pairs - e,
        {
            let left: [u8; 32] = nodes[2 * e];
            let right: [u8; 32] = nodes[2 * e + 1];
            let key: (u8, u128, u128, u128, u128) = combine_key(level, &left, &right);
            let ghost had = map@;
            proof {
                assert(node_views(nodes@)[2 * e as int] == nodes@[2 * e as int]@);
                assert(node_views(nodes@)[2 * e + 1] == nodes@[2 * e + 1]@);
                assert(f[2 * e as int] == left@);
                assert(f[2 * e + 1] == right@);
                assert(canonical(nodes@[2 * e as int]@));
                assert(canonical(nodes@[2 * e + 1]@));
            }
            map.insert(key, above[e]);
            proof {
                assert forall|l: u8, a: Seq<u8>, b: Seq<u8>|
                    a.len() == 32 && b.len() == 32 && map@.contains_key(
                        #[trigger] key_of(l, a, b),
                    ) implies canonical(a) && canonical(b) && map@[key_of(l, a, b)]@
                    == scalar_result(l, a, b) by {
                    if key_of(l, a, b) == key {
                        law_keys_are_distinct(l, a, b, level, left@, right@);
                    } else {
                        assert(had.contains_key(key_of(l, a, b)));
                    }
                }
                assert forall|q: CombineKey| #[trigger]
                    map@.contains_key(q) <==> before_map.contains_key(q) || among_pairs(
                        level,
                        f,
                        e + 1,
                        q,
                    ) by {
                    if q == key {
                        let w = e as int;
                        assert(0 <= w < e + 1 && q == pair_key(level, f, w));
                    } else {
                        assert(map@.contains_key(q) == had.contains_key(q));
                        assert(pair_key(level, f, e as int) == key);
                        if had.contains_key(q) && !before_map.contains_key(q) {
                            let i = choose|i: int|
                                0 <= i < e && q == #[trigger] pair_key(level, f, i);
                            assert(0 <= i < e + 1 && q == pair_key(level, f, i));
                        }
                        if among_pairs(level, f, e + 1, q) {
                            let i = choose|i: int|
                                0 <= i < e + 1 && q == #[trigger] pair_key(level, f, i);
                            assert(0 <= i < e && q == pair_key(level, f, i));
                        }
                    }
                }
            }
            e = e + 1;
        }
        proof {
            assert forall|key: CombineKey|
                map@.contains_key(key) <==> exists|l: int, i: int|
                    l < level + 1 && is_tree_key(views, l, i, key) by {
                if map@.contains_key(key) {
                    if before_map.contains_key(key) {
                        let (l, i) = choose|l: int, i: int|
                            l < level && is_tree_key(views, l, i, key);
                        assert(l < level + 1 && is_tree_key(views, l, i, key));
                    } else {
                        let i = choose|i: int|
                            0 <= i < pairs && key == #[trigger] pair_key(level, f, i);
                        assert(is_tree_key(views, level as int, i, key));
                    }
                }
                if exists|l: int, i: int| l < level + 1 && is_tree_key(views, l, i, key) {
                    let (l, i) = choose|l: int, i: int|
                        l < level + 1 && is_tree_key(views, l, i, key);
                    if l < level {
                        assert(before_map.contains_key(key));
                    } else {
                        assert(0 <= i < pairs && key == pair_key(level, f, i));
                    }
                }
            }
            assert(node_views(above@) =~= parents(plain, level as int));
            lemma_level_halves(cap, level as int);
            cap = cap / 2;
        }
        nodes = above;
        level = level + 1;
    }
    proof {
        assert forall|key: CombineKey|
            map@.contains_key(key) <==> exists|l: int, i: int| is_tree_key(views, l, i, key) by {
            if exists|l: int, i: int| is_tree_key(views, l, i, key) {
                let (l, i) = choose|l: int, i: int| is_tree_key(views, l, i, key);
                if l >= level {
                    lemma_small_stays_small(views, level as int, l);
                }
                assert(l < level && is_tree_key(views, l, i, key));
            }
        }
    }
    CombineMap { map }
}

/// A level with more than one node is below the thirty-second.
proof fn lemma_levels(cap: int, level: int)
    requires
        cap >= 1,
        0 <= level <= 32,
        cap * vstd::arithmetic::power2::pow2(level as nat) == 0x1_0000_0000,
    ensures
        cap >= 2 ==> level < 32,
{
    if level == 32 {
        vstd::arithmetic::power2::lemma2_to64();
        assert(cap * 0x1_0000_0000 == 0x1_0000_0000);
    }
}

proof fn lemma_level_halves(cap: int, level: int)
    requires
        cap >= 2,
        0 <= level < 32,
        cap * vstd::arithmetic::power2::pow2(level as nat) == 0x1_0000_0000,
    ensures
        cap % 2 == 0,
        (cap / 2) * vstd::arithmetic::power2::pow2((level + 1) as nat) == 0x1_0000_0000,
{
    vstd::arithmetic::power2::lemma2_to64();
    vstd::arithmetic::power2::lemma_pow2_unfold((level + 1) as nat);
    let p = vstd::arithmetic::power2::pow2(level as nat) as int;
    let q = vstd::arithmetic::power2::pow2((31 - level) as nat) as int;
    vstd::arithmetic::power2::lemma_pow2_adds(level as nat, (31 - level) as nat);
    vstd::arithmetic::power2::lemma_pow2_pos(level as nat);
    assert(p * q == 0x8000_0000);
    assert(cap == 2 * q) by (nonlinear_arith)
        requires
            cap * p == 0x1_0000_0000,
            p * q == 0x8000_0000,
            p > 0,
    ;
    assert((cap / 2) * (2 * p) == cap * p) by (nonlinear_arith)
        requires
            cap == 2 * q,
            cap / 2 == q,
    ;
}

/// Above a level of at most one node there is at most one.
proof fn lemma_small_stays_small(leaves: Seq<Seq<u8>>, level: int, higher: int)
    requires
        0 <= level <= higher,
        level_nodes(leaves, level).len() <= 1,
    ensures
        level_nodes(leaves, higher).len() <= 1,
    decreases higher - level,
{
    if level < higher {
        lemma_small_stays_small(leaves, level, higher - 1);
    }
}

/// The nodes above a level are the combines of its pairs, from the left: half as many, rounded
/// up, and where the last node has no neighbour it is combined with an empty subtree.
pub proof fn law_parents_combine_pairs(nodes: Seq<Seq<u8>>, level: int, i: int)
    requires
        0 <= level < 256,
        0 <= i,
        2 * i < nodes.len(),
    ensures
        parents(nodes, level).len() == (nodes.len() + 1) / 2,
        2 * i + 1 < nodes.len() ==> parents(nodes, level)[i] == scalar_result(
            level as u8,
            nodes[2 * i],
            nodes[2 * i + 1],
        ),
        2 * i + 1 == nodes.len() ==> parents(nodes, level)[i] == scalar_result(
            level as u8,
            nodes[2 * i],
            empty_subtree(level),
        ),
{
}

/// The tree over leaves has them at its lowest level, and above each level its parents.
pub proof fn law_levels_follow_each_other(leaves: Seq<Seq<u8>>, level: int)
    requires
        0 <= level,
    ensures
        level_nodes(leaves, 0) == leaves,
        level_nodes(leaves, level + 1) == parents(level_nodes(leaves, level), level),
{
}

/// An empty leaf is the number two, and an empty subtree the combine of two empty ones of the
/// level below.
pub proof fn law_empty_subtrees(level: int)
    requires
        0 <= level < 255,
    ensures
        empty_subtree(0) == le_bytes(2, 32),
        empty_subtree(level + 1) == scalar_result(
            level as u8,
            empty_subtree(level),
            empty_subtree(level),
        ),
{
}

/// Every combine that the tree over the leaves takes is precomputed: that of each pair of each
/// level with more than one node, the last node's with an empty subtree too.
pub proof fn law_every_combine_is_precomputed(leaves: Seq<Seq<u8>>, level: int, i: int)
    requires
        0 <= level < 256,
        0 <= i,
        2 * i < level_nodes(leaves, level).len(),
        level_nodes(leaves, level).len() > 1,
    ensures
        ({
            let nodes = level_nodes(leaves, level);
            &&& 2 * i + 1 < nodes.len() ==> is_tree_key(
                leaves,
                level,
                i,
                key_of(level as u8, nodes[2 * i], nodes[2 * i + 1]),
            )
            &&& 2 * i + 1 == nodes.len() ==> is_tree_key(
                leaves,
                level,
                i,
                key_of(level as u8, nodes[2 * i], empty_subtree(level)),
            )
        }),
{
}

/// Nothing is precomputed but combines of the tree over the leaves.
pub proof fn law_only_tree_combines_are_precomputed(
    leaves: Seq<Seq<u8>>,
    level: int,
    i: int,
    key: CombineKey,
)
    requires
        is_tree_key(leaves, level, i, key),
    ensures
        ({
            let nodes = level_nodes(leaves, level);
            &&& 0 <= level && nodes.len() > 1 && 0 <= i && 2 * i < nodes.len()
            &&& 2 * i + 1 < nodes.len() ==> key == key_of(
                level as u8,
                nodes[2 * i],
                nodes[2 * i + 1],
            )
            &&& 2 * i + 1 == nodes.len() ==> key == key_of(
                level as u8,
                nodes[2 * i],
                empty_subtree(level),
            )
        }),
{
}

/// The views of nodes are theirs, one for one.
pub proof fn law_node_views(nodes: Seq<[u8; 32]>, i: int)
    requires
        0 <= i < nodes.len(),
    ensures
        node_views(nodes).len() == nodes.len(),
        node_views(nodes)[i] == nodes[i]@,
{
}

} // verus!
