//! Batched combines of the Orchard tree.
use ff::{Field, PrimeField};
use incrementalmerkletree::{Hashable, Level};
use orchard::tree::MerkleHashOrchard;
use pasta_curves::pallas;
use rand::{rngs::StdRng, RngCore, SeedableRng};
use zodl_slipstream::batch_sinsemilla::{
    chunk_indices, orchard_combine_batch_cpu, scalar_combine, walk_batch, Consts,
};
use zodl_slipstream::lookup_build::{combine_key, precompute_shard_map, CombineMap};
use zodl_slipstream::pallas::{batch_invert, field_one, is_zero};

fn pool(n: usize) -> Vec<MerkleHashOrchard> {
    let mut out = Vec::with_capacity(n);
    let mut a = MerkleHashOrchard::empty_leaf();
    let mut b = MerkleHashOrchard::empty_root(Level::from(0));
    for _ in 0..n {
        let c = MerkleHashOrchard::combine(Level::from(0), &a, &b);
        out.push(c);
        a = b;
        b = c;
    }
    out
}

#[test]
fn batch_invert_matches_per_element() {
    let mut rng = StdRng::seed_from_u64(0xB471);
    let xs: Vec<pallas::Base> = (0..1000)
        .map(|_| pallas::Base::from(rng.next_u64() | 1))
        .collect();
    let mut batched: Vec<[u8; 32]> = xs.iter().map(|x| x.to_repr()).collect();
    batch_invert(&mut batched);
    for (x, inv) in xs.iter().zip(batched) {
        assert_eq!(
            inv,
            x.invert().expect("nonzero").to_repr(),
            "batch inversion diverged"
        );
    }
}

#[test]
fn field_elements_are_encoded() {
    assert_eq!(field_one(), pallas::Base::ONE.to_repr());
    assert!(is_zero(&pallas::Base::ZERO.to_repr()));
    assert!(!is_zero(&field_one()));
    let mut none: Vec<[u8; 32]> = vec![];
    batch_invert(&mut none);
    assert!(none.is_empty());
}

/// Byte-identical to the crate's combine over random valid nodes and every level
/// 0..32.
#[test]
fn combine_batch_cpu_matches_orchard() {
    kat(800, 0xB472);
}

fn kat(n: usize, seed: u64) {
    let mut rng = StdRng::seed_from_u64(seed);
    let nodes = pool(2 * n);
    let layers: Vec<u8> = (0..n).map(|_| (rng.next_u32() % 32) as u8).collect();
    let lefts: Vec<[u8; 32]> = (0..n).map(|i| nodes[i].to_bytes()).collect();
    let rights: Vec<[u8; 32]> = (0..n).map(|i| nodes[n + i].to_bytes()).collect();
    let got = orchard_combine_batch_cpu(&Consts::new(), &layers, &lefts, &rights);
    for i in 0..n {
        let exp = MerkleHashOrchard::combine(Level::from(layers[i]), &nodes[i], &nodes[n + i])
            .to_bytes();
        assert_eq!(got[i], exp, "combine mismatch at {i} (layer {})", layers[i]);
    }
}

#[test]
fn nodes_that_are_no_field_elements_combine_to_zeros() {
    assert_eq!(scalar_combine(3, &[0xff; 32], &[0; 32]), [0; 32]);
    assert_eq!(scalar_combine(3, &[0; 32], &[0xff; 32]), [0; 32]);
    assert_ne!(scalar_combine(3, &[0; 32], &[0; 32]), [0; 32]);
}

#[test]
fn messages_are_cut_into_ten_bits() {
    let mut left = [0u8; 32];
    left[0] = 0b0000_0011;
    let m = chunk_indices(0b10_0000_0001u16 as u8, &left, &[0; 32]);
    assert_eq!(m.len(), 52);
    assert_eq!(m[0], 1);
    assert_eq!(m[1], 3);
    assert!(m[2..].iter().all(|c| *c == 0));
    let ones = chunk_indices(31, &[0xff; 32], &[0xff; 32]);
    assert_eq!(ones[0], 31);
    assert!(ones[1..].iter().all(|c| *c == 1023));
    let walked = walk_batch(&Consts::new(), &vec![m]);
    assert_eq!(walked[0], Some(scalar_combine(1, &left, &[0; 32])));
}

fn covered(map: &CombineMap, leaves: &[MerkleHashOrchard]) -> MerkleHashOrchard {
    let mut level: Vec<MerkleHashOrchard> = leaves.to_vec();
    let mut lvl = 0u8;
    while level.len() > 1 {
        if level.len() % 2 == 1 {
            level.push(MerkleHashOrchard::empty_root(Level::from(lvl)));
        }
        level = level
            .chunks(2)
            .map(|p| {
                let bytes = map.combine(lvl, &p[0].to_bytes(), &p[1].to_bytes());
                let exp = MerkleHashOrchard::combine(Level::from(lvl), &p[0], &p[1]);
                assert_eq!(bytes, exp.to_bytes());
                exp
            })
            .collect();
        lvl += 1;
    }
    level[0]
}

/// Built through the map or by the crate's own combine, the tree is the same.
#[test]
fn looked_up_combines_match_scalar() {
    let cs = Consts::new();
    for n in [1usize, 7, 64, 1000] {
        let leaves = pool(n);
        let map = precompute_shard_map(&cs, &leaves.iter().map(|l| l.to_bytes()).collect());
        covered(&map, &leaves);
    }
    let empty = precompute_shard_map(&cs, &vec![]);
    let (a, b) = ([1u8; 32], [2u8; 32]);
    assert_eq!(
        empty.combine(5, &a, &b),
        scalar_combine(5, &a, &b),
        "what the map misses is computed"
    );
}

#[test]
fn keys_tell_levels_and_nodes_apart() {
    let (a, b) = ([1u8; 32], [2u8; 32]);
    assert_eq!(combine_key(0, &a, &b), combine_key(0, &a, &b));
    assert_ne!(combine_key(0, &a, &b), combine_key(1, &a, &b));
    assert_ne!(combine_key(0, &a, &b), combine_key(0, &b, &a));
    let mut one = [0u8; 32];
    one[16] = 1;
    assert_eq!(combine_key(9, &one, &[0; 32]), (9, 0, 1, 0, 0));
}
