//! The base field of the Pallas curve over 32-byte little-endian encodings, and
//! incomplete addition of curve points.
use ff::{Field, PrimeField};
use group::Curve;
use pasta_curves::arithmetic::{CurveAffine, CurveExt};
use vstd::arithmetic::div_mod::{
    lemma_mul_mod_noop_left, lemma_mul_mod_noop_right, lemma_small_mod,
};
use vstd::arithmetic::mul::lemma_mul_is_associative;
use vstd::prelude::*;

verus! {

/// The order of the field, a prime.
#[verifier::opaque]
pub open spec fn modulus() -> int {
    0x40000000000000000000000000000000224698fc094cf91b992d30ed00000001int
}

/// A field element in its 32-byte little-endian encoding.
pub type FieldBytes = [u8; 32];

/// The number that little-endian bytes encode.
pub open spec fn le_value(b: Seq<u8>) -> int
    decreases b.len(),
{
    if b.len() == 0 {
        0
    } else {
        b[0] as int + 256 * le_value(b.skip(1))
    }
}

/// The `n` little-endian bytes of a number.
pub open spec fn le_bytes(x: int, n: nat) -> Seq<u8>
    decreases n,
{
    if n == 0 {
        Seq::empty()
    } else {
        seq![(x % 256) as u8] + le_bytes(x / 256, (n - 1) as nat)
    }
}

/// Whether bytes encode a field element in the one canonical way.
pub open spec fn canonical(b: Seq<u8>) -> bool {
    b.len() == 32 && le_value(b) < modulus()
}

/// Bytes are the encoding of the number that they encode.
pub proof fn lemma_le_bytes(b: Seq<u8>)
    ensures
        le_value(b) >= 0,
        le_bytes(le_value(b), b.len()) == b,
    decreases b.len(),
{
    if b.len() == 0 {
        assert(le_bytes(le_value(b), 0) =~= b);
    } else {
        lemma_le_bytes(b.skip(1));
        let x = le_value(b);
        assert(x % 256 == b[0] as int);
        assert(x / 256 == le_value(b.skip(1)));
        assert(le_bytes(x, b.len()) =~= b);
    }
}

/// The order is greater than one.
pub proof fn lemma_modulus()
    ensures
        modulus() > 1,
{
    reveal(modulus);
}

/// Whether `y` is the inverse of `x`.
pub open spec fn is_inverse(x: int, y: int) -> bool {
    0 <= y < modulus() && (x * y) % modulus() == 1
}

/// The inverse of a number that has one.
pub open spec fn inverse(x: int) -> int {
    choose|y: int| is_inverse(x, y)
}

/// A number has at most one inverse.
pub proof fn lemma_inverse_unique(x: int, y: int)
    requires
        is_inverse(x, y),
    ensures
        inverse(x) == y,
{
    let z = inverse(x);
    let m = modulus();
    lemma_modulus();
    assert(is_inverse(x, z));
    // y == y (x z) == (y x) z == z
    lemma_mul_mod_noop_right(y, x * z, m);
    assert((y * ((x * z) % m)) % m == (y * (x * z)) % m);
    assert(y * 1 == y);
    lemma_small_mod(y as nat, m as nat);
    assert((y * (x * z)) % m == y);
    lemma_mul_mod_noop_left(x * y, z, m);
    assert((((x * y) % m) * z) % m == ((x * y) * z) % m);
    assert(1 * z == z);
    lemma_small_mod(z as nat, m as nat);
    assert(((x * y) * z) % m == z);
    assert(y * (x * z) == (x * y) * z) by (nonlinear_arith);
}

/// Multiplication of `pasta_curves::pallas::Base`: the product modulo the prime
/// order of the field, so that no product of two elements other than zero is zero.
#[verifier::external_body]
pub(crate) fn field_mul(a: &FieldBytes, b: &FieldBytes) -> (r: FieldBytes)
    requires
        canonical(a@),
        canonical(b@),
    ensures
        canonical(r@),
        le_value(r@) == (le_value(a@) * le_value(b@)) % modulus(),
        le_value(a@) != 0 && le_value(b@) != 0 ==> le_value(r@) != 0,
{
    let x = pasta_curves::pallas::Base::from_repr(*a).unwrap();
    let y = pasta_curves::pallas::Base::from_repr(*b).unwrap();
    (x * y).to_repr()
}

/// Subtraction of `pasta_curves::pallas::Base`, modulo the order of the field.
#[verifier::external_body]
pub(crate) fn field_sub(a: &FieldBytes, b: &FieldBytes) -> (r: FieldBytes)
    requires
        canonical(a@),
        canonical(b@),
    ensures
        canonical(r@),
        le_value(r@) == (le_value(a@) - le_value(b@)) % modulus(),
{
    let x = pasta_curves::pallas::Base::from_repr(*a).unwrap();
    let y = pasta_curves::pallas::Base::from_repr(*b).unwrap();
    (x - y).to_repr()
}

/// `Field::square` of `pasta_curves::pallas::Base`.
#[verifier::external_body]
pub(crate) fn field_square(a: &FieldBytes) -> (r: FieldBytes)
    requires
        canonical(a@),
    ensures
        canonical(r@),
        le_value(r@) == (le_value(a@) * le_value(a@)) % modulus(),
{
    pasta_curves::pallas::Base::from_repr(*a).unwrap().square().to_repr()
}

/// `Field::invert` of `pasta_curves::pallas::Base`: the inverse of an element
/// other than zero.
#[verifier::external_body]
pub(crate) fn field_invert(a: &FieldBytes) -> (r: FieldBytes)
    requires
        canonical(a@),
        le_value(a@) != 0,
    ensures
        canonical(r@),
        is_inverse(le_value(a@), le_value(r@)),
{
    pasta_curves::pallas::Base::from_repr(*a).unwrap().invert().unwrap().to_repr()
}

/// The affine coordinates of the point of the Pallas curve that a message hashes
/// to under a personalization; nothing for the point at infinity.
pub uninterp spec fn hashed_point(personalization: Seq<char>, message: Seq<u8>) -> Option<
    (Seq<u8>, Seq<u8>),
>;

/// `CurveExt::hash_to_curve` of `pasta_curves::pallas::Point`, brought to affine
/// coordinates. Which point comes out is left to [`hashed_point`]. The function
/// refuses personalizations of 228 bytes or more.
#[verifier::external_body]
pub(crate) fn hash_to_curve(personalization: &str, message: &[u8]) -> (r: Option<
    (FieldBytes, FieldBytes),
>)
    requires
        personalization@.len() <= 50,
    ensures
        match r {
            Some(p) => hashed_point(personalization@, message@) == Some((p.0@, p.1@)) && canonical(
                p.0@,
            ) && canonical(p.1@),
            None => hashed_point(personalization@, message@) is None,
        },
{
    let point = pasta_curves::pallas::Point::hash_to_curve(personalization)(message).to_affine();
    let xy = Option::<pasta_curves::arithmetic::Coordinates<pasta_curves::pallas::Affine>>::from(
        point.coordinates(),
    );
    xy.map(|c| (c.x().to_repr(), c.y().to_repr()))
}

/// Whether bytes are all zero.
pub fn is_zero(a: &FieldBytes) -> (b: bool)
    ensures
        b == (le_value(a@) == 0),
{
    let mut i: usize = 32;
    assert(a@.skip(32) =~= Seq::empty());
    while i > 0
        invariant
            0 <= i <= 32,
            le_value(a@.skip(i as int)) == 0,
        decreases i,
    {
        assert(a@.skip(i - 1).skip(1) =~= a@.skip(i as int));
        if a[i - 1] != 0 {
            proof {
                lemma_value_of_suffix(a@, i - 1);
            }
            return false;
        }
        i = i - 1;
    }
    assert(a@.skip(0) =~= a@);
    true
}

proof fn lemma_value_of_suffix(b: Seq<u8>, i: int)
    requires
        0 <= i <= b.len(),
        le_value(b.skip(i)) != 0,
    ensures
        le_value(b) != 0,
    decreases i,
{
    if i == 0 {
        assert(b.skip(0) =~= b);
    } else {
        assert(b.skip(i - 1).skip(1) =~= b.skip(i));
        lemma_le_bytes(b.skip(i));
        lemma_value_of_suffix(b, i - 1);
    }
}

/// The number one.
pub fn field_one() -> (r: FieldBytes)
    ensures
        canonical(r@),
        le_value(r@) == 1,
{
    let mut r: FieldBytes = [0u8; 32];
    r[0] = 1;
    proof {
        lemma_modulus();
        lemma_zeros(r@.skip(1));
        assert(le_value(r@) == 1 + 256 * le_value(r@.skip(1)));
    }
    r
}

proof fn lemma_zeros(b: Seq<u8>)
    requires
        forall|i: int| 0 <= i < b.len() ==> b[i] == 0,
    ensures
        le_value(b) == 0,
    decreases b.len(),
{
    if b.len() > 0 {
        lemma_zeros(b.skip(1));
    }
}

/// The product of the first `n` numbers, in the field.
pub open spec fn product(xs: Seq<int>, n: int) -> int
    decreases n,
{
    if n <= 0 {
        1
    } else {
        (product(xs, n - 1) * xs[n - 1]) % modulus()
    }
}

/// The numbers of encodings.
pub open spec fn values(xs: Seq<FieldBytes>) -> Seq<int> {
    xs.map_values(|x: FieldBytes| le_value(x@))
}

/// `(a * b) * c == a * (b * c)` in the field, with all products reduced.
proof fn lemma_field_assoc(a: int, b: int, c: int)
    ensures
        (((a * b) % modulus()) * c) % modulus() == (a * ((b * c) % modulus())) % modulus(),
{
    let m = modulus();
    lemma_modulus();
    lemma_mul_mod_noop_left(a * b, c, m);
    lemma_mul_mod_noop_right(a, b * c, m);
    lemma_mul_is_associative(a, b, c);
}

/// Inverts all elements in place, with one inversion for all of them.
pub fn batch_invert(xs: &mut Vec<FieldBytes>)
    requires
        forall|i: int|
            0 <= i < old(xs)@.len() ==> canonical((#[trigger] old(xs)@[i])@) && le_value(
                old(xs)@[i]@,
            ) != 0,
    ensures
        final(xs)@.len() == old(xs)@.len(),
        forall|i: int|
            0 <= i < old(xs)@.len() ==> canonical((#[trigger] final(xs)@[i])@) && is_inverse(
                le_value(old(xs)@[i]@),
                le_value(final(xs)@[i]@),
            ),
{
    let n: usize = xs.len();
    if n == 0 {
        return;
    }
    let ghost all = xs@;
    let ghost vals = values(xs@);
    let mut prefix: Vec<FieldBytes> = Vec::new();
    let mut acc: FieldBytes = field_one();
    let mut k: usize = 0;
    while k < n
        invariant
            0 <= k <= n,
            n == all.len(),
            xs@ == all,
            vals == values(all),
            forall|i: int|
                0 <= i < n ==> canonical((#[trigger] all[i])@) && le_value(all[i]@) != 0,
            prefix@.len() == k,
            forall|i: int|
                0 <= i < k ==> canonical((#[trigger] prefix@[i])@) && le_value(prefix@[i]@)
                    == product(vals, i),
            canonical(acc@),
            le_value(acc@) == product(vals, k as int),
            le_value(acc@) != 0,
        decreases n - k,
    {
        prefix.push(acc);
        let x: FieldBytes = xs[k];
        assert(canonical(all[k as int]@) && le_value(all[k as int]@) != 0);
        assert(vals[k as int] == le_value(x@));
        acc = field_mul(&acc, &x);
        k = k + 1;
    }
    let mut inv_all: FieldBytes = field_invert(&acc);
    let mut i: usize = n;
    proof {
        let p = product(vals, n as int);
        assert(p * le_value(inv_all@) == le_value(inv_all@) * p) by (nonlinear_arith);
    }
    while i > 0
        invariant
            0 <= i <= n,
            n == all.len(),
            xs@.len() == n,
            vals == values(all),
            forall|j: int|
                0 <= j < n ==> canonical((#[trigger] all[j])@) && le_value(all[j]@) != 0,
            forall|j: int| 0 <= j < i ==> #[trigger] xs@[j] == all[j],
            forall|j: int|
                i <= j < n ==> canonical((#[trigger] xs@[j])@) && is_inverse(
                    le_value(all[j]@),
                    le_value(xs@[j]@),
                ),
            prefix@.len() == n,
            forall|j: int|
                0 <= j < n ==> canonical((#[trigger] prefix@[j])@) && le_value(prefix@[j]@)
                    == product(vals, j),
            canonical(inv_all@),
            (le_value(inv_all@) * product(vals, i as int)) % modulus() == 1,
        decreases i,
    {
        i = i - 1;
        let x: FieldBytes = xs[i];
        let p: FieldBytes = prefix[i];
        assert(canonical(all[i as int]@));
        assert(canonical(prefix@[i as int]@));
        let inv_i: FieldBytes = field_mul(&inv_all, &p);
        let next: FieldBytes = field_mul(&inv_all, &x);
        proof {
            let v = le_value(inv_all@);
            let xv = le_value(x@);
            let pv = product(vals, i as int);
            let m = modulus();
            lemma_modulus();
            assert(vals[i as int] == xv);
            assert(product(vals, i + 1) == (pv * xv) % m);
            // v * (pv * xv) == 1
            lemma_field_assoc(v, pv, xv);
            assert((((v * pv) % m) * xv) % m == 1);
            assert(xv * le_value(inv_i@) == ((v * pv) % m) * xv) by (nonlinear_arith)
                requires
                    le_value(inv_i@) == (v * pv) % m,
            ;
            lemma_le_bytes(inv_i@);
            assert(is_inverse(xv, le_value(inv_i@)));
            lemma_field_assoc(v, xv, pv);
            assert(xv * pv == pv * xv) by (nonlinear_arith);
            assert((le_value(next@) * pv) % m == 1);
        }
        inv_all = next;
        xs.set(i, inv_i);
    }
}

/// A point of the curve by its coordinates.
pub struct PointModel {
    pub x: int,
    pub y: int,
}

/// Incomplete addition: the chord through two points with different `x`; nothing
/// where they have the same.
pub open spec fn add_points(p: PointModel, q: PointModel) -> Option<PointModel> {
    let m = modulus();
    let d = (q.x - p.x) % m;
    if d == 0 {
        None
    } else {
        let slope = (((q.y - p.y) % m) * inverse(d)) % m;
        let x3 = (((slope * slope) % m - p.x) % m - q.x) % m;
        Some(PointModel { x: x3, y: ((slope * ((p.x - x3) % m)) % m - p.y) % m })
    }
}

/// The order of the field is the prime of the Pallas base field, and an encoding is canonical
/// where it is 32 bytes of a number below it.
pub proof fn law_field_order(b: Seq<u8>)
    ensures
        modulus() == 0x40000000000000000000000000000000224698fc094cf91b992d30ed00000001int,
        canonical(b) <==> b.len() == 32 && le_value(b) < modulus(),
{
    reveal(modulus);
}

/// The first byte of an encoding counts once, and each further one 256 times as much as the
/// one before; different encodings of one length are different numbers.
pub proof fn law_bytes_are_little_endian(first: u8, rest: Seq<u8>, a: Seq<u8>, b: Seq<u8>)
    ensures
        le_value(Seq::empty()) == 0,
        le_value(seq![first] + rest) == first + 256 * le_value(rest),
        a.len() == b.len() && le_value(a) == le_value(b) ==> a == b,
{
    let s = seq![first] + rest;
    assert(s[0] == first);
    assert(s.skip(1) =~= rest);
    lemma_le_bytes(a);
    lemma_le_bytes(b);
}

/// The bytes of a number are its remainders by 256, the last first: they encode it where they
/// are enough.
pub proof fn law_bytes_of_a_number(x: int, n: nat)
    requires
        x >= 0,
    ensures
        le_bytes(x, n).len() == n,
        n > 0 ==> le_bytes(x, n)[0] == x % 256 && le_bytes(x, n).skip(1) == le_bytes(
            x / 256,
            (n - 1) as nat,
        ),
    decreases n,
{
    if n > 0 {
        law_bytes_of_a_number(x / 256, (n - 1) as nat);
        assert(le_bytes(x, n).skip(1) =~= le_bytes(x / 256, (n - 1) as nat));
    }
}

/// A number and its inverse multiply to one, and there is one such number below the order.
pub proof fn law_inverses_multiply_to_one(x: int, y: int)
    ensures
        is_inverse(x, y) <==> 0 <= y < modulus() && (x * y) % modulus() == 1,
        is_inverse(x, y) ==> inverse(x) == y,
{
    if is_inverse(x, y) {
        lemma_inverse_unique(x, y);
    }
}

/// Two points with different `x` have a sum: the third point of the line through them,
/// mirrored. Two with the same `x` have none.
pub proof fn law_sum_is_on_the_chord(p: PointModel, q: PointModel, inv: int)
    ensures
        add_points(p, q) is None <==> (q.x - p.x) % modulus() == 0,
        is_inverse((q.x - p.x) % modulus(), inv) && (q.x - p.x) % modulus() != 0 ==> {
            let m = modulus();
            let slope = (((q.y - p.y) % m) * inv) % m;
            let s = add_points(p, q)->Some_0;
            &&& s.x == (((slope * slope) % m - p.x) % m - q.x) % m
            &&& s.y == ((slope * ((p.x - s.x) % m)) % m - p.y) % m
        },
{
    if is_inverse((q.x - p.x) % modulus(), inv) {
        lemma_inverse_unique((q.x - p.x) % modulus(), inv);
    }
}

} // verus!
