//! Batched Orchard `MerkleCRH`: many combines walk their Sinsemilla chains in
//! lockstep, and each half-step shares one field inversion among all of them. A
//! chain that meets a degenerate addition falls back to the scalar combine.
use crate::pallas::{
    add_points, batch_invert, canonical, field_mul, field_one, field_square, field_sub,
    hash_to_curve, hashed_point, is_inverse, is_zero, le_bytes, le_value, lemma_inverse_unique,
    lemma_le_bytes, modulus, FieldBytes, PointModel,
};
use incrementalmerkletree::Hashable;
use vstd::arithmetic::power2::{lemma2_to64, pow2};
use vstd::prelude::*;

verus! {

/// The personalization of the Orchard Merkle hash.
pub const MERKLE_CRH_PERSONALIZATION: &'static str = "z.cash:Orchard-MerkleCRH";

/// Ten-bit chunks of a message of 10 + 255 + 255 bits.
pub const CHUNKS: usize = 52;

/// How many chains walk together.
pub const BATCH: usize = 2048;

/// The constant `Q_PERSONALIZATION` of the `sinsemilla` crate.
#[verifier::external_body]
fn q_personalization() -> (r: &'static str)
    ensures
        r@ == "z.cash:SinsemillaQ"@,
{
    sinsemilla::Q_PERSONALIZATION
}

/// The constant `S_PERSONALIZATION` of the `sinsemilla` crate.
#[verifier::external_body]
fn s_personalization() -> (r: &'static str)
    ensures
        r@ == "z.cash:SinsemillaS"@,
{
    sinsemilla::S_PERSONALIZATION
}

/// A hashed point by the numbers of its coordinates.
pub open spec fn generator(personalization: Seq<char>, message: Seq<u8>) -> Option<PointModel> {
    match hashed_point(personalization, message) {
        Some(p) => Some(PointModel { x: le_value(p.0), y: le_value(p.1) }),
        None => None,
    }
}

/// The bytes of ASCII characters.
pub open spec fn ascii_bytes(s: Seq<char>) -> Seq<u8> {
    s.map_values(|c: char| c as u8)
}

/// The point that a chain of the Orchard Merkle hash starts from.
pub open spec fn merkle_q() -> Option<PointModel> {
    generator("z.cash:SinsemillaQ"@, ascii_bytes(MERKLE_CRH_PERSONALIZATION@))
}

/// The point of a ten-bit chunk.
pub open spec fn sinsemilla_s(m: int) -> Option<PointModel> {
    generator("z.cash:SinsemillaS"@, le_bytes(m, 4))
}

/// One step of a chain: `(acc + s) + acc`.
pub open spec fn chain_step(acc: PointModel, s: PointModel) -> Option<PointModel> {
    match add_points(acc, s) {
        Some(t) => add_points(t, acc),
        None => None,
    }
}

/// Where the chain of a message stands after its first `n` chunks; nothing where an
/// addition was degenerate.
pub open spec fn chain(msg: Seq<u16>, n: int) -> Option<PointModel>
    decreases n,
{
    if n <= 0 {
        merkle_q()
    } else {
        match (chain(msg, n - 1), sinsemilla_s(msg[n - 1] as int)) {
            (Some(acc), Some(s)) => chain_step(acc, s),
            _ => None,
        }
    }
}

/// A bit of little-endian bytes.
pub open spec fn bit_of(b: Seq<u8>, i: int) -> bool {
    (b[i / 8] >> ((i % 8) as u8)) & 1u8 == 1u8
}

/// A bit of the message of a combine: ten of the level, 255 of the left node, 255
/// of the right node, each little-endian.
pub open spec fn message_bit(layer: u8, left: Seq<u8>, right: Seq<u8>, i: int) -> bool {
    if i < 8 {
        bit_of(seq![layer], i)
    } else if i < 10 {
        false
    } else if i < 265 {
        bit_of(left, i - 10)
    } else {
        bit_of(right, i - 265)
    }
}

/// The number of the first `k` bits of a chunk.
pub open spec fn chunk_prefix(layer: u8, left: Seq<u8>, right: Seq<u8>, c: int, k: nat) -> nat
    decreases k,
{
    if k == 0 {
        0
    } else {
        chunk_prefix(layer, left, right, c, (k - 1) as nat) + if message_bit(
            layer,
            left,
            right,
            10 * c + (k - 1),
        ) {
            pow2((k - 1) as nat)
        } else {
            0
        }
    }
}

/// The chunks of the message of a combine.
pub open spec fn message(layer: u8, left: Seq<u8>, right: Seq<u8>) -> Seq<u16> {
    Seq::new(52, |c: int| chunk_prefix(layer, left, right, c, 10) as u16)
}

fn get_bit(b: &[u8; 32], i: usize) -> (r: bool)
    requires
        i < 256,
    ensures
        r == bit_of(b@, i as int),
{
    let shift: u8 = (i % 8) as u8;
    (b[i / 8] >> shift) & 1u8 == 1u8
}

fn get_message_bit(layer: u8, left: &[u8; 32], right: &[u8; 32], i: usize) -> (r: bool)
    requires
        i < 520,
    ensures
        r == message_bit(layer, left@, right@, i as int),
{
    if i < 8 {
        let shift: u8 = i as u8;
        assert(seq![layer][0] == layer);
        (layer >> shift) & 1u8 == 1u8
    } else if i < 10 {
        false
    } else if i < 265 {
        get_bit(left, i - 10)
    } else {
        get_bit(right, i - 265)
    }
}

/// The ten-bit chunks of the message of a combine.
pub fn chunk_indices(layer: u8, left: &[u8; 32], right: &[u8; 32]) -> (r: Vec<u16>)
    ensures
        r@ == message(layer, left@, right@),
        forall|c: int| 0 <= c < 52 ==> (#[trigger] r@[c]) < 1024,
{
    let mut out: Vec<u16> = Vec::new();
    let mut c: usize = 0;
    proof {
        lemma2_to64();
    }
    while c < CHUNKS
        invariant
            0 <= c <= 52,
            out@.len() == c,
            forall|j: int|
                0 <= j < c ==> (#[trigger] out@[j]) == chunk_prefix(layer, left@, right@, j, 10)
                    && out@[j] < 1024,
        decreases 52 - c,
    {
        let mut v: u16 = 0;
        let mut weight: u16 = 1;
        let mut k: usize = 0;
        proof {
            lemma2_to64();
        }
        while k < 10
            invariant
                0 <= k <= 10,
                0 <= c < 52,
                weight == pow2(k as nat),
                v == chunk_prefix(layer, left@, right@, c as int, k as nat),
                v < pow2(k as nat),
            decreases 10 - k,
        {
            proof {
                lemma2_to64();
                vstd::arithmetic::power2::lemma_pow2_unfold((k + 1) as nat);
                assert(k == 0 || k == 1 || k == 2 || k == 3 || k == 4 || k == 5 || k == 6 || k == 7
                    || k == 8 || k == 9);
            }
            if get_message_bit(layer, left, right, c * 10 + k) {
                v = v + weight;
            }
            weight = weight * 2;
            k = k + 1;
        }
        proof {
            lemma2_to64();
        }
        out.push(v);
        c = c + 1;
    }
    assert(out@ =~= message(layer, left@, right@));
    out
}

/// The coordinates of a point.
#[derive(Clone, Copy, Debug)]
pub struct Coordinates {
    pub x: FieldBytes,
    pub y: FieldBytes,
}

impl Coordinates {
    /// Both coordinates are field elements.
    pub open spec fn valid(self) -> bool {
        canonical(self.x@) && canonical(self.y@)
    }

    /// The point.
    pub open spec fn point(self) -> PointModel {
        PointModel { x: le_value(self.x@), y: le_value(self.y@) }
    }
}

/// A point that may be missing, by its coordinates.
pub open spec fn is_point(c: Option<Coordinates>, p: Option<PointModel>) -> bool {
    match c {
        Some(c) => c.valid() && p == Some(c.point()),
        None => p is None,
    }
}

/// The points that the chains are made of.
pub struct Consts {
    q: Option<Coordinates>,
    s: Vec<Option<Coordinates>>,
}

/// The point that coordinates stand for, where there are any.
pub open spec fn point_of(c: Option<Coordinates>) -> Option<PointModel> {
    match c {
        Some(c) => Some(c.point()),
        None => None,
    }
}

impl Consts {
    /// The point that every chain starts from.
    pub closed spec fn start(&self) -> Option<PointModel> {
        point_of(self.q)
    }

    /// The points that are added, one for each value of ten bits.
    pub closed spec fn steps(&self) -> Seq<Option<PointModel>> {
        Seq::new(self.s@.len(), |m: int| point_of(self.s@[m]))
    }

    #[verifier::type_invariant]
    spec fn generators(&self) -> bool {
        &&& is_point(self.q, merkle_q())
        &&& self.s@.len() == 1024
        &&& forall|m: int| 0 <= m < 1024 ==> is_point(#[trigger] self.s@[m], sinsemilla_s(m))
    }

    /// Derives the points. This takes about a thousand hashes; keep the result.
    pub fn new() -> (r: Self)
        ensures
            r.start() == merkle_q(),
            r.steps() == Seq::new(1024, |m: int| sinsemilla_s(m)),
    {
        proof {
            reveal_strlit("z.cash:SinsemillaQ");
            reveal_strlit("z.cash:SinsemillaS");
            reveal_strlit("z.cash:Orchard-MerkleCRH");
        }
        let domain: &[u8] = MERKLE_CRH_PERSONALIZATION.as_bytes();
        proof {
            assert(MERKLE_CRH_PERSONALIZATION.is_ascii());
            vstd::string::is_ascii_spec_bytes(MERKLE_CRH_PERSONALIZATION);
            assert(domain@ =~= ascii_bytes(MERKLE_CRH_PERSONALIZATION@));
        }
        let q: Option<Coordinates> = match hash_to_curve(q_personalization(), domain) {
            Some((x, y)) => Some(Coordinates { x, y }),
            None => None,
        };
        let mut s: Vec<Option<Coordinates>> = Vec::new();
        let mut m: u16 = 0;
        while m < 1024
            invariant
                0 <= m <= 1024,
                s@.len() == m,
                forall|j: int| 0 <= j < m ==> is_point(#[trigger] s@[j], sinsemilla_s(j)),
            decreases 1024 - m,
        {
            proof {
                reveal_strlit("z.cash:SinsemillaS");
            }
            let msg: [u8; 4] = [(m % 256) as u8, (m / 256) as u8, 0, 0];
            proof {
                let x = m as int;
                reveal_with_fuel(le_bytes, 5);
                assert(msg@ =~= le_bytes(x, 4));
            }
            let p: Option<Coordinates> = match hash_to_curve(s_personalization(), msg.as_slice()) {
                Some((x, y)) => Some(Coordinates { x, y }),
                None => None,
            };
            s.push(p);
            m = m + 1;
        }
        let r = Consts { q, s };
        assert(r.steps() =~= Seq::new(1024, |m: int| sinsemilla_s(m))) by {
            assert forall|m: int| 0 <= m < 1024 implies point_of(#[trigger] r.s@[m])
                == sinsemilla_s(m) by {
                assert(is_point(r.s@[m], sinsemilla_s(m)));
            }
        }
        r
    }
}

/// One chain on its way.
#[derive(Clone, Copy)]
struct Lane {
    at: Coordinates,
    dead: bool,
}

/// Where a lane stands.
spec fn lane_point(l: Lane) -> Option<PointModel> {
    if l.dead {
        None
    } else {
        Some(l.at.point())
    }
}

/// Where a lane stands after an addition.
spec fn lane_added(l: Lane, other: Coordinates) -> Option<PointModel> {
    if l.dead {
        None
    } else {
        add_points(l.at.point(), other.point())
    }
}

/// Adds to each chain that is alive the point beside it. A chain whose addition is
/// degenerate dies.
fn half_step(lanes: &mut Vec<Lane>, others: &Vec<Coordinates>)
    requires
        old(lanes)@.len() == others@.len(),
        forall|i: int| 0 <= i < old(lanes)@.len() ==> (#[trigger] old(lanes)@[i]).at.valid(),
        forall|i: int| 0 <= i < others@.len() ==> (#[trigger] others@[i]).valid(),
    ensures
        final(lanes)@.len() == old(lanes)@.len(),
        forall|i: int|
            0 <= i < old(lanes)@.len() ==> (#[trigger] final(lanes)@[i]).at.valid() && lane_point(
                final(lanes)@[i],
            ) == lane_added(old(lanes)@[i], others@[i]),
{
    let n: usize = lanes.len();
    let ghost before = lanes@;
    let mut denom: Vec<FieldBytes> = Vec::new();
    let mut i: usize = 0;
    while i < n
        invariant
            0 <= i <= n,
            n == before.len(),
            n == others@.len(),
            lanes@.len() == n,
            denom@.len() == i,
            forall|j: int| 0 <= j < n ==> (#[trigger] before[j]).at.valid(),
            forall|j: int| 0 <= j < n ==> (#[trigger] others@[j]).valid(),
            forall|j: int| i <= j < n ==> #[trigger] lanes@[j] == before[j],
            forall|j: int|
                0 <= j < i ==> (#[trigger] lanes@[j]).at == before[j].at && (lanes@[j].dead <==> (
                before[j].dead || (le_value(others@[j].x@) - le_value(before[j].at.x@)) % modulus()
                    == 0)),
            forall|j: int|
                0 <= j < i ==> canonical((#[trigger] denom@[j])@) && le_value(denom@[j]@) != 0 && (
                !lanes@[j].dead ==> le_value(denom@[j]@) == (le_value(others@[j].x@) - le_value(
                    before[j].at.x@,
                )) % modulus()),
        decreases n - i,
    {
        let lane: Lane = lanes[i];
        let other: Coordinates = others[i];
        assert(before[i as int].at.valid());
        assert(others@[i as int].valid());
        let mut d: FieldBytes = field_one();
        if !lane.dead {
            let diff: FieldBytes = field_sub(&other.x, &lane.at.x);
            if is_zero(&diff) {
                lanes.set(i, Lane { at: lane.at, dead: true });
            } else {
                d = diff;
            }
        }
        denom.push(d);
        i = i + 1;
    }
    let ghost ds = denom@;
    let ghost mid = lanes@;
    batch_invert(&mut denom);
    let mut k: usize = 0;
    while k < n
        invariant
            0 <= k <= n,
            n == before.len(),
            n == others@.len(),
            n == mid.len(),
            n == ds.len(),
            lanes@.len() == n,
            denom@.len() == n,
            forall|j: int| 0 <= j < n ==> (#[trigger] before[j]).at.valid(),
            forall|j: int| 0 <= j < n ==> (#[trigger] others@[j]).valid(),
            forall|j: int| k <= j < n ==> #[trigger] lanes@[j] == mid[j],
            forall|j: int|
                0 <= j < n ==> (#[trigger] mid[j]).at == before[j].at && (mid[j].dead <==> (
                before[j].dead || (le_value(others@[j].x@) - le_value(before[j].at.x@)) % modulus()
                    == 0)),
            forall|j: int|
                0 <= j < n ==> (!mid[j].dead ==> le_value((#[trigger] ds[j])@) == (le_value(
                    others@[j].x@,
                ) - le_value(before[j].at.x@)) % modulus()),
            forall|j: int|
                0 <= j < n ==> canonical((#[trigger] denom@[j])@) && is_inverse(
                    le_value(ds[j]@),
                    le_value(denom@[j]@),
                ),
            forall|j: int|
                0 <= j < k ==> (#[trigger] lanes@[j]).at.valid() && lane_point(lanes@[j])
                    == lane_added(before[j], others@[j]),
        decreases n - k,
    {
        let lane: Lane = lanes[k];
        let other: Coordinates = others[k];
        assert(before[k as int].at.valid());
        assert(others@[k as int].valid());
        assert(mid[k as int].at == before[k as int].at);
        if !lane.dead {
            let inv: FieldBytes = denom[k];
            assert(canonical(denom@[k as int]@));
            proof {
                lemma_inverse_unique(le_value(ds[k as int]@), le_value(inv@));
            }
            let dy: FieldBytes = field_sub(&other.y, &lane.at.y);
            let slope: FieldBytes = field_mul(&dy, &inv);
            let sq: FieldBytes = field_square(&slope);
            let sq_less: FieldBytes = field_sub(&sq, &lane.at.x);
            let x3: FieldBytes = field_sub(&sq_less, &other.x);
            let dx: FieldBytes = field_sub(&lane.at.x, &x3);
            let rise: FieldBytes = field_mul(&slope, &dx);
            let y3: FieldBytes = field_sub(&rise, &lane.at.y);
            lanes.set(k, Lane { at: Coordinates { x: x3, y: y3 }, dead: false });
            assert(lane_point(lanes@[k as int]) == lane_added(
                before[k as int],
                others@[k as int],
            ));
        }
        k = k + 1;
    }
}

/// Whether a message consists of 52 ten-bit chunks.
pub open spec fn message_ok(msg: Seq<u16>) -> bool {
    msg.len() == 52 && forall|c: int| 0 <= c < 52 ==> (#[trigger] msg[c]) < 1024
}

/// The encoding of where a chain ends.
pub open spec fn chain_end(msg: Seq<u16>) -> Option<Seq<u8>> {
    match chain(msg, 52) {
        Some(p) => Some(le_bytes(p.x, 32)),
        None => None,
    }
}

/// Walks the chains of all messages in lockstep; the encoding of the `x` at which
/// each ends, nothing for a chain that met a degenerate addition.
pub fn walk_batch(cs: &Consts, msgs: &Vec<Vec<u16>>) -> (r: Vec<Option<FieldBytes>>)
    requires
        forall|i: int| 0 <= i < msgs@.len() ==> message_ok((#[trigger] msgs@[i])@),
    ensures
        r@.len() == msgs@.len(),
        forall|i: int|
            0 <= i < msgs@.len() ==> match #[trigger] r@[i] {
                Some(b) => chain_end(msgs@[i]@) == Some(b@) && canonical(b@),
                None => chain_end(msgs@[i]@) is None,
            },
{
    proof {
        use_type_invariant(cs);
    }
    let n: usize = msgs.len();
    let filler: Coordinates = Coordinates { x: field_one(), y: field_one() };
    let mut lanes: Vec<Lane> = Vec::new();
    let mut i: usize = 0;
    while i < n
        invariant
            0 <= i <= n,
            n == msgs@.len(),
            is_point(cs.q, merkle_q()),
            filler.valid(),
            lanes@.len() == i,
            forall|j: int|
                0 <= j < i ==> (#[trigger] lanes@[j]).at.valid() && lane_point(lanes@[j]) == chain(
                    msgs@[j]@,
                    0,
                ),
        decreases n - i,
    {
        let lane: Lane = match cs.q {
            Some(q) => Lane { at: q, dead: false },
            None => Lane { at: filler, dead: true },
        };
        lanes.push(lane);
        i = i + 1;
    }
    let mut c: usize = 0;
    while c < CHUNKS
        invariant
            0 <= c <= 52,
            n == msgs@.len(),
            forall|j: int| 0 <= j < n ==> message_ok((#[trigger] msgs@[j])@),
            cs.s@.len() == 1024,
            forall|m: int| 0 <= m < 1024 ==> is_point(#[trigger] cs.s@[m], sinsemilla_s(m)),
            filler.valid(),
            lanes@.len() == n,
            forall|j: int|
                0 <= j < n ==> (#[trigger] lanes@[j]).at.valid() && lane_point(lanes@[j]) == chain(
                    msgs@[j]@,
                    c as int,
                ),
        decreases 52 - c,
    {
        let ghost start = lanes@;
        // First half: the point of the chunk. The accumulators are kept aside.
        let mut others: Vec<Coordinates> = Vec::new();
        let mut held: Vec<Coordinates> = Vec::new();
        let mut k: usize = 0;
        while k < n
            invariant
                0 <= k <= n,
                0 <= c < 52,
                n == msgs@.len(),
                n == start.len(),
                forall|j: int| 0 <= j < n ==> message_ok((#[trigger] msgs@[j])@),
                cs.s@.len() == 1024,
                forall|m: int| 0 <= m < 1024 ==> is_point(#[trigger] cs.s@[m], sinsemilla_s(m)),
                filler.valid(),
                lanes@.len() == n,
                others@.len() == k,
                held@.len() == k,
                forall|j: int| 0 <= j < n ==> (#[trigger] start[j]).at.valid(),
                forall|j: int| k <= j < n ==> #[trigger] lanes@[j] == start[j],
                forall|j: int|
                    0 <= j < k ==> (#[trigger] lanes@[j]).at == start[j].at && held@[j]
                        == start[j].at && (lanes@[j].dead <==> (start[j].dead || sinsemilla_s(
                        msgs@[j]@[c as int] as int,
                    ) is None)),
                forall|j: int|
                    0 <= j < k ==> (#[trigger] others@[j]).valid() && (sinsemilla_s(
                        msgs@[j]@[c as int] as int,
                    ) matches Some(p) ==> others@[j].point() == p),
            decreases n - k,
        {
            assert(message_ok(msgs@[k as int]@));
            let m: u16 = msgs[k][c];
            assert(m < 1024);
            let lane: Lane = lanes[k];
            held.push(lane.at);
            assert(is_point(cs.s@[m as int], sinsemilla_s(m as int)));
            match cs.s[m as usize] {
                Some(p) => {
                    others.push(p);
                },
                None => {
                    others.push(filler);
                    lanes.set(k, Lane { at: lane.at, dead: true });
                },
            }
            k = k + 1;
        }
        let ghost ready = lanes@;
        assert forall|j: int| 0 <= j < n implies (#[trigger] ready[j]).at.valid() by {
            assert(start[j].at.valid());
        }
        half_step(&mut lanes, &others);
        let ghost half = lanes@;
        assert forall|j: int| 0 <= j < n implies (#[trigger] held@[j]).valid() by {
            assert(ready[j].at == start[j].at);
            assert(start[j].at.valid());
        }
        half_step(&mut lanes, &held);
        proof {
            assert forall|j: int| 0 <= j < n implies (#[trigger] lanes@[j]).at.valid()
                && lane_point(lanes@[j]) == chain(msgs@[j]@, c + 1) by {
                let msg = msgs@[j]@;
                assert(lane_point(start[j]) == chain(msg, c as int));
                assert(ready[j].at == start[j].at);
                assert(lane_point(half[j]) == lane_added(ready[j], others@[j]));
                assert(lane_point(lanes@[j]) == lane_added(half[j], held@[j]));
                if !ready[j].dead {
                    assert(others@[j].valid());
                    assert(chain(msg, c as int) == Some(start[j].at.point()));
                    assert(sinsemilla_s(msg[c as int] as int) == Some(others@[j].point()));
                }
            }
        }
        c = c + 1;
    }
    let mut out: Vec<Option<FieldBytes>> = Vec::new();
    let mut e: usize = 0;
    while e < n
        invariant
            0 <= e <= n,
            n == msgs@.len(),
            lanes@.len() == n,
            forall|j: int|
                0 <= j < n ==> (#[trigger] lanes@[j]).at.valid() && lane_point(lanes@[j]) == chain(
                    msgs@[j]@,
                    52,
                ),
            out@.len() == e,
            forall|j: int|
                0 <= j < e ==> match #[trigger] out@[j] {
                    Some(b) => chain_end(msgs@[j]@) == Some(b@) && canonical(b@),
                    None => chain_end(msgs@[j]@) is None,
                },
        decreases n - e,
    {
        let lane: Lane = lanes[e];
        assert(lanes@[e as int].at.valid());
        if lane.dead {
            out.push(None);
        } else {
            proof {
                lemma_le_bytes(lane.at.x@);
            }
            out.push(Some(lane.at.x));
        }
        e = e + 1;
    }
    out
}

/// Thirty-two zeros.
pub open spec fn zero_bytes() -> Seq<u8> {
    Seq::new(32, |i: int| 0u8)
}

/// The scalar combine: where the chain ends; zeros for a degenerate chain and for nodes
/// that are no field elements.
pub open spec fn scalar_result(layer: u8, left: Seq<u8>, right: Seq<u8>) -> Seq<u8> {
    if canonical(left) && canonical(right) {
        match chain_end(message(layer, left, right)) {
            Some(e) => e,
            None => zero_bytes(),
        }
    } else {
        zero_bytes()
    }
}

/// `MerkleHashOrchard::from_bytes` of both nodes and their `combine` at the level;
/// nothing where one of them is no canonical field element. The combine is the
/// Sinsemilla hash of the message, brought to its `x`: where no addition of the
/// chain is degenerate, that is where the chain ends, and on a degenerate chain, for
/// which the hash has no value, it is zero.
#[verifier::external_body]
fn merkle_combine(layer: u8, left: &[u8; 32], right: &[u8; 32]) -> (r: Option<[u8; 32]>)
    ensures
        match r {
            Some(b) => canonical(left@) && canonical(right@) && b@ == scalar_result(
                layer,
                left@,
                right@,
            ) && canonical(b@),
            None => !(canonical(left@) && canonical(right@)),
        },
{
    let l = Option::<orchard::tree::MerkleHashOrchard>::from(
        orchard::tree::MerkleHashOrchard::from_bytes(left),
    )?;
    let r = Option::<orchard::tree::MerkleHashOrchard>::from(
        orchard::tree::MerkleHashOrchard::from_bytes(right),
    )?;
    Some(orchard::tree::MerkleHashOrchard::combine(layer.into(), &l, &r).to_bytes())
}

/// The batched combine: the chain's end where it has one, else the scalar combine.
pub open spec fn batch_result(layer: u8, left: Seq<u8>, right: Seq<u8>) -> Seq<u8> {
    match chain_end(message(layer, left, right)) {
        Some(e) => e,
        None => scalar_result(layer, left, right),
    }
}

/// The scalar combine of two nodes.
pub fn scalar_combine(layer: u8, left: &[u8; 32], right: &[u8; 32]) -> (r: [u8; 32])
    ensures
        r@ == scalar_result(layer, left@, right@),
        canonical(left@) && canonical(right@) ==> canonical(r@),
{
    match merkle_combine(layer, left, right) {
        Some(b) => b,
        None => {
            let z: [u8; 32] = [0u8; 32];
            assert(z@ =~= zero_bytes());
            z
        },
    }
}

/// Combines many pairs of nodes; each result is that of the scalar combine on the
/// same level and nodes.
pub fn orchard_combine_batch_cpu(
    cs: &Consts,
    layers: &Vec<u8>,
    lefts: &Vec<[u8; 32]>,
    rights: &Vec<[u8; 32]>,
) -> (r: Vec<[u8; 32]>)
    requires
        layers@.len() == lefts@.len(),
        layers@.len() == rights@.len(),
    ensures
        r@.len() == layers@.len(),
        forall|i: int|
            0 <= i < layers@.len() ==> (#[trigger] r@[i])@ == batch_result(
                layers@[i],
                lefts@[i]@,
                rights@[i]@,
            ) && (canonical(lefts@[i]@) && canonical(rights@[i]@) ==> canonical(r@[i]@)),
{
    let n: usize = layers.len();
    let mut out: Vec<[u8; 32]> = Vec::new();
    let mut from: usize = 0;
    while from < n
        invariant
            0 <= from <= n,
            n == layers@.len(),
            n == lefts@.len(),
            n == rights@.len(),
            out@.len() == from,
            forall|i: int|
                0 <= i < from ==> (#[trigger] out@[i])@ == batch_result(
                    layers@[i],
                    lefts@[i]@,
                    rights@[i]@,
                ) && (canonical(lefts@[i]@) && canonical(rights@[i]@) ==> canonical(out@[i]@)),
        decreases n - from,
    {
        let to: usize = if n - from > BATCH {
            from + BATCH
        } else {
            n
        };
        let mut msgs: Vec<Vec<u16>> = Vec::new();
        let mut k: usize = from;
        while k < to
            invariant
                from <= k <= to <= n,
                n == layers@.len(),
                n == lefts@.len(),
                n == rights@.len(),
                msgs@.len() == k - from,
                forall|i: int|
                    0 <= i < k - from ==> message_ok((#[trigger] msgs@[i])@) && msgs@[i]@
                        == message(layers@[from + i], lefts@[from + i]@, rights@[from + i]@),
            decreases to - k,
        {
            let left: [u8; 32] = lefts[k];
            let right: [u8; 32] = rights[k];
            msgs.push(chunk_indices(layers[k], &left, &right));
            k = k + 1;
        }
        let walked: Vec<Option<FieldBytes>> = walk_batch(cs, &msgs);
        let mut e: usize = from;
        while e < to
            invariant
                from <= e <= to <= n,
                n == layers@.len(),
                n == lefts@.len(),
                n == rights@.len(),
                walked@.len() == to - from,
                msgs@.len() == to - from,
                forall|i: int|
                    0 <= i < to - from ==> (#[trigger] msgs@[i])@ == message(
                        layers@[from + i],
                        lefts@[from + i]@,
                        rights@[from + i]@,
                    ),
                forall|i: int|
                    0 <= i < msgs@.len() ==> match #[trigger] walked@[i] {
                        Some(b) => chain_end(msgs@[i]@) == Some(b@) && canonical(b@),
                        None => chain_end(msgs@[i]@) is None,
                    },
                out@.len() == e,
                forall|i: int|
                    0 <= i < e ==> (#[trigger] out@[i])@ == batch_result(
                        layers@[i],
                        lefts@[i]@,
                        rights@[i]@,
                    ) && (canonical(lefts@[i]@) && canonical(rights@[i]@) ==> canonical(out@[i]@)),
            decreases to - e,
        {
            assert(msgs@[e - from]@ == message(
                layers@[e as int],
                lefts@[e as int]@,
                rights@[e as int]@,
            ));
            let bytes: [u8; 32] = match walked[e - from] {
                Some(b) => b,
                None => {
                    let left: [u8; 32] = lefts[e];
                    let right: [u8; 32] = rights[e];
                    scalar_combine(layers[e], &left, &right)
                },
            };
            out.push(bytes);
            e = e + 1;
        }
        from = to;
    }
    out
}

/// On nodes of a tree, which are field elements, the batched combine is the scalar
/// one, byte for byte.
pub proof fn law_batch_matches_scalar(layer: u8, left: Seq<u8>, right: Seq<u8>)
    requires
        canonical(left),
        canonical(right),
    ensures
        batch_result(layer, left, right) == scalar_result(layer, left, right),
{
}

/// A bit of bytes is one of the byte that it falls in, the lowest first.
pub proof fn law_bits_are_little_endian(b: Seq<u8>, i: int)
    requires
        0 <= i < 8 * b.len(),
    ensures
        bit_of(b, i) <==> (b[i / 8] as int / pow2((i % 8) as nat) as int) % 2 == 1,
{
    lemma2_to64();
    let x = b[i / 8];
    assert((x >> 0u8) & 1u8 == 1u8 <==> (x / 1u8) % 2u8 == 1u8) by (bit_vector);
    assert((x >> 1u8) & 1u8 == 1u8 <==> (x / 2u8) % 2u8 == 1u8) by (bit_vector);
    assert((x >> 2u8) & 1u8 == 1u8 <==> (x / 4u8) % 2u8 == 1u8) by (bit_vector);
    assert((x >> 3u8) & 1u8 == 1u8 <==> (x / 8u8) % 2u8 == 1u8) by (bit_vector);
    assert((x >> 4u8) & 1u8 == 1u8 <==> (x / 16u8) % 2u8 == 1u8) by (bit_vector);
    assert((x >> 5u8) & 1u8 == 1u8 <==> (x / 32u8) % 2u8 == 1u8) by (bit_vector);
    assert((x >> 6u8) & 1u8 == 1u8 <==> (x / 64u8) % 2u8 == 1u8) by (bit_vector);
    assert((x >> 7u8) & 1u8 == 1u8 <==> (x / 128u8) % 2u8 == 1u8) by (bit_vector);
    let k = i % 8;
    assert(k == 0 || k == 1 || k == 2 || k == 3 || k == 4 || k == 5 || k == 6 || k == 7);
}

/// A bit of the message of a combine, as a number.
pub open spec fn message_digit(layer: u8, left: Seq<u8>, right: Seq<u8>, i: int) -> int {
    if message_bit(layer, left, right, i) {
        1
    } else {
        0
    }
}

proof fn lemma_chunk_step(layer: u8, left: Seq<u8>, right: Seq<u8>, c: int, k: nat)
    ensures
        chunk_prefix(layer, left, right, c, k + 1) == chunk_prefix(layer, left, right, c, k)
            + pow2(k) * message_digit(layer, left, right, 10 * c + k),
{
    assert(pow2(k) * 1 == pow2(k) && pow2(k) * 0 == 0) by (nonlinear_arith);
}

#[verifier::spinoff_prover]
proof fn lemma_chunk_digits(layer: u8, left: Seq<u8>, right: Seq<u8>, c: int)
    ensures
        chunk_prefix(layer, left, right, c, 10) == message_digit(layer, left, right, 10 * c) + 2
            * message_digit(layer, left, right, 10 * c + 1) + 4 * message_digit(
            layer,
            left,
            right,
            10 * c + 2,
        ) + 8 * message_digit(layer, left, right, 10 * c + 3) + 16 * message_digit(
            layer,
            left,
            right,
            10 * c + 4,
        ) + 32 * message_digit(layer, left, right, 10 * c + 5) + 64 * message_digit(
            layer,
            left,
            right,
            10 * c + 6,
        ) + 128 * message_digit(layer, left, right, 10 * c + 7) + 256 * message_digit(
            layer,
            left,
            right,
            10 * c + 8,
        ) + 512 * message_digit(layer, left, right, 10 * c + 9),
        chunk_prefix(layer, left, right, c, 10) < 1024,
{
    assert(pow2(0) == 1 && pow2(1) == 2 && pow2(2) == 4 && pow2(3) == 8 && pow2(4) == 16 && pow2(5)
        == 32 && pow2(6) == 64 && pow2(7) == 128 && pow2(8) == 256 && pow2(9) == 512) by {
        lemma2_to64();
    }
    lemma_chunk_step(layer, left, right, c, 0);
    lemma_chunk_step(layer, left, right, c, 1);
    lemma_chunk_step(layer, left, right, c, 2);
    lemma_chunk_step(layer, left, right, c, 3);
    lemma_chunk_step(layer, left, right, c, 4);
    lemma_chunk_step(layer, left, right, c, 5);
    lemma_chunk_step(layer, left, right, c, 6);
    lemma_chunk_step(layer, left, right, c, 7);
    lemma_chunk_step(layer, left, right, c, 8);
    lemma_chunk_step(layer, left, right, c, 9);
    assert(chunk_prefix(layer, left, right, c, 0) == 0);
}

/// The message of a combine is the level in ten bits, and after it the low 255 bits of the left
/// node and those of the right one.
pub proof fn law_message_holds_level_and_nodes(layer: u8, left: Seq<u8>, right: Seq<u8>, i: int)
    requires
        0 <= i < 520,
    ensures
        i < 8 ==> message_bit(layer, left, right, i) == bit_of(seq![layer], i),
        i == 8 || i == 9 ==> !message_bit(layer, left, right, i),
        10 <= i < 265 ==> message_bit(layer, left, right, i) == bit_of(left, i - 10),
        265 <= i ==> message_bit(layer, left, right, i) == bit_of(right, i - 265),
        message_digit(layer, left, right, i) == 1 <==> message_bit(layer, left, right, i),
        message_digit(layer, left, right, i) == 0 <==> !message_bit(layer, left, right, i),
{
}

/// The message is cut into 52 chunks of ten bits each, the lowest bit first.
pub proof fn law_chunks_hold_ten_bits(layer: u8, left: Seq<u8>, right: Seq<u8>, c: int)
    requires
        0 <= c < 52,
    ensures
        message(layer, left, right).len() == 52,
        message(layer, left, right)[c] == message_digit(layer, left, right, 10 * c) + 2
            * message_digit(layer, left, right, 10 * c + 1) + 4 * message_digit(
            layer,
            left,
            right,
            10 * c + 2,
        ) + 8 * message_digit(layer, left, right, 10 * c + 3) + 16 * message_digit(
            layer,
            left,
            right,
            10 * c + 4,
        ) + 32 * message_digit(layer, left, right, 10 * c + 5) + 64 * message_digit(
            layer,
            left,
            right,
            10 * c + 6,
        ) + 128 * message_digit(layer, left, right, 10 * c + 7) + 256 * message_digit(
            layer,
            left,
            right,
            10 * c + 8,
        ) + 512 * message_digit(layer, left, right, 10 * c + 9),
{
    lemma_chunk_digits(layer, left, right, c);
}

/// A message is one of 52 chunks of ten bits.
pub proof fn law_messages_have_52_chunks(msg: Seq<u16>)
    ensures
        message_ok(msg) <==> msg.len() == 52 && forall|c: int|
            0 <= c < 52 ==> (#[trigger] msg[c]) < 1024,
{
}

/// The points of the hash are those that its name and the chunks hash to under the names of
/// Sinsemilla.
pub proof fn law_points_of_the_hash(m: int, s: Seq<char>, i: int)
    ensures
        hashed_point("z.cash:SinsemillaQ"@, ascii_bytes("z.cash:Orchard-MerkleCRH"@)) matches Some(
            p,
        ) ==> merkle_q() == Some(PointModel { x: le_value(p.0), y: le_value(p.1) }),
        hashed_point("z.cash:SinsemillaQ"@, ascii_bytes("z.cash:Orchard-MerkleCRH"@)) is None
            ==> merkle_q() is None,
        hashed_point("z.cash:SinsemillaS"@, le_bytes(m, 4)) matches Some(p) ==> sinsemilla_s(m)
            == Some(PointModel { x: le_value(p.0), y: le_value(p.1) }),
        hashed_point("z.cash:SinsemillaS"@, le_bytes(m, 4)) is None ==> sinsemilla_s(m) is None,
        ascii_bytes(s).len() == s.len(),
        0 <= i < s.len() ==> ascii_bytes(s)[i] == s[i] as u8,
{
}

/// A chain starts at its point and takes one chunk after the other: it adds the point of the
/// chunk to where it stands, and that to where it stood. It ends where one of these has no sum.
pub proof fn law_chain_takes_chunk_by_chunk(msg: Seq<u16>, n: int)
    requires
        0 <= n < msg.len(),
    ensures
        chain(msg, 0) == merkle_q(),
        ({
            let next = chain(msg, n + 1);
            match (chain(msg, n), sinsemilla_s(msg[n] as int)) {
                (Some(acc), Some(s)) => match add_points(acc, s) {
                    Some(t) => next == add_points(t, acc),
                    None => next is None,
                },
                _ => next is None,
            }
        }),
        chain_end(msg) is Some <==> chain(msg, 52) is Some,
        chain(msg, 52) matches Some(p) ==> chain_end(msg) == Some(le_bytes(p.x, 32)),
{
}

/// A combine of field elements is where the chain of its message ends, and zero where it does
/// not end anywhere; bytes that are no field elements combine to zero.
pub proof fn law_combine_is_the_end_of_the_chain(layer: u8, left: Seq<u8>, right: Seq<u8>)
    ensures
        canonical(left) && canonical(right) && chain_end(message(layer, left, right)) is Some
            ==> scalar_result(layer, left, right) == chain_end(
            message(layer, left, right),
        )->Some_0,
        !canonical(left) || !canonical(right) || chain_end(message(layer, left, right)) is None
            ==> scalar_result(layer, left, right).len() == 32 && forall|i: int|
            0 <= i < 32 ==> #[trigger] scalar_result(layer, left, right)[i] == 0,
        chain_end(message(layer, left, right)) matches Some(end) ==> batch_result(
            layer,
            left,
            right,
        ) == end,
{
}

/// Coordinates stand for the point of their numbers, where both are field elements.
pub proof fn law_coordinates_are_of_the_point(c: Coordinates, p: Option<PointModel>)
    ensures
        c.valid() <==> canonical(c.x@) && canonical(c.y@),
        c.point().x == le_value(c.x@) && c.point().y == le_value(c.y@),
        is_point(Some(c), p) <==> c.valid() && p == Some(c.point()),
        is_point(None, p) <==> p is None,
        point_of(Some(c)) == Some(c.point()),
        point_of(None) is None,
{
}

} // verus!
