//! The curve BN254, as the ledger's host provides it. A point of G1 is 64 bytes, its two
//! coordinates big-endian; a point of G2 is 128 bytes, its two coordinates with the imaginary
//! part first. Only zero bytes stand for the point at infinity.
//!
//! The host meters every call; what is said here of a call holds while the budget of the
//! environment lasts.
use soroban_sdk::crypto::bn254::{Bn254G1Affine, Bn254G2Affine, Fr};
use vstd::prelude::*;

verus! {

/// `soroban_sdk::Env`, the handle to the ledger's host.
#[verifier::external_type_specification]
#[verifier::external_body]
pub struct ExEnv(soroban_sdk::Env);

/// The number that some bytes stand for, the most significant first.
pub open spec fn be_value(bytes: Seq<u8>) -> nat
    decreases bytes.len(),
{
    if bytes.len() == 0 {
        0
    } else {
        be_value(bytes.drop_last()) * 256 + bytes.last() as nat
    }
}

/// The number of elements of the field that the curve is defined over.
pub open spec fn field_size() -> int {
    0x30644e72e131a029b85045b68181585d97816a916871ca8d3c208c16d87cfd47int
}

/// The number of points in G1 and in G2.
pub open spec fn group_order() -> nat {
    0x30644e72e131a029b85045b68181585d2833e84879b9709143e1f593f0000001nat
}

/// Every byte is zero.
pub open spec fn all_zero(bytes: Seq<u8>) -> bool {
    forall|i: int| 0 <= i < bytes.len() ==> bytes[i] == 0
}

/// `(x, y)` lies on the curve.
pub open spec fn on_curve(x: int, y: int) -> bool {
    (y * y) % field_size() == (x * x * x + 3) % field_size()
}

/// The bytes are a point of G1.
pub open spec fn is_g1_point(bytes: Seq<u8>) -> bool {
    &&& bytes.len() == 64
    &&& all_zero(bytes) || {
        let x = be_value(bytes.take(32)) as int;
        let y = be_value(bytes.skip(32)) as int;
        x < field_size() && y < field_size() && on_curve(x, y)
    }
}

/// An element of the quadratic extension of the field, `c0 + c1 * i` with `i * i == -1`.
pub struct Fp2 {
    pub c0: int,
    pub c1: int,
}

/// The element with these parts, each taken modulo the size of the field.
pub open spec fn fp2(c0: int, c1: int) -> Fp2 {
    Fp2 { c0: c0 % field_size(), c1: c1 % field_size() }
}

pub open spec fn fp2_add(a: Fp2, b: Fp2) -> Fp2 {
    fp2(a.c0 + b.c0, a.c1 + b.c1)
}

pub open spec fn fp2_sub(a: Fp2, b: Fp2) -> Fp2 {
    fp2(a.c0 - b.c0, a.c1 - b.c1)
}

pub open spec fn fp2_mul(a: Fp2, b: Fp2) -> Fp2 {
    fp2(
        a.c0 * b.c0 - a.c1 * b.c1,
        a.c0 * b.c1 + a.c1 * b.c0,
    )
}

/// The element whose product with `b` is `a`.
pub open spec fn fp2_div(a: Fp2, b: Fp2) -> Fp2 {
    choose|q: Fp2| q == fp2(q.c0, q.c1) && fp2_mul(q, b) == a
}

/// `(x, y)` lies on the twist of the curve, `y * y == x * x * x + 3 / (9 + i)`.
pub open spec fn on_twist(x: Fp2, y: Fp2) -> bool {
    let xi = fp2(9, 1);
    fp2_mul(xi, fp2_mul(y, y)) == fp2_add(fp2_mul(xi, fp2_mul(x, fp2_mul(x, x))), fp2(3, 0))
}

/// A point of the curve or of its twist; nothing stands for the point at infinity. The coordinates
/// of a point of the curve have no imaginary part.
pub type Point = Option<(Fp2, Fp2)>;

/// The sum of two points, both of the curve or both of its twist: the third point on the line
/// through them, mirrored.
pub open spec fn point_sum(p: Point, q: Point) -> Point {
    match (p, q) {
        (None, _) => q,
        (_, None) => p,
        (Some((x1, y1)), Some((x2, y2))) => if x1 == x2 && fp2_add(y1, y2) == fp2(0, 0) {
            None
        } else {
            let slope = if x1 == x2 {
                fp2_div(fp2_mul(fp2(3, 0), fp2_mul(x1, x1)), fp2_add(y1, y1))
            } else {
                fp2_div(fp2_sub(y2, y1), fp2_sub(x2, x1))
            };
            let x3 = fp2_sub(fp2_sub(fp2_mul(slope, slope), x1), x2);
            Some((x3, fp2_sub(fp2_mul(slope, fp2_sub(x1, x3)), y1)))
        },
    }
}

/// The sum of `n` times the point `p`.
pub open spec fn point_times(n: nat, p: Point) -> Point
    decreases n,
{
    if n == 0 {
        None
    } else {
        point_sum(point_times((n - 1) as nat, p), p)
    }
}

/// The part of a point of G2 that starts at byte `from`.
pub open spec fn g2_part(bytes: Seq<u8>, from: int) -> int {
    be_value(bytes.subrange(from, from + 32)) as int
}

/// The bytes are a point of G2: it lies on the twist, and its order divides that of the group.
pub open spec fn is_g2_point(bytes: Seq<u8>) -> bool {
    &&& bytes.len() == 128
    &&& all_zero(bytes) || {
        let x = Fp2 { c0: g2_part(bytes, 32), c1: g2_part(bytes, 0) };
        let y = Fp2 { c0: g2_part(bytes, 96), c1: g2_part(bytes, 64) };
        &&& x == fp2(x.c0, x.c1)
        &&& y == fp2(y.c0, y.c1)
        &&& on_twist(x, y)
        &&& point_times(group_order(), Some((x, y))) is None
    }
}

/// The digest that the host computes by SHA-256.
pub uninterp spec fn host_sha256(data: Seq<u8>) -> Seq<u8>;

/// The point of the curve that the bytes of a point of G1 stand for.
pub open spec fn g1_place(bytes: Seq<u8>) -> Point {
    if all_zero(bytes) {
        None
    } else {
        Some(
            (
                Fp2 { c0: be_value(bytes.take(32)) as int, c1: 0 },
                Fp2 { c0: be_value(bytes.skip(32)) as int, c1: 0 },
            ),
        )
    }
}

/// The bytes of a point of G1.
pub open spec fn g1_bytes(place: Point) -> Seq<u8> {
    choose|bytes: Seq<u8>| is_g1_point(bytes) && #[trigger] g1_place(bytes) == place
}

/// The product of a point of G1 and a number, which is taken modulo the order of the group.
pub open spec fn g1_product(point: Seq<u8>, scalar: Seq<u8>) -> Seq<u8> {
    g1_bytes(point_times(be_value(scalar) % group_order(), g1_place(point)))
}

/// The sum of two points of G1.
pub open spec fn g1_sum(p: Seq<u8>, q: Seq<u8>) -> Seq<u8> {
    g1_bytes(point_sum(g1_place(p), g1_place(q)))
}

/// The product of the pairings of points of G1 with points of G2 is one.
pub uninterp spec fn pairings_cancel(g1: Seq<Seq<u8>>, g2: Seq<Seq<u8>>) -> bool;

/// `soroban_sdk::crypto::Crypto::sha256`: 32 bytes that depend on the data alone.
#[verifier::external_body]
pub(crate) fn sha256(env: &soroban_sdk::Env, data: &[u8]) -> (digest: [u8; 32])
    ensures
        digest@ == host_sha256(data@),
{
    env.crypto().sha256(&soroban_sdk::Bytes::from_slice(env, data)).to_array()
}

/// `soroban_sdk::crypto::bn254::Bn254::g1_mul`: the bytes of the point multiplied by the scalar.
/// The scalar is big-endian and taken modulo the group's order by
/// `soroban_sdk::crypto::bn254::Fr::from_bytes`.
#[verifier::external_body]
pub(crate) fn g1_mul(env: &soroban_sdk::Env, point: &[u8; 64], scalar: &[u8; 32]) -> (product: [u8; 64])
    requires
        is_g1_point(point@),
    ensures
        is_g1_point(product@),
        g1_place(product@) == point_times(be_value(scalar@) % group_order(), g1_place(point@)),
{
    let scalar = Fr::from_bytes(soroban_sdk::BytesN::from_array(env, scalar));
    env.crypto().bn254().g1_mul(&Bn254G1Affine::from_array(env, point), &scalar).to_array()
}

/// `soroban_sdk::crypto::bn254::Bn254::g1_add`: the bytes of the sum of the two points.
#[verifier::external_body]
pub(crate) fn g1_add(env: &soroban_sdk::Env, p: &[u8; 64], q: &[u8; 64]) -> (sum: [u8; 64])
    requires
        is_g1_point(p@),
        is_g1_point(q@),
    ensures
        is_g1_point(sum@),
        g1_place(sum@) == point_sum(g1_place(p@), g1_place(q@)),
{
    let p = Bn254G1Affine::from_array(env, p);
    let q = Bn254G1Affine::from_array(env, q);
    env.crypto().bn254().g1_add(&p, &q).to_array()
}

/// The point with the same first coordinate and the second one negated in the field.
pub open spec fn is_g1_negation(negated: Seq<u8>, point: Seq<u8>) -> bool {
    &&& negated.len() == 64
    &&& negated.take(32) == point.take(32)
    &&& be_value(negated.skip(32)) == (field_size() - be_value(point.skip(32))) % field_size()
}

/// The negation of a point of G1.
pub open spec fn g1_negated(point: Seq<u8>) -> Seq<u8> {
    choose|negated: Seq<u8>| is_g1_negation(negated, point)
}

/// The negation of `soroban_sdk::crypto::bn254::Bn254G1Affine`: the second coordinate is
/// subtracted from the size of the field, and zero stays as it is.
#[verifier::external_body]
pub(crate) fn g1_neg(env: &soroban_sdk::Env, point: &[u8; 64]) -> (negated: [u8; 64])
    requires
        is_g1_point(point@),
    ensures
        is_g1_negation(negated@, point@),
{
    (-Bn254G1Affine::from_array(env, point)).to_array()
}

/// Some points as mathematical values.
pub open spec fn g1_points(points: Seq<[u8; 64]>) -> Seq<Seq<u8>> {
    points.map_values(|p: [u8; 64]| p@)
}

/// Some points as mathematical values.
pub open spec fn g2_points(points: Seq<[u8; 128]>) -> Seq<Seq<u8>> {
    points.map_values(|p: [u8; 128]| p@)
}

/// `soroban_sdk::crypto::bn254::Bn254::pairing_check`: the verdict depends on the points alone.
#[verifier::external_body]
pub(crate) fn pairing_check(env: &soroban_sdk::Env, g1: &[[u8; 64]], g2: &[[u8; 128]]) -> (cancel: bool)
    requires
        g1@.len() == g2@.len(),
        g1@.len() > 0,
        forall|i: int| 0 <= i < g1@.len() ==> is_g1_point(#[trigger] g1@[i]@),
        forall|i: int| 0 <= i < g2@.len() ==> is_g2_point(#[trigger] g2@[i]@),
    ensures
        cancel == pairings_cancel(g1_points(g1@), g2_points(g2@)),
{
    let g1 = g1.iter().map(|p| Bn254G1Affine::from_array(env, p));
    let g2 = g2.iter().map(|p| Bn254G2Affine::from_array(env, p));
    env.crypto().bn254().pairing_check(
        soroban_sdk::Vec::from_iter(env, g1),
        soroban_sdk::Vec::from_iter(env, g2),
    )
}

proof fn lemma_zero_value(bytes: Seq<u8>)
    requires
        all_zero(bytes),
    ensures
        be_value(bytes) == 0,
    decreases bytes.len(),
{
    if bytes.len() > 0 {
        lemma_zero_value(bytes.drop_last());
    }
}

proof fn lemma_value_zero(bytes: Seq<u8>)
    requires
        be_value(bytes) == 0,
    ensures
        all_zero(bytes),
    decreases bytes.len(),
{
    if bytes.len() > 0 {
        lemma_value_zero(bytes.drop_last());
        assert forall|i: int| 0 <= i < bytes.len() implies bytes[i] == 0 by {
            if i < bytes.len() - 1 {
                assert(bytes.drop_last()[i] == 0);
            }
        }
    }
}

proof fn lemma_value_injective(a: Seq<u8>, b: Seq<u8>)
    requires
        a.len() == b.len(),
        be_value(a) == be_value(b),
    ensures
        a == b,
    decreases a.len(),
{
    if a.len() > 0 {
        lemma_value_injective(a.drop_last(), b.drop_last());
        assert(a =~= a.drop_last().push(a.last()));
        assert(b =~= b.drop_last().push(b.last()));
    } else {
        assert(a =~= b);
    }
}

/// A point of G1 has only one form in bytes.
pub proof fn lemma_g1_bytes(bytes: Seq<u8>)
    requires
        is_g1_point(bytes),
    ensures
        g1_bytes(g1_place(bytes)) == bytes,
{
    let other = g1_bytes(g1_place(bytes));
    assert(is_g1_point(other) && g1_place(other) == g1_place(bytes));
    if all_zero(bytes) {
        assert(other =~= bytes);
    } else {
        lemma_value_injective(bytes.take(32), other.take(32));
        lemma_value_injective(bytes.skip(32), other.skip(32));
        assert(bytes =~= bytes.take(32) + bytes.skip(32));
        assert(other =~= other.take(32) + other.skip(32));
    }
}

/// A point has only one negation.
pub proof fn lemma_negation_unique(negated: Seq<u8>, point: Seq<u8>)
    requires
        is_g1_negation(negated, point),
    ensures
        g1_negated(point) == negated,
{
    let other = g1_negated(point);
    assert(is_g1_negation(other, point));
    lemma_value_injective(negated.skip(32), other.skip(32));
    assert(negated =~= negated.take(32) + negated.skip(32));
    assert(other =~= other.take(32) + other.skip(32));
}

/// The negation of a point of G1 is a point of G1.
pub proof fn lemma_negation(negated: Seq<u8>, point: Seq<u8>)
    requires
        is_g1_point(point),
        is_g1_negation(negated, point),
    ensures
        is_g1_point(negated),
{
    let p = field_size();
    let y = be_value(point.skip(32)) as int;
    let n = be_value(negated.skip(32)) as int;
    if all_zero(point) {
        assert(all_zero(point.skip(32))) by {
            assert forall|i: int| 0 <= i < 32 implies point.skip(32)[i] == 0 by {
                assert(point[i + 32] == 0);
            }
        }
        lemma_zero_value(point.skip(32));
        assert((p - 0) % p == 0) by (nonlinear_arith)
            requires
                p > 0,
        ;
        lemma_value_zero(negated.skip(32));
        assert forall|i: int| 0 <= i < 64 implies negated[i] == 0 by {
            if i < 32 {
                assert(negated[i] == negated.take(32)[i]);
                assert(point[i] == point.take(32)[i]);
            } else {
                assert(negated[i] == negated.skip(32)[i - 32]);
            }
        }
    } else {
        let x = be_value(point.take(32)) as int;
        assert((n * n) % p == (y * y) % p) by {
            if y == 0 {
                assert((p - 0) % p == 0) by (nonlinear_arith)
                    requires
                        p > 0,
                ;
            } else {
                vstd::arithmetic::div_mod::lemma_small_mod((p - y) as nat, p as nat);
                assert(n == p - y);
                assert(n * n == y * y + p * (p - 2 * y)) by (nonlinear_arith)
                    requires
                        n == p - y,
                ;
                vstd::arithmetic::div_mod::lemma_mod_multiples_vanish(p - 2 * y, y * y, p);
            }
        }
    }
}

} // verus!
