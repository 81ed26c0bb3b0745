//! The Baby Jubjub curve primitives that the tally scheme is built on.
//!
//! The curve arithmetic itself is an external collaborator: every call into
//! `babyjubjub_rs` (and the `num_bigint` scalars it works on) goes through a
//! trusted wrapper here. The one fact the searcher's contracts rest on is
//! recorded by the name `gen_pow_bytes`: the compressed form of `s * G` is a
//! function of the scalar `s` alone.

use vstd::prelude::*;

use ff_ce::Field;
use ff_ce::PrimeField;

verus! {

#[verifier::external_type_specification]
#[verifier::external_body]
pub struct ExPoint(babyjubjub_rs::Point);

#[verifier::external_type_specification]
#[verifier::external_body]
pub struct ExPointProjective(babyjubjub_rs::PointProjective);

#[verifier::external_type_specification]
#[verifier::external_body]
pub struct ExPrivateKey(babyjubjub_rs::PrivateKey);

#[verifier::external_type_specification]
#[verifier::external_body]
pub struct ExBigInt(num_bigint::BigInt);

/// The compressed form of `s * G`, where `G` is the Baby Jubjub base point
/// `B8`: a fixed 32-byte string for each scalar `s`.
pub uninterp spec fn gen_pow_bytes(s: nat) -> Seq<u8>;

/// The compressed form of a projective point: its affine normalization's
/// 32-byte encoding.
pub uninterp spec fn compress_of(p: babyjubjub_rs::PointProjective) -> Seq<u8>;

/// The point `r * G` for the base point `B8`, in projective form.
pub uninterp spec fn gen_mul_of(r: u64) -> babyjubjub_rs::PointProjective;

/// The point `(2^exponent mod Q) * G`: the curve encoding of one ballot's
/// plaintext digit.
pub uninterp spec fn message_point_of(exponent: u64) -> babyjubjub_rs::PointProjective;

/// The twisted Edwards sum of two projective points.
pub uninterp spec fn add_of(
    p: babyjubjub_rs::PointProjective,
    q: babyjubjub_rs::PointProjective,
) -> babyjubjub_rs::PointProjective;

/// The affine normalization of a projective point.
pub uninterp spec fn affine_of(p: babyjubjub_rs::PointProjective) -> babyjubjub_rs::Point;

/// The scalar multiple `s * p` of an affine point.
pub uninterp spec fn mul_scalar_of(
    p: babyjubjub_rs::Point,
    s: num_bigint::BigInt,
) -> babyjubjub_rs::Point;

/// The scalar multiple `s * p` of an affine point by a machine word, in
/// projective form.
pub uninterp spec fn mul_scalar_u64_of(
    p: babyjubjub_rs::Point,
    s: u64,
) -> babyjubjub_rs::PointProjective;

/// The private scalar derived from a voting key.
pub uninterp spec fn scalar_key_of(sk: babyjubjub_rs::PrivateKey) -> num_bigint::BigInt;

/// The curve negation of an affine point — x negated, y kept — in
/// projective form.
pub uninterp spec fn negate_x_of(p: babyjubjub_rs::Point) -> babyjubjub_rs::PointProjective;

/// Relies on `Point::mul_scalar` and `Point::compress` of `babyjubjub_rs`:
/// both are deterministic functions of their arguments, so the bytes returned
/// for a scalar `s` are always `gen_pow_bytes(s)`, and `compress` always
/// returns 32 bytes.
#[verifier::external_body]
pub(crate) fn gen_mul_compressed(s: u128) -> (r: Vec<u8>)
    ensures
        r@ == gen_pow_bytes(s as nat),
        r@.len() == 32,
{
    let g = babyjubjub_rs::Point {
        x: babyjubjub_rs::Fr::from_str(
            "5299619240641551281634865583518297030282874472190772894086521144482721001553",
        ).unwrap(),
        y: babyjubjub_rs::Fr::from_str(
            "16950150798460657717958625567821834550301663161624707787222815936182638968203",
        ).unwrap(),
    };
    g.mul_scalar(&num_bigint::BigInt::from(s)).compress().to_vec()
}

/// Relies on `PointProjective::affine` and `Point::compress` of
/// `babyjubjub_rs`: both deterministic in the point alone, so the bytes are
/// `compress_of(p)`, and `compress` returns 32 bytes.
#[verifier::external_body]
pub(crate) fn point_compress(p: &babyjubjub_rs::PointProjective) -> (r: Vec<u8>)
    ensures
        r@ == compress_of(*p),
        r@.len() == 32,
{
    p.affine().compress().to_vec()
}

/// Relies on `Point::mul_scalar` and `Point::projective` of `babyjubjub_rs`:
/// computes `r * G` for the base point `B8`, a function of the scalar alone.
#[verifier::external_body]
pub(crate) fn gen_mul(r: u64) -> (c: babyjubjub_rs::PointProjective)
    ensures
        c == gen_mul_of(r),
{
    let g = babyjubjub_rs::Point {
        x: babyjubjub_rs::Fr::from_str(
            "5299619240641551281634865583518297030282874472190772894086521144482721001553",
        ).unwrap(),
        y: babyjubjub_rs::Fr::from_str(
            "16950150798460657717958625567821834550301663161624707787222815936182638968203",
        ).unwrap(),
    };
    g.mul_scalar(&num_bigint::BigInt::from(r)).projective()
}

/// Relies on `BigInt::modpow`, `Point::mul_scalar` and `Point::projective`:
/// computes `(2^exponent mod Q) * G`, the curve encoding of one ballot's
/// plaintext digit, where `Q` is the scalar-field prime of the scheme — a
/// function of the exponent alone.
#[verifier::external_body]
pub(crate) fn encode_message_point(exponent: u64) -> (c: babyjubjub_rs::PointProjective)
    ensures
        c == message_point_of(exponent),
{
    let message = num_bigint::BigInt::from(2u8)
        .modpow(&num_bigint::BigInt::from(exponent), &babyjubjub_rs::Q);
    let g = babyjubjub_rs::Point {
        x: babyjubjub_rs::Fr::from_str(
            "5299619240641551281634865583518297030282874472190772894086521144482721001553",
        ).unwrap(),
        y: babyjubjub_rs::Fr::from_str(
            "16950150798460657717958625567821834550301663161624707787222815936182638968203",
        ).unwrap(),
    };
    g.mul_scalar(&message).projective()
}

/// Relies on `PointProjective::add` of `babyjubjub_rs`: twisted Edwards
/// point addition, deterministic in its two arguments. The addition
/// formulas are symmetric in the two points, so the result is also the sum
/// taken the other way around.
#[verifier::external_body]
pub(crate) fn add_point(p: &babyjubjub_rs::PointProjective, q: &babyjubjub_rs::PointProjective)
    -> (r: babyjubjub_rs::PointProjective)
    ensures
        r == add_of(*p, *q),
        r == add_of(*q, *p),
{
    p.add(q)
}

/// Relies on the derived `Clone` of `babyjubjub_rs::PointProjective`, which
/// copies the three coordinate fields.
#[verifier::external_body]
pub(crate) fn clone_point(p: &babyjubjub_rs::PointProjective) -> (r: babyjubjub_rs::PointProjective)
    ensures
        r == *p,
{
    p.clone()
}

/// Relies on `PointProjective::affine` of `babyjubjub_rs`: projective to
/// affine normalization, deterministic in the point alone.
#[verifier::external_body]
pub(crate) fn to_affine(p: &babyjubjub_rs::PointProjective) -> (r: babyjubjub_rs::Point)
    ensures
        r == affine_of(*p),
{
    p.affine()
}

/// Relies on `Point::mul_scalar` of `babyjubjub_rs`: scalar multiplication
/// by an arbitrary-precision scalar, deterministic in point and scalar.
#[verifier::external_body]
pub(crate) fn mul_point(p: &babyjubjub_rs::Point, s: &num_bigint::BigInt)
    -> (r: babyjubjub_rs::Point)
    ensures
        r == mul_scalar_of(*p, *s),
{
    p.mul_scalar(s)
}

/// Relies on `Point::mul_scalar` and `Point::projective` of `babyjubjub_rs`:
/// scalar multiplication by a machine-word scalar, deterministic in point
/// and scalar.
#[verifier::external_body]
pub(crate) fn mul_point_u64(p: &babyjubjub_rs::Point, s: u64)
    -> (r: babyjubjub_rs::PointProjective)
    ensures
        r == mul_scalar_u64_of(*p, s),
{
    p.mul_scalar(&num_bigint::BigInt::from(s)).projective()
}

/// Relies on `PrivateKey::scalar_key` of `babyjubjub_rs`: the private scalar
/// of a voting key pair, a deterministic digest of the stored key bytes.
#[verifier::external_body]
pub(crate) fn scalar_key(sk: &babyjubjub_rs::PrivateKey) -> (r: num_bigint::BigInt)
    ensures
        r == scalar_key_of(*sk),
{
    sk.scalar_key()
}

/// Relies on `Fr::negate` of `ff_ce` and `Point::projective` of
/// `babyjubjub_rs`: the point with the x-coordinate negated, which is the
/// curve negation on a twisted Edwards curve — deterministic in the point.
#[verifier::external_body]
pub(crate) fn negate_point_x(p: &babyjubjub_rs::Point) -> (r: babyjubjub_rs::PointProjective)
    ensures
        r == negate_x_of(*p),
{
    let mut x_neg = p.x.clone();
    x_neg.negate();
    babyjubjub_rs::Point { x: x_neg, y: p.y.clone() }.projective()
}

/// Whether the scalar `sum` decodes the target: whether the compressed form
/// of `sum * G` equals the compressed target bytes.
pub fn is_decoded_match(sum: u128, m_bytes: &Vec<u8>) -> (r: bool)
    ensures
        r == (gen_pow_bytes(sum as nat) == m_bytes@),
{
    let g = gen_mul_compressed(sum);
    if g.len() != m_bytes.len() {
        return false;
    }
    let mut i: usize = 0;
    while i < g.len()
        invariant
            i <= g@.len(),
            g@.len() == m_bytes@.len(),
            g@ == gen_pow_bytes(sum as nat),
            forall|j: int| 0 <= j < i ==> g@[j] == m_bytes@[j],
        decreases g@.len() - i,
    {
        if g[i] != m_bytes[i] {
            return false;
        }
        i = i + 1;
    }
    proof {
        assert(g@ =~= m_bytes@);
    }
    true
}

} // verus!
