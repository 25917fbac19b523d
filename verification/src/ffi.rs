//! The boundary to the curve engine, and the storage that crosses it.
//!
//! The storage types are plain holders of limbs, with no invariant of their
//! own: the types of [`crate::bn`] wrap them and keep them canonical. The
//! functions of this module hand such limbs to the `ark-bls12-381` curve
//! implementation and take its answers back. Nothing here is proved: each
//! contract says what the engine is trusted to compute.
use vstd::prelude::*;
use ark_bls12_381::{Bls12_381, Fq, Fq12, Fq2, G1Affine, G2Affine};
use ark_ec::pairing::Pairing;
use ark_ec::{AffineRepr, CurveGroup};
use ark_ff::{BigInt, Field, PrimeField};
use sha2::{Digest, Sha512};
use crate::bn::fp2::fp2_neg;
use crate::curve::{
    g1_finite_valid, g1_in_subgroup, g1_on_curve, g2_finite_valid, g2_in_subgroup, g2_on_curve,
    gt_canonical, gt_valid,
};
use crate::limbs::limbs_value;
use crate::modular::mod_neg;
use crate::params::fp_modulus;

verus! {

/// The identifier of the BN254 curve, which this library does not provide.
pub const BN254: i32 = 0;

/// The identifier of the BLS12-381 curve.
pub const BLS12_381: i32 = 5;

/// The number of limbs in a scalar.
pub const MCLBN_FR_UNIT_SIZE: i32 = 4;

/// The number of limbs in a base field element.
pub const MCLBN_FP_UNIT_SIZE: i32 = 6;

/// The limb sizes in one number, by which a caller shows what it was built for.
pub const MCLBN_COMPILED_TIME_VAR: i32 = (MCLBN_FR_UNIT_SIZE * 10) + MCLBN_FP_UNIT_SIZE;

/// Storage of a base field element: six limbs, least significant first.
#[derive(Default, Debug, Clone, Copy)]
pub struct MclBnFp {
    pub d: [u64; 6],
}

/// Storage of an element of the quadratic extension: real part, then imaginary part.
#[derive(Default, Debug, Clone, Copy)]
pub struct MclBnFp2 {
    pub d: [MclBnFp; 2],
}

/// Storage of a scalar: four limbs, least significant first.
#[derive(Default, Debug, Clone, Copy)]
pub struct MclBnFr {
    pub d: [u64; 4],
}

/// Storage of a point of the first group: affine `x` and `y`, and `z`, which
/// is one for a finite point and zero for the point at infinity.
#[derive(Default, Debug, Clone, Copy)]
pub struct MclBnG1 {
    pub x: MclBnFp,
    pub y: MclBnFp,
    pub z: MclBnFp,
}

/// Storage of a point of the second group, laid out as [`MclBnG1`] over the extension.
#[derive(Default, Debug, Clone, Copy)]
pub struct MclBnG2 {
    pub x: MclBnFp2,
    pub y: MclBnFp2,
    pub z: MclBnFp2,
}

/// Storage of an element of the target group: twelve base field coefficients.
#[derive(Default, Debug, Clone, Copy)]
pub struct MclBnGT {
    pub d: [MclBnFp; 12],
}

impl MclBnFp {
    /// The number that the limbs denote.
    pub open spec fn value(&self) -> nat {
        limbs_value(self.d@)
    }
}

impl MclBnFr {
    /// The number that the limbs denote.
    pub open spec fn value(&self) -> nat {
        limbs_value(self.d@)
    }
}

impl MclBnFp2 {
    /// The two numbers that the limbs denote.
    pub open spec fn value(&self) -> (nat, nat) {
        (self.d@[0].value(), self.d@[1].value())
    }

    /// Whether both numbers are below the modulus.
    pub open spec fn canonical(&self) -> bool {
        self.d@[0].value() < fp_modulus() && self.d@[1].value() < fp_modulus()
    }
}

impl MclBnGT {
    /// The twelve numbers that the limbs denote.
    pub open spec fn value(&self) -> Seq<nat> {
        Seq::new(12, |i: int| self.d@[i].value())
    }
}

/// The sum of two finite points of the first curve: its coordinates, and
/// whether it is the point at infinity.
pub uninterp spec fn g1_sum(ax: nat, ay: nat, bx: nat, by: nat) -> (nat, nat, bool);

/// The multiple `k (x, y)` of a finite point of the first curve.
pub uninterp spec fn g1_multiple(x: nat, y: nat, k: nat) -> (nat, nat, bool);

/// The sum of two finite points of the second curve.
pub uninterp spec fn g2_sum(ax: (nat, nat), ay: (nat, nat), bx: (nat, nat), by: (nat, nat)) -> (
    (nat, nat),
    (nat, nat),
    bool,
);

/// The multiple `k (x, y)` of a finite point of the second curve.
pub uninterp spec fn g2_multiple(x: (nat, nat), y: (nat, nat), k: nat) -> (
    (nat, nat),
    (nat, nat),
    bool,
);

/// The image of a finite point of the second curve under cofactor clearing.
pub uninterp spec fn g2_cofactor_cleared(x: (nat, nat), y: (nat, nat)) -> (
    (nat, nat),
    (nat, nat),
    bool,
);

/// The pairing of a finite point of the first group with one of the second.
pub uninterp spec fn pairing_value(px: nat, py: nat, qx: (nat, nat), qy: (nat, nat)) -> Seq<nat>;

/// The product of two elements of the degree twelve extension field.
pub uninterp spec fn gt_product(a: Seq<nat>, b: Seq<nat>) -> Seq<nat>;

/// The power `a^k` in the degree twelve extension field.
pub uninterp spec fn gt_power(a: Seq<nat>, k: nat) -> Seq<nat>;

/// The SHA-512 digest of a message.
pub uninterp spec fn sha512(message: Seq<u8>) -> Seq<u8>;

/// `Add` on `ark_ec`'s affine points of the first curve, and `into_affine` on
/// the result. Trusted: the canonical affine coordinates that come back are
/// the sum, and the sum of two points of the group is a point of the group.
#[verifier::external_body]
pub(crate) fn engine_g1_add(ax: &[u64; 6], ay: &[u64; 6], bx: &[u64; 6], by: &[u64; 6]) -> (r: (
    [u64; 6],
    [u64; 6],
    bool,
))
    requires
        limbs_value(ax@) < fp_modulus(),
        limbs_value(ay@) < fp_modulus(),
        limbs_value(bx@) < fp_modulus(),
        limbs_value(by@) < fp_modulus(),
    ensures
        (limbs_value(r.0@), limbs_value(r.1@), r.2) == g1_sum(
            limbs_value(ax@),
            limbs_value(ay@),
            limbs_value(bx@),
            limbs_value(by@),
        ),
        limbs_value(r.0@) < fp_modulus(),
        limbs_value(r.1@) < fp_modulus(),
        g1_finite_valid(limbs_value(ax@), limbs_value(ay@)) && g1_finite_valid(
            limbs_value(bx@),
            limbs_value(by@),
        ) && !r.2 ==> g1_finite_valid(limbs_value(r.0@), limbs_value(r.1@)),
{
    let f = |l: &[u64; 6]| Fq::from_bigint(BigInt(*l)).unwrap();
    let p = G1Affine::new_unchecked(f(ax), f(ay));
    let q = G1Affine::new_unchecked(f(bx), f(by));
    let s = (p + q).into_affine();
    (s.x.into_bigint().0, s.y.into_bigint().0, s.infinity)
}

/// `AffineRepr::mul_bigint` on a point of the first curve, and `into_affine`
/// on the result. Trusted: the coordinates that come back are the multiple,
/// and a multiple of a point of the group is a point of the group.
#[verifier::external_body]
pub(crate) fn engine_g1_mul(x: &[u64; 6], y: &[u64; 6], k: &[u64; 4]) -> (r: (
    [u64; 6],
    [u64; 6],
    bool,
))
    requires
        limbs_value(x@) < fp_modulus(),
        limbs_value(y@) < fp_modulus(),
    ensures
        (limbs_value(r.0@), limbs_value(r.1@), r.2) == g1_multiple(
            limbs_value(x@),
            limbs_value(y@),
            limbs_value(k@),
        ),
        limbs_value(r.0@) < fp_modulus(),
        limbs_value(r.1@) < fp_modulus(),
        g1_finite_valid(limbs_value(x@), limbs_value(y@)) && !r.2 ==> g1_finite_valid(
            limbs_value(r.0@),
            limbs_value(r.1@),
        ),
{
    let f = |l: &[u64; 6]| Fq::from_bigint(BigInt(*l)).unwrap();
    let s = G1Affine::new_unchecked(f(x), f(y)).mul_bigint(k).into_affine();
    (s.x.into_bigint().0, s.y.into_bigint().0, s.infinity)
}

/// `is_in_correct_subgroup_assuming_on_curve` on a point of the first curve,
/// which says of a point on the curve whether it lies in the subgroup of
/// order `r`. Trusted: that is so where `r` times the point, as
/// [`engine_g1_mul`] has it, is the point at infinity.
#[verifier::external_body]
pub(crate) fn engine_g1_in_subgroup(x: &[u64; 6], y: &[u64; 6]) -> (r: bool)
    requires
        limbs_value(x@) < fp_modulus(),
        limbs_value(y@) < fp_modulus(),
        g1_on_curve(limbs_value(x@), limbs_value(y@)),
    ensures
        r == g1_in_subgroup(limbs_value(x@), limbs_value(y@)),
{
    let f = |l: &[u64; 6]| Fq::from_bigint(BigInt(*l)).unwrap();
    G1Affine::new_unchecked(f(x), f(y)).is_in_correct_subgroup_assuming_on_curve()
}

/// `Neg` on `ark_ec`'s affine points of the first curve, which mirrors a
/// finite point: `(x, -y)`. The result is the mirrored `y`. Trusted beside
/// that: the mirror image of a point of the group is a point of the group.
#[verifier::external_body]
pub(crate) fn engine_g1_neg(x: &[u64; 6], y: &[u64; 6]) -> (r: [u64; 6])
    requires
        limbs_value(x@) < fp_modulus(),
        limbs_value(y@) < fp_modulus(),
    ensures
        limbs_value(r@) == mod_neg(limbs_value(y@), fp_modulus()),
        limbs_value(r@) < fp_modulus(),
        g1_finite_valid(limbs_value(x@), limbs_value(y@)) ==> g1_finite_valid(
            limbs_value(x@),
            limbs_value(r@),
        ),
{
    let f = |l: &[u64; 6]| Fq::from_bigint(BigInt(*l)).unwrap();
    (-G1Affine::new_unchecked(f(x), f(y))).y.into_bigint().0
}

/// `Add` on `ark_ec`'s affine points of the second curve, and `into_affine`
/// on the result. Trusted as [`engine_g1_add`] is.
#[verifier::external_body]
pub(crate) fn engine_g2_add(ax: &MclBnFp2, ay: &MclBnFp2, bx: &MclBnFp2, by: &MclBnFp2) -> (r: (
    MclBnFp2,
    MclBnFp2,
    bool,
))
    requires
        ax.canonical(),
        ay.canonical(),
        bx.canonical(),
        by.canonical(),
    ensures
        (r.0.value(), r.1.value(), r.2) == g2_sum(ax.value(), ay.value(), bx.value(), by.value()),
        r.0.canonical(),
        r.1.canonical(),
        g2_finite_valid(ax.value(), ay.value()) && g2_finite_valid(bx.value(), by.value()) && !r.2
            ==> g2_finite_valid(r.0.value(), r.1.value()),
{
    let f = |c: &MclBnFp2| Fq2::new(Fq::from_bigint(BigInt(c.d[0].d)).unwrap(), Fq::from_bigint(BigInt(c.d[1].d)).unwrap());
    let g = |c: Fq2| MclBnFp2 { d: [MclBnFp { d: c.c0.into_bigint().0 }, MclBnFp { d: c.c1.into_bigint().0 }] };
    let p = G2Affine::new_unchecked(f(ax), f(ay));
    let s = (p + G2Affine::new_unchecked(f(bx), f(by))).into_affine();
    (g(s.x), g(s.y), s.infinity)
}

/// `AffineRepr::mul_bigint` on a point of the second curve, and `into_affine`
/// on the result. Trusted as [`engine_g1_mul`] is.
#[verifier::external_body]
pub(crate) fn engine_g2_mul(x: &MclBnFp2, y: &MclBnFp2, k: &[u64; 4]) -> (r: (
    MclBnFp2,
    MclBnFp2,
    bool,
))
    requires
        x.canonical(),
        y.canonical(),
    ensures
        (r.0.value(), r.1.value(), r.2) == g2_multiple(x.value(), y.value(), limbs_value(k@)),
        r.0.canonical(),
        r.1.canonical(),
        g2_finite_valid(x.value(), y.value()) && !r.2 ==> g2_finite_valid(
            r.0.value(),
            r.1.value(),
        ),
{
    let f = |c: &MclBnFp2| Fq2::new(Fq::from_bigint(BigInt(c.d[0].d)).unwrap(), Fq::from_bigint(BigInt(c.d[1].d)).unwrap());
    let g = |c: Fq2| MclBnFp2 { d: [MclBnFp { d: c.c0.into_bigint().0 }, MclBnFp { d: c.c1.into_bigint().0 }] };
    let s = G2Affine::new_unchecked(f(x), f(y)).mul_bigint(k).into_affine();
    (g(s.x), g(s.y), s.infinity)
}

/// `is_in_correct_subgroup_assuming_on_curve` on a point of the second
/// curve. Trusted as [`engine_g1_in_subgroup`] is.
#[verifier::external_body]
pub(crate) fn engine_g2_in_subgroup(x: &MclBnFp2, y: &MclBnFp2) -> (r: bool)
    requires
        x.canonical(),
        y.canonical(),
        g2_on_curve(x.value(), y.value()),
    ensures
        r == g2_in_subgroup(x.value(), y.value()),
{
    let f = |c: &MclBnFp2| Fq2::new(Fq::from_bigint(BigInt(c.d[0].d)).unwrap(), Fq::from_bigint(BigInt(c.d[1].d)).unwrap());
    G2Affine::new_unchecked(f(x), f(y)).is_in_correct_subgroup_assuming_on_curve()
}

/// `Neg` on `ark_ec`'s affine points of the second curve: the mirrored `y`.
/// Trusted as [`engine_g1_neg`] is.
#[verifier::external_body]
pub(crate) fn engine_g2_neg(x: &MclBnFp2, y: &MclBnFp2) -> (r: MclBnFp2)
    requires
        x.canonical(),
        y.canonical(),
    ensures
        r.value() == fp2_neg(y.value()),
        r.canonical(),
        g2_finite_valid(x.value(), y.value()) ==> g2_finite_valid(x.value(), r.value()),
{
    let f = |c: &MclBnFp2| Fq2::new(Fq::from_bigint(BigInt(c.d[0].d)).unwrap(), Fq::from_bigint(BigInt(c.d[1].d)).unwrap());
    let s = -G2Affine::new_unchecked(f(x), f(y));
    MclBnFp2 { d: [MclBnFp { d: s.y.c0.into_bigint().0 }, MclBnFp { d: s.y.c1.into_bigint().0 }] }
}

/// `AffineRepr::clear_cofactor` on a point of the second curve.
#[verifier::external_body]
pub(crate) fn engine_g2_clear_cofactor(x: &MclBnFp2, y: &MclBnFp2) -> (r: (
    MclBnFp2,
    MclBnFp2,
    bool,
))
    requires
        x.canonical(),
        y.canonical(),
    ensures
        (r.0.value(), r.1.value(), r.2) == g2_cofactor_cleared(x.value(), y.value()),
        r.0.canonical(),
        r.1.canonical(),
{
    let f = |c: &MclBnFp2| Fq2::new(Fq::from_bigint(BigInt(c.d[0].d)).unwrap(), Fq::from_bigint(BigInt(c.d[1].d)).unwrap());
    let g = |c: Fq2| MclBnFp2 { d: [MclBnFp { d: c.c0.into_bigint().0 }, MclBnFp { d: c.c1.into_bigint().0 }] };
    let s = G2Affine::new_unchecked(f(x), f(y)).clear_cofactor();
    (g(s.x), g(s.y), s.infinity)
}

/// `Pairing::pairing` of `Bls12_381`. Trusted: the twelve canonical
/// coefficients that come back are the pairing of the two points, which is
/// an element of the target group.
#[verifier::external_body]
pub(crate) fn engine_pairing(px: &[u64; 6], py: &[u64; 6], qx: &MclBnFp2, qy: &MclBnFp2) -> (r:
    MclBnGT)
    requires
        g1_finite_valid(limbs_value(px@), limbs_value(py@)),
        g2_finite_valid(qx.value(), qy.value()),
    ensures
        r.value() == pairing_value(limbs_value(px@), limbs_value(py@), qx.value(), qy.value()),
        gt_canonical(r.value()),
        gt_valid(r.value()),
{
    let f = |l: &[u64; 6]| Fq::from_bigint(BigInt(*l)).unwrap();
    let p = G1Affine::new_unchecked(f(px), f(py));
    let q = G2Affine::new_unchecked(Fq2::new(f(&qx.d[0].d), f(&qx.d[1].d)), Fq2::new(f(&qy.d[0].d), f(&qy.d[1].d)));
    let mut out = MclBnGT { d: [MclBnFp { d: [0; 6] }; 12] };
    for (o, c) in out.d.iter_mut().zip(Bls12_381::pairing(p, q).0.to_base_prime_field_elements()) {
        o.d = c.into_bigint().0;
    }
    out
}

/// `Mul` on `ark_bls12_381::Fq12`. Trusted: the twelve canonical coefficients
/// that come back are the product, and the product of two elements of the
/// target group is an element of the group.
#[verifier::external_body]
pub(crate) fn engine_gt_mul(a: &MclBnGT, b: &MclBnGT) -> (r: MclBnGT)
    requires
        gt_canonical(a.value()),
        gt_canonical(b.value()),
    ensures
        r.value() == gt_product(a.value(), b.value()),
        gt_canonical(r.value()),
        gt_valid(a.value()) && gt_valid(b.value()) ==> gt_valid(r.value()),
{
    let f = |v: &MclBnGT| Fq12::from_base_prime_field_elems(v.d.iter().map(|c| Fq::from_bigint(BigInt(c.d)).unwrap())).unwrap();
    let mut out = *a;
    for (o, c) in out.d.iter_mut().zip((f(a) * f(b)).to_base_prime_field_elements()) {
        o.d = c.into_bigint().0;
    }
    out
}

/// `Field::pow` on `ark_bls12_381::Fq12`. Trusted: the twelve canonical
/// coefficients that come back are the power, and a power of an element of
/// the target group is an element of the group.
#[verifier::external_body]
pub(crate) fn engine_gt_pow(a: &MclBnGT, k: &[u64; 4]) -> (r: MclBnGT)
    requires
        gt_canonical(a.value()),
    ensures
        r.value() == gt_power(a.value(), limbs_value(k@)),
        gt_canonical(r.value()),
        gt_valid(a.value()) ==> gt_valid(r.value()),
{
    let x = Fq12::from_base_prime_field_elems(a.d.iter().map(|c| Fq::from_bigint(BigInt(c.d)).unwrap())).unwrap();
    let mut out = *a;
    for (o, c) in out.d.iter_mut().zip(x.pow(k).to_base_prime_field_elements()) {
        o.d = c.into_bigint().0;
    }
    out
}

/// `Sha512::digest` of the `sha2` crate: the 64 bytes of the digest.
#[verifier::external_body]
pub(crate) fn sha512_digest(message: &[u8]) -> (digest: Vec<u8>)
    ensures
        digest@ == sha512(message@),
        digest@.len() == 64,
{
    Sha512::digest(message).to_vec()
}

/// `getrandom::getrandom`, which asks the operating system for random bytes.
/// Nothing is known of the bytes but their number.
#[verifier::external_body]
pub(crate) fn os_random_bytes(n: usize) -> (r: Option<Vec<u8>>)
    ensures
        r is Some ==> r->0@.len() == n,
{
    let mut buffer = vec![0u8; n];
    getrandom::getrandom(&mut buffer).ok().map(|_| buffer)
}

} // verus!
