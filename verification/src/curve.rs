//! The two curves and the target group as mathematical objects: what a point
//! is, when it is valid, and what the group operations give.
//!
//! The group law itself is the curve engine's: the sums, multiples and
//! pairings of finite points are the named results of [`crate::ffi`]. What is
//! decided here, around them, is the part that needs no engine: the point at
//! infinity is the neutral element, and nothing times a point is the neutral
//! element.
use vstd::prelude::*;
use crate::bn::fp2::{fp2_add, fp2_mul, fp2_neg};
use crate::ffi::{
    g1_multiple, g1_sum, g2_multiple, g2_sum, gt_power, gt_product, pairing_value,
};
use crate::modular::{lemma_neg_neg, mod_add, mod_mul, mod_neg};
use crate::params::{fp_modulus, fr_modulus};

verus! {

/// A point of the first curve, `y^2 = x^3 + 4` over the base field, in affine
/// coordinates. The point at infinity has both coordinates zero.
pub struct Point1 {
    pub x: nat,
    pub y: nat,
    pub infinity: bool,
}

/// A point of the second curve, `y^2 = x^3 + 4 (1 + i)` over the extension
/// field, in affine coordinates. The point at infinity has both coordinates zero.
pub struct Point2 {
    pub x: (nat, nat),
    pub y: (nat, nat),
    pub infinity: bool,
}

/// The point at infinity of the first curve.
pub open spec fn g1_identity() -> Point1 {
    Point1 { x: 0, y: 0, infinity: true }
}

/// The point at infinity of the second curve.
pub open spec fn g2_identity() -> Point2 {
    Point2 { x: (0, 0), y: (0, 0), infinity: true }
}

/// The equation of the first curve.
pub open spec fn g1_on_curve(x: nat, y: nat) -> bool {
    mod_mul(y, y, fp_modulus()) == mod_add(
        mod_mul(mod_mul(x, x, fp_modulus()), x, fp_modulus()),
        4,
        fp_modulus(),
    )
}

/// The equation of the second curve.
pub open spec fn g2_on_curve(x: (nat, nat), y: (nat, nat)) -> bool {
    fp2_mul(y, y) == fp2_add(fp2_mul(fp2_mul(x, x), x), (4nat, 4nat))
}

/// Whether a point of the first curve lies in the subgroup of order `r`:
/// whether `r` times the point is the point at infinity.
pub open spec fn g1_in_subgroup(x: nat, y: nat) -> bool {
    g1_multiple(x, y, fr_modulus()).2
}

/// Whether a point of the second curve lies in the subgroup of order `r`:
/// whether `r` times the point is the point at infinity.
pub open spec fn g2_in_subgroup(x: (nat, nat), y: (nat, nat)) -> bool {
    g2_multiple(x, y, fr_modulus()).2
}

/// Whether canonical coordinates give a point of the first group: on the
/// curve, and in the subgroup of order `r`.
pub open spec fn g1_finite_valid(x: nat, y: nat) -> bool {
    &&& x < fp_modulus()
    &&& y < fp_modulus()
    &&& g1_on_curve(x, y)
    &&& g1_in_subgroup(x, y)
}

/// Whether canonical coordinates give a point of the second group.
pub open spec fn g2_finite_valid(x: (nat, nat), y: (nat, nat)) -> bool {
    &&& x.0 < fp_modulus()
    &&& x.1 < fp_modulus()
    &&& y.0 < fp_modulus()
    &&& y.1 < fp_modulus()
    &&& g2_on_curve(x, y)
    &&& g2_in_subgroup(x, y)
}

/// Whether `p` is an element of the first group.
pub open spec fn g1_valid(p: Point1) -> bool {
    if p.infinity {
        p.x == 0 && p.y == 0
    } else {
        g1_finite_valid(p.x, p.y)
    }
}

/// Whether `p` is an element of the second group.
pub open spec fn g2_valid(p: Point2) -> bool {
    if p.infinity {
        p.x == (0nat, 0nat) && p.y == (0nat, 0nat)
    } else {
        g2_finite_valid(p.x, p.y)
    }
}

/// The point that an engine result stands for.
pub open spec fn g1_point(r: (nat, nat, bool)) -> Point1 {
    if r.2 {
        g1_identity()
    } else {
        Point1 { x: r.0, y: r.1, infinity: false }
    }
}

/// The point that an engine result stands for.
pub open spec fn g2_point(r: ((nat, nat), (nat, nat), bool)) -> Point2 {
    if r.2 {
        g2_identity()
    } else {
        Point2 { x: r.0, y: r.1, infinity: false }
    }
}

/// The sum of two points of the first curve.
pub open spec fn g1_add(a: Point1, b: Point1) -> Point1 {
    if a.infinity {
        b
    } else if b.infinity {
        a
    } else {
        g1_point(g1_sum(a.x, a.y, b.x, b.y))
    }
}

/// The negative of a point of the first curve: its mirror image, `(x, -y)`.
pub open spec fn g1_neg(a: Point1) -> Point1 {
    if a.infinity {
        a
    } else {
        Point1 { x: a.x, y: mod_neg(a.y, fp_modulus()), infinity: false }
    }
}

/// The multiple `k a` of a point of the first curve.
pub open spec fn g1_mul(a: Point1, k: nat) -> Point1 {
    if a.infinity || k == 0 {
        g1_identity()
    } else {
        g1_point(g1_multiple(a.x, a.y, k))
    }
}

/// The sum of two points of the second curve.
pub open spec fn g2_add(a: Point2, b: Point2) -> Point2 {
    if a.infinity {
        b
    } else if b.infinity {
        a
    } else {
        g2_point(g2_sum(a.x, a.y, b.x, b.y))
    }
}

/// The negative of a point of the second curve: its mirror image, `(x, -y)`.
pub open spec fn g2_neg(a: Point2) -> Point2 {
    if a.infinity {
        a
    } else {
        Point2 { x: a.x, y: fp2_neg(a.y), infinity: false }
    }
}

/// The multiple `k a` of a point of the second curve.
pub open spec fn g2_mul(a: Point2, k: nat) -> Point2 {
    if a.infinity || k == 0 {
        g2_identity()
    } else {
        g2_point(g2_multiple(a.x, a.y, k))
    }
}

/// The neutral element of the target group: the one of the degree twelve
/// extension, with coefficients `1, 0, ..., 0`.
pub open spec fn gt_identity() -> Seq<nat> {
    Seq::new(12, |i: int| if i == 0 { 1nat } else { 0nat })
}

/// Whether `a` lists twelve canonical coefficients.
pub open spec fn gt_canonical(a: Seq<nat>) -> bool {
    &&& a.len() == 12
    &&& forall|i: int| 0 <= i < 12 ==> (#[trigger] a[i]) < fp_modulus()
}

/// Whether `a` is an element of the target group: the neutral element, or
/// twelve canonical coefficients of an element whose power with the group
/// order `r` is the neutral element.
pub open spec fn gt_valid(a: Seq<nat>) -> bool {
    a == gt_identity() || (gt_canonical(a) && gt_power(a, fr_modulus()) == gt_identity())
}

/// An element of the target group has twelve canonical coefficients.
pub proof fn lemma_gt_valid_is_canonical(a: Seq<nat>)
    requires
        gt_valid(a),
    ensures
        gt_canonical(a),
{
}

/// The product of two elements of the target group.
pub open spec fn gt_mul(a: Seq<nat>, b: Seq<nat>) -> Seq<nat> {
    gt_product(a, b)
}

/// The power `a^k` of an element of the target group.
pub open spec fn gt_pow(a: Seq<nat>, k: nat) -> Seq<nat> {
    gt_power(a, k)
}

/// The pairing of a point of the first group with one of the second. A
/// pairing with the point at infinity is the neutral element.
pub open spec fn pairing(p: Point1, q: Point2) -> Seq<nat> {
    if p.infinity || q.infinity {
        gt_identity()
    } else {
        pairing_value(p.x, p.y, q.x, q.y)
    }
}

/// The point at infinity is neutral in the first group, on either side.
pub proof fn lemma_g1_identity_neutral(a: Point1)
    requires
        g1_valid(a),
    ensures
        g1_add(a, g1_identity()) == a,
        g1_add(g1_identity(), a) == a,
{
}

/// The negative of the negative of a point is the point itself, on either curve.
pub proof fn lemma_neg_is_an_involution(a: Point1, b: Point2)
    requires
        g1_valid(a),
        g2_valid(b),
    ensures
        g1_neg(g1_neg(a)) == a,
        g2_neg(g2_neg(b)) == b,
{
    lemma_neg_neg(a.y, fp_modulus());
    lemma_neg_neg(b.y.0, fp_modulus());
    lemma_neg_neg(b.y.1, fp_modulus());
}

/// The point at infinity is neutral in the second group, on either side.
pub proof fn lemma_g2_identity_neutral(a: Point2)
    requires
        g2_valid(a),
    ensures
        g2_add(a, g2_identity()) == a,
        g2_add(g2_identity(), a) == a,
{
}

} // verus!
