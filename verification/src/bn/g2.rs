//! The second group: the points of order `r` on `y^2 = x^3 + 4 (1 + i)` over
//! the extension field.
use vstd::prelude::*;
use vstd::std_specs::cmp::PartialEqSpecImpl;
use vstd::string::StringSliceAdditionalSpecFns;
use crate::bn::fp::{fp_euler, fp_root_candidate, Fp};
use crate::bn::fp2::{
    fp2_add, fp2_inv, fp2_mul, fp2_neg, fp2_norm, fp2_raw_decoding, fp2_raw_encoding,
    fp2_square_root, lemma_fp2_raw_roundtrip, Fp2,
};
use crate::bn::fr::Fr;
use crate::bn::g1::{hash_field, G1, HASH_AND_MAP_FAILED};
use crate::codec::lemma_le_bytes_len;
use crate::common::Base;
use crate::curve::{
    g2_add, g2_finite_valid, g2_identity, g2_mul, g2_neg, g2_on_curve, g2_point, g2_valid, Point2,
};
use crate::ffi::{
    engine_g2_add, engine_g2_clear_cofactor, engine_g2_in_subgroup, engine_g2_mul,
    engine_g2_neg, g2_cofactor_cleared, sha512, sha512_digest, MclBnFp2, MclBnG2,
};
use crate::limbs::limbs_value;
use crate::modular::{mod_add, mod_inv, mod_mul, mod_neg, mod_sub};
use crate::params::{fp_modulus, fp_modulus_limbs};
use crate::text::{
    ascii_string, format_list, lemma_list_roundtrip, limbs_values, list_text, list_value,
    parse_list,
};
use crate::traits::{Formattable, RawSerializable};

verus! {

/// A point of the second group, held in canonical affine coordinates.
#[derive(Debug, Clone, Copy)]
pub struct G2 {
    inner: MclBnG2,
}

impl View for G2 {
    type V = Point2;

    closed spec fn view(&self) -> Point2 {
        Point2 {
            x: self.inner.x.value(),
            y: self.inner.y.value(),
            infinity: self.inner.z.value().0 == 0,
        }
    }
}

/// The right-hand side of the curve equation, `x^3 + 4 (1 + i)`.
pub open spec fn g2_rhs(x: (nat, nat)) -> (nat, nat) {
    fp2_add(fp2_mul(fp2_mul(x, x), x), (4nat, 4nat))
}

/// An element with a base field element added to its real coordinate.
pub open spec fn fp2_add_real(a: (nat, nat), k: nat) -> (nat, nat) {
    (mod_add(a.0, k, fp_modulus()), a.1)
}

/// An element with both coordinates multiplied by a base field element.
pub open spec fn fp2_scale(a: (nat, nat), k: nat) -> (nat, nat) {
    (mod_mul(a.0, k, fp_modulus()), mod_mul(a.1, k, fp_modulus()))
}

/// What `t^2 + 4 (1 + i) + 1` is, the denominator in the map to the curve.
pub open spec fn g2_map_denominator(t: (nat, nat)) -> (nat, nat) {
    fp2_add_real(fp2_add(fp2_mul(t, t), (4nat, 4nat)), 1)
}

/// The three abscissas that the map to the curve tries for `t`, in the order
/// in which it tries them. With `s` the root candidate of `-3` in the base
/// field and `w = s t / (t^2 + 4 (1 + i) + 1)`, they are
/// `(s - 1) / 2 - t w`, the negative of that less one, and `1 + 1 / w^2`.
pub open spec fn g2_map_candidates(t: (nat, nat)) -> ((nat, nat), (nat, nat), (nat, nat)) {
    let p = fp_modulus();
    let s = fp_root_candidate(mod_neg(3, p));
    let w = fp2_mul(fp2_scale(fp2_inv(g2_map_denominator(t)), s), t);
    let first = fp2_add_real(
        fp2_neg(fp2_mul(t, w)),
        mod_mul(mod_sub(s, 1, p), mod_inv(2, p), p),
    );
    let second = (mod_sub(fp2_neg(first).0, 1, p), fp2_neg(first).1);
    let third = fp2_add_real(fp2_inv(fp2_mul(w, w)), 1);
    (first, second, third)
}

/// The ordinate that the map to the curve picks over the abscissa `x`: the
/// square root of the right-hand side, negated where the norm of `t` is no
/// square.
pub open spec fn g2_map_ordinate(t: (nat, nat), x: (nat, nat)) -> Option<(nat, nat)> {
    match fp2_square_root(g2_rhs(x)) {
        Some(y) => Some(
            if fp_euler(fp2_norm(t)) == fp_modulus() - 1 {
                fp2_neg(y)
            } else {
                y
            },
        ),
        None => None,
    }
}

/// The point to which an element of the extension field is mapped: the first
/// of the three candidates over which a square root is found. There is none
/// for zero, nor where the denominator is zero.
pub open spec fn g2_map(t: (nat, nat)) -> Option<((nat, nat), (nat, nat))> {
    let c = g2_map_candidates(t);
    if t == (0nat, 0nat) || g2_map_denominator(t) == (0nat, 0nat) {
        None
    } else if g2_map_ordinate(t, c.0) is Some {
        Some((c.0, g2_map_ordinate(t, c.0)->0))
    } else if g2_map_ordinate(t, c.1) is Some {
        Some((c.1, g2_map_ordinate(t, c.1)->0))
    } else if g2_map_ordinate(t, c.2) is Some {
        Some((c.2, g2_map_ordinate(t, c.2)->0))
    } else {
        None
    }
}

/// The point of the second group that a digest gives: the digest as a real
/// element of the extension field, mapped to the curve and cleared of the
/// cofactor. There is none for a digest of fewer than 48 bytes, where the map
/// gives up, and where what is left after clearing is the point at infinity
/// or no point of the group: a digest never gives the point at infinity.
pub open spec fn g2_of_digest(digest: Seq<u8>) -> Result<Point2, i32> {
    if digest.len() < 48 {
        Err(HASH_AND_MAP_FAILED)
    } else {
        match g2_map((hash_field(digest), 0nat)) {
            Some((x, y)) => {
                let q = g2_cofactor_cleared(x, y);
                if !q.2 && g2_finite_valid(q.0, q.1) {
                    Ok(Point2 { x: q.0, y: q.1, infinity: false })
                } else {
                    Err(HASH_AND_MAP_FAILED)
                }
            },
            None => Err(HASH_AND_MAP_FAILED),
        }
    }
}

/// What hashing a message to the second group gives: the point that its
/// SHA-512 digest gives.
pub open spec fn g2_hash(message: Seq<u8>) -> Result<Point2, i32> {
    g2_of_digest(sha512(message))
}

/// The raw encoding of a point: `x`, then `y`, 96 bytes each. The point at
/// infinity is all zeros.
pub open spec fn g2_raw_encoding(p: Point2) -> Seq<u8> {
    fp2_raw_encoding(p.x) + fp2_raw_encoding(p.y)
}

/// The point that the first 192 bytes encode, if they encode one: canonical
/// coordinates that are all zero, or that give a point of the group.
pub open spec fn g2_raw_decoding(bytes: Seq<u8>) -> Option<(Point2, nat)> {
    if bytes.len() >= 192 {
        match (fp2_raw_decoding(bytes.subrange(0, 96)), fp2_raw_decoding(bytes.subrange(96, 192))) {
            (Some((x, _)), Some((y, _))) => if x == (0nat, 0nat) && y == (0nat, 0nat) {
                Some((g2_identity(), 192nat))
            } else if g2_finite_valid(x, y) {
                Some((Point2 { x, y, infinity: false }, 192nat))
            } else {
                None
            },
            _ => None,
        }
    } else {
        None
    }
}

/// The text of a point: `0` for the point at infinity, else `1` and the four
/// coordinates, real before imaginary and `x` before `y`, with one space
/// between neighbours.
pub open spec fn g2_text_of(p: Point2, base: Base) -> Seq<u8> {
    if p.infinity {
        seq![48u8]
    } else {
        seq![49u8, 32u8] + list_text(seq![p.x.0, p.x.1, p.y.0, p.y.1], base.number())
    }
}

/// The point that a text denotes, if it denotes one.
pub open spec fn g2_value_of_text(text: Seq<u8>, base: Base) -> Option<Point2> {
    if text == seq![48u8] {
        Some(g2_identity())
    } else if text.len() >= 2 && text[0] == 49 && text[1] == 32 {
        match list_value(text.skip(2), 4, base.number(), fp_modulus()) {
            Some(vs) => if g2_finite_valid((vs[0], vs[1]), (vs[2], vs[3])) {
                Some(Point2 { x: (vs[0], vs[1]), y: (vs[2], vs[3]), infinity: false })
            } else {
                None
            },
            None => None,
        }
    } else {
        None
    }
}

impl G2 {
    /// Whether the point is an element of the group. Every point that this
    /// library hands out is.
    pub open spec fn wf(&self) -> bool {
        g2_valid(self@)
    }

    #[verifier::type_invariant]
    closed spec fn valid(self) -> bool {
        &&& g2_valid(self@)
        &&& self.inner.x.canonical()
        &&& self.inner.y.canonical()
        &&& self.inner.z.value().0 <= 1
        &&& self.inner.z.value().1 == 0
    }

    /// The point at infinity.
    pub fn identity() -> (r: G2)
        ensures
            r@ == g2_identity(),
            r.wf(),
    {
        let zero: MclBnFp2 = Fp2::default().storage();
        G2 { inner: MclBnG2 { x: zero, y: zero, z: zero } }
    }

    /// The finite point with the given coordinates.
    fn finite(x: &MclBnFp2, y: &MclBnFp2) -> (r: G2)
        requires
            g2_finite_valid(x.value(), y.value()),
        ensures
            r@ == (Point2 { x: x.value(), y: y.value(), infinity: false }),
            r.wf(),
    {
        let one: MclBnFp2 = Fp2::from_parts(Fp::from_u64(1), Fp::default()).storage();
        G2 { inner: MclBnG2 { x: *x, y: *y, z: one } }
    }

    /// The point that an answer of the engine stands for.
    fn from_engine(r: &(MclBnFp2, MclBnFp2, bool)) -> (p: G2)
        requires
            !r.2 ==> g2_finite_valid(r.0.value(), r.1.value()),
        ensures
            p@ == g2_point((r.0.value(), r.1.value(), r.2)),
            p.wf(),
    {
        if r.2 {
            G2::identity()
        } else {
            G2::finite(&r.0, &r.1)
        }
    }

    /// The coordinates of a finite point.
    pub(crate) fn coordinates(&self) -> (r: (MclBnFp2, MclBnFp2))
        requires
            !self@.infinity,
        ensures
            r.0.value() == self@.x,
            r.1.value() == self@.y,
            g2_finite_valid(self@.x, self@.y),
    {
        proof {
            use_type_invariant(self);
        }
        (self.inner.x, self.inner.y)
    }

    /// Whether this is the point at infinity.
    pub fn is_zero(&self) -> (r: bool)
        ensures
            r == self@.infinity,
    {
        crate::limbs::is_zero(&self.inner.z.d[0].d)
    }

    /// Sets the point to the point at infinity.
    pub fn clear(&mut self)
        ensures
            final(self)@ == g2_identity(),
            final(self).wf(),
    {
        *self = G2::identity();
    }

    /// The sum of two points.
    pub fn add(&self, other: &G2) -> (r: G2)
        ensures
            r@ == g2_add(self@, other@),
            r.wf(),
    {
        proof {
            use_type_invariant(self);
            use_type_invariant(other);
        }
        if self.is_zero() {
            *other
        } else if other.is_zero() {
            *self
        } else {
            let sum = engine_g2_add(&self.inner.x, &self.inner.y, &other.inner.x, &other.inner.y);
            G2::from_engine(&sum)
        }
    }

    /// The negative of the point.
    pub fn neg(&self) -> (r: G2)
        ensures
            r@ == g2_neg(self@),
            r.wf(),
    {
        proof {
            use_type_invariant(self);
        }
        if self.is_zero() {
            *self
        } else {
            let y: MclBnFp2 = engine_g2_neg(&self.inner.x, &self.inner.y);
            G2::finite(&self.inner.x, &y)
        }
    }

    /// The difference of two points: the first plus the negative of the second.
    pub fn sub(&self, other: &G2) -> (r: G2)
        ensures
            r@ == g2_add(self@, g2_neg(other@)),
            r.wf(),
    {
        self.add(&other.neg())
    }

    /// The double of the point: the point plus itself.
    pub fn dbl(&self) -> (r: G2)
        ensures
            r@ == g2_add(self@, self@),
            r.wf(),
    {
        self.add(self)
    }

    /// The multiple of the point by a scalar.
    pub fn mul(&self, other: &Fr) -> (r: G2)
        ensures
            r@ == g2_mul(self@, other@),
            r.wf(),
    {
        proof {
            use_type_invariant(self);
        }
        if self.is_zero() || other.is_zero() {
            G2::identity()
        } else {
            let k: [u64; 4] = other.limbs();
            let product = engine_g2_mul(&self.inner.x, &self.inner.y, &k);
            G2::from_engine(&product)
        }
    }

    /// Whether canonical coordinates satisfy the curve equation.
    fn on_curve(x: &Fp2, y: &Fp2) -> (r: bool)
        ensures
            r == g2_on_curve(x@, y@),
    {
        let b: Fp2 = Fp2::from_parts(Fp::from_u64(4), Fp::from_u64(4));
        y.sqr() == x.sqr().mul(x).add(&b)
    }

    /// The affine coordinates of the point; none for the point at infinity.
    pub fn to_affine(&self) -> (r: Option<(Fp2, Fp2)>)
        ensures
            match r {
                Some((x, y)) => !self@.infinity && x@ == self@.x && y@ == self@.y,
                None => self@.infinity,
            },
    {
        proof {
            use_type_invariant(self);
        }
        if self.is_zero() {
            None
        } else {
            Some((Fp2::from_storage(self.inner.x), Fp2::from_storage(self.inner.y)))
        }
    }

    /// The finite point with the given affine coordinates, if they are those
    /// of a point of the group: on the curve, and in the subgroup of order `r`.
    pub fn from_affine(x: &Fp2, y: &Fp2) -> (r: Option<G2>)
        ensures
            match r {
                Some(p) => g2_finite_valid(x@, y@) && p@ == (Point2 {
                    x: x@,
                    y: y@,
                    infinity: false,
                }) && p.wf(),
                None => !g2_finite_valid(x@, y@),
            },
    {
        let xs: MclBnFp2 = x.storage();
        let ys: MclBnFp2 = y.storage();
        if G2::on_curve(x, y) && engine_g2_in_subgroup(&xs, &ys) {
            Some(G2::finite(&xs, &ys))
        } else {
            None
        }
    }

    /// The ordinate over `x`; see [`g2_map_ordinate`].
    fn map_ordinate(t: &Fp2, x: &Fp2) -> (r: Option<Fp2>)
        ensures
            match g2_map_ordinate(t@, x@) {
                Some(y) => r is Some && r->0@ == y,
                None => r is None,
            },
    {
        let b: Fp2 = Fp2::from_parts(Fp::from_u64(4), Fp::from_u64(4));
        match x.sqr().mul(x).add(&b).square_root() {
            Some(y) => {
                let minus_one: Fp = Fp::from_u64(1).neg();
                proof {
                    vstd::arithmetic::div_mod::lemma_fundamental_div_mod_converse(
                        -1,
                        fp_modulus() as int,
                        -1,
                        fp_modulus() - 1,
                    );
                }
                if t.norm().euler() == minus_one {
                    Some(y.neg())
                } else {
                    Some(y)
                }
            },
            None => None,
        }
    }

    /// Maps an element of the extension field to a point of the curve, which
    /// need not lie in the group; see [`g2_map`].
    pub fn map_to_curve(t: &Fp2) -> (r: Option<(Fp2, Fp2)>)
        ensures
            match r {
                Some((x, y)) => g2_map(t@) == Some((x@, y@)),
                None => g2_map(t@) is None,
            },
    {
        let one: Fp = Fp::from_u64(1);
        let b: Fp2 = Fp2::from_parts(Fp::from_u64(4), Fp::from_u64(4));
        let sum: Fp2 = t.sqr().add(&b);
        let denominator: Fp2 = Fp2::from_parts(sum.re().add(&one), sum.im());
        if t.is_zero() || denominator.is_zero() {
            return None;
        }
        let s: Fp = Fp::from_u64(3).neg().root_candidate();
        let inverse: Fp2 = denominator.inv();
        let w: Fp2 = Fp2::from_parts(inverse.re().mul(&s), inverse.im().mul(&s)).mul(t);
        let shift: Fp = s.sub(&one).mul(&Fp::from_u64(2).inv());
        let product: Fp2 = t.mul(&w).neg();
        let first: Fp2 = Fp2::from_parts(product.re().add(&shift), product.im());
        let mirrored: Fp2 = first.neg();
        let second: Fp2 = Fp2::from_parts(mirrored.re().sub(&one), mirrored.im());
        let reciprocal: Fp2 = w.sqr().inv();
        let third: Fp2 = Fp2::from_parts(reciprocal.re().add(&one), reciprocal.im());
        match G2::map_ordinate(t, &first) {
            Some(y) => {
                return Some((first, y));
            },
            None => {},
        }
        match G2::map_ordinate(t, &second) {
            Some(y) => {
                return Some((second, y));
            },
            None => {},
        }
        match G2::map_ordinate(t, &third) {
            Some(y) => Some((third, y)),
            None => None,
        }
    }

    /// Hashes a message to a point of the group: the point that the SHA-512
    /// digest of the message gives, as [`G2::map_digest`] has it. What comes
    /// back with success is never the point at infinity.
    pub fn hash_and_map(buf: &[u8]) -> (r: Result<G2, i32>)
        ensures
            match g2_hash(buf@) {
                Ok(p) => r is Ok && r->Ok_0@ == p && r->Ok_0.wf(),
                Err(status) => r == Err::<G2, i32>(status),
            },
            r is Ok ==> !r->Ok_0@.infinity,
    {
        let digest: Vec<u8> = sha512_digest(buf);
        G2::map_digest(digest.as_slice())
    }

    /// Maps a digest to a point of the group. The digest is read as a real
    /// element of the extension field, mapped to the curve and cleared of
    /// the cofactor. The status is [`HASH_AND_MAP_FAILED`] for a digest of
    /// fewer than 48 bytes, for the very few elements on which the map
    /// gives up, and where what is left after clearing is the point at
    /// infinity: what comes back with success is never the point at infinity.
    pub fn map_digest(digest: &[u8]) -> (r: Result<G2, i32>)
        ensures
            match g2_of_digest(digest@) {
                Ok(p) => r is Ok && r->Ok_0@ == p && r->Ok_0.wf(),
                Err(status) => r == Err::<G2, i32>(status),
            },
            r is Ok ==> !r->Ok_0@.infinity,
    {
        if digest.len() < 48 {
            return Err(HASH_AND_MAP_FAILED);
        }
        let t: Fp2 = Fp2::from_parts(G1::field_of_digest(digest), Fp::default());
        let (x, y) = match G2::map_to_curve(&t) {
            Some(point) => point,
            None => {
                return Err(HASH_AND_MAP_FAILED);
            },
        };
        let xs: MclBnFp2 = x.storage();
        let ys: MclBnFp2 = y.storage();
        let q = engine_g2_clear_cofactor(&xs, &ys);
        if q.2 {
            return Err(HASH_AND_MAP_FAILED);
        }
        match G2::from_affine(&Fp2::from_storage(q.0), &Fp2::from_storage(q.1)) {
            Some(p) => Ok(p),
            None => Err(HASH_AND_MAP_FAILED),
        }
    }

    /// The raw encoding of the point.
    pub fn serialize(&self) -> (out: Vec<u8>)
        ensures
            out@ == g2_raw_encoding(self@),
    {
        proof {
            use_type_invariant(self);
        }
        let mut out: Vec<u8> = Fp2::from_storage(self.inner.x).serialize();
        let mut tail: Vec<u8> = Fp2::from_storage(self.inner.y).serialize();
        out.append(&mut tail);
        out
    }

    /// Reads a point from the first 192 bytes of `bytes`. Fails where there
    /// are fewer, where a coordinate is not below the modulus, and where the
    /// coordinates are neither all zero nor those of a point of the group.
    pub fn deserialize(bytes: &[u8]) -> (r: Result<G2, ()>)
        ensures
            match g2_raw_decoding(bytes@) {
                Some((p, n)) => r is Ok && r->Ok_0@ == p && r->Ok_0.wf(),
                None => r is Err,
            },
    {
        if bytes.len() < 192 {
            return Err(());
        }
        let front: &[u8] = vstd::slice::slice_subrange(bytes, 0, 96);
        let back: &[u8] = vstd::slice::slice_subrange(bytes, 96, 192);
        match (Fp2::deserialize(front), Fp2::deserialize(back)) {
            (Ok(x), Ok(y)) => {
                if x.is_zero() && y.is_zero() {
                    Ok(G2::identity())
                } else {
                    match G2::from_affine(&x, &y) {
                        Some(p) => Ok(p),
                        None => Err(()),
                    }
                }
            },
            _ => Err(()),
        }
    }

    /// Reads a point from its text. Fails where the text is neither `0` nor
    /// `1` and four coordinates with one space between neighbours, and where
    /// the coordinates are not those of a point of the group.
    pub fn from_str(buffer: &str, io_mode: Base) -> (r: Result<G2, ()>)
        ensures
            match g2_value_of_text(buffer.spec_bytes(), io_mode) {
                Some(p) => r is Ok && r->Ok_0@ == p && r->Ok_0.wf(),
                None => r is Err,
            },
    {
        let text: &[u8] = buffer.as_bytes();
        if text.len() == 1 && text[0] == 48 {
            proof {
                assert(text@ =~= seq![48u8]);
            }
            return Ok(G2::identity());
        }
        if text.len() < 2 || text[0] != 49 || text[1] != 32 {
            return Err(());
        }
        let rest: &[u8] = vstd::slice::slice_subrange(text, 2, text.len());
        proof {
            assert(rest@ =~= text@.skip(2));
        }
        let m: [u64; 6] = fp_modulus_limbs();
        match parse_list(rest, 4, io_mode.radix(), &m) {
            Some(vs) => {
                proof {
                    assert(limbs_values(vs@)[0] == limbs_value(vs@[0]@));
                    assert(limbs_values(vs@)[1] == limbs_value(vs@[1]@));
                    assert(limbs_values(vs@)[2] == limbs_value(vs@[2]@));
                    assert(limbs_values(vs@)[3] == limbs_value(vs@[3]@));
                }
                let x: Fp2 = Fp2::from_parts(Fp::from_limbs(vs[0]), Fp::from_limbs(vs[1]));
                let y: Fp2 = Fp2::from_parts(Fp::from_limbs(vs[2]), Fp::from_limbs(vs[3]));
                match G2::from_affine(&x, &y) {
                    Some(p) => Ok(p),
                    None => Err(()),
                }
            },
            None => Err(()),
        }
    }
}

impl Default for G2 {
    /// The point at infinity.
    fn default() -> (r: G2)
        ensures
            r@ == g2_identity(),
            r.wf(),
    {
        G2::identity()
    }
}

impl PartialEq for G2 {
    fn eq(&self, other: &G2) -> (r: bool) {
        proof {
            use_type_invariant(self);
            use_type_invariant(other);
        }
        let same_kind: bool = self.is_zero() == other.is_zero();
        let same_x: bool = Fp2::from_storage(self.inner.x) == Fp2::from_storage(other.inner.x);
        let same_y: bool = Fp2::from_storage(self.inner.y) == Fp2::from_storage(other.inner.y);
        same_kind && same_x && same_y
    }
}

impl Eq for G2 {

}

impl PartialEqSpecImpl for G2 {
    open spec fn obeys_eq_spec() -> bool {
        true
    }

    open spec fn eq_spec(&self, other: &G2) -> bool {
        self@ == other@
    }
}

impl RawSerializable for G2 {
    open spec fn raw_encoding(v: Point2) -> Seq<u8> {
        g2_raw_encoding(v)
    }

    open spec fn raw_decoding(bytes: Seq<u8>) -> Option<(Point2, nat)> {
        g2_raw_decoding(bytes)
    }

    fn serialize_raw(&self) -> (r: Result<Vec<u8>, ()>) {
        Ok(self.serialize())
    }

    fn deserialize_raw(&mut self, bytes: &[u8]) -> (r: Result<usize, ()>) {
        match G2::deserialize(bytes) {
            Ok(v) => {
                *self = v;
                Ok(192)
            },
            Err(e) => Err(e),
        }
    }
}

impl Formattable for G2 {
    open spec fn text_of(v: Point2, base: Base) -> Seq<u8> {
        g2_text_of(v, base)
    }

    open spec fn value_of_text(text: Seq<u8>, base: Base) -> Option<Point2> {
        g2_value_of_text(text, base)
    }

    fn set_str(&mut self, buffer: &str, io_mode: Base) -> (r: Result<(), ()>) {
        match G2::from_str(buffer, io_mode) {
            Ok(v) => {
                *self = v;
                Ok(())
            },
            Err(e) => Err(e),
        }
    }

    fn get_str(&self, io_mode: Base) -> (s: String) {
        proof {
            use_type_invariant(self);
        }
        let mut out: Vec<u8> = Vec::new();
        if self.is_zero() {
            out.push(48u8);
            proof {
                assert(out@ =~= seq![48u8]);
            }
        } else {
            out.push(49u8);
            out.push(32u8);
            let mut coordinates: Vec<[u64; 6]> = Vec::new();
            coordinates.push(self.inner.x.d[0].d);
            coordinates.push(self.inner.x.d[1].d);
            coordinates.push(self.inner.y.d[0].d);
            coordinates.push(self.inner.y.d[1].d);
            let mut digits: Vec<u8> = format_list(&coordinates, io_mode.radix());
            proof {
                let p = self@;
                assert(limbs_values(coordinates@) =~= seq![p.x.0, p.x.1, p.y.0, p.y.1]);
                lemma_list_roundtrip(
                    seq![p.x.0, p.x.1, p.y.0, p.y.1],
                    io_mode.number(),
                    fp_modulus(),
                );
            }
            out.append(&mut digits);
        }
        ascii_string(out.as_slice())
    }
}

/// The origin is not on the curve, so that it can stand for the point at infinity.
pub proof fn lemma_g2_origin_off_curve()
    ensures
        !g2_on_curve((0nat, 0nat), (0nat, 0nat)),
{
    let p = fp_modulus();
    vstd::arithmetic::div_mod::lemma_small_mod(0, p);
    vstd::arithmetic::div_mod::lemma_small_mod(4, p);
    assert(mod_mul(0, 0, p) == 0);
    assert(mod_sub(0, 0, p) == 0);
    assert(mod_add(0, 0, p) == 0);
    assert(mod_add(0, 4, p) == 4);
    assert(fp2_mul((0nat, 0nat), (0nat, 0nat)) == (0nat, 0nat));
}

/// Decoding the raw encoding of a point of the group gives the point back.
pub proof fn lemma_g2_raw_roundtrip(p: Point2)
    requires
        g2_valid(p),
    ensures
        g2_raw_decoding(g2_raw_encoding(p)) == Some((p, 192nat)),
{
    let s = g2_raw_encoding(p);
    lemma_le_bytes_len(p.x.0, 48);
    lemma_le_bytes_len(p.x.1, 48);
    lemma_le_bytes_len(p.y.0, 48);
    lemma_le_bytes_len(p.y.1, 48);
    assert(s.subrange(0, 96) =~= fp2_raw_encoding(p.x));
    assert(s.subrange(96, 192) =~= fp2_raw_encoding(p.y));
    lemma_fp2_raw_roundtrip(p.x);
    lemma_fp2_raw_roundtrip(p.y);
    if !p.infinity {
        lemma_g2_origin_off_curve();
    }
}

/// Reading the text of a point of the group gives the point back.
pub proof fn lemma_g2_text_roundtrip(p: Point2, base: Base)
    requires
        g2_valid(p),
    ensures
        g2_value_of_text(g2_text_of(p, base), base) == Some(p),
{
    if !p.infinity {
        let coordinates = seq![p.x.0, p.x.1, p.y.0, p.y.1];
        let list = list_text(coordinates, base.number());
        let text = g2_text_of(p, base);
        lemma_list_roundtrip(coordinates, base.number(), fp_modulus());
        assert(text.skip(2) =~= list);
        assert(text[0] == 49 && text[1] == 32);
        assert(text != seq![48u8]) by {
            assert(text[0] != seq![48u8][0]);
        }
    }
}

} // verus!
