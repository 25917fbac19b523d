//! The first group: the points of order `r` on `y^2 = x^3 + 4` over the base field.
use vstd::prelude::*;
use vstd::arithmetic::div_mod::lemma_fundamental_div_mod_converse;
use vstd::std_specs::cmp::PartialEqSpecImpl;
use vstd::string::StringSliceAdditionalSpecFns;
use crate::bn::fp::{
    fp_euler, fp_raw_decoding, fp_raw_encoding, fp_root_candidate, fp_square_root,
    lemma_fp_raw_roundtrip, Fp,
};
use crate::bn::fr::Fr;
use crate::codec::{bytes_value, lemma_le_bytes_len, limbs_from_bytes};
use crate::common::Base;
use crate::curve::{
    g1_add, g1_finite_valid, g1_identity, g1_mul, g1_neg, g1_on_curve, g1_point, g1_valid, Point1,
};
use crate::ffi::{
    engine_g1_add, engine_g1_in_subgroup, engine_g1_mul, engine_g1_neg, g1_multiple, sha512,
    sha512_digest, MclBnFp, MclBnG1,
};
use crate::limbs::{limbs_value, sub_borrow};
use crate::modular::{lemma_neg_square, mod_add, mod_inv, mod_mul, mod_neg, mod_sub};
use crate::params::{fp_modulus, fp_modulus_limbs, lemma_top_limb_reduced, lemma_value_of_four};
use crate::text::{
    ascii_string, format_list, lemma_list_roundtrip, limbs_values, list_text, list_value,
    parse_list,
};
use crate::traits::{Formattable, RawSerializable};

verus! {

/// A point of the first group, held in canonical affine coordinates.
#[derive(Debug, Clone, Copy)]
pub struct G1 {
    inner: MclBnG1,
}

impl View for G1 {
    type V = Point1;

    closed spec fn view(&self) -> Point1 {
        Point1 {
            x: limbs_value(self.inner.x.d@),
            y: limbs_value(self.inner.y.d@),
            infinity: limbs_value(self.inner.z.d@) == 0,
        }
    }
}

/// The cofactor of the first group in its curve.
pub open spec fn g1_cofactor() -> nat {
    0x396c8c005555e1568c00aaab0000aaab
}

/// The status with which [`G1::hash_and_map`] and its like give up.
pub const HASH_AND_MAP_FAILED: i32 = -1;

/// The base field element that a digest of at least 48 bytes gives: its first
/// 381 bits, read least significant byte first, and one bit fewer where
/// those are not below the modulus.
pub open spec fn hash_field(digest: Seq<u8>) -> nat {
    let v = bytes_value(digest.take(48))
        % 0x2000_0000_0000_0000_0000_0000_0000_0000_0000_0000_0000_0000_0000_0000_0000_0000_0000_0000_0000_0000_0000_0000_0000_0000nat;
    if v < fp_modulus() {
        v
    } else {
        v
            % 0x1000_0000_0000_0000_0000_0000_0000_0000_0000_0000_0000_0000_0000_0000_0000_0000_0000_0000_0000_0000_0000_0000_0000_0000nat
    }
}

/// The right-hand side of the curve equation, `x^3 + 4`.
pub open spec fn g1_rhs(x: nat) -> nat {
    mod_add(mod_mul(mod_mul(x, x, fp_modulus()), x, fp_modulus()), 4, fp_modulus())
}

/// The three abscissas that the map to the curve tries for `t`, in the order
/// in which it tries them. With `s` the root candidate of `-3` and
/// `w = s t / (t^2 + 5)`, they are `(s - 1) / 2 - t w`, the negative of that
/// less one, and `1 + 1 / w^2`.
pub open spec fn g1_map_candidates(t: nat) -> (nat, nat, nat) {
    let p = fp_modulus();
    let s = fp_root_candidate(mod_neg(3, p));
    let w = mod_mul(
        mod_mul(mod_inv(mod_add(mod_add(mod_mul(t, t, p), 4, p), 1, p), p), s, p),
        t,
        p,
    );
    let first = mod_add(mod_neg(mod_mul(t, w, p), p), mod_mul(mod_sub(s, 1, p), mod_inv(2, p), p), p);
    let second = mod_sub(mod_neg(first, p), 1, p);
    let third = mod_add(mod_inv(mod_mul(w, w, p), p), 1, p);
    (first, second, third)
}

/// The ordinate that the map to the curve picks over the abscissa `x`: the
/// square root of `x^3 + 4`, negated where `t` is no square.
pub open spec fn g1_map_ordinate(t: nat, x: nat) -> Option<nat> {
    match fp_square_root(g1_rhs(x)) {
        Some(y) => Some(
            if fp_euler(t) == fp_modulus() - 1 {
                mod_neg(y, fp_modulus())
            } else {
                y
            },
        ),
        None => None,
    }
}

/// The point of the curve to which a base field element is mapped: the first
/// of the three candidates over which the curve has a point. There is none
/// for zero, nor where `t^2 + 5` is zero.
pub open spec fn g1_map(t: nat) -> Option<(nat, nat)> {
    let p = fp_modulus();
    let c = g1_map_candidates(t);
    if t == 0 || mod_add(mod_add(mod_mul(t, t, p), 4, p), 1, p) == 0 {
        None
    } else if g1_map_ordinate(t, c.0) is Some {
        Some((c.0, g1_map_ordinate(t, c.0)->0))
    } else if g1_map_ordinate(t, c.1) is Some {
        Some((c.1, g1_map_ordinate(t, c.1)->0))
    } else if g1_map_ordinate(t, c.2) is Some {
        Some((c.2, g1_map_ordinate(t, c.2)->0))
    } else {
        None
    }
}

/// The point of the first group that a digest gives: the digest as a base
/// field element, mapped to the curve and multiplied by the cofactor. There
/// is none for a digest of fewer than 48 bytes, where the map gives up, and
/// where the multiple is the point at infinity or no point of the group: a
/// digest never gives the point at infinity.
pub open spec fn g1_of_digest(digest: Seq<u8>) -> Result<Point1, i32> {
    if digest.len() < 48 {
        Err(HASH_AND_MAP_FAILED)
    } else {
        match g1_map(hash_field(digest)) {
            Some((x, y)) => {
                let q = g1_multiple(x, y, g1_cofactor());
                if !q.2 && g1_finite_valid(q.0, q.1) {
                    Ok(Point1 { x: q.0, y: q.1, infinity: false })
                } else {
                    Err(HASH_AND_MAP_FAILED)
                }
            },
            None => Err(HASH_AND_MAP_FAILED),
        }
    }
}

/// What hashing a message to the first group gives: the point that its
/// SHA-512 digest gives.
pub open spec fn g1_hash(message: Seq<u8>) -> Result<Point1, i32> {
    g1_of_digest(sha512(message))
}

/// The raw encoding of a point: `x`, then `y`, 48 bytes each. The point at
/// infinity is all zeros.
pub open spec fn g1_raw_encoding(p: Point1) -> Seq<u8> {
    fp_raw_encoding(p.x) + fp_raw_encoding(p.y)
}

/// The point that the first 96 bytes encode, if they encode one: canonical
/// coordinates that are both zero, or that give a point of the group.
pub open spec fn g1_raw_decoding(bytes: Seq<u8>) -> Option<(Point1, nat)> {
    if bytes.len() >= 96 {
        match (fp_raw_decoding(bytes.subrange(0, 48)), fp_raw_decoding(bytes.subrange(48, 96))) {
            (Some((x, _)), Some((y, _))) => if x == 0 && y == 0 {
                Some((g1_identity(), 96nat))
            } else if g1_finite_valid(x, y) {
                Some((Point1 { x, y, infinity: false }, 96nat))
            } else {
                None
            },
            _ => None,
        }
    } else {
        None
    }
}

/// The text of a point: `0` for the point at infinity, else `1`, `x` and `y`
/// with one space between neighbours.
pub open spec fn g1_text_of(p: Point1, base: Base) -> Seq<u8> {
    if p.infinity {
        seq![48u8]
    } else {
        seq![49u8, 32u8] + list_text(seq![p.x, p.y], base.number())
    }
}

/// The point that a text denotes, if it denotes one.
pub open spec fn g1_value_of_text(text: Seq<u8>, base: Base) -> Option<Point1> {
    if text == seq![48u8] {
        Some(g1_identity())
    } else if text.len() >= 2 && text[0] == 49 && text[1] == 32 {
        match list_value(text.skip(2), 2, base.number(), fp_modulus()) {
            Some(vs) => if g1_finite_valid(vs[0], vs[1]) {
                Some(Point1 { x: vs[0], y: vs[1], infinity: false })
            } else {
                None
            },
            None => None,
        }
    } else {
        None
    }
}

impl G1 {
    /// Whether the point is an element of the group. Every point that this
    /// library hands out is.
    pub open spec fn wf(&self) -> bool {
        g1_valid(self@)
    }

    #[verifier::type_invariant]
    closed spec fn valid(self) -> bool {
        &&& g1_valid(self@)
        &&& limbs_value(self.inner.z.d@) <= 1
    }

    /// The point at infinity.
    pub fn identity() -> (r: G1)
        ensures
            r@ == g1_identity(),
            r.wf(),
    {
        let zero: [u64; 6] = Fp::default().limbs();
        G1 { inner: MclBnG1 { x: MclBnFp { d: zero }, y: MclBnFp { d: zero }, z: MclBnFp { d: zero } } }
    }

    /// The finite point with the given coordinates.
    fn finite(x: &[u64; 6], y: &[u64; 6]) -> (r: G1)
        requires
            g1_finite_valid(limbs_value(x@), limbs_value(y@)),
        ensures
            r@ == (Point1 { x: limbs_value(x@), y: limbs_value(y@), infinity: false }),
            r.wf(),
    {
        let one: [u64; 6] = Fp::from_u64(1).limbs();
        G1 { inner: MclBnG1 { x: MclBnFp { d: *x }, y: MclBnFp { d: *y }, z: MclBnFp { d: one } } }
    }

    /// The point that an answer of the engine stands for.
    fn from_engine(r: &([u64; 6], [u64; 6], bool)) -> (p: G1)
        requires
            !r.2 ==> g1_finite_valid(limbs_value(r.0@), limbs_value(r.1@)),
        ensures
            p@ == g1_point((limbs_value(r.0@), limbs_value(r.1@), r.2)),
            p.wf(),
    {
        if r.2 {
            G1::identity()
        } else {
            G1::finite(&r.0, &r.1)
        }
    }

    /// The coordinates of a finite point.
    pub(crate) fn coordinates(&self) -> (r: ([u64; 6], [u64; 6]))
        requires
            !self@.infinity,
        ensures
            limbs_value(r.0@) == self@.x,
            limbs_value(r.1@) == self@.y,
            g1_finite_valid(self@.x, self@.y),
    {
        proof {
            use_type_invariant(self);
        }
        (self.inner.x.d, self.inner.y.d)
    }

    /// Whether this is the point at infinity.
    pub fn is_zero(&self) -> (r: bool)
        ensures
            r == self@.infinity,
    {
        crate::limbs::is_zero(&self.inner.z.d)
    }

    /// Sets the point to the point at infinity.
    pub fn clear(&mut self)
        ensures
            final(self)@ == g1_identity(),
            final(self).wf(),
    {
        *self = G1::identity();
    }

    /// The sum of two points.
    pub fn add(&self, other: &G1) -> (r: G1)
        ensures
            r@ == g1_add(self@, other@),
            r.wf(),
    {
        proof {
            use_type_invariant(self);
            use_type_invariant(other);
        }
        if self.is_zero() {
            *other
        } else if other.is_zero() {
            *self
        } else {
            let sum = engine_g1_add(
                &self.inner.x.d,
                &self.inner.y.d,
                &other.inner.x.d,
                &other.inner.y.d,
            );
            G1::from_engine(&sum)
        }
    }

    /// The negative of the point.
    pub fn neg(&self) -> (r: G1)
        ensures
            r@ == g1_neg(self@),
            r.wf(),
    {
        proof {
            use_type_invariant(self);
        }
        if self.is_zero() {
            *self
        } else {
            let y: [u64; 6] = engine_g1_neg(&self.inner.x.d, &self.inner.y.d);
            G1::finite(&self.inner.x.d, &y)
        }
    }

    /// The difference of two points: the first plus the negative of the second.
    pub fn sub(&self, other: &G1) -> (r: G1)
        ensures
            r@ == g1_add(self@, g1_neg(other@)),
            r.wf(),
    {
        self.add(&other.neg())
    }

    /// The double of the point: the point plus itself.
    pub fn dbl(&self) -> (r: G1)
        ensures
            r@ == g1_add(self@, self@),
            r.wf(),
    {
        self.add(self)
    }

    /// The multiple of the point by a scalar.
    pub fn mul(&self, other: &Fr) -> (r: G1)
        ensures
            r@ == g1_mul(self@, other@),
            r.wf(),
    {
        proof {
            use_type_invariant(self);
        }
        if self.is_zero() || other.is_zero() {
            G1::identity()
        } else {
            let k: [u64; 4] = other.limbs();
            let product = engine_g1_mul(&self.inner.x.d, &self.inner.y.d, &k);
            G1::from_engine(&product)
        }
    }

    /// Whether canonical coordinates satisfy the curve equation.
    fn on_curve(x: &Fp, y: &Fp) -> (r: bool)
        ensures
            r == g1_on_curve(x@, y@),
    {
        y.sqr() == x.sqr().mul(x).add(&Fp::from_u64(4))
    }

    /// The affine coordinates of the point; none for the point at infinity.
    pub fn to_affine(&self) -> (r: Option<(Fp, Fp)>)
        ensures
            match r {
                Some((x, y)) => !self@.infinity && x@ == self@.x && y@ == self@.y,
                None => self@.infinity,
            },
    {
        proof {
            use_type_invariant(self);
        }
        if self.is_zero() {
            None
        } else {
            Some((Fp::from_limbs(self.inner.x.d), Fp::from_limbs(self.inner.y.d)))
        }
    }

    /// The finite point with the given affine coordinates, if they are those
    /// of a point of the group: on the curve, and in the subgroup of order `r`.
    pub fn from_affine(x: &Fp, y: &Fp) -> (r: Option<G1>)
        ensures
            match r {
                Some(p) => g1_finite_valid(x@, y@) && p@ == (Point1 {
                    x: x@,
                    y: y@,
                    infinity: false,
                }) && p.wf(),
                None => !g1_finite_valid(x@, y@),
            },
    {
        let xs: [u64; 6] = x.limbs();
        let ys: [u64; 6] = y.limbs();
        if G1::on_curve(x, y) && engine_g1_in_subgroup(&xs, &ys) {
            Some(G1::finite(&xs, &ys))
        } else {
            None
        }
    }

    /// The base field element that a digest gives; see [`hash_field`].
    pub(crate) fn field_of_digest(digest: &[u8]) -> (t: Fp)
        requires
            digest@.len() >= 48,
        ensures
            t@ == hash_field(digest@),
            t.wf(),
    {
        let mut d: [u64; 6] = limbs_from_bytes(digest);
        let ghost whole = d@;
        d[5] = d[5] % 0x2000_0000_0000_0000u64;
        let ghost masked = d@;
        proof {
            lemma_top_limb_reduced(whole, masked, 0x2000_0000_0000_0000u64);
        }
        let m: [u64; 6] = fp_modulus_limbs();
        let (_diff, borrow) = sub_borrow(&d, &m);
        if borrow == 0 {
            d[5] = d[5] % 0x1000_0000_0000_0000u64;
            proof {
                lemma_top_limb_reduced(masked, d@, 0x1000_0000_0000_0000u64);
            }
        }
        Fp::from_limbs(d)
    }

    /// The ordinate over `x`; see [`g1_map_ordinate`].
    fn map_ordinate(t: &Fp, x: &Fp) -> (r: Option<Fp>)
        ensures
            match g1_map_ordinate(t@, x@) {
                Some(y) => r is Some && r->0@ == y && g1_on_curve(x@, y),
                None => r is None,
            },
    {
        match x.sqr().mul(x).add(&Fp::from_u64(4)).square_root() {
            Some(y) => {
                let minus_one: Fp = Fp::from_u64(1).neg();
                proof {
                    lemma_fundamental_div_mod_converse(
                        -1,
                        fp_modulus() as int,
                        -1,
                        fp_modulus() - 1,
                    );
                    lemma_neg_square(y@, fp_modulus());
                }
                if t.euler() == minus_one {
                    Some(y.neg())
                } else {
                    Some(y)
                }
            },
            None => None,
        }
    }

    /// Maps a base field element to a point of the curve, which need not lie
    /// in the group; see [`g1_map`].
    pub fn map_to_curve(t: &Fp) -> (r: Option<(Fp, Fp)>)
        ensures
            match r {
                Some((x, y)) => g1_map(t@) == Some((x@, y@)) && g1_on_curve(x@, y@),
                None => g1_map(t@) is None,
            },
    {
        let one: Fp = Fp::from_u64(1);
        let denominator: Fp = t.sqr().add(&Fp::from_u64(4)).add(&one);
        if t.is_zero() || denominator.is_zero() {
            return None;
        }
        let s: Fp = Fp::from_u64(3).neg().root_candidate();
        let w: Fp = denominator.inv().mul(&s).mul(t);
        let first: Fp = t.mul(&w).neg().add(&s.sub(&one).mul(&Fp::from_u64(2).inv()));
        let second: Fp = first.neg().sub(&one);
        let third: Fp = w.sqr().inv().add(&one);
        match G1::map_ordinate(t, &first) {
            Some(y) => {
                return Some((first, y));
            },
            None => {},
        }
        match G1::map_ordinate(t, &second) {
            Some(y) => {
                return Some((second, y));
            },
            None => {},
        }
        match G1::map_ordinate(t, &third) {
            Some(y) => Some((third, y)),
            None => None,
        }
    }

    /// Hashes a message to a point of the group: the point that the SHA-512
    /// digest of the message gives, as [`G1::map_digest`] has it. What comes
    /// back with success is never the point at infinity.
    pub fn hash_and_map(buf: &[u8]) -> (r: Result<G1, i32>)
        ensures
            match g1_hash(buf@) {
                Ok(p) => r is Ok && r->Ok_0@ == p && r->Ok_0.wf(),
                Err(status) => r == Err::<G1, i32>(status),
            },
            r is Ok ==> !r->Ok_0@.infinity,
    {
        let digest: Vec<u8> = sha512_digest(buf);
        G1::map_digest(digest.as_slice())
    }

    /// Maps a digest to a point of the group. The digest is read as a base
    /// field element, mapped to the curve and multiplied by the cofactor. The
    /// status is [`HASH_AND_MAP_FAILED`] for a digest of fewer than 48 bytes,
    /// for the very few elements on which the map gives up, and where the
    /// multiple is the point at infinity: what comes back with success is
    /// never the point at infinity.
    pub fn map_digest(digest: &[u8]) -> (r: Result<G1, i32>)
        ensures
            match g1_of_digest(digest@) {
                Ok(p) => r is Ok && r->Ok_0@ == p && r->Ok_0.wf(),
                Err(status) => r == Err::<G1, i32>(status),
            },
            r is Ok ==> !r->Ok_0@.infinity,
    {
        if digest.len() < 48 {
            return Err(HASH_AND_MAP_FAILED);
        }
        let t: Fp = G1::field_of_digest(digest);
        let (x, y) = match G1::map_to_curve(&t) {
            Some(point) => point,
            None => {
                return Err(HASH_AND_MAP_FAILED);
            },
        };
        let cofactor: [u64; 4] = [0x8c00_aaab_0000_aaab, 0x396c_8c00_5555_e156, 0, 0];
        proof {
            lemma_value_of_four(cofactor@);
        }
        let xs: [u64; 6] = x.limbs();
        let ys: [u64; 6] = y.limbs();
        let q = engine_g1_mul(&xs, &ys, &cofactor);
        if q.2 {
            return Err(HASH_AND_MAP_FAILED);
        }
        match G1::from_affine(&Fp::from_limbs(q.0), &Fp::from_limbs(q.1)) {
            Some(p) => Ok(p),
            None => Err(HASH_AND_MAP_FAILED),
        }
    }

    /// The raw encoding of the point.
    pub fn serialize(&self) -> (out: Vec<u8>)
        ensures
            out@ == g1_raw_encoding(self@),
    {
        proof {
            use_type_invariant(self);
        }
        let mut out: Vec<u8> = Fp::from_limbs(self.inner.x.d).serialize();
        let mut tail: Vec<u8> = Fp::from_limbs(self.inner.y.d).serialize();
        out.append(&mut tail);
        out
    }

    /// Reads a point from the first 96 bytes of `bytes`. Fails where there
    /// are fewer, where a coordinate is not below the modulus, and where the
    /// coordinates are neither both zero nor those of a point of the group.
    pub fn deserialize(bytes: &[u8]) -> (r: Result<G1, ()>)
        ensures
            match g1_raw_decoding(bytes@) {
                Some((p, n)) => r is Ok && r->Ok_0@ == p && r->Ok_0.wf(),
                None => r is Err,
            },
    {
        if bytes.len() < 96 {
            return Err(());
        }
        let front: &[u8] = vstd::slice::slice_subrange(bytes, 0, 48);
        let back: &[u8] = vstd::slice::slice_subrange(bytes, 48, 96);
        match (Fp::deserialize(front), Fp::deserialize(back)) {
            (Ok(x), Ok(y)) => {
                if x.is_zero() && y.is_zero() {
                    Ok(G1::identity())
                } else {
                    match G1::from_affine(&x, &y) {
                        Some(p) => Ok(p),
                        None => Err(()),
                    }
                }
            },
            _ => Err(()),
        }
    }

    /// Reads a point from its text. Fails where the text is neither `0` nor
    /// `1`, `x` and `y` with one space between neighbours and `(x, y)` a
    /// point of the group.
    pub fn from_str(buffer: &str, io_mode: Base) -> (r: Result<G1, ()>)
        ensures
            match g1_value_of_text(buffer.spec_bytes(), io_mode) {
                Some(p) => r is Ok && r->Ok_0@ == p && r->Ok_0.wf(),
                None => r is Err,
            },
    {
        let text: &[u8] = buffer.as_bytes();
        if text.len() == 1 && text[0] == 48 {
            proof {
                assert(text@ =~= seq![48u8]);
            }
            return Ok(G1::identity());
        }
        if text.len() < 2 || text[0] != 49 || text[1] != 32 {
            return Err(());
        }
        let rest: &[u8] = vstd::slice::slice_subrange(text, 2, text.len());
        proof {
            assert(rest@ =~= text@.skip(2));
        }
        let m: [u64; 6] = fp_modulus_limbs();
        match parse_list(rest, 2, io_mode.radix(), &m) {
            Some(vs) => {
                proof {
                    assert(limbs_values(vs@)[0] == limbs_value(vs@[0]@));
                    assert(limbs_values(vs@)[1] == limbs_value(vs@[1]@));
                }
                match G1::from_affine(&Fp::from_limbs(vs[0]), &Fp::from_limbs(vs[1])) {
                    Some(p) => Ok(p),
                    None => Err(()),
                }
            },
            None => Err(()),
        }
    }
}

impl Default for G1 {
    /// The point at infinity.
    fn default() -> (r: G1)
        ensures
            r@ == g1_identity(),
            r.wf(),
    {
        G1::identity()
    }
}

impl PartialEq for G1 {
    fn eq(&self, other: &G1) -> (r: bool) {
        proof {
            use_type_invariant(self);
            use_type_invariant(other);
        }
        let same_kind: bool = self.is_zero() == other.is_zero();
        let same_x: bool = crate::limbs::limbs_equal(&self.inner.x.d, &other.inner.x.d);
        let same_y: bool = crate::limbs::limbs_equal(&self.inner.y.d, &other.inner.y.d);
        same_kind && same_x && same_y
    }
}

impl Eq for G1 {

}

impl PartialEqSpecImpl for G1 {
    open spec fn obeys_eq_spec() -> bool {
        true
    }

    open spec fn eq_spec(&self, other: &G1) -> bool {
        self@ == other@
    }
}

impl RawSerializable for G1 {
    open spec fn raw_encoding(v: Point1) -> Seq<u8> {
        g1_raw_encoding(v)
    }

    open spec fn raw_decoding(bytes: Seq<u8>) -> Option<(Point1, nat)> {
        g1_raw_decoding(bytes)
    }

    fn serialize_raw(&self) -> (r: Result<Vec<u8>, ()>) {
        Ok(self.serialize())
    }

    fn deserialize_raw(&mut self, bytes: &[u8]) -> (r: Result<usize, ()>) {
        match G1::deserialize(bytes) {
            Ok(v) => {
                *self = v;
                Ok(96)
            },
            Err(e) => Err(e),
        }
    }
}

impl Formattable for G1 {
    open spec fn text_of(v: Point1, base: Base) -> Seq<u8> {
        g1_text_of(v, base)
    }

    open spec fn value_of_text(text: Seq<u8>, base: Base) -> Option<Point1> {
        g1_value_of_text(text, base)
    }

    fn set_str(&mut self, buffer: &str, io_mode: Base) -> (r: Result<(), ()>) {
        match G1::from_str(buffer, io_mode) {
            Ok(v) => {
                *self = v;
                Ok(())
            },
            Err(e) => Err(e),
        }
    }

    fn get_str(&self, io_mode: Base) -> (s: String) {
        proof {
            use_type_invariant(self);
        }
        let mut out: Vec<u8> = Vec::new();
        if self.is_zero() {
            out.push(48u8);
            proof {
                assert(out@ =~= seq![48u8]);
            }
        } else {
            out.push(49u8);
            out.push(32u8);
            let mut coordinates: Vec<[u64; 6]> = Vec::new();
            coordinates.push(self.inner.x.d);
            coordinates.push(self.inner.y.d);
            let mut digits: Vec<u8> = format_list(&coordinates, io_mode.radix());
            proof {
                assert(limbs_values(coordinates@) =~= seq![self@.x, self@.y]);
                lemma_list_roundtrip(seq![self@.x, self@.y], io_mode.number(), fp_modulus());
            }
            out.append(&mut digits);
        }
        ascii_string(out.as_slice())
    }
}

/// Decoding the raw encoding of a point of the group gives the point back.
pub proof fn lemma_g1_raw_roundtrip(p: Point1)
    requires
        g1_valid(p),
    ensures
        g1_raw_decoding(g1_raw_encoding(p)) == Some((p, 96nat)),
{
    let s = g1_raw_encoding(p);
    lemma_le_bytes_len(p.x, 48);
    lemma_le_bytes_len(p.y, 48);
    assert(s.subrange(0, 48) =~= fp_raw_encoding(p.x));
    assert(s.subrange(48, 96) =~= fp_raw_encoding(p.y));
    lemma_fp_raw_roundtrip(p.x);
    lemma_fp_raw_roundtrip(p.y);
    if !p.infinity {
        lemma_g1_origin_off_curve();
    }
}

/// The origin is not on the curve, so that it can stand for the point at infinity.
pub proof fn lemma_g1_origin_off_curve()
    ensures
        !g1_on_curve(0, 0),
{
    let p = fp_modulus();
    assert(mod_mul(0, 0, p) == 0) by {
        vstd::arithmetic::div_mod::lemma_small_mod(0, p);
    }
    assert(mod_add(0, 4, p) == 4) by {
        vstd::arithmetic::div_mod::lemma_small_mod(4, p);
    }
}

/// Reading the text of a point of the group gives the point back.
pub proof fn lemma_g1_text_roundtrip(p: Point1, base: Base)
    requires
        g1_valid(p),
    ensures
        g1_value_of_text(g1_text_of(p, base), base) == Some(p),
{
    if !p.infinity {
        let list = list_text(seq![p.x, p.y], base.number());
        let text = g1_text_of(p, base);
        lemma_list_roundtrip(seq![p.x, p.y], base.number(), fp_modulus());
        assert(text.skip(2) =~= list);
        assert(text[0] == 49 && text[1] == 32);
        assert(text != seq![48u8]) by {
            assert(text[0] != seq![48u8][0]);
        }
    }
}

} // verus!
