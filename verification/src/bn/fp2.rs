//! The quadratic extension of the base field: pairs `a + b i` with `i^2 = -1`.
use vstd::prelude::*;
use vstd::std_specs::cmp::PartialEqSpecImpl;
use crate::bn::fp::{
    fp_raw_decoding, fp_raw_encoding, fp_square_root, lemma_fp_raw_roundtrip, Fp,
};
use crate::codec::lemma_le_bytes_len;
use crate::ffi::{MclBnFp, MclBnFp2};
use crate::limbs::limbs_value;
use crate::modular::{mod_add, mod_inv, mod_mul, mod_neg, mod_sub};
use crate::params::fp_modulus;
use crate::traits::RawSerializable;

verus! {

/// An element of the extension field, held as its two canonical coordinates.
#[derive(Debug, Clone, Copy)]
pub struct Fp2 {
    inner: MclBnFp2,
}

impl View for Fp2 {
    type V = (nat, nat);

    /// The real and the imaginary coordinate, each a number below [`fp_modulus`].
    closed spec fn view(&self) -> (nat, nat) {
        (limbs_value(self.inner.d@[0].d@), limbs_value(self.inner.d@[1].d@))
    }
}

/// The sum of two elements.
pub open spec fn fp2_add(a: (nat, nat), b: (nat, nat)) -> (nat, nat) {
    (mod_add(a.0, b.0, fp_modulus()), mod_add(a.1, b.1, fp_modulus()))
}

/// The difference of two elements.
pub open spec fn fp2_sub(a: (nat, nat), b: (nat, nat)) -> (nat, nat) {
    (mod_sub(a.0, b.0, fp_modulus()), mod_sub(a.1, b.1, fp_modulus()))
}

/// The additive inverse of an element.
pub open spec fn fp2_neg(a: (nat, nat)) -> (nat, nat) {
    (mod_neg(a.0, fp_modulus()), mod_neg(a.1, fp_modulus()))
}

/// The product of two elements: `(a0 b0 - a1 b1) + (a0 b1 + a1 b0) i`.
pub open spec fn fp2_mul(a: (nat, nat), b: (nat, nat)) -> (nat, nat) {
    (
        mod_sub(
            mod_mul(a.0, b.0, fp_modulus()),
            mod_mul(a.1, b.1, fp_modulus()),
            fp_modulus(),
        ),
        mod_add(
            mod_mul(a.0, b.1, fp_modulus()),
            mod_mul(a.1, b.0, fp_modulus()),
            fp_modulus(),
        ),
    )
}

/// The norm of an element down to the base field: `a0^2 + a1^2`.
pub open spec fn fp2_norm(a: (nat, nat)) -> nat {
    mod_add(mod_mul(a.0, a.0, fp_modulus()), mod_mul(a.1, a.1, fp_modulus()), fp_modulus())
}

/// The multiplicative inverse: the conjugate times the inverse of the norm,
/// and so zero where the norm has no inverse.
pub open spec fn fp2_inv(a: (nat, nat)) -> (nat, nat) {
    (
        mod_mul(a.0, mod_inv(fp2_norm(a), fp_modulus()), fp_modulus()),
        mod_mul(mod_neg(a.1, fp_modulus()), mod_inv(fp2_norm(a), fp_modulus()), fp_modulus()),
    )
}

/// The quotient of two elements.
pub open spec fn fp2_div(a: (nat, nat), b: (nat, nat)) -> (nat, nat) {
    fp2_mul(a, fp2_inv(b))
}

/// Half of a base field element.
pub open spec fn fp_half(v: nat) -> nat {
    mod_mul(v, mod_inv(2, fp_modulus()), fp_modulus())
}

/// The real coordinate of a square root of an element off the real axis,
/// given a square root `t` of its norm: a root of `(a0 + t) / 2` or, failing
/// that, of `(a0 - t) / 2`.
pub open spec fn fp2_root_real(a: (nat, nat), t: nat) -> Option<nat> {
    match fp_square_root(fp_half(mod_add(a.0, t, fp_modulus()))) {
        Some(r) => Some(r),
        None => fp_square_root(fp_half(mod_sub(a.0, t, fp_modulus()))),
    }
}

/// The square root that [`Fp2::square_root`] finds: the candidate, where
/// there is one and its square is `a`.
pub open spec fn fp2_square_root(a: (nat, nat)) -> Option<(nat, nat)> {
    match fp2_root_candidate(a) {
        Some(y) => if fp2_mul(y, y) == a {
            Some(y)
        } else {
            None
        },
        None => None,
    }
}

/// The candidate for a square root. On the real axis it is a root of the
/// real coordinate or, failing that, `i` times a root of its negative. Off
/// the axis it is `r + (a1 / 2 r) i`, with `r` as in [`fp2_root_real`].
pub open spec fn fp2_root_candidate(a: (nat, nat)) -> Option<(nat, nat)> {
    if a.1 == 0 {
        match fp_square_root(a.0) {
            Some(r) => Some((r, 0nat)),
            None => match fp_square_root(mod_neg(a.0, fp_modulus())) {
                Some(r) => Some((0nat, r)),
                None => None,
            },
        }
    } else {
        match fp_square_root(fp2_norm(a)) {
            Some(t) => match fp2_root_real(a, t) {
                Some(r) => Some(
                    (
                        r,
                        mod_mul(
                            a.1,
                            mod_inv(mod_add(r, r, fp_modulus()), fp_modulus()),
                            fp_modulus(),
                        ),
                    ),
                ),
                None => None,
            },
            None => None,
        }
    }
}

/// The raw encoding of an element: the real coordinate, then the imaginary one.
pub open spec fn fp2_raw_encoding(v: (nat, nat)) -> Seq<u8> {
    fp_raw_encoding(v.0) + fp_raw_encoding(v.1)
}

/// The element that the first 96 bytes encode, if both coordinates are canonical.
pub open spec fn fp2_raw_decoding(bytes: Seq<u8>) -> Option<((nat, nat), nat)> {
    if bytes.len() >= 96 {
        match (fp_raw_decoding(bytes.subrange(0, 48)), fp_raw_decoding(bytes.subrange(48, 96))) {
            (Some((a, _)), Some((b, _))) => Some(((a, b), 96nat)),
            _ => None,
        }
    } else {
        None
    }
}

impl Fp2 {
    /// Whether both coordinates are canonical. Every element that this
    /// library hands out is.
    pub open spec fn wf(&self) -> bool {
        self@.0 < fp_modulus() && self@.1 < fp_modulus()
    }

    #[verifier::type_invariant]
    closed spec fn canonical(self) -> bool {
        &&& limbs_value(self.inner.d@[0].d@) < fp_modulus()
        &&& limbs_value(self.inner.d@[1].d@) < fp_modulus()
    }

    /// The element with the given coordinates.
    pub fn from_parts(re: Fp, im: Fp) -> (r: Fp2)
        ensures
            r@ == (re@, im@),
            r.wf(),
    {
        let a: [u64; 6] = re.limbs();
        let b: [u64; 6] = im.limbs();
        Fp2 { inner: MclBnFp2 { d: [MclBnFp { d: a }, MclBnFp { d: b }] } }
    }

    /// The storage of the element.
    pub(crate) fn storage(&self) -> (s: MclBnFp2)
        ensures
            s.value() == self@,
            s.canonical(),
            self.wf(),
    {
        proof {
            use_type_invariant(self);
        }
        self.inner
    }

    /// The element in the given storage.
    pub(crate) fn from_storage(s: MclBnFp2) -> (r: Fp2)
        requires
            s.canonical(),
        ensures
            r@ == s.value(),
            r.wf(),
    {
        Fp2 { inner: s }
    }

    /// The real coordinate.
    pub fn re(&self) -> (r: Fp)
        ensures
            r@ == self@.0,
            r.wf(),
            self.wf(),
    {
        proof {
            use_type_invariant(self);
        }
        Fp::from_limbs(self.inner.d[0].d)
    }

    /// The imaginary coordinate.
    pub fn im(&self) -> (r: Fp)
        ensures
            r@ == self@.1,
            r.wf(),
            self.wf(),
    {
        proof {
            use_type_invariant(self);
        }
        Fp::from_limbs(self.inner.d[1].d)
    }

    /// Sets the element to zero.
    pub fn clear(&mut self)
        ensures
            final(self)@ == (0nat, 0nat),
            final(self).wf(),
    {
        *self = Fp2::from_parts(Fp::default(), Fp::default());
    }

    /// The sum of two elements.
    pub fn add(&self, other: &Fp2) -> (r: Fp2)
        ensures
            r@ == fp2_add(self@, other@),
            r.wf(),
    {
        Fp2::from_parts(self.re().add(&other.re()), self.im().add(&other.im()))
    }

    /// The difference of two elements.
    pub fn sub(&self, other: &Fp2) -> (r: Fp2)
        ensures
            r@ == fp2_sub(self@, other@),
            r.wf(),
    {
        Fp2::from_parts(self.re().sub(&other.re()), self.im().sub(&other.im()))
    }

    /// The additive inverse.
    pub fn neg(&self) -> (r: Fp2)
        ensures
            r@ == fp2_neg(self@),
            r.wf(),
    {
        Fp2::from_parts(self.re().neg(), self.im().neg())
    }

    /// The product of two elements.
    pub fn mul(&self, other: &Fp2) -> (r: Fp2)
        ensures
            r@ == fp2_mul(self@, other@),
            r.wf(),
    {
        let a0: Fp = self.re();
        let a1: Fp = self.im();
        let b0: Fp = other.re();
        let b1: Fp = other.im();
        Fp2::from_parts(a0.mul(&b0).sub(&a1.mul(&b1)), a0.mul(&b1).add(&a1.mul(&b0)))
    }

    /// The square.
    pub fn sqr(&self) -> (r: Fp2)
        ensures
            r@ == fp2_mul(self@, self@),
            r.wf(),
    {
        self.mul(self)
    }

    /// The norm down to the base field.
    pub fn norm(&self) -> (r: Fp)
        ensures
            r@ == fp2_norm(self@),
            r.wf(),
    {
        self.re().sqr().add(&self.im().sqr())
    }

    /// The multiplicative inverse, or zero where there is none, as for zero.
    pub fn inv(&self) -> (r: Fp2)
        ensures
            r@ == fp2_inv(self@),
            r.wf(),
    {
        let n: Fp = self.norm().inv();
        Fp2::from_parts(self.re().mul(&n), self.im().neg().mul(&n))
    }

    /// The quotient of two elements: the first times the inverse of the
    /// second, and so zero where the second has no inverse.
    pub fn div(&self, other: &Fp2) -> (r: Fp2)
        ensures
            r@ == fp2_div(self@, other@),
            r.wf(),
    {
        self.mul(&other.inv())
    }

    /// Whether the element is zero.
    pub fn is_zero(&self) -> (r: bool)
        ensures
            r <==> self@ == (0nat, 0nat),
    {
        self.re().is_zero() && self.im().is_zero()
    }

    /// A square root of the element, where the search of
    /// [`fp2_root_candidate`] finds one: what is returned squares to the
    /// element.
    pub fn square_root(&self) -> (r: Option<Fp2>)
        ensures
            match fp2_square_root(self@) {
                Some(v) => r is Some && r->0@ == v && r->0.wf() && fp2_mul(v, v) == self@,
                None => r is None,
            },
    {
        match self.root_candidate() {
            Some(y) => if y.sqr() == *self {
                Some(y)
            } else {
                None
            },
            None => None,
        }
    }

    /// The candidate for a square root; see [`fp2_root_candidate`].
    fn root_candidate(&self) -> (r: Option<Fp2>)
        ensures
            match fp2_root_candidate(self@) {
                Some(v) => r is Some && r->0@ == v && r->0.wf(),
                None => r is None,
            },
    {
        let a0: Fp = self.re();
        let a1: Fp = self.im();
        if a1.is_zero() {
            return match a0.square_root() {
                Some(t) => Some(Fp2::from_parts(t, Fp::default())),
                None => match a0.neg().square_root() {
                    Some(t) => Some(Fp2::from_parts(Fp::default(), t)),
                    None => None,
                },
            };
        }
        let t: Fp = match self.norm().square_root() {
            Some(t) => t,
            None => {
                return None;
            },
        };
        let half: Fp = Fp::from_u64(2).inv();
        let root: Fp = match a0.add(&t).mul(&half).square_root() {
            Some(root) => root,
            None => match a0.sub(&t).mul(&half).square_root() {
                Some(root) => root,
                None => {
                    return None;
                },
            },
        };
        let imaginary: Fp = a1.mul(&root.add(&root).inv());
        Some(Fp2::from_parts(root, imaginary))
    }

    /// The raw encoding of the element.
    pub fn serialize(&self) -> (out: Vec<u8>)
        ensures
            out@ == fp2_raw_encoding(self@),
    {
        let mut out: Vec<u8> = self.re().serialize();
        let mut tail: Vec<u8> = self.im().serialize();
        out.append(&mut tail);
        out
    }

    /// Reads an element from the first 96 bytes of `bytes`. Fails where there
    /// are fewer, or where a coordinate is not below the modulus.
    pub fn deserialize(bytes: &[u8]) -> (r: Result<Fp2, ()>)
        ensures
            match fp2_raw_decoding(bytes@) {
                Some((v, n)) => r is Ok && r->Ok_0@ == v && r->Ok_0.wf(),
                None => r is Err,
            },
    {
        if bytes.len() < 96 {
            return Err(());
        }
        let front: &[u8] = vstd::slice::slice_subrange(bytes, 0, 48);
        let back: &[u8] = vstd::slice::slice_subrange(bytes, 48, 96);
        match (Fp::deserialize(front), Fp::deserialize(back)) {
            (Ok(a), Ok(b)) => Ok(Fp2::from_parts(a, b)),
            _ => Err(()),
        }
    }
}

impl Default for Fp2 {
    /// Zero.
    fn default() -> (r: Fp2)
        ensures
            r@ == (0nat, 0nat),
            r.wf(),
    {
        Fp2::from_parts(Fp::default(), Fp::default())
    }
}

impl PartialEq for Fp2 {
    fn eq(&self, other: &Fp2) -> (r: bool) {
        self.re() == other.re() && self.im() == other.im()
    }
}

impl Eq for Fp2 {

}

impl PartialEqSpecImpl for Fp2 {
    open spec fn obeys_eq_spec() -> bool {
        true
    }

    open spec fn eq_spec(&self, other: &Fp2) -> bool {
        self@ == other@
    }
}

impl RawSerializable for Fp2 {
    open spec fn raw_encoding(v: (nat, nat)) -> Seq<u8> {
        fp2_raw_encoding(v)
    }

    open spec fn raw_decoding(bytes: Seq<u8>) -> Option<((nat, nat), nat)> {
        fp2_raw_decoding(bytes)
    }

    fn serialize_raw(&self) -> (r: Result<Vec<u8>, ()>) {
        Ok(self.serialize())
    }

    fn deserialize_raw(&mut self, bytes: &[u8]) -> (r: Result<usize, ()>) {
        match Fp2::deserialize(bytes) {
            Ok(v) => {
                *self = v;
                Ok(96)
            },
            Err(e) => Err(e),
        }
    }
}

/// Decoding the raw encoding of an element gives the element back.
pub proof fn lemma_fp2_raw_roundtrip(v: (nat, nat))
    requires
        v.0 < fp_modulus(),
        v.1 < fp_modulus(),
    ensures
        fp2_raw_decoding(fp2_raw_encoding(v)) == Some((v, 96nat)),
{
    let s = fp2_raw_encoding(v);
    lemma_le_bytes_len(v.0, 48);
    lemma_le_bytes_len(v.1, 48);
    assert(s.subrange(0, 48) =~= fp_raw_encoding(v.0));
    assert(s.subrange(48, 96) =~= fp_raw_encoding(v.1));
    lemma_fp_raw_roundtrip(v.0);
    lemma_fp_raw_roundtrip(v.1);
}

} // verus!
