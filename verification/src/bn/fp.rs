//! The base field: integers modulo the prime `p`.
use vstd::prelude::*;
use vstd::std_specs::cmp::PartialEqSpecImpl;
use vstd::arithmetic::div_mod::lemma_fundamental_div_mod_converse;
use crate::codec::{
    bytes_value, le_bytes, lemma_byte_weight_of_limbs, lemma_le_bytes_len, lemma_le_bytes_value,
    limbs_from_bytes, limbs_to_bytes, reduce_bytes,
};
use crate::ffi::{os_random_bytes, MclBnFp};
use crate::limbs::{
    add_carry, div_small, lemma_value_bound, lemma_value_zero, limbs_equal, limbs_value,
    sub_borrow, weight,
};
use crate::modular::{
    add_mod, inv_mod, mod_add, mod_div, mod_inv, mod_mul, mod_neg, mod_pow, mod_sub, mul_mod,
    neg_mod, pow_mod, small_limbs, sub_mod,
};
use crate::params::{fp_modulus, fp_modulus_limbs, lemma_value_of_six};
use crate::traits::{Random, RawSerializable};

verus! {

/// An element of the base field, held as its canonical representative.
#[derive(Debug, Clone, Copy)]
pub struct Fp {
    inner: MclBnFp,
}

impl View for Fp {
    type V = nat;

    /// The representative, a number below [`fp_modulus`].
    closed spec fn view(&self) -> nat {
        limbs_value(self.inner.d@)
    }
}

/// The raw encoding of an element: 48 bytes, least significant first.
pub open spec fn fp_raw_encoding(v: nat) -> Seq<u8> {
    le_bytes(v, 48)
}

/// The element that the first 48 bytes encode, if they denote a number below the modulus.
pub open spec fn fp_raw_decoding(bytes: Seq<u8>) -> Option<(nat, nat)> {
    if bytes.len() >= 48 && bytes_value(bytes.take(48)) < fp_modulus() {
        Some((bytes_value(bytes.take(48)), 48nat))
    } else {
        None
    }
}

/// The candidate for a square root: the power `v^((p + 1) / 4)`.
pub open spec fn fp_root_candidate(v: nat) -> nat {
    mod_pow(v, (fp_modulus() + 1) / 4, fp_modulus())
}

/// The square root that [`Fp::square_root`] finds: the candidate, where its
/// square is `v`.
pub open spec fn fp_square_root(v: nat) -> Option<nat> {
    if mod_mul(fp_root_candidate(v), fp_root_candidate(v), fp_modulus()) == v {
        Some(fp_root_candidate(v))
    } else {
        None
    }
}

/// Euler's criterion: the power `v^((p - 1) / 2)`, which is one for a
/// non-zero square.
pub open spec fn fp_euler(v: nat) -> nat {
    mod_pow(v, ((fp_modulus() - 1) / 2) as nat, fp_modulus())
}

/// The element that random bytes are turned into: the number that they
/// denote, least significant byte first, reduced modulo the modulus.
pub open spec fn fp_sample(bytes: Seq<u8>) -> nat {
    bytes_value(bytes) % fp_modulus()
}

impl Fp {
    /// Whether the value is a canonical representative. Every element that
    /// this library hands out is.
    pub open spec fn wf(&self) -> bool {
        self@ < fp_modulus()
    }

    #[verifier::type_invariant]
    closed spec fn canonical(self) -> bool {
        limbs_value(self.inner.d@) < fp_modulus()
    }

    /// The element with the given limbs.
    pub(crate) fn from_limbs(d: [u64; 6]) -> (r: Fp)
        requires
            limbs_value(d@) < fp_modulus(),
        ensures
            r@ == limbs_value(d@),
            r.wf(),
    {
        Fp { inner: MclBnFp { d } }
    }

    /// Sets the element to zero.
    pub fn clear(&mut self)
        ensures
            final(self)@ == 0,
            final(self).wf(),
    {
        let d: [u64; 6] = [0u64;6];
        proof {
            lemma_value_zero(d@);
        }
        self.inner = MclBnFp { d };
    }

    /// The sum of two elements.
    pub fn add(&self, other: &Fp) -> (r: Fp)
        ensures
            r@ == mod_add(self@, other@, fp_modulus()),
            r.wf(),
    {
        proof {
            use_type_invariant(self);
            use_type_invariant(other);
        }
        let m: [u64; 6] = fp_modulus_limbs();
        Fp::from_limbs(add_mod(&self.inner.d, &other.inner.d, &m))
    }

    /// The difference of two elements.
    pub fn sub(&self, other: &Fp) -> (r: Fp)
        ensures
            r@ == mod_sub(self@, other@, fp_modulus()),
            r.wf(),
    {
        proof {
            use_type_invariant(self);
            use_type_invariant(other);
        }
        let m: [u64; 6] = fp_modulus_limbs();
        Fp::from_limbs(sub_mod(&self.inner.d, &other.inner.d, &m))
    }

    /// The product of two elements.
    pub fn mul(&self, other: &Fp) -> (r: Fp)
        ensures
            r@ == mod_mul(self@, other@, fp_modulus()),
            r.wf(),
    {
        proof {
            use_type_invariant(self);
            use_type_invariant(other);
        }
        let m: [u64; 6] = fp_modulus_limbs();
        Fp::from_limbs(mul_mod(&self.inner.d, &other.inner.d, &m))
    }

    /// The quotient of two elements: the first times the inverse of the
    /// second, and so zero where the second has no inverse.
    pub fn div(&self, other: &Fp) -> (r: Fp)
        ensures
            r@ == mod_div(self@, other@, fp_modulus()),
            r.wf(),
    {
        proof {
            use_type_invariant(self);
            use_type_invariant(other);
        }
        let m: [u64; 6] = fp_modulus_limbs();
        let inverse: [u64; 6] = inv_mod(&other.inner.d, &m);
        Fp::from_limbs(mul_mod(&self.inner.d, &inverse, &m))
    }

    /// The additive inverse.
    pub fn neg(&self) -> (r: Fp)
        ensures
            r@ == mod_neg(self@, fp_modulus()),
            r.wf(),
    {
        proof {
            use_type_invariant(self);
        }
        let m: [u64; 6] = fp_modulus_limbs();
        Fp::from_limbs(neg_mod(&self.inner.d, &m))
    }

    /// The multiplicative inverse, or zero where there is none, as for zero.
    pub fn inv(&self) -> (r: Fp)
        ensures
            r@ == mod_inv(self@, fp_modulus()),
            r.wf(),
    {
        proof {
            use_type_invariant(self);
        }
        let m: [u64; 6] = fp_modulus_limbs();
        Fp::from_limbs(inv_mod(&self.inner.d, &m))
    }

    /// The square.
    pub fn sqr(&self) -> (r: Fp)
        ensures
            r@ == mod_mul(self@, self@, fp_modulus()),
            r.wf(),
    {
        proof {
            use_type_invariant(self);
        }
        let m: [u64; 6] = fp_modulus_limbs();
        Fp::from_limbs(mul_mod(&self.inner.d, &self.inner.d, &m))
    }

    /// Whether the element is zero.
    pub fn is_zero(&self) -> (r: bool)
        ensures
            r <==> self@ == 0,
    {
        crate::limbs::is_zero(&self.inner.d)
    }

    /// The limbs of the representative.
    pub(crate) fn limbs(&self) -> (d: [u64; 6])
        ensures
            limbs_value(d@) == self@,
            self.wf(),
    {
        proof {
            use_type_invariant(self);
        }
        self.inner.d
    }

    /// The element that a small number denotes.
    pub fn from_u64(v: u64) -> (r: Fp)
        ensures
            r@ == v as nat,
            r.wf(),
    {
        Fp::from_limbs(small_limbs(v))
    }

    /// The power of the element with the exponent that `e` denotes.
    pub fn pow(&self, e: &[u64; 6]) -> (r: Fp)
        ensures
            r@ == mod_pow(self@, limbs_value(e@), fp_modulus()),
            r.wf(),
    {
        proof {
            use_type_invariant(self);
        }
        let m: [u64; 6] = fp_modulus_limbs();
        Fp::from_limbs(pow_mod(&self.inner.d, e, &m))
    }

    /// A square root of the element, if it has one: the power with the
    /// exponent `(p + 1) / 4`, where that squares to the element.
    pub fn square_root(&self) -> (r: Option<Fp>)
        ensures
            match fp_square_root(self@) {
                Some(v) => r is Some && r->0@ == v && r->0.wf() && mod_mul(v, v, fp_modulus())
                    == self@,
                None => r is None,
            },
    {
        let c: Fp = self.root_candidate();
        let square: Fp = c.sqr();
        if square == *self {
            Some(c)
        } else {
            None
        }
    }

    /// The candidate for a square root: the power with the exponent `(p + 1) / 4`.
    pub fn root_candidate(&self) -> (r: Fp)
        ensures
            r@ == fp_root_candidate(self@),
            r.wf(),
    {
        let m: [u64; 6] = fp_modulus_limbs();
        let one: [u64; 6] = small_limbs(1);
        let (sum, carry) = add_carry(&m, &one);
        let (e, rem) = div_small(&sum, 4);
        proof {
            lemma_value_bound(sum@);
            let w = weight(6);
            let c = carry as nat;
            assert(c == 1 ==> c * w == w) by (nonlinear_arith);
            assert(c == 0 ==> c * w == 0) by (nonlinear_arith);
            lemma_fundamental_div_mod_converse(
                (fp_modulus() + 1) as int,
                4,
                limbs_value(e@) as int,
                rem as int,
            );
        }
        self.pow(&e)
    }

    /// Euler's criterion: the power with the exponent `(p - 1) / 2`.
    pub fn euler(&self) -> (r: Fp)
        ensures
            r@ == fp_euler(self@),
            r.wf(),
    {
        let m: [u64; 6] = fp_modulus_limbs();
        let one: [u64; 6] = small_limbs(1);
        let (diff, borrow) = sub_borrow(&m, &one);
        let (e, rem) = div_small(&diff, 2);
        proof {
            let w = weight(6);
            let c = borrow as nat;
            assert(c == 0 ==> c * w == 0) by (nonlinear_arith);
            lemma_fundamental_div_mod_converse(
                (fp_modulus() - 1) as int,
                2,
                limbs_value(e@) as int,
                rem as int,
            );
        }
        self.pow(&e)
    }

    /// The raw encoding of the element.
    pub fn serialize(&self) -> (out: Vec<u8>)
        ensures
            out@ == fp_raw_encoding(self@),
    {
        limbs_to_bytes(&self.inner.d)
    }

    /// Reads an element from the first 48 bytes of `bytes`. Fails where there
    /// are fewer, or where they denote a number that is not below the modulus.
    pub fn deserialize(bytes: &[u8]) -> (r: Result<Fp, ()>)
        ensures
            match fp_raw_decoding(bytes@) {
                Some((v, n)) => r is Ok && r->Ok_0@ == v && r->Ok_0.wf(),
                None => r is Err,
            },
    {
        if bytes.len() < 48 {
            return Err(());
        }
        let d: [u64; 6] = limbs_from_bytes(bytes);
        let m: [u64; 6] = fp_modulus_limbs();
        let (_diff, borrow) = sub_borrow(&d, &m);
        if borrow == 1 {
            Ok(Fp::from_limbs(d))
        } else {
            Err(())
        }
    }

    /// A fresh sample: 96 bytes from the operating system's random source,
    /// reduced into the field. Fails only where the random source does.
    pub fn from_csprng() -> (r: Result<Fp, ()>)
        ensures
            r is Ok ==> r->Ok_0.wf() && exists|bytes: Seq<u8>|
                bytes.len() == 96 && r->Ok_0@ == #[trigger] fp_sample(bytes),
    {
        match os_random_bytes(96) {
            Some(bytes) => {
                let sample: Fp = Fp::from_bytes_wide(bytes.as_slice());
                proof {
                    assert(bytes@.len() == 96 && sample@ == fp_sample(bytes@));
                }
                Ok(sample)
            },
            None => Err(()),
        }
    }

    /// Reduces a little-endian number of any length into the field.
    pub fn from_bytes_wide(bytes: &[u8]) -> (r: Fp)
        ensures
            r@ == fp_sample(bytes@),
            r@ == bytes_value(bytes@) % fp_modulus(),
            r.wf(),
    {
        let m: [u64; 6] = fp_modulus_limbs();
        Fp::from_limbs(reduce_bytes(bytes, &m))
    }
}

impl Default for Fp {
    /// Zero.
    fn default() -> (r: Fp)
        ensures
            r@ == 0,
            r.wf(),
    {
        let d: [u64; 6] = [0u64;6];
        proof {
            lemma_value_zero(d@);
        }
        Fp::from_limbs(d)
    }
}

impl PartialEq for Fp {
    fn eq(&self, other: &Fp) -> (r: bool) {
        limbs_equal(&self.inner.d, &other.inner.d)
    }
}

impl Eq for Fp {

}

impl PartialEqSpecImpl for Fp {
    open spec fn obeys_eq_spec() -> bool {
        true
    }

    open spec fn eq_spec(&self, other: &Fp) -> bool {
        self@ == other@
    }
}

impl Random for Fp {
    fn set_by_csprng(&mut self) -> (r: Result<(), ()>) {
        match Fp::from_csprng() {
            Ok(v) => {
                proof {
                    let drawn = choose|bytes: Seq<u8>|
                        bytes.len() == 96 && v@ == #[trigger] fp_sample(bytes);
                    assert(drawn.len() == Self::sample_width() && v@ == Self::sample_of(drawn));
                }
                *self = v;
                Ok(())
            },
            Err(e) => Err(e),
        }
    }

    open spec fn sample_width() -> nat {
        96
    }

    open spec fn sample_of(bytes: Seq<u8>) -> nat {
        fp_sample(bytes)
    }
}

impl RawSerializable for Fp {
    open spec fn raw_encoding(v: nat) -> Seq<u8> {
        fp_raw_encoding(v)
    }

    open spec fn raw_decoding(bytes: Seq<u8>) -> Option<(nat, nat)> {
        fp_raw_decoding(bytes)
    }

    fn serialize_raw(&self) -> (r: Result<Vec<u8>, ()>) {
        Ok(self.serialize())
    }

    fn deserialize_raw(&mut self, bytes: &[u8]) -> (r: Result<usize, ()>) {
        match Fp::deserialize(bytes) {
            Ok(v) => {
                *self = v;
                Ok(48)
            },
            Err(e) => Err(e),
        }
    }
}

/// Decoding the raw encoding of an element gives the element back.
pub proof fn lemma_fp_raw_roundtrip(v: nat)
    requires
        v < fp_modulus(),
    ensures
        fp_raw_decoding(fp_raw_encoding(v)) == Some((v, 48nat)),
{
    let s = fp_raw_encoding(v);
    lemma_le_bytes_len(v, 48);
    assert(s.take(48) =~= s);
    lemma_byte_weight_of_limbs(6);
    lemma_value_of_six(seq![0u64, 0u64, 0u64, 0u64, 0u64, 0u64]);
    lemma_le_bytes_value(v, 48);
}

} // verus!
