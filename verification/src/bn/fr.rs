//! The scalar field: integers modulo the group order `r`.
use vstd::prelude::*;
use vstd::std_specs::cmp::PartialEqSpecImpl;
use vstd::string::StringSliceAdditionalSpecFns;
use crate::codec::{
    bytes_value, le_bytes, lemma_byte_weight_of_limbs, lemma_le_bytes_len, lemma_le_bytes_value,
    limbs_from_bytes, limbs_to_bytes, reduce_bytes,
};
use crate::common::Base;
use crate::ffi::{os_random_bytes, MclBnFr};
use crate::limbs::{lemma_value_zero, limbs_equal, limbs_value, sub_borrow};
use crate::modular::{
    add_mod, inv_mod, mod_add, mod_div, mod_inv, mod_mul, mod_neg, mod_sub, mul_mod, neg_mod,
    sub_mod,
};
use crate::params::{fr_modulus, fr_modulus_limbs, lemma_value_of_four};
use crate::text::{
    ascii_string, format_number, is_number_text, lemma_text_roundtrip, number_text, parse_number,
    text_value,
};
use crate::traits::{Formattable, Random, RawSerializable};

verus! {

/// An element of the scalar field, held as its canonical representative.
#[derive(Debug, Clone, Copy)]
pub struct Fr {
    inner: MclBnFr,
}

impl View for Fr {
    type V = nat;

    /// The representative, a number below [`fr_modulus`].
    closed spec fn view(&self) -> nat {
        limbs_value(self.inner.d@)
    }
}

/// The raw encoding of a scalar: 32 bytes, least significant first.
pub open spec fn fr_raw_encoding(v: nat) -> Seq<u8> {
    le_bytes(v, 32)
}

/// The scalar that the first 32 bytes encode, if they denote a number below the modulus.
pub open spec fn fr_raw_decoding(bytes: Seq<u8>) -> Option<(nat, nat)> {
    if bytes.len() >= 32 && bytes_value(bytes.take(32)) < fr_modulus() {
        Some((bytes_value(bytes.take(32)), 32nat))
    } else {
        None
    }
}

/// The scalar that a run of digits denotes, if it is below the modulus.
pub open spec fn fr_value_of_text(text: Seq<u8>, base: Base) -> Option<nat> {
    if is_number_text(text, base.number()) && text_value(text, base.number()) < fr_modulus() {
        Some(text_value(text, base.number()))
    } else {
        None
    }
}

/// The scalar that random bytes are turned into: the number that they
/// denote, least significant byte first, reduced modulo the modulus.
pub open spec fn fr_sample(bytes: Seq<u8>) -> nat {
    bytes_value(bytes) % fr_modulus()
}

impl Fr {
    /// Whether the value is a canonical representative. Every scalar that
    /// this library hands out is.
    pub open spec fn wf(&self) -> bool {
        self@ < fr_modulus()
    }

    #[verifier::type_invariant]
    closed spec fn canonical(self) -> bool {
        limbs_value(self.inner.d@) < fr_modulus()
    }

    /// The scalar with the given limbs.
    fn from_limbs(d: [u64; 4]) -> (r: Fr)
        requires
            limbs_value(d@) < fr_modulus(),
        ensures
            r@ == limbs_value(d@),
            r.wf(),
    {
        Fr { inner: MclBnFr { d } }
    }

    /// The limbs of the representative.
    pub(crate) fn limbs(&self) -> (d: [u64; 4])
        ensures
            limbs_value(d@) == self@,
            self.wf(),
    {
        proof {
            use_type_invariant(self);
        }
        self.inner.d
    }

    /// Sets the scalar to zero.
    pub fn clear(&mut self)
        ensures
            final(self)@ == 0,
            final(self).wf(),
    {
        let d: [u64; 4] = [0u64;4];
        proof {
            lemma_value_zero(d@);
        }
        self.inner = MclBnFr { d };
    }

    /// The sum of two scalars.
    pub fn add(&self, other: &Fr) -> (r: Fr)
        ensures
            r@ == mod_add(self@, other@, fr_modulus()),
            r.wf(),
    {
        proof {
            use_type_invariant(self);
            use_type_invariant(other);
        }
        let m: [u64; 4] = fr_modulus_limbs();
        Fr::from_limbs(add_mod(&self.inner.d, &other.inner.d, &m))
    }

    /// The difference of two scalars.
    pub fn sub(&self, other: &Fr) -> (r: Fr)
        ensures
            r@ == mod_sub(self@, other@, fr_modulus()),
            r.wf(),
    {
        proof {
            use_type_invariant(self);
            use_type_invariant(other);
        }
        let m: [u64; 4] = fr_modulus_limbs();
        Fr::from_limbs(sub_mod(&self.inner.d, &other.inner.d, &m))
    }

    /// The product of two scalars.
    pub fn mul(&self, other: &Fr) -> (r: Fr)
        ensures
            r@ == mod_mul(self@, other@, fr_modulus()),
            r.wf(),
    {
        proof {
            use_type_invariant(self);
            use_type_invariant(other);
        }
        let m: [u64; 4] = fr_modulus_limbs();
        Fr::from_limbs(mul_mod(&self.inner.d, &other.inner.d, &m))
    }

    /// The quotient of two scalars: the first times the inverse of the
    /// second, and so zero where the second has no inverse.
    pub fn div(&self, other: &Fr) -> (r: Fr)
        ensures
            r@ == mod_div(self@, other@, fr_modulus()),
            r.wf(),
    {
        proof {
            use_type_invariant(self);
            use_type_invariant(other);
        }
        let m: [u64; 4] = fr_modulus_limbs();
        let inverse: [u64; 4] = inv_mod(&other.inner.d, &m);
        Fr::from_limbs(mul_mod(&self.inner.d, &inverse, &m))
    }

    /// The additive inverse.
    pub fn neg(&self) -> (r: Fr)
        ensures
            r@ == mod_neg(self@, fr_modulus()),
            r.wf(),
    {
        proof {
            use_type_invariant(self);
        }
        let m: [u64; 4] = fr_modulus_limbs();
        Fr::from_limbs(neg_mod(&self.inner.d, &m))
    }

    /// The multiplicative inverse, or zero where there is none, as for zero.
    pub fn inv(&self) -> (r: Fr)
        ensures
            r@ == mod_inv(self@, fr_modulus()),
            r.wf(),
    {
        proof {
            use_type_invariant(self);
        }
        let m: [u64; 4] = fr_modulus_limbs();
        Fr::from_limbs(inv_mod(&self.inner.d, &m))
    }

    /// The square.
    pub fn sqr(&self) -> (r: Fr)
        ensures
            r@ == mod_mul(self@, self@, fr_modulus()),
            r.wf(),
    {
        proof {
            use_type_invariant(self);
        }
        let m: [u64; 4] = fr_modulus_limbs();
        Fr::from_limbs(mul_mod(&self.inner.d, &self.inner.d, &m))
    }

    /// Whether the scalar is zero.
    pub fn is_zero(&self) -> (r: bool)
        ensures
            r <==> self@ == 0,
    {
        crate::limbs::is_zero(&self.inner.d)
    }

    /// Reads a scalar from a run of digits. Fails where the text is empty,
    /// holds anything but digits of the base, or denotes a number that is not
    /// below the modulus.
    pub fn from_str(buffer: &str, io_mode: Base) -> (r: Result<Fr, ()>)
        ensures
            match fr_value_of_text(buffer.spec_bytes(), io_mode) {
                Some(v) => r is Ok && r->Ok_0@ == v && r->Ok_0.wf(),
                None => r is Err,
            },
    {
        let m: [u64; 4] = fr_modulus_limbs();
        match parse_number(buffer.as_bytes(), io_mode.radix(), &m) {
            Some(d) => Ok(Fr::from_limbs(d)),
            None => Err(()),
        }
    }

    /// The raw encoding of the scalar.
    pub fn serialize(&self) -> (out: Vec<u8>)
        ensures
            out@ == fr_raw_encoding(self@),
    {
        limbs_to_bytes(&self.inner.d)
    }

    /// Reads a scalar from the first 32 bytes of `bytes`. Fails where there
    /// are fewer, or where they denote a number that is not below the modulus.
    pub fn deserialize(bytes: &[u8]) -> (r: Result<Fr, ()>)
        ensures
            match fr_raw_decoding(bytes@) {
                Some((v, n)) => r is Ok && r->Ok_0@ == v && r->Ok_0.wf(),
                None => r is Err,
            },
    {
        if bytes.len() < 32 {
            return Err(());
        }
        let d: [u64; 4] = limbs_from_bytes(bytes);
        let m: [u64; 4] = fr_modulus_limbs();
        let (_diff, borrow) = sub_borrow(&d, &m);
        if borrow == 1 {
            Ok(Fr::from_limbs(d))
        } else {
            Err(())
        }
    }

    /// A fresh sample: 64 bytes from the operating system's random source,
    /// reduced into the field. Fails only where the random source does.
    pub fn from_csprng() -> (r: Result<Fr, ()>)
        ensures
            r is Ok ==> r->Ok_0.wf() && exists|bytes: Seq<u8>|
                bytes.len() == 64 && r->Ok_0@ == #[trigger] fr_sample(bytes),
    {
        match os_random_bytes(64) {
            Some(bytes) => {
                let sample: Fr = Fr::from_bytes_wide(bytes.as_slice());
                proof {
                    assert(bytes@.len() == 64 && sample@ == fr_sample(bytes@));
                }
                Ok(sample)
            },
            None => Err(()),
        }
    }

    /// Reduces a little-endian number of any length into the field.
    pub fn from_bytes_wide(bytes: &[u8]) -> (r: Fr)
        ensures
            r@ == fr_sample(bytes@),
            r@ == bytes_value(bytes@) % fr_modulus(),
            r.wf(),
    {
        let m: [u64; 4] = fr_modulus_limbs();
        Fr::from_limbs(reduce_bytes(bytes, &m))
    }
}

impl Default for Fr {
    /// Zero.
    fn default() -> (r: Fr)
        ensures
            r@ == 0,
            r.wf(),
    {
        let d: [u64; 4] = [0u64;4];
        proof {
            lemma_value_zero(d@);
        }
        Fr::from_limbs(d)
    }
}

impl PartialEq for Fr {
    fn eq(&self, other: &Fr) -> (r: bool) {
        limbs_equal(&self.inner.d, &other.inner.d)
    }
}

impl Eq for Fr {

}

impl PartialEqSpecImpl for Fr {
    open spec fn obeys_eq_spec() -> bool {
        true
    }

    open spec fn eq_spec(&self, other: &Fr) -> bool {
        self@ == other@
    }
}

impl Random for Fr {
    fn set_by_csprng(&mut self) -> (r: Result<(), ()>) {
        match Fr::from_csprng() {
            Ok(v) => {
                proof {
                    let drawn = choose|bytes: Seq<u8>|
                        bytes.len() == 64 && v@ == #[trigger] fr_sample(bytes);
                    assert(drawn.len() == Self::sample_width() && v@ == Self::sample_of(drawn));
                }
                *self = v;
                Ok(())
            },
            Err(e) => Err(e),
        }
    }

    open spec fn sample_width() -> nat {
        64
    }

    open spec fn sample_of(bytes: Seq<u8>) -> nat {
        fr_sample(bytes)
    }
}

impl RawSerializable for Fr {
    open spec fn raw_encoding(v: nat) -> Seq<u8> {
        fr_raw_encoding(v)
    }

    open spec fn raw_decoding(bytes: Seq<u8>) -> Option<(nat, nat)> {
        fr_raw_decoding(bytes)
    }

    fn serialize_raw(&self) -> (r: Result<Vec<u8>, ()>) {
        Ok(self.serialize())
    }

    fn deserialize_raw(&mut self, bytes: &[u8]) -> (r: Result<usize, ()>) {
        match Fr::deserialize(bytes) {
            Ok(v) => {
                *self = v;
                Ok(32)
            },
            Err(e) => Err(e),
        }
    }
}

impl Formattable for Fr {
    open spec fn text_of(v: nat, base: Base) -> Seq<u8> {
        number_text(v, base.number())
    }

    open spec fn value_of_text(text: Seq<u8>, base: Base) -> Option<nat> {
        fr_value_of_text(text, base)
    }

    fn set_str(&mut self, buffer: &str, io_mode: Base) -> (r: Result<(), ()>) {
        match Fr::from_str(buffer, io_mode) {
            Ok(v) => {
                *self = v;
                Ok(())
            },
            Err(e) => Err(e),
        }
    }

    fn get_str(&self, io_mode: Base) -> (s: String) {
        let digits: Vec<u8> = format_number(&self.inner.d, io_mode.radix());
        proof {
            lemma_text_roundtrip(self@, io_mode.number());
        }
        ascii_string(digits.as_slice())
    }
}

/// Decoding the raw encoding of a scalar gives the scalar back.
pub proof fn lemma_fr_raw_roundtrip(v: nat)
    requires
        v < fr_modulus(),
    ensures
        fr_raw_decoding(fr_raw_encoding(v)) == Some((v, 32nat)),
{
    let s = fr_raw_encoding(v);
    lemma_le_bytes_len(v, 32);
    assert(s.take(32) =~= s);
    lemma_byte_weight_of_limbs(4);
    lemma_value_of_four(seq![0u64, 0u64, 0u64, 0u64]);
    lemma_le_bytes_value(v, 32);
}

/// Reading the text of a scalar gives the scalar back.
pub proof fn lemma_fr_text_roundtrip(v: nat, base: Base)
    requires
        v < fr_modulus(),
    ensures
        fr_value_of_text(number_text(v, base.number()), base) == Some(v),
{
    lemma_text_roundtrip(v, base.number());
}

} // verus!
