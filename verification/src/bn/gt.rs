//! The target group of the pairing, inside the degree twelve extension of
//! the base field. The group is written multiplicatively.
use vstd::prelude::*;
use vstd::std_specs::cmp::PartialEqSpecImpl;
use vstd::string::StringSliceAdditionalSpecFns;
use crate::bn::fp::{fp_raw_decoding, fp_raw_encoding, lemma_fp_raw_roundtrip, Fp};
use crate::bn::fr::Fr;
use crate::bn::g1::G1;
use crate::bn::g2::G2;
use crate::codec::lemma_le_bytes_len;
use crate::common::Base;
use crate::curve::{
    gt_canonical, gt_identity, gt_mul, gt_pow, gt_valid, lemma_gt_valid_is_canonical, pairing,
};
use crate::ffi::{engine_gt_mul, engine_gt_pow, engine_pairing, MclBnFp, MclBnGT};
use crate::limbs::{limbs_equal, limbs_value};
use crate::modular::small_limbs;
use crate::params::{fp_modulus, fp_modulus_limbs, fr_modulus_limbs};
use crate::text::{
    ascii_string, format_list, lemma_list_roundtrip, limbs_values, list_text, list_value,
    parse_list,
};
use crate::traits::{Formattable, RawSerializable};

verus! {

/// An element of the target group, held as twelve canonical coefficients.
#[derive(Debug, Clone, Copy)]
pub struct GT {
    inner: MclBnGT,
}

impl View for GT {
    type V = Seq<nat>;

    /// The twelve coefficients, each a number below the modulus.
    closed spec fn view(&self) -> Seq<nat> {
        self.inner.value()
    }
}

/// The raw encoding of a list of base field elements, one after the other.
pub open spec fn fp_list_encoding(vs: Seq<nat>) -> Seq<u8>
    decreases vs.len(),
{
    if vs.len() == 0 {
        Seq::<u8>::empty()
    } else {
        fp_raw_encoding(vs[0]) + fp_list_encoding(vs.drop_first())
    }
}

/// The `n` base field elements that the front of `bytes` encodes, if it does.
pub open spec fn fp_list_decoding(bytes: Seq<u8>, n: nat) -> Option<Seq<nat>>
    decreases n,
{
    if n == 0 {
        Some(Seq::<nat>::empty())
    } else {
        match fp_raw_decoding(bytes) {
            Some((v, _)) => match fp_list_decoding(bytes.skip(48), (n - 1) as nat) {
                Some(rest) => Some(seq![v] + rest),
                None => None,
            },
            None => None,
        }
    }
}

/// The raw encoding of an element: its twelve coefficients, 48 bytes each.
pub open spec fn gt_raw_encoding(a: Seq<nat>) -> Seq<u8> {
    fp_list_encoding(a)
}

/// The element that the first 576 bytes encode, if they encode one: twelve
/// canonical coefficients of an element of the group.
pub open spec fn gt_raw_decoding(bytes: Seq<u8>) -> Option<(Seq<nat>, nat)> {
    match fp_list_decoding(bytes, 12) {
        Some(a) => if gt_valid(a) {
            Some((a, 576nat))
        } else {
            None
        },
        None => None,
    }
}

/// The text of an element: its twelve coefficients with one space between neighbours.
pub open spec fn gt_text_of(a: Seq<nat>, base: Base) -> Seq<u8> {
    list_text(a, base.number())
}

/// The element that a text denotes, if it denotes one.
pub open spec fn gt_value_of_text(text: Seq<u8>, base: Base) -> Option<Seq<nat>> {
    match list_value(text, 12, base.number(), fp_modulus()) {
        Some(a) => if gt_valid(a) {
            Some(a)
        } else {
            None
        },
        None => None,
    }
}

/// Decoding the encoding of a list of canonical elements, with whatever
/// follows it, gives the list back.
pub proof fn lemma_fp_list_roundtrip(vs: Seq<nat>, after: Seq<u8>)
    requires
        forall|i: int| 0 <= i < vs.len() ==> vs[i] < fp_modulus(),
    ensures
        fp_list_decoding(fp_list_encoding(vs) + after, vs.len()) == Some(vs),
    decreases vs.len(),
{
    if vs.len() == 0 {
        assert(vs =~= Seq::<nat>::empty());
    } else {
        let head = fp_raw_encoding(vs[0]);
        let rest = vs.drop_first();
        let bytes = fp_list_encoding(vs) + after;
        lemma_le_bytes_len(vs[0], 48);
        lemma_fp_raw_roundtrip(vs[0]);
        assert(bytes.take(48) =~= head);
        assert(head.take(48) =~= head);
        assert(bytes.skip(48) =~= fp_list_encoding(rest) + after);
        lemma_fp_list_roundtrip(rest, after);
        assert(seq![vs[0]] + rest =~= vs);
    }
}

/// Appends the encoding of the elements of `vs` from position `from` on.
fn push_encoding(vs: &Vec<[u64; 6]>, from: usize, out: &mut Vec<u8>)
    requires
        from <= vs@.len(),
        forall|i: int| 0 <= i < vs@.len() ==> limbs_value(#[trigger] vs@[i]@) < fp_modulus(),
    ensures
        final(out)@ == old(out)@ + fp_list_encoding(limbs_values(vs@).skip(from as int)),
    decreases vs@.len() - from,
{
    let ghost all = limbs_values(vs@);
    if from >= vs.len() {
        proof {
            assert(all.skip(from as int).len() == 0);
            assert(old(out)@ + Seq::<u8>::empty() =~= old(out)@);
        }
        return ;
    }
    let mut head: Vec<u8> = Fp::from_limbs(vs[from]).serialize();
    let ghost encoded = head@;
    out.append(&mut head);
    let ghost mid = out@;
    push_encoding(vs, from + 1, out);
    proof {
        assert(all.skip(from as int)[0] == limbs_value(vs@[from as int]@));
        assert(all.skip(from as int).drop_first() =~= all.skip(from + 1));
        let tail = fp_list_encoding(all.skip(from + 1));
        assert(mid + tail =~= old(out)@ + (encoded + tail));
    }
}

/// Reads `n` base field elements from the front of `bytes`.
fn read_list(bytes: &[u8], n: usize) -> (r: Option<Vec<[u64; 6]>>)
    ensures
        match fp_list_decoding(bytes@, n as nat) {
            Some(vs) => r is Some && limbs_values(r->0@) == vs && r->0@.len() == n,
            None => r is None,
        },
        r is Some ==> forall|i: int|
            0 <= i < n ==> limbs_value(#[trigger] r->0@[i]@) < fp_modulus(),
    decreases n,
{
    if n == 0 {
        let out: Vec<[u64; 6]> = Vec::new();
        proof {
            assert(limbs_values(out@) =~= Seq::<nat>::empty());
        }
        return Some(out);
    }
    let first: Fp = match Fp::deserialize(bytes) {
        Ok(v) => v,
        Err(_) => {
            return None;
        },
    };
    let tail: &[u8] = vstd::slice::slice_subrange(bytes, 48, bytes.len());
    proof {
        assert(tail@ =~= bytes@.skip(48));
    }
    match read_list(tail, n - 1) {
        Some(mut rest) => {
            let ghost before = rest@;
            let d: [u64; 6] = first.limbs();
            rest.insert(0, d);
            proof {
                assert(limbs_values(rest@) =~= seq![first@] + limbs_values(before));
                assert forall|i: int| 0 <= i < n implies limbs_value(#[trigger] rest@[i]@)
                    < fp_modulus() by {
                    if i > 0 {
                        assert(rest@[i] == before[i - 1]);
                    }
                }
            }
            Some(rest)
        },
        None => None,
    }
}

impl GT {
    /// Whether the element is an element of the group. Every element that
    /// this library hands out is.
    pub open spec fn wf(&self) -> bool {
        gt_valid(self@)
    }

    #[verifier::type_invariant]
    closed spec fn valid(self) -> bool {
        gt_valid(self.inner.value())
    }

    /// The storage that holds the given coefficients.
    fn storage_of(vs: &Vec<[u64; 6]>) -> (inner: MclBnGT)
        requires
            vs@.len() == 12,
            forall|i: int| 0 <= i < 12 ==> limbs_value(#[trigger] vs@[i]@) < fp_modulus(),
        ensures
            inner.value() == limbs_values(vs@),
            gt_canonical(inner.value()),
    {
        let mut d: [MclBnFp; 12] = [MclBnFp { d: [0u64;6] };12];
        let mut i: usize = 0;
        while i < 12
            invariant
                0 <= i <= 12,
                vs@.len() == 12,
                forall|j: int| 0 <= j < i ==> (#[trigger] d@[j]).d == vs@[j],
            decreases 12 - i,
        {
            d[i] = MclBnFp { d: vs[i] };
            i += 1;
        }
        let inner = MclBnGT { d };
        proof {
            assert(inner.value() =~= limbs_values(vs@)) by {
                assert forall|j: int| 0 <= j < 12 implies inner.value()[j] == limbs_values(vs@)[j] by {
                    assert(d@[j].d == vs@[j]);
                }
            }
            assert forall|j: int| 0 <= j < 12 implies (#[trigger] inner.value()[j])
                < fp_modulus() by {
                assert(d@[j].d == vs@[j]);
                assert(limbs_value(vs@[j]@) < fp_modulus());
            }
        }
        inner
    }

    /// Whether the storage holds the neutral element.
    fn holds_identity(inner: &MclBnGT) -> (r: bool)
        ensures
            r == (inner.value() == gt_identity()),
    {
        let one: [u64; 6] = small_limbs(1);
        if !limbs_equal(&inner.d[0].d, &one) {
            proof {
                assert(inner.value()[0] != gt_identity()[0]);
            }
            return false;
        }
        let mut i: usize = 1;
        while i < 12
            invariant
                1 <= i <= 12,
                inner.value()[0] == 1,
                forall|j: int| 1 <= j < i ==> (#[trigger] inner.value()[j]) == 0,
            decreases 12 - i,
        {
            if !crate::limbs::is_zero(&inner.d[i].d) {
                proof {
                    assert(inner.value()[i as int] != gt_identity()[i as int]);
                }
                return false;
            }
            i += 1;
        }
        proof {
            assert(inner.value() =~= gt_identity());
        }
        true
    }

    /// The element with the given coefficients, if they are those of an
    /// element of the group.
    fn checked(vs: &Vec<[u64; 6]>) -> (r: Option<GT>)
        requires
            vs@.len() == 12,
            forall|i: int| 0 <= i < 12 ==> limbs_value(#[trigger] vs@[i]@) < fp_modulus(),
        ensures
            match r {
                Some(a) => gt_valid(limbs_values(vs@)) && a@ == limbs_values(vs@) && a.wf(),
                None => !gt_valid(limbs_values(vs@)),
            },
    {
        let inner: MclBnGT = GT::storage_of(vs);
        if GT::holds_identity(&inner) {
            return Some(GT { inner });
        }
        let order: [u64; 4] = fr_modulus_limbs();
        let power: MclBnGT = engine_gt_pow(&inner, &order);
        if GT::holds_identity(&power) {
            Some(GT { inner })
        } else {
            None
        }
    }

    /// The coefficients of the element.
    fn coefficients(&self) -> (vs: Vec<[u64; 6]>)
        ensures
            vs@.len() == 12,
            limbs_values(vs@) == self@,
            forall|i: int| 0 <= i < 12 ==> limbs_value(#[trigger] vs@[i]@) < fp_modulus(),
    {
        proof {
            use_type_invariant(self);
        }
        let mut vs: Vec<[u64; 6]> = Vec::new();
        let mut i: usize = 0;
        while i < 12
            invariant
                0 <= i <= 12,
                vs@.len() == i,
                forall|j: int| 0 <= j < i ==> (#[trigger] vs@[j]) == self.inner.d@[j].d,
            decreases 12 - i,
        {
            vs.push(self.inner.d[i].d);
            i += 1;
        }
        proof {
            assert(limbs_values(vs@) =~= self.inner.value()) by {
                assert forall|j: int| 0 <= j < 12 implies limbs_values(vs@)[j]
                    == self.inner.value()[j] by {
                    assert(vs@[j] == self.inner.d@[j].d);
                }
            }
            assert forall|j: int| 0 <= j < 12 implies limbs_value(#[trigger] vs@[j]@)
                < fp_modulus() by {
                assert(vs@[j] == self.inner.d@[j].d);
                assert(self.inner.value()[j] < fp_modulus());
            }
        }
        vs
    }

    /// The neutral element.
    pub fn identity() -> (r: GT)
        ensures
            r@ == gt_identity(),
            r.wf(),
    {
        let mut vs: Vec<[u64; 6]> = Vec::new();
        vs.push(Fp::from_u64(1).limbs());
        let mut i: usize = 1;
        while i < 12
            invariant
                1 <= i <= 12,
                vs@.len() == i,
                limbs_value(vs@[0]@) == 1,
                forall|j: int| 1 <= j < i ==> limbs_value(#[trigger] vs@[j]@) == 0,
            decreases 12 - i,
        {
            vs.push(Fp::default().limbs());
            i += 1;
        }
        proof {
            assert(limbs_values(vs@) =~= gt_identity());
        }
        GT { inner: GT::storage_of(&vs) }
    }

    /// Whether this is the neutral element.
    pub fn is_one(&self) -> (r: bool)
        ensures
            r == (self@ == gt_identity()),
    {
        GT::holds_identity(&self.inner)
    }

    /// Sets the element to the neutral element.
    pub fn clear(&mut self)
        ensures
            final(self)@ == gt_identity(),
            final(self).wf(),
    {
        *self = GT::identity();
    }

    /// The pairing of a point of the first group with one of the second.
    pub fn from_pairing(p: &G1, q: &G2) -> (r: GT)
        ensures
            r@ == pairing(p@, q@),
            r.wf(),
    {
        if p.is_zero() || q.is_zero() {
            GT::identity()
        } else {
            let (px, py) = p.coordinates();
            let (qx, qy) = q.coordinates();
            GT { inner: engine_pairing(&px, &py, &qx, &qy) }
        }
    }

    /// The product of two elements.
    pub fn mul(&self, other: &GT) -> (r: GT)
        ensures
            r@ == gt_mul(self@, other@),
            r.wf(),
    {
        proof {
            use_type_invariant(self);
            use_type_invariant(other);
        }
        GT { inner: engine_gt_mul(&self.inner, &other.inner) }
    }

    /// The power of the element with a scalar as the exponent.
    pub fn pow(&self, a: &Fr) -> (r: GT)
        ensures
            r@ == gt_pow(self@, a@),
            r.wf(),
    {
        proof {
            use_type_invariant(self);
        }
        let k: [u64; 4] = a.limbs();
        GT { inner: engine_gt_pow(&self.inner, &k) }
    }

    /// The raw encoding of the element.
    pub fn serialize(&self) -> (out: Vec<u8>)
        ensures
            out@ == gt_raw_encoding(self@),
    {
        let vs: Vec<[u64; 6]> = self.coefficients();
        let mut out: Vec<u8> = Vec::new();
        push_encoding(&vs, 0, &mut out);
        proof {
            assert(limbs_values(vs@).skip(0) =~= limbs_values(vs@));
            assert(Seq::<u8>::empty() + fp_list_encoding(self@) =~= fp_list_encoding(self@));
        }
        out
    }

    /// Reads an element from the first 576 bytes of `bytes`. Fails where
    /// there are fewer, where a coefficient is not below the modulus, and
    /// where the coefficients are not those of an element of the group.
    pub fn deserialize(bytes: &[u8]) -> (r: Result<GT, ()>)
        ensures
            match gt_raw_decoding(bytes@) {
                Some((a, n)) => r is Ok && r->Ok_0@ == a && r->Ok_0.wf(),
                None => r is Err,
            },
    {
        match read_list(bytes, 12) {
            Some(vs) => match GT::checked(&vs) {
                Some(a) => Ok(a),
                None => Err(()),
            },
            None => Err(()),
        }
    }

    /// Reads an element from its text: twelve coefficients with one space
    /// between neighbours. Fails where the text is no such list, and where
    /// the coefficients are not those of an element of the group.
    pub fn from_str(buffer: &str, io_mode: Base) -> (r: Result<GT, ()>)
        ensures
            match gt_value_of_text(buffer.spec_bytes(), io_mode) {
                Some(a) => r is Ok && r->Ok_0@ == a && r->Ok_0.wf(),
                None => r is Err,
            },
    {
        let m: [u64; 6] = fp_modulus_limbs();
        match parse_list(buffer.as_bytes(), 12, io_mode.radix(), &m) {
            Some(vs) => match GT::checked(&vs) {
                Some(a) => Ok(a),
                None => Err(()),
            },
            None => Err(()),
        }
    }
}

impl Default for GT {
    /// The neutral element.
    fn default() -> (r: GT)
        ensures
            r@ == gt_identity(),
            r.wf(),
    {
        GT::identity()
    }
}

impl PartialEq for GT {
    fn eq(&self, other: &GT) -> (r: bool) {
        let mut i: usize = 0;
        while i < 12
            invariant
                0 <= i <= 12,
                forall|j: int| 0 <= j < i ==> self.inner.value()[j] == other.inner.value()[j],
            decreases 12 - i,
        {
            if !limbs_equal(&self.inner.d[i].d, &other.inner.d[i].d) {
                proof {
                    assert(self.inner.value()[i as int] != other.inner.value()[i as int]);
                }
                return false;
            }
            i += 1;
        }
        proof {
            assert(self.inner.value() =~= other.inner.value());
        }
        true
    }
}

impl Eq for GT {

}

impl PartialEqSpecImpl for GT {
    open spec fn obeys_eq_spec() -> bool {
        true
    }

    open spec fn eq_spec(&self, other: &GT) -> bool {
        self@ == other@
    }
}

impl RawSerializable for GT {
    open spec fn raw_encoding(v: Seq<nat>) -> Seq<u8> {
        gt_raw_encoding(v)
    }

    open spec fn raw_decoding(bytes: Seq<u8>) -> Option<(Seq<nat>, nat)> {
        gt_raw_decoding(bytes)
    }

    fn serialize_raw(&self) -> (r: Result<Vec<u8>, ()>) {
        Ok(self.serialize())
    }

    fn deserialize_raw(&mut self, bytes: &[u8]) -> (r: Result<usize, ()>) {
        match GT::deserialize(bytes) {
            Ok(v) => {
                *self = v;
                Ok(576)
            },
            Err(e) => Err(e),
        }
    }
}

impl Formattable for GT {
    open spec fn text_of(v: Seq<nat>, base: Base) -> Seq<u8> {
        gt_text_of(v, base)
    }

    open spec fn value_of_text(text: Seq<u8>, base: Base) -> Option<Seq<nat>> {
        gt_value_of_text(text, base)
    }

    fn set_str(&mut self, buffer: &str, io_mode: Base) -> (r: Result<(), ()>) {
        match GT::from_str(buffer, io_mode) {
            Ok(v) => {
                *self = v;
                Ok(())
            },
            Err(e) => Err(e),
        }
    }

    fn get_str(&self, io_mode: Base) -> (s: String) {
        let vs: Vec<[u64; 6]> = self.coefficients();
        let digits: Vec<u8> = format_list(&vs, io_mode.radix());
        proof {
            lemma_list_roundtrip(self@, io_mode.number(), fp_modulus());
        }
        ascii_string(digits.as_slice())
    }
}

/// Decoding the raw encoding of an element gives the element back.
pub proof fn lemma_gt_raw_roundtrip(a: Seq<nat>)
    requires
        gt_valid(a),
    ensures
        gt_raw_decoding(gt_raw_encoding(a)) == Some((a, 576nat)),
{
    lemma_gt_valid_is_canonical(a);
    lemma_fp_list_roundtrip(a, Seq::<u8>::empty());
    assert(fp_list_encoding(a) + Seq::<u8>::empty() =~= fp_list_encoding(a));
}

/// Reading the text of an element gives the element back.
pub proof fn lemma_gt_text_roundtrip(a: Seq<nat>, base: Base)
    requires
        gt_valid(a),
    ensures
        gt_value_of_text(gt_text_of(a, base), base) == Some(a),
{
    lemma_gt_valid_is_canonical(a);
    lemma_list_roundtrip(a, base.number(), fp_modulus());
}

} // verus!
