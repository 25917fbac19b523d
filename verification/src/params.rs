//! The two prime moduli of the curve, as numbers and as limbs.
use vstd::prelude::*;
use vstd::arithmetic::div_mod::{lemma_fundamental_div_mod, lemma_fundamental_div_mod_converse};
use crate::limbs::{lemma_value_front, limbs_value, radix, weight};
use crate::modular::modulus_ok;

verus! {

/// The order `r` of the groups, which is the modulus of the scalar field.
pub open spec fn fr_modulus() -> nat {
    0x73eda753299d7d483339d80809a1d80553bda402fffe5bfeffffffff00000001nat
}

/// The modulus `p` of the base field.
pub open spec fn fp_modulus() -> nat {
    0x1a0111ea397fe69a4b1ba7b6434bacd764774b84f38512bf6730d2a0f6b0f6241eabfffeb153ffffb9feffffffffaaabnat
}

/// The value of four limbs, written out.
pub proof fn lemma_value_of_four(s: Seq<u64>)
    requires
        s.len() == 4,
    ensures
        limbs_value(s) == (s[0] as nat) + 0x1_0000_0000_0000_0000 * ((s[1] as nat)
            + 0x1_0000_0000_0000_0000 * ((s[2] as nat) + 0x1_0000_0000_0000_0000 * (s[3] as nat))),
        weight(4) == 0x1_0000_0000_0000_0000_0000_0000_0000_0000_0000_0000_0000_0000_0000_0000_0000_0000nat,
{
    let s1 = s.drop_first();
    let s2 = s1.drop_first();
    let s3 = s2.drop_first();
    let s4 = s3.drop_first();
    lemma_value_front(s);
    lemma_value_front(s1);
    lemma_value_front(s2);
    lemma_value_front(s3);
    assert(limbs_value(s4) == 0);
    assert(weight(0) == 1);
    assert(weight(1) == radix() * weight(0));
    assert(weight(2) == radix() * weight(1));
    assert(weight(3) == radix() * weight(2));
    assert(weight(4) == radix() * weight(3));
}

/// The value of six limbs, written out.
pub proof fn lemma_value_of_six(s: Seq<u64>)
    requires
        s.len() == 6,
    ensures
        limbs_value(s) == (s[0] as nat) + 0x1_0000_0000_0000_0000 * ((s[1] as nat)
            + 0x1_0000_0000_0000_0000 * ((s[2] as nat) + 0x1_0000_0000_0000_0000 * ((s[3] as nat)
            + 0x1_0000_0000_0000_0000 * ((s[4] as nat) + 0x1_0000_0000_0000_0000 * (
        s[5] as nat))))),
        weight(6) == 0x1_0000_0000_0000_0000_0000_0000_0000_0000_0000_0000_0000_0000_0000_0000_0000_0000_0000_0000_0000_0000_0000_0000_0000_0000nat,
{
    let s1 = s.drop_first();
    let s2 = s1.drop_first();
    let s3 = s2.drop_first();
    let s4 = s3.drop_first();
    let s5 = s4.drop_first();
    let s6 = s5.drop_first();
    lemma_value_front(s);
    lemma_value_front(s1);
    lemma_value_front(s2);
    lemma_value_front(s3);
    lemma_value_front(s4);
    lemma_value_front(s5);
    assert(limbs_value(s6) == 0);
    assert(weight(0) == 1);
    assert(weight(1) == radix() * weight(0));
    assert(weight(2) == radix() * weight(1));
    assert(weight(3) == radix() * weight(2));
    assert(weight(4) == radix() * weight(3));
    assert(weight(5) == radix() * weight(4));
    assert(weight(6) == radix() * weight(5));
}

/// Reducing the top limb of six modulo `m` reduces the number that the limbs
/// denote modulo `m 2^320`.
pub proof fn lemma_top_limb_reduced(whole: Seq<u64>, reduced: Seq<u64>, m: u64)
    requires
        whole.len() == 6,
        reduced.len() == 6,
        m > 0,
        forall|i: int| 0 <= i < 5 ==> reduced[i] == whole[i],
        reduced[5] == whole[5] % m,
    ensures
        limbs_value(reduced) == limbs_value(whole) % ((m as nat)
            * 0x1_0000_0000_0000_0000_0000_0000_0000_0000_0000_0000_0000_0000_0000_0000_0000_0000_0000_0000_0000_0000nat),
{
    let c: int =
        0x1_0000_0000_0000_0000_0000_0000_0000_0000_0000_0000_0000_0000_0000_0000_0000_0000_0000_0000_0000_0000int;
    lemma_value_of_six(whole);
    lemma_value_of_six(reduced);
    assert(reduced[0] == whole[0] && reduced[1] == whole[1] && reduced[2] == whole[2]);
    assert(reduced[3] == whole[3] && reduced[4] == whole[4]);
    let top: int = whole[5] as int;
    let mi: int = m as int;
    let q: int = top / mi;
    let rest: int = reduced[5] as int;
    let low: int = limbs_value(whole) - top * c;
    assert(limbs_value(reduced) == low + rest * c);
    assert(0 <= low < c);
    lemma_fundamental_div_mod(top, mi);
    assert(0 <= rest < mi);
    assert((mi * q + rest) * c == q * (mi * c) + rest * c) by (nonlinear_arith);
    lemma_fundamental_div_mod_converse(
        limbs_value(whole) as int,
        mi * c,
        q,
        limbs_value(reduced) as int,
    );
}

/// The limbs of the scalar field's modulus.
pub fn fr_modulus_limbs() -> (m: [u64; 4])
    ensures
        limbs_value(m@) == fr_modulus(),
        modulus_ok(m@),
{
    let m: [u64; 4] = [
        0xffff_ffff_0000_0001,
        0x53bd_a402_fffe_5bfe,
        0x3339_d808_09a1_d805,
        0x73ed_a753_299d_7d48,
    ];
    proof {
        lemma_value_of_four(m@);
    }
    m
}

/// The limbs of the base field's modulus.
pub fn fp_modulus_limbs() -> (m: [u64; 6])
    ensures
        limbs_value(m@) == fp_modulus(),
        modulus_ok(m@),
{
    let m: [u64; 6] = [
        0xb9fe_ffff_ffff_aaab,
        0x1eab_fffe_b153_ffff,
        0x6730_d2a0_f6b0_f624,
        0x6477_4b84_f385_12bf,
        0x4b1b_a7b6_434b_acd7,
        0x1a01_11ea_397f_e69a,
    ];
    proof {
        lemma_value_of_six(m@);
    }
    m
}

} // verus!
