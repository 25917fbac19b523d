//! Arithmetic modulo a fixed-width modulus, on canonical representatives.
//!
//! Every routine takes operands already reduced below the modulus and returns
//! the reduced result. The modulus must leave the top bit of its top limb
//! clear, so that the sum of two reduced operands never carries out.
use vstd::prelude::*;
use vstd::arithmetic::div_mod::*;
use vstd::arithmetic::power::*;
use vstd::arithmetic::power2::*;
use crate::limbs::{
    add_carry, lemma_value_bound, lemma_value_front, lemma_value_single, lemma_value_zero,
    limbs_equal, limbs_value, radix, sub_borrow, weight,
};

verus! {

/// What the routines of this module ask of a modulus.
pub open spec fn modulus_ok(m: Seq<u64>) -> bool {
    &&& limbs_value(m) > 1
    &&& 2 * limbs_value(m) <= weight(m.len())
}

/// Addition of residues.
pub open spec fn mod_add(a: nat, b: nat, m: nat) -> nat {
    (a + b) % m
}

/// Subtraction of residues.
pub open spec fn mod_sub(a: nat, b: nat, m: nat) -> nat {
    ((a - b) % (m as int)) as nat
}

/// The additive inverse of a residue.
pub open spec fn mod_neg(a: nat, m: nat) -> nat {
    ((0 - a) % (m as int)) as nat
}

/// Multiplication of residues.
pub open spec fn mod_mul(a: nat, b: nat, m: nat) -> nat {
    (a * b) % m
}

/// A power of a residue.
pub open spec fn mod_pow(a: nat, e: nat, m: nat) -> nat {
    (pow(a as int, e) % (m as int)) as nat
}

/// The multiplicative inverse of a residue, or zero where it has none: the
/// power `a^(m - 2)` where that times `a` is one, and zero where it is not.
/// For a prime `m`, Fermat's little theorem makes the power an inverse of
/// every residue but zero.
pub open spec fn mod_inv(a: nat, m: nat) -> nat {
    if mod_mul(a, mod_pow(a, (m - 2) as nat, m), m) == 1 {
        mod_pow(a, (m - 2) as nat, m)
    } else {
        0
    }
}

/// The quotient `a / b`, which is `a` times [`mod_inv`] of `b`.
pub open spec fn mod_div(a: nat, b: nat, m: nat) -> nat {
    mod_mul(a, mod_inv(b, m), m)
}

/// The limbs of a number that fits in one limb.
pub fn small_limbs<const N: usize>(v: u64) -> (r: [u64; N])
    requires
        N > 0,
    ensures
        limbs_value(r@) == v as nat,
{
    let mut r: [u64; N] = [0u64;N];
    r[0] = v;
    proof {
        lemma_value_single(r@);
    }
    r
}

/// `(a + b) mod m`.
pub fn add_mod<const N: usize>(a: &[u64; N], b: &[u64; N], m: &[u64; N]) -> (r: [u64; N])
    requires
        modulus_ok(m@),
        limbs_value(a@) < limbs_value(m@),
        limbs_value(b@) < limbs_value(m@),
    ensures
        limbs_value(r@) == (limbs_value(a@) + limbs_value(b@)) % limbs_value(m@),
        limbs_value(r@) < limbs_value(m@),
{
    let (sum, carry) = add_carry(a, b);
    proof {
        let w = weight(N as nat);
        let c = carry as nat;
        assert(c == 1 ==> c * w == w) by (nonlinear_arith);
        assert(c == 0 ==> c * w == 0) by (nonlinear_arith);
        lemma_value_bound(sum@);
    }
    let (diff, borrow) = sub_borrow(&sum, m);
    proof {
        let w = weight(N as nat);
        let c = borrow as nat;
        assert(c == 1 ==> c * w == w) by (nonlinear_arith);
        assert(c == 0 ==> c * w == 0) by (nonlinear_arith);
        let x = (limbs_value(a@) + limbs_value(b@)) as int;
        let mm = limbs_value(m@) as int;
        if borrow == 0 {
            lemma_fundamental_div_mod_converse(x, mm, 1, x - mm);
        } else {
            lemma_small_mod(x as nat, mm as nat);
        }
    }
    if borrow == 0 {
        diff
    } else {
        sum
    }
}

/// `(a - b) mod m`, the representative in `[0, m)`.
pub fn sub_mod<const N: usize>(a: &[u64; N], b: &[u64; N], m: &[u64; N]) -> (r: [u64; N])
    requires
        modulus_ok(m@),
        limbs_value(a@) < limbs_value(m@),
        limbs_value(b@) < limbs_value(m@),
    ensures
        limbs_value(r@) == (limbs_value(a@) - limbs_value(b@)) % (limbs_value(m@) as int),
        limbs_value(r@) < limbs_value(m@),
{
    let (diff, borrow) = sub_borrow(a, b);
    proof {
        let w = weight(N as nat);
        let c = borrow as nat;
        assert(c == 1 ==> c * w == w) by (nonlinear_arith);
        assert(c == 0 ==> c * w == 0) by (nonlinear_arith);
    }
    if borrow == 0 {
        proof {
            lemma_small_mod((limbs_value(a@) - limbs_value(b@)) as nat, limbs_value(m@));
        }
        diff
    } else {
        let (wrapped, carry) = add_carry(&diff, m);
        proof {
            let w = weight(N as nat);
            let c = carry as nat;
            assert(c == 1 ==> c * w == w) by (nonlinear_arith);
            assert(c == 0 ==> c * w == 0) by (nonlinear_arith);
            lemma_value_bound(wrapped@);
            lemma_value_bound(diff@);
            let x = limbs_value(a@) - limbs_value(b@);
            let mm = limbs_value(m@) as int;
            lemma_fundamental_div_mod_converse(x, mm, -1, x + mm);
        }
        wrapped
    }
}

/// One limb of a left-to-right multiplication: `(acc * 2^64 + a * limb) mod m`.
fn mul_step<const N: usize>(acc: &[u64; N], a: &[u64; N], limb: u64, m: &[u64; N]) -> (r: [
    u64;
    N
])
    requires
        modulus_ok(m@),
        limbs_value(acc@) < limbs_value(m@),
        limbs_value(a@) < limbs_value(m@),
    ensures
        limbs_value(r@) == (limbs_value(acc@) * radix() + limbs_value(a@) * (limb as nat)) % (
        limbs_value(m@)),
        limbs_value(r@) < limbs_value(m@),
{
    let mut cur: [u64; N] = *acc;
    let mut rest: u64 = limb;
    let mut k: u32 = 0;
    let ghost mut hi: nat = 0;
    let ghost av: nat = limbs_value(a@);
    let ghost cv: nat = limbs_value(acc@);
    let ghost mv: nat = limbs_value(m@);
    proof {
        lemma2_to64();
        assert(cv * 1 + av * 0 == cv) by (nonlinear_arith);
        lemma_small_mod(cv, mv);
        assert((limb as nat) * 1 == limb as nat) by (nonlinear_arith);
        assert(0 * radix() + (limb as nat) == (limb as nat) * pow2(0));
    }
    while k < 64
        invariant
            0 <= k <= 64,
            modulus_ok(m@),
            av == limbs_value(a@),
            cv == limbs_value(acc@),
            mv == limbs_value(m@),
            av < mv,
            limbs_value(cur@) < mv,
            limbs_value(cur@) == (cv * pow2(k as nat) + av * hi) % mv,
            hi * radix() + (rest as nat) == (limb as nat) * pow2(k as nat),
        decreases 64 - k,
    {
        let bit: bool = rest >= 0x8000_0000_0000_0000u64;
        let ghost before: nat = limbs_value(cur@);
        let ghost x: nat = cv * pow2(k as nat) + av * hi;
        let ghost p: nat = pow2(k as nat);
        cur = add_mod(&cur, &cur, m);
        proof {
            lemma_pow2_unfold((k + 1) as nat);
            lemma_add_mod_noop(x as int, x as int, mv as int);
        }
        if bit {
            cur = add_mod(&cur, a, m);
            rest = (rest - 0x8000_0000_0000_0000u64) * 2;
            proof {
                lemma_small_mod(av, mv);
                lemma_add_mod_noop((x + x) as int, av as int, mv as int);
                assert(x + x + av == cv * (2 * p) + av * (2 * hi + 1)) by (nonlinear_arith)
                    requires
                        x == cv * p + av * hi,
                ;
                assert((2 * hi + 1) * radix() + (rest as nat) == (limb as nat) * (2 * p))
                    by (nonlinear_arith)
                    requires
                        hi * radix() + (rest as nat) / 2 + 0x8000_0000_0000_0000 == (limb as nat)
                            * p,
                        (rest as nat) % 2 == 0,
                        radix() == 0x1_0000_0000_0000_0000,
                ;
                hi = 2 * hi + 1;
            }
        } else {
            rest = rest * 2;
            proof {
                assert(x + x == cv * (2 * p) + av * (2 * hi)) by (nonlinear_arith)
                    requires
                        x == cv * p + av * hi,
                ;
                assert((2 * hi) * radix() + (rest as nat) == (limb as nat) * (2 * p))
                    by (nonlinear_arith)
                    requires
                        hi * radix() + (rest as nat) / 2 == (limb as nat) * p,
                        (rest as nat) % 2 == 0,
                ;
                hi = 2 * hi;
            }
        }
        k += 1;
    }
    proof {
        lemma2_to64_rest();
        assert(hi == limb as nat) by (nonlinear_arith)
            requires
                hi * radix() + (rest as nat) == (limb as nat) * radix(),
                (rest as nat) < radix(),
                radix() > 0,
        ;
    }
    cur
}

/// `(a * b) mod m`.
pub fn mul_mod<const N: usize>(a: &[u64; N], b: &[u64; N], m: &[u64; N]) -> (r: [u64; N])
    requires
        modulus_ok(m@),
        limbs_value(a@) < limbs_value(m@),
        limbs_value(b@) < limbs_value(m@),
    ensures
        limbs_value(r@) == (limbs_value(a@) * limbs_value(b@)) % limbs_value(m@),
        limbs_value(r@) < limbs_value(m@),
{
    let mut acc: [u64; N] = [0u64;N];
    let mut i: usize = N;
    let ghost av: nat = limbs_value(a@);
    let ghost mv: nat = limbs_value(m@);
    proof {
        lemma_value_zero(acc@);
        assert(b@.skip(N as int).len() == 0);
        assert(av * 0 == 0) by (nonlinear_arith);
        lemma_small_mod(0, mv);
    }
    while i > 0
        invariant
            0 <= i <= N,
            modulus_ok(m@),
            av == limbs_value(a@),
            mv == limbs_value(m@),
            av < mv,
            limbs_value(acc@) < mv,
            limbs_value(acc@) == (av * limbs_value(b@.skip(i as int))) % mv,
        decreases i,
    {
        i -= 1;
        let ghost v: nat = limbs_value(b@.skip(i + 1));
        let ghost before: nat = limbs_value(acc@);
        acc = mul_step(&acc, a, b[i], m);
        proof {
            let s = b@.skip(i as int);
            lemma_value_front(s);
            assert(s.drop_first() =~= b@.skip(i + 1));
            let bi = b[i as int] as nat;
            let x = av * v;
            assert(av * (bi + radix() * v) == x * radix() + av * bi) by (nonlinear_arith)
                requires
                    x == av * v,
            ;
            lemma_mul_mod_noop_left(x as int, radix() as int, mv as int);
            lemma_add_mod_noop((x * radix()) as int, (av * bi) as int, mv as int);
            lemma_add_mod_noop((before * radix()) as int, (av * bi) as int, mv as int);
        }
    }
    proof {
        assert(b@.skip(0) =~= b@);
    }
    acc
}

/// One limb of a left-to-right exponentiation: `(acc^(2^64) * a^limb) mod m`.
fn pow_step<const N: usize>(acc: &[u64; N], a: &[u64; N], limb: u64, m: &[u64; N]) -> (r: [
    u64;
    N
])
    requires
        modulus_ok(m@),
        limbs_value(acc@) < limbs_value(m@),
        limbs_value(a@) < limbs_value(m@),
    ensures
        limbs_value(r@) as int == (pow(limbs_value(acc@) as int, radix()) * pow(
            limbs_value(a@) as int,
            limb as nat,
        )) % (limbs_value(m@) as int),
        limbs_value(r@) < limbs_value(m@),
{
    let mut cur: [u64; N] = *acc;
    let mut rest: u64 = limb;
    let mut k: u32 = 0;
    let ghost mut hi: nat = 0;
    let ghost av: int = limbs_value(a@) as int;
    let ghost cv: int = limbs_value(acc@) as int;
    let ghost mv: int = limbs_value(m@) as int;
    proof {
        lemma2_to64();
        lemma_pow1(cv);
        lemma_pow0(av);
        lemma_small_mod(cv as nat, mv as nat);
        assert((limb as nat) * 1 == limb as nat) by (nonlinear_arith);
        assert(cv * 1 == cv) by (nonlinear_arith);
    }
    while k < 64
        invariant
            0 <= k <= 64,
            modulus_ok(m@),
            av == limbs_value(a@),
            cv == limbs_value(acc@),
            mv == limbs_value(m@),
            av < mv,
            limbs_value(cur@) < mv,
            limbs_value(cur@) as int == (pow(cv, pow2(k as nat)) * pow(av, hi)) % mv,
            hi * radix() + (rest as nat) == (limb as nat) * pow2(k as nat),
        decreases 64 - k,
    {
        let bit: bool = rest >= 0x8000_0000_0000_0000u64;
        let ghost p: nat = pow2(k as nat);
        let ghost x: int = pow(cv, p) * pow(av, hi);
        cur = mul_mod(&cur, &cur, m);
        proof {
            lemma_pow2_unfold((k + 1) as nat);
            lemma_mul_mod_noop(x, x, mv);
            lemma_pow_adds(cv, p, p);
            lemma_pow_adds(av, hi, hi);
            let c = pow(cv, p);
            let d = pow(av, hi);
            assert((c * d) * (c * d) == (c * c) * (d * d)) by (nonlinear_arith);
        }
        if bit {
            cur = mul_mod(&cur, a, m);
            rest = (rest - 0x8000_0000_0000_0000u64) * 2;
            proof {
                lemma_small_mod(av as nat, mv as nat);
                lemma_mul_mod_noop(x * x, av, mv);
                lemma_pow_adds(av, hi + hi, 1);
                lemma_pow1(av);
                let c2 = pow(cv, p + p);
                let d2 = pow(av, hi + hi);
                assert((c2 * d2) * av == c2 * (d2 * av)) by (nonlinear_arith);
                assert((2 * hi + 1) * radix() + (rest as nat) == (limb as nat) * (2 * p))
                    by (nonlinear_arith)
                    requires
                        hi * radix() + (rest as nat) / 2 + 0x8000_0000_0000_0000 == (limb as nat)
                            * p,
                        (rest as nat) % 2 == 0,
                        radix() == 0x1_0000_0000_0000_0000,
                ;
                hi = 2 * hi + 1;
            }
        } else {
            rest = rest * 2;
            proof {
                assert((2 * hi) * radix() + (rest as nat) == (limb as nat) * (2 * p))
                    by (nonlinear_arith)
                    requires
                        hi * radix() + (rest as nat) / 2 == (limb as nat) * p,
                        (rest as nat) % 2 == 0,
                ;
                hi = 2 * hi;
            }
        }
        k += 1;
    }
    proof {
        lemma2_to64_rest();
        assert(hi == limb as nat) by (nonlinear_arith)
            requires
                hi * radix() + (rest as nat) == (limb as nat) * radix(),
                (rest as nat) < radix(),
                radix() > 0,
        ;
    }
    cur
}

/// `a^e mod m`, for an exponent of any width.
pub fn pow_mod<const N: usize, const M: usize>(a: &[u64; N], e: &[u64; M], m: &[u64; N]) -> (r:
    [u64; N])
    requires
        N > 0,
        modulus_ok(m@),
        limbs_value(a@) < limbs_value(m@),
    ensures
        limbs_value(r@) as int == pow(limbs_value(a@) as int, limbs_value(e@)) % (limbs_value(
            m@,
        ) as int),
        limbs_value(r@) < limbs_value(m@),
{
    let mut acc: [u64; N] = [0u64;N];
    acc[0] = 1;
    let mut i: usize = M;
    let ghost av: int = limbs_value(a@) as int;
    let ghost mv: int = limbs_value(m@) as int;
    proof {
        lemma_value_single(acc@);
        assert(e@.skip(M as int).len() == 0);
        lemma_pow0(av);
        lemma_small_mod(1, mv as nat);
    }
    while i > 0
        invariant
            0 <= i <= M,
            modulus_ok(m@),
            av == limbs_value(a@),
            mv == limbs_value(m@),
            av < mv,
            limbs_value(acc@) < mv,
            limbs_value(acc@) as int == pow(av, limbs_value(e@.skip(i as int))) % mv,
        decreases i,
    {
        i -= 1;
        let ghost v: nat = limbs_value(e@.skip(i + 1));
        let ghost before: int = limbs_value(acc@) as int;
        acc = pow_step(&acc, a, e[i], m);
        proof {
            let s = e@.skip(i as int);
            lemma_value_front(s);
            assert(s.drop_first() =~= e@.skip(i + 1));
            let ei = e[i as int] as nat;
            // a^(ei + radix * v) == (a^v)^radix * a^ei
            lemma_pow_adds(av, radix() * v, ei);
            assert(radix() * v == v * radix()) by (nonlinear_arith);
            lemma_pow_multiplies(av, v, radix());
            // reduce the base of the outer power
            lemma_pow_mod_noop(pow(av, v), radix(), mv);
            let full = pow(pow(av, v), radix());
            let red = pow(before, radix());
            let t = pow(av, ei);
            lemma_mul_mod_noop_left(full, t, mv);
            lemma_mul_mod_noop_left(red, t, mv);
        }
    }
    proof {
        assert(e@.skip(0) =~= e@);
    }
    acc
}

/// `(-a) mod m`.
pub fn neg_mod<const N: usize>(a: &[u64; N], m: &[u64; N]) -> (r: [u64; N])
    requires
        modulus_ok(m@),
        limbs_value(a@) < limbs_value(m@),
    ensures
        limbs_value(r@) == mod_neg(limbs_value(a@), limbs_value(m@)),
        limbs_value(r@) < limbs_value(m@),
{
    let zero: [u64; N] = [0u64;N];
    proof {
        lemma_value_zero(zero@);
    }
    sub_mod(&zero, a, m)
}

/// The inverse of `a` modulo `m`, or zero where `a` has none: the power
/// `a^(m - 2)`, checked by multiplying back.
pub fn inv_mod<const N: usize>(a: &[u64; N], m: &[u64; N]) -> (r: [u64; N])
    requires
        N > 0,
        modulus_ok(m@),
        limbs_value(a@) < limbs_value(m@),
    ensures
        limbs_value(r@) == mod_inv(limbs_value(a@), limbs_value(m@)),
        limbs_value(r@) < limbs_value(m@),
{
    let two: [u64; N] = small_limbs(2);
    let (e, borrow) = sub_borrow(m, &two);
    proof {
        let w = weight(N as nat);
        let c = borrow as nat;
        assert(c == 0 ==> c * w == 0) by (nonlinear_arith);
    }
    let candidate: [u64; N] = pow_mod(a, &e, m);
    let product: [u64; N] = mul_mod(a, &candidate, m);
    let one: [u64; N] = small_limbs(1);
    if limbs_equal(&product, &one) {
        candidate
    } else {
        let zero: [u64; N] = [0u64;N];
        proof {
            lemma_value_zero(zero@);
        }
        zero
    }
}

/// Where [`mod_inv`] is not zero, it is the inverse; and it is zero only
/// where the power `a^(m - 2)` is no inverse.
pub proof fn lemma_mod_inv(a: nat, m: nat)
    requires
        m > 1,
    ensures
        mod_inv(a, m) < m,
        mod_inv(a, m) != 0 <==> mod_mul(a, mod_inv(a, m), m) == 1,
        mod_inv(a, m) != 0 <==> mod_mul(a, mod_pow(a, (m - 2) as nat, m), m) == 1,
{
    let c = mod_pow(a, (m - 2) as nat, m);
    lemma_mod_bound(pow(a as int, (m - 2) as nat), m as int);
    assert(a * 0 == 0);
    lemma_small_mod(0, m);
    if mod_mul(a, c, m) == 1 {
        if c == 0 {
            assert(false);
        }
    }
}

/// The negative of the negative is the residue itself.
pub proof fn lemma_neg_neg(c: nat, m: nat)
    requires
        c < m,
    ensures
        mod_neg(c, m) < m,
        mod_neg(mod_neg(c, m), m) == c,
{
    let mi = m as int;
    let ci = c as int;
    if c == 0 {
        lemma_small_mod(0, m);
    } else {
        lemma_fundamental_div_mod_converse(0 - ci, mi, -1, mi - ci);
        lemma_fundamental_div_mod_converse(0 - (mi - ci), mi, -1, ci);
    }
}

/// The square of the negative is the square.
pub proof fn lemma_neg_square(c: nat, m: nat)
    requires
        c < m,
    ensures
        mod_mul(mod_neg(c, m), mod_neg(c, m), m) == mod_mul(c, c, m),
{
    if c == 0 {
        lemma_small_mod(0, m);
    } else {
        let mi = m as int;
        let ci = c as int;
        lemma_fundamental_div_mod_converse(0 - ci, mi, -1, mi - ci);
        assert(mod_neg(c, m) == m - c);
        assert((mi - ci) * (mi - ci) == mi * (mi - 2 * ci) + ci * ci) by (nonlinear_arith);
        lemma_mod_multiples_vanish(mi - 2 * ci, ci * ci, mi);
        assert(mi * (mi - 2 * ci) == (mi - 2 * ci) * mi) by (nonlinear_arith);
    }
}

/// Multiplying a quotient by the divisor gives the dividend back, where the
/// divisor has an inverse.
pub proof fn lemma_mod_div_undone_by_mul(a: nat, b: nat, m: nat)
    requires
        m > 1,
        a < m,
        mod_inv(b, m) != 0,
    ensures
        mod_mul(mod_div(a, b, m), b, m) == a,
{
    let i = mod_inv(b, m);
    lemma_mod_inv(b, m);
    lemma_mul_mod_noop_left((a * i) as int, b as int, m as int);
    assert((a * i) * b == a * (b * i)) by (nonlinear_arith);
    lemma_mul_mod_noop_right(a as int, (b * i) as int, m as int);
    assert(a * 1 == a);
    lemma_small_mod(a, m);
}

} // verus!
