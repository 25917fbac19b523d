//! Fixed-width unsigned integers held as little-endian arrays of 64-bit limbs.
//!
//! Everything the field types compute rests on the handful of carry-chain
//! routines in this module. Each of them is stated over [`limbs_value`], the
//! natural number that a limb sequence denotes.
use vstd::prelude::*;

verus! {

/// The radix of one limb, `2^64`.
pub open spec fn radix() -> nat {
    0x1_0000_0000_0000_0000
}

/// The weight of the limb at position `i`, `2^(64 i)`.
pub open spec fn weight(i: nat) -> nat
    decreases i,
{
    if i == 0 {
        1
    } else {
        radix() * weight((i - 1) as nat)
    }
}

/// The natural number denoted by little-endian limbs.
pub open spec fn limbs_value(s: Seq<u64>) -> nat
    decreases s.len(),
{
    if s.len() == 0 {
        0
    } else {
        limbs_value(s.drop_last()) + (s.last() as nat) * weight((s.len() - 1) as nat)
    }
}

/// Every weight is at least one.
pub proof fn lemma_weight_positive(i: nat)
    ensures
        weight(i) >= 1,
    decreases i,
{
    if i > 0 {
        lemma_weight_positive((i - 1) as nat);
        let w = weight((i - 1) as nat);
        assert(radix() * w >= 1) by (nonlinear_arith)
            requires
                w >= 1,
                radix() >= 1,
        ;
    }
}

/// Extending a prefix by one limb adds that limb at its weight.
pub proof fn lemma_value_take_step(s: Seq<u64>, i: int)
    requires
        0 <= i < s.len(),
    ensures
        limbs_value(s.take(i + 1)) == limbs_value(s.take(i)) + (s[i] as nat) * weight(i as nat),
{
    let t = s.take(i + 1);
    assert(t.drop_last() =~= s.take(i));
    assert(t.last() == s[i]);
}

/// A sequence of `n` limbs denotes a number below `2^(64 n)`.
pub proof fn lemma_value_bound(s: Seq<u64>)
    ensures
        limbs_value(s) < weight(s.len()),
    decreases s.len(),
{
    if s.len() == 0 {
    } else {
        lemma_value_bound(s.drop_last());
        let w = weight((s.len() - 1) as nat);
        let l = s.last() as nat;
        assert(l * w + w <= radix() * w) by (nonlinear_arith)
            requires
                l + 1 <= radix(),
        ;
    }
}

/// Horner form: the value read from the least significant limb.
pub proof fn lemma_value_front(s: Seq<u64>)
    requires
        s.len() > 0,
    ensures
        limbs_value(s) == (s[0] as nat) + radix() * limbs_value(s.drop_first()),
    decreases s.len(),
{
    if s.len() == 1 {
        assert(s.drop_last().len() == 0);
        assert(s.drop_first().len() == 0);
        assert(limbs_value(s.drop_last()) == 0);
        assert(limbs_value(s.drop_first()) == 0);
        assert(s.last() == s[0]);
        assert(weight(0) == 1);
        assert((s[0] as nat) * 1 == s[0] as nat);
    } else {
        let init = s.drop_last();
        let tail = s.drop_first();
        lemma_value_front(init);
        assert(tail.drop_last() =~= init.drop_first());
        assert(tail.last() == s.last());
        assert(init[0] == s[0]);
        let l = s.last() as nat;
        let w = weight((s.len() - 2) as nat);
        let rest = limbs_value(init.drop_first());
        assert(weight((s.len() - 1) as nat) == radix() * w);
        assert(limbs_value(tail) == rest + l * w);
        assert(radix() * (rest + l * w) == radix() * rest + l * (radix() * w))
            by (nonlinear_arith);
    }
}

/// Two limb sequences of one length that denote the same number are equal.
pub proof fn lemma_value_injective(a: Seq<u64>, b: Seq<u64>)
    requires
        a.len() == b.len(),
        limbs_value(a) == limbs_value(b),
    ensures
        a == b,
    decreases a.len(),
{
    if a.len() == 0 {
        assert(a =~= b);
    } else {
        lemma_value_front(a);
        lemma_value_front(b);
        let x = limbs_value(a.drop_first());
        let y = limbs_value(b.drop_first());
        let a0 = a[0] as nat;
        let b0 = b[0] as nat;
        assert(a0 == b0 && x == y) by (nonlinear_arith)
            requires
                a0 + radix() * x == b0 + radix() * y,
                a0 < radix(),
                b0 < radix(),
                radix() > 0,
        ;
        lemma_value_injective(a.drop_first(), b.drop_first());
        assert(a =~= seq![a[0]] + a.drop_first());
        assert(b =~= seq![b[0]] + b.drop_first());
    }
}

/// A sequence whose limbs are all zero denotes zero.
pub proof fn lemma_value_zero(s: Seq<u64>)
    requires
        forall|i: int| 0 <= i < s.len() ==> s[i] == 0,
    ensures
        limbs_value(s) == 0,
    decreases s.len(),
{
    if s.len() > 0 {
        lemma_value_zero(s.drop_last());
        assert((s.last() as nat) * weight((s.len() - 1) as nat) == 0) by (nonlinear_arith)
            requires
                s.last() == 0,
        ;
    }
}

/// The number a single small value denotes when it sits in the lowest limb.
pub proof fn lemma_value_single(s: Seq<u64>)
    requires
        s.len() > 0,
        forall|i: int| 1 <= i < s.len() ==> s[i] == 0,
    ensures
        limbs_value(s) == s[0] as nat,
{
    lemma_value_front(s);
    lemma_value_zero(s.drop_first());
}

/// `a + b`, with the carry out of the top limb.
pub fn add_carry<const N: usize>(a: &[u64; N], b: &[u64; N]) -> (res: ([u64; N], u64))
    ensures
        res.1 <= 1,
        limbs_value(res.0@) + (res.1 as nat) * weight(N as nat) == limbs_value(a@) + limbs_value(
            b@,
        ),
{
    let mut out: [u64; N] = [0u64;N];
    let mut carry: u64 = 0;
    let mut i: usize = 0;
    while i < N
        invariant
            0 <= i <= N,
            carry <= 1,
            limbs_value(out@.take(i as int)) + (carry as nat) * weight(i as nat) == limbs_value(
                a@.take(i as int),
            ) + limbs_value(b@.take(i as int)),
        decreases N - i,
    {
        let t: u128 = a[i] as u128 + b[i] as u128 + carry as u128;
        let lo: u64 = (t % 0x1_0000_0000_0000_0000u128) as u64;
        let hi: u64 = (t / 0x1_0000_0000_0000_0000u128) as u64;
        let ghost before = out@;
        out[i] = lo;
        proof {
            lemma_value_take_step(a@, i as int);
            lemma_value_take_step(b@, i as int);
            lemma_value_take_step(out@, i as int);
            assert(out@.take(i as int) =~= before.take(i as int));
            let w = weight(i as nat);
            let ai = a[i as int] as nat;
            let bi = b[i as int] as nat;
            let c = carry as nat;
            let l = lo as nat;
            let h = hi as nat;
            assert(l * w + h * (radix() * w) == ai * w + bi * w + c * w) by (nonlinear_arith)
                requires
                    l + h * radix() == ai + bi + c,
            ;
        }
        carry = hi;
        i += 1;
    }
    proof {
        assert(out@.take(N as int) =~= out@);
        assert(a@.take(N as int) =~= a@);
        assert(b@.take(N as int) =~= b@);
    }
    (out, carry)
}

/// `a - b`, with the borrow out of the top limb.
pub fn sub_borrow<const N: usize>(a: &[u64; N], b: &[u64; N]) -> (res: ([u64; N], u64))
    ensures
        res.1 <= 1,
        limbs_value(res.0@) + limbs_value(b@) == limbs_value(a@) + (res.1 as nat) * weight(
            N as nat,
        ),
        (res.1 == 1) <==> limbs_value(a@) < limbs_value(b@),
{
    let mut out: [u64; N] = [0u64;N];
    let mut borrow: u64 = 0;
    let mut i: usize = 0;
    while i < N
        invariant
            0 <= i <= N,
            borrow <= 1,
            limbs_value(out@.take(i as int)) + limbs_value(b@.take(i as int)) == limbs_value(
                a@.take(i as int),
            ) + (borrow as nat) * weight(i as nat),
        decreases N - i,
    {
        let t: u128 = 0x1_0000_0000_0000_0000u128 + a[i] as u128 - b[i] as u128 - borrow as u128;
        let lo: u64 = (t % 0x1_0000_0000_0000_0000u128) as u64;
        let out_borrow: u64 = 1 - (t / 0x1_0000_0000_0000_0000u128) as u64;
        let ghost before = out@;
        out[i] = lo;
        proof {
            lemma_value_take_step(a@, i as int);
            lemma_value_take_step(b@, i as int);
            lemma_value_take_step(out@, i as int);
            assert(out@.take(i as int) =~= before.take(i as int));
            let w = weight(i as nat);
            let ai = a[i as int] as nat;
            let bi = b[i as int] as nat;
            let c = borrow as nat;
            let l = lo as nat;
            let h = out_borrow as nat;
            assert(l * w + bi * w + c * w == ai * w + h * (radix() * w)) by (nonlinear_arith)
                requires
                    l + bi + c == ai + h * radix(),
            ;
        }
        borrow = out_borrow;
        i += 1;
    }
    proof {
        assert(out@.take(N as int) =~= out@);
        assert(a@.take(N as int) =~= a@);
        assert(b@.take(N as int) =~= b@);
        lemma_value_bound(out@);
        lemma_value_bound(a@);
        lemma_value_bound(b@);
        let w = weight(N as nat);
        let h = borrow as nat;
        assert(h == 0 ==> h * w == 0) by (nonlinear_arith);
        assert(h == 1 ==> h * w == w) by (nonlinear_arith);
    }
    (out, borrow)
}

/// Whether every limb is zero.
pub fn is_zero<const N: usize>(a: &[u64; N]) -> (res: bool)
    ensures
        res <==> limbs_value(a@) == 0,
{
    let mut i: usize = 0;
    while i < N
        invariant
            0 <= i <= N,
            forall|j: int| 0 <= j < i ==> a@[j] == 0,
        decreases N - i,
    {
        if a[i] != 0 {
            proof {
                lemma_value_nonzero(a@, i as int);
            }
            return false;
        }
        i += 1;
    }
    proof {
        lemma_value_zero(a@);
    }
    true
}

/// A sequence with a non-zero limb denotes a non-zero number.
pub proof fn lemma_value_nonzero(s: Seq<u64>, i: int)
    requires
        0 <= i < s.len(),
        s[i] != 0,
    ensures
        limbs_value(s) >= weight(i as nat),
        limbs_value(s) > 0,
    decreases s.len(),
{
    let w = weight((s.len() - 1) as nat);
    let l = s.last() as nat;
    lemma_weight_positive((s.len() - 1) as nat);
    lemma_weight_positive(i as nat);
    if i == s.len() - 1 {
        assert(l * w >= w) by (nonlinear_arith)
            requires
                l >= 1,
        ;
    } else {
        lemma_value_nonzero(s.drop_last(), i);
        assert(l * w >= 0) by (nonlinear_arith);
    }
}

/// Whether two limb arrays denote the same number.
pub fn limbs_equal<const N: usize>(a: &[u64; N], b: &[u64; N]) -> (res: bool)
    ensures
        res <==> limbs_value(a@) == limbs_value(b@),
        res <==> a@ == b@,
{
    let mut i: usize = 0;
    while i < N
        invariant
            0 <= i <= N,
            forall|j: int| 0 <= j < i ==> a@[j] == b@[j],
        decreases N - i,
    {
        if a[i] != b[i] {
            proof {
                if limbs_value(a@) == limbs_value(b@) {
                    lemma_value_injective(a@, b@);
                }
            }
            return false;
        }
        i += 1;
    }
    proof {
        assert(a@ =~= b@);
    }
    true
}

/// `a * k + d` for single-limb `k` and `d`, with the limb carried out of the top.
pub fn mul_small_add<const N: usize>(a: &[u64; N], k: u64, d: u64) -> (res: ([u64; N], u64))
    ensures
        limbs_value(res.0@) + (res.1 as nat) * weight(N as nat) == limbs_value(a@) * (k as nat) + (
        d as nat),
{
    let mut out: [u64; N] = [0u64;N];
    let mut carry: u64 = d;
    let mut i: usize = 0;
    proof {
        assert(weight(0) == 1);
        assert(out@.take(0).len() == 0);
        assert(a@.take(0).len() == 0);
        assert(limbs_value(a@.take(0)) * (k as nat) == 0) by (nonlinear_arith)
            requires
                limbs_value(a@.take(0)) == 0,
        ;
    }
    while i < N
        invariant
            0 <= i <= N,
            limbs_value(out@.take(i as int)) + (carry as nat) * weight(i as nat) == limbs_value(
                a@.take(i as int),
            ) * (k as nat) + (d as nat),
        decreases N - i,
    {
        proof {
            let ai = a[i as int] as nat;
            let kk = k as nat;
            assert(ai * kk <= 0xffff_ffff_ffff_ffff * 0xffff_ffff_ffff_ffff) by (nonlinear_arith)
                requires
                    ai <= 0xffff_ffff_ffff_ffff,
                    kk <= 0xffff_ffff_ffff_ffff,
            ;
        }
        let t: u128 = (a[i] as u128) * (k as u128) + carry as u128;
        let lo: u64 = (t % 0x1_0000_0000_0000_0000u128) as u64;
        let hi: u64 = (t / 0x1_0000_0000_0000_0000u128) as u64;
        let ghost before = out@;
        out[i] = lo;
        proof {
            lemma_value_take_step(a@, i as int);
            lemma_value_take_step(out@, i as int);
            assert(out@.take(i as int) =~= before.take(i as int));
            let w = weight(i as nat);
            let ai = a[i as int] as nat;
            let kk = k as nat;
            let c = carry as nat;
            let l = lo as nat;
            let h = hi as nat;
            let pre = limbs_value(a@.take(i as int));
            assert(l * w + h * (radix() * w) == (ai * w) * kk + c * w) by (nonlinear_arith)
                requires
                    l + h * radix() == ai * kk + c,
            ;
            assert((pre + ai * w) * kk == pre * kk + (ai * w) * kk) by (nonlinear_arith);
        }
        carry = hi;
        i += 1;
    }
    proof {
        assert(out@.take(N as int) =~= out@);
        assert(a@.take(N as int) =~= a@);
    }
    (out, carry)
}

/// Quotient and remainder of `a` by a single non-zero limb `k`.
pub fn div_small<const N: usize>(a: &[u64; N], k: u64) -> (res: ([u64; N], u64))
    requires
        k > 0,
    ensures
        res.1 < k,
        limbs_value(a@) == limbs_value(res.0@) * (k as nat) + (res.1 as nat),
{
    let mut out: [u64; N] = [0u64;N];
    let mut rem: u64 = 0;
    let mut i: usize = N;
    proof {
        assert(a@.skip(N as int).len() == 0);
        assert(out@.skip(N as int).len() == 0);
        assert(limbs_value(out@.skip(N as int)) * (k as nat) == 0) by (nonlinear_arith)
            requires
                limbs_value(out@.skip(N as int)) == 0,
        ;
    }
    while i > 0
        invariant
            0 <= i <= N,
            k > 0,
            rem < k,
            limbs_value(a@.skip(i as int)) == limbs_value(out@.skip(i as int)) * (k as nat) + (
            rem as nat),
        decreases i,
    {
        i -= 1;
        let cur: u128 = (rem as u128) * 0x1_0000_0000_0000_0000u128 + a[i] as u128;
        let q: u128 = cur / (k as u128);
        let r: u128 = cur % (k as u128);
        proof {
            let kk = k as int;
            let c = cur as int;
            assert(c < kk * 0x1_0000_0000_0000_0000);
            assert(c / kk < 0x1_0000_0000_0000_0000) by (nonlinear_arith)
                requires
                    0 <= c < kk * 0x1_0000_0000_0000_0000,
                    kk > 0,
            ;
            assert(c == (c / kk) * kk + c % kk) by (nonlinear_arith)
                requires
                    kk > 0,
            ;
        }
        let ghost before = out@;
        let ghost rem_before = rem as nat;
        out[i] = q as u64;
        rem = r as u64;
        proof {
            let sa = a@.skip(i as int);
            let so = out@.skip(i as int);
            lemma_value_front(sa);
            lemma_value_front(so);
            assert(sa.drop_first() =~= a@.skip(i + 1));
            assert(so.drop_first() =~= before.skip(i + 1));
            let va = limbs_value(a@.skip(i + 1));
            let vo = limbs_value(before.skip(i + 1));
            let kk = k as nat;
            let qq = q as nat;
            assert((qq + radix() * vo) * kk == qq * kk + radix() * (vo * kk)) by (nonlinear_arith);
        }
    }
    proof {
        assert(a@.skip(0) =~= a@);
        assert(out@.skip(0) =~= out@);
    }
    (out, rem)
}

} // verus!
