//! The raw byte encoding: little-endian, fixed width, eight bytes per limb.
use vstd::prelude::*;
use vstd::arithmetic::div_mod::{lemma_add_mod_noop, lemma_mul_mod_noop_left, lemma_small_mod};
use crate::limbs::{lemma_value_front, lemma_value_zero, limbs_value, radix, weight};
use crate::modular::{add_mod, modulus_ok, mul_mod, small_limbs};

verus! {

/// The natural number denoted by little-endian bytes.
pub open spec fn bytes_value(s: Seq<u8>) -> nat
    decreases s.len(),
{
    if s.len() == 0 {
        0
    } else {
        (s[0] as nat) + 256 * bytes_value(s.drop_first())
    }
}

/// The `n` low bytes of `v`, least significant first.
pub open spec fn le_bytes(v: nat, n: nat) -> Seq<u8>
    decreases n,
{
    if n == 0 {
        Seq::<u8>::empty()
    } else {
        seq![(v % 256) as u8] + le_bytes(v / 256, (n - 1) as nat)
    }
}

/// A byte sequence is the little-endian encoding of the number it denotes.
pub proof fn lemma_bytes_are_le_bytes(s: Seq<u8>)
    ensures
        s == le_bytes(bytes_value(s), s.len()),
    decreases s.len(),
{
    if s.len() == 0 {
        assert(s =~= Seq::<u8>::empty());
    } else {
        let rest = s.drop_first();
        lemma_bytes_are_le_bytes(rest);
        let v = bytes_value(s);
        assert(v % 256 == s[0] as nat);
        assert(v / 256 == bytes_value(rest));
        assert(s =~= seq![s[0]] + rest);
    }
}

/// The little-endian encoding has the width asked for.
pub proof fn lemma_le_bytes_len(v: nat, n: nat)
    ensures
        le_bytes(v, n).len() == n,
    decreases n,
{
    if n > 0 {
        lemma_le_bytes_len(v / 256, (n - 1) as nat);
    }
}

/// The weight of the byte at position `n`, `256^n`.
pub open spec fn byte_weight(n: nat) -> nat
    decreases n,
{
    if n == 0 {
        1
    } else {
        256 * byte_weight((n - 1) as nat)
    }
}

/// A number below `256^n` is the number that its `n` low bytes denote.
pub proof fn lemma_le_bytes_value(v: nat, n: nat)
    requires
        v < byte_weight(n),
    ensures
        bytes_value(le_bytes(v, n)) == v,
    decreases n,
{
    if n == 0 {
    } else {
        lemma_le_bytes_value(v / 256, (n - 1) as nat);
        let s = le_bytes(v, n);
        assert(s.drop_first() =~= le_bytes(v / 256, (n - 1) as nat));
        assert(s[0] == (v % 256) as u8);
    }
}

/// Eight bytes weigh as much as one limb.
pub proof fn lemma_byte_weight_of_limbs(k: nat)
    ensures
        byte_weight(8 * k) == weight(k),
    decreases k,
{
    if k > 0 {
        lemma_byte_weight_of_limbs((k - 1) as nat);
        let n = 8 * k;
        let w = byte_weight((n - 8) as nat);
        assert(byte_weight((n - 7) as nat) == 256 * w);
        assert(byte_weight((n - 6) as nat) == 256 * byte_weight((n - 7) as nat));
        assert(byte_weight((n - 5) as nat) == 256 * byte_weight((n - 6) as nat));
        assert(byte_weight((n - 4) as nat) == 256 * byte_weight((n - 5) as nat));
        assert(byte_weight((n - 3) as nat) == 256 * byte_weight((n - 4) as nat));
        assert(byte_weight((n - 2) as nat) == 256 * byte_weight((n - 3) as nat));
        assert(byte_weight((n - 1) as nat) == 256 * byte_weight((n - 2) as nat));
        assert(byte_weight(n) == 256 * byte_weight((n - 1) as nat));
    }
}

/// Eight leading bytes make up one limb in front of the rest.
pub proof fn lemma_bytes_front_limb(s: Seq<u8>)
    requires
        s.len() >= 8,
    ensures
        bytes_value(s) == limb_of(s.take(8)) + radix() * bytes_value(s.skip(8)),
{
    let s1 = s.drop_first();
    let s2 = s1.drop_first();
    let s3 = s2.drop_first();
    let s4 = s3.drop_first();
    let s5 = s4.drop_first();
    let s6 = s5.drop_first();
    let s7 = s6.drop_first();
    let s8 = s7.drop_first();
    assert(s8 =~= s.skip(8));
    assert(s1[0] == s[1] && s2[0] == s[2] && s3[0] == s[3] && s4[0] == s[4]);
    assert(s5[0] == s[5] && s6[0] == s[6] && s7[0] == s[7]);
    assert(bytes_value(s) == (s[0] as nat) + 256 * bytes_value(s1));
    assert(bytes_value(s1) == (s[1] as nat) + 256 * bytes_value(s2));
    assert(bytes_value(s2) == (s[2] as nat) + 256 * bytes_value(s3));
    assert(bytes_value(s3) == (s[3] as nat) + 256 * bytes_value(s4));
    assert(bytes_value(s4) == (s[4] as nat) + 256 * bytes_value(s5));
    assert(bytes_value(s5) == (s[5] as nat) + 256 * bytes_value(s6));
    assert(bytes_value(s6) == (s[6] as nat) + 256 * bytes_value(s7));
    assert(bytes_value(s7) == (s[7] as nat) + 256 * bytes_value(s8));
    let t = s.take(8);
    assert(t[0] == s[0] && t[1] == s[1] && t[2] == s[2] && t[3] == s[3]);
    assert(t[4] == s[4] && t[5] == s[5] && t[6] == s[6] && t[7] == s[7]);
}

/// The limb that eight little-endian bytes make up.
pub open spec fn limb_of(b: Seq<u8>) -> nat
    recommends
        b.len() == 8,
{
    (b[0] as nat) + 0x100 * (b[1] as nat) + 0x1_0000 * (b[2] as nat) + 0x100_0000 * (b[3] as nat)
        + 0x1_0000_0000 * (b[4] as nat) + 0x100_0000_0000 * (b[5] as nat) + 0x1_0000_0000_0000 * (
    b[6] as nat) + 0x100_0000_0000_0000 * (b[7] as nat)
}

/// Splits one limb into its eight bytes, least significant first.
fn limb_to_bytes(l: u64) -> (b: [u8; 8])
    ensures
        limb_of(b@) == l as nat,
{
    let x1: u64 = l / 256;
    let x2: u64 = x1 / 256;
    let x3: u64 = x2 / 256;
    let x4: u64 = x3 / 256;
    let x5: u64 = x4 / 256;
    let x6: u64 = x5 / 256;
    let x7: u64 = x6 / 256;
    [
        (l % 256) as u8,
        (x1 % 256) as u8,
        (x2 % 256) as u8,
        (x3 % 256) as u8,
        (x4 % 256) as u8,
        (x5 % 256) as u8,
        (x6 % 256) as u8,
        (x7 % 256) as u8,
    ]
}

/// Joins eight bytes, least significant first, into one limb.
fn limb_from_bytes(b: &[u8], at: usize) -> (l: u64)
    requires
        at + 8 <= b@.len(),
    ensures
        l as nat == limb_of(b@.subrange(at as int, at + 8)),
{
    let ghost t = b@.subrange(at as int, at + 8);
    proof {
        assert(t[0] == b@[at + 0] && t[1] == b@[at + 1] && t[2] == b@[at + 2] && t[3] == b@[at
            + 3]);
        assert(t[4] == b@[at + 4] && t[5] == b@[at + 5] && t[6] == b@[at + 6] && t[7] == b@[at
            + 7]);
    }
    (b[at] as u64) + 0x100 * (b[at + 1] as u64) + 0x1_0000 * (b[at + 2] as u64) + 0x100_0000 * (b[at
        + 3] as u64) + 0x1_0000_0000 * (b[at + 4] as u64) + 0x100_0000_0000 * (b[at + 5] as u64)
        + 0x1_0000_0000_0000 * (b[at + 6] as u64) + 0x100_0000_0000_0000 * (b[at + 7] as u64)
}

/// The raw encoding of a limb array: `8 N` bytes, least significant first.
pub fn limbs_to_bytes<const N: usize>(a: &[u64; N]) -> (out: Vec<u8>)
    requires
        N <= 0x1000,
    ensures
        out@.len() == 8 * N,
        bytes_value(out@) == limbs_value(a@),
        out@ == le_bytes(limbs_value(a@), (8 * N) as nat),
{
    let mut out: Vec<u8> = vec![0u8; 8 * N];
    let mut i: usize = N;
    proof {
        assert(out@.skip(8 * N).len() == 0);
        assert(a@.skip(N as int).len() == 0);
    }
    while i > 0
        invariant
            0 <= i <= N,
            N <= 0x1000,
            out@.len() == 8 * N,
            bytes_value(out@.skip(8 * i)) == limbs_value(a@.skip(i as int)),
        decreases i,
    {
        i -= 1;
        let b: [u8; 8] = limb_to_bytes(a[i]);
        let ghost before = out@;
        let base: usize = 8 * i;
        out[base] = b[0];
        out[base + 1] = b[1];
        out[base + 2] = b[2];
        out[base + 3] = b[3];
        out[base + 4] = b[4];
        out[base + 5] = b[5];
        out[base + 6] = b[6];
        out[base + 7] = b[7];
        proof {
            let s = out@.skip(8 * i);
            assert(s.take(8) =~= b@);
            assert(s.skip(8) =~= before.skip(8 * (i + 1)));
            lemma_bytes_front_limb(s);
            let la = a@.skip(i as int);
            lemma_value_front(la);
            assert(la.drop_first() =~= a@.skip(i + 1));
        }
    }
    proof {
        assert(out@.skip(0) =~= out@);
        assert(a@.skip(0) =~= a@);
        lemma_bytes_are_le_bytes(out@);
    }
    out
}

/// Reads a limb array from the first `8 N` bytes of `bytes`.
pub fn limbs_from_bytes<const N: usize>(bytes: &[u8]) -> (out: [u64; N])
    requires
        N <= 0x1000,
        bytes@.len() >= 8 * N,
    ensures
        limbs_value(out@) == bytes_value(bytes@.take(8 * N)),
{
    let mut out: [u64; N] = [0u64;N];
    let mut i: usize = N;
    let ghost src = bytes@.take(8 * N);
    proof {
        assert(src.skip(8 * N).len() == 0);
        assert(out@.skip(N as int).len() == 0);
    }
    while i > 0
        invariant
            0 <= i <= N,
            N <= 0x1000,
            bytes@.len() >= 8 * N,
            src == bytes@.take(8 * N),
            limbs_value(out@.skip(i as int)) == bytes_value(src.skip(8 * i)),
        decreases i,
    {
        i -= 1;
        let l: u64 = limb_from_bytes(bytes, 8 * i);
        let ghost before = out@;
        out[i] = l;
        proof {
            let s = src.skip(8 * i);
            assert(s.take(8) =~= bytes@.subrange(8 * i, 8 * i + 8));
            assert(s.skip(8) =~= src.skip(8 * (i + 1)));
            lemma_bytes_front_limb(s);
            let lo = out@.skip(i as int);
            lemma_value_front(lo);
            assert(lo.drop_first() =~= before.skip(i + 1));
        }
    }
    proof {
        assert(src.skip(0) =~= src);
        assert(out@.skip(0) =~= out@);
    }
    out
}

/// Reduces a little-endian number of any length modulo `m`.
pub fn reduce_bytes<const N: usize>(bytes: &[u8], m: &[u64; N]) -> (r: [u64; N])
    requires
        N > 0,
        modulus_ok(m@),
        limbs_value(m@) > 256,
    ensures
        limbs_value(r@) == bytes_value(bytes@) % limbs_value(m@),
        limbs_value(r@) < limbs_value(m@),
{
    let mut acc: [u64; N] = [0u64;N];
    let shift: [u64; N] = small_limbs(256);
    let mut i: usize = bytes.len();
    let ghost mv: nat = limbs_value(m@);
    proof {
        lemma_value_zero(acc@);
        assert(bytes@.skip(bytes@.len() as int).len() == 0);
        lemma_small_mod(0, mv);
    }
    while i > 0
        invariant
            0 <= i <= bytes@.len(),
            N > 0,
            modulus_ok(m@),
            mv == limbs_value(m@),
            mv > 256,
            limbs_value(shift@) == 256,
            limbs_value(acc@) < mv,
            limbs_value(acc@) == bytes_value(bytes@.skip(i as int)) % mv,
        decreases i,
    {
        i -= 1;
        let digit: [u64; N] = small_limbs(bytes[i] as u64);
        let ghost v: nat = bytes_value(bytes@.skip(i + 1));
        let shifted: [u64; N] = mul_mod(&acc, &shift, m);
        acc = add_mod(&shifted, &digit, m);
        proof {
            let s = bytes@.skip(i as int);
            assert(s.drop_first() =~= bytes@.skip(i + 1));
            assert(s[0] == bytes@[i as int]);
            let b = bytes@[i as int] as int;
            lemma_mul_mod_noop_left(v as int, 256, mv as int);
            lemma_small_mod(b as nat, mv);
            lemma_add_mod_noop((v * 256) as int, b, mv as int);
        }
    }
    proof {
        assert(bytes@.skip(0) =~= bytes@);
    }
    acc
}

} // verus!
