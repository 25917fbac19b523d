//! Numbers as text: ASCII digits, most significant first, in a base from 2 to 16.
//!
//! Letters stand for the digits from ten up; they are written in lower case
//! and read in either case. The text of a number has no sign, no prefix and,
//! but for zero itself, no leading zero.
use vstd::prelude::*;
use vstd::arithmetic::div_mod::lemma_fundamental_div_mod_converse;
use crate::limbs::{
    div_small, is_zero, lemma_value_bound, lemma_value_zero, limbs_value, mul_small_add,
    sub_borrow, weight,
};

verus! {

/// The digit that the ASCII character `c` stands for in `base`, if any.
pub open spec fn digit_value(c: u8, base: nat) -> Option<nat> {
    let d: nat = if 48 <= c <= 57 {
        (c - 48) as nat
    } else if 97 <= c <= 102 {
        (c - 87) as nat
    } else if 65 <= c <= 70 {
        (c - 55) as nat
    } else {
        16
    };
    if d < base {
        Some(d)
    } else {
        None
    }
}

/// The ASCII character written for the digit `d`.
pub open spec fn digit_char(d: nat) -> u8 {
    if d < 10 {
        (48 + d) as u8
    } else {
        (87 + d) as u8
    }
}

/// Whether `s` is a non-empty run of digits of `base`.
pub open spec fn is_number_text(s: Seq<u8>, base: nat) -> bool {
    &&& s.len() > 0
    &&& forall|i: int| 0 <= i < s.len() ==> (#[trigger] digit_value(s[i], base)) is Some
}

/// The number that a run of digits denotes, most significant digit first.
pub open spec fn text_value(s: Seq<u8>, base: nat) -> nat
    decreases s.len(),
{
    if s.len() == 0 {
        0
    } else {
        text_value(s.drop_last(), base) * base + match digit_value(s.last(), base) {
            Some(d) => d,
            None => 0,
        }
    }
}

/// The digits of a positive number; no digits at all for zero.
pub open spec fn number_digits(v: nat, base: nat) -> Seq<u8>
    decreases v,
{
    if v == 0 || base < 2 {
        Seq::<u8>::empty()
    } else {
        proof {
            assert(v / base < v) by (nonlinear_arith)
                requires
                    v > 0,
                    base >= 2,
            ;
        }
        number_digits(v / base, base).push(digit_char(v % base))
    }
}

/// The text of a number: its digits, or `0` for zero.
pub open spec fn number_text(v: nat, base: nat) -> Seq<u8> {
    if v == 0 {
        seq![48u8]
    } else {
        number_digits(v, base)
    }
}

/// Reading a digit that was written gives the digit back.
pub proof fn lemma_digit_roundtrip(d: nat, base: nat)
    requires
        d < base <= 16,
    ensures
        digit_value(digit_char(d), base) == Some(d),
        digit_char(d) < 128,
{
}

/// The digits of a number are digits of the base, and they denote the number.
pub proof fn lemma_digits_roundtrip(v: nat, base: nat)
    requires
        2 <= base <= 16,
    ensures
        forall|i: int|
            0 <= i < number_digits(v, base).len() ==> (#[trigger] digit_value(
                number_digits(v, base)[i],
                base,
            )) is Some,
        forall|i: int|
            0 <= i < number_digits(v, base).len() ==> (#[trigger] number_digits(v, base)[i]) < 128,
        text_value(number_digits(v, base), base) == v,
        v > 0 ==> number_digits(v, base).len() > 0,
    decreases v,
{
    if v == 0 {
    } else {
        let q = v / base;
        let d = v % base;
        assert(v / base < v) by (nonlinear_arith)
            requires
                v > 0,
                base >= 2,
        ;
        lemma_digits_roundtrip(q, base);
        lemma_digit_roundtrip(d, base);
        let init = number_digits(q, base);
        let s = number_digits(v, base);
        assert(s == init.push(digit_char(d)));
        assert(s.drop_last() =~= init);
        assert(s.last() == digit_char(d));
        assert forall|i: int| 0 <= i < s.len() implies (#[trigger] digit_value(s[i], base)) is Some by {
            if i < init.len() {
                assert(s[i] == init[i]);
            }
        }
        assert forall|i: int| 0 <= i < s.len() implies (#[trigger] s[i]) < 128 by {
            if i < init.len() {
                assert(s[i] == init[i]);
            }
        }
        assert(q * base + d == v) by (nonlinear_arith)
            requires
                q == v / base,
                d == v % base,
                base > 0,
        ;
    }
}

/// The text of a number is a run of ASCII digits that denotes the number.
pub proof fn lemma_text_roundtrip(v: nat, base: nat)
    requires
        2 <= base <= 16,
    ensures
        is_number_text(number_text(v, base), base),
        text_value(number_text(v, base), base) == v,
        forall|i: int|
            0 <= i < number_text(v, base).len() ==> (#[trigger] number_text(v, base)[i]) < 128,
{
    if v == 0 {
        let s = seq![48u8];
        assert(s.drop_last().len() == 0);
        assert(text_value(s.drop_last(), base) == 0);
        assert(digit_value(48u8, base) == Some(0nat));
        assert(s.last() == 48u8);
        assert(text_value(s, base) == 0 * base + 0);
    } else {
        lemma_digits_roundtrip(v, base);
    }
}

/// A prefix of a run of digits denotes no more than the whole run.
pub proof fn lemma_text_value_prefix(s: Seq<u8>, i: int, base: nat)
    requires
        0 <= i <= s.len(),
        base >= 1,
    ensures
        text_value(s.take(i), base) <= text_value(s, base),
    decreases s.len() - i,
{
    if i == s.len() {
        assert(s.take(i) =~= s);
    } else {
        lemma_text_value_prefix(s, i + 1, base);
        let t = s.take(i + 1);
        assert(t.drop_last() =~= s.take(i));
        let x = text_value(s.take(i), base);
        assert(x * base >= x) by (nonlinear_arith)
            requires
                base >= 1,
                x >= 0,
        ;
    }
}

/// The digit that an ASCII character stands for, or 16 where it stands for none.
fn digit_of(c: u8, base: u64) -> (d: u64)
    requires
        2 <= base <= 16,
    ensures
        d < base ==> digit_value(c, base as nat) == Some(d as nat),
        d >= base ==> digit_value(c, base as nat) is None,
        d <= 16,
{
    let d: u64 = if 48 <= c && c <= 57 {
        (c - 48) as u64
    } else if 97 <= c && c <= 102 {
        (c - 87) as u64
    } else if 65 <= c && c <= 70 {
        (c - 55) as u64
    } else {
        16
    };
    d
}

/// Reads a run of digits as a number below `m`.
///
/// The result is `None` where the text is empty, holds anything but digits of
/// the base, or denotes a number that is not below `m`.
pub fn parse_number<const N: usize>(text: &[u8], base: u64, m: &[u64; N]) -> (r: Option<[u64; N]>)
    requires
        2 <= base <= 16,
    ensures
        r is Some <==> is_number_text(text@, base as nat) && text_value(text@, base as nat)
            < limbs_value(m@),
        r is Some ==> limbs_value(r->0@) == text_value(text@, base as nat),
{
    if text.len() == 0 {
        return None;
    }
    let mut acc: [u64; N] = [0u64;N];
    let mut i: usize = 0;
    proof {
        lemma_value_zero(acc@);
        assert(text@.take(0).len() == 0);
    }
    while i < text.len()
        invariant
            0 <= i <= text@.len(),
            2 <= base <= 16,
            forall|j: int| 0 <= j < i ==> (#[trigger] digit_value(text@[j], base as nat)) is Some,
            limbs_value(acc@) == text_value(text@.take(i as int), base as nat),
        decreases text@.len() - i,
    {
        let d: u64 = digit_of(text[i], base);
        if d >= base {
            return None;
        }
        let (next, carry) = mul_small_add(&acc, base, d);
        proof {
            let t = text@.take(i + 1);
            assert(t.drop_last() =~= text@.take(i as int));
            assert(t.last() == text@[i as int]);
        }
        if carry != 0 {
            proof {
                lemma_text_value_prefix(text@, i + 1, base as nat);
                lemma_value_bound(m@);
                let w = weight(N as nat);
                let c = carry as nat;
                assert(c * w >= w) by (nonlinear_arith)
                    requires
                        c >= 1,
                        w >= 0,
                ;
            }
            return None;
        }
        proof {
            let w = weight(N as nat);
            assert((carry as nat) * w == 0) by (nonlinear_arith)
                requires
                    carry == 0,
            ;
        }
        acc = next;
        i += 1;
    }
    proof {
        assert(text@.take(text@.len() as int) =~= text@);
    }
    let (_diff, borrow) = sub_borrow(&acc, m);
    if borrow == 1 {
        Some(acc)
    } else {
        None
    }
}

/// The ASCII character for a digit.
fn char_of(d: u64) -> (c: u8)
    requires
        d < 16,
    ensures
        c == digit_char(d as nat),
{
    if d < 10 {
        (48 + d) as u8
    } else {
        (87 + d) as u8
    }
}

/// Appends the digits of `a` to `out`; appends nothing for zero.
fn push_digits<const N: usize>(a: &[u64; N], base: u64, out: &mut Vec<u8>)
    requires
        2 <= base <= 16,
    ensures
        final(out)@ == old(out)@ + number_digits(limbs_value(a@), base as nat),
    decreases limbs_value(a@),
{
    if is_zero(a) {
        proof {
            assert(old(out)@ + Seq::<u8>::empty() =~= old(out)@);
        }
        return ;
    }
    let (q, d) = div_small(a, base);
    proof {
        let v = limbs_value(a@) as int;
        let qq = limbs_value(q@) as int;
        lemma_fundamental_div_mod_converse(v, base as int, qq, d as int);
        assert(qq < v) by (nonlinear_arith)
            requires
                v == qq * (base as int) + (d as int),
                v > 0,
                (d as int) < (base as int),
                (base as int) >= 2,
                qq >= 0,
        ;
    }
    push_digits(&q, base, out);
    let ghost mid = out@;
    out.push(char_of(d));
    proof {
        let digits = number_digits(limbs_value(q@), base as nat);
        assert(mid.push(digit_char(d as nat)) =~= old(out)@ + digits.push(digit_char(d as nat)));
    }
}

/// Writes a number as text.
pub fn format_number<const N: usize>(a: &[u64; N], base: u64) -> (out: Vec<u8>)
    requires
        2 <= base <= 16,
    ensures
        out@ == number_text(limbs_value(a@), base as nat),
{
    let mut out: Vec<u8> = Vec::new();
    if is_zero(a) {
        out.push(48u8);
        proof {
            assert(out@ =~= seq![48u8]);
        }
    } else {
        push_digits(a, base, &mut out);
        proof {
            assert(Seq::<u8>::empty() + number_digits(limbs_value(a@), base as nat)
                =~= number_digits(limbs_value(a@), base as nat));
        }
    }
    out
}

/// The position of the first space in `s`, or the length of `s` where it holds none.
pub open spec fn first_space(s: Seq<u8>) -> int
    decreases s.len(),
{
    if s.len() == 0 || s[0] == 32 {
        0
    } else {
        1 + first_space(s.drop_first())
    }
}

/// The first space is where a space stands with none before it.
pub proof fn lemma_first_space(s: Seq<u8>, i: int)
    requires
        0 <= i <= s.len(),
        forall|j: int| 0 <= j < i ==> s[j] != 32,
        i < s.len() ==> s[i] == 32,
    ensures
        first_space(s) == i,
    decreases s.len(),
{
    if i > 0 {
        let rest = s.drop_first();
        assert forall|j: int| 0 <= j < i - 1 implies rest[j] != 32 by {
            assert(rest[j] == s[j + 1]);
        }
        lemma_first_space(rest, i - 1);
    }
}

/// Finds the first space.
fn find_space(s: &[u8]) -> (i: usize)
    ensures
        i == first_space(s@),
        i <= s@.len(),
{
    let mut i: usize = 0;
    while i < s.len()
        invariant
            0 <= i <= s@.len(),
            forall|j: int| 0 <= j < i ==> s@[j] != 32,
        decreases s@.len() - i,
    {
        if s[i] == 32 {
            proof {
                lemma_first_space(s@, i as int);
            }
            return i;
        }
        i += 1;
    }
    proof {
        lemma_first_space(s@, i as int);
    }
    i
}

/// The text of a list of numbers: their texts, with one space between neighbours.
pub open spec fn list_text(vs: Seq<nat>, base: nat) -> Seq<u8>
    decreases vs.len(),
{
    if vs.len() == 0 {
        Seq::<u8>::empty()
    } else if vs.len() == 1 {
        number_text(vs[0], base)
    } else {
        number_text(vs[0], base) + seq![32u8] + list_text(vs.drop_first(), base)
    }
}

/// The `n` numbers below `m` that a text lists, with one space between
/// neighbours; `None` where the text is no such list.
pub open spec fn list_value(text: Seq<u8>, n: nat, base: nat, m: nat) -> Option<Seq<nat>>
    decreases n,
{
    if n == 0 {
        None
    } else if n == 1 {
        if is_number_text(text, base) && text_value(text, base) < m {
            Some(seq![text_value(text, base)])
        } else {
            None
        }
    } else {
        let i = first_space(text);
        let head = text.take(i);
        if i < text.len() && is_number_text(head, base) && text_value(head, base) < m {
            match list_value(text.skip(i + 1), (n - 1) as nat, base, m) {
                Some(rest) => Some(seq![text_value(head, base)] + rest),
                None => None,
            }
        } else {
            None
        }
    }
}

/// The numbers that limb arrays denote.
pub open spec fn limbs_values<const N: usize>(vs: Seq<[u64; N]>) -> Seq<nat> {
    Seq::new(vs.len(), |i: int| limbs_value(vs[i]@))
}

/// Reading the text of a list of numbers below `m` gives the list back.
pub proof fn lemma_list_roundtrip(vs: Seq<nat>, base: nat, m: nat)
    requires
        2 <= base <= 16,
        vs.len() >= 1,
        forall|i: int| 0 <= i < vs.len() ==> vs[i] < m,
    ensures
        list_value(list_text(vs, base), vs.len(), base, m) == Some(vs),
        forall|i: int|
            0 <= i < list_text(vs, base).len() ==> (#[trigger] list_text(vs, base)[i]) < 128,
    decreases vs.len(),
{
    let head = number_text(vs[0], base);
    lemma_text_roundtrip(vs[0], base);
    if vs.len() == 1 {
        assert(vs =~= seq![vs[0]]);
    } else {
        let rest = vs.drop_first();
        let tail = list_text(rest, base);
        lemma_list_roundtrip(rest, base, m);
        let text = list_text(vs, base);
        assert(text == head + seq![32u8] + tail);
        let i = head.len() as int;
        assert forall|j: int| 0 <= j < i implies text[j] != 32 by {
            assert(text[j] == head[j]);
            assert(digit_value(head[j], base) is Some);
        }
        assert(text[i] == 32);
        lemma_first_space(text, i);
        assert(text.take(i) =~= head);
        assert(text.skip(i + 1) =~= tail);
        assert(seq![vs[0]] + rest =~= vs);
        assert forall|j: int| 0 <= j < text.len() implies (#[trigger] text[j]) < 128 by {
            if j < i {
                assert(text[j] == head[j]);
            } else if j > i {
                assert(text[j] == tail[j - i - 1]);
            }
        }
    }
}

/// Reads `n` numbers below `m`, with one space between neighbours.
pub fn parse_list<const N: usize>(text: &[u8], n: usize, base: u64, m: &[u64; N]) -> (r: Option<
    Vec<[u64; N]>,
>)
    requires
        2 <= base <= 16,
    ensures
        match list_value(text@, n as nat, base as nat, limbs_value(m@)) {
            Some(vs) => r is Some && limbs_values(r->0@) == vs && r->0@.len() == n,
            None => r is None,
        },
        r is Some ==> forall|i: int|
            0 <= i < n ==> limbs_value(#[trigger] r->0@[i]@) < limbs_value(m@),
    decreases n,
{
    if n == 0 {
        return None;
    }
    if n == 1 {
        return match parse_number(text, base, m) {
            Some(v) => {
                let mut out: Vec<[u64; N]> = Vec::new();
                out.push(v);
                proof {
                    assert(limbs_values(out@) =~= seq![limbs_value(v@)]);
                }
                Some(out)
            },
            None => None,
        };
    }
    let i: usize = find_space(text);
    if i >= text.len() {
        return None;
    }
    let head: &[u8] = vstd::slice::slice_subrange(text, 0, i);
    let tail: &[u8] = vstd::slice::slice_subrange(text, i + 1, text.len());
    proof {
        assert(head@ =~= text@.take(i as int));
        assert(tail@ =~= text@.skip(i + 1));
    }
    let first: [u64; N] = match parse_number(head, base, m) {
        Some(v) => v,
        None => {
            return None;
        },
    };
    match parse_list(tail, n - 1, base, m) {
        Some(mut rest) => {
            let ghost before = rest@;
            rest.insert(0, first);
            proof {
                assert(limbs_values(rest@) =~= seq![limbs_value(first@)] + limbs_values(before));
            }
            Some(rest)
        },
        None => None,
    }
}

/// Appends the text of the numbers of `vs` from position `from` on.
fn push_list<const N: usize>(vs: &Vec<[u64; N]>, from: usize, base: u64, out: &mut Vec<u8>)
    requires
        2 <= base <= 16,
        from <= vs@.len(),
    ensures
        final(out)@ == old(out)@ + list_text(limbs_values(vs@).skip(from as int), base as nat),
    decreases vs@.len() - from,
{
    let ghost all = limbs_values(vs@);
    if from >= vs.len() {
        proof {
            assert(all.skip(from as int).len() == 0);
            assert(old(out)@ + Seq::<u8>::empty() =~= old(out)@);
        }
        return ;
    }
    let mut digits: Vec<u8> = format_number(&vs[from], base);
    let ghost head = digits@;
    out.append(&mut digits);
    proof {
        assert(all.skip(from as int)[0] == limbs_value(vs@[from as int]@));
        assert(all.skip(from as int).drop_first() =~= all.skip(from + 1));
    }
    if from + 1 < vs.len() {
        out.push(32u8);
        let ghost mid = out@;
        push_list(vs, from + 1, base, out);
        proof {
            let tail = list_text(all.skip(from + 1), base as nat);
            assert(mid + tail =~= old(out)@ + (head + seq![32u8] + tail));
        }
    } else {
        proof {
            assert(all.skip(from as int).len() == 1);
        }
    }
}

/// Writes a list of numbers as text, with one space between neighbours.
pub fn format_list<const N: usize>(vs: &Vec<[u64; N]>, base: u64) -> (out: Vec<u8>)
    requires
        2 <= base <= 16,
    ensures
        out@ == list_text(limbs_values(vs@), base as nat),
{
    let mut out: Vec<u8> = Vec::new();
    push_list(vs, 0, base, &mut out);
    proof {
        let all = limbs_values(vs@);
        assert(all.skip(0) =~= all);
        assert(Seq::<u8>::empty() + list_text(all, base as nat) =~= list_text(all, base as nat));
    }
    out
}

/// The characters of a run of ASCII bytes.
pub open spec fn ascii_text(bytes: Seq<u8>) -> Seq<char> {
    Seq::new(bytes.len(), |i: int| bytes[i] as char)
}

/// Whether every byte is an ASCII character.
pub open spec fn is_ascii_bytes(bytes: Seq<u8>) -> bool {
    forall|i: int| 0 <= i < bytes.len() ==> (#[trigger] bytes[i]) < 128
}

/// ASCII bytes are the UTF-8 encoding of their own text.
pub proof fn lemma_ascii_text_bytes(bytes: Seq<u8>)
    requires
        is_ascii_bytes(bytes),
    ensures
        vstd::utf8::encode_utf8(ascii_text(bytes)) == bytes,
{
    let chars = ascii_text(bytes);
    assert(vstd::utf8::is_ascii_chars(chars)) by {
        assert forall|i: int| 0 <= i < chars.len() implies '\0' <= #[trigger] chars[i]
            <= '\u{7f}' by {
            assert(chars[i] == bytes[i] as char);
            assert(bytes[i] < 128);
        }
    }
    vstd::utf8::is_ascii_chars_encode_utf8(chars);
    assert(vstd::utf8::encode_utf8(chars) =~= bytes);
}

/// `String::from_utf8_lossy`, which turns bytes into text. For ASCII bytes,
/// which are valid UTF-8 as they stand, the text has one character for each
/// byte and nothing is replaced.
#[verifier::external_body]
pub(crate) fn ascii_string(bytes: &[u8]) -> (s: String)
    ensures
        is_ascii_bytes(bytes@) ==> s@ == ascii_text(bytes@),
{
    String::from_utf8_lossy(bytes).into_owned()
}

} // verus!
