//! What holds of every value: the laws that tie writing to reading.
//!
//! The round trips through the raw encoding are stated beside each type, in
//! [`crate::bn`]. Here they are carried through to text as callers see it, a
//! string, and joined by the laws on input that must be turned away.
use vstd::prelude::*;
use vstd::arithmetic::div_mod::lemma_mod_bound;
use vstd::string::StringSliceAdditionalSpecFns;
use crate::bn::fp::fp_raw_decoding;
use crate::bn::fp2::fp2_raw_decoding;
use crate::bn::fr::{fr_raw_decoding, fr_value_of_text, lemma_fr_text_roundtrip};
use crate::bn::g1::{g1_raw_decoding, g1_text_of, g1_value_of_text, lemma_g1_text_roundtrip};
use crate::bn::g2::{g2_raw_decoding, g2_text_of, g2_value_of_text, lemma_g2_text_roundtrip};
use crate::bn::gt::{gt_raw_decoding, gt_text_of, gt_value_of_text, lemma_gt_text_roundtrip};
use crate::common::Base;
use crate::curve::{g1_valid, g2_valid, gt_valid, Point1, Point2};
use crate::modular::{mod_add, mod_mul, mod_sub};
use crate::params::{fp_modulus, fr_modulus};
use crate::text::{
    ascii_text, digit_value, is_ascii_bytes, lemma_ascii_text_bytes, lemma_list_roundtrip,
    lemma_text_roundtrip, list_text, number_text, text_value,
};

verus! {

/// Reading the string that was written for a scalar gives the scalar back,
/// in base ten and in base sixteen.
pub proof fn law_scalar_string_roundtrip(x: nat, base: Base, written: &str)
    requires
        x < fr_modulus(),
        written@ == ascii_text(number_text(x, base.number())),
    ensures
        fr_value_of_text(written.spec_bytes(), base) == Some(x),
{
    lemma_text_roundtrip(x, base.number());
    lemma_ascii_text_bytes(number_text(x, base.number()));
    lemma_fr_text_roundtrip(x, base);
}

/// Reading the string that was written for a point of the first group gives
/// the point back.
pub proof fn law_g1_string_roundtrip(p: Point1, base: Base, written: &str)
    requires
        g1_valid(p),
        written@ == ascii_text(g1_text_of(p, base)),
    ensures
        g1_value_of_text(written.spec_bytes(), base) == Some(p),
{
    let text = g1_text_of(p, base);
    if !p.infinity {
        lemma_list_roundtrip(seq![p.x, p.y], base.number(), fp_modulus());
        let list = list_text(seq![p.x, p.y], base.number());
        assert forall|i: int| 0 <= i < text.len() implies (#[trigger] text[i]) < 128 by {
            if i >= 2 {
                assert(text[i] == list[i - 2]);
            }
        }
    }
    assert(is_ascii_bytes(text));
    lemma_ascii_text_bytes(text);
    lemma_g1_text_roundtrip(p, base);
}

/// Reading the string that was written for a point of the second group gives
/// the point back.
pub proof fn law_g2_string_roundtrip(p: Point2, base: Base, written: &str)
    requires
        g2_valid(p),
        written@ == ascii_text(g2_text_of(p, base)),
    ensures
        g2_value_of_text(written.spec_bytes(), base) == Some(p),
{
    let text = g2_text_of(p, base);
    if !p.infinity {
        let coordinates = seq![p.x.0, p.x.1, p.y.0, p.y.1];
        lemma_list_roundtrip(coordinates, base.number(), fp_modulus());
        let list = list_text(coordinates, base.number());
        assert forall|i: int| 0 <= i < text.len() implies (#[trigger] text[i]) < 128 by {
            if i >= 2 {
                assert(text[i] == list[i - 2]);
            }
        }
    }
    assert(is_ascii_bytes(text));
    lemma_ascii_text_bytes(text);
    lemma_g2_text_roundtrip(p, base);
}

/// Reading the string that was written for an element of the target group
/// gives the element back.
pub proof fn law_gt_string_roundtrip(a: Seq<nat>, base: Base, written: &str)
    requires
        gt_valid(a),
        written@ == ascii_text(gt_text_of(a, base)),
    ensures
        gt_value_of_text(written.spec_bytes(), base) == Some(a),
{
    lemma_list_roundtrip(a, base.number(), fp_modulus());
    lemma_ascii_text_bytes(gt_text_of(a, base));
    lemma_gt_text_roundtrip(a, base);
}

/// Arithmetic on scalars is arithmetic on the numbers that their texts
/// denote, modulo the group order: where two texts denote `x` and `y`, the
/// text of `x y` reduced denotes the product of the two scalars, and so for
/// the sum and the difference.
pub proof fn law_scalar_arithmetic_matches_text(s: Seq<u8>, t: Seq<u8>, base: Base)
    requires
        fr_value_of_text(s, base) is Some,
        fr_value_of_text(t, base) is Some,
    ensures
        ({
            let x = text_value(s, base.number());
            let y = text_value(t, base.number());
            let r = fr_modulus();
            &&& fr_value_of_text(s, base) == Some(x)
            &&& fr_value_of_text(t, base) == Some(y)
            &&& fr_value_of_text(number_text((x * y) % r, base.number()), base) == Some(
                mod_mul(x, y, r),
            )
            &&& fr_value_of_text(number_text((x + y) % r, base.number()), base) == Some(
                mod_add(x, y, r),
            )
            &&& fr_value_of_text(number_text(((x - y) % (r as int)) as nat, base.number()), base)
                == Some(mod_sub(x, y, r))
        }),
{
    let x = text_value(s, base.number());
    let y = text_value(t, base.number());
    let r = fr_modulus();
    lemma_mod_bound((x * y) as int, r as int);
    lemma_mod_bound((x + y) as int, r as int);
    lemma_mod_bound(x - y, r as int);
    lemma_fr_text_roundtrip(mod_mul(x, y, r), base);
    lemma_fr_text_roundtrip(mod_add(x, y, r), base);
    lemma_fr_text_roundtrip(mod_sub(x, y, r), base);
}

/// No value of any type is decoded from an empty input.
pub proof fn law_empty_input_decodes_to_nothing()
    ensures
        fr_raw_decoding(Seq::<u8>::empty()) is None,
        fp_raw_decoding(Seq::<u8>::empty()) is None,
        fp2_raw_decoding(Seq::<u8>::empty()) is None,
        g1_raw_decoding(Seq::<u8>::empty()) is None,
        g2_raw_decoding(Seq::<u8>::empty()) is None,
        gt_raw_decoding(Seq::<u8>::empty()) is None,
{
    reveal_with_fuel(crate::bn::gt::fp_list_decoding, 2);
}

/// No scalar is read from a text that holds anything but digits of the base,
/// nor from an empty text.
pub proof fn law_malformed_scalar_text_is_rejected(text: Seq<u8>, base: Base, i: int)
    requires
        text.len() == 0 || (0 <= i < text.len() && digit_value(text[i], base.number()) is None),
    ensures
        fr_value_of_text(text, base) is None,
{
}

/// No scalar is read from a text that denotes the modulus or more.
pub proof fn law_oversized_scalar_text_is_rejected(x: nat, base: Base)
    requires
        x >= fr_modulus(),
    ensures
        fr_value_of_text(number_text(x, base.number()), base) is None,
{
    lemma_text_roundtrip(x, base.number());
}

} // verus!
