use mcl::bn::{Fp, Fp2, Fr};
use mcl::common::Base;
use mcl::traits::{Formattable, Random, RawSerializable};

const R: &str = "52435875175126190479447740508185965837690552500527637822603658699938581184513";
const R_MINUS_ONE: &str =
    "52435875175126190479447740508185965837690552500527637822603658699938581184512";
const R_HEX: &str = "73eda753299d7d483339d80809a1d80553bda402fffe5bfeffffffff00000001";

fn fr(text: &str) -> Fr {
    Fr::from_str(text, Base::Dec).unwrap()
}

#[test]
fn scalar_arithmetic_matches_decimal_arithmetic() {
    assert_eq!(fr("12").mul(&fr("13")), fr("156"));
    assert_eq!(fr("12").add(&fr("13")), fr("25"));
    assert_eq!(fr("13").sub(&fr("12")), fr("1"));
    assert_eq!(fr("12").sqr(), fr("144"));
    assert_eq!(fr("156").div(&fr("13")), fr("12"));
    assert_ne!(fr("12").add(&fr("13")), fr("156"));
}

#[test]
fn scalar_arithmetic_wraps_at_the_modulus() {
    assert_eq!(fr("0").sub(&fr("1")), fr(R_MINUS_ONE));
    assert_eq!(fr("1").neg(), fr(R_MINUS_ONE));
    assert_eq!(fr(R_MINUS_ONE).add(&fr("1")), fr("0"));
    assert_eq!(fr(R_MINUS_ONE).add(&fr("2")), fr("1"));
    assert_eq!(fr(R_MINUS_ONE).mul(&fr(R_MINUS_ONE)), fr("1"));
    assert_eq!(fr("0").neg(), fr("0"));
}

#[test]
fn scalar_inverse_undoes_multiplication() {
    let a = fr("123456789");
    assert_eq!(a.mul(&a.inv()), fr("1"));
    assert_eq!(fr("2").inv().mul(&fr("2")), fr("1"));
    assert_eq!(fr("1").inv(), fr("1"));
    assert_eq!(fr("0").inv(), fr("0"));
    assert_eq!(fr("7").div(&fr("0")), fr("0"));
    let b = Fr::from_csprng().unwrap();
    assert_eq!(a.mul(&b).div(&b), a);
}

#[test]
fn scalar_text_is_canonical() {
    assert_eq!(fr("123").get_str(Base::Dec), "123");
    assert_eq!(fr("000123").get_str(Base::Dec), "123");
    assert_eq!(fr("0").get_str(Base::Dec), "0");
    assert_eq!(fr("255").get_str(Base::Hex), "ff");
    assert_eq!(Fr::from_str("FF", Base::Hex).unwrap(), fr("255"));
    assert_eq!(Fr::from_str("ff", Base::Hex).unwrap(), fr("255"));
    assert_eq!(fr(R_MINUS_ONE).get_str(Base::Dec), R_MINUS_ONE);
    assert_eq!(
        fr(R_MINUS_ONE).get_str(Base::Hex),
        "73eda753299d7d483339d80809a1d80553bda402fffe5bfeffffffff00000000"
    );
}

#[test]
fn scalar_text_round_trips_in_both_bases() {
    for base in [Base::Dec, Base::Hex] {
        for _ in 0..8 {
            let x = Fr::from_csprng().unwrap();
            assert_eq!(Fr::from_str(&x.get_str(base), base).unwrap(), x);
        }
        let zero = Fr::default();
        assert_eq!(Fr::from_str(&zero.get_str(base), base).unwrap(), zero);
    }
}

#[test]
fn malformed_scalar_text_is_rejected() {
    assert!(Fr::from_str("abc", Base::Dec).is_err());
    assert!(Fr::from_str("", Base::Dec).is_err());
    assert!(Fr::from_str("", Base::Hex).is_err());
    assert!(Fr::from_str("12 ", Base::Dec).is_err());
    assert!(Fr::from_str(" 12", Base::Dec).is_err());
    assert!(Fr::from_str("-1", Base::Dec).is_err());
    assert!(Fr::from_str("+1", Base::Dec).is_err());
    assert!(Fr::from_str("0x10", Base::Hex).is_err());
    assert!(Fr::from_str("1g", Base::Hex).is_err());
    assert!(Fr::from_str("12\u{e9}", Base::Dec).is_err());
    assert!(Fr::from_str(R, Base::Dec).is_err());
    assert!(Fr::from_str(R_HEX, Base::Hex).is_err());
    assert!(Fr::from_str(&"9".repeat(400), Base::Dec).is_err());
    assert!(Fr::from_str("abc", Base::Hex).is_ok());
}

#[test]
fn failed_set_str_leaves_the_scalar_unchanged() {
    let mut x = fr("77");
    assert!(x.set_str("abc", Base::Dec).is_err());
    assert_eq!(x, fr("77"));
    assert!(x.set_str("78", Base::Dec).is_ok());
    assert_eq!(x, fr("78"));
}

#[test]
fn scalar_raw_encoding_is_little_endian() {
    let bytes = fr("258").serialize_raw().unwrap();
    assert_eq!(bytes.len(), 32);
    assert_eq!(bytes[0], 2);
    assert_eq!(bytes[1], 1);
    assert!(bytes[2..].iter().all(|b| *b == 0));
    assert_eq!(fr("258").serialize(), bytes);
}

#[test]
fn scalar_raw_encoding_round_trips() {
    for _ in 0..8 {
        let x = Fr::from_csprng().unwrap();
        let mut y = Fr::default();
        assert_eq!(y.deserialize_raw(&x.serialize_raw().unwrap()), Ok(32));
        assert_eq!(x, y);
    }
}

#[test]
fn scalar_raw_decoding_reads_a_prefix() {
    let mut bytes = fr("123").serialize();
    bytes.extend_from_slice(&[0xff; 100]);
    let mut y = Fr::default();
    assert_eq!(y.deserialize_raw(&bytes), Ok(32));
    assert_eq!(y, fr("123"));
}

#[test]
fn scalar_raw_decoding_rejects_bad_input() {
    let mut x = fr("5");
    assert!(x.deserialize_raw(&[]).is_err());
    assert_eq!(x, fr("5"));
    assert!(x.deserialize_raw(&[1u8; 31]).is_err());
    assert!(x.deserialize_raw(&[0xffu8; 32]).is_err());
    assert_eq!(x, fr("5"));
    let mut modulus = fr(R_MINUS_ONE).serialize();
    modulus[0] += 1;
    assert!(Fr::deserialize(&modulus).is_err());
    assert!(Fr::deserialize(&fr(R_MINUS_ONE).serialize()).is_ok());
}

#[test]
fn wide_reduction_takes_the_remainder() {
    assert_eq!(Fr::from_bytes_wide(&[]), fr("0"));
    assert_eq!(Fr::from_bytes_wide(&[2, 1]), fr("258"));
    let mut modulus = fr(R_MINUS_ONE).serialize();
    modulus[0] += 1;
    assert_eq!(Fr::from_bytes_wide(&modulus), fr("0"));
    modulus[0] += 5;
    assert_eq!(Fr::from_bytes_wide(&modulus), fr("5"));
    assert_eq!(
        Fr::from_bytes_wide(&[0xff; 64]),
        fr("2").inv().mul(&fr("0")).add(&Fr::from_bytes_wide(&[0xff; 64]))
    );
}

#[test]
fn random_scalars_differ() {
    let a = Fr::from_csprng().unwrap();
    let b = Fr::from_csprng().unwrap();
    assert_ne!(a, b);
    let mut c = Fr::default();
    c.set_by_csprng().unwrap();
    assert_ne!(c, Fr::default());
}

#[test]
fn clear_gives_zero() {
    let mut x = fr("5");
    x.clear();
    assert_eq!(x, Fr::default());
    assert!(x.is_zero());
    let mut y = Fp::from_u64(9);
    y.clear();
    assert!(y.is_zero());
}

#[test]
fn base_field_arithmetic() {
    let a = Fp::from_u64(12);
    let b = Fp::from_u64(13);
    assert_eq!(a.mul(&b), Fp::from_u64(156));
    assert_eq!(a.add(&b), Fp::from_u64(25));
    assert_eq!(b.sub(&a), Fp::from_u64(1));
    assert_eq!(a.sub(&b).add(&b), a);
    assert_eq!(a.neg().add(&a), Fp::default());
    assert_eq!(a.inv().mul(&a), Fp::from_u64(1));
    assert_eq!(Fp::from_u64(156).div(&b), a);
    assert_eq!(a.sqr(), Fp::from_u64(144));
    let x = Fp::from_csprng().unwrap();
    let y = Fp::from_csprng().unwrap();
    assert_ne!(x, y);
    assert_eq!(x.add(&y).sub(&y), x);
    assert_eq!(x.mul(&y).div(&y), x);
}

#[test]
fn base_field_square_roots() {
    assert_eq!(Fp::from_u64(0).square_root(), Some(Fp::default()));
    let root = Fp::from_u64(144).square_root().unwrap();
    assert_eq!(root.sqr(), Fp::from_u64(144));
    assert!(root == Fp::from_u64(12) || root == Fp::from_u64(12).neg());
    let x = Fp::from_csprng().unwrap();
    assert!(x.sqr().square_root().is_some());
    assert_eq!(x.sqr().euler(), Fp::from_u64(1));
    // Two is no square modulo p, as p is 3 modulo 8.
    assert!(Fp::from_u64(2).square_root().is_none());
    assert_eq!(Fp::from_u64(2).euler(), Fp::from_u64(1).neg());
}

#[test]
fn base_field_raw_encoding_round_trips() {
    let x = Fp::from_csprng().unwrap();
    let bytes = x.serialize_raw().unwrap();
    assert_eq!(bytes.len(), 48);
    let mut y = Fp::default();
    assert_eq!(y.deserialize_raw(&bytes), Ok(48));
    assert_eq!(x, y);
    assert!(y.deserialize_raw(&[]).is_err());
    assert!(y.deserialize_raw(&[0xff; 48]).is_err());
    assert_eq!(x, y);
    assert_eq!(Fp::deserialize(&x.serialize()).unwrap(), x);
}

#[test]
fn extension_field_arithmetic() {
    let i = Fp2::from_parts(Fp::default(), Fp::from_u64(1));
    let minus_one = Fp2::from_parts(Fp::from_u64(1).neg(), Fp::default());
    assert_eq!(i.mul(&i), minus_one);
    assert_eq!(i.sqr(), minus_one);
    let a = Fp2::from_parts(Fp::from_u64(3), Fp::from_u64(4));
    let b = Fp2::from_parts(Fp::from_u64(5), Fp::from_u64(6));
    // (3 + 4i)(5 + 6i) = 15 - 24 + (18 + 20)i
    assert_eq!(a.mul(&b), Fp2::from_parts(Fp::from_u64(9).neg(), Fp::from_u64(38)));
    assert_eq!(a.add(&b), Fp2::from_parts(Fp::from_u64(8), Fp::from_u64(10)));
    assert_eq!(b.sub(&a), Fp2::from_parts(Fp::from_u64(2), Fp::from_u64(2)));
    assert_eq!(a.neg().add(&a), Fp2::default());
    assert_eq!(a.norm(), Fp::from_u64(25));
    let one = Fp2::from_parts(Fp::from_u64(1), Fp::default());
    assert_eq!(a.inv().mul(&a), one);
    assert_eq!(a.mul(&b).div(&b), a);
    assert_eq!(a.re(), Fp::from_u64(3));
    assert_eq!(a.im(), Fp::from_u64(4));
    let mut c = a;
    c.clear();
    assert!(c.is_zero());
}

#[test]
fn extension_field_square_roots() {
    let a = Fp2::from_parts(Fp::from_u64(3), Fp::from_u64(4));
    let root = a.sqr().square_root().unwrap();
    assert_eq!(root.sqr(), a.sqr());
    let real = Fp2::from_parts(Fp::from_u64(144), Fp::default());
    assert_eq!(real.square_root().unwrap().sqr(), real);
    // Two is no square in the base field, but it is one in the extension.
    let two = Fp2::from_parts(Fp::from_u64(2), Fp::default());
    assert_eq!(two.square_root().unwrap().sqr(), two);
}

#[test]
fn extension_field_raw_encoding_round_trips() {
    let a = Fp2::from_parts(Fp::from_csprng().unwrap(), Fp::from_csprng().unwrap());
    let bytes = a.serialize_raw().unwrap();
    assert_eq!(bytes.len(), 96);
    assert_eq!(&bytes[..48], a.re().serialize().as_slice());
    assert_eq!(&bytes[48..], a.im().serialize().as_slice());
    let mut b = Fp2::default();
    assert_eq!(b.deserialize_raw(&bytes), Ok(96));
    assert_eq!(a, b);
    assert!(b.deserialize_raw(&[]).is_err());
    assert!(b.deserialize_raw(&bytes[..95]).is_err());
    assert!(b.deserialize_raw(&[0xff; 96]).is_err());
    assert_eq!(a, b);
}
