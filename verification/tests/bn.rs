use mcl::bn::{Fr, G1};
use mcl::common::Base;
use mcl::init::{init_curve, Curve, InitLatch};
use mcl::traits::{Formattable, RawSerializable};

fn initialize() {
    init_curve(&mut InitLatch::new(), Curve::Bls12_381).unwrap();
}

fn run_test(inner: impl FnOnce() -> ()) {
    initialize();
    inner();
}

#[test]
fn bn_test_mcl_bn_fp_str() {
    run_test(|| {
        let fr = Fr::from_str("123", Base::Dec).unwrap();
        assert_eq!(fr.get_str(Base::Dec), "123".to_string());
    });
}

#[test]
fn bn_test_fp_mul() {
    run_test(|| {
        let a = Fr::from_str("12", Base::Dec).unwrap();
        let b = Fr::from_str("13", Base::Dec).unwrap();
        let c = Fr::from_str("156", Base::Dec).unwrap();
        assert_eq!(a.mul(&b), c);
    });
}

#[test]
fn test_serde_raw() {
    run_test(|| {
        let a = Fr::from_str("123", Base::Dec).unwrap();
        let mut after = Fr::default();
        after.deserialize_raw(&a.serialize_raw().unwrap()).unwrap();
        assert_eq!(a, after);
    });
}

#[test]
fn bn_test_g1_mul() {
    run_test(|| {
        let p = G1::hash_and_map(b"this").unwrap();
        let x = Fr::from_str("123", Base::Dec).unwrap();
        let y = p.mul(&x);
        let expected = G1::from_str(
            "1 ea23afffe7e4eaeddbec067563e2387bac5c2354bd58f4346151db670e65c465f947789e5f82de9ba7567d0a289c658 cf01434515162c99815667f4a5515e20d407609702b9bc182155bcf23473960ec4de3b5b552285b3f1656948cfe3260",
            Base::Hex).unwrap();
        assert_eq!(y, expected);
    });
}
