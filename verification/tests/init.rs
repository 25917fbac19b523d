use mcl::ffi::{BLS12_381, BN254, MCLBN_COMPILED_TIME_VAR};
use mcl::init::{
    init_curve, mcl_bn_init, Curve, InitLatch, INIT_OK, INIT_SIZE_MISMATCH, INIT_UNKNOWN_CURVE,
};

#[test]
fn init_curve_succeeds_for_the_curve_built_in() {
    let mut latch = InitLatch::new();
    assert!(!latch.is_ready());
    assert_eq!(init_curve(&mut latch, Curve::Bls12_381), Ok(()));
    assert!(latch.is_ready());
    assert_eq!(init_curve(&mut latch, Curve::Bls12_381), Ok(()));
    assert!(latch.is_ready());
}

#[test]
fn the_first_call_checks_the_parameters() {
    assert_eq!(MCLBN_COMPILED_TIME_VAR, 46);
    assert_eq!(mcl_bn_init(&mut InitLatch::new(), 5, 46), 0);
    assert_eq!(mcl_bn_init(&mut InitLatch::new(), BLS12_381, MCLBN_COMPILED_TIME_VAR), INIT_OK);
    assert_eq!(
        mcl_bn_init(&mut InitLatch::new(), BN254, MCLBN_COMPILED_TIME_VAR),
        INIT_UNKNOWN_CURVE
    );
    assert_eq!(mcl_bn_init(&mut InitLatch::new(), BLS12_381, 45), INIT_SIZE_MISMATCH);
    assert_eq!(INIT_UNKNOWN_CURVE, -1);
    assert_eq!(INIT_SIZE_MISMATCH, -2);
}

#[test]
fn only_the_first_initialization_takes_effect() {
    let mut latch = InitLatch::new();
    assert_eq!(mcl_bn_init(&mut latch, BLS12_381, MCLBN_COMPILED_TIME_VAR), INIT_OK);
    assert!(latch.is_ready());
    // Later calls return the first status, whatever they ask for.
    assert_eq!(mcl_bn_init(&mut latch, BN254, MCLBN_COMPILED_TIME_VAR), INIT_OK);
    assert_eq!(mcl_bn_init(&mut latch, BN254, 0), INIT_OK);
    assert_eq!(mcl_bn_init(&mut latch, BLS12_381, 45), INIT_OK);
    assert_eq!(mcl_bn_init(&mut latch, BLS12_381, MCLBN_COMPILED_TIME_VAR), INIT_OK);
    assert!(latch.is_ready());
}

#[test]
fn a_failed_first_initialization_is_remembered() {
    let mut latch = InitLatch::new();
    assert_eq!(mcl_bn_init(&mut latch, BN254, MCLBN_COMPILED_TIME_VAR), INIT_UNKNOWN_CURVE);
    assert!(!latch.is_ready());
    // No retry: the right parameters come too late.
    assert_eq!(mcl_bn_init(&mut latch, BLS12_381, MCLBN_COMPILED_TIME_VAR), INIT_UNKNOWN_CURVE);
    assert_eq!(init_curve(&mut latch, Curve::Bls12_381), Err(INIT_UNKNOWN_CURVE));
    assert!(!latch.is_ready());

    let mut other = InitLatch::new();
    assert_eq!(mcl_bn_init(&mut other, BLS12_381, 45), INIT_SIZE_MISMATCH);
    assert_eq!(init_curve(&mut other, Curve::Bls12_381), Err(INIT_SIZE_MISMATCH));
    assert!(!other.is_ready());
}

#[test]
fn every_one_of_many_callers_sees_success() {
    let mut latch = InitLatch::new();
    for _ in 0..16 {
        assert_eq!(init_curve(&mut latch, Curve::Bls12_381), Ok(()));
        assert_eq!(mcl_bn_init(&mut latch, BLS12_381, MCLBN_COMPILED_TIME_VAR), INIT_OK);
        assert!(latch.is_ready());
    }
}
