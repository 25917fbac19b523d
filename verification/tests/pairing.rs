use mcl::bn::{Fr, G1, G2, GT};
use mcl::common::Base;
use mcl::init::{init_curve, Curve, InitLatch};

fn run_test(inner: impl FnOnce() -> ()) {
    init_curve(&mut InitLatch::new(), Curve::Bls12_381).unwrap();
    inner();
}

#[test]
#[allow(non_snake_case)]
fn bn_test_pairing() {
    run_test(|| {
        let a = Fr::from_str("123", Base::Dec).unwrap();
        let b = Fr::from_str("456", Base::Dec).unwrap();
        let P = G1::hash_and_map(b"abc").unwrap();
        let Q = G2::hash_and_map(b"abc").unwrap();

        let e1 = GT::from_pairing(&P, &Q);

        let aQ = Q.mul(&a);
        let bP = P.mul(&b);

        let e2 = GT::from_pairing(&bP, &aQ);
        let e1 = e1.pow(&a.mul(&b));
        assert_eq!(e1, e2);
    });
}

#[test]
#[allow(non_snake_case)]
fn test_pairing() {
    run_test(|| {
        let a = Fr::from_str("123", Base::Dec).unwrap();
        let b = Fr::from_str("456", Base::Dec).unwrap();
        let P = G1::hash_and_map(b"abc").unwrap();
        let Q = G2::hash_and_map(b"abc").unwrap();

        let e1 = GT::from_pairing(&P, &Q);

        let aQ = Q.mul(&a);
        let bP = P.mul(&b);

        let e2 = GT::from_pairing(&bP, &aQ);
        let e1 = e1.pow(&a.mul(&b));
        assert_eq!(e1, e2);
    });
}

#[test]
fn pairing_is_bilinear_in_both_arguments() {
    run_test(|| {
        let a = Fr::from_csprng().unwrap();
        let b = Fr::from_csprng().unwrap();
        let p = G1::hash_and_map(b"this").unwrap();
        let q = G2::hash_and_map(b"that").unwrap();
        let e = GT::from_pairing(&p, &q);
        let expected = e.pow(&a.mul(&b));
        assert_eq!(GT::from_pairing(&p.mul(&a), &q.mul(&b)), expected);
        assert_eq!(GT::from_pairing(&p.mul(&b), &q.mul(&a)), expected);
        assert_eq!(GT::from_pairing(&p.mul(&a), &q), e.pow(&a));
        assert_eq!(GT::from_pairing(&p, &q.mul(&b)), e.pow(&b));
    });
}

#[test]
fn pairing_is_not_degenerate() {
    run_test(|| {
        let p = G1::hash_and_map(b"this").unwrap();
        let q = G2::hash_and_map(b"that").unwrap();
        let e = GT::from_pairing(&p, &q);
        assert_ne!(e, GT::identity());
        assert_ne!(e, GT::from_pairing(&p.dbl(), &q));
    });
}

#[test]
fn pairing_with_the_point_at_infinity_is_one() {
    run_test(|| {
        let p = G1::hash_and_map(b"this").unwrap();
        let q = G2::hash_and_map(b"that").unwrap();
        assert_eq!(GT::from_pairing(&G1::identity(), &q), GT::identity());
        assert_eq!(GT::from_pairing(&p, &G2::identity()), GT::identity());
    });
}

#[test]
fn target_group_product_and_power_agree() {
    run_test(|| {
        let p = G1::hash_and_map(b"this").unwrap();
        let q = G2::hash_and_map(b"that").unwrap();
        let e = GT::from_pairing(&p, &q);
        let two = Fr::from_str("2", Base::Dec).unwrap();
        let three = Fr::from_str("3", Base::Dec).unwrap();
        assert_eq!(e.mul(&e), e.pow(&two));
        assert_eq!(e.mul(&e).mul(&e), e.pow(&three));
        assert_eq!(e.mul(&GT::identity()), e);
        assert_eq!(e.pow(&Fr::default()), GT::identity());
        assert_ne!(e.mul(&e), e);
    });
}

#[test]
fn pairing_adds_up_in_the_first_argument() {
    run_test(|| {
        let p = G1::hash_and_map(b"one").unwrap();
        let r = G1::hash_and_map(b"two").unwrap();
        let q = G2::hash_and_map(b"that").unwrap();
        let left = GT::from_pairing(&p.add(&r), &q);
        let right = GT::from_pairing(&p, &q).mul(&GT::from_pairing(&r, &q));
        assert_eq!(left, right);
    });
}
