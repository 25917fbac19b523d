use mcl::bn::{Fp, Fp2, Fr, G1, G2, GT};
use mcl::common::Base;
use mcl::traits::{Formattable, RawSerializable};

const EXPECTED: &str = "1 ea23afffe7e4eaeddbec067563e2387bac5c2354bd58f4346151db670e65c465f947789e5f82de9ba7567d0a289c658 cf01434515162c99815667f4a5515e20d407609702b9bc182155bcf23473960ec4de3b5b552285b3f1656948cfe3260";

fn fr(text: &str) -> Fr {
    Fr::from_str(text, Base::Dec).unwrap()
}

#[test]
fn hashed_point_times_scalar_prints_as_the_known_point() {
    let p = G1::hash_and_map(b"this").unwrap();
    assert_eq!(p.mul(&fr("123")).get_str(Base::Hex), EXPECTED);
}

#[test]
fn another_hashed_point_times_scalar_stays_what_it_is() {
    let p = G1::hash_and_map(b"abc").unwrap();
    assert_eq!(
        p.get_str(Base::Hex),
        "1 16379044479e745e2a14731fee35274308addf04b9e2cd0ef838069689333c4460054b518cc1ec87fce8b9144262e206 168c083fc11839bd7ef7e655364f65000b6c3e0bf41c60b835a2dd9991aabeefc10b943c0469f211632c62ddf706ee54"
    );
    assert_eq!(
        p.mul(&fr("123")).get_str(Base::Hex),
        "1 bb6708ab97ebebe79292d5ee23cffeb851d13705ed39592ab0e54a8cb30c72bc26c7a59a88a4f847ed56b3794b7de42 151fa2a0e8a327e4f885e9c2fe0d4dd66e423f7d939ed3922920c4a5612c547c847e702e8245ece4c191678908df93da"
    );
}

#[test]
fn multiples_add_up() {
    let p = G1::hash_and_map(b"abc").unwrap();
    assert_eq!(p.mul(&fr("123")), p.mul(&fr("100")).add(&p.mul(&fr("23"))));
    assert_eq!(p.mul(&fr("123")), p.mul(&fr("3")).mul(&fr("41")));
    let q = G2::hash_and_map(b"abc").unwrap();
    assert_eq!(q.mul(&fr("123")), q.mul(&fr("100")).add(&q.mul(&fr("23"))));
    assert_eq!(q.mul(&fr("123")), q.mul(&fr("3")).mul(&fr("41")));
    let a = Fr::from_csprng().unwrap();
    let b = Fr::from_csprng().unwrap();
    assert_eq!(p.mul(&a.add(&b)), p.mul(&a).add(&p.mul(&b)));
    assert_eq!(p.mul(&a.mul(&b)), p.mul(&a).mul(&b));
}

#[test]
fn hashing_is_deterministic_and_separates_messages() {
    assert_eq!(G1::hash_and_map(b"abc").unwrap(), G1::hash_and_map(b"abc").unwrap());
    assert_ne!(G1::hash_and_map(b"abc").unwrap(), G1::hash_and_map(b"abd").unwrap());
    assert_eq!(G2::hash_and_map(b"abc").unwrap(), G2::hash_and_map(b"abc").unwrap());
    assert_ne!(G2::hash_and_map(b"abc").unwrap(), G2::hash_and_map(b"abd").unwrap());
    assert!(!G1::hash_and_map(b"").unwrap().is_zero());
    assert!(!G2::hash_and_map(b"").unwrap().is_zero());
}

#[test]
fn schnorr_identification_verifies() {
    let g = G1::hash_and_map(b"something").unwrap();
    let sk = Fr::from_csprng().unwrap();
    let pk = g.mul(&sk);
    let x = Fr::from_csprng().unwrap();
    let commitment = g.mul(&x);
    let c = Fr::from_csprng().unwrap();
    let s = x.add(&sk.mul(&c));
    assert_eq!(g.mul(&s), commitment.add(&pk.mul(&c)));
    let forged = s.add(&fr("1"));
    assert_ne!(g.mul(&forged), commitment.add(&pk.mul(&c)));
}

#[test]
fn schnorr_identification_verifies_in_the_second_group() {
    let g = G2::hash_and_map(b"something else").unwrap();
    let sk = fr("1234567");
    let pk = g.mul(&sk);
    let x = fr("7654321");
    let commitment = g.mul(&x);
    let c = fr("999");
    let s = x.add(&sk.mul(&c));
    assert_eq!(g.mul(&s), commitment.add(&pk.mul(&c)));
}

#[test]
fn first_group_laws_on_samples() {
    let p = G1::hash_and_map(b"p").unwrap();
    let q = G1::hash_and_map(b"q").unwrap();
    let o = G1::identity();
    assert_eq!(p.add(&o), p);
    assert_eq!(o.add(&p), p);
    assert_eq!(p.add(&q), q.add(&p));
    assert_ne!(p.add(&q), p);
    assert_eq!(p.sub(&p), o);
    assert_eq!(p.add(&p.neg()), o);
    assert_ne!(p.neg(), p);
    assert_eq!(p.neg().neg(), p);
    assert_eq!(o.neg(), o);
    assert_eq!(p.dbl(), p.add(&p));
    assert_eq!(p.dbl(), p.mul(&fr("2")));
    assert_eq!(p.add(&q).sub(&q), p);
    assert_eq!(p.mul(&fr("0")), o);
    assert_eq!(p.mul(&fr("1")), p);
    assert_eq!(o.mul(&fr("5")), o);
    assert_eq!(p.mul(&fr("3")), p.add(&p).add(&p));
    assert_eq!(p.mul(&fr("1").neg()), p.neg());
    assert!(o.is_zero());
    assert!(!p.is_zero());
    assert_eq!(G1::default(), o);
}

#[test]
fn second_group_laws_on_samples() {
    let p = G2::hash_and_map(b"p").unwrap();
    let q = G2::hash_and_map(b"q").unwrap();
    let o = G2::identity();
    assert_eq!(p.add(&o), p);
    assert_eq!(o.add(&p), p);
    assert_eq!(p.add(&q), q.add(&p));
    assert_ne!(p.add(&q), p);
    assert_eq!(p.sub(&p), o);
    assert_ne!(p.neg(), p);
    assert_eq!(p.neg().neg(), p);
    assert_eq!(p.dbl(), p.add(&p));
    assert_eq!(p.dbl(), p.mul(&fr("2")));
    assert_eq!(p.mul(&fr("0")), o);
    assert_eq!(p.mul(&fr("3")), p.add(&p).add(&p));
    assert_eq!(p.mul(&fr("1").neg()), p.neg());
    assert_eq!(G2::default(), o);
}

#[test]
fn first_group_encodings_round_trip() {
    for p in [G1::hash_and_map(b"p").unwrap(), G1::identity()] {
        let bytes = p.serialize_raw().unwrap();
        assert_eq!(bytes.len(), 96);
        let mut q = G1::hash_and_map(b"other").unwrap();
        assert_eq!(q.deserialize_raw(&bytes), Ok(96));
        assert_eq!(p, q);
        assert_eq!(G1::deserialize(&p.serialize()).unwrap(), p);
        for base in [Base::Dec, Base::Hex] {
            assert_eq!(G1::from_str(&p.get_str(base), base).unwrap(), p);
        }
    }
    assert_eq!(G1::identity().get_str(Base::Dec), "0");
    assert!(G1::identity().serialize().iter().all(|b| *b == 0));
}

#[test]
fn second_group_encodings_round_trip() {
    for p in [G2::hash_and_map(b"p").unwrap(), G2::identity()] {
        let bytes = p.serialize_raw().unwrap();
        assert_eq!(bytes.len(), 192);
        let mut q = G2::hash_and_map(b"other").unwrap();
        assert_eq!(q.deserialize_raw(&bytes), Ok(192));
        assert_eq!(p, q);
        assert_eq!(G2::deserialize(&p.serialize()).unwrap(), p);
        for base in [Base::Dec, Base::Hex] {
            assert_eq!(G2::from_str(&p.get_str(base), base).unwrap(), p);
        }
    }
    assert_eq!(G2::identity().get_str(Base::Hex), "0");
}

#[test]
fn target_group_encodings_round_trip() {
    let e = GT::from_pairing(&G1::hash_and_map(b"p").unwrap(), &G2::hash_and_map(b"q").unwrap());
    for a in [e, GT::identity()] {
        let bytes = a.serialize_raw().unwrap();
        assert_eq!(bytes.len(), 576);
        let mut b = GT::default();
        assert_eq!(b.deserialize_raw(&bytes), Ok(576));
        assert_eq!(a, b);
        assert_eq!(GT::deserialize(&a.serialize()).unwrap(), a);
        for base in [Base::Dec, Base::Hex] {
            assert_eq!(GT::from_str(&a.get_str(base), base).unwrap(), a);
        }
    }
    assert_eq!(GT::identity().get_str(Base::Dec), "1 0 0 0 0 0 0 0 0 0 0 0");
    let mut c = e;
    c.clear();
    assert_eq!(c, GT::identity());
}

#[test]
fn empty_input_decodes_to_nothing() {
    assert!(Fr::default().deserialize_raw(&[]).is_err());
    assert!(Fp::default().deserialize_raw(&[]).is_err());
    assert!(Fp2::default().deserialize_raw(&[]).is_err());
    assert!(G1::default().deserialize_raw(&[]).is_err());
    assert!(G2::default().deserialize_raw(&[]).is_err());
    assert!(GT::default().deserialize_raw(&[]).is_err());
    assert!(Fr::deserialize(&[]).is_err());
    assert!(Fp::deserialize(&[]).is_err());
    assert!(Fp2::deserialize(&[]).is_err());
    assert!(G1::deserialize(&[]).is_err());
    assert!(G2::deserialize(&[]).is_err());
    assert!(GT::deserialize(&[]).is_err());
}

#[test]
fn failed_decoding_leaves_the_point_unchanged() {
    let p = G1::hash_and_map(b"p").unwrap();
    let mut q = p;
    assert!(q.deserialize_raw(&[1u8; 96]).is_err());
    assert_eq!(p, q);
    assert!(q.deserialize_raw(&p.serialize()[..95]).is_err());
    assert!(q.set_str("1 2 3", Base::Dec).is_err());
    assert!(q.set_str("", Base::Dec).is_err());
    assert_eq!(p, q);
    let e = GT::from_pairing(&p, &G2::hash_and_map(b"q").unwrap());
    let mut f = e;
    assert!(f.deserialize_raw(&[0xff; 576]).is_err());
    assert!(f.deserialize_raw(&e.serialize()[..575]).is_err());
    assert!(f.set_str("1 0 0", Base::Dec).is_err());
    assert_eq!(e, f);
}

#[test]
fn points_off_the_curve_are_rejected() {
    assert!(G1::from_str("1 1 1", Base::Dec).is_err());
    assert!(G1::from_str("1 0 0", Base::Dec).is_err());
    assert!(G1::from_str("2", Base::Dec).is_err());
    assert!(G1::from_str("1", Base::Dec).is_err());
    assert!(G1::from_str("1 ", Base::Dec).is_err());
    assert!(G1::from_str("0 ", Base::Dec).is_err());
    assert!(G1::from_str("1  2 3", Base::Dec).is_err());
    assert!(G1::from_str("abc", Base::Dec).is_err());
    assert!(G2::from_str("1 1 1 1 1", Base::Dec).is_err());
    assert!(G2::from_str("1 1 1", Base::Dec).is_err());
    assert!(GT::from_str("abc", Base::Dec).is_err());
    assert!(GT::from_str("1 0 0 0 0 0 0 0 0 0 0", Base::Dec).is_err());
    assert!(GT::from_str("1 0 0 0 0 0 0 0 0 0 0 0 0", Base::Dec).is_err());
}

#[test]
fn field_elements_outside_the_target_group_are_rejected() {
    assert!(GT::from_str("1 0 0 0 0 0 0 0 0 0 0 0", Base::Dec).is_ok());
    assert!(GT::from_str("2 0 0 0 0 0 0 0 0 0 0 0", Base::Dec).is_err());
    assert!(GT::from_str("0 0 0 0 0 0 0 0 0 0 0 0", Base::Dec).is_err());
    assert!(GT::from_str("1 1 0 0 0 0 0 0 0 0 0 0", Base::Dec).is_err());
    let mut bytes = GT::identity().serialize();
    assert!(GT::deserialize(&bytes).is_ok());
    bytes[0] = 2;
    assert!(GT::deserialize(&bytes).is_err());
    bytes[0] = 0;
    assert!(GT::deserialize(&bytes).is_err());
    assert!(GT::identity().is_one());
    let e = GT::from_pairing(&G1::hash_and_map(b"p").unwrap(), &G2::hash_and_map(b"q").unwrap());
    assert!(!e.is_one());
}

#[test]
fn curve_points_outside_the_group_are_rejected() {
    // A point on the first curve: y^2 = x^3 + 4 with x = 0 has y = 2. Its
    // order is not the group order, since the curve's cofactor is not one.
    let x = Fp::from_u64(0);
    let y = Fp::from_u64(2);
    assert_eq!(y.sqr(), x.sqr().mul(&x).add(&Fp::from_u64(4)));
    let mut bytes = x.serialize();
    bytes.extend_from_slice(&y.serialize());
    assert!(G1::deserialize(&bytes).is_err());
    assert!(G1::from_str("1 0 2", Base::Dec).is_err());

    // A point on the second curve outside the group.
    let mut k = 0u64;
    let (x2, y2) = loop {
        let x2 = Fp2::from_parts(Fp::from_u64(k), Fp::from_u64(1));
        let b = Fp2::from_parts(Fp::from_u64(4), Fp::from_u64(4));
        let rhs = x2.sqr().mul(&x2).add(&b);
        if let Some(y2) = rhs.square_root() {
            if y2.sqr() == rhs {
                break (x2, y2);
            }
        }
        k += 1;
    };
    let mut bytes2 = x2.serialize();
    bytes2.extend_from_slice(&y2.serialize());
    assert!(G2::deserialize(&bytes2).is_err());
}
