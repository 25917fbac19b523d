use mcl::bn::g1::HASH_AND_MAP_FAILED;
use mcl::bn::{Fp, Fp2, G1, G2};
use sha2::{Digest, Sha512};

#[test]
fn hashing_maps_the_digest_of_the_message() {
    for message in [&b"this"[..], &b""[..], &b"something else"[..]] {
        let digest = Sha512::digest(message).to_vec();
        assert_eq!(digest.len(), 64);
        assert_eq!(G1::hash_and_map(message), G1::map_digest(&digest));
        assert_eq!(G2::hash_and_map(message), G2::map_digest(&digest));
    }
}

#[test]
fn only_the_front_of_a_digest_counts() {
    let digest = Sha512::digest(b"this").to_vec();
    assert_eq!(G1::map_digest(&digest[..48]), G1::map_digest(&digest));
    let mut other = digest.clone();
    other[63] ^= 1;
    assert_eq!(G1::map_digest(&other), G1::map_digest(&digest));
    other[0] ^= 1;
    assert_ne!(G1::map_digest(&other), G1::map_digest(&digest));
    // The top three bits of the forty-eighth byte are masked away.
    let mut masked = digest.clone();
    masked[47] ^= 0x80;
    assert_eq!(G1::map_digest(&masked), G1::map_digest(&digest));
}

#[test]
fn the_map_gives_up_on_zero_and_on_short_digests() {
    assert_eq!(G1::map_digest(&[0u8; 64]), Err(HASH_AND_MAP_FAILED));
    assert_eq!(G2::map_digest(&[0u8; 64]), Err(HASH_AND_MAP_FAILED));
    assert_eq!(G1::map_digest(&[1u8; 47]), Err(HASH_AND_MAP_FAILED));
    assert_eq!(G2::map_digest(&[1u8; 47]), Err(HASH_AND_MAP_FAILED));
    assert_eq!(G1::map_digest(&[]), Err(HASH_AND_MAP_FAILED));
    assert_eq!(HASH_AND_MAP_FAILED, -1);
    assert!(G1::map_to_curve(&Fp::default()).is_none());
    assert!(G2::map_to_curve(&Fp2::default()).is_none());
    assert!(G1::map_digest(&[1u8; 48]).is_ok());
}

#[test]
fn the_map_lands_on_the_curve() {
    for k in 1..6u64 {
        let (x, y) = G1::map_to_curve(&Fp::from_u64(k)).unwrap();
        assert_eq!(y.sqr(), x.sqr().mul(&x).add(&Fp::from_u64(4)));
        let t = Fp2::from_parts(Fp::from_u64(k), Fp::default());
        let (x2, y2) = G2::map_to_curve(&t).unwrap();
        let b = Fp2::from_parts(Fp::from_u64(4), Fp::from_u64(4));
        assert_eq!(y2.sqr(), x2.sqr().mul(&x2).add(&b));
    }
}

#[test]
fn the_map_is_deterministic() {
    let t = Fp::from_u64(5);
    assert_eq!(G1::map_to_curve(&t), G1::map_to_curve(&t));
    assert_ne!(G1::map_to_curve(&t), G1::map_to_curve(&Fp::from_u64(6)));
    // One of t and -t is a square and the other is not, since -1 is no square.
    assert_ne!(t.euler(), t.neg().euler());
}

#[test]
fn affine_coordinates_round_trip() {
    let p = G1::hash_and_map(b"p").unwrap();
    let (x, y) = p.to_affine().unwrap();
    assert_eq!(G1::from_affine(&x, &y), Some(p));
    assert_eq!(G1::from_affine(&x, &y.neg()), Some(p.neg()));
    assert!(G1::identity().to_affine().is_none());
    let q = G2::hash_and_map(b"q").unwrap();
    let (x2, y2) = q.to_affine().unwrap();
    assert_eq!(G2::from_affine(&x2, &y2), Some(q));
    assert_eq!(G2::from_affine(&x2, &y2.neg()), Some(q.neg()));
    assert!(G2::identity().to_affine().is_none());
}

#[test]
fn affine_coordinates_outside_the_group_are_rejected() {
    // off the curve
    assert!(G1::from_affine(&Fp::from_u64(1), &Fp::from_u64(1)).is_none());
    assert!(G1::from_affine(&Fp::default(), &Fp::default()).is_none());
    // on the curve, of order three
    assert!(G1::from_affine(&Fp::default(), &Fp::from_u64(2)).is_none());
    // on the curve before the cofactor is cleared
    let (x, y) = G1::map_to_curve(&Fp::from_u64(1)).unwrap();
    assert!(G1::from_affine(&x, &y).is_none());
    let t = Fp2::from_parts(Fp::from_u64(1), Fp::default());
    let (x2, y2) = G2::map_to_curve(&t).unwrap();
    assert!(G2::from_affine(&x2, &y2).is_none());
    assert!(G2::from_affine(&Fp2::default(), &Fp2::default()).is_none());
}
