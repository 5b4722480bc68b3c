use incognito::bulletproof::BulletProof;
use incognito::points::Point;
use incognito::scalars::Scalar;
use incognito::Error;

fn random_instance(n: usize) -> (Vec<Point>, Vec<Point>, Vec<Scalar>, Vec<Scalar>, Point) {
    let g: Vec<Point> = (0..n).map(|_| Point::generator().mul(&Scalar::random())).collect();
    let h: Vec<Point> = (0..n).map(|_| Point::generator().mul(&Scalar::random())).collect();
    let l: Vec<Scalar> = (0..n).map(|_| Scalar::random()).collect();
    let r: Vec<Scalar> = (0..n).map(|_| Scalar::random()).collect();

    let mut target = g[0].mul(&l[0]).add(&h[0].mul(&r[0]));
    for i in 1..n {
        target = target.add(&g[i].mul(&l[i]).add(&h[i].mul(&r[i])));
    }
    (g, h, l, r, target)
}

fn test_correctness_n(n: usize) {
    let (g, h, l, r, target) = random_instance(n);
    let proof = BulletProof::prove(&g, &h, &l, &r, &target).unwrap();
    proof.verify(&g, &h).unwrap();
    assert!(target.equals(&proof.target));
}

#[test]
fn test_correctness() {
    for n in [1, 2, 4, 8, 16] {
        test_correctness_n(n);
    }
}

#[test]
fn test_convertion_compact() {
    let n = 16;
    let (g, h, l, r, target) = random_instance(n);

    let proof = BulletProof::prove(&g, &h, &l, &r, &target).unwrap();

    let bytes = proof.serialize();
    // 33 target bytes, two length-prefixed vectors of log2(16) = 4 points,
    // and two 32-byte scalars.
    assert_eq!(bytes.len(), 33 + (8 + 33 * 4) * 2 + 64);
    let proof_converted = BulletProof::deserialize(&bytes).unwrap();
    proof_converted.verify(&g, &h).unwrap();
    assert!(target.equals(&proof_converted.target));
    assert!(proof_converted.equals(&proof));
}

#[test]
fn prove_rejects_bad_shapes() {
    let (g, h, l, r, target) = random_instance(4);
    // A vector count that is not a power of two.
    let (g3, h3, l3, r3, t3) = random_instance(3);
    assert!(matches!(
        BulletProof::prove(&g3, &h3, &l3, &r3, &t3),
        Err(Error::BadArguments)
    ));
    // Mismatched vector lengths.
    assert!(matches!(
        BulletProof::prove(&g, &h[..3], &l, &r, &target),
        Err(Error::BadArguments)
    ));
    // An empty instance.
    let empty_g: Vec<Point> = Vec::new();
    let empty_h: Vec<Point> = Vec::new();
    let empty_l: Vec<Scalar> = Vec::new();
    let empty_r: Vec<Scalar> = Vec::new();
    assert!(matches!(
        BulletProof::prove(&empty_g, &empty_h, &empty_l, &empty_r, &target),
        Err(Error::BadArguments)
    ));
}

#[test]
fn verify_rejects_wrong_bases() {
    let (g, h, l, r, target) = random_instance(8);
    let proof = BulletProof::prove(&g, &h, &l, &r, &target).unwrap();

    // Wrong base count for the recorded rounds.
    assert!(proof.verify(&g[..4], &h[..4]).is_err());
    // Mismatched base vector lengths.
    assert!(matches!(proof.verify(&g, &h[..4]), Err(Error::BadArguments)));
    // A different basis.
    let (g2, h2, _, _, _) = random_instance(8);
    assert!(matches!(proof.verify(&g2, &h2), Err(Error::InvalidSignature)));
}

#[test]
fn tampered_proof_rejected() {
    let (g, h, l, r, target) = random_instance(8);
    let proof = BulletProof::prove(&g, &h, &l, &r, &target).unwrap();

    let bytes = proof.serialize();
    // The final scalar `r` sits in the last 32 bytes; lower it by one bit.
    let mut tampered = bytes.clone();
    let last = tampered.len() - 1;
    tampered[last] ^= 1;
    match BulletProof::deserialize(&tampered) {
        // The altered scalar may leave the canonical range entirely.
        None => {}
        Some(bad) => {
            assert!(matches!(bad.verify(&g, &h), Err(Error::InvalidSignature)));
        }
    }
}
