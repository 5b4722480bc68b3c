use incognito::incognito::{IncognitoParams, IncognitoSignature};
use incognito::points::Point;
use incognito::scalars::Scalar;
use incognito::schnorr::SchnorrSignature;
use incognito::Error;
use rand::Rng;

fn ring(n: usize) -> (Vec<Scalar>, Vec<Point>) {
    let sks: Vec<Scalar> = (0..n).map(|_| Scalar::random()).collect();
    let pks: Vec<Point> = sks.iter().map(|s| Point::generator().mul(s)).collect();
    (sks, pks)
}

fn test_correctness_n(n: usize, index: usize) {
    let params = IncognitoParams::<256>::new();
    let (sks, pks) = ring(n);

    let message = [0, 3, 6, 9];
    let signature = SchnorrSignature::sign(&sks[index], &message);

    signature.verify(&pks[index], &message).unwrap();

    let incsig = params.convert(&pks, &message, &signature, index).unwrap();
    params.verify(&pks, &message, &incsig).unwrap();
}

#[test]
fn incognito_test_correctness() {
    for n in [1, 2, 4, 8, 16] {
        let i = rand::rngs::ThreadRng::default().gen_range(0..n);
        test_correctness_n(n, i);
    }
}

#[test]
fn incognito_test_serialization() {
    let n = 256;
    let index = 128;
    let params = IncognitoParams::<256>::new();
    let (sks, pks) = ring(n);

    let message = [0, 3, 6, 9];
    let signature = SchnorrSignature::sign(&sks[index], &message);

    signature.verify(&pks[index], &message).unwrap();

    let incsig = params.convert(&pks, &message, &signature, index).unwrap();

    let params_wire = params.serialize();
    // `g`, `h`, and two length-prefixed vectors of 256 points.
    assert_eq!(params_wire.len(), 66 + (8 + 33 * 256) * 2);
    let params_new = IncognitoParams::<256>::deserialize(&params_wire).unwrap();
    let incsig_wire = incsig.serialize();
    // Ten points and four scalars, then the proof with log2(256) = 8 rounds.
    assert_eq!(incsig_wire.len(), 456 + 33 + (8 + 33 * 8) * 2 + 64);
    let incsig_new = IncognitoSignature::deserialize(&incsig_wire).unwrap();
    params_new.verify(&pks, &message, &incsig_new).unwrap();
    assert!(params.equals(&params_new));
    assert!(incsig.equals(&incsig_new));
}

// A large ring with the signer deep inside it, and a wire round-trip that
// still verifies.
#[test]
fn scenario_large_ring() {
    let n = 128;
    let index = 65;
    let params = IncognitoParams::<256>::new();
    let (sks, pks) = ring(n);
    let message = [0, 3, 6, 9];

    let signature = SchnorrSignature::sign(&sks[index], &message);
    let incsig = params.convert(&pks, &message, &signature, index).unwrap();
    params.verify(&pks, &message, &incsig).unwrap();

    let incsig_new = IncognitoSignature::deserialize(&incsig.serialize()).unwrap();
    assert!(incsig_new.equals(&incsig));
    params.verify(&pks, &message, &incsig_new).unwrap();
}

// The degenerate one-member ring.
#[test]
fn scenario_degenerate_ring() {
    let params = IncognitoParams::<16>::new();
    let (sks, pks) = ring(1);
    let message = [42];

    let signature = SchnorrSignature::sign(&sks[0], &message);
    let incsig = params.convert(&pks, &message, &signature, 0).unwrap();
    params.verify(&pks, &message, &incsig).unwrap();
}

// A full-capacity ring; then a corrupted `C_pk` on the wire must not pass.
#[test]
fn scenario_corrupted_commitment() {
    let n = 256;
    let index = 128;
    let params = IncognitoParams::<256>::new();
    let (sks, pks) = ring(n);
    let message = [5, 5, 5];

    let signature = SchnorrSignature::sign(&sks[index], &message);
    let incsig = params.convert(&pks, &message, &signature, index).unwrap();
    params.verify(&pks, &message, &incsig).unwrap();

    // `C_pk` occupies bytes 33..66 of the wire form. Try each value of its
    // final byte: every decodable corruption must be rejected, and some
    // value must decode so that the check is actually exercised.
    let bytes = incsig.serialize();
    let mut exercised = false;
    for v in 0..=255u8 {
        if v == bytes[65] {
            continue;
        }
        let mut tampered = bytes.clone();
        tampered[65] = v;
        if let Some(bad) = IncognitoSignature::deserialize(&tampered) {
            assert!(matches!(
                params.verify(&pks, &message, &bad),
                Err(Error::InvalidSignature)
            ));
            exercised = true;
            break;
        }
    }
    assert!(exercised);
}

// Caller contract violations surface as `BadArguments`.
#[test]
fn scenario_bad_arguments() {
    let params = IncognitoParams::<256>::new();
    let (sks, pks) = ring(4);
    let message = [1, 2, 3];
    let signature = SchnorrSignature::sign(&sks[0], &message);

    assert!(matches!(
        params.convert(&pks, &message, &signature, 4),
        Err(Error::BadArguments)
    ));

    let (_, big_pks) = ring(1024);
    assert!(matches!(
        params.convert(&big_pks, &message, &signature, 0),
        Err(Error::BadArguments)
    ));
}

// A signature converted for one message does not verify for another.
#[test]
fn scenario_substituted_message() {
    let n = 16;
    let index = 7;
    let params = IncognitoParams::<16>::new();
    let (sks, pks) = ring(n);

    let m_sign = b"A";
    let m_verify = b"B";
    let signature = SchnorrSignature::sign(&sks[index], m_sign);
    let incsig = params.convert(&pks, m_sign, &signature, index).unwrap();
    params.verify(&pks, m_sign, &incsig).unwrap();
    assert!(matches!(
        params.verify(&pks, m_verify, &incsig),
        Err(Error::InvalidSignature)
    ));
}

// Converting with the wrong ring position must not verify.
#[test]
fn scenario_wrong_index() {
    let n = 8;
    let params = IncognitoParams::<8>::new();
    let (sks, pks) = ring(n);
    let message = [4, 4];

    let signature = SchnorrSignature::sign(&sks[3], &message);
    signature.verify(&pks[3], &message).unwrap();

    let incsig = params.convert(&pks, &message, &signature, 4).unwrap();
    assert!(params.verify(&pks, &message, &incsig).is_err());
}

// Two conversions of the same signature leave `R` alone and redraw every
// commitment: nothing but the copied field coincides.
#[test]
fn conversions_are_freshly_randomized() {
    let n = 8;
    let index = 2;
    let params = IncognitoParams::<8>::new();
    let (sks, pks) = ring(n);
    let message = [6, 6, 6];

    let signature = SchnorrSignature::sign(&sks[index], &message);
    let a = params.convert(&pks, &message, &signature, index).unwrap();
    let b = params.convert(&pks, &message, &signature, index).unwrap();
    params.verify(&pks, &message, &a).unwrap();
    params.verify(&pks, &message, &b).unwrap();

    let wa = a.serialize();
    let wb = b.serialize();
    // `R` is copied from the input signature.
    assert_eq!(&wa[0..33], &wb[0..33]);
    // The commitments `C_pk`, `R_z`, `A`, `S`, `S_pk`, `T1`, `T2` are fresh.
    for (lo, hi) in [(33, 66), (66, 99), (163, 196), (196, 229), (229, 262), (262, 295), (295, 328)] {
        assert_ne!(&wa[lo..hi], &wb[lo..hi]);
    }

    // Signatures for two different ring positions both verify and differ.
    let sig5 = SchnorrSignature::sign(&sks[5], &message);
    let c = params.convert(&pks, &message, &sig5, 5).unwrap();
    params.verify(&pks, &message, &c).unwrap();
    assert!(!c.equals(&a));
}

// A verifier holding a smaller parameter set rejects an oversized ring.
#[test]
fn verify_rejects_oversized_ring() {
    let params = IncognitoParams::<4>::new();
    let (sks, pks) = ring(4);
    let message = [8];
    let signature = SchnorrSignature::sign(&sks[1], &message);
    let incsig = params.convert(&pks, &message, &signature, 1).unwrap();
    params.verify(&pks, &message, &incsig).unwrap();

    let (_, big_pks) = ring(8);
    assert!(matches!(
        params.verify(&big_pks, &message, &incsig),
        Err(Error::BadArguments)
    ));
}
