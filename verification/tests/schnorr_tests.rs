use incognito::points::Point;
use incognito::scalars::Scalar;
use incognito::schnorr::SchnorrSignature;
use incognito::Error;

#[test]
fn test_sign() {
    let sk = Scalar::random();
    let pk = Point::generator().mul(&sk);

    let m = [0, 3, 5, 8, 1];
    let sig = SchnorrSignature::sign(&sk, &m);
    sig.verify(&pk, &m).unwrap();
}

#[test]
#[should_panic]
fn test_sign_panic() {
    let sk = Scalar::random();
    let pk = Point::generator().mul(&sk);

    let m1 = [0, 3, 5, 8, 1];
    let sig = SchnorrSignature::sign(&sk, &m1);
    let m2 = [0, 0, 3, 5, 8, 1];
    sig.verify(&pk, &m2).unwrap();
}

#[test]
fn test_serialization() {
    let sk = Scalar::random();
    let pk = Point::generator().mul(&sk);

    let m = [0, 3, 5, 8, 1];
    let sig = SchnorrSignature::sign(&sk, &m);

    let bytes = sig.serialize();
    assert_eq!(bytes.len(), 65);
    let sig_new = SchnorrSignature::deserialize(&bytes).unwrap();
    assert!(sig_new.equals(&sig));
    sig_new.verify(&pk, &m).unwrap();
}

#[test]
fn altered_message_byte_rejected() {
    let sk = Scalar::random();
    let pk = Point::generator().mul(&sk);

    let m = [7u8, 1, 2, 3];
    let sig = SchnorrSignature::sign(&sk, &m);
    sig.verify(&pk, &m).unwrap();

    for i in 0..m.len() {
        let mut altered = m;
        altered[i] ^= 0x20;
        assert!(matches!(sig.verify(&pk, &altered), Err(Error::InvalidSignature)));
    }
}

#[test]
fn wrong_key_rejected() {
    let sk = Scalar::random();
    let other = Point::generator().mul(&Scalar::random());

    let m = [9u8, 9, 9];
    let sig = SchnorrSignature::sign(&sk, &m);
    assert!(matches!(sig.verify(&other, &m), Err(Error::InvalidSignature)));
}

#[test]
fn truncated_signature_rejected() {
    let sk = Scalar::random();
    let m = [1u8, 2];
    let sig = SchnorrSignature::sign(&sk, &m);
    let mut bytes = sig.serialize();
    bytes.pop();
    assert!(SchnorrSignature::deserialize(&bytes).is_none());
    bytes.push(0);
    bytes.push(0);
    assert!(SchnorrSignature::deserialize(&bytes).is_none());
}
