use incognito::points::Point;
use incognito::scalars::Scalar;

fn scalar_of(v: u8) -> Scalar {
    let mut bytes = vec![0u8; 32];
    bytes[31] = v;
    Scalar::from_bytes(&bytes).unwrap()
}

#[test]
fn scalar_arithmetic_exact() {
    let one = Scalar::one();
    let two = scalar_of(2);
    let three = scalar_of(3);
    let five = scalar_of(5);
    let fifteen = scalar_of(15);

    assert!(one.add(&two).equals(&three));
    assert!(three.mul(&five).equals(&fifteen));
    assert!(five.sub(&two).equals(&three));
    assert!(Scalar::zero().add(&one).equals(&one));

    // 2 − 5 wraps to the order minus 3: the order ends in …36 41 41.
    let wrapped = two.sub(&five);
    let bytes = wrapped.to_bytes();
    assert_eq!(bytes[31], 0x3e);
    assert_eq!(bytes[30], 0x41);
    assert_eq!(bytes[29], 0x36);
}

#[test]
fn scalar_inverse_multiplies_to_one() {
    let seven = scalar_of(7);
    let inv = seven.invert().unwrap();
    assert!(seven.mul(&inv).equals(&Scalar::one()));
    assert!(Scalar::zero().invert().is_none());
}

#[test]
fn scalar_decoding_rejects_noncanonical() {
    // The group order itself is not a canonical scalar encoding.
    let order = vec![
        0xff, 0xff, 0xff, 0xff, 0xff, 0xff, 0xff, 0xff, 0xff, 0xff, 0xff, 0xff, 0xff, 0xff, 0xff,
        0xfe, 0xba, 0xae, 0xdc, 0xe6, 0xaf, 0x48, 0xa0, 0x3b, 0xbf, 0xd2, 0x5e, 0x8c, 0xd0, 0x36,
        0x41, 0x41,
    ];
    assert!(Scalar::from_bytes(&order).is_none());
    let mut below = order.clone();
    below[31] = 0x40;
    assert!(Scalar::from_bytes(&below).is_some());
    assert!(Scalar::from_bytes(&vec![0u8; 31]).is_none());
}

#[test]
fn generator_has_sec1_encoding() {
    let g = Point::generator().to_bytes();
    let expected = vec![
        0x02, 0x79, 0xbe, 0x66, 0x7e, 0xf9, 0xdc, 0xbb, 0xac, 0x55, 0xa0, 0x62, 0x95, 0xce, 0x87,
        0x0b, 0x07, 0x02, 0x9b, 0xfc, 0xdb, 0x2d, 0xce, 0x28, 0xd9, 0x59, 0xf2, 0x81, 0x5b, 0x16,
        0xf8, 0x17, 0x98,
    ];
    assert_eq!(g, expected);
}

#[test]
fn point_arithmetic_consistent() {
    let g = Point::generator();
    let two = scalar_of(2);
    assert!(g.add(&g).equals(&g.mul(&two)));
    assert!(g.mul(&Scalar::one()).equals(&g));

    let k = Scalar::random();
    let p = g.mul(&k);
    let roundtrip = Point::from_bytes(&p.to_bytes()).unwrap();
    assert!(roundtrip.equals(&p));
}

#[test]
fn point_decoding_rejects_invalid() {
    // 0x05 is not a SEC1 tag, whatever follows it.
    let mut bytes = Point::generator().to_bytes();
    bytes[0] = 0x05;
    assert!(Point::from_bytes(&bytes).is_none());
    assert!(Point::from_bytes(&vec![0u8; 32]).is_none());
}
