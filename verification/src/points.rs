//! Points of the secp256k1 group.
//!
//! A point is modelled by its canonical SEC1 compressed encoding: 33 bytes,
//! with the identity encoded as 33 zero bytes, exactly as `k256` encodes a
//! group element. Equality of points is equality of encodings. The group
//! operations themselves are supplied by `k256` behind trusted wrappers and
//! named by uninterpreted functions over the encodings.

use vstd::prelude::*;
use crate::bytes::{bytes_eq, copy_bytes};
use crate::scalars::Scalar;
use elliptic_curve::Group;
use elliptic_curve::PrimeField;
use elliptic_curve::group::GroupEncoding;

verus! {

/// Whether a byte string is the canonical compressed encoding of a point.
pub uninterp spec fn is_point_repr(s: Seq<u8>) -> bool;

/// The encoding of the sum of the points encoded by `a` and `b`.
pub uninterp spec fn p_add(a: Seq<u8>, b: Seq<u8>) -> Seq<u8>;

/// The encoding of the point encoded by `p` multiplied by the scalar `k`.
pub uninterp spec fn p_mul(p: Seq<u8>, k: nat) -> Seq<u8>;

/// The SEC1 compressed encoding of the secp256k1 base point.
pub open spec fn generator_repr() -> Seq<u8> {
    seq![
        0x02u8, 0x79u8, 0xbeu8, 0x66u8, 0x7eu8, 0xf9u8, 0xdcu8, 0xbbu8, 0xacu8,
        0x55u8, 0xa0u8, 0x62u8, 0x95u8, 0xceu8, 0x87u8, 0x0bu8, 0x07u8, 0x02u8,
        0x9bu8, 0xfcu8, 0xdbu8, 0x2du8, 0xceu8, 0x28u8, 0xd9u8, 0x59u8, 0xf2u8,
        0x81u8, 0x5bu8, 0x16u8, 0xf8u8, 0x17u8, 0x98u8,
    ]
}

/// The encodings of a sequence of points.
pub open spec fn views(s: Seq<Point>) -> Seq<Seq<u8>> {
    s.map_values(|p: Point| p@)
}

/// A fresh copy of a vector of points.
pub fn dup_points(v: &[Point]) -> (r: Vec<Point>)
    ensures
        r@.len() == v@.len(),
        views(r@) == views(v@),
{
    let n = v.len();
    let mut r: Vec<Point> = Vec::new();
    let mut i: usize = 0;
    while i < n
        invariant
            n == v@.len(),
            i <= n,
            r@.len() == i,
            forall|j: int| 0 <= j < i ==> r@[j]@ == v@[j]@,
        decreases n - i,
    {
        r.push(v[i].duplicate());
        i += 1;
    }
    proof {
        assert(views(r@) =~= views(v@));
    }
    r
}

/// Elementwise equality of two point vectors.
pub fn points_eq(a: &Vec<Point>, b: &Vec<Point>) -> (r: bool)
    ensures
        r <==> views(a@) == views(b@),
{
    proof {
        assert(views(a@).len() == a@.len());
        assert(views(b@).len() == b@.len());
    }
    if a.len() != b.len() {
        return false;
    }
    let n = a.len();
    let mut i: usize = 0;
    while i < n
        invariant
            i <= n,
            n == a@.len() == b@.len(),
            forall|j: int| 0 <= j < i ==> a@[j]@ == b@[j]@,
        decreases n - i,
    {
        if !a[i].equals(&b[i]) {
            proof {
                assert(views(a@)[i as int] != views(b@)[i as int]);
            }
            return false;
        }
        i += 1;
    }
    proof {
        assert(views(a@) =~= views(b@));
    }
    true
}

/// A group element, held as its canonical compressed encoding.
pub struct Point {
    bytes: Vec<u8>,
}

impl View for Point {
    type V = Seq<u8>;

    closed spec fn view(&self) -> Seq<u8> {
        self.bytes@
    }
}

impl Point {
    #[verifier::type_invariant]
    pub open spec fn wf(self) -> bool {
        self@.len() == 33 && is_point_repr(self@)
    }

    /// The canonical encoding, as fresh bytes.
    pub fn to_bytes(&self) -> (r: Vec<u8>)
        ensures
            r@ == self@,
            r@.len() == 33,
            is_point_repr(self@),
    {
        proof {
            use_type_invariant(self);
        }
        copy_bytes(&self.bytes)
    }

    /// A fresh point with the same value.
    pub fn duplicate(&self) -> (r: Point)
        ensures
            r@ == self@,
    {
        proof {
            use_type_invariant(self);
        }
        Point { bytes: copy_bytes(&self.bytes) }
    }

    /// Value equality: canonical encodings coincide exactly for equal points.
    pub fn equals(&self, other: &Point) -> (r: bool)
        ensures
            r <==> self@ == other@,
    {
        bytes_eq(&self.bytes, &other.bytes)
    }

    /// The group generator. Relies on `k256::ProjectivePoint::GENERATOR`,
    /// whose compressed encoding is the SEC1 base-point constant.
    #[verifier::external_body]
    pub fn generator() -> (r: Point)
        ensures
            r@ == generator_repr(),
    {
        Point { bytes: k256::ProjectivePoint::GENERATOR.to_bytes().to_vec() }
    }

    /// A uniformly random group element. Relies on
    /// `k256::ProjectivePoint::random` with a thread-local cryptographic
    /// generator.
    #[verifier::external_body]
    pub fn random() -> (r: Point)
    {
        let p = k256::ProjectivePoint::random(&mut rand::rngs::ThreadRng::default());
        Point { bytes: p.to_bytes().to_vec() }
    }

    /// Group addition. Relies on `k256::ProjectivePoint`'s `Add` and on the
    /// canonical compressed encoding round-tripping through `from_bytes`.
    #[verifier::external_body]
    pub fn add(&self, other: &Point) -> (r: Point)
        ensures
            r@ == p_add(self@, other@),
    {
        let a = Option::<k256::ProjectivePoint>::from(k256::ProjectivePoint::from_bytes(
            k256::CompressedPoint::from_slice(&self.bytes),
        ))
        .unwrap();
        let b = Option::<k256::ProjectivePoint>::from(k256::ProjectivePoint::from_bytes(
            k256::CompressedPoint::from_slice(&other.bytes),
        ))
        .unwrap();
        Point { bytes: (a + b).to_bytes().to_vec() }
    }

    /// Scalar multiplication. Relies on `k256::ProjectivePoint`'s `Mul` by a
    /// scalar.
    #[verifier::external_body]
    pub fn mul(&self, k: &Scalar) -> (r: Point)
        ensures
            r@ == p_mul(self@, k@),
    {
        let p = Option::<k256::ProjectivePoint>::from(k256::ProjectivePoint::from_bytes(
            k256::CompressedPoint::from_slice(&self.bytes),
        ))
        .unwrap();
        let kb = k.to_bytes();
        let s = Option::<k256::Scalar>::from(k256::Scalar::from_repr(
            k256::FieldBytes::from_slice(&kb).clone(),
        ))
        .unwrap();
        Point { bytes: (p * s).to_bytes().to_vec() }
    }

    /// Canonical decoding of exactly 33 bytes. Relies on
    /// `k256::ProjectivePoint::from_bytes` to decode, and accepts only
    /// inputs that re-encode to themselves, so that exactly the canonical
    /// compressed encodings parse.
    #[verifier::external_body]
    fn from_bytes_checked(b: &Vec<u8>) -> (r: Option<Point>)
        requires
            b@.len() == 33,
        ensures
            r is Some <==> is_point_repr(b@),
            r matches Some(p) ==> p@ == b@,
    {
        Option::<k256::ProjectivePoint>::from(k256::ProjectivePoint::from_bytes(
            k256::CompressedPoint::from_slice(b),
        ))
        .filter(|p| p.to_bytes().as_slice() == b.as_slice())
        .map(|_p| Point { bytes: b.clone() })
    }

    /// Canonical decoding: accepts exactly the canonical 33-byte encodings.
    pub fn from_bytes(b: &Vec<u8>) -> (r: Option<Point>)
        ensures
            r is Some <==> b@.len() == 33 && is_point_repr(b@),
            r matches Some(p) ==> p@ == b@,
    {
        if b.len() != 33 {
            return None;
        }
        Self::from_bytes_checked(b)
    }
}

} // verus!
