//! Classic Schnorr signatures over secp256k1, with the Fiat–Shamir
//! transcript `H(R ‖ m)`. The challenge derivation is shared verbatim with
//! the incognito conversion, which re-randomizes the `z` of a signature
//! produced here.

use vstd::prelude::*;
use crate::bytes::append_bytes;
use crate::hash::{hash_scalar, hash_to_scalar};
use crate::points::{generator_repr, p_add, p_mul, Point};
use crate::scalars::{fadd, fmul, group_order, Scalar};
use crate::Error;

verus! {

/// The challenge scalar of the Schnorr transcript `R ‖ m`.
pub open spec fn schnorr_challenge(point_r: Seq<u8>, m: Seq<u8>) -> nat {
    hash_scalar(point_r + m)
}

/// Whether `(R, z)` passes Schnorr verification under `pk` for `m`:
/// `pk·H(R‖m) + R == G·z`.
pub open spec fn schnorr_verifies(pk: Seq<u8>, m: Seq<u8>, point_r: Seq<u8>, z: nat) -> bool {
    p_add(p_mul(pk, schnorr_challenge(point_r, m)), point_r) == p_mul(generator_repr(), z)
}

/// A Schnorr signature: the commitment `R` and the response `z`.
pub struct SchnorrSignature {
    pub point_r: Point,
    pub z: Scalar,
}

impl SchnorrSignature {
    /// Derives the challenge scalar `H(R ‖ m)`.
    pub(crate) fn challenge(point_r: &Point, message: &[u8]) -> (r: Scalar)
        ensures
            r@ == schnorr_challenge(point_r@, message@),
    {
        let mut t = point_r.to_bytes();
        append_bytes(&mut t, message);
        hash_to_scalar(&t)
    }

    /// Signs `message` with the secret key `sk`: draws a fresh nonce `r` and
    /// returns `(R, z) = (G·r, r + sk·H(R‖m))`.
    pub fn sign(sk: &Scalar, message: &[u8]) -> (sig: SchnorrSignature)
        ensures
            exists|rn: nat|
                rn < group_order() && sig.point_r@ == p_mul(generator_repr(), rn)
                    && sig.z@ == fadd(
                    rn,
                    fmul(sk@, schnorr_challenge(sig.point_r@, message@)),
                ),
    {
        let r = Scalar::random();
        let point_r = Point::generator().mul(&r);
        let c = Self::challenge(&point_r, message);
        let z = r.add(&sk.mul(&c));
        let sig = SchnorrSignature { point_r, z };
        proof {
            use_type_invariant(&r);
            assert(r@ < group_order() && sig.point_r@ == p_mul(generator_repr(), r@)
                && sig.z@ == fadd(r@, fmul(sk@, schnorr_challenge(sig.point_r@, message@))));
        }
        sig
    }

    /// Verifies the signature under `pk` for `message`: accepts exactly when
    /// `pk·H(R‖m) + R == G·z`.
    pub fn verify(&self, pk: &Point, message: &[u8]) -> (r: Result<(), Error>)
        ensures
            r is Ok <==> schnorr_verifies(pk@, message@, self.point_r@, self.z@),
            r matches Err(e) ==> e == Error::InvalidSignature,
    {
        let c = Self::challenge(&self.point_r, message);
        let lhs = pk.mul(&c).add(&self.point_r);
        let rhs = Point::generator().mul(&self.z);
        if lhs.equals(&rhs) {
            Ok(())
        } else {
            Err(Error::InvalidSignature)
        }
    }

    /// Serializes the signature: `R`, then `z`, in the canonical codec.
    /// The output always parses back: see `codec::lemma_schnorr_roundtrip`.
    pub fn serialize(&self) -> (r: Vec<u8>)
        ensures
            r@ == crate::codec::ser_schnorr(self.point_r@, self.z@),
            crate::codec::point_wf(self.point_r@),
            self.z@ < group_order(),
    {
        let mut out = self.point_r.to_bytes();
        let mut zb = self.z.to_bytes();
        out.append(&mut zb);
        out
    }

    /// Parses a serialized signature; accepts exactly the canonical form.
    pub fn deserialize(b: &[u8]) -> (r: Option<SchnorrSignature>)
        ensures
            r is Some <==> crate::codec::deser_schnorr(b@) is Some,
            r matches Some(sig) ==> crate::codec::deser_schnorr(b@) == Some(
                (sig.point_r@, sig.z@),
            ),
    {
        let point_r = match crate::codec::read_point(b, 0) {
            Some(p) => p,
            None => {
                return None;
            },
        };
        let z = match crate::codec::read_scalar(b, 33) {
            Some(s) => s,
            None => {
                return None;
            },
        };
        if b.len() != 65 {
            return None;
        }
        Some(SchnorrSignature { point_r, z })
    }

    /// A fresh signature with the same components.
    pub fn duplicate(&self) -> (r: SchnorrSignature)
        ensures
            r.point_r@ == self.point_r@,
            r.z@ == self.z@,
    {
        SchnorrSignature { point_r: self.point_r.duplicate(), z: self.z.duplicate() }
    }

    /// Component equality.
    pub fn equals(&self, other: &SchnorrSignature) -> (r: bool)
        ensures
            r <==> self.point_r@ == other.point_r@ && self.z@ == other.z@,
    {
        self.point_r.equals(&other.point_r) && self.z.equals(&other.z)
    }
}

} // verus!
