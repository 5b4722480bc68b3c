//! Incognito signature conversion: a non-interactive protocol that turns an
//! ordinary Schnorr signature into a publicly verifiable one-of-many proof
//! that hides the signer within a ring of public keys.
//!
//! The crate works over secp256k1 with SHA-256 as the transcript digest.
//! Scalars are modelled by their value modulo the group order, points by
//! their canonical SEC1 compressed encoding; the curve arithmetic itself is
//! supplied by the `k256` crate behind a small set of trusted wrappers.

use vstd::prelude::*;

pub mod bulletproof;
pub mod bytes;
pub mod codec;
pub mod hash;
pub mod incognito;
pub mod points;
pub mod scalars;
pub mod schnorr;

verus! {

/// The error taxonomy of the whole crate.
///
/// `BadArguments` reports a violated caller contract (index out of range,
/// ring larger than the parameter set, mismatched or non-power-of-two vector
/// lengths). `InvalidSignature` reports a verification equation that does
/// not hold. `Internal` reports a scalar inversion of zero, reachable only
/// when a hash challenge happens to reduce to zero.
#[derive(Clone, Copy, PartialEq, Eq, Structural, Debug)]
pub enum Error {
    BadArguments,
    InvalidSignature,
    Internal,
}

} // verus!
