//! The transcript digest: SHA-256, reduced to a scalar modulo the group
//! order. Every Fiat–Shamir challenge in the crate is derived this way.

use vstd::prelude::*;
use crate::bytes::be_nat;
use crate::scalars::{group_order, Scalar};
use sha2::Digest;

verus! {

/// The SHA-256 digest of a byte string: a function of the input alone.
pub uninterp spec fn sha256_of(data: Seq<u8>) -> Seq<u8>;

/// The scalar a transcript hashes to: its digest reduced modulo the order.
pub open spec fn hash_scalar(data: Seq<u8>) -> nat {
    be_nat(sha256_of(data)) % group_order()
}

/// Relies on `sha2::Sha256`: a 32-byte digest of the input alone.
#[verifier::external_body]
fn sha256(data: &Vec<u8>) -> (r: Vec<u8>)
    ensures
        r@ == sha256_of(data@),
        r@.len() == 32,
{
    sha2::Sha256::digest(data).to_vec()
}

/// The scalar derived from a transcript.
pub fn hash_to_scalar(data: &Vec<u8>) -> (r: Scalar)
    ensures
        r@ == hash_scalar(data@),
{
    let d = sha256(data);
    Scalar::reduce32(&d)
}

} // verus!
