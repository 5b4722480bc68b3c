//! Scalars of the secp256k1 scalar field.
//!
//! A scalar is modelled by its value modulo the group order; the carried
//! bytes are always the canonical 32-byte big-endian encoding of that value.
//! Field arithmetic is performed by `k256` behind trusted wrappers whose
//! contracts state plain modular arithmetic over the values.

use vstd::prelude::*;
use vstd::arithmetic::div_mod::{
    lemma_add_mod_noop, lemma_mod_bound, lemma_mul_mod_noop, lemma_mul_mod_noop_left,
    lemma_mul_mod_noop_right, lemma_small_mod, lemma_sub_mod_noop,
};
use vstd::arithmetic::mul::lemma_mul_is_associative;
use crate::bytes::{be_nat, be_repr, bytes_eq, copy_bytes, lemma_be_nat_injective, lemma_be_repr_of_nat};
use elliptic_curve::Field;
use elliptic_curve::PrimeField;
use elliptic_curve::ops::Reduce;

verus! {

/// The order of the secp256k1 group: the modulus of the scalar field.
pub open spec fn group_order() -> nat {
    0xFFFFFFFFFFFFFFFFFFFFFFFFFFFFFFFEBAAEDCE6AF48A03BBFD25E8CD0364141nat
}

/// Addition in the scalar field.
pub open spec fn fadd(a: nat, b: nat) -> nat {
    (a + b) % group_order()
}

/// Subtraction in the scalar field.
pub open spec fn fsub(a: nat, b: nat) -> nat {
    ((a - b) % (group_order() as int)) as nat
}

/// Multiplication in the scalar field.
pub open spec fn fmul(a: nat, b: nat) -> nat {
    (a * b) % group_order()
}

/// The multiplicative inverse in the scalar field, for nonzero arguments.
pub open spec fn finv(a: nat) -> nat {
    choose|b: nat| b < group_order() && fmul(a, b) == 1
}

/// The values of a sequence of scalars.
pub open spec fn vals(s: Seq<Scalar>) -> Seq<nat> {
    s.map_values(|x: Scalar| x@)
}

/// A fresh copy of a vector of scalars.
pub fn dup_scalars(v: &[Scalar]) -> (r: Vec<Scalar>)
    ensures
        r@.len() == v@.len(),
        vals(r@) == vals(v@),
{
    let n = v.len();
    let mut r: Vec<Scalar> = Vec::new();
    let mut i: usize = 0;
    while i < n
        invariant
            n == v@.len(),
            i <= n,
            r@.len() == i,
            forall|j: int| 0 <= j < i ==> r@[j]@ == v@[j]@,
        decreases n - i,
    {
        r.push(v[i].duplicate());
        i += 1;
    }
    proof {
        assert(vals(r@) =~= vals(v@));
    }
    r
}

/// A scalar field element, held as its canonical encoding.
pub struct Scalar {
    bytes: Vec<u8>,
}

impl View for Scalar {
    type V = nat;

    closed spec fn view(&self) -> nat {
        be_nat(self.bytes@)
    }
}

impl Scalar {
    /// The canonical 32-byte big-endian encoding of the value.
    pub closed spec fn repr(self) -> Seq<u8> {
        self.bytes@
    }

    #[verifier::type_invariant]
    pub open spec fn wf(self) -> bool {
        &&& self.repr().len() == 32
        &&& self@ == be_nat(self.repr())
        &&& self@ < group_order()
    }

    /// The canonical encoding, as fresh bytes.
    pub fn to_bytes(&self) -> (r: Vec<u8>)
        ensures
            r@ == self.repr(),
            r@ == be_repr(self@, 32),
            r@.len() == 32,
            be_nat(r@) == self@,
            self@ < group_order(),
    {
        proof {
            use_type_invariant(self);
            lemma_be_repr_of_nat(self.bytes@);
        }
        copy_bytes(&self.bytes)
    }

    /// A fresh scalar with the same value.
    pub fn duplicate(&self) -> (r: Scalar)
        ensures
            r@ == self@,
            r.repr() == self.repr(),
    {
        proof {
            use_type_invariant(self);
        }
        Scalar { bytes: copy_bytes(&self.bytes) }
    }

    /// Value equality.
    pub fn equals(&self, other: &Scalar) -> (r: bool)
        ensures
            r <==> self@ == other@,
    {
        proof {
            use_type_invariant(self);
            use_type_invariant(other);
            if self@ == other@ {
                lemma_be_nat_injective(self.bytes@, other.bytes@);
            }
        }
        bytes_eq(&self.bytes, &other.bytes)
    }

    /// Field addition. Relies on `k256::Scalar`'s `Add`, which is addition
    /// modulo the group order, and on `to_repr` being the canonical
    /// big-endian encoding.
    #[verifier::external_body]
    pub fn add(&self, other: &Scalar) -> (r: Scalar)
        ensures
            r@ == fadd(self@, other@),
    {
        let a = Option::<k256::Scalar>::from(k256::Scalar::from_repr(
            k256::FieldBytes::from_slice(&self.bytes).clone(),
        ))
        .unwrap();
        let b = Option::<k256::Scalar>::from(k256::Scalar::from_repr(
            k256::FieldBytes::from_slice(&other.bytes).clone(),
        ))
        .unwrap();
        Scalar { bytes: (a + b).to_repr().to_vec() }
    }

    /// Field subtraction. Relies on `k256::Scalar`'s `Sub`, which is
    /// subtraction modulo the group order.
    #[verifier::external_body]
    pub fn sub(&self, other: &Scalar) -> (r: Scalar)
        ensures
            r@ == fsub(self@, other@),
    {
        let a = Option::<k256::Scalar>::from(k256::Scalar::from_repr(
            k256::FieldBytes::from_slice(&self.bytes).clone(),
        ))
        .unwrap();
        let b = Option::<k256::Scalar>::from(k256::Scalar::from_repr(
            k256::FieldBytes::from_slice(&other.bytes).clone(),
        ))
        .unwrap();
        Scalar { bytes: (a - b).to_repr().to_vec() }
    }

    /// Field multiplication. Relies on `k256::Scalar`'s `Mul`, which is
    /// multiplication modulo the group order.
    #[verifier::external_body]
    pub fn mul(&self, other: &Scalar) -> (r: Scalar)
        ensures
            r@ == fmul(self@, other@),
    {
        let a = Option::<k256::Scalar>::from(k256::Scalar::from_repr(
            k256::FieldBytes::from_slice(&self.bytes).clone(),
        ))
        .unwrap();
        let b = Option::<k256::Scalar>::from(k256::Scalar::from_repr(
            k256::FieldBytes::from_slice(&other.bytes).clone(),
        ))
        .unwrap();
        Scalar { bytes: (a * b).to_repr().to_vec() }
    }

    /// Multiplicative inverse. Relies on `k256::Scalar::invert`, which
    /// returns the field inverse and is none exactly for zero.
    #[verifier::external_body]
    fn invert_raw(&self) -> (r: Option<Scalar>)
        ensures
            r is Some <==> self@ != 0,
            r matches Some(s) ==> fmul(self@, s@) == 1,
    {
        let a = Option::<k256::Scalar>::from(k256::Scalar::from_repr(
            k256::FieldBytes::from_slice(&self.bytes).clone(),
        ))
        .unwrap();
        Option::<k256::Scalar>::from(a.invert())
            .map(|s| Scalar { bytes: s.to_repr().to_vec() })
    }

    /// Multiplicative inverse, pinned to the unique field inverse.
    pub fn invert(&self) -> (r: Option<Scalar>)
        ensures
            r is Some <==> self@ != 0,
            r matches Some(s) ==> s@ == finv(self@) && s@ < group_order(),
    {
        let r = self.invert_raw();
        match r {
            Some(s) => {
                proof {
                    use_type_invariant(&s);
                    lemma_finv_exact(self@, s@);
                }
                Some(s)
            },
            None => None,
        }
    }

    /// A uniformly random scalar. Relies on `k256::Scalar::random` drawing
    /// from the whole field with a thread-local cryptographic generator.
    #[verifier::external_body]
    pub fn random() -> (r: Scalar)
    {
        let s = k256::Scalar::random(&mut rand::rngs::ThreadRng::default());
        Scalar { bytes: s.to_repr().to_vec() }
    }

    /// Reduction of a 32-byte digest modulo the group order. Relies on
    /// `k256::Scalar::reduce_bytes`: a conditional subtraction of the order,
    /// which equals the remainder because `2^256` is below twice the order.
    #[verifier::external_body]
    pub(crate) fn reduce32(b: &Vec<u8>) -> (r: Scalar)
        requires
            b@.len() == 32,
        ensures
            r@ == be_nat(b@) % group_order(),
    {
        let s = <k256::Scalar as Reduce<k256::U256>>::reduce_bytes(
            &k256::FieldBytes::from_slice(b).clone(),
        );
        Scalar { bytes: s.to_repr().to_vec() }
    }

    /// Canonical decoding of exactly 32 bytes. Relies on
    /// `k256::Scalar::from_repr`, which accepts a big-endian integer
    /// exactly when it lies below the group order.
    #[verifier::external_body]
    fn from_bytes_checked(b: &Vec<u8>) -> (r: Option<Scalar>)
        requires
            b@.len() == 32,
        ensures
            r is Some <==> be_nat(b@) < group_order(),
            r matches Some(s) ==> s.repr() == b@,
    {
        Option::<k256::Scalar>::from(k256::Scalar::from_repr(
            k256::FieldBytes::from_slice(b).clone(),
        ))
        .map(|s| Scalar { bytes: s.to_repr().to_vec() })
    }

    /// Canonical decoding: accepts exactly the 32-byte encodings of values
    /// below the group order.
    pub fn from_bytes(b: &Vec<u8>) -> (r: Option<Scalar>)
        ensures
            r is Some <==> b@.len() == 32 && be_nat(b@) < group_order(),
            r matches Some(s) ==> s.repr() == b@ && s@ == be_nat(b@),
    {
        if b.len() != 32 {
            return None;
        }
        Self::from_bytes_checked(b)
    }

    /// The zero scalar.
    pub fn zero() -> (r: Scalar)
        ensures
            r@ == 0,
    {
        let mut bytes: Vec<u8> = Vec::new();
        let mut i: usize = 0;
        while i < 32
            invariant
                i <= 32,
                bytes@.len() == i,
                be_nat(bytes@) == 0,
            decreases 32 - i,
        {
            let ghost old_bytes = bytes@;
            bytes.push(0u8);
            proof {
                assert(bytes@.drop_last() =~= old_bytes);
            }
            i += 1;
        }
        Scalar { bytes }
    }

    /// The one scalar.
    pub fn one() -> (r: Scalar)
        ensures
            r@ == 1,
    {
        let mut bytes: Vec<u8> = Vec::new();
        let mut i: usize = 0;
        while i < 31
            invariant
                i <= 31,
                bytes@.len() == i,
                be_nat(bytes@) == 0,
            decreases 31 - i,
        {
            let ghost old_bytes = bytes@;
            bytes.push(0u8);
            proof {
                assert(bytes@.drop_last() =~= old_bytes);
            }
            i += 1;
        }
        let ghost old_bytes = bytes@;
        bytes.push(1u8);
        proof {
            assert(bytes@.drop_last() =~= old_bytes);
        }
        Scalar { bytes }
    }
}

/// Congruence modulo the group order: the relation the field operations
/// compute in. Two integers are congruent when their remainders agree.
pub open spec fn congruent(x: int, y: int) -> bool {
    x % (group_order() as int) == y % (group_order() as int)
}

/// A field sum is congruent to the plain integer sum, and reduced.
pub proof fn lemma_fadd_congruent(a: nat, b: nat)
    ensures
        congruent(fadd(a, b) as int, (a + b) as int),
        fadd(a, b) < group_order(),
{
    let m = group_order() as int;
    lemma_mod_bound((a + b) as int, m);
    lemma_small_mod(fadd(a, b), group_order());
}

/// A field difference is congruent to the plain integer difference.
pub proof fn lemma_fsub_congruent(a: nat, b: nat)
    ensures
        congruent(fsub(a, b) as int, a - b),
        fsub(a, b) < group_order(),
{
    let m = group_order() as int;
    lemma_mod_bound(a - b, m);
    lemma_small_mod(fsub(a, b), group_order());
}

/// A field product is congruent to the plain integer product, and reduced.
pub proof fn lemma_fmul_congruent(a: nat, b: nat)
    ensures
        congruent(fmul(a, b) as int, (a * b) as int),
        fmul(a, b) < group_order(),
{
    let m = group_order() as int;
    lemma_mod_bound((a * b) as int, m);
    lemma_small_mod(fmul(a, b), group_order());
}

/// Congruence is preserved by addition.
pub proof fn lemma_congruent_add(x1: int, y1: int, x2: int, y2: int)
    requires
        congruent(x1, y1),
        congruent(x2, y2),
    ensures
        congruent(x1 + x2, y1 + y2),
{
    let m = group_order() as int;
    lemma_add_mod_noop(x1, x2, m);
    lemma_add_mod_noop(y1, y2, m);
}

/// Congruence is preserved by subtraction.
pub proof fn lemma_congruent_sub(x1: int, y1: int, x2: int, y2: int)
    requires
        congruent(x1, y1),
        congruent(x2, y2),
    ensures
        congruent(x1 - x2, y1 - y2),
{
    let m = group_order() as int;
    lemma_sub_mod_noop(x1, x2, m);
    lemma_sub_mod_noop(y1, y2, m);
}

/// Congruence is preserved by multiplication.
pub proof fn lemma_congruent_mul(x1: int, y1: int, x2: int, y2: int)
    requires
        congruent(x1, y1),
        congruent(x2, y2),
    ensures
        congruent(x1 * x2, y1 * y2),
{
    let m = group_order() as int;
    lemma_mul_mod_noop(x1, x2, m);
    lemma_mul_mod_noop(y1, y2, m);
}

/// Congruent reduced values are equal.
pub proof fn lemma_congruent_eq(a: nat, b: nat)
    requires
        a < group_order(),
        b < group_order(),
        congruent(a as int, b as int),
    ensures
        a == b,
{
    lemma_small_mod(a, group_order());
    lemma_small_mod(b, group_order());
}

/// Multiplying by one is the identity on reduced values.
pub proof fn lemma_fmul_one(a: nat)
    requires
        a < group_order(),
    ensures
        fmul(a, 1) == a,
{
    lemma_small_mod(a, group_order());
}

/// The field inverse is unique: two inverses of the same element coincide.
proof fn lemma_inv_unique(a: nat, r1: nat, r2: nat)
    requires
        r1 < group_order(),
        r2 < group_order(),
        fmul(a, r1) == 1,
        fmul(a, r2) == 1,
    ensures
        r1 == r2,
{
    let m = group_order() as int;
    assert(((r1 * (a * r2)) as int) % m == r1 as int) by {
        lemma_mul_mod_noop_right(r1 as int, (a * r2) as int, m);
        lemma_small_mod(r1, group_order());
    }
    assert(((r1 * (a * r2)) as int) % m == r2 as int) by {
        lemma_mul_is_associative(r1 as int, a as int, r2 as int);
        lemma_mul_mod_noop_left((r1 * a) as int, r2 as int, m);
        lemma_small_mod(r2, group_order());
    }
}

/// Any value that multiplies `a` to one is the chosen inverse `finv(a)`.
pub proof fn lemma_finv_exact(a: nat, s: nat)
    requires
        s < group_order(),
        fmul(a, s) == 1,
    ensures
        finv(a) == s,
{
    assert(exists|b: nat| b < group_order() && fmul(a, b) == 1);
    lemma_inv_unique(a, finv(a), s);
}

} // verus!
