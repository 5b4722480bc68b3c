//! Big-endian byte encodings of natural numbers, and the lemmas that make
//! the encoding a bijection between `n`-byte strings and values below
//! `256^n`. Scalars are carried on the wire in this form.

use vstd::prelude::*;
use vstd::arithmetic::div_mod::{
    lemma_div_multiples_vanish_fancy, lemma_fundamental_div_mod,
    lemma_fundamental_div_mod_converse,
};
use vstd::arithmetic::power::{lemma_pow_positive, pow};

verus! {

/// The value of a byte string read as a big-endian natural number.
pub open spec fn be_nat(s: Seq<u8>) -> nat
    decreases s.len(),
{
    if s.len() == 0 {
        0
    } else {
        be_nat(s.drop_last()) * 256 + (s.last() as nat)
    }
}

/// The `n`-byte big-endian encoding of `v` (the low `8 * n` bits of `v`).
pub open spec fn be_repr(v: nat, n: nat) -> Seq<u8>
    decreases n,
{
    if n == 0 {
        Seq::empty()
    } else {
        be_repr(v / 256, (n - 1) as nat).push((v % 256) as u8)
    }
}

pub proof fn lemma_be_repr_len(v: nat, n: nat)
    ensures
        be_repr(v, n).len() == n,
    decreases n,
{
    if n > 0 {
        lemma_be_repr_len(v / 256, (n - 1) as nat);
    }
}

/// Decoding inverts encoding for values that fit in `n` bytes.
pub proof fn lemma_be_nat_of_repr(v: nat, n: nat)
    requires
        v < pow(256, n),
    ensures
        be_nat(be_repr(v, n)) == v,
    decreases n,
{
    if n == 0 {
        vstd::arithmetic::power::lemma_pow0(256);
    } else {
        let s = be_repr(v, n);
        lemma_be_repr_len(v / 256, (n - 1) as nat);
        assert(s.drop_last() =~= be_repr(v / 256, (n - 1) as nat));
        assert(pow(256, n) == 256 * pow(256, (n - 1) as nat)) by {
            reveal(pow);
        }
        lemma_pow_positive(256, (n - 1) as nat);
        assert(v / 256 < pow(256, (n - 1) as nat)) by {
            lemma_div_multiples_vanish_fancy(
                pow(256, (n - 1) as nat) as int,
                0,
                256,
            );
            assert(256 * pow(256, (n - 1) as nat) / 256 == pow(256, (n - 1) as nat));
            vstd::arithmetic::div_mod::lemma_div_is_ordered(
                v as int,
                256 * pow(256, (n - 1) as nat),
                256,
            );
            if v / 256 == pow(256, (n - 1) as nat) {
                lemma_fundamental_div_mod(v as int, 256);
            }
        }
        lemma_be_nat_of_repr(v / 256, (n - 1) as nat);
        lemma_be_repr_len(v, n);
        assert(s.last() == (v % 256) as u8);
        assert(be_nat(s) == be_nat(s.drop_last()) * 256 + (s.last() as nat));
        lemma_fundamental_div_mod(v as int, 256);
        assert(be_nat(s) == (v / 256) * 256 + v % 256);
    }
}

/// Encoding inverts decoding: a byte string is the encoding of its value.
pub proof fn lemma_be_repr_of_nat(s: Seq<u8>)
    ensures
        be_repr(be_nat(s), s.len()) == s,
    decreases s.len(),
{
    if s.len() > 0 {
        let v = be_nat(s);
        let hi = be_nat(s.drop_last());
        assert(v == hi * 256 + (s.last() as nat));
        assert(v % 256 == s.last() as nat && v / 256 == hi) by {
            lemma_fundamental_div_mod_converse(v as int, 256, hi as int, s.last() as int);
        }
        lemma_be_repr_of_nat(s.drop_last());
        assert(be_repr(v, s.len()) =~= s);
    }
}

/// Equal values with equal lengths have equal encodings.
pub proof fn lemma_be_nat_injective(s1: Seq<u8>, s2: Seq<u8>)
    requires
        s1.len() == s2.len(),
        be_nat(s1) == be_nat(s2),
    ensures
        s1 == s2,
{
    lemma_be_repr_of_nat(s1);
    lemma_be_repr_of_nat(s2);
}

/// Byte-for-byte equality of two vectors.
pub fn bytes_eq(a: &Vec<u8>, b: &Vec<u8>) -> (r: bool)
    ensures
        r <==> a@ == b@,
{
    if a.len() != b.len() {
        proof {
            assert(a@.len() != b@.len());
        }
        return false;
    }
    let n = a.len();
    let mut i: usize = 0;
    while i < n
        invariant
            n == a@.len() == b@.len(),
            i <= n,
            forall|j: int| 0 <= j < i ==> a@[j] == b@[j],
        decreases n - i,
    {
        if a[i] != b[i] {
            return false;
        }
        i += 1;
    }
    proof {
        assert(a@ =~= b@);
    }
    true
}

/// Appends a byte slice to a vector.
pub fn append_bytes(dst: &mut Vec<u8>, src: &[u8])
    ensures
        final(dst)@ == old(dst)@ + src@,
{
    let n = src.len();
    let mut i: usize = 0;
    while i < n
        invariant
            n == src@.len(),
            i <= n,
            dst@ == old(dst)@ + src@.subrange(0, i as int),
        decreases n - i,
    {
        let b = src[i];
        dst.push(b);
        proof {
            assert(dst@ =~= old(dst)@ + src@.subrange(0, i + 1));
        }
        i += 1;
    }
    proof {
        assert(old(dst)@ + src@.subrange(0, n as int) =~= old(dst)@ + src@);
    }
}

/// A fresh copy of a byte vector.
pub fn copy_bytes(v: &Vec<u8>) -> (r: Vec<u8>)
    ensures
        r@ == v@,
{
    let mut r: Vec<u8> = Vec::new();
    let n = v.len();
    let mut i: usize = 0;
    while i < n
        invariant
            n == v@.len(),
            i <= n,
            r@ == v@.subrange(0, i as int),
        decreases n - i,
    {
        r.push(v[i]);
        proof {
            assert(r@ =~= v@.subrange(0, i + 1));
        }
        i += 1;
    }
    proof {
        assert(r@ =~= v@);
    }
    r
}

} // verus!
