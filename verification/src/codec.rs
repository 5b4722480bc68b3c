//! The canonical binary codec.
//!
//! Points travel as their 33-byte compressed encodings, scalars as 32-byte
//! big-endian values, vectors with an 8-byte big-endian length prefix, and
//! compound structures field by field in declaration order. Each parser
//! accepts exactly the serializer's output; the round-trip laws at the end
//! of this module state that decoding inverts encoding.

use vstd::prelude::*;
use vstd::arithmetic::power::pow;
use crate::bytes::{be_nat, be_repr, lemma_be_nat_of_repr, lemma_be_repr_len};
use crate::bulletproof::BpModel;
use crate::incognito::{IncSigModel, ParamsModel};
use crate::points::{is_point_repr, Point};
use crate::scalars::{group_order, Scalar};

verus! {

/// Whether a byte string is a well-formed point encoding.
pub open spec fn point_wf(p: Seq<u8>) -> bool {
    p.len() == 33 && is_point_repr(p)
}

/// The concatenation of a sequence of point encodings.
pub open spec fn concat_points(ps: Seq<Seq<u8>>) -> Seq<u8>
    decreases ps.len(),
{
    if ps.len() == 0 {
        Seq::empty()
    } else {
        ps.first() + concat_points(ps.drop_first())
    }
}

/// Appending one more encoding extends the concatenation at the end.
pub proof fn lemma_concat_push(ps: Seq<Seq<u8>>, p: Seq<u8>)
    ensures
        concat_points(ps.push(p)) == concat_points(ps) + p,
    decreases ps.len(),
{
    if ps.len() == 0 {
        assert(ps.push(p).first() == p);
        assert(ps.push(p).drop_first() =~= Seq::<Seq<u8>>::empty());
        assert(concat_points(Seq::<Seq<u8>>::empty()) == Seq::<u8>::empty());
        assert(ps =~= Seq::<Seq<u8>>::empty());
        assert(p + Seq::<u8>::empty() =~= p);
        assert(Seq::<u8>::empty() + p =~= p);
        assert(concat_points(ps.push(p)) =~= concat_points(ps) + p);
    } else {
        assert(ps.push(p).first() == ps.first());
        assert(ps.push(p).drop_first() =~= ps.drop_first().push(p));
        lemma_concat_push(ps.drop_first(), p);
        assert(ps.first() + (concat_points(ps.drop_first()) + p) =~= (ps.first() + concat_points(
            ps.drop_first(),
        )) + p);
    }
}

/// The length of a concatenation of `k` well-formed point encodings.
pub proof fn lemma_concat_len(ps: Seq<Seq<u8>>)
    requires
        forall|i: int| 0 <= i < ps.len() ==> point_wf(#[trigger] ps[i]),
    ensures
        concat_points(ps).len() == 33 * ps.len(),
    decreases ps.len(),
{
    if ps.len() > 0 {
        assert(point_wf(ps[0]));
        lemma_concat_len(ps.drop_first());
    }
}

/// A vector of point encodings on the wire: length prefix, then elements.
pub open spec fn ser_point_vec(ps: Seq<Seq<u8>>) -> Seq<u8> {
    be_repr(ps.len(), 8) + concat_points(ps)
}

/// The point encoding found at `pos`, if canonical.
pub open spec fn point_at(b: Seq<u8>, pos: int) -> Option<Seq<u8>> {
    if 0 <= pos && pos + 33 <= b.len() && is_point_repr(b.subrange(pos, pos + 33)) {
        Some(b.subrange(pos, pos + 33))
    } else {
        None
    }
}

/// The scalar value found at `pos`, if canonical.
pub open spec fn scalar_at(b: Seq<u8>, pos: int) -> Option<nat> {
    if 0 <= pos && pos + 32 <= b.len() && be_nat(b.subrange(pos, pos + 32)) < group_order() {
        Some(be_nat(b.subrange(pos, pos + 32)))
    } else {
        None
    }
}

/// The length prefix found at `pos`, if it fits the machine.
pub open spec fn len_at(b: Seq<u8>, pos: int) -> Option<nat> {
    if 0 <= pos && pos + 8 <= b.len() && be_nat(b.subrange(pos, pos + 8)) <= usize::MAX as nat {
        Some(be_nat(b.subrange(pos, pos + 8)))
    } else {
        None
    }
}

/// The `k` point encodings found from `pos` on, if all canonical.
pub open spec fn points_at(b: Seq<u8>, pos: int, k: nat) -> Option<Seq<Seq<u8>>>
    decreases k,
{
    if k == 0 {
        Some(Seq::empty())
    } else {
        match point_at(b, pos) {
            None => None,
            Some(p) => match points_at(b, pos + 33, (k - 1) as nat) {
                None => None,
                Some(rest) => Some(seq![p] + rest),
            },
        }
    }
}

/// A successful parse of `k` points lies within the buffer.
pub proof fn lemma_points_at_bounds(b: Seq<u8>, pos: int, k: nat)
    requires
        0 <= pos,
        points_at(b, pos, k) is Some,
    ensures
        k > 0 ==> pos + 33 * k <= b.len(),
    decreases k,
{
    if k > 1 {
        lemma_points_at_bounds(b, pos + 33, (k - 1) as nat);
    }
}

/// Appends the 8-byte big-endian length prefix for `n`.
pub fn append_len(dst: &mut Vec<u8>, n: usize)
    ensures
        final(dst)@ == old(dst)@ + be_repr(n as nat, 8),
{
    let v = n as u64;
    let b7 = (v % 256) as u8;
    let v1 = v / 256;
    let b6 = (v1 % 256) as u8;
    let v2 = v1 / 256;
    let b5 = (v2 % 256) as u8;
    let v3 = v2 / 256;
    let b4 = (v3 % 256) as u8;
    let v4 = v3 / 256;
    let b3 = (v4 % 256) as u8;
    let v5 = v4 / 256;
    let b2 = (v5 % 256) as u8;
    let v6 = v5 / 256;
    let b1 = (v6 % 256) as u8;
    let v7 = v6 / 256;
    let b0 = (v7 % 256) as u8;
    let ghost before = dst@;
    dst.push(b0);
    dst.push(b1);
    dst.push(b2);
    dst.push(b3);
    dst.push(b4);
    dst.push(b5);
    dst.push(b6);
    dst.push(b7);
    proof {
        reveal_with_fuel(be_repr, 10);
        assert(v7 / 256 == 0);
        assert(be_repr(n as nat, 8) =~= seq![b0, b1, b2, b3, b4, b5, b6, b7]);
        assert(dst@ =~= before + seq![b0, b1, b2, b3, b4, b5, b6, b7]);
    }
}

/// A fresh copy of `b[pos .. pos + len]`.
pub fn copy_range(b: &[u8], pos: usize, len: usize) -> (r: Vec<u8>)
    requires
        pos + len <= b@.len(),
    ensures
        r@ == b@.subrange(pos as int, pos as int + len as int),
{
    let _bn = b.len();
    let mut r: Vec<u8> = Vec::new();
    let mut i: usize = 0;
    while i < len
        invariant
            i <= len,
            pos + len <= b@.len() <= usize::MAX,
            r@.len() == i,
            forall|j: int| 0 <= j < i ==> r@[j] == b@[pos + j],
        decreases len - i,
    {
        r.push(b[pos + i]);
        i += 1;
    }
    proof {
        assert(r@ =~= b@.subrange(pos as int, pos as int + len as int));
    }
    r
}

/// Reads a point at `pos`: exactly the canonical 33-byte encodings parse.
pub fn read_point(b: &[u8], pos: usize) -> (r: Option<Point>)
    ensures
        r is Some <==> point_at(b@, pos as int) is Some,
        r matches Some(p) ==> point_at(b@, pos as int) == Some(p@),
{
    if b.len() < 33 || pos > b.len() - 33 {
        return None;
    }
    let chunk = copy_range(b, pos, 33);
    Point::from_bytes(&chunk)
}

/// Reads a scalar at `pos`: exactly the canonical 32-byte encodings parse.
pub fn read_scalar(b: &[u8], pos: usize) -> (r: Option<Scalar>)
    ensures
        r is Some <==> scalar_at(b@, pos as int) is Some,
        r matches Some(s) ==> scalar_at(b@, pos as int) == Some(s@),
{
    if b.len() < 32 || pos > b.len() - 32 {
        return None;
    }
    let chunk = copy_range(b, pos, 32);
    Scalar::from_bytes(&chunk)
}

/// Reads an 8-byte length prefix at `pos`, if it fits the machine.
pub fn read_len(b: &[u8], pos: usize) -> (r: Option<usize>)
    ensures
        r is Some <==> len_at(b@, pos as int) is Some,
        r matches Some(k) ==> len_at(b@, pos as int) == Some(k as nat),
{
    if b.len() < 8 || pos > b.len() - 8 {
        return None;
    }
    let ghost chunk = b@.subrange(pos as int, pos as int + 8);
    proof {
        vstd::arithmetic::power::lemma_pow0(256);
    }
    let mut value: u64 = 0;
    let mut i: usize = 0;
    while i < 8
        invariant
            i <= 8,
            pos + 8 <= b@.len() <= usize::MAX,
            chunk == b@.subrange(pos as int, pos as int + 8),
            value == be_nat(chunk.take(i as int)),
            value < pow(256, i as nat),
        decreases 8 - i,
    {
        proof {
            reveal_with_fuel(pow, 10);
            assert(chunk.take(i + 1).drop_last() =~= chunk.take(i as int));
            assert(chunk.take(i + 1).last() == b@[pos + i]);
        }
        value = value * 256 + (b[pos + i] as u64);
        i += 1;
    }
    proof {
        assert(chunk.take(8) =~= chunk);
    }
    if value > usize::MAX as u64 {
        return None;
    }
    Some(value as usize)
}

/// Reads `k` points from `pos` on.
pub fn read_points(b: &[u8], pos: usize, k: usize) -> (r: Option<Vec<Point>>)
    ensures
        r is Some <==> points_at(b@, pos as int, k as nat) is Some,
        r matches Some(ps) ==> {
            &&& ps@.len() == k
            &&& points_at(b@, pos as int, k as nat) == Some(crate::points::views(ps@))
        },
{
    let _bn = b.len();
    let mut ps: Vec<Point> = Vec::new();
    let mut cur = pos;
    let mut i: usize = 0;
    while i < k
        invariant
            i <= k,
            b@.len() <= usize::MAX,
            cur == pos + 33 * i,
            cur <= b@.len() || i == 0,
            ps@.len() == i,
            points_at(b@, pos as int, k as nat) matches Some(all) ==> points_at(
                b@,
                cur as int,
                (k - i) as nat,
            ) matches Some(rest) && all == crate::points::views(ps@) + rest,
            points_at(b@, pos as int, k as nat) is Some <== points_at(
                b@,
                cur as int,
                (k - i) as nat,
            ) is Some,
        decreases k - i,
    {
        match read_point(b, cur) {
            None => {
                proof {
                    assert(points_at(b@, cur as int, (k - i) as nat) is None);
                }
                return None;
            },
            Some(p) => {
                let ghost ps_old = ps@;
                let ghost pv = p@;
                ps.push(p);
                proof {
                    assert(crate::points::views(ps@) =~= crate::points::views(ps_old) + seq![pv]);
                    let here = points_at(b@, cur as int, (k - i) as nat);
                    if here is Some {
                        let rest = here.unwrap();
                        assert(rest == seq![pv] + points_at(
                            b@,
                            cur as int + 33,
                            (k - i - 1) as nat,
                        ).unwrap());
                        assert((crate::points::views(ps_old) + seq![pv]) + points_at(
                            b@,
                            cur as int + 33,
                            (k - i - 1) as nat,
                        ).unwrap() =~= crate::points::views(ps_old) + rest);
                    }
                    assert(cur + 33 <= b@.len());
                }
                cur = cur + 33;
                i += 1;
            },
        }
    }
    proof {
        assert(points_at(b@, cur as int, 0) == Some(Seq::<Seq<u8>>::empty()));
        let whole = points_at(b@, pos as int, k as nat);
        if whole is Some {
            let all = whole.unwrap();
            assert(all =~= crate::points::views(ps@) + Seq::<Seq<u8>>::empty());
            assert(crate::points::views(ps@) + Seq::<Seq<u8>>::empty() =~= crate::points::views(
                ps@,
            ));
        }
    }
    Some(ps)
}

/// Serializes a vector of points: length prefix, then each encoding.
pub fn write_points(dst: &mut Vec<u8>, ps: &Vec<Point>)
    ensures
        final(dst)@ == old(dst)@ + ser_point_vec(crate::points::views(ps@)),
        forall|i: int|
            0 <= i < ps@.len() ==> point_wf(#[trigger] crate::points::views(ps@)[i]),
{
    append_len(dst, ps.len());
    let ghost mid = dst@;
    let n = ps.len();
    let mut i: usize = 0;
    while i < n
        invariant
            i <= n,
            n == ps@.len(),
            dst@ == mid + concat_points(crate::points::views(ps@).take(i as int)),
            forall|j: int|
                0 <= j < i ==> point_wf(#[trigger] crate::points::views(ps@)[j]),
        decreases n - i,
    {
        let mut pb = ps[i].to_bytes();
        let ghost before = dst@;
        dst.append(&mut pb);
        proof {
            let vs = crate::points::views(ps@);
            assert(vs.take(i + 1) =~= vs.take(i as int).push(ps@[i as int]@));
            lemma_concat_push(vs.take(i as int), ps@[i as int]@);
            assert(dst@ =~= mid + concat_points(vs.take(i + 1)));
        }
        i += 1;
    }
    proof {
        let vs = crate::points::views(ps@);
        assert(vs.take(n as int) =~= vs);
        assert(mid + concat_points(vs) =~= old(dst)@ + (be_repr(n as nat, 8) + concat_points(vs)));
    }
}

/// A value below the group order fits 32 bytes and decodes back.
pub proof fn lemma_scalar_repr_roundtrip(v: nat)
    requires
        v < group_order(),
    ensures
        be_repr(v, 32).len() == 32,
        be_nat(be_repr(v, 32)) == v,
{
    lemma_be_repr_len(v, 32);
    assert(group_order() < pow(256, 32)) by {
        vstd::arithmetic::power2::lemma2_to64();
        vstd::arithmetic::power::lemma_pow_positive(2, 8);
        vstd::arithmetic::power::lemma_pow_positive(2, 256);
        assert(vstd::arithmetic::power2::pow2(8) == pow(2, 8) as nat);
        assert(pow(2, 8) == 256);
        vstd::arithmetic::power::lemma_pow_multiplies(2, 8, 32);
        assert(pow(256, 32) == pow(2, 256));
        vstd::arithmetic::power2::lemma_pow2_adds(64, 64);
        vstd::arithmetic::power2::lemma_pow2_adds(128, 128);
        assert(vstd::arithmetic::power2::pow2(256) == pow(2, 256) as nat);
        assert(vstd::arithmetic::power2::pow2(64) == 0x10000000000000000);
        assert(0x10000000000000000nat * 0x10000000000000000nat
            == 0x100000000000000000000000000000000nat);
        assert(vstd::arithmetic::power2::pow2(128) == 0x100000000000000000000000000000000nat);
        assert(0x100000000000000000000000000000000nat * 0x100000000000000000000000000000000nat
            == 0x10000000000000000000000000000000000000000000000000000000000000000nat);
        assert(vstd::arithmetic::power2::pow2(256)
            == 0x10000000000000000000000000000000000000000000000000000000000000000nat);
        assert(group_order() < vstd::arithmetic::power2::pow2(256));
    }
    lemma_be_nat_of_repr(v, 32);
}

/// A machine-sized length fits 8 bytes and decodes back.
pub proof fn lemma_len_repr_roundtrip(k: nat)
    requires
        k <= usize::MAX as nat,
    ensures
        be_repr(k, 8).len() == 8,
        be_nat(be_repr(k, 8)) == k,
{
    lemma_be_repr_len(k, 8);
    assert(k < pow(256, 8)) by {
        vstd::arithmetic::power2::lemma2_to64();
        vstd::arithmetic::power::lemma_pow_positive(2, 8);
        vstd::arithmetic::power::lemma_pow_positive(2, 64);
        assert(vstd::arithmetic::power2::pow2(8) == pow(2, 8) as nat);
        assert(pow(2, 8) == 256);
        vstd::arithmetic::power::lemma_pow_multiplies(2, 8, 8);
        assert(pow(256, 8) == pow(2, 64));
        assert(vstd::arithmetic::power2::pow2(64) == pow(2, 64) as nat);
    }
    lemma_be_nat_of_repr(k, 8);
}

/// A sequence of well-formed point encodings laid down inside a buffer
/// parses back to itself.
pub proof fn lemma_points_embed(b: Seq<u8>, pos: int, ps: Seq<Seq<u8>>)
    requires
        0 <= pos,
        pos + 33 * ps.len() <= b.len(),
        b.subrange(pos, pos + 33 * ps.len()) == concat_points(ps),
        forall|i: int| 0 <= i < ps.len() ==> point_wf(#[trigger] ps[i]),
    ensures
        points_at(b, pos, ps.len()) == Some(ps),
    decreases ps.len(),
{
    if ps.len() == 0 {
        assert(ps =~= Seq::<Seq<u8>>::empty());
    } else {
        assert(point_wf(ps[0]));
        assert(ps.first() == ps[0]);
        lemma_concat_len(ps.drop_first());
        assert(concat_points(ps) == ps.first() + concat_points(ps.drop_first()));
        assert(b.subrange(pos, pos + 33) =~= ps.first()) by {
            assert forall|j: int| 0 <= j < 33 implies b.subrange(pos, pos + 33)[j] == ps.first()[j] by {
                assert(b.subrange(pos, pos + 33)[j] == b[pos + j]);
                assert(b[pos + j] == b.subrange(pos, pos + 33 * ps.len())[j]);
            }
        }
        assert(point_at(b, pos) == Some(ps.first()));
        assert(b.subrange(pos + 33, pos + 33 + 33 * (ps.len() - 1)) =~= concat_points(
            ps.drop_first(),
        )) by {
            assert forall|j: int| 0 <= j < 33 * (ps.len() - 1) implies b.subrange(
                pos + 33,
                pos + 33 + 33 * (ps.len() - 1),
            )[j] == concat_points(ps.drop_first())[j] by {
                assert(b.subrange(pos + 33, pos + 33 + 33 * (ps.len() - 1))[j] == b[pos + 33 + j]);
                assert(b[pos + 33 + j] == b.subrange(pos, pos + 33 * ps.len())[33 + j]);
                assert(concat_points(ps)[33 + j] == concat_points(ps.drop_first())[j]);
            }
        }
        lemma_points_embed(b, pos + 33, ps.drop_first());
        assert(seq![ps.first()] + ps.drop_first() =~= ps);
    }
}

/// A Schnorr signature on the wire: `R`, then `z`.
pub open spec fn ser_schnorr(point_r: Seq<u8>, z: nat) -> Seq<u8> {
    point_r + be_repr(z, 32)
}

/// Parsing a Schnorr signature: a point, a scalar, nothing else.
pub open spec fn deser_schnorr(b: Seq<u8>) -> Option<(Seq<u8>, nat)> {
    match point_at(b, 0) {
        None => None,
        Some(pr) => match scalar_at(b, 33) {
            None => None,
            Some(z) => if b.len() == 65 {
                Some((pr, z))
            } else {
                None
            },
        },
    }
}

/// Decoding inverts encoding for Schnorr signatures.
pub proof fn lemma_schnorr_roundtrip(point_r: Seq<u8>, z: nat)
    requires
        point_wf(point_r),
        z < group_order(),
    ensures
        deser_schnorr(ser_schnorr(point_r, z)) == Some((point_r, z)),
{
    let b = ser_schnorr(point_r, z);
    lemma_scalar_repr_roundtrip(z);
    assert(b.subrange(0, 33) =~= point_r);
    assert(b.subrange(33, 65) =~= be_repr(z, 32));
}

/// An inner-product proof on the wire: target, `L⃗`, `R⃗`, `l`, `r`.
pub open spec fn ser_bp(m: BpModel) -> Seq<u8> {
    m.target + ser_point_vec(m.ls) + ser_point_vec(m.rs) + be_repr(m.l, 32) + be_repr(m.r, 32)
}

/// Parsing an inner-product proof; the buffer must hold nothing else.
pub open spec fn deser_bp(b: Seq<u8>) -> Option<BpModel> {
    match point_at(b, 0) {
        None => None,
        Some(target) => match len_at(b, 33) {
            None => None,
            Some(k1) => match points_at(b, 41, k1) {
                None => None,
                Some(ls) => {
                    let pos2 = 41 + 33 * (k1 as int);
                    match len_at(b, pos2) {
                        None => None,
                        Some(k2) => match points_at(b, pos2 + 8, k2) {
                            None => None,
                            Some(rs) => {
                                let pos3 = pos2 + 8 + 33 * (k2 as int);
                                match scalar_at(b, pos3) {
                                    None => None,
                                    Some(l) => match scalar_at(b, pos3 + 32) {
                                        None => None,
                                        Some(r) => if b.len() == pos3 + 64 {
                                            Some(BpModel { target, ls, rs, l, r })
                                        } else {
                                            None
                                        },
                                    },
                                }
                            },
                        },
                    }
                },
            },
        },
    }
}

/// Whether a proof model holds only canonical components.
pub open spec fn bp_model_wf(m: BpModel) -> bool {
    &&& point_wf(m.target)
    &&& m.l < group_order()
    &&& m.r < group_order()
    &&& m.ls.len() <= usize::MAX
    &&& m.rs.len() <= usize::MAX
    &&& (forall|i: int| 0 <= i < m.ls.len() ==> point_wf(#[trigger] m.ls[i]))
    &&& (forall|i: int| 0 <= i < m.rs.len() ==> point_wf(#[trigger] m.rs[i]))
}

/// Decoding inverts encoding for inner-product proofs.
pub proof fn lemma_bp_roundtrip(m: BpModel)
    requires
        bp_model_wf(m),
    ensures
        deser_bp(ser_bp(m)) == Some(m),
{
    let b = ser_bp(m);
    let k1 = m.ls.len();
    let k2 = m.rs.len();
    let pos2 = 41 + 33 * (k1 as int);
    let pos3 = pos2 + 8 + 33 * (k2 as int);
    lemma_len_repr_roundtrip(k1);
    lemma_len_repr_roundtrip(k2);
    lemma_concat_len(m.ls);
    lemma_concat_len(m.rs);
    lemma_scalar_repr_roundtrip(m.l);
    lemma_scalar_repr_roundtrip(m.r);
    assert(b.len() == pos3 + 64);
    assert(b.subrange(0, 33) =~= m.target);
    assert(b.subrange(33, 41) =~= be_repr(k1, 8));
    assert(b.subrange(41, 41 + 33 * (k1 as int)) =~= concat_points(m.ls));
    lemma_points_embed(b, 41, m.ls);
    assert(b.subrange(pos2, pos2 + 8) =~= be_repr(k2, 8));
    assert(b.subrange(pos2 + 8, pos2 + 8 + 33 * (k2 as int)) =~= concat_points(m.rs));
    lemma_points_embed(b, pos2 + 8, m.rs);
    assert(b.subrange(pos3, pos3 + 32) =~= be_repr(m.l, 32));
    assert(b.subrange(pos3 + 32, pos3 + 64) =~= be_repr(m.r, 32));
}

/// A parameter set on the wire: `g`, `h`, `G⃗`, `H⃗`.
pub open spec fn ser_params(pm: ParamsModel) -> Seq<u8> {
    pm.g + pm.h + ser_point_vec(pm.vec_g) + ser_point_vec(pm.vec_h)
}

/// Parsing a parameter set of capacity `maxn`; nothing may follow.
pub open spec fn deser_params(b: Seq<u8>, maxn: nat) -> Option<ParamsModel> {
    match point_at(b, 0) {
        None => None,
        Some(g) => match point_at(b, 33) {
            None => None,
            Some(h) => match len_at(b, 66) {
                None => None,
                Some(k1) => match points_at(b, 74, k1) {
                    None => None,
                    Some(vg) => {
                        let pos2 = 74 + 33 * (k1 as int);
                        match len_at(b, pos2) {
                            None => None,
                            Some(k2) => match points_at(b, pos2 + 8, k2) {
                                None => None,
                                Some(vh) => if k1 == maxn && k2 == maxn && b.len() == pos2 + 8
                                    + 33 * k2 {
                                    Some(ParamsModel { g, h, vec_g: vg, vec_h: vh })
                                } else {
                                    None
                                },
                            },
                        }
                    },
                },
            },
        },
    }
}

/// Whether a parameter model holds only canonical components of size `maxn`.
pub open spec fn params_model_wf(pm: ParamsModel, maxn: nat) -> bool {
    &&& point_wf(pm.g)
    &&& point_wf(pm.h)
    &&& pm.vec_g.len() == maxn
    &&& pm.vec_h.len() == maxn
    &&& maxn <= usize::MAX
    &&& (forall|i: int| 0 <= i < pm.vec_g.len() ==> point_wf(#[trigger] pm.vec_g[i]))
    &&& (forall|i: int| 0 <= i < pm.vec_h.len() ==> point_wf(#[trigger] pm.vec_h[i]))
}

/// Decoding inverts encoding for parameter sets.
pub proof fn lemma_params_roundtrip(pm: ParamsModel, maxn: nat)
    requires
        params_model_wf(pm, maxn),
    ensures
        deser_params(ser_params(pm), maxn) == Some(pm),
{
    let b = ser_params(pm);
    let pos2 = 74 + 33 * (maxn as int);
    lemma_len_repr_roundtrip(maxn);
    lemma_concat_len(pm.vec_g);
    lemma_concat_len(pm.vec_h);
    assert(b.len() == pos2 + 8 + 33 * maxn);
    assert(b.subrange(0, 33) =~= pm.g);
    assert(b.subrange(33, 66) =~= pm.h);
    assert(b.subrange(66, 74) =~= be_repr(maxn, 8));
    assert(b.subrange(74, 74 + 33 * (maxn as int)) =~= concat_points(pm.vec_g));
    lemma_points_embed(b, 74, pm.vec_g);
    assert(b.subrange(pos2, pos2 + 8) =~= be_repr(maxn, 8));
    assert(b.subrange(pos2 + 8, pos2 + 8 + 33 * (maxn as int)) =~= concat_points(pm.vec_h));
    lemma_points_embed(b, pos2 + 8, pm.vec_h);
}

/// An incognito signature on the wire, field by field in declaration
/// order, the inner-product proof last.
pub open spec fn ser_incsig(m: IncSigModel) -> Seq<u8> {
    m.point_r + m.point_c_pk + m.point_r_z + be_repr(m.s_z, 32) + be_repr(m.s_beta, 32)
        + m.point_a + m.point_s + m.point_s_pk + m.point_t1 + m.point_t2 + be_repr(m.taux, 32)
        + be_repr(m.mu, 32) + be_repr(m.nu, 32) + be_repr(m.tx, 32) + ser_bp(m.bulletproof)
}

/// Parsing an incognito signature; the proof consumes the rest.
pub open spec fn deser_incsig(b: Seq<u8>) -> Option<IncSigModel> {
    if b.len() < 456 {
        None
    } else {
        match (point_at(b, 0), point_at(b, 33), point_at(b, 66)) {
            (Some(pr), Some(cpk), Some(rz)) => match (scalar_at(b, 99), scalar_at(b, 131)) {
                (Some(sz), Some(sbeta)) => match (
                    point_at(b, 163),
                    point_at(b, 196),
                    point_at(b, 229),
                    point_at(b, 262),
                    point_at(b, 295),
                ) {
                    (Some(pa), Some(ps), Some(pspk), Some(pt1), Some(pt2)) => match (
                        scalar_at(b, 328),
                        scalar_at(b, 360),
                        scalar_at(b, 392),
                        scalar_at(b, 424),
                    ) {
                        (Some(taux), Some(mu), Some(nu), Some(tx)) => match deser_bp(
                            b.subrange(456, b.len() as int),
                        ) {
                            Some(bp) => Some(
                                IncSigModel {
                                    point_r: pr,
                                    point_c_pk: cpk,
                                    point_r_z: rz,
                                    s_z: sz,
                                    s_beta: sbeta,
                                    point_a: pa,
                                    point_s: ps,
                                    point_s_pk: pspk,
                                    point_t1: pt1,
                                    point_t2: pt2,
                                    taux,
                                    mu,
                                    nu,
                                    tx,
                                    bulletproof: bp,
                                },
                            ),
                            None => None,
                        },
                        _ => None,
                    },
                    _ => None,
                },
                _ => None,
            },
            _ => None,
        }
    }
}

/// Whether a signature model holds only canonical components.
pub open spec fn incsig_model_wf(m: IncSigModel) -> bool {
    &&& point_wf(m.point_r)
    &&& point_wf(m.point_c_pk)
    &&& point_wf(m.point_r_z)
    &&& m.s_z < group_order()
    &&& m.s_beta < group_order()
    &&& point_wf(m.point_a)
    &&& point_wf(m.point_s)
    &&& point_wf(m.point_s_pk)
    &&& point_wf(m.point_t1)
    &&& point_wf(m.point_t2)
    &&& m.taux < group_order()
    &&& m.mu < group_order()
    &&& m.nu < group_order()
    &&& m.tx < group_order()
    &&& bp_model_wf(m.bulletproof)
}

/// Decoding inverts encoding for incognito signatures.
pub proof fn lemma_incsig_roundtrip(m: IncSigModel)
    requires
        incsig_model_wf(m),
    ensures
        deser_incsig(ser_incsig(m)) == Some(m),
{
    let b = ser_incsig(m);
    lemma_scalar_repr_roundtrip(m.s_z);
    lemma_scalar_repr_roundtrip(m.s_beta);
    lemma_scalar_repr_roundtrip(m.taux);
    lemma_scalar_repr_roundtrip(m.mu);
    lemma_scalar_repr_roundtrip(m.nu);
    lemma_scalar_repr_roundtrip(m.tx);
    lemma_len_repr_roundtrip(m.bulletproof.ls.len());
    lemma_len_repr_roundtrip(m.bulletproof.rs.len());
    lemma_concat_len(m.bulletproof.ls);
    lemma_concat_len(m.bulletproof.rs);
    assert(b.subrange(0, 33) =~= m.point_r);
    assert(b.subrange(33, 66) =~= m.point_c_pk);
    assert(b.subrange(66, 99) =~= m.point_r_z);
    assert(b.subrange(99, 131) =~= be_repr(m.s_z, 32));
    assert(b.subrange(131, 163) =~= be_repr(m.s_beta, 32));
    assert(b.subrange(163, 196) =~= m.point_a);
    assert(b.subrange(196, 229) =~= m.point_s);
    assert(b.subrange(229, 262) =~= m.point_s_pk);
    assert(b.subrange(262, 295) =~= m.point_t1);
    assert(b.subrange(295, 328) =~= m.point_t2);
    assert(b.subrange(328, 360) =~= be_repr(m.taux, 32));
    assert(b.subrange(360, 392) =~= be_repr(m.mu, 32));
    assert(b.subrange(392, 424) =~= be_repr(m.nu, 32));
    assert(b.subrange(424, 456) =~= be_repr(m.tx, 32));
    assert(b.subrange(456, b.len() as int) =~= ser_bp(m.bulletproof));
    lemma_bp_roundtrip(m.bulletproof);
}

} // verus!
