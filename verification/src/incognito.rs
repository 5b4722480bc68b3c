//! The incognito conversion: turns a Schnorr signature under one ring
//! member's key into a publicly verifiable signature that hides which
//! member signed.
//!
//! `IncognitoParams` is the common reference string: auxiliary bases `g`,
//! `h` and two vectors of `MAXN` bases. `convert` commits to the signer's
//! key, proves knowledge of a Schnorr witness for the commitment,
//! constructs a one-of-many proof over the bit vector selecting the signer,
//! and closes with an inner-product argument. `verify` re-derives every
//! challenge and checks the three verification equations.

use vstd::prelude::*;
use crate::bulletproof::{
    bp_accepts, bp_prove_oks, bp_prove_spec, bp_shape_matches, bp_start, bp_verify_oks,
    is_pow2_exec, msm2_exec, p_msm2, BpModel, BulletProof,
};
use crate::bytes::be_repr;
use crate::hash::{hash_scalar, hash_to_scalar};
use crate::points::{generator_repr, p_add, p_mul, points_eq, views, Point};
use crate::scalars::{
    congruent, fadd, finv, fmul, fsub, group_order, lemma_congruent_add, lemma_congruent_eq,
    lemma_congruent_mul, lemma_congruent_sub, lemma_fadd_congruent, lemma_fmul_congruent,
    lemma_fmul_one, lemma_fsub_congruent, vals, Scalar,
};
use crate::schnorr::{schnorr_challenge, SchnorrSignature};
use crate::Error;
use vstd::arithmetic::power2::is_pow2;

verus! {

/// The abstract value of a parameter set.
pub struct ParamsModel {
    pub g: Seq<u8>,
    pub h: Seq<u8>,
    pub vec_g: Seq<Seq<u8>>,
    pub vec_h: Seq<Seq<u8>>,
}

/// The abstract value of an incognito signature.
pub struct IncSigModel {
    pub point_r: Seq<u8>,
    pub point_c_pk: Seq<u8>,
    pub point_r_z: Seq<u8>,
    pub s_z: nat,
    pub s_beta: nat,
    pub point_a: Seq<u8>,
    pub point_s: Seq<u8>,
    pub point_s_pk: Seq<u8>,
    pub point_t1: Seq<u8>,
    pub point_t2: Seq<u8>,
    pub taux: nat,
    pub mu: nat,
    pub nu: nat,
    pub tx: nat,
    pub bulletproof: BpModel,
}

/// The common reference string: five sets of generators drawn at setup.
pub struct IncognitoParams<const MAXN: usize> {
    g: Point,
    h: Point,
    vec_g: Vec<Point>,
    vec_h: Vec<Point>,
}

impl<const MAXN: usize> View for IncognitoParams<MAXN> {
    type V = ParamsModel;

    closed spec fn view(&self) -> ParamsModel {
        ParamsModel {
            g: self.g@,
            h: self.h@,
            vec_g: views(self.vec_g@),
            vec_h: views(self.vec_h@),
        }
    }
}

/// The ring-hiding signature emitted by `convert`.
pub struct IncognitoSignature {
    point_r: Point,
    point_c_pk: Point,
    point_r_z: Point,
    s_z: Scalar,
    s_beta: Scalar,
    point_a: Point,
    point_s: Point,
    point_s_pk: Point,
    point_t1: Point,
    point_t2: Point,
    taux: Scalar,
    mu: Scalar,
    nu: Scalar,
    tx: Scalar,
    bulletproof: BulletProof,
}

impl View for IncognitoSignature {
    type V = IncSigModel;

    closed spec fn view(&self) -> IncSigModel {
        IncSigModel {
            point_r: self.point_r@,
            point_c_pk: self.point_c_pk@,
            point_r_z: self.point_r_z@,
            s_z: self.s_z@,
            s_beta: self.s_beta@,
            point_a: self.point_a@,
            point_s: self.point_s@,
            point_s_pk: self.point_s_pk@,
            point_t1: self.point_t1@,
            point_t2: self.point_t2@,
            taux: self.taux@,
            mu: self.mu@,
            nu: self.nu@,
            tx: self.tx@,
            bulletproof: self.bulletproof@,
        }
    }
}

/// The challenge binding the masked Schnorr commitment to the key
/// commitment: `H(R_z ‖ C_pk)`.
pub open spec fn cz_challenge(r_z: Seq<u8>, c_pk: Seq<u8>) -> nat {
    hash_scalar(r_z + c_pk)
}

/// The first vector challenge: `H(g ‖ A ‖ S ‖ S_pk ‖ C_pk ‖ 0x00)`.
pub open spec fn y_challenge(g: Seq<u8>, a: Seq<u8>, s: Seq<u8>, s_pk: Seq<u8>, c_pk: Seq<u8>) -> nat {
    hash_scalar(g + a + s + s_pk + c_pk + seq![0u8])
}

/// The second vector challenge: `H(g ‖ A ‖ S ‖ S_pk ‖ C_pk ‖ 0x01)`.
pub open spec fn w_challenge(g: Seq<u8>, a: Seq<u8>, s: Seq<u8>, s_pk: Seq<u8>, c_pk: Seq<u8>) -> nat {
    hash_scalar(g + a + s + s_pk + c_pk + seq![1u8])
}

/// The polynomial challenge: `H(T₁ ‖ T₂ ‖ y ‖ w)`.
pub open spec fn x_challenge(t1: Seq<u8>, t2: Seq<u8>, y: nat, w: nat) -> nat {
    hash_scalar(t1 + t2 + be_repr(y, 32) + be_repr(w, 32))
}

/// The base-shift challenge: `H(x ‖ τ_x ‖ μ ‖ ν ‖ t_x)`.
pub open spec fn d_challenge(x: nat, taux: nat, mu: nat, nu: nat, tx: nat) -> nat {
    hash_scalar(be_repr(x, 32) + be_repr(taux, 32) + be_repr(mu, 32) + be_repr(nu, 32) + be_repr(tx, 32))
}

/// The power `y^i` in the scalar field.
pub open spec fn fpow(y: nat, i: nat) -> nat
    decreases i,
{
    if i == 0 {
        1
    } else {
        fmul(fpow(y, (i - 1) as nat), y)
    }
}

/// The powers `(1, y, …, y^{n−1})`.
pub open spec fn yn_seq(y: nat, n: nat) -> Seq<nat> {
    Seq::new(n, |i: int| fpow(y, i as nat))
}

/// The sum `Σ_{i<n} 1` in the scalar field.
pub open spec fn n_sum(n: int) -> nat
    decreases n,
{
    if n <= 0 {
        0
    } else {
        fadd(n_sum(n - 1), 1)
    }
}

/// The sum `Σ_{i<n} y^i` in the scalar field.
pub open spec fn pow_sum(y: nat, n: int) -> nat
    decreases n,
{
    if n <= 0 {
        0
    } else {
        fadd(pow_sum(y, n - 1), fpow(y, (n - 1) as nat))
    }
}

/// The inner product `Σ_{i<n} l_i·r_i` in the scalar field.
pub open spec fn ip_sum(l: Seq<nat>, r: Seq<nat>, n: int) -> nat
    decreases n,
{
    if n <= 0 {
        0
    } else {
        fadd(ip_sum(l, r, n - 1), fmul(l[n - 1], r[n - 1]))
    }
}

/// The running point sum `init + Σ_{i<n} (g_i·x_i + h_i·y_i)`.
pub open spec fn p_msm2_from(
    init: Seq<u8>,
    g: Seq<Seq<u8>>,
    x: Seq<nat>,
    h: Seq<Seq<u8>>,
    y: Seq<nat>,
    n: int,
) -> Seq<u8>
    decreases n,
{
    if n <= 0 {
        init
    } else {
        p_add(
            p_add(p_msm2_from(init, g, x, h, y, n - 1), p_mul(g[n - 1], x[n - 1])),
            p_mul(h[n - 1], y[n - 1]),
        )
    }
}

/// The running point sum `init + Σ_{i<n} g_i·x_i`.
pub open spec fn p_msm1_from(init: Seq<u8>, g: Seq<Seq<u8>>, x: Seq<nat>, n: int) -> Seq<u8>
    decreases n,
{
    if n <= 0 {
        init
    } else {
        p_add(p_msm1_from(init, g, x, n - 1), p_mul(g[n - 1], x[n - 1]))
    }
}

/// The unit bit vector selecting `index`.
pub open spec fn b_vec(n: nat, index: int) -> Seq<nat> {
    Seq::new(n, |i: int| if i == index { 1nat } else { 0nat })
}

/// The shifted vector `a = b − 1⃗`.
pub open spec fn a_vec(b: Seq<nat>) -> Seq<nat> {
    Seq::new(b.len(), |i: int| fsub(b[i], 1))
}

/// One member's term of the opened inner product splits into the constant,
/// linear and quadratic coefficients of the committed polynomial, for a
/// bit `b_j` and its shift `a_j = b_j − 1`.
#[verifier::rlimit(100)]
proof fn lemma_term_identity(bj: nat, sbj: nat, saj: nat, ynj: nat, w: nat, x: nat)
    requires
        bj == 0 || bj == 1,
    ensures
        ({
            let aj = fsub(bj, 1);
            let lvj = fadd(fsub(bj, w), fmul(sbj, x));
            let rvj = fadd(fmul(ynj, fadd(fadd(aj, w), fmul(saj, x))), fmul(w, w));
            let t1j = fadd(
                fmul(sbj, fadd(fmul(ynj, fadd(aj, w)), fmul(w, w))),
                fmul(fsub(bj, w), fmul(ynj, saj)),
            );
            let t2j = fmul(fmul(sbj, ynj), saj);
            let cj = fadd(
                fmul(ynj, fsub(w, fmul(w, w))),
                fsub(fmul(fmul(w, w), bj), fmul(fmul(w, w), w)),
            );
            fmul(lvj, rvj) == fadd(fadd(cj, fmul(t1j, x)), fmul(fmul(t2j, x), x))
        }),
{
    let b = bj as int;
    let sb = sbj as int;
    let sa = saj as int;
    let yn = ynj as int;
    let iw = w as int;
    let ix = x as int;
    let aj = fsub(bj, 1);
    let u1 = fsub(bj, w);
    let u2 = fmul(sbj, x);
    let lvj = fadd(u1, u2);
    let lint = (b - iw) + sb * ix;
    assert(congruent(lvj as int, lint)) by {
        lemma_fadd_congruent(u1, u2);
        lemma_fsub_congruent(bj, w);
        lemma_fmul_congruent(sbj, x);
        lemma_congruent_add(u1 as int, b - iw, u2 as int, sb * ix);
    }
    let v1 = fadd(aj, w);
    let v2 = fmul(saj, x);
    let v3 = fadd(v1, v2);
    let v4 = fmul(ynj, v3);
    let w2n = fmul(w, w);
    let rvj = fadd(v4, w2n);
    let rint = yn * (((b - 1) + iw) + sa * ix) + iw * iw;
    assert(congruent(v1 as int, (b - 1) + iw)) by {
        lemma_fadd_congruent(aj, w);
        lemma_fsub_congruent(bj, 1);
        lemma_congruent_add(aj as int, b - 1, iw, iw);
    }
    assert(congruent(v3 as int, ((b - 1) + iw) + sa * ix)) by {
        lemma_fadd_congruent(v1, v2);
        lemma_fmul_congruent(saj, x);
        lemma_congruent_add(v1 as int, (b - 1) + iw, v2 as int, sa * ix);
    }
    assert(congruent(v4 as int, yn * (((b - 1) + iw) + sa * ix))) by {
        lemma_fmul_congruent(ynj, v3);
        lemma_congruent_mul(yn, yn, v3 as int, ((b - 1) + iw) + sa * ix);
    }
    assert(congruent(w2n as int, iw * iw)) by {
        lemma_fmul_congruent(w, w);
    }
    assert(congruent(rvj as int, rint)) by {
        lemma_fadd_congruent(v4, w2n);
        lemma_congruent_add(v4 as int, yn * (((b - 1) + iw) + sa * ix), w2n as int, iw * iw);
    }
    let lhs = fmul(lvj, rvj);
    assert(congruent(lhs as int, lint * rint)) by {
        lemma_fmul_congruent(lvj, rvj);
        lemma_congruent_mul(lvj as int, lint, rvj as int, rint);
    }
    let p1 = fmul(ynj, v1);
    let p2 = fadd(p1, w2n);
    let p3 = fmul(sbj, p2);
    let q1 = fmul(ynj, saj);
    let q2 = fmul(u1, q1);
    let t1j = fadd(p3, q2);
    let t1int = sb * (yn * ((b - 1) + iw) + iw * iw) + (b - iw) * (yn * sa);
    assert(congruent(p2 as int, yn * ((b - 1) + iw) + iw * iw)) by {
        lemma_fmul_congruent(ynj, v1);
        lemma_congruent_mul(yn, yn, v1 as int, (b - 1) + iw);
        lemma_fadd_congruent(p1, w2n);
        lemma_congruent_add(p1 as int, yn * ((b - 1) + iw), w2n as int, iw * iw);
    }
    assert(congruent(p3 as int, sb * (yn * ((b - 1) + iw) + iw * iw))) by {
        lemma_fmul_congruent(sbj, p2);
        lemma_congruent_mul(sb, sb, p2 as int, yn * ((b - 1) + iw) + iw * iw);
    }
    assert(congruent(q2 as int, (b - iw) * (yn * sa))) by {
        lemma_fmul_congruent(u1, q1);
        lemma_fmul_congruent(ynj, saj);
        lemma_fsub_congruent(bj, w);
        lemma_congruent_mul(u1 as int, b - iw, q1 as int, yn * sa);
    }
    assert(congruent(t1j as int, t1int)) by {
        lemma_fadd_congruent(p3, q2);
        lemma_congruent_add(p3 as int, sb * (yn * ((b - 1) + iw) + iw * iw), q2 as int, (b - iw)
            * (yn * sa));
    }
    let t2j = fmul(fmul(sbj, ynj), saj);
    let t2int = (sb * yn) * sa;
    assert(congruent(t2j as int, t2int)) by {
        lemma_fmul_congruent(fmul(sbj, ynj), saj);
        lemma_fmul_congruent(sbj, ynj);
        lemma_congruent_mul(fmul(sbj, ynj) as int, sb * yn, sa, sa);
    }
    let c1 = fsub(w, w2n);
    let c2 = fmul(ynj, c1);
    let c3 = fmul(w2n, bj);
    let c4 = fmul(w2n, w);
    let c5 = fsub(c3, c4);
    let cj = fadd(c2, c5);
    let cint = yn * (iw - iw * iw) + ((iw * iw) * b - (iw * iw) * iw);
    assert(congruent(c2 as int, yn * (iw - iw * iw))) by {
        lemma_fsub_congruent(w, w2n);
        lemma_congruent_sub(iw, iw, w2n as int, iw * iw);
        lemma_fmul_congruent(ynj, c1);
        lemma_congruent_mul(yn, yn, c1 as int, iw - iw * iw);
    }
    assert(congruent(c5 as int, (iw * iw) * b - (iw * iw) * iw)) by {
        lemma_fmul_congruent(w2n, bj);
        lemma_congruent_mul(w2n as int, iw * iw, b, b);
        lemma_fmul_congruent(w2n, w);
        lemma_congruent_mul(w2n as int, iw * iw, iw, iw);
        lemma_fsub_congruent(c3, c4);
        lemma_congruent_sub(c3 as int, (iw * iw) * b, c4 as int, (iw * iw) * iw);
    }
    assert(congruent(cj as int, cint)) by {
        lemma_fadd_congruent(c2, c5);
        lemma_congruent_add(c2 as int, yn * (iw - iw * iw), c5 as int, (iw * iw) * b - (iw * iw)
            * iw);
    }
    let r1 = fmul(t1j, x);
    let r2 = fmul(t2j, x);
    let r3 = fmul(r2, x);
    let r4 = fadd(cj, r1);
    let rhs = fadd(r4, r3);
    assert(congruent(r1 as int, t1int * ix)) by {
        lemma_fmul_congruent(t1j, x);
        lemma_congruent_mul(t1j as int, t1int, ix, ix);
    }
    assert(congruent(r3 as int, (t2int * ix) * ix)) by {
        lemma_fmul_congruent(t2j, x);
        lemma_congruent_mul(t2j as int, t2int, ix, ix);
        lemma_fmul_congruent(r2, x);
        lemma_congruent_mul(r2 as int, t2int * ix, ix, ix);
    }
    assert(congruent(rhs as int, cint + t1int * ix + (t2int * ix) * ix)) by {
        lemma_fadd_congruent(cj, r1);
        lemma_congruent_add(cj as int, cint, r1 as int, t1int * ix);
        lemma_fadd_congruent(r4, r3);
        lemma_congruent_add(r4 as int, cint + t1int * ix, r3 as int, (t2int * ix) * ix);
    }
    assert(lint * rint == cint + t1int * ix + (t2int * ix) * ix) by {
        assert(((b - iw) + sb * ix) * rint == (b - iw) * rint + (sb * ix) * rint)
            by (nonlinear_arith);
        assert((sb * ix) * (yn * (((b - 1) + iw) + sa * ix) + iw * iw) == (sb * (yn * ((b - 1)
            + iw) + iw * iw)) * ix + (((sb * yn) * sa) * ix) * ix) by {
            let u2i = sb * ix;
            let pp = (b - 1) + iw;
            let qq = sa * ix;
            vstd::arithmetic::mul::lemma_mul_is_distributive_add(yn, pp, qq);
            vstd::arithmetic::mul::lemma_mul_is_distributive_add(u2i, yn * pp + yn * qq, iw * iw);
            vstd::arithmetic::mul::lemma_mul_is_distributive_add(u2i, yn * pp, yn * qq);
            vstd::arithmetic::mul::lemma_mul_is_associative(sb, ix, yn * pp);
            vstd::arithmetic::mul::lemma_mul_is_commutative(ix, yn * pp);
            vstd::arithmetic::mul::lemma_mul_is_associative(sb, yn * pp, ix);
            vstd::arithmetic::mul::lemma_mul_is_associative(sb, ix, iw * iw);
            vstd::arithmetic::mul::lemma_mul_is_commutative(ix, iw * iw);
            vstd::arithmetic::mul::lemma_mul_is_associative(sb, iw * iw, ix);
            vstd::arithmetic::mul::lemma_mul_is_associative(yn, sa, ix);
            vstd::arithmetic::mul::lemma_mul_is_associative(sb, ix, (yn * sa) * ix);
            vstd::arithmetic::mul::lemma_mul_is_commutative(ix, (yn * sa) * ix);
            vstd::arithmetic::mul::lemma_mul_is_associative(sb, (yn * sa) * ix, ix);
            vstd::arithmetic::mul::lemma_mul_is_associative(sb, yn * sa, ix);
            vstd::arithmetic::mul::lemma_mul_is_associative(sb, yn, sa);
            vstd::arithmetic::mul::lemma_mul_is_distributive_add(sb, yn * pp, iw * iw);
            vstd::arithmetic::mul::lemma_mul_is_distributive_add_other_way(
                ix,
                sb * (yn * pp),
                sb * (iw * iw),
            );
        }
        assert((b - iw) * (yn * (((b - 1) + iw) + sa * ix) + iw * iw) == (b - iw) * (yn * ((b - 1)
            + iw)) + ((b - iw) * (yn * sa)) * ix + ((iw * iw) * b - (iw * iw) * iw)) by {
            let u = b - iw;
            let pp = (b - 1) + iw;
            let qq = sa * ix;
            vstd::arithmetic::mul::lemma_mul_is_distributive_add(yn, pp, qq);
            vstd::arithmetic::mul::lemma_mul_is_distributive_add(u, yn * pp + yn * qq, iw * iw);
            vstd::arithmetic::mul::lemma_mul_is_distributive_add(u, yn * pp, yn * qq);
            vstd::arithmetic::mul::lemma_mul_is_associative(yn, sa, ix);
            vstd::arithmetic::mul::lemma_mul_is_associative(u, yn * sa, ix);
            vstd::arithmetic::mul::lemma_mul_is_commutative(u, iw * iw);
            vstd::arithmetic::mul::lemma_mul_is_distributive_sub(iw * iw, b, iw);
        }
        assert((b - iw) * (yn * ((b - 1) + iw)) == yn * ((b * b - b) + (iw - iw * iw)))
            by (nonlinear_arith);
        assert(b * b == b);
        assert((sb * (yn * ((b - 1) + iw) + iw * iw) + (b - iw) * (yn * sa)) * ix == (sb * (yn * ((
        b - 1) + iw) + iw * iw)) * ix + ((b - iw) * (yn * sa)) * ix) by (nonlinear_arith);
    }
    assert(lhs < group_order() && rhs < group_order()) by {
        lemma_fmul_congruent(lvj, rvj);
        lemma_fadd_congruent(r4, r3);
    }
    lemma_congruent_eq(lhs, rhs);
}

/// The running sum of the per-member constant terms `c_j`.
pub open spec fn c_sum(b: Seq<nat>, yn: Seq<nat>, w: nat, n: int) -> nat
    decreases n,
{
    if n <= 0 {
        0
    } else {
        let j = n - 1;
        fadd(
            c_sum(b, yn, w, n - 1),
            fadd(
                fmul(yn[j], fsub(w, fmul(w, w))),
                fsub(fmul(fmul(w, w), b[j]), fmul(fmul(w, w), w)),
            ),
        )
    }
}

/// Whether the selected index lies below `i`: the bit-vector prefix sum.
pub open spec fn bsel(index: int, i: int) -> nat {
    if index < i {
        1
    } else {
        0
    }
}

/// Regrouping of two coefficient triples: summing the evaluations equals
/// evaluating the summed coefficients.
#[verifier::rlimit(50)]
proof fn lemma_step_regroup(cs: nat, s1: nat, s2: nat, u: nat, v: nat, t2j: nat, cjn: nat, x: nat)
    ensures
        fadd(
            fadd(fadd(cs, fmul(s1, x)), fmul(fmul(s2, x), x)),
            fadd(fadd(cjn, fmul(fadd(u, v), x)), fmul(fmul(t2j, x), x)),
        ) == fadd(
            fadd(fadd(cs, cjn), fmul(fadd(fadd(s1, u), v), x)),
            fmul(fmul(fadd(s2, t2j), x), x),
        ),
{
    let ix = x as int;
    let e1 = cs as int;
    let e2 = (s1 as int) * ix;
    let e3 = ((s2 as int) * ix) * ix;
    let e4 = cjn as int;
    let e5 = ((u + v) as int) * ix;
    let e6 = ((t2j as int) * ix) * ix;
    let lhs = fadd(
        fadd(fadd(cs, fmul(s1, x)), fmul(fmul(s2, x), x)),
        fadd(fadd(cjn, fmul(fadd(u, v), x)), fmul(fmul(t2j, x), x)),
    );
    let rhs = fadd(
        fadd(fadd(cs, cjn), fmul(fadd(fadd(s1, u), v), x)),
        fmul(fmul(fadd(s2, t2j), x), x),
    );
    assert(congruent(fmul(s1, x) as int, e2)) by {
        lemma_fmul_congruent(s1, x);
    }
    assert(congruent(fmul(fmul(s2, x), x) as int, e3)) by {
        lemma_fmul_congruent(s2, x);
        lemma_fmul_congruent(fmul(s2, x), x);
        lemma_congruent_mul(fmul(s2, x) as int, (s2 as int) * ix, ix, ix);
    }
    assert(congruent(fmul(fadd(u, v), x) as int, e5)) by {
        lemma_fadd_congruent(u, v);
        lemma_fmul_congruent(fadd(u, v), x);
        lemma_congruent_mul(fadd(u, v) as int, (u + v) as int, ix, ix);
    }
    assert(congruent(fmul(fmul(t2j, x), x) as int, e6)) by {
        lemma_fmul_congruent(t2j, x);
        lemma_fmul_congruent(fmul(t2j, x), x);
        lemma_congruent_mul(fmul(t2j, x) as int, (t2j as int) * ix, ix, ix);
    }
    assert(congruent(lhs as int, (e1 + e2 + e3) + (e4 + e5 + e6))) by {
        lemma_fadd_congruent(cs, fmul(s1, x));
        lemma_congruent_add(cs as int, e1, fmul(s1, x) as int, e2);
        lemma_fadd_congruent(fadd(cs, fmul(s1, x)), fmul(fmul(s2, x), x));
        lemma_congruent_add(
            fadd(cs, fmul(s1, x)) as int,
            e1 + e2,
            fmul(fmul(s2, x), x) as int,
            e3,
        );
        lemma_fadd_congruent(cjn, fmul(fadd(u, v), x));
        lemma_congruent_add(cjn as int, e4, fmul(fadd(u, v), x) as int, e5);
        lemma_fadd_congruent(fadd(cjn, fmul(fadd(u, v), x)), fmul(fmul(t2j, x), x));
        lemma_congruent_add(
            fadd(cjn, fmul(fadd(u, v), x)) as int,
            e4 + e5,
            fmul(fmul(t2j, x), x) as int,
            e6,
        );
        lemma_fadd_congruent(
            fadd(fadd(cs, fmul(s1, x)), fmul(fmul(s2, x), x)),
            fadd(fadd(cjn, fmul(fadd(u, v), x)), fmul(fmul(t2j, x), x)),
        );
        lemma_congruent_add(
            fadd(fadd(cs, fmul(s1, x)), fmul(fmul(s2, x), x)) as int,
            e1 + e2 + e3,
            fadd(fadd(cjn, fmul(fadd(u, v), x)), fmul(fmul(t2j, x), x)) as int,
            e4 + e5 + e6,
        );
    }
    assert(congruent(fmul(fadd(fadd(s1, u), v), x) as int, e2 + e5)) by {
        lemma_fadd_congruent(s1, u);
        lemma_fadd_congruent(fadd(s1, u), v);
        lemma_congruent_add(fadd(s1, u) as int, s1 as int + u, v as int, v as int);
        lemma_fmul_congruent(fadd(fadd(s1, u), v), x);
        lemma_congruent_mul(
            fadd(fadd(s1, u), v) as int,
            (s1 as int) + ((u + v) as int),
            ix,
            ix,
        );
        vstd::arithmetic::mul::lemma_mul_is_distributive_add_other_way(
            ix,
            s1 as int,
            (u + v) as int,
        );
    }
    assert(congruent(fmul(fmul(fadd(s2, t2j), x), x) as int, e3 + e6)) by {
        lemma_fadd_congruent(s2, t2j);
        lemma_fmul_congruent(fadd(s2, t2j), x);
        lemma_congruent_mul(fadd(s2, t2j) as int, (s2 + t2j) as int, ix, ix);
        vstd::arithmetic::mul::lemma_mul_is_distributive_add_other_way(ix, s2 as int, t2j as int);
        lemma_fmul_congruent(fmul(fadd(s2, t2j), x), x);
        lemma_congruent_mul(
            fmul(fadd(s2, t2j), x) as int,
            (s2 as int) * ix + (t2j as int) * ix,
            ix,
            ix,
        );
        vstd::arithmetic::mul::lemma_mul_is_distributive_add_other_way(
            ix,
            (s2 as int) * ix,
            (t2j as int) * ix,
        );
    }
    assert(congruent(rhs as int, (e1 + e2 + e3) + (e4 + e5 + e6))) by {
        lemma_fadd_congruent(cs, cjn);
        lemma_fadd_congruent(fadd(cs, cjn), fmul(fadd(fadd(s1, u), v), x));
        lemma_congruent_add(
            fadd(cs, cjn) as int,
            e1 + e4,
            fmul(fadd(fadd(s1, u), v), x) as int,
            e2 + e5,
        );
        lemma_fadd_congruent(
            fadd(fadd(cs, cjn), fmul(fadd(fadd(s1, u), v), x)),
            fmul(fmul(fadd(s2, t2j), x), x),
        );
        lemma_congruent_add(
            fadd(fadd(cs, cjn), fmul(fadd(fadd(s1, u), v), x)) as int,
            (e1 + e4) + (e2 + e5),
            fmul(fmul(fadd(s2, t2j), x), x) as int,
            e3 + e6,
        );
    }
    assert(lhs < group_order() && rhs < group_order()) by {
        lemma_fadd_congruent(
            fadd(fadd(cs, fmul(s1, x)), fmul(fmul(s2, x), x)),
            fadd(fadd(cjn, fmul(fadd(u, v), x)), fmul(fmul(t2j, x), x)),
        );
        lemma_fadd_congruent(
            fadd(fadd(cs, cjn), fmul(fadd(fadd(s1, u), v), x)),
            fmul(fmul(fadd(s2, t2j), x), x),
        );
    }
    lemma_congruent_eq(lhs, rhs);
}

/// The opened inner product splits, member by member, into the constant,
/// linear and quadratic coefficient sums.
proof fn lemma_sum_identity(
    b: Seq<nat>,
    a: Seq<nat>,
    s_b: Seq<nat>,
    s_a: Seq<nat>,
    yn: Seq<nat>,
    w: nat,
    x: nat,
    lv: Seq<nat>,
    rv: Seq<nat>,
    i: int,
)
    requires
        0 <= i <= b.len(),
        a.len() == b.len(),
        s_b.len() == b.len(),
        s_a.len() == b.len(),
        yn.len() == b.len(),
        lv.len() == b.len(),
        rv.len() == b.len(),
        forall|j: int| 0 <= j < b.len() ==> #[trigger] b[j] == 0 || b[j] == 1,
        forall|j: int| 0 <= j < b.len() ==> #[trigger] a[j] == fsub(b[j], 1),
        forall|j: int|
            0 <= j < b.len() ==> #[trigger] lv[j] == fadd(fsub(b[j], w), fmul(s_b[j], x)),
        forall|j: int|
            0 <= j < b.len() ==> #[trigger] rv[j] == fadd(
                fmul(yn[j], fadd(fadd(a[j], w), fmul(s_a[j], x))),
                fmul(w, w),
            ),
    ensures
        ip_sum(lv, rv, i) == fadd(
            fadd(c_sum(b, yn, w, i), fmul(t1_sum(s_b, b, s_a, a, yn, w, i), x)),
            fmul(fmul(t2_sum(s_b, s_a, yn, i), x), x),
        ),
    decreases i,
{
    if i <= 0 {
        assert(fmul(0, x) == 0) by {
            lemma_congruent_eq(fmul(0, x), 0);
        }
        assert(fadd(0, 0) == 0) by {
            lemma_congruent_eq(fadd(0, 0), 0);
        }
    } else {
        let j = i - 1;
        lemma_sum_identity(b, a, s_b, s_a, yn, w, x, lv, rv, i - 1);
        lemma_term_identity(b[j], s_b[j], s_a[j], yn[j], w, x);
        let cs = c_sum(b, yn, w, i - 1);
        let s1 = t1_sum(s_b, b, s_a, a, yn, w, i - 1);
        let s2 = t2_sum(s_b, s_a, yn, i - 1);
        let u = fmul(s_b[j], fadd(fmul(yn[j], fadd(a[j], w)), fmul(w, w)));
        let v = fmul(fsub(b[j], w), fmul(yn[j], s_a[j]));
        let t2jn = fmul(fmul(s_b[j], yn[j]), s_a[j]);
        let cjn = fadd(
            fmul(yn[j], fsub(w, fmul(w, w))),
            fsub(fmul(fmul(w, w), b[j]), fmul(fmul(w, w), w)),
        );
        assert(fmul(lv[j], rv[j]) == fadd(
            fadd(cjn, fmul(fadd(u, v), x)),
            fmul(fmul(t2jn, x), x),
        ));
        lemma_step_regroup(cs, s1, s2, u, v, t2jn, cjn, x);
    }
}

/// Over the unit bit vector, the constant-term sum collapses to `t₀`:
/// the prefix form with the bit prefix sum, the member count and the
/// challenge powers.
#[verifier::rlimit(100)]
proof fn lemma_c_sum_t0(n: nat, index: int, y: nat, w: nat, i: int)
    requires
        0 <= index < n,
        0 <= i <= n,
    ensures
        c_sum(b_vec(n, index), yn_seq(y, n), w, i) == fadd(
            fsub(fmul(fmul(w, w), bsel(index, i)), fmul(fmul(fmul(w, w), w), n_sum(i))),
            fmul(fsub(w, fmul(w, w)), pow_sum(y, i)),
        ),
    decreases i,
{
    let b = b_vec(n, index);
    let yn = yn_seq(y, n);
    let w2n = fmul(w, w);
    let w3n = fmul(fmul(w, w), w);
    let c1n = fsub(w, w2n);
    if i <= 0 {
        assert(fmul(w2n, 0) == 0 && fmul(w3n, 0) == 0 && fmul(c1n, 0) == 0) by {
            lemma_fmul_congruent(w2n, 0);
            lemma_fmul_congruent(w3n, 0);
            lemma_fmul_congruent(c1n, 0);
            vstd::arithmetic::mul::lemma_mul_basics(w2n as int);
            vstd::arithmetic::mul::lemma_mul_basics(w3n as int);
            vstd::arithmetic::mul::lemma_mul_basics(c1n as int);
            lemma_congruent_eq(fmul(w2n, 0), 0);
            lemma_congruent_eq(fmul(w3n, 0), 0);
            lemma_congruent_eq(fmul(c1n, 0), 0);
        }
        assert(fsub(0, 0) == 0) by {
            lemma_congruent_eq(fsub(0, 0), 0);
        }
        assert(fadd(0, 0) == 0) by {
            lemma_congruent_eq(fadd(0, 0), 0);
        }
    } else {
        let j = i - 1;
        lemma_c_sum_t0(n, index, y, w, i - 1);
        let prev = c_sum(b, yn, w, i - 1);
        let cjn = fadd(fmul(yn[j], c1n), fsub(fmul(w2n, b[j]), w3n));
        assert(c_sum(b, yn, w, i) == fadd(prev, cjn));
        let iw2 = w2n as int;
        let iw3 = w3n as int;
        let ic1 = c1n as int;
        let iynj = yn[j] as int;
        let ibs = bsel(index, i - 1) as int;
        let ibj = b[j] as int;
        let ins = n_sum(i - 1) as int;
        let ips = pow_sum(y, i - 1) as int;
        let a1 = fmul(w2n, bsel(index, i - 1));
        let a2 = fmul(w3n, n_sum(i - 1));
        let a3 = fmul(c1n, pow_sum(y, i - 1));
        let goal = (iw2 * ibs - iw3 * ins) + ic1 * ips + (iynj * ic1 + (iw2 * ibj - iw3));
        assert(congruent(fadd(prev, cjn) as int, goal)) by {
            lemma_fmul_congruent(w2n, bsel(index, i - 1));
            lemma_fmul_congruent(w3n, n_sum(i - 1));
            lemma_fmul_congruent(c1n, pow_sum(y, i - 1));
            lemma_fsub_congruent(a1, a2);
            lemma_congruent_sub(a1 as int, iw2 * ibs, a2 as int, iw3 * ins);
            lemma_fadd_congruent(fsub(a1, a2), a3);
            lemma_congruent_add(fsub(a1, a2) as int, iw2 * ibs - iw3 * ins, a3 as int, ic1 * ips);
            lemma_fmul_congruent(yn[j], c1n);
            lemma_fmul_congruent(w2n, b[j]);
            lemma_fsub_congruent(fmul(w2n, b[j]), w3n);
            lemma_congruent_sub(fmul(w2n, b[j]) as int, iw2 * ibj, iw3, iw3);
            lemma_fadd_congruent(fmul(yn[j], c1n), fsub(fmul(w2n, b[j]), w3n));
            lemma_congruent_add(
                fmul(yn[j], c1n) as int,
                iynj * ic1,
                fsub(fmul(w2n, b[j]), w3n) as int,
                iw2 * ibj - iw3,
            );
            lemma_fadd_congruent(prev, cjn);
            lemma_congruent_add(
                prev as int,
                (iw2 * ibs - iw3 * ins) + ic1 * ips,
                cjn as int,
                iynj * ic1 + (iw2 * ibj - iw3),
            );
        }
        let b1 = fmul(w2n, bsel(index, i));
        let b2 = fmul(w3n, n_sum(i));
        let b3 = fmul(c1n, pow_sum(y, i));
        let rhs = fadd(fsub(b1, b2), b3);
        assert(bsel(index, i) == bsel(index, i - 1) + b[j]);
        assert(congruent(rhs as int, goal)) by {
            lemma_fmul_congruent(w2n, bsel(index, i));
            vstd::arithmetic::mul::lemma_mul_is_distributive_add(iw2, ibs, ibj);
            assert(n_sum(i) == fadd(n_sum(i - 1), 1));
            lemma_fadd_congruent(n_sum(i - 1), 1);
            lemma_fmul_congruent(w3n, n_sum(i));
            lemma_congruent_mul(iw3, iw3, n_sum(i) as int, ins + 1);
            vstd::arithmetic::mul::lemma_mul_is_distributive_add(iw3, ins, 1);
            vstd::arithmetic::mul::lemma_mul_basics(iw3);
            assert(pow_sum(y, i) == fadd(pow_sum(y, i - 1), fpow(y, j as nat)));
            assert(yn[j] == fpow(y, j as nat));
            lemma_fadd_congruent(pow_sum(y, i - 1), fpow(y, j as nat));
            lemma_fmul_congruent(c1n, pow_sum(y, i));
            lemma_congruent_mul(ic1, ic1, pow_sum(y, i) as int, ips + iynj);
            vstd::arithmetic::mul::lemma_mul_is_distributive_add(ic1, ips, iynj);
            vstd::arithmetic::mul::lemma_mul_is_commutative(ic1, iynj);
            lemma_fsub_congruent(b1, b2);
            lemma_congruent_sub(b1 as int, iw2 * ibs + iw2 * ibj, b2 as int, iw3 * ins + iw3);
            lemma_fadd_congruent(fsub(b1, b2), b3);
            lemma_congruent_add(
                fsub(b1, b2) as int,
                (iw2 * ibs + iw2 * ibj) - (iw3 * ins + iw3),
                b3 as int,
                ic1 * ips + ic1 * iynj,
            );
        }
        assert(fadd(prev, cjn) < group_order() && rhs < group_order()) by {
            lemma_fadd_congruent(prev, cjn);
            lemma_fadd_congruent(fsub(b1, b2), b3);
        }
        lemma_congruent_eq(fadd(prev, cjn), rhs);
    }
}

/// The polynomial consistency of a conversion: the opened inner product
/// `t_x = Σ l_i·r_i` equals `t₀ + t₁·x + t₂·x²`, for the conversion's own
/// `l⃗`, `r⃗`, `t₁`, `t₂` and the verifier's `t₀`, over any ring size, any
/// selected index and any challenge values.
pub proof fn lemma_tx_consistency(
    n: nat,
    index: int,
    s_b: Seq<nat>,
    s_a: Seq<nat>,
    y: nat,
    w: nat,
    x: nat,
)
    requires
        0 <= index < n,
        s_b.len() == n,
        s_a.len() == n,
    ensures
        ({
            let b = b_vec(n, index);
            let a = a_vec(b);
            let yn = yn_seq(y, n);
            let lv = Seq::new(n, |i: int| fadd(fsub(b[i], w), fmul(s_b[i], x)));
            let rv = Seq::new(
                n,
                |i: int| fadd(fmul(yn[i], fadd(fadd(a[i], w), fmul(s_a[i], x))), fmul(w, w)),
            );
            ip_sum(lv, rv, n as int) == fadd(
                fadd(t0_spec(w, y, n as int), fmul(t1_sum(s_b, b, s_a, a, yn, w, n as int), x)),
                fmul(fmul(t2_sum(s_b, s_a, yn, n as int), x), x),
            )
        }),
{
    let b = b_vec(n, index);
    let a = a_vec(b);
    let yn = yn_seq(y, n);
    let lv = Seq::new(n, |i: int| fadd(fsub(b[i], w), fmul(s_b[i], x)));
    let rv = Seq::new(
        n,
        |i: int| fadd(fmul(yn[i], fadd(fadd(a[i], w), fmul(s_a[i], x))), fmul(w, w)),
    );
    lemma_sum_identity(b, a, s_b, s_a, yn, w, x, lv, rv, n as int);
    lemma_c_sum_t0(n, index, y, w, n as int);
    assert(bsel(index, n as int) == 1);
    lemma_fmul_congruent(w, w);
    lemma_fmul_one(fmul(w, w));
}

/// The per-invocation secret randomness of a conversion.
pub struct ConvertRand {
    pub beta: nat,
    pub r_z: nat,
    pub r_beta: nat,
    pub alpha: nat,
    pub rho: nat,
    pub zeta: nat,
    pub s_a: Seq<nat>,
    pub s_b: Seq<nat>,
    pub tau1: nat,
    pub tau2: nat,
}

/// Whether a randomness record fits a ring of `n` members.
pub open spec fn rand_wf(rnd: ConvertRand, n: int) -> bool {
    &&& rnd.s_a.len() == n
    &&& rnd.s_b.len() == n
    &&& rnd.beta < group_order()
    &&& rnd.r_z < group_order()
    &&& rnd.r_beta < group_order()
    &&& rnd.alpha < group_order()
    &&& rnd.rho < group_order()
    &&& rnd.zeta < group_order()
    &&& rnd.tau1 < group_order()
    &&& rnd.tau2 < group_order()
    &&& (forall|i: int| 0 <= i < n ==> rnd.s_a[i] < group_order())
    &&& (forall|i: int| 0 <= i < n ==> rnd.s_b[i] < group_order())
}

/// The polynomial coefficient `t₁` of the one-of-many proof.
pub open spec fn t1_sum(
    s_b: Seq<nat>,
    b: Seq<nat>,
    s_a: Seq<nat>,
    a: Seq<nat>,
    yn: Seq<nat>,
    w: nat,
    n: int,
) -> nat
    decreases n,
{
    if n <= 0 {
        0
    } else {
        let i = n - 1;
        let term1 = fmul(s_b[i], fadd(fmul(yn[i], fadd(a[i], w)), fmul(w, w)));
        let term2 = fmul(fsub(b[i], w), fmul(yn[i], s_a[i]));
        fadd(fadd(t1_sum(s_b, b, s_a, a, yn, w, n - 1), term1), term2)
    }
}

/// The polynomial coefficient `t₂` of the one-of-many proof.
pub open spec fn t2_sum(s_b: Seq<nat>, s_a: Seq<nat>, yn: Seq<nat>, n: int) -> nat
    decreases n,
{
    if n <= 0 {
        0
    } else {
        fadd(t2_sum(s_b, s_a, yn, n - 1), fmul(fmul(s_b[n - 1], yn[n - 1]), s_a[n - 1]))
    }
}

/// What a conversion computes from its inputs and its drawn randomness:
/// the emitted signature, and whether every challenge that must be
/// inverted along the way is nonzero.
pub struct ConvertOutcome {
    pub sig: IncSigModel,
    pub ok: bool,
}

/// The conversion, §-by-§: commit to the signer's key, prove a Schnorr
/// witness for the commitment, commit to the selection bit vector, open the
/// polynomial identity, and close with the inner-product proof.
pub open spec fn convert_outcome(
    pm: ParamsModel,
    pks: Seq<Seq<u8>>,
    m: Seq<u8>,
    sig_r: Seq<u8>,
    sig_z: nat,
    index: int,
    rnd: ConvertRand,
) -> ConvertOutcome {
    let n = pks.len() as int;
    let c = schnorr_challenge(sig_r, m);
    let c_pk = p_add(p_mul(pm.g, rnd.beta), pks[index]);
    let r_z_pt = p_add(p_mul(generator_repr(), rnd.r_z), p_mul(p_mul(pm.g, rnd.r_beta), c));
    let c_z = cz_challenge(r_z_pt, c_pk);
    let s_z = fadd(rnd.r_z, fmul(c_z, sig_z));
    let s_beta = fadd(rnd.r_beta, fmul(c_z, rnd.beta));
    let b = b_vec(n as nat, index);
    let a = a_vec(b);
    let pt_a = p_msm2_from(p_mul(pm.h, rnd.alpha), pm.vec_g, b, pm.vec_h, a, n);
    let pt_s = p_msm2_from(p_mul(pm.h, rnd.rho), pm.vec_g, rnd.s_b, pm.vec_h, rnd.s_a, n);
    let pt_s_pk = p_msm1_from(p_mul(pm.g, rnd.zeta), pks, rnd.s_b, n);
    let y = y_challenge(pm.g, pt_a, pt_s, pt_s_pk, c_pk);
    let w = w_challenge(pm.g, pt_a, pt_s, pt_s_pk, c_pk);
    let yn = yn_seq(y, n as nat);
    let t1 = t1_sum(rnd.s_b, b, rnd.s_a, a, yn, w, n);
    let t2 = t2_sum(rnd.s_b, rnd.s_a, yn, n);
    let pt_t1 = p_add(p_mul(generator_repr(), t1), p_mul(pm.h, rnd.tau1));
    let pt_t2 = p_add(p_mul(generator_repr(), t2), p_mul(pm.h, rnd.tau2));
    let x = x_challenge(pt_t1, pt_t2, y, w);
    let taux = fadd(fmul(fmul(rnd.tau2, x), x), fmul(rnd.tau1, x));
    let mu = fadd(rnd.alpha, fmul(rnd.rho, x));
    let nu = fadd(rnd.beta, fmul(rnd.zeta, x));
    let lv = Seq::new(n as nat, |i: int| fadd(fsub(b[i], w), fmul(rnd.s_b[i], x)));
    let rv = Seq::new(
        n as nat,
        |i: int| fadd(fmul(yn[i], fadd(fadd(a[i], w), fmul(rnd.s_a[i], x))), fmul(w, w)),
    );
    let tx = ip_sum(lv, rv, n);
    let d = d_challenge(x, taux, mu, nu, tx);
    let yn_inv = yn_seq(finv(y), n as nat);
    let base1 = Seq::new(n as nat, |i: int| p_add(pm.vec_g[i], p_mul(pks[i], d)));
    let base2 = Seq::new(n as nat, |i: int| p_mul(pm.vec_h[i], yn_inv[i]));
    let bp_target = p_msm2(base1, lv, base2, rv, n);
    let bp = bp_prove_spec(base1, base2, lv, rv, bp_target);
    ConvertOutcome {
        sig: IncSigModel {
            point_r: sig_r,
            point_c_pk: c_pk,
            point_r_z: r_z_pt,
            s_z,
            s_beta,
            point_a: pt_a,
            point_s: pt_s,
            point_s_pk: pt_s_pk,
            point_t1: pt_t1,
            point_t2: pt_t2,
            taux,
            mu,
            nu,
            tx,
            bulletproof: bp,
        },
        ok: y != 0 && bp_prove_oks(bp_target, bp_start(base1, base2, lv, rv, bp_target)),
    }
}

/// The scalar `t₀ = w² − w³·n + (w − w²)·Σ y^i` of the verifier.
pub open spec fn t0_spec(w: nat, y: nat, n: int) -> nat {
    fadd(
        fsub(fmul(w, w), fmul(fmul(fmul(w, w), w), n_sum(n))),
        fmul(fsub(w, fmul(w, w)), pow_sum(y, n)),
    )
}

/// The whole verification, check by check, as the verifier performs it.
pub open spec fn inc_verify_spec(
    pm: ParamsModel,
    maxn: int,
    pks: Seq<Seq<u8>>,
    m: Seq<u8>,
    sig: IncSigModel,
) -> Result<(), Error> {
    let n = pks.len() as int;
    let c = schnorr_challenge(sig.point_r, m);
    let c_z = cz_challenge(sig.point_r_z, sig.point_c_pk);
    let y = y_challenge(pm.g, sig.point_a, sig.point_s, sig.point_s_pk, sig.point_c_pk);
    let w = w_challenge(pm.g, sig.point_a, sig.point_s, sig.point_s_pk, sig.point_c_pk);
    let x = x_challenge(sig.point_t1, sig.point_t2, y, w);
    let t0 = t0_spec(w, y, n);
    let d = d_challenge(x, sig.taux, sig.mu, sig.nu, sig.tx);
    let yn = yn_seq(y, n as nat);
    let yn_inv = yn_seq(finv(y), n as nat);
    let base1 = Seq::new(n as nat, |i: int| p_add(pm.vec_g[i], p_mul(pks[i], d)));
    let base2 = Seq::new(n as nat, |i: int| p_mul(pm.vec_h[i], yn_inv[i]));
    let p1 = p_add(p_mul(p_mul(pm.g, d), sig.nu), p_mul(pm.h, sig.mu));
    let p2 = p_msm2_from(
        p_add(
            p_add(p_add(sig.point_a, p_mul(sig.point_s, x)), p_mul(sig.point_c_pk, d)),
            p_mul(p_mul(sig.point_s_pk, x), d),
        ),
        base1,
        Seq::new(n as nat, |i: int| fsub(0, w)),
        base2,
        Seq::new(n as nat, |i: int| fadd(fmul(w, yn[i]), fmul(w, w))),
        n,
    );
    if n > maxn {
        Err(Error::BadArguments)
    } else if p_add(p_mul(generator_repr(), sig.s_z), p_mul(p_mul(pm.g, sig.s_beta), c)) != p_add(
        p_add(sig.point_r_z, p_mul(sig.point_r, c_z)),
        p_mul(p_mul(sig.point_c_pk, c_z), c),
    ) {
        Err(Error::InvalidSignature)
    } else if p_add(p_mul(generator_repr(), sig.tx), p_mul(pm.h, sig.taux)) != p_add(
        p_add(p_mul(generator_repr(), t0), p_mul(sig.point_t1, x)),
        p_mul(p_mul(sig.point_t2, x), x),
    ) {
        Err(Error::InvalidSignature)
    } else if y == 0 {
        Err(Error::Internal)
    } else if !bp_shape_matches(sig.bulletproof, n) {
        Err(Error::InvalidSignature)
    } else if !bp_verify_oks(sig.bulletproof.target, sig.bulletproof.ls, sig.bulletproof.rs) {
        Err(Error::Internal)
    } else if !bp_accepts(sig.bulletproof, base1, base2) {
        Err(Error::InvalidSignature)
    } else if p_add(p1, sig.bulletproof.target) != p2 {
        Err(Error::InvalidSignature)
    } else {
        Ok(())
    }
}

/// Derives `H(R_z ‖ C_pk)`.
fn cz_challenge_exec(r_z: &Point, c_pk: &Point) -> (r: Scalar)
    ensures
        r@ == cz_challenge(r_z@, c_pk@),
{
    let mut t = r_z.to_bytes();
    let mut b = c_pk.to_bytes();
    t.append(&mut b);
    hash_to_scalar(&t)
}

/// Derives `H(g ‖ A ‖ S ‖ S_pk ‖ C_pk ‖ tail)` for a domain-separation byte.
fn yw_challenge_exec(g: &Point, a: &Point, s: &Point, s_pk: &Point, c_pk: &Point, tail: u8) -> (r: Scalar)
    ensures
        r@ == hash_scalar(g@ + a@ + s@ + s_pk@ + c_pk@ + seq![tail]),
{
    let mut t = g.to_bytes();
    let mut b1 = a.to_bytes();
    t.append(&mut b1);
    let mut b2 = s.to_bytes();
    t.append(&mut b2);
    let mut b3 = s_pk.to_bytes();
    t.append(&mut b3);
    let mut b4 = c_pk.to_bytes();
    t.append(&mut b4);
    let ghost before = t@;
    t.push(tail);
    proof {
        assert(t@ =~= before + seq![tail]);
    }
    hash_to_scalar(&t)
}

/// Derives `H(T₁ ‖ T₂ ‖ y ‖ w)`.
fn x_challenge_exec(t1: &Point, t2: &Point, y: &Scalar, w: &Scalar) -> (r: Scalar)
    ensures
        r@ == x_challenge(t1@, t2@, y@, w@),
{
    let mut t = t1.to_bytes();
    let mut b1 = t2.to_bytes();
    t.append(&mut b1);
    let mut b2 = y.to_bytes();
    t.append(&mut b2);
    let mut b3 = w.to_bytes();
    t.append(&mut b3);
    hash_to_scalar(&t)
}

/// Derives `H(x ‖ τ_x ‖ μ ‖ ν ‖ t_x)`.
fn d_challenge_exec(x: &Scalar, taux: &Scalar, mu: &Scalar, nu: &Scalar, tx: &Scalar) -> (r: Scalar)
    ensures
        r@ == d_challenge(x@, taux@, mu@, nu@, tx@),
{
    let mut t = x.to_bytes();
    let mut b1 = taux.to_bytes();
    t.append(&mut b1);
    let mut b2 = mu.to_bytes();
    t.append(&mut b2);
    let mut b3 = nu.to_bytes();
    t.append(&mut b3);
    let mut b4 = tx.to_bytes();
    t.append(&mut b4);
    hash_to_scalar(&t)
}

/// Builds the powers `(1, y, …, y^{n−1})`.
fn build_vec_yn(n: usize, y: &Scalar) -> (res: Vec<Scalar>)
    ensures
        res@.len() == n,
        vals(res@) == yn_seq(y@, n as nat),
{
    let mut res: Vec<Scalar> = Vec::new();
    let mut cur = Scalar::one();
    let mut i: usize = 0;
    while i < n
        invariant
            i <= n,
            res@.len() == i,
            cur@ == fpow(y@, i as nat),
            forall|j: int| 0 <= j < i ==> res@[j]@ == fpow(y@, j as nat),
        decreases n - i,
    {
        res.push(cur.duplicate());
        cur = cur.mul(y);
        i += 1;
    }
    proof {
        assert(vals(res@) =~= yn_seq(y@, n as nat));
    }
    res
}

/// Computes `init + Σ_{i<n} (g_i·x_i + h_i·y_i)`, adding term by term.
fn msm2_from_exec(
    init: Point,
    g: &[Point],
    x: &[Scalar],
    h: &[Point],
    y: &[Scalar],
    n: usize,
) -> (res: Point)
    requires
        n <= g@.len(),
        n <= x@.len(),
        n <= h@.len(),
        n <= y@.len(),
    ensures
        res@ == p_msm2_from(init@, views(g@), vals(x@), views(h@), vals(y@), n as int),
{
    let _gn = g.len();
    let _xn = x.len();
    let _hn = h.len();
    let _yn = y.len();
    let mut acc = init;
    let mut i: usize = 0;
    while i < n
        invariant
            i <= n,
            n <= g@.len() <= usize::MAX,
            n <= x@.len() <= usize::MAX,
            n <= h@.len() <= usize::MAX,
            n <= y@.len() <= usize::MAX,
            acc@ == p_msm2_from(init@, views(g@), vals(x@), views(h@), vals(y@), i as int),
        decreases n - i,
    {
        acc = acc.add(&g[i].mul(&x[i]));
        acc = acc.add(&h[i].mul(&y[i]));
        i += 1;
    }
    acc
}

/// Computes `init + Σ_{i<n} g_i·x_i`, adding term by term.
fn msm1_from_exec(init: Point, g: &[Point], x: &[Scalar], n: usize) -> (res: Point)
    requires
        n <= g@.len(),
        n <= x@.len(),
    ensures
        res@ == p_msm1_from(init@, views(g@), vals(x@), n as int),
{
    let _gn = g.len();
    let _xn = x.len();
    let mut acc = init;
    let mut i: usize = 0;
    while i < n
        invariant
            i <= n,
            n <= g@.len() <= usize::MAX,
            n <= x@.len() <= usize::MAX,
            acc@ == p_msm1_from(init@, views(g@), vals(x@), i as int),
        decreases n - i,
    {
        acc = acc.add(&g[i].mul(&x[i]));
        i += 1;
    }
    acc
}

impl<const MAXN: usize> IncognitoParams<MAXN> {
    #[verifier::type_invariant]
    pub open spec fn wf(self) -> bool {
        self@.vec_g.len() == MAXN as nat && self@.vec_h.len() == MAXN as nat
    }

    /// Draws a fresh common reference string: `2·MAXN + 2` random points.
    pub fn new() -> (r: Self)
        ensures
            r@.vec_g.len() == MAXN as nat,
            r@.vec_h.len() == MAXN as nat,
    {
        let g = Point::random();
        let h = Point::random();
        let mut vec_g: Vec<Point> = Vec::new();
        let mut i: usize = 0;
        while i < MAXN
            invariant
                i <= MAXN,
                vec_g@.len() == i,
            decreases MAXN - i,
        {
            vec_g.push(Point::random());
            i += 1;
        }
        let mut vec_h: Vec<Point> = Vec::new();
        let mut k: usize = 0;
        while k < MAXN
            invariant
                k <= MAXN,
                vec_h@.len() == k,
            decreases MAXN - k,
        {
            vec_h.push(Point::random());
            k += 1;
        }
        IncognitoParams { g, h, vec_g, vec_h }
    }

    /// Verifies an incognito signature against the ring and message:
    /// re-derives every Fiat–Shamir challenge, checks the blinded-key
    /// Schnorr equation, the polynomial identity, the inner-product proof
    /// and its binding to the commitments.
    #[verifier::rlimit(100)]
    pub fn verify(
        &self,
        pks: &[Point],
        message: &[u8],
        signature: &IncognitoSignature,
    ) -> (res: Result<(), Error>)
        ensures
            res == inc_verify_spec(self@, MAXN as int, views(pks@), message@, signature@),
    {
        let n = pks.len();
        if n > MAXN {
            return Err(Error::BadArguments);
        }
        proof {
            use_type_invariant(self);
            assert(views(pks@).len() == pks@.len());
        }
        let c = SchnorrSignature::challenge(&signature.point_r, message);
        let c_z = cz_challenge_exec(&signature.point_r_z, &signature.point_c_pk);
        let y = yw_challenge_exec(
            &self.g,
            &signature.point_a,
            &signature.point_s,
            &signature.point_s_pk,
            &signature.point_c_pk,
            0u8,
        );
        let w = yw_challenge_exec(
            &self.g,
            &signature.point_a,
            &signature.point_s,
            &signature.point_s_pk,
            &signature.point_c_pk,
            1u8,
        );
        let lhs1 = Point::generator().mul(&signature.s_z).add(
            &self.g.mul(&signature.s_beta).mul(&c),
        );
        let rhs1 = signature.point_r_z.add(&signature.point_r.mul(&c_z)).add(
            &signature.point_c_pk.mul(&c_z).mul(&c),
        );
        if !lhs1.equals(&rhs1) {
            return Err(Error::InvalidSignature);
        }
        let x = x_challenge_exec(&signature.point_t1, &signature.point_t2, &y, &w);
        let one = Scalar::one();
        let mut scalar_n = Scalar::zero();
        let mut scalar_sum_yn = Scalar::zero();
        let mut yn_cur = Scalar::one();
        let mut i: usize = 0;
        while i < n
            invariant
                i <= n,
                one@ == 1,
                scalar_n@ == n_sum(i as int),
                scalar_sum_yn@ == pow_sum(y@, i as int),
                yn_cur@ == fpow(y@, i as nat),
            decreases n - i,
        {
            scalar_n = scalar_n.add(&one);
            scalar_sum_yn = scalar_sum_yn.add(&yn_cur);
            yn_cur = yn_cur.mul(&y);
            i += 1;
        }
        let w2 = w.mul(&w);
        let t0 = w2.sub(&w2.mul(&w).mul(&scalar_n)).add(&w.sub(&w2).mul(&scalar_sum_yn));
        proof {
            assert(t0@ == t0_spec(w@, y@, n as int));
        }
        let lhs2 = Point::generator().mul(&signature.tx).add(&self.h.mul(&signature.taux));
        let rhs2 = Point::generator().mul(&t0).add(&signature.point_t1.mul(&x)).add(
            &signature.point_t2.mul(&x).mul(&x),
        );
        if !lhs2.equals(&rhs2) {
            return Err(Error::InvalidSignature);
        }
        let y_inv;
        match y.invert() {
            Some(v) => {
                y_inv = v;
            },
            None => {
                return Err(Error::Internal);
            },
        }
        let vec_yn = build_vec_yn(n, &y);
        let vec_yn_inv = build_vec_yn(n, &y_inv);
        let d = d_challenge_exec(&x, &signature.taux, &signature.mu, &signature.nu, &signature.tx);
        let ghost base1_spec = Seq::new(
            n as nat,
            |j: int| p_add(self@.vec_g[j], p_mul(views(pks@)[j], d@)),
        );
        let ghost base2_spec = Seq::new(
            n as nat,
            |j: int| p_mul(self@.vec_h[j], yn_seq(finv(y@), n as nat)[j]),
        );
        let mut base1: Vec<Point> = Vec::new();
        let mut k1: usize = 0;
        while k1 < n
            invariant
                k1 <= n,
                n <= self.vec_g@.len(),
                n <= pks@.len(),
                base1@.len() == k1,
                forall|j: int|
                    0 <= j < k1 ==> base1@[j]@ == p_add(
                        views(self.vec_g@)[j],
                        p_mul(views(pks@)[j], d@),
                    ),
            decreases n - k1,
        {
            base1.push(self.vec_g[k1].add(&pks[k1].mul(&d)));
            k1 += 1;
        }
        let mut base2: Vec<Point> = Vec::new();
        let mut k2: usize = 0;
        while k2 < n
            invariant
                k2 <= n,
                n <= self.vec_h@.len(),
                n == vec_yn_inv@.len(),
                base2@.len() == k2,
                forall|j: int|
                    0 <= j < k2 ==> base2@[j]@ == p_mul(
                        views(self.vec_h@)[j],
                        vals(vec_yn_inv@)[j],
                    ),
            decreases n - k2,
        {
            base2.push(self.vec_h[k2].mul(&vec_yn_inv[k2]));
            k2 += 1;
        }
        proof {
            assert(views(base1@) =~= base1_spec);
            assert(views(base2@) =~= base2_spec);
        }
        let p1 = self.g.mul(&d).mul(&signature.nu).add(&self.h.mul(&signature.mu));
        let init2 = signature.point_a.add(&signature.point_s.mul(&x)).add(
            &signature.point_c_pk.mul(&d),
        ).add(&signature.point_s_pk.mul(&x).mul(&d));
        let zero = Scalar::zero();
        let neg_w = zero.sub(&w);
        let mut neg_w_vec: Vec<Scalar> = Vec::new();
        let mut k3: usize = 0;
        while k3 < n
            invariant
                k3 <= n,
                neg_w@ == fsub(0, w@),
                neg_w_vec@.len() == k3,
                forall|j: int| 0 <= j < k3 ==> neg_w_vec@[j]@ == fsub(0, w@),
            decreases n - k3,
        {
            neg_w_vec.push(neg_w.duplicate());
            k3 += 1;
        }
        let mut mult2_vec: Vec<Scalar> = Vec::new();
        let mut k4: usize = 0;
        while k4 < n
            invariant
                k4 <= n,
                n == vec_yn@.len(),
                w2@ == fmul(w@, w@),
                mult2_vec@.len() == k4,
                forall|j: int|
                    0 <= j < k4 ==> mult2_vec@[j]@ == fadd(
                        fmul(w@, vals(vec_yn@)[j]),
                        fmul(w@, w@),
                    ),
            decreases n - k4,
        {
            mult2_vec.push(w.mul(&vec_yn[k4]).add(&w2));
            k4 += 1;
        }
        proof {
            assert(vals(neg_w_vec@) =~= Seq::new(n as nat, |j: int| fsub(0, w@)));
            assert(vals(mult2_vec@) =~= Seq::new(
                n as nat,
                |j: int| fadd(fmul(w@, yn_seq(y@, n as nat)[j]), fmul(w@, w@)),
            ));
        }
        let p2 = msm2_from_exec(init2, base1.as_slice(), neg_w_vec.as_slice(), base2.as_slice(), mult2_vec.as_slice(), n);
        proof {
            crate::bulletproof::lemma_bp_view(&signature.bulletproof);
        }
        match signature.bulletproof.verify(base1.as_slice(), base2.as_slice()) {
            Ok(()) => {},
            Err(e) => {
                return Err(e);
            },
        }
        if p1.add(&signature.bulletproof.target).equals(&p2) {
            Ok(())
        } else {
            Err(Error::InvalidSignature)
        }
    }

    /// Converts a Schnorr signature under the ring member at `index` into
    /// an incognito signature: commits to the signer's key with a fresh
    /// blinder, proves knowledge of `(z, β)` for the commitment, commits to
    /// the selection bit vector, opens the polynomial identity at the
    /// challenge point, and closes with the inner-product proof. The
    /// opened inner product always satisfies `t_x = t₀ + t₁·x + t₂·x²`:
    /// see `lemma_tx_consistency`.
    #[verifier::rlimit(100)]
    pub fn convert(
        &self,
        pks: &[Point],
        message: &[u8],
        signature: &SchnorrSignature,
        index: usize,
    ) -> (res: Result<IncognitoSignature, Error>)
        ensures
            ({
                let n = pks@.len() as int;
                let args_ok = n <= MAXN as int && (index as int) < n && is_pow2(n);
                &&& (!args_ok <==> res == Err::<IncognitoSignature, Error>(Error::BadArguments))
                &&& (args_ok ==> res is Ok || res == Err::<IncognitoSignature, Error>(
                    Error::Internal,
                ))
                &&& (res == Err::<IncognitoSignature, Error>(Error::Internal)
                    ==> exists|rnd: ConvertRand|
                    rand_wf(rnd, n) && !(#[trigger] convert_outcome(
                        self@,
                        views(pks@),
                        message@,
                        signature.point_r@,
                        signature.z@,
                        index as int,
                        rnd,
                    )).ok)
                &&& (res matches Ok(sig) ==> exists|rnd: ConvertRand|
                    rand_wf(rnd, n) && (#[trigger] convert_outcome(
                        self@,
                        views(pks@),
                        message@,
                        signature.point_r@,
                        signature.z@,
                        index as int,
                        rnd,
                    )).ok && sig@ == convert_outcome(
                        self@,
                        views(pks@),
                        message@,
                        signature.point_r@,
                        signature.z@,
                        index as int,
                        rnd,
                    ).sig)
            }),
    {
        let n = pks.len();
        if n > MAXN || index >= n || !is_pow2_exec(n) {
            return Err(Error::BadArguments);
        }
        proof {
            use_type_invariant(self);
            assert(views(pks@).len() == pks@.len());
        }
        let beta = Scalar::random();
        let point_c_pk = self.g.mul(&beta).add(&pks[index]);
        let r_z = Scalar::random();
        let r_beta = Scalar::random();
        let c = SchnorrSignature::challenge(&signature.point_r, message);
        let point_r_z = Point::generator().mul(&r_z).add(&self.g.mul(&r_beta).mul(&c));
        let c_z = cz_challenge_exec(&point_r_z, &point_c_pk);
        let s_z = r_z.add(&c_z.mul(&signature.z));
        let s_beta = r_beta.add(&c_z.mul(&beta));
        let alpha = Scalar::random();
        let rho = Scalar::random();
        let zeta = Scalar::random();
        let mut vec_s_a: Vec<Scalar> = Vec::new();
        let mut i1: usize = 0;
        while i1 < n
            invariant
                i1 <= n,
                vec_s_a@.len() == i1,
                forall|j: int| 0 <= j < i1 ==> vec_s_a@[j]@ < group_order(),
            decreases n - i1,
        {
            let sc = Scalar::random();
            proof {
                use_type_invariant(&sc);
            }
            vec_s_a.push(sc);
            i1 += 1;
        }
        let mut vec_s_b: Vec<Scalar> = Vec::new();
        let mut i2: usize = 0;
        while i2 < n
            invariant
                i2 <= n,
                vec_s_b@.len() == i2,
                forall|j: int| 0 <= j < i2 ==> vec_s_b@[j]@ < group_order(),
            decreases n - i2,
        {
            let sc = Scalar::random();
            proof {
                use_type_invariant(&sc);
            }
            vec_s_b.push(sc);
            i2 += 1;
        }
        let ghost b = b_vec(n as nat, index as int);
        let ghost a = a_vec(b);
        let mut vec_b: Vec<Scalar> = Vec::new();
        let mut i3: usize = 0;
        while i3 < n
            invariant
                i3 <= n,
                b == b_vec(n as nat, index as int),
                vec_b@.len() == i3,
                forall|j: int| 0 <= j < i3 ==> vec_b@[j]@ == b[j],
            decreases n - i3,
        {
            if i3 == index {
                vec_b.push(Scalar::one());
            } else {
                vec_b.push(Scalar::zero());
            }
            i3 += 1;
        }
        proof {
            assert(vals(vec_b@) =~= b);
        }
        let one = Scalar::one();
        let mut vec_a: Vec<Scalar> = Vec::new();
        let mut i4: usize = 0;
        while i4 < n
            invariant
                i4 <= n,
                one@ == 1,
                n == vec_b@.len(),
                vals(vec_b@) == b,
                a == a_vec(b),
                b.len() == n,
                vec_a@.len() == i4,
                forall|j: int| 0 <= j < i4 ==> vec_a@[j]@ == a[j],
            decreases n - i4,
        {
            vec_a.push(vec_b[i4].sub(&one));
            i4 += 1;
        }
        proof {
            assert(vals(vec_a@) =~= a);
        }
        let point_a = msm2_from_exec(
            self.h.mul(&alpha),
            self.vec_g.as_slice(),
            vec_b.as_slice(),
            self.vec_h.as_slice(),
            vec_a.as_slice(),
            n,
        );
        let point_s = msm2_from_exec(
            self.h.mul(&rho),
            self.vec_g.as_slice(),
            vec_s_b.as_slice(),
            self.vec_h.as_slice(),
            vec_s_a.as_slice(),
            n,
        );
        let point_s_pk = msm1_from_exec(self.g.mul(&zeta), pks, vec_s_b.as_slice(), n);
        let y = yw_challenge_exec(&self.g, &point_a, &point_s, &point_s_pk, &point_c_pk, 0u8);
        let w = yw_challenge_exec(&self.g, &point_a, &point_s, &point_s_pk, &point_c_pk, 1u8);
        let vec_yn = build_vec_yn(n, &y);
        let w2 = w.mul(&w);
        let mut t1 = Scalar::zero();
        let mut t2 = Scalar::zero();
        let mut i5: usize = 0;
        while i5 < n
            invariant
                i5 <= n,
                w2@ == fmul(w@, w@),
                n == vec_b@.len() && n == vec_a@.len() && n == vec_s_a@.len() && n
                    == vec_s_b@.len() && n == vec_yn@.len(),
                vals(vec_b@) == b && vals(vec_a@) == a,
                vals(vec_yn@) == yn_seq(y@, n as nat),
                t1@ == t1_sum(vals(vec_s_b@), b, vals(vec_s_a@), a, vals(vec_yn@), w@, i5 as int),
                t2@ == t2_sum(vals(vec_s_b@), vals(vec_s_a@), vals(vec_yn@), i5 as int),
            decreases n - i5,
        {
            t1 = t1.add(&vec_s_b[i5].mul(&vec_yn[i5].mul(&vec_a[i5].add(&w)).add(&w2)));
            t1 = t1.add(&vec_b[i5].sub(&w).mul(&vec_yn[i5].mul(&vec_s_a[i5])));
            t2 = t2.add(&vec_s_b[i5].mul(&vec_yn[i5]).mul(&vec_s_a[i5]));
            i5 += 1;
        }
        let tau1 = Scalar::random();
        let tau2 = Scalar::random();
        proof {
            use_type_invariant(&beta);
            use_type_invariant(&r_z);
            use_type_invariant(&r_beta);
            use_type_invariant(&alpha);
            use_type_invariant(&rho);
            use_type_invariant(&zeta);
            use_type_invariant(&tau1);
            use_type_invariant(&tau2);
        }
        let ghost rnd = ConvertRand {
            beta: beta@,
            r_z: r_z@,
            r_beta: r_beta@,
            alpha: alpha@,
            rho: rho@,
            zeta: zeta@,
            s_a: vals(vec_s_a@),
            s_b: vals(vec_s_b@),
            tau1: tau1@,
            tau2: tau2@,
        };
        let ghost out = convert_outcome(
            self@,
            views(pks@),
            message@,
            signature.point_r@,
            signature.z@,
            index as int,
            rnd,
        );
        proof {
            assert(rand_wf(rnd, n as int));
        }
        let point_t1 = Point::generator().mul(&t1).add(&self.h.mul(&tau1));
        let point_t2 = Point::generator().mul(&t2).add(&self.h.mul(&tau2));
        let x = x_challenge_exec(&point_t1, &point_t2, &y, &w);
        let taux = tau2.mul(&x).mul(&x).add(&tau1.mul(&x));
        let mu = alpha.add(&rho.mul(&x));
        let nu = beta.add(&zeta.mul(&x));
        let ghost lv = Seq::new(
            n as nat,
            |j: int| fadd(fsub(b[j], w@), fmul(vals(vec_s_b@)[j], x@)),
        );
        let ghost rv = Seq::new(
            n as nat,
            |j: int| fadd(
                fmul(vals(vec_yn@)[j], fadd(fadd(a[j], w@), fmul(vals(vec_s_a@)[j], x@))),
                fmul(w@, w@),
            ),
        );
        let mut vec_l: Vec<Scalar> = Vec::new();
        let mut i6: usize = 0;
        while i6 < n
            invariant
                i6 <= n,
                n == vec_b@.len() && n == vec_s_b@.len(),
                vals(vec_b@) == b,
                lv == Seq::new(
                    n as nat,
                    (|j: int| fadd(fsub(b[j], w@), fmul(vals(vec_s_b@)[j], x@))),
                ),
                vec_l@.len() == i6,
                forall|j: int| 0 <= j < i6 ==> vec_l@[j]@ == lv[j],
            decreases n - i6,
        {
            vec_l.push(vec_b[i6].sub(&w).add(&vec_s_b[i6].mul(&x)));
            i6 += 1;
        }
        proof {
            assert(vals(vec_l@) =~= lv);
        }
        let mut vec_r: Vec<Scalar> = Vec::new();
        let mut i7: usize = 0;
        while i7 < n
            invariant
                i7 <= n,
                w2@ == fmul(w@, w@),
                n == vec_a@.len() && n == vec_s_a@.len() && n == vec_yn@.len(),
                vals(vec_a@) == a,
                rv == Seq::new(
                    n as nat,
                    (|j: int| fadd(
                        fmul(vals(vec_yn@)[j], fadd(fadd(a[j], w@), fmul(vals(vec_s_a@)[j], x@))),
                        fmul(w@, w@),
                    )),
                ),
                vec_r@.len() == i7,
                forall|j: int| 0 <= j < i7 ==> vec_r@[j]@ == rv[j],
            decreases n - i7,
        {
            vec_r.push(vec_yn[i7].mul(&vec_a[i7].add(&w).add(&vec_s_a[i7].mul(&x))).add(&w2));
            i7 += 1;
        }
        proof {
            assert(vals(vec_r@) =~= rv);
        }
        let mut tx = Scalar::zero();
        let mut i8: usize = 0;
        while i8 < n
            invariant
                i8 <= n,
                n == vec_l@.len() && n == vec_r@.len(),
                vals(vec_l@) == lv && vals(vec_r@) == rv,
                tx@ == ip_sum(lv, rv, i8 as int),
            decreases n - i8,
        {
            tx = tx.add(&vec_l[i8].mul(&vec_r[i8]));
            i8 += 1;
        }
        let d = d_challenge_exec(&x, &taux, &mu, &nu, &tx);
        let y_inv;
        match y.invert() {
            Some(v) => {
                y_inv = v;
            },
            None => {
                proof {
                    assert(!out.ok);
                }
                return Err(Error::Internal);
            },
        }
        let vec_yn_inv = build_vec_yn(n, &y_inv);
        let mut base1: Vec<Point> = Vec::new();
        let mut k1: usize = 0;
        while k1 < n
            invariant
                k1 <= n,
                n <= self.vec_g@.len(),
                n <= pks@.len(),
                base1@.len() == k1,
                forall|j: int|
                    0 <= j < k1 ==> base1@[j]@ == p_add(
                        views(self.vec_g@)[j],
                        p_mul(views(pks@)[j], d@),
                    ),
            decreases n - k1,
        {
            base1.push(self.vec_g[k1].add(&pks[k1].mul(&d)));
            k1 += 1;
        }
        let mut base2: Vec<Point> = Vec::new();
        let mut k2: usize = 0;
        while k2 < n
            invariant
                k2 <= n,
                n <= self.vec_h@.len(),
                n == vec_yn_inv@.len(),
                base2@.len() == k2,
                forall|j: int|
                    0 <= j < k2 ==> base2@[j]@ == p_mul(
                        views(self.vec_h@)[j],
                        vals(vec_yn_inv@)[j],
                    ),
            decreases n - k2,
        {
            base2.push(self.vec_h[k2].mul(&vec_yn_inv[k2]));
            k2 += 1;
        }
        let bp_target = msm2_exec(&base1, &vec_l, &base2, &vec_r, 0, 0, 0, 0, n);
        proof {
            assert(views(base1@).skip(0) =~= views(base1@));
            assert(views(base2@).skip(0) =~= views(base2@));
            assert(vals(vec_l@).skip(0) =~= vals(vec_l@));
            assert(vals(vec_r@).skip(0) =~= vals(vec_r@));
            assert(views(base1@) =~= Seq::new(
                n as nat,
                (|j: int| p_add(self@.vec_g[j], p_mul(views(pks@)[j], d@))),
            ));
            assert(views(base2@) =~= Seq::new(
                n as nat,
                (|j: int| p_mul(self@.vec_h[j], yn_seq(finv(y@), n as nat)[j])),
            ));
        }
        let bp;
        match BulletProof::prove(
            base1.as_slice(),
            base2.as_slice(),
            vec_l.as_slice(),
            vec_r.as_slice(),
            &bp_target,
        ) {
            Ok(v) => {
                bp = v;
            },
            Err(_) => {
                proof {
                    assert(!out.ok);
                }
                return Err(Error::Internal);
            },
        }
        let sig = IncognitoSignature {
            point_c_pk,
            point_r: signature.point_r.duplicate(),
            point_r_z,
            s_z,
            s_beta,
            point_a,
            point_s,
            point_s_pk,
            point_t1,
            point_t2,
            taux,
            mu,
            nu,
            tx,
            bulletproof: bp,
        };
        proof {
            assert(out.sig.bulletproof == sig@.bulletproof);
            assert(out.sig == sig@);
            assert(out.ok);
        }
        Ok(sig)
    }

    /// Serializes the parameter set: `g`, `h`, `G⃗`, `H⃗`, in the
    /// canonical codec. The output always parses back: see
    /// `codec::lemma_params_roundtrip`.
    pub fn serialize(&self) -> (r: Vec<u8>)
        ensures
            r@ == crate::codec::ser_params(self@),
            crate::codec::params_model_wf(self@, MAXN as nat),
    {
        proof {
            use_type_invariant(self);
        }
        let mut out = self.g.to_bytes();
        let mut hb = self.h.to_bytes();
        out.append(&mut hb);
        crate::codec::write_points(&mut out, &self.vec_g);
        crate::codec::write_points(&mut out, &self.vec_h);
        out
    }

    /// Parses a serialized parameter set of this capacity; accepts exactly
    /// the canonical form.
    pub fn deserialize(b: &[u8]) -> (r: Option<Self>)
        ensures
            r is Some <==> crate::codec::deser_params(b@, MAXN as nat) is Some,
            r matches Some(p) ==> crate::codec::deser_params(b@, MAXN as nat) == Some(p@),
    {
        let _bn = b.len();
        let g = match crate::codec::read_point(b, 0) {
            Some(p) => p,
            None => {
                return None;
            },
        };
        let h = match crate::codec::read_point(b, 33) {
            Some(p) => p,
            None => {
                return None;
            },
        };
        let k1 = match crate::codec::read_len(b, 66) {
            Some(k) => k,
            None => {
                return None;
            },
        };
        let vec_g = match crate::codec::read_points(b, 74, k1) {
            Some(v) => v,
            None => {
                return None;
            },
        };
        proof {
            crate::codec::lemma_points_at_bounds(b@, 74, k1 as nat);
        }
        let pos2 = 74 + 33 * k1;
        let k2 = match crate::codec::read_len(b, pos2) {
            Some(k) => k,
            None => {
                return None;
            },
        };
        let vec_h = match crate::codec::read_points(b, pos2 + 8, k2) {
            Some(v) => v,
            None => {
                return None;
            },
        };
        proof {
            crate::codec::lemma_points_at_bounds(b@, pos2 as int + 8, k2 as nat);
        }
        if k1 != MAXN || k2 != MAXN {
            return None;
        }
        if b.len() - pos2 - 8 != 33 * k2 {
            return None;
        }
        Some(IncognitoParams { g, h, vec_g, vec_h })
    }

    /// Structural equality of parameter sets: all five generator groups.
    pub fn equals(&self, other: &Self) -> (r: bool)
        ensures
            r <==> self@ == other@,
    {
        let r = self.g.equals(&other.g) && self.h.equals(&other.h) && points_eq(
            &self.vec_g,
            &other.vec_g,
        ) && points_eq(&self.vec_h, &other.vec_h);
        proof {
            if r {
                assert(self@ == other@);
            }
        }
        r
    }
}

impl IncognitoSignature {
    /// Serializes the signature field by field in declaration order, the
    /// inner-product proof last, in the canonical codec. The output always
    /// parses back: see `codec::lemma_incsig_roundtrip`.
    pub fn serialize(&self) -> (r: Vec<u8>)
        ensures
            r@ == crate::codec::ser_incsig(self@),
            crate::codec::incsig_model_wf(self@),
    {
        let mut out = self.point_r.to_bytes();
        let mut b1 = self.point_c_pk.to_bytes();
        out.append(&mut b1);
        let mut b2 = self.point_r_z.to_bytes();
        out.append(&mut b2);
        let mut b3 = self.s_z.to_bytes();
        out.append(&mut b3);
        let mut b4 = self.s_beta.to_bytes();
        out.append(&mut b4);
        let mut b5 = self.point_a.to_bytes();
        out.append(&mut b5);
        let mut b6 = self.point_s.to_bytes();
        out.append(&mut b6);
        let mut b7 = self.point_s_pk.to_bytes();
        out.append(&mut b7);
        let mut b8 = self.point_t1.to_bytes();
        out.append(&mut b8);
        let mut b9 = self.point_t2.to_bytes();
        out.append(&mut b9);
        let mut b10 = self.taux.to_bytes();
        out.append(&mut b10);
        let mut b11 = self.mu.to_bytes();
        out.append(&mut b11);
        let mut b12 = self.nu.to_bytes();
        out.append(&mut b12);
        let mut b13 = self.tx.to_bytes();
        out.append(&mut b13);
        let mut b14 = self.bulletproof.serialize();
        out.append(&mut b14);
        out
    }

    /// Parses a serialized signature; accepts exactly the canonical form.
    pub fn deserialize(b: &[u8]) -> (r: Option<Self>)
        ensures
            r is Some <==> crate::codec::deser_incsig(b@) is Some,
            r matches Some(s) ==> crate::codec::deser_incsig(b@) == Some(s@),
    {
        let _bn = b.len();
        if b.len() < 456 {
            return None;
        }
        let point_r = match crate::codec::read_point(b, 0) {
            Some(p) => p,
            None => {
                return None;
            },
        };
        let point_c_pk = match crate::codec::read_point(b, 33) {
            Some(p) => p,
            None => {
                return None;
            },
        };
        let point_r_z = match crate::codec::read_point(b, 66) {
            Some(p) => p,
            None => {
                return None;
            },
        };
        let s_z = match crate::codec::read_scalar(b, 99) {
            Some(s) => s,
            None => {
                return None;
            },
        };
        let s_beta = match crate::codec::read_scalar(b, 131) {
            Some(s) => s,
            None => {
                return None;
            },
        };
        let point_a = match crate::codec::read_point(b, 163) {
            Some(p) => p,
            None => {
                return None;
            },
        };
        let point_s = match crate::codec::read_point(b, 196) {
            Some(p) => p,
            None => {
                return None;
            },
        };
        let point_s_pk = match crate::codec::read_point(b, 229) {
            Some(p) => p,
            None => {
                return None;
            },
        };
        let point_t1 = match crate::codec::read_point(b, 262) {
            Some(p) => p,
            None => {
                return None;
            },
        };
        let point_t2 = match crate::codec::read_point(b, 295) {
            Some(p) => p,
            None => {
                return None;
            },
        };
        let taux = match crate::codec::read_scalar(b, 328) {
            Some(s) => s,
            None => {
                return None;
            },
        };
        let mu = match crate::codec::read_scalar(b, 360) {
            Some(s) => s,
            None => {
                return None;
            },
        };
        let nu = match crate::codec::read_scalar(b, 392) {
            Some(s) => s,
            None => {
                return None;
            },
        };
        let tx = match crate::codec::read_scalar(b, 424) {
            Some(s) => s,
            None => {
                return None;
            },
        };
        let tail = crate::codec::copy_range(b, 456, b.len() - 456);
        let bulletproof = match BulletProof::deserialize(tail.as_slice()) {
            Some(v) => v,
            None => {
                return None;
            },
        };
        Some(IncognitoSignature {
            point_r,
            point_c_pk,
            point_r_z,
            s_z,
            s_beta,
            point_a,
            point_s,
            point_s_pk,
            point_t1,
            point_t2,
            taux,
            mu,
            nu,
            tx,
            bulletproof,
        })
    }

    /// Component equality.
    pub fn equals(&self, other: &IncognitoSignature) -> (r: bool)
        ensures
            r <==> self@ == other@,
    {
        let r = self.point_r.equals(&other.point_r) && self.point_c_pk.equals(&other.point_c_pk)
            && self.point_r_z.equals(&other.point_r_z) && self.s_z.equals(&other.s_z)
            && self.s_beta.equals(&other.s_beta) && self.point_a.equals(&other.point_a)
            && self.point_s.equals(&other.point_s) && self.point_s_pk.equals(&other.point_s_pk)
            && self.point_t1.equals(&other.point_t1) && self.point_t2.equals(&other.point_t2)
            && self.taux.equals(&other.taux) && self.mu.equals(&other.mu) && self.nu.equals(
            &other.nu,
        ) && self.tx.equals(&other.tx) && self.bulletproof.equals(&other.bulletproof);
        proof {
            if r {
                assert(self@ == other@);
            }
        }
        r
    }
}

} // verus!
