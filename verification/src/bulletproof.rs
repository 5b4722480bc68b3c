//! The inner-product argument: a logarithmic-size proof that a committed
//! vector pair `(l, r)` satisfies `P = Σ G_i·l_i + Σ H_i·r_i` for public
//! bases `G⃗, H⃗` and a fixed target `P`.
//!
//! The prover halves the vectors round by round, publishing the cross terms
//! `L, R` of each round; every challenge is derived from the original
//! target and the round's cross terms. The specification below models the
//! rounds as a recursion over the state, so that both proving and
//! verification are pinned to the exact same folding.

use vstd::prelude::*;
use vstd::arithmetic::power2::{is_pow2, lemma_pow2_strictly_increases, lemma_pow2_unfold, lemma2_to64, pow2};
use crate::hash::{hash_scalar, hash_to_scalar};
use crate::points::{dup_points, p_add, p_mul, points_eq, views, Point};
use crate::scalars::{dup_scalars, fadd, finv, fmul, vals, Scalar};
use crate::Error;

verus! {

/// The abstract value of a proof: target, round cross terms, final scalars.
pub struct BpModel {
    pub target: Seq<u8>,
    pub ls: Seq<Seq<u8>>,
    pub rs: Seq<Seq<u8>>,
    pub l: nat,
    pub r: nat,
}

/// The prover's state at the start of a round.
pub struct BpState {
    pub g: Seq<Seq<u8>>,
    pub h: Seq<Seq<u8>>,
    pub l: Seq<nat>,
    pub r: Seq<nat>,
    pub p: Seq<u8>,
}

/// What one halving round publishes and the state it leaves.
pub struct BpRoundResult {
    pub l_pt: Seq<u8>,
    pub r_pt: Seq<u8>,
    pub next: BpState,
}

/// The transcript of all rounds: cross terms and the final state.
pub struct BpTranscript {
    pub ls: Seq<Seq<u8>>,
    pub rs: Seq<Seq<u8>>,
    pub st: BpState,
}

/// The verifier's state: the folding bases and the folded target.
pub struct BpVState {
    pub g: Seq<Seq<u8>>,
    pub h: Seq<Seq<u8>>,
    pub p: Seq<u8>,
}

/// The round challenge `H(P ‖ L ‖ R)`, over the original target.
pub open spec fn bp_challenge(target: Seq<u8>, pl: Seq<u8>, pr: Seq<u8>) -> nat {
    hash_scalar(target + pl + pr)
}

/// The running sum `Σ_{i<n} (g_i·x_i + h_i·y_i)`, folded left from `i = 0`.
pub open spec fn p_msm2(g: Seq<Seq<u8>>, x: Seq<nat>, h: Seq<Seq<u8>>, y: Seq<nat>, n: int) -> Seq<u8>
    decreases n,
{
    let t = p_add(p_mul(g[n - 1], x[n - 1]), p_mul(h[n - 1], y[n - 1]));
    if n <= 1 {
        t
    } else {
        p_add(p_msm2(g, x, h, y, n - 1), t)
    }
}

/// The initial prover state for given bases, vectors and target.
pub open spec fn bp_start(g: Seq<Seq<u8>>, h: Seq<Seq<u8>>, l: Seq<nat>, r: Seq<nat>, target: Seq<u8>) -> BpState {
    BpState { g, h, l, r, p: target }
}

/// One halving round of the prover.
pub open spec fn bp_round(target: Seq<u8>, st: BpState) -> BpRoundResult {
    let half = st.g.len() as int / 2;
    let l_pt = p_msm2(st.g.skip(half), st.l, st.h, st.r.skip(half), half);
    let r_pt = p_msm2(st.g, st.l.skip(half), st.h.skip(half), st.r, half);
    let x = bp_challenge(target, l_pt, r_pt);
    let xi = finv(x);
    let x2 = fmul(x, x);
    let xi2 = fmul(xi, xi);
    BpRoundResult {
        l_pt,
        r_pt,
        next: BpState {
            g: Seq::new(half as nat, |i: int| p_add(p_mul(st.g[i], xi), p_mul(st.g[half + i], x))),
            h: Seq::new(half as nat, |i: int| p_add(p_mul(st.h[i], x), p_mul(st.h[half + i], xi))),
            l: Seq::new(half as nat, |i: int| fadd(fmul(st.l[i], x), fmul(st.l[half + i], xi))),
            r: Seq::new(half as nat, |i: int| fadd(fmul(st.r[i], xi), fmul(st.r[half + i], x))),
            p: p_add(p_add(p_mul(l_pt, x2), st.p), p_mul(r_pt, xi2)),
        },
    }
}

/// All halving rounds of the prover, from a state down to one element.
pub open spec fn bp_prove_rounds(target: Seq<u8>, st: BpState) -> BpTranscript
    decreases st.g.len(),
{
    if st.g.len() <= 1 {
        BpTranscript { ls: Seq::empty(), rs: Seq::empty(), st }
    } else {
        let rr = bp_round(target, st);
        let rec = bp_prove_rounds(target, rr.next);
        BpTranscript { ls: seq![rr.l_pt] + rec.ls, rs: seq![rr.r_pt] + rec.rs, st: rec.st }
    }
}

/// Whether every round challenge of the prover is invertible.
pub open spec fn bp_prove_oks(target: Seq<u8>, st: BpState) -> bool
    decreases st.g.len(),
{
    if st.g.len() <= 1 {
        true
    } else {
        let rr = bp_round(target, st);
        bp_challenge(target, rr.l_pt, rr.r_pt) != 0 && bp_prove_oks(target, rr.next)
    }
}

/// The proof the prover emits for given bases, vectors and target.
pub open spec fn bp_prove_spec(g: Seq<Seq<u8>>, h: Seq<Seq<u8>>, l: Seq<nat>, r: Seq<nat>, target: Seq<u8>) -> BpModel {
    let tr = bp_prove_rounds(target, bp_start(g, h, l, r, target));
    BpModel { target, ls: tr.ls, rs: tr.rs, l: tr.st.l[0], r: tr.st.r[0] }
}

/// Whether the input shape admits proving: equal lengths, a power of two.
pub open spec fn bp_shape_ok(gn: int, hn: int, ln: int, rn: int) -> bool {
    hn == gn && ln == gn && rn == gn && is_pow2(gn)
}

/// The verifier's folding of the published cross terms.
pub open spec fn bp_verify_rounds(target: Seq<u8>, ls: Seq<Seq<u8>>, rs: Seq<Seq<u8>>, st: BpVState) -> BpVState
    decreases ls.len(),
{
    if ls.len() == 0 {
        st
    } else {
        let half = st.g.len() as int / 2;
        let x = bp_challenge(target, ls[0], rs[0]);
        let xi = finv(x);
        let x2 = fmul(x, x);
        let xi2 = fmul(xi, xi);
        let next = BpVState {
            g: Seq::new(half as nat, |i: int| p_add(p_mul(st.g[i], xi), p_mul(st.g[half + i], x))),
            h: Seq::new(half as nat, |i: int| p_add(p_mul(st.h[i], x), p_mul(st.h[half + i], xi))),
            p: p_add(p_add(p_mul(ls[0], x2), st.p), p_mul(rs[0], xi2)),
        };
        bp_verify_rounds(target, ls.drop_first(), rs.drop_first(), next)
    }
}

/// Whether every round challenge of the verifier is invertible.
pub open spec fn bp_verify_oks(target: Seq<u8>, ls: Seq<Seq<u8>>, rs: Seq<Seq<u8>>) -> bool
    decreases ls.len(),
{
    ls.len() == 0 || (bp_challenge(target, ls[0], rs[0]) != 0 && bp_verify_oks(
        target,
        ls.drop_first(),
        rs.drop_first(),
    ))
}

/// Whether the proof's shape matches `n` bases: `n = 2^{|L⃗|}`, `|R⃗| = |L⃗|`.
pub open spec fn bp_shape_matches(m: BpModel, n: int) -> bool {
    n == pow2(m.ls.len()) && m.rs.len() == m.ls.len()
}

/// The verifier's final equation for a proof over the given bases.
pub open spec fn bp_accepts(m: BpModel, g: Seq<Seq<u8>>, h: Seq<Seq<u8>>) -> bool {
    let stf = bp_verify_rounds(m.target, m.ls, m.rs, BpVState { g, h, p: m.target });
    stf.p == p_add(p_mul(stf.g[0], m.l), p_mul(stf.h[0], m.r))
}

/// The inner-product proof: the original target, the per-round cross terms
/// `L⃗, R⃗`, and the two scalars that remain after all halving rounds.
pub struct BulletProof {
    pub target: Point,
    pub(crate) vec_point_l: Vec<Point>,
    pub(crate) vec_point_r: Vec<Point>,
    pub(crate) l: Scalar,
    pub(crate) r: Scalar,
}

impl View for BulletProof {
    type V = BpModel;

    closed spec fn view(&self) -> BpModel {
        BpModel {
            target: self.target@,
            ls: views(self.vec_point_l@),
            rs: views(self.vec_point_r@),
            l: self.l@,
            r: self.r@,
        }
    }
}

/// How a proof's abstract value reads off its fields.
pub(crate) proof fn lemma_bp_view(bp: &BulletProof)
    ensures
        bp@.target == bp.target@,
        bp@.ls == views(bp.vec_point_l@),
        bp@.rs == views(bp.vec_point_r@),
        bp@.l == bp.l@,
        bp@.r == bp.r@,
{
}

/// Whether `n` is a power of two.
pub(crate) fn is_pow2_exec(n: usize) -> (r: bool)
    ensures
        r <==> is_pow2(n as int),
{
    if n == 0 {
        proof {
            reveal(is_pow2);
        }
        return false;
    }
    let mut m = n;
    while m > 1
        invariant
            m >= 1,
            is_pow2(n as int) <==> is_pow2(m as int),
        decreases m,
    {
        if m % 2 == 1 {
            proof {
                reveal(is_pow2);
            }
            return false;
        }
        proof {
            reveal(is_pow2);
        }
        m = m / 2;
    }
    proof {
        reveal(is_pow2);
    }
    true
}

/// The running sum `Σ_{i<n} (g_{og+i}·x_{ox+i} + h_{oh+i}·y_{oy+i})`.
pub(crate) fn msm2_exec(
    g: &Vec<Point>,
    x: &Vec<Scalar>,
    h: &Vec<Point>,
    y: &Vec<Scalar>,
    og: usize,
    ox: usize,
    oh: usize,
    oy: usize,
    n: usize,
) -> (res: Point)
    requires
        n >= 1,
        og + n <= g@.len(),
        ox + n <= x@.len(),
        oh + n <= h@.len(),
        oy + n <= y@.len(),
    ensures
        res@ == p_msm2(
            views(g@).skip(og as int),
            vals(x@).skip(ox as int),
            views(h@).skip(oh as int),
            vals(y@).skip(oy as int),
            n as int,
        ),
{
    let gn = g.len();
    let xn = x.len();
    let hn = h.len();
    let yn = y.len();
    let mut acc = g[og].mul(&x[ox]).add(&h[oh].mul(&y[oy]));
    let mut i: usize = 1;
    while i < n
        invariant
            1 <= i <= n,
            og + n <= g@.len() <= usize::MAX,
            ox + n <= x@.len() <= usize::MAX,
            oh + n <= h@.len() <= usize::MAX,
            oy + n <= y@.len() <= usize::MAX,
            acc@ == p_msm2(
                views(g@).skip(og as int),
                vals(x@).skip(ox as int),
                views(h@).skip(oh as int),
                vals(y@).skip(oy as int),
                i as int,
            ),
        decreases n - i,
    {
        let t = g[og + i].mul(&x[ox + i]).add(&h[oh + i].mul(&y[oy + i]));
        acc = acc.add(&t);
        i += 1;
    }
    acc
}

/// The fold `res_i = src_i·c1 + src_{n+i}·c2` of a point vector.
pub(crate) fn fold_points(src: &Vec<Point>, c1: &Scalar, c2: &Scalar, n: usize) -> (res: Vec<Point>)
    requires
        n + n <= src@.len(),
    ensures
        res@.len() == n,
        views(res@) == Seq::new(
            n as nat,
            (|i: int| p_add(p_mul(views(src@)[i], c1@), p_mul(views(src@)[n + i], c2@))),
        ),
{
    let sn = src.len();
    let mut res: Vec<Point> = Vec::new();
    let mut i: usize = 0;
    while i < n
        invariant
            i <= n,
            n + n <= src@.len() <= usize::MAX,
            res@.len() == i,
            forall|j: int|
                0 <= j < i ==> res@[j]@ == p_add(
                    p_mul(views(src@)[j], c1@),
                    p_mul(views(src@)[n + j], c2@),
                ),
        decreases n - i,
    {
        res.push(src[i].mul(c1).add(&src[n + i].mul(c2)));
        i += 1;
    }
    proof {
        assert(views(res@) =~= Seq::new(
            n as nat,
            (|i: int| p_add(p_mul(views(src@)[i], c1@), p_mul(views(src@)[n + i], c2@))),
        ));
    }
    res
}

/// The fold `res_i = src_i·c1 + src_{n+i}·c2` of a scalar vector.
pub(crate) fn fold_scalars(src: &Vec<Scalar>, c1: &Scalar, c2: &Scalar, n: usize) -> (res: Vec<Scalar>)
    requires
        n + n <= src@.len(),
    ensures
        res@.len() == n,
        vals(res@) == Seq::new(
            n as nat,
            (|i: int| fadd(fmul(vals(src@)[i], c1@), fmul(vals(src@)[n + i], c2@))),
        ),
{
    let sn = src.len();
    let mut res: Vec<Scalar> = Vec::new();
    let mut i: usize = 0;
    while i < n
        invariant
            i <= n,
            n + n <= src@.len() <= usize::MAX,
            res@.len() == i,
            forall|j: int|
                0 <= j < i ==> res@[j]@ == fadd(
                    fmul(vals(src@)[j], c1@),
                    fmul(vals(src@)[n + j], c2@),
                ),
        decreases n - i,
    {
        res.push(src[i].mul(c1).add(&src[n + i].mul(c2)));
        i += 1;
    }
    proof {
        assert(vals(res@) =~= Seq::new(
            n as nat,
            (|i: int| fadd(fmul(vals(src@)[i], c1@), fmul(vals(src@)[n + i], c2@))),
        ));
    }
    res
}

impl BulletProof {
    /// Derives the round challenge `H(P ‖ L ‖ R)`.
    fn challenge(target: &Point, point_l: &Point, point_r: &Point) -> (res: Scalar)
        ensures
            res@ == bp_challenge(target@, point_l@, point_r@),
    {
        let mut t = target.to_bytes();
        let mut bl = point_l.to_bytes();
        t.append(&mut bl);
        let mut br = point_r.to_bytes();
        t.append(&mut br);
        hash_to_scalar(&t)
    }

    /// Produces the proof that `target = Σ G_i·l_i + Σ H_i·r_i` for the
    /// supplied vectors: `log₂(n)` halving rounds, each publishing its cross
    /// terms and folding the state under the round challenge.
    pub fn prove(
        vec_g: &[Point],
        vec_h: &[Point],
        vec_l: &[Scalar],
        vec_r: &[Scalar],
        target: &Point,
    ) -> (res: Result<BulletProof, Error>)
        ensures
            ({
                let st0 = bp_start(views(vec_g@), views(vec_h@), vals(vec_l@), vals(vec_r@), target@);
                let shape = bp_shape_ok(
                    vec_g@.len() as int,
                    vec_h@.len() as int,
                    vec_l@.len() as int,
                    vec_r@.len() as int,
                );
                &&& (!shape ==> res == Err::<BulletProof, Error>(Error::BadArguments))
                &&& (shape ==> (res is Ok <==> bp_prove_oks(target@, st0)))
                &&& (shape && !bp_prove_oks(target@, st0) ==> res == Err::<BulletProof, Error>(
                    Error::Internal,
                ))
                &&& (res matches Ok(bp) ==> bp@ == bp_prove_spec(
                    views(vec_g@),
                    views(vec_h@),
                    vals(vec_l@),
                    vals(vec_r@),
                    target@,
                ))
            }),
    {
        let n0 = vec_g.len();
        if vec_h.len() != n0 || vec_l.len() != n0 || vec_r.len() != n0 || !is_pow2_exec(n0) {
            return Err(Error::BadArguments);
        }
        let mut g = dup_points(vec_g);
        let mut h = dup_points(vec_h);
        let mut l = dup_scalars(vec_l);
        let mut r = dup_scalars(vec_r);
        let mut ls: Vec<Point> = Vec::new();
        let mut rs: Vec<Point> = Vec::new();
        let mut m = n0;
        let ghost st0 = bp_start(views(vec_g@), views(vec_h@), vals(vec_l@), vals(vec_r@), target@);
        let ghost mut cur = st0;
        proof {
            assert(views(ls@) =~= Seq::<Seq<u8>>::empty());
            assert(views(rs@) =~= Seq::<Seq<u8>>::empty());
            assert(Seq::<Seq<u8>>::empty() + bp_prove_rounds(target@, st0).ls =~= bp_prove_rounds(
                target@,
                st0,
            ).ls);
            assert(Seq::<Seq<u8>>::empty() + bp_prove_rounds(target@, st0).rs =~= bp_prove_rounds(
                target@,
                st0,
            ).rs);
        }
        while m > 1
            invariant
                m == g@.len() && m == h@.len() && m == l@.len() && m == r@.len(),
                is_pow2(m as int),
                cur.g == views(g@) && cur.h == views(h@) && cur.l == vals(l@) && cur.r == vals(r@),
                st0 == bp_start(views(vec_g@), views(vec_h@), vals(vec_l@), vals(vec_r@), target@),
                bp_shape_ok(
                    vec_g@.len() as int,
                    vec_h@.len() as int,
                    vec_l@.len() as int,
                    vec_r@.len() as int,
                ),
                bp_prove_rounds(target@, st0).ls == views(ls@) + bp_prove_rounds(target@, cur).ls,
                bp_prove_rounds(target@, st0).rs == views(rs@) + bp_prove_rounds(target@, cur).rs,
                bp_prove_rounds(target@, st0).st == bp_prove_rounds(target@, cur).st,
                bp_prove_oks(target@, st0) == bp_prove_oks(target@, cur),
            decreases m,
        {
            proof {
                reveal(is_pow2);
            }
            let half = m / 2;
            let point_l = msm2_exec(&g, &l, &h, &r, half, 0, 0, half, half);
            let point_r = msm2_exec(&g, &l, &h, &r, 0, half, half, 0, half);
            let ghost rr = bp_round(target@, cur);
            proof {
                assert(views(g@).skip(0) =~= views(g@));
                assert(views(h@).skip(0) =~= views(h@));
                assert(vals(l@).skip(0) =~= vals(l@));
                assert(vals(r@).skip(0) =~= vals(r@));
                assert(rr.l_pt == point_l@);
                assert(rr.r_pt == point_r@);
            }
            let x = Self::challenge(target, &point_l, &point_r);
            let x_inv;
            match x.invert() {
                Some(v) => {
                    x_inv = v;
                },
                None => {
                    proof {
                        assert(!bp_prove_oks(target@, cur));
                    }
                    return Err(Error::Internal);
                },
            }
            let ghost ls_old = ls@;
            let ghost rs_old = rs@;
            ls.push(point_l);
            rs.push(point_r);
            let g2 = fold_points(&g, &x_inv, &x, half);
            let h2 = fold_points(&h, &x, &x_inv, half);
            let l2 = fold_scalars(&l, &x, &x_inv, half);
            let r2 = fold_scalars(&r, &x_inv, &x, half);
            proof {
                assert(views(g2@) =~= rr.next.g);
                assert(views(h2@) =~= rr.next.h);
                assert(vals(l2@) =~= rr.next.l);
                assert(vals(r2@) =~= rr.next.r);
            }
            g = g2;
            h = h2;
            l = l2;
            r = r2;
            proof {
                let prev = cur;
                cur = rr.next;
                let rec = bp_prove_rounds(target@, cur);
                assert(bp_prove_rounds(target@, prev).ls == seq![rr.l_pt] + rec.ls);
                assert(bp_prove_rounds(target@, prev).rs == seq![rr.r_pt] + rec.rs);
                assert(views(ls@) =~= views(ls_old) + seq![rr.l_pt]);
                assert(views(rs@) =~= views(rs_old) + seq![rr.r_pt]);
                assert(views(ls_old) + (seq![rr.l_pt] + rec.ls) =~= (views(ls_old) + seq![
                    rr.l_pt,
                ]) + rec.ls);
                assert(views(rs_old) + (seq![rr.r_pt] + rec.rs) =~= (views(rs_old) + seq![
                    rr.r_pt,
                ]) + rec.rs);
            }
            m = half;
        }
        proof {
            reveal(is_pow2);
            assert(m == 1);
            assert(bp_prove_rounds(target@, cur).st == cur);
            assert(views(ls@) + Seq::<Seq<u8>>::empty() =~= views(ls@));
            assert(views(rs@) + Seq::<Seq<u8>>::empty() =~= views(rs@));
        }
        let lf = l[0].duplicate();
        let rf = r[0].duplicate();
        let bp = BulletProof {
            target: target.duplicate(),
            vec_point_l: ls,
            vec_point_r: rs,
            l: lf,
            r: rf,
        };
        proof {
            assert(bp@ == bp_prove_spec(
                views(vec_g@),
                views(vec_h@),
                vals(vec_l@),
                vals(vec_r@),
                target@,
            ));
        }
        Ok(bp)
    }

    /// Verifies the proof against the supplied bases: re-derives every round
    /// challenge from the original target and the stored cross terms, folds
    /// the bases and the target identically to the prover, and accepts
    /// exactly when `P_final = G_0·l + H_0·r`.
    pub fn verify(&self, vec_g: &[Point], vec_h: &[Point]) -> (res: Result<(), Error>)
        ensures
            ({
                let n = vec_g@.len() as int;
                let shape = bp_shape_matches(self@, n);
                let oks = bp_verify_oks(self@.target, self@.ls, self@.rs);
                &&& (vec_h@.len() != n ==> res == Err::<(), Error>(Error::BadArguments))
                &&& (vec_h@.len() == n && !shape ==> res == Err::<(), Error>(
                    Error::InvalidSignature,
                ))
                &&& (vec_h@.len() == n && shape && !oks ==> res == Err::<(), Error>(
                    Error::Internal,
                ))
                &&& (vec_h@.len() == n && shape && oks ==> (res is Ok <==> bp_accepts(
                    self@,
                    views(vec_g@),
                    views(vec_h@),
                )))
                &&& (vec_h@.len() == n && shape && oks && !bp_accepts(
                    self@,
                    views(vec_g@),
                    views(vec_h@),
                ) ==> res == Err::<(), Error>(Error::InvalidSignature))
            }),
    {
        let n = vec_g.len();
        if vec_h.len() != n {
            return Err(Error::BadArguments);
        }
        let levels = self.vec_point_l.len();
        if self.vec_point_r.len() != levels {
            return Err(Error::InvalidSignature);
        }
        if levels >= 64 {
            proof {
                lemma2_to64();
                if levels > 64 {
                    lemma_pow2_strictly_increases(64, levels as nat);
                }
                assert(pow2(levels as nat) >= 0x10000000000000000);
                assert(n as nat != pow2(levels as nat));
            }
            return Err(Error::InvalidSignature);
        }
        let mut mm: u64 = 1;
        let mut k: usize = 0;
        proof {
            lemma2_to64();
        }
        while k < levels
            invariant
                k <= levels < 64,
                mm == pow2(k as nat),
                mm <= 0x8000000000000000u64,
            decreases levels - k,
        {
            proof {
                lemma2_to64();
                vstd::arithmetic::power2::lemma2_to64_rest();
                if (k as nat) < 62 {
                    lemma_pow2_strictly_increases(k as nat, 62);
                }
                assert(mm <= 0x4000000000000000u64);
                lemma_pow2_unfold((k + 1) as nat);
                if k + 1 < 63 {
                    lemma_pow2_strictly_increases((k + 1) as nat, 63);
                }
            }
            mm = mm * 2;
            k += 1;
        }
        if n as u64 != mm {
            proof {
                assert(n as nat != pow2(levels as nat));
            }
            return Err(Error::InvalidSignature);
        }
        proof {
            vstd::arithmetic::power2::lemma_pow2_pos(levels as nat);
            assert(n as nat == pow2(levels as nat));
            assert(n >= 1);
        }
        let mut g = dup_points(vec_g);
        let mut h = dup_points(vec_h);
        let mut p = self.target.duplicate();
        let mut m = n;
        let ghost lss = self@.ls;
        let ghost rss = self@.rs;
        let ghost tgt = self@.target;
        let ghost st0 = BpVState { g: views(vec_g@), h: views(vec_h@), p: self@.target };
        let ghost mut cur = st0;
        let mut i: usize = 0;
        proof {
            assert(lss.skip(0) =~= lss);
            assert(rss.skip(0) =~= rss);
        }
        while i < levels
            invariant
                i <= levels < 64,
                lss == self@.ls && rss == self@.rs && tgt == self@.target,
                lss.len() == levels && rss.len() == levels,
                vec_h@.len() == vec_g@.len(),
                vec_g@.len() as nat == pow2(levels as nat),
                self.vec_point_l@.len() == levels && self.vec_point_r@.len() == levels,
                m == g@.len() && m == h@.len(),
                m as nat == pow2((levels - i) as nat),
                m >= 1,
                cur.g == views(g@) && cur.h == views(h@) && cur.p == p@,
                st0 == (BpVState { g: views(vec_g@), h: views(vec_h@), p: self@.target }),
                bp_verify_rounds(tgt, lss, rss, st0) == bp_verify_rounds(
                    tgt,
                    lss.skip(i as int),
                    rss.skip(i as int),
                    cur,
                ),
                bp_verify_oks(tgt, lss, rss) == bp_verify_oks(
                    tgt,
                    lss.skip(i as int),
                    rss.skip(i as int),
                ),
            decreases levels - i,
        {
            proof {
                lemma_pow2_unfold((levels - i) as nat);
                vstd::arithmetic::power2::lemma_pow2_pos((levels - i - 1) as nat);
            }
            let half = m / 2;
            let point_l = &self.vec_point_l[i];
            let point_r = &self.vec_point_r[i];
            proof {
                assert(lss.skip(i as int)[0] == lss[i as int]);
                assert(rss.skip(i as int)[0] == rss[i as int]);
                assert(lss[i as int] == point_l@);
                assert(rss[i as int] == point_r@);
            }
            let x = Self::challenge(&self.target, point_l, point_r);
            let x_inv;
            match x.invert() {
                Some(v) => {
                    x_inv = v;
                },
                None => {
                    proof {
                        assert(!bp_verify_oks(tgt, lss.skip(i as int), rss.skip(i as int)));
                    }
                    return Err(Error::Internal);
                },
            }
            let x2 = x.mul(&x);
            let xi2 = x_inv.mul(&x_inv);
            let p2 = point_l.mul(&x2).add(&p).add(&point_r.mul(&xi2));
            let g2 = fold_points(&g, &x_inv, &x, half);
            let h2 = fold_points(&h, &x, &x_inv, half);
            proof {
                let ls_i = lss.skip(i as int);
                let rs_i = rss.skip(i as int);
                let xc = bp_challenge(tgt, ls_i[0], rs_i[0]);
                let xci = finv(xc);
                let half_s = cur.g.len() as int / 2;
                assert(half_s == half as int);
                let next = BpVState {
                    g: Seq::new(
                        half_s as nat,
                        |j: int| p_add(p_mul(cur.g[j], xci), p_mul(cur.g[half_s + j], xc)),
                    ),
                    h: Seq::new(
                        half_s as nat,
                        |j: int| p_add(p_mul(cur.h[j], xc), p_mul(cur.h[half_s + j], xci)),
                    ),
                    p: p_add(p_add(p_mul(ls_i[0], fmul(xc, xc)), cur.p), p_mul(rs_i[0], fmul(xci, xci))),
                };
                assert(bp_verify_rounds(tgt, ls_i, rs_i, cur) == bp_verify_rounds(
                    tgt,
                    ls_i.drop_first(),
                    rs_i.drop_first(),
                    next,
                ));
                assert(views(g2@) =~= next.g);
                assert(views(h2@) =~= next.h);
                assert(p2@ == next.p);
                assert(ls_i.drop_first() =~= lss.skip(i + 1));
                assert(rs_i.drop_first() =~= rss.skip(i + 1));
                cur = next;
            }
            g = g2;
            h = h2;
            p = p2;
            m = half;
            i += 1;
        }
        proof {
            assert(lss.skip(levels as int) =~= Seq::<Seq<u8>>::empty());
            assert(rss.skip(levels as int) =~= Seq::<Seq<u8>>::empty());
            assert(bp_verify_rounds(tgt, lss, rss, st0) == cur);
            assert(m == 1) by {
                lemma2_to64();
            }
        }
        let rhs = g[0].mul(&self.l).add(&h[0].mul(&self.r));
        if p.equals(&rhs) {
            Ok(())
        } else {
            Err(Error::InvalidSignature)
        }
    }

    /// Serializes the proof: target, `L⃗`, `R⃗`, `l`, `r`, in the
    /// canonical codec. The output always parses back: see
    /// `codec::lemma_bp_roundtrip`.
    pub fn serialize(&self) -> (res: Vec<u8>)
        ensures
            res@ == crate::codec::ser_bp(self@),
            crate::codec::bp_model_wf(self@),
    {
        let _n1 = self.vec_point_l.len();
        let _n2 = self.vec_point_r.len();
        let mut out = self.target.to_bytes();
        crate::codec::write_points(&mut out, &self.vec_point_l);
        crate::codec::write_points(&mut out, &self.vec_point_r);
        let mut lb = self.l.to_bytes();
        out.append(&mut lb);
        let mut rb = self.r.to_bytes();
        out.append(&mut rb);
        out
    }

    /// Parses a serialized proof; accepts exactly the canonical form.
    pub fn deserialize(b: &[u8]) -> (res: Option<BulletProof>)
        ensures
            res is Some <==> crate::codec::deser_bp(b@) is Some,
            res matches Some(bp) ==> crate::codec::deser_bp(b@) == Some(bp@),
    {
        let _bn = b.len();
        let target = match crate::codec::read_point(b, 0) {
            Some(p) => p,
            None => {
                return None;
            },
        };
        let k1 = match crate::codec::read_len(b, 33) {
            Some(k) => k,
            None => {
                return None;
            },
        };
        let ls = match crate::codec::read_points(b, 41, k1) {
            Some(v) => v,
            None => {
                return None;
            },
        };
        proof {
            crate::codec::lemma_points_at_bounds(b@, 41, k1 as nat);
        }
        let pos2 = 41 + 33 * k1;
        let k2 = match crate::codec::read_len(b, pos2) {
            Some(k) => k,
            None => {
                return None;
            },
        };
        let rs = match crate::codec::read_points(b, pos2 + 8, k2) {
            Some(v) => v,
            None => {
                return None;
            },
        };
        proof {
            crate::codec::lemma_points_at_bounds(b@, pos2 as int + 8, k2 as nat);
        }
        let pos3 = pos2 + 8 + 33 * k2;
        let l = match crate::codec::read_scalar(b, pos3) {
            Some(s) => s,
            None => {
                return None;
            },
        };
        let r = match crate::codec::read_scalar(b, pos3 + 32) {
            Some(s) => s,
            None => {
                return None;
            },
        };
        if b.len() - pos3 != 64 {
            return None;
        }
        Some(BulletProof { target, vec_point_l: ls, vec_point_r: rs, l, r })
    }

    /// A fresh proof with the same components.
    pub fn duplicate(&self) -> (res: BulletProof)
        ensures
            res@ == self@,
    {
        BulletProof {
            target: self.target.duplicate(),
            vec_point_l: dup_points(self.vec_point_l.as_slice()),
            vec_point_r: dup_points(self.vec_point_r.as_slice()),
            l: self.l.duplicate(),
            r: self.r.duplicate(),
        }
    }

    /// Component equality.
    pub fn equals(&self, other: &BulletProof) -> (res: bool)
        ensures
            res <==> self@ == other@,
    {
        let res = self.target.equals(&other.target) && self.l.equals(&other.l)
            && self.r.equals(&other.r) && points_eq(&self.vec_point_l, &other.vec_point_l)
            && points_eq(&self.vec_point_r, &other.vec_point_r);
        proof {
            if res {
                assert(self@ == other@);
            }
        }
        res
    }
}

} // verus!
