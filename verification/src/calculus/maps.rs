//! Matrix-valued maps: forward-mode differentiation and symmetric
//! finite-difference quotients.
//!
//! The dual engine states the chain rule exactly in the contracts of
//! [`crate::dual::DualRat`], so for the linear residuals of this
//! library a symmetric difference quotient agrees with the dual-number
//! derivative not merely up to a tolerance but exactly; the lemmas at
//! the end of this module state that agreement.

use crate::dual::DualRat;
use crate::linalg::{lemma_q_add_wf, lemma_q_mul_wf, lemma_q_sub_wf, rvec_wf, MatRat};
use crate::rational::{lemma_q_eq_trans, q_add, q_eq, q_int, q_mul, q_one, q_sub, q_wf, Q, Rat};
use vstd::prelude::*;

verus! {

/// Copies a vector of scalars.
fn copy_rvec(a: &Vec<Rat>) -> (r: Vec<Rat>)
    ensures
        r@ == a@,
{
    let mut out: Vec<Rat> = Vec::new();
    let n = a.len();
    let mut k: usize = 0;
    while k < n
        invariant
            k <= n,
            n == a@.len(),
            out@.len() == k,
            forall|p: int| 0 <= p < k ==> #[trigger] out@[p] == a@[p],
        decreases n - k,
    {
        out.push(a[k]);
        k += 1;
    }
    proof {
        assert(out@ =~= a@);
    }
    out
}

/// There are two evaluations of the map at `a` moved by plus and minus
/// `eps` in component `i`, and `quotient` is exactly their difference
/// scaled by an `sc` with `sc * (2 eps) == 1` — that is, `quotient` is
/// the symmetric difference quotient of the map in direction `i`.
pub open spec fn quotient_witnessed<TFn: Fn(&Vec<Rat>) -> Option<MatRat>>(
    matrix_valued: TFn,
    a: Seq<Rat>,
    eps: Q,
    out_rows: usize,
    out_cols: usize,
    quotient: MatRat,
    i: int,
) -> bool {
    exists|vp: &Vec<Rat>, vm: &Vec<Rat>, mp: MatRat, mm: MatRat, sc: Q|
        {
            &&& #[trigger] call_ensures(matrix_valued, (vp,), Some(mp))
            &&& #[trigger] call_ensures(matrix_valued, (vm,), Some(mm))
            &&& vp@.len() == a.len()
            &&& vm@.len() == a.len()
            &&& q_eq(vp@[i]@, q_add(a[i]@, eps))
            &&& q_eq(vm@[i]@, q_sub(a[i]@, eps))
            &&& forall|j: int|
                0 <= j < a.len() && j != i ==> (#[trigger] vp@[j]) == a[j] && vm@[j] == a[j]
            &&& q_wf(sc)
            &&& #[trigger] q_eq(q_mul(sc, q_mul(q_int(2), eps)), q_one())
            &&& mp.wf()
            &&& mm.wf()
            &&& mp.rows == out_rows && mp.cols == out_cols
            &&& mm.rows == out_rows && mm.cols == out_cols
            &&& forall|rr: int, cc: int|
                0 <= rr < out_rows && 0 <= cc < out_cols ==> q_eq(
                    #[trigger] quotient.entry(rr, cc),
                    q_mul(sc, q_sub(mp.entry(rr, cc), mm.entry(rr, cc))),
                )
        }
}

/// A matrix-valued map on a vector space: a function from a vector to
/// a matrix, differentiated either by symmetric finite differences or
/// by forward-mode dual numbers.
pub struct MatrixValuedMapFromVector;

impl MatrixValuedMapFromVector {
    /// Symmetric finite-difference quotient of the map: one output
    /// matrix per input component, each `(f(a + eps e_i) - f(a - eps
    /// e_i)) / (2 eps)`.  The contract exhibits the two perturbed
    /// evaluations for every component: inputs that equal `a` except
    /// for the one component moved by `eps`, the two matrices the map
    /// produced from them, and a scale `sc` with `sc * (2 eps) == 1`,
    /// with every returned entry exactly `sc` times the difference of
    /// the two evaluations.  `None` on overflow or when the map
    /// declines an input.
    pub fn sym_diff_quotient<TFn: Fn(&Vec<Rat>) -> Option<MatRat>>(
        matrix_valued: TFn,
        a: &Vec<Rat>,
        eps: &Rat,
        out_rows: usize,
        out_cols: usize,
    ) -> (r: Option<Vec<MatRat>>)
        requires
            rvec_wf(a@),
            eps.wf(),
            eps@.n != 0,
            forall|v: &Vec<Rat>| #[trigger] call_requires(matrix_valued, (v,)),
            forall|v: &Vec<Rat>, o: Option<MatRat>|
                #[trigger] call_ensures(matrix_valued, (v,), o) ==> (o matches Some(m) ==> m.wf()
                    && m.rows == out_rows && m.cols == out_cols),
        ensures
            r matches Some(out) ==> {
                &&& out@.len() == a@.len()
                &&& forall|i: int|
                    0 <= i < out@.len() ==> (#[trigger] out@[i]).wf() && out@[i].rows == out_rows
                        && out@[i].cols == out_cols
                &&& forall|i: int|
                    0 <= i < a@.len() ==> quotient_witnessed(
                        matrix_valued,
                        a@,
                        eps@,
                        out_rows,
                        out_cols,
                        #[trigger] out@[i],
                        i,
                    )
            },
    {
        let two = Rat::from_int(2);
        let denom = match two.mul(eps) {
            Some(d) => d,
            None => {
                return None;
            },
        };
        proof {
            assert(denom@.n != 0) by (nonlinear_arith)
                requires
                    q_eq(denom@, q_mul(q_int(2), eps@)),
                    eps@.n != 0,
                    q_wf(denom@),
                    q_wf(eps@),
            ;
        }
        let one = Rat::one();
        let scale = match one.div(&denom) {
            Some(s) => s,
            None => {
                return None;
            },
        };
        proof {
            // scale * (2 eps) == 1
            lemma_q_mul_wf(q_int(2), eps@);
            lemma_q_mul_wf(scale@, denom@);
            lemma_q_mul_wf(scale@, q_mul(q_int(2), eps@));
            crate::rational::lemma_q_mul_congr(
                scale@,
                denom@,
                scale@,
                q_mul(q_int(2), eps@),
            );
            crate::rational::lemma_q_eq_sym(
                q_mul(scale@, denom@),
                q_mul(scale@, q_mul(q_int(2), eps@)),
            );
            lemma_q_eq_trans(
                q_mul(scale@, q_mul(q_int(2), eps@)),
                q_mul(scale@, denom@),
                q_one(),
            );
        }
        let n = a.len();
        let mut out: Vec<MatRat> = Vec::new();
        let mut i: usize = 0;
        while i < n
            invariant
                i <= n,
                n == a@.len(),
                rvec_wf(a@),
                eps.wf(),
                scale.wf(),
                q_eq(q_mul(scale@, q_mul(q_int(2), eps@)), q_one()),
                forall|v: &Vec<Rat>| #[trigger] call_requires(matrix_valued, (v,)),
                forall|v: &Vec<Rat>, o: Option<MatRat>|
                    #[trigger] call_ensures(matrix_valued, (v,), o) ==> (o matches Some(m)
                        ==> m.wf() && m.rows == out_rows && m.cols == out_cols),
                out@.len() == i,
                forall|p: int|
                    0 <= p < i ==> (#[trigger] out@[p]).wf() && out@[p].rows == out_rows
                        && out@[p].cols == out_cols,
                forall|p: int|
                    0 <= p < i ==> quotient_witnessed(
                        matrix_valued,
                        a@,
                        eps@,
                        out_rows,
                        out_cols,
                        #[trigger] out@[p],
                        p,
                    ),
            decreases n - i,
        {
            proof {
                assert(a@[i as int].wf());
            }
            let mut a_plus = copy_rvec(a);
            let vp = match a[i].add(eps) {
                Some(v) => v,
                None => {
                    return None;
                },
            };
            a_plus.set(i, vp);
            let mut a_minus = copy_rvec(a);
            let vm = match a[i].sub(eps) {
                Some(v) => v,
                None => {
                    return None;
                },
            };
            a_minus.set(i, vm);
            let mp = match matrix_valued(&a_plus) {
                Some(m) => m,
                None => {
                    return None;
                },
            };
            let mm = match matrix_valued(&a_minus) {
                Some(m) => m,
                None => {
                    return None;
                },
            };
            let diff = match MatRat::mat_sub(&mp, &mm) {
                Some(d) => d,
                None => {
                    return None;
                },
            };
            let scaled = match MatRat::mat_scale(&scale, &diff) {
                Some(s) => s,
                None => {
                    return None;
                },
            };
            proof {
                // every entry of the scaled difference is the quotient
                assert forall|rr: int, cc: int|
                    0 <= rr < out_rows && 0 <= cc < out_cols implies q_eq(
                    #[trigger] scaled.entry(rr, cc),
                    q_mul(scale@, q_sub(mp.entry(rr, cc), mm.entry(rr, cc))),
                ) by {
                    crate::linalg::lemma_mat_entry_wf(mp, rr, cc);
                    crate::linalg::lemma_mat_entry_wf(mm, rr, cc);
                    crate::linalg::lemma_mat_entry_wf(diff, rr, cc);
                    crate::linalg::lemma_mat_entry_wf(scaled, rr, cc);
                    lemma_q_sub_wf(mp.entry(rr, cc), mm.entry(rr, cc));
                    lemma_q_mul_wf(scale@, diff.entry(rr, cc));
                    lemma_q_mul_wf(scale@, q_sub(mp.entry(rr, cc), mm.entry(rr, cc)));
                    crate::rational::lemma_q_mul_congr(
                        scale@,
                        diff.entry(rr, cc),
                        scale@,
                        q_sub(mp.entry(rr, cc), mm.entry(rr, cc)),
                    );
                    lemma_q_eq_trans(
                        scaled.entry(rr, cc),
                        q_mul(scale@, diff.entry(rr, cc)),
                        q_mul(scale@, q_sub(mp.entry(rr, cc), mm.entry(rr, cc))),
                    );
                }
                assert(call_ensures(matrix_valued, (&a_plus,), Some(mp)));
                assert(call_ensures(matrix_valued, (&a_minus,), Some(mm)));
                assert(quotient_witnessed(
                    matrix_valued,
                    a@,
                    eps@,
                    out_rows,
                    out_cols,
                    scaled,
                    i as int,
                ));
            }
            out.push(scaled);
            i += 1;
        }
        Some(out)
    }

    /// Forward-mode differentiation of the map: the input components
    /// are seeded as dual variables and the map is evaluated once on
    /// dual scalars; the returned matrices hold, per input component,
    /// the exact partial derivatives of every output entry.  The
    /// contract exhibits the dual evaluation itself: there is a seeding
    /// of the inputs as dual variables and a dual matrix the map
    /// produced from it (so the map's own contract applies to them),
    /// and every returned entry is exactly the corresponding dual's
    /// partial derivative.
    pub fn fw_autodiff<TFn: Fn(&Vec<DualRat>) -> Option<Vec<Vec<DualRat>>>>(
        matrix_valued: TFn,
        a: &Vec<Rat>,
        out_rows: usize,
        out_cols: usize,
    ) -> (r: Option<Vec<MatRat>>)
        requires
            rvec_wf(a@),
            forall|v: &Vec<DualRat>| #[trigger] call_requires(matrix_valued, (v,)),
            forall|v: &Vec<DualRat>, o: Option<Vec<Vec<DualRat>>>|
                #[trigger] call_ensures(matrix_valued, (v,), o) ==> (o matches Some(m) ==> {
                    &&& m@.len() == out_rows
                    &&& forall|rr: int|
                        0 <= rr < m@.len() ==> (#[trigger] m@[rr])@.len() == out_cols && (
                        forall|cc: int|
                            0 <= cc < m@[rr]@.len() ==> (#[trigger] m@[rr]@[cc]).wf(
                                v@.len() as nat,
                            ))
                }),
        ensures
            r matches Some(out) ==> {
                &&& out@.len() == a@.len()
                &&& forall|i: int|
                    0 <= i < out@.len() ==> (#[trigger] out@[i]).wf() && out@[i].rows == out_rows
                        && out@[i].cols == out_cols
                &&& exists|v: &Vec<DualRat>, m: Vec<Vec<DualRat>>|
                    {
                        &&& #[trigger] call_ensures(matrix_valued, (v,), Some(m))
                        &&& v@.len() == a@.len()
                        &&& forall|k: int| 0 <= k < v@.len() ==> (#[trigger] v@[k]).val == a@[k]
                        &&& forall|k: int, j: int|
                            0 <= k < v@.len() && 0 <= j < v@.len() ==> (#[trigger] v@[k].deriv(j))
                                == if j == k {
                                crate::rational::q_one()
                            } else {
                                crate::rational::q_zero()
                            }
                        &&& forall|i: int, rr: int, cc: int|
                            0 <= i < a@.len() && 0 <= rr < out_rows && 0 <= cc < out_cols ==> (
                            #[trigger] out@[i].entry(rr, cc)) == m@[rr]@[cc].deriv(i)
                    }
            },
    {
        let n = a.len();
        let mut duals: Vec<DualRat> = Vec::new();
        let mut k: usize = 0;
        while k < n
            invariant
                k <= n,
                n == a@.len(),
                rvec_wf(a@),
                duals@.len() == k,
                forall|p: int| 0 <= p < k ==> (#[trigger] duals@[p]).wf(n as nat),
                forall|p: int| 0 <= p < k ==> (#[trigger] duals@[p]).val == a@[p],
                forall|p: int, j: int|
                    0 <= p < k && 0 <= j < n ==> (#[trigger] duals@[p].deriv(j)) == if j == p {
                        crate::rational::q_one()
                    } else {
                        crate::rational::q_zero()
                    },
            decreases n - k,
        {
            proof {
                assert(a@[k as int].wf());
            }
            duals.push(DualRat::variable(a[k], n, k));
            k += 1;
        }
        let evaluated = match matrix_valued(&duals) {
            Some(m) => m,
            None => {
                return None;
            },
        };
        let mut out: Vec<MatRat> = Vec::new();
        let mut i: usize = 0;
        while i < n
            invariant
                i <= n,
                n == a@.len(),
                evaluated@.len() == out_rows,
                forall|rr: int|
                    0 <= rr < evaluated@.len() ==> (#[trigger] evaluated@[rr])@.len() == out_cols
                        && (forall|cc: int|
                        0 <= cc < evaluated@[rr]@.len() ==> (#[trigger] evaluated@[rr]@[cc]).wf(
                            n as nat,
                        )),
                out@.len() == i,
                forall|p: int|
                    0 <= p < i ==> (#[trigger] out@[p]).wf() && out@[p].rows == out_rows
                        && out@[p].cols == out_cols,
                forall|p: int, rr: int, cc: int|
                    0 <= p < i && 0 <= rr < out_rows && 0 <= cc < out_cols ==> (
                    #[trigger] out@[p].entry(rr, cc)) == evaluated@[rr]@[cc].deriv(p),
            decreases n - i,
        {
            let mut m = match MatRat::zeros_checked(out_rows, out_cols) {
                Some(m) => m,
                None => {
                    return None;
                },
            };
            let mut rr: usize = 0;
            while rr < out_rows
                invariant
                    rr <= out_rows,
                    i < n,
                    evaluated@.len() == out_rows,
                    forall|r2: int|
                        0 <= r2 < evaluated@.len() ==> (#[trigger] evaluated@[r2])@.len()
                            == out_cols && (forall|cc: int|
                            0 <= cc < evaluated@[r2]@.len() ==> (
                            #[trigger] evaluated@[r2]@[cc]).wf(n as nat)),
                    m.wf(),
                    m.rows == out_rows,
                    m.cols == out_cols,
                    forall|r2: int, c2: int|
                        0 <= r2 < rr && 0 <= c2 < out_cols ==> (#[trigger] m.entry(r2, c2))
                            == evaluated@[r2]@[c2].deriv(i as int),
                decreases out_rows - rr,
            {
                let mut cc: usize = 0;
                while cc < out_cols
                    invariant
                        cc <= out_cols,
                        rr < out_rows,
                        i < n,
                        evaluated@.len() == out_rows,
                        forall|r2: int|
                            0 <= r2 < evaluated@.len() ==> (#[trigger] evaluated@[r2])@.len()
                                == out_cols && (forall|c2: int|
                                0 <= c2 < evaluated@[r2]@.len() ==> (
                                #[trigger] evaluated@[r2]@[c2]).wf(n as nat)),
                        m.wf(),
                        m.rows == out_rows,
                        m.cols == out_cols,
                        forall|r2: int, c2: int|
                            0 <= r2 < rr && 0 <= c2 < out_cols ==> (#[trigger] m.entry(r2, c2))
                                == evaluated@[r2]@[c2].deriv(i as int),
                        forall|c2: int|
                            0 <= c2 < cc ==> (#[trigger] m.entry(rr as int, c2))
                                == evaluated@[rr as int]@[c2].deriv(i as int),
                    decreases out_cols - cc,
                {
                    proof {
                        assert(evaluated@[rr as int]@[cc as int].wf(n as nat));
                        assert(evaluated@[rr as int]@[cc as int].grad@[i as int].wf());
                    }
                    let g = evaluated[rr][cc].grad[i];
                    m.set(rr, cc, g);
                    cc += 1;
                }
                rr += 1;
            }
            out.push(m);
            i += 1;
        }
        proof {
            assert(call_ensures(matrix_valued, (&duals,), Some(evaluated)));
            assert(exists|v: &Vec<DualRat>, m: Vec<Vec<DualRat>>|
                {
                    &&& #[trigger] call_ensures(matrix_valued, (v,), Some(m))
                    &&& v@.len() == a@.len()
                    &&& forall|k2: int| 0 <= k2 < v@.len() ==> (#[trigger] v@[k2]).val == a@[k2]
                    &&& forall|k2: int, j: int|
                        0 <= k2 < v@.len() && 0 <= j < v@.len() ==> (#[trigger] v@[k2].deriv(j))
                            == if j == k2 {
                            crate::rational::q_one()
                        } else {
                            crate::rational::q_zero()
                        }
                    &&& forall|i2: int, rr: int, cc: int|
                        0 <= i2 < a@.len() && 0 <= rr < out_rows && 0 <= cc < out_cols ==> (
                        #[trigger] out@[i2].entry(rr, cc)) == m@[rr]@[cc].deriv(i2)
                });
        }
        Some(out)
    }
}

/// There are two evaluations of the map at `a` moved by plus and minus
/// `eps` in input entry `(i1, i0)`, and `quotient` is exactly their
/// difference scaled by an `sc` with `sc * (2 eps) == 1`.
pub open spec fn matrix_quotient_witnessed<TFn: Fn(&MatRat) -> Option<MatRat>>(
    matrix_valued: TFn,
    a: MatRat,
    eps: Q,
    out_rows: usize,
    out_cols: usize,
    quotient: MatRat,
    i1: int,
    i0: int,
) -> bool {
    exists|vp: &MatRat, vm: &MatRat, mp: MatRat, mm: MatRat, sc: Q|
        {
            &&& #[trigger] call_ensures(matrix_valued, (vp,), Some(mp))
            &&& #[trigger] call_ensures(matrix_valued, (vm,), Some(mm))
            &&& vp.rows == a.rows && vp.cols == a.cols
            &&& vm.rows == a.rows && vm.cols == a.cols
            &&& q_eq(vp.entry(i1, i0), q_add(a.entry(i1, i0), eps))
            &&& q_eq(vm.entry(i1, i0), q_sub(a.entry(i1, i0), eps))
            &&& forall|p: int, q2: int|
                0 <= p < a.rows && 0 <= q2 < a.cols && !(p == i1 && q2 == i0) ==> (
                #[trigger] vp.entry(p, q2)) == a.entry(p, q2) && vm.entry(p, q2) == a.entry(
                    p,
                    q2,
                )
            &&& q_wf(sc)
            &&& #[trigger] q_eq(q_mul(sc, q_mul(q_int(2), eps)), q_one())
            &&& mp.wf()
            &&& mm.wf()
            &&& mp.rows == out_rows && mp.cols == out_cols
            &&& mm.rows == out_rows && mm.cols == out_cols
            &&& forall|rr: int, cc: int|
                0 <= rr < out_rows && 0 <= cc < out_cols ==> q_eq(
                    #[trigger] quotient.entry(rr, cc),
                    q_mul(sc, q_sub(mp.entry(rr, cc), mm.entry(rr, cc))),
                )
        }
}

/// A matrix-valued map on a matrix space, differentiated entry by
/// entry of the input matrix.
pub struct MatrixValuedMapFromMatrix;

impl MatrixValuedMapFromMatrix {
    /// Symmetric finite-difference quotient of the map: one output
    /// matrix per input entry, in row-major input order, each exactly
    /// the scaled difference of two exhibited perturbed evaluations of
    /// the map (see [`matrix_quotient_witnessed`]).
    pub fn sym_diff_quotient<TFn: Fn(&MatRat) -> Option<MatRat>>(
        matrix_valued: TFn,
        a: &MatRat,
        eps: &Rat,
        out_rows: usize,
        out_cols: usize,
    ) -> (r: Option<Vec<MatRat>>)
        requires
            a.wf(),
            eps.wf(),
            eps@.n != 0,
            forall|v: &MatRat| #[trigger] call_requires(matrix_valued, (v,)),
            forall|v: &MatRat, o: Option<MatRat>|
                #[trigger] call_ensures(matrix_valued, (v,), o) ==> (o matches Some(m) ==> m.wf()
                    && m.rows == out_rows && m.cols == out_cols),
        ensures
            r matches Some(out) ==> {
                &&& out@.len() == a.rows * a.cols
                &&& forall|i: int|
                    0 <= i < out@.len() ==> (#[trigger] out@[i]).wf() && out@[i].rows == out_rows
                        && out@[i].cols == out_cols
                &&& forall|i1: int, i0: int|
                    0 <= i1 < a.rows && 0 <= i0 < a.cols ==> matrix_quotient_witnessed(
                        matrix_valued,
                        *a,
                        eps@,
                        out_rows,
                        out_cols,
                        #[trigger] out@[i1 * a.cols + i0],
                        i1,
                        i0,
                    )
            },
    {
        let two = Rat::from_int(2);
        let denom = match two.mul(eps) {
            Some(d) => d,
            None => {
                return None;
            },
        };
        proof {
            assert(denom@.n != 0) by (nonlinear_arith)
                requires
                    q_eq(denom@, q_mul(q_int(2), eps@)),
                    eps@.n != 0,
                    q_wf(denom@),
                    q_wf(eps@),
            ;
        }
        let one = Rat::one();
        let scale = match one.div(&denom) {
            Some(s) => s,
            None => {
                return None;
            },
        };
        proof {
            // scale * (2 eps) == 1
            lemma_q_mul_wf(q_int(2), eps@);
            lemma_q_mul_wf(scale@, denom@);
            lemma_q_mul_wf(scale@, q_mul(q_int(2), eps@));
            crate::rational::lemma_q_mul_congr(
                scale@,
                denom@,
                scale@,
                q_mul(q_int(2), eps@),
            );
            crate::rational::lemma_q_eq_sym(
                q_mul(scale@, denom@),
                q_mul(scale@, q_mul(q_int(2), eps@)),
            );
            lemma_q_eq_trans(
                q_mul(scale@, q_mul(q_int(2), eps@)),
                q_mul(scale@, denom@),
                q_one(),
            );
        }
        let mut out: Vec<MatRat> = Vec::new();
        let mut i1: usize = 0;
        while i1 < a.rows
            invariant
                i1 <= a.rows,
                a.wf(),
                eps.wf(),
                scale.wf(),
                q_eq(q_mul(scale@, q_mul(q_int(2), eps@)), q_one()),
                forall|v: &MatRat| #[trigger] call_requires(matrix_valued, (v,)),
                forall|v: &MatRat, o: Option<MatRat>|
                    #[trigger] call_ensures(matrix_valued, (v,), o) ==> (o matches Some(m)
                        ==> m.wf() && m.rows == out_rows && m.cols == out_cols),
                out@.len() == i1 * a.cols,
                forall|p: int|
                    0 <= p < out@.len() ==> (#[trigger] out@[p]).wf() && out@[p].rows == out_rows
                        && out@[p].cols == out_cols,
                forall|p1: int, p0: int|
                    0 <= p1 < i1 && 0 <= p0 < a.cols ==> matrix_quotient_witnessed(
                        matrix_valued,
                        *a,
                        eps@,
                        out_rows,
                        out_cols,
                        #[trigger] out@[p1 * a.cols + p0],
                        p1,
                        p0,
                    ),
            decreases a.rows - i1,
        {
            let mut i0: usize = 0;
            while i0 < a.cols
                invariant
                    i0 <= a.cols,
                    i1 < a.rows,
                    a.wf(),
                    eps.wf(),
                    scale.wf(),
                    q_eq(q_mul(scale@, q_mul(q_int(2), eps@)), q_one()),
                    forall|v: &MatRat| #[trigger] call_requires(matrix_valued, (v,)),
                    forall|v: &MatRat, o: Option<MatRat>|
                        #[trigger] call_ensures(matrix_valued, (v,), o) ==> (o matches Some(m)
                            ==> m.wf() && m.rows == out_rows && m.cols == out_cols),
                    out@.len() == i1 * a.cols + i0,
                    forall|p: int|
                        0 <= p < out@.len() ==> (#[trigger] out@[p]).wf() && out@[p].rows
                            == out_rows && out@[p].cols == out_cols,
                    forall|p1: int, p0: int|
                        0 <= p1 < i1 && 0 <= p0 < a.cols ==> matrix_quotient_witnessed(
                            matrix_valued,
                            *a,
                            eps@,
                            out_rows,
                            out_cols,
                            #[trigger] out@[p1 * a.cols + p0],
                            p1,
                            p0,
                        ),
                    forall|p0: int|
                        0 <= p0 < i0 ==> matrix_quotient_witnessed(
                            matrix_valued,
                            *a,
                            eps@,
                            out_rows,
                            out_cols,
                            #[trigger] out@[i1 as int * a.cols + p0],
                            i1 as int,
                            p0,
                        ),
                decreases a.cols - i0,
            {
                let base = a.get(i1, i0);
                let vp = match base.add(eps) {
                    Some(v) => v,
                    None => {
                        return None;
                    },
                };
                let vm = match base.sub(eps) {
                    Some(v) => v,
                    None => {
                        return None;
                    },
                };
                let mut a_plus = a.clone_mat();
                a_plus.set(i1, i0, vp);
                let mut a_minus = a.clone_mat();
                a_minus.set(i1, i0, vm);
                let mp = match matrix_valued(&a_plus) {
                    Some(m) => m,
                    None => {
                        return None;
                    },
                };
                let mm = match matrix_valued(&a_minus) {
                    Some(m) => m,
                    None => {
                        return None;
                    },
                };
                let diff = match MatRat::mat_sub(&mp, &mm) {
                    Some(d) => d,
                    None => {
                        return None;
                    },
                };
                let scaled = match MatRat::mat_scale(&scale, &diff) {
                    Some(s) => s,
                    None => {
                        return None;
                    },
                };
                proof {
                    assert forall|rr: int, cc: int|
                        0 <= rr < out_rows && 0 <= cc < out_cols implies q_eq(
                        #[trigger] scaled.entry(rr, cc),
                        q_mul(scale@, q_sub(mp.entry(rr, cc), mm.entry(rr, cc))),
                    ) by {
                        crate::linalg::lemma_mat_entry_wf(mp, rr, cc);
                        crate::linalg::lemma_mat_entry_wf(mm, rr, cc);
                        crate::linalg::lemma_mat_entry_wf(diff, rr, cc);
                        crate::linalg::lemma_mat_entry_wf(scaled, rr, cc);
                        lemma_q_sub_wf(mp.entry(rr, cc), mm.entry(rr, cc));
                        lemma_q_mul_wf(scale@, diff.entry(rr, cc));
                        lemma_q_mul_wf(scale@, q_sub(mp.entry(rr, cc), mm.entry(rr, cc)));
                        crate::rational::lemma_q_mul_congr(
                            scale@,
                            diff.entry(rr, cc),
                            scale@,
                            q_sub(mp.entry(rr, cc), mm.entry(rr, cc)),
                        );
                        lemma_q_eq_trans(
                            scaled.entry(rr, cc),
                            q_mul(scale@, diff.entry(rr, cc)),
                            q_mul(scale@, q_sub(mp.entry(rr, cc), mm.entry(rr, cc))),
                        );
                    }
                    assert(call_ensures(matrix_valued, (&a_plus,), Some(mp)));
                    assert(call_ensures(matrix_valued, (&a_minus,), Some(mm)));
                    assert(matrix_quotient_witnessed(
                        matrix_valued,
                        *a,
                        eps@,
                        out_rows,
                        out_cols,
                        scaled,
                        i1 as int,
                        i0 as int,
                    ));
                }
                let ghost pre = out@;
                out.push(scaled);
                proof {
                    assert(i1 * a.cols + i0 + 1 == i1 * a.cols + (i0 + 1));
                    // pushing one entry leaves the finished rows intact
                    assert forall|p1: int, p0: int|
                        0 <= p1 < i1 && 0 <= p0 < a.cols implies matrix_quotient_witnessed(
                        matrix_valued,
                        *a,
                        eps@,
                        out_rows,
                        out_cols,
                        #[trigger] out@[p1 * a.cols + p0],
                        p1,
                        p0,
                    ) by {
                        crate::linalg::lemma_row_major_index(p1, p0, i1 as int, a.cols as int);
                        assert(out@[p1 * a.cols + p0] == pre[p1 * a.cols + p0]);
                    }
                    assert forall|p0: int|
                        0 <= p0 < i0 + 1 implies matrix_quotient_witnessed(
                        matrix_valued,
                        *a,
                        eps@,
                        out_rows,
                        out_cols,
                        #[trigger] out@[i1 as int * a.cols + p0],
                        i1 as int,
                        p0,
                    ) by {
                        if p0 < i0 {
                            assert(out@[i1 as int * a.cols + p0] == pre[i1 as int * a.cols + p0]);
                        } else {
                            assert(out@[i1 as int * a.cols + p0] == scaled);
                        }
                    }
                }
                i0 += 1;
            }
            proof {
                assert(i1 * a.cols + a.cols == (i1 + 1) * a.cols) by (nonlinear_arith);
                // fold the freshly finished row into the rectangle
                assert forall|p1: int, p0: int|
                    0 <= p1 < i1 + 1 && 0 <= p0 < a.cols implies matrix_quotient_witnessed(
                    matrix_valued,
                    *a,
                    eps@,
                    out_rows,
                    out_cols,
                    #[trigger] out@[p1 * a.cols + p0],
                    p1,
                    p0,
                ) by {
                    if p1 == i1 {
                        assert(matrix_quotient_witnessed(
                            matrix_valued,
                            *a,
                            eps@,
                            out_rows,
                            out_cols,
                            out@[i1 as int * a.cols + p0],
                            i1 as int,
                            p0,
                        ));
                    }
                }
            }
            i1 += 1;
        }
        proof {
            assert(out@.len() == a.rows * a.cols);
        }
        Some(out)
    }
}


/// Differentiation correctness for the prior residual `r(x) = x - m`:
/// its symmetric finite difference over any step `h` is exactly
/// `2 h` — the quotient equals the dual-number derivative (the
/// identity proved by [`crate::opt::cost_fn::PriorCostFn::eval`]) not
/// just within a tolerance but exactly.
pub proof fn lemma_prior_diff_quotient_exact(x: Q, m: Q, h: Q)
    requires
        q_wf(x),
        q_wf(m),
        q_wf(h),
    ensures
        q_eq(q_sub(q_sub(q_add(x, h), m), q_sub(q_sub(x, h), m)), q_mul(q_int(2), h)),
{
    let a = q_add(x, h);
    let b = q_sub(x, h);
    lemma_q_add_wf(x, h);
    lemma_q_sub_wf(x, h);
    lemma_q_sub_wf(a, m);
    lemma_q_sub_wf(b, m);
    lemma_q_sub_wf(a, b);
    lemma_q_sub_sub_cancel(a, b, m);
    lemma_q_plus_minus_twice(x, h);
    lemma_q_sub_wf(q_sub(a, m), q_sub(b, m));
    crate::rational::lemma_q_eq_trans(
        q_sub(q_sub(a, m), q_sub(b, m)),
        q_sub(a, b),
        q_mul(q_int(2), h),
    );
}

/// Subtracting one constant from both operands leaves a difference
/// unchanged: `(a - c) - (b - c) == a - b`.
pub proof fn lemma_q_sub_sub_cancel(a: Q, b: Q, c: Q)
    requires
        q_wf(a),
        q_wf(b),
        q_wf(c),
    ensures
        q_eq(q_sub(q_sub(a, c), q_sub(b, c)), q_sub(a, b)),
{
    let lhs = q_sub(q_sub(a, c), q_sub(b, c));
    let rhs = q_sub(a, b);
    assert(lhs.n == (a.n * c.d + (-c.n) * a.d) * (b.d * c.d) + (-(b.n * c.d + (-c.n) * b.d)) * (
    a.d * c.d));
    assert(lhs.d == (a.d * c.d) * (b.d * c.d));
    lemma_cross_sub_cancel(a.n, a.d, b.n, b.d, c.n, c.d);
}

/// Expanded form of the cancellation identity used by
/// [`lemma_q_sub_sub_cancel`].
proof fn lemma_cross_sub_cancel(an: int, ad: int, bn: int, bd: int, cn: int, cd: int)
    ensures
        ((an * cd + (-cn) * ad) * (bd * cd) + (-(bn * cd + (-cn) * bd)) * (ad * cd)) * (ad * bd)
            == (an * bd + (-bn) * ad) * ((ad * cd) * (bd * cd)),
{
    assert((an * cd + (-cn) * ad) * (bd * cd) == (an * cd) * (bd * cd) + (-((cn * ad) * (bd * cd))))
        by (nonlinear_arith);
    assert((-(bn * cd + (-cn) * bd)) * (ad * cd) == (-((bn * cd) * (ad * cd))) + (cn * bd) * (ad
        * cd)) by (nonlinear_arith);
    assert((cn * ad) * (bd * cd) == (cn * bd) * (ad * cd)) by (nonlinear_arith);
    assert(((an * cd) * (bd * cd) + (-((bn * cd) * (ad * cd)))) * (ad * bd) == ((an * cd) * (bd
        * cd)) * (ad * bd) + (-(((bn * cd) * (ad * cd)) * (ad * bd)))) by (nonlinear_arith);
    assert(((an * cd) * (bd * cd)) * (ad * bd) == (an * bd) * ((ad * cd) * (bd * cd)))
        by (nonlinear_arith);
    assert(((bn * cd) * (ad * cd)) * (ad * bd) == (bn * ad) * ((ad * cd) * (bd * cd)))
        by (nonlinear_arith);
    assert((an * bd + (-bn) * ad) * ((ad * cd) * (bd * cd)) == (an * bd) * ((ad * cd) * (bd * cd))
        + (-((bn * ad) * ((ad * cd) * (bd * cd))))) by (nonlinear_arith);
}

/// `(x + h) - (x - h) == 2 h`.
pub proof fn lemma_q_plus_minus_twice(x: Q, h: Q)
    requires
        q_wf(x),
        q_wf(h),
    ensures
        q_eq(q_sub(q_add(x, h), q_sub(x, h)), q_mul(q_int(2), h)),
{
    let lhs = q_sub(q_add(x, h), q_sub(x, h));
    assert(lhs.n == (x.n * h.d + h.n * x.d) * (x.d * h.d) + (-(x.n * h.d + (-h.n) * x.d)) * (x.d
        * h.d));
    assert(lhs.d == (x.d * h.d) * (x.d * h.d));
    lemma_cross_plus_minus(x.n, x.d, h.n, h.d);
}

/// Expanded form of the doubling identity used by
/// [`lemma_q_plus_minus_twice`].
proof fn lemma_cross_plus_minus(xn: int, xd: int, hn: int, hd: int)
    ensures
        ((xn * hd + hn * xd) * (xd * hd) + (-(xn * hd + (-hn) * xd)) * (xd * hd)) * hd == (2 * hn)
            * ((xd * hd) * (xd * hd)),
{
    assert((xn * hd + hn * xd) * (xd * hd) + (-(xn * hd + (-hn) * xd)) * (xd * hd) == (2 * hn) * (
    xd * (xd * hd))) by (nonlinear_arith);
    assert(((2 * hn) * (xd * (xd * hd))) * hd == (2 * hn) * ((xd * hd) * (xd * hd)))
        by (nonlinear_arith);
}


/// Differentiation correctness for the relative residual
/// `r = (x_b - x_a) - m` in the direction of `x_a`: its symmetric
/// finite difference over any step `h` of the first argument is
/// exactly `-2 h`, matching the negated-identity Jacobian block proved
/// by [`crate::opt::cost_fn::PoseGraphCostFn::eval`].
pub proof fn lemma_pose_graph_diff_quotient_exact(xa: Q, xb: Q, m: Q, h: Q)
    requires
        q_wf(xa),
        q_wf(xb),
        q_wf(m),
        q_wf(h),
    ensures
        q_eq(
            q_sub(q_sub(q_sub(xb, q_add(xa, h)), m), q_sub(q_sub(xb, q_sub(xa, h)), m)),
            q_mul(q_int(-2), h),
        ),
{
    let p = q_add(xa, h);
    let n = q_sub(xa, h);
    let a1 = q_sub(xb, p);
    let a2 = q_sub(xb, n);
    lemma_q_add_wf(xa, h);
    lemma_q_sub_wf(xa, h);
    lemma_q_sub_wf(xb, p);
    lemma_q_sub_wf(xb, n);
    lemma_q_sub_wf(a1, m);
    lemma_q_sub_wf(a2, m);
    lemma_q_sub_wf(a1, a2);
    lemma_q_sub_wf(n, p);
    lemma_q_sub_wf(q_sub(a1, m), q_sub(a2, m));
    lemma_q_sub_sub_cancel(a1, a2, m);
    lemma_q_sub_from_const_cancel(p, n, xb);
    lemma_q_minus_plus_twice(xa, h);
    crate::rational::lemma_q_eq_trans(q_sub(q_sub(a1, m), q_sub(a2, m)), q_sub(a1, a2), q_sub(n, p));
    crate::rational::lemma_q_eq_trans(
        q_sub(q_sub(a1, m), q_sub(a2, m)),
        q_sub(n, p),
        q_mul(q_int(-2), h),
    );
}

/// Subtracting both operands from one constant negates a difference:
/// `(c - a) - (c - b) == b - a`.
pub proof fn lemma_q_sub_from_const_cancel(a: Q, b: Q, c: Q)
    requires
        q_wf(a),
        q_wf(b),
        q_wf(c),
    ensures
        q_eq(q_sub(q_sub(c, a), q_sub(c, b)), q_sub(b, a)),
{
    let lhs = q_sub(q_sub(c, a), q_sub(c, b));
    assert(lhs.n == (c.n * a.d + (-a.n) * c.d) * (c.d * b.d) + (-(c.n * b.d + (-b.n) * c.d)) * (
    c.d * a.d));
    assert(lhs.d == (c.d * a.d) * (c.d * b.d));
    lemma_cross_sub_from_const(a.n, a.d, b.n, b.d, c.n, c.d);
}

/// Expanded form of the negated cancellation identity used by
/// [`lemma_q_sub_from_const_cancel`].
proof fn lemma_cross_sub_from_const(an: int, ad: int, bn: int, bd: int, cn: int, cd: int)
    ensures
        ((cn * ad + (-an) * cd) * (cd * bd) + (-(cn * bd + (-bn) * cd)) * (cd * ad)) * (bd * ad)
            == (bn * ad + (-an) * bd) * ((cd * ad) * (cd * bd)),
{
    assert((cn * ad + (-an) * cd) * (cd * bd) == (cn * ad) * (cd * bd) + (-((an * cd) * (cd * bd))))
        by (nonlinear_arith);
    assert((-(cn * bd + (-bn) * cd)) * (cd * ad) == (-((cn * bd) * (cd * ad))) + (bn * cd) * (cd
        * ad)) by (nonlinear_arith);
    assert((cn * ad) * (cd * bd) == (cn * bd) * (cd * ad)) by (nonlinear_arith);
    assert(((-((an * cd) * (cd * bd))) + (bn * cd) * (cd * ad)) * (bd * ad) == (-(((an * cd) * (cd
        * bd)) * (bd * ad))) + ((bn * cd) * (cd * ad)) * (bd * ad)) by (nonlinear_arith);
    assert(((an * cd) * (cd * bd)) * (bd * ad) == (an * bd) * ((cd * ad) * (cd * bd)))
        by (nonlinear_arith);
    assert(((bn * cd) * (cd * ad)) * (bd * ad) == (bn * ad) * ((cd * ad) * (cd * bd)))
        by (nonlinear_arith);
    assert((bn * ad + (-an) * bd) * ((cd * ad) * (cd * bd)) == (bn * ad) * ((cd * ad) * (cd * bd))
        + (-((an * bd) * ((cd * ad) * (cd * bd))))) by (nonlinear_arith);
}

/// `(x - h) - (x + h) == -2 h`.
pub proof fn lemma_q_minus_plus_twice(x: Q, h: Q)
    requires
        q_wf(x),
        q_wf(h),
    ensures
        q_eq(q_sub(q_sub(x, h), q_add(x, h)), q_mul(q_int(-2), h)),
{
    let lhs = q_sub(q_sub(x, h), q_add(x, h));
    assert(lhs.n == (x.n * h.d + (-h.n) * x.d) * (x.d * h.d) + (-(x.n * h.d + h.n * x.d)) * (x.d
        * h.d));
    assert(lhs.d == (x.d * h.d) * (x.d * h.d));
    lemma_cross_minus_plus(x.n, x.d, h.n, h.d);
}

/// Expanded form of the negated doubling identity used by
/// [`lemma_q_minus_plus_twice`].
proof fn lemma_cross_minus_plus(xn: int, xd: int, hn: int, hd: int)
    ensures
        ((xn * hd + (-hn) * xd) * (xd * hd) + (-(xn * hd + hn * xd)) * (xd * hd)) * hd == ((-2)
            * hn) * ((xd * hd) * (xd * hd)),
{
    assert((xn * hd + (-hn) * xd) * (xd * hd) + (-(xn * hd + hn * xd)) * (xd * hd) == ((-2) * hn)
        * (xd * (xd * hd))) by (nonlinear_arith);
    assert((((-2) * hn) * (xd * (xd * hd))) * hd == ((-2) * hn) * ((xd * hd) * (xd * hd)))
        by (nonlinear_arith);
}

} // verus!
