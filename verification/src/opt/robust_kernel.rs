//! Robust kernels: bounded-influence reweighting of residual terms.
//!
//! The kernel is a Huber-style bounded-influence weight adapted to exact
//! rational arithmetic, where square roots do not exist: a term whose
//! squared residual norm `s` lies within the squared threshold keeps
//! weight one, and an outlier receives weight `t^2 / s`, which caps its
//! weighted squared norm at `t^2` and bounds its gradient contribution
//! independently of how large the residual grows.

use crate::linalg::lemma_q_mul_wf;
use crate::rational::{
    lemma_q_eq_trans, lemma_q_lt_congr, lemma_q_mul_congr, q_eq, q_le, q_lt, q_mul, q_one, q_wf,
    q_zero, Q, Rat,
};
use vstd::prelude::*;

verus! {

/// A robust reweighting kernel with a positive residual-norm threshold.
#[derive(Debug, Clone, Copy)]
pub struct RobustKernel {
    /// the positive threshold on the residual norm
    pub threshold: Rat,
}

impl RobustKernel {
    /// Well-formed kernel: a positive threshold.
    pub open spec fn wf(self) -> bool {
        self.threshold.wf() && q_lt(q_zero(), self.threshold@)
    }

    /// Builds a Huber-style kernel; `None` exactly when the threshold is
    /// not positive.
    pub fn huber(threshold: Rat) -> (r: Option<RobustKernel>)
        requires
            threshold.wf(),
        ensures
            r is Some <==> q_lt(q_zero(), threshold@),
            r matches Some(k) ==> k.wf() && k.threshold == threshold,
    {
        let zero = Rat::zero();
        if zero.lt(&threshold) {
            Some(RobustKernel { threshold })
        } else {
            None
        }
    }

    /// The iteratively-reweighted-least-squares weight for a term whose
    /// squared residual norm is `s`: one within the threshold, `t^2 / s`
    /// beyond it.  `None` only on 64-bit overflow.
    pub fn weight(&self, s: &Rat) -> (r: Option<Rat>)
        requires
            self.wf(),
            s.wf(),
        ensures
            r matches Some(w) ==> {
                &&& w.wf()
                &&& q_le(s@, q_mul(self.threshold@, self.threshold@)) ==> w@ == q_one()
                &&& q_lt(q_mul(self.threshold@, self.threshold@), s@) ==> {
                    &&& q_eq(q_mul(w@, s@), q_mul(self.threshold@, self.threshold@))
                    &&& q_lt(q_zero(), w@)
                    &&& q_lt(w@, q_one())
                }
            },
    {
        let t2 = match self.threshold.mul(&self.threshold) {
            Some(t2) => t2,
            None => {
                return None;
            },
        };
        if s.le(&t2) {
            proof {
                lemma_q_mul_wf(self.threshold@, self.threshold@);
                lemma_q_le_by_eq(s@, t2@, q_mul(self.threshold@, self.threshold@));
            }
            Some(Rat::one())
        } else {
            proof {
                // s exceeds t^2 > 0, so s is positive and the division
                // below is defined.
                lemma_q_mul_wf(self.threshold@, self.threshold@);
                assert(q_lt(q_zero(), q_mul(self.threshold@, self.threshold@)))
                    by (nonlinear_arith)
                    requires
                        q_wf(self.threshold@),
                        q_lt(q_zero(), self.threshold@),
                ;
                lemma_q_lt_by_eq(t2@, s@, q_mul(self.threshold@, self.threshold@));
                assert(s@.n > 0) by (nonlinear_arith)
                    requires
                        q_wf(s@),
                        q_wf(q_mul(self.threshold@, self.threshold@)),
                        q_lt(q_zero(), q_mul(self.threshold@, self.threshold@)),
                        q_lt(q_mul(self.threshold@, self.threshold@), s@),
                ;
            }
            let w = match t2.div(s) {
                Some(w) => w,
                None => {
                    return None;
                },
            };
            proof {
                lemma_q_mul_wf(w@, s@);
                lemma_q_eq_trans(q_mul(w@, s@), t2@, q_mul(self.threshold@, self.threshold@));
                assert(q_lt(q_zero(), w@) && q_lt(w@, q_one())) by (nonlinear_arith)
                    requires
                        q_wf(w@),
                        q_wf(s@),
                        q_wf(self.threshold@),
                        q_eq(
                            q_mul(w@, s@),
                            q_mul(self.threshold@, self.threshold@),
                        ),
                        q_lt(q_zero(), q_mul(self.threshold@, self.threshold@)),
                        q_lt(q_mul(self.threshold@, self.threshold@), s@),
                ;
            }
            Some(w)
        }
    }
}

/// Transports `a <= b` along an equality of the right-hand side.
proof fn lemma_q_le_by_eq(a: Q, b: Q, c: Q)
    by (nonlinear_arith)
    requires
        q_wf(a),
        q_wf(b),
        q_wf(c),
        q_le(a, b),
        q_eq(b, c),
    ensures
        q_le(a, c),
{
}

/// Transports `a < b` along an equality of the left-hand side.
proof fn lemma_q_lt_by_eq(a: Q, b: Q, c: Q)
    by (nonlinear_arith)
    requires
        q_wf(a),
        q_wf(b),
        q_wf(c),
        q_lt(a, b),
        q_eq(a, c),
    ensures
        q_lt(c, b),
{
}

/// Robust down-weighting bounds an outlier's influence: when a term's
/// squared residual norm `r * r` exceeds the squared threshold and the
/// kernel weight satisfies `w * (r * r) == t * t`, the weighted residual
/// `w * r` — the term's gradient contribution for a unit Jacobian — has
/// squared magnitude below `t * t`, a bound independent of how large the
/// residual is.  Without the kernel that contribution is `r` itself and
/// grows without bound.
pub proof fn lemma_robust_weight_bounds_influence(w: Q, r: Q, t: Q)
    requires
        q_wf(w),
        q_wf(r),
        q_wf(t),
        q_lt(q_zero(), t),
        q_lt(q_mul(t, t), q_mul(r, r)),
        q_eq(q_mul(w, q_mul(r, r)), q_mul(t, t)),
    ensures
        q_lt(q_mul(q_mul(w, r), q_mul(w, r)), q_mul(t, t)),
{
    // w is positive and below one, so (w r)^2 == w * (w r^2) == w * t^2 < t^2.
    let g = q_mul(w, r);
    let rr = q_mul(r, r);
    let tt = q_mul(t, t);
    lemma_q_mul_wf(w, r);
    lemma_q_mul_wf(r, r);
    lemma_q_mul_wf(t, t);
    lemma_q_mul_wf(g, g);
    lemma_q_mul_wf(w, rr);
    lemma_q_mul_wf(w, q_mul(w, rr));
    lemma_q_mul_wf(w, tt);
    assert(q_lt(q_zero(), w) && q_lt(w, q_one())) by (nonlinear_arith)
        requires
            q_wf(w),
            q_wf(r),
            q_wf(t),
            q_lt(q_zero(), t),
            q_lt(q_mul(t, t), q_mul(r, r)),
            q_eq(q_mul(w, q_mul(r, r)), q_mul(t, t)),
    ;
    // (w r)^2 is w * (w * r^2) up to reassociation.
    assert(q_eq(q_mul(g, g), q_mul(w, q_mul(w, rr)))) by (nonlinear_arith)
        requires
            g == q_mul(w, r),
            rr == q_mul(r, r),
    ;
    lemma_q_mul_congr(w, q_mul(w, rr), w, tt);
    lemma_q_eq_trans(q_mul(g, g), q_mul(w, q_mul(w, rr)), q_mul(w, tt));
    // scaling by a factor below one shrinks a positive value
    assert(q_lt(q_zero(), tt)) by (nonlinear_arith)
        requires
            q_wf(t),
            q_lt(q_zero(), t),
            tt == q_mul(t, t),
    ;
    assert(q_lt(q_mul(w, tt), tt)) by (nonlinear_arith)
        requires
            q_wf(w),
            q_wf(tt),
            q_lt(q_zero(), w),
            q_lt(w, q_one()),
            q_lt(q_zero(), tt),
    ;
    lemma_q_lt_congr(q_mul(w, tt), tt, q_mul(g, g), tt);
}

} // verus!
