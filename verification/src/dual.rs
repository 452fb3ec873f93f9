//! Forward-mode dual numbers over exact rationals.
//!
//! A dual scalar carries a value together with its vector of partial
//! derivatives with respect to a fixed set of active inputs.  The
//! arithmetic operators state the chain rule exactly in their contracts:
//! the derivative of a sum is the sum of derivatives, and the derivative
//! of a product is `a.val * b.grad + b.val * a.grad`.  The derivative
//! dimension is fixed when a dual is seeded and is preserved by every
//! operator, so a whole expression is differentiated consistently.

use crate::linalg::{lemma_q_add_wf, lemma_q_mul_wf, rvec_add, rvec_neg, rvec_sub, rvec_wf};
use crate::rational::{
    lemma_q_add_congr, lemma_q_eq_trans, q_add, q_eq, q_fits, q_mul, q_neg, q_sub, q_zero, Q,
    Rat,
};
use vstd::prelude::*;

verus! {

/// A rational value paired with its exact partial derivatives.
pub struct DualRat {
    /// the value of the expression
    pub val: Rat,
    /// partial derivatives with respect to the active inputs
    pub grad: Vec<Rat>,
}

impl DualRat {
    /// Well-formed with the given number of active inputs.
    pub open spec fn wf(self, dim: nat) -> bool {
        &&& self.val.wf()
        &&& self.grad@.len() == dim
        &&& rvec_wf(self.grad@)
    }

    /// Derivative of the expression with respect to input `i`.
    pub open spec fn deriv(self, i: int) -> Q {
        self.grad@[i]@
    }

    /// A constant: the value is fixed, every derivative is zero.
    pub fn constant(v: Rat, dim: usize) -> (r: DualRat)
        requires
            v.wf(),
        ensures
            r.wf(dim as nat),
            r.val == v,
            forall|i: int| 0 <= i < dim ==> #[trigger] r.deriv(i) == q_zero(),
    {
        let mut grad: Vec<Rat> = Vec::new();
        let mut k: usize = 0;
        while k < dim
            invariant
                k <= dim,
                grad@.len() == k,
                rvec_wf(grad@),
                forall|i: int| 0 <= i < k ==> #[trigger] grad@[i]@ == q_zero(),
            decreases dim - k,
        {
            grad.push(Rat::zero());
            k += 1;
        }
        DualRat { val: v, grad }
    }

    /// The active input with index `idx`: its derivative vector is the
    /// corresponding unit basis vector.
    pub fn variable(v: Rat, dim: usize, idx: usize) -> (r: DualRat)
        requires
            v.wf(),
            idx < dim,
        ensures
            r.wf(dim as nat),
            r.val == v,
            forall|i: int|
                0 <= i < dim ==> #[trigger] r.deriv(i) == if i == idx {
                    crate::rational::q_one()
                } else {
                    q_zero()
                },
    {
        let mut grad: Vec<Rat> = Vec::new();
        let mut k: usize = 0;
        while k < dim
            invariant
                k <= dim,
                idx < dim,
                grad@.len() == k,
                rvec_wf(grad@),
                forall|i: int|
                    0 <= i < k ==> #[trigger] grad@[i]@ == if i == idx {
                        crate::rational::q_one()
                    } else {
                        q_zero()
                    },
            decreases dim - k,
        {
            if k == idx {
                grad.push(Rat::one());
            } else {
                grad.push(Rat::zero());
            }
            k += 1;
        }
        DualRat { val: v, grad }
    }

    /// Exact dual sum: values add, derivatives add.
    pub fn add(&self, o: &DualRat, dim: usize) -> (r: Option<DualRat>)
        requires
            self.wf(dim as nat),
            o.wf(dim as nat),
        ensures
            r matches Some(c) ==> {
                &&& c.wf(dim as nat)
                &&& q_eq(c.val@, q_add(self.val@, o.val@))
                &&& forall|i: int|
                    0 <= i < dim ==> q_eq(#[trigger] c.deriv(i), q_add(self.deriv(i), o.deriv(i)))
            },
            (q_fits(q_add(self.val@, o.val@)) && forall|i: int|
                0 <= i < dim ==> q_fits(#[trigger] q_add(self.deriv(i), o.deriv(i)))) ==> r
                is Some,
    {
        let v = match self.val.add(&o.val) {
            Some(v) => v,
            None => {
                return None;
            },
        };
        let g = match rvec_add(&self.grad, &o.grad) {
            Some(g) => g,
            None => {
                proof {
                    if forall|i: int|
                        0 <= i < dim ==> q_fits(#[trigger] q_add(self.deriv(i), o.deriv(i))) {
                        assert forall|i: int| 0 <= i < self.grad@.len() implies q_fits(
                            #[trigger] q_add(self.grad@[i]@, o.grad@[i]@),
                        ) by {
                            assert(q_fits(q_add(self.deriv(i), o.deriv(i))));
                        }
                        assert(false);
                    }
                }
                return None;
            },
        };
        Some(DualRat { val: v, grad: g })
    }

    /// Exact dual difference: values subtract, derivatives subtract.
    pub fn sub(&self, o: &DualRat, dim: usize) -> (r: Option<DualRat>)
        requires
            self.wf(dim as nat),
            o.wf(dim as nat),
        ensures
            r matches Some(c) ==> {
                &&& c.wf(dim as nat)
                &&& q_eq(c.val@, q_sub(self.val@, o.val@))
                &&& forall|i: int|
                    0 <= i < dim ==> q_eq(#[trigger] c.deriv(i), q_sub(self.deriv(i), o.deriv(i)))
            },
            (q_fits(q_sub(self.val@, o.val@)) && forall|i: int|
                0 <= i < dim ==> q_fits(#[trigger] q_sub(self.deriv(i), o.deriv(i)))) ==> r
                is Some,
    {
        let v = match self.val.sub(&o.val) {
            Some(v) => v,
            None => {
                return None;
            },
        };
        let g = match rvec_sub(&self.grad, &o.grad) {
            Some(g) => g,
            None => {
                proof {
                    if forall|i: int|
                        0 <= i < dim ==> q_fits(#[trigger] q_sub(self.deriv(i), o.deriv(i))) {
                        assert forall|i: int| 0 <= i < self.grad@.len() implies q_fits(
                            #[trigger] q_sub(self.grad@[i]@, o.grad@[i]@),
                        ) by {
                            assert(q_fits(q_sub(self.deriv(i), o.deriv(i))));
                        }
                        assert(false);
                    }
                }
                return None;
            },
        };
        Some(DualRat { val: v, grad: g })
    }

    /// Exact dual negation; never fails.
    pub fn neg(&self, dim: usize) -> (r: DualRat)
        requires
            self.wf(dim as nat),
        ensures
            r.wf(dim as nat),
            r.val@ == q_neg(self.val@),
            forall|i: int| 0 <= i < dim ==> #[trigger] r.deriv(i) == q_neg(self.deriv(i)),
    {
        DualRat { val: self.val.neg(), grad: rvec_neg(&self.grad) }
    }

    /// Exact dual product with the product rule:
    /// `(a * b)' == a.val * b' + b.val * a'`.
    pub fn mul(&self, o: &DualRat, dim: usize) -> (r: Option<DualRat>)
        requires
            self.wf(dim as nat),
            o.wf(dim as nat),
        ensures
            r matches Some(c) ==> {
                &&& c.wf(dim as nat)
                &&& q_eq(c.val@, q_mul(self.val@, o.val@))
                &&& forall|i: int|
                    0 <= i < dim ==> q_eq(
                        #[trigger] c.deriv(i),
                        q_add(q_mul(self.val@, o.deriv(i)), q_mul(o.val@, self.deriv(i))),
                    )
            },
    {
        let v = match self.val.mul(&o.val) {
            Some(v) => v,
            None => {
                return None;
            },
        };
        let mut g: Vec<Rat> = Vec::new();
        let mut k: usize = 0;
        while k < dim
            invariant
                k <= dim,
                self.wf(dim as nat),
                o.wf(dim as nat),
                g@.len() == k,
                rvec_wf(g@),
                forall|i: int|
                    0 <= i < k ==> q_eq(
                        #[trigger] g@[i]@,
                        q_add(q_mul(self.val@, o.deriv(i)), q_mul(o.val@, self.deriv(i))),
                    ),
            decreases dim - k,
        {
            let t1 = match self.val.mul(&o.grad[k]) {
                Some(t) => t,
                None => {
                    return None;
                },
            };
            let t2 = match o.val.mul(&self.grad[k]) {
                Some(t) => t,
                None => {
                    return None;
                },
            };
            let gi = match t1.add(&t2) {
                Some(t) => t,
                None => {
                    return None;
                },
            };
            proof {
                let ghost e1 = q_mul(self.val@, o.deriv(k as int));
                let ghost e2 = q_mul(o.val@, self.deriv(k as int));
                assert(o.grad@[k as int].wf());
                assert(self.grad@[k as int].wf());
                lemma_q_mul_wf(self.val@, o.deriv(k as int));
                lemma_q_mul_wf(o.val@, self.deriv(k as int));
                lemma_q_add_wf(t1@, t2@);
                lemma_q_add_wf(e1, e2);
                lemma_q_add_congr(t1@, t2@, e1, e2);
                lemma_q_eq_trans(gi@, q_add(t1@, t2@), q_add(e1, e2));
            }
            g.push(gi);
            k += 1;
        }
        Some(DualRat { val: v, grad: g })
    }
}

} // verus!
