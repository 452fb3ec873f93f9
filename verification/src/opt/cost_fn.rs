//! Cost functions: immutable term signatures and the residual functions
//! that evaluate them.
//!
//! A residual function is written once against the dual-number engine;
//! evaluating it with seeded duals yields the residual vector together
//! with one exact Jacobian block per free argument.  The two residual
//! functions provided here are a tangent-space prior and a relative
//! (pose-graph) constraint; both are linear in the tangent variables, so
//! their Jacobian blocks are signed identity matrices, and the contracts
//! say so exactly.

use crate::dual::DualRat;
use crate::linalg::{lemma_q_sub_wf, rvec_wf, MatRat};
use crate::opt::robust_kernel::RobustKernel;
use crate::rational::{
    lemma_q_eq_trans, lemma_q_sub_congr, lemma_q_sub_zero, q_eq, q_fits, q_int, q_one, q_sub,
    q_zero, Q, Rat,
};
use vstd::prelude::*;

verus! {

/// One residual instance: the variables it touches, its constant
/// payload, and an optional robust kernel.
#[derive(Debug, Clone)]
pub struct TermSignature {
    /// per argument, the index of the referenced member in its family
    pub entity_indices: Vec<usize>,
    /// the immutable constant payload (a prior mean, a relative offset)
    pub constant: Vec<Rat>,
    /// optional robust reweighting of this term
    pub robust_kernel: Option<RobustKernel>,
}

impl TermSignature {
    /// All scalars of the signature are well-formed.
    pub open spec fn wf(self) -> bool {
        &&& rvec_wf(self.constant@)
        &&& match self.robust_kernel {
            Some(k) => k.wf(),
            None => true,
        }
    }
}

/// A named group of terms sharing one residual function and one ordered
/// list of family names (one name per residual argument).
#[derive(Debug, Clone)]
pub struct CostSignature {
    /// the family that each residual argument refers to
    pub family_names: Vec<String>,
    /// the term instances
    pub terms: Vec<TermSignature>,
}

/// Tangent-space prior residual: `r = x - mean`.
#[derive(Debug, Clone, Copy)]
pub struct PriorCostFn {}

/// Relative (pose-graph) constraint between two variables of one
/// tangent dimension: `r = (x_b - x_a) - offset`.
#[derive(Debug, Clone, Copy)]
pub struct PoseGraphCostFn {}

/// The residual functions the solver knows how to differentiate.
#[derive(Debug, Clone, Copy)]
pub enum ResidualFn {
    /// a tangent-space prior on one variable
    Prior(PriorCostFn),
    /// a relative constraint between two variables
    PoseGraph(PoseGraphCostFn),
}

impl ResidualFn {
    /// Number of variable arguments the residual function takes.
    pub open spec fn spec_num_args(self) -> int {
        match self {
            ResidualFn::Prior(_) => 1,
            ResidualFn::PoseGraph(_) => 2,
        }
    }

    /// Number of variable arguments the residual function takes.
    pub fn num_args(&self) -> (r: usize)
        ensures
            r as int == self.spec_num_args(),
    {
        match self {
            ResidualFn::Prior(_) => 1,
            ResidualFn::PoseGraph(_) => 2,
        }
    }
}

/// A residual function paired with the signatures of its terms.
#[derive(Debug, Clone)]
pub struct CostFn {
    /// the term signatures
    pub signature: CostSignature,
    /// the shared residual function
    pub residual: ResidualFn,
}

impl CostFn {
    /// Structural validity that does not depend on the variable pool:
    /// one family name per argument, one entity index per argument, and
    /// distinct entity indices within each term of a multi-argument
    /// residual.
    pub open spec fn shape_ok(self) -> bool {
        &&& self.signature.family_names@.len() == self.residual.spec_num_args()
        &&& forall|t: int|
            0 <= t < self.signature.terms@.len() ==> {
                &&& (#[trigger] self.signature.terms@[t]).entity_indices@.len()
                    == self.residual.spec_num_args()
                &&& self.signature.terms@[t].wf()
            }
        &&& (self.residual is PoseGraph ==> forall|t: int|
            0 <= t < self.signature.terms@.len() ==> ((
            #[trigger] self.signature.terms@[t]).entity_indices@[0]
                != self.signature.terms@[t].entity_indices@[1] || self.signature.family_names@[0]@
                != self.signature.family_names@[1]@))
    }

    /// Pairs a residual function with its term signatures; `None` exactly
    /// when a term's argument list does not fit the residual function or
    /// a relative term constrains a variable against itself.
    pub fn new(signature: CostSignature, residual: ResidualFn) -> (r: Option<CostFn>)
        requires
            forall|t: int| 0 <= t < signature.terms@.len() ==> (#[trigger] signature.terms@[t]).wf(),
        ensures
            r matches Some(c) ==> c.shape_ok() && c.signature == signature && c.residual
                == residual,
            r is None ==> !(CostFn { signature, residual }).shape_ok(),
    {
        let c = CostFn { signature, residual };
        if c.check_shape() {
            Some(c)
        } else {
            None
        }
    }

    /// Decides the structural validity of this cost.
    pub fn check_shape(&self) -> (r: bool)
        requires
            forall|t: int|
                0 <= t < self.signature.terms@.len() ==> (#[trigger] self.signature.terms@[t]).wf(),
        ensures
            r == self.shape_ok(),
    {
        let na = self.residual.num_args();
        if self.signature.family_names.len() != na {
            return false;
        }
        let nt = self.signature.terms.len();
        let mut t: usize = 0;
        while t < nt
            invariant
                t <= nt,
                nt == self.signature.terms@.len(),
                na as int == self.residual.spec_num_args(),
                self.signature.family_names@.len() == na,
                forall|p: int|
                    0 <= p < t ==> (#[trigger] self.signature.terms@[p]).entity_indices@.len()
                        == na,
                forall|p: int|
                    0 <= p < self.signature.terms@.len() ==> (
                    #[trigger] self.signature.terms@[p]).wf(),
                self.residual is PoseGraph ==> forall|p: int|
                    0 <= p < t ==> ((#[trigger] self.signature.terms@[p]).entity_indices@[0]
                        != self.signature.terms@[p].entity_indices@[1]
                        || self.signature.family_names@[0]@ != self.signature.family_names@[1]@),
            decreases nt - t,
        {
            if self.signature.terms[t].entity_indices.len() != na {
                return false;
            }
            if matches!(self.residual, ResidualFn::PoseGraph(_)) {
                let same_var = self.signature.terms[t].entity_indices[0]
                    == self.signature.terms[t].entity_indices[1];
                let same_family = self.signature.family_names[0].eq(&self.signature.family_names[1]);
                if same_var && same_family {
                    return false;
                }
            }
            t += 1;
        }
        true
    }
}

impl PriorCostFn {
    /// Evaluates the prior residual `x - mean` with its exact Jacobian,
    /// obtained by forward-mode differentiation: the identity matrix.
    /// `None` only on 64-bit overflow.
    pub fn eval(&self, x: &Vec<Rat>, mean: &Vec<Rat>) -> (r: Option<(Vec<Rat>, MatRat)>)
        requires
            rvec_wf(x@),
            rvec_wf(mean@),
            x@.len() == mean@.len(),
        ensures
            r matches Some(rj) ==> {
                &&& rj.0@.len() == x@.len()
                &&& rvec_wf(rj.0@)
                &&& forall|i: int|
                    0 <= i < x@.len() ==> q_eq(#[trigger] rj.0@[i]@, q_sub(x@[i]@, mean@[i]@))
                &&& rj.1.wf()
                &&& rj.1.rows == x@.len()
                &&& rj.1.cols == x@.len()
                &&& forall|i: int, j: int|
                    0 <= i < x@.len() && 0 <= j < x@.len() ==> q_eq(
                        #[trigger] rj.1.entry(i, j),
                        if i == j {
                            q_one()
                        } else {
                            q_zero()
                        },
                    )
            },
            (x@.len() * x@.len() <= usize::MAX && forall|i: int|
                0 <= i < x@.len() ==> q_fits(#[trigger] q_sub(x@[i]@, mean@[i]@))) ==> r is Some,
    {
        let d = x.len();
        let mut res: Vec<Rat> = Vec::new();
        let mut jac = match MatRat::zeros_checked(d, d) {
            Some(m) => m,
            None => {
                return None;
            },
        };
        let mut i: usize = 0;
        while i < d
            invariant
                i <= d,
                d == x@.len() == mean@.len(),
                rvec_wf(x@),
                rvec_wf(mean@),
                res@.len() == i,
                rvec_wf(res@),
                forall|p: int| 0 <= p < i ==> q_eq(#[trigger] res@[p]@, q_sub(x@[p]@, mean@[p]@)),
                jac.wf(),
                jac.rows == d,
                jac.cols == d,
                forall|p: int, j: int|
                    0 <= p < i && 0 <= j < d ==> q_eq(
                        #[trigger] jac.entry(p, j),
                        if p == j {
                            q_one()
                        } else {
                            q_zero()
                        },
                    ),
            decreases d - i,
        {
            proof {
                assert(x@[i as int].wf());
                assert(mean@[i as int].wf());
            }
            let xi = DualRat::variable(x[i], d, i);
            let mi = DualRat::constant(mean[i], d);
            let ri = match xi.sub(&mi, d) {
                Some(ri) => ri,
                None => {
                    proof {
                        // only the value difference can overflow: the
                        // derivative entries are zeros and ones
                        if q_fits(q_sub(x@[i as int]@, mean@[i as int]@)) {
                            assert forall|j: int| 0 <= j < d implies q_fits(
                                #[trigger] q_sub(xi.deriv(j), mi.deriv(j)),
                            ) by {
                                assert(mi.deriv(j) == q_zero());
                                assert(q_sub(xi.deriv(j), q_zero()).d == xi.deriv(j).d * 1);
                                assert(q_sub(xi.deriv(j), q_zero()).n == xi.deriv(j).n * 1 + (-0)
                                    * xi.deriv(j).d);
                            }
                            assert(false);
                        }
                    }
                    return None;
                },
            };
            proof {
                assert forall|q: int| 0 <= q < d implies q_eq(
                    #[trigger] ri.deriv(q),
                    if q == i {
                        q_one()
                    } else {
                        q_zero()
                    },
                ) by {
                    let dq = if q == i {
                        q_one()
                    } else {
                        q_zero()
                    };
                    assert(ri.grad@[q].wf());
                    lemma_q_sub_wf(dq, q_zero());
                    lemma_q_sub_zero(dq);
                    lemma_q_eq_trans(ri.deriv(q), q_sub(dq, q_zero()), dq);
                }
            }
            let mut j: usize = 0;
            while j < d
                invariant
                    j <= d,
                    i < d,
                    d == x@.len() == mean@.len(),
                    ri.wf(d as nat),
                    jac.wf(),
                    jac.rows == d,
                    jac.cols == d,
                    forall|p: int, q: int|
                        0 <= p < i && 0 <= q < d ==> q_eq(
                            #[trigger] jac.entry(p, q),
                            if p == q {
                                q_one()
                            } else {
                                q_zero()
                            },
                        ),
                    forall|q: int|
                        0 <= q < j ==> q_eq(
                            #[trigger] jac.entry(i as int, q),
                            if i == q {
                                q_one()
                            } else {
                                q_zero()
                            },
                        ),
                    forall|q: int|
                        0 <= q < d ==> q_eq(
                            #[trigger] ri.deriv(q),
                            if q == i {
                                q_one()
                            } else {
                                q_zero()
                            },
                        ),
                decreases d - j,
            {
                proof {
                    assert(ri.grad@[j as int].wf());
                    assert(ri.deriv(j as int) == ri.grad@[j as int]@);
                    assert(q_eq(
                        ri.deriv(j as int),
                        if j == i {
                            q_one()
                        } else {
                            q_zero()
                        },
                    ));
                }
                jac.set(i, j, ri.grad[j]);
                j += 1;
            }
            res.push(ri.val);
            i += 1;
        }
        Some((res, jac))
    }
}

impl PoseGraphCostFn {
    /// Evaluates the relative residual `(x_b - x_a) - offset` with its
    /// exact Jacobian blocks, obtained by forward-mode differentiation:
    /// the negated identity with respect to `x_a` and the identity with
    /// respect to `x_b`.  `None` only on 64-bit overflow.
    pub fn eval(&self, xa: &Vec<Rat>, xb: &Vec<Rat>, offset: &Vec<Rat>) -> (r: Option<
        (Vec<Rat>, MatRat, MatRat),
    >)
        requires
            rvec_wf(xa@),
            rvec_wf(xb@),
            rvec_wf(offset@),
            xa@.len() == xb@.len() == offset@.len(),
        ensures
            r matches Some(rj) ==> {
                &&& rj.0@.len() == xa@.len()
                &&& rvec_wf(rj.0@)
                &&& forall|i: int|
                    0 <= i < xa@.len() ==> q_eq(
                        #[trigger] rj.0@[i]@,
                        q_sub(q_sub(xb@[i]@, xa@[i]@), offset@[i]@),
                    )
                &&& rj.1.wf()
                &&& rj.1.rows == xa@.len()
                &&& rj.1.cols == xa@.len()
                &&& forall|i: int, j: int|
                    0 <= i < xa@.len() && 0 <= j < xa@.len() ==> q_eq(
                        #[trigger] rj.1.entry(i, j),
                        if i == j {
                            q_int(-1)
                        } else {
                            q_zero()
                        },
                    )
                &&& rj.2.wf()
                &&& rj.2.rows == xa@.len()
                &&& rj.2.cols == xa@.len()
                &&& forall|i: int, j: int|
                    0 <= i < xa@.len() && 0 <= j < xa@.len() ==> q_eq(
                        #[trigger] rj.2.entry(i, j),
                        if i == j {
                            q_one()
                        } else {
                            q_zero()
                        },
                    )
            },
    {
        let d = xa.len();
        let mut res: Vec<Rat> = Vec::new();
        let mut ja = match MatRat::zeros_checked(d, d) {
            Some(m) => m,
            None => {
                return None;
            },
        };
        let mut jb = match MatRat::zeros_checked(d, d) {
            Some(m) => m,
            None => {
                return None;
            },
        };
        let mut i: usize = 0;
        while i < d
            invariant
                i <= d,
                d == xa@.len() == xb@.len() == offset@.len(),
                rvec_wf(xa@),
                rvec_wf(xb@),
                rvec_wf(offset@),
                res@.len() == i,
                rvec_wf(res@),
                forall|p: int|
                    0 <= p < i ==> q_eq(
                        #[trigger] res@[p]@,
                        q_sub(q_sub(xb@[p]@, xa@[p]@), offset@[p]@),
                    ),
                ja.wf(),
                ja.rows == d,
                ja.cols == d,
                forall|p: int, j: int|
                    0 <= p < i && 0 <= j < d ==> q_eq(
                        #[trigger] ja.entry(p, j),
                        if p == j {
                            q_int(-1)
                        } else {
                            q_zero()
                        },
                    ),
                jb.wf(),
                jb.rows == d,
                jb.cols == d,
                forall|p: int, j: int|
                    0 <= p < i && 0 <= j < d ==> q_eq(
                        #[trigger] jb.entry(p, j),
                        if p == j {
                            q_one()
                        } else {
                            q_zero()
                        },
                    ),
            decreases d - i,
        {
            proof {
                assert(xa@[i as int].wf());
                assert(xb@[i as int].wf());
                assert(offset@[i as int].wf());
            }
            // seed the first argument: derivatives with respect to x_a
            let xav = DualRat::variable(xa[i], d, i);
            let xbc = DualRat::constant(xb[i], d);
            let mc = DualRat::constant(offset[i], d);
            let s1 = match xbc.sub(&xav, d) {
                Some(s) => s,
                None => {
                    return None;
                },
            };
            let ra = match s1.sub(&mc, d) {
                Some(s) => s,
                None => {
                    return None;
                },
            };
            proof {
                lemma_q_sub_wf(xb@[i as int]@, xa@[i as int]@);
                lemma_q_sub_wf(s1.val@, mc.val@);
                lemma_q_sub_wf(q_sub(xb@[i as int]@, xa@[i as int]@), offset@[i as int]@);
                lemma_q_sub_congr(
                    s1.val@,
                    offset@[i as int]@,
                    q_sub(xb@[i as int]@, xa@[i as int]@),
                    offset@[i as int]@,
                );
                lemma_q_eq_trans(
                    ra.val@,
                    q_sub(s1.val@, offset@[i as int]@),
                    q_sub(q_sub(xb@[i as int]@, xa@[i as int]@), offset@[i as int]@),
                );
            }
            // seed the second argument: derivatives with respect to x_b
            let xbv = DualRat::variable(xb[i], d, i);
            let xac = DualRat::constant(xa[i], d);
            let s2 = match xbv.sub(&xac, d) {
                Some(s) => s,
                None => {
                    return None;
                },
            };
            let rb = match s2.sub(&mc, d) {
                Some(s) => s,
                None => {
                    return None;
                },
            };
            proof {
                assert forall|q: int| 0 <= q < d implies q_eq(
                    #[trigger] ra.deriv(q),
                    if q == i {
                        q_int(-1)
                    } else {
                        q_zero()
                    },
                ) by {
                    let dq = if q == i {
                        q_int(-1)
                    } else {
                        q_zero()
                    };
                    let vq = if q == i {
                        q_one()
                    } else {
                        q_zero()
                    };
                    assert(s1.grad@[q].wf());
                    assert(ra.grad@[q].wf());
                    // s1's derivative is 0 - e_q, which is exactly dq.
                    assert(q_sub(q_zero(), vq) =~= dq);
                    lemma_q_sub_wf(s1.deriv(q), q_zero());
                    lemma_q_sub_zero(s1.deriv(q));
                    lemma_q_eq_trans(ra.deriv(q), q_sub(s1.deriv(q), q_zero()), s1.deriv(q));
                    lemma_q_eq_trans(ra.deriv(q), s1.deriv(q), dq);
                }
                assert forall|q: int| 0 <= q < d implies q_eq(
                    #[trigger] rb.deriv(q),
                    if q == i {
                        q_one()
                    } else {
                        q_zero()
                    },
                ) by {
                    let vq = if q == i {
                        q_one()
                    } else {
                        q_zero()
                    };
                    assert(s2.grad@[q].wf());
                    assert(rb.grad@[q].wf());
                    // s2's derivative is e_q - 0, which is exactly vq.
                    lemma_q_sub_wf(vq, q_zero());
                    lemma_q_sub_zero(vq);
                    lemma_q_eq_trans(s2.deriv(q), q_sub(vq, q_zero()), vq);
                    lemma_q_sub_wf(s2.deriv(q), q_zero());
                    lemma_q_sub_zero(s2.deriv(q));
                    lemma_q_eq_trans(rb.deriv(q), q_sub(s2.deriv(q), q_zero()), s2.deriv(q));
                    lemma_q_eq_trans(rb.deriv(q), s2.deriv(q), vq);
                }
            }
            let mut j: usize = 0;
            while j < d
                invariant
                    j <= d,
                    i < d,
                    d == xa@.len(),
                    ra.wf(d as nat),
                    rb.wf(d as nat),
                    ja.wf(),
                    ja.rows == d,
                    ja.cols == d,
                    jb.wf(),
                    jb.rows == d,
                    jb.cols == d,
                    forall|p: int, q: int|
                        0 <= p < i && 0 <= q < d ==> q_eq(
                            #[trigger] ja.entry(p, q),
                            if p == q {
                                q_int(-1)
                            } else {
                                q_zero()
                            },
                        ),
                    forall|p: int, q: int|
                        0 <= p < i && 0 <= q < d ==> q_eq(
                            #[trigger] jb.entry(p, q),
                            if p == q {
                                q_one()
                            } else {
                                q_zero()
                            },
                        ),
                    forall|q: int|
                        0 <= q < j ==> q_eq(
                            #[trigger] ja.entry(i as int, q),
                            if i == q {
                                q_int(-1)
                            } else {
                                q_zero()
                            },
                        ),
                    forall|q: int|
                        0 <= q < j ==> q_eq(
                            #[trigger] jb.entry(i as int, q),
                            if i == q {
                                q_one()
                            } else {
                                q_zero()
                            },
                        ),
                    forall|q: int|
                        0 <= q < d ==> q_eq(
                            #[trigger] ra.deriv(q),
                            if q == i {
                                q_int(-1)
                            } else {
                                q_zero()
                            },
                        ),
                    forall|q: int|
                        0 <= q < d ==> q_eq(
                            #[trigger] rb.deriv(q),
                            if q == i {
                                q_one()
                            } else {
                                q_zero()
                            },
                        ),
                decreases d - j,
            {
                proof {
                    assert(ra.grad@[j as int].wf());
                    assert(rb.grad@[j as int].wf());
                    assert(ra.deriv(j as int) == ra.grad@[j as int]@);
                    assert(rb.deriv(j as int) == rb.grad@[j as int]@);
                    assert(q_eq(
                        ra.deriv(j as int),
                        if j == i {
                            q_int(-1)
                        } else {
                            q_zero()
                        },
                    ));
                    assert(q_eq(
                        rb.deriv(j as int),
                        if j == i {
                            q_one()
                        } else {
                            q_zero()
                        },
                    ));
                }
                ja.set(i, j, ra.grad[j]);
                jb.set(i, j, rb.grad[j]);
                j += 1;
            }
            res.push(ra.val);
            i += 1;
        }
        Some((res, ja, jb))
    }
}

} // verus!
