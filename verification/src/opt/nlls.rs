//! Entry point of the non-linear least-squares optimization: problem
//! validation, normal-equation assembly and the Levenberg-Marquardt
//! driver.
//!
//! The driver is a pure function of its inputs: it performs no input or
//! output and consults no clock or random source, so running the same
//! problem twice yields bit-identical results.  Evaluation, assembly
//! and the damped solve all happen in exact rational arithmetic; an
//! overflow of the 64-bit scalars is reported through the damping
//! escalation path rather than by panicking.

use crate::linalg::{
    lemma_q_dot_congr, lemma_q_mul_wf, lemma_q_sub_wf, lemma_q_sum_wf, q_dot, q_seq_wf, q_sum,
    qs, rvec_norm_sq, rvec_sub, rvec_wf, MatRat,
};
use crate::opt::cost_fn::{CostFn, PoseGraphCostFn, PriorCostFn, ResidualFn, TermSignature};
use crate::opt::ldlt::{solve_damped, SolveError};
use crate::opt::robust_kernel::RobustKernel;
use crate::opt::variables::{VarKind, VarPool};
use crate::rational::{
    lemma_q_eq_trans, q_add, q_eq, q_le, q_lt, q_mul, q_one, q_sub, q_wf, q_zero, Q, Rat,
};
use vstd::prelude::*;

verus! {

/// `i` is the position of the first family called `nm`.
pub open spec fn is_first_match(names: Seq<String>, nm: Seq<char>, i: int) -> bool {
    &&& 0 <= i < names.len()
    &&& names[i]@ == nm
    &&& forall|p: int| 0 <= p < i ==> (#[trigger] names[p])@ != nm
}

/// Some family is called `nm`.
pub open spec fn has_match(names: Seq<String>, nm: Seq<char>) -> bool {
    exists|i: int| is_first_match(names, nm, i)
}

/// The position of the first family called `nm`.
pub open spec fn first_match(names: Seq<String>, nm: Seq<char>) -> int {
    choose|i: int| is_first_match(names, nm, i)
}

/// First matches are unique, so the chosen one is the witnessed one.
pub proof fn lemma_first_match_unique(names: Seq<String>, nm: Seq<char>, i: int)
    requires
        is_first_match(names, nm, i),
    ensures
        has_match(names, nm),
        first_match(names, nm) == i,
{
    assert(has_match(names, nm));
    let j = first_match(names, nm);
    assert(is_first_match(names, nm, j));
    if j < i {
        assert(names[j]@ != nm);
    } else if i < j {
        assert(names[i]@ != nm);
    }
}

/// Every family reference of the cost resolves: the named families
/// exist and every entity index lies within its family.
pub open spec fn cost_refs_ok(pool: VarPool, c: CostFn) -> bool {
    &&& c.shape_ok()
    &&& forall|a: int|
        0 <= a < c.residual.spec_num_args() ==> has_match(
            pool.names@,
            (#[trigger] c.signature.family_names@[a])@,
        )
    &&& forall|a: int, t: int|
        0 <= a < c.residual.spec_num_args() && 0 <= t < c.signature.terms@.len() ==> (
        #[trigger] c.signature.terms@[t].entity_indices@[a]) < pool.families@[first_match(
            pool.names@,
            c.signature.family_names@[a]@,
        )].values@.len()
}

/// The shapes of the cost agree with the resolved families: constants
/// are one tangent vector of the first family, and a relative term
/// constrains families of one common degrees-of-freedom count.
pub open spec fn cost_dims_ok(pool: VarPool, c: CostFn) -> bool {
    &&& forall|t: int|
        0 <= t < c.signature.terms@.len() ==> (#[trigger] c.signature.terms@[t]).constant@.len()
            == pool.families@[first_match(pool.names@, c.signature.family_names@[0]@)].dof
    &&& (c.residual is PoseGraph ==> pool.families@[first_match(
        pool.names@,
        c.signature.family_names@[0]@,
    )].dof == pool.families@[first_match(pool.names@, c.signature.family_names@[1]@)].dof)
}

/// All references of all costs resolve.
pub open spec fn problem_refs_ok(pool: VarPool, costs: Seq<CostFn>) -> bool {
    forall|k: int| 0 <= k < costs.len() ==> cost_refs_ok(pool, #[trigger] costs[k])
}

/// All shapes of all costs agree with the pool.
pub open spec fn problem_dims_ok(pool: VarPool, costs: Seq<CostFn>) -> bool {
    forall|k: int| 0 <= k < costs.len() ==> cost_dims_ok(pool, #[trigger] costs[k])
}

/// Every term of the cost carries well-formed scalars.
pub open spec fn cost_terms_wf(c: CostFn) -> bool {
    forall|t: int| 0 <= t < c.signature.terms@.len() ==> (#[trigger] c.signature.terms@[t]).wf()
}

/// Every term of every cost carries well-formed scalars.
pub open spec fn costs_terms_wf(costs: Seq<CostFn>) -> bool {
    forall|k: int| 0 <= k < costs.len() ==> cost_terms_wf(#[trigger] costs[k])
}

/// Mathematical residual vector of term `t` of the cost at the pool.
pub open spec fn spec_term_res(pool: VarPool, c: CostFn, t: int) -> Seq<Q> {
    let fm0 = first_match(pool.names@, c.signature.family_names@[0]@);
    let dof = pool.families@[fm0].dof;
    let m = c.signature.terms@[t].constant@;
    match c.residual {
        ResidualFn::Prior(_) => {
            let x = pool.families@[fm0].values@[c.signature.terms@[t].entity_indices@[0] as int]@;
            Seq::new(dof as nat, |i: int| q_sub(x[i]@, m[i]@))
        },
        ResidualFn::PoseGraph(_) => {
            let fm1 = first_match(pool.names@, c.signature.family_names@[1]@);
            let xa = pool.families@[fm0].values@[c.signature.terms@[t].entity_indices@[0] as int]@;
            let xb = pool.families@[fm1].values@[c.signature.terms@[t].entity_indices@[1] as int]@;
            Seq::new(dof as nat, |i: int| q_sub(q_sub(xb[i]@, xa[i]@), m[i]@))
        },
    }
}

/// The robustified cost of one term given its squared residual norm
/// `s`: the norm itself within the kernel threshold (or without a
/// kernel), the squared threshold beyond it — the exact value of the
/// iteratively reweighted `weight * s`.
pub open spec fn spec_weighted_cost(s: Q, kernel: Option<RobustKernel>) -> Q {
    match kernel {
        None => s,
        Some(k) => {
            let tt = q_mul(k.threshold@, k.threshold@);
            if q_le(s, tt) {
                s
            } else {
                tt
            }
        },
    }
}

/// Mathematical robustified cost of one term at the pool.
pub open spec fn spec_term_cost(pool: VarPool, c: CostFn, t: int) -> Q {
    spec_weighted_cost(
        q_dot(spec_term_res(pool, c, t), spec_term_res(pool, c, t)),
        c.signature.terms@[t].robust_kernel,
    )
}

/// Sum of the costs of the first `t` terms of one cost function.
pub open spec fn spec_cost_prefix(pool: VarPool, c: CostFn, t: int) -> Q
    decreases t,
{
    if t <= 0 {
        q_zero()
    } else {
        q_add(spec_cost_prefix(pool, c, t - 1), spec_term_cost(pool, c, t - 1))
    }
}

/// Sum of the costs of the first `k` cost functions.
pub open spec fn spec_total_prefix(pool: VarPool, costs: Seq<CostFn>, k: int) -> Q
    decreases k,
{
    if k <= 0 {
        q_zero()
    } else {
        q_add(
            spec_total_prefix(pool, costs, k - 1),
            spec_cost_prefix(pool, costs[k - 1], costs[k - 1].signature.terms@.len() as int),
        )
    }
}

/// The total robustified cost of the problem at the pool: the value the
/// driver minimizes, and the quantity its result-level contract speaks
/// about.
pub open spec fn spec_total_cost(pool: VarPool, costs: Seq<CostFn>) -> Q {
    spec_total_prefix(pool, costs, costs.len() as int)
}

/// The residual of a valid term is a well-formed mathematical vector.
proof fn lemma_spec_term_res_wf(pool: VarPool, c: CostFn, t: int)
    requires
        pool.wf(),
        cost_terms_wf(c),
        cost_refs_ok(pool, c),
        cost_dims_ok(pool, c),
        0 <= t < c.signature.terms@.len(),
    ensures
        q_seq_wf(spec_term_res(pool, c, t)),
{
    let fm0 = first_match(pool.names@, c.signature.family_names@[0]@);
    assert(has_match(pool.names@, c.signature.family_names@[0]@));
    assert(is_first_match(pool.names@, c.signature.family_names@[0]@, fm0));
    assert(0 <= fm0 < pool.families@.len());
    assert(pool.families@[fm0].wf());
    let dof = pool.families@[fm0].dof;
    let e0 = c.signature.terms@[t].entity_indices@[0];
    assert(c.signature.terms@[t].entity_indices@[0] < pool.families@[fm0].values@.len());
    let x = pool.families@[fm0].values@[e0 as int]@;
    assert(pool.families@[fm0].values@[e0 as int]@.len() == dof);
    assert(rvec_wf(pool.families@[fm0].values@[e0 as int]@));
    assert(c.signature.terms@[t].wf());
    let m = c.signature.terms@[t].constant@;
    assert(c.signature.terms@[t].constant@.len() == dof);
    match c.residual {
        ResidualFn::Prior(_) => {
            assert forall|i: int| 0 <= i < spec_term_res(pool, c, t).len() implies q_wf(
                #[trigger] spec_term_res(pool, c, t)[i],
            ) by {
                assert(x[i].wf());
                assert(m[i].wf());
                lemma_q_sub_wf(x[i]@, m[i]@);
            }
        },
        ResidualFn::PoseGraph(_) => {
            let fm1 = first_match(pool.names@, c.signature.family_names@[1]@);
            assert(has_match(pool.names@, c.signature.family_names@[1]@));
            assert(is_first_match(pool.names@, c.signature.family_names@[1]@, fm1));
            assert(0 <= fm1 < pool.families@.len());
            assert(pool.families@[fm1].wf());
            let e1 = c.signature.terms@[t].entity_indices@[1];
            assert(c.signature.terms@[t].entity_indices@[1] < pool.families@[fm1].values@.len());
            let xb = pool.families@[fm1].values@[e1 as int]@;
            assert(rvec_wf(pool.families@[fm1].values@[e1 as int]@));
            assert forall|i: int| 0 <= i < spec_term_res(pool, c, t).len() implies q_wf(
                #[trigger] spec_term_res(pool, c, t)[i],
            ) by {
                assert(x[i].wf());
                assert(m[i].wf());
                assert(pool.families@[fm1].values@[e1 as int]@.len() == dof) by {
                    assert(pool.families@[fm1].dof == dof);
                }
                assert(xb[i].wf());
                lemma_q_sub_wf(xb[i]@, x[i]@);
                lemma_q_sub_wf(q_sub(xb[i]@, x[i]@), m[i]@);
            }
        },
    }
}

/// The cost of a valid term is a well-formed rational.
proof fn lemma_spec_term_cost_wf(pool: VarPool, c: CostFn, t: int)
    requires
        pool.wf(),
        cost_terms_wf(c),
        cost_refs_ok(pool, c),
        cost_dims_ok(pool, c),
        0 <= t < c.signature.terms@.len(),
    ensures
        q_wf(spec_term_cost(pool, c, t)),
{
    lemma_spec_term_res_wf(pool, c, t);
    let res = spec_term_res(pool, c, t);
    let p = Seq::new(res.len(), |i: int| q_mul(res[i], res[i]));
    assert forall|i: int| 0 <= i < p.len() implies q_wf(#[trigger] p[i]) by {
        lemma_q_mul_wf(res[i], res[i]);
    }
    lemma_q_sum_wf(p);
    assert(q_dot(res, res) == q_sum(p));
    assert(c.signature.terms@[t].wf());
    match c.signature.terms@[t].robust_kernel {
        None => {},
        Some(k) => {
            lemma_q_mul_wf(k.threshold@, k.threshold@);
        },
    }
}

/// A prefix of one cost's term costs is a well-formed rational.
proof fn lemma_spec_cost_prefix_wf(pool: VarPool, c: CostFn, t: int)
    requires
        pool.wf(),
        cost_terms_wf(c),
        cost_refs_ok(pool, c),
        cost_dims_ok(pool, c),
        0 <= t <= c.signature.terms@.len(),
    ensures
        q_wf(spec_cost_prefix(pool, c, t)),
    decreases t,
{
    if t > 0 {
        lemma_spec_cost_prefix_wf(pool, c, t - 1);
        lemma_spec_term_cost_wf(pool, c, t - 1);
        crate::linalg::lemma_q_add_wf(spec_cost_prefix(pool, c, t - 1), spec_term_cost(pool, c, t - 1));
    }
}

/// A prefix of the total cost is a well-formed rational.
proof fn lemma_spec_total_prefix_wf(pool: VarPool, costs: Seq<CostFn>, k: int)
    requires
        pool.wf(),
        costs_terms_wf(costs),
        problem_refs_ok(pool, costs),
        problem_dims_ok(pool, costs),
        0 <= k <= costs.len(),
    ensures
        q_wf(spec_total_prefix(pool, costs, k)),
    decreases k,
{
    if k > 0 {
        lemma_spec_total_prefix_wf(pool, costs, k - 1);
        assert(cost_refs_ok(pool, costs[k - 1]));
        assert(cost_dims_ok(pool, costs[k - 1]));
        assert(cost_terms_wf(costs[k - 1]));
        lemma_spec_cost_prefix_wf(
            pool,
            costs[k - 1],
            costs[k - 1].signature.terms@.len() as int,
        );
        crate::linalg::lemma_q_add_wf(
            spec_total_prefix(pool, costs, k - 1),
            spec_cost_prefix(pool, costs[k - 1], costs[k - 1].signature.terms@.len() as int),
        );
    }
}

/// The total cost of a valid problem is a well-formed rational.
pub proof fn lemma_spec_total_cost_wf(pool: VarPool, costs: Seq<CostFn>)
    requires
        pool.wf(),
        costs_terms_wf(costs),
        problem_refs_ok(pool, costs),
        problem_dims_ok(pool, costs),
    ensures
        q_wf(spec_total_cost(pool, costs)),
{
    lemma_spec_total_prefix_wf(pool, costs, costs.len() as int);
}

/// Structural errors of an optimization problem.
#[derive(Debug, Clone, Copy, PartialEq, Eq, Structural)]
pub enum OptError {
    /// a family reference does not resolve, a term's argument list does
    /// not fit its residual function, or the damping parameter is
    /// negative
    InvalidParameters,
    /// a constant payload or a family pairing disagrees with the
    /// degrees of freedom declared by the resolved families
    DimensionMismatch,
}

/// Checks every reference and shape of the problem against the pool.
fn validate_problem(pool: &VarPool, costs: &Vec<CostFn>) -> (r: Result<(), OptError>)
    requires
        pool.wf(),
        costs_terms_wf(costs@),
    ensures
        r matches Ok(()) <==> (problem_refs_ok(*pool, costs@) && problem_dims_ok(*pool, costs@)),
        r == Result::<(), OptError>::Err(OptError::InvalidParameters) <==> !problem_refs_ok(
            *pool,
            costs@,
        ),
        r == Result::<(), OptError>::Err(OptError::DimensionMismatch) <==> (problem_refs_ok(
            *pool,
            costs@,
        ) && !problem_dims_ok(*pool, costs@)),
{
    let nc = costs.len();
    let mut k: usize = 0;
    // first pass: references
    while k < nc
        invariant
            k <= nc,
            pool.wf(),
            costs_terms_wf(costs@),
            nc == costs@.len(),
            forall|p: int| 0 <= p < k ==> cost_refs_ok(*pool, #[trigger] costs@[p]),
        decreases nc - k,
    {
        if !check_cost_refs(pool, &costs[k]) {
            return Err(OptError::InvalidParameters);
        }
        k += 1;
    }
    // second pass: dimensions
    let mut k: usize = 0;
    while k < nc
        invariant
            k <= nc,
            pool.wf(),
            nc == costs@.len(),
            problem_refs_ok(*pool, costs@),
            forall|p: int| 0 <= p < k ==> cost_dims_ok(*pool, #[trigger] costs@[p]),
        decreases nc - k,
    {
        if !check_cost_dims(pool, &costs[k]) {
            return Err(OptError::DimensionMismatch);
        }
        k += 1;
    }
    Ok(())
}

/// Checks one cost's references against the pool.
fn check_cost_refs(pool: &VarPool, c: &CostFn) -> (r: bool)
    requires
        pool.wf(),
        cost_terms_wf(*c),
    ensures
        r == cost_refs_ok(*pool, *c),
{
    if !c.check_shape() {
        return false;
    }
    let na = c.residual.num_args();
    let mut a: usize = 0;
    while a < na
        invariant
            a <= na,
            pool.wf(),
            c.shape_ok(),
            na as int == c.residual.spec_num_args(),
            c.signature.family_names@.len() == na,
            forall|p: int|
                0 <= p < a ==> has_match(pool.names@, (#[trigger] c.signature.family_names@[p])@),
            forall|p: int, t: int|
                0 <= p < a && 0 <= t < c.signature.terms@.len() ==> (
                #[trigger] c.signature.terms@[t].entity_indices@[p]) < pool.families@[first_match(
                    pool.names@,
                    c.signature.family_names@[p]@,
                )].values@.len(),
        decreases na - a,
    {
        let fi = match pool.find_family(&c.signature.family_names[a]) {
            Some(fi) => fi,
            None => {
                proof {
                    if has_match(pool.names@, c.signature.family_names@[a as int]@) {
                        let w = choose|i: int|
                            is_first_match(
                                pool.names@,
                                c.signature.family_names@[a as int]@,
                                i,
                            );
                        assert(pool.names@[w]@ == c.signature.family_names@[a as int]@);
                    }
                }
                return false;
            },
        };
        proof {
            lemma_first_match_unique(
                pool.names@,
                c.signature.family_names@[a as int]@,
                fi as int,
            );
        }
        let members = pool.families[fi].len();
        let nt = c.signature.terms.len();
        let mut t: usize = 0;
        while t < nt
            invariant
                t <= nt,
                pool.wf(),
                c.shape_ok(),
                a < na,
                na as int == c.residual.spec_num_args(),
                nt == c.signature.terms@.len(),
                fi < pool.families@.len(),
                fi as int == first_match(pool.names@, c.signature.family_names@[a as int]@),
                members == pool.families@[fi as int].values@.len(),
                forall|p: int|
                    0 <= p < t ==> (#[trigger] c.signature.terms@[p].entity_indices@[a as int])
                        < members,
            decreases nt - t,
        {
            if c.signature.terms[t].entity_indices[a] >= members {
                return false;
            }
            t += 1;
        }
        a += 1;
    }
    true
}

/// Checks one cost's shapes against the resolved families.
fn check_cost_dims(pool: &VarPool, c: &CostFn) -> (r: bool)
    requires
        pool.wf(),
        cost_refs_ok(*pool, *c),
    ensures
        r == cost_dims_ok(*pool, *c),
{
    let f0 = match pool.find_family(&c.signature.family_names[0]) {
        Some(f0) => f0,
        None => {
            proof {
                let w = first_match(pool.names@, c.signature.family_names@[0]@);
                assert(is_first_match(pool.names@, c.signature.family_names@[0]@, w));
                assert(pool.names@[w]@ == c.signature.family_names@[0]@);
            }
            return false;
        },
    };
    proof {
        lemma_first_match_unique(pool.names@, c.signature.family_names@[0]@, f0 as int);
    }
    let dof0 = pool.families[f0].dof;
    if matches!(c.residual, ResidualFn::PoseGraph(_)) {
        let f1 = match pool.find_family(&c.signature.family_names[1]) {
            Some(f1) => f1,
            None => {
                proof {
                    let w = first_match(pool.names@, c.signature.family_names@[1]@);
                    assert(is_first_match(pool.names@, c.signature.family_names@[1]@, w));
                    assert(pool.names@[w]@ == c.signature.family_names@[1]@);
                }
                return false;
            },
        };
        proof {
            lemma_first_match_unique(pool.names@, c.signature.family_names@[1]@, f1 as int);
        }
        if pool.families[f1].dof != dof0 {
            return false;
        }
    }
    let nt = c.signature.terms.len();
    let mut t: usize = 0;
    while t < nt
        invariant
            t <= nt,
            pool.wf(),
            nt == c.signature.terms@.len(),
            f0 < pool.families@.len(),
            f0 as int == first_match(pool.names@, c.signature.family_names@[0]@),
            dof0 == pool.families@[f0 as int].dof,
            c.residual is PoseGraph ==> pool.families@[first_match(
                pool.names@,
                c.signature.family_names@[0]@,
            )].dof == pool.families@[first_match(pool.names@, c.signature.family_names@[1]@)].dof,
            forall|p: int|
                0 <= p < t ==> (#[trigger] c.signature.terms@[p]).constant@.len() == dof0,
        decreases nt - t,
    {
        if c.signature.terms[t].constant.len() != dof0 {
            return false;
        }
        t += 1;
    }
    true
}


/// Resolves the family that argument `a` of the cost refers to.
fn resolve_family(pool: &VarPool, c: &CostFn, a: usize) -> (fi: usize)
    requires
        pool.wf(),
        cost_refs_ok(*pool, *c),
        (a as int) < c.residual.spec_num_args(),
    ensures
        fi < pool.families@.len(),
        fi as int == first_match(pool.names@, c.signature.family_names@[a as int]@),
{
    match pool.find_family(&c.signature.family_names[a]) {
        Some(fi) => {
            proof {
                lemma_first_match_unique(
                    pool.names@,
                    c.signature.family_names@[a as int]@,
                    fi as int,
                );
            }
            fi
        },
        None => {
            proof {
                let w = first_match(pool.names@, c.signature.family_names@[a as int]@);
                assert(is_first_match(pool.names@, c.signature.family_names@[a as int]@, w));
                assert(pool.names@[w]@ == c.signature.family_names@[a as int]@);
                assert(false);
            }
            0
        },
    }
}

/// The iteratively-reweighted weight of one term: one without a kernel,
/// the kernel's weight of the squared residual norm otherwise.
fn term_weight(t: &TermSignature, res: &Vec<Rat>) -> (r: Option<Rat>)
    requires
        t.wf(),
        rvec_wf(res@),
    ensures
        r matches Some(w) ==> w.wf(),
{
    match &t.robust_kernel {
        None => Some(Rat::one()),
        Some(k) => {
            let s = match rvec_norm_sq(res) {
                Some(s) => s,
                None => {
                    return None;
                },
            };
            k.weight(&s)
        },
    }
}

/// Adds `w * ji^T jj` into the square block of `h` whose top left corner
/// is `(bi, bj)`.  Reports `false` on 64-bit overflow; `h` is then only
/// partially updated and must be discarded.
fn accumulate_block(h: &mut MatRat, w: &Rat, ji: &MatRat, jj: &MatRat, bi: usize, bj: usize) -> (ok:
    bool)
    requires
        old(h).wf(),
        w.wf(),
        ji.wf(),
        jj.wf(),
        ji.rows == jj.rows,
        bi + ji.cols <= old(h).rows,
        bj + jj.cols <= old(h).cols,
    ensures
        final(h).wf(),
        final(h).rows == old(h).rows,
        final(h).cols == old(h).cols,
{
    let d = ji.cols;
    let e = jj.cols;
    let m = ji.rows;
    let mut p: usize = 0;
    while p < d
        invariant
            p <= d,
            h.wf(),
            h.rows == old(h).rows,
            h.cols == old(h).cols,
            w.wf(),
            ji.wf(),
            jj.wf(),
            m == ji.rows == jj.rows,
            d == ji.cols,
            e == jj.cols,
            bi + d <= h.rows,
            bj + e <= h.cols,
        decreases d - p,
    {
        let mut q: usize = 0;
        while q < e
            invariant
                q <= e,
                p < d,
                h.wf(),
                h.rows == old(h).rows,
                h.cols == old(h).cols,
                w.wf(),
                ji.wf(),
                jj.wf(),
                m == ji.rows == jj.rows,
                d == ji.cols,
                e == jj.cols,
                bi + d <= h.rows,
                bj + e <= h.cols,
            decreases e - q,
        {
            let mut acc = Rat::zero();
            let mut k: usize = 0;
            while k < m
                invariant
                    k <= m,
                    p < d,
                    q < e,
                    h.wf(),
                    h.rows == old(h).rows,
                    h.cols == old(h).cols,
                    w.wf(),
                    ji.wf(),
                    jj.wf(),
                    m == ji.rows == jj.rows,
                    d == ji.cols,
                    e == jj.cols,
                    acc.wf(),
                decreases m - k,
            {
                let t = match ji.get(k, p).mul(&jj.get(k, q)) {
                    Some(t) => t,
                    None => {
                        return false;
                    },
                };
                acc = match acc.add(&t) {
                    Some(a) => a,
                    None => {
                        return false;
                    },
                };
                k += 1;
            }
            let wterm = match w.mul(&acc) {
                Some(c) => c,
                None => {
                    return false;
                },
            };
            let cur = h.get(bi + p, bj + q);
            let updated = match cur.add(&wterm) {
                Some(u) => u,
                None => {
                    return false;
                },
            };
            h.set(bi + p, bj + q, updated);
            q += 1;
        }
        p += 1;
    }
    true
}

/// Subtracts `w * ji^T res` from the rows of `nb` starting at `bi`,
/// accumulating the negated gradient.  Reports `false` on overflow.
fn accumulate_grad(nb: &mut Vec<Rat>, w: &Rat, ji: &MatRat, res: &Vec<Rat>, bi: usize) -> (ok: bool)
    requires
        rvec_wf(old(nb)@),
        w.wf(),
        ji.wf(),
        rvec_wf(res@),
        ji.rows == res@.len(),
        bi + ji.cols <= old(nb)@.len(),
    ensures
        final(nb)@.len() == old(nb)@.len(),
        rvec_wf(final(nb)@),
{
    let d = ji.cols;
    let m = ji.rows;
    let nlen = nb.len();
    let mut p: usize = 0;
    while p < d
        invariant
            p <= d,
            rvec_wf(nb@),
            nb@.len() == old(nb)@.len(),
            nlen == nb@.len(),
            w.wf(),
            ji.wf(),
            rvec_wf(res@),
            m == ji.rows == res@.len(),
            d == ji.cols,
            bi + d <= nb@.len(),
        decreases d - p,
    {
        let mut acc = Rat::zero();
        let mut k: usize = 0;
        while k < m
            invariant
                k <= m,
                p < d,
                rvec_wf(nb@),
                nb@.len() == old(nb)@.len(),
                w.wf(),
                ji.wf(),
                rvec_wf(res@),
                m == ji.rows == res@.len(),
                d == ji.cols,
                acc.wf(),
            decreases m - k,
        {
            proof {
                assert(res@[k as int].wf());
            }
            let t = match ji.get(k, p).mul(&res[k]) {
                Some(t) => t,
                None => {
                    return false;
                },
            };
            acc = match acc.add(&t) {
                Some(a) => a,
                None => {
                    return false;
                },
            };
            k += 1;
        }
        let wterm = match w.mul(&acc) {
            Some(c) => c,
            None => {
                return false;
            },
        };
        proof {
            assert(nb@[(bi + p) as int].wf());
        }
        let updated = match nb[bi + p].sub(&wterm) {
            Some(u) => u,
            None => {
                return false;
            },
        };
        nb.set(bi + p, updated);
        p += 1;
    }
    true
}

/// Scalar row range of the free variable `vi` of family `fi`, together
/// with the facts needed to index the system safely.
fn block_base(pool: &VarPool, fi: usize, vi: usize, dof: usize) -> (base: usize)
    requires
        pool.wf(),
        fi < pool.families@.len(),
        pool.families@[fi as int].kind is Free,
        vi < pool.families@[fi as int].values@.len(),
        dof == pool.families@[fi as int].dof,
    ensures
        base + dof <= pool.total_dim,
        base as int == crate::opt::variables::prefix_dim(pool.families@, fi as int) + vi * dof,
{
    proof {
        pool.lemma_row_in_range(fi as int, vi as int, 0);
        pool.lemma_row_in_range(fi as int, vi as int, dof as int - 1);
        crate::opt::variables::lemma_prefix_dim_monotonic(pool.families@, 0, fi as int);
    }
    let off = pool.offsets[fi];
    off + vi * dof
}

/// Builds the normal equations `H` and the negated gradient at the
/// current pool: `H` accumulates `w * J_i^T J_j` over every pair of free
/// arguments of every term, in one fixed term order, and the right-hand
/// side accumulates `-w * J_i^T r`.  Fixed and conditioned arguments are
/// evaluated but contribute no block.  `None` only on 64-bit overflow.
fn build_normal_equations(pool: &VarPool, costs: &Vec<CostFn>) -> (r: Option<(MatRat, Vec<Rat>)>)
    requires
        pool.wf(),
        costs_terms_wf(costs@),
        problem_refs_ok(*pool, costs@),
        problem_dims_ok(*pool, costs@),
    ensures
        r matches Some(sys) ==> {
            &&& sys.0.wf()
            &&& sys.0.rows == pool.total_dim
            &&& sys.0.cols == pool.total_dim
            &&& sys.1@.len() == pool.total_dim
            &&& rvec_wf(sys.1@)
        },
{
    let n = pool.total_dim;
    let mut h = match MatRat::zeros_checked(n, n) {
        Some(m) => m,
        None => {
            return None;
        },
    };
    let mut nb: Vec<Rat> = Vec::new();
    let mut z: usize = 0;
    while z < n
        invariant
            z <= n,
            nb@.len() == z,
            rvec_wf(nb@),
        decreases n - z,
    {
        nb.push(Rat::zero());
        z += 1;
    }
    let nc = costs.len();
    let mut k: usize = 0;
    while k < nc
        invariant
            k <= nc,
            pool.wf(),
            costs_terms_wf(costs@),
            problem_refs_ok(*pool, costs@),
            problem_dims_ok(*pool, costs@),
            nc == costs@.len(),
            n == pool.total_dim,
            h.wf(),
            h.rows == n,
            h.cols == n,
            nb@.len() == n,
            rvec_wf(nb@),
        decreases nc - k,
    {
        let c = &costs[k];
        let nt = c.signature.terms.len();
        match &c.residual {
            ResidualFn::Prior(pf) => {
                let fi = resolve_family(pool, c, 0);
                let dof = pool.families[fi].dof;
                let is_free = matches!(pool.families[fi].kind, VarKind::Free);
                let mut t: usize = 0;
                while t < nt
                    invariant
                        t <= nt,
                        pool.wf(),
                        cost_terms_wf(*c),
                        cost_refs_ok(*pool, *c),
                        cost_dims_ok(*pool, *c),
                        c.residual is Prior,
                        nt == c.signature.terms@.len(),
                        n == pool.total_dim,
                        fi < pool.families@.len(),
                        fi as int == first_match(pool.names@, c.signature.family_names@[0]@),
                        dof == pool.families@[fi as int].dof,
                        is_free == pool.families@[fi as int].kind is Free,
                        h.wf(),
                        h.rows == n,
                        h.cols == n,
                        nb@.len() == n,
                        rvec_wf(nb@),
                    decreases nt - t,
                {
                    let vi = c.signature.terms[t].entity_indices[0];
                    proof {
                        assert(c.signature.terms@[t as int].entity_indices@[0]
                            < pool.families@[fi as int].values@.len());
                        assert(pool.families@[fi as int].wf());
                        assert(pool.families@[fi as int].values@[vi as int]@.len() == dof);
                        assert(rvec_wf(pool.families@[fi as int].values@[vi as int]@));
                        assert(c.signature.terms@[t as int].constant@.len() == dof);
                        assert(c.signature.terms@[t as int].wf());
                    }
                    let x = &pool.families[fi].values[vi];
                    let rj = match pf.eval(x, &c.signature.terms[t].constant) {
                        Some(rj) => rj,
                        None => {
                            return None;
                        },
                    };
                    let (res, jac) = rj;
                    let w = match term_weight(&c.signature.terms[t], &res) {
                        Some(w) => w,
                        None => {
                            return None;
                        },
                    };
                    if is_free {
                        let base = block_base(pool, fi, vi, dof);
                        if !accumulate_block(&mut h, &w, &jac, &jac, base, base) {
                            return None;
                        }
                        if !accumulate_grad(&mut nb, &w, &jac, &res, base) {
                            return None;
                        }
                    }
                    t += 1;
                }
            },
            ResidualFn::PoseGraph(pg) => {
                let fa = resolve_family(pool, c, 0);
                let fb = resolve_family(pool, c, 1);
                let dof = pool.families[fa].dof;
                let free_a = matches!(pool.families[fa].kind, VarKind::Free);
                let free_b = matches!(pool.families[fb].kind, VarKind::Free);
                let mut t: usize = 0;
                while t < nt
                    invariant
                        t <= nt,
                        pool.wf(),
                        cost_terms_wf(*c),
                        cost_refs_ok(*pool, *c),
                        cost_dims_ok(*pool, *c),
                        c.residual is PoseGraph,
                        nt == c.signature.terms@.len(),
                        n == pool.total_dim,
                        fa < pool.families@.len(),
                        fb < pool.families@.len(),
                        fa as int == first_match(pool.names@, c.signature.family_names@[0]@),
                        fb as int == first_match(pool.names@, c.signature.family_names@[1]@),
                        dof == pool.families@[fa as int].dof,
                        dof == pool.families@[fb as int].dof,
                        free_a == pool.families@[fa as int].kind is Free,
                        free_b == pool.families@[fb as int].kind is Free,
                        h.wf(),
                        h.rows == n,
                        h.cols == n,
                        nb@.len() == n,
                        rvec_wf(nb@),
                    decreases nt - t,
                {
                    let via = c.signature.terms[t].entity_indices[0];
                    let vib = c.signature.terms[t].entity_indices[1];
                    proof {
                        assert(c.signature.terms@[t as int].entity_indices@[0]
                            < pool.families@[fa as int].values@.len());
                        assert(c.signature.terms@[t as int].entity_indices@[1]
                            < pool.families@[fb as int].values@.len());
                        assert(pool.families@[fa as int].wf());
                        assert(pool.families@[fb as int].wf());
                        assert(pool.families@[fa as int].values@[via as int]@.len() == dof);
                        assert(pool.families@[fb as int].values@[vib as int]@.len() == dof);
                        assert(rvec_wf(pool.families@[fa as int].values@[via as int]@));
                        assert(rvec_wf(pool.families@[fb as int].values@[vib as int]@));
                        assert(c.signature.terms@[t as int].constant@.len() == dof);
                        assert(c.signature.terms@[t as int].wf());
                    }
                    let xa = &pool.families[fa].values[via];
                    let xb = &pool.families[fb].values[vib];
                    let rj = match pg.eval(xa, xb, &c.signature.terms[t].constant) {
                        Some(rj) => rj,
                        None => {
                            return None;
                        },
                    };
                    let (res, ja, jb) = rj;
                    let w = match term_weight(&c.signature.terms[t], &res) {
                        Some(w) => w,
                        None => {
                            return None;
                        },
                    };
                    if free_a {
                        let base_a = block_base(pool, fa, via, dof);
                        if !accumulate_block(&mut h, &w, &ja, &ja, base_a, base_a) {
                            return None;
                        }
                        if !accumulate_grad(&mut nb, &w, &ja, &res, base_a) {
                            return None;
                        }
                        if free_b {
                            let base_b = block_base(pool, fb, vib, dof);
                            if !accumulate_block(&mut h, &w, &ja, &jb, base_a, base_b) {
                                return None;
                            }
                            if !accumulate_block(&mut h, &w, &jb, &ja, base_b, base_a) {
                                return None;
                            }
                        }
                    }
                    if free_b {
                        let base_b = block_base(pool, fb, vib, dof);
                        if !accumulate_block(&mut h, &w, &jb, &jb, base_b, base_b) {
                            return None;
                        }
                        if !accumulate_grad(&mut nb, &w, &jb, &res, base_b) {
                            return None;
                        }
                    }
                    t += 1;
                }
            },
        }
        k += 1;
    }
    Some((h, nb))
}

/// Total robustified cost of the problem at the pool: the sum over all
/// terms of the kernel weight times the squared residual norm (the
/// squared norm itself for terms without a kernel).  The result is
/// exactly the mathematical [`spec_total_cost`].  `None` only on
/// 64-bit overflow.
fn total_cost(pool: &VarPool, costs: &Vec<CostFn>) -> (r: Option<Rat>)
    requires
        pool.wf(),
        costs_terms_wf(costs@),
        problem_refs_ok(*pool, costs@),
        problem_dims_ok(*pool, costs@),
    ensures
        r matches Some(c) ==> c.wf() && q_eq(c@, spec_total_cost(*pool, costs@)),
{
    let mut acc = Rat::zero();
    let nc = costs.len();
    let mut k: usize = 0;
    while k < nc
        invariant
            k <= nc,
            pool.wf(),
            costs_terms_wf(costs@),
            problem_refs_ok(*pool, costs@),
            problem_dims_ok(*pool, costs@),
            nc == costs@.len(),
            acc.wf(),
            q_eq(acc@, spec_total_prefix(*pool, costs@, k as int)),
        decreases nc - k,
    {
        let c = &costs[k];
        let nt = c.signature.terms.len();
        let mut t: usize = 0;
        proof {
            lemma_spec_total_prefix_wf(*pool, costs@, k as int);
            crate::rational::lemma_q_add_zero_right(spec_total_prefix(*pool, costs@, k as int));
            crate::linalg::lemma_q_add_wf(
                spec_total_prefix(*pool, costs@, k as int),
                q_zero(),
            );
            lemma_q_eq_trans(
                acc@,
                spec_total_prefix(*pool, costs@, k as int),
                q_add(spec_total_prefix(*pool, costs@, k as int), q_zero()),
            );
            assert(q_eq(
                acc@,
                q_add(
                    spec_total_prefix(*pool, costs@, k as int),
                    spec_cost_prefix(*pool, *c, 0),
                ),
            ));
        }
        while t < nt
            invariant
                t <= nt,
                k < nc,
                pool.wf(),
                costs_terms_wf(costs@),
                problem_refs_ok(*pool, costs@),
                problem_dims_ok(*pool, costs@),
                nc == costs@.len(),
                *c == costs@[k as int],
                cost_terms_wf(*c),
                cost_refs_ok(*pool, *c),
                cost_dims_ok(*pool, *c),
                nt == c.signature.terms@.len(),
                acc.wf(),
                q_eq(
                    acc@,
                    q_add(
                        spec_total_prefix(*pool, costs@, k as int),
                        spec_cost_prefix(*pool, *c, t as int),
                    ),
                ),
            decreases nt - t,
        {
            // residual value only; no derivatives are needed for the cost
            let res = match eval_residual_only(pool, c, t) {
                Some(res) => res,
                None => {
                    return None;
                },
            };
            let s = match rvec_norm_sq(&res) {
                Some(s) => s,
                None => {
                    return None;
                },
            };
            let ghost res_spec = spec_term_res(*pool, *c, t as int);
            let ghost s_spec = q_dot(res_spec, res_spec);
            proof {
                // the computed squared norm is the mathematical one
                lemma_spec_term_res_wf(*pool, *c, t as int);
                assert forall|i: int| 0 <= i < qs(res@).len() implies q_wf(
                    #[trigger] qs(res@)[i],
                ) && q_eq(qs(res@)[i], res_spec[i]) by {
                    assert(res@[i].wf());
                    assert(q_eq(res@[i]@, res_spec[i]));
                }
                lemma_q_dot_congr(qs(res@), qs(res@), res_spec, res_spec);
                let p1 = Seq::new(qs(res@).len(), |i: int| q_mul(qs(res@)[i], qs(res@)[i]));
                assert forall|i: int| 0 <= i < p1.len() implies q_wf(#[trigger] p1[i]) by {
                    assert(res@[i].wf());
                    lemma_q_mul_wf(res@[i]@, res@[i]@);
                }
                lemma_q_sum_wf(p1);
                assert(q_dot(qs(res@), qs(res@)) == q_sum(p1));
                let p2 = Seq::new(res_spec.len(), |i: int| q_mul(res_spec[i], res_spec[i]));
                assert forall|i: int| 0 <= i < p2.len() implies q_wf(#[trigger] p2[i]) by {
                    lemma_q_mul_wf(res_spec[i], res_spec[i]);
                }
                lemma_q_sum_wf(p2);
                assert(s_spec == q_sum(p2));
                lemma_q_eq_trans(s@, q_dot(qs(res@), qs(res@)), s_spec);
            }
            let weighted: Rat;
            match &c.signature.terms[t].robust_kernel {
                None => {
                    weighted = s;
                },
                Some(kernel) => {
                    proof {
                        assert(c.signature.terms@[t as int].wf());
                    }
                    let w = match kernel.weight(&s) {
                        Some(w) => w,
                        None => {
                            return None;
                        },
                    };
                    weighted = match w.mul(&s) {
                        Some(x) => x,
                        None => {
                            return None;
                        },
                    };
                    proof {
                        let tt = q_mul(kernel.threshold@, kernel.threshold@);
                        lemma_q_mul_wf(kernel.threshold@, kernel.threshold@);
                        lemma_q_mul_wf(w@, s@);
                        if q_le(s@, tt) {
                            // inlier: weight one, the cost is the norm itself
                            assert(w@ == q_one());
                            crate::rational::lemma_q_mul_one_left(s@);
                            lemma_q_eq_trans(weighted@, q_mul(w@, s@), s@);
                            lemma_q_eq_trans(weighted@, s@, s_spec);
                            // the mathematical branch agrees
                            crate::rational::lemma_q_le_congr(s@, tt, s_spec, tt);
                            assert(spec_weighted_cost(s_spec, Some(*kernel)) == s_spec);
                        } else {
                            // outlier: the weighted norm is the squared threshold
                            assert(q_lt(tt, s@));
                            assert(q_eq(q_mul(w@, s@), tt));
                            lemma_q_eq_trans(weighted@, q_mul(w@, s@), tt);
                            // the mathematical branch is the threshold too
                            assert(!q_le(s_spec, tt)) by {
                                if q_le(s_spec, tt) {
                                    crate::rational::lemma_q_le_congr(s_spec, tt, s@, tt);
                                }
                            }
                            assert(spec_weighted_cost(s_spec, Some(*kernel)) == tt);
                            crate::rational::lemma_q_eq_sym(tt, tt);
                        }
                    }
                },
            }
            proof {
                // weighted == the term's mathematical cost
                lemma_spec_term_cost_wf(*pool, *c, t as int);
                if c.signature.terms@[t as int].robust_kernel is Some {
                    let tt = q_mul(
                        c.signature.terms@[t as int].robust_kernel->Some_0.threshold@,
                        c.signature.terms@[t as int].robust_kernel->Some_0.threshold@,
                    );
                    if !q_le(s_spec, tt) {
                        lemma_q_eq_trans(weighted@, tt, spec_term_cost(*pool, *c, t as int));
                    }
                }
            }
            let acc2 = match acc.add(&weighted) {
                Some(a) => a,
                None => {
                    return None;
                },
            };
            proof {
                let partial = q_add(
                    spec_total_prefix(*pool, costs@, k as int),
                    spec_cost_prefix(*pool, *c, t as int),
                );
                lemma_spec_total_prefix_wf(*pool, costs@, k as int);
                lemma_spec_cost_prefix_wf(*pool, *c, t as int);
                lemma_spec_term_cost_wf(*pool, *c, t as int);
                crate::linalg::lemma_q_add_wf(
                    spec_total_prefix(*pool, costs@, k as int),
                    spec_cost_prefix(*pool, *c, t as int),
                );
                crate::rational::lemma_q_add_congr(
                    acc@,
                    weighted@,
                    partial,
                    spec_term_cost(*pool, *c, t as int),
                );
                crate::linalg::lemma_q_add_wf(acc@, weighted@);
                crate::linalg::lemma_q_add_wf(partial, spec_term_cost(*pool, *c, t as int));
                lemma_q_eq_trans(
                    acc2@,
                    q_add(acc@, weighted@),
                    q_add(partial, spec_term_cost(*pool, *c, t as int)),
                );
                // regroup: (total + cost_t) + term_t == total + (cost_t + term_t)
                lemma_q_add_assoc_congr(
                    spec_total_prefix(*pool, costs@, k as int),
                    spec_cost_prefix(*pool, *c, t as int),
                    spec_term_cost(*pool, *c, t as int),
                );
                crate::linalg::lemma_q_add_wf(
                    spec_cost_prefix(*pool, *c, t as int),
                    spec_term_cost(*pool, *c, t as int),
                );
                crate::linalg::lemma_q_add_wf(
                    spec_total_prefix(*pool, costs@, k as int),
                    q_add(
                        spec_cost_prefix(*pool, *c, t as int),
                        spec_term_cost(*pool, *c, t as int),
                    ),
                );
                lemma_q_eq_trans(
                    acc2@,
                    q_add(partial, spec_term_cost(*pool, *c, t as int)),
                    q_add(
                        spec_total_prefix(*pool, costs@, k as int),
                        spec_cost_prefix(*pool, *c, t as int + 1),
                    ),
                );
            }
            acc = acc2;
            t += 1;
        }
        proof {
            // the full cost prefix of this cost function folds into the
            // total prefix of the next one
            assert(spec_cost_prefix(*pool, *c, nt as int) == spec_cost_prefix(
                *pool,
                costs@[k as int],
                costs@[k as int].signature.terms@.len() as int,
            ));
            assert(spec_total_prefix(*pool, costs@, k as int + 1) == q_add(
                spec_total_prefix(*pool, costs@, k as int),
                spec_cost_prefix(
                    *pool,
                    costs@[k as int],
                    costs@[k as int].signature.terms@.len() as int,
                ),
            ));
        }
        k += 1;
    }
    proof {
        assert(spec_total_prefix(*pool, costs@, nc as int) == spec_total_cost(*pool, costs@));
    }
    Some(acc)
}

/// Associativity of the exact sum, up to value equality.
proof fn lemma_q_add_assoc_congr(a: Q, b: Q, c: Q)
    requires
        q_wf(a),
        q_wf(b),
        q_wf(c),
    ensures
        q_eq(q_add(q_add(a, b), c), q_add(a, q_add(b, c))),
{
    let lhs = q_add(q_add(a, b), c);
    let rhs = q_add(a, q_add(b, c));
    assert(lhs.n == (a.n * b.d + b.n * a.d) * c.d + c.n * (a.d * b.d));
    assert(rhs.n == a.n * (b.d * c.d) + (b.n * c.d + c.n * b.d) * a.d);
    assert((a.n * b.d + b.n * a.d) * c.d == (a.n * b.d) * c.d + (b.n * a.d) * c.d)
        by (nonlinear_arith);
    assert((b.n * c.d + c.n * b.d) * a.d == (b.n * c.d) * a.d + (c.n * b.d) * a.d)
        by (nonlinear_arith);
    assert((a.n * b.d) * c.d == a.n * (b.d * c.d)) by (nonlinear_arith);
    assert((b.n * a.d) * c.d == (b.n * c.d) * a.d) by (nonlinear_arith);
    assert(c.n * (a.d * b.d) == (c.n * b.d) * a.d) by (nonlinear_arith);
    assert(lhs.d == (a.d * b.d) * c.d);
    assert(rhs.d == a.d * (b.d * c.d));
    assert((a.d * b.d) * c.d == a.d * (b.d * c.d)) by (nonlinear_arith);
}

/// Evaluates the residual vector of one term at the pool; the result
/// is exactly the mathematical residual [`spec_term_res`].
fn eval_residual_only(pool: &VarPool, c: &CostFn, t: usize) -> (r: Option<Vec<Rat>>)
    requires
        pool.wf(),
        cost_terms_wf(*c),
        cost_refs_ok(*pool, *c),
        cost_dims_ok(*pool, *c),
        t < c.signature.terms@.len(),
    ensures
        r matches Some(res) ==> {
            &&& rvec_wf(res@)
            &&& res@.len() == spec_term_res(*pool, *c, t as int).len()
            &&& forall|i: int|
                0 <= i < res@.len() ==> q_eq(
                    #[trigger] res@[i]@,
                    spec_term_res(*pool, *c, t as int)[i],
                )
        },
{
    match &c.residual {
        ResidualFn::Prior(_) => {
            let fi = resolve_family(pool, c, 0);
            let dof = pool.families[fi].dof;
            let vi = c.signature.terms[t].entity_indices[0];
            proof {
                assert(c.signature.terms@[t as int].entity_indices@[0]
                    < pool.families@[fi as int].values@.len());
                assert(pool.families@[fi as int].wf());
                assert(pool.families@[fi as int].values@[vi as int]@.len() == dof);
                assert(rvec_wf(pool.families@[fi as int].values@[vi as int]@));
                assert(c.signature.terms@[t as int].constant@.len() == dof);
                assert(c.signature.terms@[t as int].wf());
            }
            let res = rvec_sub(&pool.families[fi].values[vi], &c.signature.terms[t].constant);
            proof {
                if res is Some {
                    let rv = res->Some_0;
                    assert forall|i: int| 0 <= i < rv@.len() implies q_eq(
                        #[trigger] rv@[i]@,
                        spec_term_res(*pool, *c, t as int)[i],
                    ) by {
                        assert(q_eq(
                            rv@[i]@,
                            q_sub(
                                pool.families@[fi as int].values@[vi as int]@[i]@,
                                c.signature.terms@[t as int].constant@[i]@,
                            ),
                        ));
                    }
                }
            }
            res
        },
        ResidualFn::PoseGraph(_) => {
            let fa = resolve_family(pool, c, 0);
            let fb = resolve_family(pool, c, 1);
            let dof = pool.families[fa].dof;
            let via = c.signature.terms[t].entity_indices[0];
            let vib = c.signature.terms[t].entity_indices[1];
            proof {
                assert(c.signature.terms@[t as int].entity_indices@[0]
                    < pool.families@[fa as int].values@.len());
                assert(c.signature.terms@[t as int].entity_indices@[1]
                    < pool.families@[fb as int].values@.len());
                assert(pool.families@[fa as int].wf());
                assert(pool.families@[fb as int].wf());
                assert(pool.families@[fa as int].values@[via as int]@.len() == dof);
                assert(pool.families@[fb as int].values@[vib as int]@.len() == dof);
                assert(rvec_wf(pool.families@[fa as int].values@[via as int]@));
                assert(rvec_wf(pool.families@[fb as int].values@[vib as int]@));
                assert(c.signature.terms@[t as int].constant@.len() == dof);
                assert(c.signature.terms@[t as int].wf());
            }
            let diff = match rvec_sub(
                &pool.families[fb].values[vib],
                &pool.families[fa].values[via],
            ) {
                Some(d) => d,
                None => {
                    return None;
                },
            };
            let res = rvec_sub(&diff, &c.signature.terms[t].constant);
            proof {
                if res is Some {
                    let rv = res->Some_0;
                    let xa = pool.families@[fa as int].values@[via as int]@;
                    let xb = pool.families@[fb as int].values@[vib as int]@;
                    let m = c.signature.terms@[t as int].constant@;
                    assert forall|i: int| 0 <= i < rv@.len() implies q_eq(
                        #[trigger] rv@[i]@,
                        spec_term_res(*pool, *c, t as int)[i],
                    ) by {
                        assert(xa[i].wf());
                        assert(xb[i].wf());
                        assert(m[i].wf());
                        assert(diff@[i].wf());
                        assert(rv@[i].wf());
                        // rv[i] == diff[i] - m[i] and diff[i] == xb[i] - xa[i]
                        lemma_q_sub_wf(xb[i]@, xa[i]@);
                        lemma_q_sub_wf(diff@[i]@, m[i]@);
                        lemma_q_sub_wf(q_sub(xb[i]@, xa[i]@), m[i]@);
                        crate::rational::lemma_q_sub_congr(
                            diff@[i]@,
                            m[i]@,
                            q_sub(xb[i]@, xa[i]@),
                            m[i]@,
                        );
                        lemma_q_eq_trans(
                            rv@[i]@,
                            q_sub(diff@[i]@, m[i]@),
                            q_sub(q_sub(xb[i]@, xa[i]@), m[i]@),
                        );
                    }
                }
            }
            res
        },
    }
}


/// Terminal state of one `optimize` call.
#[derive(Debug, Clone, Copy, PartialEq, Eq, Structural)]
pub enum OptStatus {
    /// the cost could not be decreased further
    Converged,
    /// the iteration budget was exhausted
    MaxIterReached,
    /// damping escalation was exhausted without an acceptable step
    Failed,
}

/// Configuration of one `optimize` call.
#[derive(Debug, Clone)]
pub struct OptParams {
    /// maximum number of outer iterations
    pub num_iter: usize,
    /// starting damping value; must not be negative
    pub initial_lm_nu: Rat,
}

/// Result of one `optimize` call: the last valid pool and how the
/// iteration ended.
#[derive(Debug, Clone)]
pub struct OptOutcome {
    /// the optimized pool
    pub pool: VarPool,
    /// how the iteration ended
    pub status: OptStatus,
}

/// `b` has the same families, kinds, degrees of freedom, member counts
/// and block layout as `a`; only stored values may differ.
pub open spec fn same_layout(a: VarPool, b: VarPool) -> bool {
    &&& b.names@ == a.names@
    &&& b.offsets@ == a.offsets@
    &&& b.total_dim == a.total_dim
    &&& b.families@.len() == a.families@.len()
    &&& forall|f: int|
        0 <= f < a.families@.len() ==> {
            &&& (#[trigger] b.families@[f]).kind == a.families@[f].kind
            &&& b.families@[f].dof == a.families@[f].dof
            &&& b.families@[f].values@.len() == a.families@[f].values@.len()
        }
}

/// Every value of every non-free family of `b` equals its value in `a`.
pub open spec fn fixed_values_preserved(a: VarPool, b: VarPool) -> bool {
    forall|f: int, v: int|
        0 <= f < a.families@.len() && !(a.families@[f].kind is Free) && 0 <= v
            < a.families@[f].values@.len() ==> (#[trigger] b.families@[f].values@[v])@
            == a.families@[f].values@[v]@
}

/// Layout equality is transitive.
pub proof fn lemma_same_layout_trans(a: VarPool, b: VarPool, c: VarPool)
    requires
        same_layout(a, b),
        same_layout(b, c),
    ensures
        same_layout(a, c),
{
    assert forall|f: int| 0 <= f < a.families@.len() implies {
        &&& (#[trigger] c.families@[f]).kind == a.families@[f].kind
        &&& c.families@[f].dof == a.families@[f].dof
        &&& c.families@[f].values@.len() == a.families@[f].values@.len()
    } by {
        assert(b.families@[f].kind == a.families@[f].kind);
        assert(c.families@[f].kind == b.families@[f].kind);
    }
}

/// Preservation of non-free values is transitive along equal layouts.
pub proof fn lemma_fixed_preserved_trans(a: VarPool, b: VarPool, c: VarPool)
    requires
        same_layout(a, b),
        fixed_values_preserved(a, b),
        fixed_values_preserved(b, c),
    ensures
        fixed_values_preserved(a, c),
{
    assert forall|f: int, v: int|
        0 <= f < a.families@.len() && !(a.families@[f].kind is Free) && 0 <= v
            < a.families@[f].values@.len() implies (#[trigger] c.families@[f].values@[v])@
        == a.families@[f].values@[v]@ by {
        assert(b.families@[f].kind == a.families@[f].kind);
        assert(b.families@[f].values@.len() == a.families@[f].values@.len());
        assert(b.families@[f].values@[v]@ == a.families@[f].values@[v]@);
        assert(c.families@[f].values@[v]@ == b.families@[f].values@[v]@);
    }
}

/// A valid problem stays valid on any pool with the same layout.
pub proof fn lemma_layout_preserves_validity(a: VarPool, b: VarPool, costs: Seq<CostFn>)
    requires
        a.wf(),
        same_layout(a, b),
        problem_refs_ok(a, costs),
        problem_dims_ok(a, costs),
    ensures
        problem_refs_ok(b, costs),
        problem_dims_ok(b, costs),
{
    assert forall|k: int| 0 <= k < costs.len() implies cost_refs_ok(b, #[trigger] costs[k])
        && cost_dims_ok(b, costs[k]) by {
        let c = costs[k];
        assert(cost_refs_ok(a, c));
        assert(cost_dims_ok(a, c));
        assert(b.names@ == a.names@);
        assert forall|t: int, aa: int|
            0 <= aa < c.residual.spec_num_args() && 0 <= t < c.signature.terms@.len() implies (
        #[trigger] c.signature.terms@[t].entity_indices@[aa]) < b.families@[first_match(
            b.names@,
            c.signature.family_names@[aa]@,
        )].values@.len() by {
            let fm = first_match(a.names@, c.signature.family_names@[aa]@);
            assert(has_match(a.names@, c.signature.family_names@[aa]@));
            assert(is_first_match(a.names@, c.signature.family_names@[aa]@, fm));
            assert(0 <= fm < a.families@.len());
            assert(b.families@[fm].values@.len() == a.families@[fm].values@.len());
        }
        let fm0 = first_match(a.names@, c.signature.family_names@[0]@);
        assert(has_match(a.names@, c.signature.family_names@[0]@));
        assert(is_first_match(a.names@, c.signature.family_names@[0]@, fm0));
        assert(0 <= fm0 < a.families@.len());
        assert(b.families@[fm0].dof == a.families@[fm0].dof);
        if c.residual is PoseGraph {
            let fm1 = first_match(a.names@, c.signature.family_names@[1]@);
            assert(has_match(a.names@, c.signature.family_names@[1]@));
            assert(is_first_match(a.names@, c.signature.family_names@[1]@, fm1));
            assert(0 <= fm1 < a.families@.len());
            assert(b.families@[fm1].dof == a.families@[fm1].dof);
        }
    }
}

/// Escalates the damping value: a tiny positive value from zero, ten
/// times the current value otherwise.  `None` only on overflow.
fn grow_damping(l: &Rat) -> (r: Option<Rat>)
    requires
        l.wf(),
    ensures
        r matches Some(v) ==> v.wf(),
{
    let zero = Rat::zero();
    if l.eq_val(&zero) {
        let small = match Rat::new(1, 1000000) {
            Some(s) => s,
            None => {
                proof {
                    assert(false);
                }
                Rat::zero()
            },
        };
        Some(small)
    } else {
        let ten = Rat::from_int(10);
        l.mul(&ten)
    }
}

/// Relaxes the damping value after an accepted step, dividing it by
/// ten; the value is kept unchanged when the division overflows.
fn shrink_damping(l: &Rat) -> (r: Rat)
    requires
        l.wf(),
    ensures
        r.wf(),
{
    let ten = Rat::from_int(10);
    match l.div(&ten) {
        Some(v) => v,
        None => *l,
    }
}

/// The damping ceiling: beyond this value the driver gives up.
fn damping_exceeded(l: &Rat) -> (r: bool)
    requires
        l.wf(),
{
    let ceiling = Rat::from_int(100000000);
    ceiling.lt(l)
}

/// Runs damped Gauss-Newton (Levenberg-Marquardt) iteration on the
/// pool: repeatedly evaluates all cost terms, assembles and solves the
/// damped normal equations, applies the increment to the free variables
/// through the manifold retraction, and accepts the step only when the
/// total cost strictly decreases.  Rejected steps grow the damping and
/// are retried without consuming the iteration budget, up to a bounded
/// number of consecutive rejections.
///
/// The call returns `Ok` exactly when the damping parameter is not
/// negative and every family reference and shape of the problem is
/// valid; `InvalidParameters` and `DimensionMismatch` report the two
/// kinds of invalidity.  On success the returned pool has the layout of
/// the input pool, every fixed and conditioned variable is returned bit
/// for bit unchanged, and a zero iteration budget returns the input
/// pool itself untouched.  The driver never panics: numerically
/// degenerate systems and 64-bit overflows end in the `Failed` status
/// with the last accepted pool.
pub fn optimize(pool: VarPool, cost_fns: Vec<CostFn>, params: OptParams) -> (r: Result<
    OptOutcome,
    OptError,
>)
    requires
        pool.wf(),
        costs_terms_wf(cost_fns@),
        params.initial_lm_nu.wf(),
    ensures
        r is Ok <==> (q_le(q_zero(), params.initial_lm_nu@) && problem_refs_ok(pool, cost_fns@)
            && problem_dims_ok(pool, cost_fns@)),
        r == Result::<OptOutcome, OptError>::Err(OptError::InvalidParameters) <==> !(q_le(
            q_zero(),
            params.initial_lm_nu@,
        ) && problem_refs_ok(pool, cost_fns@)),
        r == Result::<OptOutcome, OptError>::Err(OptError::DimensionMismatch) <==> (q_le(
            q_zero(),
            params.initial_lm_nu@,
        ) && problem_refs_ok(pool, cost_fns@) && !problem_dims_ok(pool, cost_fns@)),
        r matches Ok(out) ==> {
            &&& out.pool.wf()
            &&& same_layout(pool, out.pool)
            &&& fixed_values_preserved(pool, out.pool)
            &&& q_le(spec_total_cost(out.pool, cost_fns@), spec_total_cost(pool, cost_fns@))
        },
        params.num_iter >= 1 ==> (r matches Ok(out) ==> (out.status is MaxIterReached ==> q_lt(
            spec_total_cost(out.pool, cost_fns@),
            spec_total_cost(pool, cost_fns@),
        ))),
        params.num_iter == 0 ==> (r matches Ok(out) ==> out.pool == pool && out.status
            is MaxIterReached),
{
    let zero = Rat::zero();
    if !zero.le(&params.initial_lm_nu) {
        return Err(OptError::InvalidParameters);
    }
    match validate_problem(&pool, &cost_fns) {
        Err(e) => {
            return Err(e);
        },
        Ok(()) => {},
    }
    if params.num_iter == 0 {
        return Ok(OptOutcome { pool, status: OptStatus::MaxIterReached });
    }
    let ghost pool0 = pool;
    let mut current = pool;
    let mut lambda = params.initial_lm_nu;
    let mut cost_now = match total_cost(&current, &cost_fns) {
        Some(c) => c,
        None => {
            return Ok(OptOutcome { pool: current, status: OptStatus::Failed });
        },
    };
    let max_reject: usize = 32;
    let mut iter: usize = 0;
    while iter < params.num_iter
        invariant
            iter <= params.num_iter,
            pool0 == pool,
            pool.wf(),
            current.wf(),
            same_layout(pool, current),
            fixed_values_preserved(pool, current),
            costs_terms_wf(cost_fns@),
            problem_refs_ok(pool, cost_fns@),
            problem_dims_ok(pool, cost_fns@),
            q_le(q_zero(), params.initial_lm_nu@),
            lambda.wf(),
            cost_now.wf(),
            q_eq(cost_now@, spec_total_cost(current, cost_fns@)),
            q_le(spec_total_cost(current, cost_fns@), spec_total_cost(pool, cost_fns@)),
            iter >= 1 ==> q_lt(
                spec_total_cost(current, cost_fns@),
                spec_total_cost(pool, cost_fns@),
            ),
            max_reject == 32,
            params.num_iter >= 1,
        decreases params.num_iter - iter,
    {
        let mut rejections: usize = 0;
        let mut accepted: bool = false;
        while rejections < max_reject
            invariant_except_break
                rejections <= max_reject,
                !accepted,
            invariant
                pool.wf(),
                current.wf(),
                same_layout(pool, current),
                fixed_values_preserved(pool, current),
                costs_terms_wf(cost_fns@),
                problem_refs_ok(pool, cost_fns@),
                problem_dims_ok(pool, cost_fns@),
                q_le(q_zero(), params.initial_lm_nu@),
                lambda.wf(),
                cost_now.wf(),
                q_eq(cost_now@, spec_total_cost(current, cost_fns@)),
                q_le(spec_total_cost(current, cost_fns@), spec_total_cost(pool, cost_fns@)),
                max_reject == 32,
                params.num_iter >= 1,
            ensures
                current.wf(),
                same_layout(pool, current),
                fixed_values_preserved(pool, current),
                lambda.wf(),
                cost_now.wf(),
                q_eq(cost_now@, spec_total_cost(current, cost_fns@)),
                q_le(spec_total_cost(current, cost_fns@), spec_total_cost(pool, cost_fns@)),
                accepted ==> q_lt(
                    spec_total_cost(current, cost_fns@),
                    spec_total_cost(pool, cost_fns@),
                ),
            decreases max_reject - rejections,
        {
            proof {
                lemma_layout_preserves_validity(pool, current, cost_fns@);
            }
            let sys = match build_normal_equations(&current, &cost_fns) {
                Some(sys) => sys,
                None => {
                    return Ok(OptOutcome { pool: current, status: OptStatus::Failed });
                },
            };
            let (h, nb) = sys;
            let solved = solve_damped(&h, &lambda, &nb);
            match solved {
                Err(_) => {
                    // singular or overflowed: escalate the damping
                    lambda = match grow_damping(&lambda) {
                        Some(l2) => l2,
                        None => {
                            return Ok(OptOutcome { pool: current, status: OptStatus::Failed });
                        },
                    };
                    if damping_exceeded(&lambda) {
                        return Ok(OptOutcome { pool: current, status: OptStatus::Failed });
                    }
                    rejections += 1;
                },
                Ok(delta) => {
                    match current.retract(&delta) {
                        None => {
                            lambda = match grow_damping(&lambda) {
                                Some(l2) => l2,
                                None => {
                                    return Ok(
                                        OptOutcome { pool: current, status: OptStatus::Failed },
                                    );
                                },
                            };
                            if damping_exceeded(&lambda) {
                                return Ok(OptOutcome { pool: current, status: OptStatus::Failed });
                            }
                            rejections += 1;
                        },
                        Some(candidate) => {
                            proof {
                                lemma_same_layout_trans(pool, current, candidate);
                                lemma_fixed_preserved_trans(pool, current, candidate);
                                lemma_layout_preserves_validity(pool, candidate, cost_fns@);
                            }
                            match total_cost(&candidate, &cost_fns) {
                                None => {
                                    lambda = match grow_damping(&lambda) {
                                        Some(l2) => l2,
                                        None => {
                                            return Ok(
                                                OptOutcome {
                                                    pool: current,
                                                    status: OptStatus::Failed,
                                                },
                                            );
                                        },
                                    };
                                    if damping_exceeded(&lambda) {
                                        return Ok(
                                            OptOutcome { pool: current, status: OptStatus::Failed },
                                        );
                                    }
                                    rejections += 1;
                                },
                                Some(cost_new) => {
                                    if cost_new.lt(&cost_now) {
                                        proof {
                                            // the candidate's mathematical cost is
                                            // strictly below the current one, hence
                                            // strictly below the input's
                                            lemma_layout_preserves_validity(
                                                pool,
                                                current,
                                                cost_fns@,
                                            );
                                            lemma_spec_total_cost_wf(current, cost_fns@);
                                            lemma_spec_total_cost_wf(candidate, cost_fns@);
                                            lemma_spec_total_cost_wf(pool, cost_fns@);
                                            crate::rational::lemma_q_lt_congr(
                                                cost_new@,
                                                cost_now@,
                                                spec_total_cost(candidate, cost_fns@),
                                                spec_total_cost(current, cost_fns@),
                                            );
                                            crate::rational::lemma_q_lt_le_trans(
                                                spec_total_cost(candidate, cost_fns@),
                                                spec_total_cost(current, cost_fns@),
                                                spec_total_cost(pool, cost_fns@),
                                            );
                                        }
                                        // accept: commit the pool, relax the damping
                                        current = candidate;
                                        cost_now = cost_new;
                                        lambda = shrink_damping(&lambda);
                                        accepted = true;
                                        break ;
                                    } else if cost_new.eq_val(&cost_now) {
                                        // no decrease is possible: converged
                                        return Ok(
                                            OptOutcome {
                                                pool: current,
                                                status: OptStatus::Converged,
                                            },
                                        );
                                    } else {
                                        // reject: discard the candidate, escalate
                                        lambda = match grow_damping(&lambda) {
                                            Some(l2) => l2,
                                            None => {
                                                return Ok(
                                                    OptOutcome {
                                                        pool: current,
                                                        status: OptStatus::Failed,
                                                    },
                                                );
                                            },
                                        };
                                        if damping_exceeded(&lambda) {
                                            return Ok(
                                                OptOutcome {
                                                    pool: current,
                                                    status: OptStatus::Failed,
                                                },
                                            );
                                        }
                                        rejections += 1;
                                    }
                                },
                            }
                        },
                    }
                },
            }
        }
        if !accepted {
            return Ok(OptOutcome { pool: current, status: OptStatus::Failed });
        }
        iter += 1;
    }
    Ok(OptOutcome { pool: current, status: OptStatus::MaxIterReached })
}


/// Single-iteration exact convergence.  For a problem whose normal
/// equations reduce to the identity — one free family under one
/// tangent-space prior term, whose Jacobian [`PriorCostFn::eval`]
/// proves to be the identity — the negated gradient is `mean - x`, and
/// an undamped increment that solves the system exactly (what
/// [`solve_damped`] guarantees with damping zero) lands exactly on the
/// prior mean: one Gauss-Newton step solves an exactly linearizable
/// problem outright.
pub proof fn lemma_single_prior_step_exact(
    h: MatRat,
    x: Seq<Q>,
    m: Seq<Q>,
    delta: Seq<Q>,
    nb: Seq<Q>,
)
    requires
        h.wf(),
        h.rows == h.cols,
        h.rows == nb.len(),
        delta.len() == nb.len(),
        x.len() == nb.len(),
        m.len() == nb.len(),
        crate::linalg::q_seq_wf(x),
        crate::linalg::q_seq_wf(m),
        crate::linalg::q_seq_wf(delta),
        crate::linalg::q_seq_wf(nb),
        forall|i: int, j: int|
            0 <= i < h.rows && 0 <= j < h.cols ==> q_eq(
                #[trigger] h.entry(i, j),
                if i == j {
                    q_one()
                } else {
                    q_zero()
                },
            ),
        forall|i: int| 0 <= i < nb.len() ==> q_eq(#[trigger] nb[i], q_sub(m[i], x[i])),
        crate::opt::ldlt::solves_damped_system(h, q_zero(), delta, nb),
    ensures
        forall|i: int| 0 <= i < delta.len() ==> q_eq(q_add(x[i], #[trigger] delta[i]), m[i]),
{
    let n = nb.len() as int;
    assert forall|i: int| 0 <= i < delta.len() implies q_eq(
        q_add(x[i], #[trigger] delta[i]),
        m[i],
    ) by {
        let row = Seq::new(
            delta.len(),
            |j: int| q_mul(crate::opt::ldlt::damped_entry(h, q_zero(), i, j), delta[j]),
        );
        assert forall|j: int| 0 <= j < row.len() implies q_wf(#[trigger] row[j]) && q_eq(
            row[j],
            if j == i {
                delta[i]
            } else {
                q_zero()
            },
        ) by {
            let de = crate::opt::ldlt::damped_entry(h, q_zero(), i, j);
            crate::linalg::lemma_row_major_index(i, j, h.rows as int, h.cols as int);
            assert(h.data@[i * h.cols + j].wf());
            if i == j {
                crate::linalg::lemma_q_mul_wf(q_zero(), h.entry(i, i));
                crate::linalg::lemma_q_add_wf(h.entry(i, i), q_mul(q_zero(), h.entry(i, i)));
                crate::linalg::lemma_q_mul_wf(de, delta[j]);
                // the damped diagonal is h_ii + 0 * h_ii, which is one
                crate::rational::lemma_q_mul_zero_left(h.entry(i, i));
                crate::rational::lemma_q_add_congr(
                    h.entry(i, i),
                    q_mul(q_zero(), h.entry(i, i)),
                    q_one(),
                    q_zero(),
                );
                crate::rational::lemma_q_add_zero_right(q_one());
                crate::linalg::lemma_q_add_wf(q_one(), q_zero());
                lemma_q_eq_trans(de, q_add(q_one(), q_zero()), q_one());
                crate::rational::lemma_q_mul_congr(de, delta[j], q_one(), delta[j]);
                crate::rational::lemma_q_mul_one_left(delta[j]);
                crate::linalg::lemma_q_mul_wf(q_one(), delta[j]);
                lemma_q_eq_trans(q_mul(de, delta[j]), q_mul(q_one(), delta[j]), delta[j]);
            } else {
                crate::linalg::lemma_q_mul_wf(de, delta[j]);
                crate::rational::lemma_q_mul_congr(de, delta[j], q_zero(), delta[j]);
                crate::rational::lemma_q_mul_zero_left(delta[j]);
                crate::linalg::lemma_q_mul_wf(q_zero(), delta[j]);
                lemma_q_eq_trans(q_mul(de, delta[j]), q_mul(q_zero(), delta[j]), q_zero());
            }
        }
        assert(q_wf(delta[i]));
        crate::linalg::lemma_q_sum_unit(row, i, delta[i]);
        assert(crate::opt::ldlt::damped_row_dot(h, q_zero(), delta, i) == crate::linalg::q_sum(
            row,
        ));
        assert(q_eq(crate::opt::ldlt::damped_row_dot(h, q_zero(), delta, i), nb[i]));
        crate::linalg::lemma_q_sum_wf(row);
        // delta_i == row dot == nb_i == m_i - x_i
        crate::rational::lemma_q_eq_sym(crate::linalg::q_sum(row), delta[i]);
        lemma_q_eq_trans(delta[i], crate::linalg::q_sum(row), nb[i]);
        crate::linalg::lemma_q_sub_wf(m[i], x[i]);
        lemma_q_eq_trans(delta[i], nb[i], q_sub(m[i], x[i]));
        crate::rational::lemma_q_add_congr(x[i], delta[i], x[i], q_sub(m[i], x[i]));
        crate::rational::lemma_q_add_sub_cancel(x[i], m[i]);
        crate::linalg::lemma_q_add_wf(x[i], q_sub(m[i], x[i]));
        crate::linalg::lemma_q_add_wf(x[i], delta[i]);
        lemma_q_eq_trans(q_add(x[i], delta[i]), q_add(x[i], q_sub(m[i], x[i])), m[i]);
    }
}

} // verus!
