//! Damped linear solve by LDLt factorization, with an exact check.
//!
//! The driver hands this module the normal-equation matrix `H`, the
//! damping value and the right-hand side.  The factorization itself is
//! ordinary dense LDLt in natural order (no fill-reducing reordering —
//! an accepted simplification for small and moderate problems), but its
//! output is never trusted: before returning, the candidate solution is
//! multiplied back through the damped matrix with exact rational
//! arithmetic and compared entry by entry with the right-hand side.  The
//! contract of a successful solve is therefore unconditional: the
//! returned increment satisfies `(H + lambda * diag(H)) * x == b`
//! exactly.

use crate::linalg::{
    lemma_q_mul_wf, lemma_q_sum_congr, lemma_q_sum_wf, q_dot, q_seq_wf, q_sum, qs, rvec_dot,
    rvec_wf, MatRat,
};
use crate::rational::{
    lemma_q_eq_trans, lemma_q_mul_congr, q_add, q_eq, q_lt, q_mul, q_wf, q_zero, Q, Rat,
};
use vstd::prelude::*;

verus! {

/// Why a damped solve did not produce an increment.
#[derive(Debug, Clone, Copy, PartialEq, Eq, Structural)]
pub enum SolveError {
    /// a pivot of the damped matrix was not positive
    SingularSystem,
    /// a 64-bit rational overflowed, or the exact check refused the
    /// candidate solution
    Overflow,
}

/// Entry `(i, j)` of the damped matrix `H + lambda * diag(H)`.
pub open spec fn damped_entry(h: MatRat, lambda: Q, i: int, j: int) -> Q {
    if i == j {
        q_add(h.entry(i, i), q_mul(lambda, h.entry(i, i)))
    } else {
        h.entry(i, j)
    }
}

/// Row `i` of the damped matrix times the vector `x`.
pub open spec fn damped_row_dot(h: MatRat, lambda: Q, x: Seq<Q>, i: int) -> Q {
    q_sum(Seq::new(x.len(), |j: int| q_mul(damped_entry(h, lambda, i, j), x[j])))
}

/// `x` solves the damped system `(H + lambda * diag(H)) x == b` exactly.
pub open spec fn solves_damped_system(h: MatRat, lambda: Q, x: Seq<Q>, b: Seq<Q>) -> bool {
    &&& x.len() == b.len()
    &&& forall|i: int| 0 <= i < b.len() ==> q_eq(#[trigger] damped_row_dot(h, lambda, x, i), b[i])
}

/// Solves the damped normal equations.  On success the returned
/// increment satisfies the damped system exactly — the solution is
/// re-multiplied through the matrix and checked before it is returned.
/// `SingularSystem` reports a non-positive pivot; `Overflow` reports a
/// 64-bit overflow or a candidate that failed the exact check.
pub fn solve_damped(h: &MatRat, lambda: &Rat, b: &Vec<Rat>) -> (r: Result<Vec<Rat>, SolveError>)
    requires
        h.wf(),
        lambda.wf(),
        rvec_wf(b@),
        h.rows == b@.len(),
        h.cols == b@.len(),
    ensures
        r matches Ok(x) ==> {
            &&& x@.len() == b@.len()
            &&& rvec_wf(x@)
            &&& solves_damped_system(*h, lambda@, qs(x@), qs(b@))
        },
        b@.len() == 0 ==> r is Ok,
        b@.len() == 1 && r == Result::<Vec<Rat>, SolveError>::Err(SolveError::SingularSystem)
            ==> !q_lt(q_zero(), damped_entry(*h, lambda@, 0, 0)),
{
    let n = b.len();
    if n == 0 {
        // nothing to solve
        return Ok(Vec::new());
    }
    // Build the damped matrix.
    let mut hd = match MatRat::zeros_checked(n, n) {
        Some(m) => m,
        None => {
            return Err(SolveError::Overflow);
        },
    };
    let mut i: usize = 0;
    while i < n
        invariant
            n >= 1,
            n == b@.len(),
            i <= n,
            h.wf(),
            lambda.wf(),
            n == h.rows == h.cols,
            hd.wf(),
            hd.rows == n,
            hd.cols == n,
            forall|p: int, q: int|
                0 <= p < i && 0 <= q < n ==> q_eq(
                    #[trigger] hd.entry(p, q),
                    damped_entry(*h, lambda@, p, q),
                ),
        decreases n - i,
    {
        let mut j: usize = 0;
        while j < n
            invariant
                n >= 1,
                n == b@.len(),
                j <= n,
                i < n,
                h.wf(),
                lambda.wf(),
                n == h.rows == h.cols,
                hd.wf(),
                hd.rows == n,
                hd.cols == n,
                forall|p: int, q: int|
                    0 <= p < i && 0 <= q < n ==> q_eq(
                        #[trigger] hd.entry(p, q),
                        damped_entry(*h, lambda@, p, q),
                    ),
                forall|q: int|
                    0 <= q < j ==> q_eq(
                        #[trigger] hd.entry(i as int, q),
                        damped_entry(*h, lambda@, i as int, q),
                    ),
            decreases n - j,
        {
            let hij = h.get(i, j);
            let v: Rat;
            if i == j {
                let scaled = match lambda.mul(&hij) {
                    Some(s) => s,
                    None => {
                        return Err(SolveError::Overflow);
                    },
                };
                v = match hij.add(&scaled) {
                    Some(t) => t,
                    None => {
                        return Err(SolveError::Overflow);
                    },
                };
                proof {
                    lemma_q_mul_wf(lambda@, h.entry(i as int, i as int));
                    crate::linalg::lemma_q_add_wf(hij@, scaled@);
                    crate::linalg::lemma_q_add_wf(
                        h.entry(i as int, i as int),
                        q_mul(lambda@, h.entry(i as int, i as int)),
                    );
                    crate::rational::lemma_q_add_congr(
                        hij@,
                        scaled@,
                        h.entry(i as int, i as int),
                        q_mul(lambda@, h.entry(i as int, i as int)),
                    );
                    lemma_q_eq_trans(
                        v@,
                        q_add(hij@, scaled@),
                        q_add(
                            h.entry(i as int, i as int),
                            q_mul(lambda@, h.entry(i as int, i as int)),
                        ),
                    );
                }
            } else {
                v = hij;
            }
            hd.set(i, j, v);
            j += 1;
        }
        i += 1;
    }
    // Factor and substitute; the result is checked afterwards, so this
    // part carries no correctness obligations of its own.
    let x = match ldlt_solve_raw(&hd, b) {
        Ok(x) => x,
        Err(e) => {
            proof {
                // for a scalar system a singular report means the one
                // damped pivot itself is not positive
                if n == 1 && e == SolveError::SingularSystem {
                    lemma_damped_entry_wf(*h, lambda@, 0, 0);
                    assert(q_eq(hd.entry(0, 0), damped_entry(*h, lambda@, 0, 0)));
                    crate::linalg::lemma_mat_entry_wf(hd, 0, 0);
                    if q_lt(q_zero(), damped_entry(*h, lambda@, 0, 0)) {
                        crate::rational::lemma_q_lt_congr(
                            q_zero(),
                            damped_entry(*h, lambda@, 0, 0),
                            q_zero(),
                            hd.entry(0, 0),
                        );
                    }
                }
            }
            return Err(e);
        },
    };
    // Exact check: multiply the candidate back through the damped matrix.
    let mut i: usize = 0;
    while i < n
        invariant
            n >= 1,
            n == b@.len(),
            i <= n,
            h.wf(),
            lambda.wf(),
            rvec_wf(b@),
            n == h.rows == h.cols == b@.len(),
            hd.wf(),
            hd.rows == n,
            hd.cols == n,
            x@.len() == n,
            rvec_wf(x@),
            forall|p: int, q: int|
                0 <= p < n && 0 <= q < n ==> q_eq(
                    #[trigger] hd.entry(p, q),
                    damped_entry(*h, lambda@, p, q),
                ),
            forall|p: int|
                0 <= p < i ==> q_eq(#[trigger] damped_row_dot(*h, lambda@, qs(x@), p), b@[p]@),
        decreases n - i,
    {
        let mut row: Vec<Rat> = Vec::new();
        let mut j: usize = 0;
        while j < n
            invariant
                n >= 1,
                n == b@.len(),
                j <= n,
                i < n,
                hd.wf(),
                hd.rows == n,
                hd.cols == n,
                row@.len() == j,
                rvec_wf(row@),
                forall|q: int| 0 <= q < j ==> #[trigger] row@[q]@ == hd.entry(i as int, q),
            decreases n - j,
        {
            row.push(hd.get(i, j));
            j += 1;
        }
        let dot = match rvec_dot(&row, &x) {
            Some(d) => d,
            None => {
                return Err(SolveError::Overflow);
            },
        };
        if !dot.eq_val(&b[i]) {
            return Err(SolveError::Overflow);
        }
        proof {
            let ghost hrow = Seq::new(qs(row@).len(), |jj: int| q_mul(qs(row@)[jj], qs(x@)[jj]));
            let ghost drow = Seq::new(
                qs(x@).len(),
                |jj: int| q_mul(damped_entry(*h, lambda@, i as int, jj), qs(x@)[jj]),
            );
            assert forall|jj: int| 0 <= jj < hrow.len() implies q_wf(#[trigger] hrow[jj]) by {
                assert(row@[jj].wf());
                assert(x@[jj].wf());
                lemma_q_mul_wf(row@[jj]@, x@[jj]@);
            }
            assert forall|jj: int| 0 <= jj < drow.len() implies q_wf(#[trigger] drow[jj]) by {
                assert(x@[jj].wf());
                lemma_damped_entry_wf(*h, lambda@, i as int, jj);
                lemma_q_mul_wf(damped_entry(*h, lambda@, i as int, jj), x@[jj]@);
            }
            assert forall|jj: int| 0 <= jj < hrow.len() implies q_eq(
                #[trigger] hrow[jj],
                drow[jj],
            ) by {
                assert(row@[jj].wf());
                assert(x@[jj].wf());
                lemma_damped_entry_wf(*h, lambda@, i as int, jj);
                lemma_q_mul_congr(
                    row@[jj]@,
                    x@[jj]@,
                    damped_entry(*h, lambda@, i as int, jj),
                    x@[jj]@,
                );
            }
            lemma_q_sum_congr(hrow, drow);
            lemma_q_sum_wf(hrow);
            lemma_q_sum_wf(drow);
            assert(b@[i as int].wf());
            // dot == row . x == damped row . x, and dot == b[i].
            assert(q_dot(qs(row@), qs(x@)) == q_sum(hrow));
            lemma_q_eq_trans(q_sum(drow), q_sum(hrow), dot@);
            lemma_q_eq_trans(q_sum(drow), dot@, b@[i as int]@);
            assert(damped_row_dot(*h, lambda@, qs(x@), i as int) == q_sum(drow));
        }
        i += 1;
    }
    Ok(x)
}

/// Entries of the damped matrix are well-formed rationals.
proof fn lemma_damped_entry_wf(h: MatRat, lambda: Q, i: int, j: int)
    requires
        h.wf(),
        q_wf(lambda),
        0 <= i < h.rows,
        0 <= j < h.cols,
    ensures
        q_wf(damped_entry(h, lambda, i, j)),
{
    crate::linalg::lemma_row_major_index(i, j, h.rows as int, h.cols as int);
    assert(h.data@[i * h.cols + j].wf());
    if i == j {
        lemma_q_mul_wf(lambda, h.entry(i, i));
        crate::linalg::lemma_q_add_wf(h.entry(i, i), q_mul(lambda, h.entry(i, i)));
    }
}

/// Plain dense LDLt factorization and substitution in natural order.
/// Only shape and panic freedom are verified here; the caller re-checks
/// the returned solution exactly.
fn ldlt_solve_raw(hd: &MatRat, b: &Vec<Rat>) -> (r: Result<Vec<Rat>, SolveError>)
    requires
        hd.wf(),
        rvec_wf(b@),
        hd.rows == b@.len(),
        hd.cols == b@.len(),
    ensures
        r matches Ok(x) ==> x@.len() == b@.len() && rvec_wf(x@),
        b@.len() == 0 ==> r is Ok,
        b@.len() == 1 && r == Result::<Vec<Rat>, SolveError>::Err(SolveError::SingularSystem)
            ==> !q_lt(q_zero(), hd.entry(0, 0)),
{
    let n = b.len();
    if n == 0 {
        return Ok(Vec::new());
    }
    let mut l = match MatRat::zeros_checked(n, n) {
        Some(m) => m,
        None => {
            return Err(SolveError::Overflow);
        },
    };
    let mut d: Vec<Rat> = Vec::new();
    let zero = Rat::zero();
    let mut j: usize = 0;
    while j < n
        invariant
            n >= 1,
            n == b@.len(),
            j <= n,
            hd.wf(),
            rvec_wf(b@),
            n == hd.rows == hd.cols == b@.len(),
            l.wf(),
            l.rows == n,
            l.cols == n,
            d@.len() == j,
            rvec_wf(d@),
            forall|p: int| 0 <= p < j ==> (#[trigger] d@[p])@.n != 0,
            zero.wf(),
            zero@ == q_zero(),
        decreases n - j,
    {
        // pivot: d_j = hd[j][j] - sum_{k<j} l[j][k]^2 d[k]
        let mut acc = hd.get(j, j);
        let mut k: usize = 0;
        while k < j
            invariant
                n >= 1,
                n == b@.len(),
                n == 1 ==> acc@ == hd.entry(0, 0),
                k <= j < n,
                hd.wf(),
                n == hd.rows == hd.cols,
                l.wf(),
                l.rows == n,
                l.cols == n,
                d@.len() == j,
                rvec_wf(d@),
                acc.wf(),
            decreases j - k,
        {
            let ljk = l.get(j, k);
            let t = match ljk.mul(&ljk) {
                Some(t) => t,
                None => {
                    return Err(SolveError::Overflow);
                },
            };
            let t2 = match t.mul(&d[k]) {
                Some(t2) => t2,
                None => {
                    return Err(SolveError::Overflow);
                },
            };
            acc = match acc.sub(&t2) {
                Some(a) => a,
                None => {
                    return Err(SolveError::Overflow);
                },
            };
            k += 1;
        }
        if !zero.lt(&acc) {
            proof {
                if n == 1 {
                    assert(acc@ == hd.entry(0, 0));
                }
            }
            return Err(SolveError::SingularSystem);
        }
        let dj = acc;
        // column: l[i][j] = (hd[i][j] - sum_k l[i][k] l[j][k] d[k]) / d_j
        let mut i: usize = j + 1;
        while i < n
            invariant
                n >= 1,
                n == b@.len(),
                j < i <= n,
                hd.wf(),
                n == hd.rows == hd.cols,
                l.wf(),
                l.rows == n,
                l.cols == n,
                d@.len() == j,
                rvec_wf(d@),
                dj.wf(),
                dj@.n > 0,
            decreases n - i,
        {
            let mut acc2 = hd.get(i, j);
            let mut k: usize = 0;
            while k < j
                invariant
                    n >= 1,
                    n == b@.len(),
                    k <= j < i < n,
                    hd.wf(),
                    n == hd.rows == hd.cols,
                    l.wf(),
                    l.rows == n,
                    l.cols == n,
                    d@.len() == j,
                    rvec_wf(d@),
                    acc2.wf(),
                decreases j - k,
            {
                let t = match l.get(i, k).mul(&l.get(j, k)) {
                    Some(t) => t,
                    None => {
                        return Err(SolveError::Overflow);
                    },
                };
                let t2 = match t.mul(&d[k]) {
                    Some(t2) => t2,
                    None => {
                        return Err(SolveError::Overflow);
                    },
                };
                acc2 = match acc2.sub(&t2) {
                    Some(a) => a,
                    None => {
                        return Err(SolveError::Overflow);
                    },
                };
                k += 1;
            }
            let lij = match acc2.div(&dj) {
                Some(v) => v,
                None => {
                    return Err(SolveError::Overflow);
                },
            };
            l.set(i, j, lij);
            i += 1;
        }
        d.push(dj);
        j += 1;
    }
    // forward substitution: L z = b
    let mut z: Vec<Rat> = Vec::new();
    let mut i: usize = 0;
    while i < n
        invariant
            n >= 1,
            n == b@.len(),
            i <= n,
            rvec_wf(b@),
            n == b@.len(),
            l.wf(),
            l.rows == n,
            l.cols == n,
            z@.len() == i,
            rvec_wf(z@),
        decreases n - i,
    {
        proof {
            assert(b@[i as int].wf());
        }
        let mut acc = b[i];
        let mut k: usize = 0;
        while k < i
            invariant
                n >= 1,
                n == b@.len(),
                k <= i < n,
                l.wf(),
                l.rows == n,
                l.cols == n,
                z@.len() == i,
                rvec_wf(z@),
                acc.wf(),
            decreases i - k,
        {
            let t = match l.get(i, k).mul(&z[k]) {
                Some(t) => t,
                None => {
                    return Err(SolveError::Overflow);
                },
            };
            acc = match acc.sub(&t) {
                Some(a) => a,
                None => {
                    return Err(SolveError::Overflow);
                },
            };
            k += 1;
        }
        z.push(acc);
        i += 1;
    }
    // diagonal scaling: D w = z
    let mut w: Vec<Rat> = Vec::new();
    let mut i: usize = 0;
    while i < n
        invariant
            n >= 1,
            n == b@.len(),
            i <= n,
            n == z@.len() == d@.len(),
            rvec_wf(z@),
            rvec_wf(d@),
            forall|p: int| 0 <= p < n ==> (#[trigger] d@[p])@.n != 0,
            w@.len() == i,
            rvec_wf(w@),
        decreases n - i,
    {
        proof {
            assert(z@[i as int].wf());
            assert(d@[i as int].wf());
        }
        let wi = match z[i].div(&d[i]) {
            Some(v) => v,
            None => {
                return Err(SolveError::Overflow);
            },
        };
        w.push(wi);
        i += 1;
    }
    // back substitution: L^T x = w, walked from the last row upwards
    let mut x = w;
    let mut step: usize = 0;
    while step < n
        invariant
            n >= 1,
            n == b@.len(),
            step <= n,
            n == x@.len(),
            rvec_wf(x@),
            l.wf(),
            l.rows == n,
            l.cols == n,
        decreases n - step,
    {
        let i = n - 1 - step;
        proof {
            assert(x@[i as int].wf());
        }
        let mut acc = x[i];
        let mut k: usize = i + 1;
        while k < n
            invariant
                n >= 1,
                n == b@.len(),
                i < k <= n,
                i < n,
                n == x@.len(),
                rvec_wf(x@),
                l.wf(),
                l.rows == n,
                l.cols == n,
                acc.wf(),
            decreases n - k,
        {
            let t = match l.get(k, i).mul(&x[k]) {
                Some(t) => t,
                None => {
                    return Err(SolveError::Overflow);
                },
            };
            acc = match acc.sub(&t) {
                Some(a) => a,
                None => {
                    return Err(SolveError::Overflow);
                },
            };
            k += 1;
        }
        x.set(i, acc);
        step += 1;
    }
    Ok(x)
}

} // verus!
