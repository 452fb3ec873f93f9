//! Vectors and matrices of exact rational scalars.
//!
//! Contracts are stated against mathematical sequences of [`Q`] values:
//! an executable dot product is exactly the ghost fold [`q_sum`] of the
//! pairwise products, an executable matrix entry is exactly the stored
//! rational, and every operation either returns the exact value or
//! reports `None` when a reduced result would overflow 64 bits.

use crate::rational::{
    lemma_q_add_congr, lemma_q_eq_trans, lemma_q_mul_congr, q_add, q_eq, q_fits, q_mul, q_neg,
    q_sub, q_wf, q_zero, Q, Rat,
};
use vstd::prelude::*;

verus! {

/// All rationals of a sequence are well-formed scalars.
pub open spec fn rvec_wf(s: Seq<Rat>) -> bool {
    forall|i: int| 0 <= i < s.len() ==> #[trigger] s[i].wf()
}

/// Mathematical image of a sequence of stored scalars.
pub open spec fn qs(s: Seq<Rat>) -> Seq<Q> {
    s.map_values(|r: Rat| r@)
}

/// All mathematical rationals of a sequence are well-formed.
pub open spec fn q_seq_wf(s: Seq<Q>) -> bool {
    forall|i: int| 0 <= i < s.len() ==> q_wf(#[trigger] s[i])
}

/// Exact sum of a sequence of mathematical rationals.
pub open spec fn q_sum(s: Seq<Q>) -> Q
    decreases s.len(),
{
    if s.len() == 0 {
        q_zero()
    } else {
        q_add(q_sum(s.drop_last()), s.last())
    }
}

/// Exact dot product of two mathematical vectors.
pub open spec fn q_dot(u: Seq<Q>, v: Seq<Q>) -> Q {
    q_sum(Seq::new(u.len(), |i: int| q_mul(u[i], v[i])))
}

/// The sum of two well-formed rationals is well-formed.
pub proof fn lemma_q_add_wf(a: Q, b: Q)
    by (nonlinear_arith)
    requires
        q_wf(a),
        q_wf(b),
    ensures
        q_wf(q_add(a, b)),
{
}

/// The product of two well-formed rationals is well-formed.
pub proof fn lemma_q_mul_wf(a: Q, b: Q)
    by (nonlinear_arith)
    requires
        q_wf(a),
        q_wf(b),
    ensures
        q_wf(q_mul(a, b)),
{
}

/// The difference of two well-formed rationals is well-formed.
pub proof fn lemma_q_sub_wf(a: Q, b: Q)
    requires
        q_wf(a),
        q_wf(b),
    ensures
        q_wf(q_sub(a, b)),
{
    lemma_q_add_wf(a, q_neg(b));
}

/// The sum of a sequence of well-formed rationals is well-formed.
pub proof fn lemma_q_sum_wf(s: Seq<Q>)
    requires
        q_seq_wf(s),
    ensures
        q_wf(q_sum(s)),
    decreases s.len(),
{
    if s.len() == 0 {
    } else {
        lemma_q_sum_wf(s.drop_last());
        lemma_q_add_wf(q_sum(s.drop_last()), s.last());
    }
}

/// Sums of pointwise-equal sequences are equal.
pub proof fn lemma_q_sum_congr(s: Seq<Q>, t: Seq<Q>)
    requires
        s.len() == t.len(),
        q_seq_wf(s),
        q_seq_wf(t),
        forall|i: int| 0 <= i < s.len() ==> q_eq(#[trigger] s[i], t[i]),
    ensures
        q_eq(q_sum(s), q_sum(t)),
    decreases s.len(),
{
    if s.len() == 0 {
    } else {
        lemma_q_sum_congr(s.drop_last(), t.drop_last());
        lemma_q_sum_wf(s.drop_last());
        lemma_q_sum_wf(t.drop_last());
        lemma_q_add_congr(q_sum(s.drop_last()), s.last(), q_sum(t.drop_last()), t.last());
    }
}

/// Dot products of pointwise-equal vectors are equal.
pub proof fn lemma_q_dot_congr(u: Seq<Q>, v: Seq<Q>, u2: Seq<Q>, v2: Seq<Q>)
    requires
        u.len() == v.len() == u2.len() == v2.len(),
        q_seq_wf(u),
        q_seq_wf(v),
        q_seq_wf(u2),
        q_seq_wf(v2),
        forall|i: int| 0 <= i < u.len() ==> q_eq(#[trigger] u[i], u2[i]),
        forall|i: int| 0 <= i < v.len() ==> q_eq(#[trigger] v[i], v2[i]),
    ensures
        q_eq(q_dot(u, v), q_dot(u2, v2)),
{
    let p = Seq::new(u.len(), |i: int| q_mul(u[i], v[i]));
    let p2 = Seq::new(u2.len(), |i: int| q_mul(u2[i], v2[i]));
    assert forall|i: int| 0 <= i < p.len() implies q_wf(#[trigger] p[i]) && q_eq(p[i], p2[i]) by {
        lemma_q_mul_wf(u[i], v[i]);
        lemma_q_mul_wf(u2[i], v2[i]);
        crate::rational::lemma_q_mul_congr(u[i], v[i], u2[i], v2[i]);
    }
    assert forall|i: int| 0 <= i < p2.len() implies q_wf(#[trigger] p2[i]) by {
        lemma_q_mul_wf(u2[i], v2[i]);
    }
    lemma_q_sum_congr(p, p2);
}

/// A sum of values each equal to zero is zero.
pub proof fn lemma_q_sum_zeroish(s: Seq<Q>)
    requires
        q_seq_wf(s),
        forall|j: int| 0 <= j < s.len() ==> q_eq(#[trigger] s[j], q_zero()),
    ensures
        q_eq(q_sum(s), q_zero()),
    decreases s.len(),
{
    if s.len() == 0 {
    } else {
        lemma_q_sum_zeroish(s.drop_last());
        lemma_q_sum_wf(s.drop_last());
        crate::rational::lemma_q_add_congr(q_sum(s.drop_last()), s.last(), q_zero(), q_zero());
        crate::rational::lemma_q_add_zero_left(q_zero());
        lemma_q_add_wf(q_zero(), q_zero());
        lemma_q_sum_wf(s);
        crate::rational::lemma_q_eq_trans(q_sum(s), q_add(q_zero(), q_zero()), q_zero());
    }
}

/// A sum of values that are zero except at one position equals the
/// value at that position.
pub proof fn lemma_q_sum_unit(s: Seq<Q>, i: int, v: Q)
    requires
        q_seq_wf(s),
        q_wf(v),
        0 <= i < s.len(),
        forall|j: int|
            0 <= j < s.len() ==> q_eq(
                #[trigger] s[j],
                if j == i {
                    v
                } else {
                    q_zero()
                },
            ),
    ensures
        q_eq(q_sum(s), v),
    decreases s.len(),
{
    let dl = s.drop_last();
    lemma_q_sum_wf(dl);
    if i == s.len() - 1 {
        lemma_q_sum_zeroish(dl);
        crate::rational::lemma_q_add_congr(q_sum(dl), s.last(), q_zero(), v);
        crate::rational::lemma_q_add_zero_left(v);
        lemma_q_add_wf(q_zero(), v);
        lemma_q_sum_wf(s);
        crate::rational::lemma_q_eq_trans(q_sum(s), q_add(q_zero(), v), v);
    } else {
        lemma_q_sum_unit(dl, i, v);
        crate::rational::lemma_q_add_congr(q_sum(dl), s.last(), v, q_zero());
        crate::rational::lemma_q_add_zero_right(v);
        lemma_q_add_wf(v, q_zero());
        lemma_q_sum_wf(s);
        crate::rational::lemma_q_eq_trans(q_sum(s), q_add(v, q_zero()), v);
    }
}

/// Appending one element extends the exact sum by that element.
pub proof fn lemma_q_sum_push(s: Seq<Q>, x: Q)
    ensures
        q_sum(s.push(x)) == q_add(q_sum(s), x),
{
    assert(s.push(x).drop_last() =~= s);
    assert(s.push(x).last() == x);
}

/// Exact pointwise sum of two vectors; `None` only on 64-bit overflow.
pub fn rvec_add(a: &Vec<Rat>, b: &Vec<Rat>) -> (r: Option<Vec<Rat>>)
    requires
        rvec_wf(a@),
        rvec_wf(b@),
        a@.len() == b@.len(),
    ensures
        r matches Some(c) ==> {
            &&& c@.len() == a@.len()
            &&& rvec_wf(c@)
            &&& forall|i: int|
                0 <= i < c@.len() ==> q_eq(#[trigger] c@[i]@, q_add(a@[i]@, b@[i]@))
        },
        (forall|i: int| 0 <= i < a@.len() ==> q_fits(#[trigger] q_add(a@[i]@, b@[i]@))) ==> r
            is Some,
{
    let mut out: Vec<Rat> = Vec::new();
    let n = a.len();
    let mut k: usize = 0;
    while k < n
        invariant
            k <= n,
            n == a@.len() == b@.len(),
            rvec_wf(a@),
            rvec_wf(b@),
            out@.len() == k,
            rvec_wf(out@),
            forall|i: int| 0 <= i < k ==> q_eq(#[trigger] out@[i]@, q_add(a@[i]@, b@[i]@)),
        decreases n - k,
    {
        match a[k].add(&b[k]) {
            Some(c) => {
                out.push(c);
            },
            None => {
                proof {
                    assert(!q_fits(q_add(a@[k as int]@, b@[k as int]@)));
                }
                return None;
            },
        }
        k += 1;
    }
    Some(out)
}

/// Exact pointwise difference of two vectors.
pub fn rvec_sub(a: &Vec<Rat>, b: &Vec<Rat>) -> (r: Option<Vec<Rat>>)
    requires
        rvec_wf(a@),
        rvec_wf(b@),
        a@.len() == b@.len(),
    ensures
        r matches Some(c) ==> {
            &&& c@.len() == a@.len()
            &&& rvec_wf(c@)
            &&& forall|i: int|
                0 <= i < c@.len() ==> q_eq(#[trigger] c@[i]@, q_sub(a@[i]@, b@[i]@))
        },
        (forall|i: int| 0 <= i < a@.len() ==> q_fits(#[trigger] q_sub(a@[i]@, b@[i]@))) ==> r
            is Some,
{
    let mut out: Vec<Rat> = Vec::new();
    let n = a.len();
    let mut k: usize = 0;
    while k < n
        invariant
            k <= n,
            n == a@.len() == b@.len(),
            rvec_wf(a@),
            rvec_wf(b@),
            out@.len() == k,
            rvec_wf(out@),
            forall|i: int| 0 <= i < k ==> q_eq(#[trigger] out@[i]@, q_sub(a@[i]@, b@[i]@)),
        decreases n - k,
    {
        match a[k].sub(&b[k]) {
            Some(c) => {
                out.push(c);
            },
            None => {
                proof {
                    assert(!q_fits(q_sub(a@[k as int]@, b@[k as int]@)));
                }
                return None;
            },
        }
        k += 1;
    }
    Some(out)
}

/// Exact pointwise negation; never fails.
pub fn rvec_neg(a: &Vec<Rat>) -> (r: Vec<Rat>)
    requires
        rvec_wf(a@),
    ensures
        r@.len() == a@.len(),
        rvec_wf(r@),
        forall|i: int| 0 <= i < r@.len() ==> #[trigger] r@[i]@ == q_neg(a@[i]@),
{
    let mut out: Vec<Rat> = Vec::new();
    let n = a.len();
    let mut k: usize = 0;
    while k < n
        invariant
            k <= n,
            n == a@.len(),
            rvec_wf(a@),
            out@.len() == k,
            rvec_wf(out@),
            forall|i: int| 0 <= i < k ==> #[trigger] out@[i]@ == q_neg(a@[i]@),
        decreases n - k,
    {
        out.push(a[k].neg());
        k += 1;
    }
    out
}

/// Exact scaling of a vector by a scalar.
pub fn rvec_scale(w: &Rat, a: &Vec<Rat>) -> (r: Option<Vec<Rat>>)
    requires
        w.wf(),
        rvec_wf(a@),
    ensures
        r matches Some(c) ==> {
            &&& c@.len() == a@.len()
            &&& rvec_wf(c@)
            &&& forall|i: int|
                0 <= i < c@.len() ==> q_eq(#[trigger] c@[i]@, q_mul(w@, a@[i]@))
        },
        (forall|i: int| 0 <= i < a@.len() ==> q_fits(#[trigger] q_mul(w@, a@[i]@))) ==> r is Some,
{
    let mut out: Vec<Rat> = Vec::new();
    let n = a.len();
    let mut k: usize = 0;
    while k < n
        invariant
            k <= n,
            n == a@.len(),
            w.wf(),
            rvec_wf(a@),
            out@.len() == k,
            rvec_wf(out@),
            forall|i: int| 0 <= i < k ==> q_eq(#[trigger] out@[i]@, q_mul(w@, a@[i]@)),
        decreases n - k,
    {
        match w.mul(&a[k]) {
            Some(c) => {
                out.push(c);
            },
            None => {
                proof {
                    assert(!q_fits(q_mul(w@, a@[k as int]@)));
                }
                return None;
            },
        }
        k += 1;
    }
    Some(out)
}

/// Exact dot product of two stored vectors.
pub fn rvec_dot(a: &Vec<Rat>, b: &Vec<Rat>) -> (r: Option<Rat>)
    requires
        rvec_wf(a@),
        rvec_wf(b@),
        a@.len() == b@.len(),
    ensures
        r matches Some(c) ==> c.wf() && q_eq(c@, q_dot(qs(a@), qs(b@))),
{
    let ghost prods = Seq::new(a@.len(), |i: int| q_mul(a@[i]@, b@[i]@));
    proof {
        assert forall|i: int| 0 <= i < prods.len() implies q_wf(#[trigger] prods[i]) by {
            assert(a@[i].wf());
            assert(b@[i].wf());
            lemma_q_mul_wf(a@[i]@, b@[i]@);
        }
    }
    let mut acc = Rat::zero();
    let n = a.len();
    let mut k: usize = 0;
    while k < n
        invariant
            k <= n,
            n == a@.len() == b@.len(),
            rvec_wf(a@),
            rvec_wf(b@),
            acc.wf(),
            prods == Seq::new(a@.len(), |i: int| q_mul(a@[i]@, b@[i]@)),
            q_seq_wf(prods),
            q_eq(acc@, q_sum(prods.take(k as int))),
        decreases n - k,
    {
        let p = match a[k].mul(&b[k]) {
            Some(p) => p,
            None => {
                return None;
            },
        };
        let acc2 = match acc.add(&p) {
            Some(s) => s,
            None => {
                return None;
            },
        };
        proof {
            let ghost s0 = prods.take(k as int);
            // acc2 == acc + p, acc == sum(prefix), p == prods[k]; hence
            // acc2 == sum(prefix extended by prods[k]).
            lemma_q_sum_wf(s0);
            lemma_q_add_wf(acc@, p@);
            lemma_q_add_wf(q_sum(s0), prods[k as int]);
            lemma_q_add_congr(acc@, p@, q_sum(s0), prods[k as int]);
            lemma_q_eq_trans(acc2@, q_add(acc@, p@), q_add(q_sum(s0), prods[k as int]));
            lemma_q_sum_push(s0, prods[k as int]);
            assert(s0.push(prods[k as int]) =~= prods.take(k as int + 1));
        }
        acc = acc2;
        k += 1;
    }
    proof {
        assert(prods.take(n as int) =~= prods);
        assert(Seq::new(qs(a@).len(), |i: int| q_mul(qs(a@)[i], qs(b@)[i])) =~= prods);
    }
    Some(acc)
}

/// Exact squared norm of a stored vector.
pub fn rvec_norm_sq(a: &Vec<Rat>) -> (r: Option<Rat>)
    requires
        rvec_wf(a@),
    ensures
        r matches Some(c) ==> c.wf() && q_eq(c@, q_dot(qs(a@), qs(a@))),
{
    rvec_dot(a, a)
}

/// A dense matrix of exact rationals in row-major order.
pub struct MatRat {
    /// number of rows
    pub rows: usize,
    /// number of columns
    pub cols: usize,
    /// row-major entries; the length is always `rows * cols`
    pub data: Vec<Rat>,
}

impl MatRat {
    /// Well-formed: the buffer has exactly one well-formed scalar per cell.
    pub open spec fn wf(self) -> bool {
        &&& self.data@.len() == self.rows * self.cols
        &&& rvec_wf(self.data@)
    }

    /// Mathematical value of the entry at row `i`, column `j`.
    pub open spec fn entry(self, i: int, j: int) -> Q {
        self.data@[i * self.cols + j]@
    }

    /// Builds the all-zero matrix of the given shape.
    pub fn zeros(rows: usize, cols: usize) -> (r: MatRat)
        requires
            rows * cols <= usize::MAX,
        ensures
            r.wf(),
            r.rows == rows,
            r.cols == cols,
            forall|i: int, j: int|
                0 <= i < rows && 0 <= j < cols ==> #[trigger] r.entry(i, j) == q_zero(),
    {
        let total: usize = rows * cols;
        let mut data: Vec<Rat> = Vec::new();
        let mut k: usize = 0;
        while k < total
            invariant
                k <= total,
                data@.len() == k,
                rvec_wf(data@),
                forall|p: int| 0 <= p < k ==> #[trigger] data@[p]@ == q_zero(),
            decreases total - k,
        {
            data.push(Rat::zero());
            k += 1;
        }
        let r = MatRat { rows, cols, data };
        proof {
            assert forall|i: int, j: int|
                0 <= i < rows && 0 <= j < cols implies #[trigger] r.entry(i, j) == q_zero() by {
                lemma_row_major_index(i, j, rows as int, cols as int);
            }
        }
        r
    }

    /// Builds the all-zero matrix of the given shape, reporting `None`
    /// instead of overflowing the buffer size.
    pub fn zeros_checked(rows: usize, cols: usize) -> (r: Option<MatRat>)
        ensures
            r is Some <==> rows * cols <= usize::MAX,
            r matches Some(m) ==> {
                &&& m.wf()
                &&& m.rows == rows
                &&& m.cols == cols
                &&& forall|i: int, j: int|
                    0 <= i < rows && 0 <= j < cols ==> #[trigger] m.entry(i, j) == q_zero()
            },
    {
        match rows.checked_mul(cols) {
            Some(_) => Some(MatRat::zeros(rows, cols)),
            None => None,
        }
    }

    /// Copies the matrix value by value.
    pub fn clone_mat(&self) -> (r: MatRat)
        requires
            self.wf(),
        ensures
            r.wf(),
            r.rows == self.rows,
            r.cols == self.cols,
            r.data@ == self.data@,
    {
        let mut data: Vec<Rat> = Vec::new();
        let n = self.data.len();
        let mut k: usize = 0;
        while k < n
            invariant
                k <= n,
                n == self.data@.len(),
                rvec_wf(self.data@),
                data@.len() == k,
                forall|p: int| 0 <= p < k ==> #[trigger] data@[p] == self.data@[p],
            decreases n - k,
        {
            proof {
                assert(self.data@[k as int].wf());
            }
            data.push(self.data[k]);
            k += 1;
        }
        proof {
            assert(data@ =~= self.data@);
        }
        MatRat { rows: self.rows, cols: self.cols, data }
    }

    /// Reads the entry at row `i`, column `j`.
    pub fn get(&self, i: usize, j: usize) -> (r: Rat)
        requires
            self.wf(),
            i < self.rows,
            j < self.cols,
        ensures
            r.wf(),
            r@ == self.entry(i as int, j as int),
    {
        let n = self.data.len();
        proof {
            lemma_row_major_index(i as int, j as int, self.rows as int, self.cols as int);
        }
        self.data[i * self.cols + j]
    }

    /// Overwrites the entry at row `i`, column `j`.
    pub fn set(&mut self, i: usize, j: usize, v: Rat)
        requires
            old(self).wf(),
            i < old(self).rows,
            j < old(self).cols,
            v.wf(),
        ensures
            final(self).wf(),
            final(self).rows == old(self).rows,
            final(self).cols == old(self).cols,
            final(self).entry(i as int, j as int) == v@,
            forall|p: int, q: int|
                0 <= p < old(self).rows && 0 <= q < old(self).cols && !(p == i && q == j)
                    ==> #[trigger] final(self).entry(p, q) == old(self).entry(p, q),
    {
        let n = self.data.len();
        proof {
            lemma_row_major_index(i as int, j as int, self.rows as int, self.cols as int);
        }
        let idx = i * self.cols + j;
        self.data.set(idx, v);
        proof {
            assert forall|p: int, q: int|
                0 <= p < self.rows && 0 <= q < self.cols && !(p == i && q == j)
                    implies #[trigger] self.entry(p, q) == old(self).entry(p, q) by {
                lemma_row_major_index(p, q, self.rows as int, self.cols as int);
                lemma_row_major_distinct(p, q, i as int, j as int, self.cols as int);
            }
        }
    }
}

impl MatRat {
    /// Exact pointwise difference of two equally shaped matrices.
    pub fn mat_sub(a: &MatRat, b: &MatRat) -> (r: Option<MatRat>)
        requires
            a.wf(),
            b.wf(),
            a.rows == b.rows,
            a.cols == b.cols,
        ensures
            r matches Some(c) ==> {
                &&& c.wf()
                &&& c.rows == a.rows
                &&& c.cols == a.cols
                &&& forall|i: int, j: int|
                    0 <= i < a.rows && 0 <= j < a.cols ==> q_eq(
                        #[trigger] c.entry(i, j),
                        q_sub(a.entry(i, j), b.entry(i, j)),
                    )
            },
            (a.rows * a.cols <= usize::MAX && forall|i: int, j: int|
                0 <= i < a.rows && 0 <= j < a.cols ==> q_fits(
                    #[trigger] q_sub(a.entry(i, j), b.entry(i, j)),
                )) ==> r is Some,
    {
        let mut out = match MatRat::zeros_checked(a.rows, a.cols) {
            Some(m) => m,
            None => {
                return None;
            },
        };
        let mut i: usize = 0;
        while i < a.rows
            invariant
                i <= a.rows,
                a.wf(),
                b.wf(),
                a.rows == b.rows,
                a.cols == b.cols,
                out.wf(),
                out.rows == a.rows,
                out.cols == a.cols,
                forall|p: int, q: int|
                    0 <= p < i && 0 <= q < a.cols ==> q_eq(
                        #[trigger] out.entry(p, q),
                        q_sub(a.entry(p, q), b.entry(p, q)),
                    ),
            decreases a.rows - i,
        {
            let mut j: usize = 0;
            while j < a.cols
                invariant
                    j <= a.cols,
                    i < a.rows,
                    a.wf(),
                    b.wf(),
                    a.rows == b.rows,
                    a.cols == b.cols,
                    out.wf(),
                    out.rows == a.rows,
                    out.cols == a.cols,
                    forall|p: int, q: int|
                        0 <= p < i && 0 <= q < a.cols ==> q_eq(
                            #[trigger] out.entry(p, q),
                            q_sub(a.entry(p, q), b.entry(p, q)),
                        ),
                    forall|q: int|
                        0 <= q < j ==> q_eq(
                            #[trigger] out.entry(i as int, q),
                            q_sub(a.entry(i as int, q), b.entry(i as int, q)),
                        ),
                decreases a.cols - j,
            {
                let v = match a.get(i, j).sub(&b.get(i, j)) {
                    Some(v) => v,
                    None => {
                        proof {
                            assert(!q_fits(q_sub(a.entry(i as int, j as int), b.entry(
                                i as int,
                                j as int,
                            ))));
                        }
                        return None;
                    },
                };
                out.set(i, j, v);
                j += 1;
            }
            i += 1;
        }
        Some(out)
    }

    /// Exact scaling of a matrix by a scalar.
    pub fn mat_scale(w: &Rat, a: &MatRat) -> (r: Option<MatRat>)
        requires
            w.wf(),
            a.wf(),
        ensures
            r matches Some(c) ==> {
                &&& c.wf()
                &&& c.rows == a.rows
                &&& c.cols == a.cols
                &&& forall|i: int, j: int|
                    0 <= i < a.rows && 0 <= j < a.cols ==> q_eq(
                        #[trigger] c.entry(i, j),
                        q_mul(w@, a.entry(i, j)),
                    )
            },
            (a.rows * a.cols <= usize::MAX && forall|i: int, j: int|
                0 <= i < a.rows && 0 <= j < a.cols ==> q_fits(
                    #[trigger] q_mul(w@, a.entry(i, j)),
                )) ==> r is Some,
    {
        let mut out = match MatRat::zeros_checked(a.rows, a.cols) {
            Some(m) => m,
            None => {
                return None;
            },
        };
        let mut i: usize = 0;
        while i < a.rows
            invariant
                i <= a.rows,
                w.wf(),
                a.wf(),
                out.wf(),
                out.rows == a.rows,
                out.cols == a.cols,
                forall|p: int, q: int|
                    0 <= p < i && 0 <= q < a.cols ==> q_eq(
                        #[trigger] out.entry(p, q),
                        q_mul(w@, a.entry(p, q)),
                    ),
            decreases a.rows - i,
        {
            let mut j: usize = 0;
            while j < a.cols
                invariant
                    j <= a.cols,
                    i < a.rows,
                    w.wf(),
                    a.wf(),
                    out.wf(),
                    out.rows == a.rows,
                    out.cols == a.cols,
                    forall|p: int, q: int|
                        0 <= p < i && 0 <= q < a.cols ==> q_eq(
                            #[trigger] out.entry(p, q),
                            q_mul(w@, a.entry(p, q)),
                        ),
                    forall|q: int|
                        0 <= q < j ==> q_eq(
                            #[trigger] out.entry(i as int, q),
                            q_mul(w@, a.entry(i as int, q)),
                        ),
                decreases a.cols - j,
            {
                let v = match w.mul(&a.get(i, j)) {
                    Some(v) => v,
                    None => {
                        proof {
                            assert(!q_fits(q_mul(w@, a.entry(i as int, j as int))));
                        }
                        return None;
                    },
                };
                out.set(i, j, v);
                j += 1;
            }
            i += 1;
        }
        Some(out)
    }
}

/// Entries of a well-formed matrix are well-formed rationals.
pub proof fn lemma_mat_entry_wf(m: MatRat, i: int, j: int)
    requires
        m.wf(),
        0 <= i < m.rows,
        0 <= j < m.cols,
    ensures
        q_wf(m.entry(i, j)),
{
    lemma_row_major_index(i, j, m.rows as int, m.cols as int);
    assert(m.data@[i * m.cols + j].wf());
}

/// A row-major index lies within the buffer.
pub proof fn lemma_row_major_index(i: int, j: int, rows: int, cols: int)
    by (nonlinear_arith)
    requires
        0 <= i < rows,
        0 <= j < cols,
    ensures
        0 <= i * cols + j < rows * cols,
        i * cols + j <= (rows - 1) * cols + (cols - 1),
{
}

/// Distinct cells have distinct row-major indices.
pub proof fn lemma_row_major_distinct(p: int, q: int, i: int, j: int, cols: int)
    by (nonlinear_arith)
    requires
        0 <= q < cols,
        0 <= j < cols,
        !(p == i && q == j),
    ensures
        p * cols + q != i * cols + j,
{
}

} // verus!
