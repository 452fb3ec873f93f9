//! Decision variables: typed families with an optimization kind, and the
//! pool that assigns every free variable its row range in the normal
//! equations.
//!
//! Variables live on the translation group of their tangent space, whose
//! exponential map is exact componentwise addition of rationals; the
//! solver's retraction therefore introduces no rounding.  Curved groups,
//! whose exponential maps are irrational, are outside the exact scalar
//! domain and are modelled by their tangent parameters.

use crate::linalg::rvec_wf;
use crate::rational::{q_add, q_eq, q_fits, Rat};
use vstd::prelude::*;

verus! {

/// How a family of variables takes part in the optimization.
#[derive(Debug, Clone, Copy, PartialEq, Eq, Structural)]
pub enum VarKind {
    /// participates in the solved system
    Free,
    /// held constant; contributes to residuals but not to the system
    Fixed,
    /// reserved: excluded from the solved system by default
    Conditioned,
}

/// A named, ordered collection of variables sharing one degrees-of-freedom
/// count and one optimization kind.
#[derive(Debug, Clone)]
pub struct VarFamily {
    /// the kind of every member of this family
    pub kind: VarKind,
    /// degrees of freedom of one member
    pub dof: usize,
    /// current tangent parameters of each member, each of length `dof`
    pub values: Vec<Vec<Rat>>,
}

impl VarFamily {
    /// Structural validity: a positive degrees-of-freedom count and one
    /// parameter per degree of freedom for every member.
    pub open spec fn dims_ok(self) -> bool {
        &&& 1 <= self.dof
        &&& forall|i: int|
            0 <= i < self.values@.len() ==> (#[trigger] self.values@[i])@.len() == self.dof
    }

    /// All stored scalars are well-formed rationals.
    pub open spec fn rats_ok(self) -> bool {
        forall|i: int| 0 <= i < self.values@.len() ==> rvec_wf((#[trigger] self.values@[i])@)
    }

    /// Well-formed family.
    pub open spec fn wf(self) -> bool {
        self.dims_ok() && self.rats_ok()
    }

    /// Rows this family occupies in the normal equations: one block of
    /// `dof` rows per member when free, none otherwise.
    pub open spec fn block_dim(self) -> int {
        if self.kind is Free {
            self.dof * self.values@.len()
        } else {
            0
        }
    }

    /// Builds a family; `None` exactly when the degrees-of-freedom count
    /// is zero or some member has the wrong number of parameters.
    pub fn new(kind: VarKind, dof: usize, values: Vec<Vec<Rat>>) -> (r: Option<VarFamily>)
        requires
            forall|i: int| 0 <= i < values@.len() ==> rvec_wf((#[trigger] values@[i])@),
        ensures
            r is Some <==> (1 <= dof && forall|i: int|
                0 <= i < values@.len() ==> (#[trigger] values@[i])@.len() == dof),
            r matches Some(f) ==> f.wf() && f.kind == kind && f.dof == dof && f.values == values,
    {
        if dof == 0 {
            return None;
        }
        let n = values.len();
        let mut i: usize = 0;
        while i < n
            invariant
                i <= n,
                n == values@.len(),
                1 <= dof,
                forall|p: int| 0 <= p < i ==> (#[trigger] values@[p])@.len() == dof,
            decreases n - i,
        {
            if values[i].len() != dof {
                return None;
            }
            i += 1;
        }
        Some(VarFamily { kind, dof, values })
    }

    /// Number of members.
    pub fn len(&self) -> (r: usize)
        ensures
            r == self.values@.len(),
    {
        self.values.len()
    }
}

/// Sum of the block dimensions of the first `i` families.
pub open spec fn prefix_dim(fams: Seq<VarFamily>, i: int) -> int
    decreases i,
{
    if i <= 0 {
        0
    } else {
        prefix_dim(fams, i - 1) + fams[i - 1].block_dim()
    }
}

/// Block dimensions are never negative, so prefixes grow monotonically.
pub proof fn lemma_prefix_dim_monotonic(fams: Seq<VarFamily>, i: int, j: int)
    requires
        0 <= i <= j <= fams.len(),
    ensures
        prefix_dim(fams, i) <= prefix_dim(fams, j),
    decreases j - i,
{
    if i < j {
        lemma_prefix_dim_monotonic(fams, i, j - 1);
        assert(fams[j - 1].block_dim() >= 0) by {
            if fams[j - 1].kind is Free {
                assert(fams[j - 1].dof * fams[j - 1].values@.len() >= 0) by (nonlinear_arith);
            }
        }
    }
}

/// An ordered collection of variable families with the row offset of
/// each family in the normal equations.
#[derive(Debug, Clone)]
pub struct VarPool {
    /// the family names, parallel to `families`
    pub names: Vec<String>,
    /// the families in declaration order
    pub families: Vec<VarFamily>,
    /// row offset of each family; meaningful for free families
    pub offsets: Vec<usize>,
    /// total number of rows of the normal equations
    pub total_dim: usize,
}

impl VarPool {
    /// Well-formed pool: parallel columns, well-formed families, and an
    /// offset table that is exactly the prefix sum of the block sizes.
    pub open spec fn wf(self) -> bool {
        &&& self.names@.len() == self.families@.len()
        &&& self.offsets@.len() == self.families@.len()
        &&& forall|i: int| 0 <= i < self.families@.len() ==> (#[trigger] self.families@[i]).wf()
        &&& forall|i: int|
            0 <= i < self.families@.len() ==> (#[trigger] self.offsets@[i]) as int == prefix_dim(
                self.families@,
                i,
            )
        &&& self.total_dim as int == prefix_dim(self.families@, self.families@.len() as int)
    }

    /// Index of the first family with the given name.
    pub open spec fn spec_find(self, name: Seq<char>) -> Option<int> {
        if exists|i: int| 0 <= i < self.names@.len() && (#[trigger] self.names@[i])@ == name {
            Some(choose|i: int| 0 <= i < self.names@.len() && (#[trigger] self.names@[i])@ == name)
        } else {
            None
        }
    }

    /// Finds the position of the family with the given name.
    pub fn find_family(&self, name: &String) -> (r: Option<usize>)
        ensures
            match r {
                Some(i) => 0 <= i < self.names@.len() && self.names@[i as int]@ == name@
                    && forall|p: int| 0 <= p < i ==> (#[trigger] self.names@[p])@ != name@,
                None => forall|i: int|
                    0 <= i < self.names@.len() ==> (#[trigger] self.names@[i])@ != name@,
            },
    {
        let n = self.names.len();
        let mut i: usize = 0;
        while i < n
            invariant
                i <= n,
                n == self.names@.len(),
                forall|p: int| 0 <= p < i ==> (#[trigger] self.names@[p])@ != name@,
            decreases n - i,
        {
            if self.names[i].eq(name) {
                return Some(i);
            }
            i += 1;
        }
        None
    }

    /// Current members of the family with the given name, or `None` when
    /// no family carries it.
    pub fn get_members(&self, name: String) -> (r: Option<Vec<Vec<Rat>>>)
        requires
            self.wf(),
        ensures
            match r {
                Some(vals) => exists|i: int|
                    0 <= i < self.names@.len() && (#[trigger] self.names@[i])@ == name@
                        && vals@.len() == self.families@[i].values@.len() && (forall|v: int|
                        0 <= v < vals@.len() ==> (#[trigger] vals@[v])@
                            == self.families@[i].values@[v]@),
                None => forall|i: int|
                    0 <= i < self.names@.len() ==> (#[trigger] self.names@[i])@ != name@,
            },
    {
        match self.find_family(&name) {
            Some(i) => Some(clone_values(&self.families[i].values)),
            None => None,
        }
    }
}

impl VarPool {
    /// The scalar row of degree of freedom `k` of member `v` of family `f`.
    pub open spec fn row_of(self, f: int, v: int, k: int) -> int {
        prefix_dim(self.families@, f) + v * self.families@[f].dof + k
    }

    /// Rows of free variables lie below the total dimension.
    pub proof fn lemma_row_in_range(self, f: int, v: int, k: int)
        requires
            self.wf(),
            0 <= f < self.families@.len(),
            self.families@[f].kind is Free,
            0 <= v < self.families@[f].values@.len(),
            0 <= k < self.families@[f].dof,
        ensures
            0 <= self.row_of(f, v, k) < self.total_dim,
            self.row_of(f, v, k) < prefix_dim(self.families@, f + 1),
    {
        lemma_prefix_dim_monotonic(self.families@, 0, f);
        crate::linalg::lemma_row_major_index(
            v,
            k,
            self.families@[f].values@.len() as int,
            self.families@[f].dof as int,
        );
        assert(self.families@[f].values@.len() * self.families@[f].dof == self.families@[f].dof
            * self.families@[f].values@.len()) by (nonlinear_arith);
        lemma_prefix_dim_monotonic(self.families@, f + 1, self.families@.len() as int);
    }

    /// Applies an increment to every free variable through the manifold
    /// retraction (exact tangent addition); fixed and conditioned
    /// variables are returned untouched.  `None` only on overflow,
    /// and success is owed whenever every updated component fits.
    pub fn retract(&self, delta: &Vec<Rat>) -> (r: Option<VarPool>)
        requires
            self.wf(),
            rvec_wf(delta@),
            delta@.len() == self.total_dim,
        ensures
            (forall|f: int, v: int, k: int|
                0 <= f < self.families@.len() && self.families@[f].kind is Free && 0 <= v
                    < self.families@[f].values@.len() && 0 <= k < self.families@[f].dof
                    ==> q_fits(
                    #[trigger] q_add(
                        self.families@[f].values@[v]@[k]@,
                        delta@[self.row_of(f, v, k)]@,
                    ),
                )) ==> r is Some,
            r matches Some(p) ==> {
                &&& p.wf()
                &&& p.names@ == self.names@
                &&& p.offsets@ == self.offsets@
                &&& p.total_dim == self.total_dim
                &&& p.families@.len() == self.families@.len()
                &&& forall|f: int|
                    0 <= f < p.families@.len() ==> {
                        &&& (#[trigger] p.families@[f]).kind == self.families@[f].kind
                        &&& p.families@[f].dof == self.families@[f].dof
                        &&& p.families@[f].values@.len() == self.families@[f].values@.len()
                    }
                &&& forall|f: int, v: int|
                    0 <= f < p.families@.len() && !(self.families@[f].kind is Free) && 0 <= v
                        < p.families@[f].values@.len() ==> (
                    #[trigger] p.families@[f].values@[v])@ == self.families@[f].values@[v]@
                &&& forall|f: int, v: int, k: int|
                    0 <= f < p.families@.len() && self.families@[f].kind is Free && 0 <= v
                        < p.families@[f].values@.len() && 0 <= k < p.families@[f].dof ==> q_eq(
                        (#[trigger] p.families@[f].values@[v]@[k])@,
                        q_add(self.families@[f].values@[v]@[k]@, delta@[self.row_of(f, v, k)]@),
                    )
            },
    {
        let nf = self.families.len();
        let mut new_families: Vec<VarFamily> = Vec::new();
        let mut f: usize = 0;
        while f < nf
            invariant
                f <= nf,
                self.wf(),
                rvec_wf(delta@),
                delta@.len() == self.total_dim,
                nf == self.families@.len(),
                new_families@.len() == f,
                forall|p: int|
                    0 <= p < f ==> {
                        &&& (#[trigger] new_families@[p]).kind == self.families@[p].kind
                        &&& new_families@[p].dof == self.families@[p].dof
                        &&& new_families@[p].values@.len() == self.families@[p].values@.len()
                        &&& new_families@[p].wf()
                    },
                forall|p: int, v: int|
                    0 <= p < f && !(self.families@[p].kind is Free) && 0 <= v
                        < self.families@[p].values@.len() ==> (
                    #[trigger] new_families@[p].values@[v])@ == self.families@[p].values@[v]@,
                forall|p: int, v: int, k: int|
                    0 <= p < f && self.families@[p].kind is Free && 0 <= v
                        < self.families@[p].values@.len() && 0 <= k < self.families@[p].dof
                        ==> q_eq(
                        (#[trigger] new_families@[p].values@[v]@[k])@,
                        q_add(self.families@[p].values@[v]@[k]@, delta@[self.row_of(p, v, k)]@),
                    ),
            decreases nf - f,
        {
            let fam = &self.families[f];
            let is_free = matches!(fam.kind, VarKind::Free);
            if !is_free {
                let copied = clone_values(&fam.values);
                new_families.push(VarFamily { kind: fam.kind, dof: fam.dof, values: copied });
            } else {
                let off = self.offsets[f];
                let m = fam.values.len();
                let dof = fam.dof;
                let mut new_values: Vec<Vec<Rat>> = Vec::new();
                let mut v: usize = 0;
                while v < m
                    invariant
                        v <= m,
                        self.wf(),
                        rvec_wf(delta@),
                        delta@.len() == self.total_dim,
                        f < self.families@.len(),
                        *fam == self.families@[f as int],
                        fam.kind is Free,
                        m == fam.values@.len(),
                        dof == fam.dof,
                        off as int == prefix_dim(self.families@, f as int),
                        new_values@.len() == v,
                        forall|p: int|
                            0 <= p < v ==> (#[trigger] new_values@[p])@.len() == dof && rvec_wf(
                                new_values@[p]@,
                            ),
                        forall|p: int, k: int|
                            0 <= p < v && 0 <= k < dof ==> q_eq(
                                (#[trigger] new_values@[p]@[k])@,
                                q_add(
                                    self.families@[f as int].values@[p]@[k]@,
                                    delta@[self.row_of(f as int, p, k)]@,
                                ),
                            ),
                    decreases m - v,
                {
                    let row = &fam.values[v];
                    let mut new_row: Vec<Rat> = Vec::new();
                    let mut k: usize = 0;
                    while k < dof
                        invariant
                            k <= dof,
                            self.wf(),
                            rvec_wf(delta@),
                            delta@.len() == self.total_dim,
                            f < self.families@.len(),
                            *fam == self.families@[f as int],
                            fam.kind is Free,
                            v < m == fam.values@.len(),
                            dof == fam.dof,
                            off as int == prefix_dim(self.families@, f as int),
                            *row == self.families@[f as int].values@[v as int],
                            row@.len() == dof,
                            rvec_wf(row@),
                            new_row@.len() == k,
                            rvec_wf(new_row@),
                            forall|p: int|
                                0 <= p < k ==> q_eq(
                                    (#[trigger] new_row@[p])@,
                                    q_add(
                                        self.families@[f as int].values@[v as int]@[p]@,
                                        delta@[self.row_of(f as int, v as int, p)]@,
                                    ),
                                ),
                        decreases dof - k,
                    {
                        proof {
                            self.lemma_row_in_range(f as int, v as int, k as int);
                        }
                        let idx = off + v * dof + k;
                        let s = match row[k].add(&delta[idx]) {
                            Some(s) => s,
                            None => {
                                proof {
                                    assert(idx as int == self.row_of(f as int, v as int, k as int));
                                    assert(!q_fits(q_add(
                                        self.families@[f as int].values@[v as int]@[k as int]@,
                                        delta@[self.row_of(f as int, v as int, k as int)]@,
                                    )));
                                }
                                return None;
                            },
                        };
                        new_row.push(s);
                        k += 1;
                    }
                    new_values.push(new_row);
                    v += 1;
                }
                new_families.push(VarFamily { kind: fam.kind, dof: fam.dof, values: new_values });
            }
            f += 1;
        }
        let names = clone_strings(&self.names);
        let offsets = clone_usizes(&self.offsets);
        proof {
            assert forall|i2: int| 0 <= i2 <= new_families@.len() implies prefix_dim(
                new_families@,
                i2,
            ) == prefix_dim(self.families@, i2) by {
                lemma_prefix_dim_same(self.families@, new_families@, i2);
            }
        }
        Some(
            VarPool {
                names,
                families: new_families,
                offsets,
                total_dim: self.total_dim,
            },
        )
    }
}

/// Prefix dimensions agree for layouts whose families have the same
/// kinds, degrees of freedom and member counts.
proof fn lemma_prefix_dim_same(a: Seq<VarFamily>, b: Seq<VarFamily>, i: int)
    requires
        a.len() == b.len(),
        0 <= i <= a.len(),
        forall|p: int|
            0 <= p < a.len() ==> {
                &&& (#[trigger] b[p]).kind == a[p].kind
                &&& b[p].dof == a[p].dof
                &&& b[p].values@.len() == a[p].values@.len()
            },
    ensures
        prefix_dim(b, i) == prefix_dim(a, i),
    decreases i,
{
    if i > 0 {
        lemma_prefix_dim_same(a, b, i - 1);
    }
}

/// Copies a vector of names.
fn clone_strings(src: &Vec<String>) -> (r: Vec<String>)
    ensures
        r@ == src@,
{
    let mut out: Vec<String> = Vec::new();
    let n = src.len();
    let mut i: usize = 0;
    while i < n
        invariant
            i <= n,
            n == src@.len(),
            out@.len() == i,
            forall|p: int| 0 <= p < i ==> #[trigger] out@[p] == src@[p],
        decreases n - i,
    {
        out.push(src[i].clone());
        i += 1;
    }
    proof {
        assert(out@ =~= src@);
    }
    out
}

/// Copies a vector of offsets.
fn clone_usizes(src: &Vec<usize>) -> (r: Vec<usize>)
    ensures
        r@ == src@,
{
    let mut out: Vec<usize> = Vec::new();
    let n = src.len();
    let mut i: usize = 0;
    while i < n
        invariant
            i <= n,
            n == src@.len(),
            out@.len() == i,
            forall|p: int| 0 <= p < i ==> #[trigger] out@[p] == src@[p],
        decreases n - i,
    {
        out.push(src[i]);
        i += 1;
    }
    proof {
        assert(out@ =~= src@);
    }
    out
}

/// Step-by-step construction of a [`VarPool`].
#[derive(Debug, Clone)]
pub struct VarPoolBuilder {
    /// the family names added so far
    pub names: Vec<String>,
    /// the families added so far
    pub families: Vec<VarFamily>,
}

impl VarPoolBuilder {
    /// An empty builder.
    pub fn new() -> (r: VarPoolBuilder)
        ensures
            r.names@.len() == 0,
            r.families@.len() == 0,
    {
        VarPoolBuilder { names: Vec::new(), families: Vec::new() }
    }

    /// Appends one named family.
    pub fn add_family(self, name: String, family: VarFamily) -> (r: VarPoolBuilder)
        ensures
            r.names@ == self.names@.push(name),
            r.families@ == self.families@.push(family),
    {
        let mut names = self.names;
        let mut families = self.families;
        names.push(name);
        families.push(family);
        VarPoolBuilder { names, families }
    }

    /// Builds the pool and its block layout.  `None` exactly when some
    /// family is malformed or the total row count overflows the machine
    /// word.
    pub fn build(self) -> (r: Option<VarPool>)
        requires
            forall|i: int| 0 <= i < self.families@.len() ==> (#[trigger] self.families@[i]).rats_ok(),
        ensures
            r is Some <==> (self.names@.len() == self.families@.len() && (forall|i: int|
                0 <= i < self.families@.len() ==> (#[trigger] self.families@[i]).dims_ok())
                && prefix_dim(self.families@, self.families@.len() as int) <= usize::MAX),
            r matches Some(p) ==> {
                &&& p.wf()
                &&& p.names == self.names
                &&& p.families == self.families
            },
    {
        if self.names.len() != self.families.len() {
            return None;
        }
        let n = self.families.len();
        let mut offsets: Vec<usize> = Vec::new();
        let mut total: usize = 0;
        let mut i: usize = 0;
        while i < n
            invariant
                i <= n,
                n == self.families@.len(),
                offsets@.len() == i,
                forall|p: int| 0 <= p < i ==> (#[trigger] self.families@[p]).dims_ok(),
                forall|p: int|
                    0 <= p < i ==> (#[trigger] offsets@[p]) as int == prefix_dim(self.families@, p),
                total as int == prefix_dim(self.families@, i as int),
                forall|p: int|
                    0 <= p < self.families@.len() ==> (#[trigger] self.families@[p]).rats_ok(),
            decreases n - i,
        {
            let fam = &self.families[i];
            if fam.dof == 0 {
                proof {
                    assert(!self.families@[i as int].dims_ok());
                }
                return None;
            }
            let m = fam.values.len();
            let mut v: usize = 0;
            while v < m
                invariant
                    v <= m,
                    i < self.families@.len(),
                    *fam == self.families@[i as int],
                    m == fam.values@.len(),
                    1 <= fam.dof,
                    forall|p: int| 0 <= p < v ==> (#[trigger] fam.values@[p])@.len() == fam.dof,
                decreases m - v,
            {
                if fam.values[v].len() != fam.dof {
                    proof {
                        assert(self.families@[i as int].values@[v as int]@.len()
                            != self.families@[i as int].dof);
                        assert(!self.families@[i as int].dims_ok());
                    }
                    return None;
                }
                v += 1;
            }
            offsets.push(total);
            let block: usize = if matches!(fam.kind, VarKind::Free) {
                match fam.dof.checked_mul(m) {
                    Some(b) => b,
                    None => {
                        proof {
                            overflow_contradiction(self.families@, i as int, n as int);
                        }
                        return None;
                    },
                }
            } else {
                0
            };
            let total2 = match total.checked_add(block) {
                Some(t) => t,
                None => {
                    proof {
                        overflow_contradiction(self.families@, i as int, n as int);
                    }
                    return None;
                },
            };
            total = total2;
            i += 1;
        }
        Some(
            VarPool {
                names: self.names,
                families: self.families,
                offsets,
                total_dim: total,
            },
        )
    }
}

/// Copies a family's member parameters value by value.
fn clone_values(src: &Vec<Vec<Rat>>) -> (r: Vec<Vec<Rat>>)
    ensures
        r@.len() == src@.len(),
        forall|i: int| 0 <= i < r@.len() ==> (#[trigger] r@[i])@ == src@[i]@,
{
    let mut out: Vec<Vec<Rat>> = Vec::new();
    let n = src.len();
    let mut i: usize = 0;
    while i < n
        invariant
            i <= n,
            n == src@.len(),
            out@.len() == i,
            forall|p: int| 0 <= p < i ==> (#[trigger] out@[p])@ == src@[p]@,
        decreases n - i,
    {
        let row = &src[i];
        let m = row.len();
        let mut inner: Vec<Rat> = Vec::new();
        let mut k: usize = 0;
        while k < m
            invariant
                k <= m,
                m == row@.len(),
                inner@.len() == k,
                forall|p: int| 0 <= p < k ==> #[trigger] inner@[p] == row@[p],
            decreases m - k,
        {
            inner.push(row[k]);
            k += 1;
        }
        proof {
            assert(inner@ =~= row@);
        }
        out.push(inner);
        i += 1;
    }
    out
}

/// If a prefix of the layout already overflows, the whole layout does:
/// used to justify reporting failure early.
proof fn overflow_contradiction(fams: Seq<VarFamily>, i: int, n: int)
    requires
        0 <= i < n == fams.len(),
        prefix_dim(fams, i) + fams[i].block_dim() > usize::MAX,
    ensures
        prefix_dim(fams, n) > usize::MAX,
{
    assert(prefix_dim(fams, i + 1) == prefix_dim(fams, i) + fams[i].block_dim());
    lemma_prefix_dim_monotonic(fams, i + 1, n);
}

} // verus!
