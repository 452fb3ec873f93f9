//! Exact rational scalars.
//!
//! Every numeric quantity in the solver is an exact rational held as a
//! 64-bit numerator and positive 64-bit denominator.  The mathematical
//! value of a scalar is the ghost pair [`Q`]; two pairs denote the same
//! rational when they agree under cross multiplication ([`q_eq`]).
//! Arithmetic reduces by a greatest common divisor and reports `None`
//! instead of overflowing, so no operation here can panic or round.

use vstd::arithmetic::div_mod::{
    lemma_fundamental_div_mod, lemma_div_is_ordered_by_denominator, lemma_div_pos_is_pos,
};
use vstd::prelude::*;

verus! {

/// Mathematical value of a rational scalar: an unbounded numerator and
/// denominator.  Spec-level only; the denominator of a well-formed value
/// is positive.
#[verifier::ext_equal]
pub struct Q {
    /// numerator
    pub n: int,
    /// denominator
    pub d: int,
}

/// A well-formed mathematical rational has a positive denominator.
pub open spec fn q_wf(a: Q) -> bool {
    a.d > 0
}

/// `a` and `b` denote the same rational number.
pub open spec fn q_eq(a: Q, b: Q) -> bool {
    a.n * b.d == b.n * a.d
}

/// `a <= b` as rational numbers (valid when both are well-formed).
pub open spec fn q_le(a: Q, b: Q) -> bool {
    a.n * b.d <= b.n * a.d
}

/// `a < b` as rational numbers (valid when both are well-formed).
pub open spec fn q_lt(a: Q, b: Q) -> bool {
    a.n * b.d < b.n * a.d
}

/// The rational denoted by the integer `n`.
pub open spec fn q_int(n: int) -> Q {
    Q { n: n, d: 1 }
}

/// Zero.
pub open spec fn q_zero() -> Q {
    q_int(0)
}

/// One.
pub open spec fn q_one() -> Q {
    q_int(1)
}

/// Exact sum of two mathematical rationals.
pub open spec fn q_add(a: Q, b: Q) -> Q {
    Q { n: a.n * b.d + b.n * a.d, d: a.d * b.d }
}

/// Exact product of two mathematical rationals.
pub open spec fn q_mul(a: Q, b: Q) -> Q {
    Q { n: a.n * b.n, d: a.d * b.d }
}

/// Exact negation.
pub open spec fn q_neg(a: Q) -> Q {
    Q { n: -a.n, d: a.d }
}

/// Exact difference.
pub open spec fn q_sub(a: Q, b: Q) -> Q {
    q_add(a, q_neg(b))
}

/// Equality of mathematical rationals is transitive on well-formed values.
pub proof fn lemma_q_eq_trans(a: Q, b: Q, c: Q)
    by (nonlinear_arith)
    requires
        q_wf(a),
        q_wf(b),
        q_wf(c),
        q_eq(a, b),
        q_eq(b, c),
    ensures
        q_eq(a, c),
{
}

/// Sums of equal rationals are equal.
pub proof fn lemma_q_add_congr(a: Q, b: Q, a2: Q, b2: Q)
    requires
        q_wf(a),
        q_wf(b),
        q_wf(a2),
        q_wf(b2),
        q_eq(a, a2),
        q_eq(b, b2),
    ensures
        q_eq(q_add(a, b), q_add(a2, b2)),
{
    lemma_cross_add(a.n, a.d, b.n, b.d, a2.n, a2.d, b2.n, b2.d);
}

/// Expanded form of the cross-multiplied sum identity used by
/// [`lemma_q_add_congr`].
#[verifier::rlimit(100)]
proof fn lemma_cross_add(an: int, ad: int, bn: int, bd: int, cn: int, cd: int, dn: int, dd: int)
    requires
        an * cd == cn * ad,
        bn * dd == dn * bd,
    ensures
        (an * bd + bn * ad) * (cd * dd) == (cn * dd + dn * cd) * (ad * bd),
{
    assert((an * bd + bn * ad) * (cd * dd) == (an * bd) * (cd * dd) + (bn * ad) * (cd * dd))
        by (nonlinear_arith);
    assert((an * bd) * (cd * dd) == (an * cd) * (bd * dd)) by (nonlinear_arith);
    assert((bn * ad) * (cd * dd) == (bn * dd) * (ad * cd)) by (nonlinear_arith);
    assert((cn * dd + dn * cd) * (ad * bd) == (cn * dd) * (ad * bd) + (dn * cd) * (ad * bd))
        by (nonlinear_arith);
    assert((cn * dd) * (ad * bd) == (cn * ad) * (bd * dd)) by (nonlinear_arith);
    assert((dn * cd) * (ad * bd) == (dn * bd) * (ad * cd)) by (nonlinear_arith);
}

/// Subtracting zero does not change a rational's value.
pub proof fn lemma_q_sub_zero(a: Q)
    ensures
        q_eq(q_sub(a, q_zero()), a),
{
    let s = q_sub(a, q_zero());
    assert(s.n == a.n * 1 + (-0) * a.d);
    assert(a.n * 1 + (-0) * a.d == a.n) by (nonlinear_arith);
    assert(s.d == a.d * 1);
    assert(a.d * 1 == a.d) by (nonlinear_arith);
}

/// Equality of rationals is symmetric.
pub proof fn lemma_q_eq_sym(a: Q, b: Q)
    requires
        q_eq(a, b),
    ensures
        q_eq(b, a),
{
}

/// Adding zero on the left does not change a rational's value.
pub proof fn lemma_q_add_zero_left(a: Q)
    ensures
        q_eq(q_add(q_zero(), a), a),
{
    let s = q_add(q_zero(), a);
    assert(s.n == 0 * a.d + a.n * 1);
    assert(0 * a.d + a.n * 1 == a.n) by (nonlinear_arith);
    assert(s.d == 1 * a.d);
    assert(1 * a.d == a.d) by (nonlinear_arith);
}

/// Adding zero on the right does not change a rational's value.
pub proof fn lemma_q_add_zero_right(a: Q)
    ensures
        q_eq(q_add(a, q_zero()), a),
{
    let s = q_add(a, q_zero());
    assert(s.n == a.n * 1 + 0 * a.d);
    assert(a.n * 1 + 0 * a.d == a.n) by (nonlinear_arith);
    assert(s.d == a.d * 1);
    assert(a.d * 1 == a.d) by (nonlinear_arith);
}

/// Multiplying by zero yields zero.
pub proof fn lemma_q_mul_zero_left(a: Q)
    ensures
        q_eq(q_mul(q_zero(), a), q_zero()),
{
    let s = q_mul(q_zero(), a);
    assert(s.n == 0 * a.n);
    assert(0 * a.n == 0) by (nonlinear_arith);
}

/// Multiplying by one does not change a rational's value.
pub proof fn lemma_q_mul_one_left(a: Q)
    ensures
        q_eq(q_mul(q_one(), a), a),
{
    let s = q_mul(q_one(), a);
    assert(s.n == 1 * a.n);
    assert(1 * a.n == a.n) by (nonlinear_arith);
    assert(s.d == 1 * a.d);
    assert(1 * a.d == a.d) by (nonlinear_arith);
}

/// Adding back a difference restores the original value:
/// `a + (b - a) == b`.
pub proof fn lemma_q_add_sub_cancel(a: Q, b: Q)
    by (nonlinear_arith)
    requires
        q_wf(a),
        q_wf(b),
    ensures
        q_eq(q_add(a, q_sub(b, a)), b),
{
}

/// Differences of equal rationals are equal.
pub proof fn lemma_q_sub_congr(a: Q, b: Q, a2: Q, b2: Q)
    requires
        q_wf(a),
        q_wf(b),
        q_wf(a2),
        q_wf(b2),
        q_eq(a, a2),
        q_eq(b, b2),
    ensures
        q_eq(q_sub(a, b), q_sub(a2, b2)),
{
    assert(q_eq(q_neg(b), q_neg(b2))) by (nonlinear_arith)
        requires
            q_eq(b, b2),
    ;
    lemma_q_add_congr(a, q_neg(b), a2, q_neg(b2));
}

/// Products of equal rationals are equal.
pub proof fn lemma_q_mul_congr(a: Q, b: Q, a2: Q, b2: Q)
    by (nonlinear_arith)
    requires
        q_wf(a),
        q_wf(b),
        q_wf(a2),
        q_wf(b2),
        q_eq(a, a2),
        q_eq(b, b2),
    ensures
        q_eq(q_mul(a, b), q_mul(a2, b2)),
{
}

/// The order of rationals respects equality of its endpoints.
pub proof fn lemma_q_le_congr(a: Q, b: Q, a2: Q, b2: Q)
    by (nonlinear_arith)
    requires
        q_wf(a),
        q_wf(b),
        q_wf(a2),
        q_wf(b2),
        q_eq(a, a2),
        q_eq(b, b2),
        q_le(a, b),
    ensures
        q_le(a2, b2),
{
}

/// A strict bound composes with a loose one.
pub proof fn lemma_q_lt_le_trans(a: Q, b: Q, c: Q)
    by (nonlinear_arith)
    requires
        q_wf(a),
        q_wf(b),
        q_wf(c),
        q_lt(a, b),
        q_le(b, c),
    ensures
        q_lt(a, c),
{
}

/// The strict order of rationals respects equality of its endpoints.
pub proof fn lemma_q_lt_congr(a: Q, b: Q, a2: Q, b2: Q)
    by (nonlinear_arith)
    requires
        q_wf(a),
        q_wf(b),
        q_wf(a2),
        q_wf(b2),
        q_eq(a, a2),
        q_eq(b, b2),
        q_lt(a, b),
    ensures
        q_lt(a2, b2),
{
}

/// An exact rational scalar.  The denominator is always positive and the
/// numerator never takes the one 64-bit value whose negation overflows,
/// so products of two scalars always fit in 128 bits.
#[derive(Clone, Copy, Debug)]
pub struct Rat {
    num: i64,
    den: i64,
}

impl View for Rat {
    type V = Q;

    closed spec fn view(&self) -> Q {
        Q { n: self.num as int, d: self.den as int }
    }
}

/// Largest magnitude allowed for a stored numerator or denominator.
pub open spec fn spec_rat_limit() -> int {
    0x7fff_ffff_ffff_ffff
}

/// The pair fits in stored form even before any reduction: such a
/// value is always accepted by the arithmetic, so `q_fits` of an exact
/// result is the sufficient condition under which an operation owes
/// success.
pub open spec fn q_fits(a: Q) -> bool {
    &&& -spec_rat_limit() <= a.n <= spec_rat_limit()
    &&& a.d <= spec_rat_limit()
}

/// Squared 64-bit limit: every product of two stored components is
/// bounded by this, which itself fits comfortably in 128 bits.
proof fn lemma_component_product_bound(a: int, b: int)
    by (nonlinear_arith)
    requires
        -spec_rat_limit() <= a <= spec_rat_limit(),
        -spec_rat_limit() <= b <= spec_rat_limit(),
    ensures
        -0x3fff_ffff_ffff_ffff_0000_0000_0000_0001 <= a * b
            <= 0x3fff_ffff_ffff_ffff_0000_0000_0000_0001,
{
}

impl Rat {
    /// Representation invariant: positive denominator, numerator strictly
    /// above `i64::MIN` so that its magnitude fits in an `i64`.
    pub open spec fn wf(self) -> bool {
        1 <= self@.d <= spec_rat_limit() && -spec_rat_limit() <= self@.n <= spec_rat_limit()
    }

    /// The rational zero.
    pub fn zero() -> (r: Rat)
        ensures
            r.wf(),
            r@ == q_zero(),
    {
        Rat { num: 0, den: 1 }
    }

    /// The rational one.
    pub fn one() -> (r: Rat)
        ensures
            r.wf(),
            r@ == q_one(),
    {
        Rat { num: 1, den: 1 }
    }

    /// The rational denoting the integer `n`.
    pub fn from_int(n: i64) -> (r: Rat)
        requires
            n != i64::MIN,
        ensures
            r.wf(),
            r@ == q_int(n as int),
    {
        Rat { num: n, den: 1 }
    }

    /// Builds the rational `num / den`.  Returns `None` exactly when the
    /// denominator is zero or either argument is the one 64-bit value
    /// whose magnitude has no 64-bit representation.
    pub fn new(num: i64, den: i64) -> (r: Option<Rat>)
        ensures
            r is Some <==> (den != 0 && num != i64::MIN && den != i64::MIN),
            r matches Some(c) ==> c.wf() && q_eq(c@, Q { n: num as int, d: den as int }),
    {
        if den == 0 || num == i64::MIN || den == i64::MIN {
            None
        } else if den < 0 {
            let c = Rat { num: -num, den: -den };
            proof {
                assert(q_eq(c@, Q { n: num as int, d: den as int })) by (nonlinear_arith)
                    requires
                        c.num as int == -(num as int),
                        c.den as int == -(den as int),
                ;
            }
            Some(c)
        } else {
            Some(Rat { num, den })
        }
    }

    /// Exposes the numerator (for display and diagnostics).
    pub fn numerator(&self) -> (r: i64)
        ensures
            r as int == self@.n,
    {
        self.num
    }

    /// Exposes the denominator (for display and diagnostics).
    pub fn denominator(&self) -> (r: i64)
        ensures
            r as int == self@.d,
    {
        self.den
    }
}

/// Greatest-common-divisor helper on unsigned 128-bit magnitudes: the
/// result is positive and divides both arguments.
fn gcd_u128(a: u128, b: u128) -> (g: u128)
    requires
        a >= 1 || b >= 1,
    ensures
        1 <= g,
        (a as int) % (g as int) == 0,
        (b as int) % (g as int) == 0,
        b == 0 ==> g == a,
        a == 0 ==> g == b,
    decreases b,
{
    if b == 0 {
        proof {
            lemma_fundamental_div_mod(a as int, a as int);
            assert((a as int) % (a as int) == 0) by (nonlinear_arith)
                requires
                    a >= 1,
                    (a as int) == (a as int) * ((a as int) / (a as int)) + (a as int) % (a as int),
                    0 <= (a as int) % (a as int) < (a as int),
            ;
        }
        a
    } else {
        let r: u128 = a % b;
        proof {
            assert((0int) % (b as int) == 0int) by (nonlinear_arith)
                requires
                    b as int >= 1,
            ;
        }
        let g = gcd_u128(b, r);
        proof {
            lemma_fundamental_div_mod(a as int, b as int);
            lemma_fundamental_div_mod(b as int, g as int);
            lemma_fundamental_div_mod(r as int, g as int);
            // a is a multiple of g: a == g * ((b/g)*(a/b) + r/g).
            let k = (b as int / g as int) * (a as int / b as int) + (r as int / g as int);
            assert(a as int == (g as int) * k) by (nonlinear_arith)
                requires
                    a as int == (b as int) * ((a as int) / (b as int)) + (r as int),
                    b as int == (g as int) * ((b as int) / (g as int)),
                    r as int == (g as int) * ((r as int) / (g as int)),
                    k == ((b as int) / (g as int)) * ((a as int) / (b as int)) + (r as int) / (
                    g as int),
            ;
            lemma_mul_mod_zero(g as int, k);
        }
        g
    }
}

/// A multiple of a positive `g` leaves no remainder by `g`.
proof fn lemma_mul_mod_zero(g: int, k: int)
    requires
        g >= 1,
    ensures
        (g * k) % g == 0,
{
    lemma_fundamental_div_mod(g * k, g);
    assert((g * k) % g == 0) by (nonlinear_arith)
        requires
            g >= 1,
            g * k == g * ((g * k) / g) + (g * k) % g,
            0 <= (g * k) % g < g,
    ;
}

/// Reduces the 128-bit fraction `n / d` and narrows it back to a stored
/// scalar.  `None` only on magnitudes that stay beyond 64 bits even after
/// reduction; any fraction whose parts already fit is always accepted.
fn reduce128(n: i128, d: i128) -> (r: Option<Rat>)
    requires
        1 <= d,
        n != i128::MIN,
    ensures
        r matches Some(c) ==> c.wf() && q_eq(c@, Q { n: n as int, d: d as int }),
        (-spec_rat_limit() <= n as int <= spec_rat_limit() && d as int <= spec_rat_limit())
            ==> r is Some,
        n == 0 ==> r is Some,
    decreases 0int,
{
    let neg: bool = n < 0;
    let mag: u128 = if neg {
        (-n) as u128
    } else {
        n as u128
    };
    let du: u128 = d as u128;
    let g: u128 = gcd_u128(mag, du);
    let mag2: u128 = mag / g;
    let d2: u128 = du / g;
    proof {
        lemma_fundamental_div_mod(mag as int, g as int);
        lemma_fundamental_div_mod(du as int, g as int);
        lemma_div_pos_is_pos(mag as int, g as int);
        lemma_div_pos_is_pos(du as int, g as int);
        // d2 >= 1 because g divides du and du >= 1.
        assert(d2 as int >= 1) by (nonlinear_arith)
            requires
                du as int == (g as int) * (d2 as int),
                du as int >= 1,
                g as int >= 1,
                d2 as int >= 0,
        ;
        // Reduction never grows a magnitude.
        lemma_div_is_ordered_by_denominator(mag as int, 1, g as int);
        lemma_div_is_ordered_by_denominator(du as int, 1, g as int);
        if n == 0 {
            // gcd(0, du) is du itself, so the fraction reduces to 0 / 1.
            assert(mag2 as int == 0 && d2 as int == 1) by (nonlinear_arith)
                requires
                    mag as int == 0,
                    g as int == du as int,
                    du as int >= 1,
                    mag as int == (g as int) * (mag2 as int) + (mag as int) % (g as int),
                    du as int == (g as int) * (d2 as int) + (du as int) % (g as int),
                    (mag as int) % (g as int) == 0,
                    (du as int) % (g as int) == 0,
                    mag2 as int >= 0,
                    d2 as int >= 0,
            ;
        }
    }
    if mag2 <= 0x7fff_ffff_ffff_ffff && d2 <= 0x7fff_ffff_ffff_ffff {
        let m64: i64 = mag2 as i64;
        let num: i64 = if neg {
            -m64
        } else {
            m64
        };
        let den: i64 = d2 as i64;
        let c = Rat { num, den };
        proof {
            // Cross multiplication: (+-mag2) * d == n * d2.
            assert(c.num as int * (d as int) == (n as int) * (c.den as int))
                by (nonlinear_arith)
                requires
                    mag as int == (g as int) * (mag2 as int),
                    du as int == (g as int) * (d2 as int),
                    du as int == d as int,
                    c.den as int == d2 as int,
                    (neg ==> c.num as int == -(mag2 as int) && n as int == -(mag as int)),
                    (!neg ==> c.num as int == mag2 as int && n as int == mag as int),
            ;
        }
        Some(c)
    } else {
        None
    }
}

impl Rat {
    /// Exact sum; `None` only when the reduced result overflows 64 bits.
    pub fn add(&self, o: &Rat) -> (r: Option<Rat>)
        requires
            self.wf(),
            o.wf(),
        ensures
            r matches Some(c) ==> c.wf() && q_eq(c@, q_add(self@, o@)),
            q_fits(q_add(self@, o@)) ==> r is Some,
    {
        proof {
            lemma_component_product_bound(self.num as int, o.den as int);
            lemma_component_product_bound(o.num as int, self.den as int);
            lemma_component_product_bound(self.den as int, o.den as int);
        }
        let n: i128 = (self.num as i128) * (o.den as i128) + (o.num as i128) * (self.den as i128);
        let d: i128 = (self.den as i128) * (o.den as i128);
        proof {
            assert(1 <= (self.den as int) * (o.den as int)) by (nonlinear_arith)
                requires
                    1 <= self.den as int,
                    1 <= o.den as int,
            ;
        }
        reduce128(n, d)
    }

    /// Exact product; `None` only when the reduced result overflows 64 bits.
    pub fn mul(&self, o: &Rat) -> (r: Option<Rat>)
        requires
            self.wf(),
            o.wf(),
        ensures
            r matches Some(c) ==> c.wf() && q_eq(c@, q_mul(self@, o@)),
            q_fits(q_mul(self@, o@)) ==> r is Some,
    {
        proof {
            lemma_component_product_bound(self.num as int, o.num as int);
            lemma_component_product_bound(self.den as int, o.den as int);
        }
        let n: i128 = (self.num as i128) * (o.num as i128);
        let d: i128 = (self.den as i128) * (o.den as i128);
        proof {
            assert(1 <= (self.den as int) * (o.den as int)) by (nonlinear_arith)
                requires
                    1 <= self.den as int,
                    1 <= o.den as int,
            ;
        }
        reduce128(n, d)
    }

    /// Exact negation; never fails.
    pub fn neg(&self) -> (r: Rat)
        requires
            self.wf(),
        ensures
            r.wf(),
            r@ == q_neg(self@),
    {
        Rat { num: -self.num, den: self.den }
    }

    /// Exact difference; `None` only when the reduced result overflows.
    pub fn sub(&self, o: &Rat) -> (r: Option<Rat>)
        requires
            self.wf(),
            o.wf(),
        ensures
            r matches Some(c) ==> c.wf() && q_eq(c@, q_sub(self@, o@)),
            q_fits(q_sub(self@, o@)) ==> r is Some,
    {
        self.add(&o.neg())
    }

    /// Exact quotient; requires a nonzero divisor, `None` only on overflow.
    pub fn div(&self, o: &Rat) -> (r: Option<Rat>)
        requires
            self.wf(),
            o.wf(),
            o@.n != 0,
        ensures
            r matches Some(c) ==> c.wf() && q_eq(q_mul(c@, o@), self@),
            o@.n > 0 && q_fits(Q { n: self@.n * o@.d, d: self@.d * o@.n }) ==> r is Some,
            o@.n < 0 && q_fits(Q { n: -(self@.n * o@.d), d: -(self@.d * o@.n) }) ==> r is Some,
    {
        proof {
            lemma_component_product_bound(self.num as int, o.den as int);
            lemma_component_product_bound(self.den as int, o.num as int);
        }
        let n: i128 = (self.num as i128) * (o.den as i128);
        let d0: i128 = (self.den as i128) * (o.num as i128);
        proof {
            assert((self.den as int) * (o.num as int) != 0) by (nonlinear_arith)
                requires
                    1 <= self.den as int,
                    o.num as int != 0,
            ;
        }
        proof {
            // the sign of the cross denominator is the divisor's sign
            assert(((self.den as int) * (o.num as int) < 0) <==> ((o.num as int) < 0))
                by (nonlinear_arith)
                requires
                    self.den as int >= 1,
            ;
        }
        let (n2, d2): (i128, i128) = if d0 < 0 {
            (-n, -d0)
        } else {
            (n, d0)
        };
        let res = reduce128(n2, d2);
        proof {
            if res is Some {
                let c = res->Some_0;
                // q_eq(c, n2/d2) and n2/d2 == (self / o), so c * o == self.
                assert(q_eq(q_mul(c@, o@), self@)) by (nonlinear_arith)
                    requires
                        c@.n * (d2 as int) == (n2 as int) * c@.d,
                        (d0 < 0 ==> n2 as int == -(n as int) && d2 as int == -(d0 as int)),
                        (d0 >= 0 ==> n2 as int == n as int && d2 as int == d0 as int),
                        n as int == self@.n * o@.d,
                        d0 as int == self@.d * o@.n,
                        self@.d > 0,
                        o@.d > 0,
                        c@.d > 0,
                ;
            }
        }
        res
    }

    /// Exact order test.
    pub fn le(&self, o: &Rat) -> (r: bool)
        requires
            self.wf(),
            o.wf(),
        ensures
            r == q_le(self@, o@),
    {
        proof {
            lemma_component_product_bound(self.num as int, o.den as int);
            lemma_component_product_bound(o.num as int, self.den as int);
        }
        (self.num as i128) * (o.den as i128) <= (o.num as i128) * (self.den as i128)
    }

    /// Exact strict order test.
    pub fn lt(&self, o: &Rat) -> (r: bool)
        requires
            self.wf(),
            o.wf(),
        ensures
            r == q_lt(self@, o@),
    {
        proof {
            lemma_component_product_bound(self.num as int, o.den as int);
            lemma_component_product_bound(o.num as int, self.den as int);
        }
        (self.num as i128) * (o.den as i128) < (o.num as i128) * (self.den as i128)
    }

    /// Exact value equality (representations may differ).
    pub fn eq_val(&self, o: &Rat) -> (r: bool)
        requires
            self.wf(),
            o.wf(),
        ensures
            r == q_eq(self@, o@),
    {
        proof {
            lemma_component_product_bound(self.num as int, o.den as int);
            lemma_component_product_bound(o.num as int, self.den as int);
        }
        (self.num as i128) * (o.den as i128) == (o.num as i128) * (self.den as i128)
    }
}

} // verus!
