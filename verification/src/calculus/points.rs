//! Example points used by sample problems and tests.

use crate::linalg::rvec_wf;
use crate::rational::{q_eq, Q, Rat};
use vstd::prelude::*;

verus! {

/// Builds the exact rational `n / d`; a helper for literal values.
fn lit(n: i64, d: i64) -> (r: Rat)
    requires
        1 <= d,
        n != i64::MIN,
        d != i64::MIN,
    ensures
        r.wf(),
        q_eq(r@, Q { n: n as int, d: d as int }),
{
    match Rat::new(n, d) {
        Some(r) => r,
        None => {
            proof {
                assert(false);
            }
            Rat::zero()
        },
    }
}

/// Four sample points of the requested dimension: the leading
/// components are taken from four fixed four-dimensional points and
/// any further components are zero.
pub fn example_points<const POINT: usize>() -> (r: Vec<Vec<Rat>>)
    ensures
        r@.len() == 4,
        forall|p: int| 0 <= p < 4 ==> (#[trigger] r@[p])@.len() == POINT,
        forall|p: int| 0 <= p < 4 ==> rvec_wf((#[trigger] r@[p])@),
{
    let mut points4: Vec<Vec<Rat>> = Vec::new();
    let mut p0: Vec<Rat> = Vec::new();
    p0.push(lit(1, 10));
    p0.push(Rat::zero());
    p0.push(Rat::zero());
    p0.push(Rat::zero());
    points4.push(p0);
    let mut p1: Vec<Rat> = Vec::new();
    p1.push(Rat::one());
    p1.push(Rat::zero());
    p1.push(Rat::one());
    p1.push(lit(1, 2));
    points4.push(p1);
    let mut p2: Vec<Rat> = Vec::new();
    p2.push(lit(7, 10));
    p2.push(lit(5, 1));
    p2.push(lit(1, 10));
    p2.push(lit(-5, 1));
    points4.push(p2);
    let mut p3: Vec<Rat> = Vec::new();
    p3.push(lit(2, 1));
    p3.push(lit(-3, 1));
    p3.push(Rat::one());
    p3.push(lit(1, 2));
    points4.push(p3);
    let mut out: Vec<Vec<Rat>> = Vec::new();
    let mut p: usize = 0;
    while p < 4
        invariant
            p <= 4,
            points4@.len() == 4,
            forall|k: int| 0 <= k < 4 ==> (#[trigger] points4@[k])@.len() == 4,
            forall|k: int| 0 <= k < 4 ==> rvec_wf((#[trigger] points4@[k])@),
            out@.len() == p,
            forall|k: int| 0 <= k < p ==> (#[trigger] out@[k])@.len() == POINT,
            forall|k: int| 0 <= k < p ==> rvec_wf((#[trigger] out@[k])@),
        decreases 4 - p,
    {
        let src = &points4[p];
        let mut v: Vec<Rat> = Vec::new();
        let mut i: usize = 0;
        while i < POINT
            invariant
                i <= POINT,
                src@.len() == 4,
                rvec_wf(src@),
                v@.len() == i,
                rvec_wf(v@),
            decreases POINT - i,
        {
            if i < 4 {
                proof {
                    assert(src@[i as int].wf());
                }
                v.push(src[i]);
            } else {
                v.push(Rat::zero());
            }
            i += 1;
        }
        out.push(v);
        p += 1;
    }
    out
}

} // verus!
