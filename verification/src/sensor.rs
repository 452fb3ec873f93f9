//! Camera distortion models on exact rationals.
//!
//! Only the affine model lives here: it is plain rational arithmetic,
//! so its mapping and its inverse carry exact contracts.  The fisheye
//! model needs transcendental floating point and stays outside the
//! verified library.

use crate::linalg::rvec_wf;
use crate::rational::{q_add, q_eq, q_mul, q_sub, q_wf, Q, Rat};
use vstd::prelude::*;

verus! {

/// Affine "distortion": not a distortion in the traditional sense but a
/// simple affine transformation of the projected point, with parameters
/// `[f_u, f_v, u_0, v_0]` (focal lengths and principal point).
pub struct AffineDistortionImpl;

impl AffineDistortionImpl {
    /// Valid parameters have nonzero focal lengths.
    pub fn are_params_valid(params: &Vec<Rat>) -> (r: bool)
        requires
            rvec_wf(params@),
            params@.len() == 4,
        ensures
            r == (params@[0]@.n != 0 && params@[1]@.n != 0),
    {
        let zero = Rat::zero();
        let f0_ok = !params[0].eq_val(&zero);
        let f1_ok = !params[1].eq_val(&zero);
        proof {
            assert(q_eq(params@[0]@, crate::rational::q_zero()) <==> params@[0]@.n * 1 == 0
                * params@[0]@.d);
        }
        f0_ok && f1_ok
    }

    /// Maps a point of the projective plane through the affine model:
    /// `(p0 * f_u + u_0, p1 * f_v + v_0)`, exactly.  `None` only on
    /// 64-bit overflow.
    pub fn distort(params: &Vec<Rat>, proj_point_in_camera_z1_plane: &Vec<Rat>) -> (r: Option<
        Vec<Rat>,
    >)
        requires
            rvec_wf(params@),
            params@.len() == 4,
            rvec_wf(proj_point_in_camera_z1_plane@),
            proj_point_in_camera_z1_plane@.len() == 2,
        ensures
            r matches Some(v) ==> {
                &&& v@.len() == 2
                &&& rvec_wf(v@)
                &&& q_eq(
                    v@[0]@,
                    q_add(
                        q_mul(proj_point_in_camera_z1_plane@[0]@, params@[0]@),
                        params@[2]@,
                    ),
                )
                &&& q_eq(
                    v@[1]@,
                    q_add(
                        q_mul(proj_point_in_camera_z1_plane@[1]@, params@[1]@),
                        params@[3]@,
                    ),
                )
            },
    {
        let p = proj_point_in_camera_z1_plane;
        proof {
            assert(p@[0].wf());
            assert(p@[1].wf());
            assert(params@[0].wf());
            assert(params@[1].wf());
            assert(params@[2].wf());
            assert(params@[3].wf());
        }
        let s0 = match p[0].mul(&params[0]) {
            Some(s) => s,
            None => {
                return None;
            },
        };
        let s1 = match p[1].mul(&params[1]) {
            Some(s) => s,
            None => {
                return None;
            },
        };
        let u = match s0.add(&params[2]) {
            Some(u) => u,
            None => {
                return None;
            },
        };
        let v = match s1.add(&params[3]) {
            Some(v) => v,
            None => {
                return None;
            },
        };
        proof {
            crate::linalg::lemma_q_mul_wf(p@[0]@, params@[0]@);
            crate::linalg::lemma_q_mul_wf(p@[1]@, params@[1]@);
            crate::linalg::lemma_q_add_wf(q_mul(p@[0]@, params@[0]@), params@[2]@);
            crate::linalg::lemma_q_add_wf(q_mul(p@[1]@, params@[1]@), params@[3]@);
            crate::rational::lemma_q_add_congr(
                s0@,
                params@[2]@,
                q_mul(p@[0]@, params@[0]@),
                params@[2]@,
            );
            crate::linalg::lemma_q_add_wf(s0@, params@[2]@);
            crate::rational::lemma_q_eq_trans(
                u@,
                q_add(s0@, params@[2]@),
                q_add(q_mul(p@[0]@, params@[0]@), params@[2]@),
            );
            crate::rational::lemma_q_add_congr(
                s1@,
                params@[3]@,
                q_mul(p@[1]@, params@[1]@),
                params@[3]@,
            );
            crate::linalg::lemma_q_add_wf(s1@, params@[3]@);
            crate::rational::lemma_q_eq_trans(
                v@,
                q_add(s1@, params@[3]@),
                q_add(q_mul(p@[1]@, params@[1]@), params@[3]@),
            );
        }
        let mut out: Vec<Rat> = Vec::new();
        out.push(u);
        out.push(v);
        Some(out)
    }

    /// Inverts the affine model: the result `r` satisfies
    /// `r_k * f_k == d_k - c_k` exactly, so it is the unique preimage of
    /// the distorted point.  `None` only on 64-bit overflow.
    pub fn undistort(params: &Vec<Rat>, distorted_point: &Vec<Rat>) -> (r: Option<Vec<Rat>>)
        requires
            rvec_wf(params@),
            params@.len() == 4,
            params@[0]@.n != 0,
            params@[1]@.n != 0,
            rvec_wf(distorted_point@),
            distorted_point@.len() == 2,
        ensures
            r matches Some(v) ==> {
                &&& v@.len() == 2
                &&& rvec_wf(v@)
                &&& q_eq(
                    q_mul(v@[0]@, params@[0]@),
                    q_sub(distorted_point@[0]@, params@[2]@),
                )
                &&& q_eq(
                    q_mul(v@[1]@, params@[1]@),
                    q_sub(distorted_point@[1]@, params@[3]@),
                )
            },
    {
        let d = distorted_point;
        proof {
            assert(d@[0].wf());
            assert(d@[1].wf());
            assert(params@[0].wf());
            assert(params@[1].wf());
            assert(params@[2].wf());
            assert(params@[3].wf());
        }
        let n0 = match d[0].sub(&params[2]) {
            Some(n) => n,
            None => {
                return None;
            },
        };
        let n1 = match d[1].sub(&params[3]) {
            Some(n) => n,
            None => {
                return None;
            },
        };
        let u = match n0.div(&params[0]) {
            Some(u) => u,
            None => {
                return None;
            },
        };
        let v = match n1.div(&params[1]) {
            Some(v) => v,
            None => {
                return None;
            },
        };
        proof {
            crate::linalg::lemma_q_sub_wf(d@[0]@, params@[2]@);
            crate::linalg::lemma_q_sub_wf(d@[1]@, params@[3]@);
            crate::linalg::lemma_q_mul_wf(u@, params@[0]@);
            crate::linalg::lemma_q_mul_wf(v@, params@[1]@);
            crate::rational::lemma_q_eq_trans(
                q_mul(u@, params@[0]@),
                n0@,
                q_sub(d@[0]@, params@[2]@),
            );
            crate::rational::lemma_q_eq_trans(
                q_mul(v@, params@[1]@),
                n1@,
                q_sub(d@[1]@, params@[3]@),
            );
        }
        let mut out: Vec<Rat> = Vec::new();
        out.push(u);
        out.push(v);
        Some(out)
    }
}

/// The affine model is invertible: a value `y == x * f + c` followed by
/// a value `z` with `z * f == y - c` recovers `x` exactly, for any
/// nonzero focal length `f`.
pub proof fn lemma_affine_round_trip(x: Q, f: Q, c: Q, y: Q, z: Q)
    requires
        q_wf(x),
        q_wf(f),
        q_wf(c),
        q_wf(y),
        q_wf(z),
        f.n != 0,
        q_eq(y, q_add(q_mul(x, f), c)),
        q_eq(q_mul(z, f), q_sub(y, c)),
    ensures
        q_eq(z, x),
{
    // z * f == y - c == (x * f + c) - c == x * f, and f is nonzero
    crate::linalg::lemma_q_mul_wf(x, f);
    crate::linalg::lemma_q_add_wf(q_mul(x, f), c);
    crate::linalg::lemma_q_sub_wf(y, c);
    crate::linalg::lemma_q_mul_wf(z, f);
    crate::rational::lemma_q_sub_congr(y, c, q_add(q_mul(x, f), c), c);
    crate::linalg::lemma_q_sub_wf(q_add(q_mul(x, f), c), c);
    crate::rational::lemma_q_eq_trans(
        q_mul(z, f),
        q_sub(y, c),
        q_sub(q_add(q_mul(x, f), c), c),
    );
    assert(q_eq(q_sub(q_add(q_mul(x, f), c), c), q_mul(x, f))) by (nonlinear_arith)
        requires
            q_wf(x),
            q_wf(f),
            q_wf(c),
    ;
    crate::rational::lemma_q_eq_trans(
        q_mul(z, f),
        q_sub(q_add(q_mul(x, f), c), c),
        q_mul(x, f),
    );
    assert(q_eq(z, x)) by (nonlinear_arith)
        requires
            q_wf(x),
            q_wf(f),
            q_wf(z),
            f.n != 0,
            q_eq(q_mul(z, f), q_mul(x, f)),
    ;
}

} // verus!
