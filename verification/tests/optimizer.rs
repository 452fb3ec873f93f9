use sophus::calculus::maps::MatrixValuedMapFromVector;
use sophus::calculus::points::example_points;
use sophus::dual::DualRat;
use sophus::linalg::MatRat;
use sophus::opt::cost_fn::{
    CostFn, CostSignature, PoseGraphCostFn, PriorCostFn, ResidualFn, TermSignature,
};
use sophus::opt::ldlt::{solve_damped, SolveError};
use sophus::opt::nlls::{optimize, OptError, OptOutcome, OptParams, OptStatus};
use sophus::opt::robust_kernel::RobustKernel;
use sophus::opt::variables::{VarFamily, VarKind, VarPool, VarPoolBuilder};
use sophus::rational::Rat;
use sophus::sensor::AffineDistortionImpl;

fn q(n: i64, d: i64) -> Rat {
    Rat::new(n, d).unwrap()
}

fn qi(n: i64) -> Rat {
    Rat::from_int(n)
}

fn rat_is(a: &Rat, n: i64, d: i64) -> bool {
    a.eq_val(&q(n, d))
}

/// |a - b| < tol
fn rat_close(a: &Rat, b: &Rat, tol: &Rat) -> bool {
    let diff = a.sub(b).unwrap();
    let neg_tol = tol.neg();
    diff.lt(tol) && neg_tol.lt(&diff)
}

fn free_family(dof: usize, values: Vec<Vec<Rat>>) -> VarFamily {
    VarFamily::new(VarKind::Free, dof, values).unwrap()
}

fn pool_of(entries: Vec<(&str, VarFamily)>) -> VarPool {
    let mut builder = VarPoolBuilder::new();
    for (name, fam) in entries {
        builder = builder.add_family(name.to_string(), fam);
    }
    builder.build().unwrap()
}

fn prior_cost(family: &str, terms: Vec<TermSignature>) -> CostFn {
    let signature =
        CostSignature { family_names: vec![family.to_string()], terms };
    CostFn::new(signature, ResidualFn::Prior(PriorCostFn {})).unwrap()
}

fn pose_cost(fam_a: &str, fam_b: &str, terms: Vec<TermSignature>) -> CostFn {
    let signature = CostSignature {
        family_names: vec![fam_a.to_string(), fam_b.to_string()],
        terms,
    };
    CostFn::new(signature, ResidualFn::PoseGraph(PoseGraphCostFn {})).unwrap()
}

fn plain_term(entity_indices: Vec<usize>, constant: Vec<Rat>) -> TermSignature {
    TermSignature { entity_indices, constant, robust_kernel: None }
}

#[test]
fn rational_arithmetic_is_exact() {
    let a = q(1, 3);
    let b = q(1, 6);
    assert!(rat_is(&a.add(&b).unwrap(), 1, 2));
    assert!(rat_is(&a.sub(&b).unwrap(), 1, 6));
    assert!(rat_is(&a.mul(&b).unwrap(), 1, 18));
    assert!(rat_is(&a.div(&b).unwrap(), 2, 1));
    assert!(q(2, 4).eq_val(&q(1, 2)));
    assert!(q(-3, -6).eq_val(&q(1, 2)));
    assert!(q(1, -2).eq_val(&q(-1, 2)));
    assert!(a.lt(&q(1, 2)));
    assert!(a.le(&a));
}

#[test]
fn rational_rejects_degenerate_inputs() {
    assert!(Rat::new(1, 0).is_none());
    assert!(Rat::new(i64::MIN, 1).is_none());
    assert!(Rat::new(1, i64::MIN).is_none());
    // overflow is reported, never wrapped
    assert!(qi(i64::MAX).add(&qi(1)).is_none());
    assert!(qi(i64::MAX).mul(&qi(i64::MAX)).is_none());
}

#[test]
fn dual_product_rule() {
    let x = DualRat::variable(qi(3), 1, 0);
    let sq = x.mul(&x, 1).unwrap();
    assert!(rat_is(&sq.val, 9, 1));
    assert!(rat_is(&sq.grad[0], 6, 1));

    // derivative of (x * x) + c is still 2x
    let c = DualRat::constant(q(5, 7), 1);
    let sum = sq.add(&c, 1).unwrap();
    assert!(rat_is(&sum.grad[0], 6, 1));
}

#[test]
fn finite_differences_match_autodiff_exactly() {
    // f(v) = [[ v0 * v0 ]]: the symmetric quotient of a quadratic is
    // exact for any step, so both derivatives are exactly 2 * v0.
    let a = vec![qi(3)];
    let eps = q(1, 100);
    let findiff = MatrixValuedMapFromVector::sym_diff_quotient(
        |v: &Vec<Rat>| -> Option<MatRat> {
            let mut m = MatRat::zeros(1, 1);
            let sq = v[0].mul(&v[0])?;
            m.set(0, 0, sq);
            Some(m)
        },
        &a,
        &eps,
        1,
        1,
    )
    .unwrap();
    let autodiff = MatrixValuedMapFromVector::fw_autodiff(
        |v: &Vec<DualRat>| -> Option<Vec<Vec<DualRat>>> {
            let sq = v[0].mul(&v[0], v.len())?;
            Some(vec![vec![sq]])
        },
        &a,
        1,
        1,
    )
    .unwrap();
    assert_eq!(findiff.len(), 1);
    assert_eq!(autodiff.len(), 1);
    let f = findiff[0].get(0, 0);
    let d = autodiff[0].get(0, 0);
    assert!(rat_is(&f, 6, 1));
    assert!(rat_is(&d, 6, 1));
    assert!(f.eq_val(&d));
}

#[test]
fn example_points_have_requested_dimension() {
    let pts = example_points::<3>();
    assert_eq!(pts.len(), 4);
    for p in &pts {
        assert_eq!(p.len(), 3);
    }
    assert!(rat_is(&pts[0][0], 1, 10));
    assert!(rat_is(&pts[2][1], 5, 1));

    let pts6 = example_points::<6>();
    assert!(rat_is(&pts6[1][3], 1, 2));
    assert!(rat_is(&pts6[1][5], 0, 1));
}

#[test]
fn solver_solution_satisfies_system_exactly() {
    let mut h = MatRat::zeros(2, 2);
    h.set(0, 0, qi(2));
    h.set(1, 1, qi(4));
    let b = vec![qi(2), qi(2)];
    let x = solve_damped(&h, &Rat::zero(), &b).unwrap();
    assert!(rat_is(&x[0], 1, 1));
    assert!(rat_is(&x[1], 1, 2));

    // damping scales the diagonal: (1 + 1) * h00
    let mut h1 = MatRat::zeros(1, 1);
    h1.set(0, 0, qi(1));
    let x = solve_damped(&h1, &qi(1), &vec![qi(1)]).unwrap();
    assert!(rat_is(&x[0], 1, 2));
}

#[test]
fn solver_reports_singular_systems() {
    // the unanchored two-pose graph Laplacian is singular
    let mut h = MatRat::zeros(2, 2);
    h.set(0, 0, qi(1));
    h.set(0, 1, qi(-1));
    h.set(1, 0, qi(-1));
    h.set(1, 1, qi(1));
    let r = solve_damped(&h, &Rat::zero(), &vec![qi(1), qi(0)]);
    assert!(matches!(r, Err(SolveError::SingularSystem)));
}

fn se2_prior_problem() -> (VarPool, Vec<CostFn>) {
    // true value: the tangent vector [0.2, 0.0, 1.0]; start at identity
    let truth = vec![q(1, 5), qi(0), qi(1)];
    let start = vec![qi(0), qi(0), qi(0)];
    let pool = pool_of(vec![("poses", free_family(3, vec![start]))]);
    let cost = prior_cost("poses", vec![plain_term(vec![0], truth)]);
    (pool, vec![cost])
}

#[test]
fn single_iteration_exact_convergence() {
    // one free family, one linear-in-the-tangent prior term, one
    // iteration with tiny damping: the estimate matches the true value
    // within 1e-6
    let (pool, costs) = se2_prior_problem();
    let out = optimize(
        pool,
        costs,
        OptParams { num_iter: 1, initial_lm_nu: q(1, 1000000) },
    )
    .unwrap();
    let members = out.pool.get_members("poses".to_string()).unwrap();
    let tol = q(1, 1000000);
    assert!(rat_close(&members[0][0], &q(1, 5), &tol));
    assert!(rat_close(&members[0][1], &qi(0), &tol));
    assert!(rat_close(&members[0][2], &qi(1), &tol));
}

#[test]
fn single_iteration_exact_convergence_3d() {
    // the six-dimensional analog: true value is the tangent vector
    // [0.2, 0, 1, 0.2, 0, 1], started from the identity
    let truth = vec![q(1, 5), qi(0), qi(1), q(1, 5), qi(0), qi(1)];
    let start = vec![qi(0), qi(0), qi(0), qi(0), qi(0), qi(0)];
    let pool = pool_of(vec![("poses", free_family(6, vec![start]))]);
    let cost = prior_cost("poses", vec![plain_term(vec![0], truth.clone())]);
    let out = optimize(
        pool,
        vec![cost],
        OptParams { num_iter: 1, initial_lm_nu: q(1, 1000000) },
    )
    .unwrap();
    let members = out.pool.get_members("poses".to_string()).unwrap();
    let tol = q(1, 1000000);
    for k in 0..6 {
        assert!(rat_close(&members[0][k], &truth[k], &tol));
    }
}

#[test]
fn undamped_prior_step_is_exact() {
    // with zero damping a single Gauss-Newton step lands exactly on
    // the prior mean
    let (pool, costs) = se2_prior_problem();
    let out = optimize(
        pool,
        costs,
        OptParams { num_iter: 1, initial_lm_nu: Rat::zero() },
    )
    .unwrap();
    let members = out.pool.get_members("poses".to_string()).unwrap();
    assert!(members[0][0].eq_val(&q(1, 5)));
    assert!(members[0][1].eq_val(&qi(0)));
    assert!(members[0][2].eq_val(&qi(1)));
}

#[test]
fn zero_iterations_return_pool_unchanged() {
    let start = vec![q(3, 7), q(-2, 5)];
    let pool = pool_of(vec![("poses", free_family(2, vec![start.clone()]))]);
    let cost = prior_cost("poses", vec![plain_term(vec![0], vec![qi(1), qi(2)])]);
    let out: OptOutcome = optimize(
        pool,
        vec![cost],
        OptParams { num_iter: 0, initial_lm_nu: q(1, 1000000) },
    )
    .unwrap();
    assert_eq!(out.status, OptStatus::MaxIterReached);
    let members = out.pool.get_members("poses".to_string()).unwrap();
    // bit-identical, not merely equal in value
    for k in 0..2 {
        assert_eq!(members[0][k].numerator(), start[k].numerator());
        assert_eq!(members[0][k].denominator(), start[k].denominator());
    }
}

#[test]
fn repeated_runs_are_bit_identical() {
    let run = || -> Vec<Vec<Rat>> {
        let (pool, costs) = se2_prior_problem();
        let out = optimize(
            pool,
            costs,
            OptParams { num_iter: 3, initial_lm_nu: q(1, 1000000) },
        )
        .unwrap();
        out.pool.get_members("poses".to_string()).unwrap()
    };
    let first = run();
    let second = run();
    for k in 0..3 {
        assert_eq!(first[0][k].numerator(), second[0][k].numerator());
        assert_eq!(first[0][k].denominator(), second[0][k].denominator());
    }
}

#[test]
fn anchored_pose_cycle_recovers_ground_truth() {
    // three poses on a cycle with consistent relative constraints and a
    // fixed gauge anchor: the free poses match ground truth exactly
    // after one undamped step
    let anchor = VarFamily::new(VarKind::Fixed, 2, vec![vec![qi(0), qi(0)]]).unwrap();
    let free = free_family(2, vec![vec![qi(2), qi(2)], vec![qi(-1), qi(3)]]);
    let pool = pool_of(vec![("anchor", anchor), ("poses", free)]);
    let costs = vec![
        // p1 - p0 == (1, 0)
        pose_cost("anchor", "poses", vec![plain_term(vec![0, 0], vec![qi(1), qi(0)])]),
        // p2 - p1 == (-1, 1)
        pose_cost("poses", "poses", vec![plain_term(vec![0, 1], vec![qi(-1), qi(1)])]),
        // p0 - p2 == (0, -1)
        pose_cost("poses", "anchor", vec![plain_term(vec![1, 0], vec![qi(0), qi(-1)])]),
    ];
    let out = optimize(
        pool,
        costs,
        OptParams { num_iter: 4, initial_lm_nu: Rat::zero() },
    )
    .unwrap();
    let members = out.pool.get_members("poses".to_string()).unwrap();
    assert!(members[0][0].eq_val(&qi(1)));
    assert!(members[0][1].eq_val(&qi(0)));
    assert!(members[1][0].eq_val(&qi(0)));
    assert!(members[1][1].eq_val(&qi(1)));
    // the anchor was never touched
    let anchor_members = out.pool.get_members("anchor".to_string()).unwrap();
    assert!(anchor_members[0][0].eq_val(&qi(0)));
    assert!(anchor_members[0][1].eq_val(&qi(0)));
}

#[test]
fn unanchored_pose_cycle_keeps_gauge_freedom() {
    // without an anchor a consistent configuration shifted by a global
    // translation has zero residual everywhere: the driver converges
    // and returns the shifted solution untouched
    let shift = (qi(5), qi(7));
    let poses = free_family(
        2,
        vec![
            vec![shift.0.add(&qi(0)).unwrap(), shift.1.add(&qi(0)).unwrap()],
            vec![shift.0.add(&qi(1)).unwrap(), shift.1.add(&qi(0)).unwrap()],
            vec![shift.0.add(&qi(0)).unwrap(), shift.1.add(&qi(1)).unwrap()],
        ],
    );
    let pool = pool_of(vec![("poses", poses)]);
    let costs = vec![pose_cost(
        "poses",
        "poses",
        vec![
            plain_term(vec![0, 1], vec![qi(1), qi(0)]),
            plain_term(vec![1, 2], vec![qi(-1), qi(1)]),
            plain_term(vec![2, 0], vec![qi(0), qi(-1)]),
        ],
    )];
    let out = optimize(
        pool,
        costs,
        OptParams { num_iter: 3, initial_lm_nu: Rat::zero() },
    )
    .unwrap();
    assert_eq!(out.status, OptStatus::Converged);
    let members = out.pool.get_members("poses".to_string()).unwrap();
    assert!(members[0][0].eq_val(&qi(5)));
    assert!(members[1][0].eq_val(&qi(6)));
    assert!(members[2][1].eq_val(&qi(8)));
}

#[test]
fn robust_kernel_weights() {
    let kernel = RobustKernel::huber(qi(1)).unwrap();
    // inlier: weight one
    let w = kernel.weight(&q(1, 4)).unwrap();
    assert!(rat_is(&w, 1, 1));
    // outlier with squared norm 4: weight t^2 / s == 1/4, and the
    // weighted residual 1/4 * 2 stays below the threshold
    let w = kernel.weight(&qi(4)).unwrap();
    assert!(rat_is(&w, 1, 4));
    let weighted = w.mul(&qi(2)).unwrap();
    assert!(weighted.lt(&qi(1)));
    // a far larger outlier contributes even less
    let w = kernel.weight(&qi(1000000)).unwrap();
    assert!(rat_is(&w, 1, 1000000));
    let weighted = w.mul(&qi(1000)).unwrap();
    assert!(rat_is(&weighted, 1, 1000));

    // a non-positive threshold is rejected at construction
    assert!(RobustKernel::huber(qi(0)).is_none());
    assert!(RobustKernel::huber(qi(-1)).is_none());
}

#[test]
fn robust_kernel_bounds_outlier_influence() {
    // two priors on one scalar variable: an inlier at zero and a far
    // outlier.  Unweighted, the outlier drags the estimate halfway;
    // with a Huber-style kernel its influence is bounded and the
    // estimate stays at the inlier.
    let kernel = RobustKernel::huber(qi(1)).unwrap();
    let make_pool = || pool_of(vec![("x", free_family(1, vec![vec![qi(0)]]))]);
    let outlier_term = |kernel: Option<RobustKernel>| TermSignature {
        entity_indices: vec![0],
        constant: vec![qi(1000)],
        robust_kernel: kernel,
    };

    let unweighted = optimize(
        make_pool(),
        vec![prior_cost("x", vec![plain_term(vec![0], vec![qi(0)]), outlier_term(None)])],
        OptParams { num_iter: 4, initial_lm_nu: Rat::zero() },
    )
    .unwrap();
    let members = unweighted.pool.get_members("x".to_string()).unwrap();
    assert!(members[0][0].eq_val(&qi(500)));

    let robust = optimize(
        make_pool(),
        vec![prior_cost(
            "x",
            vec![plain_term(vec![0], vec![qi(0)]), outlier_term(Some(kernel))],
        )],
        OptParams { num_iter: 4, initial_lm_nu: Rat::zero() },
    )
    .unwrap();
    let members = robust.pool.get_members("x".to_string()).unwrap();
    // bounded influence: the estimate stays within the kernel threshold
    // of the inlier instead of moving hundreds of units
    assert!(members[0][0].lt(&qi(1)));
    assert!(qi(-1).lt(&members[0][0]));
}

#[test]
fn invalid_problems_are_rejected() {
    // family reference that does not resolve
    let pool = pool_of(vec![("poses", free_family(2, vec![vec![qi(0), qi(0)]]))]);
    let cost = prior_cost("unknown", vec![plain_term(vec![0], vec![qi(0), qi(0)])]);
    let r = optimize(
        pool,
        vec![cost],
        OptParams { num_iter: 1, initial_lm_nu: Rat::zero() },
    );
    assert_eq!(r.err(), Some(OptError::InvalidParameters));

    // entity index out of range
    let pool = pool_of(vec![("poses", free_family(2, vec![vec![qi(0), qi(0)]]))]);
    let cost = prior_cost("poses", vec![plain_term(vec![3], vec![qi(0), qi(0)])]);
    let r = optimize(
        pool,
        vec![cost],
        OptParams { num_iter: 1, initial_lm_nu: Rat::zero() },
    );
    assert_eq!(r.err(), Some(OptError::InvalidParameters));

    // negative damping
    let pool = pool_of(vec![("poses", free_family(2, vec![vec![qi(0), qi(0)]]))]);
    let cost = prior_cost("poses", vec![plain_term(vec![0], vec![qi(0), qi(0)])]);
    let r = optimize(
        pool,
        vec![cost],
        OptParams { num_iter: 1, initial_lm_nu: qi(-1) },
    );
    assert_eq!(r.err(), Some(OptError::InvalidParameters));
}

#[test]
fn dimension_mismatches_are_fatal() {
    // a prior constant whose length disagrees with the family's
    // degrees of freedom
    let pool = pool_of(vec![("poses", free_family(3, vec![vec![qi(0), qi(0), qi(0)]]))]);
    let cost = prior_cost("poses", vec![plain_term(vec![0], vec![qi(0), qi(0)])]);
    let r = optimize(
        pool,
        vec![cost],
        OptParams { num_iter: 1, initial_lm_nu: Rat::zero() },
    );
    assert_eq!(r.err(), Some(OptError::DimensionMismatch));

    // a relative constraint across families of different dimension
    let pool = pool_of(vec![
        ("a", free_family(2, vec![vec![qi(0), qi(0)]])),
        ("b", free_family(3, vec![vec![qi(0), qi(0), qi(0)]])),
    ]);
    let cost = pose_cost("a", "b", vec![plain_term(vec![0, 0], vec![qi(0), qi(0)])]);
    let r = optimize(
        pool,
        vec![cost],
        OptParams { num_iter: 1, initial_lm_nu: Rat::zero() },
    );
    assert_eq!(r.err(), Some(OptError::DimensionMismatch));
}

#[test]
fn malformed_constructions_are_rejected() {
    // a family whose member has the wrong number of parameters
    assert!(VarFamily::new(VarKind::Free, 2, vec![vec![qi(0)]]).is_none());
    assert!(VarFamily::new(VarKind::Free, 0, vec![]).is_none());

    // a relative term that constrains a variable against itself
    let signature = CostSignature {
        family_names: vec!["poses".to_string(), "poses".to_string()],
        terms: vec![plain_term(vec![0, 0], vec![qi(0), qi(0)])],
    };
    assert!(CostFn::new(signature, ResidualFn::PoseGraph(PoseGraphCostFn {})).is_none());

    // an argument list that does not fit the residual function
    let signature = CostSignature {
        family_names: vec!["poses".to_string()],
        terms: vec![plain_term(vec![0, 1], vec![qi(0)])],
    };
    assert!(CostFn::new(signature, ResidualFn::Prior(PriorCostFn {})).is_none());
}

#[test]
fn residual_evaluation_is_exact() {
    let x = vec![q(1, 2), qi(3)];
    let mean = vec![qi(1), qi(1)];
    let (res, jac) = PriorCostFn {}.eval(&x, &mean).unwrap();
    assert!(rat_is(&res[0], -1, 2));
    assert!(rat_is(&res[1], 2, 1));
    assert!(rat_is(&jac.get(0, 0), 1, 1));
    assert!(rat_is(&jac.get(0, 1), 0, 1));
    assert!(rat_is(&jac.get(1, 1), 1, 1));

    let xa = vec![qi(1)];
    let xb = vec![qi(4)];
    let offset = vec![qi(2)];
    let (res, ja, jb) = PoseGraphCostFn {}.eval(&xa, &xb, &offset).unwrap();
    assert!(rat_is(&res[0], 1, 1));
    assert!(rat_is(&ja.get(0, 0), -1, 1));
    assert!(rat_is(&jb.get(0, 0), 1, 1));
}

#[test]
fn test_batched_matrix_valued_map_from_vector() {
    //      [[ i ]]
    //      [[   ]]
    //      [[ j ]]      [[                      ]]
    //      [[   ]]      [[   0   -k    j    x   ]]
    //      [[ k ]]      [[                      ]]
    //  hat [[   ]]   =  [[   k    0   -i    y   ]]
    //      [[ x ]]      [[                      ]]
    //      [[   ]]      [[  -j    i    0    z   ]]
    //      [[ y ]]      [[                      ]]
    //      [[   ]]
    //      [[ z ]]
    let a = vec![q(1, 10), q(2, 10), q(4, 10), q(7, 10), q(8, 10), q(9, 10)];

    let finite_diff = MatrixValuedMapFromVector::sym_diff_quotient(
        |v: &Vec<Rat>| -> Option<MatRat> {
            let mut m = MatRat::zeros(3, 4);
            m.set(0, 1, v[2].neg());
            m.set(0, 2, v[1]);
            m.set(0, 3, v[3]);
            m.set(1, 0, v[2]);
            m.set(1, 2, v[0].neg());
            m.set(1, 3, v[4]);
            m.set(2, 0, v[1].neg());
            m.set(2, 1, v[0]);
            m.set(2, 3, v[5]);
            Some(m)
        },
        &a,
        &q(1, 1000000),
        3,
        4,
    )
    .unwrap();

    let auto_grad = MatrixValuedMapFromVector::fw_autodiff(
        |v: &Vec<DualRat>| -> Option<Vec<Vec<DualRat>>> {
            let dim = v.len();
            let zero = DualRat::constant(Rat::zero(), dim);
            let row0 = vec![
                DualRat::constant(Rat::zero(), dim),
                v[2].neg(dim),
                DualRat { val: v[1].val, grad: v[1].grad.clone() },
                DualRat { val: v[3].val, grad: v[3].grad.clone() },
            ];
            let row1 = vec![
                DualRat { val: v[2].val, grad: v[2].grad.clone() },
                DualRat::constant(Rat::zero(), dim),
                v[0].neg(dim),
                DualRat { val: v[4].val, grad: v[4].grad.clone() },
            ];
            let row2 = vec![
                v[1].neg(dim),
                DualRat { val: v[0].val, grad: v[0].grad.clone() },
                zero,
                DualRat { val: v[5].val, grad: v[5].grad.clone() },
            ];
            Some(vec![row0, row1, row2])
        },
        &a,
        3,
        4,
    )
    .unwrap();

    // the map is linear, so in exact arithmetic the two derivatives
    // agree entry for entry, not merely within a tolerance
    assert_eq!(finite_diff.len(), 6);
    assert_eq!(auto_grad.len(), 6);
    for k in 0..6 {
        for r in 0..3 {
            for c in 0..4 {
                assert!(finite_diff[k].get(r, c).eq_val(&auto_grad[k].get(r, c)));
            }
        }
    }
    // one spot value: the derivative of entry (2, 1) with respect to i
    assert!(rat_is(&auto_grad[0].get(2, 1), 1, 1));
}

#[test]
fn affine_distortion_round_trips_exactly() {
    let params = vec![q(3, 2), qi(2), qi(5), qi(-7)];
    assert!(AffineDistortionImpl::are_params_valid(&params));
    let bad = vec![qi(0), qi(1), qi(0), qi(0)];
    assert!(!AffineDistortionImpl::are_params_valid(&bad));

    let point = vec![q(1, 3), q(-4, 5)];
    let distorted = AffineDistortionImpl::distort(&params, &point).unwrap();
    // (1/3) * (3/2) + 5 == 11/2 and (-4/5) * 2 - 7 == -43/5
    assert!(rat_is(&distorted[0], 11, 2));
    assert!(rat_is(&distorted[1], -43, 5));
    let restored = AffineDistortionImpl::undistort(&params, &distorted).unwrap();
    assert!(restored[0].eq_val(&point[0]));
    assert!(restored[1].eq_val(&point[1]));
}

