use clarabel::algebra::{CscMatrix, TriangularMatrixChecks};
use clarabel::solver::{DefaultSettings, DefaultSolver, IPSolver, SolverStatus, SupportedConeT};
use portfolio_qp::cones::{Cone, ConeKind};
use portfolio_qp::problem::{formulate, Problem};
use portfolio_qp::solution::{
    extract_weights, extract_weights_or_zero, SolveError, SolverOutcome,
    SolverStatus as Status,
};

fn bits(values: &[f64]) -> Vec<u64> {
    values.iter().map(|v| v.to_bits()).collect()
}

fn reals(encodings: &[u64]) -> Vec<f64> {
    encodings.iter().map(|b| f64::from_bits(*b)).collect()
}

fn matrix(m: &portfolio_qp::csc::CscMatrix) -> CscMatrix<f64> {
    CscMatrix::new(m.m, m.n, m.colptr.clone(), m.rowval.clone(), reals(&m.nzval))
}

fn cone(c: &Cone) -> SupportedConeT<f64> {
    match c.kind {
        ConeKind::Zero => SupportedConeT::ZeroConeT(c.size),
        ConeKind::Nonnegative => SupportedConeT::NonnegativeConeT(c.size),
    }
}

fn status(s: SolverStatus) -> Status {
    match s {
        SolverStatus::Unsolved => Status::Unsolved,
        SolverStatus::Solved => Status::Solved,
        SolverStatus::PrimalInfeasible => Status::PrimalInfeasible,
        SolverStatus::DualInfeasible => Status::DualInfeasible,
        SolverStatus::AlmostSolved => Status::AlmostSolved,
        SolverStatus::AlmostPrimalInfeasible => Status::AlmostPrimalInfeasible,
        SolverStatus::AlmostDualInfeasible => Status::AlmostDualInfeasible,
        SolverStatus::MaxIterations => Status::MaxIterations,
        SolverStatus::MaxTime => Status::MaxTime,
        SolverStatus::NumericalError => Status::NumericalError,
        SolverStatus::InsufficientProgress => Status::InsufficientProgress,
        SolverStatus::CallbackTerminated => Status::CallbackTerminated,
    }
}

fn run(problem: &Problem) -> SolverOutcome {
    let cones: Vec<SupportedConeT<f64>> = problem.cones.iter().map(cone).collect();
    let mut settings = DefaultSettings::default();
    settings.verbose = false;
    let built = DefaultSolver::new(
        &matrix(&problem.p),
        &reals(&problem.q),
        &matrix(&problem.a),
        &reals(&problem.b),
        &cones,
        settings,
    );
    match built {
        Err(_) => SolverOutcome::Rejected,
        Ok(mut solver) => {
            solver.solve();
            SolverOutcome::Terminated {
                status: status(solver.solution.status),
                x: bits(&solver.solution.x),
            }
        }
    }
}

fn solve(mean: &[f64], cov: &[f64], target: f64) -> Result<Vec<f64>, SolveError> {
    let problem = formulate(&bits(mean), &bits(cov), target.to_bits())
        .map_err(SolveError::InvalidInput)?;
    extract_weights(mean.len(), run(&problem)).map(|w| reals(&w))
}

fn variance(cov: &[f64], w: &[f64]) -> f64 {
    let n = w.len();
    let mut total = 0.0;
    for r in 0..n {
        for c in 0..n {
            total += w[r] * cov[r * n + c] * w[c];
        }
    }
    total
}

const THREE_MEANS: [f64; 3] = [0.04, 0.07, 0.12];
const THREE_COV: [f64; 9] = [0.010, 0.002, 0.001, 0.002, 0.030, 0.004, 0.001, 0.004, 0.080];

#[test]
fn built_matrices_pass_the_solver_format_check() {
    let problem = formulate(&bits(&THREE_MEANS), &bits(&THREE_COV), 0.08f64.to_bits()).unwrap();
    assert!(matrix(&problem.p).check_format().is_ok());
    assert!(matrix(&problem.a).check_format().is_ok());
    assert!(matrix(&problem.p).is_triu());
    assert!(problem.p.is_well_formed());
    assert!(problem.a.is_well_formed());
}

#[test]
fn solver_accepts_every_formulated_problem() {
    for n in 1..6usize {
        let mean: Vec<f64> = (0..n).map(|i| 0.01 * (i + 1) as f64).collect();
        let mut cov = vec![0.0; n * n];
        for i in 0..n {
            cov[i * n + i] = 0.02 + 0.01 * i as f64;
        }
        let problem = formulate(&bits(&mean), &bits(&cov), mean[0].to_bits()).unwrap();
        assert!(!matches!(run(&problem), SolverOutcome::Rejected), "n = {n}");
    }
}

#[test]
fn weights_sum_to_one() {
    let w = solve(&THREE_MEANS, &THREE_COV, 0.08).unwrap();
    assert_eq!(w.len(), 3);
    assert!((w.iter().sum::<f64>() - 1.0).abs() < 1e-6);
}

#[test]
fn weights_meet_the_target_return() {
    let w = solve(&THREE_MEANS, &THREE_COV, 0.08).unwrap();
    let achieved: f64 = w.iter().zip(THREE_MEANS.iter()).map(|(w, r)| w * r).sum();
    assert!((achieved - 0.08).abs() < 1e-6);
}

#[test]
fn weights_are_not_negative() {
    for target in [0.04, 0.05, 0.08, 0.11, 0.12] {
        let w = solve(&THREE_MEANS, &THREE_COV, target).unwrap();
        assert!(w.iter().all(|x| *x >= -1e-6), "target {target}: {w:?}");
    }
}

#[test]
fn two_assets_at_the_midpoint_target() {
    let mean = [0.05, 0.10];
    let cov = [0.04, 0.01, 0.01, 0.09];
    let target = 0.075;
    let w = solve(&mean, &cov, target).unwrap();
    assert_eq!(w.len(), 2);
    assert!((w[0] + w[1] - 1.0).abs() < 1e-6);
    assert!(w[0] >= -1e-6 && w[1] >= -1e-6);
    assert!((w[0] * mean[0] + w[1] * mean[1] - target).abs() < 1e-6);
    assert!((w[0] - 0.5).abs() < 1e-5 && (w[1] - 0.5).abs() < 1e-5);

    let steps = 100_000;
    let mut best = f64::INFINITY;
    for i in 0..=steps {
        let a = i as f64 / steps as f64;
        let candidate = [a, 1.0 - a];
        let achieved = candidate[0] * mean[0] + candidate[1] * mean[1];
        if (achieved - target).abs() <= 1e-6 {
            best = best.min(variance(&cov, &candidate));
        }
    }
    assert!(best.is_finite());
    assert!(variance(&cov, &w) <= best + 1e-6);
    assert!((variance(&cov, &w) - 0.0375).abs() < 1e-6);
}

#[test]
fn three_assets_beat_a_grid_search() {
    let target = 0.08;
    let w = solve(&THREE_MEANS, &THREE_COV, target).unwrap();
    let steps = 400;
    let mut best = f64::INFINITY;
    for i in 0..=steps {
        let a = i as f64 / steps as f64;
        // With two equalities the third weight and the second follow from the first.
        let c = (target - 0.07 + 0.03 * a) / 0.05;
        let b = 1.0 - a - c;
        if b >= 0.0 && c >= 0.0 {
            best = best.min(variance(&THREE_COV, &[a, b, c]));
        }
    }
    assert!(best.is_finite());
    assert!(variance(&THREE_COV, &w) <= best + 1e-7);
}

#[test]
fn single_asset_gets_the_whole_budget() {
    for variance in [0.04, 1.0, 250.0, 1e-9] {
        let w = solve(&[0.07], &[variance], 0.07).unwrap();
        assert_eq!(w.len(), 1);
        assert!((w[0] - 1.0).abs() < 1e-6, "variance {variance}: {w:?}");
    }
}

#[test]
fn target_above_every_mean_return_is_infeasible() {
    assert_eq!(solve(&THREE_MEANS, &THREE_COV, 0.20), Err(SolveError::Infeasible));
    assert_eq!(solve(&[0.05, 0.10], &[0.04, 0.01, 0.01, 0.09], 0.11), Err(SolveError::Infeasible));
}

#[test]
fn target_below_every_mean_return_is_infeasible() {
    assert_eq!(solve(&THREE_MEANS, &THREE_COV, 0.01), Err(SolveError::Infeasible));
    assert_eq!(solve(&[0.05, 0.10], &[0.04, 0.01, 0.01, 0.09], -0.02), Err(SolveError::Infeasible));
}

#[test]
fn infeasible_target_is_not_a_zero_vector_even_when_lenient() {
    let problem = formulate(&bits(&THREE_MEANS), &bits(&THREE_COV), 0.20f64.to_bits()).unwrap();
    let outcome = run(&problem);
    match &outcome {
        SolverOutcome::Terminated { status, x } => {
            assert_eq!(*status, Status::PrimalInfeasible);
            assert_eq!(x.len(), 3);
        }
        SolverOutcome::Rejected => panic!("the solver refused a consistent problem"),
    }
    let lenient = extract_weights_or_zero(3, outcome).unwrap();
    assert_eq!(lenient.len(), 3);
}

#[test]
fn bad_inputs_never_reach_the_solver() {
    assert_eq!(
        solve(&[], &[], 0.0),
        Err(SolveError::InvalidInput(portfolio_qp::problem::InvalidInput::NoAssets))
    );
    assert_eq!(
        solve(&[0.05, 0.10], &[0.04, 0.01, 0.01], 0.07),
        Err(SolveError::InvalidInput(portfolio_qp::problem::InvalidInput::CovarianceShape))
    );
}
