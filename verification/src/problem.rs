//! The assembled problem: minimise `w' P w / 2 + q' w` subject to
//! `A w + s = b` with `s` in the cones.
//!
//! `formulate` checks the shape of the raw inputs and puts the five parts
//! together. What it returns is dimensionally consistent, so a solver has no
//! ground to refuse it, and it encodes the inputs exactly.

use vstd::prelude::*;
use crate::binary64::ZERO;
use crate::cones::compose_cones;
use crate::cones::cone_list;
use crate::cones::lemma_cone_list_covers_rows;
use crate::cones::total_rows;
use crate::cones::Cone;
use crate::constraints::bound_values;
use crate::constraints::build_bounds;
use crate::constraints::build_constraint_matrix;
use crate::constraints::constraint_entries;
use crate::cost::build_cost_matrix;
use crate::cost::cost_entries;
use crate::cost::linear_cost;
use crate::csc::CscMatrix;

verus! {

/// Why raw inputs were turned down.
#[derive(Clone, Copy, Debug, PartialEq, Eq, Structural)]
pub enum InvalidInput {
    /// There is no asset: the mean returns are empty.
    NoAssets,
    /// The covariance matrix does not have one entry per pair of assets.
    CovarianceShape,
}

/// A conic quadratic program in the form a solver takes.
#[derive(Debug, PartialEq, Eq)]
pub struct Problem {
    /// The quadratic cost, upper triangle only.
    pub p: CscMatrix,
    /// The linear cost.
    pub q: Vec<u64>,
    /// The constraint matrix.
    pub a: CscMatrix,
    /// The bound of each constraint row.
    pub b: Vec<u64>,
    /// The cones, in row order.
    pub cones: Vec<Cone>,
}

/// The inputs describe at least one asset and a square covariance matrix of
/// matching size.
pub open spec fn valid_input(mean_returns: Seq<u64>, cov_flat: Seq<u64>) -> bool {
    &&& mean_returns.len() > 0
    &&& cov_flat.len() == mean_returns.len() * mean_returns.len()
}

impl Problem {
    /// The number of variables, one weight per asset.
    pub open spec fn num_assets(&self) -> int {
        self.q@.len() as int
    }

    /// Both matrices are well formed and all dimensions agree: the cost is
    /// square over the variables, the constraints have one column per
    /// variable and one bound per row, and the cones cover the rows exactly.
    pub open spec fn wf(&self) -> bool {
        &&& self.p.wf()
        &&& self.a.wf()
        &&& self.p.m == self.num_assets()
        &&& self.p.n == self.num_assets()
        &&& self.a.n == self.num_assets()
        &&& self.a.m == self.b@.len()
        &&& total_rows(self.cones@) == self.b@.len()
    }

    /// The problem is the mean-variance problem of the given inputs.
    pub open spec fn encodes(
        &self,
        mean_returns: Seq<u64>,
        cov_flat: Seq<u64>,
        target_return: u64,
    ) -> bool {
        let n = mean_returns.len() as int;
        &&& self.p.m == n
        &&& self.p.n == n
        &&& self.p@ == cost_entries(n, cov_flat)
        &&& self.q@ == Seq::new(n as nat, |i: int| ZERO)
        &&& self.a.m == n + 2
        &&& self.a.n == n
        &&& self.a@ == constraint_entries(mean_returns)
        &&& self.b@ == bound_values(n, target_return)
        &&& self.cones@ == cone_list(n)
    }
}

/// A square that fits the machine word leaves room for two more than its
/// side.
proof fn lemma_square_bounds_side(n: int, limit: int)
    requires
        1 <= n,
        n * n <= limit,
        3 <= limit,
    ensures
        n + 2 <= limit,
{
    if n >= 2 {
        assert(n * n >= 2 * n) by (nonlinear_arith)
            requires
                n >= 2,
        ;
    }
}

/// Formulates the mean-variance problem for the given mean returns, row-major
/// covariance matrix and target return.
///
/// Inputs are turned down if and only if there is no asset or the covariance
/// matrix has the wrong number of entries. Otherwise the problem returned is
/// well formed and encodes the inputs.
pub fn formulate(mean_returns: &[u64], cov_flat: &[u64], target_return: u64) -> (formulated: Result<
    Problem,
    InvalidInput,
>)
    ensures
        match formulated {
            Ok(problem) => {
                &&& valid_input(mean_returns@, cov_flat@)
                &&& problem.wf()
                &&& problem.encodes(mean_returns@, cov_flat@, target_return)
            },
            Err(InvalidInput::NoAssets) => mean_returns@.len() == 0,
            Err(InvalidInput::CovarianceShape) => {
                &&& mean_returns@.len() > 0
                &&& cov_flat@.len() != mean_returns@.len() * mean_returns@.len()
            },
        },
{
    let n: usize = mean_returns.len();
    if n == 0 {
        return Err(InvalidInput::NoAssets);
    }
    let entries: usize = cov_flat.len();
    match n.checked_mul(n) {
        Some(square) => {
            if square != entries {
                return Err(InvalidInput::CovarianceShape);
            }
        },
        None => {
            return Err(InvalidInput::CovarianceShape);
        },
    }
    proof {
        lemma_square_bounds_side(n as int, usize::MAX as int);
        lemma_cone_list_covers_rows(n);
    }
    let p = build_cost_matrix(n, cov_flat);
    let q = linear_cost(n);
    let a = build_constraint_matrix(mean_returns);
    let b = build_bounds(n, target_return);
    let cones = compose_cones(n);
    Ok(Problem { p, q, a, b, cones })
}

} // verus!
