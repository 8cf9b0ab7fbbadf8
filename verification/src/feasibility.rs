//! What the constraints mean: exactly the portfolios are feasible.
//!
//! A conic solver looks for `w` with `A w + s = b`, where the part of `s` in
//! a zero cone is zero and the part in a non-negative cone is not negative.
//! This module reads the encodings in the problem as the numbers they stand
//! for and states, in exact arithmetic, that a weight vector satisfies the
//! assembled constraints if and only if the weights sum to one, earn the
//! target return, and are not negative.
//!
//! Numbers are counted in units of 2^-1074, so that every finite binary64 is
//! an integer; a product of a coefficient and a weight is then in units of
//! 2^-2148, and a bound is brought to those units by multiplying with
//! `unit()`.

use vstd::prelude::*;
use vstd::arithmetic::power2::pow2;
use vstd::arithmetic::power2::lemma_pow2_pos;
use crate::binary64::is_negative;
use crate::binary64::lemma_unit_encodings;
use crate::binary64::scaled_magnitude;
use crate::binary64::NEG_ONE;
use crate::binary64::ONE;
use crate::binary64::ZERO;
use crate::cones::kind_of_row;
use crate::cones::lemma_cone_list_covers_rows;
use crate::cones::ConeKind;
use crate::constraints::constraint_entries;
use crate::csc::CscMatrix;
use crate::problem::Problem;

verus! {

/// The number a finite encoding stands for, in units of 2^-1074.
pub open spec fn scaled_value(bits: u64) -> int {
    if is_negative(bits) {
        -(scaled_magnitude(bits) as int)
    } else {
        scaled_magnitude(bits) as int
    }
}

/// One, in units of 2^-1074.
pub open spec fn unit() -> int {
    pow2(1074) as int
}

/// The sum of the first `upto` weights.
pub open spec fn sum(w: Seq<int>, upto: int) -> int
    decreases upto,
{
    if upto <= 0 {
        0
    } else {
        sum(w, upto - 1) + w[upto - 1]
    }
}

/// The sum of the first `upto` weights, each times its coefficient.
pub open spec fn weighted_sum(coefficients: Seq<u64>, w: Seq<int>, upto: int) -> int
    decreases upto,
{
    if upto <= 0 {
        0
    } else {
        weighted_sum(coefficients, w, upto - 1) + scaled_value(coefficients[upto - 1]) * w[upto
            - 1]
    }
}

/// The product of the first `upto` entries of row `r` of `a` with `w`.
pub open spec fn row_dot(a: CscMatrix, r: int, w: Seq<int>, upto: int) -> int
    decreases upto,
{
    if upto <= 0 {
        0
    } else {
        row_dot(a, r, w, upto - 1) + scaled_value(a.at(r, upto - 1)) * w[upto - 1]
    }
}

/// Row `r` of `a w + s = b` can be met with `s` in a cone of the given kind.
pub open spec fn row_satisfied(a: CscMatrix, b: Seq<u64>, kind: ConeKind, r: int, w: Seq<int>)
    -> bool {
    let product = row_dot(a, r, w, a.n as int);
    let bound = scaled_value(b[r]) * unit();
    match kind {
        ConeKind::Zero => product == bound,
        ConeKind::Nonnegative => product <= bound,
    }
}

/// The weights `w` satisfy every constraint row of the problem.
pub open spec fn feasible(problem: Problem, w: Seq<int>) -> bool {
    &&& w.len() == problem.a.n
    &&& forall|r: int|
        0 <= r < problem.a.m ==> match #[trigger] kind_of_row(problem.cones@, r) {
            Some(kind) => row_satisfied(problem.a, problem.b@, kind, r, w),
            None => false,
        }
}

/// The weights `w` form a portfolio for the given mean returns and target:
/// they sum to one, earn the target return, and none is negative.
pub open spec fn is_portfolio(mean_returns: Seq<u64>, target_return: u64, w: Seq<int>) -> bool {
    let n = mean_returns.len() as int;
    &&& w.len() == n
    &&& sum(w, n) == unit()
    &&& weighted_sum(mean_returns, w, n) == scaled_value(target_return) * unit()
    &&& forall|i: int| 0 <= i < n ==> #[trigger] w[i] >= 0
}

/// The budget row multiplies out to the sum of the weights.
proof fn lemma_budget_row(a: CscMatrix, mean_returns: Seq<u64>, w: Seq<int>, upto: int)
    requires
        a@ == constraint_entries(mean_returns),
        0 <= upto <= mean_returns.len(),
    ensures
        row_dot(a, 0, w, upto) == unit() * sum(w, upto),
    decreases upto,
{
    if upto > 0 {
        lemma_budget_row(a, mean_returns, w, upto - 1);
        lemma_unit_encodings();
        assert(a@.dom().contains((0, upto - 1)));
        assert(a.at(0, upto - 1) == ONE);
        let u = unit();
        let s = sum(w, upto - 1);
        let x = w[upto - 1];
        assert(u * s + u * x == u * (s + x)) by (nonlinear_arith);
    } else {
        assert(unit() * 0 == 0);
    }
}

/// The return row multiplies out to the weights times the mean returns.
proof fn lemma_return_row(a: CscMatrix, mean_returns: Seq<u64>, w: Seq<int>, upto: int)
    requires
        a@ == constraint_entries(mean_returns),
        0 <= upto <= mean_returns.len(),
    ensures
        row_dot(a, 1, w, upto) == weighted_sum(mean_returns, w, upto),
    decreases upto,
{
    if upto > 0 {
        lemma_return_row(a, mean_returns, w, upto - 1);
        assert(a@.dom().contains((1, upto - 1)));
        assert(a.at(1, upto - 1) == mean_returns[upto - 1]);
    }
}

/// The bound row of asset `i` multiplies out to minus its weight.
proof fn lemma_bound_row(a: CscMatrix, mean_returns: Seq<u64>, w: Seq<int>, i: int, upto: int)
    requires
        a@ == constraint_entries(mean_returns),
        0 <= i < mean_returns.len(),
        0 <= upto <= mean_returns.len(),
    ensures
        row_dot(a, 2 + i, w, upto) == (if upto > i {
            -unit() * w[i]
        } else {
            0
        }),
    decreases upto,
{
    if upto > 0 {
        lemma_bound_row(a, mean_returns, w, i, upto - 1);
        lemma_unit_encodings();
        let c = upto - 1;
        let x = w[c];
        if c == i {
            assert(a@.dom().contains((2 + i, c)));
            assert(a.at(2 + i, c) == NEG_ONE);
            assert((-unit()) * x == -unit() * x);
        } else {
            assert(!a@.dom().contains((2 + i, c)));
            assert(a.at(2 + i, c) == ZERO);
            assert(0 * x == 0);
        }
    }
}

/// The constraints say what they are meant to say: a weight vector is
/// feasible for the problem that encodes the given inputs if and only if it
/// is a portfolio for them.
pub proof fn lemma_feasible_iff_portfolio(
    problem: Problem,
    mean_returns: Seq<u64>,
    cov_flat: Seq<u64>,
    target_return: u64,
    w: Seq<int>,
)
    requires
        problem.encodes(mean_returns, cov_flat, target_return),
    ensures
        feasible(problem, w) <==> is_portfolio(mean_returns, target_return, w),
{
    let n = mean_returns.len() as int;
    let a = problem.a;
    let b = problem.b@;
    let u = unit();
    lemma_cone_list_covers_rows(problem.a.n);
    lemma_unit_encodings();
    lemma_pow2_pos(1074);
    if w.len() == n {
        lemma_budget_row(a, mean_returns, w, n);
        lemma_return_row(a, mean_returns, w, n);
        let s = sum(w, n);
        assert(u * s == u * u <==> s == u) by (nonlinear_arith)
            requires
                u > 0,
        ;
        assert forall|i: int| 0 <= i < n implies (row_dot(a, 2 + i, w, n) <= scaled_value(b[2 + i])
            * u <==> #[trigger] w[i] >= 0) by {
            lemma_bound_row(a, mean_returns, w, i, n);
            let x = w[i];
            assert(b[2 + i] == ZERO);
            assert(0 * u == 0);
            assert(-u * x <= 0 <==> x >= 0) by (nonlinear_arith)
                requires
                    u > 0,
            ;
        }
        if is_portfolio(mean_returns, target_return, w) {
            assert forall|r: int| 0 <= r < a.m implies match #[trigger] kind_of_row(
                problem.cones@,
                r,
            ) {
                Some(kind) => row_satisfied(a, b, kind, r, w),
                None => false,
            } by {
                if r >= 2 {
                    assert(w[r - 2] >= 0);
                }
            }
        }
        if feasible(problem, w) {
            assert(kind_of_row(problem.cones@, 0) == Some(ConeKind::Zero));
            assert(kind_of_row(problem.cones@, 1) == Some(ConeKind::Zero));
            assert(row_satisfied(a, b, ConeKind::Zero, 0, w));
            assert(row_satisfied(a, b, ConeKind::Zero, 1, w));
            assert forall|i: int| 0 <= i < n implies #[trigger] w[i] >= 0 by {
                assert(kind_of_row(problem.cones@, 2 + i) == Some(ConeKind::Nonnegative));
                assert(row_satisfied(a, b, ConeKind::Nonnegative, 2 + i, w));
            }
        }
    }
}

} // verus!
