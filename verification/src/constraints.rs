//! The linear constraints: full investment, the target return, and no short
//! positions.
//!
//! For `n` assets the constraint matrix has `n + 2` rows and `n` columns.
//! Row 0 sums the weights and is bound to one. Row 1 sums the weights times
//! the mean returns and is bound to the target. Row `2 + i` holds minus one in
//! column `i` and is bound to zero, which with the inequality `<=` says that
//! weight `i` is not negative.

use vstd::prelude::*;
use crate::binary64::zeros;
use crate::binary64::NEG_ONE;
use crate::binary64::ONE;
use crate::binary64::ZERO;
use crate::csc::CscMatrix;

verus! {

/// The row of the full-investment equality.
pub const BUDGET_ROW: usize = 0;

/// The row of the target-return equality.
pub const RETURN_ROW: usize = 1;

/// The row of the first non-negativity inequality; asset `i` has row
/// `FIRST_BOUND_ROW + i`.
pub const FIRST_BOUND_ROW: usize = 2;

/// What the constraint matrix stores: in each column the budget row, the
/// return row and the column's own bound row.
pub open spec fn constraint_entries(mean_returns: Seq<u64>) -> Map<(int, int), u64> {
    Map::new(
        |rc: (int, int)|
            0 <= rc.1 < mean_returns.len() && (rc.0 == BUDGET_ROW || rc.0 == RETURN_ROW || rc.0
                == FIRST_BOUND_ROW + rc.1),
        |rc: (int, int)|
            if rc.0 == BUDGET_ROW {
                ONE
            } else if rc.0 == RETURN_ROW {
                mean_returns[rc.1]
            } else {
                NEG_ONE
            },
    )
}

/// The row held by slot `k` of the constraint matrix.
pub open spec fn constraint_row(k: int) -> int {
    if k % 3 == 0 {
        BUDGET_ROW as int
    } else if k % 3 == 1 {
        RETURN_ROW as int
    } else {
        FIRST_BOUND_ROW + k / 3
    }
}

/// The value held by slot `k` of the constraint matrix.
pub open spec fn constraint_value(mean_returns: Seq<u64>, k: int) -> u64 {
    if k % 3 == 0 {
        ONE
    } else if k % 3 == 1 {
        mean_returns[k / 3]
    } else {
        NEG_ONE
    }
}

/// The slot-by-slot layout of the constraint matrix for `mean_returns`:
/// three slots per column, in the order budget, return, bound.
pub open spec fn has_constraint_layout(a: CscMatrix, mean_returns: Seq<u64>) -> bool {
    let n = mean_returns.len() as int;
    &&& a.m == n + 2
    &&& a.n == n
    &&& a.colptr@.len() == n + 1
    &&& a.rowval@.len() == 3 * n
    &&& a.nzval@.len() == 3 * n
    &&& forall|c: int| 0 <= c <= n ==> #[trigger] a.colptr@[c] == 3 * c
    &&& forall|k: int| 0 <= k < 3 * n ==> #[trigger] a.rowval@[k] == constraint_row(k)
    &&& forall|k: int|
        0 <= k < 3 * n ==> #[trigger] a.nzval@[k] == constraint_value(mean_returns, k)
}

/// A matrix with the constraint layout is well formed and stores exactly the
/// constraint entries.
pub proof fn lemma_layout_gives_view(a: CscMatrix, mean_returns: Seq<u64>)
    requires
        has_constraint_layout(a, mean_returns),
    ensures
        a.wf(),
        a@ == constraint_entries(mean_returns),
{
    let n = mean_returns.len() as int;
    let want = constraint_entries(mean_returns);
    assert forall|rc: (int, int)| a@.dom().contains(rc) <==> want.dom().contains(rc) by {
        let (r, c) = rc;
        if a.stores(r, c) {
            let k = a.slot_of(r, c);
            assert(a.colptr@[c] == 3 * c && a.colptr@[c + 1] == 3 * (c + 1));
            assert(a.rowval@[k] == constraint_row(k));
        }
        if want.dom().contains(rc) {
            assert(a.colptr@[c] == 3 * c && a.colptr@[c + 1] == 3 * (c + 1));
            let k = if r == 0 {
                3 * c
            } else if r == 1 {
                3 * c + 1
            } else {
                3 * c + 2
            };
            assert(a.rowval@[k] == constraint_row(k));
            assert(a.slot_holds(k, r, c));
        }
    }
    assert forall|rc: (int, int)| a@.dom().contains(rc) implies a@[rc] == want[rc] by {
        let (r, c) = rc;
        let k = a.slot_of(r, c);
        assert(a.colptr@[c] == 3 * c && a.colptr@[c + 1] == 3 * (c + 1));
        assert(a.rowval@[k] == constraint_row(k));
        assert(a.nzval@[k] == constraint_value(mean_returns, k));
    }
    assert(a@ =~= want);
}

/// Builds the constraint matrix for the given mean returns.
///
/// Each column gets its three entries in ascending row order, so the result
/// is in compressed sparse column form without any sorting.
pub fn build_constraint_matrix(mean_returns: &[u64]) -> (a: CscMatrix)
    requires
        mean_returns@.len() + 2 <= usize::MAX,
    ensures
        a.wf(),
        a.m == mean_returns@.len() + 2,
        a.n == mean_returns@.len(),
        a@ == constraint_entries(mean_returns@),
        has_constraint_layout(a, mean_returns@),
{
    let n: usize = mean_returns.len();
    let mut colptr: Vec<usize> = Vec::new();
    let mut rowval: Vec<usize> = Vec::new();
    let mut nzval: Vec<u64> = Vec::new();
    colptr.push(0);
    let mut col: usize = 0;
    while col < n
        invariant
            col <= n,
            n == mean_returns@.len(),
            n + 2 <= usize::MAX,
            colptr@.len() == col + 1,
            rowval@.len() == 3 * col,
            nzval@.len() == 3 * col,
            forall|c: int| 0 <= c <= col ==> #[trigger] colptr@[c] == 3 * c,
            forall|k: int| 0 <= k < 3 * col ==> #[trigger] rowval@[k] == constraint_row(k),
            forall|k: int|
                0 <= k < 3 * col ==> #[trigger] nzval@[k] == constraint_value(mean_returns@, k),
        decreases n - col,
    {
        rowval.push(BUDGET_ROW);
        nzval.push(ONE);
        rowval.push(RETURN_ROW);
        nzval.push(mean_returns[col]);
        rowval.push(FIRST_BOUND_ROW + col);
        nzval.push(NEG_ONE);
        colptr.push(nzval.len());
        col = col + 1;
    }
    let a = CscMatrix { m: n + 2, n, colptr, rowval, nzval };
    proof {
        lemma_layout_gives_view(a, mean_returns@);
    }
    a
}

/// The bound of each constraint row for `n` assets and the given target.
pub open spec fn bound_values(n: int, target_return: u64) -> Seq<u64> {
    Seq::new(
        (n + 2) as nat,
        |i: int|
            if i == BUDGET_ROW {
                ONE
            } else if i == RETURN_ROW {
                target_return
            } else {
                ZERO
            },
    )
}

/// Builds the bound vector: one, the target return, then `n` zeros.
pub fn build_bounds(n: usize, target_return: u64) -> (b: Vec<u64>)
    requires
        n + 2 <= usize::MAX,
    ensures
        b@ == bound_values(n as int, target_return),
{
    let mut b = zeros(n + 2);
    b.set(BUDGET_ROW, ONE);
    b.set(RETURN_ROW, target_return);
    b
}

} // verus!
