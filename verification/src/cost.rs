//! The quadratic cost: the upper triangle of the covariance matrix, sparse.
//!
//! The covariance matrix arrives dense and row-major. Only positions on or
//! above the diagonal are read. The diagonal is always stored; an entry above
//! it is stored when its absolute value is greater than the threshold
//! `EPSILON`, and left out otherwise.

use vstd::prelude::*;
use vstd::arithmetic::div_mod::lemma_fundamental_div_mod;
use crate::binary64::exceeds_epsilon;
use crate::binary64::is_significant;
use crate::binary64::zeros;
use crate::binary64::ZERO;
use crate::csc::pointers_wf;
use crate::csc::rows_ascend;
use crate::csc::CscMatrix;

verus! {

/// Position `(r, c)` of the `n` by `n` covariance matrix `cov` goes into the
/// cost matrix: it lies on the diagonal, or above it with a significant value.
pub open spec fn is_kept(n: int, cov: Seq<u64>, r: int, c: int) -> bool {
    &&& 0 <= r <= c < n
    &&& (r == c || is_significant(cov[r * n + c]))
}

/// What the cost matrix stores: each kept position with its covariance.
pub open spec fn cost_entries(n: int, cov: Seq<u64>) -> Map<(int, int), u64> {
    Map::new(|rc: (int, int)| is_kept(n, cov, rc.0, rc.1), |rc: (int, int)| cov[rc.0 * n + rc.1])
}

/// Slots `lo .. hi` hold exactly the kept positions of column `c` in rows
/// below `upto`, each with its covariance.
spec fn column_filled(
    rowval: Seq<usize>,
    nzval: Seq<u64>,
    lo: int,
    hi: int,
    n: int,
    cov: Seq<u64>,
    c: int,
    upto: int,
) -> bool {
    &&& forall|k: int|
        lo <= k < hi ==> {
            &&& (#[trigger] rowval[k]) < upto
            &&& is_kept(n, cov, rowval[k] as int, c)
            &&& nzval[k] == cov[rowval[k] * n + c]
        }
    &&& forall|r: int|
        0 <= r < upto && #[trigger] is_kept(n, cov, r, c) ==> exists|k: int|
            lo <= k < hi && #[trigger] rowval[k] == r
}

/// A filled column stays filled in any arrays that agree on its slots.
proof fn lemma_filled_transfer(
    rv_a: Seq<usize>,
    nz_a: Seq<u64>,
    rv_b: Seq<usize>,
    nz_b: Seq<u64>,
    lo: int,
    hi: int,
    n: int,
    cov: Seq<u64>,
    c: int,
    upto: int,
)
    requires
        column_filled(rv_a, nz_a, lo, hi, n, cov, c, upto),
        forall|k: int| lo <= k < hi ==> #[trigger] rv_b[k] == rv_a[k] && nz_b[k] == nz_a[k],
    ensures
        column_filled(rv_b, nz_b, lo, hi, n, cov, c, upto),
{
    assert forall|r: int| 0 <= r < upto && #[trigger] is_kept(n, cov, r, c) implies exists|k: int|
        lo <= k < hi && #[trigger] rv_b[k] == r by {
        let k0 = choose|k: int| lo <= k < hi && #[trigger] rv_a[k] == r;
        assert(rv_b[k0] == r);
    }
}

/// An index into the row-major upper triangle stays inside the matrix.
proof fn lemma_upper_index_in_range(n: int, r: int, c: int)
    requires
        0 <= r <= c < n,
    ensures
        0 <= r * n,
        r * n + c < n * n,
{
    assert(0 <= r * n && r * n + c < n * n) by (nonlinear_arith)
        requires
            0 <= r <= c < n,
    ;
}

/// Builds the sparse quadratic cost from the dense `n` by `n` covariance
/// matrix `cov`.
///
/// The result is `n` by `n`, well formed, and stores exactly the kept
/// positions of the upper triangle, each with the value found in `cov`.
pub fn build_cost_matrix(n: usize, cov: &[u64]) -> (p: CscMatrix)
    requires
        cov@.len() == n * n,
    ensures
        p.wf(),
        p.m == n,
        p.n == n,
        p@ == cost_entries(n as int, cov@),
{
    let total: usize = cov.len();
    let mut colptr: Vec<usize> = Vec::new();
    let mut rowval: Vec<usize> = Vec::new();
    let mut nzval: Vec<u64> = Vec::new();
    colptr.push(0);
    let mut col: usize = 0;
    while col < n
        invariant
            col <= n,
            cov@.len() == n * n,
            total == n * n,
            rowval@.len() == nzval@.len(),
            pointers_wf(colptr@, col as int, rowval@.len() as int),
            forall|k: int| 0 <= k < rowval@.len() ==> #[trigger] rowval@[k] < n,
            forall|c: int|
                0 <= c < col ==> rows_ascend(
                    rowval@,
                    #[trigger] colptr@[c] as int,
                    colptr@[c + 1] as int,
                ),
            forall|c: int|
                0 <= c < col ==> column_filled(
                    rowval@,
                    nzval@,
                    #[trigger] colptr@[c] as int,
                    colptr@[c + 1] as int,
                    n as int,
                    cov@,
                    c,
                    c + 1,
                ),
        decreases n - col,
    {
        let start: usize = rowval.len();
        let ghost rv0 = rowval@;
        let ghost nz0 = nzval@;
        let mut row: usize = 0;
        while row <= col
            invariant
                col < n,
                row <= col + 1,
                cov@.len() == n * n,
                total == n * n,
                rowval@.len() == nzval@.len(),
                start <= rowval@.len(),
                rv0.len() == start,
                nz0.len() == start,
                forall|k: int| 0 <= k < start ==> #[trigger] rowval@[k] == rv0[k],
                forall|k: int| 0 <= k < start ==> #[trigger] nzval@[k] == nz0[k],
                forall|k: int| 0 <= k < rowval@.len() ==> #[trigger] rowval@[k] < n,
                rows_ascend(rowval@, start as int, rowval@.len() as int),
                column_filled(
                    rowval@,
                    nzval@,
                    start as int,
                    rowval@.len() as int,
                    n as int,
                    cov@,
                    col as int,
                    row as int,
                ),
            decreases col + 1 - row,
        {
            proof {
                lemma_upper_index_in_range(n as int, row as int, col as int);
            }
            let val: u64 = cov[row * n + col];
            if exceeds_epsilon(val) || row == col {
                let ghost rv1 = rowval@;
                let ghost nz1 = nzval@;
                rowval.push(row);
                nzval.push(val);
                proof {
                    lemma_filled_transfer(
                        rv1,
                        nz1,
                        rowval@,
                        nzval@,
                        start as int,
                        rv1.len() as int,
                        n as int,
                        cov@,
                        col as int,
                        row as int,
                    );
                    assert(rowval@[rv1.len() as int] == row);
                }
            }
            row = row + 1;
        }
        proof {
            assert(is_kept(n as int, cov@, col as int, col as int));
            assert(start < rowval@.len());
            assert forall|c: int| 0 <= c < col implies column_filled(
                rowval@,
                nzval@,
                #[trigger] colptr@[c] as int,
                colptr@[c + 1] as int,
                n as int,
                cov@,
                c,
                c + 1,
            ) by {
                assert(colptr@[c + 1] <= colptr@[col as int]);
                lemma_filled_transfer(
                    rv0,
                    nz0,
                    rowval@,
                    nzval@,
                    colptr@[c] as int,
                    colptr@[c + 1] as int,
                    n as int,
                    cov@,
                    c,
                    c + 1,
                );
            }
            assert forall|c: int| 0 <= c < col implies rows_ascend(
                rowval@,
                #[trigger] colptr@[c] as int,
                colptr@[c + 1] as int,
            ) by {
                assert(colptr@[c + 1] <= colptr@[col as int]);
                assert(rows_ascend(rv0, colptr@[c] as int, colptr@[c + 1] as int));
            }
        }
        let ghost cp0 = colptr@;
        colptr.push(rowval.len());
        proof {
            assert forall|c: int| 0 <= c < col + 1 implies rows_ascend(
                rowval@,
                #[trigger] colptr@[c] as int,
                colptr@[c + 1] as int,
            ) by {
                if c < col {
                    assert(rows_ascend(rowval@, cp0[c] as int, cp0[c + 1] as int));
                }
            }
            assert forall|c: int| 0 <= c < col + 1 implies column_filled(
                rowval@,
                nzval@,
                #[trigger] colptr@[c] as int,
                colptr@[c + 1] as int,
                n as int,
                cov@,
                c,
                c + 1,
            ) by {
                if c < col {
                    assert(column_filled(
                        rowval@,
                        nzval@,
                        cp0[c] as int,
                        cp0[c + 1] as int,
                        n as int,
                        cov@,
                        c,
                        c + 1,
                    ));
                }
            }
        }
        col = col + 1;
    }
    let p = CscMatrix { m: n, n, colptr, rowval, nzval };
    proof {
        lemma_filled_columns_give_view(p, cov@);
    }
    p
}

/// A well-formed square matrix whose every column is filled from `cov`
/// stores exactly the cost entries of `cov`.
proof fn lemma_filled_columns_give_view(p: CscMatrix, cov: Seq<u64>)
    requires
        p.wf(),
        p.m == p.n,
        forall|c: int|
            0 <= c < p.n ==> column_filled(
                p.rowval@,
                p.nzval@,
                #[trigger] p.colptr@[c] as int,
                p.colptr@[c + 1] as int,
                p.n as int,
                cov,
                c,
                c + 1,
            ),
    ensures
        p@ == cost_entries(p.n as int, cov),
{
    let n = p.n as int;
    let want = cost_entries(n, cov);
    assert forall|rc: (int, int)| p@.dom().contains(rc) <==> want.dom().contains(rc) by {
        let (r, c) = rc;
        if p.stores(r, c) {
            let k = p.slot_of(r, c);
            assert(column_filled(
                p.rowval@,
                p.nzval@,
                p.colptr@[c] as int,
                p.colptr@[c + 1] as int,
                n,
                cov,
                c,
                c + 1,
            ));
            assert(p.rowval@[k] == r);
        }
        if is_kept(n, cov, r, c) {
            assert(column_filled(
                p.rowval@,
                p.nzval@,
                p.colptr@[c] as int,
                p.colptr@[c + 1] as int,
                n,
                cov,
                c,
                c + 1,
            ));
            let k = choose|k: int|
                p.colptr@[c] <= k < p.colptr@[c + 1] && #[trigger] p.rowval@[k] == r;
            assert(p.slot_holds(k, r, c));
        }
    }
    assert forall|rc: (int, int)| p@.dom().contains(rc) implies p@[rc] == want[rc] by {
        let (r, c) = rc;
        let k = p.slot_of(r, c);
        assert(column_filled(
            p.rowval@,
            p.nzval@,
            p.colptr@[c] as int,
            p.colptr@[c + 1] as int,
            n,
            cov,
            c,
            c + 1,
        ));
        assert(p.rowval@[k] == r);
    }
    assert(p@ =~= want);
}

/// The covariance matrix with every position that is not kept set to zero,
/// row by row: what the cost matrix says when written out in full.
pub open spec fn upper_triangle(n: int, cov: Seq<u64>) -> Seq<u64> {
    Seq::new(
        (n * n) as nat,
        |i: int|
            if is_kept(n, cov, i / n, i % n) {
                cov[i]
            } else {
                ZERO
            },
    )
}

/// Round trip: written out in full, the cost matrix of `cov` gives back the
/// upper triangle of `cov`.
///
/// On the diagonal, and above it wherever the covariance is significant, the
/// value is the covariance itself. Above the diagonal where the covariance is
/// not significant, and everywhere below the diagonal, the value is zero.
pub proof fn lemma_cost_round_trip(p: CscMatrix, cov: Seq<u64>)
    requires
        p.m == p.n,
        cov.len() == p.n * p.n,
        p@ == cost_entries(p.n as int, cov),
    ensures
        p.dense() == upper_triangle(p.n as int, cov),
        forall|r: int, c: int|
            0 <= r < p.n && 0 <= c < p.n ==> #[trigger] p.at(r, c) == (if r == c || (r < c
                && is_significant(cov[r * p.n + c])) {
                cov[r * p.n + c]
            } else {
                ZERO
            }),
{
    let n = p.n as int;
    assert forall|i: int| 0 <= i < n * n implies p.dense()[i] == upper_triangle(n, cov)[i] by {
        lemma_fundamental_div_mod(i, n);
        assert(n * (i / n) == (i / n) * n) by (nonlinear_arith);
    }
    assert(p.dense() =~= upper_triangle(n, cov));
}

/// The linear cost: `n` zeros. The objective is the quadratic risk alone.
pub fn linear_cost(n: usize) -> (q: Vec<u64>)
    ensures
        q@ == Seq::new(n as nat, |i: int| ZERO),
{
    zeros(n)
}

} // verus!
