//! Sparse matrices in compressed sparse column form.
//!
//! Column `c` of a matrix occupies the slots `colptr[c] .. colptr[c + 1]` of
//! the two parallel arrays `rowval` and `nzval`: slot `k` says that the entry
//! in row `rowval[k]` of that column is `nzval[k]`. The mathematical content
//! of a matrix is its view, the map from the positions it stores to the
//! values stored there.

use vstd::prelude::*;
use vstd::arithmetic::div_mod::lemma_fundamental_div_mod_converse;
use crate::binary64::ZERO;

verus! {

/// A sparse `m` by `n` matrix of binary64 encodings.
#[derive(Debug, PartialEq, Eq)]
pub struct CscMatrix {
    /// Number of rows.
    pub m: usize,
    /// Number of columns.
    pub n: usize,
    /// Where each column starts; one more entry than there are columns.
    pub colptr: Vec<usize>,
    /// The row of each stored entry.
    pub rowval: Vec<usize>,
    /// The value of each stored entry.
    pub nzval: Vec<u64>,
}

/// Column pointers for `n` columns over `total` slots: they start at zero,
/// end at `total`, and ascend strictly, so that no column is empty.
pub open spec fn pointers_wf(colptr: Seq<usize>, n: int, total: int) -> bool {
    &&& colptr.len() == n + 1
    &&& colptr[0] == 0
    &&& colptr[n] == total
    &&& forall|i: int, j: int| 0 <= i < j <= n ==> colptr[i] < colptr[j]
}

/// The rows in slots `lo .. hi` ascend strictly.
pub open spec fn rows_ascend(rowval: Seq<usize>, lo: int, hi: int) -> bool {
    forall|j: int, k: int| lo <= j < k < hi ==> rowval[j] < rowval[k]
}

impl CscMatrix {
    /// The format invariant: consistent lengths, well-formed column pointers,
    /// every row index below `m`, and strictly ascending rows within each
    /// column.
    pub open spec fn wf(&self) -> bool {
        &&& self.rowval@.len() == self.nzval@.len()
        &&& pointers_wf(self.colptr@, self.n as int, self.rowval@.len() as int)
        &&& forall|k: int| 0 <= k < self.rowval@.len() ==> self.rowval@[k] < self.m
        &&& forall|c: int|
            0 <= c < self.n ==> rows_ascend(
                self.rowval@,
                #[trigger] self.colptr@[c] as int,
                self.colptr@[c + 1] as int,
            )
    }

    /// Slot `k` belongs to column `c` and holds row `r`.
    pub open spec fn slot_holds(&self, k: int, r: int, c: int) -> bool {
        &&& 0 <= c < self.n
        &&& self.colptr@[c] <= k < self.colptr@[c + 1]
        &&& self.rowval@[k] == r
    }

    /// Position `(r, c)` is stored.
    pub open spec fn stores(&self, r: int, c: int) -> bool {
        exists|k: int| self.slot_holds(k, r, c)
    }

    /// A slot that holds position `(r, c)`, where one exists.
    pub open spec fn slot_of(&self, r: int, c: int) -> int {
        choose|k: int| self.slot_holds(k, r, c)
    }

    /// The value at row `r`, column `c`: what is stored there, and zero where
    /// nothing is stored.
    pub open spec fn at(&self, r: int, c: int) -> u64 {
        if self@.dom().contains((r, c)) {
            self@[(r, c)]
        } else {
            ZERO
        }
    }

    /// The matrix written out in full, row by row.
    pub open spec fn dense(&self) -> Seq<u64> {
        Seq::new(
            (self.m * self.n) as nat,
            |i: int| self.at(i / (self.n as int), i % (self.n as int)),
        )
    }

    /// In a well-formed matrix a position is held by at most one slot.
    pub proof fn lemma_slot_unique(&self, j: int, k: int, r: int, c: int)
        requires
            self.wf(),
            self.slot_holds(j, r, c),
            self.slot_holds(k, r, c),
        ensures
            j == k,
    {
        let lo = self.colptr@[c] as int;
        assert(rows_ascend(self.rowval@, lo, self.colptr@[c + 1] as int));
    }

    /// A slot that holds a position determines the view there.
    pub proof fn lemma_view_at_slot(&self, k: int, r: int, c: int)
        requires
            self.wf(),
            self.slot_holds(k, r, c),
        ensures
            self@.dom().contains((r, c)),
            self@[(r, c)] == self.nzval@[k],
    {
        self.lemma_slot_unique(self.slot_of(r, c), k, r, c);
    }

    /// A well-formed matrix stores nothing outside its `m` rows and `n`
    /// columns.
    pub proof fn lemma_view_in_bounds(&self)
        requires
            self.wf(),
        ensures
            forall|r: int, c: int| #[trigger]
                self@.dom().contains((r, c)) ==> 0 <= r < self.m && 0 <= c < self.n,
    {
        assert forall|r: int, c: int| #[trigger]
            self@.dom().contains((r, c)) implies 0 <= r < self.m && 0 <= c < self.n by {
            let k = self.slot_of(r, c);
            assert(self.slot_holds(k, r, c));
            if c + 1 < self.n {
                assert(self.colptr@[c + 1] < self.colptr@[self.n as int]);
            }
        }
    }

    /// Checks the format invariant.
    pub fn is_well_formed(&self) -> (ok: bool)
        ensures
            ok == self.wf(),
    {
        let n: usize = self.n;
        let total: usize = self.rowval.len();
        if self.nzval.len() != total {
            return false;
        }
        if self.colptr.len() == 0 || self.colptr.len() - 1 != n {
            return false;
        }
        if self.colptr[0] != 0 || self.colptr[n] != total {
            return false;
        }
        let mut c: usize = 0;
        while c < n
            invariant
                c <= n,
                n == self.n,
                self.colptr@.len() == n + 1,
                forall|i: int, j: int| 0 <= i < j <= c ==> self.colptr@[i] < self.colptr@[j],
            decreases n - c,
        {
            if self.colptr[c] >= self.colptr[c + 1] {
                return false;
            }
            c = c + 1;
        }
        let mut k: usize = 0;
        while k < total
            invariant
                k <= total,
                total == self.rowval@.len(),
                forall|j: int| 0 <= j < k ==> self.rowval@[j] < self.m,
            decreases total - k,
        {
            if self.rowval[k] >= self.m {
                return false;
            }
            k = k + 1;
        }
        c = 0;
        while c < n
            invariant
                c <= n,
                n == self.n,
                total == self.rowval@.len(),
                pointers_wf(self.colptr@, n as int, total as int),
                forall|b: int|
                    0 <= b < c ==> rows_ascend(
                        self.rowval@,
                        #[trigger] self.colptr@[b] as int,
                        self.colptr@[b + 1] as int,
                    ),
            decreases n - c,
        {
            let lo: usize = self.colptr[c];
            let hi: usize = self.colptr[c + 1];
            proof {
                if c + 1 < n {
                    assert(self.colptr@[c + 1] < self.colptr@[n as int]);
                }
            }
            let mut k: usize = lo + 1;
            while k < hi
                invariant
                    lo < k <= hi,
                    hi <= self.rowval@.len(),
                    c < self.n,
                    lo == self.colptr@[c as int],
                    hi == self.colptr@[c + 1],
                    rows_ascend(self.rowval@, lo as int, k as int),
                decreases hi - k,
            {
                if self.rowval[k - 1] >= self.rowval[k] {
                    return false;
                }
                k = k + 1;
            }
            c = c + 1;
        }
        true
    }

    /// The entry at row `r`, column `c`, if the matrix stores one.
    pub fn get(&self, r: usize, c: usize) -> (entry: Option<u64>)
        requires
            self.wf(),
        ensures
            entry == (if self@.dom().contains((r as int, c as int)) {
                Some(self@[(r as int, c as int)])
            } else {
                None
            }),
    {
        if c >= self.n {
            return None;
        }
        let lo: usize = self.colptr[c];
        let hi: usize = self.colptr[c + 1];
        proof {
            if c + 1 < self.n {
                assert(self.colptr@[c + 1] < self.colptr@[self.n as int]);
            }
        }
        let mut k: usize = lo;
        while k < hi
            invariant
                self.wf(),
                c < self.n,
                lo == self.colptr@[c as int],
                hi == self.colptr@[c + 1],
                hi <= self.rowval@.len(),
                lo <= k <= hi,
                forall|j: int| lo <= j < k ==> self.rowval@[j] != r,
            decreases hi - k,
        {
            if self.rowval[k] == r {
                proof {
                    self.lemma_view_at_slot(k as int, r as int, c as int);
                }
                return Some(self.nzval[k]);
            }
            k = k + 1;
        }
        None
    }

    /// Writes the matrix out in full, row by row, with zero wherever nothing
    /// is stored.
    pub fn to_dense(&self) -> (d: Vec<u64>)
        requires
            self.wf(),
        ensures
            d@ == self.dense(),
    {
        let mut d: Vec<u64> = Vec::new();
        let mut r: usize = 0;
        while r < self.m
            invariant
                self.wf(),
                r <= self.m,
                d@.len() == r * self.n,
                forall|i: int|
                    0 <= i < d@.len() ==> d@[i] == self.at(i / (self.n as int), i % (self.n as int)),
            decreases self.m - r,
        {
            let mut c: usize = 0;
            while c < self.n
                invariant
                    self.wf(),
                    r < self.m,
                    c <= self.n,
                    d@.len() == r * self.n + c,
                    forall|i: int|
                        0 <= i < d@.len() ==> d@[i] == self.at(
                            i / (self.n as int),
                            i % (self.n as int),
                        ),
                decreases self.n - c,
            {
                let value: u64 = match self.get(r, c) {
                    Some(stored) => stored,
                    None => ZERO,
                };
                proof {
                    lemma_fundamental_div_mod_converse(
                        r * self.n + c,
                        self.n as int,
                        r as int,
                        c as int,
                    );
                }
                d.push(value);
                c = c + 1;
            }
            assert(r * self.n + self.n == (r + 1) * self.n) by (nonlinear_arith);
            r = r + 1;
        }
        d
    }
}

impl View for CscMatrix {
    type V = Map<(int, int), u64>;

    /// The stored positions, each with its value.
    open spec fn view(&self) -> Map<(int, int), u64> {
        Map::new(
            |rc: (int, int)| self.stores(rc.0, rc.1),
            |rc: (int, int)| self.nzval@[self.slot_of(rc.0, rc.1)],
        )
    }
}

/// The row held by the `j`-th slot of column `c`.
pub open spec fn row_in_column(a: CscMatrix, c: int, j: int) -> int {
    a.rowval@[a.colptr@[c] + j] as int
}

/// Two well-formed matrices with the same view agree on the first `i` rows
/// of column `c`, and the second has at least that many.
proof fn lemma_column_prefix_agrees(a: CscMatrix, b: CscMatrix, c: int, i: int)
    requires
        a.wf(),
        b.wf(),
        a.n == b.n,
        a@ == b@,
        0 <= c < a.n,
        0 <= i <= a.colptr@[c + 1] - a.colptr@[c],
    ensures
        i <= b.colptr@[c + 1] - b.colptr@[c],
        forall|j: int| 0 <= j < i ==> #[trigger] row_in_column(a, c, j) == row_in_column(b, c, j),
    decreases i,
{
    if i > 0 {
        lemma_column_prefix_agrees(a, b, c, i - 1);
        let alo = a.colptr@[c] as int;
        let ahi = a.colptr@[c + 1] as int;
        let blo = b.colptr@[c] as int;
        let bhi = b.colptr@[c + 1] as int;
        assert(rows_ascend(a.rowval@, alo, ahi));
        assert(rows_ascend(b.rowval@, blo, bhi));
        let ka = alo + i - 1;
        let r = a.rowval@[ka] as int;
        assert(a.slot_holds(ka, r, c));
        assert(a@.dom().contains((r, c)));
        assert(b@.dom().contains((r, c)));
        let kb = b.slot_of(r, c);
        assert(b.slot_holds(kb, r, c));
        if kb < blo + i - 1 {
            let j = kb - blo;
            assert(row_in_column(a, c, j) == row_in_column(b, c, j));
            assert(a.rowval@[alo + j] < a.rowval@[ka]);
            assert(false);
        }
        if kb > blo + i - 1 {
            let kb2 = blo + i - 1;
            let r2 = b.rowval@[kb2] as int;
            assert(b.rowval@[kb2] < b.rowval@[kb]);
            assert(b.slot_holds(kb2, r2, c));
            assert(b@.dom().contains((r2, c)));
            assert(a@.dom().contains((r2, c)));
            let ka2 = a.slot_of(r2, c);
            assert(a.slot_holds(ka2, r2, c));
            if ka2 > ka {
                assert(a.rowval@[ka] < a.rowval@[ka2]);
            }
            let j2 = ka2 - alo;
            assert(row_in_column(a, c, j2) == row_in_column(b, c, j2));
            assert(b.rowval@[blo + j2] < b.rowval@[kb2]);
            assert(false);
        }
        assert(row_in_column(a, c, i - 1) == row_in_column(b, c, i - 1));
    }
}

/// Two well-formed matrices with the same view store equally many entries in
/// column `c`.
proof fn lemma_columns_same_length(a: CscMatrix, b: CscMatrix, c: int)
    requires
        a.wf(),
        b.wf(),
        a.n == b.n,
        a@ == b@,
        0 <= c < a.n,
    ensures
        a.colptr@[c + 1] - a.colptr@[c] == b.colptr@[c + 1] - b.colptr@[c],
{
    let alen = a.colptr@[c + 1] - a.colptr@[c];
    let blen = b.colptr@[c + 1] - b.colptr@[c];
    assert(alen > 0) by {
        assert(a.colptr@[c] < a.colptr@[c + 1]);
    }
    assert(blen > 0) by {
        assert(b.colptr@[c] < b.colptr@[c + 1]);
    }
    assert(alen <= blen) by {
        lemma_column_prefix_agrees(a, b, c, alen);
    }
    assert(blen <= alen) by {
        lemma_column_prefix_agrees(b, a, c, blen);
    }
}

/// Two well-formed matrices with the same view have the same column
/// pointers.
proof fn lemma_pointers_agree(a: CscMatrix, b: CscMatrix, c: int)
    requires
        a.wf(),
        b.wf(),
        a.n == b.n,
        a@ == b@,
        0 <= c <= a.n,
    ensures
        a.colptr@[c] == b.colptr@[c],
    decreases c,
{
    if c > 0 {
        lemma_pointers_agree(a, b, c - 1);
        lemma_columns_same_length(a, b, c - 1);
    }
}

/// Every slot of a well-formed matrix lies in a column at or after `from`,
/// if it lies at or after the start of `from`.
proof fn lemma_column_of_slot(a: CscMatrix, k: int, from: int) -> (c: int)
    requires
        a.wf(),
        0 <= from < a.n,
        a.colptr@[from] <= k < a.rowval@.len(),
    ensures
        from <= c < a.n,
        a.colptr@[c] <= k < a.colptr@[c + 1],
    decreases a.n - from,
{
    if k < a.colptr@[from + 1] {
        from
    } else {
        lemma_column_of_slot(a, k, from + 1)
    }
}

/// The view is a faithful abstraction: two well-formed matrices with the
/// same number of columns and the same view hold the same three arrays.
pub proof fn lemma_view_determines_arrays(a: CscMatrix, b: CscMatrix)
    requires
        a.wf(),
        b.wf(),
        a.n == b.n,
        a@ == b@,
    ensures
        a.colptr@ == b.colptr@,
        a.rowval@ == b.rowval@,
        a.nzval@ == b.nzval@,
{
    assert forall|c: int| 0 <= c <= a.n implies a.colptr@[c] == b.colptr@[c] by {
        lemma_pointers_agree(a, b, c);
    }
    assert(a.colptr@ =~= b.colptr@);
    assert(a.rowval@.len() == b.rowval@.len());
    assert forall|k: int| 0 <= k < a.rowval@.len() implies a.rowval@[k] == b.rowval@[k]
        && a.nzval@[k] == b.nzval@[k] by {
        let c = lemma_column_of_slot(a, k, 0);
        let j = k - a.colptr@[c];
        lemma_column_prefix_agrees(a, b, c, j + 1);
        assert(row_in_column(a, c, j) == row_in_column(b, c, j));
        let r = a.rowval@[k] as int;
        assert(a.slot_holds(k, r, c));
        assert(b.slot_holds(k, r, c));
        a.lemma_view_at_slot(k, r, c);
        b.lemma_view_at_slot(k, r, c);
    }
    assert(a.rowval@ =~= b.rowval@);
    assert(a.nzval@ =~= b.nzval@);
}

} // verus!
