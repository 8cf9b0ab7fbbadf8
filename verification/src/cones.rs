//! The cone list: which constraint rows are equalities and which are
//! inequalities.
//!
//! A conic solver reads the rows of the constraint matrix in consecutive
//! blocks, one block per cone. Rows in a zero cone must hold with equality;
//! rows in a non-negative cone must hold with `<=`.

use vstd::prelude::*;

verus! {

/// The kinds of cone this problem uses.
#[derive(Clone, Copy, Debug, PartialEq, Eq, Structural)]
pub enum ConeKind {
    /// Rows that hold with equality.
    Zero,
    /// Rows that hold with `<=`.
    Nonnegative,
}

/// A block of `size` consecutive constraint rows of one kind.
#[derive(Clone, Copy, Debug, PartialEq, Eq, Structural)]
pub struct Cone {
    /// The kind of every row in the block.
    pub kind: ConeKind,
    /// The number of rows in the block.
    pub size: usize,
}

/// The number of equality rows: the budget and the target return.
pub const EQUALITY_ROWS: usize = 2;

/// The number of constraint rows that a cone list covers.
pub open spec fn total_rows(cones: Seq<Cone>) -> int
    decreases cones.len(),
{
    if cones.len() == 0 {
        0
    } else {
        cones[0].size + total_rows(cones.skip(1))
    }
}

/// The kind of the cone that covers constraint row `row`, if any does.
pub open spec fn kind_of_row(cones: Seq<Cone>, row: int) -> Option<ConeKind>
    decreases cones.len(),
{
    if cones.len() == 0 || row < 0 {
        None
    } else if row < cones[0].size {
        Some(cones[0].kind)
    } else {
        kind_of_row(cones.skip(1), row - cones[0].size)
    }
}

/// The cone list for `n` assets: a zero cone over the two equality rows, then
/// a non-negative cone over the `n` bound rows.
pub open spec fn cone_list(n: int) -> Seq<Cone> {
    seq![
        Cone { kind: ConeKind::Zero, size: EQUALITY_ROWS },
        Cone { kind: ConeKind::Nonnegative, size: n as usize },
    ]
}

/// Builds the cone list for `n` assets.
pub fn compose_cones(n: usize) -> (cones: Vec<Cone>)
    ensures
        cones@ == cone_list(n as int),
{
    let mut cones: Vec<Cone> = Vec::new();
    cones.push(Cone { kind: ConeKind::Zero, size: EQUALITY_ROWS });
    cones.push(Cone { kind: ConeKind::Nonnegative, size: n });
    assert(cones@ =~= cone_list(n as int));
    cones
}

/// The cone list for `n` assets covers exactly `n + 2` rows: rows 0 and 1 as
/// equalities, rows 2 to `n + 1` as inequalities, and no row beyond.
pub proof fn lemma_cone_list_covers_rows(n: usize)
    ensures
        total_rows(cone_list(n as int)) == n + 2,
        forall|row: int|
            #[trigger] kind_of_row(cone_list(n as int), row) == (if 0 <= row < 2 {
                Some(ConeKind::Zero)
            } else if 2 <= row < n + 2 {
                Some(ConeKind::Nonnegative)
            } else {
                None
            }),
{
    let cones = cone_list(n as int);
    let tail = cones.skip(1);
    let rest = tail.skip(1);
    assert(tail.len() == 1 && tail[0] == cones[1]);
    assert(rest.len() == 0);
    assert(total_rows(rest) == 0);
    assert(total_rows(tail) == n);
    assert(total_rows(cones) == n + 2);
    assert forall|row: int|
        #[trigger] kind_of_row(cones, row) == (if 0 <= row < 2 {
            Some(ConeKind::Zero)
        } else if 2 <= row < n + 2 {
            Some(ConeKind::Nonnegative)
        } else {
            None
        }) by {
        assert(kind_of_row(rest, row - 2 - n) == None::<ConeKind>);
        assert(kind_of_row(tail, row - 2) == (if 0 <= row - 2 < n {
            Some(ConeKind::Nonnegative)
        } else {
            None
        }));
    }
}

} // verus!
