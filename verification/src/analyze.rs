//! The dependency relation between the functions of one group, as a square
//! table.

use vstd::prelude::*;

verus! {

/// Whether the function of a column produces a resource that the function
/// of the row consumes.
#[derive(Debug, Clone, Copy, PartialEq, Eq, Structural)]
pub enum Relation {
    No,
    Yes,
    Unknown,
}

/// The relations among the functions of one group, held in a
/// two-dimensional `ndarray` array: row `i`, column `j` tells whether
/// function `j` feeds function `i`.
#[verifier::external_body]
pub struct RTable {
    cells: ndarray::Array2<Relation>,
}

/// The rows of a table, each with its cells in column order.
pub uninterp spec fn rtable_cells(rs: RTable) -> Seq<Seq<Relation>>;

/// Builds the array of `side` rows and `side` columns from its cells in row
/// order (`Array2::from_shape_vec`, which fails unless the cells fill that
/// shape).
#[verifier::external_body]
fn array_from_cells(side: usize, cells: Vec<Relation>) -> (rs: RTable)
    requires
        cells@.len() == side * side,
    ensures
        rtable_cells(rs).len() == side,
        forall|i: int| 0 <= i < side ==> (#[trigger] rtable_cells(rs)[i]).len() == side,
        forall|i: int, j: int|
            0 <= i < side && 0 <= j < side ==> #[trigger] rtable_cells(rs)[i][j] == cells@[i * side
                + j],
{
    RTable { cells: ndarray::Array2::from_shape_vec((side, side), cells).unwrap() }
}

/// The number of rows (`ArrayBase::nrows`).
#[verifier::external_body]
fn array_rows(rs: &RTable) -> (n: usize)
    ensures
        n == rtable_cells(*rs).len(),
{
    rs.cells.nrows()
}

/// The cells of row `index` (`ArrayBase::index_axis` along the first axis,
/// which panics past the last row), copied out in column order.
#[verifier::external_body]
fn array_row(rs: &RTable, index: usize) -> (row: Vec<Relation>)
    requires
        index < rtable_cells(*rs).len(),
    ensures
        row@ == rtable_cells(*rs)[index as int],
{
    rs.cells.index_axis(ndarray::Axis(0), index).iter().copied().collect()
}

impl View for RTable {
    type V = Seq<Seq<Relation>>;

    open spec fn view(&self) -> Seq<Seq<Relation>> {
        rtable_cells(*self)
    }
}

impl RTable {
    /// The table has as many columns as rows.
    pub open spec fn is_square(&self) -> bool {
        forall|i: int| 0 <= i < self@.len() ==> (#[trigger] self@[i]).len() == self@.len()
    }

    /// The square table of side `side` whose cells, row after row, are
    /// `cells`; nothing where `cells` does not fill the square.
    pub fn from_cells(side: usize, cells: Vec<Relation>) -> (r: Option<RTable>)
        ensures
            r is Some <==> cells@.len() == side * side,
            r matches Some(rs) ==> {
                &&& rs@.len() == side
                &&& rs.is_square()
                &&& forall|i: int, j: int|
                    0 <= i < side && 0 <= j < side ==> #[trigger] rs@[i][j] == cells@[i * side + j]
            },
    {
        let len = cells.len();
        match side.checked_mul(side) {
            Some(area) => {
                if len == area {
                    Some(array_from_cells(side, cells))
                } else {
                    None
                }
            },
            None => None,
        }
    }

    /// The number of rows.
    pub fn rows(&self) -> (n: usize)
        ensures
            n == self@.len(),
    {
        array_rows(self)
    }

    pub fn is_empty(&self) -> (b: bool)
        ensures
            b == (self@.len() == 0),
    {
        array_rows(self) == 0
    }

    /// Whether the table has as many columns as rows.
    pub fn square(&self) -> (b: bool)
        ensures
            b == self.is_square(),
    {
        let side = self.rows();
        let mut i: usize = 0;
        while i < side
            invariant
                side == self@.len(),
                0 <= i <= side,
                forall|k: int| 0 <= k < i ==> (#[trigger] self@[k]).len() == side,
            decreases side - i,
        {
            if self.row(i).len() != side {
                return false;
            }
            i += 1;
        }
        true
    }

    /// The relations of function `index` to every function, in column order.
    pub fn row(&self, index: usize) -> (row: Vec<Relation>)
        requires
            index < self@.len(),
        ensures
            row@ == self@[index as int],
    {
        array_row(self, index)
    }
}

} // verus!
