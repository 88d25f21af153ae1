use vstd::prelude::*;

verus! {

/// The dimensions of the board in cells. Slots are addressed row-major:
/// the cell `(col, row)` lives at index `col + row * columns`.
#[derive(Clone, Copy, Debug, PartialEq, Eq, Structural)]
pub struct GridSize {
    pub columns: usize,
    pub rows: usize,
}

impl GridSize {
    /// A size is well formed when both dimensions are at least one and the
    /// cell count fits in `usize`.
    pub open spec fn wf(self) -> bool {
        &&& 1 <= self.columns
        &&& 1 <= self.rows
        &&& self.columns * self.rows <= usize::MAX
    }

    /// The number of cells the board holds.
    pub open spec fn spec_capacity(self) -> int {
        (self.columns as int) * (self.rows as int)
    }

    /// The row-major slot index of the cell `(col, row)`.
    pub open spec fn spec_index_of(self, col: int, row: int) -> int {
        col + row * (self.columns as int)
    }

    pub fn new(cols: usize, rows: usize) -> (r: GridSize)
        requires
            1 <= cols,
            1 <= rows,
            cols * rows <= usize::MAX,
        ensures
            r == (GridSize { columns: cols, rows: rows }),
            r.wf(),
    {
        GridSize { columns: cols, rows: rows }
    }

    pub fn columns(&self) -> (r: usize)
        ensures
            r == self.columns,
    {
        self.columns
    }

    pub fn rows(&self) -> (r: usize)
        ensures
            r == self.rows,
    {
        self.rows
    }

    pub fn capacity(&self) -> (r: usize)
        requires
            self.wf(),
        ensures
            r == self.spec_capacity(),
    {
        self.columns * self.rows
    }

    pub fn index_of(&self, col: usize, row: usize) -> (r: usize)
        requires
            self.wf(),
            col < self.columns,
            row < self.rows,
        ensures
            r == self.spec_index_of(col as int, row as int),
            r < self.spec_capacity(),
    {
        proof {
            lemma_index_of_in_range(*self, col as int, row as int);
        }
        col + row * self.columns
    }
}

/// A valid cell's row-major index lies below the capacity.
pub proof fn lemma_index_of_in_range(s: GridSize, col: int, row: int)
    requires
        s.wf(),
        0 <= col < s.columns,
        0 <= row < s.rows,
    ensures
        0 <= s.spec_index_of(col, row) < s.spec_capacity(),
{
    assert(col + row * (s.columns as int) < (s.columns as int) * (s.rows as int)) by (nonlinear_arith)
        requires
            0 <= col < s.columns as int,
            0 <= row < s.rows as int,
    ;
}

/// Row-major indexing is injective: distinct valid cells have distinct
/// indices, so every valid cell owns a slot of its own below `capacity()`.
pub proof fn lemma_index_of_injective(s: GridSize, c1: int, r1: int, c2: int, r2: int)
    requires
        s.wf(),
        0 <= c1 < s.columns,
        0 <= r1 < s.rows,
        0 <= c2 < s.columns,
        0 <= r2 < s.rows,
    ensures
        0 <= s.spec_index_of(c1, r1) < s.spec_capacity(),
        s.spec_index_of(c1, r1) == s.spec_index_of(c2, r2) ==> c1 == c2 && r1 == r2,
{
    lemma_index_of_in_range(s, c1, r1);
    lemma_index_of_in_range(s, c2, r2);
    if s.spec_index_of(c1, r1) == s.spec_index_of(c2, r2) {
        assert(c1 + r1 * (s.columns as int) == c2 + r2 * (s.columns as int) ==> c1 == c2 && r1
            == r2) by (nonlinear_arith)
            requires
                0 <= c1 < s.columns as int,
                0 <= c2 < s.columns as int,
                0 <= r1,
                0 <= r2,
        ;
    }
}

} // verus!
