//! Grid coordinates.

use vstd::prelude::*;

verus! {

/// A cell coordinate: `row` counts downwards, `col` counts to the right.
#[derive(Debug, Clone, Copy, PartialEq, Eq, Hash, Structural)]
pub struct Position {
    pub row: usize,
    pub col: usize,
}

impl Position {
    /// The position `(row, col)`.
    #[inline]
    pub fn new(row: usize, col: usize) -> (p: Self)
        ensures
            p.row == row,
            p.col == col,
    {
        Self { row, col }
    }

    /// The row-major index of this position in a grid that is `cols` wide.
    pub open spec fn index_of(self, cols: int) -> int {
        self.row * cols + self.col
    }

    /// Row-major index `row * cols + col`.
    #[inline]
    pub fn to_index(&self, cols: usize) -> (i: usize)
        requires
            self.index_of(cols as int) <= usize::MAX,
        ensures
            i == self.index_of(cols as int),
    {
        assert(self.row * cols <= self.row * cols + self.col) by (nonlinear_arith);
        self.row * cols + self.col
    }
}


/// The row offset of the `k`-th of the eight neighbours, which are counted
/// row by row from the upper left one.
pub open spec fn row_offset(k: int) -> int {
    if k < 3 {
        -1
    } else if k < 5 {
        0
    } else {
        1
    }
}

/// The column offset of the `k`-th of the eight neighbours.
pub open spec fn col_offset(k: int) -> int {
    if k == 0 || k == 3 || k == 5 {
        -1
    } else if k == 1 || k == 6 {
        0
    } else {
        1
    }
}

impl Position {
    /// The `k`-th neighbour lies on a grid of `rows` by `cols` cells.
    pub open spec fn has_neighbor(self, rows: int, cols: int, k: int) -> bool {
        &&& 0 <= self.row + row_offset(k) < rows
        &&& 0 <= self.col + col_offset(k) < cols
    }

    /// The `k`-th neighbour.
    pub open spec fn neighbor(self, k: int) -> Position {
        Position {
            row: (self.row + row_offset(k)) as usize,
            col: (self.col + col_offset(k)) as usize,
        }
    }

    /// Those of the first `n` neighbours that lie on the grid, in order.
    pub open spec fn neighbors_upto(self, rows: int, cols: int, n: int) -> Seq<Position>
        decreases n,
    {
        if n <= 0 {
            seq![]
        } else if self.has_neighbor(rows, cols, n - 1) {
            self.neighbors_upto(rows, cols, n - 1).push(self.neighbor(n - 1))
        } else {
            self.neighbors_upto(rows, cols, n - 1)
        }
    }

    /// The Moore neighbourhood: those of the eight surrounding positions
    /// that lie on a grid of `rows` by `cols` cells, row by row.
    pub fn neighbors8(&self, rows: usize, cols: usize) -> (res: Vec<Position>)
        ensures
            res@ == self.neighbors_upto(rows as int, cols as int, 8),
    {
        let mut res: Vec<Position> = Vec::with_capacity(8);
        let mut k: u8 = 0;
        while k < 8
            invariant
                k <= 8,
                res@ == self.neighbors_upto(rows as int, cols as int, k as int),
            decreases 8 - k,
        {
            let up = k < 3;
            let down = k >= 5;
            let left = k == 0 || k == 3 || k == 5;
            let right = k == 2 || k == 4 || k == 7;
            let row_fits = if up {
                self.row > 0 && self.row - 1 < rows
            } else if down {
                self.row < usize::MAX && self.row + 1 < rows
            } else {
                self.row < rows
            };
            let col_fits = if left {
                self.col > 0 && self.col - 1 < cols
            } else if right {
                self.col < usize::MAX && self.col + 1 < cols
            } else {
                self.col < cols
            };
            assert((row_fits && col_fits) == self.has_neighbor(rows as int, cols as int, k as int));
            if row_fits && col_fits {
                let row = if up {
                    self.row - 1
                } else if down {
                    self.row + 1
                } else {
                    self.row
                };
                let col = if left {
                    self.col - 1
                } else if right {
                    self.col + 1
                } else {
                    self.col
                };
                res.push(Position::new(row, col));
            }
            k += 1;
        }
        res
    }
}

} // verus!
