//! Positions as an `agent` statement writes them: a cell `(row,col)` or a
//! rectangle of cells `(r0:r1,c0:c1)`.

use vstd::prelude::*;
use crate::model::builder::{viewed, BuildError, BuildErrorView};
use crate::model::position::Position;
use crate::utils::text::{
    text_of, find_char, find_in, plain_number, scan_number, trim_window, trimmed, unwrap_window, unwrapped,
};

verus! {

/// An inclusive rectangle of cells, as a range position names it.
#[derive(Debug, Clone, Copy, PartialEq, Eq, Structural)]
pub struct Rect {
    pub row_start: usize,
    pub row_end: usize,
    pub col_start: usize,
    pub col_end: usize,
}

/// The two sides of `s[from..to)` around its comma, each without white space
/// at its ends. There are two sides only if there is exactly one comma.
pub open spec fn halves(s: Seq<char>, from: int, to: int) -> Option<((int, int), (int, int))> {
    let comma = find_in(s, ',', from, to);
    if comma < to && find_in(s, ',', comma + 1, to) == to {
        Some((trimmed(s, from, comma), trimmed(s, comma + 1, to)))
    } else {
        None
    }
}

/// The cell that a position `(row,col)` names. Round brackets at either end
/// are dropped, then there must be two numbers around one comma.
pub open spec fn single_position(expr: Seq<char>) -> Option<Position> {
    let inner = unwrapped(expr, 0, expr.len() as int);
    match halves(expr, inner.0, inner.1) {
        Some((left, right)) => match (
            plain_number(expr.subrange(left.0, left.1)),
            plain_number(expr.subrange(right.0, right.1)),
        ) {
            (Some(row), Some(col)) => Some(Position { row, col }),
            _ => None,
        },
        None => None,
    }
}

/// The bounds that `s[from..to)` names as `start:end`. An error names that
/// side as it is written.
pub open spec fn range_part(s: Seq<char>, from: int, to: int) -> Result<
    (usize, usize),
    BuildErrorView,
> {
    let colon = find_in(s, ':', from, to);
    if colon < to && find_in(s, ':', colon + 1, to) == to {
        match (plain_number(s.subrange(from, colon)), plain_number(s.subrange(colon + 1, to))) {
            (Some(start), Some(end)) => Ok((start, end)),
            _ => Err(BuildErrorView::InvalidNumber { range: s.subrange(from, to) }),
        }
    } else {
        Err(BuildErrorView::InvalidRange { range: s.subrange(from, to) })
    }
}

/// The rectangle that a position `(r0:r1,c0:c1)` names. Round brackets at
/// either end are dropped; without exactly one comma the position names
/// nothing and is passed over.
pub open spec fn range_position(expr: Seq<char>) -> Result<Option<Rect>, BuildErrorView> {
    let inner = unwrapped(expr, 0, expr.len() as int);
    match halves(expr, inner.0, inner.1) {
        None => Ok(None),
        Some((left, right)) => match range_part(expr, left.0, left.1) {
            Err(e) => Err(e),
            Ok(rows) => match range_part(expr, right.0, right.1) {
                Err(e) => Err(e),
                Ok(cols) => Ok(
                    Some(
                        Rect {
                            row_start: rows.0,
                            row_end: rows.1,
                            col_start: cols.0,
                            col_end: cols.1,
                        },
                    ),
                ),
            },
        },
    }
}

/// A position with a colon is a range.
pub open spec fn is_range(expr: Seq<char>) -> bool {
    find_in(expr, ':', 0, expr.len() as int) < expr.len()
}

/// A position between round brackets.
pub open spec fn is_bracketed(expr: Seq<char>) -> bool {
    expr.len() > 0 && expr[0] == '(' && expr[expr.len() - 1] == ')'
}

/// Splits `chars[from..to)` at its only comma.
fn split_halves(chars: &Vec<char>, from: usize, to: usize) -> (r: Option<
    ((usize, usize), (usize, usize)),
>)
    requires
        from <= to <= chars@.len(),
    ensures
        match r {
            Some((left, right)) => {
                &&& halves(chars@, from as int, to as int) == Some(
                    ((left.0 as int, left.1 as int), (right.0 as int, right.1 as int)),
                )
                &&& from <= left.0 <= left.1 <= right.0 <= right.1 <= to
            },
            None => halves(chars@, from as int, to as int) is None,
        },
{
    let comma = find_char(chars, ',', from, to);
    if comma >= to {
        return None;
    }
    if find_char(chars, ',', comma + 1, to) != to {
        return None;
    }
    let left = trim_window(chars, from, comma);
    let right = trim_window(chars, comma + 1, to);
    Some((left, right))
}

/// Reads a position `(row,col)`.
pub fn read_single_position(chars: &Vec<char>) -> (r: Option<Position>)
    ensures
        r == single_position(chars@),
{
    let inner = unwrap_window(chars, 0, chars.len());
    match split_halves(chars, inner.0, inner.1) {
        Some((left, right)) => {
            match (scan_number(chars, left.0, left.1), scan_number(chars, right.0, right.1)) {
                (Some(row), Some(col)) => Some(Position { row, col }),
                _ => None,
            }
        },
        None => None,
    }
}

/// Reads the bounds `start:end` from `chars[from..to)`.
pub fn read_range_part(chars: &Vec<char>, from: usize, to: usize) -> (r: Result<
    (usize, usize),
    BuildError,
>)
    requires
        from <= to <= chars@.len(),
    ensures
        viewed(r) == range_part(chars@, from as int, to as int),
{
    let colon = find_char(chars, ':', from, to);
    if colon >= to {
        return Err(BuildError::InvalidRange { range: text_of(chars, from, to) });
    }
    if find_char(chars, ':', colon + 1, to) != to {
        return Err(BuildError::InvalidRange { range: text_of(chars, from, to) });
    }
    match (scan_number(chars, from, colon), scan_number(chars, colon + 1, to)) {
        (Some(start), Some(end)) => Ok((start, end)),
        _ => Err(BuildError::InvalidNumber { range: text_of(chars, from, to) }),
    }
}

/// Reads a position `(r0:r1,c0:c1)`.
pub fn read_range_position(chars: &Vec<char>) -> (r: Result<Option<Rect>, BuildError>)
    ensures
        viewed(r) == range_position(chars@),
{
    let inner = unwrap_window(chars, 0, chars.len());
    match split_halves(chars, inner.0, inner.1) {
        None => Ok(None),
        Some((left, right)) => {
            let rows = match read_range_part(chars, left.0, left.1) {
                Ok(rows) => rows,
                Err(e) => {
                    return Err(e);
                },
            };
            let cols = match read_range_part(chars, right.0, right.1) {
                Ok(cols) => cols,
                Err(e) => {
                    return Err(e);
                },
            };
            Ok(
                Some(
                    Rect {
                        row_start: rows.0,
                        row_end: rows.1,
                        col_start: cols.0,
                        col_end: cols.1,
                    },
                ),
            )
        },
    }
}

impl Rect {
    /// How many rows of the rectangle lie on a grid with `rows` rows.
    pub open spec fn height_on(self, rows: nat) -> nat {
        if self.row_start <= self.row_end && self.row_start < rows {
            if self.row_end < rows {
                (self.row_end - self.row_start + 1) as nat
            } else {
                (rows - self.row_start) as nat
            }
        } else {
            0
        }
    }

    /// How many columns of the rectangle lie on a grid with `cols` columns.
    pub open spec fn width_on(self, cols: nat) -> nat {
        if self.col_start <= self.col_end && self.col_start < cols {
            if self.col_end < cols {
                (self.col_end - self.col_start + 1) as nat
            } else {
                (cols - self.col_start) as nat
            }
        } else {
            0
        }
    }

    /// How many cells of the rectangle lie on the grid.
    pub open spec fn cells_on(self, rows: nat, cols: nat) -> nat {
        self.height_on(rows) * self.width_on(cols)
    }

    /// The `i`-th cell of the rectangle on the grid, row by row.
    pub open spec fn cell_on(self, cols: nat, i: int) -> Position {
        Position {
            row: (self.row_start + i / (self.width_on(cols) as int)) as usize,
            col: (self.col_start + i % (self.width_on(cols) as int)) as usize,
        }
    }
}

} // verus!
