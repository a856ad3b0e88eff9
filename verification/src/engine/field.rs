//! Fields: grid-wide buffers that agents emit into.
//!
//! A source of strength `value` in a field with decay `step` gives a cell at
//! Chebyshev distance `d` the amount `value - d * step`, as far as that is
//! positive and `d` is no more than `value / step` rounded up. Amounts from
//! several sources add up; a cell never holds more than `i32::MAX`.

use vstd::prelude::*;
use vstd::arithmetic::div_mod::{lemma_fundamental_div_mod, lemma_fundamental_div_mod_converse};
use crate::dsl::ast::FieldDefView;
use crate::model::position::Position;
use crate::model::world::lemma_index_in_grid;
use crate::utils::num::{clamp_i32, saturating_sum};

verus! {

/// The declaration of a field: its name and what a source loses per cell of
/// distance.
#[derive(Debug, Clone)]
pub struct FieldDef {
    pub name: String,
    pub step: i32,
}

impl DeepView for FieldDef {
    type V = FieldDefView;

    open spec fn deep_view(&self) -> FieldDefView {
        FieldDefView { name: self.name@, step: self.step }
    }
}

/// The values of one field on a grid of `rows` by `cols` cells, in row-major
/// order.
#[derive(Debug, Clone)]
pub struct Field {
    pub def: FieldDef,
    pub values: Vec<i32>,
    pub rows: usize,
    pub cols: usize,
}

/// The mathematical value of a [`Field`].
pub struct FieldView {
    pub name: Seq<char>,
    pub step: i32,
    pub values: Seq<i32>,
    pub rows: nat,
    pub cols: nat,
}

impl DeepView for Field {
    type V = FieldView;

    open spec fn deep_view(&self) -> FieldView {
        FieldView {
            name: self.def.name@,
            step: self.def.step,
            values: self.values@,
            rows: self.rows as nat,
            cols: self.cols as nat,
        }
    }
}

/// How far apart two coordinates are.
pub open spec fn apart(a: int, b: int) -> int {
    if a >= b {
        a - b
    } else {
        b - a
    }
}

/// The Chebyshev distance of two positions: the larger of the row distance
/// and the column distance.
pub open spec fn distance(a: Position, b: Position) -> int {
    let dr = apart(a.row as int, b.row as int);
    let dc = apart(a.col as int, b.col as int);
    if dr >= dc {
        dr
    } else {
        dc
    }
}

/// `value / step` rounded up, for a step that is not zero.
pub open spec fn reach(value: int, step: int) -> int
    recommends
        step != 0,
{
    if step > 0 {
        (value + step - 1) / step
    } else {
        -(value / (-step))
    }
}

/// What a source of strength `value` adds to a cell at distance `d` in a
/// field with decay `step`. With no decay every cell is within reach.
pub open spec fn contribution(value: int, step: int, d: int) -> int {
    if value > 0 && (step == 0 || d <= reach(value, step)) && value - d * step > 0 {
        value - d * step
    } else {
        0
    }
}

/// The position of the cell with index `i` on a grid that is `cols` wide.
pub open spec fn cell_at(i: int, cols: int) -> Position {
    Position { row: (i / cols) as usize, col: (i % cols) as usize }
}

impl FieldView {
    /// The buffer has exactly `rows * cols` values.
    pub open spec fn wf(self) -> bool {
        self.values.len() == self.rows * self.cols
    }

    /// `pos` lies on the grid.
    pub open spec fn in_bounds(self, pos: Position) -> bool {
        pos.row < self.rows && pos.col < self.cols
    }

    /// The value at `pos`.
    pub open spec fn value_at(self, pos: Position) -> i32
        recommends
            self.in_bounds(pos),
    {
        self.values[pos.index_of(self.cols as int)]
    }

    /// A new field: every value is zero.
    pub open spec fn fresh(def: FieldDefView, rows: nat, cols: nat) -> FieldView {
        FieldView {
            name: def.name,
            step: def.step,
            values: Seq::new(rows * cols, |i: int| 0i32),
            rows,
            cols,
        }
    }

    /// The field with every value set to zero.
    pub open spec fn cleared(self) -> FieldView {
        FieldView { values: Seq::new(self.values.len(), |i: int| 0i32), ..self }
    }

    /// The field after a source of strength `value` at `pos` has been added:
    /// every cell gains the contribution for its distance from `pos`, up to
    /// the limit of `i32`.
    pub open spec fn with_source(self, pos: Position, value: i32) -> FieldView {
        FieldView {
            values: Seq::new(
                self.values.len(),
                |i: int|
                    clamp_i32(
                        self.values[i] + contribution(
                            value as int,
                            self.step as int,
                            distance(pos, cell_at(i, self.cols as int)),
                        ),
                    ),
            ),
            ..self
        }
    }
}

/// How a contribution falls off with distance.
///
/// A source that is not positive contributes nothing. With a positive step, a
/// positive source contributes `value` at distance 0, `value - step` at
/// distance 1, `value - 2 * step` at distance 2 and so on while that is
/// positive, and nothing from there on; in particular nothing beyond
/// `value / step` rounded up. Without decay it contributes `value`
/// everywhere. With a negative step it contributes `value` to its own cell if
/// `value` is below the step's size, and nothing else.
pub proof fn lemma_contribution(value: int, step: int, d: int)
    requires
        d >= 0,
    ensures
        value <= 0 ==> contribution(value, step, d) == 0,
        value > 0 ==> contribution(value, step, 0) == value || step < 0,
        value > 0 && step > 0 ==> contribution(value, step, d) == if value - d * step > 0 {
            value - d * step
        } else {
            0
        },
        value > 0 && step > 0 && d > reach(value, step) ==> contribution(value, step, d) == 0,
        value > 0 && step > 0 ==> (value - d * step > 0 <==> d <= (value - 1) / step),
        value > 0 && step == 0 ==> contribution(value, step, d) == value,
        value > 0 && step < 0 ==> contribution(value, step, d) == if d == 0 && value < -step {
            value
        } else {
            0
        },
        0 <= contribution(value, step, d) <= if value > 0 {
            value
        } else {
            0
        },
{
    if value > 0 && step > 0 {
        let q = (value - 1) / step;
        lemma_fundamental_div_mod(value - 1, step);
        assert((value - 1) == step * q + (value - 1) % step);
        assert(0 <= (value - 1) % step < step);
        assert(reach(value, step) == q + 1) by {
            assert(value + step - 1 == (q + 1) * step + (value - 1) % step) by (nonlinear_arith)
                requires
                    (value - 1) == step * q + (value - 1) % step,
            ;
            lemma_fundamental_div_mod_converse(
                value + step - 1,
                step,
                q + 1,
                (value - 1) % step,
            );
        }
        if d <= q {
            assert(d * step <= q * step) by (nonlinear_arith)
                requires
                    0 <= d <= q,
                    step > 0,
            ;
            assert(q * step == step * q) by (nonlinear_arith);
        } else {
            assert(d * step >= (q + 1) * step) by (nonlinear_arith)
                requires
                    d >= q + 1,
                    step > 0,
            ;
            assert((q + 1) * step == step * q + step) by (nonlinear_arith);
        }
        assert(d * step >= 0) by (nonlinear_arith)
            requires
                d >= 0,
                step > 0,
        ;
    } else if value > 0 && step < 0 {
        let q = value / (-step);
        lemma_fundamental_div_mod(value, -step);
        assert(value == (-step) * q + value % (-step));
        assert(0 <= value % (-step) < -step);
        if value < -step {
            assert(q == 0) by {
                assert(value == 0 * (-step) + value) by (nonlinear_arith);
                lemma_fundamental_div_mod_converse(value, -step, 0, value);
            }
        } else {
            assert(q >= 1) by (nonlinear_arith)
                requires
                    value == (-step) * q + value % (-step),
                    0 <= value % (-step) < -step,
                    value >= -step,
                    step < 0,
            ;
        }
        assert(q >= 0) by (nonlinear_arith)
            requires
                value == (-step) * q + value % (-step),
                0 <= value % (-step) < -step,
                value > 0,
                step < 0,
        ;
        if d > 0 {
            assert(d * step < 0) by (nonlinear_arith)
                requires
                    d > 0,
                    step < 0,
            ;
        }
    } else if value > 0 {
        assert(d * step == 0) by (nonlinear_arith)
            requires
                step == 0,
        ;
    }
}


/// After a clear, a source leaves in every cell exactly its contribution for
/// that cell, whatever the field held before; so clearing and adding the same
/// source again gives the same buffer again.
pub proof fn lemma_clear_then_add(f: FieldView, pos: Position, value: i32)
    ensures
        forall|i: int|
            0 <= i < f.values.len() ==> #[trigger] f.cleared().with_source(pos, value).values[i]
                == contribution(
                value as int,
                f.step as int,
                distance(pos, cell_at(i, f.cols as int)),
            ),
        f.with_source(pos, value).cleared().with_source(pos, value) == f.cleared().with_source(
            pos,
            value,
        ),
{
    assert forall|i: int| 0 <= i < f.values.len() implies #[trigger] f.cleared().with_source(
        pos,
        value,
    ).values[i] == contribution(
        value as int,
        f.step as int,
        distance(pos, cell_at(i, f.cols as int)),
    ) by {
        lemma_contribution(value as int, f.step as int, distance(pos, cell_at(i, f.cols as int)));
    }
    assert(f.with_source(pos, value).cleared().values =~= f.cleared().values);
}

/// On a grid of `rows` by `cols` cells, the cell with index `i` lies on the
/// grid and has the index `i`.
pub proof fn lemma_cell_at(rows: nat, cols: nat, i: int)
    requires
        0 <= i < rows * cols,
        i <= usize::MAX,
    ensures
        cell_at(i, cols as int).row < rows,
        cell_at(i, cols as int).col < cols,
        cell_at(i, cols as int).index_of(cols as int) == i,
{
    let n = cols as int;
    assert(n > 0) by (nonlinear_arith)
        requires
            0 <= i < rows * n,
            n >= 0,
    ;
    lemma_fundamental_div_mod(i, n);
    let q = i / n;
    let r = i % n;
    assert(0 <= r < n);
    assert(0 <= q < rows) by (nonlinear_arith)
        requires
            i == n * q + r,
            0 <= r < n,
            0 <= i < rows * n,
    ;
    assert(q * n == n * q) by (nonlinear_arith);
}

/// The cells that `add_source` has written when it stands at row `r` and
/// column `c` of its window.
spec fn touched(p: Position, lo_r: int, lo_c: int, hi_c: int, r: int, c: int) -> bool {
    lo_c <= p.col < hi_c && (lo_r <= p.row < r || (p.row == r && p.col < c))
}

/// `now` is `before` with the source added in the touched cells only.
spec fn partly_added(
    before: Seq<i32>,
    now: Seq<i32>,
    cols: int,
    step: int,
    pos: Position,
    value: int,
    lo_r: int,
    lo_c: int,
    hi_c: int,
    r: int,
    c: int,
) -> bool {
    &&& now.len() == before.len()
    &&& forall|i: int|
        0 <= i < now.len() ==> #[trigger] now[i] == if touched(
            cell_at(i, cols),
            lo_r,
            lo_c,
            hi_c,
            r,
            c,
        ) {
            clamp_i32(before[i] + contribution(value, step, distance(pos, cell_at(i, cols))))
        } else {
            before[i]
        }
}

fn gap(a: usize, b: usize) -> (d: usize)
    ensures
        d == apart(a as int, b as int),
{
    if a >= b {
        a - b
    } else {
        b - a
    }
}

impl Field {
    /// The buffer has exactly `rows * cols` values.
    pub open spec fn wf(&self) -> bool {
        self.deep_view().wf()
    }

    /// A field of zeros on a grid of `rows` by `cols` cells.
    pub fn new(def: FieldDef, rows: usize, cols: usize) -> (field: Self)
        requires
            rows * cols <= usize::MAX,
        ensures
            field.deep_view() == FieldView::fresh(def.deep_view(), rows as nat, cols as nat),
            field.wf(),
    {
        let field = Self { def, values: vec![0; rows * cols], rows, cols };
        assert(field.values@ =~= Seq::new((rows * cols) as nat, |i: int| 0i32));
        field
    }

    #[inline]
    fn idx(&self, pos: Position) -> (i: usize)
        requires
            self.wf(),
            self.deep_view().in_bounds(pos),
        ensures
            i == pos.index_of(self.cols as int),
            i < self.values@.len(),
    {
        let cells = self.values.len();
        proof {
            lemma_index_in_grid(self.rows as nat, self.cols as nat, pos);
        }
        pos.to_index(self.cols)
    }

    /// Sets every value to zero.
    pub fn clear(&mut self)
        ensures
            final(self).deep_view() == old(self).deep_view().cleared(),
    {
        let mut i: usize = 0;
        while i < self.values.len()
            invariant
                i <= self.values@.len(),
                self.values@.len() == old(self).values@.len(),
                self.def == old(self).def,
                self.rows == old(self).rows,
                self.cols == old(self).cols,
                forall|k: int| 0 <= k < i ==> self.values@[k] == 0,
            decreases self.values@.len() - i,
        {
            self.values[i] = 0;
            i += 1;
        }
        assert(self.values@ =~= old(self).deep_view().cleared().values);
    }

    /// Adds a source of strength `var_value` at `pos`. A source that is not
    /// positive adds nothing. `pos` need not lie on the grid.
    pub fn add_source(&mut self, pos: Position, var_value: i32)
        requires
            old(self).wf(),
        ensures
            final(self).deep_view() == old(self).deep_view().with_source(pos, var_value),
            final(self).wf(),
    {
        let ghost before = self.values@;
        let ghost target = old(self).deep_view().with_source(pos, var_value);
        let step = self.def.step;
        let rows = self.rows;
        let cols = self.cols;
        let cells = self.values.len();
        // The farthest distance that receives anything.
        let mut radius: usize = 0;
        let mut nothing = var_value <= 0 || rows == 0 || cols == 0;
        if !nothing {
            if step > 0 {
                radius = ((var_value - 1) / step) as usize;
            } else if step == 0 {
                radius = usize::MAX;
            } else if var_value as i64 >= -(step as i64) {
                nothing = true;
            }
        }
        if nothing {
            assert(self.values@ =~= target.values) by {
                if rows == 0 || cols == 0 {
                    assert(rows * cols == 0) by (nonlinear_arith)
                        requires
                            rows == 0 || cols == 0,
                    ;
                }
                assert forall|i: int| 0 <= i < before.len() implies before[i]
                    == #[trigger] target.values[i] by {
                    let d = distance(pos, cell_at(i, cols as int));
                    lemma_contribution(var_value as int, step as int, d);
                    assert(contribution(var_value as int, step as int, d) == 0);
                }
            }
            return ;
        }
        let lo_r: usize = if pos.row > radius {
            pos.row - radius
        } else {
            0
        };
        let hi_r: usize = if pos.row < rows && radius < rows - pos.row {
            pos.row + radius + 1
        } else {
            rows
        };
        let lo_c: usize = if pos.col > radius {
            pos.col - radius
        } else {
            0
        };
        let hi_c: usize = if pos.col < cols && radius < cols - pos.col {
            pos.col + radius + 1
        } else {
            cols
        };
        let mut r: usize = lo_r;
        while r < hi_r
            invariant
                lo_r <= r,
                hi_r <= rows,
                hi_c <= cols,
                lo_r <= hi_r ==> r <= hi_r,
                self.rows == rows,
                self.cols == cols,
                self.def == old(self).def,
                old(self).def.step == step,
                var_value > 0,
                before.len() == rows * cols,
                before.len() == cells,
                step > 0 ==> radius == (var_value - 1) / (step as int),
                step < 0 ==> radius == 0 && var_value < -step,
                forall|x: int|
                    0 <= x < rows ==> (lo_r <= x < hi_r <==> #[trigger] apart(x, pos.row as int)
                        <= radius),
                forall|x: int|
                    0 <= x < cols ==> (lo_c <= x < hi_c <==> #[trigger] apart(x, pos.col as int)
                        <= radius),
                partly_added(
                    before,
                    self.values@,
                    cols as int,
                    step as int,
                    pos,
                    var_value as int,
                    lo_r as int,
                    lo_c as int,
                    hi_c as int,
                    r as int,
                    lo_c as int,
                ),
            decreases hi_r - r,
        {
            let mut c: usize = lo_c;
            while c < hi_c
                invariant
                    lo_r <= r < hi_r <= rows,
                    lo_c <= c,
                    hi_c <= cols,
                    lo_c <= hi_c ==> c <= hi_c,
                    self.rows == rows,
                    self.cols == cols,
                    self.def == old(self).def,
                    old(self).def.step == step,
                    var_value > 0,
                    before.len() == rows * cols,
                    before.len() == cells,
                    step > 0 ==> radius == (var_value - 1) / (step as int),
                    step < 0 ==> radius == 0 && var_value < -step,
                    forall|x: int|
                        0 <= x < rows ==> (lo_r <= x < hi_r <==> #[trigger] apart(
                            x,
                            pos.row as int,
                        ) <= radius),
                    forall|x: int|
                        0 <= x < cols ==> (lo_c <= x < hi_c <==> #[trigger] apart(
                            x,
                            pos.col as int,
                        ) <= radius),
                    partly_added(
                        before,
                        self.values@,
                        cols as int,
                        step as int,
                        pos,
                        var_value as int,
                        lo_r as int,
                        lo_c as int,
                        hi_c as int,
                        r as int,
                        c as int,
                    ),
                decreases hi_c - c,
            {
                let here = Position { row: r, col: c };
                let dr = gap(r, pos.row);
                let dc = gap(c, pos.col);
                let d: usize = if dr >= dc {
                    dr
                } else {
                    dc
                };
                assert(d == distance(pos, here));
                assert(d <= radius);
                proof {
                    lemma_contribution(var_value as int, step as int, d as int);
                    lemma_index_in_grid(rows as nat, cols as nat, here);
                    if step > 0 {
                        assert(d * step >= 0) by (nonlinear_arith)
                            requires
                                d >= 0,
                                step > 0,
                        ;
                        assert(d <= d * step) by (nonlinear_arith)
                            requires
                                d >= 0,
                                step >= 1,
                        ;
                    }
                }
                let amount: i32 = if step > 0 {
                    var_value - (d as i32) * step
                } else {
                    var_value
                };
                assert(amount == contribution(var_value as int, step as int, d as int));
                let i = r * cols + c;
                let ghost prev = self.values@;
                assert(cell_at(i as int, cols as int) == here);
                assert(!touched(here, lo_r as int, lo_c as int, hi_c as int, r as int, c as int));
                let sum = saturating_sum(self.values[i], amount);
                self.values[i] = sum;
                proof {
                    assert forall|j: int| 0 <= j < self.values@.len() implies (
                    #[trigger] self.values@[j]) == if touched(
                        cell_at(j, cols as int),
                        lo_r as int,
                        lo_c as int,
                        hi_c as int,
                        r as int,
                        c + 1,
                    ) {
                        clamp_i32(
                            before[j] + contribution(
                                var_value as int,
                                step as int,
                                distance(pos, cell_at(j, cols as int)),
                            ),
                        )
                    } else {
                        before[j]
                    } by {
                        lemma_cell_at(rows as nat, cols as nat, j);
                        if j != i {
                            assert(self.values@[j] == prev[j]);
                            assert(cell_at(j, cols as int) != here);
                        }
                    }
                }
                c += 1;
            }
            proof {
                assert forall|j: int| 0 <= j < self.values@.len() implies touched(
                    cell_at(j, cols as int),
                    lo_r as int,
                    lo_c as int,
                    hi_c as int,
                    r as int,
                    c as int,
                ) == touched(
                    cell_at(j, cols as int),
                    lo_r as int,
                    lo_c as int,
                    hi_c as int,
                    r + 1,
                    lo_c as int,
                ) by {}
            }
            r += 1;
        }
        assert(self.values@ =~= target.values) by {
            assert forall|i: int| 0 <= i < before.len() implies self.values@[i]
                == #[trigger] target.values[i] by {
                lemma_cell_at(rows as nat, cols as nat, i);
                let p = cell_at(i, cols as int);
                let d = distance(pos, p);
                lemma_contribution(var_value as int, step as int, d);
                if !touched(p, lo_r as int, lo_c as int, hi_c as int, r as int, lo_c as int) {
                    assert(d > radius);
                    if step > 0 {
                        assert(d > (var_value - 1) / (step as int));
                    }
                }
            }
        }
    }

    /// The value at `pos`.
    pub fn get(&self, pos: Position) -> (value: i32)
        requires
            self.wf(),
            self.deep_view().in_bounds(pos),
        ensures
            value == self.deep_view().value_at(pos),
    {
        self.values[self.idx(pos)]
    }
}

} // verus!
