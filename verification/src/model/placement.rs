//! Placing agents: which species a pattern names, which cells a position
//! names, and what the builder holds afterwards.
//!
//! A range fills every cell of its rectangle, unless the pattern is sparse:
//! then each cell is filled by chance. The contracts speak of the draws that
//! were made: whatever they were, the outcome is the one they give.

use vstd::prelude::*;
use vstd::string::*;
use vstd::arithmetic::div_mod::lemma_fundamental_div_mod_converse;
use crate::dsl::ast::{AgentDefView, ConfigAst};
use crate::model::builder::{
    entry_of, viewed, BuildError, BuildErrorView, BuilderView, SpeciesEntryView, WorldBuilder,
};
use crate::model::position::Position;
use crate::model::notation::{
    is_bracketed, is_range, range_part, range_position, read_range_part, read_range_position,
    read_single_position, single_position, Rect,
};
use crate::utils::chance::random_below;
use crate::utils::text::{
    chars_of, contains, contains_text, find_char, find_in, lemma_find_in_bounds, trim_window,
    trimmed, unwrap_window, unwrapped,
};

verus! {

/// Out of a hundred draws, how many place an agent of a sparse pattern.
pub const PLACE_PERCENT: u32 = 30;

/// The index of the first entry from `from` on whose name stands somewhere
/// in `pattern`.
pub open spec fn within_from(table: Seq<SpeciesEntryView>, pattern: Seq<char>, from: int) -> Option<
    int,
>
    decreases table.len() - from,
{
    if from < 0 || from >= table.len() {
        None
    } else if contains_text(pattern, table[from].name) {
        Some(from)
    } else {
        within_from(table, pattern, from + 1)
    }
}

/// The species that a pattern names: the one whose name is the pattern, or
/// else the first declared one whose name stands somewhere in the pattern.
pub open spec fn resolve(table: Seq<SpeciesEntryView>, pattern: Seq<char>) -> Option<int> {
    match entry_of(table, pattern) {
        Some(k) => Some(k),
        None => within_from(table, pattern, 0),
    }
}

/// A sparse pattern is one in which `void` stands.
pub open spec fn is_sparse(pattern: Seq<char>) -> bool {
    contains_text(pattern, "void"@)
}

/// Whether a cell of a range receives an agent: always for a pattern that is
/// not sparse, and for a sparse one when the draw is below
/// [`PLACE_PERCENT`].
pub open spec fn should_place(sparse: bool, draw: u32) -> bool {
    !sparse || draw < PLACE_PERCENT
}

/// Every draw is below one hundred.
pub open spec fn percents(draws: Seq<u32>) -> bool {
    forall|i: int| 0 <= i < draws.len() ==> #[trigger] draws[i] < 100
}

/// Every sequence of draws holds draws below one hundred only.
pub open spec fn all_percents(chunks: Seq<Seq<u32>>) -> bool {
    forall|j: int| 0 <= j < chunks.len() ==> percents(#[trigger] chunks[j])
}

/// `draws` has one sequence of draws below one hundred for every position of
/// every statement.
pub open spec fn draws_fit(defs: Seq<AgentDefView>, draws: Seq<Seq<Seq<u32>>>) -> bool {
    &&& draws.len() == defs.len()
    &&& forall|i: int|
        0 <= i < defs.len() ==> (#[trigger] draws[i]).len() == defs[i].positions.len()
    &&& forall|i: int| 0 <= i < defs.len() ==> all_percents(#[trigger] draws[i])
}

/// `r` and the builder `after` it are the outcome `expected`.
pub open spec fn outcome(
    r: Result<(), BuildError>,
    after: BuilderView,
    expected: Result<BuilderView, BuildErrorView>,
) -> bool {
    match r {
        Ok(()) => expected == Ok::<BuilderView, BuildErrorView>(after),
        Err(e) => expected == Err::<BuilderView, BuildErrorView>(e.deep_view()),
    }
}

/// Some part of `s[from..to)` between commas is `name`, once white space
/// at its ends is dropped.
pub open spec fn part_names(s: Seq<char>, from: int, to: int, name: Seq<char>) -> bool
    decreases to - from,
    via part_names_decreases
{
    if from > to {
        false
    } else {
        let comma = find_in(s, ',', from, to);
        let part = trimmed(s, from, comma);
        s.subrange(part.0, part.1) == name || (comma < to && part_names(s, comma + 1, to, name))
    }
}

#[via_fn]
proof fn part_names_decreases(s: Seq<char>, from: int, to: int, name: Seq<char>) {
    if from <= to {
        lemma_find_in_bounds(s, ',', from, to);
    }
}

/// The pattern lists `name`: round brackets at either end are dropped, and
/// what is left is a list of names between commas.
pub open spec fn pattern_names(pattern: Seq<char>, name: Seq<char>) -> bool {
    let inner = unwrapped(pattern, 0, pattern.len() as int);
    part_names(pattern, inner.0, inner.1, name)
}

impl BuilderView {
    /// The builder after the first `n` cells of `rect` on the grid have been
    /// visited: a cell receives an agent of the species of entry `k` if its
    /// draw says so.
    pub open spec fn cells_placed(self, k: int, sparse: bool, rect: Rect, draws: Seq<u32>, n: int) -> BuilderView
        decreases n,
    {
        if n <= 0 {
            self
        } else {
            let before = self.cells_placed(k, sparse, rect, draws, n - 1);
            if should_place(sparse, draws[n - 1]) {
                before.with_agent(k, rect.cell_on(self.world.cols, n - 1))
            } else {
                before
            }
        }
    }

    /// The builder after a range position. Every cell of `rect` on the grid
    /// is visited, row by row, with one draw each. If the pattern names no
    /// species this is an error as soon as a cell is to receive an agent.
    pub open spec fn range_placed(self, pattern: Seq<char>, rect: Rect, draws: Seq<u32>) -> Result<
        BuilderView,
        BuildErrorView,
    > {
        let cells = rect.cells_on(self.world.rows, self.world.cols) as int;
        let sparse = is_sparse(pattern);
        match resolve(self.species, pattern) {
            Some(k) => Ok(self.cells_placed(k, sparse, rect, draws, cells)),
            None => if exists|i: int| 0 <= i < cells && should_place(sparse, #[trigger] draws[i]) {
                Err(BuildErrorView::UnknownSpecies { pattern })
            } else {
                Ok(self)
            },
        }
    }

    /// The builder after a single position: one agent at the cell, if the
    /// position names a cell of the grid.
    pub open spec fn single_placed(self, pattern: Seq<char>, expr: Seq<char>) -> Result<
        BuilderView,
        BuildErrorView,
    > {
        match single_position(expr) {
            Some(pos) => if self.world.in_bounds(pos) {
                match resolve(self.species, pattern) {
                    Some(k) => Ok(self.with_agent(k, pos)),
                    None => Err(BuildErrorView::UnknownSpecies { pattern }),
                }
            } else {
                Ok(self)
            },
            None => Ok(self),
        }
    }

    /// The builder after one position of an `agent` statement: a range if it
    /// has a colon, else a single position if it stands in round brackets,
    /// else nothing.
    pub open spec fn position_placed(self, pattern: Seq<char>, expr: Seq<char>, draws: Seq<u32>) -> Result<
        BuilderView,
        BuildErrorView,
    > {
        if is_range(expr) {
            match range_position(expr) {
                Err(e) => Err(e),
                Ok(None) => Ok(self),
                Ok(Some(rect)) => self.range_placed(pattern, rect, draws),
            }
        } else if is_bracketed(expr) {
            self.single_placed(pattern, expr)
        } else {
            Ok(self)
        }
    }

    /// The builder after the first `n` positions of an `agent` statement;
    /// `draws[j]` are the draws for position `j`. The first error ends it.
    pub open spec fn positions_placed(
        self,
        pattern: Seq<char>,
        exprs: Seq<Seq<char>>,
        draws: Seq<Seq<u32>>,
        n: int,
    ) -> Result<BuilderView, BuildErrorView>
        decreases n,
    {
        if n <= 0 {
            Ok(self)
        } else {
            match self.positions_placed(pattern, exprs, draws, n - 1) {
                Err(e) => Err(e),
                Ok(before) => before.position_placed(pattern, exprs[n - 1], draws[n - 1]),
            }
        }
    }

    /// The builder after the first `n` `agent` statements; `draws[i][j]` are
    /// the draws for position `j` of statement `i`. The first error ends it.
    pub open spec fn agents_placed(
        self,
        defs: Seq<AgentDefView>,
        draws: Seq<Seq<Seq<u32>>>,
        n: int,
    ) -> Result<BuilderView, BuildErrorView>
        decreases n,
    {
        if n <= 0 {
            Ok(self)
        } else {
            match self.agents_placed(defs, draws, n - 1) {
                Err(e) => Err(e),
                Ok(before) => before.positions_placed(
                    defs[n - 1].species_pattern,
                    defs[n - 1].positions,
                    draws[n - 1],
                    defs[n - 1].positions.len() as int,
                ),
            }
        }
    }

    /// The builder after agents of the species `name` were added on every
    /// cell of `rect` on the grid, provided that `pattern` lists `name`.
    pub open spec fn pattern_placed(self, name: Seq<char>, pattern: Seq<char>, rect: Rect) -> Result<
        BuilderView,
        BuildErrorView,
    > {
        let cells = rect.cells_on(self.world.rows, self.world.cols) as int;
        if pattern_names(pattern, name) && cells > 0 {
            match entry_of(self.species, name) {
                Some(k) => Ok(self.cells_placed(k, false, rect, seq![], cells)),
                None => Err(BuildErrorView::SpeciesNotFound { name }),
            }
        } else {
            Ok(self)
        }
    }
}

/// What is placed on the first `n` cells depends on the first `n` draws only.
pub proof fn lemma_cells_placed_draws(
    b: BuilderView,
    k: int,
    sparse: bool,
    rect: Rect,
    d1: Seq<u32>,
    d2: Seq<u32>,
    n: int,
)
    requires
        forall|i: int| 0 <= i < n ==> should_place(sparse, d1[i]) == should_place(sparse, d2[i]),
    ensures
        b.cells_placed(k, sparse, rect, d1, n) == b.cells_placed(k, sparse, rect, d2, n),
    decreases n,
{
    if n > 0 {
        lemma_cells_placed_draws(b, k, sparse, rect, d1, d2, n - 1);
    }
}

/// Whether some part of `chars[from..to)` between commas is `name`.
fn lists_name(chars: &Vec<char>, from: usize, to: usize, name: &str) -> (r: bool)
    requires
        from <= to <= chars@.len(),
    ensures
        r == part_names(chars@, from as int, to as int, name@),
{
    let wanted = chars_of(name);
    let mut start: usize = from;
    loop
        invariant
            from <= start <= to <= chars@.len(),
            wanted@ == name@,
            part_names(chars@, from as int, to as int, name@) == part_names(
                chars@,
                start as int,
                to as int,
                name@,
            ),
        decreases to - start,
    {
        let comma = find_char(chars, ',', start, to);
        let part = trim_window(chars, start, comma);
        if same_text(chars, part.0, part.1, &wanted) {
            return true;
        }
        if comma >= to {
            return false;
        }
        start = comma + 1;
    }
}

/// Whether `chars[from..to)` is the text `other`.
fn same_text(chars: &Vec<char>, from: usize, to: usize, other: &Vec<char>) -> (r: bool)
    requires
        from <= to <= chars@.len(),
    ensures
        r == (chars@.subrange(from as int, to as int) == other@),
{
    if to - from != other.len() {
        return false;
    }
    let mut i: usize = 0;
    while i < other.len()
        invariant
            i <= other@.len(),
            to - from == other@.len(),
            from <= to <= chars@.len(),
            forall|j: int| 0 <= j < i ==> chars@[from + j] == other@[j],
        decreases other@.len() - i,
    {
        if chars[from + i] != other[i] {
            assert(chars@.subrange(from as int, to as int)[i as int] != other@[i as int]);
            return false;
        }
        i += 1;
    }
    assert(chars@.subrange(from as int, to as int) =~= other@);
    true
}

/// What is placed by the first `n` positions depends on their draws only.
pub proof fn lemma_positions_placed_draws(
    b: BuilderView,
    pattern: Seq<char>,
    exprs: Seq<Seq<char>>,
    d1: Seq<Seq<u32>>,
    d2: Seq<Seq<u32>>,
    n: int,
)
    requires
        forall|j: int| 0 <= j < n ==> d1[j] == d2[j],
    ensures
        b.positions_placed(pattern, exprs, d1, n) == b.positions_placed(pattern, exprs, d2, n),
    decreases n,
{
    if n > 0 {
        lemma_positions_placed_draws(b, pattern, exprs, d1, d2, n - 1);
    }
}

/// What is placed by the first `n` statements depends on their draws only.
pub proof fn lemma_agents_placed_draws(
    b: BuilderView,
    defs: Seq<AgentDefView>,
    d1: Seq<Seq<Seq<u32>>>,
    d2: Seq<Seq<Seq<u32>>>,
    n: int,
)
    requires
        forall|i: int| 0 <= i < n ==> d1[i] == d2[i],
    ensures
        b.agents_placed(defs, d1, n) == b.agents_placed(defs, d2, n),
    decreases n,
{
    if n > 0 {
        lemma_agents_placed_draws(b, defs, d1, d2, n - 1);
    }
}

/// Once a position has failed, the error stands whatever follows.
pub proof fn lemma_positions_placed_error(
    b: BuilderView,
    pattern: Seq<char>,
    exprs: Seq<Seq<char>>,
    draws: Seq<Seq<u32>>,
    n: int,
    m: int,
)
    requires
        n <= m,
        b.positions_placed(pattern, exprs, draws, n) is Err,
    ensures
        b.positions_placed(pattern, exprs, draws, m) == b.positions_placed(
            pattern,
            exprs,
            draws,
            n,
        ),
    decreases m - n,
{
    if n < m {
        lemma_positions_placed_error(b, pattern, exprs, draws, n, m - 1);
    }
}

/// Once a statement has failed, the error stands whatever follows.
pub proof fn lemma_agents_placed_error(
    b: BuilderView,
    defs: Seq<AgentDefView>,
    draws: Seq<Seq<Seq<u32>>>,
    n: int,
    m: int,
)
    requires
        n <= m,
        b.agents_placed(defs, draws, n) is Err,
    ensures
        b.agents_placed(defs, draws, m) == b.agents_placed(defs, draws, n),
    decreases m - n,
{
    if n < m {
        lemma_agents_placed_error(b, defs, draws, n, m - 1);
    }
}

/// The draws made up to a failed position, filled up with empty draws for
/// the positions that were never reached, give the same error.
pub proof fn lemma_fill_positions(
    b: BuilderView,
    pattern: Seq<char>,
    exprs: Seq<Seq<char>>,
    made: Seq<Seq<u32>>,
) -> (filled: Seq<Seq<u32>>)
    requires
        made.len() <= exprs.len(),
        b.positions_placed(pattern, exprs, made, made.len() as int) is Err,
        all_percents(made),
    ensures
        filled.len() == exprs.len(),
        all_percents(filled),
        b.positions_placed(pattern, exprs, filled, exprs.len() as int) == b.positions_placed(
            pattern,
            exprs,
            made,
            made.len() as int,
        ),
{
    let filled = Seq::new(
        exprs.len(),
        |j: int|
            if j < made.len() {
                made[j]
            } else {
                Seq::<u32>::empty()
            },
    );
    lemma_positions_placed_draws(b, pattern, exprs, made, filled, made.len() as int);
    lemma_positions_placed_error(b, pattern, exprs, filled, made.len() as int, exprs.len() as int);
    filled
}

/// The draws made up to a failed statement, filled up with empty draws for
/// the statements that were never reached, give the same error.
pub proof fn lemma_fill_agents(b: BuilderView, defs: Seq<AgentDefView>, made: Seq<Seq<Seq<u32>>>) -> (filled:
    Seq<Seq<Seq<u32>>>)
    requires
        made.len() <= defs.len(),
        b.agents_placed(defs, made, made.len() as int) is Err,
        forall|i: int| 0 <= i < made.len() ==> (#[trigger] made[i]).len() == defs[i].positions.len(),
        forall|i: int| 0 <= i < made.len() ==> all_percents(#[trigger] made[i]),
    ensures
        draws_fit(defs, filled),
        b.agents_placed(defs, filled, defs.len() as int) == b.agents_placed(
            defs,
            made,
            made.len() as int,
        ),
{
    let filled = Seq::new(
        defs.len(),
        |i: int|
            if i < made.len() {
                made[i]
            } else {
                Seq::new(defs[i].positions.len(), |j: int| Seq::<u32>::empty())
            },
    );
    lemma_agents_placed_draws(b, defs, made, filled, made.len() as int);
    lemma_agents_placed_error(b, defs, filled, made.len() as int, defs.len() as int);
    assert forall|i: int| 0 <= i < defs.len() implies all_percents(#[trigger] filled[i]) by {
        if i < made.len() {
            assert(filled[i] == made[i]);
        }
    }
    filled
}

/// One more position: what was placed before, then that position with its
/// draws.
pub proof fn lemma_positions_step(
    b: BuilderView,
    pattern: Seq<char>,
    exprs: Seq<Seq<char>>,
    made: Seq<Seq<u32>>,
    next: Seq<u32>,
)
    requires
        made.len() < exprs.len(),
    ensures
        b.positions_placed(pattern, exprs, made.push(next), made.len() as int + 1) == match b.positions_placed(
            pattern,
            exprs,
            made,
            made.len() as int,
        ) {
            Err(e) => Err(e),
            Ok(before) => before.position_placed(pattern, exprs[made.len() as int], next),
        },
{
    lemma_positions_placed_draws(b, pattern, exprs, made, made.push(next), made.len() as int);
}

/// One more statement: what was placed before, then the positions of that
/// statement with their draws.
pub proof fn lemma_agents_step(
    b: BuilderView,
    defs: Seq<AgentDefView>,
    made: Seq<Seq<Seq<u32>>>,
    next: Seq<Seq<u32>>,
)
    requires
        made.len() < defs.len(),
    ensures
        b.agents_placed(defs, made.push(next), made.len() as int + 1) == match b.agents_placed(
            defs,
            made,
            made.len() as int,
        ) {
            Err(e) => Err(e),
            Ok(before) => before.positions_placed(
                defs[made.len() as int].species_pattern,
                defs[made.len() as int].positions,
                next,
                defs[made.len() as int].positions.len() as int,
            ),
        },
{
    lemma_agents_placed_draws(b, defs, made, made.push(next), made.len() as int);
}

impl WorldBuilder {
    /// Adds an agent of the species of entry `k` on the cells of `rect` that
    /// lie on the grid, row by row. For a sparse pattern a cell receives an
    /// agent only if its draw says so; the draws that were made are
    /// returned.
    fn place_cells(&mut self, k: usize, sparse: bool, rect: Rect) -> (draws: Ghost<Seq<u32>>)
        requires
            old(self).wf(),
            k < old(self).species_map.entries@.len(),
        ensures
            final(self).deep_view() == old(self).deep_view().cells_placed(
                k as int,
                sparse,
                rect,
                draws@,
                rect.cells_on(old(self).world.rows as nat, old(self).world.cols as nat) as int,
            ),
            draws@.len() == rect.cells_on(old(self).world.rows as nat, old(self).world.cols as nat),
            percents(draws@),
            final(self).wf(),
            final(self).species_map == old(self).species_map,
    {
        let ghost start = self.deep_view();
        let rows = self.world.rows;
        let cols = self.world.cols;
        let ghost height = rect.height_on(rows as nat) as int;
        let ghost width = rect.width_on(cols as nat) as int;
        let ghost draws = Seq::<u32>::empty();
        let row_stop: usize = if rect.row_end < rows {
            rect.row_end + 1
        } else {
            rows
        };
        let col_stop: usize = if rect.col_end < cols {
            rect.col_end + 1
        } else {
            cols
        };
        if rect.row_start >= row_stop || rect.col_start >= col_stop {
            assert(height * width == 0) by (nonlinear_arith)
                requires
                    height == 0 || width == 0,
            ;
            return Ghost(draws);
        }
        assert(height == row_stop - rect.row_start);
        assert(width == col_stop - rect.col_start);
        let mut row: usize = rect.row_start;
        while row < row_stop
            invariant
                rect.row_start <= row <= row_stop <= rows,
                rect.col_start < col_stop <= cols,
                height == row_stop - rect.row_start,
                width == col_stop - rect.col_start,
                width == rect.width_on(cols as nat),
                self.wf(),
                self.world.rows == rows,
                self.world.cols == cols,
                start.world.cols == cols,
                self.species_map == old(self).species_map,
                k < self.species_map.entries@.len(),
                draws.len() == (row - rect.row_start) * width,
                percents(draws),
                self.deep_view() == start.cells_placed(
                    k as int,
                    sparse,
                    rect,
                    draws,
                    draws.len() as int,
                ),
            decreases row_stop - row,
        {
            let mut col: usize = rect.col_start;
            while col < col_stop
                invariant
                    rect.row_start <= row < row_stop <= rows,
                    rect.col_start <= col <= col_stop <= cols,
                    width == col_stop - rect.col_start,
                    width == rect.width_on(cols as nat),
                    self.wf(),
                    self.world.rows == rows,
                    self.world.cols == cols,
                    start.world.cols == cols,
                    self.species_map == old(self).species_map,
                    k < self.species_map.entries@.len(),
                    draws.len() == (row - rect.row_start) * width + (col - rect.col_start),
                    percents(draws),
                    self.deep_view() == start.cells_placed(
                        k as int,
                        sparse,
                        rect,
                        draws,
                        draws.len() as int,
                    ),
                decreases col_stop - col,
            {
                let draw: u32 = if sparse {
                    random_below(100)
                } else {
                    0
                };
                let ghost n = draws.len() as int;
                let ghost before = draws;
                proof {
                    draws = draws.push(draw);
                    lemma_cells_placed_draws(start, k as int, sparse, rect, before, draws, n);
                    assert((row - rect.row_start) * width >= 0) by (nonlinear_arith)
                        requires
                            row - rect.row_start >= 0,
                            width > 0,
                    ;
                    lemma_fundamental_div_mod_converse(
                        n,
                        width,
                        row - rect.row_start,
                        col - rect.col_start,
                    );
                    assert(rect.cell_on(cols as nat, n) == Position { row, col });
                }
                if !sparse || draw < PLACE_PERCENT {
                    self.add_agent_of(k, Position { row, col });
                }
                col += 1;
            }
            proof {
                assert((row - rect.row_start) * width + width == (row + 1 - rect.row_start)
                    * width) by (nonlinear_arith);
            }
            row += 1;
        }
        Ghost(draws)
    }

    /// Adds an agent of the species `species_name` on every cell of the
    /// rectangle `bounds` — first row, last row, first column, last column —
    /// that lies on the grid, provided that `pattern` lists that species.
    pub fn add_agents_pattern(
        &mut self,
        species_name: &str,
        pattern: &str,
        bounds: (usize, usize, usize, usize),
    ) -> (r: Result<(), BuildError>)
        requires
            old(self).wf(),
        ensures
            outcome(
                r,
                final(self).deep_view(),
                old(self).deep_view().pattern_placed(
                    species_name@,
                    pattern@,
                    Rect {
                        row_start: bounds.0,
                        row_end: bounds.1,
                        col_start: bounds.2,
                        col_end: bounds.3,
                    },
                ),
            ),
            r is Err ==> final(self).deep_view() == old(self).deep_view(),
            final(self).wf(),
    {
        let rect = Rect {
            row_start: bounds.0,
            row_end: bounds.1,
            col_start: bounds.2,
            col_end: bounds.3,
        };
        let chars = chars_of(pattern);
        let inner = unwrap_window(&chars, 0, chars.len());
        if !lists_name(&chars, inner.0, inner.1, species_name) {
            return Ok(());
        }
        let on_grid = rect.row_start <= rect.row_end && rect.row_start < self.world.rows
            && rect.col_start <= rect.col_end && rect.col_start < self.world.cols;
        proof {
            let h = rect.height_on(self.world.rows as nat) as int;
            let w = rect.width_on(self.world.cols as nat) as int;
            if on_grid {
                assert(h * w > 0) by (nonlinear_arith)
                    requires
                        h > 0,
                        w > 0,
                ;
            } else {
                assert(h * w == 0) by (nonlinear_arith)
                    requires
                        h == 0 || w == 0,
                ;
            }
        }
        if !on_grid {
            return Ok(());
        }
        match self.species_map.position(species_name) {
            Some(k) => {
                let ghost start = self.deep_view();
                let draws = self.place_cells(k, false, rect);
                proof {
                    lemma_cells_placed_draws(
                        start,
                        k as int,
                        false,
                        rect,
                        draws@,
                        seq![],
                        rect.cells_on(start.world.rows, start.world.cols) as int,
                    );
                }
                Ok(())
            },
            None => Err(BuildError::SpeciesNotFound { name: String::from_str(species_name) }),
        }
    }

    /// The table entry of the species that `pattern` names.
    fn resolve_entry(&self, pattern: &str, chars: &Vec<char>) -> (r: Option<usize>)
        requires
            chars@ == pattern@,
        ensures
            r is Some <==> resolve(self.deep_view().species, pattern@) is Some,
            r matches Some(k) ==> resolve(self.deep_view().species, pattern@) == Some(k as int)
                && k < self.species_map.entries@.len(),
    {
        match self.species_map.position(pattern) {
            Some(k) => Some(k),
            None => {
                let ghost table = self.deep_view().species;
                let mut k: usize = 0;
                while k < self.species_map.entries.len()
                    invariant
                        k <= self.species_map.entries@.len(),
                        table == self.deep_view().species,
                        chars@ == pattern@,
                        entry_of(table, pattern@) is None,
                        within_from(table, pattern@, 0) == within_from(table, pattern@, k as int),
                    decreases self.species_map.entries@.len() - k,
                {
                    assert(table[k as int].name == self.species_map.entries@[k as int].name@);
                    let name = chars_of(self.species_map.entries[k].name.as_str());
                    if contains(chars, &name) {
                        return Some(k);
                    }
                    k += 1;
                }
                None
            },
        }
    }

    /// The name of the species that `species_pattern` names: the pattern
    /// itself if it is a declared name, or else the first declared name that
    /// stands somewhere in the pattern.
    pub fn resolve_species_from_pattern(&self, species_pattern: &str) -> (r: Result<
        String,
        BuildError,
    >)
        ensures
            match r {
                Ok(name) => resolve(self.deep_view().species, species_pattern@) matches Some(k)
                    && self.deep_view().species[k].name == name@,
                Err(e) => e.deep_view() == (BuildErrorView::UnknownSpecies {
                    pattern: species_pattern@,
                }) && resolve(self.deep_view().species, species_pattern@) is None,
            },
    {
        let chars = chars_of(species_pattern);
        match self.resolve_entry(species_pattern, &chars) {
            Some(k) => {
                assert(self.deep_view().species[k as int].name
                    == self.species_map.entries@[k as int].name@);
                Ok(self.species_map.entries[k].name.clone())
            },
            None => Err(BuildError::UnknownSpecies { pattern: String::from_str(species_pattern) }),
        }
    }

    /// Reads the bounds `start:end`.
    pub fn parse_range_part(&self, range_str: &str) -> (r: Result<(usize, usize), BuildError>)
        ensures
            viewed(r) == range_part(range_str@, 0, range_str@.len() as int),
    {
        let chars = chars_of(range_str);
        read_range_part(&chars, 0, chars.len())
    }

    /// Whether a cell of a range receives an agent, given the draw made for
    /// it.
    pub fn should_place_at_position(&self, species_pattern: &str, draw: u32) -> (r: bool)
        ensures
            r == should_place(is_sparse(species_pattern@), draw),
    {
        let chars = chars_of(species_pattern);
        let void = chars_of("void");
        !contains(&chars, &void) || draw < PLACE_PERCENT
    }

    /// Places one agent at the cell that `position_expr` names, if it names
    /// a cell of the grid.
    fn parse_single_position(&mut self, species_pattern: &str, position_expr: &str) -> (r: Result<
        (),
        BuildError,
    >)
        requires
            old(self).wf(),
        ensures
            outcome(
                r,
                final(self).deep_view(),
                old(self).deep_view().single_placed(species_pattern@, position_expr@),
            ),
            final(self).wf(),
    {
        let expr = chars_of(position_expr);
        match read_single_position(&expr) {
            Some(pos) => {
                if self.world.in_bounds(pos) {
                    let pattern = chars_of(species_pattern);
                    match self.resolve_entry(species_pattern, &pattern) {
                        Some(k) => {
                            self.add_agent_of(k, pos);
                            Ok(())
                        },
                        None => Err(
                            BuildError::UnknownSpecies {
                                pattern: String::from_str(species_pattern),
                            },
                        ),
                    }
                } else {
                    Ok(())
                }
            },
            None => Ok(()),
        }
    }

    /// Visits the cells of `rect` on the grid for a pattern that names no
    /// species: the first cell that is to receive an agent is an error.
    fn place_nothing(&self, pattern: &str, sparse: bool, rect: Rect) -> (r: (
        Result<(), BuildError>,
        Ghost<Seq<u32>>,
    ))
        requires
            self.wf(),
        ensures
            r.1@.len() == rect.cells_on(self.world.rows as nat, self.world.cols as nat),
            percents(r.1@),
            r.0 is Err <==> exists|i: int|
                0 <= i < r.1@.len() && should_place(sparse, #[trigger] r.1@[i]),
            r.0 matches Err(e) ==> e.deep_view() == (BuildErrorView::UnknownSpecies {
                pattern: pattern@,
            }),
    {
        let rows = self.world.rows;
        let cols = self.world.cols;
        let ghost height = rect.height_on(rows as nat) as int;
        let ghost width = rect.width_on(cols as nat) as int;
        let ghost cells = rect.cells_on(rows as nat, cols as nat) as int;
        let ghost draws = Seq::<u32>::empty();
        let row_stop: usize = if rect.row_end < rows {
            rect.row_end + 1
        } else {
            rows
        };
        let col_stop: usize = if rect.col_end < cols {
            rect.col_end + 1
        } else {
            cols
        };
        if rect.row_start >= row_stop || rect.col_start >= col_stop {
            assert(height * width == 0) by (nonlinear_arith)
                requires
                    height == 0 || width == 0,
            ;
            return (Ok(()), Ghost(draws));
        }
        assert(height * width > 0) by (nonlinear_arith)
            requires
                height > 0,
                width > 0,
        ;
        if !sparse {
            proof {
                draws = Seq::new(cells as nat, |i: int| 0u32);
                assert(should_place(sparse, draws[0]));
            }
            assert(exists|i: int|
                0 <= i < draws.len() && should_place(sparse, #[trigger] draws[i]));
            return (
                Err(BuildError::UnknownSpecies { pattern: String::from_str(pattern) }),
                Ghost(draws),
            );
        }
        let mut row: usize = rect.row_start;
        while row < row_stop
            invariant
                rect.row_start <= row <= row_stop,
                rect.col_start < col_stop,
                height == row_stop - rect.row_start,
                width == col_stop - rect.col_start,
                cells == height * width,
                cells == rect.cells_on(self.world.rows as nat, self.world.cols as nat),
                sparse,
                draws.len() == (row - rect.row_start) * width,
                percents(draws),
                forall|i: int| 0 <= i < draws.len() ==> !should_place(sparse, #[trigger] draws[i]),
            decreases row_stop - row,
        {
            let mut col: usize = rect.col_start;
            while col < col_stop
                invariant
                    rect.row_start <= row < row_stop,
                    rect.col_start <= col <= col_stop,
                    height == row_stop - rect.row_start,
                    width == col_stop - rect.col_start,
                    cells == height * width,
                    cells == rect.cells_on(self.world.rows as nat, self.world.cols as nat),
                    sparse,
                    draws.len() == (row - rect.row_start) * width + (col - rect.col_start),
                    percents(draws),
                    forall|i: int|
                        0 <= i < draws.len() ==> !should_place(sparse, #[trigger] draws[i]),
                decreases col_stop - col,
            {
                let draw = random_below(100);
                let ghost n = draws.len() as int;
                proof {
                    assert(n < cells) by (nonlinear_arith)
                        requires
                            n == (row - rect.row_start) * width + (col - rect.col_start),
                            0 <= row - rect.row_start < height,
                            0 <= col - rect.col_start < width,
                            cells == height * width,
                    ;
                    draws = draws.push(draw);
                }
                if draw < PLACE_PERCENT {
                    proof {
                        let made = draws;
                        draws = Seq::new(
                            cells as nat,
                            |i: int|
                                if i < made.len() {
                                    made[i]
                                } else {
                                    0u32
                                },
                        );
                        assert(should_place(sparse, draws[n]));
                    }
                    let failed: (Result<(), BuildError>, Ghost<Seq<u32>>) = (
                        Err(BuildError::UnknownSpecies { pattern: String::from_str(pattern) }),
                        Ghost(draws),
                    );
                    assert(should_place(sparse, failed.1@[n]));
                    return failed;
                }
                col += 1;
            }
            proof {
                assert((row - rect.row_start) * width + width == (row + 1 - rect.row_start)
                    * width) by (nonlinear_arith);
            }
            row += 1;
        }
        (Ok(()), Ghost(draws))
    }

    /// Places agents on the cells of the range that `position_expr` names.
    /// Also gives the draws that were made, one for each cell of the range
    /// on the grid.
    fn parse_range_position(&mut self, species_pattern: &str, position_expr: &str) -> (r: (
        Result<(), BuildError>,
        Ghost<Seq<u32>>,
    ))
        requires
            old(self).wf(),
            is_range(position_expr@),
        ensures
            percents(r.1@),
            outcome(
                r.0,
                final(self).deep_view(),
                old(self).deep_view().position_placed(species_pattern@, position_expr@, r.1@),
            ),
            final(self).wf(),
    {
        let expr = chars_of(position_expr);
        let rect = match read_range_position(&expr) {
            Ok(Some(rect)) => rect,
            Ok(None) => {
                return (Ok(()), Ghost(Seq::empty()));
            },
            Err(e) => {
                return (Err(e), Ghost(Seq::empty()));
            },
        };
        let pattern = chars_of(species_pattern);
        let void = chars_of("void");
        let sparse = contains(&pattern, &void);
        match self.resolve_entry(species_pattern, &pattern) {
            Some(k) => {
                let draws = self.place_cells(k, sparse, rect);
                (Ok(()), draws)
            },
            None => self.place_nothing(species_pattern, sparse, rect),
        }
    }

    /// Places what one position of an `agent` statement names.
    fn parse_and_place_position(&mut self, species_pattern: &str, position_expr: &str) -> (r: (
        Result<(), BuildError>,
        Ghost<Seq<u32>>,
    ))
        requires
            old(self).wf(),
        ensures
            percents(r.1@),
            outcome(
                r.0,
                final(self).deep_view(),
                old(self).deep_view().position_placed(species_pattern@, position_expr@, r.1@),
            ),
            final(self).wf(),
    {
        let expr = chars_of(position_expr);
        let colon = find_char(&expr, ':', 0, expr.len());
        if colon < expr.len() {
            self.parse_range_position(species_pattern, position_expr)
        } else if expr.len() > 0 && expr[0] == '(' && expr[expr.len() - 1] == ')' {
            (self.parse_single_position(species_pattern, position_expr), Ghost(Seq::empty()))
        } else {
            (Ok(()), Ghost(Seq::empty()))
        }
    }

    /// Places the agents of one `agent` statement.
    fn place_positions(&mut self, pattern: &str, positions: &Vec<String>) -> (r: (
        Result<(), BuildError>,
        Ghost<Seq<Seq<u32>>>,
    ))
        requires
            old(self).wf(),
        ensures
            r.1@.len() == positions@.len(),
            all_percents(r.1@),
            outcome(
                r.0,
                final(self).deep_view(),
                old(self).deep_view().positions_placed(
                    pattern@,
                    positions.deep_view(),
                    r.1@,
                    positions@.len() as int,
                ),
            ),
            final(self).wf(),
    {
        let ghost start = self.deep_view();
        let ghost exprs = positions.deep_view();
        let ghost draws = Seq::<Seq<u32>>::empty();
        let mut j: usize = 0;
        while j < positions.len()
            invariant
                j <= positions@.len(),
                exprs == positions.deep_view(),
                self.wf(),
                draws.len() == j,
                all_percents(draws),
                start == old(self).deep_view(),
                start.positions_placed(pattern@, exprs, draws, j as int) == Ok::<
                    BuilderView,
                    BuildErrorView,
                >(self.deep_view()),
            decreases positions@.len() - j,
        {
            let ghost before = draws;
            let (result, made) = self.parse_and_place_position(pattern, positions[j].as_str());
            proof {
                assert(exprs[j as int] == positions@[j as int]@);
                lemma_positions_step(start, pattern@, exprs, before, made@);
                draws = before.push(made@);
            }
            match result {
                Ok(()) => {},
                Err(e) => {
                    proof {
                        draws = lemma_fill_positions(start, pattern@, exprs, draws);
                    }
                    return (Err(e), Ghost(draws));
                },
            }
            j += 1;
        }
        (Ok(()), Ghost(draws))
    }

    /// Places the agents that the `agent` statements of `config` name, in
    /// their order.
    ///
    /// A single position places one agent if it names a cell of the grid. A
    /// range visits every cell of its rectangle on the grid; for a sparse
    /// pattern a cell receives an agent with a chance of
    /// [`PLACE_PERCENT`] in a hundred, else every cell receives one. The
    /// outcome is the one that the draws made give, whichever they were.
    /// After an error the builder is of no more use.
    pub fn place_agents(&mut self, config: &ConfigAst) -> (r: Result<(), BuildError>)
        requires
            old(self).wf(),
        ensures
            exists|draws: Seq<Seq<Seq<u32>>>|
                draws_fit(config.deep_view().agents, draws) && outcome(
                    r,
                    final(self).deep_view(),
                    #[trigger] old(self).deep_view().agents_placed(
                        config.deep_view().agents,
                        draws,
                        config.deep_view().agents.len() as int,
                    ),
                ),
            final(self).wf(),
    {
        let ghost start = self.deep_view();
        let ghost defs = config.deep_view().agents;
        let ghost draws = Seq::<Seq<Seq<u32>>>::empty();
        let mut i: usize = 0;
        while i < config.agents.len()
            invariant
                i <= config.agents@.len(),
                defs == config.deep_view().agents,
                self.wf(),
                draws.len() == i,
                start == old(self).deep_view(),
                forall|a: int| 0 <= a < i ==> (#[trigger] draws[a]).len() == defs[a].positions.len(),
                forall|a: int| 0 <= a < i ==> all_percents(#[trigger] draws[a]),
                start.agents_placed(defs, draws, i as int) == Ok::<BuilderView, BuildErrorView>(
                    self.deep_view(),
                ),
            decreases config.agents@.len() - i,
        {
            let def = &config.agents[i];
            let ghost before = draws;
            let (result, made) = self.place_positions(def.species_pattern.as_str(), &def.positions);
            proof {
                assert(defs[i as int] == def.deep_view());
                lemma_agents_step(start, defs, before, made@);
                draws = before.push(made@);
            }
            match result {
                Ok(()) => {},
                Err(e) => {
                    proof {
                        let filled = lemma_fill_agents(start, defs, draws);
                        assert(draws_fit(defs, filled) && outcome(
                            Err::<(), BuildError>(e),
                            self.deep_view(),
                            start.agents_placed(defs, filled, defs.len() as int),
                        ));
                    }
                    return Err(e);
                },
            }
            i += 1;
        }
        assert(draws_fit(defs, draws));
        Ok(())
    }
}

} // verus!
