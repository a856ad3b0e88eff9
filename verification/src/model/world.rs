//! The world: a grid of cells and the agents that live on it.
//!
//! A cell refers to the agent that stands on it by the agent's index. The
//! world is [consistent](WorldView::consistent) when cells and living agents
//! refer to each other.

use vstd::prelude::*;
use crate::model::agent::{Agent, AgentId, AgentView, SpeciesKind};
use crate::model::position::Position;

verus! {

/// One cell of the grid.
#[derive(Debug, Clone, Copy, PartialEq, Eq, Structural)]
pub struct Cell {
    /// The agent on this cell, if any.
    pub agent: Option<usize>,
    /// Whether the cell is marked.
    pub trace: bool,
}

impl Default for Cell {
    /// An empty, unmarked cell.
    fn default() -> (cell: Self)
        ensures
            cell == (Cell { agent: None, trace: false }),
    {
        Self { agent: None, trace: false }
    }
}

/// A grid of `rows` by `cols` cells in row-major order, and all agents that
/// were ever spawned.
#[derive(Debug)]
pub struct World {
    pub rows: usize,
    pub cols: usize,
    pub grid: Vec<Cell>,
    pub agents: Vec<Agent>,
}

/// The mathematical value of a [`World`].
pub struct WorldView {
    pub rows: nat,
    pub cols: nat,
    pub grid: Seq<Cell>,
    pub agents: Seq<AgentView>,
}

impl DeepView for World {
    type V = WorldView;

    open spec fn deep_view(&self) -> WorldView {
        WorldView {
            rows: self.rows as nat,
            cols: self.cols as nat,
            grid: self.grid@,
            agents: self.agents.deep_view(),
        }
    }
}

impl WorldView {
    /// An empty world of the given size.
    pub open spec fn empty(rows: nat, cols: nat) -> WorldView {
        WorldView {
            rows,
            cols,
            grid: Seq::new(rows * cols, |i: int| Cell { agent: None, trace: false }),
            agents: seq![],
        }
    }

    /// The grid has exactly `rows * cols` cells.
    pub open spec fn wf(self) -> bool {
        self.grid.len() == self.rows * self.cols
    }

    /// `pos` lies on the grid.
    pub open spec fn in_bounds(self, pos: Position) -> bool {
        pos.row < self.rows && pos.col < self.cols
    }

    /// The index of the cell at `pos`.
    pub open spec fn index(self, pos: Position) -> int {
        pos.index_of(self.cols as int)
    }

    /// The cell at `pos`, if `pos` lies on the grid.
    pub open spec fn cell(self, pos: Position) -> Option<Cell> {
        if self.in_bounds(pos) {
            Some(self.grid[self.index(pos)])
        } else {
            None
        }
    }

    /// `pos` lies on the grid and no agent is recorded there.
    pub open spec fn is_free(self, pos: Position) -> bool {
        self.in_bounds(pos) && self.grid[self.index(pos)].agent is None
    }

    /// The world with `cell` at `pos`; unchanged if `pos` is off the grid.
    pub open spec fn with_cell(self, pos: Position, cell: Cell) -> WorldView {
        if self.in_bounds(pos) {
            WorldView { grid: self.grid.update(self.index(pos), cell), ..self }
        } else {
            self
        }
    }

    /// The world with `agent` recorded in the cell at `pos`; unchanged if
    /// `pos` is off the grid.
    pub open spec fn with_agent_at(self, pos: Position, agent: Option<usize>) -> WorldView {
        if self.in_bounds(pos) {
            self.with_cell(pos, Cell { agent, ..self.grid[self.index(pos)] })
        } else {
            self
        }
    }

    /// The world with the cell at `pos` marked; unchanged if `pos` is off the
    /// grid.
    pub open spec fn with_trace(self, pos: Position) -> WorldView {
        if self.in_bounds(pos) {
            self.with_cell(pos, Cell { trace: true, ..self.grid[self.index(pos)] })
        } else {
            self
        }
    }

    /// The world after a spawn: the new agent is appended, its id is its
    /// index, and the cell at `pos` records it if `pos` lies on the grid.
    pub open spec fn spawned(
        self,
        pos: Position,
        species: SpeciesKind,
        species_id: usize,
        status: Seq<char>,
        color: u32,
        num_vars: nat,
    ) -> WorldView {
        WorldView {
            agents: self.agents.push(
                AgentView::newborn(
                    self.agents.len() as usize,
                    pos,
                    species,
                    species_id,
                    status,
                    color,
                    num_vars,
                ),
            ),
            ..self
        }.with_agent_at(pos, Some(self.agents.len() as usize))
    }

    /// The cell at `pos` records the agent `id`.
    pub open spec fn records(self, pos: Position, id: int) -> bool {
        self.in_bounds(pos) && self.grid[self.index(pos)].agent == Some(id as usize)
    }

    /// The world after agent `id` is killed: the agent is dead, and the cell
    /// at its position is emptied if it records this agent. A cell that
    /// records another agent, or none, is left alone. Unchanged if there is
    /// no such agent.
    pub open spec fn killed(self, id: int) -> WorldView {
        if 0 <= id < self.agents.len() {
            let dead = WorldView {
                agents: self.agents.update(id, self.agents[id].killed()),
                ..self
            };
            if self.records(self.agents[id].pos, id) {
                dead.with_agent_at(self.agents[id].pos, None)
            } else {
                dead
            }
        } else {
            self
        }
    }

    /// The world after the living agent `id` moves to `to`: its old cell is
    /// emptied, its position is `to`, and the cell at `to` records it if `to`
    /// lies on the grid. Unchanged if there is no such agent or it is dead.
    pub open spec fn moved(self, id: int, to: Position) -> WorldView {
        if 0 <= id < self.agents.len() && self.agents[id].alive {
            let lifted = self.with_agent_at(self.agents[id].pos, None);
            WorldView {
                agents: self.agents.update(id, AgentView { pos: to, ..self.agents[id] }),
                ..lifted
            }.with_agent_at(to, Some(id as usize))
        } else {
            self
        }
    }

    /// A living agent stands at `pos`.
    pub open spec fn occupied(self, pos: Position) -> bool {
        exists|i: int| 0 <= i < self.agents.len() && #[trigger] self.agents[i].alive
            && self.agents[i].pos == pos
    }

    /// Cells and agents refer to each other: every agent's id is its index;
    /// a living agent stands on the grid and its cell records it; the cell at
    /// a dead agent's position does not record that agent.
    pub open spec fn consistent(self) -> bool {
        &&& self.wf()
        &&& forall|i: int| 0 <= i < self.agents.len() ==> (#[trigger] self.agents[i]).id == i
        &&& forall|i: int|
            0 <= i < self.agents.len() && (#[trigger] self.agents[i]).alive ==> self.in_bounds(
                self.agents[i].pos,
            ) && self.grid[self.index(self.agents[i].pos)].agent == Some(i as usize)
        &&& forall|i: int|
            0 <= i < self.agents.len() && !(#[trigger] self.agents[i]).alive && self.in_bounds(
                self.agents[i].pos,
            ) ==> self.grid[self.index(self.agents[i].pos)].agent != Some(i as usize)
    }

    /// A living agent other than `id` stands at `pos`.
    pub open spec fn occupied_by_other(self, id: int, pos: Position) -> bool {
        exists|i: int|
            0 <= i < self.agents.len() && i != id && #[trigger] self.agents[i].alive
                && self.agents[i].pos == pos
    }

    /// The change `op` made to the world.
    pub open spec fn applied(self, op: WorldOp) -> WorldView {
        match op {
            WorldOp::Spawn { pos, species, species_id, status, color, num_vars } => self.spawned(
                pos,
                species,
                species_id,
                status,
                color,
                num_vars,
            ),
            WorldOp::Kill { id } => self.killed(id),
            WorldOp::Move { id, to } => self.moved(id, to),
        }
    }

    /// `op` respects the grid: a spawn or a move goes to a cell of the grid
    /// on which no other living agent stands. Every kill is admitted, and so
    /// is every move that does nothing.
    pub open spec fn admits(self, op: WorldOp) -> bool {
        match op {
            WorldOp::Spawn { pos, .. } => {
                &&& self.agents.len() <= usize::MAX
                &&& self.in_bounds(pos)
                &&& !self.occupied(pos)
            },
            WorldOp::Kill { .. } => true,
            WorldOp::Move { id, to } => {
                ||| !(0 <= id < self.agents.len() && self.agents[id].alive)
                ||| (self.in_bounds(to) && !self.occupied_by_other(id, to))
            },
        }
    }

    /// The world after the changes `ops`, in order.
    pub open spec fn after(self, ops: Seq<WorldOp>) -> WorldView
        decreases ops.len(),
    {
        if ops.len() == 0 {
            self
        } else {
            self.after(ops.drop_last()).applied(ops.last())
        }
    }

    /// Every change of `ops` is admitted by the world it is made to.
    pub open spec fn admits_all(self, ops: Seq<WorldOp>) -> bool
        decreases ops.len(),
    {
        if ops.len() == 0 {
            true
        } else {
            self.admits_all(ops.drop_last()) && self.after(ops.drop_last()).admits(ops.last())
        }
    }
}

/// A change to a world: what `spawn_agent`, `kill_agent` and `move_agent` do.
pub enum WorldOp {
    Spawn {
        pos: Position,
        species: SpeciesKind,
        species_id: usize,
        status: Seq<char>,
        color: u32,
        num_vars: nat,
    },
    Kill { id: int },
    Move { id: int, to: Position },
}

/// On a grid that is `cols` wide, a position in bounds has an index below
/// `rows * cols`, and different positions have different indices.
pub proof fn lemma_index_in_grid(rows: nat, cols: nat, pos: Position)
    requires
        pos.row < rows,
        pos.col < cols,
    ensures
        0 <= pos.index_of(cols as int) < rows * cols,
        pos.index_of(cols as int) / (cols as int) == pos.row,
        pos.index_of(cols as int) % (cols as int) == pos.col,
{
    let r = pos.row as int;
    let c = pos.col as int;
    let n = cols as int;
    assert(r * n + c < rows * n) by (nonlinear_arith)
        requires
            0 <= r < rows,
            0 <= c < n,
    ;
    assert(r * n >= 0) by (nonlinear_arith)
        requires
            0 <= r,
            0 <= n,
    ;
    vstd::arithmetic::div_mod::lemma_fundamental_div_mod_converse(r * n + c, n, r, c);
}

/// On a grid, two positions with the same index are the same position.
pub proof fn lemma_index_injective(rows: nat, cols: nat, p: Position, q: Position)
    requires
        p.row < rows,
        p.col < cols,
        q.row < rows,
        q.col < cols,
        p.index_of(cols as int) == q.index_of(cols as int),
    ensures
        p == q,
{
    lemma_index_in_grid(rows, cols, p);
    lemma_index_in_grid(rows, cols, q);
}

/// In a consistent world no two living agents share a position.
pub proof fn lemma_living_agents_apart(w: WorldView, i: int, j: int)
    requires
        w.consistent(),
        0 <= i < w.agents.len(),
        0 <= j < w.agents.len(),
        w.agents[i].alive,
        w.agents[j].alive,
        w.agents[i].pos == w.agents[j].pos,
    ensures
        i == j,
{
}

/// A spawn onto a cell of the grid on which no living agent stands keeps the
/// world consistent.
pub proof fn lemma_spawn_consistent(
    w: WorldView,
    pos: Position,
    species: SpeciesKind,
    species_id: usize,
    status: Seq<char>,
    color: u32,
    num_vars: nat,
)
    requires
        w.consistent(),
        w.agents.len() <= usize::MAX,
        w.in_bounds(pos),
        !w.occupied(pos),
    ensures
        w.spawned(pos, species, species_id, status, color, num_vars).consistent(),
{
    let after = w.spawned(pos, species, species_id, status, color, num_vars);
    let n = w.agents.len() as int;
    lemma_index_in_grid(w.rows, w.cols, pos);
    assert forall|i: int| 0 <= i < after.agents.len() && (#[trigger] after.agents[i]).alive implies
        after.in_bounds(after.agents[i].pos) && after.grid[after.index(after.agents[i].pos)].agent
        == Some(i as usize) by {
        if i < n {
            assert(w.agents[i].alive);
            assert(w.agents[i].pos != pos);
            lemma_index_in_grid(w.rows, w.cols, w.agents[i].pos);
            if w.index(w.agents[i].pos) == w.index(pos) {
                lemma_index_injective(w.rows, w.cols, w.agents[i].pos, pos);
            }
        }
    }
    assert forall|i: int|
        0 <= i < after.agents.len() && !(#[trigger] after.agents[i]).alive && after.in_bounds(
            after.agents[i].pos,
        ) implies after.grid[after.index(after.agents[i].pos)].agent != Some(i as usize) by {
        assert(i < n);
        assert(!w.agents[i].alive);
        lemma_index_in_grid(w.rows, w.cols, w.agents[i].pos);
    }
    assert forall|i: int| 0 <= i < after.agents.len() implies (#[trigger] after.agents[i]).id
        == i by {
        if i < n {
            assert(w.agents[i].id == i);
        }
    }
}

/// Every kill keeps the world consistent: of a living agent, of an agent
/// that is dead already, whoever stands where it died, and of no agent at
/// all.
pub proof fn lemma_kill_consistent(w: WorldView, id: int)
    requires
        w.consistent(),
    ensures
        w.killed(id).consistent(),
        w.killed(id).agents.len() == w.agents.len(),
        0 <= id < w.agents.len() ==> !w.killed(id).agents[id].alive,
        forall|i: int|
            0 <= i < w.agents.len() && i != id ==> #[trigger] w.killed(id).agents[i]
                == w.agents[i],
{
    let after = w.killed(id);
    if 0 <= id < w.agents.len() {
        let pos = w.agents[id].pos;
        if w.in_bounds(pos) {
            lemma_index_in_grid(w.rows, w.cols, pos);
        }
        assert forall|i: int|
            0 <= i < after.agents.len() && (#[trigger] after.agents[i]).alive implies
            after.in_bounds(after.agents[i].pos) && after.grid[after.index(
                after.agents[i].pos,
            )].agent == Some(i as usize) by {
            assert(i != id);
            assert(w.agents[i].alive);
            lemma_index_in_grid(w.rows, w.cols, w.agents[i].pos);
        }
        assert forall|i: int|
            0 <= i < after.agents.len() && !(#[trigger] after.agents[i]).alive && after.in_bounds(
                after.agents[i].pos,
            ) implies after.grid[after.index(after.agents[i].pos)].agent != Some(i as usize) by {
            lemma_index_in_grid(w.rows, w.cols, w.agents[i].pos);
            if i != id {
                assert(!w.agents[i].alive);
            }
        }
        assert forall|i: int| 0 <= i < after.agents.len() implies (#[trigger] after.agents[i]).id
            == i by {
            assert(w.agents[i].id == i);
        }
    }
}

/// A move of a living agent to a cell of the grid on which no other living
/// agent stands keeps the world consistent; so does a move that does nothing.
pub proof fn lemma_move_consistent(w: WorldView, id: int, to: Position)
    requires
        w.consistent(),
        w.admits(WorldOp::Move { id, to }),
    ensures
        w.moved(id, to).consistent(),
{
    let after = w.moved(id, to);
    if 0 <= id < w.agents.len() && w.agents[id].alive {
        let from = w.agents[id].pos;
        lemma_index_in_grid(w.rows, w.cols, from);
        lemma_index_in_grid(w.rows, w.cols, to);
        assert forall|i: int|
            0 <= i < after.agents.len() && (#[trigger] after.agents[i]).alive implies
            after.in_bounds(after.agents[i].pos) && after.grid[after.index(
                after.agents[i].pos,
            )].agent == Some(i as usize) by {
            if i != id {
                assert(w.agents[i].alive);
                let p = w.agents[i].pos;
                lemma_index_in_grid(w.rows, w.cols, p);
                assert(p != to);
                if w.index(p) == w.index(to) {
                    lemma_index_injective(w.rows, w.cols, p, to);
                }
                if w.index(p) == w.index(from) {
                    lemma_index_injective(w.rows, w.cols, p, from);
                    lemma_living_agents_apart(w, i, id);
                }
            }
        }
        assert forall|i: int|
            0 <= i < after.agents.len() && !(#[trigger] after.agents[i]).alive && after.in_bounds(
                after.agents[i].pos,
            ) implies after.grid[after.index(after.agents[i].pos)].agent != Some(i as usize) by {
            assert(i != id);
            assert(!w.agents[i].alive);
            lemma_index_in_grid(w.rows, w.cols, w.agents[i].pos);
        }
        assert forall|i: int| 0 <= i < after.agents.len() implies (#[trigger] after.agents[i]).id
            == i by {
            assert(w.agents[i].id == i);
        }
    }
}

/// An admitted change keeps the world consistent.
pub proof fn lemma_change_consistent(w: WorldView, op: WorldOp)
    requires
        w.consistent(),
        w.admits(op),
    ensures
        w.applied(op).consistent(),
{
    match op {
        WorldOp::Spawn { pos, species, species_id, status, color, num_vars } => {
            lemma_spawn_consistent(w, pos, species, species_id, status, color, num_vars);
        },
        WorldOp::Kill { id } => {
            lemma_kill_consistent(w, id);
        },
        WorldOp::Move { id, to } => {
            lemma_move_consistent(w, id, to);
        },
    }
}

/// After any sequence of admitted spawns, kills and moves a consistent world
/// is consistent: every living agent's cell records it, no dead agent is
/// recorded where it died, and no two living agents share a cell.
pub proof fn lemma_consistent_after(w: WorldView, ops: Seq<WorldOp>)
    requires
        w.consistent(),
        w.admits_all(ops),
    ensures
        w.after(ops).consistent(),
    decreases ops.len(),
{
    if ops.len() > 0 {
        lemma_consistent_after(w, ops.drop_last());
        lemma_change_consistent(w.after(ops.drop_last()), ops.last());
    }
}

/// An empty world is consistent.
pub proof fn lemma_empty_consistent(rows: nat, cols: nat)
    ensures
        WorldView::empty(rows, cols).consistent(),
{
}

impl World {
    /// The grid has exactly `rows * cols` cells.
    pub open spec fn wf(&self) -> bool {
        self.deep_view().wf()
    }

    /// An empty world of the given size.
    pub fn new(rows: usize, cols: usize) -> (world: Self)
        requires
            rows * cols <= usize::MAX,
        ensures
            world.deep_view() == WorldView::empty(rows as nat, cols as nat),
            world.wf(),
    {
        let world = Self {
            rows,
            cols,
            grid: vec![Cell::default(); rows * cols],
            agents: Vec::new(),
        };
        assert(world.grid@ =~= WorldView::empty(rows as nat, cols as nat).grid);
        assert(world.agents.deep_view() =~= Seq::<AgentView>::empty());
        world
    }

    #[inline]
    fn idx(&self, pos: Position) -> (i: usize)
        requires
            self.wf(),
            self.deep_view().in_bounds(pos),
        ensures
            i == self.deep_view().index(pos),
            i < self.grid@.len(),
    {
        let cells = self.grid.len();
        proof {
            lemma_index_in_grid(self.rows as nat, self.cols as nat, pos);
        }
        pos.to_index(self.cols)
    }

    /// Whether `pos` lies on the grid.
    pub fn in_bounds(&self, pos: Position) -> (r: bool)
        ensures
            r == self.deep_view().in_bounds(pos),
    {
        pos.row < self.rows && pos.col < self.cols
    }

    /// The cell at `pos`, or `None` if `pos` is off the grid.
    pub fn get(&self, pos: Position) -> (r: Option<&Cell>)
        requires
            self.wf(),
        ensures
            match r {
                Some(cell) => self.deep_view().cell(pos) == Some(*cell),
                None => self.deep_view().cell(pos) is None,
            },
    {
        if self.in_bounds(pos) {
            Some(&self.grid[self.idx(pos)])
        } else {
            None
        }
    }

    /// The cell at `pos` for writing, or `None` if `pos` is off the grid.
    /// What is written becomes the cell at `pos`; nothing else changes.
    pub fn get_mut(&mut self, pos: Position) -> (r: Option<&mut Cell>)
        requires
            old(self).wf(),
        ensures
            match r {
                Some(cell) => {
                    &&& old(self).deep_view().cell(pos) == Some(*cell)
                    &&& final(self).deep_view() == old(self).deep_view().with_cell(
                        pos,
                        *final(cell),
                    )
                },
                None => {
                    &&& old(self).deep_view().cell(pos) is None
                    &&& final(self).deep_view() == old(self).deep_view()
                },
            },
    {
        if self.in_bounds(pos) {
            let idx = self.idx(pos);
            Some(&mut self.grid[idx])
        } else {
            None
        }
    }

    /// Records `agent_id` in the cell at `pos`. Does nothing if `pos` is off
    /// the grid.
    pub fn set_agent(&mut self, pos: Position, agent_id: Option<usize>)
        requires
            old(self).wf(),
        ensures
            final(self).deep_view() == old(self).deep_view().with_agent_at(pos, agent_id),
            final(self).wf(),
    {
        if self.in_bounds(pos) {
            let idx = self.idx(pos);
            let trace = self.grid[idx].trace;
            self.grid[idx] = Cell { agent: agent_id, trace };
        }
    }

    /// Kills agent `agent_id` and empties the cell at its position if that
    /// cell records this agent; a cell that records another agent is left
    /// alone. The agent keeps its place in the list. Does nothing if there is
    /// no such agent.
    pub fn kill_agent(&mut self, agent_id: usize)
        requires
            old(self).wf(),
        ensures
            final(self).deep_view() == old(self).deep_view().killed(agent_id as int),
            final(self).wf(),
    {
        if agent_id < self.agents.len() {
            let ghost before = self.agents.deep_view();
            self.agents[agent_id].kill();
            assert(self.agents.deep_view() =~= before.update(
                agent_id as int,
                before[agent_id as int].killed(),
            ));
            let pos = self.agents[agent_id].pos;
            let recorded = match self.get(pos) {
                Some(cell) => match cell.agent {
                    Some(id) => id == agent_id,
                    None => false,
                },
                None => false,
            };
            assert(recorded == old(self).deep_view().records(pos, agent_id as int));
            if recorded {
                self.set_agent(pos, None);
            }
        }
    }

    /// Marks the cell at `pos`. Does nothing if `pos` is off the grid.
    pub fn set_trace(&mut self, pos: Position)
        requires
            old(self).wf(),
        ensures
            final(self).deep_view() == old(self).deep_view().with_trace(pos),
            final(self).wf(),
    {
        if self.in_bounds(pos) {
            let idx = self.idx(pos);
            let agent = self.grid[idx].agent;
            self.grid[idx] = Cell { agent, trace: true };
        }
    }

    /// Spawns an agent at `pos` and returns its id, the number of agents
    /// spawned before it. The agent is created even if `pos` is off the
    /// grid; only the cell is then left alone.
    pub fn spawn_agent(
        &mut self,
        pos: Position,
        species: SpeciesKind,
        species_id: usize,
        status: String,
        color: u32,
        num_vars: usize,
    ) -> (agent_id: AgentId)
        requires
            old(self).wf(),
        ensures
            agent_id == old(self).agents@.len(),
            final(self).deep_view() == old(self).deep_view().spawned(
                pos,
                species,
                species_id,
                status@,
                color,
                num_vars as nat,
            ),
            final(self).wf(),
    {
        let agent_id = self.agents.len();
        let agent = Agent::with_status(agent_id, pos, species, species_id, status, color, num_vars);
        crate::utils::vecs::push_deep(&mut self.agents, agent);
        self.set_agent(pos, Some(agent_id));
        agent_id
    }

    /// Whether `pos` lies on the grid and its cell records no agent.
    pub fn is_position_free(&self, pos: &Position) -> (r: bool)
        requires
            self.wf(),
        ensures
            r == self.deep_view().is_free(*pos),
    {
        match self.get(*pos) {
            Some(cell) => cell.agent.is_none(),
            None => false,
        }
    }

    /// Moves the living agent `agent_id` to `new_pos`. Does nothing if there
    /// is no such agent or it is dead.
    pub fn move_agent(&mut self, agent_id: usize, new_pos: Position)
        requires
            old(self).wf(),
        ensures
            final(self).deep_view() == old(self).deep_view().moved(agent_id as int, new_pos),
            final(self).wf(),
    {
        if agent_id < self.agents.len() && self.agents[agent_id].alive {
            let old_pos = self.agents[agent_id].pos;
            let ghost start = self.agents.deep_view();
            self.set_agent(old_pos, None);
            let ghost before = self.agents.deep_view();
            assert(before.len() == start.len());
            self.agents[agent_id].pos = new_pos;
            assert(self.agents.deep_view() =~= before.update(
                agent_id as int,
                AgentView { pos: new_pos, ..before[agent_id as int] },
            ));
            self.set_agent(new_pos, Some(agent_id));
        }
    }
}

} // verus!
