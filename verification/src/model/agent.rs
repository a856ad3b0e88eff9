//! Agents: the inhabitants of the grid.

use vstd::prelude::*;
use vstd::std_specs::convert::IntoSpec;
use crate::model::position::Position;
use crate::utils::num::{clamp_i32, saturating_sum};

verus! {

/// An agent is named by its index in the world's list of agents.
pub type AgentId = usize;

/// The three families of species.
#[derive(Debug, Clone, Copy, PartialEq, Eq, Structural)]
pub enum SpeciesKind {
    Mineral,
    Vegetal,
    Animal,
}

/// An agent. A dead agent keeps its place in the list: `alive` is cleared and
/// nothing else changes.
#[derive(Debug, Clone)]
pub struct Agent {
    pub id: AgentId,
    pub pos: Position,
    pub species: SpeciesKind,
    /// The index of the agent's species among the species definitions.
    pub species_id: usize,
    pub status: String,
    /// Packed `0xRRGGBB`.
    pub color: u32,
    pub vars: Vec<i32>,
    pub alive: bool,
}

/// The mathematical value of an [`Agent`].
pub struct AgentView {
    pub id: AgentId,
    pub pos: Position,
    pub species: SpeciesKind,
    pub species_id: usize,
    pub status: Seq<char>,
    pub color: u32,
    pub vars: Seq<i32>,
    pub alive: bool,
}

impl DeepView for Agent {
    type V = AgentView;

    open spec fn deep_view(&self) -> AgentView {
        AgentView {
            id: self.id,
            pos: self.pos,
            species: self.species,
            species_id: self.species_id,
            status: self.status@,
            color: self.color,
            vars: self.vars@,
            alive: self.alive,
        }
    }
}

impl AgentView {
    /// A newborn: alive, with `num_vars` variables that are all zero.
    pub open spec fn newborn(
        id: AgentId,
        pos: Position,
        species: SpeciesKind,
        species_id: usize,
        status: Seq<char>,
        color: u32,
        num_vars: nat,
    ) -> AgentView {
        AgentView {
            id,
            pos,
            species,
            species_id,
            status,
            color,
            vars: Seq::new(num_vars, |i: int| 0i32),
            alive: true,
        }
    }

    /// The agent with variable `idx` set to `val`; unchanged if it has no
    /// such variable.
    pub open spec fn with_var(self, idx: int, val: i32) -> AgentView {
        if 0 <= idx < self.vars.len() {
            AgentView { vars: self.vars.update(idx, val), ..self }
        } else {
            self
        }
    }

    /// The agent with `delta` added to variable `idx`. The sum stays within
    /// `i32`: beyond a limit it is the limit.
    pub open spec fn with_var_added(self, idx: int, delta: i32) -> AgentView {
        if 0 <= idx < self.vars.len() {
            self.with_var(idx, clamp_i32(self.vars[idx] + delta))
        } else {
            self
        }
    }

    /// The agent, dead.
    pub open spec fn killed(self) -> AgentView {
        AgentView { alive: false, ..self }
    }
}

impl Agent {
    /// A living agent with the given identity, whose variables are all zero.
    pub fn with_status(
        id: AgentId,
        pos: Position,
        species: SpeciesKind,
        species_id: usize,
        status: String,
        color: u32,
        num_vars: usize,
    ) -> (agent: Self)
        ensures
            agent.status == status,
            agent.deep_view() == AgentView::newborn(
                id,
                pos,
                species,
                species_id,
                status@,
                color,
                num_vars as nat,
            ),
    {
        let agent = Self {
            id,
            pos,
            species,
            species_id,
            status,
            color,
            vars: vec![0; num_vars],
            alive: true,
        };
        assert(agent.vars@ =~= Seq::new(num_vars as nat, |i: int| 0i32));
        agent
    }

    /// A living agent with the given identity, whose variables are all zero.
    /// The status is what the conversion of `status` gives.
    pub fn new<S: Into<String>>(
        id: AgentId,
        pos: Position,
        species: SpeciesKind,
        species_id: usize,
        status: S,
        color: u32,
        num_vars: usize,
    ) -> (agent: Self)
        ensures
            S::obeys_into_spec() ==> agent.status == status.into_spec(),
            agent.deep_view() == AgentView::newborn(
                id,
                pos,
                species,
                species_id,
                agent.status@,
                color,
                num_vars as nat,
            ),
    {
        Self::with_status(id, pos, species, species_id, status.into(), color, num_vars)
    }

    /// The value of variable `idx`.
    pub fn get_var(&self, idx: usize) -> (val: i32)
        requires
            idx < self.vars@.len(),
        ensures
            val == self.vars@[idx as int],
    {
        self.vars[idx]
    }

    /// Sets variable `idx` to `val`. Does nothing if there is no such
    /// variable.
    pub fn set_var(&mut self, idx: usize, val: i32)
        ensures
            final(self).deep_view() == old(self).deep_view().with_var(idx as int, val),
    {
        if idx < self.vars.len() {
            self.vars[idx] = val;
        }
    }

    /// Adds `delta` to variable `idx`. Does nothing if there is no such
    /// variable.
    pub fn inc_var(&mut self, idx: usize, delta: i32)
        ensures
            final(self).deep_view() == old(self).deep_view().with_var_added(idx as int, delta),
    {
        if idx < self.vars.len() {
            let sum = saturating_sum(self.vars[idx], delta);
            self.vars[idx] = sum;
        }
    }

    /// Marks the agent dead.
    pub fn kill(&mut self)
        ensures
            final(self).deep_view() == old(self).deep_view().killed(),
    {
        self.alive = false;
    }
}

} // verus!
