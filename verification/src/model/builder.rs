//! From a configuration to a populated world.
//!
//! The builder holds the world under construction, the agents placed so far
//! and a table of the declared species. The table keeps the species in the
//! order in which their names were first declared; a later declaration of a
//! name replaces the earlier one in place.

use vstd::prelude::*;
use vstd::string::*;
use crate::dsl::ast::{ConfigAst, ConfigView, Species, SpeciesView};
use crate::model::agent::{Agent, AgentId, AgentView, SpeciesKind};
use crate::model::placement::{draws_fit, outcome};
use crate::model::position::Position;
use crate::model::world::{World, WorldView};
use crate::utils::color::{color_from, color_value, lowercase_of, GRAY};
use crate::utils::vecs::push_deep;

verus! {

/// Why a world could not be built. An error names what it stumbled on.
#[derive(Debug, Clone, PartialEq, Eq)]
pub enum BuildError {
    /// The configuration has no `world` statement.
    NoWorld,
    /// The grid would have more cells than the machine can count.
    WorldTooLarge,
    /// No species has the name `name`.
    SpeciesNotFound { name: String },
    /// The pattern `pattern` names no declared species.
    UnknownSpecies { pattern: String },
    /// The side `range` of a range position is not `start:end`.
    InvalidRange { range: String },
    /// A bound of the side `range` of a range position is not a number.
    InvalidNumber { range: String },
}

/// The mathematical value of a [`BuildError`].
pub enum BuildErrorView {
    NoWorld,
    WorldTooLarge,
    SpeciesNotFound { name: Seq<char> },
    UnknownSpecies { pattern: Seq<char> },
    InvalidRange { range: Seq<char> },
    InvalidNumber { range: Seq<char> },
}

impl DeepView for BuildError {
    type V = BuildErrorView;

    open spec fn deep_view(&self) -> BuildErrorView {
        match self {
            BuildError::NoWorld => BuildErrorView::NoWorld,
            BuildError::WorldTooLarge => BuildErrorView::WorldTooLarge,
            BuildError::SpeciesNotFound { name } => BuildErrorView::SpeciesNotFound { name: name@ },
            BuildError::UnknownSpecies { pattern } => BuildErrorView::UnknownSpecies {
                pattern: pattern@,
            },
            BuildError::InvalidRange { range } => BuildErrorView::InvalidRange { range: range@ },
            BuildError::InvalidNumber { range } => BuildErrorView::InvalidNumber { range: range@ },
        }
    }
}

/// The result `r` with its error, if it is one, as its mathematical value.
pub open spec fn viewed<T>(r: Result<T, BuildError>) -> Result<T, BuildErrorView> {
    match r {
        Ok(value) => Ok(value),
        Err(e) => Err(e.deep_view()),
    }
}

impl BuildErrorView {
    /// The message for the operator: what went wrong, and with what.
    pub open spec fn message(self) -> Seq<char> {
        match self {
            BuildErrorView::NoWorld => "No world configuration found"@,
            BuildErrorView::WorldTooLarge => "World too large"@,
            BuildErrorView::SpeciesNotFound { name } => "Species '"@ + name + "' not found"@,
            BuildErrorView::UnknownSpecies { pattern } => "Aucune espèce reconnue dans le pattern: "@
                + pattern,
            BuildErrorView::InvalidRange { range } => "Format de range invalide: "@ + range,
            BuildErrorView::InvalidNumber { range } => "Invalid number in range: "@ + range,
        }
    }
}

impl BuildError {
    /// The message for the operator.
    pub open spec fn message_spec(self) -> Seq<char> {
        self.deep_view().message()
    }

    /// The message for the operator: what went wrong, and with what.
    pub fn message(&self) -> (text: String)
        ensures
            text@ == self.message_spec(),
    {
        match self {
            BuildError::NoWorld => String::from_str("No world configuration found"),
            BuildError::WorldTooLarge => String::from_str("World too large"),
            BuildError::SpeciesNotFound { name } => {
                let mut text = String::from_str("Species '");
                text.append(name.as_str());
                text.append("' not found");
                text
            },
            BuildError::UnknownSpecies { pattern } => {
                let mut text = String::from_str("Aucune espèce reconnue dans le pattern: ");
                text.append(pattern.as_str());
                text
            },
            BuildError::InvalidRange { range } => {
                let mut text = String::from_str("Format de range invalide: ");
                text.append(range.as_str());
                text
            },
            BuildError::InvalidNumber { range } => {
                let mut text = String::from_str("Invalid number in range: ");
                text.append(range.as_str());
                text
            },
        }
    }
}

/// What the builder knows of a declared species.
#[derive(Debug, Clone)]
pub struct SpeciesInfo {
    pub kind: SpeciesKind,
    pub color: u32,
    pub var_names: Vec<String>,
    pub default_status: String,
    /// The index of the species among the declared species.
    pub species_id: usize,
}

/// The mathematical value of a [`SpeciesInfo`].
pub struct SpeciesInfoView {
    pub kind: SpeciesKind,
    pub color: u32,
    pub var_names: Seq<Seq<char>>,
    pub default_status: Seq<char>,
    pub species_id: usize,
}

impl DeepView for SpeciesInfo {
    type V = SpeciesInfoView;

    open spec fn deep_view(&self) -> SpeciesInfoView {
        SpeciesInfoView {
            kind: self.kind,
            color: self.color,
            var_names: self.var_names.deep_view(),
            default_status: self.default_status@,
            species_id: self.species_id,
        }
    }
}

/// One entry of the species table.
#[derive(Debug, Clone)]
pub struct SpeciesEntry {
    pub name: String,
    pub info: SpeciesInfo,
}

/// The mathematical value of a [`SpeciesEntry`].
pub struct SpeciesEntryView {
    pub name: Seq<char>,
    pub info: SpeciesInfoView,
}

impl DeepView for SpeciesEntry {
    type V = SpeciesEntryView;

    open spec fn deep_view(&self) -> SpeciesEntryView {
        SpeciesEntryView { name: self.name@, info: self.info.deep_view() }
    }
}

/// The declared species by name, in the order of their first declaration.
#[derive(Debug)]
pub struct SpeciesTable {
    pub entries: Vec<SpeciesEntry>,
}

impl DeepView for SpeciesTable {
    type V = Seq<SpeciesEntryView>;

    open spec fn deep_view(&self) -> Seq<SpeciesEntryView> {
        self.entries.deep_view()
    }
}

/// The index of the first entry from `from` on with the name `name`.
pub open spec fn entry_from(table: Seq<SpeciesEntryView>, name: Seq<char>, from: int) -> Option<int>
    decreases table.len() - from,
{
    if from < 0 || from >= table.len() {
        None
    } else if table[from].name == name {
        Some(from)
    } else {
        entry_from(table, name, from + 1)
    }
}

/// The index of the first entry with the name `name`.
pub open spec fn entry_of(table: Seq<SpeciesEntryView>, name: Seq<char>) -> Option<int> {
    entry_from(table, name, 0)
}

/// The table with `entry` put in: in place of the entry of the same name if
/// there is one, else at the end.
pub open spec fn with_entry(table: Seq<SpeciesEntryView>, entry: SpeciesEntryView) -> Seq<
    SpeciesEntryView,
> {
    match entry_of(table, entry.name) {
        Some(k) => table.update(k, entry),
        None => table.push(entry),
    }
}

impl SpeciesTable {
    /// An empty table.
    pub fn new() -> (table: Self)
        ensures
            table.deep_view() == Seq::<SpeciesEntryView>::empty(),
    {
        let table = Self { entries: Vec::new() };
        assert(table.deep_view() =~= Seq::<SpeciesEntryView>::empty());
        table
    }

    /// The number of names in the table.
    pub fn len(&self) -> (n: usize)
        ensures
            n == self.deep_view().len(),
    {
        self.entries.len()
    }

    /// The index of the entry with the name `name`.
    pub fn position(&self, name: &str) -> (r: Option<usize>)
        ensures
            r is Some <==> entry_of(self.deep_view(), name@) is Some,
            r matches Some(k) ==> entry_of(self.deep_view(), name@) == Some(k as int) && k
                < self.entries@.len(),
    {
        let ghost table = self.deep_view();
        let mut k: usize = 0;
        while k < self.entries.len()
            invariant
                k <= self.entries@.len(),
                table == self.deep_view(),
                entry_of(table, name@) == entry_from(table, name@, k as int),
            decreases self.entries@.len() - k,
        {
            assert(table[k as int].name == self.entries@[k as int].name@);
            if self.entries[k].name.as_str().eq(name) {
                return Some(k);
            }
            k += 1;
        }
        None
    }

    /// Whether the table has the name `name`.
    pub fn contains_key(&self, name: &str) -> (r: bool)
        ensures
            r == entry_of(self.deep_view(), name@) is Some,
    {
        self.position(name).is_some()
    }

    /// What the table holds for the name `name`.
    pub fn get(&self, name: &str) -> (r: Option<&SpeciesInfo>)
        ensures
            match r {
                Some(info) => entry_of(self.deep_view(), name@) matches Some(k)
                    && self.deep_view()[k].info == info.deep_view(),
                None => entry_of(self.deep_view(), name@) is None,
            },
    {
        match self.position(name) {
            Some(k) => {
                assert(self.deep_view()[k as int].info == self.entries@[k as int].info.deep_view());
                Some(&self.entries[k].info)
            },
            None => None,
        }
    }

    /// Puts `info` in for `name`, in place of what the table held for that
    /// name if it held something.
    pub fn insert(&mut self, name: String, info: SpeciesInfo)
        ensures
            final(self).deep_view() == with_entry(
                old(self).deep_view(),
                SpeciesEntryView { name: name@, info: info.deep_view() },
            ),
    {
        let ghost before = self.deep_view();
        match self.position(name.as_str()) {
            Some(k) => {
                let entry = SpeciesEntry { name, info };
                let ghost view = entry.deep_view();
                self.entries[k] = entry;
                assert(self.deep_view() =~= before.update(k as int, view));
            },
            None => {
                push_deep(&mut self.entries, SpeciesEntry { name, info });
            },
        }
    }
}

/// Reads a colour: a name or hexadecimal notation. A text that is neither
/// gives gray; the result is never an error.
pub fn parse_color(color_str: &str) -> (r: Result<u32, BuildError>)
    ensures
        r == Ok::<u32, BuildError>(color_value(color_str@)),
{
    let lower = lowercase_of(color_str);
    Ok(color_from(lower.as_str(), color_str))
}

/// Builds a world from a configuration: the world, the agents placed so far,
/// and the declared species.
#[derive(Debug)]
pub struct WorldBuilder {
    pub world: World,
    pub agents: Vec<Agent>,
    pub species_map: SpeciesTable,
}

/// The mathematical value of a [`WorldBuilder`].
pub struct BuilderView {
    pub world: WorldView,
    pub agents: Seq<AgentView>,
    pub species: Seq<SpeciesEntryView>,
}

impl DeepView for WorldBuilder {
    type V = BuilderView;

    open spec fn deep_view(&self) -> BuilderView {
        BuilderView {
            world: self.world.deep_view(),
            agents: self.agents.deep_view(),
            species: self.species_map.deep_view(),
        }
    }
}

/// The family of the model for a family of the syntax tree.
pub open spec fn kind_of(kind: crate::dsl::ast::SpeciesKind) -> SpeciesKind {
    match kind {
        crate::dsl::ast::SpeciesKind::Mineral => SpeciesKind::Mineral,
        crate::dsl::ast::SpeciesKind::Vegetal => SpeciesKind::Vegetal,
        crate::dsl::ast::SpeciesKind::Animal => SpeciesKind::Animal,
    }
}

/// The table entry for the species declared at `index`: its colour is read
/// from its colour text, and its agents start with its name as status.
pub open spec fn species_entry(species: SpeciesView, index: int) -> SpeciesEntryView {
    SpeciesEntryView {
        name: species.name,
        info: SpeciesInfoView {
            kind: kind_of(species.kind),
            color: color_value(species.color),
            var_names: Seq::new(species.vars.len(), |i: int| species.vars[i].name),
            default_status: species.name,
            species_id: index as usize,
        },
    }
}

/// The table of the first `n` declared species.
pub open spec fn table_of(species: Seq<SpeciesView>, n: int) -> Seq<SpeciesEntryView>
    decreases n,
{
    if n <= 0 {
        seq![]
    } else {
        with_entry(table_of(species, n - 1), species_entry(species[n - 1], n - 1))
    }
}

/// The builder for a configuration, before any agent is placed.
pub open spec fn from_config_spec(config: ConfigView) -> Result<BuilderView, BuildErrorView> {
    match config.world {
        None => Err(BuildErrorView::NoWorld),
        Some(world) => if world.rows * world.cols > usize::MAX {
            Err(BuildErrorView::WorldTooLarge)
        } else {
            Ok(
                BuilderView {
                    world: WorldView::empty(world.rows, world.cols),
                    agents: seq![],
                    species: table_of(config.species, config.species.len() as int),
                },
            )
        },
    }
}

/// The family of the model for a family of the syntax tree.
pub fn species_kind(kind: crate::dsl::ast::SpeciesKind) -> (r: SpeciesKind)
    ensures
        r == kind_of(kind),
{
    match kind {
        crate::dsl::ast::SpeciesKind::Mineral => SpeciesKind::Mineral,
        crate::dsl::ast::SpeciesKind::Vegetal => SpeciesKind::Vegetal,
        crate::dsl::ast::SpeciesKind::Animal => SpeciesKind::Animal,
    }
}

fn entry_for(species: &Species, index: usize) -> (entry: (String, SpeciesInfo))
    ensures
        species_entry(species.deep_view(), index as int) == (SpeciesEntryView {
            name: entry.0@,
            info: entry.1.deep_view(),
        }),
{
    let mut var_names: Vec<String> = Vec::new();
    let mut i: usize = 0;
    assert(var_names.deep_view() =~= Seq::<Seq<char>>::empty());
    while i < species.vars.len()
        invariant
            i <= species.vars@.len(),
            var_names.deep_view() == Seq::new(
                i as nat,
                |j: int| species.deep_view().vars[j].name,
            ),
        decreases species.vars@.len() - i,
    {
        let ghost before = var_names.deep_view();
        push_deep(&mut var_names, species.vars[i].name.clone());
        assert(var_names.deep_view() =~= Seq::new(
            (i + 1) as nat,
            |j: int| species.deep_view().vars[j].name,
        ));
        i += 1;
    }
    let color = match parse_color(species.color.as_str()) {
        Ok(c) => c,
        Err(_) => GRAY,
    };
    let info = SpeciesInfo {
        kind: species_kind(species.kind),
        color,
        var_names,
        default_status: species.name.clone(),
        species_id: index,
    };
    (species.name.clone(), info)
}

impl BuilderView {
    /// The grid has exactly `rows * cols` cells.
    pub open spec fn wf(self) -> bool {
        self.world.wf()
    }

    /// The builder with one more agent: of the species of table entry `k`,
    /// at `pos`. Its id is the number of agents placed before it, and the
    /// cell at `pos` records it if `pos` lies on the grid.
    pub open spec fn with_agent(self, k: int, pos: Position) -> BuilderView {
        let info = self.species[k].info;
        let id = self.agents.len() as usize;
        BuilderView {
            world: self.world.with_agent_at(pos, Some(id)),
            agents: self.agents.push(
                AgentView::newborn(
                    id,
                    pos,
                    info.kind,
                    info.species_id,
                    info.default_status,
                    info.color,
                    info.var_names.len(),
                ),
            ),
            ..self
        }
    }

    /// The builder after an agent of the species named `name` is added at
    /// `pos`.
    pub open spec fn added(self, name: Seq<char>, pos: Position) -> Result<BuilderView, BuildErrorView> {
        match entry_of(self.species, name) {
            Some(k) => Ok(self.with_agent(k, pos)),
            None => Err(BuildErrorView::SpeciesNotFound { name }),
        }
    }
}

impl WorldBuilder {
    /// The grid of the world under construction has its `rows * cols` cells.
    pub open spec fn wf(&self) -> bool {
        self.deep_view().wf()
    }

    /// A builder for `config`: an empty world of the declared size and the
    /// table of the declared species.
    pub fn from_config(config: &ConfigAst) -> (r: Result<Self, BuildError>)
        ensures
            match r {
                Ok(builder) => from_config_spec(config.deep_view()) == Ok::<
                    BuilderView,
                    BuildErrorView,
                >(builder.deep_view()) && builder.wf(),
                Err(e) => from_config_spec(config.deep_view()) == Err::<
                    BuilderView,
                    BuildErrorView,
                >(e.deep_view()),
            },
    {
        let world = match &config.world {
            Some(declared) => {
                match declared.rows.checked_mul(declared.cols) {
                    Some(_) => World::new(declared.rows, declared.cols),
                    None => {
                        return Err(BuildError::WorldTooLarge);
                    },
                }
            },
            None => {
                return Err(BuildError::NoWorld);
            },
        };
        let ghost species = config.deep_view().species;
        let mut species_map = SpeciesTable::new();
        let mut i: usize = 0;
        while i < config.species.len()
            invariant
                i <= config.species@.len(),
                species == config.deep_view().species,
                species_map.deep_view() == table_of(species, i as int),
            decreases config.species@.len() - i,
        {
            let (name, info) = entry_for(&config.species[i], i);
            assert(species[i as int] == config.species@[i as int].deep_view());
            species_map.insert(name, info);
            i += 1;
        }
        let builder = Self { world, agents: Vec::new(), species_map };
        assert(builder.agents.deep_view() =~= Seq::<AgentView>::empty());
        Ok(builder)
    }

    pub(crate) fn add_agent_of(&mut self, k: usize, pos: Position) -> (id: AgentId)
        requires
            old(self).wf(),
            k < old(self).species_map.entries@.len(),
        ensures
            final(self).deep_view() == old(self).deep_view().with_agent(k as int, pos),
            id == old(self).agents@.len(),
            final(self).wf(),
            final(self).species_map == old(self).species_map,
    {
        let id = self.agents.len();
        let info = &self.species_map.entries[k].info;
        assert(self.deep_view().species[k as int].info == info.deep_view());
        let agent = Agent::with_status(
            id,
            pos,
            info.kind,
            info.species_id,
            info.default_status.clone(),
            info.color,
            info.var_names.len(),
        );
        push_deep(&mut self.agents, agent);
        self.world.set_agent(pos, Some(id));
        id
    }

    /// Adds an agent of the species named `species_name` at `pos` and
    /// returns its id. The cell at `pos` records the agent if `pos` lies on
    /// the grid. Fails, and changes nothing, if there is no such species.
    pub fn add_agent(&mut self, species_name: &str, pos: Position) -> (r: Result<
        AgentId,
        BuildError,
    >)
        requires
            old(self).wf(),
        ensures
            match r {
                Ok(id) => old(self).deep_view().added(species_name@, pos) == Ok::<
                    BuilderView,
                    BuildErrorView,
                >(final(self).deep_view()) && id == old(self).agents@.len(),
                Err(e) => old(self).deep_view().added(species_name@, pos) == Err::<
                    BuilderView,
                    BuildErrorView,
                >(e.deep_view()) && final(self).deep_view() == old(self).deep_view(),
            },
            final(self).wf(),
    {
        match self.species_map.position(species_name) {
            Some(k) => Ok(self.add_agent_of(k, pos)),
            None => Err(BuildError::SpeciesNotFound { name: String::from_str(species_name) }),
        }
    }

    /// The builder's world and agents.
    pub fn build(self) -> (r: (World, Vec<Agent>))
        ensures
            r.0 == self.world,
            r.1 == self.agents,
    {
        (self.world, self.agents)
    }
}

/// The world that a configuration describes: of the declared size, with the
/// agents that its `agent` statements place, each known to the world under
/// its id.
pub fn create_world_from_ast(config: &ConfigAst) -> (r: Result<World, BuildError>)
    ensures
        exists|draws: Seq<Seq<Seq<u32>>>|
            draws_fit(config.deep_view().agents, draws) && match r {
                Ok(world) => world_spec(config.deep_view(), draws) == Ok::<
                    WorldView,
                    BuildErrorView,
                >(world.deep_view()) && world.wf(),
                Err(e) => #[trigger] world_spec(config.deep_view(), draws) == Err::<
                    WorldView,
                    BuildErrorView,
                >(e.deep_view()),
            },
{
    let mut builder = match WorldBuilder::from_config(config) {
        Ok(builder) => builder,
        Err(e) => {
            proof {
                let defs = config.deep_view().agents;
                let none = Seq::new(
                    defs.len(),
                    |a: int| Seq::new(defs[a].positions.len(), |b: int| Seq::<u32>::empty()),
                );
                assert(draws_fit(defs, none));
                assert(world_spec(config.deep_view(), none) == Err::<WorldView, BuildErrorView>(
                    e.deep_view(),
                ));
            }
            return Err(e);
        },
    };
    let ghost start = builder.deep_view();
    match builder.place_agents(config) {
        Ok(()) => {},
        Err(e) => {
            proof {
                let defs = config.deep_view().agents;
                let draws = choose|draws: Seq<Seq<Seq<u32>>>|
                    draws_fit(defs, draws) && outcome(
                        Err::<(), BuildError>(e),
                        builder.deep_view(),
                        #[trigger] start.agents_placed(defs, draws, defs.len() as int),
                    );
                assert(world_spec(config.deep_view(), draws) == Err::<WorldView, BuildErrorView>(
                    e.deep_view(),
                ));
            }
            return Err(e);
        },
    }
    proof {
        let defs = config.deep_view().agents;
        let draws = choose|draws: Seq<Seq<Seq<u32>>>|
            draws_fit(defs, draws) && outcome(
                Ok::<(), BuildError>(()),
                builder.deep_view(),
                #[trigger] start.agents_placed(defs, draws, defs.len() as int),
            );
        assert(world_spec(config.deep_view(), draws) == Ok::<WorldView, BuildErrorView>(
            WorldView { agents: builder.deep_view().agents, ..builder.deep_view().world },
        ));
    }
    let (mut world, agents) = builder.build();
    world.agents = agents;
    Ok(world)
}

/// The world that `config` describes when the draws are `draws`.
pub open spec fn world_spec(config: ConfigView, draws: Seq<Seq<Seq<u32>>>) -> Result<
    WorldView,
    BuildErrorView,
> {
    match from_config_spec(config) {
        Err(e) => Err(e),
        Ok(builder) => match builder.agents_placed(
            config.agents,
            draws,
            config.agents.len() as int,
        ) {
            Err(e) => Err(e),
            Ok(built) => Ok(WorldView { agents: built.agents, ..built.world }),
        },
    }
}

} // verus!
