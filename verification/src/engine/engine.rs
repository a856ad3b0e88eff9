//! The engine: a world, its species and its fields, advanced tick by tick.
//!
//! One tick clears the fields, lets every living agent emit into the fields
//! of its species, advances the variables that change with time, reads the
//! sensors, and then applies the status rules and the birth rules, agent by
//! agent in the order of their ids.
//!
//! An agent emits the value of its first variable into each field that its
//! species declares; an agent without variables emits nothing.

use vstd::prelude::*;
use vstd::string::*;
use crate::dsl::ast::{ConfigAst, ConfigView, FieldDefView, RuleView, Species, SpeciesView};
use crate::engine::field::{contribution, lemma_contribution, Field, FieldDef, FieldView};
use crate::engine::rules::{
    apply_birth_rules, apply_status_rules, birth_applied, status_applied, BirthRule, StatusRule,
};
use crate::engine::sensor::{find_field, lookup_field, reading, SensorDef, SensorDefView};
use crate::model::agent::{Agent, AgentView, SpeciesKind};
use crate::model::builder::{kind_of, parse_color, BuildError};
use crate::model::position::Position;
use crate::model::world::{lemma_index_in_grid, World, WorldView};
use crate::utils::color::{color_value, GRAY};
use crate::utils::vecs::push_deep;

verus! {

/// A species as the engine uses it.
#[derive(Debug, Clone)]
pub struct SpeciesDef {
    pub kind: SpeciesKind,
    /// Packed `0xRRGGBB`.
    pub color: u32,
    pub num_vars: usize,
    /// What is added to each variable at every tick.
    pub timesteps: Vec<i32>,
    pub status_rules: Vec<StatusRule>,
    pub birth_rules: Vec<BirthRule>,
    pub field_defs: Vec<FieldDef>,
    pub sensors: Vec<SensorDef>,
}

/// The mathematical value of a [`SpeciesDef`].
pub struct SpeciesDefView {
    pub kind: SpeciesKind,
    pub color: u32,
    pub num_vars: usize,
    pub timesteps: Seq<i32>,
    pub status_rules: Seq<RuleView>,
    pub birth_rules: Seq<RuleView>,
    pub field_defs: Seq<FieldDefView>,
    pub sensors: Seq<SensorDefView>,
}

impl DeepView for SpeciesDef {
    type V = SpeciesDefView;

    open spec fn deep_view(&self) -> SpeciesDefView {
        SpeciesDefView {
            kind: self.kind,
            color: self.color,
            num_vars: self.num_vars,
            timesteps: self.timesteps@,
            status_rules: self.status_rules.deep_view(),
            birth_rules: self.birth_rules.deep_view(),
            field_defs: self.field_defs.deep_view(),
            sensors: self.sensors.deep_view(),
        }
    }
}

/// The simulation: the world, the species, one field for each declared field
/// name, and whether the simulation is running.
#[derive(Debug)]
pub struct Engine {
    pub world: World,
    pub species_defs: Vec<SpeciesDef>,
    pub fields: Vec<Field>,
    pub running: bool,
}

/// The mathematical value of an [`Engine`].
pub struct EngineView {
    pub world: WorldView,
    pub species: Seq<SpeciesDefView>,
    pub fields: Seq<FieldView>,
    pub running: bool,
}

impl DeepView for Engine {
    type V = EngineView;

    open spec fn deep_view(&self) -> EngineView {
        EngineView {
            world: self.world.deep_view(),
            species: self.species_defs.deep_view(),
            fields: self.fields.deep_view(),
            running: self.running,
        }
    }
}

/// The species definition for a declared species: its family, its colour
/// read from the colour text, its variables with their increments, its rules
/// and its fields, all in their order. Sensors are not carried over.
pub open spec fn species_def_of(species: SpeciesView) -> SpeciesDefView {
    SpeciesDefView {
        kind: kind_of(species.kind),
        color: color_value(species.color),
        num_vars: species.vars.len() as usize,
        timesteps: Seq::new(species.vars.len(), |i: int| species.vars[i].timestep),
        status_rules: species.statuses,
        birth_rules: species.births,
        field_defs: species.fields,
        sensors: seq![],
    }
}

/// The species definitions for a configuration, one for each declared
/// species, in their order.
pub open spec fn species_defs_of(config: ConfigView) -> Seq<SpeciesDefView> {
    Seq::new(config.species.len(), |i: int| species_def_of(config.species[i]))
}

fn copy_text(text: &Option<String>) -> (r: Option<String>)
    ensures
        r.deep_view() == text.deep_view(),
{
    match text {
        Some(s) => Some(s.clone()),
        None => None,
    }
}

fn compile_species(species: &Species) -> (def: SpeciesDef)
    ensures
        def.deep_view() == species_def_of(species.deep_view()),
{
    let ghost view = species.deep_view();
    let mut timesteps: Vec<i32> = Vec::new();
    let mut i: usize = 0;
    while i < species.vars.len()
        invariant
            i <= species.vars@.len(),
            view == species.deep_view(),
            timesteps@ == Seq::new(i as nat, |j: int| view.vars[j].timestep),
        decreases species.vars@.len() - i,
    {
        timesteps.push(species.vars[i].timestep);
        assert(timesteps@ =~= Seq::new((i + 1) as nat, |j: int| view.vars[j].timestep));
        i += 1;
    }
    let mut status_rules: Vec<StatusRule> = Vec::new();
    assert(status_rules.deep_view() =~= view.statuses.take(0));
    let mut i: usize = 0;
    while i < species.statuses.len()
        invariant
            i <= species.statuses@.len(),
            view == species.deep_view(),
            status_rules.deep_view() == view.statuses.take(i as int),
        decreases species.statuses@.len() - i,
    {
        let rule = &species.statuses[i];
        let copy = StatusRule {
            variable: copy_text(&rule.variable),
            less_than: rule.less_than,
            threshold: rule.threshold,
            new_status: rule.new_status.clone(),
        };
        assert(copy.deep_view() == view.statuses[i as int]);
        push_deep(&mut status_rules, copy);
        assert(status_rules.deep_view() =~= view.statuses.take(i + 1));
        i += 1;
    }
    assert(view.statuses.take(view.statuses.len() as int) =~= view.statuses);
    let mut birth_rules: Vec<BirthRule> = Vec::new();
    assert(birth_rules.deep_view() =~= view.births.take(0));
    let mut i: usize = 0;
    while i < species.births.len()
        invariant
            i <= species.births@.len(),
            view == species.deep_view(),
            birth_rules.deep_view() == view.births.take(i as int),
        decreases species.births@.len() - i,
    {
        let rule = &species.births[i];
        let copy = BirthRule {
            variable: copy_text(&rule.variable),
            less_than: rule.less_than,
            threshold: rule.threshold,
            child_status: rule.child_status.clone(),
        };
        assert(copy.deep_view() == view.births[i as int]);
        push_deep(&mut birth_rules, copy);
        assert(birth_rules.deep_view() =~= view.births.take(i + 1));
        i += 1;
    }
    assert(view.births.take(view.births.len() as int) =~= view.births);
    let mut field_defs: Vec<FieldDef> = Vec::new();
    assert(field_defs.deep_view() =~= view.fields.take(0));
    let mut i: usize = 0;
    while i < species.fields.len()
        invariant
            i <= species.fields@.len(),
            view == species.deep_view(),
            field_defs.deep_view() == view.fields.take(i as int),
        decreases species.fields@.len() - i,
    {
        let field = &species.fields[i];
        let copy = FieldDef { name: field.name.clone(), step: field.step };
        assert(copy.deep_view() == view.fields[i as int]);
        push_deep(&mut field_defs, copy);
        assert(field_defs.deep_view() =~= view.fields.take(i + 1));
        i += 1;
    }
    assert(view.fields.take(view.fields.len() as int) =~= view.fields);
    let color = match parse_color(species.color.as_str()) {
        Ok(c) => c,
        Err(_) => GRAY,
    };
    let sensors: Vec<SensorDef> = Vec::new();
    assert(sensors.deep_view() =~= Seq::<SensorDefView>::empty());
    SpeciesDef {
        kind: crate::model::builder::species_kind(species.kind),
        color,
        num_vars: species.vars.len(),
        timesteps,
        status_rules,
        birth_rules,
        field_defs,
        sensors,
    }
}

/// Compiles the declared species of `config` into species definitions. This
/// never fails.
pub fn create_species_from_ast(config: &ConfigAst) -> (r: Result<Vec<SpeciesDef>, BuildError>)
    ensures
        r is Ok,
        r->Ok_0.deep_view() == species_defs_of(config.deep_view()),
{
    let ghost species = config.deep_view().species;
    let mut defs: Vec<SpeciesDef> = Vec::new();
    assert(defs.deep_view() =~= Seq::new(0, |i: int| species_def_of(species[i])));
    let mut i: usize = 0;
    while i < config.species.len()
        invariant
            i <= config.species@.len(),
            species == config.deep_view().species,
            defs.deep_view() == Seq::new(i as nat, |j: int| species_def_of(species[j])),
        decreases config.species@.len() - i,
    {
        let def = compile_species(&config.species[i]);
        assert(species[i as int] == config.species@[i as int].deep_view());
        push_deep(&mut defs, def);
        assert(defs.deep_view() =~= Seq::new((i + 1) as nat, |j: int| species_def_of(species[j])));
        i += 1;
    }
    Ok(defs)
}


/// The fields with a fresh field for `def` put in: in place of the field of
/// the same name if there is one, else at the end.
pub open spec fn with_field(fields: Seq<FieldView>, def: FieldDefView, rows: nat, cols: nat) -> Seq<
    FieldView,
> {
    match find_field(fields, def.name) {
        Some(k) => fields.update(k, FieldView::fresh(def, rows, cols)),
        None => fields.push(FieldView::fresh(def, rows, cols)),
    }
}

/// The fields after the first `n` declarations of `defs` have been put in.
pub open spec fn with_fields(
    fields: Seq<FieldView>,
    defs: Seq<FieldDefView>,
    rows: nat,
    cols: nat,
    n: int,
) -> Seq<FieldView>
    decreases n,
{
    if n <= 0 {
        fields
    } else {
        with_field(with_fields(fields, defs, rows, cols, n - 1), defs[n - 1], rows, cols)
    }
}

/// The fields that the first `n` species declare: one for each name, with
/// the decay of the last declaration of that name.
pub open spec fn fields_of(species: Seq<SpeciesDefView>, rows: nat, cols: nat, n: int) -> Seq<
    FieldView,
>
    decreases n,
{
    if n <= 0 {
        seq![]
    } else {
        with_fields(
            fields_of(species, rows, cols, n - 1),
            species[n - 1].field_defs,
            rows,
            cols,
            species[n - 1].field_defs.len() as int,
        )
    }
}

/// Every field has its `rows * cols` values.
pub open spec fn fields_wf(fields: Seq<FieldView>) -> bool {
    forall|j: int| 0 <= j < fields.len() ==> (#[trigger] fields[j]).wf()
}

/// The fields, all cleared.
pub open spec fn cleared_all(fields: Seq<FieldView>) -> Seq<FieldView> {
    Seq::new(fields.len(), |j: int| fields[j].cleared())
}

/// The fields after a source of strength `value` at `pos` was added to the
/// field that `def` names. Nothing changes if there is no such field.
pub open spec fn emit_def(fields: Seq<FieldView>, def: FieldDefView, pos: Position, value: i32) -> Seq<
    FieldView,
> {
    match find_field(fields, def.name) {
        Some(j) => fields.update(j, fields[j].with_source(pos, value)),
        None => fields,
    }
}

/// The fields after the source was added to the fields that the first `n`
/// declarations name.
pub open spec fn emit_defs(
    fields: Seq<FieldView>,
    defs: Seq<FieldDefView>,
    pos: Position,
    value: i32,
    n: int,
) -> Seq<FieldView>
    decreases n,
{
    if n <= 0 {
        fields
    } else {
        emit_def(emit_defs(fields, defs, pos, value, n - 1), defs[n - 1], pos, value)
    }
}

/// The agent takes part in the tick: it is alive and its species is known.
pub open spec fn active(agent: AgentView, species: Seq<SpeciesDefView>) -> bool {
    agent.alive && agent.species_id < species.len()
}

/// The fields after `agent` has emitted: the value of its first variable
/// into each field of its species, from its position.
pub open spec fn emit_agent(fields: Seq<FieldView>, agent: AgentView, species: Seq<SpeciesDefView>) -> Seq<
    FieldView,
> {
    if active(agent, species) && agent.vars.len() > 0 {
        let defs = species[agent.species_id as int].field_defs;
        emit_defs(fields, defs, agent.pos, agent.vars[0], defs.len() as int)
    } else {
        fields
    }
}

/// The fields after the first `n` agents have emitted.
pub open spec fn emit_agents(
    fields: Seq<FieldView>,
    agents: Seq<AgentView>,
    species: Seq<SpeciesDefView>,
    n: int,
) -> Seq<FieldView>
    decreases n,
{
    if n <= 0 {
        fields
    } else {
        emit_agent(emit_agents(fields, agents, species, n - 1), agents[n - 1], species)
    }
}

/// What a source of strength `value` puts into its own cell of the field
/// named `name`.
pub open spec fn own_part(fields: Seq<FieldView>, name: Seq<char>, value: i32) -> i32 {
    match find_field(fields, name) {
        Some(j) => contribution(value as int, fields[j].step as int, 0) as i32,
        None => 0,
    }
}

/// What `agent` put into its own cell, field by field of its species.
pub open spec fn own_parts(agent: AgentView, species: Seq<SpeciesDefView>, fields: Seq<FieldView>) -> Seq<
    (Seq<char>, i32),
> {
    if active(agent, species) && agent.vars.len() > 0 {
        let defs = species[agent.species_id as int].field_defs;
        Seq::new(defs.len(), |d: int| (defs[d].name, own_part(fields, defs[d].name, agent.vars[0])))
    } else {
        seq![]
    }
}

/// The agent after the first `n` of the increments `steps` have been added
/// to its variables.
pub open spec fn aged(agent: AgentView, steps: Seq<i32>, n: int) -> AgentView
    decreases n,
{
    if n <= 0 {
        agent
    } else {
        aged(agent, steps, n - 1).with_var_added(n - 1, steps[n - 1])
    }
}

/// The agent after the first `n` sensors have written their readings at the
/// cell with index `cell` into their variables.
pub open spec fn sensed(
    agent: AgentView,
    sensors: Seq<SensorDefView>,
    fields: Seq<FieldView>,
    cell: int,
    own: Seq<(Seq<char>, i32)>,
    n: int,
) -> AgentView
    decreases n,
{
    if n <= 0 {
        agent
    } else {
        sensed(agent, sensors, fields, cell, own, n - 1).with_var(
            sensors[n - 1].target_var as int,
            reading(sensors[n - 1], fields, cell, own),
        )
    }
}

/// The agent after its variables were advanced and its sensors were read.
/// An agent that stands off the grid reads no sensors.
pub open spec fn refreshed(
    agent: AgentView,
    species: Seq<SpeciesDefView>,
    fields: Seq<FieldView>,
    world: WorldView,
) -> AgentView {
    if active(agent, species) {
        let def = species[agent.species_id as int];
        let older = aged(agent, def.timesteps, def.timesteps.len() as int);
        if world.in_bounds(agent.pos) {
            sensed(
                older,
                def.sensors,
                fields,
                world.index(agent.pos),
                own_parts(agent, species, fields),
                def.sensors.len() as int,
            )
        } else {
            older
        }
    } else {
        agent
    }
}

/// The world after the rules of agent `i`: its status rules first; if they
/// kill it the world loses it, and otherwise its birth rules follow.
pub open spec fn rule_step(world: WorldView, species: Seq<SpeciesDefView>, i: int) -> WorldView {
    let agent = world.agents[i];
    if active(agent, species) {
        let def = species[agent.species_id as int];
        if status_applied(agent, def.status_rules).alive {
            birth_applied(world, agent, def.birth_rules)
        } else {
            world.killed(i)
        }
    } else {
        world
    }
}

/// The world after the rules of the first `n` agents.
pub open spec fn rules_applied(world: WorldView, species: Seq<SpeciesDefView>, n: int) -> WorldView
    decreases n,
{
    if n <= 0 {
        world
    } else {
        rule_step(rules_applied(world, species, n - 1), species, n - 1)
    }
}

/// How many of the first `n` agents are alive.
pub open spec fn count_alive(agents: Seq<AgentView>, n: int) -> nat
    decreases n,
{
    if n <= 0 {
        0
    } else {
        count_alive(agents, n - 1) + if agents[n - 1].alive {
            1nat
        } else {
            0nat
        }
    }
}

impl EngineView {
    /// The grid and every field have their `rows * cols` cells.
    pub open spec fn wf(self) -> bool {
        self.world.wf() && fields_wf(self.fields)
    }

    /// The fields after this tick: cleared, then fed by every agent.
    pub open spec fn fields_after(self) -> Seq<FieldView> {
        emit_agents(
            cleared_all(self.fields),
            self.world.agents,
            self.species,
            self.world.agents.len() as int,
        )
    }

    /// The world of this tick before the rules: every agent refreshed.
    pub open spec fn world_refreshed(self) -> WorldView {
        WorldView {
            agents: Seq::new(
                self.world.agents.len(),
                |i: int| refreshed(self.world.agents[i], self.species, self.fields_after(), self.world),
            ),
            ..self.world
        }
    }

    /// The engine after one tick. An engine that is not running stays as it
    /// is. Agents born in this tick take no part in it.
    pub open spec fn stepped(self) -> EngineView {
        if self.running {
            EngineView {
                world: rules_applied(
                    self.world_refreshed(),
                    self.species,
                    self.world.agents.len() as int,
                ),
                fields: self.fields_after(),
                ..self
            }
        } else {
            self
        }
    }
}


/// Puts a fresh field for `def` into `fields`.
fn put_field(fields: &mut Vec<Field>, def: &FieldDef, rows: usize, cols: usize)
    requires
        rows * cols <= usize::MAX,
        fields_wf(old(fields).deep_view()),
    ensures
        final(fields).deep_view() == with_field(
            old(fields).deep_view(),
            def.deep_view(),
            rows as nat,
            cols as nat,
        ),
        fields_wf(final(fields).deep_view()),
{
    let ghost before = fields.deep_view();
    let fresh = Field::new(FieldDef { name: def.name.clone(), step: def.step }, rows, cols);
    let ghost view = fresh.deep_view();
    assert(view == FieldView::fresh(def.deep_view(), rows as nat, cols as nat));
    match lookup_field(fields.as_slice(), def.name.as_str()) {
        Some(k) => {
            fields[k] = fresh;
            assert(fields.deep_view() =~= before.update(k as int, view));
        },
        None => {
            push_deep(fields, fresh);
        },
    }
}

/// Clears every field.
fn clear_fields(fields: &mut Vec<Field>)
    requires
        fields_wf(old(fields).deep_view()),
    ensures
        final(fields).deep_view() == cleared_all(old(fields).deep_view()),
        fields_wf(final(fields).deep_view()),
{
    let ghost before = fields.deep_view();
    let mut j: usize = 0;
    while j < fields.len()
        invariant
            j <= fields@.len(),
            fields@.len() == before.len(),
            before == old(fields).deep_view(),
            fields_wf(before),
            forall|k: int| 0 <= k < j ==> (#[trigger] fields.deep_view()[k]) == before[k].cleared(),
            forall|k: int| j <= k < fields@.len() ==> (#[trigger] fields.deep_view()[k]) == before[k],
        decreases fields@.len() - j,
    {
        let ghost now = fields.deep_view();
        assert(now[j as int] == before[j as int]);
        assert(now[j as int] == fields@[j as int].deep_view());
        fields[j].clear();
        assert(fields@[j as int].deep_view() == before[j as int].cleared());
        assert(fields.deep_view() =~= now.update(j as int, before[j as int].cleared()));
        j += 1;
    }
    assert(fields.deep_view() =~= cleared_all(before));
    assert forall|k: int| 0 <= k < fields.deep_view().len() implies (
    #[trigger] fields.deep_view()[k]).wf() by {
        assert(before[k].wf());
    }
}

/// Adds a source to each field that `defs` names.
fn emit(fields: &mut Vec<Field>, defs: &Vec<FieldDef>, pos: Position, value: i32)
    requires
        fields_wf(old(fields).deep_view()),
    ensures
        final(fields).deep_view() == emit_defs(
            old(fields).deep_view(),
            defs.deep_view(),
            pos,
            value,
            defs@.len() as int,
        ),
        fields_wf(final(fields).deep_view()),
{
    let ghost before = fields.deep_view();
    let ghost dv = defs.deep_view();
    let mut d: usize = 0;
    while d < defs.len()
        invariant
            d <= defs@.len(),
            dv == defs.deep_view(),
            fields_wf(fields.deep_view()),
            fields.deep_view() == emit_defs(before, dv, pos, value, d as int),
        decreases defs@.len() - d,
    {
        let ghost now = fields.deep_view();
        assert(dv[d as int] == defs@[d as int].deep_view());
        match lookup_field(fields.as_slice(), defs[d].name.as_str()) {
            Some(j) => {
                assert(now[j as int].wf());
                fields[j].add_source(pos, value);
                assert(fields.deep_view() =~= now.update(
                    j as int,
                    now[j as int].with_source(pos, value),
                ));
                assert forall|k: int| 0 <= k < fields.deep_view().len() implies (
                #[trigger] fields.deep_view()[k]).wf() by {
                    if k != j {
                        assert(now[k].wf());
                    }
                }
            },
            None => {},
        }
        d += 1;
    }
}

/// What a source of strength `value` puts into its own cell, for each field
/// that `defs` names.
fn own_contributions(fields: &Vec<Field>, defs: &Vec<FieldDef>, value: i32) -> (own: Vec<
    (String, i32),
>)
    ensures
        own.deep_view() == Seq::new(
            defs@.len(),
            |d: int| (defs.deep_view()[d].name, own_part(fields.deep_view(), defs.deep_view()[d].name, value)),
        ),
{
    let ghost fv = fields.deep_view();
    let ghost dv = defs.deep_view();
    let mut own: Vec<(String, i32)> = Vec::new();
    assert(own.deep_view() =~= Seq::new(0, |d: int| (dv[d].name, own_part(fv, dv[d].name, value))));
    let mut d: usize = 0;
    while d < defs.len()
        invariant
            d <= defs@.len(),
            fv == fields.deep_view(),
            dv == defs.deep_view(),
            own.deep_view() == Seq::new(
                d as nat,
                |k: int| (dv[k].name, own_part(fv, dv[k].name, value)),
            ),
        decreases defs@.len() - d,
    {
        assert(dv[d as int] == defs@[d as int].deep_view());
        let amount: i32 = match lookup_field(fields.as_slice(), defs[d].name.as_str()) {
            Some(j) => {
                let step = fields[j].def.step;
                assert(fv[j as int].step == step);
                proof {
                    lemma_contribution(value as int, step as int, 0);
                }
                if value > 0 && (step >= 0 || (value as i64) < -(step as i64)) {
                    value
                } else {
                    0
                }
            },
            None => 0,
        };
        assert(amount == own_part(fv, dv[d as int].name, value));
        push_deep(&mut own, (defs[d].name.clone(), amount));
        assert(own.deep_view() =~= Seq::new(
            (d + 1) as nat,
            |k: int| (dv[k].name, own_part(fv, dv[k].name, value)),
        ));
        d += 1;
    }
    own
}

/// Advances the variables of `agent` and, if it stands on the cell with
/// index `cell`, reads its sensors there.
fn refresh_agent(
    agent: &mut Agent,
    def: &SpeciesDef,
    fields: &Vec<Field>,
    cell: Option<usize>,
    own: &Vec<(String, i32)>,
)
    ensures
        final(agent).deep_view() == match cell {
            Some(c) => sensed(
                aged(old(agent).deep_view(), def.timesteps@, def.timesteps@.len() as int),
                def.deep_view().sensors,
                fields.deep_view(),
                c as int,
                own.deep_view(),
                def.sensors@.len() as int,
            ),
            None => aged(old(agent).deep_view(), def.timesteps@, def.timesteps@.len() as int),
        },
{
    let ghost start = agent.deep_view();
    let mut v: usize = 0;
    while v < def.timesteps.len()
        invariant
            v <= def.timesteps@.len(),
            agent.deep_view() == aged(start, def.timesteps@, v as int),
        decreases def.timesteps@.len() - v,
    {
        agent.inc_var(v, def.timesteps[v]);
        v += 1;
    }
    match cell {
        Some(c) => {
            let ghost older = agent.deep_view();
            let ghost sv = def.deep_view().sensors;
            let mut k: usize = 0;
            while k < def.sensors.len()
                invariant
                    k <= def.sensors@.len(),
                    sv == def.deep_view().sensors,
                    agent.deep_view() == sensed(
                        older,
                        sv,
                        fields.deep_view(),
                        c as int,
                        own.deep_view(),
                        k as int,
                    ),
                decreases def.sensors@.len() - k,
            {
                assert(sv[k as int] == def.sensors@[k as int].deep_view());
                let value = def.sensors[k].evaluate(fields.as_slice(), c, own.as_slice());
                agent.set_var(def.sensors[k].target_var, value);
                k += 1;
            }
        },
        None => {},
    }
}

/// A copy of `agent`.
fn duplicate(agent: &Agent) -> (copy: Agent)
    ensures
        copy.deep_view() == agent.deep_view(),
{
    let mut vars: Vec<i32> = Vec::new();
    let mut v: usize = 0;
    while v < agent.vars.len()
        invariant
            v <= agent.vars@.len(),
            vars@ == agent.vars@.take(v as int),
        decreases agent.vars@.len() - v,
    {
        vars.push(agent.vars[v]);
        assert(vars@ =~= agent.vars@.take(v + 1));
        v += 1;
    }
    assert(agent.vars@.take(agent.vars@.len() as int) =~= agent.vars@);
    Agent {
        id: agent.id,
        pos: agent.pos,
        species: agent.species,
        species_id: agent.species_id,
        status: agent.status.clone(),
        color: agent.color,
        vars,
        alive: agent.alive,
    }
}

/// The rules keep the agents that were there, in their places, and keep the
/// grid in shape.
pub proof fn lemma_rule_step_frame(world: WorldView, species: Seq<SpeciesDefView>, i: int)
    requires
        world.wf(),
        0 <= i < world.agents.len(),
    ensures
        rule_step(world, species, i).wf(),
        rule_step(world, species, i).agents.len() >= world.agents.len(),
        rule_step(world, species, i).rows == world.rows,
        rule_step(world, species, i).cols == world.cols,
{
    let agent = world.agents[i];
    if active(agent, species) {
        let def = species[agent.species_id as int];
        if status_applied(agent, def.status_rules).alive {
            let target = crate::engine::rules::birth_cell(agent.pos, world.cols);
            if world.in_bounds(target) {
                lemma_index_in_grid(world.rows, world.cols, target);
            }
        } else {
            if world.in_bounds(agent.pos) {
                lemma_index_in_grid(world.rows, world.cols, agent.pos);
            }
        }
    }
}

/// Advancing variables changes nothing but variables.
proof fn lemma_aged_frame(agent: AgentView, steps: Seq<i32>, n: int)
    ensures
        aged(agent, steps, n) == (AgentView { vars: aged(agent, steps, n).vars, ..agent }),
    decreases n,
{
    if n > 0 {
        lemma_aged_frame(agent, steps, n - 1);
    }
}

/// Reading sensors changes nothing but variables.
proof fn lemma_sensed_frame(
    agent: AgentView,
    sensors: Seq<SensorDefView>,
    fields: Seq<FieldView>,
    cell: int,
    own: Seq<(Seq<char>, i32)>,
    n: int,
)
    ensures
        sensed(agent, sensors, fields, cell, own, n) == (AgentView {
            vars: sensed(agent, sensors, fields, cell, own, n).vars,
            ..agent
        }),
    decreases n,
{
    if n > 0 {
        lemma_sensed_frame(agent, sensors, fields, cell, own, n - 1);
    }
}

/// The rules of one agent keep a consistent world consistent: a kill hits a
/// living agent, and a birth goes to a free cell.
pub proof fn lemma_rule_step_consistent(world: WorldView, species: Seq<SpeciesDefView>, i: int)
    requires
        world.consistent(),
        0 <= i < world.agents.len(),
        world.agents.len() <= usize::MAX,
    ensures
        rule_step(world, species, i).consistent(),
{
    let agent = world.agents[i];
    if active(agent, species) {
        let def = species[agent.species_id as int];
        if status_applied(agent, def.status_rules).alive {
            let target = crate::engine::rules::birth_cell(agent.pos, world.cols);
            if crate::engine::rules::first_match(def.birth_rules, agent.vars) is Some
                && world.is_free(target) {
                assert(!world.occupied(target)) by {
                    if world.occupied(target) {
                        let j = choose|j: int|
                            0 <= j < world.agents.len() && #[trigger] world.agents[j].alive
                                && world.agents[j].pos == target;
                        assert(world.grid[world.index(target)].agent == Some(j as usize));
                    }
                }
                crate::model::world::lemma_spawn_consistent(
                    world,
                    target,
                    agent.species,
                    agent.species_id,
                    "alive"@,
                    agent.color,
                    agent.vars.len(),
                );
            }
        } else {
            crate::model::world::lemma_kill_consistent(world, i);
        }
    }
}

/// A tick keeps a consistent world consistent, as long as the agents can
/// still be counted: after it every living agent's cell records it, no dead
/// agent is recorded where it died, and no two living agents share a cell.
pub proof fn lemma_step_consistent(engine: EngineView)
    requires
        engine.world.consistent(),
        2 * engine.world.agents.len() <= usize::MAX,
    ensures
        engine.stepped().world.consistent(),
{
    if engine.running {
        let before = engine.world;
        let world = engine.world_refreshed();
        let fields = engine.fields_after();
        assert forall|i: int| 0 <= i < before.agents.len() implies (#[trigger] world.agents[i])
            == (AgentView { vars: world.agents[i].vars, ..before.agents[i] }) by {
            let agent = before.agents[i];
            if active(agent, engine.species) {
                let def = engine.species[agent.species_id as int];
                let older = aged(agent, def.timesteps, def.timesteps.len() as int);
                lemma_aged_frame(agent, def.timesteps, def.timesteps.len() as int);
                if before.in_bounds(agent.pos) {
                    lemma_sensed_frame(
                        older,
                        def.sensors,
                        fields,
                        before.index(agent.pos),
                        own_parts(agent, engine.species, fields),
                        def.sensors.len() as int,
                    );
                }
            }
        }
        assert(world.consistent()) by {
            assert forall|i: int| 0 <= i < world.agents.len() implies (
            #[trigger] world.agents[i]).id == i by {
                assert(before.agents[i].id == i);
            }
            assert forall|i: int|
                0 <= i < world.agents.len() && (#[trigger] world.agents[i]).alive implies
                world.in_bounds(world.agents[i].pos) && world.grid[world.index(
                    world.agents[i].pos,
                )].agent == Some(i as usize) by {
                assert(before.agents[i].alive);
            }
            assert forall|i: int|
                0 <= i < world.agents.len() && !(#[trigger] world.agents[i]).alive
                    && world.in_bounds(world.agents[i].pos) implies world.grid[world.index(
                world.agents[i].pos,
            )].agent != Some(i as usize) by {
                assert(!before.agents[i].alive);
            }
        }
        lemma_rules_consistent(world, engine.species, before.agents.len() as int);
    }
}

/// The rules of the first `n` agents keep a consistent world consistent;
/// each adds at most one agent.
proof fn lemma_rules_consistent(world: WorldView, species: Seq<SpeciesDefView>, n: int)
    requires
        world.consistent(),
        0 <= n <= world.agents.len(),
        world.agents.len() + n <= usize::MAX,
    ensures
        rules_applied(world, species, n).consistent(),
        world.agents.len() <= rules_applied(world, species, n).agents.len() <= world.agents.len()
            + n,
    decreases n,
{
    if n > 0 {
        lemma_rules_consistent(world, species, n - 1);
        let before = rules_applied(world, species, n - 1);
        lemma_rule_step_consistent(before, species, n - 1);
    }
}

/// The rules of one agent leave every other agent as it is.
proof fn lemma_rule_step_others(world: WorldView, species: Seq<SpeciesDefView>, j: int, i: int)
    requires
        0 <= i < world.agents.len(),
        0 <= j < world.agents.len(),
        i != j,
    ensures
        rule_step(world, species, j).agents.len() >= world.agents.len(),
        rule_step(world, species, j).agents[i] == world.agents[i],
{
}

/// The rules of the agents from `from` up to `n` leave agent `i` as it is,
/// if `i` is not among them.
proof fn lemma_rules_others(world: WorldView, species: Seq<SpeciesDefView>, n: int, i: int)
    requires
        0 <= i < world.agents.len(),
        0 <= n <= world.agents.len(),
    ensures
        rules_applied(world, species, n).agents.len() >= world.agents.len(),
        n <= i ==> rules_applied(world, species, n).agents[i] == world.agents[i],
        n > i ==> rules_applied(world, species, n).agents[i] == rules_applied(
            world,
            species,
            i + 1,
        ).agents[i],
    decreases n,
{
    if n > 0 {
        lemma_rules_others(world, species, n - 1, i);
        if n - 1 != i {
            lemma_rule_step_others(rules_applied(world, species, n - 1), species, n - 1, i);
        }
    }
}

/// An agent whose species has an unguarded status rule `dead` as its first
/// rule is dead after one tick of a running engine.
pub proof fn lemma_unguarded_dead_rule_kills(engine: EngineView, i: int)
    requires
        engine.running,
        0 <= i < engine.world.agents.len(),
        active(engine.world.agents[i], engine.species),
        engine.species[engine.world.agents[i].species_id as int].status_rules.len() > 0,
        engine.species[engine.world.agents[i].species_id as int].status_rules[0].variable is None,
        engine.species[engine.world.agents[i].species_id as int].status_rules[0].status
            == "dead"@,
    ensures
        engine.stepped().world.agents.len() >= engine.world.agents.len(),
        !engine.stepped().world.agents[i].alive,
{
    let before = engine.world.agents[i];
    let def = engine.species[before.species_id as int];
    let world = engine.world_refreshed();
    let fields = engine.fields_after();
    let count = engine.world.agents.len() as int;
    // Refreshing changes variables only.
    let older = aged(before, def.timesteps, def.timesteps.len() as int);
    lemma_aged_frame(before, def.timesteps, def.timesteps.len() as int);
    if engine.world.in_bounds(before.pos) {
        lemma_sensed_frame(
            older,
            def.sensors,
            fields,
            engine.world.index(before.pos),
            own_parts(before, engine.species, fields),
            def.sensors.len() as int,
        );
    }
    let agent = world.agents[i];
    assert(agent.alive && agent.species_id == before.species_id);
    // Up to its turn the agent is as it was refreshed; at its turn it dies.
    lemma_rules_others(world, engine.species, i, i);
    let at_turn = rules_applied(world, engine.species, i);
    assert(at_turn.agents[i] == agent);
    assert(crate::engine::rules::guard_holds(def.status_rules[0], agent.vars));
    assert(crate::engine::rules::first_match(def.status_rules, agent.vars) == Some(0int));
    assert(!status_applied(agent, def.status_rules).alive);
    assert(!rule_step(at_turn, engine.species, i).agents[i].alive);
    // After its turn nothing touches it.
    lemma_rules_others(world, engine.species, count, i);
}

impl Engine {
    /// The grid and every field have their `rows * cols` cells.
    pub open spec fn wf(&self) -> bool {
        self.deep_view().wf()
    }

    /// An engine for `world` and `species_defs`, running, with one cleared
    /// field for each field name that a species declares.
    pub fn new(world: World, species_defs: Vec<SpeciesDef>) -> (engine: Self)
        requires
            world.wf(),
        ensures
            engine.deep_view() == (EngineView {
                world: world.deep_view(),
                species: species_defs.deep_view(),
                fields: fields_of(
                    species_defs.deep_view(),
                    world.rows as nat,
                    world.cols as nat,
                    species_defs@.len() as int,
                ),
                running: true,
            }),
            engine.wf(),
    {
        let rows = world.rows;
        let cols = world.cols;
        let cells = world.grid.len();
        let ghost sv = species_defs.deep_view();
        let mut fields: Vec<Field> = Vec::new();
        assert(fields.deep_view() =~= Seq::<FieldView>::empty());
        let mut i: usize = 0;
        while i < species_defs.len()
            invariant
                i <= species_defs@.len(),
                sv == species_defs.deep_view(),
                rows * cols <= usize::MAX,
                fields_wf(fields.deep_view()),
                fields.deep_view() == fields_of(sv, rows as nat, cols as nat, i as int),
            decreases species_defs@.len() - i,
        {
            let defs = &species_defs[i].field_defs;
            let ghost dv = defs.deep_view();
            assert(sv[i as int].field_defs == dv);
            let ghost base = fields.deep_view();
            let mut d: usize = 0;
            while d < defs.len()
                invariant
                    d <= defs@.len(),
                    dv == defs.deep_view(),
                    rows * cols <= usize::MAX,
                    fields_wf(fields.deep_view()),
                    fields.deep_view() == with_fields(
                        base,
                        dv,
                        rows as nat,
                        cols as nat,
                        d as int,
                    ),
                decreases defs@.len() - d,
            {
                assert(dv[d as int] == defs@[d as int].deep_view());
                put_field(&mut fields, &defs[d], rows, cols);
                d += 1;
            }
            i += 1;
        }
        Self { world, species_defs, fields, running: true }
    }

    /// Advances the simulation by one tick and returns the number of living
    /// agents after it. Does nothing if the engine is not running.
    pub fn step(&mut self) -> (alive: usize)
        requires
            old(self).wf(),
        ensures
            final(self).deep_view() == old(self).deep_view().stepped(),
            alive == count_alive(
                final(self).deep_view().world.agents,
                final(self).deep_view().world.agents.len() as int,
            ),
            final(self).wf(),
    {
        let ghost start = self.deep_view();
        if self.running {
            self.emit_all();
            self.refresh_all(Ghost(start));
            self.apply_rules(Ghost(start));
        }
        self.count_living()
    }

    /// Clears the fields and lets every agent emit.
    fn emit_all(&mut self)
        requires
            old(self).wf(),
        ensures
            final(self).deep_view() == (EngineView {
                fields: old(self).deep_view().fields_after(),
                ..old(self).deep_view()
            }),
            final(self).wf(),
    {
        let ghost start = self.deep_view();
        clear_fields(&mut self.fields);
        let ghost cleared = self.fields.deep_view();
        let mut i: usize = 0;
        while i < self.world.agents.len()
            invariant
                i <= self.world.agents@.len(),
                self.world == old(self).world,
                self.species_defs == old(self).species_defs,
                self.running == old(self).running,
                start == old(self).deep_view(),
                cleared == cleared_all(start.fields),
                fields_wf(self.fields.deep_view()),
                self.fields.deep_view() == emit_agents(
                    cleared,
                    start.world.agents,
                    start.species,
                    i as int,
                ),
            decreases self.world.agents@.len() - i,
        {
            let agent = &self.world.agents[i];
            assert(start.world.agents[i as int] == agent.deep_view());
            if agent.alive && agent.species_id < self.species_defs.len() && agent.vars.len() > 0 {
                let def = &self.species_defs[agent.species_id];
                assert(start.species[agent.species_id as int] == def.deep_view());
                emit(&mut self.fields, &def.field_defs, agent.pos, agent.vars[0]);
            }
            i += 1;
        }
    }

    /// Advances the variables of every agent and reads its sensors.
    fn refresh_all(&mut self, Ghost(start): Ghost<EngineView>)
        requires
            old(self).wf(),
            old(self).deep_view() == (EngineView { fields: start.fields_after(), ..start }),
        ensures
            final(self).deep_view() == (EngineView {
                world: start.world_refreshed(),
                fields: start.fields_after(),
                ..start
            }),
            final(self).wf(),
    {
        let ghost fields = self.fields.deep_view();
        let ghost before = self.world.agents.deep_view();
        let mut i: usize = 0;
        while i < self.world.agents.len()
            invariant
                i <= self.world.agents@.len(),
                self.world.agents@.len() == before.len(),
                self.world.rows == old(self).world.rows,
                self.world.cols == old(self).world.cols,
                self.world.grid == old(self).world.grid,
                self.species_defs == old(self).species_defs,
                self.fields == old(self).fields,
                self.running == old(self).running,
                old(self).wf(),
                old(self).deep_view() == (EngineView { fields: start.fields_after(), ..start }),
                fields == start.fields_after(),
                before == start.world.agents,
                forall|k: int|
                    0 <= k < i ==> (#[trigger] self.world.agents.deep_view()[k]) == refreshed(
                        before[k],
                        start.species,
                        fields,
                        start.world,
                    ),
                forall|k: int|
                    i <= k < before.len() ==> (#[trigger] self.world.agents.deep_view()[k])
                        == before[k],
            decreases self.world.agents@.len() - i,
        {
            let ghost now = self.world.agents.deep_view();
            let ghost agent = before[i as int];
            assert(now[i as int] == self.world.agents@[i as int].deep_view());
            if self.world.agents[i].alive && self.world.agents[i].species_id
                < self.species_defs.len() {
                let species_id = self.world.agents[i].species_id;
                let def = &self.species_defs[species_id];
                assert(start.species[species_id as int] == def.deep_view());
                let pos = self.world.agents[i].pos;
                let own = if self.world.agents[i].vars.len() > 0 {
                    own_contributions(&self.fields, &def.field_defs, self.world.agents[i].vars[0])
                } else {
                    Vec::new()
                };
                assert(own.deep_view() =~= own_parts(agent, start.species, fields));
                let cell: Option<usize> = if pos.row < self.world.rows && pos.col
                    < self.world.cols {
                    proof {
                        lemma_index_in_grid(self.world.rows as nat, self.world.cols as nat, pos);
                    }
                    let cells = self.world.grid.len();
                    Some(pos.to_index(self.world.cols))
                } else {
                    None
                };
                refresh_agent(&mut self.world.agents[i], def, &self.fields, cell, &own);
                assert(self.world.agents.deep_view() =~= now.update(
                    i as int,
                    refreshed(agent, start.species, fields, start.world),
                ));
            }
            i += 1;
        }
        assert(self.world.agents.deep_view() =~= start.world_refreshed().agents);
    }

    /// Applies the rules of the agents that were there when the tick began.
    fn apply_rules(&mut self, Ghost(start): Ghost<EngineView>)
        requires
            old(self).wf(),
            old(self).deep_view() == (EngineView {
                world: start.world_refreshed(),
                fields: start.fields_after(),
                ..start
            }),
            start.running,
        ensures
            final(self).deep_view() == start.stepped(),
            final(self).wf(),
    {
        let ghost refreshed = self.world.deep_view();
        let count = self.world.agents.len();
        assert(refreshed.agents.len() == start.world.agents.len());
        assert(self.world.agents.deep_view().len() == self.world.agents@.len());
        let mut i: usize = 0;
        while i < count
            invariant
                i <= count <= self.world.agents@.len(),
                count == start.world.agents.len(),
                self.species_defs == old(self).species_defs,
                self.fields == old(self).fields,
                self.running == old(self).running,
                old(self).wf(),
                old(self).deep_view() == (EngineView {
                    world: start.world_refreshed(),
                    fields: start.fields_after(),
                    ..start
                }),
                refreshed == start.world_refreshed(),
                self.world.wf(),
                self.world.deep_view() == rules_applied(refreshed, start.species, i as int),
            decreases count - i,
        {
            let ghost now = self.world.deep_view();
            proof {
                lemma_rule_step_frame(now, start.species, i as int);
            }
            let mut agent = duplicate(&self.world.agents[i]);
            assert(now.agents[i as int] == agent.deep_view());
            if agent.alive && agent.species_id < self.species_defs.len() {
                let def = &self.species_defs[agent.species_id];
                assert(start.species[agent.species_id as int] == def.deep_view());
                apply_status_rules(&mut agent, def.status_rules.as_slice(), &self.world);
                if agent.alive {
                    apply_birth_rules(&agent, def.birth_rules.as_slice(), &mut self.world);
                } else {
                    self.world.kill_agent(i);
                }
            }
            i += 1;
        }
    }

    /// The number of living agents.
    fn count_living(&self) -> (alive: usize)
        ensures
            alive == count_alive(
                self.deep_view().world.agents,
                self.deep_view().world.agents.len() as int,
            ),
    {
        let ghost agents = self.deep_view().world.agents;
        let mut alive: usize = 0;
        let mut i: usize = 0;
        while i < self.world.agents.len()
            invariant
                i <= self.world.agents@.len(),
                agents == self.deep_view().world.agents,
                alive == count_alive(agents, i as int),
                alive <= i,
            decreases self.world.agents@.len() - i,
        {
            assert(agents[i as int] == self.world.agents@[i as int].deep_view());
            if self.world.agents[i].alive {
                alive += 1;
            }
            i += 1;
        }
        alive
    }
}

} // verus!
