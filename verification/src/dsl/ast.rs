//! The syntax tree of a configuration.
//!
//! Each type has a view that replaces strings by `Seq<char>` and vectors by
//! `Seq`; the parser's contract is stated over those views.

use vstd::prelude::*;

verus! {

/// The `world` statement: the size of the grid and its background colour.
#[derive(Debug)]
pub struct World {
    pub cols: usize,
    pub rows: usize,
    pub color: String,
}

/// The three families of species.
#[derive(Debug, Clone, Copy, PartialEq, Eq, Structural)]
pub enum SpeciesKind {
    Mineral,
    Vegetal,
    Animal,
}

/// The initial value of a variable.
#[derive(Debug)]
pub enum Value {
    Int(i32),
    Str(String),
}

/// A variable of a species: its name, its initial value and what is added to
/// it at every tick.
#[derive(Debug)]
pub struct VarDef {
    pub name: String,
    pub init_value: Value,
    pub timestep: i32,
}

/// A guarded change of status. Without a `variable` the rule always applies;
/// `less_than` picks `<` (true), `>` (false) or `==` (absent).
#[derive(Debug, Clone)]
pub struct StatusRule {
    pub variable: Option<String>,
    pub less_than: Option<bool>,
    pub threshold: Option<i32>,
    pub new_status: String,
}

/// A guarded birth, with the same guard as a [`StatusRule`].
#[derive(Debug, Clone)]
pub struct BirthRule {
    pub variable: Option<String>,
    pub less_than: Option<bool>,
    pub threshold: Option<i32>,
    pub child_status: String,
}

/// A field that a species emits: its name and what it loses per cell of
/// distance.
#[derive(Debug)]
pub struct FieldDef {
    pub name: String,
    pub step: i32,
}

/// One term of a sensor: a field and how strongly it is felt, in thousandths.
#[derive(Debug)]
pub struct SensorField {
    pub field: String,
    pub sensitivity: i32,
}

/// A sensor: a weighted sum of fields.
#[derive(Debug)]
pub struct SensorDef {
    pub name: String,
    pub fields: Vec<SensorField>,
}

/// A species and everything declared for it.
#[derive(Debug)]
pub struct Species {
    pub kind: SpeciesKind,
    pub name: String,
    pub color: String,
    pub vars: Vec<VarDef>,
    pub statuses: Vec<StatusRule>,
    pub births: Vec<BirthRule>,
    pub fields: Vec<FieldDef>,
    pub sensors: Vec<SensorDef>,
}

/// An `agent` statement: which species to place, and where. A position is
/// kept as written, `(5,10)` or `(0:64,0:64)`.
#[derive(Debug)]
pub struct AgentDef {
    pub species_pattern: String,
    pub positions: Vec<String>,
}

/// A whole configuration.
#[derive(Debug)]
pub struct ConfigAst {
    pub world: Option<World>,
    pub species: Vec<Species>,
    pub agents: Vec<AgentDef>,
}

/// The mathematical value of a [`World`].
pub struct WorldView {
    pub cols: nat,
    pub rows: nat,
    pub color: Seq<char>,
}

/// The mathematical value of a [`Value`].
pub enum ValueView {
    Int(i32),
    Str(Seq<char>),
}

/// The mathematical value of a [`VarDef`].
pub struct VarDefView {
    pub name: Seq<char>,
    pub init_value: ValueView,
    pub timestep: i32,
}

/// The view of a [`StatusRule`] and of a [`BirthRule`]: the guard, and the
/// status that the rule gives.
pub struct RuleView {
    pub variable: Option<Seq<char>>,
    pub less_than: Option<bool>,
    pub threshold: Option<i32>,
    pub status: Seq<char>,
}

/// The mathematical value of a [`FieldDef`].
pub struct FieldDefView {
    pub name: Seq<char>,
    pub step: i32,
}

/// The mathematical value of a [`SensorField`].
pub struct SensorFieldView {
    pub field: Seq<char>,
    pub sensitivity: i32,
}

/// The mathematical value of a [`SensorDef`].
pub struct SensorDefView {
    pub name: Seq<char>,
    pub fields: Seq<SensorFieldView>,
}

/// The mathematical value of a [`Species`].
pub struct SpeciesView {
    pub kind: SpeciesKind,
    pub name: Seq<char>,
    pub color: Seq<char>,
    pub vars: Seq<VarDefView>,
    pub statuses: Seq<RuleView>,
    pub births: Seq<RuleView>,
    pub fields: Seq<FieldDefView>,
    pub sensors: Seq<SensorDefView>,
}

/// The mathematical value of an [`AgentDef`].
pub struct AgentDefView {
    pub species_pattern: Seq<char>,
    pub positions: Seq<Seq<char>>,
}

/// The mathematical value of a [`ConfigAst`].
pub struct ConfigView {
    pub world: Option<WorldView>,
    pub species: Seq<SpeciesView>,
    pub agents: Seq<AgentDefView>,
}

impl DeepView for World {
    type V = WorldView;

    open spec fn deep_view(&self) -> WorldView {
        WorldView { cols: self.cols as nat, rows: self.rows as nat, color: self.color@ }
    }
}

impl DeepView for Value {
    type V = ValueView;

    open spec fn deep_view(&self) -> ValueView {
        match self {
            Value::Int(n) => ValueView::Int(*n),
            Value::Str(s) => ValueView::Str(s@),
        }
    }
}

impl DeepView for VarDef {
    type V = VarDefView;

    open spec fn deep_view(&self) -> VarDefView {
        VarDefView {
            name: self.name@,
            init_value: self.init_value.deep_view(),
            timestep: self.timestep,
        }
    }
}

impl DeepView for StatusRule {
    type V = RuleView;

    open spec fn deep_view(&self) -> RuleView {
        RuleView {
            variable: self.variable.deep_view(),
            less_than: self.less_than,
            threshold: self.threshold,
            status: self.new_status@,
        }
    }
}

impl DeepView for BirthRule {
    type V = RuleView;

    open spec fn deep_view(&self) -> RuleView {
        RuleView {
            variable: self.variable.deep_view(),
            less_than: self.less_than,
            threshold: self.threshold,
            status: self.child_status@,
        }
    }
}

impl DeepView for FieldDef {
    type V = FieldDefView;

    open spec fn deep_view(&self) -> FieldDefView {
        FieldDefView { name: self.name@, step: self.step }
    }
}

impl DeepView for SensorField {
    type V = SensorFieldView;

    open spec fn deep_view(&self) -> SensorFieldView {
        SensorFieldView { field: self.field@, sensitivity: self.sensitivity }
    }
}

impl DeepView for SensorDef {
    type V = SensorDefView;

    open spec fn deep_view(&self) -> SensorDefView {
        SensorDefView { name: self.name@, fields: self.fields.deep_view() }
    }
}

impl DeepView for Species {
    type V = SpeciesView;

    open spec fn deep_view(&self) -> SpeciesView {
        SpeciesView {
            kind: self.kind,
            name: self.name@,
            color: self.color@,
            vars: self.vars.deep_view(),
            statuses: self.statuses.deep_view(),
            births: self.births.deep_view(),
            fields: self.fields.deep_view(),
            sensors: self.sensors.deep_view(),
        }
    }
}

impl DeepView for AgentDef {
    type V = AgentDefView;

    open spec fn deep_view(&self) -> AgentDefView {
        AgentDefView {
            species_pattern: self.species_pattern@,
            positions: self.positions.deep_view(),
        }
    }
}

impl DeepView for ConfigAst {
    type V = ConfigView;

    open spec fn deep_view(&self) -> ConfigView {
        ConfigView {
            world: self.world.deep_view(),
            species: self.species.deep_view(),
            agents: self.agents.deep_view(),
        }
    }
}

} // verus!
