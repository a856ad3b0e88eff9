//! Status rules and birth rules.
//!
//! The rules of a species are tried in the order in which they were
//! declared. The first rule whose guard holds is applied, and no other.

use vstd::prelude::*;
use vstd::string::*;
use crate::dsl::ast::RuleView;
use crate::model::agent::{Agent, AgentView};
use crate::model::position::Position;
use crate::model::world::{World, WorldView};

verus! {

/// A status rule, as the configuration declares it.
pub type StatusRule = crate::dsl::ast::StatusRule;

/// A birth rule, as the configuration declares it.
pub type BirthRule = crate::dsl::ast::BirthRule;

/// Whether the guard of `rule` holds for an agent with the variables `vars`.
///
/// A rule without a variable or without a threshold has no guard and always
/// holds. Otherwise the agent's first variable is compared with the
/// threshold: `<` if `less_than` is true, `>` if it is false, `==` if it is
/// absent. For an agent without variables such a guard does not hold.
pub open spec fn guard_holds(rule: RuleView, vars: Seq<i32>) -> bool {
    match (rule.variable, rule.threshold) {
        (Some(_), Some(threshold)) => vars.len() > 0 && match rule.less_than {
            Some(true) => vars[0] < threshold,
            Some(false) => vars[0] > threshold,
            None => vars[0] == threshold,
        },
        _ => true,
    }
}

/// The index of the first rule from `from` on whose guard holds.
pub open spec fn first_match_from(rules: Seq<RuleView>, vars: Seq<i32>, from: int) -> Option<int>
    decreases rules.len() - from,
{
    if from < 0 || from >= rules.len() {
        None
    } else if guard_holds(rules[from], vars) {
        Some(from)
    } else {
        first_match_from(rules, vars, from + 1)
    }
}

/// The index of the first rule whose guard holds.
pub open spec fn first_match(rules: Seq<RuleView>, vars: Seq<i32>) -> Option<int> {
    first_match_from(rules, vars, 0)
}

/// The rule that is applied is the first in declared order whose guard
/// holds: no rule before it holds, and if none is applied then none holds.
pub proof fn lemma_first_match(rules: Seq<RuleView>, vars: Seq<i32>, from: int)
    requires
        0 <= from,
    ensures
        match first_match_from(rules, vars, from) {
            Some(k) => {
                &&& from <= k < rules.len()
                &&& guard_holds(rules[k], vars)
                &&& forall|j: int| from <= j < k ==> !guard_holds(#[trigger] rules[j], vars)
            },
            None => forall|j: int|
                from <= j < rules.len() ==> !guard_holds(#[trigger] rules[j], vars),
        },
    decreases rules.len() - from,
{
    if from < rules.len() && !guard_holds(rules[from], vars) {
        lemma_first_match(rules, vars, from + 1);
    }
}

/// The agent after its status rules: if the first rule that holds gives the
/// status `dead`, the agent is dead; in every other case it is unchanged.
pub open spec fn status_applied(agent: AgentView, rules: Seq<RuleView>) -> AgentView {
    match first_match(rules, agent.vars) {
        Some(k) => if rules[k].status == "dead"@ {
            agent.killed()
        } else {
            agent
        },
        None => agent,
    }
}

/// Where the child of a parent at `pos` is placed on a grid that is `cols`
/// wide: one column to the right, but not beyond the last column.
pub open spec fn birth_cell(pos: Position, cols: nat) -> Position {
    Position {
        row: pos.row,
        col: if pos.col + 1 < cols {
            (pos.col + 1) as usize
        } else if cols > 0 {
            (cols - 1) as usize
        } else {
            0
        },
    }
}

/// The world after the birth rules of `parent`: if some rule holds and the
/// birth cell is free, a child of the parent's species and colour, with as
/// many variables, is spawned there with the status `alive`; in every other
/// case the world is unchanged.
pub open spec fn birth_applied(world: WorldView, parent: AgentView, rules: Seq<RuleView>) -> WorldView {
    let target = birth_cell(parent.pos, world.cols);
    if first_match(rules, parent.vars) is Some && world.is_free(target) {
        world.spawned(
            target,
            parent.species,
            parent.species_id,
            "alive"@,
            parent.color,
            parent.vars.len(),
        )
    } else {
        world
    }
}

/// Whether a guard with the given parts holds.
fn guard(variable: &Option<String>, less_than: Option<bool>, threshold: Option<i32>, vars: &Vec<i32>) -> (r: bool)
    ensures
        r == guard_holds(
            RuleView { variable: variable.deep_view(), less_than, threshold, status: seq![] },
            vars@,
        ),
{
    match (variable, threshold) {
        (Some(_), Some(limit)) => {
            if vars.len() == 0 {
                false
            } else {
                let value = vars[0];
                match less_than {
                    Some(true) => value < limit,
                    Some(false) => value > limit,
                    None => value == limit,
                }
            }
        },
        _ => true,
    }
}

/// Applies the status rules to `agent` and says whether one was applied.
pub fn apply_status_rules(agent: &mut Agent, rules: &[StatusRule], _world: &World) -> (fired: bool)
    ensures
        fired == first_match(rules.deep_view(), old(agent).deep_view().vars) is Some,
        final(agent).deep_view() == status_applied(old(agent).deep_view(), rules.deep_view()),
{
    let ghost rv = rules.deep_view();
    let ghost vars = agent.vars@;
    let mut i: usize = 0;
    while i < rules.len()
        invariant
            i <= rules.len(),
            rv == rules.deep_view(),
            vars == agent.vars@,
            agent.deep_view() == old(agent).deep_view(),
            first_match(rv, vars) == first_match_from(rv, vars, i as int),
        decreases rules.len() - i,
    {
        let rule = &rules[i];
        assert(rv[i as int] == rule.deep_view());
        if guard(&rule.variable, rule.less_than, rule.threshold, &agent.vars) {
            if rule.new_status.as_str().eq("dead") {
                agent.alive = false;
            }
            return true;
        }
        i += 1;
    }
    false
}

/// Applies the birth rules of `parent` to `world`.
pub fn apply_birth_rules(parent: &Agent, rules: &[BirthRule], world: &mut World)
    requires
        old(world).wf(),
    ensures
        final(world).deep_view() == birth_applied(
            old(world).deep_view(),
            parent.deep_view(),
            rules.deep_view(),
        ),
        final(world).wf(),
{
    let ghost rv = rules.deep_view();
    let ghost vars = parent.vars@;
    let mut i: usize = 0;
    while i < rules.len()
        invariant
            i <= rules.len(),
            rv == rules.deep_view(),
            vars == parent.vars@,
            world.wf(),
            world.deep_view() == old(world).deep_view(),
            first_match(rv, vars) == first_match_from(rv, vars, i as int),
        decreases rules.len() - i,
    {
        let rule = &rules[i];
        assert(rv[i as int] == rule.deep_view());
        if guard(&rule.variable, rule.less_than, rule.threshold, &parent.vars) {
            let col = parent.pos.col;
            let target = Position {
                row: parent.pos.row,
                col: if col < usize::MAX && col + 1 < world.cols {
                    col + 1
                } else if world.cols > 0 {
                    world.cols - 1
                } else {
                    0
                },
            };
            assert(target == birth_cell(parent.pos, world.cols as nat));
            if world.is_position_free(&target) {
                world.spawn_agent(
                    target,
                    parent.species,
                    parent.species_id,
                    String::from_str("alive"),
                    parent.color,
                    parent.vars.len(),
                );
            }
            return ;
        }
        i += 1;
    }
}

} // verus!
