use vstd::prelude::*;

use crate::blackboard::{schema_len, Blackboard, BlackboardKeyDefinition};
use crate::definition::{RegionId, StateId, StateMachineDefinition, TransitionDefinition, TransitionOperation};
use crate::entering::{lemma_children_ok_prefix, lemma_targets_ok_at, region_entry_targets};
use crate::executing::{exit_phase, states_to_exit, step_history};
use crate::instance::StateMachineInstance;
use crate::lifecycle::fit_history;
use crate::regions::region_is_enabled;
use crate::stack::{copy_history, history_view, HistorySnapshot};

verus! {

/// Whether the parent chain of every state ends (no state is its own ancestor).
pub fn hierarchy_ends(definition: &StateMachineDefinition) -> (r: bool)
    ensures
        r == definition.hierarchy_is_finite(),
{
    let n = definition.states.len();
    let mut i: usize = 0;
    while i < n && i < 0x10000
        invariant
            i <= n,
            n == definition.states@.len(),
            forall|k: int| 0 <= k < i ==> #[trigger] definition.chain_ends(Some(StateId(k as u16)), n as nat),
        decreases n - i,
    {
        let start = StateId(i as u16);
        let mut current: Option<StateId> = Some(start);
        let mut remaining: usize = n;
        let mut ends = true;
        loop
            invariant
                remaining <= n,
                n == definition.states@.len(),
                definition.chain_ends(Some(start), n as nat) == definition.chain_ends(current, remaining as nat),
            ensures
                ends == definition.chain_ends(Some(start), n as nat),
            decreases remaining,
        {
            let id = match current {
                Some(id) => id,
                None => {
                    ends = true;
                    break;
                },
            };
            if id.0 as usize >= n {
                ends = true;
                break;
            }
            if remaining == 0 {
                ends = false;
                break;
            }
            remaining = remaining - 1;
            current = definition.states[id.0 as usize].parent_state;
        }
        if !ends {
            proof {
                assert(!definition.parent_chain_ends(start));
            }
            return false;
        }
        proof {
            assert(start == StateId(i as int as u16));
        }
        i = i + 1;
    }
    proof {
        assert forall|s: StateId| #[trigger] definition.parent_chain_ends(s) by {
            if (s.0 as int) < n {
                let k = s.0 as int;
                if k < i {
                    assert(StateId(k as u16) == s);
                    assert(definition.chain_ends(Some(StateId(k as u16)), n as nat));
                } else {
                    assert(i >= 0x10000);
                }
            }
        }
    }
    true
}

/// Whether entering `target` finishes within `fuel` nested levels.
pub fn entry_finishes_within(
    definition: &StateMachineDefinition,
    history: &Vec<Option<HistorySnapshot>>,
    enabled: &Vec<RegionId>,
    target: StateId,
    fuel: u64,
) -> (r: bool)
    requires
        definition.hierarchy_is_finite(),
    ensures
        r == definition.entry_ok(history_view(history@), enabled@, target, fuel as nat),
    decreases fuel, 0nat,
{
    let state = match definition.state(target) {
        Some(state) => state,
        None => return true,
    };
    if fuel == 0 {
        return false;
    }
    if state.kind.has_children() {
        children_finish_within(definition, history, enabled, target, fuel - 1)
    } else {
        state.parent_region.is_some() || definition.root_regions.len() > 0
    }
}

fn children_finish_within(
    definition: &StateMachineDefinition,
    history: &Vec<Option<HistorySnapshot>>,
    enabled: &Vec<RegionId>,
    state_id: StateId,
    fuel: u64,
) -> (r: bool)
    requires
        definition.hierarchy_is_finite(),
        definition.spec_state(state_id) is Some,
    ensures
        r == definition.children_ok(history_view(history@), enabled@, state_id, definition.spec_state(state_id).unwrap().child_regions@.len(), fuel as nat),
    decreases fuel, 1nat,
{
    let ghost hv = history_view(history@);
    let state = match definition.state(state_id) {
        Some(state) => state,
        None => return true,
    };
    let index = state_id.0 as usize;
    let snapshot: Option<&HistorySnapshot> = if index < history.len() {
        match &history[index] {
            Some(h) => Some(h),
            None => None,
        }
    } else {
        None
    };
    proof {
        assert(match snapshot { Some(h) => Some(h@), None => None::<crate::stack::HistoryView> } == crate::entering::history_at(hv, state_id)) by {
            if index < history@.len() {
                assert(hv[index as int] == crate::stack::history_entry_view(history@[index as int]));
            }
        }
    }
    let n = state.child_regions.len();
    let mut k: usize = 0;
    while k < n
        invariant
            k <= n,
            n == state.child_regions@.len(),
            definition.hierarchy_is_finite(),
            definition.spec_state(state_id) == Some(*state),
            hv == history_view(history@),
            match snapshot { Some(h) => Some(h@), None => None::<crate::stack::HistoryView> } == crate::entering::history_at(hv, state_id),
            definition.children_ok(hv, enabled@, state_id, k as nat, fuel as nat),
        decreases n - k,
    {
        let region_id = state.child_regions[k];
        let mut targets: Vec<StateId> = Vec::new();
        if region_is_enabled(enabled.as_slice(), region_id) {
            match definition.region(region_id) {
                Some(region) => {
                    targets = region_entry_targets(definition, snapshot, state.history_mode, region_id, region.initial_state);
                },
                None => {},
            }
        }
        proof {
            assert(targets@ == definition.child_targets(hv, enabled@, state_id, k as int));
            assert(targets@.subrange(0, 0) =~= Seq::<StateId>::empty());
        }
        let mut j: usize = 0;
        while j < targets.len()
            invariant
                j <= targets@.len(),
                k < n,
                n == state.child_regions@.len(),
                definition.spec_state(state_id) == Some(*state),
                definition.hierarchy_is_finite(),
                hv == history_view(history@),
                targets@ == definition.child_targets(hv, enabled@, state_id, k as int),
                definition.children_ok(hv, enabled@, state_id, k as nat, fuel as nat),
                definition.targets_ok(hv, enabled@, targets@.subrange(0, j as int), fuel as nat),
            decreases targets@.len() - j,
        {
            let t = targets[j];
            let ok = entry_finishes_within(definition, history, enabled, t, fuel);
            proof {
                let next = targets@.subrange(0, j + 1);
                assert(next.drop_last() =~= targets@.subrange(0, j as int));
                assert(next.last() == t);
            }
            if !ok {
                proof {
                    if definition.children_ok(hv, enabled@, state_id, n as nat, fuel as nat) {
                        lemma_children_ok_prefix(*definition, hv, enabled@, state_id, n as nat, (k + 1) as nat, fuel as nat);
                        assert(definition.children_ok(hv, enabled@, state_id, (k + 1) as nat, fuel as nat));
                        assert(definition.targets_ok(hv, enabled@, definition.child_targets(hv, enabled@, state_id, k as int), fuel as nat));
                        lemma_targets_ok_at(*definition, hv, enabled@, targets@, j as int, fuel as nat);
                        assert(definition.entry_ok(hv, enabled@, t, fuel as nat));
                    }
                }
                return false;
            }
            j = j + 1;
        }
        proof {
            assert(targets@.subrange(0, targets@.len() as int) =~= targets@);
        }
        k = k + 1;
    }
    true
}

/// The nesting depth tried by the termination checks: one more than the
/// number of states (capped at `u64::MAX`).
pub open spec fn spec_depth_budget(definition: StateMachineDefinition) -> nat {
    if definition.states@.len() < u64::MAX { definition.states@.len() + 1 } else { u64::MAX as nat }
}

fn depth_budget(definition: &StateMachineDefinition) -> (r: u64)
    ensures
        r as nat == spec_depth_budget(*definition),
{
    let n = definition.states.len() as u64;
    if n < u64::MAX { n + 1 } else { u64::MAX }
}

/// Whether every enabled root region can be entered within the depth budget
/// (one level per state, plus one); when so, starting an instance with these
/// enabled regions finishes.
pub fn start_finishes(definition: &StateMachineDefinition, enabled: &Vec<RegionId>) -> (r: bool)
    requires
        definition.hierarchy_is_finite(),
    ensures
        r == definition.roots_ok(enabled@, spec_depth_budget(*definition)),
        r ==> definition.start_terminates(enabled@),
{
    let fuel = depth_budget(definition);
    let mut history: Vec<Option<HistorySnapshot>> = Vec::new();
    fit_history(&mut history, definition.states.len());
    proof {
        assert(history_view(history@) =~= definition.empty_history());
    }
    let mut k: usize = 0;
    while k < definition.root_regions.len()
        invariant
            k <= definition.root_regions@.len(),
            definition.hierarchy_is_finite(),
            fuel as nat == spec_depth_budget(*definition),
            history_view(history@) == definition.empty_history(),
            forall|j: int| 0 <= j < k ==> match #[trigger] definition.root_target(enabled@, j) {
                Some(t) => definition.entry_ok(definition.empty_history(), enabled@, t, fuel as nat),
                None => true,
            },
        decreases definition.root_regions@.len() - k,
    {
        let region_id = definition.root_regions[k];
        let mut target: Option<StateId> = None;
        if region_is_enabled(enabled.as_slice(), region_id) {
            match definition.region(region_id) {
                Some(region) => {
                    target = region.initial_state;
                },
                None => {},
            }
        }
        proof {
            assert(target == definition.root_target(enabled@, k as int));
        }
        match target {
            Some(t) => {
                if !entry_finishes_within(definition, &history, enabled, t, fuel) {
                    proof {
                        assert(!definition.entry_ok(definition.empty_history(), enabled@, t, fuel as nat));
                        assert(definition.root_target(enabled@, k as int) == Some(t));
                    }
                    return false;
                }
            },
            None => {},
        }
        k = k + 1;
    }
    proof {
        assert(definition.roots_ok(enabled@, fuel as nat));
    }
    true
}

/// Whether the transition's target can be entered within the depth budget
/// (one level per state, plus one), with the history left by its exits; a
/// pop, or a transition without target, enters nothing and always passes.
/// When it passes, applying the transition to the instance finishes.
pub fn step_finishes(definition: &StateMachineDefinition, instance: &StateMachineInstance, transition: &TransitionDefinition) -> (r: bool)
    requires
        definition.hierarchy_is_finite(),
    ensures
        r == (match transition.operation {
            TransitionOperation::Pop => true,
            _ => match transition.target {
                None => true,
                Some(t) => definition.entry_ok(
                    step_history(*definition, *instance, *transition),
                    instance.config.enabled_regions@,
                    t,
                    spec_depth_budget(*definition),
                ),
            },
        }),
        r ==> definition.step_terminates(*instance, *transition),
{
    if transition.operation == TransitionOperation::Pop {
        return true;
    }
    let target = match transition.target {
        Some(t) => t,
        None => return true,
    };
    let order = states_to_exit(definition, instance, transition);
    let mut history = copy_history(&instance.history);
    let _exited = exit_phase(definition, &mut history, &instance.active_regions, &order);
    proof {
        assert(history_view(history@) == step_history(*definition, *instance, *transition));
    }
    let fuel = depth_budget(definition);
    entry_finishes_within(definition, &history, &instance.config.enabled_regions, target, fuel)
}

/// Whether every key of the schema fits the blackboard once it is grown to
/// the schema's length (installing it would otherwise index out of range).
pub fn schema_fits(schema: &[BlackboardKeyDefinition], blackboard: &Blackboard) -> (r: bool)
    ensures
        r == (forall|k: int| 0 <= k < schema@.len() ==> {
            &&& (#[trigger] schema@[k].id.0 as int) < schema_len(blackboard.values@.len(), schema@.len())
            &&& (schema@[k].id.0 as int) < (if blackboard.values@.len() < schema@.len() {
                schema@.len()
            } else {
                blackboard.declared_types@.len()
            })
        }),
{
    let values_len = blackboard.values.len();
    let limit_values = if values_len < schema.len() { schema.len() } else { values_len };
    let limit_declared = if values_len < schema.len() { schema.len() } else { blackboard.declared_types.len() };
    let mut k: usize = 0;
    while k < schema.len()
        invariant
            k <= schema@.len(),
            values_len == blackboard.values@.len(),
            limit_values == schema_len(blackboard.values@.len(), schema@.len()),
            limit_declared == (if blackboard.values@.len() < schema@.len() { schema@.len() } else { blackboard.declared_types@.len() }),
            forall|j: int| 0 <= j < k ==> {
                &&& (#[trigger] schema@[j].id.0 as int) < limit_values
                &&& (schema@[j].id.0 as int) < limit_declared
            },
        decreases schema@.len() - k,
    {
        let id = schema[k].id.0 as usize;
        if id >= limit_values || id >= limit_declared {
            return false;
        }
        k = k + 1;
    }
    true
}

} // verus!
