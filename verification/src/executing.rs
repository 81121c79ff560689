use vstd::prelude::*;

use crate::definition::{
    RegionId, StateId, StateMachineDefinition, TransitionDefinition, TransitionOperation, TransitionSource,
};
use crate::entering::{
    enter_target, first_index, first_path, is_first_index, leaves_of, sorted_regions,
    sync_active_path,
};
use crate::hierarchy::{depth, least_common_ancestor};
use crate::instance::{contains_state, StateMachineInstance};
use crate::ordering::{append_new, keys_ascending, lemma_append_new_concat, lemma_stable_insert_at, stable_sort};
use crate::stack::{
    copy_history, copy_regions, copy_timers, history_view, regions_view,
    ActiveRegionState, ActiveRegionView, HistorySnapshot, HistoryView, StateStackFrame,
};
use crate::timers::{restart_timers, restarted};
use crate::transitions::{pending_transition_id, spec_pending_transition_id};

verus! {

/// The regions whose path contains `state_id`, in order.
pub open spec fn regions_containing(regions: Seq<ActiveRegionView>, state_id: StateId) -> Seq<ActiveRegionView>
    decreases regions.len(),
{
    if regions.len() == 0 {
        Seq::empty()
    } else {
        let prev = regions_containing(regions.drop_last(), state_id);
        if regions.last().path.contains(state_id) {
            prev.push(regions.last())
        } else {
            prev
        }
    }
}

/// The regions a transition acts on: all of them from any state, else those
/// whose path contains the source.
pub open spec fn affected_regions(regions: Seq<ActiveRegionView>, source: TransitionSource) -> Seq<ActiveRegionView> {
    match source {
        TransitionSource::AnyState => regions,
        TransitionSource::State(s) => regions_containing(regions, s),
    }
}

/// The least common ancestor of source and target, when both are states.
pub open spec fn transition_lca(definition: StateMachineDefinition, transition: TransitionDefinition) -> Option<StateId> {
    match (transition.source, transition.target) {
        (TransitionSource::State(s), Some(t)) => definition.spec_lca(s, t),
        _ => None,
    }
}

/// A path walked from its leaf upwards, stopping before `lca`.
pub open spec fn upward_until(path: Seq<StateId>, lca: Option<StateId>) -> Seq<StateId>
    decreases path.len(),
{
    if path.len() == 0 || lca == Some(path.last()) {
        Seq::empty()
    } else {
        seq![path.last()] + upward_until(path.drop_last(), lca)
    }
}

/// The upward walks of all regions, one after the other.
pub open spec fn exit_walks(regions: Seq<ActiveRegionView>, lca: Option<StateId>) -> Seq<StateId>
    decreases regions.len(),
{
    if regions.len() == 0 {
        Seq::empty()
    } else {
        exit_walks(regions.drop_last(), lca) + upward_until(regions.last().path, lca)
    }
}

/// States ordered by depth: deeper ones first, or shallower ones first.
pub open spec fn depth_order(definition: StateMachineDefinition, deeper_first: bool) -> spec_fn(StateId) -> int {
    |s: StateId| if deeper_first {
        -(definition.spec_path_to_root(s).len() as int)
    } else {
        definition.spec_path_to_root(s).len() as int
    }
}

/// The known states of a sequence, in order.
pub open spec fn known_states(definition: StateMachineDefinition, states: Seq<StateId>) -> Seq<StateId>
    decreases states.len(),
{
    if states.len() == 0 {
        Seq::empty()
    } else {
        let prev = known_states(definition, states.drop_last());
        if (states.last().0 as int) < definition.states@.len() {
            prev.push(states.last())
        } else {
            prev
        }
    }
}

/// The states a transition exits, deepest first (ties in walk order), each once.
pub open spec fn exit_order(
    definition: StateMachineDefinition,
    regions: Seq<ActiveRegionView>,
    transition: TransitionDefinition,
) -> Seq<StateId> {
    let walks = exit_walks(affected_regions(regions, transition.source), transition_lca(definition, transition));
    stable_sort(append_new(Seq::empty(), walks), depth_order(definition, true))
}

/// The exited states that exist in the definition.
pub open spec fn exited_states(
    definition: StateMachineDefinition,
    regions: Seq<ActiveRegionView>,
    transition: TransitionDefinition,
) -> Seq<StateId> {
    known_states(definition, exit_order(definition, regions, transition))
}

/// The path of `r` passes through `state_id` and goes on below it.
pub open spec fn has_child_below(r: ActiveRegionView, state_id: StateId) -> bool {
    r.path.contains(state_id) && first_index(r.path, state_id) + 1 < r.path.len()
}

/// The state right below `state_id` on the path of `r`.
pub open spec fn child_below(r: ActiveRegionView, state_id: StateId) -> StateId {
    r.path[first_index(r.path, state_id) + 1]
}

/// The region that directly holds the child below `state_id` on the path of
/// `r` (the region of `r` itself when the child names none).
pub open spec fn shallow_key(definition: StateMachineDefinition, r: ActiveRegionView, state_id: StateId) -> RegionId {
    match definition.spec_state(child_below(r, state_id)) {
        Some(child) => match child.parent_region {
            Some(region_id) => region_id,
            None => r.region_id,
        },
        None => r.region_id,
    }
}

/// For each region whose path goes on below `state_id`: the region holding
/// the direct child of `state_id` on that path, and that child.
pub open spec fn shallow_entries(
    definition: StateMachineDefinition,
    regions: Seq<ActiveRegionView>,
    state_id: StateId,
) -> Seq<(RegionId, StateId)>
    decreases regions.len(),
{
    if regions.len() == 0 {
        Seq::empty()
    } else {
        let prev = shallow_entries(definition, regions.drop_last(), state_id);
        let r = regions.last();
        if has_child_below(r, state_id) {
            prev.push((shallow_key(definition, r, state_id), child_below(r, state_id)))
        } else {
            prev
        }
    }
}

/// What a state remembers when it exits.
pub open spec fn exit_snapshot(definition: StateMachineDefinition, regions: Seq<ActiveRegionView>, state_id: StateId) -> HistoryView {
    HistoryView {
        shallow_children: shallow_entries(definition, regions, state_id),
        deep_regions: regions_containing(regions, state_id),
    }
}

/// The history after recording a snapshot for each exited state.
pub open spec fn history_after_exits(
    definition: StateMachineDefinition,
    history: Seq<Option<HistoryView>>,
    regions: Seq<ActiveRegionView>,
    exited: Seq<StateId>,
) -> Seq<Option<HistoryView>>
    decreases exited.len(),
{
    if exited.len() == 0 {
        history
    } else {
        history_with_exit(definition, history_after_exits(definition, history, regions, exited.drop_last()), regions, exited.last())
    }
}

/// The regions a replace keeps: those whose region is not acted on.
pub open spec fn kept_regions(regions: Seq<ActiveRegionView>, affected: Seq<ActiveRegionView>) -> Seq<ActiveRegionView>
    decreases regions.len(),
{
    if regions.len() == 0 {
        Seq::empty()
    } else {
        let prev = kept_regions(regions.drop_last(), affected);
        if exists|k: int| 0 <= k < affected.len() && #[trigger] affected[k].region_id == regions.last().region_id {
            prev
        } else {
            prev.push(regions.last())
        }
    }
}

/// The history a transition enters with: the instance's history after the exits.
pub open spec fn step_history(
    definition: StateMachineDefinition,
    instance: StateMachineInstance,
    transition: TransitionDefinition,
) -> Seq<Option<HistoryView>> {
    let regions = regions_view(instance.active_regions@);
    history_after_exits(definition, history_view(instance.history@), regions, exited_states(definition, regions, transition))
}

/// Where a transition enters its target: below the common ancestor for a replace, from the top for a push.
pub open spec fn step_lca(
    definition: StateMachineDefinition,
    transition: TransitionDefinition,
) -> Option<StateId> {
    match transition.operation {
        TransitionOperation::Replace => transition_lca(definition, transition),
        _ => None,
    }
}

impl StateMachineDefinition {
    /// Applying the transition to the instance finishes: entering its target
    /// (if any) finishes for some nesting depth.
    pub open spec fn step_terminates(self, instance: StateMachineInstance, transition: TransitionDefinition) -> bool {
        match transition.operation {
            TransitionOperation::Pop => true,
            _ => match transition.target {
                None => true,
                Some(t) => exists|fuel: nat| self.entry_ok(step_history(self, instance, transition), instance.config.enabled_regions@, t, fuel),
            },
        }
    }

    pub open spec fn step_fuel(self, instance: StateMachineInstance, transition: TransitionDefinition) -> nat {
        choose|fuel: nat| self.entry_ok(step_history(self, instance, transition), instance.config.enabled_regions@, transition.target.unwrap(), fuel)
    }

    /// What entering the target does (states entered with repeats, regions added).
    pub open spec fn step_entry(self, instance: StateMachineInstance, transition: TransitionDefinition) -> (Seq<StateId>, Seq<ActiveRegionView>) {
        match transition.target {
            None => (Seq::empty(), Seq::empty()),
            Some(t) => self.entry_result(
                step_history(self, instance, transition),
                instance.config.enabled_regions@,
                t,
                step_lca(self, transition),
                self.step_fuel(instance, transition),
            ),
        }
    }

    /// The target exists in the definition.
    pub open spec fn step_target_known(self, transition: TransitionDefinition) -> bool {
        match transition.target {
            Some(t) => self.spec_state(t) is Some,
            None => false,
        }
    }
}

/// The states exited and entered by one applied transition.
#[derive(Debug, Default)]
pub struct TransitionStepDelta {
    pub exited_states: Vec<StateId>,
    pub entered_states: Vec<StateId>,
}

/// The result of applying a transition. `Rejected` is a push onto a full
/// stack or a pop from an empty one: the instance is unchanged, but the
/// states that would have exited are reported (their exit actions still run).
#[derive(Debug)]
pub enum StepOutcome {
    Applied(TransitionStepDelta),
    Rejected(TransitionStepDelta),
}

/// Whether some region in `affected` has the id of `region`.
fn region_in(affected: &Vec<ActiveRegionState>, region_id: RegionId) -> (r: bool)
    ensures
        r == exists|k: int| 0 <= k < affected@.len() && #[trigger] regions_view(affected@)[k].region_id == region_id,
{
    let mut i: usize = 0;
    while i < affected.len()
        invariant
            i <= affected@.len(),
            forall|k: int| 0 <= k < i ==> regions_view(affected@)[k].region_id != region_id,
        decreases affected@.len() - i,
    {
        if affected[i].region_id == region_id {
            proof {
                assert(regions_view(affected@)[i as int].region_id == region_id);
            }
            return true;
        }
        i = i + 1;
    }
    false
}

fn collect_affected(regions: &Vec<ActiveRegionState>, source: TransitionSource) -> (r: Vec<ActiveRegionState>)
    ensures
        regions_view(r@) == affected_regions(regions_view(regions@), source),
{
    match source {
        TransitionSource::AnyState => copy_regions(regions),
        TransitionSource::State(s) => {
            let mut out: Vec<ActiveRegionState> = Vec::new();
            let mut i: usize = 0;
            while i < regions.len()
                invariant
                    i <= regions@.len(),
                    regions_view(out@) == regions_containing(regions_view(regions@).subrange(0, i as int), s),
                decreases regions@.len() - i,
            {
                let ghost prev = regions_view(out@);
                proof {
                    let next = regions_view(regions@).subrange(0, i + 1);
                    assert(next.drop_last() =~= regions_view(regions@).subrange(0, i as int));
                    assert(next.last() == regions@[i as int]@);
                }
                if contains_state(&regions[i].path, s) {
                    out.push(regions[i].clone());
                    proof {
                        assert(regions_view(out@) =~= prev.push(regions@[i as int]@));
                    }
                }
                i = i + 1;
            }
            proof {
                assert(regions_view(regions@).subrange(0, regions@.len() as int) =~= regions_view(regions@));
            }
            out
        },
    }
}

/// Walks a path upwards from its leaf, appending each state not yet listed,
/// until `lca` is met.
fn append_upward(out: &mut Vec<StateId>, path: &Vec<StateId>, lca: Option<StateId>)
    ensures
        final(out)@ == append_new(old(out)@, upward_until(path@, lca)),
{
    let ghost start = out@;
    let mut i: usize = path.len();
    proof {
        assert(path@.subrange(0, path@.len() as int) =~= path@);
        assert(append_new(start, Seq::<StateId>::empty()) == start);
        lemma_upward_split(path@, path@.len() as int, lca);
    }
    while i > 0
        invariant
            i <= path@.len(),
            start == old(out)@,
            upward_until(path@, lca) == (upward_done(path@, i as int, lca) + upward_until(path@.subrange(0, i as int), lca)),
            out@ == append_new(start, upward_done(path@, i as int, lca)),
            upward_done(path@, i as int, lca).len() == path@.len() - i,
        decreases i,
    {
        let s = path[i - 1];
        if Some(s) == lca {
            proof {
                let p = path@.subrange(0, i as int);
                assert(p.last() == s);
                assert(upward_until(p, lca) == Seq::<StateId>::empty());
                assert(upward_until(path@, lca) =~= upward_done(path@, i as int, lca));
            }
            return;
        }
        proof {
            let p = path@.subrange(0, i as int);
            assert(p.last() == s);
            assert(p.drop_last() =~= path@.subrange(0, i - 1));
            assert(upward_until(p, lca) == seq![s] + upward_until(path@.subrange(0, i - 1), lca));
            lemma_upward_done_step(path@, i as int, lca);
            assert(upward_done(path@, i - 1, lca) =~= upward_done(path@, i as int, lca).push(s));
            assert(upward_until(path@, lca) =~= upward_done(path@, i - 1, lca) + upward_until(path@.subrange(0, i - 1), lca));
            assert(upward_done(path@, i - 1, lca).drop_last() =~= upward_done(path@, i as int, lca));
        }
        if !contains_state(out, s) {
            out.push(s);
        }
        i = i - 1;
    }
    proof {
        assert(path@.subrange(0, 0) =~= Seq::<StateId>::empty());
        assert(upward_until(path@, lca) =~= upward_done(path@, 0, lca));
    }
}

/// The deduplicated upward walks of the affected regions, before ordering.
fn exit_candidates(affected: &Vec<ActiveRegionState>, lca: Option<StateId>) -> (r: Vec<StateId>)
    ensures
        r@ == append_new(Seq::<StateId>::empty(), exit_walks(regions_view(affected@), lca)),
{
    let ghost views = regions_view(affected@);
    let mut out: Vec<StateId> = Vec::new();
    let mut i: usize = 0;
    proof {
        assert(views.subrange(0, 0) =~= Seq::<ActiveRegionView>::empty());
        assert(append_new(Seq::<StateId>::empty(), Seq::<StateId>::empty()) == Seq::<StateId>::empty());
    }
    while i < affected.len()
        invariant
            i <= affected@.len(),
            views == regions_view(affected@),
            out@ == append_new(Seq::<StateId>::empty(), exit_walks(views.subrange(0, i as int), lca)),
        decreases affected@.len() - i,
    {
        proof {
            let next = views.subrange(0, i + 1);
            assert(next.drop_last() =~= views.subrange(0, i as int));
            assert(next.last() == affected@[i as int]@);
            lemma_append_new_concat(Seq::<StateId>::empty(), exit_walks(views.subrange(0, i as int), lca), upward_until(affected@[i as int].path@, lca));
        }
        append_upward(&mut out, &affected[i].path, lca);
        i = i + 1;
    }
    proof {
        assert(views.subrange(0, affected@.len() as int) =~= views);
    }
    out
}

/// Stable sort of states by depth, deeper or shallower states first.
pub fn sort_by_depth(definition: &StateMachineDefinition, states: &Vec<StateId>, deeper_first: bool) -> (r: Vec<StateId>)
    requires
        definition.hierarchy_is_finite(),
    ensures
        r@ == stable_sort(states@, depth_order(*definition, deeper_first)),
{
    let ghost key = depth_order(*definition, deeper_first);
    let mut out: Vec<StateId> = Vec::new();
    let mut depths: Vec<usize> = Vec::new();
    let mut n: usize = 0;
    proof {
        assert(states@.subrange(0, 0) =~= Seq::<StateId>::empty());
    }
    while n < states.len()
        invariant
            n <= states@.len(),
            definition.hierarchy_is_finite(),
            key == depth_order(*definition, deeper_first),
            out@ == stable_sort(states@.subrange(0, n as int), key),
            keys_ascending(out@, key),
            depths@.len() == out@.len(),
            forall|i: int| 0 <= i < out@.len() ==> depths@[i] == definition.spec_path_to_root(#[trigger] out@[i]).len(),
        decreases states@.len() - n,
    {
        let x = states[n];
        proof {
            assert(definition.parent_chain_ends(x));
        }
        let d = depth(definition, x);
        let ghost before = out@;
        let mut j: usize = out.len();
        while j > 0 && ((deeper_first && depths[j - 1] < d) || (!deeper_first && depths[j - 1] > d))
            invariant
                j <= out@.len(),
                out@ == before,
                depths@.len() == out@.len(),
                d == definition.spec_path_to_root(x).len(),
                key == depth_order(*definition, deeper_first),
                forall|i: int| 0 <= i < out@.len() ==> depths@[i] == definition.spec_path_to_root(#[trigger] out@[i]).len(),
                forall|i: int| j <= i < before.len() ==> key(#[trigger] before[i]) > key(x),
            decreases j,
        {
            proof {
                assert(depths@[j - 1] == definition.spec_path_to_root(out@[j - 1]).len());
            }
            j = j - 1;
        }
        proof {
            if j > 0 {
                assert(depths@[j - 1] == definition.spec_path_to_root(out@[j - 1]).len());
                assert(key(before[j - 1]) <= key(x));
            }
            lemma_stable_insert_at(before, x, key, j as int);
            let prefix = states@.subrange(0, n + 1);
            assert(prefix.drop_last() =~= states@.subrange(0, n as int));
            assert(prefix.last() == x);
        }
        out.insert(j, x);
        depths.insert(j, d);
        proof {
            assert forall|i: int| 0 <= i < out@.len() implies depths@[i] == definition.spec_path_to_root(#[trigger] out@[i]).len() by {
                if i < j {
                    assert(out@[i] == before[i]);
                } else if i > j {
                    assert(out@[i] == before[i - 1]);
                }
            }
        }
        n = n + 1;
    }
    proof {
        assert(states@.subrange(0, states@.len() as int) =~= states@);
    }
    out
}

/// For each region whose path goes on below `state_id`: the region holding
/// the direct child of `state_id`, and that child.
fn collect_shallow(definition: &StateMachineDefinition, regions: &Vec<ActiveRegionState>, state_id: StateId) -> (r: Vec<(RegionId, StateId)>)
    ensures
        r@ == shallow_entries(*definition, regions_view(regions@), state_id),
{
    let ghost views = regions_view(regions@);
    let mut out: Vec<(RegionId, StateId)> = Vec::new();
    let mut i: usize = 0;
    proof {
        assert(views.subrange(0, 0) =~= Seq::<ActiveRegionView>::empty());
    }
    while i < regions.len()
        invariant
            i <= regions@.len(),
            views == regions_view(regions@),
            out@ == shallow_entries(*definition, views.subrange(0, i as int), state_id),
        decreases regions@.len() - i,
    {
        let path = &regions[i].path;
        proof {
            let next = views.subrange(0, i + 1);
            assert(next.drop_last() =~= views.subrange(0, i as int));
            assert(next.last() == regions@[i as int]@);
        }
        let mut k: usize = 0;
        while k < path.len() && path[k] != state_id
            invariant
                k <= path@.len(),
                forall|m: int| 0 <= m < k ==> path@[m] != state_id,
            decreases path@.len() - k,
        {
            k = k + 1;
        }
        if k < path.len() {
            proof {
                assert(is_first_index(path@, state_id, k as int));
                assert(path@.contains(state_id));
                let f = first_index(path@, state_id);
                assert(is_first_index(path@, state_id, f));
                if f < k {
                    assert(path@[f] != state_id);
                }
                if k < f {
                    assert(path@[k as int] != state_id);
                }
            }
            if k + 1 < path.len() {
                let child = path[k + 1];
                let key = match definition.state(child) {
                    Some(child_state) => match child_state.parent_region {
                        Some(region_id) => region_id,
                        None => regions[i].region_id,
                    },
                    None => regions[i].region_id,
                };
                out.push((key, child));
            }
        } else {
            proof {
                assert(!path@.contains(state_id));
            }
        }
        i = i + 1;
    }
    proof {
        assert(views.subrange(0, regions@.len() as int) =~= views);
    }
    out
}


/// Fields that applying a transition never touches.
pub open spec fn same_bookkeeping(a: StateMachineInstance, b: StateMachineInstance) -> bool {
    &&& a.definition_id == b.definition_id
    &&& a.config == b.config
    &&& a.status == b.status
    &&& a.runtime_revision == b.runtime_revision
    &&& a.last_blackboard_revision == b.last_blackboard_revision
    &&& a.trace == b.trace
}

/// The cooldown table after a transition fires: its own entry restarts.
pub open spec fn with_cooldown(cooldowns: Seq<u64>, transition: TransitionDefinition) -> Seq<u64> {
    if (transition.id.0 as int) < cooldowns.len() {
        cooldowns.update(transition.id.0 as int, transition.cooldown_micros)
    } else {
        cooldowns
    }
}

/// Whether the stack refuses the transition's operation.
pub open spec fn stack_refuses(instance: StateMachineInstance, transition: TransitionDefinition) -> bool {
    match transition.operation {
        TransitionOperation::Push => instance.stack.frames@.len() >= instance.stack.max_depth,
        TransitionOperation::Pop => instance.stack.frames@.len() == 0,
        TransitionOperation::Replace => false,
    }
}

/// The history table after recording the snapshot of one exiting state.
pub open spec fn history_with_exit(
    definition: StateMachineDefinition,
    history: Seq<Option<HistoryView>>,
    regions: Seq<ActiveRegionView>,
    state_id: StateId,
) -> Seq<Option<HistoryView>> {
    if (state_id.0 as int) < history.len() {
        history.update(state_id.0 as int, Some(exit_snapshot(definition, regions, state_id)))
    } else {
        history
    }
}

/// Records in a history table, for an exiting state, which child and which
/// active regions lie below it.
pub fn record_exit(
    definition: &StateMachineDefinition,
    history: &mut Vec<Option<HistorySnapshot>>,
    regions: &Vec<ActiveRegionState>,
    state_id: StateId,
)
    ensures
        history_view(final(history)@) == history_with_exit(*definition, history_view(old(history)@), regions_view(regions@), state_id),
        final(history)@.len() == old(history)@.len(),
{
    let shallow_children = collect_shallow(definition, regions, state_id);
    let deep_regions = collect_affected(regions, TransitionSource::State(state_id));
    let index = state_id.0 as usize;
    if index < history.len() {
        let snapshot = HistorySnapshot { shallow_children, deep_regions };
        let ghost old_history = history@;
        history.set(index, Some(snapshot));
        proof {
            assert(history_view(history@) =~= history_view(old_history).update(index as int, Some(exit_snapshot(*definition, regions_view(regions@), state_id))));
        }
    }
}

/// Records, for an exiting state, which child and which active regions lie
/// below it.
pub fn update_history_for_exit(definition: &StateMachineDefinition, instance: &mut StateMachineInstance, state_id: StateId)
    ensures
        history_view(final(instance).history@) == history_with_exit(
            *definition,
            history_view(old(instance).history@),
            regions_view(old(instance).active_regions@),
            state_id,
        ),
        final(instance).history@.len() == old(instance).history@.len(),
        final(instance).active_regions == old(instance).active_regions,
        final(instance).active_leaf_states == old(instance).active_leaf_states,
        final(instance).active_path == old(instance).active_path,
        final(instance).pending_transition == old(instance).pending_transition,
        final(instance).stack == old(instance).stack,
        final(instance).state_elapsed_micros == old(instance).state_elapsed_micros,
        final(instance).transition_cooldowns_micros == old(instance).transition_cooldowns_micros,
        final(instance).guard_true_for_micros == old(instance).guard_true_for_micros,
        final(instance).guards_held == old(instance).guards_held,
        final(instance).pending_signals == old(instance).pending_signals,
        same_bookkeeping(*final(instance), *old(instance)),
{
    record_exit(definition, &mut instance.history, &instance.active_regions, state_id);
}

/// Records history for each exited state that exists; returns those states.
pub fn exit_phase(
    definition: &StateMachineDefinition,
    history: &mut Vec<Option<HistorySnapshot>>,
    regions: &Vec<ActiveRegionState>,
    order: &Vec<StateId>,
) -> (r: Vec<StateId>)
    ensures
        r@ == known_states(*definition, order@),
        history_view(final(history)@) == history_after_exits(*definition, history_view(old(history)@), regions_view(regions@), r@),
{
    let ghost views = regions_view(regions@);
    let ghost history0 = history_view(history@);
    let mut exited: Vec<StateId> = Vec::new();
    let mut i: usize = 0;
    proof {
        assert(order@.subrange(0, 0) =~= Seq::<StateId>::empty());
    }
    while i < order.len()
        invariant
            i <= order@.len(),
            views == regions_view(regions@),
            history0 == history_view(old(history)@),
            exited@ == known_states(*definition, order@.subrange(0, i as int)),
            history_view(history@) == history_after_exits(*definition, history0, views, exited@),
        decreases order@.len() - i,
    {
        let s = order[i];
        let ghost before = exited@;
        proof {
            let next = order@.subrange(0, i + 1);
            assert(next.drop_last() =~= order@.subrange(0, i as int));
            assert(next.last() == s);
        }
        if definition.state(s).is_some() {
            record_exit(definition, history, regions, s);
            exited.push(s);
            proof {
                assert(exited@.drop_last() =~= before);
                assert(exited@.last() == s);
            }
        }
        i = i + 1;
    }
    proof {
        assert(order@.subrange(0, order@.len() as int) =~= order@);
    }
    exited
}

/// The regions whose region is not among the affected ones.
fn keep_unaffected(regions: &Vec<ActiveRegionState>, affected: &Vec<ActiveRegionState>) -> (r: Vec<ActiveRegionState>)
    ensures
        regions_view(r@) == kept_regions(regions_view(regions@), regions_view(affected@)),
{
    let ghost views = regions_view(regions@);
    let mut out: Vec<ActiveRegionState> = Vec::new();
    let mut i: usize = 0;
    proof {
        assert(views.subrange(0, 0) =~= Seq::<ActiveRegionView>::empty());
    }
    while i < regions.len()
        invariant
            i <= regions@.len(),
            views == regions_view(regions@),
            regions_view(out@) == kept_regions(views.subrange(0, i as int), regions_view(affected@)),
        decreases regions@.len() - i,
    {
        let ghost prev = regions_view(out@);
        proof {
            let next = views.subrange(0, i + 1);
            assert(next.drop_last() =~= views.subrange(0, i as int));
            assert(next.last() == regions@[i as int]@);
        }
        if !region_in(affected, regions[i].region_id) {
            out.push(regions[i].clone());
            proof {
                assert(regions_view(out@) =~= prev.push(regions@[i as int]@));
            }
        }
        i = i + 1;
    }
    proof {
        assert(views.subrange(0, regions@.len() as int) =~= views);
    }
    out
}

/// The least common ancestor of a transition's source and target.
fn transition_common_ancestor(definition: &StateMachineDefinition, transition: &TransitionDefinition) -> (r: Option<StateId>)
    requires
        definition.hierarchy_is_finite(),
    ensures
        r == transition_lca(*definition, *transition),
{
    match (transition.source, transition.target) {
        (TransitionSource::State(source), Some(target)) => {
            proof {
                assert(definition.parent_chain_ends(source));
                assert(definition.parent_chain_ends(target));
            }
            least_common_ancestor(definition, source, target)
        },
        _ => None,
    }
}

/// The states a transition exits, in exit order.
pub fn states_to_exit(definition: &StateMachineDefinition, instance: &StateMachineInstance, transition: &TransitionDefinition) -> (r: Vec<StateId>)
    requires
        definition.hierarchy_is_finite(),
    ensures
        r@ == exit_order(*definition, regions_view(instance.active_regions@), *transition),
{
    let affected = collect_affected(&instance.active_regions, transition.source);
    let lca = transition_common_ancestor(definition, transition);
    let candidates = exit_candidates(&affected, lca);
    sort_by_depth(definition, &candidates, true)
}

/// Adds entered regions to the active ones and, when the target exists,
/// puts them in canonical order.
fn enter_and_sync(
    definition: &StateMachineDefinition,
    instance: &mut StateMachineInstance,
    target: StateId,
    lca: Option<StateId>,
    Ghost(fuel): Ghost<nat>,
) -> (entered: Vec<StateId>)
    requires
        definition.hierarchy_is_finite(),
        definition.entry_ok(history_view(old(instance).history@), old(instance).config.enabled_regions@, target, fuel),
    ensures
        ({
            let entry = definition.entry_result(history_view(old(instance).history@), old(instance).config.enabled_regions@, target, lca, fuel);
            let all = regions_view(old(instance).active_regions@) + entry.1;
            &&& entered@ == append_new(Seq::<StateId>::empty(), entry.0)
            &&& definition.spec_state(target) is Some ==> {
                &&& regions_view(final(instance).active_regions@) == sorted_regions(all)
                &&& final(instance).active_leaf_states@ == leaves_of(sorted_regions(all))
                &&& final(instance).active_path@ == first_path(sorted_regions(all))
            }
            &&& definition.spec_state(target) is None ==> {
                &&& final(instance).active_regions == old(instance).active_regions
                &&& final(instance).active_leaf_states == old(instance).active_leaf_states
                &&& final(instance).active_path == old(instance).active_path
            }
        }),
        final(instance).history == old(instance).history,
        final(instance).pending_transition == old(instance).pending_transition,
        final(instance).stack == old(instance).stack,
        final(instance).state_elapsed_micros == old(instance).state_elapsed_micros,
        final(instance).transition_cooldowns_micros == old(instance).transition_cooldowns_micros,
        final(instance).guard_true_for_micros == old(instance).guard_true_for_micros,
        final(instance).guards_held == old(instance).guards_held,
        final(instance).pending_signals == old(instance).pending_signals,
        same_bookkeeping(*final(instance), *old(instance)),
{
    let mut entered: Vec<StateId> = Vec::new();
    if definition.state(target).is_none() {
        proof {
            assert(append_new(Seq::<StateId>::empty(), Seq::<StateId>::empty()) == Seq::<StateId>::empty());
        }
        return entered;
    }
    let mut added: Vec<ActiveRegionState> = Vec::new();
    enter_target(definition, &instance.history, &instance.config.enabled_regions, target, lca, &mut entered, &mut added, Ghost(fuel));
    let ghost before = regions_view(instance.active_regions@);
    let ghost added_view = regions_view(added@);
    let ghost old_active = instance.active_regions@;
    let ghost old_added = added@;
    instance.active_regions.append(&mut added);
    proof {
        assert(instance.active_regions@ == old_active + old_added);
        assert(regions_view(instance.active_regions@) =~= before + added_view);
        assert(added_view =~= Seq::<ActiveRegionView>::empty() + added_view);
    }
    sync_active_path(instance);
    entered
}

/// What an accepted transition does to the configuration, history, stack
/// and timers of the instance.
pub open spec fn applied_topology(
    definition: StateMachineDefinition,
    before: StateMachineInstance,
    after: StateMachineInstance,
    transition: TransitionDefinition,
) -> bool {
    let regions0 = regions_view(before.active_regions@);
    let hist1 = step_history(definition, before, transition);
    let entry = definition.step_entry(before, transition);
    let known = definition.step_target_known(transition);
    &&& after.pending_signals@.len() == 0
    &&& match transition.operation {
        TransitionOperation::Replace => {
            let kept = kept_regions(regions0, affected_regions(regions0, transition.source));
            &&& history_view(after.history@) == hist1
            &&& after.stack == before.stack
            &&& after.state_elapsed_micros@ == restarted(before.state_elapsed_micros@, append_new(Seq::empty(), entry.0))
            &&& after.guard_true_for_micros == before.guard_true_for_micros
            &&& after.guards_held == before.guards_held
            &&& after.transition_cooldowns_micros@ == with_cooldown(before.transition_cooldowns_micros@, transition)
            &&& known ==> {
                &&& regions_view(after.active_regions@) == sorted_regions(kept + entry.1)
                &&& after.active_leaf_states@ == leaves_of(sorted_regions(kept + entry.1))
                &&& after.active_path@ == first_path(sorted_regions(kept + entry.1))
            }
            &&& !known ==> {
                &&& regions_view(after.active_regions@) == kept
                &&& after.active_leaf_states == before.active_leaf_states
                &&& after.active_path == before.active_path
            }
        },
        TransitionOperation::Push => {
            let f = after.stack.frames@.last();
            &&& history_view(after.history@) == hist1
            &&& after.stack.max_depth == before.stack.max_depth
            &&& after.stack.frames@.len() == before.stack.frames@.len() + 1
            &&& after.stack.frames@.drop_last() == before.stack.frames@
            &&& regions_view(f.active_regions@) == regions0
            &&& history_view(f.history@) == hist1
            &&& f.state_elapsed_micros@ == before.state_elapsed_micros@
            &&& f.transition_cooldowns_micros@ == before.transition_cooldowns_micros@
            &&& f.guard_true_for_micros@ == before.guard_true_for_micros@
            &&& f.pending_transition == spec_pending_transition_id(before.pending_transition)
            &&& after.state_elapsed_micros@ == restarted(before.state_elapsed_micros@, append_new(Seq::empty(), entry.0))
            &&& after.guard_true_for_micros == before.guard_true_for_micros
            &&& after.guards_held == before.guards_held
            &&& after.transition_cooldowns_micros@ == with_cooldown(before.transition_cooldowns_micros@, transition)
            &&& known ==> {
                &&& regions_view(after.active_regions@) == sorted_regions(entry.1)
                &&& after.active_leaf_states@ == leaves_of(sorted_regions(entry.1))
                &&& after.active_path@ == first_path(sorted_regions(entry.1))
            }
            &&& !known ==> {
                &&& after.active_regions@.len() == 0
                &&& after.active_leaf_states@.len() == 0
                &&& after.active_path@.len() == 0
            }
        },
        TransitionOperation::Pop => {
            let f = before.stack.frames@.last();
            &&& after.stack.max_depth == before.stack.max_depth
            &&& after.stack.frames@ == before.stack.frames@.drop_last()
            &&& regions_view(after.active_regions@) == sorted_regions(regions_view(f.active_regions@))
            &&& after.active_leaf_states@ == leaves_of(sorted_regions(regions_view(f.active_regions@)))
            &&& after.active_path@ == first_path(sorted_regions(regions_view(f.active_regions@)))
            &&& after.history == f.history
            &&& after.state_elapsed_micros == f.state_elapsed_micros
            &&& after.guard_true_for_micros == f.guard_true_for_micros
            &&& after.guards_held == before.guards_held
            &&& after.transition_cooldowns_micros@ == with_cooldown(f.transition_cooldowns_micros@, transition)
        },
    }
}

/// What an accepted transition does to the instance: the topology change,
/// and a push also drops the pending transition.
pub open spec fn apply_effect(
    definition: StateMachineDefinition,
    before: StateMachineInstance,
    after: StateMachineInstance,
    transition: TransitionDefinition,
) -> bool {
    &&& same_bookkeeping(after, before)
    &&& applied_topology(definition, before, after, transition)
    &&& after.pending_transition == (if transition.operation == TransitionOperation::Push {
        None
    } else {
        before.pending_transition
    })
}

/// Applies one transition to the instance: exits, then the operation's
/// topology change (the timers of the entered states start again at 0),
/// then clears queued signals and restarts the transition's cooldown.
pub fn apply_transition(definition: &StateMachineDefinition, instance: &mut StateMachineInstance, transition: &TransitionDefinition) -> (r: StepOutcome)
    requires
        definition.hierarchy_is_finite(),
        definition.step_terminates(*old(instance), *transition),
    ensures
        ({
            let regions0 = regions_view(old(instance).active_regions@);
            let exited = exited_states(*definition, regions0, *transition);
            let refused = stack_refuses(*old(instance), *transition);
            &&& match r {
                StepOutcome::Rejected(d) => refused && d.exited_states@ == exited && d.entered_states@.len() == 0,
                StepOutcome::Applied(d) => !refused && d.exited_states@ == exited && d.entered_states@ == (match transition.operation {
                    TransitionOperation::Pop => Seq::<StateId>::empty(),
                    _ => append_new(Seq::<StateId>::empty(), definition.step_entry(*old(instance), *transition).0),
                }),
            }
            &&& refused ==> *final(instance) == *old(instance)
        }),
        !stack_refuses(*old(instance), *transition) ==> apply_effect(*definition, *old(instance), *final(instance), *transition),
{
    let ghost start = *instance;
    let order = states_to_exit(definition, instance, transition);
    let refused = match transition.operation {
        TransitionOperation::Push => instance.stack.len() >= instance.stack.max_depth,
        TransitionOperation::Pop => instance.stack.is_empty(),
        TransitionOperation::Replace => false,
    };
    if refused {
        let mut exited: Vec<StateId> = Vec::new();
        let mut i: usize = 0;
        proof {
            assert(order@.subrange(0, 0) =~= Seq::<StateId>::empty());
        }
        while i < order.len()
            invariant
                i <= order@.len(),
                exited@ == known_states(*definition, order@.subrange(0, i as int)),
            decreases order@.len() - i,
        {
            let s = order[i];
            proof {
                let next = order@.subrange(0, i + 1);
                assert(next.drop_last() =~= order@.subrange(0, i as int));
                assert(next.last() == s);
            }
            if definition.state(s).is_some() {
                exited.push(s);
            }
            i = i + 1;
        }
        proof {
            assert(order@.subrange(0, order@.len() as int) =~= order@);
        }
        return StepOutcome::Rejected(TransitionStepDelta { exited_states: exited, entered_states: Vec::new() });
    }
    let lca = transition_common_ancestor(definition, transition);
    let affected = collect_affected(&instance.active_regions, transition.source);
    let exited = exit_phase(definition, &mut instance.history, &instance.active_regions, &order);
    proof {
        assert(history_view(instance.history@) == step_history(*definition, start, *transition));
    }
    let mut entered: Vec<StateId> = Vec::new();
    match transition.operation {
        TransitionOperation::Replace => {
            let kept = keep_unaffected(&instance.active_regions, &affected);
            instance.active_regions = kept;
            match transition.target {
                Some(target) => {
                    let ghost fuel = definition.step_fuel(start, *transition);
                    entered = enter_and_sync(definition, instance, target, lca, Ghost(fuel));
                },
                None => {},
            }
            restart_timers(&mut instance.state_elapsed_micros, &entered);
        },
        TransitionOperation::Push => {
            let frame = StateStackFrame {
                active_regions: copy_regions(&instance.active_regions),
                history: copy_history(&instance.history),
                state_elapsed_micros: copy_timers(&instance.state_elapsed_micros),
                transition_cooldowns_micros: copy_timers(&instance.transition_cooldowns_micros),
                guard_true_for_micros: copy_timers(&instance.guard_true_for_micros),
                pending_transition: pending_transition_id(&instance.pending_transition),
            };
            let pushed = instance.stack.push(frame);
            proof {
                assert(instance.stack.frames@.drop_last() =~= start.stack.frames@);
            }
            instance.clear_active_state();
            match transition.target {
                Some(target) => {
                    let ghost fuel = definition.step_fuel(start, *transition);
                    entered = enter_and_sync(definition, instance, target, None, Ghost(fuel));
                },
                None => {},
            }
            restart_timers(&mut instance.state_elapsed_micros, &entered);
        },
        TransitionOperation::Pop => {
            match instance.stack.pop() {
                Some(frame) => {
                    instance.active_regions = frame.active_regions;
                    instance.history = frame.history;
                    instance.state_elapsed_micros = frame.state_elapsed_micros;
                    instance.transition_cooldowns_micros = frame.transition_cooldowns_micros;
                    instance.guard_true_for_micros = frame.guard_true_for_micros;
                    sync_active_path(instance);
                },
                None => {},
            }
        },
    }
    instance.pending_signals.clear();
    let index = transition.id.0 as usize;
    if index < instance.transition_cooldowns_micros.len() {
        instance.transition_cooldowns_micros.set(index, transition.cooldown_micros);
    }
    StepOutcome::Applied(TransitionStepDelta { exited_states: exited, entered_states: entered })
}

/// The states of `path[i..]` from the leaf upwards.
spec fn upward_done(path: Seq<StateId>, i: int, lca: Option<StateId>) -> Seq<StateId>
    decreases path.len() - i,
{
    if i >= path.len() || i < 0 {
        Seq::empty()
    } else {
        upward_done(path, i + 1, lca).push(path[i])
    }
}

proof fn lemma_upward_split(path: Seq<StateId>, n: int, lca: Option<StateId>)
    requires
        n == path.len(),
    ensures
        upward_until(path, lca) == upward_done(path, n, lca) + upward_until(path.subrange(0, n), lca),
        upward_done(path, n, lca).len() == 0,
{
    assert(path.subrange(0, n) =~= path);
    assert(upward_done(path, n, lca) =~= Seq::<StateId>::empty());
    assert(upward_done(path, n, lca) + upward_until(path, lca) =~= upward_until(path, lca));
}

proof fn lemma_upward_done_step(path: Seq<StateId>, i: int, lca: Option<StateId>)
    requires
        0 < i <= path.len(),
    ensures
        upward_done(path, i - 1, lca) == upward_done(path, i, lca).push(path[i - 1]),
{
}

} // verus!
