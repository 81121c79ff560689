//! Properties of single operations, each stated directly over the inputs
//! that the operation reads: minimum dwell time and exit guards, exit order,
//! enabled regions, history validation, blackboard value equality, and the
//! delayed, signal and done triggers.

use vstd::prelude::*;

use crate::blackboard::{values_equal, BlackboardValue};
use crate::debug::TransitionBlockedReason;
use crate::definition::{
    HistoryMode, RegionId, SignalId, StateId, StateKind, StateMachineDefinition, TransitionDefinition, TransitionMode, TransitionSource,
    TransitionTrigger,
};
use crate::evaluating::{exit_checks, spec_block_reason, spec_can_exit, spec_trigger_block_reason};
use crate::executing::{exit_order, exited_states, known_states, upward_until};
use crate::instance::StateMachineInstance;
use crate::ordering::{keys_ascending, lemma_stable_sort_ascending};
use crate::regions::spec_region_is_enabled;
use crate::stack::{regions_view, ActiveRegionView, HistoryView};
use crate::validation::{expected_issues, has_error, ValidationCode, ValidationSeverity};

verus! {

proof fn lemma_contains_in_sum(a: Seq<StateId>, b: Seq<StateId>, x: StateId)
    requires
        a.contains(x) || b.contains(x),
    ensures
        (a + b).contains(x),
{
    if a.contains(x) {
        let i = choose|i: int| 0 <= i < a.len() && a[i] == x;
        assert((a + b)[i] == x);
    } else {
        let i = choose|i: int| 0 <= i < b.len() && b[i] == x;
        assert((a + b)[a.len() + i] == x);
    }
}

proof fn lemma_exit_checks_source(regions: Seq<ActiveRegionView>, src: StateId, k: int)
    requires
        0 <= k < regions.len(),
        regions[k].path.contains(src),
    ensures
        exit_checks(regions, TransitionSource::State(src)).contains(src),
        exit_checks(regions, TransitionSource::State(src)).contains(regions[k].path.last()),
    decreases regions.len(),
{
    let t = regions.drop_last();
    let last = regions.last();
    assert(regions[regions.len() - 1] == last);
    let prev = exit_checks(t, TransitionSource::State(src));
    if k == regions.len() - 1 {
        let walk = upward_until(last.path, Some(src));
        let tail = walk.push(src);
        assert(tail[walk.len() as int] == src);
        if last.path.last() != src {
            assert(last.path.len() > 0);
            assert(walk[0] == last.path.last());
            assert(tail[0] == last.path.last());
        }
        lemma_contains_in_sum(prev, tail, src);
        lemma_contains_in_sum(prev, tail, last.path.last());
    } else {
        assert(t[k] == regions[k]);
        lemma_exit_checks_source(t, src, k);
        if last.path.contains(src) {
            let tail = upward_until(last.path, Some(src)).push(src);
            lemma_contains_in_sum(prev, tail, src);
            lemma_contains_in_sum(prev, tail, regions[k].path.last());
        }
    }
}

proof fn lemma_exit_checks_any(regions: Seq<ActiveRegionView>, s: StateId, k: int)
    requires
        0 <= k < regions.len(),
        regions[k].path.contains(s),
    ensures
        exit_checks(regions, TransitionSource::AnyState).contains(s),
    decreases regions.len(),
{
    let t = regions.drop_last();
    let last = regions.last();
    assert(regions[regions.len() - 1] == last);
    let prev = exit_checks(t, TransitionSource::AnyState);
    if k == regions.len() - 1 {
        lemma_contains_in_sum(prev, last.path, s);
    } else {
        assert(t[k] == regions[k]);
        lemma_exit_checks_any(t, s, k);
        lemma_contains_in_sum(prev, last.path, s);
    }
}

/// Minimum dwell time: unless a transition is forced, it cannot leave while
/// a state it would exit has been active for less than that state's minimum
/// active time. The states meant are the source itself and the leaf below it
/// in any active region (for a transition from any state: every active
/// state). Such a transition is always blocked, never ready.
pub proof fn law_min_active_time_blocks_exit(
    definition: StateMachineDefinition,
    instance: StateMachineInstance,
    transition: TransitionDefinition,
    answers: (bool, i64, Seq<bool>),
    s: StateId,
    k: int,
)
    requires
        transition.mode != TransitionMode::Force,
        0 <= k < instance.active_regions@.len(),
        match transition.source {
            TransitionSource::AnyState => regions_view(instance.active_regions@)[k].path.contains(s),
            TransitionSource::State(src) => regions_view(instance.active_regions@)[k].path.contains(src)
                && (s == src || s == regions_view(instance.active_regions@)[k].path.last()),
        },
        definition.spec_state(s) matches Some(state)
            && (s.0 as int) < instance.state_elapsed_micros@.len()
            && instance.state_elapsed_micros@[s.0 as int] < state.min_active_micros,
    ensures
        !spec_can_exit(definition, instance, transition, answers.2),
        spec_block_reason(definition, instance, transition, answers).0 is Some,
        spec_block_reason(definition, instance, transition, answers).0 != Some(TransitionBlockedReason::PendingExit)
            || transition.mode == TransitionMode::Pending,
{
    let regions = regions_view(instance.active_regions@);
    let checks = exit_checks(regions, transition.source);
    match transition.source {
        TransitionSource::AnyState => lemma_exit_checks_any(regions, s, k),
        TransitionSource::State(src) => lemma_exit_checks_source(regions, src, k),
    }
    let i = choose|i: int| 0 <= i < checks.len() && checks[i] == s;
    assert(checks[i] == s);
}

/// Exit guards: unless a transition is forced, it cannot leave while a state
/// it would exit (the source or the leaf below it; for a transition from any
/// state, any active state) has an exit guard that refused; a forced
/// transition always may leave.
pub proof fn law_exit_guard_blocks_exit(
    definition: StateMachineDefinition,
    instance: StateMachineInstance,
    transition: TransitionDefinition,
    answers: (bool, i64, Seq<bool>),
    s: StateId,
    k: int,
)
    requires
        0 <= k < instance.active_regions@.len(),
        match transition.source {
            TransitionSource::AnyState => regions_view(instance.active_regions@)[k].path.contains(s),
            TransitionSource::State(src) => regions_view(instance.active_regions@)[k].path.contains(src)
                && (s == src || s == regions_view(instance.active_regions@)[k].path.last()),
        },
        definition.spec_state(s) matches Some(state) && state.exit_guard is Some,
        (s.0 as int) < answers.2.len() && !answers.2[s.0 as int],
    ensures
        transition.mode != TransitionMode::Force ==> !spec_can_exit(definition, instance, transition, answers.2),
        transition.mode != TransitionMode::Force ==> spec_block_reason(definition, instance, transition, answers).0 is Some,
        transition.mode == TransitionMode::Force ==> spec_can_exit(definition, instance, transition, answers.2),
{
    let regions = regions_view(instance.active_regions@);
    let checks = exit_checks(regions, transition.source);
    match transition.source {
        TransitionSource::AnyState => lemma_exit_checks_any(regions, s, k),
        TransitionSource::State(src) => lemma_exit_checks_source(regions, src, k),
    }
    let i = choose|i: int| 0 <= i < checks.len() && checks[i] == s;
    assert(checks[i] == s);
}

/// The depth of a state: the length of its path to the root.
pub open spec fn state_depth(definition: StateMachineDefinition, s: StateId) -> int {
    definition.spec_path_to_root(s).len() as int
}

proof fn lemma_known_states_members(definition: StateMachineDefinition, states: Seq<StateId>, x: StateId)
    requires
        known_states(definition, states).contains(x),
    ensures
        states.contains(x),
    decreases states.len(),
{
    if states.len() > 0 {
        let prev = known_states(definition, states.drop_last());
        if prev.contains(x) {
            lemma_known_states_members(definition, states.drop_last(), x);
            let i = choose|i: int| 0 <= i < states.drop_last().len() && states.drop_last()[i] == x;
            assert(states[i] == x);
        } else {
            assert(states[states.len() - 1] == x);
        }
    }
}

proof fn lemma_known_states_deepest_first(definition: StateMachineDefinition, states: Seq<StateId>)
    requires
        forall|i: int, j: int| 0 <= i <= j < states.len()
            ==> state_depth(definition, #[trigger] states[i]) >= state_depth(definition, #[trigger] states[j]),
    ensures
        forall|i: int, j: int| 0 <= i <= j < known_states(definition, states).len()
            ==> state_depth(definition, #[trigger] known_states(definition, states)[i])
                >= state_depth(definition, #[trigger] known_states(definition, states)[j]),
    decreases states.len(),
{
    if states.len() > 0 {
        let t = states.drop_last();
        let x = states.last();
        assert(states[states.len() - 1] == x);
        assert forall|i: int, j: int| 0 <= i <= j < t.len()
            implies state_depth(definition, #[trigger] t[i]) >= state_depth(definition, #[trigger] t[j]) by {
            assert(t[i] == states[i]);
            assert(t[j] == states[j]);
        }
        lemma_known_states_deepest_first(definition, t);
        let prev = known_states(definition, t);
        let r = known_states(definition, states);
        if r != prev {
            assert(r == prev.push(x));
            assert forall|i: int, j: int| 0 <= i <= j < r.len()
                implies state_depth(definition, #[trigger] r[i]) >= state_depth(definition, #[trigger] r[j]) by {
                if j == r.len() - 1 && i < j {
                    assert(r[i] == prev[i]);
                    assert(prev.contains(prev[i]));
                    lemma_known_states_members(definition, t, prev[i]);
                    let m = choose|m: int| 0 <= m < t.len() && t[m] == prev[i];
                    assert(t[m] == states[m]);
                    assert(state_depth(definition, states[m]) >= state_depth(definition, states[states.len() - 1]));
                } else if j < r.len() - 1 {
                    assert(r[i] == prev[i]);
                    assert(r[j] == prev[j]);
                }
            }
        }
    }
}

/// Exits run deepest first: in the states a transition exits, each state is
/// at least as deep as every state after it, so a child always exits before
/// its ancestors (and their exit hooks run in that order).
pub proof fn law_exits_run_deepest_first(
    definition: StateMachineDefinition,
    regions: Seq<ActiveRegionView>,
    transition: TransitionDefinition,
)
    ensures
        forall|i: int, j: int| 0 <= i <= j < exited_states(definition, regions, transition).len()
            ==> state_depth(definition, #[trigger] exited_states(definition, regions, transition)[i])
                >= state_depth(definition, #[trigger] exited_states(definition, regions, transition)[j]),
{
    let order = exit_order(definition, regions, transition);
    let key = crate::executing::depth_order(definition, true);
    let unsorted = crate::ordering::append_new(
        Seq::<StateId>::empty(),
        crate::executing::exit_walks(
            crate::executing::affected_regions(regions, transition.source),
            crate::executing::transition_lca(definition, transition),
        ),
    );
    lemma_stable_sort_ascending(unsorted, key);
    assert(keys_ascending(order, key));
    assert forall|i: int, j: int| 0 <= i <= j < order.len()
        implies state_depth(definition, #[trigger] order[i]) >= state_depth(definition, #[trigger] order[j]) by {
        assert(key(order[i]) <= key(order[j]));
    }
    lemma_known_states_deepest_first(definition, order);
}

/// A non-empty list of enabled regions enables exactly the regions it holds:
/// a region left out of it is not enabled, and entering a state enters
/// nothing in such a child region.
pub proof fn law_enabled_regions_filter(
    definition: StateMachineDefinition,
    history: Seq<Option<HistoryView>>,
    enabled: Seq<RegionId>,
    region_id: RegionId,
    parent: StateId,
    k: int,
)
    requires
        enabled.len() > 0,
    ensures
        spec_region_is_enabled(enabled, region_id) == enabled.contains(region_id),
        (definition.spec_state(parent) matches Some(state) && 0 <= k < state.child_regions@.len()
            && !enabled.contains(state.child_regions@[k]))
            ==> definition.child_targets(history, enabled, parent, k).len() == 0,
        (0 <= k < definition.root_regions@.len() && !enabled.contains(definition.root_regions@[k]))
            ==> definition.root_target(enabled, k) is None,
{
}

/// An empty list of enabled regions enables every region.
pub proof fn law_no_enabled_list_enables_all(region_id: RegionId)
    ensures
        spec_region_is_enabled(Seq::<RegionId>::empty(), region_id),
{
}

proof fn lemma_history_section_reports(definition: StateMachineDefinition, n: nat, i: int)
    requires
        0 <= i < n <= definition.states@.len(),
        definition.states@[i].history_mode != HistoryMode::NoHistory,
        definition.states@[i].kind == StateKind::Atomic || definition.states@[i].kind == StateKind::Final
            || definition.states@[i].kind == StateKind::Transient,
    ensures
        exists|m: int| 0 <= m < crate::validation::history_section(definition, n).len()
            && (#[trigger] crate::validation::history_section(definition, n)[m]).severity == ValidationSeverity::Error
            && crate::validation::history_section(definition, n)[m].code == ValidationCode::InvalidHistoryMode,
    decreases n,
{
    let prev = crate::validation::history_section(definition, (n - 1) as nat);
    let here = crate::validation::history_section(definition, n);
    if i == n - 1 {
        assert(here[prev.len() as int].code == ValidationCode::InvalidHistoryMode);
        assert(here[prev.len() as int].severity == ValidationSeverity::Error);
    } else {
        lemma_history_section_reports(definition, (n - 1) as nat, i);
        let m = choose|m: int| 0 <= m < prev.len() && (#[trigger] prev[m]).severity == ValidationSeverity::Error
            && prev[m].code == ValidationCode::InvalidHistoryMode;
        assert(here[m] == prev[m]);
    }
}

/// History needs children: a state that keeps any history (shallow or deep)
/// but is atomic, final or transient makes validation report an
/// `InvalidHistoryMode` error, so the definition does not build.
pub proof fn law_history_on_childless_state_is_an_error(definition: StateMachineDefinition, i: int)
    requires
        0 <= i < definition.states@.len(),
        definition.states@[i].history_mode != HistoryMode::NoHistory,
        definition.states@[i].kind == StateKind::Atomic || definition.states@[i].kind == StateKind::Final
            || definition.states@[i].kind == StateKind::Transient,
    ensures
        exists|m: int| 0 <= m < expected_issues(definition).len()
            && (#[trigger] expected_issues(definition)[m]).severity == ValidationSeverity::Error
            && expected_issues(definition)[m].code == ValidationCode::InvalidHistoryMode,
        has_error(expected_issues(definition)),
{
    let n = definition.states@.len();
    lemma_history_section_reports(definition, n, i);
    let tail = crate::validation::history_section(definition, n);
    let all = expected_issues(definition);
    let m = choose|m: int| 0 <= m < tail.len() && (#[trigger] tail[m]).severity == ValidationSeverity::Error
        && tail[m].code == ValidationCode::InvalidHistoryMode;
    let head_len = all.len() - tail.len();
    assert(all[head_len + m] == tail[m]);
}

/// A binary32 bit pattern that encodes a NaN: all exponent bits set and a
/// non-zero fraction.
pub open spec fn bits_are_nan(bits: u32) -> bool {
    (bits / 0x80_0000) % 0x100 == 0xff && bits % 0x80_0000 != 0
}

/// Two binary32 numbers are equal: neither is a NaN, and the patterns are
/// identical or both are zeros (of either sign).
pub open spec fn same_number(a: u32, b: u32) -> bool {
    &&& !bits_are_nan(a)
    &&& !bits_are_nan(b)
    &&& (a == b || (a == 0 || a == 0x8000_0000) && (b == 0 || b == 0x8000_0000))
}

/// Blackboard values compare as the numbers and data they hold: same
/// variant, and every component equal (floating-point components as
/// numbers, so a NaN equals nothing and the two zeros are equal).
pub proof fn law_value_equality_is_componentwise(a: BlackboardValue, b: BlackboardValue)
    ensures
        values_equal(a, b) == match (a, b) {
            (BlackboardValue::F32(x), BlackboardValue::F32(y)) => same_number(x, y),
            (BlackboardValue::I32(x), BlackboardValue::I32(y)) => x == y,
            (BlackboardValue::Bool(x), BlackboardValue::Bool(y)) => x == y,
            (BlackboardValue::Entity(x), BlackboardValue::Entity(y)) => x == y,
            (BlackboardValue::Vec2(x1, y1), BlackboardValue::Vec2(x2, y2)) => same_number(x1, x2) && same_number(y1, y2),
            (BlackboardValue::Vec3(x1, y1, z1), BlackboardValue::Vec3(x2, y2, z2)) =>
                same_number(x1, x2) && same_number(y1, y2) && same_number(z1, z2),
            (BlackboardValue::String(s), BlackboardValue::String(t)) => s@ == t@,
            _ => false,
        },
{
    assert forall|p: u32, q: u32| crate::blackboard::f32_bits_eq(p, q) == #[trigger] same_number(p, q) by {
        assert((p % 0x8000_0000 == 0) == (p == 0 || p == 0x8000_0000));
        assert((q % 0x8000_0000 == 0) == (q == 0 || q == 0x8000_0000));
    }
}

/// Delayed transitions: a transition triggered after `ms` milliseconds from
/// a state waits (as `GuardFalse`) while that state's elapsed time is below
/// `ms` milliseconds, and its trigger lets it through once the time has
/// been reached.
pub proof fn law_after_seconds_waits_for_elapsed_time(
    definition: StateMachineDefinition,
    instance: StateMachineInstance,
    transition: TransitionDefinition,
    src: StateId,
    ms: u32,
)
    requires
        transition.trigger == TransitionTrigger::AfterSeconds(ms),
        transition.source == TransitionSource::State(src),
        (src.0 as int) < instance.state_elapsed_micros@.len(),
    ensures
        (instance.state_elapsed_micros@[src.0 as int] as int) < ms as int * 1000
            ==> spec_trigger_block_reason(definition, instance, transition) == Some(TransitionBlockedReason::GuardFalse),
        (instance.state_elapsed_micros@[src.0 as int] as int) >= ms as int * 1000
            ==> spec_trigger_block_reason(definition, instance, transition) is None,
{
}

/// Signal transitions fire only on a queued signal: the trigger lets the
/// transition through exactly when its signal is queued.
pub proof fn law_signal_trigger_needs_queued_signal(
    definition: StateMachineDefinition,
    instance: StateMachineInstance,
    transition: TransitionDefinition,
    signal: SignalId,
)
    requires
        transition.trigger == TransitionTrigger::Signal(signal),
    ensures
        (spec_trigger_block_reason(definition, instance, transition) is None) == instance.pending_signals@.contains(signal),
{
}

/// Done transitions wait for every child region: while some active path
/// through the source state ends in a leaf that is not a final state
/// sitting directly below the source, a `Done` transition from it waits.
pub proof fn law_done_waits_for_final_children(
    definition: StateMachineDefinition,
    instance: StateMachineInstance,
    transition: TransitionDefinition,
    src: StateId,
    k: int,
)
    requires
        transition.trigger == TransitionTrigger::Done,
        transition.source == TransitionSource::State(src),
        definition.spec_state(src) matches Some(state) && (state.kind == StateKind::Compound || state.kind == StateKind::Parallel),
        0 <= k < instance.active_regions@.len(),
        regions_view(instance.active_regions@)[k].path.contains(src),
        !(definition.spec_state(regions_view(instance.active_regions@)[k].leaf_state) matches Some(leaf)
            && leaf.kind == StateKind::Final && leaf.parent_state == Some(src)),
    ensures
        spec_trigger_block_reason(definition, instance, transition) == Some(TransitionBlockedReason::GuardFalse),
{
    let regions = regions_view(instance.active_regions@);
    assert(regions[k].path.contains(src));
}

/// Done transitions fire once every child region is finished: when every
/// active path through the source state ends in a final state directly
/// below it, a `Done` transition from it is let through by its trigger.
pub proof fn law_done_fires_when_children_final(
    definition: StateMachineDefinition,
    instance: StateMachineInstance,
    transition: TransitionDefinition,
    src: StateId,
)
    requires
        transition.trigger == TransitionTrigger::Done,
        transition.source == TransitionSource::State(src),
        definition.spec_state(src) matches Some(state) && (state.kind == StateKind::Compound || state.kind == StateKind::Parallel),
        forall|k: int| 0 <= k < instance.active_regions@.len()
            && (#[trigger] regions_view(instance.active_regions@)[k]).path.contains(src)
            ==> (definition.spec_state(regions_view(instance.active_regions@)[k].leaf_state) matches Some(leaf)
                && leaf.kind == StateKind::Final && leaf.parent_state == Some(src)),
    ensures
        spec_trigger_block_reason(definition, instance, transition) is None,
{
}

} // verus!
