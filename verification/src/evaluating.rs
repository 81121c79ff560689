use vstd::prelude::*;

use crate::debug::TransitionBlockedReason;
use crate::definition::{
    StateId, StateKind, StateMachineDefinition, TransitionDefinition, TransitionId, TransitionMode, TransitionOperation,
    TransitionSource, TransitionTrigger, UtilityPolicy,
};
use crate::executing::upward_until;
use crate::hierarchy::depth;
use crate::instance::{contains_signal, contains_state, StateMachineInstance};
use crate::stack::{regions_view, ActiveRegionState, ActiveRegionView};
use crate::timers::capped_add;
use crate::transitions::{
    choose_best_candidate, spec_best_candidate, spec_threshold_for, threshold_for, EvaluatedTransition,
};

verus! {

/// What the callbacks of one transition answered for one evaluation.
///
/// `guard_passed` is the transition guard's answer (true when there is no
/// guard to ask); `score_micros` is the scorer's answer in millionths (0 when
/// there is no scorer); `exit_guards_passed[s]` is the answer of the exit
/// guard of state `s` for this transition (true when there is none). Missing
/// entries count as passed.
#[derive(Clone, Debug)]
pub struct CallbackResults {
    pub guard_passed: bool,
    pub score_micros: i64,
    pub exit_guards_passed: Vec<bool>,
}

impl CallbackResults {
    /// The answers as plain values.
    pub open spec fn answers(self) -> (bool, i64, Seq<bool>) {
        (self.guard_passed, self.score_micros, self.exit_guards_passed@)
    }

    /// Every guard passes and the score is zero.
    pub open spec fn spec_is_neutral(self) -> bool {
        self.answers() == neutral_answers()
    }

    pub fn neutral() -> (r: Self)
        ensures
            r.spec_is_neutral(),
    {
        CallbackResults { guard_passed: true, score_micros: 0, exit_guards_passed: Vec::new() }
    }
}

/// Answers for a transition whose callbacks were not asked.
pub open spec fn neutral_answers() -> (bool, i64, Seq<bool>) {
    (true, 0i64, Seq::empty())
}

/// Whether the state is on the path of some active region.
pub open spec fn on_active_path(regions: Seq<ActiveRegionView>, s: StateId) -> bool {
    exists|k: int| 0 <= k < regions.len() && #[trigger] regions[k].path.contains(s)
}

/// How deep the source of a transition sits: 0 for any state; the depth of
/// the source when it is active; nothing when it is not.
pub open spec fn spec_source_depth(
    definition: StateMachineDefinition,
    instance: StateMachineInstance,
    transition: TransitionDefinition,
) -> Option<usize> {
    match transition.source {
        TransitionSource::AnyState => Some(0),
        TransitionSource::State(s) => if on_active_path(regions_view(instance.active_regions@), s) {
            Some(definition.spec_path_to_root(s).len() as usize)
        } else {
            None
        },
    }
}

/// A leaf that is a final state sitting directly below `parent`.
pub open spec fn final_child_of(definition: StateMachineDefinition, leaf: StateId, parent: StateId) -> bool {
    definition.spec_state(leaf) matches Some(l) && l.kind == StateKind::Final && l.parent_state == Some(parent)
}

/// Every active child region of `parent` has reached a final state: each
/// active path through `parent` ends, right below it, in a final state.
pub open spec fn children_done(
    definition: StateMachineDefinition,
    regions: Seq<ActiveRegionView>,
    parent: StateId,
) -> bool {
    forall|k: int| 0 <= k < regions.len() && #[trigger] regions[k].path.contains(parent)
        ==> final_child_of(definition, regions[k].leaf_state, parent)
}

/// The timer entry of a state, 0 when the table has none.
pub open spec fn elapsed_of(instance: StateMachineInstance, s: StateId) -> u64 {
    if (s.0 as int) < instance.state_elapsed_micros@.len() {
        instance.state_elapsed_micros@[s.0 as int]
    } else {
        0
    }
}

/// Why the trigger of a transition does not (yet) fire.
pub open spec fn spec_trigger_block_reason(
    definition: StateMachineDefinition,
    instance: StateMachineInstance,
    transition: TransitionDefinition,
) -> Option<TransitionBlockedReason> {
    match transition.trigger {
        TransitionTrigger::Automatic => None,
        TransitionTrigger::AfterSeconds(ms) => match transition.source.spec_state() {
            None => Some(TransitionBlockedReason::InvalidTransition),
            Some(src) => if (elapsed_of(instance, src) as int) < ms * 1000 {
                Some(TransitionBlockedReason::GuardFalse)
            } else {
                None
            },
        },
        TransitionTrigger::Signal(id) => if instance.pending_signals@.contains(id) {
            None
        } else {
            Some(TransitionBlockedReason::GuardFalse)
        },
        TransitionTrigger::Done => match transition.source.spec_state() {
            None => Some(TransitionBlockedReason::InvalidTransition),
            Some(src) => match definition.spec_state(src) {
                None => Some(TransitionBlockedReason::InvalidTransition),
                Some(state) => if !state.kind.spec_has_children() {
                    Some(TransitionBlockedReason::InvalidTransition)
                } else if children_done(definition, regions_view(instance.active_regions@), src) {
                    None
                } else {
                    Some(TransitionBlockedReason::GuardFalse)
                },
            },
        },
    }
}

/// The states whose readiness gates a transition: every active state for a
/// transition from any state, else, in each region containing the source,
/// the states from the leaf up to and including the source.
pub open spec fn exit_checks(regions: Seq<ActiveRegionView>, source: TransitionSource) -> Seq<StateId>
    decreases regions.len(),
{
    if regions.len() == 0 {
        Seq::empty()
    } else {
        let prev = exit_checks(regions.drop_last(), source);
        let r = regions.last();
        match source {
            TransitionSource::AnyState => prev + r.path,
            TransitionSource::State(src) => if r.path.contains(src) {
                prev + upward_until(r.path, Some(src)).push(src)
            } else {
                prev
            },
        }
    }
}

/// The exit guard of `s` passed (or was not asked).
pub open spec fn exit_guard_ok(passed: Seq<bool>, s: StateId) -> bool {
    (s.0 as int) >= passed.len() || passed[s.0 as int]
}

/// A state lets the transition leave: it has been active long enough and its
/// exit guard, if any, passes.
pub open spec fn ready_to_exit(
    definition: StateMachineDefinition,
    instance: StateMachineInstance,
    s: StateId,
    passed: Seq<bool>,
) -> bool {
    match definition.spec_state(s) {
        None => true,
        Some(state) => {
            &&& !((s.0 as int) < instance.state_elapsed_micros@.len() && instance.state_elapsed_micros@[s.0 as int] < state.min_active_micros)
            &&& (state.exit_guard is Some ==> exit_guard_ok(passed, s))
        },
    }
}

/// Whether the active states let the transition leave them.
pub open spec fn spec_can_exit(
    definition: StateMachineDefinition,
    instance: StateMachineInstance,
    transition: TransitionDefinition,
    passed: Seq<bool>,
) -> bool {
    transition.mode == TransitionMode::Force || {
        let checks = exit_checks(regions_view(instance.active_regions@), transition.source);
        forall|i: int| 0 <= i < checks.len() ==> ready_to_exit(definition, instance, #[trigger] checks[i], passed)
    }
}

/// The first reason, in the documented order, that blocks a transition;
/// `None` when it is ready. Returns the reason and the score used.
pub open spec fn spec_block_reason(
    definition: StateMachineDefinition,
    instance: StateMachineInstance,
    transition: TransitionDefinition,
    results: (bool, i64, Seq<bool>),
) -> (Option<TransitionBlockedReason>, i64) {
    let id = transition.id.0 as int;
    let r1 = spec_trigger_block_reason(definition, instance, transition);
    let r2 = if r1 is None && transition.guard is Some && !results.0 {
        Some(TransitionBlockedReason::GuardFalse)
    } else {
        r1
    };
    let score = if r2 is None { results.1 } else { 0i64 };
    let r3 = if r2 is None && transition.utility_policy != UtilityPolicy::Disabled
        && (score as int) < spec_threshold_for(instance.config.utility_threshold_overrides@, transition.id, transition.utility_policy) {
        Some(TransitionBlockedReason::UtilityBelowThreshold)
    } else {
        r2
    };
    let r4 = if r3 is None && id < instance.transition_cooldowns_micros@.len() && instance.transition_cooldowns_micros@[id] > 0 {
        Some(TransitionBlockedReason::CooldownActive)
    } else {
        r3
    };
    let r5 = if r4 is None && transition.debounce_micros > 0 && id < instance.guard_true_for_micros@.len()
        && instance.guard_true_for_micros@[id] < transition.debounce_micros {
        Some(TransitionBlockedReason::DebounceActive)
    } else {
        r4
    };
    let r6 = if r5 is None {
        match transition.operation {
            TransitionOperation::Push => if instance.stack.frames@.len() >= instance.config.max_stack_depth {
                Some(TransitionBlockedReason::StackOverflow)
            } else {
                None
            },
            TransitionOperation::Pop => if instance.stack.frames@.len() == 0 {
                Some(TransitionBlockedReason::StackEmpty)
            } else {
                None
            },
            TransitionOperation::Replace => None,
        }
    } else {
        r5
    };
    let r7 = if r6 is None && !spec_can_exit(definition, instance, transition, results.2) {
        if transition.mode == TransitionMode::Pending {
            Some(TransitionBlockedReason::PendingExit)
        } else {
            Some(TransitionBlockedReason::ExitNotReady)
        }
    } else {
        r6
    };
    (r7, score)
}

/// The candidate a transition contributes, if its source is active.
pub open spec fn spec_candidate(
    definition: StateMachineDefinition,
    instance: StateMachineInstance,
    transition: TransitionDefinition,
    results: (bool, i64, Seq<bool>),
) -> Option<EvaluatedTransition> {
    match spec_source_depth(definition, instance, transition) {
        None => None,
        Some(d) => {
            let b = spec_block_reason(definition, instance, transition, results);
            Some(EvaluatedTransition {
                transition_id: transition.id,
                source_depth: d,
                priority: transition.priority,
                score_micros: b.1,
                declaration_order: transition.declaration_order,
                reason_if_blocked: b.0,
            })
        },
    }
}

/// The callback answers for the `i`-th transition (neutral when missing).
pub open spec fn results_at(results: Seq<CallbackResults>, i: int) -> (bool, i64, Seq<bool>) {
    if 0 <= i < results.len() {
        results[i].answers()
    } else {
        neutral_answers()
    }
}

/// The candidates of the first `n` transitions, split into ready (`true`) and blocked.
pub open spec fn candidates_upto(
    definition: StateMachineDefinition,
    instance: StateMachineInstance,
    results: Seq<CallbackResults>,
    n: nat,
    ready: bool,
) -> Seq<EvaluatedTransition>
    decreases n,
{
    if n == 0 {
        Seq::empty()
    } else {
        let prev = candidates_upto(definition, instance, results, (n - 1) as nat, ready);
        match spec_candidate(definition, instance, definition.transitions@[n - 1], results_at(results, n - 1)) {
            Some(c) => if (c.reason_if_blocked is None) == ready {
                prev.push(c)
            } else {
                prev
            },
            None => prev,
        }
    }
}

/// The transition an evaluation settles on: the best ready candidate, else
/// the best blocked one.
pub open spec fn spec_evaluate(
    definition: StateMachineDefinition,
    instance: StateMachineInstance,
    results: Seq<CallbackResults>,
) -> Option<EvaluatedTransition> {
    let n = definition.transitions@.len();
    match spec_best_candidate(candidates_upto(definition, instance, results, n, true)) {
        Some(c) => Some(c),
        None => spec_best_candidate(candidates_upto(definition, instance, results, n, false)),
    }
}

fn state_on_active_path(regions: &Vec<ActiveRegionState>, s: StateId) -> (r: bool)
    ensures
        r == on_active_path(regions_view(regions@), s),
{
    let mut k: usize = 0;
    while k < regions.len()
        invariant
            k <= regions@.len(),
            forall|j: int| 0 <= j < k ==> !(#[trigger] regions_view(regions@)[j]).path.contains(s),
        decreases regions@.len() - k,
    {
        if contains_state(&regions[k].path, s) {
            proof {
                assert(regions_view(regions@)[k as int].path.contains(s));
            }
            return true;
        }
        k = k + 1;
    }
    false
}

/// How deep the source of a transition sits, when it is active.
pub fn source_depth(definition: &StateMachineDefinition, instance: &StateMachineInstance, transition: &TransitionDefinition) -> (r: Option<usize>)
    requires
        definition.hierarchy_is_finite(),
    ensures
        r == spec_source_depth(*definition, *instance, *transition),
{
    match transition.source {
        TransitionSource::AnyState => Some(0),
        TransitionSource::State(s) => {
            if state_on_active_path(&instance.active_regions, s) {
                proof {
                    assert(definition.parent_chain_ends(s));
                }
                Some(depth(definition, s))
            } else {
                None
            }
        },
    }
}

fn all_children_done(definition: &StateMachineDefinition, regions: &Vec<ActiveRegionState>, parent: StateId) -> (r: bool)
    ensures
        r == children_done(*definition, regions_view(regions@), parent),
{
    let ghost views = regions_view(regions@);
    let mut k: usize = 0;
    while k < regions.len()
        invariant
            k <= regions@.len(),
            views == regions_view(regions@),
            forall|kk: int| 0 <= kk < k && #[trigger] views[kk].path.contains(parent)
                ==> final_child_of(*definition, views[kk].leaf_state, parent),
        decreases regions@.len() - k,
    {
        proof {
            assert(views[k as int].path == regions@[k as int].path@);
        }
        if contains_state(&regions[k].path, parent) {
            let done = match definition.state(regions[k].leaf_state) {
                Some(leaf) => leaf.kind == StateKind::Final && leaf.parent_state == Some(parent),
                None => false,
            };
            if !done {
                return false;
            }
        }
        k = k + 1;
    }
    true
}

/// Why the trigger of a transition does not (yet) fire.
pub fn trigger_block_reason(
    definition: &StateMachineDefinition,
    instance: &StateMachineInstance,
    transition: &TransitionDefinition,
) -> (r: Option<TransitionBlockedReason>)
    ensures
        r == spec_trigger_block_reason(*definition, *instance, *transition),
{
    match transition.trigger {
        TransitionTrigger::Automatic => None,
        TransitionTrigger::AfterSeconds(ms) => match transition.source.state() {
            None => Some(TransitionBlockedReason::InvalidTransition),
            Some(src) => {
                let index = src.0 as usize;
                let elapsed: u64 = if index < instance.state_elapsed_micros.len() {
                    instance.state_elapsed_micros[index]
                } else {
                    0
                };
                let required: u64 = ms as u64 * 1000;
                if elapsed < required {
                    Some(TransitionBlockedReason::GuardFalse)
                } else {
                    None
                }
            },
        },
        TransitionTrigger::Signal(id) => {
            if contains_signal(&instance.pending_signals, id) {
                None
            } else {
                Some(TransitionBlockedReason::GuardFalse)
            }
        },
        TransitionTrigger::Done => match transition.source.state() {
            None => Some(TransitionBlockedReason::InvalidTransition),
            Some(src) => match definition.state(src) {
                None => Some(TransitionBlockedReason::InvalidTransition),
                Some(state) => {
                    if !state.kind.has_children() {
                        Some(TransitionBlockedReason::InvalidTransition)
                    } else if all_children_done(definition, &instance.active_regions, src) {
                        None
                    } else {
                        Some(TransitionBlockedReason::GuardFalse)
                    }
                },
            },
        },
    }
}

pub fn collect_exit_checks(regions: &Vec<ActiveRegionState>, source: TransitionSource) -> (r: Vec<StateId>)
    ensures
        r@ == exit_checks(regions_view(regions@), source),
{
    let ghost views = regions_view(regions@);
    let mut out: Vec<StateId> = Vec::new();
    let mut i: usize = 0;
    proof {
        assert(views.subrange(0, 0) =~= Seq::<ActiveRegionView>::empty());
    }
    while i < regions.len()
        invariant
            i <= regions@.len(),
            views == regions_view(regions@),
            out@ == exit_checks(views.subrange(0, i as int), source),
        decreases regions@.len() - i,
    {
        let path = &regions[i].path;
        proof {
            let next = views.subrange(0, i + 1);
            assert(next.drop_last() =~= views.subrange(0, i as int));
            assert(next.last() == regions@[i as int]@);
        }
        let ghost before = out@;
        match source {
            TransitionSource::AnyState => {
                let mut k: usize = 0;
                while k < path.len()
                    invariant
                        k <= path@.len(),
                        out@ == before + path@.subrange(0, k as int),
                    decreases path@.len() - k,
                {
                    out.push(path[k]);
                    proof {
                        assert(out@ =~= before + path@.subrange(0, k + 1));
                    }
                    k = k + 1;
                }
                proof {
                    assert(path@.subrange(0, path@.len() as int) =~= path@);
                }
            },
            TransitionSource::State(src) => {
                if contains_state(path, src) {
                    let mut k: usize = path.len();
                    proof {
                        assert(path@.subrange(0, path@.len() as int) =~= path@);
                        assert(before + Seq::<StateId>::empty() =~= before);
                    }
                    while k > 0 && path[k - 1] != src
                        invariant
                            k <= path@.len(),
                            out@ + upward_until(path@.subrange(0, k as int), Some(src)) == before + upward_until(path@, Some(src)),
                        decreases k,
                    {
                        let s = path[k - 1];
                        proof {
                            let p = path@.subrange(0, k as int);
                            assert(p.last() == s);
                            assert(p.drop_last() =~= path@.subrange(0, k - 1));
                            assert(upward_until(p, Some(src)) == seq![s] + upward_until(path@.subrange(0, k - 1), Some(src)));
                            assert(out@.push(s) + upward_until(path@.subrange(0, k - 1), Some(src)) =~= out@ + upward_until(p, Some(src)));
                        }
                        out.push(s);
                        k = k - 1;
                    }
                    proof {
                        let p = path@.subrange(0, k as int);
                        if k > 0 {
                            assert(p.last() == src);
                        } else {
                            assert(p.len() == 0);
                        }
                        assert(upward_until(p, Some(src)) == Seq::<StateId>::empty());
                        assert(out@ + Seq::<StateId>::empty() =~= out@);
                    }
                    out.push(src);
                    proof {
                        assert(out@ =~= before + upward_until(path@, Some(src)).push(src));
                    }
                }
            },
        }
        i = i + 1;
    }
    proof {
        assert(views.subrange(0, regions@.len() as int) =~= views);
    }
    out
}

/// Whether the active states let the transition leave them.
pub fn can_exit_transition(
    definition: &StateMachineDefinition,
    instance: &StateMachineInstance,
    transition: &TransitionDefinition,
    exit_guards_passed: &Vec<bool>,
) -> (r: bool)
    ensures
        r == spec_can_exit(*definition, *instance, *transition, exit_guards_passed@),
{
    if transition.mode == TransitionMode::Force {
        return true;
    }
    let checks = collect_exit_checks(&instance.active_regions, transition.source);
    let mut i: usize = 0;
    while i < checks.len()
        invariant
            i <= checks@.len(),
            transition.mode != TransitionMode::Force,
            checks@ == exit_checks(regions_view(instance.active_regions@), transition.source),
            forall|j: int| 0 <= j < i ==> ready_to_exit(*definition, *instance, #[trigger] checks@[j], exit_guards_passed@),
        decreases checks@.len() - i,
    {
        let s = checks[i];
        match definition.state(s) {
            Some(state) => {
                let index = s.0 as usize;
                if index < instance.state_elapsed_micros.len() && instance.state_elapsed_micros[index] < state.min_active_micros {
                    proof {
                        assert(!ready_to_exit(*definition, *instance, checks@[i as int], exit_guards_passed@));
                    }
                    return false;
                }
                if state.exit_guard.is_some() && index < exit_guards_passed.len() && !exit_guards_passed[index] {
                    proof {
                        assert(!ready_to_exit(*definition, *instance, checks@[i as int], exit_guards_passed@));
                    }
                    return false;
                }
            },
            None => {},
        }
        i = i + 1;
    }
    true
}

/// Works out the candidate of one transition from the instance and the
/// callbacks' answers.
pub fn evaluate_transition(
    definition: &StateMachineDefinition,
    instance: &StateMachineInstance,
    transition: &TransitionDefinition,
    results: &CallbackResults,
) -> (r: Option<EvaluatedTransition>)
    requires
        definition.hierarchy_is_finite(),
    ensures
        r == spec_candidate(*definition, *instance, *transition, results.answers()),
{
    let depth = match source_depth(definition, instance, transition) {
        Some(d) => d,
        None => return None,
    };
    let id = transition.id.0 as usize;
    let mut reason = trigger_block_reason(definition, instance, transition);
    if reason.is_none() && transition.guard.is_some() && !results.guard_passed {
        reason = Some(TransitionBlockedReason::GuardFalse);
    }
    let score: i64 = if reason.is_none() { results.score_micros } else { 0 };
    if reason.is_none() && transition.utility_policy != UtilityPolicy::Disabled
        && score < threshold_for(instance, transition.id, transition.utility_policy) {
        reason = Some(TransitionBlockedReason::UtilityBelowThreshold);
    }
    if reason.is_none() && id < instance.transition_cooldowns_micros.len() && instance.transition_cooldowns_micros[id] > 0 {
        reason = Some(TransitionBlockedReason::CooldownActive);
    }
    if reason.is_none() && transition.debounce_micros > 0 && id < instance.guard_true_for_micros.len()
        && instance.guard_true_for_micros[id] < transition.debounce_micros {
        reason = Some(TransitionBlockedReason::DebounceActive);
    }
    if reason.is_none() {
        reason = match transition.operation {
            TransitionOperation::Push => if instance.stack.len() >= instance.config.max_stack_depth {
                Some(TransitionBlockedReason::StackOverflow)
            } else {
                None
            },
            TransitionOperation::Pop => if instance.stack.is_empty() {
                Some(TransitionBlockedReason::StackEmpty)
            } else {
                None
            },
            TransitionOperation::Replace => None,
        };
    }
    if reason.is_none() && !can_exit_transition(definition, instance, transition, &results.exit_guards_passed) {
        reason = Some(if transition.mode == TransitionMode::Pending {
            TransitionBlockedReason::PendingExit
        } else {
            TransitionBlockedReason::ExitNotReady
        });
    }
    Some(EvaluatedTransition {
        transition_id: transition.id,
        source_depth: depth,
        priority: transition.priority,
        score_micros: score,
        declaration_order: transition.declaration_order,
        reason_if_blocked: reason,
    })
}

/// Evaluates every transition and settles on the best ready candidate, else
/// the best blocked one. `results[i]` answers for the `i`-th transition.
pub fn evaluate_instance(
    definition: &StateMachineDefinition,
    instance: &StateMachineInstance,
    results: &Vec<CallbackResults>,
) -> (r: Option<EvaluatedTransition>)
    requires
        definition.hierarchy_is_finite(),
    ensures
        r == spec_evaluate(*definition, *instance, results@),
{
    let mut ready: Vec<EvaluatedTransition> = Vec::new();
    let mut blocked: Vec<EvaluatedTransition> = Vec::new();
    let neutral = CallbackResults::neutral();
    let mut i: usize = 0;
    while i < definition.transitions.len()
        invariant
            i <= definition.transitions@.len(),
            definition.hierarchy_is_finite(),
            neutral.spec_is_neutral(),
            ready@ == candidates_upto(*definition, *instance, results@, i as nat, true),
            blocked@ == candidates_upto(*definition, *instance, results@, i as nat, false),
        decreases definition.transitions@.len() - i,
    {
        let res = if i < results.len() { &results[i] } else { &neutral };
        let candidate = evaluate_transition(definition, instance, &definition.transitions[i], res);
        proof {
            assert(res.answers() == results_at(results@, i as int));
        }
        match candidate {
            Some(c) => {
                if c.reason_if_blocked.is_none() {
                    ready.push(c);
                } else {
                    blocked.push(c);
                }
            },
            None => {},
        }
        i = i + 1;
    }
    match choose_best_candidate(&ready) {
        Some(c) => Some(c),
        None => choose_best_candidate(&blocked),
    }
}


/// The guard of the `k`-th transition held this frame: its source is active
/// and its guard, if it has one, passed.
pub open spec fn guard_holds(
    definition: StateMachineDefinition,
    instance: StateMachineInstance,
    results: Seq<CallbackResults>,
    k: int,
) -> bool {
    let t = definition.transitions@[k];
    &&& spec_source_depth(definition, instance, t) is Some
    &&& (t.guard is Some ==> results_at(results, k).0)
}

/// The guard of the `k`-th transition counts as still holding on a frame
/// without evaluation: its source is active and its guard held at the last
/// evaluation.
pub open spec fn guard_carried(definition: StateMachineDefinition, instance: StateMachineInstance, k: int) -> bool {
    let t = definition.transitions@[k];
    &&& spec_source_depth(definition, instance, t) is Some
    &&& instance.guards_held@.contains(t.id)
}

/// The guard-true timers after the first `n` transitions are updated: the
/// timer of a transition whose guard holds (by `held`) grows by `delta`,
/// capped at `u64::MAX`, and any other one drops to 0.
pub open spec fn timers_advanced(
    definition: StateMachineDefinition,
    timers: Seq<u64>,
    held: spec_fn(int) -> bool,
    delta: u64,
    n: nat,
) -> Seq<u64>
    decreases n,
{
    if n == 0 {
        timers
    } else {
        let prev = timers_advanced(definition, timers, held, delta, (n - 1) as nat);
        let id = definition.transitions@[n - 1].id.0 as int;
        if id < prev.len() {
            prev.update(id, if held(n - 1) {
                capped_add(prev[id] as int, delta as int) as u64
            } else {
                0u64
            })
        } else {
            prev
        }
    }
}

/// Which transitions hold on an evaluated frame.
pub open spec fn holds_now(
    definition: StateMachineDefinition,
    instance: StateMachineInstance,
    results: Seq<CallbackResults>,
) -> spec_fn(int) -> bool {
    |k: int| guard_holds(definition, instance, results, k)
}

/// Which transitions hold on a frame without evaluation.
pub open spec fn holds_carried(definition: StateMachineDefinition, instance: StateMachineInstance) -> spec_fn(int) -> bool {
    |k: int| guard_carried(definition, instance, k)
}

/// The guard-true timers after an evaluated frame.
pub open spec fn guard_timers_after(
    definition: StateMachineDefinition,
    instance: StateMachineInstance,
    results: Seq<CallbackResults>,
    delta: u64,
    n: nat,
) -> Seq<u64> {
    timers_advanced(definition, instance.guard_true_for_micros@, holds_now(definition, instance, results), delta, n)
}

/// The guard-true timers after a frame without evaluation.
pub open spec fn guard_timers_carried(
    definition: StateMachineDefinition,
    instance: StateMachineInstance,
    delta: u64,
    n: nat,
) -> Seq<u64> {
    timers_advanced(definition, instance.guard_true_for_micros@, holds_carried(definition, instance), delta, n)
}

/// The ids of the first `n` transitions whose guard held, in order.
pub open spec fn held_ids(
    definition: StateMachineDefinition,
    instance: StateMachineInstance,
    results: Seq<CallbackResults>,
    n: nat,
) -> Seq<TransitionId>
    decreases n,
{
    if n == 0 {
        Seq::empty()
    } else {
        let prev = held_ids(definition, instance, results, (n - 1) as nat);
        if guard_holds(definition, instance, results, n - 1) {
            prev.push(definition.transitions@[n - 1].id)
        } else {
            prev
        }
    }
}

/// On an evaluated frame: advances the guard-true timer of every transition
/// whose source is active and whose guard held by `delta_micros`, resets the
/// others, and remembers which guards held; debounce reads these timers.
pub fn track_guards(
    definition: &StateMachineDefinition,
    instance: &mut StateMachineInstance,
    results: &Vec<CallbackResults>,
    delta_micros: u64,
)
    requires
        definition.hierarchy_is_finite(),
    ensures
        final(instance).guard_true_for_micros@
            == guard_timers_after(*definition, *old(instance), results@, delta_micros, definition.transitions@.len()),
        final(instance).guards_held@ == held_ids(*definition, *old(instance), results@, definition.transitions@.len()),
        *final(instance) == (StateMachineInstance {
            guard_true_for_micros: final(instance).guard_true_for_micros,
            guards_held: final(instance).guards_held,
            ..*old(instance)
        }),
{
    let ghost start = *instance;
    let mut held: Vec<TransitionId> = Vec::new();
    let mut k: usize = 0;
    while k < definition.transitions.len()
        invariant
            k <= definition.transitions@.len(),
            definition.hierarchy_is_finite(),
            *instance == (StateMachineInstance { guard_true_for_micros: instance.guard_true_for_micros, ..start }),
            instance.guard_true_for_micros@ == guard_timers_after(*definition, start, results@, delta_micros, k as nat),
            held@ == held_ids(*definition, start, results@, k as nat),
        decreases definition.transitions@.len() - k,
    {
        let t = &definition.transitions[k];
        let active = source_depth(definition, instance, t).is_some();
        let guard_ok = match t.guard {
            Some(_) => if k < results.len() { results[k].guard_passed } else { true },
            None => true,
        };
        proof {
            assert(spec_source_depth(*definition, *instance, *t) == spec_source_depth(*definition, start, *t));
            assert((active && guard_ok) == holds_now(*definition, start, results@)(k as int));
        }
        if active && guard_ok {
            held.push(t.id);
        }
        let id = t.id.0 as usize;
        if id < instance.guard_true_for_micros.len() {
            let value = if active && guard_ok {
                instance.guard_true_for_micros[id].saturating_add(delta_micros)
            } else {
                0
            };
            instance.guard_true_for_micros.set(id, value);
        }
        k = k + 1;
    }
    instance.guards_held = held;
}

fn contains_transition(v: &Vec<TransitionId>, id: TransitionId) -> (r: bool)
    ensures
        r == v@.contains(id),
{
    let mut i: usize = 0;
    while i < v.len()
        invariant
            i <= v@.len(),
            forall|j: int| 0 <= j < i ==> v@[j] != id,
        decreases v@.len() - i,
    {
        if v[i] == id {
            proof {
                assert(v@[i as int] == id);
            }
            return true;
        }
        i = i + 1;
    }
    false
}

/// On a frame without evaluation: the guards that held at the last
/// evaluation count as still holding while their source stays active, so
/// their timers advance by `delta_micros`; the other timers drop to 0.
pub fn carry_guards(definition: &StateMachineDefinition, instance: &mut StateMachineInstance, delta_micros: u64)
    requires
        definition.hierarchy_is_finite(),
    ensures
        final(instance).guard_true_for_micros@
            == guard_timers_carried(*definition, *old(instance), delta_micros, definition.transitions@.len()),
        *final(instance) == (StateMachineInstance { guard_true_for_micros: final(instance).guard_true_for_micros, ..*old(instance) }),
{
    let ghost start = *instance;
    let mut k: usize = 0;
    while k < definition.transitions.len()
        invariant
            k <= definition.transitions@.len(),
            definition.hierarchy_is_finite(),
            *instance == (StateMachineInstance { guard_true_for_micros: instance.guard_true_for_micros, ..start }),
            instance.guard_true_for_micros@ == guard_timers_carried(*definition, start, delta_micros, k as nat),
        decreases definition.transitions@.len() - k,
    {
        let t = &definition.transitions[k];
        let active = source_depth(definition, instance, t).is_some();
        let was_held = contains_transition(&instance.guards_held, t.id);
        proof {
            assert(spec_source_depth(*definition, *instance, *t) == spec_source_depth(*definition, start, *t));
            assert((active && was_held) == holds_carried(*definition, start)(k as int));
        }
        let id = t.id.0 as usize;
        if id < instance.guard_true_for_micros.len() {
            let value = if active && was_held {
                instance.guard_true_for_micros[id].saturating_add(delta_micros)
            } else {
                0
            };
            instance.guard_true_for_micros.set(id, value);
        }
        k = k + 1;
    }
}

} // verus!
