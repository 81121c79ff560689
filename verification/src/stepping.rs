use vstd::prelude::*;

use crate::blackboard::next_revision;
use crate::debug::{trace_pushed, StateMachineTraceEntry, TraceKind, TransitionBlockedReason};
use crate::definition::{ActionId, StateId, StateKind, StateMachineDefinition, TransitionDefinition, TransitionId, TransitionTrigger};
use crate::executing::{applied_topology, apply_transition, exited_states, stack_refuses, StepOutcome, TransitionStepDelta};
use crate::instance::{PendingTransition, StateMachineInstance};
use crate::stack::regions_view;
use crate::transitions::EvaluatedTransition;

verus! {

/// The trace after recording each entry in order.
pub open spec fn trace_pushed_all(
    entries: Seq<StateMachineTraceEntry>,
    capacity: nat,
    added: Seq<StateMachineTraceEntry>,
) -> Seq<StateMachineTraceEntry>
    decreases added.len(),
{
    if added.len() == 0 {
        entries
    } else {
        trace_pushed(trace_pushed_all(entries, capacity, added.drop_last()), capacity, added.last())
    }
}

/// A trace entry stamped with the two revisions.
pub open spec fn stamped(frame_revision: u64, runtime_revision: u64, kind: TraceKind) -> StateMachineTraceEntry {
    StateMachineTraceEntry { frame_revision, runtime_revision, kind }
}

/// Trace entries for a sequence of exited (or entered) states.
pub open spec fn state_entries(states: Seq<StateId>, exited: bool, frame_revision: u64, runtime_revision: u64) -> Seq<StateMachineTraceEntry> {
    states.map_values(|s: StateId| stamped(frame_revision, runtime_revision,
        if exited { TraceKind::ExitedState(s) } else { TraceKind::EnteredState(s) }))
}

/// What one applied step records: each exited state, the transition, then
/// each entered state.
pub open spec fn step_trace(
    exited: Seq<StateId>,
    transition_id: TransitionId,
    entered: Seq<StateId>,
    frame_revision: u64,
    runtime_revision: u64,
) -> Seq<StateMachineTraceEntry> {
    state_entries(exited, true, frame_revision, runtime_revision)
        + seq![stamped(frame_revision, runtime_revision, TraceKind::TriggeredTransition(transition_id))]
        + state_entries(entered, false, frame_revision, runtime_revision)
}

fn push_state_entries(
    instance: &mut StateMachineInstance,
    states: &Vec<StateId>,
    exited: bool,
    frame_revision: u64,
    Ghost(start): Ghost<Seq<StateMachineTraceEntry>>,
    Ghost(prefix): Ghost<Seq<StateMachineTraceEntry>>,
)
    requires
        old(instance).trace.entries@ == trace_pushed_all(start, old(instance).trace.config.capacity as nat, prefix),
    ensures
        final(instance).trace.entries@ == trace_pushed_all(
            start,
            old(instance).trace.config.capacity as nat,
            prefix + state_entries(states@, exited, frame_revision, old(instance).runtime_revision),
        ),
        final(instance).trace.config == old(instance).trace.config,
        final(instance).runtime_revision == old(instance).runtime_revision,
        final(instance).definition_id == old(instance).definition_id,
        final(instance).config == old(instance).config,
        final(instance).status == old(instance).status,
        final(instance).active_path == old(instance).active_path,
        final(instance).active_leaf_states == old(instance).active_leaf_states,
        final(instance).active_regions == old(instance).active_regions,
        final(instance).pending_transition == old(instance).pending_transition,
        final(instance).stack == old(instance).stack,
        final(instance).history == old(instance).history,
        final(instance).state_elapsed_micros == old(instance).state_elapsed_micros,
        final(instance).transition_cooldowns_micros == old(instance).transition_cooldowns_micros,
        final(instance).guard_true_for_micros == old(instance).guard_true_for_micros,
        final(instance).guards_held == old(instance).guards_held,
        final(instance).pending_signals == old(instance).pending_signals,
        final(instance).last_blackboard_revision == old(instance).last_blackboard_revision,
{
    let ghost rr = instance.runtime_revision;
    let ghost cap = instance.trace.config.capacity as nat;
    let mut i: usize = 0;
    proof {
        assert(prefix + state_entries(states@.subrange(0, 0), exited, frame_revision, rr) =~= prefix);
    }
    while i < states.len()
        invariant
            i <= states@.len(),
            cap == instance.trace.config.capacity as nat,
            rr == old(instance).runtime_revision,
            instance.trace.config == old(instance).trace.config,
            instance.runtime_revision == old(instance).runtime_revision,
            instance.trace.entries@ == trace_pushed_all(start, cap, prefix + state_entries(states@.subrange(0, i as int), exited, frame_revision, rr)),
            instance.definition_id == old(instance).definition_id,
            instance.config == old(instance).config,
            instance.status == old(instance).status,
            instance.active_path == old(instance).active_path,
            instance.active_leaf_states == old(instance).active_leaf_states,
            instance.active_regions == old(instance).active_regions,
            instance.pending_transition == old(instance).pending_transition,
            instance.stack == old(instance).stack,
            instance.history == old(instance).history,
            instance.state_elapsed_micros == old(instance).state_elapsed_micros,
            instance.transition_cooldowns_micros == old(instance).transition_cooldowns_micros,
            instance.guard_true_for_micros == old(instance).guard_true_for_micros,
            instance.guards_held == old(instance).guards_held,
            instance.pending_signals == old(instance).pending_signals,
            instance.last_blackboard_revision == old(instance).last_blackboard_revision,
        decreases states@.len() - i,
    {
        let kind = if exited { TraceKind::ExitedState(states[i]) } else { TraceKind::EnteredState(states[i]) };
        let entry = StateMachineTraceEntry { frame_revision, runtime_revision: instance.runtime_revision, kind };
        proof {
            let before = prefix + state_entries(states@.subrange(0, i as int), exited, frame_revision, rr);
            let after = prefix + state_entries(states@.subrange(0, i + 1), exited, frame_revision, rr);
            assert(after.drop_last() =~= before);
            assert(after.last() == entry);
        }
        instance.trace.push(entry);
        i = i + 1;
    }
    proof {
        assert(states@.subrange(0, states@.len() as int) =~= states@);
    }
}

/// Applies the transition and, when it was accepted, commits it: the pending
/// transition is cleared, the runtime revision advances and the trace records
/// the exits, the transition and the entries.
pub fn execute_step(
    definition: &StateMachineDefinition,
    instance: &mut StateMachineInstance,
    transition: &TransitionDefinition,
    frame_revision: u64,
) -> (r: StepOutcome)
    requires
        definition.hierarchy_is_finite(),
        definition.step_terminates(*old(instance), *transition),
    ensures
        match r {
            StepOutcome::Rejected(d) => {
                &&& stack_refuses(*old(instance), *transition)
                &&& *final(instance) == *old(instance)
                &&& d.exited_states@ == exited_states(*definition, regions_view(old(instance).active_regions@), *transition)
                &&& d.entered_states@.len() == 0
            },
            StepOutcome::Applied(d) => {
                &&& !stack_refuses(*old(instance), *transition)
                &&& d.exited_states@ == exited_states(*definition, regions_view(old(instance).active_regions@), *transition)
                &&& applied_topology(*definition, *old(instance), *final(instance), *transition)
                &&& final(instance).pending_transition is None
                &&& final(instance).runtime_revision == next_revision(old(instance).runtime_revision)
                &&& final(instance).trace.config == old(instance).trace.config
                &&& final(instance).trace.entries@ == trace_pushed_all(
                    old(instance).trace.entries@,
                    old(instance).trace.config.capacity as nat,
                    step_trace(d.exited_states@, transition.id, d.entered_states@, frame_revision, final(instance).runtime_revision),
                )
                &&& final(instance).definition_id == old(instance).definition_id
                &&& final(instance).config == old(instance).config
                &&& final(instance).status == old(instance).status
                &&& final(instance).last_blackboard_revision == old(instance).last_blackboard_revision
            },
        },
        r matches StepOutcome::Applied(d) ==> d.entered_states@ == (match transition.operation {
            crate::definition::TransitionOperation::Pop => Seq::<StateId>::empty(),
            _ => crate::ordering::append_new(Seq::<StateId>::empty(), definition.step_entry(*old(instance), *transition).0),
        }),
{
    let outcome = apply_transition(definition, instance, transition);
    match outcome {
        StepOutcome::Rejected(d) => {
            return StepOutcome::Rejected(d);
        },
        StepOutcome::Applied(d) => {
            instance.pending_transition = None;
            instance.bump_revision();
            let ghost start = instance.trace.entries@;
            proof {
                assert(trace_pushed_all(start, instance.trace.config.capacity as nat, Seq::empty()) == start);
            }
            push_state_entries(instance, &d.exited_states, true, frame_revision, Ghost(start), Ghost(Seq::empty()));
            let ghost exits = Seq::<StateMachineTraceEntry>::empty() + state_entries(d.exited_states@, true, frame_revision, instance.runtime_revision);
            let entry = StateMachineTraceEntry {
                frame_revision,
                runtime_revision: instance.runtime_revision,
                kind: TraceKind::TriggeredTransition(transition.id),
            };
            instance.trace.push(entry);
            proof {
                let with_entry = exits.push(entry);
                assert(with_entry.drop_last() =~= exits);
                assert(with_entry.last() == entry);
                assert(trace_pushed_all(start, instance.trace.config.capacity as nat, with_entry)
                    == trace_pushed(trace_pushed_all(start, instance.trace.config.capacity as nat, exits), instance.trace.config.capacity as nat, entry));
            }
            push_state_entries(instance, &d.entered_states, false, frame_revision, Ghost(start), Ghost(exits.push(entry)));
            proof {
                let step = step_trace(d.exited_states@, transition.id, d.entered_states@, frame_revision, instance.runtime_revision);
                assert(exits.push(entry) + state_entries(d.entered_states@, false, frame_revision, instance.runtime_revision) =~= step);
            }
            StepOutcome::Applied(d)
        },
    }
}

/// The hook actions of the listed states that exist, state by state:
/// `on_exit` hooks when `exiting`, else `on_enter` hooks.
pub open spec fn hook_actions(definition: StateMachineDefinition, states: Seq<StateId>, exiting: bool) -> Seq<ActionId>
    decreases states.len(),
{
    if states.len() == 0 {
        Seq::empty()
    } else {
        let prev = hook_actions(definition, states.drop_last(), exiting);
        match definition.spec_state(states.last()) {
            Some(state) => prev + if exiting { state.on_exit@ } else { state.on_enter@ },
            None => prev,
        }
    }
}

/// The actions one step runs, in order. `before_entry` runs against the
/// instance as it was before the step: the exit hooks of the exited states,
/// then the transition's own actions. `on_entry` runs once the target is
/// entered: the enter hooks of the entered states.
pub struct StepActions {
    pub before_entry: Vec<ActionId>,
    pub on_entry: Vec<ActionId>,
}

fn append_hooks(out: &mut Vec<ActionId>, definition: &StateMachineDefinition, states: &Vec<StateId>, exiting: bool)
    ensures
        final(out)@ == old(out)@ + hook_actions(*definition, states@, exiting),
{
    let ghost start = out@;
    let mut i: usize = 0;
    proof {
        assert(states@.subrange(0, 0) =~= Seq::<StateId>::empty());
        assert(start + Seq::<ActionId>::empty() =~= start);
    }
    while i < states.len()
        invariant
            i <= states@.len(),
            out@ == start + hook_actions(*definition, states@.subrange(0, i as int), exiting),
        decreases states@.len() - i,
    {
        let ghost before = out@;
        proof {
            let next = states@.subrange(0, i + 1);
            assert(next.drop_last() =~= states@.subrange(0, i as int));
            assert(next.last() == states@[i as int]);
        }
        match definition.state(states[i]) {
            Some(state) => {
                let hooks = if exiting { &state.on_exit } else { &state.on_enter };
                let mut k: usize = 0;
                while k < hooks.len()
                    invariant
                        k <= hooks@.len(),
                        out@ == before + hooks@.subrange(0, k as int),
                    decreases hooks@.len() - k,
                {
                    out.push(hooks[k]);
                    proof {
                        assert(out@ =~= before + hooks@.subrange(0, k + 1));
                    }
                    k = k + 1;
                }
                proof {
                    assert(hooks@.subrange(0, hooks@.len() as int) =~= hooks@);
                    assert(out@ =~= start + hook_actions(*definition, states@.subrange(0, i + 1), exiting));
                }
            },
            None => {},
        }
        i = i + 1;
    }
    proof {
        assert(states@.subrange(0, states@.len() as int) =~= states@);
    }
}

/// The actions a step runs, exit hooks first, then the transition's
/// actions, then enter hooks.
pub fn step_actions(definition: &StateMachineDefinition, transition: &TransitionDefinition, delta: &TransitionStepDelta) -> (r: StepActions)
    ensures
        r.before_entry@ == hook_actions(*definition, delta.exited_states@, true) + transition.actions@,
        r.on_entry@ == hook_actions(*definition, delta.entered_states@, false),
{
    let mut before_entry: Vec<ActionId> = Vec::new();
    append_hooks(&mut before_entry, definition, &delta.exited_states, true);
    let ghost exits = before_entry@;
    let mut k: usize = 0;
    while k < transition.actions.len()
        invariant
            k <= transition.actions@.len(),
            before_entry@ == exits + transition.actions@.subrange(0, k as int),
        decreases transition.actions@.len() - k,
    {
        before_entry.push(transition.actions[k]);
        proof {
            assert(before_entry@ =~= exits + transition.actions@.subrange(0, k + 1));
        }
        k = k + 1;
    }
    proof {
        assert(transition.actions@.subrange(0, transition.actions@.len() as int) =~= transition.actions@);
        assert(exits =~= Seq::<ActionId>::empty() + hook_actions(*definition, delta.exited_states@, true));
    }
    let mut on_entry: Vec<ActionId> = Vec::new();
    append_hooks(&mut on_entry, definition, &delta.entered_states, false);
    proof {
        assert(on_entry@ =~= hook_actions(*definition, delta.entered_states@, false));
    }
    StepActions { before_entry, on_entry }
}

/// Whether a chain that has already taken `steps_taken` internal steps may
/// take one more: the chain stops once it has used the instance's
/// `max_internal_steps`.
pub fn step_within_budget(instance: &StateMachineInstance, steps_taken: usize) -> (r: bool)
    ensures
        r == (steps_taken < instance.config.max_internal_steps),
{
    steps_taken < instance.config.max_internal_steps
}

/// Gives up a chain of internal steps: drops the pending transition and
/// records why.
pub fn abort_execution(instance: &mut StateMachineInstance, initial: TransitionId, frame_revision: u64)
    ensures
        final(instance).pending_transition is None,
        final(instance).trace.config == old(instance).trace.config,
        final(instance).trace.entries@ == trace_pushed(
            old(instance).trace.entries@,
            old(instance).trace.config.capacity as nat,
            stamped(frame_revision, old(instance).runtime_revision, TraceKind::BlockedTransition {
                transition_id: initial,
                reason: TransitionBlockedReason::MaxInternalStepsReached,
            }),
        ),
        final(instance).runtime_revision == old(instance).runtime_revision,
        final(instance).active_regions == old(instance).active_regions,
        final(instance).history == old(instance).history,
        final(instance).stack == old(instance).stack,
{
    instance.pending_transition = None;
    let entry = StateMachineTraceEntry {
        frame_revision,
        runtime_revision: instance.runtime_revision,
        kind: TraceKind::BlockedTransition { transition_id: initial, reason: TransitionBlockedReason::MaxInternalStepsReached },
    };
    instance.trace.push(entry);
}

/// The transition a pending decision asks to execute now.
pub fn ready_transition(instance: &StateMachineInstance) -> (r: Option<TransitionId>)
    ensures
        r == (match instance.pending_transition {
            Some(PendingTransition::Ready(id)) => Some(id),
            _ => None,
        }),
{
    match instance.pending_transition {
        Some(PendingTransition::Ready(id)) => Some(id),
        _ => None,
    }
}

/// Whether an evaluated candidate continues a chain of internal steps: it
/// must be ready, exist, and be a completion transition or an automatic
/// transition out of a transient state.
pub open spec fn spec_chained_transition(definition: StateMachineDefinition, candidate: Option<EvaluatedTransition>) -> Option<TransitionId> {
    match candidate {
        Some(c) => if c.reason_if_blocked is Some {
            None
        } else {
            match definition.spec_transition(c.transition_id) {
                None => None,
                Some(t) => match t.trigger {
                    TransitionTrigger::Done => Some(c.transition_id),
                    TransitionTrigger::Automatic => match t.source.spec_state() {
                        Some(s) => match definition.spec_state(s) {
                            Some(state) => if state.kind == StateKind::Transient { Some(c.transition_id) } else { None },
                            None => None,
                        },
                        None => None,
                    },
                    _ => None,
                },
            }
        },
        None => None,
    }
}

pub fn chained_transition(definition: &StateMachineDefinition, candidate: Option<EvaluatedTransition>) -> (r: Option<TransitionId>)
    ensures
        r == spec_chained_transition(*definition, candidate),
{
    let c = match candidate {
        Some(c) => c,
        None => return None,
    };
    if c.reason_if_blocked.is_some() {
        return None;
    }
    let t = match definition.transition(c.transition_id) {
        Some(t) => t,
        None => return None,
    };
    match t.trigger {
        TransitionTrigger::Done => Some(c.transition_id),
        TransitionTrigger::Automatic => match t.source.state() {
            Some(s) => match definition.state(s) {
                Some(state) => if state.kind == StateKind::Transient {
                    Some(c.transition_id)
                } else {
                    None
                },
                None => None,
            },
            None => None,
        },
        _ => None,
    }
}

/// Records the outcome of an evaluation. A candidate waiting for its source
/// to be ready to exit becomes a waiting pending transition (traced once); a
/// blocked one clears the pending transition, is traced when the
/// configuration asks for it, and is returned so that it can be reported; a
/// ready one becomes the pending transition.
pub fn record_evaluation(
    instance: &mut StateMachineInstance,
    best: Option<EvaluatedTransition>,
    blackboard_revision: u64,
) -> (r: Option<(TransitionId, TransitionBlockedReason)>)
    ensures
        final(instance).last_blackboard_revision == blackboard_revision,
        final(instance).trace.config == old(instance).trace.config,
        *final(instance) == (StateMachineInstance {
            pending_transition: final(instance).pending_transition,
            trace: final(instance).trace,
            last_blackboard_revision: blackboard_revision,
            ..*old(instance)
        }),
        final(instance).runtime_revision == old(instance).runtime_revision,
        final(instance).active_regions == old(instance).active_regions,
        final(instance).history == old(instance).history,
        final(instance).stack == old(instance).stack,
        final(instance).pending_signals == old(instance).pending_signals,
        final(instance).config == old(instance).config,
        final(instance).status == old(instance).status,
        match best {
            None => {
                &&& r is None
                &&& final(instance).pending_transition is None
                &&& final(instance).trace.entries == old(instance).trace.entries
            },
            Some(c) => match c.reason_if_blocked {
                None => {
                    &&& r is None
                    &&& final(instance).pending_transition == Some(PendingTransition::Ready(c.transition_id))
                    &&& final(instance).trace.entries == old(instance).trace.entries
                },
                Some(TransitionBlockedReason::PendingExit) => {
                    let already = old(instance).pending_transition matches Some(PendingTransition::Waiting { transition_id, .. })
                        && transition_id == c.transition_id;
                    &&& r is None
                    &&& final(instance).pending_transition == Some(PendingTransition::Waiting {
                        transition_id: c.transition_id,
                        reason: TransitionBlockedReason::PendingExit,
                        waiting_since_revision: old(instance).runtime_revision,
                    })
                    &&& already ==> final(instance).trace.entries == old(instance).trace.entries
                    &&& !already ==> final(instance).trace.entries@ == trace_pushed(
                        old(instance).trace.entries@,
                        old(instance).trace.config.capacity as nat,
                        stamped(blackboard_revision, old(instance).runtime_revision, TraceKind::PendingTransition(c.transition_id)),
                    )
                },
                Some(reason) => {
                    &&& r == Some((c.transition_id, reason))
                    &&& final(instance).pending_transition is None
                    &&& old(instance).config.trace_config.record_blocked ==> final(instance).trace.entries@ == trace_pushed(
                        old(instance).trace.entries@,
                        old(instance).trace.config.capacity as nat,
                        stamped(blackboard_revision, old(instance).runtime_revision, TraceKind::BlockedTransition {
                            transition_id: c.transition_id,
                            reason,
                        }),
                    )
                    &&& !old(instance).config.trace_config.record_blocked ==> final(instance).trace.entries == old(instance).trace.entries
                },
            },
        },
{
    let mut message: Option<(TransitionId, TransitionBlockedReason)> = None;
    match best {
        Some(c) => match c.reason_if_blocked {
            Some(TransitionBlockedReason::PendingExit) => {
                let already = match instance.pending_transition {
                    Some(PendingTransition::Waiting { transition_id, .. }) => transition_id == c.transition_id,
                    _ => false,
                };
                instance.pending_transition = Some(PendingTransition::Waiting {
                    transition_id: c.transition_id,
                    reason: TransitionBlockedReason::PendingExit,
                    waiting_since_revision: instance.runtime_revision,
                });
                if !already {
                    let entry = StateMachineTraceEntry {
                        frame_revision: blackboard_revision,
                        runtime_revision: instance.runtime_revision,
                        kind: TraceKind::PendingTransition(c.transition_id),
                    };
                    instance.trace.push(entry);
                }
            },
            Some(reason) => {
                message = Some((c.transition_id, reason));
                if instance.config.trace_config.record_blocked {
                    let entry = StateMachineTraceEntry {
                        frame_revision: blackboard_revision,
                        runtime_revision: instance.runtime_revision,
                        kind: TraceKind::BlockedTransition { transition_id: c.transition_id, reason },
                    };
                    instance.trace.push(entry);
                }
                instance.pending_transition = None;
            },
            None => {
                instance.pending_transition = Some(PendingTransition::Ready(c.transition_id));
            },
        },
        None => {
            instance.pending_transition = None;
        },
    }
    instance.last_blackboard_revision = blackboard_revision;
    message
}

} // verus!
