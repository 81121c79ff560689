use vstd::prelude::*;

use crate::blackboard::{BlackboardKeyId, BlackboardValue};
use crate::debug::{DebugTraceConfig, StateMachineTrace, TransitionBlockedReason};
use crate::definition::{RegionId, SignalId, StateId, StateMachineDefinitionId, TransitionId};
use crate::stack::{ActiveRegionState, HistorySnapshot, StateStack};

verus! {

/// A start-up value written to one blackboard key of one instance.
#[derive(Debug)]
pub struct InstanceBlackboardOverride {
    pub key: BlackboardKeyId,
    pub value: BlackboardValue,
}

impl Clone for InstanceBlackboardOverride {
    fn clone(&self) -> (r: Self)
        ensures
            r == *self,
    {
        InstanceBlackboardOverride { key: self.key, value: self.value.clone() }
    }
}

/// A per-instance utility threshold (millionths of a score unit) for one transition.
#[derive(Clone, Copy, Debug, Default, PartialEq, Eq, Structural)]
pub struct InstanceThresholdOverride {
    pub transition_id: TransitionId,
    pub minimum_score_micros: i64,
}

/// The transition chosen by the last evaluation.
#[derive(Clone, Copy, Debug, PartialEq, Eq, Structural)]
pub enum PendingTransition {
    Ready(TransitionId),
    Waiting { transition_id: TransitionId, reason: TransitionBlockedReason, waiting_since_revision: u64 },
}

/// Lifecycle status of an instance.
#[derive(Clone, Copy, Debug, Default, PartialEq, Eq, Structural)]
pub enum StateMachineStatus {
    #[default]
    Uninitialized,
    Active,
    Inactive,
}

/// When transitions are evaluated.
#[derive(Clone, Copy, Debug, Default, PartialEq, Eq, Structural)]
pub enum StateMachineEvaluationMode {
    #[default]
    EveryFrame,
    OnSignalOrBlackboardChange,
}

/// Per-instance runtime configuration.
#[derive(Clone, Debug)]
pub struct StateMachineInstanceConfig {
    pub evaluation_mode: StateMachineEvaluationMode,
    pub enabled_regions: Vec<RegionId>,
    pub trace_config: DebugTraceConfig,
    pub max_internal_steps: usize,
    pub max_stack_depth: usize,
    pub blackboard_overrides: Vec<InstanceBlackboardOverride>,
    pub utility_threshold_overrides: Vec<InstanceThresholdOverride>,
}

impl StateMachineInstanceConfig {
    /// The documented defaults: every-frame evaluation, all regions enabled,
    /// a 32-entry trace recording blocked transitions, 16 internal steps and a
    /// stack depth of 8, no overrides.
    pub open spec fn spec_is_default(self) -> bool {
        &&& self.evaluation_mode == StateMachineEvaluationMode::EveryFrame
        &&& self.enabled_regions@.len() == 0
        &&& self.trace_config == DebugTraceConfig { capacity: 32, record_blocked: true }
        &&& self.max_internal_steps == 16
        &&& self.max_stack_depth == 8
        &&& self.blackboard_overrides@.len() == 0
        &&& self.utility_threshold_overrides@.len() == 0
    }
}

impl Default for StateMachineInstanceConfig {
    fn default() -> (r: Self)
        ensures
            r.spec_is_default(),
    {
        StateMachineInstanceConfig {
            evaluation_mode: StateMachineEvaluationMode::EveryFrame,
            enabled_regions: Vec::new(),
            trace_config: DebugTraceConfig { capacity: 32, record_blocked: true },
            max_internal_steps: 16,
            max_stack_depth: 8,
            blackboard_overrides: Vec::new(),
            utility_threshold_overrides: Vec::new(),
        }
    }
}

/// The runtime state of one machine. Timers are in microseconds and indexed
/// by state id (`state_elapsed_micros`) or transition id (the others).
#[derive(Clone, Debug)]
pub struct StateMachineInstance {
    pub definition_id: StateMachineDefinitionId,
    pub config: StateMachineInstanceConfig,
    pub status: StateMachineStatus,
    pub active_path: Vec<StateId>,
    pub active_leaf_states: Vec<StateId>,
    pub active_regions: Vec<ActiveRegionState>,
    pub pending_transition: Option<PendingTransition>,
    pub stack: StateStack,
    pub history: Vec<Option<HistorySnapshot>>,
    pub state_elapsed_micros: Vec<u64>,
    pub transition_cooldowns_micros: Vec<u64>,
    pub guard_true_for_micros: Vec<u64>,
    /// The transitions whose source was active and whose guard held at the
    /// last evaluation; frames without evaluation count them as still held.
    pub guards_held: Vec<TransitionId>,
    pub pending_signals: Vec<SignalId>,
    pub runtime_revision: u64,
    pub last_blackboard_revision: u64,
    pub trace: StateMachineTrace,
}

impl StateMachineInstance {
    /// A fresh, uninitialized instance with the default configuration.
    pub fn new(definition_id: StateMachineDefinitionId) -> (r: Self)
        ensures
            r.definition_id == definition_id,
            r.config.spec_is_default(),
            r.status == StateMachineStatus::Uninitialized,
            r.active_path@.len() == 0,
            r.active_leaf_states@.len() == 0,
            r.active_regions@.len() == 0,
            r.pending_transition is None,
            r.stack.max_depth == r.config.max_stack_depth,
            r.stack.frames@.len() == 0,
            r.history@.len() == 0,
            r.state_elapsed_micros@.len() == 0,
            r.transition_cooldowns_micros@.len() == 0,
            r.guard_true_for_micros@.len() == 0,
            r.guards_held@.len() == 0,
            r.pending_signals@.len() == 0,
            r.runtime_revision == 0,
            r.last_blackboard_revision == 0,
            r.trace.config == r.config.trace_config,
            r.trace.entries@.len() == 0,
    {
        let config = StateMachineInstanceConfig::default();
        let stack = StateStack::new(config.max_stack_depth);
        let trace = StateMachineTrace::new(config.trace_config);
        StateMachineInstance {
            definition_id,
            status: StateMachineStatus::Uninitialized,
            active_path: Vec::new(),
            active_leaf_states: Vec::new(),
            active_regions: Vec::new(),
            pending_transition: None,
            stack,
            history: Vec::new(),
            state_elapsed_micros: Vec::new(),
            transition_cooldowns_micros: Vec::new(),
            guard_true_for_micros: Vec::new(),
            guards_held: Vec::new(),
            pending_signals: Vec::new(),
            runtime_revision: 0,
            last_blackboard_revision: 0,
            trace,
            config,
        }
    }

    /// Replaces the configuration, with a fresh empty stack and trace sized by it.
    pub fn with_config(self, config: StateMachineInstanceConfig) -> (r: Self)
        ensures
            r.config == config,
            r.stack.max_depth == config.max_stack_depth,
            r.stack.frames@.len() == 0,
            r.trace.config == config.trace_config,
            r.trace.entries@.len() == 0,
            r.definition_id == self.definition_id,
            r.status == self.status,
            r.active_path == self.active_path,
            r.active_leaf_states == self.active_leaf_states,
            r.active_regions == self.active_regions,
            r.pending_transition == self.pending_transition,
            r.history == self.history,
            r.state_elapsed_micros == self.state_elapsed_micros,
            r.transition_cooldowns_micros == self.transition_cooldowns_micros,
            r.guard_true_for_micros == self.guard_true_for_micros,
            r.guards_held == self.guards_held,
            r.pending_signals == self.pending_signals,
            r.runtime_revision == self.runtime_revision,
            r.last_blackboard_revision == self.last_blackboard_revision,
    {
        let mut s = self;
        s.stack = StateStack::new(config.max_stack_depth);
        s.trace = StateMachineTrace::new(config.trace_config);
        s.config = config;
        s
    }

    /// Counts one more topology change (saturating).
    pub fn bump_revision(&mut self)
        ensures
            final(self).runtime_revision == (if old(self).runtime_revision == u64::MAX {
                old(self).runtime_revision
            } else {
                (old(self).runtime_revision + 1) as u64
            }),
            final(self).definition_id == old(self).definition_id,
            final(self).config == old(self).config,
            final(self).status == old(self).status,
            final(self).active_path == old(self).active_path,
            final(self).active_leaf_states == old(self).active_leaf_states,
            final(self).active_regions == old(self).active_regions,
            final(self).pending_transition == old(self).pending_transition,
            final(self).stack == old(self).stack,
            final(self).history == old(self).history,
            final(self).state_elapsed_micros == old(self).state_elapsed_micros,
            final(self).transition_cooldowns_micros == old(self).transition_cooldowns_micros,
            final(self).guard_true_for_micros == old(self).guard_true_for_micros,
            final(self).guards_held == old(self).guards_held,
            final(self).pending_signals == old(self).pending_signals,
            final(self).last_blackboard_revision == old(self).last_blackboard_revision,
            final(self).trace == old(self).trace,
    {
        self.runtime_revision = self.runtime_revision.saturating_add(1);
    }

    /// Forgets the active configuration and any pending transition.
    pub fn clear_active_state(&mut self)
        ensures
            final(self).active_path@.len() == 0,
            final(self).active_leaf_states@.len() == 0,
            final(self).active_regions@.len() == 0,
            final(self).pending_transition is None,
            final(self).definition_id == old(self).definition_id,
            final(self).config == old(self).config,
            final(self).status == old(self).status,
            final(self).stack == old(self).stack,
            final(self).history == old(self).history,
            final(self).state_elapsed_micros == old(self).state_elapsed_micros,
            final(self).transition_cooldowns_micros == old(self).transition_cooldowns_micros,
            final(self).guard_true_for_micros == old(self).guard_true_for_micros,
            final(self).guards_held == old(self).guards_held,
            final(self).pending_signals == old(self).pending_signals,
            final(self).runtime_revision == old(self).runtime_revision,
            final(self).last_blackboard_revision == old(self).last_blackboard_revision,
            final(self).trace == old(self).trace,
    {
        self.active_path.clear();
        self.active_leaf_states.clear();
        self.active_regions.clear();
        self.pending_transition = None;
    }

    pub open spec fn spec_is_active(self) -> bool {
        self.status == StateMachineStatus::Active || self.status == StateMachineStatus::Uninitialized
    }

    /// Active and not-yet-initialized instances take part in the pipeline.
    pub fn is_active(&self) -> (r: bool)
        ensures
            r == self.spec_is_active(),
    {
        match self.status {
            StateMachineStatus::Active | StateMachineStatus::Uninitialized => true,
            StateMachineStatus::Inactive => false,
        }
    }

    /// The first active leaf state.
    pub fn active_leaf(&self) -> (r: Option<StateId>)
        ensures
            r == (if self.active_leaf_states@.len() > 0 {
                Some(self.active_leaf_states@[0])
            } else {
                None
            }),
    {
        if self.active_leaf_states.len() > 0 {
            Some(self.active_leaf_states[0])
        } else {
            None
        }
    }

    /// Whether the state is on the active path or is an active leaf.
    pub fn is_in_state(&self, state_id: StateId) -> (r: bool)
        ensures
            r == (self.active_path@.contains(state_id) || self.active_leaf_states@.contains(state_id)),
    {
        contains_state(&self.active_path, state_id) || contains_state(&self.active_leaf_states, state_id)
    }

    /// Queues a signal unless it is already queued; returns whether it was added.
    pub fn queue_signal(&mut self, signal_id: SignalId) -> (r: bool)
        ensures
            r == !old(self).pending_signals@.contains(signal_id),
            r ==> final(self).pending_signals@ == old(self).pending_signals@.push(signal_id),
            !r ==> final(self).pending_signals@ == old(self).pending_signals@,
            final(self).definition_id == old(self).definition_id,
            final(self).config == old(self).config,
            final(self).status == old(self).status,
            final(self).active_path == old(self).active_path,
            final(self).active_leaf_states == old(self).active_leaf_states,
            final(self).active_regions == old(self).active_regions,
            final(self).pending_transition == old(self).pending_transition,
            final(self).stack == old(self).stack,
            final(self).history == old(self).history,
            final(self).state_elapsed_micros == old(self).state_elapsed_micros,
            final(self).transition_cooldowns_micros == old(self).transition_cooldowns_micros,
            final(self).guard_true_for_micros == old(self).guard_true_for_micros,
            final(self).guards_held == old(self).guards_held,
            final(self).runtime_revision == old(self).runtime_revision,
            final(self).last_blackboard_revision == old(self).last_blackboard_revision,
            final(self).trace == old(self).trace,
    {
        if contains_signal(&self.pending_signals, signal_id) {
            return false;
        }
        self.pending_signals.push(signal_id);
        true
    }

    pub fn has_signal(&self, signal_id: SignalId) -> (r: bool)
        ensures
            r == self.pending_signals@.contains(signal_id),
    {
        contains_signal(&self.pending_signals, signal_id)
    }

    /// Removes every queued copy of a signal; returns whether any was queued.
    pub fn clear_signal(&mut self, signal_id: SignalId) -> (r: bool)
        ensures
            final(self).pending_signals@ == old(self).pending_signals@.filter(other_signals(signal_id)),
            r == old(self).pending_signals@.contains(signal_id),
            final(self).definition_id == old(self).definition_id,
            final(self).config == old(self).config,
            final(self).status == old(self).status,
            final(self).active_path == old(self).active_path,
            final(self).active_leaf_states == old(self).active_leaf_states,
            final(self).active_regions == old(self).active_regions,
            final(self).pending_transition == old(self).pending_transition,
            final(self).stack == old(self).stack,
            final(self).history == old(self).history,
            final(self).state_elapsed_micros == old(self).state_elapsed_micros,
            final(self).transition_cooldowns_micros == old(self).transition_cooldowns_micros,
            final(self).guard_true_for_micros == old(self).guard_true_for_micros,
            final(self).guards_held == old(self).guards_held,
            final(self).runtime_revision == old(self).runtime_revision,
            final(self).last_blackboard_revision == old(self).last_blackboard_revision,
            final(self).trace == old(self).trace,
    {
        let ghost original = self.pending_signals@;
        let ghost pred = other_signals(signal_id);
        let mut kept: Vec<SignalId> = Vec::new();
        let mut i: usize = 0;
        let mut removed = false;
        while i < self.pending_signals.len()
            invariant
                i <= original.len(),
                self.pending_signals@ == original,
                pred == other_signals(signal_id),
                kept@ == original.subrange(0, i as int).filter(pred),
                removed == original.subrange(0, i as int).contains(signal_id),
            decreases original.len() - i,
        {
            let s = self.pending_signals[i];
            if s != signal_id {
                kept.push(s);
            } else {
                removed = true;
            }
            proof {
                let next = original.subrange(0, i + 1);
                assert(next.drop_last() =~= original.subrange(0, i as int));
                assert(next.last() == s);
                reveal_with_fuel(Seq::filter, 1);
                assert(next.filter(pred) == (if pred(s) { original.subrange(0, i as int).filter(pred).push(s) } else { original.subrange(0, i as int).filter(pred) }));
                if next.contains(signal_id) {
                    let k = choose|k: int| 0 <= k < i + 1 && #[trigger] next[k] == signal_id;
                    if k < i {
                        assert(original.subrange(0, i as int)[k] == signal_id);
                    }
                }
                if original.subrange(0, i as int).contains(signal_id) {
                    let k = choose|k: int| 0 <= k < i && #[trigger] original.subrange(0, i as int)[k] == signal_id;
                    assert(next[k] == signal_id);
                }
                if s == signal_id {
                    assert(next[i as int] == signal_id);
                }

                assert(kept@ == next.filter(pred));
            }
            i = i + 1;
        }
        proof {
            assert(original.subrange(0, original.len() as int) =~= original);
        }
        self.pending_signals = kept;
        removed
    }

    pub fn clear_signals(&mut self)
        ensures
            final(self).pending_signals@.len() == 0,
            final(self).definition_id == old(self).definition_id,
            final(self).config == old(self).config,
            final(self).status == old(self).status,
            final(self).active_path == old(self).active_path,
            final(self).active_leaf_states == old(self).active_leaf_states,
            final(self).active_regions == old(self).active_regions,
            final(self).pending_transition == old(self).pending_transition,
            final(self).stack == old(self).stack,
            final(self).history == old(self).history,
            final(self).state_elapsed_micros == old(self).state_elapsed_micros,
            final(self).transition_cooldowns_micros == old(self).transition_cooldowns_micros,
            final(self).guard_true_for_micros == old(self).guard_true_for_micros,
            final(self).guards_held == old(self).guards_held,
            final(self).runtime_revision == old(self).runtime_revision,
            final(self).last_blackboard_revision == old(self).last_blackboard_revision,
            final(self).trace == old(self).trace,
    {
        self.pending_signals.clear();
    }
}

/// The signals different from `signal`.
pub open spec fn other_signals(signal: SignalId) -> spec_fn(SignalId) -> bool {
    |s: SignalId| !(s == signal)
}

/// Whether a state occurs in a sequence.
pub fn contains_state(v: &Vec<StateId>, s: StateId) -> (r: bool)
    ensures
        r == v@.contains(s),
{
    let mut i: usize = 0;
    while i < v.len()
        invariant
            i <= v@.len(),
            forall|j: int| 0 <= j < i ==> v@[j] != s,
        decreases v@.len() - i,
    {
        if v[i] == s {
            proof {
                assert(v@[i as int] == s);
            }
            return true;
        }
        i = i + 1;
    }
    false
}

/// Whether a signal occurs in a sequence.
pub fn contains_signal(v: &Vec<SignalId>, s: SignalId) -> (r: bool)
    ensures
        r == v@.contains(s),
{
    let mut i: usize = 0;
    while i < v.len()
        invariant
            i <= v@.len(),
            forall|j: int| 0 <= j < i ==> v@[j] != s,
        decreases v@.len() - i,
    {
        if v[i] == s {
            proof {
                assert(v@[i as int] == s);
            }
            return true;
        }
        i = i + 1;
    }
    false
}

} // verus!
