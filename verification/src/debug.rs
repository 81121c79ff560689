use vstd::prelude::*;

use crate::definition::{StateId, TransitionId};

verus! {

/// Bounded trace configuration.
#[derive(Clone, Copy, Debug, Default, PartialEq, Eq, Structural)]
pub struct DebugTraceConfig {
    pub capacity: usize,
    pub record_blocked: bool,
}

/// Why a candidate transition could not fire.
#[derive(Clone, Copy, Debug, PartialEq, Eq, Structural)]
pub enum TransitionBlockedReason {
    GuardFalse,
    UtilityBelowThreshold,
    CooldownActive,
    DebounceActive,
    ExitNotReady,
    PendingExit,
    StackEmpty,
    StackOverflow,
    InvalidTransition,
    InvalidHistoryRestore,
    InvalidCrossRegionTransition,
    MaxInternalStepsReached,
}

/// What a trace entry records.
#[derive(Clone, Copy, Debug, PartialEq, Eq, Structural)]
pub enum TraceKind {
    EnteredState(StateId),
    ExitedState(StateId),
    TriggeredTransition(TransitionId),
    BlockedTransition { transition_id: TransitionId, reason: TransitionBlockedReason },
    PendingTransition(TransitionId),
}

/// One trace entry.
#[derive(Clone, Copy, Debug, PartialEq, Eq, Structural)]
pub struct StateMachineTraceEntry {
    pub frame_revision: u64,
    pub runtime_revision: u64,
    pub kind: TraceKind,
}

/// A bounded buffer of the most recent trace entries.
#[derive(Clone, Debug, Default, PartialEq)]
pub struct StateMachineTrace {
    pub config: DebugTraceConfig,
    pub entries: Vec<StateMachineTraceEntry>,
}

/// The entries after recording `entry` in a buffer of the given capacity:
/// nothing is kept at capacity zero, the entry is appended while there is room,
/// and otherwise the oldest entry is dropped.
pub open spec fn trace_pushed(
    entries: Seq<StateMachineTraceEntry>,
    capacity: nat,
    entry: StateMachineTraceEntry,
) -> Seq<StateMachineTraceEntry> {
    if capacity == 0 {
        entries
    } else if entries.len() < capacity {
        entries.push(entry)
    } else {
        entries.drop_first().push(entry)
    }
}

impl StateMachineTrace {
    pub fn new(config: DebugTraceConfig) -> (r: Self)
        ensures
            r.config == config,
            r.entries@ == Seq::<StateMachineTraceEntry>::empty(),
    {
        StateMachineTrace { config, entries: Vec::new() }
    }

    /// Records an entry, evicting the oldest one when the buffer is full.
    pub fn push(&mut self, entry: StateMachineTraceEntry)
        ensures
            final(self).config == old(self).config,
            final(self).entries@ == trace_pushed(
                old(self).entries@,
                old(self).config.capacity as nat,
                entry,
            ),
    {
        let capacity = self.config.capacity;
        if capacity == 0 {
            return;
        }
        if self.entries.len() < capacity {
            self.entries.push(entry);
            return;
        }
        self.entries.remove(0);
        self.entries.push(entry);
    }
}

} // verus!
