//! Hierarchical finite state machine runtime: definitions, validation,
//! blackboards and the deterministic transition engine.

pub mod definition;
pub mod text;

pub use definition::{
    ActionId, GuardId, RegionId, ScorerId, SignalId, StateId, StateMachineDefinitionId,
    TransitionId,
};
pub mod debug;
pub use debug::{
    DebugTraceConfig, StateMachineTrace, StateMachineTraceEntry, TraceKind, TransitionBlockedReason,
};
pub mod blackboard;
pub use blackboard::{
    Blackboard, BlackboardError, BlackboardKeyDefinition, BlackboardKeyId, BlackboardValue,
    BlackboardValueType,
};
pub use definition::{
    HistoryMode, RegionDefinition, StateDefinition, StateKind, StateMachineDefinition,
    StateMachineLibrary, TransitionDefinition, TransitionMode, TransitionOperation,
    TransitionSource, TransitionTrigger, UtilityPolicy,
};
pub mod stack;
pub use stack::{ActiveRegionState, HistorySnapshot, StateStack, StateStackFrame};
pub mod instance;
pub use instance::{
    InstanceBlackboardOverride, InstanceThresholdOverride, PendingTransition,
    StateMachineEvaluationMode, StateMachineInstance, StateMachineInstanceConfig,
    StateMachineStatus,
};
pub mod hierarchy;
pub mod regions;
pub mod builder;
pub use builder::StateMachineBuilder;
pub mod validation;
pub use validation::{ValidationCode, ValidationIssue, ValidationReport, ValidationSeverity};
pub mod analysis;
pub mod ordering;
pub mod transitions;
pub mod timers;
pub mod entering;
pub mod lifecycle;
pub mod executing;
pub mod evaluating;
pub mod stepping;
pub mod scheduling;
pub mod laws;
pub mod asset;
pub use asset::{AssetRegistrationError, StateMachineDefinitionAsset};
pub mod termination;
pub mod semantics;
