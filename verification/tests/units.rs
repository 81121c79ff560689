use saddle_ai_state_machine::hierarchy::{least_common_ancestor, path_to_root};
use saddle_ai_state_machine::regions::root_region_for_state;
use saddle_ai_state_machine::timers::{decay_toward_zero, tick_active};
use saddle_ai_state_machine::transitions::{choose_best_candidate, threshold_for, EvaluatedTransition};
use saddle_ai_state_machine::{
    Blackboard, BlackboardError, BlackboardKeyDefinition, BlackboardKeyId, BlackboardValue, BlackboardValueType,
    DebugTraceConfig, InstanceThresholdOverride, SignalId, StateId, StateMachineBuilder, StateMachineDefinitionId,
    StateMachineInstance, StateMachineStatus, StateMachineTrace, StateMachineTraceEntry, StateStack, StateStackFrame,
    TraceKind, TransitionDefinition, TransitionId, UtilityPolicy,
};

#[test]
fn typed_access_and_revision_tracking() {
    let key_health = BlackboardKeyId(0);
    let key_alert = BlackboardKeyId(1);
    let mut blackboard = Blackboard::with_capacity(2);

    assert!(!blackboard.changed_since(0));

    blackboard.set_value(key_health, BlackboardValue::F32(12.5_f32.to_bits())).unwrap();
    blackboard.set(key_alert, true).unwrap();

    assert_eq!(blackboard.get_f32_bits(key_health).unwrap().map(f32::from_bits), Some(12.5));
    assert_eq!(blackboard.get_bool(key_alert).unwrap(), Some(true));
    assert!(blackboard.changed_since(0));
    assert_eq!(blackboard.dirty_keys, vec![key_health, key_alert]);
}

#[test]
fn type_mismatch_returns_error() {
    let key = BlackboardKeyId(0);
    let mut blackboard = Blackboard::with_capacity(1);
    blackboard.set(key, 3_i32).unwrap();

    let error = blackboard.get_bool(key).unwrap_err();
    assert!(matches!(
        error,
        BlackboardError::TypeMismatch {
            expected: BlackboardValueType::Bool,
            actual: BlackboardValueType::I32,
        }
    ));
}

#[test]
fn schema_rejects_wrong_value_type_on_set() {
    let schema = vec![BlackboardKeyDefinition {
        id: BlackboardKeyId(0),
        name: "alert".to_string(),
        value_type: BlackboardValueType::Bool,
        required: false,
        default_value: Some(false.into()),
    }];
    let mut blackboard = Blackboard::from_schema(&schema);

    let error = blackboard.set(BlackboardKeyId(0), 1_i32).unwrap_err();
    assert!(matches!(
        error,
        BlackboardError::TypeMismatch {
            expected: BlackboardValueType::Bool,
            actual: BlackboardValueType::I32,
        }
    ));
}

#[test]
fn builder_assigns_stable_dense_ids() {
    let mut builder = StateMachineBuilder::new("DenseIds");
    let root = builder.root_region("root");
    let idle = builder.atomic_state("Idle");
    let run = builder.atomic_state("Run");

    builder
        .add_state_to_region(idle, root)
        .add_state_to_region(run, root)
        .set_region_initial(root, idle)
        .add_transition(TransitionDefinition::replace(idle, run));

    let definition = builder.build().unwrap();
    assert_eq!(definition.states[0].id, idle);
    assert_eq!(definition.states[1].id, run);
    assert_eq!(definition.transitions[0].id, TransitionId(0));
}

#[test]
fn trace_respects_capacity() {
    let mut trace = StateMachineTrace::new(DebugTraceConfig { capacity: 2, record_blocked: true });

    trace.push(StateMachineTraceEntry { frame_revision: 1, runtime_revision: 1, kind: TraceKind::EnteredState(StateId(0)) });
    trace.push(StateMachineTraceEntry { frame_revision: 2, runtime_revision: 2, kind: TraceKind::EnteredState(StateId(1)) });
    trace.push(StateMachineTraceEntry { frame_revision: 3, runtime_revision: 3, kind: TraceKind::EnteredState(StateId(2)) });

    assert_eq!(trace.entries.len(), 2);
    assert_eq!(trace.entries[0].frame_revision, 2);
    assert_eq!(trace.entries[1].frame_revision, 3);
}

#[test]
fn find_state_and_blackboard_key_by_name() {
    let mut builder = StateMachineBuilder::new("Lookup");
    let root = builder.root_region("root");
    let idle = builder.atomic_state("Idle");
    builder.add_state_to_region(idle, root).set_region_initial(root, idle);
    let alert_key = builder.blackboard_key("alert", BlackboardValueType::Bool, false, None);

    let definition = builder.build().unwrap();
    assert_eq!(definition.find_state_id("Idle"), Some(idle));
    assert_eq!(definition.find_blackboard_key("alert"), Some(alert_key));
}

#[test]
fn least_common_ancestor_finds_branch_point() {
    let mut builder = StateMachineBuilder::new("Hierarchy");
    let root = builder.root_region("root");
    let parent = builder.compound_state("Parent");
    let child_region = builder.region("child", parent);
    let left = builder.atomic_state("Left");
    let right = builder.atomic_state("Right");

    builder
        .add_state_to_region(parent, root)
        .set_region_initial(root, parent)
        .add_state_to_region(left, child_region)
        .add_state_to_region(right, child_region)
        .set_region_initial(child_region, left);

    let definition = builder.build().unwrap();
    assert_eq!(path_to_root(&definition, left), vec![parent, left]);
    assert_eq!(least_common_ancestor(&definition, left, right), Some(parent));
}

#[test]
fn instance_uses_default_runtime_config() {
    let instance = StateMachineInstance::new(StateMachineDefinitionId(7));
    assert_eq!(instance.definition_id, StateMachineDefinitionId(7));
    assert_eq!(instance.config.max_internal_steps, 16);
    assert_eq!(instance.stack.max_depth, 8);
    assert!(instance.config.blackboard_overrides.is_empty());
    assert!(matches!(instance.status, StateMachineStatus::Uninitialized));
}

#[test]
fn signal_helpers_are_deduplicated() {
    let mut instance = StateMachineInstance::new(StateMachineDefinitionId(11));
    let signal = SignalId(4);

    assert!(instance.queue_signal(signal));
    assert!(!instance.queue_signal(signal));
    assert!(instance.has_signal(signal));
    assert!(instance.clear_signal(signal));
    assert!(!instance.has_signal(signal));
}

#[test]
fn root_region_resolves_for_nested_state() {
    let mut builder = StateMachineBuilder::new("Regions");
    let root = builder.root_region("root");
    let parent = builder.parallel_state("Parent");
    let locomotion = builder.region("locomotion", parent);
    let grounded = builder.atomic_state("Grounded");

    builder
        .add_state_to_region(parent, root)
        .set_region_initial(root, parent)
        .add_state_to_region(grounded, locomotion)
        .set_region_initial(locomotion, grounded);

    let definition = builder.build().unwrap();
    assert_eq!(root_region_for_state(&definition, grounded), Some(root));
}

#[test]
fn stack_enforces_max_depth() {
    let mut stack = StateStack::new(1);
    assert!(stack.push(StateStackFrame::default()));
    assert!(!stack.push(StateStackFrame::default()));
    assert_eq!(stack.len(), 1);
}

#[test]
fn pop_restores_last_frame() {
    let mut stack = StateStack::new(2);
    let frame = StateStackFrame { pending_transition: Some(TransitionId(9)), ..Default::default() };
    stack.push(frame.clone());

    assert_eq!(stack.pop(), Some(frame));
    assert!(stack.is_empty());
}

#[test]
fn tick_and_decay_helpers_work() {
    let mut values: Vec<u64> = vec![0, 0, 0];
    tick_active(&mut values, &[0_usize, 2], 500_000);
    assert_eq!(values, vec![500_000, 0, 500_000]);

    decay_toward_zero(&mut values, 250_000);
    assert_eq!(values, vec![250_000, 0, 250_000]);
}

#[test]
fn choose_best_candidate_prefers_depth_then_priority_then_score() {
    let candidates = vec![
        EvaluatedTransition {
            transition_id: TransitionId(0),
            source_depth: 1,
            priority: 0,
            score_micros: 800_000,
            declaration_order: 0,
            reason_if_blocked: None,
        },
        EvaluatedTransition {
            transition_id: TransitionId(1),
            source_depth: 2,
            priority: 0,
            score_micros: 100_000,
            declaration_order: 1,
            reason_if_blocked: None,
        },
        EvaluatedTransition {
            transition_id: TransitionId(2),
            source_depth: 2,
            priority: 3,
            score_micros: 0,
            declaration_order: 2,
            reason_if_blocked: None,
        },
    ];

    assert_eq!(choose_best_candidate(&candidates).unwrap().transition_id, TransitionId(2));
}

#[test]
fn threshold_override_wins_over_definition_policy() {
    let mut instance = StateMachineInstance::new(StateMachineDefinitionId(1));
    instance
        .config
        .utility_threshold_overrides
        .push(InstanceThresholdOverride { transition_id: TransitionId(3), minimum_score_micros: 900_000 });

    assert_eq!(
        threshold_for(&instance, TransitionId(3), UtilityPolicy::BestScoreAbove { minimum_score_milli: 200 }),
        900_000
    );
}

#[test]
fn duplicate_state_names_are_rejected() {
    let mut builder = StateMachineBuilder::new("Invalid");
    let root = builder.root_region("root");
    let idle_a = builder.atomic_state("Idle");
    let idle_b = builder.atomic_state("Idle");

    builder
        .add_state_to_region(idle_a, root)
        .add_state_to_region(idle_b, root)
        .set_region_initial(root, idle_a);

    let report = builder.build().unwrap_err();
    assert!(report.issues.iter().any(|issue| issue.code.as_str() == "duplicate_state_name"));
}

#[test]
fn sibling_parallel_region_transitions_are_reported() {
    let mut builder = StateMachineBuilder::new("Parallel");
    let root = builder.root_region("root");
    let parent = builder.parallel_state("Parent");
    let left_region = builder.region("left", parent);
    let right_region = builder.region("right", parent);
    let left = builder.atomic_state("Left");
    let right = builder.atomic_state("Right");

    builder
        .add_state_to_region(parent, root)
        .set_region_initial(root, parent)
        .add_state_to_region(left, left_region)
        .add_state_to_region(right, right_region)
        .set_region_initial(left_region, left)
        .set_region_initial(right_region, right)
        .add_transition(TransitionDefinition::replace(left, right));

    let report = builder.build().unwrap_err();
    assert!(report.issues.iter().any(|issue| issue.code.as_str() == "unsupported_cross_region_transition"));
}

#[test]
fn same_parallel_region_transitions_are_allowed() {
    let mut builder = StateMachineBuilder::new("ParallelSameRegion");
    let root = builder.root_region("root");
    let parent = builder.parallel_state("Parent");
    let left_region = builder.region("left", parent);
    let right_region = builder.region("right", parent);
    let left_a = builder.atomic_state("LeftA");
    let left_b = builder.atomic_state("LeftB");
    let right = builder.atomic_state("Right");

    builder
        .add_state_to_region(parent, root)
        .set_region_initial(root, parent)
        .add_state_to_region(left_a, left_region)
        .add_state_to_region(left_b, left_region)
        .add_state_to_region(right, right_region)
        .set_region_initial(left_region, left_a)
        .set_region_initial(right_region, right)
        .add_transition(TransitionDefinition::replace(left_a, left_b));

    let definition = builder.build().unwrap();
    assert_eq!(definition.transitions.len(), 1);
}

#[test]
fn duplicate_blackboard_key_names_are_rejected() {
    let mut builder = StateMachineBuilder::new("DuplicateBlackboard");
    let root = builder.root_region("root");
    let idle = builder.atomic_state("Idle");

    builder.blackboard_key("target_visible", BlackboardValueType::Bool, false, Some(false.into()));
    builder.blackboard_key("target_visible", BlackboardValueType::Bool, false, Some(false.into()));
    builder.add_state_to_region(idle, root).set_region_initial(root, idle);

    let report = builder.build().unwrap_err();
    assert!(report.issues.iter().any(|issue| issue.code.as_str() == "duplicate_blackboard_key_name"));
}

#[test]
fn blackboard_default_type_mismatch_is_rejected() {
    let mut builder = StateMachineBuilder::new("BlackboardDefaultMismatch");
    let root = builder.root_region("root");
    let idle = builder.atomic_state("Idle");

    builder.blackboard_key("target_visible", BlackboardValueType::Bool, false, Some(1_i32.into()));
    builder.add_state_to_region(idle, root).set_region_initial(root, idle);

    let report = builder.build().unwrap_err();
    assert!(report.issues.iter().any(|issue| issue.code.as_str() == "blackboard_default_type_mismatch"));
}

#[test]
fn region_initial_state_must_belong_to_region() {
    let mut builder = StateMachineBuilder::new("InitialStateMembership");
    let root = builder.root_region("root");
    let other = builder.root_region("other");
    let idle = builder.atomic_state("Idle");
    let stray = builder.atomic_state("Stray");

    builder
        .add_state_to_region(idle, root)
        .add_state_to_region(stray, other)
        .set_region_initial(root, stray);

    let report = builder.build().unwrap_err();
    assert!(report.issues.iter().any(|issue| issue.code.as_str() == "invalid_initial_state"));
}
