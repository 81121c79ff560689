use saddle_ai_state_machine::builder::stable_hash;
use saddle_ai_state_machine::transitions::{choose_best_candidate, EvaluatedTransition};
use saddle_ai_state_machine::validation::validate_definition;
use saddle_ai_state_machine::{
    AssetRegistrationError, Blackboard, BlackboardError, BlackboardKeyId, BlackboardValue, BlackboardValueType, DebugTraceConfig, SignalId,
    StateId, StateMachineBuilder, StateMachineDefinitionAsset, StateMachineDefinitionId, StateMachineInstance, StateMachineLibrary,
    StateMachineTrace, StateMachineTraceEntry, StateStack, StateStackFrame, TraceKind, TransitionBlockedReason,
    TransitionDefinition, TransitionId, TransitionSource, TransitionTrigger, UtilityPolicy,
};

fn candidate(id: u16, depth: usize, priority: i32, score: i64, order: usize) -> EvaluatedTransition {
    EvaluatedTransition {
        transition_id: TransitionId(id),
        source_depth: depth,
        priority,
        score_micros: score,
        declaration_order: order,
        reason_if_blocked: None,
    }
}

#[test]
fn deeper_source_beats_priority_and_score() {
    let candidates = vec![candidate(0, 1, 100, 900_000, 0), candidate(1, 3, 0, 0, 1), candidate(2, 2, 50, 500_000, 2)];
    assert_eq!(choose_best_candidate(&candidates).unwrap().transition_id, TransitionId(1));
}

#[test]
fn higher_score_wins_when_depth_and_priority_tie() {
    let candidates = vec![candidate(0, 1, 2, 100_000, 0), candidate(1, 1, 2, 700_000, 1)];
    assert_eq!(choose_best_candidate(&candidates).unwrap().transition_id, TransitionId(1));
}

#[test]
fn earliest_declaration_wins_full_tie() {
    let candidates = vec![candidate(5, 1, 0, 0, 7), candidate(3, 1, 0, 0, 2), candidate(9, 1, 0, 0, 4)];
    assert_eq!(choose_best_candidate(&candidates).unwrap().transition_id, TransitionId(3));
}

#[test]
fn arbitration_ignores_listing_order() {
    let a = vec![candidate(0, 1, 0, 0, 0), candidate(1, 2, 1, 0, 1), candidate(2, 2, 1, 5, 2)];
    let b = vec![a[2], a[0], a[1]];
    assert_eq!(choose_best_candidate(&a), choose_best_candidate(&b));
    assert_eq!(choose_best_candidate(&a).unwrap().transition_id, TransitionId(2));
}

#[test]
fn no_candidates_no_winner() {
    assert_eq!(choose_best_candidate(&Vec::new()), None);
}

#[test]
fn unknown_key_is_reported() {
    let mut blackboard = Blackboard::with_capacity(1);
    assert_eq!(blackboard.get(BlackboardKeyId(3)).unwrap_err(), BlackboardError::UnknownKey(BlackboardKeyId(3)));
    assert_eq!(blackboard.set(BlackboardKeyId(3), true).unwrap_err(), BlackboardError::UnknownKey(BlackboardKeyId(3)));
}

#[test]
fn equal_write_keeps_revision() {
    let key = BlackboardKeyId(0);
    let mut blackboard = Blackboard::with_capacity(1);
    blackboard.set(key, 5_i32).unwrap();
    let revision = blackboard.revision;
    blackboard.set(key, 5_i32).unwrap();
    assert_eq!(blackboard.revision, revision);
    blackboard.set(key, 6_i32).unwrap();
    assert_eq!(blackboard.revision, revision + 1);
    assert_eq!(blackboard.dirty_keys, vec![key]);
}

#[test]
fn read_after_write_returns_written_value() {
    let key = BlackboardKeyId(1);
    let mut blackboard = Blackboard::with_capacity(2);
    blackboard.set_value(key, BlackboardValue::Vec2(1.5_f32.to_bits(), 2.0_f32.to_bits())).unwrap();
    assert_eq!(blackboard.get_vec2(key).unwrap(), Some((1.5_f32.to_bits(), 2.0_f32.to_bits())));
    assert_eq!(blackboard.declared_type(key).unwrap(), None);
    assert_eq!(blackboard.get(key).unwrap().map(|v| v.value_type()), Some(BlackboardValueType::Vec2));
}

#[test]
fn zero_capacity_trace_records_nothing() {
    let mut trace = StateMachineTrace::new(DebugTraceConfig { capacity: 0, record_blocked: true });
    trace.push(StateMachineTraceEntry { frame_revision: 1, runtime_revision: 1, kind: TraceKind::ExitedState(StateId(0)) });
    assert!(trace.entries.is_empty());
}

#[test]
fn pop_on_empty_stack_gives_nothing() {
    let mut stack = StateStack::new(3);
    assert_eq!(stack.pop(), None);
    assert!(stack.push(StateStackFrame::default()));
    assert!(stack.pop().is_some());
    assert!(stack.is_empty());
}

#[test]
fn clearing_a_queued_signal_keeps_the_others() {
    let mut instance = StateMachineInstance::new(StateMachineDefinitionId(1));
    instance.queue_signal(SignalId(1));
    instance.queue_signal(SignalId(2));
    instance.queue_signal(SignalId(3));
    assert!(instance.clear_signal(SignalId(2)));
    assert_eq!(instance.pending_signals, vec![SignalId(1), SignalId(3)]);
    assert!(!instance.clear_signal(SignalId(2)));
}

#[test]
fn duplicate_registration_is_refused_with_message() {
    let mut builder = StateMachineBuilder::new("dup");
    let root = builder.root_region("root");
    let idle = builder.atomic_state("Idle");
    builder.add_state_to_region(idle, root).set_region_initial(root, idle);
    let definition = builder.build().unwrap();
    let mut library = StateMachineLibrary::default();
    let id = library.register(definition.clone()).unwrap();
    let error = library.register(definition).unwrap_err();
    assert_eq!(error, format!("state machine definition id {:?} already registered", id));
    assert_eq!(library.definitions.len(), 1);
    assert_eq!(library.definition(id).unwrap().name, "dup");
}

#[test]
fn definition_id_defaults_to_name_hash() {
    let mut builder = StateMachineBuilder::new("basic");
    let root = builder.root_region("root");
    let idle = builder.atomic_state("Idle");
    builder.add_state_to_region(idle, root).set_region_initial(root, idle);
    let definition = builder.build().unwrap();
    assert_eq!(definition.id, StateMachineDefinitionId(0xd6e85e826dfb20bd));
    assert_eq!(stable_hash("basic"), 0xd6e85e826dfb20bd);
    assert_eq!(stable_hash(""), 0xcbf29ce484222325);
}

#[test]
fn utility_threshold_in_millionths() {
    assert_eq!(UtilityPolicy::BestScoreAbove { minimum_score_milli: 500 }.minimum_score_micros(), 500_000);
    assert_eq!(UtilityPolicy::BestScore.minimum_score_micros(), 0);
}

#[test]
fn delayed_trigger_on_any_state_is_rejected() {
    let mut builder = StateMachineBuilder::new("after_any");
    let root = builder.root_region("root");
    let idle = builder.atomic_state("Idle");
    builder
        .add_state_to_region(idle, root)
        .set_region_initial(root, idle)
        .add_transition(
            TransitionDefinition::replace(TransitionSource::AnyState, idle).with_trigger(TransitionTrigger::AfterSeconds(100)),
        );
    let report = builder.build().unwrap_err();
    assert!(report.issues.iter().any(|issue| issue.code.as_str() == "after_on_any_state"));
    assert!(report.has_errors());
}

#[test]
fn transient_cycle_is_rejected() {
    let mut builder = StateMachineBuilder::new("transient_loop");
    let root = builder.root_region("root");
    let a = builder.transient_state("A");
    let b = builder.transient_state("B");
    builder
        .add_state_to_region(a, root)
        .add_state_to_region(b, root)
        .set_region_initial(root, a)
        .add_transition(TransitionDefinition::replace(a, b))
        .add_transition(TransitionDefinition::replace(b, a));
    let report = builder.build().unwrap_err();
    assert!(report.issues.iter().any(|issue| issue.code.as_str() == "transient_cycle"));
}

#[test]
fn blocked_reason_values_are_distinct() {
    assert_ne!(TransitionBlockedReason::PendingExit, TransitionBlockedReason::ExitNotReady);
    assert_eq!(BlackboardValue::from(true).value_type(), BlackboardValueType::Bool);
}

#[test]
fn asset_registration_validates_first() {
    let mut builder = StateMachineBuilder::new("asset");
    let root = builder.root_region("root");
    let idle = builder.atomic_state("Idle");
    builder.add_state_to_region(idle, root).set_region_initial(root, idle);
    let definition = builder.build().unwrap();

    let mut broken = definition.clone();
    broken.root_regions.clear();
    let expected = validate_definition(&broken);
    assert!(expected.has_errors());
    let mut library = StateMachineLibrary::default();
    match StateMachineDefinitionAsset::from(broken).register(&mut library) {
        Err(AssetRegistrationError::Invalid(report)) => {
            assert_eq!(report.issues.len(), expected.issues.len());
            for (got, want) in report.issues.iter().zip(expected.issues.iter()) {
                assert_eq!(got.message, want.message);
                assert_eq!(got.code, want.code);
            }
        },
        other => panic!("expected a validation failure, got {:?}", other),
    }
    assert!(library.definitions.is_empty());

    let asset = StateMachineDefinitionAsset::from(definition);
    let id = asset.register(&mut library).unwrap();
    assert_eq!(library.definition(id).unwrap().name, "asset");
    assert!(matches!(asset.register(&mut library), Err(AssetRegistrationError::DuplicateId(_))));
    assert_eq!(library.definitions.len(), 1);
}
