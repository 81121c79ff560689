use saddle_ai_state_machine::evaluating::{carry_guards, evaluate_instance, track_guards, CallbackResults};
use saddle_ai_state_machine::executing::StepOutcome;
use saddle_ai_state_machine::lifecycle::{intake_instance, prepare_instance, should_evaluate_instance};
use saddle_ai_state_machine::scheduling::{advance_instance_timers, update_order};
use saddle_ai_state_machine::stepping::{
    abort_execution, chained_transition, execute_step, ready_transition, record_evaluation, step_actions,
    step_within_budget,
};
use saddle_ai_state_machine::{
    ActionId, Blackboard, BlackboardValue, BlackboardValueType, GuardId, HistoryMode, InstanceBlackboardOverride,
    RegionId, ScorerId, SignalId, StateMachineBuilder, StateMachineDefinition, StateMachineEvaluationMode,
    PendingTransition, StateMachineInstance, StateMachineInstanceConfig, StateMachineLibrary, TraceKind,
    TransitionBlockedReason, TransitionDefinition, TransitionId, TransitionMode, TransitionSource, TransitionTrigger,
    UtilityPolicy,
};

const GUARD_GO: GuardId = GuardId(1);
const GUARD_ALT: GuardId = GuardId(2);
const GUARD_ENTER: GuardId = GuardId(3);
const GUARD_EXIT: GuardId = GuardId(4);
const GUARD_INTERRUPT: GuardId = GuardId(5);
const GUARD_SWAP: GuardId = GuardId(6);
const SCORE_LOW: ScorerId = ScorerId(1);
const SCORE_HIGH: ScorerId = ScorerId(2);
const ACTION_EXIT_IDLE: ActionId = ActionId(1);
const ACTION_TRANSITION: ActionId = ActionId(2);
const ACTION_ENTER_MOVE: ActionId = ActionId(3);

/// One frame lasts 100 ms.
const FRAME_MICROS: u64 = 100_000;

/// A machine driven through the runtime pipeline frame by frame, with guards
/// and scorers that read the blackboard and actions that append to a log.
struct Harness {
    definition: StateMachineDefinition,
    instance: StateMachineInstance,
    blackboard: Blackboard,
    log: Vec<String>,
    inbox: Vec<SignalId>,
    blocked: Vec<(TransitionId, TransitionBlockedReason)>,
}

impl Harness {
    fn new(definition: StateMachineDefinition, config: StateMachineInstanceConfig) -> Harness {
        let mut library = StateMachineLibrary::default();
        let id = library.register(definition.clone()).unwrap();
        let blackboard = Blackboard::from_schema(&definition.blackboard_schema);
        Harness {
            definition,
            instance: StateMachineInstance::new(id).with_config(config),
            blackboard,
            log: Vec::new(),
            inbox: Vec::new(),
            blocked: Vec::new(),
        }
    }

    fn spawn(definition: StateMachineDefinition) -> Harness {
        Harness::new(definition, StateMachineInstanceConfig::default())
    }

    fn read_bool(&self, name: &str) -> bool {
        let key = self.definition.find_blackboard_key(name).unwrap();
        self.blackboard.get_bool(key).unwrap().unwrap_or(false)
    }

    fn guard(&self, id: GuardId) -> bool {
        match id {
            GUARD_GO => self.read_bool("go"),
            GUARD_ALT => self.read_bool("alt"),
            GUARD_ENTER => self.read_bool("enter"),
            GUARD_EXIT => self.read_bool("exit"),
            GUARD_INTERRUPT => self.read_bool("interrupt"),
            GUARD_SWAP => self.read_bool("swap"),
            _ => true,
        }
    }

    fn score(&self, id: ScorerId) -> i64 {
        let name = match id {
            SCORE_LOW => "low",
            SCORE_HIGH => "high",
            _ => return 0,
        };
        let key = self.definition.find_blackboard_key(name).unwrap();
        let value = self.blackboard.get_f32_bits(key).unwrap().map(f32::from_bits).unwrap_or(0.0);
        (value as f64 * 1_000_000.0).round() as i64
    }

    fn run_action(&mut self, id: ActionId) {
        let name = match id {
            ACTION_EXIT_IDLE => "exit_idle",
            ACTION_TRANSITION => "transition",
            ACTION_ENTER_MOVE => "enter_move",
            _ => return,
        };
        self.log.push(name.to_string());
    }

    fn callback_results(&self) -> Vec<CallbackResults> {
        self.definition
            .transitions
            .iter()
            .map(|transition| CallbackResults {
                guard_passed: transition.guard.map(|guard| self.guard(guard)).unwrap_or(true),
                score_micros: transition.scorer.map(|scorer| self.score(scorer)).unwrap_or(0),
                exit_guards_passed: self
                    .definition
                    .states
                    .iter()
                    .map(|state| state.exit_guard.map(|guard| self.guard(guard)).unwrap_or(true))
                    .collect(),
            })
            .collect()
    }

    fn update(&mut self) {
        for signal in std::mem::take(&mut self.inbox) {
            self.instance.queue_signal(signal);
        }
        if self.instance.is_active() {
            intake_instance(&self.definition, &mut self.instance, &mut self.blackboard);
        }

        advance_instance_timers(&mut self.instance, FRAME_MICROS);

        if self.instance.is_active() {
            prepare_instance(&self.definition, &mut self.instance, &mut self.blackboard);
            if should_evaluate_instance(&self.instance, &self.blackboard) {
                let results = self.callback_results();
                track_guards(&self.definition, &mut self.instance, &results, FRAME_MICROS);
                let best = evaluate_instance(&self.definition, &self.instance, &results);
                if let Some(blocked) = record_evaluation(&mut self.instance, best, self.blackboard.revision) {
                    self.blocked.push(blocked);
                }
            } else {
                carry_guards(&self.definition, &mut self.instance, FRAME_MICROS);
            }
        }

        self.execute();

        if self.instance.is_active() {
            let order = update_order(&self.definition, &self.instance);
            let mut actions = Vec::new();
            for state_id in order {
                if let Some(state) = self.definition.state(state_id) {
                    actions.extend(state.on_update.iter().copied());
                }
            }
            for action in actions {
                self.run_action(action);
            }
        }
    }

    fn execute(&mut self) {
        let Some(initial) = ready_transition(&self.instance) else {
            return;
        };
        let frame_revision = self.instance.last_blackboard_revision;
        let mut next = Some(initial);
        let mut steps = 0usize;
        while let Some(transition_id) = next.take() {
            if !step_within_budget(&self.instance, steps) {
                abort_execution(&mut self.instance, initial, frame_revision);
                break;
            }
            steps += 1;
            let Some(transition) = self.definition.transition(transition_id).cloned() else {
                break;
            };
            match execute_step(&self.definition, &mut self.instance, &transition, frame_revision) {
                StepOutcome::Rejected(delta) => {
                    let actions = step_actions(&self.definition, &transition, &delta);
                    for action in actions.before_entry {
                        self.run_action(action);
                    }
                    break;
                }
                StepOutcome::Applied(delta) => {
                    let actions = step_actions(&self.definition, &transition, &delta);
                    for action in actions.before_entry.into_iter().chain(actions.on_entry) {
                        self.run_action(action);
                    }
                }
            }
            let results = self.callback_results();
            let candidate = evaluate_instance(&self.definition, &self.instance, &results);
            next = chained_transition(&self.definition, candidate);
        }
    }

    fn run(&mut self, frames: usize) {
        for _ in 0..frames {
            self.update();
        }
    }

    fn set_bool(&mut self, name: &str, value: bool) {
        let key = self.definition.find_blackboard_key(name).unwrap();
        self.blackboard.set(key, value).unwrap();
    }

    fn set_f32(&mut self, name: &str, value: f32) {
        let key = self.definition.find_blackboard_key(name).unwrap();
        self.blackboard.set_value(key, BlackboardValue::F32(value.to_bits())).unwrap();
    }

    fn active_leaf_names(&self) -> Vec<String> {
        self.instance
            .active_leaf_states
            .iter()
            .map(|state_id| self.definition.state(*state_id).unwrap().name.clone())
            .collect()
    }
}

fn simple_builder(name: &str) -> (StateMachineBuilder, RegionId) {
    let mut builder = StateMachineBuilder::new(name);
    for key in ["go", "alt", "enter", "exit", "interrupt", "swap"] {
        builder.blackboard_key(key, BlackboardValueType::Bool, false, Some(false.into()));
    }
    builder.blackboard_key("low", BlackboardValueType::F32, false, Some(BlackboardValue::F32(0.0_f32.to_bits())));
    builder.blackboard_key("high", BlackboardValueType::F32, false, Some(BlackboardValue::F32(0.0_f32.to_bits())));
    let root = builder.root_region("root");
    (builder, root)
}

#[test]
fn basic_transition() {
    let (mut builder, root) = simple_builder("basic_transition");
    let idle = builder.atomic_state("Idle");
    let run = builder.atomic_state("Run");
    builder
        .add_state_to_region(idle, root)
        .add_state_to_region(run, root)
        .set_region_initial(root, idle)
        .add_transition(TransitionDefinition::replace(idle, run).with_guard(GUARD_GO));

    let mut machine = Harness::spawn(builder.build().unwrap());
    machine.run(1);
    assert_eq!(machine.active_leaf_names(), vec!["Idle"]);
    machine.set_bool("go", true);
    machine.run(1);
    assert_eq!(machine.active_leaf_names(), vec!["Run"]);
}

#[test]
fn transition_priority() {
    let (mut builder, root) = simple_builder("transition_priority");
    let idle = builder.atomic_state("Idle");
    let low = builder.atomic_state("Low");
    let high = builder.atomic_state("High");
    builder
        .add_state_to_region(idle, root)
        .add_state_to_region(low, root)
        .add_state_to_region(high, root)
        .set_region_initial(root, idle)
        .add_transition(TransitionDefinition::replace(idle, low).with_guard(GUARD_GO).with_priority(1))
        .add_transition(TransitionDefinition::replace(idle, high).with_guard(GUARD_ALT).with_priority(10));
    let mut machine = Harness::spawn(builder.build().unwrap());
    machine.set_bool("go", true);
    machine.set_bool("alt", true);
    machine.run(1);
    assert_eq!(machine.active_leaf_names(), vec!["High"]);
}

#[test]
fn on_change_evaluation_mode_sleeps_until_input_changes() {
    let (mut builder, root) = simple_builder("event_driven");
    let idle = builder.atomic_state("Idle");
    let run = builder.atomic_state("Run");
    builder
        .add_state_to_region(idle, root)
        .add_state_to_region(run, root)
        .set_region_initial(root, idle)
        .add_transition(TransitionDefinition::replace(idle, run).with_guard(GUARD_GO));

    let config = StateMachineInstanceConfig {
        evaluation_mode: StateMachineEvaluationMode::OnSignalOrBlackboardChange,
        ..Default::default()
    };
    let mut machine = Harness::new(builder.build().unwrap(), config);

    machine.run(1);
    let initial_revision = machine.instance.last_blackboard_revision;

    machine.run(1);
    let second_revision = machine.instance.last_blackboard_revision;
    assert_eq!(second_revision, initial_revision);
    assert_eq!(machine.active_leaf_names(), vec!["Idle"]);

    machine.set_bool("go", true);
    machine.run(1);

    let final_revision = machine.instance.last_blackboard_revision;
    assert!(final_revision > second_revision);
    assert_eq!(machine.active_leaf_names(), vec!["Run"]);
}

#[test]
fn transition_tiebreak_declaration_order() {
    let (mut builder, root) = simple_builder("declaration_order");
    let idle = builder.atomic_state("Idle");
    let first = builder.atomic_state("First");
    let second = builder.atomic_state("Second");
    builder
        .add_state_to_region(idle, root)
        .add_state_to_region(first, root)
        .add_state_to_region(second, root)
        .set_region_initial(root, idle)
        .add_transition(TransitionDefinition::replace(idle, first).with_guard(GUARD_GO))
        .add_transition(TransitionDefinition::replace(idle, second).with_guard(GUARD_GO));
    let mut machine = Harness::spawn(builder.build().unwrap());
    machine.set_bool("go", true);
    machine.run(1);
    assert_eq!(machine.active_leaf_names(), vec!["First"]);
}

#[test]
fn deepest_child_checked_first() {
    let (mut builder, root) = simple_builder("deepest_child");
    let combat = builder.compound_state("Combat");
    let combat_region = builder.region("combat_region", combat);
    let windup = builder.atomic_state("Windup");
    let strike = builder.atomic_state("Strike");
    let recover = builder.atomic_state("Recover");

    builder
        .add_state_to_region(combat, root)
        .add_state_to_region(recover, root)
        .set_region_initial(root, combat)
        .add_state_to_region(windup, combat_region)
        .add_state_to_region(strike, combat_region)
        .set_region_initial(combat_region, windup)
        .add_transition(TransitionDefinition::replace(combat, recover).with_guard(GUARD_ALT))
        .add_transition(TransitionDefinition::replace(windup, strike).with_guard(GUARD_GO));
    let mut machine = Harness::spawn(builder.build().unwrap());
    machine.set_bool("go", true);
    machine.set_bool("alt", true);
    machine.run(1);
    assert_eq!(machine.active_leaf_names(), vec!["Strike"]);
}

#[test]
fn any_state_transition() {
    let (mut builder, root) = simple_builder("any_state");
    let idle = builder.atomic_state("Idle");
    let disabled = builder.atomic_state("Disabled");
    builder
        .add_state_to_region(idle, root)
        .add_state_to_region(disabled, root)
        .set_region_initial(root, idle)
        .add_transition(TransitionDefinition::replace(TransitionSource::AnyState, disabled).with_guard(GUARD_ALT));
    let mut machine = Harness::spawn(builder.build().unwrap());
    machine.set_bool("alt", true);
    machine.run(1);
    assert_eq!(machine.active_leaf_names(), vec!["Disabled"]);
}

#[test]
fn enter_exit_action_order() {
    let (mut builder, root) = simple_builder("action_order");
    let idle = builder.atomic_state("Idle");
    let run = builder.atomic_state("Run");
    builder
        .add_state_to_region(idle, root)
        .add_state_to_region(run, root)
        .set_region_initial(root, idle)
        .add_on_exit(idle, ACTION_EXIT_IDLE)
        .add_on_enter(run, ACTION_ENTER_MOVE)
        .add_transition(TransitionDefinition::replace(idle, run).with_guard(GUARD_GO).with_action(ACTION_TRANSITION));
    let mut machine = Harness::spawn(builder.build().unwrap());
    machine.run(1);
    machine.log.clear();
    machine.set_bool("go", true);
    machine.run(1);
    assert_eq!(machine.log, vec!["exit_idle", "transition", "enter_move"]);
}

#[test]
fn delayed_transition_fires() {
    let (mut builder, root) = simple_builder("delayed");
    let idle = builder.atomic_state("Idle");
    let timed = builder.atomic_state("Timed");
    builder
        .add_state_to_region(idle, root)
        .add_state_to_region(timed, root)
        .set_region_initial(root, idle)
        .add_transition(TransitionDefinition::replace(idle, timed).with_trigger(TransitionTrigger::AfterSeconds(200)));
    let mut machine = Harness::spawn(builder.build().unwrap());
    machine.run(1);
    assert_eq!(machine.active_leaf_names(), vec!["Idle"]);
    machine.run(2);
    assert_eq!(machine.active_leaf_names(), vec!["Timed"]);
}

#[test]
fn delayed_transition_cancels_on_exit() {
    let (mut builder, root) = simple_builder("delay_cancel");
    let idle = builder.atomic_state("Idle");
    let timed = builder.atomic_state("Timed");
    let override_state = builder.atomic_state("Override");
    builder
        .add_state_to_region(idle, root)
        .add_state_to_region(timed, root)
        .add_state_to_region(override_state, root)
        .set_region_initial(root, idle)
        .add_transition(TransitionDefinition::replace(idle, timed).with_trigger(TransitionTrigger::AfterSeconds(400)))
        .add_transition(
            TransitionDefinition::replace(TransitionSource::AnyState, override_state)
                .with_guard(GUARD_ALT)
                .with_priority(10),
        );
    let mut machine = Harness::spawn(builder.build().unwrap());
    machine.run(1);
    machine.set_bool("alt", true);
    machine.run(1);
    machine.run(5);
    assert_eq!(machine.active_leaf_names(), vec!["Override"]);
}

#[test]
fn push_then_pop_resumes() {
    let (mut builder, root) = simple_builder("push_pop");
    let patrol = builder.atomic_state("Patrol");
    let stunned = builder.atomic_state("Stunned");
    builder
        .add_state_to_region(patrol, root)
        .add_state_to_region(stunned, root)
        .set_region_initial(root, patrol)
        .add_transition(TransitionDefinition::push(patrol, stunned).with_guard(GUARD_INTERRUPT))
        .add_transition(TransitionDefinition::pop(stunned).with_trigger(TransitionTrigger::AfterSeconds(200)));
    let mut machine = Harness::spawn(builder.build().unwrap());
    machine.run(1);
    machine.set_bool("interrupt", true);
    machine.run(1);
    assert_eq!(machine.active_leaf_names(), vec!["Stunned"]);
    machine.set_bool("interrupt", false);
    machine.run(2);
    assert_eq!(machine.active_leaf_names(), vec!["Patrol"]);
}

#[test]
fn shallow_history_restores_last_child() {
    let (mut builder, root) = simple_builder("shallow_history");
    let idle = builder.atomic_state("Idle");
    let combat = builder.compound_state("Combat");
    let combat_region = builder.region("combat_region", combat);
    let melee = builder.atomic_state("Melee");
    let ranged = builder.atomic_state("Ranged");
    builder
        .add_state_to_region(idle, root)
        .add_state_to_region(combat, root)
        .set_region_initial(root, idle)
        .add_state_to_region(melee, combat_region)
        .add_state_to_region(ranged, combat_region)
        .set_region_initial(combat_region, melee)
        .set_state_history_mode(combat, HistoryMode::Shallow)
        .add_transition(TransitionDefinition::replace(idle, combat).with_guard(GUARD_ENTER))
        .add_transition(TransitionDefinition::replace(melee, ranged).with_guard(GUARD_SWAP))
        .add_transition(
            TransitionDefinition::replace(TransitionSource::AnyState, idle).with_guard(GUARD_EXIT).with_priority(10),
        );

    let mut machine = Harness::spawn(builder.build().unwrap());
    machine.set_bool("enter", true);
    machine.run(1);
    assert_eq!(machine.active_leaf_names(), vec!["Melee"]);
    machine.set_bool("swap", true);
    machine.run(1);
    assert_eq!(machine.active_leaf_names(), vec!["Ranged"]);
    machine.set_bool("swap", false);
    machine.set_bool("enter", false);
    machine.set_bool("exit", true);
    machine.run(1);
    assert_eq!(machine.active_leaf_names(), vec!["Idle"]);
    machine.set_bool("exit", false);
    machine.set_bool("enter", true);
    machine.run(1);
    assert_eq!(machine.active_leaf_names(), vec!["Ranged"]);
}

#[test]
fn deep_history_restores_subtree() {
    let (mut builder, root) = simple_builder("deep_history");
    let idle = builder.atomic_state("Idle");
    let combat = builder.compound_state("Combat");
    let combat_region = builder.region("combat_region", combat);
    let phase = builder.compound_state("Phase");
    let phase_region = builder.region("phase_region", phase);
    let a = builder.atomic_state("A");
    let b = builder.atomic_state("B");
    builder
        .add_state_to_region(idle, root)
        .add_state_to_region(combat, root)
        .set_region_initial(root, idle)
        .add_state_to_region(phase, combat_region)
        .set_region_initial(combat_region, phase)
        .add_state_to_region(a, phase_region)
        .add_state_to_region(b, phase_region)
        .set_region_initial(phase_region, a)
        .set_state_history_mode(combat, HistoryMode::Deep)
        .add_transition(TransitionDefinition::replace(idle, combat).with_guard(GUARD_ENTER))
        .add_transition(TransitionDefinition::replace(a, b).with_guard(GUARD_SWAP))
        .add_transition(
            TransitionDefinition::replace(TransitionSource::AnyState, idle).with_guard(GUARD_EXIT).with_priority(10),
        );

    let mut machine = Harness::spawn(builder.build().unwrap());
    machine.set_bool("enter", true);
    machine.run(1);
    machine.set_bool("swap", true);
    machine.run(1);
    assert_eq!(machine.active_leaf_names(), vec!["B"]);
    machine.set_bool("swap", false);
    machine.set_bool("enter", false);
    machine.set_bool("exit", true);
    machine.run(1);
    machine.set_bool("exit", false);
    machine.set_bool("enter", true);
    machine.run(1);
    assert_eq!(machine.active_leaf_names(), vec!["B"]);
}

#[test]
fn orthogonal_regions_activate_together() {
    let (mut builder, root) = simple_builder("parallel_activate");
    let controller = builder.parallel_state("Controller");
    let locomotion = builder.region("locomotion", controller);
    let action = builder.region("action", controller);
    let grounded = builder.atomic_state("Grounded");
    let idle_action = builder.atomic_state("IdleAction");
    builder
        .add_state_to_region(controller, root)
        .set_region_initial(root, controller)
        .add_state_to_region(grounded, locomotion)
        .set_region_initial(locomotion, grounded)
        .add_state_to_region(idle_action, action)
        .set_region_initial(action, idle_action);
    let mut machine = Harness::spawn(builder.build().unwrap());
    machine.run(1);
    assert_eq!(machine.active_leaf_names(), vec!["Grounded", "IdleAction"]);
}

#[test]
fn orthogonal_region_done() {
    let (mut builder, root) = simple_builder("parallel_done");
    let controller = builder.parallel_state("Controller");
    let complete = builder.atomic_state("Complete");
    let task = builder.region("task", controller);
    let alert = builder.region("alert", controller);
    let a = builder.atomic_state("TaskA");
    let a_done = builder.final_state("TaskDone");
    let b = builder.atomic_state("AlertA");
    let b_done = builder.final_state("AlertDone");
    builder
        .add_state_to_region(controller, root)
        .add_state_to_region(complete, root)
        .set_region_initial(root, controller)
        .add_state_to_region(a, task)
        .add_state_to_region(a_done, task)
        .set_region_initial(task, a)
        .add_state_to_region(b, alert)
        .add_state_to_region(b_done, alert)
        .set_region_initial(alert, b)
        .add_transition(TransitionDefinition::replace(a, a_done).with_guard(GUARD_GO))
        .add_transition(TransitionDefinition::replace(b, b_done).with_guard(GUARD_ALT))
        .add_transition(TransitionDefinition::replace(controller, complete).with_trigger(TransitionTrigger::Done));
    let mut machine = Harness::spawn(builder.build().unwrap());
    machine.set_bool("go", true);
    machine.set_bool("alt", true);
    machine.run(3);
    assert_eq!(machine.active_leaf_names(), vec!["Complete"]);
}

#[test]
fn utility_best_score_wins() {
    let (mut builder, root) = simple_builder("utility_best");
    let idle = builder.atomic_state("Idle");
    let low = builder.atomic_state("Low");
    let high = builder.atomic_state("High");
    builder
        .add_state_to_region(idle, root)
        .add_state_to_region(low, root)
        .add_state_to_region(high, root)
        .set_region_initial(root, idle)
        .add_transition(TransitionDefinition::replace(idle, low).with_scorer(SCORE_LOW, UtilityPolicy::BestScore))
        .add_transition(TransitionDefinition::replace(idle, high).with_scorer(SCORE_HIGH, UtilityPolicy::BestScore));
    let mut machine = Harness::spawn(builder.build().unwrap());
    machine.set_f32("low", 0.2);
    machine.set_f32("high", 0.8);
    machine.run(1);
    assert_eq!(machine.active_leaf_names(), vec!["High"]);
}

#[test]
fn utility_threshold_blocks() {
    let (mut builder, root) = simple_builder("utility_threshold");
    let idle = builder.atomic_state("Idle");
    let high = builder.atomic_state("High");
    builder
        .add_state_to_region(idle, root)
        .add_state_to_region(high, root)
        .set_region_initial(root, idle)
        .add_transition(
            TransitionDefinition::replace(idle, high)
                .with_scorer(SCORE_HIGH, UtilityPolicy::BestScoreAbove { minimum_score_milli: 500 }),
        );
    let mut machine = Harness::spawn(builder.build().unwrap());
    machine.set_f32("high", 0.2);
    machine.run(1);
    assert_eq!(machine.active_leaf_names(), vec!["Idle"]);
}

#[test]
fn transition_cooldown_blocks_refire_until_elapsed() {
    let (mut builder, root) = simple_builder("cooldown");
    let a = builder.atomic_state("A");
    let b = builder.atomic_state("B");
    builder
        .add_state_to_region(a, root)
        .add_state_to_region(b, root)
        .set_region_initial(root, a)
        .add_transition(TransitionDefinition::replace(a, b).with_guard(GUARD_GO).with_cooldown_micros(300_000))
        .add_transition(TransitionDefinition::replace(b, a).with_guard(GUARD_ALT));
    let mut machine = Harness::spawn(builder.build().unwrap());
    machine.set_bool("go", true);
    machine.run(1);
    assert_eq!(machine.active_leaf_names(), vec!["B"]);
    machine.set_bool("go", false);
    machine.set_bool("alt", true);
    machine.run(1);
    assert_eq!(machine.active_leaf_names(), vec!["A"]);
    machine.set_bool("alt", false);
    machine.set_bool("go", true);
    machine.run(1);
    assert_eq!(machine.active_leaf_names(), vec!["A"]);
    machine.run(3);
    assert_eq!(machine.active_leaf_names(), vec!["B"]);
}

#[test]
fn transient_chain_terminates() {
    let (mut builder, root) = simple_builder("transient_chain");
    let idle = builder.atomic_state("Idle");
    let handoff = builder.transient_state("Handoff");
    let final_state = builder.atomic_state("Final");
    builder
        .add_state_to_region(idle, root)
        .add_state_to_region(handoff, root)
        .add_state_to_region(final_state, root)
        .set_region_initial(root, idle)
        .add_transition(TransitionDefinition::replace(idle, handoff).with_guard(GUARD_GO))
        .add_transition(TransitionDefinition::replace(handoff, final_state));
    let mut machine = Harness::spawn(builder.build().unwrap());
    machine.set_bool("go", true);
    machine.run(1);
    assert_eq!(machine.active_leaf_names(), vec!["Final"]);
}

#[test]
fn transient_trace_records_each_state_once() {
    let (mut builder, root) = simple_builder("transient_trace");
    let idle = builder.atomic_state("Idle");
    let handoff = builder.transient_state("Handoff");
    let final_state = builder.atomic_state("Final");
    builder
        .add_state_to_region(idle, root)
        .add_state_to_region(handoff, root)
        .add_state_to_region(final_state, root)
        .set_region_initial(root, idle)
        .add_transition(TransitionDefinition::replace(idle, handoff).with_guard(GUARD_GO))
        .add_transition(TransitionDefinition::replace(handoff, final_state));

    let mut machine = Harness::spawn(builder.build().unwrap());
    machine.set_bool("go", true);
    machine.run(1);

    let entered_handoff = machine
        .instance
        .trace
        .entries
        .iter()
        .filter(|entry| matches!(entry.kind, TraceKind::EnteredState(state) if state == handoff))
        .count();
    let exited_handoff = machine
        .instance
        .trace
        .entries
        .iter()
        .filter(|entry| matches!(entry.kind, TraceKind::ExitedState(state) if state == handoff))
        .count();

    assert_eq!(entered_handoff, 1);
    assert_eq!(exited_handoff, 1);
    assert_eq!(machine.active_leaf_names(), vec!["Final"]);
}

#[test]
fn parallel_parent_timer_ticks_once_per_frame() {
    let (mut builder, root) = simple_builder("parallel_timer");
    let controller = builder.parallel_state("Controller");
    let locomotion = builder.region("locomotion", controller);
    let action = builder.region("action", controller);
    let grounded = builder.atomic_state("Grounded");
    let idle_action = builder.atomic_state("IdleAction");
    builder
        .add_state_to_region(controller, root)
        .set_region_initial(root, controller)
        .add_state_to_region(grounded, locomotion)
        .set_region_initial(locomotion, grounded)
        .add_state_to_region(idle_action, action)
        .set_region_initial(action, idle_action);

    let mut machine = Harness::spawn(builder.build().unwrap());
    machine.run(2);

    assert_eq!(machine.instance.state_elapsed_micros[controller.0 as usize], 100_000);
}

#[test]
fn push_transition_blocked_when_stack_is_full() {
    let (mut builder, root) = simple_builder("push_blocked");
    let patrol = builder.atomic_state("Patrol");
    let stunned = builder.atomic_state("Stunned");
    builder
        .add_state_to_region(patrol, root)
        .add_state_to_region(stunned, root)
        .set_region_initial(root, patrol)
        .add_transition(TransitionDefinition::push(patrol, stunned).with_guard(GUARD_INTERRUPT));

    let config = StateMachineInstanceConfig { max_stack_depth: 0, ..Default::default() };
    let mut machine = Harness::new(builder.build().unwrap(), config);

    machine.run(1);
    machine.set_bool("interrupt", true);
    machine.run(1);

    assert!(machine.blocked.iter().any(|(_, reason)| *reason == TransitionBlockedReason::StackOverflow));
    assert_eq!(machine.active_leaf_names(), vec!["Patrol"]);
}

#[test]
fn signal_transition_consumes_queued_signal() {
    let (mut builder, root) = simple_builder("signal_transition");
    let patrol = builder.atomic_state("Patrol");
    let alert = builder.atomic_state("Alert");
    let signal = SignalId(1);
    builder
        .add_state_to_region(patrol, root)
        .add_state_to_region(alert, root)
        .set_region_initial(root, patrol)
        .add_transition(TransitionDefinition::replace(patrol, alert).with_signal(signal));

    let mut machine = Harness::spawn(builder.build().unwrap());
    machine.run(1);
    machine.instance.queue_signal(signal);
    machine.run(1);

    assert_eq!(machine.active_leaf_names(), vec!["Alert"]);
    assert!(!machine.instance.has_signal(signal));
}

#[test]
fn signal_message_queues_signal_during_intake() {
    let (mut builder, root) = simple_builder("signal_message");
    let patrol = builder.atomic_state("Patrol");
    let alert = builder.atomic_state("Alert");
    let signal = SignalId(9);
    builder
        .add_state_to_region(patrol, root)
        .add_state_to_region(alert, root)
        .set_region_initial(root, patrol)
        .add_transition(TransitionDefinition::replace(patrol, alert).with_signal(signal));

    let mut machine = Harness::spawn(builder.build().unwrap());
    machine.run(1);
    machine.inbox.push(signal);
    machine.run(1);

    assert_eq!(machine.active_leaf_names(), vec!["Alert"]);
    assert!(!machine.instance.has_signal(signal));
}

#[test]
fn blackboard_overrides_apply_before_first_transition_evaluation() {
    let mut builder = StateMachineBuilder::new("blackboard_override");
    let go = builder.blackboard_key("go", BlackboardValueType::Bool, false, Some(false.into()));
    let root = builder.root_region("root");
    let idle = builder.atomic_state("Idle");
    let run = builder.atomic_state("Run");
    builder
        .add_state_to_region(idle, root)
        .add_state_to_region(run, root)
        .set_region_initial(root, idle)
        .add_transition(TransitionDefinition::replace(idle, run).with_guard(GUARD_GO));

    let config = StateMachineInstanceConfig {
        blackboard_overrides: vec![InstanceBlackboardOverride { key: go, value: BlackboardValue::Bool(true) }],
        ..Default::default()
    };
    let mut machine = Harness::new(builder.build().unwrap(), config);

    machine.run(1);

    assert_eq!(machine.blackboard.get_bool(go).unwrap(), Some(true));
    assert_eq!(machine.active_leaf_names(), vec!["Run"]);
}

#[test]
fn pop_on_empty_stack_is_blocked() {
    let (mut builder, root) = simple_builder("pop_empty");
    let patrol = builder.atomic_state("Patrol");
    builder
        .add_state_to_region(patrol, root)
        .set_region_initial(root, patrol)
        .add_transition(TransitionDefinition::pop(patrol).with_guard(GUARD_GO));

    let mut machine = Harness::spawn(builder.build().unwrap());
    machine.run(1);
    machine.set_bool("go", true);
    machine.run(1);

    assert!(machine.blocked.iter().any(|(_, reason)| *reason == TransitionBlockedReason::StackEmpty));
    assert_eq!(machine.active_leaf_names(), vec!["Patrol"]);
    assert!(machine.instance.stack.is_empty());
}

#[test]
fn pending_transition_waits_for_exit_guard() {
    let (mut builder, root) = simple_builder("pending_exit");
    let patrol = builder.atomic_state("Patrol");
    let alert = builder.atomic_state("Alert");
    let transition = TransitionId(0);
    builder
        .add_state_to_region(patrol, root)
        .add_state_to_region(alert, root)
        .set_region_initial(root, patrol)
        .set_state_exit_guard(patrol, GUARD_EXIT)
        .add_transition(
            TransitionDefinition::replace(patrol, alert).with_guard(GUARD_GO).with_mode(TransitionMode::Pending),
        );

    let mut machine = Harness::spawn(builder.build().unwrap());
    machine.run(1);
    machine.set_bool("go", true);
    machine.run(1);

    assert_eq!(machine.active_leaf_names(), vec!["Patrol"]);
    assert!(matches!(
        machine.instance.pending_transition,
        Some(PendingTransition::Waiting { transition_id, reason: TransitionBlockedReason::PendingExit, .. })
            if transition_id == transition
    ));
    assert!(!machine.blocked.iter().any(|(_, reason)| *reason == TransitionBlockedReason::PendingExit));
    let pending_entries = machine
        .instance
        .trace
        .entries
        .iter()
        .filter(|entry| entry.kind == TraceKind::PendingTransition(transition))
        .count();
    assert_eq!(pending_entries, 1);

    machine.run(1);
    let pending_entries = machine
        .instance
        .trace
        .entries
        .iter()
        .filter(|entry| entry.kind == TraceKind::PendingTransition(transition))
        .count();
    assert_eq!(pending_entries, 1);

    machine.set_bool("exit", true);
    machine.run(1);
    assert_eq!(machine.active_leaf_names(), vec!["Alert"]);
}

#[test]
fn internal_step_limit_stops_a_transient_chain() {
    let (mut builder, root) = simple_builder("step_limit");
    let idle = builder.atomic_state("Idle");
    let handoff = builder.transient_state("Handoff");
    let final_state = builder.atomic_state("Final");
    let first = TransitionId(0);
    builder
        .add_state_to_region(idle, root)
        .add_state_to_region(handoff, root)
        .add_state_to_region(final_state, root)
        .set_region_initial(root, idle)
        .add_transition(TransitionDefinition::replace(idle, handoff).with_guard(GUARD_GO))
        .add_transition(TransitionDefinition::replace(handoff, final_state));

    let config = StateMachineInstanceConfig { max_internal_steps: 1, ..Default::default() };
    let mut machine = Harness::new(builder.build().unwrap(), config);
    machine.set_bool("go", true);
    machine.run(1);

    assert_eq!(machine.active_leaf_names(), vec!["Handoff"]);
    assert!(machine.instance.pending_transition.is_none());
    assert!(machine.instance.trace.entries.iter().any(|entry| entry.kind
        == TraceKind::BlockedTransition {
            transition_id: first,
            reason: TransitionBlockedReason::MaxInternalStepsReached,
        }));
}

#[test]
fn debounced_transition_fires_once_guard_held_long_enough() {
    let (mut builder, root) = simple_builder("debounce");
    let patrol = builder.atomic_state("Patrol");
    let alert = builder.atomic_state("Alert");
    builder
        .add_state_to_region(patrol, root)
        .add_state_to_region(alert, root)
        .set_region_initial(root, patrol)
        .add_transition(TransitionDefinition::replace(patrol, alert).with_guard(GUARD_GO).with_debounce_micros(250_000));

    let mut machine = Harness::spawn(builder.build().unwrap());
    machine.set_bool("go", true);
    machine.run(1);
    assert_eq!(machine.instance.guard_true_for_micros[0], 100_000);
    machine.set_bool("go", false);
    machine.run(1);
    assert_eq!(machine.instance.guard_true_for_micros[0], 0);
    machine.set_bool("go", true);
    machine.run(2);
    assert_eq!(machine.active_leaf_names(), vec!["Patrol"]);
    assert!(machine.blocked.iter().any(|(_, reason)| *reason == TransitionBlockedReason::DebounceActive));
    machine.run(1);
    assert_eq!(machine.active_leaf_names(), vec!["Alert"]);
}

#[test]
fn reentered_state_restarts_its_timer() {
    let (mut builder, root) = simple_builder("timer_restart");
    let patrol = builder.atomic_state("Patrol");
    let alert = builder.atomic_state("Alert");
    builder
        .add_state_to_region(patrol, root)
        .add_state_to_region(alert, root)
        .set_region_initial(root, patrol)
        .add_transition(TransitionDefinition::replace(patrol, alert).with_guard(GUARD_GO))
        .add_transition(TransitionDefinition::replace(alert, patrol).with_guard(GUARD_ALT));

    let mut machine = Harness::spawn(builder.build().unwrap());
    machine.run(3);
    assert!(machine.instance.state_elapsed_micros[patrol.0 as usize] > 0);
    machine.set_bool("go", true);
    machine.run(1);
    assert_eq!(machine.active_leaf_names(), vec!["Alert"]);
    machine.set_bool("go", false);
    machine.set_bool("alt", true);
    machine.run(1);
    assert_eq!(machine.active_leaf_names(), vec!["Patrol"]);
    assert_eq!(machine.instance.state_elapsed_micros[patrol.0 as usize], 0);
}

#[test]
fn shallow_history_restores_compound_child() {
    let (mut builder, root) = simple_builder("shallow_compound");
    let idle = builder.atomic_state("Idle");
    let combat = builder.compound_state("Combat");
    let combat_region = builder.region("combat_region", combat);
    let p2 = builder.atomic_state("P2");
    let p1 = builder.compound_state("P1");
    let p1_region = builder.region("p1_region", p1);
    let a = builder.atomic_state("A");
    builder
        .add_state_to_region(idle, root)
        .add_state_to_region(combat, root)
        .set_region_initial(root, idle)
        .add_state_to_region(p2, combat_region)
        .add_state_to_region(p1, combat_region)
        .set_region_initial(combat_region, p2)
        .add_state_to_region(a, p1_region)
        .set_region_initial(p1_region, a)
        .set_state_history_mode(combat, HistoryMode::Shallow)
        .add_transition(TransitionDefinition::replace(idle, combat).with_guard(GUARD_ENTER))
        .add_transition(TransitionDefinition::replace(p2, p1).with_guard(GUARD_SWAP))
        .add_transition(
            TransitionDefinition::replace(TransitionSource::AnyState, idle).with_guard(GUARD_EXIT).with_priority(10),
        );

    let mut machine = Harness::spawn(builder.build().unwrap());
    machine.set_bool("enter", true);
    machine.run(1);
    assert_eq!(machine.active_leaf_names(), vec!["P2"]);
    machine.set_bool("swap", true);
    machine.run(1);
    assert_eq!(machine.active_leaf_names(), vec!["A"]);
    machine.set_bool("swap", false);
    machine.set_bool("enter", false);
    machine.set_bool("exit", true);
    machine.run(1);
    assert_eq!(machine.active_leaf_names(), vec!["Idle"]);
    machine.set_bool("exit", false);
    machine.set_bool("enter", true);
    machine.run(1);
    assert_eq!(machine.active_leaf_names(), vec!["A"]);
}

#[test]
fn deep_history_restores_every_parallel_leaf() {
    let (mut builder, root) = simple_builder("deep_parallel");
    let idle = builder.atomic_state("Idle");
    let combat = builder.compound_state("Combat");
    let combat_region = builder.region("combat_region", combat);
    let split = builder.parallel_state("Split");
    let r1 = builder.region("r1", split);
    let r2 = builder.region("r2", split);
    let x0 = builder.atomic_state("X0");
    let x = builder.atomic_state("X");
    let y0 = builder.atomic_state("Y0");
    let y = builder.atomic_state("Y");
    builder
        .add_state_to_region(idle, root)
        .add_state_to_region(combat, root)
        .set_region_initial(root, idle)
        .add_state_to_region(split, combat_region)
        .set_region_initial(combat_region, split)
        .add_state_to_region(x0, r1)
        .add_state_to_region(x, r1)
        .set_region_initial(r1, x0)
        .add_state_to_region(y0, r2)
        .add_state_to_region(y, r2)
        .set_region_initial(r2, y0)
        .set_state_history_mode(combat, HistoryMode::Deep)
        .add_transition(TransitionDefinition::replace(idle, combat).with_guard(GUARD_ENTER))
        .add_transition(TransitionDefinition::replace(x0, x).with_guard(GUARD_SWAP))
        .add_transition(TransitionDefinition::replace(y0, y).with_guard(GUARD_SWAP))
        .add_transition(
            TransitionDefinition::replace(TransitionSource::AnyState, idle).with_guard(GUARD_EXIT).with_priority(10),
        );

    let mut machine = Harness::spawn(builder.build().unwrap());
    machine.set_bool("enter", true);
    machine.run(1);
    assert_eq!(machine.active_leaf_names(), vec!["X0", "Y0"]);
    machine.set_bool("swap", true);
    machine.run(2);
    assert_eq!(machine.active_leaf_names(), vec!["X", "Y"]);
    machine.set_bool("swap", false);
    machine.set_bool("enter", false);
    machine.set_bool("exit", true);
    machine.run(1);
    assert_eq!(machine.active_leaf_names(), vec!["Idle"]);
    machine.set_bool("exit", false);
    machine.set_bool("enter", true);
    machine.run(1);
    assert_eq!(machine.active_leaf_names(), vec!["X", "Y"]);
}

#[test]
fn done_waits_for_compound_child_to_finish() {
    let (mut builder, root) = simple_builder("done_compound");
    let outer = builder.compound_state("Outer");
    let outer_region = builder.region("outer_region", outer);
    let inner = builder.compound_state("Inner");
    let inner_region = builder.region("inner_region", inner);
    let work = builder.atomic_state("Work");
    let finished = builder.final_state("Finished");
    let complete = builder.atomic_state("Complete");
    builder
        .add_state_to_region(outer, root)
        .add_state_to_region(complete, root)
        .set_region_initial(root, outer)
        .add_state_to_region(inner, outer_region)
        .add_state_to_region(finished, outer_region)
        .set_region_initial(outer_region, inner)
        .add_state_to_region(work, inner_region)
        .set_region_initial(inner_region, work)
        .add_transition(TransitionDefinition::replace(inner, finished).with_guard(GUARD_GO))
        .add_transition(TransitionDefinition::replace(outer, complete).with_trigger(TransitionTrigger::Done));

    let mut machine = Harness::spawn(builder.build().unwrap());
    machine.run(2);
    assert_eq!(machine.active_leaf_names(), vec!["Work"]);
    machine.set_bool("go", true);
    machine.run(2);
    assert_eq!(machine.active_leaf_names(), vec!["Complete"]);
}

#[test]
fn debounce_counts_frames_without_evaluation() {
    let (mut builder, root) = simple_builder("debounce_on_change");
    let patrol = builder.atomic_state("Patrol");
    let alert = builder.atomic_state("Alert");
    builder
        .add_state_to_region(patrol, root)
        .add_state_to_region(alert, root)
        .set_region_initial(root, patrol)
        .add_transition(TransitionDefinition::replace(patrol, alert).with_guard(GUARD_GO).with_debounce_micros(250_000));

    let config = StateMachineInstanceConfig {
        evaluation_mode: StateMachineEvaluationMode::OnSignalOrBlackboardChange,
        ..Default::default()
    };
    let mut machine = Harness::new(builder.build().unwrap(), config);
    machine.run(1);
    machine.set_bool("go", true);
    machine.run(1);
    assert_eq!(machine.instance.guard_true_for_micros[0], 100_000);
    assert_eq!(machine.instance.guards_held, vec![TransitionId(0)]);
    machine.run(2);
    assert_eq!(machine.instance.guard_true_for_micros[0], 300_000);
    assert_eq!(machine.active_leaf_names(), vec!["Patrol"]);
    machine.set_bool("alt", true);
    machine.run(1);
    assert_eq!(machine.active_leaf_names(), vec!["Alert"]);
}
