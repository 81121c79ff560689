use vstd::prelude::*;

use crate::blackboard::{
    declared_after_schema, dirty_after, next_revision, resized, schema_len, values_after_schema, values_equal, Blackboard,
    BlackboardKeyId, BlackboardValue, BlackboardValueType,
};
use crate::debug::StateMachineTrace;
use crate::definition::StateMachineDefinition;
use crate::entering::{enter_target_from_roots, first_path, leaves_of, sync_active_path};
use crate::instance::{InstanceBlackboardOverride, StateMachineEvaluationMode, StateMachineInstance, StateMachineStatus};
use crate::stack::{history_view, regions_view, HistorySnapshot};

verus! {

/// What one write does to raw blackboard contents: a write of a value of the
/// declared type to a known key that changes the stored value updates it,
/// bumps the revision and marks the key dirty; anything else changes nothing.
pub open spec fn write_effect(
    values: Seq<Option<BlackboardValue>>,
    declared: Seq<Option<BlackboardValueType>>,
    revision: u64,
    dirty: Seq<BlackboardKeyId>,
    key: BlackboardKeyId,
    value: BlackboardValue,
) -> (Seq<Option<BlackboardValue>>, u64, Seq<BlackboardKeyId>) {
    let i = key.0 as int;
    let type_ok = i < declared.len() && match declared[i] {
        Some(t) => t == value.spec_value_type(),
        None => true,
    };
    let changes = match values[i] {
        Some(old) => !values_equal(old, value),
        None => true,
    };
    if type_ok && i < values.len() && changes {
        (values.update(i, Some(value)), next_revision(revision), dirty_after(dirty, key))
    } else {
        (values, revision, dirty)
    }
}

/// The contents after writing each override in order (failed writes are skipped).
pub open spec fn overrides_effect(
    values: Seq<Option<BlackboardValue>>,
    declared: Seq<Option<BlackboardValueType>>,
    revision: u64,
    dirty: Seq<BlackboardKeyId>,
    overrides: Seq<InstanceBlackboardOverride>,
) -> (Seq<Option<BlackboardValue>>, u64, Seq<BlackboardKeyId>)
    decreases overrides.len(),
{
    if overrides.len() == 0 {
        (values, revision, dirty)
    } else {
        let prev = overrides_effect(values, declared, revision, dirty, overrides.drop_last());
        write_effect(prev.0, declared, prev.1, prev.2, overrides.last().key, overrides.last().value)
    }
}

/// Writes the instance's start-up blackboard values; writes the blackboard
/// refuses are skipped.
pub fn apply_blackboard_overrides(instance: &StateMachineInstance, blackboard: &mut Blackboard)
    ensures
        (final(blackboard).values@, final(blackboard).revision, final(blackboard).dirty_keys@) == overrides_effect(
            old(blackboard).values@,
            old(blackboard).declared_types@,
            old(blackboard).revision,
            old(blackboard).dirty_keys@,
            instance.config.blackboard_overrides@,
        ),
        final(blackboard).declared_types == old(blackboard).declared_types,
{
    let overrides = &instance.config.blackboard_overrides;
    let ghost declared = blackboard.declared_types@;
    let ghost start = (blackboard.values@, blackboard.revision, blackboard.dirty_keys@);
    let mut i: usize = 0;
    proof {
        assert(overrides@.subrange(0, 0) =~= Seq::<InstanceBlackboardOverride>::empty());
    }
    while i < overrides.len()
        invariant
            i <= overrides@.len(),
            overrides@ == instance.config.blackboard_overrides@,
            blackboard.declared_types@ == declared,
            blackboard.declared_types == old(blackboard).declared_types,
            start == (old(blackboard).values@, old(blackboard).revision, old(blackboard).dirty_keys@),
            declared == old(blackboard).declared_types@,
            (blackboard.values@, blackboard.revision, blackboard.dirty_keys@)
                == overrides_effect(start.0, declared, start.1, start.2, overrides@.subrange(0, i as int)),
        decreases overrides@.len() - i,
    {
        let entry = overrides[i].clone();
        let _ = blackboard.set_value(entry.key, entry.value);
        proof {
            let next = overrides@.subrange(0, i + 1);
            assert(next.drop_last() =~= overrides@.subrange(0, i as int));
            assert(next.last() == overrides@[i as int]);
        }
        i = i + 1;
    }
    proof {
        assert(overrides@.subrange(0, overrides@.len() as int) =~= overrides@);
    }
}

/// `s` truncated or padded with `fill` to exactly `n` elements.
pub open spec fn fitted<T>(s: Seq<T>, n: nat, fill: T) -> Seq<T> {
    if n <= s.len() {
        s.subrange(0, n as int)
    } else {
        s + Seq::new((n - s.len()) as nat, |i: int| fill)
    }
}

fn fit_timers(v: &mut Vec<u64>, n: usize)
    ensures
        final(v)@ == fitted(old(v)@, n as nat, 0u64),
{
    if v.len() >= n {
        v.truncate(n);
        return;
    }
    let ghost start = v@;
    while v.len() < n
        invariant
            start.len() <= v@.len() <= n,
            v@ == start + Seq::new((v@.len() - start.len()) as nat, |i: int| 0u64),
        decreases n - v@.len(),
    {
        v.push(0);
        proof {
            assert(v@ =~= start + Seq::new((v@.len() - start.len()) as nat, |i: int| 0u64));
        }
    }
}

pub fn fit_history(v: &mut Vec<Option<HistorySnapshot>>, n: usize)
    ensures
        final(v)@ == fitted(old(v)@, n as nat, None::<HistorySnapshot>),
{
    if v.len() >= n {
        v.truncate(n);
        return;
    }
    let ghost start = v@;
    while v.len() < n
        invariant
            start.len() <= v@.len() <= n,
            v@ == start + Seq::new((v@.len() - start.len()) as nat, |i: int| None::<HistorySnapshot>),
        decreases n - v@.len(),
    {
        v.push(None);
        proof {
            assert(v@ =~= start + Seq::new((v@.len() - start.len()) as nat, |i: int| None::<HistorySnapshot>));
        }
    }
}

/// The tables sized to the definition; nothing else changes.
pub open spec fn reshaped(definition: StateMachineDefinition, before: StateMachineInstance, after: StateMachineInstance) -> bool {
    &&& after.history@ == fitted(before.history@, definition.states@.len(), None::<HistorySnapshot>)
    &&& after.state_elapsed_micros@ == fitted(before.state_elapsed_micros@, definition.states@.len(), 0u64)
    &&& after.transition_cooldowns_micros@ == fitted(before.transition_cooldowns_micros@, definition.transitions@.len(), 0u64)
    &&& after.guard_true_for_micros@ == fitted(before.guard_true_for_micros@, definition.transitions@.len(), 0u64)
    &&& after.guards_held == before.guards_held
    &&& after.definition_id == before.definition_id
    &&& after.config == before.config
    &&& after.active_path == before.active_path
    &&& after.active_leaf_states == before.active_leaf_states
    &&& after.active_regions == before.active_regions
    &&& after.pending_transition == before.pending_transition
    &&& after.stack == before.stack
    &&& after.pending_signals == before.pending_signals
    &&& after.runtime_revision == before.runtime_revision
    &&& after.last_blackboard_revision == before.last_blackboard_revision
    &&& after.trace == before.trace
}

/// A fresh start: empty history, zeroed timers, an empty trace, and the
/// initial configuration entered; identity, configuration, stack, queued
/// signals and revision are kept.
pub open spec fn started(
    definition: StateMachineDefinition,
    before: StateMachineInstance,
    after: StateMachineInstance,
    blackboard_revision: u64,
) -> bool {
    let regions = definition.start_regions(before.config.enabled_regions@);
    &&& history_view(after.history@) == definition.empty_history()
    &&& after.state_elapsed_micros@ == Seq::new(definition.states@.len(), |i: int| 0u64)
    &&& after.transition_cooldowns_micros@ == Seq::new(definition.transitions@.len(), |i: int| 0u64)
    &&& after.guard_true_for_micros@ == Seq::new(definition.transitions@.len(), |i: int| 0u64)
    &&& after.guards_held@.len() == 0
    &&& after.trace.config == before.config.trace_config
    &&& after.trace.entries@.len() == 0
    &&& after.last_blackboard_revision == blackboard_revision
    &&& regions_view(after.active_regions@) == regions
    &&& after.active_leaf_states@ == leaves_of(regions)
    &&& after.active_path@ == first_path(regions)
    &&& after.definition_id == before.definition_id
    &&& after.config == before.config
    &&& after.pending_transition == before.pending_transition
    &&& after.stack == before.stack
    &&& after.pending_signals == before.pending_signals
    &&& after.runtime_revision == before.runtime_revision
}

/// Sizes the per-state and per-transition tables to the definition, keeping
/// existing entries and filling new ones with empty values.
pub fn ensure_runtime_shape(definition: &StateMachineDefinition, instance: &mut StateMachineInstance)
    ensures
        reshaped(*definition, *old(instance), *final(instance)),
        final(instance).status == old(instance).status,
{
    fit_history(&mut instance.history, definition.states.len());
    fit_timers(&mut instance.state_elapsed_micros, definition.states.len());
    fit_timers(&mut instance.transition_cooldowns_micros, definition.transitions.len());
    fit_timers(&mut instance.guard_true_for_micros, definition.transitions.len());
}

/// Resets the runtime tables and enters the initial state of every enabled
/// root region.
pub fn initialize_instance(definition: &StateMachineDefinition, instance: &mut StateMachineInstance, blackboard: &Blackboard)
    requires
        definition.hierarchy_is_finite(),
        definition.start_terminates(old(instance).config.enabled_regions@),
    ensures
        started(*definition, *old(instance), *final(instance), blackboard.revision),
        final(instance).status == old(instance).status,
{
    let mut history: Vec<Option<HistorySnapshot>> = Vec::new();
    fit_history(&mut history, definition.states.len());
    let mut elapsed: Vec<u64> = Vec::new();
    fit_timers(&mut elapsed, definition.states.len());
    let mut cooldowns: Vec<u64> = Vec::new();
    fit_timers(&mut cooldowns, definition.transitions.len());
    let mut guards: Vec<u64> = Vec::new();
    fit_timers(&mut guards, definition.transitions.len());
    proof {
        assert(history_view(history@) =~= definition.empty_history());
        assert(elapsed@ =~= Seq::new(definition.states@.len(), |i: int| 0u64));
        assert(cooldowns@ =~= Seq::new(definition.transitions@.len(), |i: int| 0u64));
        assert(guards@ =~= Seq::new(definition.transitions@.len(), |i: int| 0u64));
    }
    instance.history = history;
    instance.state_elapsed_micros = elapsed;
    instance.transition_cooldowns_micros = cooldowns;
    instance.guard_true_for_micros = guards;
    instance.guards_held = Vec::new();
    instance.trace = StateMachineTrace::new(instance.config.trace_config);
    instance.last_blackboard_revision = blackboard.revision;
    instance.active_regions.clear();
    instance.active_leaf_states.clear();
    instance.active_path.clear();
    let added = enter_target_from_roots(definition, &instance.history, &instance.config.enabled_regions);
    instance.active_regions = added;
    sync_active_path(instance);
}

/// Keeps an instance and its blackboard in step with the definition when
/// signals arrive: installs the blackboard schema, writes the start-up
/// blackboard values on first use, and sizes the runtime tables.
pub fn intake_instance(definition: &StateMachineDefinition, instance: &mut StateMachineInstance, blackboard: &mut Blackboard)
    requires
        forall|k: int| 0 <= k < definition.blackboard_schema@.len() ==> {
            &&& (#[trigger] definition.blackboard_schema@[k].id.0 as int) < schema_len(old(blackboard).values@.len(), definition.blackboard_schema@.len())
            &&& (definition.blackboard_schema@[k].id.0 as int) < (if old(blackboard).values@.len() < definition.blackboard_schema@.len() {
                definition.blackboard_schema@.len()
            } else {
                old(blackboard).declared_types@.len()
            })
        },
    ensures
        ({
            let schema = definition.blackboard_schema@;
            let grow = old(blackboard).values@.len() < schema.len();
            let values0 = if grow { resized(old(blackboard).values@, schema.len(), None) } else { old(blackboard).values@ };
            let declared0 = if grow { resized(old(blackboard).declared_types@, schema.len(), None) } else { old(blackboard).declared_types@ };
            let values1 = values_after_schema(values0, schema);
            let declared1 = declared_after_schema(declared0, schema);
            let fresh = old(instance).status == StateMachineStatus::Uninitialized;
            &&& final(blackboard).declared_types@ == declared1
            &&& fresh ==> (final(blackboard).values@, final(blackboard).revision, final(blackboard).dirty_keys@)
                == overrides_effect(values1, declared1, old(blackboard).revision, old(blackboard).dirty_keys@, old(instance).config.blackboard_overrides@)
            &&& !fresh ==> {
                &&& final(blackboard).values@ == values1
                &&& final(blackboard).revision == old(blackboard).revision
                &&& final(blackboard).dirty_keys@ == old(blackboard).dirty_keys@
            }
            &&& reshaped(*definition, *old(instance), *final(instance))
            &&& final(instance).status == old(instance).status
        }),
{
    blackboard.ensure_schema(definition.blackboard_schema.as_slice());
    let fresh = instance.status == StateMachineStatus::Uninitialized;
    if fresh {
        apply_blackboard_overrides(instance, blackboard);
    }
    ensure_runtime_shape(definition, instance);
}

/// Gets an instance and its blackboard ready for evaluation: installs the
/// definition's blackboard schema, sizes the runtime tables, and on first use
/// writes the start-up blackboard values, enters the initial configuration
/// and marks the instance active.
pub fn prepare_instance(definition: &StateMachineDefinition, instance: &mut StateMachineInstance, blackboard: &mut Blackboard)
    requires
        definition.hierarchy_is_finite(),
        old(instance).status == StateMachineStatus::Uninitialized ==> definition.start_terminates(old(instance).config.enabled_regions@),
        forall|k: int| 0 <= k < definition.blackboard_schema@.len() ==> {
            &&& (#[trigger] definition.blackboard_schema@[k].id.0 as int) < schema_len(old(blackboard).values@.len(), definition.blackboard_schema@.len())
            &&& (definition.blackboard_schema@[k].id.0 as int) < (if old(blackboard).values@.len() < definition.blackboard_schema@.len() {
                definition.blackboard_schema@.len()
            } else {
                old(blackboard).declared_types@.len()
            })
        },
    ensures
        ({
            let schema = definition.blackboard_schema@;
            let grow = old(blackboard).values@.len() < schema.len();
            let values0 = if grow { resized(old(blackboard).values@, schema.len(), None) } else { old(blackboard).values@ };
            let declared0 = if grow { resized(old(blackboard).declared_types@, schema.len(), None) } else { old(blackboard).declared_types@ };
            let values1 = values_after_schema(values0, schema);
            let declared1 = declared_after_schema(declared0, schema);
            let fresh = old(instance).status == StateMachineStatus::Uninitialized;
            &&& final(blackboard).declared_types@ == declared1
            &&& fresh ==> (final(blackboard).values@, final(blackboard).revision, final(blackboard).dirty_keys@)
                == overrides_effect(values1, declared1, old(blackboard).revision, old(blackboard).dirty_keys@, old(instance).config.blackboard_overrides@)
            &&& !fresh ==> {
                &&& final(blackboard).values@ == values1
                &&& final(blackboard).revision == old(blackboard).revision
                &&& final(blackboard).dirty_keys@ == old(blackboard).dirty_keys@
            }
            &&& fresh ==> {
                &&& started(*definition, *old(instance), *final(instance), final(blackboard).revision)
                &&& final(instance).status == StateMachineStatus::Active
            }
            &&& !fresh ==> {
                &&& reshaped(*definition, *old(instance), *final(instance))
                &&& final(instance).status == old(instance).status
            }
        }),
{
    blackboard.ensure_schema(definition.blackboard_schema.as_slice());
    let fresh = instance.status == StateMachineStatus::Uninitialized;
    if fresh {
        apply_blackboard_overrides(instance, blackboard);
    }
    ensure_runtime_shape(definition, instance);
    if fresh {
        initialize_instance(definition, instance, blackboard);
        instance.status = StateMachineStatus::Active;
    }
}

/// Whether an instance is evaluated this frame: always before it starts, and
/// afterwards every frame or only on a queued signal or a blackboard write,
/// per its configuration.
pub fn should_evaluate_instance(instance: &StateMachineInstance, blackboard: &Blackboard) -> (r: bool)
    ensures
        r == (instance.status == StateMachineStatus::Uninitialized
            || instance.config.evaluation_mode == StateMachineEvaluationMode::EveryFrame
            || instance.pending_signals@.len() > 0
            || blackboard.revision > instance.last_blackboard_revision),
{
    if instance.status == StateMachineStatus::Uninitialized {
        return true;
    }
    match instance.config.evaluation_mode {
        StateMachineEvaluationMode::EveryFrame => true,
        StateMachineEvaluationMode::OnSignalOrBlackboardChange => {
            instance.pending_signals.len() > 0 || blackboard.changed_since(instance.last_blackboard_revision)
        },
    }
}

/// Resumes an inactive instance.
pub fn activate_instance(instance: &mut StateMachineInstance)
    ensures
        final(instance).status == (if old(instance).status == StateMachineStatus::Inactive {
            StateMachineStatus::Active
        } else {
            old(instance).status
        }),
        final(instance).pending_transition == old(instance).pending_transition,
        final(instance).active_regions == old(instance).active_regions,
        final(instance).history == old(instance).history,
{
    if instance.status == StateMachineStatus::Inactive {
        instance.status = StateMachineStatus::Active;
    }
}

/// Suspends an instance and drops its pending transition.
pub fn deactivate_instance(instance: &mut StateMachineInstance)
    ensures
        final(instance).status == StateMachineStatus::Inactive,
        final(instance).pending_transition is None,
        final(instance).active_regions == old(instance).active_regions,
        final(instance).history == old(instance).history,
{
    instance.status = StateMachineStatus::Inactive;
    instance.pending_transition = None;
}

} // verus!
