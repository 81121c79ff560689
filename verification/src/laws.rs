use vstd::prelude::*;

use crate::blackboard::{
    declared_after_schema, resized, schema_installed, schema_len, values_after_schema, values_equal, BlackboardKeyDefinition, BlackboardKeyId,
    BlackboardValue, BlackboardValueType,
};
use crate::builder::StateMachineBuilder;
use crate::regions::spec_region_is_enabled;
use crate::debug::{trace_pushed, StateMachineTraceEntry, TransitionBlockedReason};
use crate::definition::{
    HistoryMode, RegionId, SignalId, StateId, StateMachineDefinition, TransitionDefinition, TransitionId, TransitionMode, TransitionOperation,
    UtilityPolicy,
};
use crate::entering::{history_at, first_path, first_shallow, leaves_of, option_seq, region_order, sorted_regions};
use crate::executing::{applied_topology, step_history, with_cooldown, child_below, exit_snapshot, has_child_below, regions_containing, shallow_entries, shallow_key};
use crate::evaluating::{candidates_upto, guard_carried, guard_holds, guard_timers_after, guard_timers_carried, holds_carried, holds_now, timers_advanced, spec_block_reason, spec_can_exit, spec_evaluate, spec_trigger_block_reason, CallbackResults};
use crate::instance::{other_signals, StateMachineInstance};
use crate::lifecycle::write_effect;
use crate::ordering::{keys_ascending, lemma_stable_sort_ascending, lemma_stable_sort_sorted};
use crate::stack::{history_view, regions_view, ActiveRegionView, HistoryView, StateStackFrame};
use crate::timers::capped_add;
use crate::transitions::{is_winner, lemma_winner_unique, outranks, spec_best_candidate, EvaluatedTransition};

verus! {

/// A candidate that outranks every other candidate wins arbitration.
pub proof fn law_outranking_candidate_wins(candidates: Seq<EvaluatedTransition>, i: int)
    requires
        0 <= i < candidates.len(),
        forall|j: int| 0 <= j < candidates.len() && j != i ==> outranks(candidates[i], #[trigger] candidates[j]),
    ensures
        spec_best_candidate(candidates) == Some(candidates[i]),
{
    assert forall|j: int| 0 <= j < candidates.len() implies !outranks(#[trigger] candidates[j], candidates[i]) by {
        if j != i {
            assert(outranks(candidates[i], candidates[j]));
        }
    }
    assert(is_winner(candidates, i));
    let w = choose|k: int| is_winner(candidates, k);
    lemma_winner_unique(candidates, w, i);
}

/// Deepest source first: a candidate whose source is strictly deeper than
/// that of every other candidate wins, whatever the priorities, scores and
/// declaration order.
pub proof fn law_deeper_source_wins(candidates: Seq<EvaluatedTransition>, i: int)
    requires
        0 <= i < candidates.len(),
        forall|j: int| 0 <= j < candidates.len() && j != i ==> (#[trigger] candidates[j]).source_depth < candidates[i].source_depth,
    ensures
        spec_best_candidate(candidates) == Some(candidates[i]),
{
    assert forall|j: int| 0 <= j < candidates.len() && j != i implies outranks(candidates[i], #[trigger] candidates[j]) by {}
    law_outranking_candidate_wins(candidates, i);
}

/// Among candidates whose sources are equally deep, the higher priority wins.
pub proof fn law_higher_priority_wins_at_equal_depth(candidates: Seq<EvaluatedTransition>, i: int)
    requires
        0 <= i < candidates.len(),
        forall|j: int| 0 <= j < candidates.len() && j != i ==> (#[trigger] candidates[j]).source_depth == candidates[i].source_depth
            && candidates[j].priority < candidates[i].priority,
    ensures
        spec_best_candidate(candidates) == Some(candidates[i]),
{
    assert forall|j: int| 0 <= j < candidates.len() && j != i implies outranks(candidates[i], #[trigger] candidates[j]) by {}
    law_outranking_candidate_wins(candidates, i);
}

/// When depth, priority and score tie, the earliest declared transition wins.
pub proof fn law_declaration_order_breaks_ties(candidates: Seq<EvaluatedTransition>, i: int)
    requires
        0 <= i < candidates.len(),
        forall|j: int| 0 <= j < candidates.len() && j != i ==> (#[trigger] candidates[j]).source_depth == candidates[i].source_depth
            && candidates[j].priority == candidates[i].priority
            && candidates[j].score_micros == candidates[i].score_micros
            && candidates[i].declaration_order < candidates[j].declaration_order,
    ensures
        spec_best_candidate(candidates) == Some(candidates[i]),
{
    assert forall|j: int| 0 <= j < candidates.len() && j != i implies outranks(candidates[i], #[trigger] candidates[j]) by {}
    law_outranking_candidate_wins(candidates, i);
}

/// Declaration orders differ between any two positions.
pub open spec fn distinct_declarations(candidates: Seq<EvaluatedTransition>) -> bool {
    forall|a: int, b: int| 0 <= a < candidates.len() && 0 <= b < candidates.len() && a != b
        ==> (#[trigger] candidates[a]).declaration_order != (#[trigger] candidates[b]).declaration_order
}

proof fn lemma_outranks_total(x: EvaluatedTransition, y: EvaluatedTransition)
    requires
        x.declaration_order != y.declaration_order,
    ensures
        outranks(x, y) || outranks(y, x),
{
}

proof fn lemma_winner_of_same_candidates(a: Seq<EvaluatedTransition>, b: Seq<EvaluatedTransition>, i: int) -> (j: int)
    requires
        is_winner(a, i),
        distinct_declarations(b),
        forall|x: EvaluatedTransition| a.contains(x) <==> b.contains(x),
    ensures
        is_winner(b, j),
        b[j] == a[i],
{
    let c = a[i];
    assert(a.contains(c));
    assert(b.contains(c));
    let j = choose|j: int| 0 <= j < b.len() && b[j] == c;
    assert forall|k: int| 0 <= k < b.len() implies !outranks(#[trigger] b[k], c) by {
        assert(b.contains(b[k]));
        assert(a.contains(b[k]));
        let m = choose|m: int| 0 <= m < a.len() && a[m] == b[k];
        assert(!outranks(a[m], c));
    }
    assert forall|k: int| 0 <= k < j implies outranks(c, #[trigger] b[k]) by {
        assert(b[k].declaration_order != b[j].declaration_order);
        lemma_outranks_total(c, b[k]);
        assert(!outranks(b[k], c));
    }
    j
}

/// Arbitration does not depend on the order in which candidates are listed:
/// two lists holding the same candidates, with distinct declaration orders,
/// pick the same winner.
pub proof fn law_arbitration_ignores_listing_order(a: Seq<EvaluatedTransition>, b: Seq<EvaluatedTransition>)
    requires
        distinct_declarations(a),
        distinct_declarations(b),
        forall|x: EvaluatedTransition| a.contains(x) <==> b.contains(x),
    ensures
        spec_best_candidate(a) == spec_best_candidate(b),
{
    if a.len() == 0 {
        if b.len() > 0 {
            assert(b.contains(b[0]));
        }
    } else {
        assert(a.contains(a[0]));
        assert(b.len() > 0);
        // a winner exists in every nonempty list
        let wa = lemma_winner_exists(a);
        let wb = choose|k: int| is_winner(a, k);
        lemma_winner_unique(a, wa, wb);
        let j = lemma_winner_of_same_candidates(a, b, wa);
        let wb2 = choose|k: int| is_winner(b, k);
        lemma_winner_unique(b, j, wb2);
    }
}

/// Every nonempty list of candidates has a winner.
proof fn lemma_winner_exists(candidates: Seq<EvaluatedTransition>) -> (w: int)
    requires
        candidates.len() > 0,
    ensures
        is_winner(candidates, w),
    decreases candidates.len(),
{
    if candidates.len() == 1 {
        0
    } else {
        let prefix = candidates.drop_last();
        let p = lemma_winner_exists(prefix);
        let last = candidates.last();
        let n = candidates.len() - 1;
        if outranks(last, prefix[p]) {
            assert forall|j: int| 0 <= j < candidates.len() implies !outranks(#[trigger] candidates[j], last) by {
                if j < n {
                    assert(!outranks(prefix[j], prefix[p]));
                }
            }
            assert forall|j: int| 0 <= j < n implies outranks(last, #[trigger] candidates[j]) by {
                assert(!outranks(prefix[j], prefix[p]));
                if j < p {
                    assert(outranks(prefix[p], prefix[j]));
                }
            }
            n
        } else {
            assert forall|j: int| 0 <= j < candidates.len() implies !outranks(#[trigger] candidates[j], candidates[p]) by {
                if j < n {
                    assert(candidates[j] == prefix[j]);
                }
            }
            assert forall|j: int| 0 <= j < p implies outranks(candidates[p], #[trigger] candidates[j]) by {
                assert(candidates[j] == prefix[j]);
                assert(outranks(prefix[p], prefix[j]));
            }
            p
        }
    }
}

/// Evaluation prefers a ready transition: whenever some transition is ready,
/// the one chosen is ready.
pub proof fn law_ready_transition_preferred(
    definition: StateMachineDefinition,
    instance: StateMachineInstance,
    results: Seq<CallbackResults>,
)
    requires
        candidates_upto(definition, instance, results, definition.transitions@.len(), true).len() > 0,
    ensures
        spec_evaluate(definition, instance, results) matches Some(c) && c.reason_if_blocked is None,
{
    let ready = candidates_upto(definition, instance, results, definition.transitions@.len(), true);
    lemma_candidates_sorted(definition, instance, results, definition.transitions@.len(), true);
    let w = choose|k: int| is_winner(ready, k);
    let e = lemma_winner_exists(ready);
    assert(is_winner(ready, w));
}

proof fn lemma_candidates_sorted(
    definition: StateMachineDefinition,
    instance: StateMachineInstance,
    results: Seq<CallbackResults>,
    n: nat,
    ready: bool,
)
    ensures
        forall|i: int| 0 <= i < candidates_upto(definition, instance, results, n, ready).len()
            ==> ((#[trigger] candidates_upto(definition, instance, results, n, ready)[i]).reason_if_blocked is None) == ready,
    decreases n,
{
    if n > 0 {
        lemma_candidates_sorted(definition, instance, results, (n - 1) as nat, ready);
    }
}

/// Once a definition is registered under a fresh id, looking that id up finds
/// it, and registering the same id again is refused.
pub proof fn law_registered_definition_is_found(definitions: Seq<StateMachineDefinition>, definition: StateMachineDefinition)
    requires
        forall|i: int| 0 <= i < definitions.len() ==> (#[trigger] definitions[i]).id != definition.id,
    ensures
        ({
            let after = definitions.push(definition);
            &&& exists|i: int| 0 <= i < after.len() && after[i] == definition
                && forall|j: int| 0 <= j < i ==> (#[trigger] after[j]).id != definition.id
            &&& exists|i: int| 0 <= i < after.len() && (#[trigger] after[i]).id == definition.id
        }),
{
    let after = definitions.push(definition);
    let i = definitions.len() as int;
    assert(after[i] == definition);
    assert forall|j: int| 0 <= j < i implies (#[trigger] after[j]).id != definition.id by {
        assert(after[j] == definitions[j]);
    }
}

/// A trace never holds more entries than its capacity, and the newest entry
/// is the last one.
pub proof fn law_trace_stays_within_capacity(entries: Seq<StateMachineTraceEntry>, capacity: nat, entry: StateMachineTraceEntry)
    requires
        entries.len() <= capacity,
    ensures
        trace_pushed(entries, capacity, entry).len() <= capacity,
        capacity > 0 ==> trace_pushed(entries, capacity, entry).last() == entry,
        capacity == 0 ==> trace_pushed(entries, capacity, entry) == entries,
{
}

/// Popping right after a push returns the pushed frame and the earlier frames.
pub proof fn law_stack_pop_undoes_push(frames: Seq<StateStackFrame>, frame: StateStackFrame)
    ensures
        frames.push(frame).last() == frame,
        frames.push(frame).drop_last() == frames,
{
    assert(frames.push(frame).drop_last() =~= frames);
}

/// A pop undoes a push: when a push was applied to an instance and a pop is
/// later applied while the stack is still as the push left it (only
/// replaces in between), the instance is back in the configuration it
/// pushed from, with its timers and stack as they were; only the pop's own
/// cooldown restarts, and the history is the one recorded as the push
/// exited. The regions come back in canonical order, so an instance already
/// in canonical order (as every instance the runtime keeps is) gets its own
/// regions, leaves and path back exactly.
pub proof fn law_pop_resumes_pushed_configuration(
    definition: StateMachineDefinition,
    before: StateMachineInstance,
    pushed: StateMachineInstance,
    ready: StateMachineInstance,
    after: StateMachineInstance,
    push: TransitionDefinition,
    pop: TransitionDefinition,
)
    requires
        push.operation == TransitionOperation::Push,
        pop.operation == TransitionOperation::Pop,
        applied_topology(definition, before, pushed, push),
        ready.stack == pushed.stack,
        applied_topology(definition, ready, after, pop),
    ensures
        after.stack.frames@ == before.stack.frames@,
        after.stack.max_depth == before.stack.max_depth,
        regions_view(after.active_regions@) == sorted_regions(regions_view(before.active_regions@)),
        after.active_leaf_states@ == leaves_of(sorted_regions(regions_view(before.active_regions@))),
        after.active_path@ == first_path(sorted_regions(regions_view(before.active_regions@))),
        after.state_elapsed_micros@ == before.state_elapsed_micros@,
        after.guard_true_for_micros@ == before.guard_true_for_micros@,
        after.transition_cooldowns_micros@ == with_cooldown(before.transition_cooldowns_micros@, pop),
        history_view(after.history@) == step_history(definition, before, push),
        keys_ascending(regions_view(before.active_regions@), region_order()) ==> {
            &&& regions_view(after.active_regions@) == regions_view(before.active_regions@)
            &&& (before.active_leaf_states@ == leaves_of(regions_view(before.active_regions@))
                ==> after.active_leaf_states@ == before.active_leaf_states@)
            &&& (before.active_path@ == first_path(regions_view(before.active_regions@))
                ==> after.active_path@ == before.active_path@)
        },
{
    if keys_ascending(regions_view(before.active_regions@), region_order()) {
        lemma_stable_sort_sorted(regions_view(before.active_regions@), region_order());
    }
}

/// Every key id of the schema indexes a table of length `n`.
spec fn ids_below(schema: Seq<BlackboardKeyDefinition>, n: nat) -> bool {
    forall|k: int| 0 <= k < schema.len() ==> (#[trigger] schema[k].id.0 as int) < n
}

/// Some key of the schema has id `i`.
spec fn names_key(schema: Seq<BlackboardKeyDefinition>, i: int) -> bool {
    exists|k: int| 0 <= k < schema.len() && #[trigger] schema[k].id.0 as int == i
}

proof fn lemma_declared_after_len(d: Seq<Option<BlackboardValueType>>, schema: Seq<BlackboardKeyDefinition>)
    requires
        ids_below(schema, d.len()),
    ensures
        declared_after_schema(d, schema).len() == d.len(),
    decreases schema.len(),
{
    if schema.len() > 0 {
        assert(schema[schema.len() - 1] == schema.last());
        lemma_declared_after_len(d, schema.drop_last());
    }
}

proof fn lemma_declared_after_at(
    d1: Seq<Option<BlackboardValueType>>,
    d2: Seq<Option<BlackboardValueType>>,
    schema: Seq<BlackboardKeyDefinition>,
    i: int,
)
    requires
        d1.len() == d2.len(),
        ids_below(schema, d1.len()),
        0 <= i < d1.len(),
    ensures
        names_key(schema, i) ==> declared_after_schema(d1, schema)[i] == declared_after_schema(d2, schema)[i],
        !names_key(schema, i) ==> declared_after_schema(d1, schema)[i] == d1[i],
    decreases schema.len(),
{
    if schema.len() > 0 {
        let t = schema.drop_last();
        assert(schema[schema.len() - 1] == schema.last());
        lemma_declared_after_len(d1, t);
        lemma_declared_after_len(d2, t);
        lemma_declared_after_at(d1, d2, t, i);
        if names_key(t, i) {
            let k = choose|k: int| 0 <= k < t.len() && #[trigger] t[k].id.0 as int == i;
            assert(schema[k] == t[k]);
        }
        if names_key(schema, i) && schema.last().id.0 as int != i {
            let k = choose|k: int| 0 <= k < schema.len() && #[trigger] schema[k].id.0 as int == i;
            assert(t[k] == schema[k]);
        }
    }
}

/// Each key's slot is filled, or that key has no default.
spec fn values_settled(w: Seq<Option<BlackboardValue>>, schema: Seq<BlackboardKeyDefinition>) -> bool {
    forall|k: int| 0 <= k < schema.len() ==> (w[#[trigger] schema[k].id.0 as int] is Some || schema[k].default_value is None)
}

proof fn lemma_values_after_settles(v: Seq<Option<BlackboardValue>>, schema: Seq<BlackboardKeyDefinition>)
    requires
        ids_below(schema, v.len()),
    ensures
        values_after_schema(v, schema).len() == v.len(),
        values_settled(values_after_schema(v, schema), schema),
    decreases schema.len(),
{
    if schema.len() > 0 {
        let t = schema.drop_last();
        let last = schema.last();
        assert(schema[schema.len() - 1] == last);
        lemma_values_after_settles(v, t);
        let prev = values_after_schema(v, t);
        let w = values_after_schema(v, schema);
        assert forall|k: int| 0 <= k < schema.len() implies (w[#[trigger] schema[k].id.0 as int] is Some || schema[k].default_value is None) by {
            if k < schema.len() - 1 {
                assert(schema[k] == t[k]);
            }
        }
    }
}

proof fn lemma_values_settled_fixed(w: Seq<Option<BlackboardValue>>, schema: Seq<BlackboardKeyDefinition>)
    requires
        ids_below(schema, w.len()),
        values_settled(w, schema),
    ensures
        values_after_schema(w, schema) == w,
    decreases schema.len(),
{
    if schema.len() > 0 {
        let t = schema.drop_last();
        let last = schema.last();
        assert(schema[schema.len() - 1] == last);
        assert forall|k: int| 0 <= k < t.len() implies (w[#[trigger] t[k].id.0 as int] is Some || t[k].default_value is None) by {
            assert(schema[k] == t[k]);
        }
        lemma_values_settled_fixed(w, t);
        if w[last.id.0 as int] is None {
            assert(w.update(last.id.0 as int, last.default_value) =~= w);
        }
    }
}

/// Installing the same schema twice changes nothing the first install did
/// not: the second install leaves the values and declared types as the
/// first left them.
pub proof fn law_schema_install_is_idempotent(
    values: Seq<Option<BlackboardValue>>,
    declared: Seq<Option<BlackboardValueType>>,
    schema: Seq<BlackboardKeyDefinition>,
)
    requires
        forall|k: int| 0 <= k < schema.len() ==> {
            &&& (#[trigger] schema[k].id.0 as int) < schema_len(values.len(), schema.len())
            &&& (schema[k].id.0 as int) < (if values.len() < schema.len() { schema.len() } else { declared.len() })
        },
    ensures
        ({
            let once = schema_installed(values, declared, schema);
            schema_installed(once.0, once.1, schema) == once
        }),
{
    let grow = values.len() < schema.len();
    let values0 = if grow { resized(values, schema.len(), None) } else { values };
    let declared0 = if grow { resized(declared, schema.len(), None) } else { declared };
    assert(values0.len() == schema_len(values.len(), schema.len()));
    assert(ids_below(schema, values0.len()));
    assert(ids_below(schema, declared0.len()));
    let once = schema_installed(values, declared, schema);
    lemma_values_after_settles(values0, schema);
    lemma_declared_after_len(declared0, schema);
    assert(once.0.len() >= schema.len());
    lemma_values_settled_fixed(once.0, schema);
    lemma_declared_after_len(once.1, schema);
    assert forall|i: int| 0 <= i < once.1.len() implies #[trigger] declared_after_schema(once.1, schema)[i] == once.1[i] by {
        lemma_declared_after_at(once.1, declared0, schema, i);
        lemma_declared_after_at(declared0, declared0, schema, i);
    }
    assert(declared_after_schema(once.1, schema) =~= once.1);
}

/// Built definitions have stable dense ids: while a builder keeps every id
/// equal to its position (as each of its methods does, from `new` on), the
/// definition it assembles, which `build` returns when validation finds no
/// error, numbers its states, regions, transitions and blackboard keys by
/// position, and each transition's declaration order is its position.
pub proof fn law_built_ids_are_dense(builder: StateMachineBuilder)
    requires
        builder@.ids_match_positions(),
    ensures
        ({
            let d = builder.assembled();
            &&& forall|i: int| 0 <= i < d.states@.len() ==> (#[trigger] d.states@[i]).id == StateId(i as u16)
            &&& forall|i: int| 0 <= i < d.regions@.len() ==> (#[trigger] d.regions@[i]).id == RegionId(i as u16)
            &&& forall|i: int| 0 <= i < d.transitions@.len() ==> (#[trigger] d.transitions@[i]).id == TransitionId(i as u16)
                && d.transitions@[i].declaration_order == i as usize
            &&& forall|i: int| 0 <= i < d.blackboard_schema@.len()
                ==> (#[trigger] d.blackboard_schema@[i]).id == BlackboardKeyId(i as u16)
        }),
{
    builder.lemma_assembled();
}

/// Two builders with the same name and no explicit definition id assemble
/// definitions with the same id, the hash of that name.
pub proof fn law_same_name_same_id(a: StateMachineBuilder, b: StateMachineBuilder)
    requires
        a@.name == b@.name,
        a@.definition_id is None,
        b@.definition_id is None,
    ensures
        a.assembled().id == b.assembled().id,
{
    a.lemma_assembled();
    b.lemma_assembled();
}

proof fn lemma_values_after_untouched(v: Seq<Option<BlackboardValue>>, schema: Seq<BlackboardKeyDefinition>, i: int)
    requires
        ids_below(schema, v.len()),
        0 <= i < v.len(),
        !names_key(schema, i),
    ensures
        values_after_schema(v, schema)[i] == v[i],
        values_after_schema(v, schema).len() == v.len(),
    decreases schema.len(),
{
    if schema.len() > 0 {
        let t = schema.drop_last();
        assert(schema[schema.len() - 1] == schema.last());
        if names_key(t, i) {
            let k = choose|k: int| 0 <= k < t.len() && #[trigger] t[k].id.0 as int == i;
            assert(schema[k] == t[k]);
        }
        lemma_values_after_untouched(v, t, i);
    }
}

proof fn lemma_schema_key_unique(
    v: Seq<Option<BlackboardValue>>,
    d: Seq<Option<BlackboardValueType>>,
    schema: Seq<BlackboardKeyDefinition>,
    k: int,
)
    requires
        ids_below(schema, v.len()),
        ids_below(schema, d.len()),
        0 <= k < schema.len(),
        forall|j: int| 0 <= j < schema.len() && j != k ==> (#[trigger] schema[j]).id != schema[k].id,
    ensures
        ({
            let id = schema[k].id.0 as int;
            &&& declared_after_schema(d, schema)[id] == Some(schema[k].value_type)
            &&& values_after_schema(v, schema)[id] == (if v[id] is Some { v[id] } else { schema[k].default_value })
        }),
    decreases schema.len(),
{
    let id = schema[k].id.0 as int;
    let t = schema.drop_last();
    assert(schema[schema.len() - 1] == schema.last());
    lemma_declared_after_len(d, t);
    if k == schema.len() - 1 {
        assert forall|j: int| 0 <= j < t.len() implies #[trigger] t[j].id.0 as int != id by {
            assert(schema[j] == t[j]);
            assert(schema[j].id != schema[k].id);
        }
        lemma_values_after_untouched(v, t, id);
    } else {
        assert(t[k] == schema[k]);
        assert forall|j: int| 0 <= j < t.len() && j != k implies (#[trigger] t[j]).id != t[k].id by {
            assert(schema[j] == t[j]);
        }
        lemma_schema_key_unique(v, d, t, k);
        lemma_values_after_settles(v, t);
        assert(schema.last().id != schema[k].id);
    }
}

/// Installing a schema, key by key: the tables grow to the schema's length
/// when the values are shorter; a key whose id no other key shares gets its
/// declared type, and keeps its stored value or, when it has none, takes its
/// default; slots that no key names keep what they held (empty when new).
/// When two keys share an id, the later type and the earlier default win.
pub proof fn law_schema_install_per_key(
    values: Seq<Option<BlackboardValue>>,
    declared: Seq<Option<BlackboardValueType>>,
    schema: Seq<BlackboardKeyDefinition>,
    k: int,
    i: int,
)
    requires
        forall|j: int| 0 <= j < schema.len() ==> {
            &&& (#[trigger] schema[j].id.0 as int) < schema_len(values.len(), schema.len())
            &&& (schema[j].id.0 as int) < (if values.len() < schema.len() { schema.len() } else { declared.len() })
        },
    ensures
        ({
            let grow = values.len() < schema.len();
            let values0 = if grow { resized(values, schema.len(), None) } else { values };
            let declared0 = if grow { resized(declared, schema.len(), None) } else { declared };
            let once = schema_installed(values, declared, schema);
            &&& once.0.len() == schema_len(values.len(), schema.len())
            &&& (0 <= k < schema.len() && forall|j: int| 0 <= j < schema.len() && j != k ==> (#[trigger] schema[j]).id != schema[k].id)
                ==> {
                    &&& once.1[schema[k].id.0 as int] == Some(schema[k].value_type)
                    &&& once.0[schema[k].id.0 as int] == (if values0[schema[k].id.0 as int] is Some {
                        values0[schema[k].id.0 as int]
                    } else {
                        schema[k].default_value
                    })
                }
            &&& (0 <= i < once.0.len() && !(exists|j: int| 0 <= j < schema.len() && #[trigger] schema[j].id.0 as int == i))
                ==> once.0[i] == values0[i]
            &&& (0 <= i < once.1.len() && !(exists|j: int| 0 <= j < schema.len() && #[trigger] schema[j].id.0 as int == i))
                ==> once.1[i] == declared0[i]
        }),
{
    let grow = values.len() < schema.len();
    let values0 = if grow { resized(values, schema.len(), None) } else { values };
    let declared0 = if grow { resized(declared, schema.len(), None) } else { declared };
    assert(ids_below(schema, values0.len()));
    assert(ids_below(schema, declared0.len()));
    lemma_values_after_settles(values0, schema);
    lemma_declared_after_len(declared0, schema);
    if 0 <= k < schema.len() && forall|j: int| 0 <= j < schema.len() && j != k ==> (#[trigger] schema[j]).id != schema[k].id {
        lemma_schema_key_unique(values0, declared0, schema, k);
    }
    if 0 <= i < values0.len() && !names_key(schema, i) {
        lemma_values_after_untouched(values0, schema, i);
    }
    if 0 <= i < declared0.len() && !names_key(schema, i) {
        lemma_declared_after_at(declared0, declared0, schema, i);
    }
}

/// Reading a key right after an accepted write gives back the value written,
/// or the value already stored when it equals the one written.
pub proof fn law_blackboard_read_after_write(
    values: Seq<Option<BlackboardValue>>,
    declared: Seq<Option<BlackboardValueType>>,
    revision: u64,
    dirty: Seq<BlackboardKeyId>,
    key: BlackboardKeyId,
    value: BlackboardValue,
)
    requires
        (key.0 as int) < values.len(),
        (key.0 as int) < declared.len(),
        declared[key.0 as int] matches Some(t) ==> t == value.spec_value_type(),
    ensures
        write_effect(values, declared, revision, dirty, key, value).0[key.0 as int] == Some(value)
            || (values[key.0 as int] matches Some(v) && values_equal(v, value)
                && write_effect(values, declared, revision, dirty, key, value).0 == values),
{
}

/// A write of a value equal to the stored one changes nothing: no new
/// revision, no new dirty key.
pub proof fn law_blackboard_equal_write_is_silent(
    values: Seq<Option<BlackboardValue>>,
    declared: Seq<Option<BlackboardValueType>>,
    revision: u64,
    dirty: Seq<BlackboardKeyId>,
    key: BlackboardKeyId,
    value: BlackboardValue,
)
    requires
        (key.0 as int) < values.len(),
        values[key.0 as int] matches Some(v) && values_equal(v, value),
    ensures
        write_effect(values, declared, revision, dirty, key, value) == (values, revision, dirty),
{
}

/// The revision never goes backwards, and it moves on every write that
/// changes a value (until it saturates).
pub proof fn law_blackboard_revision_monotone(
    values: Seq<Option<BlackboardValue>>,
    declared: Seq<Option<BlackboardValueType>>,
    revision: u64,
    dirty: Seq<BlackboardKeyId>,
    key: BlackboardKeyId,
    value: BlackboardValue,
)
    ensures
        write_effect(values, declared, revision, dirty, key, value).1 >= revision,
        write_effect(values, declared, revision, dirty, key, value).0 != values && revision < u64::MAX
            ==> write_effect(values, declared, revision, dirty, key, value).1 == revision + 1,
{
}

/// Clearing a signal that was just queued leaves exactly the other queued
/// signals.
pub proof fn law_clear_undoes_queue(signals: Seq<SignalId>, signal: SignalId)
    requires
        !signals.contains(signal),
    ensures
        signals.push(signal).filter(other_signals(signal)) == signals.filter(other_signals(signal)),
        signals.filter(other_signals(signal)) == signals,
{
    let pred = other_signals(signal);
    reveal_with_fuel(Seq::filter, 1);
    assert(signals.push(signal).drop_last() =~= signals);
    lemma_filter_keeps_all(signals, signal);
}

proof fn lemma_filter_keeps_all(signals: Seq<SignalId>, signal: SignalId)
    requires
        !signals.contains(signal),
    ensures
        signals.filter(other_signals(signal)) == signals,
    decreases signals.len(),
{
    reveal_with_fuel(Seq::filter, 1);
    if signals.len() > 0 {
        let t = signals.drop_last();
        assert(!t.contains(signal)) by {
            if t.contains(signal) {
                let k = choose|k: int| 0 <= k < t.len() && t[k] == signal;
                assert(signals[k] == signal);
            }
        }
        lemma_filter_keeps_all(t, signal);
        assert(signals.last() != signal) by {
            assert(signals[signals.len() - 1] == signals.last());
        }
        assert(t.push(signals.last()) =~= signals);
    } else {
        assert(signals.filter(other_signals(signal)) =~= signals);
    }
}

/// Active regions are always listed in canonical order: by region id, then
/// by leaf id.
pub proof fn law_active_regions_ordered(regions: Seq<ActiveRegionView>)
    ensures
        keys_ascending(sorted_regions(regions), region_order()),
        sorted_regions(regions).len() == regions.len(),
{
    lemma_stable_sort_ascending(regions, region_order());
}

/// A pending-mode transition held back only by exit readiness waits as
/// pending instead of being refused.
pub proof fn law_pending_mode_waits_for_exit(
    definition: StateMachineDefinition,
    instance: StateMachineInstance,
    transition: TransitionDefinition,
    results: (bool, i64, Seq<bool>),
)
    requires
        transition.mode == TransitionMode::Pending,
        spec_trigger_block_reason(definition, instance, transition) is None,
        transition.guard is None,
        transition.utility_policy == UtilityPolicy::Disabled,
        transition.cooldown_micros == 0 || (transition.id.0 as int) >= instance.transition_cooldowns_micros@.len()
            || instance.transition_cooldowns_micros@[transition.id.0 as int] == 0,
        transition.debounce_micros == 0,
        transition.operation == TransitionOperation::Replace,
        (transition.id.0 as int) >= instance.transition_cooldowns_micros@.len() || instance.transition_cooldowns_micros@[transition.id.0 as int] == 0,
        !spec_can_exit(definition, instance, transition, results.2),
    ensures
        spec_block_reason(definition, instance, transition, results).0 == Some(TransitionBlockedReason::PendingExit),
{
}

/// A push is refused with an explicit stack-overflow reason once the stack
/// holds as many frames as the configuration allows.
pub proof fn law_push_blocked_at_max_depth(
    definition: StateMachineDefinition,
    instance: StateMachineInstance,
    transition: TransitionDefinition,
    results: (bool, i64, Seq<bool>),
)
    requires
        transition.operation == TransitionOperation::Push,
        instance.stack.frames@.len() >= instance.config.max_stack_depth,
        spec_trigger_block_reason(definition, instance, transition) is None,
        transition.guard is None,
        transition.utility_policy == UtilityPolicy::Disabled,
        transition.debounce_micros == 0,
        (transition.id.0 as int) >= instance.transition_cooldowns_micros@.len() || instance.transition_cooldowns_micros@[transition.id.0 as int] == 0,
    ensures
        spec_block_reason(definition, instance, transition, results).0 == Some(TransitionBlockedReason::StackOverflow),
{
}

/// A transition still cooling down is refused for that reason once its
/// trigger and guard let it through.
pub proof fn law_cooldown_blocks_refire(
    definition: StateMachineDefinition,
    instance: StateMachineInstance,
    transition: TransitionDefinition,
    results: (bool, i64, Seq<bool>),
)
    requires
        spec_trigger_block_reason(definition, instance, transition) is None,
        transition.guard is None,
        transition.utility_policy == UtilityPolicy::Disabled,
        (transition.id.0 as int) < instance.transition_cooldowns_micros@.len(),
        instance.transition_cooldowns_micros@[transition.id.0 as int] > 0,
    ensures
        spec_block_reason(definition, instance, transition, results).0 == Some(TransitionBlockedReason::CooldownActive),
{
}

proof fn lemma_timers_slot(
    definition: StateMachineDefinition,
    timers: Seq<u64>,
    held: spec_fn(int) -> bool,
    delta: u64,
    k: int,
    n: nat,
)
    requires
        0 <= k < definition.transitions@.len(),
        n <= definition.transitions@.len(),
        (definition.transitions@[k].id.0 as int) < timers.len(),
        forall|j: int| 0 <= j < definition.transitions@.len() && j != k
            ==> #[trigger] definition.transitions@[j].id != definition.transitions@[k].id,
    ensures
        ({
            let id = definition.transitions@[k].id.0 as int;
            let after = timers_advanced(definition, timers, held, delta, n);
            &&& after.len() == timers.len()
            &&& after[id] == (if n <= k {
                timers[id]
            } else if held(k) {
                capped_add(timers[id] as int, delta as int) as u64
            } else {
                0u64
            })
        }),
    decreases n,
{
    if n > 0 {
        lemma_timers_slot(definition, timers, held, delta, k, (n - 1) as nat);
        if n - 1 != k {
            let a = definition.transitions@[n - 1].id;
            let b = definition.transitions@[k].id;
            assert(a != b);
            assert(a.0 != b.0);
        }
    }
}

/// The id of the `k`-th transition belongs to no other transition.
pub open spec fn id_unique(definition: StateMachineDefinition, k: int) -> bool {
    forall|j: int| 0 <= j < definition.transitions@.len() && j != k
        ==> #[trigger] definition.transitions@[j].id != definition.transitions@[k].id
}

/// Debounce counts the time a guard has held: on an evaluated frame the
/// timer of a transition (whose id no other transition shares) grows by the
/// frame's time when its source is active and its guard passes, and is back
/// at 0 otherwise; on a frame without evaluation it grows when the guard held
/// at the last evaluation and the source is still active, and is back at 0
/// otherwise.
pub proof fn law_debounce_counts_held_time(
    definition: StateMachineDefinition,
    instance: StateMachineInstance,
    results: Seq<CallbackResults>,
    delta: u64,
    k: int,
)
    requires
        0 <= k < definition.transitions@.len(),
        (definition.transitions@[k].id.0 as int) < instance.guard_true_for_micros@.len(),
        id_unique(definition, k),
    ensures
        ({
            let id = definition.transitions@[k].id.0 as int;
            let old_timer = instance.guard_true_for_micros@[id];
            &&& guard_timers_after(definition, instance, results, delta, definition.transitions@.len())[id]
                == (if guard_holds(definition, instance, results, k) { capped_add(old_timer as int, delta as int) as u64 } else { 0u64 })
            &&& guard_timers_carried(definition, instance, delta, definition.transitions@.len())[id]
                == (if guard_carried(definition, instance, k) { capped_add(old_timer as int, delta as int) as u64 } else { 0u64 })
        }),
{
    let n = definition.transitions@.len();
    lemma_timers_slot(definition, instance.guard_true_for_micros@, holds_now(definition, instance, results), delta, k, n);
    lemma_timers_slot(definition, instance.guard_true_for_micros@, holds_carried(definition, instance), delta, k, n);
}

/// The frame times added up.
pub open spec fn total_time(deltas: Seq<u64>) -> int
    decreases deltas.len(),
{
    if deltas.len() == 0 {
        0
    } else {
        total_time(deltas.drop_last()) + deltas.last()
    }
}

/// One frame of guard tracking in which the guard of the `k`-th transition
/// holds: an evaluated frame whose answers pass it, or a frame without
/// evaluation that carries the last answer.
pub open spec fn held_frame(
    definition: StateMachineDefinition,
    before: StateMachineInstance,
    after: StateMachineInstance,
    results: Seq<CallbackResults>,
    delta: u64,
    evaluated: bool,
    k: int,
) -> bool {
    let n = definition.transitions@.len();
    if evaluated {
        &&& after.guard_true_for_micros@ == guard_timers_after(definition, before, results, delta, n)
        &&& guard_holds(definition, before, results, k)
    } else {
        &&& after.guard_true_for_micros@ == guard_timers_carried(definition, before, delta, n)
        &&& guard_carried(definition, before, k)
    }
}

proof fn lemma_held_frames(
    definition: StateMachineDefinition,
    frames: Seq<StateMachineInstance>,
    deltas: Seq<u64>,
    evaluated: Seq<bool>,
    results: Seq<Seq<CallbackResults>>,
    k: int,
    m: int,
)
    requires
        frames.len() == deltas.len() + 1,
        evaluated.len() == deltas.len(),
        results.len() == deltas.len(),
        0 <= k < definition.transitions@.len(),
        id_unique(definition, k),
        (definition.transitions@[k].id.0 as int) < frames[0].guard_true_for_micros@.len(),
        forall|i: int| 0 <= i < deltas.len()
            ==> held_frame(definition, #[trigger] frames[i], frames[i + 1], results[i], deltas[i], evaluated[i], k),
        0 <= m <= deltas.len(),
    ensures
        ({
            let id = definition.transitions@[k].id.0 as int;
            &&& frames[m].guard_true_for_micros@.len() == frames[0].guard_true_for_micros@.len()
            &&& frames[m].guard_true_for_micros@[id] as int
                == capped_add(frames[0].guard_true_for_micros@[id] as int, total_time(deltas.subrange(0, m)))
        }),
    decreases m,
{
    let id = definition.transitions@[k].id.0 as int;
    if m == 0 {
        assert(deltas.subrange(0, 0) =~= Seq::<u64>::empty());
    } else {
        lemma_held_frames(definition, frames, deltas, evaluated, results, k, m - 1);
        let i = m - 1;
        assert(held_frame(definition, frames[i], frames[i + 1], results[i], deltas[i], evaluated[i], k));
        law_debounce_counts_held_time(definition, frames[i], results[i], deltas[i], k);
        let n = definition.transitions@.len();
        lemma_timers_slot(definition, frames[i].guard_true_for_micros@, holds_now(definition, frames[i], results[i]), deltas[i], k, n);
        lemma_timers_slot(definition, frames[i].guard_true_for_micros@, holds_carried(definition, frames[i]), deltas[i], k, n);
        let prefix = deltas.subrange(0, m);
        assert(prefix.drop_last() =~= deltas.subrange(0, i));
        assert(prefix.last() == deltas[i]);
    }
}

/// Debounce lifts once the guard has held long enough in total: over
/// consecutive frames in each of which the guard of a transition holds
/// (evaluated, or carried from the last evaluation while its source stays
/// active), its timer reaches the frames' total time (capped at
/// `u64::MAX`), and once that total reaches the debounce time the
/// transition is no longer held back by debounce.
pub proof fn law_debounce_lifts_after_held_frames(
    definition: StateMachineDefinition,
    frames: Seq<StateMachineInstance>,
    deltas: Seq<u64>,
    evaluated: Seq<bool>,
    results: Seq<Seq<CallbackResults>>,
    k: int,
    answers: (bool, i64, Seq<bool>),
)
    requires
        frames.len() == deltas.len() + 1,
        evaluated.len() == deltas.len(),
        results.len() == deltas.len(),
        0 <= k < definition.transitions@.len(),
        id_unique(definition, k),
        (definition.transitions@[k].id.0 as int) < frames[0].guard_true_for_micros@.len(),
        forall|i: int| 0 <= i < deltas.len()
            ==> held_frame(definition, #[trigger] frames[i], frames[i + 1], results[i], deltas[i], evaluated[i], k),
    ensures
        ({
            let id = definition.transitions@[k].id.0 as int;
            &&& frames.last().guard_true_for_micros@[id] as int
                == capped_add(frames[0].guard_true_for_micros@[id] as int, total_time(deltas))
            &&& total_time(deltas) >= definition.transitions@[k].debounce_micros
                ==> spec_block_reason(definition, frames.last(), definition.transitions@[k], answers).0
                    != Some(TransitionBlockedReason::DebounceActive)
        }),
{
    lemma_held_frames(definition, frames, deltas, evaluated, results, k, deltas.len() as int);
    assert(deltas.subrange(0, deltas.len() as int) =~= deltas);
    assert(frames.last() == frames[deltas.len() as int]);
    lemma_total_time_nonneg(deltas);
    law_debounce_lifts_once_held_long_enough(definition, frames.last(), definition.transitions@[k], answers);
}

proof fn lemma_total_time_nonneg(deltas: Seq<u64>)
    ensures
        total_time(deltas) >= 0,
    decreases deltas.len(),
{
    if deltas.len() > 0 {
        lemma_total_time_nonneg(deltas.drop_last());
    }
}

/// A debounced transition is held back for its debounce exactly while its
/// guard has held for less than the debounce time: once the timer reaches
/// the debounce time, debounce no longer blocks it.
pub proof fn law_debounce_lifts_once_held_long_enough(
    definition: StateMachineDefinition,
    instance: StateMachineInstance,
    transition: TransitionDefinition,
    results: (bool, i64, Seq<bool>),
)
    requires
        (transition.id.0 as int) < instance.guard_true_for_micros@.len(),
    ensures
        instance.guard_true_for_micros@[transition.id.0 as int] >= transition.debounce_micros
            ==> spec_block_reason(definition, instance, transition, results).0 != Some(TransitionBlockedReason::DebounceActive),
        ({
            &&& transition.debounce_micros > 0
            &&& instance.guard_true_for_micros@[transition.id.0 as int] < transition.debounce_micros
            &&& spec_trigger_block_reason(definition, instance, transition) is None
            &&& (transition.guard is Some ==> results.0)
            &&& transition.utility_policy == UtilityPolicy::Disabled
            &&& !((transition.id.0 as int) < instance.transition_cooldowns_micros@.len()
                && instance.transition_cooldowns_micros@[transition.id.0 as int] > 0)
        }) ==> spec_block_reason(definition, instance, transition, results).0 == Some(TransitionBlockedReason::DebounceActive),
{
}

proof fn lemma_first_shallow_push(a: Seq<(RegionId, StateId)>, x: (RegionId, StateId), region_id: RegionId)
    ensures
        first_shallow(a.push(x), region_id) == (match first_shallow(a, region_id) {
            Some(c) => Some(c),
            None => if x.0 == region_id { Some(x.1) } else { None },
        }),
    decreases a.len(),
{
    if a.len() == 0 {
        assert(a.push(x).drop_first() =~= Seq::<(RegionId, StateId)>::empty());
        assert(a.push(x)[0] == x);
        assert(first_shallow(Seq::<(RegionId, StateId)>::empty(), region_id) is None);
    } else {
        assert(a.push(x).drop_first() =~= a.drop_first().push(x));
        assert(a.push(x)[0] == a[0]);
        lemma_first_shallow_push(a.drop_first(), x, region_id);
    }
}

proof fn lemma_shallow_entries_only(
    definition: StateMachineDefinition,
    regions: Seq<ActiveRegionView>,
    s: StateId,
    key: RegionId,
    c: StateId,
)
    requires
        forall|j: int| 0 <= j < regions.len() && has_child_below(#[trigger] regions[j], s)
            && shallow_key(definition, regions[j], s) == key ==> child_below(regions[j], s) == c,
    ensures
        first_shallow(shallow_entries(definition, regions, s), key) is None
            || first_shallow(shallow_entries(definition, regions, s), key) == Some(c),
    decreases regions.len(),
{
    if regions.len() == 0 {
        assert(shallow_entries(definition, regions, s) =~= Seq::<(RegionId, StateId)>::empty());
    } else {
        let t = regions.drop_last();
        assert forall|j: int| 0 <= j < t.len() && has_child_below(#[trigger] t[j], s)
            && shallow_key(definition, t[j], s) == key implies child_below(t[j], s) == c by {
            assert(t[j] == regions[j]);
        }
        lemma_shallow_entries_only(definition, t, s, key, c);
        let last = regions.last();
        assert(regions[regions.len() - 1] == last);
        if has_child_below(last, s) {
            lemma_first_shallow_push(shallow_entries(definition, t, s), (shallow_key(definition, last, s), child_below(last, s)), key);
        }
    }
}

proof fn lemma_shallow_entries_lookup(definition: StateMachineDefinition, regions: Seq<ActiveRegionView>, s: StateId, k: int)
    requires
        0 <= k < regions.len(),
        has_child_below(regions[k], s),
        forall|j: int| 0 <= j < regions.len() && has_child_below(#[trigger] regions[j], s)
            && shallow_key(definition, regions[j], s) == shallow_key(definition, regions[k], s)
            ==> child_below(regions[j], s) == child_below(regions[k], s),
    ensures
        first_shallow(shallow_entries(definition, regions, s), shallow_key(definition, regions[k], s))
            == Some(child_below(regions[k], s)),
    decreases regions.len(),
{
    let key = shallow_key(definition, regions[k], s);
    let c = child_below(regions[k], s);
    let t = regions.drop_last();
    assert forall|j: int| 0 <= j < t.len() && has_child_below(#[trigger] t[j], s)
        && shallow_key(definition, t[j], s) == key implies child_below(t[j], s) == c by {
        assert(t[j] == regions[j]);
    }
    let last = regions.last();
    assert(regions[regions.len() - 1] == last);
    if k == regions.len() - 1 {
        lemma_shallow_entries_only(definition, t, s, key, c);
        lemma_first_shallow_push(shallow_entries(definition, t, s), (key, c), key);
    } else {
        assert(t[k] == regions[k]);
        lemma_shallow_entries_lookup(definition, t, s, k);
        if has_child_below(last, s) {
            lemma_first_shallow_push(shallow_entries(definition, t, s), (shallow_key(definition, last, s), child_below(last, s)), key);
        }
    }
}

/// Shallow history: when a state exits, re-entering one of its regions under
/// shallow history goes back to the direct child that was last active in
/// that region (given one such child per region, as in any active
/// configuration), whether that child is a leaf or has children of its own.
pub proof fn law_shallow_history_restores_child(
    definition: StateMachineDefinition,
    regions: Seq<ActiveRegionView>,
    s: StateId,
    k: int,
    initial: Option<StateId>,
)
    requires
        0 <= k < regions.len(),
        has_child_below(regions[k], s),
        forall|j: int| 0 <= j < regions.len() && has_child_below(#[trigger] regions[j], s)
            && shallow_key(definition, regions[j], s) == shallow_key(definition, regions[k], s)
            ==> child_below(regions[j], s) == child_below(regions[k], s),
    ensures
        definition.region_targets(Some(exit_snapshot(definition, regions, s)), HistoryMode::Shallow, shallow_key(definition, regions[k], s), initial)
            == seq![child_below(regions[k], s)],
{
    lemma_shallow_entries_lookup(definition, regions, s, k);
}

/// Without history (or before any exit was recorded) a region is entered at
/// its initial state.
pub proof fn law_no_history_enters_initial(
    definition: StateMachineDefinition,
    history: Option<HistoryView>,
    mode: HistoryMode,
    region_id: RegionId,
    initial: Option<StateId>,
)
    requires
        mode == HistoryMode::NoHistory || history is None,
    ensures
        definition.region_targets(history, mode, region_id, initial) == option_seq(initial),
{
}

proof fn lemma_regions_containing_has(regions: Seq<ActiveRegionView>, s: StateId, k: int)
    requires
        0 <= k < regions.len(),
        regions[k].path.contains(s),
    ensures
        regions_containing(regions, s).contains(regions[k]),
    decreases regions.len(),
{
    let t = regions.drop_last();
    if k == regions.len() - 1 {
        assert(regions_containing(regions, s).last() == regions[k]);
    } else {
        assert(t[k] == regions[k]);
        lemma_regions_containing_has(t, s, k);
        let prev = regions_containing(t, s);
        let i = choose|i: int| 0 <= i < prev.len() && prev[i] == regions[k];
        if regions.last().path.contains(s) {
            assert(prev.push(regions.last())[i] == regions[k]);
        }
    }
}

proof fn lemma_deep_leaves_has(definition: StateMachineDefinition, entries: Seq<ActiveRegionView>, region_id: RegionId, m: int)
    requires
        0 <= m < entries.len(),
        definition.spec_leaf_belongs_to_region(entries[m].leaf_state, region_id),
    ensures
        definition.deep_leaves(entries, region_id).contains(entries[m].leaf_state),
    decreases entries.len(),
{
    let t = entries.drop_last();
    if m == entries.len() - 1 {
        assert(definition.deep_leaves(entries, region_id).last() == entries[m].leaf_state);
    } else {
        assert(t[m] == entries[m]);
        lemma_deep_leaves_has(definition, t, region_id, m);
        let prev = definition.deep_leaves(t, region_id);
        let i = choose|i: int| 0 <= i < prev.len() && prev[i] == entries[m].leaf_state;
        if definition.spec_leaf_belongs_to_region(entries.last().leaf_state, region_id) {
            assert(prev.push(entries.last().leaf_state)[i] == entries[m].leaf_state);
        }
    }
}

/// Deep history: when a state exits, a deep re-entry of one of its regions
/// restores every leaf that was active below the state and belongs to that
/// region (all of them, so a parallel descendant comes back with each of its
/// recorded regions), and nothing but those leaves.
pub proof fn law_deep_history_restores_leaves(
    definition: StateMachineDefinition,
    regions: Seq<ActiveRegionView>,
    s: StateId,
    k: int,
    region_id: RegionId,
    initial: Option<StateId>,
)
    requires
        0 <= k < regions.len(),
        regions[k].path.contains(s),
        definition.spec_leaf_belongs_to_region(regions[k].leaf_state, region_id),
    ensures
        definition.region_targets(Some(exit_snapshot(definition, regions, s)), HistoryMode::Deep, region_id, initial)
            == definition.deep_leaves(regions_containing(regions, s), region_id),
        definition.region_targets(Some(exit_snapshot(definition, regions, s)), HistoryMode::Deep, region_id, initial)
            .contains(regions[k].leaf_state),
{
    lemma_regions_containing_has(regions, s, k);
    let below = regions_containing(regions, s);
    let m = choose|m: int| 0 <= m < below.len() && below[m] == regions[k];
    lemma_deep_leaves_has(definition, below, region_id, m);
}

/// Re-entering a state with shallow history enters, in the child region
/// that held it, the direct child that was active when the state last
/// exited (given one such child per region, as in any active configuration),
/// whether that child is a leaf or has children of its own; this is what
/// entering (`enter_target`) does for that region.
pub proof fn law_shallow_reentry_targets_last_child(
    definition: StateMachineDefinition,
    history: Seq<Option<HistoryView>>,
    enabled: Seq<RegionId>,
    parent: StateId,
    k: int,
    regions: Seq<ActiveRegionView>,
    j: int,
)
    requires
        definition.spec_state(parent) matches Some(state) && state.history_mode == HistoryMode::Shallow
            && 0 <= k < state.child_regions@.len()
            && spec_region_is_enabled(enabled, state.child_regions@[k])
            && definition.spec_region(state.child_regions@[k]) is Some
            && shallow_key(definition, regions[j], parent) == state.child_regions@[k],
        history_at(history, parent) == Some(exit_snapshot(definition, regions, parent)),
        0 <= j < regions.len(),
        has_child_below(regions[j], parent),
        forall|i: int| 0 <= i < regions.len() && has_child_below(#[trigger] regions[i], parent)
            && shallow_key(definition, regions[i], parent) == shallow_key(definition, regions[j], parent)
            ==> child_below(regions[i], parent) == child_below(regions[j], parent),
    ensures
        definition.child_targets(history, enabled, parent, k) == seq![child_below(regions[j], parent)],
{
    let state = definition.spec_state(parent).unwrap();
    let region = definition.spec_region(state.child_regions@[k]).unwrap();
    law_shallow_history_restores_child(definition, regions, parent, j, region.initial_state);
}

/// Re-entering a state with deep history enters, in each child region, every
/// leaf that was active below the state when it last exited and belongs to
/// that region; this is what entering (`enter_target`) does for that region.
pub proof fn law_deep_reentry_targets_recorded_leaves(
    definition: StateMachineDefinition,
    history: Seq<Option<HistoryView>>,
    enabled: Seq<RegionId>,
    parent: StateId,
    k: int,
    regions: Seq<ActiveRegionView>,
    j: int,
)
    requires
        definition.spec_state(parent) matches Some(state) && state.history_mode == HistoryMode::Deep
            && 0 <= k < state.child_regions@.len()
            && spec_region_is_enabled(enabled, state.child_regions@[k])
            && definition.spec_region(state.child_regions@[k]) is Some
            && definition.spec_leaf_belongs_to_region(regions[j].leaf_state, state.child_regions@[k]),
        history_at(history, parent) == Some(exit_snapshot(definition, regions, parent)),
        0 <= j < regions.len(),
        regions[j].path.contains(parent),
    ensures
        definition.child_targets(history, enabled, parent, k).contains(regions[j].leaf_state),
        definition.child_targets(history, enabled, parent, k)
            == definition.deep_leaves(regions_containing(regions, parent), definition.spec_state(parent).unwrap().child_regions@[k]),
{
    let state = definition.spec_state(parent).unwrap();
    let region = definition.spec_region(state.child_regions@[k]).unwrap();
    law_deep_history_restores_leaves(definition, regions, parent, j, state.child_regions@[k], region.initial_state);
}

} // verus!
