use vstd::prelude::*;

use crate::debug::TransitionBlockedReason;
use crate::definition::{TransitionId, UtilityPolicy};
use crate::instance::{InstanceThresholdOverride, PendingTransition, StateMachineInstance};

verus! {

/// One candidate transition as seen by arbitration. Scores are in millionths
/// of a score unit.
#[derive(Clone, Copy, Debug, PartialEq, Eq, Structural)]
pub struct EvaluatedTransition {
    pub transition_id: TransitionId,
    pub source_depth: usize,
    pub priority: i32,
    pub score_micros: i64,
    pub declaration_order: usize,
    pub reason_if_blocked: Option<TransitionBlockedReason>,
}

/// `a` wins over `b`: a deeper source, then a higher priority, then a higher
/// score, then an earlier declaration.
pub open spec fn outranks(a: EvaluatedTransition, b: EvaluatedTransition) -> bool {
    ||| a.source_depth > b.source_depth
    ||| a.source_depth == b.source_depth && a.priority > b.priority
    ||| a.source_depth == b.source_depth && a.priority == b.priority && a.score_micros > b.score_micros
    ||| a.source_depth == b.source_depth && a.priority == b.priority && a.score_micros == b.score_micros
        && a.declaration_order < b.declaration_order
}

/// Candidate `i` is the winner: nothing outranks it, and it outranks every
/// earlier candidate (ties go to the earliest).
pub open spec fn is_winner(candidates: Seq<EvaluatedTransition>, i: int) -> bool {
    &&& 0 <= i < candidates.len()
    &&& forall|j: int| 0 <= j < candidates.len() ==> !outranks(#[trigger] candidates[j], candidates[i])
    &&& forall|j: int| 0 <= j < i ==> outranks(candidates[i], #[trigger] candidates[j])
}

/// The winner of arbitration among the candidates, if there is any candidate.
pub open spec fn spec_best_candidate(candidates: Seq<EvaluatedTransition>) -> Option<EvaluatedTransition> {
    if candidates.len() == 0 {
        None
    } else {
        Some(candidates[choose|i: int| is_winner(candidates, i)])
    }
}

/// At most one candidate is the winner.
pub proof fn lemma_winner_unique(candidates: Seq<EvaluatedTransition>, i: int, j: int)
    requires
        is_winner(candidates, i),
        is_winner(candidates, j),
    ensures
        i == j,
{
    if i < j {
        assert(outranks(candidates[j], candidates[i]));
    }
    if j < i {
        assert(outranks(candidates[i], candidates[j]));
    }
}

/// The candidate that arbitration picks, if any.
pub fn choose_best_candidate(candidates: &Vec<EvaluatedTransition>) -> (r: Option<EvaluatedTransition>)
    ensures
        r == spec_best_candidate(candidates@),
        r matches Some(c) ==> exists|i: int| is_winner(candidates@, i) && c == candidates@[i],
{
    if candidates.len() == 0 {
        return None;
    }
    let mut best: usize = 0;
    let mut k: usize = 1;
    while k < candidates.len()
        invariant
            1 <= k <= candidates@.len(),
            best < k,
            forall|j: int| 0 <= j < k ==> !outranks(#[trigger] candidates@[j], candidates@[best as int]),
            forall|j: int| 0 <= j < best ==> outranks(candidates@[best as int], #[trigger] candidates@[j]),
        decreases candidates@.len() - k,
    {
        let c = candidates[k];
        let b = candidates[best];
        let better = c.source_depth > b.source_depth
            || (c.source_depth == b.source_depth && c.priority > b.priority)
            || (c.source_depth == b.source_depth && c.priority == b.priority && c.score_micros > b.score_micros)
            || (c.source_depth == b.source_depth && c.priority == b.priority && c.score_micros == b.score_micros
                && c.declaration_order < b.declaration_order);
        if better {
            proof {
                assert forall|j: int| 0 <= j < k + 1 implies !outranks(#[trigger] candidates@[j], c) by {
                    if j < k {
                        assert(!outranks(candidates@[j], b));
                    }
                }
                assert forall|j: int| 0 <= j < k implies outranks(c, #[trigger] candidates@[j]) by {
                    assert(!outranks(candidates@[j], b));
                }
            }
            best = k;
        }
        k = k + 1;
    }
    proof {
        assert(is_winner(candidates@, best as int));
        let w = choose|i: int| is_winner(candidates@, i);
        lemma_winner_unique(candidates@, w, best as int);
    }
    Some(candidates[best])
}

/// The utility threshold (millionths) of a transition for an instance: the
/// first matching override, else the policy's own threshold.
pub open spec fn spec_threshold_for(
    overrides: Seq<InstanceThresholdOverride>,
    transition_id: TransitionId,
    policy: UtilityPolicy,
) -> int
    decreases overrides.len(),
{
    if overrides.len() == 0 {
        policy.spec_minimum_score_micros()
    } else if overrides[0].transition_id == transition_id {
        overrides[0].minimum_score_micros as int
    } else {
        spec_threshold_for(overrides.drop_first(), transition_id, policy)
    }
}

pub fn threshold_for(instance: &StateMachineInstance, transition_id: TransitionId, policy: UtilityPolicy) -> (r: i64)
    ensures
        r == spec_threshold_for(instance.config.utility_threshold_overrides@, transition_id, policy),
{
    let overrides = &instance.config.utility_threshold_overrides;
    let mut i: usize = 0;
    proof {
        assert(overrides@.subrange(0, overrides@.len() as int) =~= overrides@);
    }
    while i < overrides.len()
        invariant
            i <= overrides@.len(),
            overrides@ == instance.config.utility_threshold_overrides@,
            spec_threshold_for(overrides@, transition_id, policy)
                == spec_threshold_for(overrides@.subrange(i as int, overrides@.len() as int), transition_id, policy),
        decreases overrides@.len() - i,
    {
        let ghost rest = overrides@.subrange(i as int, overrides@.len() as int);
        if overrides[i].transition_id == transition_id {
            proof {
                assert(rest.len() > 0);
                assert(rest[0] == overrides@[i as int]);
                assert(rest[0].transition_id == transition_id);
                assert(spec_threshold_for(rest, transition_id, policy) == rest[0].minimum_score_micros as int);
            }
            return overrides[i].minimum_score_micros;
        }
        proof {
            assert(rest.len() > 0);
            assert(rest[0] == overrides@[i as int]);
            assert(rest.drop_first() =~= overrides@.subrange(i + 1, overrides@.len() as int));
        }
        i = i + 1;
    }
    proof {
        assert(overrides@.subrange(i as int, overrides@.len() as int) =~= Seq::<InstanceThresholdOverride>::empty());
    }
    policy.minimum_score_micros()
}

/// The transition named by a pending decision.
pub open spec fn spec_pending_transition_id(pending: Option<PendingTransition>) -> Option<TransitionId> {
    match pending {
        Some(PendingTransition::Ready(id)) => Some(id),
        Some(PendingTransition::Waiting { transition_id, .. }) => Some(transition_id),
        None => None,
    }
}

pub fn pending_transition_id(pending: &Option<PendingTransition>) -> (r: Option<TransitionId>)
    ensures
        r == spec_pending_transition_id(*pending),
{
    match pending {
        Some(PendingTransition::Ready(id)) => Some(*id),
        Some(PendingTransition::Waiting { transition_id, .. }) => Some(*transition_id),
        None => None,
    }
}

} // verus!
