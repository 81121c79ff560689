use vstd::prelude::*;

use crate::definition::{StateId, StateMachineDefinition};
use crate::entering::append_entered;
use crate::evaluating::exit_checks;
use crate::executing::{depth_order, sort_by_depth};
use crate::instance::StateMachineInstance;
use crate::ordering::{append_new, stable_sort};
use crate::stack::{regions_view, ActiveRegionState, ActiveRegionView};
use crate::definition::TransitionSource;
use crate::timers::{capped_add, decay_toward_zero, occurrences, tick_active};

verus! {

/// Some active path holds a state whose id is `index`.
pub open spec fn index_active(regions: Seq<ActiveRegionView>, index: int) -> bool {
    exists|k: int, j: int| 0 <= k < regions.len() && 0 <= j < regions[k].path.len() && #[trigger] regions[k].path[j].0 == index
}

/// No index occurs twice.
pub open spec fn no_repeats(s: Seq<usize>) -> bool {
    forall|a: int, b: int| 0 <= a < b < s.len() ==> s[a] != s[b]
}

proof fn lemma_occurrences_no_repeats(s: Seq<usize>, i: usize)
    requires
        no_repeats(s),
    ensures
        occurrences(s, i as int) == (if s.contains(i) { 1nat } else { 0nat }),
    decreases s.len(),
{
    if s.len() > 0 {
        let t = s.drop_last();
        assert(no_repeats(t));
        lemma_occurrences_no_repeats(t, i);
        if s.contains(i) && s.last() != i {
            let k = choose|k: int| 0 <= k < s.len() && s[k] == i;
            assert(k != s.len() - 1);
            assert(t[k] == i);
        }
        if s.last() == i {
            assert(!t.contains(i)) by {
                if t.contains(i) {
                    let k = choose|k: int| 0 <= k < t.len() && t[k] == i;
                    assert(s[k] == s[s.len() - 1]);
                }
            }
            assert(s[s.len() - 1] == i);
        }
        if t.contains(i) {
            let k = choose|k: int| 0 <= k < t.len() && t[k] == i;
            assert(s[k] == i);
        }
    } else {
        assert(!s.contains(i));
    }
}

/// The ids of the states on the active paths, each once.
fn active_state_indices(regions: &Vec<ActiveRegionState>) -> (r: Vec<usize>)
    ensures
        no_repeats(r@),
        forall|i: usize| #[trigger] r@.contains(i) <==> index_active(regions_view(regions@), i as int),
{
    let ghost views = regions_view(regions@);
    let mut out: Vec<usize> = Vec::new();
    let mut k: usize = 0;
    while k < regions.len()
        invariant
            k <= regions@.len(),
            views == regions_view(regions@),
            no_repeats(out@),
            forall|i: usize| #[trigger] out@.contains(i) <==>
                exists|kk: int, j: int| 0 <= kk < k && 0 <= j < views[kk].path.len() && #[trigger] views[kk].path[j].0 == i as int,
        decreases regions@.len() - k,
    {
        let path = &regions[k].path;
        let mut j: usize = 0;
        while j < path.len()
            invariant
                j <= path@.len(),
                k < regions@.len(),
                views == regions_view(regions@),
                path@ == views[k as int].path,
                no_repeats(out@),
                forall|i: usize| #[trigger] out@.contains(i) <==>
                    (exists|kk: int, jj: int| 0 <= kk < k && 0 <= jj < views[kk].path.len() && #[trigger] views[kk].path[jj].0 == i as int)
                    || (exists|jj: int| 0 <= jj < j && #[trigger] path@[jj].0 == i as int),
            decreases path@.len() - j,
        {
            let index = path[j].0 as usize;
            let mut present = false;
            let mut m: usize = 0;
            while m < out.len()
                invariant
                    m <= out@.len(),
                    present == out@.subrange(0, m as int).contains(index),
                decreases out@.len() - m,
            {
                proof {
                    let next = out@.subrange(0, m + 1);
                    assert(next.drop_last() =~= out@.subrange(0, m as int));
                    if next.contains(index) {
                        let q = choose|q: int| 0 <= q < next.len() && next[q] == index;
                        if q < m {
                            assert(out@.subrange(0, m as int)[q] == index);
                        }
                    }
                    if out@.subrange(0, m as int).contains(index) {
                        let q = choose|q: int| 0 <= q < m && out@.subrange(0, m as int)[q] == index;
                        assert(next[q] == index);
                    }
                    if out@[m as int] == index {
                        assert(next[m as int] == index);
                    }
                }
                if out[m] == index {
                    present = true;
                }
                m = m + 1;
            }
            proof {
                assert(out@.subrange(0, out@.len() as int) =~= out@);
            }
            let ghost before = out@;
            if !present {
                out.push(index);
                proof {
                    assert forall|a: int, b: int| 0 <= a < b < out@.len() implies out@[a] != out@[b] by {
                        if b == out@.len() - 1 {
                            assert(before.contains(out@[a]) ==> true);
                            assert(out@[a] == before[a]);
                        }
                    }
                }
            }
            proof {
                assert forall|i: usize| #[trigger] out@.contains(i) <==>
                    (exists|kk: int, jj: int| 0 <= kk < k && 0 <= jj < views[kk].path.len() && #[trigger] views[kk].path[jj].0 == i as int)
                    || (exists|jj: int| 0 <= jj < j + 1 && #[trigger] path@[jj].0 == i as int) by {
                    if i == index {
                        assert(path@[j as int].0 == i as int);
                        if !present {
                            assert(out@[out@.len() - 1] == index);
                        }
                    } else {
                        if out@.contains(i) && !present {
                            let q = choose|q: int| 0 <= q < out@.len() && out@[q] == i;
                            assert(before[q] == i);
                        }
                        if before.contains(i) && !present {
                            let q = choose|q: int| 0 <= q < before.len() && before[q] == i;
                            assert(out@[q] == i);
                        }
                        if exists|jj: int| 0 <= jj < j + 1 && #[trigger] path@[jj].0 == i as int {
                            let jj = choose|jj: int| 0 <= jj < j + 1 && #[trigger] path@[jj].0 == i as int;
                            assert(jj != j);
                        }
                    }
                }
            }
            j = j + 1;
        }
        proof {
            assert forall|i: usize| #[trigger] out@.contains(i) <==>
                exists|kk: int, jj: int| 0 <= kk < k + 1 && 0 <= jj < views[kk].path.len() && #[trigger] views[kk].path[jj].0 == i as int by {
                if exists|jj: int| 0 <= jj < path@.len() && #[trigger] path@[jj].0 == i as int {
                    let jj = choose|jj: int| 0 <= jj < path@.len() && #[trigger] path@[jj].0 == i as int;
                    assert(views[k as int].path[jj].0 == i as int);
                }
                if exists|kk: int, jj: int| 0 <= kk < k + 1 && 0 <= jj < views[kk].path.len() && #[trigger] views[kk].path[jj].0 == i as int {
                    let (kk, jj) = choose|kk: int, jj: int| 0 <= kk < k + 1 && 0 <= jj < views[kk].path.len() && #[trigger] views[kk].path[jj].0 == i as int;
                    if kk == k {
                        assert(path@[jj].0 == i as int);
                    }
                }
            }
        }
        k = k + 1;
    }
    out
}

/// Advances the time spent in each active state by `delta_micros`
/// (saturating; a state on several active paths counts once) and runs every
/// transition cooldown down by the same amount, for an active instance.
pub fn advance_instance_timers(instance: &mut StateMachineInstance, delta_micros: u64)
    ensures
        !old(instance).spec_is_active() ==> *final(instance) == *old(instance),
        old(instance).spec_is_active() ==> {
            &&& final(instance).state_elapsed_micros@.len() == old(instance).state_elapsed_micros@.len()
            &&& forall|i: int| 0 <= i < old(instance).state_elapsed_micros@.len() ==> final(instance).state_elapsed_micros@[i] == (
                if index_active(regions_view(old(instance).active_regions@), i) {
                    capped_add(old(instance).state_elapsed_micros@[i] as int, delta_micros as int) as u64
                } else {
                    old(instance).state_elapsed_micros@[i]
                })
            &&& final(instance).transition_cooldowns_micros@.len() == old(instance).transition_cooldowns_micros@.len()
            &&& forall|i: int| 0 <= i < old(instance).transition_cooldowns_micros@.len() ==> final(instance).transition_cooldowns_micros@[i]
                == (if old(instance).transition_cooldowns_micros@[i] > delta_micros {
                    old(instance).transition_cooldowns_micros@[i] - delta_micros
                } else {
                    0
                })
            &&& *final(instance) == (StateMachineInstance {
                state_elapsed_micros: final(instance).state_elapsed_micros,
                transition_cooldowns_micros: final(instance).transition_cooldowns_micros,
                ..*old(instance)
            })
        },
{
    if !instance.is_active() {
        return;
    }
    let indices = active_state_indices(&instance.active_regions);
    let ghost old_elapsed = instance.state_elapsed_micros@;
    let n: usize = instance.state_elapsed_micros.len();
    tick_active(&mut instance.state_elapsed_micros, indices.as_slice(), delta_micros);
    decay_toward_zero(&mut instance.transition_cooldowns_micros, delta_micros);
    proof {
        assert forall|i: int| 0 <= i < old_elapsed.len() implies instance.state_elapsed_micros@[i] == (
            if index_active(regions_view(instance.active_regions@), i) {
                capped_add(old_elapsed[i] as int, delta_micros as int) as u64
            } else {
                old_elapsed[i]
            }) by {
            assert(i < n);
            let u = i as usize;
            lemma_occurrences_no_repeats(indices@, u);
            assert(indices@.contains(u) == index_active(regions_view(instance.active_regions@), u as int));
            if index_active(regions_view(instance.active_regions@), i) {
                assert(delta_micros * 1 == delta_micros);
            } else {
                assert(delta_micros * 0 == 0);
            }
        }
    }
}

/// The active states in the order their update actions run: each once,
/// shallower states first (ties in path order).
pub open spec fn spec_update_order(definition: StateMachineDefinition, regions: Seq<ActiveRegionView>) -> Seq<StateId> {
    stable_sort(append_new(Seq::empty(), exit_checks(regions, TransitionSource::AnyState)), depth_order(definition, false))
}

pub fn update_order(definition: &StateMachineDefinition, instance: &StateMachineInstance) -> (r: Vec<StateId>)
    requires
        definition.hierarchy_is_finite(),
    ensures
        r@ == spec_update_order(*definition, regions_view(instance.active_regions@)),
{
    let all = crate::evaluating::collect_exit_checks(&instance.active_regions, TransitionSource::AnyState);
    let mut unique: Vec<StateId> = Vec::new();
    append_entered(&mut unique, &all, 0);
    proof {
        assert(all@.subrange(0, all@.len() as int) =~= all@);
    }
    sort_by_depth(definition, &unique, false)
}

} // verus!
