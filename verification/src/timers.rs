use vstd::prelude::*;

use crate::definition::StateId;

verus! {

/// How often `index` occurs in `indices`.
pub open spec fn occurrences(indices: Seq<usize>, index: int) -> nat
    decreases indices.len(),
{
    if indices.len() == 0 {
        0
    } else {
        occurrences(indices.drop_last(), index) + if indices.last() as int == index { 1nat } else { 0nat }
    }
}

/// `value + amount`, capped at `u64::MAX`.
pub open spec fn capped_add(value: int, amount: int) -> int {
    if value + amount > u64::MAX { u64::MAX as int } else { value + amount }
}

/// Adds `delta` (saturating) to each listed timer, once per listing; indices
/// out of range are ignored.
pub fn tick_active(values: &mut Vec<u64>, active_indices: &[usize], delta: u64)
    ensures
        final(values)@.len() == old(values)@.len(),
        forall|i: int| 0 <= i < old(values)@.len() ==> final(values)@[i]
            == capped_add(old(values)@[i] as int, delta * occurrences(active_indices@, i)),
{
    let ghost original = values@;
    let mut k: usize = 0;
    proof {
        assert(active_indices@.subrange(0, 0) =~= Seq::<usize>::empty());
        assert(delta * 0 == 0) by (nonlinear_arith);
    }
    while k < active_indices.len()
        invariant
            k <= active_indices@.len(),
            values@.len() == original.len(),
            forall|i: int| 0 <= i < original.len() ==> values@[i]
                == capped_add(original[i] as int, delta * occurrences(active_indices@.subrange(0, k as int), i)),
        decreases active_indices@.len() - k,
    {
        let index = active_indices[k];
        if index < values.len() {
            let v = values[index];
            values.set(index, v.saturating_add(delta));
        }
        proof {
            let prefix = active_indices@.subrange(0, k as int);
            let next = active_indices@.subrange(0, k + 1);
            assert(next.drop_last() =~= prefix);
            assert(next.last() == index);
            assert forall|i: int| 0 <= i < original.len() implies values@[i]
                == capped_add(original[i] as int, delta * occurrences(next, i)) by {
                let n = occurrences(prefix, i);
                assert(delta * (n + 1) == delta * n + delta) by (nonlinear_arith);
                assert(delta * n >= 0) by (nonlinear_arith)
                    requires delta >= 0, n >= 0;
            }
        }
        k = k + 1;
    }
    proof {
        assert(active_indices@.subrange(0, active_indices@.len() as int) =~= active_indices@);
    }
}

/// Lowers every timer by `delta`, stopping at zero.
pub fn decay_toward_zero(values: &mut Vec<u64>, delta: u64)
    ensures
        final(values)@.len() == old(values)@.len(),
        forall|i: int| 0 <= i < old(values)@.len() ==> final(values)@[i]
            == (if old(values)@[i] > delta { old(values)@[i] - delta } else { 0 }),
{
    let ghost original = values@;
    let mut k: usize = 0;
    while k < values.len()
        invariant
            k <= values@.len(),
            values@.len() == original.len(),
            forall|i: int| 0 <= i < k ==> values@[i] == (if original[i] > delta { original[i] - delta } else { 0 }),
            forall|i: int| k <= i < original.len() ==> values@[i] == original[i],
        decreases original.len() - k,
    {
        let v = values[k];
        values.set(k, v.saturating_sub(delta));
        k = k + 1;
    }
}


/// Some state of `entered` has id `index`.
pub open spec fn names_index(entered: Seq<StateId>, index: int) -> bool {
    exists|j: int| 0 <= j < entered.len() && #[trigger] entered[j].0 == index
}

/// The per-state timers after the states in `entered` start afresh at 0.
pub open spec fn restarted(timers: Seq<u64>, entered: Seq<StateId>) -> Seq<u64> {
    Seq::new(timers.len(), |i: int| if names_index(entered, i) { 0u64 } else { timers[i] })
}

/// Restarts the timer of every entered state that has a slot.
pub fn restart_timers(timers: &mut Vec<u64>, entered: &Vec<StateId>)
    ensures
        final(timers)@ == restarted(old(timers)@, entered@),
{
    let ghost start = timers@;
    proof {
        assert(restarted(start, entered@.subrange(0, 0)) =~= start);
    }
    let mut j: usize = 0;
    while j < entered.len()
        invariant
            j <= entered@.len(),
            timers@ == restarted(start, entered@.subrange(0, j as int)),
        decreases entered@.len() - j,
    {
        let i = entered[j].0 as usize;
        if i < timers.len() {
            timers.set(i, 0);
        }
        proof {
            let a = entered@.subrange(0, j as int);
            let b = entered@.subrange(0, j + 1);
            assert forall|x: int| 0 <= x < start.len() implies #[trigger] timers@[x] == restarted(start, b)[x] by {
                if names_index(a, x) {
                    let k = choose|k: int| 0 <= k < a.len() && #[trigger] a[k].0 == x;
                    assert(b[k] == a[k]);
                }
                if x == i as int {
                    assert(b[j as int].0 == x);
                } else if names_index(b, x) {
                    let k = choose|k: int| 0 <= k < b.len() && #[trigger] b[k].0 == x;
                    assert(k < j);
                    assert(a[k] == b[k]);
                }
            }
            assert(timers@ =~= restarted(start, b));
        }
        j = j + 1;
    }
    proof {
        assert(entered@.subrange(0, entered@.len() as int) =~= entered@);
    }
}

} // verus!
