use vstd::prelude::*;

use crate::definition::{RegionId, StateId, StateKind, StateMachineDefinition, TransitionSource, TransitionTrigger};

verus! {

/// Number of `true` entries.
pub open spec fn count_true(s: Seq<bool>) -> nat
    decreases s.len(),
{
    if s.len() == 0 {
        0
    } else {
        count_true(s.drop_last()) + if s.last() { 1nat } else { 0nat }
    }
}

proof fn lemma_count_true_le(s: Seq<bool>)
    ensures
        count_true(s) <= s.len(),
    decreases s.len(),
{
    if s.len() > 0 {
        lemma_count_true_le(s.drop_last());
    }
}

proof fn lemma_count_true_set(s: Seq<bool>, i: int, b: bool)
    requires
        0 <= i < s.len(),
        s[i] != b,
    ensures
        b ==> count_true(s.update(i, b)) == count_true(s) + 1,
        !b ==> count_true(s.update(i, b)) + 1 == count_true(s),
    decreases s.len(),
{
    if i == s.len() - 1 {
        assert(s.update(i, b).drop_last() =~= s.drop_last());
    } else {
        lemma_count_true_set(s.drop_last(), i, b);
        assert(s.update(i, b).drop_last() =~= s.drop_last().update(i, b));
    }
}

/// The number of distinct state ids.
pub open spec fn id_space() -> nat {
    0x10000
}

impl StateMachineDefinition {
    /// `s` is a child of a root region that exists.
    pub open spec fn listed_by_root(self, s: StateId) -> bool {
        exists|k: int| #![trigger self.root_regions@[k]] 0 <= k < self.root_regions@.len()
            && (self.spec_region(self.root_regions@[k]) matches Some(region) && region.child_states@.contains(s))
    }

    /// `s` is a child of an existing child region of the existing state `t`.
    pub open spec fn listed_below(self, t: StateId, s: StateId) -> bool {
        self.spec_state(t) matches Some(state) && exists|c: int| #![trigger state.child_regions@[c]]
            0 <= c < state.child_regions@.len()
            && (self.spec_region(state.child_regions@[c]) matches Some(region) && region.child_states@.contains(s))
    }

    /// The states listed by a root region, or by a region below a state reached
    /// within `n - 1` steps.
    pub open spec fn reached(self, n: nat) -> Set<StateId>
        decreases n,
    {
        if n == 0 {
            Set::new(|s: StateId| self.listed_by_root(s))
        } else {
            let prev = self.reached((n - 1) as nat);
            Set::new(|s: StateId| self.listed_by_root(s) || exists|t: StateId| #[trigger] prev.contains(t) && self.listed_below(t, s))
        }
    }

    /// `s` is reached within `n` steps.
    pub open spec fn reach_within(self, s: StateId, n: nat) -> bool {
        self.reached(n).contains(s)
    }

    /// `s` is reachable by descending from the root regions through existing
    /// states and regions.
    pub open spec fn is_reachable(self, s: StateId) -> bool {
        exists|n: nat| #[trigger] self.reach_within(s, n)
    }

    /// Every child of the existing child regions of `t` is marked.
    pub open spec fn expanded(self, t: StateId, marked: Seq<bool>) -> bool {
        forall|s: StateId| #[trigger] self.listed_below(t, s) ==> marked[s.0 as int]
    }
}

/// Marks the children of a region that exists, queueing the newly marked ones.
fn mark_region_children(
    def: &StateMachineDefinition,
    region_id: RegionId,
    marked: &mut Vec<bool>,
    queue: &mut Vec<StateId>,
    count: &mut usize,
)
    requires
        old(marked)@.len() == id_space(),
        *old(count) == count_true(old(marked)@),
    ensures
        final(marked)@.len() == id_space(),
        *final(count) == count_true(final(marked)@),
        forall|x: int| 0 <= x < id_space() ==> old(marked)@[x] ==> #[trigger] final(marked)@[x],
        def.spec_region(region_id) matches Some(region) ==> forall|s: StateId| region.child_states@.contains(s) ==> #[trigger] final(marked)@[s.0 as int],
        forall|x: int| 0 <= x < id_space() && #[trigger] final(marked)@[x] && !old(marked)@[x] ==> {
            &&& def.spec_region(region_id) matches Some(region) && region.child_states@.contains(StateId(x as u16))
            &&& final(queue)@.contains(StateId(x as u16))
        },
        forall|y: StateId| #[trigger] final(queue)@.contains(y) ==> old(queue)@.contains(y) || (final(marked)@[y.0 as int] && !old(marked)@[y.0 as int]),
        forall|y: StateId| old(queue)@.contains(y) ==> #[trigger] final(queue)@.contains(y),
        final(queue)@.len() - old(queue)@.len() == *final(count) - *old(count),
        *final(count) >= *old(count),
{
    let region = match def.region(region_id) {
        Some(region) => region,
        None => return,
    };
    let ghost marked0 = marked@;
    let ghost queue0 = queue@;
    let ghost count0 = *count as int;
    let mut k: usize = 0;
    while k < region.child_states.len()
        invariant
            k <= region.child_states@.len(),
            def.spec_region(region_id) == Some(*region),
            marked@.len() == id_space(),
            *count == count_true(marked@),
            forall|x: int| 0 <= x < id_space() ==> marked0[x] ==> #[trigger] marked@[x],
            forall|j: int| 0 <= j < k ==> marked@[region.child_states@[j].0 as int],
            forall|x: int| 0 <= x < id_space() && #[trigger] marked@[x] && !marked0[x] ==> {
                &&& region.child_states@.contains(StateId(x as u16))
                &&& queue@.contains(StateId(x as u16))
            },
            forall|y: StateId| #[trigger] queue@.contains(y) ==> queue0.contains(y) || (marked@[y.0 as int] && !marked0[y.0 as int]),
            forall|y: StateId| queue0.contains(y) ==> #[trigger] queue@.contains(y),
            queue@.len() - queue0.len() == *count - count0,
            *count >= count0,
        decreases region.child_states@.len() - k,
    {
        let s = region.child_states[k];
        let index = s.0 as usize;
        if !marked[index] {
            proof {
                lemma_count_true_set(marked@, index as int, true);
                lemma_count_true_le(marked@.update(index as int, true));
                assert(region.child_states@[k as int] == s);
            }
            marked.set(index, true);
            *count = *count + 1;
            let ghost q = queue@;
            queue.push(s);
            proof {
                assert(queue@[q.len() as int] == s);
                assert forall|y: StateId| q.contains(y) implies #[trigger] queue@.contains(y) by {
                    let j = choose|j: int| 0 <= j < q.len() && q[j] == y;
                    assert(queue@[j] == y);
                }
                assert forall|y: StateId| #[trigger] queue@.contains(y) implies queue0.contains(y) || (marked@[y.0 as int] && !marked0[y.0 as int]) by {
                    let j = choose|j: int| 0 <= j < queue@.len() && queue@[j] == y;
                    if j < q.len() {
                        assert(q[j] == y);
                        assert(q.contains(y));
                    }
                }
                assert forall|x: int| 0 <= x < id_space() && #[trigger] marked@[x] && !marked0[x] implies {
                    &&& region.child_states@.contains(StateId(x as u16))
                    &&& queue@.contains(StateId(x as u16))
                } by {
                    if x == index as int {
                        assert(StateId(x as u16) == s);
                        assert(region.child_states@[k as int] == s);
                    } else {
                        assert(q.contains(StateId(x as u16)));
                    }
                }
            }
        }
        k = k + 1;
    }
    proof {
        assert forall|s: StateId| region.child_states@.contains(s) implies #[trigger] marked@[s.0 as int] by {
            let j = choose|j: int| 0 <= j < region.child_states@.len() && region.child_states@[j] == s;
        }
    }
}

proof fn lemma_reach_child(def: StateMachineDefinition, t: StateId, s: StateId)
    requires
        def.is_reachable(t),
        def.listed_below(t, s),
    ensures
        def.is_reachable(s),
{
    let n = choose|n: nat| #[trigger] def.reach_within(t, n);
    let m: nat = n + 1;
    assert((m - 1) as nat == n);
    assert(def.reached((m - 1) as nat).contains(t));
    assert(def.reach_within(s, m));
}

proof fn lemma_reach_root(def: StateMachineDefinition, s: StateId)
    requires
        def.listed_by_root(s),
    ensures
        def.is_reachable(s),
{
    assert(def.reach_within(s, 0));
}

proof fn lemma_closed_complete(def: StateMachineDefinition, marked: Seq<bool>, s: StateId, n: nat)
    requires
        marked.len() == id_space(),
        forall|x: StateId| #[trigger] def.listed_by_root(x) ==> marked[x.0 as int],
        forall|x: StateId| marked[x.0 as int] ==> #[trigger] def.expanded(x, marked),
        def.reach_within(s, n),
    ensures
        marked[s.0 as int],
    decreases n,
{
    if def.listed_by_root(s) {
    } else {
        let prev = def.reached((n - 1) as nat);
        let t = choose|t: StateId| #[trigger] prev.contains(t) && def.listed_below(t, s);
        lemma_closed_complete(def, marked, t, (n - 1) as nat);
        assert(def.expanded(t, marked));
    }
}

/// For every state id, whether it is reachable from the root regions.
pub fn reachable_states(def: &StateMachineDefinition) -> (marked: Vec<bool>)
    ensures
        marked@.len() == id_space(),
        forall|s: StateId| #[trigger] marked@[s.0 as int] == def.is_reachable(s),
{
    let mut marked: Vec<bool> = Vec::new();
    let mut i: usize = 0;
    while i < 0x10000
        invariant
            i <= 0x10000,
            marked@.len() == i,
            forall|j: int| 0 <= j < i ==> !marked@[j],
        decreases 0x10000 - i,
    {
        marked.push(false);
        i = i + 1;
    }
    proof {
        assert(count_true(marked@) == 0) by {
            assert forall|m: nat| m <= marked@.len() implies count_true(#[trigger] marked@.subrange(0, m as int)) == 0 by {
                lemma_count_prefix_zero(marked@, m);
            }
            assert(marked@.subrange(0, marked@.len() as int) =~= marked@);
        }
    }
    let mut queue: Vec<StateId> = Vec::new();
    let mut count: usize = 0;
    let mut k: usize = 0;
    while k < def.root_regions.len()
        invariant
            k <= def.root_regions@.len(),
            marked@.len() == id_space(),
            count == count_true(marked@),
            forall|x: int| 0 <= x < id_space() && #[trigger] marked@[x] ==> def.is_reachable(StateId(x as u16)),
            forall|x: int| 0 <= x < id_space() && #[trigger] marked@[x] ==> queue@.contains(StateId(x as u16)),
            forall|y: StateId| #[trigger] queue@.contains(y) ==> marked@[y.0 as int],
            forall|j: int, s: StateId| #![trigger def.root_regions@[j], marked@[s.0 as int]] 0 <= j < k && (def.spec_region(def.root_regions@[j]) matches Some(region) && region.child_states@.contains(s)) ==> marked@[s.0 as int],
        decreases def.root_regions@.len() - k,
    {
        let ghost marked_before = marked@;
        let ghost queue_before = queue@;
        mark_region_children(def, def.root_regions[k], &mut marked, &mut queue, &mut count);
        proof {
            assert forall|x: int| 0 <= x < id_space() && #[trigger] marked@[x] implies def.is_reachable(StateId(x as u16)) by {
                if !marked_before[x] {
                    assert(def.root_regions@[k as int] == def.root_regions@[k as int]);
                    lemma_reach_root(*def, StateId(x as u16));
                }
            }
            assert forall|x: int| 0 <= x < id_space() && #[trigger] marked@[x] implies queue@.contains(StateId(x as u16)) by {
                if marked_before[x] {
                    assert(queue_before.contains(StateId(x as u16)));
                }
            }
            assert forall|y: StateId| #[trigger] queue@.contains(y) implies marked@[y.0 as int] by {
                if queue_before.contains(y) {
                    assert(marked_before[y.0 as int]);
                }
            }
        }
        k = k + 1;
    }
    proof {
        assert forall|x: StateId| #[trigger] def.listed_by_root(x) implies marked@[x.0 as int] by {
            let j = choose|j: int| #![trigger def.root_regions@[j]] 0 <= j < def.root_regions@.len()
                && (def.spec_region(def.root_regions@[j]) matches Some(region) && region.child_states@.contains(x));
        }
        lemma_count_true_le(marked@);
    }
    loop
        invariant
            marked@.len() == id_space(),
            count == count_true(marked@),
            count <= id_space(),
            forall|x: int| 0 <= x < id_space() && #[trigger] marked@[x] ==> def.is_reachable(StateId(x as u16)),
            forall|x: StateId| #[trigger] marked@[x.0 as int] ==> queue@.contains(x) || def.expanded(x, marked@),
            forall|y: StateId| #[trigger] queue@.contains(y) ==> marked@[y.0 as int],
            forall|x: StateId| #[trigger] def.listed_by_root(x) ==> marked@[x.0 as int],
        ensures
            queue@.len() == 0,
            marked@.len() == id_space(),
            forall|x: int| 0 <= x < id_space() && #[trigger] marked@[x] ==> def.is_reachable(StateId(x as u16)),
            forall|x: StateId| #[trigger] marked@[x.0 as int] ==> queue@.contains(x) || def.expanded(x, marked@),
            forall|x: StateId| #[trigger] def.listed_by_root(x) ==> marked@[x.0 as int],
        decreases 2 * (id_space() - count) + queue@.len(),
    {
        let ghost queue0 = queue@;
        let t = match queue.pop() {
            Some(t) => t,
            None => break,
        };
        proof {
            assert(queue0[queue0.len() - 1] == t);
            assert(queue0.contains(t));
            assert forall|y: StateId| #[trigger] queue@.contains(y) implies queue0.contains(y) by {
                let j = choose|j: int| 0 <= j < queue@.len() && queue@[j] == y;
                assert(queue0[j] == y);
            }
            assert forall|x: StateId| #[trigger] queue0.contains(x) implies x == t || queue@.contains(x) by {
                let j = choose|j: int| 0 <= j < queue0.len() && queue0[j] == x;
                if j < queue0.len() - 1 {
                    assert(queue@[j] == x);
                }
            }
            assert(def.is_reachable(t)) by {
                assert(marked@[t.0 as int]);
                assert(StateId(t.0 as u16) == t);
            }
        }
        let ghost count1 = count as int;
        let ghost qlen1 = queue@.len() as int;
        if let Some(state) = def.state(t) {
            let mut c: usize = 0;
            while c < state.child_regions.len()
                invariant
                    c <= state.child_regions@.len(),
                    def.spec_state(t) == Some(*state),
                    def.is_reachable(t),
                    marked@.len() == id_space(),
                    count == count_true(marked@),
                    count <= id_space(),
                    marked@[t.0 as int],
                    queue@.len() - qlen1 == count - count1,
                    count >= count1,
                    forall|x: int| 0 <= x < id_space() && #[trigger] marked@[x] ==> def.is_reachable(StateId(x as u16)),
                    forall|x: StateId| #[trigger] marked@[x.0 as int] ==> x == t || queue@.contains(x) || def.expanded(x, marked@),
                    forall|y: StateId| #[trigger] queue@.contains(y) ==> marked@[y.0 as int],
                    forall|x: StateId| #[trigger] def.listed_by_root(x) ==> marked@[x.0 as int],
                    forall|j: int, s: StateId| #![trigger state.child_regions@[j], marked@[s.0 as int]] 0 <= j < c
                        && (def.spec_region(state.child_regions@[j]) matches Some(region) && region.child_states@.contains(s))
                        ==> marked@[s.0 as int],
                decreases state.child_regions@.len() - c,
            {
                let ghost marked_before = marked@;
                let ghost queue_before = queue@;
                mark_region_children(def, state.child_regions[c], &mut marked, &mut queue, &mut count);
                proof {
                    lemma_count_true_le(marked@);
                    assert forall|x: int| 0 <= x < id_space() && #[trigger] marked@[x] implies def.is_reachable(StateId(x as u16)) by {
                        if !marked_before[x] {
                            assert(state.child_regions@[c as int] == state.child_regions@[c as int]);
                            assert(def.listed_below(t, StateId(x as u16)));
                            lemma_reach_child(*def, t, StateId(x as u16));
                        }
                    }
                    assert forall|x: StateId| #[trigger] marked@[x.0 as int] implies x == t || queue@.contains(x) || def.expanded(x, marked@) by {
                        if marked_before[x.0 as int] {
                            if x != t && !queue_before.contains(x) {
                                assert(def.expanded(x, marked_before));
                                assert forall|s: StateId| #[trigger] def.listed_below(x, s) implies marked@[s.0 as int] by {
                                    assert(marked_before[s.0 as int]);
                                }
                            }
                        } else {
                            assert(StateId(x.0 as u16) == x);
                        }
                    }
                    assert forall|y: StateId| #[trigger] queue@.contains(y) implies marked@[y.0 as int] by {
                        if queue_before.contains(y) {
                            assert(marked_before[y.0 as int]);
                        }
                    }
                }
                c = c + 1;
            }
            proof {
                assert forall|s: StateId| #[trigger] def.listed_below(t, s) implies marked@[s.0 as int] by {
                    let j = choose|j: int| #![trigger state.child_regions@[j]] 0 <= j < state.child_regions@.len()
                        && (def.spec_region(state.child_regions@[j]) matches Some(region) && region.child_states@.contains(s));
                }
                assert(def.expanded(t, marked@));
            }
        } else {
            proof {
                assert(def.expanded(t, marked@));
            }
        }
        proof {
            assert(queue@.len() - qlen1 == count - count1);
            assert(qlen1 == queue0.len() - 1);
            assert(count <= id_space());
            assert(2 * (id_space() - count) + queue@.len() < 2 * (id_space() - count1) + queue0.len());
        }
    }
    proof {
        assert forall|x: StateId| #[trigger] marked@[x.0 as int] implies def.expanded(x, marked@) by {
            assert(!queue@.contains(x));
        }
        assert forall|s: StateId| #[trigger] marked@[s.0 as int] == def.is_reachable(s) by {
            if def.is_reachable(s) {
                let n = choose|n: nat| #[trigger] def.reach_within(s, n);
                lemma_closed_complete(*def, marked@, s, n);
            }
            if marked@[s.0 as int] {
                assert(StateId(s.0 as u16) == s);
            }
        }
    }
    marked
}

proof fn lemma_count_prefix_zero(s: Seq<bool>, m: nat)
    requires
        m <= s.len(),
        forall|j: int| 0 <= j < s.len() ==> !s[j],
    ensures
        count_true(s.subrange(0, m as int)) == 0,
    decreases m,
{
    if m > 0 {
        lemma_count_prefix_zero(s, (m - 1) as nat);
        assert(s.subrange(0, m as int).drop_last() =~= s.subrange(0, m - 1));
    }
}

impl StateMachineDefinition {
    /// The state exists and is transient.
    pub open spec fn is_transient(self, s: StateId) -> bool {
        self.spec_state(s) matches Some(state) && state.kind == StateKind::Transient
    }

    /// Transition `k` fires unconditionally from the transient state `a` into
    /// the transient state `b`.
    pub open spec fn transient_step(self, k: int, a: StateId, b: StateId) -> bool {
        let t = self.transitions@[k];
        &&& t.source == TransitionSource::State(a)
        &&& t.target == Some(b)
        &&& self.is_transient(a)
        &&& self.is_transient(b)
        &&& t.trigger == TransitionTrigger::Automatic
        &&& t.guard is None
    }

    /// Some transition fires unconditionally from transient `a` into transient `b`.
    pub open spec fn transient_edge(self, a: StateId, b: StateId) -> bool {
        exists|k: int| 0 <= k < self.transitions@.len() && #[trigger] self.transient_step(k, a, b)
    }

    /// Every member of `s` has an unconditional transient transition to a member.
    pub open spec fn closed_under_transient_steps(self, s: Set<StateId>) -> bool {
        forall|a: StateId| #[trigger] s.contains(a) ==> exists|b: StateId| s.contains(b) && #[trigger] self.transient_edge(a, b)
    }

    /// Some states can keep taking unconditional transient transitions among
    /// themselves forever: the machine would never quiesce there.
    pub open spec fn has_transient_cycle(self) -> bool {
        exists|s: Set<StateId>| #[trigger] self.closed_under_transient_steps(s) && exists|a: StateId| s.contains(a)
    }
}

fn is_transient_state(def: &StateMachineDefinition, s: StateId) -> (r: bool)
    ensures
        r == def.is_transient(s),
{
    match def.state(s) {
        Some(state) => state.kind == StateKind::Transient,
        None => false,
    }
}

/// Whether `a` has an unconditional transient transition to a live state.
fn has_live_successor(def: &StateMachineDefinition, a: StateId, alive: &Vec<bool>) -> (r: bool)
    requires
        alive@.len() == id_space(),
    ensures
        r == exists|b: StateId| alive@[b.0 as int] && #[trigger] def.transient_edge(a, b),
{
    let mut k: usize = 0;
    while k < def.transitions.len()
        invariant
            k <= def.transitions@.len(),
            alive@.len() == id_space(),
            forall|j: int, b: StateId| 0 <= j < k && #[trigger] def.transient_step(j, a, b) ==> !alive@[b.0 as int],
        decreases def.transitions@.len() - k,
    {
        let t = &def.transitions[k];
        if let TransitionSource::State(source) = t.source {
            if let Some(target) = t.target {
                if source == a && is_transient_state(def, a) && is_transient_state(def, target)
                    && t.trigger == TransitionTrigger::Automatic && t.guard.is_none() && alive[target.0 as usize] {
                    proof {
                        assert(def.transient_step(k as int, a, target));
                        assert(def.transient_edge(a, target));
                    }
                    return true;
                }
            }
        }
        k = k + 1;
    }
    proof {
        assert forall|b: StateId| alive@[b.0 as int] implies !#[trigger] def.transient_edge(a, b) by {
            if def.transient_edge(a, b) {
                let j = choose|j: int| 0 <= j < def.transitions@.len() && #[trigger] def.transient_step(j, a, b);
            }
        }
    }
    false
}

/// Every closed set lies within the live states.
pub open spec fn live_covers_closed(def: StateMachineDefinition, alive: Seq<bool>) -> bool {
    forall|s: Set<StateId>, a: StateId| #![trigger def.closed_under_transient_steps(s), s.contains(a)]
        def.closed_under_transient_steps(s) && s.contains(a) ==> alive[a.0 as int]
}

/// Only ids below `n` are live.
pub open spec fn live_below(alive: Seq<bool>, n: int) -> bool {
    forall|x: int| 0 <= x < id_space() && #[trigger] alive[x] ==> x < n
}

/// Clears every live state without a transition to a live state; reports
/// whether any was cleared.
fn sweep_dead_ends(def: &StateMachineDefinition, alive: &mut Vec<bool>, n: usize) -> (changed: bool)
    requires
        old(alive)@.len() == id_space(),
        n <= id_space(),
        live_below(old(alive)@, n as int),
        live_covers_closed(*def, old(alive)@),
    ensures
        final(alive)@.len() == id_space(),
        live_below(final(alive)@, n as int),
        live_covers_closed(*def, final(alive)@),
        count_true(final(alive)@) <= count_true(old(alive)@),
        changed ==> count_true(final(alive)@) < count_true(old(alive)@),
        !changed ==> forall|y: int| 0 <= y < id_space() && #[trigger] final(alive)@[y]
            ==> exists|b: StateId| final(alive)@[b.0 as int] && #[trigger] def.transient_edge(StateId(y as u16), b),
{
    let ghost start = count_true(alive@);
    let mut changed = false;
    let mut x: usize = 0;
    while x < n
        invariant
            x <= n,
            n <= id_space(),
            alive@.len() == id_space(),
            live_below(alive@, n as int),
            live_covers_closed(*def, alive@),
            count_true(alive@) <= start,
            changed ==> count_true(alive@) < start,
            !changed ==> forall|y: int| 0 <= y < x && #[trigger] alive@[y]
                ==> exists|b: StateId| alive@[b.0 as int] && #[trigger] def.transient_edge(StateId(y as u16), b),
        decreases n - x,
    {
        if alive[x] {
            if !has_live_successor(def, StateId(x as u16), alive) {
                proof {
                    lemma_count_true_set(alive@, x as int, false);
                    assert forall|s: Set<StateId>, a: StateId| #![trigger def.closed_under_transient_steps(s), s.contains(a)]
                        def.closed_under_transient_steps(s) && s.contains(a) implies alive@.update(x as int, false)[a.0 as int] by {
                        let b = choose|b: StateId| s.contains(b) && #[trigger] def.transient_edge(a, b);
                        assert(alive@[b.0 as int]);
                        if a.0 as int == x as int {
                            assert(StateId(x as u16) == a);
                        }
                    }
                }
                alive.set(x, false);
                changed = true;
            }
        }
        x = x + 1;
    }
    changed
}

proof fn lemma_live_gives_cycle(def: StateMachineDefinition, alive: Seq<bool>, y: int)
    requires
        alive.len() == id_space(),
        0 <= y < id_space(),
        alive[y],
        forall|z: int| 0 <= z < id_space() && #[trigger] alive[z]
            ==> exists|b: StateId| alive[b.0 as int] && #[trigger] def.transient_edge(StateId(z as u16), b),
    ensures
        def.has_transient_cycle(),
{
    let live = Set::new(|a: StateId| alive[a.0 as int]);
    assert(live.contains(StateId(y as u16)));
    assert forall|a: StateId| #[trigger] live.contains(a) implies exists|b: StateId| live.contains(b) && #[trigger] def.transient_edge(a, b) by {
        assert(alive[a.0 as int]);
        assert(StateId((a.0 as int) as u16) == a);
        let b = choose|b: StateId| alive[b.0 as int] && #[trigger] def.transient_edge(StateId((a.0 as int) as u16), b);
        assert(live.contains(b));
    }
    assert(def.closed_under_transient_steps(live));
}

proof fn lemma_no_live_no_cycle(def: StateMachineDefinition, alive: Seq<bool>)
    requires
        alive.len() == id_space(),
        live_covers_closed(def, alive),
        forall|z: int| 0 <= z < id_space() ==> !alive[z],
    ensures
        !def.has_transient_cycle(),
{
    assert forall|s: Set<StateId>| #[trigger] def.closed_under_transient_steps(s) implies !exists|a: StateId| s.contains(a) by {
        if exists|a: StateId| s.contains(a) {
            let a = choose|a: StateId| s.contains(a);
            assert(alive[a.0 as int]);
        }
    }
}

/// Whether the unconditional transitions among transient states contain a cycle.
pub fn transient_cycle_exists(def: &StateMachineDefinition) -> (r: bool)
    ensures
        r == def.has_transient_cycle(),
{
    let n: usize = if def.states.len() < 0x10000 { def.states.len() } else { 0x10000 };
    let mut alive: Vec<bool> = Vec::new();
    let mut i: usize = 0;
    while i < 0x10000
        invariant
            i <= 0x10000,
            n <= 0x10000,
            n == (if def.states@.len() < 0x10000 { def.states@.len() as int } else { 0x10000 }),
            alive@.len() == i,
            forall|j: int| 0 <= j < i ==> #[trigger] alive@[j] == (j < n && def.is_transient(StateId(j as u16))),
        decreases 0x10000 - i,
    {
        let live = i < n && is_transient_state(def, StateId(i as u16));
        alive.push(live);
        i = i + 1;
    }
    proof {
        assert forall|s: Set<StateId>, a: StateId| #![trigger def.closed_under_transient_steps(s), s.contains(a)]
            def.closed_under_transient_steps(s) && s.contains(a) implies alive@[a.0 as int] by {
            let b = choose|b: StateId| s.contains(b) && #[trigger] def.transient_edge(a, b);
            let k = choose|k: int| 0 <= k < def.transitions@.len() && #[trigger] def.transient_step(k, a, b);
            assert(def.is_transient(a));
            assert(StateId((a.0 as int) as u16) == a);
        }
        assert(live_below(alive@, n as int));
    }
    loop
        invariant
            alive@.len() == id_space(),
            n <= id_space(),
            live_below(alive@, n as int),
            live_covers_closed(*def, alive@),
        decreases count_true(alive@),
    {
        let changed = sweep_dead_ends(def, &mut alive, n);
        if !changed {
            let mut y: usize = 0;
            while y < n
                invariant
                    y <= n,
                    n <= id_space(),
                    alive@.len() == id_space(),
                    live_below(alive@, n as int),
                    live_covers_closed(*def, alive@),
                    forall|z: int| 0 <= z < id_space() && #[trigger] alive@[z]
                        ==> exists|b: StateId| alive@[b.0 as int] && #[trigger] def.transient_edge(StateId(z as u16), b),
                    forall|j: int| 0 <= j < y ==> !alive@[j],
                decreases n - y,
            {
                if alive[y] {
                    proof {
                        lemma_live_gives_cycle(*def, alive@, y as int);
                    }
                    return true;
                }
                y = y + 1;
            }
            proof {
                lemma_no_live_no_cycle(*def, alive@);
            }
            return false;
        }
    }
}

} // verus!
