use vstd::prelude::*;

use crate::definition::{HistoryMode, RegionId, StateId, StateMachineDefinition};
use crate::hierarchy::path_to_root;
use crate::instance::{contains_state, StateMachineInstance};
use crate::ordering::{append_new, lemma_append_new_concat, lemma_stable_insert_at, stable_sort, keys_ascending};
use crate::regions::{region_is_enabled, spec_region_is_enabled};
use crate::stack::{copy_states, history_entry_view, history_view, regions_view, ActiveRegionState, ActiveRegionView, HistorySnapshot, HistoryView};

verus! {

/// The history remembered for a state, if any.
pub open spec fn history_at(history: Seq<Option<HistoryView>>, state_id: StateId) -> Option<HistoryView> {
    if (state_id.0 as int) < history.len() {
        history[state_id.0 as int]
    } else {
        None
    }
}

/// The child recorded for a region by the first matching shallow entry.
pub open spec fn first_shallow(children: Seq<(RegionId, StateId)>, region_id: RegionId) -> Option<StateId>
    decreases children.len(),
{
    if children.len() == 0 {
        None
    } else if children[0].0 == region_id {
        Some(children[0].1)
    } else {
        first_shallow(children.drop_first(), region_id)
    }
}

/// The state, if any, as a sequence of at most one.
pub open spec fn option_seq(s: Option<StateId>) -> Seq<StateId> {
    match s {
        Some(x) => seq![x],
        None => Seq::empty(),
    }
}

/// `i` is the first position of `x` in `s`.
pub open spec fn is_first_index(s: Seq<StateId>, x: StateId, i: int) -> bool {
    0 <= i < s.len() && s[i] == x && forall|j: int| 0 <= j < i ==> s[j] != x
}

/// The first position of `x` in `s`.
pub open spec fn first_index(s: Seq<StateId>, x: StateId) -> int {
    choose|i: int| is_first_index(s, x, i)
}

/// The part of a root path below `lca` (the whole path when `lca` is not on it).
pub open spec fn path_below(path: Seq<StateId>, lca: Option<StateId>) -> Seq<StateId> {
    match lca {
        Some(a) => if path.contains(a) {
            path.subrange(first_index(path, a) + 1, path.len() as int)
        } else {
            path
        },
        None => path,
    }
}

/// The key by which active regions are kept ordered: region id, then leaf id.
pub open spec fn region_key(r: ActiveRegionView) -> int {
    r.region_id.0 as int * 0x10000 + r.leaf_state.0 as int
}

pub open spec fn region_order() -> spec_fn(ActiveRegionView) -> int {
    |r: ActiveRegionView| region_key(r)
}

/// The active regions in their canonical order.
pub open spec fn sorted_regions(regions: Seq<ActiveRegionView>) -> Seq<ActiveRegionView> {
    stable_sort(regions, region_order())
}

/// The leaf states of a sequence of regions.
pub open spec fn leaves_of(regions: Seq<ActiveRegionView>) -> Seq<StateId> {
    regions.map_values(|r: ActiveRegionView| r.leaf_state)
}

/// The path of the first region, or nothing.
pub open spec fn first_path(regions: Seq<ActiveRegionView>) -> Seq<StateId> {
    if regions.len() > 0 {
        regions[0].path
    } else {
        Seq::empty()
    }
}

impl StateMachineDefinition {
    /// Following parent links from `cur` meets a known state that sits
    /// directly in `region_id`.
    pub open spec fn chain_meets_region(self, cur: Option<StateId>, region_id: RegionId, fuel: nat) -> bool
        decreases fuel,
    {
        match cur {
            None => false,
            Some(id) => if (id.0 as int) >= self.states@.len() || fuel == 0 {
                false
            } else if self.states@[id.0 as int].parent_region == Some(region_id) {
                true
            } else {
                self.chain_meets_region(self.states@[id.0 as int].parent_state, region_id, (fuel - 1) as nat)
            },
        }
    }

    /// A leaf belongs to a region when the region directly contains the leaf
    /// or one of its ancestors.
    pub open spec fn spec_leaf_belongs_to_region(self, leaf: StateId, region_id: RegionId) -> bool {
        self.chain_meets_region(Some(leaf), region_id, self.states@.len())
    }

    /// The leaves of the deep-history entries that belong to the region, in
    /// the order they were recorded.
    pub open spec fn deep_leaves(self, entries: Seq<ActiveRegionView>, region_id: RegionId) -> Seq<StateId>
        decreases entries.len(),
    {
        if entries.len() == 0 {
            Seq::empty()
        } else {
            let prev = self.deep_leaves(entries.drop_last(), region_id);
            if self.spec_leaf_belongs_to_region(entries.last().leaf_state, region_id) {
                prev.push(entries.last().leaf_state)
            } else {
                prev
            }
        }
    }

    /// The states a child region enters: the remembered direct child under
    /// shallow history; every remembered leaf of the region under deep
    /// history; else (or when nothing was remembered) its initial state.
    pub open spec fn region_targets(
        self,
        history: Option<HistoryView>,
        mode: HistoryMode,
        region_id: RegionId,
        initial: Option<StateId>,
    ) -> Seq<StateId> {
        match history {
            Some(h) => match mode {
                HistoryMode::Shallow => match first_shallow(h.shallow_children, region_id) {
                    Some(s) => seq![s],
                    None => option_seq(initial),
                },
                HistoryMode::Deep => if self.deep_leaves(h.deep_regions, region_id).len() > 0 {
                    self.deep_leaves(h.deep_regions, region_id)
                } else {
                    option_seq(initial)
                },
                HistoryMode::NoHistory => option_seq(initial),
            },
            None => option_seq(initial),
        }
    }

    /// The states entered for the `k`-th child region of `parent`: none when
    /// the region is disabled or unknown.
    pub open spec fn child_targets(
        self,
        history: Seq<Option<HistoryView>>,
        enabled: Seq<RegionId>,
        parent: StateId,
        k: int,
    ) -> Seq<StateId> {
        match self.spec_state(parent) {
            None => Seq::empty(),
            Some(state) => {
                let region_id = state.child_regions@[k];
                if !spec_region_is_enabled(enabled, region_id) {
                    Seq::empty()
                } else {
                    match self.spec_region(region_id) {
                        None => Seq::empty(),
                        Some(region) => self.region_targets(history_at(history, parent), state.history_mode, region_id, region.initial_state),
                    }
                }
            },
        }
    }

    /// Entering `target` finishes within `fuel` nested levels, and every
    /// leaf reached has a region to live in.
    pub open spec fn entry_ok(self, history: Seq<Option<HistoryView>>, enabled: Seq<RegionId>, target: StateId, fuel: nat) -> bool
        decreases fuel, 0nat, 0nat,
    {
        match self.spec_state(target) {
            None => true,
            Some(state) => fuel > 0 && if state.kind.spec_has_children() {
                self.children_ok(history, enabled, target, state.child_regions@.len(), (fuel - 1) as nat)
            } else {
                state.parent_region is Some || self.root_regions@.len() > 0
            },
        }
    }

    /// Entering each of the first `k` child regions of `parent` finishes.
    pub open spec fn children_ok(self, history: Seq<Option<HistoryView>>, enabled: Seq<RegionId>, parent: StateId, k: nat, fuel: nat) -> bool
        decreases fuel, 1nat, k,
    {
        if k == 0 {
            true
        } else {
            self.children_ok(history, enabled, parent, (k - 1) as nat, fuel)
                && self.targets_ok(history, enabled, self.child_targets(history, enabled, parent, k - 1), fuel)
        }
    }

    /// Entering each of `targets` finishes.
    pub open spec fn targets_ok(self, history: Seq<Option<HistoryView>>, enabled: Seq<RegionId>, targets: Seq<StateId>, fuel: nat) -> bool
        decreases fuel, 0nat, targets.len(),
    {
        if targets.len() == 0 {
            true
        } else {
            self.targets_ok(history, enabled, targets.drop_last(), fuel) && self.entry_ok(history, enabled, targets.last(), fuel)
        }
    }

    /// What entering `target` below `lca` does: the states entered, in order
    /// and with repeats, and the active regions it adds.
    pub open spec fn entry_result(
        self,
        history: Seq<Option<HistoryView>>,
        enabled: Seq<RegionId>,
        target: StateId,
        lca: Option<StateId>,
        fuel: nat,
    ) -> (Seq<StateId>, Seq<ActiveRegionView>)
        decreases fuel, 0nat, 0nat,
    {
        match self.spec_state(target) {
            None => (Seq::empty(), Seq::empty()),
            Some(state) => if fuel == 0 {
                (Seq::empty(), Seq::empty())
            } else {
                let path = self.spec_path_to_root(target);
                if state.kind.spec_has_children() {
                    let children = self.children_result(history, enabled, target, state.child_regions@.len(), (fuel - 1) as nat);
                    (path_below(path, lca) + children.0, children.1)
                } else {
                    let region_id = match state.parent_region {
                        Some(r) => r,
                        None => self.root_regions@[0],
                    };
                    (path_below(path, lca), seq![ActiveRegionView { region_id, leaf_state: target, path }])
                }
            },
        }
    }

    /// What entering the first `k` child regions of `parent` does.
    pub open spec fn children_result(
        self,
        history: Seq<Option<HistoryView>>,
        enabled: Seq<RegionId>,
        parent: StateId,
        k: nat,
        fuel: nat,
    ) -> (Seq<StateId>, Seq<ActiveRegionView>)
        decreases fuel, 1nat, k,
    {
        if k == 0 {
            (Seq::empty(), Seq::empty())
        } else {
            let prev = self.children_result(history, enabled, parent, (k - 1) as nat, fuel);
            let more = self.targets_result(history, enabled, parent, self.child_targets(history, enabled, parent, k - 1), fuel);
            (prev.0 + more.0, prev.1 + more.1)
        }
    }

    /// What entering each of `targets` below `parent` does, one after the other.
    pub open spec fn targets_result(
        self,
        history: Seq<Option<HistoryView>>,
        enabled: Seq<RegionId>,
        parent: StateId,
        targets: Seq<StateId>,
        fuel: nat,
    ) -> (Seq<StateId>, Seq<ActiveRegionView>)
        decreases fuel, 0nat, targets.len(),
    {
        if targets.len() == 0 {
            (Seq::empty(), Seq::empty())
        } else {
            let prev = self.targets_result(history, enabled, parent, targets.drop_last(), fuel);
            let one = self.entry_result(history, enabled, targets.last(), Some(parent), fuel);
            (prev.0 + one.0, prev.1 + one.1)
        }
    }

    /// The initial state of the `k`-th root region, if that region is enabled and known.
    pub open spec fn root_target(self, enabled: Seq<RegionId>, k: int) -> Option<StateId> {
        let region_id = self.root_regions@[k];
        if !spec_region_is_enabled(enabled, region_id) {
            None
        } else {
            match self.spec_region(region_id) {
                None => None,
                Some(region) => region.initial_state,
            }
        }
    }

    /// No history: one empty slot per state.
    pub open spec fn empty_history(self) -> Seq<Option<HistoryView>> {
        Seq::new(self.states@.len(), |i: int| None::<HistoryView>)
    }

    /// Entering every root region finishes within `fuel` nested levels.
    pub open spec fn roots_ok(self, enabled: Seq<RegionId>, fuel: nat) -> bool {
        forall|k: int| 0 <= k < self.root_regions@.len() ==> match #[trigger] self.root_target(enabled, k) {
            Some(t) => self.entry_ok(self.empty_history(), enabled, t, fuel),
            None => true,
        }
    }

    /// Starting an instance with these enabled regions finishes.
    pub open spec fn start_terminates(self, enabled: Seq<RegionId>) -> bool {
        exists|fuel: nat| self.roots_ok(enabled, fuel)
    }

    pub open spec fn start_fuel(self, enabled: Seq<RegionId>) -> nat {
        choose|fuel: nat| self.roots_ok(enabled, fuel)
    }

    /// The regions added by entering the first `k` root regions.
    pub open spec fn roots_regions(self, enabled: Seq<RegionId>, k: nat, fuel: nat) -> Seq<ActiveRegionView>
        decreases k,
    {
        if k == 0 {
            Seq::empty()
        } else {
            let prev = self.roots_regions(enabled, (k - 1) as nat, fuel);
            match self.root_target(enabled, k - 1) {
                Some(t) => prev + self.entry_result(self.empty_history(), enabled, t, None, fuel).1,
                None => prev,
            }
        }
    }

    /// The active regions of a freshly started instance, in canonical order.
    pub open spec fn start_regions(self, enabled: Seq<RegionId>) -> Seq<ActiveRegionView> {
        sorted_regions(self.roots_regions(enabled, self.root_regions@.len(), self.start_fuel(enabled)))
    }
}

pub proof fn lemma_targets_ok_at(
    definition: StateMachineDefinition,
    history: Seq<Option<HistoryView>>,
    enabled: Seq<RegionId>,
    targets: Seq<StateId>,
    j: int,
    fuel: nat,
)
    requires
        definition.targets_ok(history, enabled, targets, fuel),
        0 <= j < targets.len(),
    ensures
        definition.entry_ok(history, enabled, targets[j], fuel),
        definition.targets_ok(history, enabled, targets.subrange(0, j), fuel),
    decreases targets.len(),
{
    if j < targets.len() - 1 {
        lemma_targets_ok_at(definition, history, enabled, targets.drop_last(), j, fuel);
        assert(targets.drop_last().subrange(0, j) =~= targets.subrange(0, j));
    } else {
        assert(targets.drop_last() =~= targets.subrange(0, j));
    }
}

pub proof fn lemma_children_ok_prefix(
    definition: StateMachineDefinition,
    history: Seq<Option<HistoryView>>,
    enabled: Seq<RegionId>,
    parent: StateId,
    n: nat,
    k: nat,
    fuel: nat,
)
    requires
        definition.children_ok(history, enabled, parent, n, fuel),
        k <= n,
    ensures
        definition.children_ok(history, enabled, parent, k, fuel),
    decreases n - k,
{
    if k < n {
        lemma_children_ok_prefix(definition, history, enabled, parent, (n - 1) as nat, k, fuel);
    }
}

/// Whether a leaf state sits, directly or through its ancestors, in a region.
pub fn leaf_belongs_to_region(definition: &StateMachineDefinition, state_id: StateId, region_id: RegionId) -> (r: bool)
    requires
        definition.parent_chain_ends(state_id),
    ensures
        r == definition.spec_leaf_belongs_to_region(state_id, region_id),
{
    let mut current: Option<StateId> = Some(state_id);
    let ghost mut fuel: nat = definition.states@.len();
    loop
        invariant
            definition.chain_ends(current, fuel),
            definition.spec_leaf_belongs_to_region(state_id, region_id) == definition.chain_meets_region(current, region_id, fuel),
        decreases fuel,
    {
        let id = match current {
            Some(id) => id,
            None => return false,
        };
        let state = match definition.state(id) {
            Some(state) => state,
            None => return false,
        };
        if state.parent_region == Some(region_id) {
            return true;
        }
        match state.parent_state {
            Some(parent) => {
                proof {
                    fuel = (fuel - 1) as nat;
                }
                current = Some(parent);
            },
            None => {
                proof {
                    assert(definition.chain_meets_region(None, region_id, (fuel - 1) as nat) == false);
                }
                return false;
            },
        }
    }
}

fn first_shallow_child(children: &Vec<(RegionId, StateId)>, region_id: RegionId) -> (r: Option<StateId>)
    ensures
        r == first_shallow(children@, region_id),
{
    let mut i: usize = 0;
    proof {
        assert(children@.subrange(0, children@.len() as int) =~= children@);
    }
    while i < children.len()
        invariant
            i <= children@.len(),
            first_shallow(children@, region_id) == first_shallow(children@.subrange(i as int, children@.len() as int), region_id),
        decreases children@.len() - i,
    {
        let ghost rest = children@.subrange(i as int, children@.len() as int);
        proof {
            assert(rest.len() > 0 && rest[0] == children@[i as int]);
            assert(rest.drop_first() =~= children@.subrange(i + 1, children@.len() as int));
        }
        let (r, s) = children[i];
        if r == region_id {
            return Some(s);
        }
        i = i + 1;
    }
    proof {
        assert(children@.subrange(i as int, children@.len() as int) =~= Seq::<(RegionId, StateId)>::empty());
    }
    None
}

fn deep_leaf_targets(definition: &StateMachineDefinition, entries: &Vec<ActiveRegionState>, region_id: RegionId) -> (r: Vec<StateId>)
    requires
        definition.hierarchy_is_finite(),
    ensures
        r@ == definition.deep_leaves(regions_view(entries@), region_id),
{
    let ghost views = regions_view(entries@);
    let mut out: Vec<StateId> = Vec::new();
    let mut i: usize = 0;
    proof {
        assert(views.subrange(0, 0) =~= Seq::<ActiveRegionView>::empty());
    }
    while i < entries.len()
        invariant
            i <= entries@.len(),
            views == regions_view(entries@),
            definition.hierarchy_is_finite(),
            out@ == definition.deep_leaves(views.subrange(0, i as int), region_id),
        decreases entries@.len() - i,
    {
        proof {
            let next = views.subrange(0, i + 1);
            assert(next.drop_last() =~= views.subrange(0, i as int));
            assert(next.last() == entries@[i as int]@);
        }
        let leaf = entries[i].leaf_state;
        proof {
            assert(definition.parent_chain_ends(leaf));
        }
        if leaf_belongs_to_region(definition, leaf, region_id) {
            out.push(leaf);
        }
        i = i + 1;
    }
    proof {
        assert(views.subrange(0, views.len() as int) =~= views);
    }
    out
}

fn option_vec(s: Option<StateId>) -> (r: Vec<StateId>)
    ensures
        r@ == option_seq(s),
{
    let mut v: Vec<StateId> = Vec::new();
    match s {
        Some(x) => {
            v.push(x);
            proof {
                assert(v@ =~= seq![x]);
            }
        },
        None => {},
    }
    v
}

/// The states a child region enters, from the history kept for its parent.
pub fn region_entry_targets(
    definition: &StateMachineDefinition,
    history: Option<&HistorySnapshot>,
    mode: HistoryMode,
    region_id: RegionId,
    initial: Option<StateId>,
) -> (r: Vec<StateId>)
    requires
        definition.hierarchy_is_finite(),
    ensures
        r@ == definition.region_targets(match history { Some(h) => Some(h@), None => None }, mode, region_id, initial),
{
    match history {
        Some(h) => match mode {
            HistoryMode::Shallow => match first_shallow_child(&h.shallow_children, region_id) {
                Some(s) => option_vec(Some(s)),
                None => option_vec(initial),
            },
            HistoryMode::Deep => {
                let leaves = deep_leaf_targets(definition, &h.deep_regions, region_id);
                if leaves.len() > 0 {
                    leaves
                } else {
                    option_vec(initial)
                }
            },
            HistoryMode::NoHistory => option_vec(initial),
        },
        None => option_vec(initial),
    }
}

/// Position just below the first occurrence of `lca` on `path`, or 0.
fn start_below(path: &Vec<StateId>, lca: Option<StateId>) -> (r: usize)
    ensures
        r <= path@.len(),
        path@.subrange(r as int, path@.len() as int) == path_below(path@, lca),
{
    match lca {
        None => {
            proof {
                assert(path@.subrange(0, path@.len() as int) =~= path@);
            }
            0
        },
        Some(a) => {
            let mut i: usize = 0;
            while i < path.len()
                invariant
                    i <= path@.len(),
                    lca == Some(a),
                    forall|j: int| 0 <= j < i ==> path@[j] != a,
                decreases path@.len() - i,
            {
                if path[i] == a {
                    proof {
                        assert(path@.contains(a)) by {
                            assert(path@[i as int] == a);
                        }
                        assert(is_first_index(path@, a, i as int));
                        let f = first_index(path@, a);
                        assert(is_first_index(path@, a, f));
                        if f < i {
                            assert(path@[f] != a);
                        }
                        if i < f {
                            assert(path@[i as int] != a);
                        }
                        assert(f == i);
                        assert(path_below(path@, Some(a)) == path@.subrange(f + 1, path@.len() as int));
                    }
                    return i + 1;
                }
                i = i + 1;
            }
            proof {
                assert(path@.subrange(0, path@.len() as int) =~= path@);
            }
            0
        },
    }
}

/// Appends the states of `states[from..]` not yet in `entered`.
pub fn append_entered(entered: &mut Vec<StateId>, states: &Vec<StateId>, from: usize)
    requires
        from <= states@.len(),
    ensures
        final(entered)@ == append_new(old(entered)@, states@.subrange(from as int, states@.len() as int)),
{
    let ghost start = entered@;
    let mut i: usize = from;
    proof {
        assert(states@.subrange(from as int, from as int) =~= Seq::<StateId>::empty());
    }
    while i < states.len()
        invariant
            from <= i <= states@.len(),
            entered@ == append_new(start, states@.subrange(from as int, i as int)),
        decreases states@.len() - i,
    {
        let s = states[i];
        proof {
            let next = states@.subrange(from as int, i + 1);
            assert(next.drop_last() =~= states@.subrange(from as int, i as int));
            assert(next.last() == s);
        }
        if !contains_state(entered, s) {
            entered.push(s);
        }
        i = i + 1;
    }
}

/// Enters `target` below `lca`: records the states entered and the active
/// regions added. The regions are not yet in canonical order.
pub fn enter_target(
    definition: &StateMachineDefinition,
    history: &Vec<Option<HistorySnapshot>>,
    enabled: &Vec<RegionId>,
    target: StateId,
    lca: Option<StateId>,
    entered: &mut Vec<StateId>,
    added: &mut Vec<ActiveRegionState>,
    Ghost(fuel): Ghost<nat>,
)
    requires
        definition.hierarchy_is_finite(),
        definition.entry_ok(history_view(history@), enabled@, target, fuel),
    ensures
        final(entered)@ == append_new(old(entered)@, definition.entry_result(history_view(history@), enabled@, target, lca, fuel).0),
        regions_view(final(added)@) == regions_view(old(added)@) + definition.entry_result(history_view(history@), enabled@, target, lca, fuel).1,
    decreases fuel, 0nat,
{
    let ghost hv = history_view(history@);
    let state = match definition.state(target) {
        Some(state) => state,
        None => {
            proof {
                assert(regions_view(added@) =~= regions_view(added@) + Seq::<ActiveRegionView>::empty());
                assert(append_new(entered@, Seq::<StateId>::empty()) == entered@);
            }
            return;
        },
    };
    proof {
        assert(definition.parent_chain_ends(target));
    }
    let path = path_to_root(definition, target);
    let start = start_below(&path, lca);
    append_entered(entered, &path, start);
    if state.kind.has_children() {
        restore_or_enter_children(definition, history, enabled, target, entered, added, Ghost((fuel - 1) as nat));
        proof {
            let children = definition.children_result(hv, enabled@, target, state.child_regions@.len(), (fuel - 1) as nat);
            lemma_append_new_concat(old(entered)@, path_below(path@, lca), children.0);
        }
    } else {
        let region_id = match state.parent_region {
            Some(r) => r,
            None => definition.root_regions[0],
        };
        let ghost old_added = regions_view(added@);
        added.push(ActiveRegionState { region_id, leaf_state: target, path });
        proof {
            assert(regions_view(added@) =~= old_added + seq![ActiveRegionView { region_id, leaf_state: target, path: definition.spec_path_to_root(target) }]);
        }
    }
}

/// Enters each enabled child region of a compound or parallel state, from
/// history where the state keeps it.
fn restore_or_enter_children(
    definition: &StateMachineDefinition,
    history: &Vec<Option<HistorySnapshot>>,
    enabled: &Vec<RegionId>,
    state_id: StateId,
    entered: &mut Vec<StateId>,
    added: &mut Vec<ActiveRegionState>,
    Ghost(fuel): Ghost<nat>,
)
    requires
        definition.hierarchy_is_finite(),
        definition.spec_state(state_id) is Some,
        definition.children_ok(history_view(history@), enabled@, state_id, definition.spec_state(state_id).unwrap().child_regions@.len(), fuel),
    ensures
        final(entered)@ == append_new(old(entered)@, definition.children_result(history_view(history@), enabled@, state_id, definition.spec_state(state_id).unwrap().child_regions@.len(), fuel).0),
        regions_view(final(added)@) == regions_view(old(added)@) + definition.children_result(history_view(history@), enabled@, state_id, definition.spec_state(state_id).unwrap().child_regions@.len(), fuel).1,
    decreases fuel, 1nat,
{
    let ghost hv = history_view(history@);
    let state = match definition.state(state_id) {
        Some(state) => state,
        None => return,
    };
    let index = state_id.0 as usize;
    let snapshot: Option<&HistorySnapshot> = if index < history.len() {
        match &history[index] {
            Some(h) => Some(h),
            None => None,
        }
    } else {
        None
    };
    proof {
        assert(match snapshot { Some(h) => Some(h@), None => None::<HistoryView> } == history_at(hv, state_id)) by {
            if index < history@.len() {
                assert(hv[index as int] == history_entry_view(history@[index as int]));
            }
        }
    }
    let ghost entered0 = entered@;
    let ghost added0 = regions_view(added@);
    let mut k: usize = 0;
    proof {
        assert(append_new(entered0, Seq::<StateId>::empty()) == entered0);
        assert(added0 + Seq::<ActiveRegionView>::empty() =~= added0);
    }
    while k < state.child_regions.len()
        invariant
            k <= state.child_regions@.len(),
            definition.hierarchy_is_finite(),
            definition.spec_state(state_id) == Some(*state),
            hv == history_view(history@),
            match snapshot { Some(h) => Some(h@), None => None::<HistoryView> } == history_at(hv, state_id),
            definition.children_ok(hv, enabled@, state_id, state.child_regions@.len(), fuel),
            entered@ == append_new(entered0, definition.children_result(hv, enabled@, state_id, k as nat, fuel).0),
            regions_view(added@) == added0 + definition.children_result(hv, enabled@, state_id, k as nat, fuel).1,
        decreases state.child_regions@.len() - k,
    {
        let region_id = state.child_regions[k];
        let ghost prev = definition.children_result(hv, enabled@, state_id, k as nat, fuel);
        let mut targets: Vec<StateId> = Vec::new();
        if region_is_enabled(enabled.as_slice(), region_id) {
            match definition.region(region_id) {
                Some(region) => {
                    targets = region_entry_targets(definition, snapshot, state.history_mode, region_id, region.initial_state);
                },
                None => {},
            }
        }
        proof {
            assert(targets@ == definition.child_targets(hv, enabled@, state_id, k as int));
            lemma_children_ok_prefix(*definition, hv, enabled@, state_id, state.child_regions@.len(), (k + 1) as nat, fuel);
            assert(targets@.subrange(0, 0) =~= Seq::<StateId>::empty());
            assert(prev.0 + Seq::<StateId>::empty() =~= prev.0);
            assert(added0 + (prev.1 + Seq::<ActiveRegionView>::empty()) =~= added0 + prev.1);
        }
        let mut j: usize = 0;
        while j < targets.len()
            invariant
                j <= targets@.len(),
                k < state.child_regions@.len(),
                definition.hierarchy_is_finite(),
                hv == history_view(history@),
                definition.targets_ok(hv, enabled@, targets@, fuel),
                entered@ == append_new(entered0, prev.0 + definition.targets_result(hv, enabled@, state_id, targets@.subrange(0, j as int), fuel).0),
                regions_view(added@) == added0 + (prev.1 + definition.targets_result(hv, enabled@, state_id, targets@.subrange(0, j as int), fuel).1),
            decreases targets@.len() - j,
        {
            let t = targets[j];
            let ghost before_added = regions_view(added@);
            let ghost done = definition.targets_result(hv, enabled@, state_id, targets@.subrange(0, j as int), fuel);
            proof {
                lemma_targets_ok_at(*definition, hv, enabled@, targets@, j as int, fuel);
            }
            enter_target(definition, history, enabled, t, Some(state_id), entered, added, Ghost(fuel));
            proof {
                let one = definition.entry_result(hv, enabled@, t, Some(state_id), fuel);
                let next = targets@.subrange(0, j + 1);
                assert(next.drop_last() =~= targets@.subrange(0, j as int));
                assert(next.last() == t);
                lemma_append_new_concat(entered0, prev.0 + done.0, one.0);
                assert(prev.0 + done.0 + one.0 =~= prev.0 + (done.0 + one.0));
                assert(before_added + one.1 =~= added0 + (prev.1 + (done.1 + one.1)));
            }
            j = j + 1;
        }
        proof {
            assert(targets@.subrange(0, targets@.len() as int) =~= targets@);
        }
        k = k + 1;
    }
}

/// Enters the initial state of every enabled root region with an empty
/// history; returns the regions added, not yet in canonical order.
pub fn enter_target_from_roots(
    definition: &StateMachineDefinition,
    history: &Vec<Option<HistorySnapshot>>,
    enabled: &Vec<RegionId>,
) -> (r: Vec<ActiveRegionState>)
    requires
        definition.hierarchy_is_finite(),
        definition.start_terminates(enabled@),
        history_view(history@) == definition.empty_history(),
    ensures
        regions_view(r@) == definition.roots_regions(enabled@, definition.root_regions@.len(), definition.start_fuel(enabled@)),
{
    let ghost fuel = definition.start_fuel(enabled@);
    proof {
        assert(definition.roots_ok(enabled@, fuel));
    }
    let mut entered: Vec<StateId> = Vec::new();
    let mut added: Vec<ActiveRegionState> = Vec::new();
    let mut k: usize = 0;
    while k < definition.root_regions.len()
        invariant
            k <= definition.root_regions@.len(),
            definition.hierarchy_is_finite(),
            definition.roots_ok(enabled@, fuel),
            history_view(history@) == definition.empty_history(),
            fuel == definition.start_fuel(enabled@),
            regions_view(added@) == definition.roots_regions(enabled@, k as nat, fuel),
        decreases definition.root_regions@.len() - k,
    {
        let region_id = definition.root_regions[k];
        let mut target: Option<StateId> = None;
        if region_is_enabled(enabled.as_slice(), region_id) {
            match definition.region(region_id) {
                Some(region) => {
                    target = region.initial_state;
                },
                None => {},
            }
        }
        proof {
            assert(target == definition.root_target(enabled@, k as int));
        }
        match target {
            Some(t) => {
                enter_target(definition, history, enabled, t, None, &mut entered, &mut added, Ghost(fuel));
            },
            None => {},
        }
        k = k + 1;
    }
    added
}

/// Puts the active regions in canonical order and recomputes the active
/// leaves and the active path (the path of the first region).
pub fn sync_active_path(instance: &mut StateMachineInstance)
    ensures
        regions_view(final(instance).active_regions@) == sorted_regions(regions_view(old(instance).active_regions@)),
        final(instance).active_leaf_states@ == leaves_of(sorted_regions(regions_view(old(instance).active_regions@))),
        final(instance).active_path@ == first_path(sorted_regions(regions_view(old(instance).active_regions@))),
        final(instance).definition_id == old(instance).definition_id,
        final(instance).config == old(instance).config,
        final(instance).status == old(instance).status,
        final(instance).pending_transition == old(instance).pending_transition,
        final(instance).stack == old(instance).stack,
        final(instance).history == old(instance).history,
        final(instance).state_elapsed_micros == old(instance).state_elapsed_micros,
        final(instance).transition_cooldowns_micros == old(instance).transition_cooldowns_micros,
        final(instance).guard_true_for_micros == old(instance).guard_true_for_micros,
        final(instance).guards_held == old(instance).guards_held,
        final(instance).pending_signals == old(instance).pending_signals,
        final(instance).runtime_revision == old(instance).runtime_revision,
        final(instance).last_blackboard_revision == old(instance).last_blackboard_revision,
        final(instance).trace == old(instance).trace,
{
    let mut regions: Vec<ActiveRegionState> = Vec::new();
    std::mem::swap(&mut regions, &mut instance.active_regions);
    let sorted = sort_regions(regions);
    let mut leaves: Vec<StateId> = Vec::new();
    let mut i: usize = 0;
    while i < sorted.len()
        invariant
            i <= sorted@.len(),
            leaves@ == leaves_of(regions_view(sorted@)).subrange(0, i as int),
        decreases sorted@.len() - i,
    {
        leaves.push(sorted[i].leaf_state);
        proof {
            assert(leaves@ =~= leaves_of(regions_view(sorted@)).subrange(0, i + 1));
        }
        i = i + 1;
    }
    proof {
        assert(leaves_of(regions_view(sorted@)).subrange(0, sorted@.len() as int) =~= leaves_of(regions_view(sorted@)));
    }
    let path = if sorted.len() > 0 {
        copy_states(&sorted[0].path)
    } else {
        Vec::new()
    };
    instance.active_regions = sorted;
    instance.active_leaf_states = leaves;
    instance.active_path = path;
}

/// Stable sort of active regions by region id, then leaf id.
fn sort_regions(regions: Vec<ActiveRegionState>) -> (r: Vec<ActiveRegionState>)
    ensures
        regions_view(r@) == sorted_regions(regions_view(regions@)),
{
    let ghost input = regions_view(regions@);
    let total: usize = regions.len();
    let mut rest = regions;
    let mut out: Vec<ActiveRegionState> = Vec::new();
    let mut n: usize = 0;
    proof {
        assert(input.subrange(0, 0) =~= Seq::<ActiveRegionView>::empty());
        assert(rest@.subrange(0, rest@.len() as int) =~= rest@);
    }
    while rest.len() > 0
        invariant
            n <= input.len(),
            input.len() == total,
            regions_view(rest@) == input.subrange(n as int, input.len() as int),
            regions_view(out@) == stable_sort(input.subrange(0, n as int), region_order()),
            keys_ascending(regions_view(out@), region_order()),
        decreases rest@.len(),
    {
        let ghost before = regions_view(out@);
        proof {
            assert(regions_view(rest@).len() == rest@.len());
            assert(n < input.len());
        }
        let ghost old_rest = rest@;
        let x = rest.remove(0);
        proof {
            assert(rest@ =~= old_rest.subrange(1, old_rest.len() as int));
            assert(regions_view(rest@) =~= regions_view(old_rest).subrange(1, old_rest.len() as int));
            assert(regions_view(old_rest)[0] == input[n as int]);
            assert(x@ == input[n as int]);
            assert(regions_view(rest@) =~= input.subrange(n + 1, input.len() as int));
        }
        let mut j: usize = out.len();
        while j > 0 && (out[j - 1].region_id.0 > x.region_id.0
            || (out[j - 1].region_id.0 == x.region_id.0 && out[j - 1].leaf_state.0 > x.leaf_state.0))
            invariant
                j <= out@.len(),
                regions_view(out@) == before,
                forall|i: int| j <= i < before.len() ==> region_key(#[trigger] before[i]) > region_key(x@),
            decreases j,
        {
            j = j - 1;
        }
        proof {
            let key = region_order();
            assert(j == 0 || key(before[j - 1]) <= key(x@));
            assert forall|i: int| j <= i < before.len() implies key(#[trigger] before[i]) > key(x@) by {
                assert(region_key(before[i]) > region_key(x@));
            }
            lemma_stable_insert_at(before, x@, key, j as int);
            let prefix = input.subrange(0, n + 1);
            assert(prefix.drop_last() =~= input.subrange(0, n as int));
            assert(prefix.last() == x@);
        }
        out.insert(j, x);
        proof {
            assert(regions_view(out@) =~= before.insert(j as int, x@));
        }
        n = n + 1;
    }
    proof {
        assert(input.subrange(0, n as int) =~= input);
    }
    out
}

} // verus!
