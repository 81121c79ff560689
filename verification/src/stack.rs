use vstd::prelude::*;

use crate::definition::{RegionId, StateId, TransitionId};

verus! {

/// One active region: its leaf state and the root-first path to that leaf.
#[derive(Debug, Default, PartialEq)]
pub struct ActiveRegionState {
    pub region_id: RegionId,
    pub leaf_state: StateId,
    pub path: Vec<StateId>,
}

/// The value of an active region.
pub struct ActiveRegionView {
    pub region_id: RegionId,
    pub leaf_state: StateId,
    pub path: Seq<StateId>,
}

impl View for ActiveRegionState {
    type V = ActiveRegionView;

    open spec fn view(&self) -> ActiveRegionView {
        ActiveRegionView { region_id: self.region_id, leaf_state: self.leaf_state, path: self.path@ }
    }
}

/// The values of a sequence of active regions.
pub open spec fn regions_view(s: Seq<ActiveRegionState>) -> Seq<ActiveRegionView> {
    s.map_values(|r: ActiveRegionState| r@)
}

/// A copy of a state sequence.
pub fn copy_states(v: &Vec<StateId>) -> (r: Vec<StateId>)
    ensures
        r@ == v@,
{
    let mut out: Vec<StateId> = Vec::new();
    let mut i: usize = 0;
    while i < v.len()
        invariant
            i <= v@.len(),
            out@ == v@.subrange(0, i as int),
        decreases v@.len() - i,
    {
        out.push(v[i]);
        i = i + 1;
        proof {
            assert(out@ =~= v@.subrange(0, i as int));
        }
    }
    proof {
        assert(v@.subrange(0, v@.len() as int) =~= v@);
    }
    out
}

impl Clone for ActiveRegionState {
    fn clone(&self) -> (r: Self)
        ensures
            r@ == self@,
    {
        ActiveRegionState { region_id: self.region_id, leaf_state: self.leaf_state, path: copy_states(&self.path) }
    }
}

/// A copy of a sequence of active regions.
pub fn copy_regions(v: &Vec<ActiveRegionState>) -> (r: Vec<ActiveRegionState>)
    ensures
        regions_view(r@) == regions_view(v@),
{
    let mut out: Vec<ActiveRegionState> = Vec::new();
    let mut i: usize = 0;
    while i < v.len()
        invariant
            i <= v@.len(),
            out@.len() == i,
            forall|j: int| 0 <= j < i ==> (#[trigger] out@[j])@ == v@[j]@,
        decreases v@.len() - i,
    {
        out.push(v[i].clone());
        i = i + 1;
    }
    proof {
        assert(regions_view(out@) =~= regions_view(v@));
    }
    out
}

/// What a state remembered about its children when it last exited.
#[derive(Debug, Default, PartialEq)]
pub struct HistorySnapshot {
    pub shallow_children: Vec<(RegionId, StateId)>,
    pub deep_regions: Vec<ActiveRegionState>,
}

/// The value of a history snapshot.
pub struct HistoryView {
    pub shallow_children: Seq<(RegionId, StateId)>,
    pub deep_regions: Seq<ActiveRegionView>,
}

impl View for HistorySnapshot {
    type V = HistoryView;

    open spec fn view(&self) -> HistoryView {
        HistoryView { shallow_children: self.shallow_children@, deep_regions: regions_view(self.deep_regions@) }
    }
}

/// The value of an optional history snapshot.
pub open spec fn history_entry_view(h: Option<HistorySnapshot>) -> Option<HistoryView> {
    match h {
        Some(s) => Some(s@),
        None => None,
    }
}

/// The values of a per-state history table.
pub open spec fn history_view(s: Seq<Option<HistorySnapshot>>) -> Seq<Option<HistoryView>> {
    s.map_values(|h: Option<HistorySnapshot>| history_entry_view(h))
}

fn copy_pairs(v: &Vec<(RegionId, StateId)>) -> (r: Vec<(RegionId, StateId)>)
    ensures
        r@ == v@,
{
    let mut out: Vec<(RegionId, StateId)> = Vec::new();
    let mut i: usize = 0;
    while i < v.len()
        invariant
            i <= v@.len(),
            out@ == v@.subrange(0, i as int),
        decreases v@.len() - i,
    {
        out.push(v[i]);
        i = i + 1;
        proof {
            assert(out@ =~= v@.subrange(0, i as int));
        }
    }
    proof {
        assert(v@.subrange(0, v@.len() as int) =~= v@);
    }
    out
}

impl Clone for HistorySnapshot {
    fn clone(&self) -> (r: Self)
        ensures
            r@ == self@,
    {
        HistorySnapshot { shallow_children: copy_pairs(&self.shallow_children), deep_regions: copy_regions(&self.deep_regions) }
    }
}

/// A copy of an optional history snapshot.
pub fn copy_history_entry(h: &Option<HistorySnapshot>) -> (r: Option<HistorySnapshot>)
    ensures
        history_entry_view(r) == history_entry_view(*h),
{
    match h {
        Some(s) => Some(s.clone()),
        None => None,
    }
}

/// A copy of a per-state history table.
pub fn copy_history(v: &Vec<Option<HistorySnapshot>>) -> (r: Vec<Option<HistorySnapshot>>)
    ensures
        history_view(r@) == history_view(v@),
{
    let mut out: Vec<Option<HistorySnapshot>> = Vec::new();
    let mut i: usize = 0;
    while i < v.len()
        invariant
            i <= v@.len(),
            out@.len() == i,
            forall|j: int| 0 <= j < i ==> history_entry_view(#[trigger] out@[j]) == history_entry_view(v@[j]),
        decreases v@.len() - i,
    {
        out.push(copy_history_entry(&v[i]));
        i = i + 1;
    }
    proof {
        assert(history_view(out@) =~= history_view(v@));
    }
    out
}

/// A copy of a timer table.
pub fn copy_timers(v: &Vec<u64>) -> (r: Vec<u64>)
    ensures
        r@ == v@,
{
    let mut out: Vec<u64> = Vec::new();
    let mut i: usize = 0;
    while i < v.len()
        invariant
            i <= v@.len(),
            out@ == v@.subrange(0, i as int),
        decreases v@.len() - i,
    {
        out.push(v[i]);
        i = i + 1;
        proof {
            assert(out@ =~= v@.subrange(0, i as int));
        }
    }
    proof {
        assert(v@.subrange(0, v@.len() as int) =~= v@);
    }
    out
}

/// A configuration saved by a push transition. Timers are in microseconds.
#[derive(Clone, Debug, Default, PartialEq)]
pub struct StateStackFrame {
    pub active_regions: Vec<ActiveRegionState>,
    pub history: Vec<Option<HistorySnapshot>>,
    pub state_elapsed_micros: Vec<u64>,
    pub transition_cooldowns_micros: Vec<u64>,
    pub guard_true_for_micros: Vec<u64>,
    pub pending_transition: Option<TransitionId>,
}

/// A bounded stack of saved configurations.
#[derive(Clone, Debug, Default)]
pub struct StateStack {
    pub max_depth: usize,
    pub frames: Vec<StateStackFrame>,
}

impl StateStack {
    /// An empty stack holding at most `max_depth` frames.
    pub fn new(max_depth: usize) -> (r: Self)
        ensures
            r.max_depth == max_depth,
            r.frames@.len() == 0,
    {
        StateStack { max_depth, frames: Vec::new() }
    }

    /// Saves a frame unless the stack already holds `max_depth` frames.
    pub fn push(&mut self, frame: StateStackFrame) -> (r: bool)
        ensures
            final(self).max_depth == old(self).max_depth,
            r == (old(self).frames@.len() < old(self).max_depth),
            r ==> final(self).frames@ == old(self).frames@.push(frame),
            !r ==> final(self).frames@ == old(self).frames@,
    {
        if self.frames.len() >= self.max_depth {
            return false;
        }
        self.frames.push(frame);
        true
    }

    /// Removes and returns the most recent frame.
    pub fn pop(&mut self) -> (r: Option<StateStackFrame>)
        ensures
            final(self).max_depth == old(self).max_depth,
            old(self).frames@.len() > 0 ==> r == Some(old(self).frames@.last())
                && final(self).frames@ == old(self).frames@.drop_last(),
            old(self).frames@.len() == 0 ==> r is None && final(self).frames@ == old(self).frames@,
    {
        self.frames.pop()
    }

    pub fn len(&self) -> (r: usize)
        ensures
            r == self.frames@.len(),
    {
        self.frames.len()
    }

    pub fn is_empty(&self) -> (r: bool)
        ensures
            r == (self.frames@.len() == 0),
    {
        self.frames.is_empty()
    }
}

} // verus!
