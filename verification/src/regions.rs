use vstd::prelude::*;

use crate::definition::{RegionId, StateId, StateMachineDefinition};

verus! {

/// An empty list enables every region; otherwise only the listed ones.
pub open spec fn spec_region_is_enabled(enabled_regions: Seq<RegionId>, region_id: RegionId) -> bool {
    enabled_regions.len() == 0 || enabled_regions.contains(region_id)
}

pub fn region_is_enabled(enabled_regions: &[RegionId], region_id: RegionId) -> (r: bool)
    ensures
        r == spec_region_is_enabled(enabled_regions@, region_id),
{
    if enabled_regions.len() == 0 {
        return true;
    }
    let mut i: usize = 0;
    while i < enabled_regions.len()
        invariant
            i <= enabled_regions@.len(),
            forall|j: int| 0 <= j < i ==> enabled_regions@[j] != region_id,
        decreases enabled_regions@.len() - i,
    {
        if enabled_regions[i] == region_id {
            proof {
                assert(enabled_regions@[i as int] == region_id);
            }
            return true;
        }
        i = i + 1;
    }
    false
}

impl StateMachineDefinition {
    /// The region that directly contains a known state.
    pub open spec fn spec_state_region(self, state_id: StateId) -> Option<RegionId> {
        match self.spec_state(state_id) {
            Some(s) => s.parent_region,
            None => None,
        }
    }

    /// The region one level up from `region_id`: the region containing its
    /// parent state. `None` means the walk stops here.
    pub open spec fn region_step(self, region_id: RegionId) -> Option<RegionId> {
        match self.spec_region(region_id) {
            None => None,
            Some(region) => match region.parent_state {
                None => None,
                Some(parent) => self.spec_state_region(parent),
            },
        }
    }

    /// Walking up from `region_id` stops within `fuel` steps.
    pub open spec fn region_walk_ends(self, region_id: RegionId, fuel: nat) -> bool
        decreases fuel,
    {
        match self.region_step(region_id) {
            None => true,
            Some(next) => fuel > 0 && self.region_walk_ends(next, (fuel - 1) as nat),
        }
    }

    /// Where the upward walk from `region_id` ends: at a known region without
    /// a parent state (`Some`), or at a broken link (`None`).
    pub open spec fn region_walk_end(self, region_id: RegionId, fuel: nat) -> Option<RegionId>
        decreases fuel,
    {
        match self.spec_region(region_id) {
            None => None,
            Some(region) => match region.parent_state {
                None => Some(region_id),
                Some(parent) => match self.spec_state_region(parent) {
                    None => None,
                    Some(next) => if fuel == 0 { None } else { self.region_walk_end(next, (fuel - 1) as nat) },
                },
            },
        }
    }

    /// The upward region walk from the state's own region is finite.
    pub open spec fn root_region_walk_ends(self, state_id: StateId) -> bool {
        match self.spec_state_region(state_id) {
            None => true,
            Some(r) => self.region_walk_ends(r, self.regions@.len()),
        }
    }

    /// The outermost region above a state.
    pub open spec fn spec_root_region_for_state(self, state_id: StateId) -> Option<RegionId> {
        match self.spec_state_region(state_id) {
            None => None,
            Some(r) => self.region_walk_end(r, self.regions@.len()),
        }
    }
}

/// The region that directly contains a state.
pub fn state_region(definition: &StateMachineDefinition, state_id: StateId) -> (r: Option<RegionId>)
    ensures
        r == definition.spec_state_region(state_id),
{
    match definition.state(state_id) {
        Some(state) => state.parent_region,
        None => None,
    }
}

/// The root region above a state, found by walking up through parent states;
/// `None` when a link on the way is missing.
pub fn root_region_for_state(definition: &StateMachineDefinition, state_id: StateId) -> (r: Option<RegionId>)
    requires
        definition.root_region_walk_ends(state_id),
    ensures
        r == definition.spec_root_region_for_state(state_id),
{
    let start = state_region(definition, state_id);
    let mut current_region = match start {
        Some(r) => r,
        None => return None,
    };
    let ghost mut fuel: nat = definition.regions@.len();
    loop
        invariant
            definition.region_walk_ends(current_region, fuel),
            definition.spec_root_region_for_state(state_id) == definition.region_walk_end(current_region, fuel),
        decreases fuel,
    {
        let region = match definition.region(current_region) {
            Some(region) => region,
            None => return None,
        };
        match region.parent_state {
            Some(parent_state) => {
                let next = match definition.state(parent_state) {
                    Some(parent) => match parent.parent_region {
                        Some(next) => next,
                        None => return None,
                    },
                    None => return None,
                };
                proof {
                    fuel = (fuel - 1) as nat;
                }
                current_region = next;
            },
            None => return Some(current_region),
        }
    }
}

} // verus!
