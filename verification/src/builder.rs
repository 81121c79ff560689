use vstd::prelude::*;
use vstd::string::*;

use crate::blackboard::{BlackboardKeyDefinition, BlackboardKeyId, BlackboardValue, BlackboardValueType};
use crate::debug::DebugTraceConfig;
use crate::validation::{expected_issues, has_error, issues_view, validate_definition, ValidationReport};
use crate::definition::{
    ActionId, GuardId, HistoryMode, RegionDefinition, RegionId, StateDefinition, StateId, StateKind,
    StateMachineDefinition, StateMachineDefinitionId, TransitionDefinition, TransitionId,
};

verus! {

/// Incrementally assembles a machine definition, assigning dense ids in
/// creation order.
#[derive(Clone, Debug)]
pub struct StateMachineBuilder {
    name: String,
    definition_id: Option<StateMachineDefinitionId>,
    states: Vec<StateDefinition>,
    regions: Vec<RegionDefinition>,
    transitions: Vec<TransitionDefinition>,
    root_regions: Vec<RegionId>,
    blackboard_schema: Vec<BlackboardKeyDefinition>,
    debug_trace_config: DebugTraceConfig,
    supported_features: Vec<String>,
    deferred_features: Vec<String>,
}

/// The contents of a builder.
pub struct BuilderView {
    pub name: Seq<char>,
    pub definition_id: Option<StateMachineDefinitionId>,
    pub states: Seq<StateDefinition>,
    pub regions: Seq<RegionDefinition>,
    pub transitions: Seq<TransitionDefinition>,
    pub root_regions: Seq<RegionId>,
    pub blackboard_schema: Seq<BlackboardKeyDefinition>,
    pub debug_trace_config: DebugTraceConfig,
    pub supported_features: Seq<Seq<char>>,
    pub deferred_features: Seq<Seq<char>>,
}

impl View for StateMachineBuilder {
    type V = BuilderView;

    closed spec fn view(&self) -> BuilderView {
        BuilderView {
            name: self.name@,
            definition_id: self.definition_id,
            states: self.states@,
            regions: self.regions@,
            transitions: self.transitions@,
            root_regions: self.root_regions@,
            blackboard_schema: self.blackboard_schema@,
            debug_trace_config: self.debug_trace_config,
            supported_features: self.supported_features@.map_values(|s: String| s@),
            deferred_features: self.deferred_features@.map_values(|s: String| s@),
        }
    }
}

impl BuilderView {
    /// Every state, region, transition and blackboard key carries its
    /// position as its (16-bit) id, and every transition its position as its
    /// declaration order.
    pub open spec fn ids_match_positions(self) -> bool {
        &&& forall|i: int| 0 <= i < self.states.len() ==> (#[trigger] self.states[i]).id == StateId(i as u16)
        &&& forall|i: int| 0 <= i < self.regions.len() ==> (#[trigger] self.regions[i]).id == RegionId(i as u16)
        &&& forall|i: int| 0 <= i < self.transitions.len() ==> (#[trigger] self.transitions[i]).id == TransitionId(i as u16)
            && self.transitions[i].declaration_order == i as usize
        &&& forall|i: int| 0 <= i < self.blackboard_schema.len() ==> (#[trigger] self.blackboard_schema[i]).id == BlackboardKeyId(i as u16)
    }
}

/// The feature names a new builder advertises as supported.
pub open spec fn default_supported_features() -> Seq<Seq<char>> {
    seq![
        "hierarchy"@,
        "pushdown"@,
        "utility_scoring"@,
        "orthogonal_regions"@,
        "delayed_transitions"@,
        "signal_inbox"@,
        "reflection_serialization"@,
    ]
}

/// The feature names a new builder advertises as deferred.
pub open spec fn default_deferred_features() -> Seq<Seq<char>> {
    seq![
        "sleep_wake_scheduling"@,
        "marker_component_mirroring"@,
        "scoped_blackboards"@,
        "score_hysteresis"@,
        "overlay_labels"@,
    ]
}

/// A freshly declared state of the given kind.
pub open spec fn new_state(id: StateId, name: Seq<char>, kind: StateKind, s: StateDefinition) -> bool {
    &&& s.id == id
    &&& s.name@ == name
    &&& s.kind == kind
    &&& s.parent_state is None
    &&& s.parent_region is None
    &&& s.child_regions@.len() == 0
    &&& s.on_enter@.len() == 0
    &&& s.on_update@.len() == 0
    &&& s.on_exit@.len() == 0
    &&& s.exit_guard is None
    &&& s.min_active_micros == 0
    &&& s.history_mode == HistoryMode::NoHistory
    &&& s.tags@.len() == 0
    &&& !s.always_tick
}

/// The state after changing a subset of its fields, all others kept.
pub open spec fn same_state_except(
    a: StateDefinition,
    b: StateDefinition,
    parent: bool,
    child_regions: bool,
    hooks: bool,
    tuning: bool,
) -> bool {
    &&& a.id == b.id
    &&& a.name == b.name
    &&& a.kind == b.kind
    &&& parent || (a.parent_state == b.parent_state && a.parent_region == b.parent_region)
    &&& child_regions || a.child_regions@ == b.child_regions@
    &&& hooks || (a.on_enter@ == b.on_enter@ && a.on_update@ == b.on_update@ && a.on_exit@ == b.on_exit@)
    &&& tuning || (a.exit_guard == b.exit_guard && a.min_active_micros == b.min_active_micros
        && a.history_mode == b.history_mode && a.tags@ == b.tags@ && a.always_tick == b.always_tick)
}

/// `new` is `old` with the element at `i` (when it exists) changed as `f`
/// allows, and every other element kept.
pub open spec fn changed_at<T>(old: Seq<T>, new: Seq<T>, i: int, f: spec_fn(T, T) -> bool) -> bool {
    &&& new.len() == old.len()
    &&& forall|j: int| 0 <= j < old.len() && j != i ==> new[j] == old[j]
    &&& 0 <= i < old.len() ==> f(old[i], new[i])
}

impl StateMachineBuilder {
    /// An empty builder with the default trace configuration (32 entries,
    /// blocked transitions recorded) and the default feature lists.
    pub fn new(name: &str) -> (r: Self)
        ensures
            r@.name == name@,
            r@.definition_id is None,
            r@.states.len() == 0,
            r@.regions.len() == 0,
            r@.transitions.len() == 0,
            r@.root_regions.len() == 0,
            r@.blackboard_schema.len() == 0,
            r@.debug_trace_config == (DebugTraceConfig { capacity: 32, record_blocked: true }),
            r@.supported_features == default_supported_features(),
            r@.deferred_features == default_deferred_features(),
            r@.ids_match_positions(),
    {
        let mut supported_features: Vec<String> = Vec::new();
        supported_features.push(String::from_str("hierarchy"));
        supported_features.push(String::from_str("pushdown"));
        supported_features.push(String::from_str("utility_scoring"));
        supported_features.push(String::from_str("orthogonal_regions"));
        supported_features.push(String::from_str("delayed_transitions"));
        supported_features.push(String::from_str("signal_inbox"));
        supported_features.push(String::from_str("reflection_serialization"));
        let mut deferred_features: Vec<String> = Vec::new();
        deferred_features.push(String::from_str("sleep_wake_scheduling"));
        deferred_features.push(String::from_str("marker_component_mirroring"));
        deferred_features.push(String::from_str("scoped_blackboards"));
        deferred_features.push(String::from_str("score_hysteresis"));
        deferred_features.push(String::from_str("overlay_labels"));
        let r = StateMachineBuilder {
            name: String::from_str(name),
            definition_id: None,
            states: Vec::new(),
            regions: Vec::new(),
            transitions: Vec::new(),
            root_regions: Vec::new(),
            blackboard_schema: Vec::new(),
            debug_trace_config: DebugTraceConfig { capacity: 32, record_blocked: true },
            supported_features,
            deferred_features,
        };
        proof {
            assert(r@.supported_features =~= default_supported_features());
            assert(r@.deferred_features =~= default_deferred_features());
        }
        r
    }

    /// Fixes the definition id instead of deriving it from the name.
    pub fn with_definition_id(self, id: StateMachineDefinitionId) -> (r: Self)
        ensures
            r@ == (BuilderView { definition_id: Some(id), ..self@ }),
            self@.ids_match_positions() ==> r@.ids_match_positions(),
    {
        let mut s = self;
        s.definition_id = Some(id);
        s
    }

    pub fn set_debug_trace_config(&mut self, config: DebugTraceConfig) -> (r: &mut Self)
        ensures
            (*r)@ == (BuilderView { debug_trace_config: config, ..old(self)@ }),
            *final(self) == *final(r),
            old(self)@.ids_match_positions() ==> (*r)@.ids_match_positions(),
    {
        self.debug_trace_config = config;
        self
    }

    fn add_state(&mut self, name: &str, kind: StateKind) -> (r: StateId)
        ensures
            r == StateId(old(self)@.states.len() as u16),
            final(self)@.states.len() == old(self)@.states.len() + 1,
            final(self)@.states.subrange(0, old(self)@.states.len() as int) == old(self)@.states,
            new_state(r, name@, kind, final(self)@.states.last()),
            final(self)@ == (BuilderView { states: final(self)@.states, ..old(self)@ }),
            old(self)@.ids_match_positions() ==> final(self)@.ids_match_positions(),
    {
        let id = StateId(self.states.len() as u16);
        self.states.push(StateDefinition {
            id,
            name: String::from_str(name),
            kind,
            parent_state: None,
            parent_region: None,
            child_regions: Vec::new(),
            on_enter: Vec::new(),
            on_update: Vec::new(),
            on_exit: Vec::new(),
            exit_guard: None,
            min_active_micros: 0,
            history_mode: HistoryMode::NoHistory,
            tags: Vec::new(),
            always_tick: false,
        });
        proof {
            assert(self@.states.subrange(0, old(self)@.states.len() as int) =~= old(self)@.states);
            assert forall|i: int| 0 <= i < old(self)@.states.len() implies self@.states[i] == old(self)@.states[i] by {
                assert(self@.states.subrange(0, old(self)@.states.len() as int)[i] == self@.states[i]);
            }
        }
        id
    }
}

impl StateMachineBuilder {
    pub fn atomic_state(&mut self, name: &str) -> (r: StateId)
        ensures
            r == StateId(old(self)@.states.len() as u16),
            final(self)@.states.len() == old(self)@.states.len() + 1,
            final(self)@.states.subrange(0, old(self)@.states.len() as int) == old(self)@.states,
            new_state(r, name@, StateKind::Atomic, final(self)@.states.last()),
            final(self)@ == (BuilderView { states: final(self)@.states, ..old(self)@ }),
            old(self)@.ids_match_positions() ==> final(self)@.ids_match_positions(),
    {
        self.add_state(name, StateKind::Atomic)
    }

    pub fn compound_state(&mut self, name: &str) -> (r: StateId)
        ensures
            r == StateId(old(self)@.states.len() as u16),
            final(self)@.states.len() == old(self)@.states.len() + 1,
            final(self)@.states.subrange(0, old(self)@.states.len() as int) == old(self)@.states,
            new_state(r, name@, StateKind::Compound, final(self)@.states.last()),
            final(self)@ == (BuilderView { states: final(self)@.states, ..old(self)@ }),
            old(self)@.ids_match_positions() ==> final(self)@.ids_match_positions(),
    {
        self.add_state(name, StateKind::Compound)
    }

    pub fn parallel_state(&mut self, name: &str) -> (r: StateId)
        ensures
            r == StateId(old(self)@.states.len() as u16),
            final(self)@.states.len() == old(self)@.states.len() + 1,
            final(self)@.states.subrange(0, old(self)@.states.len() as int) == old(self)@.states,
            new_state(r, name@, StateKind::Parallel, final(self)@.states.last()),
            final(self)@ == (BuilderView { states: final(self)@.states, ..old(self)@ }),
            old(self)@.ids_match_positions() ==> final(self)@.ids_match_positions(),
    {
        self.add_state(name, StateKind::Parallel)
    }

    pub fn final_state(&mut self, name: &str) -> (r: StateId)
        ensures
            r == StateId(old(self)@.states.len() as u16),
            final(self)@.states.len() == old(self)@.states.len() + 1,
            final(self)@.states.subrange(0, old(self)@.states.len() as int) == old(self)@.states,
            new_state(r, name@, StateKind::Final, final(self)@.states.last()),
            final(self)@ == (BuilderView { states: final(self)@.states, ..old(self)@ }),
            old(self)@.ids_match_positions() ==> final(self)@.ids_match_positions(),
    {
        self.add_state(name, StateKind::Final)
    }

    pub fn transient_state(&mut self, name: &str) -> (r: StateId)
        ensures
            r == StateId(old(self)@.states.len() as u16),
            final(self)@.states.len() == old(self)@.states.len() + 1,
            final(self)@.states.subrange(0, old(self)@.states.len() as int) == old(self)@.states,
            new_state(r, name@, StateKind::Transient, final(self)@.states.last()),
            final(self)@ == (BuilderView { states: final(self)@.states, ..old(self)@ }),
            old(self)@.ids_match_positions() ==> final(self)@.ids_match_positions(),
    {
        self.add_state(name, StateKind::Transient)
    }

    fn region_internal(&mut self, name: &str, parent_state: Option<StateId>) -> (r: RegionId)
        ensures
            r == RegionId(old(self)@.regions.len() as u16),
            final(self)@.regions.len() == old(self)@.regions.len() + 1,
            final(self)@.regions.subrange(0, old(self)@.regions.len() as int) == old(self)@.regions,
            ({
                let region = final(self)@.regions.last();
                &&& region.id == r
                &&& region.name@ == name@
                &&& region.parent_state == parent_state
                &&& region.child_states@.len() == 0
                &&& region.initial_state is None
            }),
            final(self)@ == (BuilderView { regions: final(self)@.regions, ..old(self)@ }),
            old(self)@.ids_match_positions() ==> final(self)@.ids_match_positions(),
    {
        let id = RegionId(self.regions.len() as u16);
        self.regions.push(RegionDefinition {
            id,
            name: String::from_str(name),
            parent_state,
            child_states: Vec::new(),
            initial_state: None,
        });
        proof {
            assert(self@.regions.subrange(0, old(self)@.regions.len() as int) =~= old(self)@.regions);
            assert forall|i: int| 0 <= i < old(self)@.regions.len() implies self@.regions[i] == old(self)@.regions[i] by {
                assert(self@.regions.subrange(0, old(self)@.regions.len() as int)[i] == self@.regions[i]);
            }
        }
        id
    }

    /// Declares a top-level region.
    pub fn root_region(&mut self, name: &str) -> (r: RegionId)
        ensures
            r == RegionId(old(self)@.regions.len() as u16),
            final(self)@.regions.len() == old(self)@.regions.len() + 1,
            final(self)@.regions.subrange(0, old(self)@.regions.len() as int) == old(self)@.regions,
            ({
                let region = final(self)@.regions.last();
                &&& region.id == r
                &&& region.name@ == name@
                &&& region.parent_state is None
                &&& region.child_states@.len() == 0
                &&& region.initial_state is None
            }),
            final(self)@.root_regions == old(self)@.root_regions.push(r),
            final(self)@ == (BuilderView { regions: final(self)@.regions, root_regions: final(self)@.root_regions, ..old(self)@ }),
            old(self)@.ids_match_positions() ==> final(self)@.ids_match_positions(),
    {
        let id = self.region_internal(name, None);
        self.root_regions.push(id);
        id
    }

    /// Declares a region owned by `parent_state`, which records it among its
    /// child regions when it exists.
    pub fn region(&mut self, name: &str, parent_state: StateId) -> (r: RegionId)
        ensures
            r == RegionId(old(self)@.regions.len() as u16),
            final(self)@.regions.len() == old(self)@.regions.len() + 1,
            final(self)@.regions.subrange(0, old(self)@.regions.len() as int) == old(self)@.regions,
            ({
                let region = final(self)@.regions.last();
                &&& region.id == r
                &&& region.name@ == name@
                &&& region.parent_state == Some(parent_state)
                &&& region.child_states@.len() == 0
                &&& region.initial_state is None
            }),
            changed_at(old(self)@.states, final(self)@.states, parent_state.0 as int,
                |a: StateDefinition, b: StateDefinition| same_state_except(a, b, false, true, false, false)
                    && b.child_regions@ == a.child_regions@.push(r)),
            final(self)@ == (BuilderView { regions: final(self)@.regions, states: final(self)@.states, ..old(self)@ }),
            old(self)@.ids_match_positions() ==> final(self)@.ids_match_positions(),
    {
        let id = self.region_internal(name, Some(parent_state));
        let index = parent_state.0 as usize;
        let ghost mid = self@;
        if index < self.states.len() {
            self.states[index].child_regions.push(id);
            proof {
                assert forall|i: int| 0 <= i < self@.states.len() implies self@.states[i].id == mid.states[i].id by {
                    if i != index {
                        assert(self@.states[i] == mid.states[i]);
                    }
                }
            }
        }
        id
    }

    /// Places a state in a region: the state records the region and the
    /// region's parent state, and the region lists the state among its children.
    pub fn add_state_to_region(&mut self, state_id: StateId, region_id: RegionId) -> (r: &mut Self)
        ensures
            changed_at(old(self)@.states, (*r)@.states, state_id.0 as int,
                |a: StateDefinition, b: StateDefinition| same_state_except(a, b, true, false, false, false)
                    && b.parent_region == Some(region_id)
                    && b.parent_state == (if (region_id.0 as int) < old(self)@.regions.len() {
                        old(self)@.regions[region_id.0 as int].parent_state
                    } else {
                        None
                    })),
            changed_at(old(self)@.regions, (*r)@.regions, region_id.0 as int,
                |a: RegionDefinition, b: RegionDefinition| b.id == a.id && b.name == a.name
                    && b.parent_state == a.parent_state && b.initial_state == a.initial_state
                    && b.child_states@ == a.child_states@.push(state_id)),
            (*r)@ == (BuilderView { regions: (*r)@.regions, states: (*r)@.states, ..old(self)@ }),
            *final(self) == *final(r),
            old(self)@.ids_match_positions() ==> (*r)@.ids_match_positions(),
    {
        let state_index = state_id.0 as usize;
        let region_index = region_id.0 as usize;
        if state_index < self.states.len() {
            let parent = if region_index < self.regions.len() {
                self.regions[region_index].parent_state
            } else {
                None
            };
            self.states[state_index].parent_region = Some(region_id);
            self.states[state_index].parent_state = parent;
        }
        if region_index < self.regions.len() {
            self.regions[region_index].child_states.push(state_id);
        }
        self
    }

    /// Sets the state a region enters first.
    pub fn set_region_initial(&mut self, region_id: RegionId, state_id: StateId) -> (r: &mut Self)
        ensures
            changed_at(old(self)@.regions, (*r)@.regions, region_id.0 as int,
                |a: RegionDefinition, b: RegionDefinition| b == (RegionDefinition { initial_state: Some(state_id), ..a })),
            (*r)@ == (BuilderView { regions: (*r)@.regions, ..old(self)@ }),
            *final(self) == *final(r),
            old(self)@.ids_match_positions() ==> (*r)@.ids_match_positions(),
    {
        let index = region_id.0 as usize;
        if index < self.regions.len() {
            self.regions[index].initial_state = Some(state_id);
        }
        self
    }

    pub fn set_state_history_mode(&mut self, state_id: StateId, history_mode: HistoryMode) -> (r: &mut Self)
        ensures
            changed_at(old(self)@.states, (*r)@.states, state_id.0 as int,
                |a: StateDefinition, b: StateDefinition| b == (StateDefinition { history_mode, ..a })),
            (*r)@ == (BuilderView { states: (*r)@.states, ..old(self)@ }),
            *final(self) == *final(r),
            old(self)@.ids_match_positions() ==> (*r)@.ids_match_positions(),
    {
        let index = state_id.0 as usize;
        if index < self.states.len() {
            self.states[index].history_mode = history_mode;
        }
        self
    }

    /// Sets the minimum time (microseconds) a state stays active before it may exit.
    pub fn set_state_min_active_micros(&mut self, state_id: StateId, micros: u64) -> (r: &mut Self)
        ensures
            changed_at(old(self)@.states, (*r)@.states, state_id.0 as int,
                |a: StateDefinition, b: StateDefinition| b == (StateDefinition { min_active_micros: micros, ..a })),
            (*r)@ == (BuilderView { states: (*r)@.states, ..old(self)@ }),
            *final(self) == *final(r),
            old(self)@.ids_match_positions() ==> (*r)@.ids_match_positions(),
    {
        let index = state_id.0 as usize;
        if index < self.states.len() {
            self.states[index].min_active_micros = micros;
        }
        self
    }

    pub fn set_state_exit_guard(&mut self, state_id: StateId, guard: GuardId) -> (r: &mut Self)
        ensures
            changed_at(old(self)@.states, (*r)@.states, state_id.0 as int,
                |a: StateDefinition, b: StateDefinition| b == (StateDefinition { exit_guard: Some(guard), ..a })),
            (*r)@ == (BuilderView { states: (*r)@.states, ..old(self)@ }),
            *final(self) == *final(r),
            old(self)@.ids_match_positions() ==> (*r)@.ids_match_positions(),
    {
        let index = state_id.0 as usize;
        if index < self.states.len() {
            self.states[index].exit_guard = Some(guard);
        }
        self
    }

    pub fn set_state_always_tick(&mut self, state_id: StateId, always_tick: bool) -> (r: &mut Self)
        ensures
            changed_at(old(self)@.states, (*r)@.states, state_id.0 as int,
                |a: StateDefinition, b: StateDefinition| b == (StateDefinition { always_tick, ..a })),
            (*r)@ == (BuilderView { states: (*r)@.states, ..old(self)@ }),
            *final(self) == *final(r),
            old(self)@.ids_match_positions() ==> (*r)@.ids_match_positions(),
    {
        let index = state_id.0 as usize;
        if index < self.states.len() {
            self.states[index].always_tick = always_tick;
        }
        self
    }

    pub fn add_state_tag(&mut self, state_id: StateId, tag: &str) -> (r: &mut Self)
        ensures
            changed_at(old(self)@.states, (*r)@.states, state_id.0 as int,
                |a: StateDefinition, b: StateDefinition| same_state_except(a, b, false, false, false, true)
                    && b.exit_guard == a.exit_guard && b.min_active_micros == a.min_active_micros
                    && b.history_mode == a.history_mode && b.always_tick == a.always_tick
                    && b.tags@.len() == a.tags@.len() + 1
                    && b.tags@.subrange(0, a.tags@.len() as int) == a.tags@
                    && b.tags@.last()@ == tag@),
            (*r)@ == (BuilderView { states: (*r)@.states, ..old(self)@ }),
            *final(self) == *final(r),
            old(self)@.ids_match_positions() ==> (*r)@.ids_match_positions(),
    {
        let index = state_id.0 as usize;
        if index < self.states.len() {
            self.states[index].tags.push(String::from_str(tag));
            proof {
                assert(self@.states[index as int].tags@.subrange(0, old(self)@.states[index as int].tags@.len() as int) =~= old(self)@.states[index as int].tags@);
            }
        }
        self
    }

    pub fn add_on_enter(&mut self, state_id: StateId, action: ActionId) -> (r: &mut Self)
        ensures
            changed_at(old(self)@.states, (*r)@.states, state_id.0 as int,
                |a: StateDefinition, b: StateDefinition| same_state_except(a, b, false, false, true, false)
                    && b.on_enter@ == a.on_enter@.push(action) && b.on_update@ == a.on_update@ && b.on_exit@ == a.on_exit@),
            (*r)@ == (BuilderView { states: (*r)@.states, ..old(self)@ }),
            *final(self) == *final(r),
            old(self)@.ids_match_positions() ==> (*r)@.ids_match_positions(),
    {
        let index = state_id.0 as usize;
        if index < self.states.len() {
            self.states[index].on_enter.push(action);
        }
        self
    }

    pub fn add_on_update(&mut self, state_id: StateId, action: ActionId) -> (r: &mut Self)
        ensures
            changed_at(old(self)@.states, (*r)@.states, state_id.0 as int,
                |a: StateDefinition, b: StateDefinition| same_state_except(a, b, false, false, true, false)
                    && b.on_update@ == a.on_update@.push(action) && b.on_enter@ == a.on_enter@ && b.on_exit@ == a.on_exit@),
            (*r)@ == (BuilderView { states: (*r)@.states, ..old(self)@ }),
            *final(self) == *final(r),
            old(self)@.ids_match_positions() ==> (*r)@.ids_match_positions(),
    {
        let index = state_id.0 as usize;
        if index < self.states.len() {
            self.states[index].on_update.push(action);
        }
        self
    }

    pub fn add_on_exit(&mut self, state_id: StateId, action: ActionId) -> (r: &mut Self)
        ensures
            changed_at(old(self)@.states, (*r)@.states, state_id.0 as int,
                |a: StateDefinition, b: StateDefinition| same_state_except(a, b, false, false, true, false)
                    && b.on_exit@ == a.on_exit@.push(action) && b.on_enter@ == a.on_enter@ && b.on_update@ == a.on_update@),
            (*r)@ == (BuilderView { states: (*r)@.states, ..old(self)@ }),
            *final(self) == *final(r),
            old(self)@.ids_match_positions() ==> (*r)@.ids_match_positions(),
    {
        let index = state_id.0 as usize;
        if index < self.states.len() {
            self.states[index].on_exit.push(action);
        }
        self
    }

    /// Appends a transition; its id and declaration order become its position.
    pub fn add_transition(&mut self, transition: TransitionDefinition) -> (r: &mut Self)
        ensures
            (*r)@.transitions == old(self)@.transitions.push(TransitionDefinition {
                id: TransitionId(old(self)@.transitions.len() as u16),
                declaration_order: old(self)@.transitions.len() as usize,
                ..transition
            }),
            (*r)@ == (BuilderView { transitions: (*r)@.transitions, ..old(self)@ }),
            *final(self) == *final(r),
            old(self)@.ids_match_positions() ==> (*r)@.ids_match_positions(),
    {
        let mut transition = transition;
        transition.id = TransitionId(self.transitions.len() as u16);
        transition.declaration_order = self.transitions.len();
        self.transitions.push(transition);
        self
    }

    /// Declares a blackboard key; its id is its position in the schema.
    pub fn blackboard_key(
        &mut self,
        name: &str,
        value_type: BlackboardValueType,
        required: bool,
        default_value: Option<BlackboardValue>,
    ) -> (r: BlackboardKeyId)
        ensures
            r == BlackboardKeyId(old(self)@.blackboard_schema.len() as u16),
            final(self)@.blackboard_schema.len() == old(self)@.blackboard_schema.len() + 1,
            final(self)@.blackboard_schema.subrange(0, old(self)@.blackboard_schema.len() as int) == old(self)@.blackboard_schema,
            ({
                let key = final(self)@.blackboard_schema.last();
                &&& key.id == r
                &&& key.name@ == name@
                &&& key.value_type == value_type
                &&& key.required == required
                &&& key.default_value == default_value
            }),
            final(self)@ == (BuilderView { blackboard_schema: final(self)@.blackboard_schema, ..old(self)@ }),
            old(self)@.ids_match_positions() ==> final(self)@.ids_match_positions(),
    {
        let id = BlackboardKeyId(self.blackboard_schema.len() as u16);
        self.blackboard_schema.push(BlackboardKeyDefinition {
            id,
            name: String::from_str(name),
            value_type,
            required,
            default_value,
        });
        proof {
            assert(self@.blackboard_schema.subrange(0, old(self)@.blackboard_schema.len() as int) =~= old(self)@.blackboard_schema);
        }
        id
    }
}

/// FNV-1a offset basis.
pub const FNV_OFFSET: u64 = 0xcbf29ce484222325;

/// FNV-1a prime.
pub const FNV_PRIME: u64 = 0x100000001b3;

/// The 64-bit FNV-1a hash of a byte sequence.
pub open spec fn fnv1a(bytes: Seq<u8>) -> u64
    decreases bytes.len(),
{
    if bytes.len() == 0 {
        FNV_OFFSET
    } else {
        vstd::wrapping::u64_specs::wrapping_mul(fnv1a(bytes.drop_last()) ^ (bytes.last() as u64), FNV_PRIME)
    }
}

/// The FNV-1a hash of the UTF-8 encoding of a name.
pub fn stable_hash(input: &str) -> (r: u64)
    ensures
        r == fnv1a(input.spec_bytes()),
{
    let bytes = input.as_bytes();
    let mut hash = FNV_OFFSET;
    let mut i: usize = 0;
    while i < bytes.len()
        invariant
            i <= bytes@.len(),
            bytes@ == input.spec_bytes(),
            hash == fnv1a(bytes@.subrange(0, i as int)),
        decreases bytes@.len() - i,
    {
        proof {
            assert(bytes@.subrange(0, i + 1).drop_last() =~= bytes@.subrange(0, i as int));
            assert(bytes@.subrange(0, i + 1).last() == bytes@[i as int]);
        }
        hash = hash ^ (bytes[i] as u64);
        hash = hash.wrapping_mul(FNV_PRIME);
        i = i + 1;
    }
    proof {
        assert(bytes@.subrange(0, bytes@.len() as int) =~= bytes@);
    }
    hash
}

impl StateMachineBuilder {
    /// The definition the builder assembles: its id is the fixed one, or the
    /// hash of the name.
    pub closed spec fn assembled(self) -> StateMachineDefinition {
        StateMachineDefinition {
            id: match self.definition_id {
                Some(id) => id,
                None => StateMachineDefinitionId(fnv1a(vstd::utf8::encode_utf8(self.name@))),
            },
            name: self.name,
            states: self.states,
            regions: self.regions,
            transitions: self.transitions,
            root_regions: self.root_regions,
            blackboard_schema: self.blackboard_schema,
            debug_trace_config: self.debug_trace_config,
            supported_features: self.supported_features,
            deferred_features: self.deferred_features,
        }
    }

    /// The assembled definition carries the builder's contents.
    pub proof fn lemma_assembled(self)
        ensures
            self.assembled().name@ == self@.name,
            self.assembled().states@ == self@.states,
            self.assembled().regions@ == self@.regions,
            self.assembled().transitions@ == self@.transitions,
            self.assembled().root_regions@ == self@.root_regions,
            self.assembled().blackboard_schema@ == self@.blackboard_schema,
            self.assembled().debug_trace_config == self@.debug_trace_config,
            self.assembled().supported_features@.map_values(|s: String| s@) == self@.supported_features,
            self.assembled().deferred_features@.map_values(|s: String| s@) == self@.deferred_features,
            self@.definition_id matches Some(id) ==> self.assembled().id == id,
            self@.definition_id is None ==> self.assembled().id == StateMachineDefinitionId(fnv1a(vstd::utf8::encode_utf8(self@.name))),
    {
    }

    /// Assembles and validates the definition: it is returned when validation
    /// finds no error, and the full report otherwise.
    pub fn build(self) -> (r: Result<StateMachineDefinition, ValidationReport>)
        requires
            self.assembled().validation_terminates(),
        ensures
            match r {
                Ok(d) => d == self.assembled() && !has_error(expected_issues(self.assembled())),
                Err(report) => issues_view(report.issues@) == expected_issues(self.assembled())
                    && has_error(expected_issues(self.assembled())),
            },
    {
        let id = match self.definition_id {
            Some(id) => id,
            None => StateMachineDefinitionId(stable_hash(self.name.as_str())),
        };
        let definition = StateMachineDefinition {
            id,
            name: self.name,
            states: self.states,
            regions: self.regions,
            transitions: self.transitions,
            root_regions: self.root_regions,
            blackboard_schema: self.blackboard_schema,
            debug_trace_config: self.debug_trace_config,
            supported_features: self.supported_features,
            deferred_features: self.deferred_features,
        };
        let report = validate_definition(&definition);
        if report.has_errors() {
            Err(report)
        } else {
            Ok(definition)
        }
    }
}

} // verus!
