use vstd::prelude::*;
use vstd::std_specs::convert::IntoSpec;
use vstd::string::*;

use crate::blackboard::{BlackboardKeyDefinition, BlackboardKeyId};
use crate::debug::DebugTraceConfig;
use crate::text::{debug_newtype, push_debug_newtype};

verus! {

/// Stable identifier of a registered machine definition.
#[derive(Clone, Copy, Debug, Default, PartialEq, Eq, Hash, PartialOrd, Ord, Structural)]
pub struct StateMachineDefinitionId(pub u64);

/// Dense identifier of a state inside one definition.
#[derive(Clone, Copy, Debug, Default, PartialEq, Eq, Hash, PartialOrd, Ord, Structural)]
pub struct StateId(pub u16);

/// Dense identifier of a region inside one definition.
#[derive(Clone, Copy, Debug, Default, PartialEq, Eq, Hash, PartialOrd, Ord, Structural)]
pub struct RegionId(pub u16);

/// Dense identifier of a transition inside one definition.
#[derive(Clone, Copy, Debug, Default, PartialEq, Eq, Hash, PartialOrd, Ord, Structural)]
pub struct TransitionId(pub u16);

/// Identifier of a guard callback.
#[derive(Clone, Copy, Debug, Default, PartialEq, Eq, Hash, PartialOrd, Ord, Structural)]
pub struct GuardId(pub u16);

/// Identifier of an action callback.
#[derive(Clone, Copy, Debug, Default, PartialEq, Eq, Hash, PartialOrd, Ord, Structural)]
pub struct ActionId(pub u16);

/// Identifier of a utility scorer callback.
#[derive(Clone, Copy, Debug, Default, PartialEq, Eq, Hash, PartialOrd, Ord, Structural)]
pub struct ScorerId(pub u16);

/// Identifier of an external signal.
#[derive(Clone, Copy, Debug, Default, PartialEq, Eq, Hash, PartialOrd, Ord, Structural)]
pub struct SignalId(pub u16);

/// How a compound or parallel state restores its children on re-entry.
#[derive(Clone, Copy, Debug, Default, PartialEq, Eq, Structural)]
pub enum HistoryMode {
    #[default]
    NoHistory,
    Shallow,
    Deep,
}

/// How a transition treats a source state that is not ready to exit.
#[derive(Clone, Copy, Debug, Default, PartialEq, Eq, Structural)]
pub enum TransitionMode {
    #[default]
    Immediate,
    Pending,
    Force,
}

/// The topology change a transition performs.
#[derive(Clone, Copy, Debug, Default, PartialEq, Eq, Structural)]
pub enum TransitionOperation {
    #[default]
    Replace,
    Push,
    Pop,
}

/// What makes a transition eligible.
///
/// `AfterSeconds` carries its delay in milliseconds.
#[derive(Clone, Copy, Debug, Default, PartialEq, Eq, Structural)]
pub enum TransitionTrigger {
    #[default]
    Automatic,
    AfterSeconds(u32),
    Signal(SignalId),
    Done,
}

impl TransitionTrigger {
    /// The delay of an `AfterSeconds` trigger in milliseconds.
    pub fn milliseconds(self) -> (r: Option<u32>)
        ensures
            r == (match self {
                TransitionTrigger::AfterSeconds(ms) => Some(ms),
                _ => None,
            }),
    {
        match self {
            TransitionTrigger::AfterSeconds(ms) => Some(ms),
            _ => None,
        }
    }
}

/// Utility scoring policy; thresholds are in thousandths of a score unit.
#[derive(Clone, Copy, Debug, Default, PartialEq, Eq, Structural)]
pub enum UtilityPolicy {
    #[default]
    Disabled,
    BestScore,
    BestScoreAbove { minimum_score_milli: u32 },
}

impl UtilityPolicy {
    /// The threshold of the policy in millionths of a score unit.
    pub open spec fn spec_minimum_score_micros(self) -> int {
        match self {
            UtilityPolicy::BestScoreAbove { minimum_score_milli } => minimum_score_milli * 1000,
            _ => 0,
        }
    }

    /// The threshold of the policy in millionths of a score unit.
    pub fn minimum_score_micros(self) -> (r: i64)
        ensures
            r == self.spec_minimum_score_micros(),
    {
        match self {
            UtilityPolicy::BestScoreAbove { minimum_score_milli } => minimum_score_milli as i64 * 1000,
            _ => 0,
        }
    }
}

/// The structural kind of a state.
#[derive(Clone, Copy, Debug, Default, PartialEq, Eq, Structural)]
pub enum StateKind {
    #[default]
    Atomic,
    Compound,
    Parallel,
    Final,
    Transient,
}

impl StateKind {
    /// Compound and parallel states own child regions.
    pub open spec fn spec_has_children(self) -> bool {
        self == StateKind::Compound || self == StateKind::Parallel
    }

    pub fn has_children(self) -> (r: bool)
        ensures
            r == self.spec_has_children(),
    {
        match self {
            StateKind::Compound | StateKind::Parallel => true,
            _ => false,
        }
    }
}

/// Where a transition may fire from.
#[derive(Clone, Copy, Debug, Default, PartialEq, Eq, Structural)]
pub enum TransitionSource {
    State(StateId),
    #[default]
    AnyState,
}

impl TransitionSource {
    /// The source state, unless the transition fires from any state.
    pub open spec fn spec_state(self) -> Option<StateId> {
        match self {
            TransitionSource::State(s) => Some(s),
            TransitionSource::AnyState => None,
        }
    }

    pub fn state(self) -> (r: Option<StateId>)
        ensures
            r == self.spec_state(),
    {
        match self {
            TransitionSource::State(s) => Some(s),
            TransitionSource::AnyState => None,
        }
    }
}

impl From<StateId> for TransitionSource {
    fn from(value: StateId) -> (r: Self) {
        TransitionSource::State(value)
    }
}

impl vstd::std_specs::convert::FromSpecImpl<StateId> for TransitionSource {
    open spec fn obeys_from_spec() -> bool {
        true
    }

    open spec fn from_spec(v: StateId) -> TransitionSource {
        TransitionSource::State(v)
    }
}

/// One state of a machine definition. Durations are in microseconds.
#[derive(Debug, PartialEq)]
pub struct StateDefinition {
    pub id: StateId,
    pub name: String,
    pub kind: StateKind,
    pub parent_state: Option<StateId>,
    pub parent_region: Option<RegionId>,
    pub child_regions: Vec<RegionId>,
    pub on_enter: Vec<ActionId>,
    pub on_update: Vec<ActionId>,
    pub on_exit: Vec<ActionId>,
    pub exit_guard: Option<GuardId>,
    pub min_active_micros: u64,
    pub history_mode: HistoryMode,
    pub tags: Vec<String>,
    pub always_tick: bool,
}

/// One region (a set of mutually exclusive child states).
#[derive(Debug, PartialEq)]
pub struct RegionDefinition {
    pub id: RegionId,
    pub name: String,
    pub parent_state: Option<StateId>,
    pub child_states: Vec<StateId>,
    pub initial_state: Option<StateId>,
}

/// One transition. Durations are in microseconds.
#[derive(Debug, PartialEq)]
pub struct TransitionDefinition {
    pub id: TransitionId,
    pub source: TransitionSource,
    pub operation: TransitionOperation,
    pub target: Option<StateId>,
    pub trigger: TransitionTrigger,
    pub guard: Option<GuardId>,
    pub actions: Vec<ActionId>,
    pub scorer: Option<ScorerId>,
    pub priority: i32,
    pub declaration_order: usize,
    pub mode: TransitionMode,
    pub utility_policy: UtilityPolicy,
    pub cooldown_micros: u64,
    pub debounce_micros: u64,
}

/// A copy of a list of plain values.
pub fn copy_items<T: Copy>(v: &Vec<T>) -> (r: Vec<T>)
    ensures
        r@ == v@,
{
    let mut out: Vec<T> = Vec::new();
    let mut i: usize = 0;
    while i < v.len()
        invariant
            i <= v@.len(),
            out@ == v@.subrange(0, i as int),
        decreases v@.len() - i,
    {
        out.push(v[i]);
        proof {
            assert(out@ =~= v@.subrange(0, i + 1));
        }
        i = i + 1;
    }
    proof {
        assert(v@.subrange(0, v@.len() as int) =~= v@);
    }
    out
}

/// A copy of a list of strings.
pub fn copy_strings(v: &Vec<String>) -> (r: Vec<String>)
    ensures
        r@ == v@,
{
    let mut out: Vec<String> = Vec::new();
    let mut i: usize = 0;
    while i < v.len()
        invariant
            i <= v@.len(),
            out@ == v@.subrange(0, i as int),
        decreases v@.len() - i,
    {
        out.push(v[i].clone());
        proof {
            assert(out@ =~= v@.subrange(0, i + 1));
        }
        i = i + 1;
    }
    proof {
        assert(v@.subrange(0, v@.len() as int) =~= v@);
    }
    out
}

impl StateDefinition {
    /// Every field agrees, lists by their contents.
    pub open spec fn same_as(self, other: StateDefinition) -> bool {
        &&& self.id == other.id
        &&& self.name == other.name
        &&& self.kind == other.kind
        &&& self.parent_state == other.parent_state
        &&& self.parent_region == other.parent_region
        &&& self.child_regions@ == other.child_regions@
        &&& self.on_enter@ == other.on_enter@
        &&& self.on_update@ == other.on_update@
        &&& self.on_exit@ == other.on_exit@
        &&& self.exit_guard == other.exit_guard
        &&& self.min_active_micros == other.min_active_micros
        &&& self.history_mode == other.history_mode
        &&& self.tags@ == other.tags@
        &&& self.always_tick == other.always_tick
    }
}

impl Clone for StateDefinition {
    fn clone(&self) -> (r: Self)
        ensures
            r.same_as(*self),
    {
        StateDefinition {
            id: self.id,
            name: self.name.clone(),
            kind: self.kind,
            parent_state: self.parent_state,
            parent_region: self.parent_region,
            child_regions: copy_items(&self.child_regions),
            on_enter: copy_items(&self.on_enter),
            on_update: copy_items(&self.on_update),
            on_exit: copy_items(&self.on_exit),
            exit_guard: self.exit_guard,
            min_active_micros: self.min_active_micros,
            history_mode: self.history_mode,
            tags: copy_strings(&self.tags),
            always_tick: self.always_tick,
        }
    }
}

impl RegionDefinition {
    /// Every field agrees, lists by their contents.
    pub open spec fn same_as(self, other: RegionDefinition) -> bool {
        &&& self.id == other.id
        &&& self.name == other.name
        &&& self.parent_state == other.parent_state
        &&& self.child_states@ == other.child_states@
        &&& self.initial_state == other.initial_state
    }
}

impl Clone for RegionDefinition {
    fn clone(&self) -> (r: Self)
        ensures
            r.same_as(*self),
    {
        RegionDefinition {
            id: self.id,
            name: self.name.clone(),
            parent_state: self.parent_state,
            child_states: copy_items(&self.child_states),
            initial_state: self.initial_state,
        }
    }
}

impl Clone for TransitionDefinition {
    fn clone(&self) -> (r: Self)
        ensures
            r.spec_fields() == self.spec_fields(),
    {
        TransitionDefinition {
            id: self.id,
            source: self.source,
            operation: self.operation,
            target: self.target,
            trigger: self.trigger,
            guard: self.guard,
            actions: copy_items(&self.actions),
            scorer: self.scorer,
            priority: self.priority,
            declaration_order: self.declaration_order,
            mode: self.mode,
            utility_policy: self.utility_policy,
            cooldown_micros: self.cooldown_micros,
            debounce_micros: self.debounce_micros,
        }
    }
}

impl TransitionDefinition {
    /// The field values every constructor starts from.
    pub open spec fn spec_basic(
        source: TransitionSource,
        operation: TransitionOperation,
        target: Option<StateId>,
    ) -> (TransitionId, TransitionSource, TransitionOperation, Option<StateId>, TransitionTrigger, Option<GuardId>, Seq<ActionId>, Option<ScorerId>, i32, usize, TransitionMode, UtilityPolicy, u64, u64) {
        (
            TransitionId(0),
            source,
            operation,
            target,
            TransitionTrigger::Automatic,
            None,
            Seq::empty(),
            None,
            0,
            0,
            TransitionMode::Immediate,
            UtilityPolicy::Disabled,
            0,
            0,
        )
    }

    /// The fields of a transition as a tuple, actions by their view.
    pub open spec fn spec_fields(self) -> (TransitionId, TransitionSource, TransitionOperation, Option<StateId>, TransitionTrigger, Option<GuardId>, Seq<ActionId>, Option<ScorerId>, i32, usize, TransitionMode, UtilityPolicy, u64, u64) {
        (
            self.id,
            self.source,
            self.operation,
            self.target,
            self.trigger,
            self.guard,
            self.actions@,
            self.scorer,
            self.priority,
            self.declaration_order,
            self.mode,
            self.utility_policy,
            self.cooldown_micros,
            self.debounce_micros,
        )
    }

    fn basic(source: TransitionSource, operation: TransitionOperation, target: Option<StateId>) -> (r: Self)
        ensures
            r.spec_fields() == Self::spec_basic(source, operation, target),
    {
        TransitionDefinition {
            id: TransitionId(0),
            source,
            operation,
            target,
            trigger: TransitionTrigger::Automatic,
            guard: None,
            actions: Vec::new(),
            scorer: None,
            priority: 0,
            declaration_order: 0,
            mode: TransitionMode::Immediate,
            utility_policy: UtilityPolicy::Disabled,
            cooldown_micros: 0,
            debounce_micros: 0,
        }
    }

    /// A transition that replaces the active path with `target`.
    pub fn replace<S: Into<TransitionSource>>(source: S, target: StateId) -> (r: Self)
        ensures
            <S as IntoSpec<TransitionSource>>::obeys_into_spec() ==> r.spec_fields()
                == Self::spec_basic(source.into_spec(), TransitionOperation::Replace, Some(target)),
    {
        Self::basic(source.into(), TransitionOperation::Replace, Some(target))
    }

    /// A transition that saves the active configuration on the stack and enters `target`.
    pub fn push<S: Into<TransitionSource>>(source: S, target: StateId) -> (r: Self)
        ensures
            <S as IntoSpec<TransitionSource>>::obeys_into_spec() ==> r.spec_fields()
                == Self::spec_basic(source.into_spec(), TransitionOperation::Push, Some(target)),
    {
        Self::basic(source.into(), TransitionOperation::Push, Some(target))
    }

    /// A transition that restores the configuration saved by the last push.
    pub fn pop<S: Into<TransitionSource>>(source: S) -> (r: Self)
        ensures
            <S as IntoSpec<TransitionSource>>::obeys_into_spec() ==> r.spec_fields()
                == Self::spec_basic(source.into_spec(), TransitionOperation::Pop, None),
    {
        Self::basic(source.into(), TransitionOperation::Pop, None)
    }

    pub fn with_trigger(self, trigger: TransitionTrigger) -> (r: Self)
        ensures
            r.spec_fields() == (self.spec_fields().0, self.source, self.operation, self.target, trigger, self.guard, self.actions@, self.scorer, self.priority, self.declaration_order, self.mode, self.utility_policy, self.cooldown_micros, self.debounce_micros),
    {
        let mut s = self;
        s.trigger = trigger;
        s
    }

    pub fn with_signal(self, signal: SignalId) -> (r: Self)
        ensures
            r.spec_fields() == (self.id, self.source, self.operation, self.target, TransitionTrigger::Signal(signal), self.guard, self.actions@, self.scorer, self.priority, self.declaration_order, self.mode, self.utility_policy, self.cooldown_micros, self.debounce_micros),
    {
        let mut s = self;
        s.trigger = TransitionTrigger::Signal(signal);
        s
    }

    pub fn with_guard(self, guard: GuardId) -> (r: Self)
        ensures
            r.spec_fields() == (self.id, self.source, self.operation, self.target, self.trigger, Some(guard), self.actions@, self.scorer, self.priority, self.declaration_order, self.mode, self.utility_policy, self.cooldown_micros, self.debounce_micros),
    {
        let mut s = self;
        s.guard = Some(guard);
        s
    }

    /// Appends an action run when the transition fires.
    pub fn with_action(self, action: ActionId) -> (r: Self)
        ensures
            r.spec_fields() == (self.id, self.source, self.operation, self.target, self.trigger, self.guard, self.actions@.push(action), self.scorer, self.priority, self.declaration_order, self.mode, self.utility_policy, self.cooldown_micros, self.debounce_micros),
    {
        let mut s = self;
        s.actions.push(action);
        s
    }

    pub fn with_scorer(self, scorer: ScorerId, utility_policy: UtilityPolicy) -> (r: Self)
        ensures
            r.spec_fields() == (self.id, self.source, self.operation, self.target, self.trigger, self.guard, self.actions@, Some(scorer), self.priority, self.declaration_order, self.mode, utility_policy, self.cooldown_micros, self.debounce_micros),
    {
        let mut s = self;
        s.scorer = Some(scorer);
        s.utility_policy = utility_policy;
        s
    }

    pub fn with_priority(self, priority: i32) -> (r: Self)
        ensures
            r.spec_fields() == (self.id, self.source, self.operation, self.target, self.trigger, self.guard, self.actions@, self.scorer, priority, self.declaration_order, self.mode, self.utility_policy, self.cooldown_micros, self.debounce_micros),
    {
        let mut s = self;
        s.priority = priority;
        s
    }

    pub fn with_mode(self, mode: TransitionMode) -> (r: Self)
        ensures
            r.spec_fields() == (self.id, self.source, self.operation, self.target, self.trigger, self.guard, self.actions@, self.scorer, self.priority, self.declaration_order, mode, self.utility_policy, self.cooldown_micros, self.debounce_micros),
    {
        let mut s = self;
        s.mode = mode;
        s
    }

    /// Sets the refire cooldown in microseconds.
    pub fn with_cooldown_micros(self, micros: u64) -> (r: Self)
        ensures
            r.spec_fields() == (self.id, self.source, self.operation, self.target, self.trigger, self.guard, self.actions@, self.scorer, self.priority, self.declaration_order, self.mode, self.utility_policy, micros, self.debounce_micros),
    {
        let mut s = self;
        s.cooldown_micros = micros;
        s
    }

    /// Sets the debounce time in microseconds.
    pub fn with_debounce_micros(self, micros: u64) -> (r: Self)
        ensures
            r.spec_fields() == (self.id, self.source, self.operation, self.target, self.trigger, self.guard, self.actions@, self.scorer, self.priority, self.declaration_order, self.mode, self.utility_policy, self.cooldown_micros, micros),
    {
        let mut s = self;
        s.debounce_micros = micros;
        s
    }
}

/// A reusable machine definition. Ids are dense: the element at index `i` of
/// each list is addressed by id `i`.
#[derive(Debug)]
pub struct StateMachineDefinition {
    pub id: StateMachineDefinitionId,
    pub name: String,
    pub states: Vec<StateDefinition>,
    pub regions: Vec<RegionDefinition>,
    pub transitions: Vec<TransitionDefinition>,
    pub root_regions: Vec<RegionId>,
    pub blackboard_schema: Vec<BlackboardKeyDefinition>,
    pub debug_trace_config: DebugTraceConfig,
    pub supported_features: Vec<String>,
    pub deferred_features: Vec<String>,
}

impl StateMachineDefinition {
    /// Every field agrees, element by element.
    pub open spec fn same_as(self, other: StateMachineDefinition) -> bool {
        &&& self.id == other.id
        &&& self.name == other.name
        &&& self.states@.len() == other.states@.len()
        &&& forall|i: int| 0 <= i < self.states@.len() ==> (#[trigger] self.states@[i]).same_as(other.states@[i])
        &&& self.regions@.len() == other.regions@.len()
        &&& forall|i: int| 0 <= i < self.regions@.len() ==> (#[trigger] self.regions@[i]).same_as(other.regions@[i])
        &&& self.transitions@.len() == other.transitions@.len()
        &&& forall|i: int| 0 <= i < self.transitions@.len() ==> (#[trigger] self.transitions@[i]).spec_fields() == other.transitions@[i].spec_fields()
        &&& self.root_regions@ == other.root_regions@
        &&& self.blackboard_schema@ == other.blackboard_schema@
        &&& self.debug_trace_config == other.debug_trace_config
        &&& self.supported_features@ == other.supported_features@
        &&& self.deferred_features@ == other.deferred_features@
    }
}

impl Clone for StateMachineDefinition {
    fn clone(&self) -> (r: Self)
        ensures
            r.same_as(*self),
    {
        let mut states: Vec<StateDefinition> = Vec::new();
        let mut i: usize = 0;
        while i < self.states.len()
            invariant
                i <= self.states@.len(),
                states@.len() == i,
                forall|k: int| 0 <= k < i ==> (#[trigger] states@[k]).same_as(self.states@[k]),
            decreases self.states@.len() - i,
        {
            states.push(self.states[i].clone());
            i = i + 1;
        }
        let mut regions: Vec<RegionDefinition> = Vec::new();
        let mut i: usize = 0;
        while i < self.regions.len()
            invariant
                i <= self.regions@.len(),
                regions@.len() == i,
                forall|k: int| 0 <= k < i ==> (#[trigger] regions@[k]).same_as(self.regions@[k]),
            decreases self.regions@.len() - i,
        {
            regions.push(self.regions[i].clone());
            i = i + 1;
        }
        let mut transitions: Vec<TransitionDefinition> = Vec::new();
        let mut i: usize = 0;
        while i < self.transitions.len()
            invariant
                i <= self.transitions@.len(),
                transitions@.len() == i,
                forall|k: int| 0 <= k < i ==> (#[trigger] transitions@[k]).spec_fields() == self.transitions@[k].spec_fields(),
            decreases self.transitions@.len() - i,
        {
            transitions.push(self.transitions[i].clone());
            i = i + 1;
        }
        let mut schema: Vec<BlackboardKeyDefinition> = Vec::new();
        let mut i: usize = 0;
        while i < self.blackboard_schema.len()
            invariant
                i <= self.blackboard_schema@.len(),
                schema@ == self.blackboard_schema@.subrange(0, i as int),
            decreases self.blackboard_schema@.len() - i,
        {
            schema.push(self.blackboard_schema[i].clone());
            proof {
                assert(schema@ =~= self.blackboard_schema@.subrange(0, i + 1));
            }
            i = i + 1;
        }
        proof {
            assert(self.blackboard_schema@.subrange(0, self.blackboard_schema@.len() as int) =~= self.blackboard_schema@);
        }
        StateMachineDefinition {
            id: self.id,
            name: self.name.clone(),
            states,
            regions,
            transitions,
            root_regions: copy_items(&self.root_regions),
            blackboard_schema: schema,
            debug_trace_config: self.debug_trace_config,
            supported_features: copy_strings(&self.supported_features),
            deferred_features: copy_strings(&self.deferred_features),
        }
    }
}

impl StateMachineDefinition {
    /// The state addressed by an id.
    pub open spec fn spec_state(self, id: StateId) -> Option<StateDefinition> {
        if (id.0 as int) < self.states@.len() {
            Some(self.states@[id.0 as int])
        } else {
            None
        }
    }

    /// The region addressed by an id.
    pub open spec fn spec_region(self, id: RegionId) -> Option<RegionDefinition> {
        if (id.0 as int) < self.regions@.len() {
            Some(self.regions@[id.0 as int])
        } else {
            None
        }
    }

    /// The transition addressed by an id.
    pub open spec fn spec_transition(self, id: TransitionId) -> Option<TransitionDefinition> {
        if (id.0 as int) < self.transitions@.len() {
            Some(self.transitions@[id.0 as int])
        } else {
            None
        }
    }

    pub fn state(&self, id: StateId) -> (r: Option<&StateDefinition>)
        ensures
            match self.spec_state(id) {
                Some(s) => r matches Some(x) && *x == s,
                None => r is None,
            },
    {
        let index = id.0 as usize;
        if index < self.states.len() {
            Some(&self.states[index])
        } else {
            None
        }
    }

    pub fn region(&self, id: RegionId) -> (r: Option<&RegionDefinition>)
        ensures
            match self.spec_region(id) {
                Some(s) => r matches Some(x) && *x == s,
                None => r is None,
            },
    {
        let index = id.0 as usize;
        if index < self.regions.len() {
            Some(&self.regions[index])
        } else {
            None
        }
    }

    pub fn transition(&self, id: TransitionId) -> (r: Option<&TransitionDefinition>)
        ensures
            match self.spec_transition(id) {
                Some(s) => r matches Some(x) && *x == s,
                None => r is None,
            },
    {
        let index = id.0 as usize;
        if index < self.transitions.len() {
            Some(&self.transitions[index])
        } else {
            None
        }
    }

    pub fn blackboard_key(&self, id: BlackboardKeyId) -> (r: Option<&BlackboardKeyDefinition>)
        ensures
            (id.0 as int) < self.blackboard_schema@.len() ==> (r matches Some(x) && *x == self.blackboard_schema@[id.0 as int]),
            (id.0 as int) >= self.blackboard_schema@.len() ==> r is None,
    {
        let index = id.0 as usize;
        if index < self.blackboard_schema.len() {
            Some(&self.blackboard_schema[index])
        } else {
            None
        }
    }

    /// The id of the first state with the given name.
    pub fn find_state_id(&self, name: &str) -> (r: Option<StateId>)
        ensures
            match r {
                Some(id) => exists|i: int| 0 <= i < self.states@.len() && self.states@[i].name@ == name@
                    && id == self.states@[i].id
                    && forall|j: int| 0 <= j < i ==> self.states@[j].name@ != name@,
                None => forall|i: int| 0 <= i < self.states@.len() ==> self.states@[i].name@ != name@,
            },
    {
        let mut i: usize = 0;
        while i < self.states.len()
            invariant
                i <= self.states@.len(),
                forall|j: int| 0 <= j < i ==> self.states@[j].name@ != name@,
            decreases self.states@.len() - i,
        {
            if str_eq(self.states[i].name.as_str(), name) {
                return Some(self.states[i].id);
            }
            i = i + 1;
        }
        None
    }

    /// The id of the first blackboard key with the given name.
    pub fn find_blackboard_key(&self, name: &str) -> (r: Option<BlackboardKeyId>)
        ensures
            match r {
                Some(id) => exists|i: int| 0 <= i < self.blackboard_schema@.len() && self.blackboard_schema@[i].name@ == name@
                    && id == self.blackboard_schema@[i].id
                    && forall|j: int| 0 <= j < i ==> self.blackboard_schema@[j].name@ != name@,
                None => forall|i: int| 0 <= i < self.blackboard_schema@.len() ==> self.blackboard_schema@[i].name@ != name@,
            },
    {
        let mut i: usize = 0;
        while i < self.blackboard_schema.len()
            invariant
                i <= self.blackboard_schema@.len(),
                forall|j: int| 0 <= j < i ==> self.blackboard_schema@[j].name@ != name@,
            decreases self.blackboard_schema@.len() - i,
        {
            if str_eq(self.blackboard_schema[i].name.as_str(), name) {
                return Some(self.blackboard_schema[i].id);
            }
            i = i + 1;
        }
        None
    }
}

/// Compares two strings character by character.
pub fn str_eq(a: &str, b: &str) -> (r: bool)
    ensures
        r == (a@ == b@),
{
    let sa = String::from_str(a);
    let sb = String::from_str(b);
    sa.eq(&sb)
}

/// The registry of definitions, in registration order.
#[derive(Clone, Debug, Default)]
pub struct StateMachineLibrary {
    pub definitions: Vec<StateMachineDefinition>,
}

/// The message of a rejected duplicate registration.
pub open spec fn duplicate_definition_message(id: u64) -> Seq<char> {
    "state machine definition id "@ + debug_newtype("StateMachineDefinitionId"@, id as nat)
        + " already registered"@
}

impl StateMachineLibrary {
    /// Whether some registered definition carries the id.
    pub open spec fn spec_contains(self, id: StateMachineDefinitionId) -> bool {
        exists|i: int| 0 <= i < self.definitions@.len() && self.definitions@[i].id == id
    }

    /// Adds a definition unless one with the same id is registered.
    pub fn register(&mut self, definition: StateMachineDefinition) -> (r: Result<StateMachineDefinitionId, String>)
        ensures
            old(self).spec_contains(definition.id) ==> {
                &&& (r matches Err(m) && m@ == duplicate_definition_message(definition.id.0))
                &&& final(self).definitions@ == old(self).definitions@
            },
            !old(self).spec_contains(definition.id) ==> {
                &&& r == Ok::<StateMachineDefinitionId, String>(definition.id)
                &&& final(self).definitions@ == old(self).definitions@.push(definition)
            },
    {
        let mut i: usize = 0;
        while i < self.definitions.len()
            invariant
                i <= self.definitions@.len(),
                forall|j: int| 0 <= j < i ==> self.definitions@[j].id != definition.id,
            decreases self.definitions@.len() - i,
        {
            if self.definitions[i].id == definition.id {
                let mut message = String::from_str("state machine definition id ");
                push_debug_newtype(&mut message, "StateMachineDefinitionId", definition.id.0);
                message.append(" already registered");
                return Err(message);
            }
            i = i + 1;
        }
        let id = definition.id;
        self.definitions.push(definition);
        Ok(id)
    }

    /// The first definition with the given id.
    pub fn definition(&self, id: StateMachineDefinitionId) -> (r: Option<&StateMachineDefinition>)
        ensures
            match r {
                Some(d) => exists|i: int| 0 <= i < self.definitions@.len() && *d == self.definitions@[i]
                    && d.id == id && forall|j: int| 0 <= j < i ==> self.definitions@[j].id != id,
                None => !self.spec_contains(id),
            },
    {
        let mut i: usize = 0;
        while i < self.definitions.len()
            invariant
                i <= self.definitions@.len(),
                forall|j: int| 0 <= j < i ==> self.definitions@[j].id != id,
            decreases self.definitions@.len() - i,
        {
            if self.definitions[i].id == id {
                return Some(&self.definitions[i]);
            }
            i = i + 1;
        }
        None
    }
}

} // verus!
