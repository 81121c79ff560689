use vstd::prelude::*;
use vstd::string::*;

use crate::blackboard::{BlackboardKeyDefinition, BlackboardValueType};
use crate::definition::{
    HistoryMode, RegionDefinition, RegionId, StateDefinition, StateId, StateKind, StateMachineDefinition,
    TransitionId, TransitionOperation, TransitionSource, TransitionTrigger,
};
use crate::text::{debug_newtype, push_debug_newtype};

verus! {

/// How serious a validation issue is.
#[derive(Clone, Copy, Debug, PartialEq, Eq, Structural)]
pub enum ValidationSeverity {
    Error,
    Warning,
}

/// The kind of a validation issue.
#[derive(Clone, Copy, Debug, PartialEq, Eq, Structural)]
pub enum ValidationCode {
    MissingRootRegion,
    DuplicateBlackboardKeyName,
    BlackboardDefaultTypeMismatch,
    InvalidStateId,
    DuplicateStateName,
    InvalidParentRegion,
    InvalidParentState,
    MissingChildRegion,
    UnexpectedChildRegion,
    InvalidRegionId,
    DuplicateRegionName,
    InvalidRegionParent,
    EmptyRegion,
    MissingInitialState,
    InvalidInitialState,
    InvalidRegionChild,
    InconsistentParentRegion,
    InvalidRootRegion,
    DuplicateRootRegion,
    NonRootRegionInRootList,
    UnreachableState,
    InvalidTransitionSource,
    InvalidTransitionTarget,
    PopHasTarget,
    MissingTarget,
    AfterOnAnyState,
    DoneRequiresCompoundOrParallelSource,
    UnsupportedCrossRegionTransition,
    TransientCycle,
    InvalidHistoryMode,
}

impl ValidationCode {
    /// The stable snake-case name of the code.
    pub open spec fn spec_as_str(self) -> Seq<char> {
        match self {
            ValidationCode::MissingRootRegion => "missing_root_region"@,
            ValidationCode::DuplicateBlackboardKeyName => "duplicate_blackboard_key_name"@,
            ValidationCode::BlackboardDefaultTypeMismatch => "blackboard_default_type_mismatch"@,
            ValidationCode::InvalidStateId => "invalid_state_id"@,
            ValidationCode::DuplicateStateName => "duplicate_state_name"@,
            ValidationCode::InvalidParentRegion => "invalid_parent_region"@,
            ValidationCode::InvalidParentState => "invalid_parent_state"@,
            ValidationCode::MissingChildRegion => "missing_child_region"@,
            ValidationCode::UnexpectedChildRegion => "unexpected_child_region"@,
            ValidationCode::InvalidRegionId => "invalid_region_id"@,
            ValidationCode::DuplicateRegionName => "duplicate_region_name"@,
            ValidationCode::InvalidRegionParent => "invalid_region_parent"@,
            ValidationCode::EmptyRegion => "empty_region"@,
            ValidationCode::MissingInitialState => "missing_initial_state"@,
            ValidationCode::InvalidInitialState => "invalid_initial_state"@,
            ValidationCode::InvalidRegionChild => "invalid_region_child"@,
            ValidationCode::InconsistentParentRegion => "inconsistent_parent_region"@,
            ValidationCode::InvalidRootRegion => "invalid_root_region"@,
            ValidationCode::DuplicateRootRegion => "duplicate_root_region"@,
            ValidationCode::NonRootRegionInRootList => "non_root_region_in_root_list"@,
            ValidationCode::UnreachableState => "unreachable_state"@,
            ValidationCode::InvalidTransitionSource => "invalid_transition_source"@,
            ValidationCode::InvalidTransitionTarget => "invalid_transition_target"@,
            ValidationCode::PopHasTarget => "pop_has_target"@,
            ValidationCode::MissingTarget => "missing_target"@,
            ValidationCode::AfterOnAnyState => "after_on_any_state"@,
            ValidationCode::DoneRequiresCompoundOrParallelSource => "done_requires_compound_or_parallel_source"@,
            ValidationCode::UnsupportedCrossRegionTransition => "unsupported_cross_region_transition"@,
            ValidationCode::TransientCycle => "transient_cycle"@,
            ValidationCode::InvalidHistoryMode => "invalid_history_mode"@,
        }
    }

    pub fn as_str(&self) -> (r: &'static str)
        ensures
            r@ == self.spec_as_str(),
    {
        match self {
            ValidationCode::MissingRootRegion => "missing_root_region",
            ValidationCode::DuplicateBlackboardKeyName => "duplicate_blackboard_key_name",
            ValidationCode::BlackboardDefaultTypeMismatch => "blackboard_default_type_mismatch",
            ValidationCode::InvalidStateId => "invalid_state_id",
            ValidationCode::DuplicateStateName => "duplicate_state_name",
            ValidationCode::InvalidParentRegion => "invalid_parent_region",
            ValidationCode::InvalidParentState => "invalid_parent_state",
            ValidationCode::MissingChildRegion => "missing_child_region",
            ValidationCode::UnexpectedChildRegion => "unexpected_child_region",
            ValidationCode::InvalidRegionId => "invalid_region_id",
            ValidationCode::DuplicateRegionName => "duplicate_region_name",
            ValidationCode::InvalidRegionParent => "invalid_region_parent",
            ValidationCode::EmptyRegion => "empty_region",
            ValidationCode::MissingInitialState => "missing_initial_state",
            ValidationCode::InvalidInitialState => "invalid_initial_state",
            ValidationCode::InvalidRegionChild => "invalid_region_child",
            ValidationCode::InconsistentParentRegion => "inconsistent_parent_region",
            ValidationCode::InvalidRootRegion => "invalid_root_region",
            ValidationCode::DuplicateRootRegion => "duplicate_root_region",
            ValidationCode::NonRootRegionInRootList => "non_root_region_in_root_list",
            ValidationCode::UnreachableState => "unreachable_state",
            ValidationCode::InvalidTransitionSource => "invalid_transition_source",
            ValidationCode::InvalidTransitionTarget => "invalid_transition_target",
            ValidationCode::PopHasTarget => "pop_has_target",
            ValidationCode::MissingTarget => "missing_target",
            ValidationCode::AfterOnAnyState => "after_on_any_state",
            ValidationCode::DoneRequiresCompoundOrParallelSource => "done_requires_compound_or_parallel_source",
            ValidationCode::UnsupportedCrossRegionTransition => "unsupported_cross_region_transition",
            ValidationCode::TransientCycle => "transient_cycle",
            ValidationCode::InvalidHistoryMode => "invalid_history_mode",
        }
    }
}

/// One problem found in a definition.
#[derive(Clone, Debug)]
pub struct ValidationIssue {
    pub severity: ValidationSeverity,
    pub code: ValidationCode,
    pub message: String,
}

/// The value of an issue.
pub struct IssueView {
    pub severity: ValidationSeverity,
    pub code: ValidationCode,
    pub message: Seq<char>,
}

impl View for ValidationIssue {
    type V = IssueView;

    open spec fn view(&self) -> IssueView {
        IssueView { severity: self.severity, code: self.code, message: self.message@ }
    }
}

/// The values of a sequence of issues.
pub open spec fn issues_view(s: Seq<ValidationIssue>) -> Seq<IssueView> {
    s.map_values(|i: ValidationIssue| i@)
}

/// An error issue.
pub open spec fn error(code: ValidationCode, message: Seq<char>) -> IssueView {
    IssueView { severity: ValidationSeverity::Error, code, message }
}

/// One issue when `cond` holds, none otherwise.
pub open spec fn issue_if(cond: bool, issue: IssueView) -> Seq<IssueView> {
    if cond { seq![issue] } else { Seq::empty() }
}

/// All issues found, in the order they were found.
#[derive(Clone, Debug, Default)]
pub struct ValidationReport {
    pub issues: Vec<ValidationIssue>,
}

/// Whether some issue is an error.
pub open spec fn has_error(issues: Seq<IssueView>) -> bool {
    exists|i: int| 0 <= i < issues.len() && issues[i].severity == ValidationSeverity::Error
}

impl ValidationReport {
    /// Appends an issue.
    pub fn push(&mut self, severity: ValidationSeverity, code: ValidationCode, message: String)
        ensures
            issues_view(final(self).issues@) == issues_view(old(self).issues@).push(
                IssueView { severity, code, message: message@ },
            ),
    {
        self.issues.push(ValidationIssue { severity, code, message });
        proof {
            assert(issues_view(self.issues@) =~= issues_view(old(self).issues@).push(
                IssueView { severity, code, message: message@ },
            ));
        }
    }

    /// Whether any issue is an error.
    pub fn has_errors(&self) -> (r: bool)
        ensures
            r == has_error(issues_view(self.issues@)),
    {
        let mut i: usize = 0;
        while i < self.issues.len()
            invariant
                i <= self.issues@.len(),
                forall|j: int| 0 <= j < i ==> self.issues@[j].severity != ValidationSeverity::Error,
            decreases self.issues@.len() - i,
        {
            if self.issues[i].severity == ValidationSeverity::Error {
                proof {
                    assert(issues_view(self.issues@)[i as int].severity == ValidationSeverity::Error);
                }
                return true;
            }
            i = i + 1;
        }
        false
    }
}

/// A message made of a prefix, a name and a suffix.
pub open spec fn name_msg(prefix: Seq<char>, name: Seq<char>, suffix: Seq<char>) -> Seq<char> {
    prefix + name + suffix
}

/// A message made of a prefix, a name, a middle part, the `Debug` form of an
/// id and a suffix.
pub open spec fn name_id_msg(prefix: Seq<char>, name: Seq<char>, mid: Seq<char>, kind: Seq<char>, n: nat, suffix: Seq<char>) -> Seq<char> {
    prefix + name + mid + debug_newtype(kind, n) + suffix
}

/// A message made of a prefix, the `Debug` form of an id and a suffix.
pub open spec fn id_msg(prefix: Seq<char>, kind: Seq<char>, n: nat, suffix: Seq<char>) -> Seq<char> {
    prefix + debug_newtype(kind, n) + suffix
}

/// A message naming a transition and a state by their `Debug` forms.
pub open spec fn id_id_msg(prefix: Seq<char>, n: nat, mid: Seq<char>, m: nat) -> Seq<char> {
    prefix + debug_newtype("TransitionId"@, n) + mid + debug_newtype("StateId"@, m)
}

fn make_name_msg(prefix: &str, name: &String, suffix: &str) -> (r: String)
    ensures
        r@ == name_msg(prefix@, name@, suffix@),
{
    let mut m = String::from_str(prefix);
    m.append(name.as_str());
    m.append(suffix);
    m
}

fn make_name_id_msg(prefix: &str, name: &String, mid: &str, kind: &str, n: u64, suffix: &str) -> (r: String)
    ensures
        r@ == name_id_msg(prefix@, name@, mid@, kind@, n as nat, suffix@),
{
    let mut m = String::from_str(prefix);
    m.append(name.as_str());
    m.append(mid);
    push_debug_newtype(&mut m, kind, n);
    m.append(suffix);
    m
}

fn make_id_msg(prefix: &str, kind: &str, n: u64, suffix: &str) -> (r: String)
    ensures
        r@ == id_msg(prefix@, kind@, n as nat, suffix@),
{
    let mut m = String::from_str(prefix);
    push_debug_newtype(&mut m, kind, n);
    m.append(suffix);
    m
}

fn make_id_id_msg(prefix: &str, n: u64, mid: &str, m: u64) -> (r: String)
    ensures
        r@ == id_id_msg(prefix@, n as nat, mid@, m as nat),
{
    let mut s = String::from_str(prefix);
    push_debug_newtype(&mut s, "TransitionId", n);
    s.append(mid);
    push_debug_newtype(&mut s, "StateId", m);
    s
}

/// The `Debug` name of a value type.
pub open spec fn value_type_name(t: BlackboardValueType) -> Seq<char> {
    match t {
        BlackboardValueType::F32 => "F32"@,
        BlackboardValueType::I32 => "I32"@,
        BlackboardValueType::Bool => "Bool"@,
        BlackboardValueType::Entity => "Entity"@,
        BlackboardValueType::Vec2 => "Vec2"@,
        BlackboardValueType::Vec3 => "Vec3"@,
        BlackboardValueType::String => "String"@,
    }
}

fn value_type_str(t: BlackboardValueType) -> (r: &'static str)
    ensures
        r@ == value_type_name(t),
{
    match t {
        BlackboardValueType::F32 => "F32",
        BlackboardValueType::I32 => "I32",
        BlackboardValueType::Bool => "Bool",
        BlackboardValueType::Entity => "Entity",
        BlackboardValueType::Vec2 => "Vec2",
        BlackboardValueType::Vec3 => "Vec3",
        BlackboardValueType::String => "String",
    }
}

/// The message of a default value whose type differs from its key's type.
pub open spec fn type_mismatch_msg(name: Seq<char>, declared: BlackboardValueType, actual: BlackboardValueType) -> Seq<char> {
    "blackboard key '"@ + name + "' declares "@ + value_type_name(declared) + " but default value is "@
        + value_type_name(actual)
}

/// A root region list with no entries.
pub open spec fn root_section(def: StateMachineDefinition) -> Seq<IssueView> {
    issue_if(
        def.root_regions@.len() == 0,
        error(ValidationCode::MissingRootRegion, "state machine must declare at least one root region"@),
    )
}

/// Issues of blackboard key `i`: a name used by an earlier key, and a default
/// value of another type than the declared one.
pub open spec fn key_issues(schema: Seq<BlackboardKeyDefinition>, i: int) -> Seq<IssueView> {
    let key = schema[i];
    issue_if(
        exists|j: int| 0 <= j < i && schema[j].name@ == key.name@,
        error(ValidationCode::DuplicateBlackboardKeyName, name_msg("duplicate blackboard key name '"@, key.name@, "'"@)),
    ) + match key.default_value {
        Some(v) => issue_if(
            v.spec_value_type() != key.value_type,
            error(ValidationCode::BlackboardDefaultTypeMismatch, type_mismatch_msg(key.name@, key.value_type, v.spec_value_type())),
        ),
        None => Seq::empty(),
    }
}

/// Issues of the first `n` blackboard keys, key by key.
pub open spec fn blackboard_section(schema: Seq<BlackboardKeyDefinition>, n: nat) -> Seq<IssueView>
    decreases n,
{
    if n == 0 {
        Seq::empty()
    } else {
        blackboard_section(schema, (n - 1) as nat) + key_issues(schema, n - 1)
    }
}

/// Issues of state `i`: an id that is not its position, a name used by an
/// earlier state, missing parent region or parent state, a compound or
/// parallel state without child regions, another state with child regions.
pub open spec fn state_issues(def: StateMachineDefinition, i: int) -> Seq<IssueView> {
    state_id_issue(def, i) + state_name_issue(def, i) + state_parent_region_issue(def, i)
        + state_parent_state_issue(def, i) + state_children_issue(def, i)
}

/// A state whose id is not its position.
pub open spec fn state_id_issue(def: StateMachineDefinition, i: int) -> Seq<IssueView> {
    let s = def.states@[i];
    issue_if(
        s.id.0 as int != i,
        error(ValidationCode::InvalidStateId, name_id_msg("state '"@, s.name@, "' uses non-dense or out-of-order id "@, "StateId"@, s.id.0 as nat, ""@)),
    )
}

/// A state named like an earlier one.
pub open spec fn state_name_issue(def: StateMachineDefinition, i: int) -> Seq<IssueView> {
    let s = def.states@[i];
    issue_if(
        exists|j: int| 0 <= j < i && def.states@[j].name@ == s.name@,
        error(ValidationCode::DuplicateStateName, name_msg("duplicate state name '"@, s.name@, "'"@)),
    )
}

/// A state whose parent region does not exist.
pub open spec fn state_parent_region_issue(def: StateMachineDefinition, i: int) -> Seq<IssueView> {
    let s = def.states@[i];
    match s.parent_region {
        Some(r) => issue_if(
            def.spec_region(r) is None,
            error(ValidationCode::InvalidParentRegion, name_id_msg("state '"@, s.name@, "' references missing parent region "@, "RegionId"@, r.0 as nat, ""@)),
        ),
        None => Seq::empty(),
    }
}

/// A state whose parent state does not exist.
pub open spec fn state_parent_state_issue(def: StateMachineDefinition, i: int) -> Seq<IssueView> {
    let s = def.states@[i];
    match s.parent_state {
        Some(p) => issue_if(
            def.spec_state(p) is None,
            error(ValidationCode::InvalidParentState, name_id_msg("state '"@, s.name@, "' references missing parent state "@, "StateId"@, p.0 as nat, ""@)),
        ),
        None => Seq::empty(),
    }
}

/// A compound or parallel state without child regions, or another state with some.
pub open spec fn state_children_issue(def: StateMachineDefinition, i: int) -> Seq<IssueView> {
    let s = def.states@[i];
    issue_if(
        s.kind.spec_has_children() && s.child_regions@.len() == 0,
        error(ValidationCode::MissingChildRegion, name_msg("state '"@, s.name@, "' requires at least one child region"@)),
    ) + issue_if(
        !s.kind.spec_has_children() && s.child_regions@.len() != 0,
        error(ValidationCode::UnexpectedChildRegion, name_msg("state '"@, s.name@, "' cannot own child regions"@)),
    )
}

/// Issues of the first `n` states, state by state.
pub open spec fn states_section(def: StateMachineDefinition, n: nat) -> Seq<IssueView>
    decreases n,
{
    if n == 0 {
        Seq::empty()
    } else {
        states_section(def, (n - 1) as nat) + state_issues(def, n - 1)
    }
}

fn check_root(def: &StateMachineDefinition, report: &mut ValidationReport)
    ensures
        issues_view(final(report).issues@) == issues_view(old(report).issues@) + root_section(*def),
{
    if def.root_regions.len() == 0 {
        report.push(
            ValidationSeverity::Error,
            ValidationCode::MissingRootRegion,
            String::from_str("state machine must declare at least one root region"),
        );
    } else {
        proof {
            assert(issues_view(report.issues@) =~= issues_view(old(report).issues@) + root_section(*def));
        }
    }
}

fn key_name_seen(schema: &Vec<BlackboardKeyDefinition>, i: usize) -> (r: bool)
    requires
        i < schema@.len(),
    ensures
        r == exists|j: int| 0 <= j < i && schema@[j].name@ == schema@[i as int].name@,
{
    let mut j: usize = 0;
    while j < i
        invariant
            j <= i,
            i < schema@.len(),
            forall|k: int| 0 <= k < j ==> schema@[k].name@ != schema@[i as int].name@,
        decreases i - j,
    {
        if schema[j].name.eq(&schema[i].name) {
            return true;
        }
        j = j + 1;
    }
    false
}

fn check_blackboard(def: &StateMachineDefinition, report: &mut ValidationReport)
    ensures
        issues_view(final(report).issues@) == issues_view(old(report).issues@)
            + blackboard_section(def.blackboard_schema@, def.blackboard_schema@.len()),
{
    let schema = &def.blackboard_schema;
    let mut i: usize = 0;
    while i < schema.len()
        invariant
            i <= schema@.len(),
            schema == &def.blackboard_schema,
            issues_view(report.issues@) == issues_view(old(report).issues@) + blackboard_section(schema@, i as nat),
        decreases schema@.len() - i,
    {
        let ghost before = issues_view(report.issues@);
        let key = &schema[i];
        if key_name_seen(schema, i) {
            report.push(
                ValidationSeverity::Error,
                ValidationCode::DuplicateBlackboardKeyName,
                make_name_msg("duplicate blackboard key name '", &key.name, "'"),
            );
        }
        match &key.default_value {
            Some(v) => {
                let actual = v.value_type();
                if actual != key.value_type {
                    let mut m = String::from_str("blackboard key '");
                    m.append(key.name.as_str());
                    m.append("' declares ");
                    m.append(value_type_str(key.value_type));
                    m.append(" but default value is ");
                    m.append(value_type_str(actual));
                    report.push(ValidationSeverity::Error, ValidationCode::BlackboardDefaultTypeMismatch, m);
                }
            },
            None => {},
        }
        proof {
            assert(blackboard_section(schema@, (i + 1) as nat) == blackboard_section(schema@, i as nat) + key_issues(schema@, i as int));
            assert(issues_view(report.issues@) =~= before + key_issues(schema@, i as int));
        }
        i = i + 1;
    }
}

fn state_name_seen(states: &Vec<StateDefinition>, i: usize) -> (r: bool)
    requires
        i < states@.len(),
    ensures
        r == exists|j: int| 0 <= j < i && states@[j].name@ == states@[i as int].name@,
{
    let mut j: usize = 0;
    while j < i
        invariant
            j <= i,
            i < states@.len(),
            forall|k: int| 0 <= k < j ==> states@[k].name@ != states@[i as int].name@,
        decreases i - j,
    {
        if states[j].name.eq(&states[i].name) {
            return true;
        }
        j = j + 1;
    }
    false
}

fn check_state_id(def: &StateMachineDefinition, i: usize, report: &mut ValidationReport)
    requires
        i < def.states@.len(),
    ensures
        issues_view(final(report).issues@) == issues_view(old(report).issues@) + state_id_issue(*def, i as int),
{
    let state = &def.states[i];
    proof {
        reveal_strlit("");
    }
    if state.id.0 as usize != i {
        report.push(
            ValidationSeverity::Error,
            ValidationCode::InvalidStateId,
            make_name_id_msg("state '", &state.name, "' uses non-dense or out-of-order id ", "StateId", state.id.0 as u64, ""),
        );
    } else {
        proof {
            assert(issues_view(report.issues@) =~= issues_view(old(report).issues@) + state_id_issue(*def, i as int));
        }
    }
}

fn check_state_name(def: &StateMachineDefinition, i: usize, report: &mut ValidationReport)
    requires
        i < def.states@.len(),
    ensures
        issues_view(final(report).issues@) == issues_view(old(report).issues@) + state_name_issue(*def, i as int),
{
    let state = &def.states[i];
    if state_name_seen(&def.states, i) {
        report.push(
            ValidationSeverity::Error,
            ValidationCode::DuplicateStateName,
            make_name_msg("duplicate state name '", &state.name, "'"),
        );
    } else {
        proof {
            assert(issues_view(report.issues@) =~= issues_view(old(report).issues@) + state_name_issue(*def, i as int));
        }
    }
}

fn check_state_parents(def: &StateMachineDefinition, i: usize, report: &mut ValidationReport)
    requires
        i < def.states@.len(),
    ensures
        issues_view(final(report).issues@) == issues_view(old(report).issues@)
            + state_parent_region_issue(*def, i as int) + state_parent_state_issue(*def, i as int),
{
    let state = &def.states[i];
    proof {
        reveal_strlit("");
    }
    let ghost before = issues_view(report.issues@);
    let mut region_missing = false;
    if let Some(parent_region) = state.parent_region {
        if def.region(parent_region).is_none() {
            region_missing = true;
            report.push(
                ValidationSeverity::Error,
                ValidationCode::InvalidParentRegion,
                make_name_id_msg("state '", &state.name, "' references missing parent region ", "RegionId", parent_region.0 as u64, ""),
            );
        }
    }
    let ghost mid = issues_view(report.issues@);
    proof {
        assert(mid =~= before + state_parent_region_issue(*def, i as int));
    }
    if let Some(parent_state) = state.parent_state {
        if def.state(parent_state).is_none() {
            report.push(
                ValidationSeverity::Error,
                ValidationCode::InvalidParentState,
                make_name_id_msg("state '", &state.name, "' references missing parent state ", "StateId", parent_state.0 as u64, ""),
            );
        }
    }
    proof {
        assert(issues_view(report.issues@) =~= mid + state_parent_state_issue(*def, i as int));
    }
}

fn check_state_children(def: &StateMachineDefinition, i: usize, report: &mut ValidationReport)
    requires
        i < def.states@.len(),
    ensures
        issues_view(final(report).issues@) == issues_view(old(report).issues@) + state_children_issue(*def, i as int),
{
    let state = &def.states[i];
    let ghost before = issues_view(report.issues@);
    let has_children = state.kind.has_children();
    if has_children && state.child_regions.len() == 0 {
        report.push(
            ValidationSeverity::Error,
            ValidationCode::MissingChildRegion,
            make_name_msg("state '", &state.name, "' requires at least one child region"),
        );
    }
    if !has_children && state.child_regions.len() != 0 {
        report.push(
            ValidationSeverity::Error,
            ValidationCode::UnexpectedChildRegion,
            make_name_msg("state '", &state.name, "' cannot own child regions"),
        );
    }
    proof {
        assert(issues_view(report.issues@) =~= before + state_children_issue(*def, i as int));
    }
}

fn check_states(def: &StateMachineDefinition, report: &mut ValidationReport)
    ensures
        issues_view(final(report).issues@) == issues_view(old(report).issues@)
            + states_section(*def, def.states@.len()),
{
    let mut i: usize = 0;
    while i < def.states.len()
        invariant
            i <= def.states@.len(),
            issues_view(report.issues@) == issues_view(old(report).issues@) + states_section(*def, i as nat),
        decreases def.states@.len() - i,
    {
        let ghost before = issues_view(report.issues@);
        check_state_id(def, i, report);
        check_state_name(def, i, report);
        check_state_parents(def, i, report);
        check_state_children(def, i, report);
        proof {
            assert(states_section(*def, (i + 1) as nat) == states_section(*def, i as nat) + state_issues(*def, i as int));
            assert(issues_view(report.issues@) =~= before + state_issues(*def, i as int));
        }
        i = i + 1;
    }
}

/// Issues of child `k` of region `i`: a missing state, or a state whose parent
/// region is another one.
pub open spec fn region_child_issues(def: StateMachineDefinition, i: int, k: int) -> Seq<IssueView> {
    let region = def.regions@[i];
    let child = region.child_states@[k];
    match def.spec_state(child) {
        None => seq![error(ValidationCode::InvalidRegionChild, name_id_msg("region '"@, region.name@, "' references missing child state "@, "StateId"@, child.0 as nat, ""@))],
        Some(s) => issue_if(
            s.parent_region != Some(region.id),
            error(ValidationCode::InconsistentParentRegion, inconsistent_parent_msg(s.name@, region.name@, s.parent_region)),
        ),
    }
}

/// The message of a state listed in a region other than its parent region.
pub open spec fn inconsistent_parent_msg(state_name: Seq<char>, region_name: Seq<char>, parent: Option<RegionId>) -> Seq<char> {
    "state '"@ + state_name + "' is listed in region '"@ + region_name + "' but points to "@
        + option_region_debug(parent) + " as parent region"@
}

fn make_inconsistent_parent_msg(state_name: &String, region_name: &String, parent: Option<RegionId>) -> (r: String)
    ensures
        r@ == inconsistent_parent_msg(state_name@, region_name@, parent),
{
    let mut m = String::from_str("state '");
    m.append(state_name.as_str());
    m.append("' is listed in region '");
    m.append(region_name.as_str());
    m.append("' but points to ");
    match parent {
        Some(pr) => {
            m.append("Some(");
            push_debug_newtype(&mut m, "RegionId", pr.0 as u64);
            m.append(")");
        },
        None => {
            m.append("None");
        },
    }
    m.append(" as parent region");
    proof {
        assert(m@ =~= inconsistent_parent_msg(state_name@, region_name@, parent));
    }
    m
}

/// The `Debug` form of an optional region id.
pub open spec fn option_region_debug(r: Option<RegionId>) -> Seq<char> {
    match r {
        Some(id) => "Some("@ + debug_newtype("RegionId"@, id.0 as nat) + ")"@,
        None => "None"@,
    }
}

/// Issues of the first `n` children of region `i`.
pub open spec fn region_children_section(def: StateMachineDefinition, i: int, n: nat) -> Seq<IssueView>
    decreases n,
{
    if n == 0 {
        Seq::empty()
    } else {
        region_children_section(def, i, (n - 1) as nat) + region_child_issues(def, i, n - 1)
    }
}

/// Issues of region `i`: an id that is not its position, a name used by an
/// earlier region, a missing parent state, no children (a warning), no initial
/// state, an initial state that is not a child, then its children's issues.
pub open spec fn region_issues(def: StateMachineDefinition, i: int) -> Seq<IssueView> {
    region_header_issues(def, i) + region_content_issues(def, i)
        + region_children_section(def, i, def.regions@[i].child_states@.len())
}

/// A region whose id is not its position, one named like an earlier region,
/// one whose parent state does not exist.
pub open spec fn region_header_issues(def: StateMachineDefinition, i: int) -> Seq<IssueView> {
    let r = def.regions@[i];
    issue_if(
        r.id.0 as int != i,
        error(ValidationCode::InvalidRegionId, name_id_msg("region '"@, r.name@, "' uses non-dense or out-of-order id "@, "RegionId"@, r.id.0 as nat, ""@)),
    ) + issue_if(
        exists|j: int| 0 <= j < i && def.regions@[j].name@ == r.name@,
        error(ValidationCode::DuplicateRegionName, name_msg("duplicate region name '"@, r.name@, "'"@)),
    ) + match r.parent_state {
        Some(p) => issue_if(
            def.spec_state(p) is None,
            error(ValidationCode::InvalidRegionParent, name_id_msg("region '"@, r.name@, "' references missing parent state "@, "StateId"@, p.0 as nat, ""@)),
        ),
        None => Seq::empty(),
    }
}

/// A region without children (a warning), without an initial state, or with
/// an initial state that is not one of its children.
pub open spec fn region_content_issues(def: StateMachineDefinition, i: int) -> Seq<IssueView> {
    let r = def.regions@[i];
    issue_if(
        r.child_states@.len() == 0,
        IssueView { severity: ValidationSeverity::Warning, code: ValidationCode::EmptyRegion, message: name_msg("region '"@, r.name@, "' has no child states"@) },
    ) + issue_if(
        r.child_states@.len() != 0 && r.initial_state is None,
        error(ValidationCode::MissingInitialState, name_msg("region '"@, r.name@, "' is missing an initial state"@)),
    ) + match r.initial_state {
        Some(s) => issue_if(
            !r.child_states@.contains(s),
            error(ValidationCode::InvalidInitialState, name_id_msg("region '"@, r.name@, "' uses initial state "@, "StateId"@, s.0 as nat, " that is not one of its children"@)),
        ),
        None => Seq::empty(),
    }
}

/// Issues of the first `n` regions, region by region.
pub open spec fn regions_section(def: StateMachineDefinition, n: nat) -> Seq<IssueView>
    decreases n,
{
    if n == 0 {
        Seq::empty()
    } else {
        regions_section(def, (n - 1) as nat) + region_issues(def, n - 1)
    }
}

fn region_name_seen(regions: &Vec<RegionDefinition>, i: usize) -> (r: bool)
    requires
        i < regions@.len(),
    ensures
        r == exists|j: int| 0 <= j < i && regions@[j].name@ == regions@[i as int].name@,
{
    let mut j: usize = 0;
    while j < i
        invariant
            j <= i,
            i < regions@.len(),
            forall|k: int| 0 <= k < j ==> regions@[k].name@ != regions@[i as int].name@,
        decreases i - j,
    {
        if regions[j].name.eq(&regions[i].name) {
            return true;
        }
        j = j + 1;
    }
    false
}

fn check_region_children(def: &StateMachineDefinition, i: usize, report: &mut ValidationReport)
    requires
        i < def.regions@.len(),
    ensures
        issues_view(final(report).issues@) == issues_view(old(report).issues@)
            + region_children_section(*def, i as int, def.regions@[i as int].child_states@.len()),
{
    let region = &def.regions[i];
    let mut k: usize = 0;
    while k < region.child_states.len()
        invariant
            i < def.regions@.len(),
            *region == def.regions@[i as int],
            k <= region.child_states@.len(),
            issues_view(report.issues@) == issues_view(old(report).issues@) + region_children_section(*def, i as int, k as nat),
        decreases region.child_states@.len() - k,
    {
        let ghost before = issues_view(report.issues@);
        let child = region.child_states[k];
        proof {
            reveal_strlit("");
        }
        match def.state(child) {
            None => {
                report.push(
                    ValidationSeverity::Error,
                    ValidationCode::InvalidRegionChild,
                    make_name_id_msg("region '", &region.name, "' references missing child state ", "StateId", child.0 as u64, ""),
                );
            },
            Some(state) => {
                if state.parent_region != Some(region.id) {
                    let m = make_inconsistent_parent_msg(&state.name, &region.name, state.parent_region);
                    report.push(ValidationSeverity::Error, ValidationCode::InconsistentParentRegion, m);
                }
            },
        }
        proof {
            assert(region_children_section(*def, i as int, (k + 1) as nat) == region_children_section(*def, i as int, k as nat) + region_child_issues(*def, i as int, k as int));
            assert(issues_view(report.issues@) =~= before + region_child_issues(*def, i as int, k as int));
        }
        k = k + 1;
    }
}

fn check_region_header(def: &StateMachineDefinition, i: usize, report: &mut ValidationReport)
    requires
        i < def.regions@.len(),
    ensures
        issues_view(final(report).issues@) == issues_view(old(report).issues@) + region_header_issues(*def, i as int),
{
    let region = &def.regions[i];
    proof {
        reveal_strlit("");
    }
    let ghost g0 = issues_view(report.issues@);
    if region.id.0 as usize != i {
        report.push(
            ValidationSeverity::Error,
            ValidationCode::InvalidRegionId,
            make_name_id_msg("region '", &region.name, "' uses non-dense or out-of-order id ", "RegionId", region.id.0 as u64, ""),
        );
    }
    if region_name_seen(&def.regions, i) {
        report.push(
            ValidationSeverity::Error,
            ValidationCode::DuplicateRegionName,
            make_name_msg("duplicate region name '", &region.name, "'"),
        );
    }
    if let Some(parent_state) = region.parent_state {
        if def.state(parent_state).is_none() {
            report.push(
                ValidationSeverity::Error,
                ValidationCode::InvalidRegionParent,
                make_name_id_msg("region '", &region.name, "' references missing parent state ", "StateId", parent_state.0 as u64, ""),
            );
        }
    }
    proof {
        assert(issues_view(report.issues@) =~= g0 + region_header_issues(*def, i as int));
    }
}

fn check_region_content(def: &StateMachineDefinition, i: usize, report: &mut ValidationReport)
    requires
        i < def.regions@.len(),
    ensures
        issues_view(final(report).issues@) == issues_view(old(report).issues@) + region_content_issues(*def, i as int),
{
    let region = &def.regions[i];
    let ghost g0 = issues_view(report.issues@);
    if region.child_states.len() == 0 {
        report.push(
            ValidationSeverity::Warning,
            ValidationCode::EmptyRegion,
            make_name_msg("region '", &region.name, "' has no child states"),
        );
    }
    if region.child_states.len() != 0 && region.initial_state.is_none() {
        report.push(
            ValidationSeverity::Error,
            ValidationCode::MissingInitialState,
            make_name_msg("region '", &region.name, "' is missing an initial state"),
        );
    }
    if let Some(initial_state) = region.initial_state {
        if !crate::instance::contains_state(&region.child_states, initial_state) {
            report.push(
                ValidationSeverity::Error,
                ValidationCode::InvalidInitialState,
                make_name_id_msg("region '", &region.name, "' uses initial state ", "StateId", initial_state.0 as u64, " that is not one of its children"),
            );
        }
    }
    proof {
        assert(issues_view(report.issues@) =~= g0 + region_content_issues(*def, i as int));
    }
}

fn check_regions(def: &StateMachineDefinition, report: &mut ValidationReport)
    ensures
        issues_view(final(report).issues@) == issues_view(old(report).issues@)
            + regions_section(*def, def.regions@.len()),
{
    let mut i: usize = 0;
    while i < def.regions.len()
        invariant
            i <= def.regions@.len(),
            issues_view(report.issues@) == issues_view(old(report).issues@) + regions_section(*def, i as nat),
        decreases def.regions@.len() - i,
    {
        let ghost before = issues_view(report.issues@);
        check_region_header(def, i, report);
        check_region_content(def, i, report);
        check_region_children(def, i, report);
        proof {
            assert(regions_section(*def, (i + 1) as nat) == regions_section(*def, i as nat) + region_issues(*def, i as int));
            assert(issues_view(report.issues@) =~= before + region_issues(*def, i as int));
        }
        i = i + 1;
    }
}

/// A root list entry that names no region, repeats an earlier entry, or names
/// a region with a parent state.
pub open spec fn root_entry_issues(def: StateMachineDefinition, k: int) -> Seq<IssueView> {
    let r = def.root_regions@[k];
    match def.spec_region(r) {
        None => seq![error(ValidationCode::InvalidRootRegion, id_msg("root region list references missing region "@, "RegionId"@, r.0 as nat, ""@))],
        Some(region) => issue_if(
            exists|j: int| 0 <= j < k && def.root_regions@[j] == r,
            error(ValidationCode::DuplicateRootRegion, id_msg("root region '"@, "RegionId"@, r.0 as nat, "' is listed more than once"@)),
        ) + issue_if(
            region.parent_state is Some,
            error(ValidationCode::NonRootRegionInRootList, name_msg("region '"@, region.name@, "' is listed as a root region but has a parent state"@)),
        ),
    }
}

/// Issues of the first `n` root list entries.
pub open spec fn root_list_section(def: StateMachineDefinition, n: nat) -> Seq<IssueView>
    decreases n,
{
    if n == 0 {
        Seq::empty()
    } else {
        root_list_section(def, (n - 1) as nat) + root_entry_issues(def, n - 1)
    }
}

/// Issues of the first `n` states that cannot be reached from a root region.
pub open spec fn unreachable_section(def: StateMachineDefinition, n: nat) -> Seq<IssueView>
    decreases n,
{
    if n == 0 {
        Seq::empty()
    } else {
        let s = def.states@[n - 1];
        unreachable_section(def, (n - 1) as nat) + issue_if(
            !def.is_reachable(s.id),
            error(ValidationCode::UnreachableState, name_msg("state '"@, s.name@, "' is not reachable from any root region"@)),
        )
    }
}

fn root_listed_before(roots: &Vec<RegionId>, k: usize) -> (r: bool)
    requires
        k < roots@.len(),
    ensures
        r == exists|j: int| 0 <= j < k && roots@[j] == roots@[k as int],
{
    let mut j: usize = 0;
    while j < k
        invariant
            j <= k,
            k < roots@.len(),
            forall|i: int| 0 <= i < j ==> roots@[i] != roots@[k as int],
        decreases k - j,
    {
        if roots[j] == roots[k] {
            return true;
        }
        j = j + 1;
    }
    false
}

fn check_root_list(def: &StateMachineDefinition, report: &mut ValidationReport)
    ensures
        issues_view(final(report).issues@) == issues_view(old(report).issues@)
            + root_list_section(*def, def.root_regions@.len()),
{
    let mut k: usize = 0;
    while k < def.root_regions.len()
        invariant
            k <= def.root_regions@.len(),
            issues_view(report.issues@) == issues_view(old(report).issues@) + root_list_section(*def, k as nat),
        decreases def.root_regions@.len() - k,
    {
        let ghost before = issues_view(report.issues@);
        let root = def.root_regions[k];
        proof {
            reveal_strlit("");
        }
        match def.region(root) {
            None => {
                report.push(
                    ValidationSeverity::Error,
                    ValidationCode::InvalidRootRegion,
                    make_id_msg("root region list references missing region ", "RegionId", root.0 as u64, ""),
                );
            },
            Some(region) => {
                if root_listed_before(&def.root_regions, k) {
                    report.push(
                        ValidationSeverity::Error,
                        ValidationCode::DuplicateRootRegion,
                        make_id_msg("root region '", "RegionId", root.0 as u64, "' is listed more than once"),
                    );
                }
                if region.parent_state.is_some() {
                    report.push(
                        ValidationSeverity::Error,
                        ValidationCode::NonRootRegionInRootList,
                        make_name_msg("region '", &region.name, "' is listed as a root region but has a parent state"),
                    );
                }
            },
        }
        proof {
            assert(root_list_section(*def, (k + 1) as nat) == root_list_section(*def, k as nat) + root_entry_issues(*def, k as int));
            assert(issues_view(report.issues@) =~= before + root_entry_issues(*def, k as int));
        }
        k = k + 1;
    }
}

fn check_unreachable(def: &StateMachineDefinition, report: &mut ValidationReport)
    ensures
        issues_view(final(report).issues@) == issues_view(old(report).issues@)
            + unreachable_section(*def, def.states@.len()),
{
    let reachable = crate::analysis::reachable_states(def);
    let mut i: usize = 0;
    while i < def.states.len()
        invariant
            i <= def.states@.len(),
            reachable@.len() == crate::analysis::id_space(),
            forall|s: StateId| #[trigger] reachable@[s.0 as int] == def.is_reachable(s),
            issues_view(report.issues@) == issues_view(old(report).issues@) + unreachable_section(*def, i as nat),
        decreases def.states@.len() - i,
    {
        let ghost before = issues_view(report.issues@);
        let state = &def.states[i];
        if !reachable[state.id.0 as usize] {
            report.push(
                ValidationSeverity::Error,
                ValidationCode::UnreachableState,
                make_name_msg("state '", &state.name, "' is not reachable from any root region"),
            );
        }
        proof {
            assert(reachable@[state.id.0 as int] == def.is_reachable(state.id));
            assert(issues_view(report.issues@) =~= before + issue_if(
                !def.is_reachable(state.id),
                error(ValidationCode::UnreachableState, name_msg("state '"@, state.name@, "' is not reachable from any root region"@)),
            ));
        }
        i = i + 1;
    }
}

impl StateMachineDefinition {
    /// Walking up from `s` towards the nearest parallel ancestor stops within
    /// `fuel` steps.
    pub open spec fn parallel_walk_ends(self, s: StateId, fuel: nat) -> bool
        decreases fuel,
    {
        match self.spec_state(s) {
            None => true,
            Some(state) => match (state.parent_region, state.parent_state) {
                (Some(_), Some(p)) => match self.spec_state(p) {
                    None => true,
                    Some(parent) => parent.kind == StateKind::Parallel || (fuel > 0 && self.parallel_walk_ends(p, (fuel - 1) as nat)),
                },
                _ => true,
            },
        }
    }

    /// The region directly below the nearest parallel ancestor of `s`, found
    /// within `fuel` steps.
    pub open spec fn parallel_walk(self, s: StateId, fuel: nat) -> Option<RegionId>
        decreases fuel,
    {
        match self.spec_state(s) {
            None => None,
            Some(state) => match (state.parent_region, state.parent_state) {
                (Some(r), Some(p)) => match self.spec_state(p) {
                    None => None,
                    Some(parent) => if parent.kind == StateKind::Parallel {
                        Some(r)
                    } else if fuel == 0 {
                        None
                    } else {
                        self.parallel_walk(p, (fuel - 1) as nat)
                    },
                },
                _ => None,
            },
        }
    }

    /// The region of the nearest parallel ancestor that contains `s`.
    pub open spec fn spec_root_parallel_region(self, s: StateId) -> Option<RegionId> {
        self.parallel_walk(s, self.states@.len())
    }

    /// The two states sit in different regions of their nearest parallel ancestors.
    pub open spec fn crosses_parallel_regions(self, source: StateId, target: StateId) -> bool {
        match self.spec_root_parallel_region(source) {
            None => false,
            Some(a) => match self.spec_root_parallel_region(target) {
                None => false,
                Some(b) => a != b,
            },
        }
    }

    /// The cross-region check of a transition between two states terminates.
    pub open spec fn cross_region_check_ends(self, source: StateId, target: StateId) -> bool {
        &&& self.parallel_walk_ends(source, self.states@.len())
        &&& self.spec_root_parallel_region(source) is Some ==> self.parallel_walk_ends(target, self.states@.len())
    }

    /// Every cross-region check that validation performs terminates.
    pub open spec fn validation_terminates(self) -> bool {
        forall|k: int| 0 <= k < self.transitions@.len() ==> {
            let t = #[trigger] self.transitions@[k];
            match (t.source, t.target) {
                (TransitionSource::State(s), Some(x)) => self.spec_state(s) is Some && self.spec_state(x) is Some
                    ==> self.cross_region_check_ends(s, x),
                _ => true,
            }
        }
    }
}

proof fn lemma_chain_ends_walk_ends(def: StateMachineDefinition, s: StateId, fuel: nat)
    requires
        def.chain_ends(Some(s), fuel),
    ensures
        def.parallel_walk_ends(s, fuel),
    decreases fuel,
{
    if (s.0 as int) < def.states@.len() && fuel > 0 {
        match def.states@[s.0 as int].parent_state {
            Some(p) => lemma_chain_ends_walk_ends(def, p, (fuel - 1) as nat),
            None => {},
        }
    }
}

/// Validation finishes on every definition whose parent links do not loop.
pub proof fn lemma_finite_hierarchy_validates(def: StateMachineDefinition)
    requires
        def.hierarchy_is_finite(),
    ensures
        def.validation_terminates(),
{
    assert forall|s: StateId| #[trigger] def.parallel_walk_ends(s, def.states@.len()) by {
        assert(def.parent_chain_ends(s));
        lemma_chain_ends_walk_ends(def, s, def.states@.len());
    }
}

fn root_parallel_region(def: &StateMachineDefinition, state_id: StateId) -> (r: Option<RegionId>)
    requires
        def.parallel_walk_ends(state_id, def.states@.len()),
    ensures
        r == def.spec_root_parallel_region(state_id),
{
    let mut current = state_id;
    let ghost mut fuel: nat = def.states@.len();
    loop
        invariant
            def.parallel_walk_ends(current, fuel),
            def.spec_root_parallel_region(state_id) == def.parallel_walk(current, fuel),
        decreases fuel,
    {
        let state = match def.state(current) {
            Some(state) => state,
            None => return None,
        };
        let parent_region = match state.parent_region {
            Some(r) => r,
            None => return None,
        };
        let parent = match state.parent_state {
            Some(p) => p,
            None => return None,
        };
        let parent_state = match def.state(parent) {
            Some(ps) => ps,
            None => return None,
        };
        if parent_state.kind == StateKind::Parallel {
            return Some(parent_region);
        }
        proof {
            fuel = (fuel - 1) as nat;
        }
        current = parent;
    }
}

fn unsupported_cross_region_transition(def: &StateMachineDefinition, source: StateId, target: StateId) -> (r: bool)
    requires
        def.cross_region_check_ends(source, target),
    ensures
        r == def.crosses_parallel_regions(source, target),
{
    let source_root = match root_parallel_region(def, source) {
        Some(r) => r,
        None => return false,
    };
    let target_root = match root_parallel_region(def, target) {
        Some(r) => r,
        None => return false,
    };
    source_root != target_root
}

/// Issues of transition `k`: a missing source or target state (which ends its
/// checks), then a pop with a target, another operation without one, a delay
/// on an any-state transition, a `Done` trigger whose source is not compound
/// or parallel, and a jump between regions of a parallel state.
pub open spec fn transition_issues(def: StateMachineDefinition, k: int) -> Seq<IssueView> {
    let t = def.transitions@[k];
    if t.source is State && def.spec_state(t.source->State_0) is None {
        seq![error(ValidationCode::InvalidTransitionSource, id_id_msg("transition "@, t.id.0 as nat, " references missing source state "@, t.source->State_0.0 as nat))]
    } else if t.target is Some && def.spec_state(t.target->Some_0) is None {
        seq![error(ValidationCode::InvalidTransitionTarget, id_id_msg("transition "@, t.id.0 as nat, " references missing target state "@, t.target->Some_0.0 as nat))]
    } else {
        transition_shape_issues(def, k) + match (t.source, t.target) {
            (TransitionSource::State(s), Some(x)) => issue_if(
                def.crosses_parallel_regions(s, x),
                error(ValidationCode::UnsupportedCrossRegionTransition, id_msg("transition "@, "TransitionId"@, t.id.0 as nat, " crosses sibling parallel regions, which v0.1 defers"@)),
            ),
            _ => Seq::empty(),
        }
    }
}

/// Target, trigger and source-kind issues of transition `k`.
pub open spec fn transition_shape_issues(def: StateMachineDefinition, k: int) -> Seq<IssueView> {
    let t = def.transitions@[k];
    issue_if(
        t.operation == TransitionOperation::Pop && t.target is Some,
        error(ValidationCode::PopHasTarget, id_msg("transition "@, "TransitionId"@, t.id.0 as nat, " is a pop transition and cannot have a target"@)),
    ) + issue_if(
        t.operation != TransitionOperation::Pop && t.target is None,
        error(ValidationCode::MissingTarget, id_msg("transition "@, "TransitionId"@, t.id.0 as nat, " is missing a target"@)),
    ) + issue_if(
        t.source == TransitionSource::AnyState && t.trigger is AfterSeconds,
        error(ValidationCode::AfterOnAnyState, id_msg("transition "@, "TransitionId"@, t.id.0 as nat, " cannot use `after` from AnyState"@)),
    ) + issue_if(
        t.trigger == TransitionTrigger::Done && !(t.source matches TransitionSource::State(s)
            && def.spec_state(s) matches Some(state) && state.kind.spec_has_children()),
        error(ValidationCode::DoneRequiresCompoundOrParallelSource, id_msg("transition "@, "TransitionId"@, t.id.0 as nat, " uses `done` but its source is not a compound or parallel state"@)),
    )
}

/// Issues of the first `n` transitions.
pub open spec fn transitions_section(def: StateMachineDefinition, n: nat) -> Seq<IssueView>
    decreases n,
{
    if n == 0 {
        Seq::empty()
    } else {
        transitions_section(def, (n - 1) as nat) + transition_issues(def, n - 1)
    }
}

fn check_transition_shape(def: &StateMachineDefinition, k: usize, report: &mut ValidationReport)
    requires
        k < def.transitions@.len(),
    ensures
        issues_view(final(report).issues@) == issues_view(old(report).issues@) + transition_shape_issues(*def, k as int),
{
    let t = &def.transitions[k];
    let ghost g0 = issues_view(report.issues@);
    let is_pop = t.operation == TransitionOperation::Pop;
    if is_pop && t.target.is_some() {
        report.push(
            ValidationSeverity::Error,
            ValidationCode::PopHasTarget,
            make_id_msg("transition ", "TransitionId", t.id.0 as u64, " is a pop transition and cannot have a target"),
        );
    }
    if !is_pop && t.target.is_none() {
        report.push(
            ValidationSeverity::Error,
            ValidationCode::MissingTarget,
            make_id_msg("transition ", "TransitionId", t.id.0 as u64, " is missing a target"),
        );
    }
    let any_state = match t.source {
        TransitionSource::AnyState => true,
        TransitionSource::State(_) => false,
    };
    let delayed = match t.trigger {
        TransitionTrigger::AfterSeconds(_) => true,
        _ => false,
    };
    if any_state && delayed {
        report.push(
            ValidationSeverity::Error,
            ValidationCode::AfterOnAnyState,
            make_id_msg("transition ", "TransitionId", t.id.0 as u64, " cannot use `after` from AnyState"),
        );
    }
    if t.trigger == TransitionTrigger::Done {
        let source_ok = match t.source {
            TransitionSource::State(s) => match def.state(s) {
                Some(state) => state.kind.has_children(),
                None => false,
            },
            TransitionSource::AnyState => false,
        };
        if !source_ok {
            report.push(
                ValidationSeverity::Error,
                ValidationCode::DoneRequiresCompoundOrParallelSource,
                make_id_msg("transition ", "TransitionId", t.id.0 as u64, " uses `done` but its source is not a compound or parallel state"),
            );
        }
    }
    proof {
        assert(issues_view(report.issues@) =~= g0 + transition_shape_issues(*def, k as int));
    }
}

fn check_transitions(def: &StateMachineDefinition, report: &mut ValidationReport)
    requires
        def.validation_terminates(),
    ensures
        issues_view(final(report).issues@) == issues_view(old(report).issues@)
            + transitions_section(*def, def.transitions@.len()),
{
    let mut k: usize = 0;
    while k < def.transitions.len()
        invariant
            k <= def.transitions@.len(),
            def.validation_terminates(),
            issues_view(report.issues@) == issues_view(old(report).issues@) + transitions_section(*def, k as nat),
        decreases def.transitions@.len() - k,
    {
        let ghost before = issues_view(report.issues@);
        let t = &def.transitions[k];
        proof {
            assert(transitions_section(*def, (k + 1) as nat) == transitions_section(*def, k as nat) + transition_issues(*def, k as int));
        }
        let mut done = false;
        if let TransitionSource::State(source) = t.source {
            if def.state(source).is_none() {
                report.push(
                    ValidationSeverity::Error,
                    ValidationCode::InvalidTransitionSource,
                    make_id_id_msg("transition ", t.id.0 as u64, " references missing source state ", source.0 as u64),
                );
                done = true;
            }
        }
        if !done {
            if let Some(target) = t.target {
                if def.state(target).is_none() {
                    report.push(
                        ValidationSeverity::Error,
                        ValidationCode::InvalidTransitionTarget,
                        make_id_id_msg("transition ", t.id.0 as u64, " references missing target state ", target.0 as u64),
                    );
                    done = true;
                }
            }
        }
        if !done {
            check_transition_shape(def, k, report);
            if let TransitionSource::State(source) = t.source {
                if let Some(target) = t.target {
                    proof {
                        assert(def.transitions@[k as int] == *t);
                    }
                    if unsupported_cross_region_transition(def, source, target) {
                        report.push(
                            ValidationSeverity::Error,
                            ValidationCode::UnsupportedCrossRegionTransition,
                            make_id_msg("transition ", "TransitionId", t.id.0 as u64, " crosses sibling parallel regions, which v0.1 defers"),
                        );
                    }
                }
            }
        }
        proof {
            assert(issues_view(report.issues@) =~= before + transition_issues(*def, k as int));
        }
        k = k + 1;
    }
}

/// The `Debug` name of a history mode.
pub open spec fn history_mode_name(m: HistoryMode) -> Seq<char> {
    match m {
        HistoryMode::NoHistory => "None"@,
        HistoryMode::Shallow => "Shallow"@,
        HistoryMode::Deep => "Deep"@,
    }
}

/// The transient-cycle issue.
pub open spec fn transient_section(def: StateMachineDefinition) -> Seq<IssueView> {
    issue_if(
        def.has_transient_cycle(),
        error(ValidationCode::TransientCycle, "machine contains an unconditional transient-state cycle that would never quiesce"@),
    )
}

/// History configured on the first `n` states that own no child regions by kind.
pub open spec fn history_section(def: StateMachineDefinition, n: nat) -> Seq<IssueView>
    decreases n,
{
    if n == 0 {
        Seq::empty()
    } else {
        let s = def.states@[n - 1];
        history_section(def, (n - 1) as nat) + issue_if(
            s.history_mode != HistoryMode::NoHistory && !s.kind.spec_has_children(),
            error(ValidationCode::InvalidHistoryMode, "state '"@ + s.name@ + "' cannot use "@ + history_mode_name(s.history_mode)
                + " history because it has no child regions"@),
        )
    }
}

fn check_history(def: &StateMachineDefinition, report: &mut ValidationReport)
    ensures
        issues_view(final(report).issues@) == issues_view(old(report).issues@)
            + history_section(*def, def.states@.len()),
{
    let mut i: usize = 0;
    while i < def.states.len()
        invariant
            i <= def.states@.len(),
            issues_view(report.issues@) == issues_view(old(report).issues@) + history_section(*def, i as nat),
        decreases def.states@.len() - i,
    {
        let ghost before = issues_view(report.issues@);
        let state = &def.states[i];
        if state.history_mode != HistoryMode::NoHistory && !state.kind.has_children() {
            let mut m = String::from_str("state '");
            m.append(state.name.as_str());
            m.append("' cannot use ");
            m.append(match state.history_mode {
                HistoryMode::NoHistory => "None",
                HistoryMode::Shallow => "Shallow",
                HistoryMode::Deep => "Deep",
            });
            m.append(" history because it has no child regions");
            report.push(ValidationSeverity::Error, ValidationCode::InvalidHistoryMode, m);
        }
        proof {
            assert(issues_view(report.issues@) =~= before + issue_if(
                state.history_mode != HistoryMode::NoHistory && !state.kind.spec_has_children(),
                error(ValidationCode::InvalidHistoryMode, "state '"@ + state.name@ + "' cannot use "@ + history_mode_name(state.history_mode)
                    + " history because it has no child regions"@),
            ));
        }
        i = i + 1;
    }
}

/// Every issue of a definition, section by section: the root region list
/// being empty, blackboard keys, states, regions, root list entries,
/// unreachable states, transitions, transient cycles, history modes.
pub open spec fn expected_issues(def: StateMachineDefinition) -> Seq<IssueView> {
    root_section(def)
        + blackboard_section(def.blackboard_schema@, def.blackboard_schema@.len())
        + states_section(def, def.states@.len())
        + regions_section(def, def.regions@.len())
        + root_list_section(def, def.root_regions@.len())
        + unreachable_section(def, def.states@.len())
        + transitions_section(def, def.transitions@.len())
        + transient_section(def)
        + history_section(def, def.states@.len())
}

/// Checks a definition and reports every issue found.
pub fn validate_definition(definition: &StateMachineDefinition) -> (r: ValidationReport)
    requires
        definition.validation_terminates(),
    ensures
        issues_view(r.issues@) == expected_issues(*definition),
{
    let mut report = ValidationReport { issues: Vec::new() };
    proof {
        assert(issues_view(report.issues@) =~= Seq::<IssueView>::empty());
    }
    check_root(definition, &mut report);
    check_blackboard(definition, &mut report);
    check_states(definition, &mut report);
    check_regions(definition, &mut report);
    check_root_list(definition, &mut report);
    check_unreachable(definition, &mut report);
    check_transitions(definition, &mut report);
    let ghost before_cycle = issues_view(report.issues@);
    if crate::analysis::transient_cycle_exists(definition) {
        report.push(
            ValidationSeverity::Error,
            ValidationCode::TransientCycle,
            String::from_str("machine contains an unconditional transient-state cycle that would never quiesce"),
        );
    }
    proof {
        assert(issues_view(report.issues@) =~= before_cycle + transient_section(*definition));
    }
    check_history(definition, &mut report);
    proof {
        assert(issues_view(report.issues@) =~= expected_issues(*definition));
    }
    report
}

} // verus!
