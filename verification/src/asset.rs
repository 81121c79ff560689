use vstd::prelude::*;

use crate::definition::{duplicate_definition_message, StateMachineDefinition, StateMachineDefinitionId, StateMachineLibrary};
use crate::validation::{expected_issues, has_error, issues_view, validate_definition, ValidationReport};

verus! {

/// A machine definition as authored in a data file.
#[derive(Clone, Debug)]
pub struct StateMachineDefinitionAsset {
    pub definition: StateMachineDefinition,
}

/// Why an asset's definition was not registered.
#[derive(Clone, Debug)]
pub enum AssetRegistrationError {
    /// Validation found errors; the full report.
    Invalid(ValidationReport),
    /// A definition with the same id is already registered; the message.
    DuplicateId(String),
}

impl StateMachineDefinitionAsset {
    /// Validates the asset's definition (the checks the builder applies) and
    /// registers a copy of it, unless validation finds an error or its id is
    /// taken; either way the library is unchanged on failure.
    pub fn register(&self, library: &mut StateMachineLibrary) -> (r: Result<StateMachineDefinitionId, AssetRegistrationError>)
        requires
            self.definition.validation_terminates(),
        ensures
            has_error(expected_issues(self.definition)) ==> {
                &&& (r matches Err(AssetRegistrationError::Invalid(report))
                    && issues_view(report.issues@) == expected_issues(self.definition))
                &&& final(library).definitions@ == old(library).definitions@
            },
            !has_error(expected_issues(self.definition)) && old(library).spec_contains(self.definition.id) ==> {
                &&& (r matches Err(AssetRegistrationError::DuplicateId(m)) && m@ == duplicate_definition_message(self.definition.id.0))
                &&& final(library).definitions@ == old(library).definitions@
            },
            !has_error(expected_issues(self.definition)) && !old(library).spec_contains(self.definition.id) ==> {
                &&& r == Ok::<StateMachineDefinitionId, AssetRegistrationError>(self.definition.id)
                &&& final(library).definitions@.len() == old(library).definitions@.len() + 1
                &&& final(library).definitions@.drop_last() == old(library).definitions@
                &&& final(library).definitions@.last().same_as(self.definition)
            },
    {
        let report = validate_definition(&self.definition);
        if report.has_errors() {
            return Err(AssetRegistrationError::Invalid(report));
        }
        let copy = self.definition.clone();
        let ghost before = library.definitions@;
        match library.register(copy) {
            Ok(id) => {
                proof {
                    assert(library.definitions@.drop_last() =~= before);
                }
                Ok(id)
            },
            Err(m) => Err(AssetRegistrationError::DuplicateId(m)),
        }
    }
}

impl From<StateMachineDefinition> for StateMachineDefinitionAsset {
    fn from(definition: StateMachineDefinition) -> (r: Self) {
        StateMachineDefinitionAsset { definition }
    }
}

impl vstd::std_specs::convert::FromSpecImpl<StateMachineDefinition> for StateMachineDefinitionAsset {
    open spec fn obeys_from_spec() -> bool {
        true
    }

    open spec fn from_spec(v: StateMachineDefinition) -> StateMachineDefinitionAsset {
        StateMachineDefinitionAsset { definition: v }
    }
}

} // verus!
