//! Error taxonomy of the engine. Configuration problems are found before
//! the engine starts; everything later resolves locally or as an event.
use vstd::prelude::*;

verus! {

/// Why a set of service descriptors was rejected before the engine ran.
#[derive(Clone, Debug, PartialEq, Eq)]
pub enum ValidationError {
    /// A descriptor has an empty name.
    EmptyName,
    /// Two descriptors share this name.
    DuplicateName(String),
    /// A `start_after` entry names no known service.
    UnknownDependency(String),
    /// A termination signal name is not one the engine can send.
    UnknownSignal(String),
    /// The `start_after` relation has a cycle.
    Cycle,
}

/// An engine-level error, surfaced to the caller of the library.
#[derive(Clone, Debug, PartialEq, Eq)]
pub enum HorustError {
    Validation(ValidationError),
    Io(String),
}

impl HorustError {
    /// Wraps a configuration finding.
    pub fn from_validation(e: ValidationError) -> (r: HorustError)
        ensures
            r == HorustError::Validation(e),
    {
        HorustError::Validation(e)
    }
}

} // verus!
