//! The failure taxonomy of the identity-resolution layer.

use vstd::prelude::*;

verus! {

/// A typed failure returned to the immediate caller; never silently coerced
/// into a default value.
#[derive(Debug)]
pub enum ReconcileError {
    /// The canonical string could not be parsed as an identifier.
    MalformedIdentifier,
    /// A shape required an identity-derived field, but no such value was
    /// available in the result under the declared name.
    MissingIdentityField { field: String },
    /// A stored value's type disagrees with the declared field type.
    TypeMismatch { field: String },
    /// An opaque failure passed through from the storage engine, re-tagged
    /// so callers can tell a wrong shape from a rejected call.
    EngineFailure { detail: String },
}

/// The mathematical shape of a `ReconcileError`.
pub ghost enum ErrorModel {
    MalformedIdentifier,
    MissingIdentityField(Seq<char>),
    TypeMismatch(Seq<char>),
    EngineFailure(Seq<char>),
}

impl View for ReconcileError {
    type V = ErrorModel;

    open spec fn view(&self) -> ErrorModel {
        match self {
            ReconcileError::MalformedIdentifier => ErrorModel::MalformedIdentifier,
            ReconcileError::MissingIdentityField { field } => ErrorModel::MissingIdentityField(
                field@,
            ),
            ReconcileError::TypeMismatch { field } => ErrorModel::TypeMismatch(field@),
            ReconcileError::EngineFailure { detail } => ErrorModel::EngineFailure(detail@),
        }
    }
}

impl PartialEq for ReconcileError {
    fn eq(&self, other: &Self) -> (r: bool) {
        match (self, other) {
            (ReconcileError::MalformedIdentifier, ReconcileError::MalformedIdentifier) => true,
            (
                ReconcileError::MissingIdentityField { field: a },
                ReconcileError::MissingIdentityField { field: b },
            ) => *a == *b,
            (
                ReconcileError::TypeMismatch { field: a },
                ReconcileError::TypeMismatch { field: b },
            ) => *a == *b,
            (
                ReconcileError::EngineFailure { detail: a },
                ReconcileError::EngineFailure { detail: b },
            ) => *a == *b,
            _ => false,
        }
    }
}

impl vstd::std_specs::cmp::PartialEqSpecImpl for ReconcileError {
    open spec fn obeys_eq_spec() -> bool {
        true
    }

    open spec fn eq_spec(&self, other: &Self) -> bool {
        self@ == other@
    }
}

impl Clone for ReconcileError {
    fn clone(&self) -> (r: Self)
        ensures
            r@ == self@,
    {
        match self {
            ReconcileError::MalformedIdentifier => ReconcileError::MalformedIdentifier,
            ReconcileError::MissingIdentityField { field } => {
                ReconcileError::MissingIdentityField { field: field.clone() }
            },
            ReconcileError::TypeMismatch { field } => {
                ReconcileError::TypeMismatch { field: field.clone() }
            },
            ReconcileError::EngineFailure { detail } => {
                ReconcileError::EngineFailure { detail: detail.clone() }
            },
        }
    }
}

} // verus!
