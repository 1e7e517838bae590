//! Typed errors surfaced by command processing and validation.

use vstd::prelude::*;

use crate::types::{EntityId, ZoneId};

verus! {

/// Errors returned by the engine when a command fails.
#[derive(Debug)]
pub enum ApiError {
    /// The operation requires a loaded world and none is loaded.
    NoWorldLoaded,
    /// A world with this id already exists in the store.
    WorldAlreadyExists(String),
    /// No world with this id exists in the store.
    WorldNotFound(String),
    /// Entity not found.
    EntityNotFound(EntityId),
    /// Zone not found.
    ZoneNotFound(ZoneId),
    /// Zone already exists.
    ZoneAlreadyExists(ZoneId),
    /// Structural issue not caught by validation.
    InvalidCommand(String),
    /// A pre-mutation field check failed.
    ValidationFailed(Vec<ValidationError>),
    /// Underlying storage, serialization or integrity failure.
    StorageError(String),
    /// Reserved for invariant violations.
    InternalError(String),
}

/// The mathematical value of an [`ApiError`].
#[verifier::ext_equal]
pub ghost enum ApiErrorView {
    NoWorldLoaded,
    WorldAlreadyExists(Seq<char>),
    WorldNotFound(Seq<char>),
    EntityNotFound(EntityId),
    ZoneNotFound(ZoneId),
    ZoneAlreadyExists(ZoneId),
    InvalidCommand(Seq<char>),
    ValidationFailed(Seq<ValidationErrorView>),
    StorageError(Seq<char>),
    InternalError(Seq<char>),
}

impl View for ApiError {
    type V = ApiErrorView;

    open spec fn view(&self) -> ApiErrorView {
        match self {
            ApiError::NoWorldLoaded => ApiErrorView::NoWorldLoaded,
            ApiError::WorldAlreadyExists(s) => ApiErrorView::WorldAlreadyExists(s@),
            ApiError::WorldNotFound(s) => ApiErrorView::WorldNotFound(s@),
            ApiError::EntityNotFound(id) => ApiErrorView::EntityNotFound(*id),
            ApiError::ZoneNotFound(id) => ApiErrorView::ZoneNotFound(*id),
            ApiError::ZoneAlreadyExists(id) => ApiErrorView::ZoneAlreadyExists(*id),
            ApiError::InvalidCommand(s) => ApiErrorView::InvalidCommand(s@),
            ApiError::ValidationFailed(v) => ApiErrorView::ValidationFailed(errors_view(v@)),
            ApiError::StorageError(s) => ApiErrorView::StorageError(s@),
            ApiError::InternalError(s) => ApiErrorView::InternalError(s@),
        }
    }
}

/// Details of one failed validation check.
#[derive(Debug)]
pub struct ValidationError {
    pub field: String,
    pub message: String,
}

/// The mathematical value of a [`ValidationError`].
#[verifier::ext_equal]
pub ghost struct ValidationErrorView {
    pub field: Seq<char>,
    pub message: Seq<char>,
}

impl View for ValidationError {
    type V = ValidationErrorView;

    open spec fn view(&self) -> ValidationErrorView {
        ValidationErrorView { field: self.field@, message: self.message@ }
    }
}

/// The views of a sequence of validation errors.
pub open spec fn errors_view(s: Seq<ValidationError>) -> Seq<ValidationErrorView> {
    s.map_values(|e: ValidationError| e@)
}

impl ValidationError {
    pub fn new(field: &str, message: &str) -> (r: ValidationError)
        ensures
            r@ == (ValidationErrorView { field: field@, message: message@ }),
    {
        ValidationError { field: field.to_owned(), message: message.to_owned() }
    }
}

impl Clone for ValidationError {
    fn clone(&self) -> (r: ValidationError)
        ensures
            r == *self,
    {
        ValidationError { field: self.field.clone(), message: self.message.clone() }
    }
}

} // verus!
