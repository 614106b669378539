//! Failures surfaced by the store and the workflows around it.

use vstd::prelude::*;

verus! {

/// Error taxonomy: a missing referenced entity, a store failure passed
/// through unchanged, a caller-level conflict, or a bad request.
#[derive(Debug)]
pub enum AppError {
    DatabaseError(String),
    NotFound(String),
    Conflict(String),
    ValidationError(String),
    BadRequest(String),
}

/// The HTTP status code each error maps to.
pub open spec fn spec_status_code(e: AppError) -> u16 {
    match e {
        AppError::DatabaseError(_) => 500u16,
        AppError::NotFound(_) => 404u16,
        AppError::Conflict(_) => 409u16,
        AppError::ValidationError(_) => 422u16,
        AppError::BadRequest(_) => 400u16,
    }
}

/// The machine-readable tag each error is labelled with.
pub open spec fn spec_error_type(e: AppError) -> Seq<char> {
    match e {
        AppError::DatabaseError(_) => "database_error"@,
        AppError::NotFound(_) => "not_found"@,
        AppError::Conflict(_) => "conflict"@,
        AppError::ValidationError(_) => "validation_error"@,
        AppError::BadRequest(_) => "bad_request"@,
    }
}

/// The human-readable message carried by the error.
pub open spec fn spec_message(e: AppError) -> Seq<char> {
    match e {
        AppError::DatabaseError(m) => m@,
        AppError::NotFound(m) => m@,
        AppError::Conflict(m) => m@,
        AppError::ValidationError(m) => m@,
        AppError::BadRequest(m) => m@,
    }
}

impl AppError {
    /// The HTTP status code a presentation layer should answer with.
    pub fn status_code(&self) -> (c: u16)
        ensures
            c == spec_status_code(*self),
    {
        match self {
            AppError::DatabaseError(_) => 500,
            AppError::NotFound(_) => 404,
            AppError::Conflict(_) => 409,
            AppError::ValidationError(_) => 422,
            AppError::BadRequest(_) => 400,
        }
    }

    /// The machine-readable tag a presentation layer should label this
    /// error with.
    pub fn error_type(&self) -> (s: &'static str)
        ensures
            s@ == spec_error_type(*self),
    {
        match self {
            AppError::DatabaseError(_) => "database_error",
            AppError::NotFound(_) => "not_found",
            AppError::Conflict(_) => "conflict",
            AppError::ValidationError(_) => "validation_error",
            AppError::BadRequest(_) => "bad_request",
        }
    }

    /// The human-readable message carried by the error.
    pub fn message(&self) -> (m: &String)
        ensures
            m@ == spec_message(*self),
    {
        match self {
            AppError::DatabaseError(m) => m,
            AppError::NotFound(m) => m,
            AppError::Conflict(m) => m,
            AppError::ValidationError(m) => m,
            AppError::BadRequest(m) => m,
        }
    }
}

} // verus!
