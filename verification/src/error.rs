//! Failures of engine operations.

use vstd::prelude::*;

verus! {

/// Why an engine operation was refused.
///
/// The first five are raised by the engine itself; `UpstreamFailure` is how a
/// caller reports that the document store failed, with the store's own
/// description of the failure.
#[derive(Debug, PartialEq, Eq)]
pub enum EngineError {
    /// A document or comment identifier is not well formed.
    InvalidIdentifier,
    /// Comment content is outside the accepted length, or a required field
    /// is missing.
    ValidationError,
    /// The addressed document or comment does not exist.
    NotFound,
    /// A patch path does not resolve inside the document.
    PathNotFound,
    /// A patch path is empty.
    MalformedPath,
    /// The document store failed.
    UpstreamFailure(String),
}

impl EngineError {
    /// The number of the HTTP status under which the failure is reported.
    pub open spec fn status(self) -> int {
        match self {
            EngineError::InvalidIdentifier => 400,
            EngineError::ValidationError => 400,
            EngineError::MalformedPath => 400,
            EngineError::NotFound => 404,
            EngineError::PathNotFound => 404,
            EngineError::UpstreamFailure(_) => 500,
        }
    }

    /// The HTTP status under which the failure is reported.
    pub fn status_code(&self) -> (code: u16)
        ensures
            code == self.status(),
    {
        match self {
            EngineError::InvalidIdentifier => 400,
            EngineError::ValidationError => 400,
            EngineError::MalformedPath => 400,
            EngineError::NotFound => 404,
            EngineError::PathNotFound => 404,
            EngineError::UpstreamFailure(_) => 500,
        }
    }
}

/// Reports what the document store answered to a fetch: what was found,
/// `NotFound` where there is nothing under the identifier, and
/// `UpstreamFailure` with the store's description where the store failed.
pub fn fetched<T>(outcome: Result<Option<T>, String>) -> (r: Result<T, EngineError>)
    ensures
        match outcome {
            Ok(Some(found)) => r == Ok::<T, EngineError>(found),
            Ok(None) => r == Err::<T, EngineError>(EngineError::NotFound),
            Err(description) => r == Err::<T, EngineError>(EngineError::UpstreamFailure(description)),
        },
{
    match outcome {
        Ok(Some(found)) => Ok(found),
        Ok(None) => Err(EngineError::NotFound),
        Err(description) => Err(EngineError::UpstreamFailure(description)),
    }
}

/// Reports what the document store answered to a write: `UpstreamFailure`
/// with the store's description where the store failed.
pub fn written(outcome: Result<(), String>) -> (r: Result<(), EngineError>)
    ensures
        match outcome {
            Ok(_) => r is Ok,
            Err(description) => r == Err::<(), EngineError>(EngineError::UpstreamFailure(description)),
        },
{
    match outcome {
        Ok(_) => Ok(()),
        Err(description) => Err(EngineError::UpstreamFailure(description)),
    }
}

/// Takes a field that a request has to hold: the field where it is there,
/// `ValidationError` where it is missing.
pub fn required_field<'a>(field: Option<&'a str>) -> (r: Result<&'a str, EngineError>)
    ensures
        match field {
            Some(v) => r == Ok::<&str, EngineError>(v),
            None => r == Err::<&str, EngineError>(EngineError::ValidationError),
        },
{
    match field {
        Some(v) => Ok(v),
        None => Err(EngineError::ValidationError),
    }
}

} // verus!
