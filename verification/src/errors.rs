use vstd::prelude::*;

verus! {

/// Every way an operation of the tracker can fail.
///
/// `NotFound` and `InvalidInput` come from the registry itself;
/// `TransportError` and `RemoteFailure` come from interpreting the outcome
/// of a remote call; `PersistenceFailure` marks a local state document that
/// could not be decoded, which callers treat as fatal.
#[derive(Debug, PartialEq)]
pub enum TrackerError {
    /// A task or category id that is not present.
    NotFound,
    /// An unknown edit field or an unrecognized theme name.
    InvalidInput,
    /// A remote call that never produced a response; carries the cause.
    TransportError(String),
    /// A remote response with an unexpected status; carries the body.
    RemoteFailure(String),
    /// A local state document that could not be decoded.
    PersistenceFailure,
}

impl Clone for TrackerError {
    fn clone(&self) -> (e: TrackerError)
        ensures
            e == *self,
    {
        match self {
            TrackerError::NotFound => TrackerError::NotFound,
            TrackerError::InvalidInput => TrackerError::InvalidInput,
            TrackerError::TransportError(cause) => TrackerError::TransportError(cause.clone()),
            TrackerError::RemoteFailure(body) => TrackerError::RemoteFailure(body.clone()),
            TrackerError::PersistenceFailure => TrackerError::PersistenceFailure,
        }
    }
}

impl TrackerError {
    /// A short description of the error, for rendering.
    pub fn message(&self) -> (m: String)
        ensures
            m@ == match self {
                TrackerError::NotFound => "not found"@,
                TrackerError::InvalidInput => "invalid input"@,
                TrackerError::TransportError(cause) => cause@,
                TrackerError::RemoteFailure(body) => body@,
                TrackerError::PersistenceFailure => "persistence failure"@,
            },
    {
        match self {
            TrackerError::NotFound => "not found".to_owned(),
            TrackerError::InvalidInput => "invalid input".to_owned(),
            TrackerError::TransportError(cause) => cause.clone(),
            TrackerError::RemoteFailure(body) => body.clone(),
            TrackerError::PersistenceFailure => "persistence failure".to_owned(),
        }
    }
}

} // verus!
