//! The error taxonomy shared by the router, the handlers, and the store.
use vstd::prelude::*;

verus! {

/// Everything that can go wrong while serving a request.
#[derive(Debug, Clone, PartialEq)]
pub enum ApiError {
    /// The request body could not be decoded into the expected shape.
    MalformedRequest,
    /// An attribute name outside the allow-list; carries the offending name.
    InvalidAttribute { name: String },
    /// The action identifier is not one of the recognized actions.
    UnknownAction,
    /// The operation targets a queue that is absent from the store.
    QueueNotFound,
    /// The underlying persistence or store operation failed.
    StoreFailure,
    /// The response could not be rendered.
    SerializationFailure,
}

/// The human-readable rendering of an error.
pub open spec fn error_message(e: ApiError) -> Seq<char> {
    match e {
        ApiError::MalformedRequest => "Failed to parse payload"@,
        ApiError::InvalidAttribute { name } => "Invalid attribute name: "@ + name@,
        ApiError::UnknownAction => "Invalid action"@,
        ApiError::QueueNotFound => "Queue not found"@,
        ApiError::StoreFailure => "Store operation failed"@,
        ApiError::SerializationFailure => "Failed to serialize response"@,
    }
}

impl ApiError {
    /// Whether the error is the caller's fault (a 4xx-equivalent); store and
    /// serialization failures are the server's (5xx-equivalent).
    pub fn is_client_error(&self) -> (r: bool)
        ensures
            r == !(self is StoreFailure || self is SerializationFailure),
    {
        match self {
            ApiError::StoreFailure => false,
            ApiError::SerializationFailure => false,
            _ => true,
        }
    }

    /// The human-readable message of the error.
    pub fn message(&self) -> (r: String)
        ensures
            r@ == error_message(*self),
    {
        match self {
            ApiError::MalformedRequest => "Failed to parse payload".to_owned(),
            ApiError::InvalidAttribute { name } => "Invalid attribute name: ".to_owned().concat(
                name.as_str(),
            ),
            ApiError::UnknownAction => "Invalid action".to_owned(),
            ApiError::QueueNotFound => "Queue not found".to_owned(),
            ApiError::StoreFailure => "Store operation failed".to_owned(),
            ApiError::SerializationFailure => "Failed to serialize response".to_owned(),
        }
    }
}

} // verus!
