//! Errors reported by the HTTP endpoints and the status codes they map to.
use vstd::prelude::*;
use vstd::string::*;

verus! {

/// Errors raised by the application layer behind the HTTP endpoints.
#[derive(Debug, Clone, PartialEq, Eq)]
pub enum ApplicationError {
    /// A referenced session or stream does not exist.
    NotFound(String),
    /// A request was well-formed but violated a validation rule.
    Validation(String),
    /// The caller is not allowed to perform the operation.
    Authorization(String),
    /// A concurrent modification was detected.
    Concurrency(String),
    /// The operation conflicts with the current state.
    Conflict(String),
    /// A domain invariant was violated.
    Domain(String),
    /// An internal logic error.
    Logic(String),
}

/// HTTP-facing errors of the streaming endpoints.
#[derive(Debug, Clone, PartialEq, Eq)]
pub enum PjsError {
    /// Wraps an application-layer error.
    Application(ApplicationError),
    /// Provided session identifier is malformed or not a valid UUID.
    InvalidSessionId(String),
    /// Provided stream identifier is malformed or not a valid UUID.
    InvalidStreamId(String),
    /// Priority value is out of range or otherwise invalid.
    InvalidPriority(String),
    /// Provided session state filter does not match any session state.
    InvalidSessionState(String),
    /// Provided `sort_by` value does not match any sort field.
    InvalidSortField(String),
    /// Provided `sort_order` value does not match any sort direction.
    InvalidSortOrder(String),
    /// Generic HTTP-layer error; its text must be safe to show to a client.
    HttpError(String),
}

/// The HTTP status an application error is answered with.
pub open spec fn application_status(e: ApplicationError) -> u16 {
    match e {
        ApplicationError::NotFound(_) => 404,
        ApplicationError::Validation(_) => 400,
        ApplicationError::Authorization(_) => 401,
        ApplicationError::Concurrency(_) => 409,
        ApplicationError::Conflict(_) => 409,
        ApplicationError::Domain(_) => 500,
        ApplicationError::Logic(_) => 500,
    }
}

/// The detail text carried by an application error.
pub open spec fn application_detail(e: ApplicationError) -> Seq<char> {
    match e {
        ApplicationError::NotFound(m) => m@,
        ApplicationError::Validation(m) => m@,
        ApplicationError::Authorization(m) => m@,
        ApplicationError::Concurrency(m) => m@,
        ApplicationError::Conflict(m) => m@,
        ApplicationError::Domain(m) => m@,
        ApplicationError::Logic(m) => m@,
    }
}

/// The HTTP status a [`PjsError`] is answered with.
pub open spec fn pjs_status(e: PjsError) -> u16 {
    match e {
        PjsError::Application(a) => application_status(a),
        PjsError::HttpError(_) => 500,
        _ => 400,
    }
}

/// The human-readable text of a [`PjsError`].
pub open spec fn pjs_message(e: PjsError) -> Seq<char> {
    match e {
        PjsError::Application(a) => "Application error: "@ + application_detail(a),
        PjsError::InvalidSessionId(m) => "Invalid session ID: "@ + m@,
        PjsError::InvalidStreamId(m) => "Invalid stream ID: "@ + m@,
        PjsError::InvalidPriority(m) => "Invalid priority: "@ + m@,
        PjsError::InvalidSessionState(m) => "Invalid session state: "@ + m@
            + " (expected one of: Initializing, Active, Closing, Completed, Failed)"@,
        PjsError::InvalidSortField(m) => "Invalid sort field: "@ + m@
            + " (expected one of: created_at, updated_at, stream_count, total_bytes)"@,
        PjsError::InvalidSortOrder(m) => "Invalid sort order: "@ + m@
            + " (expected one of: asc, ascending, desc, descending)"@,
        PjsError::HttpError(m) => "HTTP error: "@ + m@,
    }
}

impl ApplicationError {
    /// The HTTP status code this error is answered with.
    pub fn status_code(&self) -> (r: u16)
        ensures
            r == application_status(*self),
    {
        match self {
            ApplicationError::NotFound(_) => 404,
            ApplicationError::Validation(_) => 400,
            ApplicationError::Authorization(_) => 401,
            ApplicationError::Concurrency(_) => 409,
            ApplicationError::Conflict(_) => 409,
            ApplicationError::Domain(_) => 500,
            ApplicationError::Logic(_) => 500,
        }
    }

    /// The detail text carried by this error.
    pub fn detail(&self) -> (r: &String)
        ensures
            r@ == application_detail(*self),
    {
        match self {
            ApplicationError::NotFound(m) => m,
            ApplicationError::Validation(m) => m,
            ApplicationError::Authorization(m) => m,
            ApplicationError::Concurrency(m) => m,
            ApplicationError::Conflict(m) => m,
            ApplicationError::Domain(m) => m,
            ApplicationError::Logic(m) => m,
        }
    }
}

impl PjsError {
    /// The HTTP status code this error is answered with: application errors by their
    /// kind, `HttpError` with 500, every other (client input) error with 400.
    pub fn status_code(&self) -> (r: u16)
        ensures
            r == pjs_status(*self),
    {
        match self {
            PjsError::Application(a) => a.status_code(),
            PjsError::HttpError(_) => 500,
            _ => 400,
        }
    }

    /// The text of this error, as shown in the `error` field of a response body.
    pub fn message(&self) -> (r: String)
        ensures
            r@ == pjs_message(*self),
    {
        match self {
            PjsError::Application(a) => String::from_str("Application error: ").concat(
                a.detail().as_str(),
            ),
            PjsError::InvalidSessionId(m) => String::from_str("Invalid session ID: ").concat(
                m.as_str(),
            ),
            PjsError::InvalidStreamId(m) => String::from_str("Invalid stream ID: ").concat(
                m.as_str(),
            ),
            PjsError::InvalidPriority(m) => String::from_str("Invalid priority: ").concat(
                m.as_str(),
            ),
            PjsError::InvalidSessionState(m) => String::from_str("Invalid session state: ").concat(
                m.as_str(),
            ).concat(" (expected one of: Initializing, Active, Closing, Completed, Failed)"),
            PjsError::InvalidSortField(m) => String::from_str("Invalid sort field: ").concat(
                m.as_str(),
            ).concat(" (expected one of: created_at, updated_at, stream_count, total_bytes)"),
            PjsError::InvalidSortOrder(m) => String::from_str("Invalid sort order: ").concat(
                m.as_str(),
            ).concat(" (expected one of: asc, ascending, desc, descending)"),
            PjsError::HttpError(m) => String::from_str("HTTP error: ").concat(m.as_str()),
        }
    }
}

} // verus!
