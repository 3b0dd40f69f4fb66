//! Request parameters, identifier parsing, CORS policy and route table of the
//! HTTP API.
use vstd::prelude::*;
use vstd::string::*;
use crate::errors::{ApplicationError, PjsError};
use crate::ids::{SessionId, StreamId, spec_uuid_parse, uuid_hyphenated};
use crate::text::str_eq;
use crate::framework::JsonData;

verus! {

// ---------------------------------------------------------------------------
// Identifiers in path segments
// ---------------------------------------------------------------------------

/// Parses a raw path segment into a [`SessionId`]; a segment that is not a UUID is
/// answered with [`PjsError::InvalidSessionId`] carrying the raw text.
pub fn parse_session_id(raw: String) -> (r: Result<SessionId, PjsError>)
    ensures
        spec_uuid_parse(raw@) is Some ==> r == Ok::<SessionId, PjsError>(
            SessionId(spec_uuid_parse(raw@)->0),
        ),
        spec_uuid_parse(raw@) is None ==> r == Err::<SessionId, PjsError>(
            PjsError::InvalidSessionId(raw),
        ),
        forall|v: u128| raw@ == uuid_hyphenated(v) ==> r == Ok::<SessionId, PjsError>(SessionId(v)),
{
    match SessionId::from_string(raw.as_str()) {
        Some(id) => Ok(id),
        None => Err(PjsError::InvalidSessionId(raw)),
    }
}

/// Parses raw `(session, stream)` path segments; the session segment is checked
/// first, so a bad session id is reported even when the stream id is bad too.
pub fn parse_session_and_stream_id(session_raw: String, stream_raw: String) -> (r: Result<
    (SessionId, StreamId),
    PjsError,
>)
    ensures
        spec_uuid_parse(session_raw@) is None ==> r == Err::<(SessionId, StreamId), PjsError>(
            PjsError::InvalidSessionId(session_raw),
        ),
        spec_uuid_parse(session_raw@) is Some && spec_uuid_parse(stream_raw@) is None ==> r
            == Err::<(SessionId, StreamId), PjsError>(PjsError::InvalidStreamId(stream_raw)),
        spec_uuid_parse(session_raw@) is Some && spec_uuid_parse(stream_raw@) is Some ==> r
            == Ok::<(SessionId, StreamId), PjsError>(
            (
                SessionId(spec_uuid_parse(session_raw@)->0),
                StreamId(spec_uuid_parse(stream_raw@)->0),
            ),
        ),
        forall|a: u128, b: u128|
            session_raw@ == uuid_hyphenated(a) && stream_raw@ == uuid_hyphenated(b) ==> r == Ok::<
                (SessionId, StreamId),
                PjsError,
            >((SessionId(a), StreamId(b))),
{
    let session_id = match parse_session_id(session_raw) {
        Ok(id) => id,
        Err(e) => {
            return Err(e);
        },
    };
    match StreamId::from_string(stream_raw.as_str()) {
        Some(stream_id) => Ok((session_id, stream_id)),
        None => Err(PjsError::InvalidStreamId(stream_raw)),
    }
}

// ---------------------------------------------------------------------------
// Search parameters
// ---------------------------------------------------------------------------

/// Lifecycle state of a streaming session, as spelled in query strings.
#[derive(Debug, Clone, Copy, PartialEq, Eq, Structural)]
pub enum SessionState {
    Initializing,
    Active,
    Closing,
    Completed,
    Failed,
}

/// Field by which a session search is sorted.
#[derive(Debug, Clone, Copy, PartialEq, Eq, Structural)]
pub enum SessionSortField {
    CreatedAt,
    UpdatedAt,
    StreamCount,
    TotalBytes,
}

/// Direction of a sorted search.
#[derive(Debug, Clone, Copy, PartialEq, Eq, Structural)]
pub enum SortOrder {
    Ascending,
    Descending,
}

/// The session state spelled exactly `s`, if any (case-sensitive).
pub open spec fn session_state_named(s: Seq<char>) -> Option<SessionState> {
    if s == "Initializing"@ {
        Some(SessionState::Initializing)
    } else if s == "Active"@ {
        Some(SessionState::Active)
    } else if s == "Closing"@ {
        Some(SessionState::Closing)
    } else if s == "Completed"@ {
        Some(SessionState::Completed)
    } else if s == "Failed"@ {
        Some(SessionState::Failed)
    } else {
        None
    }
}

/// The sort field spelled exactly `s`, if any (case-sensitive).
pub open spec fn sort_field_named(s: Seq<char>) -> Option<SessionSortField> {
    if s == "created_at"@ {
        Some(SessionSortField::CreatedAt)
    } else if s == "updated_at"@ {
        Some(SessionSortField::UpdatedAt)
    } else if s == "stream_count"@ {
        Some(SessionSortField::StreamCount)
    } else if s == "total_bytes"@ {
        Some(SessionSortField::TotalBytes)
    } else {
        None
    }
}

/// The sort direction spelled exactly `s`, if any (case-sensitive; `asc` and
/// `desc` are accepted as short forms).
pub open spec fn sort_order_named(s: Seq<char>) -> Option<SortOrder> {
    if s == "ascending"@ || s == "asc"@ {
        Some(SortOrder::Ascending)
    } else if s == "descending"@ || s == "desc"@ {
        Some(SortOrder::Descending)
    } else {
        None
    }
}

/// Parses a raw `state` query value; anything but an exact state name is answered
/// with [`PjsError::InvalidSessionState`] carrying the raw text.
pub fn parse_session_state(raw: String) -> (r: Result<SessionState, PjsError>)
    ensures
        session_state_named(raw@) is Some ==> r == Ok::<SessionState, PjsError>(
            session_state_named(raw@)->0,
        ),
        session_state_named(raw@) is None ==> r == Err::<SessionState, PjsError>(
            PjsError::InvalidSessionState(raw),
        ),
{
    if str_eq(raw.as_str(), "Initializing") {
        Ok(SessionState::Initializing)
    } else if str_eq(raw.as_str(), "Active") {
        Ok(SessionState::Active)
    } else if str_eq(raw.as_str(), "Closing") {
        Ok(SessionState::Closing)
    } else if str_eq(raw.as_str(), "Completed") {
        Ok(SessionState::Completed)
    } else if str_eq(raw.as_str(), "Failed") {
        Ok(SessionState::Failed)
    } else {
        Err(PjsError::InvalidSessionState(raw))
    }
}

/// Parses a raw `sort_by` query value; anything but an exact field name (the empty
/// text included) is answered with [`PjsError::InvalidSortField`].
pub fn parse_sort_field(raw: String) -> (r: Result<SessionSortField, PjsError>)
    ensures
        sort_field_named(raw@) is Some ==> r == Ok::<SessionSortField, PjsError>(
            sort_field_named(raw@)->0,
        ),
        sort_field_named(raw@) is None ==> r == Err::<SessionSortField, PjsError>(
            PjsError::InvalidSortField(raw),
        ),
{
    if str_eq(raw.as_str(), "created_at") {
        Ok(SessionSortField::CreatedAt)
    } else if str_eq(raw.as_str(), "updated_at") {
        Ok(SessionSortField::UpdatedAt)
    } else if str_eq(raw.as_str(), "stream_count") {
        Ok(SessionSortField::StreamCount)
    } else if str_eq(raw.as_str(), "total_bytes") {
        Ok(SessionSortField::TotalBytes)
    } else {
        Err(PjsError::InvalidSortField(raw))
    }
}

/// Parses a raw `sort_order` query value; anything but `asc`, `ascending`, `desc`
/// or `descending` is answered with [`PjsError::InvalidSortOrder`].
pub fn parse_sort_order(raw: String) -> (r: Result<SortOrder, PjsError>)
    ensures
        sort_order_named(raw@) is Some ==> r == Ok::<SortOrder, PjsError>(
            sort_order_named(raw@)->0,
        ),
        sort_order_named(raw@) is None ==> r == Err::<SortOrder, PjsError>(
            PjsError::InvalidSortOrder(raw),
        ),
{
    if str_eq(raw.as_str(), "ascending") || str_eq(raw.as_str(), "asc") {
        Ok(SortOrder::Ascending)
    } else if str_eq(raw.as_str(), "descending") || str_eq(raw.as_str(), "desc") {
        Ok(SortOrder::Descending)
    } else {
        Err(PjsError::InvalidSortOrder(raw))
    }
}


/// Query parameters of the session search endpoint, as received.
#[derive(Debug, Clone)]
pub struct SearchSessionsParams {
    /// Exact session-state name to match.
    pub state: Option<String>,
    /// Exact sort-field name.
    pub sort_by: Option<String>,
    /// Sort direction (`asc`, `ascending`, `desc`, `descending`).
    pub sort_order: Option<String>,
    /// Maximum number of sessions to return.
    pub limit: Option<usize>,
    /// Number of sessions to skip.
    pub offset: Option<usize>,
}

/// A validated session search.
#[derive(Debug, Clone, Copy, PartialEq, Eq)]
pub struct SessionSearch {
    /// Sessions must be in this state, when given.
    pub state: Option<SessionState>,
    /// Sort field, when given.
    pub sort_by: Option<SessionSortField>,
    /// Sort direction, when given.
    pub sort_order: Option<SortOrder>,
    /// Maximum number of sessions to return.
    pub limit: Option<usize>,
    /// Number of sessions to skip.
    pub offset: Option<usize>,
}

/// Whether an optional raw value is absent or parses by `named`.
pub open spec fn opt_ok<T>(raw: Option<String>, named: spec_fn(Seq<char>) -> Option<T>) -> bool {
    match raw {
        Some(t) => named(t@) is Some,
        None => true,
    }
}

/// The parsed form of an optional raw value that [`opt_ok`] accepts.
pub open spec fn opt_value<T>(raw: Option<String>, named: spec_fn(Seq<char>) -> Option<T>) -> Option<T> {
    match raw {
        Some(t) => named(t@),
        None => None,
    }
}

/// Validates search parameters. `sort_by` is checked first, then `sort_order`,
/// then `state`; the first bad value is reported. An absent parameter means "no
/// filter" or "default order"; a present but empty one is rejected.
pub fn search_from_params(params: SearchSessionsParams) -> (r: Result<SessionSearch, PjsError>)
    ensures
        !opt_ok(params.sort_by, |t: Seq<char>| sort_field_named(t)) ==> r == Err::<SessionSearch, PjsError>(
            PjsError::InvalidSortField(params.sort_by->0),
        ),
        opt_ok(params.sort_by, |t: Seq<char>| sort_field_named(t)) && !opt_ok(
            params.sort_order,
            |t: Seq<char>| sort_order_named(t),
        ) ==> r == Err::<SessionSearch, PjsError>(PjsError::InvalidSortOrder(params.sort_order->0)),
        opt_ok(params.sort_by, |t: Seq<char>| sort_field_named(t)) && opt_ok(
            params.sort_order,
            |t: Seq<char>| sort_order_named(t),
        ) && !opt_ok(params.state, |t: Seq<char>| session_state_named(t)) ==> r == Err::<
            SessionSearch,
            PjsError,
        >(PjsError::InvalidSessionState(params.state->0)),
        opt_ok(params.sort_by, |t: Seq<char>| sort_field_named(t)) && opt_ok(
            params.sort_order,
            |t: Seq<char>| sort_order_named(t),
        ) && opt_ok(params.state, |t: Seq<char>| session_state_named(t)) ==> r == Ok::<
            SessionSearch,
            PjsError,
        >(
            SessionSearch {
                state: opt_value(params.state, |t: Seq<char>| session_state_named(t)),
                sort_by: opt_value(params.sort_by, |t: Seq<char>| sort_field_named(t)),
                sort_order: opt_value(params.sort_order, |t: Seq<char>| sort_order_named(t)),
                limit: params.limit,
                offset: params.offset,
            },
        ),
{
    let sort_by = match params.sort_by {
        Some(raw) => match parse_sort_field(raw) {
            Ok(f) => Some(f),
            Err(e) => {
                return Err(e);
            },
        },
        None => None,
    };
    let sort_order = match params.sort_order {
        Some(raw) => match parse_sort_order(raw) {
            Ok(o) => Some(o),
            Err(e) => {
                return Err(e);
            },
        },
        None => None,
    };
    let state = match params.state {
        Some(raw) => match parse_session_state(raw) {
            Ok(st) => Some(st),
            Err(e) => {
                return Err(e);
            },
        },
        None => None,
    };
    Ok(SessionSearch { state, sort_by, sort_order, limit: params.limit, offset: params.offset })
}

/// Pagination parameters of list endpoints.
#[derive(Debug, Clone, Copy, PartialEq, Eq)]
pub struct PaginationParams {
    /// Maximum number of items to return.
    pub limit: Option<usize>,
    /// Number of items to skip before returning results.
    pub offset: Option<usize>,
}

/// Default number of concurrent streams of a new session.
pub const DEFAULT_MAX_CONCURRENT_STREAMS: usize = 10;
/// Default idle timeout of a new session, in seconds.
pub const DEFAULT_SESSION_TIMEOUT_SECONDS: u64 = 3600;
/// Longest accepted session timeout (seven days), in seconds.
pub const MAX_SESSION_TIMEOUT_SECONDS: u64 = 604800;

/// Request to create a new streaming session.
#[derive(Debug, Clone)]
pub struct CreateSessionRequest {
    /// Maximum number of streams the session may host concurrently.
    pub max_concurrent_streams: Option<usize>,
    /// Idle timeout for the session, in seconds.
    pub timeout_seconds: Option<u64>,
    /// Optional human-readable client identifier.
    pub client_info: Option<String>,
}

/// Validated limits of a session to be created.
#[derive(Debug, Clone, Copy, PartialEq, Eq)]
pub struct SessionSettings {
    /// Maximum number of concurrent streams.
    pub max_concurrent_streams: usize,
    /// Idle timeout in seconds.
    pub timeout_seconds: u64,
}

/// The limits a creation request asks for, defaults filled in.
pub open spec fn requested_settings(req: CreateSessionRequest) -> SessionSettings {
    SessionSettings {
        max_concurrent_streams: match req.max_concurrent_streams {
            Some(n) => n,
            None => DEFAULT_MAX_CONCURRENT_STREAMS,
        },
        timeout_seconds: match req.timeout_seconds {
            Some(t) => t,
            None => DEFAULT_SESSION_TIMEOUT_SECONDS,
        },
    }
}

/// Whether the limits of a new session are acceptable.
pub open spec fn settings_valid(s: SessionSettings) -> bool {
    s.max_concurrent_streams > 0 && 0 < s.timeout_seconds <= MAX_SESSION_TIMEOUT_SECONDS
}

/// Fills in the defaults of a session-creation request (10 streams, one hour) and
/// rejects zero streams, a zero timeout and a timeout over seven days with a
/// validation error (answered with 400).
pub fn session_settings(req: &CreateSessionRequest) -> (r: Result<SessionSettings, PjsError>)
    ensures
        settings_valid(requested_settings(*req)) ==> r == Ok::<SessionSettings, PjsError>(
            requested_settings(*req),
        ),
        !settings_valid(requested_settings(*req)) ==> (r matches Err(
            PjsError::Application(ApplicationError::Validation(_)),
        )),
{
    let max_concurrent_streams = match req.max_concurrent_streams {
        Some(n) => n,
        None => DEFAULT_MAX_CONCURRENT_STREAMS,
    };
    let timeout_seconds = match req.timeout_seconds {
        Some(t) => t,
        None => DEFAULT_SESSION_TIMEOUT_SECONDS,
    };
    if max_concurrent_streams == 0 {
        return Err(
            PjsError::Application(
                ApplicationError::Validation(
                    String::from_str("max_concurrent_streams must be greater than zero"),
                ),
            ),
        );
    }
    if timeout_seconds == 0 || timeout_seconds > MAX_SESSION_TIMEOUT_SECONDS {
        return Err(
            PjsError::Application(
                ApplicationError::Validation(
                    String::from_str("timeout_seconds must be between 1 and 604800"),
                ),
            ),
        );
    }
    Ok(SessionSettings { max_concurrent_streams, timeout_seconds })
}

/// Priority threshold that accepts every frame.
pub const BACKGROUND_PRIORITY: u8 = 10;
/// Default number of frames generated per request.
pub const DEFAULT_MAX_FRAMES: usize = 16;
/// Largest number of frames one request may ask for.
pub const MAX_FRAMES_PER_REQUEST: usize = 1000;

/// Request body for generating priority-filtered frames on a stream.
#[derive(Debug, Clone, Copy, PartialEq, Eq)]
pub struct GenerateFramesRequest {
    /// Minimum frame priority to emit.
    pub priority_threshold: Option<u8>,
    /// Maximum number of frames to emit.
    pub max_frames: Option<usize>,
}

impl Default for GenerateFramesRequest {
    fn default() -> (r: Self)
        ensures
            r.priority_threshold is None,
            r.max_frames is None,
    {
        GenerateFramesRequest { priority_threshold: None, max_frames: None }
    }
}

/// Validated frame-generation settings: `(priority threshold, max frames)`.
pub open spec fn requested_generation(req: GenerateFramesRequest) -> (u8, usize) {
    (
        match req.priority_threshold {
            Some(p) => p,
            None => BACKGROUND_PRIORITY,
        },
        match req.max_frames {
            Some(n) => n,
            None => DEFAULT_MAX_FRAMES,
        },
    )
}

/// Fills in the defaults of a frame-generation request (priority 10, 16 frames).
/// Priority 0 is not a priority and is answered with [`PjsError::InvalidPriority`];
/// a frame count of 0 or over 1000 with a validation error; both with 400.
pub fn generation_settings(req: &GenerateFramesRequest) -> (r: Result<(u8, usize), PjsError>)
    ensures
        requested_generation(*req).0 == 0 ==> (r matches Err(PjsError::InvalidPriority(_))),
        requested_generation(*req).0 > 0 && (requested_generation(*req).1 == 0
            || requested_generation(*req).1 > MAX_FRAMES_PER_REQUEST) ==> (r matches Err(
            PjsError::Application(ApplicationError::Validation(_)),
        )),
        requested_generation(*req).0 > 0 && 0 < requested_generation(*req).1
            <= MAX_FRAMES_PER_REQUEST ==> r == Ok::<(u8, usize), PjsError>(
            requested_generation(*req),
        ),
{
    let priority = match req.priority_threshold {
        Some(p) => p,
        None => BACKGROUND_PRIORITY,
    };
    let max_frames = match req.max_frames {
        Some(n) => n,
        None => DEFAULT_MAX_FRAMES,
    };
    if priority == 0 {
        return Err(PjsError::InvalidPriority(String::from_str("priority must be at least 1")));
    }
    if max_frames == 0 || max_frames > MAX_FRAMES_PER_REQUEST {
        return Err(
            PjsError::Application(
                ApplicationError::Validation(
                    String::from_str("max_frames must be between 1 and 1000"),
                ),
            ),
        );
    }
    Ok((priority, max_frames))
}

/// Query parameters for frame listing.
#[derive(Debug, Clone, Copy, PartialEq, Eq)]
pub struct FrameQueryParams {
    /// Return only frames whose sequence number is greater than this value.
    pub since_sequence: Option<u64>,
    /// Return only frames whose priority satisfies this filter.
    pub priority: Option<u8>,
    /// Maximum number of frames to return.
    pub limit: Option<usize>,
}

impl FrameQueryParams {
    /// The priority filter of a frame query; priority 0 is answered with
    /// [`PjsError::InvalidPriority`].
    pub fn priority_filter(&self) -> (r: Result<Option<u8>, PjsError>)
        ensures
            self.priority == Some(0u8) ==> (r matches Err(PjsError::InvalidPriority(_))),
            self.priority != Some(0u8) ==> r == Ok::<Option<u8>, PjsError>(self.priority),
    {
        match self.priority {
            Some(p) => {
                if p == 0 {
                    Err(PjsError::InvalidPriority(String::from_str("priority must be at least 1")))
                } else {
                    Ok(Some(p))
                }
            },
            None => Ok(None),
        }
    }
}

/// Request to start streaming data.
#[derive(Debug)]
pub struct StartStreamRequest {
    /// JSON payload to be decomposed into priority frames.
    pub data: JsonData,
    /// Minimum frame priority to emit; lower-priority frames are dropped.
    pub priority_threshold: Option<u8>,
    /// Maximum number of frames to emit before the stream is closed.
    pub max_frames: Option<usize>,
}

/// Stream response parameters.
#[derive(Debug, Clone)]
pub struct StreamParams {
    /// Identifier of the streaming session.
    pub session_id: String,
    /// Optional minimum priority filter applied to emitted frames.
    pub priority: Option<u8>,
    /// Optional response format selector (for example `json` or `sse`).
    pub format: Option<String>,
}

/// Response body of frame generation.
#[derive(Debug, Clone)]
pub struct GenerateFramesResponse<F> {
    /// Frames produced in this request.
    pub frames: Vec<F>,
    /// Number of frames returned.
    pub frame_count: usize,
}

impl<F> GenerateFramesResponse<F> {
    /// Wraps the generated frames; the count always equals the number of frames.
    pub fn new(frames: Vec<F>) -> (r: Self)
        ensures
            r.frames@ == frames@,
            r.frame_count == frames@.len(),
    {
        let frame_count = frames.len();
        GenerateFramesResponse { frames, frame_count }
    }
}

/// Session health response.
#[derive(Debug, Clone, Copy, PartialEq, Eq)]
pub struct SessionHealthResponse {
    /// Aggregate health flag.
    pub is_healthy: bool,
    /// Number of streams currently active.
    pub active_streams: usize,
    /// Number of streams that terminated with an error.
    pub failed_streams: usize,
    /// Whether the session has passed its expiry instant.
    pub is_expired: bool,
    /// Seconds since the session was created.
    pub uptime_seconds: i64,
}

} // verus!
