//! Request checks and response headers of the HTTP middleware: request size,
//! content validation, client identification for rate limiting, and the header
//! sets the middleware adds.
use vstd::prelude::*;
use vstd::string::*;
use std::time::Duration;
use crate::net::{IpAddress, canonical, spec_duration_from_secs, duration_from_secs};
use crate::text::{
    chars_of, decimal_seq, decimal_string, eq_ignore_ascii_case, eq_ignore_ascii_case_seq,
    find_char, first_index_of, lemma_first_index_of, header_str, header_to_str, parse_usize_chars, parse_usize_seq,
    slice_range, split_chars, split_seq, pieces_view, contains_chars, contains_seq, trim_chars,
    trim_seq, str_eq,
};

verus! {

broadcast use vstd::seq_lib::group_seq_properties;

/// The view of a list of `(name, value)` header pairs.
pub open spec fn pairs_view(v: Seq<(String, String)>) -> Seq<(Seq<char>, Seq<char>)> {
    v.map_values(|p: (String, String)| (p.0@, p.1@))
}

fn pair(name: &str, value: &str) -> (r: (String, String))
    ensures
        r.0@ == name@,
        r.1@ == value@,
{
    (String::from_str(name), String::from_str(value))
}

/// The text of a header value when it is visible ASCII, and of no header.
pub open spec fn header_text(h: Option<&[u8]>) -> Option<Seq<char>> {
    match h {
        Some(b) => header_str(b@),
        None => None,
    }
}

// ---------------------------------------------------------------------------
// Request size and performance headers
// ---------------------------------------------------------------------------

/// Version reported in the `X-PJS-Version` header.
pub const PJS_VERSION: &'static str = "0.4.0";
/// Default cap on `Content-Length`, in bytes (10 MiB).
pub const DEFAULT_MAX_REQUEST_SIZE: usize = 10485760;
/// Status of the answer to an oversized request.
pub const PAYLOAD_TOO_LARGE: u16 = 413;

/// Middleware for performance monitoring and request-size limiting.
#[derive(Debug, Clone, Copy, PartialEq, Eq)]
pub struct PjsMiddleware {
    /// Whether the `X-PJS-Compression` advertisement header is added.
    pub enable_compression: bool,
    /// Whether the `X-PJS-Duration-Ms` and `X-PJS-Version` headers are added.
    pub enable_metrics: bool,
    /// Largest accepted `Content-Length`, in bytes.
    pub max_request_size: usize,
}

impl PjsMiddleware {
    /// Compression and metrics enabled, 10 MiB request cap.
    pub fn new() -> (r: Self)
        ensures
            r.enable_compression,
            r.enable_metrics,
            r.max_request_size == DEFAULT_MAX_REQUEST_SIZE,
    {
        PjsMiddleware {
            enable_compression: true,
            enable_metrics: true,
            max_request_size: DEFAULT_MAX_REQUEST_SIZE,
        }
    }

    /// Toggles the compression advertisement header.
    pub fn with_compression(self, enabled: bool) -> (r: Self)
        ensures
            r == (PjsMiddleware { enable_compression: enabled, ..self }),
    {
        PjsMiddleware { enable_compression: enabled, ..self }
    }

    /// Toggles the duration and version headers.
    pub fn with_metrics(self, enabled: bool) -> (r: Self)
        ensures
            r == (PjsMiddleware { enable_metrics: enabled, ..self }),
    {
        PjsMiddleware { enable_metrics: enabled, ..self }
    }

    /// Sets the largest accepted `Content-Length`.
    pub fn with_max_request_size(self, size: usize) -> (r: Self)
        ensures
            r == (PjsMiddleware { max_request_size: size, ..self }),
    {
        PjsMiddleware { max_request_size: size, ..self }
    }

    /// Whether a request is refused for its size: its `Content-Length` is visible
    /// ASCII, parses as a `usize`, and exceeds the cap. A missing or unparsable
    /// length is let through.
    pub fn rejects_request_size(&self, content_length: Option<&[u8]>) -> (r: bool)
        ensures
            r == (header_text(content_length) matches Some(t) && parse_usize_seq(t) matches Some(
                n,
            ) && n > self.max_request_size),
    {
        match content_length {
            Some(b) => match header_to_str(b) {
                Some(t) => match parse_usize_chars(&t) {
                    Some(n) => n > self.max_request_size,
                    None => false,
                },
                None => false,
            },
            None => false,
        }
    }

    /// Headers added to every response: the elapsed milliseconds and the version
    /// when metrics are enabled, then the compression advertisement when enabled.
    pub fn response_headers(&self, elapsed_ms: u128) -> (r: Vec<(String, String)>)
        ensures
            pairs_view(r@) == (if self.enable_metrics {
                seq![
                    ("X-PJS-Duration-Ms"@, decimal_seq(elapsed_ms as nat)),
                    ("X-PJS-Version"@, PJS_VERSION@),
                ]
            } else {
                Seq::empty()
            }) + (if self.enable_compression {
                seq![("X-PJS-Compression"@, "available"@)]
            } else {
                Seq::empty()
            }),
    {
        let mut v: Vec<(String, String)> = Vec::new();
        if self.enable_metrics {
            v.push((String::from_str("X-PJS-Duration-Ms"), decimal_string(elapsed_ms)));
            v.push(pair("X-PJS-Version", PJS_VERSION));
        }
        if self.enable_compression {
            v.push(pair("X-PJS-Compression", "available"));
        }
        proof {
            assert(pairs_view(v@) =~= (if self.enable_metrics {
                seq![
                    ("X-PJS-Duration-Ms"@, decimal_seq(elapsed_ms as nat)),
                    ("X-PJS-Version"@, PJS_VERSION@),
                ]
            } else {
                Seq::empty()
            }) + (if self.enable_compression {
                seq![("X-PJS-Compression"@, "available"@)]
            } else {
                Seq::empty()
            }));
        }
        v
    }

    /// Wraps an inner service.
    pub fn layer<S>(&self, inner: S) -> (r: PjsMiddlewareService<S>)
        ensures
            r.inner == inner,
            r.config == *self,
    {
        PjsMiddlewareService { inner, config: *self }
    }
}

impl Default for PjsMiddleware {
    fn default() -> (r: Self)
        ensures
            r.enable_compression,
            r.enable_metrics,
            r.max_request_size == DEFAULT_MAX_REQUEST_SIZE,
    {
        PjsMiddleware::new()
    }
}

/// The service produced by [`PjsMiddleware`].
#[derive(Debug, Clone)]
pub struct PjsMiddlewareService<S> {
    /// The wrapped service.
    pub inner: S,
    /// The middleware settings.
    pub config: PjsMiddleware,
}

// ---------------------------------------------------------------------------
// Content validation
// ---------------------------------------------------------------------------

/// Settings of content validation.
#[derive(Debug, Clone)]
pub struct ContentValidationConfig {
    /// Largest accepted `Content-Length`, in bytes.
    pub max_content_length: usize,
    /// Accepted media types, compared ignoring ASCII case.
    pub allowed_content_types: Vec<String>,
    /// Whether `POST`, `PUT` and `PATCH` must carry a `Content-Type`.
    pub require_content_type: bool,
}

impl Default for ContentValidationConfig {
    /// 10 MiB, `application/json` and `application/pjs+json`, content type required.
    fn default() -> (r: Self)
        ensures
            r.max_content_length == DEFAULT_MAX_REQUEST_SIZE,
            r.allowed_content_types@.len() == 2,
            r.allowed_content_types@[0]@ == "application/json"@,
            r.allowed_content_types@[1]@ == "application/pjs+json"@,
            r.require_content_type,
    {
        let mut types: Vec<String> = Vec::new();
        types.push(String::from_str("application/json"));
        types.push(String::from_str("application/pjs+json"));
        ContentValidationConfig {
            max_content_length: DEFAULT_MAX_REQUEST_SIZE,
            allowed_content_types: types,
            require_content_type: true,
        }
    }
}

/// Outcome of content validation.
#[derive(Debug, Clone, PartialEq, Eq)]
pub enum ContentValidation {
    /// The request may proceed.
    Accept,
    /// 413: the declared length exceeds the cap.
    PayloadTooLarge { max_size: usize, received_size: usize },
    /// 400: the `Content-Length` is not a decimal `usize`.
    InvalidContentLength,
    /// 400: the `Content-Length` is not visible ASCII.
    InvalidContentLengthEncoding,
    /// 415: the media type is not accepted; `received` is the header text (empty
    /// when it is not visible ASCII).
    UnsupportedMediaType { received: String },
    /// 415: a body-carrying request has no `Content-Type`.
    MissingContentType,
}

impl ContentValidation {
    /// The HTTP status of this outcome (200 for `Accept`).
    pub fn status(&self) -> (r: u16)
        ensures
            self is Accept ==> r == 200,
            self is PayloadTooLarge ==> r == 413,
            (self is InvalidContentLength || self is InvalidContentLengthEncoding) ==> r == 400,
            (self is UnsupportedMediaType || self is MissingContentType) ==> r == 415,
    {
        match self {
            ContentValidation::Accept => 200,
            ContentValidation::PayloadTooLarge { .. } => 413,
            ContentValidation::InvalidContentLength => 400,
            ContentValidation::InvalidContentLengthEncoding => 400,
            ContentValidation::UnsupportedMediaType { .. } => 415,
            ContentValidation::MissingContentType => 415,
        }
    }
}

/// The media type of a `Content-Type` text: what precedes the first `;`, trimmed.
pub open spec fn base_media_type(t: Seq<char>) -> Seq<char> {
    match first_index_of(t, ';') {
        Some(i) => trim_seq(t.subrange(0, i)),
        None => trim_seq(t),
    }
}

/// Whether `m` equals one of `allowed` ignoring ASCII case.
pub open spec fn media_type_allowed(m: Seq<char>, allowed: Seq<String>) -> bool {
    exists|i: int| 0 <= i < allowed.len() && eq_ignore_ascii_case_seq(m, (#[trigger] allowed[i])@)
}

/// Whether a method carries a body that needs a `Content-Type`.
pub open spec fn is_body_method(m: Seq<char>) -> bool {
    m == "POST"@ || m == "PUT"@ || m == "PATCH"@
}

/// What content validation answers before looking at the media type.
pub open spec fn length_outcome(max: usize, content_length: Option<&[u8]>) -> Option<ContentValidation> {
    match content_length {
        Some(b) => match header_str(b@) {
            None => Some(ContentValidation::InvalidContentLengthEncoding),
            Some(t) => match parse_usize_seq(t) {
                None => Some(ContentValidation::InvalidContentLength),
                Some(n) => if n > max {
                    Some(ContentValidation::PayloadTooLarge { max_size: max, received_size: n as usize })
                } else {
                    None
                },
            },
        },
        None => None,
    }
}

fn base_media_type_exec(t: &[char]) -> (r: Vec<char>)
    ensures
        r@ == base_media_type(t@),
{
    proof {
        lemma_first_index_of(t@, ';');
    }
    match find_char(t, ';') {
        Some(i) => {
            let head = slice_range(t, 0, i);
            trim_chars(&head)
        },
        None => trim_chars(t),
    }
}

fn media_type_in(m: &[char], allowed: &Vec<String>) -> (r: bool)
    ensures
        r == media_type_allowed(m@, allowed@),
{
    let n = allowed.len();
    let mut i: usize = 0;
    while i < n
        invariant
            n == allowed@.len(),
            i <= n,
            forall|j: int| 0 <= j < i ==> !eq_ignore_ascii_case_seq(m@, (#[trigger] allowed@[j])@),
        decreases n - i,
    {
        let a = chars_of(allowed[i].as_str());
        if eq_ignore_ascii_case(m, &a) {
            return true;
        }
        i = i + 1;
    }
    false
}

/// Validates the `Content-Length` and `Content-Type` of a request.
///
/// A `Content-Length` that is not visible ASCII, not a decimal `usize`, or over
/// the cap is refused (in that order of checks). Then, when a content type is
/// required and the method is `POST`, `PUT` or `PATCH`, a missing `Content-Type`
/// is refused, and so is one whose media type (before any `;`, trimmed) is none
/// of the accepted types ignoring ASCII case.
pub fn validate_content(
    config: &ContentValidationConfig,
    method: &str,
    content_length: Option<&[u8]>,
    content_type: Option<&[u8]>,
) -> (r: ContentValidation)
    ensures
        length_outcome(config.max_content_length, content_length) matches Some(o) ==> r == o,
        length_outcome(config.max_content_length, content_length) is None ==> {
            if config.require_content_type && is_body_method(method@) {
                match content_type {
                    None => r == ContentValidation::MissingContentType,
                    Some(b) => {
                        let text = match header_str(b@) {
                            Some(t) => t,
                            None => Seq::<char>::empty(),
                        };
                        if media_type_allowed(base_media_type(text), config.allowed_content_types@) {
                            r == ContentValidation::Accept
                        } else {
                            r matches ContentValidation::UnsupportedMediaType { received } && received@
                                == text
                        }
                    },
                }
            } else {
                r == ContentValidation::Accept
            }
        },
{
    match content_length {
        Some(b) => match header_to_str(b) {
            None => {
                return ContentValidation::InvalidContentLengthEncoding;
            },
            Some(t) => match parse_usize_chars(&t) {
                None => {
                    return ContentValidation::InvalidContentLength;
                },
                Some(n) => {
                    if n > config.max_content_length {
                        return ContentValidation::PayloadTooLarge {
                            max_size: config.max_content_length,
                            received_size: n,
                        };
                    }
                },
            },
        },
        None => {},
    }
    let body_method = str_eq(method, "POST") || str_eq(method, "PUT") || str_eq(method, "PATCH");
    if config.require_content_type && body_method {
        match content_type {
            None => {
                return ContentValidation::MissingContentType;
            },
            Some(b) => {
                let text: Vec<char> = match header_to_str(b) {
                    Some(t) => t,
                    None => Vec::new(),
                };
                let base = base_media_type_exec(&text);
                if !media_type_in(&base, &config.allowed_content_types) {
                    let mut received = String::new();
                    let mut k: usize = 0;
                    while k < text.len()
                        invariant
                            k <= text@.len(),
                            received@ == text@.subrange(0, k as int),
                        decreases text@.len() - k,
                    {
                        received.append(char_str(text[k]).as_str());
                        k = k + 1;
                    }
                    assert(received@ =~= text@);
                    return ContentValidation::UnsupportedMediaType { received };
                }
            },
        }
    }
    ContentValidation::Accept
}

fn char_str(c: char) -> (r: String)
    ensures
        r@ == seq![c],
{
    let v: Vec<char> = vec![c];
    let s = crate::text::string_of(&v);
    assert(v@ =~= seq![c]);
    s
}

// ---------------------------------------------------------------------------
// Header-only middleware
// ---------------------------------------------------------------------------

/// Whether an `Upgrade` header asks for a WebSocket (`websocket`, in any ASCII
/// case).
pub fn is_websocket_upgrade(upgrade: Option<&[u8]>) -> (r: bool)
    ensures
        r == (header_text(upgrade) matches Some(t) && eq_ignore_ascii_case_seq(t, "websocket"@)),
{
    match upgrade {
        Some(b) => match header_to_str(b) {
            Some(t) => {
                let w = chars_of("websocket");
                eq_ignore_ascii_case(&t, &w)
            },
            None => false,
        },
        None => false,
    }
}

/// Status of the answer to a WebSocket upgrade through the HTTP middleware.
pub const WEBSOCKET_UPGRADE_STATUS: u16 = 501;
/// Body of the answer to a WebSocket upgrade through the HTTP middleware.
pub const WEBSOCKET_UPGRADE_BODY: &'static str = "WebSocket support coming soon";

/// Whether an `Accept-Encoding` header admits gzip or deflate.
pub fn accepts_compression(accept_encoding: Option<&[u8]>) -> (r: bool)
    ensures
        r == (header_text(accept_encoding) matches Some(t) && (contains_seq(t, "gzip"@)
            || contains_seq(t, "deflate"@))),
{
    match accept_encoding {
        Some(b) => match header_to_str(b) {
            Some(t) => {
                let g = chars_of("gzip");
                let d = chars_of("deflate");
                contains_chars(&t, &g) || contains_chars(&t, &d)
            },
            None => false,
        },
        None => false,
    }
}

/// Header added when the client accepts compression.
pub fn compression_available_header() -> (r: (String, String))
    ensures
        r.0@ == "X-PJS-Compression-Available"@,
        r.1@ == "gzip,deflate"@,
{
    pair("X-PJS-Compression-Available", "gzip,deflate")
}

/// Header added by the health-check middleware.
pub fn health_header() -> (r: (String, String))
    ensures
        r.0@ == "X-PJS-Health"@,
        r.1@ == "healthy"@,
{
    pair("X-PJS-Health", "healthy")
}

/// CORS headers of the streaming endpoints.
pub fn pjs_cors_headers() -> (r: Vec<(String, String)>)
    ensures
        pairs_view(r@) == seq![
            ("access-control-allow-origin"@, "*"@),
            ("access-control-allow-methods"@, "GET,POST,OPTIONS"@),
            ("access-control-allow-headers"@, "Content-Type,Authorization,X-PJS-Priority,X-PJS-Format"@),
            ("access-control-expose-headers"@, "X-PJS-Duration-Ms,X-PJS-Version,X-PJS-Stream-Id"@),
        ],
{
    let mut v: Vec<(String, String)> = Vec::new();
    v.push(pair("access-control-allow-origin", "*"));
    v.push(pair("access-control-allow-methods", "GET,POST,OPTIONS"));
    v.push(pair("access-control-allow-headers", "Content-Type,Authorization,X-PJS-Priority,X-PJS-Format"));
    v.push(pair("access-control-expose-headers", "X-PJS-Duration-Ms,X-PJS-Version,X-PJS-Stream-Id"));
    assert(pairs_view(v@) =~= seq![
        ("access-control-allow-origin"@, "*"@),
        ("access-control-allow-methods"@, "GET,POST,OPTIONS"@),
        ("access-control-allow-headers"@, "Content-Type,Authorization,X-PJS-Priority,X-PJS-Format"@),
        ("access-control-expose-headers"@, "X-PJS-Duration-Ms,X-PJS-Version,X-PJS-Stream-Id"@),
    ]);
    v
}

/// Security headers added to every response.
pub fn security_headers() -> (r: Vec<(String, String)>)
    ensures
        pairs_view(r@) == seq![
            ("X-Content-Type-Options"@, "nosniff"@),
            ("X-Frame-Options"@, "DENY"@),
            ("Content-Security-Policy"@, "default-src 'self'"@),
        ],
{
    let mut v: Vec<(String, String)> = Vec::new();
    v.push(pair("X-Content-Type-Options", "nosniff"));
    v.push(pair("X-Frame-Options", "DENY"));
    v.push(pair("Content-Security-Policy", "default-src 'self'"));
    assert(pairs_view(v@) =~= seq![
        ("X-Content-Type-Options"@, "nosniff"@),
        ("X-Frame-Options"@, "DENY"@),
        ("Content-Security-Policy"@, "default-src 'self'"@),
    ]);
    v
}

// ---------------------------------------------------------------------------
// Circuit breaker settings
// ---------------------------------------------------------------------------

/// Circuit breaker settings.
#[derive(Debug, Clone, Copy, PartialEq, Eq)]
pub struct CircuitBreakerMiddleware {
    /// Consecutive failures that open the circuit.
    pub failure_threshold: usize,
    /// Cool-down before the circuit is tried again, in seconds.
    pub recovery_timeout_seconds: u64,
}

impl CircuitBreakerMiddleware {
    /// Five failures, thirty seconds of recovery.
    pub fn new() -> (r: Self)
        ensures
            r.failure_threshold == 5,
            r.recovery_timeout_seconds == 30,
    {
        CircuitBreakerMiddleware { failure_threshold: 5, recovery_timeout_seconds: 30 }
    }

    /// Sets the failure threshold.
    pub fn with_failure_threshold(self, threshold: usize) -> (r: Self)
        ensures
            r == (CircuitBreakerMiddleware { failure_threshold: threshold, ..self }),
    {
        CircuitBreakerMiddleware { failure_threshold: threshold, ..self }
    }

    /// Sets the recovery timeout.
    pub fn with_recovery_timeout(self, seconds: u64) -> (r: Self)
        ensures
            r == (CircuitBreakerMiddleware { recovery_timeout_seconds: seconds, ..self }),
    {
        CircuitBreakerMiddleware { recovery_timeout_seconds: seconds, ..self }
    }
}

impl Default for CircuitBreakerMiddleware {
    fn default() -> (r: Self)
        ensures
            r.failure_threshold == 5,
            r.recovery_timeout_seconds == 30,
    {
        CircuitBreakerMiddleware::new()
    }
}

// ---------------------------------------------------------------------------
// Rate limiting: configuration and client identification
// ---------------------------------------------------------------------------

/// Whether `ip` equals the canonical form of some entry of `proxies`.
pub open spec fn proxies_contain(proxies: Seq<IpAddress>, ip: IpAddress) -> bool {
    exists|i: int| 0 <= i < proxies.len() && canonical(#[trigger] proxies[i]) == ip
}

/// Allowlist of reverse proxies whose `X-Forwarded-For` / `X-Real-IP` headers are
/// trusted.
#[derive(Debug, Clone)]
pub struct TrustedProxyConfig {
    /// Peer addresses of the trusted proxies.
    pub trusted_proxies: Vec<IpAddress>,
}

impl TrustedProxyConfig {
    /// An allowlist of proxy addresses.
    pub fn new(trusted_proxies: Vec<IpAddress>) -> (r: Self)
        ensures
            r.trusted_proxies@ == trusted_proxies@,
    {
        TrustedProxyConfig { trusted_proxies }
    }

    /// Whether the canonical address `ip` is a trusted proxy; entries are
    /// canonicalized before comparison, so an IPv4 proxy also matches in its
    /// IPv4-mapped IPv6 form.
    pub fn contains(&self, ip: IpAddress) -> (r: bool)
        ensures
            r == proxies_contain(self.trusted_proxies@, ip),
    {
        let n = self.trusted_proxies.len();
        let mut i: usize = 0;
        while i < n
            invariant
                n == self.trusted_proxies@.len(),
                i <= n,
                forall|j: int| 0 <= j < i ==> canonical(#[trigger] self.trusted_proxies@[j]) != ip,
            decreases n - i,
        {
            if self.trusted_proxies[i].to_canonical() == ip {
                return true;
            }
            i = i + 1;
        }
        false
    }
}

/// Rate-limiting settings of the HTTP endpoints.
#[derive(Debug, Clone)]
pub struct RateLimitConfig {
    /// Requests allowed per window.
    pub max_requests_per_window: u32,
    /// Length of a window.
    pub window_duration: Duration,
    /// Proxies whose forwarding headers are trusted; `None` keys on the peer.
    pub trusted_proxies: Option<TrustedProxyConfig>,
}

impl Default for RateLimitConfig {
    /// 100 requests per 60-second window, keyed on the peer address.
    fn default() -> (r: Self)
        ensures
            r.max_requests_per_window == 100,
            r.window_duration == spec_duration_from_secs(60),
            r.trusted_proxies is None,
    {
        RateLimitConfig {
            max_requests_per_window: 100,
            window_duration: duration_from_secs(60),
            trusted_proxies: None,
        }
    }
}

impl RateLimitConfig {
    /// `requests_per_minute` requests per 60-second window.
    pub fn new(requests_per_minute: u32) -> (r: Self)
        ensures
            r.max_requests_per_window == requests_per_minute,
            r.window_duration == spec_duration_from_secs(60),
            r.trusted_proxies is None,
    {
        RateLimitConfig {
            max_requests_per_window: requests_per_minute,
            window_duration: duration_from_secs(60),
            trusted_proxies: None,
        }
    }

    /// Sets the window length.
    pub fn with_window(self, duration: Duration) -> (r: Self)
        ensures
            r.max_requests_per_window == self.max_requests_per_window,
            r.window_duration == duration,
            r.trusted_proxies == self.trusted_proxies,
    {
        RateLimitConfig { window_duration: duration, ..self }
    }

    /// Trusts the forwarding headers of the given proxies.
    pub fn with_trusted_proxies(self, config: TrustedProxyConfig) -> (r: Self)
        ensures
            r.max_requests_per_window == self.max_requests_per_window,
            r.window_duration == self.window_duration,
            r.trusted_proxies == Some(config),
    {
        RateLimitConfig { trusted_proxies: Some(config), ..self }
    }
}

/// The trimmed entries of `X-Forwarded-For` header lines, in line order; lines
/// that are not visible ASCII are skipped, the others are split at commas.
pub open spec fn forwarded_entries_spec(lines: Seq<Seq<u8>>) -> Seq<Seq<char>>
    decreases lines.len(),
{
    if lines.len() == 0 {
        Seq::empty()
    } else {
        let rest = forwarded_entries_spec(lines.drop_last());
        match header_str(lines.last()) {
            Some(t) => rest + split_seq(t, ',').map_values(|p: Seq<char>| trim_seq(p)),
            None => rest,
        }
    }
}

/// The views of a list of header lines.
pub open spec fn lines_view(lines: Seq<&[u8]>) -> Seq<Seq<u8>> {
    lines.map_values(|l: &[u8]| l@)
}

/// Splits `X-Forwarded-For` header lines into trimmed entries.
pub fn forwarded_entries(lines: &[&[u8]]) -> (r: Vec<Vec<char>>)
    ensures
        pieces_view(r@) == forwarded_entries_spec(lines_view(lines@)),
{
    let mut out: Vec<Vec<char>> = Vec::new();
    let n = lines.len();
    let mut i: usize = 0;
    while i < n
        invariant
            n == lines@.len(),
            i <= n,
            pieces_view(out@) == forwarded_entries_spec(lines_view(lines@.subrange(0, i as int))),
        decreases n - i,
    {
        proof {
            assert(lines_view(lines@.subrange(0, i + 1)).drop_last() =~= lines_view(
                lines@.subrange(0, i as int),
            ));
            assert(lines_view(lines@.subrange(0, i + 1)).last() == lines@[i as int]@);
        }
        match header_to_str(lines[i]) {
            Some(t) => {
                let pieces = split_chars(&t, ',');
                let ghost before = pieces_view(out@);
                let m = pieces.len();
                let mut k: usize = 0;
                while k < m
                    invariant
                        m == pieces@.len(),
                        k <= m,
                        pieces_view(out@) == before + pieces_view(pieces@).subrange(
                            0,
                            k as int,
                        ).map_values(|p: Seq<char>| trim_seq(p)),
                    decreases m - k,
                {
                    let piece = trim_chars(&pieces[k]);
                    let ghost old_out = out@;
                    out.push(piece);
                    proof {
                        assert(pieces_view(pieces@)[k as int] == pieces@[k as int]@);
                        assert(pieces_view(out@) =~= pieces_view(old_out).push(piece@));
                        assert(pieces_view(out@) =~= before + pieces_view(pieces@).subrange(
                            0,
                            k + 1,
                        ).map_values(|p: Seq<char>| trim_seq(p)));
                    }
                    k = k + 1;
                }
                proof {
                    assert(pieces_view(pieces@).subrange(0, m as int) =~= pieces_view(pieces@));
                }
            },
            None => {},
        }
        i = i + 1;
    }
    assert(lines@.subrange(0, n as int) =~= lines@);
    out
}

/// The right-to-left walk over parsed `X-Forwarded-For` entries: the first entry
/// (from the right) that is not a trusted proxy, canonicalized; the walk stops at
/// the first entry that is not an address.
pub open spec fn forwarded_walk(parsed: Seq<Option<IpAddress>>, proxies: Seq<IpAddress>) -> Option<IpAddress>
    decreases parsed.len(),
{
    if parsed.len() == 0 {
        None
    } else {
        match parsed.last() {
            None => None,
            Some(ip) => if !proxies_contain(proxies, canonical(ip)) {
                Some(canonical(ip))
            } else {
                forwarded_walk(parsed.drop_last(), proxies)
            },
        }
    }
}

/// The client address claimed by a trusted proxy: the forwarded walk's result,
/// else the canonical `X-Real-IP`.
pub open spec fn forwarded_ip(
    parsed: Seq<Option<IpAddress>>,
    real_ip: Option<IpAddress>,
    proxies: Seq<IpAddress>,
) -> Option<IpAddress> {
    match forwarded_walk(parsed, proxies) {
        Some(ip) => Some(ip),
        None => match real_ip {
            Some(ip) => Some(canonical(ip)),
            None => None,
        },
    }
}

/// The client address behind a trusted proxy, from the parsed `X-Forwarded-For`
/// entries (left to right; `None` where an entry is not an address) and the parsed
/// `X-Real-IP`. Entries are read right to left, skipping trusted proxies; the walk
/// fails closed at the first entry that is not an address and then falls back to
/// `X-Real-IP`.
pub fn extract_forwarded_ip(
    parsed: &[Option<IpAddress>],
    real_ip: Option<IpAddress>,
    proxies: &TrustedProxyConfig,
) -> (r: Option<IpAddress>)
    ensures
        r == forwarded_ip(parsed@, real_ip, proxies.trusted_proxies@),
{
    let mut j: usize = parsed.len();
    assert(parsed@.subrange(0, j as int) =~= parsed@);
    while j > 0
        invariant
            j <= parsed@.len(),
            forwarded_walk(parsed@, proxies.trusted_proxies@) == forwarded_walk(
                parsed@.subrange(0, j as int),
                proxies.trusted_proxies@,
            ),
        ensures
            forwarded_walk(parsed@, proxies.trusted_proxies@) is None,
        decreases j,
    {
        assert(parsed@.subrange(0, j as int).drop_last() =~= parsed@.subrange(0, j - 1));
        match parsed[j - 1] {
            None => {
                break;
            },
            Some(ip) => {
                let c = ip.to_canonical();
                if !proxies.contains(c) {
                    return Some(c);
                }
            },
        }
        j = j - 1;
    }
    match real_ip {
        Some(ip) => Some(ip.to_canonical()),
        None => None,
    }
}

/// The address the rate limiter keys a request on.
pub open spec fn client_ip(
    peer: Option<IpAddress>,
    trusted: Option<TrustedProxyConfig>,
    parsed: Seq<Option<IpAddress>>,
    real_ip: Option<IpAddress>,
) -> IpAddress {
    match peer {
        None => IpAddress::localhost_v4(),
        Some(p) => {
            let c = canonical(p);
            match trusted {
                Some(t) => if proxies_contain(t.trusted_proxies@, c) && forwarded_ip(
                    parsed,
                    real_ip,
                    t.trusted_proxies@,
                ) is Some {
                    forwarded_ip(parsed, real_ip, t.trusted_proxies@)->0
                } else {
                    c
                },
                None => c,
            }
        },
    }
}

/// The address the rate limiter keys a request on: the canonical peer address,
/// or, only when the peer is a trusted proxy, the client address it forwards.
/// Without a known peer every request shares the key `127.0.0.1`.
pub fn extract_client_ip(
    peer: Option<IpAddress>,
    trusted: Option<&TrustedProxyConfig>,
    parsed: &[Option<IpAddress>],
    real_ip: Option<IpAddress>,
) -> (r: IpAddress)
    ensures
        r == client_ip(
            peer,
            match trusted {
                Some(t) => Some(*t),
                None => None,
            },
            parsed@,
            real_ip,
        ),
{
    match peer {
        None => IpAddress::V4(0x7f00_0001u32),
        Some(p) => {
            let c = p.to_canonical();
            match trusted {
                Some(t) => {
                    if t.contains(c) {
                        match extract_forwarded_ip(parsed, real_ip, t) {
                            Some(f) => f,
                            None => c,
                        }
                    } else {
                        c
                    }
                },
                None => c,
            }
        },
    }
}

/// A forwarding header never moves the key of an untrusted peer.
pub proof fn lemma_untrusted_peer_keys_on_itself(
    p: IpAddress,
    trusted: Option<TrustedProxyConfig>,
    parsed: Seq<Option<IpAddress>>,
    real_ip: Option<IpAddress>,
)
    requires
        match trusted {
            Some(t) => !proxies_contain(t.trusted_proxies@, canonical(p)),
            None => true,
        },
    ensures
        client_ip(Some(p), trusted, parsed, real_ip) == canonical(p),
{
}

/// Status of the answer to a rate-limited request.
pub const TOO_MANY_REQUESTS: u16 = 429;
/// Seconds a rate-limited client is told to wait.
pub const RETRY_AFTER_SECS: u64 = 60;

/// `X-RateLimit-*` headers for a client allowed `limit` requests per window with
/// `remaining` of them left and, when the clock is available, a reset time sixty
/// seconds from now (Unix seconds).
pub fn rate_limit_headers(limit: u32, remaining: u32, now_secs: Option<u64>) -> (r: Vec<
    (String, String),
>)
    requires
        now_secs matches Some(t) ==> t <= u64::MAX - 60,
    ensures
        pairs_view(r@) == seq![
            ("X-RateLimit-Limit"@, decimal_seq(limit as nat)),
            ("X-RateLimit-Remaining"@, decimal_seq(remaining as nat)),
        ] + match now_secs {
            Some(t) => seq![("X-RateLimit-Reset"@, decimal_seq((t + 60) as nat))],
            None => Seq::empty(),
        },
{
    let mut v: Vec<(String, String)> = Vec::new();
    v.push((String::from_str("X-RateLimit-Limit"), decimal_string(limit as u128)));
    v.push((String::from_str("X-RateLimit-Remaining"), decimal_string(remaining as u128)));
    match now_secs {
        Some(t) => {
            let reset = t + 60;
            v.push((String::from_str("X-RateLimit-Reset"), decimal_string(reset as u128)));
        },
        None => {},
    }
    proof {
        assert(pairs_view(v@) =~= seq![
            ("X-RateLimit-Limit"@, decimal_seq(limit as nat)),
            ("X-RateLimit-Remaining"@, decimal_seq(remaining as nat)),
        ] + match now_secs {
            Some(t) => seq![("X-RateLimit-Reset"@, decimal_seq((t + 60) as nat))],
            None => Seq::empty(),
        });
    }
    v
}


/// Every configured media type is accepted: a media type equal to any entry of
/// the list, in any position, passes.
pub proof fn lemma_every_listed_media_type_passes(allowed: Seq<String>, i: int)
    requires
        0 <= i < allowed.len(),
    ensures
        media_type_allowed(allowed[i]@, allowed),
{
    assert(eq_ignore_ascii_case_seq(allowed[i]@, allowed[i]@));
}

/// Only ASCII case is ignored: a media type that differs from an accepted one in
/// the case of ASCII letters alone is accepted too, and one that is accepted
/// matches some entry character by character up to ASCII case.
pub proof fn lemma_media_type_case_insensitive(m: Seq<char>, n: Seq<char>, allowed: Seq<String>)
    requires
        m.len() == n.len(),
        forall|k: int| 0 <= k < m.len() ==> crate::text::ascii_lower_code(#[trigger] m[k])
            == crate::text::ascii_lower_code(n[k]),
    ensures
        media_type_allowed(m, allowed) == media_type_allowed(n, allowed),
        media_type_allowed(m, allowed) ==> exists|i: int|
            0 <= i < allowed.len() && (#[trigger] allowed[i])@.len() == m.len() && forall|k: int|
                0 <= k < m.len() ==> crate::text::ascii_lower_code(#[trigger] m[k])
                    == crate::text::ascii_lower_code(allowed[i]@[k]),
{
    if media_type_allowed(m, allowed) {
        let i = choose|i: int| 0 <= i < allowed.len() && eq_ignore_ascii_case_seq(m, (#[trigger] allowed[i])@);
        assert forall|k: int| 0 <= k < n.len() implies crate::text::ascii_lower_code(#[trigger] n[k])
            == crate::text::ascii_lower_code(allowed[i]@[k]) by {
            assert(crate::text::ascii_lower_code(m[k]) == crate::text::ascii_lower_code(n[k]));
            assert(crate::text::ascii_lower_code(m[k]) == crate::text::ascii_lower_code(allowed[i]@[k]));
        }
        assert(eq_ignore_ascii_case_seq(n, allowed[i]@));
    }
    if media_type_allowed(n, allowed) {
        let i = choose|i: int| 0 <= i < allowed.len() && eq_ignore_ascii_case_seq(n, (#[trigger] allowed[i])@);
        assert forall|k: int| 0 <= k < m.len() implies crate::text::ascii_lower_code(#[trigger] m[k])
            == crate::text::ascii_lower_code(allowed[i]@[k]) by {
            assert(crate::text::ascii_lower_code(m[k]) == crate::text::ascii_lower_code(n[k]));
            assert(crate::text::ascii_lower_code(n[k]) == crate::text::ascii_lower_code(allowed[i]@[k]));
        }
        assert(eq_ignore_ascii_case_seq(m, allowed[i]@));
    }
}

/// The order of the accepted media types does not matter, and adding one never
/// refuses a media type that was accepted.
pub proof fn lemma_media_type_list_order_free(m: Seq<char>, a: Seq<String>, b: Seq<String>)
    ensures
        media_type_allowed(m, a + b) == media_type_allowed(m, b + a),
        media_type_allowed(m, a) ==> media_type_allowed(m, a + b),
        media_type_allowed(m, b) ==> media_type_allowed(m, a + b),
{
    if media_type_allowed(m, a) {
        let i = choose|i: int| 0 <= i < a.len() && eq_ignore_ascii_case_seq(m, (#[trigger] a[i])@);
        assert((a + b)[i] == a[i]);
        assert((b + a)[b.len() + i] == a[i]);
    }
    if media_type_allowed(m, b) {
        let i = choose|i: int| 0 <= i < b.len() && eq_ignore_ascii_case_seq(m, (#[trigger] b[i])@);
        assert((a + b)[a.len() + i] == b[i]);
        assert((b + a)[i] == b[i]);
    }
    if media_type_allowed(m, a + b) {
        let i = choose|i: int| 0 <= i < (a + b).len() && eq_ignore_ascii_case_seq(m, (#[trigger] (a + b)[i])@);
        if i < a.len() {
            assert((a + b)[i] == a[i]);
            assert((b + a)[b.len() + i] == a[i]);
        } else {
            assert((a + b)[i] == b[i - a.len()]);
            assert((b + a)[i - a.len()] == b[i - a.len()]);
        }
    }
    if media_type_allowed(m, b + a) {
        let i = choose|i: int| 0 <= i < (b + a).len() && eq_ignore_ascii_case_seq(m, (#[trigger] (b + a)[i])@);
        if i < b.len() {
            assert((b + a)[i] == b[i]);
            assert((a + b)[a.len() + i] == b[i]);
        } else {
            assert((b + a)[i] == a[i - b.len()]);
            assert((a + b)[i - b.len()] == a[i - b.len()]);
        }
    }
}

} // verus!
