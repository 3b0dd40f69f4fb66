//! Server configuration and the CORS origin policy built from it.
use vstd::prelude::*;
use vstd::string::*;
use crate::errors::PjsError;
use crate::text::str_eq;

verus! {

/// Whether a character may stand in an HTTP header value: a horizontal tab or any
/// character from space upward except DEL (every byte of a multi-byte UTF-8
/// character is at least 0x80 and so allowed).
pub open spec fn valid_header_char(c: char) -> bool {
    c == '\t' || (c as u32 >= 32 && c as u32 != 127)
}

/// Whether every character of `s` may stand in an HTTP header value.
pub open spec fn valid_header_text(s: Seq<char>) -> bool {
    forall|i: int| 0 <= i < s.len() ==> valid_header_char(#[trigger] s[i])
}

/// What `format!("{:?}", s)` writes for a string: the quoted, escaped form.
pub uninterp spec fn spec_str_debug(s: Seq<char>) -> Seq<char>;

/// Parses a header value with `http::HeaderValue::from_str` (through axum's
/// re-export), which accepts exactly the texts whose bytes are all a tab or at
/// least 32 and not 127, and otherwise fails with an error that displays as
/// "failed to parse header value".
#[verifier::external_body]
fn parse_header_value(text: &str) -> (r: Result<(), String>)
    ensures
        r is Ok <==> valid_header_text(text@),
        r matches Err(m) ==> m@ == "failed to parse header value"@,
{
    match axum::http::HeaderValue::from_str(text) {
        Ok(_) => Ok(()),
        Err(e) => Err(e.to_string()),
    }
}

/// The `Debug` form of a string (`format!("{:?}", s)`), named by [`spec_str_debug`].
#[verifier::external_body]
fn str_debug(s: &str) -> (r: String)
    ensures
        r@ == spec_str_debug(s@),
{
    format!("{:?}", s)
}

/// HTTP server configuration: the origins the CORS layer admits.
///
/// `[]` denies every cross-origin request, `["*"]` admits any origin, and a list
/// of explicit origins admits exactly those (compared byte for byte). Mixing `*`
/// with explicit origins is rejected when the policy is built.
#[derive(Debug, Clone)]
pub struct HttpServerConfig {
    /// Origins admitted by the CORS layer.
    pub allowed_origins: Vec<String>,
}

impl HttpServerConfig {
    /// A configuration with an explicit list of allowed origins.
    pub fn new(allowed_origins: Vec<String>) -> (r: Self)
        ensures
            r.allowed_origins@ == allowed_origins@,
    {
        HttpServerConfig { allowed_origins }
    }
}

impl Default for HttpServerConfig {
    /// Local-development default: admits `http://localhost:3000` only.
    fn default() -> (r: Self)
        ensures
            r.allowed_origins@.len() == 1,
            r.allowed_origins@[0]@ == "http://localhost:3000"@,
    {
        let mut v: Vec<String> = Vec::new();
        v.push(String::from_str("http://localhost:3000"));
        HttpServerConfig { allowed_origins: v }
    }
}

/// Which origins a CORS layer admits.
#[derive(Debug, Clone)]
pub enum AllowedOrigins {
    /// No cross-origin request is admitted.
    DenyAll,
    /// Any origin is admitted.
    Any,
    /// Exactly these origins are admitted, compared byte for byte.
    List(Vec<String>),
}

/// Methods the CORS layer allows.
pub const CORS_ALLOWED_METHODS: [&'static str; 2] = ["GET", "POST"];
/// Request headers the CORS layer allows.
pub const CORS_ALLOWED_HEADERS: [&'static str; 2] = ["content-type", "authorization"];
/// How long a browser may cache a preflight answer, in seconds.
pub const CORS_MAX_AGE_SECS: u64 = 3600;

/// Whether `o` is the wildcard origin `*`.
pub open spec fn is_wildcard(o: String) -> bool {
    o@ == "*"@
}

/// Whether some origin is the wildcard.
pub open spec fn has_wildcard(origins: Seq<String>) -> bool {
    exists|i: int| 0 <= i < origins.len() && is_wildcard(#[trigger] origins[i])
}

/// Whether some origin is not the wildcard.
pub open spec fn has_explicit(origins: Seq<String>) -> bool {
    exists|i: int| 0 <= i < origins.len() && !is_wildcard(#[trigger] origins[i])
}

/// Whether `k` is the first origin that is not a valid header value.
pub open spec fn first_invalid_origin(origins: Seq<String>, k: int) -> bool {
    &&& 0 <= k < origins.len()
    &&& !valid_header_text(origins[k]@)
    &&& forall|j: int| 0 <= j < k ==> valid_header_text(#[trigger] origins[j]@)
}

/// Whether every origin is a valid header value.
pub open spec fn all_origins_valid(origins: Seq<String>) -> bool {
    forall|j: int| 0 <= j < origins.len() ==> valid_header_text(#[trigger] origins[j]@)
}

/// The text of the error for the mixed wildcard configuration.
pub open spec fn mixed_wildcard_message() -> Seq<char> {
    "CORS: wildcard '*' cannot be combined with explicit origins"@
}

/// The text of the error for an origin that is not a valid header value.
pub open spec fn invalid_origin_message(o: Seq<char>) -> Seq<char> {
    "invalid CORS origin "@ + spec_str_debug(o) + ": failed to parse header value"@
}

/// Builds the origin policy of the CORS layer from an allowed-origins list.
///
/// The empty list denies all; a list of wildcards only admits any origin; a list
/// mixing `*` with explicit origins is an error; a list of explicit origins admits
/// exactly those, each of which must be a valid header value (the first one that
/// is not is reported).
pub fn build_cors_layer_from_origins(allowed_origins: &[String]) -> (r: Result<
    AllowedOrigins,
    PjsError,
>)
    ensures
        allowed_origins@.len() == 0 ==> (r matches Ok(AllowedOrigins::DenyAll)),
        allowed_origins@.len() > 0 && has_wildcard(allowed_origins@) && has_explicit(
            allowed_origins@,
        ) ==> (r matches Err(PjsError::HttpError(m)) && m@ == mixed_wildcard_message()),
        allowed_origins@.len() > 0 && has_wildcard(allowed_origins@) && !has_explicit(
            allowed_origins@,
        ) ==> (r matches Ok(AllowedOrigins::Any)),
        allowed_origins@.len() > 0 && !has_wildcard(allowed_origins@) && all_origins_valid(
            allowed_origins@,
        ) ==> (r matches Ok(AllowedOrigins::List(v)) && v@ == allowed_origins@),
        forall|k: int|
            allowed_origins@.len() > 0 && !has_wildcard(allowed_origins@) && first_invalid_origin(
                allowed_origins@,
                k,
            ) ==> (r matches Err(PjsError::HttpError(m)) && m@ == invalid_origin_message(
                #[trigger] allowed_origins@[k]@,
            )),
{
    let n = allowed_origins.len();
    if n == 0 {
        return Ok(AllowedOrigins::DenyAll);
    }
    let mut wild = false;
    let mut explicit = false;
    let mut i: usize = 0;
    while i < n
        invariant
            n == allowed_origins@.len(),
            i <= n,
            wild <==> exists|j: int| 0 <= j < i && is_wildcard(#[trigger] allowed_origins@[j]),
            explicit <==> exists|j: int|
                0 <= j < i && !is_wildcard(#[trigger] allowed_origins@[j]),
        decreases n - i,
    {
        if str_eq(allowed_origins[i].as_str(), "*") {
            wild = true;
        } else {
            explicit = true;
        }
        i = i + 1;
    }
    if wild && explicit {
        return Err(
            PjsError::HttpError(
                String::from_str("CORS: wildcard '*' cannot be combined with explicit origins"),
            ),
        );
    }
    if wild {
        return Ok(AllowedOrigins::Any);
    }
    assert(!has_wildcard(allowed_origins@));
    let mut out: Vec<String> = Vec::new();
    let mut k: usize = 0;
    while k < n
        invariant
            n == allowed_origins@.len(),
            k <= n,
            out@ == allowed_origins@.subrange(0, k as int),
            !has_wildcard(allowed_origins@),
            forall|j: int| 0 <= j < k ==> valid_header_text(#[trigger] allowed_origins@[j]@),
        decreases n - k,
    {
        let o = &allowed_origins[k];
        match parse_header_value(o.as_str()) {
            Ok(()) => {
                out.push(o.clone());
            },
            Err(e) => {
                let msg = String::from_str("invalid CORS origin ").concat(
                    str_debug(o.as_str()).as_str(),
                ).concat(": ").concat(e.as_str());
                proof {
                    reveal_strlit(": ");
                    reveal_strlit("failed to parse header value");
                    reveal_strlit(": failed to parse header value");
                    assert(msg@ =~= invalid_origin_message(allowed_origins@[k as int]@));
                    assert forall|q: int|
                        first_invalid_origin(allowed_origins@, q) implies q == k by {
                        if q < k {
                        } else if q > k {
                            assert(valid_header_text(allowed_origins@[k as int]@));
                        }
                    }
                }
                return Err(PjsError::HttpError(msg));
            },
        }
        k = k + 1;
    }
    proof {
        assert(out@ =~= allowed_origins@);
        assert forall|q: int| !first_invalid_origin(allowed_origins@, q) by {}
    }
    Ok(AllowedOrigins::List(out))
}

/// What building the CORS policy of `origins` gives: the conditions under which
/// [`build_cors_layer`] returns each outcome.
pub open spec fn cors_outcome(origins: Seq<String>, r: Result<AllowedOrigins, PjsError>) -> bool {
    &&& origins.len() == 0 ==> (r matches Ok(AllowedOrigins::DenyAll))
    &&& origins.len() > 0 && has_wildcard(origins) && has_explicit(origins) ==> (r matches Err(
        PjsError::HttpError(m),
    ) && m@ == mixed_wildcard_message())
    &&& origins.len() > 0 && has_wildcard(origins) && !has_explicit(origins) ==> (r matches Ok(
        AllowedOrigins::Any,
    ))
    &&& origins.len() > 0 && !has_wildcard(origins) && all_origins_valid(origins) ==> (r matches Ok(
        AllowedOrigins::List(v),
    ) && v@ == origins)
    &&& forall|k: int|
        origins.len() > 0 && !has_wildcard(origins) && first_invalid_origin(origins, k) ==> (r matches Err(
            PjsError::HttpError(m),
        ) && m@ == invalid_origin_message(#[trigger] origins[k]@))
}

/// Builds the origin policy of the CORS layer from a server configuration.
pub fn build_cors_layer(config: &HttpServerConfig) -> (r: Result<AllowedOrigins, PjsError>)
    ensures
        cors_outcome(config.allowed_origins@, r),
        config.allowed_origins@.len() == 0 ==> (r matches Ok(AllowedOrigins::DenyAll)),
        config.allowed_origins@.len() > 0 && has_wildcard(config.allowed_origins@) && has_explicit(
            config.allowed_origins@,
        ) ==> (r matches Err(PjsError::HttpError(m)) && m@ == mixed_wildcard_message()),
        config.allowed_origins@.len() > 0 && has_wildcard(config.allowed_origins@)
            && !has_explicit(config.allowed_origins@) ==> (r matches Ok(AllowedOrigins::Any)),
        config.allowed_origins@.len() > 0 && !has_wildcard(config.allowed_origins@)
            && all_origins_valid(config.allowed_origins@) ==> (r matches Ok(
            AllowedOrigins::List(v),
        ) && v@ == config.allowed_origins@),
        forall|k: int|
            config.allowed_origins@.len() > 0 && !has_wildcard(config.allowed_origins@)
                && first_invalid_origin(config.allowed_origins@, k) ==> (r matches Err(
                PjsError::HttpError(m),
            ) && m@ == invalid_origin_message(#[trigger] config.allowed_origins@[k]@)),
{
    build_cors_layer_from_origins(config.allowed_origins.as_slice())
}

/// Whether `text` is a valid HTTP header value (parsed by `HeaderValue::from_str`).
pub fn header_value_valid(text: &str) -> (r: bool)
    ensures
        r == valid_header_text(text@),
{
    parse_header_value(text).is_ok()
}

} // verus!
