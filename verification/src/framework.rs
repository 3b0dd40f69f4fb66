//! Framework-neutral HTTP helpers: methods, status codes, URL and content-type
//! parsing, a universal request/response model, and default header sets.
use vstd::prelude::*;
use vstd::string::*;
use vstd::utf8::is_ascii_chars;
use crate::string_map::StringMap;
use crate::text::{
    ascii_upper_code, chars_of, contains_chars, contains_seq, eq_ignore_ascii_case,
    eq_ignore_ascii_case_seq, find_char, first_index_of, lemma_first_index_of, pieces_view,
    slice_range, split_chars, split_seq, str_eq, string_of, trim_chars, trim_seq,
};

verus! {

broadcast use vstd::seq_lib::group_seq_properties;

// ---------------------------------------------------------------------------
// Methods and status codes
// ---------------------------------------------------------------------------

/// What `str::to_uppercase` yields for a text (full Unicode upper-casing).
pub uninterp spec fn spec_to_uppercase(s: Seq<char>) -> Seq<char>;

/// The upper-case form of `c` under ASCII case folding.
pub open spec fn ascii_upper_char(c: char) -> char {
    ascii_upper_code(c) as char
}

/// Upper-cases a text with `str::to_uppercase`; on ASCII text this is ASCII
/// upper-casing, as its documentation states.
#[verifier::external_body]
fn to_uppercase(s: &str) -> (r: String)
    ensures
        r@ == spec_to_uppercase(s@),
        is_ascii_chars(s@) ==> r@ == s@.map_values(|c: char| ascii_upper_char(c)),
{
    s.to_uppercase()
}

/// HTTP request methods.
#[derive(Debug, Clone, Copy, PartialEq, Eq, Structural)]
pub enum HttpMethod {
    Get,
    Post,
    Put,
    Patch,
    Delete,
    Head,
    Options,
}

/// The method whose upper-case name is `u`; anything else falls back to `GET`.
pub open spec fn method_named(u: Seq<char>) -> HttpMethod {
    if u == "GET"@ {
        HttpMethod::Get
    } else if u == "POST"@ {
        HttpMethod::Post
    } else if u == "PUT"@ {
        HttpMethod::Put
    } else if u == "PATCH"@ {
        HttpMethod::Patch
    } else if u == "DELETE"@ {
        HttpMethod::Delete
    } else if u == "HEAD"@ {
        HttpMethod::Head
    } else if u == "OPTIONS"@ {
        HttpMethod::Options
    } else {
        HttpMethod::Get
    }
}

/// The upper-case name of a method.
pub open spec fn method_name(m: HttpMethod) -> Seq<char> {
    match m {
        HttpMethod::Get => "GET"@,
        HttpMethod::Post => "POST"@,
        HttpMethod::Put => "PUT"@,
        HttpMethod::Patch => "PATCH"@,
        HttpMethod::Delete => "DELETE"@,
        HttpMethod::Head => "HEAD"@,
        HttpMethod::Options => "OPTIONS"@,
    }
}

impl HttpMethod {
    /// The upper-case name of this method.
    pub fn as_str(&self) -> (r: &'static str)
        ensures
            r@ == method_name(*self),
    {
        match self {
            HttpMethod::Get => "GET",
            HttpMethod::Post => "POST",
            HttpMethod::Put => "PUT",
            HttpMethod::Patch => "PATCH",
            HttpMethod::Delete => "DELETE",
            HttpMethod::Head => "HEAD",
            HttpMethod::Options => "OPTIONS",
        }
    }

    /// The method named by `method` in any case; an unknown name means `GET`.
    pub fn parse(method: &str) -> (r: HttpMethod)
        ensures
            r == method_named(spec_to_uppercase(method@)),
            r == method_of(method@),
    {
        let upper = to_uppercase(method);
        let u = upper.as_str();
        if str_eq(u, "GET") {
            HttpMethod::Get
        } else if str_eq(u, "POST") {
            HttpMethod::Post
        } else if str_eq(u, "PUT") {
            HttpMethod::Put
        } else if str_eq(u, "PATCH") {
            HttpMethod::Patch
        } else if str_eq(u, "DELETE") {
            HttpMethod::Delete
        } else if str_eq(u, "HEAD") {
            HttpMethod::Head
        } else if str_eq(u, "OPTIONS") {
            HttpMethod::Options
        } else {
            HttpMethod::Get
        }
    }
}

impl<'a> From<&'a str> for HttpMethod {
    fn from(method: &'a str) -> (r: HttpMethod) {
        HttpMethod::parse(method)
    }
}

impl<'a> vstd::std_specs::convert::FromSpecImpl<&'a str> for HttpMethod {
    open spec fn obeys_from_spec() -> bool {
        true
    }

    open spec fn from_spec(method: &'a str) -> HttpMethod {
        method_of(method@)
    }
}

/// The upper-cased form of a method text: ASCII upper-casing on ASCII text, full
/// Unicode upper-casing otherwise.
pub open spec fn upper_method_text(m: Seq<char>) -> Seq<char> {
    if is_ascii_chars(m) {
        m.map_values(|c: char| ascii_upper_char(c))
    } else {
        spec_to_uppercase(m)
    }
}

/// The method a text names in any case (see [`HttpMethod::parse`]).
pub open spec fn method_of(m: Seq<char>) -> HttpMethod {
    method_named(upper_method_text(m))
}

/// Parsing a method's own name gives the method back.
pub proof fn lemma_method_name_round_trip(m: HttpMethod)
    ensures
        method_named(method_name(m)) == m,
{
    reveal_strlit("GET");
    reveal_strlit("POST");
    reveal_strlit("PUT");
    reveal_strlit("PATCH");
    reveal_strlit("DELETE");
    reveal_strlit("HEAD");
    reveal_strlit("OPTIONS");
    assert("GET"@.len() == 3 && "PUT"@.len() == 3 && "POST"@.len() == 4 && "HEAD"@.len() == 4);
    assert("PATCH"@.len() == 5 && "DELETE"@.len() == 6 && "OPTIONS"@.len() == 7);
    assert("GET"@[0] != "PUT"@[0]);
    assert("POST"@[0] != "HEAD"@[0]);
}

/// HTTP status codes used by the adapters.
#[derive(Debug, Clone, Copy, PartialEq, Eq, Structural)]
pub enum HttpStatus {
    Okay,
    Created,
    Accepted,
    NoContent,
    BadRequest,
    Unauthorized,
    Forbidden,
    NotFound,
    MethodNotAllowed,
    Conflict,
    UnprocessableEntity,
    InternalServerError,
    NotImplemented,
    BadGateway,
    ServiceUnavailable,
}

/// The numeric code of a status.
pub open spec fn status_code(s: HttpStatus) -> u16 {
    match s {
        HttpStatus::Okay => 200,
        HttpStatus::Created => 201,
        HttpStatus::Accepted => 202,
        HttpStatus::NoContent => 204,
        HttpStatus::BadRequest => 400,
        HttpStatus::Unauthorized => 401,
        HttpStatus::Forbidden => 403,
        HttpStatus::NotFound => 404,
        HttpStatus::MethodNotAllowed => 405,
        HttpStatus::Conflict => 409,
        HttpStatus::UnprocessableEntity => 422,
        HttpStatus::InternalServerError => 500,
        HttpStatus::NotImplemented => 501,
        HttpStatus::BadGateway => 502,
        HttpStatus::ServiceUnavailable => 503,
    }
}

/// The reason phrase of a status.
pub open spec fn reason_phrase_of(s: HttpStatus) -> Seq<char> {
    match s {
        HttpStatus::Okay => "OK"@,
        HttpStatus::Created => "Created"@,
        HttpStatus::Accepted => "Accepted"@,
        HttpStatus::NoContent => "No Content"@,
        HttpStatus::BadRequest => "Bad Request"@,
        HttpStatus::Unauthorized => "Unauthorized"@,
        HttpStatus::Forbidden => "Forbidden"@,
        HttpStatus::NotFound => "Not Found"@,
        HttpStatus::MethodNotAllowed => "Method Not Allowed"@,
        HttpStatus::Conflict => "Conflict"@,
        HttpStatus::UnprocessableEntity => "Unprocessable Entity"@,
        HttpStatus::InternalServerError => "Internal Server Error"@,
        HttpStatus::NotImplemented => "Not Implemented"@,
        HttpStatus::BadGateway => "Bad Gateway"@,
        HttpStatus::ServiceUnavailable => "Service Unavailable"@,
    }
}

impl HttpStatus {
    /// The numeric code.
    pub fn code(&self) -> (r: u16)
        ensures
            r == status_code(*self),
    {
        match self {
            HttpStatus::Okay => 200,
            HttpStatus::Created => 201,
            HttpStatus::Accepted => 202,
            HttpStatus::NoContent => 204,
            HttpStatus::BadRequest => 400,
            HttpStatus::Unauthorized => 401,
            HttpStatus::Forbidden => 403,
            HttpStatus::NotFound => 404,
            HttpStatus::MethodNotAllowed => 405,
            HttpStatus::Conflict => 409,
            HttpStatus::UnprocessableEntity => 422,
            HttpStatus::InternalServerError => 500,
            HttpStatus::NotImplemented => 501,
            HttpStatus::BadGateway => 502,
            HttpStatus::ServiceUnavailable => 503,
        }
    }

    /// The reason phrase.
    pub fn reason_phrase(&self) -> (r: &'static str)
        ensures
            r@ == reason_phrase_of(*self),
    {
        match self {
            HttpStatus::Okay => "OK",
            HttpStatus::Created => "Created",
            HttpStatus::Accepted => "Accepted",
            HttpStatus::NoContent => "No Content",
            HttpStatus::BadRequest => "Bad Request",
            HttpStatus::Unauthorized => "Unauthorized",
            HttpStatus::Forbidden => "Forbidden",
            HttpStatus::NotFound => "Not Found",
            HttpStatus::MethodNotAllowed => "Method Not Allowed",
            HttpStatus::Conflict => "Conflict",
            HttpStatus::UnprocessableEntity => "Unprocessable Entity",
            HttpStatus::InternalServerError => "Internal Server Error",
            HttpStatus::NotImplemented => "Not Implemented",
            HttpStatus::BadGateway => "Bad Gateway",
            HttpStatus::ServiceUnavailable => "Service Unavailable",
        }
    }
}

/// Distinct statuses have distinct codes.
pub proof fn lemma_status_codes_distinct(a: HttpStatus, b: HttpStatus)
    ensures
        status_code(a) == status_code(b) ==> a == b,
{
}

// ---------------------------------------------------------------------------
// URL and content-type parsing
// ---------------------------------------------------------------------------

/// What `urlencoding::decode` yields for a text: the percent-decoded text, or
/// `None` when the decoded bytes are not UTF-8.
pub uninterp spec fn spec_url_decode(s: Seq<char>) -> Option<Seq<char>>;

/// Percent-decodes a text with `urlencoding::decode`; a text without `%` comes
/// back unchanged (`+` is kept literally).
#[verifier::external_body]
fn url_decode(s: &str) -> (r: Option<String>)
    ensures
        opt_string_view(r) == spec_url_decode(s@),
        !s@.contains('%') ==> opt_string_view(r) == Some(s@),
{
    match urlencoding::decode(s) {
        Ok(d) => Some(d.into_owned()),
        Err(_) => None,
    }
}

/// The view of an optional string.
pub open spec fn opt_string_view(o: Option<String>) -> Option<Seq<char>> {
    match o {
        Some(t) => Some(t@),
        None => None,
    }
}

/// The decoded text, or the empty text when decoding fails.
pub open spec fn decoded_or_empty(s: Seq<char>) -> Seq<char> {
    match spec_url_decode(s) {
        Some(d) => d,
        None => Seq::empty(),
    }
}

/// The path part of a URL: what precedes the first `?`.
pub open spec fn path_of(url: Seq<char>) -> Seq<char> {
    match first_index_of(url, '?') {
        Some(i) => url.subrange(0, i),
        None => url,
    }
}

/// The parameters of query pieces (`key=value` or a bare key), decoded; a later
/// key wins.
pub open spec fn query_map(ps: Seq<Seq<char>>) -> Map<Seq<char>, Seq<char>>
    decreases ps.len(),
{
    if ps.len() == 0 {
        Map::empty()
    } else {
        let m = query_map(ps.drop_last());
        let p = ps.last();
        match first_index_of(p, '=') {
            Some(e) => m.insert(
                decoded_or_empty(p.subrange(0, e)),
                decoded_or_empty(p.subrange(e + 1, p.len() as int)),
            ),
            None => if p.len() > 0 {
                m.insert(decoded_or_empty(p), Seq::empty())
            } else {
                m
            },
        }
    }
}

/// The query parameters of a URL.
pub open spec fn query_params_of(url: Seq<char>) -> Map<Seq<char>, Seq<char>> {
    match first_index_of(url, '?') {
        Some(q) => query_map(split_seq(url.subrange(q + 1, url.len() as int), '&')),
        None => Map::empty(),
    }
}

/// `s` without leading `"` characters.
pub open spec fn strip_quotes_start(s: Seq<char>) -> Seq<char>
    decreases s.len(),
{
    if s.len() > 0 && s[0] == '"' {
        strip_quotes_start(s.drop_first())
    } else {
        s
    }
}

/// `s` without trailing `"` characters.
pub open spec fn strip_quotes_end(s: Seq<char>) -> Seq<char>
    decreases s.len(),
{
    if s.len() > 0 && s.last() == '"' {
        strip_quotes_end(s.drop_last())
    } else {
        s
    }
}

/// `s` without surrounding `"` characters (`str::trim_matches('"')`).
pub open spec fn strip_quotes(s: Seq<char>) -> Seq<char> {
    strip_quotes_end(strip_quotes_start(s))
}

/// The parameters of content-type pieces after the media type: each `key=value`
/// piece with both sides trimmed and the value unquoted; a later key wins.
pub open spec fn content_params(ps: Seq<Seq<char>>) -> Map<Seq<char>, Seq<char>>
    decreases ps.len(),
{
    if ps.len() == 0 {
        Map::empty()
    } else {
        let m = content_params(ps.drop_last());
        let p = ps.last();
        match first_index_of(p, '=') {
            Some(e) => m.insert(
                trim_seq(p.subrange(0, e)),
                strip_quotes(trim_seq(p.subrange(e + 1, p.len() as int))),
            ),
            None => m,
        }
    }
}

fn strip_quotes_exec(s: &[char]) -> (r: Vec<char>)
    ensures
        r@ == strip_quotes(s@),
{
    let n = s.len();
    let mut i: usize = 0;
    assert(s@.subrange(0, n as int) =~= s@);
    while i < n && s[i] == '"'
        invariant
            n == s@.len(),
            i <= n,
            strip_quotes_start(s@) == strip_quotes_start(s@.subrange(i as int, n as int)),
        decreases n - i,
    {
        assert(s@.subrange(i as int, n as int).drop_first() =~= s@.subrange(i as int + 1, n as int));
        i = i + 1;
    }
    let mut j: usize = n;
    assert(strip_quotes_start(s@) == s@.subrange(i as int, n as int));
    while j > i && s[j - 1] == '"'
        invariant
            n == s@.len(),
            i <= j <= n,
            strip_quotes_end(s@.subrange(i as int, n as int)) == strip_quotes_end(s@.subrange(i as int, j as int)),
        decreases j,
    {
        assert(s@.subrange(i as int, j as int).drop_last() =~= s@.subrange(i as int, j as int - 1));
        j = j - 1;
    }
    assert(strip_quotes_end(s@.subrange(i as int, j as int)) == s@.subrange(i as int, j as int));
    slice_range(s, i, j)
}

fn decode_or_empty(s: &[char]) -> (r: String)
    ensures
        r@ == decoded_or_empty(s@),
{
    let text = string_of(s);
    match url_decode(text.as_str()) {
        Some(d) => d,
        None => String::new(),
    }
}

/// Helpers that take a request URL or header apart.
pub struct RequestExtractor;

impl RequestExtractor {
    /// The query parameters of a URL: everything after the first `?` split at
    /// `&`; each `key=value` pair (split at its first `=`) or non-empty bare key is
    /// percent-decoded (a part that does not decode becomes empty); a later key
    /// replaces an earlier one.
    pub fn extract_query_params(url: &str) -> (r: StringMap)
        ensures
            r.wf(),
            r@ == query_params_of(url@),
    {
        let chars = chars_of(url);
        let mut params = StringMap::new();
        proof {
            lemma_first_index_of(chars@, '?');
        }
        match find_char(&chars, '?') {
            None => params,
            Some(q) => {
                let n = chars.len();
                let query = slice_range(&chars, q + 1, n);
                let pieces = split_chars(&query, '&');
                let m = pieces.len();
                let mut k: usize = 0;
                while k < m
                    invariant
                        m == pieces@.len(),
                        k <= m,
                        params.wf(),
                        params@ == query_map(pieces_view(pieces@).subrange(0, k as int)),
                    decreases m - k,
                {
                    let p = &pieces[k];
                    proof {
                        assert(pieces_view(pieces@).subrange(0, k + 1).drop_last() =~= pieces_view(
                            pieces@,
                        ).subrange(0, k as int));
                        assert(pieces_view(pieces@).subrange(0, k + 1).last() == p@);
                        lemma_first_index_of(p@, '=');
                    }
                    match find_char(p, '=') {
                        Some(e) => {
                            let key = slice_range(p, 0, e);
                            let value = slice_range(p, e + 1, p.len());
                            params.insert(decode_or_empty(&key), decode_or_empty(&value));
                        },
                        None => {
                            if p.len() > 0 {
                                params.insert(decode_or_empty(p), String::new());
                            }
                        },
                    }
                    k = k + 1;
                }
                proof {
                    assert(pieces_view(pieces@).subrange(0, m as int) =~= pieces_view(pieces@));
                }
                params
            },
        }
    }

    /// The path of a URL: what precedes the first `?`.
    pub fn extract_path(url: &str) -> (r: String)
        ensures
            r@ == path_of(url@),
    {
        let chars = chars_of(url);
        proof {
            lemma_first_index_of(chars@, '?');
        }
        match find_char(&chars, '?') {
            Some(q) => string_of(&slice_range(&chars, 0, q)),
            None => String::from_str(url),
        }
    }

    /// Splits a `Content-Type` value into its media type (the trimmed text before
    /// the first `;`) and its parameters (see [`content_params`]).
    pub fn parse_content_type(content_type: &str) -> (r: (String, StringMap))
        ensures
            r.0@ == trim_seq(split_seq(content_type@, ';')[0]),
            r.1.wf(),
            r.1@ == content_params(split_seq(content_type@, ';').drop_first()),
    {
        let chars = chars_of(content_type);
        let pieces = split_chars(&chars, ';');
        proof {
            crate::text::lemma_split_acc_len(chars@, ';', Seq::empty());
        }
        let mime = string_of(&trim_chars(&pieces[0]));
        let mut params = StringMap::new();
        let m = pieces.len();
        let ghost rest = pieces_view(pieces@).drop_first();
        let mut k: usize = 1;
        while k < m
            invariant
                m == pieces@.len(),
                1 <= k <= m,
                rest == pieces_view(pieces@).drop_first(),
                params.wf(),
                params@ == content_params(rest.subrange(0, k - 1)),
            decreases m - k,
        {
            let p = &pieces[k];
            proof {
                assert(rest.subrange(0, k as int).drop_last() =~= rest.subrange(0, k - 1));
                assert(rest.subrange(0, k as int).last() == p@);
                lemma_first_index_of(p@, '=');
            }
            match find_char(p, '=') {
                Some(e) => {
                    let key = trim_chars(&slice_range(p, 0, e));
                    let value = strip_quotes_exec(&trim_chars(&slice_range(p, e + 1, p.len())));
                    params.insert(string_of(&key), string_of(&value));
                },
                None => {},
            }
            k = k + 1;
        }
        proof {
            assert(rest.subrange(0, m - 1) =~= rest);
        }
        (mime, params)
    }
}

// ---------------------------------------------------------------------------
// Universal request/response model
// ---------------------------------------------------------------------------

/// A JSON value (integers only; object members keep their order).
#[derive(Debug)]
pub enum JsonData {
    Null,
    Bool(bool),
    Integer(i64),
    String(String),
    Array(Vec<JsonData>),
    Object(Vec<(String, JsonData)>),
}

/// The body of a universal response.
#[derive(Debug)]
pub enum ResponseBody {
    /// A JSON document.
    Json(JsonData),
    /// Raw bytes.
    Binary(Vec<u8>),
    /// Text events or lines, written one after another.
    ServerSentEvents(Vec<String>),
    /// No body.
    Empty,
}

/// Errors of framework integration.
#[derive(Debug, Clone, PartialEq, Eq)]
pub enum IntegrationError {
    /// A framework request could not be turned into a universal request.
    RequestConversion(String),
    /// A universal response could not be turned into a framework response.
    ResponseConversion(String),
    /// The framework cannot stream.
    StreamingNotSupported,
}

/// Result of framework integration.
pub type IntegrationResult<T> = Result<T, IntegrationError>;

/// A framework-neutral HTTP request.
#[derive(Debug, Clone)]
pub struct UniversalRequest {
    /// Request method, as received.
    pub method: String,
    /// Request path.
    pub path: String,
    /// Header names and values, as received.
    pub headers: StringMap,
    /// Query parameters.
    pub query_params: StringMap,
    /// Request body, if any.
    pub body: Option<Vec<u8>>,
}

/// The value of the first header named `name` (ignoring ASCII case) among `pairs`.
pub open spec fn header_lookup(pairs: Seq<(String, String)>, name: Seq<char>) -> Option<Seq<char>>
    decreases pairs.len(),
{
    if pairs.len() == 0 {
        None
    } else if eq_ignore_ascii_case_seq(pairs[0].0@, name) {
        Some(pairs[0].1@)
    } else {
        header_lookup(pairs.drop_first(), name)
    }
}

impl UniversalRequest {
    /// A request with no headers, query or body.
    pub fn new(method: &str, path: &str) -> (r: Self)
        ensures
            r.method@ == method@,
            r.path@ == path@,
            r.headers.wf() && r.headers.pairs().len() == 0,
            r.query_params.wf() && r.query_params@ == Map::<Seq<char>, Seq<char>>::empty(),
            r.body is None,
    {
        UniversalRequest {
            method: String::from_str(method),
            path: String::from_str(path),
            headers: StringMap::new(),
            query_params: StringMap::new(),
            body: None,
        }
    }

    /// Adds (or replaces) a header.
    pub fn with_header(self, name: &str, value: &str) -> (r: Self)
        requires
            self.headers.wf(),
        ensures
            r.headers.wf(),
            r.headers@ == self.headers@.insert(name@, value@),
            r.method == self.method && r.path == self.path && r.query_params == self.query_params
                && r.body == self.body,
    {
        let mut this = self;
        this.headers.insert(String::from_str(name), String::from_str(value));
        this
    }

    /// Adds (or replaces) a query parameter.
    pub fn with_query(self, name: &str, value: &str) -> (r: Self)
        requires
            self.query_params.wf(),
        ensures
            r.query_params.wf(),
            r.query_params@ == self.query_params@.insert(name@, value@),
            r.method == self.method && r.path == self.path && r.headers == self.headers && r.body == self.body,
    {
        let mut this = self;
        this.query_params.insert(String::from_str(name), String::from_str(value));
        this
    }

    /// The value of the first header named `name`, ignoring ASCII case.
    pub fn get_header(&self, name: &str) -> (r: Option<&String>)
        ensures
            match r {
                Some(v) => header_lookup(self.headers.pairs(), name@) == Some(v@),
                None => header_lookup(self.headers.pairs(), name@) is None,
            },
    {
        let pairs = self.headers.entries();
        let wanted = chars_of(name);
        let n = pairs.len();
        let mut i: usize = 0;
        assert(pairs@.subrange(0, n as int) =~= pairs@);
        assert(pairs@.subrange(n as int, n as int) =~= Seq::<(String, String)>::empty());
        while i < n
            invariant
                n == pairs@.len(),
                i <= n,
                pairs@ == self.headers.pairs(),
                wanted@ == name@,
                header_lookup(pairs@, name@) == header_lookup(pairs@.subrange(i as int, n as int), name@),
            decreases n - i,
        {
            assert(pairs@.subrange(i as int, n as int).drop_first() =~= pairs@.subrange(i + 1, n as int));
            assert(pairs@.subrange(i as int, n as int)[0] == pairs@[i as int]);
            let key = chars_of(pairs[i].0.as_str());
            if eq_ignore_ascii_case(&key, &wanted) {
                return Some(&pairs[i].1);
            }
            i = i + 1;
        }
        None
    }

    /// The value of a query parameter.
    pub fn get_query(&self, name: &str) -> (r: Option<&String>)
        requires
            self.query_params.wf(),
        ensures
            match r {
                Some(v) => self.query_params@.dom().contains(name@) && self.query_params@[name@] == v@,
                None => !self.query_params@.dom().contains(name@),
            },
    {
        self.query_params.get(name)
    }

    /// Whether the `Accept` header mentions `content_type`.
    pub fn accepts(&self, content_type: &str) -> (r: bool)
        ensures
            r == (header_lookup(self.headers.pairs(), "accept"@) matches Some(a) && contains_seq(
                a,
                content_type@,
            )),
    {
        match self.get_header("accept") {
            Some(a) => {
                let h = chars_of(a.as_str());
                let c = chars_of(content_type);
                contains_chars(&h, &c)
            },
            None => false,
        }
    }
}

/// A framework-neutral HTTP response.
#[derive(Debug)]
pub struct UniversalResponse {
    /// Status code.
    pub status_code: u16,
    /// Header names and values.
    pub headers: StringMap,
    /// Body.
    pub body: ResponseBody,
    /// Content type of the body.
    pub content_type: String,
}

impl UniversalResponse {
    /// A `200` JSON response.
    pub fn json(data: JsonData) -> (r: Self)
        ensures
            r.status_code == 200,
            r.headers.wf() && r.headers@ == Map::<Seq<char>, Seq<char>>::empty(),
            r.body == ResponseBody::Json(data),
            r.content_type@ == "application/json"@,
    {
        UniversalResponse {
            status_code: 200,
            headers: StringMap::new(),
            body: ResponseBody::Json(data),
            content_type: String::from_str("application/json"),
        }
    }

    /// A `200` response of server-sent events.
    pub fn server_sent_events(events: Vec<String>) -> (r: Self)
        ensures
            r.status_code == 200,
            r.headers.wf() && r.headers@ == Map::<Seq<char>, Seq<char>>::empty(),
            r.body == ResponseBody::ServerSentEvents(events),
            r.content_type@ == "text/event-stream"@,
    {
        UniversalResponse {
            status_code: 200,
            headers: StringMap::new(),
            body: ResponseBody::ServerSentEvents(events),
            content_type: String::from_str("text/event-stream"),
        }
    }

    /// Adds (or replaces) a header.
    pub fn with_header(self, name: &str, value: &str) -> (r: Self)
        requires
            self.headers.wf(),
        ensures
            r.headers.wf(),
            r.headers@ == self.headers@.insert(name@, value@),
            r.status_code == self.status_code && r.body == self.body && r.content_type == self.content_type,
    {
        let mut this = self;
        this.headers.insert(String::from_str(name), String::from_str(value));
        this
    }
}

/// Builder of universal responses, starting from a `200` JSON `null`.
#[derive(Debug)]
pub struct ResponseBuilder {
    response: UniversalResponse,
}

impl ResponseBuilder {
    /// The response being built.
    pub closed spec fn current(&self) -> UniversalResponse {
        self.response
    }

    /// A builder for a `200` JSON `null` response.
    pub fn new() -> (r: Self)
        ensures
            r.current().status_code == 200,
            r.current().headers.wf() && r.current().headers@ == Map::<Seq<char>, Seq<char>>::empty(),
            r.current().body == ResponseBody::Json(JsonData::Null),
            r.current().content_type@ == "application/json"@,
    {
        ResponseBuilder { response: UniversalResponse::json(JsonData::Null) }
    }

    /// Sets the status.
    pub fn status(self, status: HttpStatus) -> (r: Self)
        ensures
            r.current() == (UniversalResponse { status_code: status_code(status), ..self.current() }),
    {
        let mut this = self;
        this.response.status_code = status.code();
        this
    }

    /// Adds (or replaces) a header.
    pub fn header(self, name: &str, value: &str) -> (r: Self)
        requires
            self.current().headers.wf(),
        ensures
            r.current().headers.wf(),
            r.current().headers@ == self.current().headers@.insert(name@, value@),
            r.current().status_code == self.current().status_code,
            r.current().body == self.current().body,
            r.current().content_type == self.current().content_type,
    {
        let mut this = self;
        this.response.headers.insert(String::from_str(name), String::from_str(value));
        this
    }

    /// Sets the content type.
    pub fn content_type(self, content_type: &str) -> (r: Self)
        ensures
            r.current().content_type@ == content_type@,
            r.current().status_code == self.current().status_code,
            r.current().headers == self.current().headers,
            r.current().body == self.current().body,
    {
        let mut this = self;
        this.response.content_type = String::from_str(content_type);
        this
    }

    /// Sets a JSON body (and the JSON content type).
    pub fn json(self, data: JsonData) -> (r: Self)
        ensures
            r.current().body == ResponseBody::Json(data),
            r.current().content_type@ == "application/json"@,
            r.current().status_code == self.current().status_code,
            r.current().headers == self.current().headers,
    {
        let mut this = self;
        this.response.body = ResponseBody::Json(data);
        this.response.content_type = String::from_str("application/json");
        this
    }

    /// Sets a binary body (and the octet-stream content type).
    pub fn binary(self, data: Vec<u8>) -> (r: Self)
        ensures
            r.current().body == ResponseBody::Binary(data),
            r.current().content_type@ == "application/octet-stream"@,
            r.current().status_code == self.current().status_code,
            r.current().headers == self.current().headers,
    {
        let mut this = self;
        this.response.body = ResponseBody::Binary(data);
        this.response.content_type = String::from_str("application/octet-stream");
        this
    }

    /// The built response.
    pub fn build(self) -> (r: UniversalResponse)
        ensures
            r == self.current(),
    {
        self.response
    }
}

impl Default for ResponseBuilder {
    fn default() -> (r: Self)
        ensures
            r.current().status_code == 200,
            r.current().headers.wf(),
            r.current().body == ResponseBody::Json(JsonData::Null),
    {
        ResponseBuilder::new()
    }
}

/// Default CORS headers of framework adapters.
pub fn default_cors_headers() -> (r: StringMap)
    ensures
        r.wf(),
        r@ == Map::<Seq<char>, Seq<char>>::empty().insert(
            "Access-Control-Allow-Origin"@,
            "*"@,
        ).insert("Access-Control-Allow-Methods"@, "GET, POST, PUT, DELETE, OPTIONS"@).insert(
            "Access-Control-Allow-Headers"@,
            "Content-Type, Authorization, Accept"@,
        ).insert("Access-Control-Max-Age"@, "86400"@),
{
    let mut headers = StringMap::new();
    headers.insert(String::from_str("Access-Control-Allow-Origin"), String::from_str("*"));
    headers.insert(
        String::from_str("Access-Control-Allow-Methods"),
        String::from_str("GET, POST, PUT, DELETE, OPTIONS"),
    );
    headers.insert(
        String::from_str("Access-Control-Allow-Headers"),
        String::from_str("Content-Type, Authorization, Accept"),
    );
    headers.insert(String::from_str("Access-Control-Max-Age"), String::from_str("86400"));
    headers
}

/// Default security headers of framework adapters.
pub fn default_security_headers() -> (r: StringMap)
    ensures
        r.wf(),
        r@ == Map::<Seq<char>, Seq<char>>::empty().insert("X-Content-Type-Options"@, "nosniff"@).insert(
            "X-Frame-Options"@,
            "DENY"@,
        ).insert("X-XSS-Protection"@, "1; mode=block"@).insert(
            "Referrer-Policy"@,
            "strict-origin-when-cross-origin"@,
        ),
{
    let mut headers = StringMap::new();
    headers.insert(String::from_str("X-Content-Type-Options"), String::from_str("nosniff"));
    headers.insert(String::from_str("X-Frame-Options"), String::from_str("DENY"));
    headers.insert(String::from_str("X-XSS-Protection"), String::from_str("1; mode=block"));
    headers.insert(
        String::from_str("Referrer-Policy"),
        String::from_str("strict-origin-when-cross-origin"),
    );
    headers
}

/// Conversion of a framework request into a universal request.
pub trait IntoUniversalRequest {
    /// The universal form of this request.
    fn into_universal(self) -> IntegrationResult<UniversalRequest>;
}

/// Conversion of a universal response into a framework response.
pub trait FromUniversalResponse<T> {
    /// The framework form of `response`.
    fn from_universal(response: UniversalResponse) -> IntegrationResult<T>;
}

} // verus!
