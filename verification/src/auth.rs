//! API-key authentication: key configuration, HMAC tags, constant-time matching and
//! token extraction from request headers.
use vstd::prelude::*;
use vstd::slice::slice_subrange;
use vstd::string::*;
use std::sync::Arc;
use hmac::Mac;
use subtle::ConstantTimeEq;
use crate::text::{ascii_ws_byte, is_ascii_ws_byte};

verus! {

broadcast use vstd::seq_lib::group_seq_properties;

/// The error type of `getrandom`.
#[verifier::external_type_specification]
#[verifier::external_body]
pub struct ExGetrandomError(getrandom::Error);

/// What HMAC-SHA256 (`hmac::Hmac<sha2::Sha256>`) computes for a key and a message:
/// the 32-byte tag.
pub uninterp spec fn spec_hmac_sha256(key: Seq<u8>, data: Seq<u8>) -> Seq<u8>;

/// Computes the HMAC-SHA256 tag of `data` under `key` with the `hmac` and `sha2`
/// crates. `Hmac::new_from_slice` accepts keys of any length, so it does not fail.
#[verifier::external_body]
fn hmac_tag(key: &[u8; 32], data: &[u8]) -> (r: [u8; 32])
    ensures
        r@ == spec_hmac_sha256(key@, data@),
{
    let mut mac = <hmac::Hmac<sha2::Sha256> as Mac>::new_from_slice(key).expect(
        "HMAC-SHA256 accepts any key length",
    );
    mac.update(data);
    mac.finalize().into_bytes().into()
}

/// Compares two tags with `subtle::ConstantTimeEq` on byte slices, which yields a
/// `Choice` of 1 exactly when the slices are equal.
#[verifier::external_body]
fn ct_eq_tag(a: &[u8; 32], b: &[u8; 32]) -> (r: u8)
    ensures
        r == (if a@ == b@ { 1u8 } else { 0u8 }),
{
    a.ct_eq(b).unwrap_u8()
}

/// Fills `dest` from the system random source with `getrandom::fill`; nothing is
/// promised of the bytes written.
#[verifier::external_body]
pub(crate) fn fill_random<const N: usize>(dest: &mut [u8; N]) -> (r: Result<(), getrandom::Error>) {
    getrandom::fill(dest)
}

/// Errors of [`ApiKeyConfig::new`].
#[derive(Debug)]
pub enum AuthConfigError {
    /// The key list is empty.
    EmptyKeyList,
    /// Some key contains an ASCII whitespace byte.
    WhitespaceInKey,
    /// The system random source could not seed the HMAC key.
    RngFailure(getrandom::Error),
}

impl AuthConfigError {
    /// The human-readable text of this error, without the random-source detail.
    pub fn message(&self) -> (r: &'static str)
        ensures
            self is EmptyKeyList ==> r@ == "API key list must not be empty"@,
            self is WhitespaceInKey ==> r@ == "API key must not contain whitespace"@,
            self is RngFailure ==> r@ == "failed to seed HMAC key from system RNG"@,
    {
        match self {
            AuthConfigError::EmptyKeyList => "API key list must not be empty",
            AuthConfigError::WhitespaceInKey => "API key must not contain whitespace",
            AuthConfigError::RngFailure(_) => "failed to seed HMAC key from system RNG",
        }
    }
}

/// Whether some byte of `s` is ASCII whitespace.
pub open spec fn has_ascii_ws(s: Seq<u8>) -> bool {
    exists|i: int| 0 <= i < s.len() && is_ascii_ws_byte(#[trigger] s[i])
}

/// Configuration of API-key authentication: the HMAC tags of the accepted keys and
/// the per-process random key they were derived with.
#[derive(Debug)]
pub struct ApiKeyConfig {
    /// HMAC-SHA256 tags of all configured API keys, in the order given.
    pub keys: Vec<[u8; 32]>,
    /// Per-process seed used to derive the tags.
    pub hmac_key: [u8; 32],
}

/// Whether `tags` are exactly the tags of `raw_keys` under `key`.
pub open spec fn tags_of(tags: Seq<[u8; 32]>, key: Seq<u8>, raw_keys: Seq<&str>) -> bool {
    &&& tags.len() == raw_keys.len()
    &&& forall|i: int|
        0 <= i < tags.len() ==> (#[trigger] tags[i])@ == spec_hmac_sha256(key, raw_keys[i].spec_bytes())
}

impl ApiKeyConfig {
    /// Builds a configuration from raw API keys. An empty list and a key with an
    /// ASCII whitespace byte (space, tab, line feed, form feed, carriage return) are
    /// rejected; otherwise a random HMAC key is drawn and each key is replaced by its
    /// tag, which fails only when the system random source fails.
    pub fn new(raw_keys: &[&str]) -> (r: Result<ApiKeyConfig, AuthConfigError>)
        ensures
            raw_keys@.len() == 0 ==> (r matches Err(AuthConfigError::EmptyKeyList)),
            raw_keys@.len() > 0 && (exists|i: int|
                0 <= i < raw_keys@.len() && has_ascii_ws((#[trigger] raw_keys@[i]).spec_bytes()))
                ==> (r matches Err(AuthConfigError::WhitespaceInKey)),
            raw_keys@.len() > 0 && (forall|i: int|
                0 <= i < raw_keys@.len() ==> !has_ascii_ws((#[trigger] raw_keys@[i]).spec_bytes()))
                ==> match r {
                Ok(c) => tags_of(c.keys@, c.hmac_key@, raw_keys@),
                Err(e) => e is RngFailure,
            },
    {
        let n = raw_keys.len();
        if n == 0 {
            return Err(AuthConfigError::EmptyKeyList);
        }
        let mut i: usize = 0;
        while i < n
            invariant
                n == raw_keys@.len(),
                i <= n,
                forall|j: int| 0 <= j < i ==> !has_ascii_ws((#[trigger] raw_keys@[j]).spec_bytes()),
            decreases n - i,
        {
            let bytes = raw_keys[i].as_bytes();
            let m = bytes.len();
            let mut k: usize = 0;
            while k < m
                invariant
                    n == raw_keys@.len(),
                    0 < n,
                    i < n,
                    bytes@ == raw_keys@[i as int].spec_bytes(),
                    m == bytes@.len(),
                    k <= m,
                    forall|j: int| 0 <= j < k ==> !is_ascii_ws_byte(#[trigger] bytes@[j]),
                decreases m - k,
            {
                if ascii_ws_byte(bytes[k]) {
                    assert(has_ascii_ws(raw_keys@[i as int].spec_bytes()));
                    return Err(AuthConfigError::WhitespaceInKey);
                }
                k = k + 1;
            }
            i = i + 1;
        }
        let mut hmac_key = [0u8; 32];
        match fill_random(&mut hmac_key) {
            Ok(()) => {},
            Err(e) => {
                return Err(AuthConfigError::RngFailure(e));
            },
        }
        let mut keys: Vec<[u8; 32]> = Vec::new();
        let mut t: usize = 0;
        while t < n
            invariant
                n == raw_keys@.len(),
                t <= n,
                keys@.len() == t,
                forall|j: int|
                    0 <= j < t ==> (#[trigger] keys@[j])@ == spec_hmac_sha256(
                        hmac_key@,
                        raw_keys@[j].spec_bytes(),
                    ),
            decreases n - t,
        {
            keys.push(hmac_tag(&hmac_key, raw_keys[t].as_bytes()));
            t = t + 1;
        }
        Ok(ApiKeyConfig { keys, hmac_key })
    }
}

/// The state an authentication layer consults: the HMAC key and the tags of the
/// accepted keys.
#[derive(Debug)]
pub struct ApiKeyState {
    /// Per-process HMAC key.
    pub hmac_key: [u8; 32],
    /// Tags of the accepted keys.
    pub tags: Vec<[u8; 32]>,
}

/// Whether `candidate` is one of the accepted keys, judged by its tag.
pub open spec fn key_matches(state: ApiKeyState, candidate: Seq<u8>) -> bool {
    exists|j: int|
        0 <= j < state.tags@.len() && (#[trigger] state.tags@[j])@ == spec_hmac_sha256(
            state.hmac_key@,
            candidate,
        )
}

/// Constant-time membership test: the candidate's tag is compared with every stored
/// tag, the whole list is always walked, and the results are combined with a
/// bitwise or.
pub fn matches_any(state: &ApiKeyState, candidate: &[u8]) -> (r: bool)
    ensures
        r == key_matches(*state, candidate@),
{
    let candidate_tag = hmac_tag(&state.hmac_key, candidate);
    let mut acc: u8 = 0;
    let n = state.tags.len();
    let mut i: usize = 0;
    while i < n
        invariant
            n == state.tags@.len(),
            i <= n,
            candidate_tag@ == spec_hmac_sha256(state.hmac_key@, candidate@),
            acc == 0 || acc == 1,
            acc == 1 <==> exists|j: int| 0 <= j < i && (#[trigger] state.tags@[j])@ == candidate_tag@,
        decreases n - i,
    {
        let x = ct_eq_tag(&state.tags[i], &candidate_tag);
        let old_acc = acc;
        acc = acc | x;
        assert((old_acc == 0 || old_acc == 1) && (x == 0 || x == 1) ==> ((old_acc | x) == 1
            <==> (old_acc == 1 || x == 1)) && ((old_acc | x) == 0 || (old_acc | x) == 1))
            by (bit_vector);
        i = i + 1;
    }
    acc == 1
}

/// Every configured key authenticates: once the tags of a state are the tags of
/// some keys, each of those keys matches.
pub proof fn lemma_configured_keys_authenticate(state: ApiKeyState, raw_keys: Seq<&str>)
    requires
        tags_of(state.tags@, state.hmac_key@, raw_keys),
    ensures
        forall|i: int| 0 <= i < raw_keys.len() ==> key_matches(state, #[trigger] raw_keys[i].spec_bytes()),
{
    assert forall|i: int| 0 <= i < raw_keys.len() implies key_matches(
        state,
        #[trigger] raw_keys[i].spec_bytes(),
    ) by {
        assert(state.tags@[i]@ == spec_hmac_sha256(state.hmac_key@, raw_keys[i].spec_bytes()));
    }
}

/// `s` without leading ASCII whitespace bytes.
pub open spec fn trim_ascii_start(s: Seq<u8>) -> Seq<u8>
    decreases s.len(),
{
    if s.len() > 0 && is_ascii_ws_byte(s[0]) {
        trim_ascii_start(s.drop_first())
    } else {
        s
    }
}

/// `s` without trailing ASCII whitespace bytes.
pub open spec fn trim_ascii_end(s: Seq<u8>) -> Seq<u8>
    decreases s.len(),
{
    if s.len() > 0 && is_ascii_ws_byte(s.last()) {
        trim_ascii_end(s.drop_last())
    } else {
        s
    }
}

/// `s` without leading and trailing ASCII whitespace bytes.
pub open spec fn trim_ascii_seq(s: Seq<u8>) -> Seq<u8> {
    trim_ascii_end(trim_ascii_start(s))
}

/// Strips leading and trailing ASCII whitespace from a byte slice.
pub fn trim_ascii(bytes: &[u8]) -> (r: &[u8])
    ensures
        r@ == trim_ascii_seq(bytes@),
{
    let n = bytes.len();
    let mut i: usize = 0;
    assert(bytes@.subrange(0, n as int) =~= bytes@);
    while i < n && ascii_ws_byte(bytes[i])
        invariant
            n == bytes@.len(),
            i <= n,
            trim_ascii_start(bytes@) == trim_ascii_start(bytes@.subrange(i as int, n as int)),
        decreases n - i,
    {
        assert(bytes@.subrange(i as int, n as int).drop_first() =~= bytes@.subrange(
            i as int + 1,
            n as int,
        ));
        i = i + 1;
    }
    assert(trim_ascii_start(bytes@) == bytes@.subrange(i as int, n as int));
    let mut j: usize = n;
    while j > i && ascii_ws_byte(bytes[j - 1])
        invariant
            n == bytes@.len(),
            i <= j <= n,
            trim_ascii_end(bytes@.subrange(i as int, n as int)) == trim_ascii_end(
                bytes@.subrange(i as int, j as int),
            ),
        decreases j,
    {
        assert(bytes@.subrange(i as int, j as int).drop_last() =~= bytes@.subrange(
            i as int,
            j as int - 1,
        ));
        j = j - 1;
    }
    assert(trim_ascii_end(bytes@.subrange(i as int, j as int)) == bytes@.subrange(
        i as int,
        j as int,
    ));
    slice_subrange(bytes, i, j)
}

/// The bytes of `Bearer ` (with the space).
pub open spec fn bearer_prefix() -> Seq<u8> {
    seq![66u8, 101u8, 97u8, 114u8, 101u8, 114u8, 32u8]
}

/// Whether `s` begins with `p`.
pub open spec fn bytes_start_with(s: Seq<u8>, p: Seq<u8>) -> bool {
    p.len() <= s.len() && s.subrange(0, p.len() as int) == p
}

fn starts_with_bearer(v: &[u8]) -> (r: bool)
    ensures
        r == bytes_start_with(v@, bearer_prefix()),
{
    if v.len() < 7 {
        return false;
    }
    let ok = v[0] == 66u8 && v[1] == 101u8 && v[2] == 97u8 && v[3] == 114u8 && v[4] == 101u8
        && v[5] == 114u8 && v[6] == 32u8;
    assert(ok <==> v@.subrange(0, 7) =~= bearer_prefix());
    ok
}

/// The token of an `Authorization` header value: what follows `Bearer `, when the
/// value starts with it (`extract_bearer`).
pub fn extract_bearer(authorization: Option<&[u8]>) -> (r: Option<&[u8]>)
    ensures
        match authorization {
            Some(v) => if bytes_start_with(v@, bearer_prefix()) {
                r matches Some(t) && t@ == v@.subrange(7, v@.len() as int)
            } else {
                r is None
            },
            None => r is None,
        },
{
    match authorization {
        Some(v) => {
            if starts_with_bearer(v) {
                let n = v.len();
                Some(slice_subrange(v, 7, n))
            } else {
                None
            }
        },
        None => None,
    }
}

/// The credential of a request, from its `Authorization` and `X-PJS-API-Key` header
/// values: a `Bearer ` token is preferred, then the API-key header; either is
/// stripped of surrounding ASCII whitespace.
pub fn extract_token<'a>(authorization: Option<&'a [u8]>, api_key: Option<&'a [u8]>) -> (r: Option<
    &'a [u8],
>)
    ensures
        (authorization matches Some(v) && bytes_start_with(v@, bearer_prefix())) ==> (r matches Some(
            t,
        ) && t@ == trim_ascii_seq(authorization->0@.subrange(7, authorization->0@.len() as int))),
        !(authorization matches Some(v) && bytes_start_with(v@, bearer_prefix())) ==> match api_key {
            Some(k) => r matches Some(t) && t@ == trim_ascii_seq(k@),
            None => r is None,
        },
{
    match extract_bearer(authorization) {
        Some(token) => {
            return Some(trim_ascii(token));
        },
        None => {},
    }
    match api_key {
        Some(k) => Some(trim_ascii(k)),
        None => None,
    }
}

/// What an authentication layer does with a request.
#[derive(Debug, Clone, Copy, PartialEq, Eq, Structural)]
pub enum AuthDecision {
    /// Hand the request to the inner service.
    Forward,
    /// Answer `401 Unauthorized` with [`UNAUTHORIZED_BODY`].
    Unauthorized,
}

/// Status of the answer to an unauthenticated request.
pub const UNAUTHORIZED_STATUS: u16 = 401;
/// JSON body of the answer to an unauthenticated request.
pub const UNAUTHORIZED_BODY: &'static str = "{\"error\":\"Unauthorized\"}";
/// Content type of the answer to an unauthenticated request.
pub const UNAUTHORIZED_CONTENT_TYPE: &'static str = "application/json";

/// The decision for a request: `OPTIONS` requests pass (CORS preflight carries no
/// credentials); any other request passes only with a credential that matches an
/// accepted key.
pub open spec fn auth_decision(state: ApiKeyState, is_options: bool, token: Option<Seq<u8>>) -> AuthDecision {
    if is_options {
        AuthDecision::Forward
    } else {
        match token {
            Some(t) => if key_matches(state, t) {
                AuthDecision::Forward
            } else {
                AuthDecision::Unauthorized
            },
            None => AuthDecision::Unauthorized,
        }
    }
}

/// The credential [`extract_token`] finds, as a byte sequence.
pub open spec fn token_of(authorization: Option<Seq<u8>>, api_key: Option<Seq<u8>>) -> Option<Seq<u8>> {
    if authorization matches Some(v) && bytes_start_with(v, bearer_prefix()) {
        Some(trim_ascii_seq(authorization->0.subrange(7, authorization->0.len() as int)))
    } else {
        match api_key {
            Some(k) => Some(trim_ascii_seq(k)),
            None => None,
        }
    }
}

/// The view of an optional byte slice.
pub open spec fn opt_bytes(o: Option<&[u8]>) -> Option<Seq<u8>> {
    match o {
        Some(v) => Some(v@),
        None => None,
    }
}

/// Tower-style layer enforcing API-key authentication on every non-`OPTIONS`
/// request.
#[derive(Clone)]
pub struct ApiKeyAuthLayer {
    inner: Arc<ApiKeyState>,
}

impl ApiKeyAuthLayer {
    /// A layer accepting the keys of `config`.
    pub fn new(config: ApiKeyConfig) -> (r: Self)
        ensures
            r.state().tags@ == config.keys@,
            r.state().hmac_key@ == config.hmac_key@,
    {
        ApiKeyAuthLayer {
            inner: Arc::new(ApiKeyState { hmac_key: config.hmac_key, tags: config.keys }),
        }
    }

    /// The state this layer consults.
    pub closed spec fn state(&self) -> ApiKeyState {
        *self.inner
    }

    /// Wraps an inner service.
    pub fn layer<S>(&self, inner: S) -> (r: ApiKeyAuthService<S>)
        ensures
            r.state() == self.state(),
            r.inner() == inner,
    {
        ApiKeyAuthService { inner, state: self.inner.clone() }
    }

    /// Decides a request from its method and credential headers.
    pub fn authorize(&self, is_options: bool, authorization: Option<&[u8]>, api_key: Option<&[u8]>) -> (r: AuthDecision)
        ensures
            r == auth_decision(self.state(), is_options, token_of(opt_bytes(authorization), opt_bytes(api_key))),
    {
        decide(&self.inner, is_options, authorization, api_key)
    }
}

fn decide(state: &ApiKeyState, is_options: bool, authorization: Option<&[u8]>, api_key: Option<&[u8]>) -> (r: AuthDecision)
    ensures
        r == auth_decision(*state, is_options, token_of(opt_bytes(authorization), opt_bytes(api_key))),
{
    if is_options {
        return AuthDecision::Forward;
    }
    match extract_token(authorization, api_key) {
        Some(candidate) => {
            if matches_any(state, candidate) {
                AuthDecision::Forward
            } else {
                AuthDecision::Unauthorized
            }
        },
        None => AuthDecision::Unauthorized,
    }
}

/// The service produced by [`ApiKeyAuthLayer`].
#[derive(Clone)]
pub struct ApiKeyAuthService<S> {
    inner: S,
    state: Arc<ApiKeyState>,
}

impl<S> ApiKeyAuthService<S> {
    /// The state this service consults.
    pub closed spec fn state(&self) -> ApiKeyState {
        *self.state
    }

    /// The wrapped service.
    pub closed spec fn inner(&self) -> S {
        self.inner
    }

    /// The wrapped service.
    pub fn inner_service(&mut self) -> (r: &mut S)
        ensures
            *r == old(self).inner(),
            final(self).inner() == *final(r),
            final(self).state() == old(self).state(),
    {
        &mut self.inner
    }

    /// Decides a request from its method and credential headers.
    pub fn authorize(&self, is_options: bool, authorization: Option<&[u8]>, api_key: Option<&[u8]>) -> (r: AuthDecision)
        ensures
            r == auth_decision(self.state(), is_options, token_of(opt_bytes(authorization), opt_bytes(api_key))),
    {
        decide(&self.state, is_options, authorization, api_key)
    }
}

} // verus!
