//! The route table and cross-cutting limits of the PJS HTTP router.
use vstd::prelude::*;
use crate::cors::{build_cors_layer, cors_outcome, AllowedOrigins, HttpServerConfig};
use crate::errors::PjsError;

verus! {

/// HTTP method a route answers.
#[derive(Debug, Clone, Copy, PartialEq, Eq, Structural)]
pub enum RouteMethod {
    /// `GET`
    Get,
    /// `POST`
    Post,
}

/// One route: a method and a path pattern (`{name}` marks a path parameter).
#[derive(Debug, Clone, Copy)]
pub struct RouteSpec {
    /// The method.
    pub method: RouteMethod,
    /// The path pattern.
    pub path: &'static str,
}

/// Global cap on requests handled at once.
pub const MAX_CONCURRENT_REQUESTS: usize = 512;
/// Seconds from receiving a request to producing its response before `408`.
pub const REQUEST_TIMEOUT_SECS: u64 = 30;
/// Seconds a response body may stall between frames.
pub const RESPONSE_BODY_IDLE_TIMEOUT_SECS: u64 = 60;
/// Largest request body accepted, in bytes.
pub const MAX_REQUEST_BODY_BYTES: usize = 10485760;

/// The paths (with their methods) that need no authentication.
pub open spec fn public_route_table(metrics: bool) -> Seq<(RouteMethod, Seq<char>)> {
    let base = seq![(RouteMethod::Get, "/pjs/health"@)];
    if metrics {
        base.push((RouteMethod::Get, "/metrics"@))
    } else {
        base
    }
}

/// The paths (with their methods) that an authentication layer guards.
pub open spec fn protected_route_table(dictionary: bool) -> Seq<(RouteMethod, Seq<char>)> {
    let base = seq![
        (RouteMethod::Post, "/pjs/sessions"@),
        (RouteMethod::Get, "/pjs/sessions/{session_id}"@),
        (RouteMethod::Get, "/pjs/sessions/{session_id}/health"@),
        (RouteMethod::Get, "/pjs/sessions/{session_id}/stats"@),
        (RouteMethod::Post, "/pjs/sessions/{session_id}/streams"@),
        (RouteMethod::Post, "/pjs/sessions/{session_id}/streams/{stream_id}/start"@),
        (RouteMethod::Post, "/pjs/sessions/{session_id}/streams/{stream_id}/generate-frames"@),
        (RouteMethod::Get, "/pjs/sessions/{session_id}/streams/{stream_id}"@),
        (RouteMethod::Get, "/pjs/sessions/{session_id}/streams/{stream_id}/frames"@),
        (RouteMethod::Get, "/pjs/sessions/{session_id}/streams/{stream_id}/frames/stream"@),
        (RouteMethod::Get, "/pjs/sessions/search"@),
        (RouteMethod::Get, "/pjs/sessions"@),
        (RouteMethod::Get, "/pjs/stats"@),
    ];
    if dictionary {
        base.push((RouteMethod::Get, "/pjs/sessions/{session_id}/dictionary"@))
    } else {
        base
    }
}

/// The method and path of each route.
pub open spec fn route_view(v: Seq<RouteSpec>) -> Seq<(RouteMethod, Seq<char>)> {
    Seq::new(v.len(), |i: int| (v[i].method, v[i].path@))
}

fn route(method: RouteMethod, path: &'static str) -> (r: RouteSpec)
    ensures
        r.method == method,
        r.path@ == path@,
{
    RouteSpec { method, path }
}

/// The routes that need no authentication; `/metrics` is there when the
/// metrics endpoint is enabled.
pub fn public_routes(metrics: bool) -> (r: Vec<RouteSpec>)
    ensures
        route_view(r@) == public_route_table(metrics),
{
    let mut v: Vec<RouteSpec> = Vec::new();
    v.push(route(RouteMethod::Get, "/pjs/health"));
    if metrics {
        v.push(route(RouteMethod::Get, "/metrics"));
    }
    assert(route_view(v@) =~= public_route_table(metrics));
    v
}

/// The routes an authentication layer guards; the dictionary route is there
/// when compression dictionaries are enabled.
pub fn protected_routes(dictionary: bool) -> (r: Vec<RouteSpec>)
    ensures
        route_view(r@) == protected_route_table(dictionary),
{
    let mut v: Vec<RouteSpec> = Vec::new();
    v.push(route(RouteMethod::Post, "/pjs/sessions"));
    v.push(route(RouteMethod::Get, "/pjs/sessions/{session_id}"));
    v.push(route(RouteMethod::Get, "/pjs/sessions/{session_id}/health"));
    v.push(route(RouteMethod::Get, "/pjs/sessions/{session_id}/stats"));
    v.push(route(RouteMethod::Post, "/pjs/sessions/{session_id}/streams"));
    v.push(route(RouteMethod::Post, "/pjs/sessions/{session_id}/streams/{stream_id}/start"));
    v.push(
        route(RouteMethod::Post, "/pjs/sessions/{session_id}/streams/{stream_id}/generate-frames"),
    );
    v.push(route(RouteMethod::Get, "/pjs/sessions/{session_id}/streams/{stream_id}"));
    v.push(route(RouteMethod::Get, "/pjs/sessions/{session_id}/streams/{stream_id}/frames"));
    v.push(
        route(RouteMethod::Get, "/pjs/sessions/{session_id}/streams/{stream_id}/frames/stream"),
    );
    v.push(route(RouteMethod::Get, "/pjs/sessions/search"));
    v.push(route(RouteMethod::Get, "/pjs/sessions"));
    v.push(route(RouteMethod::Get, "/pjs/stats"));
    if dictionary {
        v.push(route(RouteMethod::Get, "/pjs/sessions/{session_id}/dictionary"));
    }
    assert(route_view(v@) =~= protected_route_table(dictionary));
    v
}

/// Everything a PJS router is built from: its routes, its CORS policy and the
/// limits of its middleware stack.
#[derive(Debug, Clone)]
pub struct RouterPlan {
    /// Routes served without authentication.
    pub public: Vec<RouteSpec>,
    /// Routes an authentication layer guards.
    pub protected: Vec<RouteSpec>,
    /// The CORS origin policy.
    pub cors: AllowedOrigins,
    /// Global cap on requests handled at once.
    pub max_concurrent_requests: usize,
    /// Largest request body accepted, in bytes.
    pub max_body_bytes: usize,
    /// Whole-request timeout in seconds.
    pub request_timeout_secs: u64,
    /// Response-body idle timeout in seconds.
    pub body_idle_timeout_secs: u64,
}

/// The plan of the router with every route and the metrics endpoint; it fails
/// exactly when the CORS policy of `config` cannot be built, with that error.
pub fn create_pjs_router_with_config(config: &HttpServerConfig) -> (r: Result<RouterPlan, PjsError>)
    ensures
        match r {
            Ok(p) => {
                &&& cors_outcome(config.allowed_origins@, Ok(p.cors))
                &&& route_view(p.public@) == public_route_table(true)
                &&& route_view(p.protected@) == protected_route_table(false)
                &&& p.max_concurrent_requests == MAX_CONCURRENT_REQUESTS
                &&& p.max_body_bytes == MAX_REQUEST_BODY_BYTES
                &&& p.request_timeout_secs == REQUEST_TIMEOUT_SECS
                &&& p.body_idle_timeout_secs == RESPONSE_BODY_IDLE_TIMEOUT_SECS
            },
            Err(e) => cors_outcome(config.allowed_origins@, Err(e)),
        },
{
    let cors = match build_cors_layer(config) {
        Ok(c) => c,
        Err(e) => {
            return Err(e);
        },
    };
    Ok(
        RouterPlan {
            public: public_routes(true),
            protected: protected_routes(false),
            cors,
            max_concurrent_requests: MAX_CONCURRENT_REQUESTS,
            max_body_bytes: MAX_REQUEST_BODY_BYTES,
            request_timeout_secs: REQUEST_TIMEOUT_SECS,
            body_idle_timeout_secs: RESPONSE_BODY_IDLE_TIMEOUT_SECS,
        },
    )
}

} // verus!
