//! Priority JSON Streaming infrastructure: verified core logic.
#![allow(unused_imports)]

pub mod text;
pub mod priority;
pub mod streaming;
pub mod ids;
pub mod errors;
pub mod http_api;
pub mod cors;
pub mod auth;
pub mod net;
pub mod middleware;
pub mod dictionary;
pub mod string_map;
pub mod framework;
pub mod json;
pub mod adapter;
pub mod ws_protocol;
pub mod ws_server;
pub mod ws_client;
pub mod pool;
pub mod keyed;
pub mod schema_repo;
pub mod routes;
pub mod arena;
pub mod ws_sessions;
