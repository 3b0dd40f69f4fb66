use pjson_rs::cors::{
    build_cors_layer, build_cors_layer_from_origins, header_value_valid, AllowedOrigins,
    HttpServerConfig,
};
use pjson_rs::errors::{ApplicationError, PjsError};
use pjson_rs::http_api::{
    parse_session_and_stream_id, parse_session_id, parse_session_state, parse_sort_field,
    parse_sort_order, search_from_params, session_settings, generation_settings,
    CreateSessionRequest, FrameQueryParams, GenerateFramesRequest, GenerateFramesResponse,
    SearchSessionsParams, SessionSettings, SessionSortField, SessionState, SortOrder,
};
use pjson_rs::ids::{SessionId, StreamId};
use pjson_rs::routes::{create_pjs_router_with_config, protected_routes, public_routes, RouteMethod};

// --- build_cors_layer ---

#[test]
fn cors_empty_origins_denies_all() {
    let config = HttpServerConfig {
        allowed_origins: vec![],
    };
    let result = build_cors_layer(&config);
    assert!(result.is_ok(), "empty origins should return Ok (deny-all layer)");
    assert!(matches!(result, Ok(AllowedOrigins::DenyAll)));
}

#[test]
fn cors_wildcard_only_is_ok() {
    let config = HttpServerConfig {
        allowed_origins: vec!["*".to_string()],
    };
    let result = build_cors_layer(&config);
    assert!(result.is_ok(), "wildcard-only should return Ok");
    assert!(matches!(result, Ok(AllowedOrigins::Any)));
}

#[test]
fn cors_mixed_wildcard_and_explicit_is_err() {
    let config = HttpServerConfig {
        allowed_origins: vec!["*".to_string(), "http://example.com".to_string()],
    };
    let result = build_cors_layer(&config);
    assert!(result.is_err(), "mixing wildcard with explicit origins must fail");
    let msg = result.unwrap_err().message();
    assert!(msg.contains("wildcard"), "error message should mention wildcard: {msg}");
}

#[test]
fn cors_valid_single_origin_is_ok() {
    let config = HttpServerConfig {
        allowed_origins: vec!["http://example.com".to_string()],
    };
    assert!(build_cors_layer(&config).is_ok());
}

#[test]
fn cors_valid_multiple_origins_is_ok() {
    let config = HttpServerConfig {
        allowed_origins: vec![
            "https://app.example.com".to_string(),
            "https://admin.example.com".to_string(),
        ],
    };
    let result = build_cors_layer(&config);
    assert!(result.is_ok());
    match result {
        Ok(AllowedOrigins::List(v)) => assert_eq!(
            v,
            vec![
                "https://app.example.com".to_string(),
                "https://admin.example.com".to_string()
            ]
        ),
        _ => panic!("expected an explicit list"),
    }
}

#[test]
fn cors_invalid_origin_string_is_err() {
    let config = HttpServerConfig {
        allowed_origins: vec!["not a\nvalid header".to_string()],
    };
    let result = build_cors_layer(&config);
    assert!(result.is_err(), "invalid origin string must return Err");
}

#[test]
fn cors_invalid_origin_message_names_the_origin() {
    let origins = vec!["http://ok.example".to_string(), "bad\u{7f}".to_string()];
    match build_cors_layer_from_origins(&origins) {
        Err(PjsError::HttpError(m)) => {
            assert_eq!(m, "invalid CORS origin \"bad\\u{7f}\": failed to parse header value")
        }
        other => panic!("unexpected {other:?}"),
    }
}

#[test]
fn cors_mixed_message_is_exact() {
    let origins = vec!["http://a.example".to_string(), "*".to_string()];
    match build_cors_layer_from_origins(&origins) {
        Err(PjsError::HttpError(m)) => assert_eq!(
            m,
            "CORS: wildcard '*' cannot be combined with explicit origins"
        ),
        other => panic!("unexpected {other:?}"),
    }
}

#[test]
fn cors_repeated_wildcards_still_allow_any() {
    let origins = vec!["*".to_string(), "*".to_string()];
    assert!(matches!(
        build_cors_layer_from_origins(&origins),
        Ok(AllowedOrigins::Any)
    ));
}

#[test]
fn default_config_is_valid() {
    assert!(
        build_cors_layer(&HttpServerConfig::default()).is_ok(),
        "default HttpServerConfig must produce a valid CORS layer"
    );
    assert_eq!(
        HttpServerConfig::default().allowed_origins,
        vec!["http://localhost:3000".to_string()]
    );
}

#[test]
fn header_value_validity() {
    assert!(header_value_valid("text/plain; charset=utf-8"));
    assert!(header_value_valid("tab\there"));
    assert!(!header_value_valid("line\nbreak"));
    assert!(!header_value_valid("del\u{7f}"));
}

// --- router plan ---

#[test]
fn test_metrics_router_has_metrics_route() {
    let plan = create_pjs_router_with_config(&HttpServerConfig::default())
        .expect("router should build successfully with metrics feature");
    assert!(plan.public.iter().any(|r| r.path == "/metrics" && r.method == RouteMethod::Get));
    assert!(plan.public.iter().any(|r| r.path == "/pjs/health"));
}

#[test]
fn router_plan_fails_on_bad_cors_and_lists_protected_routes() {
    let bad = HttpServerConfig::new(vec!["*".to_string(), "http://x".to_string()]);
    assert!(create_pjs_router_with_config(&bad).is_err());
    let p = protected_routes(false);
    assert_eq!(p.len(), 13);
    assert_eq!(p[0].path, "/pjs/sessions");
    assert_eq!(p[0].method, RouteMethod::Post);
    assert_eq!(protected_routes(true).len(), 14);
    assert_eq!(public_routes(false).len(), 1);
    let plan = create_pjs_router_with_config(&HttpServerConfig::new(vec![])).unwrap();
    assert_eq!(plan.max_concurrent_requests, 512);
    assert_eq!(plan.max_body_bytes, 10 * 1024 * 1024);
    assert_eq!(plan.request_timeout_secs, 30);
    assert_eq!(plan.body_idle_timeout_secs, 60);
}

// --- parse_session_id / parse_session_and_stream_id ---

#[test]
fn parse_session_id_valid_roundtrips() {
    let id = SessionId::new().unwrap();
    let parsed = parse_session_id(id.to_string()).expect("valid uuid must parse");
    assert_eq!(parsed, id);
}

#[test]
fn parse_session_id_invalid_returns_invalid_session_id_error() {
    let raw = "not-a-valid-uuid".to_string();
    let err = parse_session_id(raw.clone()).unwrap_err();
    match err {
        PjsError::InvalidSessionId(msg) => assert_eq!(msg, raw),
        other => panic!("expected InvalidSessionId, got {other:?}"),
    }
}

#[test]
fn parse_session_and_stream_id_valid_roundtrips() {
    let session_id = SessionId::new().unwrap();
    let stream_id = StreamId::new().unwrap();
    let (parsed_session, parsed_stream) =
        parse_session_and_stream_id(session_id.to_string(), stream_id.to_string())
            .expect("valid uuids must parse");
    assert_eq!(parsed_session, session_id);
    assert_eq!(parsed_stream, stream_id);
}

#[test]
fn parse_session_and_stream_id_invalid_session_short_circuits() {
    let raw_session = "bad-session".to_string();
    let err = parse_session_and_stream_id(raw_session.clone(), StreamId::new().unwrap().to_string())
        .unwrap_err();
    match err {
        PjsError::InvalidSessionId(msg) => assert_eq!(msg, raw_session),
        other => panic!("expected InvalidSessionId, got {other:?}"),
    }
}

#[test]
fn parse_session_and_stream_id_invalid_stream_returns_invalid_stream_id_error() {
    let raw_stream = "bad-stream".to_string();
    let err = parse_session_and_stream_id(SessionId::new().unwrap().to_string(), raw_stream.clone())
        .unwrap_err();
    match err {
        PjsError::InvalidStreamId(msg) => assert_eq!(msg, raw_stream),
        other => panic!("expected InvalidStreamId, got {other:?}"),
    }
}

#[test]
fn uuid_text_is_hyphenated_lowercase_and_parses_back() {
    let id = SessionId(0x0123_4567_89ab_cdef_0123_4567_89ab_cdef);
    assert_eq!(id.to_string(), "01234567-89ab-cdef-0123-456789abcdef");
    assert_eq!(
        SessionId::from_string("01234567-89AB-CDEF-0123-456789ABCDEF"),
        Some(id)
    );
    assert_eq!(
        StreamId::from_string("0123456789abcdef0123456789abcdef"),
        Some(StreamId(0x0123_4567_89ab_cdef_0123_4567_89ab_cdef))
    );
    assert_eq!(SessionId::from_string(""), None);
    assert_ne!(SessionId::new().unwrap(), SessionId::new().unwrap());
}

// --- query parsing ---

#[test]
fn session_state_names_are_exact() {
    assert_eq!(parse_session_state("Active".to_string()), Ok(SessionState::Active));
    assert_eq!(
        parse_session_state("Initializing".to_string()),
        Ok(SessionState::Initializing)
    );
    assert_eq!(
        parse_session_state("active".to_string()),
        Err(PjsError::InvalidSessionState("active".to_string()))
    );
}

#[test]
fn sort_fields_and_orders() {
    assert_eq!(
        parse_sort_field("stream_count".to_string()),
        Ok(SessionSortField::StreamCount)
    );
    assert_eq!(
        parse_sort_field("".to_string()),
        Err(PjsError::InvalidSortField(String::new()))
    );
    assert_eq!(parse_sort_order("asc".to_string()), Ok(SortOrder::Ascending));
    assert_eq!(parse_sort_order("descending".to_string()), Ok(SortOrder::Descending));
    assert_eq!(
        parse_sort_order("up".to_string()),
        Err(PjsError::InvalidSortOrder("up".to_string()))
    );
}

#[test]
fn search_reports_sort_field_before_other_errors() {
    let p = SearchSessionsParams {
        state: Some("bogus".to_string()),
        sort_by: Some("bogus".to_string()),
        sort_order: Some("bogus".to_string()),
        limit: None,
        offset: None,
    };
    assert_eq!(
        search_from_params(p),
        Err(PjsError::InvalidSortField("bogus".to_string()))
    );
    let p = SearchSessionsParams {
        state: Some("bogus".to_string()),
        sort_by: None,
        sort_order: Some("sideways".to_string()),
        limit: None,
        offset: None,
    };
    assert_eq!(
        search_from_params(p),
        Err(PjsError::InvalidSortOrder("sideways".to_string()))
    );
    let p = SearchSessionsParams {
        state: Some("Done".to_string()),
        sort_by: None,
        sort_order: None,
        limit: Some(5),
        offset: None,
    };
    assert_eq!(
        search_from_params(p),
        Err(PjsError::InvalidSessionState("Done".to_string()))
    );
}

#[test]
fn search_accepts_valid_and_absent_parameters() {
    let p = SearchSessionsParams {
        state: Some("Completed".to_string()),
        sort_by: Some("created_at".to_string()),
        sort_order: Some("desc".to_string()),
        limit: Some(10),
        offset: Some(20),
    };
    let s = search_from_params(p).unwrap();
    assert_eq!(s.state, Some(SessionState::Completed));
    assert_eq!(s.sort_by, Some(SessionSortField::CreatedAt));
    assert_eq!(s.sort_order, Some(SortOrder::Descending));
    assert_eq!(s.limit, Some(10));
    assert_eq!(s.offset, Some(20));
    let empty = SearchSessionsParams {
        state: None,
        sort_by: None,
        sort_order: None,
        limit: None,
        offset: None,
    };
    let s = search_from_params(empty).unwrap();
    assert_eq!(s.state, None);
    assert_eq!(s.sort_by, None);
}

#[test]
fn session_settings_defaults_and_limits() {
    let req = CreateSessionRequest {
        max_concurrent_streams: None,
        timeout_seconds: None,
        client_info: None,
    };
    assert_eq!(
        session_settings(&req),
        Ok(SessionSettings {
            max_concurrent_streams: 10,
            timeout_seconds: 3600
        })
    );
    let zero_streams = CreateSessionRequest {
        max_concurrent_streams: Some(0),
        timeout_seconds: None,
        client_info: None,
    };
    let e = session_settings(&zero_streams).unwrap_err();
    assert!(matches!(e, PjsError::Application(ApplicationError::Validation(_))));
    assert_eq!(e.status_code(), 400);
    let long = CreateSessionRequest {
        max_concurrent_streams: Some(3),
        timeout_seconds: Some(604801),
        client_info: Some("c".to_string()),
    };
    assert!(session_settings(&long).is_err());
    let max = CreateSessionRequest {
        max_concurrent_streams: Some(3),
        timeout_seconds: Some(604800),
        client_info: None,
    };
    assert_eq!(session_settings(&max).unwrap().timeout_seconds, 604800);
    let zero_timeout = CreateSessionRequest {
        max_concurrent_streams: Some(3),
        timeout_seconds: Some(0),
        client_info: None,
    };
    assert!(session_settings(&zero_timeout).is_err());
}

#[test]
fn generation_settings_defaults_and_limits() {
    assert_eq!(generation_settings(&GenerateFramesRequest::default()), Ok((10, 16)));
    let zero_priority = GenerateFramesRequest {
        priority_threshold: Some(0),
        max_frames: None,
    };
    assert!(matches!(
        generation_settings(&zero_priority),
        Err(PjsError::InvalidPriority(_))
    ));
    let too_many = GenerateFramesRequest {
        priority_threshold: Some(200),
        max_frames: Some(1001),
    };
    assert!(matches!(
        generation_settings(&too_many),
        Err(PjsError::Application(ApplicationError::Validation(_)))
    ));
    let ok = GenerateFramesRequest {
        priority_threshold: Some(200),
        max_frames: Some(1000),
    };
    assert_eq!(generation_settings(&ok), Ok((200, 1000)));
}

#[test]
fn frame_query_priority_filter() {
    let none = FrameQueryParams {
        since_sequence: None,
        priority: None,
        limit: None,
    };
    assert_eq!(none.priority_filter(), Ok(None));
    let some = FrameQueryParams {
        since_sequence: Some(3),
        priority: Some(7),
        limit: Some(5),
    };
    assert_eq!(some.priority_filter(), Ok(Some(7)));
    let zero = FrameQueryParams {
        since_sequence: None,
        priority: Some(0),
        limit: None,
    };
    assert!(matches!(zero.priority_filter(), Err(PjsError::InvalidPriority(_))));
}

#[test]
fn generate_frames_response_counts_frames() {
    let r = GenerateFramesResponse::new(vec![1u8, 2, 3]);
    assert_eq!(r.frame_count, 3);
    assert_eq!(r.frames, vec![1u8, 2, 3]);
}

// --- errors ---

#[test]
fn error_status_codes() {
    assert_eq!(
        PjsError::Application(ApplicationError::NotFound("x".to_string())).status_code(),
        404
    );
    assert_eq!(
        PjsError::Application(ApplicationError::Conflict("x".to_string())).status_code(),
        409
    );
    assert_eq!(
        PjsError::Application(ApplicationError::Authorization("x".to_string())).status_code(),
        401
    );
    assert_eq!(
        PjsError::Application(ApplicationError::Logic("x".to_string())).status_code(),
        500
    );
    assert_eq!(PjsError::InvalidSessionId("x".to_string()).status_code(), 400);
    assert_eq!(PjsError::HttpError("x".to_string()).status_code(), 500);
}

#[test]
fn error_messages() {
    assert_eq!(
        PjsError::InvalidSessionId("abc".to_string()).message(),
        "Invalid session ID: abc"
    );
    assert_eq!(
        PjsError::Application(ApplicationError::Validation("bad".to_string())).message(),
        "Application error: bad"
    );
    assert_eq!(
        PjsError::InvalidSortOrder("up".to_string()).message(),
        "Invalid sort order: up (expected one of: asc, ascending, desc, descending)"
    );
    assert_eq!(PjsError::HttpError("boom".to_string()).message(), "HTTP error: boom");
}

#[test]
fn fresh_ids_are_version_4_uuids() {
    for _ in 0..8 {
        let s = SessionId::new().unwrap().to_string();
        assert_eq!(&s[14..15], "4");
        assert!(matches!(&s[19..20], "8" | "9" | "a" | "b"));
        let t = StreamId::new().unwrap();
        assert_eq!((t.0 >> 76) & 0xf, 4);
        assert_eq!((t.0 >> 62) & 0x3, 2);
    }
}
