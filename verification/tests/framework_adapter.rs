use pjson_rs::adapter::{
    auto_stream_format, default_error_response, default_health_response, AdapterConfig,
    StreamFrame, StreamingFormat, UniversalAdapter, UniversalAdapterBuilder,
};
use pjson_rs::framework::{
    default_cors_headers, default_security_headers, HttpMethod, HttpStatus, JsonData,
    RequestExtractor, ResponseBody, ResponseBuilder, UniversalRequest, UniversalResponse,
};
use pjson_rs::ids::SessionId;
use pjson_rs::json::to_json_string;
use pjson_rs::string_map::StringMap;

#[test]
fn test_http_method_conversion() {
    assert_eq!(HttpMethod::from("GET"), HttpMethod::Get);
    assert_eq!(HttpMethod::from("post"), HttpMethod::Post);
    assert_eq!(HttpMethod::from("INVALID"), HttpMethod::Get);
}

#[test]
fn http_method_names_round_trip() {
    for m in [
        HttpMethod::Get,
        HttpMethod::Post,
        HttpMethod::Put,
        HttpMethod::Delete,
        HttpMethod::Patch,
        HttpMethod::Head,
        HttpMethod::Options,
    ] {
        assert_eq!(HttpMethod::parse(m.as_str()), m);
    }
    assert_eq!(HttpMethod::parse("dElEtE"), HttpMethod::Delete);
}

#[test]
fn test_http_status() {
    assert_eq!(HttpStatus::Okay.code(), 200);
    assert_eq!(HttpStatus::NotFound.code(), 404);
    assert_eq!(
        HttpStatus::InternalServerError.reason_phrase(),
        "Internal Server Error"
    );
    assert_eq!(HttpStatus::Created.code(), 201);
    assert_eq!(HttpStatus::Okay.reason_phrase(), "OK");
}

#[test]
fn test_query_param_extraction() {
    let params = RequestExtractor::extract_query_params("/api/test?foo=bar&baz=qux");
    assert_eq!(params.get("foo"), Some(&"bar".to_string()));
    assert_eq!(params.get("baz"), Some(&"qux".to_string()));
}

#[test]
fn query_params_are_percent_decoded_and_later_keys_win() {
    let params = RequestExtractor::extract_query_params("/p?a=1&a=2&name=hello%20world&flag");
    assert_eq!(params.get("a"), Some(&"2".to_string()));
    assert_eq!(params.get("name"), Some(&"hello world".to_string()));
    assert_eq!(params.get("flag"), Some(&String::new()));
    let none = RequestExtractor::extract_query_params("/no-query");
    assert_eq!(none.len(), 0);
}

#[test]
fn test_path_extraction() {
    assert_eq!(RequestExtractor::extract_path("/api/test?foo=bar"), "/api/test");
    assert_eq!(RequestExtractor::extract_path("/api/test"), "/api/test");
}

#[test]
fn test_content_type_parsing() {
    let (mime_type, params) =
        RequestExtractor::parse_content_type("application/json; charset=utf-8");
    assert_eq!(mime_type, "application/json");
    assert_eq!(params.get("charset"), Some(&"utf-8".to_string()));
}

#[test]
fn content_type_parameters_lose_their_quotes() {
    let (mime, params) =
        RequestExtractor::parse_content_type("multipart/form-data; boundary=\"xyz\"");
    assert_eq!(mime, "multipart/form-data");
    assert_eq!(params.get("boundary"), Some(&"xyz".to_string()));
}

#[test]
fn test_response_builder() {
    let response = ResponseBuilder::new()
        .status(HttpStatus::Created)
        .header("X-Test", "test")
        .content_type("application/json")
        .build();
    assert_eq!(response.status_code, 201);
    assert_eq!(response.headers.get("X-Test"), Some(&"test".to_string()));
    assert_eq!(response.content_type, "application/json");
}

#[test]
fn response_builder_bodies() {
    let r = ResponseBuilder::new().binary(vec![1, 2, 3]).build();
    assert!(matches!(r.body, ResponseBody::Binary(ref b) if b == &vec![1u8, 2, 3]));
    assert_eq!(r.content_type, "application/octet-stream");
    let r = ResponseBuilder::default().json(JsonData::Bool(true)).build();
    assert!(matches!(r.body, ResponseBody::Json(JsonData::Bool(true))));
    assert_eq!(r.status_code, 200);
}

#[test]
fn test_cors_headers() {
    let headers = default_cors_headers();
    assert!(headers.contains_key("Access-Control-Allow-Origin"));
    assert!(headers.contains_key("Access-Control-Allow-Methods"));
}

#[test]
fn security_header_map() {
    let headers = default_security_headers();
    assert_eq!(headers.get("X-Frame-Options"), Some(&"DENY".to_string()));
    assert!(headers.contains_key("X-Content-Type-Options"));
}

#[test]
fn test_streaming_format_content_types() {
    assert_eq!(StreamingFormat::Json.content_type(), "application/json");
    assert_eq!(StreamingFormat::Ndjson.content_type(), "application/x-ndjson");
    assert_eq!(
        StreamingFormat::ServerSentEvents.content_type(),
        "text/event-stream"
    );
    assert_eq!(
        StreamingFormat::Binary.content_type(),
        "application/octet-stream"
    );
}

#[test]
fn test_format_detection_from_accept_header() {
    assert_eq!(
        StreamingFormat::from_accept_header("text/event-stream"),
        StreamingFormat::ServerSentEvents
    );
    assert_eq!(
        StreamingFormat::from_accept_header("application/x-ndjson"),
        StreamingFormat::Ndjson
    );
    assert_eq!(
        StreamingFormat::from_accept_header("application/json"),
        StreamingFormat::Json
    );
    assert_eq!(
        StreamingFormat::from_accept_header("application/octet-stream, */*"),
        StreamingFormat::Binary
    );
}

#[test]
fn test_universal_request_creation() {
    let request = UniversalRequest::new("GET", "/api/stream")
        .with_header("Accept", "text/event-stream")
        .with_query("priority", "high");
    assert_eq!(request.method, "GET");
    assert_eq!(request.path, "/api/stream");
    assert!(request.accepts("text/event-stream"));
    assert_eq!(request.get_query("priority"), Some(&"high".to_string()));
}

#[test]
fn request_headers_are_found_ignoring_case() {
    let request = UniversalRequest::new("POST", "/x").with_header("Content-Type", "text/plain");
    assert_eq!(request.get_header("content-type"), Some(&"text/plain".to_string()));
    assert_eq!(request.get_header("accept"), None);
    assert!(!request.accepts("text/plain"));
    assert_eq!(auto_stream_format(&request), StreamingFormat::Json);
    let sse = UniversalRequest::new("GET", "/s").with_header("ACCEPT", "text/event-stream");
    assert_eq!(auto_stream_format(&sse), StreamingFormat::ServerSentEvents);
}

#[test]
fn test_adapter_config_creation() {
    let config = AdapterConfig::default();
    assert_eq!(config.framework_name, "universal");
    assert!(config.supports_streaming);
    assert!(config.supports_sse);
}

#[test]
fn test_adapter_builder() {
    let adapter: UniversalAdapter<(), (), std::io::Error> = UniversalAdapterBuilder::new()
        .framework_name("test")
        .streaming_support(false)
        .sse_support(true)
        .default_header("X-Test", "test")
        .build();
    assert_eq!(adapter.config().framework_name, "test");
    assert!(!adapter.config().supports_streaming);
    assert!(adapter.config().supports_sse);
    assert_eq!(
        adapter.config().default_headers.get("X-Test"),
        Some(&"test".to_string())
    );
    assert_eq!(adapter.framework_name(), "test");
}

#[test]
fn test_universal_adapter_capabilities() {
    let adapter: UniversalAdapter<(), (), std::io::Error> = UniversalAdapter::new();
    assert!(adapter.supports_streaming());
    assert!(adapter.supports_sse());
    assert_eq!(adapter.framework_name(), "universal");
}

fn frame(n: i64, priority: u8) -> StreamFrame {
    let mut metadata = StringMap::new();
    metadata.insert("k".to_string(), "v".to_string());
    StreamFrame {
        data: JsonData::Integer(n),
        priority,
        metadata,
    }
}

#[test]
fn streaming_response_in_each_format() {
    let mut adapter: UniversalAdapter<(), (), std::io::Error> = UniversalAdapter::new();
    adapter.add_default_header("X-A", "b");
    let sid = SessionId(1);

    let r = adapter.create_streaming_response(sid, vec![frame(1, 5), frame(2, 9)], StreamingFormat::Json);
    assert_eq!(r.status_code, 200);
    assert_eq!(r.content_type, "application/json");
    match r.body {
        ResponseBody::Json(j) => assert_eq!(
            to_json_string(&j),
            "[{\"data\":1,\"priority\":5,\"metadata\":{\"k\":\"v\"}},{\"data\":2,\"priority\":9,\"metadata\":{\"k\":\"v\"}}]"
        ),
        _ => panic!("expected JSON"),
    }

    let r = adapter.create_streaming_response(sid, vec![frame(3, 1)], StreamingFormat::Ndjson);
    assert_eq!(r.content_type, "application/x-ndjson");
    assert_eq!(r.headers.get("X-A"), Some(&"b".to_string()));
    match r.body {
        ResponseBody::ServerSentEvents(lines) => assert_eq!(
            lines,
            vec!["{\"data\":3,\"priority\":1,\"metadata\":{\"k\":\"v\"}}".to_string()]
        ),
        _ => panic!("expected lines"),
    }

    let r = adapter.create_streaming_response(sid, vec![frame(4, 2)], StreamingFormat::ServerSentEvents);
    assert_eq!(r.content_type, "text/event-stream");
    assert_eq!(
        r.headers.get("X-PJS-Session-ID"),
        Some(&"00000000-0000-0000-0000-000000000001".to_string())
    );
    match r.body {
        ResponseBody::ServerSentEvents(events) => assert_eq!(
            events,
            vec!["data: {\"data\":4,\"priority\":2,\"metadata\":{\"k\":\"v\"}}\n\n".to_string()]
        ),
        _ => panic!("expected events"),
    }

    let r = adapter.create_streaming_response(sid, vec![frame(5, 3), frame(6, 4)], StreamingFormat::Binary);
    assert_eq!(r.content_type, "application/octet-stream");
    match r.body {
        ResponseBody::Binary(b) => assert_eq!(
            String::from_utf8(b).unwrap(),
            "{\"data\":5,\"priority\":3,\"metadata\":{\"k\":\"v\"}}{\"data\":6,\"priority\":4,\"metadata\":{\"k\":\"v\"}}"
        ),
        _ => panic!("expected bytes"),
    }
}

#[test]
fn error_and_health_responses() {
    let r = default_error_response(503, "down \"now\"".to_string());
    assert_eq!(r.status_code, 503);
    match r.body {
        ResponseBody::Json(j) => assert_eq!(
            to_json_string(&j),
            "{\"error\":\"down \\\"now\\\"\",\"status\":503}"
        ),
        _ => panic!("expected JSON"),
    }
    let r = default_health_response("axum", true, false);
    assert_eq!(r.status_code, 200);
    assert_eq!(r.headers.get("X-Health-Check"), Some(&"pjs".to_string()));
    match r.body {
        ResponseBody::Json(j) => assert_eq!(
            to_json_string(&j),
            "{\"status\":\"healthy\",\"framework\":\"axum\",\"streaming_support\":true,\"sse_support\":false}"
        ),
        _ => panic!("expected JSON"),
    }
}

#[test]
fn json_text_escapes_like_serde_json() {
    let j = JsonData::Object(vec![
        ("a\nb".to_string(), JsonData::Array(vec![JsonData::Null, JsonData::Integer(-12)])),
        ("t".to_string(), JsonData::String("\u{1}\t\\".to_string())),
    ]);
    assert_eq!(to_json_string(&j), "{\"a\\nb\":[null,-12],\"t\":\"\\u0001\\t\\\\\"}");
    assert_eq!(to_json_string(&JsonData::Integer(i64::MIN)), "-9223372036854775808");
}

#[test]
fn universal_response_constructors() {
    let r = UniversalResponse::server_sent_events(vec!["x".to_string()]).with_header("A", "1");
    assert_eq!(r.content_type, "text/event-stream");
    assert_eq!(r.headers.get("A"), Some(&"1".to_string()));
}

#[test]
fn json_text_escapes_strings_as_serde_json_does() {
    let mut all_controls = String::new();
    for u in 0u8..0x20 {
        all_controls.push(char::from(u));
    }
    let cases = [
        all_controls.as_str(),
        "quote \" backslash \\ slash /",
        "\u{7f} delete stays",
        "é ünïcödé 漢字 🎉",
        "\u{2028}\u{2029}",
        "",
    ];
    for s in cases {
        let ours = to_json_string(&JsonData::String(s.to_string()));
        let theirs = serde_json::to_string(s).unwrap();
        assert_eq!(ours, theirs, "escaping of {s:?}");
    }
    let nested = JsonData::Array(vec![
        JsonData::Object(vec![("k\u{1f}".to_string(), JsonData::Bool(true))]),
        JsonData::Integer(-7),
        JsonData::Null,
    ]);
    let mut object = serde_json::Map::new();
    object.insert("k\u{1f}".to_string(), serde_json::Value::Bool(true));
    let value = serde_json::Value::Array(vec![
        serde_json::Value::Object(object),
        serde_json::Value::from(-7i64),
        serde_json::Value::Null,
    ]);
    assert_eq!(to_json_string(&nested), serde_json::to_string(&value).unwrap());
}
