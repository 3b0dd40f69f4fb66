use pjson_rs::auth::{
    extract_bearer, extract_token, matches_any, trim_ascii, ApiKeyAuthLayer, ApiKeyConfig,
    ApiKeyState, AuthConfigError, AuthDecision, UNAUTHORIZED_BODY, UNAUTHORIZED_CONTENT_TYPE,
    UNAUTHORIZED_STATUS,
};

fn layer_for(key: &str) -> ApiKeyAuthLayer {
    ApiKeyAuthLayer::new(ApiKeyConfig::new(&[key]).expect("valid key"))
}

#[test]
fn empty_key_list_is_rejected() {
    let err = ApiKeyConfig::new(&[]).unwrap_err();
    assert!(matches!(err, AuthConfigError::EmptyKeyList));
}

#[test]
fn key_with_whitespace_is_rejected() {
    let err = ApiKeyConfig::new(&["valid-key", "bad key"]).unwrap_err();
    assert!(matches!(err, AuthConfigError::WhitespaceInKey));
}

#[test]
fn key_with_leading_whitespace_is_rejected() {
    let err = ApiKeyConfig::new(&[" leading"]).unwrap_err();
    assert!(matches!(err, AuthConfigError::WhitespaceInKey));
}

#[test]
fn key_with_trailing_whitespace_is_rejected() {
    let err = ApiKeyConfig::new(&["trailing "]).unwrap_err();
    assert!(matches!(err, AuthConfigError::WhitespaceInKey));
}

#[test]
fn valid_single_key_is_accepted() {
    assert!(ApiKeyConfig::new(&["valid-key"]).is_ok());
}

#[test]
fn valid_multiple_keys_are_accepted() {
    assert!(ApiKeyConfig::new(&["key-one", "key-two", "key-three"]).is_ok());
}

#[test]
fn matches_any_correct_single_key() {
    let config = ApiKeyConfig::new(&["secret"]).unwrap();
    let state = ApiKeyState {
        hmac_key: config.hmac_key,
        tags: config.keys,
    };
    assert!(matches_any(&state, b"secret"));
    assert!(!matches_any(&state, b"wrong"));
}

#[test]
fn matches_any_correct_multiple_keys() {
    let config = ApiKeyConfig::new(&["key-a", "key-b", "key-c"]).unwrap();
    let state = ApiKeyState {
        hmac_key: config.hmac_key,
        tags: config.keys,
    };
    assert!(matches_any(&state, b"key-a"));
    assert!(matches_any(&state, b"key-b"));
    assert!(matches_any(&state, b"key-c"));
    assert!(!matches_any(&state, b"key-d"));
}

#[test]
fn extract_token_bearer() {
    assert_eq!(
        extract_token(Some(b"Bearer test-token".as_slice()), None),
        Some(b"test-token".as_slice())
    );
}

#[test]
fn extract_token_x_pjs_api_key() {
    assert_eq!(
        extract_token(None, Some(b"test-token".as_slice())),
        Some(b"test-token".as_slice())
    );
}

#[test]
fn extract_token_none_when_absent() {
    assert_eq!(extract_token(None, None), None);
}

#[test]
fn extract_token_bearer_preferred_over_x_pjs() {
    assert_eq!(
        extract_token(
            Some(b"Bearer bearer-val".as_slice()),
            Some(b"api-key-val".as_slice())
        ),
        Some(b"bearer-val".as_slice())
    );
}

#[test]
fn valid_bearer_token_returns_200() {
    let layer = layer_for("my-secret-key");
    let d = layer.authorize(false, Some(b"Bearer my-secret-key".as_slice()), None);
    assert_eq!(d, AuthDecision::Forward);
}

#[test]
fn valid_x_pjs_api_key_returns_200() {
    let layer = layer_for("my-secret-key");
    let d = layer.authorize(false, None, Some(b"my-secret-key".as_slice()));
    assert_eq!(d, AuthDecision::Forward);
}

#[test]
fn wrong_token_returns_401() {
    let layer = layer_for("my-secret-key");
    let d = layer.authorize(false, Some(b"Bearer wrong-key".as_slice()), None);
    assert_eq!(d, AuthDecision::Unauthorized);
}

#[test]
fn missing_header_returns_401() {
    let layer = layer_for("my-secret-key");
    assert_eq!(layer.authorize(false, None, None), AuthDecision::Unauthorized);
}

#[test]
fn options_bypasses_auth() {
    let layer = layer_for("my-secret-key");
    assert_eq!(layer.authorize(true, None, None), AuthDecision::Forward);
}

#[test]
fn service_decides_like_its_layer() {
    let layer = layer_for("k1");
    let svc = layer.layer(7u32);
    assert_eq!(
        svc.authorize(false, Some(b"Bearer k1".as_slice()), None),
        AuthDecision::Forward
    );
    assert_eq!(
        svc.authorize(false, Some(b"Bearer k2".as_slice()), None),
        AuthDecision::Unauthorized
    );
}

#[test]
fn bearer_with_padding_is_trimmed() {
    let layer = layer_for("padded");
    let d = layer.authorize(false, Some(b"Bearer   padded  ".as_slice()), None);
    assert_eq!(d, AuthDecision::Forward);
}

#[test]
fn lowercase_bearer_prefix_falls_back_to_api_key() {
    assert_eq!(extract_bearer(Some(b"bearer abc".as_slice())), None);
    assert_eq!(
        extract_token(Some(b"bearer abc".as_slice()), Some(b"xyz".as_slice())),
        Some(b"xyz".as_slice())
    );
    assert_eq!(extract_token(Some(b"Basic abc".as_slice()), None), None);
}

#[test]
fn extract_bearer_takes_the_rest_after_prefix() {
    assert_eq!(
        extract_bearer(Some(b"Bearer abc".as_slice())),
        Some(b"abc".as_slice())
    );
    assert_eq!(extract_bearer(None), None);
}

#[test]
fn trim_ascii_removes_outer_whitespace_only() {
    assert_eq!(trim_ascii(b"  a b \t\n"), b"a b".as_slice());
    assert_eq!(trim_ascii(b"   "), b"".as_slice());
    assert_eq!(trim_ascii(b"x"), b"x".as_slice());
}

#[test]
fn every_configured_key_authenticates_and_tags_differ_from_keys() {
    let keys = ["alpha", "beta", "gamma", "delta"];
    let config = ApiKeyConfig::new(&keys).unwrap();
    assert_eq!(config.keys.len(), keys.len());
    let state = ApiKeyState {
        hmac_key: config.hmac_key,
        tags: config.keys.clone(),
    };
    for k in keys.iter() {
        assert!(matches_any(&state, k.as_bytes()));
    }
    assert!(!matches_any(&state, b"epsilon"));
    assert!(!matches_any(&state, b""));
}

#[test]
fn two_configs_of_one_key_use_different_hmac_keys() {
    let a = ApiKeyConfig::new(&["same"]).unwrap();
    let b = ApiKeyConfig::new(&["same"]).unwrap();
    assert_ne!(a.hmac_key, b.hmac_key);
    assert_ne!(a.keys[0], b.keys[0]);
}

#[test]
fn config_error_messages() {
    assert_eq!(
        AuthConfigError::EmptyKeyList.message(),
        "API key list must not be empty"
    );
    assert_eq!(
        AuthConfigError::WhitespaceInKey.message(),
        "API key must not contain whitespace"
    );
}

#[test]
fn unauthorized_response_constants() {
    assert_eq!(UNAUTHORIZED_STATUS, 401);
    assert_eq!(UNAUTHORIZED_BODY, "{\"error\":\"Unauthorized\"}");
    assert_eq!(UNAUTHORIZED_CONTENT_TYPE, "application/json");
}
