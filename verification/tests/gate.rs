//! Who may call, and the envelopes that do not depend on the call.

use fabrix_proxy::config::{generate_token, Config};
use fabrix_proxy::openai::{ErrorBody, ErrorEnvelope};
use fabrix_proxy::proxy::{
    authorize, method_not_allowed_envelope, openai_type, too_large, CHAT_BODY_LIMIT,
    IMAGE_BODY_LIMIT,
};

#[test]
fn open_mode_passes_any_token() {
    let cfg = Config { token_mode: false, ..Config::default() };
    assert!(authorize(&cfg, Some("Bearer whatever")).is_ok());
    assert!(authorize(&cfg, None).is_ok());
}

#[test]
fn token_mode_accepts_matching_bearer() {
    let cfg = Config { token_mode: true, issued_token: "sk-abc123".into(), ..Config::default() };
    assert!(authorize(&cfg, Some("Bearer sk-abc123")).is_ok());
}

#[test]
fn token_mode_rejects_mismatch_missing_and_empty_issued() {
    let cfg = Config { token_mode: true, issued_token: "sk-abc123".into(), ..Config::default() };
    assert_eq!(authorize(&cfg, Some("Bearer sk-wrong")).unwrap_err().0, 401);
    assert_eq!(authorize(&cfg, None).unwrap_err().0, 401);
    let empty = Config { token_mode: true, issued_token: String::new(), ..Config::default() };
    assert_eq!(authorize(&empty, Some("Bearer ")).unwrap_err().0, 401);
}

#[test]
fn openai_type_is_always_a_legal_openai_type() {
    const LEGAL: &[&str] = &[
        "invalid_request_error",
        "authentication_error",
        "permission_error",
        "rate_limit_error",
        "api_error",
    ];
    for status in [400u16, 401, 403, 404, 405, 413, 415, 422, 429, 500, 502, 503, 504] {
        let kind = openai_type(status);
        assert!(LEGAL.contains(&kind), "{status} → {kind}");
    }
    assert_eq!(openai_type(400), "invalid_request_error");
    assert_eq!(openai_type(404), "invalid_request_error");
    assert_eq!(openai_type(405), "invalid_request_error");
    assert_eq!(openai_type(413), "invalid_request_error");
    assert_eq!(openai_type(401), "authentication_error");
    assert_eq!(openai_type(403), "permission_error");
    assert_eq!(openai_type(429), "rate_limit_error");
    assert_eq!(openai_type(502), "api_error");
    assert_eq!(openai_type(503), "api_error");
}

/// Both members are there, unset. That they go out as `null` is up to the program that
/// writes the envelope as JSON.
#[test]
fn error_envelope_serializes_param_and_code_as_null() {
    let env = ErrorEnvelope::new("나쁨".into(), "invalid_request_error", None);
    let ErrorBody { message, kind, param, code } = &env.error;
    assert_eq!(message, "나쁨");
    assert_eq!(*kind, "invalid_request_error");
    assert!(param.is_none());
    assert!(code.is_none());
}

#[test]
fn token_rejection_is_an_authentication_error() {
    let cfg = Config { token_mode: true, issued_token: "sk-abc".into(), ..Config::default() };
    let (status, env) = authorize(&cfg, None).unwrap_err();
    assert_eq!(status, 401);
    assert_eq!(env.error.kind, "authentication_error");
    assert_eq!(env.error.code.as_deref(), Some("invalid_api_key"));
}

#[test]
fn method_not_allowed_is_an_envelope() {
    let env = method_not_allowed_envelope();
    assert_eq!(env.error.kind, "invalid_request_error");
    assert_eq!(env.error.code.as_deref(), Some("method_not_allowed"));
    assert!(env.error.message.contains("POST"));
}

#[test]
fn oversized_body_is_an_envelope_that_names_the_limit() {
    let env = too_large(CHAT_BODY_LIMIT);
    assert_eq!(env.error.kind, "invalid_request_error");
    assert_eq!(env.error.code.as_deref(), Some("request_too_large"));
    assert!(env.error.message.contains("16 MiB"), "{}", env.error.message);
    assert!(too_large(IMAGE_BODY_LIMIT).error.message.contains("25 MiB"));
}

#[test]
fn generated_token_has_openai_shape() {
    let t = generate_token();
    assert!(t.starts_with("sk-"));
    assert_eq!(t.len(), 3 + 48);
    assert!(t[3..].chars().all(|c| c.is_ascii_alphanumeric()));
    assert_ne!(generate_token(), generate_token());
}
