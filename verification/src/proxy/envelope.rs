//! OpenAI's error envelope, as far as it does not depend on what went wrong.

use vstd::prelude::*;
use vstd::string::*;

use crate::openai::ErrorEnvelope;
use crate::text::{dec, dec_u64};

verus! {

/// The error type that belongs to a status.
pub open spec fn type_view(status: u16) -> Seq<char> {
    if status == 401 {
        "authentication_error"@
    } else if status == 403 {
        "permission_error"@
    } else if status == 429 {
        "rate_limit_error"@
    } else if status >= 500 {
        "api_error"@
    } else {
        "invalid_request_error"@
    }
}

pub fn openai_type(status: u16) -> (r: &'static str)
    ensures
        r@ == type_view(status),
{
    if status == 401 {
        "authentication_error"
    } else if status == 403 {
        "permission_error"
    } else if status == 429 {
        "rate_limit_error"
    } else if status >= 500 {
        "api_error"
    } else {
        "invalid_request_error"
    }
}

/// An image edit carries its image as base64 text.
pub const IMAGE_BODY_LIMIT: usize = 25 * 1024 * 1024;

/// A long agent session carries tool schemas and tool results.
pub const CHAT_BODY_LIMIT: usize = 16 * 1024 * 1024;

pub fn method_not_allowed_envelope() -> (r: ErrorEnvelope)
    ensures
        r.says(
            "이 경로가 받지 않는 메서드입니다. 채팅·이미지는 POST, 모델 목록은 GET 입니다."@,
            type_view(405),
            None,
            Some("method_not_allowed"@),
        ),
{
    ErrorEnvelope::new(
        "이 경로가 받지 않는 메서드입니다. 채팅·이미지는 POST, 모델 목록은 GET 입니다.".to_owned(),
        openai_type(405),
        Some("method_not_allowed".to_owned()),
    )
}

pub fn unknown_endpoint_envelope() -> (r: ErrorEnvelope)
    ensures
        r.says(
            "이 프록시는 /v1/chat/completions · /v1/models · /v1/models/{id} · /v1/images/generations · /v1/images/edits 를 제공합니다."@,
            type_view(404),
            None,
            Some("unknown_endpoint"@),
        ),
{
    ErrorEnvelope::new(
        "이 프록시는 /v1/chat/completions · /v1/models · /v1/models/{id} · /v1/images/generations · /v1/images/edits 를 제공합니다.".to_owned(),
        openai_type(404),
        Some("unknown_endpoint".to_owned()),
    )
}

pub fn too_large(limit: usize) -> (r: ErrorEnvelope)
    ensures
        r.says(
            "요청 본문이 상한("@ + dec((limit / 0x10_0000) as nat)
                + " MiB)을 넘었습니다. 에이전트 세션이 길어지면 도구 결과가 쌓여 이 값을 넘길 수 있습니다 — 대화를 새로 시작하거나 첨부를 줄이세요."@,
            type_view(413),
            None,
            Some("request_too_large"@),
        ),
{
    let mut message = "요청 본문이 상한(".to_owned();
    message.append(dec_u64((limit / 0x10_0000) as u64).as_str());
    message.append(
        " MiB)을 넘었습니다. 에이전트 세션이 길어지면 도구 결과가 쌓여 이 값을 넘길 수 있습니다 — 대화를 새로 시작하거나 첨부를 줄이세요.",
    );
    ErrorEnvelope::new(message, openai_type(413), Some("request_too_large".to_owned()))
}

} // verus!
