//! The gateway's side: why an answer ends, and what can go wrong.

use vstd::prelude::*;
use vstd::string::*;

pub use super::alias::{
    build_aliases, default_model, find_model, FabrixModel, LocalizedText, ResolvedModel,
};
pub use super::chunk::{ContentReference, FabrixChunk, FilterBlockReason, UpstreamUsage};
pub use super::decode::{nonstream_events, StreamDecoder, StreamEvent};
pub use super::fold::{fold_messages, last_is_user_turn, CONTINUE_TURN};
pub use super::request::{
    clamp_temperature, temperature_was_clamped, LlmConfig, MessagesRequest,
};

use crate::json::{json_parse, json_view, json_views, lemma_json_views, Json, JsonView};
use crate::logstore::{preview, preview_view};
use crate::openai::{opt_text, ErrorEnvelope};
use crate::text::{
    blank, dec, dec_u64, is_blank, lower, lowered, same, trim, trimmed,
};

use super::envelope::{openai_type, type_view};
use super::fields::{
    field, field2, field3, get_field, get_field2, get_field3, is_record, read_text, record,
    text_field, Field, FieldView,
};

verus! {

pub const MODELS_PATH: &'static str = "/openapi/chat/v1/models";

pub const MESSAGES_PATH: &'static str = "/openapi/chat/v1/messages";

// ───────────────────────── why an answer ends ─────────────────────────

/// The gateway's reason in OpenAI's words. A cut-off answer comes first; a word that
/// is not known is kept.
pub open spec fn mapped_reason(raw: Option<Seq<char>>, truncated: bool) -> Option<Seq<char>> {
    if truncated {
        Some("length"@)
    } else {
        match raw {
            None => None,
            Some(r) => {
                let word = lower(trim(r));
                if trim(r).len() == 0 {
                    None
                } else if word == "length"@ || word == "max_tokens"@ || word == "max_new_tokens"@
                    || word == "truncated"@ {
                    Some("length"@)
                } else if word == "content_filter"@ || word == "filtered"@ || word == "blocked"@ {
                    Some("content_filter"@)
                } else if word == "stop"@ || word == "end_turn"@ || word == "eos"@ || word
                    == "complete"@ || word == "completed"@ {
                    Some("stop"@)
                } else {
                    Some(trim(r))
                }
            },
        }
    }
}

pub fn map_finish_reason(raw: Option<&str>, truncated: bool) -> (r: Option<String>)
    ensures
        opt_text(r) == mapped_reason(
            match raw {
                Some(s) => Some(s@),
                None => None,
            },
            truncated,
        ),
{
    if truncated {
        return Some("length".to_owned());
    }
    let raw = match raw {
        Some(s) => trimmed(s),
        None => {
            return None;
        },
    };
    if raw.is_empty() {
        return None;
    }
    let lowered_word = lowered(raw);
    let word = lowered_word.as_str();
    if same(word, "length") || same(word, "max_tokens") || same(word, "max_new_tokens") || same(
        word,
        "truncated",
    ) {
        Some("length".to_owned())
    } else if same(word, "content_filter") || same(word, "filtered") || same(word, "blocked") {
        Some("content_filter".to_owned())
    } else if same(word, "stop") || same(word, "end_turn") || same(word, "eos") || same(
        word,
        "complete",
    ) || same(word, "completed") {
        Some("stop".to_owned())
    } else {
        Some(raw.to_owned())
    }
}

/// One of the words that OpenAI defines, for any word. What broke off is not called
/// complete.
pub open spec fn clamped_reason(mapped: Option<Seq<char>>) -> Seq<char> {
    let word = match mapped {
        Some(m) => lower(trim(m)),
        None => "stop"@,
    };
    if word == "length"@ || word == "abort"@ || word == "aborted"@ || word == "cancel"@ || word
        == "cancelled"@ || word == "canceled"@ || word == "error"@ || word == "timeout"@ || word
        == "incomplete"@ {
        "length"@
    } else if word == "tool_calls"@ {
        "tool_calls"@
    } else if word == "content_filter"@ {
        "content_filter"@
    } else if word == "function_call"@ {
        "function_call"@
    } else {
        "stop"@
    }
}

pub fn clamp_finish_reason(mapped: Option<&str>) -> (r: &'static str)
    ensures
        r@ == clamped_reason(
            match mapped {
                Some(s) => Some(s@),
                None => None,
            },
        ),
{
    let lowered_word = match mapped {
        Some(m) => lowered(trimmed(m)),
        None => "stop".to_owned(),
    };
    let word = lowered_word.as_str();
    if same(word, "length") || same(word, "abort") || same(word, "aborted") || same(word, "cancel")
        || same(word, "cancelled") || same(word, "canceled") || same(word, "error") || same(
        word,
        "timeout",
    ) || same(word, "incomplete") {
        "length"
    } else if same(word, "tool_calls") {
        "tool_calls"
    } else if same(word, "content_filter") {
        "content_filter"
    } else if same(word, "function_call") {
        "function_call"
    } else {
        "stop"
    }
}

/// The reason that is told: tool calls first, then a cut-off, then what the gateway
/// says, then `stop`.
pub open spec fn final_reason(
    saw_call: bool,
    upstream: Option<Seq<char>>,
    truncated: bool,
) -> Seq<char> {
    if saw_call {
        "tool_calls"@
    } else {
        clamped_reason(mapped_reason(upstream, truncated))
    }
}

/// The one place in which the reason for the end of a turn is decided.
pub fn decide_finish(saw_call: bool, upstream: Option<&str>, truncated: bool) -> (r: &'static str)
    ensures
        r@ == final_reason(
            saw_call,
            match upstream {
                Some(s) => Some(s@),
                None => None,
            },
            truncated,
        ),
{
    if saw_call {
        return "tool_calls";
    }
    match map_finish_reason(upstream, truncated) {
        Some(mapped) => clamp_finish_reason(Some(mapped.as_str())),
        None => clamp_finish_reason(None),
    }
}

/// The words that OpenAI defines for the end of a turn.
pub open spec fn legal_reason(s: Seq<char>) -> bool {
    s == "stop"@ || s == "length"@ || s == "tool_calls"@ || s == "content_filter"@ || s
        == "function_call"@
}

/// Whatever the gateway says, the client is told a word that OpenAI defines.
pub proof fn law_reason_is_legal(saw_call: bool, upstream: Option<Seq<char>>, truncated: bool)
    ensures
        legal_reason(final_reason(saw_call, upstream, truncated)),
{
}

/// A turn with a tool call always ends for its tool calls, and only a turn with one
/// or one that the gateway itself calls so does.
pub proof fn law_tool_calls_come_first(upstream: Option<Seq<char>>, truncated: bool)
    ensures
        final_reason(true, upstream, truncated) == "tool_calls"@,
        final_reason(false, upstream, true) == "length"@,
{
    reveal_strlit("length");
    assert(lower("length"@) =~= "length"@);
    crate::text::lemma_no_white("length"@);
}

// ───────────────────────── errors ─────────────────────────

#[derive(Debug, Clone)]
pub enum FabrixError {
    NotConfigured,
    /// No connection, or no answer in time.
    Unreachable(String),
    Quota(String),
    Upstream { status: u16, message: String },
    BadPayload(String),
}

impl FabrixError {
    pub open spec fn status_view(self) -> u16 {
        match self {
            FabrixError::NotConfigured => 503,
            FabrixError::Unreachable(_) => 502,
            FabrixError::Quota(_) => 429,
            FabrixError::Upstream { status, message: _ } => status,
            FabrixError::BadPayload(_) => 502,
        }
    }

    pub fn status(&self) -> (r: u16)
        ensures
            r == self.status_view(),
    {
        match self {
            FabrixError::NotConfigured => 503,
            FabrixError::Unreachable(_) => 502,
            FabrixError::Quota(_) => 429,
            FabrixError::Upstream { status, message: _ } => *status,
            FabrixError::BadPayload(_) => 502,
        }
    }

    pub open spec fn note_view(self) -> Seq<char> {
        match self {
            FabrixError::NotConfigured => "사내 연결 설정이 필요합니다"@,
            FabrixError::Unreachable(_) => "사내 응답 없음"@,
            FabrixError::Quota(_) => "사내 쿼터 초과"@,
            FabrixError::Upstream { status, message: _ } => "사내 오류 "@ + dec(status as nat),
            FabrixError::BadPayload(_) => "응답을 해석하지 못했습니다"@,
        }
    }

    /// A short description for the log.
    pub fn note(&self) -> (r: String)
        ensures
            r@ == self.note_view(),
    {
        match self {
            FabrixError::NotConfigured => "사내 연결 설정이 필요합니다".to_owned(),
            FabrixError::Unreachable(_) => "사내 응답 없음".to_owned(),
            FabrixError::Quota(_) => "사내 쿼터 초과".to_owned(),
            FabrixError::Upstream { status, message: _ } => {
                let mut out = "사내 오류 ".to_owned();
                out.append(dec_u64(*status as u64).as_str());
                out
            },
            FabrixError::BadPayload(_) => "응답을 해석하지 못했습니다".to_owned(),
        }
    }

    pub open spec fn message_view(self) -> Seq<char> {
        match self {
            FabrixError::NotConfigured =>
                "사내 연결 정보가 설정되지 않았습니다. 트레이 메뉴 → 창 열기에서 설정하세요."@,
            FabrixError::Unreachable(detail) => "사내 AI 서버에 연결하지 못했습니다: "@ + detail@,
            FabrixError::Quota(detail) => "사내 쿼터를 초과했습니다: "@ + detail@,
            FabrixError::Upstream { status, message } => "사내 서버 오류 "@ + dec(status as nat) + ": "@
                + message@,
            FabrixError::BadPayload(detail) => "사내 응답을 해석하지 못했습니다: "@ + detail@,
        }
    }

    pub fn message(&self) -> (r: String)
        ensures
            r@ == self.message_view(),
    {
        match self {
            FabrixError::NotConfigured =>
                "사내 연결 정보가 설정되지 않았습니다. 트레이 메뉴 → 창 열기에서 설정하세요.".to_owned(),
            FabrixError::Unreachable(detail) => "사내 AI 서버에 연결하지 못했습니다: ".to_owned().concat(
                detail.as_str(),
            ),
            FabrixError::Quota(detail) => "사내 쿼터를 초과했습니다: ".to_owned().concat(
                detail.as_str(),
            ),
            FabrixError::Upstream { status, message } => {
                let mut out = "사내 서버 오류 ".to_owned();
                out.append(dec_u64(*status as u64).as_str());
                out.append(": ");
                out.append(message.as_str());
                out
            },
            FabrixError::BadPayload(detail) => "사내 응답을 해석하지 못했습니다: ".to_owned().concat(
                detail.as_str(),
            ),
        }
    }

    pub open spec fn code_view(self) -> Seq<char> {
        match self {
            FabrixError::NotConfigured => "not_configured"@,
            FabrixError::Unreachable(_) => "upstream_unreachable"@,
            FabrixError::Quota(_) => "rate_limit_exceeded"@,
            FabrixError::Upstream { status: _, message: _ } => "upstream_error"@,
            FabrixError::BadPayload(_) => "upstream_bad_response"@,
        }
    }

    /// What a program can branch on.
    pub fn code(&self) -> (r: &'static str)
        ensures
            r@ == self.code_view(),
    {
        match self {
            FabrixError::NotConfigured => "not_configured",
            FabrixError::Unreachable(_) => "upstream_unreachable",
            FabrixError::Quota(_) => "rate_limit_exceeded",
            FabrixError::Upstream { status: _, message: _ } => "upstream_error",
            FabrixError::BadPayload(_) => "upstream_bad_response",
        }
    }

    pub fn envelope(&self) -> (r: ErrorEnvelope)
        ensures
            r.says(
                self.message_view(),
                type_view(self.status_view()),
                None,
                Some(self.code_view()),
            ),
    {
        ErrorEnvelope::new(
            self.message(),
            openai_type(self.status()),
            Some(self.code().to_owned()),
        )
    }
}

/// How a call to the gateway failed before there was a response.
#[derive(Debug, Clone, Copy, PartialEq, Eq, Structural)]
pub enum TransportFault {
    Timeout,
    Connect,
    /// The response could not be decoded.
    Decode,
    Other,
}

impl FabrixError {
    /// The error for a call that got no response. `detail` is the transport's message.
    pub fn from_transport(fault: TransportFault, detail: String) -> (r: FabrixError)
        ensures
            match fault {
                TransportFault::Timeout => r matches FabrixError::Unreachable(m) && m@
                    == "응답 시간 초과"@,
                TransportFault::Connect => r matches FabrixError::Unreachable(m) && m@
                    == "연결할 수 없습니다"@,
                TransportFault::Decode => r == FabrixError::BadPayload(detail),
                TransportFault::Other => r == FabrixError::Unreachable(detail),
            },
    {
        match fault {
            TransportFault::Timeout => FabrixError::Unreachable("응답 시간 초과".to_owned()),
            TransportFault::Connect => FabrixError::Unreachable("연결할 수 없습니다".to_owned()),
            TransportFault::Decode => FabrixError::BadPayload(detail),
            TransportFault::Other => FabrixError::Unreachable(detail),
        }
    }
}

/// The first of the usual places in an error body in which a message stands.
pub open spec fn tree_message(v: JsonView) -> Option<Seq<char>> {
    if filled_text(v, "message"@) is Some {
        filled_text(v, "message"@)
    } else if filled_text(v, "errorMessage"@) is Some {
        filled_text(v, "errorMessage"@)
    } else if filled_text(v, "error_message"@) is Some {
        filled_text(v, "error_message"@)
    } else if filled_text(v, "detail"@) is Some {
        filled_text(v, "detail"@)
    } else if filled_text(v, "eventData"@) is Some {
        filled_text(v, "eventData"@)
    } else {
        match v.get("error"@) {
            Some(err) => match err {
                JsonView::Text(s) => Some(s),
                _ => err.get_text("message"@),
            },
            None => None,
        }
    }
}

/// A member that is a string and not blank.
pub open spec fn filled_text(v: JsonView, key: Seq<char>) -> Option<Seq<char>> {
    match v.get_text(key) {
        Some(s) => if blank(s) {
            None
        } else {
            Some(s)
        },
        None => None,
    }
}

fn get_filled(v: &Json, key: &str) -> (r: Option<String>)
    ensures
        opt_text(r) == filled_text(v@, key@),
{
    match v.get_text(key) {
        Some(s) => {
            if is_blank(s) {
                None
            } else {
                Some(s.to_owned())
            }
        },
        None => None,
    }
}

/// The message in an error body's tree.
pub fn message_of(v: &Json) -> (r: Option<String>)
    ensures
        opt_text(r) == tree_message(v@),
{
    match get_filled(v, "message") {
        Some(s) => {
            return Some(s);
        },
        None => {},
    }
    match get_filled(v, "errorMessage") {
        Some(s) => {
            return Some(s);
        },
        None => {},
    }
    match get_filled(v, "error_message") {
        Some(s) => {
            return Some(s);
        },
        None => {},
    }
    match get_filled(v, "detail") {
        Some(s) => {
            return Some(s);
        },
        None => {},
    }
    match get_filled(v, "eventData") {
        Some(s) => {
            return Some(s);
        },
        None => {},
    }
    match v.get("error") {
        Some(err) => match err {
            Json::Text(s) => Some(s.clone()),
            _ => match err.get_text("message") {
                Some(s) => Some(s.to_owned()),
                None => None,
            },
        },
        None => None,
    }
}

/// The message in an error body that is JSON.
pub open spec fn told_message(body: Seq<char>) -> Option<Seq<char>> {
    match json_parse(body) {
        Ok(v) => tree_message(v),
        Err(_) => None,
    }
}

fn extract_message(body: &str) -> (r: Option<String>)
    ensures
        opt_text(r) == told_message(body@),
{
    match Json::parse(body) {
        Ok(v) => message_of(&v),
        Err(_) => None,
    }
}

/// The message in an error body, else the beginning of the body.
pub open spec fn body_message(body: Seq<char>) -> Seq<char> {
    match told_message(body) {
        Some(s) => s,
        None => preview_view(body, 200),
    }
}

/// The error for a status other than success.
pub open spec fn classified(status: u16, message: Seq<char>, err: FabrixError) -> bool {
    if status == 429 {
        err matches FabrixError::Quota(m) && m@ == message
    } else if status == 502 || status == 503 || status == 504 {
        err matches FabrixError::Unreachable(m) && m@ == message
    } else {
        err matches FabrixError::Upstream { status: s, message: m } && s == status && m@ == message
    }
}

pub fn classify_status(status: u16, body: &str) -> (r: FabrixError)
    ensures
        classified(status, body_message(body@), r),
{
    let message = match extract_message(body) {
        Some(s) => s,
        None => preview(body, 200),
    };
    if status == 429 {
        FabrixError::Quota(message)
    } else if status == 502 || status == 503 || status == 504 {
        FabrixError::Unreachable(message)
    } else {
        FabrixError::Upstream { status, message }
    }
}

// ───────────────────────── finding the answer ─────────────────────────

pub open spec fn str_views(list: Seq<&str>) -> Seq<Seq<char>> {
    list.map_values(|s: &str| s@)
}

/// The names under which a list stands in a response.
pub open spec fn list_keys() -> Seq<Seq<char>> {
    seq![
        "data"@,
        "result"@,
        "results"@,
        "models"@,
        "list"@,
        "items"@,
        "content"@,
    ]
}

/// The names of what may be wrapped around it.
pub open spec fn outer_keys() -> Seq<Seq<char>> {
    seq!["data"@, "result"@, "response"@]
}

/// The first of the members `keys` that is an array.
pub open spec fn array_under(v: JsonView, keys: Seq<Seq<char>>) -> Option<Seq<JsonView>>
    decreases keys.len(),
{
    if keys.len() == 0 {
        None
    } else {
        match v.get(keys[0]) {
            Some(JsonView::Array(items)) => Some(items),
            _ => array_under(v, keys.drop_first()),
        }
    }
}

/// The first list inside one of the members `outer`.
pub open spec fn array_within(v: JsonView, outer: Seq<Seq<char>>) -> Option<Seq<JsonView>>
    decreases outer.len(),
{
    if outer.len() == 0 {
        None
    } else {
        let here = match v.get(outer[0]) {
            Some(inner) => array_under(inner, list_keys()),
            None => None,
        };
        if here is Some {
            here
        } else {
            array_within(v, outer.drop_first())
        }
    }
}

/// The list that a response holds, wherever it stands.
pub open spec fn found_array(v: JsonView) -> Option<Seq<JsonView>> {
    match v {
        JsonView::Array(items) => Some(items),
        _ => if array_under(v, list_keys()) is Some {
            array_under(v, list_keys())
        } else {
            array_within(v, outer_keys())
        },
    }
}

fn list_key_texts() -> (r: Vec<&'static str>)
    ensures
        str_views(r@) == list_keys(),
{
    let mut keys: Vec<&'static str> = Vec::new();
    keys.push("data");
    keys.push("result");
    keys.push("results");
    keys.push("models");
    keys.push("list");
    keys.push("items");
    keys.push("content");
    assert(str_views(keys@) =~= list_keys());
    keys
}

fn outer_key_texts() -> (r: Vec<&'static str>)
    ensures
        str_views(r@) == outer_keys(),
{
    let mut keys: Vec<&'static str> = Vec::new();
    keys.push("data");
    keys.push("result");
    keys.push("response");
    assert(str_views(keys@) =~= outer_keys());
    keys
}

fn get_array_under<'a>(v: &'a Json, keys: &Vec<&'static str>) -> (r: Option<&'a Vec<Json>>)
    ensures
        match r {
            Some(items) => array_under(v@, str_views(keys@)) == Some(json_views(items@)),
            None => array_under(v@, str_views(keys@)) is None,
        },
{
    let ghost all = str_views(keys@);
    let mut i: usize = 0;
    assert(all.skip(0) =~= all);
    while i < keys.len()
        invariant
            i <= keys@.len(),
            all == str_views(keys@),
            array_under(v@, all) == array_under(v@, all.skip(i as int)),
        decreases keys@.len() - i,
    {
        proof {
            assert(all.skip(i as int)[0] == keys@[i as int]@);
            assert(all.skip(i as int).drop_first() =~= all.skip(i + 1));
        }
        match v.get(keys[i]) {
            Some(Json::Array(items)) => {
                return Some(items);
            },
            _ => {},
        }
        i += 1;
    }
    None
}

pub fn extract_array(value: &Json) -> (r: Option<&Vec<Json>>)
    ensures
        match r {
            Some(items) => found_array(value@) == Some(json_views(items@)),
            None => found_array(value@) is None,
        },
{
    match value {
        Json::Array(items) => {
            return Some(items);
        },
        _ => {},
    }
    let keys = list_key_texts();
    match get_array_under(value, &keys) {
        Some(items) => {
            return Some(items);
        },
        None => {},
    }
    let outer = outer_key_texts();
    let ghost all = str_views(outer@);
    let mut i: usize = 0;
    assert(all.skip(0) =~= all);
    while i < outer.len()
        invariant
            i <= outer@.len(),
            all == str_views(outer@),
            all == outer_keys(),
            str_views(keys@) == list_keys(),
            !(value@ is Array),
            array_under(value@, list_keys()) is None,
            array_within(value@, all) == array_within(value@, all.skip(i as int)),
        decreases outer@.len() - i,
    {
        proof {
            assert(all.skip(i as int)[0] == outer@[i as int]@);
            assert(all.skip(i as int).drop_first() =~= all.skip(i + 1));
        }
        match value.get(outer[i]) {
            Some(inner) => match get_array_under(inner, &keys) {
                Some(items) => {
                    return Some(items);
                },
                None => {},
            },
            None => {},
        }
        i += 1;
    }
    None
}

pub open spec fn first_item(items: Seq<JsonView>) -> JsonView {
    if items.len() > 0 {
        items[0]
    } else {
        JsonView::Null
    }
}

/// What one member contributes: an array its first item, an object with an answer
/// itself.
pub open spec fn object_under(v: JsonView, key: Seq<char>) -> Option<JsonView> {
    match v.get(key) {
        Some(JsonView::Array(items)) => Some(first_item(items)),
        Some(inner) => if inner is Object && (inner.get("content"@) is Some || inner.get(
            "finishReason"@,
        ) is Some) {
            Some(inner)
        } else {
            None
        },
        None => None,
    }
}

/// The object that holds the answer of a response.
pub open spec fn answer_object(v: JsonView) -> JsonView {
    match v {
        JsonView::Array(items) => first_item(items),
        _ => if object_under(v, "data"@) is Some {
            object_under(v, "data"@)->0
        } else if object_under(v, "result"@) is Some {
            object_under(v, "result"@)->0
        } else if object_under(v, "response"@) is Some {
            object_under(v, "response"@)->0
        } else {
            v
        },
    }
}

fn copy_first(items: &Vec<Json>) -> (r: Json)
    ensures
        r@ == first_item(json_views(items@)),
{
    proof {
        lemma_json_views(items@);
    }
    if items.len() > 0 {
        items[0].copy()
    } else {
        Json::Null
    }
}

fn get_object_under(v: &Json, key: &str) -> (r: Option<Json>)
    ensures
        match r {
            Some(j) => object_under(v@, key@) == Some(j@),
            None => object_under(v@, key@) is None,
        },
{
    match v.get(key) {
        Some(inner) => match inner {
            Json::Array(items) => Some(copy_first(items)),
            Json::Object(_) => {
                if inner.get("content").is_some() || inner.get("finishReason").is_some() {
                    Some(inner.copy())
                } else {
                    None
                }
            },
            _ => None,
        },
        None => None,
    }
}

pub fn extract_object(value: &Json) -> (r: Json)
    ensures
        r@ == answer_object(value@),
{
    match value {
        Json::Array(items) => copy_first(items),
        _ => match get_object_under(value, "data") {
            Some(j) => j,
            None => match get_object_under(value, "result") {
                Some(j) => j,
                None => match get_object_under(value, "response") {
                    Some(j) => j,
                    None => value.copy(),
                },
            },
        },
    }
}

// ───────────────────────── the list of models ─────────────────────────

pub struct TextView {
    pub language_code: Option<Seq<char>>,
    pub content: Option<Seq<char>>,
}

pub struct ModelView {
    pub model_id: Seq<char>,
    pub name: Seq<TextView>,
    pub description: Seq<TextView>,
}

pub open spec fn text_views(list: Seq<LocalizedText>) -> Seq<TextView> {
    list.map_values(
        |t: LocalizedText|
            TextView { language_code: opt_text(t.language_code), content: opt_text(t.content) },
    )
}

impl View for FabrixModel {
    type V = ModelView;

    open spec fn view(&self) -> ModelView {
        ModelView {
            model_id: self.model_id@,
            name: text_views(self.name@),
            description: text_views(self.description@),
        }
    }
}

pub open spec fn read_localized(v: JsonView) -> Option<TextView> {
    let code = text_field(field2(v, 0, "language_code"@, "languageCode"@));
    let content = text_field(field(v, 1, "content"@));
    if record(v, 2) && code is Some && content is Some {
        Some(TextView { language_code: code->0, content: content->0 })
    } else {
        None
    }
}

pub open spec fn read_localized_list(items: Seq<JsonView>) -> Option<Seq<TextView>>
    decreases items.len(),
{
    if items.len() == 0 {
        Some(seq![])
    } else {
        match (read_localized_list(items.drop_last()), read_localized(items.last())) {
            (Some(front), Some(t)) => Some(front.push(t)),
            _ => None,
        }
    }
}

/// A list of texts; left out, it is empty.
pub open spec fn localized_field(f: FieldView) -> Option<Seq<TextView>> {
    match f {
        FieldView::Absent => Some(seq![]),
        FieldView::Present(JsonView::Array(items)) => read_localized_list(items),
        _ => None,
    }
}

/// The model that a JSON value is.
pub open spec fn read_model(v: JsonView) -> Option<ModelView> {
    let id = field3(v, 0, "model_id"@, "modelId"@, "id"@);
    let name = localized_field(field(v, 1, "name"@));
    let description = localized_field(field(v, 2, "description"@));
    if record(v, 3) && id is Present && id->Present_0 is Text && name is Some && description is Some {
        Some(
            ModelView {
                model_id: id->Present_0->Text_0,
                name: name->0,
                description: description->0,
            },
        )
    } else {
        None
    }
}

/// Those items that are models.
pub open spec fn read_models(items: Seq<JsonView>) -> Seq<ModelView>
    decreases items.len(),
{
    if items.len() == 0 {
        seq![]
    } else {
        match read_model(items.last()) {
            Some(m) => read_models(items.drop_last()).push(m),
            None => read_models(items.drop_last()),
        }
    }
}

pub open spec fn model_views(list: Seq<FabrixModel>) -> Seq<ModelView> {
    list.map_values(|m: FabrixModel| m@)
}

fn localized_of(v: &Json) -> (r: Option<LocalizedText>)
    ensures
        match r {
            Some(t) => read_localized(v@) == Some(
                TextView { language_code: opt_text(t.language_code), content: opt_text(t.content) },
            ),
            None => read_localized(v@) is None,
        },
{
    if !is_record(v, 2) {
        return None;
    }
    match (
        read_text(get_field2(v, 0, "language_code", "languageCode")),
        read_text(get_field(v, 1, "content")),
    ) {
        (Some(language_code), Some(content)) => Some(LocalizedText { language_code, content }),
        _ => None,
    }
}

proof fn lemma_localized_fail(items: Seq<JsonView>, i: int)
    requires
        0 <= i < items.len(),
        read_localized(items[i]) is None,
    ensures
        read_localized_list(items) is None,
    decreases items.len(),
{
    if i < items.len() - 1 {
        lemma_localized_fail(items.drop_last(), i);
    }
}

fn localized_list_of(f: Field) -> (r: Option<Vec<LocalizedText>>)
    ensures
        match r {
            Some(list) => localized_field(f.model()) == Some(text_views(list@)),
            None => localized_field(f.model()) is None,
        },
{
    let mut out: Vec<LocalizedText> = Vec::new();
    assert(text_views(out@) =~= seq![]);
    match f {
        Field::Absent => Some(out),
        Field::Present(Json::Array(items)) => {
            let ghost all = json_views(items@);
            let mut i: usize = 0;
            proof {
                lemma_json_views(items@);
                assert(all.take(0) =~= seq![]);
            }
            while i < items.len()
                invariant
                    i <= items@.len() == all.len(),
                    f.model() == FieldView::Present(JsonView::Array(all)),
                    forall|k: int| 0 <= k < all.len() ==> #[trigger] all[k] == json_view(items@[k]),
                    read_localized_list(all.take(i as int)) == Some(text_views(out@)),
                decreases items@.len() - i,
            {
                proof {
                    assert(all.take(i + 1).drop_last() =~= all.take(i as int));
                    assert(all.take(i + 1).last() == all[i as int]);
                }
                match localized_of(&items[i]) {
                    Some(t) => {
                        let ghost before = out@;
                        out.push(t);
                        assert(text_views(out@) =~= text_views(before).push(
                            TextView {
                                language_code: opt_text(t.language_code),
                                content: opt_text(t.content),
                            },
                        ));
                    },
                    None => {
                        proof {
                            lemma_localized_fail(all, i as int);
                        }
                        return None;
                    },
                }
                i += 1;
            }
            assert(all.take(all.len() as int) =~= all);
            Some(out)
        },
        _ => None,
    }
}

impl FabrixModel {
    /// Reads a model. One without an id is none.
    pub fn from_json(v: &Json) -> (r: Option<FabrixModel>)
        ensures
            match r {
                Some(m) => read_model(v@) == Some(m@),
                None => read_model(v@) is None,
            },
    {
        if !is_record(v, 3) {
            return None;
        }
        let model_id = match get_field3(v, 0, "model_id", "modelId", "id") {
            Field::Present(Json::Text(s)) => s.clone(),
            _ => {
                return None;
            },
        };
        match (
            localized_list_of(get_field(v, 1, "name")),
            localized_list_of(get_field(v, 2, "description")),
        ) {
            (Some(name), Some(description)) => Some(FabrixModel { model_id, name, description }),
            _ => None,
        }
    }
}

/// The models of a response's tree; items that are no models are passed over.
pub fn models_in_tree(tree: &Json) -> (r: Option<Vec<FabrixModel>>)
    ensures
        match r {
            Some(list) => found_array(tree@) matches Some(items) && model_views(list@) == read_models(
                items,
            ),
            None => found_array(tree@) is None,
        },
{
    let items = match extract_array(tree) {
        Some(items) => items,
        None => {
            return None;
        },
    };
    let mut out: Vec<FabrixModel> = Vec::new();
    let ghost all = json_views(items@);
    let mut i: usize = 0;
    proof {
        lemma_json_views(items@);
        assert(all.take(0) =~= seq![]);
        assert(model_views(out@) =~= seq![]);
    }
    while i < items.len()
        invariant
            i <= items@.len() == all.len(),
            found_array(tree@) == Some(all),
            forall|k: int| 0 <= k < all.len() ==> #[trigger] all[k] == json_view(items@[k]),
            model_views(out@) == read_models(all.take(i as int)),
        decreases items@.len() - i,
    {
        proof {
            assert(all.take(i + 1).drop_last() =~= all.take(i as int));
            assert(all.take(i + 1).last() == all[i as int]);
        }
        match FabrixModel::from_json(&items[i]) {
            Some(m) => {
                let ghost before = out@;
                out.push(m);
                assert(model_views(out@) =~= model_views(before).push(m@));
            },
            None => {},
        }
        i += 1;
    }
    assert(all.take(all.len() as int) =~= all);
    Some(out)
}

/// Why no models could be read out of a body.
pub open spec fn no_models(body: Seq<char>) -> Seq<char> {
    match json_parse(body) {
        Err(e) => e + " — 본문 앞부분: "@ + preview_view(body, 200),
        Ok(tree) => if found_array(tree) is None {
            "모델 배열을 찾지 못했습니다: "@ + preview_view(body, 200)
        } else {
            "모델 목록이 비어 있습니다"@
        },
    }
}

/// The models in the body of a response.
pub fn models_in_body(body: &str) -> (r: Result<Vec<FabrixModel>, FabrixError>)
    ensures
        match r {
            Ok(list) => {
                &&& json_parse(body@) matches Ok(tree) && found_array(tree) matches Some(items)
                    && model_views(list@) == read_models(items)
                &&& list@.len() > 0
            },
            Err(e) => {
                &&& e matches FabrixError::BadPayload(m) && m@ == no_models(body@)
                &&& json_parse(body@) matches Ok(tree) ==> (found_array(tree) matches Some(items)
                    ==> read_models(items).len() == 0)
            },
        },
{
    match Json::parse(body) {
        Err(e) => {
            let mut message = e;
            message.append(" — 본문 앞부분: ");
            message.append(preview(body, 200).as_str());
            Err(FabrixError::BadPayload(message))
        },
        Ok(tree) => match models_in_tree(&tree) {
            None => {
                let mut message = "모델 배열을 찾지 못했습니다: ".to_owned();
                message.append(preview(body, 200).as_str());
                Err(FabrixError::BadPayload(message))
            },
            Some(list) => {
                assert(model_views(list@).len() == list@.len());
                if list.len() == 0 {
                    Err(FabrixError::BadPayload("모델 목록이 비어 있습니다".to_owned()))
                } else {
                    Ok(list)
                }
            },
        },
    }
}

} // verus!
