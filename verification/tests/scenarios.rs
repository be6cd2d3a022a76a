//! Whole calls, from the request to what the client and the log are told.

use fabrix_proxy::config::Config;
use fabrix_proxy::json::Json;
use fabrix_proxy::number::Real;
use fabrix_proxy::openai::{
    arguments_text, ChatRequest, Content, FunctionDef, LogProbsFlag, Message, NamedFunction,
    ResponseFormat, Stop, StreamOptions, Tool, ToolCall, ToolCallFunction, ToolChoice,
    ChatChunk, ChatCompletion,
};
use fabrix_proxy::logstore::{LogEntry, Stamp};
use fabrix_proxy::proxy::chat_log::{oversize_entry, Ctx};
use fabrix_proxy::proxy::chat_reply::{completion_id, Collected, LastFrame, StreamLog};
use fabrix_proxy::proxy::chat_request::{
    json_refusal, models_without_list, token_refusal, Prepared, Refusal,
};
use fabrix_proxy::proxy::envelope::unknown_endpoint_envelope;
use fabrix_proxy::proxy::fabrix::{
    build_aliases, models_in_body, FabrixError, ResolvedModel, TransportFault,
};
use fabrix_proxy::proxy::gate::{body_fits, body_plan, BodyPlan};
use fabrix_proxy::proxy::models::{look_up, retrieve, to_model_list, Lookup};
use fabrix_proxy::proxy::{authorize, too_large, CHAT_BODY_LIMIT};

fn owned(v: &Json, key: &str) -> Option<String> {
    v.get_text(key).map(str::to_string)
}

fn tool_call(v: &Json) -> ToolCall {
    let function = v.get("function").unwrap();
    ToolCall {
        id: owned(v, "id").unwrap_or_default(),
        kind: owned(v, "type").unwrap_or_else(|| "function".into()),
        function: ToolCallFunction {
            name: owned(function, "name").unwrap_or_default(),
            arguments: arguments_text(function.get("arguments").unwrap_or(&Json::Null)),
        },
    }
}

fn message(v: &Json) -> Message {
    Message {
        role: owned(v, "role").unwrap_or_default(),
        content: match v.get("content") {
            Some(Json::Text(s)) => Some(Content::Text(s.clone())),
            Some(Json::Array(parts)) => Some(Content::Parts(parts.iter().map(Json::copy).collect())),
            _ => None,
        },
        name: owned(v, "name"),
        tool_calls: match v.get("tool_calls") {
            Some(Json::Array(calls)) => Some(calls.iter().map(tool_call).collect()),
            _ => None,
        },
        tool_call_id: owned(v, "tool_call_id"),
    }
}

fn double(v: f64) -> Real {
    Real { bits: v.to_bits(), shown: v.to_string() }
}

fn float(v: &Json, key: &str) -> Option<Real> {
    match v.get(key) {
        Some(Json::Number(n)) => Some(double(n.as_f64().unwrap())),
        _ => None,
    }
}

fn whole(v: &Json, key: &str) -> Option<u32> {
    v.get(key).and_then(Json::as_u64).map(|n| n as u32)
}

fn flag(v: &Json, key: &str) -> Option<bool> {
    match v.get(key) {
        Some(Json::Bool(b)) => Some(*b),
        _ => None,
    }
}

fn kept(v: &Json, key: &str) -> Option<Json> {
    match v.get(key) {
        None | Some(Json::Null) => None,
        Some(other) => Some(other.copy()),
    }
}

fn function_def(v: &Json) -> FunctionDef {
    FunctionDef {
        name: owned(v, "name").unwrap_or_default(),
        description: owned(v, "description"),
        parameters: kept(v, "parameters"),
        strict: flag(v, "strict"),
    }
}

fn stop(v: &Json) -> Stop {
    match v {
        Json::Text(s) => Stop::One(s.clone()),
        Json::Array(items) => {
            Stop::Many(items.iter().map(|i| i.as_text().unwrap().to_string()).collect())
        }
        other => Stop::Other(other.copy()),
    }
}

fn logprobs(v: &Json) -> LogProbsFlag {
    match v {
        Json::Bool(b) => LogProbsFlag::Flag(*b),
        Json::Number(_) => LogProbsFlag::Count(v.as_u64().unwrap() as u32),
        other => LogProbsFlag::Other(other.copy()),
    }
}

fn tool_choice(v: &Json) -> ToolChoice {
    match v {
        Json::Text(s) => ToolChoice::Mode(s.clone()),
        Json::Object(_) => ToolChoice::Named {
            kind: owned(v, "type"),
            function: v
                .get("function")
                .map(|f| NamedFunction { name: owned(f, "name").unwrap_or_default() }),
        },
        other => ToolChoice::Other(other.copy()),
    }
}

fn request(v: &Json) -> ChatRequest {
    ChatRequest {
        model: owned(v, "model"),
        messages: match v.get("messages") {
            Some(Json::Array(list)) => list.iter().map(message).collect(),
            _ => Vec::new(),
        },
        stream: flag(v, "stream"),
        temperature: float(v, "temperature"),
        top_p: float(v, "top_p"),
        max_tokens: whole(v, "max_tokens"),
        max_completion_tokens: whole(v, "max_completion_tokens"),
        seed: None,
        frequency_penalty: float(v, "frequency_penalty"),
        top_k: whole(v, "top_k"),
        tools: match v.get("tools") {
            Some(Json::Array(list)) => Some(
                list.iter()
                    .map(|t| Tool {
                        kind: owned(t, "type"),
                        function: t.get("function").map(function_def),
                    })
                    .collect(),
            ),
            _ => None,
        },
        tool_choice: kept(v, "tool_choice").map(|c| tool_choice(&c)),
        parallel_tool_calls: flag(v, "parallel_tool_calls"),
        functions: match v.get("functions") {
            Some(Json::Array(list)) => Some(list.iter().map(function_def).collect()),
            _ => None,
        },
        n: whole(v, "n"),
        stop: kept(v, "stop").map(|s| stop(&s)),
        presence_penalty: float(v, "presence_penalty"),
        logit_bias: kept(v, "logit_bias"),
        user: kept(v, "user"),
        response_format: v.get("response_format").map(|f| ResponseFormat {
            kind: owned(f, "type"),
            json_schema: kept(f, "json_schema"),
        }),
        stream_options: kept(v, "stream_options")
            .map(|o| StreamOptions { include_usage: flag(&o, "include_usage") }),
        logprobs: kept(v, "logprobs").map(|l| logprobs(&l)),
        top_logprobs: whole(v, "top_logprobs"),
        metadata: kept(v, "metadata"),
        store: kept(v, "store"),
        service_tier: kept(v, "service_tier"),
    }
}

const MODEL_UUID: &str = "0196f1fc-2858-70a9-a232-74dbddb971d0";

const MODELS: &str = r#"{"data":[
    {"modelId":"0196f1fc-2858-70a9-a232-74dbddb971d0",
     "name":[{"languageCode":"ko","content":"챗 4"},{"languageCode":"en","content":"Chat 4"}],
     "description":[{"languageCode":"ko","content":"범용 대화 모델"}]},
    {"modelId":"01970a3b-91d4-7c8e-9a11-2f3c4d5e6f75",
     "name":[{"languageCode":"ko","content":"사내규정"}],
     "description":[]}]}"#;

fn models() -> Vec<ResolvedModel> {
    build_aliases(&models_in_body(MODELS).unwrap())
}

/// How the gateway answers.
struct Upstream {
    answer: String,
    reasoning: String,
    finish: Option<&'static str>,
    tokens: Option<(u32, u32)>,
    chunk: usize,
    fail_midstream: bool,
    sse_always: bool,
}

fn answering(text: &str) -> Upstream {
    Upstream {
        answer: text.into(),
        reasoning: String::new(),
        finish: None,
        tokens: None,
        chunk: 5,
        fail_midstream: false,
        sse_always: false,
    }
}

fn reasoning_only(text: &str) -> Upstream {
    Upstream { reasoning: text.into(), ..answering("") }
}

fn quoted(s: &str) -> String {
    Json::Text(s.to_string()).compact()
}

impl Upstream {
    fn frames(&self) -> String {
        let mut out = String::new();
        let mut count = 0;
        for (key, text) in [("reasoning_content", &self.reasoning), ("content", &self.answer)] {
            let chars: Vec<char> = text.chars().collect();
            for piece in chars.chunks(self.chunk) {
                if self.fail_midstream && count == 2 {
                    out.push_str(
                        "data: {\"status\":\"ERROR\",\"event_data\":\"사내 처리 중 오류(모의)\"}\n\n",
                    );
                    return out;
                }
                let piece: String = piece.iter().collect();
                out.push_str(&format!("data: {{\"{key}\":{}}}\n\n", quoted(&piece)));
                count += 1;
            }
        }
        if self.fail_midstream {
            out.push_str(
                "data: {\"status\":\"ERROR\",\"event_data\":\"사내 처리 중 오류(모의)\"}\n\n",
            );
            return out;
        }
        let counts = match self.tokens {
            Some((i, o)) => format!(",\"input_tokens\":{i},\"output_tokens\":{o}"),
            None => String::new(),
        };
        out.push_str(&format!(
            "data: {{\"content\":\"\",\"finish_reason\":{},\"status\":\"SUCCESS\"{counts}}}\n\n",
            quoted(self.finish.unwrap_or("stop")),
        ));
        out.push_str("data: [DONE]\n\n");
        out
    }

    fn whole(&self) -> String {
        if self.sse_always {
            return self.frames();
        }
        let counts = match self.tokens {
            Some((i, o)) => format!(",\"inputTokens\":{i},\"outputTokens\":{o}"),
            None => String::new(),
        };
        let finish = match self.finish {
            Some(f) => quoted(f),
            None => "null".into(),
        };
        format!(
            "{{\"modelType\":\"Chat 4\",\"content\":{},\"reasoningContent\":{},\"truncated\":false,\
             \"finishReason\":{finish},\"status\":\"SUCCESS\",\"responseCode\":\"R20000\"{counts}}}",
            quoted(&self.answer),
            quoted(&self.reasoning),
        )
    }
}

fn config() -> Config {
    Config {
        fabrix_base_url: "https://ai.corp.internal".into(),
        fabrix_client: "test-client".into(),
        openapi_token: "test-token".into(),
        ..Config::default()
    }
}

fn sentinel() -> &'static str {
    "<tool_call>{\"arguments\":{\"filePath\":\"index.html\"},\"name\":\"write\"}</tool_call>"
}

const TOOLS: &str = r#""tools":[{"type":"function","function":{"name":"write",
    "description":"Write a file",
    "parameters":{"type":"object","properties":{"filePath":{"type":"string"}}}}}]"#;

fn stamp() -> Stamp {
    Stamp { id: "id".into(), ts: "14:31".into(), ts_full: "2025-01-01T14:31:00+09:00".into(), latency_ms: 7 }
}

/// A call, as far as it goes without the gateway.
fn prepared(body: &str) -> (Ctx, Result<Prepared, Refusal>) {
    let cfg = config();
    let (mut ctx, incoming) = Ctx::begin(&cfg, None, body.as_bytes());
    let req = request(&incoming);
    if let Err(refusal) = ctx.check(&req, &incoming) {
        return (ctx, Err(refusal));
    }
    let out = ctx.prepare(&cfg, &req, &models());
    (ctx, out)
}

struct Streamed {
    opening: ChatChunk,
    chunks: Vec<ChatChunk>,
    last: Vec<LastFrame>,
    entry: LogEntry,
}

impl Streamed {
    fn text(&self) -> String {
        self.chunks.iter().filter_map(|c| c.choices[0].delta.content.clone()).collect()
    }

    fn reasoning(&self) -> String {
        self.chunks.iter().filter_map(|c| c.choices[0].delta.reasoning_content.clone()).collect()
    }

    fn calls(&self) -> Vec<(u32, String, String, String)> {
        self.chunks
            .iter()
            .filter_map(|c| c.choices[0].delta.tool_calls.as_ref())
            .flatten()
            .map(|c| {
                let f = c.function.as_ref().unwrap();
                assert_eq!(c.kind, Some("function"));
                (
                    c.index,
                    c.id.clone().unwrap(),
                    f.name.clone().unwrap(),
                    f.arguments.clone().unwrap(),
                )
            })
            .collect()
    }

    fn finish(&self) -> String {
        self.last
            .iter()
            .filter_map(|f| match f {
                LastFrame::Chunk(c) => c.choices.first().and_then(|x| x.finish_reason.clone()),
                _ => None,
            })
            .next()
            .unwrap()
    }
}

fn streamed(up: &Upstream, body: &str) -> Streamed {
    streamed_in(up, body, 11)
}

fn streamed_in(up: &Upstream, body: &str, size: usize) -> Streamed {
    let include_usage = body.contains("include_usage");
    let (ctx, out) = prepared(body);
    let p = out.unwrap();
    assert!(p.payload.is_stream);
    let mut log = StreamLog::start(
        ctx,
        p.tool_names,
        "chatcmpl-x".into(),
        1,
        p.echo_model,
        Some(p.fingerprint),
        include_usage,
    );
    let opening = log.opening();
    let mut chunks = Vec::new();
    for piece in up.frames().as_bytes().chunks(size) {
        let (more, ended) = log.on_bytes(piece, "0.3");
        chunks.extend(more);
        if ended {
            break;
        }
    }
    chunks.extend(log.close("0.4"));
    let last = log.last_frames();
    let entry = log.entry(stamp());
    Streamed { opening, chunks, last, entry }
}

fn collected(up: &Upstream, body: &str) -> (Result<Collected, FabrixError>, LogEntry) {
    let (ctx, out) = prepared(body);
    let p = out.unwrap();
    assert!(!p.payload.is_stream);
    let done = ctx.collect(
        &up.whole(),
        p.tool_names,
        "chatcmpl-x".into(),
        1,
        p.echo_model,
        Some(p.fingerprint),
    );
    let entry = match &done {
        Ok(c) => ctx.collected_entry(stamp(), c),
        Err(e) => ctx.fail(stamp(), e),
    };
    (done, entry)
}

fn completion(up: &Upstream, body: &str) -> ChatCompletion {
    collected(up, body).0.unwrap().completion
}

const PLAIN: &str = r#"{"model":"fabrix-chat-4","messages":[{"role":"user","content":"hi"}]}"#;
const STREAM: &str =
    r#"{"model":"fabrix-chat-4","stream":true,"messages":[{"role":"user","content":"hi"}]}"#;

fn plain_with_tools() -> String {
    format!(
        r#"{{"model":"fabrix-chat-4","messages":[{{"role":"user","content":"만들어줘"}}],{TOOLS}}}"#
    )
}

fn stream_with_tools() -> String {
    format!(
        r#"{{"model":"fabrix-chat-4","stream":true,"messages":[{{"role":"user","content":"만들어줘"}}],{TOOLS}}}"#
    )
}

#[test]
fn non_stream_response_carries_usage_logprobs_and_fingerprint() {
    let (done, entry) = collected(
        &answering("연차는 15일입니다."),
        r#"{"model":"fabrix-chat-4","messages":[{"role":"user","content":"연차 알려줘"}]}"#,
    );
    let done = done.unwrap();
    assert_eq!(done.counted.source.header_value(), "estimated");
    let c = &done.completion;
    assert_eq!(c.object, "chat.completion");
    assert_eq!(c.model, "fabrix-chat-4");
    assert_eq!(c.choices[0].message.role, "assistant");
    assert_eq!(c.choices[0].message.content.as_deref(), Some("연차는 15일입니다."));
    assert_eq!(c.choices[0].finish_reason.as_deref(), Some("stop"));
    assert!(c.choices[0].logprobs.is_none());
    assert!(c.system_fingerprint.as_ref().unwrap().starts_with("fp_"));
    let usage = c.usage.unwrap();
    assert!(usage.prompt_tokens > 0);
    assert!(usage.completion_tokens > 0);
    assert_eq!(usage.total_tokens, usage.prompt_tokens + usage.completion_tokens);
    assert_eq!(entry.status, 200);
    assert!(!entry.is_error);
    assert_eq!(entry.note, None);
    assert_eq!(entry.summary.as_deref(), Some("fabrix-chat-4 → 챗 4"));
    assert_eq!(entry.resp_body, "연차는 15일입니다.");
    assert!(entry.resp_meta.starts_with("finish_reason: stop · 11자 · "), "{}", entry.resp_meta);
}

#[test]
fn upstream_token_counts_replace_the_estimate() {
    let up = Upstream { tokens: Some((812, 240)), ..answering("짧은 답") };
    let done = collected(&up, PLAIN).0.unwrap();
    assert_eq!(done.counted.source.header_value(), "upstream");
    let usage = done.completion.usage.unwrap();
    assert_eq!(usage.prompt_tokens, 812);
    assert_eq!(usage.completion_tokens, 240);
    assert_eq!(usage.total_tokens, 1052);
}

#[test]
fn unknown_upstream_finish_reason_never_reaches_the_client() {
    let up = Upstream { finish: Some("weird"), ..answering("답변") };
    let (done, entry) = collected(&up, PLAIN);
    assert_eq!(done.unwrap().completion.choices[0].finish_reason.as_deref(), Some("stop"));
    assert!(entry.resp_meta.starts_with("finish_reason: stop (사내: weird)"), "{}", entry.resp_meta);
}

#[test]
fn empty_answer_with_success_markers_is_200_not_502() {
    let up = Upstream { finish: Some("stop"), ..answering("") };
    assert_eq!(completion(&up, PLAIN).choices[0].message.content.as_deref(), Some(""));
}

#[test]
fn an_answer_that_nobody_understands_is_a_502() {
    let (ctx, out) = prepared(PLAIN);
    let p = out.unwrap();
    let err = ctx
        .collect("{\"hello\":1}", p.tool_names, "x".into(), 1, p.echo_model, None)
        .unwrap_err();
    assert_eq!(err.status(), 502);
    assert_eq!(err.code(), "upstream_bad_response");
    assert!(err.message().contains("본문 앞부분: {\"hello\":1}"), "{}", err.message());
}

#[test]
fn a_blocked_answer_says_why() {
    let (ctx, out) = prepared(PLAIN);
    let p = out.unwrap();
    let raw = r#"{"content":null,"status":"SUCCESS",
        "filterBlockReason":{"ko":"부적절한 표현","result_code":"FR-403"}}"#;
    let err = ctx.collect(raw, p.tool_names, "x".into(), 1, p.echo_model, None).unwrap_err();
    assert_eq!(err.status(), 502);
    assert_eq!(err.code(), "upstream_error");
    assert!(err.message().contains("부적절한 표현"), "{}", err.message());
}

#[test]
fn an_error_body_is_an_upstream_error() {
    let (ctx, out) = prepared(PLAIN);
    let p = out.unwrap();
    let raw = r#"{"status":"ERROR","eventData":"쿼터 초과"}"#;
    let err = ctx.collect(raw, p.tool_names, "x".into(), 1, p.echo_model, None).unwrap_err();
    assert_eq!(err.status(), 502);
    assert!(err.message().contains("쿼터 초과"), "{}", err.message());
    let entry = ctx.fail(stamp(), &err);
    assert_eq!(entry.status, 502);
    assert!(entry.is_error);
}

#[test]
fn stream_opens_with_a_role_only_chunk_and_ends_with_done() {
    let s = streamed(&answering("안녕하세요 반갑습니다"), STREAM);
    assert_eq!(s.opening.object, "chat.completion.chunk");
    assert_eq!(s.opening.choices[0].delta.role, Some("assistant"));
    assert_eq!(s.opening.choices[0].delta.content.as_deref(), Some(""));
    assert!(s.opening.choices[0].finish_reason.is_none());
    assert!(s.chunks.iter().all(|c| c.choices[0].delta.role.is_none()));
    assert!(s.chunks.iter().all(|c| c.choices[0].finish_reason.is_none()));
    assert!(matches!(s.last.last(), Some(LastFrame::Done)));
    assert_eq!(s.last.len(), 2);
    assert_eq!(s.finish(), "stop");
    assert_eq!(s.text(), "안녕하세요 반갑습니다");
    assert_eq!(s.entry.resp_body, "안녕하세요 반갑습니다");
    assert!(s.entry.resp_meta.starts_with("첫 토큰 0.3s · finish_reason: stop · SSE "), "{}", s.entry.resp_meta);
}

#[test]
fn include_usage_appends_a_usage_chunk_after_finish() {
    let s = streamed(
        &answering("답변입니다"),
        r#"{"model":"fabrix-chat-4","stream":true,"stream_options":{"include_usage":true},
            "messages":[{"role":"user","content":"hi"}]}"#,
    );
    assert_eq!(s.last.len(), 3);
    assert!(matches!(&s.last[2], LastFrame::Done));
    match &s.last[1] {
        LastFrame::Chunk(c) => {
            assert!(c.choices.is_empty());
            assert!(c.usage.unwrap().total_tokens > 0);
        }
        other => panic!("{other:?}"),
    }
    match &s.last[0] {
        LastFrame::Chunk(c) => {
            assert_eq!(c.choices[0].finish_reason.as_deref(), Some("stop"));
            assert!(c.usage.is_none());
            assert!(c.system_fingerprint.is_some());
        }
        other => panic!("{other:?}"),
    }
}

#[test]
fn stream_without_include_usage_has_no_usage_chunk() {
    let s = streamed(&answering("답변"), STREAM);
    assert!(s.chunks.iter().all(|c| c.usage.is_none()));
    assert!(s.last.iter().all(|f| match f {
        LastFrame::Chunk(c) => c.usage.is_none(),
        _ => true,
    }));
    assert!(s.entry.resp_meta.contains("usage 미계산"), "{}", s.entry.resp_meta);
}

#[test]
fn tool_calls_survive_the_new_stream_prologue() {
    let answer = "만들겠습니다.\n<tool_call>\n\
        {\"name\":\"write\",\"arguments\":{\"filePath\":\"index.html\"}}\n\
        </tool_call>";
    let s = streamed(&answering(answer), &stream_with_tools());
    let calls = s.calls();
    assert_eq!(calls.len(), 1);
    assert_eq!(calls[0].0, 0);
    assert!(calls[0].1.starts_with("call_"));
    assert_eq!(calls[0].2, "write");
    assert!(calls[0].3.contains("index.html"));
    assert_eq!(s.finish(), "tool_calls");
}

#[test]
fn tool_call_only_in_reasoning_content_finishes_as_tool_calls() {
    let s = streamed(
        &reasoning_only(&format!("먼저 파일을 써야겠다.{}", sentinel())),
        &stream_with_tools(),
    );
    let calls = s.calls();
    assert_eq!(calls[0].0, 0);
    assert!(calls[0].1.starts_with("call_"));
    assert_eq!(calls[0].2, "write");
    assert!(calls[0].3.contains("index.html"));
    assert_eq!(s.finish(), "tool_calls");
    assert_eq!(s.reasoning(), "먼저 파일을 써야겠다.");
    assert!(s.entry.resp_meta.contains("그중 1건은 추론 채널에서"), "{}", s.entry.resp_meta);
}

#[test]
fn non_stream_tool_call_in_reasoning_content_finishes_as_tool_calls() {
    let c = completion(&reasoning_only(&format!("써야겠다.{}", sentinel())), &plain_with_tools());
    let choice = &c.choices[0];
    assert_eq!(choice.finish_reason.as_deref(), Some("tool_calls"));
    let calls = choice.message.tool_calls.as_ref().unwrap();
    assert_eq!(calls.len(), 1);
    assert_eq!(calls[0].function.name, "write");
    assert!(choice.message.content.is_none());
    assert_eq!(choice.message.reasoning_content.as_deref(), Some("써야겠다."));
}

#[test]
fn reasoning_frames_split_mid_sentinel_still_yield_one_call() {
    let up = Upstream { chunk: 3, ..reasoning_only(&format!("생각.{}", sentinel())) };
    let s = streamed(&up, &stream_with_tools());
    assert_eq!(s.calls().len(), 1);
    assert_eq!(s.calls()[0].2, "write");
    assert_eq!(s.finish(), "tool_calls");
    assert!(!s.reasoning().contains("tool_call"));
}

#[test]
fn think_tags_are_split_into_reasoning_content() {
    let s = streamed(
        &answering(&format!("<think>써야겠다{}</think>만들었습니다.", sentinel())),
        &stream_with_tools(),
    );
    assert_eq!(s.text(), "만들었습니다.");
    assert_eq!(s.reasoning(), "써야겠다");
    assert_eq!(s.finish(), "tool_calls");
}

#[test]
fn non_stream_think_tags_are_split_into_reasoning_content() {
    let c = completion(&answering("<think>고민했다</think>답입니다."), PLAIN);
    assert_eq!(c.choices[0].message.content.as_deref(), Some("답입니다."));
    assert_eq!(c.choices[0].message.reasoning_content.as_deref(), Some("고민했다"));
    assert_eq!(c.choices[0].finish_reason.as_deref(), Some("stop"));
}

#[test]
fn midstream_error_after_a_complete_tool_call_finishes_as_tool_calls() {
    let up = Upstream { chunk: 4096, fail_midstream: true, ..answering(sentinel()) };
    let s = streamed(&up, &stream_with_tools());
    assert_eq!(s.calls().len(), 1);
    assert_eq!(s.finish(), "tool_calls");
    match &s.last[0] {
        LastFrame::Failure(env) => {
            assert_eq!(env.error.message, "사내 처리 중 오류(모의)");
            assert_eq!(env.error.code.as_deref(), Some("upstream_error"));
        }
        other => panic!("{other:?}"),
    }
    assert!(s.entry.is_error);
    assert_eq!(s.entry.note.as_deref(), Some("스트리밍 중 끊김"));
    assert!(s.entry.resp_body.ends_with("[중단] 사내 처리 중 오류(모의)"), "{}", s.entry.resp_body);
}

#[test]
fn a_broken_stream_is_told_as_such() {
    let (ctx, out) = prepared(STREAM);
    let p = out.unwrap();
    let mut log =
        StreamLog::start(ctx, p.tool_names, "id".into(), 1, p.echo_model, None, false);
    log.on_break("reset by peer");
    assert!(log.close("0.1").is_empty());
    let last = log.last_frames();
    assert_eq!(last.len(), 3);
    let entry = log.entry(stamp());
    assert_eq!(entry.resp_body, "스트림이 끊겼습니다: reset by peer");
    assert!(entry.resp_meta.starts_with("finish_reason: length · SSE 0프레임 · 0자"), "{}", entry.resp_meta);
}

#[test]
fn a_client_that_leaves_early_is_told_as_such() {
    let (ctx, out) = prepared(STREAM);
    let p = out.unwrap();
    let log = StreamLog::start(ctx, p.tool_names, "id".into(), 1, p.echo_model, None, false);
    let entry = log.entry(stamp());
    assert_eq!(entry.note.as_deref(), Some("클라이언트가 연결을 끊음"));
    assert_eq!(entry.resp_body, "(클라이언트가 먼저 끊어 받은 내용이 없습니다)");
    assert!(entry.resp_meta.starts_with("finish_reason: (없음 · 클라이언트가 끊음)"), "{}", entry.resp_meta);
}

#[test]
fn the_log_keeps_what_went_over_the_wire() {
    let (ctx, out) = prepared(STREAM);
    let p = out.unwrap();
    let mut log = StreamLog::start(ctx, p.tool_names, "id".into(), 1, p.echo_model, None, false);
    log.on_bytes("data: {\"content\":\"가\"}\n\n".as_bytes(), "0.1");
    log.out("[DONE]");
    let entry = log.entry(stamp());
    assert_eq!(entry.raw.upstream, "data: {\"content\":\"가\"}\n\n");
    assert_eq!(entry.raw.client, "data: [DONE]\n\n");
}

#[test]
fn tail_reminder_reaches_the_upstream_contents() {
    let p = prepared(&plain_with_tools()).1.unwrap();
    let tail = p.payload.contents.last().unwrap();
    assert!(tail.contains("# Reminder"), "{tail}");
    assert!(tail.contains("<tool_call>"), "{tail}");
    assert!(p.payload.system_prompt.as_ref().unwrap().contains("# Tool calling"));
    assert!(!tail.contains("# Tool calling"));
}

#[test]
fn multi_turn_reaches_the_upstream_as_one_element_per_turn() {
    let p = prepared(
        r#"{"model":"fabrix-chat-4","messages":[
            {"role":"user","content":"안녕하세요?"},
            {"role":"assistant","content":"네 안녕하세요"},
            {"role":"user","content":"내 이름은 LCY인데 너 이름은 뭐니?"}]}"#,
    )
    .1
    .unwrap();
    assert_eq!(
        p.payload.contents,
        vec!["안녕하세요?", "네 안녕하세요", "내 이름은 LCY인데 너 이름은 뭐니?"]
    );
}

#[test]
fn a_tool_round_trip_keeps_alternation_and_the_reminder_in_a_user_slot() {
    let p = prepared(&format!(
        r#"{{"model":"fabrix-chat-4","messages":[
            {{"role":"user","content":"페이지 만들어줘"}},
            {{"role":"assistant","content":null,"tool_calls":[{{
                "id":"call_a1","type":"function",
                "function":{{"name":"write","arguments":"{{\"filePath\":\"a.html\"}}"}}}}]}},
            {{"role":"tool","tool_call_id":"call_a1","content":"wrote 12 bytes"}}],{TOOLS}}}"#
    ))
    .1
    .unwrap();
    let contents = &p.payload.contents;
    assert_eq!(contents.len(), 3);
    assert_eq!(contents[0], "페이지 만들어줘");
    assert!(contents[1].contains("<tool_call>"));
    assert!(contents[2].contains("wrote 12 bytes"));
    assert!(contents[2].contains("# Reminder"));
    assert!(!contents[1].contains("# Reminder"));
}

#[test]
fn the_reminder_becomes_its_own_user_turn_after_an_assistant_message() {
    let p = prepared(&format!(
        r#"{{"model":"fabrix-chat-4","messages":[
            {{"role":"user","content":"만들어줘"}},
            {{"role":"assistant","content":"무엇을 만들까요?"}}],{TOOLS}}}"#
    ))
    .1
    .unwrap();
    let contents = &p.payload.contents;
    assert_eq!(contents.len(), 3);
    assert_eq!(contents[1], "무엇을 만들까요?");
    assert!(contents[2].contains("# Reminder"));
}

#[test]
fn temperature_above_the_fabrix_ceiling_is_clamped_and_logged() {
    let body = r#"{"model":"fabrix-chat-4","temperature":1.5,
        "messages":[{"role":"user","content":"hi"}]}"#;
    let p = prepared(body).1.unwrap();
    let sent = p.payload.llm_config.unwrap().temperature.unwrap();
    assert_eq!(f64::from_bits(sent.bits), 1.0);
    let (_, entry) = collected(&answering("네"), body);
    assert!(entry.resp_meta.contains("temperature 1.5 → 1 (사내 상한)"), "{}", entry.resp_meta);
}

#[test]
fn llm_config_carries_both_spellings_upstream() {
    let p = prepared(
        r#"{"model":"fabrix-chat-4","frequency_penalty":1.04,"top_k":14,
            "messages":[{"role":"user","content":"hi"}]}"#,
    )
    .1
    .unwrap();
    let cfg = p.payload.llm_config.unwrap();
    assert_eq!(f64::from_bits(cfg.repetition_penalty.unwrap().bits), 1.04);
    assert_eq!(f64::from_bits(cfg.repetion_penalty.unwrap().bits), 1.04);
    assert_eq!(cfg.top_k, Some(14));
    assert_eq!(cfg.tok_k, Some(14));
}

#[test]
fn a_tool_free_request_carries_no_reminder() {
    let p = prepared(
        r#"{"model":"fabrix-chat-4","messages":[{"role":"user","content":"안녕"}]}"#,
    )
    .1
    .unwrap();
    assert_eq!(p.payload.contents, vec!["안녕"]);
    assert!(p.payload.system_prompt.is_none());
    assert!(p.tool_names.is_empty());
}

#[test]
fn non_stream_sse_body_goes_through_the_same_pipeline() {
    let up = Upstream {
        answer: "답입니다.".into(),
        sse_always: true,
        ..reasoning_only(&format!("생각.{}", sentinel()))
    };
    let (done, entry) = collected(&up, &plain_with_tools());
    let c = done.unwrap().completion;
    let choice = &c.choices[0];
    assert_eq!(choice.finish_reason.as_deref(), Some("tool_calls"));
    assert_eq!(choice.message.tool_calls.as_ref().unwrap().len(), 1);
    assert_eq!(choice.message.content.as_deref(), Some("답입니다."));
    assert_eq!(choice.message.reasoning_content.as_deref(), Some("생각."));
    assert!(entry.resp_meta.contains("SSE 본문을 합쳐 해석"), "{}", entry.resp_meta);
}

#[test]
fn unknown_model_is_404_model_not_found() {
    let (ctx, out) =
        prepared(r#"{"model":"gpt-4o","messages":[{"role":"user","content":"hi"}]}"#);
    let refusal = out.unwrap_err();
    assert_eq!(refusal.status, 404);
    let error = &refusal.envelope.error;
    assert_eq!(error.kind, "invalid_request_error");
    assert_eq!(error.code.as_deref(), Some("model_not_found"));
    assert_eq!(error.param.as_deref(), Some("model"));
    assert!(error.message.contains("gpt-4o"), "{}", error.message);
    assert!(error.message.contains("/v1/models"), "{}", error.message);
    assert!(error.message.contains("모델 목록"), "{}", error.message);
    let entry = ctx.refuse(stamp(), &refusal);
    assert_eq!(entry.status, 404);
    assert_eq!(entry.note.as_deref(), Some("모델 없음"));
    assert_eq!(entry.resp_meta, "실패 · HTTP 404 · 모델 없음");
}

#[test]
fn an_empty_list_is_told_as_a_bad_response() {
    let cfg = config();
    let body = r#"{"messages":[{"role":"user","content":"hi"}]}"#;
    let (mut ctx, incoming) = Ctx::begin(&cfg, None, body.as_bytes());
    let req = request(&incoming);
    let refusal = ctx.prepare(&cfg, &req, &[]).unwrap_err();
    assert_eq!(refusal.status, 502);
    assert_eq!(refusal.envelope.error.code.as_deref(), Some("upstream_bad_response"));
}

#[test]
fn omitted_model_falls_back_to_the_default() {
    let (ctx, out) = prepared(r#"{"messages":[{"role":"user","content":"hi"}]}"#);
    let p = out.unwrap();
    assert_eq!(p.echo_model, "fabrix-chat-4");
    assert_eq!(p.payload.model_ids, vec![MODEL_UUID]);
    assert!(ctx.model_defaulted);
}

#[test]
fn uuid_and_case_insensitive_aliases_resolve() {
    for name in [MODEL_UUID, "fabrix-chat-4", "FABRIX-CHAT-4", "fabrix-01970a3b"] {
        let p = prepared(&format!(
            r#"{{"model":"{name}","messages":[{{"role":"user","content":"hi"}}]}}"#
        ))
        .1
        .unwrap();
        assert_eq!(p.echo_model, name);
    }
}

#[test]
fn a_uuid_needs_no_list() {
    let uuid = Json::parse(&format!(r#"{{"model":"{MODEL_UUID}"}}"#)).unwrap();
    let list = models_without_list(&request(&uuid)).unwrap();
    assert_eq!(list.len(), 1);
    assert_eq!(list[0].model_id, MODEL_UUID);
    let known = |name: &str| {
        let tree = Json::Object(vec![("model".into(), Json::text(name))]);
        models_without_list(&request(&tree)).is_some()
    };
    assert!(known("0196F1FC285870a9a23274dbddb971d0"));
    assert!(known(&format!("{{{MODEL_UUID}}}")));
    assert!(known(&format!("URN:uuid:{MODEL_UUID}")));
    assert!(!known("fabrix-chat-4"));
    assert!(!known(""));
    assert!(!known(&format!(" {MODEL_UUID}")));
    assert!(!known("0196f1fc-2858-70a9-a232-74dbddb971dg"));
    assert!(!known("0196f1fc28-58-70a9-a232-74dbddb971d0"));
    assert!(!known("{0196f1fc285870a9a23274dbddb971d0}"));
}

#[test]
fn protocol_violations_are_400_with_param_and_code() {
    let user = r#""messages":[{"role":"user","content":"hi"}]"#;
    let cases = [
        (String::new(), "messages", "missing_required_parameter"),
        (r#","messages":[]"#.into(), "messages", "invalid_value"),
        (format!(r#",{user},"temperature":5"#), "temperature", "invalid_value"),
        (format!(r#",{user},"top_p":1.5"#), "top_p", "invalid_value"),
        (format!(r#",{user},"presence_penalty":9"#), "presence_penalty", "invalid_value"),
        (format!(r#",{user},"n":2"#), "n", "unsupported_value"),
        (format!(r#",{user},"n":0"#), "n", "invalid_value"),
        (format!(r#",{user},"logprobs":true"#), "logprobs", "unsupported_value"),
        (format!(r#",{user},"top_logprobs":3"#), "top_logprobs", "invalid_value"),
        (format!(r#",{user},"stop":["1","2","3","4","5"]"#), "stop", "invalid_value"),
        (format!(r#",{user},"max_tokens":0"#), "max_tokens", "invalid_value"),
        (
            r#","messages":[{"role":"보스","content":"hi"}]"#.into(),
            "messages[0].role",
            "invalid_value",
        ),
        (
            r#","messages":[{"role":"user"}]"#.into(),
            "messages[0].content",
            "missing_required_parameter",
        ),
        (
            format!(r#",{user},"stream_options":{{"include_usage":true}}"#),
            "stream_options",
            "invalid_value",
        ),
        (
            r#","messages":[{"role":"user","content":[{"type":"image_url",
                "image_url":{"url":"data:image/png;base64,AA"}}]}]"#
                .into(),
            "messages[0].content",
            "unsupported_content",
        ),
    ];
    for (tail, param, code) in cases {
        let body = format!(r#"{{"model":"fabrix-chat-4"{tail}}}"#);
        let refusal = prepared(&body).1.unwrap_err();
        assert_eq!(refusal.status, 400, "{body}");
        assert_eq!(refusal.envelope.error.kind, "invalid_request_error", "{body}");
        assert_eq!(refusal.envelope.error.param.as_deref(), Some(param), "{body}");
        assert_eq!(refusal.envelope.error.code.as_deref(), Some(code), "{body}");
    }
}

#[test]
fn real_client_shapes_pass_validation() {
    for body in [
        r#"{"model":"fabrix-chat-4","temperature":0,"max_tokens":256,"stop":["\n\n","```"],
            "messages":[{"role":"user","content":"complete"}]}"#,
        r#"{"model":"fabrix-chat-4","temperature":2,"top_p":0,"n":1,
            "messages":[{"role":"user","content":"hi"}]}"#,
        r#"{"model":"fabrix-chat-4","messages":[{"role":"user","content":[
              {"type":"text","text":"이거 뭐야"},
              {"type":"image_url","image_url":{"url":"data:image/png;base64,AA"}}]}]}"#,
        r#"{"model":"fabrix-chat-4","messages":[{"role":"user","content":"hi"}],
            "래빗홀":1,"store":true,"user":"kim","logit_bias":{"1":1}}"#,
    ] {
        assert!(prepared(body).1.is_ok(), "{body}");
    }
}

#[test]
fn unparsable_body_does_not_echo_the_request_back() {
    let refusal = json_refusal(1, 40, "expected value near 비밀값");
    assert_eq!(refusal.status, 400);
    assert_eq!(refusal.envelope.error.code.as_deref(), Some("invalid_json"));
    let msg = &refusal.envelope.error.message;
    assert!(msg.contains("line"), "{msg}");
    assert!(!msg.contains("비밀값"), "{msg}");
    assert!(refusal.body.contains("비밀값"));
}

#[test]
fn a_body_that_is_no_json_is_shown_as_it_came() {
    let cfg = config();
    let (ctx, incoming) = Ctx::begin(&cfg, Some("curl".into()), b"not json");
    assert!(matches!(incoming, Json::Null));
    assert_eq!(ctx.req_openai, "not json");
    assert_eq!(ctx.fabrix_url, "https://ai.corp.internal/openapi/chat/v1/messages");
    assert_eq!(ctx.req_fabrix_headers, "x-fabrix-client ●●●●ent · x-openapi-token ●●●●ken");
    let (ctx, _) = Ctx::begin(&cfg, None, b"{\"a\":1}");
    assert_eq!(ctx.req_openai, "{\n  \"a\": 1\n}");
}

#[test]
fn a_conversation_without_anything_to_say_is_refused() {
    let cfg = config();
    let body = r#"{"messages":[{"role":"user","content":"  "}]}"#;
    let (mut ctx, incoming) = Ctx::begin(&cfg, None, body.as_bytes());
    let refusal = ctx.prepare(&cfg, &request(&incoming), &models()).unwrap_err();
    assert_eq!(refusal.status, 400);
    assert_eq!(refusal.note, "빈 messages");
    assert_eq!(refusal.envelope.error.param.as_deref(), Some("messages"));
}

#[test]
fn models_list_is_openai_shaped_with_exactly_four_keys() {
    let list = to_model_list(&models(), 1);
    assert_eq!(list.object, "list");
    assert_eq!(list.data.len(), 2);
    assert_eq!(list.data[0].id, "fabrix-chat-4");
    assert_eq!(list.data[0].object, "model");
    assert_eq!(list.data[0].owned_by, "corp");
    assert_eq!(list.data[1].id, "fabrix-01970a3b");
    assert!(!format!("{list:?}").contains(MODEL_UUID));
}

#[test]
fn retrieve_model_hits_by_alias_and_uuid_and_404s_otherwise() {
    for id in ["fabrix-chat-4", MODEL_UUID, "FABRIX-CHAT-4"] {
        let card = retrieve(&models(), id, 1).unwrap();
        assert_eq!(card.id, "fabrix-chat-4", "{id}");
        assert_eq!(card.object, "model");
    }
    let env = retrieve(&models(), "gpt-4o", 1).unwrap_err();
    assert_eq!(env.error.code.as_deref(), Some("model_not_found"));
    assert_eq!(env.error.param.as_deref(), Some("model"));
}

#[test]
fn oversized_body_is_a_413_envelope() {
    let env = too_large(CHAT_BODY_LIMIT);
    let entry = oversize_entry(stamp(), None, &config(), &env);
    assert_eq!(entry.status, 413);
    assert!(entry.is_error);
    assert_eq!(entry.note.as_deref(), Some("본문이 너무 큼"));
    assert_eq!(body_plan(Some("18874368"), CHAT_BODY_LIMIT), BodyPlan::Drain);
    assert_eq!(body_plan(Some("16777216"), CHAT_BODY_LIMIT), BodyPlan::Read);
    assert_eq!(body_plan(Some("67108865"), CHAT_BODY_LIMIT), BodyPlan::Refuse);
    assert_eq!(body_plan(Some("many"), CHAT_BODY_LIMIT), BodyPlan::Read);
    assert_eq!(body_plan(None, CHAT_BODY_LIMIT), BodyPlan::Read);
    assert!(body_fits(BodyPlan::Read, 8, 8));
    assert!(!body_fits(BodyPlan::Read, 9, 8));
    assert!(!body_fits(BodyPlan::Drain, 8, 8));
}

#[test]
fn token_mode_rejects_a_wrong_bearer_with_an_authentication_error() {
    let cfg = Config { token_mode: true, issued_token: "sk-correct".into(), ..config() };
    let (status, env) = authorize(&cfg, Some("Bearer sk-wrong")).unwrap_err();
    let refusal = token_refusal(status, env);
    assert_eq!(refusal.status, 401);
    assert_eq!(refusal.meta, "거부 · HTTP 401");
    assert_eq!(refusal.envelope.error.kind, "authentication_error");
    assert_eq!(refusal.envelope.error.code.as_deref(), Some("invalid_api_key"));
    assert!(authorize(&cfg, Some("Bearer sk-correct")).is_ok());
}

#[test]
fn unknown_path_is_a_404_envelope_naming_the_surface() {
    let env = unknown_endpoint_envelope();
    assert_eq!(env.error.code.as_deref(), Some("unknown_endpoint"));
    assert!(env.error.message.contains("/v1/models/{id}"), "{}", env.error.message);
}

#[test]
fn missing_credentials_is_a_503_with_not_configured() {
    assert!(matches!(look_up(&None, &Config::default(), false, 0), Lookup::NotConfigured));
    assert!(matches!(look_up(&None, &config(), false, 0), Lookup::Ask));
    let env = FabrixError::NotConfigured.envelope();
    assert_eq!(FabrixError::NotConfigured.status(), 503);
    assert_eq!(env.error.kind, "api_error");
    assert_eq!(env.error.code.as_deref(), Some("not_configured"));
}

#[test]
fn unreachable_upstream_is_a_502_envelope() {
    let err = FabrixError::from_transport(TransportFault::Connect, "refused".into());
    assert_eq!(err.status(), 502);
    assert_eq!(err.envelope().error.kind, "api_error");
    assert_eq!(err.envelope().error.code.as_deref(), Some("upstream_unreachable"));
    assert!(err.message().contains("연결할 수 없습니다"));
    let late = FabrixError::from_transport(TransportFault::Timeout, "t".into());
    assert!(late.message().contains("응답 시간 초과"));
    let garbled = FabrixError::from_transport(TransportFault::Decode, "d".into());
    assert_eq!(garbled.code(), "upstream_bad_response");
}

#[test]
fn where_the_network_cuts_makes_no_difference() {
    let up = Upstream {
        reasoning: format!("한글 생각.{}", sentinel()),
        ..answering(&format!("앞<think>중{}</think>뒤", sentinel()))
    };
    let whole = streamed_in(&up, &stream_with_tools(), 1 << 20);
    assert_eq!(whole.text(), "앞뒤");
    assert_eq!(whole.reasoning(), "한글 생각.중");
    for size in [1, 2, 3, 7, 64] {
        let cut = streamed_in(&up, &stream_with_tools(), size);
        assert_eq!(cut.text(), whole.text(), "{size}");
        assert_eq!(cut.reasoning(), whole.reasoning(), "{size}");
        assert_eq!(cut.finish(), whole.finish(), "{size}");
        let numbers: Vec<u32> = cut.calls().iter().map(|c| c.0).collect();
        assert_eq!(numbers, vec![0, 1], "{size}");
        assert_eq!(cut.entry.resp_body, whole.entry.resp_body, "{size}");
    }
}

#[test]
fn streaming_or_not_the_answer_is_the_same() {
    let up = Upstream {
        answer: format!("앞<think>중{}</think>뒤", sentinel()),
        sse_always: true,
        ..reasoning_only("생각.")
    };
    let s = streamed(&up, &stream_with_tools());
    let c = completion(&up, &plain_with_tools());
    let message = &c.choices[0].message;
    assert_eq!(message.content.as_deref(), Some(s.text().as_str()));
    assert_eq!(message.reasoning_content.as_deref(), Some(s.reasoning().as_str()));
    assert_eq!(c.choices[0].finish_reason.as_deref(), Some(s.finish().as_str()));
    assert_eq!(message.tool_calls.as_ref().unwrap().len(), s.calls().len());
}

#[test]
fn ids_have_their_shapes() {
    let id = completion_id();
    assert_eq!(id.len(), 9 + 32);
    assert!(id.starts_with("chatcmpl-"));
    assert_ne!(id, completion_id());
    let stamp = Stamp::new("t".into(), "f".into(), 1);
    assert_eq!(stamp.id.len(), 36);
    assert_eq!(stamp.id.split('-').map(str::len).collect::<Vec<_>>(), vec![8, 4, 4, 4, 12]);
    assert_ne!(stamp.id, Stamp::new("t".into(), "f".into(), 1).id);
}

#[test]
fn unknown_keys_come_in_the_order_of_their_bytes() {
    let (ctx, out) = prepared(
        r#"{"zeta":1,"messages":[{"role":"user","content":"hi"}],"래빗홀":1,"Alpha":1,"foo":2}"#,
    );
    assert!(out.is_ok());
    assert_eq!(ctx.plan.unknown, vec!["Alpha", "foo", "zeta", "래빗홀"]);
}
