//! What the log and the client are told of a chat call.

use fabrix_proxy::logstore::RawBuf;
use fabrix_proxy::openai::{ChatChunk, Delta};
use fabrix_proxy::proxy::chat_log::{log_body, plan_meta, reasoning_meta, tool_meta, Ctx};
use fabrix_proxy::proxy::chat_reply::emit_chunks;
use fabrix_proxy::proxy::decode::StreamEvent;
use fabrix_proxy::proxy::tools::ScannedCall;
use fabrix_proxy::proxy::turn::{Emit, Piece, ToolStats, Turn};
use fabrix_proxy::proxy::validate::Plan;

fn stats(calls: u32, in_reasoning: u32, rejected: u32) -> ToolStats {
    ToolStats { calls, in_reasoning, rejected, ..ToolStats::default() }
}

#[test]
fn tool_meta_stays_silent_for_ordinary_chats() {
    assert_eq!(tool_meta(0, false, false, &stats(0, 0, 0)), None);
    assert_eq!(tool_meta(0, true, false, &stats(0, 0, 0)), None);
}

#[test]
fn tool_meta_separates_dropped_from_unused() {
    assert_eq!(
        tool_meta(12, false, false, &stats(0, 0, 0)).unwrap(),
        "도구 12개 선언 · 에뮬레이션 꺼짐 — 무시함"
    );
    assert_eq!(
        tool_meta(12, true, false, &stats(0, 0, 0)).unwrap(),
        "도구 12개 선언 · 호출 0건 — 모델이 규약을 따르지 않음"
    );
    assert_eq!(
        tool_meta(12, true, false, &stats(2, 0, 0)).unwrap(),
        "도구 12개 선언 · 호출 2건"
    );
}

#[test]
fn tool_meta_names_who_turned_tools_off() {
    assert_eq!(
        tool_meta(4, false, true, &stats(0, 0, 0)).unwrap(),
        "도구 4개 선언 · 클라이언트가 tool_choice: none 으로 껐음"
    );
}

#[test]
fn tool_meta_reports_rejected_blocks() {
    let line = tool_meta(3, true, false, &stats(1, 0, 2)).unwrap();
    assert!(line.contains("호출 1건"), "{line}");
    assert!(line.contains("형식 오류 2건"), "{line}");
}

#[test]
fn tool_meta_names_the_reasoning_channel() {
    let line = tool_meta(3, true, false, &stats(3, 2, 0)).unwrap();
    assert!(line.contains("호출 3건"), "{line}");
    assert!(line.contains("그중 2건은 추론 채널에서"), "{line}");
    let quiet = tool_meta(3, true, false, &stats(3, 0, 0)).unwrap();
    assert!(!quiet.contains("추론"), "{quiet}");
}

fn ctx_with(plan: Plan, model_defaulted: bool) -> Ctx {
    Ctx {
        stream: false,
        client: None,
        model_requested: None,
        model_alias: None,
        model_id: None,
        model_label: None,
        req_openai: String::new(),
        req_fabrix: String::new(),
        req_fabrix_headers: String::new(),
        fabrix_url: String::new(),
        tools_declared: 0,
        tools_emulated: false,
        tools_choice_none: false,
        plan,
        model_defaulted,
        temperature_requested: None,
        prompt_text: String::new(),
        raw_upstream: RawBuf::new(false),
        raw_client: RawBuf::new(false),
    }
}

#[test]
fn plan_meta_is_silent_for_a_plain_request() {
    assert!(plan_meta(&ctx_with(Plan::default(), false)).is_empty());
}

#[test]
fn plan_meta_names_what_was_not_honored() {
    let plan = Plan {
        include_usage: false,
        images_dropped: 2,
        ignored: vec!["stop", "presence_penalty"],
        unknown: vec!["래빗홀".into()],
    };
    let lines = plan_meta(&ctx_with(plan, true));
    assert_eq!(lines.len(), 4);
    assert_eq!(lines[0], "model 미지정 → 기본 모델");
    assert_eq!(lines[1], "무시된 파라미터: stop · presence_penalty");
    assert!(lines[2].contains("이미지 파트 2개"), "{}", lines[2]);
    assert!(lines[3].contains("래빗홀"), "{}", lines[3]);
}

#[test]
fn log_body_labels_both_channels_only_when_reasoning_exists() {
    let mut plain = Turn::new(Vec::new(), true);
    plain.push(StreamEvent::Delta("답변만".into()));
    plain.finish();
    assert_eq!(log_body(&plain), "답변만", "추론이 없으면 머리말을 붙이지 않습니다");

    let mut both = Turn::new(Vec::new(), true);
    both.push(StreamEvent::Reasoning(
        "<tool_call>{\"name\":\"read\"}</tool_call>".into(),
    ));
    both.push(StreamEvent::Delta("답변".into()));
    both.finish();
    let body = log_body(&both);
    assert!(body.starts_with("[추론]\n"), "{body}");
    assert!(body.contains("[답변]\n답변"), "{body}");
    assert!(body.contains("<tool_call>"), "{body}");
}

#[test]
fn reasoning_meta_is_silent_without_reasoning() {
    let mut t = Turn::new(Vec::new(), true);
    t.push(StreamEvent::Delta("답변".into()));
    t.finish();
    assert_eq!(reasoning_meta(&t), None);
}

#[test]
fn reasoning_meta_reports_think_splitting() {
    let mut t = Turn::new(Vec::new(), true);
    t.push(StreamEvent::Delta("<think>가나다</think>답".into()));
    t.finish();
    let line = reasoning_meta(&t).unwrap();
    assert!(line.contains("추론 3자"), "{line}");
    assert!(line.contains("<think> 1개 분리"), "{line}");

    let mut unclosed = Turn::new(Vec::new(), true);
    unclosed.push(StreamEvent::Delta("<think>끊김".into()));
    unclosed.finish();
    assert!(reasoning_meta(&unclosed).unwrap().contains("닫히지 않음"), );
}

fn emit(pieces: Vec<Piece>, sent_role: &mut bool) -> Vec<ChatChunk> {
    emit_chunks("chatcmpl-x", 1, "fabrix-chat-4", Emit(pieces), sent_role)
}

fn delta(chunk: &ChatChunk) -> &Delta {
    &chunk.choices[0].delta
}

fn call(index: u32, name: &str, arguments: &str) -> ScannedCall {
    ScannedCall {
        index,
        id: format!("call_{name}"),
        name: name.into(),
        arguments: arguments.into(),
    }
}

#[test]
fn text_chunk_carries_the_role_only_once() {
    let mut sent_role = false;
    let a = emit(vec![Piece::Content("안".into())], &mut sent_role);
    let b = emit(vec![Piece::Content("녕".into())], &mut sent_role);
    assert_eq!(delta(&a[0]).role, Some("assistant"));
    assert_eq!(delta(&a[0]).content.as_deref(), Some("안"));
    assert!(delta(&b[0]).role.is_none());
    assert_eq!(delta(&b[0]).content.as_deref(), Some("녕"));
}

#[test]
fn tool_call_chunk_is_self_contained() {
    let mut sent_role = true;
    let chunks = emit(
        vec![Piece::Call(call(0, "write", r#"{"filePath":"a.html"}"#))],
        &mut sent_role,
    );
    assert_eq!(chunks.len(), 1);
    let tc = &delta(&chunks[0]).tool_calls.as_ref().unwrap()[0];
    assert_eq!(tc.index, 0);
    assert_eq!(tc.id.as_deref(), Some("call_write"));
    assert_eq!(tc.kind, Some("function"));
    let function = tc.function.as_ref().unwrap();
    assert_eq!(function.name.as_deref(), Some("write"));
    assert_eq!(function.arguments.as_deref(), Some(r#"{"filePath":"a.html"}"#));
    assert!(delta(&chunks[0]).content.is_none());
    assert_eq!(chunks[0].object, "chat.completion.chunk");
}

#[test]
fn reasoning_piece_becomes_a_reasoning_content_delta() {
    let mut sent_role = true;
    let chunks = emit(vec![Piece::Reasoning("생각".into())], &mut sent_role);
    assert_eq!(chunks.len(), 1);
    assert_eq!(delta(&chunks[0]).reasoning_content.as_deref(), Some("생각"));
    assert!(delta(&chunks[0]).content.is_none());
    assert!(delta(&chunks[0]).tool_calls.is_none());
}

#[test]
fn pieces_keep_their_order_within_one_emit() {
    let mut sent_role = false;
    let chunks = emit(
        vec![
            Piece::Content("만들겠습니다.".into()),
            Piece::Call(call(0, "write", "{}")),
            Piece::Call(call(1, "read", "{}")),
        ],
        &mut sent_role,
    );
    assert_eq!(chunks.len(), 3);
    assert_eq!(delta(&chunks[0]).content.as_deref(), Some("만들겠습니다."));
    assert_eq!(delta(&chunks[1]).tool_calls.as_ref().unwrap()[0].index, 0);
    assert_eq!(delta(&chunks[2]).tool_calls.as_ref().unwrap()[0].index, 1);
    assert_eq!(delta(&chunks[0]).role, Some("assistant"));
    assert!(delta(&chunks[1]).role.is_none());
}

#[test]
fn empty_emit_produces_nothing() {
    let mut sent_role = false;
    assert!(emit(Vec::new(), &mut sent_role).is_empty());
    assert!(!sent_role, "빈 출력이 role 을 소비하면 안 됩니다");
}
