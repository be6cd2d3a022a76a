//! A turn: answer, reasoning, tool calls and the reason to end.

use fabrix_proxy::proxy::decode::StreamEvent;
use fabrix_proxy::proxy::tools::ScannedCall;
use fabrix_proxy::proxy::turn::{Piece, Turn};

fn names() -> Vec<String> {
    ["read", "write"].iter().map(|s| s.to_string()).collect()
}

fn turn() -> Turn {
    Turn::new(names(), true)
}

fn drive(t: &mut Turn, events: Vec<StreamEvent>) -> Vec<Piece> {
    let mut pieces = Vec::new();
    for ev in events {
        pieces.extend(t.push(ev).0);
    }
    pieces.extend(t.finish().0);
    pieces
}

fn call_of(pieces: &[Piece]) -> Vec<&ScannedCall> {
    pieces
        .iter()
        .filter_map(|p| match p {
            Piece::Call(c) => Some(c),
            _ => None,
        })
        .collect()
}

#[test]
fn reasoning_only_tool_call_finishes_as_tool_calls() {
    let mut t = turn();
    let pieces = drive(
        &mut t,
        vec![
            StreamEvent::Reasoning(
                "먼저 읽자.<tool_call>{\"name\":\"read\",\"arguments\":{\"filePath\":\"a.css\"}}</tool_call>"
                    .into(),
            ),
            StreamEvent::Finish("stop".into()),
        ],
    );
    assert_eq!(t.finish_reason(), "tool_calls");
    let calls = call_of(&pieces);
    assert_eq!(calls.len(), 1);
    assert_eq!(calls[0].name, "read");
    assert_eq!(calls[0].index, 0);
    assert_eq!(t.reasoning(), "먼저 읽자.");
    assert!(!t.reasoning().contains("tool_call"));
    assert!(t.raw_reasoning().contains("<tool_call>"));
    assert_eq!(t.tool_stats().in_reasoning, 1);
}

#[test]
fn think_wrapped_tool_call_in_content_finishes_as_tool_calls() {
    let mut t = turn();
    let pieces = drive(
        &mut t,
        vec![StreamEvent::Delta(
            "<think>써야겠다<tool_call>{\"name\":\"write\",\"arguments\":{}}</tool_call></think>만들었습니다."
                .into(),
        )],
    );
    assert_eq!(t.finish_reason(), "tool_calls");
    assert_eq!(call_of(&pieces).len(), 1);
    assert_eq!(t.content(), "만들었습니다.");
    assert_eq!(t.reasoning(), "써야겠다");
    let stats = t.tool_stats();
    assert_eq!(stats.think_blocks, 1);
    assert!(!stats.think_unclosed);
    assert_eq!(stats.in_reasoning, 1);
}

#[test]
fn reasoning_frames_split_at_every_boundary_yield_one_call() {
    let s = "생각<tool_call>{\"name\":\"read\",\"arguments\":{\"p\":\"한글\"}}</tool_call>끝";
    for cut in 1..s.len() {
        if !s.is_char_boundary(cut) {
            continue;
        }
        let mut t = turn();
        let pieces = drive(
            &mut t,
            vec![
                StreamEvent::Reasoning(s[..cut].to_string()),
                StreamEvent::Reasoning(s[cut..].to_string()),
            ],
        );
        assert_eq!(call_of(&pieces).len(), 1, "cut at {cut}");
        assert_eq!(t.reasoning(), "생각끝", "cut at {cut}");
        assert_eq!(t.finish_reason(), "tool_calls", "cut at {cut}");
    }
}

#[test]
fn no_text_is_emitted_on_two_channels() {
    let mut t = turn();
    let pieces = drive(
        &mut t,
        vec![
            StreamEvent::Delta("앞<think>생각</think>뒤".into()),
            StreamEvent::Reasoning("별도 추론".into()),
        ],
    );
    let content: String = pieces
        .iter()
        .filter_map(|p| match p {
            Piece::Content(s) => Some(s.as_str()),
            _ => None,
        })
        .collect();
    let reasoning: String = pieces
        .iter()
        .filter_map(|p| match p {
            Piece::Reasoning(s) => Some(s.as_str()),
            _ => None,
        })
        .collect();
    assert_eq!(content, "앞뒤");
    assert_eq!(reasoning, "생각별도 추론");
    assert!(!reasoning.contains("앞"));
    assert!(!content.contains("생각"));
    assert_eq!(t.content(), content);
    assert_eq!(t.reasoning(), reasoning);
}

#[test]
fn reasoning_prose_still_reaches_the_client() {
    let mut t = turn();
    let pieces = drive(&mut t, vec![StreamEvent::Reasoning("이렇게 해 보자.".into())]);
    assert_eq!(pieces, vec![Piece::Reasoning("이렇게 해 보자.".into())]);
    assert_eq!(t.finish_reason(), "stop");
    assert_eq!(t.reasoning_field().as_deref(), Some("이렇게 해 보자."));
}

#[test]
fn midstream_failure_keeps_tool_calls() {
    let mut t = turn();
    drive(
        &mut t,
        vec![
            StreamEvent::Delta("<tool_call>{\"name\":\"read\",\"arguments\":{}}</tool_call>".into()),
            StreamEvent::Error("사내 처리 중 오류".into()),
        ],
    );
    assert_eq!(t.finish_reason(), "tool_calls");
    assert_eq!(t.failure(), Some("사내 처리 중 오류"));
}

#[test]
fn midstream_failure_without_calls_is_length() {
    let mut t = turn();
    drive(
        &mut t,
        vec![
            StreamEvent::Delta("답변 중".into()),
            StreamEvent::Error("끊김".into()),
        ],
    );
    assert_eq!(t.finish_reason(), "length");
}

#[test]
fn truncation_becomes_length_when_no_call_was_made() {
    let mut t = turn();
    drive(&mut t, vec![StreamEvent::Delta("잘린 답".into()), StreamEvent::Finish("stop".into())]);
    t.mark_truncated();
    assert_eq!(t.finish_reason(), "length");
}

#[test]
fn reset_drops_content_but_keeps_reasoning_and_call_indices() {
    let mut t = turn();
    t.push(StreamEvent::Reasoning("추론은 남아야".into()));
    t.push(StreamEvent::Delta(
        "<tool_call>{\"name\":\"read\",\"arguments\":{}}</tool_call>버릴 본문".into(),
    ));
    t.push(StreamEvent::Reset);
    let pieces = drive(
        &mut t,
        vec![StreamEvent::Delta(
            "<tool_call>{\"name\":\"write\",\"arguments\":{}}</tool_call>새 본문".into(),
        )],
    );
    assert_eq!(t.content(), "새 본문", "재작성된 본문이 남았습니다");
    assert_eq!(t.reasoning(), "추론은 남아야");
    assert_eq!(call_of(&pieces)[0].index, 1);
}

#[test]
fn unterminated_call_becomes_text_at_finish_not_a_call() {
    let mut t = turn();
    let pieces = drive(&mut t, vec![StreamEvent::Delta("<tool_call>{\"name\":\"wr".into())]);
    assert!(call_of(&pieces).is_empty());
    assert!(t.content().contains("\"wr"), "미완성 블록이 사라졌습니다: {}", t.content());
    assert_eq!(t.finish_reason(), "stop");
    assert_eq!(t.tool_stats().rejected, 1);
}

#[test]
fn unclosed_think_is_reported() {
    let mut t = turn();
    drive(&mut t, vec![StreamEvent::Delta("답 <think>끝나지 않은".into())]);
    assert_eq!(t.content(), "답 ");
    assert_eq!(t.reasoning(), "끝나지 않은");
    assert!(t.tool_stats().think_unclosed);
}

#[test]
fn without_the_splitter_think_tags_stay_in_content() {
    let mut t = Turn::new(names(), false);
    drive(&mut t, vec![StreamEvent::Delta("<think>생각</think>답".into())]);
    assert_eq!(t.content(), "<think>생각</think>답");
    assert_eq!(t.reasoning(), "");
    assert_eq!(t.tool_stats().think_blocks, 0);
}

#[test]
fn without_tool_names_everything_is_text() {
    let mut t = Turn::new(Vec::new(), true);
    let body = "<tool_call>{\"name\":\"read\",\"arguments\":{}}</tool_call>";
    drive(&mut t, vec![StreamEvent::Delta(body.into())]);
    assert_eq!(t.content(), body);
    assert!(!t.saw_call());
    assert_eq!(t.finish_reason(), "stop");
}

#[test]
fn completion_text_includes_reasoning_and_call_arguments() {
    let mut t = turn();
    drive(
        &mut t,
        vec![
            StreamEvent::Reasoning("생각한다".into()),
            StreamEvent::Delta(
                "만들겠습니다.<tool_call>{\"name\":\"write\",\"arguments\":{\"filePath\":\"index.html\"}}</tool_call>"
                    .into(),
            ),
        ],
    );
    let text = t.completion_text();
    assert!(text.contains("만들겠습니다."), "{text}");
    assert!(text.contains("생각한다"), "{text}");
    assert!(text.contains("write"), "{text}");
    assert!(text.contains("index.html"), "{text}");
}

#[test]
fn assistant_content_is_null_only_for_tool_only_turns() {
    let mut only_call = turn();
    drive(
        &mut only_call,
        vec![StreamEvent::Delta("<tool_call>{\"name\":\"read\",\"arguments\":{}}</tool_call>".into())],
    );
    assert_eq!(only_call.assistant_content(), None);

    let mut with_prose = turn();
    drive(
        &mut with_prose,
        vec![StreamEvent::Delta(
            "만들겠습니다.<tool_call>{\"name\":\"read\",\"arguments\":{}}</tool_call>".into(),
        )],
    );
    assert_eq!(with_prose.assistant_content().as_deref(), Some("만들겠습니다."));

    let mut empty = turn();
    drive(&mut empty, vec![StreamEvent::Finish("stop".into())]);
    assert_eq!(empty.assistant_content().as_deref(), Some(""));
}

#[test]
fn is_empty_only_when_no_channel_produced_anything() {
    let mut nothing = turn();
    drive(&mut nothing, vec![StreamEvent::Finish("stop".into())]);
    assert!(nothing.is_empty());

    let mut reasoning_only = turn();
    drive(&mut reasoning_only, vec![StreamEvent::Reasoning("생각".into())]);
    assert!(!reasoning_only.is_empty());

    let mut call_only = turn();
    drive(
        &mut call_only,
        vec![StreamEvent::Delta("<tool_call>{\"name\":\"read\",\"arguments\":{}}</tool_call>".into())],
    );
    assert!(!call_only.is_empty(), "도구 호출만 있는 턴은 빈 응답이 아닙니다");
}

#[test]
fn done_and_upstream_finish_are_recorded() {
    let mut t = turn();
    drive(&mut t, vec![StreamEvent::Finish("weird".into()), StreamEvent::Done]);
    assert!(t.done());
    assert_eq!(t.upstream_finish(), Some("weird"));
    assert_eq!(t.finish_reason(), "stop");
}

#[test]
fn the_calls_that_are_sent_are_the_calls_that_are_kept() {
    let mut t = turn();
    let block = "<tool_call>{\"name\":\"read\",\"arguments\":{\"a\":1.5}}</tool_call>";
    let pieces = drive(
        &mut t,
        vec![
            StreamEvent::Reasoning(format!("{block}<tool_call>{{\"name\":\"rm\"}}</tool_call>")),
            StreamEvent::Reset,
            StreamEvent::Delta(block.into()),
        ],
    );
    let sent: Vec<ScannedCall> = call_of(&pieces).into_iter().cloned().collect();
    assert_eq!(sent, t.calls());
    assert_eq!(sent.len(), 2);
    for (i, call) in sent.iter().enumerate() {
        assert_eq!(call.index as usize, i);
        assert!(call.id.starts_with("call_") && call.id.len() == 29, "{}", call.id);
        assert_eq!(call.name, "read");
        assert_eq!(call.arguments, "{\"a\":1.5}");
    }
    assert_ne!(sent[0].id, sent[1].id);
    assert!(t.saw_call());
}
