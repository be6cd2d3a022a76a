//! Tool calls: finding them in an answer, and teaching the model to write them.

use fabrix_proxy::json::{Json, RESERVED};
use fabrix_proxy::openai::{FunctionDef, ToolCall, ToolCallFunction, ToolChoiceMode};
use fabrix_proxy::proxy::scan::{CLOSE, OPEN};
use fabrix_proxy::proxy::tools::{
    partial_tag_len, render_history_call, render_system_block, Channel, ScanOut, ThinkSplitter,
    ToolCallScanner,
};

fn names() -> Vec<String> {
    ["read", "write"].iter().map(|s| s.to_string()).collect()
}

fn scanner() -> ToolCallScanner {
    ToolCallScanner::new(names(), true)
}

fn absorb(out: &mut ScanOut, other: ScanOut) {
    out.text.push_str(&other.text);
    out.calls.extend(other.calls);
}

fn scan_all(sc: &mut ToolCallScanner, s: &str) -> ScanOut {
    let mut out = sc.push(s);
    absorb(&mut out, sc.finish());
    out
}

#[test]
fn plain_text_passes_through_unchanged() {
    let out = scan_all(&mut scanner(), "안녕하세요. 그냥 답변입니다.");
    assert_eq!(out.text, "안녕하세요. 그냥 답변입니다.");
    assert!(out.calls.is_empty());
}

#[test]
fn single_call_is_extracted_and_stripped_from_text() {
    let out = scan_all(
        &mut scanner(),
        "만들겠습니다.\n<tool_call>\n{\"name\":\"write\",\"arguments\":{\"filePath\":\"a.html\"}}\n</tool_call>",
    );
    assert_eq!(out.calls.len(), 1);
    assert_eq!(out.calls[0].name, "write");
    assert_eq!(out.calls[0].index, 0);
    assert_eq!(out.calls[0].arguments, r#"{"filePath":"a.html"}"#);
    assert!(out.calls[0].id.starts_with("call_"));
    assert!(!out.text.contains("tool_call"), "센티널이 텍스트에 남았습니다: {}", out.text);
    assert!(out.text.contains("만들겠습니다."));
}

#[test]
fn partial_sentinel_is_held_back_then_released_at_finish() {
    let mut sc = scanner();
    let a = sc.push("hi <t");
    assert_eq!(a.text, "hi ", "부분 접두는 보류되어야 합니다");
    let b = sc.finish();
    assert_eq!(b.text, "<t", "보류분은 종료 시 반드시 흘러나와야 합니다");
}

#[test]
fn partial_sentinel_completed_by_the_next_frame() {
    let mut sc = scanner();
    let a = sc.push("hi <t");
    let b = sc.push("ool_call>{\"name\":\"read\",\"arguments\":{}}</tool_call>");
    let c = sc.finish();
    assert_eq!(a.text, "hi ");
    assert_eq!(b.text, "");
    assert_eq!(c.text, "");
    assert_eq!(b.calls.len(), 1);
    assert_eq!(b.calls[0].name, "read");
}

#[test]
fn ordinary_angle_bracket_text_is_not_held_forever() {
    let out = scan_all(&mut scanner(), "a < b and c <tool d");
    assert_eq!(out.text, "a < b and c <tool d");
    assert!(out.calls.is_empty());
}

#[test]
fn split_at_every_char_boundary_is_stable() {
    let s = "앞 텍스트 <tool_call>{\"name\":\"write\",\"arguments\":{\"p\":\"한글 값\"}}</tool_call> 뒤 텍스트";
    let expect = scan_all(&mut scanner(), s);
    assert_eq!(expect.calls.len(), 1);

    for cut in 1..s.len() {
        if !s.is_char_boundary(cut) {
            continue;
        }
        let mut sc = scanner();
        let mut got = sc.push(&s[..cut]);
        absorb(&mut got, sc.push(&s[cut..]));
        absorb(&mut got, sc.finish());
        assert_eq!(got.text, expect.text, "cut at {cut}");
        assert_eq!(got.calls.len(), expect.calls.len(), "cut at {cut}");
        assert_eq!(got.calls[0].name, expect.calls[0].name, "cut at {cut}");
        assert_eq!(got.calls[0].arguments, expect.calls[0].arguments, "cut at {cut}");
        assert_eq!(got.calls[0].index, 0, "cut at {cut}");
    }
}

#[test]
fn one_byte_at_a_time_is_stable() {
    let s = "x<tool_call>{\"name\":\"read\",\"arguments\":{\"filePath\":\"한.css\"}}</tool_call>y";
    let expect = scan_all(&mut scanner(), s);

    let mut sc = scanner();
    let mut got = ScanOut::default();
    let mut start = 0;
    for (i, _) in s.char_indices().skip(1) {
        absorb(&mut got, sc.push(&s[start..i]));
        start = i;
    }
    absorb(&mut got, sc.push(&s[start..]));
    absorb(&mut got, sc.finish());

    assert_eq!(got.text, expect.text);
    assert_eq!(got.calls.len(), 1);
    assert_eq!(got.calls[0].arguments, expect.calls[0].arguments);
}

#[test]
fn parallel_blocks_get_sequential_indices() {
    let out = scan_all(
        &mut scanner(),
        "<tool_call>{\"name\":\"write\",\"arguments\":{\"a\":1}}</tool_call>\
         <tool_call>{\"name\":\"read\",\"arguments\":{\"b\":2}}</tool_call>",
    );
    assert_eq!(out.calls.len(), 2);
    assert_eq!(out.calls[0].index, 0);
    assert_eq!(out.calls[1].index, 1);
    assert_eq!(out.calls[1].name, "read");
    assert_ne!(out.calls[0].id, out.calls[1].id);
}

#[test]
fn json_array_inside_one_block_yields_two_calls() {
    let out = scan_all(
        &mut scanner(),
        "<tool_call>[{\"name\":\"read\",\"arguments\":{}},{\"name\":\"write\",\"arguments\":{}}]</tool_call>",
    );
    assert_eq!(out.calls.len(), 2);
    assert_eq!(out.calls[0].index, 0);
    assert_eq!(out.calls[1].index, 1);
}

#[test]
fn unknown_tool_name_falls_back_to_literal_text() {
    let out = scan_all(
        &mut scanner(),
        "<tool_call>{\"name\":\"rm -rf /\",\"arguments\":{}}</tool_call>",
    );
    assert!(out.calls.is_empty());
    assert!(out.text.contains("rm -rf /"));
    assert!(out.text.starts_with(OPEN));
    assert!(out.text.ends_with(CLOSE));
}

#[test]
fn malformed_json_falls_back_to_literal_text() {
    let out = scan_all(&mut scanner(), "<tool_call>{\"name\":\"write\", oops}</tool_call>");
    assert!(out.calls.is_empty());
    assert!(out.text.contains("oops"));
}

#[test]
fn non_json_arguments_string_is_rejected() {
    let out = scan_all(
        &mut scanner(),
        "<tool_call>{\"name\":\"write\",\"arguments\":\"just prose\"}</tool_call>",
    );
    assert!(out.calls.is_empty());
    assert!(out.text.contains("just prose"));
}

#[test]
fn double_encoded_arguments_are_accepted() {
    let out = scan_all(
        &mut scanner(),
        "<tool_call>{\"name\":\"write\",\"arguments\":\"{\\\"a\\\":1}\"}</tool_call>",
    );
    assert_eq!(out.calls.len(), 1);
    assert_eq!(out.calls[0].arguments, r#"{"a":1}"#);
}

#[test]
fn missing_arguments_becomes_empty_object() {
    let out = scan_all(&mut scanner(), "<tool_call>{\"name\":\"read\"}</tool_call>");
    assert_eq!(out.calls.len(), 1);
    assert_eq!(out.calls[0].arguments, "{}");
}

#[test]
fn text_before_and_after_a_call_is_forwarded() {
    let out = scan_all(
        &mut scanner(),
        "먼저 읽습니다.<tool_call>{\"name\":\"read\",\"arguments\":{}}</tool_call>그리고 설명을 잇습니다.",
    );
    assert_eq!(out.calls.len(), 1);
    assert_eq!(out.text, "먼저 읽습니다.그리고 설명을 잇습니다.");
}

#[test]
fn unterminated_block_flushes_as_text_on_finish() {
    let mut sc = scanner();
    let a = sc.push("<tool_call>{\"name\":\"write\",\"argu");
    let b = sc.finish();
    assert!(a.text.is_empty());
    assert!(b.calls.is_empty());
    assert!(b.text.contains("\"argu"), "미완성 블록이 사라졌습니다: {:?}", b.text);
    assert!(b.text.starts_with(OPEN));
    assert_eq!(sc.rejected, 1);
}

#[test]
fn html_sized_arguments_survive() {
    let big = "x".repeat(300_000);
    let payload = format!(
        r#"{{"arguments":{{"content":"{big}","filePath":"index.html"}},"name":"write"}}"#
    );
    let out = scan_all(&mut scanner(), &format!("{OPEN}{payload}{CLOSE}"));
    assert_eq!(out.calls.len(), 1, "300KB 인자가 거절됐습니다");
    assert!(out.calls[0].arguments.len() > 300_000);
    assert!(out.text.is_empty());
}

#[test]
fn scanner_without_names_is_a_passthrough() {
    let mut sc = ToolCallScanner::new(Vec::new(), true);
    let body = "<tool_call>{\"name\":\"write\",\"arguments\":{}}</tool_call>";
    assert_eq!(sc.push(body).text, body);
    assert_eq!(sc.push_on(Channel::Reasoning, body).text, body);
    assert!(!sc.saw_call());
    assert_eq!(sc.finish(), ScanOut::default());
    assert_eq!(sc.finish_on(Channel::Reasoning), ScanOut::default());
}

#[test]
fn tool_call_only_in_reasoning_is_extracted() {
    let mut sc = scanner();
    let out = sc.push_on(
        Channel::Reasoning,
        "생각 중.<tool_call>{\"name\":\"read\",\"arguments\":{\"filePath\":\"a.css\"}}</tool_call>",
    );
    assert_eq!(out.calls.len(), 1);
    assert_eq!(out.calls[0].name, "read");
    assert_eq!(out.text, "생각 중.");
    assert!(sc.saw_call());
}

#[test]
fn channels_share_one_call_index_space() {
    let mut sc = scanner();
    let a = sc.push("<tool_call>{\"name\":\"write\",\"arguments\":{}}</tool_call>");
    let b = sc.push_on(
        Channel::Reasoning,
        "<tool_call>{\"name\":\"read\",\"arguments\":{}}</tool_call>",
    );
    assert_eq!(a.calls[0].index, 0);
    assert_eq!(b.calls[0].index, 1);
    assert_ne!(a.calls[0].id, b.calls[0].id);
    assert_eq!(sc.call_count(), 2);
}

#[test]
fn channels_do_not_leak_each_others_buffers() {
    let mut sc = scanner();
    assert_eq!(sc.push("hi <t").text, "hi ");
    assert_eq!(sc.push_on(Channel::Reasoning, "생각").text, "생각");
    assert_eq!(sc.finish_on(Channel::Reasoning).text, "");
    assert_eq!(sc.finish().text, "<t");
}

#[test]
fn reasoning_prose_passes_through_untouched() {
    let mut sc = scanner();
    let out = sc.push_on(Channel::Reasoning, "이 파일을 먼저 읽어야겠다. a < b 인지 확인.");
    assert_eq!(out.text, "이 파일을 먼저 읽어야겠다. a < b 인지 확인.");
    assert!(out.calls.is_empty());
    assert!(!sc.saw_call());
}

#[test]
fn rejected_block_on_the_reasoning_channel_returns_as_reasoning_text() {
    let mut sc = scanner();
    let mut out = sc.push_on(
        Channel::Reasoning,
        "<tool_call>{\"name\":\"definitely_not_a_tool\",\"arguments\":{}}</tool_call>",
    );
    absorb(&mut out, sc.finish_on(Channel::Reasoning));
    assert!(out.calls.is_empty());
    assert!(out.text.contains("definitely_not_a_tool"));
    assert_eq!(sc.rejected, 1);
}

#[test]
fn split_at_every_char_boundary_is_stable_on_the_reasoning_channel() {
    let s = "앞 <tool_call>{\"name\":\"write\",\"arguments\":{\"p\":\"한글\"}}</tool_call> 뒤";
    for cut in 1..s.len() {
        if !s.is_char_boundary(cut) {
            continue;
        }
        let mut sc = scanner();
        let mut got = sc.push_on(Channel::Reasoning, &s[..cut]);
        absorb(&mut got, sc.push_on(Channel::Reasoning, &s[cut..]));
        absorb(&mut got, sc.finish_on(Channel::Reasoning));
        assert_eq!(got.text, "앞  뒤", "cut at {cut}");
        assert_eq!(got.calls.len(), 1, "cut at {cut}");
        assert_eq!(got.calls[0].name, "write", "cut at {cut}");
        assert_eq!(got.calls[0].index, 0, "cut at {cut}");
    }
}

#[test]
fn reset_spares_the_reasoning_channel() {
    let mut sc = scanner();
    sc.push_on(Channel::Reasoning, "<tool_call>{\"name\":\"read\",\"argu");
    sc.push("본문 <tool_call>{\"name\":\"wr");
    sc.reset();
    let out = sc.push_on(Channel::Reasoning, "ments\":{}}</tool_call>");
    assert_eq!(out.calls.len(), 1, "리셋이 추론 버퍼를 지웠습니다");
    assert_eq!(out.calls[0].name, "read");
    assert!(!sc.finish().text.contains("wr"));
}

#[test]
fn reset_clears_the_buffer_but_keeps_the_index() {
    let mut sc = scanner();
    let first = sc.push("<tool_call>{\"name\":\"read\",\"arguments\":{}}</tool_call>tail");
    assert_eq!(first.calls[0].index, 0);
    sc.push("<tool_call>{\"name\":\"wr");
    sc.reset();
    let after = scan_all(&mut sc, "<tool_call>{\"name\":\"write\",\"arguments\":{}}</tool_call>");
    assert_eq!(after.calls.len(), 1);
    assert_eq!(after.calls[0].index, 1);
    assert!(!after.text.contains("wr"), "리셋된 버퍼가 새어 나왔습니다");
}

#[test]
fn chunked_and_whole_input_agree() {
    let s = "a<tool_call>{\"name\":\"read\",\"arguments\":{\"p\":1}}</tool_call>b";
    let whole = scan_all(&mut scanner(), s);

    let mut sc = scanner();
    let mut chunked = ScanOut::default();
    for ch in s.chars() {
        absorb(&mut chunked, sc.push(&ch.to_string()));
    }
    absorb(&mut chunked, sc.finish());

    assert_eq!(whole.text, chunked.text);
    assert_eq!(whole.calls.len(), chunked.calls.len());
    assert_eq!(whole.calls[0].name, chunked.calls[0].name);
    assert_eq!(whole.calls[0].arguments, chunked.calls[0].arguments);
}

fn split_all(sp: &mut ThinkSplitter, s: &str) -> Vec<(Channel, String)> {
    let mut parts = sp.push(s).parts;
    parts.extend(sp.finish().parts);
    parts
}

fn joined(parts: &[(Channel, String)], want: Channel) -> String {
    parts
        .iter()
        .filter(|(ch, _)| *ch == want)
        .map(|(_, t)| t.as_str())
        .collect()
}

#[test]
fn plain_content_is_untouched_by_the_splitter() {
    let parts = split_all(&mut ThinkSplitter::new(), "그냥 답변입니다. a < b.");
    assert_eq!(joined(&parts, Channel::Content), "그냥 답변입니다. a < b.");
    assert_eq!(joined(&parts, Channel::Reasoning), "");
}

#[test]
fn think_block_moves_to_the_reasoning_channel() {
    let parts = split_all(
        &mut ThinkSplitter::new(),
        "<think>먼저 읽어야겠다</think>읽어 보겠습니다.",
    );
    assert_eq!(joined(&parts, Channel::Reasoning), "먼저 읽어야겠다");
    assert_eq!(joined(&parts, Channel::Content), "읽어 보겠습니다.");
}

#[test]
fn thinking_variant_is_recognized() {
    let parts = split_all(&mut ThinkSplitter::new(), "<thinking>고민</thinking>답");
    assert_eq!(joined(&parts, Channel::Reasoning), "고민");
    assert_eq!(joined(&parts, Channel::Content), "답");
}

#[test]
fn order_is_preserved_when_content_precedes_think() {
    let parts = split_all(&mut ThinkSplitter::new(), "앞<think>중</think>뒤");
    assert_eq!(
        parts,
        vec![
            (Channel::Content, "앞".to_string()),
            (Channel::Reasoning, "중".to_string()),
            (Channel::Content, "뒤".to_string()),
        ]
    );
}

#[test]
fn think_split_at_every_char_boundary_is_stable() {
    let s = "앞<think>한글 생각</think>뒤 텍스트";
    for cut in 1..s.len() {
        if !s.is_char_boundary(cut) {
            continue;
        }
        let mut sp = ThinkSplitter::new();
        let mut parts = sp.push(&s[..cut]).parts;
        parts.extend(sp.push(&s[cut..]).parts);
        parts.extend(sp.finish().parts);
        assert_eq!(joined(&parts, Channel::Reasoning), "한글 생각", "cut at {cut}");
        assert_eq!(joined(&parts, Channel::Content), "앞뒤 텍스트", "cut at {cut}");
        assert!(!sp.unclosed(), "cut at {cut}");
        assert_eq!(sp.blocks(), 1, "cut at {cut}");
    }
}

#[test]
fn reasoning_streams_out_without_waiting_for_the_close_tag() {
    let mut sp = ThinkSplitter::new();
    assert_eq!(joined(&sp.push("<think>생각을 ").parts, Channel::Reasoning), "생각을 ");
    assert_eq!(joined(&sp.push("이어서 합니다").parts, Channel::Reasoning), "이어서 합니다");
}

#[test]
fn unterminated_think_flushes_as_reasoning_at_eof() {
    let mut sp = ThinkSplitter::new();
    let parts = split_all(&mut sp, "답변 <think>끝나지 않은 생각");
    assert_eq!(joined(&parts, Channel::Content), "답변 ");
    assert_eq!(joined(&parts, Channel::Reasoning), "끝나지 않은 생각");
    assert!(sp.unclosed());
}

#[test]
fn partial_think_prefix_is_released_as_content_at_eof() {
    let mut sp = ThinkSplitter::new();
    assert_eq!(joined(&sp.push("답변 <thi").parts, Channel::Content), "답변 ");
    let parts = sp.finish().parts;
    assert_eq!(joined(&parts, Channel::Content), "<thi");
    assert_eq!(joined(&parts, Channel::Reasoning), "");
}

#[test]
fn close_without_open_stays_literal_content() {
    let parts = split_all(&mut ThinkSplitter::new(), "답변</think>계속");
    assert_eq!(joined(&parts, Channel::Content), "답변</think>계속");
    assert_eq!(joined(&parts, Channel::Reasoning), "");
}

#[test]
fn two_think_blocks_are_counted() {
    let mut sp = ThinkSplitter::new();
    let parts = split_all(&mut sp, "<think>가</think>글<think>나</think>");
    assert_eq!(joined(&parts, Channel::Reasoning), "가나");
    assert_eq!(joined(&parts, Channel::Content), "글");
    assert_eq!(sp.blocks(), 2);
}

#[test]
fn tool_call_inside_a_think_block_is_found() {
    let mut sp = ThinkSplitter::new();
    let mut sc = scanner();
    let body = "<think>이걸 써야지<tool_call>{\"name\":\"read\",\"arguments\":{}}</tool_call></think>확인했습니다.";

    let mut calls = Vec::new();
    let mut content = String::new();
    let mut reasoning = String::new();
    for (ch, seg) in split_all(&mut sp, body) {
        let out = sc.push_on(ch, &seg);
        match ch {
            Channel::Content => content.push_str(&out.text),
            Channel::Reasoning => reasoning.push_str(&out.text),
        }
        calls.extend(out.calls);
    }
    content.push_str(&sc.finish_on(Channel::Content).text);
    reasoning.push_str(&sc.finish_on(Channel::Reasoning).text);

    assert_eq!(calls.len(), 1, "think 안의 호출을 놓쳤습니다");
    assert_eq!(calls[0].name, "read");
    assert_eq!(content, "확인했습니다.");
    assert_eq!(reasoning, "이걸 써야지");
}

#[test]
fn partial_tag_len_holds_only_a_real_prefix() {
    assert_eq!(partial_tag_len("hi <t", OPEN), 2);
    assert_eq!(partial_tag_len("hi <think", "<think>"), 6);
    assert_eq!(partial_tag_len("hi there", OPEN), 0);
    assert_eq!(partial_tag_len("<tool_call>", OPEN), 0);
}

fn def(name: &str) -> FunctionDef {
    FunctionDef {
        name: name.into(),
        description: Some(format!("does {name}")),
        parameters: Some(Json::parse(r#"{"type":"object"}"#).unwrap()),
        strict: None,
    }
}

#[test]
fn system_block_lists_tools_and_the_sentinel() {
    let (a, b) = (def("read"), def("write"));
    let block = render_system_block(&vec![&a, &b], &ToolChoiceMode::Auto).unwrap();
    assert!(block.contains("\"name\":\"read\""));
    assert!(block.contains("\"name\":\"write\""));
    assert!(block.contains(OPEN));
    assert!(block.contains(CLOSE));
    assert!(block.contains("If no tool is needed"));
}

#[test]
fn system_block_honors_tool_choice() {
    let a = def("write");
    assert!(render_system_block(&vec![&a], &ToolChoiceMode::Off).is_none());
    assert!(render_system_block(&vec![], &ToolChoiceMode::Auto).is_none());

    let required = render_system_block(&vec![&a], &ToolChoiceMode::Required).unwrap();
    assert!(required.contains("MUST call at least one tool"));

    let named =
        render_system_block(&vec![&a], &ToolChoiceMode::Function("write".into())).unwrap();
    assert!(named.contains("MUST call the tool `write`"));
}

#[test]
fn history_call_round_trips_through_the_scanner() {
    let call = ToolCall {
        id: "call_a1".into(),
        kind: "function".into(),
        function: ToolCallFunction {
            name: "write".into(),
            arguments: r#"{"filePath":"a.html","content":"<p>안녕</p>"}"#.into(),
        },
    };
    let rendered = render_history_call(&call);
    assert!(rendered.contains("call_a1"));

    let out = scan_all(&mut scanner(), &rendered);
    assert_eq!(out.calls.len(), 1);
    assert_eq!(out.calls[0].name, "write");
    let args: serde_json::Value = serde_json::from_str(&out.calls[0].arguments).unwrap();
    assert_eq!(args["filePath"], "a.html");
    assert_eq!(args["content"], "<p>안녕</p>");
}

#[test]
fn history_call_survives_unparsable_arguments() {
    let call = ToolCall {
        id: "c1".into(),
        kind: "function".into(),
        function: ToolCallFunction { name: "read".into(), arguments: "not json".into() },
    };
    let rendered = render_history_call(&call);
    assert!(rendered.contains("\"arguments\":{}"));
}

fn recorded(arguments: &str) -> ScanOut {
    let call = ToolCall {
        id: "c1".into(),
        kind: "function".into(),
        function: ToolCallFunction { name: "read".into(), arguments: arguments.into() },
    };
    scan_all(&mut scanner(), &render_history_call(&call))
}

#[test]
fn negative_numbers_are_read_back() {
    let out = recorded(r#"{"from":-3,"to":-9223372036854775808}"#);
    assert_eq!(out.calls.len(), 1);
    assert_eq!(out.calls[0].arguments, r#"{"from":-3,"to":-9223372036854775808}"#);
}

#[test]
fn a_record_with_the_reserved_member_goes_back_as_text() {
    let out = recorded(&format!(r#"{{"a":1,"{RESERVED}":"x"}}"#));
    assert!(out.calls.is_empty());
    assert!(out.text.starts_with(OPEN));
}

#[test]
fn numbers_run_on_over_channels_and_resets() {
    let block = "<tool_call>{\"name\":\"read\"}</tool_call>";
    let mut sc = scanner();
    let mut numbers = Vec::new();
    let mut note = |out: ScanOut| numbers.extend(out.calls.iter().map(|c| c.index));
    assert!(!sc.saw_call());
    note(sc.push_on(Channel::Reasoning, block));
    note(sc.push(block));
    sc.push("<tool_call>{\"na");
    sc.reset();
    note(sc.finish_on(Channel::Reasoning));
    note(sc.push(&format!("{block}{block}")));
    assert_eq!(numbers, vec![0, 1, 2, 3]);
    assert_eq!(sc.call_count(), 4);
    assert!(sc.saw_call());
}

/// A member that `serde_json` reads as raw JSON can bring in more levels than a text may
/// have; such arguments cannot be read again.
#[test]
fn arguments_beyond_the_readers_limits() {
    let deep = |n: usize| format!("{}{}", "[".repeat(n), "]".repeat(n));
    let scanned = |arguments: String| {
        let block = format!("{OPEN}{{\"name\":\"read\",\"arguments\":{arguments}}}{CLOSE}");
        scan_all(&mut scanner(), &block).calls.remove(0).arguments
    };
    assert!(Json::parse(&scanned(deep(126))).is_ok());
    let raw = format!("[{{\"{RESERVED}\":\"{}\"}}]", deep(127));
    let arguments = scanned(raw);
    assert_eq!(arguments, deep(128));
    assert!(Json::parse(&arguments).is_err());
}
