//! The gateway's side: streams, chunks, models, conversations, errors.

use fabrix_proxy::json::Json;
use fabrix_proxy::number::Real;
use fabrix_proxy::openai::{
    arguments_text, ChatRequest, Content, FunctionDef, LogProbsFlag, Message, NamedFunction,
    ResponseFormat, Stop, StreamOptions, Tool, ToolCall, ToolCallFunction, ToolChoice,
};
use fabrix_proxy::proxy::fabrix::{
    build_aliases, clamp_finish_reason, decide_finish, default_model, extract_object, find_model,
    fold_messages, last_is_user_turn, map_finish_reason, nonstream_events, temperature_was_clamped,
    FabrixChunk, FabrixError, FabrixModel, LlmConfig, LocalizedText, ResolvedModel, StreamDecoder,
    StreamEvent, CONTINUE_TURN,
};
use fabrix_proxy::proxy::tools::{Channel, ScanOut, ToolCallScanner};

fn owned(v: &Json, key: &str) -> Option<String> {
    v.get_text(key).map(str::to_string)
}

fn tool_call(v: &Json) -> ToolCall {
    let function = v.get("function").unwrap();
    ToolCall {
        id: owned(v, "id").unwrap_or_default(),
        kind: owned(v, "type").unwrap_or_else(|| "function".into()),
        function: ToolCallFunction {
            name: owned(function, "name").unwrap_or_default(),
            arguments: arguments_text(function.get("arguments").unwrap_or(&Json::Null)),
        },
    }
}

fn message(v: &Json) -> Message {
    Message {
        role: owned(v, "role").unwrap_or_default(),
        content: match v.get("content") {
            Some(Json::Text(s)) => Some(Content::Text(s.clone())),
            Some(Json::Array(parts)) => Some(Content::Parts(parts.iter().map(Json::copy).collect())),
            _ => None,
        },
        name: owned(v, "name"),
        tool_calls: match v.get("tool_calls") {
            Some(Json::Array(calls)) => Some(calls.iter().map(tool_call).collect()),
            _ => None,
        },
        tool_call_id: owned(v, "tool_call_id"),
    }
}

fn double(v: f64) -> Real {
    Real { bits: v.to_bits(), shown: v.to_string() }
}

fn float(v: &Json, key: &str) -> Option<Real> {
    match v.get(key) {
        Some(Json::Number(n)) => Some(double(n.as_f64().unwrap())),
        _ => None,
    }
}

fn whole(v: &Json, key: &str) -> Option<u32> {
    v.get(key).and_then(Json::as_u64).map(|n| n as u32)
}

fn flag(v: &Json, key: &str) -> Option<bool> {
    match v.get(key) {
        Some(Json::Bool(b)) => Some(*b),
        _ => None,
    }
}

fn kept(v: &Json, key: &str) -> Option<Json> {
    match v.get(key) {
        None | Some(Json::Null) => None,
        Some(other) => Some(other.copy()),
    }
}

fn function_def(v: &Json) -> FunctionDef {
    FunctionDef {
        name: owned(v, "name").unwrap_or_default(),
        description: owned(v, "description"),
        parameters: kept(v, "parameters"),
        strict: flag(v, "strict"),
    }
}

fn stop(v: &Json) -> Stop {
    match v {
        Json::Text(s) => Stop::One(s.clone()),
        Json::Array(items) => {
            Stop::Many(items.iter().map(|i| i.as_text().unwrap().to_string()).collect())
        }
        other => Stop::Other(other.copy()),
    }
}

fn logprobs(v: &Json) -> LogProbsFlag {
    match v {
        Json::Bool(b) => LogProbsFlag::Flag(*b),
        Json::Number(_) => LogProbsFlag::Count(v.as_u64().unwrap() as u32),
        other => LogProbsFlag::Other(other.copy()),
    }
}

fn tool_choice(v: &Json) -> ToolChoice {
    match v {
        Json::Text(s) => ToolChoice::Mode(s.clone()),
        Json::Object(_) => ToolChoice::Named {
            kind: owned(v, "type"),
            function: v
                .get("function")
                .map(|f| NamedFunction { name: owned(f, "name").unwrap_or_default() }),
        },
        other => ToolChoice::Other(other.copy()),
    }
}

fn request(v: &Json) -> ChatRequest {
    ChatRequest {
        model: owned(v, "model"),
        messages: match v.get("messages") {
            Some(Json::Array(list)) => list.iter().map(message).collect(),
            _ => Vec::new(),
        },
        stream: flag(v, "stream"),
        temperature: float(v, "temperature"),
        top_p: float(v, "top_p"),
        max_tokens: whole(v, "max_tokens"),
        max_completion_tokens: whole(v, "max_completion_tokens"),
        seed: None,
        frequency_penalty: float(v, "frequency_penalty"),
        top_k: whole(v, "top_k"),
        tools: match v.get("tools") {
            Some(Json::Array(list)) => Some(
                list.iter()
                    .map(|t| Tool {
                        kind: owned(t, "type"),
                        function: t.get("function").map(function_def),
                    })
                    .collect(),
            ),
            _ => None,
        },
        tool_choice: kept(v, "tool_choice").map(|c| tool_choice(&c)),
        parallel_tool_calls: flag(v, "parallel_tool_calls"),
        functions: match v.get("functions") {
            Some(Json::Array(list)) => Some(list.iter().map(function_def).collect()),
            _ => None,
        },
        n: whole(v, "n"),
        stop: kept(v, "stop").map(|s| stop(&s)),
        presence_penalty: float(v, "presence_penalty"),
        logit_bias: kept(v, "logit_bias"),
        user: kept(v, "user"),
        response_format: v.get("response_format").map(|f| ResponseFormat {
            kind: owned(f, "type"),
            json_schema: kept(f, "json_schema"),
        }),
        stream_options: kept(v, "stream_options")
            .map(|o| StreamOptions { include_usage: flag(&o, "include_usage") }),
        logprobs: kept(v, "logprobs").map(|l| logprobs(&l)),
        top_logprobs: whole(v, "top_logprobs"),
        metadata: kept(v, "metadata"),
        store: kept(v, "store"),
        service_tier: kept(v, "service_tier"),
    }
}

fn events(decoder: &mut StreamDecoder, raw: &str) -> Vec<StreamEvent> {
    decoder.push(raw.as_bytes())
}

#[test]
fn parses_sse_with_data_prefix_and_snake_case() {
    let mut d = StreamDecoder::new();
    let out = events(
        &mut d,
        "data: {\"content\":\"안녕\",\"model_type\":\"llama\"}\n\ndata: {\"content\":\"하세요\"}\n\n",
    );
    assert_eq!(
        out,
        vec![StreamEvent::Delta("안녕".into()), StreamEvent::Delta("하세요".into())]
    );
    assert_eq!(d.text(), "안녕하세요");
}

#[test]
fn parses_camel_case_field_names() {
    let mut d = StreamDecoder::new();
    let out = events(
        &mut d,
        "data: {\"content\":\"A\"}\ndata: {\"content\":\"B\",\"finishReason\":\"stop\"}\n",
    );
    assert_eq!(
        out,
        vec![
            StreamEvent::Delta("A".into()),
            StreamEvent::Delta("B".into()),
            StreamEvent::Finish("stop".into())
        ]
    );
}

#[test]
fn multibyte_split_across_chunk_boundaries_is_safe() {
    let mut d = StreamDecoder::new();
    let frame = "data: {\"content\":\"한글\"}\n".as_bytes();
    let (a, b) = frame.split_at(20);
    assert!(d.push(a).is_empty());
    assert_eq!(d.push(b), vec![StreamEvent::Delta("한글".into())]);
}

#[test]
fn done_sentinel_and_comments() {
    let mut d = StreamDecoder::new();
    let out = events(&mut d, ": keep-alive\n\ndata: [DONE]\n\n");
    assert_eq!(out, vec![StreamEvent::Done]);
    assert!(d.is_done());
}

#[test]
fn error_status_surfaces_as_error_event() {
    let mut d = StreamDecoder::new();
    let out = events(&mut d, "data: {\"status\":\"ERROR\",\"eventData\":\"쿼터 초과\"}\n");
    assert_eq!(out, vec![StreamEvent::Error("쿼터 초과".into())]);
}

fn parse_nostream(raw: &str) -> FabrixChunk {
    let value = Json::parse(raw).unwrap();
    FabrixChunk::from_json(&extract_object(&value)).unwrap()
}

#[test]
fn nostream_pure_llm_reads_content() {
    let raw = r#"{
        "modelType": "FabriX",
        "content": "소프트웨어의 역사는\n\n컴퓨터의 발전과 함께 시작되었습니다.",
        "reasoningContent": null,
        "contentReferences": [{ "plugin": "RAG", "answer": "", "references": [] }],
        "finishReason": null,
        "filterBlockReason": { "ko": null, "en": null, "message": null, "result_code": "FR-200" },
        "status": "SUCCESS",
        "responseCode": "R20000",
        "plugins": ["LLM"],
        "eventStatus": "CHUNK",
        "eventData": ""
    }"#;
    let chunk = parse_nostream(raw);
    assert!(!chunk.looks_like_error());
    assert_eq!(chunk.answer_text().as_deref(), Some("소프트웨어의 역사는\n\n컴퓨터의 발전과 함께 시작되었습니다."));
    assert_eq!(chunk.filter_message(), None);
}

#[test]
fn nostream_plugin_answer_falls_back_to_content_references() {
    let raw = r#"{
        "modelType": "FabriX",
        "content": null,
        "reasoningContent": null,
        "contentReferences": [
            { "plugin": "RAG", "answer": "첫 번째 근거 답변", "references": [] },
            { "plugin": "RAG", "answer": "두 번째 근거 답변", "references": [] }
        ],
        "finishReason": null,
        "status": "SUCCESS",
        "responseCode": "R20000",
        "eventStatus": "CHUNK",
        "eventData": ""
    }"#;
    let chunk = parse_nostream(raw);
    assert_eq!(chunk.content, None);
    assert_eq!(chunk.answer_text().as_deref(), Some("첫 번째 근거 답변\n두 번째 근거 답변"));
    assert_eq!(chunk.filter_message(), None);
}

#[test]
fn nostream_does_not_treat_event_data_as_the_answer() {
    let raw = r#"{
        "content": null,
        "contentReferences": [],
        "eventData": "이벤트 데이터",
        "status": "SUCCESS"
    }"#;
    let chunk = parse_nostream(raw);
    assert_eq!(chunk.answer_text(), None);
}

#[test]
fn nostream_filter_block_surfaces_reason() {
    let raw = r#"{
        "content": null,
        "reasoningContent": null,
        "contentReferences": [],
        "finishReason": null,
        "filterBlockReason": {
            "ko": "부적절한 표현이 감지되었습니다.",
            "en": null,
            "message": null,
            "result_code": "FR-403"
        },
        "status": "SUCCESS",
        "responseCode": "R20000",
        "eventStatus": "CHUNK",
        "eventData": ""
    }"#;
    let chunk = parse_nostream(raw);
    assert_eq!(chunk.answer_text(), None);
    assert_eq!(chunk.filter_message().as_deref(), Some("부적절한 표현이 감지되었습니다."));
}

#[test]
fn nostream_extra_fields_do_not_break_streaming_frame_parsing() {
    let mut d = StreamDecoder::new();
    let out = events(&mut d, "data: {\"content\":\"조각\",\"model_type\":\"llama\"}\n");
    assert_eq!(out, vec![StreamEvent::Delta("조각".into())]);
}

#[test]
fn aliases_prefer_english_names_and_fall_back_to_uuid() {
    let models = vec![
        FabrixModel {
            model_id: "0196f1fc-2858-70a9-a232-74dbddb971d0".into(),
            name: vec![
                LocalizedText { language_code: Some("ko".into()), content: Some("챗 4".into()) },
                LocalizedText { language_code: Some("en".into()), content: Some("Chat 4".into()) },
            ],
            description: vec![],
        },
        FabrixModel {
            model_id: "01970a3b-91d4-7c8e-1111-222233334444".into(),
            name: vec![LocalizedText { language_code: Some("ko".into()), content: Some("라이트".into()) }],
            description: vec![],
        },
    ];
    let resolved = build_aliases(&models);
    assert_eq!(resolved[0].alias, "fabrix-chat-4");
    assert_eq!(resolved[0].label, "챗 4");
    assert_eq!(resolved[1].alias, "fabrix-01970a3b");
    assert_eq!(resolved[1].label, "라이트");
}

fn two_models() -> Vec<ResolvedModel> {
    build_aliases(&[
        FabrixModel {
            model_id: "uuid-1".into(),
            name: vec![LocalizedText {
                language_code: Some("en".into()),
                content: Some("Chat 4".into()),
            }],
            description: vec![],
        },
        FabrixModel {
            model_id: "uuid-2".into(),
            name: vec![LocalizedText {
                language_code: Some("en".into()),
                content: Some("Chat Lite".into()),
            }],
            description: vec![],
        },
    ])
}

#[test]
fn clamp_never_leaks_a_non_openai_value() {
    const LEGAL: &[&str] = &["stop", "length", "tool_calls", "content_filter", "function_call"];
    for raw in [
        Some("stop"),
        Some("length"),
        Some("tool_calls"),
        Some("content_filter"),
        Some("function_call"),
        Some("weird"),
        Some(""),
        Some("   "),
        Some("STOP"),
        Some("사내값"),
        None,
    ] {
        let out = clamp_finish_reason(raw);
        assert!(LEGAL.contains(&out), "{raw:?} → {out}");
    }
    assert_eq!(clamp_finish_reason(Some("tool_calls")), "tool_calls");
    assert_eq!(clamp_finish_reason(Some("content_filter")), "content_filter");
    assert_eq!(clamp_finish_reason(Some("weird")), "stop");
    assert_eq!(clamp_finish_reason(None), "stop");
}

#[test]
fn abortish_values_clamp_to_length() {
    for raw in ["abort", "aborted", "cancelled", "canceled", "error", "timeout", "incomplete"] {
        assert_eq!(clamp_finish_reason(Some(raw)), "length", "{raw}");
    }
}

#[test]
fn looks_successful_distinguishes_an_empty_answer_from_garbage() {
    let of = |raw: &str| {
        FabrixChunk::from_json(&Json::parse(raw).unwrap()).unwrap().looks_successful()
    };
    assert!(of(r#"{"content":"","status":"SUCCESS"}"#));
    assert!(of(r#"{"content":null,"finishReason":"stop"}"#));
    assert!(of(r#"{"responseCode":"200"}"#));
    assert!(!of(r#"{}"#));
    assert!(!of(r#"{"content":""}"#));
    assert!(!of(r#"{"status":"   "}"#));
    assert!(!of(r#"{"status":"ERROR","finishReason":"stop"}"#));
}

#[test]
fn every_error_variant_maps_to_a_legal_type_and_a_code() {
    let cases = [
        (FabrixError::NotConfigured, 503, "api_error", "not_configured"),
        (FabrixError::Unreachable("t".into()), 502, "api_error", "upstream_unreachable"),
        (FabrixError::Quota("q".into()), 429, "rate_limit_error", "rate_limit_exceeded"),
        (
            FabrixError::Upstream { status: 418, message: "teapot".into() },
            418,
            "invalid_request_error",
            "upstream_error",
        ),
        (FabrixError::BadPayload("p".into()), 502, "api_error", "upstream_bad_response"),
    ];
    for (err, status, kind, code) in cases {
        assert_eq!(err.status(), status, "{err:?}");
        assert_eq!(err.code(), code, "{err:?}");
        let env = err.envelope();
        assert_eq!(env.error.kind, kind, "{err:?}");
        assert_eq!(env.error.code.as_deref(), Some(code), "{err:?}");
        assert!(!env.error.message.is_empty());
    }
}

#[test]
fn find_model_hits_by_uuid_alias_and_ignoring_case() {
    let models = two_models();
    assert_eq!(find_model(&models, "uuid-1").unwrap().alias, "fabrix-chat-4");
    assert_eq!(find_model(&models, "fabrix-chat-lite").unwrap().model_id, "uuid-2");
    assert_eq!(find_model(&models, "FABRIX-Chat-4").unwrap().model_id, "uuid-1");
    assert_eq!(find_model(&models, "  fabrix-chat-4  ").unwrap().model_id, "uuid-1");
}

#[test]
fn find_model_never_falls_back() {
    let models = two_models();
    assert!(find_model(&models, "gpt-4o").is_none());
    assert!(find_model(&models, "").is_none());
    assert!(find_model(&models, "   ").is_none());
}

#[test]
fn default_model_prefers_the_configured_alias_then_the_first() {
    let models = two_models();
    assert_eq!(default_model(&models, "fabrix-chat-lite").unwrap().model_id, "uuid-2");
    assert_eq!(default_model(&models, "").unwrap().model_id, "uuid-1");
    assert_eq!(default_model(&models, "fabrix-nope").unwrap().model_id, "uuid-1");
    assert!(default_model(&[], "fabrix-chat-4").is_none());
}

#[test]
fn system_messages_split_into_system_prompt() {
    let msgs = vec![
        Message { role: "system".into(), content: Some(Content::Text("너는 사내 규정 도우미다.".into())), ..Default::default() },
        Message { role: "user".into(), content: Some(Content::Text("연차 이월 규정 알려줘".into())), ..Default::default() },
    ];
    let (system, contents) = fold_messages(&msgs);
    assert_eq!(system.as_deref(), Some("너는 사내 규정 도우미다."));
    assert_eq!(contents, vec!["연차 이월 규정 알려줘".to_string()]);
}

fn msg(json: &str) -> Message {
    message(&Json::parse(json).unwrap())
}

#[test]
fn multi_turn_becomes_one_element_per_turn() {
    let msgs = vec![
        msg(r#"{"role":"user","content":"안녕하세요?"}"#),
        msg(r#"{"role":"assistant","content":"네 안녕하세요"}"#),
        msg(r#"{"role":"user","content":"내 이름은 LCY인데 너 이름은 뭐니?"}"#),
    ];
    let (system, contents) = fold_messages(&msgs);
    assert!(system.is_none());
    assert_eq!(
        contents,
        vec![
            "안녕하세요?".to_string(),
            "네 안녕하세요".to_string(),
            "내 이름은 LCY인데 너 이름은 뭐니?".to_string(),
        ]
    );
    assert!(!contents.iter().any(|c| c.starts_with("User:") || c.starts_with("Assistant:")));
}

#[test]
fn consecutive_same_role_messages_merge_to_keep_alternation() {
    let msgs = vec![
        msg(r#"{"role":"user","content":"첫 질문"}"#),
        msg(r#"{"role":"user","content":"덧붙임"}"#),
        msg(r#"{"role":"assistant","content":"답 앞"}"#),
        msg(r#"{"role":"assistant","content":"답 뒤"}"#),
        msg(r#"{"role":"user","content":"마지막"}"#),
    ];
    let (_, contents) = fold_messages(&msgs);
    assert_eq!(
        contents,
        vec![
            "첫 질문\n\n덧붙임".to_string(),
            "답 앞\n\n답 뒤".to_string(),
            "마지막".to_string(),
        ]
    );
    assert!(last_is_user_turn(&contents));
}

#[test]
fn a_conversation_starting_with_assistant_gets_a_continue_turn() {
    let msgs = vec![
        msg(r#"{"role":"assistant","content":"이어서 말하자면"}"#),
        msg(r#"{"role":"user","content":"계속해"}"#),
    ];
    let (_, contents) = fold_messages(&msgs);
    assert_eq!(
        contents,
        vec![
            CONTINUE_TURN.to_string(),
            "이어서 말하자면".to_string(),
            "계속해".to_string(),
        ]
    );
}

#[test]
fn a_single_user_turn_is_one_bare_element() {
    let (_, contents) = fold_messages(&[msg(r#"{"role":"user","content":"안녕"}"#)]);
    assert_eq!(contents, vec!["안녕".to_string()]);
    assert!(last_is_user_turn(&contents));
}

#[test]
fn last_is_user_turn_tracks_the_alternation() {
    assert!(last_is_user_turn(&["u".into()]));
    assert!(!last_is_user_turn(&["u".into(), "a".into()]));
    assert!(last_is_user_turn(&["u".into(), "a".into(), "u".into()]));
    assert!(!last_is_user_turn(&[]));
}

#[test]
fn assistant_tool_call_turn_is_not_dropped() {
    let msgs = vec![
        msg(r#"{"role":"user","content":"페이지 만들어줘"}"#),
        msg(
            r#"{"role":"assistant","content":null,"tool_calls":[
                 {"id":"call_a1","type":"function",
                  "function":{"name":"write","arguments":"{\"filePath\":\"a.html\"}"}}]}"#,
        ),
        msg(r#"{"role":"tool","tool_call_id":"call_a1","content":"wrote 12 bytes"}"#),
    ];
    let (_, contents) = fold_messages(&msgs);
    assert_eq!(contents.len(), 3, "{contents:?}");
    assert_eq!(contents[0], "페이지 만들어줘");
    let call = &contents[1];
    assert!(call.contains("<tool_call>"), "도구 호출이 사라졌습니다:\n{call}");
    assert!(call.contains("\"name\":\"write\""), "{call}");
    assert!(call.contains("call_a1"), "{call}");
    assert!(contents[2].contains("wrote 12 bytes"), "{}", contents[2]);
    assert!(last_is_user_turn(&contents));
}

#[test]
fn tool_result_is_not_double_labelled() {
    let msgs = vec![
        msg(r#"{"role":"user","content":"go"}"#),
        msg(
            r#"{"role":"assistant","content":null,"tool_calls":[
                 {"id":"c1","function":{"name":"read","arguments":"{}"}}]}"#,
        ),
        msg(r#"{"role":"tool","tool_call_id":"c1","content":"body"}"#),
    ];
    let (_, contents) = fold_messages(&msgs);
    let result = &contents[2];
    assert!(!result.contains("Tool: Tool result"), "이중 라벨:\n{result}");
    assert!(result.contains("Tool result (id=c1, name=read)"), "{result}");
}

#[test]
fn parallel_call_results_merge_into_one_user_turn() {
    let msgs = vec![
        msg(r#"{"role":"user","content":"go"}"#),
        msg(
            r#"{"role":"assistant","content":null,"tool_calls":[
                 {"id":"c1","function":{"name":"write","arguments":"{}"}},
                 {"id":"c2","function":{"name":"read","arguments":"{}"}}]}"#,
        ),
        msg(r#"{"role":"tool","tool_call_id":"c2","content":"두번째"}"#),
        msg(r#"{"role":"tool","tool_call_id":"c1","content":"첫번째"}"#),
    ];
    let (_, contents) = fold_messages(&msgs);
    assert_eq!(contents.len(), 3, "결과가 교대를 깨뜨렸습니다: {contents:?}");
    let results = &contents[2];
    assert!(results.contains("Tool result (id=c2, name=read)"), "{results}");
    assert!(results.contains("Tool result (id=c1, name=write)"), "{results}");
    assert!(last_is_user_turn(&contents));
}

#[test]
fn ai_sdk_tool_result_parts_survive_the_fold() {
    let msgs = vec![
        msg(r#"{"role":"user","content":"go"}"#),
        msg(
            r#"{"role":"tool","tool_call_id":"c1",
                "content":[{"type":"tool-result","output":{"ok":true}}]}"#,
        ),
    ];
    let (_, contents) = fold_messages(&msgs);
    assert!(contents[0].contains("tool-result"), "{}", contents[0]);
    assert!(contents[0].contains("\"ok\":true"), "{}", contents[0]);
}

#[test]
fn empty_tool_result_still_records_the_call() {
    let msgs = vec![msg(r#"{"role":"tool","tool_call_id":"c1","content":""}"#)];
    let (_, contents) = fold_messages(&msgs);
    assert_eq!(contents.len(), 1);
    assert!(contents[0].contains("Tool result (id=c1)"), "{}", contents[0]);
}

#[test]
fn legacy_function_role_uses_its_own_name() {
    let msgs = vec![msg(r#"{"role":"function","name":"calc","content":"84"}"#)];
    let (_, contents) = fold_messages(&msgs);
    assert!(contents[0].contains("Tool result (name=calc)"), "{}", contents[0]);
}

#[test]
fn unknown_roles_keep_their_label_inside_a_user_turn() {
    let msgs = vec![
        msg(r#"{"role":"user","content":"안녕"}"#),
        msg(r#"{"role":"critic","content":"별로"}"#),
    ];
    let (_, contents) = fold_messages(&msgs);
    assert_eq!(contents, vec!["안녕\n\ncritic: 별로".to_string()]);
}

#[test]
fn truncation_outranks_every_other_finish_reason() {
    assert_eq!(map_finish_reason(Some("stop"), true).as_deref(), Some("length"));
    assert_eq!(map_finish_reason(None, true).as_deref(), Some("length"));
}

#[test]
fn finish_reason_maps_known_synonyms() {
    assert_eq!(map_finish_reason(Some("max_tokens"), false).as_deref(), Some("length"));
    assert_eq!(map_finish_reason(Some("MAX_NEW_TOKENS"), false).as_deref(), Some("length"));
    assert_eq!(map_finish_reason(Some("filtered"), false).as_deref(), Some("content_filter"));
    assert_eq!(map_finish_reason(Some("end_turn"), false).as_deref(), Some("stop"));
}

#[test]
fn finish_reason_passes_unknown_values_through() {
    assert_eq!(map_finish_reason(Some("weird"), false).as_deref(), Some("weird"));
    assert_eq!(map_finish_reason(Some("   "), false), None);
    assert_eq!(map_finish_reason(None, false), None);
}

fn llm_config(body: &str) -> LlmConfig {
    LlmConfig::from_request(&request(&Json::parse(body).unwrap())).unwrap()
}

fn value(v: &Option<Real>) -> Option<f64> {
    v.as_ref().map(|r| f64::from_bits(r.bits))
}

#[test]
fn llm_config_sends_both_spellings() {
    let cfg = llm_config(
        r#"{"messages":[{"role":"user","content":"hi"}],"frequency_penalty":1.04,"top_k":14}"#,
    );
    assert_eq!(value(&cfg.repetition_penalty), Some(1.04), "{cfg:?}");
    assert_eq!(value(&cfg.repetion_penalty), Some(1.04), "{cfg:?}");
    assert_eq!(cfg.top_k, Some(14), "{cfg:?}");
    assert_eq!(cfg.tok_k, Some(14), "{cfg:?}");
}

#[test]
fn llm_config_omits_both_spellings_when_absent() {
    let cfg = llm_config(r#"{"messages":[{"role":"user","content":"hi"}],"temperature":0.4}"#);
    assert!(cfg.repetition_penalty.is_none(), "{cfg:?}");
    assert!(cfg.repetion_penalty.is_none(), "{cfg:?}");
    assert!(cfg.top_k.is_none(), "{cfg:?}");
    assert!(cfg.tok_k.is_none(), "{cfg:?}");
    assert_eq!(value(&cfg.temperature), Some(0.4));
}

#[test]
fn temperature_is_clamped_to_the_fabrix_ceiling() {
    let cfg = llm_config(r#"{"messages":[{"role":"user","content":"hi"}],"temperature":1.5}"#);
    assert_eq!(value(&cfg.temperature), Some(1.0));

    let ok = llm_config(r#"{"messages":[{"role":"user","content":"hi"}],"temperature":0.4}"#);
    assert_eq!(value(&ok.temperature), Some(0.4));
}

#[test]
fn temperature_clamp_is_reported_only_when_it_happens() {
    let of = |v: Option<f64>| {
        temperature_was_clamped(&v.map(double))
            .map(|(a, b)| (f64::from_bits(a.bits), f64::from_bits(b.bits)))
    };
    assert_eq!(of(Some(1.5)), Some((1.5, 1.0)));
    assert_eq!(of(Some(2.0)), Some((2.0, 1.0)));
    assert_eq!(of(Some(1.0)), None);
    assert_eq!(of(Some(0.4)), None);
    assert_eq!(of(None), None);
}

#[test]
fn decide_finish_puts_tool_calls_first() {
    assert_eq!(decide_finish(true, Some("stop"), false), "tool_calls");
    assert_eq!(decide_finish(true, None, true), "tool_calls");
    assert_eq!(decide_finish(true, Some("weird"), true), "tool_calls");
    assert_eq!(decide_finish(false, Some("stop"), true), "length");
    assert_eq!(decide_finish(false, Some("weird"), false), "stop");
    assert_eq!(decide_finish(false, Some("content_filter"), false), "content_filter");
    assert_eq!(decide_finish(false, None, false), "stop");
}

#[test]
fn decide_finish_folds_a_midstream_break_to_length() {
    assert_eq!(decide_finish(false, Some("error"), false), "length");
    assert_eq!(decide_finish(true, Some("error"), false), "tool_calls");
}

#[test]
fn nonstream_events_order_reasoning_then_content_then_finish() {
    let chunk = FabrixChunk {
        content: Some("답변".into()),
        reasoning_content: Some("생각".into()),
        finish_reason: Some("stop".into()),
        ..FabrixChunk::default()
    };
    assert_eq!(
        nonstream_events(&chunk),
        vec![
            StreamEvent::Reasoning("생각".into()),
            StreamEvent::Delta("답변".into()),
            StreamEvent::Finish("stop".into()),
        ]
    );
}

#[test]
fn nonstream_events_skip_empty_fields() {
    let chunk = FabrixChunk {
        content: Some(String::new()),
        reasoning_content: Some(String::new()),
        finish_reason: Some("   ".into()),
        ..FabrixChunk::default()
    };
    assert_eq!(nonstream_events(&chunk), Vec::new());
}

#[test]
fn nonstream_events_carry_reasoning_only_answers() {
    let chunk = FabrixChunk {
        content: None,
        reasoning_content: Some("<tool_call>{\"name\":\"read\"}</tool_call>".into()),
        ..FabrixChunk::default()
    };
    assert_eq!(
        nonstream_events(&chunk),
        vec![StreamEvent::Reasoning("<tool_call>{\"name\":\"read\"}</tool_call>".into())]
    );
}

#[test]
fn decoder_records_the_truncated_flag() {
    let mut d = StreamDecoder::new();
    d.push(b"data: {\"content\":\"ab\"}\n");
    assert!(!d.is_truncated());
    d.push(b"data: {\"content\":\"cd\",\"truncated\":true}\n");
    assert!(d.is_truncated());
}

#[test]
fn content_frames_are_always_incremental() {
    let mut d = StreamDecoder::new();
    assert_eq!(
        d.push("data: {\"content\":\"안\"}\n".as_bytes()),
        vec![StreamEvent::Delta("안".into())]
    );
    assert_eq!(
        d.push("data: {\"content\":\"녕\"}\n".as_bytes()),
        vec![StreamEvent::Delta("녕".into())]
    );
    assert_eq!(
        d.push("data: {\"content\":\"안녕\"}\n".as_bytes()),
        vec![StreamEvent::Delta("안녕".into())]
    );
    assert_eq!(d.text(), "안녕안녕");
}

#[test]
fn lines_without_the_data_prefix_are_ignored() {
    let mut d = StreamDecoder::new();
    assert_eq!(d.push("{\"content\":\"생 JSON\"}\n".as_bytes()), Vec::new());
    assert_eq!(d.push("event: message\n".as_bytes()), Vec::new());
    assert_eq!(d.push(": keep-alive 주석\n".as_bytes()), Vec::new());
    assert_eq!(d.text(), "");
    assert_eq!(
        d.push("data: {\"content\":\"본문\"}\n".as_bytes()),
        vec![StreamEvent::Delta("본문".into())]
    );
}

fn sse_frames(body: &str, chunk: usize, key: &str) -> Vec<String> {
    body.chars()
        .collect::<Vec<char>>()
        .chunks(chunk)
        .map(|piece| {
            let piece: String = piece.iter().collect();
            let tree = Json::Object(vec![(key.to_string(), Json::Text(piece))]);
            format!("data: {}\n", tree.compact())
        })
        .collect()
}

fn decode_and_scan(frames: &[String], names: &[&str]) -> (String, Vec<(u32, String, String)>) {
    let mut decoder = StreamDecoder::new();
    let mut scanner =
        ToolCallScanner::new(names.iter().map(|s| s.to_string()).collect::<Vec<_>>(), true);
    let mut text = String::new();
    let mut calls = Vec::new();

    let absorb = |out: ScanOut, text: &mut String, calls: &mut Vec<(u32, String, String)>| {
        text.push_str(&out.text);
        for c in out.calls {
            calls.push((c.index, c.name, c.arguments));
        }
    };

    let mut events: Vec<StreamEvent> =
        frames.iter().flat_map(|f| decoder.push(f.as_bytes())).collect();
    events.extend(decoder.finish());
    for event in events {
        match event {
            StreamEvent::Delta(d) => {
                absorb(scanner.push_on(Channel::Content, &d), &mut text, &mut calls)
            }
            StreamEvent::Reasoning(r) => {
                absorb(scanner.push_on(Channel::Reasoning, &r), &mut text, &mut calls)
            }
            _ => {}
        }
    }
    absorb(scanner.finish_on(Channel::Content), &mut text, &mut calls);
    absorb(scanner.finish_on(Channel::Reasoning), &mut text, &mut calls);
    (text, calls)
}

const TOOL_BODY: &str = "만들겠습니다.\n<tool_call>\n{\"name\":\"write\",\"arguments\":{\"filePath\":\"index.html\",\"content\":\"<!doctype html>\"}}\n</tool_call>";

#[test]
fn tool_call_survives_frame_splitting_on_both_channels() {
    for key in ["content", "reasoning_content"] {
        for chunk in [1usize, 3, 7, 200] {
            let frames = sse_frames(TOOL_BODY, chunk, key);
            let (text, calls) = decode_and_scan(&frames, &["write", "read"]);
            let label = format!("key={key} chunk={chunk}");

            assert_eq!(calls.len(), 1, "{label} — 도구 호출 수");
            assert_eq!(calls[0].0, 0, "{label} — index");
            assert_eq!(calls[0].1, "write", "{label} — 이름");

            let args: serde_json::Value = serde_json::from_str(&calls[0].2)
                .unwrap_or_else(|e| panic!("{label} — arguments 가 JSON 이 아님: {e}"));
            assert_eq!(args["filePath"], "index.html", "{label}");
            assert_eq!(args["content"], "<!doctype html>", "{label}");

            assert!(text.contains("만들겠습니다."), "{label} — 앞 산문 유실");
            assert!(!text.contains("tool_call"), "{label} — 센티널이 본문에 남음: {text}");
        }
    }
}

#[test]
fn ordinary_answer_is_untouched_by_the_scanner() {
    for key in ["content", "reasoning_content"] {
        let frames = sse_frames(ANSWER_SAMPLE, 3, key);
        let (text, calls) = decode_and_scan(&frames, &["write"]);
        assert!(calls.is_empty(), "key={key}");
        assert_eq!(text, ANSWER_SAMPLE, "key={key}");
    }
}

const ANSWER_SAMPLE: &str = "시연차는 입사 1년 차에 15일이 부여됩니다. 자세한 내용은 규정을 보세요.";

#[test]
fn the_end_does_what_a_line_feed_does() {
    let body = "data: {\"content\":\"가\",\"model_type\":\"m1\"}\n\
                data: {\"content\":\"나\",\"model_type\":\"m2\",\"finish_reason\":\"stop\"}";
    let mut ended = StreamDecoder::new();
    let mut a = events(&mut ended, body);
    a.extend(ended.finish());
    let mut fed = StreamDecoder::new();
    let mut b = events(&mut fed, body);
    b.extend(events(&mut fed, "\n"));
    assert_eq!(a, b);
    assert!(fed.finish().is_empty());
    assert_eq!(ended.model_type(), Some("m1"));
    assert_eq!(ended.finish_reason(), Some("stop"));
    let deltas: String = a
        .iter()
        .filter_map(|e| match e {
            StreamEvent::Delta(s) => Some(s.as_str()),
            _ => None,
        })
        .collect();
    assert_eq!(ended.text(), deltas);
}
