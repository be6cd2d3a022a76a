//! Requests: what is read out of them, and which are refused.

use fabrix_proxy::json::Json;
use fabrix_proxy::number::Real;
use fabrix_proxy::openai::{
    arguments_text, ChatRequest, Content, FunctionDef, LogProbsFlag, Message, NamedFunction,
    ResponseFormat, Stop, StreamOptions, Tool, ToolCall, ToolCallFunction, ToolChoice,
    ImageRef, ImageUrl, ToolCallDelta, ToolChoiceMode, parse_size, split_data_url,
};
use fabrix_proxy::proxy::validate::{plan, Invalid, Plan};

fn owned(v: &Json, key: &str) -> Option<String> {
    v.get_text(key).map(str::to_string)
}

fn tool_call(v: &Json) -> ToolCall {
    let function = v.get("function").unwrap();
    ToolCall {
        id: owned(v, "id").unwrap_or_default(),
        kind: owned(v, "type").unwrap_or_else(|| "function".into()),
        function: ToolCallFunction {
            name: owned(function, "name").unwrap_or_default(),
            arguments: arguments_text(function.get("arguments").unwrap_or(&Json::Null)),
        },
    }
}

fn message(v: &Json) -> Message {
    Message {
        role: owned(v, "role").unwrap_or_default(),
        content: match v.get("content") {
            Some(Json::Text(s)) => Some(Content::Text(s.clone())),
            Some(Json::Array(parts)) => Some(Content::Parts(parts.iter().map(Json::copy).collect())),
            _ => None,
        },
        name: owned(v, "name"),
        tool_calls: match v.get("tool_calls") {
            Some(Json::Array(calls)) => Some(calls.iter().map(tool_call).collect()),
            _ => None,
        },
        tool_call_id: owned(v, "tool_call_id"),
    }
}

fn double(v: f64) -> Real {
    Real { bits: v.to_bits(), shown: v.to_string() }
}

fn float(v: &Json, key: &str) -> Option<Real> {
    match v.get(key) {
        Some(Json::Number(n)) => Some(double(n.as_f64().unwrap())),
        _ => None,
    }
}

fn whole(v: &Json, key: &str) -> Option<u32> {
    v.get(key).and_then(Json::as_u64).map(|n| n as u32)
}

fn flag(v: &Json, key: &str) -> Option<bool> {
    match v.get(key) {
        Some(Json::Bool(b)) => Some(*b),
        _ => None,
    }
}

fn kept(v: &Json, key: &str) -> Option<Json> {
    match v.get(key) {
        None | Some(Json::Null) => None,
        Some(other) => Some(other.copy()),
    }
}

fn function_def(v: &Json) -> FunctionDef {
    FunctionDef {
        name: owned(v, "name").unwrap_or_default(),
        description: owned(v, "description"),
        parameters: kept(v, "parameters"),
        strict: flag(v, "strict"),
    }
}

fn stop(v: &Json) -> Stop {
    match v {
        Json::Text(s) => Stop::One(s.clone()),
        Json::Array(items) => {
            Stop::Many(items.iter().map(|i| i.as_text().unwrap().to_string()).collect())
        }
        other => Stop::Other(other.copy()),
    }
}

fn logprobs(v: &Json) -> LogProbsFlag {
    match v {
        Json::Bool(b) => LogProbsFlag::Flag(*b),
        Json::Number(_) => LogProbsFlag::Count(v.as_u64().unwrap() as u32),
        other => LogProbsFlag::Other(other.copy()),
    }
}

fn tool_choice(v: &Json) -> ToolChoice {
    match v {
        Json::Text(s) => ToolChoice::Mode(s.clone()),
        Json::Object(_) => ToolChoice::Named {
            kind: owned(v, "type"),
            function: v
                .get("function")
                .map(|f| NamedFunction { name: owned(f, "name").unwrap_or_default() }),
        },
        other => ToolChoice::Other(other.copy()),
    }
}

fn request(v: &Json) -> ChatRequest {
    ChatRequest {
        model: owned(v, "model"),
        messages: match v.get("messages") {
            Some(Json::Array(list)) => list.iter().map(message).collect(),
            _ => Vec::new(),
        },
        stream: flag(v, "stream"),
        temperature: float(v, "temperature"),
        top_p: float(v, "top_p"),
        max_tokens: whole(v, "max_tokens"),
        max_completion_tokens: whole(v, "max_completion_tokens"),
        seed: None,
        frequency_penalty: float(v, "frequency_penalty"),
        top_k: whole(v, "top_k"),
        tools: match v.get("tools") {
            Some(Json::Array(list)) => Some(
                list.iter()
                    .map(|t| Tool {
                        kind: owned(t, "type"),
                        function: t.get("function").map(function_def),
                    })
                    .collect(),
            ),
            _ => None,
        },
        tool_choice: kept(v, "tool_choice").map(|c| tool_choice(&c)),
        parallel_tool_calls: flag(v, "parallel_tool_calls"),
        functions: match v.get("functions") {
            Some(Json::Array(list)) => Some(list.iter().map(function_def).collect()),
            _ => None,
        },
        n: whole(v, "n"),
        stop: kept(v, "stop").map(|s| stop(&s)),
        presence_penalty: float(v, "presence_penalty"),
        logit_bias: kept(v, "logit_bias"),
        user: kept(v, "user"),
        response_format: v.get("response_format").map(|f| ResponseFormat {
            kind: owned(f, "type"),
            json_schema: kept(f, "json_schema"),
        }),
        stream_options: kept(v, "stream_options")
            .map(|o| StreamOptions { include_usage: flag(&o, "include_usage") }),
        logprobs: kept(v, "logprobs").map(|l| logprobs(&l)),
        top_logprobs: whole(v, "top_logprobs"),
        metadata: kept(v, "metadata"),
        store: kept(v, "store"),
        service_tier: kept(v, "service_tier"),
    }
}

#[test]
fn parse_size_basic() {
    assert_eq!(parse_size("1024x1024"), Some((1024, 1024)));
    assert_eq!(parse_size("1792x1024"), Some((1792, 1024)));
    assert_eq!(parse_size(" 512 x 512 "), Some((512, 512)));
    assert_eq!(parse_size("768X768"), Some((768, 768)));
    assert_eq!(parse_size("1024×1024"), Some((1024, 1024)));
}

#[test]
fn parse_size_rejects() {
    assert_eq!(parse_size(""), None);
    assert_eq!(parse_size("auto"), None);
    assert_eq!(parse_size("abc"), None);
    assert_eq!(parse_size("1024"), None);
    assert_eq!(parse_size("0x100"), None);
}

#[test]
fn split_data_url_ok() {
    assert_eq!(split_data_url("data:image/png;base64,AAAA"), Some(("image/png", "AAAA")));
    assert_eq!(split_data_url("data:image/jpeg;base64,/9j/"), Some(("image/jpeg", "/9j/")));
    assert_eq!(split_data_url("data:;base64,AAAA"), Some(("application/octet-stream", "AAAA")));
}

#[test]
fn split_data_url_rejects_non_base64_and_non_data() {
    assert_eq!(split_data_url("https://x/y.png"), None);
    assert_eq!(split_data_url("data:text/plain,hello"), None);
}

#[test]
fn image_url_untagged_accepts_string_and_object() {
    let s = ImageRef { image_url: Some(ImageUrl::Url("data:image/png;base64,AAAA".into())) };
    assert_eq!(s.image_url.unwrap().as_str(), Some("data:image/png;base64,AAAA"));
    let o = ImageRef {
        image_url: Some(ImageUrl::Object { url: Some("data:image/png;base64,BBBB".into()) }),
    };
    assert_eq!(o.image_url.unwrap().as_str(), Some("data:image/png;base64,BBBB"));
}

fn parsed(body: &str) -> ChatRequest {
    request(&Json::parse(body).unwrap())
}

#[test]
fn opencode_shaped_request_parses() {
    let req = parsed(
        r#"{
          "model": "fabrix-chat-4",
          "stream": true,
          "messages": [
            {"role":"system","content":"you are a coding agent"},
            {"role":"user","content":"make a page"},
            {"role":"assistant","content":null,"tool_calls":[
              {"id":"call_a1","type":"function",
               "function":{"name":"write","arguments":"{\"filePath\":\"a.html\"}"}}]},
            {"role":"tool","tool_call_id":"call_a1","content":"wrote 12 bytes"}
          ],
          "tools": [
            {"type":"function","function":{
              "name":"write","description":"Write a file",
              "parameters":{"type":"object","properties":{"filePath":{"type":"string"}}}}}
          ],
          "tool_choice": "auto",
          "parallel_tool_calls": true
        }"#,
    );

    assert!(req.is_stream());
    assert_eq!(req.declared_tools().len(), 1);
    assert_eq!(req.declared_tools()[0].name, "write");
    assert!(req.declared_tools()[0].parameters.is_some());
    assert_eq!(req.tool_mode(), ToolChoiceMode::Auto);
    assert!(req.wants_tools());
    assert_eq!(req.parallel_tool_calls, Some(true));

    let assistant = &req.messages[2];
    assert_eq!(assistant.tool_calls().len(), 1);
    assert_eq!(assistant.tool_calls()[0].id, "call_a1");
    assert_eq!(assistant.tool_calls()[0].function.name, "write");
    assert!(assistant.text().is_empty());

    let tool = &req.messages[3];
    assert_eq!(tool.tool_call_id.as_deref(), Some("call_a1"));
    assert_eq!(tool.tool_result_text(), "wrote 12 bytes");
}

#[test]
fn stop_accepts_string_array_and_garbage() {
    let of = |raw: &str| stop(&Json::parse(raw).unwrap());
    assert_eq!(of(r#""\n\n""#).list(), vec!["\n\n"]);
    assert_eq!(of(r#"["a","b"]"#).list(), vec!["a", "b"]);
    let many = of(r#"["a","","b"]"#);
    assert_eq!(many.list(), vec!["a", "b"]);
    assert_eq!(many.raw_len(), 3);
    assert!(of("{}").list().is_empty());
    assert_eq!(of("{}").raw_len(), 0);
}

#[test]
fn logprobs_accepts_bool_and_count() {
    let of = |raw: &str| logprobs(&Json::parse(raw).unwrap());
    assert!(!of("false").wants());
    assert!(of("true").wants());
    assert!(of("3").wants());
    assert!(!of("0").wants());
    assert!(!of(r#""nope""#).wants());
}

#[test]
fn stream_options_and_response_format_parse() {
    let req = parsed(
        r#"{"messages":[],"stream":true,"stream_options":{"include_usage":true},
            "response_format":{"type":"json_schema","json_schema":{"name":"x"}}}"#,
    );
    assert!(req.wants_usage_chunk());
    assert_eq!(req.response_format.as_ref().unwrap().kind.as_deref(), Some("json_schema"));
    assert!(req.response_format.as_ref().unwrap().json_schema.is_some());

    let bare = parsed(r#"{"messages":[]}"#);
    assert!(!bare.wants_usage_chunk());
    let off = parsed(r#"{"messages":[],"stream_options":{"include_usage":false}}"#);
    assert!(!off.wants_usage_chunk());
}

#[test]
fn image_parts_counts_every_shape() {
    let count = |content: &str| -> usize {
        message(&Json::parse(&format!(r#"{{"role":"user","content":{content}}}"#)).unwrap())
            .image_parts()
    };
    assert_eq!(count(r#"[{"type":"image_url","image_url":{"url":"data:…"}}]"#), 1);
    assert_eq!(count(r#"[{"type":"input_image","image_url":"data:…"}]"#), 1);
    assert_eq!(count(r#"[{"type":"file","mediaType":"image/png","data":"AAAA"}]"#), 1);
    assert_eq!(count(r#"[{"type":"file","mediaType":"application/pdf"}]"#), 0);
    assert_eq!(count(r#"[{"type":"text","text":"안녕"}]"#), 0);
    assert_eq!(count(r#""그냥 문자열""#), 0);
    assert_eq!(
        count(r#"[{"type":"text","text":"이거 뭐야"},{"type":"image_url","image_url":{}}]"#),
        1
    );
}

#[test]
fn has_text_follows_the_fold_whitespace_rule() {
    let m = |content: &str| -> Message {
        message(&Json::parse(&format!(r#"{{"role":"user","content":{content}}}"#)).unwrap())
    };
    assert!(m(r#""안녕""#).has_text());
    assert!(!m(r#""   ""#).has_text());
    assert!(!m(r#"null"#).has_text());
    assert!(!m(r#"[{"type":"image_url","image_url":{}}]"#).has_text());
    assert!(m(r#"[{"type":"text","text":"안녕"},{"type":"image_url","image_url":{}}]"#).has_text());
}

#[test]
fn new_fields_do_not_break_a_real_request() {
    let req = parsed(
        r#"{"model":"fabrix-chat-4","stream":true,
            "messages":[{"role":"user","content":"hi"}],
            "n":1,"stop":null,"stream_options":null,"user":"kim","logit_bias":null,
            "presence_penalty":0.0,"logprobs":false,"metadata":{"a":1},"store":false,
            "service_tier":"auto","무슨키":"몰라도 통과"}"#,
    );
    assert_eq!(req.n, Some(1));
    assert!(req.stop.is_none());
    assert!(!req.wants_usage_chunk());
    assert_eq!(req.user.as_ref().unwrap().as_text(), Some("kim"));
    assert!(!req.logprobs.as_ref().unwrap().wants());
}

#[test]
fn explicit_nulls_do_not_break_parsing() {
    let req = parsed(
        r#"{"model":"m","tools":null,"tool_choice":null,
            "messages":[{"role":"user","content":"hi","tool_calls":null}]}"#,
    );
    assert!(req.declared_tools().is_empty());
    assert!(!req.wants_tools());
    assert!(req.messages[0].tool_calls().is_empty());
}

#[test]
fn legacy_functions_are_treated_as_tools() {
    let req =
        parsed(r#"{"functions":[{"name":"calc","description":"do math"}],"messages":[]}"#);
    assert_eq!(req.declared_tools().len(), 1);
    assert_eq!(req.declared_tools()[0].name, "calc");
    assert!(req.wants_tools());
}

#[test]
fn nameless_tools_are_ignored() {
    let req = parsed(r#"{"tools":[{"type":"function","function":{"name":"  "}}]}"#);
    assert!(req.declared_tools().is_empty());
    assert!(!req.wants_tools());
}

#[test]
fn arguments_accepts_string_and_object() {
    let of = |raw: &str| tool_call(&Json::parse(raw).unwrap());
    let s = of(r#"{"id":"c1","type":"function","function":{"name":"w","arguments":"{\"a\":1}"}}"#);
    let o = of(r#"{"id":"c1","type":"function","function":{"name":"w","arguments":{"a":1}}}"#);
    assert_eq!(s.function.arguments, r#"{"a":1}"#);
    assert_eq!(o.function.arguments, r#"{"a":1}"#);

    let n = of(r#"{"id":"c1","function":{"name":"w","arguments":null}}"#);
    assert_eq!(n.function.arguments, "{}");
    assert_eq!(n.kind, "function");
}

#[test]
fn tool_choice_untagged_covers_every_shape() {
    let mode = |raw: &str| tool_choice(&Json::parse(raw).unwrap()).mode();
    assert_eq!(mode(r#""auto""#), ToolChoiceMode::Auto);
    assert_eq!(mode(r#""none""#), ToolChoiceMode::Off);
    assert_eq!(mode(r#""required""#), ToolChoiceMode::Required);
    assert_eq!(mode(r#""ANY""#), ToolChoiceMode::Required);
    assert_eq!(
        mode(r#"{"type":"function","function":{"name":"write"}}"#),
        ToolChoiceMode::Function("write".into())
    );
    assert_eq!(mode("12345"), ToolChoiceMode::Auto);
}

#[test]
fn tool_choice_none_disables_emulation() {
    let req = parsed(
        r#"{"tools":[{"type":"function","function":{"name":"write"}}],"tool_choice":"none"}"#,
    );
    assert_eq!(req.declared_tools().len(), 1);
    assert!(!req.wants_tools());
}

#[test]
fn ai_sdk_tool_result_parts_fall_back_to_raw_json() {
    let m = message(
        &Json::parse(
            r#"{"role":"tool","tool_call_id":"c1",
                "content":[{"type":"tool-result","output":{"ok":true}}]}"#,
        )
        .unwrap(),
    );
    assert!(m.text().is_empty());
    let body = m.tool_result_text();
    assert!(body.contains("tool-result"), "got {body}");
    assert!(body.contains("\"ok\":true"), "got {body}");
}

#[test]
fn text_parts_still_win_over_raw_json() {
    let m = message(
        &Json::parse(
            r#"{"role":"user","content":[{"type":"text","text":"안녕"},
                                        {"type":"image_url","image_url":{"url":"data:…"}}]}"#,
        )
        .unwrap(),
    );
    assert_eq!(m.text(), "안녕");
    assert_eq!(m.tool_result_text(), "안녕");
}

#[test]
fn tool_call_delta_matches_the_openai_wire_shape() {
    let d = ToolCallDelta::whole(0, "call_x", "read", r#"{"filePath":"a"}"#);
    assert_eq!(d.index, 0);
    assert_eq!(d.id.as_deref(), Some("call_x"));
    assert_eq!(d.kind, Some("function"));
    let f = d.function.unwrap();
    assert_eq!(f.name.as_deref(), Some("read"));
    assert_eq!(f.arguments.as_deref(), Some(r#"{"filePath":"a"}"#));
}

fn check(body: &str) -> Result<Plan, Invalid> {
    let raw = Json::parse(body).unwrap();
    plan(&request(&raw), &raw)
}

fn err(body: &str) -> Invalid {
    check(body).expect_err("400 이 나야 합니다")
}

fn assert_400(body: &str, code: &str, param: &str) {
    let e = err(body);
    assert_eq!(e.status, 400, "{body}");
    assert_eq!(e.code, code, "{body}");
    assert_eq!(e.param.as_deref(), Some(param), "{body}");
}

const USER: &str = r#"{"role":"user","content":"안녕"}"#;

#[test]
fn messages_must_be_present_and_non_empty() {
    assert_400(r#"{"model":"m"}"#, "missing_required_parameter", "messages");
    assert_400(r#"{"model":"m","messages":[]}"#, "invalid_value", "messages");
}

#[test]
fn unknown_and_empty_roles_are_rejected() {
    assert_400(
        r#"{"messages":[{"role":"보스","content":"hi"}]}"#,
        "invalid_value",
        "messages[0].role",
    );
    assert_400(
        r#"{"messages":[{"role":"","content":"hi"}]}"#,
        "invalid_value",
        "messages[0].role",
    );
}

#[test]
fn missing_content_is_rejected_except_for_tool_only_assistant_turns() {
    assert_400(
        r#"{"messages":[{"role":"user"}]}"#,
        "missing_required_parameter",
        "messages[0].content",
    );
    assert!(check(
        r#"{"messages":[{"role":"user","content":"hi"},
            {"role":"assistant","content":null,
             "tool_calls":[{"id":"c1","type":"function",
                            "function":{"name":"w","arguments":"{}"}}]},
            {"role":"tool","tool_call_id":"c1","content":"ok"}]}"#
    )
    .is_ok());
}

#[test]
fn tool_results_need_an_id_or_a_name() {
    assert_400(
        &format!(r#"{{"messages":[{USER},{{"role":"tool","content":"ok"}}]}}"#),
        "missing_required_parameter",
        "messages[1].tool_call_id",
    );
    assert!(check(&format!(
        r#"{{"messages":[{USER},{{"role":"function","name":"calc","content":"3"}}]}}"#
    ))
    .is_ok());
}

#[test]
fn numeric_ranges_are_enforced() {
    assert_400(&format!(r#"{{"messages":[{USER}],"temperature":5}}"#), "invalid_value", "temperature");
    assert_400(&format!(r#"{{"messages":[{USER}],"temperature":-0.1}}"#), "invalid_value", "temperature");
    assert_400(&format!(r#"{{"messages":[{USER}],"top_p":1.5}}"#), "invalid_value", "top_p");
    assert_400(&format!(r#"{{"messages":[{USER}],"presence_penalty":3}}"#), "invalid_value", "presence_penalty");
    assert_400(&format!(r#"{{"messages":[{USER}],"frequency_penalty":-9}}"#), "invalid_value", "frequency_penalty");
    assert_400(&format!(r#"{{"messages":[{USER}],"max_tokens":0}}"#), "invalid_value", "max_tokens");
    assert!(check(&format!(r#"{{"messages":[{USER}],"temperature":0,"top_p":1}}"#)).is_ok());
    assert!(check(&format!(r#"{{"messages":[{USER}],"temperature":2,"top_p":0}}"#)).is_ok());
}

#[test]
fn n_greater_than_one_is_rejected_but_one_passes() {
    assert_400(&format!(r#"{{"messages":[{USER}],"n":2}}"#), "unsupported_value", "n");
    assert_400(&format!(r#"{{"messages":[{USER}],"n":0}}"#), "invalid_value", "n");
    assert!(check(&format!(r#"{{"messages":[{USER}],"n":1}}"#)).is_ok());
}

#[test]
fn stop_is_capped_at_four() {
    assert_400(&format!(r#"{{"messages":[{USER}],"stop":["1","2","3","4","5"]}}"#), "invalid_value", "stop");
    assert!(check(&format!(r#"{{"messages":[{USER}],"stop":["1","2","3","4"]}}"#)).is_ok());
}

#[test]
fn logprobs_is_rejected_loudly() {
    assert_400(&format!(r#"{{"messages":[{USER}],"logprobs":true}}"#), "unsupported_value", "logprobs");
    assert_400(&format!(r#"{{"messages":[{USER}],"top_logprobs":3}}"#), "invalid_value", "top_logprobs");
    assert_400(&format!(r#"{{"messages":[{USER}],"top_logprobs":99}}"#), "invalid_value", "top_logprobs");
    assert!(check(&format!(r#"{{"messages":[{USER}],"logprobs":false}}"#)).is_ok());
}

#[test]
fn response_format_shapes_are_checked() {
    assert_400(
        &format!(r#"{{"messages":[{USER}],"response_format":{{"type":"xml"}}}}"#),
        "invalid_value",
        "response_format.type",
    );
    assert_400(
        &format!(r#"{{"messages":[{USER}],"response_format":{{"type":"json_schema"}}}}"#),
        "missing_required_parameter",
        "response_format.json_schema",
    );
    assert!(check(&format!(r#"{{"messages":[{USER}],"response_format":{{"type":"text"}}}}"#)).is_ok());
}

#[test]
fn stream_options_requires_streaming() {
    assert_400(
        &format!(r#"{{"messages":[{USER}],"stream_options":{{"include_usage":true}}}}"#),
        "invalid_value",
        "stream_options",
    );
    let ok = check(&format!(
        r#"{{"messages":[{USER}],"stream":true,"stream_options":{{"include_usage":true}}}}"#
    ))
    .unwrap();
    assert!(ok.include_usage);
}

#[test]
fn image_only_requests_are_rejected_but_image_plus_text_passes() {
    assert_400(
        r#"{"messages":[{"role":"user","content":[{"type":"image_url","image_url":{"url":"data:…"}}]}]}"#,
        "unsupported_content",
        "messages[0].content",
    );
    let ok = check(
        r#"{"messages":[{"role":"user","content":[
            {"type":"text","text":"이거 뭐야"},
            {"type":"image_url","image_url":{"url":"data:…"}}]}]}"#,
    )
    .unwrap();
    assert_eq!(ok.images_dropped, 1);
}

#[test]
fn ignored_fields_are_listed_not_rejected() {
    let ok = check(&format!(
        r#"{{"messages":[{USER}],"stop":["끝"],"presence_penalty":0.5,
            "logit_bias":{{"1":1}},"user":"kim","parallel_tool_calls":true,
            "metadata":{{"a":1}},"store":true,"service_tier":"auto",
            "response_format":{{"type":"json_object"}}}}"#
    ))
    .unwrap();
    assert_eq!(
        ok.ignored,
        vec![
            "stop",
            "presence_penalty",
            "logit_bias",
            "user",
            "response_format",
            "parallel_tool_calls",
            "metadata",
            "store",
            "service_tier",
        ]
    );
}

#[test]
fn explicit_nulls_and_text_format_are_not_reported_as_ignored() {
    let ok = check(&format!(
        r#"{{"messages":[{USER}],"stop":null,"logit_bias":null,"user":null,
            "response_format":{{"type":"text"}},"metadata":null}}"#
    ))
    .unwrap();
    assert!(ok.ignored.is_empty(), "{:?}", ok.ignored);
}

#[test]
fn unknown_keys_are_reported_not_rejected() {
    let ok = check(&format!(r#"{{"messages":[{USER}],"래빗홀":1,"foo":"bar"}}"#)).unwrap();
    assert_eq!(ok.unknown.len(), 2);
    assert!(ok.unknown.contains(&"foo".to_string()));
    assert!(ok.unknown.contains(&"래빗홀".to_string()));
}

#[test]
fn real_client_requests_pass() {
    assert!(check(
        r#"{"model":"fabrix-chat-4","stream":true,
            "messages":[{"role":"system","content":"you are a coding agent"},
                        {"role":"user","content":"make a page"},
                        {"role":"assistant","content":null,"tool_calls":[
                          {"id":"call_a1","type":"function",
                           "function":{"name":"write","arguments":"{\"filePath\":\"a.html\"}"}}]},
                        {"role":"tool","tool_call_id":"call_a1","content":"wrote 12 bytes"}],
            "tools":[{"type":"function","function":{"name":"write"}}],
            "tool_choice":"auto","parallel_tool_calls":true}"#
    )
    .is_ok());

    assert!(check(
        r#"{"model":"fabrix-code","stream":true,"temperature":0,"max_tokens":256,
            "stop":["\n\n","```"],
            "messages":[{"role":"user","content":"complete this"}]}"#
    )
    .is_ok());
}

#[test]
fn envelope_carries_param_and_code() {
    let env = err(&format!(r#"{{"messages":[{USER}],"temperature":5}}"#)).envelope();
    assert_eq!(env.error.kind, "invalid_request_error");
    assert_eq!(env.error.code.as_deref(), Some("invalid_value"));
    assert_eq!(env.error.param.as_deref(), Some("temperature"));
    assert!(env.error.message.contains("temperature"));
}

#[test]
fn a_written_size_is_read_back() {
    for (w, h) in [(1, 1), (10, 999), (1024, 768), (u32::MAX, 1)] {
        assert_eq!(parse_size(&format!("{w}x{h}")), Some((w, h)));
    }
}
