//! What is checked of a chat request before anything is sent on.
//!
//! Some things are left alone on purpose: tools without a name are passed over, a
//! tool choice may name a tool that is not declared, and keys that are not known are
//! only noted.

use vstd::prelude::*;
use vstd::string::*;

use crate::json::{keys_of, Json, JsonView};
use crate::number::{Mark, Real};
use crate::openai::{
    image_count, opt_text, seq_of, ChatRequest, ErrorEnvelope, LogProbsFlag, Message, Stop,
};
use crate::text::{blank, dec, dec_u64, same, trim, trimmed, views};

use super::envelope::{openai_type, type_view};
use super::fabrix::str_views;

verus! {

/// What is known of a request that passed.
#[derive(Debug)]
pub struct Plan {
    /// A usage chunk goes at the end of the stream.
    pub include_usage: bool,
    /// How many image parts are left out.
    pub images_dropped: usize,
    /// The fields that the gateway has no place for.
    pub ignored: Vec<&'static str>,
    /// The keys that are not known.
    pub unknown: Vec<String>,
}

impl Default for Plan {
    fn default() -> (r: Plan)
        ensures
            !r.include_usage,
            r.images_dropped == 0,
            r.ignored@.len() == 0,
            r.unknown@.len() == 0,
    {
        Plan { include_usage: false, images_dropped: 0, ignored: Vec::new(), unknown: Vec::new() }
    }
}

/// A request that is refused.
#[derive(Debug)]
pub struct Invalid {
    pub status: u16,
    pub message: String,
    pub code: &'static str,
    pub param: Option<String>,
}

/// What is wrong with a request.
pub struct Fault {
    pub message: Seq<char>,
    pub code: Seq<char>,
    pub param: Seq<char>,
}

impl Invalid {
    pub open spec fn tells(self, f: Fault) -> bool {
        &&& self.status == 400
        &&& self.message@ == f.message
        &&& self.code@ == f.code
        &&& opt_text(self.param) == Some(f.param)
    }

    fn new(message: String, code: &'static str, param: String) -> (r: Self)
        ensures
            r.tells(Fault { message: message@, code: code@, param: param@ }),
    {
        Invalid { status: 400, message, code, param: Some(param) }
    }

    pub fn envelope(&self) -> (r: ErrorEnvelope)
        ensures
            r.says(
                self.message@,
                type_view(self.status),
                opt_text(self.param),
                Some(self.code@),
            ),
    {
        let env = ErrorEnvelope::new(
            self.message.clone(),
            openai_type(self.status),
            Some(self.code.to_owned()),
        );
        match &self.param {
            Some(p) => env.with_param(p.clone()),
            None => env,
        }
    }

    /// The line for the log.
    pub fn note(&self) -> (r: String)
        ensures
            r@ == match self.param {
                Some(p) => "잘못된 요청 · "@ + p@,
                None => "잘못된 요청"@,
            },
    {
        match &self.param {
            Some(p) => "잘못된 요청 · ".to_owned().concat(p.as_str()),
            None => "잘못된 요청".to_owned(),
        }
    }
}

// ───────────────────────── keys ─────────────────────────

/// The keys that a chat request may have.
pub open spec fn known_keys() -> Seq<Seq<char>> {
    seq![
        "model"@,
        "messages"@,
        "stream"@,
        "stream_options"@,
        "temperature"@,
        "top_p"@,
        "top_k"@,
        "n"@,
        "stop"@,
        "max_tokens"@,
        "max_completion_tokens"@,
        "seed"@,
        "frequency_penalty"@,
        "presence_penalty"@,
        "logit_bias"@,
        "logprobs"@,
        "top_logprobs"@,
        "user"@,
        "response_format"@,
        "tools"@,
        "tool_choice"@,
        "parallel_tool_calls"@,
        "functions"@,
        "function_call"@,
        "metadata"@,
        "store"@,
        "service_tier"@,
    ]
}

fn known_key_texts() -> (r: Vec<&'static str>)
    ensures
        str_views(r@) == known_keys(),
{
    let mut keys: Vec<&'static str> = Vec::new();
    keys.push("model");
    keys.push("messages");
    keys.push("stream");
    keys.push("stream_options");
    keys.push("temperature");
    keys.push("top_p");
    keys.push("top_k");
    keys.push("n");
    keys.push("stop");
    keys.push("max_tokens");
    keys.push("max_completion_tokens");
    keys.push("seed");
    keys.push("frequency_penalty");
    keys.push("presence_penalty");
    keys.push("logit_bias");
    keys.push("logprobs");
    keys.push("top_logprobs");
    keys.push("user");
    keys.push("response_format");
    keys.push("tools");
    keys.push("tool_choice");
    keys.push("parallel_tool_calls");
    keys.push("functions");
    keys.push("function_call");
    keys.push("metadata");
    keys.push("store");
    keys.push("service_tier");
    assert(str_views(keys@) =~= known_keys());
    keys
}

fn among(list: &Vec<&'static str>, s: &str) -> (r: bool)
    ensures
        r == str_views(list@).contains(s@),
{
    let mut i: usize = 0;
    while i < list.len()
        invariant
            i <= list@.len(),
            forall|k: int| 0 <= k < i ==> (#[trigger] list@[k])@ != s@,
        decreases list@.len() - i,
    {
        if same(list[i], s) {
            assert(str_views(list@)[i as int] == s@);
            return true;
        }
        i += 1;
    }
    assert forall|k: int| 0 <= k < str_views(list@).len() implies str_views(list@)[k] != s@ by {
        assert(list@[k]@ != s@);
    }
    false
}

/// The keys that are not known, in order.
pub open spec fn strange_keys(keys: Seq<Seq<char>>) -> Seq<Seq<char>> {
    keys.filter(|k: Seq<char>| !known_keys().contains(k))
}

fn unknown_keys(raw: &Json) -> (r: Vec<String>)
    ensures
        views(r@) == strange_keys(keys_of(*raw)),
{
    let mut out: Vec<String> = Vec::new();
    assert(views(out@) =~= seq![]);
    match raw {
        Json::Object(list) => {
            let known = known_key_texts();
            let ghost all = keys_of(*raw);
            let mut i: usize = 0;
            proof {
                reveal(Seq::filter);
                assert(all.take(0) =~= seq![]);
            }
            while i < list.len()
                invariant
                    i <= list@.len() == all.len(),
                    all == list@.map_values(|e: (String, Json)| e.0@),
                    str_views(known@) == known_keys(),
                    views(out@) == strange_keys(all.take(i as int)),
                decreases list@.len() - i,
            {
                proof {
                    reveal(Seq::filter);
                    assert(all.take(i + 1).drop_last() =~= all.take(i as int));
                    assert(all.take(i + 1).last() == list@[i as int].0@);
                }
                if !among(&known, list[i].0.as_str()) {
                    let ghost before = out@;
                    out.push(list[i].0.clone());
                    assert(views(out@) =~= views(before).push(list@[i as int].0@));
                }
                i += 1;
            }
            assert(all.take(all.len() as int) =~= all);
        },
        _ => {
            reveal(Seq::filter);
        },
    }
    out
}

// ───────────────────────── messages ─────────────────────────

pub open spec fn known_role(role: Seq<char>) -> bool {
    role == "system"@ || role == "developer"@ || role == "user"@ || role == "assistant"@ || role
        == "tool"@ || role == "function"@
}

pub open spec fn at_message(i: nat, tail: Seq<char>) -> Seq<char> {
    "messages["@ + dec(i) + tail
}

/// What is wrong with the `i`-th message.
pub open spec fn message_fault(i: nat, m: Message) -> Option<Fault> {
    let role = trim(m.role@);
    if !known_role(role) {
        Some(
            Fault {
                message: at_message(i, "].role '"@) + (if role.len() == 0 {
                    "(빈 값)"@
                } else {
                    role
                }) + "' 은 알 수 없는 롤입니다."@,
                code: "invalid_value"@,
                param: at_message(i, "].role"@),
            },
        )
    } else if m.content is None && !(role == "assistant"@ && seq_of(m.tool_calls).len() > 0) {
        Some(
            Fault {
                message: at_message(i, "].content 가 없습니다."@),
                code: "missing_required_parameter"@,
                param: at_message(i, "].content"@),
            },
        )
    } else if (role == "tool"@ || role == "function"@) && m.tool_call_id is None && m.name is None {
        Some(
            Fault {
                message: at_message(
                    i,
                    "] 은 tool_call_id 또는 name 이 있어야 어느 호출의 결과인지 알 수 있습니다."@,
                ),
                code: "missing_required_parameter"@,
                param: at_message(i, "].tool_call_id"@),
            },
        )
    } else {
        None
    }
}

/// The first thing that is wrong with one of the messages from the `i`-th on.
pub open spec fn messages_fault(messages: Seq<Message>, i: nat) -> Option<Fault>
    decreases messages.len() - i,
{
    if i >= messages.len() {
        None
    } else if message_fault(i, messages[i as int]) is Some {
        message_fault(i, messages[i as int])
    } else {
        messages_fault(messages, i + 1)
    }
}

fn message_place(i: usize, tail: &str) -> (r: String)
    ensures
        r@ == at_message(i as nat, tail@),
{
    let mut out = "messages[".to_owned();
    out.append(dec_u64(i as u64).as_str());
    out.append(tail);
    out
}

fn check_message(i: usize, m: &Message) -> (r: Result<(), Invalid>)
    ensures
        match r {
            Ok(()) => message_fault(i as nat, *m) is None,
            Err(e) => message_fault(i as nat, *m) matches Some(f) && e.tells(f),
        },
{
    let role = trimmed(m.role.as_str());
    let known = same(role, "system") || same(role, "developer") || same(role, "user") || same(
        role,
        "assistant",
    ) || same(role, "tool") || same(role, "function");
    if !known {
        let mut message = message_place(i, "].role '");
        if role.is_empty() {
            message.append("(빈 값)");
        } else {
            message.append(role);
        }
        message.append("' 은 알 수 없는 롤입니다.");
        return Err(Invalid::new(message, "invalid_value", message_place(i, "].role")));
    }
    let exempt = same(role, "assistant") && m.tool_calls().len() > 0;
    if m.content.is_none() && !exempt {
        return Err(
            Invalid::new(
                message_place(i, "].content 가 없습니다."),
                "missing_required_parameter",
                message_place(i, "].content"),
            ),
        );
    }
    if (same(role, "tool") || same(role, "function")) && m.tool_call_id.is_none()
        && m.name.is_none() {
        return Err(
            Invalid::new(
                message_place(
                    i,
                    "] 은 tool_call_id 또는 name 이 있어야 어느 호출의 결과인지 알 수 있습니다.",
                ),
                "missing_required_parameter",
                message_place(i, "].tool_call_id"),
            ),
        );
    }
    Ok(())
}

/// How many image parts the messages hold, as a machine word.
pub open spec fn images_in(messages: Seq<Message>) -> usize
    decreases messages.len(),
{
    if messages.len() == 0 {
        0
    } else {
        images_in(messages.drop_last()).wrapping_add(image_count(messages.last().parts()) as usize)
    }
}

/// One of the messages has text.
pub open spec fn some_text(messages: Seq<Message>) -> bool {
    exists|i: int| 0 <= i < messages.len() && !blank((#[trigger] messages[i]).text_view())
}

fn count_images(messages: &Vec<Message>) -> (r: usize)
    ensures
        r == images_in(messages@),
{
    let mut total: usize = 0;
    let mut i: usize = 0;
    assert(messages@.take(0) =~= seq![]);
    while i < messages.len()
        invariant
            i <= messages@.len(),
            total == images_in(messages@.take(i as int)),
        decreases messages@.len() - i,
    {
        proof {
            assert(messages@.take(i + 1).drop_last() =~= messages@.take(i as int));
        }
        total = total.wrapping_add(messages[i].image_parts());
        i += 1;
    }
    assert(messages@.take(messages@.len() as int) =~= messages@);
    total
}

fn any_text(messages: &Vec<Message>) -> (r: bool)
    ensures
        r == some_text(messages@),
{
    let mut i: usize = 0;
    while i < messages.len()
        invariant
            i <= messages@.len(),
            forall|k: int| 0 <= k < i ==> blank((#[trigger] messages@[k]).text_view()),
        decreases messages@.len() - i,
    {
        if messages[i].has_text() {
            return true;
        }
        i += 1;
    }
    false
}

// ───────────────────────── numbers ─────────────────────────

pub open spec fn range_fault(value: Option<Real>, lo: Mark, hi: Mark, param: Seq<char>) -> Option<
    Fault,
> {
    match value {
        Some(v) => if v.within(lo, hi) {
            None
        } else {
            Some(
                Fault {
                    message: param + " 은 "@ + lo.shown() + "–"@ + hi.shown()
                        + " 사이여야 합니다 (받은 값: "@ + v.shown@ + ")."@,
                    code: "invalid_value"@,
                    param,
                },
            )
        },
        None => None,
    }
}

fn range(value: &Option<Real>, lo: Mark, hi: Mark, param: &'static str) -> (r: Result<(), Invalid>)
    ensures
        match r {
            Ok(()) => range_fault(*value, lo, hi, param@) is None,
            Err(e) => range_fault(*value, lo, hi, param@) matches Some(f) && e.tells(f),
        },
{
    match value {
        Some(v) => {
            if v.is_within(lo, hi) {
                return Ok(());
            }
            let mut message = param.to_owned();
            message.append(" 은 ");
            message.append(lo.text());
            message.append("–");
            message.append(hi.text());
            message.append(" 사이여야 합니다 (받은 값: ");
            message.append(v.shown.as_str());
            message.append(").");
            Err(Invalid::new(message, "invalid_value", param.to_owned()))
        },
        None => Ok(()),
    }
}

pub open spec fn positive_fault(value: Option<u32>, param: Seq<char>) -> Option<Fault> {
    if value == Some(0u32) {
        Some(
            Fault {
                message: param + " 은 1 이상이어야 합니다."@,
                code: "invalid_value"@,
                param,
            },
        )
    } else {
        None
    }
}

fn positive(value: Option<u32>, param: &'static str) -> (r: Result<(), Invalid>)
    ensures
        match r {
            Ok(()) => positive_fault(value, param@) is None,
            Err(e) => positive_fault(value, param@) matches Some(f) && e.tells(f),
        },
{
    match value {
        Some(v) => {
            if v == 0 {
                return Err(
                    Invalid::new(
                        param.to_owned().concat(" 은 1 이상이어야 합니다."),
                        "invalid_value",
                        param.to_owned(),
                    ),
                );
            }
            Ok(())
        },
        None => Ok(()),
    }
}

// ───────────────────────── the plan ─────────────────────────

pub open spec fn or_else(a: Option<Fault>, b: Option<Fault>) -> Option<Fault> {
    if a is Some {
        a
    } else {
        b
    }
}

pub open spec fn fault_if(bad: bool, message: Seq<char>, code: Seq<char>, param: Seq<char>) -> Option<
    Fault,
> {
    if bad {
        Some(Fault { message, code, param })
    } else {
        None
    }
}

/// What is wrong with the conversation.
pub open spec fn conversation_fault(req: ChatRequest, raw: JsonView) -> Option<Fault> {
    or_else(
        fault_if(
            raw.get("messages"@) is None,
            "messages 는 필수입니다."@,
            "missing_required_parameter"@,
            "messages"@,
        ),
        or_else(
            fault_if(
                req.messages@.len() == 0,
                "messages 가 비어 있습니다. 최소 한 개의 메시지가 필요합니다."@,
                "invalid_value"@,
                "messages"@,
            ),
            or_else(
                messages_fault(req.messages@, 0),
                fault_if(
                    images_in(req.messages@) > 0 && !some_text(req.messages@),
                    "이미지만 있는 요청은 사내 채팅 API 가 받지 못합니다. 텍스트를 함께 보내거나 이미지 편집은 /v1/images/edits 를 쓰세요."@,
                    "unsupported_content"@,
                    "messages[0].content"@,
                ),
            ),
        ),
    )
}

/// What is wrong with the numbers.
pub open spec fn number_fault(req: ChatRequest) -> Option<Fault> {
    or_else(
        range_fault(req.temperature, Mark::Zero, Mark::Two, "temperature"@),
        or_else(
            range_fault(req.top_p, Mark::Zero, Mark::One, "top_p"@),
            or_else(
                range_fault(
                    req.frequency_penalty,
                    Mark::MinusTwo,
                    Mark::Two,
                    "frequency_penalty"@,
                ),
                or_else(
                    range_fault(
                        req.presence_penalty,
                        Mark::MinusTwo,
                        Mark::Two,
                        "presence_penalty"@,
                    ),
                    or_else(
                        positive_fault(req.max_tokens, "max_tokens"@),
                        or_else(
                            positive_fault(req.max_completion_tokens, "max_completion_tokens"@),
                            match req.n {
                                Some(n) => or_else(
                                    fault_if(
                                        n < 1,
                                        "n 은 1 이상이어야 합니다."@,
                                        "invalid_value"@,
                                        "n"@,
                                    ),
                                    fault_if(
                                        n > 1,
                                        "n>1 은 지원하지 않습니다 — 사내 API 에 대응 필드가 없습니다. n 을 빼거나 1 로 보내세요."@,
                                        "unsupported_value"@,
                                        "n"@,
                                    ),
                                ),
                                None => None,
                            },
                        ),
                    ),
                ),
            ),
        ),
    )
}

pub open spec fn stop_count(stop: Option<Stop>) -> int {
    match stop {
        Some(Stop::One(_)) => 1,
        Some(Stop::Many(v)) => v@.len() as int,
        _ => 0,
    }
}

pub open spec fn wants_logprobs(flag: Option<LogProbsFlag>) -> bool {
    match flag {
        Some(LogProbsFlag::Flag(b)) => b,
        Some(LogProbsFlag::Count(n)) => n > 0,
        _ => false,
    }
}

/// The kind of response format that is asked for.
pub open spec fn format_kind(req: ChatRequest) -> Seq<char> {
    match req.response_format {
        Some(f) => match f.kind {
            Some(k) => k@,
            None => "text"@,
        },
        None => "text"@,
    }
}

/// A response format is asked for without a schema.
pub open spec fn schema_missing(req: ChatRequest) -> bool {
    req.response_format matches Some(f) && f.json_schema is None
}

/// What is wrong with the rest.
pub open spec fn option_fault(req: ChatRequest) -> Option<Fault> {
    let kind = format_kind(req);
    or_else(
        fault_if(
            stop_count(req.stop) > 4,
            "stop 은 최대 4개까지입니다."@,
            "invalid_value"@,
            "stop"@,
        ),
        or_else(
            fault_if(
                wants_logprobs(req.logprobs),
                "logprobs 는 지원하지 않습니다 — 사내 API 가 토큰 확률을 주지 않습니다."@,
                "unsupported_value"@,
                "logprobs"@,
            ),
            or_else(
                match req.top_logprobs {
                    Some(top) => or_else(
                        fault_if(
                            top > 20,
                            "top_logprobs 는 0–20 사이여야 합니다."@,
                            "invalid_value"@,
                            "top_logprobs"@,
                        ),
                        fault_if(
                            true,
                            "top_logprobs 는 logprobs: true 와 함께만 쓸 수 있고, logprobs 는 지원하지 않습니다."@,
                            "invalid_value"@,
                            "top_logprobs"@,
                        ),
                    ),
                    None => None,
                },
                or_else(
                    fault_if(
                        kind != "text"@ && kind != "json_object"@ && kind != "json_schema"@,
                        "response_format.type '"@ + kind + "' 은 알 수 없는 값입니다."@,
                        "invalid_value"@,
                        "response_format.type"@,
                    ),
                    or_else(
                        fault_if(
                            kind == "json_schema"@ && schema_missing(req),
                            "response_format.type 이 json_schema 이면 json_schema 가 필요합니다."@,
                            "missing_required_parameter"@,
                            "response_format.json_schema"@,
                        ),
                        fault_if(
                            req.stream_options is Some && !req.streams(),
                            "stream_options 는 stream: true 일 때만 쓸 수 있습니다."@,
                            "invalid_value"@,
                            "stream_options"@,
                        ),
                    ),
                ),
            ),
        ),
    )
}

/// The first thing that is wrong with a request. `raw` is the request as it came.
pub open spec fn request_fault(req: ChatRequest, raw: JsonView) -> Option<Fault> {
    or_else(conversation_fault(req, raw), or_else(number_fault(req), option_fault(req)))
}

/// A value that was sent and is not null.
pub open spec fn sent(v: Option<Json>) -> bool {
    v matches Some(j) && !(j@ is Null)
}

pub open spec fn note_if(list: Seq<Seq<char>>, present: bool, name: Seq<char>) -> Seq<Seq<char>> {
    if present {
        list.push(name)
    } else {
        list
    }
}

/// The fields that were sent and that the gateway has no place for.
pub open spec fn left_out(req: ChatRequest) -> Seq<Seq<char>> {
    let a = note_if(
        seq![],
        req.stop matches Some(s) && s.sequences().len() > 0,
        "stop"@,
    );
    let b = note_if(a, req.presence_penalty is Some, "presence_penalty"@);
    let c = note_if(b, sent(req.logit_bias), "logit_bias"@);
    let d = note_if(c, sent(req.user), "user"@);
    let e = note_if(d, format_kind(req) != "text"@, "response_format"@);
    let f = note_if(e, req.parallel_tool_calls is Some, "parallel_tool_calls"@);
    let g = note_if(f, sent(req.metadata), "metadata"@);
    let h = note_if(g, sent(req.store), "store"@);
    note_if(h, sent(req.service_tier), "service_tier"@)
}

fn was_sent(v: &Option<Json>) -> (r: bool)
    ensures
        r == sent(*v),
{
    match v {
        Some(j) => match j {
            Json::Null => false,
            _ => true,
        },
        None => false,
    }
}

fn note_field(list: &mut Vec<&'static str>, present: bool, name: &'static str)
    ensures
        str_views(final(list)@) == note_if(str_views(old(list)@), present, name@),
{
    if present {
        let ghost before = list@;
        list.push(name);
        assert(str_views(list@) =~= str_views(before).push(name@));
    }
}

fn kind_of(req: &ChatRequest) -> (r: &str)
    ensures
        r@ == format_kind(*req),
{
    match &req.response_format {
        Some(f) => match &f.kind {
            Some(k) => k.as_str(),
            None => "text",
        },
        None => "text",
    }
}

fn ignored_fields(req: &ChatRequest) -> (r: Vec<&'static str>)
    ensures
        str_views(r@) == left_out(*req),
{
    let mut out: Vec<&'static str> = Vec::new();
    assert(str_views(out@) =~= seq![]);
    let stops = match &req.stop {
        Some(s) => {
            let list = s.list();
            assert(views(list@).len() == list@.len());
            list.len() > 0
        },
        None => false,
    };
    note_field(&mut out, stops, "stop");
    note_field(&mut out, req.presence_penalty.is_some(), "presence_penalty");
    note_field(&mut out, was_sent(&req.logit_bias), "logit_bias");
    note_field(&mut out, was_sent(&req.user), "user");
    note_field(&mut out, !same(kind_of(req), "text"), "response_format");
    note_field(&mut out, req.parallel_tool_calls.is_some(), "parallel_tool_calls");
    note_field(&mut out, was_sent(&req.metadata), "metadata");
    note_field(&mut out, was_sent(&req.store), "store");
    note_field(&mut out, was_sent(&req.service_tier), "service_tier");
    out
}

fn invalid(message: &str, code: &'static str, param: &str) -> (r: Invalid)
    ensures
        r.tells(Fault { message: message@, code: code@, param: param@ }),
{
    Invalid::new(message.to_owned(), code, param.to_owned())
}

fn check_conversation(req: &ChatRequest, raw: &Json) -> (r: Result<(), Invalid>)
    ensures
        match r {
            Ok(()) => conversation_fault(*req, raw@) is None,
            Err(e) => conversation_fault(*req, raw@) matches Some(f) && e.tells(f),
        },
{
    if raw.get("messages").is_none() {
        return Err(
            invalid("messages 는 필수입니다.", "missing_required_parameter", "messages"),
        );
    }
    if req.messages.len() == 0 {
        return Err(
            invalid(
                "messages 가 비어 있습니다. 최소 한 개의 메시지가 필요합니다.",
                "invalid_value",
                "messages",
            ),
        );
    }
    let mut i: usize = 0;
    while i < req.messages.len()
        invariant
            i <= req.messages@.len(),
            req.messages@.len() > 0,
            raw@.get("messages"@) is Some,
            messages_fault(req.messages@, 0) == messages_fault(req.messages@, i as nat),
        decreases req.messages@.len() - i,
    {
        match check_message(i, &req.messages[i]) {
            Ok(()) => {},
            Err(e) => {
                return Err(e);
            },
        }
        i += 1;
    }
    if count_images(&req.messages) > 0 && !any_text(&req.messages) {
        return Err(
            invalid(
                "이미지만 있는 요청은 사내 채팅 API 가 받지 못합니다. 텍스트를 함께 보내거나 이미지 편집은 /v1/images/edits 를 쓰세요.",
                "unsupported_content",
                "messages[0].content",
            ),
        );
    }
    Ok(())
}

fn check_numbers(req: &ChatRequest) -> (r: Result<(), Invalid>)
    ensures
        match r {
            Ok(()) => number_fault(*req) is None,
            Err(e) => number_fault(*req) matches Some(f) && e.tells(f),
        },
{
    match range(&req.temperature, Mark::Zero, Mark::Two, "temperature") {
        Ok(()) => {},
        Err(e) => {
            return Err(e);
        },
    }
    match range(&req.top_p, Mark::Zero, Mark::One, "top_p") {
        Ok(()) => {},
        Err(e) => {
            return Err(e);
        },
    }
    match range(&req.frequency_penalty, Mark::MinusTwo, Mark::Two, "frequency_penalty") {
        Ok(()) => {},
        Err(e) => {
            return Err(e);
        },
    }
    match range(&req.presence_penalty, Mark::MinusTwo, Mark::Two, "presence_penalty") {
        Ok(()) => {},
        Err(e) => {
            return Err(e);
        },
    }
    match positive(req.max_tokens, "max_tokens") {
        Ok(()) => {},
        Err(e) => {
            return Err(e);
        },
    }
    match positive(req.max_completion_tokens, "max_completion_tokens") {
        Ok(()) => {},
        Err(e) => {
            return Err(e);
        },
    }
    match req.n {
        Some(n) => {
            if n < 1 {
                return Err(invalid("n 은 1 이상이어야 합니다.", "invalid_value", "n"));
            }
            if n > 1 {
                return Err(
                    invalid(
                        "n>1 은 지원하지 않습니다 — 사내 API 에 대응 필드가 없습니다. n 을 빼거나 1 로 보내세요.",
                        "unsupported_value",
                        "n",
                    ),
                );
            }
        },
        None => {},
    }
    Ok(())
}

fn check_options(req: &ChatRequest) -> (r: Result<(), Invalid>)
    ensures
        match r {
            Ok(()) => option_fault(*req) is None,
            Err(e) => option_fault(*req) matches Some(f) && e.tells(f),
        },
{
    match &req.stop {
        Some(stop) => {
            if stop.raw_len() > 4 {
                return Err(invalid("stop 은 최대 4개까지입니다.", "invalid_value", "stop"));
            }
        },
        None => {},
    }
    let wants = match &req.logprobs {
        Some(flag) => flag.wants(),
        None => false,
    };
    if wants {
        return Err(
            invalid(
                "logprobs 는 지원하지 않습니다 — 사내 API 가 토큰 확률을 주지 않습니다.",
                "unsupported_value",
                "logprobs",
            ),
        );
    }
    match req.top_logprobs {
        Some(top) => {
            if top > 20 {
                return Err(
                    invalid(
                        "top_logprobs 는 0–20 사이여야 합니다.",
                        "invalid_value",
                        "top_logprobs",
                    ),
                );
            }
            return Err(
                invalid(
                    "top_logprobs 는 logprobs: true 와 함께만 쓸 수 있고, logprobs 는 지원하지 않습니다.",
                    "invalid_value",
                    "top_logprobs",
                ),
            );
        },
        None => {},
    }
    let kind = kind_of(req);
    if !same(kind, "text") && !same(kind, "json_object") && !same(kind, "json_schema") {
        let mut message = "response_format.type '".to_owned();
        message.append(kind);
        message.append("' 은 알 수 없는 값입니다.");
        return Err(
            Invalid::new(message, "invalid_value", "response_format.type".to_owned()),
        );
    }
    let schema_missing = match &req.response_format {
        Some(f) => f.json_schema.is_none(),
        None => false,
    };
    if same(kind, "json_schema") && schema_missing {
        return Err(
            invalid(
                "response_format.type 이 json_schema 이면 json_schema 가 필요합니다.",
                "missing_required_parameter",
                "response_format.json_schema",
            ),
        );
    }
    if req.stream_options.is_some() && !req.is_stream() {
        return Err(
            invalid(
                "stream_options 는 stream: true 일 때만 쓸 수 있습니다.",
                "invalid_value",
                "stream_options",
            ),
        );
    }
    Ok(())
}

/// Checks a request. `raw` is the request as it came; it tells which keys were sent.
pub fn plan(req: &ChatRequest, raw: &Json) -> (r: Result<Plan, Invalid>)
    ensures
        match r {
            Ok(p) => {
                &&& request_fault(*req, raw@) is None
                &&& p.include_usage == req.asks_for_usage()
                &&& p.images_dropped == images_in(req.messages@)
                &&& str_views(p.ignored@) == left_out(*req)
                &&& views(p.unknown@) == strange_keys(keys_of(*raw))
            },
            Err(e) => request_fault(*req, raw@) matches Some(f) && e.tells(f),
        },
{
    match check_conversation(req, raw) {
        Ok(()) => {},
        Err(e) => {
            return Err(e);
        },
    }
    match check_numbers(req) {
        Ok(()) => {},
        Err(e) => {
            return Err(e);
        },
    }
    match check_options(req) {
        Ok(()) => {},
        Err(e) => {
            return Err(e);
        },
    }
    Ok(
        Plan {
            include_usage: req.wants_usage_chunk(),
            images_dropped: count_images(&req.messages),
            ignored: ignored_fields(req),
            unknown: unknown_keys(raw),
        },
    )
}

} // verus!
