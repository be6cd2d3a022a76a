//! Which chat requests are taken, and what is said of those that are not.

use vstd::prelude::*;
use vstd::string::*;

use crate::json::{keys_of, Json, JsonView};
use crate::number::Real;
use crate::openai::{image_count, non_empty, seq_of, ChatRequest, LogProbsFlag, Message, Stop};
use crate::proxy::fabrix::str_views;
use crate::proxy::validate::{
    at_message, images_in, known_keys, message_fault, messages_fault, plan, sent, strange_keys,
    Invalid, Plan,
};
use crate::text::{blank, contains, dec, trim, views};

use super::text::lemma_holds;

verus! {

// ───────────────────────── the parts of a request ─────────────────────────

/// A message that is in order: its role is known, it has a content unless it is an
/// assistant's that calls tools, and a result says whose it is.
pub open spec fn sound(m: Message) -> bool {
    let role = trim(m.role@);
    &&& {
        ||| role == "system"@
        ||| role == "developer"@
        ||| role == "user"@
        ||| role == "assistant"@
        ||| role == "tool"@
        ||| role == "function"@
    }
    &&& m.content is Some || (role == "assistant"@ && seq_of(m.tool_calls).len() > 0)
    &&& role == "tool"@ || role == "function"@ ==> m.tool_call_id is Some || m.name is Some
}

pub open spec fn all_sound(messages: Seq<Message>) -> bool {
    forall|i: int| 0 <= i < messages.len() ==> sound(#[trigger] messages[i])
}

/// How many image parts the messages hold.
pub open spec fn pictures(messages: Seq<Message>) -> nat
    decreases messages.len(),
{
    if messages.len() == 0 {
        0
    } else {
        pictures(messages.drop_last()) + image_count(messages.last().parts())
    }
}

pub open spec fn somebody_says_something(messages: Seq<Message>) -> bool {
    exists|i: int| 0 <= i < messages.len() && !blank((#[trigger] messages[i]).text_view())
}

/// A double-precision number from 0 to the positive number whose bit pattern is `hi`.
/// Zero may have either sign.
pub open spec fn from_zero_to(v: Option<Real>, hi: u64) -> bool {
    v matches Some(x) ==> x.bits <= hi || x.bits == 0x8000_0000_0000_0000
}

/// A double-precision number whose distance from 0 is at most the number with the bit
/// pattern `far`.
pub open spec fn around_zero(v: Option<Real>, far: u64) -> bool {
    v matches Some(x) ==> x.bits <= far || 0x8000_0000_0000_0000 <= x.bits <= 0x8000_0000_0000_0000
        + far
}

pub open spec fn conversation_stands(req: ChatRequest, raw: JsonView) -> bool {
    &&& raw.get("messages"@) is Some
    &&& req.messages@.len() > 0
    &&& all_sound(req.messages@)
    &&& pictures(req.messages@) == 0 || somebody_says_something(req.messages@)
}

/// `0x3ff0…` is 1 and `0x4000…` is 2.
pub open spec fn numbers_stand(req: ChatRequest) -> bool {
    &&& from_zero_to(req.temperature, 0x4000_0000_0000_0000)
    &&& from_zero_to(req.top_p, 0x3ff0_0000_0000_0000)
    &&& around_zero(req.frequency_penalty, 0x4000_0000_0000_0000)
    &&& around_zero(req.presence_penalty, 0x4000_0000_0000_0000)
    &&& req.max_tokens != Some(0u32)
    &&& req.max_completion_tokens != Some(0u32)
    &&& req.n is None || req.n == Some(1u32)
}

pub open spec fn few_stops(req: ChatRequest) -> bool {
    req.stop matches Some(Stop::Many(v)) ==> v@.len() <= 4
}

pub open spec fn no_logprobs(req: ChatRequest) -> bool {
    &&& req.logprobs != Some(LogProbsFlag::Flag(true))
    &&& req.logprobs matches Some(LogProbsFlag::Count(n)) ==> n == 0
}

/// The response format is left open, or it is of a known kind, and one that is to follow
/// a schema has it.
pub open spec fn format_stands(req: ChatRequest) -> bool {
    match req.response_format {
        None => true,
        Some(f) => match f.kind {
            None => true,
            Some(k) => {
                ||| k@ == "text"@
                ||| k@ == "json_object"@
                ||| k@ == "json_schema"@ && f.json_schema is Some
            },
        },
    }
}

/// The request asks for an answer that follows a schema, and there is none.
pub open spec fn schema_forgotten(req: ChatRequest) -> bool {
    req.response_format matches Some(f) && f.json_schema is None && (f.kind matches Some(k) && k@
        == "json_schema"@)
}

pub open spec fn options_stand(req: ChatRequest) -> bool {
    &&& few_stops(req)
    &&& no_logprobs(req)
    &&& req.top_logprobs is None
    &&& format_stands(req)
    &&& req.stream_options is Some ==> req.stream == Some(true)
}

// ───────────────────────── what the checks come to ─────────────────────────

proof fn lemma_sound(i: nat, m: Message)
    ensures
        message_fault(i, m) is None <==> sound(m),
{
}

proof fn lemma_all_sound(messages: Seq<Message>, i: nat)
    ensures
        messages_fault(messages, i) is None <==> forall|k: int|
            i <= k < messages.len() ==> sound(#[trigger] messages[k]),
    decreases messages.len() - i,
{
    if i < messages.len() {
        lemma_sound(i, messages[i as int]);
        lemma_all_sound(messages, i + 1);
        if forall|k: int| i + 1 <= k < messages.len() ==> sound(#[trigger] messages[k]) {
            if sound(messages[i as int]) {
                assert forall|k: int| i <= k < messages.len() implies sound(#[trigger] messages[k]) by {}
            }
        }
    }
}

/// The fault of the first message that is not in order.
proof fn lemma_first_unsound(messages: Seq<Message>, from: nat, i: nat)
    requires
        from <= i < messages.len(),
        !sound(messages[i as int]),
        forall|k: int| from <= k < i ==> sound(#[trigger] messages[k]),
    ensures
        messages_fault(messages, from) == message_fault(i, messages[i as int]),
    decreases i - from,
{
    lemma_sound(from, messages[from as int]);
    if from < i {
        lemma_first_unsound(messages, from + 1, i);
    }
}

proof fn lemma_pictures(messages: Seq<Message>)
    requires
        pictures(messages) <= usize::MAX,
    ensures
        images_in(messages) == pictures(messages),
    decreases messages.len(),
{
    if messages.len() > 0 {
        lemma_pictures(messages.drop_last());
    }
}

proof fn lemma_literals()
    ensures
        "text"@ != "json_schema"@,
        "json_object"@ != "json_schema"@,
        "text"@ != "json_object"@,
        "response_format.json_schema"@ != "response_format.type"@,
        "response_format.json_schema"@ != "stop"@,
        "response_format.json_schema"@ != "logprobs"@,
        "response_format.json_schema"@ != "top_logprobs"@,
        "response_format.json_schema"@ != "stream_options"@,
        "response_format.json_schema"@ != "temperature"@,
        "response_format.json_schema"@ != "top_p"@,
        "response_format.json_schema"@ != "frequency_penalty"@,
        "response_format.json_schema"@ != "presence_penalty"@,
        "response_format.json_schema"@ != "max_tokens"@,
        "response_format.json_schema"@ != "max_completion_tokens"@,
        "response_format.json_schema"@ != "n"@,
        "response_format.json_schema"@ != "messages"@,
        "response_format.json_schema"@ != "messages[0].content"@,
        forall|i: nat, tail: Seq<char>| "response_format.json_schema"@ != #[trigger] at_message(i, tail),
{
    reveal_strlit("text");
    reveal_strlit("json_object");
    reveal_strlit("json_schema");
    reveal_strlit("response_format.json_schema");
    reveal_strlit("response_format.type");
    reveal_strlit("stop");
    reveal_strlit("logprobs");
    reveal_strlit("top_logprobs");
    reveal_strlit("stream_options");
    reveal_strlit("temperature");
    reveal_strlit("top_p");
    reveal_strlit("frequency_penalty");
    reveal_strlit("presence_penalty");
    reveal_strlit("max_tokens");
    reveal_strlit("max_completion_tokens");
    reveal_strlit("n");
    reveal_strlit("messages");
    reveal_strlit("messages[0].content");
    reveal_strlit("messages[");
    let p = "response_format.json_schema"@;
    assert(p.len() == 27);
    assert("json_object"@[5] == 'o' && "json_schema"@[5] == 's');
    assert("text"@.len() == 4 && "json_object"@.len() == 11);
    assert("response_format.type"@.len() == 20 && "stop"@.len() == 4 && "logprobs"@.len() == 8
        && "top_logprobs"@.len() == 12 && "stream_options"@.len() == 14 && "temperature"@.len()
        == 11 && "top_p"@.len() == 5 && "frequency_penalty"@.len() == 17
        && "presence_penalty"@.len() == 16 && "max_tokens"@.len() == 10
        && "max_completion_tokens"@.len() == 21 && "n"@.len() == 1 && "messages"@.len() == 8
        && "messages[0].content"@.len() == 19);
    assert(p[0] == 'r' && "messages["@[0] == 'm');
    assert forall|i: nat, tail: Seq<char>| p != #[trigger] at_message(i, tail) by {
        assert(at_message(i, tail)[0] == 'm');
    }
}

// ───────────────────────── the laws ─────────────────────────

/// A request is taken if and only if its conversation, its numbers and its options are
/// in order.
pub proof fn law_what_is_taken(req: &ChatRequest, raw: &Json, r: Result<Plan, Invalid>)
    requires
        call_ensures(plan, (req, raw), r),
        pictures(req.messages@) <= usize::MAX,
    ensures
        r is Ok <==> conversation_stands(*req, raw@) && numbers_stand(*req) && options_stand(*req),
{
    lemma_all_sound(req.messages@, 0);
    lemma_pictures(req.messages@);
    lemma_literals();
}

/// A refusal has the status 400 and names the field that is at fault, the fields being
/// looked at in this order: the conversation, the numbers, the other options.
pub proof fn law_what_a_refusal_names(req: &ChatRequest, raw: &Json, r: Result<Plan, Invalid>)
    requires
        call_ensures(plan, (req, raw), r),
        pictures(req.messages@) <= usize::MAX,
        r is Err,
    ensures
        ({
            let e = r->Err_0;
            let p = e.param->0@;
            &&& e.status == 400
            &&& e.param is Some
            &&& if raw.view().get("messages"@) is None {
                p == "messages"@ && e.code@ == "missing_required_parameter"@
            } else if req.messages@.len() == 0 {
                p == "messages"@ && e.code@ == "invalid_value"@
            } else if !all_sound(req.messages@) {
                true
            } else if !conversation_stands(*req, raw@) {
                p == "messages[0].content"@ && e.code@ == "unsupported_content"@
            } else if !from_zero_to(req.temperature, 0x4000_0000_0000_0000) {
                p == "temperature"@ && e.code@ == "invalid_value"@ && contains(
                    e.message@,
                    req.temperature->0.shown@,
                )
            } else if !from_zero_to(req.top_p, 0x3ff0_0000_0000_0000) {
                p == "top_p"@ && e.code@ == "invalid_value"@ && contains(
                    e.message@,
                    req.top_p->0.shown@,
                )
            } else if !around_zero(req.frequency_penalty, 0x4000_0000_0000_0000) {
                p == "frequency_penalty"@ && e.code@ == "invalid_value"@ && contains(
                    e.message@,
                    req.frequency_penalty->0.shown@,
                )
            } else if !around_zero(req.presence_penalty, 0x4000_0000_0000_0000) {
                p == "presence_penalty"@ && e.code@ == "invalid_value"@ && contains(
                    e.message@,
                    req.presence_penalty->0.shown@,
                )
            } else if req.max_tokens == Some(0u32) {
                p == "max_tokens"@ && e.code@ == "invalid_value"@
            } else if req.max_completion_tokens == Some(0u32) {
                p == "max_completion_tokens"@ && e.code@ == "invalid_value"@
            } else if req.n == Some(0u32) {
                p == "n"@ && e.code@ == "invalid_value"@
            } else if req.n is Some && req.n != Some(1u32) {
                p == "n"@ && e.code@ == "unsupported_value"@
            } else if !few_stops(*req) {
                p == "stop"@ && e.code@ == "invalid_value"@
            } else if !no_logprobs(*req) {
                p == "logprobs"@ && e.code@ == "unsupported_value"@
            } else if req.top_logprobs is Some {
                p == "top_logprobs"@ && e.code@ == "invalid_value"@
            } else if schema_forgotten(*req) {
                p == "response_format.json_schema"@ && e.code@ == "missing_required_parameter"@
            } else if !format_stands(*req) {
                p == "response_format.type"@ && e.code@ == "invalid_value"@ && contains(
                    e.message@,
                    req.response_format->0.kind->0@,
                )
            } else {
                p == "stream_options"@ && e.code@ == "invalid_value"@
            }
        }),
{
    lemma_all_sound(req.messages@, 0);
    lemma_pictures(req.messages@);
    lemma_literals();
    let e = r->Err_0;
    let tail = ")."@;
    if req.response_format is Some && req.response_format->0.kind is Some {
        lemma_holds(
            "response_format.type '"@,
            req.response_format->0.kind->0@,
            "' 은 알 수 없는 값입니다."@,
        );
    }
    if req.temperature is Some {
        let v = req.temperature->0.shown@;
        lemma_holds(
            "temperature"@ + " 은 "@ + "0"@ + "–"@ + "2"@ + " 사이여야 합니다 (받은 값: "@,
            v,
            tail,
        );
    }
    if req.top_p is Some {
        let v = req.top_p->0.shown@;
        lemma_holds(
            "top_p"@ + " 은 "@ + "0"@ + "–"@ + "1"@ + " 사이여야 합니다 (받은 값: "@,
            v,
            tail,
        );
    }
    if req.frequency_penalty is Some {
        let v = req.frequency_penalty->0.shown@;
        lemma_holds(
            "frequency_penalty"@ + " 은 "@ + "-2"@ + "–"@ + "2"@ + " 사이여야 합니다 (받은 값: "@,
            v,
            tail,
        );
    }
    if req.presence_penalty is Some {
        let v = req.presence_penalty->0.shown@;
        lemma_holds(
            "presence_penalty"@ + " 은 "@ + "-2"@ + "–"@ + "2"@ + " 사이여야 합니다 (받은 값: "@,
            v,
            tail,
        );
    }
}

/// Of messages that are not in order the first is named, by its place in the list.
pub proof fn law_the_first_bad_message_is_named(
    req: &ChatRequest,
    raw: &Json,
    r: Result<Plan, Invalid>,
    i: nat,
)
    requires
        call_ensures(plan, (req, raw), r),
        raw@.get("messages"@) is Some,
        i < req.messages@.len(),
        !sound(req.messages@[i as int]),
        forall|k: int| 0 <= k < i ==> sound(#[trigger] req.messages@[k]),
    ensures
        ({
            let m = req.messages@[i as int];
            let role = trim(m.role@);
            let stranger = role != "system"@ && role != "developer"@ && role != "user"@ && role
                != "assistant"@ && role != "tool"@ && role != "function"@;
            let empty = m.content is None && !(role == "assistant"@ && seq_of(m.tool_calls).len()
                > 0);
            &&& r is Err && r->Err_0.status == 400 && r->Err_0.param is Some
            &&& r->Err_0.param->0@ == "messages["@ + dec(i) + (if stranger {
                "].role"@
            } else if empty {
                "].content"@
            } else {
                "].tool_call_id"@
            })
            &&& stranger ==> r->Err_0.code@ == "invalid_value"@ && contains(r->Err_0.message@, role)
            &&& !stranger ==> r->Err_0.code@ == "missing_required_parameter"@
        }),
{
    let m = req.messages@[i as int];
    let role = trim(m.role@);
    lemma_first_unsound(req.messages@, 0, i);
    lemma_sound(i, m);
    let a = at_message(i, "].role '"@);
    let b = "' 은 알 수 없는 롤입니다."@;
    lemma_holds(a, role, b);
    if role.len() == 0 {
        lemma_holds(seq![], role, r->Err_0.message@);
        assert(Seq::<char>::empty() + role + r->Err_0.message@ =~= r->Err_0.message@);
    }
}

/// A missing schema is the one reason for a refusal that names it, and a request that
/// gives its schema and is otherwise in order is taken.
pub proof fn law_a_schema_is_asked_for_where_it_is_missing(
    req: &ChatRequest,
    raw: &Json,
    r: Result<Plan, Invalid>,
)
    requires
        call_ensures(plan, (req, raw), r),
        pictures(req.messages@) <= usize::MAX,
    ensures
        r matches Err(e) && e.param is Some && e.param->0@ == "response_format.json_schema"@ ==> (
        req.response_format matches Some(f) && f.json_schema is None && (f.kind matches Some(k)
            && k@ == "json_schema"@)),
        conversation_stands(*req, raw@) && numbers_stand(*req) && few_stops(*req) && no_logprobs(
            *req,
        ) && req.top_logprobs is None && req.stream_options is None && (
        req.response_format matches Some(f) && f.json_schema is Some && (f.kind matches Some(k)
            && k@ == "json_schema"@)) ==> r is Ok,
{
    lemma_all_sound(req.messages@, 0);
    lemma_pictures(req.messages@);
    lemma_literals();
    if r is Err {
        lemma_message_params(req.messages@, 0);
    }
}

proof fn lemma_message_params(messages: Seq<Message>, i: nat)
    ensures
        messages_fault(messages, i) matches Some(f) ==> f.param != "response_format.json_schema"@,
    decreases messages.len() - i,
{
    lemma_literals();
    if i < messages.len() {
        lemma_message_params(messages, i + 1);
    }
}

// ───────────────────────── what is noted ─────────────────────────

pub open spec fn given(v: Option<Json>) -> bool {
    v matches Some(j) && !(j@ is Null)
}

/// One of the stop sequences holds something.
pub open spec fn stops_at_something(stop: Option<Stop>) -> bool {
    match stop {
        Some(Stop::One(s)) => s@.len() > 0,
        Some(Stop::Many(v)) => exists|i: int| 0 <= i < v@.len() && (#[trigger] v@[i])@.len() > 0,
        _ => false,
    }
}

pub open spec fn one_if(b: bool) -> int {
    if b {
        1
    } else {
        0
    }
}

proof fn lemma_some_stop(list: Seq<Seq<char>>)
    ensures
        non_empty(list).len() > 0 <==> exists|i: int| 0 <= i < list.len() && (#[trigger] list[i]).len() > 0,
    decreases list.len(),
{
    reveal(Seq::filter);
    if list.len() > 0 {
        let front = list.drop_last();
        lemma_some_stop(front);
        if list.last().len() > 0 {
            assert(list[list.len() - 1].len() > 0);
        } else if exists|i: int| 0 <= i < list.len() && (#[trigger] list[i]).len() > 0 {
            let i = choose|i: int| 0 <= i < list.len() && (#[trigger] list[i]).len() > 0;
            assert(front[i] == list[i]);
        } else if exists|i: int| 0 <= i < front.len() && (#[trigger] front[i]).len() > 0 {
            let i = choose|i: int| 0 <= i < front.len() && (#[trigger] front[i]).len() > 0;
            assert(front[i] == list[i]);
        }
    }
}

proof fn lemma_non_empty(list: Seq<Seq<char>>, x: Seq<char>)
    ensures
        non_empty(list).contains(x) <==> list.contains(x) && x.len() > 0,
    decreases list.len(),
{
    reveal(Seq::filter);
    if list.len() > 0 {
        let front = list.drop_last();
        let y = list.last();
        lemma_non_empty(front, x);
        let s = non_empty(list);
        let t = non_empty(front);
        if list.contains(x) && x != y {
            let i = list.index_of(x);
            assert(front[i] == x);
        }
        if front.contains(x) {
            let i = front.index_of(x);
            assert(list[i] == x);
        }
        assert(list[list.len() - 1] == y);
        if y.len() > 0 {
            assert(s == t.push(y));
            assert(s[t.len() as int] == y);
            if t.contains(x) {
                let i = t.index_of(x);
                assert(s[i] == x);
            }
            if s.contains(x) && x != y {
                let i = s.index_of(x);
                assert(t[i] == x);
            }
        } else {
            assert(s == t);
        }
    }
}

/// The stop sequences that can be used are those that hold something.
pub proof fn law_stop_sequences(stop: &Stop, r: Vec<String>, x: Seq<char>)
    requires
        call_ensures(Stop::list, (stop,), r),
    ensures
        *stop matches Stop::Many(v) ==> (views(r@).contains(x) <==> views(v@).contains(x) && x.len()
            > 0),
        *stop matches Stop::One(s) ==> (views(r@).contains(x) <==> s@ == x && x.len() > 0),
        *stop is Other ==> r@.len() == 0,
{
    assert(views(r@).len() == r@.len());
    match *stop {
        Stop::Many(v) => {
            lemma_non_empty(views(v@), x);
        },
        Stop::One(s) => {
            lemma_non_empty(seq![s@], x);
            assert(seq![s@][0] == s@);
        },
        Stop::Other(_) => {},
    }
}

/// Nothing is left out in silence: each field that was sent and has no place is noted
/// once, and no other field is.
#[verifier::rlimit(60)]
pub proof fn law_what_is_left_out_is_noted(req: &ChatRequest, raw: &Json, r: Result<Plan, Invalid>)
    requires
        call_ensures(plan, (req, raw), r),
    ensures
        r matches Ok(p) ==> {
            let noted = str_views(p.ignored@);
            let kind_set = req.response_format matches Some(f) && (f.kind matches Some(k) && k@
                != "text"@);
            &&& stops_at_something(req.stop) ==> noted.contains("stop"@)
            &&& req.presence_penalty is Some ==> noted.contains("presence_penalty"@)
            &&& given(req.logit_bias) ==> noted.contains("logit_bias"@)
            &&& given(req.user) ==> noted.contains("user"@)
            &&& kind_set ==> noted.contains("response_format"@)
            &&& req.parallel_tool_calls is Some ==> noted.contains("parallel_tool_calls"@)
            &&& given(req.metadata) ==> noted.contains("metadata"@)
            &&& given(req.store) ==> noted.contains("store"@)
            &&& given(req.service_tier) ==> noted.contains("service_tier"@)
            &&& noted.len() == one_if(stops_at_something(req.stop)) + one_if(
                req.presence_penalty is Some,
            ) + one_if(given(req.logit_bias)) + one_if(given(req.user)) + one_if(kind_set) + one_if(
                req.parallel_tool_calls is Some,
            ) + one_if(given(req.metadata)) + one_if(given(req.store)) + one_if(
                given(req.service_tier),
            )
        },
{
    if r is Ok {
        let p = r->Ok_0;
        let noted = str_views(p.ignored@);
        match req.stop {
            Some(Stop::One(s)) => {
                lemma_some_stop(seq![s@]);
                assert(seq![s@][0] == s@);
            },
            Some(Stop::Many(v)) => {
                lemma_some_stop(views(v@));
                assert forall|i: int| 0 <= i < v@.len() implies views(v@)[i] == (#[trigger] v@[i])@ by {}
                if stops_at_something(req.stop) {
                    let i = choose|i: int| 0 <= i < v@.len() && (#[trigger] v@[i])@.len() > 0;
                    assert(views(v@)[i].len() > 0);
                }
            },
            _ => {},
        }
        let has_stop = req.stop matches Some(s) && s.sequences().len() > 0;
        assert(has_stop == stops_at_something(req.stop));
        let a = note(seq![], has_stop, "stop"@);
        let b = note(a, req.presence_penalty is Some, "presence_penalty"@);
        let c = note(b, sent(req.logit_bias), "logit_bias"@);
        let d = note(c, sent(req.user), "user"@);
        let e = note(d, crate::proxy::validate::format_kind(*req) != "text"@, "response_format"@);
        let f = note(e, req.parallel_tool_calls is Some, "parallel_tool_calls"@);
        let g = note(f, sent(req.metadata), "metadata"@);
        let h = note(g, sent(req.store), "store"@);
        let z = note(h, sent(req.service_tier), "service_tier"@);
        assert(noted == z);
    }
}

/// `list`, with `name` behind it where `b` holds.
proof fn note(list: Seq<Seq<char>>, b: bool, name: Seq<char>) -> (r: Seq<Seq<char>>)
    ensures
        r == crate::proxy::validate::note_if(list, b, name),
        r.len() == list.len() + one_if(b),
        b ==> r.contains(name),
        forall|x: Seq<char>| #[trigger] list.contains(x) ==> r.contains(x),
{
    let r = crate::proxy::validate::note_if(list, b, name);
    if b {
        assert(r[list.len() as int] == name);
        assert forall|x: Seq<char>| #[trigger] list.contains(x) implies r.contains(x) by {
            let i = list.index_of(x);
            assert(r[i] == x);
        }
    }
    r
}

/// The fields of a chat request.
pub open spec fn is_field(k: Seq<char>) -> bool {
    ||| k == "model"@
    ||| k == "messages"@
    ||| k == "stream"@
    ||| k == "stream_options"@
    ||| k == "temperature"@
    ||| k == "top_p"@
    ||| k == "top_k"@
    ||| k == "n"@
    ||| k == "stop"@
    ||| k == "max_tokens"@
    ||| k == "max_completion_tokens"@
    ||| k == "seed"@
    ||| k == "frequency_penalty"@
    ||| k == "presence_penalty"@
    ||| k == "logit_bias"@
    ||| k == "logprobs"@
    ||| k == "top_logprobs"@
    ||| k == "user"@
    ||| k == "response_format"@
    ||| k == "tools"@
    ||| k == "tool_choice"@
    ||| k == "parallel_tool_calls"@
    ||| k == "functions"@
    ||| k == "function_call"@
    ||| k == "metadata"@
    ||| k == "store"@
    ||| k == "service_tier"@
}

proof fn lemma_known_keys(k: Seq<char>)
    ensures
        known_keys().contains(k) <==> is_field(k),
{
    let all = known_keys();
    assert(all.len() == 27);
    if is_field(k) {
        assert(all[0] == "model"@ && all[1] == "messages"@ && all[2] == "stream"@ && all[3]
            == "stream_options"@ && all[4] == "temperature"@ && all[5] == "top_p"@ && all[6]
            == "top_k"@ && all[7] == "n"@ && all[8] == "stop"@ && all[9] == "max_tokens"@ && all[10]
            == "max_completion_tokens"@ && all[11] == "seed"@ && all[12] == "frequency_penalty"@
            && all[13] == "presence_penalty"@ && all[14] == "logit_bias"@ && all[15]
            == "logprobs"@ && all[16] == "top_logprobs"@ && all[17] == "user"@ && all[18]
            == "response_format"@ && all[19] == "tools"@ && all[20] == "tool_choice"@ && all[21]
            == "parallel_tool_calls"@ && all[22] == "functions"@ && all[23] == "function_call"@
            && all[24] == "metadata"@ && all[25] == "store"@ && all[26] == "service_tier"@);
    }
}

proof fn lemma_strange(keys: Seq<Seq<char>>, k: Seq<char>)
    ensures
        strange_keys(keys).contains(k) <==> keys.contains(k) && !is_field(k),
    decreases keys.len(),
{
    reveal(Seq::filter);
    lemma_known_keys(k);
    if keys.len() > 0 {
        let front = keys.drop_last();
        let x = keys.last();
        lemma_strange(front, k);
        lemma_known_keys(x);
        let s = strange_keys(keys);
        let t = strange_keys(front);
        if keys.contains(k) && k != x {
            let i = keys.index_of(k);
            assert(front[i] == k);
        }
        if front.contains(k) {
            let i = front.index_of(k);
            assert(keys[i] == k);
        }
        if x == k {
            assert(keys[keys.len() - 1] == k);
        }
        if is_field(x) {
            assert(s == t);
        } else {
            assert(s == t.push(x));
            assert(s[t.len() as int] == x);
            if t.contains(k) {
                let i = t.index_of(k);
                assert(s[i] == k);
            }
            if s.contains(k) && k != x {
                let i = s.index_of(k);
                assert(t[i] == k);
            }
        }
    }
}

/// Unknown keys are noted in their order, and each as often as it was sent.
pub proof fn law_unknown_keys_keep_their_order(a: Seq<Seq<char>>, b: Seq<Seq<char>>)
    ensures
        strange_keys(a + b) == strange_keys(a) + strange_keys(b),
        a.len() == 1 ==> strange_keys(a) == (if is_field(a[0]) {
            seq![]
        } else {
            a
        }),
    decreases b.len(),
{
    reveal(Seq::filter);
    if a.len() == 1 {
        lemma_known_keys(a[0]);
        let none = Seq::<Seq<char>>::empty();
        assert(a.drop_last() =~= none);
        assert(strange_keys(none) =~= none);
        assert(a.last() == a[0]);
        assert(none.push(a[0]) =~= a);
        assert(strange_keys(a) =~= (if is_field(a[0]) {
            seq![]
        } else {
            a
        }));
    }
    if b.len() == 0 {
        assert(a + b =~= a);
        assert(strange_keys(a) + strange_keys(b) =~= strange_keys(a));
    } else {
        law_unknown_keys_keep_their_order(a, b.drop_last());
        assert((a + b).drop_last() =~= a + b.drop_last());
        assert(strange_keys(a + b) =~= strange_keys(a) + strange_keys(b));
    }
}

/// The keys that are noted as unknown are those that were sent and are no field of a
/// chat request; a usage chunk is due if it was asked for; and every image is counted.
pub proof fn law_what_else_is_noted(
    req: &ChatRequest,
    raw: &Json,
    r: Result<Plan, Invalid>,
    key: Seq<char>,
)
    requires
        call_ensures(plan, (req, raw), r),
        pictures(req.messages@) <= usize::MAX,
    ensures
        r matches Ok(p) ==> {
            &&& views(p.unknown@).contains(key) <==> keys_of(*raw).contains(key) && !is_field(key)
            &&& p.include_usage <==> req.stream_options is Some && req.stream_options->0.include_usage
                == Some(true)
            &&& p.images_dropped == pictures(req.messages@)
        },
{
    lemma_strange(keys_of(*raw), key);
    lemma_pictures(req.messages@);
}

} // verus!
