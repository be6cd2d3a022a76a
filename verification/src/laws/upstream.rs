//! What the gateway's failures and reasons become.

use vstd::prelude::*;
use vstd::string::*;

use crate::json::{json_parse, json_views, Json, JsonView};
use crate::logstore::preview_view;
use crate::openai::ErrorEnvelope;
use crate::proxy::fabrix::{
    array_under, array_within, classify_status, decide_finish, extract_array, extract_object,
    list_keys, map_finish_reason, message_of, outer_keys, FabrixError,
};
use crate::text::{blank, contains, dec, lemma_no_white, lower, trim};

use super::text::{lemma_holds, lemma_trimmed_ends};

verus! {

// ───────────────────────── why an answer ends ─────────────────────────

/// An answer with calls ends for them; one that was cut ends for its length; and the
/// gateway's own words are told apart whatever their case.
pub proof fn law_why_an_answer_ends(calls: bool, raw: Option<&str>, cut: bool, r: &'static str)
    requires
        call_ensures(decide_finish, (calls, raw, cut), r),
    ensures
        calls ==> r@ == "tool_calls"@,
        !calls && cut ==> r@ == "length"@,
        !calls && !cut && raw is None ==> r@ == "stop"@,
        !calls && !cut && raw is Some ==> {
            let word = lower(trim(raw->0@));
            &&& blank(raw->0@) ==> r@ == "stop"@
            &&& word == "stop"@ || word == "end_turn"@ || word == "eos"@ || word == "complete"@ || word
                == "completed"@ ==> r@ == "stop"@
            &&& word == "length"@ || word == "max_tokens"@ || word == "max_new_tokens"@ || word
                == "truncated"@ ==> r@ == "length"@
            &&& word == "content_filter"@ || word == "filtered"@ || word == "blocked"@ ==> r@
                == "content_filter"@
            &&& word == "abort"@ || word == "aborted"@ || word == "cancel"@ || word == "cancelled"@
                || word == "canceled"@ || word == "error"@ || word == "timeout"@ || word
                == "incomplete"@ ==> r@ == "length"@
            &&& word == "tool_calls"@ ==> r@ == "tool_calls"@
            &&& word == "function_call"@ ==> r@ == "function_call"@
            &&& !gateway_word(word) ==> r@ == "stop"@
        },
{
    lemma_words();
    if raw is Some {
        lemma_trim_twice(raw->0@);
    }
}

/// A reason is mapped to the word that clients know; one that nobody knows stays as it is.
pub proof fn law_reasons_are_mapped(raw: Option<&str>, cut: bool, r: Option<String>)
    requires
        call_ensures(map_finish_reason, (raw, cut), r),
    ensures
        cut ==> r is Some && r->0@ == "length"@,
        !cut && (raw is None || blank(raw->0@)) ==> r is None,
        !cut && raw is Some && !blank(raw->0@) ==> {
            let word = lower(trim(raw->0@));
            &&& r is Some
            &&& word == "length"@ || word == "max_tokens"@ || word == "max_new_tokens"@ || word
                == "truncated"@ ==> r->0@ == "length"@
            &&& word == "content_filter"@ || word == "filtered"@ || word == "blocked"@ ==> r->0@
                == "content_filter"@
            &&& word == "stop"@ || word == "end_turn"@ || word == "eos"@ || word == "complete"@ || word
                == "completed"@ ==> r->0@ == "stop"@
            &&& !gateway_word(word) ==> r->0@ == trim(raw->0@)
        },
{
    lemma_words();
}

/// One of the words that the gateway has for the end of an answer.
pub open spec fn gateway_word(word: Seq<char>) -> bool {
    ||| word == "stop"@
    ||| word == "end_turn"@
    ||| word == "eos"@
    ||| word == "complete"@
    ||| word == "completed"@
    ||| word == "length"@
    ||| word == "max_tokens"@
    ||| word == "max_new_tokens"@
    ||| word == "truncated"@
    ||| word == "content_filter"@
    ||| word == "filtered"@
    ||| word == "blocked"@
    ||| word == "abort"@
    ||| word == "aborted"@
    ||| word == "cancel"@
    ||| word == "cancelled"@
    ||| word == "canceled"@
    ||| word == "error"@
    ||| word == "timeout"@
    ||| word == "incomplete"@
    ||| word == "tool_calls"@
    ||| word == "function_call"@
}

proof fn lemma_trim_twice(s: Seq<char>)
    ensures
        trim(trim(s)) == trim(s),
{
    lemma_trimmed_ends(s);
    lemma_no_white(trim(s));
}

/// The words are told apart by their lengths and their first letters.
pub proof fn lemma_words()
    ensures
        trim("length"@) == "length"@ && lower("length"@) == "length"@,
        trim("content_filter"@) == "content_filter"@ && lower("content_filter"@)
            == "content_filter"@,
        trim("stop"@) == "stop"@ && lower("stop"@) == "stop"@,
        "stop"@.len() == 4 && "stop"@[0] == 's' && "stop"@[1] == 't',
        "end_turn"@.len() == 8 && "end_turn"@[0] == 'e' && "end_turn"@[1] == 'n',
        "eos"@.len() == 3 && "eos"@[0] == 'e' && "eos"@[1] == 'o',
        "complete"@.len() == 8 && "complete"@[0] == 'c' && "complete"@[1] == 'o',
        "completed"@.len() == 9 && "completed"@[0] == 'c' && "completed"@[1] == 'o',
        "length"@.len() == 6 && "length"@[0] == 'l' && "length"@[1] == 'e',
        "max_tokens"@.len() == 10 && "max_tokens"@[0] == 'm' && "max_tokens"@[1] == 'a',
        "max_new_tokens"@.len() == 14 && "max_new_tokens"@[0] == 'm' && "max_new_tokens"@[1] == 'a',
        "truncated"@.len() == 9 && "truncated"@[0] == 't' && "truncated"@[1] == 'r',
        "content_filter"@.len() == 14 && "content_filter"@[0] == 'c' && "content_filter"@[1] == 'o',
        "filtered"@.len() == 8 && "filtered"@[0] == 'f' && "filtered"@[1] == 'i',
        "blocked"@.len() == 7 && "blocked"@[0] == 'b' && "blocked"@[1] == 'l',
        "abort"@.len() == 5 && "abort"@[0] == 'a' && "abort"@[1] == 'b',
        "aborted"@.len() == 7 && "aborted"@[0] == 'a' && "aborted"@[1] == 'b',
        "cancel"@.len() == 6 && "cancel"@[0] == 'c' && "cancel"@[1] == 'a',
        "cancelled"@.len() == 9 && "cancelled"@[0] == 'c' && "cancelled"@[1] == 'a',
        "canceled"@.len() == 8 && "canceled"@[0] == 'c' && "canceled"@[1] == 'a',
        "error"@.len() == 5 && "error"@[0] == 'e' && "error"@[1] == 'r',
        "timeout"@.len() == 7 && "timeout"@[0] == 't' && "timeout"@[1] == 'i',
        "incomplete"@.len() == 10 && "incomplete"@[0] == 'i' && "incomplete"@[1] == 'n',
        "tool_calls"@.len() == 10 && "tool_calls"@[0] == 't' && "tool_calls"@[1] == 'o',
        "function_call"@.len() == 13 && "function_call"@[0] == 'f' && "function_call"@[1] == 'u',
{
    reveal_strlit("stop");
    reveal_strlit("end_turn");
    reveal_strlit("eos");
    reveal_strlit("complete");
    reveal_strlit("completed");
    reveal_strlit("length");
    reveal_strlit("max_tokens");
    reveal_strlit("max_new_tokens");
    reveal_strlit("truncated");
    reveal_strlit("content_filter");
    reveal_strlit("filtered");
    reveal_strlit("blocked");
    reveal_strlit("abort");
    reveal_strlit("aborted");
    reveal_strlit("cancel");
    reveal_strlit("cancelled");
    reveal_strlit("canceled");
    reveal_strlit("error");
    reveal_strlit("timeout");
    reveal_strlit("incomplete");
    reveal_strlit("tool_calls");
    reveal_strlit("function_call");
    lemma_no_white("length"@);
    lemma_no_white("content_filter"@);
    lemma_no_white("stop"@);
    assert(lower("length"@) =~= "length"@);
    assert(lower("content_filter"@) =~= "content_filter"@);
    assert(lower("stop"@) =~= "stop"@);
}

// ───────────────────────── failures ─────────────────────────

/// A failure of the gateway's has the gateway's status, and says what the gateway says.
pub proof fn law_failures(
    e: &FabrixError,
    status: u16,
    message: String,
    code: &'static str,
    envelope: ErrorEnvelope,
)
    requires
        call_ensures(FabrixError::status, (e,), status),
        call_ensures(FabrixError::message, (e,), message),
        call_ensures(FabrixError::code, (e,), code),
        call_ensures(FabrixError::envelope, (e,), envelope),
    ensures
        match *e {
            FabrixError::NotConfigured => status == 503 && code@ == "not_configured"@,
            FabrixError::Unreachable(detail) => status == 502 && code@ == "upstream_unreachable"@
                && contains(message@, detail@),
            FabrixError::Quota(detail) => status == 429 && code@ == "rate_limit_exceeded"@
                && contains(message@, detail@),
            FabrixError::Upstream { status: s, message: detail } => status == s && code@
                == "upstream_error"@ && contains(message@, detail@) && contains(
                message@,
                dec(s as nat),
            ),
            FabrixError::BadPayload(detail) => status == 502 && code@ == "upstream_bad_response"@
                && contains(message@, detail@),
        },
        envelope.error.message@ == message@,
        envelope.error.code is Some && envelope.error.code->0@ == code@,
        envelope.error.param is None,
        status == 429 ==> envelope.error.kind@ == "rate_limit_error"@,
        status >= 500 ==> envelope.error.kind@ == "api_error"@,
{
    match *e {
        FabrixError::NotConfigured => {},
        FabrixError::Unreachable(detail) => {
            let a = "사내 AI 서버에 연결하지 못했습니다: "@;
            lemma_holds(a, detail@, seq![]);
            assert(a + detail@ + Seq::<char>::empty() =~= message@);
        },
        FabrixError::Quota(detail) => {
            let a = "사내 쿼터를 초과했습니다: "@;
            lemma_holds(a, detail@, seq![]);
            assert(a + detail@ + Seq::<char>::empty() =~= message@);
        },
        FabrixError::Upstream { status: s, message: detail } => {
            let a = "사내 서버 오류 "@;
            let d = dec(s as nat);
            lemma_holds(a, d, ": "@ + detail@);
            assert(a + d + (": "@ + detail@) =~= message@);
            lemma_holds(a + d + ": "@, detail@, seq![]);
            assert(a + d + ": "@ + detail@ + Seq::<char>::empty() =~= message@);
        },
        FabrixError::BadPayload(detail) => {
            let a = "사내 응답을 해석하지 못했습니다: "@;
            lemma_holds(a, detail@, seq![]);
            assert(a + detail@ + Seq::<char>::empty() =~= message@);
        },
    }
}

/// The text under `key`, where it holds something.
pub open spec fn says_under(v: JsonView, key: Seq<char>) -> bool {
    v.get(key) is Some && v.get(key)->0 is Text && !blank(v.get(key)->0->Text_0)
}

/// What the tree of a failure says: the first that holds something of five names, else
/// its `error`.
pub proof fn law_what_a_tree_says(v: &Json, r: Option<String>)
    requires
        call_ensures(message_of, (v,), r),
    ensures
        ({
            let t = v@;
            let a = says_under(t, "message"@);
            let b = says_under(t, "errorMessage"@);
            let c = says_under(t, "error_message"@);
            let d = says_under(t, "detail"@);
            let e = says_under(t, "eventData"@);
            &&& a ==> r is Some && t.get("message"@) == Some(JsonView::Text(r->0@))
            &&& !a && b ==> r is Some && t.get("errorMessage"@) == Some(JsonView::Text(r->0@))
            &&& !a && !b && c ==> r is Some && t.get("error_message"@) == Some(
                JsonView::Text(r->0@),
            )
            &&& !a && !b && !c && d ==> r is Some && t.get("detail"@) == Some(JsonView::Text(r->0@))
            &&& !a && !b && !c && !d && e ==> r is Some && t.get("eventData"@) == Some(
                JsonView::Text(r->0@),
            )
            &&& !a && !b && !c && !d && !e ==> match t.get("error"@) {
                None => r is None,
                Some(JsonView::Text(s)) => r is Some && r->0@ == s,
                Some(inner) => match inner.get("message"@) {
                    Some(JsonView::Text(s)) => r is Some && r->0@ == s,
                    _ => r is None,
                },
            }
        }),
{
}

/// A response that is no success: 429 is a quota, 502 to 504 an outage, anything else is
/// handed on with its status. What the body says is what it says in its tree, else its
/// beginning.
pub proof fn law_failing_statuses(status: u16, body: &str, tree: &Json, said: Option<String>, r: FabrixError)
    requires
        call_ensures(classify_status, (status, body), r),
        json_parse(body@) matches Ok(v) ==> tree@ == v && call_ensures(message_of, (tree,), said),
    ensures
        ({
            let detail = match r {
                FabrixError::Quota(m) => m@,
                FabrixError::Unreachable(m) => m@,
                FabrixError::Upstream { status: _, message } => message@,
                _ => seq![],
            };
            &&& status == 429 ==> r is Quota
            &&& status == 502 || status == 503 || status == 504 ==> r is Unreachable
            &&& status != 429 && status != 502 && status != 503 && status != 504 ==> r is Upstream
                && r->Upstream_status == status
            &&& json_parse(body@) is Ok && said is Some ==> detail == said->0@
            &&& json_parse(body@) is Ok && said is None ==> detail == preview_view(body@, 200)
            &&& json_parse(body@) is Err ==> detail == preview_view(body@, 200)
        }),
{
}

// ───────────────────────── lists and answers ─────────────────────────

/// The list in a tree: the tree itself, or the first array under one of seven names.
pub proof fn law_the_list_in_a_tree(v: &Json, r: Option<&Vec<Json>>, items: Seq<JsonView>)
    requires
        call_ensures(extract_array, (v,), r),
    ensures
        v@ == JsonView::Array(items) ==> r is Some && json_views(r->0@) == items,
        v@.get("data"@) == Some(JsonView::Array(items)) ==> r is Some && json_views(r->0@) == items,
        !(v@.get("data"@) matches Some(JsonView::Array(_))) && v@.get("result"@) == Some(
            JsonView::Array(items),
        ) ==> r is Some && json_views(r->0@) == items,
        lone_list(v@, "results"@, items) || lone_list(v@, "models"@, items) || lone_list(
            v@,
            "list"@,
            items,
        ) || lone_list(v@, "items"@, items) || lone_list(v@, "content"@, items) ==> r is Some
            && json_views(r->0@) == items,
        !(v@ is Array) && !(v@ is Object) ==> r is None,
{
    let t = v@;
    let keys = list_keys();
    reveal_with_fuel(array_under, 8);
    reveal_with_fuel(array_within, 4);
    let k1 = keys.drop_first();
    let k2 = k1.drop_first();
    let k3 = k2.drop_first();
    let k4 = k3.drop_first();
    let k5 = k4.drop_first();
    let k6 = k5.drop_first();
    assert(keys[0] == "data"@ && k1[0] == "result"@ && k2[0] == "results"@ && k3[0] == "models"@
        && k4[0] == "list"@ && k5[0] == "items"@ && k6[0] == "content"@);
}

/// The list may also stand one level deeper.
pub proof fn law_the_list_in_an_inner_tree(
    v: &Json,
    r: Option<&Vec<Json>>,
    inner: JsonView,
    outer: Seq<char>,
    items: Seq<JsonView>,
)
    requires
        call_ensures(extract_array, (v,), r),
        outer == "data"@ || outer == "result"@ || outer == "response"@,
        v@ == JsonView::Object(Map::empty().insert(outer, inner)),
        !(inner is Array),
    ensures
        inner.get("data"@) == Some(JsonView::Array(items)) ==> r is Some && json_views(r->0@) == items,
        lone_list(inner, "result"@, items) || lone_list(inner, "results"@, items) || lone_list(
            inner,
            "models"@,
            items,
        ) || lone_list(inner, "list"@, items) || lone_list(inner, "items"@, items) || lone_list(
            inner,
            "content"@,
            items,
        ) ==> r is Some && json_views(r->0@) == items,
{
    let keys = list_keys();
    lemma_under_keys(v@);
    lemma_under_keys(inner);
    let ks = outer_keys();
    let k1 = ks.drop_first();
    let k2 = k1.drop_first();
    assert(ks[0] == "data"@ && k1[0] == "result"@ && k2[0] == "response"@);
    reveal_with_fuel(array_within, 4);
    lemma_keys_apart();
}

proof fn lemma_keys_apart()
    ensures
        "data"@ != "result"@,
        "data"@ != "response"@,
        "result"@ != "response"@,
{
    reveal_strlit("data");
    reveal_strlit("result");
    reveal_strlit("response");
    assert("data"@.len() == 4 && "result"@.len() == 6 && "response"@.len() == 8);
}

/// The first array under one of the seven names.
proof fn lemma_under_keys(t: JsonView)
    ensures
        ({
            let r = array_under(t, list_keys());
            &&& t.get("data"@) matches Some(JsonView::Array(items)) ==> r == Some(items)
            &&& (forall|k: Seq<char>| #[trigger] t.get(k) matches Some(x) ==> !(x is Array))
                ==> r is None
            &&& forall|key: Seq<char>, items: Seq<JsonView>|
                #[trigger] lone_list(t, key, items) && (key == "data"@ || key == "result"@ || key
                    == "results"@ || key == "models"@ || key == "list"@ || key == "items"@ || key
                    == "content"@) ==> r == Some(items)
        }),
{
    reveal_with_fuel(array_under, 8);
    let keys = list_keys();
    let k1 = keys.drop_first();
    let k2 = k1.drop_first();
    let k3 = k2.drop_first();
    let k4 = k3.drop_first();
    let k5 = k4.drop_first();
    let k6 = k5.drop_first();
    assert(keys[0] == "data"@ && k1[0] == "result"@ && k2[0] == "results"@ && k3[0] == "models"@
        && k4[0] == "list"@ && k5[0] == "items"@ && k6[0] == "content"@);
}

/// The array is under this name, and the object has no other member.
pub open spec fn lone_list(v: JsonView, key: Seq<char>, items: Seq<JsonView>) -> bool {
    v == JsonView::Object(Map::empty().insert(key, JsonView::Array(items)))
}

/// The object of an answer: the first of a list, what stands under `data`, `result` or
/// `response` if it looks like an answer, else the tree itself.
pub proof fn law_the_object_of_an_answer(v: &Json, r: Json, inner: JsonView, items: Seq<JsonView>)
    requires
        call_ensures(extract_object, (v,), r),
        inner is Object,
        inner.get("content"@) is Some || inner.get("finishReason"@) is Some,
        items.len() > 0,
    ensures
        v@ == JsonView::Array(items) ==> r@ == items[0],
        v@.get("data"@) == Some(inner) ==> r@ == inner,
        v@.get("data"@) == Some(JsonView::Array(items)) ==> r@ == items[0],
        v@.get("data"@) is None && v@.get("result"@) == Some(inner) ==> r@ == inner,
        v@.get("data"@) is None && v@.get("result"@) is None && v@.get("response"@) == Some(inner)
            ==> r@ == inner,
        !(v@ is Array) && v@.get("data"@) is None && v@.get("result"@) is None && v@.get(
            "response"@,
        ) is None ==> r@ == v@,
{
}

} // verus!
