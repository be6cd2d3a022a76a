//! One piece of the gateway's answer.

use vstd::prelude::*;
use vstd::string::*;

use crate::json::{number_as_u64, Json, JsonView};
use crate::openai::opt_text;
use crate::proxy::chunk::{
    answers, filter_field, given, nonempty, read_filter, read_references, references_field,
    usage_field, ChunkView, ContentReference, FabrixChunk,
};
use crate::proxy::fields::{
    count_field, field, field2, field4, flag_field, optional, record, text_field,
};
use crate::text::{blank, contains, join, lower};

use super::text::lemma_join_holds;

verus! {

// ───────────────────────── reading ─────────────────────────

/// The field `out` is what the object says under either of two names.
pub open spec fn text_under(v: JsonView, a: Seq<char>, b: Seq<char>, out: Option<String>) -> bool {
    &&& v.get(a) matches Some(JsonView::Text(t)) ==> opt_text(out) == Some(t)
    &&& v.get(b) matches Some(JsonView::Text(t)) ==> opt_text(out) == Some(t)
    &&& out is Some ==> v.get(a) == Some(JsonView::Text(out->0@)) || v.get(b) == Some(
        JsonView::Text(out->0@),
    )
}

/// The field `out` is the number that the object has under one of four names.
pub open spec fn count_under(
    v: JsonView,
    a: Seq<char>,
    b: Seq<char>,
    c: Seq<char>,
    d: Seq<char>,
    out: Option<u32>,
) -> bool {
    &&& v.get(a) matches Some(JsonView::Number(n)) ==> out is Some && number_as_u64(n) == Some(
        out->0 as u64,
    )
    &&& v.get(b) matches Some(JsonView::Number(n)) ==> out is Some && number_as_u64(n) == Some(
        out->0 as u64,
    )
    &&& v.get(c) matches Some(JsonView::Number(n)) ==> out is Some && number_as_u64(n) == Some(
        out->0 as u64,
    )
    &&& v.get(d) matches Some(JsonView::Number(n)) ==> out is Some && number_as_u64(n) == Some(
        out->0 as u64,
    )
    &&& out is Some ==> v.get(a) matches Some(JsonView::Number(_)) || v.get(b) matches Some(
        JsonView::Number(_),
    ) || v.get(c) matches Some(JsonView::Number(_)) || v.get(d) matches Some(JsonView::Number(_))
}

/// A chunk has what the object has, each field under its name in either spelling.
pub proof fn law_a_chunk_is_what_was_sent(v: &Json, r: Option<FabrixChunk>)
    requires
        call_ensures(FabrixChunk::from_json, (v,), r),
        v@ is Object,
    ensures
        r matches Some(c) ==> {
            &&& text_under(v@, "model_type"@, "modelType"@, c.model_type)
            &&& text_under(v@, "content"@, "content"@, c.content)
            &&& text_under(v@, "finish_reason"@, "finishReason"@, c.finish_reason)
            &&& text_under(v@, "status"@, "status"@, c.status)
            &&& text_under(v@, "response_code"@, "responseCode"@, c.response_code)
            &&& text_under(v@, "event_status"@, "eventStatus"@, c.event_status)
            &&& text_under(v@, "event_data"@, "eventData"@, c.event_data)
            &&& text_under(v@, "reasoning_content"@, "reasoningContent"@, c.reasoning_content)
            &&& text_under(v@, "message"@, "message"@, c.message)
            &&& text_under(v@, "error_message"@, "errorMessage"@, c.error_message)
            &&& v@.get("truncated"@) matches Some(JsonView::Bool(b)) ==> c.truncated == Some(b)
            &&& c.truncated matches Some(b) ==> v@.get("truncated"@) == Some(JsonView::Bool(b))
            &&& count_under(
                v@,
                "input_tokens"@,
                "inputTokens"@,
                "prompt_tokens"@,
                "promptTokens"@,
                c.input_tokens,
            )
            &&& count_under(
                v@,
                "output_tokens"@,
                "outputTokens"@,
                "completion_tokens"@,
                "completionTokens"@,
                c.output_tokens,
            )
        },
{
}

/// The counts of `usage` are read under their names: those of the prompt as the prompt's
/// and those of the completion as the completion's.
pub proof fn law_usage_is_what_was_sent(v: &Json, r: Option<FabrixChunk>, u: JsonView)
    requires
        call_ensures(FabrixChunk::from_json, (v,), r),
        v@ is Object,
        v@.get("usage"@) == Some(u),
        u is Object,
    ensures
        r matches Some(c) ==> {
            &&& c.usage is Some
            &&& count_under(
                u,
                "prompt_tokens"@,
                "promptTokens"@,
                "inputTokens"@,
                "input_tokens"@,
                c.usage->0.prompt_tokens,
            )
            &&& count_under(
                u,
                "completion_tokens"@,
                "completionTokens"@,
                "outputTokens"@,
                "output_tokens"@,
                c.usage->0.completion_tokens,
            )
        },
{
}

/// The filter's verdict is read under its names.
pub proof fn law_a_verdict_is_what_was_sent(v: &Json, r: Option<FabrixChunk>, f: JsonView)
    requires
        call_ensures(FabrixChunk::from_json, (v,), r),
        v@ is Object,
        v@.get("filter_block_reason"@) == Some(f) || v@.get("filterBlockReason"@) == Some(f),
        f is Object,
    ensures
        r matches Some(c) ==> {
            &&& c.filter_block_reason is Some
            &&& text_under(f, "ko"@, "ko"@, c.filter_block_reason->0.ko)
            &&& text_under(f, "en"@, "en"@, c.filter_block_reason->0.en)
            &&& text_under(f, "message"@, "message"@, c.filter_block_reason->0.message)
            &&& text_under(
                f,
                "result_code"@,
                "resultCode"@,
                c.filter_block_reason->0.result_code,
            )
        },
{
}

/// A field that is absent, null or a text.
pub open spec fn text_at_most(v: JsonView, a: Seq<char>) -> bool {
    v.get(a) is None || v.get(a)->0 is Null || v.get(a)->0 is Text
}

/// A field that is there under one of two names at most, and is null or a text.
pub open spec fn text_or_nothing(v: JsonView, a: Seq<char>, b: Seq<char>) -> bool {
    &&& v.get(a) is None || v.get(b) is None
    &&& text_at_most(v, a)
    &&& text_at_most(v, b)
}

/// A field that is absent, null or a count that fits.
pub open spec fn count_at_most(v: JsonView, a: Seq<char>) -> bool {
    v.get(a) is None || v.get(a)->0 is Null || (v.get(a)->0 is Number && (number_as_u64(
        v.get(a)->0->Number_0,
    ) matches Some(n) && n <= u32::MAX))
}

/// A field that is there under one of four names at most, and is null or a count.
pub open spec fn count_or_nothing(
    v: JsonView,
    a: Seq<char>,
    b: Seq<char>,
    c: Seq<char>,
    d: Seq<char>,
) -> bool {
    &&& count_at_most(v, a) && count_at_most(v, b) && count_at_most(v, c) && count_at_most(v, d)
    &&& v.get(a) is Some ==> v.get(b) is None && v.get(c) is None && v.get(d) is None
    &&& v.get(b) is Some ==> v.get(c) is None && v.get(d) is None
    &&& v.get(c) is Some ==> v.get(d) is None
}

pub open spec fn usage_or_nothing(u: Option<JsonView>) -> bool {
    u matches Some(v) ==> v is Null || (v is Object && count_or_nothing(
        v,
        "prompt_tokens"@,
        "promptTokens"@,
        "inputTokens"@,
        "input_tokens"@,
    ) && count_or_nothing(
        v,
        "completion_tokens"@,
        "completionTokens"@,
        "outputTokens"@,
        "output_tokens"@,
    ))
}

pub open spec fn verdict_or_nothing(f: Option<JsonView>) -> bool {
    f matches Some(v) ==> v is Null || (v is Object && text_at_most(v, "ko"@) && text_at_most(
        v,
        "en"@,
    ) && text_at_most(v, "message"@) && text_or_nothing(v, "result_code"@, "resultCode"@))
}

pub open spec fn references_or_nothing(l: Option<JsonView>) -> bool {
    l matches Some(v) ==> v is Null || (v is Array && forall|k: int|
        0 <= k < v->Array_0.len() ==> (#[trigger] v->Array_0[k]) is Object && text_at_most(
            v->Array_0[k],
            "answer"@,
        ))
}

proof fn lemma_references(items: Seq<JsonView>)
    requires
        forall|k: int|
            0 <= k < items.len() ==> (#[trigger] items[k]) is Object && text_at_most(
                items[k],
                "answer"@,
            ),
    ensures
        read_references(items) is Some,
        read_references(items)->0.len() == items.len(),
        forall|k: int|
            0 <= k < items.len() ==> #[trigger] read_references(items)->0[k] == (match items[k].get(
                "answer"@,
            ) {
                Some(JsonView::Text(t)) => Some(t),
                _ => None,
            }),
    decreases items.len(),
{
    if items.len() > 0 {
        let front = items.drop_last();
        assert forall|k: int| 0 <= k < front.len() implies (#[trigger] front[k]) is Object
            && text_at_most(front[k], "answer"@) by {
            assert(front[k] == items[k]);
        }
        lemma_references(front);
        let x = items[items.len() - 1];
        assert(x is Object && text_at_most(x, "answer"@));
        assert forall|k: int| 0 <= k < items.len() implies #[trigger] read_references(items)->0[k]
            == (match items[k].get("answer"@) {
            Some(JsonView::Text(t)) => Some(t),
            _ => None,
        }) by {
            if k < front.len() {
                assert(front[k] == items[k]);
            }
        }
    }
}

/// An object whose fields are of the right types, whatever else is in it, is a chunk, and
/// its references are those that were sent.
pub proof fn law_what_is_a_chunk(v: &Json, r: Option<FabrixChunk>)
    requires
        call_ensures(FabrixChunk::from_json, (v,), r),
        v@ is Object,
        text_or_nothing(v@, "model_type"@, "modelType"@),
        text_at_most(v@, "content"@),
        text_or_nothing(v@, "finish_reason"@, "finishReason"@),
        text_at_most(v@, "status"@),
        text_or_nothing(v@, "response_code"@, "responseCode"@),
        text_or_nothing(v@, "event_status"@, "eventStatus"@),
        text_or_nothing(v@, "event_data"@, "eventData"@),
        text_or_nothing(v@, "reasoning_content"@, "reasoningContent"@),
        text_at_most(v@, "message"@),
        text_or_nothing(v@, "error_message"@, "errorMessage"@),
        v@.get("truncated"@) is None || v@.get("truncated"@)->0 is Null || v@.get("truncated"@)->0 is Bool,
        count_or_nothing(v@, "input_tokens"@, "inputTokens"@, "prompt_tokens"@, "promptTokens"@),
        count_or_nothing(
            v@,
            "output_tokens"@,
            "outputTokens"@,
            "completion_tokens"@,
            "completionTokens"@,
        ),
        usage_or_nothing(v@.get("usage"@)),
        v@.get("filter_block_reason"@) is None || v@.get("filterBlockReason"@) is None,
        verdict_or_nothing(v@.get("filter_block_reason"@)),
        verdict_or_nothing(v@.get("filterBlockReason"@)),
        v@.get("content_references"@) is None || v@.get("contentReferences"@) is None,
        references_or_nothing(v@.get("content_references"@)),
        references_or_nothing(v@.get("contentReferences"@)),
    ensures
        r is Some,
{
    let t = v@;
    lemma_text2(t, 0, "model_type"@, "modelType"@);
    lemma_text1(t, 1, "content"@);
    lemma_text2(t, 3, "finish_reason"@, "finishReason"@);
    lemma_text1(t, 4, "status"@);
    lemma_text2(t, 5, "response_code"@, "responseCode"@);
    lemma_text2(t, 6, "event_status"@, "eventStatus"@);
    lemma_text2(t, 7, "event_data"@, "eventData"@);
    lemma_text2(t, 8, "reasoning_content"@, "reasoningContent"@);
    lemma_references_field(t);
    lemma_verdict_field(t);
    lemma_text1(t, 11, "message"@);
    lemma_text2(t, 12, "error_message"@, "errorMessage"@);
    lemma_count4(t, 13, "input_tokens"@, "inputTokens"@, "prompt_tokens"@, "promptTokens"@);
    lemma_count4(
        t,
        14,
        "output_tokens"@,
        "outputTokens"@,
        "completion_tokens"@,
        "completionTokens"@,
    );
    lemma_usage_field(t);
    assert(flag_field(field(t, 2, "truncated"@)) is Some);
    assert(record(t, 16));
    assert(ChunkView::read(t) is Some);
}

proof fn lemma_text1(v: JsonView, at: nat, a: Seq<char>)
    requires
        v is Object,
        text_at_most(v, a),
    ensures
        text_field(field(v, at, a)) is Some,
{
}

proof fn lemma_text2(v: JsonView, at: nat, a: Seq<char>, b: Seq<char>)
    requires
        v is Object,
        text_or_nothing(v, a, b),
    ensures
        text_field(field2(v, at, a, b)) is Some,
{
}

proof fn lemma_count4(v: JsonView, at: nat, a: Seq<char>, b: Seq<char>, c: Seq<char>, d: Seq<char>)
    requires
        v is Object,
        count_or_nothing(v, a, b, c, d),
    ensures
        count_field(field4(v, at, a, b, c, d)) is Some,
{
}

proof fn lemma_usage_field(v: JsonView)
    requires
        v is Object,
        usage_or_nothing(v.get("usage"@)),
    ensures
        usage_field(optional(field(v, 15, "usage"@))) is Some,
{
    if let Some(u) = v.get("usage"@) {
        if u is Object {
            lemma_count4(u, 0, "prompt_tokens"@, "promptTokens"@, "inputTokens"@, "input_tokens"@);
            lemma_count4(
                u,
                1,
                "completion_tokens"@,
                "completionTokens"@,
                "outputTokens"@,
                "output_tokens"@,
            );
        }
    }
}

proof fn lemma_verdict(f: JsonView)
    requires
        f is Object,
        verdict_or_nothing(Some(f)),
    ensures
        read_filter(f) is Some,
{
    lemma_text1(f, 0, "ko"@);
    lemma_text1(f, 1, "en"@);
    lemma_text1(f, 2, "message"@);
    lemma_text2(f, 3, "result_code"@, "resultCode"@);
}

proof fn lemma_verdict_field(v: JsonView)
    requires
        v is Object,
        v.get("filter_block_reason"@) is None || v.get("filterBlockReason"@) is None,
        verdict_or_nothing(v.get("filter_block_reason"@)),
        verdict_or_nothing(v.get("filterBlockReason"@)),
    ensures
        filter_field(optional(field2(v, 10, "filter_block_reason"@, "filterBlockReason"@))) is Some,
{
    if let Some(f) = v.get("filter_block_reason"@) {
        if f is Object {
            lemma_verdict(f);
        }
    }
    if let Some(f) = v.get("filterBlockReason"@) {
        if f is Object {
            lemma_verdict(f);
        }
    }
}

proof fn lemma_references_field(v: JsonView)
    requires
        v is Object,
        v.get("content_references"@) is None || v.get("contentReferences"@) is None,
        references_or_nothing(v.get("content_references"@)),
        references_or_nothing(v.get("contentReferences"@)),
    ensures
        references_field(
            optional(field2(v, 9, "content_references"@, "contentReferences"@)),
        ) is Some,
{
    if let Some(JsonView::Array(items)) = v.get("content_references"@) {
        lemma_references(items);
    }
    if let Some(JsonView::Array(items)) = v.get("contentReferences"@) {
        lemma_references(items);
    }
}

/// The references of a chunk are those that were sent.
pub proof fn law_references_are_what_was_sent(
    v: &Json,
    r: Option<FabrixChunk>,
    items: Seq<JsonView>,
)
    requires
        call_ensures(FabrixChunk::from_json, (v,), r),
        v@ is Object,
        v@.get("content_references"@) == Some(JsonView::Array(items)) || v@.get(
            "contentReferences"@,
        ) == Some(JsonView::Array(items)),
        references_or_nothing(Some(JsonView::Array(items))),
    ensures
        r matches Some(c) ==> same_answers(c.content_references, items),
{
    lemma_references(items);
    if r is Some {
        let list = JsonView::Array(items);
        assert(references_or_nothing(Some(list)));
        assert forall|k: int| 0 <= k < items.len() implies (#[trigger] items[k]) is Object
            && text_at_most(items[k], "answer"@) by {
            assert(list->Array_0[k] == items[k]);
        }
        lemma_same_answers(r->0.content_references, items);
    }
}

/// The references answer what the objects answer, one by one.
pub open spec fn same_answers(list: Option<Vec<ContentReference>>, items: Seq<JsonView>) -> bool {
    &&& list is Some
    &&& list->0@.len() == items.len()
    &&& forall|k: int|
        0 <= k < items.len() ==> opt_text((#[trigger] list->0@[k]).answer) == (match items[k].get(
            "answer"@,
        ) {
            Some(JsonView::Text(t)) => Some(t),
            _ => None,
        })
}

proof fn lemma_same_answers(list: Option<Vec<ContentReference>>, items: Seq<JsonView>)
    requires
        list is Some,
        read_references(items) == Some(answers(list->0@)),
        forall|k: int|
            0 <= k < items.len() ==> (#[trigger] items[k]) is Object && text_at_most(
                items[k],
                "answer"@,
            ),
    ensures
        same_answers(list, items),
{
    lemma_references(items);
    let a = answers(list->0@);
    assert(a.len() == list->0@.len());
    assert forall|k: int| 0 <= k < items.len() implies opt_text((#[trigger] list->0@[k]).answer) == (
    match items[k].get("answer"@) {
        Some(JsonView::Text(t)) => Some(t),
        _ => None,
    }) by {
        assert(a[k] == opt_text(list->0@[k].answer));
        assert(read_references(items)->0[k] == a[k]);
    }
}

// ───────────────────────── what a chunk means ─────────────────────────

/// A word that stands for a failure, in capitals or not.
pub open spec fn alarming(s: Option<String>) -> bool {
    s is Some && (contains(lower(s->0@), "error"@) || contains(lower(s->0@), "fail"@))
}

pub open spec fn says_something(s: Option<String>) -> bool {
    s is Some && !blank(s->0@)
}

/// A chunk is a failure if one of its two statuses says so; it is a success if neither
/// does and it has a status, a code or a reason at all.
pub proof fn law_failure_and_success(c: &FabrixChunk, error: bool, success: bool)
    requires
        call_ensures(FabrixChunk::looks_like_error, (c,), error),
        call_ensures(FabrixChunk::looks_successful, (c,), success),
    ensures
        error <==> alarming(c.status) || alarming(c.event_status),
        success <==> !error && (says_something(c.status) || says_something(c.response_code)
            || says_something(c.finish_reason)),
{
}

/// What a failure says: the error message, else the message, else the event's data, else
/// the content.
pub proof fn law_what_a_failure_says(c: &FabrixChunk, r: String)
    requires
        call_ensures(FabrixChunk::error_text, (c,), r),
    ensures
        c.error_message is Some ==> r@ == c.error_message->0@,
        c.error_message is None && c.message is Some ==> r@ == c.message->0@,
        c.error_message is None && c.message is None && c.event_data is Some ==> r@
            == c.event_data->0@,
        c.error_message is None && c.message is None && c.event_data is None && c.content is Some
            ==> r@ == c.content->0@,
        c.error_message is None && c.message is None && c.event_data is None && c.content is None
            ==> r@ == "사내 서버가 오류를 반환했습니다"@,
{
}

/// The gateway counts if it gives both figures. Each is the chunk's own, or the one of its
/// `usage`; the prompt's comes first.
pub proof fn law_the_counts_of_a_chunk(c: &FabrixChunk, r: Option<(u32, u32)>)
    requires
        call_ensures(FabrixChunk::upstream_tokens, (c,), r),
    ensures
        r matches Some(pair) ==> {
            &&& c.input_tokens is Some ==> pair.0 == c.input_tokens->0
            &&& c.input_tokens is None ==> c.usage is Some && c.usage->0.prompt_tokens == Some(pair.0)
            &&& c.output_tokens is Some ==> pair.1 == c.output_tokens->0
            &&& c.output_tokens is None ==> c.usage is Some && c.usage->0.completion_tokens == Some(
                pair.1,
            )
        },
        (c.input_tokens is Some || (c.usage is Some && c.usage->0.prompt_tokens is Some)) && (
        c.output_tokens is Some || (c.usage is Some && c.usage->0.completion_tokens is Some))
            ==> r is Some,
{
}

proof fn lemma_given(list: Seq<Option<Seq<char>>>, k: int) -> (j: int)
    requires
        0 <= k < list.len(),
        nonempty(list[k]) is Some,
    ensures
        0 <= j < given(list).len(),
        given(list)[j] == nonempty(list[k])->0,
    decreases list.len(),
{
    if k == list.len() - 1 {
        given(list).len() - 1
    } else {
        lemma_given(list.drop_last(), k)
    }
}

proof fn lemma_none_given(list: Seq<Option<Seq<char>>>)
    requires
        forall|k: int| 0 <= k < list.len() ==> nonempty(#[trigger] list[k]) is None,
    ensures
        given(list).len() == 0,
    decreases list.len(),
{
    if list.len() > 0 {
        let front = list.drop_last();
        assert forall|k: int| 0 <= k < front.len() implies nonempty(#[trigger] front[k]) is None by {
            assert(front[k] == list[k]);
        }
        lemma_none_given(front);
        assert(nonempty(list[list.len() - 1]) is None);
    }
}

/// The answer is the content or, where that is empty, what the references answer: every
/// answer among them stands in it.
pub proof fn law_the_answer_of_a_chunk(c: &FabrixChunk, r: Option<String>, k: int)
    requires
        call_ensures(FabrixChunk::answer_text, (c,), r),
    ensures
        c.content is Some && c.content->0@.len() > 0 ==> r is Some && r->0@ == c.content->0@,
        (c.content is None || c.content->0@.len() == 0) && c.content_references is Some ==> {
            let list = c.content_references->0@;
            &&& 0 <= k < list.len() && list[k].answer is Some && list[k].answer->0@.len() > 0 ==> r is Some
                && contains(r->0@, list[k].answer->0@)
            &&& list.len() == 1 && list[0].answer is Some && list[0].answer->0@.len() > 0 ==> r is Some
                && r->0@ == list[0].answer->0@
            &&& (forall|j: int|
                0 <= j < list.len() ==> (#[trigger] list[j]).answer is None
                    || list[j].answer->0@.len() == 0) ==> r is None
        },
        (c.content is None || c.content->0@.len() == 0) && c.content_references is None ==> r is None,
{
    if (c.content is None || c.content->0@.len() == 0) && c.content_references is Some {
        let list = c.content_references->0@;
        let all = answers(list);
        assert(c@.references == Some(all));
        assert forall|j: int| 0 <= j < list.len() implies #[trigger] all[j] == opt_text(
            list[j].answer,
        ) by {}
        if 0 <= k < list.len() && list[k].answer is Some && list[k].answer->0@.len() > 0 {
            assert(all[k] == opt_text(list[k].answer));
            let j = lemma_given(all, k);
            lemma_join_holds(given(all), "\n"@, j);
            let whole = join(given(all), "\n"@);
            crate::text::lemma_find(whole, list[k].answer->0@);
        }
        if list.len() == 1 && list[0].answer is Some && list[0].answer->0@.len() > 0 {
            assert(given(all.drop_last()) == Seq::<Seq<char>>::empty());
            assert(all.last() == all[0]);
            assert(given(all) =~= seq![list[0].answer->0@]);
        }
        if forall|j: int|
            0 <= j < list.len() ==> (#[trigger] list[j]).answer is None || list[j].answer->0@.len()
                == 0 {
            assert forall|j: int| 0 <= j < all.len() implies nonempty(#[trigger] all[j]) is None by {
                assert(list[j].answer is None || list[j].answer->0@.len() == 0);
            }
            lemma_none_given(all);
        }
    } else if c.content is None || c.content->0@.len() == 0 {
        assert(c@.references is None);
    }
}

/// A text is blocked if the filter gives a reason and its code is none of the two that
/// mean that the text passed.
pub proof fn law_the_verdict(c: &FabrixChunk, r: Option<String>)
    requires
        call_ensures(FabrixChunk::filter_message, (c,), r),
    ensures
        c.filter_block_reason is None ==> r is None,
        c.filter_block_reason matches Some(f) ==> {
            let clear = f.result_code is Some && (f.result_code->0@ == "FR-200"@
                || f.result_code->0@ == "FR-201"@);
            &&& clear ==> r is None
            &&& !clear && f.message is Some && f.message->0@.len() > 0 ==> r is Some && r->0@
                == f.message->0@
            &&& !clear && f.message is None && f.ko is Some && f.ko->0@.len() > 0 ==> r is Some && r->0@
                == f.ko->0@
            &&& !clear && f.message is None && f.ko is None && f.en is Some && f.en->0@.len() > 0
                ==> r is Some && r->0@ == f.en->0@
            &&& f.message is None && f.ko is None && f.en is None ==> r is None
        },
{
}

} // verus!
