//! The gateway's stream.

use vstd::prelude::*;
use vstd::string::*;

use crate::bytes::utf8_lossy;
use crate::json::{json_parse, Json, JsonView};
use crate::openai::opt_text;
use crate::proxy::chunk::{ChunkView, FabrixChunk};
use crate::proxy::decode::{
    event_views, lemma_newline, newline, nonstream_events, DecoderView, EventView, StreamEvent,
};
use crate::text::{blank, starts_with, trim};

verus! {

/// The text is there and holds something.
pub open spec fn holds(s: Option<String>) -> bool {
    s is Some && s->0@.len() > 0
}

/// One event, or none.
pub open spec fn one_if(b: bool, e: EventView) -> Seq<EventView> {
    if b {
        seq![e]
    } else {
        seq![]
    }
}

/// A frame: a failure is reported and changes nothing; any other adds its content to the
/// text, and gives its reasoning, its content and its reason, in this order. The last
/// reason counts, the first model, and the last figures.
pub proof fn law_a_frame(
    d: DecoderView,
    v: &Json,
    c: FabrixChunk,
    error: bool,
    says: String,
    tokens: Option<(u32, u32)>,
)
    requires
        call_ensures(FabrixChunk::from_json, (v,), Some(c)),
        call_ensures(FabrixChunk::looks_like_error, (&c,), error),
        call_ensures(FabrixChunk::error_text, (&c,), says),
        call_ensures(FabrixChunk::upstream_tokens, (&c,), tokens),
    ensures
        ({
            let r = d.on_value(v@);
            &&& error ==> r.events == seq![EventView::Error(says@)] && r.state == d
            &&& !error ==> {
                &&& r.events == one_if(
                    holds(c.reasoning_content),
                    EventView::Reasoning(c.reasoning_content->0@),
                ) + one_if(holds(c.content), EventView::Delta(c.content->0@)) + one_if(
                    holds(c.finish_reason),
                    EventView::Finish(c.finish_reason->0@),
                )
                &&& c.content is Some ==> r.state.text == d.text + c.content->0@
                &&& c.content is None ==> r.state.text == d.text
                &&& holds(c.finish_reason) ==> r.state.finish_reason == Some(c.finish_reason->0@)
                &&& !holds(c.finish_reason) ==> r.state.finish_reason == d.finish_reason
                &&& d.model_type is Some ==> r.state.model_type == d.model_type
                &&& d.model_type is None ==> r.state.model_type == opt_text(c.model_type)
                &&& r.state.truncated <==> d.truncated || c.truncated == Some(true)
                &&& tokens is Some ==> r.state.upstream_tokens == tokens
                &&& tokens is None ==> r.state.upstream_tokens == d.upstream_tokens
                &&& r.state.undecodable == d.undecodable && r.state.done == d.done && r.state.buf
                    == d.buf
            }
        }),
{
    let r = d.on_value(v@);
    assert(ChunkView::read(v@) == Some(c@));
    if !error {
        assert(r.events =~= one_if(
            holds(c.reasoning_content),
            EventView::Reasoning(c.reasoning_content->0@),
        ) + one_if(holds(c.content), EventView::Delta(c.content->0@)) + one_if(
            holds(c.finish_reason),
            EventView::Finish(c.finish_reason->0@),
        ));
        if c.content is None {
            assert(d.text + Seq::<char>::empty() =~= d.text);
        }
    }
}

/// A frame that cannot be read is counted and gives nothing.
pub proof fn law_an_unreadable_frame(d: DecoderView, v: &Json)
    requires
        call_ensures(FabrixChunk::from_json, (v,), None),
    ensures
        ({
            let r = d.on_value(v@);
            &&& r.events.len() == 0
            &&& r.state == (DecoderView { undecodable: r.state.undecodable, ..d })
            &&& d.undecodable < u32::MAX ==> r.state.undecodable == d.undecodable + 1
        }),
{
}

/// A line: `[DONE]` ends the stream, JSON is a frame or a list of frames, and anything
/// that is no `data:` line, holds nothing or is no JSON is passed over.
pub proof fn law_a_line(d: DecoderView, raw: Seq<char>, payload: Seq<char>)
    ensures
        !starts_with(trim(raw), "data:"@) ==> d.on_line(raw).events.len() == 0 && d.on_line(raw).state
            == d,
        trim(raw) == "data:"@ + payload ==> {
            let r = d.on_line(raw);
            &&& blank(payload) ==> r.events.len() == 0 && r.state == d
            &&& trim(payload) == "[DONE]"@ ==> r.events == seq![EventView::Done] && r.state == (
            DecoderView { done: true, ..d })
            &&& !blank(payload) && trim(payload) != "[DONE]"@ ==> match json_parse(trim(payload)) {
                Ok(JsonView::Array(items)) => r == d.on_values(items),
                Ok(v) => r == d.on_value(v),
                Err(_) => r.events.len() == 0 && r.state == d,
            }
        },
{
    if trim(raw) == "data:"@ + payload {
        let n = "data:"@.len() as int;
        assert(trim(raw).take(n) =~= "data:"@);
        assert(trim(raw).skip(n) =~= payload);
        reveal_strlit("[DONE]");
    }
}

/// Frames are taken in one after the other.
pub proof fn law_frames_follow(d: DecoderView, a: Seq<JsonView>, b: Seq<JsonView>)
    ensures
        ({
            let first = d.on_values(a);
            let second = first.state.on_values(b);
            let all = d.on_values(a + b);
            &&& all.state == second.state
            &&& all.events == first.events + second.events
            &&& a.len() == 0 ==> first.state == d && first.events.len() == 0
            &&& a.len() == 1 ==> first.state == d.on_value(a[0]).state && first.events == d.on_value(
                a[0],
            ).events
        }),
    decreases b.len(),
{
    let first = d.on_values(a);
    if a.len() == 1 {
        let none = d.on_values(a.drop_last());
        assert(none.state == d && none.events.len() == 0);
        assert(none.events + d.on_value(a[0]).events =~= d.on_value(a[0]).events);
    }
    if b.len() == 0 {
        assert(a + b =~= a);
        assert(first.events + Seq::<EventView>::empty() =~= first.events);
    } else {
        law_frames_follow(d, a, b.drop_last());
        assert((a + b).drop_last() =~= a + b.drop_last());
        let x = first.state.on_values(b.drop_last());
        let y = x.state.on_value(b.last());
        assert(first.events + x.events + y.events =~= first.events + (x.events + y.events));
    }
}

/// Lines are taken in one after the other, each up to its line feed; what has no line feed
/// yet is held back.
pub proof fn law_lines_follow(d: DecoderView, line: Seq<u8>, rest: Seq<u8>)
    requires
        !line.contains(10u8),
    ensures
        ({
            let one = d.holding(seq![]).on_line(utf8_lossy(line));
            let all = d.holding(line + seq![10u8] + rest).decode();
            let two = one.state.holding(rest).decode();
            &&& all.events == one.events + two.events
            &&& all.state == two.state
            &&& d.holding(line).decode().events.len() == 0
            &&& d.holding(line).decode().state == d.holding(line)
        }),
{
    let buf = line + seq![10u8] + rest;
    let n = line.len() as int;
    lemma_newline(buf);
    lemma_newline(line);
    assert(buf[n] == 10);
    assert forall|i: int| 0 <= i < n implies buf[i] != 10 by {
        assert(line.contains(line[i]));
    }
    assert(newline(buf) == Some(n));
    if newline(line) is Some {
        assert(line.contains(line[newline(line)->0]));
    }
    assert(buf.take(n) =~= line);
    assert(buf.skip(n + 1) =~= rest);
    lemma_line_ignores_buf(d, buf, utf8_lossy(line));
    lemma_line_ignores_buf(d, seq![], utf8_lossy(line));
    let a = d.holding(buf).on_line(utf8_lossy(line));
    let b = d.holding(seq![]).on_line(utf8_lossy(line));
    assert(a.state.holding(rest) == b.state.holding(rest));
}

proof fn lemma_values_ignore_buf(d: DecoderView, bytes: Seq<u8>, items: Seq<JsonView>)
    ensures
        d.holding(bytes).on_values(items).events == d.on_values(items).events,
        d.holding(bytes).on_values(items).state == d.on_values(items).state.holding(bytes),
    decreases items.len(),
{
    if items.len() > 0 {
        lemma_values_ignore_buf(d, bytes, items.drop_last());
    }
}

proof fn lemma_line_ignores_buf(d: DecoderView, bytes: Seq<u8>, raw: Seq<char>)
    ensures
        d.holding(bytes).on_line(raw).events == d.on_line(raw).events,
        d.holding(bytes).on_line(raw).state == d.on_line(raw).state.holding(bytes),
{
    let payload = trim(trim(raw).skip("data:"@.len() as int));
    if let Ok(JsonView::Array(items)) = json_parse(payload) {
        lemma_values_ignore_buf(d, bytes, items);
    }
}

/// A whole response gives its reasoning, its answer and its reason, in this order.
pub proof fn law_a_whole_response(c: &FabrixChunk, answer: Option<String>, r: Vec<StreamEvent>)
    requires
        call_ensures(nonstream_events, (c,), r),
        call_ensures(FabrixChunk::answer_text, (c,), answer),
    ensures
        event_views(r@) == one_if(
            holds(c.reasoning_content),
            EventView::Reasoning(c.reasoning_content->0@),
        ) + one_if(answer is Some, EventView::Delta(answer->0@)) + one_if(
            c.finish_reason is Some && !blank(c.finish_reason->0@),
            EventView::Finish(c.finish_reason->0@),
        ),
{
    assert(event_views(r@) =~= one_if(
        holds(c.reasoning_content),
        EventView::Reasoning(c.reasoning_content->0@),
    ) + one_if(answer is Some, EventView::Delta(answer->0@)) + one_if(
        c.finish_reason is Some && !blank(c.finish_reason->0@),
        EventView::Finish(c.finish_reason->0@),
    ));
}

} // verus!
