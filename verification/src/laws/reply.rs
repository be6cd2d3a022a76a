//! What the client gets.

use vstd::prelude::*;
use vstd::string::*;
use vstd::utf8::encode_utf8;

use crate::json::{json_parse, Json, JsonView};
use crate::openai::{opt_text, seq_of, ChatChunk, Delta, Usage};
use crate::logstore::{LogEntry, Stamp};
use crate::proxy::chat_log::{log_body, Ctx};
use crate::proxy::chat_reply::{
    chunks_show, gather, gathered_lines, has_last, is_chunk, is_last, reason_line, taken, Collected,
    Gathered, LastFrame, StreamLog,
};
use crate::proxy::chunk::FabrixChunk;
use crate::proxy::decode::{delta_text, DecoderView, EventView};
use crate::proxy::fabrix::{extract_object, FabrixError};
use crate::proxy::scan::{
    law_scan_frames_do_not_matter, lemma_one_seg, scan, Call, ChannelView, Seg,
};
use crate::proxy::think::{
    add_part, lemma_think_one, split_think, Part, ThinkSeg, ThinkState,
};
use crate::proxy::tools::{Channel, ScannedCall};
use crate::proxy::turn::{call_text, scanned_views, PieceView, Turn, TurnModel};
use crate::proxy::usage::{build, meta_line, Counted};
use crate::text::{
    blank, byte_len, contains, dec, lemma_byte_len_concat, lemma_find, lemma_partial_up_to, views,
};

use super::calls::{law_without_a_closing_tag, lemma_add_part, said_on};
use super::text::{lemma_holds, lemma_holds_itself, lemma_holds_within, lemma_join_holds};

verus! {

// ───────────────────────── a turn ─────────────────────────

/// What an event does to a turn: text is taken in on its channel, starting over forgets
/// the answer, and the other events are noted and change nothing else.
pub proof fn law_events(t: TurnModel, text: Seq<char>)
    ensures
        t.on_event(EventView::Finish(text)).state == (TurnModel { upstream_finish: Some(text), ..t }),
        t.on_event(EventView::Error(text)).state == (TurnModel { failure: Some(text), ..t }),
        t.on_event(EventView::Done).state == (TurnModel { done: true, ..t }),
        ({
            let r = t.on_event(EventView::Reset).state;
            &&& r.content.len() == 0 && r.raw_content.len() == 0
            &&& r.reasoning == t.reasoning && r.raw_reasoning == t.raw_reasoning && r.calls
                == t.calls
            &&& r.scanner.next_index == t.scanner.next_index && r.scanner.names == t.scanner.names
            &&& r.scanner.content.buf.len() == 0 && !r.scanner.content.in_call
            &&& r.scanner.reasoning == t.scanner.reasoning
            &&& r.upstream_finish == t.upstream_finish && r.failure == t.failure && r.done == t.done
        }),
        ({
            let r = t.on_event(EventView::Delta(text)).state;
            &&& r.raw_content == t.raw_content + text && r.raw_reasoning == t.raw_reasoning
            &&& r.upstream_finish == t.upstream_finish && r.failure == t.failure && r.done == t.done
        }),
        ({
            let r = t.on_event(EventView::Reasoning(text)).state;
            &&& r.raw_reasoning == t.raw_reasoning + text && r.raw_content == t.raw_content
            &&& r.content == t.content
            &&& !t.scanner.enabled ==> r.reasoning == t.reasoning + text
            &&& r.upstream_finish == t.upstream_finish && r.failure == t.failure && r.done == t.done
        }),
{
    let told = TurnModel { raw_content: t.raw_content + text, ..t };
    match t.think {
        Some(th) => {
            let step = split_think(th.state.plus(text), false);
            lemma_parts_keep(TurnModel { think: Some(th.after(step)), ..told }, step.parts());
        },
        None => {
            lemma_parts_keep(told, add_part(seq![], Channel::Content, text));
        },
    }
    lemma_one_seg(Seg::Prose(text));
}

proof fn lemma_parts_keep(t: TurnModel, parts: Seq<Part>)
    ensures
        ({
            let r = t.take_parts(parts).state;
            &&& r.raw_content == t.raw_content && r.raw_reasoning == t.raw_reasoning
            &&& r.upstream_finish == t.upstream_finish && r.failure == t.failure && r.done == t.done
            &&& r.think == t.think && r.truncated == t.truncated
        }),
    decreases parts.len(),
{
    if parts.len() > 0 {
        lemma_parts_keep(t, parts.drop_last());
    }
}

/// Events are taken in one after the other.
pub proof fn law_events_follow(t: TurnModel, a: Seq<EventView>, b: Seq<EventView>)
    ensures
        ({
            let one = t.on_events(a);
            let two = one.state.on_events(b);
            let all = t.on_events(a + b);
            &&& all.state == two.state
            &&& all.pieces == one.pieces + two.pieces
            &&& a.len() == 1 ==> one.state == t.on_event(a[0]).state && one.pieces == t.on_event(
                a[0],
            ).pieces
            &&& a.len() == 0 ==> one.state == t && one.pieces.len() == 0
        }),
    decreases b.len(),
{
    let one = t.on_events(a);
    if a.len() == 1 {
        assert(t.on_events(a.drop_last()).state == t);
        assert(t.on_events(a.drop_last()).pieces + t.on_event(a[0]).pieces =~= t.on_event(
            a[0],
        ).pieces);
    }
    if b.len() == 0 {
        assert(a + b =~= a);
        assert(one.pieces + Seq::<PieceView>::empty() =~= one.pieces);
    } else {
        law_events_follow(t, a, b.drop_last());
        assert((a + b).drop_last() =~= a + b.drop_last());
        let x = one.state.on_events(b.drop_last());
        let y = x.state.on_event(b.last());
        assert(one.pieces + x.pieces + y.pieces =~= one.pieces + (x.pieces + y.pieces));
    }
}

proof fn lemma_parts_pass(t: TurnModel, parts: Seq<Part>)
    requires
        !t.scanner.enabled,
    ensures
        ({
            let r = t.take_parts(parts).state;
            &&& r.content == t.content + said_on(parts, Channel::Content)
            &&& r.reasoning == t.reasoning + said_on(parts, Channel::Reasoning)
            &&& r.calls == t.calls
            &&& !r.scanner.enabled
            &&& r.think == t.think
        }),
    decreases parts.len(),
{
    if parts.len() == 0 {
        assert(t.content + Seq::<char>::empty() =~= t.content);
        assert(t.reasoning + Seq::<char>::empty() =~= t.reasoning);
    } else {
        let (ch, text) = parts.last();
        let front = t.take_parts(parts.drop_last()).state;
        lemma_parts_pass(t, parts.drop_last());
        lemma_one_seg(Seg::Prose(text));
        let r = front.take(ch, text).state;
        assert(r.calls =~= t.calls);
        assert(r.content =~= t.content + said_on(parts, Channel::Content));
        assert(r.reasoning =~= t.reasoning + said_on(parts, Channel::Reasoning));
    }
}

proof fn lemma_end_passes(t: TurnModel)
    requires
        !t.scanner.enabled,
        t.think is Some,
    ensures
        ({
            let parts = split_think(t.think->0.state, true).parts();
            let r = t.on_end().state;
            &&& r.content == t.content + said_on(parts, Channel::Content)
            &&& r.reasoning == t.reasoning + said_on(parts, Channel::Reasoning)
            &&& r.calls == t.calls
        }),
{
    let th = t.think->0;
    let step = split_think(th.state, true);
    let start = TurnModel { think: Some(th.after(step)), ..t };
    lemma_parts_pass(start, step.parts());
    lemma_one_seg(Seg::Prose(seq![]));
    let first = start.take_parts(step.parts()).state;
    let none = Seq::<char>::empty();
    let no_calls = Seq::<Call>::empty();
    assert(first.content + none =~= first.content);
    assert(first.calls + no_calls =~= first.calls);
    assert(first.reasoning + none =~= first.reasoning);
    let second = first.end(Channel::Content).state;
    assert(second.content == first.content && second.calls == first.calls && second.reasoning
        == first.reasoning);
    assert(!second.scanner.enabled);
}

/// Without tools, an answer without tags is the message as it came.
pub proof fn law_an_answer_comes_through(text: Seq<char>)
    requires
        !contains(text, "<think>"@),
        !contains(text, "<thinking>"@),
    ensures
        ({
            let r = TurnModel::fresh(seq![], true).on_delta(text).state.on_end().state;
            &&& r.content == text
            &&& r.reasoning.len() == 0
            &&& r.calls.len() == 0
        }),
{
    let t = TurnModel::fresh(seq![], true);
    let th = t.think->0;
    assert(th.state.buf + text =~= text);
    let st = ThinkState { buf: text, inside: None };
    let step = split_think(st, false);
    let keep = crate::proxy::think::partial_open(text);
    lemma_partial_up_to(
        text,
        crate::proxy::think::think_open(0),
        (crate::proxy::think::think_open(0).len() - 1) as nat,
    );
    lemma_partial_up_to(
        text,
        crate::proxy::think::think_open(1),
        (crate::proxy::think::think_open(1).len() - 1) as nat,
    );
    let cut = text.len() - keep;
    let head = text.take(cut);
    let held = text.skip(cut);
    assert(step.segs == seq![ThinkSeg::Answer(head)]);
    assert(step.state == (ThinkState { buf: held, inside: None }));
    let none = Seq::<Part>::empty();
    lemma_think_one(ThinkSeg::Answer(head), none);
    lemma_add_part(none, Channel::Content, head, Channel::Content);
    lemma_add_part(none, Channel::Content, head, Channel::Reasoning);
    let start = TurnModel {
        think: Some(th.after(step)),
        raw_content: t.raw_content + text,
        ..t
    };
    lemma_parts_pass(start, step.parts());
    let mid = t.on_delta(text).state;
    lemma_tail_holds(text, cut, "<think>"@);
    lemma_tail_holds(text, cut, "<thinking>"@);
    lemma_find(Seq::<char>::empty(), "</think>"@);
    reveal_strlit("</think>");
    law_without_a_closing_tag(held, seq![]);
    lemma_end_passes(mid);
    let r = mid.on_end().state;
    assert(r.content =~= head + held);
    assert(head + held =~= text);
    assert(r.reasoning =~= seq![]);
}

/// Text of at most 2 MiB without `<think>` tags, in a turn with tools: what the client
/// gets, and which calls, is what scanning the text gives.
#[verifier::rlimit(30)]
pub proof fn law_calls_come_through(names: Seq<Seq<char>>, text: Seq<char>)
    requires
        !contains(text, "<think>"@),
        !contains(text, "<thinking>"@),
        byte_len(text) <= 2097152,
        TurnModel::fresh(names, true).scanner.enabled,
    ensures
        ({
            let t = TurnModel::fresh(names, true);
            let r = t.on_delta(text).state.on_end().state;
            let step = scan(ChannelView { buf: text, in_call: false }, t.scanner.names, true);
            &&& r.content == step.text()
            &&& r.calls == step.calls()
            &&& r.reasoning.len() == 0
        }),
{
    let t = TurnModel::fresh(names, true);
    let known = t.scanner.names;
    let th = t.think->0;
    assert(th.state.buf + text =~= text);
    let step = split_think(ThinkState { buf: text, inside: None }, false);
    let (head, held) = lemma_split_plain(text);
    let none = Seq::<Part>::empty();
    let c = Channel::Content;
    let start = TurnModel { think: Some(th.after(step)), raw_content: t.raw_content + text, ..t };
    assert(step.parts() == add_part(none, c, head));
    lemma_part_taken(start, head);
    let mid = t.on_delta(text).state;
    assert(mid == start.take_parts(step.parts()).state);
    let last = split_think(ThinkState { buf: held, inside: None }, true);
    let th2 = mid.think->0;
    assert(th2.state == (ThinkState { buf: held, inside: None }));
    let start2 = TurnModel { think: Some(th2.after(last)), ..mid };
    assert(last.parts() == add_part(none, c, held));
    lemma_part_taken(start2, held);
    let first = start2.take_parts(last.parts()).state;
    let second = first.end(c).state;
    let third = second.end(Channel::Reasoning).state;
    assert(mid.on_end().state == third);
    // The scanner sees the text in three steps.
    let fresh = ChannelView::fresh();
    assert(fresh.plus(head).buf =~= head);
    let s1 = scan(fresh.plus(head), known, false);
    let s2 = scan(s1.state.plus(held), known, false);
    let s3 = scan(s2.state.plus(seq![]), known, true);
    lemma_byte_len_concat(head, held);
    assert(head + held =~= text);
    law_scan_frames_do_not_matter(fresh.plus(head), held, known, false);
    assert(fresh.plus(head).plus(held).buf =~= text);
    let whole = ChannelView { buf: text, in_call: false };
    law_scan_frames_do_not_matter(whole, seq![], known, true);
    assert(whole.plus(seq![]).buf =~= text);
    let all = scan(whole, known, true);
    lemma_nothing_scanned(known, true);
    lemma_nothing_scanned(known, false);
    if head.len() == 0 {
        assert(fresh.plus(head) == fresh);
    }
    assert(mid.content =~= s1.text() && mid.calls =~= s1.calls());
    assert(mid.scanner.content == s1.state);
    if held.len() == 0 {
        assert(fresh.plus(head).plus(held) == fresh.plus(head));
        assert(s2.text() =~= seq![]) by {
            assert((s1.text() + s2.text()).len() == s1.text().len());
        }
        assert(s2.calls() =~= seq![]) by {
            assert((s1.calls() + s2.calls()).len() == s1.calls().len());
        }
    }
    assert(first.scanner.content == s2.state);
    assert(first.content =~= s1.text() + s2.text());
    assert(first.calls =~= s1.calls() + s2.calls());
    assert(second.content =~= all.text());
    assert(second.calls =~= all.calls());
    // Nothing came on the other channel.
    assert(fresh.plus(seq![]).buf =~= seq![]);
    assert(second.scanner.reasoning == fresh);
    assert(third.content == second.content);
    assert(third.calls =~= second.calls);
    assert(third.reasoning =~= seq![]);
}

proof fn lemma_nothing_scanned(names: Seq<Seq<char>>, eof: bool)
    ensures
        ({
            let s = scan(ChannelView::fresh(), names, eof);
            s.text().len() == 0 && s.calls().len() == 0 && s.state == ChannelView::fresh()
        }),
{
    crate::proxy::scan::lemma_tag_lens();
    let none = Seq::<char>::empty();
    lemma_find(none, crate::proxy::scan::OPEN@);
    lemma_partial_up_to(none, crate::proxy::scan::OPEN@, 10);
    assert(none.take(0) =~= none);
    assert(none.skip(0) =~= none);
    lemma_one_seg(Seg::Prose(none));
}

proof fn lemma_part_taken(t: TurnModel, text: Seq<char>)
    requires
        t.scanner.enabled,
    ensures
        ({
            let step = scan(t.scanner.content.plus(text), t.scanner.names, false);
            let r = t.take_parts(add_part(seq![], Channel::Content, text)).state;
            &&& text.len() > 0 ==> r.content == t.content + step.text() && r.calls == t.calls
                + step.calls() && r.scanner.content == step.state
            &&& text.len() == 0 ==> r == t
            &&& r.reasoning == t.reasoning
            &&& r.scanner.reasoning == t.scanner.reasoning
            &&& r.scanner.names == t.scanner.names && r.scanner.enabled && r.think == t.think
        }),
{
    let parts = add_part(seq![], Channel::Content, text);
    assert(t.take_parts(seq![]).state == t);
    if text.len() > 0 {
        assert(parts =~= seq![(Channel::Content, text)]);
        assert(parts.drop_last() =~= seq![]);
    }
}

/// How a text without tags is split: its head is let go, and what may be the beginning of
/// a tag is held until the end.
proof fn lemma_split_plain(text: Seq<char>) -> (r: (Seq<char>, Seq<char>))
    requires
        !contains(text, "<think>"@),
        !contains(text, "<thinking>"@),
    ensures
        text == r.0 + r.1,
        ({
            let step = split_think(ThinkState { buf: text, inside: None }, false);
            let last = split_think(ThinkState { buf: r.1, inside: None }, true);
            &&& step.parts() == add_part(seq![], Channel::Content, r.0)
            &&& step.state == (ThinkState { buf: r.1, inside: None })
            &&& last.parts() == add_part(seq![], Channel::Content, r.1)
        }),
{
    let keep = crate::proxy::think::partial_open(text);
    lemma_partial_up_to(
        text,
        crate::proxy::think::think_open(0),
        (crate::proxy::think::think_open(0).len() - 1) as nat,
    );
    lemma_partial_up_to(
        text,
        crate::proxy::think::think_open(1),
        (crate::proxy::think::think_open(1).len() - 1) as nat,
    );
    let cut = text.len() - keep;
    let head = text.take(cut);
    let held = text.skip(cut);
    let none = Seq::<Part>::empty();
    lemma_think_one(ThinkSeg::Answer(head), none);
    lemma_think_one(ThinkSeg::Answer(held), none);
    lemma_tail_holds(text, cut, "<think>"@);
    lemma_tail_holds(text, cut, "<thinking>"@);
    assert(held.take(held.len() as int) =~= held);
    assert(head + held =~= text);
    (head, held)
}

proof fn lemma_tail_holds(s: Seq<char>, cut: int, n: Seq<char>)
    requires
        0 <= cut <= s.len(),
        !contains(s, n),
    ensures
        !contains(s.skip(cut), n),
{
    if contains(s.skip(cut), n) {
        lemma_holds_within(s.take(cut), s.skip(cut), seq![], n);
        assert(s.take(cut) + s.skip(cut) + Seq::<char>::empty() =~= s);
    }
}

/// The text that is counted as completion holds the answer, the reasoning, and the name
/// and the arguments of each call.
pub proof fn law_the_whole_completion_is_counted(
    turn: &Turn,
    content: &str,
    reasoning: &str,
    calls: &[ScannedCall],
    r: String,
    k: int,
)
    requires
        turn.wf(),
        call_ensures(Turn::completion_text, (turn,), r),
        call_ensures(Turn::content, (turn,), content),
        call_ensures(Turn::reasoning, (turn,), reasoning),
        call_ensures(Turn::calls, (turn,), calls),
    ensures
        contains(r@, content@),
        contains(r@, reasoning@),
        0 <= k < calls@.len() ==> contains(r@, calls@[k].name@ + calls@[k].arguments@),
        calls@.len() == 0 ==> r@ == content@ + reasoning@,
{
    let all = scanned_views(calls@);
    let tail = call_text(all);
    lemma_holds(seq![], content@, reasoning@ + tail);
    assert(Seq::<char>::empty() + content@ + (reasoning@ + tail) =~= r@);
    lemma_holds(content@, reasoning@, tail);
    assert(content@ + reasoning@ + tail =~= r@);
    if 0 <= k < calls@.len() {
        assert(all[k] == (calls@[k].name@, calls@[k].arguments@));
        lemma_call_text(all, k);
        lemma_holds_within(content@ + reasoning@, tail, seq![], all[k].0 + all[k].1);
        assert(content@ + reasoning@ + tail + Seq::<char>::empty() =~= r@);
    }
    if calls@.len() == 0 {
        assert(content@ + reasoning@ + tail =~= content@ + reasoning@);
    }
}

proof fn lemma_call_text(calls: Seq<Call>, k: int)
    requires
        0 <= k < calls.len(),
    ensures
        contains(call_text(calls), calls[k].0 + calls[k].1),
    decreases calls.len(),
{
    let front = call_text(calls.drop_last());
    let last = calls.last();
    if k == calls.len() - 1 {
        lemma_holds(front, last.0 + last.1, seq![]);
        assert(front + (last.0 + last.1) + Seq::<char>::empty() =~= call_text(calls));
    } else {
        lemma_call_text(calls.drop_last(), k);
        lemma_holds_within(seq![], front, last.0 + last.1, calls[k].0 + calls[k].1);
        assert(Seq::<char>::empty() + front + (last.0 + last.1) =~= call_text(calls));
    }
}

/// The reason that the client is told: calls come first, then a break and a cut, which
/// are told as `length`.
pub proof fn law_the_reason_of_a_turn(turn: &Turn, called: bool, failure: Option<&str>, r: &'static str)
    requires
        call_ensures(Turn::finish_reason, (turn,), r),
        call_ensures(Turn::saw_call, (turn,), called),
        call_ensures(Turn::failure, (turn,), failure),
    ensures
        called ==> r@ == "tool_calls"@,
        !called && failure is Some ==> r@ == "length"@,
        !called && turn@.truncated ==> r@ == "length"@,
        !called && failure is None && !turn@.truncated && turn@.upstream_finish is None ==> r@
            == "stop"@,
{
    super::upstream::lemma_words();
    reveal_strlit("error");
    crate::text::lemma_no_white("error"@);
    assert(crate::text::lower("error"@) =~= "error"@);
}

/// The content of a message is left out only where there are calls and nothing is said.
pub proof fn law_the_content_of_a_message(
    turn: &Turn,
    called: bool,
    content: &str,
    r: Option<String>,
    thought: Option<String>,
    reasoning: &str,
)
    requires
        call_ensures(Turn::assistant_content, (turn,), r),
        call_ensures(Turn::saw_call, (turn,), called),
        call_ensures(Turn::content, (turn,), content),
        call_ensures(Turn::reasoning_field, (turn,), thought),
        call_ensures(Turn::reasoning, (turn,), reasoning),
    ensures
        r is None <==> called && blank(content@),
        r is Some ==> r->0@ == content@,
        thought is None <==> reasoning@.len() == 0,
        thought is Some ==> thought->0@ == reasoning@,
{
}

/// Each piece is a chunk of its own: text under its channel's name, a call with its
/// number, its name and its arguments.
pub proof fn law_chunks(
    chunks: Seq<ChatChunk>,
    pieces: Seq<PieceView>,
    id: Seq<char>,
    created: i64,
    model: Seq<char>,
    k: int,
)
    requires
        chunks_show(chunks, pieces, id, created, model),
        0 <= k < pieces.len(),
    ensures
        chunks.len() == pieces.len(),
        ({
            let c = chunks[k];
            let d = c.choices@[0].delta;
            &&& c.id@ == id && c.created == created && c.model@ == model && c.object@
                == "chat.completion.chunk"@
            &&& c.choices@.len() == 1 && c.choices@[0].index == 0 && c.choices@[0].finish_reason is None
            &&& c.usage is None
            &&& match pieces[k] {
                PieceView::Content(t) => d.content is Some && d.content->0@ == t
                    && d.reasoning_content is None && d.tool_calls is None,
                PieceView::Reasoning(t) => d.content is None && d.reasoning_content is Some
                    && d.reasoning_content->0@ == t && d.tool_calls is None,
                PieceView::Call(index, name, arguments) => d.content is None
                    && d.reasoning_content is None && d.tool_calls is Some && d.tool_calls->0@.len()
                    == 1 && d.tool_calls->0@[0].index == index && d.tool_calls->0@[0].id is Some
                    && d.tool_calls->0@[0].function is Some && opt_text(
                    d.tool_calls->0@[0].function->0.name,
                ) == Some(name) && opt_text(d.tool_calls->0@[0].function->0.arguments) == Some(
                    arguments,
                ),
            }
        }),
{
    assert(is_chunk(chunks[k], id, created, model));
}

/// The time of the first text is that of the first event that brings any, and stays.
pub proof fn law_the_first_text(log: StreamLog, events: Seq<EventView>, elapsed: Seq<char>, k: int)
    ensures
        log.first_token is Some ==> log.first_text(events, elapsed) == Some(log.first_token->0@),
        log.first_token is None && 0 <= k < events.len() && (events[k] is Delta
            || events[k] is Reasoning) ==> log.first_text(events, elapsed) == Some(elapsed),
        log.first_token is None && (forall|j: int|
            0 <= j < events.len() ==> !(#[trigger] events[j] is Delta) && !(events[j] is Reasoning))
            ==> log.first_text(events, elapsed) is None,
{
}

/// The log of a stream keeps what was said, and why it broke off.
pub proof fn law_the_log_of_a_stream(log: &StreamLog, stamp: Stamp, said: String, r: LogEntry)
    requires
        call_ensures(StreamLog::entry, (log, stamp), r),
        call_ensures(log_body, (&log.turn,), said),
    ensures
        r.status == 200 && r.id == stamp.id,
        said@.len() > 0 ==> contains(r.resp_body@, said@),
        said@.len() > 0 && log.turn@.failure is None ==> r.resp_body@ == said@,
        log.turn@.failure matches Some(m) ==> contains(r.resp_body@, m),
        !log.drained ==> r.is_error && opt_text(r.note) == Some("클라이언트가 연결을 끊음"@),
        log.drained && log.turn@.failure is Some ==> r.is_error && opt_text(r.note) == Some(
            "스트리밍 중 끊김"@,
        ),
        r.is_error <==> r.note is Some,
{
    lemma_holds_itself(said@);
    if let Some(m) = log.turn@.failure {
        lemma_holds_itself(m);
        if said@.len() > 0 {
            let b = "\n\n[중단] "@;
            lemma_holds(said@ + b, m, seq![]);
            assert(said@ + b + m + Seq::<char>::empty() =~= r.resp_body@);
            lemma_holds(seq![], said@, b + m);
            assert(Seq::<char>::empty() + said@ + (b + m) =~= r.resp_body@);
        }
    }
}

/// The log of a whole answer tells its counts and its reason.
pub proof fn law_the_log_of_an_answer(
    ctx: &Ctx,
    g: &Gathered,
    raw: &str,
    id: String,
    created: i64,
    model: String,
    fingerprint: Option<String>,
    r: Result<Collected, FabrixError>,
    reason: &'static str,
    said: String,
    line: String,
)
    requires
        g.turn.wf(),
        call_ensures(Ctx::complete, (ctx, g, raw, id, created, model, fingerprint), r),
        call_ensures(Turn::finish_reason, (&g.turn,), reason),
        call_ensures(log_body, (&g.turn,), said),
        r is Ok,
        call_ensures(meta_line, (&r->Ok_0.counted,), line),
    ensures
        r->Ok_0.body@ == said@,
        contains(r->Ok_0.meta@, line@),
        contains(r->Ok_0.meta@, "finish_reason: "@ + reason@),
        g.undecodable > 0 ==> contains(r->Ok_0.meta@, dec(g.undecodable as nat)),
        g.streamed ==> contains(r->Ok_0.meta@, "SSE 본문을 합쳐 해석"@),
{
    let t = g@.turn;
    let sep = " · "@;
    let all = gathered_lines(*ctx, g@);
    let first = reason_line(t.reason(), t.upstream_finish);
    assert(all[0] == first);
    lemma_join_holds(all, sep, 0);
    assert(all[2] == line@);
    lemma_join_holds(all, sep, 2);
    let n = "finish_reason: "@ + reason@;
    let tail = first.skip(n.len() as int);
    assert(first =~= n + tail);
    lemma_holds(seq![], n, tail);
    assert(Seq::<char>::empty() + n + tail =~= first);
    super::conversation::lemma_holds_twice(r->Ok_0.meta@, first, n);
    let at: int = if g.streamed {
        4
    } else {
        3
    };
    if g.streamed {
        assert(all[3] == "SSE 본문을 합쳐 해석"@);
        lemma_join_holds(all, sep, 3);
    }
    if g.undecodable > 0 {
        let d = dec(g.undecodable as nat);
        let bad = "해석하지 못한 프레임 "@ + d + "개"@;
        assert(all[at] == bad);
        lemma_join_holds(all, sep, at);
        lemma_holds("해석하지 못한 프레임 "@, d, "개"@);
        super::conversation::lemma_holds_twice(r->Ok_0.meta@, bad, d);
    }
}

// ───────────────────────── a whole answer ─────────────────────────

/// The completion has one choice, which is the turn: its content, its reasoning, its
/// calls with their names, arguments and ids, and its reason. Its usage is that of the
/// prompt and the completion, or what the gateway counted. There is none if the turn is
/// empty and the gateway blocked it or did not say that all went well.
pub proof fn law_completions(
    ctx: &Ctx,
    g: &Gathered,
    raw: &str,
    id: String,
    created: i64,
    model: String,
    fingerprint: Option<String>,
    r: Result<Collected, FabrixError>,
    empty: bool,
    content: Option<String>,
    thought: Option<String>,
    calls: &[ScannedCall],
    reason: &'static str,
    prompt: &str,
    whole: String,
    said: &str,
    counted: Counted,
)
    requires
        g.turn.wf(),
        call_ensures(Ctx::complete, (ctx, g, raw, id, created, model, fingerprint), r),
        call_ensures(Turn::is_empty, (&g.turn,), empty),
        call_ensures(Turn::assistant_content, (&g.turn,), content),
        call_ensures(Turn::reasoning_field, (&g.turn,), thought),
        call_ensures(Turn::calls, (&g.turn,), calls),
        call_ensures(Turn::finish_reason, (&g.turn,), reason),
        call_ensures(Turn::completion_text, (&g.turn,), whole),
        prompt@ == ctx.prompt_text@,
        said@ == whole@,
        call_ensures(build, (g.tokens, prompt, said), counted),
    ensures
        r is Err <==> empty && (g.blocked is Some || !g.success),
        r matches Err(e) ==> {
            &&& g.blocked is Some ==> e is Upstream && e->Upstream_status == 502
                && e->Upstream_message@ == g.blocked->0@
            &&& g.blocked is None ==> e is BadPayload
        },
        r matches Ok(c) ==> {
            let a = c.completion;
            &&& a.id@ == id@ && a.created == created && a.model@ == model@ && a.object@
                == "chat.completion"@ && a.system_fingerprint == fingerprint
            &&& a.choices@.len() == 1 && a.choices@[0].index == 0
            &&& opt_text(a.choices@[0].finish_reason) == Some(reason@)
            &&& a.choices@[0].message.role@ == "assistant"@
            &&& opt_text(a.choices@[0].message.content) == opt_text(content)
            &&& opt_text(a.choices@[0].message.reasoning_content) == opt_text(thought)
            &&& seq_of(a.choices@[0].message.tool_calls).len() == calls@.len()
            &&& forall|k: int|
                0 <= k < calls@.len() ==> {
                    let call = #[trigger] seq_of(a.choices@[0].message.tool_calls)[k];
                    call.id@ == calls@[k].id@ && call.function.name@ == calls@[k].name@
                        && call.function.arguments@ == calls@[k].arguments@ && call.kind@
                        == "function"@
                }
            &&& a.usage is Some && a.usage->0.prompt_tokens == counted.usage.prompt_tokens
                && a.usage->0.completion_tokens == counted.usage.completion_tokens
                && a.usage->0.total_tokens == counted.usage.total_tokens
        },
{
    if r is Ok {
        let a = r->Ok_0.completion;
        let list = seq_of(a.choices@[0].message.tool_calls);
        let told = scanned_views(calls@);
        assert(told.len() == calls@.len());
        let ids = crate::proxy::chat_reply::message_ids(a.choices@[0].message.tool_calls);
        let kept = crate::proxy::chat_reply::call_ids(calls@);
        assert(ids == kept);
        assert(ids.len() == list.len());
        assert forall|k: int| 0 <= k < calls@.len() implies ({
            let call = #[trigger] list[k];
            call.id@ == calls@[k].id@ && call.function.name@ == calls@[k].name@
                && call.function.arguments@ == calls@[k].arguments@ && call.kind@ == "function"@
        }) by {
            assert(ids[k] == list[k].id@);
            assert(kept[k] == calls@[k].id@);
            assert(told[k] == (calls@[k].name@, calls@[k].arguments@));
        }
    }
}

/// A body that is JSON is one answer: a failure if its object says so, else what the
/// object says. Any other body is read as a stream.
pub proof fn law_gathering(
    raw: &str,
    names: Vec<String>,
    r: Result<Gathered, FabrixError>,
    tree: &Json,
    object: Json,
    c: FabrixChunk,
    error: bool,
    says: String,
    success: bool,
    blocked: Option<String>,
    tokens: Option<(u32, u32)>,
)
    requires
        call_ensures(gather, (raw, names), r),
        json_parse(raw@) == Ok::<JsonView, Seq<char>>(tree@),
        call_ensures(extract_object, (tree,), object),
        call_ensures(FabrixChunk::from_json, (&object,), Some(c)),
        call_ensures(FabrixChunk::looks_like_error, (&c,), error),
        call_ensures(FabrixChunk::error_text, (&c,), says),
        call_ensures(FabrixChunk::looks_successful, (&c,), success),
        call_ensures(FabrixChunk::filter_message, (&c,), blocked),
        call_ensures(FabrixChunk::upstream_tokens, (&c,), tokens),
    ensures
        r is Err <==> error,
        r matches Err(e) ==> e is Upstream && e->Upstream_status == 502 && e->Upstream_message@
            == says@,
        r matches Ok(g) ==> g.success == success && opt_text(g.blocked) == opt_text(blocked)
            && g.tokens == tokens && !g.streamed && g.undecodable == 0,
{
}

/// What is no JSON is read as a stream.
pub proof fn law_gathering_a_stream(raw: &str, names: Vec<String>, r: Result<Gathered, FabrixError>)
    requires
        call_ensures(gather, (raw, names), r),
        json_parse(raw@) is Err,
    ensures
        r is Ok && r->Ok_0.streamed && r->Ok_0.blocked is None,
        ({
            let all = DecoderView::fresh().plus(encode_utf8(raw@)).decode();
            let last = all.state.decode_end();
            let g = r->Ok_0;
            let t = TurnModel::fresh(views(names@), true).on_events(all.events + last.events).state;
            &&& g.success <==> last.state.finish_reason is Some
            &&& g.tokens == last.state.upstream_tokens
            &&& g.undecodable == last.state.undecodable
            &&& last.state.truncated ==> g.turn@.truncated
            &&& g.turn@.upstream_finish == t.upstream_finish
            &&& g.turn@.failure == t.failure
            &&& g.turn@.raw_content == t.raw_content && g.turn@.raw_reasoning == t.raw_reasoning
        }),
{
    let all = DecoderView::fresh().plus(encode_utf8(raw@)).decode();
    let last = all.state.decode_end();
    let t = TurnModel::fresh(views(names@), true).on_events(all.events + last.events).state;
    lemma_end_keeps(TurnModel { truncated: t.truncated || last.state.truncated, ..t });
}

proof fn lemma_end_keeps(t: TurnModel)
    ensures
        ({
            let r = t.on_end().state;
            &&& r.raw_content == t.raw_content && r.raw_reasoning == t.raw_reasoning
            &&& r.upstream_finish == t.upstream_finish && r.failure == t.failure && r.truncated
                == t.truncated
        }),
{
    match t.think {
        Some(th) => {
            let step = split_think(th.state, true);
            lemma_parts_keep(TurnModel { think: Some(th.after(step)), ..t }, step.parts());
        },
        None => {},
    }
}

/// A chunk says what it was made of, and names the answer that it belongs to.
pub proof fn law_making_chunks(
    id: &str,
    created: i64,
    model: &str,
    delta: Delta,
    reason: Option<String>,
    usage: Usage,
    r: ChatChunk,
    q: ChatChunk,
)
    requires
        call_ensures(ChatChunk::new, (id, created, model, delta, reason), r),
        call_ensures(ChatChunk::usage_only, (id, created, model, usage), q),
    ensures
        r.id@ == id@ && r.created == created && r.model@ == model@ && r.usage is None,
        r.choices@.len() == 1 && opt_text(r.choices@[0].finish_reason) == opt_text(reason),
        r.choices@[0].delta == delta,
        q.id@ == id@ && q.created == created && q.model@ == model@ && q.choices@.len() == 0,
        q.usage == Some(usage),
{
}

/// Everything that a stream says comes through to the log: the text of its answer frames,
/// one after the other.
pub proof fn law_what_was_said_is_kept(t: TurnModel, events: Seq<EventView>)
    requires
        forall|k: int| 0 <= k < events.len() ==> !(#[trigger] events[k] is Reset),
    ensures
        t.on_events(events).state.raw_content == t.raw_content + delta_text(events),
    decreases events.len(),
{
    if events.len() == 0 {
        assert(t.raw_content + delta_text(events) =~= t.raw_content);
    } else {
        let front = events.drop_last();
        assert forall|k: int| 0 <= k < front.len() implies !(#[trigger] front[k] is Reset) by {
            assert(front[k] == events[k]);
        }
        law_what_was_said_is_kept(t, front);
        assert(!(events[events.len() - 1] is Reset));
        let one = t.on_events(front).state;
        match events.last() {
            EventView::Delta(text) => {
                law_events(one, text);
                assert(t.raw_content + delta_text(front) + text =~= t.raw_content + (delta_text(
                    front,
                ) + text));
            },
            EventView::Reasoning(text) => {
                law_events(one, text);
            },
            EventView::Finish(text) => {
                law_events(one, text);
            },
            EventView::Error(text) => {
                law_events(one, text);
            },
            _ => {},
        }
    }
}

// ───────────────────────── the end of a stream ─────────────────────────

/// A stream is read up to the event that ends it.
pub proof fn law_where_a_stream_ends(a: Seq<EventView>, e: EventView, b: Seq<EventView>)
    requires
        forall|k: int| 0 <= k < a.len() ==> !(#[trigger] a[k] is Done) && !(a[k] is Error),
    ensures
        taken(a) == a,
        !has_last(a),
        e is Done || e is Error ==> taken(a + seq![e] + b) == a + seq![e] && has_last(
            a + seq![e] + b,
        ),
    decreases a.len(),
{
    let s = a + seq![e] + b;
    if has_last(a) {
        let k = choose|k: int| 0 <= k < a.len() && is_last(#[trigger] a[k]);
        assert(!(a[k] is Done) && !(a[k] is Error));
    }
    if e is Done || e is Error {
        assert(is_last(s[a.len() as int]));
    }
    if a.len() == 0 {
        assert(s[0] == e);
        assert(taken(a) =~= a);
        if e is Done || e is Error {
            assert(taken(s) =~= a + seq![e]);
        }
    } else {
        let rest = a.drop_first();
        assert forall|k: int| 0 <= k < rest.len() implies !(#[trigger] rest[k] is Done)
            && !(rest[k] is Error) by {
            assert(rest[k] == a[k + 1]);
        }
        law_where_a_stream_ends(rest, e, b);
        assert(!(a[0] is Done) && !(a[0] is Error));
        assert(s.drop_first() =~= rest + seq![e] + b);
        assert(seq![a[0]] + rest =~= a);
        assert(seq![a[0]] + (rest + seq![e]) =~= a + seq![e]);
    }
}

/// A stream ends with its failure, if it has one, its reason, its usage, if that was asked
/// for, and the end mark. The usage is that of the prompt and the completion.
pub proof fn law_the_end_of_a_stream(
    log: StreamLog,
    frames: Seq<LastFrame>,
    reason: &'static str,
    prompt: &str,
    whole: String,
    said: &str,
    counted: Counted,
)
    requires
        log.ends_with(frames),
        call_ensures(Turn::finish_reason, (&log.turn,), reason),
        call_ensures(Turn::completion_text, (&log.turn,), whole),
        prompt@ == log.ctx.prompt_text@,
        said@ == whole@,
        call_ensures(build, (log.decoder@.upstream_tokens, prompt, said), counted),
    ensures
        ({
            let n = if log.turn@.failure is Some {
                1int
            } else {
                0
            };
            let m = if log.include_usage {
                1int
            } else {
                0
            };
            &&& frames.len() == n + m + 2
            &&& frames[frames.len() - 1] is Done
            &&& n == 1 ==> frames[0] is Failure && frames[0]->Failure_0.error.message@
                == log.turn@.failure->0 && frames[0]->Failure_0.error.kind@ == "api_error"@
            &&& frames[n] is Chunk && {
                let c = frames[n]->Chunk_0;
                &&& c.choices@.len() == 1 && opt_text(c.choices@[0].finish_reason) == Some(reason@)
                &&& c.choices@[0].delta.content is None && c.choices@[0].delta.tool_calls is None
                &&& c.id@ == log.id@ && c.created == log.created && c.model@ == log.model@
            }
            &&& m == 1 ==> frames[n + 1] is Chunk && {
                let c = frames[n + 1]->Chunk_0;
                &&& c.choices@.len() == 0 && c.usage is Some
                &&& c.usage->0.prompt_tokens == counted.usage.prompt_tokens
                &&& c.usage->0.completion_tokens == counted.usage.completion_tokens
                &&& c.usage->0.total_tokens == counted.usage.total_tokens
                &&& c.id@ == log.id@ && c.created == log.created && c.model@ == log.model@
            }
        }),
{
}

} // verus!
