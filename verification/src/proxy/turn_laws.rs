//! What holds of every turn.

use vstd::prelude::*;
use vstd::string::*;

use crate::text::{byte_len, find, lemma_byte_len_concat, lemma_find, lemma_partial_up_to};

use super::decode::EventView;
use super::fabrix::{law_reason_is_legal, legal_reason};
use super::scan::{
    all_named, law_scan_frames_do_not_matter, lemma_named_concat, lemma_one_seg, lemma_tag_lens,
    scan, Call, ChannelView, Seg, Step, CLOSE, MAX_CALL_BYTES, OPEN,
};
use super::think::{
    add_part, add_seg, law_think_frames_do_not_matter, law_think_keeps_everything, merge,
    split_think, think_source, Part, ThinkSeg,
};
use super::tools::{
    callable, lemma_step_named, lemma_wrap_add, wrap_add, Channel, ScannerView, ThinkView,
};
use super::turn::{call_pieces, text_piece, PieceView, TurnModel, Turned};

verus! {

// ───────────────────────── what is held back ─────────────────────────

proof fn lemma_byte_len_skip(x: Seq<char>, k: int)
    requires
        0 <= k <= x.len(),
    ensures
        byte_len(x.skip(k)) <= byte_len(x),
{
    assert(x =~= x.take(k) + x.skip(k));
    lemma_byte_len_concat(x.take(k), x.skip(k));
}

/// A channel holds back no more than it was given.
proof fn lemma_scan_shrinks(st: ChannelView, names: Seq<Seq<char>>, eof: bool)
    ensures
        byte_len(scan(st, names, eof).state.buf) <= byte_len(st.buf),
    decreases st.buf.len(),
{
    lemma_tag_lens();
    if st.in_call {
        lemma_find(st.buf, CLOSE@);
        match find(st.buf, CLOSE@) {
            Some(j) => {
                lemma_byte_len_skip(st.buf, j + CLOSE@.len());
                lemma_scan_shrinks(
                    ChannelView { buf: st.buf.skip(j + CLOSE@.len()), in_call: false },
                    names,
                    eof,
                );
            },
            None => {},
        }
    } else {
        lemma_find(st.buf, OPEN@);
        match find(st.buf, OPEN@) {
            Some(i) => {
                lemma_byte_len_skip(st.buf, i + OPEN@.len());
                lemma_scan_shrinks(
                    ChannelView { buf: st.buf.skip(i + OPEN@.len()), in_call: true },
                    names,
                    eof,
                );
            },
            None => {
                lemma_partial_up_to(st.buf, OPEN@, (OPEN@.len() - 1) as nat);
                let step = scan(st, names, eof);
                lemma_byte_len_skip(st.buf, st.buf.len() - step.state.buf.len());
                assert(step.state.buf =~= st.buf.skip(st.buf.len() - step.state.buf.len()));
            },
        }
    }
}

/// How many bytes the scanner holds back.
pub open spec fn held(s: ScannerView) -> nat {
    byte_len(s.content.buf) + byte_len(s.reasoning.buf)
}

pub open spec fn part_bytes(parts: Seq<Part>) -> nat
    decreases parts.len(),
{
    if parts.len() == 0 {
        0
    } else {
        part_bytes(parts.drop_last()) + byte_len(parts.last().1)
    }
}

pub open spec fn seg_bytes(seg: ThinkSeg) -> nat {
    match seg {
        ThinkSeg::Answer(t) => byte_len(t),
        ThinkSeg::Thought(t) => byte_len(t),
        _ => 0,
    }
}

pub open spec fn segs_bytes(segs: Seq<ThinkSeg>) -> nat
    decreases segs.len(),
{
    if segs.len() == 0 {
        0
    } else {
        seg_bytes(segs[0]) + segs_bytes(segs.drop_first())
    }
}

proof fn lemma_take_holds(t: TurnModel, ch: Channel, text: Seq<char>)
    ensures
        held(t.take(ch, text).state.scanner) <= held(t.scanner) + byte_len(text),
        t.take(ch, text).state.scanner.enabled == t.scanner.enabled,
        t.take(ch, text).state.scanner.names == t.scanner.names,
{
    let st = t.scanner.channel(ch);
    if t.scanner.enabled {
        lemma_scan_shrinks(st.plus(text), t.scanner.names, false);
        lemma_byte_len_concat(st.buf, text);
    }
}

proof fn lemma_parts_hold(t: TurnModel, parts: Seq<Part>)
    ensures
        held(t.take_parts(parts).state.scanner) <= held(t.scanner) + part_bytes(parts),
        t.take_parts(parts).state.scanner.enabled == t.scanner.enabled,
    decreases parts.len(),
{
    if parts.len() > 0 {
        lemma_parts_hold(t, parts.drop_last());
        lemma_take_holds(
            t.take_parts(parts.drop_last()).state,
            parts.last().0,
            parts.last().1,
        );
    }
}

proof fn lemma_source_bytes(segs: Seq<ThinkSeg>)
    ensures
        segs_bytes(segs) <= byte_len(think_source(segs)),
    decreases segs.len(),
{
    if segs.len() > 0 {
        lemma_source_bytes(segs.drop_first());
        lemma_byte_len_concat(segs[0].source(), think_source(segs.drop_first()));
    }
}

proof fn lemma_add_part_bytes(parts: Seq<Part>, ch: Channel, text: Seq<char>)
    ensures
        part_bytes(add_part(parts, ch, text)) == part_bytes(parts) + byte_len(text),
{
    if text.len() == 0 {
    } else if parts.len() > 0 && parts.last().0 == ch {
        let next = add_part(parts, ch, text);
        assert(next.drop_last() =~= parts.drop_last());
        lemma_byte_len_concat(parts.last().1, text);
    } else {
        assert(add_part(parts, ch, text).drop_last() =~= parts);
    }
}

proof fn lemma_add_seg_bytes(parts: Seq<Part>, seg: ThinkSeg)
    ensures
        part_bytes(add_seg(parts, seg)) == part_bytes(parts) + seg_bytes(seg),
{
    match seg {
        ThinkSeg::Answer(t) => lemma_add_part_bytes(parts, Channel::Content, t),
        ThinkSeg::Thought(t) => lemma_add_part_bytes(parts, Channel::Reasoning, t),
        _ => {},
    }
}

proof fn lemma_merge_bytes(parts: Seq<Part>, segs: Seq<ThinkSeg>)
    ensures
        part_bytes(merge(parts, segs)) == part_bytes(parts) + segs_bytes(segs),
    decreases segs.len(),
{
    if segs.len() > 0 {
        lemma_add_seg_bytes(parts, segs[0]);
        lemma_merge_bytes(add_seg(parts, segs[0]), segs.drop_first());
    }
}

// ───────────────────────── text in two goes ─────────────────────────

/// Taking text in on a channel in two goes is taking it in at once.
#[verifier::rlimit(50)]
proof fn lemma_take_twice(t: TurnModel, ch: Channel, x: Seq<char>, y: Seq<char>)
    requires
        byte_len(t.scanner.channel(ch).buf) + byte_len(x) <= MAX_CALL_BYTES,
    ensures
        t.take(ch, x).state.take(ch, y).state == t.take(ch, x + y).state,
{
    let st = t.scanner.channel(ch);
    let one = t.take(ch, x).state;
    let two = one.take(ch, y).state;
    let all = t.take(ch, x + y).state;
    let s1 = t.scanner.step(ch, x, false);
    let s2 = one.scanner.step(ch, y, false);
    let sw = t.scanner.step(ch, x + y, false);
    assert(st.plus(x).plus(y).buf =~= st.plus(x + y).buf);
    if t.scanner.enabled {
        lemma_byte_len_concat(st.buf, x);
        law_scan_frames_do_not_matter(st.plus(x), y, t.scanner.names, false);
        assert(one.scanner.channel(ch) == s1.state);
    } else {
        lemma_one_seg(Seg::Prose(x));
        lemma_one_seg(Seg::Prose(y));
        lemma_one_seg(Seg::Prose(x + y));
    }
    assert(s1.text() + s2.text() == sw.text());
    assert(s1.calls() + s2.calls() =~= sw.calls());
    lemma_wrap_add(t.scanner.next_index, s1.calls().len(), s2.calls().len());
    lemma_wrap_add(t.scanner.rejected, s1.refused(), s2.refused());
    lemma_wrap_add(t.calls_in_reasoning, s1.calls().len(), s2.calls().len());
    assert(two.content =~= all.content);
    assert(two.reasoning =~= all.reasoning);
    assert(two.calls =~= all.calls);
    assert(two.scanner == all.scanner);
}

proof fn lemma_take_added(t: TurnModel, parts: Seq<Part>, ch: Channel, text: Seq<char>)
    requires
        held(t.scanner) + part_bytes(parts) <= MAX_CALL_BYTES,
        text.len() > 0,
    ensures
        t.take_parts(add_part(parts, ch, text)).state == t.take_parts(parts).state.take(ch, text).state,
{
    if parts.len() > 0 && parts.last().0 == ch {
        let front = parts.drop_last();
        let mid = t.take_parts(front).state;
        assert(add_part(parts, ch, text).drop_last() =~= front);
        lemma_parts_hold(t, front);
        lemma_take_twice(mid, ch, parts.last().1, text);
    } else {
        assert(add_part(parts, ch, text).drop_last() =~= parts);
    }
}

proof fn lemma_take_merged(
    t: TurnModel,
    parts: Seq<Part>,
    u: TurnModel,
    other: Seq<Part>,
    segs: Seq<ThinkSeg>,
)
    requires
        t.take_parts(parts).state == u.take_parts(other).state,
        held(t.scanner) + part_bytes(parts) + segs_bytes(segs) <= MAX_CALL_BYTES,
        held(u.scanner) + part_bytes(other) + segs_bytes(segs) <= MAX_CALL_BYTES,
    ensures
        t.take_parts(merge(parts, segs)).state == u.take_parts(merge(other, segs)).state,
    decreases segs.len(),
{
    if segs.len() > 0 {
        let seg = segs[0];
        let p = add_seg(parts, seg);
        let q = add_seg(other, seg);
        lemma_add_seg_bytes(parts, seg);
        lemma_add_seg_bytes(other, seg);
        match seg {
            ThinkSeg::Answer(text) => {
                if text.len() > 0 {
                    lemma_take_added(t, parts, Channel::Content, text);
                    lemma_take_added(u, other, Channel::Content, text);
                }
            },
            ThinkSeg::Thought(text) => {
                if text.len() > 0 {
                    lemma_take_added(t, parts, Channel::Reasoning, text);
                    lemma_take_added(u, other, Channel::Reasoning, text);
                }
            },
            _ => {},
        }
        lemma_take_merged(t, p, u, q, segs.drop_first());
    }
}

/// The turn with another splitter and another record of the answer.
pub open spec fn noted(t: TurnModel, think: Option<ThinkView>, raw: Seq<char>) -> TurnModel {
    TurnModel { think, raw_content: raw, ..t }
}

/// Taking parts in does not touch the splitter nor the record of what came.
proof fn lemma_parts_frame(
    t: TurnModel,
    think: Option<ThinkView>,
    raw: Seq<char>,
    parts: Seq<Part>,
)
    ensures
        noted(t, think, raw).take_parts(parts).state == noted(t.take_parts(parts).state, think, raw),
        t.take_parts(parts).state.think == t.think,
        t.take_parts(parts).state.raw_content == t.raw_content,
    decreases parts.len(),
{
    if parts.len() > 0 {
        lemma_parts_frame(t, think, raw, parts.drop_last());
    }
}

// ───────────────────────── laws ─────────────────────────

/// All that the turn holds back, and the text `more`, fit into an unclosed block.
pub open spec fn small(t: TurnModel, more: Seq<char>) -> bool {
    held(t.scanner) + byte_len(more) + (match t.think {
        Some(th) => byte_len(th.state.buf),
        None => 0,
    }) <= MAX_CALL_BYTES
}

pub open spec fn splitter_valid(t: TurnModel) -> bool {
    t.think matches Some(th) ==> th.state.valid()
}

/// How many bytes the parts of two splits hold together.
proof fn lemma_split_bytes(th: ThinkView, a: Seq<char>, b: Seq<char>)
    requires
        th.state.valid(),
    ensures
        ({
            let s1 = split_think(th.state.plus(a), false);
            let s2 = split_think(s1.state.plus(b), false);
            part_bytes(s1.parts()) + segs_bytes(s2.segs) <= byte_len(th.state.buf) + byte_len(a + b)
        }),
{
    let s1 = split_think(th.state.plus(a), false);
    let s2 = split_think(s1.state.plus(b), false);
    law_think_frames_do_not_matter(th.state.plus(a), b, false, seq![]);
    law_think_keeps_everything(th.state.plus(a), false);
    law_think_keeps_everything(s1.state.plus(b), false);
    lemma_merge_bytes(seq![], s1.segs);
    lemma_source_bytes(s1.segs);
    lemma_source_bytes(s2.segs);
    lemma_byte_len_concat(a, b);
    lemma_byte_len_concat(th.state.buf, a);
    lemma_byte_len_concat(think_source(s1.segs), s1.state.buf);
    lemma_byte_len_concat(s1.state.buf, b);
    lemma_byte_len_concat(think_source(s2.segs), s2.state.buf);
}

proof fn lemma_split_twice(th: ThinkView, a: Seq<char>, b: Seq<char>)
    requires
        th.state.valid(),
    ensures
        ({
            let s1 = split_think(th.state.plus(a), false);
            let s2 = split_think(s1.state.plus(b), false);
            let sw = split_think(th.state.plus(a + b), false);
            &&& th.after(s1).after(s2) == th.after(sw)
            &&& merge(s1.parts(), s2.segs) == sw.parts()
        }),
{
    let st = th.state.plus(a);
    let s1 = split_think(st, false);
    let s2 = split_think(s1.state.plus(b), false);
    assert(st.plus(b).buf =~= th.state.plus(a + b).buf);
    law_think_frames_do_not_matter(st, b, false, seq![]);
    lemma_wrap_add(th.blocks, s1.closed(), s2.closed());
}

#[verifier::rlimit(50)]
proof fn lemma_split_answer(t: TurnModel, th: ThinkView, a: Seq<char>, b: Seq<char>)
    requires
        t.think == Some(th),
        th.state.valid(),
        small(t, a + b),
    ensures
        t.on_delta(a).state.on_delta(b).state == t.on_delta(a + b).state,
{
    let raw = t.raw_content + (a + b);
    assert(t.raw_content + a + b =~= raw);
    let s1 = split_think(th.state.plus(a), false);
    let s2 = split_think(s1.state.plus(b), false);
    let sw = split_think(th.state.plus(a + b), false);
    lemma_split_twice(th, a, b);
    lemma_split_bytes(th, a, b);
    let p1 = s1.parts();
    let t1 = t.take_parts(p1).state;
    lemma_parts_hold(t, p1);
    assert(t1.take_parts(seq![]).state == t1);
    lemma_take_merged(t, p1, t1, seq![], s2.segs);
    lemma_parts_frame(t, Some(th.after(s1)), t.raw_content + a, p1);
    let after1 = t.on_delta(a).state;
    assert(after1 == noted(t1, Some(th.after(s1)), t.raw_content + a));
    lemma_parts_frame(t1, Some(th.after(sw)), raw, s2.parts());
    lemma_parts_frame(t, Some(th.after(sw)), raw, sw.parts());
    assert(after1.on_delta(b).state == noted(
        t1.take_parts(s2.parts()).state,
        Some(th.after(sw)),
        raw,
    ));
}

#[verifier::rlimit(50)]
proof fn lemma_plain_answer(t: TurnModel, a: Seq<char>, b: Seq<char>)
    requires
        t.think is None,
        small(t, a + b),
    ensures
        t.on_delta(a).state.on_delta(b).state == t.on_delta(a + b).state,
{
    lemma_byte_len_concat(a, b);
    let raw = t.raw_content + (a + b);
    assert(t.raw_content + a + b =~= raw);
    let none: Option<ThinkView> = None;
    let pa = add_part(seq![], Channel::Content, a);
    let pb = add_part(seq![], Channel::Content, b);
    let pw = add_part(seq![], Channel::Content, a + b);
    let t1 = t.take_parts(pa).state;
    lemma_parts_frame(t, none, t.raw_content + a, pa);
    lemma_parts_frame(t1, none, raw, pb);
    lemma_parts_frame(t, none, raw, pw);
    lemma_add_part_bytes(seq![], Channel::Content, a);
    lemma_parts_hold(t, pa);
    assert(t1.take_parts(seq![]).state == t1);
    assert(t.take_parts(seq![]).state == t);
    if a.len() == 0 {
        assert(a + b =~= b);
    } else if b.len() == 0 {
        assert(a + b =~= a);
    } else {
        lemma_take_added(t, seq![], Channel::Content, a);
        lemma_take_added(t1, seq![], Channel::Content, b);
        lemma_take_added(t, seq![], Channel::Content, a + b);
        lemma_take_twice(t, Channel::Content, a, b);
    }
}

/// Where the answer is cut into frames makes no difference to the turn: not to its
/// text on either channel, nor to its calls, nor to anything that it holds back. (The
/// limit on an unclosed block acts when a frame ends, so it is kept out of reach.)
pub proof fn law_answer_frames_do_not_matter(t: TurnModel, a: Seq<char>, b: Seq<char>)
    requires
        splitter_valid(t),
        small(t, a + b),
    ensures
        t.on_delta(a).state.on_delta(b).state == t.on_delta(a + b).state,
{
    match t.think {
        Some(th) => lemma_split_answer(t, th, a, b),
        None => lemma_plain_answer(t, a, b),
    }
}

/// Nor does it make a difference where the reasoning is cut into frames.
pub proof fn law_reasoning_frames_do_not_matter(t: TurnModel, a: Seq<char>, b: Seq<char>)
    requires
        small(t, a + b),
    ensures
        t.on_reasoning(a).state.on_reasoning(b).state == t.on_reasoning(a + b).state,
{
    lemma_byte_len_concat(a, b);
    lemma_take_twice(t, Channel::Reasoning, a, b);
    assert(t.raw_reasoning + a + b =~= t.raw_reasoning + (a + b));
    let one = t.take(Channel::Reasoning, a).state;
    assert(t.on_reasoning(a).state == (TurnModel {
        raw_reasoning: t.raw_reasoning + a,
        ..one
    }));
}

/// However a turn goes, the client is told a reason that OpenAI defines; and a turn
/// with a call is told to end for its calls, even if it broke off or was cut off.
pub proof fn law_turn_reason(t: TurnModel)
    ensures
        legal_reason(t.reason()),
        t.saw_call() ==> t.reason() == "tool_calls"@,
{
    law_reason_is_legal(
        t.saw_call(),
        if t.failure is Some {
            Some(super::turn::MIDSTREAM_REASON@)
        } else {
            t.upstream_finish
        },
        t.truncated,
    );
}

/// Without a tool, and without splitting, the answer goes through as it came.
pub proof fn law_plain_text_passes(t: TurnModel, text: Seq<char>)
    requires
        t.think is None,
        !t.scanner.enabled,
    ensures
        ({
            let after = t.on_delta(text).state;
            &&& after.content == t.content + text
            &&& after.reasoning == t.reasoning
            &&& after.calls == t.calls
        }),
{
    let told = TurnModel { raw_content: t.raw_content + text, ..t };
    let parts = add_part(seq![], Channel::Content, text);
    if text.len() == 0 {
        assert(t.content + text =~= t.content);
        assert(told.take_parts(seq![]).state == told);
    } else {
        assert(parts.drop_last() =~= seq![]);
        assert(told.take_parts(seq![]).state == told);
        lemma_one_seg(Seg::Prose(text));
        assert(t.calls + Seq::<super::scan::Call>::empty() =~= t.calls);
    }
}

// ───────────────────────── what the client was sent ─────────────────────────

/// The text that the pieces hold on a channel.
pub open spec fn sent_text(pieces: Seq<PieceView>, ch: Channel) -> Seq<char>
    decreases pieces.len(),
{
    if pieces.len() == 0 {
        seq![]
    } else {
        let front = sent_text(pieces.drop_last(), ch);
        match pieces.last() {
            PieceView::Content(text) => if ch == Channel::Content {
                front + text
            } else {
                front
            },
            PieceView::Reasoning(text) => if ch == Channel::Reasoning {
                front + text
            } else {
                front
            },
            PieceView::Call(_, _, _) => front,
        }
    }
}

/// The calls among the pieces.
pub open spec fn sent_calls(pieces: Seq<PieceView>) -> Seq<Call>
    decreases pieces.len(),
{
    if pieces.len() == 0 {
        seq![]
    } else {
        let front = sent_calls(pieces.drop_last());
        match pieces.last() {
            PieceView::Call(_, name, arguments) => front.push((name, arguments)),
            _ => front,
        }
    }
}

proof fn lemma_sent_concat(a: Seq<PieceView>, b: Seq<PieceView>, ch: Channel)
    ensures
        sent_text(a + b, ch) == sent_text(a, ch) + sent_text(b, ch),
        sent_calls(a + b) == sent_calls(a) + sent_calls(b),
    decreases b.len(),
{
    if b.len() == 0 {
        assert(a + b =~= a);
        assert(sent_text(a, ch) + Seq::<char>::empty() =~= sent_text(a, ch));
        assert(sent_calls(a) + Seq::<Call>::empty() =~= sent_calls(a));
    } else {
        lemma_sent_concat(a, b.drop_last(), ch);
        assert((a + b).drop_last() =~= a + b.drop_last());
        assert(sent_text(a + b, ch) =~= sent_text(a, ch) + sent_text(b, ch));
        assert(sent_calls(a + b) =~= sent_calls(a) + sent_calls(b));
    }
}

proof fn lemma_sent_call_pieces(calls: Seq<Call>, first: u32, ch: Channel)
    ensures
        sent_text(call_pieces(calls, first), ch) == Seq::<char>::empty(),
        sent_calls(call_pieces(calls, first)) == calls,
    decreases calls.len(),
{
    if calls.len() > 0 {
        let front = calls.drop_last();
        lemma_sent_call_pieces(front, first, ch);
        assert(call_pieces(calls, first).drop_last() =~= call_pieces(front, first));
        assert(front.push(calls.last()) =~= calls);
    } else {
        assert(sent_calls(call_pieces(calls, first)) =~= calls);
    }
}

proof fn lemma_sent_text_piece(on: Channel, text: Seq<char>, ch: Channel)
    ensures
        sent_text(text_piece(on, text), ch) == (if on == ch {
            text
        } else {
            seq![]
        }),
        sent_calls(text_piece(on, text)) == Seq::<Call>::empty(),
{
    let p = text_piece(on, text);
    if text.len() == 0 {
        assert(text =~= seq![]);
    } else {
        assert(p.drop_last() =~= seq![]);
        assert(sent_text(p.drop_last(), ch) == Seq::<char>::empty());
        assert(sent_calls(p.drop_last()) == Seq::<Call>::empty());
        assert(Seq::<char>::empty() + text =~= text);
    }
}

/// The turn's text on a channel.
pub open spec fn text_on(t: TurnModel, ch: Channel) -> Seq<char> {
    match ch {
        Channel::Content => t.content,
        Channel::Reasoning => t.reasoning,
    }
}

/// The turn grew by what was sent.
pub open spec fn grew_by(before: TurnModel, after: Turned, ch: Channel) -> bool {
    &&& text_on(after.state, ch) == text_on(before, ch) + sent_text(after.pieces, ch)
    &&& after.state.calls == before.calls + sent_calls(after.pieces)
}

proof fn lemma_route_grows(t: TurnModel, on: Channel, step: Step, ch: Channel)
    ensures
        grew_by(t, t.route(on, step), ch),
{
    let text = text_piece(on, step.text());
    let calls = call_pieces(step.calls(), t.scanner.next_index);
    lemma_sent_text_piece(on, step.text(), ch);
    lemma_sent_call_pieces(step.calls(), t.scanner.next_index, ch);
    lemma_sent_concat(text, calls, ch);
    assert(step.text() + Seq::<char>::empty() =~= step.text());
    assert(Seq::<char>::empty() + Seq::<char>::empty() =~= Seq::<char>::empty());
    assert(Seq::<Call>::empty() + step.calls() =~= step.calls());
    assert(text_on(t, ch) + Seq::<char>::empty() =~= text_on(t, ch));
}

/// Growing twice is growing by both.
proof fn lemma_grows_twice(t: TurnModel, one: Turned, two: Turned, ch: Channel)
    requires
        grew_by(t, one, ch),
        grew_by(one.state, two, ch),
    ensures
        grew_by(t, Turned { state: two.state, pieces: one.pieces + two.pieces }, ch),
{
    lemma_sent_concat(one.pieces, two.pieces, ch);
    assert(text_on(t, ch) + sent_text(one.pieces, ch) + sent_text(two.pieces, ch) =~= text_on(t, ch)
        + (sent_text(one.pieces, ch) + sent_text(two.pieces, ch)));
    assert(t.calls + sent_calls(one.pieces) + sent_calls(two.pieces) =~= t.calls + (sent_calls(
        one.pieces,
    ) + sent_calls(two.pieces)));
}

proof fn lemma_grows_by_nothing(t: TurnModel, after: TurnModel, ch: Channel)
    requires
        text_on(after, ch) == text_on(t, ch),
        after.calls == t.calls,
    ensures
        grew_by(t, Turned { state: after, pieces: seq![] }, ch),
{
    assert(text_on(t, ch) + Seq::<char>::empty() =~= text_on(t, ch));
    assert(t.calls + Seq::<Call>::empty() =~= t.calls);
}

proof fn lemma_parts_grow(t: TurnModel, parts: Seq<Part>, ch: Channel)
    ensures
        grew_by(t, t.take_parts(parts), ch),
    decreases parts.len(),
{
    if parts.len() == 0 {
        lemma_grows_by_nothing(t, t, ch);
    } else {
        let front = t.take_parts(parts.drop_last());
        lemma_parts_grow(t, parts.drop_last(), ch);
        let (on, text) = parts.last();
        lemma_route_grows(front.state, on, front.state.scanner.step(on, text, false), ch);
        lemma_grows_twice(t, front, front.state.take(on, text), ch);
    }
}

proof fn lemma_event_grows(t: TurnModel, event: EventView, ch: Channel)
    requires
        !(event is Reset),
    ensures
        grew_by(t, t.on_event(event), ch),
{
    match event {
        EventView::Delta(text) => {
            let told = TurnModel { raw_content: t.raw_content + text, ..t };
            match t.think {
                Some(th) => {
                    let step = split_think(th.state.plus(text), false);
                    lemma_parts_grow(
                        TurnModel { think: Some(th.after(step)), ..told },
                        step.parts(),
                        ch,
                    );
                },
                None => lemma_parts_grow(told, add_part(seq![], Channel::Content, text), ch),
            }
        },
        EventView::Reasoning(text) => {
            let told = TurnModel { raw_reasoning: t.raw_reasoning + text, ..t };
            lemma_route_grows(
                told,
                Channel::Reasoning,
                told.scanner.step(Channel::Reasoning, text, false),
                ch,
            );
        },
        _ => lemma_grows_by_nothing(t, t.on_event(event).state, ch),
    }
}

/// No text among the pieces is empty.
pub open spec fn filled(pieces: Seq<PieceView>) -> bool {
    forall|k: int| 0 <= k < pieces.len() ==> match #[trigger] pieces[k] {
        PieceView::Content(text) => text.len() > 0,
        PieceView::Reasoning(text) => text.len() > 0,
        PieceView::Call(_, _, _) => true,
    }
}

proof fn lemma_route_filled(t: TurnModel, on: Channel, step: Step)
    ensures
        filled(t.route(on, step).pieces),
{
    let text = text_piece(on, step.text());
    let pieces = t.route(on, step).pieces;
    assert forall|k: int| 0 <= k < pieces.len() implies match #[trigger] pieces[k] {
        PieceView::Content(s) => s.len() > 0,
        PieceView::Reasoning(s) => s.len() > 0,
        PieceView::Call(_, _, _) => true,
    } by {
        if k < text.len() {
            assert(pieces[k] == text[k]);
        }
    }
}

proof fn lemma_parts_filled(t: TurnModel, parts: Seq<Part>)
    ensures
        filled(t.take_parts(parts).pieces),
    decreases parts.len(),
{
    if parts.len() > 0 {
        let front = t.take_parts(parts.drop_last());
        let (on, text) = parts.last();
        lemma_parts_filled(t, parts.drop_last());
        lemma_route_filled(front.state, on, front.state.scanner.step(on, text, false));
    }
}

/// What an event makes the client see is what it adds to the turn: the text on each
/// channel, and the calls, in order. No piece of text is empty, and what is neither
/// answer nor reasoning gives no pieces. (Where the answer starts over, it shrinks.)
pub proof fn law_event_adds_what_is_sent(t: TurnModel, event: EventView)
    requires
        !(event is Reset),
    ensures
        ({
            let after = t.on_event(event);
            &&& after.state.content == t.content + sent_text(after.pieces, Channel::Content)
            &&& after.state.reasoning == t.reasoning + sent_text(after.pieces, Channel::Reasoning)
            &&& after.state.calls == t.calls + sent_calls(after.pieces)
            &&& filled(after.pieces)
            &&& !(event is Delta || event is Reasoning) ==> after.pieces.len() == 0
        }),
{
    lemma_event_grows(t, event, Channel::Content);
    lemma_event_grows(t, event, Channel::Reasoning);
    match event {
        EventView::Delta(text) => {
            let told = TurnModel { raw_content: t.raw_content + text, ..t };
            match t.think {
                Some(th) => {
                    let step = split_think(th.state.plus(text), false);
                    lemma_parts_filled(
                        TurnModel { think: Some(th.after(step)), ..told },
                        step.parts(),
                    );
                },
                None => lemma_parts_filled(told, add_part(seq![], Channel::Content, text)),
            }
        },
        EventView::Reasoning(text) => {
            let told = TurnModel { raw_reasoning: t.raw_reasoning + text, ..t };
            lemma_route_filled(
                told,
                Channel::Reasoning,
                told.scanner.step(Channel::Reasoning, text, false),
            );
        },
        _ => {},
    }
}

proof fn lemma_events_grow(t: TurnModel, events: Seq<EventView>, ch: Channel)
    requires
        forall|k: int| 0 <= k < events.len() ==> !(#[trigger] events[k] is Reset),
    ensures
        grew_by(t, t.on_events(events), ch),
    decreases events.len(),
{
    if events.len() == 0 {
        lemma_grows_by_nothing(t, t, ch);
    } else {
        let front = events.drop_last();
        assert forall|k: int| 0 <= k < front.len() implies !(#[trigger] front[k] is Reset) by {
            assert(front[k] == events[k]);
        }
        lemma_events_grow(t, front, ch);
        let one = t.on_events(front);
        assert(!(events[events.len() - 1] is Reset));
        lemma_event_grows(one.state, events.last(), ch);
        lemma_grows_twice(t, one, one.state.on_event(events.last()), ch);
    }
}

proof fn lemma_end_grows(t: TurnModel, ch: Channel)
    ensures
        grew_by(t, t.on_end(), ch),
{
    let first = match t.think {
        Some(th) => {
            let step = split_think(th.state, true);
            TurnModel { think: Some(th.after(step)), ..t }.take_parts(step.parts())
        },
        None => Turned { state: t, pieces: seq![] },
    };
    match t.think {
        Some(th) => {
            let step = split_think(th.state, true);
            lemma_parts_grow(TurnModel { think: Some(th.after(step)), ..t }, step.parts(), ch);
        },
        None => lemma_grows_by_nothing(t, t, ch),
    }
    let a = Channel::Content;
    let b = Channel::Reasoning;
    let second = first.state.end(a);
    lemma_route_grows(first.state, a, first.state.scanner.step(a, seq![], true), ch);
    lemma_grows_twice(t, first, second, ch);
    let two = Turned { state: second.state, pieces: first.pieces + second.pieces };
    lemma_route_grows(second.state, b, second.state.scanner.step(b, seq![], true), ch);
    lemma_grows_twice(t, two, second.state.end(b), ch);
}

/// What the client was sent, piece by piece, is what the turn holds at its end: the
/// same text on each channel, none of it on both, and the same calls. (Where the
/// answer starts over, what was sent of it cannot be taken back.)
pub proof fn law_pieces_make_up_the_turn(
    names: Seq<Seq<char>>,
    split: bool,
    events: Seq<EventView>,
)
    requires
        forall|k: int| 0 <= k < events.len() ==> !(#[trigger] events[k] is Reset),
    ensures
        ({
            let run = TurnModel::fresh(names, split).on_events(events);
            let end = run.state.on_end();
            let sent = run.pieces + end.pieces;
            &&& end.state.content == sent_text(sent, Channel::Content)
            &&& end.state.reasoning == sent_text(sent, Channel::Reasoning)
            &&& end.state.calls == sent_calls(sent)
        }),
{
    let start = TurnModel::fresh(names, split);
    let run = start.on_events(events);
    let end = run.state.on_end();
    let sent = run.pieces + end.pieces;
    lemma_events_grow(start, events, Channel::Content);
    lemma_events_grow(start, events, Channel::Reasoning);
    lemma_end_grows(run.state, Channel::Content);
    lemma_end_grows(run.state, Channel::Reasoning);
    lemma_grows_twice(start, run, end, Channel::Content);
    lemma_grows_twice(start, run, end, Channel::Reasoning);
    assert(Seq::<char>::empty() + sent_text(sent, Channel::Content) =~= sent_text(
        sent,
        Channel::Content,
    ));
    assert(Seq::<char>::empty() + sent_text(sent, Channel::Reasoning) =~= sent_text(
        sent,
        Channel::Reasoning,
    ));
    assert(Seq::<Call>::empty() + sent_calls(sent) =~= sent_calls(sent));
}

// ───────────────────────── numbers of calls ─────────────────────────

/// The numbers of the calls among the pieces.
pub open spec fn sent_numbers(pieces: Seq<PieceView>) -> Seq<u32>
    decreases pieces.len(),
{
    if pieces.len() == 0 {
        seq![]
    } else {
        let front = sent_numbers(pieces.drop_last());
        match pieces.last() {
            PieceView::Call(index, _, _) => front.push(index),
            _ => front,
        }
    }
}

/// `n` numbers, one after the other, from `first` on.
pub open spec fn run_of(first: u32, n: nat) -> Seq<u32> {
    Seq::new(n, |k: int| wrap_add(first, k as nat))
}

/// The calls that were sent are numbered onward.
pub open spec fn numbers_on(before: TurnModel, after: Turned) -> bool {
    let sent = sent_numbers(after.pieces);
    &&& sent == run_of(before.scanner.next_index, sent.len())
    &&& after.state.scanner.next_index == wrap_add(before.scanner.next_index, sent.len())
}

proof fn lemma_numbers_concat(a: Seq<PieceView>, b: Seq<PieceView>)
    ensures
        sent_numbers(a + b) == sent_numbers(a) + sent_numbers(b),
    decreases b.len(),
{
    if b.len() == 0 {
        assert(a + b =~= a);
        assert(sent_numbers(a) + Seq::<u32>::empty() =~= sent_numbers(a));
    } else {
        lemma_numbers_concat(a, b.drop_last());
        assert((a + b).drop_last() =~= a + b.drop_last());
        assert(sent_numbers(a + b) =~= sent_numbers(a) + sent_numbers(b));
    }
}

proof fn lemma_call_piece_numbers(calls: Seq<Call>, first: u32)
    ensures
        sent_numbers(call_pieces(calls, first)) == run_of(first, calls.len()),
    decreases calls.len(),
{
    if calls.len() > 0 {
        let front = calls.drop_last();
        lemma_call_piece_numbers(front, first);
        assert(call_pieces(calls, first).drop_last() =~= call_pieces(front, first));
    }
    assert(sent_numbers(call_pieces(calls, first)) =~= run_of(first, calls.len()));
}

proof fn lemma_route_numbers(t: TurnModel, on: Channel, step: Step)
    ensures
        numbers_on(t, t.route(on, step)),
{
    let text = text_piece(on, step.text());
    lemma_call_piece_numbers(step.calls(), t.scanner.next_index);
    lemma_numbers_concat(text, call_pieces(step.calls(), t.scanner.next_index));
    if text.len() > 0 {
        assert(text.drop_last() =~= seq![]);
        assert(sent_numbers(text.drop_last()) == Seq::<u32>::empty());
    }
    let run = run_of(t.scanner.next_index, step.calls().len());
    assert(Seq::<u32>::empty() + run =~= run);
}

proof fn lemma_numbers_twice(t: TurnModel, one: Turned, two: Turned)
    requires
        numbers_on(t, one),
        numbers_on(one.state, two),
    ensures
        numbers_on(t, Turned { state: two.state, pieces: one.pieces + two.pieces }),
{
    let a = sent_numbers(one.pieces);
    let b = sent_numbers(two.pieces);
    lemma_numbers_concat(one.pieces, two.pieces);
    let first = t.scanner.next_index;
    lemma_wrap_add(first, a.len(), b.len());
    assert forall|k: int| 0 <= k < a.len() + b.len() implies #[trigger] (a + b)[k] == wrap_add(
        first,
        k as nat,
    ) by {
        if k >= a.len() {
            let j = (k - a.len()) as nat;
            lemma_wrap_add(first, a.len(), j);
            assert((a + b)[k] == b[j as int]);
        } else {
            assert((a + b)[k] == a[k]);
        }
    }
    assert(a + b =~= run_of(first, (a + b).len()));
}

proof fn lemma_nothing_numbered(t: TurnModel, after: TurnModel)
    requires
        after.scanner.next_index == t.scanner.next_index,
    ensures
        numbers_on(t, Turned { state: after, pieces: seq![] }),
{
    assert(Seq::<u32>::empty() =~= run_of(t.scanner.next_index, 0));
    lemma_wrap_add(t.scanner.next_index, 0, 0);
}

proof fn lemma_parts_numbers(t: TurnModel, parts: Seq<Part>)
    ensures
        numbers_on(t, t.take_parts(parts)),
    decreases parts.len(),
{
    if parts.len() == 0 {
        lemma_nothing_numbered(t, t);
    } else {
        let front = t.take_parts(parts.drop_last());
        lemma_parts_numbers(t, parts.drop_last());
        let (on, text) = parts.last();
        lemma_route_numbers(front.state, on, front.state.scanner.step(on, text, false));
        lemma_numbers_twice(t, front, front.state.take(on, text));
    }
}

proof fn lemma_event_numbers(t: TurnModel, event: EventView)
    ensures
        numbers_on(t, t.on_event(event)),
{
    match event {
        EventView::Delta(text) => {
            let told = TurnModel { raw_content: t.raw_content + text, ..t };
            match t.think {
                Some(th) => {
                    let step = split_think(th.state.plus(text), false);
                    lemma_parts_numbers(
                        TurnModel { think: Some(th.after(step)), ..told },
                        step.parts(),
                    );
                },
                None => lemma_parts_numbers(told, add_part(seq![], Channel::Content, text)),
            }
        },
        EventView::Reasoning(text) => {
            let told = TurnModel { raw_reasoning: t.raw_reasoning + text, ..t };
            lemma_route_numbers(
                told,
                Channel::Reasoning,
                told.scanner.step(Channel::Reasoning, text, false),
            );
        },
        _ => lemma_nothing_numbered(t, t.on_event(event).state),
    }
}

/// The calls of a turn have one sequence of numbers, whichever channel they come on
/// and though the answer starts over: the next call has the next number, so no two
/// calls are taken for parts of one (short of a machine word's end).
pub proof fn law_calls_are_numbered(t: TurnModel, events: Seq<EventView>)
    ensures
        numbers_on(t, t.on_events(events)),
    decreases events.len(),
{
    if events.len() == 0 {
        lemma_nothing_numbered(t, t);
    } else {
        let one = t.on_events(events.drop_last());
        law_calls_are_numbered(t, events.drop_last());
        lemma_event_numbers(one.state, events.last());
        lemma_numbers_twice(t, one, one.state.on_event(events.last()));
    }
}

// ───────────────────────── the life of a scanner ─────────────────────────

/// What can be done with a scanner.
pub enum ScanOp {
    Push(Channel, Seq<char>),
    Finish(Channel),
    Reset,
}

/// A scanner, and the numbers of the calls that it gave so far.
pub struct ScanRun {
    pub scanner: ScannerView,
    pub numbers: Seq<u32>,
}

/// One more step; its calls are numbered onward from the scanner's count.
pub open spec fn scan_step(run: ScanRun, ch: Channel, step: Step) -> ScanRun {
    ScanRun {
        scanner: run.scanner.after(ch, step),
        numbers: run.numbers + run_of(run.scanner.next_index, step.calls().len()),
    }
}

/// What is done with a scanner, one thing after the other.
pub open spec fn scan_run(start: ScannerView, ops: Seq<ScanOp>) -> ScanRun
    decreases ops.len(),
{
    if ops.len() == 0 {
        ScanRun { scanner: start, numbers: seq![] }
    } else {
        let run = scan_run(start, ops.drop_last());
        match ops.last() {
            ScanOp::Push(ch, text) => scan_step(run, ch, run.scanner.step(ch, text, false)),
            ScanOp::Finish(ch) => scan_step(run, ch, run.scanner.step(ch, seq![], true)),
            ScanOp::Reset => ScanRun { scanner: run.scanner.forgetful(), ..run },
        }
    }
}

proof fn lemma_scan_run(start: ScannerView, ops: Seq<ScanOp>)
    ensures
        ({
            let run = scan_run(start, ops);
            &&& run.numbers == run_of(start.next_index, run.numbers.len())
            &&& run.scanner.next_index == wrap_add(start.next_index, run.numbers.len())
        }),
    decreases ops.len(),
{
    let first = start.next_index;
    if ops.len() == 0 {
        lemma_wrap_add(first, 0, 0);
        assert(Seq::<u32>::empty() =~= run_of(first, 0));
    } else {
        let before = scan_run(start, ops.drop_last());
        let run = scan_run(start, ops);
        lemma_scan_run(start, ops.drop_last());
        let n = before.numbers.len();
        let more = (run.numbers.len() - n) as nat;
        lemma_wrap_add(first, n, more);
        assert forall|k: int| 0 <= k < run.numbers.len() implies #[trigger] run.numbers[k] == wrap_add(
            first,
            k as nat,
        ) by {
            if k >= n {
                lemma_wrap_add(first, n, (k - n) as nat);
            } else {
                assert(run.numbers[k] == before.numbers[k]);
            }
        }
        assert(run.numbers =~= run_of(first, run.numbers.len()));
    }
}

/// The calls that a scanner gives in its whole life are numbered 0, 1, 2, …, over both
/// channels together, and no number is used again, not even after a reset. Its count is
/// how many there were. (The count is a machine word; its end is kept out of reach.)
pub proof fn law_scanner_numbers_its_calls(
    names: Seq<Seq<char>>,
    enabled: bool,
    ops: Seq<ScanOp>,
)
    requires
        scan_run(ScannerView::fresh(names, enabled), ops).numbers.len() <= u32::MAX,
    ensures
        ({
            let run = scan_run(ScannerView::fresh(names, enabled), ops);
            &&& forall|k: int| 0 <= k < run.numbers.len() ==> #[trigger] run.numbers[k] == k
            &&& run.scanner.next_index == run.numbers.len()
        }),
{
    let start = ScannerView::fresh(names, enabled);
    lemma_scan_run(start, ops);
    let run = scan_run(start, ops);
    assert forall|k: int| 0 <= k < run.numbers.len() implies #[trigger] run.numbers[k] == k by {
        assert(run_of(0, run.numbers.len())[k] == wrap_add(0, k as nat));
    }
}

// ───────────────────────── the calls of a turn ─────────────────────────

/// The turn knows these tools, has called no others, and has counted the calls.
pub open spec fn calls_in_order(t: TurnModel, names: Seq<Seq<char>>) -> bool {
    t.scanner.names == names && t.counted() && all_named(t.calls, names)
}

proof fn lemma_route_in_order(
    t: TurnModel,
    names: Seq<Seq<char>>,
    on: Channel,
    text: Seq<char>,
    eof: bool,
)
    requires
        calls_in_order(t, names),
    ensures
        calls_in_order(t.route(on, t.scanner.step(on, text, eof)).state, names),
{
    let step = t.scanner.step(on, text, eof);
    lemma_step_named(t.scanner, on, text, eof);
    lemma_named_concat(t.calls, step.calls(), names);
    lemma_wrap_add(0, t.calls.len(), step.calls().len());
}

proof fn lemma_parts_in_order(t: TurnModel, names: Seq<Seq<char>>, parts: Seq<Part>)
    requires
        calls_in_order(t, names),
    ensures
        calls_in_order(t.take_parts(parts).state, names),
    decreases parts.len(),
{
    if parts.len() > 0 {
        lemma_parts_in_order(t, names, parts.drop_last());
        let (on, text) = parts.last();
        lemma_route_in_order(t.take_parts(parts.drop_last()).state, names, on, text, false);
    }
}

proof fn lemma_event_in_order(t: TurnModel, names: Seq<Seq<char>>, event: EventView)
    requires
        calls_in_order(t, names),
    ensures
        calls_in_order(t.on_event(event).state, names),
{
    match event {
        EventView::Delta(text) => {
            let told = TurnModel { raw_content: t.raw_content + text, ..t };
            match t.think {
                Some(th) => {
                    let step = split_think(th.state.plus(text), false);
                    lemma_parts_in_order(
                        TurnModel { think: Some(th.after(step)), ..told },
                        names,
                        step.parts(),
                    );
                },
                None => lemma_parts_in_order(
                    told,
                    names,
                    add_part(seq![], Channel::Content, text),
                ),
            }
        },
        EventView::Reasoning(text) => {
            let told = TurnModel { raw_reasoning: t.raw_reasoning + text, ..t };
            lemma_route_in_order(told, names, Channel::Reasoning, text, false);
        },
        _ => {},
    }
}

proof fn lemma_end_in_order(t: TurnModel, names: Seq<Seq<char>>)
    requires
        calls_in_order(t, names),
    ensures
        calls_in_order(t.on_end().state, names),
{
    let first = match t.think {
        Some(th) => {
            let step = split_think(th.state, true);
            lemma_parts_in_order(
                TurnModel { think: Some(th.after(step)), ..t },
                names,
                step.parts(),
            );
            TurnModel { think: Some(th.after(step)), ..t }.take_parts(step.parts()).state
        },
        None => t,
    };
    lemma_route_in_order(first, names, Channel::Content, seq![], true);
    let second = first.end(Channel::Content).state;
    lemma_route_in_order(second, names, Channel::Reasoning, seq![], true);
}

/// A turn after events and ends, in any order; `None` is an end.
pub open spec fn turn_run(t: TurnModel, steps: Seq<Option<EventView>>) -> TurnModel
    decreases steps.len(),
{
    if steps.len() == 0 {
        t
    } else {
        let before = turn_run(t, steps.drop_last());
        match steps.last() {
            Some(event) => before.on_event(event).state,
            None => before.on_end().state,
        }
    }
}

proof fn lemma_run_in_order(t: TurnModel, names: Seq<Seq<char>>, steps: Seq<Option<EventView>>)
    requires
        calls_in_order(t, names),
    ensures
        calls_in_order(turn_run(t, steps), names),
    decreases steps.len(),
{
    if steps.len() > 0 {
        lemma_run_in_order(t, names, steps.drop_last());
        let before = turn_run(t, steps.drop_last());
        match steps.last() {
            Some(event) => lemma_event_in_order(before, names, event),
            None => lemma_end_in_order(before, names),
        }
    }
}

/// Whatever a turn is given, the tools that can be called stay those that were declared,
/// every call in it names one of them, and it saw a call exactly if it has one. (The count of the calls is a machine word; its end
/// is kept out of reach. `Turn::calls` says the same of the calls it hands out, and that
/// their numbers run from 0 on, that they have ids and that their arguments are JSON.)
pub proof fn law_calls_name_tools(
    names: Seq<Seq<char>>,
    split: bool,
    steps: Seq<Option<EventView>>,
)
    ensures
        ({
            let t = turn_run(TurnModel::fresh(names, split), steps);
            &&& t.scanner.names == callable(names)
            &&& all_named(t.calls, callable(names))
            &&& t.calls.len() <= u32::MAX ==> (t.saw_call() <==> t.calls.len() > 0)
        }),
{
    let start = TurnModel::fresh(names, split);
    lemma_wrap_add(0, 0, 0);
    lemma_run_in_order(start, callable(names), steps);
}

} // verus!
