//! What holds of every answer.

use vstd::prelude::*;
use vstd::string::*;
use vstd::utf8::*;

use super::chat_reply::{
    gather_stream_view, has_last, is_last, taken, whole_turn,
};
use super::decode::{law_decode_chunks_do_not_matter, DecoderView, EventView};
use super::think::{split_think, Part};
use super::tools::Channel;
use super::turn::{PieceView, TurnModel};

verus! {

/// Taking events in twice is taking them in at once.
pub proof fn lemma_events_twice(t: TurnModel, a: Seq<EventView>, b: Seq<EventView>)
    ensures
        t.on_events(a).state.on_events(b).state == t.on_events(a + b).state,
        t.on_events(a).pieces + t.on_events(a).state.on_events(b).pieces == t.on_events(
            a + b,
        ).pieces,
    decreases b.len(),
{
    if b.len() == 0 {
        assert(a + b =~= a);
        assert(t.on_events(a).pieces + Seq::<PieceView>::empty() =~= t.on_events(a).pieces);
    } else {
        let front = b.drop_last();
        lemma_events_twice(t, a, front);
        assert((a + b).drop_last() =~= a + front);
        let mid = t.on_events(a).state;
        let last = mid.on_events(front).state.on_event(b.last());
        assert(t.on_events(a).pieces + (mid.on_events(front).pieces + last.pieces) =~= (t.on_events(
            a,
        ).pieces + mid.on_events(front).pieces) + last.pieces);
    }
}

proof fn lemma_taken_of_both(a: Seq<EventView>, b: Seq<EventView>)
    ensures
        taken(a + b) == (if has_last(a) {
            taken(a)
        } else {
            a + taken(b)
        }),
        has_last(a + b) == (has_last(a) || has_last(b)),
        !has_last(a) ==> taken(a) == a,
    decreases a.len(),
{
    if a.len() == 0 {
        assert(a + b =~= b);
        assert(a + taken(b) =~= taken(b));
        assert(taken(a) =~= a);
    } else {
        let rest = a.drop_first();
        assert((a + b)[0] == a[0]);
        assert((a + b).drop_first() =~= rest + b);
        lemma_taken_of_both(rest, b);
        assert(seq![a[0]] + rest =~= a);
        assert(seq![a[0]] + (rest + taken(b)) =~= a + taken(b));
        if is_last(a[0]) {
            assert(has_last(a + b));
        } else {
            lemma_last_later(a);
            lemma_last_later(a + b);
        }
    }
}

proof fn lemma_last_later(a: Seq<EventView>)
    requires
        a.len() > 0,
        !is_last(a[0]),
    ensures
        has_last(a) == has_last(a.drop_first()),
{
    let rest = a.drop_first();
    if has_last(a) {
        let k = choose|k: int| 0 <= k < a.len() && is_last(#[trigger] a[k]);
        assert(rest[k - 1] == a[k]);
    }
    if has_last(rest) {
        let k = choose|k: int| 0 <= k < rest.len() && is_last(#[trigger] rest[k]);
        assert(a[k + 1] == rest[k]);
    }
}

/// Where the network cuts the gateway's stream makes no difference to the client. If
/// the stream ends within the first chunk, the client gets what it gets of both; else
/// what comes of the two chunks, one after the other, is what comes of them at once,
/// and so is all that is kept for the rest of the stream.
pub proof fn law_stream_cuts_do_not_matter(d: DecoderView, t: TurnModel, a: Seq<u8>, b: Seq<u8>)
    ensures
        ({
            let one = d.plus(a).decode();
            let whole = d.plus(a + b).decode();
            let first = t.on_events(taken(one.events));
            let all = t.on_events(taken(whole.events));
            if has_last(one.events) {
                first == all && has_last(whole.events)
            } else {
                let two = one.state.plus(b).decode();
                let second = first.state.on_events(taken(two.events));
                &&& second.state == all.state
                &&& first.pieces + second.pieces == all.pieces
                &&& two.state == whole.state
                &&& has_last(two.events) == has_last(whole.events)
            }
        }),
{
    let one = d.plus(a).decode();
    let two = one.state.plus(b).decode();
    law_decode_chunks_do_not_matter(d.plus(a), b);
    assert(d.plus(a).plus(b).buf =~= d.plus(a + b).buf);
    assert(d.plus(a).plus(b) == d.plus(a + b));
    lemma_taken_of_both(one.events, two.events);
    if !has_last(one.events) {
        lemma_events_twice(t, one.events, taken(two.events));
    }
}

/// The turn, cut off or not.
spec fn cut(t: TurnModel, truncated: bool) -> TurnModel {
    TurnModel { truncated, ..t }
}

proof fn lemma_parts_ignore_cut(t: TurnModel, truncated: bool, parts: Seq<Part>)
    ensures
        cut(t, truncated).take_parts(parts).state == cut(t.take_parts(parts).state, truncated),
        t.take_parts(parts).state.truncated == t.truncated,
    decreases parts.len(),
{
    if parts.len() > 0 {
        lemma_parts_ignore_cut(t, truncated, parts.drop_last());
    }
}

proof fn lemma_end_ignores_cut(t: TurnModel, truncated: bool)
    ensures
        cut(t, truncated).on_end().state == cut(t.on_end().state, truncated),
        t.on_end().state.truncated == t.truncated,
{
    match t.think {
        Some(th) => {
            let step = split_think(th.state, true);
            let told = TurnModel { think: Some(th.after(step)), ..t };
            lemma_parts_ignore_cut(told, truncated, step.parts());
            let first = told.take_parts(step.parts()).state;
            assert(cut(first, truncated).end(Channel::Content).state == cut(
                first.end(Channel::Content).state,
                truncated,
            ));
        },
        None => {
            assert(cut(t, truncated).end(Channel::Content).state == cut(
                t.end(Channel::Content).state,
                truncated,
            ));
        },
    }
}

/// Streaming or not, the answer is the same: a body that is read as a stream, though
/// none was asked for, gives the turn that streaming it gives. (A stream is not read
/// beyond the event that ends it, so there must be none behind that event.)
pub proof fn law_stream_and_whole_agree(raw: Seq<char>, names: Seq<Seq<char>>)
    requires
        ({
            let d = DecoderView::fresh().plus(encode_utf8(raw)).decode();
            let e = d.state.decode_end();
            taken(d.events) == d.events && taken(e.events) == e.events
        }),
    ensures
        ({
            let d = DecoderView::fresh().plus(encode_utf8(raw)).decode();
            let e = d.state.decode_end();
            let streamed = TurnModel::fresh(names, true).on_events(taken(d.events)).state.on_events(
                taken(e.events),
            ).state.on_end().state;
            let closed = TurnModel {
                truncated: streamed.truncated || e.state.truncated,
                ..streamed
            };
            gather_stream_view(raw, names).turn == closed
        }),
{
    let d = DecoderView::fresh().plus(encode_utf8(raw)).decode();
    let e = d.state.decode_end();
    let start = TurnModel::fresh(names, true);
    lemma_events_twice(start, d.events, e.events);
    let t = start.on_events(d.events + e.events).state;
    lemma_end_ignores_cut(t, t.truncated || e.state.truncated);
    assert(whole_turn(names, d.events + e.events, e.state.truncated) == cut(
        t,
        t.truncated || e.state.truncated,
    ).on_end().state);
}

} // verus!
