//! What is in a stretch of model output: prose, tool-call blocks, and blocks that
//! are no tool calls after all. The scanner of [`super::tools`] computes this.

use vstd::prelude::*;
use vstd::string::*;

use crate::json::{json_parse, json_text, JsonView};
use crate::text::{
    byte_len, contains, find, lemma_byte_len_concat, lemma_find, lemma_find_extend, lemma_find_is,
    lemma_find_shift, lemma_no_tag_before, lemma_partial_shift, lemma_partial_up_to, occurs_at,
    partial_tag, trim,
};

verus! {

pub const OPEN: &'static str = "<tool_call>";

pub const CLOSE: &'static str = "</tool_call>";

/// An unclosed block of more bytes than this is given back as text.
pub const MAX_CALL_BYTES: usize = 2 * 1024 * 1024;

pub proof fn lemma_tag_lens()
    ensures
        OPEN@.len() == 11,
        CLOSE@.len() == 12,
{
    reveal_strlit("<tool_call>");
    reveal_strlit("</tool_call>");
}

// ───────────────────────── the payload of a block ─────────────────────────

/// A call: the tool's name and its arguments as JSON text.
pub type Call = (Seq<char>, Seq<char>);

/// The arguments of a call as JSON text. A string must hold JSON itself.
pub open spec fn call_arguments(raw: Option<JsonView>) -> Option<Seq<char>> {
    match raw {
        None => Some("{}"@),
        Some(JsonView::Null) => Some("{}"@),
        Some(JsonView::Text(s)) => match json_parse(s) {
            Ok(inner) => Some(json_text(inner)),
            Err(_) => None,
        },
        Some(v) => Some(json_text(v)),
    }
}

/// The first of three members that is there.
pub open spec fn first_member(
    v: JsonView,
    a: Seq<char>,
    b: Seq<char>,
    c: Seq<char>,
) -> Option<JsonView> {
    if v.get(a) is Some {
        v.get(a)
    } else if v.get(b) is Some {
        v.get(b)
    } else {
        v.get(c)
    }
}

/// The name that an item gives to its tool.
pub open spec fn call_name(item: JsonView) -> Option<Seq<char>> {
    let named = if item.get("name"@) is Some {
        item.get("name"@)
    } else {
        item.get("function"@)
    };
    match named {
        Some(JsonView::Text(s)) => Some(trim(s)),
        _ => None,
    }
}

/// The call that one item of a payload stands for, if it is a call of one of the
/// tools in `names`.
pub open spec fn item_call(item: JsonView, names: Seq<Seq<char>>) -> Option<Call> {
    match call_name(item) {
        Some(name) => if names.contains(name) {
            match call_arguments(first_member(item, "arguments"@, "parameters"@, "args"@)) {
                Some(arguments) => Some((name, arguments)),
                None => None,
            }
        } else {
            None
        },
        None => None,
    }
}

/// The calls of a list of items; none at all if one of the items is no call.
pub open spec fn item_calls(items: Seq<JsonView>, names: Seq<Seq<char>>) -> Option<Seq<Call>>
    decreases items.len(),
{
    if items.len() == 0 {
        Some(seq![])
    } else {
        match (item_calls(items.drop_last(), names), item_call(items.last(), names)) {
            (Some(front), Some(call)) => Some(front.push(call)),
            _ => None,
        }
    }
}

/// The calls that a payload's tree stands for: those of an array's items, or the
/// one of the tree itself.
pub open spec fn tree_calls(tree: JsonView, names: Seq<Seq<char>>) -> Option<Seq<Call>> {
    match tree {
        JsonView::Array(items) => item_calls(items, names),
        other => item_calls(seq![other], names),
    }
}

/// The calls in a block's payload; none if the block is no tool call.
pub open spec fn payload_calls(payload: Seq<char>, names: Seq<Seq<char>>) -> Seq<Call> {
    match json_parse(trim(payload)) {
        Ok(tree) => match tree_calls(tree, names) {
            Some(calls) => calls,
            None => seq![],
        },
        Err(_) => seq![],
    }
}

// ───────────────────────── a channel ─────────────────────────

/// What a channel holds back: text that may be the beginning of a tag, or the
/// block that is open.
pub struct ChannelView {
    pub buf: Seq<char>,
    pub in_call: bool,
}

impl ChannelView {
    pub open spec fn fresh() -> ChannelView {
        ChannelView { buf: seq![], in_call: false }
    }

    /// The source text that is held back.
    pub open spec fn source(self) -> Seq<char> {
        if self.in_call {
            OPEN@ + self.buf
        } else {
            self.buf
        }
    }

    pub open spec fn plus(self, more: Seq<char>) -> ChannelView {
        ChannelView { buf: self.buf + more, in_call: self.in_call }
    }
}

/// A piece of the source text.
pub enum Seg {
    /// Text outside any block.
    Prose(Seq<char>),
    /// A block that is no tool call, tags and all: handed on as text.
    Refused(Seq<char>),
    /// The payload of a block, and its calls.
    Block(Seq<char>, Seq<Call>),
}

impl Seg {
    /// What the piece adds to the text that is handed on.
    pub open spec fn text(self) -> Seq<char> {
        match self {
            Seg::Prose(t) => t,
            Seg::Refused(t) => t,
            Seg::Block(_, _) => seq![],
        }
    }

    pub open spec fn calls(self) -> Seq<Call> {
        match self {
            Seg::Block(_, calls) => calls,
            _ => seq![],
        }
    }

    pub open spec fn refused(self) -> nat {
        if self is Refused {
            1
        } else {
            0
        }
    }

    /// The source text of the piece.
    pub open spec fn source(self) -> Seq<char> {
        match self {
            Seg::Prose(t) => t,
            Seg::Refused(t) => t,
            Seg::Block(payload, _) => OPEN@ + payload + CLOSE@,
        }
    }
}

pub open spec fn seg_text(segs: Seq<Seg>) -> Seq<char>
    decreases segs.len(),
{
    if segs.len() == 0 {
        seq![]
    } else {
        segs[0].text() + seg_text(segs.drop_first())
    }
}

pub open spec fn seg_calls(segs: Seq<Seg>) -> Seq<Call>
    decreases segs.len(),
{
    if segs.len() == 0 {
        seq![]
    } else {
        segs[0].calls() + seg_calls(segs.drop_first())
    }
}

pub open spec fn seg_refused(segs: Seq<Seg>) -> nat
    decreases segs.len(),
{
    if segs.len() == 0 {
        0
    } else {
        segs[0].refused() + seg_refused(segs.drop_first())
    }
}

pub open spec fn seg_source(segs: Seq<Seg>) -> Seq<char>
    decreases segs.len(),
{
    if segs.len() == 0 {
        seq![]
    } else {
        segs[0].source() + seg_source(segs.drop_first())
    }
}

/// The pieces that are settled, and what the channel still holds back.
pub struct Step {
    pub segs: Seq<Seg>,
    pub state: ChannelView,
}

impl Step {
    pub open spec fn text(self) -> Seq<char> {
        seg_text(self.segs)
    }

    pub open spec fn calls(self) -> Seq<Call> {
        seg_calls(self.segs)
    }

    pub open spec fn refused(self) -> nat {
        seg_refused(self.segs)
    }

    pub open spec fn after(self, first: Seg) -> Step {
        Step { segs: seq![first] + self.segs, state: self.state }
    }
}

/// What a closed block turns out to be.
pub open spec fn block_seg(payload: Seq<char>, names: Seq<Seq<char>>) -> Seg {
    let calls = payload_calls(payload, names);
    if calls.len() > 0 {
        Seg::Block(payload, calls)
    } else {
        Seg::Refused(OPEN@ + payload + CLOSE@)
    }
}

/// Settles as much of what a channel holds as can be settled; all of it at `eof`.
pub open spec fn scan(st: ChannelView, names: Seq<Seq<char>>, eof: bool) -> Step
    decreases st.buf.len(),
{
    proof {
        lemma_tag_lens();
        lemma_find(st.buf, CLOSE@);
        lemma_find(st.buf, OPEN@);
    }
    if st.in_call {
        match find(st.buf, CLOSE@) {
            Some(j) => {
                let rest = ChannelView { buf: st.buf.skip(j + CLOSE@.len()), in_call: false };
                scan(rest, names, eof).after(block_seg(st.buf.take(j), names))
            },
            None => if eof || byte_len(st.buf) > MAX_CALL_BYTES {
                Step { segs: seq![Seg::Refused(OPEN@ + st.buf)], state: ChannelView::fresh() }
            } else {
                Step { segs: seq![], state: st }
            },
        }
    } else {
        match find(st.buf, OPEN@) {
            Some(i) => {
                let rest = ChannelView { buf: st.buf.skip(i + OPEN@.len()), in_call: true };
                scan(rest, names, eof).after(Seg::Prose(st.buf.take(i)))
            },
            None => {
                let keep = if eof {
                    0
                } else {
                    partial_tag(st.buf, OPEN@)
                };
                let cut = st.buf.len() - keep;
                Step {
                    segs: seq![Seg::Prose(st.buf.take(cut))],
                    state: ChannelView { buf: st.buf.skip(cut), in_call: false },
                }
            },
        }
    }
}

pub proof fn lemma_after(step: Step, first: Seg)
    ensures
        step.after(first).text() == first.text() + step.text(),
        step.after(first).calls() == first.calls() + step.calls(),
        step.after(first).refused() == first.refused() + step.refused(),
        seg_source(step.after(first).segs) == first.source() + seg_source(step.segs),
{
    assert(step.after(first).segs.drop_first() =~= step.segs);
}

pub proof fn lemma_no_segs()
    ensures
        seg_text(seq![]) == Seq::<char>::empty(),
        seg_calls(seq![]) == Seq::<Call>::empty(),
        seg_refused(seq![]) == 0,
        seg_source(seq![]) == Seq::<char>::empty(),
{
}

pub proof fn lemma_one_seg(seg: Seg)
    ensures
        seg_text(seq![seg]) == seg.text(),
        seg_calls(seq![seg]) == seg.calls(),
        seg_refused(seq![seg]) == seg.refused(),
        seg_source(seq![seg]) == seg.source(),
{
    lemma_no_segs();
    assert(seq![seg].drop_first() =~= seq![]);
    assert(seg.text() + Seq::<char>::empty() =~= seg.text());
    assert(seg.calls() + Seq::<Call>::empty() =~= seg.calls());
    assert(seg.source() + Seq::<char>::empty() =~= seg.source());
}

/// The closing tag does not overlap itself: behind a text that does not hold it, it
/// is found where it stands.
pub proof fn lemma_close_found(payload: Seq<char>)
    requires
        !contains(payload, CLOSE@),
    ensures
        find(payload + CLOSE@, CLOSE@) == Some(payload.len() as int),
{
    reveal_strlit("</tool_call>");
    lemma_find(payload, CLOSE@);
    let whole = payload + CLOSE@;
    let n = payload.len() as int;
    assert(whole.subrange(n, n + CLOSE@.len()) =~= CLOSE@);
    assert forall|q: int| 0 <= q < n implies !#[trigger] occurs_at(whole, CLOSE@, q) by {
        if occurs_at(whole, CLOSE@, q) {
            if q + CLOSE@.len() <= n {
                assert(whole.subrange(q, q + CLOSE@.len()) =~= payload.subrange(q, q + CLOSE@.len()));
                assert(occurs_at(payload, CLOSE@, q));
            } else {
                assert(whole.subrange(q, q + CLOSE@.len())[n - q] == CLOSE@[n - q]);
                assert(whole[n] == CLOSE@[0]);
            }
        }
    }
    lemma_find_is(whole, CLOSE@, n);
}

/// A single block, scanned to its end, gives its calls and no text.
pub proof fn lemma_scan_block(payload: Seq<char>, names: Seq<Seq<char>>)
    requires
        !contains(payload, CLOSE@),
        payload_calls(payload, names).len() > 0,
    ensures
        ({
            let step = scan(
                ChannelView { buf: OPEN@ + payload + CLOSE@, in_call: false },
                names,
                true,
            );
            &&& step.text() == Seq::<char>::empty()
            &&& step.calls() == payload_calls(payload, names)
            &&& step.state == ChannelView::fresh()
        }),
{
    lemma_tag_lens();
    let buf = OPEN@ + payload + CLOSE@;
    let inner = ChannelView { buf: payload + CLOSE@, in_call: true };
    let none = ChannelView::fresh();
    assert(buf.subrange(0, OPEN@.len() as int) =~= OPEN@);
    lemma_find_is(buf, OPEN@, 0);
    assert(buf.skip(OPEN@.len() as int) =~= inner.buf);
    lemma_close_found(payload);
    assert(inner.buf.take(payload.len() as int) =~= payload);
    assert(inner.buf.skip((payload.len() + CLOSE@.len()) as int) =~= none.buf);
    lemma_find(none.buf, OPEN@);
    let last = scan(none, names, true);
    assert(none.buf.take(0) =~= none.buf && none.buf.skip(0) =~= none.buf);
    assert(last.segs == seq![Seg::Prose(none.buf)]);
    lemma_one_seg(Seg::Prose(none.buf));
    let second = last.after(block_seg(payload, names));
    assert(scan(inner, names, true) == second);
    lemma_after(last, block_seg(payload, names));
    lemma_after(second, Seg::Prose(buf.take(0)));
    let step = scan(ChannelView { buf, in_call: false }, names, true);
    assert(step == second.after(Seg::Prose(buf.take(0))));
    assert(step.text() =~= Seq::<char>::empty());
    assert(step.calls() =~= payload_calls(payload, names));
}

// ───────────────────────── laws ─────────────────────────

/// Nothing is lost and nothing is made up: the pieces and what is still held back
/// are, in order, the text that the channel held.
#[verifier::rlimit(50)]
pub proof fn law_scan_keeps_everything(st: ChannelView, names: Seq<Seq<char>>, eof: bool)
    ensures
        seg_source(scan(st, names, eof).segs) + scan(st, names, eof).state.source() == st.source(),
    decreases st.buf.len(),
{
    lemma_tag_lens();
    let step = scan(st, names, eof);
    if st.in_call {
        lemma_find(st.buf, CLOSE@);
        match find(st.buf, CLOSE@) {
            Some(j) => {
                let rest = ChannelView { buf: st.buf.skip(j + CLOSE@.len()), in_call: false };
                let seg = block_seg(st.buf.take(j), names);
                law_scan_keeps_everything(rest, names, eof);
                lemma_after(scan(rest, names, eof), seg);
                lemma_regroup(
                    seg.source(),
                    seg_source(scan(rest, names, eof).segs),
                    step.state.source(),
                );
                assert(st.buf =~= st.buf.take(j) + CLOSE@ + rest.buf);
                assert(st.source() =~= seg.source() + rest.buf);
            },
            None => {
                lemma_no_segs();
                lemma_one_seg(Seg::Refused(OPEN@ + st.buf));
                assert(seg_source(step.segs) + step.state.source() =~= st.source());
            },
        }
    } else {
        lemma_find(st.buf, OPEN@);
        match find(st.buf, OPEN@) {
            Some(i) => {
                let rest = ChannelView { buf: st.buf.skip(i + OPEN@.len()), in_call: true };
                let seg = Seg::Prose(st.buf.take(i));
                law_scan_keeps_everything(rest, names, eof);
                lemma_after(scan(rest, names, eof), seg);
                lemma_regroup(
                    seg.source(),
                    seg_source(scan(rest, names, eof).segs),
                    step.state.source(),
                );
                assert(st.buf =~= st.buf.take(i) + (OPEN@ + rest.buf));
            },
            None => {
                lemma_partial_up_to(st.buf, OPEN@, (OPEN@.len() - 1) as nat);
                lemma_one_seg(step.segs[0]);
                assert(step.segs =~= seq![step.segs[0]]);
                assert(seg_source(step.segs) + step.state.source() =~= st.source());
            },
        }
    }
}

proof fn lemma_regroup(a: Seq<char>, b: Seq<char>, c: Seq<char>)
    ensures
        a + b + c == a + (b + c),
{
    assert(a + b + c =~= a + (b + c));
}

/// At the end nothing is held back any more.
pub proof fn law_scan_end_holds_nothing(st: ChannelView, names: Seq<Seq<char>>)
    ensures
        scan(st, names, true).state == ChannelView::fresh(),
    decreases st.buf.len(),
{
    lemma_tag_lens();
    lemma_find(st.buf, CLOSE@);
    lemma_find(st.buf, OPEN@);
    if st.in_call {
        match find(st.buf, CLOSE@) {
            Some(j) => {
                law_scan_end_holds_nothing(
                    ChannelView { buf: st.buf.skip(j + CLOSE@.len()), in_call: false },
                    names,
                );
            },
            None => {},
        }
    } else {
        match find(st.buf, OPEN@) {
            Some(i) => {
                law_scan_end_holds_nothing(
                    ChannelView { buf: st.buf.skip(i + OPEN@.len()), in_call: true },
                    names,
                );
            },
            None => {
                assert(st.buf.skip(st.buf.len() as int) =~= seq![]);
            },
        }
    }
}

/// Where the text is cut into frames makes no difference: scanning what is there
/// and then scanning on with `b` gives the same text, the same calls, the same
/// refusals and the same state as scanning all of it at once. (The limit on an
/// unclosed block acts when a frame ends, so it is kept out of reach.)
#[verifier::rlimit(50)]
pub proof fn law_scan_frames_do_not_matter(
    st: ChannelView,
    b: Seq<char>,
    names: Seq<Seq<char>>,
    eof: bool,
)
    requires
        byte_len(st.buf) <= MAX_CALL_BYTES,
    ensures
        ({
            let first = scan(st, names, false);
            let second = scan(first.state.plus(b), names, eof);
            let whole = scan(st.plus(b), names, eof);
            &&& first.text() + second.text() == whole.text()
            &&& first.calls() + second.calls() == whole.calls()
            &&& first.refused() + second.refused() == whole.refused()
            &&& second.state == whole.state
        }),
    decreases st.buf.len(),
{
    lemma_tag_lens();
    lemma_find(st.buf, CLOSE@);
    lemma_find(st.buf, OPEN@);
    let x = st.buf;
    let first = scan(st, names, false);
    let second = scan(first.state.plus(b), names, eof);
    let whole = scan(st.plus(b), names, eof);
    if st.in_call {
        match find(x, CLOSE@) {
            Some(j) => {
                let rest = ChannelView { buf: x.skip(j + CLOSE@.len()), in_call: false };
                lemma_find_extend(x, b, CLOSE@);
                assert((x + b).take(j) =~= x.take(j));
                assert((x + b).skip(j + CLOSE@.len()) =~= rest.buf + b);
                assert(x =~= x.take(j + CLOSE@.len()) + rest.buf);
                lemma_byte_len_concat(x.take(j + CLOSE@.len()), rest.buf);
                law_scan_frames_do_not_matter(rest, b, names, eof);
                let seg = block_seg(x.take(j), names);
                lemma_after(scan(rest, names, false), seg);
                lemma_after(scan(rest.plus(b), names, eof), seg);
                assert(first == scan(rest, names, false).after(seg));
                assert(whole == scan(rest.plus(b), names, eof).after(seg));
                assert(first.text() + second.text() =~= whole.text());
                assert(first.calls() + second.calls() =~= whole.calls());
            },
            None => {
                lemma_no_segs();
                assert(first.text() + second.text() =~= whole.text());
                assert(first.calls() + second.calls() =~= whole.calls());
            },
        }
    } else {
        match find(x, OPEN@) {
            Some(i) => {
                let rest = ChannelView { buf: x.skip(i + OPEN@.len()), in_call: true };
                lemma_find_extend(x, b, OPEN@);
                assert((x + b).take(i) =~= x.take(i));
                assert((x + b).skip(i + OPEN@.len()) =~= rest.buf + b);
                assert(x =~= x.take(i + OPEN@.len()) + rest.buf);
                lemma_byte_len_concat(x.take(i + OPEN@.len()), rest.buf);
                law_scan_frames_do_not_matter(rest, b, names, eof);
                let seg = Seg::Prose(x.take(i));
                lemma_after(scan(rest, names, false), seg);
                lemma_after(scan(rest.plus(b), names, eof), seg);
                assert(first == scan(rest, names, false).after(seg));
                assert(whole == scan(rest.plus(b), names, eof).after(seg));
                assert(first.text() + second.text() =~= whole.text());
                assert(first.calls() + second.calls() =~= whole.calls());
            },
            None => {
                lemma_prose_frames(st, b, names, eof);
            },
        }
    }
}

proof fn lemma_prose_frames(st: ChannelView, b: Seq<char>, names: Seq<Seq<char>>, eof: bool)
    requires
        !st.in_call,
        find(st.buf, OPEN@) is None,
    ensures
        ({
            let first = scan(st, names, false);
            let second = scan(first.state.plus(b), names, eof);
            let whole = scan(st.plus(b), names, eof);
            &&& first.text() + second.text() == whole.text()
            &&& first.calls() + second.calls() == whole.calls()
            &&& first.refused() + second.refused() == whole.refused()
            &&& second.state == whole.state
        }),
{
    lemma_tag_lens();
    let x = st.buf;
    let first = scan(st, names, false);
    let second = scan(first.state.plus(b), names, eof);
    let whole = scan(st.plus(b), names, eof);
    lemma_partial_up_to(x, OPEN@, (OPEN@.len() - 1) as nat);
    let keep = partial_tag(x, OPEN@);
    let cut = x.len() - keep;
    let p = x.take(cut);
    let y = x.skip(cut) + b;
    assert(x + b =~= p + y);
    lemma_no_tag_before(x, b, OPEN@, keep);
    lemma_find_shift(p, y, OPEN@);
    lemma_partial_shift(x, b, OPEN@, keep);
    lemma_one_seg(Seg::Prose(p));
    assert(first.segs == seq![Seg::Prose(p)]);
    lemma_find(y, OPEN@);
    match find(y, OPEN@) {
        Some(i) => {
            let rest = ChannelView { buf: y.skip(i + OPEN@.len()), in_call: true };
            assert((p + y).skip(p.len() + i + OPEN@.len()) =~= rest.buf);
            assert((p + y).take(p.len() + i) =~= p + y.take(i));
            let tail = scan(rest, names, eof);
            lemma_after(tail, Seg::Prose(y.take(i)));
            lemma_after(tail, Seg::Prose(p + y.take(i)));
            assert(second == tail.after(Seg::Prose(y.take(i))));
            assert(whole == tail.after(Seg::Prose(p + y.take(i))));
        },
        None => {
            lemma_partial_up_to(y, OPEN@, (OPEN@.len() - 1) as nat);
            let k = if eof {
                0
            } else {
                partial_tag(y, OPEN@)
            };
            assert((p + y).take(p.len() + y.len() - k) =~= p + y.take(y.len() - k));
            assert((p + y).skip(p.len() + y.len() - k) =~= y.skip(y.len() - k));
            lemma_one_seg(Seg::Prose(y.take(y.len() - k)));
            lemma_one_seg(Seg::Prose(p + y.take(y.len() - k)));
            assert(second.segs == seq![Seg::Prose(y.take(y.len() - k))]);
            assert(whole.segs == seq![Seg::Prose(p + y.take(y.len() - k))]);
        },
    }
    assert(first.text() + second.text() =~= whole.text());
    assert(first.calls() + second.calls() =~= whole.calls());
}

// ───────────────────────── whose calls these are ─────────────────────────

/// Every call names one of the tools.
pub open spec fn all_named(calls: Seq<Call>, names: Seq<Seq<char>>) -> bool {
    forall|k: int| 0 <= k < calls.len() ==> names.contains((#[trigger] calls[k]).0)
}

pub proof fn lemma_named_concat(a: Seq<Call>, b: Seq<Call>, names: Seq<Seq<char>>)
    requires
        all_named(a, names),
        all_named(b, names),
    ensures
        all_named(a + b, names),
{
    assert forall|k: int| 0 <= k < (a + b).len() implies names.contains((#[trigger] (a + b)[k]).0) by {
        if k < a.len() {
            assert((a + b)[k] == a[k]);
        } else {
            assert((a + b)[k] == b[k - a.len()]);
        }
    }
}

proof fn lemma_items_named(items: Seq<JsonView>, names: Seq<Seq<char>>)
    ensures
        item_calls(items, names) matches Some(calls) ==> all_named(calls, names),
    decreases items.len(),
{
    if items.len() > 0 {
        lemma_items_named(items.drop_last(), names);
    }
}

proof fn lemma_payload_named(payload: Seq<char>, names: Seq<Seq<char>>)
    ensures
        all_named(payload_calls(payload, names), names),
{
    match json_parse(trim(payload)) {
        Ok(tree) => match tree {
            JsonView::Array(items) => lemma_items_named(items, names),
            other => lemma_items_named(seq![other], names),
        },
        Err(_) => {},
    }
}

/// A scan gives calls of the tools that it knows, and no others.
pub proof fn lemma_scan_named(st: ChannelView, names: Seq<Seq<char>>, eof: bool)
    ensures
        all_named(scan(st, names, eof).calls(), names),
    decreases st.buf.len(),
{
    lemma_tag_lens();
    if st.in_call {
        lemma_find(st.buf, CLOSE@);
        match find(st.buf, CLOSE@) {
            Some(j) => {
                let rest = ChannelView { buf: st.buf.skip(j + CLOSE@.len()), in_call: false };
                lemma_scan_named(rest, names, eof);
                let seg = block_seg(st.buf.take(j), names);
                lemma_after(scan(rest, names, eof), seg);
                lemma_payload_named(st.buf.take(j), names);
                lemma_named_concat(seg.calls(), scan(rest, names, eof).calls(), names);
            },
            None => {
                lemma_no_segs();
                lemma_one_seg(Seg::Refused(OPEN@ + st.buf));
            },
        }
    } else {
        lemma_find(st.buf, OPEN@);
        match find(st.buf, OPEN@) {
            Some(i) => {
                let rest = ChannelView { buf: st.buf.skip(i + OPEN@.len()), in_call: true };
                lemma_scan_named(rest, names, eof);
                let seg = Seg::Prose(st.buf.take(i));
                lemma_after(scan(rest, names, eof), seg);
                lemma_named_concat(seg.calls(), scan(rest, names, eof).calls(), names);
            },
            None => {
                let step = scan(st, names, eof);
                lemma_one_seg(step.segs[0]);
                assert(step.segs =~= seq![step.segs[0]]);
            },
        }
    }
}

} // verus!
