//! Tool calls and reasoning in what a model says.

use vstd::prelude::*;
use vstd::string::*;

use crate::json::{json_parse, json_text, JsonView};
use crate::proxy::scan::{
    block_seg, item_call, item_calls, lemma_after, lemma_no_segs, lemma_one_seg, lemma_tag_lens,
    payload_calls, scan, Call, ChannelView, Seg, Step, CLOSE, OPEN,
};
use crate::proxy::think::{
    add_part, add_seg, first_open, lemma_think_after, lemma_think_one, lemma_think_tags, merge,
    split_think, think_close, think_open, Part, ThinkSeg, ThinkState,
};
use crate::proxy::tools::{call_views, callable, parse_payload, Channel, ScannerView};
use crate::text::{
    byte_len, contains, find, lemma_find, lemma_find_is, lemma_partial_up_to, occurs_at, partial_tag,
    trim, views,
};

verus! {

// ───────────────────────── the payload of a block ─────────────────────────

/// A payload that names a tool, under `name` or `function`, is a call of that tool if the
/// tool is known, and none otherwise. Its arguments are the first there is of `arguments`,
/// `parameters` and `args`: a string is read as JSON, and must be JSON; nothing stands for
/// an empty object.
pub proof fn law_a_payload_is_a_call(
    payload: &str,
    names: &Vec<String>,
    r: Vec<(String, String)>,
    tree: JsonView,
    tool: Seq<char>,
    given: Option<JsonView>,
)
    requires
        call_ensures(parse_payload, (payload, names), r),
        json_parse(trim(payload@)) == Ok::<JsonView, Seq<char>>(tree),
        tree is Object,
        tree.get("name"@) == Some(JsonView::Text(tool)) || (tree.get("name"@) is None && tree.get(
            "function"@,
        ) == Some(JsonView::Text(tool))),
        given == tree.get("arguments"@) && given is Some || (tree.get("arguments"@) is None && given
            == tree.get("parameters"@) && given is Some) || (tree.get("arguments"@) is None
            && tree.get("parameters"@) is None && given == tree.get("args"@)),
    ensures
        !views(names@).contains(trim(tool)) ==> r@.len() == 0,
        views(names@).contains(trim(tool)) ==> match given {
            None => r@.len() == 1 && r@[0].0@ == trim(tool) && r@[0].1@ == "{}"@,
            Some(JsonView::Null) => r@.len() == 1 && r@[0].0@ == trim(tool) && r@[0].1@ == "{}"@,
            Some(JsonView::Text(s)) => match json_parse(s) {
                Ok(v) => r@.len() == 1 && r@[0].0@ == trim(tool) && r@[0].1@ == json_text(v),
                Err(_) => r@.len() == 0,
            },
            Some(v) => r@.len() == 1 && r@[0].0@ == trim(tool) && r@[0].1@ == json_text(v),
        },
{
    let known = views(names@);
    let one = seq![tree];
    assert(one.drop_last() =~= seq![]);
    assert(item_calls(one.drop_last(), known) == Some(Seq::<Call>::empty()));
    assert(call_views(r@).len() == r@.len());
    match item_call(tree, known) {
        Some(call) => {
            assert(item_calls(one, known) == Some(Seq::<Call>::empty().push(call)));
            assert(call_views(r@)[0] == call);
            assert(call_views(r@)[0] == (r@[0].0@, r@[0].1@));
        },
        None => {},
    }
}

/// What is no JSON, and what names no tool, is no call.
pub proof fn law_what_is_no_call(payload: &str, names: &Vec<String>, r: Vec<(String, String)>)
    requires
        call_ensures(parse_payload, (payload, names), r),
        json_parse(trim(payload@)) matches Ok(tree) ==> !(tree is Array) && !(tree.get(
            "name"@,
        ) matches Some(JsonView::Text(_))) && (tree.get("name"@) is Some || !(tree.get(
            "function"@,
        ) matches Some(JsonView::Text(_)))),
    ensures
        r@.len() == 0,
{
    assert(call_views(r@).len() == r@.len());
}

proof fn lemma_calls_concat(a: Seq<JsonView>, b: Seq<JsonView>, names: Seq<Seq<char>>)
    ensures
        item_calls(a + b, names) == match (item_calls(a, names), item_calls(b, names)) {
            (Some(x), Some(y)) => Some(x + y),
            _ => None,
        },
    decreases b.len(),
{
    if b.len() == 0 {
        assert(a + b =~= a);
        if item_calls(a, names) is Some {
            assert(item_calls(a, names)->0 + Seq::<Call>::empty() =~= item_calls(a, names)->0);
        }
    } else {
        lemma_calls_concat(a, b.drop_last(), names);
        assert((a + b).drop_last() =~= a + b.drop_last());
        assert((a + b).last() == b.last());
        if item_calls(a, names) is Some && item_calls(b, names) is Some {
            assert(item_calls(a + b, names)->0 =~= item_calls(a, names)->0 + item_calls(
                b,
                names,
            )->0);
        }
    }
}

proof fn lemma_calls_len(items: Seq<JsonView>, names: Seq<Seq<char>>)
    ensures
        item_calls(items, names) matches Some(x) ==> x.len() == items.len(),
    decreases items.len(),
{
    if items.len() > 0 {
        lemma_calls_len(items.drop_last(), names);
    }
}

/// A list stands for the calls of its items, in order, and for none at all if one of the
/// items is no call. A list of one item stands for what the item stands for.
pub proof fn law_lists_of_calls(
    first: &str,
    second: &str,
    both: &str,
    names: &Vec<String>,
    r1: Vec<(String, String)>,
    r2: Vec<(String, String)>,
    r: Vec<(String, String)>,
    a: Seq<JsonView>,
    b: Seq<JsonView>,
)
    requires
        call_ensures(parse_payload, (first, names), r1),
        call_ensures(parse_payload, (second, names), r2),
        call_ensures(parse_payload, (both, names), r),
        a.len() > 0,
        b.len() > 0,
        json_parse(trim(first@)) == Ok::<JsonView, Seq<char>>(JsonView::Array(a)) || (a.len() == 1
            && !(a[0] is Array) && json_parse(trim(first@)) == Ok::<JsonView, Seq<char>>(a[0])),
        json_parse(trim(second@)) == Ok::<JsonView, Seq<char>>(JsonView::Array(b)),
        json_parse(trim(both@)) == Ok::<JsonView, Seq<char>>(JsonView::Array(a + b)),
    ensures
        r1@.len() > 0 && r2@.len() > 0 ==> call_views(r@) == call_views(r1@) + call_views(r2@),
        r1@.len() == 0 || r2@.len() == 0 ==> r@.len() == 0,
{
    let known = views(names@);
    lemma_calls_concat(a, b, known);
    lemma_calls_len(a, known);
    lemma_calls_len(b, known);
    assert(call_views(r1@).len() == r1@.len());
    assert(call_views(r2@).len() == r2@.len());
    assert(call_views(r@).len() == r@.len());
    if a.len() == 1 {
        assert(a =~= seq![a[0]]);
    }
}

// ───────────────────────── blocks ─────────────────────────

pub proof fn lemma_tag_found(a: Seq<char>, tag: Seq<char>, b: Seq<char>)
    requires
        tag.len() > 0,
        forall|k: int| 0 < k < tag.len() ==> #[trigger] tag[k] != tag[0],
        !contains(a, tag),
    ensures
        find(a + tag + b, tag) == Some(a.len() as int),
{
    let s = a + tag + b;
    let n = a.len() as int;
    let m = tag.len() as int;
    assert(s.subrange(n, n + m) =~= tag);
    assert(occurs_at(s, tag, n));
    lemma_find(a, tag);
    assert forall|j: int| 0 <= j < n implies !#[trigger] occurs_at(s, tag, j) by {
        if occurs_at(s, tag, j) {
            if j + m <= n {
                assert(s.subrange(j, j + m) =~= a.subrange(j, j + m));
                assert(occurs_at(a, tag, j));
            } else {
                assert(s.subrange(j, j + m)[n - j] == tag[n - j]);
                assert(s[n] == tag[0]);
            }
        }
    }
    lemma_find_is(s, tag, n);
}

/// Text before a block passes; the block gives its calls or, where it is none, passes as
/// it stands, tags and all; and the rest is read as if it stood alone.
pub proof fn law_a_block(
    a: Seq<char>,
    payload: Seq<char>,
    b: Seq<char>,
    names: Seq<Seq<char>>,
    eof: bool,
)
    requires
        !contains(a, "<tool_call>"@),
        !contains(payload, "</tool_call>"@),
    ensures
        ({
            let block = "<tool_call>"@ + payload + "</tool_call>"@;
            let all = scan(ChannelView { buf: a + block + b, in_call: false }, names, eof);
            let rest = scan(ChannelView { buf: b, in_call: false }, names, eof);
            let calls = payload_calls(payload, names);
            &&& all.text() == a + (if calls.len() > 0 {
                seq![]
            } else {
                block
            }) + rest.text()
            &&& all.calls() == calls + rest.calls()
            &&& all.state == rest.state
            &&& all.refused() == rest.refused() + (if calls.len() > 0 {
                0int
            } else {
                1
            })
        }),
{
    lemma_tag_lens();
    reveal_strlit("<tool_call>");
    reveal_strlit("</tool_call>");
    let block = OPEN@ + payload + CLOSE@;
    let buf = a + block + b;
    let inner = payload + CLOSE@ + b;
    assert(buf =~= a + OPEN@ + inner);
    lemma_tag_found(a, OPEN@, inner);
    assert(buf.take(a.len() as int) =~= a);
    assert(buf.skip((a.len() + OPEN@.len()) as int) =~= inner);
    lemma_tag_found(payload, CLOSE@, b);
    assert(inner.take(payload.len() as int) =~= payload);
    assert(inner.skip((payload.len() + CLOSE@.len()) as int) =~= b);
    let rest = scan(ChannelView { buf: b, in_call: false }, names, eof);
    let seg = block_seg(payload, names);
    let mid = rest.after(seg);
    assert(scan(ChannelView { buf: inner, in_call: true }, names, eof) == mid);
    let all = mid.after(Seg::Prose(a));
    assert(scan(ChannelView { buf, in_call: false }, names, eof) == all);
    lemma_after(rest, seg);
    lemma_after(mid, Seg::Prose(a));
    let calls = payload_calls(payload, names);
    if calls.len() > 0 {
        assert(all.text() =~= a + Seq::<char>::empty() + rest.text());
    } else {
        assert(all.text() =~= a + block + rest.text());
        assert(calls =~= Seq::<Call>::empty());
    }
    assert(all.calls() =~= calls + rest.calls());
}

/// Text without a block passes at the end as it is. Before the end no more of it is held
/// back than may be the beginning of a tag.
pub proof fn law_plain_text(s: Seq<char>, names: Seq<Seq<char>>)
    requires
        !contains(s, "<tool_call>"@),
    ensures
        ({
            let last = scan(ChannelView { buf: s, in_call: false }, names, true);
            let step = scan(ChannelView { buf: s, in_call: false }, names, false);
            let held = step.state.buf;
            &&& last.text() == s && last.calls().len() == 0 && last.refused() == 0
            &&& step.text() + held == s && step.calls().len() == 0 && step.refused() == 0
            &&& !step.state.in_call
            &&& held.len() < 11 && held == "<tool_call>"@.take(held.len() as int)
            &&& (s.len() == 0 || !"<tool_call>"@.contains(s.last())) ==> held.len() == 0
        }),
{
    lemma_tag_lens();
    lemma_partial_up_to(s, OPEN@, 10);
    let keep = partial_tag(s, OPEN@);
    let cut = s.len() - keep;
    lemma_one_seg(Seg::Prose(s.take(cut)));
    lemma_one_seg(Seg::Prose(s.take(s.len() as int)));
    assert(s.take(s.len() as int) =~= s);
    assert(s.take(cut) + s.skip(cut) =~= s);
    if keep > 0 && !OPEN@.contains(s.last()) {
        assert(s.skip(cut)[keep - 1] == s.last());
        assert(OPEN@.take(keep as int)[keep - 1] == OPEN@[keep - 1]);
    }
}

/// An open block is held back as long as it has at most 2 MiB; a longer one passes as
/// text, and so does one that is still open at the end.
pub proof fn law_an_open_block(s: Seq<char>, names: Seq<Seq<char>>)
    requires
        !contains(s, "</tool_call>"@),
    ensures
        ({
            let st = ChannelView { buf: s, in_call: true };
            let step = scan(st, names, false);
            let last = scan(st, names, true);
            &&& step.calls().len() == 0 && last.calls().len() == 0
            &&& byte_len(s) <= 2097152 ==> step.text().len() == 0 && step.state == st
            &&& byte_len(s) > 2097152 ==> step.text() == "<tool_call>"@ + s && step.refused() == 1
                && !step.state.in_call && step.state.buf.len() == 0
            &&& last.text() == "<tool_call>"@ + s && last.refused() == 1
        }),
{
    lemma_tag_lens();
    lemma_no_segs();
    lemma_one_seg(Seg::Refused(OPEN@ + s));
}

proof fn lemma_callable(names: Seq<Seq<char>>, name: Seq<char>)
    ensures
        callable(names).contains(name) <==> exists|k: int|
            0 <= k < names.len() && trim(#[trigger] names[k]) == name && name.len() > 0,
    decreases names.len(),
{
    if names.len() > 0 {
        let front = names.drop_last();
        let x = names.last();
        lemma_callable(front, name);
        let s = callable(names);
        let t = callable(front);
        if exists|k: int| 0 <= k < names.len() && trim(#[trigger] names[k]) == name && name.len() > 0 {
            let k = choose|k: int|
                0 <= k < names.len() && trim(#[trigger] names[k]) == name && name.len() > 0;
            if k < front.len() {
                assert(trim(front[k]) == name);
                let i = t.index_of(name);
                assert(s[i] == name);
            } else {
                assert(s[t.len() as int] == name);
            }
        }
        if s.contains(name) {
            let i = s.index_of(name);
            if i < t.len() {
                assert(t[i] == name);
                let k = choose|k: int|
                    0 <= k < front.len() && trim(#[trigger] front[k]) == name && name.len() > 0;
                assert(trim(names[k]) == name);
            } else {
                assert(trim(names[names.len() - 1]) == name);
            }
        }
    }
}

/// A new scanner knows the tools that have a name; it reads what comes on either channel
/// if it is switched on and knows one, and lets everything through otherwise.
pub proof fn law_a_new_scanner(
    names: Seq<Seq<char>>,
    enabled: bool,
    name: Seq<char>,
    ch: Channel,
    delta: Seq<char>,
    eof: bool,
)
    ensures
        ({
            let s = ScannerView::fresh(names, enabled);
            let step = s.step(ch, delta, eof);
            &&& s.names.contains(name) <==> exists|k: int|
                0 <= k < names.len() && trim(#[trigger] names[k]) == name && name.len() > 0
            &&& s.enabled ==> enabled
            &&& enabled && s.names.contains(name) ==> s.enabled
            &&& !s.enabled ==> step.text() == delta && step.calls().len() == 0
            &&& s.enabled ==> step == scan(
                ChannelView { buf: delta, in_call: false },
                s.names,
                eof,
            )
            &&& s.next_index == 0 && s.rejected == 0
        }),
{
    lemma_callable(names, name);
    let s = ScannerView::fresh(names, enabled);
    lemma_one_seg(Seg::Prose(delta));
    assert(Seq::<char>::empty() + delta =~= delta);
}

/// What comes on one channel leaves the other alone.
pub proof fn law_channels_are_apart(s: ScannerView, ch: Channel, step: Step)
    ensures
        ({
            let next = s.after(ch, step);
            &&& ch == Channel::Content ==> next.content == step.state && next.reasoning
                == s.reasoning
            &&& ch == Channel::Reasoning ==> next.reasoning == step.state && next.content
                == s.content
            &&& next.names == s.names && next.enabled == s.enabled
            &&& s.next_index + step.calls().len() <= u32::MAX ==> next.next_index == s.next_index
                + step.calls().len()
            &&& s.rejected + step.refused() <= u32::MAX ==> next.rejected == s.rejected
                + step.refused()
        }),
{
}

// ───────────────────────── reasoning ─────────────────────────

/// What is said on a channel.
pub open spec fn said_on(parts: Seq<Part>, ch: Channel) -> Seq<char>
    decreases parts.len(),
{
    if parts.len() == 0 {
        seq![]
    } else {
        said_on(parts.drop_last(), ch) + (if parts.last().0 == ch {
            parts.last().1
        } else {
            seq![]
        })
    }
}

pub proof fn lemma_add_part(parts: Seq<Part>, c: Channel, text: Seq<char>, ch: Channel)
    ensures
        said_on(add_part(parts, c, text), ch) == said_on(parts, ch) + (if c == ch {
            text
        } else {
            seq![]
        }),
{
    let out = add_part(parts, c, text);
    if text.len() == 0 {
        assert(said_on(parts, ch) + text =~= said_on(parts, ch));
        assert(said_on(parts, ch) + Seq::<char>::empty() =~= said_on(parts, ch));
    } else if parts.len() > 0 && parts.last().0 == c {
        assert(out.drop_last() =~= parts.drop_last());
        if c == ch {
            assert(said_on(out, ch) =~= said_on(parts, ch) + text);
        } else {
            assert(said_on(out, ch) =~= said_on(parts, ch) + Seq::<char>::empty());
        }
    } else {
        assert(out.drop_last() =~= parts);
    }
}

proof fn lemma_merge(parts: Seq<Part>, segs: Seq<ThinkSeg>, ch: Channel)
    ensures
        said_on(merge(parts, segs), ch) == said_on(parts, ch) + said_on(merge(seq![], segs), ch),
    decreases segs.len(),
{
    let none = Seq::<Part>::empty();
    if segs.len() == 0 {
        assert(said_on(parts, ch) + Seq::<char>::empty() =~= said_on(parts, ch));
    } else {
        let rest = segs.drop_first();
        lemma_merge(add_seg(parts, segs[0]), rest, ch);
        lemma_merge(add_seg(none, segs[0]), rest, ch);
        match segs[0] {
            ThinkSeg::Answer(t) => {
                lemma_add_part(parts, Channel::Content, t, ch);
                lemma_add_part(none, Channel::Content, t, ch);
            },
            ThinkSeg::Thought(t) => {
                lemma_add_part(parts, Channel::Reasoning, t, ch);
                lemma_add_part(none, Channel::Reasoning, t, ch);
            },
            _ => {},
        }
        assert(said_on(merge(parts, segs), ch) =~= said_on(parts, ch) + said_on(
            merge(none, segs),
            ch,
        ));
    }
}

proof fn lemma_first_open(a: Seq<char>, b: Seq<char>, i: usize)
    requires
        i < 2,
        !contains(a, "<think>"@),
        !contains(a, "<thinking>"@),
    ensures
        first_open(a + think_open(i) + b) == Some((i, a.len() as int)),
{
    lemma_think_tags();
    let s = a + think_open(i) + b;
    let n = a.len() as int;
    lemma_tag_found(a, think_open(i), b);
    let other: usize = if i == 0 {
        1
    } else {
        0
    };
    let tag = think_open(other);
    let m = tag.len() as int;
    lemma_find(a, tag);
    lemma_find(s, tag);
    assert forall|j: int| 0 <= j <= n implies !#[trigger] occurs_at(s, tag, j) by {
        if occurs_at(s, tag, j) {
            if j + m <= n {
                assert(s.subrange(j, j + m) =~= a.subrange(j, j + m));
                assert(occurs_at(a, tag, j));
            } else if j < n {
                assert(s.subrange(j, j + m)[n - j] == tag[n - j]);
                assert(s[n] == think_open(i)[0]);
            } else {
                reveal_strlit("<think>");
                reveal_strlit("<thinking>");
                assert(s.subrange(n, n + m)[6] == s[n + 6]);
                assert(s[n + 6] == think_open(i)[6]);
            }
        }
    }
}

/// What stands between the tags is reasoning, what stands outside is the answer, the tags
/// themselves are neither, and the rest is read as if it stood alone.
pub proof fn law_reasoning_is_told_apart(
    a: Seq<char>,
    thought: Seq<char>,
    b: Seq<char>,
    i: usize,
    eof: bool,
)
    requires
        i < 2,
        !contains(a, "<think>"@),
        !contains(a, "<thinking>"@),
        !contains(
            thought,
            if i == 0 {
                "</think>"@
            } else {
                "</thinking>"@
            },
        ),
    ensures
        ({
            let open = if i == 0 {
                "<think>"@
            } else {
                "<thinking>"@
            };
            let close = if i == 0 {
                "</think>"@
            } else {
                "</thinking>"@
            };
            let all = split_think(
                ThinkState { buf: a + open + thought + close + b, inside: None },
                eof,
            );
            let rest = split_think(ThinkState { buf: b, inside: None }, eof);
            &&& said_on(all.parts(), Channel::Content) == a + said_on(rest.parts(), Channel::Content)
            &&& said_on(all.parts(), Channel::Reasoning) == thought + said_on(
                rest.parts(),
                Channel::Reasoning,
            )
            &&& all.state == rest.state && all.unclosed == rest.unclosed
            &&& all.closed() == rest.closed() + 1
        }),
{
    lemma_think_tags();
    reveal_strlit("</think>");
    reveal_strlit("</thinking>");
    let open = think_open(i);
    let close = think_close(i);
    let inner = thought + close + b;
    let buf = a + open + thought + close + b;
    assert(buf =~= a + open + inner);
    lemma_first_open(a, inner, i);
    assert(buf.take(a.len() as int) =~= a);
    assert(buf.skip((a.len() + open.len()) as int) =~= inner);
    lemma_tag_found(thought, close, b);
    assert(inner.take(thought.len() as int) =~= thought);
    assert(inner.skip((thought.len() + close.len()) as int) =~= b);
    let rest = split_think(ThinkState { buf: b, inside: None }, eof);
    let mid = rest.after(ThinkSeg::Thought(thought), ThinkSeg::Closed(i));
    assert(split_think(ThinkState { buf: inner, inside: Some(i) }, eof) == mid);
    let all = mid.after(ThinkSeg::Answer(a), ThinkSeg::Opened(i));
    assert(split_think(ThinkState { buf, inside: None }, eof) == all);
    let none = Seq::<Part>::empty();
    let p1 = add_part(none, Channel::Content, a);
    let p2 = add_part(p1, Channel::Reasoning, thought);
    lemma_think_after(mid, ThinkSeg::Answer(a), ThinkSeg::Opened(i), none);
    lemma_think_after(rest, ThinkSeg::Thought(thought), ThinkSeg::Closed(i), p1);
    assert(all.parts() == merge(p2, rest.segs));
    let c = Channel::Content;
    let d = Channel::Reasoning;
    lemma_merge(p2, rest.segs, c);
    lemma_merge(p2, rest.segs, d);
    lemma_add_part(none, Channel::Content, a, c);
    lemma_add_part(none, Channel::Content, a, d);
    lemma_add_part(p1, Channel::Reasoning, thought, c);
    lemma_add_part(p1, Channel::Reasoning, thought, d);
    assert(said_on(all.parts(), c) =~= a + said_on(rest.parts(), c));
    assert(said_on(all.parts(), d) =~= thought + said_on(rest.parts(), d));
}

/// A text without a tag is the answer; one whose tag is never closed is reasoning from
/// there on.
pub proof fn law_without_a_closing_tag(a: Seq<char>, thought: Seq<char>)
    requires
        !contains(a, "<think>"@),
        !contains(a, "<thinking>"@),
        !contains(thought, "</think>"@),
    ensures
        ({
            let plain = split_think(ThinkState { buf: a, inside: None }, true);
            let open = split_think(ThinkState { buf: thought, inside: Some(0) }, true);
            &&& said_on(plain.parts(), Channel::Content) == a
            &&& said_on(plain.parts(), Channel::Reasoning).len() == 0
            &&& !plain.unclosed
            &&& said_on(open.parts(), Channel::Reasoning) == thought
            &&& said_on(open.parts(), Channel::Content).len() == 0
            &&& open.unclosed
        }),
{
    let none = Seq::<Part>::empty();
    let plain = split_think(ThinkState { buf: a, inside: None }, true);
    let open = split_think(ThinkState { buf: thought, inside: Some(0) }, true);
    let c = Channel::Content;
    let d = Channel::Reasoning;
    assert(a.take(a.len() as int) =~= a);
    assert(plain.segs =~= seq![ThinkSeg::Answer(a)]);
    assert(open.segs =~= seq![ThinkSeg::Thought(thought)]);
    lemma_think_one(ThinkSeg::Answer(a), none);
    lemma_think_one(ThinkSeg::Thought(thought), none);
    assert(plain.parts() == add_part(none, c, a));
    assert(open.parts() == add_part(none, d, thought));
    lemma_add_part(none, c, a, c);
    lemma_add_part(none, c, a, d);
    lemma_add_part(none, d, thought, c);
    lemma_add_part(none, d, thought, d);
    assert(Seq::<char>::empty() + a =~= a);
    assert(Seq::<char>::empty() + thought =~= thought);
}

} // verus!
