//! Reasoning that a model mixes into its answer between `<think>` tags. The
//! splitter of [`super::tools`] computes this.

use vstd::prelude::*;
use vstd::string::*;

use crate::text::{
    find, lemma_find, lemma_find_extend, lemma_find_shift, lemma_no_tag_before,
    lemma_partial_shift, lemma_partial_up_to, occurs_at, partial_tag,
};

use super::tools::Channel;

verus! {

/// The opening tags: `<think>` is number 0, `<thinking>` number 1.
pub open spec fn think_open(i: usize) -> Seq<char> {
    if i == 0 {
        "<think>"@
    } else {
        "<thinking>"@
    }
}

pub open spec fn think_close(i: usize) -> Seq<char> {
    if i == 0 {
        "</think>"@
    } else {
        "</thinking>"@
    }
}

/// The tags are not empty, and an opening tag has no `<` but its first character.
pub proof fn lemma_think_tags()
    ensures
        think_open(0).len() == 7,
        think_open(1).len() == 10,
        think_close(0).len() == 8,
        think_close(1).len() == 11,
        forall|i: usize, k: int|
            i < 2 && 0 < k < think_open(i).len() ==> #[trigger] think_open(i)[k] != '<',
        forall|i: usize| i < 2 ==> #[trigger] think_open(i)[0] == '<',
        !occurs_at(think_open(1), think_open(0), 0),
{
    reveal_strlit("<think>");
    reveal_strlit("<thinking>");
    reveal_strlit("</think>");
    reveal_strlit("</thinking>");
    assert(think_open(1).subrange(0, 7)[6] != think_open(0)[6]);
}

/// A piece of the source text.
pub enum ThinkSeg {
    /// Part of the answer.
    Answer(Seq<char>),
    /// An opening tag, by its number.
    Opened(usize),
    /// Part of the reasoning.
    Thought(Seq<char>),
    /// A closing tag, by its number.
    Closed(usize),
}

impl ThinkSeg {
    pub open spec fn source(self) -> Seq<char> {
        match self {
            ThinkSeg::Answer(t) => t,
            ThinkSeg::Opened(i) => think_open(i),
            ThinkSeg::Thought(t) => t,
            ThinkSeg::Closed(i) => think_close(i),
        }
    }

    pub open spec fn closes(self) -> nat {
        if self is Closed {
            1
        } else {
            0
        }
    }
}

pub open spec fn think_source(segs: Seq<ThinkSeg>) -> Seq<char>
    decreases segs.len(),
{
    if segs.len() == 0 {
        seq![]
    } else {
        segs[0].source() + think_source(segs.drop_first())
    }
}

pub open spec fn think_closed(segs: Seq<ThinkSeg>) -> nat
    decreases segs.len(),
{
    if segs.len() == 0 {
        0
    } else {
        segs[0].closes() + think_closed(segs.drop_first())
    }
}

/// Text on a channel.
pub type Part = (Channel, Seq<char>);

/// Adds a part: an empty one is left out, and one on the channel of the last part
/// is joined to it.
pub open spec fn add_part(parts: Seq<Part>, ch: Channel, text: Seq<char>) -> Seq<Part> {
    if text.len() == 0 {
        parts
    } else if parts.len() > 0 && parts.last().0 == ch {
        parts.drop_last().push((ch, parts.last().1 + text))
    } else {
        parts.push((ch, text))
    }
}

pub open spec fn add_seg(parts: Seq<Part>, seg: ThinkSeg) -> Seq<Part> {
    match seg {
        ThinkSeg::Answer(t) => add_part(parts, Channel::Content, t),
        ThinkSeg::Thought(t) => add_part(parts, Channel::Reasoning, t),
        _ => parts,
    }
}

/// `parts` followed by the text of `segs`, channel by channel.
pub open spec fn merge(parts: Seq<Part>, segs: Seq<ThinkSeg>) -> Seq<Part>
    decreases segs.len(),
{
    if segs.len() == 0 {
        parts
    } else {
        merge(add_seg(parts, segs[0]), segs.drop_first())
    }
}

/// What the splitter holds back, and the number of the tag that is open.
pub struct ThinkState {
    pub buf: Seq<char>,
    pub inside: Option<usize>,
}

impl ThinkState {
    pub open spec fn fresh() -> ThinkState {
        ThinkState { buf: seq![], inside: None }
    }

    pub open spec fn plus(self, more: Seq<char>) -> ThinkState {
        ThinkState { buf: self.buf + more, inside: self.inside }
    }

    pub open spec fn valid(self) -> bool {
        self.inside matches Some(i) ==> i < 2
    }
}

pub struct ThinkStep {
    pub segs: Seq<ThinkSeg>,
    /// The text ended inside a block.
    pub unclosed: bool,
    pub state: ThinkState,
}

impl ThinkStep {
    pub open spec fn parts(self) -> Seq<Part> {
        merge(seq![], self.segs)
    }

    pub open spec fn closed(self) -> nat {
        think_closed(self.segs)
    }

    pub open spec fn after(self, first: ThinkSeg, second: ThinkSeg) -> ThinkStep {
        ThinkStep { segs: seq![first, second] + self.segs, ..self }
    }
}

/// The first opening tag in `buf`: its number and its place.
pub open spec fn first_open(buf: Seq<char>) -> Option<(usize, int)> {
    match (find(buf, think_open(0)), find(buf, think_open(1))) {
        (Some(a), Some(b)) => if a < b {
            Some((0, a))
        } else {
            Some((1, b))
        },
        (Some(a), None) => Some((0, a)),
        (None, Some(b)) => Some((1, b)),
        (None, None) => None,
    }
}

pub open spec fn max(a: nat, b: nat) -> nat {
    if a < b {
        b
    } else {
        a
    }
}

/// How much of the end of `buf` may be the beginning of an opening tag.
pub open spec fn partial_open(buf: Seq<char>) -> nat {
    max(partial_tag(buf, think_open(0)), partial_tag(buf, think_open(1)))
}

/// Settles as much of what the splitter holds as can be settled; all of it at `eof`.
pub open spec fn split_think(st: ThinkState, eof: bool) -> ThinkStep
    decreases st.buf.len(),
{
    proof {
        lemma_think_tags();
        lemma_find(st.buf, think_open(0));
        lemma_find(st.buf, think_open(1));
        lemma_find(st.buf, think_close(0));
        lemma_find(st.buf, think_close(1));
    }
    match st.inside {
        Some(i) => match find(st.buf, think_close(i)) {
            Some(j) => {
                let rest = ThinkState { buf: st.buf.skip(j + think_close(i).len()), inside: None };
                split_think(rest, eof).after(
                    ThinkSeg::Thought(st.buf.take(j)),
                    ThinkSeg::Closed(i),
                )
            },
            None => if eof {
                ThinkStep {
                    segs: seq![ThinkSeg::Thought(st.buf)],
                    unclosed: true,
                    state: ThinkState::fresh(),
                }
            } else {
                let cut = st.buf.len() - partial_tag(st.buf, think_close(i));
                ThinkStep {
                    segs: seq![ThinkSeg::Thought(st.buf.take(cut))],
                    unclosed: false,
                    state: ThinkState { buf: st.buf.skip(cut), inside: Some(i) },
                }
            },
        },
        None => match first_open(st.buf) {
            Some((i, at)) => {
                let rest = ThinkState {
                    buf: st.buf.skip(at + think_open(i).len()),
                    inside: Some(i),
                };
                split_think(rest, eof).after(
                    ThinkSeg::Answer(st.buf.take(at)),
                    ThinkSeg::Opened(i),
                )
            },
            None => {
                let keep = if eof {
                    0
                } else {
                    partial_open(st.buf)
                };
                let cut = st.buf.len() - keep;
                ThinkStep {
                    segs: seq![ThinkSeg::Answer(st.buf.take(cut))],
                    unclosed: false,
                    state: ThinkState { buf: st.buf.skip(cut), inside: None },
                }
            },
        },
    }
}

// ───────────────────────── lemmas ─────────────────────────

pub proof fn lemma_think_after(step: ThinkStep, a: ThinkSeg, b: ThinkSeg, parts: Seq<Part>)
    ensures
        merge(parts, step.after(a, b).segs) == merge(add_seg(add_seg(parts, a), b), step.segs),
        step.after(a, b).closed() == a.closes() + b.closes() + step.closed(),
        think_source(step.after(a, b).segs) == a.source() + b.source() + think_source(step.segs),
{
    let segs = step.after(a, b).segs;
    assert(segs.drop_first() =~= seq![b] + step.segs);
    let tail = seq![b] + step.segs;
    assert(tail.drop_first() =~= step.segs);
    assert(merge(add_seg(parts, a), tail) == merge(add_seg(add_seg(parts, a), b), step.segs));
    assert(think_closed(tail) == b.closes() + step.closed());
    assert(think_source(tail) == b.source() + think_source(step.segs));
    assert(a.source() + (b.source() + think_source(step.segs)) =~= a.source() + b.source()
        + think_source(step.segs));
}

pub proof fn lemma_think_one(a: ThinkSeg, parts: Seq<Part>)
    ensures
        merge(parts, seq![a]) == add_seg(parts, a),
        think_closed(seq![a]) == a.closes(),
        think_source(seq![a]) == a.source(),
{
    assert(seq![a].drop_first() =~= seq![]);
    assert(merge(add_seg(parts, a), seq![]) == add_seg(parts, a));
    assert(think_closed(seq![]) == 0);
    assert(think_source(seq![]) =~= seq![]);
    assert(a.source() + Seq::<char>::empty() =~= a.source());
}

/// Adding text in two goes is adding it at once.
pub proof fn lemma_add_part_twice(parts: Seq<Part>, ch: Channel, a: Seq<char>, b: Seq<char>)
    ensures
        add_part(add_part(parts, ch, a), ch, b) == add_part(parts, ch, a + b),
{
    if a.len() == 0 {
        assert(a + b =~= b);
    } else if b.len() == 0 {
        assert(a + b =~= a);
    } else if parts.len() > 0 && parts.last().0 == ch {
        let one = parts.drop_last().push((ch, parts.last().1 + a));
        assert(one.drop_last() =~= parts.drop_last());
        assert(parts.last().1 + a + b =~= parts.last().1 + (a + b));
    } else {
        assert(parts.push((ch, a)).drop_last() =~= parts);
    }
}

proof fn lemma_first_open(buf: Seq<char>)
    ensures
        match first_open(buf) {
            Some((i, at)) => {
                &&& i < 2
                &&& occurs_at(buf, think_open(i), at)
                &&& forall|k: usize, j: int|
                    k < 2 && 0 <= j < at ==> !#[trigger] occurs_at(buf, think_open(k), j)
            },
            None => find(buf, think_open(0)) is None && find(buf, think_open(1)) is None,
        },
{
    lemma_find(buf, think_open(0));
    lemma_find(buf, think_open(1));
}

/// Text that follows does not move the first opening tag.
proof fn lemma_first_open_extend(x: Seq<char>, b: Seq<char>)
    requires
        first_open(x) is Some,
    ensures
        first_open(x + b) == first_open(x),
{
    lemma_think_tags();
    lemma_first_open(x);
    let (i, at) = first_open(x)->0;
    lemma_find(x, think_open(0));
    lemma_find(x, think_open(1));
    assert(find(x, think_open(i)) == Some(at));
    lemma_find_extend(x, b, think_open(i));
    let other: usize = if i == 0 {
        1
    } else {
        0
    };
    lemma_find(x + b, think_open(other));
    match find(x + b, think_open(other)) {
        Some(q) => {
            assert(occurs_at(x + b, think_open(other), q));
            if q < at {
                if q + think_open(other).len() <= x.len() {
                    assert((x + b).subrange(q, q + think_open(other).len()) =~= x.subrange(
                        q,
                        q + think_open(other).len(),
                    ));
                    assert(occurs_at(x, think_open(other), q));
                } else {
                    assert((x + b).subrange(q, q + think_open(other).len())[at - q] == think_open(
                        other,
                    )[at - q]);
                    assert(x.subrange(at, at + think_open(i).len())[0] == think_open(i)[0]);
                    assert(false);
                }
            }
            if q == at {
                if find(x, think_open(other)) is None {
                    assert(x.subrange(at, at + think_open(i).len()) == think_open(i));
                    assert((x + b).subrange(q, q + think_open(other).len()) == think_open(other));
                    if i == 0 {
                        assert((x + b).subrange(q, q + 10)[6] == think_open(1)[6]);
                        assert(x.subrange(at, at + 7)[6] == think_open(0)[6]);
                        reveal_strlit("<think>");
                        reveal_strlit("<thinking>");
                        assert(false);
                    } else {
                        assert((x + b).subrange(q, q + 7)[6] == think_open(0)[6]);
                        assert(x.subrange(at, at + 10)[6] == think_open(1)[6]);
                        reveal_strlit("<think>");
                        reveal_strlit("<thinking>");
                        assert(false);
                    }
                }
            }
            if find(x, think_open(other)) is Some {
                lemma_find_extend(x, b, think_open(other));
            }
        },
        None => {
            if find(x, think_open(other)) is Some {
                lemma_find_extend(x, b, think_open(other));
            }
        },
    }
}

// ───────────────────────── laws ─────────────────────────

/// Nothing is lost and nothing is made up: the pieces and what is still held back
/// are, in order, the text that the splitter held.
#[verifier::rlimit(50)]
pub proof fn law_think_keeps_everything(st: ThinkState, eof: bool)
    requires
        st.valid(),
    ensures
        think_source(split_think(st, eof).segs) + split_think(st, eof).state.buf == st.buf,
        split_think(st, eof).state.valid(),
    decreases st.buf.len(),
{
    lemma_think_tags();
    lemma_find(st.buf, think_close(0));
    lemma_find(st.buf, think_close(1));
    lemma_first_open(st.buf);
    let step = split_think(st, eof);
    match st.inside {
        Some(i) => match find(st.buf, think_close(i)) {
            Some(j) => {
                let rest = ThinkState { buf: st.buf.skip(j + think_close(i).len()), inside: None };
                law_think_keeps_everything(rest, eof);
                lemma_think_after(
                    split_think(rest, eof),
                    ThinkSeg::Thought(st.buf.take(j)),
                    ThinkSeg::Closed(i),
                    seq![],
                );
                assert(think_source(step.segs) + step.state.buf =~= st.buf.take(j) + think_close(i)
                    + rest.buf);
                assert(st.buf =~= st.buf.take(j) + think_close(i) + rest.buf);
            },
            None => {
                lemma_partial_up_to(st.buf, think_close(i), (think_close(i).len() - 1) as nat);
                lemma_think_one(step.segs[0], seq![]);
                assert(step.segs =~= seq![step.segs[0]]);
                assert(think_source(step.segs) + step.state.buf =~= st.buf);
            },
        },
        None => match first_open(st.buf) {
            Some((i, at)) => {
                let rest = ThinkState {
                    buf: st.buf.skip(at + think_open(i).len()),
                    inside: Some(i),
                };
                law_think_keeps_everything(rest, eof);
                lemma_think_after(
                    split_think(rest, eof),
                    ThinkSeg::Answer(st.buf.take(at)),
                    ThinkSeg::Opened(i),
                    seq![],
                );
                assert(think_source(step.segs) + step.state.buf =~= st.buf.take(at) + think_open(i)
                    + rest.buf);
                assert(st.buf =~= st.buf.take(at) + think_open(i) + rest.buf);
            },
            None => {
                lemma_partial_up_to(st.buf, think_open(0), (think_open(0).len() - 1) as nat);
                lemma_partial_up_to(st.buf, think_open(1), (think_open(1).len() - 1) as nat);
                lemma_think_one(step.segs[0], seq![]);
                assert(step.segs =~= seq![step.segs[0]]);
                assert(think_source(step.segs) + step.state.buf =~= st.buf);
            },
        },
    }
}

/// Where the text is cut into frames makes no difference: splitting what is there
/// and then splitting on with `b` gives, joined, the same parts, the same number of
/// blocks and the same state as splitting all of it at once.
#[verifier::rlimit(50)]
pub proof fn law_think_frames_do_not_matter(
    st: ThinkState,
    b: Seq<char>,
    eof: bool,
    before: Seq<Part>,
)
    requires
        st.valid(),
    ensures
        ({
            let first = split_think(st, false);
            let second = split_think(first.state.plus(b), eof);
            let whole = split_think(st.plus(b), eof);
            &&& merge(merge(before, first.segs), second.segs) == merge(before, whole.segs)
            &&& first.closed() + second.closed() == whole.closed()
            &&& !first.unclosed
            &&& second.unclosed == whole.unclosed
            &&& second.state == whole.state
        }),
    decreases st.buf.len(),
{
    lemma_think_tags();
    lemma_find(st.buf, think_close(0));
    lemma_find(st.buf, think_close(1));
    lemma_first_open(st.buf);
    let x = st.buf;
    match st.inside {
        Some(i) => match find(x, think_close(i)) {
            Some(j) => {
                let t = think_close(i);
                let rest = ThinkState { buf: x.skip(j + t.len()), inside: None };
                lemma_find_extend(x, b, t);
                assert((x + b).take(j) =~= x.take(j));
                assert((x + b).skip(j + t.len()) =~= rest.buf + b);
                let a1 = ThinkSeg::Thought(x.take(j));
                let a2 = ThinkSeg::Closed(i);
                law_think_frames_do_not_matter(rest, b, eof, add_seg(add_seg(before, a1), a2));
                lemma_think_after(split_think(rest, false), a1, a2, before);
                lemma_think_after(split_think(rest.plus(b), eof), a1, a2, before);
                assert(split_think(st, false) == split_think(rest, false).after(a1, a2));
                assert(split_think(st.plus(b), eof) == split_think(rest.plus(b), eof).after(a1, a2));
            },
            None => {
                lemma_thought_frames(st, b, eof, before);
            },
        },
        None => match first_open(x) {
            Some((i, at)) => {
                let t = think_open(i);
                let rest = ThinkState { buf: x.skip(at + t.len()), inside: Some(i) };
                lemma_first_open_extend(x, b);
                assert((x + b).take(at) =~= x.take(at));
                assert((x + b).skip(at + t.len()) =~= rest.buf + b);
                let a1 = ThinkSeg::Answer(x.take(at));
                let a2 = ThinkSeg::Opened(i);
                law_think_frames_do_not_matter(rest, b, eof, add_seg(add_seg(before, a1), a2));
                lemma_think_after(split_think(rest, false), a1, a2, before);
                lemma_think_after(split_think(rest.plus(b), eof), a1, a2, before);
                assert(split_think(st, false) == split_think(rest, false).after(a1, a2));
                assert(split_think(st.plus(b), eof) == split_think(rest.plus(b), eof).after(a1, a2));
            },
            None => {
                lemma_answer_frames(st, b, eof, before);
            },
        },
    }
}

proof fn lemma_thought_frames(st: ThinkState, b: Seq<char>, eof: bool, before: Seq<Part>)
    requires
        st.valid(),
        st.inside is Some,
        find(st.buf, think_close(st.inside->0)) is None,
    ensures
        ({
            let first = split_think(st, false);
            let second = split_think(first.state.plus(b), eof);
            let whole = split_think(st.plus(b), eof);
            &&& merge(merge(before, first.segs), second.segs) == merge(before, whole.segs)
            &&& first.closed() + second.closed() == whole.closed()
            &&& !first.unclosed
            &&& second.unclosed == whole.unclosed
            &&& second.state == whole.state
        }),
{
    lemma_think_tags();
    let i = st.inside->0;
    let t = think_close(i);
    let x = st.buf;
    let first = split_think(st, false);
    let second = split_think(first.state.plus(b), eof);
    let whole = split_think(st.plus(b), eof);
    lemma_partial_up_to(x, t, (t.len() - 1) as nat);
    let keep = partial_tag(x, t);
    let p = x.take(x.len() - keep);
    let y = x.skip(x.len() - keep) + b;
    assert(x + b =~= p + y);
    lemma_no_tag_before(x, b, t, keep);
    lemma_find_shift(p, y, t);
    lemma_partial_shift(x, b, t, keep);
    assert(first.segs == seq![ThinkSeg::Thought(p)]);
    lemma_think_one(ThinkSeg::Thought(p), before);
    let mid = add_part(before, Channel::Reasoning, p);
    lemma_find(y, t);
    match find(y, t) {
        Some(j) => {
            let rest = ThinkState { buf: y.skip(j + t.len()), inside: None };
            assert((p + y).skip(p.len() + j + t.len()) =~= rest.buf);
            assert((p + y).take(p.len() + j) =~= p + y.take(j));
            let tail = split_think(rest, eof);
            lemma_think_after(tail, ThinkSeg::Thought(y.take(j)), ThinkSeg::Closed(i), mid);
            lemma_think_after(tail, ThinkSeg::Thought(p + y.take(j)), ThinkSeg::Closed(i), before);
            lemma_add_part_twice(before, Channel::Reasoning, p, y.take(j));
            assert(second == tail.after(ThinkSeg::Thought(y.take(j)), ThinkSeg::Closed(i)));
            assert(whole == tail.after(ThinkSeg::Thought(p + y.take(j)), ThinkSeg::Closed(i)));
        },
        None => {
            lemma_partial_up_to(y, t, (t.len() - 1) as nat);
            let k = if eof {
                0
            } else {
                partial_tag(y, t)
            };
            let z = y.take(y.len() - k);
            assert((p + y).take(p.len() + y.len() - k) =~= p + z);
            assert((p + y).skip(p.len() + y.len() - k) =~= y.skip(y.len() - k));
            if eof {
                assert(z =~= y);
            }
            lemma_think_one(ThinkSeg::Thought(z), mid);
            lemma_think_one(ThinkSeg::Thought(p + z), before);
            lemma_add_part_twice(before, Channel::Reasoning, p, z);
            assert(second.segs == seq![ThinkSeg::Thought(z)]);
            assert(whole.segs == seq![ThinkSeg::Thought(p + z)]);
        },
    }
}

proof fn lemma_answer_frames(st: ThinkState, b: Seq<char>, eof: bool, before: Seq<Part>)
    requires
        st.inside is None,
        first_open(st.buf) is None,
    ensures
        ({
            let first = split_think(st, false);
            let second = split_think(first.state.plus(b), eof);
            let whole = split_think(st.plus(b), eof);
            &&& merge(merge(before, first.segs), second.segs) == merge(before, whole.segs)
            &&& first.closed() + second.closed() == whole.closed()
            &&& !first.unclosed
            &&& second.unclosed == whole.unclosed
            &&& second.state == whole.state
        }),
{
    lemma_think_tags();
    lemma_first_open(st.buf);
    let t0 = think_open(0);
    let t1 = think_open(1);
    let x = st.buf;
    let first = split_think(st, false);
    let second = split_think(first.state.plus(b), eof);
    let whole = split_think(st.plus(b), eof);
    lemma_partial_up_to(x, t0, (t0.len() - 1) as nat);
    lemma_partial_up_to(x, t1, (t1.len() - 1) as nat);
    let keep = partial_open(x);
    let p = x.take(x.len() - keep);
    let y = x.skip(x.len() - keep) + b;
    assert(x + b =~= p + y);
    lemma_no_tag_before(x, b, t0, keep);
    lemma_no_tag_before(x, b, t1, keep);
    lemma_find_shift(p, y, t0);
    lemma_find_shift(p, y, t1);
    lemma_partial_shift(x, b, t0, keep);
    lemma_partial_shift(x, b, t1, keep);
    assert(first.segs == seq![ThinkSeg::Answer(p)]);
    lemma_think_one(ThinkSeg::Answer(p), before);
    let mid = add_part(before, Channel::Content, p);
    lemma_first_open(y);
    match first_open(y) {
        Some((i, at)) => {
            let t = think_open(i);
            assert(first_open(p + y) == Some((i, p.len() + at)));
            let rest = ThinkState { buf: y.skip(at + t.len()), inside: Some(i) };
            assert((p + y).skip(p.len() + at + t.len()) =~= rest.buf);
            assert((p + y).take(p.len() + at) =~= p + y.take(at));
            let tail = split_think(rest, eof);
            lemma_think_after(tail, ThinkSeg::Answer(y.take(at)), ThinkSeg::Opened(i), mid);
            lemma_think_after(tail, ThinkSeg::Answer(p + y.take(at)), ThinkSeg::Opened(i), before);
            lemma_add_part_twice(before, Channel::Content, p, y.take(at));
            assert(second == tail.after(ThinkSeg::Answer(y.take(at)), ThinkSeg::Opened(i)));
            assert(whole == tail.after(ThinkSeg::Answer(p + y.take(at)), ThinkSeg::Opened(i)));
        },
        None => {
            assert(first_open(p + y) is None);
            lemma_partial_up_to(y, t0, (t0.len() - 1) as nat);
            lemma_partial_up_to(y, t1, (t1.len() - 1) as nat);
            let k = if eof {
                0
            } else {
                partial_open(y)
            };
            let z = y.take(y.len() - k);
            assert((p + y).take(p.len() + y.len() - k) =~= p + z);
            assert((p + y).skip(p.len() + y.len() - k) =~= y.skip(y.len() - k));
            lemma_think_one(ThinkSeg::Answer(z), mid);
            lemma_think_one(ThinkSeg::Answer(p + z), before);
            lemma_add_part_twice(before, Channel::Content, p, z);
            assert(second.segs == seq![ThinkSeg::Answer(z)]);
            assert(whole.segs == seq![ThinkSeg::Answer(p + z)]);
        },
    }
}

} // verus!
