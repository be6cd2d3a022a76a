//! The gateway's stream of server-sent events, and the events in it.

use vstd::prelude::*;
use vstd::string::*;

use crate::bytes::{bytes_of, lossy, utf8_lossy};
use crate::json::{json_parse, json_view, json_views, lemma_json_views, Json, JsonView};
use crate::openai::{copy_text, opt_text};
use crate::text::{after_prefix, is_blank, same, starts_with, trim, trimmed};

use super::chunk::{nonempty, told, ChunkView, FabrixChunk};
use super::tools::{bump, wrap_add};

verus! {

/// What a piece of the gateway's answer does to a turn.
#[derive(Debug, Clone, PartialEq)]
pub enum StreamEvent {
    Delta(String),
    Reasoning(String),
    /// The answer starts over.
    Reset,
    Finish(String),
    Error(String),
    Done,
}

pub enum EventView {
    Delta(Seq<char>),
    Reasoning(Seq<char>),
    Reset,
    Finish(Seq<char>),
    Error(Seq<char>),
    Done,
}

impl View for StreamEvent {
    type V = EventView;

    open spec fn view(&self) -> EventView {
        match *self {
            StreamEvent::Delta(s) => EventView::Delta(s@),
            StreamEvent::Reasoning(s) => EventView::Reasoning(s@),
            StreamEvent::Reset => EventView::Reset,
            StreamEvent::Finish(s) => EventView::Finish(s@),
            StreamEvent::Error(s) => EventView::Error(s@),
            StreamEvent::Done => EventView::Done,
        }
    }
}

pub open spec fn event_views(list: Seq<StreamEvent>) -> Seq<EventView> {
    list.map_values(|e: StreamEvent| e@)
}

proof fn lemma_event_push(list: Seq<StreamEvent>, e: StreamEvent)
    ensures
        event_views(list.push(e)) == event_views(list).push(e@),
{
    assert(event_views(list.push(e)) =~= event_views(list).push(e@));
}

/// The event for a text that is there and not empty.
pub open spec fn reasoning_event(s: Option<Seq<char>>) -> Seq<EventView> {
    match nonempty(s) {
        Some(t) => seq![EventView::Reasoning(t)],
        None => seq![],
    }
}

pub open spec fn delta_event(s: Option<Seq<char>>) -> Seq<EventView> {
    match nonempty(s) {
        Some(t) => seq![EventView::Delta(t)],
        None => seq![],
    }
}

pub open spec fn finish_event(s: Option<Seq<char>>) -> Seq<EventView> {
    match nonempty(s) {
        Some(t) => seq![EventView::Finish(t)],
        None => seq![],
    }
}

// ───────────────────────── a whole response ─────────────────────────

/// A whole response as the events of a stream: reasoning, answer, end.
pub open spec fn whole_events(c: ChunkView) -> Seq<EventView> {
    reasoning_event(c.reasoning_content) + delta_event(c.answer()) + (if told(c.finish_reason) {
        seq![EventView::Finish(c.finish_reason->0)]
    } else {
        seq![]
    })
}

pub fn nonstream_events(chunk: &FabrixChunk) -> (r: Vec<StreamEvent>)
    ensures
        event_views(r@) == whole_events(chunk@),
{
    let mut out: Vec<StreamEvent> = Vec::new();
    match &chunk.reasoning_content {
        Some(s) => {
            if !s.as_str().is_empty() {
                out.push(StreamEvent::Reasoning(s.clone()));
            }
        },
        None => {},
    }
    assert(event_views(out@) =~= reasoning_event(chunk@.reasoning_content));
    let ghost first = event_views(out@);
    match chunk.answer_text() {
        Some(s) => {
            if !s.as_str().is_empty() {
                out.push(StreamEvent::Delta(s));
            }
        },
        None => {},
    }
    assert(event_views(out@) =~= first + delta_event(chunk@.answer()));
    match &chunk.finish_reason {
        Some(s) => {
            if !is_blank(s.as_str()) {
                out.push(StreamEvent::Finish(s.clone()));
            }
        },
        None => {},
    }
    assert(event_views(out@) =~= whole_events(chunk@));
    out
}

// ───────────────────────── a stream ─────────────────────────

pub struct DecoderView {
    /// Bytes of a line that is not complete.
    pub buf: Seq<u8>,
    /// The answer so far.
    pub text: Seq<char>,
    pub finish_reason: Option<Seq<char>>,
    pub model_type: Option<Seq<char>>,
    pub done: bool,
    pub truncated: bool,
    pub upstream_tokens: Option<(u32, u32)>,
    /// How many frames were JSON but no chunk.
    pub undecodable: u32,
}

pub struct Decoded {
    pub state: DecoderView,
    pub events: Seq<EventView>,
}

impl DecoderView {
    pub open spec fn fresh() -> DecoderView {
        DecoderView {
            buf: seq![],
            text: seq![],
            finish_reason: None,
            model_type: None,
            done: false,
            truncated: false,
            upstream_tokens: None,
            undecodable: 0,
        }
    }

    pub open spec fn plus(self, bytes: Seq<u8>) -> DecoderView {
        DecoderView { buf: self.buf + bytes, ..self }
    }

    pub open spec fn holding(self, bytes: Seq<u8>) -> DecoderView {
        DecoderView { buf: bytes, ..self }
    }

    /// A chunk that is no error adds to what is known.
    pub open spec fn learn(self, c: ChunkView) -> DecoderView {
        DecoderView {
            text: self.text + (match c.content {
                Some(t) => t,
                None => seq![],
            }),
            finish_reason: if nonempty(c.finish_reason) is Some {
                c.finish_reason
            } else {
                self.finish_reason
            },
            model_type: if self.model_type is Some {
                self.model_type
            } else {
                c.model_type
            },
            truncated: self.truncated || c.truncated == Some(true),
            upstream_tokens: if c.tokens() is Some {
                c.tokens()
            } else {
                self.upstream_tokens
            },
            ..self
        }
    }

    pub open spec fn on_value(self, v: JsonView) -> Decoded {
        match ChunkView::read(v) {
            None => Decoded {
                state: DecoderView { undecodable: wrap_add(self.undecodable, 1), ..self },
                events: seq![],
            },
            Some(c) => if c.is_error() {
                Decoded { state: self, events: seq![EventView::Error(c.error_says())] }
            } else {
                Decoded {
                    state: self.learn(c),
                    events: reasoning_event(c.reasoning_content) + delta_event(c.content)
                        + finish_event(c.finish_reason),
                }
            },
        }
    }

    pub open spec fn on_values(self, items: Seq<JsonView>) -> Decoded
        decreases items.len(),
    {
        if items.len() == 0 {
            Decoded { state: self, events: seq![] }
        } else {
            let front = self.on_values(items.drop_last());
            let last = front.state.on_value(items.last());
            Decoded { state: last.state, events: front.events + last.events }
        }
    }

    /// A frame's tree: an array holds several chunks.
    pub open spec fn on_tree(self, tree: JsonView) -> Decoded {
        match tree {
            JsonView::Array(items) => self.on_values(items),
            v => self.on_value(v),
        }
    }

    /// One line. What is no `data:` line is passed over, and so is what is no JSON.
    pub open spec fn on_line(self, raw: Seq<char>) -> Decoded {
        let nothing = Decoded { state: self, events: seq![] };
        let line = trim(raw);
        if !starts_with(line, "data:"@) {
            nothing
        } else {
            let payload = trim(line.skip("data:"@.len() as int));
            if payload.len() == 0 {
                nothing
            } else if payload == "[DONE]"@ {
                Decoded {
                    state: DecoderView { done: true, ..self },
                    events: seq![EventView::Done],
                }
            } else {
                match json_parse(payload) {
                    Ok(tree) => self.on_tree(tree),
                    Err(_) => nothing,
                }
            }
        }
    }

    /// All complete lines.
    pub open spec fn decode(self) -> Decoded
        decreases self.buf.len(),
    {
        proof {
            lemma_newline(self.buf);
        }
        match newline(self.buf) {
            Some(p) => {
                let one = self.on_line(utf8_lossy(self.buf.take(p)));
                let rest = one.state.holding(self.buf.skip(p + 1)).decode();
                Decoded { state: rest.state, events: one.events + rest.events }
            },
            None => Decoded { state: self, events: seq![] },
        }
    }

    /// The last line, though it is not complete.
    pub open spec fn decode_end(self) -> Decoded {
        if self.buf.len() == 0 {
            Decoded { state: self, events: seq![] }
        } else {
            self.holding(seq![]).on_line(utf8_lossy(self.buf))
        }
    }
}

/// The place of the first line feed.
pub open spec fn newline(buf: Seq<u8>) -> Option<int>
    decreases buf.len(),
{
    if buf.len() == 0 {
        None
    } else if buf[0] == 10 {
        Some(0)
    } else {
        match newline(buf.drop_first()) {
            Some(p) => Some(p + 1),
            None => None,
        }
    }
}

pub proof fn lemma_newline(buf: Seq<u8>)
    ensures
        match newline(buf) {
            Some(p) => 0 <= p < buf.len() && buf[p] == 10 && forall|i: int|
                0 <= i < p ==> #[trigger] buf[i] != 10,
            None => forall|i: int| 0 <= i < buf.len() ==> #[trigger] buf[i] != 10,
        },
    decreases buf.len(),
{
    if buf.len() > 0 && buf[0] != 10 {
        let rest = buf.drop_first();
        lemma_newline(rest);
        assert forall|i: int| 0 < i < buf.len() implies #[trigger] buf[i] == rest[i - 1] by {}
    }
}

proof fn lemma_newline_is(buf: Seq<u8>, p: int)
    requires
        0 <= p < buf.len(),
        buf[p] == 10,
        forall|i: int| 0 <= i < p ==> #[trigger] buf[i] != 10,
    ensures
        newline(buf) == Some(p),
{
    lemma_newline(buf);
}

/// Turns the bytes of a stream into events. It cuts them at line feeds only, so a
/// character that is cut in half by a chunk comes out whole.
#[derive(Debug)]
pub struct StreamDecoder {
    buf: Vec<u8>,
    acc: String,
    pub finish_reason: Option<String>,
    pub model_type: Option<String>,
    pub done: bool,
    /// The gateway says that it cut the answer off.
    pub truncated: bool,
    pub upstream_tokens: Option<(u32, u32)>,
    pub undecodable: u32,
}

impl View for StreamDecoder {
    type V = DecoderView;

    closed spec fn view(&self) -> DecoderView {
        DecoderView {
            buf: self.buf@,
            text: self.acc@,
            finish_reason: opt_text(self.finish_reason),
            model_type: opt_text(self.model_type),
            done: self.done,
            truncated: self.truncated,
            upstream_tokens: self.upstream_tokens,
            undecodable: self.undecodable,
        }
    }
}

impl StreamDecoder {
    pub fn new() -> (r: Self)
        ensures
            r@ == DecoderView::fresh(),
    {
        let r = StreamDecoder {
            buf: Vec::new(),
            acc: String::new(),
            finish_reason: None,
            model_type: None,
            done: false,
            truncated: false,
            upstream_tokens: None,
            undecodable: 0,
        };
        assert(r.buf@ =~= seq![]);
        assert(r.acc@ =~= seq![]);
        r
    }

    /// The answer so far.
    pub fn text(&self) -> (r: &str)
        ensures
            r@ == self@.text,
    {
        self.acc.as_str()
    }

    pub fn is_done(&self) -> (r: bool)
        ensures
            r == self@.done,
    {
        self.done
    }

    pub fn is_truncated(&self) -> (r: bool)
        ensures
            r == self@.truncated,
    {
        self.truncated
    }

    /// The model, as the gateway named it first.
    pub fn model_type(&self) -> (r: Option<&str>)
        ensures
            match r {
                Some(s) => self@.model_type == Some(s@),
                None => self@.model_type is None,
            },
    {
        match &self.model_type {
            Some(s) => Some(s.as_str()),
            None => None,
        }
    }

    /// The gateway's last word on why the answer ends.
    pub fn finish_reason(&self) -> (r: Option<&str>)
        ensures
            match r {
                Some(s) => self@.finish_reason == Some(s@),
                None => self@.finish_reason is None,
            },
    {
        match &self.finish_reason {
            Some(s) => Some(s.as_str()),
            None => None,
        }
    }

    pub fn saw_finish(&self) -> (r: bool)
        ensures
            r == (self@.finish_reason is Some),
    {
        self.finish_reason.is_some()
    }

    pub fn tokens(&self) -> (r: Option<(u32, u32)>)
        ensures
            r == self@.upstream_tokens,
    {
        self.upstream_tokens
    }

    pub fn undecodable_count(&self) -> (r: u32)
        ensures
            r == self@.undecodable,
    {
        self.undecodable
    }

    /// Takes in bytes and gives the events of the lines that are complete.
    pub fn push(&mut self, chunk: &[u8]) -> (r: Vec<StreamEvent>)
        ensures
            ({
                let d = old(self)@.plus(chunk@).decode();
                final(self)@ == d.state && event_views(r@) == d.events
            }),
    {
        let ghost start = self@.plus(chunk@);
        let ghost goal = start.decode();
        let mut more = bytes_of(chunk, 0, chunk.len());
        let mut all: Vec<u8> = Vec::new();
        core::mem::swap(&mut self.buf, &mut all);
        all.append(&mut more);
        assert(all@ =~= start.buf);
        let n: usize = all.len();
        let mut from: usize = 0;
        let mut events: Vec<StreamEvent> = Vec::new();
        proof {
            assert(all@.skip(0) =~= start.buf);
            assert(self@.holding(all@.skip(0)) == start);
            assert(event_views(events@) + goal.events =~= goal.events);
        }
        loop
            invariant
                from <= n == all@.len(),
                start == old(self)@.plus(chunk@),
                goal == start.decode(),
                self@.holding(all@.skip(from as int)).decode().state == goal.state,
                event_views(events@) + self@.holding(all@.skip(from as int)).decode().events
                    == goal.events,
            decreases n - from,
        {
            let ghost cur = self@.holding(all@.skip(from as int));
            let mut p: usize = from;
            while p < n && all[p] != 10
                invariant
                    from <= p <= n == all@.len(),
                    forall|i: int| from <= i < p ==> #[trigger] all@[i] != 10,
                decreases n - p,
            {
                p += 1;
            }
            if p == n {
                proof {
                    lemma_newline(cur.buf);
                    match newline(cur.buf) {
                        Some(q) => {
                            assert(cur.buf[q] == all@[from + q]);
                        },
                        None => {},
                    }
                    assert(event_views(events@) =~= goal.events);
                }
                let rest = bytes_of(all.as_slice(), from, n);
                self.buf = rest;
                assert(self.buf@ =~= cur.buf);
                return events;
            }
            let line_bytes = bytes_of(all.as_slice(), from, p);
            let line = lossy(line_bytes.as_slice());
            proof {
                assert forall|i: int| 0 <= i < p - from implies #[trigger] cur.buf[i] != 10 by {
                    assert(cur.buf[i] == all@[from + i]);
                }
                lemma_newline_is(cur.buf, p - from);
                assert(line_bytes@ =~= cur.buf.take(p - from));
                assert(all@.skip(p + 1) =~= cur.buf.skip(p - from + 1));
            }
            let ghost before = self@;
            let ghost so_far = event_views(events@);
            self.handle_line(line.as_str(), &mut events);
            proof {
                lemma_line_ignores_buf(before, cur.buf, line@);
                assert(event_views(events@) + self@.holding(all@.skip(p + 1)).decode().events =~= so_far
                    + cur.decode().events);
            }
            from = p + 1;
        }
    }

    /// Takes in the end of the stream.
    pub fn finish(&mut self) -> (r: Vec<StreamEvent>)
        ensures
            final(self)@ == old(self)@.decode_end().state,
            event_views(r@) == old(self)@.decode_end().events,
    {
        let mut events: Vec<StreamEvent> = Vec::new();
        assert(event_views(events@) =~= seq![]);
        if self.buf.len() > 0 {
            let line = lossy(self.buf.as_slice());
            self.buf = Vec::new();
            assert(self.buf@ =~= seq![]);
            self.handle_line(line.as_str(), &mut events);
            proof {
                let d = old(self)@.decode_end();
                assert(Seq::<EventView>::empty() + d.events =~= d.events);
            }
        }
        events
    }

    fn handle_line(&mut self, raw: &str, out: &mut Vec<StreamEvent>)
        ensures
            final(self)@ == old(self)@.on_line(raw@).state,
            event_views(final(out)@) == event_views(old(out)@) + old(self)@.on_line(raw@).events,
    {
        let ghost before = event_views(out@);
        assert(before + Seq::<EventView>::empty() =~= before);
        let line = trimmed(raw);
        let payload = match after_prefix(line, "data:") {
            Some(rest) => trimmed(rest),
            None => {
                return;
            },
        };
        if payload.is_empty() {
            return;
        }
        if same(payload, "[DONE]") {
            self.done = true;
            let ghost list = out@;
            out.push(StreamEvent::Done);
            proof {
                lemma_event_push(list, StreamEvent::Done);
                assert(event_views(out@) =~= before + seq![EventView::Done]);
            }
            return;
        }
        match Json::parse(payload) {
            Ok(tree) => self.handle_tree(&tree, out),
            Err(_) => {},
        }
    }

    /// Takes in the tree of a frame.
    pub fn handle_tree(&mut self, tree: &Json, out: &mut Vec<StreamEvent>)
        ensures
            final(self)@ == old(self)@.on_tree(tree@).state,
            event_views(final(out)@) == event_views(old(out)@) + old(self)@.on_tree(tree@).events,
    {
        match tree {
            Json::Array(items) => {
                let ghost start = self@;
                let ghost before = event_views(out@);
                let ghost all = json_views(items@);
                let mut i: usize = 0;
                proof {
                    lemma_json_views(items@);
                    assert(all.take(0) =~= seq![]);
                    assert(before + start.on_values(all.take(0)).events =~= before);
                }
                while i < items.len()
                    invariant
                        i <= items@.len() == all.len(),
                        forall|k: int| 0 <= k < all.len() ==> #[trigger] all[k] == json_view(items@[k]),
                        self@ == start.on_values(all.take(i as int)).state,
                        event_views(out@) == before + start.on_values(all.take(i as int)).events,
                    decreases items@.len() - i,
                {
                    let ghost mid = self@;
                    self.handle_value(&items[i], out);
                    proof {
                        assert(all.take(i + 1).drop_last() =~= all.take(i as int));
                        assert(all.take(i + 1).last() == all[i as int]);
                        assert(event_views(out@) =~= before + start.on_values(all.take(i + 1)).events);
                    }
                    i += 1;
                }
                assert(all.take(all.len() as int) =~= all);
            },
            _ => self.handle_value(tree, out),
        }
    }

    fn handle_value(&mut self, value: &Json, out: &mut Vec<StreamEvent>)
        ensures
            final(self)@ == old(self)@.on_value(value@).state,
            event_views(final(out)@) == event_views(old(out)@) + old(self)@.on_value(value@).events,
    {
        let ghost before = event_views(out@);
        let ghost start = self@;
        let ghost d = start.on_value(value@);
        let chunk = match FabrixChunk::from_json(value) {
            Some(c) => c,
            None => {
                self.undecodable = bump(self.undecodable);
                assert(before + Seq::<EventView>::empty() =~= before);
                return;
            },
        };
        if chunk.looks_like_error() {
            out.push(StreamEvent::Error(chunk.error_text()));
            assert(event_views(out@) =~= before + d.events);
            return;
        }
        if self.model_type.is_none() {
            self.model_type = copy_text(&chunk.model_type);
        }
        match chunk.truncated {
            Some(b) => {
                if b {
                    self.truncated = true;
                }
            },
            None => {},
        }
        match chunk.upstream_tokens() {
            Some(tokens) => {
                self.upstream_tokens = Some(tokens);
            },
            None => {},
        }
        match &chunk.reasoning_content {
            Some(s) => {
                if !s.as_str().is_empty() {
                    out.push(StreamEvent::Reasoning(s.clone()));
                }
            },
            None => {},
        }
        assert(event_views(out@) =~= before + reasoning_event(chunk@.reasoning_content));
        let ghost mid = event_views(out@);
        match &chunk.content {
            Some(s) => {
                if !s.as_str().is_empty() {
                    self.acc.append(s.as_str());
                    out.push(StreamEvent::Delta(s.clone()));
                } else {
                    assert(start.text + s@ =~= start.text);
                }
            },
            None => {
                assert(start.text + Seq::<char>::empty() =~= start.text);
            },
        }
        assert(event_views(out@) =~= mid + delta_event(chunk@.content));
        let ghost late = event_views(out@);
        match &chunk.finish_reason {
            Some(s) => {
                if !s.as_str().is_empty() {
                    self.finish_reason = Some(s.clone());
                    out.push(StreamEvent::Finish(s.clone()));
                }
            },
            None => {},
        }
        proof {
            assert(event_views(out@) =~= late + finish_event(chunk@.finish_reason));
            assert(event_views(out@) =~= before + d.events);
        }
    }
}

// ───────────────────────── laws ─────────────────────────

/// A line's effect does not depend on the bytes that are held back.
proof fn lemma_value_ignores_buf(st: DecoderView, bytes: Seq<u8>, v: JsonView)
    ensures
        st.holding(bytes).on_value(v).state == st.on_value(v).state.holding(bytes),
        st.holding(bytes).on_value(v).events == st.on_value(v).events,
{
}

proof fn lemma_values_ignore_buf(st: DecoderView, bytes: Seq<u8>, items: Seq<JsonView>)
    ensures
        st.holding(bytes).on_values(items).state == st.on_values(items).state.holding(bytes),
        st.holding(bytes).on_values(items).events == st.on_values(items).events,
    decreases items.len(),
{
    if items.len() > 0 {
        lemma_values_ignore_buf(st, bytes, items.drop_last());
        lemma_value_ignores_buf(st.on_values(items.drop_last()).state, bytes, items.last());
    }
}

proof fn lemma_line_ignores_buf(st: DecoderView, bytes: Seq<u8>, line: Seq<char>)
    ensures
        st.holding(bytes).on_line(line).state == st.on_line(line).state.holding(bytes),
        st.holding(bytes).on_line(line).events == st.on_line(line).events,
{
    let t = trim(line);
    let payload = trim(t.skip("data:"@.len() as int));
    match json_parse(payload) {
        Ok(JsonView::Array(items)) => {
            lemma_values_ignore_buf(st, bytes, items);
        },
        Ok(v) => {
            lemma_value_ignores_buf(st, bytes, v);
        },
        Err(_) => {},
    }
}

/// Where the bytes are cut into chunks makes no difference: decoding what is there
/// and then decoding on with `b` gives the same events and the same state as decoding
/// all of it at once.
#[verifier::rlimit(50)]
pub proof fn law_decode_chunks_do_not_matter(st: DecoderView, b: Seq<u8>)
    ensures
        ({
            let first = st.decode();
            let second = first.state.plus(b).decode();
            let whole = st.plus(b).decode();
            first.events + second.events == whole.events && second.state == whole.state
        }),
    decreases st.buf.len(),
{
    let x = st.buf;
    let first = st.decode();
    let second = first.state.plus(b).decode();
    let whole = st.plus(b).decode();
    lemma_newline(x);
    match newline(x) {
        Some(p) => {
            assert forall|i: int| 0 <= i < p implies #[trigger] (x + b)[i] != 10 by {
                assert((x + b)[i] == x[i]);
            }
            lemma_newline_is(x + b, p);
            assert((x + b).take(p) =~= x.take(p));
            assert((x + b).skip(p + 1) =~= x.skip(p + 1) + b);
            let line = utf8_lossy(x.take(p));
            let one = st.on_line(line);
            lemma_line_ignores_buf(st, x + b, line);
            let rest = one.state.holding(x.skip(p + 1));
            law_decode_chunks_do_not_matter(rest, b);
            assert(st.plus(b) == st.holding(x + b));
            assert(st.plus(b).on_line(line).state.holding(x.skip(p + 1) + b) == rest.plus(b));
            assert(first.events + second.events =~= one.events + (rest.decode().events
                + second.events));
        },
        None => {
            assert(first.events + second.events =~= second.events);
        },
    }
}

/// The text of the deltas among events.
pub open spec fn delta_text(events: Seq<EventView>) -> Seq<char>
    decreases events.len(),
{
    if events.len() == 0 {
        seq![]
    } else {
        let front = delta_text(events.drop_last());
        match events.last() {
            EventView::Delta(text) => front + text,
            _ => front,
        }
    }
}

proof fn lemma_delta_text_concat(a: Seq<EventView>, b: Seq<EventView>)
    ensures
        delta_text(a + b) == delta_text(a) + delta_text(b),
    decreases b.len(),
{
    if b.len() == 0 {
        assert(a + b =~= a);
        assert(delta_text(a) + Seq::<char>::empty() =~= delta_text(a));
    } else {
        lemma_delta_text_concat(a, b.drop_last());
        assert((a + b).drop_last() =~= a + b.drop_last());
        assert(delta_text(a + b) =~= delta_text(a) + delta_text(b));
    }
}

proof fn lemma_one_event(e: EventView)
    ensures
        delta_text(seq![e]) == (match e {
            EventView::Delta(text) => text,
            _ => seq![],
        }),
{
    assert(seq![e].drop_last() =~= seq![]);
    assert(delta_text(seq![e].drop_last()) == Seq::<char>::empty());
    match e {
        EventView::Delta(text) => {
            assert(Seq::<char>::empty() + text =~= text);
        },
        _ => {},
    }
}

/// The decoder's text grew by the deltas.
pub open spec fn text_grew(before: DecoderView, after: Decoded) -> bool {
    after.state.text == before.text + delta_text(after.events)
}

proof fn lemma_text_grows_twice(st: DecoderView, one: Decoded, two: Decoded)
    requires
        text_grew(st, one),
        text_grew(one.state, two),
    ensures
        text_grew(st, Decoded { state: two.state, events: one.events + two.events }),
{
    lemma_delta_text_concat(one.events, two.events);
    assert(st.text + delta_text(one.events) + delta_text(two.events) =~= st.text + (delta_text(
        one.events,
    ) + delta_text(two.events)));
}

proof fn lemma_nothing_decoded(st: DecoderView)
    ensures
        text_grew(st, Decoded { state: st, events: seq![] }),
{
    assert(st.text + Seq::<char>::empty() =~= st.text);
}

proof fn lemma_value_text(st: DecoderView, v: JsonView)
    ensures
        text_grew(st, st.on_value(v)),
{
    assert(st.text + Seq::<char>::empty() =~= st.text);
    match ChunkView::read(v) {
        None => {},
        Some(c) => if c.is_error() {
            lemma_one_event(EventView::Error(c.error_says()));
        } else {
            let a = reasoning_event(c.reasoning_content);
            let b = delta_event(c.content);
            let d = finish_event(c.finish_reason);
            lemma_delta_text_concat(a + b, d);
            lemma_delta_text_concat(a, b);
            if a.len() > 0 {
                lemma_one_event(a[0]);
            }
            if b.len() > 0 {
                lemma_one_event(b[0]);
            }
            if d.len() > 0 {
                lemma_one_event(d[0]);
            }
            let text = match c.content {
                Some(t) => t,
                None => seq![],
            };
            assert(delta_text(a + b + d) =~= text);
        },
    }
}

proof fn lemma_values_text(st: DecoderView, items: Seq<JsonView>)
    ensures
        text_grew(st, st.on_values(items)),
    decreases items.len(),
{
    if items.len() == 0 {
        lemma_nothing_decoded(st);
    } else {
        let front = st.on_values(items.drop_last());
        lemma_values_text(st, items.drop_last());
        lemma_value_text(front.state, items.last());
        lemma_text_grows_twice(st, front, front.state.on_value(items.last()));
    }
}

proof fn lemma_line_text(st: DecoderView, raw: Seq<char>)
    ensures
        text_grew(st, st.on_line(raw)),
{
    lemma_nothing_decoded(st);
    let line = trim(raw);
    let payload = trim(line.skip("data:"@.len() as int));
    if payload == "[DONE]"@ {
        lemma_one_event(EventView::Done);
        assert(st.text + Seq::<char>::empty() =~= st.text);
    }
    match json_parse(payload) {
        Ok(JsonView::Array(items)) => lemma_values_text(st, items),
        Ok(v) => lemma_value_text(st, v),
        Err(_) => {},
    }
}

/// A decoder's text is the sum of the deltas that it gave.
pub proof fn law_text_is_the_deltas(st: DecoderView)
    ensures
        text_grew(st, st.decode()),
        text_grew(st, st.decode_end()),
    decreases st.buf.len(),
{
    lemma_newline(st.buf);
    lemma_nothing_decoded(st);
    if st.buf.len() > 0 {
        lemma_line_text(st.holding(seq![]), utf8_lossy(st.buf));
    }
    match newline(st.buf) {
        Some(p) => {
            let line = utf8_lossy(st.buf.take(p));
            lemma_line_text(st, line);
            let one = st.on_line(line);
            let rest = one.state.holding(st.buf.skip(p + 1));
            law_text_is_the_deltas(rest);
            lemma_text_grows_twice(st, one, rest.decode());
        },
        None => {},
    }
}

/// The end of a stream does to an incomplete line what a line feed does. Where no line
/// is incomplete, it does nothing.
pub proof fn law_end_is_a_line_feed(st: DecoderView)
    requires
        newline(st.buf) is None,
    ensures
        if st.buf.len() > 0 {
            st.decode_end() == st.plus(seq![10u8]).decode()
        } else {
            st.decode_end() == (Decoded { state: st, events: seq![] })
        },
{
    if st.buf.len() > 0 {
        let n = st.buf.len() as int;
        let fed = st.plus(seq![10u8]);
        lemma_newline(st.buf);
        assert forall|i: int| 0 <= i < n implies #[trigger] fed.buf[i] != 10 by {
            assert(fed.buf[i] == st.buf[i]);
        }
        lemma_newline_is(fed.buf, n);
        assert(fed.buf.take(n) =~= st.buf);
        assert(fed.buf.skip(n + 1) =~= seq![]);
        let line = utf8_lossy(st.buf);
        let none: Seq<u8> = seq![];
        lemma_line_ignores_buf(st, fed.buf, line);
        lemma_line_ignores_buf(st, none, line);
        assert(fed == st.holding(fed.buf));
        let one = fed.on_line(line);
        let rest = one.state.holding(none);
        assert(newline(none) is None);
        assert(rest.decode() == (Decoded { state: rest, events: seq![] }));
        assert(one.events + Seq::<EventView>::empty() =~= one.events);
        assert(rest == st.on_line(line).state.holding(none));
    }
}

} // verus!
