//! The assembly of one turn of the model. A stream and a whole response go through
//! the same state machine:
//!
//! ```text
//! event ── Delta ──> think splitter ──> scanner of the channel ──> pieces
//!       └─ Reasoning ─────────────────> scanner of the channel ──> pieces
//! ```
//!
//! The splitter goes first, so that a call inside `<think>` is found, too.

use vstd::prelude::*;
use vstd::string::*;

use crate::openai::opt_text;
use crate::text::{blank, is_blank, views};

use super::decode::{EventView, StreamEvent};
use super::fabrix::{decide_finish, final_reason};
use super::scan::{all_named, lemma_named_concat, Call, Step};
use super::think::{add_part, split_think, Part, ThinkState};
use super::tools::{
    bump, call_id, lemma_step_named, lemma_wrap_add, numbered, part_views, well_written, wrap_add,
    Channel, ScanOut, ScannedCall, ScannerView, Split, ThinkSplitter, ThinkView, ToolCallScanner,
};

verus! {

/// The reason that stands for a stream which broke off.
pub const MIDSTREAM_REASON: &'static str = "error";

/// A piece for the client.
#[derive(Debug, Clone, PartialEq)]
pub enum Piece {
    Content(String),
    Reasoning(String),
    Call(ScannedCall),
}

pub enum PieceView {
    Content(Seq<char>),
    Reasoning(Seq<char>),
    /// A call: its index, the tool's name and the arguments.
    Call(u32, Seq<char>, Seq<char>),
}

impl View for Piece {
    type V = PieceView;

    open spec fn view(&self) -> PieceView {
        match *self {
            Piece::Content(s) => PieceView::Content(s@),
            Piece::Reasoning(s) => PieceView::Reasoning(s@),
            Piece::Call(c) => PieceView::Call(c.index, c.name@, c.arguments@),
        }
    }
}

pub open spec fn piece_views(list: Seq<Piece>) -> Seq<PieceView> {
    list.map_values(|p: Piece| p@)
}

/// The calls among the pieces, ids and all.
pub open spec fn calls_of(list: Seq<Piece>) -> Seq<ScannedCall>
    decreases list.len(),
{
    if list.len() == 0 {
        seq![]
    } else {
        match list.last() {
            Piece::Call(c) => calls_of(list.drop_last()).push(c),
            _ => calls_of(list.drop_last()),
        }
    }
}

/// Every call among the pieces has an id.
pub open spec fn calls_have_ids(list: Seq<Piece>) -> bool {
    forall|k: int| 0 <= k < list.len() ==> match #[trigger] list[k] {
        Piece::Call(c) => call_id(c.id@),
        _ => true,
    }
}

/// Pieces in the order in which the client sees them.
#[derive(Debug, Clone, PartialEq)]
pub struct Emit(pub Vec<Piece>);

impl Emit {
    pub fn is_empty(&self) -> (r: bool)
        ensures
            r == (self.0@.len() == 0),
    {
        self.0.len() == 0
    }
}

/// Figures for the log.
#[derive(Debug, Clone, Copy, PartialEq, Eq, Structural)]
pub struct ToolStats {
    pub calls: u32,
    /// How many blocks were no tool calls and went back as text.
    pub rejected: u32,
    /// How many of the calls came out of the reasoning.
    pub in_reasoning: u32,
    pub think_blocks: u32,
    pub think_unclosed: bool,
}

impl Default for ToolStats {
    fn default() -> (r: ToolStats)
        ensures
            r == (ToolStats {
                calls: 0,
                rejected: 0,
                in_reasoning: 0,
                think_blocks: 0,
                think_unclosed: false,
            }),
    {
        ToolStats {
            calls: 0,
            rejected: 0,
            in_reasoning: 0,
            think_blocks: 0,
            think_unclosed: false,
        }
    }
}

// ───────────────────────── the model ─────────────────────────

pub struct TurnModel {
    pub scanner: ScannerView,
    /// Absent where `<think>` is not split out.
    pub think: Option<ThinkView>,
    /// The answer, without calls.
    pub content: Seq<char>,
    /// The reasoning, without calls.
    pub reasoning: Seq<char>,
    pub calls: Seq<Call>,
    /// The answer as it came.
    pub raw_content: Seq<char>,
    /// The reasoning as it came.
    pub raw_reasoning: Seq<char>,
    pub upstream_finish: Option<Seq<char>>,
    pub truncated: bool,
    pub failure: Option<Seq<char>>,
    pub done: bool,
    pub calls_in_reasoning: u32,
}

pub struct Turned {
    pub state: TurnModel,
    pub pieces: Seq<PieceView>,
}

/// Text on a channel, if there is any.
pub open spec fn text_piece(ch: Channel, text: Seq<char>) -> Seq<PieceView> {
    if text.len() == 0 {
        seq![]
    } else {
        match ch {
            Channel::Content => seq![PieceView::Content(text)],
            Channel::Reasoning => seq![PieceView::Reasoning(text)],
        }
    }
}

/// Calls, numbered onward from `first`.
pub open spec fn call_pieces(calls: Seq<Call>, first: u32) -> Seq<PieceView> {
    Seq::new(
        calls.len(),
        |k: int| PieceView::Call(wrap_add(first, k as nat), calls[k].0, calls[k].1),
    )
}

impl TurnModel {
    pub open spec fn fresh(names: Seq<Seq<char>>, split: bool) -> TurnModel {
        TurnModel {
            scanner: ScannerView::fresh(names, true),
            think: if split {
                Some(ThinkView { state: ThinkState::fresh(), blocks: 0, unclosed: false })
            } else {
                None
            },
            content: seq![],
            reasoning: seq![],
            calls: seq![],
            raw_content: seq![],
            raw_reasoning: seq![],
            upstream_finish: None,
            truncated: false,
            failure: None,
            done: false,
            calls_in_reasoning: 0,
        }
    }

    /// Takes in what the scanner settled on a channel.
    pub open spec fn route(self, ch: Channel, step: Step) -> Turned {
        Turned {
            state: TurnModel {
                scanner: self.scanner.after(ch, step),
                content: if ch == Channel::Content {
                    self.content + step.text()
                } else {
                    self.content
                },
                reasoning: if ch == Channel::Reasoning {
                    self.reasoning + step.text()
                } else {
                    self.reasoning
                },
                calls: self.calls + step.calls(),
                calls_in_reasoning: if ch == Channel::Reasoning {
                    wrap_add(self.calls_in_reasoning, step.calls().len())
                } else {
                    self.calls_in_reasoning
                },
                ..self
            },
            pieces: text_piece(ch, step.text()) + call_pieces(
                step.calls(),
                self.scanner.next_index,
            ),
        }
    }

    /// Takes in text on a channel.
    pub open spec fn take(self, ch: Channel, text: Seq<char>) -> Turned {
        self.route(ch, self.scanner.step(ch, text, false))
    }

    /// Takes in parts, one after the other.
    pub open spec fn take_parts(self, parts: Seq<Part>) -> Turned
        decreases parts.len(),
    {
        if parts.len() == 0 {
            Turned { state: self, pieces: seq![] }
        } else {
            let front = self.take_parts(parts.drop_last());
            let last = front.state.take(parts.last().0, parts.last().1);
            Turned { state: last.state, pieces: front.pieces + last.pieces }
        }
    }

    /// The end of a channel.
    pub open spec fn end(self, ch: Channel) -> Turned {
        self.route(ch, self.scanner.step(ch, seq![], true))
    }

    pub open spec fn on_delta(self, text: Seq<char>) -> Turned {
        let told = TurnModel { raw_content: self.raw_content + text, ..self };
        match self.think {
            Some(th) => {
                let step = split_think(th.state.plus(text), false);
                TurnModel { think: Some(th.after(step)), ..told }.take_parts(step.parts())
            },
            None => told.take_parts(add_part(seq![], Channel::Content, text)),
        }
    }

    pub open spec fn on_reasoning(self, text: Seq<char>) -> Turned {
        TurnModel { raw_reasoning: self.raw_reasoning + text, ..self }.take(
            Channel::Reasoning,
            text,
        )
    }

    /// The answer starts over. The reasoning, and the numbering of the calls, go on.
    pub open spec fn on_reset(self) -> TurnModel {
        TurnModel {
            scanner: self.scanner.forgetful(),
            think: match self.think {
                Some(th) => Some(ThinkView { state: ThinkState::fresh(), ..th }),
                None => None,
            },
            raw_content: seq![],
            content: seq![],
            ..self
        }
    }

    pub open spec fn on_event(self, event: EventView) -> Turned {
        match event {
            EventView::Delta(text) => self.on_delta(text),
            EventView::Reasoning(text) => self.on_reasoning(text),
            EventView::Reset => Turned { state: self.on_reset(), pieces: seq![] },
            EventView::Finish(reason) => Turned {
                state: TurnModel { upstream_finish: Some(reason), ..self },
                pieces: seq![],
            },
            EventView::Error(message) => Turned {
                state: TurnModel { failure: Some(message), ..self },
                pieces: seq![],
            },
            EventView::Done => Turned {
                state: TurnModel { done: true, ..self },
                pieces: seq![],
            },
        }
    }

    pub open spec fn on_events(self, events: Seq<EventView>) -> Turned
        decreases events.len(),
    {
        if events.len() == 0 {
            Turned { state: self, pieces: seq![] }
        } else {
            let front = self.on_events(events.drop_last());
            let last = front.state.on_event(events.last());
            Turned { state: last.state, pieces: front.pieces + last.pieces }
        }
    }

    /// The end of the turn: what was held back is let go, all of it.
    pub open spec fn on_end(self) -> Turned {
        let first = match self.think {
            Some(th) => {
                let step = split_think(th.state, true);
                TurnModel { think: Some(th.after(step)), ..self }.take_parts(step.parts())
            },
            None => Turned { state: self, pieces: seq![] },
        };
        let second = first.state.end(Channel::Content);
        let third = second.state.end(Channel::Reasoning);
        Turned { state: third.state, pieces: first.pieces + second.pieces + third.pieces }
    }

    /// The scanner has counted the calls.
    pub open spec fn counted(self) -> bool {
        self.scanner.next_index == wrap_add(0, self.calls.len())
    }

    pub open spec fn saw_call(self) -> bool {
        self.scanner.next_index > 0
    }

    /// Why the turn ends, as the client is told.
    pub open spec fn reason(self) -> Seq<char> {
        final_reason(
            self.saw_call(),
            if self.failure is Some {
                Some(MIDSTREAM_REASON@)
            } else {
                self.upstream_finish
            },
            self.truncated,
        )
    }

    pub open spec fn stats(self) -> ToolStats {
        ToolStats {
            calls: self.scanner.next_index,
            rejected: self.scanner.rejected,
            in_reasoning: self.calls_in_reasoning,
            think_blocks: match self.think {
                Some(th) => th.blocks,
                None => 0,
            },
            think_unclosed: match self.think {
                Some(th) => th.unclosed,
                None => false,
            },
        }
    }

    /// No channel gave anything.
    pub open spec fn silent(self) -> bool {
        self.content.len() == 0 && self.reasoning.len() == 0 && self.calls.len() == 0
    }

    /// The `content` of the assistant's message: absent only where calls came without
    /// any text.
    pub open spec fn message_content(self) -> Option<Seq<char>> {
        if self.saw_call() && blank(self.content) {
            None
        } else {
            Some(self.content)
        }
    }

    /// All that the model produced.
    pub open spec fn completion(self) -> Seq<char> {
        self.content + self.reasoning + call_text(self.calls)
    }
}

/// The names and arguments of calls.
pub open spec fn call_text(calls: Seq<Call>) -> Seq<char>
    decreases calls.len(),
{
    if calls.len() == 0 {
        seq![]
    } else {
        call_text(calls.drop_last()) + calls.last().0 + calls.last().1
    }
}

pub open spec fn scanned_views(list: Seq<ScannedCall>) -> Seq<Call> {
    list.map_values(|c: ScannedCall| (c.name@, c.arguments@))
}

// ───────────────────────── the turn ─────────────────────────

#[derive(Debug)]
pub struct Turn {
    scanner: ToolCallScanner,
    think: Option<ThinkSplitter>,
    content: String,
    reasoning: String,
    calls: Vec<ScannedCall>,
    raw_content: String,
    raw_reasoning: String,
    upstream_finish: Option<String>,
    truncated: bool,
    failure: Option<String>,
    done: bool,
    calls_in_reasoning: u32,
}

impl View for Turn {
    type V = TurnModel;

    closed spec fn view(&self) -> TurnModel {
        TurnModel {
            scanner: self.scanner@,
            think: match self.think {
                Some(th) => Some(th@),
                None => None,
            },
            content: self.content@,
            reasoning: self.reasoning@,
            calls: scanned_views(self.calls@),
            raw_content: self.raw_content@,
            raw_reasoning: self.raw_reasoning@,
            upstream_finish: opt_text(self.upstream_finish),
            truncated: self.truncated,
            failure: opt_text(self.failure),
            done: self.done,
            calls_in_reasoning: self.calls_in_reasoning,
        }
    }
}

impl Turn {
    /// The calls are numbered from 0 on, as the scanner counts them, and all are calls
    /// of tools that the scanner knows.
    pub closed spec fn wf(&self) -> bool {
        &&& self@.counted()
        &&& numbered(self.calls@, self@.calls, 0)
        &&& all_named(self@.calls, self@.scanner.names)
    }

    /// The calls so far, ids and all.
    pub closed spec fn kept(&self) -> Seq<ScannedCall> {
        self.calls@
    }

    /// A turn in which the given tools can be called. Without a tool everything is
    /// text. Whether `<think>` is split out has nothing to do with the tools.
    pub fn new(tool_names: Vec<String>, split_think: bool) -> (r: Self)
        ensures
            r@ == TurnModel::fresh(views(tool_names@), split_think),
            r.kept().len() == 0,
            r.wf(),
    {
        proof {
            lemma_wrap_add(0, 0, 0);
        }
        let think = if split_think {
            Some(ThinkSplitter::new())
        } else {
            None
        };
        let r = Turn {
            scanner: ToolCallScanner::new(tool_names, true),
            think,
            content: String::new(),
            reasoning: String::new(),
            calls: Vec::new(),
            raw_content: String::new(),
            raw_reasoning: String::new(),
            upstream_finish: None,
            truncated: false,
            failure: None,
            done: false,
            calls_in_reasoning: 0,
        };
        assert(scanned_views(r.calls@) =~= seq![]);
        assert(r@.content =~= seq![]);
        r
    }

    /// Takes in an event and gives the pieces for the client. The calls among them are
    /// those that the turn keeps.
    pub fn push(&mut self, event: StreamEvent) -> (r: Emit)
        requires
            old(self).wf(),
        ensures
            final(self)@ == old(self)@.on_event(event@).state,
            piece_views(r.0@) == old(self)@.on_event(event@).pieces,
            final(self).kept() == old(self).kept() + calls_of(r.0@),
            calls_have_ids(r.0@),
            final(self).wf(),
    {
        let mut emit = Emit(Vec::new());
        let ghost base = self.calls@;
        assert(piece_views(emit.0@) =~= seq![]);
        assert(base + calls_of(emit.0@) =~= base);
        match event {
            StreamEvent::Delta(text) => {
                self.raw_content.append(text.as_str());
                let split = match &mut self.think {
                    Some(th) => th.push(text.as_str()),
                    None => Split::content(text),
                };
                self.take_parts(split, &mut emit, Ghost(base));
                assert(Seq::<PieceView>::empty() + old(self)@.on_event(event@).pieces =~= old(
                    self,
                )@.on_event(event@).pieces);
            },
            StreamEvent::Reasoning(text) => {
                self.raw_reasoning.append(text.as_str());
                let out = self.scanner.push_on(Channel::Reasoning, text.as_str());
                let ghost told = TurnModel {
                    raw_reasoning: old(self)@.raw_reasoning + text@,
                    ..old(self)@
                };
                proof {
                    lemma_step_named(told.scanner, Channel::Reasoning, text@, false);
                }
                self.route(
                    Channel::Reasoning,
                    out,
                    &mut emit,
                    Ghost(told),
                    Ghost(told.scanner.step(Channel::Reasoning, text@, false)),
                    Ghost(base),
                );
                assert(Seq::<PieceView>::empty() + old(self)@.on_event(event@).pieces =~= old(
                    self,
                )@.on_event(event@).pieces);
            },
            StreamEvent::Reset => {
                self.scanner.reset();
                match &mut self.think {
                    Some(th) => th.reset(),
                    None => {},
                }
                self.raw_content = String::new();
                self.content = String::new();
                assert(self.content@ =~= seq![]);
                assert(self.raw_content@ =~= seq![]);
            },
            StreamEvent::Finish(reason) => {
                self.upstream_finish = Some(reason);
            },
            StreamEvent::Error(message) => {
                self.failure = Some(message);
            },
            StreamEvent::Done => {
                self.done = true;
            },
        }
        emit
    }

    fn take_parts(&mut self, split: Split, emit: &mut Emit, Ghost(base): Ghost<Seq<ScannedCall>>)
        requires
            old(self).wf(),
            old(self).calls@ == base + calls_of(old(emit).0@),
            calls_have_ids(old(emit).0@),
        ensures
            final(self).calls@ == base + calls_of(final(emit).0@),
            calls_have_ids(final(emit).0@),
            final(self)@ == old(self)@.take_parts(part_views(split.parts@)).state,
            piece_views(final(emit).0@) == piece_views(old(emit).0@) + old(self)@.take_parts(
                part_views(split.parts@),
            ).pieces,
            final(self).wf(),
    {
        let ghost start = self@;
        let ghost parts = part_views(split.parts@);
        let ghost before = piece_views(emit.0@);
        let mut i: usize = 0;
        proof {
            assert(parts.take(0) =~= seq![]);
            assert(before + start.take_parts(parts.take(0)).pieces =~= before);
        }
        while i < split.parts.len()
            invariant
                i <= split.parts@.len() == parts.len(),
                parts == part_views(split.parts@),
                self@ == start.take_parts(parts.take(i as int)).state,
                piece_views(emit.0@) == before + start.take_parts(parts.take(i as int)).pieces,
                self.calls@ == base + calls_of(emit.0@),
                calls_have_ids(emit.0@),
                self.wf(),
            decreases split.parts@.len() - i,
        {
            let ch = split.parts[i].0;
            let ghost mid = self@;
            let ghost so_far = piece_views(emit.0@);
            let out = self.scanner.push_on(ch, split.parts[i].1.as_str());
            proof {
                assert(parts.take(i + 1).drop_last() =~= parts.take(i as int));
                assert(parts.take(i + 1).last() == parts[i as int]);
                lemma_step_named(mid.scanner, ch, parts[i as int].1, false);
            }
            self.route(
                ch,
                out,
                emit,
                Ghost(mid),
                Ghost(mid.scanner.step(ch, parts[i as int].1, false)),
                Ghost(base),
            );
            assert(piece_views(emit.0@) =~= before + start.take_parts(parts.take(i + 1)).pieces);
            i += 1;
        }
        assert(parts.take(parts.len() as int) =~= parts);
    }

    /// The end of the turn. What was held back is let go, all of it; a call may be
    /// completed by it, so it comes before the questions below.
    pub fn finish(&mut self) -> (r: Emit)
        requires
            old(self).wf(),
        ensures
            final(self)@ == old(self)@.on_end().state,
            piece_views(r.0@) == old(self)@.on_end().pieces,
            final(self).kept() == old(self).kept() + calls_of(r.0@),
            calls_have_ids(r.0@),
            final(self).wf(),
    {
        let mut emit = Emit(Vec::new());
        let ghost base = self.calls@;
        assert(piece_views(emit.0@) =~= seq![]);
        assert(base + calls_of(emit.0@) =~= base);
        match &mut self.think {
            Some(th) => {
                let split = th.finish();
                self.take_parts(split, &mut emit, Ghost(base));
            },
            None => {},
        }
        let ghost first = self@;
        let ghost p1 = piece_views(emit.0@);
        let out = self.scanner.finish_on(Channel::Content);
        proof {
            lemma_step_named(first.scanner, Channel::Content, seq![], true);
        }
        self.route(
            Channel::Content,
            out,
            &mut emit,
            Ghost(first),
            Ghost(first.scanner.step(Channel::Content, seq![], true)),
            Ghost(base),
        );
        let ghost second = self@;
        let ghost p2 = piece_views(emit.0@);
        let out = self.scanner.finish_on(Channel::Reasoning);
        proof {
            lemma_step_named(second.scanner, Channel::Reasoning, seq![], true);
        }
        self.route(
            Channel::Reasoning,
            out,
            &mut emit,
            Ghost(second),
            Ghost(second.scanner.step(Channel::Reasoning, seq![], true)),
            Ghost(base),
        );
        assert(piece_views(emit.0@) =~= old(self)@.on_end().pieces);
        emit
    }

    /// Takes in an output of the scanner, which has already moved on from `before`.
    fn route(
        &mut self,
        ch: Channel,
        out: ScanOut,
        emit: &mut Emit,
        Ghost(before): Ghost<TurnModel>,
        Ghost(step): Ghost<Step>,
        Ghost(base): Ghost<Seq<ScannedCall>>,
    )
        requires
            old(self).calls@ == base + calls_of(old(emit).0@),
            calls_have_ids(old(emit).0@),
            old(self)@ == (TurnModel { scanner: before.scanner.after(ch, step), ..before }),
            before.counted(),
            numbered(old(self).calls@, before.calls, 0),
            out.shows(step, before.scanner.next_index),
            all_named(before.calls, before.scanner.names),
            all_named(step.calls(), before.scanner.names),
        ensures
            final(self).calls@ == base + calls_of(final(emit).0@),
            calls_have_ids(final(emit).0@),
            final(self)@ == before.route(ch, step).state,
            piece_views(final(emit).0@) == piece_views(old(emit).0@) + before.route(ch, step).pieces,
            final(self).wf(),
    {
        let ghost shown = piece_views(emit.0@);
        let ghost held = emit.0@;
        let ghost turned = before.route(ch, step);
        if !out.text.as_str().is_empty() {
            match ch {
                Channel::Content => {
                    self.content.append(out.text.as_str());
                    emit.0.push(Piece::Content(out.text));
                },
                Channel::Reasoning => {
                    self.reasoning.append(out.text.as_str());
                    emit.0.push(Piece::Reasoning(out.text));
                },
            }
        }
        let ghost mid = shown + text_piece(ch, step.text());
        let ghost found = step.calls();
        proof {
            assert(piece_views(emit.0@) =~= mid);
            if emit.0@.len() > held.len() {
                assert(emit.0@.drop_last() =~= held);
            } else {
                assert(emit.0@ =~= held);
            }
            if step.text().len() == 0 {
                assert(before.content + step.text() =~= before.content);
                assert(before.reasoning + step.text() =~= before.reasoning);
            }
            assert(before.calls + found.take(0) =~= before.calls);
            assert(mid + call_pieces(found, before.scanner.next_index).take(0) =~= mid);
            lemma_wrap_add(before.calls_in_reasoning, 0, 0);
        }
        let mut i: usize = 0;
        while i < out.calls.len()
            invariant
                i <= out.calls@.len() == found.len(),
                numbered(out.calls@, found, before.scanner.next_index),
                before.counted(),
                scanned_views(self.calls@) == before.calls + found.take(i as int),
                numbered(self.calls@, before.calls + found.take(i as int), 0),
                self.calls@ == base + calls_of(emit.0@),
                calls_have_ids(emit.0@),
                self.calls_in_reasoning == (if ch == Channel::Reasoning {
                    wrap_add(before.calls_in_reasoning, i as nat)
                } else {
                    before.calls_in_reasoning
                }),
                self@ == (TurnModel {
                    calls: scanned_views(self.calls@),
                    calls_in_reasoning: self.calls_in_reasoning,
                    ..turned.state
                }),
                piece_views(emit.0@) == mid + call_pieces(found, before.scanner.next_index).take(
                    i as int,
                ),
            decreases out.calls@.len() - i,
        {
            if ch == Channel::Reasoning {
                self.calls_in_reasoning = bump(self.calls_in_reasoning);
            }
            let call = out.calls[i].copy();
            let again = call.copy();
            let ghost list = self.calls@;
            let ghost pieces = emit.0@;
            self.calls.push(call);
            emit.0.push(Piece::Call(again));
            proof {
                let all = call_pieces(found, before.scanner.next_index);
                lemma_wrap_add(before.calls_in_reasoning, i as nat, 1);
                lemma_wrap_add(0, before.calls.len(), i as nat);
                assert(scanned_views(self.calls@) =~= before.calls + found.take(i + 1));
                assert(piece_views(emit.0@) =~= piece_views(pieces).push(all[i as int]));
                assert(mid + all.take(i + 1) =~= (mid + all.take(i as int)).push(all[i as int]));
                assert(before.calls + found.take(i + 1) =~= (before.calls + found.take(i as int)).push(
                    found[i as int],
                ));
                assert(self.calls@.drop_last() =~= list);
                assert(emit.0@.drop_last() =~= pieces);
                assert(self.calls@ =~= base + calls_of(emit.0@));
            }
            i += 1;
        }
        proof {
            let all = call_pieces(found, before.scanner.next_index);
            assert(found.take(found.len() as int) =~= found);
            assert(all.take(all.len() as int) =~= all);
            assert(piece_views(emit.0@) =~= shown + turned.pieces);
            lemma_wrap_add(0, before.calls.len(), found.len());
            lemma_named_concat(before.calls, found, before.scanner.names);
        }
    }

    /// Takes in an event where the pieces are of no use.
    pub fn feed(&mut self, event: StreamEvent)
        requires
            old(self).wf(),
        ensures
            final(self)@ == old(self)@.on_event(event@).state,
            old(self).kept().is_prefix_of(final(self).kept()),
            final(self).wf(),
    {
        let _ = self.push(event);
    }

    /// The gateway says that it cut the answer off.
    pub fn mark_truncated(&mut self)
        requires
            old(self).wf(),
        ensures
            final(self)@ == (TurnModel { truncated: true, ..old(self)@ }),
            final(self).kept() == old(self).kept(),
            final(self).wf(),
    {
        self.truncated = true;
    }

    /// The stream broke off.
    pub fn mark_failure(&mut self, msg: String)
        requires
            old(self).wf(),
        ensures
            final(self)@ == (TurnModel { failure: Some(msg@), ..old(self)@ }),
            final(self).kept() == old(self).kept(),
            final(self).wf(),
    {
        self.failure = Some(msg);
    }

    pub fn saw_call(&self) -> (r: bool)
        ensures
            r == self@.saw_call(),
    {
        self.scanner.saw_call()
    }

    /// Why the turn ends. It never depends on how the answer arrived.
    pub fn finish_reason(&self) -> (r: &'static str)
        ensures
            r@ == self@.reason(),
    {
        if self.failure.is_some() {
            return decide_finish(self.saw_call(), Some(MIDSTREAM_REASON), self.truncated);
        }
        match &self.upstream_finish {
            Some(s) => decide_finish(self.saw_call(), Some(s.as_str()), self.truncated),
            None => decide_finish(self.saw_call(), None, self.truncated),
        }
    }

    /// The calls: numbered from 0 on, each with an id, each of a tool that can be called,
    /// each with arguments that are JSON.
    pub fn calls(&self) -> (r: &[ScannedCall])
        requires
            self.wf(),
        ensures
            r@ == self.kept(),
            scanned_views(r@) == self@.calls,
            numbered(r@, self@.calls, 0),
            forall|k: int|
                0 <= k < r@.len() ==> {
                    &&& k <= u32::MAX ==> (#[trigger] r@[k]).index == k
                    &&& call_id(r@[k].id@)
                    &&& self@.scanner.names.contains(r@[k].name@)
                    &&& well_written(r@[k].arguments@)
                },
            r@.len() <= u32::MAX ==> (self@.saw_call() <==> r@.len() > 0),
    {
        proof {
            assert forall|k: int| 0 <= k < self.calls@.len() implies self@.scanner.names.contains(
                (#[trigger] self.calls@[k]).name@,
            ) by {
                assert(self@.calls[k].0 == self.calls@[k].name@);
            }
            lemma_wrap_add(0, 0, self.calls@.len());
        }
        self.calls.as_slice()
    }

    pub fn content(&self) -> (r: &str)
        ensures
            r@ == self@.content,
    {
        self.content.as_str()
    }

    pub fn reasoning(&self) -> (r: &str)
        ensures
            r@ == self@.reasoning,
    {
        self.reasoning.as_str()
    }

    pub fn raw_content(&self) -> (r: &str)
        ensures
            r@ == self@.raw_content,
    {
        self.raw_content.as_str()
    }

    pub fn raw_reasoning(&self) -> (r: &str)
        ensures
            r@ == self@.raw_reasoning,
    {
        self.raw_reasoning.as_str()
    }

    pub fn failure(&self) -> (r: Option<&str>)
        ensures
            match r {
                Some(s) => self@.failure == Some(s@),
                None => self@.failure is None,
            },
    {
        match &self.failure {
            Some(s) => Some(s.as_str()),
            None => None,
        }
    }

    pub fn done(&self) -> (r: bool)
        ensures
            r == self@.done,
    {
        self.done
    }

    pub fn upstream_finish(&self) -> (r: Option<&str>)
        ensures
            match r {
                Some(s) => self@.upstream_finish == Some(s@),
                None => self@.upstream_finish is None,
            },
    {
        match &self.upstream_finish {
            Some(s) => Some(s.as_str()),
            None => None,
        }
    }

    /// No channel gave anything.
    pub fn is_empty(&self) -> (r: bool)
        ensures
            r == self@.silent(),
    {
        assert(scanned_views(self.calls@).len() == self.calls@.len());
        self.content.as_str().is_empty() && self.reasoning.as_str().is_empty() && self.calls.len() == 0
    }

    /// The `reasoning_content` of the message: absent where there is none.
    pub fn reasoning_field(&self) -> (r: Option<String>)
        ensures
            opt_text(r) == (if self@.reasoning.len() == 0 {
                None
            } else {
                Some(self@.reasoning)
            }),
    {
        if self.reasoning.as_str().is_empty() {
            None
        } else {
            Some(self.reasoning.clone())
        }
    }

    /// The `content` of the message. An empty answer is an empty text; only calls
    /// without text have none.
    pub fn assistant_content(&self) -> (r: Option<String>)
        ensures
            opt_text(r) == self@.message_content(),
    {
        if self.saw_call() && is_blank(self.content.as_str()) {
            None
        } else {
            Some(self.content.clone())
        }
    }

    pub fn tool_stats(&self) -> (r: ToolStats)
        ensures
            r == self@.stats(),
    {
        ToolStats {
            calls: self.scanner.call_count(),
            rejected: self.scanner.rejected_count(),
            in_reasoning: self.calls_in_reasoning,
            think_blocks: match &self.think {
                Some(th) => th.blocks(),
                None => 0,
            },
            think_unclosed: match &self.think {
                Some(th) => th.unclosed(),
                None => false,
            },
        }
    }

    /// All that the model produced: text, reasoning and calls.
    pub fn completion_text(&self) -> (r: String)
        ensures
            r@ == self@.completion(),
    {
        let mut out = self.content.clone();
        out.append(self.reasoning.as_str());
        let ghost front = out@;
        let ghost all = scanned_views(self.calls@);
        let mut i: usize = 0;
        proof {
            assert(all.take(0) =~= seq![]);
            assert(front + call_text(all.take(0)) =~= front);
        }
        while i < self.calls.len()
            invariant
                i <= self.calls@.len() == all.len(),
                all == scanned_views(self.calls@),
                out@ == front + call_text(all.take(i as int)),
            decreases self.calls@.len() - i,
        {
            let ghost before = out@;
            out.append(self.calls[i].name.as_str());
            out.append(self.calls[i].arguments.as_str());
            proof {
                assert(all.take(i + 1).drop_last() =~= all.take(i as int));
                assert(all.take(i + 1).last() == all[i as int]);
                assert(out@ =~= front + call_text(all.take(i + 1)));
            }
            i += 1;
        }
        assert(all.take(all.len() as int) =~= all);
        out
    }
}

} // verus!
