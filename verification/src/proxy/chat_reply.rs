//! The answer to a chat call: as a stream of chunks, or as one completion.

use vstd::prelude::*;
use vstd::string::*;
use vstd::utf8::*;

use crate::ids::{all_hex, random_hex};
use crate::json::{json_parse, Json, JsonView};
use crate::logstore::{preview, preview_view, LogEntry, RawView, Stamp};
use crate::openai::{
    copy_text, opt_text, seq_of, AssistantMessage, ChatChunk, ChatCompletion, Choice, Delta,
    ErrorEnvelope, ToolCall, ToolCallDelta,
};
use crate::text::{chars_of, dec, dec_u64, join, joined, same, starts_with, views};

use super::chat_log::{
    body_view, log_body, plan_lines, plan_meta, push_line, push_some, reasoning_meta,
    reasoning_view, summary_view, turn_tool_meta, turn_tool_view, unused_note, unused_tools_note,
    Ctx,
};
use super::chunk::{ChunkView, FabrixChunk};
use super::decode::{
    event_views, nonstream_events, whole_events, DecoderView, EventView, StreamDecoder,
    StreamEvent,
};
use super::envelope::{openai_type, type_view};
use super::fabrix::{answer_object, extract_object, FabrixError};
use super::scan::Call;
use super::tools::{bump, call_id, numbered, well_written, wrap_add, ScannedCall};
use super::turn::{
    calls_have_ids, calls_of, piece_views, scanned_views, Emit, Piece, PieceView, Turn, TurnModel,
};
use super::usage::{build, counted, meta_line, meta_view, Counted};

verus! {

/// `chatcmpl-`, and 32 hexadecimal digits.
pub open spec fn completion_shape(s: Seq<char>) -> bool {
    &&& starts_with(s, "chatcmpl-"@)
    &&& s.len() == "chatcmpl-"@.len() + 32
    &&& all_hex(s.skip("chatcmpl-"@.len() as int))
}

/// The id of a completion, out of the digits that were drawn.
pub fn completion_id_of(drawn: &str) -> (r: String)
    requires
        drawn@.len() == 32,
    ensures
        r@ == "chatcmpl-"@ + drawn@,
        all_hex(drawn@) ==> completion_shape(r@),
{
    let out = "chatcmpl-".to_owned().concat(drawn);
    proof {
        let n = "chatcmpl-"@.len() as int;
        assert(out@.take(n) =~= "chatcmpl-"@);
        assert(out@.skip(n) =~= drawn@);
    }
    out
}

/// A new id for a completion: [`completion_id_of`] a draw. Which one is left to chance.
pub fn completion_id() -> (r: String)
    ensures
        completion_shape(r@),
{
    completion_id_of(random_hex().as_str())
}

// ───────────────────────── chunks ─────────────────────────

/// The delta says the role, or does not.
pub open spec fn role_shown(delta: Delta, first: bool) -> bool {
    if first {
        delta.role matches Some(role) && role@ == "assistant"@
    } else {
        delta.role is None
    }
}

/// The delta holds the piece and nothing else.
pub open spec fn holds_piece(delta: Delta, piece: Piece) -> bool {
    match piece {
        Piece::Content(text) => {
            &&& opt_text(delta.content) == Some(text@)
            &&& delta.reasoning_content is None
            &&& delta.tool_calls is None
        },
        Piece::Reasoning(text) => {
            &&& delta.content is None
            &&& opt_text(delta.reasoning_content) == Some(text@)
            &&& delta.tool_calls is None
        },
        Piece::Call(c) => {
            &&& delta.content is None
            &&& delta.reasoning_content is None
            &&& delta.tool_calls matches Some(list) && list@.len() == 1 && list@[0].is_whole(
                c.index,
                c.id@,
                c.name@,
                c.arguments@,
            )
        },
    }
}

/// A chunk of the stream with one choice that has not ended.
pub open spec fn is_chunk(chunk: ChatChunk, id: Seq<char>, created: i64, model: Seq<char>) -> bool {
    &&& chunk.belongs_to(id, created, model)
    &&& chunk.choices@.len() == 1
    &&& chunk.choices@[0].index == 0
    &&& chunk.choices@[0].finish_reason is None
    &&& chunk.usage is None
    &&& chunk.system_fingerprint is None
}

/// One chunk for each piece, in order. The role is told once.
pub fn emit_chunks(id: &str, created: i64, model: &str, emit: Emit, sent_role: &mut bool) -> (r: Vec<
    ChatChunk,
>)
    ensures
        r@.len() == emit.0@.len(),
        forall|k: int|
            0 <= k < r@.len() ==> {
                &&& is_chunk(#[trigger] r@[k], id@, created, model@)
                &&& holds_piece(r@[k].choices@[0].delta, emit.0@[k])
                &&& role_shown(r@[k].choices@[0].delta, k == 0 && !*old(sent_role))
            },
        *final(sent_role) == (*old(sent_role) || emit.0@.len() > 0),
{
    let mut chunks: Vec<ChatChunk> = Vec::new();
    let n: usize = emit.0.len();
    let mut i: usize = 0;
    while i < n
        invariant
            i <= n == emit.0@.len(),
            chunks@.len() == i,
            forall|k: int|
                0 <= k < i ==> {
                    &&& is_chunk(#[trigger] chunks@[k], id@, created, model@)
                    &&& holds_piece(chunks@[k].choices@[0].delta, emit.0@[k])
                    &&& role_shown(chunks@[k].choices@[0].delta, k == 0 && !*old(sent_role))
                },
            *sent_role == (*old(sent_role) || i > 0),
        decreases n - i,
    {
        let role = if *sent_role {
            None
        } else {
            Some("assistant")
        };
        let delta = match &emit.0[i] {
            Piece::Content(text) => Delta {
                role,
                content: Some(text.clone()),
                reasoning_content: None,
                tool_calls: None,
            },
            Piece::Reasoning(text) => Delta {
                role,
                content: None,
                reasoning_content: Some(text.clone()),
                tool_calls: None,
            },
            Piece::Call(c) => {
                let mut list: Vec<ToolCallDelta> = Vec::new();
                list.push(
                    ToolCallDelta::whole(
                        c.index,
                        c.id.as_str(),
                        c.name.as_str(),
                        c.arguments.as_str(),
                    ),
                );
                Delta { role, content: None, reasoning_content: None, tool_calls: Some(list) }
            },
        };
        *sent_role = true;
        chunks.push(ChatChunk::new(id, created, model, delta, None));
        i += 1;
    }
    chunks
}

/// The delta holds a piece; of a call's id it says the shape.
pub open spec fn holds_view(delta: Delta, piece: PieceView) -> bool {
    match piece {
        PieceView::Content(text) => {
            &&& opt_text(delta.content) == Some(text)
            &&& delta.reasoning_content is None
            &&& delta.tool_calls is None
        },
        PieceView::Reasoning(text) => {
            &&& delta.content is None
            &&& opt_text(delta.reasoning_content) == Some(text)
            &&& delta.tool_calls is None
        },
        PieceView::Call(index, name, arguments) => {
            &&& delta.content is None
            &&& delta.reasoning_content is None
            &&& delta.tool_calls matches Some(list) && list@.len() == 1 && list@[0].id is Some
                && call_id(list@[0].id->0@) && list@[0].is_whole(
                index,
                list@[0].id->0@,
                name,
                arguments,
            )
        },
    }
}

/// Chunks without a role that hold these pieces, one each.
pub open spec fn chunks_show(
    chunks: Seq<ChatChunk>,
    pieces: Seq<PieceView>,
    id: Seq<char>,
    created: i64,
    model: Seq<char>,
) -> bool {
    &&& chunks.len() == pieces.len()
    &&& forall|k: int|
        0 <= k < chunks.len() ==> {
            &&& is_chunk(#[trigger] chunks[k], id, created, model)
            &&& holds_view(chunks[k].choices@[0].delta, pieces[k])
            &&& role_shown(chunks[k].choices@[0].delta, false)
        }
}

/// The ids of calls.
pub open spec fn call_ids(list: Seq<ScannedCall>) -> Seq<Seq<char>> {
    list.map_values(|c: ScannedCall| c.id@)
}

/// The ids of the calls in chunks.
pub open spec fn chunk_ids(chunks: Seq<ChatChunk>) -> Seq<Seq<char>>
    decreases chunks.len(),
{
    if chunks.len() == 0 {
        seq![]
    } else {
        let front = chunk_ids(chunks.drop_last());
        match chunks.last().choices@[0].delta.tool_calls {
            Some(list) => front.push(list@[0].id->0@),
            None => front,
        }
    }
}

proof fn lemma_chunk_ids(chunks: Seq<ChatChunk>, pieces: Seq<Piece>)
    requires
        chunks.len() == pieces.len(),
        forall|k: int|
            0 <= k < chunks.len() ==> holds_piece(
                (#[trigger] chunks[k]).choices@[0].delta,
                pieces[k],
            ),
    ensures
        chunk_ids(chunks) == call_ids(calls_of(pieces)),
    decreases chunks.len(),
{
    if chunks.len() > 0 {
        let a = chunks.drop_last();
        let b = pieces.drop_last();
        assert forall|k: int| 0 <= k < a.len() implies holds_piece(
            (#[trigger] a[k]).choices@[0].delta,
            b[k],
        ) by {
            assert(a[k] == chunks[k]);
        }
        lemma_chunk_ids(a, b);
        assert(holds_piece(chunks[chunks.len() - 1].choices@[0].delta, pieces[pieces.len() - 1]));
    }
    assert(chunk_ids(chunks) =~= call_ids(calls_of(pieces)));
}

proof fn lemma_chunk_ids_concat(a: Seq<ChatChunk>, b: Seq<ChatChunk>)
    ensures
        chunk_ids(a + b) == chunk_ids(a) + chunk_ids(b),
    decreases b.len(),
{
    if b.len() == 0 {
        assert(a + b =~= a);
        assert(chunk_ids(a) + Seq::<Seq<char>>::empty() =~= chunk_ids(a));
    } else {
        lemma_chunk_ids_concat(a, b.drop_last());
        assert((a + b).drop_last() =~= a + b.drop_last());
        assert(chunk_ids(a + b) =~= chunk_ids(a) + chunk_ids(b));
    }
}

/// The calls that were sent have the ids that the turn keeps.
pub open spec fn ids_sent(before: Turn, after: Turn, chunks: Seq<ChatChunk>) -> bool {
    call_ids(after.kept()) == call_ids(before.kept()) + chunk_ids(chunks)
}

proof fn lemma_chunks_show_concat(
    a: Seq<ChatChunk>,
    b: Seq<ChatChunk>,
    p: Seq<PieceView>,
    q: Seq<PieceView>,
    id: Seq<char>,
    created: i64,
    model: Seq<char>,
)
    requires
        chunks_show(a, p, id, created, model),
        chunks_show(b, q, id, created, model),
    ensures
        chunks_show(a + b, p + q, id, created, model),
{
    let c = a + b;
    let r = p + q;
    assert forall|k: int| 0 <= k < c.len() implies {
        &&& is_chunk(#[trigger] c[k], id, created, model)
        &&& holds_view(c[k].choices@[0].delta, r[k])
        &&& role_shown(c[k].choices@[0].delta, false)
    } by {
        if k < a.len() {
            assert(c[k] == a[k]);
            assert(r[k] == p[k]);
        } else {
            assert(c[k] == b[k - a.len()]);
            assert(r[k] == q[k - a.len()]);
        }
    }
}

// ───────────────────────── a stream ─────────────────────────

/// A stream to the client, and what is known of it for the log.
#[derive(Debug)]
pub struct StreamLog {
    pub ctx: Ctx,
    pub decoder: StreamDecoder,
    pub turn: Turn,
    /// After how many seconds the first text came, to one decimal.
    pub first_token: Option<String>,
    pub frames: u32,
    /// The gateway's stream was read to its end.
    pub drained: bool,
    /// The reason that the client was told.
    pub emitted_finish: Option<&'static str>,
    pub counted: Option<Counted>,
    pub id: String,
    pub created: i64,
    pub model: String,
    pub fingerprint: Option<String>,
    /// The client asked for a usage chunk.
    pub include_usage: bool,
}

/// An event after which the gateway sends nothing more.
pub open spec fn is_last(e: EventView) -> bool {
    e is Done || e is Error
}

/// The events up to the first one that is the last.
pub open spec fn taken(events: Seq<EventView>) -> Seq<EventView>
    decreases events.len(),
{
    if events.len() == 0 {
        seq![]
    } else if is_last(events[0]) {
        seq![events[0]]
    } else {
        seq![events[0]] + taken(events.drop_first())
    }
}

pub open spec fn has_last(events: Seq<EventView>) -> bool {
    exists|k: int| 0 <= k < events.len() && is_last(#[trigger] events[k])
}

pub open spec fn brings_text(events: Seq<EventView>) -> bool {
    exists|k: int|
        0 <= k < events.len() && (#[trigger] events[k] is Delta || events[k] is Reasoning)
}

proof fn lemma_taken(events: Seq<EventView>, n: int)
    requires
        0 <= n <= events.len(),
        forall|k: int| 0 <= k < n - 1 ==> !is_last(#[trigger] events[k]),
        n == events.len() || (n > 0 && is_last(events[n - 1])),
    ensures
        taken(events) == events.take(n),
    decreases n,
{
    if n == 0 {
        assert(events.take(0) =~= seq![]);
    } else if n == 1 {
        assert(events.take(1) =~= seq![events[0]]);
        if !is_last(events[0]) {
            assert(events.drop_first() =~= seq![]);
            assert(taken(events.drop_first()) =~= seq![]);
            assert(seq![events[0]] + Seq::<EventView>::empty() =~= seq![events[0]]);
        }
    } else {
        assert(!is_last(events[0]));
        let rest = events.drop_first();
        assert forall|k: int| 0 <= k < n - 2 implies !is_last(#[trigger] rest[k]) by {
            assert(rest[k] == events[k + 1]);
        }
        lemma_taken(rest, n - 1);
        assert(seq![events[0]] + rest.take(n - 1) =~= events.take(n));
    }
}

/// The log's record of a frame to the client.
pub open spec fn frame_pushed(v: RawView, data: Seq<char>) -> RawView {
    v.pushed(encode_utf8("data: "@)).pushed(encode_utf8(data)).pushed(encode_utf8("\n\n"@))
}

impl StreamLog {
    /// The stream goes on; only what a step may change has changed.
    pub open spec fn goes_on(self, before: StreamLog) -> bool {
        &&& self == (StreamLog {
            ctx: self.ctx,
            decoder: self.decoder,
            turn: self.turn,
            first_token: self.first_token,
            frames: self.frames,
            drained: self.drained,
            ..before
        })
        &&& self.ctx == (Ctx { raw_upstream: self.ctx.raw_upstream, ..before.ctx })
    }

    pub open spec fn first_text(self, events: Seq<EventView>, elapsed: Seq<char>) -> Option<Seq<char>> {
        if self.first_token is Some {
            opt_text(self.first_token)
        } else if brings_text(events) {
            Some(elapsed)
        } else {
            None
        }
    }

    pub fn start(
        ctx: Ctx,
        tool_names: Vec<String>,
        id: String,
        created: i64,
        model: String,
        fingerprint: Option<String>,
        include_usage: bool,
    ) -> (r: StreamLog)
        ensures
            r.ctx == ctx,
            r.decoder@ == DecoderView::fresh(),
            r.turn@ == TurnModel::fresh(views(tool_names@), true),
            r.turn.wf(),
            r.first_token is None,
            r.frames == 0,
            !r.drained,
            r.emitted_finish is None,
            r.counted is None,
            r.id == id,
            r.created == created,
            r.model == model,
            r.fingerprint == fingerprint,
            r.include_usage == include_usage,
    {
        StreamLog {
            ctx,
            decoder: StreamDecoder::new(),
            turn: Turn::new(tool_names, true),
            first_token: None,
            frames: 0,
            drained: false,
            emitted_finish: None,
            counted: None,
            id,
            created,
            model,
            fingerprint,
            include_usage,
        }
    }

    /// The first chunk: the role, and nothing more.
    pub fn opening(&self) -> (r: ChatChunk)
        ensures
            r.belongs_to(self.id@, self.created, self.model@),
            r.choices@.len() == 1,
            r.choices@[0].finish_reason is None,
            role_shown(r.choices@[0].delta, true),
            opt_text(r.choices@[0].delta.content) == Some(""@),
            r.choices@[0].delta.reasoning_content is None,
            r.choices@[0].delta.tool_calls is None,
            r.usage is None,
            r.system_fingerprint == self.fingerprint,
    {
        ChatChunk::opening(
            self.id.as_str(),
            self.created,
            self.model.as_str(),
            copy_text(&self.fingerprint),
        )
    }

    /// Keeps a record of a frame that the client is sent.
    pub fn out(&mut self, data: &str)
        ensures
            final(self).ctx.raw_client@ == frame_pushed(old(self).ctx.raw_client@, data@),
            final(self).ctx == (Ctx { raw_client: final(self).ctx.raw_client, ..old(self).ctx }),
            *final(self) == (StreamLog { ctx: final(self).ctx, ..*old(self) }),
    {
        self.ctx.raw_client.push_str("data: ");
        self.ctx.raw_client.push_str(data);
        self.ctx.raw_client.push_str("\n\n");
    }

    /// Takes events in, up to one after which nothing more comes, and gives the chunks
    /// for the client. `elapsed` is the time since the call came, in seconds.
    pub fn drive(&mut self, events: Vec<StreamEvent>, elapsed: &str) -> (r: (Vec<ChatChunk>, bool))
        requires
            old(self).turn.wf(),
        ensures
            ({
                let seen = taken(event_views(events@));
                let turned = old(self).turn@.on_events(seen);
                &&& final(self).turn@ == turned.state
                &&& chunks_show(
                    r.0@,
                    turned.pieces,
                    old(self).id@,
                    old(self).created,
                    old(self).model@,
                )
                &&& r.1 == has_last(event_views(events@))
                &&& opt_text(final(self).first_token) == old(self).first_text(seen, elapsed@)
            }),
            ids_sent(old(self).turn, final(self).turn, r.0@),
            final(self).turn.wf(),
            *final(self) == (StreamLog {
                turn: final(self).turn,
                first_token: final(self).first_token,
                ..*old(self)
            }),
    {
        let ghost all = event_views(events@);
        let ghost start = self.turn@;
        let ghost first0 = self.first_token;
        let mut chunks: Vec<ChatChunk> = Vec::new();
        let mut ended = false;
        let mut i: usize = 0;
        proof {
            assert(all.take(0) =~= seq![]);
            assert(call_ids(self.turn.kept()) + chunk_ids(chunks@) =~= call_ids(self.turn.kept()));
        }
        while i < events.len() && !ended
            invariant
                ids_sent(old(self).turn, self.turn, chunks@),
                i <= events@.len() == all.len(),
                all == event_views(events@),
                start == old(self).turn@,
                first0 == old(self).first_token,
                self.turn.wf(),
                self.turn@ == start.on_events(all.take(i as int)).state,
                *self == (StreamLog {
                    turn: self.turn,
                    first_token: self.first_token,
                    ..*old(self)
                }),
                chunks_show(
                    chunks@,
                    start.on_events(all.take(i as int)).pieces,
                    old(self).id@,
                    old(self).created,
                    old(self).model@,
                ),
                opt_text(self.first_token) == old(self).first_text(all.take(i as int), elapsed@),
                forall|k: int| 0 <= k < i - 1 ==> !is_last(#[trigger] all[k]),
                ended == (i > 0 && is_last(all[i - 1])),
            decreases events@.len() - i,
        {
            let ghost front = all.take(i as int);
            let ghost next = all.take(i + 1);
            let ghost e = all[i as int];
            proof {
                assert(next.drop_last() =~= front);
                assert(next.last() == e);
                assert(next =~= front.push(e));
            }
            let brings = match &events[i] {
                StreamEvent::Delta(_) => true,
                StreamEvent::Reasoning(_) => true,
                _ => false,
            };
            if brings && self.first_token.is_none() {
                self.first_token = Some(elapsed.to_owned());
            }
            proof {
                if brings {
                    assert(next[i as int] is Delta || next[i as int] is Reasoning);
                }
                if brings_text(front) {
                    let k = choose|k: int|
                        0 <= k < front.len() && (#[trigger] front[k] is Delta || front[k] is Reasoning);
                    assert(next[k] == front[k]);
                    assert(brings_text(next));
                }
                if brings_text(next) && !brings {
                    let k = choose|k: int|
                        0 <= k < next.len() && (#[trigger] next[k] is Delta || next[k] is Reasoning);
                    assert(front[k] == next[k]);
                    assert(brings_text(front));
                }
            }
            ended = match &events[i] {
                StreamEvent::Done => true,
                StreamEvent::Error(_) => true,
                _ => false,
            };
            let ghost before = chunks@;
            let ghost held = self.turn.kept();
            let emit = self.turn.push(copy_event(&events[i]));
            let ghost pieces = emit.0@;
            let mut sent_role = true;
            let mut more = emit_chunks(
                self.id.as_str(),
                self.created,
                self.model.as_str(),
                emit,
                &mut sent_role,
            );
            proof {
                lemma_shown(more@, pieces, self.id@, self.created, self.model@);
                lemma_chunks_show_concat(
                    before,
                    more@,
                    start.on_events(front).pieces,
                    piece_views(pieces),
                    self.id@,
                    self.created,
                    self.model@,
                );
                lemma_ids_sent(old(self).turn.kept(), held, before, more@, pieces);
            }
            chunks.append(&mut more);
            i += 1;
        }
        proof {
            lemma_taken(all, i as int);
            if ended {
                assert(is_last(all[i - 1]));
            } else {
                assert forall|k: int| 0 <= k < all.len() implies !is_last(#[trigger] all[k]) by {}
            }
        }
        (chunks, ended)
    }

    /// Takes in bytes of the gateway's stream. The second part of the result tells
    /// whether nothing more comes.
    pub fn on_bytes(&mut self, bytes: &[u8], elapsed: &str) -> (r: (Vec<ChatChunk>, bool))
        requires
            old(self).turn.wf(),
        ensures
            ({
                let d = old(self).decoder@.plus(bytes@).decode();
                let seen = taken(d.events);
                let turned = old(self).turn@.on_events(seen);
                &&& final(self).frames == wrap_add(old(self).frames, 1)
                &&& final(self).ctx.raw_upstream@ == old(self).ctx.raw_upstream@.pushed(bytes@)
                &&& final(self).decoder@ == d.state
                &&& final(self).turn@ == turned.state
                &&& chunks_show(
                    r.0@,
                    turned.pieces,
                    old(self).id@,
                    old(self).created,
                    old(self).model@,
                )
                &&& r.1 == has_last(d.events)
                &&& opt_text(final(self).first_token) == old(self).first_text(seen, elapsed@)
            }),
            ids_sent(old(self).turn, final(self).turn, r.0@),
            final(self).turn.wf(),
            final(self).drained == old(self).drained,
            final(self).goes_on(*old(self)),
    {
        self.frames = bump(self.frames);
        self.ctx.raw_upstream.push(bytes);
        let events = self.decoder.push(bytes);
        self.drive(events, elapsed)
    }

    /// The gateway's stream broke off.
    pub fn on_break(&mut self, detail: &str)
        requires
            old(self).turn.wf(),
        ensures
            final(self).turn@ == (TurnModel {
                failure: Some("스트림이 끊겼습니다: "@ + detail@),
                ..old(self).turn@
            }),
            final(self).turn.kept() == old(self).turn.kept(),
            final(self).turn.wf(),
            *final(self) == (StreamLog { turn: final(self).turn, ..*old(self) }),
    {
        self.turn.mark_failure("스트림이 끊겼습니다: ".to_owned().concat(detail));
    }

    /// The end of the gateway's stream: its last line, though incomplete, and what the
    /// turn held back.
    pub fn close(&mut self, elapsed: &str) -> (r: Vec<ChatChunk>)
        requires
            old(self).turn.wf(),
        ensures
            ({
                let d = old(self).decoder@.decode_end();
                let seen = taken(d.events);
                let turned = old(self).turn@.on_events(seen);
                let ended = turned.state.on_end();
                &&& final(self).decoder@ == d.state
                &&& final(self).turn@ == (TurnModel {
                    truncated: ended.state.truncated || d.state.truncated,
                    ..ended.state
                })
                &&& chunks_show(
                    r@,
                    turned.pieces + ended.pieces,
                    old(self).id@,
                    old(self).created,
                    old(self).model@,
                )
                &&& opt_text(final(self).first_token) == old(self).first_text(seen, elapsed@)
            }),
            ids_sent(old(self).turn, final(self).turn, r@),
            final(self).turn.wf(),
            final(self).drained,
            final(self).frames == old(self).frames,
            final(self).ctx == old(self).ctx,
            final(self).goes_on(*old(self)),
    {
        let events = self.decoder.finish();
        let (mut chunks, _) = self.drive(events, elapsed);
        let ghost first = chunks@;
        let ghost turned = old(self).turn@.on_events(taken(event_views(events@)));
        let ghost held = self.turn.kept();
        let emit = self.turn.finish();
        let ghost pieces = emit.0@;
        let mut sent_role = true;
        let mut more = emit_chunks(
            self.id.as_str(),
            self.created,
            self.model.as_str(),
            emit,
            &mut sent_role,
        );
        proof {
            lemma_shown(more@, pieces, self.id@, self.created, self.model@);
            lemma_chunks_show_concat(
                first,
                more@,
                turned.pieces,
                piece_views(pieces),
                self.id@,
                self.created,
                self.model@,
            );
            lemma_ids_sent(old(self).turn.kept(), held, first, more@, pieces);
        }
        chunks.append(&mut more);
        if self.decoder.is_truncated() {
            self.turn.mark_truncated();
        }
        self.drained = true;
        chunks
    }
}

fn copy_event(e: &StreamEvent) -> (r: StreamEvent)
    ensures
        r == *e,
{
    match e {
        StreamEvent::Delta(s) => StreamEvent::Delta(s.clone()),
        StreamEvent::Reasoning(s) => StreamEvent::Reasoning(s.clone()),
        StreamEvent::Reset => StreamEvent::Reset,
        StreamEvent::Finish(s) => StreamEvent::Finish(s.clone()),
        StreamEvent::Error(s) => StreamEvent::Error(s.clone()),
        StreamEvent::Done => StreamEvent::Done,
    }
}

proof fn lemma_ids_sent(
    start: Seq<ScannedCall>,
    held: Seq<ScannedCall>,
    before: Seq<ChatChunk>,
    more: Seq<ChatChunk>,
    pieces: Seq<Piece>,
)
    requires
        call_ids(held) == call_ids(start) + chunk_ids(before),
        more.len() == pieces.len(),
        forall|k: int|
            0 <= k < more.len() ==> holds_piece((#[trigger] more[k]).choices@[0].delta, pieces[k]),
    ensures
        call_ids(held + calls_of(pieces)) == call_ids(start) + chunk_ids(before + more),
{
    lemma_chunk_ids(more, pieces);
    lemma_chunk_ids_concat(before, more);
    assert(call_ids(held + calls_of(pieces)) =~= call_ids(held) + call_ids(calls_of(pieces)));
    assert(call_ids(start) + chunk_ids(before) + chunk_ids(more) =~= call_ids(start) + (chunk_ids(
        before,
    ) + chunk_ids(more)));
}

proof fn lemma_shown(
    chunks: Seq<ChatChunk>,
    pieces: Seq<Piece>,
    id: Seq<char>,
    created: i64,
    model: Seq<char>,
)
    requires
        calls_have_ids(pieces),
        chunks.len() == pieces.len(),
        forall|k: int|
            0 <= k < chunks.len() ==> {
                &&& is_chunk(#[trigger] chunks[k], id, created, model)
                &&& holds_piece(chunks[k].choices@[0].delta, pieces[k])
                &&& role_shown(chunks[k].choices@[0].delta, false)
            },
    ensures
        chunks_show(chunks, piece_views(pieces), id, created, model),
{
}

// ───────────────────────── the end of a stream ─────────────────────────

/// A frame at the end of a stream.
#[derive(Debug)]
pub enum LastFrame {
    /// Why the stream broke off.
    Failure(ErrorEnvelope),
    Chunk(ChatChunk),
    /// `[DONE]`.
    Done,
}

/// The chunk that ends the choice.
pub open spec fn is_finish(f: LastFrame, log: StreamLog, reason: Seq<char>) -> bool {
    f matches LastFrame::Chunk(c) && {
        &&& c.belongs_to(log.id@, log.created, log.model@)
        &&& c.choices@.len() == 1
        &&& c.choices@[0].index == 0
        &&& opt_text(c.choices@[0].finish_reason) == Some(reason)
        &&& c.choices@[0].delta.role is None
        &&& c.choices@[0].delta.content is None
        &&& c.choices@[0].delta.reasoning_content is None
        &&& c.choices@[0].delta.tool_calls is None
        &&& c.usage is None
        &&& c.system_fingerprint == log.fingerprint
    }
}

/// The chunk that tells the usage.
pub open spec fn is_usage(f: LastFrame, log: StreamLog, c: Counted) -> bool {
    f matches LastFrame::Chunk(chunk) && {
        &&& chunk.belongs_to(log.id@, log.created, log.model@)
        &&& chunk.choices@.len() == 0
        &&& chunk.usage == Some(c.usage)
        &&& chunk.system_fingerprint is None
    }
}

/// The frame that tells of a failure.
pub open spec fn is_failure(f: LastFrame, message: Seq<char>) -> bool {
    f matches LastFrame::Failure(env) && env.says(
        message,
        type_view(502),
        None,
        Some("upstream_error"@),
    )
}

impl StreamLog {
    /// The token counts of the turn.
    pub open spec fn counts(self) -> Counted {
        counted(
            self.decoder@.upstream_tokens,
            self.ctx.prompt_text@,
            self.turn@.completion(),
        )
    }

    /// The frames at the end of a stream: a failure, if there was one; the chunk that
    /// ends the choice; the usage, if it was asked for; `[DONE]`.
    pub open spec fn ends_with(self, frames: Seq<LastFrame>) -> bool {
        let failures: int = if self.turn@.failure is Some {
            1
        } else {
            0
        };
        let usages: int = if self.include_usage {
            1
        } else {
            0
        };
        &&& frames.len() == failures + usages + 2
        &&& self.turn@.failure matches Some(m) ==> is_failure(frames[0], m)
        &&& is_finish(frames[failures], self, self.turn@.reason())
        &&& self.include_usage ==> is_usage(frames[failures + 1], self, self.counts())
        &&& frames.last() is Done
    }

    pub fn last_frames(&mut self) -> (r: Vec<LastFrame>)
        ensures
            old(self).ends_with(r@),
            final(self).emitted_finish matches Some(s) && s@ == old(self).turn@.reason(),
            final(self).counted == (if old(self).include_usage {
                Some(old(self).counts())
            } else {
                old(self).counted
            }),
            *final(self) == (StreamLog {
                emitted_finish: final(self).emitted_finish,
                counted: final(self).counted,
                ..*old(self)
            }),
    {
        let mut out: Vec<LastFrame> = Vec::new();
        match self.turn.failure() {
            Some(message) => {
                out.push(
                    LastFrame::Failure(
                        ErrorEnvelope::new(
                            message.to_owned(),
                            openai_type(502),
                            Some("upstream_error".to_owned()),
                        ),
                    ),
                );
            },
            None => {},
        }
        let reason = self.turn.finish_reason();
        self.emitted_finish = Some(reason);
        let last = ChatChunk::new(
            self.id.as_str(),
            self.created,
            self.model.as_str(),
            Delta::default(),
            Some(reason.to_owned()),
        ).with_fingerprint(copy_text(&self.fingerprint));
        out.push(LastFrame::Chunk(last));
        if self.include_usage {
            let c = build(
                self.decoder.tokens(),
                self.ctx.prompt_text.as_str(),
                self.turn.completion_text().as_str(),
            );
            out.push(
                LastFrame::Chunk(
                    ChatChunk::usage_only(
                        self.id.as_str(),
                        self.created,
                        self.model.as_str(),
                        c.usage,
                    ),
                ),
            );
            self.counted = Some(c);
        }
        out.push(LastFrame::Done);
        out
    }

    // ───────────────────────── the log of a stream ─────────────────────────
    /// The reason that the client was told, as the log puts it.
    pub open spec fn told_reason(self) -> Seq<char> {
        match self.emitted_finish {
            Some(s) => s@,
            None => if self.drained {
                "stop"@
            } else {
                "(없음 · 클라이언트가 끊음)"@
            },
        }
    }

    pub open spec fn note_view(self) -> Option<Seq<char>> {
        if !self.drained {
            Some("클라이언트가 연결을 끊음"@)
        } else if self.turn@.failure is Some {
            Some("스트리밍 중 끊김"@)
        } else {
            unused_note(self.ctx, self.turn@)
        }
    }

    pub open spec fn body_view(self) -> Seq<char> {
        let text = body_view(self.turn@);
        match self.turn@.failure {
            Some(m) => if text.len() == 0 {
                m
            } else {
                text + "\n\n[중단] "@ + m
            },
            None => if text.len() > 0 {
                text
            } else if !self.drained {
                "(클라이언트가 먼저 끊어 받은 내용이 없습니다)"@
            } else {
                "(빈 응답)"@
            },
        }
    }

    pub open spec fn meta_lines(self) -> Seq<Seq<char>> {
        let a = push_some(
            seq![],
            match self.first_token {
                Some(t) => Some("첫 토큰 "@ + t@ + "s"@),
                None => None,
            },
        );
        let b = a.push(reason_line(self.told_reason(), self.turn@.upstream_finish)).push(
            "SSE "@ + dec(self.frames as nat) + "프레임"@,
        ).push(dec(self.turn@.raw_content.len()) + "자"@);
        let c = push_some(b, undecodable_line(self.decoder@.undecodable)).push(
            match self.counted {
                Some(c) => meta_view(c),
                None => "usage 미계산 (stream_options.include_usage 를 켜면 계산합니다)"@,
            },
        );
        push_some(
            push_some(c, reasoning_view(self.turn@)),
            turn_tool_view(self.ctx, self.turn@),
        ) + plan_lines(self.ctx)
    }

    /// The entry for a stream, whether it was read to its end or not.
    pub fn entry(&self, stamp: Stamp) -> (r: LogEntry)
        ensures
            r.stamped(stamp),
            self.ctx.is_told_by(r),
            r.tells(
                200,
                self.note_view() is Some,
                self.note_view(),
                if self.note_view() is Some {
                    self.note_view()
                } else {
                    summary_view(
                        opt_text(self.ctx.model_requested),
                        opt_text(self.ctx.model_label),
                    )
                },
                self.body_view(),
                join(self.meta_lines(), " · "@),
            ),
    {
        let mut meta: Vec<String> = Vec::new();
        assert(views(meta@) =~= seq![]);
        match &self.first_token {
            Some(t) => {
                let mut line = "첫 토큰 ".to_owned();
                line.append(t.as_str());
                line.append("s");
                push_line(&mut meta, Some(line));
            },
            None => {},
        }
        let told = match self.emitted_finish {
            Some(s) => s,
            None => {
                if self.drained {
                    "stop"
                } else {
                    "(없음 · 클라이언트가 끊음)"
                }
            },
        };
        push_line(&mut meta, Some(reason_text(told, self.turn.upstream_finish())));
        let mut line = "SSE ".to_owned();
        line.append(dec_u64(self.frames as u64).as_str());
        line.append("프레임");
        push_line(&mut meta, Some(line));
        push_line(&mut meta, Some(length_text(self.turn.raw_content())));
        push_line(&mut meta, undecodable_text(self.decoder.undecodable_count()));
        push_line(
            &mut meta,
            Some(
                match &self.counted {
                    Some(c) => meta_line(c),
                    None => "usage 미계산 (stream_options.include_usage 를 켜면 계산합니다)".to_owned(),
                },
            ),
        );
        push_line(&mut meta, reasoning_meta(&self.turn));
        push_line(&mut meta, turn_tool_meta(&self.ctx, &self.turn));
        let meta = with_lines(meta, plan_meta(&self.ctx));
        let note = if !self.drained {
            Some("클라이언트가 연결을 끊음".to_owned())
        } else if self.turn.failure().is_some() {
            Some("스트리밍 중 끊김".to_owned())
        } else {
            unused_tools_note(&self.ctx, &self.turn)
        };
        let text = log_body(&self.turn);
        let body = match self.turn.failure() {
            Some(m) => {
                if text.as_str().is_empty() {
                    m.to_owned()
                } else {
                    let mut out = text;
                    out.append("\n\n[중단] ");
                    out.append(m);
                    out
                }
            },
            None => {
                if !text.as_str().is_empty() {
                    text
                } else if !self.drained {
                    "(클라이언트가 먼저 끊어 받은 내용이 없습니다)".to_owned()
                } else {
                    "(빈 응답)".to_owned()
                }
            },
        };
        let failed = note.is_some();
        let summary = if failed {
            copy_text(&note)
        } else {
            self.ctx.success_summary()
        };
        self.ctx.entry(stamp, 200, failed, note, summary, body, joined(&meta, " · "))
    }
}

/// The line on the reason. Where the gateway gave another one, it is told, too.
pub open spec fn reason_line(told: Seq<char>, upstream: Option<Seq<char>>) -> Seq<char> {
    match upstream {
        Some(raw) => if raw != told {
            "finish_reason: "@ + told + " (사내: "@ + raw + ")"@
        } else {
            "finish_reason: "@ + told
        },
        None => "finish_reason: "@ + told,
    }
}

fn reason_text(told: &str, upstream: Option<&str>) -> (r: String)
    ensures
        r@ == reason_line(
            told@,
            match upstream {
                Some(s) => Some(s@),
                None => None,
            },
        ),
{
    let mut out = "finish_reason: ".to_owned();
    out.append(told);
    match upstream {
        Some(raw) => {
            if !same(raw, told) {
                out.append(" (사내: ");
                out.append(raw);
                out.append(")");
            }
        },
        None => {},
    }
    out
}

fn length_text(s: &str) -> (r: String)
    ensures
        r@ == dec(s@.len()) + "자"@,
{
    dec_u64(chars_of(s).len() as u64).concat("자")
}

pub open spec fn undecodable_line(n: u32) -> Option<Seq<char>> {
    if n > 0 {
        Some("해석하지 못한 프레임 "@ + dec(n as nat) + "개"@)
    } else {
        None
    }
}

fn undecodable_text(n: u32) -> (r: Option<String>)
    ensures
        opt_text(r) == undecodable_line(n),
{
    if n > 0 {
        let mut out = "해석하지 못한 프레임 ".to_owned();
        out.append(dec_u64(n as u64).as_str());
        out.append("개");
        Some(out)
    } else {
        None
    }
}

fn with_lines(a: Vec<String>, b: Vec<String>) -> (r: Vec<String>)
    ensures
        views(r@) == views(a@) + views(b@),
{
    let mut out = a;
    let mut more = b;
    let ghost x = out@;
    let ghost y = more@;
    out.append(&mut more);
    assert(views(out@) =~= views(x) + views(y));
    out
}

// ───────────────────────── a whole response ─────────────────────────

/// What a response's body comes to.
pub struct GatheredView {
    pub turn: TurnModel,
    /// There is a mark of success.
    pub success: bool,
    /// Why the filter blocked the answer.
    pub blocked: Option<Seq<char>>,
    pub tokens: Option<(u32, u32)>,
    /// The body was a stream after all.
    pub streamed: bool,
    pub undecodable: u32,
}

#[derive(Debug)]
pub struct Gathered {
    pub turn: Turn,
    pub success: bool,
    pub blocked: Option<String>,
    pub tokens: Option<(u32, u32)>,
    pub streamed: bool,
    pub undecodable: u32,
}

impl View for Gathered {
    type V = GatheredView;

    open spec fn view(&self) -> GatheredView {
        GatheredView {
            turn: self.turn@,
            success: self.success,
            blocked: opt_text(self.blocked),
            tokens: self.tokens,
            streamed: self.streamed,
            undecodable: self.undecodable,
        }
    }
}

/// The turn after these events, cut off or not, and ended.
pub open spec fn whole_turn(names: Seq<Seq<char>>, events: Seq<EventView>, truncated: bool) -> TurnModel {
    let t = TurnModel::fresh(names, true).on_events(events).state;
    TurnModel { truncated: t.truncated || truncated, ..t }.on_end().state
}

/// The chunk in a response's tree. One that cannot be read is empty.
pub open spec fn tree_chunk(tree: JsonView) -> ChunkView {
    match ChunkView::read(answer_object(tree)) {
        Some(c) => c,
        None => ChunkView::nothing(),
    }
}

/// What a JSON response comes to, else its error.
pub open spec fn gather_tree_view(tree: JsonView, names: Seq<Seq<char>>) -> Result<
    GatheredView,
    Seq<char>,
> {
    let c = tree_chunk(tree);
    if c.is_error() {
        Err(c.error_says())
    } else {
        Ok(
            GatheredView {
                turn: whole_turn(names, whole_events(c), c.truncated == Some(true)),
                success: c.is_success(),
                blocked: c.blocked(),
                tokens: c.tokens(),
                streamed: false,
                undecodable: 0,
            },
        )
    }
}

/// What a response that is a stream comes to.
pub open spec fn gather_stream_view(raw: Seq<char>, names: Seq<Seq<char>>) -> GatheredView {
    let d = DecoderView::fresh().plus(encode_utf8(raw)).decode();
    let e = d.state.decode_end();
    GatheredView {
        turn: whole_turn(names, d.events + e.events, e.state.truncated),
        success: e.state.finish_reason is Some,
        blocked: None,
        tokens: e.state.upstream_tokens,
        streamed: true,
        undecodable: e.state.undecodable,
    }
}

fn feed_all(turn: Turn, events: Vec<StreamEvent>) -> (r: Turn)
    requires
        turn.wf(),
    ensures
        r@ == turn@.on_events(event_views(events@)).state,
        r.wf(),
{
    let mut out = turn;
    let ghost start = out@;
    let ghost all = event_views(events@);
    let mut i: usize = 0;
    assert(all.take(0) =~= seq![]);
    while i < events.len()
        invariant
            i <= events@.len() == all.len(),
            all == event_views(events@),
            out@ == start.on_events(all.take(i as int)).state,
            out.wf(),
        decreases events@.len() - i,
    {
        proof {
            assert(all.take(i + 1).drop_last() =~= all.take(i as int));
            assert(all.take(i + 1).last() == all[i as int]);
        }
        out.feed(copy_event(&events[i]));
        i += 1;
    }
    assert(all.take(all.len() as int) =~= all);
    out
}

/// Runs a whole answer through a turn, as a stream is.
fn run_turn(names: Vec<String>, events: Vec<StreamEvent>, truncated: bool) -> (r: Turn)
    ensures
        r@ == whole_turn(views(names@), event_views(events@), truncated),
        r.wf(),
{
    let mut turn = feed_all(Turn::new(names, true), events);
    if truncated {
        turn.mark_truncated();
    }
    let _ = turn.finish();
    turn
}

/// Reads the answer out of a response's tree.
pub fn gather_tree(tree: &Json, tool_names: Vec<String>) -> (r: Result<Gathered, FabrixError>)
    ensures
        match gather_tree_view(tree@, views(tool_names@)) {
            Ok(g) => r matches Ok(out) && out@ == g && out.turn.wf(),
            Err(m) => r matches Err(FabrixError::Upstream { status, message }) && status == 502
                && message@ == m,
        },
{
    let chunk = match FabrixChunk::from_json(&extract_object(tree)) {
        Some(c) => c,
        None => FabrixChunk::default(),
    };
    if chunk.looks_like_error() {
        return Err(FabrixError::Upstream { status: 502, message: chunk.error_text() });
    }
    let truncated = match chunk.truncated {
        Some(b) => b,
        None => false,
    };
    let turn = run_turn(tool_names, nonstream_events(&chunk), truncated);
    Ok(
        Gathered {
            turn,
            success: chunk.looks_successful(),
            blocked: chunk.filter_message(),
            tokens: chunk.upstream_tokens(),
            streamed: false,
            undecodable: 0,
        },
    )
}

/// Reads the answer out of a response that is a stream, though none was asked for.
pub fn gather_stream(raw: &str, tool_names: Vec<String>) -> (r: Gathered)
    ensures
        r@ == gather_stream_view(raw@, views(tool_names@)),
        r.turn.wf(),
{
    let mut decoder = StreamDecoder::new();
    let mut events = decoder.push(raw.as_bytes());
    let ghost first = event_views(events@);
    let mut last = decoder.finish();
    let ghost second = event_views(last@);
    events.append(&mut last);
    assert(event_views(events@) =~= first + second);
    let turn = run_turn(tool_names, events, decoder.is_truncated());
    Gathered {
        turn,
        success: decoder.saw_finish(),
        blocked: None,
        tokens: decoder.tokens(),
        streamed: true,
        undecodable: decoder.undecodable_count(),
    }
}

/// What a response's body comes to, else its error.
pub open spec fn gather_view(raw: Seq<char>, names: Seq<Seq<char>>) -> Result<
    GatheredView,
    Seq<char>,
> {
    match json_parse(raw) {
        Ok(tree) => gather_tree_view(tree, names),
        Err(_) => Ok(gather_stream_view(raw, names)),
    }
}

pub fn gather(raw: &str, tool_names: Vec<String>) -> (r: Result<Gathered, FabrixError>)
    ensures
        match gather_view(raw@, views(tool_names@)) {
            Ok(g) => r matches Ok(out) && out@ == g && out.turn.wf(),
            Err(m) => r matches Err(FabrixError::Upstream { status, message }) && status == 502
                && message@ == m,
        },
{
    match Json::parse(raw) {
        Ok(tree) => gather_tree(&tree, tool_names),
        Err(_) => Ok(gather_stream(raw, tool_names)),
    }
}

/// A completion for the client, and what the log is told of it.
#[derive(Debug)]
pub struct Collected {
    pub completion: ChatCompletion,
    pub counted: Counted,
    pub note: Option<String>,
    pub body: String,
    pub meta: String,
}

/// The tool calls of a message are these.
pub open spec fn tool_calls_are(list: Option<Vec<ToolCall>>, calls: Seq<Call>) -> bool {
    if calls.len() == 0 {
        list is None
    } else {
        list matches Some(v) && v@.len() == calls.len() && forall|k: int|
            0 <= k < v@.len() ==> {
                &&& (#[trigger] v@[k]).function.name@ == calls[k].0
                &&& v@[k].function.arguments@ == calls[k].1
                &&& v@[k].kind@ == "function"@
                &&& call_id(v@[k].id@)
                &&& well_written(v@[k].function.arguments@)
            }
    }
}

/// The ids of the tool calls of a message.
pub open spec fn message_ids(list: Option<Vec<ToolCall>>) -> Seq<Seq<char>> {
    seq_of(list).map_values(|c: ToolCall| c.id@)
}

pub open spec fn gathered_counts(ctx: Ctx, g: GatheredView) -> Counted {
    counted(g.tokens, ctx.prompt_text@, g.turn.completion())
}

/// The completion tells what was gathered.
pub open spec fn completes(
    c: ChatCompletion,
    ctx: Ctx,
    g: GatheredView,
    id: Seq<char>,
    created: i64,
    model: Seq<char>,
    fingerprint: Option<String>,
) -> bool {
    &&& c.id@ == id
    &&& c.object@ == "chat.completion"@
    &&& c.created == created
    &&& c.model@ == model
    &&& c.usage == Some(gathered_counts(ctx, g).usage)
    &&& c.system_fingerprint == fingerprint
    &&& c.choices@.len() == 1
    &&& c.choices@[0].index == 0
    &&& c.choices@[0].logprobs is None
    &&& opt_text(c.choices@[0].finish_reason) == Some(g.turn.reason())
    &&& c.choices@[0].message.role@ == "assistant"@
    &&& opt_text(c.choices@[0].message.content) == g.turn.message_content()
    &&& opt_text(c.choices@[0].message.reasoning_content) == (if g.turn.reasoning.len() == 0 {
        None
    } else {
        Some(g.turn.reasoning)
    })
    &&& tool_calls_are(c.choices@[0].message.tool_calls, g.turn.calls)
}

pub open spec fn gathered_lines(ctx: Ctx, g: GatheredView) -> Seq<Seq<char>> {
    let a = seq![
        reason_line(g.turn.reason(), g.turn.upstream_finish),
        dec(g.turn.raw_content.len()) + "자"@,
        meta_view(gathered_counts(ctx, g)),
    ];
    let b = push_some(
        a,
        if g.streamed {
            Some("SSE 본문을 합쳐 해석"@)
        } else {
            None
        },
    );
    push_some(
        push_some(push_some(b, undecodable_line(g.undecodable)), reasoning_view(g.turn)),
        turn_tool_view(ctx, g.turn),
    ) + plan_lines(ctx)
}

/// Why an answer in which there is nothing cannot be handed on. An empty answer with a
/// mark of success is an answer.
pub open spec fn nothing_gathered(g: GatheredView, raw: Seq<char>, e: FabrixError) -> bool {
    if g.blocked is Some {
        e matches FabrixError::Upstream { status, message } && status == 502 && message@ == g.blocked->0
    } else {
        e matches FabrixError::BadPayload(m) && m@ == "본문 앞부분: "@ + preview_view(raw, 200)
    }
}

pub open spec fn is_nothing(g: GatheredView) -> bool {
    g.turn.silent() && (g.blocked is Some || !g.success)
}

impl Ctx {
    fn tool_calls_of(turn: &Turn) -> (r: Option<Vec<ToolCall>>)
        requires
            turn.wf(),
        ensures
            tool_calls_are(r, turn@.calls),
            message_ids(r) == call_ids(turn.kept()),
    {
        let calls = turn.calls();
        let n: usize = calls.len();
        assert(scanned_views(calls@).len() == calls@.len());
        if n == 0 {
            assert(message_ids(None) =~= call_ids(turn.kept()));
            return None;
        }
        let mut out: Vec<ToolCall> = Vec::new();
        let mut i: usize = 0;
        while i < n
            invariant
                i <= n == calls@.len(),
                scanned_views(calls@) == turn@.calls,
                numbered(calls@, turn@.calls, 0),
                out@.len() == i,
                forall|k: int| 0 <= k < i ==> (#[trigger] out@[k]).id@ == calls@[k].id@,
                forall|k: int|
                    0 <= k < i ==> {
                        &&& (#[trigger] out@[k]).function.name@ == turn@.calls[k].0
                        &&& out@[k].function.arguments@ == turn@.calls[k].1
                        &&& out@[k].kind@ == "function"@
                        &&& call_id(out@[k].id@)
                        &&& well_written(out@[k].function.arguments@)
                    },
            decreases n - i,
        {
            assert(calls@[i as int].name@ == turn@.calls[i as int].0);
            out.push(ToolCall::from(&calls[i]));
            i += 1;
        }
        assert(message_ids(Some(out)) =~= call_ids(turn.kept()));
        Some(out)
    }

    /// Makes a completion of what was gathered. `raw` is the body that it came from.
    pub fn complete(
        &self,
        g: &Gathered,
        raw: &str,
        id: String,
        created: i64,
        model: String,
        fingerprint: Option<String>,
    ) -> (r: Result<Collected, FabrixError>)
        requires
            g.turn.wf(),
        ensures
            if is_nothing(g@) {
                r matches Err(e) && nothing_gathered(g@, raw@, e)
            } else {
                r matches Ok(c) && {
                    &&& completes(c.completion, *self, g@, id@, created, model@, fingerprint)
                    &&& message_ids(c.completion.choices@[0].message.tool_calls) == call_ids(
                        g.turn.kept(),
                    )
                    &&& c.counted == gathered_counts(*self, g@)
                    &&& opt_text(c.note) == unused_note(*self, g@.turn)
                    &&& c.body@ == body_view(g@.turn)
                    &&& c.meta@ == join(gathered_lines(*self, g@), " · "@)
                }
            },
    {
        if g.turn.is_empty() {
            match &g.blocked {
                Some(reason) => {
                    return Err(FabrixError::Upstream { status: 502, message: reason.clone() });
                },
                None => {},
            }
            if !g.success {
                let mut message = "본문 앞부분: ".to_owned();
                message.append(preview(raw, 200).as_str());
                return Err(FabrixError::BadPayload(message));
            }
        }
        let reason = g.turn.finish_reason();
        let c = build(
            g.tokens,
            self.prompt_text.as_str(),
            g.turn.completion_text().as_str(),
        );
        let mut choices: Vec<Choice> = Vec::new();
        choices.push(
            Choice {
                index: 0,
                message: AssistantMessage {
                    role: "assistant",
                    content: g.turn.assistant_content(),
                    reasoning_content: g.turn.reasoning_field(),
                    tool_calls: Ctx::tool_calls_of(&g.turn),
                },
                finish_reason: Some(reason.to_owned()),
                logprobs: None,
            },
        );
        let completion = ChatCompletion {
            id,
            object: "chat.completion",
            created,
            model,
            choices,
            usage: Some(c.usage),
            system_fingerprint: fingerprint,
        };
        let mut meta: Vec<String> = Vec::new();
        meta.push(reason_text(reason, g.turn.upstream_finish()));
        meta.push(length_text(g.turn.raw_content()));
        meta.push(meta_line(&c));
        assert(views(meta@) =~= seq![
            reason_line(g@.turn.reason(), g@.turn.upstream_finish),
            dec(g@.turn.raw_content.len()) + "자"@,
            meta_view(gathered_counts(*self, g@)),
        ]);
        if g.streamed {
            push_line(&mut meta, Some("SSE 본문을 합쳐 해석".to_owned()));
        }
        push_line(&mut meta, undecodable_text(g.undecodable));
        push_line(&mut meta, reasoning_meta(&g.turn));
        push_line(&mut meta, turn_tool_meta(self, &g.turn));
        let meta = with_lines(meta, plan_meta(self));
        Ok(
            Collected {
                completion,
                counted: c,
                note: unused_tools_note(self, &g.turn),
                body: log_body(&g.turn),
                meta: joined(&meta, " · "),
            },
        )
    }

    /// Makes a completion of a response's body.
    pub fn collect(
        &self,
        raw: &str,
        tool_names: Vec<String>,
        id: String,
        created: i64,
        model: String,
        fingerprint: Option<String>,
    ) -> (r: Result<Collected, FabrixError>)
        ensures
            match gather_view(raw@, views(tool_names@)) {
                Err(m) => r matches Err(FabrixError::Upstream { status, message }) && status == 502
                    && message@ == m,
                Ok(g) => if is_nothing(g) {
                    r matches Err(e) && nothing_gathered(g, raw@, e)
                } else {
                    r matches Ok(c) && {
                        &&& completes(c.completion, *self, g, id@, created, model@, fingerprint)
                        &&& c.counted == gathered_counts(*self, g)
                        &&& opt_text(c.note) == unused_note(*self, g.turn)
                        &&& c.body@ == body_view(g.turn)
                        &&& c.meta@ == join(gathered_lines(*self, g), " · "@)
                    }
                },
            },
    {
        match gather(raw, tool_names) {
            Ok(g) => self.complete(&g, raw, id, created, model, fingerprint),
            Err(e) => Err(e),
        }
    }

    /// The entry for a completion.
    pub fn collected_entry(&self, stamp: Stamp, c: &Collected) -> (r: LogEntry)
        ensures
            r.stamped(stamp),
            self.is_told_by(r),
            r.tells(
                200,
                false,
                opt_text(c.note),
                summary_view(opt_text(self.model_requested), opt_text(self.model_label)),
                c.body@,
                c.meta@,
            ),
    {
        self.entry(
            stamp,
            200,
            false,
            copy_text(&c.note),
            self.success_summary(),
            c.body.clone(),
            c.meta.clone(),
        )
    }
}

} // verus!
