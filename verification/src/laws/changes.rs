//! What the operations that change something do to it.

use vstd::prelude::*;
use vstd::string::*;

use crate::config::{Config, Stats};
use crate::json::Json;
use crate::logstore::{Kind, LogEntry, LogStore, RawBuf};
use crate::openai::{opt_text, ChatRequest};
use crate::proxy::alias::{default_model, find_model, ResolvedModel};
use crate::proxy::chat_log::Ctx;
use crate::proxy::chat_reply::{LastFrame, StreamLog};
use crate::proxy::chat_request::{Prepared, Refusal};
use crate::proxy::decode::StreamEvent;
use crate::proxy::scan::{lemma_one_seg, scan, ChannelView, Seg};
use crate::proxy::tools::{Channel, ScanOut, ToolCallScanner};
use crate::proxy::turn::{Emit, Turn};
use crate::proxy::usage::{build, Counted};
use crate::proxy::validate::{plan, Invalid, Plan};
use crate::state::AppState;
use crate::text::{blank, trim, views};

use super::gate::law_calls_are_counted;
use super::reply::{law_events, law_the_end_of_a_stream};

verus! {

// ───────────────────────── the log and the figures ─────────────────────────

/// The log has the newest entry first, the others behind it in their order, and keeps
/// fifty of them.
pub proof fn law_the_newest_comes_first(store: &mut LogStore, entry: LogEntry, k: int)
    requires
        call_ensures(LogStore::push, (store, entry), ()),
        old(store)@.len() <= 50,
    ensures
        final(store)@[0] == entry,
        old(store)@.len() < 50 ==> final(store)@.len() == old(store)@.len() + 1,
        old(store)@.len() == 50 ==> final(store)@.len() == 50,
        0 < k < final(store)@.len() ==> final(store)@[k] == old(store)@[k - 1],
{
}

/// Of what goes over the wire the first 256 KiB are kept, byte for byte, and the rest is
/// counted.
pub proof fn law_the_wire_is_kept(buf: &mut RawBuf, chunk: &[u8])
    requires
        call_ensures(RawBuf::push, (buf, chunk), ()),
        old(buf)@.bytes.len() <= 262144,
        old(buf)@.dropped + chunk@.len() <= usize::MAX,
    ensures
        !old(buf)@.enabled ==> final(buf)@ == old(buf)@,
        old(buf)@.enabled && old(buf)@.bytes.len() + chunk@.len() <= 262144 ==> final(buf)@.bytes
            == old(buf)@.bytes + chunk@ && final(buf)@.dropped == old(buf)@.dropped,
        old(buf)@.enabled && old(buf)@.bytes.len() + chunk@.len() > 262144 ==> final(buf)@.bytes == (
        old(buf)@.bytes + chunk@).take(262144) && final(buf)@.dropped == old(buf)@.dropped
            + old(buf)@.bytes.len() + chunk@.len() - 262144,
{
    super::log::law_the_wire(old(buf)@, chunk@);
}

/// A call is counted once in all and once for its kind, and only there.
pub proof fn law_figures(stats: &mut Stats, kind: Kind, at: &str, today: &str)
    requires
        call_ensures(Stats::count, (stats, kind, at, today), ()),
        old(stats)@.total < u64::MAX,
        old(stats)@.chat < u64::MAX,
        old(stats)@.models < u64::MAX,
        old(stats)@.images < u64::MAX,
    ensures
        final(stats)@.date == today@ && final(stats)@.last_call_at == Some(at@),
        old(stats)@.date == today@ ==> {
            &&& final(stats)@.total == old(stats)@.total + 1
            &&& final(stats)@.chat == old(stats)@.chat + (if kind == Kind::Chat {
                1int
            } else {
                0
            })
            &&& final(stats)@.models == old(stats)@.models + (if kind == Kind::Models {
                1int
            } else {
                0
            })
            &&& final(stats)@.images == old(stats)@.images + (if kind == Kind::Images {
                1int
            } else {
                0
            })
        },
        old(stats)@.date != today@ ==> final(stats)@.total == 1 && final(stats)@.chat
            + final(stats)@.models + final(stats)@.images == 1,
{
    law_calls_are_counted(old(stats)@, kind, at@, today@);
}

/// A call that is over is put into the log and counted; the settings stay, and so does
/// what is being served.
pub proof fn law_a_call_is_recorded(state: &mut AppState, entry: LogEntry, today: &str)
    requires
        call_ensures(AppState::record, (state, entry, today), ()),
        old(state).stats@.date == today@,
        old(state).stats@.total < u64::MAX,
    ensures
        final(state).logs@[0] == entry,
        final(state).stats@.total == old(state).stats@.total + 1,
        final(state).stats@.last_call_at == Some(entry.ts@),
        final(state).config == old(state).config,
        final(state).serving == old(state).serving,
        final(state).models_cache == old(state).models_cache,
{
}

/// New settings take the place of the old ones, and the list of models is forgotten;
/// the log, the figures and what is being served stay.
pub proof fn law_settings_are_replaced(state: &mut AppState, config: Config)
    requires
        call_ensures(AppState::replace_config, (state, config), ()),
    ensures
        final(state).config == config,
        final(state).models_cache is None,
        !final(state).first_run,
        final(state).logs == old(state).logs,
        final(state).stats == old(state).stats,
        final(state).serving == old(state).serving,
{
}

/// Figures that are written are not written again for two seconds, unless it is demanded.
pub proof fn law_figures_are_written(state: &mut AppState, force: bool, now: u64, r: bool)
    requires
        call_ensures(AppState::flush_due, (state, force, now), r),
    ensures
        r <==> force || old(state).stats_flushed_at is None || now
            >= old(state).stats_flushed_at->0 + 2000,
        r ==> final(state).stats_flushed_at == Some(now),
        !r ==> final(state).stats_flushed_at == old(state).stats_flushed_at,
        final(state).stats == old(state).stats && final(state).logs == old(state).logs,
{
}

// ───────────────────────── a request ─────────────────────────

/// A request is refused if it is not in order, and the refusal says what is wrong; what
/// it asks for is noted either way.
pub proof fn law_requests_are_checked(
    ctx: &mut Ctx,
    req: &ChatRequest,
    incoming: &Json,
    r: Result<(), Refusal>,
    p: Result<Plan, Invalid>,
)
    requires
        call_ensures(Ctx::check, (ctx, req, incoming), r),
        call_ensures(plan, (req, incoming), p),
    ensures
        r is Ok <==> p is Ok,
        final(ctx).stream <==> req.stream == Some(true),
        final(ctx).model_requested == req.model,
        final(ctx).temperature_requested == req.temperature,
        final(ctx).client == old(ctx).client && final(ctx).req_openai == old(ctx).req_openai,
        p is Ok ==> {
            &&& final(ctx).plan.include_usage == p->Ok_0.include_usage
            &&& final(ctx).plan.images_dropped == p->Ok_0.images_dropped
            &&& views(final(ctx).plan.unknown@) == views(p->Ok_0.unknown@)
        },
        r matches Err(refusal) ==> {
            let e = p->Err_0;
            &&& refusal.status == 400
            &&& refusal.envelope.error.message@ == e.message@
            &&& opt_text(refusal.envelope.error.param) == opt_text(e.param)
            &&& opt_text(refusal.envelope.error.code) == Some(e.code@)
        },
{
}

/// The request goes to the model that the client named, or to the default one where it
/// named none; a name that is nobody's is refused with 404, and so is nothing else.
pub proof fn law_requests_are_prepared(
    ctx: &mut Ctx,
    cfg: &Config,
    req: &ChatRequest,
    models: &[ResolvedModel],
    r: Result<Prepared, Refusal>,
    name: &str,
    alias: &str,
    asked: Option<&ResolvedModel>,
    usual: Option<&ResolvedModel>,
)
    requires
        call_ensures(Ctx::prepare, (ctx, cfg, req, models), r),
        call_ensures(find_model, (models, name), asked),
        call_ensures(default_model, (models, alias), usual),
        alias@ == cfg.default_model_alias@,
        req.model is Some ==> name@ == trim(req.model->0@),
    ensures
        ({
            let named = req.model is Some && !blank(req.model->0@);
            let model = if named {
                asked
            } else {
                usual
            };
            &&& model is None ==> r is Err && r->Err_0.status == (if named {
                404int
            } else {
                502
            })
            &&& model is Some && r is Err ==> r->Err_0.status == 400
            &&& r matches Ok(p) ==> {
                &&& model is Some
                &&& views(p.payload.model_ids@) == seq![model->0.model_id@]
                &&& p.is_for(*cfg, *req, *model->0)
                &&& opt_text(final(ctx).model_id) == Some(model->0.model_id@)
                &&& opt_text(final(ctx).model_label) == Some(model->0.label@)
                &&& final(ctx).model_defaulted == !named
            }
        }),
{
}

// ───────────────────────── a turn and its end ─────────────────────────

/// What an event does to a turn.
pub proof fn law_a_turn_goes_on(turn: &mut Turn, event: StreamEvent, r: Emit)
    requires
        old(turn).wf(),
        call_ensures(Turn::push, (turn, event), r),
    ensures
        event matches StreamEvent::Delta(s) ==> final(turn)@.raw_content == old(turn)@.raw_content
            + s@ && final(turn)@.raw_reasoning == old(turn)@.raw_reasoning,
        event matches StreamEvent::Reasoning(s) ==> final(turn)@.raw_reasoning
            == old(turn)@.raw_reasoning + s@ && final(turn)@.raw_content == old(turn)@.raw_content,
        event matches StreamEvent::Finish(s) ==> final(turn)@.upstream_finish == Some(s@)
            && final(turn)@.content == old(turn)@.content && r.0@.len() == 0,
        event matches StreamEvent::Error(s) ==> final(turn)@.failure == Some(s@)
            && final(turn)@.content == old(turn)@.content && r.0@.len() == 0,
        event is Done ==> final(turn)@.done && r.0@.len() == 0,
        event is Reset ==> final(turn)@.content.len() == 0 && final(turn)@.reasoning
            == old(turn)@.reasoning && r.0@.len() == 0,
        final(turn).wf(),
{
    let pieces = crate::proxy::turn::piece_views(r.0@);
    assert(pieces.len() == r.0@.len());
    match event {
        StreamEvent::Delta(s) => law_events(old(turn)@, s@),
        StreamEvent::Reasoning(s) => law_events(old(turn)@, s@),
        StreamEvent::Finish(s) => law_events(old(turn)@, s@),
        StreamEvent::Error(s) => law_events(old(turn)@, s@),
        _ => law_events(old(turn)@, seq![]),
    }
}

/// A scanner that is on hands on what scanning gives; one that is off hands on all.
pub proof fn law_scanning_on(scanner: &mut ToolCallScanner, ch: Channel, delta: &str, r: ScanOut, k: int)
    requires
        call_ensures(ToolCallScanner::push_on, (scanner, ch, delta), r),
    ensures
        !old(scanner)@.enabled ==> r.text@ == delta@ && r.calls@.len() == 0,
        old(scanner)@.enabled ==> {
            let held = if ch == Channel::Content {
                old(scanner)@.content
            } else {
                old(scanner)@.reasoning
            };
            let step = scan(
                ChannelView { buf: held.buf + delta@, in_call: held.in_call },
                old(scanner)@.names,
                false,
            );
            &&& r.text@ == step.text()
            &&& r.calls@.len() == step.calls().len()
            &&& 0 <= k < r.calls@.len() ==> r.calls@[k].name@ == step.calls()[k].0
                && r.calls@[k].arguments@ == step.calls()[k].1
            &&& ch == Channel::Content ==> final(scanner)@.content == step.state
                && final(scanner)@.reasoning == old(scanner)@.reasoning
            &&& ch == Channel::Reasoning ==> final(scanner)@.reasoning == step.state
                && final(scanner)@.content == old(scanner)@.content
        },
        final(scanner)@.names == old(scanner)@.names,
{
    lemma_one_seg(Seg::Prose(delta@));
}

/// The frames that end a stream: its failure, if it has one, its reason, its usage, if
/// that was asked for, and the end mark. The usage tells the prompt's count as the
/// prompt's and the completion's as the completion's.
pub proof fn law_last_frames(
    log: &mut StreamLog,
    r: Vec<LastFrame>,
    reason: &'static str,
    prompt: &str,
    whole: String,
    said: &str,
    counted: Counted,
)
    requires
        call_ensures(StreamLog::last_frames, (log,), r),
        call_ensures(Turn::finish_reason, (&old(log).turn,), reason),
        call_ensures(Turn::completion_text, (&old(log).turn,), whole),
        prompt@ == old(log).ctx.prompt_text@,
        said@ == whole@,
        call_ensures(build, (old(log).decoder@.upstream_tokens, prompt, said), counted),
    ensures
        r@[r@.len() - 1] is Done,
        old(log).include_usage ==> {
            let f = r@[r@.len() - 2];
            &&& f is Chunk && f->Chunk_0.usage is Some
            &&& f->Chunk_0.usage->0.prompt_tokens == counted.usage.prompt_tokens
            &&& f->Chunk_0.usage->0.completion_tokens == counted.usage.completion_tokens
        },
        !old(log).include_usage ==> {
            let f = r@[r@.len() - 2];
            f is Chunk && f->Chunk_0.usage is None && opt_text(
                f->Chunk_0.choices@[0].finish_reason,
            ) == Some(reason@)
        },
        final(log).emitted_finish is Some && final(log).emitted_finish->0@ == reason@,
        old(log).turn@.failure is Some ==> r@[0] is Failure,
{
    law_the_end_of_a_stream(*old(log), r@, reason, prompt, whole, said, counted);
}

/// Bytes that come in are kept as they came, and counted as a frame.
pub proof fn law_bytes_come_in(
    log: &mut StreamLog,
    bytes: &[u8],
    elapsed: &str,
    r: (Vec<crate::openai::ChatChunk>, bool),
)
    requires
        old(log).turn.wf(),
        call_ensures(StreamLog::on_bytes, (log, bytes, elapsed), r),
        old(log).frames < u32::MAX,
    ensures
        final(log).frames == old(log).frames + 1,
        old(log).ctx.raw_upstream@.enabled && old(log).ctx.raw_upstream@.bytes.len() + bytes@.len()
            <= 262144 ==> final(log).ctx.raw_upstream@.bytes == old(log).ctx.raw_upstream@.bytes
            + bytes@,
        final(log).id == old(log).id && final(log).model == old(log).model,
        final(log).turn.wf(),
{
}

} // verus!
