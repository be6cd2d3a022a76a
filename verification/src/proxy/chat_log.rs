//! What the log keeps of a chat call.

use vstd::prelude::*;
use vstd::string::*;

use crate::config::{origin, Config};
use crate::logstore::{Kind, LogEntry, RawBuf, RawWire, Stamp};
use crate::number::{Mark, Real};
use crate::openai::{copy_text, opt_text, ErrorEnvelope};
use crate::text::{chars_of, dec, dec_u64, join, joined, same, views};

use super::fabrix::{str_views, FabrixError, MESSAGES_PATH};
use super::gate::{fabrix_headers_line, headers_line};
use super::request::{temperature_was_clamped, too_hot};
use super::turn::{ToolStats, Turn, TurnModel};
use super::validate::{note_if, Plan};

verus! {

/// What is known of a chat call while it runs.
#[derive(Debug)]
pub struct Ctx {
    pub stream: bool,
    pub client: Option<String>,
    pub model_requested: Option<String>,
    pub model_alias: Option<String>,
    pub model_id: Option<String>,
    pub model_label: Option<String>,
    pub req_openai: String,
    pub req_fabrix: String,
    pub req_fabrix_headers: String,
    pub fabrix_url: String,
    /// How many tools the client declared.
    pub tools_declared: usize,
    /// They became a convention in the prompt.
    pub tools_emulated: bool,
    /// The client itself switched them off.
    pub tools_choice_none: bool,
    pub plan: Plan,
    /// The client named no model.
    pub model_defaulted: bool,
    pub temperature_requested: Option<Real>,
    /// The prompt as it was sent.
    pub prompt_text: String,
    /// What the gateway sent. It is always kept.
    pub raw_upstream: RawBuf,
    /// What the client was sent.
    pub raw_client: RawBuf,
}

// ───────────────────────── lines ─────────────────────────

/// The line on the tools. It tells tools that were dropped from tools that the model
/// did not use.
pub open spec fn tool_view(
    declared: nat,
    emulated: bool,
    choice_none: bool,
    stats: ToolStats,
) -> Option<Seq<char>> {
    let head = "도구 "@ + dec(declared);
    if declared == 0 {
        None
    } else if !emulated {
        Some(
            head + if choice_none {
                "개 선언 · 클라이언트가 tool_choice: none 으로 껐음"@
            } else {
                "개 선언 · 에뮬레이션 꺼짐 — 무시함"@
            },
        )
    } else {
        let line = if stats.calls == 0 {
            head + "개 선언 · 호출 0건 — 모델이 규약을 따르지 않음"@
        } else {
            head + "개 선언 · 호출 "@ + dec(stats.calls as nat) + "건"@
        };
        let line = if stats.in_reasoning > 0 {
            line + " · 그중 "@ + dec(stats.in_reasoning as nat) + "건은 추론 채널에서"@
        } else {
            line
        };
        Some(
            if stats.rejected > 0 {
                line + " · 형식 오류 "@ + dec(stats.rejected as nat) + "건은 텍스트로 되돌림"@
            } else {
                line
            },
        )
    }
}

pub fn tool_meta(declared: usize, emulated: bool, choice_none: bool, stats: &ToolStats) -> (r: Option<
    String,
>)
    ensures
        opt_text(r) == tool_view(declared as nat, emulated, choice_none, *stats),
{
    if declared == 0 {
        return None;
    }
    let mut line = "도구 ".to_owned();
    line.append(dec_u64(declared as u64).as_str());
    if !emulated {
        if choice_none {
            line.append("개 선언 · 클라이언트가 tool_choice: none 으로 껐음");
        } else {
            line.append("개 선언 · 에뮬레이션 꺼짐 — 무시함");
        }
        return Some(line);
    }
    if stats.calls == 0 {
        line.append("개 선언 · 호출 0건 — 모델이 규약을 따르지 않음");
    } else {
        line.append("개 선언 · 호출 ");
        line.append(dec_u64(stats.calls as u64).as_str());
        line.append("건");
    }
    if stats.in_reasoning > 0 {
        line.append(" · 그중 ");
        line.append(dec_u64(stats.in_reasoning as u64).as_str());
        line.append("건은 추론 채널에서");
    }
    if stats.rejected > 0 {
        line.append(" · 형식 오류 ");
        line.append(dec_u64(stats.rejected as u64).as_str());
        line.append("건은 텍스트로 되돌림");
    }
    Some(line)
}

/// The gateway did not send a single character.
pub open spec fn said_nothing(t: TurnModel) -> bool {
    t.raw_content.len() == 0 && t.raw_reasoning.len() == 0
}

/// The line on the tools of a turn. Where the gateway said nothing, the model had no
/// occasion to keep to the convention.
pub open spec fn turn_tool_view(ctx: Ctx, t: TurnModel) -> Option<Seq<char>> {
    if ctx.tools_declared > 0 && ctx.tools_emulated && t.stats().calls == 0 && said_nothing(t) {
        Some(
            "도구 "@ + dec(ctx.tools_declared as nat)
                + "개 선언 · 사내 응답이 비어 판단할 근거가 없음"@,
        )
    } else {
        tool_view(ctx.tools_declared as nat, ctx.tools_emulated, ctx.tools_choice_none, t.stats())
    }
}

pub fn turn_tool_meta(ctx: &Ctx, turn: &Turn) -> (r: Option<String>)
    ensures
        opt_text(r) == turn_tool_view(*ctx, turn@),
{
    let stats = turn.tool_stats();
    if ctx.tools_declared > 0 && ctx.tools_emulated && stats.calls == 0
        && turn.raw_content().is_empty() && turn.raw_reasoning().is_empty() {
        let mut line = "도구 ".to_owned();
        line.append(dec_u64(ctx.tools_declared as u64).as_str());
        line.append("개 선언 · 사내 응답이 비어 판단할 근거가 없음");
        return Some(line);
    }
    tool_meta(ctx.tools_declared, ctx.tools_emulated, ctx.tools_choice_none, &stats)
}

/// The note on a turn in which tools were offered and none was called.
pub open spec fn unused_note(ctx: Ctx, t: TurnModel) -> Option<Seq<char>> {
    if ctx.tools_emulated && t.stats().calls == 0 {
        if said_nothing(t) {
            Some("사내가 빈 응답"@)
        } else {
            Some("도구 미사용"@)
        }
    } else {
        None
    }
}

pub fn unused_tools_note(ctx: &Ctx, turn: &Turn) -> (r: Option<String>)
    ensures
        opt_text(r) == unused_note(*ctx, turn@),
{
    if ctx.tools_emulated && turn.tool_stats().calls == 0 {
        if turn.raw_content().is_empty() && turn.raw_reasoning().is_empty() {
            Some("사내가 빈 응답".to_owned())
        } else {
            Some("도구 미사용".to_owned())
        }
    } else {
        None
    }
}

/// The line on the reasoning.
pub open spec fn reasoning_view(t: TurnModel) -> Option<Seq<char>> {
    if t.reasoning.len() == 0 {
        None
    } else {
        let line = "추론 "@ + dec(t.reasoning.len()) + "자"@;
        let line = if t.stats().think_blocks > 0 {
            line + " · <think> "@ + dec(t.stats().think_blocks as nat) + "개 분리"@
        } else {
            line
        };
        Some(
            if t.stats().think_unclosed {
                line + " · <think> 가 닫히지 않음"@
            } else {
                line
            },
        )
    }
}

pub fn reasoning_meta(turn: &Turn) -> (r: Option<String>)
    ensures
        opt_text(r) == reasoning_view(turn@),
{
    if turn.reasoning().is_empty() {
        return None;
    }
    let stats = turn.tool_stats();
    let mut line = "추론 ".to_owned();
    line.append(dec_u64(chars_of(turn.reasoning()).len() as u64).as_str());
    line.append("자");
    if stats.think_blocks > 0 {
        line.append(" · <think> ");
        line.append(dec_u64(stats.think_blocks as u64).as_str());
        line.append("개 분리");
    }
    if stats.think_unclosed {
        line.append(" · <think> 가 닫히지 않음");
    }
    Some(line)
}

/// The answer as the log shows it: as it came, with the reasoning before it.
pub open spec fn body_view(t: TurnModel) -> Seq<char> {
    if t.raw_reasoning.len() == 0 {
        t.raw_content
    } else {
        "[추론]\n"@ + t.raw_reasoning + "\n\n[답변]\n"@ + t.raw_content
    }
}

pub fn log_body(turn: &Turn) -> (r: String)
    ensures
        r@ == body_view(turn@),
{
    if turn.raw_reasoning().is_empty() {
        return turn.raw_content().to_owned();
    }
    let mut out = "[추론]\n".to_owned();
    out.append(turn.raw_reasoning());
    out.append("\n\n[답변]\n");
    out.append(turn.raw_content());
    out
}

/// The line on a temperature that was lowered.
pub open spec fn temperature_line(requested: Option<Real>) -> Option<Seq<char>> {
    match requested {
        Some(v) => if too_hot(v) {
            Some("temperature "@ + v.shown@ + " → "@ + Mark::One.shown() + " (사내 상한)"@)
        } else {
            None
        },
        None => None,
    }
}

pub open spec fn push_some(list: Seq<Seq<char>>, line: Option<Seq<char>>) -> Seq<Seq<char>> {
    match line {
        Some(l) => list.push(l),
        None => list,
    }
}

/// The lines on what was not honoured.
pub open spec fn plan_lines(ctx: Ctx) -> Seq<Seq<char>> {
    let a = note_if(seq![], ctx.model_defaulted, "model 미지정 → 기본 모델"@);
    let b = note_if(
        a,
        ctx.plan.ignored@.len() > 0,
        "무시된 파라미터: "@ + join(str_views(ctx.plan.ignored@), " · "@),
    );
    let c = note_if(
        b,
        ctx.plan.images_dropped > 0,
        "이미지 파트 "@ + dec(ctx.plan.images_dropped as nat)
            + "개는 사내 채팅 API 가 받지 못해 버렸습니다"@,
    );
    let d = note_if(
        c,
        ctx.plan.unknown@.len() > 0,
        "스펙에 없는 키: "@ + join(views(ctx.plan.unknown@), " · "@),
    );
    push_some(d, temperature_line(ctx.temperature_requested))
}

fn owned(list: &Vec<&'static str>) -> (r: Vec<String>)
    ensures
        views(r@) == str_views(list@),
{
    let mut out: Vec<String> = Vec::new();
    let mut i: usize = 0;
    while i < list.len()
        invariant
            i <= list@.len(),
            views(out@) =~= str_views(list@).take(i as int),
        decreases list@.len() - i,
    {
        let ghost before = out@;
        out.push(list[i].to_owned());
        assert(views(out@) =~= views(before).push(list@[i as int]@));
        i += 1;
    }
    assert(str_views(list@).take(list@.len() as int) =~= str_views(list@));
    out
}

pub fn push_line(list: &mut Vec<String>, line: Option<String>)
    ensures
        views(final(list)@) == push_some(views(old(list)@), opt_text(line)),
{
    match line {
        Some(l) => {
            let ghost before = list@;
            list.push(l);
            assert(views(list@) =~= views(before).push(l@));
        },
        None => {},
    }
}

pub fn plan_meta(ctx: &Ctx) -> (r: Vec<String>)
    ensures
        views(r@) == plan_lines(*ctx),
{
    let mut out: Vec<String> = Vec::new();
    assert(views(out@) =~= seq![]);
    if ctx.model_defaulted {
        push_line(&mut out, Some("model 미지정 → 기본 모델".to_owned()));
    }
    if ctx.plan.ignored.len() > 0 {
        let mut line = "무시된 파라미터: ".to_owned();
        line.append(joined(&owned(&ctx.plan.ignored), " · ").as_str());
        push_line(&mut out, Some(line));
    }
    if ctx.plan.images_dropped > 0 {
        let mut line = "이미지 파트 ".to_owned();
        line.append(dec_u64(ctx.plan.images_dropped as u64).as_str());
        line.append("개는 사내 채팅 API 가 받지 못해 버렸습니다");
        push_line(&mut out, Some(line));
    }
    if ctx.plan.unknown.len() > 0 {
        let mut line = "스펙에 없는 키: ".to_owned();
        line.append(joined(&ctx.plan.unknown, " · ").as_str());
        push_line(&mut out, Some(line));
    }
    match temperature_was_clamped(&ctx.temperature_requested) {
        Some((requested, sent)) => {
            let mut line = "temperature ".to_owned();
            line.append(requested.shown.as_str());
            line.append(" → ");
            line.append(sent.shown.as_str());
            line.append(" (사내 상한)");
            push_line(&mut out, Some(line));
        },
        None => {},
    }
    out
}

// ───────────────────────── entries ─────────────────────────

/// Where a chat goes, at the gateway.
pub open spec fn chat_url(cfg: Config) -> Seq<char> {
    origin(cfg.fabrix_base_url@) + MESSAGES_PATH@
}

pub fn messages_url(cfg: &Config) -> (r: String)
    ensures
        r@ == chat_url(*cfg),
{
    cfg.normalized_base_url().concat(MESSAGES_PATH)
}

/// The entry for a call whose body was too large to be read.
pub fn oversize_entry(
    stamp: Stamp,
    client: Option<String>,
    cfg: &Config,
    envelope: &ErrorEnvelope,
) -> (r: LogEntry)
    ensures
        r.stamped(stamp),
        r.kind == Kind::Chat,
        r.method@ == Kind::Chat.method_view(),
        r.path@ == Kind::Chat.path_view(),
        !r.stream,
        !r.cached,
        r.model_requested is None,
        r.model_alias is None,
        r.model_id is None,
        r.model_label is None,
        r.client == client,
        r.req_openai@ == "(본문이 상한을 넘어 읽지 않았습니다)"@,
        r.req_fabrix@ == "(사내 호출을 하지 않았습니다)"@,
        r.req_fabrix_headers@ == headers_line(*cfg),
        r.fabrix_url@ == chat_url(*cfg),
        r.raw.empty(),
        r.tells(
            413,
            true,
            Some("본문이 너무 큼"@),
            Some("본문이 너무 큼"@),
            envelope.error.message@,
            "거부 · HTTP 413"@,
        ),
{
    LogEntry {
        id: stamp.id,
        ts: stamp.ts,
        ts_full: stamp.ts_full,
        kind: Kind::Chat,
        method: Kind::Chat.method(),
        path: Kind::Chat.path().to_owned(),
        status: 413,
        latency_ms: stamp.latency_ms,
        stream: false,
        cached: false,
        model_requested: None,
        model_alias: None,
        model_id: None,
        model_label: None,
        client,
        note: Some("본문이 너무 큼".to_owned()),
        summary: Some("본문이 너무 큼".to_owned()),
        is_error: true,
        req_openai: "(본문이 상한을 넘어 읽지 않았습니다)".to_owned(),
        req_fabrix: "(사내 호출을 하지 않았습니다)".to_owned(),
        req_fabrix_headers: fabrix_headers_line(cfg),
        fabrix_url: messages_url(cfg),
        resp_body: envelope.error.message.clone(),
        resp_meta: "거부 · HTTP 413".to_owned(),
        raw: RawWire::default(),
    }
}

/// `gpt-4o → Chat 4`: what was asked for, and what answered.
pub open spec fn summary_view(requested: Option<Seq<char>>, label: Option<Seq<char>>) -> Option<
    Seq<char>,
> {
    match (requested, label) {
        (Some(r), Some(l)) => if r != l {
            Some(r + " → "@ + l)
        } else {
            Some(l)
        },
        (None, Some(l)) => Some(l),
        (Some(r), None) => Some(r),
        (None, None) => None,
    }
}

impl Ctx {
    /// The entry tells of this call.
    pub open spec fn is_told_by(self, e: LogEntry) -> bool {
        &&& e.kind == Kind::Chat
        &&& e.method@ == Kind::Chat.method_view()
        &&& e.path@ == Kind::Chat.path_view()
        &&& e.stream == self.stream
        &&& !e.cached
        &&& e.model_requested == self.model_requested
        &&& e.model_alias == self.model_alias
        &&& e.model_id == self.model_id
        &&& e.model_label == self.model_label
        &&& e.client == self.client
        &&& e.req_openai == self.req_openai
        &&& e.req_fabrix == self.req_fabrix
        &&& e.req_fabrix_headers == self.req_fabrix_headers
        &&& e.fabrix_url == self.fabrix_url
        &&& e.raw.upstream_captured == self.raw_upstream@.enabled
        &&& e.raw.client_captured == self.raw_client@.enabled
        &&& e.raw.upstream@ == self.raw_upstream@.shown()
        &&& e.raw.client@ == self.raw_client@.shown()
    }

    pub fn entry(
        &self,
        stamp: Stamp,
        status: u16,
        is_error: bool,
        note: Option<String>,
        summary: Option<String>,
        resp_body: String,
        resp_meta: String,
    ) -> (r: LogEntry)
        ensures
            r.stamped(stamp),
            self.is_told_by(r),
            r.tells(
                status,
                is_error,
                opt_text(note),
                opt_text(summary),
                resp_body@,
                resp_meta@,
            ),
    {
        LogEntry {
            id: stamp.id,
            ts: stamp.ts,
            ts_full: stamp.ts_full,
            kind: Kind::Chat,
            method: Kind::Chat.method(),
            path: Kind::Chat.path().to_owned(),
            status,
            latency_ms: stamp.latency_ms,
            stream: self.stream,
            cached: false,
            model_requested: copy_text(&self.model_requested),
            model_alias: copy_text(&self.model_alias),
            model_id: copy_text(&self.model_id),
            model_label: copy_text(&self.model_label),
            client: copy_text(&self.client),
            note,
            summary,
            is_error,
            req_openai: self.req_openai.clone(),
            req_fabrix: self.req_fabrix.clone(),
            req_fabrix_headers: self.req_fabrix_headers.clone(),
            fabrix_url: self.fabrix_url.clone(),
            resp_body,
            resp_meta,
            raw: RawWire {
                upstream_captured: self.raw_upstream.enabled(),
                client_captured: self.raw_client.enabled(),
                upstream: self.raw_upstream.text(),
                client: self.raw_client.text(),
            },
        }
    }

    /// The entry for a call that failed.
    pub fn fail(&self, stamp: Stamp, err: &FabrixError) -> (r: LogEntry)
        ensures
            r.stamped(stamp),
            self.is_told_by(r),
            r.tells(
                err.status_view(),
                true,
                Some(err.note_view()),
                Some(err.note_view()),
                err.message_view(),
                "실패 · HTTP "@ + dec(err.status_view() as nat),
            ),
    {
        let mut meta = "실패 · HTTP ".to_owned();
        meta.append(dec_u64(err.status() as u64).as_str());
        self.entry(
            stamp,
            err.status(),
            true,
            Some(err.note()),
            Some(err.note()),
            err.message(),
            meta,
        )
    }

    pub fn success_summary(&self) -> (r: Option<String>)
        ensures
            opt_text(r) == summary_view(
                opt_text(self.model_requested),
                opt_text(self.model_label),
            ),
    {
        match (&self.model_requested, &self.model_label) {
            (Some(req), Some(label)) => {
                if !same(req.as_str(), label.as_str()) {
                    let mut out = req.clone();
                    out.append(" → ");
                    out.append(label.as_str());
                    Some(out)
                } else {
                    Some(label.clone())
                }
            },
            (None, Some(label)) => Some(label.clone()),
            (Some(req), None) => Some(req.clone()),
            (None, None) => None,
        }
    }
}

} // verus!
