//! A chat call, from the request as it came to the request that is sent on.

use vstd::prelude::*;
use vstd::string::*;

use crate::bytes::{lossy, utf8_lossy};
use crate::config::Config;
use crate::ids::{is_uuid, uuid_text};
use crate::json::{in_order, json_parse_bytes, json_pretty, keys_of, Json, JsonView};
use crate::logstore::{preview, preview_view, LogEntry, RawBuf, RawView, Stamp};
use crate::openai::{
    copy_text, opt_text, targets, ChatRequest, ErrorEnvelope, FunctionDef,
};
use crate::text::{dec, dec_u64, join, joined, trim, trimmed, views};

use super::alias::{asked_for, default_model, fallback, find_model, ResolvedModel};
use super::chat_log::{chat_url, messages_url, Ctx};
use super::envelope::{openai_type, type_view};
use super::fabrix::str_views;
use super::fingerprint::{fingerprint_view, system_fingerprint};
use super::fold::{fold_messages, folded, last_is_user_turn, CONTINUE_TURN};
use super::gate::{fabrix_headers_line, headers_line};
use super::models::{not_found_envelope, not_found_view};
use super::request::{LlmConfig, MessagesRequest};
use super::tools::{
    render_system_block, render_tail_reminder, system_block, tail_reminder,
};
use super::validate::{plan, request_fault, Fault, Invalid, Plan};

verus! {

// ───────────────────────── refusals ─────────────────────────

/// A call that is refused: what the client is told, and what the log is told.
#[derive(Debug)]
pub struct Refusal {
    pub status: u16,
    pub note: String,
    pub body: String,
    pub meta: String,
    pub envelope: ErrorEnvelope,
}

impl Refusal {
    /// What the log is told.
    pub open spec fn logs(self, status: u16, note: Seq<char>, body: Seq<char>, meta: Seq<char>) -> bool {
        &&& self.status == status
        &&& self.note@ == note
        &&& self.body@ == body
        &&& self.meta@ == meta
    }
}

pub open spec fn http_line(head: Seq<char>, status: u16) -> Seq<char> {
    head + dec(status as nat)
}

pub fn http_text(head: &str, status: u16) -> (r: String)
    ensures
        r@ == http_line(head@, status),
{
    head.to_owned().concat(dec_u64(status as u64).as_str())
}

/// The refusal of a caller without the token.
pub fn token_refusal(status: u16, envelope: ErrorEnvelope) -> (r: Refusal)
    ensures
        r.logs(
            status,
            "토큰 거부"@,
            envelope.error.message@,
            http_line("거부 · HTTP "@, status),
        ),
        r.envelope == envelope,
{
    Refusal {
        status,
        note: "토큰 거부".to_owned(),
        body: envelope.error.message.clone(),
        meta: http_text("거부 · HTTP ", status),
        envelope,
    }
}

pub open spec fn json_message(line: nat, column: nat) -> Seq<char> {
    "요청 본문을 JSON 으로 해석하지 못했습니다 (line "@ + dec(line) + ", column "@ + dec(column) + ")."@
}

/// The refusal of a body that cannot be read. The client is told the place only: the
/// reader's words may hold parts of the body, so they go to the log.
pub fn json_refusal(line: usize, column: usize, detail: &str) -> (r: Refusal)
    ensures
        r.logs(
            400,
            "잘못된 요청"@,
            json_message(line as nat, column as nat) + "\n\n"@ + detail@,
            "요청 파싱 실패"@,
        ),
        r.envelope.says(
            json_message(line as nat, column as nat),
            type_view(400),
            None,
            Some("invalid_json"@),
        ),
{
    let mut message = "요청 본문을 JSON 으로 해석하지 못했습니다 (line ".to_owned();
    message.append(dec_u64(line as u64).as_str());
    message.append(", column ");
    message.append(dec_u64(column as u64).as_str());
    message.append(").");
    let mut body = message.clone();
    body.append("\n\n");
    body.append(detail);
    Refusal {
        status: 400,
        note: "잘못된 요청".to_owned(),
        body,
        meta: "요청 파싱 실패".to_owned(),
        envelope: ErrorEnvelope::new(message, openai_type(400), Some("invalid_json".to_owned())),
    }
}

/// The refusal tells of this fault.
pub open spec fn refuses_fault(r: Refusal, f: Fault) -> bool {
    &&& r.logs(
        400,
        "잘못된 요청 · "@ + f.param,
        f.message,
        http_line("요청 검증 실패 · HTTP "@, 400),
    )
    &&& r.envelope.says(f.message, type_view(400), Some(f.param), Some(f.code))
}

fn fault_refusal(invalid: &Invalid, Ghost(f): Ghost<Fault>) -> (r: Refusal)
    requires
        invalid.tells(f),
    ensures
        refuses_fault(r, f),
{
    Refusal {
        status: invalid.status,
        note: invalid.note(),
        body: invalid.message.clone(),
        meta: http_text("요청 검증 실패 · HTTP ", invalid.status),
        envelope: invalid.envelope(),
    }
}

impl Ctx {
    /// The entry for a call that is refused.
    pub fn refuse(&self, stamp: Stamp, refusal: &Refusal) -> (r: LogEntry)
        ensures
            r.stamped(stamp),
            self.is_told_by(r),
            r.tells(
                refusal.status,
                true,
                Some(refusal.note@),
                Some(refusal.note@),
                refusal.body@,
                refusal.meta@,
            ),
    {
        self.entry(
            stamp,
            refusal.status,
            true,
            Some(refusal.note.clone()),
            Some(refusal.note.clone()),
            refusal.body.clone(),
            refusal.meta.clone(),
        )
    }
}

// ───────────────────────── the beginning ─────────────────────────

/// The tree of a body, null where it is no JSON.
pub open spec fn incoming_view(body: Seq<u8>) -> JsonView {
    match json_parse_bytes(body) {
        Ok(tree) => tree,
        Err(_) => JsonView::Null,
    }
}

/// The request as the log shows it.
pub open spec fn shown_request(incoming: JsonView, body: Seq<u8>) -> Seq<char> {
    if incoming is Null {
        preview_view(utf8_lossy(body), 2000)
    } else {
        json_pretty(incoming)
    }
}

impl Ctx {
    /// Nothing is known of the call but that it came.
    pub open spec fn just_begun(self, cfg: Config, client: Option<String>, shown: Seq<char>) -> bool {
        &&& !self.stream
        &&& self.client == client
        &&& self.model_requested is None
        &&& self.model_alias is None
        &&& self.model_id is None
        &&& self.model_label is None
        &&& self.req_openai@ == shown
        &&& self.req_fabrix@ == "(요청을 변환하기 전에 실패했습니다)"@
        &&& self.req_fabrix_headers@ == headers_line(cfg)
        &&& self.fabrix_url@ == chat_url(cfg)
        &&& self.tools_declared == 0
        &&& !self.tools_emulated
        &&& !self.tools_choice_none
        &&& !self.model_defaulted
        &&& self.temperature_requested is None
        &&& self.prompt_text@ == ""@
        &&& self.raw_upstream@ == (RawView { enabled: true, bytes: seq![], dropped: 0 })
        &&& self.raw_client@ == (RawView { enabled: cfg.raw_wire_log, bytes: seq![], dropped: 0 })
        &&& !self.plan.include_usage
        &&& self.plan.images_dropped == 0
        &&& self.plan.ignored@.len() == 0
        &&& self.plan.unknown@.len() == 0
    }

    /// A call whose body is read as `incoming`.
    pub fn begin_with(cfg: &Config, client: Option<String>, incoming: &Json, body: &[u8]) -> (r: Ctx)
        ensures
            r.just_begun(*cfg, client, shown_request(incoming@, body@)),
    {
        let shown = match incoming {
            Json::Null => preview(lossy(body).as_str(), 2000),
            _ => incoming.pretty(),
        };
        Ctx {
            stream: false,
            client,
            model_requested: None,
            model_alias: None,
            model_id: None,
            model_label: None,
            req_openai: shown,
            req_fabrix: "(요청을 변환하기 전에 실패했습니다)".to_owned(),
            req_fabrix_headers: fabrix_headers_line(cfg),
            fabrix_url: messages_url(cfg),
            tools_declared: 0,
            tools_emulated: false,
            tools_choice_none: false,
            plan: Plan::default(),
            model_defaulted: false,
            temperature_requested: None,
            prompt_text: "".to_owned(),
            raw_upstream: RawBuf::new(true),
            raw_client: RawBuf::new(cfg.raw_wire_log),
        }
    }

    /// A call as it comes in, and the tree of its body, whose names are in order.
    pub fn begin(cfg: &Config, client: Option<String>, body: &[u8]) -> (r: (Ctx, Json))
        ensures
            r.1@ == incoming_view(body@),
            in_order(keys_of(r.1)),
            r.0.just_begun(*cfg, client, shown_request(incoming_view(body@), body@)),
    {
        let incoming = match Json::parse_bytes(body) {
            Ok(tree) => tree,
            Err(_) => Json::Null,
        };
        let ctx = Ctx::begin_with(cfg, client, &incoming, body);
        (ctx, incoming)
    }

    /// The request has been read.
    pub open spec fn has_read(self, before: Ctx, req: ChatRequest) -> bool {
        self == (Ctx {
            stream: req.streams(),
            model_requested: req.model,
            temperature_requested: req.temperature,
            plan: self.plan,
            ..before
        })
    }

    /// Takes note of the request and checks it.
    pub fn check(&mut self, req: &ChatRequest, incoming: &Json) -> (r: Result<(), Refusal>)
        ensures
            final(self).has_read(*old(self), *req),
            match r {
                Ok(()) => {
                    &&& request_fault(*req, incoming@) is None
                    &&& final(self).plan.include_usage == req.asks_for_usage()
                    &&& final(self).plan.images_dropped == super::validate::images_in(req.messages@)
                    &&& str_views(final(self).plan.ignored@) == super::validate::left_out(*req)
                    &&& views(final(self).plan.unknown@) == super::validate::strange_keys(
                        keys_of(*incoming),
                    )
                },
                Err(refusal) => request_fault(*req, incoming@) matches Some(f) && refuses_fault(
                    refusal,
                    f,
                ),
            },
    {
        self.stream = req.is_stream();
        self.model_requested = copy_text(&req.model);
        self.temperature_requested = match &req.temperature {
            Some(t) => Some(t.copy()),
            None => None,
        };
        match plan(req, incoming) {
            Ok(p) => {
                self.plan = p;
                Ok(())
            },
            Err(invalid) => Err(
                fault_refusal(&invalid, Ghost(request_fault(*req, incoming@)->0)),
            ),
        }
    }
}

// ───────────────────────── the model ─────────────────────────

/// The name that a request gives to its model, if it gives one.
pub open spec fn named_model(req: ChatRequest) -> Option<Seq<char>> {
    match req.model {
        Some(m) => if trim(m@).len() == 0 {
            None
        } else {
            Some(trim(m@))
        },
        None => None,
    }
}

/// The model that answers a request: the one that is named, or the default where none
/// is named.
pub open spec fn chosen(models: Seq<ResolvedModel>, name: Option<Seq<char>>, alias: Seq<char>) -> Option<
    ResolvedModel,
> {
    match name {
        Some(n) => asked_for(models, n),
        None => fallback(models, alias),
    }
}

fn name_in(req: &ChatRequest) -> (r: Option<&str>)
    ensures
        match r {
            Some(s) => named_model(*req) == Some(s@),
            None => named_model(*req) is None,
        },
{
    match &req.model {
        Some(m) => {
            let name = trimmed(m.as_str());
            if name.is_empty() {
                None
            } else {
                Some(name)
            }
        },
        None => None,
    }
}

/// The refusal of a request for which there is no model.
pub open spec fn refuses_model(r: Refusal, name: Option<Seq<char>>) -> bool {
    match name {
        Some(n) => {
            &&& r.logs(404, "모델 없음"@, not_found_view(n), "실패 · HTTP 404 · 모델 없음"@)
            &&& r.envelope.says(
                not_found_view(n),
                type_view(404),
                Some("model"@),
                Some("model_not_found"@),
            )
        },
        None => {
            &&& r.logs(
                502,
                "모델 없음"@,
                "사내 모델 목록이 비어 있어 요청을 보낼 수 없습니다."@,
                "실패 · HTTP 502 · 모델 없음"@,
            )
            &&& r.envelope.says(
                "사내 모델 목록이 비어 있어 요청을 보낼 수 없습니다."@,
                type_view(502),
                None,
                Some("upstream_bad_response"@),
            )
        },
    }
}

fn model_refusal(name: Option<&str>) -> (r: Refusal)
    ensures
        refuses_model(
            r,
            match name {
                Some(s) => Some(s@),
                None => None,
            },
        ),
{
    match name {
        Some(n) => {
            let envelope = not_found_envelope(n);
            Refusal {
                status: 404,
                note: "모델 없음".to_owned(),
                body: envelope.error.message.clone(),
                meta: "실패 · HTTP 404 · 모델 없음".to_owned(),
                envelope,
            }
        },
        None => Refusal {
            status: 502,
            note: "모델 없음".to_owned(),
            body: "사내 모델 목록이 비어 있어 요청을 보낼 수 없습니다.".to_owned(),
            meta: "실패 · HTTP 502 · 모델 없음".to_owned(),
            envelope: ErrorEnvelope::new(
                "사내 모델 목록이 비어 있어 요청을 보낼 수 없습니다.".to_owned(),
                openai_type(502),
                Some("upstream_bad_response".to_owned()),
            ),
        },
    }
}

/// The models to go on with where the list could not be had: a client that names a
/// model by its UUID can do without the list.
pub fn models_without_list(req: &ChatRequest) -> (r: Option<Vec<ResolvedModel>>)
    ensures
        match r {
            Some(list) => {
                &&& req.model matches Some(m) && uuid_text(m@)
                &&& list@.len() == 1
                &&& list@[0].alias@ == req.model->0@
                &&& list@[0].model_id@ == req.model->0@
                &&& list@[0].label@ == req.model->0@
                &&& list@[0].description is None
            },
            None => req.model matches Some(m) ==> !uuid_text(m@),
        },
{
    match &req.model {
        Some(m) => {
            if !is_uuid(m.as_str()) {
                return None;
            }
            let mut list: Vec<ResolvedModel> = Vec::new();
            list.push(
                ResolvedModel {
                    alias: m.clone(),
                    model_id: m.clone(),
                    label: m.clone(),
                    description: None,
                },
            );
            Some(list)
        },
        None => None,
    }
}

// ───────────────────────── the prompt ─────────────────────────

/// Tools are emulated for this request.
pub open spec fn emulates(cfg: Config, req: ChatRequest) -> bool {
    cfg.tool_emulation && req.uses_tools()
}

/// The system prompt, with the convention for tools behind it.
pub open spec fn prompt_system(cfg: Config, req: ChatRequest) -> Option<Seq<char>> {
    let own = folded(req.messages@).0;
    let block = if emulates(cfg, req) {
        system_block(req.declared(), req.mode_view())
    } else {
        None
    };
    match (own, block) {
        (Some(o), Some(b)) => Some(o + "\n\n"@ + b),
        (Some(o), None) => Some(o),
        (None, b) => b,
    }
}

/// The reminder for the end of the conversation.
pub open spec fn prompt_reminder(cfg: Config, req: ChatRequest) -> Option<Seq<char>> {
    if emulates(cfg, req) {
        tail_reminder(req.mode_view())
    } else {
        None
    }
}

/// The turns before the reminder. A prompt without turns gets a turn that says to go
/// on; without a system prompt there is nothing to send.
pub open spec fn prompt_turns(cfg: Config, req: ChatRequest) -> Option<Seq<Seq<char>>> {
    let own = folded(req.messages@).1;
    if own.len() > 0 {
        Some(own)
    } else if prompt_system(cfg, req) is Some {
        Some(seq![CONTINUE_TURN@])
    } else {
        None
    }
}

/// The reminder goes into a turn of the user: into the last one, or into one of its own.
pub open spec fn with_reminder(turns: Seq<Seq<char>>, reminder: Option<Seq<char>>) -> Seq<Seq<char>> {
    match reminder {
        Some(r) => if turns.len() % 2 == 1 {
            turns.drop_last().push(turns.last() + "\n\n"@ + r)
        } else {
            turns.push(r)
        },
        None => turns,
    }
}

/// The turns that are sent.
pub open spec fn prompt_contents(cfg: Config, req: ChatRequest) -> Option<Seq<Seq<char>>> {
    match prompt_turns(cfg, req) {
        Some(turns) => Some(with_reminder(turns, prompt_reminder(cfg, req))),
        None => None,
    }
}

/// The names of the tools that can be called.
pub open spec fn tool_names(cfg: Config, req: ChatRequest) -> Seq<Seq<char>> {
    if emulates(cfg, req) {
        req.declared().map_values(|f: FunctionDef| trim(f.name@))
    } else {
        seq![]
    }
}

/// All that the model gets to see.
pub open spec fn whole_prompt(system: Option<Seq<char>>, contents: Seq<Seq<char>>) -> Seq<char> {
    join(
        match system {
            Some(s) => seq![s] + contents,
            None => contents,
        },
        "\n\n"@,
    )
}

fn add_reminder(contents: Vec<String>, reminder: Option<String>) -> (r: Vec<String>)
    requires
        contents@.len() > 0,
    ensures
        views(r@) == with_reminder(views(contents@), opt_text(reminder)),
{
    let mut out = contents;
    match reminder {
        Some(text) => {
            let ghost before = views(out@);
            if last_is_user_turn(out.as_slice()) {
                let mut last = match out.pop() {
                    Some(last) => last,
                    None => String::new(),
                };
                last.append("\n\n");
                last.append(text.as_str());
                out.push(last);
                assert(views(out@) =~= before.drop_last().push(before.last() + "\n\n"@ + text@));
            } else {
                out.push(text);
                assert(views(out@) =~= before.push(text@));
            }
        },
        None => {},
    }
    out
}

fn prompt_text(system: &Option<String>, contents: &Vec<String>) -> (r: String)
    ensures
        r@ == whole_prompt(opt_text(*system), views(contents@)),
{
    let mut all: Vec<String> = Vec::new();
    match system {
        Some(s) => all.push(s.clone()),
        None => {},
    }
    let ghost front = views(all@);
    let mut i: usize = 0;
    assert(front + views(contents@).take(0) =~= front);
    while i < contents.len()
        invariant
            i <= contents@.len(),
            views(all@) == front + views(contents@).take(i as int),
        decreases contents@.len() - i,
    {
        let ghost before = all@;
        all.push(contents[i].clone());
        assert(views(all@) =~= views(before).push(contents@[i as int]@));
        assert(front + views(contents@).take(i + 1) =~= (front + views(contents@).take(
            i as int,
        )).push(views(contents@)[i as int]));
        i += 1;
    }
    proof {
        assert(views(contents@).take(contents@.len() as int) =~= views(contents@));
        if system is Some {
            assert(front =~= seq![system->0@]);
        } else {
            assert(front + views(contents@) =~= views(contents@));
        }
    }
    joined(&all, "\n\n")
}

fn names_of(declared: &Vec<&FunctionDef>) -> (r: Vec<String>)
    ensures
        views(r@) == targets(declared@).map_values(|f: FunctionDef| trim(f.name@)),
{
    let mut out: Vec<String> = Vec::new();
    let ghost all = targets(declared@).map_values(|f: FunctionDef| trim(f.name@));
    let mut i: usize = 0;
    while i < declared.len()
        invariant
            i <= declared@.len() == all.len(),
            all == targets(declared@).map_values(|f: FunctionDef| trim(f.name@)),
            views(out@) =~= all.take(i as int),
        decreases declared@.len() - i,
    {
        let ghost before = out@;
        out.push(trimmed(declared[i].name.as_str()).to_owned());
        assert(views(out@) =~= views(before).push(all[i as int]));
        i += 1;
    }
    assert(all.take(all.len() as int) =~= all);
    out
}

// ───────────────────────── the request that is sent ─────────────────────────

/// A call that can be sent on.
#[derive(Debug)]
pub struct Prepared {
    pub payload: MessagesRequest,
    /// The tools that the answer may call.
    pub tool_names: Vec<String>,
    /// The model's name, as the client is told it: as the client gave it.
    pub echo_model: String,
    pub fingerprint: String,
}

impl Prepared {
    pub open spec fn is_for(self, cfg: Config, req: ChatRequest, model: ResolvedModel) -> bool {
        &&& views(self.payload.model_ids@) == seq![model.model_id@]
        &&& Some(views(self.payload.contents@)) == prompt_contents(cfg, req)
        &&& self.payload.is_stream == req.streams()
        &&& opt_text(self.payload.system_prompt) == prompt_system(cfg, req)
        &&& match self.payload.llm_config {
            Some(c) => !LlmConfig::asks_nothing(req) && c.carries(req),
            None => LlmConfig::asks_nothing(req),
        }
        &&& views(self.tool_names@) == tool_names(cfg, req)
        &&& self.echo_model@ == match named_model(req) {
            Some(n) => n,
            None => model.alias@,
        }
        &&& self.fingerprint@ == fingerprint_view(model.model_id@)
    }
}

impl Ctx {
    /// The model has been found.
    pub open spec fn knows_model(self, req: ChatRequest, model: ResolvedModel) -> bool {
        &&& opt_text(self.model_alias) == Some(model.alias@)
        &&& opt_text(self.model_id) == Some(model.model_id@)
        &&& opt_text(self.model_label) == Some(model.label@)
        &&& self.model_defaulted == (named_model(req) is None)
    }

    /// It is known what becomes of the tools.
    pub open spec fn knows_tools(self, cfg: Config, req: ChatRequest) -> bool {
        &&& self.tools_declared == req.declared().len()
        &&& self.tools_emulated == emulates(cfg, req)
        &&& self.tools_choice_none == (req.mode_view() is Off)
    }

    /// Nothing else has changed.
    pub open spec fn prepared_from(self, before: Ctx) -> bool {
        self == (Ctx {
            model_alias: self.model_alias,
            model_id: self.model_id,
            model_label: self.model_label,
            model_defaulted: self.model_defaulted,
            tools_declared: self.tools_declared,
            tools_emulated: self.tools_emulated,
            tools_choice_none: self.tools_choice_none,
            prompt_text: self.prompt_text,
            ..before
        })
    }

    /// Finds the model and makes the request that is sent on.
    pub fn prepare(&mut self, cfg: &Config, req: &ChatRequest, models: &[ResolvedModel]) -> (r: Result<
        Prepared,
        Refusal,
    >)
        ensures
            final(self).prepared_from(*old(self)),
            match chosen(models@, named_model(*req), cfg.default_model_alias@) {
                None => {
                    &&& r matches Err(refusal) && refuses_model(refusal, named_model(*req))
                    &&& *final(self) == *old(self)
                },
                Some(model) => {
                    &&& final(self).knows_model(*req, model)
                    &&& final(self).knows_tools(*cfg, *req)
                    &&& match prompt_contents(*cfg, *req) {
                        None => r matches Err(refusal) && refuses_emptiness(refusal),
                        Some(contents) => {
                            &&& r matches Ok(p) && p.is_for(*cfg, *req, model)
                            &&& final(self).prompt_text@ == whole_prompt(
                                prompt_system(*cfg, *req),
                                contents,
                            )
                        },
                    }
                },
            },
    {
        let name = name_in(req);
        let found = match name {
            Some(n) => find_model(models, n),
            None => default_model(models, cfg.default_model_alias.as_str()),
        };
        let model = match found {
            Some(m) => m,
            None => {
                return Err(model_refusal(name));
            },
        };
        self.model_defaulted = name.is_none();
        self.model_alias = Some(model.alias.clone());
        self.model_id = Some(model.model_id.clone());
        self.model_label = Some(model.label.clone());

        let (own_system, own_turns) = fold_messages(req.messages.as_slice());
        let declared = req.declared_tools();
        let mode = req.tool_mode();
        let emulate = cfg.tool_emulation && req.wants_tools();
        assert(targets(declared@).len() == declared@.len());
        let block = if emulate {
            render_system_block(&declared, &mode)
        } else {
            None
        };
        let names = if emulate {
            names_of(&declared)
        } else {
            Vec::new()
        };
        assert(views(names@) =~= tool_names(*cfg, *req));
        let system_prompt = match own_system {
            Some(o) => match block {
                Some(b) => {
                    let mut s = o;
                    s.append("\n\n");
                    s.append(b.as_str());
                    Some(s)
                },
                None => Some(o),
            },
            None => block,
        };
        self.tools_declared = declared.len();
        self.tools_emulated = emulate;
        self.tools_choice_none = mode.is_off();

        assert(views(own_turns@).len() == own_turns@.len());
        let mut turns = own_turns;
        if turns.len() == 0 {
            if system_prompt.is_none() {
                return Err(empty_refusal());
            }
            turns.push(CONTINUE_TURN.to_owned());
            assert(views(turns@) =~= seq![CONTINUE_TURN@]);
        }
        let reminder = if emulate {
            render_tail_reminder(&mode)
        } else {
            None
        };
        let contents = add_reminder(turns, reminder);
        self.prompt_text = prompt_text(&system_prompt, &contents);
        let mut model_ids: Vec<String> = Vec::new();
        model_ids.push(model.model_id.clone());
        assert(views(model_ids@) =~= seq![model.model_id@]);
        let echo_model = match name {
            Some(n) => n.to_owned(),
            None => model.alias.clone(),
        };
        Ok(
            Prepared {
                payload: MessagesRequest {
                    model_ids,
                    contents,
                    is_stream: req.is_stream(),
                    system_prompt,
                    llm_config: LlmConfig::from_request(req),
                },
                tool_names: names,
                echo_model,
                fingerprint: system_fingerprint(model.model_id.as_str()),
            },
        )
    }
}

/// The refusal of a request in which there is nothing to send.
pub open spec fn refuses_emptiness(r: Refusal) -> bool {
    &&& r.logs(400, "빈 messages"@, "messages 에 보낼 내용이 없습니다."@, "요청 검증 실패"@)
    &&& r.envelope.says(
        "messages 에 보낼 내용이 없습니다."@,
        type_view(400),
        Some("messages"@),
        Some("invalid_value"@),
    )
}

fn empty_refusal() -> (r: Refusal)
    ensures
        refuses_emptiness(r),
{
    Refusal {
        status: 400,
        note: "빈 messages".to_owned(),
        body: "messages 에 보낼 내용이 없습니다.".to_owned(),
        meta: "요청 검증 실패".to_owned(),
        envelope: ErrorEnvelope::new(
            "messages 에 보낼 내용이 없습니다.".to_owned(),
            openai_type(400),
            Some("invalid_value".to_owned()),
        ).with_param("messages".to_owned()),
    }
}

// ───────────────────────── laws ─────────────────────────

/// The reminder is always the user's: with it, the turns end with the user.
pub proof fn law_reminder_is_the_users(turns: Seq<Seq<char>>, reminder: Seq<char>)
    requires
        turns.len() > 0,
    ensures
        ({
            let after = with_reminder(turns, Some(reminder));
            &&& after.len() % 2 == 1
            &&& forall|k: int|
                0 <= k < turns.len() && k % 2 == 1 ==> #[trigger] after[k] == turns[k]
        }),
{
}

/// A request without tools is sent on without a word about them.
pub proof fn law_no_tools_no_trace(cfg: Config, req: ChatRequest)
    requires
        req.declared().len() == 0 || req.mode_view() is Off || !cfg.tool_emulation,
    ensures
        prompt_system(cfg, req) == folded(req.messages@).0,
        prompt_contents(cfg, req) matches Some(c) ==> (c == folded(req.messages@).1 || c == seq![
            CONTINUE_TURN@,
        ]),
        tool_names(cfg, req).len() == 0,
{
}

} // verus!
