//! The list of models, as clients see it and as the log keeps it.

use vstd::prelude::*;
use vstd::string::*;

use crate::config::{origin, Config};
use crate::logstore::{Kind, LogEntry, RawWire, Stamp};
use crate::openai::{copy_text, opt_text, ErrorEnvelope, ModelCard, ModelList};
use crate::text::{dec, dec_u64, starts_with};

use super::alias::{
    asked_for, build_aliases, find_model, law_alias_finds_its_model, law_alias_shape, names_models,
    FabrixModel, ResolvedModel,
};
use super::envelope::{openai_type, type_view};
use super::fabrix::{FabrixError, MODELS_PATH};
use super::gate::{auth_line, fabrix_headers_line, headers_line};

verus! {

// ───────────────────────── what clients see ─────────────────────────

/// The card of a model. Its id is the alias; the gateway's own id is not shown.
pub open spec fn is_card_of(card: ModelCard, m: ResolvedModel, created: i64) -> bool {
    &&& card.id@ == m.alias@
    &&& card.object@ == "model"@
    &&& card.created == created
    &&& card.owned_by@ == "corp"@
}

pub fn model_card(m: &ResolvedModel, created: i64) -> (r: ModelCard)
    ensures
        is_card_of(r, *m, created),
{
    ModelCard { id: m.alias.clone(), object: "model", created, owned_by: "corp" }
}

pub fn to_model_list(models: &[ResolvedModel], created: i64) -> (r: ModelList)
    ensures
        r.object@ == "list"@,
        r.data@.len() == models@.len(),
        forall|i: int| 0 <= i < models@.len() ==> is_card_of(#[trigger] r.data@[i], models@[i], created),
{
    let n: usize = models.len();
    let mut data: Vec<ModelCard> = Vec::new();
    let mut i: usize = 0;
    while i < n
        invariant
            i <= n == models@.len(),
            data@.len() == i,
            forall|k: int| 0 <= k < i ==> is_card_of(#[trigger] data@[k], models@[k], created),
        decreases n - i,
    {
        data.push(model_card(&models[i], created));
        i += 1;
    }
    ModelList { object: "list", data }
}

pub open spec fn not_found_view(name: Seq<char>) -> Seq<char> {
    "모델 '"@ + name
        + "' 을(를) 찾을 수 없습니다. GET /v1/models 또는 트레이 메뉴의 「모델 목록」에서 모델 ID 를 확인하세요."@
}

/// What a client is told that asks for a model which is not there.
pub fn not_found_envelope(name: &str) -> (r: ErrorEnvelope)
    ensures
        r.says(
            not_found_view(name@),
            type_view(404),
            Some("model"@),
            Some("model_not_found"@),
        ),
{
    let mut message = "모델 '".to_owned();
    message.append(name);
    message.append(
        "' 을(를) 찾을 수 없습니다. GET /v1/models 또는 트레이 메뉴의 「모델 목록」에서 모델 ID 를 확인하세요.",
    );
    ErrorEnvelope::new(message, openai_type(404), Some("model_not_found".to_owned())).with_param(
        "model".to_owned(),
    )
}

/// One model, by its id or alias.
pub fn retrieve(models: &[ResolvedModel], id: &str, created: i64) -> (r: Result<
    ModelCard,
    ErrorEnvelope,
>)
    ensures
        match asked_for(models@, id@) {
            Some(m) => r matches Ok(card) && is_card_of(card, m, created),
            None => r matches Err(env) && env.says(
                not_found_view(id@),
                type_view(404),
                Some("model"@),
                Some("model_not_found"@),
            ),
        },
{
    match find_model(models, id) {
        Some(m) => Ok(model_card(m, created)),
        None => Err(not_found_envelope(id)),
    }
}

// ───────────────────────── the cache ─────────────────────────

/// How long a list is good for, in milliseconds.
pub const MODELS_CACHE_TTL: u64 = 60_000;

/// The list that the gateway gave last.
#[derive(Debug)]
pub struct ModelsCache {
    /// When that was, in milliseconds on a clock that never goes back.
    pub fetched_at: u64,
    /// When that was, for people.
    pub fetched_label: String,
    pub models: Vec<ResolvedModel>,
    /// The gateway's answer.
    pub raw: String,
}

/// A list of models, and where it comes from.
#[derive(Debug)]
pub struct LoadedModels {
    pub models: Vec<ResolvedModel>,
    pub cached: bool,
    pub fetched_at: String,
    pub raw: String,
}

pub fn copy_models(models: &[ResolvedModel]) -> (r: Vec<ResolvedModel>)
    ensures
        r@ == models@,
{
    let n: usize = models.len();
    let mut out: Vec<ResolvedModel> = Vec::new();
    let mut i: usize = 0;
    while i < n
        invariant
            i <= n == models@.len(),
            out@ == models@.take(i as int),
        decreases n - i,
    {
        out.push(models[i].copy());
        assert(out@ =~= models@.take(i + 1));
        i += 1;
    }
    assert(out@ =~= models@);
    out
}

impl ModelsCache {
    /// The list is still good.
    pub open spec fn fresh_at(self, now: u64) -> bool {
        now - self.fetched_at < MODELS_CACHE_TTL
    }

    pub fn is_fresh(&self, now: u64) -> (r: bool)
        ensures
            r == self.fresh_at(now),
    {
        now < self.fetched_at || now - self.fetched_at < MODELS_CACHE_TTL
    }

    /// The list that the gateway just gave, with a name for every model.
    pub fn fill(models: &[FabrixModel], raw: String, now: u64, label: String) -> (r: ModelsCache)
        ensures
            r.fetched_at == now,
            r.fetched_label == label,
            r.raw == raw,
            names_models(models@, r.models@),
    {
        ModelsCache { fetched_at: now, fetched_label: label, models: build_aliases(models), raw }
    }

    /// What the cache holds.
    pub fn load(&self, cached: bool) -> (r: LoadedModels)
        ensures
            r.models@ == self.models@,
            r.cached == cached,
            r.fetched_at == self.fetched_label,
            r.raw == self.raw,
    {
        LoadedModels {
            models: copy_models(self.models.as_slice()),
            cached,
            fetched_at: self.fetched_label.clone(),
            raw: self.raw.clone(),
        }
    }
}

/// Where a list of models is to be had.
#[derive(Debug)]
pub enum Lookup {
    /// Out of the cache.
    Cached(LoadedModels),
    /// From the gateway.
    Ask,
    /// Nowhere: there are no settings for the gateway.
    NotConfigured,
}

/// The cache is good enough for this call.
pub open spec fn cache_serves(cache: Option<ModelsCache>, refresh: bool, now: u64) -> bool {
    !refresh && match cache {
        Some(c) => c.fresh_at(now),
        None => false,
    }
}

/// Settles where a list comes from. With `refresh` the cache is passed over.
pub fn look_up(cache: &Option<ModelsCache>, cfg: &Config, refresh: bool, now: u64) -> (r: Lookup)
    ensures
        if cache_serves(*cache, refresh, now) {
            r matches Lookup::Cached(loaded) && loaded.cached && loaded.models@
                == cache->0.models@ && loaded.fetched_at == cache->0.fetched_label && loaded.raw
                == cache->0.raw
        } else if cfg.configured() {
            r is Ask
        } else {
            r is NotConfigured
        },
{
    if !refresh {
        match cache {
            Some(c) => {
                if c.is_fresh(now) {
                    return Lookup::Cached(c.load(true));
                }
            },
            None => {},
        }
    }
    if cfg.is_configured() {
        Lookup::Ask
    } else {
        Lookup::NotConfigured
    }
}

/// Within the time that a list is good for, it is handed out again as it came,
/// unless the caller insists on a new one.
pub proof fn law_lists_are_kept(cache: ModelsCache, now: u64)
    requires
        now < cache.fetched_at + MODELS_CACHE_TTL,
    ensures
        cache_serves(Some(cache), false, now),
        !cache_serves(Some(cache), true, now),
{
}

// ───────────────────────── what the log keeps ─────────────────────────

/// The list as the log shows it: every model, with the gateway's id beside the alias.
pub open spec fn list_lines(models: Seq<ResolvedModel>) -> Seq<char>
    decreases models.len(),
{
    if models.len() == 0 {
        "{ \"object\": \"list\", \"data\": [\n"@
    } else {
        let m = models.last();
        list_lines(models.drop_last()) + "  { \"id\": \""@ + m.alias@
            + "\", \"owned_by\": \"corp\" },   ← "@ + m.model_id@ + " · "@ + m.label@ + "\n"@
    }
}

pub fn render_model_list(models: &[ResolvedModel]) -> (r: String)
    ensures
        r@ == list_lines(models@) + "] }"@,
{
    let n: usize = models.len();
    let mut out = "{ \"object\": \"list\", \"data\": [\n".to_owned();
    let mut i: usize = 0;
    assert(models@.take(0) =~= seq![]);
    while i < n
        invariant
            i <= n == models@.len(),
            out@ == list_lines(models@.take(i as int)),
        decreases n - i,
    {
        proof {
            assert(models@.take(i + 1).drop_last() =~= models@.take(i as int));
            assert(models@.take(i + 1).last() == models@[i as int]);
        }
        out.append("  { \"id\": \"");
        out.append(models[i].alias.as_str());
        out.append("\", \"owned_by\": \"corp\" },   ← ");
        out.append(models[i].model_id.as_str());
        out.append(" · ");
        out.append(models[i].label.as_str());
        out.append("\n");
        i += 1;
    }
    assert(models@.take(n as int) =~= models@);
    out.append("] }");
    out
}

/// What is known of a call for the models.
#[derive(Debug)]
pub struct ModelsCall {
    pub path: String,
    pub client: Option<String>,
    pub req_openai: String,
    pub req_fabrix_headers: String,
    pub fabrix_url: String,
}

pub open spec fn request_lines(
    path: Seq<char>,
    auth: Seq<char>,
    user_agent: Option<Seq<char>>,
) -> Seq<char> {
    "GET "@ + path + "\nAuthorization: "@ + auth + "\nUser-Agent: "@ + (match user_agent {
        Some(ua) => ua,
        None => "(없음)"@,
    })
}

pub open spec fn models_url(cfg: Config) -> Seq<char> {
    origin(cfg.fabrix_base_url@) + MODELS_PATH@
}

/// The tail of the request's record, where the list came out of the cache.
pub open spec fn sent_lines(url: Seq<char>, cached: bool) -> Seq<char> {
    if cached {
        "GET "@ + url + "\n\n(60초 캐시가 유효해 사내 호출을 생략했습니다)"@
    } else {
        "GET "@ + url
    }
}

pub open spec fn list_meta(count: nat, cached: bool) -> Seq<char> {
    "모델 "@ + dec(count) + "개 · "@ + (if cached {
        "캐시에서 반환"@
    } else {
        "사내에서 새로 조회"@
    }) + " · 캐시 60초"@
}

/// The record of the gateway's answer. Where it is an earlier one, it says so.
pub open spec fn list_wire(raw: Seq<char>, cached: bool) -> Seq<char> {
    if cached {
        "(캐시 히트 — 아래는 캐시를 채운 조회의 원문입니다)\n\n"@ + raw
    } else {
        raw
    }
}

impl ModelsCall {
    pub fn begin(
        cfg: &Config,
        path: &str,
        client: Option<String>,
        has_authorization: bool,
        user_agent: Option<&str>,
    ) -> (r: ModelsCall)
        ensures
            r.path@ == path@,
            r.client == client,
            r.req_openai@ == request_lines(
                path@,
                auth_line(cfg.token_mode, has_authorization),
                match user_agent {
                    Some(s) => Some(s@),
                    None => None,
                },
            ),
            r.req_fabrix_headers@ == headers_line(*cfg),
            r.fabrix_url@ == models_url(*cfg),
    {
        let mut lines = "GET ".to_owned();
        lines.append(path);
        lines.append("\nAuthorization: ");
        lines.append(super::gate::inbound_auth_line(cfg, has_authorization));
        lines.append("\nUser-Agent: ");
        match user_agent {
            Some(ua) => lines.append(ua),
            None => lines.append("(없음)"),
        }
        ModelsCall {
            path: path.to_owned(),
            client,
            req_openai: lines,
            req_fabrix_headers: fabrix_headers_line(cfg),
            fabrix_url: cfg.normalized_base_url().concat(MODELS_PATH),
        }
    }

    /// The entry tells of this call.
    pub open spec fn is_told_by(self, e: LogEntry) -> bool {
        &&& e.kind == Kind::Models
        &&& e.method@ == Kind::Models.method_view()
        &&& e.path == self.path
        &&& !e.stream
        &&& e.model_requested is None
        &&& e.model_alias is None
        &&& e.model_id is None
        &&& e.model_label is None
        &&& e.client == self.client
        &&& e.req_openai == self.req_openai
        &&& e.req_fabrix_headers == self.req_fabrix_headers
        &&& e.fabrix_url == self.fabrix_url
    }

    fn entry(
        &self,
        stamp: Stamp,
        status: u16,
        cached: bool,
        is_error: bool,
        note: Option<String>,
        summary: Option<String>,
        req_fabrix: String,
        resp_body: String,
        resp_meta: String,
        raw: RawWire,
    ) -> (r: LogEntry)
        ensures
            r.stamped(stamp),
            self.is_told_by(r),
            r.cached == cached,
            r.req_fabrix == req_fabrix,
            r.raw == raw,
            r.tells(
                status,
                is_error,
                opt_text(note),
                opt_text(summary),
                resp_body@,
                resp_meta@,
            ),
    {
        LogEntry {
            id: stamp.id,
            ts: stamp.ts,
            ts_full: stamp.ts_full,
            kind: Kind::Models,
            method: Kind::Models.method(),
            path: self.path.clone(),
            status,
            latency_ms: stamp.latency_ms,
            stream: false,
            cached,
            model_requested: None,
            model_alias: None,
            model_id: None,
            model_label: None,
            client: copy_text(&self.client),
            note,
            summary,
            is_error,
            req_openai: self.req_openai.clone(),
            req_fabrix,
            req_fabrix_headers: self.req_fabrix_headers.clone(),
            fabrix_url: self.fabrix_url.clone(),
            resp_body,
            resp_meta,
            raw,
        }
    }

    /// The entry for a caller without the token.
    pub fn refused(&self, stamp: Stamp, status: u16, envelope: &ErrorEnvelope) -> (r: LogEntry)
        ensures
            r.stamped(stamp),
            self.is_told_by(r),
            !r.cached,
            r.req_fabrix@ == "(토큰 검증 실패 — 사내 호출을 하지 않았습니다)"@,
            r.raw.empty(),
            r.tells(
                status,
                true,
                Some("토큰 거부"@),
                Some("토큰 거부"@),
                envelope.error.message@,
                "거부 · HTTP "@ + dec(status as nat),
            ),
    {
        let mut meta = "거부 · HTTP ".to_owned();
        meta.append(dec_u64(status as u64).as_str());
        self.entry(
            stamp,
            status,
            false,
            true,
            Some("토큰 거부".to_owned()),
            Some("토큰 거부".to_owned()),
            "(토큰 검증 실패 — 사내 호출을 하지 않았습니다)".to_owned(),
            envelope.error.message.clone(),
            meta,
            RawWire::default(),
        )
    }

    /// The entry for a list that was handed out. `raw` is the gateway's answer.
    pub fn listed(&self, stamp: Stamp, models: &[ResolvedModel], cached: bool, raw: &str) -> (r: LogEntry)
        ensures
            r.stamped(stamp),
            self.is_told_by(r),
            r.cached == cached,
            r.req_fabrix@ == sent_lines(self.fabrix_url@, cached),
            r.raw.upstream_captured,
            !r.raw.client_captured,
            r.raw.upstream@ == list_wire(raw@, cached),
            r.raw.client@.len() == 0,
            r.tells(
                200,
                false,
                if cached {
                    Some("캐시 히트"@)
                } else {
                    None
                },
                Some(dec(models@.len()) + "개"@),
                list_lines(models@) + "] }"@,
                list_meta(models@.len(), cached),
            ),
    {
        let note = if cached {
            Some("캐시 히트".to_owned())
        } else {
            None
        };
        let mut summary = dec_u64(models.len() as u64);
        summary.append("개");
        let mut sent = "GET ".to_owned();
        sent.append(self.fabrix_url.as_str());
        if cached {
            sent.append("\n\n(60초 캐시가 유효해 사내 호출을 생략했습니다)");
        }
        let mut meta = "모델 ".to_owned();
        meta.append(dec_u64(models.len() as u64).as_str());
        meta.append("개 · ");
        if cached {
            meta.append("캐시에서 반환");
        } else {
            meta.append("사내에서 새로 조회");
        }
        meta.append(" · 캐시 60초");
        let upstream = if cached {
            "(캐시 히트 — 아래는 캐시를 채운 조회의 원문입니다)\n\n".to_owned().concat(raw)
        } else {
            raw.to_owned()
        };
        let wire = RawWire {
            upstream_captured: true,
            client_captured: false,
            upstream,
            client: String::new(),
        };
        self.entry(
            stamp,
            200,
            cached,
            false,
            note,
            Some(summary),
            sent,
            render_model_list(models),
            meta,
            wire,
        )
    }

    /// The entry for a list that could not be had.
    pub fn failed(&self, stamp: Stamp, err: &FabrixError, raw: &str) -> (r: LogEntry)
        ensures
            r.stamped(stamp),
            self.is_told_by(r),
            !r.cached,
            r.req_fabrix@ == "GET "@ + self.fabrix_url@,
            r.raw.upstream_captured,
            !r.raw.client_captured,
            r.raw.upstream@ == raw@,
            r.raw.client@.len() == 0,
            r.tells(
                err.status_view(),
                true,
                Some(err.note_view()),
                Some(err.note_view()),
                err.message_view(),
                "실패 · HTTP "@ + dec(err.status_view() as nat),
            ),
    {
        let mut meta = "실패 · HTTP ".to_owned();
        meta.append(dec_u64(err.status() as u64).as_str());
        let mut sent = "GET ".to_owned();
        sent.append(self.fabrix_url.as_str());
        let wire = RawWire {
            upstream_captured: true,
            client_captured: false,
            upstream: raw.to_owned(),
            client: String::new(),
        };
        self.entry(
            stamp,
            err.status(),
            false,
            true,
            Some(err.note()),
            Some(err.note()),
            sent,
            err.message(),
            meta,
            wire,
        )
    }
}

/// The id on a card can be asked for: it finds the model that the card is of, unless
/// it happens to be the gateway's id of one. It is no UUID but a name.
pub proof fn law_card_id_can_be_asked_for(
    models: Seq<FabrixModel>,
    named: Seq<ResolvedModel>,
    i: int,
    card: ModelCard,
    created: i64,
)
    requires
        names_models(models, named),
        0 <= i < named.len(),
        is_card_of(card, named[i], created),
        forall|k: int| 0 <= k < named.len() ==> (#[trigger] named[k]).model_id@ != named[i].alias@,
    ensures
        asked_for(named, card.id@) == Some(named[i]),
        starts_with(card.id@, "fabrix-"@),
        card.id@ != named[i].model_id@,
{
    law_alias_shape(models, named, i);
    law_alias_finds_its_model(models, named, i);
}

} // verus!
