//! Image calls: what is made of a request, what the client is answered and what the
//! log keeps.

use vstd::prelude::*;
use vstd::string::*;
use vstd::utf8::*;

use crate::bytes::{lossy, utf8_lossy};
use crate::config::{origin, Config};
use crate::json::{
    json_members, json_pretty, json_view, json_views, lemma_json_views, number_of, object1,
    object2, object3, Json, JsonView,
};
use crate::logstore::{preview, preview_view, Kind, LogEntry, RawWire, Stamp};
use crate::openai::{
    copy_text, data_url_view, opt_text, parse_size, size_view, size_written, split_data_url, ErrorEnvelope,
    ImageDatum, ImageEditRequest, ImageGenerationRequest, ImageRef, ImagesResponse,
};
use crate::text::{dec, dec_u64, same, trim, trimmed};

use super::b64::{b64_bytes, b64_text, decode, decodes_to, encode, without_white};
use super::chat_request::{http_line, http_text, incoming_view, Refusal};
use super::envelope::type_view;
use super::fabrix::FabrixError;
use super::gate::{fabrix_headers_line, headers_line};
use super::image_backend::{
    bytes_or_none, compose_edit_prompt, edit_prompt, mime_view, placeholder_png, resolve_image_model, resolve_text_model, resolve_vision_model, size_or_default, sniff_mime,
    ImageError, DEFAULT_SIZE, MAX_N, MESSAGES_WITH_MODELS_PATH, PLACEHOLDER,
};

verus! {

pub const GENERATIONS_PATH: &'static str = "/v1/images/generations";

pub const EDITS_PATH: &'static str = "/v1/images/edits";

/// The prompt for requests without one.
pub const FALLBACK_PROMPT: &'static str = "A high-quality reference image.";

// ───────────────────────── the request in the log ─────────────────────────

/// A text as the log shows it: of a data URL the length only.
pub open spec fn redacted_text(s: Seq<char>) -> Seq<char> {
    match data_url_view(s) {
        Some((mime, payload)) => "data:"@ + mime + ";base64,…("@ + dec(encode_utf8(payload).len())
            + " chars)"@,
        None => s,
    }
}

/// A tree whose texts are shown so.
pub open spec fn redacted(v: JsonView) -> JsonView
    decreases v,
{
    match v {
        JsonView::Text(s) => JsonView::Text(redacted_text(s)),
        JsonView::Array(items) => JsonView::Array(
            Seq::new(
                items.len(),
                |i: int|
                    if 0 <= i < items.len() {
                        redacted(items[i])
                    } else {
                        JsonView::Null
                    },
            ),
        ),
        JsonView::Object(m) => JsonView::Object(redacted_members(m)),
        other => other,
    }
}

/// The members of an object; there are finitely many.
pub open spec fn redacted_members(m: Map<Seq<char>, JsonView>) -> Map<Seq<char>, JsonView>
    decreases m,
{
    Map::new(
        |k: Seq<char>| m.dom().contains(k),
        |k: Seq<char>|
            if m.dom().finite() && m.dom().contains(k) {
                redacted(m[k])
            } else {
                JsonView::Null
            },
    )
}

fn redact_text(s: &str) -> (r: String)
    ensures
        r@ == redacted_text(s@),
{
    match split_data_url(s) {
        Some((mime, payload)) => {
            let mut out = "data:".to_owned();
            out.append(mime);
            out.append(";base64,…(");
            out.append(dec_u64(payload.as_bytes().len() as u64).as_str());
            out.append(" chars)");
            out
        },
        None => s.to_owned(),
    }
}

proof fn lemma_members_finite(list: Seq<(String, Json)>)
    ensures
        json_members(list).dom().finite(),
    decreases list.len(),
{
    if list.len() > 0 {
        lemma_members_finite(list.drop_last());
    }
}

/// A copy of a tree for the log, without the payloads of data URLs.
pub fn redact_data_urls(v: &Json) -> (r: Json)
    ensures
        r@ == redacted(v@),
    decreases *v,
{
    match v {
        Json::Text(s) => Json::Text(redact_text(s.as_str())),
        Json::Array(items) => {
            let mut out: Vec<Json> = Vec::new();
            let mut i: usize = 0;
            while i < items.len()
                invariant
                    i <= items@.len(),
                    *v == Json::Array(*items),
                    out@.len() == i,
                    forall|k: int| 0 <= k < i ==> json_view(#[trigger] out@[k]) == redacted(json_view(items@[k])),
                decreases items@.len() - i,
            {
                assert(decreases_to!(items => items[i as int]));
                assert(decreases_to!(*v => v->Array_0));
                out.push(redact_data_urls(&items[i]));
                i += 1;
            }
            proof {
                lemma_json_views(items@);
                lemma_json_views(out@);
                assert(json_views(out@) =~= redacted(v@)->Array_0);
            }
            Json::Array(out)
        },
        Json::Object(list) => {
            let mut out: Vec<(String, Json)> = Vec::new();
            let mut i: usize = 0;
            proof {
                assert(list@.take(0) =~= Seq::<(String, Json)>::empty());
                assert(json_members(out@) =~= redacted_members(json_members(list@.take(0))));
            }
            while i < list.len()
                invariant
                    i <= list@.len(),
                    *v == Json::Object(*list),
                    json_members(out@) == redacted_members(json_members(list@.take(i as int))),
                decreases list@.len() - i,
            {
                assert(decreases_to!(list => list[i as int]));
                assert(decreases_to!(list[i as int] => list[i as int].1));
                assert(decreases_to!(*v => v->Object_0));
                let next = redact_data_urls(&list[i].1);
                let ghost before = out@;
                out.push((list[i].0.clone(), next));
                proof {
                    assert(out@.drop_last() =~= before);
                    assert(list@.take(i + 1).drop_last() =~= list@.take(i as int));
                    lemma_members_finite(list@.take(i as int));
                    lemma_members_finite(list@.take(i + 1));
                    assert(json_members(out@) =~= redacted_members(
                        json_members(list@.take(i + 1)),
                    ));
                }
                i += 1;
            }
            assert(list@.take(list@.len() as int) =~= list@);
            Json::Object(out)
        },
        _ => v.copy(),
    }
}

// ───────────────────────── a call ─────────────────────────

/// What is known of an image call while it runs.
#[derive(Debug)]
pub struct ImageCall {
    pub path: &'static str,
    pub client: Option<String>,
    pub model_requested: Option<String>,
    /// The model that makes the image.
    pub model_used: Option<String>,
    /// The model that describes an image.
    pub vision_model: Option<String>,
    pub req_openai: String,
    pub req_fabrix: String,
    pub req_fabrix_headers: String,
    pub fabrix_url: String,
    /// The answer is a placeholder.
    pub stub: bool,
}

pub open spec fn shown_images(incoming: JsonView, body: Seq<u8>) -> Seq<char> {
    if incoming is Null {
        preview_view(utf8_lossy(body), 2000)
    } else {
        preview_view(json_pretty(redacted(incoming)), 2000)
    }
}

impl ImageCall {
    /// Nothing is known of the call but that it came.
    pub open spec fn just_begun(
        self,
        cfg: Config,
        path: Seq<char>,
        client: Option<String>,
        shown: Seq<char>,
    ) -> bool {
        &&& self.path@ == path
        &&& self.client == client
        &&& self.model_requested is None
        &&& self.model_used is None
        &&& self.vision_model is None
        &&& self.req_openai@ == shown
        &&& self.req_fabrix@ == "(요청을 변환하기 전에 실패했습니다)"@
        &&& self.req_fabrix_headers@ == headers_line(cfg)
        &&& self.fabrix_url@ == origin(cfg.fabrix_base_url@) + MESSAGES_WITH_MODELS_PATH@
        &&& !self.stub
    }

    /// A call whose body is read as `incoming`.
    pub fn begin_with(
        cfg: &Config,
        path: &'static str,
        client: Option<String>,
        incoming: &Json,
        body: &[u8],
    ) -> (r: ImageCall)
        ensures
            r.just_begun(*cfg, path@, client, shown_images(incoming@, body@)),
    {
        let shown = match incoming {
            Json::Null => preview(lossy(body).as_str(), 2000),
            _ => preview(redact_data_urls(incoming).pretty().as_str(), 2000),
        };
        ImageCall {
            path,
            client,
            model_requested: None,
            model_used: None,
            vision_model: None,
            req_openai: shown,
            req_fabrix: "(요청을 변환하기 전에 실패했습니다)".to_owned(),
            req_fabrix_headers: fabrix_headers_line(cfg),
            fabrix_url: cfg.normalized_base_url().concat(MESSAGES_WITH_MODELS_PATH),
            stub: false,
        }
    }

    /// A call as it comes in.
    pub fn begin(cfg: &Config, path: &'static str, client: Option<String>, body: &[u8]) -> (r:
        ImageCall)
        ensures
            r.just_begun(*cfg, path@, client, shown_images(incoming_view(body@), body@)),
    {
        let incoming = match Json::parse_bytes(body) {
            Ok(tree) => tree,
            Err(_) => Json::Null,
        };
        ImageCall::begin_with(cfg, path, client, &incoming, body)
    }

    /// The entry tells of this call. Of the wire nothing is kept: images are large.
    pub open spec fn is_told_by(self, e: LogEntry) -> bool {
        &&& e.kind == Kind::Images
        &&& e.method@ == Kind::Images.method_view()
        &&& e.path@ == self.path@
        &&& !e.stream
        &&& !e.cached
        &&& e.model_requested == self.model_requested
        &&& e.model_alias == self.model_used
        &&& e.model_id == self.model_used
        &&& e.model_label == self.model_used
        &&& e.client == self.client
        &&& e.req_openai == self.req_openai
        &&& e.req_fabrix == self.req_fabrix
        &&& e.req_fabrix_headers == self.req_fabrix_headers
        &&& e.fabrix_url == self.fabrix_url
        &&& e.raw.empty()
    }

    pub fn entry(
        &self,
        stamp: Stamp,
        status: u16,
        is_error: bool,
        note: Option<String>,
        summary: Option<String>,
        resp_body: String,
        resp_meta: String,
    ) -> (r: LogEntry)
        ensures
            r.stamped(stamp),
            self.is_told_by(r),
            r.tells(
                status,
                is_error,
                opt_text(note),
                opt_text(summary),
                resp_body@,
                resp_meta@,
            ),
    {
        LogEntry {
            id: stamp.id,
            ts: stamp.ts,
            ts_full: stamp.ts_full,
            kind: Kind::Images,
            method: Kind::Images.method(),
            path: self.path.to_owned(),
            status,
            latency_ms: stamp.latency_ms,
            stream: false,
            cached: false,
            model_requested: copy_text(&self.model_requested),
            model_alias: copy_text(&self.model_used),
            model_id: copy_text(&self.model_used),
            model_label: copy_text(&self.model_used),
            client: copy_text(&self.client),
            note,
            summary,
            is_error,
            req_openai: self.req_openai.clone(),
            req_fabrix: self.req_fabrix.clone(),
            req_fabrix_headers: self.req_fabrix_headers.clone(),
            fabrix_url: self.fabrix_url.clone(),
            resp_body,
            resp_meta,
            raw: RawWire::default(),
        }
    }

    /// The entry for a call that is refused.
    pub fn refuse(&self, stamp: Stamp, refusal: &Refusal) -> (r: LogEntry)
        ensures
            r.stamped(stamp),
            self.is_told_by(r),
            r.tells(
                refusal.status,
                true,
                Some(refusal.note@),
                Some(refusal.note@),
                refusal.body@,
                refusal.meta@,
            ),
    {
        self.entry(
            stamp,
            refusal.status,
            true,
            Some(refusal.note.clone()),
            Some(refusal.note.clone()),
            refusal.body.clone(),
            refusal.meta.clone(),
        )
    }
}

// ───────────────────────── refusals ─────────────────────────

/// A request that asks for nothing that can be done.
pub open spec fn refuses(r: Refusal, message: Seq<char>) -> bool {
    &&& r.logs(400, "잘못된 요청"@, message, "요청 검증 실패"@)
    &&& r.envelope.says(message, "invalid_request_error"@, None, None)
}

pub fn bad_request(message: String) -> (r: Refusal)
    ensures
        refuses(r, message@),
{
    Refusal {
        status: 400,
        note: "잘못된 요청".to_owned(),
        body: message.clone(),
        meta: "요청 검증 실패".to_owned(),
        envelope: ErrorEnvelope::new(message, "invalid_request_error", None),
    }
}

/// The refusal of a body that cannot be read.
pub fn unreadable_request(detail: &str) -> (r: Refusal)
    ensures
        refuses(r, "요청 본문을 해석하지 못했습니다: "@ + detail@),
{
    bad_request("요청 본문을 해석하지 못했습니다: ".to_owned().concat(detail))
}

/// The refusal of a body that is too large.
pub fn oversize_refusal(envelope: ErrorEnvelope) -> (r: Refusal)
    ensures
        r.logs(413, "본문이 너무 큼"@, envelope.error.message@, http_line("거부 · HTTP "@, 413)),
        r.envelope == envelope,
{
    Refusal {
        status: 413,
        note: "본문이 너무 큼".to_owned(),
        body: envelope.error.message.clone(),
        meta: http_text("거부 · HTTP ", 413),
        envelope,
    }
}

/// What a failure on the way to an image is answered with.
pub fn image_refusal(err: &ImageError) -> (r: Refusal)
    ensures
        r.logs(
            err.status_view(),
            err.note_view(),
            err.message_view(),
            http_line("실패 · HTTP "@, err.status_view()),
        ),
        r.envelope.says(err.message_view(), type_view(err.status_view()), None, None),
{
    let status: u16 = err.status();
    Refusal {
        status,
        note: err.note(),
        body: err.message(),
        meta: http_text("실패 · HTTP ", status),
        envelope: ErrorEnvelope::new(err.message(), err.kind(), None),
    }
}

// ───────────────────────── jobs ─────────────────────────

/// How many images a request asks for: at least one, at most `MAX_N`.
pub open spec fn count_view(n: Option<u32>) -> u32 {
    match n {
        None => 1,
        Some(k) => if k < 1 {
            1
        } else if k > MAX_N {
            MAX_N
        } else {
            k
        },
    }
}

fn image_count(n: Option<u32>) -> (r: u32)
    ensures
        r == count_view(n),
        1 <= r <= MAX_N,
{
    match n {
        None => 1,
        Some(k) => {
            if k < 1 {
                1
            } else if k > MAX_N {
                MAX_N
            } else {
                k
            }
        },
    }
}

/// The size that a request asks for.
pub open spec fn asked_size(size: Option<String>) -> (u32, u32) {
    match size {
        Some(s) => match size_view(s@) {
            Some(pair) => pair,
            None => DEFAULT_SIZE,
        },
        None => DEFAULT_SIZE,
    }
}

fn size_asked_for(size: &Option<String>) -> (r: (u32, u32))
    ensures
        r == asked_size(*size),
{
    size_or_default(
        match size {
            Some(s) => parse_size(s.as_str()),
            None => None,
        },
    )
}

/// The prompt of a request, if it has one.
pub open spec fn asked_prompt(prompt: Option<String>) -> Option<Seq<char>> {
    match prompt {
        Some(p) => if trim(p@).len() == 0 {
            None
        } else {
            Some(trim(p@))
        },
        None => None,
    }
}

fn prompt_asked_for(prompt: &Option<String>) -> (r: Option<&str>)
    ensures
        match r {
            Some(s) => asked_prompt(*prompt) == Some(s@),
            None => asked_prompt(*prompt) is None,
        },
{
    match prompt {
        Some(p) => {
            let t = trimmed(p.as_str());
            if t.is_empty() {
                None
            } else {
                Some(t)
            }
        },
        None => None,
    }
}

/// Images to be made out of a text.
#[derive(Debug)]
pub struct GenerationJob {
    pub prompt: String,
    pub size: (u32, u32),
    pub n: u32,
}

pub fn generation_job(req: &ImageGenerationRequest) -> (r: GenerationJob)
    ensures
        r.prompt@ == match asked_prompt(req.prompt) {
            Some(p) => p,
            None => FALLBACK_PROMPT@,
        },
        r.size == asked_size(req.size),
        r.n == count_view(req.n),
{
    let prompt = match prompt_asked_for(&req.prompt) {
        Some(p) => p.to_owned(),
        None => FALLBACK_PROMPT.to_owned(),
    };
    GenerationJob { prompt, size: size_asked_for(&req.size), n: image_count(req.n) }
}

/// An image to be changed.
#[derive(Debug)]
pub struct EditJob {
    pub prompt: String,
    pub image: Vec<u8>,
    pub mime: String,
    pub size: (u32, u32),
    pub n: u32,
}

/// The URL of the first image.
pub open spec fn first_url(images: Seq<ImageRef>) -> Option<Seq<char>> {
    if images.len() == 0 {
        None
    } else {
        match images[0].image_url {
            Some(u) => u.url_view(),
            None => None,
        }
    }
}

/// The media type of an image: the one it is declared with, else what its bytes tell.
pub open spec fn image_mime(declared: Seq<char>, bytes: Seq<u8>) -> Seq<char> {
    if declared == "application/octet-stream"@ {
        mime_view(bytes)
    } else {
        declared
    }
}

/// The prompt, the image and its media type, else why the request is refused.
pub open spec fn edit_view(req: ImageEditRequest) -> Result<(Seq<char>, Seq<u8>, Seq<char>), Seq<char>> {
    match asked_prompt(req.prompt) {
        None => Err("prompt 가 필요합니다."@),
        Some(prompt) => match first_url(req.images@) {
            None => Err("편집할 이미지가 없습니다 (images[0].image_url)."@),
            Some(url) => match data_url_view(url) {
                None => Err("images[0].image_url 이 올바른 base64 data URL 이 아닙니다."@),
                Some((mime, payload)) => match b64_bytes(without_white(payload)) {
                    Err(e) => Err("이미지 base64 디코드 실패: "@ + e),
                    Ok(bytes) => Ok((prompt, bytes, image_mime(mime, bytes))),
                },
            },
        },
    }
}

pub fn edit_job(req: &ImageEditRequest) -> (r: Result<EditJob, Refusal>)
    ensures
        match edit_view(*req) {
            Ok((prompt, image, mime)) => r matches Ok(job) && {
                &&& job.prompt@ == prompt
                &&& job.image@ == image
                &&& job.mime@ == mime
                &&& job.size == asked_size(req.size)
                &&& job.n == count_view(req.n)
            },
            Err(message) => r matches Err(refusal) && refuses(refusal, message),
        },
{
    let prompt = match prompt_asked_for(&req.prompt) {
        Some(p) => p.to_owned(),
        None => {
            return Err(bad_request("prompt 가 필요합니다.".to_owned()));
        },
    };
    let first = if req.images.len() == 0 {
        None
    } else {
        match &req.images[0].image_url {
            Some(u) => u.as_str(),
            None => None,
        }
    };
    let url = match first {
        Some(url) => url,
        None => {
            return Err(
                bad_request("편집할 이미지가 없습니다 (images[0].image_url).".to_owned()),
            );
        },
    };
    let (declared, payload) = match split_data_url(url) {
        Some(pair) => pair,
        None => {
            return Err(
                bad_request(
                    "images[0].image_url 이 올바른 base64 data URL 이 아닙니다.".to_owned(),
                ),
            );
        },
    };
    let image = match decode(payload) {
        Ok(bytes) => bytes,
        Err(e) => {
            return Err(
                bad_request("이미지 base64 디코드 실패: ".to_owned().concat(e.as_str())),
            );
        },
    };
    let mime = if same(declared, "application/octet-stream") {
        sniff_mime(image.as_slice()).to_owned()
    } else {
        declared.to_owned()
    };
    Ok(
        EditJob {
            prompt,
            image,
            mime,
            size: size_asked_for(&req.size),
            n: image_count(req.n),
        },
    )
}

// ───────────────────────── what is sent ─────────────────────────

/// How a job is done.
#[derive(Debug)]
pub enum ImagePlan {
    /// The gateway is left alone; the answer is a placeholder.
    Placeholder,
    /// These models are called.
    Call { text_model: String, model: String },
    /// The image is described first.
    DescribeAndCall { text_model: String, vision_model: String, model: String },
}

fn size_text(size: (u32, u32)) -> (r: String)
    ensures
        r@ == size_written(size.0, size.1),
{
    let mut out = dec_u64(size.0 as u64);
    out.append("x");
    out.append(dec_u64(size.1 as u64).as_str());
    out
}

/// What the log shows of the call that makes an image.
pub open spec fn generation_view(model: Seq<char>, size: (u32, u32), prompt: Seq<char>) -> JsonView {
    object3(
        "model"@,
        JsonView::Text(model),
        "size"@,
        JsonView::Text(size_written(size.0, size.1)),
        "prompt"@,
        JsonView::Text(prompt),
    )
}

fn generation_tree(model: &str, size: (u32, u32), prompt: &str) -> (r: Json)
    ensures
        r@ == generation_view(model@, size, prompt@),
{
    Json::object3(
        "model",
        Json::text(model),
        "size",
        Json::Text(size_text(size)),
        "prompt",
        Json::text(prompt),
    )
}

/// What the log shows of the call that describes an image.
pub open spec fn vision_view(model: Seq<char>, mime: Seq<char>, bytes: nat) -> JsonView {
    object3(
        "model"@,
        JsonView::Text(model),
        "mime"@,
        JsonView::Text(mime),
        "bytes"@,
        JsonView::Number(number_of(bytes as u64)),
    )
}

/// A model setting that was left empty.
pub open spec fn unset(setting: Seq<char>) -> bool {
    trim(setting).len() == 0
}

pub open spec fn not_configured<T>(r: Result<T, ImageError>) -> bool {
    r matches Err(ImageError::Backend(FabrixError::NotConfigured))
}

impl ImageCall {
    /// The answer will be a placeholder.
    pub open spec fn stubbed(self, before: ImageCall, sent: Seq<char>) -> bool {
        &&& opt_text(self.model_used) == Some("[stub]"@)
        &&& self.req_fabrix@ == sent
        &&& self == (ImageCall {
            stub: true,
            model_used: self.model_used,
            vision_model: self.vision_model,
            req_fabrix: self.req_fabrix,
            ..before
        })
    }

    /// Settles how images are made out of a text.
    pub fn plan_generation(&mut self, cfg: &Config, job: &GenerationJob) -> (r: Result<
        ImagePlan,
        ImageError,
    >)
        ensures
            if cfg.image_stub_mode {
                &&& r == Ok::<ImagePlan, ImageError>(ImagePlan::Placeholder)
                &&& final(self).stubbed(
                    *old(self),
                    "(stub 모드 — 자리표시자 PNG, 업스트림 호출 없음)"@,
                )
                &&& final(self).vision_model == old(self).vision_model
            } else if unset(cfg.image_text_model@) || unset(cfg.image_model@) {
                &&& not_configured(r)
                &&& *final(self) == *old(self)
            } else {
                &&& opt_text(final(self).model_used) == Some(trim(cfg.image_model@))
                &&& final(self).req_fabrix@ == json_pretty(
                    object1(
                        "generation"@,
                        generation_view(trim(cfg.image_model@), job.size, job.prompt@),
                    ),
                )
                &&& *final(self) == (ImageCall {
                    model_used: final(self).model_used,
                    req_fabrix: final(self).req_fabrix,
                    ..*old(self)
                })
                &&& if cfg.configured() {
                    r matches Ok(ImagePlan::Call { text_model, model }) && text_model@ == trim(
                        cfg.image_text_model@,
                    ) && model@ == trim(cfg.image_model@)
                } else {
                    not_configured(r)
                }
            },
    {
        if cfg.image_stub_mode {
            self.stub = true;
            self.model_used = Some("[stub]".to_owned());
            self.req_fabrix = "(stub 모드 — 자리표시자 PNG, 업스트림 호출 없음)".to_owned();
            return Ok(ImagePlan::Placeholder);
        }
        let text_model = match resolve_text_model(cfg) {
            Ok(m) => m,
            Err(e) => {
                return Err(e);
            },
        };
        let model = match resolve_image_model(cfg) {
            Ok(m) => m,
            Err(e) => {
                return Err(e);
            },
        };
        self.model_used = Some(model.clone());
        self.req_fabrix = Json::object1(
            "generation",
            generation_tree(model.as_str(), job.size, job.prompt.as_str()),
        ).pretty();
        if !cfg.is_configured() {
            return Err(ImageError::Backend(FabrixError::NotConfigured));
        }
        Ok(ImagePlan::Call { text_model, model })
    }

    /// Settles how an image is changed.
    pub fn plan_edit(&mut self, cfg: &Config) -> (r: Result<ImagePlan, ImageError>)
        ensures
            if cfg.image_stub_mode {
                &&& r == Ok::<ImagePlan, ImageError>(ImagePlan::Placeholder)
                &&& final(self).stubbed(
                    *old(self),
                    "(stub 모드 — gemma/FLUX 호출 없이 자리표시자 PNG)"@,
                )
                &&& opt_text(final(self).vision_model) == Some("[stub]"@)
            } else if unset(cfg.image_text_model@) || unset(cfg.vision_model@) {
                &&& not_configured(r)
                &&& *final(self) == *old(self)
            } else {
                &&& opt_text(final(self).vision_model) == Some(trim(cfg.vision_model@))
                &&& *final(self) == (ImageCall {
                    vision_model: final(self).vision_model,
                    model_used: final(self).model_used,
                    ..*old(self)
                })
                &&& if unset(cfg.image_model@) {
                    not_configured(r) && final(self).model_used == old(self).model_used
                } else {
                    &&& opt_text(final(self).model_used) == Some(trim(cfg.image_model@))
                    &&& if cfg.configured() {
                        r matches Ok(ImagePlan::DescribeAndCall { text_model, vision_model, model })
                            && text_model@ == trim(cfg.image_text_model@) && vision_model@ == trim(
                            cfg.vision_model@,
                        ) && model@ == trim(cfg.image_model@)
                    } else {
                        not_configured(r)
                    }
                }
            },
    {
        if cfg.image_stub_mode {
            self.stub = true;
            self.model_used = Some("[stub]".to_owned());
            self.vision_model = Some("[stub]".to_owned());
            self.req_fabrix = "(stub 모드 — gemma/FLUX 호출 없이 자리표시자 PNG)".to_owned();
            return Ok(ImagePlan::Placeholder);
        }
        let text_model = match resolve_text_model(cfg) {
            Ok(m) => m,
            Err(e) => {
                return Err(e);
            },
        };
        let vision_model = match resolve_vision_model(cfg) {
            Ok(m) => m,
            Err(e) => {
                return Err(e);
            },
        };
        self.vision_model = Some(vision_model.clone());
        let model = match resolve_image_model(cfg) {
            Ok(m) => m,
            Err(e) => {
                return Err(e);
            },
        };
        self.model_used = Some(model.clone());
        if !cfg.is_configured() {
            return Err(ImageError::Backend(FabrixError::NotConfigured));
        }
        Ok(ImagePlan::DescribeAndCall { text_model, vision_model, model })
    }

    /// The image has been described. What follows is the prompt for the new one.
    pub fn described(
        &mut self,
        vision_model: &str,
        model: &str,
        job: &EditJob,
        description: &str,
    ) -> (r: String)
        ensures
            r@ == edit_prompt(description@, job.prompt@),
            final(self).req_fabrix@ == json_pretty(
                object2(
                    "vision"@,
                    vision_view(vision_model@, job.mime@, job.image@.len()),
                    "generation"@,
                    generation_view(model@, job.size, edit_prompt(description@, job.prompt@)),
                ),
            ),
            *final(self) == (ImageCall { req_fabrix: final(self).req_fabrix, ..*old(self) }),
    {
        let composed = compose_edit_prompt(description, job.prompt.as_str());
        let vision = Json::object3(
            "model",
            Json::text(vision_model),
            "mime",
            Json::text(job.mime.as_str()),
            "bytes",
            Json::number(job.image.len() as u64),
        );
        self.req_fabrix = Json::object2(
            "vision",
            vision,
            "generation",
            generation_tree(model, job.size, composed.as_str()),
        ).pretty();
        composed
    }
}

/// The answer of the placeholder mode.
pub fn placeholders(n: u32) -> (r: Vec<Vec<u8>>)
    ensures
        r@.len() == n,
        forall|i: int|
            0 <= i < n ==> (#[trigger] r@[i])@ == bytes_or_none(b64_bytes(without_white(PLACEHOLDER@))),
{
    let mut out: Vec<Vec<u8>> = Vec::new();
    let mut i: u32 = 0;
    while i < n
        invariant
            i <= n,
            out@.len() == i,
            forall|k: int|
                0 <= k < i ==> (#[trigger] out@[k])@ == bytes_or_none(
                    b64_bytes(without_white(PLACEHOLDER@)),
                ),
        decreases n - i,
    {
        out.push(placeholder_png());
        i += 1;
    }
    out
}

// ───────────────────────── the answer ─────────────────────────

/// The bytes of all the images.
pub open spec fn total_bytes(images: Seq<Vec<u8>>) -> nat
    decreases images.len(),
{
    if images.len() == 0 {
        0
    } else {
        total_bytes(images.drop_last()) + images.last()@.len()
    }
}

proof fn lemma_total_grows(images: Seq<Vec<u8>>, n: int)
    requires
        0 <= n <= images.len(),
    ensures
        total_bytes(images.take(n)) <= total_bytes(images),
    decreases images.len() - n,
{
    if n < images.len() {
        lemma_total_grows(images, n + 1);
        assert(images.take(n + 1).drop_last() =~= images.take(n));
    } else {
        assert(images.take(n) =~= images);
    }
}

/// The media type that is told of the images: that of the first one.
pub open spec fn told_mime(images: Seq<Vec<u8>>) -> Seq<char> {
    if images.len() == 0 {
        "image/png"@
    } else {
        mime_view(images[0]@)
    }
}

/// A datum that holds an image, and nothing else. Decoding it gives the image.
pub open spec fn is_datum(d: ImageDatum, image: Seq<u8>) -> bool {
    &&& opt_text(d.b64_json) == Some(b64_text(image))
    &&& decodes_to(without_white(b64_text(image)), image)
    &&& d.url is None
    &&& d.revised_prompt is None
}

impl ImageCall {
    pub open spec fn tag_view(self) -> Seq<char> {
        if self.stub {
            "[stub] "@
        } else {
            ""@
        }
    }

    /// The answer to a call, and its entry. The log is told how many images there are
    /// and how large they are, and not what they show.
    pub fn finish(&self, stamp: Stamp, created: i64, images: &Vec<Vec<u8>>) -> (r: (
        ImagesResponse,
        LogEntry,
    ))
        requires
            total_bytes(images@) <= usize::MAX,
        ensures
            r.0.created == created,
            r.0.data@.len() == images@.len(),
            forall|i: int|
                0 <= i < images@.len() ==> is_datum(#[trigger] r.0.data@[i], images@[i]@),
            r.1.stamped(stamp),
            self.is_told_by(r.1),
            r.1.tells(
                200,
                false,
                if self.stub {
                    Some("[stub] 자리표시자 PNG"@)
                } else {
                    None
                },
                Some(
                    self.tag_view() + "이미지 "@ + dec(images@.len()) + "장 · "@ + told_mime(
                        images@,
                    ),
                ),
                self.tag_view() + "이미지 "@ + dec(images@.len()) + "장 · "@ + told_mime(images@)
                    + " · b64 "@ + dec(total_bytes(images@)) + " bytes"@,
                self.tag_view() + dec(images@.len()) + "장 · "@ + told_mime(images@) + " · "@ + dec(
                    total_bytes(images@),
                ) + " bytes"@,
            ),
    {
        let count: usize = images.len();
        let mut data: Vec<ImageDatum> = Vec::new();
        let mut total: usize = 0;
        let mut i: usize = 0;
        assert(images@.take(0) =~= seq![]);
        while i < count
            invariant
                i <= count == images@.len(),
                data@.len() == i,
                forall|k: int| 0 <= k < i ==> is_datum(#[trigger] data@[k], images@[k]@),
                total == total_bytes(images@.take(i as int)),
                total_bytes(images@) <= usize::MAX,
            decreases count - i,
        {
            proof {
                assert(images@.take(i + 1).drop_last() =~= images@.take(i as int));
                assert(images@.take(i + 1).last() == images@[i as int]);
                lemma_total_grows(images@, i + 1);
            }
            data.push(
                ImageDatum {
                    b64_json: Some(encode(images[i].as_slice())),
                    url: None,
                    revised_prompt: None,
                },
            );
            total = total + images[i].len();
            i += 1;
        }
        assert(images@.take(count as int) =~= images@);
        let mime = if count == 0 {
            "image/png"
        } else {
            sniff_mime(images[0].as_slice())
        };
        let tag = if self.stub {
            "[stub] "
        } else {
            ""
        };
        let mut summary = tag.to_owned();
        summary.append("이미지 ");
        summary.append(dec_u64(count as u64).as_str());
        summary.append("장 · ");
        summary.append(mime);
        let mut body = summary.clone();
        body.append(" · b64 ");
        body.append(dec_u64(total as u64).as_str());
        body.append(" bytes");
        let mut meta = tag.to_owned();
        meta.append(dec_u64(count as u64).as_str());
        meta.append("장 · ");
        meta.append(mime);
        meta.append(" · ");
        meta.append(dec_u64(total as u64).as_str());
        meta.append(" bytes");
        let note = if self.stub {
            Some("[stub] 자리표시자 PNG".to_owned())
        } else {
            None
        };
        let entry = self.entry(stamp, 200, false, note, Some(summary), body, meta);
        (ImagesResponse { created, data }, entry)
    }
}

} // verus!
