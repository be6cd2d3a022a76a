//! Images: what is sent to the gateway for them, and what is made of its answers.
//!
//! Making and recognising an image go to one path of the gateway. Both name two
//! models, a text model and the one that does the work. An edit is a description of
//! the image, followed by the making of another.

use vstd::prelude::*;
use vstd::string::*;
use vstd::utf8::*;

use crate::config::Config;
use crate::json::{
    json_parse, json_text, lemma_json_views, number_of, object2, Json,
    JsonView,
};
use crate::logstore::{preview, preview_view};
use crate::text::{
    blank, same, split_at_char, split_once, trim, trimmed,
};

use super::b64::{b64_bytes, decode, without_white};
use super::decode::{DecoderView, StreamDecoder};
use super::envelope::{openai_type, type_view};
use super::fabrix::FabrixError;

verus! {

pub const MESSAGES_WITH_MODELS_PATH: &'static str = "/openapi/chat/v1/messages-with-models";

/// The size for requests that name none.
pub const DEFAULT_SIZE: (u32, u32) = (1024, 1024);

/// The most images that one request can ask for.
pub const MAX_N: u32 = 4;

/// What the recognising model is asked for by callers without an instruction.
pub const DESCRIBE_INSTRUCTION: &'static str = "이 이미지를 다른 이미지 생성 모델이 재현할 수 있을 만큼 자세히 묘사해줘. 주요 객체, 색상, 구도, 스타일, 배경, 질감을 빠짐없이 포함하고, 텍스트로만 답해줘.";

// ───────────────────────── errors ─────────────────────────

#[derive(Debug, Clone)]
pub enum ImageError {
    BadRequest(String),
    Backend(FabrixError),
}

impl ImageError {
    /// A gateway that cannot be reached is worth another try, so it is told as 503.
    pub open spec fn status_view(self) -> u16 {
        match self {
            ImageError::BadRequest(_) => 400,
            ImageError::Backend(FabrixError::Unreachable(_)) => 503,
            ImageError::Backend(inner) => inner.status_view(),
        }
    }

    pub fn status(&self) -> (r: u16)
        ensures
            r == self.status_view(),
    {
        match self {
            ImageError::BadRequest(_) => 400,
            ImageError::Backend(inner) => match inner {
                FabrixError::Unreachable(_) => 503,
                _ => inner.status(),
            },
        }
    }

    pub open spec fn note_view(self) -> Seq<char> {
        match self {
            ImageError::BadRequest(_) => "잘못된 요청"@,
            ImageError::Backend(inner) => inner.note_view(),
        }
    }

    pub fn note(&self) -> (r: String)
        ensures
            r@ == self.note_view(),
    {
        match self {
            ImageError::BadRequest(_) => "잘못된 요청".to_owned(),
            ImageError::Backend(inner) => inner.note(),
        }
    }

    pub open spec fn message_view(self) -> Seq<char> {
        match self {
            ImageError::BadRequest(m) => m@,
            ImageError::Backend(inner) => inner.message_view(),
        }
    }

    pub fn message(&self) -> (r: String)
        ensures
            r@ == self.message_view(),
    {
        match self {
            ImageError::BadRequest(m) => m.clone(),
            ImageError::Backend(inner) => inner.message(),
        }
    }

    /// The error type for the envelope.
    pub fn kind(&self) -> (r: &'static str)
        ensures
            r@ == type_view(self.status_view()),
    {
        openai_type(self.status())
    }
}

// ───────────────────────── models and sizes ─────────────────────────

/// The setting, where there is one.
pub open spec fn required(setting: Seq<char>, r: Result<String, ImageError>) -> bool {
    if blank(setting) {
        r == Err::<String, ImageError>(ImageError::Backend(FabrixError::NotConfigured))
    } else {
        r matches Ok(s) && s@ == trim(setting)
    }
}

fn require_model(value: &str) -> (r: Result<String, ImageError>)
    ensures
        required(value@, r),
{
    let v = trimmed(value);
    if v.is_empty() {
        Err(ImageError::Backend(FabrixError::NotConfigured))
    } else {
        Ok(v.to_owned())
    }
}

pub fn resolve_text_model(cfg: &Config) -> (r: Result<String, ImageError>)
    ensures
        required(cfg.image_text_model@, r),
{
    require_model(cfg.image_text_model.as_str())
}

pub fn resolve_image_model(cfg: &Config) -> (r: Result<String, ImageError>)
    ensures
        required(cfg.image_model@, r),
{
    require_model(cfg.image_model.as_str())
}

pub fn resolve_vision_model(cfg: &Config) -> (r: Result<String, ImageError>)
    ensures
        required(cfg.vision_model@, r),
{
    require_model(cfg.vision_model.as_str())
}

pub fn size_or_default(requested: Option<(u32, u32)>) -> (r: (u32, u32))
    ensures
        r == match requested {
            Some(size) => size,
            None => DEFAULT_SIZE,
        },
{
    match requested {
        Some(size) => size,
        None => DEFAULT_SIZE,
    }
}

/// The prompt for the image that an edit asks for.
pub open spec fn edit_prompt(description: Seq<char>, instruction: Seq<char>) -> Seq<char> {
    if blank(description) {
        trim(instruction)
    } else {
        "원본 이미지 설명:\n"@ + trim(description) + "\n\n요청된 편집:\n"@ + trim(instruction)
            + "\n\n위 설명을 바탕으로, 편집 지시를 반영한 이미지를 생성하세요."@
    }
}

pub fn compose_edit_prompt(description: &str, instruction: &str) -> (r: String)
    ensures
        r@ == edit_prompt(description@, instruction@),
{
    let d = trimmed(description);
    let i = trimmed(instruction);
    if d.is_empty() {
        return i.to_owned();
    }
    let mut out = "원본 이미지 설명:\n".to_owned();
    out.append(d);
    out.append("\n\n요청된 편집:\n");
    out.append(i);
    out.append("\n\n위 설명을 바탕으로, 편집 지시를 반영한 이미지를 생성하세요.");
    out
}

// ───────────────────────── image bytes ─────────────────────────

pub open spec fn begins(bytes: Seq<u8>, magic: Seq<u8>) -> bool {
    magic.len() <= bytes.len() && bytes.take(magic.len() as int) == magic
}

/// `RIFF`, four bytes, `WEBP`.
pub open spec fn webp(bytes: Seq<u8>) -> bool {
    &&& bytes.len() >= 12
    &&& bytes.subrange(0, 4) == seq![0x52u8, 0x49, 0x46, 0x46]
    &&& bytes.subrange(8, 12) == seq![0x57u8, 0x45, 0x42, 0x50]
}

/// The media type that the first bytes tell. What is not known is taken for PNG.
pub open spec fn mime_view(bytes: Seq<u8>) -> Seq<char> {
    if begins(bytes, seq![0xffu8, 0xd8, 0xff]) {
        "image/jpeg"@
    } else if begins(bytes, seq![0x89u8, 0x50, 0x4e, 0x47, 0x0d, 0x0a, 0x1a, 0x0a]) {
        "image/png"@
    } else if webp(bytes) {
        "image/webp"@
    } else {
        "image/png"@
    }
}

pub fn sniff_mime(bytes: &[u8]) -> (r: &'static str)
    ensures
        r@ == mime_view(bytes@),
{
    let n: usize = bytes.len();
    if n >= 3 && bytes[0] == 0xff && bytes[1] == 0xd8 && bytes[2] == 0xff {
        assert(bytes@.take(3) =~= seq![0xffu8, 0xd8, 0xff]);
        return "image/jpeg";
    }
    proof {
        if begins(bytes@, seq![0xffu8, 0xd8, 0xff]) {
            let head = bytes@.take(3);
            assert(head[0] == bytes@[0] && head[1] == bytes@[1] && head[2] == bytes@[2]);
        }
    }
    if n >= 12 && bytes[0] == 0x52 && bytes[1] == 0x49 && bytes[2] == 0x46 && bytes[3] == 0x46
        && bytes[8] == 0x57 && bytes[9] == 0x45 && bytes[10] == 0x42 && bytes[11] == 0x50 {
        proof {
            assert(bytes@.subrange(0, 4) =~= seq![0x52u8, 0x49, 0x46, 0x46]);
            assert(bytes@.subrange(8, 12) =~= seq![0x57u8, 0x45, 0x42, 0x50]);
            if begins(bytes@, seq![0x89u8, 0x50, 0x4e, 0x47, 0x0d, 0x0a, 0x1a, 0x0a]) {
                assert(bytes@.take(8)[0] == bytes@[0]);
            }
        }
        return "image/webp";
    }
    proof {
        if webp(bytes@) {
            let a = bytes@.subrange(0, 4);
            let b = bytes@.subrange(8, 12);
            assert(a[0] == bytes@[0] && a[1] == bytes@[1] && a[2] == bytes@[2] && a[3] == bytes@[3]);
            assert(b[0] == bytes@[8] && b[1] == bytes@[9] && b[2] == bytes@[10] && b[3]
                == bytes@[11]);
        }
    }
    "image/png"
}

pub open spec fn ext_view(mime: Seq<char>) -> Seq<char> {
    if mime == "image/jpeg"@ {
        "jpg"@
    } else if mime == "image/webp"@ {
        "webp"@
    } else {
        "png"@
    }
}

/// The file name extension for a media type.
pub fn ext_for_mime(mime: &str) -> (r: &'static str)
    ensures
        r@ == ext_view(mime@),
{
    if same(mime, "image/jpeg") {
        "jpg"
    } else if same(mime, "image/webp") {
        "webp"
    } else {
        "png"
    }
}

/// A transparent PNG of one pixel, in base64.
pub const PLACEHOLDER: &'static str = "iVBORw0KGgoAAAANSUhEUgAAAAEAAAABCAQAAAC1HAwCAAAAC0lEQVR42mNk+M9QDwADhgGAWjR9awAAAABJRU5ErkJggg==";

pub open spec fn bytes_or_none(r: Result<Seq<u8>, Seq<char>>) -> Seq<u8> {
    match r {
        Ok(b) => b,
        Err(_) => seq![],
    }
}

pub fn placeholder_png() -> (r: Vec<u8>)
    ensures
        r@ == bytes_or_none(b64_bytes(without_white(PLACEHOLDER@))),
{
    match decode(PLACEHOLDER) {
        Ok(v) => v,
        Err(_) => {
            let none: Vec<u8> = Vec::new();
            assert(none@ =~= seq![]);
            none
        },
    }
}

// ───────────────────────── requests ─────────────────────────

/// The model settings that go with an image. This path takes the plain spellings.
pub const LLM_CONFIG: &'static str = "{\"max_new_tokens\":1024,\"repetition_penalty\":1.04,\"temperature\":0.4,\"top_k\":14,\"top_p\":0.94}";

pub fn default_llm_config() -> (r: String)
    ensures
        r@ == LLM_CONFIG@,
{
    LLM_CONFIG.to_owned()
}

/// A form: names and values.
pub open spec fn form_views(list: Seq<(&'static str, String)>) -> Seq<(Seq<char>, Seq<char>)> {
    list.map_values(|p: (&'static str, String)| (p.0@, p.1@))
}

pub open spec fn message_config(size: (u32, u32)) -> JsonView {
    object2(
        "width"@,
        JsonView::Number(number_of(size.0 as u64)),
        "height"@,
        JsonView::Number(number_of(size.1 as u64)),
    )
}

/// The form that asks for an image. The text model comes first.
pub open spec fn generate_view(
    text_model: Seq<char>,
    gen_model: Seq<char>,
    prompt: Seq<char>,
    size: (u32, u32),
) -> Seq<(Seq<char>, Seq<char>)> {
    seq![
        ("modelIds"@, text_model),
        ("modelIds"@, gen_model),
        ("contents"@, prompt),
        ("llmConfig"@, LLM_CONFIG@),
        ("isStream"@, "False"@),
        ("messageConfig"@, json_text(message_config(size))),
    ]
}

pub fn generate_form(text_model: &str, gen_model: &str, prompt: &str, size: (u32, u32)) -> (r: Vec<
    (&'static str, String),
>)
    ensures
        form_views(r@) == generate_view(text_model@, gen_model@, prompt@, size),
{
    let config = Json::object2(
        "width",
        Json::number(size.0 as u64),
        "height",
        Json::number(size.1 as u64),
    );
    let mut out: Vec<(&'static str, String)> = Vec::new();
    out.push(("modelIds", text_model.to_owned()));
    out.push(("modelIds", gen_model.to_owned()));
    out.push(("contents", prompt.to_owned()));
    out.push(("llmConfig", default_llm_config()));
    out.push(("isStream", "False".to_owned()));
    out.push(("messageConfig", config.compact()));
    assert(form_views(out@) =~= generate_view(text_model@, gen_model@, prompt@, size));
    out
}

/// The form that asks for a description; the image goes with it as a file.
pub open spec fn understand_view(
    text_model: Seq<char>,
    vision_model: Seq<char>,
    instruction: Seq<char>,
) -> Seq<(Seq<char>, Seq<char>)> {
    seq![
        ("modelIds"@, text_model),
        ("modelIds"@, vision_model),
        ("contents"@, instruction),
        ("llmConfig"@, LLM_CONFIG@),
        ("isStream"@, "True"@),
    ]
}

pub fn understand_form(text_model: &str, vision_model: &str, instruction: &str) -> (r: Vec<
    (&'static str, String),
>)
    ensures
        form_views(r@) == understand_view(text_model@, vision_model@, instruction@),
{
    let mut out: Vec<(&'static str, String)> = Vec::new();
    out.push(("modelIds", text_model.to_owned()));
    out.push(("modelIds", vision_model.to_owned()));
    out.push(("contents", instruction.to_owned()));
    out.push(("llmConfig", default_llm_config()));
    out.push(("isStream", "True".to_owned()));
    assert(form_views(out@) =~= understand_view(text_model@, vision_model@, instruction@));
    out
}

/// The name of the file in which an image is sent.
pub fn file_name(mime: &str) -> (r: String)
    ensures
        r@ == "image."@ + ext_view(mime@),
{
    "image.".to_owned().concat(ext_for_mime(mime))
}

// ───────────────────────── answers ─────────────────────────

/// The text at `actions[0].answer`.
pub open spec fn first_answer(tree: JsonView) -> Option<Seq<char>> {
    match tree.get("actions"@) {
        Some(JsonView::Array(items)) => if items.len() > 0 {
            items[0].get_text("answer"@)
        } else {
            None
        },
        _ => None,
    }
}

/// What an answer holds in base64: all of it, or what follows the first comma.
pub open spec fn answer_payload(answer: Seq<char>) -> Seq<char> {
    match split_at_char(answer, ',') {
        Some((_, payload)) => payload,
        None => answer,
    }
}

/// The image in a response's body, else why there is none.
pub open spec fn image_view(body: Seq<char>) -> Result<Seq<u8>, Seq<char>> {
    match json_parse(body) {
        Err(e) => Err(
            "이미지 생성 응답 JSON 파싱 실패: "@ + e + " — 본문 앞부분: "@ + preview_view(body, 200),
        ),
        Ok(tree) => match first_answer(tree) {
            None => Err(
                "이미지 생성 응답에서 actions[0].answer 를 찾지 못했습니다 — 본문 앞부분: "@ + preview_view(
                    body,
                    200,
                ),
            ),
            Some(answer) => match b64_bytes(without_white(answer_payload(answer))) {
                Ok(bytes) => Ok(bytes),
                Err(e) => Err("이미지 base64 디코드 실패: "@ + e),
            },
        },
    }
}

/// The text at `actions[0].answer` of a tree.
pub fn answer_in_tree(tree: &Json) -> (r: Option<&str>)
    ensures
        match r {
            Some(s) => first_answer(tree@) == Some(s@),
            None => first_answer(tree@) is None,
        },
{
    match tree.get("actions") {
        Some(Json::Array(items)) => {
            proof {
                lemma_json_views(items@);
            }
            if items.len() > 0 {
                items[0].get_text("answer")
            } else {
                None
            }
        },
        _ => None,
    }
}

fn bad_payload(message: String) -> (r: ImageError)
    ensures
        r == ImageError::Backend(FabrixError::BadPayload(message)),
{
    ImageError::Backend(FabrixError::BadPayload(message))
}

/// A failure to read the gateway's answer.
pub open spec fn unreadable(e: ImageError, message: Seq<char>) -> bool {
    e matches ImageError::Backend(FabrixError::BadPayload(m)) && m@ == message
}

pub fn image_in_body(body: &str) -> (r: Result<Vec<u8>, ImageError>)
    ensures
        match image_view(body@) {
            Ok(bytes) => r matches Ok(v) && v@ == bytes,
            Err(message) => r matches Err(e) && unreadable(e, message),
        },
{
    let tree = match Json::parse(body) {
        Ok(tree) => tree,
        Err(e) => {
            let mut message = "이미지 생성 응답 JSON 파싱 실패: ".to_owned();
            message.append(e.as_str());
            message.append(" — 본문 앞부분: ");
            message.append(preview(body, 200).as_str());
            return Err(bad_payload(message));
        },
    };
    match answer_in_tree(&tree) {
        None => {
            let mut message =
                "이미지 생성 응답에서 actions[0].answer 를 찾지 못했습니다 — 본문 앞부분: ".to_owned();
            message.append(preview(body, 200).as_str());
            Err(bad_payload(message))
        },
        Some(answer) => {
            let payload = match split_once(answer, ',') {
                Some((_, payload)) => payload,
                None => answer,
            };
            match decode(payload) {
                Ok(v) => Ok(v),
                Err(e) => {
                    let mut message = "이미지 base64 디코드 실패: ".to_owned();
                    message.append(e.as_str());
                    Err(bad_payload(message))
                },
            }
        },
    }
}

/// The text of a stream that came in one piece.
pub open spec fn streamed_text(body: Seq<char>) -> Seq<char> {
    DecoderView::fresh().plus(encode_utf8(body)).decode().state.decode_end().state.text
}

/// The description in a response's body.
pub fn description_in_body(body: &str) -> (r: Result<String, ImageError>)
    ensures
        if blank(streamed_text(body@)) {
            r matches Err(e) && unreadable(
                e,
                "이미지 분석 응답이 비었습니다 — 본문 앞부분: "@ + preview_view(body@, 200),
            )
        } else {
            r matches Ok(s) && s@ == trim(streamed_text(body@))
        },
{
    let mut decoder = StreamDecoder::new();
    let _ = decoder.push(body.as_bytes());
    let _ = decoder.finish();
    let text = trimmed(decoder.text()).to_owned();
    if text.as_str().is_empty() {
        let mut message = "이미지 분석 응답이 비었습니다 — 본문 앞부분: ".to_owned();
        message.append(preview(body, 200).as_str());
        return Err(bad_payload(message));
    }
    Ok(text)
}

} // verus!
