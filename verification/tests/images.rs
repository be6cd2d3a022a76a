//! Images.

use fabrix_proxy::config::Config;
use fabrix_proxy::json::Json;
use fabrix_proxy::logstore::Stamp;
use fabrix_proxy::openai::{ImageEditRequest, ImageGenerationRequest, ImageRef, ImageUrl};
use fabrix_proxy::proxy::fabrix::FabrixError;
use fabrix_proxy::proxy::image_backend::{
    compose_edit_prompt, default_llm_config, description_in_body, ext_for_mime, file_name,
    generate_form, image_in_body, placeholder_png, resolve_image_model, resolve_text_model,
    resolve_vision_model, size_or_default, sniff_mime, understand_form, ImageError, DEFAULT_SIZE,
};
use fabrix_proxy::proxy::images::{
    edit_job, generation_job, image_refusal, placeholders, redact_data_urls, GenerationJob,
    ImageCall, ImagePlan, EDITS_PATH, GENERATIONS_PATH,
};

#[test]
fn image_error_status_mapping() {
    assert_eq!(ImageError::BadRequest("x".into()).status(), 400);
    assert_eq!(ImageError::Backend(FabrixError::Quota("q".into())).status(), 429);
    assert_eq!(ImageError::Backend(FabrixError::Unreachable("u".into())).status(), 503);
    assert_eq!(
        ImageError::Backend(FabrixError::Upstream { status: 418, message: "t".into() }).status(),
        418
    );
    assert_eq!(ImageError::Backend(FabrixError::NotConfigured).status(), 503);
}

#[test]
fn image_error_kind() {
    assert_eq!(ImageError::BadRequest("x".into()).kind(), "invalid_request_error");
    assert_eq!(ImageError::Backend(FabrixError::Quota("q".into())).kind(), "rate_limit_error");
}

#[test]
fn resolve_models_require_config() {
    let mut cfg = Config::default();
    assert!(resolve_text_model(&cfg).is_err());
    assert!(resolve_image_model(&cfg).is_err());
    assert!(resolve_vision_model(&cfg).is_err());
    cfg.image_text_model = "text-1".into();
    cfg.image_model = "flux-2".into();
    cfg.vision_model = "gemma-4".into();
    assert_eq!(resolve_text_model(&cfg).unwrap(), "text-1");
    assert_eq!(resolve_image_model(&cfg).unwrap(), "flux-2");
    assert_eq!(resolve_vision_model(&cfg).unwrap(), "gemma-4");
}

#[test]
fn size_or_default_falls_back() {
    assert_eq!(size_or_default(None), DEFAULT_SIZE);
    assert_eq!(size_or_default(Some((1792, 1024))), (1792, 1024));
}

#[test]
fn compose_edit_prompt_includes_both() {
    let p = compose_edit_prompt("빨간 자전거", "밤 풍경으로 바꿔줘");
    assert!(p.contains("빨간 자전거"));
    assert!(p.contains("밤 풍경으로 바꿔줘"));
    assert_eq!(compose_edit_prompt("", "밤 풍경으로"), "밤 풍경으로");
}

#[test]
fn sniff_and_ext() {
    assert_eq!(sniff_mime(&[0xFF, 0xD8, 0xFF, 0x00]), "image/jpeg");
    assert_eq!(
        sniff_mime(&[0x89, 0x50, 0x4E, 0x47, 0x0D, 0x0A, 0x1A, 0x0A]),
        "image/png"
    );
    let mut webp = b"RIFF".to_vec();
    webp.extend_from_slice(&[0, 0, 0, 0]);
    webp.extend_from_slice(b"WEBP");
    assert_eq!(sniff_mime(&webp), "image/webp");
    assert_eq!(sniff_mime(&[0, 1, 2, 3]), "image/png");
    assert_eq!(ext_for_mime("image/jpeg"), "jpg");
    assert_eq!(ext_for_mime("image/webp"), "webp");
    assert_eq!(ext_for_mime("image/png"), "png");
    assert_eq!(ext_for_mime("application/octet-stream"), "png");
}

#[test]
fn placeholder_is_valid_png() {
    let png = placeholder_png();
    assert!(!png.is_empty());
    assert_eq!(sniff_mime(&png), "image/png");
}

#[test]
fn default_llm_config_uses_correct_spelling() {
    let c = default_llm_config();
    assert!(c.contains("repetition_penalty"));
    assert!(c.contains("top_k"));
    assert!(!c.contains("repetion_penalty"));
    assert!(!c.contains("tok_k"));
}

#[test]
fn redact_data_urls_replaces_base64_payload() {
    let v = Json::parse(
        r#"{"prompt": "hi", "images": [{ "image_url": "data:image/png;base64,AAAABBBBCCCC" }]}"#,
    )
    .unwrap();
    let red = redact_data_urls(&v);
    let first = match red.get("images") {
        Some(Json::Array(items)) => &items[0],
        other => panic!("{other:?}"),
    };
    let s = first.get_text("image_url").unwrap();
    assert!(s.starts_with("data:image/png;base64,…("));
    assert!(!s.contains("AAAABBBBCCCC"));
    assert_eq!(red.get_text("prompt"), Some("hi"));
}

fn stamp() -> Stamp {
    Stamp { id: "i".into(), ts: "t".into(), ts_full: "f".into(), latency_ms: 3 }
}

fn config() -> Config {
    Config {
        fabrix_base_url: "https://x".into(),
        fabrix_client: "c".into(),
        openapi_token: "t".into(),
        image_text_model: " text-1 ".into(),
        image_model: "flux-2".into(),
        vision_model: "gemma-4".into(),
        ..Config::default()
    }
}

fn edit(prompt: &str, url: Option<&str>) -> ImageEditRequest {
    ImageEditRequest {
        prompt: Some(prompt.into()),
        model: None,
        n: Some(9),
        size: Some("1792x1024".into()),
        response_format: None,
        images: vec![ImageRef { image_url: url.map(|u| ImageUrl::Url(u.into())) }],
    }
}

#[test]
fn a_generation_has_a_prompt_a_size_and_a_count() {
    let job = generation_job(&ImageGenerationRequest {
        prompt: Some("  ".into()),
        model: None,
        n: Some(0),
        size: Some("auto".into()),
        response_format: None,
    });
    assert_eq!(job.prompt, "A high-quality reference image.");
    assert_eq!(job.size, (1024, 1024));
    assert_eq!(job.n, 1);
}

#[test]
fn an_edit_needs_a_prompt_and_an_image() {
    let refused = |req: ImageEditRequest| edit_job(&req).unwrap_err();
    assert_eq!(refused(edit(" ", None)).body, "prompt 가 필요합니다.");
    assert_eq!(
        refused(edit("x", None)).body,
        "편집할 이미지가 없습니다 (images[0].image_url)."
    );
    assert_eq!(
        refused(edit("x", Some("https://x/y.png"))).body,
        "images[0].image_url 이 올바른 base64 data URL 이 아닙니다."
    );
    let r = refused(edit("x", Some("data:image/png;base64,!!")));
    assert!(r.body.starts_with("이미지 base64 디코드 실패: "), "{}", r.body);
    assert_eq!(r.status, 400);
    assert_eq!(r.envelope.error.kind, "invalid_request_error");
    let job = edit_job(&edit(" 밤으로 ", Some("data:;base64,/9j/"))).unwrap();
    assert_eq!(job.prompt, "밤으로");
    assert_eq!(job.image, vec![0xff, 0xd8, 0xff]);
    assert_eq!(job.mime, "image/jpeg");
    assert_eq!(job.size, (1792, 1024));
    assert_eq!(job.n, 4);
}

#[test]
fn a_generation_is_planned_sent_and_answered() {
    let cfg = config();
    let mut call = ImageCall::begin(&cfg, GENERATIONS_PATH, None, b"{\"prompt\":\"hi\"}");
    assert_eq!(call.fabrix_url, "https://x/openapi/chat/v1/messages-with-models");
    assert_eq!(call.req_openai, "{\n  \"prompt\": \"hi\"\n}");
    let job = GenerationJob { prompt: "hi".into(), size: (8, 9), n: 1 };
    match call.plan_generation(&cfg, &job).unwrap() {
        ImagePlan::Call { text_model, model } => {
            assert_eq!(text_model, "text-1");
            assert_eq!(model, "flux-2");
        }
        other => panic!("{other:?}"),
    }
    assert!(call.req_fabrix.contains("\"size\": \"8x9\""), "{}", call.req_fabrix);
    let form = generate_form("text-1", "flux-2", "hi", (8, 9));
    assert_eq!(form[0], ("modelIds", "text-1".to_string()));
    assert_eq!(form[1], ("modelIds", "flux-2".to_string()));
    assert_eq!(form[4], ("isStream", "False".to_string()));
    assert_eq!(form[5], ("messageConfig", "{\"height\":9,\"width\":8}".to_string()));
    let (resp, entry) = call.finish(stamp(), 5, &vec![vec![0xff, 0xd8, 0xff]]);
    assert_eq!(resp.created, 5);
    assert_eq!(resp.data[0].b64_json.as_deref(), Some("/9j/"));
    assert_eq!(entry.summary.as_deref(), Some("이미지 1장 · image/jpeg"));
    assert_eq!(entry.resp_body, "이미지 1장 · image/jpeg · b64 3 bytes");
    assert_eq!(entry.resp_meta, "1장 · image/jpeg · 3 bytes");
    assert_eq!(entry.model_id.as_deref(), Some("flux-2"));
    assert_eq!(entry.path, "/v1/images/generations");
}

#[test]
fn a_stub_answers_without_the_gateway() {
    let cfg = Config { image_stub_mode: true, ..Config::default() };
    let mut call = ImageCall::begin(&cfg, EDITS_PATH, None, b"?");
    assert_eq!(call.req_openai, "?");
    assert!(matches!(call.plan_edit(&cfg), Ok(ImagePlan::Placeholder)));
    assert!(call.stub);
    let (resp, entry) = call.finish(stamp(), 5, &placeholders(2));
    assert_eq!(resp.data.len(), 2);
    assert_eq!(entry.note.as_deref(), Some("[stub] 자리표시자 PNG"));
    assert!(entry.resp_meta.starts_with("[stub] 2장 · image/png · "), "{}", entry.resp_meta);
}

#[test]
fn an_edit_describes_before_it_draws() {
    let cfg = config();
    let mut call = ImageCall::begin(&cfg, EDITS_PATH, None, b"{}");
    assert!(matches!(call.plan_edit(&cfg), Ok(ImagePlan::DescribeAndCall { .. })));
    let job = edit_job(&edit("밤으로", Some("data:image/png;base64,AAAA"))).unwrap();
    let prompt = call.described("gemma-4", "flux-2", &job, "빨간 자전거");
    assert!(prompt.contains("빨간 자전거") && prompt.contains("밤으로"));
    assert!(call.req_fabrix.contains("\"bytes\": 3"), "{}", call.req_fabrix);
    let form = understand_form("text-1", "gemma-4", "밤으로");
    assert_eq!(form[4], ("isStream", "True".to_string()));
    assert_eq!(file_name("image/webp"), "image.webp");
}

#[test]
fn settings_that_are_missing_are_told() {
    let mut cfg = config();
    cfg.vision_model = String::new();
    let mut call = ImageCall::begin(&cfg, EDITS_PATH, None, b"{}");
    let err = call.plan_edit(&cfg).unwrap_err();
    let r = image_refusal(&err);
    assert_eq!(r.status, 503);
    assert_eq!(r.meta, "실패 · HTTP 503");
    assert_eq!(r.envelope.error.kind, "api_error");
    let e = call.refuse(stamp(), &r);
    assert!(e.is_error);
    cfg.openapi_token = String::new();
    let job = GenerationJob { prompt: "hi".into(), size: (8, 9), n: 1 };
    assert!(call.plan_generation(&cfg, &job).is_err());
}

#[test]
fn the_gateways_answers_are_read() {
    let ok = image_in_body(r#"{"actions":[{"answer":"data:image/png;base64,Zm9v"}]}"#);
    assert_eq!(ok.unwrap(), b"foo");
    assert_eq!(image_in_body(r#"{"actions":[{"answer":"Zm9v"}]}"#).unwrap(), b"foo");
    for (body, says) in [
        ("nope", "JSON 파싱 실패"),
        ("{}", "actions[0].answer"),
        (r#"{"actions":[{"answer":"!"}]}"#, "base64 디코드 실패"),
    ] {
        let err = image_in_body(body).unwrap_err();
        assert!(err.message().contains(says), "{}", err.message());
        assert_eq!(err.status(), 502);
    }
    let sse = "data: {\"content\":\" 빨간 \"}\n\ndata: {\"content\":\"자전거 \"}\n\n";
    assert_eq!(description_in_body(sse).unwrap(), "빨간 자전거");
    assert!(description_in_body("").is_err());
}

#[test]
fn the_settings_for_images_are_json() {
    let tree = Json::parse(&default_llm_config()).unwrap();
    assert_eq!(tree.compact(), default_llm_config());
}

#[test]
fn generate_sends_two_model_ids_and_decodes_answer() {
    let png = "iVBORw0KGgoAAAANSUhEUgAAAAEAAAABCAQAAAC1HAwCAAAAC0lEQVR42mNk+M9QDwADhgGAWjR9awAAAABJRU5ErkJggg==";
    let body = format!(
        r#"{{"status":"SUCCESS","response_code":"R20000","actions":[{{"answer":"{png}"}}]}}"#
    );
    assert_eq!(sniff_mime(&image_in_body(&body).unwrap()), "image/png");

    let form = generate_form("text-1", "flux-2", "강아지 그려줘", (64, 48));
    let has = |name: &str, value: &str| form.iter().any(|(n, v)| *n == name && v == value);
    assert!(has("modelIds", "text-1"));
    assert!(has("modelIds", "flux-2"));
    assert!(has("isStream", "False"));
    assert!(form.iter().any(|(_, v)| v.contains("width") && v.contains("64")));
}

#[test]
fn understand_accumulates_sse_content() {
    let desc = description_in_body(
        "data: {\"event_status\":\"CHUNK\",\"content\":\"파란 하늘 \"}\n\n\
         data: {\"event_status\":\"CHUNK\",\"content\":\"아래 강아지\"}\n\n\
         data: [DONE]\n\n",
    )
    .unwrap();
    assert!(desc.contains("파란 하늘"), "desc={desc}");
    assert!(desc.contains("아래 강아지"), "desc={desc}");
}
