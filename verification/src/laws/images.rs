//! Images.

use vstd::prelude::*;
use vstd::string::*;
use vstd::utf8::encode_utf8;

use crate::bytes::utf8_lossy;
use crate::config::Config;
use crate::json::{json_parse, json_parse_bytes, json_pretty, json_text, number_of, JsonView};
use crate::logstore::{preview_view, Kind, LogEntry, Stamp};
use crate::openai::{
    data_url_view, law_size_reads_back, opt_text, parse_size, size_view, split_data_url, ImageEditRequest,
    ImageGenerationRequest, ImageUrl,
};
use crate::proxy::b64::{b64_bytes, without_white};
use crate::proxy::chat_request::Refusal;
use crate::proxy::decode::DecoderView;
use crate::proxy::fabrix::FabrixError;
use crate::proxy::image_backend::{
    begins, compose_edit_prompt, description_in_body, ext_for_mime, form_views, generate_form, image_in_body,
    resolve_image_model, resolve_text_model, resolve_vision_model, sniff_mime, understand_form,
    webp, ImageError,
};
use crate::proxy::images::{
    edit_job, first_url, generation_job, image_refusal, redacted, redacted_members, total_bytes,
    EditJob, GenerationJob, ImageCall,
};
use crate::text::{
    all_digits, blank, contains, dec, find, is_digit, lemma_dec_digits, lemma_dec_value, lemma_find,
    lemma_find_is, lemma_no_white, lower, lower_char, occurs_at, split_at_char, starts_with, trim,
    trim_end, trim_start, white,
};

use super::text::lemma_holds;

verus! {

// ───────────────────────── what is asked for ─────────────────────────

/// As many images are made as are asked for: one where nothing is said, at least one,
/// and at most four.
pub proof fn law_as_many_as_asked_for(
    make: &ImageGenerationRequest,
    made: GenerationJob,
    edit: &ImageEditRequest,
    edited: Result<EditJob, Refusal>,
)
    requires
        call_ensures(generation_job, (make,), made),
        call_ensures(edit_job, (edit,), edited),
    ensures
        make.n is Some && 1 <= make.n->0 <= 4 ==> made.n == make.n->0,
        make.n is Some && make.n->0 == 0 ==> made.n == 1,
        make.n is Some && make.n->0 > 4 ==> made.n == 4,
        make.n is None ==> made.n == 1,
        edited matches Ok(job) ==> {
            &&& edit.n is Some && 1 <= edit.n->0 <= 4 ==> job.n == edit.n->0
            &&& edit.n is Some && edit.n->0 == 0 ==> job.n == 1
            &&& edit.n is Some && edit.n->0 > 4 ==> job.n == 4
            &&& edit.n is None ==> job.n == 1
        },
{
}

/// The images have the size that is asked for, and are square where none is.
pub proof fn law_the_size_asked_for(
    make: &ImageGenerationRequest,
    made: GenerationJob,
    edit: &ImageEditRequest,
    edited: Result<EditJob, Refusal>,
    w: u32,
    h: u32,
)
    requires
        call_ensures(generation_job, (make,), made),
        call_ensures(edit_job, (edit,), edited),
        w > 0,
        h > 0,
    ensures
        make.size is Some && make.size->0@ == dec(w as nat) + "x"@ + dec(h as nat) ==> made.size == (
            w,
            h,
        ),
        make.size is None ==> made.size == (1024u32, 1024u32),
        make.size is Some && (make.size->0@ == "auto"@ || make.size->0@.len() == 0) ==> made.size == (
            1024u32,
            1024u32,
        ),
        edited matches Ok(job) ==> {
            &&& edit.size is Some && edit.size->0@ == dec(w as nat) + "x"@ + dec(h as nat) ==> job.size
                == (w, h)
            &&& edit.size is None ==> job.size == (1024u32, 1024u32)
        },
{
    law_size_reads_back(w, h);
    if make.size is Some && (make.size->0@ == "auto"@ || make.size->0@.len() == 0) {
        let s = make.size->0@;
        lemma_auto(s);
    }
}

proof fn lemma_auto(s: Seq<char>)
    requires
        s == "auto"@ || s.len() == 0,
    ensures
        size_view(s) is None,
{
    reveal_strlit("auto");
    if s.len() > 0 {
        assert(s[0] == 'a' && s.last() == 'o');
        assert(!white(s[0]) && !white(s.last()));
        assert(trim_start(s) == s && trim_end(s) == s);
    }
}

/// A job asks for what the client wrote, without white space around it.
pub proof fn law_the_prompt_asked_for(
    make: &ImageGenerationRequest,
    made: GenerationJob,
    edit: &ImageEditRequest,
    edited: Result<EditJob, Refusal>,
)
    requires
        call_ensures(generation_job, (make,), made),
        call_ensures(edit_job, (edit,), edited),
    ensures
        make.prompt is Some && !blank(make.prompt->0@) ==> made.prompt@ == trim(make.prompt->0@),
        make.prompt is Some && blank(make.prompt->0@) ==> made.prompt@ == "A high-quality reference image."@,
        make.prompt is None ==> made.prompt@ == "A high-quality reference image."@,
        edited matches Ok(job) ==> (edit.prompt matches Some(p) && !blank(p@) && job.prompt@ == trim(
            p@,
        )),
        edit.prompt is None ==> edited is Err,
        edit.images@.len() == 0 ==> edited is Err,
        edited matches Err(refusal) ==> refusal.status == 400,
{
}

// ───────────────────────── data URLs ─────────────────────────

pub proof fn lemma_cut(a: Seq<char>, c: char, b: Seq<char>)
    requires
        !a.contains(c),
    ensures
        split_at_char(a + seq![c] + b, c) == Some((a, b)),
{
    let s = a + seq![c] + b;
    let n = a.len() as int;
    assert(s.subrange(n, n + 1) =~= seq![c]);
    assert(occurs_at(s, seq![c], n));
    assert forall|j: int| 0 <= j < n implies !#[trigger] occurs_at(s, seq![c], j) by {
        if occurs_at(s, seq![c], j) {
            assert(s.subrange(j, j + 1)[0] == c);
            assert(a[j] == c);
        }
    }
    lemma_find_is(s, seq![c], n);
    assert(s.take(n) =~= a);
    assert(s.skip(n + 1) =~= b);
}

proof fn lemma_data_url(url: Seq<char>, mime: Seq<char>, payload: Seq<char>)
    requires
        trim(url) == "data:"@ + mime + ";base64,"@ + payload,
        !mime.contains(','),
        !mime.contains(';'),
        mime.len() > 0,
    ensures
        data_url_view(url) == Some((mime, payload)),
{
    reveal_strlit("data:");
    reveal_strlit(";base64,");
    reveal_strlit("base64");
    let t = trim(url);
    let tag = seq!['b', 'a', 's', 'e', '6', '4'];
    assert("base64"@ =~= tag);
    assert(t.take(5) =~= "data:"@);
    let meta = mime + seq![';'] + tag;
    let rest = t.skip(5);
    assert(rest =~= meta + seq![','] + payload);
    if meta.contains(',') {
        let j = meta.index_of(',');
        if j < mime.len() {
            assert(mime[j] == ',');
        }
    }
    lemma_cut(meta, ',', payload);
    lemma_cut(mime, ';', tag);
    let low = lower(meta);
    let n = mime.len() + 1int;
    assert forall|i: int| 0 <= i < 6 implies lower_char(#[trigger] tag[i]) == tag[i] by {}
    assert(low =~= low.take(n) + tag) by {
        assert forall|i: int| 0 <= i < 6 implies low[n + i] == tag[i] by {
            assert(meta[n + i] == tag[i]);
        }
    }
    lemma_holds(low.take(n), tag, seq![]);
    assert(low.take(n) + tag + Seq::<char>::empty() =~= low);
}

/// A data URL is taken apart into its media type and its payload.
pub proof fn law_data_urls(
    url: &str,
    r: Option<(&str, &str)>,
    mime: Seq<char>,
    payload: Seq<char>,
)
    requires
        call_ensures(split_data_url, (url,), r),
        !mime.contains(','),
        !mime.contains(';'),
        mime.len() > 0,
    ensures
        trim(url@) == "data:"@ + mime + ";base64,"@ + payload ==> (r matches Some(x) && x.0@ == mime
            && x.1@ == payload),
        !starts_with(trim(url@), "data:"@) ==> r is None,
{
    if trim(url@) == "data:"@ + mime + ";base64,"@ + payload {
        lemma_data_url(url@, mime, payload);
    }
}

/// The first image is the one that is edited: its bytes are what its data URL says, and
/// so is its media type.
pub proof fn law_the_first_image_is_edited(
    req: &ImageEditRequest,
    r: Result<EditJob, Refusal>,
    url: Seq<char>,
    mime: Seq<char>,
    payload: Seq<char>,
)
    requires
        call_ensures(edit_job, (req,), r),
        req.prompt matches Some(p) && !blank(p@),
        req.images@.len() > 0,
        req.images@[0].image_url matches Some(u) && match u {
            ImageUrl::Url(s) => s@ == url,
            ImageUrl::Object { url: inner } => inner matches Some(s) && s@ == url,
        },
        trim(url) == "data:"@ + mime + ";base64,"@ + payload,
        !mime.contains(','),
        !mime.contains(';'),
        mime.len() > 0,
    ensures
        match b64_bytes(without_white(payload)) {
            Ok(bytes) => r matches Ok(job) && job.image@ == bytes && (mime
                != "application/octet-stream"@ ==> job.mime@ == mime),
            Err(_) => r is Err,
        },
{
    lemma_data_url(url, mime, payload);
    assert(first_url(req.images@) == Some(url));
}

/// An edit is refused where its first image is no data URL.
pub proof fn law_edits_without_an_image(req: &ImageEditRequest, r: Result<EditJob, Refusal>)
    requires
        call_ensures(edit_job, (req,), r),
    ensures
        req.images@.len() > 0 && req.images@[0].image_url is None ==> r is Err,
        req.images@.len() > 0 && (req.images@[0].image_url matches Some(ImageUrl::Url(s))
            && !starts_with(trim(s@), "data:"@)) ==> r is Err,
{
}

/// In the log the payload of a data URL is replaced by its length; whatever else a
/// request holds stays as it is.
pub proof fn law_redaction_keeps_the_rest(
    s: Seq<char>,
    items: Seq<JsonView>,
    members: Map<Seq<char>, JsonView>,
)
    requires
        members.dom().finite(),
    ensures
        !starts_with(trim(s), "data:"@) ==> redacted(JsonView::Text(s)) == JsonView::Text(s),
        redacted(JsonView::Null) == JsonView::Null,
        redacted(JsonView::Bool(true)) == JsonView::Bool(true),
        redacted(JsonView::Bool(false)) == JsonView::Bool(false),
        redacted(JsonView::Array(items)) matches JsonView::Array(out) && out.len() == items.len()
            && forall|i: int| 0 <= i < items.len() ==> #[trigger] out[i] == redacted(items[i]),
        redacted(JsonView::Object(members)) matches JsonView::Object(out) && out.dom() == members.dom()
            && forall|k: Seq<char>|
            members.dom().contains(k) ==> #[trigger] out[k] == redacted(members[k]),
{
    let out = redacted_members(members);
    assert(out.dom() =~= members.dom());
}

/// The payload of a data URL is not in the log: its length is.
pub proof fn law_redaction_hides_the_payload(s: Seq<char>, mime: Seq<char>, payload: Seq<char>)
    requires
        trim(s) == "data:"@ + mime + ";base64,"@ + payload,
        !mime.contains(','),
        !mime.contains(';'),
        mime.len() > 0,
    ensures
        redacted(JsonView::Text(s)) == JsonView::Text(
            "data:"@ + mime + ";base64,…("@ + dec(encode_utf8(payload).len())
                + " chars)"@,
        ),
{
    lemma_data_url(s, mime, payload);
}

/// Without a media type the bytes decide it; and what is not said to be base64 is no
/// data URL that can be read.
pub proof fn law_data_urls_that_say_less(url: &str, r: Option<(&str, &str)>, meta: Seq<char>, payload: Seq<char>)
    requires
        call_ensures(split_data_url, (url,), r),
        trim(url@) == "data:"@ + meta + ","@ + payload,
        !meta.contains(','),
    ensures
        meta == ";base64"@ ==> r is Some && (r->0).0@ == "application/octet-stream"@ && (r->0).1@ == payload,
        !contains(lower(meta), "base64"@) ==> r is None,
{
    reveal_strlit("data:");
    reveal_strlit(",");
    let t = trim(url@);
    assert(t.take(5) =~= "data:"@);
    assert(","@ =~= seq![',']);
    assert(t.skip(5) =~= meta + seq![','] + payload);
    lemma_cut(meta, ',', payload);
    if meta == ";base64"@ {
        reveal_strlit(";base64");
        reveal_strlit("base64");
        let tag = seq!['b', 'a', 's', 'e', '6', '4'];
        assert("base64"@ =~= tag);
        let none = Seq::<char>::empty();
        assert(meta =~= none + seq![';'] + tag);
        lemma_cut(none, ';', tag);
        let low = lower(meta);
        assert forall|i: int| 0 <= i < 6 implies lower_char(#[trigger] tag[i]) == tag[i] by {}
        assert(low.skip(1) =~= tag) by {
            assert forall|i: int| 0 <= i < 6 implies low[1 + i] == tag[i] by {
                assert(meta[1 + i] == tag[i]);
            }
        }
        lemma_holds(low.take(1), tag, seq![]);
        assert(low.take(1) + tag + Seq::<char>::empty() =~= low);
    }
}

/// A size may be written with an `x`, an `X` or a `×`; a side of nothing is no size.
pub proof fn law_sizes(s: &str, r: Option<(u32, u32)>, w: u32, h: u32, c: char)
    requires
        call_ensures(parse_size, (s,), r),
        c == 'x' || c == 'X' || c == '×',
        s@ == dec(w as nat) + seq![c] + dec(h as nat),
    ensures
        w > 0 && h > 0 ==> r == Some((w, h)),
        w == 0 || h == 0 ==> r is None,
{
    let a = dec(w as nat);
    let b = dec(h as nat);
    lemma_dec_value(w as nat);
    lemma_dec_value(h as nat);
    lemma_dec_digits(w as nat);
    lemma_dec_digits(h as nat);
    assert(is_digit(a[0]) && is_digit(b[b.len() - 1]) && is_digit(a[a.len() - 1]) && is_digit(b[0]));
    let t = s@;
    assert(t[0] == a[0] && t.last() == b[b.len() - 1]);
    lemma_no_white(t);
    lemma_no_white(a);
    lemma_no_white(b);
    reveal_strlit("auto");
    if lower(t) == lower("auto"@) {
        assert(lower(t)[0] == lower_char(t[0]));
        assert(lower("auto"@)[0] == 'a');
    }
    assert forall|d: char| !is_digit(d) implies !(#[trigger] a.contains(d)) by {
        if a.contains(d) {
            let i = a.index_of(d);
            assert(is_digit(a[i]));
        }
    }
    lemma_cut(a, c, b);
    lemma_absent(a, c, b, 'x');
    lemma_absent(a, c, b, 'X');
}

/// What has none of the three signs is no size.
pub proof fn law_no_size(s: &str, r: Option<(u32, u32)>)
    requires
        call_ensures(parse_size, (s,), r),
        !trim(s@).contains('x'),
        !trim(s@).contains('X'),
        !trim(s@).contains('×'),
    ensures
        r is None,
{
    lemma_not_there(trim(s@), 'x');
    lemma_not_there(trim(s@), 'X');
    lemma_not_there(trim(s@), '×');
}

proof fn lemma_not_there(t: Seq<char>, d: char)
    requires
        !t.contains(d),
    ensures
        split_at_char(t, d) is None,
{
    lemma_find(t, seq![d]);
    if find(t, seq![d]) is Some {
        let k = find(t, seq![d])->0;
        assert(t.subrange(k, k + 1)[0] == d);
        assert(t[k] == d);
    }
}

/// A character that is neither a digit nor the one in the middle is not there.
proof fn lemma_absent(a: Seq<char>, c: char, b: Seq<char>, d: char)
    requires
        all_digits(a),
        all_digits(b),
        !is_digit(d),
    ensures
        c != d ==> split_at_char(a + seq![c] + b, d) is None,
{
    let t = a + seq![c] + b;
    lemma_find(t, seq![d]);
    if c != d && find(t, seq![d]) is Some {
        let k = find(t, seq![d])->0;
        assert(t.subrange(k, k + 1)[0] == d);
        assert(t[k] == d);
        if k < a.len() {
            assert(is_digit(a[k]));
        } else if k > a.len() {
            assert(t[k] == b[k - a.len() - 1]);
            assert(is_digit(b[k - a.len() - 1]));
        }
    }
}

/// What a call for images begins as: the log shows the request without its payloads.
pub proof fn law_how_a_call_begins(
    cfg: &Config,
    path: &'static str,
    client: Option<String>,
    body: &[u8],
    r: ImageCall,
)
    requires
        call_ensures(ImageCall::begin, (cfg, path, client, body), r),
    ensures
        r.path@ == path@ && r.client == client && !r.stub,
        json_parse_bytes(body@) matches Ok(tree) && !(tree is Null) ==> r.req_openai@ == preview_view(
            json_pretty(redacted(json_parse_bytes(body@)->Ok_0)),
            2000,
        ),
        json_parse_bytes(body@) is Err ==> r.req_openai@ == preview_view(utf8_lossy(body@), 2000),
{
}

// ───────────────────────── settings and failures ─────────────────────────

/// A model for images is the one that is set, and must be set.
pub proof fn law_models_for_images(
    cfg: &Config,
    text: Result<String, ImageError>,
    image: Result<String, ImageError>,
    vision: Result<String, ImageError>,
)
    requires
        call_ensures(resolve_text_model, (cfg,), text),
        call_ensures(resolve_image_model, (cfg,), image),
        call_ensures(resolve_vision_model, (cfg,), vision),
    ensures
        blank(cfg.image_text_model@) ==> text is Err && text->Err_0 is Backend
            && text->Err_0->Backend_0 is NotConfigured,
        !blank(cfg.image_text_model@) ==> text is Ok && text->Ok_0@ == trim(cfg.image_text_model@),
        blank(cfg.image_model@) ==> image is Err && image->Err_0 is Backend
            && image->Err_0->Backend_0 is NotConfigured,
        !blank(cfg.image_model@) ==> image is Ok && image->Ok_0@ == trim(cfg.image_model@),
        blank(cfg.vision_model@) ==> vision is Err && vision->Err_0 is Backend
            && vision->Err_0->Backend_0 is NotConfigured,
        !blank(cfg.vision_model@) ==> vision is Ok && vision->Ok_0@ == trim(cfg.vision_model@),
{
}

/// A failure of the image service: what is wrong with the request is 400, an outage is
/// 503, and any other failure is as the gateway tells it.
pub proof fn law_failures_of_images(
    e: &ImageError,
    status: u16,
    message: String,
    r: Refusal,
    inner: &FabrixError,
    inner_status: u16,
    inner_message: String,
)
    requires
        call_ensures(ImageError::status, (e,), status),
        call_ensures(ImageError::message, (e,), message),
        call_ensures(image_refusal, (e,), r),
        call_ensures(FabrixError::status, (inner,), inner_status),
        call_ensures(FabrixError::message, (inner,), inner_message),
    ensures
        *e matches ImageError::BadRequest(m) ==> status == 400 && message@ == m@,
        *e == ImageError::Backend(*inner) ==> message@ == inner_message@ && status == (
        if inner is Unreachable {
            503
        } else {
            inner_status
        }),
        r.status == status,
        r.body@ == message@,
        r.envelope.error.message@ == message@,
        status == 400 ==> r.envelope.error.kind@ == "invalid_request_error"@,
        status >= 500 ==> r.envelope.error.kind@ == "api_error"@,
{
}

/// The entry of a call for images says what happened, to which request, and when.
pub proof fn law_entries_of_images(
    call: &ImageCall,
    stamp: Stamp,
    status: u16,
    is_error: bool,
    note: Option<String>,
    summary: Option<String>,
    body: String,
    meta: String,
    r: LogEntry,
)
    requires
        call_ensures(
            ImageCall::entry,
            (call, stamp, status, is_error, note, summary, body, meta),
            r,
        ),
    ensures
        r.id == stamp.id && r.ts == stamp.ts && r.ts_full == stamp.ts_full && r.latency_ms
            == stamp.latency_ms,
        r.kind == Kind::Images && r.method@ == "POST"@ && r.path@ == call.path@,
        r.status == status && r.is_error == is_error,
        opt_text(r.note) == opt_text(note) && opt_text(r.summary) == opt_text(summary),
        r.resp_body@ == body@ && r.resp_meta@ == meta@,
        r.model_requested == call.model_requested && r.model_id == call.model_used,
        r.client == call.client && r.req_openai == call.req_openai && r.req_fabrix
            == call.req_fabrix && r.fabrix_url == call.fabrix_url,
{
}

/// All the bytes of the images are told.
pub proof fn law_bytes_add_up(a: Seq<Vec<u8>>, b: Seq<Vec<u8>>)
    ensures
        total_bytes(a + b) == total_bytes(a) + total_bytes(b),
        a.len() == 1 ==> total_bytes(a) == a[0]@.len(),
    decreases b.len(),
{
    if a.len() == 1 {
        assert(total_bytes(a.drop_last()) == 0);
    }
    if b.len() == 0 {
        assert(a + b =~= a);
    } else {
        law_bytes_add_up(a, b.drop_last());
        assert((a + b).drop_last() =~= a + b.drop_last());
    }
}

// ───────────────────────── what is sent and what comes back ─────────────────────────

/// The form of a generation: the models in their order, the prompt, and the size.
pub proof fn law_generation_form(
    text_model: &str,
    gen_model: &str,
    prompt: &str,
    size: (u32, u32),
    r: Vec<(&'static str, String)>,
)
    requires
        call_ensures(generate_form, (text_model, gen_model, prompt, size), r),
    ensures
        r@.len() == 6,
        r@[0].0@ == "modelIds"@ && r@[0].1@ == text_model@,
        r@[1].0@ == "modelIds"@ && r@[1].1@ == gen_model@,
        r@[2].0@ == "contents"@ && r@[2].1@ == prompt@,
        r@[3].0@ == "llmConfig"@,
        r@[4].0@ == "isStream"@ && r@[4].1@ == "False"@,
        r@[5].0@ == "messageConfig"@,
        exists|v: JsonView|
            r@[5].1@ == #[trigger] json_text(v) && v.get("width"@) == Some(
                JsonView::Number(number_of(size.0 as u64)),
            ) && v.get("height"@) == Some(JsonView::Number(number_of(size.1 as u64))),
{
    let f = form_views(r@);
    assert(f.len() == r@.len());
    assert forall|i: int| 0 <= i < f.len() implies #[trigger] f[i] == (r@[i].0@, r@[i].1@) by {}
    assert(f[0] == (r@[0].0@, r@[0].1@) && f[1] == (r@[1].0@, r@[1].1@) && f[2] == (
        r@[2].0@,
        r@[2].1@,
    ));
    assert(f[3] == (r@[3].0@, r@[3].1@) && f[4] == (r@[4].0@, r@[4].1@) && f[5] == (
        r@[5].0@,
        r@[5].1@,
    ));
    let v = crate::proxy::image_backend::message_config(size);
    reveal_strlit("width");
    reveal_strlit("height");
    assert("width"@.len() == 5 && "height"@.len() == 6);
    assert(r@[5].1@ == json_text(v));
}

/// The form of a description: the models in their order and the instruction.
pub proof fn law_description_form(
    text_model: &str,
    vision_model: &str,
    instruction: &str,
    r: Vec<(&'static str, String)>,
)
    requires
        call_ensures(understand_form, (text_model, vision_model, instruction), r),
    ensures
        r@.len() == 5,
        r@[0].0@ == "modelIds"@ && r@[0].1@ == text_model@,
        r@[1].0@ == "modelIds"@ && r@[1].1@ == vision_model@,
        r@[2].0@ == "contents"@ && r@[2].1@ == instruction@,
        r@[3].0@ == "llmConfig"@,
        r@[4].0@ == "isStream"@ && r@[4].1@ == "True"@,
{
    let f = form_views(r@);
    assert(f.len() == r@.len());
    assert(f[0] == (r@[0].0@, r@[0].1@) && f[1] == (r@[1].0@, r@[1].1@) && f[2] == (
        r@[2].0@,
        r@[2].1@,
    ));
    assert(f[3] == (r@[3].0@, r@[3].1@) && f[4] == (r@[4].0@, r@[4].1@));
}

/// The image in an answer is what the base64 text behind the first comma says, or the
/// whole text where there is no comma.
pub proof fn law_the_image_in_an_answer(
    body: &str,
    r: Result<Vec<u8>, ImageError>,
    items: Seq<JsonView>,
    answer: Seq<char>,
    payload: Seq<char>,
)
    requires
        call_ensures(image_in_body, (body,), r),
        json_parse(body@) matches Ok(tree) && tree.get("actions"@) == Some(JsonView::Array(items)),
        items.len() > 0,
        items[0].get_text("answer"@) == Some(answer),
        (!answer.contains(',') && payload == answer) || exists|head: Seq<char>|
            !head.contains(',') && answer == #[trigger] (head + seq![',']) + payload,
    ensures
        match b64_bytes(without_white(payload)) {
            Ok(bytes) => r matches Ok(v) && v@ == bytes,
            Err(_) => r matches Err(ImageError::Backend(FabrixError::BadPayload(_))),
        },
{
    if !answer.contains(',') && payload == answer {
        lemma_find(answer, seq![',']);
        if find(answer, seq![',']) is Some {
            let k = find(answer, seq![','])->0;
            assert(answer.subrange(k, k + 1)[0] == ',');
            assert(answer[k] == ',');
        }
    } else {
        let head = choose|head: Seq<char>|
            !head.contains(',') && answer == #[trigger] (head + seq![',']) + payload;
        lemma_cut(head, ',', payload);
    }
}

/// The description of an image is the text of the stream that tells it, trimmed, and
/// there must be some.
pub proof fn law_descriptions(body: &str, r: Result<String, ImageError>)
    requires
        call_ensures(description_in_body, (body,), r),
    ensures
        ({
            let all = DecoderView::fresh().plus(encode_utf8(body@)).decode();
            let text = all.state.decode_end().state.text;
            &&& blank(text) ==> r is Err && r->Err_0 is Backend && r->Err_0->Backend_0 is BadPayload
            &&& !blank(text) ==> r is Ok && r->Ok_0@ == trim(text)
        }),
{
}

/// A prompt for an edit holds the instruction, and the description where there is one.
pub proof fn law_an_edit_tells_both(description: &str, instruction: &str, r: String)
    requires
        call_ensures(compose_edit_prompt, (description, instruction), r),
    ensures
        contains(r@, trim(instruction@)),
        contains(r@, trim(description@)),
        blank(description@) ==> r@ == trim(instruction@),
{
    let d = trim(description@);
    let i = trim(instruction@);
    if blank(description@) {
        super::text::lemma_holds_itself(i);
        lemma_holds(seq![], d, i);
        assert(Seq::<char>::empty() + d + i =~= i);
    } else {
        let a = "원본 이미지 설명:\n"@;
        let b = "\n\n요청된 편집:\n"@;
        let c = "\n\n위 설명을 바탕으로, 편집 지시를 반영한 이미지를 생성하세요."@;
        lemma_holds(a + d + b, i, c);
        lemma_holds(a, d, b + i + c);
        assert(a + d + (b + i + c) =~= r@);
    }
}

/// The media type by the first bytes, and the extension of a file of each.
pub proof fn law_media_types(bytes: &[u8], r: &'static str, mime: &str, ext: &'static str)
    requires
        call_ensures(sniff_mime, (bytes,), r),
        call_ensures(ext_for_mime, (mime,), ext),
    ensures
        ({
            let b = bytes@;
            let jpeg = b.len() >= 3 && b[0] == 0xff && b[1] == 0xd8 && b[2] == 0xff;
            let riff = b.len() >= 12 && b[0] == 0x52 && b[1] == 0x49 && b[2] == 0x46 && b[3] == 0x46
                && b[8] == 0x57 && b[9] == 0x45 && b[10] == 0x42 && b[11] == 0x50;
            r@ == (if jpeg {
                "image/jpeg"@
            } else if riff {
                "image/webp"@
            } else {
                "image/png"@
            })
        }),
        mime@ == "image/jpeg"@ ==> ext@ == "jpg"@,
        mime@ == "image/webp"@ ==> ext@ == "webp"@,
        mime@ == "image/png"@ ==> ext@ == "png"@,
{
    let b = bytes@;
    reveal_strlit("image/jpeg");
    reveal_strlit("image/webp");
    reveal_strlit("image/png");
    assert("image/jpeg"@[6] == 'j' && "image/webp"@[6] == 'w' && "image/png"@[6] == 'p');
    let j = seq![0xffu8, 0xd8, 0xff];
    let p = seq![0x89u8, 0x50, 0x4e, 0x47, 0x0d, 0x0a, 0x1a, 0x0a];
    let ri = seq![0x52u8, 0x49, 0x46, 0x46];
    let we = seq![0x57u8, 0x45, 0x42, 0x50];
    if begins(b, j) {
        assert(b.take(3)[0] == 0xff && b.take(3)[1] == 0xd8 && b.take(3)[2] == 0xff);
    } else if b.len() >= 3 && b[0] == 0xff && b[1] == 0xd8 && b[2] == 0xff {
        assert(b.take(3) =~= j);
    }
    if begins(b, p) {
        assert(b.take(8)[0] == 0x89);
    }
    if webp(b) {
        let x = b.subrange(0, 4);
        let y = b.subrange(8, 12);
        assert(x[0] == 0x52 && x[1] == 0x49 && x[2] == 0x46 && x[3] == 0x46);
        assert(y[0] == 0x57 && y[1] == 0x45 && y[2] == 0x42 && y[3] == 0x50);
    } else if b.len() >= 12 && b[0] == 0x52 && b[1] == 0x49 && b[2] == 0x46 && b[3] == 0x46 && b[8]
        == 0x57 && b[9] == 0x45 && b[10] == 0x42 && b[11] == 0x50 {
        assert(b.subrange(0, 4) =~= ri);
        assert(b.subrange(8, 12) =~= we);
    }
}

} // verus!
