//! What the log shows.

use vstd::prelude::*;
use vstd::string::*;
use vstd::utf8::encode_utf8;

use crate::bytes::utf8_lossy;
use crate::logstore::{
    first_word, preview, short_client, Kind, LogEntry, RawView, Stamp,
};
use crate::openai::opt_text;
use crate::proxy::chat_log::{
    log_body, plan_meta, reasoning_meta, tool_meta, unused_tools_note, Ctx,
};
use crate::proxy::chat_reply::frame_pushed;
use crate::proxy::fabrix::str_views;
use crate::proxy::turn::{ToolStats, Turn};
use crate::proxy::validate::note_if;
use crate::text::{blank, contains, dec, find, join, lemma_find, split_at_char, trim, views, white};

use super::text::{lemma_holds, lemma_holds_itself, lemma_holds_within, lemma_join_holds};

verus! {

// ───────────────────────── short forms ─────────────────────────

/// A preview is the trimmed text or, of a longer one, its beginning and an ellipsis.
pub proof fn law_previews(text: &str, limit: usize, r: String)
    requires
        call_ensures(preview, (text, limit), r),
    ensures
        trim(text@).len() <= limit ==> r@ == trim(text@),
        trim(text@).len() > limit ==> {
            &&& r@.len() == limit + 1
            &&& r@.take(limit as int) == trim(text@).take(limit as int)
            &&& r@.last() == '…'
        },
{
    reveal_strlit("…");
    if trim(text@).len() > limit {
        assert(r@.take(limit as int) =~= trim(text@).take(limit as int));
    }
}

proof fn lemma_word(name: Seq<char>, w: char, rest: Seq<char>)
    requires
        forall|i: int| 0 <= i < name.len() ==> !white(#[trigger] name[i]),
        white(w),
    ensures
        first_word(name + seq![w] + rest) == name,
        first_word(name) == name,
    decreases name.len(),
{
    let s = name + seq![w] + rest;
    if name.len() == 0 {
        assert(s[0] == w);
        assert(first_word(s) =~= name);
        assert(first_word(name) =~= name);
    } else {
        let tail = name.drop_first();
        assert(!white(name[0]));
        assert forall|i: int| 0 <= i < tail.len() implies !white(#[trigger] tail[i]) by {
            assert(tail[i] == name[i + 1]);
        }
        lemma_word(tail, w, rest);
        assert(s.drop_first() =~= tail + seq![w] + rest);
        assert(first_word(s) =~= name);
        assert(first_word(name) =~= name);
    }
}

/// A client goes by the name before the first slash of its first word, 24 characters of
/// it at most.
pub proof fn law_names_of_clients(
    ua: Option<&str>,
    r: Option<String>,
    name: Seq<char>,
    version: Seq<char>,
    w: char,
    rest: Seq<char>,
)
    requires
        call_ensures(short_client, (ua,), r),
        name.len() > 0,
        !name.contains('/'),
        forall|i: int| 0 <= i < name.len() ==> !white(#[trigger] name[i]),
        forall|i: int| 0 <= i < version.len() ==> !white(#[trigger] version[i]),
        white(w),
    ensures
        ua is None ==> r is None,
        ua is Some && (trim(ua->0@) == name || trim(ua->0@) == name + seq!['/'] + version || trim(
            ua->0@,
        ) == name + seq![w] + rest || trim(ua->0@) == name + seq!['/'] + version + seq![w] + rest)
            ==> {
            &&& r is Some
            &&& name.len() <= 24 ==> r->0@ == name
            &&& name.len() > 24 ==> r->0@ == name.take(24)
        },
        ua is Some && blank(ua->0@) ==> r is None,
{
    if ua is Some {
        let t = trim(ua->0@);
        let long = name + seq!['/'] + version;
        assert forall|i: int| 0 <= i < long.len() implies !white(#[trigger] long[i]) by {
            if i < name.len() {
                assert(long[i] == name[i]);
            } else if i > name.len() {
                assert(long[i] == version[i - name.len() - 1]);
            }
        }
        lemma_word(name, w, rest);
        lemma_word(long, w, rest);
        super::images::lemma_cut(name, '/', version);
        lemma_no_slash(name);
        if blank(ua->0@) {
            assert(first_word(t) =~= seq![]);
            lemma_find(first_word(t), seq!['/']);
        }
    }
}

proof fn lemma_no_slash(name: Seq<char>)
    requires
        !name.contains('/'),
    ensures
        split_at_char(name, '/') is None,
{
    lemma_find(name, seq!['/']);
    if find(name, seq!['/']) is Some {
        let k = find(name, seq!['/'])->0;
        assert(name.subrange(k, k + 1)[0] == '/');
        assert(name[k] == '/');
    }
}

// ───────────────────────── the wire ─────────────────────────

/// Of what goes over the wire the first 256 KiB are kept, byte for byte, and the rest is
/// counted; where nothing is to be kept nothing is.
pub proof fn law_the_wire(v: RawView, chunk: Seq<u8>)
    requires
        v.bytes.len() <= 262144,
        v.dropped + chunk.len() <= usize::MAX,
    ensures
        ({
            let r = v.pushed(chunk);
            let all = v.bytes + chunk;
            &&& !v.enabled ==> r == v
            &&& v.enabled && all.len() <= 262144 ==> r.bytes == all && r.dropped == v.dropped
            &&& v.enabled && all.len() > 262144 ==> r.bytes == all.take(262144) && r.dropped
                == v.dropped + all.len() - 262144
            &&& r.enabled == v.enabled
            &&& v.dropped == 0 ==> v.shown() == utf8_lossy(v.bytes)
            &&& v.dropped > 0 ==> contains(v.shown(), dec(v.dropped as nat)) && contains(
                v.shown(),
                utf8_lossy(v.bytes),
            )
        }),
{
    let r = v.pushed(chunk);
    let all = v.bytes + chunk;
    if v.enabled && all.len() > 262144 {
        assert(r.bytes =~= all.take(262144));
    }
    if v.dropped > 0 {
        let a = utf8_lossy(v.bytes);
        let b = "\n\n…(상한 "@ + dec(256) + "KiB 를 넘어 "@;
        let d = dec(v.dropped as nat);
        let e = "바이트를 버렸습니다)"@;
        lemma_holds(a + b, d, e);
        lemma_holds(seq![], a, b + d + e);
        assert(a + b + d + e =~= v.shown());
        assert(Seq::<char>::empty() + a + (b + d + e) =~= v.shown());
    }
}

/// What the client is sent is kept as it goes over the wire: `data: `, the frame, and a
/// blank line.
pub proof fn law_frames_on_the_wire(v: RawView, data: Seq<char>)
    requires
        v.enabled,
        ({
            let all = v.bytes + encode_utf8("data: "@) + encode_utf8(data) + encode_utf8("\n\n"@);
            all.len() <= 262144
        }),
    ensures
        frame_pushed(v, data).bytes == v.bytes + encode_utf8("data: "@) + encode_utf8(data)
            + encode_utf8("\n\n"@),
        frame_pushed(v, data).dropped == v.dropped,
{
}

// ───────────────────────── entries ─────────────────────────

/// An entry says what happened, to which request, and when.
pub proof fn law_entries(
    ctx: &Ctx,
    stamp: Stamp,
    status: u16,
    is_error: bool,
    note: Option<String>,
    summary: Option<String>,
    body: String,
    meta: String,
    r: LogEntry,
)
    requires
        call_ensures(Ctx::entry, (ctx, stamp, status, is_error, note, summary, body, meta), r),
    ensures
        r.id == stamp.id && r.ts == stamp.ts && r.ts_full == stamp.ts_full && r.latency_ms
            == stamp.latency_ms,
        r.kind == Kind::Chat && r.method@ == "POST"@ && r.path@ == "/v1/chat/completions"@,
        r.status == status && r.is_error == is_error,
        opt_text(r.note) == opt_text(note) && opt_text(r.summary) == opt_text(summary),
        r.resp_body@ == body@ && r.resp_meta@ == meta@,
        r.stream == ctx.stream && !r.cached,
        r.model_requested == ctx.model_requested && r.model_alias == ctx.model_alias && r.model_id
            == ctx.model_id && r.model_label == ctx.model_label,
        r.client == ctx.client && r.req_openai == ctx.req_openai && r.req_fabrix == ctx.req_fabrix,
        r.req_fabrix_headers == ctx.req_fabrix_headers && r.fabrix_url == ctx.fabrix_url,
        r.raw.upstream_captured == ctx.raw_upstream@.enabled,
        r.raw.client_captured == ctx.raw_client@.enabled,
        ctx.raw_upstream@.dropped == 0 ==> r.raw.upstream@ == utf8_lossy(ctx.raw_upstream@.bytes),
        ctx.raw_client@.dropped == 0 ==> r.raw.client@ == utf8_lossy(ctx.raw_client@.bytes),
{
}

/// A summary names the model that was asked for and the one that answered.
pub proof fn law_summaries(ctx: &Ctx, r: Option<String>)
    requires
        call_ensures(Ctx::success_summary, (ctx,), r),
    ensures
        ctx.model_requested is None && ctx.model_label is None ==> r is None,
        ctx.model_label is Some ==> r is Some && contains(r->0@, ctx.model_label->0@),
        ctx.model_requested is Some ==> r is Some && contains(r->0@, ctx.model_requested->0@),
        ctx.model_label is Some && ctx.model_requested is None ==> r is Some && r->0@
            == ctx.model_label->0@,
{
    match (ctx.model_requested, ctx.model_label) {
        (Some(a), Some(b)) => {
            lemma_holds_itself(b@);
            if a@ != b@ {
                lemma_holds(a@ + " → "@, b@, seq![]);
                assert(a@ + " → "@ + b@ + Seq::<char>::empty() =~= r->0@);
                lemma_holds(seq![], a@, " → "@ + b@);
                assert(Seq::<char>::empty() + a@ + (" → "@ + b@) =~= r->0@);
            }
        },
        (Some(a), None) => {
            lemma_holds_itself(a@);
        },
        (None, Some(b)) => {
            lemma_holds_itself(b@);
        },
        (None, None) => {},
    }
}

/// The log keeps both what was thought and what was answered.
pub proof fn law_the_body_in_the_log(turn: &Turn, content: &str, reasoning: &str, r: String)
    requires
        call_ensures(log_body, (turn,), r),
        call_ensures(Turn::raw_content, (turn,), content),
        call_ensures(Turn::raw_reasoning, (turn,), reasoning),
    ensures
        reasoning@.len() == 0 ==> r@ == content@,
        contains(r@, content@),
        contains(r@, reasoning@),
{
    lemma_holds_itself(content@);
    if reasoning@.len() == 0 {
        lemma_holds(seq![], reasoning@, content@);
        assert(Seq::<char>::empty() + reasoning@ + content@ =~= r@);
    } else {
        let a = "[추론]\n"@;
        let b = "\n\n[답변]\n"@;
        lemma_holds(a + reasoning@ + b, content@, seq![]);
        assert(a + reasoning@ + b + content@ + Seq::<char>::empty() =~= r@);
        lemma_holds(a, reasoning@, b + content@);
        assert(a + reasoning@ + (b + content@) =~= r@);
    }
}

/// The line on tools tells how many were declared and, where they were emulated, how many
/// calls came, how many of those out of the reasoning, and how many blocks were none.
pub proof fn law_the_line_on_tools(
    declared: usize,
    emulated: bool,
    off: bool,
    stats: &ToolStats,
    r: Option<String>,
)
    requires
        call_ensures(tool_meta, (declared, emulated, off, stats), r),
    ensures
        r is None <==> declared == 0,
        r matches Some(line) ==> {
            &&& contains(line@, "도구 "@ + dec(declared as nat))
            &&& !emulated && off ==> contains(line@, "tool_choice: none"@)
            &&& emulated && stats.calls > 0 ==> contains(
                line@,
                "호출 "@ + dec(stats.calls as nat) + "건"@,
            )
            &&& emulated && stats.calls == 0 ==> contains(line@, "호출 0건"@)
            &&& emulated && stats.in_reasoning > 0 ==> contains(
                line@,
                "그중 "@ + dec(stats.in_reasoning as nat) + "건"@,
            )
            &&& emulated && stats.rejected > 0 ==> contains(
                line@,
                "형식 오류 "@ + dec(stats.rejected as nat) + "건"@,
            )
        },
{
    if r is Some {
        let line = r->0@;
        let head = "도구 "@ + dec(declared as nat);
        let rest = line.skip(head.len() as int);
        assert(line =~= head + rest);
        lemma_holds(seq![], head, rest);
        assert(Seq::<char>::empty() + head + rest =~= line);
        if !emulated {
            if off {
                let all = "개 선언 · 클라이언트가 tool_choice: none 으로 껐음"@;
                lemma_switched_off();
                lemma_holds_within(head, all, seq![], "tool_choice: none"@);
                assert(head + all + Seq::<char>::empty() =~= line);
            }
        } else {
            let k = dec(stats.calls as nat);
            let p1 = if stats.calls == 0 {
                "개 선언 · 호출 0건 — 모델이 규약을 따르지 않음"@
            } else {
                "개 선언 · 호출 "@ + k + "건"@
            };
            let t2 = if stats.in_reasoning > 0 {
                " · 그중 "@ + dec(stats.in_reasoning as nat) + "건은 추론 채널에서"@
            } else {
                seq![]
            };
            let t3 = if stats.rejected > 0 {
                " · 형식 오류 "@ + dec(stats.rejected as nat) + "건은 텍스트로 되돌림"@
            } else {
                seq![]
            };
            lemma_three(line, head, p1, t2, t3, k, *stats);
            if stats.calls == 0 {
                lemma_no_calls();
                lemma_holds_within(head, p1, t2 + t3, "호출 0건"@);
            } else {
                lemma_so_many_calls(k);
                lemma_holds_within(head, p1, t2 + t3, "호출 "@ + k + "건"@);
            }
            if stats.in_reasoning > 0 {
                let d = dec(stats.in_reasoning as nat);
                lemma_so_many_thought(d);
                lemma_holds_within(head + p1, t2, t3, "그중 "@ + d + "건"@);
            }
            if stats.rejected > 0 {
                let d = dec(stats.rejected as nat);
                lemma_so_many_refused(d);
                lemma_holds_within(head + p1 + t2, t3, seq![], "형식 오류 "@ + d + "건"@);
            }
        }
    }
}

proof fn lemma_three(
    line: Seq<char>,
    head: Seq<char>,
    p1: Seq<char>,
    t2: Seq<char>,
    t3: Seq<char>,
    k: Seq<char>,
    stats: ToolStats,
)
    requires
        stats.calls == 0 ==> p1 == "개 선언 · 호출 0건 — 모델이 규약을 따르지 않음"@,
        stats.calls > 0 ==> p1 == "개 선언 · 호출 "@ + k + "건"@,
        stats.in_reasoning > 0 ==> t2 == " · 그중 "@ + dec(stats.in_reasoning as nat)
            + "건은 추론 채널에서"@,
        stats.in_reasoning == 0 ==> t2.len() == 0,
        stats.rejected > 0 ==> t3 == " · 형식 오류 "@ + dec(stats.rejected as nat)
            + "건은 텍스트로 되돌림"@,
        stats.rejected == 0 ==> t3.len() == 0,
        ({
            let a = if stats.calls == 0 {
                head + "개 선언 · 호출 0건 — 모델이 규약을 따르지 않음"@
            } else {
                head + "개 선언 · 호출 "@ + k + "건"@
            };
            let b = if stats.in_reasoning > 0 {
                a + " · 그중 "@ + dec(stats.in_reasoning as nat) + "건은 추론 채널에서"@
            } else {
                a
            };
            line == if stats.rejected > 0 {
                b + " · 형식 오류 "@ + dec(stats.rejected as nat) + "건은 텍스트로 되돌림"@
            } else {
                b
            }
        }),
    ensures
        line == head + p1 + (t2 + t3),
        line == head + p1 + t2 + t3,
        line == head + p1 + t2 + t3 + Seq::<char>::empty(),
{
    assert(line =~= head + p1 + t2 + t3);
    assert(line =~= head + p1 + (t2 + t3));
    assert(line =~= head + p1 + t2 + t3 + Seq::<char>::empty());
}

proof fn lemma_switched_off()
    ensures
        contains("개 선언 · 클라이언트가 tool_choice: none 으로 껐음"@, "tool_choice: none"@),
{
    let all = "개 선언 · 클라이언트가 tool_choice: none 으로 껐음"@;
    let n = "tool_choice: none"@;
    reveal_strlit("개 선언 · 클라이언트가 tool_choice: none 으로 껐음");
    reveal_strlit("tool_choice: none");
    lemma_holds(all.take(14), n, all.skip(31));
    assert(all.take(14) + n + all.skip(31) =~= all);
}

proof fn lemma_no_calls()
    ensures
        contains("개 선언 · 호출 0건 — 모델이 규약을 따르지 않음"@, "호출 0건"@),
{
    let all = "개 선언 · 호출 0건 — 모델이 규약을 따르지 않음"@;
    let n = "호출 0건"@;
    reveal_strlit("개 선언 · 호출 0건 — 모델이 규약을 따르지 않음");
    reveal_strlit("호출 0건");
    lemma_holds(all.take(7), n, all.skip(12));
    assert(all.take(7) + n + all.skip(12) =~= all);
}

proof fn lemma_so_many_calls(k: Seq<char>)
    ensures
        contains("개 선언 · 호출 "@ + k + "건"@, "호출 "@ + k + "건"@),
{
    let a = "개 선언 · 호출 "@;
    let n = "호출 "@ + k + "건"@;
    reveal_strlit("개 선언 · 호출 ");
    reveal_strlit("호출 ");
    assert(a =~= a.take(7) + "호출 "@);
    lemma_holds(a.take(7), n, seq![]);
    assert(a.take(7) + n + Seq::<char>::empty() =~= a + k + "건"@);
}

proof fn lemma_so_many_thought(k: Seq<char>)
    ensures
        contains(" · 그중 "@ + k + "건은 추론 채널에서"@, "그중 "@ + k + "건"@),
{
    let a = " · 그중 "@;
    let b = "건은 추론 채널에서"@;
    let n = "그중 "@ + k + "건"@;
    reveal_strlit(" · 그중 ");
    reveal_strlit("그중 ");
    reveal_strlit("건");
    reveal_strlit("건은 추론 채널에서");
    assert(a =~= a.take(3) + "그중 "@);
    assert(b =~= "건"@ + b.skip(1));
    lemma_holds(a.take(3), n, b.skip(1));
    assert(a.take(3) + n + b.skip(1) =~= a + k + b);
}

proof fn lemma_so_many_refused(k: Seq<char>)
    ensures
        contains(" · 형식 오류 "@ + k + "건은 텍스트로 되돌림"@, "형식 오류 "@ + k + "건"@),
{
    let a = " · 형식 오류 "@;
    let b = "건은 텍스트로 되돌림"@;
    let n = "형식 오류 "@ + k + "건"@;
    reveal_strlit(" · 형식 오류 ");
    reveal_strlit("형식 오류 ");
    reveal_strlit("건");
    reveal_strlit("건은 텍스트로 되돌림");
    assert(a =~= a.take(3) + "형식 오류 "@);
    assert(b =~= "건"@ + b.skip(1));
    lemma_holds(a.take(3), n, b.skip(1));
    assert(a.take(3) + n + b.skip(1) =~= a + k + b);
}

/// One of the lines holds the text.
pub open spec fn some_line(lines: Seq<Seq<char>>, t: Seq<char>) -> bool {
    exists|k: int| 0 <= k < lines.len() && contains(#[trigger] lines[k], t)
}

proof fn lemma_line(lines: Seq<Seq<char>>, line: Seq<char>, t: Seq<char>)
    requires
        lines.contains(line),
        contains(line, t),
    ensures
        some_line(lines, t),
{
    let k = lines.index_of(line);
    assert(contains(lines[k], t));
}

proof fn lemma_noted(list: Seq<Seq<char>>, b: bool, line: Seq<char>)
    ensures
        b ==> note_if(list, b, line).contains(line),
        forall|x: Seq<char>| #[trigger] list.contains(x) ==> note_if(list, b, line).contains(x),
        note_if(list, b, line).len() == list.len() + (if b {
            1int
        } else {
            0
        }),
{
    let r = note_if(list, b, line);
    if b {
        assert(r[list.len() as int] == line);
        assert forall|x: Seq<char>| #[trigger] list.contains(x) implies r.contains(x) by {
            let i = list.index_of(x);
            assert(r[i] == x);
        }
    }
}

/// What was changed or left out of a request is told, all of it: fields without a place,
/// unknown keys, images, a temperature above the limit, a model that was not named.
pub proof fn law_what_is_told_of_a_request(ctx: &Ctx, r: Vec<String>, k: int)
    requires
        call_ensures(plan_meta, (ctx,), r),
    ensures
        ({
            let lines = views(r@);
            let hot = ctx.temperature_requested is Some && 0x3ff0_0000_0000_0000
                < ctx.temperature_requested->0.bits <= 0x7ff0_0000_0000_0000;
            &&& 0 <= k < ctx.plan.ignored@.len() ==> some_line(lines, ctx.plan.ignored@[k]@)
            &&& 0 <= k < ctx.plan.unknown@.len() ==> some_line(lines, ctx.plan.unknown@[k]@)
            &&& ctx.plan.images_dropped > 0 ==> some_line(
                lines,
                "이미지 파트 "@ + dec(ctx.plan.images_dropped as nat),
            )
            &&& hot ==> some_line(lines, ctx.temperature_requested->0.shown@ + " → 1"@)
            &&& ctx.model_defaulted ==> lines.contains("model 미지정 → 기본 모델"@)
            &&& lines.len() == (if ctx.model_defaulted {
                1int
            } else {
                0
            }) + (if ctx.plan.ignored@.len() > 0 {
                1int
            } else {
                0
            }) + (if ctx.plan.images_dropped > 0 {
                1int
            } else {
                0
            }) + (if ctx.plan.unknown@.len() > 0 {
                1int
            } else {
                0
            }) + (if hot {
                1int
            } else {
                0
            })
        }),
{
    let lines = views(r@);
    let ignored = "무시된 파라미터: "@ + join(str_views(ctx.plan.ignored@), " · "@);
    let pics = "이미지 파트 "@ + dec(ctx.plan.images_dropped as nat)
        + "개는 사내 채팅 API 가 받지 못해 버렸습니다"@;
    let keys = "스펙에 없는 키: "@ + join(views(ctx.plan.unknown@), " · "@);
    let none = Seq::<Seq<char>>::empty();
    let a = note_if(none, ctx.model_defaulted, "model 미지정 → 기본 모델"@);
    let b = note_if(a, ctx.plan.ignored@.len() > 0, ignored);
    let c = note_if(b, ctx.plan.images_dropped > 0, pics);
    let d = note_if(c, ctx.plan.unknown@.len() > 0, keys);
    lemma_noted(none, ctx.model_defaulted, "model 미지정 → 기본 모델"@);
    lemma_noted(a, ctx.plan.ignored@.len() > 0, ignored);
    lemma_noted(b, ctx.plan.images_dropped > 0, pics);
    lemma_noted(c, ctx.plan.unknown@.len() > 0, keys);
    let hot = ctx.temperature_requested is Some && 0x3ff0_0000_0000_0000
        < ctx.temperature_requested->0.bits <= 0x7ff0_0000_0000_0000;
    let shown = ctx.temperature_requested->0.shown@;
    let warm = "temperature "@ + shown + " → "@ + "1"@ + " (사내 상한)"@;
    lemma_noted(d, hot, warm);
    assert(lines == note_if(d, hot, warm));
    if 0 <= k < ctx.plan.ignored@.len() {
        let x = str_views(ctx.plan.ignored@);
        assert(x[k] == ctx.plan.ignored@[k]@);
        lemma_join_holds(x, " · "@, k);
        lemma_holds_within("무시된 파라미터: "@, join(x, " · "@), seq![], x[k]);
        assert("무시된 파라미터: "@ + join(x, " · "@) + Seq::<char>::empty() =~= ignored);
        lemma_line(lines, ignored, x[k]);
    }
    if 0 <= k < ctx.plan.unknown@.len() {
        let x = views(ctx.plan.unknown@);
        assert(x[k] == ctx.plan.unknown@[k]@);
        lemma_join_holds(x, " · "@, k);
        lemma_holds_within("스펙에 없는 키: "@, join(x, " · "@), seq![], x[k]);
        assert("스펙에 없는 키: "@ + join(x, " · "@) + Seq::<char>::empty() =~= keys);
        lemma_line(lines, keys, x[k]);
    }
    if ctx.plan.images_dropped > 0 {
        let n = "이미지 파트 "@ + dec(ctx.plan.images_dropped as nat);
        let tail = "개는 사내 채팅 API 가 받지 못해 버렸습니다"@;
        lemma_holds(seq![], n, tail);
        assert(Seq::<char>::empty() + n + tail =~= pics);
        lemma_line(lines, pics, n);
    }
    if hot {
        reveal_strlit(" → ");
        reveal_strlit("1");
        reveal_strlit(" → 1");
        let n = shown + " → 1"@;
        lemma_holds("temperature "@, n, " (사내 상한)"@);
        assert("temperature "@ + n + " (사내 상한)"@ =~= warm);
        lemma_line(lines, warm, n);
    }
}

/// A turn with tools and without a call is noted: as an empty answer where nothing was
/// said at all, else as one that did not use its tools.
pub proof fn law_unused_tools(ctx: &Ctx, turn: &Turn, stats: ToolStats, said: &str, thought: &str, r: Option<String>)
    requires
        call_ensures(unused_tools_note, (ctx, turn), r),
        call_ensures(Turn::tool_stats, (turn,), stats),
        call_ensures(Turn::raw_content, (turn,), said),
        call_ensures(Turn::raw_reasoning, (turn,), thought),
    ensures
        !ctx.tools_emulated || stats.calls > 0 ==> r is None,
        ctx.tools_emulated && stats.calls == 0 ==> {
            let silent = said@.len() == 0 && thought@.len() == 0;
            &&& r is Some
            &&& silent ==> r->0@ == "사내가 빈 응답"@
            &&& !silent ==> r->0@ == "도구 미사용"@
        },
{
}

/// What is counted of the tools in a turn: its calls, its refused blocks, those calls
/// that came out of the reasoning, and the blocks of reasoning.
pub proof fn law_what_is_counted_of_tools(turn: &Turn, stats: ToolStats, called: bool)
    requires
        call_ensures(Turn::tool_stats, (turn,), stats),
        call_ensures(Turn::saw_call, (turn,), called),
    ensures
        stats.calls == turn@.scanner.next_index && stats.rejected == turn@.scanner.rejected,
        stats.in_reasoning == turn@.calls_in_reasoning,
        called <==> stats.calls > 0,
        turn@.think matches Some(th) ==> stats.think_blocks == th.blocks && stats.think_unclosed
            == th.unclosed,
        turn@.think is None ==> stats.think_blocks == 0 && !stats.think_unclosed,
{
}

/// The line on reasoning tells how long it is.
pub proof fn law_the_line_on_reasoning(turn: &Turn, reasoning: &str, r: Option<String>)
    requires
        call_ensures(reasoning_meta, (turn,), r),
        call_ensures(Turn::reasoning, (turn,), reasoning),
    ensures
        r is None <==> reasoning@.len() == 0,
        r matches Some(line) ==> contains(line@, "추론 "@ + dec(reasoning@.len()) + "자"@),
{
    if r is Some {
        let n = "추론 "@ + dec(reasoning@.len()) + "자"@;
        let rest = r->0@.skip(n.len() as int);
        assert(r->0@ =~= n + rest);
        lemma_holds(seq![], n, rest);
        assert(Seq::<char>::empty() + n + rest =~= r->0@);
    }
}

} // verus!
