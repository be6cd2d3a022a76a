//! Who may call, what is shown of secrets, and the settings.

use vstd::prelude::*;
use vstd::string::*;

use crate::config::{skip_byte_order_mark, without_marks, without_slashes, Config, StatsView};
use crate::logstore::Kind;
use crate::openai::{opt_text, ErrorEnvelope};
use crate::proxy::envelope::openai_type;
use crate::proxy::gate::{
    authorize, body_plan, fabrix_headers_line, head_view, pair_views, response_head, BodyPlan,
};
use crate::text::{
    blank, contains, dec, find, is_digit, lemma_dec_digits, lemma_dec_value, lower, starts_with,
    trim,
};

use super::calls::lemma_tag_found;
use super::text::{lemma_holds, lemma_holds_within};

verus! {

// ───────────────────────── tokens ─────────────────────────

/// Without token mode everybody may call. With it, those may call who present the token
/// that was issued, behind `Bearer ` or by itself, and nobody else; nobody may where no
/// token was issued.
pub proof fn law_who_may_call(
    cfg: &Config,
    header: Option<&str>,
    r: Result<(), (u16, ErrorEnvelope)>,
    shown: Seq<char>,
)
    requires
        call_ensures(authorize, (cfg, header), r),
    ensures
        !cfg.token_mode ==> r is Ok,
        cfg.token_mode && header is None ==> r is Err,
        cfg.token_mode && blank(cfg.issued_token@) ==> r is Err,
        cfg.token_mode && !blank(cfg.issued_token@) && header is Some && header->0@ == "Bearer "@
            + shown ==> (r is Ok <==> trim(shown) == trim(cfg.issued_token@)),
        cfg.token_mode && !blank(cfg.issued_token@) && header is Some && !starts_with(
            header->0@,
            "Bearer "@,
        ) ==> (r is Ok <==> trim(header->0@) == trim(cfg.issued_token@)),
        r matches Err(e) ==> e.0 == 401 && e.1.error.kind@ == "authentication_error"@,
{
    if header is Some && header->0@ == "Bearer "@ + shown {
        let h = header->0@;
        let n = "Bearer "@.len() as int;
        assert(h.take(n) =~= "Bearer "@);
        assert(h.skip(n) =~= shown);
    }
}

/// Of a secret no more than its last three characters are shown.
pub proof fn law_secrets_are_masked(secret: &str, r: String)
    requires
        call_ensures(Config::mask, (secret,), r),
    ensures
        ({
            let t = trim(secret@);
            &&& blank(secret@) ==> r@ == "(미설정)"@
            &&& !blank(secret@) && t.len() <= 3 ==> r@ == "●●●●"@ + t
            &&& t.len() > 3 ==> r@ == "●●●●"@ + seq![
                t[t.len() - 3],
                t[t.len() - 2],
                t[t.len() - 1],
            ]
        }),
{
    let t = trim(secret@);
    if t.len() > 3 {
        assert(t.skip(t.len() - 3) =~= seq![t[t.len() - 3], t[t.len() - 2], t[t.len() - 1]]);
    }
}

/// The line of headers shows both secrets, masked.
pub proof fn law_the_line_of_headers(
    cfg: &Config,
    id: &str,
    secret: &str,
    client: String,
    token: String,
    r: String,
)
    requires
        call_ensures(fabrix_headers_line, (cfg,), r),
        id@ == cfg.fabrix_client@,
        secret@ == cfg.openapi_token@,
        call_ensures(Config::mask, (id,), client),
        call_ensures(Config::mask, (secret,), token),
    ensures
        r@ == "x-fabrix-client "@ + client@ + " · x-openapi-token "@ + token@,
{
}

// ───────────────────────── bodies and heads ─────────────────────────

/// A body is read up to the limit, drained up to four times the limit, and refused above;
/// one that does not say how long it is is read.
pub proof fn law_how_a_body_is_taken(length: Option<&str>, limit: usize, r: BodyPlan, n: nat)
    requires
        call_ensures(body_plan, (length, limit), r),
        n <= usize::MAX,
    ensures
        length is None ==> r is Read,
        length is Some && length->0@ == dec(n) ==> {
            &&& n <= limit ==> r is Read
            &&& limit < n <= 4 * limit ==> r is Drain
            &&& n > 4 * limit ==> r is Refuse
        },
{
    lemma_dec_value(n);
    lemma_dec_digits(n);
    if length is Some && length->0@ == dec(n) {
        assert(is_digit(dec(n)[0]));
        assert(dec(n)[0] != '+');
    }
}

proof fn lemma_head_concat(
    status: Seq<char>,
    a: Seq<(Seq<char>, Seq<char>)>,
    b: Seq<(Seq<char>, Seq<char>)>,
)
    ensures
        head_view(status, a + b) == head_view(status, a) + head_rest(b),
    decreases b.len(),
{
    if b.len() == 0 {
        assert(a + b =~= a);
        assert(head_view(status, a) + head_rest(b) =~= head_view(status, a));
    } else {
        lemma_head_concat(status, a, b.drop_last());
        assert((a + b).drop_last() =~= a + b.drop_last());
        assert(head_view(status, a + b) =~= head_view(status, a) + head_rest(b));
    }
}

/// One line for each header but cookies.
pub open spec fn head_rest(headers: Seq<(Seq<char>, Seq<char>)>) -> Seq<char>
    decreases headers.len(),
{
    if headers.len() == 0 {
        seq![]
    } else {
        head_rest(headers.drop_last()) + (if lower(headers.last().0) == "set-cookie"@ {
            seq![]
        } else {
            headers.last().0 + ": "@ + headers.last().1 + "\n"@
        })
    }
}

proof fn lemma_head_holds(headers: Seq<(Seq<char>, Seq<char>)>, k: int)
    requires
        0 <= k < headers.len(),
        lower(headers[k].0) != "set-cookie"@,
    ensures
        contains(head_rest(headers), headers[k].0 + ": "@ + headers[k].1 + "\n"@),
    decreases headers.len(),
{
    let front = head_rest(headers.drop_last());
    let line = headers[k].0 + ": "@ + headers[k].1 + "\n"@;
    if k == headers.len() - 1 {
        lemma_holds(front, line, seq![]);
        assert(front + line + Seq::<char>::empty() =~= head_rest(headers));
    } else {
        lemma_head_holds(headers.drop_last(), k);
        let more = head_rest(headers).skip(front.len() as int);
        assert(Seq::<char>::empty() + front + more =~= head_rest(headers));
        lemma_holds_within(seq![], front, more, line);
    }
}

/// The head of a response is its status line and a line for each header but cookies.
pub proof fn law_the_head_of_a_response(
    status: &str,
    headers: &Vec<(String, String)>,
    r: String,
    k: int,
)
    requires
        call_ensures(response_head, (status, headers), r),
    ensures
        r@ == status@ + "\n"@ + head_rest(pair_views(headers@)),
        0 <= k < headers@.len() && lower(headers@[k].0@) != "set-cookie"@ ==> contains(
            r@,
            headers@[k].0@ + ": "@ + headers@[k].1@ + "\n"@,
        ),
        (forall|j: int|
            0 <= j < headers@.len() ==> lower((#[trigger] headers@[j]).0@) == "set-cookie"@) ==> r@
            == status@ + "\n"@,
{
    let all = pair_views(headers@);
    let none = Seq::<(Seq<char>, Seq<char>)>::empty();
    lemma_head_concat(status@, none, all);
    assert(none + all =~= all);
    if 0 <= k < headers@.len() && lower(headers@[k].0@) != "set-cookie"@ {
        assert(all[k] == (headers@[k].0@, headers@[k].1@));
        lemma_head_holds(all, k);
        let line = headers@[k].0@ + ": "@ + headers@[k].1@ + "\n"@;
        lemma_holds_within(status@ + "\n"@, head_rest(all), seq![], line);
        assert(status@ + "\n"@ + head_rest(all) + Seq::<char>::empty() =~= r@);
    }
    if forall|j: int|
        0 <= j < headers@.len() ==> lower((#[trigger] headers@[j]).0@) == "set-cookie"@ {
        assert forall|j: int| 0 <= j < all.len() implies lower((#[trigger] all[j]).0)
            == "set-cookie"@ by {
            assert(all[j] == (headers@[j].0@, headers@[j].1@));
            assert(lower(headers@[j].0@) == "set-cookie"@);
        }
        lemma_only_cookies(all);
        assert(status@ + "\n"@ + Seq::<char>::empty() =~= status@ + "\n"@);
    }
}

proof fn lemma_only_cookies(headers: Seq<(Seq<char>, Seq<char>)>)
    requires
        forall|j: int| 0 <= j < headers.len() ==> lower((#[trigger] headers[j]).0) == "set-cookie"@,
    ensures
        head_rest(headers) == Seq::<char>::empty(),
    decreases headers.len(),
{
    if headers.len() > 0 {
        let front = headers.drop_last();
        assert forall|j: int| 0 <= j < front.len() implies lower((#[trigger] front[j]).0)
            == "set-cookie"@ by {
            assert(front[j] == headers[j]);
        }
        lemma_only_cookies(front);
        assert(lower(headers[headers.len() - 1].0) == "set-cookie"@);
        assert(head_rest(headers) =~= Seq::<char>::empty());
    }
}

// ───────────────────────── errors ─────────────────────────

/// The type of an error by its status.
pub proof fn law_types_of_errors(status: u16, r: &'static str)
    requires
        call_ensures(openai_type, (status,), r),
    ensures
        status == 401 ==> r@ == "authentication_error"@,
        status == 403 ==> r@ == "permission_error"@,
        status == 429 ==> r@ == "rate_limit_error"@,
        status >= 500 ==> r@ == "api_error"@,
        status < 500 && status != 401 && status != 403 && status != 429 ==> r@
            == "invalid_request_error"@,
{
}

/// An error says what it was made of; naming a field changes nothing else.
pub proof fn law_an_error_says_what_it_is(
    message: String,
    kind: &'static str,
    code: Option<String>,
    e: ErrorEnvelope,
    param: String,
    f: ErrorEnvelope,
)
    requires
        call_ensures(ErrorEnvelope::new, (message, kind, code), e),
        call_ensures(ErrorEnvelope::with_param, (e, param), f),
    ensures
        e.error.message@ == message@ && e.error.kind@ == kind@ && e.error.param is None,
        opt_text(e.error.code) == opt_text(code),
        f.error.message@ == message@ && f.error.kind@ == kind@,
        f.error.param is Some && f.error.param->0@ == param@,
        opt_text(f.error.code) == opt_text(code),
{
}

// ───────────────────────── the settings ─────────────────────────

/// The settings are complete if all three of them hold something.
pub proof fn law_what_must_be_set(cfg: &Config, r: bool)
    requires
        call_ensures(Config::is_configured, (cfg,), r),
    ensures
        r <==> !blank(cfg.fabrix_base_url@) && !blank(cfg.fabrix_client@) && !blank(
            cfg.openapi_token@,
        ),
{
}

pub open spec fn all_slashes(s: Seq<char>) -> bool {
    forall|i: int| 0 <= i < s.len() ==> #[trigger] s[i] == '/'
}

proof fn lemma_without_slashes(base: Seq<char>, tail: Seq<char>)
    requires
        all_slashes(tail),
        base.len() > 0 ==> base.last() != '/',
    ensures
        without_slashes(base + tail) == base,
    decreases tail.len(),
{
    if tail.len() == 0 {
        assert(base + tail =~= base);
    } else {
        assert(tail[tail.len() - 1] == '/');
        assert((base + tail).drop_last() =~= base + tail.drop_last());
        lemma_without_slashes(base, tail.drop_last());
    }
}

proof fn lemma_slashes_keep(front: Seq<char>, rest: Seq<char>)
    requires
        front.len() > 0,
        front.last() != '/',
    ensures
        exists|kept: Seq<char>| without_slashes(front + rest) == #[trigger] (front + kept),
    decreases rest.len(),
{
    let s = front + rest;
    if rest.len() > 0 && s.last() == '/' {
        assert(s.drop_last() =~= front + rest.drop_last());
        lemma_slashes_keep(front, rest.drop_last());
    } else {
        if rest.len() == 0 {
            assert(s =~= front);
        }
        assert(without_slashes(s) == front + rest);
    }
}

/// The base URL is what was entered, without slashes at its end and without `/openapi`
/// and what follows that.
pub proof fn law_the_base_url(cfg: &Config, r: String, base: Seq<char>, tail: Seq<char>)
    requires
        call_ensures(Config::normalized_base_url, (cfg,), r),
        base.len() > 0,
        base.last() != '/',
        !contains(base, "/openapi"@),
    ensures
        trim(cfg.fabrix_base_url@) == base + tail && all_slashes(tail) ==> r@ == base,
        trim(cfg.fabrix_base_url@) == base + "/openapi"@ + tail ==> r@ == base,
{
    let t = trim(cfg.fabrix_base_url@);
    if t == base + tail && all_slashes(tail) {
        lemma_without_slashes(base, tail);
    }
    if t == base + "/openapi"@ + tail {
        lemma_base_before_api(base, tail);
    }
}

proof fn lemma_base_before_api(base: Seq<char>, tail: Seq<char>)
    requires
        !contains(base, "/openapi"@),
    ensures
        ({
            let s = without_slashes(base + "/openapi"@ + tail);
            find(s, "/openapi"@) == Some(base.len() as int) && s.take(base.len() as int) == base
        }),
{
    let tag = "/openapi"@;
    reveal_strlit("/openapi");
    let front = base + tag;
    assert(front.last() == 'i');
    lemma_slashes_keep(front, tail);
    let kept = choose|kept: Seq<char>| without_slashes(front + tail) == #[trigger] (front + kept);
    lemma_tag_found(base, tag, kept);
    assert((front + kept).take(base.len() as int) =~= base);
}

proof fn lemma_without_marks(marks: Seq<char>, rest: Seq<char>)
    requires
        forall|i: int| 0 <= i < marks.len() ==> #[trigger] marks[i] == '\u{feff}',
        rest.len() > 0 ==> rest[0] != '\u{feff}',
    ensures
        without_marks(marks + rest) == rest,
    decreases marks.len(),
{
    if marks.len() == 0 {
        assert(marks + rest =~= rest);
    } else {
        assert(marks[0] == '\u{feff}');
        assert((marks + rest).drop_first() =~= marks.drop_first() + rest);
        lemma_without_marks(marks.drop_first(), rest);
    }
}

/// Byte order marks at the beginning go, and nothing else.
pub proof fn law_byte_order_marks(raw: &str, r: &str, marks: Seq<char>, rest: Seq<char>)
    requires
        call_ensures(skip_byte_order_mark, (raw,), r),
        raw@ == marks + rest,
        forall|i: int| 0 <= i < marks.len() ==> #[trigger] marks[i] == '\u{feff}',
        rest.len() > 0 ==> rest[0] != '\u{feff}',
    ensures
        r@ == rest,
{
    lemma_without_marks(marks, rest);
}

/// A call is counted once in all and once for its kind; a new day begins at nothing.
pub proof fn law_calls_are_counted(s: StatsView, kind: Kind, at: Seq<char>, today: Seq<char>)
    requires
        s.total < u64::MAX,
        s.chat < u64::MAX,
        s.models < u64::MAX,
        s.images < u64::MAX,
    ensures
        ({
            let t = s.on_day(today).counting(kind, at);
            let same_day = s.date == today;
            let chat = if same_day { s.chat as int } else { 0 };
            let models = if same_day { s.models as int } else { 0 };
            let images = if same_day { s.images as int } else { 0 };
            let total = if same_day { s.total as int } else { 0 };
            &&& t.date == today && t.last_call_at == Some(at) && t.total == total + 1
            &&& kind == Kind::Chat ==> t.chat == chat + 1 && t.models == models && t.images == images
            &&& kind == Kind::Models ==> t.chat == chat && t.models == models + 1 && t.images
                == images
            &&& kind == Kind::Images ==> t.chat == chat && t.models == models && t.images == images
                + 1
        }),
{
}

} // verus!
