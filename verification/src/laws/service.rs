//! The list of models, the ports, and the small things around them.

use vstd::prelude::*;
use vstd::string::*;

use crate::commands::ModelRow;
use crate::config::Config;
use crate::json::{json_views, lemma_json_views, Json, JsonView};
use crate::openai::{opt_text, ErrorEnvelope, ModelCard};
use crate::port::{above, first_pid, first_quoted, listening_pid, process_name, PortStatus};
use crate::proxy::alias::{find_model, FabrixModel, ResolvedModel};
use crate::proxy::b64::{decode, without_white};
use crate::proxy::fabrix::{
    extract_array, model_views, models_in_tree, read_model, read_models, text_views,
};
use crate::proxy::fingerprint::{fnv, hex, hex_char, system_fingerprint};
use crate::proxy::models::{
    list_lines, look_up, render_model_list, retrieve, Lookup, ModelsCache,
};
use crate::state::{address_of, AppState, Snapshot};
use crate::text::{
    blank, contains, dec, ends_with, lemma_dec_digits, lemma_dec_value, lines, lower, starts_with,
    u32_value, white, words,
};

use super::text::{lemma_holds, lemma_holds_within};

verus! {

// ───────────────────────── models ─────────────────────────

/// A client sees a model under its alias; one that is not found is refused by its name.
pub proof fn law_cards(
    models: &[ResolvedModel],
    id: &str,
    created: i64,
    found: Option<&ResolvedModel>,
    r: Result<ModelCard, ErrorEnvelope>,
)
    requires
        call_ensures(find_model, (models, id), found),
        call_ensures(retrieve, (models, id, created), r),
    ensures
        r is Ok <==> found is Some,
        r matches Ok(card) ==> card.id@ == found->0.alias@ && card.created == created && card.object@
            == "model"@ && card.owned_by@ == "corp"@,
        r matches Err(e) ==> contains(e.error.message@, id@) && e.error.kind@
            == "invalid_request_error"@ && opt_text(e.error.param) == Some("model"@) && opt_text(
            e.error.code,
        ) == Some("model_not_found"@),
{
    if r is Err {
        let a = "모델 '"@;
        let b =
            "' 을(를) 찾을 수 없습니다. GET /v1/models 또는 트레이 메뉴의 「모델 목록」에서 모델 ID 를 확인하세요."@;
        lemma_holds(a, id@, b);
    }
}

/// A list that was fetched is good for a minute.
pub proof fn law_a_list_is_good_for_a_minute(c: &ModelsCache, now: u64, r: bool)
    requires
        call_ensures(ModelsCache::is_fresh, (c, now), r),
    ensures
        r <==> now < c.fetched_at + 60000,
{
}

/// The list that is there is used if it is good and no new one is asked for; else the
/// gateway is asked, if it can be.
pub proof fn law_looking_models_up(
    cache: &Option<ModelsCache>,
    cfg: &Config,
    refresh: bool,
    now: u64,
    r: Lookup,
)
    requires
        call_ensures(look_up, (cache, cfg, refresh, now), r),
    ensures
        ({
            let good = !refresh && cache is Some && now < cache->0.fetched_at + 60000;
            let set = !blank(cfg.fabrix_base_url@) && !blank(cfg.fabrix_client@) && !blank(
                cfg.openapi_token@,
            );
            &&& good ==> r is Cached && r->Cached_0.models@ == cache->0.models@ && r->Cached_0.cached
            &&& !good && set ==> r is Ask
            &&& !good && !set ==> r is NotConfigured
        }),
{
}

proof fn lemma_listed(models: Seq<ResolvedModel>, k: int, n: Seq<char>)
    requires
        0 <= k < models.len(),
        n == models[k].alias@ || n == models[k].model_id@ || n == models[k].label@,
    ensures
        contains(list_lines(models), n),
    decreases models.len(),
{
    let front = list_lines(models.drop_last());
    let m = models.last();
    let a = "  { \"id\": \""@;
    let b = "\", \"owned_by\": \"corp\" },   ← "@;
    let c = " · "@;
    let d = "\n"@;
    let all = list_lines(models);
    if k < models.len() - 1 {
        lemma_listed(models.drop_last(), k, n);
        let rest = a + m.alias@ + b + m.model_id@ + c + m.label@ + d;
        lemma_holds_within(seq![], front, rest, n);
        assert(Seq::<char>::empty() + front + rest =~= all);
    } else {
        lemma_holds(front + a, m.alias@, b + m.model_id@ + c + m.label@ + d);
        assert(front + a + m.alias@ + (b + m.model_id@ + c + m.label@ + d) =~= all);
        lemma_holds(front + a + m.alias@ + b, m.model_id@, c + m.label@ + d);
        assert(front + a + m.alias@ + b + m.model_id@ + (c + m.label@ + d) =~= all);
        lemma_holds(front + a + m.alias@ + b + m.model_id@ + c, m.label@, d);
        assert(front + a + m.alias@ + b + m.model_id@ + c + m.label@ + d =~= all);
    }
}

/// The list in the log names every model by its alias, its id and its label.
pub proof fn law_the_list_in_the_log(models: &[ResolvedModel], r: String, k: int)
    requires
        call_ensures(render_model_list, (models,), r),
        0 <= k < models@.len(),
    ensures
        contains(r@, models@[k].alias@),
        contains(r@, models@[k].model_id@),
        contains(r@, models@[k].label@),
{
    let m = models@[k];
    let all = list_lines(models@);
    lemma_listed(models@, k, m.alias@);
    lemma_listed(models@, k, m.model_id@);
    lemma_listed(models@, k, m.label@);
    lemma_holds_within(seq![], all, "] }"@, m.alias@);
    lemma_holds_within(seq![], all, "] }"@, m.model_id@);
    lemma_holds_within(seq![], all, "] }"@, m.label@);
    assert(Seq::<char>::empty() + all + "] }"@ =~= r@);
}

/// A row shows its model, and whether it is the default one.
pub proof fn law_rows(m: &ResolvedModel, alias: &str, r: ModelRow)
    requires
        call_ensures(ModelRow::from, (m, alias), r),
    ensures
        r.alias@ == m.alias@ && r.model_id@ == m.model_id@ && r.label@ == m.label@,
        opt_text(r.description) == opt_text(m.description),
        r.is_default <==> m.alias@ == alias@,
{
}

/// A model is an object with an id, under one of three names; without names and
/// descriptions it has none.
pub proof fn law_what_is_a_model(v: &Json, r: Option<FabrixModel>, id: Seq<char>)
    requires
        call_ensures(FabrixModel::from_json, (v,), r),
        v@ is Object,
        v@.get("name"@) is None,
        v@.get("description"@) is None,
    ensures
        v@.get("model_id"@) is None && v@.get("modelId"@) is None && v@.get("id"@) is None ==> r is None,
        v@.get("model_id"@) == Some(JsonView::Text(id)) && v@.get("modelId"@) is None && v@.get(
            "id"@,
        ) is None ==> r is Some && r->0.model_id@ == id && r->0.name@.len() == 0,
        v@.get("modelId"@) == Some(JsonView::Text(id)) && v@.get("model_id"@) is None && v@.get(
            "id"@,
        ) is None ==> r is Some && r->0.model_id@ == id && r->0.description@.len() == 0,
        v@.get("id"@) == Some(JsonView::Text(id)) && v@.get("model_id"@) is None && v@.get(
            "modelId"@,
        ) is None ==> r is Some && r->0.model_id@ == id,
{
    if r is Some {
        assert(text_views(r->0.name@).len() == r->0.name@.len());
        assert(text_views(r->0.description@).len() == r->0.description@.len());
    }
}

/// The names of a model are read one by one: each has the language and the content that
/// the object has.
pub proof fn law_names_are_what_was_sent(
    v: &Json,
    r: Option<FabrixModel>,
    items: Seq<JsonView>,
    k: int,
)
    requires
        call_ensures(FabrixModel::from_json, (v,), r),
        v@ is Object,
        v@.get("name"@) == Some(JsonView::Array(items)),
        0 <= k < items.len(),
        items[k] is Object,
    ensures
        r matches Some(m) ==> {
            &&& m.name@.len() == items.len()
            &&& items[k].get("content"@) matches Some(JsonView::Text(t)) ==> opt_text(
                m.name@[k].content,
            ) == Some(t)
            &&& items[k].get("languageCode"@) matches Some(JsonView::Text(t)) ==> opt_text(
                m.name@[k].language_code,
            ) == Some(t)
            &&& items[k].get("language_code"@) matches Some(JsonView::Text(t)) ==> opt_text(
                m.name@[k].language_code,
            ) == Some(t)
        },
{
    if r is Some {
        let list = text_views(r->0.name@);
        assert(list.len() == r->0.name@.len());
        lemma_localized(items, k);
        assert(list[k].content == opt_text(r->0.name@[k].content));
        assert(list[k].language_code == opt_text(r->0.name@[k].language_code));
    }
}

proof fn lemma_localized(items: Seq<JsonView>, k: int)
    requires
        0 <= k < items.len(),
    ensures
        crate::proxy::fabrix::read_localized_list(items) matches Some(list) ==> list.len()
            == items.len() && crate::proxy::fabrix::read_localized(items[k]) == Some(list[k]),
    decreases items.len(),
{
    if items.len() > 1 {
        let front = items.drop_last();
        lemma_localized(front, if k < front.len() { k } else { 0 });
    } else {
        assert(crate::proxy::fabrix::read_localized_list(items.drop_last())
            == Some(Seq::<crate::proxy::fabrix::TextView>::empty()));
    }
}

/// Every item of a list that is a model is among the models, and nothing else is.
pub proof fn law_no_model_is_lost(
    tree: &Json,
    items: Option<&Vec<Json>>,
    r: Option<Vec<FabrixModel>>,
    k: int,
    m: Option<FabrixModel>,
)
    requires
        call_ensures(extract_array, (tree,), items),
        call_ensures(models_in_tree, (tree,), r),
        items is Some,
        0 <= k < items->0@.len(),
        call_ensures(FabrixModel::from_json, (&items->0@[k],), m),
    ensures
        r is Some,
        m is Some ==> model_views(r->0@).contains(m->0@),
        r->0@.len() <= items->0@.len(),
        items->0@.len() == 1 ==> r->0@.len() == (if m is Some {
            1int
        } else {
            0
        }),
{
    let all = json_views(items->0@);
    lemma_json_views(items->0@);
    assert(all[k] == items->0@[k]@);
    assert(model_views(r->0@).len() == r->0@.len());
    lemma_read_models(all, k);
    if all.len() == 1 {
        assert(read_models(all.drop_last()).len() == 0);
    }
}

proof fn lemma_read_models(items: Seq<JsonView>, k: int)
    requires
        0 <= k < items.len(),
    ensures
        read_model(items[k]) matches Some(m) ==> read_models(items).contains(m),
        read_models(items).len() <= items.len(),
    decreases items.len(),
{
    let front = items.drop_last();
    let s = read_models(items);
    let t = read_models(front);
    if front.len() > 0 {
        lemma_read_models(front, if k < front.len() { k } else { 0 });
    }
    if read_model(items[k]) is Some {
        let m = read_model(items[k])->0;
        if k < front.len() {
            let i = t.index_of(m);
            assert(s[i] == m);
        } else {
            assert(s[t.len() as int] == m);
        }
    }
}

// ───────────────────────── addresses and flushes ─────────────────────────

/// The address that clients use names the port.
pub proof fn law_addresses(port: u16, r: String, state: &AppState, url: String)
    requires
        call_ensures(address_of, (port,), r),
        call_ensures(AppState::base_url, (state,), url),
    ensures
        r@ == "http://127.0.0.1:"@ + dec(port as nat) + "/v1"@,
        state.serving == Some(port) ==> url@ == r@,
        state.serving is None && state.config.port == port ==> url@ == r@,
{
}

/// The figures are written if it is demanded, if they never were, or if that was two
/// seconds ago or longer.
pub proof fn law_when_figures_are_written(s: AppState, force: bool, now: u64)
    ensures
        force ==> s.flush_owed(force, now),
        s.stats_flushed_at is None ==> s.flush_owed(force, now),
        !force && s.stats_flushed_at is Some ==> (s.flush_owed(force, now) <==> now
            >= s.stats_flushed_at->0 + 2000),
{
}

/// What is shown of the service is how it stands. A token is shown only where tokens are
/// asked for, and how many models there are only while the list is good.
pub proof fn law_what_is_shown(state: &AppState, status: PortStatus, now: u64, r: Snapshot, url: String)
    requires
        call_ensures(AppState::snapshot, (state, status, now), r),
        call_ensures(AppState::base_url, (state,), url),
    ensures
        r.running <==> state.serving is Some,
        state.serving is Some ==> r.port == state.serving->0,
        state.serving is None ==> r.port == state.config.port,
        r.base_url@ == url@,
        r.first_run == state.first_run,
        r.configured <==> !blank(state.config.fabrix_base_url@) && !blank(
            state.config.fabrix_client@,
        ) && !blank(state.config.openapi_token@),
        r.auto_start == state.config.auto_start && r.token_mode == state.config.token_mode,
        r.default_model_alias@ == state.config.default_model_alias@,
        r.insecure_skip_verify == state.config.insecure_skip_verify,
        state.config.token_mode ==> r.issued_token@ == state.config.issued_token@,
        !state.config.token_mode ==> r.issued_token@.len() == 0,
        r.stats@ == state.stats@ && r.port_status == status,
        state.models_cache is Some && now < state.models_cache->0.fetched_at + 60000 ==> r.model_count
            == Some(state.models_cache->0.models@.len() as usize),
        state.models_cache is None || now >= state.models_cache->0.fetched_at + 60000
            ==> r.model_count is None,
        r.recent@.len() <= state.logs@.len(),
        r.recent@.len() > 0 ==> r.recent@[0].id == state.logs@[0].id && r.recent@[0].status
            == state.logs@[0].status,
{
    reveal_strlit("");
    if r.recent@.len() > 0 {
        assert(state.logs@[0].without_wire(r.recent@[0]));
    }
}

// ───────────────────────── ports ─────────────────────────

/// The ports that are tried are the next ones, as far as there are any.
pub proof fn law_the_next_ports(port: u16, by: int)
    requires
        by >= 0,
    ensures
        port + by <= 65535 ==> above(port, by) == port + by,
        port + by > 65535 ==> above(port, by) == 65535,
{
}

proof fn lemma_lines_parted(a: Seq<char>, b: Seq<char>)
    ensures
        lines(a + seq!['\n'] + b) == lines(a) + lines(b),
        lines(b).len() > 0,
    decreases b.len(),
{
    let s = a + seq!['\n'] + b;
    if b.len() == 0 {
        assert(s.drop_last() =~= a);
        assert(s.last() == '\n');
        assert(lines(s) =~= lines(a) + lines(b));
    } else {
        lemma_lines_parted(a, b.drop_last());
        assert(s.drop_last() =~= a + seq!['\n'] + b.drop_last());
        assert(s.last() == b.last());
        let front = lines(b.drop_last());
        let all = lines(a) + front;
        assert(all.drop_last() =~= lines(a) + front.drop_last());
        assert(all.last() == front.last());
        assert(lines(s) =~= lines(a) + lines(b));
    }
}

proof fn lemma_first_pid(a: Seq<Seq<char>>, b: Seq<Seq<char>>, port: u16)
    ensures
        first_pid(a + b, port) == (if first_pid(a, port) is Some {
            first_pid(a, port)
        } else {
            first_pid(b, port)
        }),
    decreases a.len(),
{
    if a.len() == 0 {
        assert(a + b =~= b);
    } else {
        lemma_first_pid(a.drop_first(), b, port);
        assert((a + b).drop_first() =~= a.drop_first() + b);
    }
}

/// The first line that tells of a listener counts.
pub proof fn law_the_first_listener_counts(
    first: &str,
    second: &str,
    both: &str,
    port: u16,
    r1: Option<u32>,
    r2: Option<u32>,
    r: Option<u32>,
)
    requires
        call_ensures(listening_pid, (first, port), r1),
        call_ensures(listening_pid, (second, port), r2),
        call_ensures(listening_pid, (both, port), r),
        both@ == first@ + seq!['\n'] + second@,
    ensures
        r == (if r1 is Some {
            r1
        } else {
            r2
        }),
{
    lemma_lines_parted(first@, second@);
    lemma_first_pid(lines(first@), lines(second@), port);
}

proof fn lemma_one_line(s: Seq<char>)
    requires
        !s.contains('\n'),
    ensures
        lines(s) == seq![s],
    decreases s.len(),
{
    if s.len() == 0 {
        assert(s =~= seq![]);
        assert(lines(s) =~= seq![s]);
    } else {
        let front = s.drop_last();
        if front.contains('\n') {
            let i = front.index_of('\n');
            assert(s[i] == '\n');
        }
        lemma_one_line(front);
        assert(s[s.len() - 1] == s.last());
        assert(s.last() != '\n');
        assert(front.push(s.last()) =~= s);
        assert(lines(front).last() == front);
        assert(lines(s) == lines(front).drop_last().push(s));
        assert(lines(s) =~= seq![s]);
    }
}

/// A line tells of a listener on a port if it is one of TCP that is listening there; its
/// fifth column is the process.
pub proof fn law_a_line_on_a_listener(line: &str, port: u16, r: Option<u32>, pid: u32)
    requires
        call_ensures(listening_pid, (line, port), r),
        !line@.contains('\n'),
    ensures
        words(line@).len() < 5 ==> r is None,
        words(line@).len() >= 5 ==> {
            let w = words(line@);
            let hit = lower(w[0]) == lower("TCP"@) && lower(w[3]) == lower("LISTENING"@)
                && ends_with(w[1], ":"@ + dec(port as nat));
            &&& !hit ==> r is None
            &&& hit && w[4] == dec(pid as nat) ==> r == Some(pid)
        },
{
    lemma_one_line(line@);
    let one = seq![line@];
    assert(one.drop_first() =~= seq![]);
    assert(first_pid(seq![], port) is None);
    lemma_dec_value(pid as nat);
    lemma_dec_digits(pid as nat);
    assert(crate::text::is_digit(dec(pid as nat)[0]));
    assert(u32_value(dec(pid as nat)) == Some(pid));
}

/// A process goes by the name between the quotes of the first line that has them.
pub proof fn law_names_of_processes(
    line: &str,
    r: Option<String>,
    name: Seq<char>,
    rest: Seq<char>,
)
    requires
        call_ensures(process_name, (line,), r),
        !line@.contains('\n'),
        !name.contains('"'),
    ensures
        line@ == seq!['"'] + name + seq!['"'] + rest && name.len() > 0 && !contains(
            name,
            "정보 없음"@,
        ) && !contains(name, "No tasks"@) ==> r is Some && r->0@ == name,
        line@ == seq!['"'] + name + seq!['"'] + rest && (contains(name, "No tasks"@) || contains(
            name,
            "정보 없음"@,
        )) ==> r is None,
        line@.len() == 0 || line@[0] != '"' ==> r is None,
{
    lemma_one_line(line@);
    reveal_strlit("\"");
    let one = seq![line@];
    assert(one.drop_first() =~= seq![]);
    assert(first_quoted(seq![]) is None);
    let q = "\""@;
    assert(q =~= seq!['"']);
    if line@ == seq!['"'] + name + seq!['"'] + rest {
        assert(line@.take(1) =~= q);
        assert(line@.skip(1) =~= name + seq!['"'] + rest);
        super::images::lemma_cut(name, '"', rest);
    }
    if line@.len() > 0 && line@[0] != '"' && starts_with(line@, q) {
        assert(line@.take(1)[0] == '"');
    }
}

// ───────────────────────── base64 and fingerprints ─────────────────────────

proof fn lemma_white_concat(a: Seq<char>, b: Seq<char>)
    ensures
        without_white(a + b) == without_white(a) + without_white(b),
    decreases b.len(),
{
    reveal(Seq::filter);
    if b.len() == 0 {
        assert(a + b =~= a);
        assert(without_white(a) + without_white(b) =~= without_white(a));
    } else {
        lemma_white_concat(a, b.drop_last());
        assert((a + b).drop_last() =~= a + b.drop_last());
        assert(without_white(a + b) =~= without_white(a) + without_white(b));
    }
}

/// White space in base64 text does not matter.
pub proof fn law_white_space_in_base64(
    a: Seq<char>,
    w: char,
    b: Seq<char>,
    with: &str,
    without: &str,
    r: Result<Vec<u8>, String>,
    q: Result<Vec<u8>, String>,
)
    requires
        white(w),
        with@ == a + seq![w] + b,
        without@ == a + b,
        call_ensures(decode, (with,), r),
        call_ensures(decode, (without,), q),
    ensures
        r is Ok <==> q is Ok,
        r is Ok ==> r->Ok_0@ == q->Ok_0@,
        r is Err ==> r->Err_0@ == q->Err_0@,
{
    lemma_white_concat(a + seq![w], b);
    lemma_white_concat(a, seq![w]);
    lemma_white_concat(a, b);
    reveal_with_fuel(Seq::filter, 2);
    assert(seq![w].drop_last() =~= seq![]);
    assert(without_white(seq![w]) =~= seq![]);
    assert(without_white(a) + Seq::<char>::empty() =~= without_white(a));
}

/// The number that hexadecimal digits stand for.
pub open spec fn hex_number(s: Seq<char>) -> nat
    decreases s.len(),
{
    if s.len() == 0 {
        0
    } else {
        let c = s.last();
        hex_number(s.drop_last()) * 16 + (if '0' <= c && c <= '9' {
            (c as u32 - 48) as nat
        } else {
            (c as u32 - 87) as nat
        })
    }
}

proof fn lemma_hex(n: nat, width: nat)
    requires
        n < pow16(width),
    ensures
        hex(n, width).len() == width,
        hex_number(hex(n, width)) == n,
        crate::ids::all_hex(hex(n, width)),
    decreases width,
{
    if width > 0 {
        let front = hex(n / 16, (width - 1) as nat);
        assert(n / 16 < pow16((width - 1) as nat)) by (nonlinear_arith)
            requires
                n < pow16(width),
                pow16(width) == 16 * pow16((width - 1) as nat),
        ;
        lemma_hex(n / 16, (width - 1) as nat);
        let c = hex_char((n % 16) as int);
        assert(hex(n, width).drop_last() =~= front);
        assert(crate::ids::hex_digit(c));
        assert forall|i: int| 0 <= i < hex(n, width).len() implies crate::ids::hex_digit(
            #[trigger] hex(n, width)[i],
        ) by {
            if i < front.len() {
                assert(hex(n, width)[i] == front[i]);
            }
        }
    }
}

pub open spec fn pow16(width: nat) -> nat
    decreases width,
{
    if width == 0 {
        1
    } else {
        16 * pow16((width - 1) as nat)
    }
}

/// A fingerprint is `fp_` and sixteen hexadecimal digits for the 64-bit FNV-1a hash of
/// the version, a colon and the model's id.
pub proof fn law_fingerprints(model: &str, r: String)
    requires
        call_ensures(system_fingerprint, (model,), r),
    ensures
        r@.len() == 19,
        starts_with(r@, "fp_"@),
        crate::ids::all_hex(r@.skip(3)),
        hex_number(r@.skip(3)) == fnv(
            vstd::utf8::encode_utf8(crate::proxy::fingerprint::VERSION@ + ":"@ + model@),
        ),
{
    reveal_strlit("fp_");
    let h = fnv(vstd::utf8::encode_utf8(crate::proxy::fingerprint::VERSION@ + ":"@ + model@));
    reveal_with_fuel(pow16, 17);
    assert(pow16(16) == 0x1_0000_0000_0000_0000);
    lemma_hex(h as nat, 16);
    assert(r@.take(3) =~= "fp_"@);
    assert(r@.skip(3) =~= hex(h as nat, 16));
}

/// The hash takes bytes in one by one, in order.
pub proof fn law_the_hash(a: Seq<u8>, b: u8)
    ensures
        fnv(seq![]) == 0xcbf2_9ce4_8422_2325,
        fnv(a.push(b)) as int == ((fnv(a) ^ (b as u64)) as int * 0x0100_0000_01b3)
            % 0x1_0000_0000_0000_0000,
{
    assert(a.push(b).drop_last() =~= a);
}

} // verus!
