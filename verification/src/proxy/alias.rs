//! The gateway's models and the names under which clients ask for them.

use vstd::prelude::*;
use vstd::string::*;

use crate::openai::{copy_text, opt_text};
use crate::text::{
    blank, chars_of, dec, dec_u64, head, is_blank, lemma_dec_injective, lemma_dec_value,
    lemma_no_white, lower, lower_char, same, same_ignoring_case, starts_with, string_of,
    to_lower_char, trim, trimmed,
};

verus! {

/// A text in one language.
#[derive(Debug, Clone)]
pub struct LocalizedText {
    pub language_code: Option<String>,
    pub content: Option<String>,
}

#[derive(Debug, Clone)]
pub struct FabrixModel {
    pub model_id: String,
    pub name: Vec<LocalizedText>,
    pub description: Vec<LocalizedText>,
}

/// A model with the name that clients use for it.
#[derive(Debug, Clone)]
pub struct ResolvedModel {
    pub alias: String,
    pub model_id: String,
    /// The name for people.
    pub label: String,
    pub description: Option<String>,
}

impl ResolvedModel {
    pub fn copy(&self) -> (r: ResolvedModel)
        ensures
            r == *self,
    {
        ResolvedModel {
            alias: self.alias.clone(),
            model_id: self.model_id.clone(),
            label: self.label.clone(),
            description: copy_text(&self.description),
        }
    }
}

// ───────────────────────── names ─────────────────────────

/// The text, where there is one that is not blank.
pub open spec fn filled(s: Option<String>) -> Option<Seq<char>> {
    match s {
        Some(t) => if blank(t@) {
            None
        } else {
            Some(t@)
        },
        None => None,
    }
}

pub open spec fn in_language(t: LocalizedText, lang: Seq<char>) -> bool {
    t.language_code matches Some(code) && lower(code@) == lower(lang)
}

/// The text of the first entry in a language.
pub open spec fn picked(list: Seq<LocalizedText>, lang: Seq<char>) -> Option<Seq<char>>
    decreases list.len(),
{
    if list.len() == 0 {
        None
    } else if in_language(list[0], lang) {
        filled(list[0].content)
    } else {
        picked(list.drop_first(), lang)
    }
}

/// The text of the first entry that has one.
pub open spec fn first_filled(list: Seq<LocalizedText>) -> Option<Seq<char>>
    decreases list.len(),
{
    if list.len() == 0 {
        None
    } else if list[0].content is Some {
        filled(list[0].content)
    } else {
        first_filled(list.drop_first())
    }
}

fn keep_filled(s: &Option<String>) -> (r: Option<String>)
    ensures
        opt_text(r) == filled(*s),
{
    match s {
        Some(t) => {
            if is_blank(t.as_str()) {
                None
            } else {
                Some(t.clone())
            }
        },
        None => None,
    }
}

fn pick(list: &Vec<LocalizedText>, lang: &str) -> (r: Option<String>)
    ensures
        opt_text(r) == picked(list@, lang@),
{
    let mut i: usize = 0;
    assert(list@.skip(0) =~= list@);
    while i < list.len()
        invariant
            i <= list@.len(),
            picked(list@, lang@) == picked(list@.skip(i as int), lang@),
        decreases list@.len() - i,
    {
        proof {
            assert(list@.skip(i as int)[0] == list@[i as int]);
            assert(list@.skip(i as int).drop_first() =~= list@.skip(i + 1));
        }
        let hit = match &list[i].language_code {
            Some(code) => same_ignoring_case(code.as_str(), lang),
            None => false,
        };
        if hit {
            return keep_filled(&list[i].content);
        }
        i += 1;
    }
    None
}

fn first_content(list: &Vec<LocalizedText>) -> (r: Option<String>)
    ensures
        opt_text(r) == first_filled(list@),
{
    let mut i: usize = 0;
    assert(list@.skip(0) =~= list@);
    while i < list.len()
        invariant
            i <= list@.len(),
            first_filled(list@) == first_filled(list@.skip(i as int)),
        decreases list@.len() - i,
    {
        proof {
            assert(list@.skip(i as int)[0] == list@[i as int]);
            assert(list@.skip(i as int).drop_first() =~= list@.skip(i + 1));
        }
        if list[i].content.is_some() {
            return keep_filled(&list[i].content);
        }
        i += 1;
    }
    None
}

// ───────────────────────── slugs ─────────────────────────

pub open spec fn alphanumeric(c: char) -> bool {
    ('0' <= c && c <= '9') || ('a' <= c && c <= 'z') || ('A' <= c && c <= 'Z')
}

fn is_alphanumeric(c: char) -> (r: bool)
    ensures
        r == alphanumeric(c),
{
    ('0' <= c && c <= '9') || ('a' <= c && c <= 'z') || ('A' <= c && c <= 'Z')
}

/// Letters and digits in small letters, with one dash for each run of anything else
/// between them.
pub open spec fn dashed(s: Seq<char>) -> Seq<char>
    decreases s.len(),
{
    if s.len() == 0 {
        seq![]
    } else {
        let front = dashed(s.drop_last());
        if alphanumeric(s.last()) {
            front.push(lower_char(s.last()))
        } else if front.len() > 0 && front.last() != '-' {
            front.push('-')
        } else {
            front
        }
    }
}

pub open spec fn without_last_dashes(s: Seq<char>) -> Seq<char>
    decreases s.len(),
{
    if s.len() > 0 && s.last() == '-' {
        without_last_dashes(s.drop_last())
    } else {
        s
    }
}

/// At most 40 characters that can stand in a model name.
pub open spec fn slug(s: Seq<char>) -> Seq<char> {
    head(without_last_dashes(dashed(s)), 40)
}

fn slugify(input: &str) -> (r: String)
    ensures
        r@ == slug(input@),
{
    let cs = chars_of(input);
    let mut out: Vec<char> = Vec::new();
    let mut i: usize = 0;
    assert(cs@.take(0) =~= seq![]);
    assert(out@ =~= seq![]);
    while i < cs.len()
        invariant
            i <= cs@.len(),
            out@ == dashed(cs@.take(i as int)),
        decreases cs@.len() - i,
    {
        let c: char = cs[i];
        proof {
            assert(cs@.take(i + 1).drop_last() =~= cs@.take(i as int));
            assert(cs@.take(i + 1).last() == c);
        }
        let n: usize = out.len();
        if is_alphanumeric(c) {
            out.push(to_lower_char(c));
        } else if n > 0 && out[n - 1] != '-' {
            out.push('-');
        }
        i += 1;
    }
    assert(cs@.take(cs@.len() as int) =~= cs@);
    let ghost full = out@;
    while out.len() > 0 && out[out.len() - 1] == '-'
        invariant
            without_last_dashes(full) == without_last_dashes(out@),
        decreases out@.len(),
    {
        out.pop();
    }
    let to: usize = if out.len() <= 40 {
        out.len()
    } else {
        40
    };
    let r = string_of(&out, 0, to);
    assert(r@ =~= head(out@, 40));
    r
}

pub open spec fn letters_and_digits(s: Seq<char>) -> Seq<char> {
    s.filter(|c: char| alphanumeric(c))
}

/// The first eight letters and digits of a model's id.
fn id_slug(model_id: &str) -> (r: String)
    ensures
        r@ == head(letters_and_digits(model_id@), 8),
{
    let cs = chars_of(model_id);
    let mut out: Vec<char> = Vec::new();
    let mut i: usize = 0;
    proof {
        reveal(Seq::filter);
        assert(cs@.take(0) =~= seq![]);
        assert(out@ =~= seq![]);
    }
    while i < cs.len()
        invariant
            i <= cs@.len(),
            out@ == letters_and_digits(cs@.take(i as int)),
        decreases cs@.len() - i,
    {
        proof {
            reveal(Seq::filter);
            assert(cs@.take(i + 1).drop_last() =~= cs@.take(i as int));
            assert(cs@.take(i + 1).last() == cs@[i as int]);
        }
        if is_alphanumeric(cs[i]) {
            out.push(cs[i]);
        }
        i += 1;
    }
    assert(cs@.take(cs@.len() as int) =~= cs@);
    let to: usize = if out.len() <= 8 {
        out.len()
    } else {
        8
    };
    let r = string_of(&out, 0, to);
    assert(r@ =~= head(out@, 8));
    r
}

// ───────────────────────── aliases ─────────────────────────

pub open spec fn either_text(a: Option<Seq<char>>, b: Option<Seq<char>>) -> Option<Seq<char>> {
    if a is Some {
        a
    } else {
        b
    }
}

/// The name for people: Korean, else English, else any, else the id.
pub open spec fn model_label(m: FabrixModel) -> Seq<char> {
    match either_text(
        picked(m.name@, "ko"@),
        either_text(picked(m.name@, "en"@), first_filled(m.name@)),
    ) {
        Some(t) => t,
        None => m.model_id@,
    }
}

/// The part of the alias that tells the models apart: made of the English name,
/// else of any name; without letters and digits there, of the id.
pub open spec fn model_slug(m: FabrixModel) -> Seq<char> {
    let named = slug(
        match either_text(picked(m.name@, "en"@), first_filled(m.name@)) {
            Some(t) => t,
            None => seq![],
        },
    );
    let by_id = head(letters_and_digits(m.model_id@), 8);
    if named.len() > 0 {
        named
    } else if by_id.len() > 0 {
        by_id
    } else {
        "model"@
    }
}

/// The `n`-th name that is tried for a slug.
pub open spec fn candidate(slug: Seq<char>, n: nat) -> Seq<char> {
    if n <= 1 {
        "fabrix-"@ + slug
    } else {
        "fabrix-"@ + slug + "-"@ + dec(n)
    }
}

/// `alias` is the first candidate that is not taken.
pub open spec fn first_free(alias: Seq<char>, slug: Seq<char>, taken: Seq<Seq<char>>) -> bool {
    exists|n: nat| 1 <= n && alias == #[trigger] candidate(slug, n) && !taken.contains(alias) && (forall|
        m: nat,
    |
        1 <= m < n ==> taken.contains(#[trigger] candidate(slug, m)))
}

/// What becomes of a model, the names `taken` being in use already.
pub open spec fn resolves(m: FabrixModel, r: ResolvedModel, taken: Seq<Seq<char>>) -> bool {
    &&& first_free(r.alias@, model_slug(m), taken)
    &&& r.model_id@ == m.model_id@
    &&& r.label@ == model_label(m)
    &&& opt_text(r.description) == either_text(
        picked(m.description@, "ko"@),
        first_filled(m.description@),
    )
}

pub open spec fn aliases(list: Seq<ResolvedModel>) -> Seq<Seq<char>> {
    list.map_values(|r: ResolvedModel| r.alias@)
}

/// The candidates from the first to the one before `n`.
spec fn tried(slug: Seq<char>, n: nat) -> Set<Seq<char>>
    decreases n,
{
    if n <= 1 {
        Set::empty()
    } else {
        tried(slug, (n - 1) as nat).insert(candidate(slug, (n - 1) as nat))
    }
}

proof fn lemma_candidate_injective(slug: Seq<char>, a: nat, b: nat)
    requires
        1 <= a < b,
    ensures
        candidate(slug, a) != candidate(slug, b),
{
    reveal_strlit("-");
    lemma_dec_value(a);
    lemma_dec_value(b);
    let base = "fabrix-"@ + slug;
    let cb = candidate(slug, b);
    assert(cb.len() > base.len());
    if a > 1 && candidate(slug, a) == cb {
        let at = (base.len() + 1) as int;
        assert(candidate(slug, a).skip(at) =~= dec(a));
        assert(cb.skip(at) =~= dec(b));
        lemma_dec_injective(a, b);
    }
}

proof fn lemma_tried(slug: Seq<char>, n: nat)
    requires
        1 <= n,
    ensures
        tried(slug, n).finite(),
        tried(slug, n).len() == n - 1,
        forall|s: Seq<char>|
            tried(slug, n).contains(s) ==> exists|m: nat| 1 <= m < n && s == #[trigger] candidate(slug, m),
    decreases n,
{
    if n > 1 {
        let k = (n - 1) as nat;
        lemma_tried(slug, k);
        let c = candidate(slug, k);
        if tried(slug, k).contains(c) {
            let m = choose|m: nat| 1 <= m < k && c == #[trigger] candidate(slug, m);
            lemma_candidate_injective(slug, m, k);
        }
        assert forall|s: Seq<char>| tried(slug, n).contains(s) implies exists|m: nat|
            1 <= m < n && s == #[trigger] candidate(slug, m) by {
            if s != c {
                let m = choose|m: nat| 1 <= m < k && s == #[trigger] candidate(slug, m);
                assert(1 <= m < n && s == candidate(slug, m));
            } else {
                assert(1 <= k < n && s == candidate(slug, k));
            }
        }
    }
}

/// There are no more taken candidates than taken names.
proof fn lemma_candidates_run_out(slug: Seq<char>, n: nat, taken: Seq<Seq<char>>)
    requires
        1 <= n,
        forall|m: nat| 1 <= m < n ==> taken.contains(#[trigger] candidate(slug, m)),
    ensures
        n - 1 <= taken.len(),
{
    lemma_tried(slug, n);
    taken.lemma_cardinality_of_set();
    vstd::seq_lib::seq_to_set_is_finite(taken);
    assert forall|s: Seq<char>| tried(slug, n).contains(s) implies taken.to_set().contains(s) by {
        let m = choose|m: nat| 1 <= m < n && s == #[trigger] candidate(slug, m);
        assert(taken.contains(candidate(slug, m)));
    }
    vstd::set_lib::lemma_len_subset(tried(slug, n), taken.to_set());
}

fn is_taken(list: &Vec<ResolvedModel>, alias: &str) -> (r: bool)
    ensures
        r == aliases(list@).contains(alias@),
{
    let mut i: usize = 0;
    while i < list.len()
        invariant
            i <= list@.len(),
            forall|k: int| 0 <= k < i ==> (#[trigger] list@[k]).alias@ != alias@,
        decreases list@.len() - i,
    {
        if same(list[i].alias.as_str(), alias) {
            assert(aliases(list@)[i as int] == alias@);
            return true;
        }
        i += 1;
    }
    assert forall|k: int| 0 <= k < aliases(list@).len() implies aliases(list@)[k] != alias@ by {
        assert(list@[k].alias@ != alias@);
    }
    false
}

fn candidate_text(slug: &str, n: u64) -> (r: String)
    requires
        1 <= n,
    ensures
        r@ == candidate(slug@, n as nat),
{
    let mut out = "fabrix-".to_owned();
    out.append(slug);
    if n > 1 {
        out.append("-");
        out.append(dec_u64(n).as_str());
    }
    out
}

/// The first name for `slug` that no model in `list` has.
fn free_alias(slug: &str, list: &Vec<ResolvedModel>) -> (r: String)
    requires
        list@.len() < usize::MAX,
    ensures
        first_free(r@, slug@, aliases(list@)),
{
    let mut n: u64 = 1;
    let mut alias = candidate_text(slug, n);
    while is_taken(list, alias.as_str())
        invariant
            list@.len() < usize::MAX,
            1 <= n <= list@.len() + 1,
            alias@ == candidate(slug@, n as nat),
            forall|m: nat| 1 <= m < n ==> aliases(list@).contains(#[trigger] candidate(slug@, m)),
        decreases list@.len() + 2 - n,
    {
        proof {
            assert forall|m: nat| 1 <= m < n + 1 implies aliases(list@).contains(
                #[trigger] candidate(slug@, m),
            ) by {
                if m == n {
                    assert(aliases(list@).contains(alias@));
                }
            }
            lemma_candidates_run_out(slug@, (n + 1) as nat, aliases(list@));
            assert(aliases(list@).len() == list@.len());
        }
        n = n + 1;
        alias = candidate_text(slug, n);
    }
    alias
}

/// Every model has a name, and no two have the same.
pub open spec fn names_models(models: Seq<FabrixModel>, named: Seq<ResolvedModel>) -> bool {
    &&& named.len() == models.len()
    &&& forall|i: int|
        0 <= i < named.len() ==> #[trigger] resolves(models[i], named[i], aliases(named.take(i)))
    &&& forall|i: int, j: int| 0 <= i < j < named.len() ==> named[i].alias@ != named[j].alias@
}

/// Gives every model a name of its own.
pub fn build_aliases(models: &[FabrixModel]) -> (r: Vec<ResolvedModel>)
    ensures
        names_models(models@, r@),
{
    let mut out: Vec<ResolvedModel> = Vec::new();
    let n: usize = models.len();
    let mut i: usize = 0;
    while i < n
        invariant
            i <= n == models@.len(),
            out@.len() == i,
            forall|k: int|
                0 <= k < i ==> #[trigger] resolves(models@[k], out@[k], aliases(out@.take(k))),
            forall|a: int, b: int| 0 <= a < b < i ==> out@[a].alias@ != out@[b].alias@,
        decreases n - i,
    {
        let m = &models[i];
        let en = pick(&m.name, "en");
        let ko = pick(&m.name, "ko");
        let any = first_content(&m.name);
        let source = match &en {
            Some(t) => t.clone(),
            None => match &any {
                Some(t) => t.clone(),
                None => String::new(),
            },
        };
        let label = match ko {
            Some(t) => t,
            None => match en {
                Some(t) => t,
                None => match any {
                    Some(t) => t,
                    None => m.model_id.clone(),
                },
            },
        };
        let named = slugify(source.as_str());
        let by_id = id_slug(m.model_id.as_str());
        let part = if !named.as_str().is_empty() {
            named
        } else if !by_id.as_str().is_empty() {
            by_id
        } else {
            "model".to_owned()
        };
        assert(part@ == model_slug(*m)) by {
            assert(source@ =~= match either_text(picked(m.name@, "en"@), first_filled(m.name@)) {
                Some(t) => t,
                None => seq![],
            });
        }
        let alias = free_alias(part.as_str(), &out);
        let description = match pick(&m.description, "ko") {
            Some(t) => Some(t),
            None => first_content(&m.description),
        };
        let ghost before = out@;
        let next = ResolvedModel { alias, model_id: m.model_id.clone(), label, description };
        out.push(next);
        proof {
            assert(resolves(models@[i as int], next, aliases(before)));
            assert forall|k: int| 0 <= k < i + 1 implies #[trigger] resolves(
                models@[k],
                out@[k],
                aliases(out@.take(k)),
            ) by {
                assert(out@.take(k) =~= before.take(k));
                assert(before.take(i as int) =~= before);
            }
            assert forall|a: int, b: int| 0 <= a < b < i + 1 implies out@[a].alias@ != out@[b].alias@ by {
                if b == i {
                    assert(aliases(before)[a] == out@[a].alias@);
                    assert(!aliases(before).contains(next.alias@));
                }
            }
        }
        i += 1;
    }
    out
}

// ───────────────────────── looking a model up ─────────────────────────

/// The first model of which `p` holds.
pub open spec fn first_model(
    models: Seq<ResolvedModel>,
    p: spec_fn(ResolvedModel) -> bool,
) -> Option<ResolvedModel>
    decreases models.len(),
{
    if models.len() == 0 {
        None
    } else if p(models[0]) {
        Some(models[0])
    } else {
        first_model(models.drop_first(), p)
    }
}

pub open spec fn id_is(name: Seq<char>) -> spec_fn(ResolvedModel) -> bool {
    |m: ResolvedModel| m.model_id@ == name
}

pub open spec fn alias_is(name: Seq<char>) -> spec_fn(ResolvedModel) -> bool {
    |m: ResolvedModel| m.alias@ == name
}

pub open spec fn alias_resembles(name: Seq<char>) -> spec_fn(ResolvedModel) -> bool {
    |m: ResolvedModel| lower(m.alias@) == lower(name)
}

pub open spec fn by_id(models: Seq<ResolvedModel>, name: Seq<char>) -> Option<ResolvedModel> {
    first_model(models, id_is(name))
}

pub open spec fn by_alias(models: Seq<ResolvedModel>, name: Seq<char>) -> Option<ResolvedModel> {
    first_model(models, alias_is(name))
}

pub open spec fn by_any_case(models: Seq<ResolvedModel>, name: Seq<char>) -> Option<ResolvedModel> {
    first_model(models, alias_resembles(name))
}

/// The model that a client asks for: by its id, else by its alias, else by its alias
/// in any case. Nothing else is tried.
pub open spec fn asked_for(models: Seq<ResolvedModel>, requested: Seq<char>) -> Option<ResolvedModel> {
    let name = trim(requested);
    if name.len() == 0 {
        None
    } else if by_id(models, name) is Some {
        by_id(models, name)
    } else if by_alias(models, name) is Some {
        by_alias(models, name)
    } else {
        by_any_case(models, name)
    }
}

/// In which way names are held against each other.
#[derive(Clone, Copy)]
enum Match {
    Id,
    Alias,
    AnyCase,
}

spec fn matching(models: Seq<ResolvedModel>, name: Seq<char>, how: Match) -> Option<ResolvedModel> {
    match how {
        Match::Id => by_id(models, name),
        Match::Alias => by_alias(models, name),
        Match::AnyCase => by_any_case(models, name),
    }
}

fn search<'a>(models: &'a [ResolvedModel], name: &str, how: Match) -> (r: Option<&'a ResolvedModel>)
    ensures
        match r {
            Some(m) => matching(models@, name@, how) == Some(*m),
            None => matching(models@, name@, how) is None,
        },
{
    let n: usize = models.len();
    let mut i: usize = 0;
    assert(models@.skip(0) =~= models@);
    while i < n
        invariant
            i <= n == models@.len(),
            matching(models@, name@, how) == matching(models@.skip(i as int), name@, how),
        decreases n - i,
    {
        proof {
            assert(models@.skip(i as int)[0] == models@[i as int]);
            assert(models@.skip(i as int).drop_first() =~= models@.skip(i + 1));
        }
        let hit = match how {
            Match::Id => same(models[i].model_id.as_str(), name),
            Match::Alias => same(models[i].alias.as_str(), name),
            Match::AnyCase => same_ignoring_case(models[i].alias.as_str(), name),
        };
        if hit {
            return Some(&models[i]);
        }
        i += 1;
    }
    None
}

pub fn find_model<'a>(models: &'a [ResolvedModel], requested: &str) -> (r: Option<&'a ResolvedModel>)
    ensures
        match r {
            Some(m) => asked_for(models@, requested@) == Some(*m),
            None => asked_for(models@, requested@) is None,
        },
{
    let name = trimmed(requested);
    if name.is_empty() {
        return None;
    }
    match search(models, name, Match::Id) {
        Some(m) => Some(m),
        None => match search(models, name, Match::Alias) {
            Some(m) => Some(m),
            None => search(models, name, Match::AnyCase),
        },
    }
}

/// The model for a request that names none: the one that is configured, else the
/// first one.
pub open spec fn fallback(models: Seq<ResolvedModel>, alias: Seq<char>) -> Option<ResolvedModel> {
    if by_alias(models, alias) is Some {
        by_alias(models, alias)
    } else if models.len() > 0 {
        Some(models[0])
    } else {
        None
    }
}

pub fn default_model<'a>(models: &'a [ResolvedModel], default_alias: &str) -> (r: Option<
    &'a ResolvedModel,
>)
    ensures
        match r {
            Some(m) => fallback(models@, default_alias@) == Some(*m),
            None => fallback(models@, default_alias@) is None,
        },
{
    match search(models, default_alias, Match::Alias) {
        Some(m) => Some(m),
        None => {
            if models.len() > 0 {
                Some(&models[0])
            } else {
                None
            }
        },
    }
}

// ───────────────────────── laws ─────────────────────────

proof fn lemma_first_model(models: Seq<ResolvedModel>, p: spec_fn(ResolvedModel) -> bool)
    ensures
        match first_model(models, p) {
            Some(m) => models.contains(m) && p(m),
            None => forall|i: int| 0 <= i < models.len() ==> !p(#[trigger] models[i]),
        },
    decreases models.len(),
{
    if models.len() > 0 && !p(models[0]) {
        let rest = models.drop_first();
        lemma_first_model(rest, p);
        match first_model(rest, p) {
            Some(m) => {
                let k = choose|k: int| 0 <= k < rest.len() && rest[k] == m;
                assert(models[k + 1] == m);
            },
            None => {
                assert forall|i: int| 0 <= i < models.len() implies !p(#[trigger] models[i]) by {
                    if i > 0 {
                        assert(rest[i - 1] == models[i]);
                    }
                }
            },
        }
    } else if models.len() > 0 {
        assert(models[0] == first_model(models, p)->0);
    }
}

/// No silent fallback: a model is found only under its own id or alias, and a name
/// that no model has finds none.
pub proof fn law_no_fallback(models: Seq<ResolvedModel>, requested: Seq<char>)
    ensures
        match asked_for(models, requested) {
            Some(m) => models.contains(m) && (m.model_id@ == trim(requested) || lower(m.alias@)
                == lower(trim(requested))),
            None => blank(requested) || forall|i: int|
                0 <= i < models.len() ==> (#[trigger] models[i]).model_id@ != trim(requested) && lower(
                    models[i].alias@,
                ) != lower(trim(requested)),
        },
{
    let name = trim(requested);
    lemma_first_model(models, id_is(name));
    lemma_first_model(models, alias_is(name));
    lemma_first_model(models, alias_resembles(name));
}

/// A letter, a digit or a dash.
pub open spec fn alias_char(c: char) -> bool {
    alphanumeric(c) || c == '-'
}

pub open spec fn all_alias_chars(s: Seq<char>) -> bool {
    forall|i: int| 0 <= i < s.len() ==> alias_char(#[trigger] s[i])
}

proof fn lemma_dashed_chars(s: Seq<char>)
    ensures
        all_alias_chars(dashed(s)),
    decreases s.len(),
{
    if s.len() > 0 {
        lemma_dashed_chars(s.drop_last());
    }
}

proof fn lemma_without_last_dashes_chars(s: Seq<char>)
    requires
        all_alias_chars(s),
    ensures
        all_alias_chars(without_last_dashes(s)),
    decreases s.len(),
{
    if s.len() > 0 && s.last() == '-' {
        lemma_without_last_dashes_chars(s.drop_last());
    }
}

proof fn lemma_letters_and_digits_chars(s: Seq<char>)
    ensures
        all_alias_chars(letters_and_digits(s)),
    decreases s.len(),
{
    reveal(Seq::filter);
    if s.len() > 0 {
        lemma_letters_and_digits_chars(s.drop_last());
    }
}

proof fn lemma_dec_chars(n: nat)
    ensures
        all_alias_chars(dec(n)),
    decreases n,
{
    if n >= 10 {
        lemma_dec_chars(n / 10);
    }
}

/// An alias begins with `fabrix-` and is made of letters, digits and dashes.
pub proof fn law_alias_shape(models: Seq<FabrixModel>, named: Seq<ResolvedModel>, i: int)
    requires
        names_models(models, named),
        0 <= i < named.len(),
    ensures
        starts_with(named[i].alias@, "fabrix-"@),
        named[i].alias@.len() > "fabrix-"@.len(),
        all_alias_chars(named[i].alias@),
{
    let m = models[i];
    let alias = named[i].alias@;
    assert(resolves(m, named[i], aliases(named.take(i))));
    let s = model_slug(m);
    let n = choose|n: nat| 1 <= n && alias == #[trigger] candidate(s, n);
    reveal_strlit("fabrix-");
    reveal_strlit("model");
    reveal_strlit("-");
    let source = match either_text(picked(m.name@, "en"@), first_filled(m.name@)) {
        Some(t) => t,
        None => seq![],
    };
    lemma_dashed_chars(source);
    lemma_without_last_dashes_chars(dashed(source));
    lemma_letters_and_digits_chars(m.model_id@);
    assert(all_alias_chars(s));
    assert(s.len() > 0);
    lemma_dec_chars(n);
    assert(all_alias_chars("fabrix-"@));
    assert(alias.take("fabrix-"@.len() as int) =~= "fabrix-"@);
}

/// What a client is shown it can ask for: asking for a model's alias finds that
/// model, unless the alias happens to be the id of one.
pub proof fn law_alias_finds_its_model(models: Seq<FabrixModel>, named: Seq<ResolvedModel>, i: int)
    requires
        names_models(models, named),
        0 <= i < named.len(),
        forall|k: int| 0 <= k < named.len() ==> (#[trigger] named[k]).model_id@ != named[i].alias@,
    ensures
        asked_for(named, named[i].alias@) == Some(named[i]),
{
    let name = named[i].alias@;
    law_alias_shape(models, named, i);
    assert(alias_char(name[0]) && alias_char(name[name.len() - 1]));
    lemma_no_white(name);
    lemma_first_model(named, id_is(name));
    lemma_first_model(named, alias_is(name));
    match by_id(named, name) {
        Some(m) => {
            let k = choose|k: int| 0 <= k < named.len() && named[k] == m;
            assert(named[k].model_id@ == name);
        },
        None => {},
    }
    match by_alias(named, name) {
        Some(m) => {
            let k = choose|k: int| 0 <= k < named.len() && named[k] == m;
            if k < i {
                assert(named[k].alias@ != named[i].alias@);
            }
            if i < k {
                assert(named[i].alias@ != named[k].alias@);
            }
        },
        None => {},
    }
}

} // verus!
