//! Models, their names and how they are found.

use vstd::prelude::*;
use vstd::string::*;

use crate::openai::opt_text;
use crate::proxy::alias::{
    alias_is, alias_resembles, aliases, alphanumeric, build_aliases, candidate, dashed,
    default_model, find_model, first_filled, first_free, first_model, id_is, letters_and_digits,
    model_slug, picked, resolves, slug, without_last_dashes, FabrixModel,
    LocalizedText, ResolvedModel,
};
use crate::text::{blank, head, lower, lower_char, trim};

verus! {

// ───────────────────────── finding a model ─────────────────────────

proof fn lemma_first_model(models: Seq<ResolvedModel>, p: spec_fn(ResolvedModel) -> bool)
    ensures
        match first_model(models, p) {
            Some(m) => p(m) && exists|k: int|
                0 <= k < models.len() && #[trigger] models[k] == m && forall|j: int|
                    0 <= j < k ==> !p(#[trigger] models[j]),
            None => forall|k: int| 0 <= k < models.len() ==> !p(#[trigger] models[k]),
        },
    decreases models.len(),
{
    if models.len() > 0 {
        if p(models[0]) {
            assert(models[0] == models[0]);
        } else {
            let rest = models.drop_first();
            lemma_first_model(rest, p);
            match first_model(rest, p) {
                Some(m) => {
                    let k = choose|k: int|
                        0 <= k < rest.len() && #[trigger] rest[k] == m && forall|j: int|
                            0 <= j < k ==> !p(#[trigger] rest[j]);
                    assert(models[k + 1] == m);
                    assert forall|j: int| 0 <= j < k + 1 implies !p(#[trigger] models[j]) by {
                        if j > 0 {
                            assert(rest[j - 1] == models[j]);
                        }
                    }
                },
                None => {
                    assert forall|k: int| 0 <= k < models.len() implies !p(#[trigger] models[k]) by {
                        if k > 0 {
                            assert(rest[k - 1] == models[k]);
                        }
                    }
                },
            }
        }
    }
}

/// The model is one of those that are there.
pub open spec fn is_among(models: Seq<ResolvedModel>, m: ResolvedModel) -> bool {
    exists|k: int| 0 <= k < models.len() && #[trigger] models[k] == m
}

pub open spec fn some_id(models: Seq<ResolvedModel>, name: Seq<char>) -> bool {
    exists|k: int| 0 <= k < models.len() && (#[trigger] models[k]).model_id@ == name
}

pub open spec fn some_alias(models: Seq<ResolvedModel>, name: Seq<char>) -> bool {
    exists|k: int| 0 <= k < models.len() && (#[trigger] models[k]).alias@ == name
}

pub open spec fn some_alike(models: Seq<ResolvedModel>, name: Seq<char>) -> bool {
    exists|k: int| 0 <= k < models.len() && lower((#[trigger] models[k]).alias@) == lower(name)
}

/// A model is found by its id, else by its alias, else by its alias in capitals or not;
/// white space around the name does not matter; and a name that is nobody's finds nothing.
pub proof fn law_finding_a_model(models: &[ResolvedModel], requested: &str, r: Option<&ResolvedModel>)
    requires
        call_ensures(find_model, (models, requested), r),
    ensures
        ({
            let name = trim(requested@);
            let list = models@;
            &&& r is Some ==> is_among(list, *r->0)
            &&& blank(requested@) ==> r is None
            &&& !blank(requested@) ==> {
                &&& some_id(list, name) ==> r is Some && r->0.model_id@ == name
                &&& !some_id(list, name) && some_alias(list, name) ==> r is Some && r->0.alias@
                    == name
                &&& !some_id(list, name) && !some_alias(list, name) && some_alike(list, name)
                    ==> r is Some && lower(r->0.alias@) == lower(name)
                &&& !some_id(list, name) && !some_alias(list, name) && !some_alike(list, name)
                    ==> r is None
            }
        }),
{
    let name = trim(requested@);
    let list = models@;
    lemma_first_model(list, id_is(name));
    lemma_first_model(list, alias_is(name));
    lemma_first_model(list, alias_resembles(name));
    let a = first_model(list, id_is(name));
    let b = first_model(list, alias_is(name));
    let c = first_model(list, alias_resembles(name));
    if some_id(list, name) {
        let k = choose|k: int| 0 <= k < list.len() && (#[trigger] list[k]).model_id@ == name;
        assert(id_is(name)(list[k]));
        assert(a is Some);
    } else {
        if a is Some {
            assert(id_is(name)(a->0));
        }
        if some_alias(list, name) {
            let k = choose|k: int| 0 <= k < list.len() && (#[trigger] list[k]).alias@ == name;
            assert(alias_is(name)(list[k]));
            assert(b is Some);
        } else {
            if b is Some {
                assert(alias_is(name)(b->0));
            }
            if some_alike(list, name) {
                let k = choose|k: int|
                    0 <= k < list.len() && lower((#[trigger] list[k]).alias@) == lower(name);
                assert(alias_resembles(name)(list[k]));
                assert(c is Some);
            } else if c is Some {
                assert(alias_resembles(name)(c->0));
            }
        }
    }
}

/// Without a name, the model with the default alias is taken, else the first.
pub proof fn law_the_default_model(models: &[ResolvedModel], alias: &str, r: Option<&ResolvedModel>)
    requires
        call_ensures(default_model, (models, alias), r),
    ensures
        some_alias(models@, alias@) ==> r is Some && r->0.alias@ == alias@ && is_among(
            models@,
            *r->0,
        ),
        !some_alias(models@, alias@) && models@.len() > 0 ==> r is Some && *r->0 == models@[0],
        models@.len() == 0 ==> r is None,
{
    let list = models@;
    lemma_first_model(list, alias_is(alias@));
    let b = first_model(list, alias_is(alias@));
    if some_alias(list, alias@) {
        let k = choose|k: int| 0 <= k < list.len() && (#[trigger] list[k]).alias@ == alias@;
        assert(alias_is(alias@)(list[k]));
        assert(b is Some);
    } else if b is Some {
        assert(alias_is(alias@)(b->0));
    }
}

// ───────────────────────── names ─────────────────────────

/// The `k`-th text is the first in the language, and holds something.
pub open spec fn first_in(list: Seq<LocalizedText>, lang: Seq<char>, k: int) -> bool {
    &&& 0 <= k < list.len()
    &&& list[k].language_code is Some && lower(list[k].language_code->0@) == lower(lang)
    &&& list[k].content is Some && !blank(list[k].content->0@)
    &&& forall|j: int|
        0 <= j < k ==> (#[trigger] list[j]).language_code is None || lower(
            list[j].language_code->0@,
        ) != lower(lang)
}

pub open spec fn none_in(list: Seq<LocalizedText>, lang: Seq<char>) -> bool {
    forall|j: int|
        0 <= j < list.len() ==> (#[trigger] list[j]).language_code is None || lower(
            list[j].language_code->0@,
        ) != lower(lang)
}

proof fn lemma_picked(list: Seq<LocalizedText>, lang: Seq<char>, k: int)
    requires
        first_in(list, lang, k),
    ensures
        picked(list, lang) == Some(list[k].content->0@),
    decreases list.len(),
{
    if k > 0 {
        let rest = list.drop_first();
        assert(list[0].language_code is None || lower(list[0].language_code->0@) != lower(lang));
        assert forall|j: int| 0 <= j < k - 1 implies (#[trigger] rest[j]).language_code is None || lower(
            rest[j].language_code->0@,
        ) != lower(lang) by {
            assert(rest[j] == list[j + 1]);
        }
        lemma_picked(rest, lang, k - 1);
    }
}

proof fn lemma_none_picked(list: Seq<LocalizedText>, lang: Seq<char>)
    requires
        none_in(list, lang),
    ensures
        picked(list, lang) is None,
    decreases list.len(),
{
    if list.len() > 0 {
        let rest = list.drop_first();
        assert(list[0].language_code is None || lower(list[0].language_code->0@) != lower(lang));
        assert forall|j: int| 0 <= j < rest.len() implies (#[trigger] rest[j]).language_code is None
            || lower(rest[j].language_code->0@) != lower(lang) by {
            assert(rest[j] == list[j + 1]);
        }
        lemma_none_picked(rest, lang);
    }
}

/// Nothing is said in the language: the first text in it, if there is one, is blank.
pub open spec fn nothing_in(list: Seq<LocalizedText>, lang: Seq<char>) -> bool {
    none_in(list, lang) || exists|k: int| blank_in(list, lang, k)
}

/// The `k`-th text is the first in the language, and holds nothing.
pub open spec fn blank_in(list: Seq<LocalizedText>, lang: Seq<char>, k: int) -> bool {
    &&& 0 <= k < list.len()
    &&& list[k].language_code is Some && lower(list[k].language_code->0@) == lower(lang)
    &&& list[k].content is None || blank(list[k].content->0@)
    &&& forall|j: int|
        0 <= j < k ==> (#[trigger] list[j]).language_code is None || lower(
            list[j].language_code->0@,
        ) != lower(lang)
}

proof fn lemma_blank_picked(list: Seq<LocalizedText>, lang: Seq<char>, k: int)
    requires
        blank_in(list, lang, k),
    ensures
        picked(list, lang) is None,
    decreases list.len(),
{
    if k > 0 {
        let rest = list.drop_first();
        assert(list[0].language_code is None || lower(list[0].language_code->0@) != lower(lang));
        assert forall|j: int| 0 <= j < k - 1 implies (#[trigger] rest[j]).language_code is None || lower(
            rest[j].language_code->0@,
        ) != lower(lang) by {
            assert(rest[j] == list[j + 1]);
        }
        lemma_blank_picked(rest, lang, k - 1);
    }
}

proof fn lemma_nothing_picked(list: Seq<LocalizedText>, lang: Seq<char>)
    requires
        nothing_in(list, lang),
    ensures
        picked(list, lang) is None,
{
    if none_in(list, lang) {
        lemma_none_picked(list, lang);
    } else {
        let k = choose|k: int| blank_in(list, lang, k);
        lemma_blank_picked(list, lang, k);
    }
}

/// The `k`-th text is the first with a content.
pub open spec fn first_there(list: Seq<LocalizedText>, k: int) -> bool {
    &&& 0 <= k < list.len()
    &&& list[k].content is Some
    &&& forall|j: int| 0 <= j < k ==> (#[trigger] list[j]).content is None
}

proof fn lemma_first_filled(list: Seq<LocalizedText>, k: int)
    requires
        first_there(list, k),
    ensures
        first_filled(list) == (if blank(list[k].content->0@) {
            None
        } else {
            Some(list[k].content->0@)
        }),
    decreases list.len(),
{
    if k > 0 {
        let rest = list.drop_first();
        assert(list[0].content is None);
        assert forall|j: int| 0 <= j < k - 1 implies (#[trigger] rest[j]).content is None by {
            assert(rest[j] == list[j + 1]);
        }
        lemma_first_filled(rest, k - 1);
    }
}

/// Each model keeps its id. Its label is its Korean name, else its English one, else the
/// first that it has, else its id; its description is the Korean one, else the first.
pub proof fn law_labels(models: &[FabrixModel], r: Vec<ResolvedModel>, i: int, k: int)
    requires
        call_ensures(build_aliases, (models,), r),
        0 <= i < models@.len(),
    ensures
        r@.len() == models@.len(),
        r@[i].model_id@ == models@[i].model_id@,
        ({
            let names = models@[i].name@;
            let label = r@[i].label@;
            &&& first_in(names, "ko"@, k) ==> label == names[k].content->0@
            &&& nothing_in(names, "ko"@) && first_in(names, "en"@, k) ==> label == names[k].content->0@
            &&& nothing_in(names, "ko"@) && nothing_in(names, "en"@) && first_there(names, k) ==> label
                == (if blank(names[k].content->0@) {
                models@[i].model_id@
            } else {
                names[k].content->0@
            })
            &&& names.len() == 0 ==> label == models@[i].model_id@
        }),
        ({
            let texts = models@[i].description@;
            let told = opt_text(r@[i].description);
            &&& first_in(texts, "ko"@, k) ==> told == Some(texts[k].content->0@)
            &&& nothing_in(texts, "ko"@) && first_there(texts, k) ==> told == (if blank(
                texts[k].content->0@,
            ) {
                None
            } else {
                Some(texts[k].content->0@)
            })
            &&& texts.len() == 0 ==> told is None
        }),
{
    let m = models@[i];
    assert(resolves(m, r@[i], aliases(r@.take(i))));
    let names = m.name@;
    let texts = m.description@;
    if first_in(names, "ko"@, k) {
        lemma_picked(names, "ko"@, k);
    }
    if nothing_in(names, "ko"@) {
        lemma_nothing_picked(names, "ko"@);
    }
    if first_in(names, "en"@, k) {
        lemma_picked(names, "en"@, k);
    }
    if nothing_in(names, "en"@) {
        lemma_nothing_picked(names, "en"@);
    }
    if first_there(names, k) {
        lemma_first_filled(names, k);
    }
    if first_there(texts, k) {
        lemma_first_filled(texts, k);
    }
    if first_in(texts, "ko"@, k) {
        lemma_picked(texts, "ko"@, k);
    }
    if nothing_in(texts, "ko"@) {
        lemma_nothing_picked(texts, "ko"@);
    }
}

pub open spec fn all_alphanumeric(s: Seq<char>) -> bool {
    forall|i: int|
        0 <= i < s.len() ==> ('0' <= #[trigger] s[i] && s[i] <= '9') || ('a' <= s[i] && s[i] <= 'z')
            || ('A' <= s[i] && s[i] <= 'Z')
}

proof fn lemma_dashed_word(a: Seq<char>, b: Seq<char>)
    requires
        all_alphanumeric(b),
    ensures
        dashed(a + b) == dashed(a) + lower(b),
    decreases b.len(),
{
    if b.len() == 0 {
        assert(a + b =~= a);
        assert(dashed(a) + lower(b) =~= dashed(a));
    } else {
        let c = b.last();
        assert(c == b[b.len() - 1]);
        lemma_dashed_word(a, b.drop_last());
        assert((a + b).drop_last() =~= a + b.drop_last());
        assert(alphanumeric(c));
        assert(lower(b) =~= lower(b.drop_last()).push(lower_char(c)));
        assert(dashed(a + b) =~= dashed(a) + lower(b));
    }
}

/// None of the characters is a letter or a digit.
pub open spec fn no_alphanumeric(s: Seq<char>) -> bool {
    forall|i: int| 0 <= i < s.len() ==> !alphanumeric(#[trigger] s[i])
}

proof fn lemma_dashed_gap(a: Seq<char>, gap: Seq<char>)
    requires
        no_alphanumeric(gap),
        dashed(a).len() > 0 ==> dashed(a).last() != '-',
    ensures
        dashed(a + gap) == (if dashed(a).len() > 0 && gap.len() > 0 {
            dashed(a) + "-"@
        } else {
            dashed(a)
        }),
    decreases gap.len(),
{
    reveal_strlit("-");
    if gap.len() == 0 {
        assert(a + gap =~= a);
    } else {
        assert(!alphanumeric(gap[gap.len() - 1]));
        lemma_dashed_gap(a, gap.drop_last());
        assert((a + gap).drop_last() =~= a + gap.drop_last());
        assert(dashed(a + gap) =~= (if dashed(a).len() > 0 {
            dashed(a) + "-"@
        } else {
            dashed(a)
        }));
    }
}

proof fn lemma_lower_last(a: Seq<char>)
    requires
        all_alphanumeric(a),
        a.len() > 0,
    ensures
        lower(a).len() == a.len(),
        lower(a).last() != '-',
{
    assert(lower(a).last() == lower_char(a[a.len() - 1]));
    assert(alphanumeric(a[a.len() - 1]));
}

proof fn lemma_slug_word(lead: Seq<char>, a: Seq<char>, trail: Seq<char>)
    requires
        all_alphanumeric(a),
        a.len() > 0,
        no_alphanumeric(lead),
        no_alphanumeric(trail),
    ensures
        slug(lead + a + trail) == head(lower(a), 40),
{
    let none = Seq::<char>::empty();
    lemma_dashed_gap(none, lead);
    assert(none + lead =~= lead);
    lemma_dashed_word(lead, a);
    assert(dashed(lead) + lower(a) =~= lower(a));
    lemma_lower_last(a);
    lemma_dashed_gap(lead + a, trail);
    lemma_trailing_dash(lower(a));
}

proof fn lemma_trailing_dash(s: Seq<char>)
    requires
        s.len() > 0,
        s.last() != '-',
    ensures
        without_last_dashes(s) == s,
        without_last_dashes(s + "-"@) == s,
{
    reveal_strlit("-");
    assert((s + "-"@).drop_last() =~= s);
    assert((s + "-"@).last() == '-');
}

proof fn lemma_slug_words(lead: Seq<char>, a: Seq<char>, gap: Seq<char>, b: Seq<char>, trail: Seq<char>)
    requires
        all_alphanumeric(a),
        all_alphanumeric(b),
        a.len() > 0,
        b.len() > 0,
        no_alphanumeric(lead),
        no_alphanumeric(gap),
        no_alphanumeric(trail),
        gap.len() > 0,
    ensures
        slug(lead + a + gap + b + trail) == head(lower(a) + "-"@ + lower(b), 40),
{
    let none = Seq::<char>::empty();
    lemma_dashed_gap(none, lead);
    assert(none + lead =~= lead);
    lemma_dashed_word(lead, a);
    assert(dashed(lead) + lower(a) =~= lower(a));
    lemma_lower_last(a);
    lemma_lower_last(b);
    lemma_dashed_gap(lead + a, gap);
    lemma_dashed_word(lead + a + gap, b);
    let all = lower(a) + "-"@ + lower(b);
    assert(all.last() == lower(b).last());
    lemma_dashed_gap(lead + a + gap + b, trail);
    lemma_trailing_dash(all);
}

/// The name that the alias is made of: the English one or, without one, the first.
pub open spec fn alias_name(m: FabrixModel, k: int, name: Seq<char>) -> bool {
    ||| first_in(m.name@, "en"@, k) && m.name@[k].content->0@ == name
    ||| nothing_in(m.name@, "en"@) && first_there(m.name@, k) && !blank(name)
        && m.name@[k].content->0@ == name
}

proof fn lemma_alias_name(m: FabrixModel, k: int, name: Seq<char>)
    requires
        alias_name(m, k, name),
        slug(name).len() > 0,
    ensures
        model_slug(m) == slug(name),
{
    if first_in(m.name@, "en"@, k) && m.name@[k].content->0@ == name {
        lemma_picked(m.name@, "en"@, k);
    } else {
        lemma_nothing_picked(m.name@, "en"@);
        lemma_first_filled(m.name@, k);
    }
}

proof fn lemma_alias_free(alias: Seq<char>, s: Seq<char>, taken: Seq<Seq<char>>)
    requires
        first_free(alias, s, taken),
        !taken.contains("fabrix-"@ + s),
    ensures
        alias == "fabrix-"@ + s,
{
    let n = choose|n: nat|
        1 <= n && alias == #[trigger] candidate(s, n) && !taken.contains(alias) && (forall|m: nat|
            1 <= m < n ==> taken.contains(#[trigger] candidate(s, m)));
    if n > 1 {
        assert(taken.contains(candidate(s, 1)));
    }
}

/// An alias is `fabrix-` and 40 characters at most of the model's name, in small letters,
/// with one dash for whatever stands between two words and none at its ends.
pub proof fn law_aliases(
    models: &[FabrixModel],
    r: Vec<ResolvedModel>,
    i: int,
    k: int,
    lead: Seq<char>,
    a: Seq<char>,
    gap: Seq<char>,
    b: Seq<char>,
    trail: Seq<char>,
)
    requires
        call_ensures(build_aliases, (models,), r),
        0 <= i < models@.len(),
        all_alphanumeric(a),
        all_alphanumeric(b),
        a.len() > 0,
        b.len() > 0,
        no_alphanumeric(lead),
        no_alphanumeric(gap),
        no_alphanumeric(trail),
        gap.len() > 0,
    ensures
        ({
            let word = "fabrix-"@ + head(lower(a), 40);
            let words = "fabrix-"@ + head(lower(a) + "-"@ + lower(b), 40);
            let taken = aliases(r@.take(i));
            &&& alias_name(models@[i], k, lead + a + trail) && !taken.contains(word) ==> r@[i].alias@
                == word
            &&& alias_name(models@[i], k, lead + a + gap + b + trail) && !taken.contains(words)
                ==> r@[i].alias@ == words
        }),
{
    let m = models@[i];
    let taken = aliases(r@.take(i));
    assert(resolves(m, r@[i], taken));
    reveal_strlit("-");
    lemma_slug_word(lead, a, trail);
    lemma_slug_words(lead, a, gap, b, trail);
    lemma_lower_last(a);
    if alias_name(m, k, lead + a + trail) && !taken.contains("fabrix-"@ + head(lower(a), 40)) {
        lemma_alias_name(m, k, lead + a + trail);
        lemma_alias_free(r@[i].alias@, head(lower(a), 40), taken);
    }
    let both = head(lower(a) + "-"@ + lower(b), 40);
    if alias_name(m, k, lead + a + gap + b + trail) && !taken.contains("fabrix-"@ + both) {
        lemma_alias_name(m, k, lead + a + gap + b + trail);
        lemma_alias_free(r@[i].alias@, both, taken);
    }
}

/// A model without a name goes by its id: the first eight letters and digits of it.
pub proof fn law_aliases_of_the_nameless(models: &[FabrixModel], r: Vec<ResolvedModel>, i: int)
    requires
        call_ensures(build_aliases, (models,), r),
        0 <= i < models@.len(),
        models@[i].name@.len() == 0,
        all_alphanumeric(models@[i].model_id@),
        models@[i].model_id@.len() > 0,
        !aliases(r@.take(i)).contains("fabrix-"@ + head(models@[i].model_id@, 8)),
    ensures
        r@[i].alias@ == "fabrix-"@ + head(models@[i].model_id@, 8),
{
    let m = models@[i];
    assert(resolves(m, r@[i], aliases(r@.take(i))));
    lemma_letters(m.model_id@);
    let none = Seq::<char>::empty();
    assert(dashed(none) == none);
    assert(slug(none).len() == 0);
    assert(model_slug(m) == head(m.model_id@, 8));
    lemma_alias_free(r@[i].alias@, head(m.model_id@, 8), aliases(r@.take(i)));
}

proof fn lemma_letters(s: Seq<char>)
    requires
        all_alphanumeric(s),
    ensures
        letters_and_digits(s) == s,
    decreases s.len(),
{
    reveal(Seq::filter);
    if s.len() > 0 {
        let front = s.drop_last();
        assert forall|i: int| 0 <= i < front.len() implies ('0' <= #[trigger] front[i] && front[i]
            <= '9') || ('a' <= front[i] && front[i] <= 'z') || ('A' <= front[i] && front[i] <= 'Z') by {
            assert(front[i] == s[i]);
        }
        lemma_letters(front);
        assert(alphanumeric(s[s.len() - 1]));
        assert(front.push(s.last()) =~= s);
    } else {
        assert(letters_and_digits(s) =~= s);
    }
}

/// A second model of the same name gets a 2.
pub proof fn law_names_alike(models: &[FabrixModel], r: Vec<ResolvedModel>)
    requires
        call_ensures(build_aliases, (models,), r),
        models@.len() >= 2,
        models@[1].name == models@[0].name,
        models@[1].model_id == models@[0].model_id,
    ensures
        r@[1].alias@ == r@[0].alias@ + "-"@ + "2"@,
{
    assert(resolves(models@[0], r@[0], aliases(r@.take(0))));
    assert(resolves(models@[1], r@[1], aliases(r@.take(1))));
    let s = model_slug(models@[0]);
    assert(aliases(r@.take(0)) =~= seq![]);
    lemma_alias_free(r@[0].alias@, s, seq![]);
    let taken = aliases(r@.take(1));
    assert(taken =~= seq![r@[0].alias@]);
    let first = "fabrix-"@ + s;
    assert(candidate(s, 1) == first);
    assert(taken[0] == first);
    assert(model_slug(models@[1]) == s);
    let n = choose|n: nat|
        1 <= n && r@[1].alias@ == #[trigger] candidate(s, n) && !taken.contains(r@[1].alias@) && (
        forall|j: nat| 1 <= j < n ==> taken.contains(#[trigger] candidate(s, j)));
    assert(n != 1);
    if n > 2 {
        assert(taken.contains(candidate(s, 2)));
        assert(candidate(s, 2) == first);
        reveal_strlit("-");
        assert(candidate(s, 2).len() > first.len());
    }
    lemma_two();
}

proof fn lemma_two()
    ensures
        crate::text::dec(2) == "2"@,
{
    reveal_strlit("2");
    reveal_with_fuel(crate::text::dec, 2);
    assert(crate::text::dec(2) =~= "2"@);
}

} // verus!
