//! Text.

use vstd::prelude::*;
use vstd::string::*;

use crate::text::{
    contains, dec, find, is_blank, is_digit, is_white, join, joined, lemma_dec_digits,
    lemma_dec_value, lemma_find, lines, lower_char, lowered, occurs_at, read_u32, split_once, trim,
    trim_end, trim_start, trimmed, views, white, words, words_so_far,
};

verus! {

// ───────────────────────── holding a text ─────────────────────────

pub proof fn lemma_holds(a: Seq<char>, n: Seq<char>, b: Seq<char>)
    ensures
        contains(a + n + b, n),
{
    let all = a + n + b;
    assert(all.subrange(a.len() as int, (a.len() + n.len()) as int) =~= n);
    assert(occurs_at(all, n, a.len() as int));
    lemma_find(all, n);
}

/// What a part holds, the whole holds.
pub proof fn lemma_holds_within(a: Seq<char>, x: Seq<char>, b: Seq<char>, n: Seq<char>)
    requires
        contains(x, n),
    ensures
        contains(a + x + b, n),
{
    lemma_find(x, n);
    let k = find(x, n)->0;
    let all = a + x + b;
    assert(all.subrange(a.len() + k, a.len() + k + n.len()) =~= x.subrange(k, k + n.len()));
    assert(occurs_at(all, n, a.len() + k));
    lemma_find(all, n);
}

pub proof fn lemma_holds_itself(n: Seq<char>)
    ensures
        contains(n, n),
{
    lemma_holds(seq![], n, seq![]);
    assert(Seq::<char>::empty() + n + Seq::<char>::empty() =~= n);
}

// ───────────────────────── trimming ─────────────────────────

proof fn lemma_trim_start_cut(s: Seq<char>) -> (k: int)
    ensures
        0 <= k <= s.len(),
        trim_start(s) == s.skip(k),
        forall|i: int| 0 <= i < k ==> white(#[trigger] s[i]),
        k < s.len() ==> !white(s[k]),
    decreases s.len(),
{
    if s.len() > 0 && white(s[0]) {
        let rest = s.drop_first();
        let k = lemma_trim_start_cut(rest);
        assert(rest.skip(k) =~= s.skip(k + 1));
        assert forall|i: int| 0 <= i < k + 1 implies white(#[trigger] s[i]) by {
            if i > 0 {
                assert(rest[i - 1] == s[i]);
            }
        }
        k + 1
    } else {
        assert(s.skip(0) =~= s);
        0
    }
}

proof fn lemma_trim_end_cut(s: Seq<char>) -> (k: int)
    ensures
        0 <= k <= s.len(),
        trim_end(s) == s.take(k),
        forall|i: int| k <= i < s.len() ==> white(#[trigger] s[i]),
        k > 0 ==> !white(s[k - 1]),
    decreases s.len(),
{
    if s.len() > 0 && white(s.last()) {
        let rest = s.drop_last();
        let k = lemma_trim_end_cut(rest);
        assert(rest.take(k) =~= s.take(k));
        assert forall|i: int| k <= i < s.len() implies white(#[trigger] s[i]) by {
            if i < rest.len() {
                assert(rest[i] == s[i]);
            }
        }
        k
    } else {
        assert(s.take(s.len() as int) =~= s);
        s.len() as int
    }
}

/// `t` is what is left of `s` between `from` and `to`; outside there is white space only.
pub open spec fn cut_out(s: Seq<char>, t: Seq<char>, from: int, to: int) -> bool {
    &&& 0 <= from <= to <= s.len()
    &&& t == s.subrange(from, to)
    &&& forall|i: int| 0 <= i < from ==> white(#[trigger] s[i])
    &&& forall|i: int| to <= i < s.len() ==> white(#[trigger] s[i])
}

/// Trimming takes white space away at both ends, all of it, and nothing else.
pub proof fn law_trimming(s: &str, r: &str)
    requires
        call_ensures(trimmed, (s,), r),
    ensures
        exists|from: int, to: int| cut_out(s@, r@, from, to),
        r@.len() > 0 ==> !white(r@[0]) && !white(r@.last()),
{
    let from = lemma_trim_start_cut(s@);
    let rest = s@.skip(from);
    let k = lemma_trim_end_cut(rest);
    assert(r@ == rest.take(k));
    assert(rest.take(k) =~= s@.subrange(from, from + k));
    assert forall|i: int| from + k <= i < s@.len() implies white(#[trigger] s@[i]) by {
        assert(rest[i - from] == s@[i]);
    }
    assert(cut_out(s@, r@, from, from + k));
    if r@.len() > 0 {
        assert(r@[0] == s@[from]);
        assert(r@.last() == rest[k - 1]);
    }
}

/// What is trimmed begins and ends with something.
pub proof fn lemma_trimmed_ends(s: Seq<char>)
    ensures
        trim(s).len() > 0 ==> !white(trim(s)[0]) && !white(trim(s).last()),
{
    let from = lemma_trim_start_cut(s);
    let rest = s.skip(from);
    let k = lemma_trim_end_cut(rest);
    if trim(s).len() > 0 {
        assert(trim(s)[0] == s[from]);
        assert(trim(s).last() == rest[k - 1]);
    }
}

/// A text is blank exactly if there is white space only in it.
pub proof fn law_blankness(s: &str, r: bool)
    requires
        call_ensures(is_blank, (s,), r),
    ensures
        r <==> forall|i: int| 0 <= i < s@.len() ==> white(#[trigger] s@[i]),
{
    let from = lemma_trim_start_cut(s@);
    let rest = s@.skip(from);
    let k = lemma_trim_end_cut(rest);
    assert(trim(s@) == rest.take(k));
    if r {
        assert(k == 0);
        assert forall|i: int| 0 <= i < s@.len() implies white(#[trigger] s@[i]) by {
            if i >= from {
                assert(rest[i - from] == s@[i]);
            }
        }
    } else {
        assert(rest[0] == s@[from]);
        assert(from < s@.len());
    }
}

/// Lowering changes the capitals from `A` to `Z` and no other character.
pub proof fn law_lowering(s: &str, r: String)
    requires
        call_ensures(lowered, (s,), r),
    ensures
        r@.len() == s@.len(),
        forall|i: int|
            0 <= i < s@.len() ==> #[trigger] r@[i] as u32 == (if 'A' <= s@[i] && s@[i] <= 'Z' {
                s@[i] as u32 + 32
            } else {
                (s@[i] as u32) as int
            }),
{
    assert forall|i: int| 0 <= i < s@.len() implies #[trigger] r@[i] as u32 == (if 'A' <= s@[i]
        && s@[i] <= 'Z' {
        s@[i] as u32 + 32
    } else {
        (s@[i] as u32) as int
    }) by {
        assert(r@[i] == lower_char(s@[i]));
    }
}

/// What counts as white space among the ASCII characters, and that no letter or digit
/// does.
pub proof fn law_white_space(c: char, r: bool)
    requires
        call_ensures(is_white, (c,), r),
        (c as u32) < 128,
    ensures
        r <==> c == ' ' || c == '\t' || c == '\n' || c == '\r' || c as u32 == 11 || c as u32 == 12,
{
}

/// A number that was written down is read as that number; what holds anything but
/// digits, and what is too great, is none.
pub proof fn law_numbers(s: &str, r: Option<u32>, n: nat, k: int)
    requires
        call_ensures(read_u32, (s,), r),
    ensures
        s@ == dec(n) && n <= u32::MAX ==> r == Some(n as u32),
        s@ == dec(n) && n > u32::MAX ==> r is None,
        s@.len() == 0 ==> r is None,
        0 <= k < s@.len() && !('0' <= s@[k] && s@[k] <= '9') && (k > 0 || s@[0] != '+') ==> r is None,
{
    lemma_dec_value(n);
    lemma_dec_digits(n);
    assert(is_digit(dec(n)[0]));
    if 0 <= k < s@.len() && !('0' <= s@[k] && s@[k] <= '9') && (k > 0 || s@[0] != '+') {
        if s@[0] == '+' {
            assert(s@.drop_first()[k - 1] == s@[k]);
        }
    }
}

// ───────────────────────── joining and splitting ─────────────────────────

pub proof fn lemma_join_concat(a: Seq<Seq<char>>, b: Seq<Seq<char>>, sep: Seq<char>)
    requires
        a.len() > 0,
        b.len() > 0,
    ensures
        join(a + b, sep) == join(a, sep) + sep + join(b, sep),
    decreases b.len(),
{
    let all = a + b;
    assert(all.drop_last() =~= a + b.drop_last());
    assert(all.last() == b.last());
    if b.len() == 1 {
        assert(a + b.drop_last() =~= a);
        assert(b.last() == b[0]);
    } else {
        lemma_join_concat(a, b.drop_last(), sep);
        assert(join(all, sep) =~= join(a, sep) + sep + join(b, sep));
    }
}

/// Each part stands in the joined text.
pub proof fn lemma_join_holds(parts: Seq<Seq<char>>, sep: Seq<char>, k: int)
    requires
        0 <= k < parts.len(),
    ensures
        contains(join(parts, sep), parts[k]),
    decreases parts.len(),
{
    lemma_holds_itself(parts[k]);
    if parts.len() > 1 {
        let front = parts.drop_last();
        if k == parts.len() - 1 {
            lemma_holds_within(join(front, sep) + sep, parts[k], seq![], parts[k]);
            assert(join(front, sep) + sep + parts[k] + Seq::<char>::empty() =~= join(parts, sep));
        } else {
            lemma_join_holds(front, sep, k);
            lemma_holds_within(seq![], join(front, sep), sep + parts.last(), parts[k]);
            assert(Seq::<char>::empty() + join(front, sep) + (sep + parts.last()) =~= join(
                parts,
                sep,
            ));
        }
    }
}

/// Joining two lists, one behind the other, gives what they give, with the separator
/// between; one part is left as it is.
pub proof fn law_joining(
    a: &Vec<String>,
    b: &Vec<String>,
    both: &Vec<String>,
    sep: &str,
    ra: String,
    rb: String,
    r: String,
)
    requires
        both@ == a@ + b@,
        call_ensures(joined, (a, sep), ra),
        call_ensures(joined, (b, sep), rb),
        call_ensures(joined, (both, sep), r),
    ensures
        a@.len() > 0 && b@.len() > 0 ==> r@ == ra@ + sep@ + rb@,
        a@.len() == 0 ==> r@ == rb@ && ra@.len() == 0,
        a@.len() == 1 ==> ra@ == a@[0]@,
{
    assert(views(both@) =~= views(a@) + views(b@));
    if a@.len() > 0 && b@.len() > 0 {
        lemma_join_concat(views(a@), views(b@), sep@);
    }
    if a@.len() == 0 {
        assert(views(both@) =~= views(b@));
    }
}

/// A text is split at the first of its separators: put together again, the two sides are
/// the text.
pub proof fn law_splitting(s: &str, c: char, r: Option<(&str, &str)>)
    requires
        call_ensures(split_once, (s, c), r),
    ensures
        match r {
            Some((a, b)) => s@ == a@ + seq![c] + b@ && !a@.contains(c),
            None => !s@.contains(c),
        },
{
    lemma_find(s@, seq![c]);
    match r {
        Some((a, b)) => {
            let i = find(s@, seq![c])->0;
            assert(s@.subrange(i, i + 1)[0] == s@[i]);
            assert(s@ =~= a@ + seq![c] + b@);
            if a@.contains(c) {
                let j = a@.index_of(c);
                assert(s@[j] == c);
                assert(s@.subrange(j, j + 1) =~= seq![c]);
                assert(occurs_at(s@, seq![c], j));
            }
        },
        None => {
            if s@.contains(c) {
                let j = s@.index_of(c);
                assert(s@.subrange(j, j + 1) =~= seq![c]);
                assert(occurs_at(s@, seq![c], j));
            }
        },
    }
}

/// Joined by line feeds, the lines are the text again, and no line holds one.
pub proof fn law_lines(s: Seq<char>)
    ensures
        lines(s).len() > 0,
        join(lines(s), seq!['\n']) == s,
        forall|k: int| 0 <= k < lines(s).len() ==> !(#[trigger] lines(s)[k]).contains('\n'),
    decreases s.len(),
{
    let all = lines(s);
    if s.len() == 0 {
        assert(all =~= seq![Seq::<char>::empty()]);
        assert(join(all, seq!['\n']) =~= s);
    } else {
        let front = lines(s.drop_last());
        law_lines(s.drop_last());
        if s.last() == '\n' {
            assert(all.drop_last() =~= front);
            assert(join(all, seq!['\n']) =~= s);
            assert forall|k: int| 0 <= k < all.len() implies !(#[trigger] all[k]).contains('\n') by {
                if k < front.len() {
                    assert(all[k] == front[k]);
                }
            }
        } else {
            let grown = front.last().push(s.last());
            assert(all.drop_last() =~= front.drop_last());
            assert(all.last() == grown);
            assert(!front[front.len() - 1].contains('\n'));
            assert forall|k: int| 0 <= k < all.len() implies !(#[trigger] all[k]).contains('\n') by {
                if k < front.len() - 1 {
                    assert(all[k] == front[k]);
                } else if grown.contains('\n') {
                    let j = grown.index_of('\n');
                    assert(front.last()[j] == '\n');
                }
            }
            if front.len() == 1 {
                assert(join(all, seq!['\n']) =~= s);
            } else {
                let head = join(front.drop_last(), seq!['\n']);
                assert(join(front, seq!['\n']) == head + seq!['\n'] + front.last());
                assert(join(all, seq!['\n']) == head + seq!['\n'] + grown);
                assert(s.drop_last() == head + seq!['\n'] + front.last());
                assert(s =~= s.drop_last().push(s.last()));
                assert(head + seq!['\n'] + grown =~= s);
            }
        }
    }
}

/// White space parts the words: what stands before it and what stands behind it have
/// their words each for themselves, and a text without any is one word.
pub proof fn law_words(a: Seq<char>, w: char, b: Seq<char>)
    requires
        white(w),
    ensures
        words(a + seq![w] + b) == words(a) + words(b),
        (forall|i: int| 0 <= i < a.len() ==> !white(#[trigger] a[i])) && a.len() > 0 ==> words(a)
            == seq![a],
        words(seq![]) == Seq::<Seq<char>>::empty(),
{
    lemma_words_parted(a, w, b);
    if forall|i: int| 0 <= i < a.len() ==> !white(#[trigger] a[i]) {
        lemma_one_word(a);
    }
    let (done, word) = words_so_far(b);
    if word.len() > 0 {
        assert(words(a + seq![w] + b) =~= words(a) + words(b));
    }
}

proof fn lemma_one_word(a: Seq<char>)
    requires
        forall|i: int| 0 <= i < a.len() ==> !white(#[trigger] a[i]),
    ensures
        words_so_far(a) == (Seq::<Seq<char>>::empty(), a),
        a.len() > 0 ==> words(a) == seq![a],
    decreases a.len(),
{
    if a.len() > 0 {
        let front = a.drop_last();
        assert forall|i: int| 0 <= i < front.len() implies !white(#[trigger] front[i]) by {
            assert(front[i] == a[i]);
        }
        lemma_one_word(front);
        assert(!white(a[a.len() - 1]));
        assert(front.push(a.last()) =~= a);
        assert(words(a) =~= seq![a]);
    } else {
        assert(words_so_far(a).1 =~= a);
    }
}

proof fn lemma_words_parted(a: Seq<char>, w: char, b: Seq<char>)
    requires
        white(w),
    ensures
        words_so_far(a + seq![w] + b) == (words(a) + words_so_far(b).0, words_so_far(b).1),
    decreases b.len(),
{
    let all = a + seq![w] + b;
    if b.len() == 0 {
        assert(all.drop_last() =~= a);
        assert(all.last() == w);
        assert(words(a) + Seq::<Seq<char>>::empty() =~= words(a));
    } else {
        lemma_words_parted(a, w, b.drop_last());
        assert(all.drop_last() =~= a + seq![w] + b.drop_last());
        assert(all.last() == b.last());
        let (done, word) = words_so_far(b.drop_last());
        assert((words(a) + done).push(word) =~= words(a) + done.push(word));
    }
}

} // verus!
