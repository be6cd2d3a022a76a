//! Text as sequences of characters: the vocabulary in which the rest of the
//! library states what it does to strings.

use vstd::prelude::*;
use vstd::string::*;

verus! {

/// `String::push` appends one character.
pub assume_specification[ String::push ](s: &mut String, c: char)
    ensures
        final(s)@ == old(s)@.push(c),
;

// ───────────────────────── characters ─────────────────────────

/// The Unicode `White_Space` property.
pub open spec fn white(c: char) -> bool {
    let n = c as u32;
    ||| 0x9 <= n <= 0xd
    ||| n == 0x20
    ||| n == 0x85
    ||| n == 0xa0
    ||| n == 0x1680
    ||| 0x2000 <= n <= 0x200a
    ||| n == 0x2028
    ||| n == 0x2029
    ||| n == 0x202f
    ||| n == 0x205f
    ||| n == 0x3000
}

pub fn is_white(c: char) -> (r: bool)
    ensures
        r == white(c),
{
    let n: u32 = c as u32;
    (0x9 <= n && n <= 0xd) || n == 0x20 || n == 0x85 || n == 0xa0 || n == 0x1680 || (0x2000 <= n
        && n <= 0x200a) || n == 0x2028 || n == 0x2029 || n == 0x202f || n == 0x205f || n == 0x3000
}

/// `c` with an ASCII capital replaced by its small letter.
pub open spec fn lower_char(c: char) -> char {
    if 'A' <= c && c <= 'Z' {
        ((c as u32) + 32) as char
    } else {
        c
    }
}

pub fn to_lower_char(c: char) -> (r: char)
    ensures
        r == lower_char(c),
{
    if 'A' <= c && c <= 'Z' {
        ((c as u8) + 32) as char
    } else {
        c
    }
}

// ───────────────────────── conversions ─────────────────────────

/// The characters of `s`.
pub fn chars_of(s: &str) -> (r: Vec<char>)
    ensures
        r@ == s@,
{
    let mut out: Vec<char> = Vec::new();
    for c in it: s.chars()
        invariant
            it.seq() == s@,
            out@ == s@.take(it.index()),
    {
        out.push(c);
        assert(out@ =~= s@.take(it.index() + 1));
    }
    assert(out@ =~= s@);
    out
}

/// The string made of the characters `cs[from..to]`.
pub fn string_of(cs: &Vec<char>, from: usize, to: usize) -> (r: String)
    requires
        from <= to <= cs@.len(),
    ensures
        r@ == cs@.subrange(from as int, to as int),
{
    let mut out = String::new();
    let mut i: usize = from;
    while i < to
        invariant
            from <= i <= to <= cs@.len(),
            out@ == cs@.subrange(from as int, i as int),
        decreases to - i,
    {
        out.push(cs[i]);
        assert(out@ =~= cs@.subrange(from as int, i + 1));
        i += 1;
    }
    out
}

/// Whether two strings hold the same characters.
pub fn same(a: &str, b: &str) -> (r: bool)
    ensures
        r == (a@ == b@),
{
    a.to_owned() == b.to_owned()
}

/// The views of a list of strings.
pub open spec fn views(list: Seq<String>) -> Seq<Seq<char>> {
    list.map_values(|s: String| s@)
}

// ───────────────────────── decimal numbers ─────────────────────────

pub open spec fn digit(d: int) -> char {
    (48 + d) as char
}

/// `n` written in decimal.
pub open spec fn dec(n: nat) -> Seq<char>
    decreases n,
{
    if n < 10 {
        seq![digit(n as int)]
    } else {
        dec(n / 10).push(digit((n % 10) as int))
    }
}

pub fn dec_u64(n: u64) -> (r: String)
    ensures
        r@ == dec(n as nat),
    decreases n,
{
    if n < 10 {
        let mut out = String::new();
        out.push((48u8 + n as u8) as char);
        assert(out@ =~= seq![digit(n as int)]);
        out
    } else {
        let mut out = dec_u64(n / 10);
        out.push((48u8 + (n % 10) as u8) as char);
        out
    }
}

/// Reading back what was written gives the number.
pub proof fn lemma_dec_value(n: nat)
    ensures
        digits_value(dec(n)) == n,
        dec(n).len() > 0,
    decreases n,
{
    if n < 10 {
        let one = seq![digit(n as int)];
        assert(one.drop_last() =~= seq![]);
        assert(digits_value(seq![]) == 0);
        assert(digits_value(one) == n);
    } else {
        lemma_dec_value(n / 10);
        let front = dec(n / 10);
        let all = front.push(digit((n % 10) as int));
        assert(all.drop_last() =~= front);
        assert(digits_value(all) == (n / 10) * 10 + n % 10);
    }
}

/// Numbers are written in digits.
pub proof fn lemma_dec_digits(n: nat)
    ensures
        all_digits(dec(n)),
    decreases n,
{
    if n >= 10 {
        lemma_dec_digits(n / 10);
    }
}

/// Different numbers are written differently.
pub proof fn lemma_dec_injective(a: nat, b: nat)
    requires
        dec(a) == dec(b),
    ensures
        a == b,
{
    lemma_dec_value(a);
    lemma_dec_value(b);
}

// ───────────────────────── trimming ─────────────────────────

/// `s` without its leading white space.
pub open spec fn trim_start(s: Seq<char>) -> Seq<char>
    decreases s.len(),
{
    if s.len() > 0 && white(s[0]) {
        trim_start(s.drop_first())
    } else {
        s
    }
}

/// `s` without its trailing white space.
pub open spec fn trim_end(s: Seq<char>) -> Seq<char>
    decreases s.len(),
{
    if s.len() > 0 && white(s.last()) {
        trim_end(s.drop_last())
    } else {
        s
    }
}

/// `s` without white space at either end.
pub open spec fn trim(s: Seq<char>) -> Seq<char> {
    trim_end(trim_start(s))
}

/// Whether `s` holds nothing but white space.
pub open spec fn blank(s: Seq<char>) -> bool {
    trim(s).len() == 0
}

proof fn lemma_trim_start_at(s: Seq<char>, k: int)
    requires
        0 <= k <= s.len(),
        forall|i: int| 0 <= i < k ==> white(#[trigger] s[i]),
        k < s.len() ==> !white(s[k]),
    ensures
        trim_start(s) == s.subrange(k, s.len() as int),
    decreases k,
{
    if k == 0 {
        assert(s.subrange(0, s.len() as int) =~= s);
    } else {
        let t = s.drop_first();
        assert forall|i: int| 0 <= i < k - 1 implies white(#[trigger] t[i]) by {
            assert(t[i] == s[i + 1]);
        }
        lemma_trim_start_at(t, k - 1);
        assert(t.subrange(k - 1, t.len() as int) =~= s.subrange(k, s.len() as int));
    }
}

proof fn lemma_trim_end_at(s: Seq<char>, k: int)
    requires
        0 <= k <= s.len(),
        forall|i: int| k <= i < s.len() ==> white(#[trigger] s[i]),
        k > 0 ==> !white(s[k - 1]),
    ensures
        trim_end(s) == s.subrange(0, k),
    decreases s.len() - k,
{
    if k == s.len() {
        assert(s.subrange(0, s.len() as int) =~= s);
    } else {
        let t = s.drop_last();
        assert forall|i: int| k <= i < t.len() implies white(#[trigger] t[i]) by {
            assert(t[i] == s[i]);
        }
        lemma_trim_end_at(t, k);
        assert(t.subrange(0, k) =~= s.subrange(0, k));
    }
}

/// A text that is trimmed has no white space at either end.
pub proof fn lemma_trimmed(s: Seq<char>)
    requires
        trim(s) == s,
    ensures
        s.len() > 0 ==> !white(s[0]) && !white(s.last()),
{
    lemma_trim_lens(s);
    lemma_trim_lens(trim_start(s));
}

proof fn lemma_trim_lens(s: Seq<char>)
    ensures
        trim_start(s).len() <= s.len(),
        trim_end(s).len() <= s.len(),
        s.len() > 0 && white(s[0]) ==> trim_start(s).len() < s.len(),
        s.len() > 0 && white(s.last()) ==> trim_end(s).len() < s.len(),
        trim_start(s).len() == s.len() ==> trim_start(s) == s,
    decreases s.len(),
{
    if s.len() > 0 {
        lemma_trim_lens(s.drop_first());
        lemma_trim_lens(s.drop_last());
    }
}

/// Trimming takes away white space that was put around a trimmed text.
pub proof fn lemma_trim_around(a: char, s: Seq<char>, b: char)
    requires
        trim(s) == s,
        white(a),
        white(b),
    ensures
        trim(seq![a] + s + seq![b]) == s,
{
    lemma_trimmed(s);
    let all = seq![a] + s + seq![b];
    if s.len() == 0 {
        lemma_trim_start_at(all, 2);
        assert(all.subrange(2, 2) =~= s);
        lemma_trim_end_at(s, 0);
        assert(s.subrange(0, 0) =~= s);
    } else {
        lemma_trim_start_at(all, 1);
        let mid = all.subrange(1, all.len() as int);
        assert(mid =~= s + seq![b]);
        assert(mid[mid.len() - 2] == s.last());
        lemma_trim_end_at(mid, mid.len() - 1);
        assert(mid.subrange(0, mid.len() - 1) =~= s);
    }
}

/// A text without white space at its ends is trimmed.
pub proof fn lemma_no_white(s: Seq<char>)
    requires
        s.len() > 0 ==> !white(s[0]) && !white(s.last()),
    ensures
        trim(s) == s,
{
}

/// Where the trimmed part of `cs` begins and ends.
fn trim_bounds(cs: &Vec<char>) -> (r: (usize, usize))
    ensures
        r.0 <= r.1 <= cs@.len(),
        cs@.subrange(r.0 as int, r.1 as int) == trim(cs@),
{
    let n: usize = cs.len();
    let mut from: usize = 0;
    while from < n && is_white(cs[from])
        invariant
            from <= n == cs@.len(),
            forall|i: int| 0 <= i < from ==> white(#[trigger] cs@[i]),
        decreases n - from,
    {
        from += 1;
    }
    proof {
        lemma_trim_start_at(cs@, from as int);
    }
    let ghost mid = cs@.subrange(from as int, n as int);
    let mut to: usize = n;
    while to > from && is_white(cs[to - 1])
        invariant
            from <= to <= n == cs@.len(),
            mid == cs@.subrange(from as int, n as int),
            forall|i: int| to - from <= i < mid.len() ==> white(#[trigger] mid[i]),
        decreases to,
    {
        assert(mid[to - 1 - from] == cs@[to - 1]);
        to -= 1;
    }
    proof {
        if to > from {
            assert(mid[to - from - 1] == cs@[to - 1]);
        }
        lemma_trim_end_at(mid, to - from);
        assert(mid.subrange(0, to - from) =~= cs@.subrange(from as int, to as int));
    }
    (from, to)
}

/// `s` without white space at either end.
pub fn trimmed(s: &str) -> (r: &str)
    ensures
        r@ == trim(s@),
{
    let cs = chars_of(s);
    let (from, to) = trim_bounds(&cs);
    s.substring_char(from, to)
}

pub fn is_blank(s: &str) -> (r: bool)
    ensures
        r == blank(s@),
{
    trimmed(s).is_empty()
}

// ───────────────────────── letter case ─────────────────────────

/// `s` with ASCII capitals replaced by small letters.
pub open spec fn lower(s: Seq<char>) -> Seq<char> {
    s.map_values(|c: char| lower_char(c))
}

pub fn lowered(s: &str) -> (r: String)
    ensures
        r@ == lower(s@),
{
    let mut out = String::new();
    for c in it: s.chars()
        invariant
            it.seq() == s@,
            out@ == lower(s@.take(it.index())),
    {
        out.push(to_lower_char(c));
        assert(out@ =~= lower(s@.take(it.index() + 1)));
    }
    assert(s@.take(s@.len() as int) =~= s@);
    out
}

/// Whether two strings agree when ASCII case is disregarded.
pub fn same_ignoring_case(a: &str, b: &str) -> (r: bool)
    ensures
        r == (lower(a@) == lower(b@)),
{
    lowered(a) == lowered(b)
}

// ───────────────────────── searching ─────────────────────────

/// `needle` stands in `hay` at position `i`.
pub open spec fn occurs_at(hay: Seq<char>, needle: Seq<char>, i: int) -> bool {
    0 <= i && i + needle.len() <= hay.len() && hay.subrange(i, i + needle.len()) == needle
}

/// The first position at or behind `i` at which `needle` stands in `hay`.
pub open spec fn find_from(hay: Seq<char>, needle: Seq<char>, i: int) -> Option<int>
    decreases hay.len() + 1 - i,
{
    if i < 0 || i + needle.len() > hay.len() {
        None
    } else if hay.subrange(i, i + needle.len()) == needle {
        Some(i)
    } else {
        find_from(hay, needle, i + 1)
    }
}

/// The first position at which `needle` stands in `hay`.
pub open spec fn find(hay: Seq<char>, needle: Seq<char>) -> Option<int> {
    find_from(hay, needle, 0)
}

pub open spec fn contains(hay: Seq<char>, needle: Seq<char>) -> bool {
    find(hay, needle) is Some
}

pub proof fn lemma_find_from(hay: Seq<char>, needle: Seq<char>, i: int)
    requires
        0 <= i,
    ensures
        match find_from(hay, needle, i) {
            Some(k) => i <= k && occurs_at(hay, needle, k) && (forall|j: int|
                i <= j < k ==> !#[trigger] occurs_at(hay, needle, j)),
            None => forall|j: int| i <= j ==> !#[trigger] occurs_at(hay, needle, j),
        },
    decreases hay.len() + 1 - i,
{
    if i + needle.len() > hay.len() {
    } else if hay.subrange(i, i + needle.len()) == needle {
        assert(occurs_at(hay, needle, i));
    } else {
        lemma_find_from(hay, needle, i + 1);
        assert(!occurs_at(hay, needle, i));
    }
}

/// `find` gives the least position of an occurrence, if there is one.
pub proof fn lemma_find(hay: Seq<char>, needle: Seq<char>)
    ensures
        match find(hay, needle) {
            Some(k) => occurs_at(hay, needle, k) && (forall|j: int|
                j < k ==> !#[trigger] occurs_at(hay, needle, j)),
            None => forall|j: int| !#[trigger] occurs_at(hay, needle, j),
        },
{
    lemma_find_from(hay, needle, 0);
}

/// A least occurrence is what `find` gives.
pub proof fn lemma_find_is(hay: Seq<char>, needle: Seq<char>, k: int)
    requires
        occurs_at(hay, needle, k),
        forall|j: int| 0 <= j < k ==> !#[trigger] occurs_at(hay, needle, j),
    ensures
        find(hay, needle) == Some(k),
{
    lemma_find(hay, needle);
}

/// Text that follows does not move a first occurrence.
pub proof fn lemma_find_extend(x: Seq<char>, b: Seq<char>, t: Seq<char>)
    requires
        find(x, t) is Some,
    ensures
        find(x + b, t) == find(x, t),
{
    lemma_find(x, t);
    let k = find(x, t)->0;
    assert((x + b).subrange(k, k + t.len()) =~= x.subrange(k, k + t.len()));
    assert forall|j: int| 0 <= j < k implies !#[trigger] occurs_at(x + b, t, j) by {
        if occurs_at(x + b, t, j) {
            assert((x + b).subrange(j, j + t.len()) =~= x.subrange(j, j + t.len()));
            assert(occurs_at(x, t, j));
        }
    }
    lemma_find_is(x + b, t, k);
}

/// Where no occurrence begins in `p`, searching `p + y` is searching `y`.
pub proof fn lemma_find_shift(p: Seq<char>, y: Seq<char>, t: Seq<char>)
    requires
        forall|i: int| 0 <= i < p.len() ==> !#[trigger] occurs_at(p + y, t, i),
    ensures
        find(p + y, t) == match find(y, t) {
            Some(i) => Some(p.len() + i),
            None => None,
        },
{
    lemma_find(y, t);
    lemma_find(p + y, t);
    assert forall|i: int| 0 <= i implies occurs_at(y, t, i) == #[trigger] occurs_at(
        p + y,
        t,
        p.len() + i,
    ) by {
        if i + t.len() <= y.len() {
            assert((p + y).subrange(p.len() + i, p.len() + i + t.len()) =~= y.subrange(i, i + t.len()));
        }
    }
    match find(y, t) {
        Some(i) => {
            assert(occurs_at(p + y, t, p.len() + i));
            assert forall|j: int| 0 <= j < p.len() + i implies !#[trigger] occurs_at(p + y, t, j) by {
                if j >= p.len() {
                    assert(!occurs_at(y, t, j - p.len()));
                    assert(occurs_at(p + y, t, p.len() + (j - p.len())) == occurs_at(y, t, j - p.len()));
                }
            }
            lemma_find_is(p + y, t, p.len() + i);
        },
        None => {
            match find(p + y, t) {
                Some(k) => {
                    assert(k >= p.len());
                    assert(!occurs_at(y, t, k - p.len()));
                    assert(occurs_at(p + y, t, p.len() + (k - p.len())) == occurs_at(y, t, k - p.len()));
                },
                None => {},
            }
        },
    }
}

/// Whether `needle` stands in `hay` at position `at`.
pub fn matches_at(hay: &Vec<char>, at: usize, needle: &Vec<char>) -> (r: bool)
    requires
        at <= hay@.len(),
    ensures
        r == occurs_at(hay@, needle@, at as int),
{
    let n: usize = hay.len();
    if needle.len() > n - at {
        return false;
    }
    let mut k: usize = 0;
    while k < needle.len()
        invariant
            at + needle@.len() <= n == hay@.len(),
            k <= needle@.len(),
            forall|i: int| 0 <= i < k ==> hay@[at + i] == #[trigger] needle@[i],
        decreases needle@.len() - k,
    {
        if hay[at + k] != needle[k] {
            assert(hay@.subrange(at as int, at + needle@.len())[k as int] != needle@[k as int]);
            return false;
        }
        k += 1;
    }
    assert(hay@.subrange(at as int, at + needle@.len()) =~= needle@);
    true
}

/// The first position of `needle` in `hay`.
pub fn position_of(hay: &Vec<char>, needle: &Vec<char>) -> (r: Option<usize>)
    ensures
        match r {
            Some(k) => find(hay@, needle@) == Some(k as int),
            None => find(hay@, needle@) is None,
        },
{
    let n: usize = hay.len();
    let mut i: usize = 0;
    while i < n && needle.len() <= n - i
        invariant
            i <= n == hay@.len(),
            find(hay@, needle@) == find_from(hay@, needle@, i as int),
        decreases n - i,
    {
        if matches_at(hay, i, needle) {
            return Some(i);
        }
        i += 1;
    }
    if i == n && needle.len() == 0 {
        assert(hay@.subrange(n as int, n as int) =~= needle@);
        return Some(n);
    }
    None
}

/// Whether `needle` stands somewhere in `s`.
pub fn includes(s: &str, needle: &str) -> (r: bool)
    ensures
        r == contains(s@, needle@),
{
    let hay = chars_of(s);
    let pat = chars_of(needle);
    position_of(&hay, &pat).is_some()
}

pub open spec fn starts_with(s: Seq<char>, prefix: Seq<char>) -> bool {
    prefix.len() <= s.len() && s.take(prefix.len() as int) == prefix
}

/// What follows `prefix` in `s`, where `s` begins with it.
pub fn after_prefix<'a>(s: &'a str, prefix: &str) -> (r: Option<&'a str>)
    ensures
        match r {
            Some(rest) => starts_with(s@, prefix@) && rest@ == s@.skip(prefix@.len() as int),
            None => !starts_with(s@, prefix@),
        },
{
    let cs = chars_of(s);
    let pat = chars_of(prefix);
    let hit = matches_at(&cs, 0, &pat);
    proof {
        assert(s@.subrange(0, prefix@.len() as int) =~= s@.take(prefix@.len() as int) || prefix@.len()
            > s@.len());
    }
    if hit {
        let rest = s.substring_char(pat.len(), cs.len());
        assert(rest@ =~= s@.skip(prefix@.len() as int));
        Some(rest)
    } else {
        None
    }
}

// ───────────────────────── tags cut in half ─────────────────────────

/// The greatest length from 1 to `k` at which the end of `buf` is a beginning of
/// `tag`, else 0.
pub open spec fn partial_up_to(buf: Seq<char>, tag: Seq<char>, k: nat) -> nat
    decreases k,
{
    if k == 0 {
        0
    } else if k <= buf.len() && k <= tag.len() && buf.skip(buf.len() - k) == tag.take(k as int) {
        k
    } else {
        partial_up_to(buf, tag, (k - 1) as nat)
    }
}

/// How much of the end of `buf` may be the beginning of a `tag` that is not yet
/// complete.
pub open spec fn partial_tag(buf: Seq<char>, tag: Seq<char>) -> nat {
    partial_up_to(buf, tag, (tag.len() - 1) as nat)
}

pub proof fn lemma_partial_up_to(buf: Seq<char>, tag: Seq<char>, k: nat)
    ensures
        partial_up_to(buf, tag, k) <= k,
        partial_up_to(buf, tag, k) <= buf.len(),
        partial_up_to(buf, tag, k) <= tag.len(),
        buf.skip(buf.len() - partial_up_to(buf, tag, k)) == tag.take(
            partial_up_to(buf, tag, k) as int,
        ),
        forall|m: nat|
            #![trigger tag.take(m as int)]
            partial_up_to(buf, tag, k) < m <= k && m <= buf.len() && m <= tag.len() ==> buf.skip(
                buf.len() - m,
            ) != tag.take(m as int),
    decreases k,
{
    if k == 0 {
        assert(buf.skip(buf.len() as int) =~= tag.take(0));
    } else if k <= buf.len() && k <= tag.len() && buf.skip(buf.len() - k) == tag.take(k as int) {
    } else {
        lemma_partial_up_to(buf, tag, (k - 1) as nat);
    }
}

/// Where `x` holds no `tag` and at least its partial tag is held back, no `tag`
/// that further text completes begins in what was let go.
pub proof fn lemma_no_tag_before(x: Seq<char>, b: Seq<char>, tag: Seq<char>, keep: nat)
    requires
        tag.len() > 0,
        find(x, tag) is None,
        partial_tag(x, tag) <= keep <= x.len(),
    ensures
        forall|i: int| 0 <= i < x.len() - keep ==> !#[trigger] occurs_at(x + b, tag, i),
{
    lemma_find(x, tag);
    lemma_partial_up_to(x, tag, (tag.len() - 1) as nat);
    assert forall|i: int| 0 <= i < x.len() - keep implies !#[trigger] occurs_at(x + b, tag, i) by {
        if occurs_at(x + b, tag, i) {
            if i + tag.len() <= x.len() {
                assert((x + b).subrange(i, i + tag.len()) =~= x.subrange(i, i + tag.len()));
                assert(occurs_at(x, tag, i));
            } else {
                let m = (x.len() - i) as nat;
                assert(x.skip(x.len() - m) =~= tag.take(m as int)) by {
                    assert forall|q: int| 0 <= q < m implies x.skip(i)[q] == tag.take(m as int)[q] by {
                        assert((x + b).subrange(i, i + tag.len())[q] == tag[q]);
                    }
                }
            }
        }
    }
}

/// Holding back at least the partial tag, the partial tag of the whole is that of
/// what was held back and what follows.
pub proof fn lemma_partial_shift(x: Seq<char>, b: Seq<char>, tag: Seq<char>, keep: nat)
    requires
        tag.len() > 0,
        partial_tag(x, tag) <= keep <= x.len(),
    ensures
        partial_tag(x + b, tag) == partial_tag(x.skip(x.len() - keep) + b, tag),
{
    let y = x.skip(x.len() - keep) + b;
    let whole = x + b;
    let top = (tag.len() - 1) as nat;
    lemma_partial_up_to(x, tag, top);
    lemma_partial_up_to(y, tag, top);
    lemma_partial_up_to(whole, tag, top);
    let k = partial_tag(whole, tag);
    let l = partial_tag(y, tag);
    assert forall|m: nat| m <= y.len() implies whole.skip(whole.len() - m) =~= #[trigger] y.skip(
        y.len() - m,
    ) by {}
    assert(whole.skip(whole.len() - l) == tag.take(l as int)) by {
        assert(y.skip(y.len() - l) == tag.take(l as int));
    }
    if k > l {
        if k <= y.len() {
            assert(y.skip(y.len() - k) == tag.take(k as int));
        } else {
            let m = (k - b.len()) as nat;
            assert(x.skip(x.len() - m) =~= tag.take(m as int)) by {
                assert forall|q: int| 0 <= q < m implies x.skip(x.len() - m)[q] == tag.take(m as int)[q] by {
                    assert(whole.skip(whole.len() - k)[q] == tag.take(k as int)[q]);
                }
            }
        }
    }
    if l > k {
        assert(whole.skip(whole.len() - l) != tag.take(l as int));
    }
}

/// How many characters of the end of `buf` may be the beginning of `tag`.
pub fn partial_len(buf: &Vec<char>, tag: &Vec<char>) -> (r: usize)
    requires
        tag@.len() > 0,
    ensures
        r == partial_tag(buf@, tag@),
        r <= buf@.len(),
{
    let n: usize = buf.len();
    let mut k: usize = tag.len() - 1;
    while k > 0
        invariant
            k < tag@.len(),
            n == buf@.len(),
            partial_tag(buf@, tag@) == partial_up_to(buf@, tag@, k as nat),
        decreases k,
    {
        if k <= n {
            let mut i: usize = 0;
            while i < k && buf[n - k + i] == tag[i]
                invariant
                    i <= k <= n == buf@.len(),
                    k < tag@.len(),
                    forall|q: int| 0 <= q < i ==> buf@[n - k + q] == #[trigger] tag@[q],
                decreases k - i,
            {
                i += 1;
            }
            if i == k {
                assert(buf@.skip(n - k) =~= tag@.take(k as int));
                return k;
            }
            assert(buf@.skip(n - k)[i as int] != tag@.take(k as int)[i as int]);
        }
        k -= 1;
    }
    0
}

// ───────────────────────── UTF-8 length ─────────────────────────

/// How many bytes UTF-8 takes for `c`.
pub open spec fn char_bytes(c: char) -> nat {
    let n = c as u32;
    if n < 0x80 {
        1
    } else if n < 0x800 {
        2
    } else if n < 0x10000 {
        3
    } else {
        4
    }
}

/// How many bytes UTF-8 takes for `s`.
pub open spec fn byte_len(s: Seq<char>) -> nat
    decreases s.len(),
{
    if s.len() == 0 {
        0
    } else {
        byte_len(s.drop_last()) + char_bytes(s.last())
    }
}

pub proof fn lemma_byte_len_concat(a: Seq<char>, b: Seq<char>)
    ensures
        byte_len(a + b) == byte_len(a) + byte_len(b),
    decreases b.len(),
{
    if b.len() == 0 {
        assert(a + b =~= a);
    } else {
        lemma_byte_len_concat(a, b.drop_last());
        assert((a + b).drop_last() =~= a + b.drop_last());
    }
}

/// Whether UTF-8 takes more than `limit` bytes for `cs`.
pub fn longer_than(cs: &Vec<char>, limit: usize) -> (r: bool)
    requires
        limit <= 0x1000_0000,
    ensures
        r == (byte_len(cs@) > limit),
{
    let mut total: usize = 0;
    let mut i: usize = 0;
    while i < cs.len()
        invariant
            i <= cs@.len(),
            total == byte_len(cs@.take(i as int)),
            total <= limit <= 0x1000_0000,
        decreases cs@.len() - i,
    {
        let n: u32 = cs[i] as u32;
        let w: usize = if n < 0x80 {
            1
        } else if n < 0x800 {
            2
        } else if n < 0x10000 {
            3
        } else {
            4
        };
        total = total + w;
        proof {
            assert(cs@.take(i + 1).drop_last() =~= cs@.take(i as int));
        }
        i += 1;
        if total > limit {
            proof {
                assert(cs@ =~= cs@.take(i as int) + cs@.skip(i as int));
                lemma_byte_len_concat(cs@.take(i as int), cs@.skip(i as int));
            }
            return true;
        }
    }
    assert(cs@.take(i as int) =~= cs@);
    false
}

// ───────────────────────── joining and cutting ─────────────────────────

/// `parts` in order, with `sep` between neighbours.
pub open spec fn join(parts: Seq<Seq<char>>, sep: Seq<char>) -> Seq<char>
    decreases parts.len(),
{
    if parts.len() == 0 {
        seq![]
    } else if parts.len() == 1 {
        parts[0]
    } else {
        join(parts.drop_last(), sep) + sep + parts.last()
    }
}

pub fn joined(parts: &Vec<String>, sep: &str) -> (r: String)
    ensures
        r@ == join(views(parts@), sep@),
{
    let mut out = String::new();
    let mut i: usize = 0;
    while i < parts.len()
        invariant
            i <= parts@.len(),
            out@ == join(views(parts@).take(i as int), sep@),
        decreases parts@.len() - i,
    {
        if i > 0 {
            out.append(sep);
        }
        out.append(parts[i].as_str());
        proof {
            let all = views(parts@);
            let next = all.take(i + 1);
            assert(next.drop_last() =~= all.take(i as int));
            assert(next.last() == parts@[i as int]@);
            if i == 0 {
                assert(out@ =~= next[0]);
            }
        }
        i += 1;
    }
    assert(views(parts@).take(parts@.len() as int) =~= views(parts@));
    out
}

/// At most the first `n` characters of `s`.
pub open spec fn head(s: Seq<char>, n: nat) -> Seq<char> {
    if s.len() <= n {
        s
    } else {
        s.take(n as int)
    }
}

/// The part of `s` before the first `c`, and the part behind it.
pub open spec fn split_at_char(s: Seq<char>, c: char) -> Option<(Seq<char>, Seq<char>)> {
    match find(s, seq![c]) {
        Some(i) => Some((s.take(i), s.skip(i + 1))),
        None => None,
    }
}

pub fn split_once<'a>(s: &'a str, c: char) -> (r: Option<(&'a str, &'a str)>)
    ensures
        match r {
            Some((a, b)) => split_at_char(s@, c) == Some((a@, b@)),
            None => split_at_char(s@, c) is None,
        },
{
    let cs = chars_of(s);
    let n: usize = cs.len();
    let mut pat: Vec<char> = Vec::new();
    pat.push(c);
    assert(pat@ =~= seq![c]);
    proof {
        lemma_find(s@, seq![c]);
    }
    match position_of(&cs, &pat) {
        Some(i) => {
            let a = s.substring_char(0, i);
            let b = s.substring_char(i + 1, n);
            assert(a@ =~= s@.take(i as int));
            assert(b@ =~= s@.skip(i + 1));
            Some((a, b))
        },
        None => None,
    }
}

// ───────────────────────── reading numbers ─────────────────────────

pub open spec fn is_digit(c: char) -> bool {
    '0' <= c && c <= '9'
}

pub open spec fn all_digits(s: Seq<char>) -> bool {
    forall|i: int| 0 <= i < s.len() ==> is_digit(#[trigger] s[i])
}

/// The number that a row of digits stands for.
pub open spec fn digits_value(s: Seq<char>) -> nat
    decreases s.len(),
{
    if s.len() == 0 {
        0
    } else {
        digits_value(s.drop_last()) * 10 + (s.last() as u32 - 48) as nat
    }
}

/// `s` as a whole number from 0 to `most`: digits, with or without a `+`.
pub open spec fn number_value(s: Seq<char>, most: nat) -> Option<nat> {
    let digits = if s.len() > 0 && s[0] == '+' {
        s.drop_first()
    } else {
        s
    };
    if digits.len() > 0 && all_digits(digits) && digits_value(digits) <= most {
        Some(digits_value(digits))
    } else {
        None
    }
}

/// `s` as a whole number from 0 to `u32::MAX`.
pub open spec fn u32_value(s: Seq<char>) -> Option<u32> {
    match number_value(s, u32::MAX as nat) {
        Some(n) => Some(n as u32),
        None => None,
    }
}

fn digit_value(c: char) -> (r: Option<u32>)
    ensures
        match r {
            Some(d) => is_digit(c) && d == c as u32 - 48 && d < 10,
            None => !is_digit(c),
        },
{
    if '0' <= c && c <= '9' {
        Some(c as u32 - 48)
    } else {
        None
    }
}

proof fn lemma_digits_grow(s: Seq<char>, k: int)
    requires
        0 <= k <= s.len(),
        all_digits(s),
    ensures
        digits_value(s.take(k)) <= digits_value(s),
    decreases s.len() - k,
{
    if k == s.len() {
        assert(s.take(k) =~= s);
    } else {
        lemma_digits_grow(s, k + 1);
        assert(s.take(k + 1).drop_last() =~= s.take(k));
    }
}

pub fn read_number(s: &str, most: u64) -> (r: Option<u64>)
    ensures
        match r {
            Some(n) => number_value(s@, most as nat) == Some(n as nat),
            None => number_value(s@, most as nat) is None,
        },
{
    let cs = chars_of(s);
    let n: usize = cs.len();
    let start: usize = if n > 0 && cs[0] == '+' {
        1
    } else {
        0
    };
    if start == n {
        return None;
    }
    let ghost digits = if s@.len() > 0 && s@[0] == '+' {
        s@.drop_first()
    } else {
        s@
    };
    let mut value: u64 = 0;
    let mut i: usize = start;
    while i < n
        invariant
            start <= i <= n == cs@.len(),
            cs@ == s@,
            digits == (if s@.len() > 0 && s@[0] == '+' {
                s@.drop_first()
            } else {
                s@
            }),
            digits == cs@.skip(start as int),
            digits.len() == n - start,
            value <= most,
            value == digits_value(digits.take(i - start)),
            forall|q: int| 0 <= q < i - start ==> is_digit(#[trigger] digits[q]),
        decreases n - i,
    {
        assert(digits[i - start] == cs@[i as int]);
        let d: u32 = match digit_value(cs[i]) {
            Some(d) => d,
            None => {
                return None;
            },
        };
        let next: u128 = value as u128 * 10 + d as u128;
        proof {
            assert(digits.take(i - start + 1).drop_last() =~= digits.take(i - start));
            assert(next == digits_value(digits.take(i - start + 1)));
        }
        i += 1;
        if next > most as u128 {
            proof {
                if all_digits(digits) {
                    lemma_digits_grow(digits, i - start);
                }
            }
            return None;
        }
        value = next as u64;
    }
    assert(digits.take(n - start) =~= digits);
    Some(value)
}

pub fn read_u32(s: &str) -> (r: Option<u32>)
    ensures
        r == u32_value(s@),
{
    match read_number(s, 0xffff_ffff) {
        Some(n) => Some(n as u32),
        None => None,
    }
}

// ───────────────────────── words and lines ─────────────────────────

/// The words of `s` that white space ends, and the one that the end of `s` cuts off.
pub open spec fn words_so_far(s: Seq<char>) -> (Seq<Seq<char>>, Seq<char>)
    decreases s.len(),
{
    if s.len() == 0 {
        (seq![], seq![])
    } else {
        let (done, word) = words_so_far(s.drop_last());
        if !white(s.last()) {
            (done, word.push(s.last()))
        } else if word.len() > 0 {
            (done.push(word), seq![])
        } else {
            (done, seq![])
        }
    }
}

/// The words of `s`: its longest parts without white space.
pub open spec fn words(s: Seq<char>) -> Seq<Seq<char>> {
    let (done, word) = words_so_far(s);
    if word.len() > 0 {
        done.push(word)
    } else {
        done
    }
}

pub fn words_of(s: &str) -> (r: Vec<String>)
    ensures
        views(r@) == words(s@),
{
    let mut out: Vec<String> = Vec::new();
    let mut word = String::new();
    let mut open: bool = false;
    proof {
        assert(s@.take(0) =~= seq![]);
        assert(views(out@) =~= seq![]);
        assert(word@ =~= seq![]);
    }
    for c in it: s.chars()
        invariant
            it.seq() == s@,
            (views(out@), word@) == words_so_far(s@.take(it.index())),
            open == (word@.len() > 0),
    {
        let ghost before = out@;
        proof {
            assert(s@.take(it.index() + 1).drop_last() =~= s@.take(it.index()));
            assert(s@.take(it.index() + 1).last() == c);
        }
        if !is_white(c) {
            word.push(c);
            open = true;
        } else if open {
            let ghost last = word;
            out.push(word);
            word = String::new();
            open = false;
            proof {
                assert(views(out@) =~= views(before).push(last@));
                assert(word@ =~= seq![]);
            }
        }
    }
    assert(s@.take(s@.len() as int) =~= s@);
    if open {
        let ghost before = out@;
        let ghost last = word;
        out.push(word);
        assert(views(out@) =~= views(before).push(last@));
    }
    out
}

/// The parts of `s` between line feeds.
pub open spec fn lines(s: Seq<char>) -> Seq<Seq<char>>
    decreases s.len(),
{
    if s.len() == 0 {
        seq![seq![]]
    } else {
        let front = lines(s.drop_last());
        if s.last() == '\n' {
            front.push(seq![])
        } else {
            front.drop_last().push(front.last().push(s.last()))
        }
    }
}

pub fn lines_of(s: &str) -> (r: Vec<String>)
    ensures
        views(r@) == lines(s@),
{
    let mut out: Vec<String> = Vec::new();
    let mut line = String::new();
    proof {
        assert(s@.take(0) =~= seq![]);
        assert(line@ =~= seq![]);
        assert(views(out@).push(line@) =~= seq![seq![]]);
    }
    for c in it: s.chars()
        invariant
            it.seq() == s@,
            views(out@).push(line@) == lines(s@.take(it.index())),
    {
        let ghost before = out@;
        let ghost ended = line@;
        proof {
            assert(s@.take(it.index() + 1).drop_last() =~= s@.take(it.index()));
            assert(s@.take(it.index() + 1).last() == c);
            assert(views(before).push(ended).drop_last() =~= views(before));
        }
        if c == '\n' {
            out.push(line);
            line = String::new();
            proof {
                assert(line@ =~= seq![]);
                assert(views(out@) =~= views(before).push(ended));
            }
        } else {
            line.push(c);
        }
    }
    assert(s@.take(s@.len() as int) =~= s@);
    let ghost before = out@;
    let ghost ended = line@;
    out.push(line);
    assert(views(out@) =~= views(before).push(ended));
    out
}

/// `s` ends with `tail`.
pub open spec fn ends_with(s: Seq<char>, tail: Seq<char>) -> bool {
    tail.len() <= s.len() && s.skip(s.len() - tail.len()) == tail
}

pub fn has_ending(s: &str, tail: &str) -> (r: bool)
    ensures
        r == ends_with(s@, tail@),
{
    let n: usize = chars_of(s).len();
    let k: usize = chars_of(tail).len();
    if k > n {
        return false;
    }
    let rest = s.substring_char(n - k, n);
    assert(rest@ =~= s@.skip(n - k));
    same(rest, tail)
}

} // verus!
