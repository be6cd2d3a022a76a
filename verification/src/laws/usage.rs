//! Token counts.

use vstd::prelude::*;
use vstd::string::*;

use crate::proxy::usage::{
    approx_tokens, ascii_count, build, estimate, law_estimate_of_nothing, lemma_ascii_concat,
    lemma_ascii_count, meta_line, Counted, Source,
};
use crate::text::{contains, dec};

use super::text::lemma_holds;

verus! {

pub open spec fn all_ascii(s: Seq<char>) -> bool {
    forall|i: int| 0 <= i < s.len() ==> (#[trigger] s[i] as u32) < 128
}

proof fn lemma_all_ascii(s: Seq<char>)
    requires
        all_ascii(s),
    ensures
        ascii_count(s) == s.len(),
    decreases s.len(),
{
    if s.len() > 0 {
        let front = s.drop_last();
        assert forall|i: int| 0 <= i < front.len() implies (#[trigger] front[i] as u32) < 128 by {
            assert(front[i] == s[i]);
        }
        lemma_all_ascii(front);
        assert((s[s.len() - 1] as u32) < 128);
    }
}

/// `n`, or the greatest count there is.
pub open spec fn at_most_u32(n: nat) -> u32 {
    if n <= u32::MAX {
        n as u32
    } else {
        u32::MAX
    }
}

/// Four ASCII characters are a token, begun ones included.
pub proof fn law_ascii_estimate(s: &str, r: u32)
    requires
        call_ensures(approx_tokens, (s,), r),
        all_ascii(s@),
    ensures
        r == at_most_u32((s@.len() + 3) / 4),
{
    lemma_all_ascii(s@);
}

/// Any other character is a token more, wherever it stands.
pub proof fn law_wide_estimate(a: Seq<char>, c: char, b: Seq<char>, with: &str, without: &str, r: u32, q: u32)
    requires
        c as u32 >= 128,
        with@ == a + seq![c] + b,
        without@ == a + b,
        call_ensures(approx_tokens, (with,), r),
        call_ensures(approx_tokens, (without,), q),
    ensures
        r == q + 1 || (r == u32::MAX && q == u32::MAX),
{
    lemma_ascii_concat(a + seq![c], b);
    lemma_ascii_concat(a, seq![c]);
    lemma_ascii_concat(a, b);
    assert(seq![c].drop_last() =~= seq![]);
    assert(ascii_count(seq![c].drop_last()) == 0);
    assert(ascii_count(seq![c]) == 0);
    lemma_ascii_count(a);
    lemma_ascii_count(b);
    assert(estimate(with@) == estimate(without@) + 1);
}

/// Without counts of the gateway, the count of the prompt is the estimate of the prompt
/// and that of the completion is the estimate of the completion. A text of ASCII
/// characters alone counts a quarter of its length; an empty one, and no other, counts
/// nothing.
pub proof fn law_estimates_tell_the_sides_apart(
    prompt: &str,
    completion: &str,
    r: Counted,
    p: u32,
    c: u32,
)
    requires
        call_ensures(build, (None, prompt, completion), r),
        call_ensures(approx_tokens, (prompt,), p),
        call_ensures(approx_tokens, (completion,), c),
    ensures
        r.source == Source::Estimated,
        r.usage.prompt_tokens == p,
        r.usage.completion_tokens == c,
        r.usage.prompt_tokens == 0 <==> prompt@.len() == 0,
        r.usage.completion_tokens == 0 <==> completion@.len() == 0,
        all_ascii(prompt@) ==> r.usage.prompt_tokens == at_most_u32((prompt@.len() + 3) / 4),
        all_ascii(completion@) ==> r.usage.completion_tokens == at_most_u32(
            (completion@.len() + 3) / 4,
        ),
        r.usage.total_tokens == at_most_u32((p + c) as nat),
{
    law_estimate_of_nothing(prompt@);
    law_estimate_of_nothing(completion@);
    if all_ascii(prompt@) {
        lemma_all_ascii(prompt@);
    }
    if all_ascii(completion@) {
        lemma_all_ascii(completion@);
    }
}

/// Counts that the gateway tells stand as it tells them, whatever the texts.
pub proof fn law_gateway_counts_stand(p: u32, c: u32, prompt: &str, completion: &str, r: Counted)
    requires
        call_ensures(build, (Some((p, c)), prompt, completion), r),
    ensures
        r.source == Source::Upstream,
        r.usage.prompt_tokens == p,
        r.usage.completion_tokens == c,
        r.usage.total_tokens == at_most_u32((p + c) as nat),
{
}

/// The log's line tells the counts, each behind its name.
pub proof fn law_the_line_tells_the_counts(c: &Counted, r: String)
    requires
        call_ensures(meta_line, (c,), r),
    ensures
        match c.source {
            Source::Estimated => {
                &&& contains(r@, "prompt≈"@ + dec(c.usage.prompt_tokens as nat))
                &&& contains(r@, "completion≈"@ + dec(c.usage.completion_tokens as nat))
            },
            Source::Upstream => {
                &&& contains(r@, "prompt "@ + dec(c.usage.prompt_tokens as nat))
                &&& contains(r@, "completion "@ + dec(c.usage.completion_tokens as nat))
                &&& contains(r@, "total "@ + dec(c.usage.total_tokens as nat))
            },
        },
{
    let p = dec(c.usage.prompt_tokens as nat);
    let q = dec(c.usage.completion_tokens as nat);
    let t = dec(c.usage.total_tokens as nat);
    reveal_strlit("prompt≈");
    reveal_strlit("completion≈");
    reveal_strlit("prompt ");
    reveal_strlit("completion ");
    reveal_strlit("total ");
    reveal_strlit("usage 추정치 · prompt≈");
    reveal_strlit(" · completion≈");
    reveal_strlit("usage 사내 제공 · prompt ");
    reveal_strlit(" · completion ");
    reveal_strlit(" · total ");
    match c.source {
        Source::Estimated => {
            let head = "usage 추정치 · prompt≈"@;
            let mid = " · completion≈"@;
            let end = " (사내가 실측값을 주지 않아 문자 기반 근사)"@;
            assert(head =~= head.take(12) + "prompt≈"@);
            assert(mid =~= mid.take(3) + "completion≈"@);
            lemma_holds(head.take(12), "prompt≈"@ + p, mid + q + end);
            assert(head.take(12) + ("prompt≈"@ + p) + (mid + q + end) =~= r@);
            lemma_holds(head + p + mid.take(3), "completion≈"@ + q, end);
            assert(head + p + mid.take(3) + ("completion≈"@ + q) + end =~= r@);
        },
        Source::Upstream => {
            let head = "usage 사내 제공 · prompt "@;
            let mid = " · completion "@;
            let last = " · total "@;
            assert(head =~= head.take(14) + "prompt "@);
            assert(mid =~= mid.take(3) + "completion "@);
            assert(last =~= last.take(3) + "total "@);
            lemma_holds(head.take(14), "prompt "@ + p, mid + q + last + t);
            assert(head.take(14) + ("prompt "@ + p) + (mid + q + last + t) =~= r@);
            lemma_holds(head + p + mid.take(3), "completion "@ + q, last + t);
            assert(head + p + mid.take(3) + ("completion "@ + q) + (last + t) =~= r@);
            lemma_holds(head + p + mid + q + last.take(3), "total "@ + t, seq![]);
            assert(head + p + mid + q + last.take(3) + ("total "@ + t) + Seq::<char>::empty() =~= r@);
        },
    }
}

} // verus!
