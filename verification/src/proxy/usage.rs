//! Token counts: the gateway's own where it tells them, else an estimate.

use vstd::prelude::*;
use vstd::string::*;

use crate::openai::Usage;
use crate::text::{chars_of, dec, dec_u64};

verus! {

/// Where a count comes from.
#[derive(Debug, Clone, Copy, PartialEq, Eq, Structural)]
pub enum Source {
    Upstream,
    Estimated,
}

impl Source {
    pub open spec fn header_view(self) -> Seq<char> {
        match self {
            Source::Upstream => "upstream"@,
            Source::Estimated => "estimated"@,
        }
    }

    /// The value of the `x-fabrix-usage` header.
    pub fn header_value(self) -> (r: &'static str)
        ensures
            r@ == self.header_view(),
    {
        match self {
            Source::Upstream => "upstream",
            Source::Estimated => "estimated",
        }
    }
}

#[derive(Debug, Clone, Copy)]
pub struct Counted {
    pub usage: Usage,
    pub source: Source,
}

/// How many characters of a text are ASCII.
pub open spec fn ascii_count(s: Seq<char>) -> nat
    decreases s.len(),
{
    if s.len() == 0 {
        0
    } else {
        ascii_count(s.drop_last()) + if (s.last() as u32) < 128 {
            1nat
        } else {
            0
        }
    }
}

/// A token for every four ASCII characters, begun ones included, and one for every
/// other character.
pub open spec fn estimate(s: Seq<char>) -> nat {
    (ascii_count(s) + 3) / 4 + (s.len() - ascii_count(s)) as nat
}

pub open spec fn approx(s: Seq<char>) -> u32 {
    if estimate(s) <= u32::MAX {
        estimate(s) as u32
    } else {
        u32::MAX
    }
}

pub proof fn lemma_ascii_count(s: Seq<char>)
    ensures
        ascii_count(s) <= s.len(),
    decreases s.len(),
{
    if s.len() > 0 {
        lemma_ascii_count(s.drop_last());
    }
}

fn ascii_char(c: char) -> (r: bool)
    ensures
        r == ((c as u32) < 128),
{
    (c as u32) < 128
}

pub fn approx_tokens(text: &str) -> (r: u32)
    ensures
        r == approx(text@),
{
    let cs = chars_of(text);
    let n: usize = cs.len();
    let mut ascii: u64 = 0;
    let mut wide: u64 = 0;
    let mut i: usize = 0;
    assert(cs@.take(0) =~= seq![]);
    while i < n
        invariant
            i <= n == cs@.len(),
            ascii == ascii_count(cs@.take(i as int)),
            ascii + wide == i,
        decreases n - i,
    {
        proof {
            assert(cs@.take(i + 1).drop_last() =~= cs@.take(i as int));
            assert(cs@.take(i + 1).last() == cs@[i as int]);
        }
        if ascii_char(cs[i]) {
            ascii += 1;
        } else {
            wide += 1;
        }
        i += 1;
    }
    assert(cs@.take(n as int) =~= cs@);
    let begun: u64 = if ascii % 4 == 0 {
        0
    } else {
        1
    };
    let tokens: u64 = ascii / 4 + begun + wide;
    assert(tokens == estimate(text@));
    if tokens > 0xffff_ffff {
        u32::MAX
    } else {
        tokens as u32
    }
}

pub open spec fn saturating_sum(a: u32, b: u32) -> u32 {
    if a + b > u32::MAX {
        u32::MAX
    } else {
        (a + b) as u32
    }
}

pub open spec fn usage_of(prompt: u32, completion: u32) -> Usage {
    Usage {
        prompt_tokens: prompt,
        completion_tokens: completion,
        total_tokens: saturating_sum(prompt, completion),
    }
}

pub open spec fn counted(
    upstream: Option<(u32, u32)>,
    prompt: Seq<char>,
    completion: Seq<char>,
) -> Counted {
    match upstream {
        Some((p, c)) => Counted { usage: usage_of(p, c), source: Source::Upstream },
        None => Counted {
            usage: usage_of(approx(prompt), approx(completion)),
            source: Source::Estimated,
        },
    }
}

/// The one place in which it is decided which count is used.
pub fn build(upstream: Option<(u32, u32)>, prompt: &str, completion: &str) -> (r: Counted)
    ensures
        r == counted(upstream, prompt@, completion@),
{
    match upstream {
        Some((prompt_tokens, completion_tokens)) => Counted {
            usage: Usage {
                prompt_tokens,
                completion_tokens,
                total_tokens: prompt_tokens.saturating_add(completion_tokens),
            },
            source: Source::Upstream,
        },
        None => {
            let prompt_tokens: u32 = approx_tokens(prompt);
            let completion_tokens: u32 = approx_tokens(completion);
            Counted {
                usage: Usage {
                    prompt_tokens,
                    completion_tokens,
                    total_tokens: prompt_tokens.saturating_add(completion_tokens),
                },
                source: Source::Estimated,
            }
        },
    }
}

/// The log's line on the counts. It says so where they are an estimate.
pub open spec fn meta_view(c: Counted) -> Seq<char> {
    match c.source {
        Source::Upstream => "usage 사내 제공 · prompt "@ + dec(c.usage.prompt_tokens as nat)
            + " · completion "@ + dec(c.usage.completion_tokens as nat) + " · total "@ + dec(
            c.usage.total_tokens as nat,
        ),
        Source::Estimated => "usage 추정치 · prompt≈"@ + dec(c.usage.prompt_tokens as nat)
            + " · completion≈"@ + dec(c.usage.completion_tokens as nat)
            + " (사내가 실측값을 주지 않아 문자 기반 근사)"@,
    }
}

pub fn meta_line(counted: &Counted) -> (r: String)
    ensures
        r@ == meta_view(*counted),
{
    let u = counted.usage;
    match counted.source {
        Source::Upstream => {
            let mut out = "usage 사내 제공 · prompt ".to_owned();
            out.append(dec_u64(u.prompt_tokens as u64).as_str());
            out.append(" · completion ");
            out.append(dec_u64(u.completion_tokens as u64).as_str());
            out.append(" · total ");
            out.append(dec_u64(u.total_tokens as u64).as_str());
            out
        },
        Source::Estimated => {
            let mut out = "usage 추정치 · prompt≈".to_owned();
            out.append(dec_u64(u.prompt_tokens as u64).as_str());
            out.append(" · completion≈");
            out.append(dec_u64(u.completion_tokens as u64).as_str());
            out.append(" (사내가 실측값을 주지 않아 문자 기반 근사)");
            out
        },
    }
}

// ───────────────────────── laws ─────────────────────────

pub proof fn lemma_ascii_concat(a: Seq<char>, b: Seq<char>)
    ensures
        ascii_count(a + b) == ascii_count(a) + ascii_count(b),
    decreases b.len(),
{
    if b.len() == 0 {
        assert(a + b =~= a);
    } else {
        lemma_ascii_concat(a, b.drop_last());
        assert((a + b).drop_last() =~= a + b.drop_last());
    }
}

/// A longer text is never estimated at less.
pub proof fn law_estimate_grows(a: Seq<char>, b: Seq<char>)
    ensures
        approx(a) <= approx(a + b),
{
    lemma_ascii_concat(a, b);
    lemma_ascii_count(a);
    lemma_ascii_count(b);
    assert(estimate(a) <= estimate(a + b));
}

/// No text has no tokens, and any text has at least one.
pub proof fn law_estimate_of_nothing(s: Seq<char>)
    ensures
        approx(s) == 0 <==> s.len() == 0,
{
    lemma_ascii_count(s);
}

} // verus!
