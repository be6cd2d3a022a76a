//! Token counts.

use fabrix_proxy::proxy::usage::{approx_tokens, build, meta_line, Source};

#[test]
fn ascii_and_wide_characters_count_differently() {
    assert_eq!(approx_tokens("abcd"), 1);
    assert_eq!(approx_tokens("abcdefgh"), 2);
    assert_eq!(approx_tokens("abcde"), 2);
    assert_eq!(approx_tokens("안녕"), 2);
    assert_eq!(approx_tokens("abcd안녕"), 3);
}

#[test]
fn empty_is_zero_but_anything_is_at_least_one() {
    assert_eq!(approx_tokens(""), 0);
    assert_eq!(approx_tokens("a"), 1);
    assert_eq!(approx_tokens(" "), 1);
    assert_eq!(approx_tokens("가"), 1);
}

#[test]
fn estimates_grow_with_length() {
    let short = approx_tokens("연차 규정");
    let long = approx_tokens("연차 규정을 아주 길게 설명하는 문장입니다. 계속 이어집니다.");
    assert!(long > short, "{long} > {short}");
}

#[test]
fn totals_add_up_and_source_is_estimated() {
    let c = build(None, "질문입니다", "답변입니다");
    assert_eq!(c.source, Source::Estimated);
    assert_eq!(c.usage.total_tokens, c.usage.prompt_tokens + c.usage.completion_tokens);
    assert!(c.usage.prompt_tokens > 0);
    assert!(c.usage.completion_tokens > 0);
}

#[test]
fn upstream_counts_win_over_the_estimate() {
    let c = build(Some((812, 240)), "무시됨", "무시됨");
    assert_eq!(c.source, Source::Upstream);
    assert_eq!(c.usage.prompt_tokens, 812);
    assert_eq!(c.usage.completion_tokens, 240);
    assert_eq!(c.usage.total_tokens, 1052);
}

#[test]
fn meta_line_says_estimate_out_loud() {
    let est = meta_line(&build(None, "질문", "답변"));
    assert!(est.contains("추정치"), "{est}");
    assert!(est.contains("실측값을 주지 않아"), "{est}");

    let up = meta_line(&build(Some((10, 3)), "", ""));
    assert!(up.contains("사내 제공"), "{up}");
    assert!(!up.contains("추정"), "{up}");
}

#[test]
fn header_values_match_the_existing_convention() {
    assert_eq!(Source::Estimated.header_value(), "estimated");
    assert_eq!(Source::Upstream.header_value(), "upstream");
}
