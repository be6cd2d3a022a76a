//! Who may call, and what the log shows of it.

use vstd::prelude::*;
use vstd::string::*;

use crate::config::{masked, Config};
use crate::openai::ErrorEnvelope;
use crate::text::{
    after_prefix, number_value, read_number, same, starts_with, trim, trimmed,
};

use super::envelope::{openai_type, type_view};

verus! {

/// The token in an `Authorization` header.
pub open spec fn presented(header: Seq<char>) -> Seq<char> {
    trim(
        if starts_with(header, "Bearer "@) {
            header.skip("Bearer "@.len() as int)
        } else {
            header
        },
    )
}

/// A caller with this header may call. Where tokens are asked for, an empty token
/// opens nothing.
pub open spec fn may_call(cfg: Config, header: Option<Seq<char>>) -> bool {
    let token = trim(cfg.issued_token@);
    !cfg.token_mode || match header {
        Some(h) => token.len() > 0 && presented(h) == token,
        None => false,
    }
}

/// Checks the `Authorization` header of a call.
pub fn authorize(cfg: &Config, authorization: Option<&str>) -> (r: Result<(), (u16, ErrorEnvelope)>)
    ensures
        match r {
            Ok(()) => may_call(
                *cfg,
                match authorization {
                    Some(s) => Some(s@),
                    None => None,
                },
            ),
            Err((status, env)) => {
                &&& !may_call(
                    *cfg,
                    match authorization {
                        Some(s) => Some(s@),
                        None => None,
                    },
                )
                &&& status == 401
                &&& env.says(
                    "토큰이 일치하지 않습니다. 발행된 토큰을 API 키로 입력하세요."@,
                    type_view(401),
                    None,
                    Some("invalid_api_key"@),
                )
            },
        },
{
    if !cfg.token_mode {
        return Ok(());
    }
    let expected = trimmed(cfg.issued_token.as_str());
    match authorization {
        Some(header) => {
            let token = match after_prefix(header, "Bearer ") {
                Some(rest) => trimmed(rest),
                None => trimmed(header),
            };
            if !expected.is_empty() && same(token, expected) {
                return Ok(());
            }
        },
        None => {},
    }
    Err(
        (
            401,
            ErrorEnvelope::new(
                "토큰이 일치하지 않습니다. 발행된 토큰을 API 키로 입력하세요.".to_owned(),
                openai_type(401),
                Some("invalid_api_key".to_owned()),
            ),
        ),
    )
}

pub open spec fn auth_line(token_mode: bool, has: bool) -> Seq<char> {
    if token_mode {
        if has {
            "Bearer ●●●●(검증됨)"@
        } else {
            "(없음 · 토큰 모드에서는 거부)"@
        }
    } else if has {
        "Bearer ●●●●(값 무시)"@
    } else {
        "(없음 · 무시)"@
    }
}

/// What the log shows of the `Authorization` header: not its value.
pub fn inbound_auth_line(cfg: &Config, has_authorization: bool) -> (r: &'static str)
    ensures
        r@ == auth_line(cfg.token_mode, has_authorization),
{
    if cfg.token_mode {
        if has_authorization {
            "Bearer ●●●●(검증됨)"
        } else {
            "(없음 · 토큰 모드에서는 거부)"
        }
    } else if has_authorization {
        "Bearer ●●●●(값 무시)"
    } else {
        "(없음 · 무시)"
    }
}

pub open spec fn headers_line(cfg: Config) -> Seq<char> {
    "x-fabrix-client "@ + masked(cfg.fabrix_client@) + " · x-openapi-token "@ + masked(
        cfg.openapi_token@,
    )
}

/// What the log shows of the headers that are sent on.
pub fn fabrix_headers_line(cfg: &Config) -> (r: String)
    ensures
        r@ == headers_line(*cfg),
{
    let mut out = "x-fabrix-client ".to_owned();
    out.append(Config::mask(cfg.fabrix_client.as_str()).as_str());
    out.append(" · x-openapi-token ");
    out.append(Config::mask(cfg.openapi_token.as_str()).as_str());
    out
}

/// What is done with a request's body.
#[derive(Debug, Clone, Copy, PartialEq, Eq, Structural)]
pub enum BodyPlan {
    /// It is read.
    Read,
    /// It is too large, but not by much: it is read and thrown away, so that the
    /// client gets to see why it is refused.
    Drain,
    /// It is not read at all.
    Refuse,
}

/// The length that a request declares.
pub open spec fn declared_length(header: Option<Seq<char>>) -> Option<nat> {
    match header {
        Some(h) => number_value(h, usize::MAX as nat),
        None => None,
    }
}

/// What is done with the body, going by its declared length.
pub fn body_plan(content_length: Option<&str>, limit: usize) -> (r: BodyPlan)
    ensures
        r == match declared_length(
            match content_length {
                Some(s) => Some(s@),
                None => None,
            },
        ) {
            Some(n) => if n > 4 * limit {
                BodyPlan::Refuse
            } else if n > limit {
                BodyPlan::Drain
            } else {
                BodyPlan::Read
            },
            None => BodyPlan::Read,
        },
{
    let declared = match content_length {
        Some(s) => read_number(s, usize::MAX as u64),
        None => None,
    };
    match declared {
        Some(n) => {
            if n as u128 > 4 * (limit as u128) {
                BodyPlan::Refuse
            } else if n > limit as u64 {
                BodyPlan::Drain
            } else {
                BodyPlan::Read
            }
        },
        None => BodyPlan::Read,
    }
}

/// Whether a body that was read is taken: it is if it was to be read, and fits.
pub fn body_fits(plan: BodyPlan, len: usize, limit: usize) -> (r: bool)
    ensures
        r == (plan == BodyPlan::Read && len <= limit),
{
    plan == BodyPlan::Read && len <= limit
}

/// The record of a response's status line and headers. Cookies are left out.
pub open spec fn head_view(status_line: Seq<char>, headers: Seq<(Seq<char>, Seq<char>)>) -> Seq<char>
    decreases headers.len(),
{
    if headers.len() == 0 {
        status_line + "\n"@
    } else {
        let front = head_view(status_line, headers.drop_last());
        let (name, value) = headers.last();
        if crate::text::lower(name) == "set-cookie"@ {
            front
        } else {
            front + name + ": "@ + value + "\n"@
        }
    }
}

pub open spec fn pair_views(list: Seq<(String, String)>) -> Seq<(Seq<char>, Seq<char>)> {
    list.map_values(|p: (String, String)| (p.0@, p.1@))
}

pub fn response_head(status_line: &str, headers: &Vec<(String, String)>) -> (r: String)
    ensures
        r@ == head_view(status_line@, pair_views(headers@)),
{
    let mut out = status_line.to_owned();
    out.append("\n");
    let ghost all = pair_views(headers@);
    let mut i: usize = 0;
    assert(all.take(0) =~= seq![]);
    while i < headers.len()
        invariant
            i <= headers@.len() == all.len(),
            all == pair_views(headers@),
            out@ == head_view(status_line@, all.take(i as int)),
        decreases headers@.len() - i,
    {
        proof {
            assert(all.take(i + 1).drop_last() =~= all.take(i as int));
            assert(all.take(i + 1).last() == all[i as int]);
        }
        if !same(crate::text::lowered(headers[i].0.as_str()).as_str(), "set-cookie") {
            out.append(headers[i].0.as_str());
            out.append(": ");
            out.append(headers[i].1.as_str());
            out.append("\n");
        }
        i += 1;
    }
    assert(all.take(all.len() as int) =~= all);
    out
}

} // verus!
