//! The request that is sent to the gateway.

use vstd::prelude::*;
use vstd::string::*;

use crate::number::{not_a_number, rank, rank_of, Mark, Real};
use crate::openai::ChatRequest;

verus! {

#[derive(Debug)]
pub struct MessagesRequest {
    pub model_ids: Vec<String>,
    pub contents: Vec<String>,
    pub is_stream: bool,
    pub system_prompt: Option<String>,
    pub llm_config: Option<LlmConfig>,
}

/// The gateway's settings. The penalty and `top_k` are spelled in two ways in what is
/// known of the gateway, so both spellings are sent.
#[derive(Debug)]
pub struct LlmConfig {
    pub temperature: Option<Real>,
    pub top_p: Option<Real>,
    pub repetition_penalty: Option<Real>,
    pub repetion_penalty: Option<Real>,
    pub top_k: Option<u32>,
    pub tok_k: Option<u32>,
    pub seed: Option<i64>,
    pub max_new_tokens: Option<u32>,
}

/// The gateway's limit of 1 is exceeded.
pub open spec fn too_hot(v: Real) -> bool {
    !not_a_number(v.bits) && rank(v.bits) > rank(Mark::One.bits())
}

/// `sent` is `v`, or 1 where `v` is above 1 or no number.
pub open spec fn is_clamped(v: Real, sent: Real) -> bool {
    if too_hot(v) || not_a_number(v.bits) {
        sent.bits == Mark::One.bits() && sent.shown@ == Mark::One.shown()
    } else {
        sent == v
    }
}

/// The temperature that the gateway is sent: at most 1.
pub fn clamp_temperature(requested: &Real) -> (r: Real)
    ensures
        is_clamped(*requested, r),
{
    let no_number = requested.bits % 0x8000_0000_0000_0000 > 0x7ff0_0000_0000_0000;
    if no_number || rank_of(requested.bits) > rank_of(Mark::One.to_bits()) {
        Real { bits: Mark::One.to_bits(), shown: Mark::One.text().to_owned() }
    } else {
        requested.copy()
    }
}

/// The temperature that was asked for and the one that is sent, where the latter is
/// less.
pub fn temperature_was_clamped(requested: &Option<Real>) -> (r: Option<(Real, Real)>)
    ensures
        match r {
            Some((asked, sent)) => *requested == Some(asked) && too_hot(asked) && is_clamped(
                asked,
                sent,
            ),
            None => *requested matches Some(v) ==> !too_hot(v),
        },
{
    match requested {
        Some(v) => {
            let no_number = v.bits % 0x8000_0000_0000_0000 > 0x7ff0_0000_0000_0000;
            if !no_number && rank_of(v.bits) > rank_of(Mark::One.to_bits()) {
                Some((v.copy(), clamp_temperature(v)))
            } else {
                None
            }
        },
        None => None,
    }
}

fn copy_real(v: &Option<Real>) -> (r: Option<Real>)
    ensures
        r == *v,
{
    match v {
        Some(x) => Some(x.copy()),
        None => None,
    }
}

impl LlmConfig {
    /// None of the settings is given.
    pub open spec fn asks_nothing(req: ChatRequest) -> bool {
        &&& req.temperature is None
        &&& req.top_p is None
        &&& req.frequency_penalty is None
        &&& req.top_k is None
        &&& req.seed is None
        &&& req.token_limit() is None
    }

    /// The settings that a request asks for.
    pub open spec fn carries(self, req: ChatRequest) -> bool {
        &&& match req.temperature {
            Some(t) => self.temperature matches Some(sent) && is_clamped(t, sent),
            None => self.temperature is None,
        }
        &&& self.top_p == req.top_p
        &&& self.repetition_penalty == req.frequency_penalty
        &&& self.repetion_penalty == req.frequency_penalty
        &&& self.top_k == req.top_k
        &&& self.tok_k == req.top_k
        &&& self.seed == req.seed
        &&& self.max_new_tokens == req.token_limit()
    }

    pub fn from_request(req: &ChatRequest) -> (r: Option<Self>)
        ensures
            match r {
                Some(cfg) => !LlmConfig::asks_nothing(*req) && cfg.carries(*req),
                None => LlmConfig::asks_nothing(*req),
            },
    {
        let cfg = LlmConfig {
            temperature: match &req.temperature {
                Some(t) => Some(clamp_temperature(t)),
                None => None,
            },
            top_p: copy_real(&req.top_p),
            repetition_penalty: copy_real(&req.frequency_penalty),
            repetion_penalty: copy_real(&req.frequency_penalty),
            top_k: req.top_k,
            tok_k: req.top_k,
            seed: req.seed,
            max_new_tokens: req.max_new_tokens(),
        };
        let empty = cfg.temperature.is_none() && cfg.top_p.is_none()
            && cfg.repetition_penalty.is_none() && cfg.top_k.is_none() && cfg.seed.is_none()
            && cfg.max_new_tokens.is_none();
        if empty {
            None
        } else {
            Some(cfg)
        }
    }
}

/// The gateway is never sent a temperature above 1.
pub proof fn law_temperature_is_within_the_limit(req: ChatRequest, cfg: LlmConfig)
    requires
        cfg.carries(req),
        cfg.temperature is Some,
    ensures
        !too_hot(cfg.temperature->0) && !not_a_number(cfg.temperature->0.bits),
{
}

} // verus!
