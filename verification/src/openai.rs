//! The OpenAI-compatible schema that the proxy exposes.

use vstd::prelude::*;
use vstd::string::*;

use crate::json::{json_text, json_view, json_views, lemma_json_views, Json, JsonView};
use crate::number::Real;
use crate::text::{
    after_prefix, blank, contains, dec, includes, is_blank, is_digit, join, joined,
    lemma_dec_digits, lemma_dec_value, lemma_find_is, lemma_no_white, lower, lower_char, lowered,
    occurs_at, read_u32, same, same_ignoring_case, split_at_char, split_once, starts_with, trim,
    trimmed, u32_value, views,
};

verus! {

// ───────────────────────── requests ─────────────────────────

#[derive(Debug)]
pub struct ChatRequest {
    pub model: Option<String>,
    pub messages: Vec<Message>,
    pub stream: Option<bool>,
    pub temperature: Option<Real>,
    pub top_p: Option<Real>,
    pub max_tokens: Option<u32>,
    /// The name that newer clients use for `max_tokens`.
    pub max_completion_tokens: Option<u32>,
    pub seed: Option<i64>,
    pub frequency_penalty: Option<Real>,
    pub top_k: Option<u32>,
    pub tools: Option<Vec<Tool>>,
    pub tool_choice: Option<ToolChoice>,
    pub parallel_tool_calls: Option<bool>,
    /// The name of `tools` in older clients.
    pub functions: Option<Vec<FunctionDef>>,
    // Fields that the gateway has no place for. They are taken in so that they can
    // be checked, and so that the log can say that they were left out.
    pub n: Option<u32>,
    pub stop: Option<Stop>,
    pub presence_penalty: Option<Real>,
    pub logit_bias: Option<Json>,
    pub user: Option<Json>,
    pub response_format: Option<ResponseFormat>,
    pub stream_options: Option<StreamOptions>,
    pub logprobs: Option<LogProbsFlag>,
    pub top_logprobs: Option<u32>,
    pub metadata: Option<Json>,
    pub store: Option<Json>,
    pub service_tier: Option<Json>,
}

/// `stop`: one string, up to four of them, or something that is not understood.
#[derive(Debug)]
pub enum Stop {
    One(String),
    Many(Vec<String>),
    Other(Json),
}

#[derive(Debug)]
pub struct StreamOptions {
    pub include_usage: Option<bool>,
}

#[derive(Debug)]
pub struct ResponseFormat {
    pub kind: Option<String>,
    pub json_schema: Option<Json>,
}

#[derive(Debug)]
pub enum LogProbsFlag {
    Flag(bool),
    Count(u32),
    Other(Json),
}

#[derive(Debug)]
pub struct Tool {
    pub kind: Option<String>,
    pub function: Option<FunctionDef>,
}

#[derive(Debug)]
pub struct FunctionDef {
    pub name: String,
    pub description: Option<String>,
    /// A JSON Schema, handed on as it is.
    pub parameters: Option<Json>,
    pub strict: Option<bool>,
}

#[derive(Debug, Clone, PartialEq)]
pub struct ToolCall {
    pub id: String,
    pub kind: String,
    pub function: ToolCallFunction,
}

#[derive(Debug, Clone, PartialEq)]
pub struct ToolCallFunction {
    pub name: String,
    /// JSON text.
    pub arguments: String,
}

#[derive(Debug)]
pub enum ToolChoice {
    /// `"auto"`, `"none"`, `"required"`.
    Mode(String),
    Named { kind: Option<String>, function: Option<NamedFunction> },
    /// Anything else; it must not fail the request.
    Other(Json),
}

#[derive(Debug)]
pub struct NamedFunction {
    pub name: String,
}

#[derive(Debug, Clone, PartialEq, Eq)]
pub enum ToolChoiceMode {
    Auto,
    Off,
    Required,
    Function(String),
}

#[derive(Debug)]
pub struct Message {
    pub role: String,
    /// Absent in an assistant turn that holds tool calls only.
    pub content: Option<Content>,
    pub name: Option<String>,
    pub tool_calls: Option<Vec<ToolCall>>,
    pub tool_call_id: Option<String>,
}

impl Default for Message {
    fn default() -> (r: Message)
        ensures
            r.role@.len() == 0,
            r.content is None,
            r.name is None,
            r.tool_calls is None,
            r.tool_call_id is None,
    {
        Message {
            role: String::new(),
            content: None,
            name: None,
            tool_calls: None,
            tool_call_id: None,
        }
    }
}

#[derive(Debug)]
pub enum Content {
    Text(String),
    /// The parts as they came: those without text are not lost.
    Parts(Vec<Json>),
}

// ───────────────────────── stop and logprobs ─────────────────────────

/// The strings of a list that are not empty.
pub open spec fn non_empty(list: Seq<Seq<char>>) -> Seq<Seq<char>> {
    list.filter(|s: Seq<char>| s.len() > 0)
}

impl Stop {
    pub open spec fn sequences(self) -> Seq<Seq<char>> {
        match self {
            Stop::One(s) => non_empty(seq![s@]),
            Stop::Many(v) => non_empty(views(v@)),
            Stop::Other(_) => seq![],
        }
    }

    /// The sequences that can be used: all that are not empty.
    pub fn list(&self) -> (r: Vec<String>)
        ensures
            views(r@) == self.sequences(),
    {
        let mut out: Vec<String> = Vec::new();
        match self {
            Stop::One(s) => {
                if !s.as_str().is_empty() {
                    out.push(s.clone());
                }
                proof {
                    reveal_with_fuel(Seq::filter, 2);
                    assert(seq![s@].drop_last() =~= seq![]);
                    assert(views(out@) =~= self.sequences());
                }
            },
            Stop::Many(v) => {
                let mut i: usize = 0;
                proof {
                    reveal(Seq::filter);
                    assert(views(v@).take(0) =~= seq![]);
                    assert(views(out@) =~= seq![]);
                }
                while i < v.len()
                    invariant
                        i <= v@.len(),
                        views(out@) == non_empty(views(v@).take(i as int)),
                    decreases v@.len() - i,
                {
                    let ghost before = out@;
                    if !v[i].as_str().is_empty() {
                        out.push(v[i].clone());
                        assert(views(out@) =~= views(before).push(v@[i as int]@));
                    }
                    proof {
                        reveal(Seq::filter);
                        let next = views(v@).take(i + 1);
                        assert(next.drop_last() =~= views(v@).take(i as int));
                        assert(next.last() == v@[i as int]@);
                    }
                    i += 1;
                }
                assert(views(v@).take(v@.len() as int) =~= views(v@));
            },
            Stop::Other(_) => {
                assert(views(out@) =~= seq![]);
            },
        }
        out
    }

    /// How many sequences were sent, empty ones included.
    pub fn raw_len(&self) -> (r: usize)
        ensures
            r == match *self {
                Stop::One(_) => 1,
                Stop::Many(v) => v@.len() as int,
                Stop::Other(_) => 0,
            },
    {
        match self {
            Stop::One(_) => 1,
            Stop::Many(v) => v.len(),
            Stop::Other(_) => 0,
        }
    }
}

impl LogProbsFlag {
    pub fn wants(&self) -> (r: bool)
        ensures
            r == match *self {
                LogProbsFlag::Flag(b) => b,
                LogProbsFlag::Count(n) => n > 0,
                LogProbsFlag::Other(_) => false,
            },
    {
        match self {
            LogProbsFlag::Flag(b) => *b,
            LogProbsFlag::Count(n) => *n > 0,
            LogProbsFlag::Other(_) => false,
        }
    }
}

// ───────────────────────── tools ─────────────────────────

/// The functions that a list of tools defines.
pub open spec fn tool_functions(tools: Seq<Tool>) -> Seq<FunctionDef>
    decreases tools.len(),
{
    if tools.len() == 0 {
        seq![]
    } else {
        match tools.last().function {
            Some(f) => tool_functions(tools.drop_last()).push(f),
            None => tool_functions(tools.drop_last()),
        }
    }
}

/// The functions of a list that have a name.
pub open spec fn named(list: Seq<FunctionDef>) -> Seq<FunctionDef> {
    list.filter(|f: FunctionDef| !blank(f.name@))
}

pub open spec fn seq_of<T>(list: Option<Vec<T>>) -> Seq<T> {
    match list {
        Some(v) => v@,
        None => seq![],
    }
}

/// What a reference refers to, for each of a list.
pub open spec fn targets(list: Seq<&FunctionDef>) -> Seq<FunctionDef> {
    list.map_values(|f: &FunctionDef| *f)
}

/// A tool choice, by its parts as text.
pub enum ModeView {
    Auto,
    Off,
    Required,
    Function(Seq<char>),
}

impl View for ToolChoiceMode {
    type V = ModeView;

    open spec fn view(&self) -> ModeView {
        match *self {
            ToolChoiceMode::Auto => ModeView::Auto,
            ToolChoiceMode::Off => ModeView::Off,
            ToolChoiceMode::Required => ModeView::Required,
            ToolChoiceMode::Function(name) => ModeView::Function(name@),
        }
    }
}

impl ToolChoiceMode {
    pub fn is_off(&self) -> (r: bool)
        ensures
            r == (self@ is Off),
    {
        match self {
            ToolChoiceMode::Off => true,
            _ => false,
        }
    }
}

impl ToolChoice {
    pub open spec fn mode_view(self) -> ModeView {
        match self {
            ToolChoice::Mode(s) => {
                let word = lower(trim(s@));
                if word == "none"@ {
                    ModeView::Off
                } else if word == "required"@ || word == "any"@ {
                    ModeView::Required
                } else {
                    ModeView::Auto
                }
            },
            ToolChoice::Named { kind: _, function: Some(f) } => if blank(f.name@) {
                ModeView::Auto
            } else {
                ModeView::Function(trim(f.name@))
            },
            _ => ModeView::Auto,
        }
    }

    pub fn mode(&self) -> (r: ToolChoiceMode)
        ensures
            r@ == self.mode_view(),
    {
        match self {
            ToolChoice::Mode(s) => {
                let word = lowered(trimmed(s.as_str()));
                if same(word.as_str(), "none") {
                    ToolChoiceMode::Off
                } else if same(word.as_str(), "required") || same(word.as_str(), "any") {
                    ToolChoiceMode::Required
                } else {
                    ToolChoiceMode::Auto
                }
            },
            ToolChoice::Named { kind: _, function } => match function {
                Some(f) => {
                    if is_blank(f.name.as_str()) {
                        ToolChoiceMode::Auto
                    } else {
                        ToolChoiceMode::Function(trimmed(f.name.as_str()).to_owned())
                    }
                },
                None => ToolChoiceMode::Auto,
            },
            ToolChoice::Other(_) => ToolChoiceMode::Auto,
        }
    }
}

impl ChatRequest {
    pub open spec fn streams(self) -> bool {
        self.stream == Some(true)
    }

    pub fn is_stream(&self) -> (r: bool)
        ensures
            r == self.streams(),
    {
        match self.stream {
            Some(b) => b,
            None => false,
        }
    }

    pub open spec fn token_limit(self) -> Option<u32> {
        if self.max_tokens is Some {
            self.max_tokens
        } else {
            self.max_completion_tokens
        }
    }

    pub fn max_new_tokens(&self) -> (r: Option<u32>)
        ensures
            r == self.token_limit(),
    {
        match self.max_tokens {
            Some(n) => Some(n),
            None => self.max_completion_tokens,
        }
    }

    /// The functions of `tools`, then those of `functions`; only those with a name.
    pub open spec fn declared(self) -> Seq<FunctionDef> {
        named(tool_functions(seq_of(self.tools)) + seq_of(self.functions))
    }

    pub fn declared_tools(&self) -> (r: Vec<&FunctionDef>)
        ensures
            targets(r@) == self.declared(),
    {
        let mut out: Vec<&FunctionDef> = Vec::new();
        let ghost all = seq_of(self.tools);
        let ghost mut seen: Seq<FunctionDef> = seq![];
        proof {
            reveal(Seq::filter);
            assert(targets(out@) =~= named(seen));
        }
        match &self.tools {
            Some(tools) => {
                let mut i: usize = 0;
                assert(all.take(0) =~= seq![]);
                while i < tools.len()
                    invariant
                        i <= tools@.len(),
                        all == tools@,
                        seen == tool_functions(all.take(i as int)),
                        targets(out@) == named(seen),
                    decreases tools@.len() - i,
                {
                    proof {
                        assert(all.take(i + 1).drop_last() =~= all.take(i as int));
                        reveal(Seq::filter);
                    }
                    match &tools[i].function {
                        Some(f) => {
                            proof {
                                let next = seen.push(*f);
                                assert(next.drop_last() =~= seen);
                                seen = next;
                            }
                            if !is_blank(f.name.as_str()) {
                                let ghost before = out@;
                                out.push(f);
                                assert(targets(out@) =~= targets(before).push(*f));
                            }
                        },
                        None => {},
                    }
                    i += 1;
                }
                assert(all.take(all.len() as int) =~= all);
            },
            None => {},
        }
        let ghost first = seen;
        let ghost more = seq_of(self.functions);
        assert(first + more.take(0) =~= first);
        match &self.functions {
            Some(functions) => {
                let mut i: usize = 0;
                while i < functions.len()
                    invariant
                        i <= functions@.len(),
                        more == functions@,
                        targets(out@) == named(first + more.take(i as int)),
                    decreases functions@.len() - i,
                {
                    proof {
                        let next = first + more.take(i + 1);
                        assert(next.drop_last() =~= first + more.take(i as int));
                        assert(next.last() == functions@[i as int]);
                        reveal(Seq::filter);
                    }
                    if !is_blank(functions[i].name.as_str()) {
                        let ghost before = out@;
                        out.push(&functions[i]);
                        assert(targets(out@) =~= targets(before).push(functions@[i as int]));
                    }
                    i += 1;
                }
                assert(more.take(more.len() as int) =~= more);
            },
            None => {
                assert(first + more =~= first);
            },
        }
        out
    }

    pub open spec fn mode_view(self) -> ModeView {
        match self.tool_choice {
            Some(choice) => choice.mode_view(),
            None => ModeView::Auto,
        }
    }

    pub fn tool_mode(&self) -> (r: ToolChoiceMode)
        ensures
            r@ == self.mode_view(),
    {
        match &self.tool_choice {
            Some(choice) => choice.mode(),
            None => ToolChoiceMode::Auto,
        }
    }

    pub open spec fn uses_tools(self) -> bool {
        self.declared().len() > 0 && !(self.mode_view() is Off)
    }

    /// Whether tool calls are to be emulated for this request.
    pub fn wants_tools(&self) -> (r: bool)
        ensures
            r == self.uses_tools(),
    {
        let declared = self.declared_tools();
        assert(targets(declared@).len() == declared@.len());
        declared.len() > 0 && !self.tool_mode().is_off()
    }

    pub open spec fn asks_for_usage(self) -> bool {
        self.stream_options matches Some(o) && o.include_usage == Some(true)
    }

    /// Whether the client opted in to a usage chunk at the end of the stream.
    pub fn wants_usage_chunk(&self) -> (r: bool)
        ensures
            r == self.asks_for_usage(),
    {
        match &self.stream_options {
            Some(o) => match o.include_usage {
                Some(b) => b,
                None => false,
            },
            None => false,
        }
    }
}

// ───────────────────────── messages ─────────────────────────

/// The text of one content part: a string, or the `text` of an object.
pub open spec fn part_text(part: JsonView) -> Option<Seq<char>> {
    match part {
        JsonView::Text(s) => Some(s),
        _ => part.get_text("text"@),
    }
}

/// The texts of those parts that have one.
pub open spec fn part_texts(parts: Seq<JsonView>) -> Seq<Seq<char>>
    decreases parts.len(),
{
    if parts.len() == 0 {
        seq![]
    } else {
        match part_text(parts.last()) {
            Some(t) => part_texts(parts.drop_last()).push(t),
            None => part_texts(parts.drop_last()),
        }
    }
}

fn text_of_part(part: &Json) -> (r: Option<String>)
    ensures
        match r {
            Some(t) => part_text(part@) == Some(t@),
            None => part_text(part@) is None,
        },
{
    match part {
        Json::Text(s) => Some(s.clone()),
        _ => match part.get_text("text") {
            Some(s) => Some(s.to_owned()),
            None => None,
        },
    }
}

/// One content part is an image, in any of the shapes that clients use.
pub open spec fn image_part(part: JsonView) -> bool {
    let kind = part.get_text("type"@);
    let media = if part.get("mediaType"@) is Some {
        part.get_text("mediaType"@)
    } else {
        part.get_text("media_type"@)
    };
    &&& part is Object
    &&& {
        ||| kind == Some("image_url"@)
        ||| kind == Some("input_image"@)
        ||| kind == Some("image"@)
        ||| part.get("image_url"@) is Some
        ||| media matches Some(m) && starts_with(m, "image/"@)
    }
}

pub fn is_image_part(part: &Json) -> (r: bool)
    ensures
        r == image_part(part@),
{
    match part {
        Json::Object(_) => {},
        _ => {
            return false;
        },
    }
    match part.get_text("type") {
        Some(kind) => {
            if same(kind, "image_url") || same(kind, "input_image") || same(kind, "image") {
                return true;
            }
        },
        None => {},
    }
    if part.get("image_url").is_some() {
        return true;
    }
    let media = match part.get("mediaType") {
        Some(m) => m.as_text(),
        None => part.get_text("media_type"),
    };
    match media {
        Some(m) => after_prefix(m, "image/").is_some(),
        None => false,
    }
}

/// How many of the parts are images.
pub open spec fn image_count(parts: Seq<JsonView>) -> nat
    decreases parts.len(),
{
    if parts.len() == 0 {
        0
    } else {
        image_count(parts.drop_last()) + if image_part(parts.last()) {
            1nat
        } else {
            0
        }
    }
}

/// The JSON texts of the parts.
pub open spec fn part_sources(parts: Seq<JsonView>) -> Seq<Seq<char>> {
    parts.map_values(|p: JsonView| json_text(p))
}

impl Message {
    /// The parts of a content that is given in parts.
    pub open spec fn parts(self) -> Seq<JsonView> {
        match self.content {
            Some(Content::Parts(parts)) => json_views(parts@),
            _ => seq![],
        }
    }

    /// The text of the message. Of parts, those with text, one to a line.
    pub open spec fn text_view(self) -> Seq<char> {
        match self.content {
            None => seq![],
            Some(Content::Text(t)) => t@,
            Some(Content::Parts(_)) => join(part_texts(self.parts()), "\n"@),
        }
    }

    /// The text of a tool's result: the message's text or, where it has none, its
    /// parts as JSON, one to a line.
    pub open spec fn result_view(self) -> Seq<char> {
        if !blank(self.text_view()) {
            self.text_view()
        } else if self.content matches Some(Content::Parts(_)) {
            join(part_sources(self.parts()), "\n"@)
        } else {
            seq![]
        }
    }

    pub fn tool_calls(&self) -> (r: &[ToolCall])
        ensures
            r@ == seq_of(self.tool_calls),
    {
        match &self.tool_calls {
            Some(calls) => calls.as_slice(),
            None => &[],
        }
    }

    pub fn text(&self) -> (r: String)
        ensures
            r@ == self.text_view(),
    {
        match &self.content {
            None => String::new(),
            Some(Content::Text(t)) => t.clone(),
            Some(Content::Parts(parts)) => {
                let mut texts: Vec<String> = Vec::new();
                let mut i: usize = 0;
                let ghost all = json_views(parts@);
                proof {
                    lemma_json_views(parts@);
                    assert(all.take(0) =~= seq![]);
                    assert(views(texts@) =~= seq![]);
                }
                while i < parts.len()
                    invariant
                        i <= parts@.len() == all.len(),
                        all == json_views(parts@),
                        forall|k: int| 0 <= k < all.len() ==> #[trigger] all[k] == json_view(parts@[k]),
                        views(texts@) == part_texts(all.take(i as int)),
                    decreases parts@.len() - i,
                {
                    let ghost before = texts@;
                    proof {
                        assert(all.take(i + 1).drop_last() =~= all.take(i as int));
                        assert(all.take(i + 1).last() == all[i as int]);
                    }
                    match text_of_part(&parts[i]) {
                        Some(t) => {
                            texts.push(t);
                            assert(views(texts@) =~= views(before).push(t@));
                        },
                        None => {},
                    }
                    i += 1;
                }
                assert(all.take(all.len() as int) =~= all);
                joined(&texts, "\n")
            },
        }
    }

    /// How many image parts are left out, the gateway taking none.
    pub fn image_parts(&self) -> (r: usize)
        ensures
            r == image_count(self.parts()),
    {
        match &self.content {
            Some(Content::Parts(parts)) => {
                let mut count: usize = 0;
                let mut i: usize = 0;
                let ghost all = json_views(parts@);
                proof {
                    lemma_json_views(parts@);
                    assert(all.take(0) =~= seq![]);
                }
                while i < parts.len()
                    invariant
                        i <= parts@.len() == all.len(),
                        forall|k: int| 0 <= k < all.len() ==> #[trigger] all[k] == json_view(parts@[k]),
                        count <= i,
                        count == image_count(all.take(i as int)),
                    decreases parts@.len() - i,
                {
                    proof {
                        assert(all.take(i + 1).drop_last() =~= all.take(i as int));
                        assert(all.take(i + 1).last() == all[i as int]);
                    }
                    if is_image_part(&parts[i]) {
                        count += 1;
                    }
                    i += 1;
                }
                assert(all.take(all.len() as int) =~= all);
                count
            },
            _ => 0,
        }
    }

    /// Whether there is text that is worth sending.
    pub fn has_text(&self) -> (r: bool)
        ensures
            r == !blank(self.text_view()),
    {
        !is_blank(self.text().as_str())
    }

    /// The text of a `tool` message. A result that is given in parts without text
    /// is not lost: it is handed on as JSON.
    pub fn tool_result_text(&self) -> (r: String)
        ensures
            r@ == self.result_view(),
    {
        let text = self.text();
        if !is_blank(text.as_str()) {
            return text;
        }
        match &self.content {
            Some(Content::Parts(parts)) => {
                let mut sources: Vec<String> = Vec::new();
                let mut i: usize = 0;
                let ghost all = json_views(parts@);
                proof {
                    lemma_json_views(parts@);
                }
                while i < parts.len()
                    invariant
                        i <= parts@.len() == all.len(),
                        forall|k: int| 0 <= k < all.len() ==> #[trigger] all[k] == json_view(parts@[k]),
                        sources@.len() == i,
                        forall|k: int| 0 <= k < i ==> (#[trigger] sources@[k])@ == json_text(all[k]),
                    decreases parts@.len() - i,
                {
                    sources.push(parts[i].compact());
                    i += 1;
                }
                assert(views(sources@) =~= part_sources(all));
                joined(&sources, "\n")
            },
            _ => String::new(),
        }
    }
}

/// A call's arguments as JSON text: a string as it is, nothing as an empty object,
/// anything else as its JSON.
pub fn arguments_text(raw: &Json) -> (r: String)
    ensures
        r@ == match raw@ {
            JsonView::Text(s) => s,
            JsonView::Null => "{}"@,
            v => json_text(v),
        },
{
    match raw {
        Json::Text(s) => s.clone(),
        Json::Null => "{}".to_owned(),
        _ => raw.compact(),
    }
}

// ───────────────────────── responses ─────────────────────────

#[derive(Debug)]
pub struct ModelList {
    pub object: &'static str,
    pub data: Vec<ModelCard>,
}

#[derive(Debug)]
pub struct ModelCard {
    pub id: String,
    pub object: &'static str,
    pub created: i64,
    pub owned_by: &'static str,
}

#[derive(Debug)]
pub struct ChatCompletion {
    pub id: String,
    pub object: &'static str,
    pub created: i64,
    pub model: String,
    pub choices: Vec<Choice>,
    pub usage: Option<Usage>,
    pub system_fingerprint: Option<String>,
}

#[derive(Debug)]
pub struct Choice {
    pub index: u32,
    pub message: AssistantMessage,
    pub finish_reason: Option<String>,
    /// Always absent, yet always written out.
    pub logprobs: Option<Json>,
}

#[derive(Debug)]
pub struct AssistantMessage {
    pub role: &'static str,
    /// Absent in a turn that holds tool calls only, and then written out as null.
    pub content: Option<String>,
    pub reasoning_content: Option<String>,
    pub tool_calls: Option<Vec<ToolCall>>,
}

#[derive(Debug, Clone, Copy, PartialEq, Eq)]
pub struct Usage {
    pub prompt_tokens: u32,
    pub completion_tokens: u32,
    pub total_tokens: u32,
}

#[derive(Debug)]
pub struct ChatChunk {
    pub id: String,
    pub object: &'static str,
    pub created: i64,
    pub model: String,
    pub choices: Vec<ChunkChoice>,
    pub usage: Option<Usage>,
    pub system_fingerprint: Option<String>,
}

#[derive(Debug)]
pub struct ChunkChoice {
    pub index: u32,
    pub delta: Delta,
    pub finish_reason: Option<String>,
}

#[derive(Debug)]
pub struct Delta {
    pub role: Option<&'static str>,
    pub content: Option<String>,
    pub reasoning_content: Option<String>,
    pub tool_calls: Option<Vec<ToolCallDelta>>,
}

impl Default for Delta {
    fn default() -> (r: Delta)
        ensures
            r.role is None,
            r.content is None,
            r.reasoning_content is None,
            r.tool_calls is None,
    {
        Delta { role: None, content: None, reasoning_content: None, tool_calls: None }
    }
}

/// A tool call in a stream. A call is handed on when it is complete, so it is
/// always in one piece.
#[derive(Debug)]
pub struct ToolCallDelta {
    pub index: u32,
    pub id: Option<String>,
    pub kind: Option<&'static str>,
    pub function: Option<FunctionDelta>,
}

#[derive(Debug)]
pub struct FunctionDelta {
    pub name: Option<String>,
    pub arguments: Option<String>,
}

/// The text that an optional string holds.
pub open spec fn opt_text(s: Option<String>) -> Option<Seq<char>> {
    match s {
        Some(t) => Some(t@),
        None => None,
    }
}

/// A copy of an optional string.
pub fn copy_text(s: &Option<String>) -> (r: Option<String>)
    ensures
        r == *s,
{
    match s {
        Some(t) => Some(t.clone()),
        None => None,
    }
}

impl ToolCallDelta {
    /// The piece holds all of the call.
    pub open spec fn is_whole(
        self,
        index: u32,
        id: Seq<char>,
        name: Seq<char>,
        arguments: Seq<char>,
    ) -> bool {
        &&& self.index == index
        &&& opt_text(self.id) == Some(id)
        &&& self.kind matches Some(k) && k@ == "function"@
        &&& self.function matches Some(f) && opt_text(f.name) == Some(name) && opt_text(f.arguments)
            == Some(arguments)
    }

    pub fn whole(index: u32, id: &str, name: &str, arguments: &str) -> (r: Self)
        ensures
            r.is_whole(index, id@, name@, arguments@),
    {
        ToolCallDelta {
            index,
            id: Some(id.to_owned()),
            kind: Some("function"),
            function: Some(
                FunctionDelta { name: Some(name.to_owned()), arguments: Some(arguments.to_owned()) },
            ),
        }
    }
}

impl ChatChunk {
    /// What every chunk of a stream has in common.
    pub open spec fn belongs_to(self, id: Seq<char>, created: i64, model: Seq<char>) -> bool {
        &&& self.id@ == id
        &&& self.object@ == "chat.completion.chunk"@
        &&& self.created == created
        &&& self.model@ == model
    }

    /// The chunk has the one choice `delta`, with `finish` as its reason to end.
    pub open spec fn carries(self, delta: Delta, finish: Option<Seq<char>>) -> bool {
        &&& self.choices@.len() == 1
        &&& self.choices@[0].index == 0
        &&& self.choices@[0].delta == delta
        &&& opt_text(self.choices@[0].finish_reason) == finish
    }

    pub fn new(id: &str, created: i64, model: &str, delta: Delta, finish: Option<String>) -> (r: Self)
        ensures
            r.belongs_to(id@, created, model@),
            r.carries(delta, opt_text(finish)),
            r.usage is None,
            r.system_fingerprint is None,
    {
        let mut choices: Vec<ChunkChoice> = Vec::new();
        choices.push(ChunkChoice { index: 0, delta, finish_reason: finish });
        ChatChunk {
            id: id.to_owned(),
            object: "chat.completion.chunk",
            created,
            model: model.to_owned(),
            choices,
            usage: None,
            system_fingerprint: None,
        }
    }

    /// The first chunk of a stream: the role and an empty text.
    pub fn opening(id: &str, created: i64, model: &str, fingerprint: Option<String>) -> (r: Self)
        ensures
            r.belongs_to(id@, created, model@),
            r.choices@.len() == 1,
            r.choices@[0].index == 0,
            r.choices@[0].finish_reason is None,
            r.choices@[0].delta.role matches Some(role) && role@ == "assistant"@,
            opt_text(r.choices@[0].delta.content) == Some(""@),
            r.choices@[0].delta.reasoning_content is None,
            r.choices@[0].delta.tool_calls is None,
            r.usage is None,
            r.system_fingerprint == fingerprint,
    {
        let delta = Delta {
            role: Some("assistant"),
            content: Some("".to_owned()),
            reasoning_content: None,
            tool_calls: None,
        };
        ChatChunk::new(id, created, model, delta, None).with_fingerprint(fingerprint)
    }

    /// The chunk that tells the usage: it has no choices.
    pub fn usage_only(id: &str, created: i64, model: &str, usage: Usage) -> (r: Self)
        ensures
            r.belongs_to(id@, created, model@),
            r.choices@.len() == 0,
            r.usage == Some(usage),
            r.system_fingerprint is None,
    {
        ChatChunk {
            id: id.to_owned(),
            object: "chat.completion.chunk",
            created,
            model: model.to_owned(),
            choices: Vec::new(),
            usage: Some(usage),
            system_fingerprint: None,
        }
    }

    pub fn with_fingerprint(self, fingerprint: Option<String>) -> (r: Self)
        ensures
            r == (ChatChunk { system_fingerprint: fingerprint, ..self }),
    {
        ChatChunk {
            id: self.id,
            object: self.object,
            created: self.created,
            model: self.model,
            choices: self.choices,
            usage: self.usage,
            system_fingerprint: fingerprint,
        }
    }
}

#[derive(Debug)]
pub struct ErrorEnvelope {
    pub error: ErrorBody,
}

/// `param` and `code` are written out even when they are absent.
#[derive(Debug)]
pub struct ErrorBody {
    pub message: String,
    pub kind: &'static str,
    pub param: Option<String>,
    pub code: Option<String>,
}

impl ErrorEnvelope {
    /// The envelope says exactly this.
    pub open spec fn says(
        self,
        message: Seq<char>,
        kind: Seq<char>,
        param: Option<Seq<char>>,
        code: Option<Seq<char>>,
    ) -> bool {
        &&& self.error.message@ == message
        &&& self.error.kind@ == kind
        &&& opt_text(self.error.param) == param
        &&& opt_text(self.error.code) == code
    }

    pub fn new(message: String, kind: &'static str, code: Option<String>) -> (r: Self)
        ensures
            r.says(message@, kind@, None, opt_text(code)),
    {
        ErrorEnvelope { error: ErrorBody { message, kind, param: None, code } }
    }

    pub fn with_param(self, param: String) -> (r: Self)
        ensures
            r.says(
                self.error.message@,
                self.error.kind@,
                Some(param@),
                opt_text(self.error.code),
            ),
    {
        ErrorEnvelope {
            error: ErrorBody {
                message: self.error.message,
                kind: self.error.kind,
                param: Some(param),
                code: self.error.code,
            },
        }
    }
}

// ───────────────────────── images ─────────────────────────

#[derive(Debug)]
pub struct ImageGenerationRequest {
    pub prompt: Option<String>,
    pub model: Option<String>,
    pub n: Option<u32>,
    pub size: Option<String>,
    pub response_format: Option<String>,
}

#[derive(Debug)]
pub struct ImageEditRequest {
    pub prompt: Option<String>,
    pub model: Option<String>,
    pub n: Option<u32>,
    pub size: Option<String>,
    pub response_format: Option<String>,
    /// The images to start from; only the first one is used.
    pub images: Vec<ImageRef>,
}

#[derive(Debug)]
pub struct ImageRef {
    pub image_url: Option<ImageUrl>,
}

#[derive(Debug)]
pub enum ImageUrl {
    Url(String),
    Object { url: Option<String> },
}

impl ImageUrl {
    pub open spec fn url_view(self) -> Option<Seq<char>> {
        match self {
            ImageUrl::Url(s) => Some(s@),
            ImageUrl::Object { url } => opt_text(url),
        }
    }

    pub fn as_str(&self) -> (r: Option<&str>)
        ensures
            match r {
                Some(s) => self.url_view() == Some(s@),
                None => self.url_view() is None,
            },
    {
        match self {
            ImageUrl::Url(s) => Some(s.as_str()),
            ImageUrl::Object { url } => match url {
                Some(s) => Some(s.as_str()),
                None => None,
            },
        }
    }
}

#[derive(Debug)]
pub struct ImagesResponse {
    pub created: i64,
    pub data: Vec<ImageDatum>,
}

#[derive(Debug)]
pub struct ImageDatum {
    pub b64_json: Option<String>,
    pub url: Option<String>,
    pub revised_prompt: Option<String>,
}

/// The two sides of a size, split at the first `x`, else at the first `X`, else at
/// the first `×`.
pub open spec fn size_sides(s: Seq<char>) -> Option<(Seq<char>, Seq<char>)> {
    if split_at_char(s, 'x') is Some {
        split_at_char(s, 'x')
    } else if split_at_char(s, 'X') is Some {
        split_at_char(s, 'X')
    } else {
        split_at_char(s, '×')
    }
}

/// The width and height that a text such as `1024x768` names. `auto`, and anything
/// that is no size, names none.
pub open spec fn size_view(s: Seq<char>) -> Option<(u32, u32)> {
    let t = trim(s);
    if t.len() == 0 || lower(t) == lower("auto"@) {
        None
    } else {
        match size_sides(t) {
            Some((w, h)) => match (u32_value(trim(w)), u32_value(trim(h))) {
                (Some(w), Some(h)) => if w == 0 || h == 0 {
                    None
                } else {
                    Some((w, h))
                },
                _ => None,
            },
            None => None,
        }
    }
}

/// A size as it is written.
pub open spec fn size_written(w: u32, h: u32) -> Seq<char> {
    dec(w as nat) + "x"@ + dec(h as nat)
}

/// A size that was written down is read as that size. (A side of 0 is no size.)
pub proof fn law_size_reads_back(w: u32, h: u32)
    requires
        w > 0,
        h > 0,
    ensures
        size_view(size_written(w, h)) == Some((w, h)),
{
    let a = dec(w as nat);
    let b = dec(h as nat);
    let t = size_written(w, h);
    let n = a.len() as int;
    lemma_dec_value(w as nat);
    lemma_dec_value(h as nat);
    lemma_dec_digits(w as nat);
    lemma_dec_digits(h as nat);
    reveal_strlit("x");
    reveal_strlit("auto");
    assert("x"@ =~= seq!['x']);
    assert(t[0] == a[0] && t.last() == b.last());
    assert(is_digit(a[0]) && is_digit(a[a.len() - 1]) && is_digit(b[0]) && is_digit(b[b.len() - 1]));
    lemma_no_white(a);
    lemma_no_white(b);
    lemma_no_white(t);
    assert(lower(t)[0] == lower_char(t[0]));
    assert(lower("auto"@)[0] == 'a');
    assert(occurs_at(t, seq!['x'], n)) by {
        assert(t.subrange(n, n + 1) =~= seq!['x']);
    }
    assert forall|j: int| 0 <= j < a.len() implies !#[trigger] occurs_at(t, seq!['x'], j) by {
        assert(t.subrange(j, j + 1)[0] == a[j]);
        assert(is_digit(a[j]));
    }
    lemma_find_is(t, seq!['x'], n);
    assert(t.take(n) =~= a);
    assert(t.skip(n + 1) =~= b);
}

pub fn parse_size(s: &str) -> (r: Option<(u32, u32)>)
    ensures
        r == size_view(s@),
{
    let t = trimmed(s);
    if t.is_empty() || same_ignoring_case(t, "auto") {
        return None;
    }
    let sides = match split_once(t, 'x') {
        Some(pair) => Some(pair),
        None => match split_once(t, 'X') {
            Some(pair) => Some(pair),
            None => split_once(t, '×'),
        },
    };
    match sides {
        Some((w, h)) => match (read_u32(trimmed(w)), read_u32(trimmed(h))) {
            (Some(w), Some(h)) => {
                if w == 0 || h == 0 {
                    None
                } else {
                    Some((w, h))
                }
            },
            _ => None,
        },
        None => None,
    }
}

/// The media type and the payload of a base64 data URL.
pub open spec fn data_url_view(s: Seq<char>) -> Option<(Seq<char>, Seq<char>)> {
    let t = trim(s);
    if !starts_with(t, "data:"@) {
        None
    } else {
        match split_at_char(t.skip("data:"@.len() as int), ',') {
            Some((meta, payload)) => if !contains(lower(meta), "base64"@) {
                None
            } else {
                let mime = match split_at_char(meta, ';') {
                    Some((m, _)) => m,
                    None => meta,
                };
                Some(
                    (
                        if mime.len() == 0 {
                            "application/octet-stream"@
                        } else {
                            mime
                        },
                        payload,
                    ),
                )
            },
            None => None,
        }
    }
}

pub fn split_data_url(s: &str) -> (r: Option<(&str, &str)>)
    ensures
        match r {
            Some((mime, payload)) => data_url_view(s@) == Some((mime@, payload@)),
            None => data_url_view(s@) is None,
        },
{
    match after_prefix(trimmed(s), "data:") {
        Some(rest) => match split_once(rest, ',') {
            Some((meta, payload)) => {
                if !includes(lowered(meta).as_str(), "base64") {
                    return None;
                }
                let mime = match split_once(meta, ';') {
                    Some((m, _)) => m,
                    None => meta,
                };
                if mime.is_empty() {
                    Some(("application/octet-stream", payload))
                } else {
                    Some((mime, payload))
                }
            },
            None => None,
        },
        None => None,
    }
}

} // verus!
