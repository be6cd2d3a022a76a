//! One piece of the gateway's answer.

use vstd::prelude::*;
use vstd::string::*;

use crate::json::{json_view, json_views, lemma_json_views, Json, JsonView};
use crate::openai::opt_text;
use crate::text::{blank, contains, includes, is_blank, join, joined, lower, lowered, same, views};

use super::fields::{
    count_field, field, field2, field4, flag_field, get_field, get_field2, get_field4,
    get_optional, is_record, optional, read_count, read_flag, read_text, record, text_field,
};

verus! {

/// A piece of the gateway's answer: a frame of a stream, or a whole response.
#[derive(Debug)]
pub struct FabrixChunk {
    pub model_type: Option<String>,
    pub content: Option<String>,
    pub truncated: Option<bool>,
    pub finish_reason: Option<String>,
    pub status: Option<String>,
    pub response_code: Option<String>,
    pub event_status: Option<String>,
    pub event_data: Option<String>,
    pub reasoning_content: Option<String>,
    /// Where a plugin answers, it answers here.
    pub content_references: Option<Vec<ContentReference>>,
    pub filter_block_reason: Option<FilterBlockReason>,
    pub message: Option<String>,
    pub error_message: Option<String>,
    pub input_tokens: Option<u32>,
    pub output_tokens: Option<u32>,
    pub usage: Option<UpstreamUsage>,
}

#[derive(Debug, Clone, Copy)]
pub struct UpstreamUsage {
    pub prompt_tokens: Option<u32>,
    pub completion_tokens: Option<u32>,
}

#[derive(Debug)]
pub struct ContentReference {
    pub answer: Option<String>,
}

/// The verdict of the gateway's filter; it is there when the text passed, too.
#[derive(Debug)]
pub struct FilterBlockReason {
    pub ko: Option<String>,
    pub en: Option<String>,
    pub message: Option<String>,
    pub result_code: Option<String>,
}

// ───────────────────────── models ─────────────────────────

pub struct FilterView {
    pub ko: Option<Seq<char>>,
    pub en: Option<Seq<char>>,
    pub message: Option<Seq<char>>,
    pub result_code: Option<Seq<char>>,
}

impl View for FilterBlockReason {
    type V = FilterView;

    open spec fn view(&self) -> FilterView {
        FilterView {
            ko: opt_text(self.ko),
            en: opt_text(self.en),
            message: opt_text(self.message),
            result_code: opt_text(self.result_code),
        }
    }
}

/// The answers of a list of references.
pub open spec fn answers(list: Seq<ContentReference>) -> Seq<Option<Seq<char>>> {
    list.map_values(|r: ContentReference| opt_text(r.answer))
}

pub struct ChunkView {
    pub model_type: Option<Seq<char>>,
    pub content: Option<Seq<char>>,
    pub truncated: Option<bool>,
    pub finish_reason: Option<Seq<char>>,
    pub status: Option<Seq<char>>,
    pub response_code: Option<Seq<char>>,
    pub event_status: Option<Seq<char>>,
    pub event_data: Option<Seq<char>>,
    pub reasoning_content: Option<Seq<char>>,
    pub references: Option<Seq<Option<Seq<char>>>>,
    pub filter: Option<FilterView>,
    pub message: Option<Seq<char>>,
    pub error_message: Option<Seq<char>>,
    pub input_tokens: Option<u32>,
    pub output_tokens: Option<u32>,
    pub usage: Option<UpstreamUsage>,
}

impl View for FabrixChunk {
    type V = ChunkView;

    open spec fn view(&self) -> ChunkView {
        ChunkView {
            model_type: opt_text(self.model_type),
            content: opt_text(self.content),
            truncated: self.truncated,
            finish_reason: opt_text(self.finish_reason),
            status: opt_text(self.status),
            response_code: opt_text(self.response_code),
            event_status: opt_text(self.event_status),
            event_data: opt_text(self.event_data),
            reasoning_content: opt_text(self.reasoning_content),
            references: match self.content_references {
                Some(list) => Some(answers(list@)),
                None => None,
            },
            filter: match self.filter_block_reason {
                Some(f) => Some(f@),
                None => None,
            },
            message: opt_text(self.message),
            error_message: opt_text(self.error_message),
            input_tokens: self.input_tokens,
            output_tokens: self.output_tokens,
            usage: self.usage,
        }
    }
}

impl Default for FabrixChunk {
    fn default() -> (r: FabrixChunk)
        ensures
            r@ == ChunkView::nothing(),
    {
        FabrixChunk {
            model_type: None,
            content: None,
            truncated: None,
            finish_reason: None,
            status: None,
            response_code: None,
            event_status: None,
            event_data: None,
            reasoning_content: None,
            content_references: None,
            filter_block_reason: None,
            message: None,
            error_message: None,
            input_tokens: None,
            output_tokens: None,
            usage: None,
        }
    }
}

// ───────────────────────── reading ─────────────────────────

/// One reference; empty where it cannot be read.
pub open spec fn read_reference(v: JsonView) -> Option<Option<Seq<char>>> {
    if record(v, 1) {
        text_field(field(v, 0, "answer"@))
    } else {
        None
    }
}

pub open spec fn read_references(items: Seq<JsonView>) -> Option<Seq<Option<Seq<char>>>>
    decreases items.len(),
{
    if items.len() == 0 {
        Some(seq![])
    } else {
        match (read_references(items.drop_last()), read_reference(items.last())) {
            (Some(front), Some(answer)) => Some(front.push(answer)),
            _ => None,
        }
    }
}

pub open spec fn references_field(v: Option<Option<JsonView>>) -> Option<
    Option<Seq<Option<Seq<char>>>>,
> {
    match v {
        Some(Some(JsonView::Array(items))) => match read_references(items) {
            Some(list) => Some(Some(list)),
            None => None,
        },
        Some(Some(_)) => None,
        Some(None) => Some(None),
        None => None,
    }
}

pub open spec fn read_filter(v: JsonView) -> Option<FilterView> {
    let ko = text_field(field(v, 0, "ko"@));
    let en = text_field(field(v, 1, "en"@));
    let message = text_field(field(v, 2, "message"@));
    let result_code = text_field(field2(v, 3, "result_code"@, "resultCode"@));
    if record(v, 4) && ko is Some && en is Some && message is Some && result_code is Some {
        Some(
            FilterView {
                ko: ko->0,
                en: en->0,
                message: message->0,
                result_code: result_code->0,
            },
        )
    } else {
        None
    }
}

pub open spec fn filter_field(v: Option<Option<JsonView>>) -> Option<Option<FilterView>> {
    match v {
        Some(Some(x)) => match read_filter(x) {
            Some(f) => Some(Some(f)),
            None => None,
        },
        Some(None) => Some(None),
        None => None,
    }
}

pub open spec fn read_usage(v: JsonView) -> Option<UpstreamUsage> {
    let prompt = count_field(
        field4(v, 0, "prompt_tokens"@, "promptTokens"@, "inputTokens"@, "input_tokens"@),
    );
    let completion = count_field(
        field4(
            v,
            1,
            "completion_tokens"@,
            "completionTokens"@,
            "outputTokens"@,
            "output_tokens"@,
        ),
    );
    if record(v, 2) && prompt is Some && completion is Some {
        Some(UpstreamUsage { prompt_tokens: prompt->0, completion_tokens: completion->0 })
    } else {
        None
    }
}

pub open spec fn usage_field(v: Option<Option<JsonView>>) -> Option<Option<UpstreamUsage>> {
    match v {
        Some(Some(x)) => match read_usage(x) {
            Some(u) => Some(Some(u)),
            None => None,
        },
        Some(None) => Some(None),
        None => None,
    }
}

impl ChunkView {
    pub open spec fn nothing() -> ChunkView {
        ChunkView {
            model_type: None,
            content: None,
            truncated: None,
            finish_reason: None,
            status: None,
            response_code: None,
            event_status: None,
            event_data: None,
            reasoning_content: None,
            references: None,
            filter: None,
            message: None,
            error_message: None,
            input_tokens: None,
            output_tokens: None,
            usage: None,
        }
    }

    /// The chunk that a JSON value is, in either spelling of the field names. One
    /// field of the wrong type spoils the whole chunk.
    pub open spec fn read(v: JsonView) -> Option<ChunkView> {
        let model_type = text_field(field2(v, 0, "model_type"@, "modelType"@));
        let content = text_field(field(v, 1, "content"@));
        let truncated = flag_field(field(v, 2, "truncated"@));
        let finish_reason = text_field(field2(v, 3, "finish_reason"@, "finishReason"@));
        let status = text_field(field(v, 4, "status"@));
        let response_code = text_field(field2(v, 5, "response_code"@, "responseCode"@));
        let event_status = text_field(field2(v, 6, "event_status"@, "eventStatus"@));
        let event_data = text_field(field2(v, 7, "event_data"@, "eventData"@));
        let reasoning = text_field(field2(v, 8, "reasoning_content"@, "reasoningContent"@));
        let references = references_field(
            optional(field2(v, 9, "content_references"@, "contentReferences"@)),
        );
        let filter = filter_field(
            optional(field2(v, 10, "filter_block_reason"@, "filterBlockReason"@)),
        );
        let message = text_field(field(v, 11, "message"@));
        let error_message = text_field(field2(v, 12, "error_message"@, "errorMessage"@));
        let input = count_field(
            field4(v, 13, "input_tokens"@, "inputTokens"@, "prompt_tokens"@, "promptTokens"@),
        );
        let output = count_field(
            field4(
                v,
                14,
                "output_tokens"@,
                "outputTokens"@,
                "completion_tokens"@,
                "completionTokens"@,
            ),
        );
        let usage = usage_field(optional(field(v, 15, "usage"@)));
        if record(v, 16) && model_type is Some && content is Some && truncated is Some
            && finish_reason is Some && status is Some && response_code is Some && event_status is Some
            && event_data is Some && reasoning is Some && references is Some && filter is Some
            && message is Some && error_message is Some && input is Some && output is Some
            && usage is Some {
            Some(
                ChunkView {
                    model_type: model_type->0,
                    content: content->0,
                    truncated: truncated->0,
                    finish_reason: finish_reason->0,
                    status: status->0,
                    response_code: response_code->0,
                    event_status: event_status->0,
                    event_data: event_data->0,
                    reasoning_content: reasoning->0,
                    references: references->0,
                    filter: filter->0,
                    message: message->0,
                    error_message: error_message->0,
                    input_tokens: input->0,
                    output_tokens: output->0,
                    usage: usage->0,
                },
            )
        } else {
            None
        }
    }
}

fn reference_of(v: &Json) -> (r: Option<ContentReference>)
    ensures
        match r {
            Some(c) => read_reference(v@) == Some(opt_text(c.answer)),
            None => read_reference(v@) is None,
        },
{
    if !is_record(v, 1) {
        return None;
    }
    match read_text(get_field(v, 0, "answer")) {
        Some(answer) => Some(ContentReference { answer }),
        None => None,
    }
}

proof fn lemma_references_fail(items: Seq<JsonView>, i: int)
    requires
        0 <= i < items.len(),
        read_reference(items[i]) is None,
    ensures
        read_references(items) is None,
    decreases items.len(),
{
    if i < items.len() - 1 {
        lemma_references_fail(items.drop_last(), i);
    }
}

fn references_of(items: &Vec<Json>) -> (r: Option<Vec<ContentReference>>)
    ensures
        match r {
            Some(list) => read_references(json_views(items@)) == Some(answers(list@)),
            None => read_references(json_views(items@)) is None,
        },
{
    let mut out: Vec<ContentReference> = Vec::new();
    let ghost all = json_views(items@);
    let mut i: usize = 0;
    proof {
        lemma_json_views(items@);
        assert(all.take(0) =~= seq![]);
        assert(answers(out@) =~= seq![]);
    }
    while i < items.len()
        invariant
            i <= items@.len() == all.len(),
            all == json_views(items@),
            forall|k: int| 0 <= k < all.len() ==> #[trigger] all[k] == json_view(items@[k]),
            read_references(all.take(i as int)) == Some(answers(out@)),
        decreases items@.len() - i,
    {
        proof {
            assert(all.take(i + 1).drop_last() =~= all.take(i as int));
            assert(all.take(i + 1).last() == all[i as int]);
        }
        match reference_of(&items[i]) {
            Some(c) => {
                let ghost before = out@;
                out.push(c);
                assert(answers(out@) =~= answers(before).push(opt_text(c.answer)));
            },
            None => {
                proof {
                    lemma_references_fail(all, i as int);
                }
                return None;
            },
        }
        i += 1;
    }
    assert(all.take(all.len() as int) =~= all);
    Some(out)
}

fn filter_of(v: &Json) -> (r: Option<FilterBlockReason>)
    ensures
        match r {
            Some(f) => read_filter(v@) == Some(f@),
            None => read_filter(v@) is None,
        },
{
    if !is_record(v, 4) {
        return None;
    }
    let ko = match read_text(get_field(v, 0, "ko")) {
        Some(x) => x,
        None => {
            return None;
        },
    };
    let en = match read_text(get_field(v, 1, "en")) {
        Some(x) => x,
        None => {
            return None;
        },
    };
    let message = match read_text(get_field(v, 2, "message")) {
        Some(x) => x,
        None => {
            return None;
        },
    };
    let result_code = match read_text(get_field2(v, 3, "result_code", "resultCode")) {
        Some(x) => x,
        None => {
            return None;
        },
    };
    Some(FilterBlockReason { ko, en, message, result_code })
}

fn usage_of(v: &Json) -> (r: Option<UpstreamUsage>)
    ensures
        r == read_usage(v@),
{
    if !is_record(v, 2) {
        return None;
    }
    let prompt = read_count(
        get_field4(v, 0, "prompt_tokens", "promptTokens", "inputTokens", "input_tokens"),
    );
    let completion = read_count(
        get_field4(
            v,
            1,
            "completion_tokens",
            "completionTokens",
            "outputTokens",
            "output_tokens",
        ),
    );
    match (prompt, completion) {
        (Some(prompt_tokens), Some(completion_tokens)) => Some(
            UpstreamUsage { prompt_tokens, completion_tokens },
        ),
        _ => None,
    }
}

impl FabrixChunk {
    /// Reads a chunk.
    pub fn from_json(v: &Json) -> (r: Option<FabrixChunk>)
        ensures
            match r {
                Some(c) => ChunkView::read(v@) == Some(c@),
                None => ChunkView::read(v@) is None,
            },
    {
        if !is_record(v, 16) {
            return None;
        }
        let model_type = match read_text(get_field2(v, 0, "model_type", "modelType")) {
            Some(x) => x,
            None => {
                return None;
            },
        };
        let content = match read_text(get_field(v, 1, "content")) {
            Some(x) => x,
            None => {
                return None;
            },
        };
        let truncated = match read_flag(get_field(v, 2, "truncated")) {
            Some(x) => x,
            None => {
                return None;
            },
        };
        let finish_reason = match read_text(get_field2(v, 3, "finish_reason", "finishReason")) {
            Some(x) => x,
            None => {
                return None;
            },
        };
        let status = match read_text(get_field(v, 4, "status")) {
            Some(x) => x,
            None => {
                return None;
            },
        };
        let response_code = match read_text(get_field2(v, 5, "response_code", "responseCode")) {
            Some(x) => x,
            None => {
                return None;
            },
        };
        let event_status = match read_text(get_field2(v, 6, "event_status", "eventStatus")) {
            Some(x) => x,
            None => {
                return None;
            },
        };
        let event_data = match read_text(get_field2(v, 7, "event_data", "eventData")) {
            Some(x) => x,
            None => {
                return None;
            },
        };
        let reasoning_content = match read_text(
            get_field2(v, 8, "reasoning_content", "reasoningContent"),
        ) {
            Some(x) => x,
            None => {
                return None;
            },
        };
        let content_references = match get_optional(
            get_field2(v, 9, "content_references", "contentReferences"),
        ) {
            Some(Some(Json::Array(items))) => match references_of(items) {
                Some(list) => Some(list),
                None => {
                    return None;
                },
            },
            Some(Some(_)) => {
                return None;
            },
            Some(None) => None,
            None => {
                return None;
            },
        };
        let filter_block_reason = match get_optional(
            get_field2(v, 10, "filter_block_reason", "filterBlockReason"),
        ) {
            Some(Some(x)) => match filter_of(x) {
                Some(f) => Some(f),
                None => {
                    return None;
                },
            },
            Some(None) => None,
            None => {
                return None;
            },
        };
        let message = match read_text(get_field(v, 11, "message")) {
            Some(x) => x,
            None => {
                return None;
            },
        };
        let error_message = match read_text(get_field2(v, 12, "error_message", "errorMessage")) {
            Some(x) => x,
            None => {
                return None;
            },
        };
        let input_tokens = match read_count(
            get_field4(v, 13, "input_tokens", "inputTokens", "prompt_tokens", "promptTokens"),
        ) {
            Some(x) => x,
            None => {
                return None;
            },
        };
        let output_tokens = match read_count(
            get_field4(
                v,
                14,
                "output_tokens",
                "outputTokens",
                "completion_tokens",
                "completionTokens",
            ),
        ) {
            Some(x) => x,
            None => {
                return None;
            },
        };
        let usage = match get_optional(get_field(v, 15, "usage")) {
            Some(Some(x)) => match usage_of(x) {
                Some(u) => Some(u),
                None => {
                    return None;
                },
            },
            Some(None) => None,
            None => {
                return None;
            },
        };
        Some(
            FabrixChunk {
                model_type,
                content,
                truncated,
                finish_reason,
                status,
                response_code,
                event_status,
                event_data,
                reasoning_content,
                content_references,
                filter_block_reason,
                message,
                error_message,
                input_tokens,
                output_tokens,
                usage,
            },
        )
    }
}

// ───────────────────────── what a chunk says ─────────────────────────

/// A status word that tells of an error.
pub open spec fn bad_word(s: Option<Seq<char>>) -> bool {
    s matches Some(v) && (contains(lower(v), "error"@) || contains(lower(v), "fail"@))
}

fn is_bad_word(s: &Option<String>) -> (r: bool)
    ensures
        r == bad_word(opt_text(*s)),
{
    match s {
        Some(v) => {
            let word = lowered(v.as_str());
            includes(word.as_str(), "error") || includes(word.as_str(), "fail")
        },
        None => false,
    }
}

/// A text that is there and not blank.
pub open spec fn told(s: Option<Seq<char>>) -> bool {
    s matches Some(v) && !blank(v)
}

fn is_told(s: &Option<String>) -> (r: bool)
    ensures
        r == told(opt_text(*s)),
{
    match s {
        Some(v) => !is_blank(v.as_str()),
        None => false,
    }
}

/// A text that is there and not empty.
pub open spec fn nonempty(s: Option<Seq<char>>) -> Option<Seq<char>> {
    match s {
        Some(t) => if t.len() == 0 {
            None
        } else {
            Some(t)
        },
        None => None,
    }
}

/// The answers of a list that are there and not empty.
pub open spec fn given(list: Seq<Option<Seq<char>>>) -> Seq<Seq<char>>
    decreases list.len(),
{
    if list.len() == 0 {
        seq![]
    } else {
        match nonempty(list.last()) {
            Some(t) => given(list.drop_last()).push(t),
            None => given(list.drop_last()),
        }
    }
}

/// The codes with which the filter lets a text pass.
pub open spec fn passed(code: Option<Seq<char>>) -> bool {
    code == Some("FR-200"@) || code == Some("FR-201"@)
}

pub open spec fn first_of(a: Option<Seq<char>>, b: Option<Seq<char>>) -> Option<Seq<char>> {
    if a is Some {
        a
    } else {
        b
    }
}

impl ChunkView {
    pub open spec fn is_error(self) -> bool {
        bad_word(self.status) || bad_word(self.event_status)
    }

    pub open spec fn error_says(self) -> Seq<char> {
        match first_of(
            self.error_message,
            first_of(self.message, first_of(self.event_data, self.content)),
        ) {
            Some(t) => t,
            None => "사내 서버가 오류를 반환했습니다"@,
        }
    }

    /// The token counts, where both are told.
    pub open spec fn tokens(self) -> Option<(u32, u32)> {
        let prompt = if self.input_tokens is Some {
            self.input_tokens
        } else {
            match self.usage {
                Some(u) => u.prompt_tokens,
                None => None,
            }
        };
        let completion = if self.output_tokens is Some {
            self.output_tokens
        } else {
            match self.usage {
                Some(u) => u.completion_tokens,
                None => None,
            }
        };
        match (prompt, completion) {
            (Some(p), Some(c)) => Some((p, c)),
            _ => None,
        }
    }

    /// There is a mark of success, so that an empty answer is an answer.
    pub open spec fn is_success(self) -> bool {
        !self.is_error() && (told(self.status) || told(self.response_code) || told(
            self.finish_reason,
        ))
    }

    /// The answer of a whole response: the content, else what the references answer.
    pub open spec fn answer(self) -> Option<Seq<char>> {
        if nonempty(self.content) is Some {
            self.content
        } else {
            let list = match self.references {
                Some(list) => list,
                None => seq![],
            };
            nonempty(Some(join(given(list), "\n"@)))
        }
    }

    /// Why the filter blocked the answer.
    pub open spec fn blocked(self) -> Option<Seq<char>> {
        match self.filter {
            Some(f) => if passed(f.result_code) {
                None
            } else {
                nonempty(first_of(f.message, first_of(f.ko, f.en)))
            },
            None => None,
        }
    }
}

fn text_or<'a>(a: &'a Option<String>, b: Option<&'a String>) -> (r: Option<&'a String>)
    ensures
        match *a {
            Some(t) => r == Some(&t),
            None => r == b,
        },
{
    match a {
        Some(t) => Some(t),
        None => b,
    }
}

impl FabrixChunk {
    pub fn looks_like_error(&self) -> (r: bool)
        ensures
            r == self@.is_error(),
    {
        is_bad_word(&self.status) || is_bad_word(&self.event_status)
    }

    pub fn error_text(&self) -> (r: String)
        ensures
            r@ == self@.error_says(),
    {
        let said = text_or(
            &self.error_message,
            text_or(&self.message, text_or(&self.event_data, self.content.as_ref())),
        );
        match said {
            Some(t) => t.clone(),
            None => "사내 서버가 오류를 반환했습니다".to_owned(),
        }
    }

    pub fn upstream_tokens(&self) -> (r: Option<(u32, u32)>)
        ensures
            r == self@.tokens(),
    {
        let prompt = match self.input_tokens {
            Some(n) => Some(n),
            None => match &self.usage {
                Some(u) => u.prompt_tokens,
                None => None,
            },
        };
        let completion = match self.output_tokens {
            Some(n) => Some(n),
            None => match &self.usage {
                Some(u) => u.completion_tokens,
                None => None,
            },
        };
        match (prompt, completion) {
            (Some(p), Some(c)) => Some((p, c)),
            _ => None,
        }
    }

    pub fn looks_successful(&self) -> (r: bool)
        ensures
            r == self@.is_success(),
    {
        !self.looks_like_error() && (is_told(&self.status) || is_told(&self.response_code)
            || is_told(&self.finish_reason))
    }

    pub fn answer_text(&self) -> (r: Option<String>)
        ensures
            opt_text(r) == self@.answer(),
    {
        match &self.content {
            Some(t) => {
                if !t.as_str().is_empty() {
                    return Some(t.clone());
                }
            },
            None => {},
        }
        let mut texts: Vec<String> = Vec::new();
        assert(views(texts@) =~= seq![]);
        match &self.content_references {
            Some(list) => {
                let ghost all = answers(list@);
                let mut i: usize = 0;
                assert(all.take(0) =~= seq![]);
                while i < list.len()
                    invariant
                        i <= list@.len() == all.len(),
                        all == answers(list@),
                        views(texts@) == given(all.take(i as int)),
                    decreases list@.len() - i,
                {
                    proof {
                        assert(all.take(i + 1).drop_last() =~= all.take(i as int));
                        assert(all.take(i + 1).last() == opt_text(list@[i as int].answer));
                    }
                    match &list[i].answer {
                        Some(t) => {
                            if !t.as_str().is_empty() {
                                let ghost before = texts@;
                                texts.push(t.clone());
                                assert(views(texts@) =~= views(before).push(t@));
                            }
                        },
                        None => {},
                    }
                    i += 1;
                }
                assert(all.take(all.len() as int) =~= all);
            },
            None => {},
        }
        let all = joined(&texts, "\n");
        if all.as_str().is_empty() {
            None
        } else {
            Some(all)
        }
    }

    pub fn filter_message(&self) -> (r: Option<String>)
        ensures
            opt_text(r) == self@.blocked(),
    {
        match &self.filter_block_reason {
            Some(f) => {
                match &f.result_code {
                    Some(code) => {
                        if same(code.as_str(), "FR-200") || same(code.as_str(), "FR-201") {
                            return None;
                        }
                    },
                    None => {},
                }
                match text_or(&f.message, text_or(&f.ko, f.en.as_ref())) {
                    Some(t) => {
                        if t.as_str().is_empty() {
                            None
                        } else {
                            Some(t.clone())
                        }
                    },
                    None => None,
                }
            },
            None => None,
        }
    }
}

} // verus!
