//! What the gateway is sent.

use vstd::prelude::*;
use vstd::string::*;

use crate::bytes::utf8_lossy;
use crate::config::Config;
use crate::json::{json_parse_bytes, json_pretty, Json};
use crate::logstore::preview_view;
use crate::number::Real;
use crate::openai::{
    named, opt_text, seq_of, targets, tool_functions, ChatRequest, FunctionDef, Tool, ToolChoice,
    ToolChoiceMode,
};
use crate::proxy::alias::{default_model, find_model, ResolvedModel};
use crate::proxy::chat_request::{
    chosen, emulates, named_model, refuses_fault, refuses_model, whole_prompt, Prepared, Refusal,
};
use crate::proxy::chat_log::Ctx;
use crate::proxy::fingerprint::system_fingerprint;
use crate::proxy::fold::{fold_messages, folded};
use crate::proxy::request::LlmConfig;
use crate::proxy::tools::{
    lists_tools, render_system_block, render_tail_reminder, tells, REMINDER_HEAD,
    SYSTEM_HEAD, SYSTEM_RULES,
};
use crate::proxy::validate::Fault;
use crate::text::{blank, contains, ends_with, join, lower, trim, views};

use super::text::{lemma_holds, lemma_join_concat, lemma_join_holds};

verus! {

// ───────────────────────── the tools in the prompt ─────────────────────────

/// Every tool is told: inside `<tools>` the block has a line for each of them, in their
/// order, and that line is JSON for an object with the declared name, the declared
/// description and the declared parameters. Of parameters of whole numbers and few levels
/// this is what reading the line gives.
pub proof fn law_every_tool_is_told(
    tools: &Vec<&FunctionDef>,
    mode: &ToolChoiceMode,
    r: Option<String>,
) -> (w: (Seq<Seq<char>>, Seq<char>))
    requires
        call_ensures(render_system_block, (tools, mode), r),
    ensures
        r is Some <==> tools@.len() > 0 && !(mode@ is Off),
        ends_with(SYSTEM_HEAD@, "<tools>\n"@),
        r matches Some(block) ==> {
            let (lines, rest) = w;
            &&& block@ == SYSTEM_HEAD@ + join(lines, "\n"@) + "\n</tools>\n"@ + rest
            &&& lines.len() == tools@.len()
            &&& forall|k: int|
                0 <= k < tools@.len() ==> {
                    let f = *tools@[k];
                    (f.parameters matches Some(p) ==> p@.plain(126)) ==> (crate::json::json_parse(
                        #[trigger] lines[k],
                    ) matches Ok(v) && {
                        &&& v is Object
                        &&& v.get_text("name"@) == Some(trim(f.name@))
                        &&& v.get_text("description"@) == Some(
                            match f.description {
                                Some(d) => d@,
                                None => Seq::<char>::empty(),
                            },
                        )
                        &&& f.parameters matches Some(p) ==> v.get("parameters"@) == Some(p@)
                    })
                }
            &&& forall|k: int| 0 <= k < tools@.len() ==> tells(#[trigger] lines[k], *tools@[k])
        },
{
    assert(targets(tools@).len() == tools@.len());
    lemma_head_opens();
    if r is Some {
        let block = r->0;
        let (lines, rest) = choose|lines: Seq<Seq<char>>, rest: Seq<char>|
            #[trigger] lists_tools(block@, targets(tools@), lines, rest);
        assert(lists_tools(block@, targets(tools@), lines, rest));
        assert forall|k: int| 0 <= k < tools@.len() implies tells(#[trigger] lines[k], *tools@[k]) by {
            assert(targets(tools@)[k] == *tools@[k]);
        }
        (lines, rest)
    } else {
        (seq![], seq![])
    }
}

proof fn lemma_head_opens()
    ensures
        ends_with(SYSTEM_HEAD@, "<tools>\n"@),
{
    reveal_strlit("<tools>\n");
    reveal_strlit("# Tool calling\n\nYou can call tools. Each line inside <tools> is one tool: its name, what it does, and a JSON Schema for its arguments.\n\n<tools>\n");
    assert(SYSTEM_HEAD@.skip(136) =~= "<tools>\n"@);
}

/// What the model is told of the choice of tools.
pub proof fn law_the_choice_is_told(tools: &Vec<&FunctionDef>, mode: &ToolChoiceMode, r: Option<String>)
    requires
        call_ensures(render_system_block, (tools, mode), r),
    ensures
        r matches Some(block) ==> match *mode {
            ToolChoiceMode::Off => false,
            ToolChoiceMode::Auto => contains(block@, "If no tool is needed, just answer."@),
            ToolChoiceMode::Required => contains(block@, "You MUST call at least one tool."@),
            ToolChoiceMode::Function(name) => contains(
                block@,
                "You MUST call the tool `"@ + name@ + "`"@,
            ),
        },
{
    assert(targets(tools@).len() == tools@.len());
    if r is Some {
        let front = SYSTEM_HEAD@ + crate::proxy::tools::tool_lines(targets(tools@)) + SYSTEM_RULES@;
        match *mode {
            ToolChoiceMode::Off => {},
            ToolChoiceMode::Auto => {
                let all = "- If no tool is needed, just answer. Emit no <tool_call> block.\n"@;
                let n = "If no tool is needed, just answer."@;
                reveal_strlit("- If no tool is needed, just answer. Emit no <tool_call> block.\n");
                reveal_strlit("If no tool is needed, just answer.");
                assert(all =~= all.take(2) + n + all.skip(36));
                lemma_holds(front + all.take(2), n, all.skip(36));
                assert(front + all.take(2) + n + all.skip(36) =~= r->0@);
            },
            ToolChoiceMode::Required => {
                let all =
                    "- You MUST call at least one tool. Begin your reply with a <tool_call> block before any prose.\n"@;
                let n = "You MUST call at least one tool."@;
                reveal_strlit(
                    "- You MUST call at least one tool. Begin your reply with a <tool_call> block before any prose.\n",
                );
                reveal_strlit("You MUST call at least one tool.");
                assert(all =~= all.take(2) + n + all.skip(34));
                lemma_holds(front + all.take(2), n, all.skip(34));
                assert(front + all.take(2) + n + all.skip(34) =~= r->0@);
            },
            ToolChoiceMode::Function(name) => {
                let a = "- You MUST call the tool `"@;
                let b = "You MUST call the tool `"@;
                let c =
                    "` and no other tool. Begin your reply with exactly one <tool_call> block for `"@;
                let d = "`.\n"@;
                reveal_strlit("- You MUST call the tool `");
                reveal_strlit("You MUST call the tool `");
                reveal_strlit(
                    "` and no other tool. Begin your reply with exactly one <tool_call> block for `",
                );
                reveal_strlit("`");
                assert(a =~= a.take(2) + b);
                assert(c =~= "`"@ + c.skip(1));
                lemma_holds(front + a.take(2), b + name@ + "`"@, c.skip(1) + name@ + d);
                assert(front + a.take(2) + (b + name@ + "`"@) + (c.skip(1) + name@ + d) =~= r->0@);
            },
        }
    }
}

/// The reminder shows the form of a call; it names the tool where one is demanded, and
/// demands a call where one is.
pub proof fn law_the_reminder(mode: &ToolChoiceMode, r: Option<String>)
    requires
        call_ensures(render_tail_reminder, (mode,), r),
    ensures
        r is None <==> mode@ is Off,
        r matches Some(text) ==> {
            &&& contains(text@, "<tool_call>{\"name\": "@)
            &&& match *mode {
                ToolChoiceMode::Off => false,
                ToolChoiceMode::Auto => contains(text@, "If no tool is needed, just answer."@),
                ToolChoiceMode::Required => contains(
                    text@,
                    "You must emit at least one <tool_call> block"@,
                ),
                ToolChoiceMode::Function(name) => contains(
                    text@,
                    "exactly one <tool_call> block for `"@ + name@ + "`"@,
                ),
            }
        },
{
    if r is Some {
        let text = r->0@;
        let head = REMINDER_HEAD@;
        let tail = text.skip(head.len() as int);
        assert(text =~= head + tail);
        lemma_reminder_head();
        let form = "<tool_call>{\"name\": "@;
        super::text::lemma_holds_within(seq![], head, tail, form);
        assert(Seq::<char>::empty() + head + tail =~= text);
        match *mode {
            ToolChoiceMode::Off => {},
            ToolChoiceMode::Auto => {
                let n = "If no tool is needed, just answer."@;
                reveal_strlit("If no tool is needed, just answer.");
                reveal_strlit("If no tool is needed, just answer.\n");
                assert(tail =~= "If no tool is needed, just answer.\n"@);
                assert(tail =~= n + tail.skip(34));
                lemma_holds(head, n, tail.skip(34));
                assert(head + n + tail.skip(34) =~= text);
            },
            ToolChoiceMode::Required => {
                let n = "You must emit at least one <tool_call> block"@;
                reveal_strlit("You must emit at least one <tool_call> block");
                reveal_strlit("You must emit at least one <tool_call> block before any prose.\n");
                assert(tail
                    =~= "You must emit at least one <tool_call> block before any prose.\n"@);
                assert(tail =~= n + tail.skip(44));
                lemma_holds(head, n, tail.skip(44));
                assert(head + n + tail.skip(44) =~= text);
            },
            ToolChoiceMode::Function(name) => {
                let a = "You must emit exactly one <tool_call> block for `"@;
                let b = "exactly one <tool_call> block for `"@;
                let c = "` and call no other tool.\n"@;
                reveal_strlit("You must emit exactly one <tool_call> block for `");
                reveal_strlit("exactly one <tool_call> block for `");
                reveal_strlit("` and call no other tool.\n");
                reveal_strlit("`");
                assert(a =~= a.take(14) + b);
                assert(c =~= "`"@ + c.skip(1));
                lemma_holds(head + a.take(14), b + name@ + "`"@, c.skip(1));
                assert(head + a.take(14) + (b + name@ + "`"@) + c.skip(1) =~= text);
            },
        }
    }
}

proof fn lemma_reminder_head()
    ensures
        contains(REMINDER_HEAD@, "<tool_call>{\"name\": "@),
{
    let head = REMINDER_HEAD@;
    let form = "<tool_call>{\"name\": "@;
    reveal_strlit("<tool_call>{\"name\": ");
    reveal_strlit("# Reminder\nTo use a tool, emit a block exactly like <tool_call>{\"name\": \"<one of the names in <tools>>\", \"arguments\": {…}}</tool_call> — one block per call, no Markdown code fence, and nothing but JSON inside the block. Put the block in your reply itself, not only in your private reasoning.\n");
    assert(head.subrange(52, 72) =~= form);
    lemma_holds(head.take(52), form, head.skip(72));
    assert(head.take(52) + form + head.skip(72) =~= head);
}

// ───────────────────────── the tools of a request ─────────────────────────

proof fn lemma_named_holds(list: Seq<FunctionDef>, f: FunctionDef)
    ensures
        named(list).contains(f) <==> list.contains(f) && !blank(f.name@),
    decreases list.len(),
{
    reveal(Seq::filter);
    if list.len() > 0 {
        let front = list.drop_last();
        let x = list.last();
        lemma_named_holds(front, f);
        let s = named(list);
        let t = named(front);
        if list.contains(f) && f != x {
            let i = list.index_of(f);
            assert(front[i] == f);
        }
        if front.contains(f) {
            let i = front.index_of(f);
            assert(list[i] == f);
        }
        assert(list[list.len() - 1] == x);
        if blank(x.name@) {
            assert(s == t);
        } else {
            assert(s == t.push(x));
            assert(s[t.len() as int] == x);
            if t.contains(f) {
                let i = t.index_of(f);
                assert(s[i] == f);
            }
            if s.contains(f) && f != x {
                let i = s.index_of(f);
                assert(t[i] == f);
            }
        }
    }
}

proof fn lemma_function_of(tools: Seq<Tool>, k: int) -> (j: int)
    requires
        0 <= k < tools.len(),
        tools[k].function is Some,
    ensures
        0 <= j < tool_functions(tools).len(),
        tool_functions(tools)[j] == tools[k].function->0,
    decreases tools.len(),
{
    if k == tools.len() - 1 {
        tool_functions(tools).len() - 1
    } else {
        lemma_function_of(tools.drop_last(), k)
    }
}

proof fn lemma_tool_of(tools: Seq<Tool>, j: int) -> (k: int)
    requires
        0 <= j < tool_functions(tools).len(),
    ensures
        0 <= k < tools.len(),
        tools[k].function == Some(tool_functions(tools)[j]),
    decreases tools.len(),
{
    let front = tool_functions(tools.drop_last());
    if tools.last().function is Some && j == front.len() {
        tools.len() - 1
    } else {
        lemma_tool_of(tools.drop_last(), j)
    }
}

/// A function is declared in one of the two lists.
pub open spec fn is_declared(req: ChatRequest, f: FunctionDef) -> bool {
    ||| exists|k: int|
        0 <= k < seq_of(req.tools).len() && (#[trigger] seq_of(req.tools)[k]).function == Some(f)
    ||| exists|k: int| 0 <= k < seq_of(req.functions).len() && #[trigger] seq_of(req.functions)[k] == f
}

/// The tools of a request are the functions with a name, of both lists.
pub proof fn law_the_tools_of_a_request(req: &ChatRequest, r: Vec<&FunctionDef>, f: FunctionDef)
    requires
        call_ensures(ChatRequest::declared_tools, (req,), r),
    ensures
        targets(r@).contains(f) <==> is_declared(*req, f) && !blank(f.name@),
{
    let a = tool_functions(seq_of(req.tools));
    let b = seq_of(req.functions);
    lemma_named_holds(a + b, f);
    if is_declared(*req, f) {
        if exists|k: int|
            0 <= k < seq_of(req.tools).len() && (#[trigger] seq_of(req.tools)[k]).function == Some(f) {
            let k = choose|k: int|
                0 <= k < seq_of(req.tools).len() && (#[trigger] seq_of(req.tools)[k]).function
                    == Some(f);
            let j = lemma_function_of(seq_of(req.tools), k);
            assert((a + b)[j] == f);
        } else {
            let k = choose|k: int|
                0 <= k < seq_of(req.functions).len() && #[trigger] seq_of(req.functions)[k] == f;
            assert((a + b)[a.len() + k] == f);
        }
    }
    if (a + b).contains(f) {
        let i = (a + b).index_of(f);
        if i < a.len() {
            let k = lemma_tool_of(seq_of(req.tools), i);
            assert(seq_of(req.tools)[k].function == Some(f));
        } else {
            assert(b[i - a.len()] == f);
        }
    }
}

proof fn lemma_named_concat(a: Seq<FunctionDef>, b: Seq<FunctionDef>)
    ensures
        named(a + b) == named(a) + named(b),
    decreases b.len(),
{
    reveal(Seq::filter);
    if b.len() == 0 {
        assert(a + b =~= a);
        assert(named(a) + named(b) =~= named(a));
    } else {
        lemma_named_concat(a, b.drop_last());
        assert((a + b).drop_last() =~= a + b.drop_last());
        assert(named(a + b) =~= named(a) + named(b));
    }
}

proof fn lemma_functions_concat(a: Seq<Tool>, b: Seq<Tool>)
    ensures
        tool_functions(a + b) == tool_functions(a) + tool_functions(b),
    decreases b.len(),
{
    if b.len() == 0 {
        assert(a + b =~= a);
        assert(tool_functions(a) + tool_functions(b) =~= tool_functions(a));
    } else {
        lemma_functions_concat(a, b.drop_last());
        assert((a + b).drop_last() =~= a + b.drop_last());
        assert(tool_functions(a + b) =~= tool_functions(a) + tool_functions(b));
    }
}

/// The tools stand in the order in which they were sent, those of `tools` before those
/// of `functions`, and each as often as it was sent.
pub proof fn law_tools_keep_their_order(
    first: &ChatRequest,
    second: &ChatRequest,
    both: &ChatRequest,
    r1: Vec<&FunctionDef>,
    r2: Vec<&FunctionDef>,
    r: Vec<&FunctionDef>,
)
    requires
        call_ensures(ChatRequest::declared_tools, (first,), r1),
        call_ensures(ChatRequest::declared_tools, (second,), r2),
        call_ensures(ChatRequest::declared_tools, (both,), r),
        first.functions is None,
        (second.functions is None && both.functions is None && seq_of(both.tools) == seq_of(
            first.tools,
        ) + seq_of(second.tools)) || (second.tools is None && both.tools == first.tools
            && both.functions == second.functions),
    ensures
        targets(r@) == targets(r1@) + targets(r2@),
        first.tools is Some && first.tools->0@.len() == 1 ==> r1@.len() == (match first.tools->0@[0].function {
            Some(f) => if blank(f.name@) {
                0int
            } else {
                1
            },
            None => 0,
        }),
        second.functions is Some && second.functions->0@.len() == 1 && second.tools is None ==> r2@.len()
            == (if blank(second.functions->0@[0].name@) {
            0int
        } else {
            1
        }),
{
    let a = tool_functions(seq_of(first.tools));
    let b = tool_functions(seq_of(second.tools));
    let none = Seq::<FunctionDef>::empty();
    assert(a + none =~= a);
    assert(b + none =~= b);
    if second.tools is None {
        assert(none + seq_of(second.functions) =~= seq_of(second.functions));
        lemma_named_concat(a, seq_of(second.functions));
    } else {
        lemma_functions_concat(seq_of(first.tools), seq_of(second.tools));
        assert((a + b) + none =~= a + b);
        lemma_named_concat(a, b);
    }
    reveal(Seq::filter);
    assert(targets(r1@).len() == r1@.len());
    assert(targets(r2@).len() == r2@.len());
    if let Some(list) = first.tools {
        if list@.len() == 1 {
            assert(tool_functions(list@.drop_last()) == none);
            match list@[0].function {
                Some(f) => {
                    assert(a =~= seq![f]);
                    assert(a.drop_last() =~= none);
                },
                None => {},
            }
        }
    }
    if let Some(list) = second.functions {
        if list@.len() == 1 {
            assert(list@.drop_last() =~= none);
        }
    }
}

/// What a tool choice means.
pub proof fn law_the_choice_of_tools(req: &ChatRequest, r: ToolChoiceMode)
    requires
        call_ensures(ChatRequest::tool_mode, (req,), r),
    ensures
        match req.tool_choice {
            None => r is Auto,
            Some(ToolChoice::Mode(s)) => {
                let word = lower(trim(s@));
                &&& word == "none"@ ==> r is Off
                &&& word == "required"@ || word == "any"@ ==> r is Required
                &&& word != "none"@ && word != "required"@ && word != "any"@ ==> r is Auto
            },
            Some(ToolChoice::Named { kind: _, function: Some(f) }) => if blank(f.name@) {
                r is Auto
            } else {
                r matches ToolChoiceMode::Function(name) && name@ == trim(f.name@)
            },
            Some(_) => r is Auto,
        },
{
    reveal_strlit("none");
    reveal_strlit("required");
    reveal_strlit("any");
    assert("none"@.len() == 4 && "required"@.len() == 8 && "any"@.len() == 3);
}

// ───────────────────────── the payload ─────────────────────────

/// Tools are emulated if that is switched on, a tool has a name, and the client did not
/// switch tools off.
pub proof fn law_when_tools_are_emulated(cfg: Config, req: &ChatRequest, r: Vec<&FunctionDef>, mode: ToolChoiceMode)
    requires
        call_ensures(ChatRequest::declared_tools, (req,), r),
        call_ensures(ChatRequest::tool_mode, (req,), mode),
    ensures
        emulates(cfg, *req) <==> cfg.tool_emulation && r@.len() > 0 && !(mode is Off),
{
    assert(targets(r@).len() == r@.len());
}

/// The request that the gateway gets: the chosen model, the conversation as it was folded,
/// the system text with the block of tools behind it, and the reminder at the end of the
/// last turn of the user's.
pub proof fn law_what_the_gateway_gets(
    cfg: Config,
    req: &ChatRequest,
    model: ResolvedModel,
    p: Prepared,
    own: (Option<String>, Vec<String>),
    tools: &Vec<&FunctionDef>,
    mode: &ToolChoiceMode,
    block: Option<String>,
    reminder: Option<String>,
    list: &[crate::openai::Message],
)
    requires
        p.is_for(cfg, *req, model),
        list@ == req.messages@,
        call_ensures(fold_messages, (list,), own),
        call_ensures(ChatRequest::declared_tools, (req,), *tools),
        call_ensures(ChatRequest::tool_mode, (req,), *mode),
        call_ensures(render_system_block, (tools, mode), block),
        call_ensures(render_tail_reminder, (mode,), reminder),
    ensures
        ({
            let emulated = cfg.tool_emulation && tools@.len() > 0 && !(mode is Off);
            let sent = views(p.payload.contents@);
            let said = views(own.1@);
            let system = p.payload.system_prompt;
            &&& views(p.payload.model_ids@) == seq![model.model_id@]
            &&& p.payload.is_stream <==> req.stream == Some(true)
            &&& !emulated ==> {
                &&& opt_text(system) == opt_text(own.0)
                &&& said.len() > 0 ==> sent == said
                &&& p.tool_names@.len() == 0
            }
            &&& emulated ==> {
                &&& block is Some && reminder is Some && system is Some
                &&& own.0 is None ==> system->0@ == block->0@
                &&& own.0 matches Some(o) ==> system->0@ == o@ + "\n\n"@ + block->0@
                &&& said.len() % 2 == 1 ==> sent == said.drop_last().push(
                    said.last() + "\n\n"@ + reminder->0@,
                )
                &&& said.len() > 0 && said.len() % 2 == 0 ==> sent == said.push(reminder->0@)
                &&& said.len() == 0 ==> sent == seq!["(continue)"@ + "\n\n"@ + reminder->0@]
                &&& p.tool_names@.len() == tools@.len()
                &&& forall|k: int|
                    0 <= k < tools@.len() ==> (#[trigger] p.tool_names@[k])@ == trim(tools@[k].name@)
            }
            &&& !emulated && said.len() == 0 ==> sent == seq!["(continue)"@] && own.0 is Some
        }),
{
    assert(targets(tools@).len() == tools@.len());
    assert(emulates(cfg, *req) == (cfg.tool_emulation && tools@.len() > 0 && !(mode is Off)));
    assert((opt_text(own.0), views(own.1@)) == folded(req.messages@));
    let names = views(p.tool_names@);
    assert(names.len() == p.tool_names@.len());
    let said = views(own.1@);
    if emulates(cfg, *req) {
        assert forall|k: int| 0 <= k < tools@.len() implies (#[trigger] p.tool_names@[k])@ == trim(
            tools@[k].name@,
        ) by {
            assert(names[k] == p.tool_names@[k]@);
            assert(targets(tools@)[k] == *tools@[k]);
        }
        if said.len() == 0 {
            let one = seq!["(continue)"@];
            assert(one.drop_last() =~= seq![]);
            assert(views(p.payload.contents@)
                =~= seq!["(continue)"@ + "\n\n"@ + reminder->0@]);
        }
    }
}

/// The settings that are sent are those of the request, and the fingerprint is that of
/// the model.
pub proof fn law_what_else_the_gateway_gets(
    cfg: Config,
    req: &ChatRequest,
    model: ResolvedModel,
    p: Prepared,
    settings: Option<LlmConfig>,
    id: &str,
    fingerprint: String,
)
    requires
        p.is_for(cfg, *req, model),
        call_ensures(LlmConfig::from_request, (req,), settings),
        id@ == model.model_id@,
        call_ensures(system_fingerprint, (id,), fingerprint),
    ensures
        p.fingerprint@ == fingerprint@,
        p.payload.llm_config is Some <==> settings is Some,
        p.payload.llm_config matches Some(c) ==> {
            let d = settings->0;
            &&& c.top_p == d.top_p && c.repetition_penalty == d.repetition_penalty
                && c.repetion_penalty == d.repetion_penalty && c.top_k == d.top_k && c.tok_k == d.tok_k
                && c.seed == d.seed && c.max_new_tokens == d.max_new_tokens
            &&& c.temperature is Some <==> d.temperature is Some
            &&& c.temperature is Some ==> c.temperature->0.bits == d.temperature->0.bits
        },
{
}

/// What a request begins as: it is read as JSON where it is JSON, and the log shows it
/// whole; of anything else the log shows the beginning.
pub proof fn law_how_a_request_begins(
    cfg: &Config,
    client: Option<String>,
    body: &[u8],
    r: (Ctx, Json),
)
    requires
        call_ensures(Ctx::begin, (cfg, client, body), r),
    ensures
        r.0.client == client,
        r.0.raw_upstream@.enabled && r.0.raw_client@.enabled == cfg.raw_wire_log,
        json_parse_bytes(body@) matches Ok(tree) ==> r.1@ == tree && (!(tree is Null)
            ==> r.0.req_openai@ == json_pretty(tree)),
        json_parse_bytes(body@) is Err ==> r.1@ is Null && r.0.req_openai@ == preview_view(
            utf8_lossy(body@),
            2000,
        ),
        r.0.fabrix_url@ == crate::config::origin(cfg.fabrix_base_url@) + "/openapi/chat/v1/messages"@,
{
}

/// What is known of a request that was prepared: its model, whether the client named one,
/// and how it stands with its tools.
pub proof fn law_what_is_known_of_a_request(
    ctx: Ctx,
    cfg: Config,
    req: &ChatRequest,
    model: ResolvedModel,
    tools: Vec<&FunctionDef>,
    mode: ToolChoiceMode,
)
    requires
        ctx.knows_model(*req, model),
        ctx.knows_tools(cfg, *req),
        call_ensures(ChatRequest::declared_tools, (req,), tools),
        call_ensures(ChatRequest::tool_mode, (req,), mode),
    ensures
        opt_text(ctx.model_id) == Some(model.model_id@),
        opt_text(ctx.model_alias) == Some(model.alias@),
        opt_text(ctx.model_label) == Some(model.label@),
        ctx.model_defaulted <==> req.model is None || blank(req.model->0@),
        ctx.tools_declared == tools@.len(),
        ctx.tools_emulated <==> cfg.tool_emulation && tools@.len() > 0 && !(mode is Off),
        ctx.tools_choice_none <==> mode is Off,
{
    assert(targets(tools@).len() == tools@.len());
}

/// The answer goes under the name that the client used for the model, or under the
/// model's alias where the client named none.
pub proof fn law_the_model_is_echoed(cfg: Config, req: &ChatRequest, model: ResolvedModel, p: Prepared)
    requires
        p.is_for(cfg, *req, model),
    ensures
        req.model matches Some(m) && !blank(m@) ==> p.echo_model@ == trim(req.model->0@),
        req.model is None ==> p.echo_model@ == model.alias@,
        req.model matches Some(m) && blank(m@) ==> p.echo_model@ == model.alias@,
{
}

/// The prompt that is counted holds the system text and everything that is said.
pub proof fn law_the_whole_prompt_is_counted(system: Option<Seq<char>>, contents: Seq<Seq<char>>, k: int)
    requires
        0 <= k < contents.len(),
    ensures
        contains(whole_prompt(system, contents), contents[k]),
        system matches Some(s) ==> contains(whole_prompt(system, contents), s),
        system matches Some(s) ==> whole_prompt(system, contents) == s + "\n\n"@ + whole_prompt(
            None,
            contents,
        ),
{
    match system {
        Some(s) => {
            let all = seq![s] + contents;
            assert(all[k + 1] == contents[k]);
            lemma_join_holds(all, "\n\n"@, k + 1);
            lemma_join_holds(all, "\n\n"@, 0);
            lemma_join_concat(seq![s], contents, "\n\n"@);
        },
        None => {
            lemma_join_holds(contents, "\n\n"@, k);
        },
    }
}

/// A client that names a model gets that one or is refused; one that names none gets the
/// default.
pub proof fn law_which_model_answers(
    req: &ChatRequest,
    models: &[ResolvedModel],
    name: &str,
    alias: &str,
    asked: Option<&ResolvedModel>,
    fallback: Option<&ResolvedModel>,
)
    requires
        call_ensures(find_model, (models, name), asked),
        call_ensures(default_model, (models, alias), fallback),
    ensures
        req.model is Some && !blank(req.model->0@) && name@ == trim(req.model->0@) ==> {
            let r = chosen(models@, named_model(*req), alias@);
            (r is Some <==> asked is Some) && (r is Some ==> r->0 == *asked->0)
        },
        req.model is None || blank(req.model->0@) ==> {
            let r = chosen(models@, named_model(*req), alias@);
            (r is Some <==> fallback is Some) && (r is Some ==> r->0 == *fallback->0)
        },
{
}

/// A refusal says what is wrong, with which field, and under which code; and one for an
/// unknown model is a 404 that names it.
pub proof fn law_refusals(r: Refusal, f: Fault, q: Refusal, name: Seq<char>)
    requires
        refuses_fault(r, f),
        refuses_model(q, Some(name)),
    ensures
        r.status == 400 && r.envelope.error.message@ == f.message && r.body@ == f.message,
        opt_text(r.envelope.error.param) == Some(f.param),
        opt_text(r.envelope.error.code) == Some(f.code),
        r.envelope.error.kind@ == "invalid_request_error"@,
        contains(r.note@, f.param),
        q.status == 404 && contains(q.envelope.error.message@, name),
        opt_text(q.envelope.error.param) == Some("model"@),
        opt_text(q.envelope.error.code) == Some("model_not_found"@),
{
    lemma_holds("잘못된 요청 · "@, f.param, seq![]);
    assert("잘못된 요청 · "@ + f.param + Seq::<char>::empty() =~= r.note@);
    lemma_holds(
        "모델 '"@,
        name,
        "' 을(를) 찾을 수 없습니다. GET /v1/models 또는 트레이 메뉴의 「모델 목록」에서 모델 ID 를 확인하세요."@,
    );
}

// ───────────────────────── the settings ─────────────────────────

/// The number 1.
pub open spec fn is_one(v: Real) -> bool {
    v.bits == 0x3ff0_0000_0000_0000 && v.shown@ == "1"@
}

/// Each setting goes where it belongs, as it was asked for; only a temperature above 1
/// (`0x3ff0…`) becomes 1. Without a setting none are sent.
pub proof fn law_the_settings(req: &ChatRequest, r: Option<LlmConfig>)
    requires
        call_ensures(LlmConfig::from_request, (req,), r),
    ensures
        r is None <==> req.temperature is None && req.top_p is None && req.frequency_penalty is None
            && req.top_k is None && req.seed is None && req.max_tokens is None
            && req.max_completion_tokens is None,
        r matches Some(c) ==> {
            &&& c.top_p == req.top_p
            &&& c.repetition_penalty == req.frequency_penalty
            &&& c.repetion_penalty == req.frequency_penalty
            &&& c.top_k == req.top_k
            &&& c.tok_k == req.top_k
            &&& c.seed == req.seed
            &&& req.max_tokens is Some ==> c.max_new_tokens == req.max_tokens
            &&& req.max_tokens is None ==> c.max_new_tokens == req.max_completion_tokens
            &&& c.temperature is Some <==> req.temperature is Some
            &&& req.temperature matches Some(t) ==> {
                &&& t.bits <= 0x3ff0_0000_0000_0000 ==> c.temperature == Some(t)
                &&& 0x3ff0_0000_0000_0000 < t.bits < 0x8000_0000_0000_0000 ==> is_one(
                    c.temperature->0,
                )
                &&& 0x8000_0000_0000_0000 <= t.bits <= 0xfff0_0000_0000_0000 ==> c.temperature == Some(
                    t,
                )
                &&& t.bits > 0xfff0_0000_0000_0000 ==> is_one(c.temperature->0)
            }
        },
{
}

} // verus!
