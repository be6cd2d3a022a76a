//! Emulated function calling.
//!
//! The gateway's request schema has no place for tools. On the way out the tools
//! become a convention in the prompt; on the way in, blocks of the form
//! `<tool_call>{…}</tool_call>` are lifted out of the model's text and become
//! OpenAI tool calls.

use vstd::prelude::*;
use vstd::string::*;

use crate::ids::{all_hex, random_hex};
use crate::json::{
    json_members, json_parse, json_text, json_view, json_views, lemma_json_views, object3,
    reads_as, within_reach, Json, JsonView, RESERVED,
};
use crate::openai::{
    opt_text, targets, FunctionDef, ModeView, ToolCall, ToolCallFunction, ToolChoiceMode,
};
use crate::text::{
    chars_of, contains, find, join, lemma_find, lemma_trim_around, longer_than, occurs_at, partial_len,
    partial_tag, position_of, same, string_of, trim, trimmed, views,
};

use super::scan::{
    all_named, block_seg, item_call, item_calls, lemma_after, lemma_no_segs, lemma_one_seg,
    lemma_scan_block, lemma_scan_named, lemma_tag_lens, payload_calls, scan, tree_calls, Call,
    ChannelView, Seg, Step, CLOSE, MAX_CALL_BYTES, OPEN,
};

use super::think::{
    add_part, first_open, lemma_think_after, lemma_think_one, lemma_think_tags, merge, split_think,
    think_close, think_open, Part, ThinkSeg, ThinkState, ThinkStep,
};

verus! {

// ───────────────────────── counters ─────────────────────────

/// `x` after `n` increments of a 32-bit counter that wraps around.
pub open spec fn wrap_add(x: u32, n: nat) -> u32 {
    ((x + n) % 0x1_0000_0000) as u32
}

pub proof fn lemma_wrap_add(x: u32, m: nat, n: nat)
    ensures
        wrap_add(x, 0) == x,
        wrap_add(wrap_add(x, m), n) == wrap_add(x, m + n),
{
    let a = (x + m) as int;
    vstd::arithmetic::div_mod::lemma_add_mod_noop(a, n as int, 0x1_0000_0000);
    vstd::arithmetic::div_mod::lemma_add_mod_noop(a % 0x1_0000_0000, n as int, 0x1_0000_0000);
    vstd::arithmetic::div_mod::lemma_mod_twice(a, 0x1_0000_0000);
}

/// One increment of a 32-bit counter that wraps around.
pub fn bump(x: u32) -> (r: u32)
    ensures
        r == wrap_add(x, 1),
{
    if x == u32::MAX {
        0
    } else {
        x + 1
    }
}

// ───────────────────────── the convention in the prompt ─────────────────────────

pub const SYSTEM_HEAD: &'static str = "# Tool calling\n\nYou can call tools. Each line inside <tools> is one tool: its name, what it does, and a JSON Schema for its arguments.\n\n<tools>\n";

pub const SYSTEM_RULES: &'static str = "</tools>\n\nTo call a tool, emit a block in exactly this form:\n\n<tool_call>\n{\"name\": \"<one of the names above>\", \"arguments\": {<object matching that tool's schema>}}\n</tool_call>\n\nRules:\n- `arguments` MUST be a JSON object, never a string, and MUST match the schema.\n- One <tool_call> block per call. To call several tools at once, emit several blocks back to back with nothing between them.\n- Do NOT put <tool_call> blocks inside Markdown code fences, and do not describe the format in prose. Everything outside a <tool_call> block is shown to the user verbatim as your answer.\n- After you emit tool calls, stop and wait. Results come back on the next turn as `Tool result (id=..., name=...)` entries.\n- Earlier turns may already contain <tool_call> blocks carrying an extra `id` field. Those are records of calls that already happened; `id` links a call to its result. Do not repeat a call that already has a result.\n";

pub const SYSTEM_REQUIRED: &'static str = "- You MUST call at least one tool. Begin your reply with a <tool_call> block before any prose.\n";

pub const SYSTEM_AUTO: &'static str = "- If no tool is needed, just answer. Emit no <tool_call> block.\n";

pub const REMINDER_HEAD: &'static str = "# Reminder\nTo use a tool, emit a block exactly like <tool_call>{\"name\": \"<one of the names in <tools>>\", \"arguments\": {…}}</tool_call> — one block per call, no Markdown code fence, and nothing but JSON inside the block. Put the block in your reply itself, not only in your private reasoning.\n";

pub const REMINDER_REQUIRED: &'static str = "You must emit at least one <tool_call> block before any prose.\n";

pub const REMINDER_AUTO: &'static str = "If no tool is needed, just answer.\n";

/// The line that describes one tool.
pub open spec fn tool_entry(f: FunctionDef) -> JsonView {
    object3(
        "name"@,
        JsonView::Text(trim(f.name@)),
        "description"@,
        JsonView::Text(
            match f.description {
                Some(d) => d@,
                None => seq![],
            },
        ),
        "parameters"@,
        match f.parameters {
            Some(p) => p@,
            None => JsonView::Object(Map::empty()),
        },
    )
}

pub open spec fn tool_lines(tools: Seq<FunctionDef>) -> Seq<char>
    decreases tools.len(),
{
    if tools.len() == 0 {
        seq![]
    } else {
        tool_lines(tools.drop_last()) + json_text(tool_entry(tools.last())) + "\n"@
    }
}

/// The block that tells the model how to call the tools. There is none without a
/// tool, nor when the client switched tools off.
pub open spec fn system_block(tools: Seq<FunctionDef>, mode: ModeView) -> Option<Seq<char>> {
    if tools.len() == 0 {
        None
    } else {
        let front = SYSTEM_HEAD@ + tool_lines(tools) + SYSTEM_RULES@;
        match mode {
            ModeView::Off => None,
            ModeView::Required => Some(front + SYSTEM_REQUIRED@),
            ModeView::Auto => Some(front + SYSTEM_AUTO@),
            ModeView::Function(name) => Some(
                front + "- You MUST call the tool `"@ + name
                    + "` and no other tool. Begin your reply with exactly one <tool_call> block for `"@
                    + name + "`.\n"@,
            ),
        }
    }
}

/// The tree `v` is an object that tells what was declared of the tool `f`.
pub open spec fn describes(v: JsonView, f: FunctionDef) -> bool {
    &&& v is Object
    &&& v.get_text("name"@) == Some(trim(f.name@))
    &&& match f.description {
        Some(d) => v.get_text("description"@) == Some(d@),
        None => v.get_text("description"@) == Some(Seq::<char>::empty()),
    }
    &&& match f.parameters {
        Some(p) => v.get("parameters"@) == Some(p@),
        None => v.get("parameters"@) == Some(JsonView::Object(Map::empty())),
    }
}

/// The line is JSON for what was declared of the tool `f`. Where the tool's schema is of
/// whole numbers and few levels, reading the line gives that back.
pub open spec fn tells(line: Seq<char>, f: FunctionDef) -> bool {
    &&& exists|v: JsonView| line == #[trigger] json_text(v) && describes(v, f)
    &&& (f.parameters matches Some(p) ==> p@.plain(126)) ==> (json_parse(line) matches Ok(v)
        && describes(v, f))
}

/// Inside `<tools>` the block has one line for each tool, in their order.
pub open spec fn lists_tools(
    block: Seq<char>,
    tools: Seq<FunctionDef>,
    lines: Seq<Seq<char>>,
    rest: Seq<char>,
) -> bool {
    &&& block == SYSTEM_HEAD@ + join(lines, "\n"@) + "\n</tools>\n"@ + rest
    &&& lines.len() == tools.len()
    &&& forall|k: int| 0 <= k < tools.len() ==> tells(#[trigger] lines[k], tools[k])
}

pub open spec fn entry_lines(tools: Seq<FunctionDef>) -> Seq<Seq<char>> {
    Seq::new(tools.len(), |k: int| json_text(tool_entry(tools[k])))
}

proof fn lemma_tool_lines(tools: Seq<FunctionDef>)
    requires
        tools.len() > 0,
    ensures
        tool_lines(tools) == join(entry_lines(tools), "\n"@) + "\n"@,
    decreases tools.len(),
{
    let all = entry_lines(tools);
    if tools.len() == 1 {
        assert(tool_lines(tools.drop_last()) =~= seq![]);
        assert(tool_lines(tools) =~= all[0] + "\n"@);
    } else {
        lemma_tool_lines(tools.drop_last());
        assert(all.drop_last() =~= entry_lines(tools.drop_last()));
    }
}

proof fn lemma_entry_tells(f: FunctionDef)
    requires
        tool_entry(f).plain(127) ==> reads_as(json_text(tool_entry(f)), tool_entry(f)),
    ensures
        tells(json_text(tool_entry(f)), f),
{
    let v = tool_entry(f);
    reveal_strlit("name");
    reveal_strlit("description");
    reveal_strlit("parameters");
    reveal_strlit("$serde_json::private::RawValue");
    assert("name"@.len() == 4 && "description"@.len() == 11 && "parameters"@.len() == 10
        && RESERVED@.len() == 30);
    assert(describes(v, f));
    if f.parameters matches Some(p) ==> p@.plain(126) {
        let m = v->Object_0;
        assert forall|k: Seq<char>| m.dom().contains(k) implies (#[trigger] m[k]).plain(126) by {}
    }
}

proof fn lemma_rules_open()
    ensures
        SYSTEM_RULES@.len() > 9,
        "\n</tools>\n"@ == "\n"@ + SYSTEM_RULES@.take(9),
{
    reveal_strlit("\n");
    reveal_strlit("\n</tools>\n");
    reveal_strlit("</tools>\n\nTo call a tool, emit a block in exactly this form:\n\n<tool_call>\n{\"name\": \"<one of the names above>\", \"arguments\": {<object matching that tool's schema>}}\n</tool_call>\n\nRules:\n- `arguments` MUST be a JSON object, never a string, and MUST match the schema.\n- One <tool_call> block per call. To call several tools at once, emit several blocks back to back with nothing between them.\n- Do NOT put <tool_call> blocks inside Markdown code fences, and do not describe the format in prose. Everything outside a <tool_call> block is shown to the user verbatim as your answer.\n- After you emit tool calls, stop and wait. Results come back on the next turn as `Tool result (id=..., name=...)` entries.\n- Earlier turns may already contain <tool_call> blocks carrying an extra `id` field. Those are records of calls that already happened; `id` links a call to its result. Do not repeat a call that already has a result.\n");
    assert("\n</tools>\n"@ =~= "\n"@ + SYSTEM_RULES@.take(9));
}

/// The tree of an object that holds nothing.
fn empty_object() -> (r: Json)
    ensures
        r@ == JsonView::Object(Map::empty()),
{
    let list: Vec<(String, Json)> = Vec::new();
    assert(json_members(list@) =~= Map::empty());
    Json::Object(list)
}

fn entry_of(f: &FunctionDef) -> (r: Json)
    ensures
        r@ == tool_entry(*f),
{
    let description = match &f.description {
        Some(d) => d.clone(),
        None => String::new(),
    };
    let parameters = match &f.parameters {
        Some(p) => p.copy(),
        None => empty_object(),
    };
    assert(description@ =~= match f.description {
        Some(d) => d@,
        None => seq![],
    });
    Json::object3(
        "name",
        Json::text(trimmed(f.name.as_str())),
        "description",
        Json::Text(description),
        "parameters",
        parameters,
    )
}

pub fn render_system_block(tools: &Vec<&FunctionDef>, mode: &ToolChoiceMode) -> (r: Option<String>)
    ensures
        opt_text(r) == system_block(targets(tools@), mode@),
        r matches Some(block) ==> exists|lines: Seq<Seq<char>>, rest: Seq<char>|
            #[trigger] lists_tools(block@, targets(tools@), lines, rest),
{
    assert(targets(tools@).len() == tools@.len());
    if tools.len() == 0 || mode.is_off() {
        return None;
    }
    let mut out = SYSTEM_HEAD.to_owned();
    let mut i: usize = 0;
    let ghost all = targets(tools@);
    proof {
        assert(all.take(0) =~= seq![]);
        assert(SYSTEM_HEAD@ + tool_lines(all.take(0)) =~= SYSTEM_HEAD@);
    }
    while i < tools.len()
        invariant
            i <= tools@.len(),
            all == targets(tools@),
            out@ == SYSTEM_HEAD@ + tool_lines(all.take(i as int)),
            forall|k: int| 0 <= k < i ==> tells(json_text(tool_entry(#[trigger] all[k])), all[k]),
        decreases tools@.len() - i,
    {
        let ghost before = out@;
        let line = entry_of(tools[i]).compact();
        out.append(line.as_str());
        out.append("\n");
        proof {
            assert(all.take(i + 1).drop_last() =~= all.take(i as int));
            assert(all.take(i + 1).last() == *tools@[i as int]);
            lemma_entry_tells(*tools@[i as int]);
            assert(before + line@ + "\n"@ =~= SYSTEM_HEAD@ + (tool_lines(all.take(i as int)) + line@
                + "\n"@));
        }
        i += 1;
    }
    assert(all.take(all.len() as int) =~= all);
    let ghost front = out@;
    out.append(SYSTEM_RULES);
    match mode {
        ToolChoiceMode::Required => out.append(SYSTEM_REQUIRED),
        ToolChoiceMode::Function(name) => {
            out.append("- You MUST call the tool `");
            out.append(name.as_str());
            out.append(
                "` and no other tool. Begin your reply with exactly one <tool_call> block for `",
            );
            out.append(name.as_str());
            out.append("`.\n");
        },
        _ => out.append(SYSTEM_AUTO),
    }
    proof {
        let start = front + SYSTEM_RULES@;
        let rest = out@.skip((front.len() + 9) as int);
        lemma_tool_lines(all);
        lemma_rules_open();
        assert(out@.take(start.len() as int) =~= start);
        assert(out@ =~= start + out@.skip(start.len() as int));
        assert("\n</tools>\n"@ =~= "\n"@ + SYSTEM_RULES@.take(9));
        assert(out@ =~= SYSTEM_HEAD@ + join(entry_lines(all), "\n"@) + "\n</tools>\n"@ + rest);
        assert(lists_tools(out@, all, entry_lines(all), rest));
    }
    Some(out)
}

/// A short reminder of the form of a call, for the end of the conversation.
pub open spec fn tail_reminder(mode: ModeView) -> Option<Seq<char>> {
    match mode {
        ModeView::Off => None,
        ModeView::Required => Some(REMINDER_HEAD@ + REMINDER_REQUIRED@),
        ModeView::Auto => Some(REMINDER_HEAD@ + REMINDER_AUTO@),
        ModeView::Function(name) => Some(
            REMINDER_HEAD@ + "You must emit exactly one <tool_call> block for `"@ + name
                + "` and call no other tool.\n"@,
        ),
    }
}

pub fn render_tail_reminder(mode: &ToolChoiceMode) -> (r: Option<String>)
    ensures
        opt_text(r) == tail_reminder(mode@),
{
    let mut out = REMINDER_HEAD.to_owned();
    match mode {
        ToolChoiceMode::Off => {
            return None;
        },
        ToolChoiceMode::Required => out.append(REMINDER_REQUIRED),
        ToolChoiceMode::Auto => out.append(REMINDER_AUTO),
        ToolChoiceMode::Function(name) => {
            out.append("You must emit exactly one <tool_call> block for `");
            out.append(name.as_str());
            out.append("` and call no other tool.\n");
        },
    }
    Some(out)
}

/// The arguments of an earlier call; where they are no JSON, an empty object.
pub open spec fn history_arguments(text: Seq<char>) -> JsonView {
    match json_parse(text) {
        Ok(v) => v,
        Err(_) => JsonView::Object(Map::empty()),
    }
}

/// What an earlier call's block says.
pub open spec fn history_entry(id: Seq<char>, name: Seq<char>, arguments: JsonView) -> JsonView {
    object3("id"@, JsonView::Text(id), "name"@, JsonView::Text(name), "arguments"@, arguments)
}

/// An earlier call, in the form in which the model is told to call.
pub open spec fn history_call(call: ToolCall) -> Seq<char> {
    OPEN@ + "\n"@ + json_text(
        history_entry(call.id@, call.function.name@, history_arguments(call.function.arguments@)),
    ) + "\n"@ + CLOSE@
}

/// The block of an earlier call can be read back: its arguments are an object of
/// whole numbers and few levels without the member that the reader keeps for itself,
/// and nothing in it looks like the closing tag.
pub open spec fn readable(call: ToolCall) -> bool {
    let arguments = history_arguments(call.function.arguments@);
    &&& arguments is Object
    &&& arguments.plain(126)
    &&& !contains(
        json_text(history_entry(call.id@, call.function.name@, arguments)),
        CLOSE@,
    )
}

/// The scan of a text to its end gives this call and no text.
pub open spec fn scans_to(text: Seq<char>, names: Seq<Seq<char>>, call: Call) -> bool {
    let step = scan(ChannelView { buf: text, in_call: false }, names, true);
    step.text() == Seq::<char>::empty() && step.calls() == seq![call]
}

/// Writes an earlier call down in the form in which the model is told to call. A
/// scanner that knows the tool reads the same call out of it.
pub fn render_history_call(call: &ToolCall) -> (r: String)
    ensures
        r@ == history_call(*call),
        forall|names: Seq<Seq<char>>|
            readable(*call) && names.contains(trim(call.function.name@)) ==> #[trigger] scans_to(
                r@,
                names,
                (
                    trim(call.function.name@),
                    json_text(history_arguments(call.function.arguments@)),
                ),
            ),
{
    let arguments = match Json::parse(call.function.arguments.as_str()) {
        Ok(v) => v,
        Err(_) => empty_object(),
    };
    let body = history_body(call.id.as_str(), call.function.name.as_str(), arguments);
    let mut out = OPEN.to_owned();
    out.append("\n");
    out.append(body.as_str());
    out.append("\n");
    out.append(CLOSE);
    proof {
        assert forall|names: Seq<Seq<char>>|
            readable(*call) && names.contains(trim(call.function.name@)) implies #[trigger] scans_to(
            out@,
            names,
            (trim(call.function.name@), json_text(history_arguments(call.function.arguments@))),
        ) by {
            lemma_history_scan(*call, body@, names);
        }
    }
    out
}

proof fn lemma_history_scan(call: ToolCall, body: Seq<char>, names: Seq<Seq<char>>)
    requires
        readable(call),
        names.contains(trim(call.function.name@)),
        body == json_text(
            history_entry(call.id@, call.function.name@, history_arguments(call.function.arguments@)),
        ),
        trim(body) == body,
        history_entry(
            call.id@,
            call.function.name@,
            history_arguments(call.function.arguments@),
        ).plain(127) ==> reads_as(
            body,
            history_entry(call.id@, call.function.name@, history_arguments(call.function.arguments@)),
        ),
    ensures
        scans_to(
            history_call(call),
            names,
            (trim(call.function.name@), json_text(history_arguments(call.function.arguments@))),
        ),
{
    let arguments = history_arguments(call.function.arguments@);
    let entry = history_entry(call.id@, call.function.name@, arguments);
    let payload = "\n"@ + body + "\n"@;
    reveal_strlit("\n");
    reveal_strlit("</tool_call>");
    reveal_strlit("id");
    reveal_strlit("name");
    reveal_strlit("arguments");
    assert("id"@ != "name"@ && "id"@ != "arguments"@ && "name"@ != "arguments"@) by {
        assert("id"@.len() != "name"@.len());
    }
    assert("\n"@ =~= seq!['\n']);
    let m = entry->Object_0;
    assert forall|k: Seq<char>| m.dom().contains(k) implies (#[trigger] m[k]).plain(126) by {
        if k != "arguments"@ {
            assert(m[k] is Text);
        }
    }
    reveal_strlit("$serde_json::private::RawValue");
    assert(RESERVED@.len() > 9);
    assert(!m.dom().contains(RESERVED@));
    assert(entry.plain(127));
    assert(payload =~= seq!['\n'] + body + seq!['\n']);
    lemma_trim_around('\n', body, '\n');
    assert(entry.get("name"@) == Some(JsonView::Text(call.function.name@)));
    assert(entry.get("arguments"@) == Some(arguments));
    assert(item_call(entry, names) == Some((trim(call.function.name@), json_text(arguments))));
    reveal_with_fuel(item_calls, 2);
    assert(seq![entry].drop_last() =~= seq![]);
    let one = (trim(call.function.name@), json_text(arguments));
    assert(Seq::<Call>::empty().push(one) =~= seq![one]);
    assert(payload_calls(payload, names) == seq![one]);
    lemma_find(body, CLOSE@);
    lemma_find(payload, CLOSE@);
    assert(!contains(payload, CLOSE@)) by {
        if contains(payload, CLOSE@) {
            let q = find(payload, CLOSE@)->0;
            let here = payload.subrange(q, q + CLOSE@.len());
            assert(here == CLOSE@);
            assert(here[0] == payload[q]);
            assert(here[11] == payload[q + 11]);
            assert(q > 0 && q + 12 < payload.len());
            assert(body.subrange(q - 1, q - 1 + CLOSE@.len()) =~= here);
            assert(occurs_at(body, CLOSE@, q - 1));
        }
    }
    lemma_scan_block(payload, names);
    assert(history_call(call) =~= OPEN@ + payload + CLOSE@);
}

/// The JSON text inside an earlier call's block.
pub fn history_body(id: &str, name: &str, arguments: Json) -> (r: String)
    ensures
        r@ == json_text(history_entry(id@, name@, arguments@)),
        trim(r@) == r@,
        history_entry(id@, name@, arguments@).plain(127) ==> reads_as(
            r@,
            history_entry(id@, name@, arguments@),
        ),
{
    Json::object3("id", Json::text(id), "name", Json::text(name), "arguments", arguments).compact()
}

// ───────────────────────── calls in a payload ─────────────────────────

pub open spec fn call_views(list: Seq<(String, String)>) -> Seq<Call> {
    list.map_values(|c: (String, String)| (c.0@, c.1@))
}

/// Whether `name` is one of `names`.
pub fn listed(names: &Vec<String>, name: &str) -> (r: bool)
    ensures
        r == views(names@).contains(name@),
{
    let mut i: usize = 0;
    while i < names.len()
        invariant
            i <= names@.len(),
            forall|k: int| 0 <= k < i ==> (#[trigger] names@[k])@ != name@,
        decreases names@.len() - i,
    {
        if same(names[i].as_str(), name) {
            assert(views(names@)[i as int] == name@);
            return true;
        }
        i += 1;
    }
    assert forall|k: int| 0 <= k < views(names@).len() implies views(names@)[k] != name@ by {
        assert(names@[k]@ != name@);
    }
    false
}

/// The text is JSON, as far as the reader's limits let it be read.
pub open spec fn well_written(text: Seq<char>) -> bool {
    within_reach(text) ==> json_parse(text) is Ok
}

fn written(v: &Json) -> (r: String)
    ensures
        r@ == json_text(v@),
        well_written(r@),
        v@ == JsonView::Object(Map::empty()) ==> r@ == "{}"@,
{
    v.compact()
}

/// The call that one item stands for, if it is a call of one of the tools in `names`.
fn call_of(item: &Json, names: &Vec<String>) -> (r: Option<(String, String)>)
    ensures
        match r {
            Some(c) => item_call(item@, views(names@)) == Some((c.0@, c.1@)) && well_written(c.1@),
            None => item_call(item@, views(names@)) is None,
        },
{
    let named = match item.get("name") {
        Some(v) => Some(v),
        None => item.get("function"),
    };
    let name = match named {
        Some(Json::Text(s)) => trimmed(s.as_str()).to_owned(),
        _ => {
            return None;
        },
    };
    if !listed(names, name.as_str()) {
        return None;
    }
    let raw = match item.get("arguments") {
        Some(v) => Some(v),
        None => match item.get("parameters") {
            Some(v) => Some(v),
            None => item.get("args"),
        },
    };
    let arguments = match raw {
        None => written(&empty_object()),
        Some(Json::Null) => written(&empty_object()),
        Some(Json::Text(s)) => match Json::parse(s.as_str()) {
            Ok(inner) => written(&inner),
            Err(_) => {
                return None;
            },
        },
        Some(v) => written(v),
    };
    Some((name, arguments))
}

pub open spec fn all_well_written(list: Seq<(String, String)>) -> bool {
    forall|k: int| 0 <= k < list.len() ==> well_written((#[trigger] list[k]).1@)
}

/// The calls that a payload's tree stands for, if it stands for calls of the tools
/// in `names` and nothing else.
pub fn calls_in_tree(tree: &Json, names: &Vec<String>) -> (r: Option<Vec<(String, String)>>)
    ensures
        match r {
            Some(calls) => tree_calls(tree@, views(names@)) == Some(call_views(calls@))
                && all_well_written(calls@),
            None => tree_calls(tree@, views(names@)) is None,
        },
{
    let mut out: Vec<(String, String)> = Vec::new();
    assert(call_views(out@) =~= seq![]);
    match tree {
        Json::Array(items) => {
            let ghost all = json_views(items@);
            proof {
                lemma_json_views(items@);
                assert(all.take(0) =~= seq![]);
            }
            let mut i: usize = 0;
            while i < items.len()
                invariant
                    i <= items@.len() == all.len(),
                    tree@ == JsonView::Array(all),
                    forall|k: int| 0 <= k < all.len() ==> #[trigger] all[k] == json_view(items@[k]),
                    item_calls(all.take(i as int), views(names@)) == Some(call_views(out@)),
                    all_well_written(out@),
                decreases items@.len() - i,
            {
                proof {
                    assert(all.take(i + 1).drop_last() =~= all.take(i as int));
                    assert(all.take(i + 1).last() == all[i as int]);
                }
                match call_of(&items[i], names) {
                    Some(c) => {
                        let ghost before = out@;
                        out.push(c);
                        assert(call_views(out@) =~= call_views(before).push((c.0@, c.1@)));
                    },
                    None => {
                        proof {
                            lemma_item_calls_fail(all, views(names@), i as int);
                        }
                        return None;
                    },
                }
                i += 1;
            }
            assert(all.take(all.len() as int) =~= all);
            Some(out)
        },
        _ => {
            proof {
                reveal_with_fuel(item_calls, 2);
                assert(seq![tree@].drop_last() =~= seq![]);
            }
            match call_of(tree, names) {
                Some(c) => {
                    out.push(c);
                    assert(call_views(out@) =~= seq![(c.0@, c.1@)]);
                    assert(Seq::<Call>::empty().push((c.0@, c.1@)) =~= seq![(c.0@, c.1@)]);
                    Some(out)
                },
                None => None,
            }
        },
    }
}

proof fn lemma_item_calls_fail(items: Seq<JsonView>, names: Seq<Seq<char>>, i: int)
    requires
        0 <= i < items.len(),
        item_call(items[i], names) is None,
    ensures
        item_calls(items, names) is None,
    decreases items.len(),
{
    if i < items.len() - 1 {
        lemma_item_calls_fail(items.drop_last(), names, i);
    }
}

/// The calls in a block's payload; none if the block is no tool call.
pub fn parse_payload(payload: &str, names: &Vec<String>) -> (r: Vec<(String, String)>)
    ensures
        call_views(r@) == payload_calls(payload@, views(names@)),
        all_well_written(r@),
{
    let none: Vec<(String, String)> = Vec::new();
    assert(call_views(none@) =~= seq![]);
    match Json::parse(trimmed(payload)) {
        Ok(tree) => match calls_in_tree(&tree, names) {
            Some(calls) => calls,
            None => none,
        },
        Err(_) => none,
    }
}

// ───────────────────────── the scanner ─────────────────────────

#[derive(Debug, Clone, PartialEq)]
pub struct ScannedCall {
    pub index: u32,
    pub id: String,
    pub name: String,
    /// JSON text.
    pub arguments: String,
}

impl ScannedCall {
    pub fn copy(&self) -> (r: ScannedCall)
        ensures
            r == *self,
    {
        ScannedCall {
            index: self.index,
            id: self.id.clone(),
            name: self.name.clone(),
            arguments: self.arguments.clone(),
        }
    }
}

impl ToolCall {
    /// The tool call that a scanned call becomes in a response.
    pub fn from(c: &ScannedCall) -> (r: ToolCall)
        ensures
            r.id@ == c.id@,
            r.kind@ == "function"@,
            r.function.name@ == c.name@,
            r.function.arguments@ == c.arguments@,
    {
        ToolCall {
            id: c.id.clone(),
            kind: "function".to_owned(),
            function: ToolCallFunction { name: c.name.clone(), arguments: c.arguments.clone() },
        }
    }
}

/// `call_` and 24 hexadecimal digits.
pub open spec fn call_id(s: Seq<char>) -> bool {
    s.len() == 29 && s.take(5) == "call_"@ && all_hex(s.skip(5))
}

/// The id of a call, out of 32 digits that were drawn: the first 24 count.
pub fn call_id_of(drawn: &str) -> (r: String)
    requires
        drawn@.len() == 32,
    ensures
        r@ == "call_"@ + drawn@.take(24),
        all_hex(drawn@) ==> call_id(r@),
{
    let mut out = "call_".to_owned();
    out.append(drawn.substring_char(0, 24));
    proof {
        reveal_strlit("call_");
        assert(drawn@.subrange(0, 24) =~= drawn@.take(24));
        assert(out@.take(5) =~= "call_"@);
        assert(out@.skip(5) =~= drawn@.take(24));
    }
    out
}

fn new_call_id() -> (r: String)
    ensures
        call_id(r@),
{
    call_id_of(random_hex().as_str())
}

#[derive(Debug, PartialEq)]
pub struct ScanOut {
    /// Text that can be handed on.
    pub text: String,
    pub calls: Vec<ScannedCall>,
}

impl Default for ScanOut {
    fn default() -> (r: ScanOut)
        ensures
            r.text@.len() == 0,
            r.calls@.len() == 0,
    {
        ScanOut { text: String::new(), calls: Vec::new() }
    }
}

/// The scanned calls are these, numbered onward from `first`, each with an id and
/// with arguments that are JSON.
pub open spec fn numbered(list: Seq<ScannedCall>, calls: Seq<Call>, first: u32) -> bool {
    &&& list.len() == calls.len()
    &&& forall|k: int|
        0 <= k < list.len() ==> {
            &&& (#[trigger] list[k]).index == wrap_add(first, k as nat)
            &&& list[k].name@ == calls[k].0
            &&& list[k].arguments@ == calls[k].1
            &&& call_id(list[k].id@)
            &&& well_written(list[k].arguments@)
        }
}

impl ScanOut {
    /// The output shows what a step settled.
    pub open spec fn shows(self, step: Step, first: u32) -> bool {
        self.text@ == step.text() && numbered(self.calls@, step.calls(), first)
    }
}

/// The two streams in which a model answers.
#[derive(Debug, Clone, Copy, PartialEq, Eq, Structural)]
pub enum Channel {
    /// The answer that the user sees.
    Content,
    /// The model's reasoning, whether it came apart or inside `<think>`.
    Reasoning,
}

#[derive(Debug)]
struct ChannelState {
    buf: Vec<char>,
    in_call: bool,
}

impl ChannelState {
    spec fn model(self) -> ChannelView {
        ChannelView { buf: self.buf@, in_call: self.in_call }
    }

    fn fresh() -> (r: ChannelState)
        ensures
            r.model() == ChannelView::fresh(),
    {
        let r = ChannelState { buf: Vec::new(), in_call: false };
        assert(r.buf@ =~= seq![]);
        r
    }
}

/// Scans what a channel holds. Gives the output, the channel's new state, the next
/// index and the number of refusals so far.
fn scan_channel(
    start: ChannelState,
    names: &Vec<String>,
    first: u32,
    rejected: u32,
    eof: bool,
) -> (r: (ScanOut, ChannelState, u32, u32))
    ensures
        ({
            let step = scan(start.model(), views(names@), eof);
            &&& r.0.shows(step, first)
            &&& r.1.model() == step.state
            &&& r.2 == wrap_add(first, step.calls().len())
            &&& r.3 == wrap_add(rejected, step.refused())
        }),
{
    let open = chars_of(OPEN);
    let close = chars_of(CLOSE);
    let ghost tools = views(names@);
    let ghost goal = scan(start.model(), tools, eof);
    let ghost mut done: Seq<Call> = seq![];
    let ghost mut refused: nat = 0;
    let mut st = start;
    let mut text = String::new();
    let mut calls: Vec<ScannedCall> = Vec::new();
    let mut next: u32 = first;
    let mut rejects: u32 = rejected;
    proof {
        lemma_tag_lens();
        lemma_wrap_add(first, 0, 0);
        lemma_wrap_add(rejected, 0, 0);
        assert(text@ + goal.text() =~= goal.text());
        assert(done + goal.calls() =~= goal.calls());
    }
    loop
        invariant
            open@ == OPEN@,
            close@ == CLOSE@,
            OPEN@.len() == 11,
            CLOSE@.len() == 12,
            tools == views(names@),
            goal == scan(start.model(), tools, eof),
            text@ + scan(st.model(), tools, eof).text() == goal.text(),
            done + scan(st.model(), tools, eof).calls() == goal.calls(),
            refused + scan(st.model(), tools, eof).refused() == goal.refused(),
            scan(st.model(), tools, eof).state == goal.state,
            numbered(calls@, done, first),
            next == wrap_add(first, done.len()),
            rejects == wrap_add(rejected, refused),
        decreases st.buf@.len(),
    {
        let ghost cur = st.model();
        let ghost so_far = text@;
        let n: usize = st.buf.len();
        if st.in_call {
            proof {
                lemma_find(cur.buf, CLOSE@);
            }
            match position_of(&st.buf, &close) {
                Some(j) => {
                    let payload = string_of(&st.buf, 0, j);
                    let rest = st.buf.split_off(j + 12);
                    st = ChannelState { buf: rest, in_call: false };
                    let found = parse_payload(payload.as_str(), names);
                    proof {
                        assert(payload@ =~= cur.buf.take(j as int));
                        assert(st.buf@ =~= cur.buf.skip(j + 12));
                        lemma_after(scan(st.model(), tools, eof), block_seg(payload@, tools));
                        assert(call_views(found@).len() == found@.len());
                    }
                    if found.len() > 0 {
                        let ghost base = done;
                        let ghost all = call_views(found@);
                        let mut k: usize = 0;
                        assert(base + all.take(0) =~= base);
                        while k < found.len()
                            invariant
                                k <= found@.len(),
                                all == call_views(found@),
                                all_well_written(found@),
                                done == base + all.take(k as int),
                                numbered(calls@, done, first),
                                next == wrap_add(first, done.len()),
                            decreases found@.len() - k,
                        {
                            let ghost before = calls@;
                            calls.push(
                                ScannedCall {
                                    index: next,
                                    id: new_call_id(),
                                    name: found[k].0.clone(),
                                    arguments: found[k].1.clone(),
                                },
                            );
                            next = bump(next);
                            proof {
                                lemma_wrap_add(first, done.len(), 1);
                                assert(all.take(k + 1) =~= all.take(k as int).push(all[k as int]));
                                assert(base + all.take(k + 1) =~= done.push(all[k as int]));
                                done = base + all.take(k + 1);
                                assert(calls@.drop_last() =~= before);
                            }
                            k += 1;
                        }
                        proof {
                            assert(all.take(all.len() as int) =~= all);
                            assert(text@ + scan(st.model(), tools, eof).text() =~= so_far + scan(
                                cur,
                                tools,
                                eof,
                            ).text());
                            assert(done + scan(st.model(), tools, eof).calls() =~= base + scan(
                                cur,
                                tools,
                                eof,
                            ).calls());
                        }
                    } else {
                        text.append(OPEN);
                        text.append(payload.as_str());
                        text.append(CLOSE);
                        rejects = bump(rejects);
                        proof {
                            lemma_wrap_add(rejected, refused, 1);
                            refused = refused + 1;
                            assert(text@ + scan(st.model(), tools, eof).text() =~= so_far + scan(
                                cur,
                                tools,
                                eof,
                            ).text());
                            assert(done + scan(st.model(), tools, eof).calls() =~= done + scan(
                                cur,
                                tools,
                                eof,
                            ).calls());
                        }
                    }
                },
                None => {
                    if eof || longer_than(&st.buf, MAX_CALL_BYTES) {
                        let held = string_of(&st.buf, 0, st.buf.len());
                        text.append(OPEN);
                        text.append(held.as_str());
                        rejects = bump(rejects);
                        st = ChannelState::fresh();
                        proof {
                            assert(held@ =~= cur.buf);
                            lemma_one_seg(Seg::Refused(OPEN@ + cur.buf));
                            lemma_wrap_add(rejected, refused, 1);
                            refused = refused + 1;
                            assert(text@ =~= goal.text());
                        }
                    } else {
                        proof {
                            lemma_no_segs();
                            assert(text@ =~= goal.text());
                        }
                    }
                    assert(done =~= goal.calls());
                    return (ScanOut { text, calls }, st, next, rejects);
                },
            }
        } else {
            proof {
                lemma_find(cur.buf, OPEN@);
            }
            match position_of(&st.buf, &open) {
                Some(i) => {
                    let prose = string_of(&st.buf, 0, i);
                    let rest = st.buf.split_off(i + 11);
                    text.append(prose.as_str());
                    st = ChannelState { buf: rest, in_call: true };
                    proof {
                        assert(prose@ =~= cur.buf.take(i as int));
                        assert(st.buf@ =~= cur.buf.skip(i + 11));
                        lemma_after(scan(st.model(), tools, eof), Seg::Prose(prose@));
                        assert(text@ + scan(st.model(), tools, eof).text() =~= so_far + scan(
                            cur,
                            tools,
                            eof,
                        ).text());
                        assert(done + scan(st.model(), tools, eof).calls() =~= done + scan(
                            cur,
                            tools,
                            eof,
                        ).calls());
                    }
                },
                None => {
                    let keep: usize = if eof {
                        0
                    } else {
                        partial_len(&st.buf, &open)
                    };
                    let cut: usize = st.buf.len() - keep;
                    let prose = string_of(&st.buf, 0, cut);
                    let rest = st.buf.split_off(cut);
                    text.append(prose.as_str());
                    st = ChannelState { buf: rest, in_call: false };
                    proof {
                        assert(prose@ =~= cur.buf.take(cut as int));
                        assert(st.buf@ =~= cur.buf.skip(cut as int));
                        lemma_one_seg(Seg::Prose(prose@));
                        assert(text@ =~= goal.text());
                        assert(done =~= goal.calls());
                    }
                    return (ScanOut { text, calls }, st, next, rejects);
                },
            }
        }
    }
}

/// Lifts `<tool_call>` blocks out of text that arrives piece by piece.
///
/// Each channel has a buffer of its own; the numbering of the calls is shared, so
/// that no two calls of a response have the same index.
#[derive(Debug)]
pub struct ToolCallScanner {
    enabled: bool,
    names: Vec<String>,
    content: ChannelState,
    reasoning: ChannelState,
    next_index: u32,
    /// How many blocks were no tool calls and went back as text.
    pub rejected: u32,
}

pub struct ScannerView {
    pub enabled: bool,
    pub names: Seq<Seq<char>>,
    pub content: ChannelView,
    pub reasoning: ChannelView,
    pub next_index: u32,
    /// How many blocks were no tool calls and went back as text.
    pub rejected: u32,
}

impl ScannerView {
    pub open spec fn fresh(names: Seq<Seq<char>>, enabled: bool) -> ScannerView {
        ScannerView {
            enabled: enabled && callable(names).len() > 0,
            names: callable(names),
            content: ChannelView::fresh(),
            reasoning: ChannelView::fresh(),
            next_index: 0,
            rejected: 0,
        }
    }

    /// The scanner after the content channel was made to forget what it holds back.
    pub open spec fn forgetful(self) -> ScannerView {
        ScannerView { content: ChannelView::fresh(), ..self }
    }

    pub open spec fn channel(self, ch: Channel) -> ChannelView {
        match ch {
            Channel::Content => self.content,
            Channel::Reasoning => self.reasoning,
        }
    }

    /// What happens when `delta` arrives on a channel. A scanner that is switched
    /// off lets everything through.
    pub open spec fn step(self, ch: Channel, delta: Seq<char>, eof: bool) -> Step {
        if self.enabled {
            scan(self.channel(ch).plus(delta), self.names, eof)
        } else {
            Step { segs: seq![Seg::Prose(delta)], state: self.channel(ch) }
        }
    }

    /// The scanner after a step on one channel; the other one is untouched.
    pub open spec fn after(self, ch: Channel, step: Step) -> ScannerView {
        ScannerView {
            content: if ch == Channel::Content {
                step.state
            } else {
                self.content
            },
            reasoning: if ch == Channel::Reasoning {
                step.state
            } else {
                self.reasoning
            },
            next_index: wrap_add(self.next_index, step.calls().len()),
            rejected: wrap_add(self.rejected, step.refused()),
            ..self
        }
    }
}

/// A scanner gives calls of the tools that it knows, and no others.
pub proof fn lemma_step_named(s: ScannerView, ch: Channel, text: Seq<char>, eof: bool)
    ensures
        all_named(s.step(ch, text, eof).calls(), s.names),
{
    if s.enabled {
        lemma_scan_named(s.channel(ch).plus(text), s.names, eof);
    } else {
        lemma_one_seg(Seg::Prose(text));
    }
}

/// The names that can be called: trimmed, without those that are blank.
pub open spec fn callable(names: Seq<Seq<char>>) -> Seq<Seq<char>>
    decreases names.len(),
{
    if names.len() == 0 {
        seq![]
    } else if blank_name(names.last()) {
        callable(names.drop_last())
    } else {
        callable(names.drop_last()).push(trim(names.last()))
    }
}

pub open spec fn blank_name(name: Seq<char>) -> bool {
    trim(name).len() == 0
}

impl View for ToolCallScanner {
    type V = ScannerView;

    closed spec fn view(&self) -> ScannerView {
        ScannerView {
            enabled: self.enabled,
            names: views(self.names@),
            content: self.content.model(),
            reasoning: self.reasoning.model(),
            next_index: self.next_index,
            rejected: self.rejected,
        }
    }
}

impl ToolCallScanner {
    /// A scanner for the given tools. Without a tool it lets everything through.
    pub fn new(names: Vec<String>, enabled: bool) -> (r: Self)
        ensures
            r@ == ScannerView::fresh(views(names@), enabled),
    {
        let mut kept: Vec<String> = Vec::new();
        let mut i: usize = 0;
        let ghost all = views(names@);
        assert(all.take(0) =~= seq![]);
        assert(views(kept@) =~= seq![]);
        while i < names.len()
            invariant
                i <= names@.len(),
                all == views(names@),
                views(kept@) == callable(all.take(i as int)),
            decreases names@.len() - i,
        {
            let ghost before = kept@;
            let name = trimmed(names[i].as_str());
            if !name.is_empty() {
                kept.push(name.to_owned());
                assert(views(kept@) =~= views(before).push(name@));
            }
            proof {
                assert(all.take(i + 1).drop_last() =~= all.take(i as int));
                assert(all.take(i + 1).last() == names@[i as int]@);
            }
            i += 1;
        }
        assert(all.take(all.len() as int) =~= all);
        assert(views(kept@).len() == kept@.len());
        ToolCallScanner {
            enabled: enabled && kept.len() > 0,
            names: kept,
            content: ChannelState::fresh(),
            reasoning: ChannelState::fresh(),
            next_index: 0,
            rejected: 0,
        }
    }

    /// Whether a call was found so far.
    pub fn saw_call(&self) -> (r: bool)
        ensures
            r == (self@.next_index > 0),
    {
        self.next_index > 0
    }

    pub fn call_count(&self) -> (r: u32)
        ensures
            r == self@.next_index,
    {
        self.next_index
    }

    pub fn rejected_count(&self) -> (r: u32)
        ensures
            r == self@.rejected,
    {
        self.rejected
    }

    /// Forgets what the content channel holds back. The numbering goes on: an index
    /// that was handed out is not used again.
    pub fn reset(&mut self)
        ensures
            final(self)@ == old(self)@.forgetful(),
    {
        self.content = ChannelState::fresh();
    }

    /// Takes in text on the content channel.
    pub fn push(&mut self, delta: &str) -> (r: ScanOut)
        ensures
            ({
                let step = old(self)@.step(Channel::Content, delta@, false);
                &&& r.shows(step, old(self)@.next_index)
                &&& final(self)@ == old(self)@.after(Channel::Content, step)
            }),
    {
        self.push_on(Channel::Content, delta)
    }

    /// Takes in text on a channel.
    pub fn push_on(&mut self, ch: Channel, delta: &str) -> (r: ScanOut)
        ensures
            ({
                let step = old(self)@.step(ch, delta@, false);
                &&& r.shows(step, old(self)@.next_index)
                &&& final(self)@ == old(self)@.after(ch, step)
            }),
    {
        if !self.enabled {
            proof {
                lemma_one_seg(Seg::Prose(delta@));
                lemma_wrap_add(self.next_index, 0, 0);
                lemma_wrap_add(self.rejected, 0, 0);
            }
            return ScanOut { text: delta.to_owned(), calls: Vec::new() };
        }
        self.drain(ch, chars_of(delta), false)
    }

    /// Ends the content channel.
    pub fn finish(&mut self) -> (r: ScanOut)
        ensures
            ({
                let step = old(self)@.step(Channel::Content, seq![], true);
                &&& r.shows(step, old(self)@.next_index)
                &&& final(self)@ == old(self)@.after(Channel::Content, step)
            }),
    {
        self.finish_on(Channel::Content)
    }

    /// Ends a channel. What was held back is let go as text.
    pub fn finish_on(&mut self, ch: Channel) -> (r: ScanOut)
        ensures
            ({
                let step = old(self)@.step(ch, seq![], true);
                &&& r.shows(step, old(self)@.next_index)
                &&& final(self)@ == old(self)@.after(ch, step)
            }),
    {
        if !self.enabled {
            proof {
                lemma_one_seg(Seg::Prose(seq![]));
                lemma_wrap_add(self.next_index, 0, 0);
                lemma_wrap_add(self.rejected, 0, 0);
            }
            return ScanOut { text: String::new(), calls: Vec::new() };
        }
        let more: Vec<char> = Vec::new();
        assert(more@ =~= seq![]);
        self.drain(ch, more, true)
    }

    fn drain(&mut self, ch: Channel, more: Vec<char>, eof: bool) -> (r: ScanOut)
        ensures
            ({
                let step = scan(old(self)@.channel(ch).plus(more@), old(self)@.names, eof);
                &&& r.shows(step, old(self)@.next_index)
                &&& final(self)@ == old(self)@.after(ch, step)
            }),
    {
        let mut more = more;
        let mut st = ChannelState::fresh();
        match ch {
            Channel::Content => core::mem::swap(&mut self.content, &mut st),
            Channel::Reasoning => core::mem::swap(&mut self.reasoning, &mut st),
        }
        st.buf.append(&mut more);
        let (out, after, next_index, rejected) = scan_channel(
            st,
            &self.names,
            self.next_index,
            self.rejected,
            eof,
        );
        self.next_index = next_index;
        self.rejected = rejected;
        match ch {
            Channel::Content => {
                self.content = after;
            },
            Channel::Reasoning => {
                self.reasoning = after;
            },
        }
        out
    }
}

// ───────────────────────── reasoning inside the answer ─────────────────────────

/// Text on channels, in the order in which it came.
#[derive(Debug, PartialEq)]
pub struct Split {
    pub parts: Vec<(Channel, String)>,
}

pub open spec fn part_views(list: Seq<(Channel, String)>) -> Seq<Part> {
    list.map_values(|p: (Channel, String)| (p.0, p.1@))
}

impl Split {
    /// Text that is not split: all of it is the answer.
    pub fn content(text: String) -> (r: Self)
        ensures
            part_views(r.parts@) == add_part(seq![], Channel::Content, text@),
    {
        let mut parts: Vec<(Channel, String)> = Vec::new();
        if !text.as_str().is_empty() {
            parts.push((Channel::Content, text));
        }
        assert(part_views(parts@) =~= add_part(seq![], Channel::Content, text@));
        Split { parts }
    }

    fn push(&mut self, ch: Channel, text: &str)
        ensures
            part_views(final(self).parts@) == add_part(part_views(old(self).parts@), ch, text@),
    {
        if text.is_empty() {
            return;
        }
        let ghost before = part_views(self.parts@);
        let n: usize = self.parts.len();
        if n > 0 && self.parts[n - 1].0 == ch {
            let mut last = match self.parts.pop() {
                Some((_, last)) => last,
                None => String::new(),
            };
            last.append(text);
            self.parts.push((ch, last));
            assert(part_views(self.parts@) =~= before.drop_last().push(
                (ch, before.last().1 + text@),
            ));
        } else {
            self.parts.push((ch, text.to_owned()));
            assert(part_views(self.parts@) =~= before.push((ch, text@)));
        }
    }
}

/// Splits `<think>…</think>` out of an answer that arrives piece by piece.
#[derive(Debug)]
pub struct ThinkSplitter {
    buf: Vec<char>,
    inside: Option<usize>,
    blocks: u32,
    unclosed: bool,
}

pub struct ThinkView {
    pub state: ThinkState,
    /// How many blocks were closed.
    pub blocks: u32,
    /// The text ended inside a block.
    pub unclosed: bool,
}

impl ThinkView {
    pub open spec fn after(self, step: ThinkStep) -> ThinkView {
        ThinkView {
            state: step.state,
            blocks: wrap_add(self.blocks, step.closed()),
            unclosed: self.unclosed || step.unclosed,
        }
    }
}

impl View for ThinkSplitter {
    type V = ThinkView;

    closed spec fn view(&self) -> ThinkView {
        ThinkView {
            state: ThinkState { buf: self.buf@, inside: self.inside },
            blocks: self.blocks,
            unclosed: self.unclosed,
        }
    }
}

/// The first opening tag in `buf`: its number and its place.
fn earliest_think_open(buf: &Vec<char>) -> (r: Option<(usize, usize)>)
    ensures
        match r {
            Some((i, at)) => first_open(buf@) == Some((i, at as int)),
            None => first_open(buf@) is None,
        },
{
    let short = position_of(buf, &chars_of("<think>"));
    let long = position_of(buf, &chars_of("<thinking>"));
    match (short, long) {
        (Some(a), Some(b)) => {
            if a < b {
                Some((0, a))
            } else {
                Some((1, b))
            }
        },
        (Some(a), None) => Some((0, a)),
        (None, Some(b)) => Some((1, b)),
        (None, None) => None,
    }
}

/// How much of the end of `buf` may be the beginning of `tag`, a tag of ASCII characters.
pub fn partial_tag_len(buf: &str, tag: &str) -> (r: usize)
    requires
        tag@.len() > 0,
    ensures
        r == partial_tag(buf@, tag@),
{
    partial_len(&chars_of(buf), &chars_of(tag))
}

fn close_tag(i: usize) -> (r: Vec<char>)
    ensures
        r@ == think_close(i),
        r@.len() > 0,
{
    proof {
        reveal_strlit("</think>");
        reveal_strlit("</thinking>");
    }
    if i == 0 {
        chars_of("</think>")
    } else {
        chars_of("</thinking>")
    }
}

impl ThinkSplitter {
    pub fn new() -> (r: Self)
        ensures
            r@ == (ThinkView { state: ThinkState::fresh(), blocks: 0, unclosed: false }),
    {
        let r = ThinkSplitter { buf: Vec::new(), inside: None, blocks: 0, unclosed: false };
        assert(r.buf@ =~= seq![]);
        r
    }

    /// Takes in text.
    pub fn push(&mut self, delta: &str) -> (r: Split)
        ensures
            ({
                let step = split_think(old(self)@.state.plus(delta@), false);
                &&& part_views(r.parts@) == step.parts()
                &&& final(self)@ == old(self)@.after(step)
            }),
    {
        let mut more = chars_of(delta);
        let ghost before = self.buf@;
        self.buf.append(&mut more);
        assert(self.buf@ =~= before + delta@);
        self.drain(false)
    }

    /// Ends the text. What was held back is let go.
    pub fn finish(&mut self) -> (r: Split)
        ensures
            ({
                let step = split_think(old(self)@.state, true);
                &&& part_views(r.parts@) == step.parts()
                &&& final(self)@ == old(self)@.after(step)
            }),
    {
        self.drain(true)
    }

    /// Forgets what is held back.
    pub fn reset(&mut self)
        ensures
            final(self)@ == (ThinkView { state: ThinkState::fresh(), ..old(self)@ }),
    {
        self.buf.clear();
        self.inside = None;
        assert(self.buf@ =~= seq![]);
    }

    /// How many blocks were split out.
    pub fn blocks(&self) -> (r: u32)
        ensures
            r == self@.blocks,
    {
        self.blocks
    }

    /// Whether the text ended inside a block.
    pub fn unclosed(&self) -> (r: bool)
        ensures
            r == self@.unclosed,
    {
        self.unclosed
    }

    fn drain(&mut self, eof: bool) -> (r: Split)
        ensures
            ({
                let step = split_think(old(self)@.state, eof);
                &&& part_views(r.parts@) == step.parts()
                &&& final(self)@ == old(self)@.after(step)
            }),
    {
        let ghost start = self@;
        let ghost goal = split_think(start.state, eof);
        let ghost mut closed: nat = 0;
        let mut out = Split { parts: Vec::new() };
        proof {
            lemma_think_tags();
            lemma_wrap_add(start.blocks, 0, 0);
            assert(part_views(out.parts@) =~= seq![]);
        }
        loop
            invariant
                think_open(0).len() == 7,
                think_open(1).len() == 10,
                think_close(0).len() == 8,
                think_close(1).len() == 11,
                start == old(self)@,
                goal == split_think(start.state, eof),
                merge(part_views(out.parts@), split_think(self@.state, eof).segs) == goal.parts(),
                closed + split_think(self@.state, eof).closed() == goal.closed(),
                split_think(self@.state, eof).state == goal.state,
                split_think(self@.state, eof).unclosed == goal.unclosed,
                self@.blocks == wrap_add(start.blocks, closed),
                self@.unclosed == start.unclosed,
            decreases self.buf@.len(),
        {
            let ghost cur = self@.state;
            let ghost parts = part_views(out.parts@);
            let n: usize = self.buf.len();
            match self.inside {
                Some(i) => {
                    let close = close_tag(i);
                    let width: usize = close.len();
                    proof {
                        lemma_find(cur.buf, think_close(i));
                    }
                    match position_of(&self.buf, &close) {
                        Some(j) => {
                            let thought = string_of(&self.buf, 0, j);
                            out.push(Channel::Reasoning, thought.as_str());
                            let rest = self.buf.split_off(j + width);
                            self.buf = rest;
                            self.inside = None;
                            self.blocks = bump(self.blocks);
                            proof {
                                assert(thought@ =~= cur.buf.take(j as int));
                                assert(self.buf@ =~= cur.buf.skip(j + width));
                                lemma_think_after(
                                    split_think(self@.state, eof),
                                    ThinkSeg::Thought(thought@),
                                    ThinkSeg::Closed(i),
                                    parts,
                                );
                                lemma_wrap_add(start.blocks, closed, 1);
                                closed = closed + 1;
                            }
                        },
                        None => {
                            if eof {
                                let tail = string_of(&self.buf, 0, n);
                                out.push(Channel::Reasoning, tail.as_str());
                                self.buf = Vec::new();
                                self.inside = None;
                                self.unclosed = true;
                                proof {
                                    assert(tail@ =~= cur.buf);
                                    assert(self.buf@ =~= seq![]);
                                    lemma_think_one(ThinkSeg::Thought(tail@), parts);
                                }
                            } else {
                                let cut: usize = n - partial_len(&self.buf, &close);
                                let ready = string_of(&self.buf, 0, cut);
                                out.push(Channel::Reasoning, ready.as_str());
                                let rest = self.buf.split_off(cut);
                                self.buf = rest;
                                proof {
                                    assert(ready@ =~= cur.buf.take(cut as int));
                                    assert(self.buf@ =~= cur.buf.skip(cut as int));
                                    lemma_think_one(ThinkSeg::Thought(ready@), parts);
                                }
                            }
                            return out;
                        },
                    }
                },
                None => {
                    proof {
                        lemma_find(cur.buf, think_open(0));
                        lemma_find(cur.buf, think_open(1));
                    }
                    match earliest_think_open(&self.buf) {
                        Some((i, at)) => {
                            let width: usize = if i == 0 {
                                7
                            } else {
                                10
                            };
                            let answer = string_of(&self.buf, 0, at);
                            out.push(Channel::Content, answer.as_str());
                            let rest = self.buf.split_off(at + width);
                            self.buf = rest;
                            self.inside = Some(i);
                            proof {
                                assert(answer@ =~= cur.buf.take(at as int));
                                assert(self.buf@ =~= cur.buf.skip(at + width));
                                lemma_think_after(
                                    split_think(self@.state, eof),
                                    ThinkSeg::Answer(answer@),
                                    ThinkSeg::Opened(i),
                                    parts,
                                );
                            }
                        },
                        None => {
                            let keep: usize = if eof {
                                0
                            } else {
                                let a: usize = partial_len(&self.buf, &chars_of("<think>"));
                                let b: usize = partial_len(&self.buf, &chars_of("<thinking>"));
                                if a < b {
                                    b
                                } else {
                                    a
                                }
                            };
                            let cut: usize = n - keep;
                            let ready = string_of(&self.buf, 0, cut);
                            out.push(Channel::Content, ready.as_str());
                            let rest = self.buf.split_off(cut);
                            self.buf = rest;
                            proof {
                                assert(ready@ =~= cur.buf.take(cut as int));
                                assert(self.buf@ =~= cur.buf.skip(cut as int));
                                lemma_think_one(ThinkSeg::Answer(ready@), parts);
                            }
                            return out;
                        },
                    }
                },
            }
        }
    }
}

} // verus!
