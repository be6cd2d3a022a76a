//! A conversation in the gateway's form: a system prompt, and a list of turns in
//! which the place tells who speaks.

use vstd::prelude::*;
use vstd::string::*;

use crate::openai::{opt_text, seq_of, Message, ToolCall};
use crate::text::{blank, is_blank, join, joined, same, views};

use super::tools::{history_call, render_history_call};

verus! {

/// Who speaks in a turn.
#[derive(Debug, Clone, Copy, PartialEq, Eq, Structural)]
pub enum Speaker {
    User,
    Assistant,
}

/// A turn: who speaks, and what.
pub type TurnView = (Speaker, Seq<char>);

/// The user's turn that goes before a conversation which the assistant begins.
pub const CONTINUE_TURN: &'static str = "(continue)";

// ───────────────────────── tool results ─────────────────────────

/// All tool calls of a conversation, in order.
pub open spec fn all_calls(messages: Seq<Message>) -> Seq<ToolCall>
    decreases messages.len(),
{
    if messages.len() == 0 {
        seq![]
    } else {
        all_calls(messages.drop_last()) + seq_of(messages.last().tool_calls)
    }
}

/// The name of the tool that was called under an id; the latest call counts.
pub open spec fn called_tool(calls: Seq<ToolCall>, id: Seq<char>) -> Option<Seq<char>>
    decreases calls.len(),
{
    if calls.len() == 0 || id.len() == 0 {
        None
    } else if calls.last().id@ == id {
        Some(calls.last().function.name@)
    } else {
        called_tool(calls.drop_last(), id)
    }
}

/// The name of the tool that a result is from.
pub open spec fn result_name(m: Message, calls: Seq<ToolCall>) -> Option<Seq<char>> {
    if m.name is Some {
        opt_text(m.name)
    } else {
        match m.tool_call_id {
            Some(id) => called_tool(calls, id@),
            None => None,
        }
    }
}

/// The line above a tool's result.
pub open spec fn result_head(id: Option<Seq<char>>, name: Option<Seq<char>>) -> Seq<char> {
    match (id, name) {
        (Some(id), Some(n)) => "Tool result (id="@ + id + ", name="@ + n + ")"@,
        (Some(id), None) => "Tool result (id="@ + id + ")"@,
        (None, Some(n)) => "Tool result (name="@ + n + ")"@,
        (None, None) => "Tool result"@,
    }
}

pub open spec fn history_calls(calls: Seq<ToolCall>) -> Seq<Seq<char>> {
    calls.map_values(|c: ToolCall| history_call(c))
}

// ───────────────────────── turns ─────────────────────────

pub open spec fn is_system(role: Seq<char>) -> bool {
    role == "system"@ || role == "developer"@
}

pub open spec fn is_result(role: Seq<char>) -> bool {
    role == "tool"@ || role == "function"@
}

/// What an assistant's message says: its text, then its tool calls.
pub open spec fn assistant_parts(m: Message) -> Seq<Seq<char>> {
    (if blank(m.text_view()) {
        seq![]
    } else {
        seq![m.text_view()]
    }) + history_calls(seq_of(m.tool_calls))
}

/// The turn that a message becomes. A message without text becomes none, but for a
/// tool's result, and for an assistant's message with tool calls.
pub open spec fn message_turn(m: Message, calls: Seq<ToolCall>) -> Option<TurnView> {
    let role = m.role@;
    if is_system(role) {
        None
    } else if role == "assistant"@ {
        if assistant_parts(m).len() == 0 {
            None
        } else {
            Some((Speaker::Assistant, join(assistant_parts(m), "\n"@)))
        }
    } else if is_result(role) {
        Some(
            (
                Speaker::User,
                result_head(opt_text(m.tool_call_id), result_name(m, calls)) + ":\n"@
                    + m.result_view(),
            ),
        )
    } else if blank(m.text_view()) {
        None
    } else if role == "user"@ {
        Some((Speaker::User, m.text_view()))
    } else {
        Some((Speaker::User, role + ": "@ + m.text_view()))
    }
}

/// The turns of a conversation.
pub open spec fn turns(messages: Seq<Message>, calls: Seq<ToolCall>) -> Seq<TurnView>
    decreases messages.len(),
{
    if messages.len() == 0 {
        seq![]
    } else {
        match message_turn(messages.last(), calls) {
            Some(t) => turns(messages.drop_last(), calls).push(t),
            None => turns(messages.drop_last(), calls),
        }
    }
}

/// The system texts of a conversation.
pub open spec fn system_texts(messages: Seq<Message>) -> Seq<Seq<char>>
    decreases messages.len(),
{
    if messages.len() == 0 {
        seq![]
    } else if is_system(messages.last().role@) && !blank(messages.last().text_view()) {
        system_texts(messages.drop_last()).push(messages.last().text_view())
    } else {
        system_texts(messages.drop_last())
    }
}

/// Neighbouring turns of one speaker become one turn.
pub open spec fn merged(list: Seq<TurnView>) -> Seq<TurnView>
    decreases list.len(),
{
    if list.len() == 0 {
        seq![]
    } else {
        let front = merged(list.drop_last());
        let t = list.last();
        if front.len() > 0 && front.last().0 == t.0 {
            front.drop_last().push((t.0, front.last().1 + "\n\n"@ + t.1))
        } else {
            front.push(t)
        }
    }
}

pub open spec fn texts(list: Seq<TurnView>) -> Seq<Seq<char>> {
    list.map_values(|t: TurnView| t.1)
}

/// The texts of the turns, beginning with the user.
pub open spec fn alternating_view(list: Seq<TurnView>) -> Seq<Seq<char>> {
    let m = merged(list);
    if m.len() > 0 && m[0].0 == Speaker::Assistant {
        seq![CONTINUE_TURN@] + texts(m)
    } else {
        texts(m)
    }
}

/// The gateway's form of a conversation: the system prompt, and the turns.
pub open spec fn folded(messages: Seq<Message>) -> (Option<Seq<char>>, Seq<Seq<char>>) {
    let system = system_texts(messages);
    (
        if system.len() == 0 {
            None
        } else {
            Some(join(system, "\n\n"@))
        },
        alternating_view(turns(messages, all_calls(messages))),
    )
}

// ───────────────────────── folding ─────────────────────────

/// What references refer to, for each of a list.
pub open spec fn call_targets(list: Seq<&ToolCall>) -> Seq<ToolCall> {
    list.map_values(|c: &ToolCall| *c)
}

fn collect_calls(messages: &[Message]) -> (r: Vec<&ToolCall>)
    ensures
        call_targets(r@) == all_calls(messages@),
{
    let mut out: Vec<&ToolCall> = Vec::new();
    let n: usize = messages.len();
    let mut i: usize = 0;
    proof {
        assert(messages@.take(0) =~= seq![]);
        assert(call_targets(out@) =~= seq![]);
    }
    while i < n
        invariant
            i <= n == messages@.len(),
            call_targets(out@) == all_calls(messages@.take(i as int)),
        decreases n - i,
    {
        let calls = messages[i].tool_calls();
        let ghost front = call_targets(out@);
        let m: usize = calls.len();
        let mut k: usize = 0;
        assert(front + calls@.take(0) =~= front);
        while k < m
            invariant
                k <= m == calls@.len(),
                call_targets(out@) == front + calls@.take(k as int),
            decreases m - k,
        {
            let ghost before = out@;
            out.push(&calls[k]);
            assert(call_targets(out@) =~= call_targets(before).push(calls@[k as int]));
            assert(front + calls@.take(k + 1) =~= (front + calls@.take(k as int)).push(
                calls@[k as int],
            ));
            k += 1;
        }
        proof {
            assert(calls@.take(m as int) =~= calls@);
            assert(messages@.take(i + 1).drop_last() =~= messages@.take(i as int));
        }
        i += 1;
    }
    assert(messages@.take(n as int) =~= messages@);
    out
}

fn find_called<'a>(calls: &Vec<&'a ToolCall>, id: &str) -> (r: Option<&'a str>)
    ensures
        match r {
            Some(name) => called_tool(call_targets(calls@), id@) == Some(name@),
            None => called_tool(call_targets(calls@), id@) is None,
        },
{
    if id.is_empty() {
        return None;
    }
    let ghost all = call_targets(calls@);
    let mut i: usize = calls.len();
    assert(all.take(all.len() as int) =~= all);
    while i > 0
        invariant
            i <= calls@.len() == all.len(),
            all == call_targets(calls@),
            id@.len() > 0,
            called_tool(all, id@) == called_tool(all.take(i as int), id@),
        decreases i,
    {
        proof {
            assert(all.take(i as int).last() == *calls@[i - 1]);
            assert(all.take(i as int).drop_last() =~= all.take(i - 1));
        }
        let c: &'a ToolCall = calls[i - 1];
        if same(c.id.as_str(), id) {
            return Some(c.function.name.as_str());
        }
        i -= 1;
    }
    None
}

fn head_of(id: Option<&str>, name: Option<&str>) -> (r: String)
    ensures
        r@ == result_head(
            match id {
                Some(s) => Some(s@),
                None => None,
            },
            match name {
                Some(s) => Some(s@),
                None => None,
            },
        ),
{
    match (id, name) {
        (Some(id), Some(n)) => {
            let mut out = "Tool result (id=".to_owned();
            out.append(id);
            out.append(", name=");
            out.append(n);
            out.append(")");
            out
        },
        (Some(id), None) => {
            let mut out = "Tool result (id=".to_owned();
            out.append(id);
            out.append(")");
            out
        },
        (None, Some(n)) => {
            let mut out = "Tool result (name=".to_owned();
            out.append(n);
            out.append(")");
            out
        },
        (None, None) => "Tool result".to_owned(),
    }
}

fn turn_of(m: &Message, calls: &Vec<&ToolCall>) -> (r: Option<(Speaker, String)>)
    ensures
        match r {
            Some(t) => message_turn(*m, call_targets(calls@)) == Some((t.0, t.1@)),
            None => message_turn(*m, call_targets(calls@)) is None,
        },
{
    let role = m.role.as_str();
    if same(role, "system") || same(role, "developer") {
        return None;
    }
    if same(role, "assistant") {
        let mut parts: Vec<String> = Vec::new();
        let text = m.text();
        if !is_blank(text.as_str()) {
            parts.push(text);
        }
        let ghost front = views(parts@);
        assert(front =~= if blank(m.text_view()) {
            seq![]
        } else {
            seq![m.text_view()]
        });
        let own = m.tool_calls();
        let n: usize = own.len();
        let mut k: usize = 0;
        assert(front + history_calls(own@).take(0) =~= front);
        while k < n
            invariant
                k <= n == own@.len(),
                views(parts@) == front + history_calls(own@).take(k as int),
            decreases n - k,
        {
            let ghost before = parts@;
            let block = render_history_call(&own[k]);
            parts.push(block);
            assert(views(parts@) =~= views(before).push(history_call(own@[k as int])));
            assert(front + history_calls(own@).take(k + 1) =~= (front + history_calls(own@).take(
                k as int,
            )).push(history_calls(own@)[k as int]));
            k += 1;
        }
        assert(history_calls(own@).take(n as int) =~= history_calls(own@));
        assert(views(parts@) == assistant_parts(*m));
        assert(views(parts@).len() == parts@.len());
        if parts.len() == 0 {
            return None;
        }
        return Some((Speaker::Assistant, joined(&parts, "\n")));
    }
    if same(role, "tool") || same(role, "function") {
        let id = match &m.tool_call_id {
            Some(s) => Some(s.as_str()),
            None => None,
        };
        let name = match &m.name {
            Some(s) => Some(s.as_str()),
            None => match id {
                Some(id) => find_called(calls, id),
                None => None,
            },
        };
        let mut out = head_of(id, name);
        out.append(":\n");
        out.append(m.tool_result_text().as_str());
        return Some((Speaker::User, out));
    }
    let text = m.text();
    if is_blank(text.as_str()) {
        return None;
    }
    if same(role, "user") {
        Some((Speaker::User, text))
    } else {
        let mut out = m.role.clone();
        out.append(": ");
        out.append(text.as_str());
        Some((Speaker::User, out))
    }
}

pub open spec fn turn_views(list: Seq<(Speaker, String)>) -> Seq<TurnView> {
    list.map_values(|t: (Speaker, String)| (t.0, t.1@))
}

fn alternating(list: Vec<(Speaker, String)>) -> (r: Vec<String>)
    ensures
        views(r@) == alternating_view(turn_views(list@)),
{
    let ghost all = turn_views(list@);
    let mut out: Vec<(Speaker, String)> = Vec::new();
    proof {
        assert(all.take(0) =~= seq![]);
        assert(turn_views(out@) =~= seq![]);
    }
    let mut i: usize = 0;
    while i < list.len()
        invariant
            i <= list@.len() == all.len(),
            all == turn_views(list@),
            turn_views(out@) == merged(all.take(i as int)),
        decreases list@.len() - i,
    {
        let ghost before = turn_views(out@);
        let speaker = list[i].0;
        let text = list[i].1.as_str();
        proof {
            assert(all.take(i + 1).drop_last() =~= all.take(i as int));
            assert(all.take(i + 1).last() == all[i as int]);
        }
        let n: usize = out.len();
        if n > 0 && out[n - 1].0 == speaker {
            let mut body = match out.pop() {
                Some((_, body)) => body,
                None => String::new(),
            };
            body.append("\n\n");
            body.append(text);
            out.push((speaker, body));
            assert(turn_views(out@) =~= before.drop_last().push(
                (speaker, before.last().1 + "\n\n"@ + text@),
            ));
        } else {
            out.push((speaker, text.to_owned()));
            assert(turn_views(out@) =~= before.push((speaker, text@)));
        }
        i += 1;
    }
    assert(all.take(all.len() as int) =~= all);
    let ghost m = merged(all);
    let mut contents: Vec<String> = Vec::new();
    if out.len() > 0 && out[0].0 == Speaker::Assistant {
        contents.push(CONTINUE_TURN.to_owned());
    }
    let ghost front = views(contents@);
    proof {
        if m.len() > 0 {
            assert(m[0] == (out@[0].0, out@[0].1@));
            if m[0].0 == Speaker::Assistant {
                assert(front =~= seq![CONTINUE_TURN@]);
            } else {
                assert(front =~= seq![]);
            }
        } else {
            assert(turn_views(out@).len() == out@.len());
            assert(front =~= seq![]);
        }
        assert(front + texts(m).take(0) =~= front);
    }
    let mut k: usize = 0;
    while k < out.len()
        invariant
            k <= out@.len(),
            m == turn_views(out@),
            views(contents@) == front + texts(m).take(k as int),
        decreases out@.len() - k,
    {
        let ghost before = contents@;
        contents.push(out[k].1.clone());
        proof {
            assert(views(contents@) =~= views(before).push(out@[k as int].1@));
            assert(texts(m)[k as int] == out@[k as int].1@);
            assert(front + texts(m).take(k + 1) =~= (front + texts(m).take(k as int)).push(
                texts(m)[k as int],
            ));
        }
        k += 1;
    }
    proof {
        assert(texts(m).take(m.len() as int) =~= texts(m));
        assert(Seq::<Seq<char>>::empty() + texts(m) =~= texts(m));
    }
    contents
}

/// Turns a conversation into the gateway's form.
pub fn fold_messages(messages: &[Message]) -> (r: (Option<String>, Vec<String>))
    ensures
        (opt_text(r.0), views(r.1@)) == folded(messages@),
{
    let calls = collect_calls(messages);
    let n: usize = messages.len();
    let mut system: Vec<String> = Vec::new();
    let mut list: Vec<(Speaker, String)> = Vec::new();
    let ghost every = all_calls(messages@);
    proof {
        assert(messages@.take(0) =~= seq![]);
        assert(views(system@) =~= seq![]);
        assert(turn_views(list@) =~= seq![]);
    }
    let mut i: usize = 0;
    while i < n
        invariant
            i <= n == messages@.len(),
            call_targets(calls@) == every,
            views(system@) == system_texts(messages@.take(i as int)),
            turn_views(list@) == turns(messages@.take(i as int), every),
        decreases n - i,
    {
        let m = &messages[i];
        proof {
            assert(messages@.take(i + 1).drop_last() =~= messages@.take(i as int));
            assert(messages@.take(i + 1).last() == *m);
        }
        if same(m.role.as_str(), "system") || same(m.role.as_str(), "developer") {
            let text = m.text();
            if !is_blank(text.as_str()) {
                let ghost before = system@;
                system.push(text);
                assert(views(system@) =~= views(before).push(text@));
            }
        }
        match turn_of(m, &calls) {
            Some(t) => {
                let ghost before = list@;
                list.push(t);
                assert(turn_views(list@) =~= turn_views(before).push((t.0, t.1@)));
            },
            None => {},
        }
        i += 1;
    }
    assert(messages@.take(n as int) =~= messages@);
    assert(views(system@).len() == system@.len());
    let prompt = if system.len() == 0 {
        None
    } else {
        Some(joined(&system, "\n\n"))
    };
    (prompt, alternating(list))
}

/// Whether the last of the turns is the user's.
pub fn last_is_user_turn(contents: &[String]) -> (r: bool)
    ensures
        r == (contents@.len() % 2 == 1),
{
    contents.len() % 2 == 1
}

// ───────────────────────── laws ─────────────────────────

pub open spec fn speaker_at(k: int) -> Speaker {
    if k % 2 == 0 {
        Speaker::User
    } else {
        Speaker::Assistant
    }
}

proof fn lemma_merged(list: Seq<TurnView>)
    ensures
        list.len() > 0 ==> merged(list).len() > 0 && merged(list).last().0 == list.last().0
            && merged(list)[0].0 == list[0].0,
        forall|k: int|
            0 < k < merged(list).len() ==> #[trigger] merged(list)[k].0 != merged(list)[k - 1].0,
    decreases list.len(),
{
    if list.len() > 0 {
        lemma_merged(list.drop_last());
        let front = merged(list.drop_last());
        assert forall|k: int| 0 < k < merged(list).len() implies #[trigger] merged(list)[k].0
            != merged(list)[k - 1].0 by {
            if k < front.len() {
                assert(front[k].0 != front[k - 1].0);
            }
        }
    }
}

/// The turns alternate. The place in the list tells who speaks: each text in an even
/// place is the user's, each in an odd place the assistant's, and the whole ends with
/// the speaker with whom the conversation ends.
pub proof fn law_turns_alternate(list: Seq<TurnView>)
    ensures
        ({
            let m = merged(list);
            let contents = alternating_view(list);
            let shift = contents.len() - m.len();
            &&& contents.len() > 0 <==> list.len() > 0
            &&& shift == 0 || (shift == 1 && contents[0] == CONTINUE_TURN@)
            &&& forall|k: int|
                0 <= k < m.len() ==> #[trigger] m[k].0 == speaker_at(k + shift) && contents[k + shift]
                    == m[k].1
            &&& list.len() > 0 ==> (contents.len() % 2 == 1 <==> list.last().0 == Speaker::User)
        }),
{
    let m = merged(list);
    let contents = alternating_view(list);
    let shift = contents.len() - m.len();
    lemma_merged(list);
    lemma_parity(m, shift);
    if m.len() > 0 {
        assert(m[m.len() - 1].0 == speaker_at(m.len() - 1 + shift));
    }
    if list.len() == 0 {
        assert(m.len() == 0);
    }
}

proof fn lemma_parity(m: Seq<TurnView>, shift: int)
    requires
        forall|k: int| 0 < k < m.len() ==> #[trigger] m[k].0 != m[k - 1].0,
        m.len() > 0 ==> m[0].0 == speaker_at(shift),
        shift == 0 || shift == 1,
    ensures
        forall|k: int| 0 <= k < m.len() ==> #[trigger] m[k].0 == speaker_at(k + shift),
    decreases m.len(),
{
    if m.len() > 1 {
        let front = m.drop_last();
        assert forall|k: int| 0 < k < front.len() implies #[trigger] front[k].0 != front[k - 1].0 by {
            assert(m[k].0 != m[k - 1].0);
        }
        lemma_parity(front, shift);
        let n = m.len() - 1;
        assert(m[n].0 != m[n - 1].0);
        assert(front[n - 1].0 == speaker_at(n - 1 + shift));
        assert forall|k: int| 0 <= k < m.len() implies #[trigger] m[k].0 == speaker_at(k + shift) by {
            if k < n {
                assert(front[k] == m[k]);
            }
        }
    }
}

/// Nothing is lost in merging: read from beginning to end, the turns say the same.
pub proof fn law_merging_loses_nothing(list: Seq<TurnView>)
    ensures
        join(texts(merged(list)), "\n\n"@) == join(texts(list), "\n\n"@),
    decreases list.len(),
{
    let sep = "\n\n"@;
    if list.len() > 0 {
        let rest = list.drop_last();
        let front = merged(rest);
        let t = list.last();
        law_merging_loses_nothing(rest);
        lemma_merged(rest);
        assert(texts(list).drop_last() =~= texts(rest));
        assert(texts(list).last() == t.1);
        if front.len() > 0 && front.last().0 == t.0 {
            let m = merged(list);
            let tm = texts(m);
            let tf = texts(front);
            assert(tm.drop_last() =~= tf.drop_last());
            assert(tm.last() == tf.last() + sep + t.1);
            assert(list.len() > 1) by {
                if list.len() == 1 {
                    assert(rest.len() == 0);
                }
            }
            if tm.len() == 1 {
                assert(join(tm, sep) =~= join(tf, sep) + sep + t.1);
            } else {
                assert(join(tm, sep) =~= join(tf, sep) + sep + t.1);
            }
        } else {
            let tm = texts(merged(list));
            assert(tm.drop_last() =~= texts(front));
            assert(tm.last() == t.1);
            if list.len() > 1 {
                assert(front.len() > 0);
            } else {
                assert(rest.len() == 0);
                assert(front.len() == 0);
            }
        }
    }
}

} // verus!
