//! A conversation in the gateway's form.

use vstd::prelude::*;
use vstd::string::*;

use crate::json::json_text;
use crate::openai::{opt_text, seq_of, Message, ToolCall};
use crate::proxy::fold::{
    all_calls, alternating_view, assistant_parts, called_tool, fold_messages, folded, history_calls,
    law_turns_alternate, merged, message_turn, result_head, result_name, speaker_at, system_texts,
    texts, turns, Speaker, TurnView, CONTINUE_TURN,
};
use crate::proxy::tools::{history_arguments, history_call, history_entry};
use crate::text::{blank, contains, join, views};

use super::text::{
    lemma_holds, lemma_holds_itself, lemma_holds_within, lemma_join_concat, lemma_join_holds,
};

verus! {

// ───────────────────────── the system prompt ─────────────────────────

/// A message that belongs to the system prompt.
pub open spec fn instructs(m: Message) -> bool {
    (m.role@ == "system"@ || m.role@ == "developer"@) && !blank(m.text_view())
}

proof fn lemma_system_concat(a: Seq<Message>, b: Seq<Message>)
    ensures
        system_texts(a + b) == system_texts(a) + system_texts(b),
    decreases b.len(),
{
    if b.len() == 0 {
        assert(a + b =~= a);
        assert(system_texts(a) + Seq::<Seq<char>>::empty() =~= system_texts(a));
    } else {
        lemma_system_concat(a, b.drop_last());
        assert((a + b).drop_last() =~= a + b.drop_last());
        assert(system_texts(a + b) =~= system_texts(a) + system_texts(b));
    }
}

proof fn lemma_system_holds(messages: Seq<Message>, i: int) -> (k: int)
    requires
        0 <= i < messages.len(),
        instructs(messages[i]),
    ensures
        0 <= k < system_texts(messages).len(),
        system_texts(messages)[k] == messages[i].text_view(),
    decreases messages.len(),
{
    if i == messages.len() - 1 {
        system_texts(messages).len() - 1
    } else {
        lemma_system_holds(messages.drop_last(), i)
    }
}

proof fn lemma_no_system(messages: Seq<Message>)
    requires
        forall|i: int| 0 <= i < messages.len() ==> !instructs(#[trigger] messages[i]),
    ensures
        system_texts(messages).len() == 0,
    decreases messages.len(),
{
    if messages.len() > 0 {
        let front = messages.drop_last();
        assert forall|i: int| 0 <= i < front.len() implies !instructs(#[trigger] front[i]) by {
            assert(front[i] == messages[i]);
        }
        lemma_no_system(front);
        assert(!instructs(messages[messages.len() - 1]));
    }
}

/// No instruction is lost: of two conversations, one behind the other, the system prompt
/// is that of the one, a blank line, and that of the other.
pub proof fn law_instructions_add_up(
    a: &[Message],
    b: &[Message],
    both: &[Message],
    ra: (Option<String>, Vec<String>),
    rb: (Option<String>, Vec<String>),
    r: (Option<String>, Vec<String>),
)
    requires
        both@ == a@ + b@,
        call_ensures(fold_messages, (a,), ra),
        call_ensures(fold_messages, (b,), rb),
        call_ensures(fold_messages, (both,), r),
    ensures
        opt_text(r.0) == match (opt_text(ra.0), opt_text(rb.0)) {
            (Some(x), Some(y)) => Some(x + "\n\n"@ + y),
            (Some(x), None) => Some(x),
            (None, y) => y,
        },
{
    assert((opt_text(ra.0), views(ra.1@)) == folded(a@));
    assert((opt_text(rb.0), views(rb.1@)) == folded(b@));
    assert((opt_text(r.0), views(r.1@)) == folded(both@));
    lemma_system_concat(a@, b@);
    let x = system_texts(a@);
    let y = system_texts(b@);
    if x.len() > 0 && y.len() > 0 {
        lemma_join_concat(x, y, "\n\n"@);
    } else if x.len() == 0 {
        assert(x + y =~= y);
    } else {
        assert(x + y =~= x);
    }
}

/// Each system or developer message that says something stands in the system prompt;
/// without such a message there is none.
pub proof fn law_every_instruction_is_sent(
    messages: &[Message],
    r: (Option<String>, Vec<String>),
    i: int,
)
    requires
        call_ensures(fold_messages, (messages,), r),
        0 <= i < messages@.len(),
    ensures
        instructs(messages@[i]) ==> (r.0 matches Some(s) && contains(s@, messages@[i].text_view())),
        r.0 is Some <==> exists|k: int| 0 <= k < messages@.len() && instructs(#[trigger] messages@[k]),
{
    assert((opt_text(r.0), views(r.1@)) == folded(messages@));
    if instructs(messages@[i]) {
        let k = lemma_system_holds(messages@, i);
        lemma_join_holds(system_texts(messages@), "\n\n"@, k);
    }
    if exists|k: int| 0 <= k < messages@.len() && instructs(#[trigger] messages@[k]) {
        let k = choose|k: int| 0 <= k < messages@.len() && instructs(#[trigger] messages@[k]);
        let _ = lemma_system_holds(messages@, k);
    } else {
        lemma_no_system(messages@);
    }
}

proof fn lemma_roles_differ()
    ensures
        "user"@ != "tool"@,
        "user"@ != "assistant"@,
        "user"@ != "function"@,
        "user"@ != "system"@,
        "user"@ != "developer"@,
        "assistant"@ != "tool"@,
        "assistant"@ != "function"@,
        "assistant"@ != "system"@,
        "assistant"@ != "developer"@,
        "tool"@ != "system"@,
        "tool"@ != "developer"@,
        "function"@ != "system"@,
        "function"@ != "developer"@,
{
    reveal_strlit("system");
    reveal_strlit("developer");
    reveal_strlit("assistant");
    reveal_strlit("tool");
    reveal_strlit("function");
    reveal_strlit("user");
    assert("user"@[0] == 'u' && "tool"@[0] == 't' && "assistant"@[0] == 'a' && "developer"@[0]
        == 'd');
    assert("function"@[0] == 'f' && "system"@[0] == 's');
}

// ───────────────────────── one message ─────────────────────────

/// What a conversation of one message becomes.
pub proof fn law_one_message(list: &[Message], r: (Option<String>, Vec<String>))
    requires
        list@.len() == 1,
        call_ensures(fold_messages, (list,), r),
    ensures
        ({
            let m = list@[0];
            let text = m.text_view();
            let said = views(r.1@);
            if m.role@ == "system"@ || m.role@ == "developer"@ {
                &&& said.len() == 0
                &&& opt_text(r.0) == (if blank(text) {
                    None
                } else {
                    Some(text)
                })
            } else {
                &&& r.0 is None
                &&& if m.role@ == "assistant"@ {
                    if seq_of(m.tool_calls).len() == 0 {
                        said == (if blank(text) {
                            seq![]
                        } else {
                            seq!["(continue)"@, text]
                        })
                    } else if seq_of(m.tool_calls).len() == 1 {
                        let call = history_call(seq_of(m.tool_calls)[0]);
                        said == (if blank(text) {
                            seq!["(continue)"@, call]
                        } else {
                            seq!["(continue)"@, text + "\n"@ + call]
                        })
                    } else {
                        said.len() == 2 && said[0] == "(continue)"@
                    }
                } else if m.role@ == "tool"@ || m.role@ == "function"@ {
                    &&& said.len() == 1
                    &&& seq_of(m.tool_calls).len() == 0 ==> said[0] == (match (
                        m.tool_call_id,
                        m.name,
                    ) {
                        (Some(id), Some(n)) => "Tool result (id="@ + id@ + ", name="@ + n@ + ")"@,
                        (Some(id), None) => "Tool result (id="@ + id@ + ")"@,
                        (None, Some(n)) => "Tool result (name="@ + n@ + ")"@,
                        (None, None) => "Tool result"@,
                    }) + ":\n"@ + m.result_view()
                } else if blank(text) {
                    said.len() == 0
                } else if m.role@ == "user"@ {
                    said == seq![text]
                } else {
                    said == seq![m.role@ + ": "@ + text]
                }
            }
        }),
{
    let m = list@[0];
    let text = m.text_view();
    assert(list@ =~= seq![m]);
    assert((opt_text(r.0), views(r.1@)) == folded(list@));
    let calls = all_calls(list@);
    assert(list@.drop_last() =~= seq![]);
    assert(all_calls(list@.drop_last()) == Seq::<ToolCall>::empty());
    assert(calls =~= seq_of(m.tool_calls));
    assert(system_texts(list@.drop_last()) == Seq::<Seq<char>>::empty());
    assert(turns(list@.drop_last(), calls) == Seq::<TurnView>::empty());
    assert(system_texts(list@) =~= if instructs(m) {
        seq![text]
    } else {
        seq![]
    });
    match message_turn(m, calls) {
        Some(t) => {
            assert(turns(list@, calls) =~= seq![t]);
            let one = seq![t];
            assert(one.drop_last() =~= seq![]);
            assert(merged(one.drop_last()) == Seq::<TurnView>::empty());
            assert(merged(one) =~= seq![t]);
            assert(texts(merged(one)) =~= seq![t.1]);
            assert(alternating_view(one) =~= if t.0 == Speaker::Assistant {
                seq![CONTINUE_TURN@, t.1]
            } else {
                seq![t.1]
            });
        },
        None => {
            assert(turns(list@, calls) =~= seq![]);
            assert(merged(Seq::<TurnView>::empty()) =~= seq![]);
            assert(alternating_view(seq![]) =~= seq![]);
        },
    }
    lemma_roles_differ();
    if m.role@ == "assistant"@ {
        let own = seq_of(m.tool_calls);
        let parts = assistant_parts(m);
        if own.len() == 0 {
            assert(history_calls(own) =~= seq![]);
            if blank(text) {
                assert(parts =~= seq![]);
            } else {
                assert(parts =~= seq![text]);
            }
        } else {
            assert(parts.len() > 0);
            if own.len() == 1 {
                let call = history_call(own[0]);
                assert(history_calls(own) =~= seq![call]);
                if blank(text) {
                    assert(parts =~= seq![call]);
                } else {
                    assert(parts =~= seq![text, call]);
                    assert(parts.drop_last() =~= seq![text]);
                    assert(join(parts.drop_last(), "\n"@) == text);
                }
            }
        }
    }
}

// ───────────────────────── many messages ─────────────────────────

/// `t` is said in one of the places of its speaker: the even ones are the user's, the
/// odd ones the assistant's.
pub open spec fn is_said(contents: Seq<Seq<char>>, user: bool, t: Seq<char>) -> bool {
    exists|k: int|
        #![trigger contents[k]]
        0 <= k < contents.len() && (k % 2 == 0 <==> user) && contains(contents[k], t)
}

proof fn lemma_merged_holds(list: Seq<TurnView>, j: int) -> (k: int)
    requires
        0 <= j < list.len(),
    ensures
        0 <= k < merged(list).len(),
        merged(list)[k].0 == list[j].0,
        contains(merged(list)[k].1, list[j].1),
    decreases list.len(),
{
    let front = merged(list.drop_last());
    let t = list.last();
    let n = merged(list).len() - 1;
    lemma_holds_itself(t.1);
    if front.len() > 0 && front.last().0 == t.0 {
        if j == list.len() - 1 {
            lemma_holds(front.last().1 + "\n\n"@, t.1, seq![]);
            assert(front.last().1 + "\n\n"@ + t.1 + Seq::<char>::empty() =~= merged(list)[n].1);
            n
        } else {
            let k = lemma_merged_holds(list.drop_last(), j);
            if k == n {
                lemma_holds_within(seq![], front.last().1, "\n\n"@ + t.1, list[j].1);
                assert(Seq::<char>::empty() + front.last().1 + ("\n\n"@ + t.1) =~= merged(list)[n].1);
            }
            k
        }
    } else if j == list.len() - 1 {
        n
    } else {
        lemma_merged_holds(list.drop_last(), j)
    }
}

proof fn lemma_turn_of(messages: Seq<Message>, calls: Seq<ToolCall>, i: int) -> (j: int)
    requires
        0 <= i < messages.len(),
        message_turn(messages[i], calls) is Some,
    ensures
        0 <= j < turns(messages, calls).len(),
        turns(messages, calls)[j] == message_turn(messages[i], calls)->0,
    decreases messages.len(),
{
    if i == messages.len() - 1 {
        turns(messages, calls).len() - 1
    } else {
        lemma_turn_of(messages.drop_last(), calls, i)
    }
}

proof fn lemma_said(messages: Seq<Message>, i: int, part: Seq<char>)
    requires
        0 <= i < messages.len(),
        message_turn(messages[i], all_calls(messages)) matches Some(t) && contains(t.1, part),
    ensures
        is_said(
            folded(messages).1,
            (message_turn(messages[i], all_calls(messages))->0).0 == Speaker::User,
            part,
        ),
{
    let calls = all_calls(messages);
    let list = turns(messages, calls);
    let t = message_turn(messages[i], calls)->0;
    let j = lemma_turn_of(messages, calls, i);
    let k = lemma_merged_holds(list, j);
    law_turns_alternate(list);
    let m = merged(list);
    let contents = alternating_view(list);
    let shift = contents.len() - m.len();
    assert(m[k].0 == speaker_at(k + shift));
    assert(contents[k + shift] == m[k].1);
    lemma_holds_twice(m[k].1, t.1, part);
}

pub proof fn lemma_holds_twice(a: Seq<char>, b: Seq<char>, c: Seq<char>)
    requires
        contains(a, b),
        contains(b, c),
    ensures
        contains(a, c),
{
    crate::text::lemma_find(a, b);
    let k = crate::text::find(a, b)->0;
    assert(a =~= a.take(k) + b + a.skip(k + b.len()));
    lemma_holds_within(a.take(k), b, a.skip(k + b.len()), c);
}

/// Everybody is heard: whatever a user or an assistant says, every call that an
/// assistant made and every result of a tool stands in the contents, in a place of the
/// one who says it. Results are the user's.
pub proof fn law_everybody_is_heard(
    messages: &[Message],
    r: (Option<String>, Vec<String>),
    i: int,
    c: int,
)
    requires
        call_ensures(fold_messages, (messages,), r),
        0 <= i < messages@.len(),
    ensures
        ({
            let m = messages@[i];
            let said = views(r.1@);
            &&& m.role@ == "user"@ && !blank(m.text_view()) ==> is_said(said, true, m.text_view())
            &&& m.role@ == "assistant"@ && !blank(m.text_view()) ==> is_said(
                said,
                false,
                m.text_view(),
            )
            &&& m.role@ == "assistant"@ && 0 <= c < seq_of(m.tool_calls).len() ==> is_said(
                said,
                false,
                history_call(seq_of(m.tool_calls)[c]),
            )
            &&& m.role@ == "tool"@ || m.role@ == "function"@ ==> is_said(
                said,
                true,
                ":\n"@ + m.result_view(),
            )
            &&& (m.role@ == "tool"@ || m.role@ == "function"@) && m.tool_call_id is Some ==> is_said(
                said,
                true,
                "Tool result (id="@ + m.tool_call_id->0@,
            )
        }),
{
    let m = messages@[i];
    let text = m.text_view();
    let calls = all_calls(messages@);
    assert((opt_text(r.0), views(r.1@)) == folded(messages@));
    lemma_roles_differ();
    lemma_holds_itself(text);
    if m.role@ == "user"@ && !blank(text) {
        lemma_said(messages@, i, text);
    }
    if m.role@ == "assistant"@ {
        let own = seq_of(m.tool_calls);
        let parts = assistant_parts(m);
        if !blank(text) {
            assert(parts[0] == text);
            lemma_join_holds(parts, "\n"@, 0);
            lemma_said(messages@, i, text);
        }
        if 0 <= c < own.len() {
            let at = parts.len() - own.len() + c;
            assert(parts[at] == history_calls(own)[c]);
            lemma_join_holds(parts, "\n"@, at);
            lemma_said(messages@, i, history_call(own[c]));
        }
    }
    if m.role@ == "tool"@ || m.role@ == "function"@ {
        let head = result_head(opt_text(m.tool_call_id), result_name(m, calls));
        let t = head + ":\n"@ + m.result_view();
        lemma_holds(head, ":\n"@ + m.result_view(), seq![]);
        assert(head + (":\n"@ + m.result_view()) + Seq::<char>::empty() =~= t);
        lemma_said(messages@, i, ":\n"@ + m.result_view());
        if m.tool_call_id is Some {
            let id = m.tool_call_id->0@;
            let begin = "Tool result (id="@ + id;
            assert(head.take(begin.len() as int) =~= begin);
            let rest = head.skip(begin.len() as int) + ":\n"@ + m.result_view();
            lemma_holds(seq![], begin, rest);
            assert(Seq::<char>::empty() + begin + rest =~= t);
            lemma_said(messages@, i, begin);
        }
    }
}

/// The turns of two conversations, one behind the other, are the turns of the one and
/// then those of the other.
pub proof fn law_turns_add_up(a: Seq<Message>, b: Seq<Message>, calls: Seq<ToolCall>)
    ensures
        turns(a + b, calls) == turns(a, calls) + turns(b, calls),
    decreases b.len(),
{
    if b.len() == 0 {
        assert(a + b =~= a);
        assert(turns(a, calls) + Seq::<TurnView>::empty() =~= turns(a, calls));
    } else {
        law_turns_add_up(a, b.drop_last(), calls);
        assert((a + b).drop_last() =~= a + b.drop_last());
        assert(turns(a + b, calls) =~= turns(a, calls) + turns(b, calls));
    }
}

proof fn lemma_called(calls: Seq<ToolCall>, id: Seq<char>, name: Seq<char>, k: int)
    requires
        id.len() > 0,
        0 <= k < calls.len(),
        calls[k].id@ == id,
        forall|j: int| 0 <= j < calls.len() && (#[trigger] calls[j]).id@ == id ==> calls[j].function.name@ == name,
    ensures
        called_tool(calls, id) == Some(name),
    decreases calls.len(),
{
    if calls.last().id@ == id {
        assert(calls[calls.len() - 1].function.name@ == name);
    } else {
        let front = calls.drop_last();
        assert forall|j: int| 0 <= j < front.len() && (#[trigger] front[j]).id@ == id implies front[j].function.name@
            == name by {
            assert(front[j] == calls[j]);
        }
        assert(front[k] == calls[k]);
        lemma_called(front, id, name, k);
    }
}

proof fn lemma_calls_of(messages: Seq<Message>, i: int, c: int) -> (k: int)
    requires
        0 <= i < messages.len(),
        0 <= c < seq_of(messages[i].tool_calls).len(),
    ensures
        0 <= k < all_calls(messages).len(),
        all_calls(messages)[k] == seq_of(messages[i].tool_calls)[c],
    decreases messages.len(),
{
    let front = all_calls(messages.drop_last());
    if i == messages.len() - 1 {
        front.len() + c
    } else {
        lemma_calls_of(messages.drop_last(), i, c)
    }
}

proof fn lemma_call_origin(messages: Seq<Message>, k: int) -> (at: (int, int))
    requires
        0 <= k < all_calls(messages).len(),
    ensures
        0 <= at.0 < messages.len(),
        0 <= at.1 < seq_of(messages[at.0].tool_calls).len(),
        all_calls(messages)[k] == seq_of(messages[at.0].tool_calls)[at.1],
    decreases messages.len(),
{
    let front = all_calls(messages.drop_last());
    if k < front.len() {
        lemma_call_origin(messages.drop_last(), k)
    } else {
        (messages.len() - 1, k - front.len())
    }
}

/// A result that gives an id and no name goes under the name of the tool that was called
/// under that id, wherever in the conversation that was.
pub proof fn law_a_result_is_named_after_its_call(
    messages: &[Message],
    r: (Option<String>, Vec<String>),
    i: int,
    j: int,
    c: int,
    name: Seq<char>,
)
    requires
        call_ensures(fold_messages, (messages,), r),
        0 <= i < messages@.len(),
        messages@[i].role@ == "tool"@ || messages@[i].role@ == "function"@,
        messages@[i].name is None,
        messages@[i].tool_call_id matches Some(id) && id@.len() > 0,
        0 <= j < messages@.len(),
        0 <= c < seq_of(messages@[j].tool_calls).len(),
        seq_of(messages@[j].tool_calls)[c].id@ == messages@[i].tool_call_id->0@,
        forall|x: int, y: int|
            0 <= x < messages@.len() && 0 <= y < seq_of(messages@[x].tool_calls).len() && (
            #[trigger] seq_of(messages@[x].tool_calls)[y]).id@ == messages@[i].tool_call_id->0@
                ==> seq_of(messages@[x].tool_calls)[y].function.name@ == name,
    ensures
        is_said(
            views(r.1@),
            true,
            "Tool result (id="@ + messages@[i].tool_call_id->0@ + ", name="@ + name + "):\n"@,
        ),
{
    let m = messages@[i];
    let id = m.tool_call_id->0@;
    let calls = all_calls(messages@);
    assert((opt_text(r.0), views(r.1@)) == folded(messages@));
    lemma_roles_differ();
    reveal_strlit(")");
    reveal_strlit(":\n");
    reveal_strlit("):\n");
    let k = lemma_calls_of(messages@, j, c);
    assert forall|q: int| 0 <= q < calls.len() && (#[trigger] calls[q]).id@ == id implies calls[q].function.name@
        == name by {
        let at = lemma_call_origin(messages@, q);
        assert(seq_of(messages@[at.0].tool_calls)[at.1].id@ == id);
    }
    lemma_called(calls, id, name, k);
    let begin = "Tool result (id="@ + id + ", name="@ + name + "):\n"@;
    let t = (message_turn(m, calls)->0).1;
    assert("):\n"@ =~= ")"@ + ":\n"@);
    lemma_holds(seq![], begin, m.result_view());
    assert(Seq::<char>::empty() + begin + m.result_view() =~= t);
    lemma_said(messages@, i, begin);
}

/// A result that gives its name goes under that name, whatever was called.
pub proof fn law_a_result_keeps_its_name(
    messages: &[Message],
    r: (Option<String>, Vec<String>),
    i: int,
)
    requires
        call_ensures(fold_messages, (messages,), r),
        0 <= i < messages@.len(),
        messages@[i].role@ == "tool"@ || messages@[i].role@ == "function"@,
        messages@[i].name is Some,
    ensures
        messages@[i].tool_call_id is Some ==> is_said(
            views(r.1@),
            true,
            "Tool result (id="@ + messages@[i].tool_call_id->0@ + ", name="@ + messages@[i].name->0@
                + ")"@ + ":\n"@ + messages@[i].result_view(),
        ),
        messages@[i].tool_call_id is None ==> is_said(
            views(r.1@),
            true,
            "Tool result (name="@ + messages@[i].name->0@ + ")"@ + ":\n"@
                + messages@[i].result_view(),
        ),
{
    let m = messages@[i];
    let calls = all_calls(messages@);
    assert((opt_text(r.0), views(r.1@)) == folded(messages@));
    lemma_roles_differ();
    let t = (message_turn(m, calls)->0).1;
    lemma_holds_itself(t);
    lemma_said(messages@, i, t);
}

proof fn lemma_last_speaker(list: Seq<TurnView>)
    ensures
        ({
            let said = alternating_view(list);
            let m = merged(list);
            &&& said.len() == 0 <==> m.len() == 0
            &&& m.len() > 0 ==> {
                &&& said.len() % 2 == 1 <==> m.last().0 == Speaker::User
                &&& said.last() == m.last().1
                &&& said.len() > 0
            }
        }),
{
    law_turns_alternate(list);
    let said = alternating_view(list);
    let m = merged(list);
    let shift = said.len() - m.len();
    if m.len() > 0 {
        let k = m.len() - 1;
        assert(m[k].0 == speaker_at(k + shift));
        assert(said[k + shift] == m[k].1);
    }
}

/// `said`, with one more turn: behind the last of the same speaker's, after a blank line,
/// or as a turn of its own. Before an assistant who speaks first, the user goes on.
pub open spec fn with_turn(said: Seq<Seq<char>>, user: bool, t: Seq<char>) -> Seq<Seq<char>> {
    if said.len() == 0 {
        if user {
            seq![t]
        } else {
            seq!["(continue)"@, t]
        }
    } else if (said.len() % 2 == 1) == user {
        said.drop_last().push(said.last() + "\n\n"@ + t)
    } else {
        said.push(t)
    }
}

proof fn lemma_with_turn(list: Seq<TurnView>, t: TurnView)
    ensures
        alternating_view(list.push(t)) == with_turn(
            alternating_view(list),
            t.0 == Speaker::User,
            t.1,
        ),
{
    let next = list.push(t);
    assert(next.drop_last() =~= list);
    lemma_last_speaker(list);
    lemma_last_speaker(next);
    let m = merged(list);
    let n = merged(next);
    let said = alternating_view(list);
    let out = alternating_view(next);
    if m.len() == 0 {
        assert(n =~= seq![t]);
        assert(texts(n) =~= seq![t.1]);
        assert(out =~= with_turn(said, t.0 == Speaker::User, t.1));
    } else if m.last().0 == t.0 {
        assert(texts(n) =~= texts(m).drop_last().push(m.last().1 + "\n\n"@ + t.1));
        assert(n[0].0 == m[0].0);
        assert(out =~= with_turn(said, t.0 == Speaker::User, t.1));
    } else {
        assert(texts(n) =~= texts(m).push(t.1));
        assert(n[0] == m[0]);
        assert(out =~= with_turn(said, t.0 == Speaker::User, t.1));
    }
}

/// What one more message adds to a conversation: what a user or an assistant says comes
/// last, and all that was said before stays as it was and where it was.
pub proof fn law_one_more_message(
    before: &[Message],
    m: Message,
    after: &[Message],
    ra: (Option<String>, Vec<String>),
    r: (Option<String>, Vec<String>),
)
    requires
        after@ == before@.push(m),
        call_ensures(fold_messages, (before,), ra),
        call_ensures(fold_messages, (after,), r),
        seq_of(m.tool_calls).len() == 0,
    ensures
        ({
            let said = views(ra.1@);
            let now = views(r.1@);
            let text = m.text_view();
            let system = m.role@ == "system"@ || m.role@ == "developer"@;
            let result = m.role@ == "tool"@ || m.role@ == "function"@;
            &&& system ==> now == said
            &&& !system ==> opt_text(r.0) == opt_text(ra.0)
            &&& !system && !result && blank(text) ==> now == said
            &&& m.role@ == "user"@ && !blank(text) ==> now == with_turn(said, true, text)
            &&& m.role@ == "assistant"@ && !blank(text) ==> now == with_turn(said, false, text)
            &&& result ==> exists|head: Seq<char>|
                now == #[trigger] with_turn(said, true, head + ":\n"@ + m.result_view())
            &&& !system && !result && m.role@ != "user"@ && m.role@ != "assistant"@ && !blank(text)
                ==> now == with_turn(said, true, m.role@ + ": "@ + text)
        }),
{
    lemma_roles_differ();
    assert((opt_text(ra.0), views(ra.1@)) == folded(before@));
    assert((opt_text(r.0), views(r.1@)) == folded(after@));
    assert(after@.drop_last() =~= before@);
    assert(after@.last() == m);
    let calls = all_calls(after@);
    assert(all_calls(before@) + seq_of(m.tool_calls) =~= all_calls(before@));
    assert(calls == all_calls(before@));
    let list = turns(before@, calls);
    if m.role@ == "assistant"@ {
        let parts = assistant_parts(m);
        assert(history_calls(seq_of(m.tool_calls)) =~= seq![]);
        if blank(m.text_view()) {
            assert(parts =~= seq![]);
        } else {
            assert(parts =~= seq![m.text_view()]);
        }
    }
    match message_turn(m, calls) {
        Some(t) => {
            lemma_with_turn(list, t);
            assert(turns(after@, calls) == list.push(t));
        },
        None => {
            assert(turns(after@, calls) == list);
        },
    }
    if m.role@ == "tool"@ || m.role@ == "function"@ {
        let head = result_head(opt_text(m.tool_call_id), result_name(m, calls));
        assert(views(r.1@) == with_turn(views(ra.1@), true, head + ":\n"@ + m.result_view()));
    }
}

/// The records of calls that an assistant made at once stand one to a line, in order.
pub proof fn law_calls_made_at_once(
    first: &[Message],
    second: &[Message],
    both: &[Message],
    r1: (Option<String>, Vec<String>),
    r2: (Option<String>, Vec<String>),
    r: (Option<String>, Vec<String>),
)
    requires
        first@.len() == 1 && second@.len() == 1 && both@.len() == 1,
        first@[0].role@ == "assistant"@ && second@[0].role@ == "assistant"@ && both@[0].role@
            == "assistant"@,
        blank(second@[0].text_view()),
        first@[0].content == both@[0].content,
        seq_of(first@[0].tool_calls).len() > 0,
        seq_of(second@[0].tool_calls).len() > 0,
        seq_of(both@[0].tool_calls) == seq_of(first@[0].tool_calls) + seq_of(second@[0].tool_calls),
        call_ensures(fold_messages, (first,), r1),
        call_ensures(fold_messages, (second,), r2),
        call_ensures(fold_messages, (both,), r),
    ensures
        r.1@.len() == 2 && r1.1@.len() == 2 && r2.1@.len() == 2,
        r.1@[1]@ == r1.1@[1]@ + "\n"@ + r2.1@[1]@,
{
    lemma_said_alone(first, r1);
    lemma_said_alone(second, r2);
    lemma_said_alone(both, r);
    let a = assistant_parts(first@[0]);
    let b = assistant_parts(second@[0]);
    assert(history_calls(seq_of(both@[0].tool_calls)) =~= history_calls(
        seq_of(first@[0].tool_calls),
    ) + history_calls(seq_of(second@[0].tool_calls)));
    assert(assistant_parts(both@[0]) =~= a + b);
    lemma_join_concat(a, b, "\n"@);
}

proof fn lemma_said_alone(list: &[Message], r: (Option<String>, Vec<String>))
    requires
        list@.len() == 1,
        list@[0].role@ == "assistant"@,
        seq_of(list@[0].tool_calls).len() > 0,
        call_ensures(fold_messages, (list,), r),
    ensures
        r.1@.len() == 2,
        r.1@[1]@ == join(assistant_parts(list@[0]), "\n"@),
        assistant_parts(list@[0]).len() > 0,
{
    lemma_roles_differ();
    let m = list@[0];
    assert((opt_text(r.0), views(r.1@)) == folded(list@));
    let calls = all_calls(list@);
    assert(list@.drop_last() =~= seq![]);
    assert(turns(list@.drop_last(), calls) == Seq::<TurnView>::empty());
    assert(assistant_parts(m).len() > 0);
    let t = message_turn(m, calls)->0;
    lemma_with_turn(seq![], t);
    assert(merged(Seq::<TurnView>::empty()) =~= seq![]);
    assert(alternating_view(seq![]) =~= seq![]);
    assert(views(r.1@).len() == r.1@.len());
    assert(views(r.1@)[1] == r.1@[1]@);
}

// ───────────────────────── earlier calls ─────────────────────────

/// The record of a call tells its id, its tool and its arguments, between the tags.
pub proof fn law_a_record_tells_the_call(call: ToolCall)
    ensures
        exists|v: crate::json::JsonView|
            history_call(call) == "<tool_call>"@ + "\n"@ + #[trigger] json_text(v) + "\n"@ + "</tool_call>"@
                && v.get_text("id"@) == Some(call.id@) && v.get_text("name"@) == Some(
                call.function.name@,
            ) && (match crate::json::json_parse(call.function.arguments@) {
                Ok(arguments) => v.get("arguments"@) == Some(arguments),
                Err(_) => v.get("arguments"@) == Some(crate::json::JsonView::Object(Map::empty())),
            }),
{
    let v = history_entry(call.id@, call.function.name@, history_arguments(call.function.arguments@));
    reveal_strlit("id");
    reveal_strlit("name");
    reveal_strlit("arguments");
    assert("id"@.len() == 2 && "name"@.len() == 4 && "arguments"@.len() == 9);
    assert(history_call(call) == "<tool_call>"@ + "\n"@ + json_text(v) + "\n"@ + "</tool_call>"@);
}

} // verus!
