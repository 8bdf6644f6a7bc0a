//! What of a history goes to the model.

use super::{Chat, ChatModel, EventId, EventKind, EventModel, KindModel};
use crate::llm;
use crate::llm::{CallModel, MessageModel, WireFunction, WireMessage, WireToolCall};
use crate::text;
use std::time::Instant;
use vstd::prelude::*;
use vstd::string::*;

verus! {

// ---------------------------------------------------------------------------
// The projection
// ---------------------------------------------------------------------------
/// A message of the user.
pub open spec fn user_message(content: Seq<char>) -> MessageModel {
    MessageModel {
        role: "user"@,
        content: Some(content),
        reasoning_content: None,
        tool_calls: None,
        tool_call_id: None,
    }
}

/// A message of the assistant. Empty text is left out.
pub open spec fn assistant_message(
    content: Seq<char>,
    reasoning: Option<Seq<char>>,
    calls: Option<Seq<CallModel>>,
) -> MessageModel {
    MessageModel {
        role: "assistant"@,
        content: if content.len() == 0 {
            None
        } else {
            Some(content)
        },
        reasoning_content: reasoning,
        tool_calls: calls,
        tool_call_id: None,
    }
}

/// The call of the tool `id`.
pub open spec fn call_of(m: ChatModel, id: EventId) -> CallModel {
    match m.at(id).kind {
        KindModel::Tool { tool_call_id, function_name, arguments, .. } => CallModel {
            id: tool_call_id,
            ty: "function"@,
            name: function_name,
            arguments,
        },
        _ => arbitrary(),
    }
}

/// The answer of the tool `id`.
pub open spec fn answer_of(m: ChatModel, id: EventId) -> MessageModel {
    match m.at(id).kind {
        KindModel::Tool { tool_call_id, output, .. } => MessageModel {
            role: "tool"@,
            content: Some(output),
            reasoning_content: None,
            tool_calls: None,
            tool_call_id: Some(tool_call_id),
        },
        _ => arbitrary(),
    }
}

/// The messages of one event. A prompt is one message and so is a summary. A round without tools is
/// one; a round with tools is one that calls them, and one answer for each. Tools on their own and
/// marks give none.
pub open spec fn event_messages(m: ChatModel, e: EventModel) -> Seq<MessageModel> {
    match e.kind {
        KindModel::UserPrompt { text, .. } => seq![user_message(text)],
        KindModel::Assistant { reasoning, text, tool_event_ids, .. } => if tool_event_ids.len()
            == 0 {
            seq![
                assistant_message(
                    text,
                    if reasoning.len() == 0 {
                        None
                    } else {
                        Some(reasoning)
                    },
                    None,
                ),
            ]
        } else {
            seq![
                assistant_message(
                    text,
                    Some(reasoning),
                    Some(tool_event_ids.map_values(|t: EventId| call_of(m, t))),
                ),
            ] + tool_event_ids.map_values(|t: EventId| answer_of(m, t))
        },
        KindModel::Tool { .. } => Seq::empty(),
        KindModel::Archive { summary, .. } => seq![user_message(text::trimmed(summary))],
        KindModel::Abort => Seq::empty(),
    }
}

/// The messages of some events, in their order.
pub open spec fn messages(m: ChatModel, ids: Seq<EventId>) -> Seq<MessageModel>
    decreases ids.len(),
{
    if ids.len() == 0 {
        Seq::empty()
    } else {
        messages(m, ids.drop_last()) + event_messages(m, m.at(ids.last()))
    }
}

/// Whether the event `id` is a summary.
pub open spec fn is_summary(m: ChatModel, id: EventId) -> bool {
    m.has(id) && m.at(id).kind is Archive
}

/// The position of the last summary among `ids`, or zero.
pub open spec fn last_summary(m: ChatModel, ids: Seq<EventId>) -> int
    decreases ids.len(),
{
    if ids.len() == 0 {
        0
    } else if is_summary(m, ids.last()) {
        ids.len() - 1
    } else {
        last_summary(m, ids.drop_last())
    }
}

/// What goes to the model: everything from the last summary on.
pub open spec fn projection(m: ChatModel) -> Seq<MessageModel> {
    messages(m, m.order.skip(last_summary(m, m.order)))
}

// ---------------------------------------------------------------------------
// Building it
// ---------------------------------------------------------------------------
fn user(content: &str) -> (r: WireMessage)
    ensures
        r@ == user_message(content@),
{
    WireMessage {
        role: "user".to_string(),
        content: Some(content.to_string()),
        reasoning_content: None,
        tool_calls: None,
        tool_call_id: None,
    }
}

fn assistant(
    content: &str,
    reasoning_content: Option<String>,
    tool_calls: Option<Vec<WireToolCall>>,
) -> (r: WireMessage)
    ensures
        r@ == assistant_message(
            content@,
            text::opt_view(reasoning_content),
            match tool_calls {
                Some(v) => Some(llm::call_views(v@)),
                None => None,
            },
        ),
{
    WireMessage {
        role: "assistant".to_string(),
        content: if content.is_empty() {
            None
        } else {
            Some(content.to_string())
        },
        reasoning_content,
        tool_calls,
        tool_call_id: None,
    }
}

/// The position of the last summary in the order, or zero.
pub fn last_summary_at(chat: &Chat) -> (r: usize)
    ensures
        r == last_summary(chat@, chat@.order),
        r <= chat@.order.len(),
{
    let order = chat.order();
    let mut i: usize = order.len();
    assert(order@.take(order@.len() as int) == order@);
    while i > 0
        invariant
            i <= order.len(),
            order@ == chat@.order,
            last_summary(chat@, order@.take(i as int)) == last_summary(chat@, chat@.order),
        decreases i,
    {
        assert(order@.take(i as int).last() == order@[i - 1]);
        assert(order@.take(i as int).drop_last() == order@.take(i - 1));
        i -= 1;
        if let Some(e) = chat.event(order[i]) {
            if let EventKind::Archive { .. } = &e.kind {
                return i;
            }
        }
    }
    assert(order@.take(0) == Seq::<EventId>::empty());
    0
}

/// The calls of some tools.
fn calls_of(chat: &Chat, ids: &Vec<EventId>) -> (r: Vec<WireToolCall>)
    requires
        forall|k: int| 0 <= k < ids@.len() ==> chat@.is_tool(#[trigger] ids@[k]),
    ensures
        llm::call_views(r@) == ids@.map_values(|t: EventId| call_of(chat@, t)),
{
    let mut out: Vec<WireToolCall> = Vec::new();
    let mut i: usize = 0;
    while i < ids.len()
        invariant
            i <= ids@.len(),
            forall|k: int| 0 <= k < ids@.len() ==> chat@.is_tool(#[trigger] ids@[k]),
            out@.len() == i,
            forall|k: int| 0 <= k < i ==> (#[trigger] out@[k])@ == call_of(chat@, ids@[k]),
        decreases ids@.len() - i,
    {
        assert(chat@.is_tool(ids@[i as int]));
        if let Some(e) = chat.event(ids[i]) {
            if let EventKind::Tool { tool_call_id, function_name, arguments, .. } = &e.kind {
                out.push(
                    WireToolCall {
                        id: tool_call_id.clone(),
                        ty: "function".to_string(),
                        function: WireFunction {
                            name: function_name.clone(),
                            arguments: arguments.clone(),
                        },
                    },
                );
            }
        }
        i += 1;
    }
    assert(llm::call_views(out@) =~= ids@.map_values(|t: EventId| call_of(chat@, t)));
    out
}

/// Appends the answers of some tools.
fn push_answers(chat: &Chat, ids: &Vec<EventId>, out: &mut Vec<WireMessage>)
    requires
        forall|k: int| 0 <= k < ids@.len() ==> chat@.is_tool(#[trigger] ids@[k]),
    ensures
        llm::message_views(final(out)@) == llm::message_views(old(out)@) + ids@.map_values(
            |t: EventId| answer_of(chat@, t),
        ),
{
    let ghost before = out@;
    let mut i: usize = 0;
    while i < ids.len()
        invariant
            i <= ids@.len(),
            forall|k: int| 0 <= k < ids@.len() ==> chat@.is_tool(#[trigger] ids@[k]),
            out@.len() == before.len() + i,
            forall|k: int| 0 <= k < before.len() ==> #[trigger] out@[k] == before[k],
            forall|k: int|
                before.len() <= k < before.len() + i ==> (#[trigger] out@[k])@ == answer_of(
                    chat@,
                    ids@[k - before.len()],
                ),
        decreases ids@.len() - i,
    {
        assert(chat@.is_tool(ids@[i as int]));
        if let Some(e) = chat.event(ids[i]) {
            if let EventKind::Tool { tool_call_id, output, .. } = &e.kind {
                out.push(
                    WireMessage {
                        role: "tool".to_string(),
                        content: Some(output.clone()),
                        reasoning_content: None,
                        tool_calls: None,
                        tool_call_id: Some(tool_call_id.clone()),
                    },
                );
            }
        }
        i += 1;
    }
    assert(llm::message_views(out@) =~= llm::message_views(before) + ids@.map_values(
        |t: EventId| answer_of(chat@, t),
    ));
}

/// The messages that go to the model: everything from the last summary on.
pub fn api_messages(chat: &Chat) -> (r: Vec<WireMessage>)
    requires
        chat@.ok(),
    ensures
        llm::message_views(r@) == projection(chat@),
{
    let start = last_summary_at(chat);
    let order = chat.order();
    let ghost m = chat@;
    let ghost ids = m.order.skip(start as int);
    let mut out: Vec<WireMessage> = Vec::new();
    let mut i: usize = start;
    assert(ids.take(0) == Seq::<EventId>::empty());
    assert(llm::message_views(out@) =~= messages(m, ids.take(0)));
    while i < order.len()
        invariant
            start <= i <= order.len(),
            m == chat@,
            m.ok(),
            order@ == m.order,
            ids == m.order.skip(start as int),
            llm::message_views(out@) == messages(m, ids.take(i - start)),
        decreases order.len() - i,
    {
        let id = order[i];
        let ghost before = out@;
        let ghost e = m.at(id);
        assert(m.has(m.order[i as int]));
        assert(ids.take(i - start + 1).drop_last() == ids.take(i - start));
        assert(ids.take(i - start + 1).last() == id);
        assert(m.names_tools(m.events[id - 1].kind));
        if let Some(ev) = chat.event(id) {
            match &ev.kind {
                EventKind::UserPrompt { text, .. } => {
                    out.push(user(text.as_str()));
                    assert(llm::message_views(out@) =~= llm::message_views(before)
                        + event_messages(m, e));
                },
                EventKind::Assistant { reasoning, text, tool_event_ids, .. } => {
                    if tool_event_ids.len() == 0 {
                        let thoughts = if reasoning.as_str().is_empty() {
                            None
                        } else {
                            Some(reasoning.clone())
                        };
                        out.push(assistant(text.as_str(), thoughts, None));
                        assert(llm::message_views(out@) =~= llm::message_views(before)
                            + event_messages(m, e));
                    } else {
                        let calls = calls_of(chat, tool_event_ids);
                        let head = assistant(
                            text.as_str(),
                            Some(reasoning.clone()),
                            Some(calls),
                        );
                        out.push(head);
                        assert(llm::message_views(out@) =~= llm::message_views(before).push(
                            head@,
                        ));
                        push_answers(chat, tool_event_ids, &mut out);
                        assert(llm::message_views(out@) =~= llm::message_views(before)
                            + event_messages(m, e));
                    }
                },
                EventKind::Archive { summary, .. } => {
                    let summary = text::trim(summary.as_str());
                    out.push(user(summary.as_str()));
                    assert(llm::message_views(out@) =~= llm::message_views(before)
                        + event_messages(m, e));
                },
                EventKind::Tool { .. } => {
                    assert(llm::message_views(out@) =~= llm::message_views(before)
                        + event_messages(m, e));
                },
                EventKind::Abort => {
                    assert(llm::message_views(out@) =~= llm::message_views(before)
                        + event_messages(m, e));
                },
            }
        }
        i += 1;
    }
    assert(ids.take(ids.len() as int) == ids);
    out
}

// ---------------------------------------------------------------------------
// Laws
// ---------------------------------------------------------------------------
/// Every call has its answer: a message that calls tools is followed by one answer for each call,
/// in the same order and under the same number.
pub proof fn law_every_call_is_answered(m: ChatModel, e: EventModel, k: int)
    requires
        m.ok(),
        m.names_tools(e.kind),
        e.kind matches KindModel::Assistant { tool_event_ids, .. } && 0 <= k
            < tool_event_ids.len(),
    ensures
        ({
            let out = event_messages(m, e);
            let n = e.kind->tool_event_ids.len();
            &&& out.len() == n + 1
            &&& out[0].tool_calls is Some
            &&& out[0].tool_calls->0.len() == n
            &&& out[k + 1].role == "tool"@
            &&& out[k + 1].tool_call_id == Some(out[0].tool_calls->0[k].id)
        }),
{
    let ids = e.kind->tool_event_ids;
    assert(m.is_tool(ids[k]));
}

proof fn lemma_last_summary_bound(m: ChatModel, ids: Seq<EventId>)
    ensures
        0 <= last_summary(m, ids) <= ids.len(),
        forall|i: int| last_summary(m, ids) < i < ids.len() ==> !is_summary(m, #[trigger] ids[i]),
    decreases ids.len(),
{
    if ids.len() > 0 && !is_summary(m, ids.last()) {
        lemma_last_summary_bound(m, ids.drop_last());
        assert forall|i: int| last_summary(m, ids) < i < ids.len() implies !is_summary(
            m,
            #[trigger] ids[i],
        ) by {
            if i < ids.len() - 1 {
                assert(!is_summary(m, ids.drop_last()[i]));
            }
        }
    }
}

proof fn lemma_last_summary_is(m: ChatModel, ids: Seq<EventId>, k: int)
    requires
        0 <= k < ids.len(),
        is_summary(m, ids[k]),
        forall|i: int| k < i < ids.len() ==> !is_summary(m, #[trigger] ids[i]),
    ensures
        last_summary(m, ids) == k,
    decreases ids.len(),
{
    if k < ids.len() - 1 {
        assert(!is_summary(m, ids[ids.len() - 1]));
        lemma_last_summary_is(m, ids.drop_last(), k);
    }
}

proof fn lemma_same_messages(a: ChatModel, b: ChatModel, ids: Seq<EventId>)
    requires
        a.ok(),
        a.events.len() <= b.events.len(),
        forall|i: int|
            0 <= i < a.events.len() ==> a.events[i].kind == (#[trigger] b.events[i]).kind,
        forall|i: int| 0 <= i < ids.len() ==> a.has(#[trigger] ids[i]),
    ensures
        messages(a, ids) == messages(b, ids),
    decreases ids.len(),
{
    if ids.len() > 0 {
        let id = ids.last();
        assert(a.has(ids[ids.len() - 1]));
        assert forall|i: int| 0 <= i < ids.drop_last().len() implies a.has(
            #[trigger] ids.drop_last()[i],
        ) by {
            assert(a.has(ids[i]));
        }
        lemma_same_messages(a, b, ids.drop_last());
        assert(a.names_tools(a.events[id - 1].kind));
        assert(a.at(id).kind == b.at(id).kind);
        if let KindModel::Assistant { tool_event_ids, .. } = a.at(id).kind {
            assert forall|k: int| 0 <= k < tool_event_ids.len() implies call_of(
                a,
                #[trigger] tool_event_ids[k],
            ) == call_of(b, tool_event_ids[k]) && answer_of(a, tool_event_ids[k]) == answer_of(
                b,
                tool_event_ids[k],
            ) by {
                assert(a.is_tool(tool_event_ids[k]));
                let t = tool_event_ids[k];
                assert(a.events[t - 1].kind == b.events[t - 1].kind);
            }
            assert(tool_event_ids.map_values(|t: EventId| call_of(a, t))
                =~= tool_event_ids.map_values(|t: EventId| call_of(b, t)));
            assert(tool_event_ids.map_values(|t: EventId| answer_of(a, t))
                =~= tool_event_ids.map_values(|t: EventId| answer_of(b, t)));
        }
        assert(event_messages(a, a.at(id)) =~= event_messages(b, b.at(id)));
    }
}

proof fn lemma_messages_front(m: ChatModel, id: EventId, ids: Seq<EventId>)
    ensures
        messages(m, seq![id] + ids) == event_messages(m, m.at(id)) + messages(m, ids),
    decreases ids.len(),
{
    let all = seq![id] + ids;
    if ids.len() == 0 {
        assert(all =~= seq![id]);
        assert(all.last() == id);
        assert(messages(m, all.drop_last()) =~= Seq::<MessageModel>::empty());
        assert(messages(m, ids) =~= Seq::<MessageModel>::empty());
        assert(messages(m, all) =~= event_messages(m, m.at(id)) + messages(m, ids));
    } else {
        assert(all.drop_last() =~= seq![id] + ids.drop_last());
        lemma_messages_front(m, id, ids.drop_last());
        assert(messages(m, all) =~= event_messages(m, m.at(id)) + messages(m, ids));
    }
}

/// Behind a summary nothing of what it covers is sent any more: what goes to the model is the
/// summary and the messages of the events behind the boundary.
pub proof fn law_compaction_sends_summary_and_rest(
    m: ChatModel,
    boundary: usize,
    summary: Seq<char>,
    num_tokens: u64,
    time_begin: Instant,
    time_end: Instant,
)
    requires
        m.ok(),
        m.events.len() < u64::MAX,
        forall|i: int| boundary <= i < m.order.len() ==> !is_summary(m, #[trigger] m.order[i]),
    ensures
        projection(super::compacted(m, boundary, summary, num_tokens, time_begin, time_end))
            == seq![user_message(text::trimmed(summary))] + messages(
            m,
            m.order.skip(super::clamped(boundary, m.order.len()) as int),
        ),
{
    let w = super::compacted(m, boundary, summary, num_tokens, time_begin, time_end);
    let arch = super::clamped(boundary, m.order.len()) as int;
    let id = (m.events.len() + 1) as EventId;
    assert(w.order[arch] == id);
    assert(is_summary(w, w.order[arch]));
    assert forall|i: int| arch < i < w.order.len() implies !is_summary(w, #[trigger] w.order[i]) by {
        assert(w.order[i] == m.order[i - 1]);
        assert(m.has(m.order[i - 1]));
        assert(!is_summary(m, m.order[i - 1]));
    }
    lemma_last_summary_is(w, w.order, arch);
    let rest = m.order.skip(arch);
    assert(w.order.skip(arch) =~= seq![id] + rest);
    lemma_messages_front(w, id, rest);
    assert forall|i: int| 0 <= i < rest.len() implies m.has(#[trigger] rest[i]) by {
        assert(m.has(m.order[arch + i]));
    }
    lemma_same_messages(m, w, rest);
}

/// A summary deletes nothing: every event that was there is there with its content, and the order
/// only gains the summary.
pub proof fn law_compaction_keeps_everything(
    m: ChatModel,
    boundary: usize,
    summary: Seq<char>,
    num_tokens: u64,
    time_begin: Instant,
    time_end: Instant,
    id: EventId,
)
    requires
        m.ok(),
        m.events.len() < u64::MAX,
        m.has(id),
    ensures
        ({
            let w = super::compacted(m, boundary, summary, num_tokens, time_begin, time_end);
            let arch = super::clamped(boundary, m.order.len()) as int;
            &&& w.has(id)
            &&& w.at(id).kind == m.at(id).kind
            &&& w.at(id).parent_id == m.at(id).parent_id
            &&& w.order.remove(arch) == m.order
        }),
{
    let w = super::compacted(m, boundary, summary, num_tokens, time_begin, time_end);
    let arch = super::clamped(boundary, m.order.len()) as int;
    assert(w.order.remove(arch) =~= m.order);
}

/// The history before the last summary has no influence on what is sent.
pub proof fn law_projection_starts_at_the_last_summary(m: ChatModel, k: int)
    requires
        m.ok(),
        0 <= k < m.order.len(),
        is_summary(m, m.order[k]),
        forall|i: int| k < i < m.order.len() ==> !is_summary(m, #[trigger] m.order[i]),
    ensures
        projection(m) == event_messages(m, m.at(m.order[k])) + messages(m, m.order.skip(k + 1)),
{
    lemma_last_summary_is(m, m.order, k);
    assert(m.order.skip(k) =~= seq![m.order[k]] + m.order.skip(k + 1));
    lemma_messages_front(m, m.order[k], m.order.skip(k + 1));
}

/// A round with tools reaches the model whole: the first message carries text, reasoning and, for
/// each tool, its number, function and arguments; the answers behind it carry what each tool gave
/// back.
pub proof fn law_the_model_sees_what_tools_gave_back(m: ChatModel, e: EventModel, k: int)
    requires
        m.ok(),
        m.names_tools(e.kind),
        e.kind matches KindModel::Assistant { tool_event_ids, .. } && 0 <= k
            < tool_event_ids.len(),
    ensures
        ({
            let ids = e.kind->tool_event_ids;
            let out = event_messages(m, e);
            let t = m.at(ids[k]).kind;
            &&& out.len() == ids.len() + 1
            &&& out[0].role == "assistant"@
            &&& out[0].content == (if e.kind->Assistant_text.len() > 0 {
                Some(e.kind->Assistant_text)
            } else {
                None
            })
            &&& out[0].reasoning_content == Some(e.kind->reasoning)
            &&& out[0].tool_call_id is None
            &&& out[0].tool_calls is Some
            &&& out[0].tool_calls->0.len() == ids.len()
            &&& t is Tool
            &&& out[0].tool_calls->0[k].id == t->tool_call_id
            &&& out[0].tool_calls->0[k].ty == "function"@
            &&& out[0].tool_calls->0[k].name == t->function_name
            &&& out[0].tool_calls->0[k].arguments == t->arguments
            &&& out[k + 1].role == "tool"@
            &&& out[k + 1].content == Some(t->output)
            &&& out[k + 1].tool_call_id == Some(t->tool_call_id)
            &&& out[k + 1].tool_calls is None
            &&& out[k + 1].reasoning_content is None
        }),
{
    let ids = e.kind->tool_event_ids;
    assert(m.is_tool(ids[k]));
}

/// What the user said reaches the model word for word, and so does a summary but for the blanks
/// around it; both as words of the user.
pub proof fn law_prompts_and_summaries_are_sent_as_said(m: ChatModel, e: EventModel)
    ensures
        e.kind matches KindModel::UserPrompt { text, .. } ==> {
            let out = event_messages(m, e);
            out.len() == 1 && out[0].role == "user"@ && out[0].content == Some(text)
                && out[0].tool_calls is None && out[0].tool_call_id is None
                && out[0].reasoning_content is None
        },
        e.kind matches KindModel::Archive { summary, .. } ==> {
            let out = event_messages(m, e);
            out.len() == 1 && out[0].role == "user"@ && out[0].content == Some(
                text::trimmed(summary),
            ) && out[0].tool_calls is None && out[0].tool_call_id is None
                && out[0].reasoning_content is None
        },
{
}

/// An answer without tools reaches the model as one message of its own: its text where there is any,
/// its reasoning where there is any, and no calls.
pub proof fn law_plain_answers_are_sent_as_given(m: ChatModel, e: EventModel)
    requires
        e.kind is Assistant,
        e.kind->tool_event_ids.len() == 0,
    ensures
        ({
            let out = event_messages(m, e);
            &&& out.len() == 1
            &&& out[0].role == "assistant"@
            &&& out[0].tool_calls is None
            &&& out[0].tool_call_id is None
            &&& out[0].content is Some <==> e.kind->Assistant_text.len() > 0
            &&& out[0].content is Some ==> out[0].content->0 == e.kind->Assistant_text
            &&& out[0].reasoning_content is Some <==> e.kind->reasoning.len() > 0
            &&& out[0].reasoning_content is Some ==> out[0].reasoning_content->0
                == e.kind->reasoning
        }),
{
}

/// Commands of the user and marks of broken-off turns are not sent by themselves.
pub proof fn law_manual_commands_and_marks_are_not_sent(m: ChatModel, e: EventModel)
    requires
        e.kind is Tool || e.kind is Abort,
    ensures
        event_messages(m, e).len() == 0,
{
}

/// Messages stand in the order of their events: those of a list of events are those of its first
/// part and behind them those of its second one.
pub proof fn law_messages_follow_the_order(m: ChatModel, a: Seq<EventId>, b: Seq<EventId>)
    ensures
        messages(m, a + b) == messages(m, a) + messages(m, b),
    decreases b.len(),
{
    if b.len() == 0 {
        assert(a + b =~= a);
        assert(messages(m, a) + messages(m, b) =~= messages(m, a));
    } else {
        assert((a + b).drop_last() =~= a + b.drop_last());
        assert((a + b).last() == b.last());
        law_messages_follow_the_order(m, a, b.drop_last());
        assert(messages(m, a + b) =~= messages(m, a) + messages(m, b));
    }
}

/// Nothing behind the last summary is left out, doubled or put elsewhere: what is sent is what came
/// before an event, its own messages, and what came after it.
pub proof fn law_everything_since_the_summary_is_sent_in_order(m: ChatModel, i: int)
    requires
        m.ok(),
        0 <= i < m.order.len(),
        forall|j: int| i < j < m.order.len() ==> !is_summary(m, #[trigger] m.order[j]),
    ensures
        exists|before: Seq<MessageModel>|
            projection(m) == #[trigger] (before + event_messages(m, m.at(m.order[i])) + messages(
                m,
                m.order.skip(i + 1),
            )),
{
    let start = last_summary(m, m.order);
    lemma_last_summary_or_zero(m, m.order);
    if start > i {
        assert(is_summary(m, m.order[start]));
    }
    let front = m.order.subrange(start, i);
    let rest = m.order.skip(i + 1);
    let here = seq![m.order[i]];
    assert(m.order.skip(start) =~= front + (here + rest));
    law_messages_follow_the_order(m, front, here + rest);
    lemma_messages_front(m, m.order[i], rest);
    let before = messages(m, front);
    assert(projection(m) =~= before + event_messages(m, m.at(m.order[i])) + messages(m, rest));
}

proof fn lemma_last_summary_or_zero(m: ChatModel, ids: Seq<EventId>)
    ensures
        last_summary(m, ids) == 0 || (0 < last_summary(m, ids) < ids.len() && is_summary(
            m,
            ids[last_summary(m, ids)],
        )),
    decreases ids.len(),
{
    if ids.len() > 0 && !is_summary(m, ids.last()) {
        lemma_last_summary_or_zero(m, ids.drop_last());
    }
}

/// Without a summary the whole history is sent; with one, what lies before the last one is not.
pub proof fn law_without_summary_everything_is_sent(m: ChatModel)
    requires
        m.ok(),
        forall|j: int| 0 <= j < m.order.len() ==> !is_summary(m, #[trigger] m.order[j]),
    ensures
        projection(m) == messages(m, m.order),
{
    lemma_last_summary_or_zero(m, m.order);
    assert(m.order.skip(0) =~= m.order);
}

/// The output of a tool stands in what is sent, behind the message that calls it.
pub proof fn law_tool_output_is_sent(m: ChatModel, i: int, k: int)
    requires
        m.ok(),
        0 <= i < m.order.len(),
        forall|j: int| i < j < m.order.len() ==> !is_summary(m, #[trigger] m.order[j]),
        m.at(m.order[i]).kind matches KindModel::Assistant { tool_event_ids, .. } && 0 <= k
            < tool_event_ids.len(),
    ensures
        exists|p: int|
            #![trigger projection(m)[p]]
            {
                let all = projection(m);
                let t = m.at(m.at(m.order[i]).kind->tool_event_ids[k]).kind;
                &&& 0 <= p
                &&& p + k + 1 < all.len()
                &&& all[p].role == "assistant"@
                &&& all[p].tool_calls is Some
                &&& all[p].tool_calls->0[k].id == t->tool_call_id
                &&& all[p + k + 1].role == "tool"@
                &&& all[p + k + 1].tool_call_id == Some(t->tool_call_id)
                &&& all[p + k + 1].content == Some(t->output)
            },
{
    let e = m.at(m.order[i]);
    law_everything_since_the_summary_is_sent_in_order(m, i);
    assert(m.has(m.order[i]));
    assert(m.names_tools(m.events[m.order[i] - 1].kind));
    law_the_model_sees_what_tools_gave_back(m, e, k);
    let rest = messages(m, m.order.skip(i + 1));
    let mine = event_messages(m, e);
    let before = choose|before: Seq<MessageModel>|
        projection(m) == #[trigger] (before + mine + rest);
    let p = before.len() as int;
    assert(projection(m)[p] == mine[0]);
    assert(projection(m)[p + k + 1] == mine[k + 1]);
}

/// A prompt at the end of the history is the last message that goes out, with its words as they are.
pub proof fn law_the_last_prompt_is_sent_last(m: ChatModel)
    requires
        m.order.len() > 0,
        m.at(m.order.last()).kind is UserPrompt,
    ensures
        projection(m).len() > 0,
        projection(m).last().role == "user"@,
        projection(m).last().content == Some(m.at(m.order.last()).kind->UserPrompt_text),
        projection(m).last().tool_calls is None,
        projection(m).last().tool_call_id is None,
{
    let id = m.order.last();
    let start = last_summary(m, m.order);
    assert(start == last_summary(m, m.order.drop_last()));
    lemma_last_summary_or_zero(m, m.order.drop_last());
    let ids = m.order.skip(start);
    assert(0 <= start < m.order.len());
    assert(ids.last() == id);
    let before = messages(m, ids.drop_last());
    assert(messages(m, ids) == before + event_messages(m, m.at(id)));
}

} // verus!
