//! The chat history: one chronological archive of events, open ones included.
//!
//! Every event has a number of its own, handed out from one on. The order of the history is a list
//! of these numbers. An event without an end time is open. What goes to the model is derived from
//! the archive and never stored.

use crate::llm;
use crate::llm::{CompletionParts, DiffRow, Usage};
use crate::perm::Permission;
use crate::text;
use std::time::Instant;
use vstd::prelude::*;
use vstd::string::*;

pub mod shares;
pub mod tokens;
pub mod wire;

pub use wire::api_messages;

verus! {

/// `std::time::Instant`, a point in time that the history only carries.
#[verifier::external_type_specification]
#[verifier::external_body]
pub struct ExInstant(Instant);

/// `Instant::now` of the standard library. Nothing is stated of the point in time.
#[verifier::external_body]
fn now() -> (r: Instant) {
    Instant::now()
}

/// The number of an event. Zero is the number of none.
pub type EventId = u64;

// ---------------------------------------------------------------------------
// Events
// ---------------------------------------------------------------------------
/// What the display shows of a tool beside its output.
#[derive(Debug, PartialEq)]
pub enum ToolKind {
    Run { cwd: String, command: String, exit_code: Option<i32> },
    Edit { path: String, rows: Vec<DiffRow> },
    Read { path: String, range: String },
    Grep { pattern: String, path: String, files: String, num_results: u32 },
    Glob { pattern: String, num_results: u32 },
    Webfetch { url: String, prompt: String },
    Write { path: String },
}

/// What a tool kind holds.
pub enum ToolModel {
    Run { cwd: Seq<char>, command: Seq<char>, exit_code: Option<i32> },
    Edit { path: Seq<char>, rows: Seq<llm::RowModel> },
    Read { path: Seq<char>, range: Seq<char> },
    Grep { pattern: Seq<char>, path: Seq<char>, files: Seq<char>, num_results: u32 },
    Glob { pattern: Seq<char>, num_results: u32 },
    Webfetch { url: Seq<char>, prompt: Seq<char> },
    Write { path: Seq<char> },
}

impl View for ToolKind {
    type V = ToolModel;

    open spec fn view(&self) -> ToolModel {
        match *self {
            ToolKind::Run { cwd, command, exit_code } => ToolModel::Run {
                cwd: cwd@,
                command: command@,
                exit_code,
            },
            ToolKind::Edit { path, rows } => ToolModel::Edit {
                path: path@,
                rows: llm::row_views(rows@),
            },
            ToolKind::Read { path, range } => ToolModel::Read { path: path@, range: range@ },
            ToolKind::Grep { pattern, path, files, num_results } => ToolModel::Grep {
                pattern: pattern@,
                path: path@,
                files: files@,
                num_results,
            },
            ToolKind::Glob { pattern, num_results } => ToolModel::Glob {
                pattern: pattern@,
                num_results,
            },
            ToolKind::Webfetch { url, prompt } => ToolModel::Webfetch {
                url: url@,
                prompt: prompt@,
            },
            ToolKind::Write { path } => ToolModel::Write { path: path@ },
        }
    }
}

impl Clone for ToolKind {
    fn clone(&self) -> (r: Self)
        ensures
            r@ == self@,
    {
        match self {
            ToolKind::Run { cwd, command, exit_code } => ToolKind::Run {
                cwd: cwd.clone(),
                command: command.clone(),
                exit_code: *exit_code,
            },
            ToolKind::Edit { path, rows } => ToolKind::Edit {
                path: path.clone(),
                rows: llm::copy_rows(rows),
            },
            ToolKind::Read { path, range } => ToolKind::Read {
                path: path.clone(),
                range: range.clone(),
            },
            ToolKind::Grep { pattern, path, files, num_results } => ToolKind::Grep {
                pattern: pattern.clone(),
                path: path.clone(),
                files: files.clone(),
                num_results: *num_results,
            },
            ToolKind::Glob { pattern, num_results } => ToolKind::Glob {
                pattern: pattern.clone(),
                num_results: *num_results,
            },
            ToolKind::Webfetch { url, prompt } => ToolKind::Webfetch {
                url: url.clone(),
                prompt: prompt.clone(),
            },
            ToolKind::Write { path } => ToolKind::Write { path: path.clone() },
        }
    }
}

/// The content of an event.
#[derive(Debug, PartialEq)]
pub enum EventKind {
    /// What the user sent.
    UserPrompt { text: String, permission: Permission, model: String, num_tokens: u64 },
    /// One round of the model: one message of the assistant.
    Assistant {
        reasoning: String,
        text: String,
        /// The tools of the round, in the order of its calls.
        tool_event_ids: Vec<EventId>,
        num_tokens_reasoning: u64,
        num_tokens_text: u64,
        /// What the server reports of the round; zero where it reports nothing.
        reported_usage: Usage,
        /// The parts measured while the round streamed.
        completion_parts: Option<CompletionParts>,
    },
    /// One use of a tool.
    Tool {
        tool_call_id: String,
        function_name: String,
        arguments: String,
        /// The full result.
        output: String,
        kind: ToolKind,
        num_tokens_input: u64,
        num_tokens_output: u64,
    },
    /// The turn was broken off.
    Abort,
    /// A summary of everything before it.
    Archive { summary: String, num_tokens: u64, archived_events: usize },
}

/// What the content of an event holds.
pub enum KindModel {
    UserPrompt { text: Seq<char>, permission: Permission, model: Seq<char>, num_tokens: u64 },
    Assistant {
        reasoning: Seq<char>,
        text: Seq<char>,
        tool_event_ids: Seq<EventId>,
        num_tokens_reasoning: u64,
        num_tokens_text: u64,
        reported_usage: Usage,
        completion_parts: Option<llm::PartsModel>,
    },
    Tool {
        tool_call_id: Seq<char>,
        function_name: Seq<char>,
        arguments: Seq<char>,
        output: Seq<char>,
        kind: ToolModel,
        num_tokens_input: u64,
        num_tokens_output: u64,
    },
    Abort,
    Archive { summary: Seq<char>, num_tokens: u64, archived_events: usize },
}

/// What measured parts hold, where there are any.
pub open spec fn parts_view(p: Option<CompletionParts>) -> Option<llm::PartsModel> {
    match p {
        Some(p) => Some(p@),
        None => None,
    }
}

impl View for EventKind {
    type V = KindModel;

    open spec fn view(&self) -> KindModel {
        match *self {
            EventKind::UserPrompt { text, permission, model, num_tokens } => KindModel::UserPrompt {
                text: text@,
                permission,
                model: model@,
                num_tokens,
            },
            EventKind::Assistant {
                reasoning,
                text,
                tool_event_ids,
                num_tokens_reasoning,
                num_tokens_text,
                reported_usage,
                completion_parts,
            } => KindModel::Assistant {
                reasoning: reasoning@,
                text: text@,
                tool_event_ids: tool_event_ids@,
                num_tokens_reasoning,
                num_tokens_text,
                reported_usage,
                completion_parts: parts_view(completion_parts),
            },
            EventKind::Tool {
                tool_call_id,
                function_name,
                arguments,
                output,
                kind,
                num_tokens_input,
                num_tokens_output,
            } => KindModel::Tool {
                tool_call_id: tool_call_id@,
                function_name: function_name@,
                arguments: arguments@,
                output: output@,
                kind: kind@,
                num_tokens_input,
                num_tokens_output,
            },
            EventKind::Abort => KindModel::Abort,
            EventKind::Archive { summary, num_tokens, archived_events } => KindModel::Archive {
                summary: summary@,
                num_tokens,
                archived_events,
            },
        }
    }
}

impl Clone for EventKind {
    fn clone(&self) -> (r: Self)
        ensures
            r@ == self@,
    {
        match self {
            EventKind::UserPrompt { text, permission, model, num_tokens } => EventKind::UserPrompt {
                text: text.clone(),
                permission: *permission,
                model: model.clone(),
                num_tokens: *num_tokens,
            },
            EventKind::Assistant {
                reasoning,
                text,
                tool_event_ids,
                num_tokens_reasoning,
                num_tokens_text,
                reported_usage,
                completion_parts,
            } => EventKind::Assistant {
                reasoning: reasoning.clone(),
                text: text.clone(),
                tool_event_ids: llm::copy_numbers(tool_event_ids),
                num_tokens_reasoning: *num_tokens_reasoning,
                num_tokens_text: *num_tokens_text,
                reported_usage: *reported_usage,
                completion_parts: match completion_parts {
                    Some(p) => Some(p.clone()),
                    None => None,
                },
            },
            EventKind::Tool {
                tool_call_id,
                function_name,
                arguments,
                output,
                kind,
                num_tokens_input,
                num_tokens_output,
            } => EventKind::Tool {
                tool_call_id: tool_call_id.clone(),
                function_name: function_name.clone(),
                arguments: arguments.clone(),
                output: output.clone(),
                kind: kind.clone(),
                num_tokens_input: *num_tokens_input,
                num_tokens_output: *num_tokens_output,
            },
            EventKind::Abort => EventKind::Abort,
            EventKind::Archive { summary, num_tokens, archived_events } => EventKind::Archive {
                summary: summary.clone(),
                num_tokens: *num_tokens,
                archived_events: *archived_events,
            },
        }
    }
}

/// An event of the history.
#[derive(Debug, PartialEq)]
pub struct ChatEvent {
    /// The event before it.
    pub previous_id: Option<EventId>,
    /// What it belongs to: a round to its prompt, a tool to its round. A tool that the user
    /// started belongs to nothing.
    pub parent_id: Option<EventId>,
    pub time_begin: Option<Instant>,
    /// None while the event is open.
    pub time_end: Option<Instant>,
    pub kind: EventKind,
}

/// What an event holds.
pub struct EventModel {
    pub previous_id: Option<EventId>,
    pub parent_id: Option<EventId>,
    pub time_begin: Option<Instant>,
    pub time_end: Option<Instant>,
    pub kind: KindModel,
}

impl View for ChatEvent {
    type V = EventModel;

    open spec fn view(&self) -> EventModel {
        EventModel {
            previous_id: self.previous_id,
            parent_id: self.parent_id,
            time_begin: self.time_begin,
            time_end: self.time_end,
            kind: self.kind@,
        }
    }
}

impl Clone for ChatEvent {
    fn clone(&self) -> (r: Self)
        ensures
            r@ == self@,
    {
        ChatEvent {
            previous_id: self.previous_id,
            parent_id: self.parent_id,
            time_begin: self.time_begin,
            time_end: self.time_end,
            kind: self.kind.clone(),
        }
    }
}

/// What the events of a list hold.
pub open spec fn event_views(v: Seq<ChatEvent>) -> Seq<EventModel> {
    v.map_values(|e: ChatEvent| e@)
}

// ---------------------------------------------------------------------------
// The model of a history
// ---------------------------------------------------------------------------
/// What a history holds: the events by number, and the order of the numbers.
pub struct ChatModel {
    pub events: Seq<EventModel>,
    pub order: Seq<EventId>,
}

impl ChatModel {
    /// Whether there is an event with the number `id`.
    pub open spec fn has(self, id: EventId) -> bool {
        1 <= id <= self.events.len()
    }

    /// The event with the number `id`.
    pub open spec fn at(self, id: EventId) -> EventModel {
        self.events[id - 1]
    }

    /// Whether the event `id` is a tool.
    pub open spec fn is_tool(self, id: EventId) -> bool {
        self.has(id) && self.at(id).kind is Tool
    }

    /// Whether the tools that a content names are tools.
    pub open spec fn names_tools(self, kind: KindModel) -> bool {
        kind matches KindModel::Assistant { tool_event_ids, .. } ==> forall|k: int|
            0 <= k < tool_event_ids.len() ==> self.is_tool(#[trigger] tool_event_ids[k])
    }

    /// The number before the place `i` of the order, if there is one.
    pub open spec fn before(self, i: int) -> Option<EventId> {
        if i > 0 {
            Some(self.order[i - 1])
        } else {
            None
        }
    }

    /// Whether each event names the one before it in the order, and the first names none.
    #[verifier::opaque]
    pub open spec fn chained(self) -> bool {
        forall|i: int|
            0 <= i < self.order.len() ==> self.at(#[trigger] self.order[i]).previous_id
                == self.before(i)
    }

    /// Whether the order holds each number from one on exactly once, and rounds name tools only.
    pub open spec fn shaped(self) -> bool {
        &&& self.events.len() == self.order.len()
        &&& self.order.no_duplicates()
        &&& forall|i: int| 0 <= i < self.order.len() ==> self.has(#[trigger] self.order[i])
        &&& forall|id: EventId| #[trigger] self.has(id) ==> self.order.contains(id)
        &&& forall|i: int|
            0 <= i < self.events.len() ==> self.names_tools(#[trigger] self.events[i].kind)
    }

    /// The order holds each number from one on exactly once, rounds name tools only, and each
    /// event names the one before it.
    pub open spec fn ok(self) -> bool {
        self.shaped() && self.chained()
    }

    /// The history with another event under the number `id`; unchanged where there is none.
    pub open spec fn with(self, id: EventId, e: EventModel) -> ChatModel {
        if self.has(id) {
            ChatModel { events: self.events.update(id - 1, e), order: self.order }
        } else {
            self
        }
    }

    /// The last number in the order.
    pub open spec fn newest(self) -> Option<EventId> {
        if self.order.len() > 0 {
            Some(self.order.last())
        } else {
            None
        }
    }

    /// The history with one more event at its end.
    pub open spec fn appended(
        self,
        parent_id: Option<EventId>,
        time_begin: Option<Instant>,
        time_end: Option<Instant>,
        kind: KindModel,
    ) -> ChatModel {
        ChatModel {
            events: self.events.push(
                EventModel { previous_id: self.newest(), parent_id, time_begin, time_end, kind },
            ),
            order: self.order.push((self.events.len() + 1) as EventId),
        }
    }
}

/// The empty history.
pub open spec fn empty_chat() -> ChatModel {
    ChatModel { events: Seq::empty(), order: Seq::empty() }
}

/// The event `e` with its end at `t`, where it was open.
pub open spec fn ended(e: EventModel, t: Instant) -> EventModel {
    if e.time_end is None {
        EventModel { time_end: Some(t), ..e }
    } else {
        e
    }
}

/// Whether `e` belongs to a turn: a round of the model or a tool of one.
pub open spec fn in_turn(e: EventModel) -> bool {
    e.kind is Assistant || (e.kind is Tool && e.parent_id is Some)
}

/// The history with the open turn, if any, closed at `t`.
pub open spec fn turn_closed(m: ChatModel, t: Instant) -> ChatModel {
    ChatModel {
        events: m.events.map_values(
            |e: EventModel|
                if in_turn(e) {
                    ended(e, t)
                } else {
                    e
                },
        ),
        order: m.order,
    }
}

/// A round with one more tool.
pub open spec fn with_tool(e: EventModel, id: EventId) -> EventModel {
    match e.kind {
        KindModel::Assistant {
            reasoning,
            text,
            tool_event_ids,
            num_tokens_reasoning,
            num_tokens_text,
            reported_usage,
            completion_parts,
        } => EventModel {
            kind: KindModel::Assistant {
                reasoning,
                text,
                tool_event_ids: tool_event_ids.push(id),
                num_tokens_reasoning,
                num_tokens_text,
                reported_usage,
                completion_parts,
            },
            ..e
        },
        _ => e,
    }
}

/// The history with the tool `id` noted at its round, if it has one.
pub open spec fn registered(m: ChatModel, parent_id: Option<EventId>, id: EventId) -> ChatModel {
    match parent_id {
        Some(pid) => m.with(pid, with_tool(m.at(pid), id)),
        None => m,
    }
}

/// The history with a new tool, noted at its round.
pub open spec fn tool_opened(
    m: ChatModel,
    parent_id: Option<EventId>,
    time_begin: Instant,
    kind: KindModel,
) -> ChatModel {
    registered(m, parent_id, (m.events.len() + 1) as EventId).appended(
        parent_id,
        Some(time_begin),
        None,
        kind,
    )
}

/// A round with more reasoning.
pub open spec fn more_reasoning(e: EventModel, chunk: Seq<char>) -> EventModel {
    match e.kind {
        KindModel::Assistant {
            reasoning,
            text,
            tool_event_ids,
            num_tokens_reasoning,
            num_tokens_text,
            reported_usage,
            completion_parts,
        } => EventModel {
            kind: KindModel::Assistant {
                reasoning: reasoning + chunk,
                text,
                tool_event_ids,
                num_tokens_reasoning,
                num_tokens_text,
                reported_usage,
                completion_parts,
            },
            ..e
        },
        _ => e,
    }
}

/// A round with more text.
pub open spec fn more_text(e: EventModel, chunk: Seq<char>) -> EventModel {
    match e.kind {
        KindModel::Assistant {
            reasoning,
            text,
            tool_event_ids,
            num_tokens_reasoning,
            num_tokens_text,
            reported_usage,
            completion_parts,
        } => EventModel {
            kind: KindModel::Assistant {
                reasoning,
                text: text + chunk,
                tool_event_ids,
                num_tokens_reasoning,
                num_tokens_text,
                reported_usage,
                completion_parts,
            },
            ..e
        },
        _ => e,
    }
}

/// A tool with more output.
pub open spec fn more_output(e: EventModel, chunk: Seq<char>) -> EventModel {
    match e.kind {
        KindModel::Tool {
            tool_call_id,
            function_name,
            arguments,
            output,
            kind,
            num_tokens_input,
            num_tokens_output,
        } => EventModel {
            kind: KindModel::Tool {
                tool_call_id,
                function_name,
                arguments,
                output: output + chunk,
                kind,
                num_tokens_input,
                num_tokens_output,
            },
            ..e
        },
        _ => e,
    }
}

/// `e` changed by `f` while it is open; a closed event stays as it is.
pub open spec fn if_open(e: EventModel, f: spec_fn(EventModel) -> EventModel) -> EventModel {
    if e.time_end is None {
        f(e)
    } else {
        e
    }
}

/// The output that a finished tool keeps: a tool that gave nothing is marked as broken off.
pub open spec fn final_output(output: Seq<char>) -> Seq<char> {
    if output.len() == 0 {
        "Execution aborted"@
    } else {
        output
    }
}

/// A tool with its final output, kind and token counts.
pub open spec fn tool_done(
    e: EventModel,
    output: Seq<char>,
    kind: ToolModel,
    num_tokens_input: u64,
    num_tokens_output: u64,
    t: Instant,
) -> EventModel {
    let e = EventModel { time_end: Some(t), ..e };
    match e.kind {
        KindModel::Tool { tool_call_id, function_name, arguments, .. } => EventModel {
            kind: KindModel::Tool {
                tool_call_id,
                function_name,
                arguments,
                output: final_output(output),
                kind,
                num_tokens_input,
                num_tokens_output,
            },
            ..e
        },
        _ => e,
    }
}

/// A round with its end, its usage and its token counts.
pub open spec fn round_done(
    e: EventModel,
    t: Instant,
    usage: Usage,
    nr: u64,
    nt: u64,
) -> EventModel {
    let e = EventModel { time_end: Some(t), ..e };
    match e.kind {
        KindModel::Assistant { reasoning, text, tool_event_ids, completion_parts, .. } => EventModel {
            kind: KindModel::Assistant {
                reasoning,
                text,
                tool_event_ids,
                num_tokens_reasoning: nr,
                num_tokens_text: nt,
                reported_usage: usage,
                completion_parts,
            },
            ..e
        },
        _ => e,
    }
}

/// The history with the open event `id` finished; a broken-off one is followed by its mark.
pub open spec fn finalized(
    m: ChatModel,
    id: EventId,
    t: Instant,
    usage: Usage,
    nr: u64,
    nt: u64,
    aborted: bool,
) -> ChatModel {
    if m.has(id) && m.at(id).time_end is None {
        let done = m.with(id, round_done(m.at(id), t, usage, nr, nt));
        if aborted {
            done.appended(None, Some(t), Some(t), KindModel::Abort)
        } else {
            done
        }
    } else {
        m
    }
}

/// A round with measured parts.
pub open spec fn with_parts(e: EventModel, parts: Option<llm::PartsModel>) -> EventModel {
    match e.kind {
        KindModel::Assistant {
            reasoning,
            text,
            tool_event_ids,
            num_tokens_reasoning,
            num_tokens_text,
            reported_usage,
            ..
        } => EventModel {
            kind: KindModel::Assistant {
                reasoning,
                text,
                tool_event_ids,
                num_tokens_reasoning,
                num_tokens_text,
                reported_usage,
                completion_parts: parts,
            },
            ..e
        },
        _ => e,
    }
}

/// A prompt with its token count.
pub open spec fn with_prompt_tokens(e: EventModel, n: u64) -> EventModel {
    match e.kind {
        KindModel::UserPrompt { text, permission, model, .. } => EventModel {
            kind: KindModel::UserPrompt { text, permission, model, num_tokens: n },
            ..e
        },
        _ => e,
    }
}

/// A round with its token counts.
pub open spec fn with_round_tokens(e: EventModel, nr: u64, nt: u64) -> EventModel {
    match e.kind {
        KindModel::Assistant {
            reasoning,
            text,
            tool_event_ids,
            reported_usage,
            completion_parts,
            ..
        } => EventModel {
            kind: KindModel::Assistant {
                reasoning,
                text,
                tool_event_ids,
                num_tokens_reasoning: nr,
                num_tokens_text: nt,
                reported_usage,
                completion_parts,
            },
            ..e
        },
        _ => e,
    }
}

/// A tool with its token counts.
pub open spec fn with_tool_tokens(e: EventModel, ni: u64, no: u64) -> EventModel {
    match e.kind {
        KindModel::Tool { tool_call_id, function_name, arguments, output, kind, .. } => EventModel {
            kind: KindModel::Tool {
                tool_call_id,
                function_name,
                arguments,
                output,
                kind,
                num_tokens_input: ni,
                num_tokens_output: no,
            },
            ..e
        },
        _ => e,
    }
}

/// The smaller of a boundary and a length.
pub open spec fn clamped(boundary: usize, len: nat) -> nat {
    if boundary < len {
        boundary as nat
    } else {
        len
    }
}

/// The history with a summary at `boundary`. Everything before it stays; what follows it hangs on
/// the summary from now on.
pub open spec fn compacted(
    m: ChatModel,
    boundary: usize,
    summary: Seq<char>,
    num_tokens: u64,
    time_begin: Instant,
    time_end: Instant,
) -> ChatModel {
    let arch = clamped(boundary, m.order.len());
    let id = (m.events.len() + 1) as EventId;
    let moved = if arch < m.order.len() {
        let next = m.order[arch as int];
        m.with(next, EventModel { previous_id: Some(id), ..m.at(next) })
    } else {
        m
    };
    ChatModel {
        events: moved.events.push(
            EventModel {
                previous_id: if arch > 0 {
                    Some(m.order[arch - 1])
                } else {
                    None
                },
                parent_id: None,
                time_begin: Some(time_begin),
                time_end: Some(time_end),
                kind: KindModel::Archive { summary, num_tokens, archived_events: arch as usize },
            },
        ),
        order: m.order.insert(arch as int, id),
    }
}

// ---------------------------------------------------------------------------
// The shape of a history stays sound
// ---------------------------------------------------------------------------
/// Changing an event without changing what tools it names, nor the event before it, keeps a
/// history sound.
pub proof fn lemma_with_ok(m: ChatModel, id: EventId, e: EventModel)
    requires
        m.ok(),
        m.has(id) ==> (m.at(id).kind is Tool <==> e.kind is Tool),
        m.has(id) ==> m.names_tools(e.kind),
        m.has(id) ==> e.previous_id == m.at(id).previous_id,
    ensures
        m.with(id, e).ok(),
{
    reveal(ChatModel::chained);
    let w = m.with(id, e);
    lemma_with_shaped(m, id, e);
    if m.has(id) {
        assert forall|i: int| 0 <= i < w.order.len() implies w.at(
            #[trigger] w.order[i],
        ).previous_id == w.before(i) by {
            assert(m.has(m.order[i]));
            assert(m.at(m.order[i]).previous_id == m.before(i));
        }
    }
}

/// Changing an event without changing what tools it names keeps the shape of a history.
proof fn lemma_with_shaped(m: ChatModel, id: EventId, e: EventModel)
    requires
        m.shaped(),
        m.has(id) ==> (m.at(id).kind is Tool <==> e.kind is Tool),
        m.has(id) ==> m.names_tools(e.kind),
    ensures
        m.with(id, e).shaped(),
{
    let w = m.with(id, e);
    if m.has(id) {
        assert(w.order == m.order);
        assert forall|i: int| 0 <= i < w.order.len() implies w.has(#[trigger] w.order[i]) by {
            assert(m.has(m.order[i]));
        }
        assert forall|x: EventId| #[trigger] w.has(x) implies w.order.contains(x) by {
            assert(m.has(x));
        }
        assert forall|x: EventId| #[trigger] m.is_tool(x) implies w.is_tool(x) by {}
        assert forall|i: int| 0 <= i < w.events.len() implies w.names_tools(
            #[trigger] w.events[i].kind,
        ) by {
            assert(m.names_tools(m.events[i].kind));
            let kind = w.events[i].kind;
            assert(m.names_tools(kind));
            if let KindModel::Assistant { tool_event_ids, .. } = kind {
                assert forall|k: int| 0 <= k < tool_event_ids.len() implies w.is_tool(
                    #[trigger] tool_event_ids[k],
                ) by {
                    assert(m.is_tool(tool_event_ids[k]));
                }
            }
        }
    }
}

/// Appending an event that names no tools keeps a history sound.
pub proof fn lemma_appended_ok(
    m: ChatModel,
    parent_id: Option<EventId>,
    time_begin: Option<Instant>,
    time_end: Option<Instant>,
    kind: KindModel,
)
    requires
        m.ok(),
        m.events.len() < u64::MAX,
        m.names_tools(kind),
    ensures
        m.appended(parent_id, time_begin, time_end, kind).ok(),
{
    reveal(ChatModel::chained);
    let w = m.appended(parent_id, time_begin, time_end, kind);
    let id = (m.events.len() + 1) as EventId;
    assert(w.order == m.order.push(id));
    assert forall|i: int| 0 <= i < w.order.len() implies w.has(#[trigger] w.order[i]) by {
        if i < m.order.len() {
            assert(m.has(m.order[i]));
        }
    }
    assert forall|i: int, j: int|
        0 <= i < w.order.len() && 0 <= j < w.order.len() && i != j implies w.order[i]
        != w.order[j] by {
        if i < m.order.len() {
            assert(m.has(m.order[i]));
        }
        if j < m.order.len() {
            assert(m.has(m.order[j]));
        }
    }
    assert forall|x: EventId| #[trigger] w.has(x) implies w.order.contains(x) by {
        if x == id {
            assert(w.order[w.order.len() - 1] == x);
        } else {
            assert(m.has(x));
            let k = choose|k: int| 0 <= k < m.order.len() && m.order[k] == x;
            assert(w.order[k] == x);
        }
    }
    assert forall|i: int| 0 <= i < w.order.len() implies w.at(#[trigger] w.order[i]).previous_id
        == w.before(i) by {
        if i < m.order.len() {
            assert(m.has(m.order[i]));
            assert(m.at(m.order[i]).previous_id == m.before(i));
        }
    }
    assert forall|x: EventId| #[trigger] m.is_tool(x) implies w.is_tool(x) by {}
    assert forall|i: int| 0 <= i < w.events.len() implies w.names_tools(
        #[trigger] w.events[i].kind,
    ) by {
        let k = w.events[i].kind;
        if i < m.events.len() {
            assert(m.names_tools(m.events[i].kind));
        }
        assert(m.names_tools(k));
        if let KindModel::Assistant { tool_event_ids, .. } = k {
            assert forall|j: int| 0 <= j < tool_event_ids.len() implies w.is_tool(
                #[trigger] tool_event_ids[j],
            ) by {
                assert(m.is_tool(tool_event_ids[j]));
            }
        }
    }
}

/// Opening a tool keeps a history sound.
pub proof fn lemma_tool_opened_ok(
    m: ChatModel,
    parent_id: Option<EventId>,
    time_begin: Instant,
    kind: KindModel,
)
    requires
        m.ok(),
        m.events.len() < u64::MAX,
        kind is Tool,
    ensures
        tool_opened(m, parent_id, time_begin, kind).ok(),
{
    // First the new tool, then its note at the round: the same history.
    let id = (m.events.len() + 1) as EventId;
    let a = m.appended(parent_id, Some(time_begin), None, kind);
    lemma_appended_ok(m, parent_id, Some(time_begin), None, kind);
    let w = tool_opened(m, parent_id, time_begin, kind);
    if let Some(pid) = parent_id {
        if m.has(pid) {
            let e = with_tool(m.at(pid), id);
            assert(a.at(pid) == m.at(pid));
            assert(a.is_tool(id));
            assert(a.names_tools(a.events[pid - 1].kind));
            if let KindModel::Assistant { tool_event_ids, .. } = m.at(pid).kind {
                assert forall|j: int| 0 <= j < tool_event_ids.push(id).len() implies a.is_tool(
                    #[trigger] tool_event_ids.push(id)[j],
                ) by {
                    if j < tool_event_ids.len() {
                        assert(a.is_tool(tool_event_ids[j]));
                    }
                }
            }
            lemma_with_ok(a, pid, e);
            assert(w.events =~= a.with(pid, e).events);
            assert(w == a.with(pid, e));
        } else {
            assert(w == a);
        }
    } else {
        assert(w == a);
    }
}

/// Closing the open turn keeps a history sound.
pub proof fn lemma_turn_closed_ok(m: ChatModel, t: Instant)
    requires
        m.ok(),
    ensures
        turn_closed(m, t).ok(),
{
    reveal(ChatModel::chained);
    let w = turn_closed(m, t);
    assert forall|i: int| 0 <= i < w.order.len() implies w.has(#[trigger] w.order[i]) by {
        assert(m.has(m.order[i]));
    }
    assert forall|x: EventId| #[trigger] w.has(x) implies w.order.contains(x) by {
        assert(m.has(x));
    }
    assert forall|i: int| 0 <= i < w.order.len() implies w.at(#[trigger] w.order[i]).previous_id
        == w.before(i) by {
        assert(m.has(m.order[i]));
        assert(m.at(m.order[i]).previous_id == m.before(i));
    }
    assert forall|i: int| 0 <= i < w.events.len() implies w.names_tools(
        #[trigger] w.events[i].kind,
    ) by {
        assert(m.names_tools(m.events[i].kind));
        if let KindModel::Assistant { tool_event_ids, .. } = m.events[i].kind {
            assert forall|j: int| 0 <= j < tool_event_ids.len() implies w.is_tool(
                #[trigger] tool_event_ids[j],
            ) by {
                assert(m.is_tool(tool_event_ids[j]));
            }
        }
    }
}

/// Putting a summary in keeps a history chained: what followed the place hangs on the summary.
proof fn lemma_compacted_chained(
    m: ChatModel,
    boundary: usize,
    summary: Seq<char>,
    num_tokens: u64,
    time_begin: Instant,
    time_end: Instant,
)
    requires
        m.ok(),
        m.events.len() < u64::MAX,
    ensures
        compacted(m, boundary, summary, num_tokens, time_begin, time_end).chained(),
{
    reveal(ChatModel::chained);
    let w = compacted(m, boundary, summary, num_tokens, time_begin, time_end);
    let arch = clamped(boundary, m.order.len()) as int;
    assert forall|i: int| 0 <= i < w.order.len() implies w.at(#[trigger] w.order[i]).previous_id
        == w.before(i) by {
        let k = if i < arch {
            i
        } else {
            i - 1
        };
        if i != arch {
            assert(w.order[i] == m.order[k]);
            assert(m.has(m.order[k]));
            assert(m.at(m.order[k]).previous_id == m.before(k));
        }
    }
}

/// Putting a summary in keeps a history sound.
pub proof fn lemma_compacted_ok(
    m: ChatModel,
    boundary: usize,
    summary: Seq<char>,
    num_tokens: u64,
    time_begin: Instant,
    time_end: Instant,
)
    requires
        m.ok(),
        m.events.len() < u64::MAX,
    ensures
        compacted(m, boundary, summary, num_tokens, time_begin, time_end).ok(),
{
    lemma_compacted_chained(m, boundary, summary, num_tokens, time_begin, time_end);
    let w = compacted(m, boundary, summary, num_tokens, time_begin, time_end);
    let arch = clamped(boundary, m.order.len()) as int;
    let id = (m.events.len() + 1) as EventId;
    let moved = if arch < m.order.len() {
        let next = m.order[arch];
        assert(m.has(next));
        assert(m.names_tools(m.events[next - 1].kind));
        lemma_with_shaped(m, next, EventModel { previous_id: Some(id), ..m.at(next) });
        m.with(next, EventModel { previous_id: Some(id), ..m.at(next) })
    } else {
        m
    };
    assert(moved.shaped());
    let back = |i: int|
        if i < arch {
            i
        } else {
            i - 1
        };
    assert forall|i: int| 0 <= i < w.order.len() implies w.has(#[trigger] w.order[i]) by {
        if i != arch {
            assert(w.order[i] == m.order[back(i)]);
            assert(m.has(m.order[back(i)]));
        }
    }
    assert forall|i: int, j: int|
        0 <= i < w.order.len() && 0 <= j < w.order.len() && i != j implies w.order[i]
        != w.order[j] by {
        if i != arch {
            assert(w.order[i] == m.order[back(i)]);
            assert(m.has(m.order[back(i)]));
        }
        if j != arch {
            assert(w.order[j] == m.order[back(j)]);
            assert(m.has(m.order[back(j)]));
        }
    }
    assert forall|x: EventId| #[trigger] w.has(x) implies w.order.contains(x) by {
        if x == id {
            assert(w.order[arch] == x);
        } else {
            assert(m.has(x));
            let k = choose|k: int| 0 <= k < m.order.len() && m.order[k] == x;
            let f = if k < arch {
                k
            } else {
                k + 1
            };
            assert(w.order[f] == x);
        }
    }
    assert forall|i: int| 0 <= i < w.events.len() implies w.names_tools(
        #[trigger] w.events[i].kind,
    ) by {
        let k = w.events[i].kind;
        if i < m.events.len() {
            assert(moved.names_tools(moved.events[i].kind));
            if let KindModel::Assistant { tool_event_ids, .. } = k {
                assert forall|j: int| 0 <= j < tool_event_ids.len() implies w.is_tool(
                    #[trigger] tool_event_ids[j],
                ) by {
                    assert(moved.is_tool(tool_event_ids[j]));
                }
            }
        }
    }
}

// ---------------------------------------------------------------------------
// The history
// ---------------------------------------------------------------------------
/// The chronological archive of the events of a chat.
#[derive(Debug, PartialEq)]
pub struct Chat {
    /// The event with the number `n` stands at `n - 1`.
    events: Vec<ChatEvent>,
    /// All numbers in the order of the history.
    order: Vec<EventId>,
}

impl View for Chat {
    type V = ChatModel;

    closed spec fn view(&self) -> ChatModel {
        ChatModel { events: event_views(self.events@), order: self.order@ }
    }
}

impl Default for Chat {
    fn default() -> (r: Self)
        ensures
            r@ == empty_chat(),
            r@.ok(),
    {
        let r = Chat { events: Vec::new(), order: Vec::new() };
        assert(r@.events =~= Seq::empty());
        proof {
            reveal(ChatModel::chained);
        }
        r
    }
}

impl Clone for Chat {
    fn clone(&self) -> (r: Self)
        ensures
            r@ == self@,
    {
        let mut events: Vec<ChatEvent> = Vec::new();
        let mut i: usize = 0;
        assert(event_views(events@) == event_views(self.events@).take(0));
        while i < self.events.len()
            invariant
                i <= self.events@.len(),
                event_views(events@) == event_views(self.events@).take(i as int),
            decreases self.events@.len() - i,
        {
            let ghost before = events@;
            let e = self.events[i].clone();
            events.push(e);
            proof {
                assert(event_views(events@) =~= event_views(before).push(e@));
                assert(event_views(self.events@).take(i + 1) =~= event_views(self.events@).take(
                    i as int,
                ).push(self.events@[i as int]@));
            }
            i += 1;
        }
        assert(event_views(self.events@).take(self.events@.len() as int) == event_views(
            self.events@,
        ));
        Chat { events, order: llm::copy_numbers(&self.order) }
    }
}

impl Chat {
    /// An empty history.
    pub fn new() -> (r: Self)
        ensures
            r@ == empty_chat(),
            r@.ok(),
    {
        Self::default()
    }

    /// Whether there is an event with the number `id`.
    fn has(&self, id: EventId) -> (r: bool)
        ensures
            r == self@.has(id),
            r ==> 1 <= id <= self.events.len(),
    {
        1 <= id && id <= self.events.len() as u64
    }

    /// Appends an event; the result is its number.
    fn append(
        &mut self,
        parent_id: Option<EventId>,
        time_begin: Option<Instant>,
        time_end: Option<Instant>,
        kind: EventKind,
    ) -> (id: EventId)
        requires
            old(self)@.ok(),
            old(self)@.names_tools(kind@),
        ensures
            final(self)@ == old(self)@.appended(parent_id, time_begin, time_end, kind@),
            id == old(self)@.events.len() + 1,
            final(self)@.ok(),
    {
        let previous_id = if self.order.len() > 0 {
            Some(self.order[self.order.len() - 1])
        } else {
            None
        };
        let ghost before = self@;
        let e = ChatEvent { previous_id, parent_id, time_begin, time_end, kind };
        let ghost old_events = self.events@;
        self.events.push(e);
        let id = self.events.len() as u64;
        self.order.push(id);
        proof {
            assert(event_views(self.events@) =~= event_views(old_events).push(e@));
            lemma_appended_ok(before, parent_id, time_begin, time_end, kind@);
        }
        id
    }

    /// Appends a prompt of the user, finished at once. A turn that is still open is closed first.
    pub fn push_user_prompt(
        &mut self,
        text: String,
        permission: Permission,
        model: String,
        num_tokens: u64,
        time_begin: Instant,
    ) -> (id: EventId)
        requires
            old(self)@.ok(),
        ensures
            final(self)@ == turn_closed(old(self)@, time_begin).appended(
                None,
                Some(time_begin),
                Some(time_begin),
                KindModel::UserPrompt { text: text@, permission, model: model@, num_tokens },
            ),
            id == old(self)@.events.len() + 1,
            final(self)@.ok(),
    {
        self.close_turn(time_begin);
        self.append(
            None,
            Some(time_begin),
            Some(time_begin),
            EventKind::UserPrompt { text, permission, model, num_tokens },
        )
    }

    /// Closes the open events of a turn.
    fn close_turn(&mut self, t: Instant)
        requires
            old(self)@.ok(),
        ensures
            final(self)@ == turn_closed(old(self)@, t),
            final(self)@.ok(),
    {
        let ghost before = self@;
        let ghost want = turn_closed(before, t).events;
        let n: usize = self.events.len();
        let mut i: usize = 0;
        while i < n
            invariant
                i <= n,
                n == self.events@.len(),
                self.order@ == before.order,
                before.events.len() == n,
                want == turn_closed(before, t).events,
                forall|k: int| 0 <= k < i ==> event_views(self.events@)[k] == #[trigger] want[k],
                forall|k: int|
                    i <= k < n ==> event_views(self.events@)[k] == #[trigger] before.events[k],
            decreases n - i,
        {
            let ghost old_events = self.events@;
            let ev = &mut self.events[i];
            let belongs = match &ev.kind {
                EventKind::Assistant { .. } => true,
                EventKind::Tool { .. } => ev.parent_id.is_some(),
                _ => false,
            };
            if belongs && ev.time_end.is_none() {
                ev.time_end = Some(t);
            }
            assert(event_views(self.events@)[i as int] == want[i as int]) by {
                assert(event_views(old_events)[i as int] == before.events[i as int]);
            }
            assert forall|k: int| 0 <= k < n && k != i implies #[trigger] event_views(
                self.events@,
            )[k] == event_views(old_events)[k] by {}
            i += 1;
        }
        proof {
            assert(event_views(self.events@) =~= want);
            lemma_turn_closed_ok(before, t);
        }
    }

    /// Opens a round of the model.
    pub fn open_assistant(
        &mut self,
        parent_id: Option<EventId>,
        reasoning: String,
        text: String,
        time_begin: Instant,
    ) -> (id: EventId)
        requires
            old(self)@.ok(),
        ensures
            final(self)@ == old(self)@.appended(
                parent_id,
                Some(time_begin),
                None,
                KindModel::Assistant {
                    reasoning: reasoning@,
                    text: text@,
                    tool_event_ids: Seq::empty(),
                    num_tokens_reasoning: 0,
                    num_tokens_text: 0,
                    reported_usage: llm::no_usage(),
                    completion_parts: None,
                },
            ),
            id == old(self)@.events.len() + 1,
            final(self)@.ok(),
    {
        self.append(
            parent_id,
            Some(time_begin),
            None,
            EventKind::Assistant {
                reasoning,
                text,
                tool_event_ids: Vec::new(),
                num_tokens_reasoning: 0,
                num_tokens_text: 0,
                reported_usage: llm::zero_usage(),
                completion_parts: None,
            },
        )
    }

    /// Opens a tool and notes it at its round.
    pub fn open_tool(
        &mut self,
        parent_id: Option<EventId>,
        tool_call_id: String,
        function_name: String,
        arguments: String,
        output: String,
        kind: ToolKind,
        time_begin: Instant,
    ) -> (id: EventId)
        requires
            old(self)@.ok(),
        ensures
            final(self)@ == tool_opened(
                old(self)@,
                parent_id,
                time_begin,
                KindModel::Tool {
                    tool_call_id: tool_call_id@,
                    function_name: function_name@,
                    arguments: arguments@,
                    output: output@,
                    kind: kind@,
                    num_tokens_input: 0,
                    num_tokens_output: 0,
                },
            ),
            id == old(self)@.events.len() + 1,
            final(self)@.ok(),
    {
        let kind = EventKind::Tool {
            tool_call_id,
            function_name,
            arguments,
            output,
            kind,
            num_tokens_input: 0,
            num_tokens_output: 0,
        };
        let ghost before = self@;
        let id = self.append(parent_id, Some(time_begin), None, kind);
        let ghost a = self@;
        if let Some(pid) = parent_id {
            if self.has(pid) && pid != id {
                let i: usize = (pid - 1) as usize;
                let ghost old_events = self.events@;
                if let EventKind::Assistant { tool_event_ids, .. } = &mut self.events[i].kind {
                    tool_event_ids.push(id);
                }
                proof {
                    assert(event_views(self.events@) =~= event_views(old_events).update(
                        i as int,
                        self.events@[i as int]@,
                    ));
                    assert(before.has(pid));
                    assert(event_views(old_events)[i as int] == before.at(pid));
                    assert(self.events@[i as int]@ == with_tool(before.at(pid), id));
                    assert(self@.events =~= tool_opened(
                        before,
                        parent_id,
                        time_begin,
                        kind@,
                    ).events);
                }
            } else {
                assert(!before.has(pid));
            }
        }
        proof {
            lemma_tool_opened_ok(before, parent_id, time_begin, kind@);
        }
        id
    }

    /// The event with the number `id`.
    pub fn event(&self, id: EventId) -> (r: Option<&ChatEvent>)
        ensures
            match r {
                Some(e) => self@.has(id) && e@ == self@.at(id),
                None => !self@.has(id),
            },
    {
        if self.has(id) {
            Some(&self.events[(id - 1) as usize])
        } else {
            None
        }
    }

    /// All numbers in the order of the history.
    pub fn order(&self) -> (r: &[EventId])
        ensures
            r@ == self@.order,
    {
        self.order.as_slice()
    }

    /// The events in the order of the history, each naming the one before it.
    pub fn iter(&self) -> (r: Vec<&ChatEvent>)
        requires
            self@.ok(),
        ensures
            r@.len() == self@.order.len(),
            forall|i: int| 0 <= i < r@.len() ==> (#[trigger] r@[i])@ == self@.at(self@.order[i]),
            forall|i: int| 0 <= i < r@.len() ==> (#[trigger] r@[i])@.previous_id == self@.before(i),
    {
        let mut out: Vec<&ChatEvent> = Vec::new();
        let mut i: usize = 0;
        while i < self.order.len()
            invariant
                i <= self.order@.len(),
                self@.ok(),
                self@.order == self.order@,
                out@.len() == i,
                forall|k: int|
                    0 <= k < i ==> (#[trigger] out@[k])@ == self@.at(self@.order[k]),
            decreases self.order@.len() - i,
        {
            let id = self.order[i];
            assert(self@.has(self@.order[i as int]));
            out.push(&self.events[(id - 1) as usize]);
            i += 1;
        }
        proof {
            reveal(ChatModel::chained);
        }
        out
    }

    /// Adds reasoning to an open round.
    pub fn append_reasoning(&mut self, id: EventId, chunk: &str)
        requires
            old(self)@.ok(),
        ensures
            final(self)@ == old(self)@.with(id, if_open(old(self)@.at(id), |e: EventModel| more_reasoning(e, chunk@))),
            final(self)@.ok(),
    {
        if self.has(id) {
            let i: usize = (id - 1) as usize;
            let ghost old_events = self.events@;
            let ghost before = self@;
            let ghost want = if_open(before.at(id), |e: EventModel| more_reasoning(e, chunk@));
            let ev = &mut self.events[i];
            if ev.time_end.is_none() {
                if let EventKind::Assistant { reasoning, .. } = &mut ev.kind {
                    reasoning.append(chunk);
                }
            }
            proof {
                assert(event_views(self.events@) =~= event_views(old_events).update(
                    i as int,
                    self.events@[i as int]@,
                ));
                assert(self.events@[i as int]@ == want);
                assert(before.names_tools(before.events[i as int].kind));
                lemma_with_ok(before, id, want);
            }
        }
    }

    /// Adds text to an open round.
    pub fn append_text(&mut self, id: EventId, chunk: &str)
        requires
            old(self)@.ok(),
        ensures
            final(self)@ == old(self)@.with(id, if_open(old(self)@.at(id), |e: EventModel| more_text(e, chunk@))),
            final(self)@.ok(),
    {
        if self.has(id) {
            let i: usize = (id - 1) as usize;
            let ghost old_events = self.events@;
            let ghost before = self@;
            let ghost want = if_open(before.at(id), |e: EventModel| more_text(e, chunk@));
            let ev = &mut self.events[i];
            if ev.time_end.is_none() {
                if let EventKind::Assistant { text, .. } = &mut ev.kind {
                    text.append(chunk);
                }
            }
            proof {
                assert(event_views(self.events@) =~= event_views(old_events).update(
                    i as int,
                    self.events@[i as int]@,
                ));
                assert(self.events@[i as int]@ == want);
                assert(before.names_tools(before.events[i as int].kind));
                lemma_with_ok(before, id, want);
            }
        }
    }

    /// Adds output to an open tool.
    pub fn append_tool_output(&mut self, id: EventId, chunk: &str)
        requires
            old(self)@.ok(),
        ensures
            final(self)@ == old(self)@.with(id, if_open(old(self)@.at(id), |e: EventModel| more_output(e, chunk@))),
            final(self)@.ok(),
    {
        if self.has(id) {
            let i: usize = (id - 1) as usize;
            let ghost old_events = self.events@;
            let ghost before = self@;
            let ghost want = if_open(before.at(id), |e: EventModel| more_output(e, chunk@));
            let ev = &mut self.events[i];
            if ev.time_end.is_none() {
                if let EventKind::Tool { output, .. } = &mut ev.kind {
                    output.append(chunk);
                }
            }
            proof {
                assert(event_views(self.events@) =~= event_views(old_events).update(
                    i as int,
                    self.events@[i as int]@,
                ));
                assert(self.events@[i as int]@ == want);
                assert(before.names_tools(before.events[i as int].kind));
                lemma_with_ok(before, id, want);
            }
        }
    }

    /// Closes an open event and leaves its content as it is.
    pub fn finish_tool(&mut self, id: EventId, time_end: Instant)
        requires
            old(self)@.ok(),
        ensures
            final(self)@ == old(self)@.with(id, ended(old(self)@.at(id), time_end)),
            final(self)@.ok(),
    {
        if self.has(id) {
            let i: usize = (id - 1) as usize;
            let ghost old_events = self.events@;
            let ghost before = self@;
            let ghost want = ended(before.at(id), time_end);
            let ev = &mut self.events[i];
            if ev.time_end.is_none() {
                ev.time_end = Some(time_end);
            }
            proof {
                assert(event_views(self.events@) =~= event_views(old_events).update(
                    i as int,
                    self.events@[i as int]@,
                ));
                assert(self.events@[i as int]@ == want);
                assert(before.names_tools(before.events[i as int].kind));
                lemma_with_ok(before, id, want);
            }
        }
    }

    /// Closes an open tool with its full output, kind and token counts.
    pub fn set_tool_final(&mut self, id: EventId, output: String, kind: ToolKind, num_tokens_input: u64, num_tokens_output: u64, time_end: Instant)
        requires
            old(self)@.ok(),
        ensures
            final(self)@ == old(self)@.with(id, if_open(old(self)@.at(id), |e: EventModel| tool_done(e, output@, kind@, num_tokens_input, num_tokens_output, time_end))),
            final(self)@.ok(),
    {
        if self.has(id) {
            let i: usize = (id - 1) as usize;
            let ghost old_events = self.events@;
            let ghost before = self@;
            let ghost want = if_open(before.at(id), |e: EventModel| tool_done(e, output@, kind@, num_tokens_input, num_tokens_output, time_end));
            let ev = &mut self.events[i];
            if ev.time_end.is_none() {
                ev.time_end = Some(time_end);
                if let EventKind::Tool {
                    output: o,
                    kind: k,
                    num_tokens_input: ni,
                    num_tokens_output: no,
                    ..
                } = &mut ev.kind {
                    *o = if output.as_str().is_empty() {
                        "Execution aborted".to_string()
                    } else {
                        output
                    };
                    *k = kind;
                    *ni = num_tokens_input;
                    *no = num_tokens_output;
                }
            }
            proof {
                assert(event_views(self.events@) =~= event_views(old_events).update(
                    i as int,
                    self.events@[i as int]@,
                ));
                assert(self.events@[i as int]@ == want);
                assert(before.names_tools(before.events[i as int].kind));
                lemma_with_ok(before, id, want);
            }
        }
    }

    /// Notes the measured parts of a round.
    pub fn set_completion_parts(&mut self, id: EventId, parts: Option<CompletionParts>)
        requires
            old(self)@.ok(),
        ensures
            final(self)@ == old(self)@.with(id, with_parts(old(self)@.at(id), parts_view(parts))),
            final(self)@.ok(),
    {
        if self.has(id) {
            let i: usize = (id - 1) as usize;
            let ghost old_events = self.events@;
            let ghost before = self@;
            let ghost want = with_parts(before.at(id), parts_view(parts));
            if let EventKind::Assistant { completion_parts, .. } = &mut self.events[i].kind {
                *completion_parts = parts;
            }
            proof {
                assert(event_views(self.events@) =~= event_views(old_events).update(
                    i as int,
                    self.events@[i as int]@,
                ));
                assert(self.events@[i as int]@ == want);
                assert(before.names_tools(before.events[i as int].kind));
                lemma_with_ok(before, id, want);
            }
        }
    }

    /// Notes the token count of a prompt.
    pub fn set_user_prompt_tokens(&mut self, id: EventId, num_tokens: u64)
        requires
            old(self)@.ok(),
        ensures
            final(self)@ == old(self)@.with(id, with_prompt_tokens(old(self)@.at(id), num_tokens)),
            final(self)@.ok(),
    {
        if self.has(id) {
            let i: usize = (id - 1) as usize;
            let ghost old_events = self.events@;
            let ghost before = self@;
            let ghost want = with_prompt_tokens(before.at(id), num_tokens);
            if let EventKind::UserPrompt { num_tokens: n, .. } = &mut self.events[i].kind {
                *n = num_tokens;
            }
            proof {
                assert(event_views(self.events@) =~= event_views(old_events).update(
                    i as int,
                    self.events@[i as int]@,
                ));
                assert(self.events@[i as int]@ == want);
                assert(before.names_tools(before.events[i as int].kind));
                lemma_with_ok(before, id, want);
            }
        }
    }

    /// Notes the token counts of a round.
    pub fn set_assistant_tokens(&mut self, id: EventId, num_tokens_reasoning: u64, num_tokens_text: u64)
        requires
            old(self)@.ok(),
        ensures
            final(self)@ == old(self)@.with(id, with_round_tokens(old(self)@.at(id), num_tokens_reasoning, num_tokens_text)),
            final(self)@.ok(),
    {
        if self.has(id) {
            let i: usize = (id - 1) as usize;
            let ghost old_events = self.events@;
            let ghost before = self@;
            let ghost want = with_round_tokens(before.at(id), num_tokens_reasoning, num_tokens_text);
            if let EventKind::Assistant { num_tokens_reasoning: nr, num_tokens_text: nt, .. } =
                &mut self.events[i].kind {
                *nr = num_tokens_reasoning;
                *nt = num_tokens_text;
            }
            proof {
                assert(event_views(self.events@) =~= event_views(old_events).update(
                    i as int,
                    self.events@[i as int]@,
                ));
                assert(self.events@[i as int]@ == want);
                assert(before.names_tools(before.events[i as int].kind));
                lemma_with_ok(before, id, want);
            }
        }
    }

    /// Notes the token counts of a tool.
    pub fn set_tool_tokens(&mut self, id: EventId, num_tokens_input: u64, num_tokens_output: u64)
        requires
            old(self)@.ok(),
        ensures
            final(self)@ == old(self)@.with(id, with_tool_tokens(old(self)@.at(id), num_tokens_input, num_tokens_output)),
            final(self)@.ok(),
    {
        if self.has(id) {
            let i: usize = (id - 1) as usize;
            let ghost old_events = self.events@;
            let ghost before = self@;
            let ghost want = with_tool_tokens(before.at(id), num_tokens_input, num_tokens_output);
            if let EventKind::Tool { num_tokens_input: ni, num_tokens_output: no, .. } =
                &mut self.events[i].kind {
                *ni = num_tokens_input;
                *no = num_tokens_output;
            }
            proof {
                assert(event_views(self.events@) =~= event_views(old_events).update(
                    i as int,
                    self.events@[i as int]@,
                ));
                assert(self.events@[i as int]@ == want);
                assert(before.names_tools(before.events[i as int].kind));
                lemma_with_ok(before, id, want);
            }
        }
    }

    /// Closes an open round with its usage and token counts. A round that was broken off is
    /// followed by a mark.
    pub fn finalize_assistant(
        &mut self,
        id: EventId,
        time_end: Instant,
        reported_usage: Usage,
        num_tokens_reasoning: u64,
        num_tokens_text: u64,
        aborted: bool,
    )
        requires
            old(self)@.ok(),
        ensures
            final(self)@ == finalized(
                old(self)@,
                id,
                time_end,
                reported_usage,
                num_tokens_reasoning,
                num_tokens_text,
                aborted,
            ),
            final(self)@.ok(),
    {
        let mut closed = false;
        if self.has(id) {
            let i: usize = (id - 1) as usize;
            let ghost old_events = self.events@;
            let ghost before = self@;
            let ev = &mut self.events[i];
            if ev.time_end.is_none() {
                ev.time_end = Some(time_end);
                if let EventKind::Assistant {
                    num_tokens_reasoning: nr,
                    num_tokens_text: nt,
                    reported_usage: ru,
                    ..
                } = &mut ev.kind {
                    *nr = num_tokens_reasoning;
                    *nt = num_tokens_text;
                    *ru = reported_usage;
                }
                closed = true;
            }
            proof {
                assert(event_views(self.events@) =~= event_views(old_events).update(
                    i as int,
                    self.events@[i as int]@,
                ));
                if closed {
                    let want = round_done(
                        before.at(id),
                        time_end,
                        reported_usage,
                        num_tokens_reasoning,
                        num_tokens_text,
                    );
                    assert(self.events@[i as int]@ == want);
                    assert(before.names_tools(before.events[i as int].kind));
                    lemma_with_ok(before, id, want);
                } else {
                    assert(self@.events =~= before.events);
                }
            }
        }
        if closed && aborted {
            self.append(None, Some(time_end), Some(time_end), EventKind::Abort);
        }
    }

    /// Puts a summary at `boundary` of the order. Everything before it stays in the history. The
    /// result is the number of events that the summary covers.
    pub fn compact(&mut self, boundary: usize, summary: String, num_tokens: u64) -> (r: u64)
        requires
            old(self)@.ok(),
        ensures
            r == clamped(boundary, old(self)@.order.len()),
            exists|b: Instant, e: Instant|
                final(self)@ == #[trigger] compacted(
                    old(self)@,
                    boundary,
                    summary@,
                    num_tokens,
                    b,
                    e,
                ),
            final(self)@.ok(),
    {
        let time_begin = now();
        let time_end = now();
        self.compact_between(boundary, summary, num_tokens, time_begin, time_end)
    }

    /// Puts a summary that was made between two points in time at `boundary` of the order. The
    /// result is the number of events that the summary covers.
    pub fn compact_between(
        &mut self,
        boundary: usize,
        summary: String,
        num_tokens: u64,
        time_begin: Instant,
        time_end: Instant,
    ) -> (r: u64)
        requires
            old(self)@.ok(),
        ensures
            r == clamped(boundary, old(self)@.order.len()),
            final(self)@ == compacted(
                old(self)@,
                boundary,
                summary@,
                num_tokens,
                time_begin,
                time_end,
            ),
            final(self)@.ok(),
    {
        let ghost before = self@;
        let arch: usize = if boundary < self.order.len() {
            boundary
        } else {
            self.order.len()
        };
        let previous_id = if arch > 0 {
            Some(self.order[arch - 1])
        } else {
            None
        };
        let ev = ChatEvent {
            previous_id,
            parent_id: None,
            time_begin: Some(time_begin),
            time_end: Some(time_end),
            kind: EventKind::Archive { summary, num_tokens, archived_events: arch },
        };
        let ghost old_events = self.events@;
        self.events.push(ev);
        let id = self.events.len() as u64;
        assert(event_views(self.events@) =~= event_views(old_events).push(ev@));
        if arch < self.order.len() {
            let next = self.order[arch];
            assert(before.has(before.order[arch as int]));
            let i: usize = (next - 1) as usize;
            let ghost pushed = self.events@;
            self.events[i].previous_id = Some(id);
            assert(event_views(self.events@) =~= event_views(pushed).update(
                i as int,
                self.events@[i as int]@,
            ));
        }
        self.order.insert(arch, id);
        proof {
            let want = compacted(before, boundary, summary@, num_tokens, time_begin, time_end);
            assert(self@.events =~= want.events);
            assert(self@.order =~= want.order);
            lemma_compacted_ok(before, boundary, summary@, num_tokens, time_begin, time_end);
        }
        arch as u64
    }
}

// ---------------------------------------------------------------------------
// Laws
// ---------------------------------------------------------------------------
/// Every event stands in the order of its history exactly once, and names the event before it: the
/// first one names none.
pub proof fn law_each_event_names_the_one_before(m: ChatModel, i: int)
    requires
        m.ok(),
        0 <= i < m.order.len(),
    ensures
        m.order.no_duplicates(),
        forall|id: EventId| m.has(id) <==> #[trigger] m.order.contains(id),
        m.at(m.order[i]).previous_id == (if i == 0 {
            None::<EventId>
        } else {
            Some(m.order[i - 1])
        }),
{
    reveal(ChatModel::chained);
}

/// A new event comes last, names the one before it, and leaves all others as they are.
pub proof fn law_new_events_come_last(
    m: ChatModel,
    parent_id: Option<EventId>,
    begin: Option<Instant>,
    end: Option<Instant>,
    kind: KindModel,
    i: int,
)
    requires
        m.events.len() < EventId::MAX,
        0 <= i < m.events.len(),
    ensures
        ({
            let n = m.appended(parent_id, begin, end, kind);
            let id = (m.events.len() + 1) as EventId;
            &&& n.has(id) && !m.has(id)
            &&& n.order == m.order.push(id)
            &&& n.at(id).kind == kind
            &&& n.at(id).parent_id == parent_id
            &&& n.at(id).time_begin == begin
            &&& n.at(id).time_end == end
            &&& m.order.len() > 0 ==> n.at(id).previous_id == Some(m.order.last())
            &&& m.order.len() == 0 ==> n.at(id).previous_id is None
            &&& n.events[i] == m.events[i]
        }),
{
}

/// Closing a turn ends what the model and its tools began, at that moment; what had ended keeps its
/// time, and a command of the user goes on.
pub proof fn law_closing_a_turn_ends_what_is_open(m: ChatModel, t: Instant, i: int)
    requires
        0 <= i < m.events.len(),
    ensures
        ({
            let n = turn_closed(m, t).events[i];
            let was = m.events[i];
            &&& turn_closed(m, t).order == m.order
            &&& n.kind == was.kind && n.parent_id == was.parent_id && n.time_begin
                == was.time_begin
            &&& was.time_end is Some ==> n == was
            &&& was.time_end is None && was.kind is Assistant ==> n.time_end == Some(t)
            &&& was.time_end is None && was.kind is Tool && was.parent_id is Some ==> n.time_end
                == Some(t)
            &&& was.time_end is None && was.kind is Tool && was.parent_id is None ==> n == was
            &&& !(was.kind is Tool) && !(was.kind is Assistant) ==> n == was
        }),
{
}

/// A closed event is not written to any more.
pub proof fn law_ended_events_stay(
    e: EventModel,
    f: spec_fn(EventModel) -> EventModel,
    t: Instant,
)
    requires
        e.time_end is Some,
    ensures
        if_open(e, f) == e,
        ended(e, t) == e,
{
}

/// A finished tool has the output that it gave, or the word that it was stopped; a finished round
/// has the count that was reported and the words that were written.
pub proof fn law_finished_events_keep_what_they_are(
    e: EventModel,
    output: Seq<char>,
    kind: ToolModel,
    ni: u64,
    no: u64,
    t: Instant,
    usage: Usage,
    nr: u64,
    nt: u64,
)
    ensures
        e.kind is Tool ==> {
            let d = tool_done(e, output, kind, ni, no, t);
            &&& d.kind is Tool
            &&& d.time_end == Some(t)
            &&& d.kind->output == (if output.len() == 0 {
                "Execution aborted"@
            } else {
                output
            })
            &&& d.kind->Tool_kind == kind
            &&& d.kind->tool_call_id == e.kind->tool_call_id
            &&& d.kind->function_name == e.kind->function_name
            &&& d.kind->arguments == e.kind->arguments
            &&& d.kind->num_tokens_input == ni
            &&& d.kind->num_tokens_output == no
        },
        e.kind is Assistant ==> {
            let d = round_done(e, t, usage, nr, nt);
            &&& d.kind is Assistant
            &&& d.time_end == Some(t)
            &&& d.kind->reported_usage == usage
            &&& d.kind->reasoning == e.kind->reasoning
            &&& d.kind->Assistant_text == e.kind->Assistant_text
            &&& d.kind->tool_event_ids == e.kind->tool_event_ids
            &&& d.kind->num_tokens_reasoning == nr
            &&& d.kind->num_tokens_text == nt
        },
{
}

/// A stopped round is followed by a mark; a round that had ended already is not closed again.
pub proof fn law_only_stopped_rounds_are_marked(
    m: ChatModel,
    id: EventId,
    t: Instant,
    usage: Usage,
    nr: u64,
    nt: u64,
)
    requires
        m.has(id),
        m.events.len() < EventId::MAX,
    ensures
        m.at(id).time_end is Some ==> finalized(m, id, t, usage, nr, nt, true) == m && finalized(
            m,
            id,
            t,
            usage,
            nr,
            nt,
            false,
        ) == m,
        m.at(id).time_end is None ==> {
            let stopped = finalized(m, id, t, usage, nr, nt, true);
            let done = finalized(m, id, t, usage, nr, nt, false);
            let mark = (m.events.len() + 1) as EventId;
            &&& done.order == m.order
            &&& done.events.len() == m.events.len()
            &&& stopped.order == m.order.push(mark)
            &&& stopped.at(mark).kind is Abort
            &&& stopped.at(id) == done.at(id)
            &&& done.at(id).time_end == Some(t)
        },
{
}

/// A summary stands behind as many events as it stands for, says so, and leaves every event there but
/// for the name of the one before it.
pub proof fn law_a_summary_archives_what_stands_before_it(
    m: ChatModel,
    boundary: usize,
    summary: Seq<char>,
    num_tokens: u64,
    begin: Instant,
    end: Instant,
    i: int,
)
    requires
        m.ok(),
        m.events.len() < EventId::MAX,
        m.events.len() <= usize::MAX,
        0 <= i < m.events.len(),
    ensures
        ({
            let n = compacted(m, boundary, summary, num_tokens, begin, end);
            let id = (m.events.len() + 1) as EventId;
            let arch = if boundary < m.order.len() {
                boundary as int
            } else {
                m.order.len() as int
            };
            &&& n.order == m.order.insert(arch, id)
            &&& n.at(id).kind == (KindModel::Archive {
                summary,
                num_tokens,
                archived_events: arch as usize,
            })
            &&& n.at(id).time_begin == Some(begin)
            &&& n.at(id).time_end == Some(end)
            &&& n.events[i].kind == m.events[i].kind
            &&& n.events[i].parent_id == m.events[i].parent_id
            &&& n.events[i].time_begin == m.events[i].time_begin
            &&& n.events[i].time_end == m.events[i].time_end
        }),
{
}

/// A tool is named last by the answer that called it.
pub proof fn law_answers_name_their_tools(m: ChatModel, pid: EventId, begin: Instant, kind: KindModel, i: int)
    requires
        m.has(pid),
        m.at(pid).kind is Assistant,
        m.events.len() < EventId::MAX,
        0 <= i < m.events.len(),
    ensures
        ({
            let n = tool_opened(m, Some(pid), begin, kind);
            let id = (m.events.len() + 1) as EventId;
            &&& n.at(pid).kind->tool_event_ids == m.at(pid).kind->tool_event_ids.push(id)
            &&& n.at(pid).kind->Assistant_text == m.at(pid).kind->Assistant_text
            &&& n.at(id).kind == kind
            &&& n.at(id).parent_id == Some(pid)
            &&& n.at(id).time_begin == Some(begin)
            &&& n.at(id).time_end is None
            &&& i != pid - 1 ==> n.events[i] == m.events[i]
        }),
{
}

} // verus!
