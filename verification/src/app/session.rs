//! A conversation: its history, its input and the state of the turn that is running.

use super::view::{ChatAnchor, ViewLevel};
use crate::channel::registry;
use crate::channel::{BoundChannel, Channel, ChannelRegistry};
use crate::chat;
use crate::chat::tokens;
use crate::chat::wire;
use crate::chat::{Chat, EventId, EventKind, ToolKind};
use crate::editor;
use crate::editor::Editor;
use crate::json;
use crate::llm;
use crate::llm::{CompletionParts, ToolActivity, Usage};
use crate::perm;
use crate::perm::Permission;
use crate::table;
use crate::text;
use std::time::Instant;
use vstd::prelude::*;
use vstd::string::*;

verus! {

/// What a session is doing.
#[derive(Debug, Clone, Copy, PartialEq, Eq, Structural)]
pub enum Phase {
    Idle,
    /// The answer of the model streams in.
    WaitingForLLM,
    /// A command of the user runs.
    WaitingForTool,
}

/// A conversation.
pub struct Session {
    pub id: usize,
    pub chat: Chat,
    pub editor: Editor,
    /// What was sent, oldest first.
    pub input_history: Vec<String>,
    /// The sent input that is shown; none for a fresh one.
    pub hist_cursor: Option<usize>,
    /// The fresh input while an old one is shown.
    pub hist_draft: String,
    pub phase: Phase,
    /// The round that grows.
    pub open_assistant_id: Option<EventId>,
    /// The tools that run.
    pub open_tool_ids: Vec<EventId>,
    /// The tool that gets the output.
    pub live_tool: Option<EventId>,
    /// What the status line says of the running tool.
    pub active_tool_label: Option<String>,
    /// What the server counted in the open round.
    pub pending_usage: Option<Usage>,
    /// What was measured in the open round.
    pub pending_parts: Option<CompletionParts>,
    /// Whether the last round was stopped.
    pub aborted: bool,
    pub error: Option<String>,
    /// The file with details of the error.
    pub error_debug: Option<String>,
    /// Why and when the request is repeated.
    pub retrying: Option<(String, Instant)>,
    /// The last known size of the prompt.
    pub prompt_base: u64,
    /// The total that the server reported in the open round.
    pub live_usage_total: Option<u64>,
    /// The headers of the last answer.
    pub last_http_headers: Option<Vec<(String, String)>>,
    /// Whether the running worker is to stop.
    pub cancel: bool,
    /// Whether the view stays at the end.
    pub chat_follow: bool,
    pub chat_anchor: ChatAnchor,
    /// By how many lines the view is to move.
    pub chat_scroll_delta: Option<i64>,
    /// The height of the view.
    pub chat_viewport: u16,
    /// Changes with every change of what is over in the history.
    pub history_version: u64,
    pub view: ViewLevel,
    pub channel: Option<BoundChannel>,
    /// What the next turn may do.
    pub permission: Permission,
    /// Whether the user chose the permission.
    pub permission_touched: bool,
    /// Whether the history is being summarised.
    pub compacting: bool,
    /// The model that was chosen for this session.
    pub model_alias: Option<String>,
    /// The model of the running turn.
    pub active_model: Option<String>,
    /// When the last prompt was sent.
    pub sent_at: Option<Instant>,
}

/// What a session holds.
pub struct SessionModel {
    pub id: usize,
    pub chat: chat::ChatModel,
    pub editor: editor::EditorModel,
    pub input_history: Seq<Seq<char>>,
    pub hist_cursor: Option<usize>,
    pub hist_draft: Seq<char>,
    pub phase: Phase,
    pub open_assistant_id: Option<EventId>,
    pub open_tool_ids: Seq<EventId>,
    pub live_tool: Option<EventId>,
    pub active_tool_label: Option<Seq<char>>,
    pub pending_usage: Option<Usage>,
    pub pending_parts: Option<llm::PartsModel>,
    pub aborted: bool,
    pub error: Option<Seq<char>>,
    pub error_debug: Option<Seq<char>>,
    pub retrying: Option<(Seq<char>, Instant)>,
    pub prompt_base: u64,
    pub live_usage_total: Option<u64>,
    pub last_http_headers: Option<Seq<(Seq<char>, Seq<char>)>>,
    pub cancel: bool,
    pub chat_follow: bool,
    pub chat_anchor: ChatAnchor,
    pub chat_scroll_delta: Option<i64>,
    pub chat_viewport: u16,
    pub history_version: u64,
    pub view: ViewLevel,
    pub channel: Option<registry::BoundModel>,
    pub permission: Permission,
    pub permission_touched: bool,
    pub compacting: bool,
    pub model_alias: Option<Seq<char>>,
    pub active_model: Option<Seq<char>>,
    pub sent_at: Option<Instant>,
}

/// What pairs of texts hold.
pub open spec fn header_views(v: Seq<(String, String)>) -> Seq<(Seq<char>, Seq<char>)> {
    v.map_values(|p: (String, String)| (p.0@, p.1@))
}

impl View for Session {
    type V = SessionModel;

    open spec fn view(&self) -> SessionModel {
        SessionModel {
            id: self.id,
            chat: self.chat@,
            editor: self.editor@,
            input_history: text::views(self.input_history@),
            hist_cursor: self.hist_cursor,
            hist_draft: self.hist_draft@,
            phase: self.phase,
            open_assistant_id: self.open_assistant_id,
            open_tool_ids: self.open_tool_ids@,
            live_tool: self.live_tool,
            active_tool_label: text::opt_view(self.active_tool_label),
            pending_usage: self.pending_usage,
            pending_parts: chat::parts_view(self.pending_parts),
            aborted: self.aborted,
            error: text::opt_view(self.error),
            error_debug: text::opt_view(self.error_debug),
            retrying: match self.retrying {
                Some(p) => Some((p.0@, p.1)),
                None => None,
            },
            prompt_base: self.prompt_base,
            live_usage_total: self.live_usage_total,
            last_http_headers: match self.last_http_headers {
                Some(v) => Some(header_views(v@)),
                None => None,
            },
            cancel: self.cancel,
            chat_follow: self.chat_follow,
            chat_anchor: self.chat_anchor,
            chat_scroll_delta: self.chat_scroll_delta,
            chat_viewport: self.chat_viewport,
            history_version: self.history_version,
            view: self.view,
            channel: registry::bound_view(self.channel),
            permission: self.permission,
            permission_touched: self.permission_touched,
            compacting: self.compacting,
            model_alias: text::opt_view(self.model_alias),
            active_model: text::opt_view(self.active_model),
            sent_at: self.sent_at,
        }
    }
}

/// What the sessions of a list hold.
pub open spec fn session_views(v: Seq<Session>) -> Seq<SessionModel> {
    v.map_values(|s: Session| s@)
}

/// Changing one session changes what one of them holds.
pub broadcast proof fn lemma_session_changed(v: Seq<Session>, i: int, s: Session)
    requires
        0 <= i < v.len(),
    ensures
        #[trigger] session_views(v.update(i, s)) == session_views(v).update(i, s@),
{
    assert(session_views(v.update(i, s)) =~= session_views(v).update(i, s@));
}

// ---------------------------------------------------------------------------
// What happens in a session
// ---------------------------------------------------------------------------
/// A session at its beginning.
pub open spec fn fresh(id: usize) -> SessionModel {
    SessionModel {
        id,
        chat: chat::empty_chat(),
        editor: editor::empty_field(10),
        input_history: Seq::empty(),
        hist_cursor: None,
        hist_draft: Seq::empty(),
        phase: Phase::Idle,
        open_assistant_id: None,
        open_tool_ids: Seq::empty(),
        live_tool: None,
        active_tool_label: None,
        pending_usage: None,
        pending_parts: None,
        aborted: false,
        error: None,
        error_debug: None,
        retrying: None,
        prompt_base: 0,
        live_usage_total: None,
        last_http_headers: None,
        cancel: false,
        chat_follow: true,
        chat_anchor: ChatAnchor { block: 0, offset: 0 },
        chat_scroll_delta: None,
        chat_viewport: 0,
        history_version: 0,
        view: ViewLevel::Compact,
        channel: None,
        permission: Permission::Read,
        permission_touched: false,
        compacting: false,
        model_alias: None,
        active_model: None,
        sent_at: None,
    }
}

/// The version of a history after a change. After the last number comes the first.
pub open spec fn next_version(n: u64) -> u64 {
    if n == u64::MAX {
        0
    } else {
        (n + 1) as u64
    }
}

/// The level that is given, or the lowest one.
pub open spec fn level_or_read(p: Option<Permission>) -> Permission {
    match p {
        Some(l) => l,
        None => Permission::Read,
    }
}

/// The session with one more prompt of the user.
pub open spec fn prompted(
    m: SessionModel,
    content: Seq<char>,
    permission: Option<Permission>,
    model: Seq<char>,
    t: Instant,
) -> SessionModel {
    SessionModel {
        chat: chat::turn_closed(m.chat, t).appended(
            None,
            Some(t),
            Some(t),
            chat::KindModel::UserPrompt {
                text: content,
                permission: level_or_read(permission),
                model,
                num_tokens: llm::estimate(content) as u64,
            },
        ),
        history_version: next_version(m.history_version),
        ..m
    }
}

/// The number of the last prompt.
pub open spec fn prompt_id(m: chat::ChatModel) -> Option<EventId> {
    let at = tokens::last_prompt(m, m.order);
    if at >= 0 {
        Some(m.order[at])
    } else {
        None
    }
}

/// The session with an open round.
pub open spec fn round_opened(
    m: SessionModel,
    reasoning: Seq<char>,
    text: Seq<char>,
    t: Instant,
) -> SessionModel {
    SessionModel {
        chat: m.chat.appended(
            prompt_id(m.chat),
            Some(t),
            None,
            chat::KindModel::Assistant {
                reasoning,
                text,
                tool_event_ids: Seq::empty(),
                num_tokens_reasoning: 0,
                num_tokens_text: 0,
                reported_usage: llm::no_usage(),
                completion_parts: None,
            },
        ),
        open_assistant_id: Some((m.chat.events.len() + 1) as EventId),
        history_version: next_version(m.history_version),
        ..m
    }
}

/// The session with a round that can grow.
pub open spec fn with_round(m: SessionModel, t: Instant) -> SessionModel {
    if m.open_assistant_id is None {
        round_opened(m, Seq::empty(), Seq::empty(), t)
    } else {
        m
    }
}

/// Whether the open round has tools and all of them are done.
pub open spec fn tools_done(m: SessionModel) -> bool {
    match m.open_assistant_id {
        None => false,
        Some(id) => {
            &&& m.open_tool_ids.len() == 0
            &&& m.chat.has(id)
            &&& (m.chat.at(id).kind matches chat::KindModel::Assistant { tool_event_ids, .. }
                && tool_event_ids.len() > 0)
        },
    }
}

/// The session with one more tool that runs.
pub open spec fn tool_begun(
    m: SessionModel,
    parent_id: Option<EventId>,
    tool_call_id: Seq<char>,
    function_name: Seq<char>,
    arguments: Seq<char>,
    kind: chat::ToolModel,
    t: Instant,
) -> SessionModel {
    SessionModel {
        chat: chat::tool_opened(
            m.chat,
            parent_id,
            t,
            chat::KindModel::Tool {
                tool_call_id,
                function_name,
                arguments,
                output: Seq::empty(),
                kind,
                num_tokens_input: 0,
                num_tokens_output: 0,
            },
        ),
        open_tool_ids: m.open_tool_ids.push((m.chat.events.len() + 1) as EventId),
        history_version: next_version(m.history_version),
        ..m
    }
}

/// The history with each of the events ended.
pub open spec fn all_ended(m: chat::ChatModel, ids: Seq<EventId>, t: Instant) -> chat::ChatModel
    decreases ids.len(),
{
    if ids.len() == 0 {
        m
    } else {
        let before = all_ended(m, ids.drop_last(), t);
        before.with(ids.last(), chat::ended(before.at(ids.last()), t))
    }
}

/// What counts for a round: what the server counted in it, else what is given, else nothing.
pub open spec fn counted(pending: Option<Usage>, given: Option<Usage>) -> Usage {
    match (pending, given) {
        (Some(u), _) => u,
        (None, Some(u)) => u,
        (None, None) => llm::no_usage(),
    }
}

/// The history with a round closed: its tools end first, then the round with what was counted and
/// measured, and the counts of the turn are derived anew.
pub open spec fn round_closed(
    m: SessionModel,
    id: EventId,
    aborted: bool,
    usage: Option<Usage>,
    t: Instant,
) -> chat::ChatModel {
    let a = all_ended(m.chat, m.open_tool_ids, t);
    let b = chat::finalized(a, id, t, counted(m.pending_usage, usage), 0, 0, aborted);
    let c = match m.pending_parts {
        Some(p) if llm::is_measured(p) => b.with(id, chat::with_parts(b.at(id), Some(p))),
        _ => b,
    };
    tokens::derived(c)
}

/// The session with the open round closed; unchanged where none is open.
pub open spec fn finished(m: SessionModel, aborted: bool, usage: Option<Usage>, t: Instant) -> SessionModel {
    match m.open_assistant_id {
        None => m,
        Some(id) => SessionModel {
            chat: round_closed(m, id, aborted, usage, t),
            open_assistant_id: None,
            open_tool_ids: Seq::empty(),
            live_tool: None,
            active_tool_label: None,
            pending_usage: None,
            pending_parts: None,
            compacting: false,
            aborted,
            history_version: next_version(m.history_version),
            ..m
        },
    }
}

/// The session with more output of a tool.
pub open spec fn output_added(m: SessionModel, id: EventId, chunk: Seq<char>) -> SessionModel {
    SessionModel {
        chat: m.chat.with(
            id,
            chat::if_open(m.chat.at(id), |e: chat::EventModel| chat::more_output(e, chunk)),
        ),
        history_version: next_version(m.history_version),
        ..m
    }
}

/// The numbers without one of them.
pub open spec fn without_id(ids: Seq<EventId>, id: EventId) -> Seq<EventId>
    decreases ids.len(),
{
    if ids.len() == 0 {
        Seq::empty()
    } else if ids.last() == id {
        without_id(ids.drop_last(), id)
    } else {
        without_id(ids.drop_last(), id).push(ids.last())
    }
}

/// Name, arguments and round of a tool.
pub open spec fn call_of(m: chat::ChatModel, id: EventId) -> (Seq<char>, Seq<char>, Option<EventId>) {
    if m.has(id) {
        match m.at(id).kind {
            chat::KindModel::Tool { function_name, arguments, .. } => (
                function_name,
                arguments,
                m.at(id).parent_id,
            ),
            _ => (Seq::empty(), Seq::empty(), None),
        }
    } else {
        (Seq::empty(), Seq::empty(), None)
    }
}

/// The sum of two counts, as far as it goes.
pub open spec fn sum(a: u64, b: u64) -> u64 {
    if a + b > u64::MAX {
        u64::MAX
    } else {
        (a + b) as u64
    }
}

/// The estimated tokens of the call of a tool; none for a tool that the user started.
pub open spec fn call_estimate(call: (Seq<char>, Seq<char>, Option<EventId>)) -> u64 {
    if call.2 is None {
        0
    } else {
        sum(llm::estimate(call.0) as u64, llm::estimate(call.1) as u64)
    }
}

/// The estimated tokens of the answer of a tool; none for a tool that the user started.
pub open spec fn answer_estimate(
    call: (Seq<char>, Seq<char>, Option<EventId>),
    output: Seq<char>,
) -> u64 {
    if call.2 is None {
        0
    } else {
        llm::estimate(output) as u64
    }
}

/// The session with a tool that is done.
pub open spec fn tool_ended(
    m: SessionModel,
    id: EventId,
    activity: llm::ActivityModel,
    t: Instant,
) -> SessionModel {
    let call = call_of(m.chat, id);
    let kind = kind_of(call.0, call.1, activity);
    let ni = call_estimate(call);
    let no = answer_estimate(call, activity.output_full);
    SessionModel {
        chat: m.chat.with(
            id,
            chat::if_open(
                m.chat.at(id),
                |e: chat::EventModel| chat::tool_done(e, activity.output_full, kind, ni, no, t),
            ),
        ),
        open_tool_ids: without_id(m.open_tool_ids, id),
        live_tool: None,
        active_tool_label: None,
        history_version: next_version(m.history_version),
        ..m
    }
}

/// The session with more reasoning in the open round.
pub open spec fn reasoning_added(m: SessionModel, chunk: Seq<char>) -> SessionModel {
    match m.open_assistant_id {
        Some(id) => SessionModel {
            chat: m.chat.with(
                id,
                chat::if_open(m.chat.at(id), |e: chat::EventModel| chat::more_reasoning(e, chunk)),
            ),
            ..m
        },
        None => m,
    }
}

/// The session with more text in the open round.
pub open spec fn text_added(m: SessionModel, chunk: Seq<char>) -> SessionModel {
    match m.open_assistant_id {
        Some(id) => SessionModel {
            chat: m.chat.with(
                id,
                chat::if_open(m.chat.at(id), |e: chat::EventModel| chat::more_text(e, chunk)),
            ),
            ..m
        },
        None => m,
    }
}

// ---------------------------------------------------------------------------
// The kind of a tool
// ---------------------------------------------------------------------------
/// The arguments of a call that the display shows.
pub struct ToolArgs {
    pub command: String,
    pub path: String,
    pub pattern: String,
    pub files: String,
    pub url: String,
    pub prompt: String,
}

/// What the arguments of a call hold.
pub struct ArgsModel {
    pub command: Seq<char>,
    pub path: Seq<char>,
    pub pattern: Seq<char>,
    pub files: Seq<char>,
    pub url: Seq<char>,
    pub prompt: Seq<char>,
}

impl View for ToolArgs {
    type V = ArgsModel;

    open spec fn view(&self) -> ArgsModel {
        ArgsModel {
            command: self.command@,
            path: self.path@,
            pattern: self.pattern@,
            files: self.files@,
            url: self.url@,
            prompt: self.prompt@,
        }
    }
}

/// The key under which the files of a search stand.
pub open spec fn files_key() -> Seq<char> {
    "in"@ + "clude"@
}

/// The arguments of a call.
pub open spec fn args_of(arguments: Seq<char>) -> ArgsModel {
    ArgsModel {
        command: json::argument(arguments, "command"@),
        path: json::argument(arguments, "path"@),
        pattern: json::argument(arguments, "pattern"@),
        files: json::argument(arguments, files_key()),
        url: json::argument(arguments, "url"@),
        prompt: json::argument(arguments, "prompt"@),
    }
}

/// What is shown of a tool: what was done, and from the arguments what is not known yet.
pub open spec fn shown_kind(name: Seq<char>, args: ArgsModel, a: llm::ActivityModel) -> chat::ToolModel {
    let count = text::lines(a.output_full).len() as u32;
    if name == "run"@ {
        match a.run {
            Some((cwd, command, exit_code)) => chat::ToolModel::Run { cwd, command, exit_code },
            None => chat::ToolModel::Run {
                cwd: Seq::empty(),
                command: args.command,
                exit_code: None,
            },
        }
    } else if name == "edit"@ {
        match a.diff {
            Some((path, rows)) => chat::ToolModel::Edit { path, rows },
            None => chat::ToolModel::Edit { path: args.path, rows: Seq::empty() },
        }
    } else if name == "read"@ {
        chat::ToolModel::Read {
            path: args.path,
            range: match a.read {
                Some(r) => r,
                None => Seq::empty(),
            },
        }
    } else if name == "grep"@ {
        chat::ToolModel::Grep {
            pattern: args.pattern,
            path: args.path,
            files: args.files,
            num_results: count,
        }
    } else if name == "glob"@ {
        chat::ToolModel::Glob { pattern: args.pattern, num_results: count }
    } else if name == "webfetch"@ {
        chat::ToolModel::Webfetch { url: args.url, prompt: args.prompt }
    } else if name == "write"@ {
        chat::ToolModel::Write { path: args.path }
    } else {
        chat::ToolModel::Read { path: args.path, range: Seq::empty() }
    }
}

/// What is shown of a tool with the given name and arguments.
pub open spec fn kind_of(name: Seq<char>, arguments: Seq<char>, a: llm::ActivityModel) -> chat::ToolModel {
    shown_kind(name, args_of(arguments), a)
}

fn empty() -> (r: String)
    ensures
        r@ == Seq::<char>::empty(),
{
    let r = String::new();
    assert(r@ =~= Seq::empty());
    r
}

/// What is shown of a tool, from the arguments of its call and what it did.
pub fn tool_kind_of(name: &str, args: ToolArgs, a: &ToolActivity) -> (r: ToolKind)
    ensures
        r@ == shown_kind(name@, args@, a@),
{
    let lines = text::lines_of(a.output_full.as_str());
    let n: usize = lines.len();
    assert(text::views(lines@).len() == n);
    let count: u32 = n as u32;
    if text::same_text(name, "run") {
        match &a.run {
            Some(r) => ToolKind::Run {
                cwd: r.cwd.clone(),
                command: r.command.clone(),
                exit_code: r.exit_code,
            },
            None => ToolKind::Run { cwd: empty(), command: args.command, exit_code: None },
        }
    } else if text::same_text(name, "edit") {
        match &a.diff {
            Some(d) => ToolKind::Edit { path: d.path.clone(), rows: llm::copy_rows(&d.rows) },
            None => {
                let rows: Vec<llm::DiffRow> = Vec::new();
                assert(llm::row_views(rows@) =~= Seq::empty());
                ToolKind::Edit { path: args.path, rows }
            },
        }
    } else if text::same_text(name, "read") {
        ToolKind::Read {
            path: args.path,
            range: match &a.read {
                Some(r) => r.range.clone(),
                None => empty(),
            },
        }
    } else if text::same_text(name, "grep") {
        ToolKind::Grep {
            pattern: args.pattern,
            path: args.path,
            files: args.files,
            num_results: count,
        }
    } else if text::same_text(name, "glob") {
        ToolKind::Glob { pattern: args.pattern, num_results: count }
    } else if text::same_text(name, "webfetch") {
        ToolKind::Webfetch { url: args.url, prompt: args.prompt }
    } else if text::same_text(name, "write") {
        ToolKind::Write { path: args.path }
    } else {
        ToolKind::Read { path: args.path, range: empty() }
    }
}

/// What is shown of a tool with the given name and arguments, from what it did.
pub fn tool_kind_from_activity(name: &str, arguments: &str, a: &ToolActivity) -> (r: ToolKind)
    ensures
        r@ == kind_of(name@, arguments@, a@),
{
    let key = text::concat("in", "clude");
    let args = ToolArgs {
        command: json::argument_of(arguments, "command"),
        path: json::argument_of(arguments, "path"),
        pattern: json::argument_of(arguments, "pattern"),
        files: json::argument_of(arguments, key.as_str()),
        url: json::argument_of(arguments, "url"),
        prompt: json::argument_of(arguments, "prompt"),
    };
    tool_kind_of(name, args, a)
}

// ---------------------------------------------------------------------------
// The size of the context
// ---------------------------------------------------------------------------
/// The number of the last summary; zero where there is none.
pub open spec fn summary_id(m: chat::ChatModel, ids: Seq<EventId>) -> EventId
    decreases ids.len(),
{
    if ids.len() == 0 {
        0
    } else if wire::is_summary(m, ids.last()) {
        ids.last()
    } else {
        summary_id(m, ids.drop_last())
    }
}

/// What the server counted in the last closed round that is younger than the summary `after`. Rounds
/// of which it counted nothing say nothing.
pub open spec fn usage_after(m: chat::ChatModel, ids: Seq<EventId>, after: EventId) -> Option<Usage>
    decreases ids.len(),
{
    if ids.len() == 0 {
        None
    } else {
        let id = ids.last();
        let e = m.at(id);
        if id > after && e.time_end is Some && e.kind is Assistant
            && e.kind->Assistant_reported_usage.total_tokens > 0 {
            Some(e.kind->Assistant_reported_usage)
        } else {
            usage_after(m, ids.drop_last(), after)
        }
    }
}

/// What the server counted in the last round since the last summary.
pub open spec fn current_usage(m: chat::ChatModel) -> Option<Usage> {
    usage_after(m, m.order, summary_id(m, m.order))
}

/// The estimated tokens of the answers of tools.
pub open spec fn answers_size(m: chat::ChatModel, ids: Seq<EventId>) -> u64
    decreases ids.len(),
{
    if ids.len() == 0 {
        0
    } else {
        let before = answers_size(m, ids.drop_last());
        if m.has(ids.last()) {
            match m.at(ids.last()).kind {
                chat::KindModel::Tool { output, .. } => sum(
                    before,
                    llm::estimate(output) as u64,
                ),
                _ => before,
            }
        } else {
            before
        }
    }
}

/// The estimated tokens that an event takes in a prompt.
pub open spec fn event_size(m: chat::ChatModel, e: chat::EventModel) -> u64 {
    match e.kind {
        chat::KindModel::UserPrompt { text, .. } => llm::estimate(text) as u64,
        chat::KindModel::Assistant { reasoning, text, tool_event_ids, .. } => sum(
            sum(llm::estimate(reasoning) as u64, llm::estimate(text) as u64),
            answers_size(m, tool_event_ids),
        ),
        chat::KindModel::Archive { num_tokens, .. } => num_tokens,
        _ => 0,
    }
}

/// The estimated tokens of events.
pub open spec fn events_size(m: chat::ChatModel, ids: Seq<EventId>) -> u64
    decreases ids.len(),
{
    if ids.len() == 0 {
        0
    } else {
        sum(events_size(m, ids.drop_last()), event_size(m, m.at(ids.last())))
    }
}

/// The estimated tokens of what goes to the model: everything from the last summary on.
pub open spec fn context_size(m: chat::ChatModel) -> u64 {
    events_size(m, m.order.skip(wire::last_summary(m, m.order)))
}

/// The bytes of the answers of tools.
pub open spec fn answers_bytes(m: chat::ChatModel, ids: Seq<EventId>) -> u64
    decreases ids.len(),
{
    if ids.len() == 0 {
        0
    } else {
        let before = answers_bytes(m, ids.drop_last());
        if m.has(ids.last()) {
            match m.at(ids.last()).kind {
                chat::KindModel::Tool { output, .. } => sum(
                    before,
                    tokens::byte_len(output) as u64,
                ),
                _ => before,
            }
        } else {
            before
        }
    }
}

/// Four times a number of tokens, as far as numbers go.
pub open spec fn fourfold(n: u64) -> u64 {
    if n * 4 > u64::MAX {
        u64::MAX
    } else {
        (n * 4) as u64
    }
}

/// The bytes that an event takes in a prompt; a summary counts four for each of its tokens.
pub open spec fn event_bytes(m: chat::ChatModel, e: chat::EventModel) -> u64 {
    match e.kind {
        chat::KindModel::UserPrompt { text, .. } => tokens::byte_len(text) as u64,
        chat::KindModel::Assistant { reasoning, text, tool_event_ids, .. } => sum(
            sum(tokens::byte_len(reasoning) as u64, tokens::byte_len(text) as u64),
            answers_bytes(m, tool_event_ids),
        ),
        chat::KindModel::Archive { num_tokens, .. } => fourfold(num_tokens),
        _ => 0,
    }
}

/// The bytes of events.
pub open spec fn events_bytes(m: chat::ChatModel, ids: Seq<EventId>) -> u64
    decreases ids.len(),
{
    if ids.len() == 0 {
        0
    } else {
        sum(events_bytes(m, ids.drop_last()), event_bytes(m, m.at(ids.last())))
    }
}

/// The bytes of what goes to the model: everything from the last summary on.
pub open spec fn context_bytes(m: chat::ChatModel) -> u64 {
    events_bytes(m, m.order.skip(wire::last_summary(m, m.order)))
}

/// The tokens of the context where the server counted none: a quarter of its bytes.
pub open spec fn guessed_tokens(m: chat::ChatModel) -> u64 {
    context_bytes(m) / 4
}

/// The position of the prompt before which `keep` others stand behind it; none where there are not
/// that many.
pub open spec fn prompt_from_end(m: chat::ChatModel, ids: Seq<EventId>, keep: nat) -> Option<int>
    decreases ids.len(),
{
    if ids.len() == 0 {
        None
    } else if tokens::is_prompt(m, ids.last()) {
        if keep == 0 {
            Some(ids.len() - 1)
        } else {
            prompt_from_end(m, ids.drop_last(), (keep - 1) as nat)
        }
    } else {
        prompt_from_end(m, ids.drop_last(), keep)
    }
}

/// How many events a summary covers that leaves the last `keep` turns and the one before them;
/// all where there are not that many turns.
pub open spec fn boundary(m: chat::ChatModel, keep: nat) -> int {
    match prompt_from_end(m, m.order, keep) {
        Some(i) => i,
        None => m.order.len() as int,
    }
}

/// Whether the history is to be summarised before the next prompt: what the server counted last,
/// or else a quarter of the bytes, has reached the threshold, and there is something to cover.
pub open spec fn is_too_long(m: chat::ChatModel, keep: nat, threshold: u64) -> bool {
    let size = match current_usage(m) {
        Some(u) => u.total_tokens,
        None => guessed_tokens(m),
    };
    size >= threshold && boundary(m, keep) > 0
}

/// The session with a summary in its history.
pub open spec fn summarised(
    m: SessionModel,
    content: Seq<char>,
    num_tokens: u64,
    keep: nat,
    t: Instant,
) -> SessionModel {
    let b = boundary(m.chat, keep);
    SessionModel {
        compacting: false,
        prompt_base: 0,
        chat: if b == 0 {
            m.chat
        } else {
            chat::compacted(m.chat, b as usize, content, num_tokens, t, t)
        },
        history_version: if b == 0 {
            m.history_version
        } else {
            next_version(m.history_version)
        },
        ..m
    }
}

// ---------------------------------------------------------------------------
// The input before
// ---------------------------------------------------------------------------
/// The session with a sent input noted. Blank input and what was sent just before is not.
pub open spec fn noted(m: SessionModel, input: Seq<char>) -> SessionModel {
    let t = text::trimmed(input);
    SessionModel {
        input_history: if t.len() == 0 || (m.input_history.len() > 0 && m.input_history.last()
            == t) {
            m.input_history
        } else {
            m.input_history.push(t)
        },
        hist_cursor: None,
        hist_draft: Seq::empty(),
        ..m
    }
}

/// The session with the sent input `i` in the field.
pub open spec fn recalled(m: SessionModel, i: usize) -> SessionModel {
    SessionModel {
        hist_cursor: Some(i),
        editor: editor::with_text(m.editor, m.input_history[i as int]),
        ..m
    }
}

/// The session with the input before the one that is shown.
pub open spec fn earlier(m: SessionModel) -> SessionModel {
    let n = m.input_history.len();
    match m.hist_cursor {
        None => if n == 0 {
            m
        } else {
            recalled(SessionModel { hist_draft: m.editor.text, ..m }, (n - 1) as usize)
        },
        Some(i) => if n == 0 || i == 0 {
            m
        } else {
            recalled(m, (i - 1) as usize)
        },
    }
}

/// The session with the input behind the one that is shown; behind the last one comes the fresh
/// input again.
pub open spec fn later(m: SessionModel) -> SessionModel {
    match m.hist_cursor {
        None => m,
        Some(i) => if i + 1 < m.input_history.len() {
            recalled(m, (i + 1) as usize)
        } else {
            SessionModel {
                hist_cursor: None,
                editor: editor::with_text(m.editor, m.hist_draft),
                hist_draft: Seq::empty(),
                ..m
            }
        },
    }
}

/// The level that a session starts with: that of its channel, until the user chose one.
pub open spec fn level_defaulted(m: SessionModel) -> SessionModel {
    SessionModel {
        permission: if m.permission_touched {
            m.permission
        } else {
            match m.channel {
                Some(c) => perm::start_level(c.says().kind),
                None => Permission::Read,
            }
        },
        ..m
    }
}

/// The session with the default channel, where there is one.
pub open spec fn channel_defaulted(r: registry::RegModel, m: SessionModel) -> SessionModel {
    let n = match r.default {
        Some(name) => match table::lookup(r.map, name) {
            Some(c) => SessionModel { channel: Some(c), ..m },
            None => m,
        },
        None => m,
    };
    level_defaulted(n)
}

// ---------------------------------------------------------------------------
// Sessions
// ---------------------------------------------------------------------------
/// Whether a history is sound.
#[verifier::opaque]
pub open spec fn sound(m: chat::ChatModel) -> bool {
    m.ok()
}

impl Session {
    /// History and input are sound, and the shown input was sent.
    pub open spec fn wf(&self) -> bool {
        &&& sound(self.chat@)
        &&& self.editor.wf()
        &&& (self.hist_cursor matches Some(i) ==> i < self.input_history@.len())
    }

    /// A session at its beginning.
    pub fn new(id: usize) -> (r: Self)
        ensures
            r.wf(),
            r@ == fresh(id),
    {
        proof {
            reveal(sound);
        }
        let r = Session {
            id,
            chat: Chat::new(),
            editor: Editor::new(10),
            input_history: Vec::new(),
            hist_cursor: None,
            hist_draft: empty(),
            phase: Phase::Idle,
            open_assistant_id: None,
            open_tool_ids: Vec::new(),
            live_tool: None,
            active_tool_label: None,
            pending_usage: None,
            pending_parts: None,
            aborted: false,
            error: None,
            error_debug: None,
            retrying: None,
            prompt_base: 0,
            live_usage_total: None,
            last_http_headers: None,
            cancel: false,
            chat_follow: true,
            chat_anchor: ChatAnchor::default(),
            chat_scroll_delta: None,
            chat_viewport: 0,
            history_version: 0,
            view: ViewLevel::default(),
            channel: None,
            permission: Permission::default(),
            permission_touched: false,
            compacting: false,
            model_alias: None,
            active_model: None,
            sent_at: None,
        };
        assert(r@.input_history =~= Seq::empty());
        r
    }

    fn history_changed(&mut self)
        requires
            old(self).wf(),
        ensures
            final(self).wf(),
            final(self)@ == (SessionModel {
                history_version: next_version(old(self)@.history_version),
                ..old(self)@
            }),
    {
        self.history_version = if self.history_version == u64::MAX {
            0
        } else {
            self.history_version + 1
        };
    }

    /// Binds a channel, or none.
    pub fn set_channel(&mut self, ch: Option<BoundChannel>)
        requires
            old(self).wf(),
        ensures
            final(self).wf(),
            final(self)@ == (SessionModel { channel: registry::bound_view(ch), ..old(self)@ }),
    {
        self.channel = ch;
    }

    /// Appends a prompt of the user.
    pub fn push_user_message(
        &mut self,
        content: String,
        permission: Option<Permission>,
        model: String,
        now: Instant,
    )
        requires
            old(self).wf(),
        ensures
            final(self).wf(),
            final(self)@ == prompted(old(self)@, content@, permission, model@, now),
    {
        proof {
            reveal(sound);
        }
        let est: u64 = llm::estimate_tokens(content.as_str());
        let level = match permission {
            Some(l) => l,
            None => Permission::default(),
        };
        let _id = self.chat.push_user_prompt(content, level, model, est, now);
        self.history_changed();
    }

    /// The number of the last prompt.
    pub fn current_prompt_id(&self) -> (r: Option<EventId>)
        ensures
            r == prompt_id(self@.chat),
    {
        match tokens::last_prompt_at(&self.chat) {
            Some(i) => Some(self.chat.order()[i]),
            None => None,
        }
    }

    /// Opens a round of the model; the result is its number.
    pub fn open_assistant(&mut self, reasoning: String, text: String, now: Instant) -> (id: EventId)
        requires
            old(self).wf(),
        ensures
            final(self).wf(),
            final(self)@ == round_opened(old(self)@, reasoning@, text@, now),
            id == old(self)@.chat.events.len() + 1,
    {
        proof {
            reveal(sound);
        }
        let parent = self.current_prompt_id();
        let id = self.chat.open_assistant(parent, reasoning, text, now);
        self.open_assistant_id = Some(id);
        self.history_changed();
        id
    }

    /// Opens a round where none is open.
    pub fn ensure_open_assistant(&mut self, now: Instant)
        requires
            old(self).wf(),
        ensures
            final(self).wf(),
            final(self)@ == with_round(old(self)@, now),
            final(self).open_assistant_id is Some,
    {
        if self.open_assistant_id.is_none() {
            let _id = self.open_assistant(empty(), empty(), now);
        }
    }

    /// Whether the open round has tools and all of them are done. The next text, thought or count
    /// then belongs to a new round.
    pub fn is_open_tool_round_done(&self) -> (r: bool)
        ensures
            r == tools_done(self@),
    {
        match self.open_assistant_id {
            None => false,
            Some(id) => if self.open_tool_ids.len() > 0 {
                false
            } else {
                match self.chat.event(id) {
                    Some(e) => match &e.kind {
                        EventKind::Assistant { tool_event_ids, .. } => tool_event_ids.len() > 0,
                        _ => false,
                    },
                    None => false,
                }
            },
        }
    }

    /// Opens a tool; the result is its number.
    pub fn open_tool(
        &mut self,
        parent_id: Option<EventId>,
        tool_call_id: String,
        function_name: String,
        arguments: String,
        kind: ToolKind,
        now: Instant,
    ) -> (id: EventId)
        requires
            old(self).wf(),
        ensures
            final(self).wf(),
            final(self)@ == tool_begun(
                old(self)@,
                parent_id,
                tool_call_id@,
                function_name@,
                arguments@,
                kind@,
                now,
            ),
            id == old(self)@.chat.events.len() + 1,
    {
        proof {
            reveal(sound);
        }
        let id = self.chat.open_tool(
            parent_id,
            tool_call_id,
            function_name,
            arguments,
            empty(),
            kind,
            now,
        );
        self.open_tool_ids.push(id);
        self.history_changed();
        id
    }

    fn end_tools(&mut self, now: Instant)
        requires
            old(self).wf(),
        ensures
            final(self).wf(),
            final(self)@ == (SessionModel {
                chat: all_ended(old(self)@.chat, old(self)@.open_tool_ids, now),
                open_tool_ids: Seq::empty(),
                ..old(self)@
            }),
    {
        proof {
            reveal(sound);
        }
        let ghost m = self@;
        let ghost ids = m.open_tool_ids;
        let n: usize = self.open_tool_ids.len();
        let mut i: usize = 0;
        assert(ids.take(0) =~= Seq::empty());
        while i < n
            invariant
                i <= n == ids.len(),
                ids == m.open_tool_ids,
                self.wf(),
                self@ == (SessionModel { chat: all_ended(m.chat, ids.take(i as int), now), ..m }),
            decreases n - i,
        {
            assert(ids.take(i + 1).drop_last() =~= ids.take(i as int));
            assert(ids.take(i + 1).last() == ids[i as int]);
            proof {
                reveal(sound);
            }
            let id = self.open_tool_ids[i];
            self.chat.finish_tool(id, now);
            i += 1;
        }
        assert(ids.take(n as int) =~= ids);
        self.open_tool_ids = Vec::new();
        assert(self@.open_tool_ids =~= Seq::empty());
    }

    /// Closes the open round with what the server counted. Where it was stopped, the history says
    /// so.
    pub fn finish_assistant(&mut self, aborted: bool, usage: Option<Usage>, now: Instant)
        requires
            old(self).wf(),
        ensures
            final(self).wf(),
            final(self)@ == finished(old(self)@, aborted, usage, now),
    {
        proof {
            reveal(sound);
        }
        let id = match self.open_assistant_id {
            Some(id) => id,
            None => {
                return ;
            },
        };
        let counts = match self.pending_usage {
            Some(u) => u,
            None => match usage {
                Some(u) => u,
                None => llm::zero_usage(),
            },
        };
        self.end_tools(now);
        self.chat.finalize_assistant(id, now, counts, 0, 0, aborted);
        if let Some(parts) = &self.pending_parts {
            if parts.measured() {
                let p = parts.clone();
                self.chat.set_completion_parts(id, Some(p));
            }
        }
        self.chat.derive_last_turn_tokens();
        self.history_changed();
        self.open_assistant_id = None;
        self.live_tool = None;
        self.active_tool_label = None;
        self.pending_usage = None;
        self.pending_parts = None;
        self.compacting = false;
        self.aborted = aborted;
    }

    /// Adds output to an open tool.
    pub fn append_tool_output(&mut self, id: EventId, chunk: &str)
        requires
            old(self).wf(),
        ensures
            final(self).wf(),
            final(self)@ == output_added(old(self)@, id, chunk@),
    {
        proof {
            reveal(sound);
        }
        self.chat.append_tool_output(id, chunk);
        self.history_changed();
    }

    fn call(&self, id: EventId) -> (r: (String, String, Option<EventId>))
        ensures
            (r.0@, r.1@, r.2) == call_of(self@.chat, id),
    {
        match self.chat.event(id) {
            Some(e) => match &e.kind {
                EventKind::Tool { function_name, arguments, .. } => (
                    function_name.clone(),
                    arguments.clone(),
                    e.parent_id,
                ),
                _ => (empty(), empty(), None),
            },
            None => (empty(), empty(), None),
        }
    }

    fn forget_tool(&mut self, id: EventId)
        requires
            old(self).wf(),
        ensures
            final(self).wf(),
            final(self)@ == (SessionModel {
                open_tool_ids: without_id(old(self)@.open_tool_ids, id),
                ..old(self)@
            }),
    {
        let ghost ids = self.open_tool_ids@;
        let mut kept: Vec<EventId> = Vec::new();
        let mut i: usize = 0;
        assert(ids.take(0) =~= Seq::empty());
        assert(kept@ =~= Seq::empty());
        while i < self.open_tool_ids.len()
            invariant
                i <= self.open_tool_ids@.len(),
                ids == self.open_tool_ids@,
                kept@ == without_id(ids.take(i as int), id),
            decreases self.open_tool_ids@.len() - i,
        {
            assert(ids.take(i + 1).drop_last() =~= ids.take(i as int));
            assert(ids.take(i + 1).last() == ids[i as int]);
            if self.open_tool_ids[i] != id {
                kept.push(self.open_tool_ids[i]);
            }
            i += 1;
        }
        assert(ids.take(ids.len() as int) =~= ids);
        self.open_tool_ids = kept;
    }

    /// Closes a tool with what it did.
    pub fn finalize_tool_event(&mut self, id: EventId, activity: &ToolActivity, now: Instant)
        requires
            old(self).wf(),
        ensures
            final(self).wf(),
            final(self)@ == tool_ended(old(self)@, id, activity@, now),
    {
        proof {
            reveal(sound);
        }
        let (name, arguments, parent_id) = self.call(id);
        let kind = tool_kind_from_activity(name.as_str(), arguments.as_str(), activity);
        let mut ni: u64 = 0;
        let mut no: u64 = 0;
        if parent_id.is_some() {
            ni = llm::estimate_tokens(name.as_str()).saturating_add(
                llm::estimate_tokens(arguments.as_str()),
            );
            no = llm::estimate_tokens(activity.output_full.as_str());
        }
        self.chat.set_tool_final(id, activity.output_full.clone(), kind, ni, no, now);
        self.forget_tool(id);
        self.live_tool = None;
        self.active_tool_label = None;
        self.history_changed();
    }

    /// Adds reasoning to the open round.
    pub fn append_reasoning(&mut self, chunk: &str)
        requires
            old(self).wf(),
        ensures
            final(self).wf(),
            final(self)@ == reasoning_added(old(self)@, chunk@),
    {
        proof {
            reveal(sound);
        }
        if let Some(id) = self.open_assistant_id {
            self.chat.append_reasoning(id, chunk);
        }
    }

    /// Adds text to the open round.
    pub fn append_text(&mut self, chunk: &str)
        requires
            old(self).wf(),
        ensures
            final(self).wf(),
            final(self)@ == text_added(old(self)@, chunk@),
    {
        proof {
            reveal(sound);
        }
        if let Some(id) = self.open_assistant_id {
            self.chat.append_text(id, chunk);
        }
    }

    /// The number of the last summary; zero where there is none.
    fn last_summary_id(&self) -> (r: EventId)
        ensures
            r == summary_id(self@.chat, self@.chat.order),
    {
        let order = self.chat.order();
        let ghost ids = self@.chat.order;
        let mut i: usize = order.len();
        assert(ids.take(i as int) =~= ids);
        while i > 0
            invariant
                i <= order@.len(),
                order@ == ids,
                ids == self@.chat.order,
                summary_id(self@.chat, ids.take(i as int)) == summary_id(self@.chat, ids),
            decreases i,
        {
            assert(ids.take(i as int).drop_last() =~= ids.take(i - 1));
            assert(ids.take(i as int).last() == ids[i - 1]);
            let id = order[i - 1];
            if let Some(e) = self.chat.event(id) {
                if let EventKind::Archive { .. } = &e.kind {
                    return id;
                }
            }
            i -= 1;
        }
        0
    }

    /// What the server counted in the last closed round of which it counted anything. What it
    /// counted before the last summary says nothing of the context now and does not count.
    pub fn last_usage_current(&self) -> (r: Option<Usage>)
        requires
            self.wf(),
        ensures
            r == current_usage(self@.chat),
    {
        proof {
            reveal(sound);
        }
        let after = self.last_summary_id();
        let order = self.chat.order();
        let ghost m = self@.chat;
        let ghost ids = m.order;
        let mut i: usize = order.len();
        assert(ids.take(i as int) =~= ids);
        while i > 0
            invariant
                i <= order@.len(),
                order@ == ids,
                m == self@.chat,
                ids == m.order,
                m.ok(),
                after == summary_id(m, ids),
                usage_after(m, ids.take(i as int), after) == usage_after(m, ids, after),
            decreases i,
        {
            assert(ids.take(i as int).drop_last() =~= ids.take(i - 1));
            assert(ids.take(i as int).last() == ids[i - 1]);
            let id = order[i - 1];
            assert(m.has(ids[i - 1]));
            if id > after {
                if let Some(e) = self.chat.event(id) {
                    if e.time_end.is_some() {
                        if let EventKind::Assistant { reported_usage, .. } = &e.kind {
                            if reported_usage.total_tokens > 0 {
                                return Some(*reported_usage);
                            }
                        }
                    }
                }
            }
            i -= 1;
        }
        None
    }

    /// Notes a sent input.
    pub fn push_history(&mut self, input: &str)
        requires
            old(self).wf(),
        ensures
            final(self).wf(),
            final(self)@ == noted(old(self)@, input@),
    {
        let t = text::trim(input);
        self.hist_cursor = None;
        self.hist_draft = empty();
        if t.as_str().is_empty() {
            return ;
        }
        let n: usize = self.input_history.len();
        if n > 0 && text::same_text(self.input_history[n - 1].as_str(), t.as_str()) {
            return ;
        }
        text::push_text(&mut self.input_history, t);
    }

    /// Shows the sent input before the one that is shown.
    pub fn history_prev(&mut self)
        requires
            old(self).wf(),
        ensures
            final(self).wf(),
            final(self)@ == earlier(old(self)@),
    {
        let n: usize = self.input_history.len();
        if n == 0 {
            return ;
        }
        let i: usize = match self.hist_cursor {
            None => {
                self.hist_draft = self.editor.text_string();
                n - 1
            },
            Some(i) => {
                if i == 0 {
                    return ;
                }
                i - 1
            },
        };
        self.hist_cursor = Some(i);
        self.editor.set_text(self.input_history[i].as_str());
    }

    /// Shows the sent input behind the one that is shown, and behind the last one the fresh input.
    pub fn history_next(&mut self)
        requires
            old(self).wf(),
        ensures
            final(self).wf(),
            final(self)@ == later(old(self)@),
    {
        let n: usize = self.input_history.len();
        if let Some(i) = self.hist_cursor {
            if i + 1 < n {
                self.hist_cursor = Some(i + 1);
                self.editor.set_text(self.input_history[i + 1].as_str());
            } else {
                self.hist_cursor = None;
                self.editor.set_text(self.hist_draft.as_str());
                self.hist_draft = empty();
            }
        }
    }

    /// Puts a summary into the history that leaves the last `keep` turns.
    pub fn apply_compaction(&mut self, content: String, num_tokens: u64, keep: usize, now: Instant)
        requires
            old(self).wf(),
        ensures
            final(self).wf(),
            final(self)@ == summarised(old(self)@, content@, num_tokens, keep as nat, now),
    {
        proof {
            reveal(sound);
        }
        self.compacting = false;
        self.prompt_base = 0;
        let b: usize = compact_boundary(self, keep);
        if b == 0 {
            return ;
        }
        let _covered = self.chat.compact_between(b, content, num_tokens, now, now);
        self.history_changed();
    }
}

/// How many events a summary covers.
pub fn compact_boundary(s: &Session, keep: usize) -> (r: usize)
    requires
        s.wf(),
    ensures
        r == boundary(s@.chat, keep as nat),
        r <= s@.chat.order.len(),
{
    let order = s.chat.order();
    let ghost m = s@.chat;
    let ghost ids = m.order;
    let n: usize = order.len();
    let mut left: usize = keep;
    let mut i: usize = n;
    assert(ids.take(n as int) =~= ids);
    while i > 0
        invariant
            i <= n == order@.len(),
            order@ == ids,
            m == s@.chat,
            ids == m.order,
            left <= keep,
            prompt_from_end(m, ids.take(i as int), left as nat) == prompt_from_end(
                m,
                ids,
                keep as nat,
            ),
        decreases i,
    {
        assert(ids.take(i as int).drop_last() =~= ids.take(i - 1));
        assert(ids.take(i as int).last() == ids[i - 1]);
        let is_prompt = match s.chat.event(order[i - 1]) {
            Some(e) => match &e.kind {
                EventKind::UserPrompt { .. } => true,
                _ => false,
            },
            None => false,
        };
        if is_prompt {
            if left == 0 {
                return i - 1;
            }
            left -= 1;
        }
        i -= 1;
    }
    n
}

fn tools_size(c: &Chat, ids: &Vec<EventId>) -> (r: u64)
    ensures
        r == answers_size(c@, ids@),
{
    let ghost want = ids@;
    let mut total: u64 = 0;
    let mut i: usize = 0;
    assert(want.take(0) =~= Seq::empty());
    while i < ids.len()
        invariant
            i <= ids@.len(),
            want == ids@,
            total == answers_size(c@, want.take(i as int)),
        decreases ids@.len() - i,
    {
        assert(want.take(i + 1).drop_last() =~= want.take(i as int));
        assert(want.take(i + 1).last() == ids@[i as int]);
        if let Some(e) = c.event(ids[i]) {
            if let EventKind::Tool { output, .. } = &e.kind {
                total = total.saturating_add(llm::estimate_tokens(output.as_str()));
            }
        }
        i += 1;
    }
    assert(want.take(ids@.len() as int) =~= want);
    total
}

fn size_of_event(c: &Chat, e: &chat::ChatEvent) -> (r: u64)
    ensures
        r == event_size(c@, e@),
{
    match &e.kind {
        EventKind::UserPrompt { text, .. } => llm::estimate_tokens(text.as_str()),
        EventKind::Assistant { reasoning, text, tool_event_ids, .. } => {
            let own: u64 = llm::estimate_tokens(reasoning.as_str()).saturating_add(
                llm::estimate_tokens(text.as_str()),
            );
            own.saturating_add(tools_size(c, tool_event_ids))
        },
        EventKind::Archive { num_tokens, .. } => *num_tokens,
        _ => 0,
    }
}

/// The estimated tokens of what goes to the model: the last summary and everything behind it.
pub fn prompt_tokens(s: &Session) -> (r: u64)
    requires
        s.wf(),
    ensures
        r == context_size(s@.chat),
{
    proof {
        reveal(sound);
    }
    let start: usize = wire::last_summary_at(&s.chat);
    let order = s.chat.order();
    let ghost m = s@.chat;
    let ghost ids = m.order.skip(start as int);
    let n: usize = order.len();
    let mut total: u64 = 0;
    let mut i: usize = start;
    assert(ids.take(0) =~= Seq::empty());
    while i < n
        invariant
            start <= i <= n == order@.len(),
            order@ == m.order,
            m == s@.chat,
            m.ok(),
            ids == m.order.skip(start as int),
            total == events_size(m, ids.take(i - start)),
        decreases n - i,
    {
        assert(ids.take(i + 1 - start).drop_last() =~= ids.take(i - start));
        assert(ids.take(i + 1 - start).last() == m.order[i as int]);
        assert(m.has(m.order[i as int]));
        if let Some(e) = s.chat.event(order[i]) {
            total = total.saturating_add(size_of_event(&s.chat, e));
        }
        i += 1;
    }
    assert(ids.take(n - start) =~= ids);
    total
}

fn tools_bytes(c: &Chat, ids: &Vec<EventId>) -> (r: u64)
    ensures
        r == answers_bytes(c@, ids@),
{
    let ghost want = ids@;
    let mut total: u64 = 0;
    let mut i: usize = 0;
    assert(want.take(0) =~= Seq::empty());
    while i < ids.len()
        invariant
            i <= ids@.len(),
            want == ids@,
            total == answers_bytes(c@, want.take(i as int)),
        decreases ids@.len() - i,
    {
        assert(want.take(i + 1).drop_last() =~= want.take(i as int));
        assert(want.take(i + 1).last() == ids@[i as int]);
        if let Some(e) = c.event(ids[i]) {
            if let EventKind::Tool { output, .. } = &e.kind {
                total = total.saturating_add(tokens::byte_count(output.as_str()) as u64);
            }
        }
        i += 1;
    }
    assert(want.take(ids@.len() as int) =~= want);
    total
}

fn bytes_of_event(c: &Chat, e: &chat::ChatEvent) -> (r: u64)
    ensures
        r == event_bytes(c@, e@),
{
    match &e.kind {
        EventKind::UserPrompt { text, .. } => tokens::byte_count(text.as_str()) as u64,
        EventKind::Assistant { reasoning, text, tool_event_ids, .. } => {
            let thoughts: u64 = tokens::byte_count(reasoning.as_str()) as u64;
            let own: u64 = thoughts.saturating_add(tokens::byte_count(text.as_str()) as u64);
            own.saturating_add(tools_bytes(c, tool_event_ids))
        },
        EventKind::Archive { num_tokens, .. } => if *num_tokens > u64::MAX / 4 {
            u64::MAX
        } else {
            *num_tokens * 4
        },
        _ => 0,
    }
}

/// The bytes of what goes to the model: the last summary, counted by its tokens, and everything
/// behind it. Tools that the user started do not go there.
pub fn prompt_chars(s: &Session) -> (r: u64)
    requires
        s.wf(),
    ensures
        r == context_bytes(s@.chat),
{
    proof {
        reveal(sound);
    }
    let start: usize = wire::last_summary_at(&s.chat);
    let order = s.chat.order();
    let ghost m = s@.chat;
    let ghost ids = m.order.skip(start as int);
    let n: usize = order.len();
    let mut total: u64 = 0;
    let mut i: usize = start;
    assert(ids.take(0) =~= Seq::empty());
    while i < n
        invariant
            start <= i <= n == order@.len(),
            order@ == m.order,
            m == s@.chat,
            m.ok(),
            ids == m.order.skip(start as int),
            total == events_bytes(m, ids.take(i - start)),
        decreases n - i,
    {
        assert(ids.take(i + 1 - start).drop_last() =~= ids.take(i - start));
        assert(ids.take(i + 1 - start).last() == m.order[i as int]);
        assert(m.has(m.order[i as int]));
        if let Some(e) = s.chat.event(order[i]) {
            total = total.saturating_add(bytes_of_event(&s.chat, e));
        }
        i += 1;
    }
    assert(ids.take(n - start) =~= ids);
    total
}

/// Whether the history is to be summarised before the next prompt. `threshold` is the part of the
/// context from which on it is.
pub fn should_compact(s: &Session, keep: usize, threshold: u64) -> (r: bool)
    requires
        s.wf(),
    ensures
        r == is_too_long(s@.chat, keep as nat, threshold),
{
    let size: u64 = match s.last_usage_current() {
        Some(u) => u.total_tokens,
        None => prompt_chars(s) / 4,
    };
    size >= threshold && compact_boundary(s, keep) > 0
}

/// Gives the session the level that its channel starts with, until the user chose one.
pub fn apply_channel_permission_default(s: &mut Session)
    requires
        old(s).wf(),
    ensures
        final(s).wf(),
        final(s)@ == level_defaulted(old(s)@),
{
    if !s.permission_touched {
        s.permission = match &s.channel {
            Some(c) => Permission::default_for(c.data.kind()),
            None => Permission::Read,
        };
    }
}

/// Gives the session the default channel, where there is one.
pub fn apply_default_channel(channels: &ChannelRegistry, s: &mut Session)
    requires
        old(s).wf(),
    ensures
        final(s).wf(),
        final(s)@ == channel_defaulted(channels@, old(s)@),
{
    if let Some(name) = channels.default_channel_name() {
        let ch = channels.get(name);
        if ch.is_some() {
            s.set_channel(ch);
        }
    }
    apply_channel_permission_default(s);
}

// ---------------------------------------------------------------------------
// Laws
// ---------------------------------------------------------------------------
/// Going back in the input and forward again leads to the fresh input as it was.
pub proof fn law_the_fresh_input_comes_back(m: SessionModel)
    requires
        m.hist_cursor is None,
        0 < m.input_history.len() <= usize::MAX,
    ensures
        later(earlier(m)).editor.text == m.editor.text,
        later(earlier(m)).hist_cursor is None,
        later(earlier(m)).input_history == m.input_history,
{
}

/// The session after `k` steps back in the input.
pub open spec fn steps_back(m: SessionModel, k: nat) -> SessionModel
    decreases k,
{
    if k == 0 {
        m
    } else {
        earlier(steps_back(m, (k - 1) as nat))
    }
}

/// The session after `k` steps forward in the input.
pub open spec fn steps_forward(m: SessionModel, k: nat) -> SessionModel
    decreases k,
{
    if k == 0 {
        m
    } else {
        later(steps_forward(m, (k - 1) as nat))
    }
}

/// Steps back from the fresh input keep it as the draft, and end at the oldest input.
proof fn lemma_steps_back(m: SessionModel, k: nat)
    requires
        m.hist_cursor is None,
        m.input_history.len() <= usize::MAX,
    ensures
        ({
            let n = m.input_history.len();
            let b = steps_back(m, k);
            &&& b == SessionModel {
                editor: b.editor,
                hist_cursor: b.hist_cursor,
                hist_draft: b.hist_draft,
                ..m
            }
            &&& if k == 0 || n == 0 {
                b == m
            } else {
                &&& b.hist_draft == m.editor.text
                &&& b.hist_cursor == Some(
                    (if k < n {
                        n - k
                    } else {
                        0
                    }) as usize,
                )
            }
        }),
    decreases k,
{
    if k > 0 {
        lemma_steps_back(m, (k - 1) as nat);
    }
}

/// Steps forward from a sent input lead to the draft once there are enough of them.
proof fn lemma_steps_forward(m: SessionModel, i: usize, k: nat)
    requires
        m.hist_cursor == Some(i),
        i < m.input_history.len() <= usize::MAX,
    ensures
        ({
            let f = steps_forward(m, k);
            &&& f == SessionModel {
                editor: f.editor,
                hist_cursor: f.hist_cursor,
                hist_draft: f.hist_draft,
                ..m
            }
            &&& if i + k < m.input_history.len() {
                &&& f.hist_draft == m.hist_draft
                &&& f.hist_cursor == Some((i + k) as usize)
            } else {
                &&& f.editor.text == m.hist_draft
                &&& f.hist_cursor is None
            }
        }),
    decreases k,
{
    if k > 0 {
        lemma_steps_forward(m, i, (k - 1) as nat);
    }
}

/// Without a sent input on show, steps forward change nothing.
proof fn lemma_no_step_forward(m: SessionModel, k: nat)
    requires
        m.hist_cursor is None,
    ensures
        steps_forward(m, k) == m,
    decreases k,
{
    if k > 0 {
        lemma_no_step_forward(m, (k - 1) as nat);
    }
}

/// Any number of steps back in the input and as many forward lead to the fresh input as it was,
/// also where the steps go beyond the oldest input; the sent inputs and everything else stay.
pub proof fn law_as_many_steps_forward_as_back(m: SessionModel, k: nat)
    requires
        m.hist_cursor is None,
        m.input_history.len() <= usize::MAX,
    ensures
        ({
            let r = steps_forward(steps_back(m, k), k);
            &&& r.hist_cursor is None
            &&& r.editor.text == m.editor.text
            &&& r.input_history == m.input_history
            &&& r == SessionModel { editor: r.editor, hist_draft: r.hist_draft, ..m }
        }),
{
    let b = steps_back(m, k);
    lemma_steps_back(m, k);
    match b.hist_cursor {
        Some(i) => {
            lemma_steps_forward(b, i, k);
        },
        None => {
            lemma_no_step_forward(b, k);
        },
    }
}

/// Between two sent inputs, going back and forward again shows the same one.
pub proof fn law_going_back_and_forward_shows_the_same_input(m: SessionModel, i: usize)
    requires
        m.hist_cursor == Some(i),
        0 < i < m.input_history.len() <= usize::MAX,
        m.editor == editor::with_text(m.editor, m.input_history[i as int]),
    ensures
        later(earlier(m)) == m,
{
}

/// Closing a round twice is the same as closing it once.
pub proof fn law_closing_a_round_twice_changes_nothing(
    m: SessionModel,
    aborted: bool,
    usage: Option<Usage>,
    t: Instant,
    u: Instant,
)
    ensures
        finished(finished(m, aborted, usage, t), aborted, usage, u) == finished(
            m,
            aborted,
            usage,
            t,
        ),
        finished(m, aborted, usage, t).open_assistant_id is None,
{
}

/// How many prompts there are.
pub open spec fn prompts(m: chat::ChatModel, ids: Seq<EventId>) -> nat
    decreases ids.len(),
{
    if ids.len() == 0 {
        0
    } else {
        prompts(m, ids.drop_last()) + (if tokens::is_prompt(m, ids.last()) {
            1nat
        } else {
            0nat
        })
    }
}

/// A summary leaves the last `keep` turns and the one before them, and begins with a prompt; where
/// there are not that many turns, it covers everything.
pub proof fn law_a_summary_leaves_the_last_turns(m: chat::ChatModel, ids: Seq<EventId>, keep: nat)
    ensures
        match prompt_from_end(m, ids, keep) {
            Some(i) => {
                &&& 0 <= i < ids.len()
                &&& tokens::is_prompt(m, ids[i])
                &&& prompts(m, ids.skip(i)) == keep + 1
            },
            None => prompts(m, ids) <= keep,
        },
    decreases ids.len(),
{
    if ids.len() > 0 {
        let t = ids.drop_last();
        let left = if tokens::is_prompt(m, ids.last()) && keep > 0 {
            (keep - 1) as nat
        } else {
            keep
        };
        if tokens::is_prompt(m, ids.last()) && keep == 0 {
            assert(ids.skip(ids.len() - 1).drop_last() =~= Seq::empty());
            assert(ids.skip(ids.len() - 1).last() == ids.last());
            assert(prompts(m, Seq::<EventId>::empty()) == 0);
        } else {
            law_a_summary_leaves_the_last_turns(m, t, left);
            if let Some(i) = prompt_from_end(m, t, left) {
                assert(ids.skip(i).drop_last() =~= t.skip(i));
                assert(ids.skip(i).last() == ids.last());
                assert(ids[i] == t[i]);
            }
        }
    }
}

/// A level that the user chose stays; else it is the one that the channel starts with.
pub proof fn law_a_chosen_level_stays(m: SessionModel, r: registry::RegModel)
    ensures
        m.permission_touched ==> channel_defaulted(r, m).permission == m.permission,
        !m.permission_touched ==> channel_defaulted(r, m).permission == (match channel_defaulted(
            r,
            m,
        ).channel {
            Some(c) => perm::start_level(c.says().kind),
            None => Permission::Read,
        }),
{
}

/// Right after a summary, what the server counted before it no longer counts: only rounds that are
/// younger than the summary do.
pub proof fn law_counts_from_before_a_summary_are_dropped(
    m: chat::ChatModel,
    ids: Seq<EventId>,
    after: EventId,
)
    requires
        forall|i: int| 0 <= i < ids.len() ==> #[trigger] ids[i] <= after,
    ensures
        usage_after(m, ids, after) is None,
    decreases ids.len(),
{
    if ids.len() > 0 {
        assert(ids.last() == ids[ids.len() - 1]);
        let t = ids.drop_last();
        assert forall|i: int| 0 <= i < t.len() implies #[trigger] t[i] <= after by {
            assert(t[i] == ids[i]);
        }
        law_counts_from_before_a_summary_are_dropped(m, t, after);
    }
}

/// A round of which the server counted nothing never stands for the size of the context: what is
/// used as a count is more than nothing.
pub proof fn law_a_count_is_more_than_nothing(
    m: chat::ChatModel,
    ids: Seq<EventId>,
    after: EventId,
)
    ensures
        usage_after(m, ids, after) matches Some(u) ==> u.total_tokens > 0,
    decreases ids.len(),
{
    if ids.len() > 0 {
        law_a_count_is_more_than_nothing(m, ids.drop_last(), after);
    }
}

/// A summary that was just made is the last one, and no count is left.
pub proof fn law_no_count_is_left_after_a_summary(
    m: SessionModel,
    content: Seq<char>,
    num_tokens: u64,
    keep: nat,
    t: Instant,
)
    requires
        m.chat.ok(),
        m.chat.events.len() < u64::MAX,
        m.chat.order.len() <= usize::MAX,
        boundary(m.chat, keep) > 0,
        forall|i: int|
            boundary(m.chat, keep) <= i < m.chat.order.len() ==> !wire::is_summary(
                m.chat,
                #[trigger] m.chat.order[i],
            ),
    ensures
        current_usage(summarised(m, content, num_tokens, keep, t).chat) is None,
{
    let c = m.chat;
    let b = boundary(c, keep);
    law_a_summary_leaves_the_last_turns(c, c.order, keep);
    let d = summarised(m, content, num_tokens, keep, t).chat;
    let id = (c.events.len() + 1) as EventId;
    assert(chat::clamped(b as usize, c.order.len()) == b);
    assert(d.order == c.order.insert(b, id));
    assert(d.events.len() == c.events.len() + 1);
    assert(d.order[b] == id);
    assert(wire::is_summary(d, id));
    assert forall|i: int| b < i < d.order.len() implies !wire::is_summary(
        d,
        #[trigger] d.order[i],
    ) by {
        assert(d.order[i] == c.order[i - 1]);
        assert(!wire::is_summary(c, c.order[i - 1]));
        assert(c.has(c.order[i - 1]));
        assert(d.at(c.order[i - 1]).kind == c.at(c.order[i - 1]).kind);
    }
    lemma_summary_id_is(d, d.order, b);
    assert forall|i: int| 0 <= i < d.order.len() implies #[trigger] d.order[i] <= id by {
        if i < b {
            assert(d.order[i] == c.order[i]);
            assert(c.has(c.order[i]));
        } else if i > b {
            assert(d.order[i] == c.order[i - 1]);
            assert(c.has(c.order[i - 1]));
        }
    }
    law_counts_from_before_a_summary_are_dropped(d, d.order, id);
}

proof fn lemma_summary_id_is(m: chat::ChatModel, ids: Seq<EventId>, k: int)
    requires
        0 <= k < ids.len(),
        wire::is_summary(m, ids[k]),
        forall|i: int| k < i < ids.len() ==> !wire::is_summary(m, #[trigger] ids[i]),
    ensures
        summary_id(m, ids) == ids[k],
    decreases ids.len(),
{
    assert(ids.last() == ids[ids.len() - 1]);
    if k < ids.len() - 1 {
        let t = ids.drop_last();
        assert(t[k] == ids[k]);
        assert forall|i: int| k < i < t.len() implies !wire::is_summary(m, #[trigger] t[i]) by {
            assert(t[i] == ids[i]);
        }
        lemma_summary_id_is(m, t, k);
    }
}

/// A dropped number stands in a list no longer, and every other one still does.
pub proof fn law_dropped_ids_are_gone(ids: Seq<EventId>, id: EventId, other: EventId)
    ensures
        !without_id(ids, id).contains(id),
        other != id ==> without_id(ids, id).contains(other) == ids.contains(other),
    decreases ids.len(),
{
    if ids.len() > 0 {
        let t = ids.drop_last();
        law_dropped_ids_are_gone(t, id, other);
        let w = without_id(t, id);
        assert(ids =~= t.push(ids.last()));
        text::lemma_push_to_set(t, ids.last());
        text::lemma_push_to_set(w, ids.last());
        assert(ids.to_set().contains(other) == ids.contains(other));
        assert(t.to_set().contains(other) == t.contains(other));
        assert(w.push(ids.last()).to_set().contains(other) == w.push(ids.last()).contains(other));
        assert(w.to_set().contains(other) == w.contains(other));
        assert(w.push(ids.last()).to_set().contains(id) == w.push(ids.last()).contains(id));
        assert(w.to_set().contains(id) == w.contains(id));
    }
}

/// A finished round has ended with the count that waited for it, keeps its words and its tools, and
/// is followed by a mark where it was stopped.
pub proof fn law_a_finished_round_keeps_what_was_said(
    m: SessionModel,
    id: EventId,
    aborted: bool,
    t: Instant,
)
    requires
        m.open_assistant_id == Some(id),
        m.chat.has(id),
        m.chat.at(id).kind is Assistant,
        m.chat.at(id).time_end is None,
        m.open_tool_ids.len() == 0,
    ensures
        ({
            let n = finished(m, aborted, None, t);
            let e = n.chat.at(id);
            let was = m.chat.at(id);
            &&& e.time_end == Some(t)
            &&& e.kind is Assistant
            &&& e.kind->Assistant_text == was.kind->Assistant_text
            &&& e.kind->reasoning == was.kind->reasoning
            &&& e.kind->tool_event_ids == was.kind->tool_event_ids
            &&& m.pending_usage matches Some(u) ==> e.kind->reported_usage == u
            &&& m.pending_usage is None ==> e.kind->reported_usage.total_tokens == 0
            &&& !aborted ==> n.chat.order == m.chat.order
            &&& aborted && m.chat.events.len() < EventId::MAX ==> {
                let mark = (m.chat.events.len() + 1) as EventId;
                n.chat.order == m.chat.order.push(mark) && n.chat.at(mark).kind is Abort
            }
            &&& n.aborted == aborted
        }),
{
    let a = all_ended(m.chat, m.open_tool_ids, t);
    assert(a == m.chat);
    let b = chat::finalized(a, id, t, counted(m.pending_usage, None), 0, 0, aborted);
    let c = match m.pending_parts {
        Some(p) if llm::is_measured(p) => b.with(id, chat::with_parts(b.at(id), Some(p))),
        _ => b,
    };
    let d = tokens::derived(c);
    assert(finished(m, aborted, None, t).chat == d);
    tokens::law_deriving_changes_counts_alone(c);
    assert(tokens::bare(d.events[id - 1]) == tokens::bare(c.events[id - 1]));
    if aborted && m.chat.events.len() < EventId::MAX {
        let mark = (m.chat.events.len() + 1) as EventId;
        assert(c.at(mark).kind is Abort);
        assert(tokens::bare(d.events[mark - 1]) == tokens::bare(c.events[mark - 1]));
    }
}

/// What is shown of a tool is what it was asked to do: the command, the path, the pattern or the
/// address out of its arguments; what it reported goes before that.
pub proof fn law_tools_are_shown_as_what_they_do(
    arguments: Seq<char>,
    a: llm::ActivityModel,
)
    requires
        text::lines(a.output_full).len() <= u32::MAX,
    ensures
        ({
            let arg = |key: Seq<char>| json::argument(arguments, key);
            let count = text::lines(a.output_full).len() as u32;
            &&& kind_of("run"@, arguments, a) == (match a.run {
                Some(r) => chat::ToolModel::Run { cwd: r.0, command: r.1, exit_code: r.2 },
                None => chat::ToolModel::Run {
                    cwd: Seq::empty(),
                    command: arg("command"@),
                    exit_code: None,
                },
            })
            &&& kind_of("edit"@, arguments, a) == (match a.diff {
                Some(d) => chat::ToolModel::Edit { path: d.0, rows: d.1 },
                None => chat::ToolModel::Edit { path: arg("path"@), rows: Seq::empty() },
            })
            &&& kind_of("read"@, arguments, a) == (chat::ToolModel::Read {
                path: arg("path"@),
                range: match a.read {
                    Some(r) => r,
                    None => Seq::empty(),
                },
            })
            &&& kind_of("write"@, arguments, a) == (chat::ToolModel::Write { path: arg("path"@) })
            &&& kind_of("grep"@, arguments, a) == (chat::ToolModel::Grep {
                pattern: arg("pattern"@),
                path: arg("path"@),
                files: arg("in"@ + "clude"@),
                num_results: count,
            })
            &&& kind_of("glob"@, arguments, a) == (chat::ToolModel::Glob {
                pattern: arg("pattern"@),
                num_results: count,
            })
            &&& kind_of("webfetch"@, arguments, a) == (chat::ToolModel::Webfetch {
                url: arg("url"@),
                prompt: arg("prompt"@),
            })
        }),
{
    reveal_strlit("run");
    reveal_strlit("edit");
    reveal_strlit("read");
    reveal_strlit("write");
    reveal_strlit("grep");
    reveal_strlit("glob");
    reveal_strlit("webfetch");
    assert("run"@.len() == 3 && "edit"@.len() == 4 && "read"@.len() == 4 && "write"@.len() == 5);
    assert("grep"@.len() == 4 && "glob"@.len() == 4 && "webfetch"@.len() == 8);
    assert("edit"@[0] == 'e' && "read"@[0] == 'r' && "grep"@[1] == 'r' && "glob"@[1] == 'l');
    assert("grep"@[0] == 'g' && "glob"@[0] == 'g');
}

/// A prompt stands at the end of the history with its words, its level and the model that is asked,
/// and closes the turn before it.
pub proof fn law_a_prompt_stands_at_the_end(
    m: SessionModel,
    content: Seq<char>,
    p: Permission,
    model: Seq<char>,
    t: Instant,
    i: int,
)
    requires
        m.chat.events.len() < EventId::MAX,
        0 <= i < m.chat.events.len(),
    ensures
        ({
            let n = prompted(m, content, Some(p), model, t);
            let id = (m.chat.events.len() + 1) as EventId;
            let e = n.chat.at(id);
            let was = m.chat.events[i];
            let now = n.chat.events[i];
            &&& n.chat.order == m.chat.order.push(id)
            &&& e.kind is UserPrompt
            &&& e.kind->UserPrompt_text == content
            &&& e.kind->permission == p
            &&& e.kind->model == model
            &&& e.time_begin == Some(t) && e.time_end == Some(t)
            &&& e.parent_id is None
            &&& content.len() < 1000000 ==> e.kind->UserPrompt_num_tokens == content.len() / 4 + 1
            &&& now.kind == was.kind && now.parent_id == was.parent_id
            &&& was.time_end is Some ==> now == was
            &&& was.time_end is None && was.kind is Assistant ==> now.time_end == Some(t)
            &&& was.time_end is None && was.kind is Tool && was.parent_id is None ==> now == was
        }),
{
}

/// An input is noted once: not where it is blank, and not where it was the last one.
pub proof fn law_inputs_are_noted_once(m: SessionModel, input: Seq<char>)
    ensures
        ({
            let t = text::trimmed(input);
            let n = noted(m, input);
            &&& t.len() == 0 ==> n.input_history == m.input_history
            &&& t.len() > 0 ==> n.input_history.len() > 0 && n.input_history.last() == t
            &&& t.len() > 0 && (m.input_history.len() == 0 || m.input_history.last() != t)
                ==> n.input_history == m.input_history.push(t)
            &&& noted(n, input).input_history == n.input_history
            &&& n.hist_cursor is None
            &&& n.chat == m.chat
        }),
{
}

/// One step back shows the input before, and the newest one from the fresh input; at the oldest one
/// it stays.
pub proof fn law_steps_back_show_earlier_inputs(m: SessionModel)
    requires
        m.hist_cursor matches Some(i) ==> i < m.input_history.len(),
        m.input_history.len() < usize::MAX,
    ensures
        m.hist_cursor is None && m.input_history.len() > 0 ==> earlier(m).editor.text
            == m.input_history.last() && earlier(m).hist_draft == m.editor.text,
        m.hist_cursor matches Some(i) ==> i > 0 ==> earlier(m).editor.text == m.input_history[i
            - 1] && earlier(m).hist_cursor == Some((i - 1) as usize),
        m.hist_cursor == Some(0usize) ==> earlier(m) == m,
        m.input_history.len() == 0 ==> earlier(m) == m,
        m.hist_cursor matches Some(i) ==> i + 1 < m.input_history.len() ==> later(m).editor.text
            == m.input_history[i + 1],
        m.hist_cursor matches Some(i) ==> i + 1 == m.input_history.len() ==> later(m).editor.text
            == m.hist_draft && later(m).hist_cursor is None,
        m.hist_cursor is None ==> later(m) == m,
{
}

/// A history is too long where the last count, or the guess where there is none, reaches the limit,
/// and there is a turn before those that stay.
pub proof fn law_long_histories_are_summarised(m: chat::ChatModel, keep: nat, threshold: u64)
    ensures
        current_usage(m) matches Some(u) ==> (is_too_long(m, keep, threshold) <==> u.total_tokens
            >= threshold && boundary(m, keep) > 0),
        current_usage(m) is None ==> (is_too_long(m, keep, threshold) <==> context_bytes(m) / 4
            >= threshold && boundary(m, keep) > 0),
{
}

/// A summary stands before the turns that stay and after everything else, with its words and its
/// count; then no summary is being made.
pub proof fn law_a_summary_stands_before_the_kept_turns(
    m: SessionModel,
    content: Seq<char>,
    num_tokens: u64,
    keep: nat,
    t: Instant,
)
    requires
        0 <= boundary(m.chat, keep) <= m.chat.order.len(),
        m.chat.order.len() == m.chat.events.len(),
        m.chat.events.len() < usize::MAX,
        m.chat.events.len() < EventId::MAX,
    ensures
        ({
            let n = summarised(m, content, num_tokens, keep, t);
            let b = boundary(m.chat, keep);
            let id = (m.chat.events.len() + 1) as EventId;
            &&& !n.compacting
            &&& n.prompt_base == 0
            &&& b == 0 ==> n.chat == m.chat
            &&& b > 0 ==> n.chat.order == m.chat.order.insert(b, id)
            &&& b > 0 ==> n.chat.at(id).kind == (chat::KindModel::Archive {
                summary: content,
                num_tokens,
                archived_events: b as usize,
            })
        }),
{
}

/// A session takes the default channel where there is one, and with it the level of its kind unless
/// one was chosen.
pub proof fn law_new_sessions_use_the_default_channel(
    r: registry::RegModel,
    id: usize,
    name: Seq<char>,
    c: registry::BoundModel,
)
    requires
        r.default == Some(name),
        table::lookup(r.map, name) == Some(c),
    ensures
        channel_defaulted(r, fresh(id)).channel == Some(c),
        channel_defaulted(r, fresh(id)).permission == perm::start_level(c.says().kind),
        channel_defaulted(r, fresh(id)).id == id,
        channel_defaulted(r, fresh(id)).chat.order.len() == 0,
        channel_defaulted(r, fresh(id)).phase == Phase::Idle,
        channel_defaulted(registry::RegModel { default: None, ..r }, fresh(id)).channel is None,
        channel_defaulted(registry::RegModel { default: None, ..r }, fresh(id)).permission
            == Permission::Read,
{
}

/// The guess of a context counts the bytes of everything since the last summary: prompts, thoughts,
/// words and the answers of tools, and a summary with four bytes for each of its tokens.
pub proof fn law_the_guess_counts_every_text(m: chat::ChatModel, e: chat::EventModel)
    ensures
        e.kind matches chat::KindModel::UserPrompt { text, .. } ==> event_bytes(m, e)
            == tokens::byte_len(text) as u64,
        e.kind matches chat::KindModel::Assistant { reasoning, text, tool_event_ids, .. } ==> (
        tool_event_ids.len() == 0 && tokens::byte_len(reasoning) + tokens::byte_len(text)
            <= u64::MAX ==> event_bytes(m, e) == tokens::byte_len(reasoning) + tokens::byte_len(
            text,
        )),
        e.kind matches chat::KindModel::Archive { num_tokens, .. } ==> (num_tokens < 1000000
            ==> event_bytes(m, e) == 4 * num_tokens),
        e.kind is Tool || e.kind is Abort ==> event_bytes(m, e) == 0,
{
}

/// Each further event adds its bytes to the guess, and each answer of a tool those of its output.
pub proof fn law_the_guess_adds_up(m: chat::ChatModel, ids: Seq<EventId>, id: EventId)
    ensures
        events_bytes(m, Seq::empty()) == 0,
        events_bytes(m, ids) + event_bytes(m, m.at(id)) <= u64::MAX ==> events_bytes(m, ids.push(id))
            == events_bytes(m, ids) + event_bytes(m, m.at(id)),
        m.is_tool(id) && tokens::byte_len(m.at(id).kind->output) <= u64::MAX && answers_bytes(m, ids)
            + tokens::byte_len(m.at(id).kind->output) <= u64::MAX ==> answers_bytes(m, ids.push(id))
            == answers_bytes(m, ids) + tokens::byte_len(m.at(id).kind->output),
{
    assert(ids.push(id).drop_last() =~= ids);
}

/// When a round ends, each of its open tools ends with it, and keeps the time where it had ended.
pub proof fn law_open_tools_end_with_the_round(
    m: chat::ChatModel,
    ids: Seq<EventId>,
    id: EventId,
    t: Instant,
)
    requires
        m.has(id),
    ensures
        ids.contains(id) ==> all_ended(m, ids, t).at(id) == chat::ended(m.at(id), t),
        !ids.contains(id) ==> all_ended(m, ids, t).at(id) == m.at(id),
        all_ended(m, ids, t).order == m.order,
        all_ended(m, ids, t).events.len() == m.events.len(),
        m.at(id).time_end is None ==> chat::ended(m.at(id), t).time_end == Some(t),
        chat::ended(m.at(id), t).kind == m.at(id).kind,
    decreases ids.len(),
{
    if ids.len() > 0 {
        let r = ids.drop_last();
        law_open_tools_end_with_the_round(m, r, id, t);
        if ids.contains(id) {
            let k = choose|k: int| 0 <= k < ids.len() && ids[k] == id;
            if k < r.len() {
                assert(r[k] == id);
            }
        }
        if r.contains(id) {
            let k = choose|k: int| 0 <= k < r.len() && r[k] == id;
            assert(ids[k] == id);
        }
        if ids.last() == id {
            assert(ids[ids.len() - 1] == id);
        }
    }
}

/// A round keeps the parts that were measured for it, and a count that was given where none waited.
pub proof fn law_a_finished_round_keeps_its_measure(
    m: SessionModel,
    id: EventId,
    p: llm::PartsModel,
    u: Usage,
    t: Instant,
)
    requires
        m.open_assistant_id == Some(id),
        m.chat.has(id),
        m.chat.at(id).kind is Assistant,
        m.chat.at(id).time_end is None,
        m.open_tool_ids.len() == 0,
        m.pending_parts == Some(p),
        p.reasoning > 0 || p.content > 0,
    ensures
        ({
            let e = finished(m, false, Some(u), t).chat.at(id);
            &&& e.kind is Assistant
            &&& e.kind->completion_parts == Some(p)
            &&& m.pending_usage is None ==> e.kind->reported_usage == u
            &&& m.pending_usage matches Some(w) ==> e.kind->reported_usage == w
        }),
{
    let b = chat::finalized(
        m.chat,
        id,
        t,
        counted(m.pending_usage, Some(u)),
        0,
        0,
        false,
    );
    assert(all_ended(m.chat, m.open_tool_ids, t) == m.chat);
    let c = b.with(id, chat::with_parts(b.at(id), Some(p)));
    let d = tokens::derived(c);
    assert(finished(m, false, Some(u), t).chat == d);
    tokens::law_deriving_changes_counts_alone(c);
    assert(tokens::bare(d.events[id - 1]) == tokens::bare(c.events[id - 1]));
}

/// The tokens of a context are guessed text by text: a prompt, the thoughts, the words and the answers
/// of tools each by their own length, and a summary by its count.
pub proof fn law_tokens_are_guessed_text_by_text(
    m: chat::ChatModel,
    e: chat::EventModel,
    ids: Seq<EventId>,
    id: EventId,
)
    ensures
        e.kind matches chat::KindModel::UserPrompt { text, .. } ==> event_size(m, e) == (text.len()
            / 4 + 1) as u64,
        e.kind matches chat::KindModel::Assistant { reasoning, text, tool_event_ids, .. } ==> (
        tool_event_ids.len() == 0 && reasoning.len() + text.len() < 1000000 ==> event_size(m, e)
            == reasoning.len() / 4 + text.len() / 4 + 2),
        e.kind matches chat::KindModel::Archive { num_tokens, .. } ==> event_size(m, e)
            == num_tokens,
        e.kind is Tool || e.kind is Abort ==> event_size(m, e) == 0,
        events_size(m, Seq::empty()) == 0,
        events_size(m, ids) + event_size(m, m.at(id)) <= u64::MAX ==> events_size(m, ids.push(id))
            == events_size(m, ids) + event_size(m, m.at(id)),
{
    assert(ids.push(id).drop_last() =~= ids);
}

/// Every change of the history that is shown has a version of its own.
pub proof fn law_versions_count_up(n: u64)
    ensures
        n < u64::MAX ==> next_version(n) == n + 1,
        next_version(n) != n,
{
}

/// The last prompt is the one that answers belong to.
pub proof fn law_answers_belong_to_the_last_prompt(m: chat::ChatModel, k: int)
    requires
        m.ok(),
        0 <= k < m.order.len(),
        m.at(m.order[k]).kind is UserPrompt,
        forall|j: int|
            k < j < m.order.len() ==> !(m.at(#[trigger] m.order[j]).kind is UserPrompt),
    ensures
        prompt_id(m) == Some(m.order[k]),
{
    assert(m.has(m.order[k]));
    lemma_last_prompt_is(m, m.order, k);
}

proof fn lemma_last_prompt_is(m: chat::ChatModel, ids: Seq<EventId>, k: int)
    requires
        0 <= k < ids.len(),
        m.has(ids[k]),
        m.at(ids[k]).kind is UserPrompt,
        forall|j: int| k < j < ids.len() ==> !(m.at(#[trigger] ids[j]).kind is UserPrompt),
    ensures
        tokens::last_prompt(m, ids) == k,
    decreases ids.len(),
{
    if k < ids.len() - 1 {
        assert(!(m.at(ids[ids.len() - 1]).kind is UserPrompt));
        let t = ids.drop_last();
        assert forall|j: int| k < j < t.len() implies !(m.at(#[trigger] t[j]).kind
            is UserPrompt) by {
            assert(t[j] == ids[j]);
        }
        lemma_last_prompt_is(m, t, k);
    }
}

} // verus!
