//! What workers report, and what it does to the state.

use super::builder as build;
use super::list;
use super::list::ListNav;
use super::models;
use super::picker;
use super::session;
use super::session::{tool_kind_from_activity, Phase, Session};
use super::state;
use super::state::{App, AppModel};
use super::types;
use super::types::{ExecConfirm, Task};
use crate::channel::builder;
use crate::chat::EventId;
use crate::llm;
use crate::llm::{CompletionParts, ToolActivity, Usage, WorkerEvent};
use crate::text;
use std::time::Instant;
use vstd::prelude::*;
use vstd::string::*;

verus! {

/// What a report holds.
pub enum EventModel {
    Chunk(usize, Seq<char>),
    Reasoning(usize, Seq<char>),
    Usage(usize, Usage, llm::PartsModel),
    UsageUpdate(usize, u64),
    HttpHeaders(usize, Seq<(Seq<char>, Seq<char>)>),
    ToolStart(usize, StartModel),
    ToolOutput(usize, Seq<char>),
    ToolEnd(usize, llm::ActivityModel),
    RoundEnd(usize),
    ExecConfirm(usize, Seq<char>, Seq<char>, u64),
    Retrying(usize, Seq<char>, Instant),
    Done(usize),
    Cancelled(usize),
    Error(usize, Seq<char>),
    Compacting(usize),
    Compacted(usize, Seq<char>, u64),
    BuilderLoaded(
        Seq<(Seq<char>, Option<Seq<char>>)>,
        Option<builder::InfoModel>,
        Seq<builder::BranchModel>,
    ),
    ModelsRefreshed(Seq<(Seq<char>, Option<u64>)>),
}

/// A tool that starts.
pub struct StartModel {
    pub tool_call_id: Seq<char>,
    pub function_name: Seq<char>,
    pub arguments: Seq<char>,
    pub label: Seq<char>,
}

impl View for WorkerEvent {
    type V = EventModel;

    open spec fn view(&self) -> EventModel {
        match self {
            WorkerEvent::Chunk(id, s) => EventModel::Chunk(*id, s@),
            WorkerEvent::Reasoning(id, s) => EventModel::Reasoning(*id, s@),
            WorkerEvent::Usage(id, u, p) => EventModel::Usage(*id, *u, p@),
            WorkerEvent::UsageUpdate(id, n) => EventModel::UsageUpdate(*id, *n),
            WorkerEvent::HttpHeaders(id, v) => EventModel::HttpHeaders(
                *id,
                session::header_views(v@),
            ),
            WorkerEvent::ToolStart { session, tool_call_id, function_name, arguments, label } => {
                EventModel::ToolStart(
                    *session,
                    StartModel {
                        tool_call_id: tool_call_id@,
                        function_name: function_name@,
                        arguments: arguments@,
                        label: label@,
                    },
                )
            },
            WorkerEvent::ToolOutput(id, s) => EventModel::ToolOutput(*id, s@),
            WorkerEvent::ToolEnd(id, a) => EventModel::ToolEnd(*id, a@),
            WorkerEvent::RoundEnd(id) => EventModel::RoundEnd(*id),
            WorkerEvent::ExecConfirm(id, l, c, r) => EventModel::ExecConfirm(*id, l@, c@, *r),
            WorkerEvent::Retrying(id, s, t) => EventModel::Retrying(*id, s@, *t),
            WorkerEvent::Done(id) => EventModel::Done(*id),
            WorkerEvent::Cancelled(id) => EventModel::Cancelled(*id),
            WorkerEvent::Error(id, s) => EventModel::Error(*id, s@),
            WorkerEvent::Compacting(id) => EventModel::Compacting(*id),
            WorkerEvent::Compacted(id, s, n) => EventModel::Compacted(*id, s@, *n),
            WorkerEvent::BuilderLoaded(v, i, w) => EventModel::BuilderLoaded(
                build::image_views(v@),
                builder::info_view(*i),
                builder::branch_views(w@),
            ),
            WorkerEvent::ModelsRefreshed(v) => EventModel::ModelsRefreshed(
                models::found_views(v@),
            ),
        }
    }
}

/// What reports hold.
pub open spec fn event_views(v: Seq<WorkerEvent>) -> Seq<EventModel> {
    v.map_values(|e: WorkerEvent| e@)
}

// ---------------------------------------------------------------------------
// Reports about a session
// ---------------------------------------------------------------------------
/// The session with the open round closed where its tools are done: what comes next belongs to
/// another round.
pub open spec fn settled(s: session::SessionModel, t: Instant) -> session::SessionModel {
    if session::tools_done(s) {
        session::finished(s, false, None, t)
    } else {
        s
    }
}

/// The session without a request to repeat.
pub open spec fn answered(s: session::SessionModel) -> session::SessionModel {
    session::SessionModel { retrying: None, ..s }
}

/// The session with a round for what comes next.
pub open spec fn growing(s: session::SessionModel, t: Instant) -> session::SessionModel {
    session::with_round(settled(answered(s), t), t)
}

/// The session with what the server counted in a round.
pub open spec fn usage_taken(
    s: session::SessionModel,
    u: Usage,
    p: llm::PartsModel,
    t: Instant,
) -> session::SessionModel {
    session::SessionModel {
        pending_usage: Some(u),
        pending_parts: Some(p),
        live_usage_total: Some(u.total_tokens),
        ..settled(s, t)
    }
}

/// The session with a tool that starts. A command of the user belongs to no round.
pub open spec fn tool_started(
    s: session::SessionModel,
    e: StartModel,
    t: Instant,
) -> session::SessionModel {
    let by_user = e.tool_call_id == "user_run"@;
    let a = if by_user {
        answered(s)
    } else {
        session::with_round(answered(s), t)
    };
    session::SessionModel {
        live_tool: Some((a.chat.events.len() + 1) as EventId),
        active_tool_label: Some(e.label),
        ..session::tool_begun(
            a,
            if by_user {
                None
            } else {
                a.open_assistant_id
            },
            e.tool_call_id,
            e.function_name,
            e.arguments,
            session::kind_of(e.function_name, e.arguments, llm::no_activity()),
            t,
        )
    }
}

/// The session with the turn over.
pub open spec fn turn_ended(
    s: session::SessionModel,
    aborted: bool,
    t: Instant,
) -> session::SessionModel {
    session::SessionModel {
        phase: Phase::Idle,
        ..session::finished(answered(s), aborted, None, t)
    }
}

/// Message and file of an error: a second line that begins with a slash names a file.
pub open spec fn parted(err: Seq<char>) -> (Seq<char>, Option<Seq<char>>) {
    match text::split_once(err, '\n') {
        Some((head, path)) => if "/"@.is_prefix_of(path) {
            (head, Some(path))
        } else {
            (err, None)
        },
        None => (err, None),
    }
}

/// The session after an error.
pub open spec fn failed(s: session::SessionModel, err: Seq<char>, t: Instant) -> session::SessionModel {
    session::SessionModel {
        compacting: false,
        retrying: None,
        error: Some(parted(err).0),
        error_debug: parted(err).1,
        phase: Phase::Idle,
        ..session::finished(s, false, None, t)
    }
}

/// The session after a report about it.
#[verifier::opaque]
pub open spec fn session_event(
    s: session::SessionModel,
    e: EventModel,
    keep: nat,
    t: Instant,
) -> session::SessionModel {
    match e {
        EventModel::Chunk(_, c) => session::text_added(growing(s, t), c),
        EventModel::Reasoning(_, c) => session::reasoning_added(growing(s, t), c),
        EventModel::Usage(_, u, p) => usage_taken(s, u, p, t),
        EventModel::UsageUpdate(_, n) => session::SessionModel { live_usage_total: Some(n), ..s },
        EventModel::HttpHeaders(_, v) => session::SessionModel {
            last_http_headers: Some(v),
            ..s
        },
        EventModel::ToolStart(_, x) => tool_started(s, x, t),
        EventModel::ToolOutput(_, c) => match s.live_tool {
            Some(id) => session::output_added(s, id, c),
            None => s,
        },
        EventModel::ToolEnd(_, a) => match s.live_tool {
            Some(id) => session::tool_ended(s, id, a, t),
            None => s,
        },
        EventModel::RoundEnd(_) => session::finished(s, false, None, t),
        EventModel::Retrying(_, c, at) => session::SessionModel { retrying: Some((c, at)), ..s },
        EventModel::Done(_) => turn_ended(s, false, t),
        EventModel::Cancelled(_) => turn_ended(s, true, t),
        EventModel::Error(_, c) => failed(s, c, t),
        EventModel::Compacting(_) => session::SessionModel { compacting: true, ..s },
        EventModel::Compacted(_, c, n) => session::summarised(s, c, n, keep, t),
        _ => s,
    }
}

/// The number of the session that a report is about; none for the others.
pub open spec fn session_of(e: EventModel) -> Option<usize> {
    match e {
        EventModel::Chunk(id, _) => Some(id),
        EventModel::Reasoning(id, _) => Some(id),
        EventModel::Usage(id, _, _) => Some(id),
        EventModel::UsageUpdate(id, _) => Some(id),
        EventModel::HttpHeaders(id, _) => Some(id),
        EventModel::ToolStart(id, _) => Some(id),
        EventModel::ToolOutput(id, _) => Some(id),
        EventModel::ToolEnd(id, _) => Some(id),
        EventModel::RoundEnd(id) => Some(id),
        EventModel::ExecConfirm(_, _, _, _) => None,
        EventModel::Retrying(id, _, _) => Some(id),
        EventModel::Done(id) => Some(id),
        EventModel::Cancelled(id) => Some(id),
        EventModel::Error(id, _) => Some(id),
        EventModel::Compacting(id) => Some(id),
        EventModel::Compacted(id, _, _) => Some(id),
        EventModel::BuilderLoaded(_, _, _) => None,
        EventModel::ModelsRefreshed(_) => None,
    }
}

impl Session {
    fn settle(&mut self, now: Instant)
        requires
            old(self).wf(),
        ensures
            final(self).wf(),
            final(self)@ == settled(old(self)@, now),
    {
        if self.is_open_tool_round_done() {
            self.finish_assistant(false, None, now);
        }
    }

    fn forget_retry(&mut self)
        requires
            old(self).wf(),
        ensures
            final(self).wf(),
            final(self)@ == answered(old(self)@),
    {
        self.retrying = None;
    }

    fn grow(&mut self, now: Instant)
        requires
            old(self).wf(),
        ensures
            final(self).wf(),
            final(self)@ == growing(old(self)@, now),
    {
        self.forget_retry();
        self.settle(now);
        self.ensure_open_assistant(now);
    }

    fn take_text(&mut self, chunk: &str, now: Instant)
        requires
            old(self).wf(),
        ensures
            final(self).wf(),
            final(self)@ == session::text_added(growing(old(self)@, now), chunk@),
    {
        self.grow(now);
        self.append_text(chunk);
    }

    fn take_reasoning(&mut self, chunk: &str, now: Instant)
        requires
            old(self).wf(),
        ensures
            final(self).wf(),
            final(self)@ == session::reasoning_added(growing(old(self)@, now), chunk@),
    {
        self.grow(now);
        self.append_reasoning(chunk);
    }

    fn take_usage(&mut self, usage: Usage, parts: CompletionParts, now: Instant)
        requires
            old(self).wf(),
        ensures
            final(self).wf(),
            final(self)@ == usage_taken(old(self)@, usage, parts@, now),
    {
        self.settle(now);
        self.pending_usage = Some(usage);
        self.pending_parts = Some(parts);
        self.live_usage_total = Some(usage.total_tokens);
    }

    fn start_tool(
        &mut self,
        tool_call_id: String,
        function_name: String,
        arguments: String,
        label: String,
        now: Instant,
    )
        requires
            old(self).wf(),
        ensures
            final(self).wf(),
            final(self)@ == tool_started(
                old(self)@,
                (StartModel {
                    tool_call_id: tool_call_id@,
                    function_name: function_name@,
                    arguments: arguments@,
                    label: label@,
                }),
                now,
            ),
    {
        self.forget_retry();
        let parent = if text::same_text(tool_call_id.as_str(), "user_run") {
            None
        } else {
            self.ensure_open_assistant(now);
            self.open_assistant_id
        };
        let kind = tool_kind_from_activity(
            function_name.as_str(),
            arguments.as_str(),
            &ToolActivity::default(),
        );
        let id = self.open_tool(parent, tool_call_id, function_name, arguments, kind, now);
        self.live_tool = Some(id);
        self.active_tool_label = Some(label);
    }

    fn end_turn(&mut self, aborted: bool, now: Instant)
        requires
            old(self).wf(),
        ensures
            final(self).wf(),
            final(self)@ == turn_ended(old(self)@, aborted, now),
    {
        self.forget_retry();
        self.finish_assistant(aborted, None, now);
        self.phase = Phase::Idle;
    }

    fn fail(&mut self, err: String, now: Instant)
        requires
            old(self).wf(),
        ensures
            final(self).wf(),
            final(self)@ == failed(old(self)@, err@, now),
    {
        self.finish_assistant(false, None, now);
        self.compacting = false;
        self.retrying = None;
        let (message, file) = part_error(err);
        self.error = Some(message);
        self.error_debug = file;
        self.phase = Phase::Idle;
    }

    /// Takes a report about the session over. `keep` is how many turns a summary leaves.
    pub fn take_event(&mut self, e: WorkerEvent, keep: usize, now: Instant)
        requires
            old(self).wf(),
        ensures
            final(self).wf(),
            final(self)@ == session_event(old(self)@, e@, keep as nat, now),
    {
        proof {
            reveal(session_event);
        }
        match e {
            WorkerEvent::Chunk(_, c) => self.take_text(c.as_str(), now),
            WorkerEvent::Reasoning(_, c) => self.take_reasoning(c.as_str(), now),
            WorkerEvent::Usage(_, u, p) => self.take_usage(u, p, now),
            WorkerEvent::UsageUpdate(_, n) => {
                self.live_usage_total = Some(n);
            },
            WorkerEvent::HttpHeaders(_, v) => {
                self.last_http_headers = Some(v);
            },
            WorkerEvent::ToolStart { session: _, tool_call_id, function_name, arguments, label } => {
                self.start_tool(tool_call_id, function_name, arguments, label, now)
            },
            WorkerEvent::ToolOutput(_, c) => {
                if let Some(id) = self.live_tool {
                    self.append_tool_output(id, c.as_str());
                }
            },
            WorkerEvent::ToolEnd(_, a) => {
                if let Some(id) = self.live_tool {
                    self.finalize_tool_event(id, &a, now);
                }
            },
            WorkerEvent::RoundEnd(_) => self.finish_assistant(false, None, now),
            WorkerEvent::Retrying(_, c, at) => {
                self.retrying = Some((c, at));
            },
            WorkerEvent::Done(_) => self.end_turn(false, now),
            WorkerEvent::Cancelled(_) => self.end_turn(true, now),
            WorkerEvent::Error(_, c) => self.fail(c, now),
            WorkerEvent::Compacting(_) => {
                self.compacting = true;
            },
            WorkerEvent::Compacted(_, c, n) => self.apply_compaction(c, n, keep, now),
            _ => {},
        }
    }
}

fn part_error(err: String) -> (r: (String, Option<String>))
    ensures
        (r.0@, text::opt_view(r.1)) == parted(err@),
{
    match text::split_once_text(err.as_str(), '\n') {
        Some((head, path)) => if text::begins_with(path.as_str(), "/") {
            (head, Some(path))
        } else {
            (err, None)
        },
        None => (err, None),
    }
}

/// The session that a report is about.
pub fn event_session(e: &WorkerEvent) -> (r: Option<usize>)
    ensures
        r == session_of(e@),
{
    match e {
        WorkerEvent::Chunk(id, _) => Some(*id),
        WorkerEvent::Reasoning(id, _) => Some(*id),
        WorkerEvent::Usage(id, _, _) => Some(*id),
        WorkerEvent::UsageUpdate(id, _) => Some(*id),
        WorkerEvent::HttpHeaders(id, _) => Some(*id),
        WorkerEvent::ToolStart { session, .. } => Some(*session),
        WorkerEvent::ToolOutput(id, _) => Some(*id),
        WorkerEvent::ToolEnd(id, _) => Some(*id),
        WorkerEvent::RoundEnd(id) => Some(*id),
        WorkerEvent::Retrying(id, _, _) => Some(*id),
        WorkerEvent::Done(id) => Some(*id),
        WorkerEvent::Cancelled(id) => Some(*id),
        WorkerEvent::Error(id, _) => Some(*id),
        WorkerEvent::Compacting(id) => Some(*id),
        WorkerEvent::Compacted(id, _, _) => Some(*id),
        _ => None,
    }
}

// ---------------------------------------------------------------------------
// Reports in the program
// ---------------------------------------------------------------------------
/// The state after a report about a session. Of a session that is not there nothing is taken.
#[verifier::opaque]
pub open spec fn session_told(m: AppModel, id: usize, e: EventModel, t: Instant) -> AppModel {
    let k = state::session_at(m.sessions, id);
    if k < m.sessions.len() {
        m.with_session(
            k,
            session_event(m.sessions[k], e, m.config.compact_keep_turns as nat, t),
        )
    } else {
        m
    }
}

/// State and work after a worker asked for consent. A question that is open is denied; so is that
/// of a session that is not there.
#[verifier::opaque]
pub open spec fn consent_asked(
    m: AppModel,
    id: usize,
    label: Seq<char>,
    command: Seq<char>,
    reply: u64,
) -> (AppModel, types::TaskModel) {
    if state::session_at(m.sessions, id) < m.sessions.len() {
        (
            AppModel {
                exec_confirm: Some(
                    types::ExecModel {
                        label,
                        command,
                        nav: ListNav { len: 2, cursor: 0, offset: 0, wrap: false },
                        reply,
                    },
                ),
                ..m
            },
            match m.exec_confirm {
                Some(d) => types::TaskModel::Reply { to: d.reply, consent: false },
                None => types::TaskModel::Nothing,
            },
        )
    } else {
        (m, types::TaskModel::Reply { to: reply, consent: false })
    }
}

/// The list of models with the models that are known now.
pub open spec fn list_renewed(
    p: types::ModelPickerModel,
    items: Seq<types::ModelPickModel>,
) -> types::ModelPickerModel {
    types::ModelPickerModel {
        items,
        nav: ListNav {
            len: items.len() as usize,
            cursor: list::last_or(p.nav.cursor, items.len() as usize),
            offset: list::last_or(p.nav.offset, items.len() as usize),
            wrap: p.nav.wrap,
        },
        loading: false,
    }
}

/// The state with what the providers offer.
pub open spec fn offers_taken(m: AppModel, found: Seq<(Seq<char>, Option<u64>)>) -> AppModel {
    let n = models::after_refresh(m.models, found);
    AppModel {
        models: n,
        model_picker: match m.model_picker {
            Some(p) => Some(list_renewed(p, picker::model_list(m.config, n))),
            None => None,
        },
        ..m
    }
}

/// The message about new models.
pub open spec fn new_models(n: nat) -> Seq<char> {
    "Refreshed: "@ + text::decimal(n) + (if n == 1 {
        " new model found."@
    } else {
        " new models found."@
    })
}

/// The state after the providers answered: new models are told of.
#[verifier::opaque]
pub open spec fn models_told(m: AppModel, found: Seq<(Seq<char>, Option<u64>)>) -> AppModel {
    let n = offers_taken(m, found);
    if n.models.entries.len() > m.models.entries.len() {
        n.telling(new_models((n.models.entries.len() - m.models.entries.len()) as nat))
    } else {
        n
    }
}

/// State and work after a report.
#[verifier::opaque]
pub open spec fn event_handled(m: AppModel, e: EventModel, t: Instant) -> (
    AppModel,
    types::TaskModel,
) {
    match e {
        EventModel::ExecConfirm(id, label, command, reply) => consent_asked(
            m,
            id,
            label,
            command,
            reply,
        ),
        EventModel::BuilderLoaded(images, info, worktrees) => build::with_builder(
            m,
            build::found(m.builder->0, images, info, worktrees),
        ),
        EventModel::ModelsRefreshed(found) => (models_told(m, found), types::TaskModel::Nothing),
        _ => match session_of(e) {
            Some(id) => (session_told(m, id, e, t), types::TaskModel::Nothing),
            None => (m, types::TaskModel::Nothing),
        },
    }
}

/// State and work after all reports, in their order.
pub open spec fn all_handled(m: AppModel, events: Seq<EventModel>, t: Instant) -> (
    AppModel,
    Seq<types::TaskModel>,
)
    decreases events.len(),
{
    if events.len() == 0 {
        (m, Seq::empty())
    } else {
        let (n, task) = event_handled(m, events[0], t);
        let (last, rest) = all_handled(n, events.drop_first(), t);
        (last, seq![task] + rest)
    }
}

fn new_models_message(n: usize) -> (r: String)
    ensures
        r@ == new_models(n as nat),
{
    text::concat3(
        "Refreshed: ",
        text::decimal_wide(n as u128).as_str(),
        if n == 1 {
            " new model found."
        } else {
            " new models found."
        },
    )
}

impl App {
    fn tell_session(&mut self, id: usize, e: WorkerEvent, now: Instant)
        requires
            old(self).ready(),
        ensures
            final(self).ready(),
            final(self)@ == session_told(old(self)@, id, e@, now),
    {
        broadcast use session::lemma_session_changed;

        proof {
            reveal(session_told);
        }
        let keep: usize = self.config.compact_keep_turns;
        if let Some(k) = self.session_position(id) {
            assert(self.sessions@[k as int].wf());
            let s = &mut self.sessions[k];
            s.take_event(e, keep, now);
        }
    }

    fn ask_consent(&mut self, id: usize, label: String, command: String, reply: u64) -> (r: Task)
        requires
            old(self).ready(),
        ensures
            final(self).ready(),
            (final(self)@, r@) == consent_asked(old(self)@, id, label@, command@, reply),
    {
        proof {
            reveal(consent_asked);
        }
        if self.session_position(id).is_none() {
            return Task::Reply { to: reply, consent: false };
        }
        let t = match &self.exec_confirm {
            Some(d) => Task::Reply { to: d.reply, consent: false },
            None => Task::Nothing,
        };
        self.exec_confirm = Some(ExecConfirm { label, command, nav: ListNav::new(2), reply });
        t
    }

    fn refresh_registry(&mut self, found: &Vec<(String, Option<u64>)>)
        requires
            old(self).ready(),
        ensures
            final(self).ready(),
            final(self)@ == (AppModel {
                models: models::after_refresh(old(self)@.models, models::found_views(found@)),
                ..old(self)@
            }),
    {
        self.model_registry.apply_refresh(found);
    }

    fn renew_model_list(&mut self)
        requires
            old(self).ready(),
        ensures
            final(self).ready(),
            final(self)@ == (AppModel {
                model_picker: match old(self)@.model_picker {
                    Some(p) => Some(
                        list_renewed(
                            p,
                            picker::model_list(old(self)@.config, old(self)@.models),
                        ),
                    ),
                    None => None,
                },
                ..old(self)@
            }),
    {
        if self.model_picker.is_none() {
            return ;
        }
        let items = self.model_pick_list();
        if let Some(p) = &mut self.model_picker {
            p.items.set_items(items);
            p.loading = false;
        }
    }

    fn take_offers(&mut self, found: &Vec<(String, Option<u64>)>)
        requires
            old(self).ready(),
        ensures
            final(self).ready(),
            final(self)@ == offers_taken(old(self)@, models::found_views(found@)),
    {
        self.refresh_registry(found);
        self.renew_model_list();
    }

    fn tell_models(&mut self, found: &Vec<(String, Option<u64>)>)
        requires
            old(self).ready(),
        ensures
            final(self).ready(),
            final(self)@ == models_told(old(self)@, models::found_views(found@)),
    {
        proof {
            reveal(models_told);
        }
        let before: usize = self.model_registry.len();
        self.take_offers(found);
        let after: usize = self.model_registry.len();
        if after > before {
            self.tell(new_models_message(after - before));
        }
    }

    /// Takes a report over.
    pub fn handle_event(&mut self, e: WorkerEvent, now: Instant) -> (r: Task)
        requires
            old(self).ready(),
        ensures
            final(self).ready(),
            (final(self)@, r@) == event_handled(old(self)@, e@, now),
    {
        proof {
            reveal(event_handled);
        }
        match event_session(&e) {
            Some(id) => {
                self.tell_session(id, e, now);
                Task::Nothing
            },
            None => match e {
                WorkerEvent::ExecConfirm(id, label, command, reply) => self.ask_consent(
                    id,
                    label,
                    command,
                    reply,
                ),
                WorkerEvent::BuilderLoaded(images, info, worktrees) => self.builder_loaded(
                    &images,
                    info,
                    worktrees,
                ),
                WorkerEvent::ModelsRefreshed(found) => {
                    self.tell_models(&found);
                    Task::Nothing
                },
                _ => Task::Nothing,
            },
        }
    }

    /// Takes all reports over; says whether there were any, and what is to be done.
    pub fn drain_events(&mut self, events: Vec<WorkerEvent>, now: Instant) -> (r: (bool, Vec<Task>))
        requires
            old(self).ready(),
        ensures
            final(self).ready(),
            r.0 == (events@.len() > 0),
            (final(self)@, types::task_views(r.1@)) == all_handled(
                old(self)@,
                event_views(events@),
                now,
            ),
    {
        let ghost want = all_handled(self@, event_views(events@), now);
        let mut rest = events;
        let changed = rest.len() > 0;
        let mut tasks: Vec<Task> = Vec::new();
        assert(types::task_views(tasks@) =~= Seq::empty());
        assert(want.1 =~= types::task_views(tasks@) + want.1);
        while rest.len() > 0
            invariant
                self.ready(),
                ({
                    let (n, more) = all_handled(self@, event_views(rest@), now);
                    want == (n, types::task_views(tasks@) + more)
                }),
            decreases rest@.len(),
        {
            let ghost m = self@;
            let ghost all = event_views(rest@);
            let ghost done = types::task_views(tasks@);
            let e = rest.remove(0);
            assert(all[0] == e@);
            assert(event_views(rest@) =~= all.drop_first());
            let t = self.handle_event(e, now);
            tasks.push(t);
            proof {
                assert(types::task_views(tasks@) =~= done.push(t@));
                let (n, more) = all_handled(self@, all.drop_first(), now);
                assert(all_handled(m, all, now) == (n, seq![t@] + more));
                assert(done + (seq![t@] + more) =~= done.push(t@) + more);
            }
        }
        assert(event_views(rest@) =~= Seq::empty());
        assert(types::task_views(tasks@) + Seq::empty() =~= types::task_views(tasks@));
        (changed, tasks)
    }
}

// ---------------------------------------------------------------------------
// Laws
// ---------------------------------------------------------------------------
/// A report about a session that is not there changes nothing.
pub proof fn law_reports_of_closed_sessions_change_nothing(m: AppModel, e: EventModel, t: Instant)
    requires
        session_of(e) matches Some(id) && state::session_at(m.sessions, id) >= m.sessions.len(),
    ensures
        event_handled(m, e, t) == (m, types::TaskModel::Nothing),
{
    reveal(event_handled);
    reveal(session_told);
}

proof fn lemma_session_at(v: Seq<session::SessionModel>, id: usize)
    ensures
        0 <= state::session_at(v, id) <= v.len(),
        state::session_at(v, id) < v.len() ==> v[state::session_at(v, id)].id == id,
    decreases v.len(),
{
    if v.len() > 0 && v[0].id != id {
        lemma_session_at(v.drop_first(), id);
    }
}

/// A report about a session leaves every session with another number as it is.
pub proof fn law_reports_change_their_session_only(m: AppModel, e: EventModel, t: Instant, i: int)
    requires
        0 <= i < m.sessions.len(),
        session_of(e) matches Some(id) && m.sessions[i].id != id,
    ensures
        event_handled(m, e, t).0.sessions.len() == m.sessions.len(),
        event_handled(m, e, t).0.sessions[i] == m.sessions[i],
        event_handled(m, e, t).0.active == m.active,
{
    reveal(event_handled);
    reveal(session_told);
    lemma_session_at(m.sessions, session_of(e)->0);
}

/// Every worker that asks for consent is answered: its question is shown, or it is denied at
/// once; and a question that gives way to it is denied.
pub proof fn law_every_question_is_answered(
    m: AppModel,
    id: usize,
    label: Seq<char>,
    command: Seq<char>,
    reply: u64,
    t: Instant,
)
    ensures
        ({
            let (n, task) = event_handled(m, EventModel::ExecConfirm(id, label, command, reply), t);
            let denied = |to: u64| task == (types::TaskModel::Reply { to, consent: false });
            &&& (n.exec_confirm matches Some(d) && d.reply == reply) || denied(reply)
            &&& m.exec_confirm matches Some(d) ==> n.exec_confirm == m.exec_confirm || denied(
                d.reply,
            )
        }),
{
    reveal(event_handled);
    reveal(consent_asked);
}

/// After the last report of a turn nothing runs in the session any more, and no round is open.
pub proof fn law_a_turn_ends_idle(s: session::SessionModel, aborted: bool, t: Instant)
    ensures
        turn_ended(s, aborted, t).phase == Phase::Idle,
        turn_ended(s, aborted, t).retrying is None,
        turn_ended(s, aborted, t).open_assistant_id is None,
{
}

/// The end of a round is told twice at no cost.
pub proof fn law_a_round_ends_once(s: session::SessionModel, id: usize, keep: nat, t: Instant, u: Instant)
    ensures
        ({
            let e = EventModel::RoundEnd(id);
            session_event(session_event(s, e, keep, t), e, keep, u) == session_event(s, e, keep, t)
        }),
{
    reveal(session_event);
}

/// Whether all that was over in one history is the same in another one.
pub open spec fn over_same(a: crate::chat::ChatModel, b: crate::chat::ChatModel) -> bool {
    &&& a.order == b.order
    &&& a.events.len() == b.events.len()
    &&& forall|i: int|
        #![trigger b.events[i]]
        0 <= i < a.events.len() && a.events[i].time_end is Some ==> b.events[i] == a.events[i]
}

/// A session whose version stays is not given another round.
proof fn lemma_growing_version(s: session::SessionModel, t: Instant)
    ensures
        growing(s, t).history_version == s.history_version ==> growing(s, t).chat == s.chat,
{
}

/// Where a report leaves the version of the history, it leaves all that was over in it: a picture
/// of it stays true.
pub proof fn law_the_version_tells_changes(
    s: session::SessionModel,
    e: EventModel,
    keep: nat,
    t: Instant,
)
    requires
        session_event(s, e, keep, t).history_version == s.history_version,
    ensures
        over_same(s.chat, session_event(s, e, keep, t).chat),
{
    let n = session_event(s, e, keep, t);
    match e {
        EventModel::Chunk(_, c) => {
            assert(n == session::text_added(growing(s, t), c)) by {
                reveal(session_event);
            }
            lemma_growing_version(s, t);
        },
        EventModel::Reasoning(_, c) => {
            assert(n == session::reasoning_added(growing(s, t), c)) by {
                reveal(session_event);
            }
            lemma_growing_version(s, t);
        },
        EventModel::ToolStart(_, x) => {
            assert(n == tool_started(s, x, t)) by {
                reveal(session_event);
            }
        },
        EventModel::Usage(_, u, p) => {
            assert(n == usage_taken(s, u, p, t)) by {
                reveal(session_event);
            }
        },
        EventModel::Compacted(_, c, k) => {
            assert(n == session::summarised(s, c, k, keep, t)) by {
                reveal(session_event);
            }
        },
        _ => {
            assert(n.history_version == s.history_version ==> n.chat == s.chat) by {
                reveal(session_event);
            }
        },
    }
}

/// Whether the round of a session is open: it is there, is an answer and has not ended.
pub open spec fn round_open(s: session::SessionModel, id: EventId) -> bool {
    &&& s.open_assistant_id == Some(id)
    &&& s.chat.has(id)
    &&& s.chat.at(id).kind is Assistant
    &&& s.chat.at(id).time_end is None
}

/// What the model writes goes to the end of the open answer, and what it thinks to the end of the
/// thoughts of that answer; nothing else in the history changes.
pub proof fn law_what_arrives_is_kept_word_by_word(
    s: session::SessionModel,
    id: EventId,
    to: usize,
    chunk: Seq<char>,
    keep: nat,
    t: Instant,
    i: int,
)
    requires
        round_open(s, id),
        !session::tools_done(s),
        0 <= i < s.chat.events.len(),
    ensures
        ({
            let a = session_event(s, EventModel::Chunk(to, chunk), keep, t);
            let b = session_event(s, EventModel::Reasoning(to, chunk), keep, t);
            let was = s.chat.at(id);
            &&& a.chat.at(id).kind->Assistant_text == was.kind->Assistant_text + chunk
            &&& a.chat.at(id).kind->reasoning == was.kind->reasoning
            &&& a.chat.at(id).kind->tool_event_ids == was.kind->tool_event_ids
            &&& a.chat.at(id).time_end is None
            &&& b.chat.at(id).kind->reasoning == was.kind->reasoning + chunk
            &&& b.chat.at(id).kind->Assistant_text == was.kind->Assistant_text
            &&& b.chat.at(id).kind->tool_event_ids == was.kind->tool_event_ids
            &&& a.chat.order == s.chat.order && b.chat.order == s.chat.order
            &&& a.chat.events.len() == s.chat.events.len()
            &&& b.chat.events.len() == s.chat.events.len()
            &&& i != id - 1 ==> a.chat.events[i] == s.chat.events[i] && b.chat.events[i]
                == s.chat.events[i]
            &&& a.retrying is None && b.retrying is None
            &&& a.phase == s.phase && b.phase == s.phase
        }),
{
    reveal(session_event);
}

/// Where no answer is open, the first word opens one behind everything else, in answer to the last
/// prompt.
pub proof fn law_the_first_word_opens_an_answer(
    s: session::SessionModel,
    to: usize,
    chunk: Seq<char>,
    keep: nat,
    t: Instant,
)
    requires
        s.open_assistant_id is None,
        s.chat.events.len() < EventId::MAX,
    ensures
        ({
            let a = session_event(s, EventModel::Chunk(to, chunk), keep, t);
            let b = session_event(s, EventModel::Reasoning(to, chunk), keep, t);
            let id = (s.chat.events.len() + 1) as EventId;
            &&& round_open(a, id) && round_open(b, id)
            &&& a.chat.order == s.chat.order.push(id) && b.chat.order == s.chat.order.push(id)
            &&& a.chat.at(id).kind->Assistant_text == chunk
            &&& a.chat.at(id).kind->reasoning.len() == 0
            &&& b.chat.at(id).kind->reasoning == chunk
            &&& b.chat.at(id).kind->Assistant_text.len() == 0
            &&& a.chat.at(id).parent_id == session::prompt_id(s.chat)
            &&& a.chat.at(id).time_begin == Some(t)
            &&& a.chat.at(id).kind->tool_event_ids.len() == 0
        }),
{
    reveal(session_event);
    let id = (s.chat.events.len() + 1) as EventId;
    let a = session_event(s, EventModel::Chunk(to, chunk), keep, t);
    let b = session_event(s, EventModel::Reasoning(to, chunk), keep, t);
    assert(a.chat.at(id).kind->Assistant_text =~= chunk);
    assert(b.chat.at(id).kind->reasoning =~= chunk);
}

/// Whoever answers after its tools were answered begins a new round: the old one is closed.
pub proof fn law_a_new_answer_follows_the_tools(
    s: session::SessionModel,
    to: usize,
    chunk: Seq<char>,
    keep: nat,
    t: Instant,
)
    requires
        session::tools_done(s),
    ensures
        ({
            let closed = session_event(
                session::SessionModel { retrying: None, ..s },
                EventModel::RoundEnd(to),
                keep,
                t,
            );
            &&& closed.open_assistant_id is None
            &&& session_event(s, EventModel::Chunk(to, chunk), keep, t) == session_event(
                closed,
                EventModel::Chunk(to, chunk),
                keep,
                t,
            )
        }),
{
    reveal(session_event);
}

/// Counts, headers, retries and the beginning of a summary are shown as they are reported and change
/// nothing in the history.
pub proof fn law_reports_are_shown_as_they_come(
    s: session::SessionModel,
    to: usize,
    n: u64,
    headers: Seq<(Seq<char>, Seq<char>)>,
    why: Seq<char>,
    at: Instant,
    keep: nat,
    t: Instant,
)
    ensures
        session_event(s, EventModel::UsageUpdate(to, n), keep, t) == (session::SessionModel {
            live_usage_total: Some(n),
            ..s
        }),
        session_event(s, EventModel::HttpHeaders(to, headers), keep, t) == (session::SessionModel {
            last_http_headers: Some(headers),
            ..s
        }),
        session_event(s, EventModel::Retrying(to, why, at), keep, t) == (session::SessionModel {
            retrying: Some((why, at)),
            ..s
        }),
        session_event(s, EventModel::Compacting(to), keep, t) == (session::SessionModel {
            compacting: true,
            ..s
        }),
{
    reveal(session_event);
}

/// The count of a round waits for its end: it is noted with its parts, and its total is shown.
pub proof fn law_counts_wait_for_the_end_of_the_round(
    s: session::SessionModel,
    to: usize,
    u: Usage,
    p: llm::PartsModel,
    keep: nat,
    t: Instant,
)
    requires
        !session::tools_done(s),
    ensures
        session_event(s, EventModel::Usage(to, u, p), keep, t) == (session::SessionModel {
            pending_usage: Some(u),
            pending_parts: Some(p),
            live_usage_total: Some(u.total_tokens),
            ..s
        }),
{
    reveal(session_event);
}

/// A tool of the model belongs to the open answer: it stands behind everything with the name and the
/// arguments that the model gave, the answer names it last, and it is the one that runs.
pub proof fn law_a_tool_belongs_to_its_answer(
    s: session::SessionModel,
    id: EventId,
    to: usize,
    e: StartModel,
    keep: nat,
    t: Instant,
)
    requires
        round_open(s, id),
        e.tool_call_id != "user_run"@,
        s.chat.events.len() < EventId::MAX,
    ensures
        ({
            let n = session_event(s, EventModel::ToolStart(to, e), keep, t);
            let new = (s.chat.events.len() + 1) as EventId;
            let tool = n.chat.at(new);
            &&& n.chat.order == s.chat.order.push(new)
            &&& tool.kind is Tool
            &&& tool.kind->tool_call_id == e.tool_call_id
            &&& tool.kind->function_name == e.function_name
            &&& tool.kind->arguments == e.arguments
            &&& tool.kind->output.len() == 0
            &&& tool.parent_id == Some(id)
            &&& tool.time_begin == Some(t)
            &&& tool.time_end is None
            &&& n.chat.at(id).kind->tool_event_ids == s.chat.at(id).kind->tool_event_ids.push(new)
            &&& n.chat.at(id).kind->Assistant_text == s.chat.at(id).kind->Assistant_text
            &&& n.live_tool == Some(new)
            &&& n.active_tool_label == Some(e.label)
            &&& n.open_tool_ids == s.open_tool_ids.push(new)
            &&& n.open_assistant_id == Some(id)
            &&& n.retrying is None
        }),
{
    reveal(session_event);
}

/// A command of the user belongs to no answer, and no answer names it.
pub proof fn law_a_command_of_the_user_belongs_to_no_answer(
    s: session::SessionModel,
    to: usize,
    e: StartModel,
    keep: nat,
    t: Instant,
    i: int,
)
    requires
        e.tool_call_id == "user_run"@,
        s.chat.events.len() < EventId::MAX,
        0 <= i < s.chat.events.len(),
    ensures
        ({
            let n = session_event(s, EventModel::ToolStart(to, e), keep, t);
            let new = (s.chat.events.len() + 1) as EventId;
            &&& n.chat.at(new).kind is Tool
            &&& n.chat.at(new).parent_id is None
            &&& n.chat.at(new).kind->arguments == e.arguments
            &&& n.chat.events[i] == s.chat.events[i]
            &&& n.live_tool == Some(new)
            &&& n.open_assistant_id == s.open_assistant_id
        }),
{
    reveal(session_event);
}

/// What a tool prints goes to the end of its output, as long as it runs.
pub proof fn law_tool_output_is_kept(
    s: session::SessionModel,
    id: EventId,
    to: usize,
    chunk: Seq<char>,
    keep: nat,
    t: Instant,
    i: int,
)
    requires
        s.live_tool == Some(id),
        s.chat.is_tool(id),
        s.chat.at(id).time_end is None,
        0 <= i < s.chat.events.len(),
    ensures
        ({
            let n = session_event(s, EventModel::ToolOutput(to, chunk), keep, t);
            &&& n.chat.at(id).kind->output == s.chat.at(id).kind->output + chunk
            &&& n.chat.at(id).time_end is None
            &&& n.live_tool == Some(id)
            &&& n.chat.order == s.chat.order
            &&& i != id - 1 ==> n.chat.events[i] == s.chat.events[i]
        }),
{
    reveal(session_event);
}

/// A tool ends with the whole output that was reported, or with the word that it was stopped where
/// there is none; then no tool runs, and it is open no longer.
pub proof fn law_a_tool_ends_with_its_output(
    s: session::SessionModel,
    id: EventId,
    to: usize,
    a: llm::ActivityModel,
    keep: nat,
    t: Instant,
    i: int,
)
    requires
        s.live_tool == Some(id),
        s.chat.is_tool(id),
        s.chat.at(id).time_end is None,
        0 <= i < s.chat.events.len(),
    ensures
        ({
            let n = session_event(s, EventModel::ToolEnd(to, a), keep, t);
            let tool = n.chat.at(id);
            let was = s.chat.at(id);
            &&& a.output_full.len() > 0 ==> tool.kind->output == a.output_full
            &&& a.output_full.len() == 0 ==> tool.kind->output == "Execution aborted"@
            &&& tool.time_end == Some(t)
            &&& tool.kind->tool_call_id == was.kind->tool_call_id
            &&& tool.kind->function_name == was.kind->function_name
            &&& tool.kind->arguments == was.kind->arguments
            &&& n.live_tool is None
            &&& n.active_tool_label is None
            &&& !n.open_tool_ids.contains(id)
            &&& n.chat.order == s.chat.order
            &&& i != id - 1 ==> n.chat.events[i] == s.chat.events[i]
            &&& was.parent_id is Some && a.output_full.len() < 1000000
                ==> tool.kind->num_tokens_output == a.output_full.len() / 4 + 1
        }),
{
    reveal(session_event);
    session::law_dropped_ids_are_gone(s.open_tool_ids, id, id);
}

/// Without a running tool, what tools report is not taken.
pub proof fn law_without_running_tool_nothing_is_taken(
    s: session::SessionModel,
    to: usize,
    chunk: Seq<char>,
    a: llm::ActivityModel,
    keep: nat,
    t: Instant,
)
    requires
        s.live_tool is None,
    ensures
        session_event(s, EventModel::ToolOutput(to, chunk), keep, t) == s,
        session_event(s, EventModel::ToolEnd(to, a), keep, t) == s,
{
    reveal(session_event);
}

/// However a turn ends, nothing waits any longer. Only a turn that was stopped counts as stopped, and
/// an error is shown with its first line, the path behind it apart.
pub proof fn law_the_end_of_a_turn_tells_how_it_ended(
    s: session::SessionModel,
    to: usize,
    head: Seq<char>,
    path: Seq<char>,
    keep: nat,
    t: Instant,
)
    requires
        s.open_assistant_id is Some,
        !head.contains('\n'),
    ensures
        ({
            let done = session_event(s, EventModel::Done(to), keep, t);
            let stopped = session_event(s, EventModel::Cancelled(to), keep, t);
            let err = session_event(s, EventModel::Error(to, head), keep, t);
            let traced = session_event(
                s,
                EventModel::Error(to, head + seq!['\n'] + seq!['/'] + path),
                keep,
                t,
            );
            &&& done.phase == Phase::Idle && stopped.phase == Phase::Idle && err.phase
                == Phase::Idle
            &&& !done.aborted && stopped.aborted && !err.aborted
            &&& done.open_assistant_id is None && stopped.open_assistant_id is None
                && err.open_assistant_id is None
            &&& done.open_tool_ids.len() == 0 && stopped.open_tool_ids.len() == 0
            &&& done.retrying is None && stopped.retrying is None && err.retrying is None
            &&& done.error == s.error && stopped.error == s.error
            &&& err.error == Some(head) && err.error_debug is None
            &&& !err.compacting
            &&& traced.error == Some(head) && traced.error_debug == Some(seq!['/'] + path)
        }),
{
    reveal(session_event);
    reveal_strlit("/");
    text::law_texts_are_cut_at_the_first(head, seq!['/'] + path, '\n');
    assert(head + seq!['\n'] + seq!['/'] + path =~= head + seq!['\n'] + (seq!['/'] + path));
    let rest = seq!['/'] + path;
    assert("/"@ =~= rest.take(1));
}

/// A closed round has ended at that moment with the count that was reported for it, and all of its
/// tools have ended; what was written stays, and only a stopped round is followed by a mark.
pub proof fn law_a_closed_round_keeps_what_was_said(
    s: session::SessionModel,
    id: EventId,
    to: usize,
    keep: nat,
    t: Instant,
)
    requires
        round_open(s, id),
        s.open_tool_ids.len() == 0,
    ensures
        ({
            let n = session_event(s, EventModel::RoundEnd(to), keep, t);
            let e = n.chat.at(id);
            let was = s.chat.at(id);
            &&& e.time_end == Some(t)
            &&& e.kind is Assistant
            &&& e.kind->Assistant_text == was.kind->Assistant_text
            &&& e.kind->reasoning == was.kind->reasoning
            &&& e.kind->tool_event_ids == was.kind->tool_event_ids
            &&& s.pending_usage matches Some(u) ==> e.kind->reported_usage == u
            &&& s.pending_usage is None ==> e.kind->reported_usage.total_tokens == 0
            &&& n.chat.order == s.chat.order
            &&& n.open_assistant_id is None
            &&& n.pending_usage is None
            &&& n.phase == s.phase
        }),
{
    reveal(session_event);
    session::law_a_finished_round_keeps_what_was_said(s, id, false, t);
}

/// A stopped turn leaves a mark at the end of the history.
pub proof fn law_a_stopped_turn_leaves_a_mark(
    s: session::SessionModel,
    id: EventId,
    to: usize,
    keep: nat,
    t: Instant,
)
    requires
        round_open(s, id),
        s.open_tool_ids.len() == 0,
        s.chat.events.len() < EventId::MAX,
    ensures
        ({
            let n = session_event(s, EventModel::Cancelled(to), keep, t);
            let mark = (s.chat.events.len() + 1) as EventId;
            &&& n.chat.order == s.chat.order.push(mark)
            &&& n.chat.at(mark).kind is Abort
            &&& n.chat.at(id).time_end == Some(t)
            &&& n.chat.at(id).kind->Assistant_text == s.chat.at(id).kind->Assistant_text
        }),
{
    reveal(session_event);
    session::law_a_finished_round_keeps_what_was_said(
        session::SessionModel { retrying: None, ..s },
        id,
        true,
        t,
    );
}

/// A question for consent shows what is to be run, with the consent marked, and is answered through
/// its own address.
pub proof fn law_a_question_shows_the_command(
    m: AppModel,
    id: usize,
    label: Seq<char>,
    command: Seq<char>,
    reply: u64,
    t: Instant,
    i: int,
)
    requires
        0 <= i < m.sessions.len(),
        m.sessions[i].id == id,
        m.exec_confirm is None,
    ensures
        ({
            let (n, task) = event_handled(m, EventModel::ExecConfirm(id, label, command, reply), t);
            &&& task == types::TaskModel::Nothing
            &&& n.exec_confirm is Some
            &&& (n.exec_confirm->0).label == label
            &&& (n.exec_confirm->0).command == command
            &&& (n.exec_confirm->0).reply == reply
            &&& (n.exec_confirm->0).nav.len == 2
            &&& (n.exec_confirm->0).nav.cursor == 0
            &&& n.sessions == m.sessions
        }),
{
    reveal(event_handled);
    reveal(consent_asked);
    lemma_session_is_found(m.sessions, i);
}

proof fn lemma_session_is_found(v: Seq<session::SessionModel>, i: int)
    requires
        0 <= i < v.len(),
    ensures
        state::session_at(v, v[i].id) < v.len(),
    decreases v.len(),
{
    if v[0].id != v[i].id {
        lemma_session_is_found(v.drop_first(), i - 1);
    }
}

/// A report reaches its session, wherever that stands.
pub proof fn law_a_report_reaches_its_session(m: AppModel, e: EventModel, t: Instant, i: int)
    requires
        0 <= i < m.sessions.len(),
        session_of(e) == Some(m.sessions[i].id),
        forall|j: int|
            0 <= j < m.sessions.len() && j != i ==> (#[trigger] m.sessions[j]).id
                != m.sessions[i].id,
    ensures
        event_handled(m, e, t).0.sessions[i] == session_event(
            m.sessions[i],
            e,
            m.config.compact_keep_turns as nat,
            t,
        ),
        event_handled(m, e, t).1 == types::TaskModel::Nothing,
{
    reveal(event_handled);
    reveal(session_told);
    lemma_session_is_found(m.sessions, i);
    lemma_session_at(m.sessions, m.sessions[i].id);
}

/// New models are counted in a message; where there are none, none is shown.
pub proof fn law_new_models_are_counted(m: AppModel, found: Seq<(Seq<char>, Option<u64>)>, t: Instant)
    requires
        0 <= m.active < m.sessions.len(),
    ensures
        ({
            let (n, task) = event_handled(m, EventModel::ModelsRefreshed(found), t);
            let more = n.models.entries.len() - m.models.entries.len();
            &&& task == types::TaskModel::Nothing
            &&& more == 1 ==> n.current().error == Some(
                "Refreshed: "@ + text::decimal(1) + " new model found."@,
            )
            &&& more > 1 ==> n.current().error == Some(
                "Refreshed: "@ + text::decimal(more as nat) + " new models found."@,
            )
            &&& more <= 0 ==> n.sessions == m.sessions
            &&& m.model_picker is Some ==> n.model_picker is Some && !(n.model_picker->0).loading
            &&& m.model_picker is None ==> n.model_picker is None
        }),
{
    reveal(event_handled);
    reveal(models_told);
}

/// Reports are taken in the order in which they came, and each gives its own task.
pub proof fn law_reports_are_taken_in_order(
    m: AppModel,
    first: EventModel,
    events: Seq<EventModel>,
    t: Instant,
)
    ensures
        all_handled(m, Seq::empty(), t) == (m, Seq::<types::TaskModel>::empty()),
        ({
            let (n, task) = event_handled(m, first, t);
            let (last, rest) = all_handled(n, events, t);
            all_handled(m, seq![first] + events, t) == (last, seq![task] + rest)
        }),
{
    assert((seq![first] + events).drop_first() =~= events);
    assert((seq![first] + events)[0] == first);
}

/// A renewed list of models keeps its mark where it can.
pub proof fn law_a_renewed_list_keeps_its_mark(
    p: types::ModelPickerModel,
    items: Seq<types::ModelPickModel>,
)
    requires
        items.len() <= usize::MAX,
    ensures
        list_renewed(p, items).items == items,
        !list_renewed(p, items).loading,
        list_renewed(p, items).nav.len == items.len(),
        p.nav.cursor < items.len() ==> list_renewed(p, items).nav.cursor == p.nav.cursor,
        0 < items.len() <= p.nav.cursor ==> list_renewed(p, items).nav.cursor == items.len() - 1,
{
}

} // verus!
