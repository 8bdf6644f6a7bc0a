//! What the user sends: prompts and commands.

use super::branch;
use super::close;
use super::list::ListNav;
use super::models;
use super::picker;
use super::session;
use super::session::{prompt_chars, should_compact, Phase, Session};
use super::state;
use super::state::{App, AppModel};
use super::types;
use super::types::{LocalExecMode, PreSendConfirm, Task};
use super::view::ChatAnchor;
use crate::channel::{Channel, ChannelKind};
use crate::chat::wire;
use crate::chat::wire::api_messages;
use crate::config;
use crate::config::Config;
use crate::editor;
use crate::perm::Permission;
use crate::table;
use crate::text;
use std::time::Instant;
use vstd::prelude::*;
use vstd::string::*;

verus! {

/// What the surroundings say at the moment of a key: the time, and from how many tokens on the
/// history of the active session is summarised.
pub struct Moment {
    pub now: Instant,
    pub threshold: u64,
}

// ---------------------------------------------------------------------------
// Reading a command
// ---------------------------------------------------------------------------
/// What an input asks for.
#[derive(Debug, PartialEq)]
pub enum Command {
    Compact,
    End,
    Branch(String),
    Commit(String),
    Model(String),
    Channel,
    Options,
    Header,
    New,
    Theme(String),
    Run(String),
    /// A prompt for the model.
    Prompt,
}

/// What an input asks for.
pub enum CommandModel {
    Compact,
    End,
    Branch(Seq<char>),
    Commit(Seq<char>),
    Model(Seq<char>),
    Channel,
    Options,
    Header,
    New,
    Theme(Seq<char>),
    Run(Seq<char>),
    Prompt,
}

impl View for Command {
    type V = CommandModel;

    open spec fn view(&self) -> CommandModel {
        match self {
            Command::Compact => CommandModel::Compact,
            Command::End => CommandModel::End,
            Command::Branch(s) => CommandModel::Branch(s@),
            Command::Commit(s) => CommandModel::Commit(s@),
            Command::Model(s) => CommandModel::Model(s@),
            Command::Channel => CommandModel::Channel,
            Command::Options => CommandModel::Options,
            Command::Header => CommandModel::Header,
            Command::New => CommandModel::New,
            Command::Theme(s) => CommandModel::Theme(s@),
            Command::Run(s) => CommandModel::Run(s@),
            Command::Prompt => CommandModel::Prompt,
        }
    }
}

/// What stands behind a command, without blanks around it; none where it is another one. Behind
/// the command the input ends or a blank follows.
pub open spec fn behind(input: Seq<char>, command: Seq<char>) -> Option<Seq<char>> {
    if input == command || (command + " "@).is_prefix_of(input) {
        Some(text::trimmed(input.skip(command.len() as int)))
    } else {
        None
    }
}

/// What stands behind a command that needs more; none where nothing does.
pub open spec fn needed_behind(input: Seq<char>, command: Seq<char>) -> Option<Seq<char>> {
    if (command + " "@).is_prefix_of(input) && text::trimmed(
        input.skip(command.len() as int + 1),
    ).len() > 0 {
        Some(text::trimmed(input.skip(command.len() as int + 1)))
    } else {
        None
    }
}

/// The command line behind `/run`.
pub open spec fn run_line(input: Seq<char>) -> Option<Seq<char>> {
    let n = "/run"@.len() as int;
    if "/run"@.is_prefix_of(input) && (input.len() == n || text::is_white(input[n])) {
        Some(text::trimmed(input.skip(n)))
    } else {
        None
    }
}

/// What an input asks for.
pub open spec fn command_of(input: Seq<char>) -> CommandModel {
    if input == "/compact"@ {
        CommandModel::Compact
    } else if input == "/end"@ {
        CommandModel::End
    } else if let Some(s) = needed_behind(input, "/branch"@) {
        CommandModel::Branch(s)
    } else if let Some(s) = needed_behind(input, "/commit"@) {
        CommandModel::Commit(s)
    } else if let Some(s) = behind(input, "/model"@) {
        CommandModel::Model(s)
    } else if behind(input, "/channel"@) is Some {
        CommandModel::Channel
    } else if behind(input, "/options"@) is Some {
        CommandModel::Options
    } else if behind(input, "/header"@) is Some {
        CommandModel::Header
    } else if behind(input, "/new"@) is Some {
        CommandModel::New
    } else if let Some(s) = behind(input, "/theme"@) {
        CommandModel::Theme(s)
    } else if let Some(s) = run_line(input) {
        CommandModel::Run(s)
    } else {
        CommandModel::Prompt
    }
}

/// Whether a command is done while something runs.
pub open spec fn runs_while_busy(c: CommandModel) -> bool {
    match c {
        CommandModel::Model(_) => true,
        CommandModel::Channel => true,
        CommandModel::Options => true,
        CommandModel::Header => true,
        CommandModel::New => true,
        CommandModel::Theme(_) => true,
        _ => false,
    }
}

fn text_behind(input: &str, command: &str) -> (r: Option<String>)
    ensures
        text::opt_view(r) == behind(input@, command@),
{
    let spaced = text::concat(command, " ");
    if text::same_text(input, command) || text::begins_with(input, spaced.as_str()) {
        proof {
            assert(spaced@ == command@ + " "@);
            if spaced@.is_prefix_of(input@) {
                assert(command@.is_prefix_of(input@)) by {
                    assert(command@ =~= spaced@.take(command@.len() as int));
                    assert(command@ =~= input@.take(command@.len() as int));
                }
            } else {
                assert(command@.is_prefix_of(input@));
            }
        }
        match text::strip_prefix(input, command) {
            Some(rest) => Some(text::trim(rest.as_str())),
            None => None,
        }
    } else {
        None
    }
}

fn needed_text_behind(input: &str, command: &str) -> (r: Option<String>)
    ensures
        text::opt_view(r) == needed_behind(input@, command@),
{
    let spaced = text::concat(command, " ");
    proof {
        reveal_strlit(" ");
        assert(spaced@.len() == command@.len() + 1);
    }
    match text::strip_prefix(input, spaced.as_str()) {
        Some(rest) => {
            let t = text::trim(rest.as_str());
            if t.as_str().is_empty() {
                None
            } else {
                Some(t)
            }
        },
        None => None,
    }
}

/// The command line behind `/run`.
pub fn parse_run_line(input: &str) -> (r: Option<String>)
    ensures
        text::opt_view(r) == run_line(input@),
{
    match text::strip_prefix(input, "/run") {
        None => None,
        Some(rest) => {
            let cs = text::chars_of(rest.as_str());
            if cs.len() > 0 && !text::is_white_char(cs[0]) {
                None
            } else {
                Some(text::trim(rest.as_str()))
            }
        },
    }
}

fn parse_rest(input: &str) -> (r: Command)
    requires
        input@ != "/compact"@,
        input@ != "/end"@,
        needed_behind(input@, "/branch"@) is None,
        needed_behind(input@, "/commit"@) is None,
        behind(input@, "/model"@) is None,
    ensures
        r@ == command_of(input@),
{
    if text_behind(input, "/channel").is_some() {
        return Command::Channel;
    }
    if text_behind(input, "/options").is_some() {
        return Command::Options;
    }
    if text_behind(input, "/header").is_some() {
        return Command::Header;
    }
    if text_behind(input, "/new").is_some() {
        return Command::New;
    }
    if let Some(s) = text_behind(input, "/theme") {
        return Command::Theme(s);
    }
    match parse_run_line(input) {
        Some(s) => Command::Run(s),
        None => Command::Prompt,
    }
}

/// Reads what an input asks for.
pub fn parse_command(input: &str) -> (r: Command)
    ensures
        r@ == command_of(input@),
{
    if text::same_text(input, "/compact") {
        return Command::Compact;
    }
    if text::same_text(input, "/end") {
        return Command::End;
    }
    if let Some(s) = needed_text_behind(input, "/branch") {
        return Command::Branch(s);
    }
    if let Some(s) = needed_text_behind(input, "/commit") {
        return Command::Commit(s);
    }
    if let Some(s) = text_behind(input, "/model") {
        return Command::Model(s);
    }
    parse_rest(input)
}

fn is_done_while_busy(c: &Command) -> (r: bool)
    ensures
        r == runs_while_busy(c@),
{
    match c {
        Command::Model(_) => true,
        Command::Channel => true,
        Command::Options => true,
        Command::Header => true,
        Command::New => true,
        Command::Theme(_) => true,
        _ => false,
    }
}

// ---------------------------------------------------------------------------
// What the commands do
// ---------------------------------------------------------------------------
/// The session with a command of the user running.
pub open spec fn running(s: session::SessionModel, command: Seq<char>) -> session::SessionModel {
    session::SessionModel {
        chat_follow: true,
        chat_anchor: ChatAnchor { block: 0, offset: 0 },
        chat_scroll_delta: None,
        cancel: false,
        phase: Phase::WaitingForTool,
        active_tool_label: Some("run "@ + command),
        ..state::cleared(session::noted(s, "/run "@ + command))
    }
}

/// State and work to run a command of the user.
#[verifier::opaque]
pub open spec fn run_asked(m: AppModel, command: Seq<char>) -> (AppModel, types::TaskModel) {
    if m.current().channel is None {
        (m.telling("/run needs a bound channel (Alt+O)."@), types::TaskModel::Nothing)
    } else if command.len() == 0 {
        (
            m.telling("Usage: /run <shell-command> (e.g. /run cargo build && git status)"@),
            types::TaskModel::Nothing,
        )
    } else {
        (
            m.with_current(running(m.current(), command)),
            types::TaskModel::Run { session: m.current().id, command },
        )
    }
}

/// The session with its history about to be summarised.
pub open spec fn about_to_summarise(s: session::SessionModel) -> session::SessionModel {
    session::SessionModel {
        retrying: None,
        compacting: false,
        cancel: false,
        ..state::cleared(s)
    }
}

/// State and work to summarise the history.
#[verifier::opaque]
pub open spec fn summary_asked(m: AppModel) -> (AppModel, types::TaskModel) {
    let s = m.current();
    match state::chosen_endpoint(m.config, m.models, s.model_alias) {
        Err(e) => (m.saying(e), types::TaskModel::Nothing),
        Ok(endpoint) => (
            m.with_current(about_to_summarise(s)),
            types::TaskModel::Summarise {
                session: s.id,
                endpoint,
                messages: wire::projection(s.chat),
            },
        ),
    }
}

/// The name and the display of a model that the configuration names.
pub open spec fn named_model(
    m: models::RegistryModel,
    alias: Seq<char>,
    id: Seq<char>,
) -> (Seq<char>, Seq<char>) {
    let k = models::alias_at(m.entries, alias);
    let key = if k < m.entries.len() {
        models::key_of(m.entries[k].1)
    } else {
        match text::split_once(id, '/') {
            Some((p, _)) => models::slashed(p, alias),
            None => alias,
        }
    };
    (
        key,
        match table::lookup(m.entries, key) {
            Some(e) => models::full_display(e),
            None => alias + " ("@ + id + ")"@,
        },
    )
}

/// The models that can be named, in words.
pub open spec fn available(c: Config) -> Seq<char> {
    if c.models@.len() == 0 {
        "keine konfiguriert ([models.<alias>] in config.toml)"@
    } else {
        text::joined(table::keys(c.models@), ", "@)
    }
}

/// Model and message after a model was named: that of the configuration, else a known one.
pub open spec fn model_named(m: AppModel, arg: Seq<char>) -> (Option<Seq<char>>, Seq<char>) {
    match table::lookup(m.config.models@, arg) {
        Some(mc) => {
            let (key, display) = named_model(m.models, arg, config::id_of(mc));
            (Some(key), "Model for this session: "@ + display)
        },
        None => match table::lookup(m.models.entries, arg) {
            Some(e) => (Some(arg), "Model for this session: "@ + models::full_display(e)),
            None => (
                m.current().model_alias,
                "Unknown model \""@ + arg + "\". Available: "@ + available(m.config),
            ),
        },
    }
}

/// The state after the command for models: without a name the list opens.
#[verifier::opaque]
pub open spec fn model_asked(m: AppModel, arg: Seq<char>) -> AppModel {
    if arg.len() == 0 {
        picker::with_models(m.with_current(state::cleared(m.current())))
    } else {
        let s = state::cleared(session::noted(m.current(), "/model "@ + arg));
        let (alias, message) = model_named(m, arg);
        m.with_current(
            session::SessionModel { model_alias: alias, error: Some(message), ..s },
        )
    }
}

/// State and work to commit: the channel needs a directory.
#[verifier::opaque]
pub open spec fn commit_asked(m: AppModel, message: Seq<char>) -> (AppModel, types::TaskModel) {
    match m.current().channel {
        None => (m.saying("/commit needs a bound channel (Alt+O)."@), types::TaskModel::Nothing),
        Some(c) => match c.says().host_root {
            Some(host) => (m, types::TaskModel::CheckCommit { host, message }),
            None => (
                m.saying("/commit is only possible with a channel bound to a repo."@),
                types::TaskModel::Nothing,
            ),
        },
    }
}

/// State and work after it was found out whether a directory is a repository.
pub open spec fn commit_checked_in(
    m: AppModel,
    host: Seq<char>,
    message: Seq<char>,
    is_root: bool,
) -> (AppModel, types::TaskModel) {
    if is_root {
        (
            m.with_current(state::cleared(session::noted(m.current(), "/commit "@ + message))),
            types::TaskModel::Commit { host, message },
        )
    } else {
        (
            m.saying("/commit is only possible with a channel bound to a repo."@),
            types::TaskModel::Nothing,
        )
    }
}

/// The state after a commit.
pub open spec fn commit_made(m: AppModel, message: Seq<char>, result: Result<bool, Seq<char>>) -> AppModel {
    m.saying(
        match result {
            Ok(true) => "Commit created: "@ + message,
            Ok(false) => "Nothing to commit."@,
            Err(e) => "Commit failed: "@ + e,
        },
    )
}

/// State and work for another theme.
#[verifier::opaque]
pub open spec fn theme_asked(m: AppModel, arg: Seq<char>) -> (AppModel, types::TaskModel) {
    let s = state::cleared(session::noted(m.current(), "/theme "@ + arg));
    let theme = config::theme_of(arg);
    (
        m.with_current(session::SessionModel { error: Some("theme → "@ + theme), ..s }),
        types::TaskModel::Theme(theme),
    )
}

/// The state with a new session, after the input was taken.
#[verifier::opaque]
pub open spec fn session_asked(m: AppModel) -> AppModel {
    state::with_new_session(m.with_current(state::cleared(m.current())))
}

/// What is known of the size of the next prompt: what the server counted, else an estimate that
/// does not shrink.
pub open spec fn prompt_size(s: session::SessionModel) -> u64 {
    match session::current_usage(s.chat) {
        Some(u) => u.prompt_tokens,
        None => {
            let est = session::guessed_tokens(s.chat);
            let least = if est > 1 {
                est
            } else {
                1
            };
            if s.prompt_base > least {
                s.prompt_base
            } else {
                least
            }
        },
    }
}

/// The session with its input sent to a model.
pub open spec fn sent(s: session::SessionModel, model: Seq<char>, t: Instant) -> session::SessionModel {
    let content = text::trimmed(s.editor.text);
    let n = session::prompted(
        session::noted(s, content),
        content,
        Some(s.permission),
        model,
        t,
    );
    session::SessionModel {
        retrying: None,
        aborted: false,
        prompt_base: prompt_size(s),
        live_usage_total: None,
        chat_follow: true,
        chat_anchor: ChatAnchor { block: 0, offset: 0 },
        chat_scroll_delta: None,
        compacting: false,
        active_model: Some(model),
        sent_at: Some(t),
        cancel: false,
        phase: Phase::WaitingForLLM,
        ..state::cleared(n)
    }
}

/// State and work to send the input of a session.
#[verifier::opaque]
pub open spec fn prompt_sent(m: AppModel, i: int, t: Instant, threshold: u64) -> (
    AppModel,
    types::TaskModel,
) {
    let s = m.sessions[i];
    match state::chosen_endpoint(m.config, m.models, s.model_alias) {
        Err(e) => (
            m.with_session(i, session::SessionModel { error: Some(e), ..s }),
            types::TaskModel::Nothing,
        ),
        Ok(endpoint) => {
            let n = sent(s, endpoint.model, t);
            (
                m.with_session(i, n),
                types::TaskModel::Worker {
                    session: s.id,
                    endpoint,
                    messages: wire::projection(n.chat),
                    permission: s.permission,
                    compact: session::is_too_long(
                        s.chat,
                        m.config.compact_keep_turns as nat,
                        threshold,
                    ),
                    mode: m.local_exec_mode,
                },
            )
        },
    }
}

/// Whether the user is asked before the input is sent: it may run commands on the host.
pub open spec fn needs_consent(m: AppModel) -> bool {
    &&& m.current().permission == Permission::Execute
    &&& (m.current().channel matches Some(c) && c.says().kind == ChannelKind::Local)
    &&& m.local_exec_mode == LocalExecMode::Ask
}

/// State and work to send the input of the active session, after consent where it is needed.
#[verifier::opaque]
pub open spec fn prompt_asked(m: AppModel, t: Instant, threshold: u64) -> (
    AppModel,
    types::TaskModel,
) {
    if needs_consent(m) {
        (
            AppModel {
                pre_send_confirm: Some(
                    PreSendConfirm {
                        session: m.active as usize,
                        nav: ListNav { len: 3, cursor: 2, offset: 0, wrap: false },
                    },
                ),
                ..m
            },
            types::TaskModel::Nothing,
        )
    } else {
        prompt_sent(m, m.active, t, threshold)
    }
}

impl App {
    fn mark_running(&mut self, command: &str)
        requires
            old(self).ready(),
        ensures
            final(self).ready(),
            final(self)@ == old(self)@.with_current(running(old(self)@.current(), command@)),
    {
        broadcast use session::lemma_session_changed;

        let i: usize = self.active;
        let s = &mut self.sessions[i];
        s.push_history(text::concat("/run ", command).as_str());
        s.editor.clear();
        s.error = None;
        s.error_debug = None;
        s.chat_follow = true;
        s.chat_anchor = ChatAnchor::default();
        s.chat_scroll_delta = None;
        s.cancel = false;
        s.phase = Phase::WaitingForTool;
        s.active_tool_label = Some(text::concat("run ", command));
    }

    /// Runs a command of the user through the channel.
    pub fn user_run(&mut self, command: String) -> (r: Task)
        requires
            old(self).ready(),
        ensures
            final(self).ready(),
            (final(self)@, r@) == run_asked(old(self)@, command@),
    {
        proof {
            reveal(run_asked);
        }
        if self.sessions[self.active].channel.is_none() {
            self.tell("/run needs a bound channel (Alt+O).".to_string());
            return Task::Nothing;
        }
        if command.as_str().is_empty() {
            self.tell(
                "Usage: /run <shell-command> (e.g. /run cargo build && git status)".to_string(),
            );
            return Task::Nothing;
        }
        let session: usize = self.sessions[self.active].id;
        self.mark_running(command.as_str());
        Task::Run { session, command }
    }

    fn prepare_summary(&mut self)
        requires
            old(self).ready(),
        ensures
            final(self).ready(),
            final(self)@ == old(self)@.with_current(about_to_summarise(old(self)@.current())),
    {
        broadcast use session::lemma_session_changed;

        let i: usize = self.active;
        let s = &mut self.sessions[i];
        s.editor.clear();
        s.error = None;
        s.error_debug = None;
        s.retrying = None;
        s.compacting = false;
        s.cancel = false;
    }

    fn messages_of(&self, i: usize) -> (r: Vec<crate::llm::WireMessage>)
        requires
            self.wf(),
            i < self.sessions@.len(),
        ensures
            crate::llm::message_views(r@) == wire::projection(self@.sessions[i as int].chat),
    {
        proof {
            reveal(session::sound);
            assert(self.sessions@[i as int].wf());
        }
        api_messages(&self.sessions[i].chat)
    }

    /// Summarises the history of the active session.
    pub fn user_compact(&mut self) -> (r: Task)
        requires
            old(self).ready(),
        ensures
            final(self).ready(),
            (final(self)@, r@) == summary_asked(old(self)@),
    {
        proof {
            reveal(summary_asked);
        }
        match self.resolve_endpoint(self.active) {
            Err(e) => {
                self.say(e);
                Task::Nothing
            },
            Ok(endpoint) => {
                let messages = self.messages_of(self.active);
                let session = self.sessions[self.active].id;
                self.prepare_summary();
                Task::Summarise { session, endpoint, messages }
            },
        }
    }

    /// Takes the input of the active session away, with its messages.
    pub fn clear_input(&mut self)
        requires
            old(self).ready(),
        ensures
            final(self).ready(),
            final(self)@ == old(self)@.with_current(state::cleared(old(self)@.current())),
    {
        broadcast use session::lemma_session_changed;

        let i: usize = self.active;
        let s = &mut self.sessions[i];
        s.editor.clear();
        s.error = None;
        s.error_debug = None;
    }

    /// Notes a command and takes the input away.
    fn note_and_clear(&mut self, command: &str)
        requires
            old(self).ready(),
        ensures
            final(self).ready(),
            final(self)@ == old(self)@.with_current(
                state::cleared(session::noted(old(self)@.current(), command@)),
            ),
    {
        broadcast use session::lemma_session_changed;

        let i: usize = self.active;
        let s = &mut self.sessions[i];
        s.push_history(command);
        s.editor.clear();
        s.error = None;
        s.error_debug = None;
    }

    fn note_and_say(&mut self, command: &str, message: String)
        requires
            old(self).ready(),
        ensures
            final(self).ready(),
            final(self)@ == old(self)@.with_current(
                session::SessionModel {
                    error: Some(message@),
                    ..state::cleared(session::noted(old(self)@.current(), command@))
                },
            ),
    {
        broadcast use session::lemma_session_changed;

        let i: usize = self.active;
        let s = &mut self.sessions[i];
        s.push_history(command);
        s.editor.clear();
        s.error = Some(message);
        s.error_debug = None;
    }

    fn key_and_display(&self, alias: &str, id: &str) -> (r: (String, String))
        requires
            self.wf(),
        ensures
            (r.0@, r.1@) == named_model(self@.models, alias@, id@),
    {
        let key = match self.model_registry.get_by_alias(alias) {
            Some(e) => e.key(),
            None => match text::split_once_text(id, '/') {
                Some((p, _rest)) => text::concat3(p.as_str(), "/", alias),
                None => alias.to_string(),
            },
        };
        let display = match self.model_registry.get(key.as_str()) {
            Some(e) => e.display_full(),
            None => {
                let mut d = text::concat3(alias, " (", id);
                d.append(")");
                d
            },
        };
        (key, display)
    }

    fn available_models(&self) -> (r: String)
        requires
            self.wf(),
        ensures
            r@ == available(self.config),
    {
        let names = self.config.model_names();
        assert(text::views(names@).len() == self.config.models@.len());
        if names.len() == 0 {
            "keine konfiguriert ([models.<alias>] in config.toml)".to_string()
        } else {
            text::join_texts(&names, ", ")
        }
    }

    fn find_named_model(&self, arg: &str) -> (r: (Option<String>, String))
        requires
            self.ready(),
        ensures
            (text::opt_view(r.0), r.1@) == model_named(self@, arg@),
    {
        match self.config.models.get(arg) {
            Some(mc) => {
                let (key, display) = self.key_and_display(arg, mc.id());
                (Some(key), text::concat("Model for this session: ", display.as_str()))
            },
            None => match self.model_registry.get(arg) {
                Some(e) => (
                    Some(arg.to_string()),
                    text::concat("Model for this session: ", e.display_full().as_str()),
                ),
                None => {
                    let mut message = text::concat3("Unknown model \"", arg, "\". Available: ");
                    message.append(self.available_models().as_str());
                    (text::copy_opt(&self.sessions[self.active].model_alias), message)
                },
            },
        }
    }

    fn name_model(&mut self, arg: &str)
        requires
            old(self).ready(),
            arg@.len() > 0,
        ensures
            final(self).ready(),
            final(self)@ == model_asked(old(self)@, arg@),
    {
        proof {
            reveal(model_asked);
        }
        broadcast use session::lemma_session_changed;

        let (alias, message) = self.find_named_model(arg);
        let i: usize = self.active;
        let s = &mut self.sessions[i];
        s.push_history(text::concat("/model ", arg).as_str());
        s.editor.clear();
        s.error = Some(message);
        s.error_debug = None;
        s.model_alias = alias;
    }

    /// Chooses a model for the active session; without a name the list opens.
    pub fn user_model(&mut self, arg: &str)
        requires
            old(self).ready(),
        ensures
            final(self).ready(),
            final(self)@ == model_asked(old(self)@, arg@),
    {
        if arg.is_empty() {
            proof {
                reveal(model_asked);
            }
            self.clear_input();
            self.open_model_picker();
        } else {
            self.name_model(arg);
        }
    }

    /// Commits everything in the directory of the channel.
    pub fn user_commit(&mut self, message: String) -> (r: Task)
        requires
            old(self).ready(),
        ensures
            final(self).ready(),
            (final(self)@, r@) == commit_asked(old(self)@, message@),
    {
        proof {
            reveal(commit_asked);
        }
        let host = match &self.sessions[self.active].channel {
            Some(c) => c.data.host_root(),
            None => {
                self.say("/commit needs a bound channel (Alt+O).".to_string());
                return Task::Nothing;
            },
        };
        match host {
            Some(host) => Task::CheckCommit { host, message },
            None => {
                self.say("/commit is only possible with a channel bound to a repo.".to_string());
                Task::Nothing
            },
        }
    }

    /// Goes on when it was found out whether the directory is a repository.
    pub fn commit_checked(&mut self, host: String, message: String, is_root: bool) -> (r: Task)
        requires
            old(self).ready(),
        ensures
            final(self).ready(),
            (final(self)@, r@) == commit_checked_in(old(self)@, host@, message@, is_root),
    {
        if is_root {
            self.note_and_clear(text::concat("/commit ", message.as_str()).as_str());
            Task::Commit { host, message }
        } else {
            self.say("/commit is only possible with a channel bound to a repo.".to_string());
            Task::Nothing
        }
    }

    /// Says how a commit went. The result says whether there was something to commit.
    pub fn committed(&mut self, message: &str, result: Result<bool, String>)
        requires
            old(self).ready(),
        ensures
            final(self).ready(),
            final(self)@ == commit_made(
                old(self)@,
                message@,
                match result {
                    Ok(b) => Ok(b),
                    Err(e) => Err(e@),
                },
            ),
    {
        let words = match result {
            Ok(true) => text::concat("Commit created: ", message),
            Ok(false) => "Nothing to commit.".to_string(),
            Err(e) => text::concat("Commit failed: ", e.as_str()),
        };
        self.say(words);
    }

    fn user_theme(&mut self, arg: &str) -> (r: Task)
        requires
            old(self).ready(),
        ensures
            final(self).ready(),
            (final(self)@, r@) == theme_asked(old(self)@, arg@),
    {
        proof {
            reveal(theme_asked);
        }
        let theme = config::normalize_theme(arg);
        self.note_and_say(
            text::concat("/theme ", arg).as_str(),
            text::concat("theme → ", theme.as_str()),
        );
        Task::Theme(theme)
    }

    fn user_new(&mut self)
        requires
            old(self).ready(),
        ensures
            final(self).ready(),
            final(self)@ == session_asked(old(self)@),
    {
        proof {
            reveal(session_asked);
        }
        self.clear_input();
        self.new_session();
    }

    fn mark_sent(&mut self, i: usize, model: &str, now: Instant)
        requires
            old(self).ready(),
            i < old(self).sessions@.len(),
        ensures
            final(self).ready(),
            final(self)@ == old(self)@.with_session(
                i as int,
                sent(old(self)@.sessions[i as int], model@, now),
            ),
    {
        broadcast use session::lemma_session_changed;

        assert(self.sessions@[i as int].wf());
        let base = size_of_prompt(&self.sessions[i]);
        let s = &mut self.sessions[i];
        let content = text::trim(s.editor.text_string().as_str());
        let permission = s.permission;
        s.push_history(content.as_str());
        s.push_user_message(content, Some(permission), model.to_string(), now);
        s.editor.clear();
        s.error = None;
        s.error_debug = None;
        s.retrying = None;
        s.aborted = false;
        s.prompt_base = base;
        s.live_usage_total = None;
        s.chat_follow = true;
        s.chat_anchor = ChatAnchor::default();
        s.chat_scroll_delta = None;
        s.compacting = false;
        s.active_model = Some(model.to_string());
        s.sent_at = Some(now);
        s.cancel = false;
        s.phase = Phase::WaitingForLLM;
    }

    fn set_session_error(&mut self, i: usize, message: String)
        requires
            old(self).ready(),
            i < old(self).sessions@.len(),
        ensures
            final(self).ready(),
            final(self)@ == old(self)@.with_session(
                i as int,
                session::SessionModel {
                    error: Some(message@),
                    ..old(self)@.sessions[i as int]
                },
            ),
    {
        broadcast use session::lemma_session_changed;

        self.sessions[i].error = Some(message);
    }

    /// Sends the input of a session.
    pub fn send_prompt(&mut self, i: usize, at: &Moment) -> (r: Task)
        requires
            old(self).ready(),
            i < old(self).sessions@.len(),
        ensures
            final(self).ready(),
            (final(self)@, r@) == prompt_sent(old(self)@, i as int, at.now, at.threshold),
    {
        proof {
            reveal(prompt_sent);
        }
        match self.resolve_endpoint(i) {
            Err(e) => {
                self.set_session_error(i, e);
                Task::Nothing
            },
            Ok(endpoint) => {
                assert(self.sessions@[i as int].wf());
                let compact = should_compact(
                    &self.sessions[i],
                    self.config.compact_keep_turns,
                    at.threshold,
                );
                let permission = self.sessions[i].permission;
                let session = self.sessions[i].id;
                let mode = self.local_exec_mode;
                let ghost m = self@;
                self.mark_sent(i, endpoint.model.as_str(), at.now);
                assert(self@.sessions.len() == m.sessions.len());
                let messages = self.messages_of(i);
                Task::Worker { session, endpoint, messages, permission, compact, mode }
            },
        }
    }

    fn consent_needed(&self) -> (r: bool)
        requires
            self.ready(),
        ensures
            r == needs_consent(self@),
    {
        let s = &self.sessions[self.active];
        assert(self@.current() == s@);
        let on_host = match &s.channel {
            Some(c) => c.data.kind() == ChannelKind::Local,
            None => false,
        };
        s.permission == Permission::Execute && on_host && self.local_exec_mode
            == LocalExecMode::Ask
    }

    fn user_prompt(&mut self, at: &Moment) -> (r: Task)
        requires
            old(self).ready(),
        ensures
            final(self).ready(),
            (final(self)@, r@) == prompt_asked(old(self)@, at.now, at.threshold),
    {
        proof {
            reveal(prompt_asked);
        }
        let ghost m = self@;
        if self.consent_needed() {
            let d = PreSendConfirm { session: self.active, nav: ListNav::new_at(3, 2) };
            self.pre_send_confirm = Some(d);
            assert(self@ == AppModel { pre_send_confirm: Some(d), ..m });
            Task::Nothing
        } else {
            let i: usize = self.active;
            self.send_prompt(i, at)
        }
    }

    /// Tells the worker of the active session to stop, where one runs.
    pub fn handle_esc(&mut self)
        requires
            old(self).ready(),
        ensures
            final(self).ready(),
            final(self)@ == escaped(old(self)@),
    {
        if self.sessions[self.active].phase != Phase::Idle {
            self.stop_active();
        }
    }
}

/// The state with the worker of the active session told to stop, where one runs.
pub open spec fn escaped(m: AppModel) -> AppModel {
    if m.current().phase != Phase::Idle {
        m.with_current(session::SessionModel { cancel: true, ..m.current() })
    } else {
        m
    }
}

fn size_of_prompt(s: &Session) -> (r: u64)
    requires
        s.wf(),
    ensures
        r == prompt_size(s@),
{
    match s.last_usage_current() {
        Some(u) => u.prompt_tokens,
        None => {
            let est: u64 = prompt_chars(s) / 4;
            let least: u64 = if est > 1 {
                est
            } else {
                1
            };
            if s.prompt_base > least {
                s.prompt_base
            } else {
                least
            }
        },
    }
}

// ---------------------------------------------------------------------------
// Enter
// ---------------------------------------------------------------------------
/// The state with an empty input and the headers of the last answer shown.
pub open spec fn headers_asked(m: AppModel) -> AppModel {
    AppModel {
        http_headers_dialog: true,
        ..m.with_current(state::cleared(m.current()))
    }
}

/// State and work after a command.
#[verifier::opaque]
pub open spec fn command_run(m: AppModel, c: CommandModel, t: Instant, threshold: u64) -> (
    AppModel,
    types::TaskModel,
) {
    let empty = m.with_current(state::cleared(m.current()));
    match c {
        CommandModel::Compact => summary_asked(m),
        CommandModel::End => close::session_closing(m),
        CommandModel::Branch(name) => branch::branch_asked(m, name),
        CommandModel::Commit(message) => commit_asked(m, message),
        CommandModel::Model(arg) => (model_asked(m, arg), types::TaskModel::Nothing),
        CommandModel::Channel => (picker::with_channels(empty), types::TaskModel::Nothing),
        CommandModel::Options => (state::with_options(empty), types::TaskModel::Nothing),
        CommandModel::Header => (headers_asked(m), types::TaskModel::Nothing),
        CommandModel::New => (session_asked(m), types::TaskModel::Nothing),
        CommandModel::Theme(arg) => theme_asked(m, arg),
        CommandModel::Run(command) => run_asked(m, command),
        CommandModel::Prompt => prompt_asked(m, t, threshold),
    }
}

/// State and work after the input was taken. While something runs only what does not disturb it
/// is done; anything else stays in the input.
#[verifier::opaque]
pub open spec fn entered(m: AppModel, t: Instant, threshold: u64) -> (AppModel, types::TaskModel) {
    let input = text::trimmed(m.current().editor.text);
    if input.len() == 0 {
        (m, types::TaskModel::Nothing)
    } else if m.current().phase != Phase::Idle && !runs_while_busy(command_of(input)) {
        (m, types::TaskModel::Nothing)
    } else {
        command_run(m, command_of(input), t, threshold)
    }
}

impl App {
    fn user_channel(&mut self)
        requires
            old(self).ready(),
        ensures
            final(self).ready(),
            final(self)@ == picker::with_channels(
                old(self)@.with_current(state::cleared(old(self)@.current())),
            ),
    {
        self.clear_input();
        self.open_channel_picker();
    }

    fn user_options(&mut self)
        requires
            old(self).ready(),
        ensures
            final(self).ready(),
            final(self)@ == state::with_options(
                old(self)@.with_current(state::cleared(old(self)@.current())),
            ),
    {
        self.clear_input();
        let ghost m = self@;
        self.open_options_dialog();
        assert(self@.sessions == m.sessions);
    }

    fn user_header(&mut self)
        requires
            old(self).ready(),
        ensures
            final(self).ready(),
            final(self)@ == headers_asked(old(self)@),
    {
        self.clear_input();
        self.http_headers_dialog = true;
    }

    /// Does what a command asks for.
    pub fn run_command(&mut self, c: Command, at: &Moment) -> (r: Task)
        requires
            old(self).ready(),
        ensures
            final(self).wf(),
            final(self)@.sessions.len() > 0 ==> final(self).ready(),
            (final(self)@, r@) == command_run(old(self)@, c@, at.now, at.threshold),
    {
        proof {
            reveal(command_run);
        }
        match c {
            Command::Compact => self.user_compact(),
            Command::End => self.close_session(),
            Command::Branch(name) => self.user_branch(name),
            Command::Commit(message) => self.user_commit(message),
            Command::Model(arg) => {
                self.user_model(arg.as_str());
                Task::Nothing
            },
            Command::Channel => {
                self.user_channel();
                Task::Nothing
            },
            Command::Options => {
                self.user_options();
                Task::Nothing
            },
            Command::Header => {
                self.user_header();
                Task::Nothing
            },
            Command::New => {
                self.user_new();
                Task::Nothing
            },
            Command::Theme(arg) => self.user_theme(arg.as_str()),
            Command::Run(command) => self.user_run(command),
            Command::Prompt => self.user_prompt(at),
        }
    }

    fn input_of_active(&self) -> (r: String)
        requires
            self.ready(),
        ensures
            r@ == text::trimmed(self@.current().editor.text),
    {
        assert(self.sessions@[self.active as int].wf());
        let whole = self.sessions[self.active].editor.text_string();
        text::trim(whole.as_str())
    }

    /// Takes the input of the active session.
    pub fn handle_enter(&mut self, at: &Moment) -> (r: Task)
        requires
            old(self).ready(),
        ensures
            final(self).wf(),
            final(self)@.sessions.len() > 0 ==> final(self).ready(),
            (final(self)@, r@) == entered(old(self)@, at.now, at.threshold),
    {
        proof {
            reveal(entered);
        }
        let input = self.input_of_active();
        if input.as_str().is_empty() {
            return Task::Nothing;
        }
        let c = parse_command(input.as_str());
        if self.sessions[self.active].phase != Phase::Idle && !is_done_while_busy(&c) {
            return Task::Nothing;
        }
        self.run_command(c, at)
    }
}

// ---------------------------------------------------------------------------
// Laws
// ---------------------------------------------------------------------------
/// An input that needs consent is not sent before it: nothing goes to the model, and not sending
/// is marked.
pub proof fn law_commands_on_the_host_need_consent(m: AppModel, t: Instant, threshold: u64)
    requires
        needs_consent(m),
        0 <= m.active <= usize::MAX,
    ensures
        prompt_asked(m, t, threshold).1 == types::TaskModel::Nothing,
        prompt_asked(m, t, threshold).0.sessions == m.sessions,
        (prompt_asked(m, t, threshold).0.pre_send_confirm->0).nav.cursor == 2,
{
    reveal(prompt_asked);
}

/// What is sent goes to the model with everything from the last summary on, under the level that
/// was chosen, and the level stays for the next prompt.
pub proof fn law_a_prompt_goes_out_with_its_level(m: AppModel, i: int, t: Instant, threshold: u64)
    requires
        0 <= i < m.sessions.len(),
        state::chosen_endpoint(m.config, m.models, m.sessions[i].model_alias) is Ok,
    ensures
        ({
            let (n, task) = prompt_sent(m, i, t, threshold);
            &&& (task matches types::TaskModel::Worker { session, messages, permission, .. }
                && session == m.sessions[i].id && permission == m.sessions[i].permission
                && messages == wire::projection(n.sessions[i].chat))
            &&& n.sessions[i].permission == m.sessions[i].permission
            &&& n.sessions[i].phase == Phase::WaitingForLLM
            &&& n.sessions[i].editor.text.len() == 0
        }),
{
    reveal(prompt_sent);
}

/// Commands leave no trace in what goes to the model.
pub proof fn law_commands_do_not_reach_the_model(m: AppModel, arg: Seq<char>)
    requires
        0 <= m.active < m.sessions.len(),
        arg.len() > 0,
    ensures
        run_asked(m, arg).0.current().chat == m.current().chat,
        model_asked(m, arg).current().chat == m.current().chat,
        commit_asked(m, arg).0.current().chat == m.current().chat,
        theme_asked(m, arg).0.current().chat == m.current().chat,
{
    reveal(run_asked);
    reveal(model_asked);
    reveal(commit_asked);
    reveal(theme_asked);
}

/// What begins with a command and a blank, or is the command alone, is that command with what stands
/// behind it; a word that only begins like a command is a prompt.
pub proof fn law_commands_are_known_by_their_first_word(arg: Seq<char>)
    requires
        arg.len() > 0,
        !text::is_white(arg[0]),
        !text::is_white(arg.last()),
    ensures
        command_of("/compact"@) == CommandModel::Compact,
        command_of("/end"@) == CommandModel::End,
        command_of("/branch"@ + " "@ + arg) == CommandModel::Branch(arg),
        command_of("/commit"@ + " "@ + arg) == CommandModel::Commit(arg),
        command_of("/model"@ + " "@ + arg) == CommandModel::Model(arg),
        command_of("/theme"@ + " "@ + arg) == CommandModel::Theme(arg),
        command_of("/run"@ + " "@ + arg) == CommandModel::Run(arg),
        command_of("/channel"@) == CommandModel::Channel,
        command_of("/options"@) == CommandModel::Options,
        command_of("/header"@) == CommandModel::Header,
        command_of("/new"@) == CommandModel::New,
        command_of("/model"@) == CommandModel::Model(Seq::empty()),
        command_of("/run"@) == CommandModel::Run(Seq::empty()),
{
    lemma_is_branch(arg);
    lemma_is_commit(arg);
    lemma_is_model(arg);
    lemma_is_theme(arg);
    lemma_is_run(arg);
    lemma_bare_words();
}

proof fn lemma_is_branch(arg: Seq<char>)
    requires
        arg.len() > 0,
        !text::is_white(arg[0]),
        !text::is_white(arg.last()),
    ensures
        command_of("/branch"@ + " "@ + arg) == CommandModel::Branch(arg),
{
    let input = "/branch"@ + " "@ + arg;
    lemma_words_of_commands();
    assert(input[1] == 'b');
    lemma_one_command(input, 'b');
    lemma_word_and_argument("/branch"@, arg);
}

proof fn lemma_is_commit(arg: Seq<char>)
    requires
        arg.len() > 0,
        !text::is_white(arg[0]),
        !text::is_white(arg.last()),
    ensures
        command_of("/commit"@ + " "@ + arg) == CommandModel::Commit(arg),
{
    let input = "/commit"@ + " "@ + arg;
    lemma_words_of_commands();
    assert(input[1] == 'c');
    assert(input[4] == 'm');
    assert("/compact"@[4] == 'p');
    lemma_one_command(input, 'c');
    lemma_word_and_argument("/commit"@, arg);
}

proof fn lemma_is_model(arg: Seq<char>)
    requires
        arg.len() > 0,
        !text::is_white(arg[0]),
        !text::is_white(arg.last()),
    ensures
        command_of("/model"@ + " "@ + arg) == CommandModel::Model(arg),
{
    let input = "/model"@ + " "@ + arg;
    lemma_words_of_commands();
    assert(input[1] == 'm');
    lemma_one_command(input, 'm');
    lemma_word_and_argument("/model"@, arg);
}

proof fn lemma_is_theme(arg: Seq<char>)
    requires
        arg.len() > 0,
        !text::is_white(arg[0]),
        !text::is_white(arg.last()),
    ensures
        command_of("/theme"@ + " "@ + arg) == CommandModel::Theme(arg),
{
    let input = "/theme"@ + " "@ + arg;
    lemma_words_of_commands();
    assert(input[1] == 't');
    lemma_one_command(input, 't');
    lemma_word_and_argument("/theme"@, arg);
}

proof fn lemma_is_run(arg: Seq<char>)
    requires
        arg.len() > 0,
        !text::is_white(arg[0]),
        !text::is_white(arg.last()),
    ensures
        command_of("/run"@ + " "@ + arg) == CommandModel::Run(arg),
{
    let input = "/run"@ + " "@ + arg;
    lemma_words_of_commands();
    assert(input[1] == 'r');
    lemma_one_command(input, 'r');
    lemma_word_and_argument("/run"@, arg);
    assert(input.take(4) =~= "/run"@);
    assert(input[4] == ' ');
    assert(input.skip(4) =~= " "@ + arg);
}

#[verifier::rlimit(40)]
proof fn lemma_bare_words()
    ensures
        command_of("/compact"@) == CommandModel::Compact,
        command_of("/end"@) == CommandModel::End,
        command_of("/channel"@) == CommandModel::Channel,
        command_of("/options"@) == CommandModel::Options,
        command_of("/header"@) == CommandModel::Header,
        command_of("/new"@) == CommandModel::New,
        command_of("/model"@) == CommandModel::Model(Seq::empty()),
        command_of("/run"@) == CommandModel::Run(Seq::empty()),
{
    lemma_words_of_commands();
    assert("/end"@[1] == 'e' && "/compact"@[1] == 'c');
    assert(command_of("/channel"@) == CommandModel::Channel) by {
        let input = "/channel"@;
        assert(input[1] == 'c' && input[2] == 'h');
        assert("/compact"@[2] == 'o');
        lemma_one_command(input, 'c');
        lemma_alone(input);
        assert(("/commit"@ + " "@)[2] == 'o');
        if ("/commit"@ + " "@).is_prefix_of(input) {
            assert(input.take(("/commit"@ + " "@).len() as int)[2] == 'o');
        }
    }
    assert(command_of("/options"@) == CommandModel::Options) by {
        lemma_one_command("/options"@, 'o');
        lemma_alone("/options"@);
    }
    assert(command_of("/header"@) == CommandModel::Header) by {
        lemma_one_command("/header"@, 'h');
        lemma_alone("/header"@);
    }
    assert(command_of("/new"@) == CommandModel::New) by {
        lemma_one_command("/new"@, 'n');
        lemma_alone("/new"@);
    }
    assert(command_of("/model"@) == CommandModel::Model(Seq::empty())) by {
        lemma_one_command("/model"@, 'm');
        lemma_alone("/model"@);
    }
    assert(command_of("/run"@) == CommandModel::Run(Seq::empty())) by {
        lemma_one_command("/run"@, 'r');
        lemma_alone("/run"@);
        assert("/run"@.take(4) =~= "/run"@);
    }
}

proof fn lemma_words_of_commands()
    ensures
        "/branch"@ == seq!['/', 'b', 'r', 'a', 'n', 'c', 'h'],
        "/commit"@ == seq!['/', 'c', 'o', 'm', 'm', 'i', 't'],
        "/compact"@ == seq!['/', 'c', 'o', 'm', 'p', 'a', 'c', 't'],
        "/channel"@ == seq!['/', 'c', 'h', 'a', 'n', 'n', 'e', 'l'],
        "/end"@ == seq!['/', 'e', 'n', 'd'],
        "/model"@ == seq!['/', 'm', 'o', 'd', 'e', 'l'],
        "/options"@ == seq!['/', 'o', 'p', 't', 'i', 'o', 'n', 's'],
        "/header"@ == seq!['/', 'h', 'e', 'a', 'd', 'e', 'r'],
        "/new"@ == seq!['/', 'n', 'e', 'w'],
        "/theme"@ == seq!['/', 't', 'h', 'e', 'm', 'e'],
        "/run"@ == seq!['/', 'r', 'u', 'n'],
        " "@ == seq![' '],
{
    reveal_strlit("/branch");
    reveal_strlit("/commit");
    reveal_strlit("/compact");
    reveal_strlit("/channel");
    reveal_strlit("/end");
    reveal_strlit("/model");
    reveal_strlit("/options");
    reveal_strlit("/header");
    reveal_strlit("/new");
    reveal_strlit("/theme");
    reveal_strlit("/run");
    reveal_strlit(" ");
    assert("/branch"@ =~= seq!['/', 'b', 'r', 'a', 'n', 'c', 'h']);
    assert("/commit"@ =~= seq!['/', 'c', 'o', 'm', 'm', 'i', 't']);
    assert("/compact"@ =~= seq!['/', 'c', 'o', 'm', 'p', 'a', 'c', 't']);
    assert("/channel"@ =~= seq!['/', 'c', 'h', 'a', 'n', 'n', 'e', 'l']);
    assert("/end"@ =~= seq!['/', 'e', 'n', 'd']);
    assert("/model"@ =~= seq!['/', 'm', 'o', 'd', 'e', 'l']);
    assert("/options"@ =~= seq!['/', 'o', 'p', 't', 'i', 'o', 'n', 's']);
    assert("/header"@ =~= seq!['/', 'h', 'e', 'a', 'd', 'e', 'r']);
    assert("/new"@ =~= seq!['/', 'n', 'e', 'w']);
    assert("/theme"@ =~= seq!['/', 't', 'h', 'e', 'm', 'e']);
    assert("/run"@ =~= seq!['/', 'r', 'u', 'n']);
    assert(" "@ =~= seq![' ']);
}

proof fn lemma_word_and_argument(command: Seq<char>, arg: Seq<char>)
    requires
        arg.len() > 0,
        !text::is_white(arg[0]),
        !text::is_white(arg.last()),
    ensures
        behind(command + " "@ + arg, command) == Some(arg),
        needed_behind(command + " "@ + arg, command) == Some(arg),
        text::trimmed(" "@ + arg) == arg,
{
    reveal_strlit(" ");
    let s = command + " "@ + arg;
    assert(" "@ =~= seq![' ']);
    assert(s.take((command + " "@).len() as int) =~= command + " "@);
    assert(s.skip(command.len() as int) =~= " "@ + arg);
    assert(s.skip(command.len() as int + 1) =~= arg);
    assert(text::is_white(' '));
    text::law_trimming_takes_white_space_only(seq![' '], arg, Seq::empty());
    assert(seq![' '] + arg + Seq::<char>::empty() =~= " "@ + arg);
    text::lemma_trimmed_keeps(arg);
}

proof fn lemma_alone(command: Seq<char>)
    ensures
        behind(command, command) == Some(Seq::<char>::empty()),
        text::trimmed(command.skip(command.len() as int)) == Seq::<char>::empty(),
{
    assert(command.skip(command.len() as int) =~= Seq::<char>::empty());
    text::lemma_trimmed_keeps(Seq::empty());
}

proof fn lemma_one_command(input: Seq<char>, c: char)
    requires
        input.len() > 1,
        input[1] == c,
    ensures
        c != 'b' ==> needed_behind(input, "/branch"@) is None,
        c != 'c' ==> needed_behind(input, "/commit"@) is None && behind(input, "/channel"@) is None
            && input != "/compact"@,
        c != 'm' ==> behind(input, "/model"@) is None,
        c != 'o' ==> behind(input, "/options"@) is None,
        c != 'h' ==> behind(input, "/header"@) is None,
        c != 'n' ==> behind(input, "/new"@) is None,
        c != 't' ==> behind(input, "/theme"@) is None,
        c != 'r' ==> run_line(input) is None,
        c != 'e' ==> input != "/end"@,
{
    lemma_words_of_commands();
    lemma_prefix_letter(input, "/branch"@);
    lemma_prefix_letter(input, "/commit"@);
    lemma_prefix_letter(input, "/channel"@);
    lemma_prefix_letter(input, "/model"@);
    lemma_prefix_letter(input, "/options"@);
    lemma_prefix_letter(input, "/header"@);
    lemma_prefix_letter(input, "/new"@);
    lemma_prefix_letter(input, "/theme"@);
    lemma_prefix_letter(input, "/run"@);
}

proof fn lemma_prefix_letter(input: Seq<char>, command: Seq<char>)
    requires
        command.len() > 1,
    ensures
        (command + " "@).is_prefix_of(input) ==> input[1] == command[1],
        command.is_prefix_of(input) ==> input[1] == command[1],
{
    if (command + " "@).is_prefix_of(input) {
        assert((command + " "@)[1] == input.take((command + " "@).len() as int)[1]);
    }
    if command.is_prefix_of(input) {
        assert(command[1] == input.take(command.len() as int)[1]);
    }
}

/// While a session works, only what does not disturb it is done: choosing a model or a channel, the
/// options, the headers, a new session and the theme. Everything else waits in the input.
pub proof fn law_a_working_session_is_not_disturbed(m: AppModel, t: Instant, threshold: u64)
    requires
        m.current().phase != Phase::Idle,
        ({
            let c = command_of(text::trimmed(m.current().editor.text));
            c is Prompt || c is Run || c is Compact || c is End || c is Branch || c is Commit
        }),
    ensures
        entered(m, t, threshold) == (m, types::TaskModel::Nothing),
{
    reveal(entered);
}

/// An empty input does nothing.
pub proof fn law_an_empty_input_does_nothing(m: AppModel, t: Instant, threshold: u64)
    requires
        text::trimmed(m.current().editor.text).len() == 0,
    ensures
        entered(m, t, threshold) == (m, types::TaskModel::Nothing),
{
    reveal(entered);
}

/// A command of the user runs as it was written in the session where it was written; without a
/// channel or without a command nothing runs and the session says why.
pub proof fn law_commands_run_as_written(m: AppModel, command: Seq<char>)
    requires
        0 <= m.active < m.sessions.len(),
    ensures
        ({
            let (n, task) = run_asked(m, command);
            let can = m.current().channel is Some && command.len() > 0;
            &&& can ==> task == (types::TaskModel::Run { session: m.current().id, command })
            &&& can ==> n.current().phase == Phase::WaitingForTool
            &&& can ==> n.current().active_tool_label == Some("run "@ + command)
            &&& can ==> n.current().editor.text.len() == 0
            &&& can ==> !n.current().cancel
            &&& can ==> n.current().chat_follow
            &&& can ==> n.current().error is None
            &&& !can ==> task == types::TaskModel::Nothing
            &&& m.current().channel is None ==> n.current().error == Some(
                "/run needs a bound channel (Alt+O)."@,
            )
            &&& m.current().channel is Some && command.len() == 0 ==> n.current().error == Some(
                "Usage: /run <shell-command> (e.g. /run cargo build && git status)"@,
            )
            &&& !can ==> n.current().phase == m.current().phase && n.current().editor
                == m.current().editor
        }),
{
    reveal(run_asked);
}

/// A summary is asked for from the model of the session, of all that it would be sent; without a
/// model the session says why, and keeps the input.
pub proof fn law_a_summary_is_asked_of_the_model(m: AppModel)
    requires
        0 <= m.active < m.sessions.len(),
    ensures
        match state::chosen_endpoint(m.config, m.models, m.current().model_alias) {
            Ok(endpoint) => {
                &&& summary_asked(m).1 == (types::TaskModel::Summarise {
                    session: m.current().id,
                    endpoint,
                    messages: wire::projection(m.current().chat),
                })
                &&& summary_asked(m).0.current().chat == m.current().chat
                &&& summary_asked(m).0.current().editor.text.len() == 0
                &&& !summary_asked(m).0.current().cancel
            },
            Err(e) => {
                &&& summary_asked(m).1 == types::TaskModel::Nothing
                &&& summary_asked(m).0.current().error == Some(e)
                &&& summary_asked(m).0.current().editor == m.current().editor
            },
        },
{
    reveal(summary_asked);
}

/// A sent prompt is what stood in the input, without blanks around it: it is the last message that
/// goes out, after all that went before, and the input is empty and noted.
#[verifier::rlimit(40)]
pub proof fn law_what_was_typed_is_what_is_sent(m: AppModel, i: int, t: Instant, threshold: u64)
    requires
        0 <= i < m.sessions.len(),
        state::chosen_endpoint(m.config, m.models, m.sessions[i].model_alias) is Ok,
        m.sessions[i].chat.ok(),
        m.sessions[i].chat.events.len() < u64::MAX,
    ensures
        ({
            let (n, task) = prompt_sent(m, i, t, threshold);
            let s = m.sessions[i];
            let content = text::trimmed(s.editor.text);
            let endpoint = state::chosen_endpoint(m.config, m.models, s.model_alias)->Ok_0;
            let id = (s.chat.events.len() + 1) as u64;
            &&& task is Worker
            &&& task->Worker_session == s.id
            &&& task->Worker_endpoint == endpoint
            &&& task->permission == s.permission
            &&& task->mode == m.local_exec_mode
            &&& task->Worker_messages.len() > 0
            &&& task->Worker_messages.last().role == "user"@
            &&& task->Worker_messages.last().content == Some(content)
            &&& n.sessions[i].chat.order == s.chat.order.push(id)
            &&& n.sessions[i].chat.at(id).kind->UserPrompt_text == content
            &&& n.sessions[i].chat.at(id).kind->permission == s.permission
            &&& n.sessions[i].chat.at(id).kind->model == endpoint.model
            &&& n.sessions[i].active_model == Some(endpoint.model)
            &&& n.sessions[i].sent_at == Some(t)
            &&& n.sessions[i].phase == Phase::WaitingForLLM
            &&& n.sessions[i].editor.text.len() == 0
            &&& n.sessions[i].error is None
            &&& !n.sessions[i].cancel && !n.sessions[i].aborted && !n.sessions[i].compacting
            &&& n.sessions[i].chat_follow
            &&& content.len() > 0 ==> n.sessions[i].input_history.last() == content
        }),
{
    reveal(prompt_sent);
    let s = m.sessions[i];
    let content = text::trimmed(s.editor.text);
    let n = prompt_sent(m, i, t, threshold).0.sessions[i].chat;
    let id = (s.chat.events.len() + 1) as u64;
    assert(n.order == s.chat.order.push(id));
    assert(n.order.last() == id);
    assert(n.at(id).kind is UserPrompt);
    text::lemma_trimmed_again(s.editor.text);
    wire::law_the_last_prompt_is_sent_last(n);
}

/// Without a model nothing is sent: the session says why and keeps the input.
pub proof fn law_without_model_nothing_is_sent(m: AppModel, i: int, t: Instant, threshold: u64)
    requires
        0 <= i < m.sessions.len(),
        state::chosen_endpoint(m.config, m.models, m.sessions[i].model_alias) is Err,
    ensures
        prompt_sent(m, i, t, threshold).1 == types::TaskModel::Nothing,
        prompt_sent(m, i, t, threshold).0.sessions[i] == (session::SessionModel {
            error: Some(
                state::chosen_endpoint(m.config, m.models, m.sessions[i].model_alias)->Err_0,
            ),
            ..m.sessions[i]
        }),
{
    reveal(prompt_sent);
}

/// The size that a prompt starts from is the last count where there is one, else the guess, one at
/// least and never less than what was known before.
pub proof fn law_the_size_of_a_prompt(s: session::SessionModel)
    ensures
        session::current_usage(s.chat) matches Some(u) ==> prompt_size(s) == u.prompt_tokens,
        session::current_usage(s.chat) is None ==> prompt_size(s) >= 1 && prompt_size(s)
            >= s.prompt_base && prompt_size(s) >= session::guessed_tokens(s.chat) && (prompt_size(s)
            == 1 || prompt_size(s) == s.prompt_base || prompt_size(s) == session::guessed_tokens(
            s.chat,
        )),
{
}

/// Consent is asked for only where commands may run on the machine itself and nothing was decided
/// yet.
pub proof fn law_consent_is_asked_on_the_host_only(m: AppModel, t: Instant, threshold: u64)
    requires
        0 <= m.active < m.sessions.len() <= usize::MAX,
    ensures
        ({
            let local = m.current().channel is Some && m.current().channel->0.says().kind
                == ChannelKind::Local;
            let asks = m.current().permission == Permission::Execute && local
                && m.local_exec_mode == LocalExecMode::Ask;
            &&& asks ==> prompt_asked(m, t, threshold).0.pre_send_confirm is Some && (prompt_asked(
                m,
                t,
                threshold,
            ).0.pre_send_confirm->0).session == m.active && (prompt_asked(
                m,
                t,
                threshold,
            ).0.pre_send_confirm->0).nav.len == 3
            &&& !asks ==> prompt_asked(m, t, threshold) == prompt_sent(m, m.active, t, threshold)
        }),
{
    reveal(prompt_asked);
}

/// A commit is made in the directory of the channel with the message as it was written, where that is
/// the root of a repository; otherwise the session says why not.
pub proof fn law_commits_keep_their_message(
    m: AppModel,
    host: Seq<char>,
    message: Seq<char>,
    why: Seq<char>,
)
    requires
        0 <= m.active < m.sessions.len(),
    ensures
        m.current().channel is Some && m.current().channel->0.says().host_root == Some(host)
            ==> commit_asked(m, message) == (
            m,
            types::TaskModel::CheckCommit { host, message },
        ),
        m.current().channel is None ==> commit_asked(m, message).1 == types::TaskModel::Nothing
            && commit_asked(m, message).0.current().error == Some(
            "/commit needs a bound channel (Alt+O)."@,
        ),
        commit_checked_in(m, host, message, true).1 == (types::TaskModel::Commit { host, message }),
        commit_checked_in(m, host, message, true).0.current().editor.text.len() == 0,
        commit_checked_in(m, host, message, false).1 == types::TaskModel::Nothing,
        commit_checked_in(m, host, message, false).0.current().error == Some(
            "/commit is only possible with a channel bound to a repo."@,
        ),
        commit_made(m, message, Ok(true)).current().error == Some("Commit created: "@ + message),
        commit_made(m, message, Ok(false)).current().error == Some("Nothing to commit."@),
        commit_made(m, message, Err(why)).current().error == Some("Commit failed: "@ + why),
{
    reveal(commit_asked);
}

/// A model is chosen for the session alone, by the name of its configuration or by its key; a name
/// that leads nowhere changes nothing and is shown with those that there are.
pub proof fn law_models_are_chosen_by_name(m: AppModel, arg: Seq<char>, e: models::EntryModel, i: int)
    requires
        0 <= m.active < m.sessions.len(),
        0 <= i < m.sessions.len(),
        arg.len() > 0,
    ensures
        ({
            let n = model_asked(m, arg);
            let configured = table::lookup(m.config.models@, arg);
            let known = table::lookup(m.models.entries, arg);
            &&& configured is None && known == Some(e) ==> n.current().model_alias == Some(arg)
                && n.current().error == Some("Model for this session: "@ + models::full_display(e))
            &&& configured is None && known is None ==> n.current().model_alias
                == m.current().model_alias && n.current().error == Some(
                "Unknown model \""@ + arg + "\". Available: "@ + (if m.config.models@.len() == 0 {
                    "keine konfiguriert ([models.<alias>] in config.toml)"@
                } else {
                    text::joined(table::keys(m.config.models@), ", "@)
                }),
            )
            &&& configured is Some ==> n.current().model_alias is Some
            &&& n.current().editor.text.len() == 0
            &&& i != m.active ==> n.sessions[i] == m.sessions[i]
            &&& n.config == m.config
        }),
{
    reveal(model_asked);
}

/// A theme is said and set under its known name.
pub proof fn law_a_theme_is_set_as_it_is_said(m: AppModel, arg: Seq<char>)
    requires
        0 <= m.active < m.sessions.len(),
    ensures
        theme_asked(m, arg).1 == types::TaskModel::Theme(config::theme_of(arg)),
        theme_asked(m, arg).0.current().error == Some("theme → "@ + config::theme_of(arg)),
        theme_asked(m, arg).0.current().editor.text.len() == 0,
{
    reveal(theme_asked);
}

/// Each command does its own work: a list is opened, a dialog is shown, a session begins, or what was
/// asked for is handed on.
#[verifier::rlimit(40)]
pub proof fn law_each_command_does_its_work(
    m: AppModel,
    arg: Seq<char>,
    t: Instant,
    threshold: u64,
)
    requires
        0 <= m.active < m.sessions.len(),
    ensures
        command_run(m, CommandModel::Channel, t, threshold).0.channel_picker is Some,
        command_run(m, CommandModel::Options, t, threshold).0.options_dialog is Some,
        command_run(m, CommandModel::Header, t, threshold).0.http_headers_dialog,
        command_run(m, CommandModel::New, t, threshold).0.sessions.len() == m.sessions.len() + 1,
        command_run(m, CommandModel::New, t, threshold).0.active == m.sessions.len(),
        command_run(m, CommandModel::Channel, t, threshold).1 == types::TaskModel::Nothing,
        command_run(m, CommandModel::Options, t, threshold).1 == types::TaskModel::Nothing,
        command_run(m, CommandModel::Header, t, threshold).1 == types::TaskModel::Nothing,
        command_run(m, CommandModel::New, t, threshold).1 == types::TaskModel::Nothing,
        command_run(m, CommandModel::Compact, t, threshold) == summary_asked(m),
        command_run(m, CommandModel::End, t, threshold) == close::session_closing(m),
        command_run(m, CommandModel::Branch(arg), t, threshold) == branch::branch_asked(m, arg),
        command_run(m, CommandModel::Commit(arg), t, threshold) == commit_asked(m, arg),
        command_run(m, CommandModel::Model(arg), t, threshold).0 == model_asked(m, arg),
        command_run(m, CommandModel::Theme(arg), t, threshold) == theme_asked(m, arg),
        command_run(m, CommandModel::Run(arg), t, threshold) == run_asked(m, arg),
        command_run(m, CommandModel::Prompt, t, threshold) == prompt_asked(m, t, threshold),
        command_run(m, CommandModel::Channel, t, threshold).0.current().editor.text.len() == 0,
        command_run(m, CommandModel::Options, t, threshold).0.current().editor.text.len() == 0,
        command_run(m, CommandModel::Header, t, threshold).0.current().editor.text.len() == 0,
{
    reveal(command_run);
    reveal(picker::with_channels);
    reveal(session_asked);
}

/// Giving up stops the work of the session that is shown, and of no other one.
pub proof fn law_giving_up_stops_the_shown_session(m: AppModel, i: int)
    requires
        0 <= m.active < m.sessions.len(),
        0 <= i < m.sessions.len(),
    ensures
        m.current().phase != Phase::Idle ==> escaped(m).current().cancel,
        m.current().phase == Phase::Idle ==> escaped(m) == m,
        i != m.active ==> escaped(m).sessions[i] == m.sessions[i],
{
}

/// What does not begin with a slash is a prompt, whatever it says.
pub proof fn law_what_begins_otherwise_is_a_prompt(input: Seq<char>)
    requires
        input.len() > 0,
        input[0] != '/',
    ensures
        command_of(input) == CommandModel::Prompt,
{
    lemma_words_of_commands();
    lemma_first_is_slash(input, "/branch"@);
    lemma_first_is_slash(input, "/commit"@);
    lemma_first_is_slash(input, "/model"@);
    lemma_first_is_slash(input, "/channel"@);
    lemma_first_is_slash(input, "/options"@);
    lemma_first_is_slash(input, "/header"@);
    lemma_first_is_slash(input, "/new"@);
    lemma_first_is_slash(input, "/theme"@);
    lemma_first_is_slash(input, "/run"@);
    assert("/compact"@[0] == '/' && "/end"@[0] == '/');
}

proof fn lemma_first_is_slash(input: Seq<char>, command: Seq<char>)
    requires
        input.len() > 0,
        input[0] != '/',
        command.len() > 0,
        command[0] == '/',
    ensures
        !command.is_prefix_of(input),
        !(command + " "@).is_prefix_of(input),
        input != command,
{
    if command.is_prefix_of(input) {
        assert(command[0] == input.take(command.len() as int)[0]);
    }
    if (command + " "@).is_prefix_of(input) {
        assert((command + " "@)[0] == input.take((command + " "@).len() as int)[0]);
    }
}

/// A model that is configured under a name is chosen by its key among the known models, and shown as
/// it is known.
pub proof fn law_configured_models_are_chosen_by_their_key(
    m: AppModel,
    arg: Seq<char>,
    mc: config::ModelConfig,
    e: models::EntryModel,
    k: int,
)
    requires
        0 <= m.active < m.sessions.len(),
        arg.len() > 0,
        table::lookup(m.config.models@, arg) == Some(mc),
        0 <= k < m.models.entries.len(),
        m.models.entries[k].1 == e,
        e.alias == arg,
        forall|j: int| 0 <= j < k ==> (#[trigger] m.models.entries[j]).1.alias != arg,
        table::lookup(m.models.entries, e.provider + "/"@ + e.alias) == Some(e),
    ensures
        model_asked(m, arg).current().model_alias == Some(e.provider + "/"@ + e.alias),
        model_asked(m, arg).current().error == Some(
            "Model for this session: "@ + models::full_display(e),
        ),
{
    reveal(model_asked);
    models::law_models_are_found_by_their_alias(m.models.entries, arg, k);
}

/// Commands are noted among the inputs as they were written, so that they can be called back.
pub proof fn law_commands_are_noted_as_written(m: AppModel, arg: Seq<char>, host: Seq<char>)
    requires
        0 <= m.active < m.sessions.len(),
        arg.len() > 0,
        !text::is_white(arg.last()),
    ensures
        m.current().channel is Some ==> run_asked(m, arg).0.current().input_history.last() == "/run "@
            + arg,
        model_asked(m, arg).current().input_history.last() == "/model "@ + arg,
        commit_checked_in(m, host, arg, true).0.current().input_history.last() == "/commit "@ + arg,
        theme_asked(m, arg).0.current().input_history.last() == "/theme "@ + arg,
{
    reveal(run_asked);
    reveal(model_asked);
    reveal(theme_asked);
    reveal_strlit("/run ");
    reveal_strlit("/model ");
    reveal_strlit("/commit ");
    reveal_strlit("/theme ");
    assert(("/run "@ + arg).last() == arg.last());
    assert(("/model "@ + arg).last() == arg.last());
    assert(("/commit "@ + arg).last() == arg.last());
    assert(("/theme "@ + arg).last() == arg.last());
    text::lemma_trimmed_keeps("/run "@ + arg);
    text::lemma_trimmed_keeps("/model "@ + arg);
    text::lemma_trimmed_keeps("/commit "@ + arg);
    text::lemma_trimmed_keeps("/theme "@ + arg);
}

} // verus!
