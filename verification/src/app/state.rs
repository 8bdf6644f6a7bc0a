//! The whole state of the program.

use super::list::ListNav;
use super::models;
use super::models::{ModelEntry, ModelRegistry};
use super::session;
use super::session::{apply_default_channel, Phase, Session};
use super::types;
use super::types::{
    BranchConfirm, BranchPending, ChannelBuilderState, ChannelClose, ChannelClosePhase,
    ChannelPicker, ExecConfirm, LocalExecMode, ModelPicker, OptionsDialog, PathConfirm,
    PreSendConfirm, StopConfirm, Task,
};
use crate::channel::paths;
use crate::channel::registry;
use crate::channel::{Channel, ChannelKind, ChannelRegistry};
use crate::config;
use crate::config::{Config, ResolvedEndpoint};
use crate::table;
use crate::text;
use vstd::prelude::*;
use vstd::string::*;

verus! {

/// The program.
pub struct App {
    pub sessions: Vec<Session>,
    /// The session that is shown.
    pub active: usize,
    pub quit: bool,
    pub config: Config,
    pub channels: ChannelRegistry,
    pub model_registry: ModelRegistry,
    pub channel_picker: Option<ChannelPicker>,
    pub model_picker: Option<ModelPicker>,
    pub channel_builder: Option<ChannelBuilderState>,
    pub local_exec_mode: LocalExecMode,
    pub pre_send_confirm: Option<PreSendConfirm>,
    pub exec_confirm: Option<ExecConfirm>,
    pub stop_confirm: Option<StopConfirm>,
    pub channel_close: Option<ChannelClose>,
    pub branch_confirm: Option<BranchConfirm>,
    pub path_confirm: Option<PathConfirm>,
    pub options_dialog: Option<OptionsDialog>,
    /// Whether the headers of the last answer are shown.
    pub http_headers_dialog: bool,
    /// Whether the key before was Esc: some terminals send it in place of Alt.
    pub pending_esc: bool,
    /// What the question about a branch is about.
    pub branch_pending: Option<BranchPending>,
    pub mouse_enabled: bool,
    /// Branch and repository of the active session, and whether nothing is changed there.
    pub git_status: Option<(String, bool)>,
    /// The titles of the sessions.
    pub tab_labels: Vec<String>,
}

/// What the program holds.
pub struct AppModel {
    pub sessions: Seq<session::SessionModel>,
    pub active: int,
    pub quit: bool,
    pub config: Config,
    pub channels: registry::RegModel,
    pub models: models::RegistryModel,
    pub channel_picker: Option<types::SelModel<types::PickModel>>,
    pub model_picker: Option<types::ModelPickerModel>,
    pub builder: Option<types::BuilderModel>,
    pub local_exec_mode: LocalExecMode,
    pub pre_send_confirm: Option<PreSendConfirm>,
    pub exec_confirm: Option<types::ExecModel>,
    pub stop_confirm: Option<types::StopModel>,
    pub channel_close: Option<types::CloseModel>,
    pub branch_confirm: Option<types::BranchAskModel>,
    pub path_confirm: Option<Seq<char>>,
    pub options_dialog: Option<OptionsDialog>,
    pub http_headers_dialog: bool,
    pub pending_esc: bool,
    pub branch_pending: Option<types::PendingModel>,
    pub mouse_enabled: bool,
    pub git_status: Option<(Seq<char>, bool)>,
    pub tab_labels: Seq<Seq<char>>,
}

impl View for App {
    type V = AppModel;

    open spec fn view(&self) -> AppModel {
        AppModel {
            sessions: session::session_views(self.sessions@),
            active: self.active as int,
            quit: self.quit,
            config: self.config,
            channels: self.channels@,
            models: self.model_registry@,
            channel_picker: match self.channel_picker {
                Some(p) => Some(p@),
                None => None,
            },
            model_picker: match self.model_picker {
                Some(p) => Some(p@),
                None => None,
            },
            builder: match self.channel_builder {
                Some(b) => Some(b@),
                None => None,
            },
            local_exec_mode: self.local_exec_mode,
            pre_send_confirm: self.pre_send_confirm,
            exec_confirm: match self.exec_confirm {
                Some(d) => Some(d@),
                None => None,
            },
            stop_confirm: match self.stop_confirm {
                Some(d) => Some(d@),
                None => None,
            },
            channel_close: match self.channel_close {
                Some(d) => Some(d@),
                None => None,
            },
            branch_confirm: match self.branch_confirm {
                Some(d) => Some(d@),
                None => None,
            },
            path_confirm: match self.path_confirm {
                Some(d) => Some(d.path@),
                None => None,
            },
            options_dialog: self.options_dialog,
            http_headers_dialog: self.http_headers_dialog,
            pending_esc: self.pending_esc,
            branch_pending: match self.branch_pending {
                Some(p) => Some(p@),
                None => None,
            },
            mouse_enabled: self.mouse_enabled,
            git_status: match self.git_status {
                Some(p) => Some((p.0@, p.1)),
                None => None,
            },
            tab_labels: text::views(self.tab_labels@),
        }
    }
}

// ---------------------------------------------------------------------------
// Changes of the state
// ---------------------------------------------------------------------------
impl AppModel {
    /// The active session.
    pub open spec fn current(self) -> session::SessionModel {
        self.sessions[self.active]
    }

    /// The state with another session at a position.
    pub open spec fn with_session(self, i: int, s: session::SessionModel) -> AppModel {
        AppModel { sessions: self.sessions.update(i, s), ..self }
    }

    /// The state with another active session.
    pub open spec fn with_current(self, s: session::SessionModel) -> AppModel {
        self.with_session(self.active, s)
    }

    /// The state with a message in the active session. What details there were stay.
    pub open spec fn saying(self, message: Seq<char>) -> AppModel {
        self.with_current(session::SessionModel { error: Some(message), ..self.current() })
    }

    /// The state with a message in the active session and no details.
    pub open spec fn telling(self, message: Seq<char>) -> AppModel {
        self.with_current(
            session::SessionModel { error: Some(message), error_debug: None, ..self.current() },
        )
    }
}

/// The session without a message.
pub open spec fn quiet(s: session::SessionModel) -> session::SessionModel {
    session::SessionModel { error: None, error_debug: None, ..s }
}

/// The session with an empty input and without a message.
pub open spec fn cleared(s: session::SessionModel) -> session::SessionModel {
    session::SessionModel {
        editor: crate::editor::empty_field(s.editor.width),
        error: None,
        error_debug: None,
        ..s
    }
}

/// The highest number of a session.
pub open spec fn highest_id(v: Seq<session::SessionModel>) -> usize
    decreases v.len(),
{
    if v.len() == 0 {
        0
    } else {
        let before = highest_id(v.drop_last());
        if v.last().id > before {
            v.last().id
        } else {
            before
        }
    }
}

/// The number of the next session, as far as numbers go.
pub open spec fn next_session(v: Seq<session::SessionModel>) -> usize {
    if highest_id(v) < usize::MAX {
        (highest_id(v) + 1) as usize
    } else {
        usize::MAX
    }
}

/// The state with one more session, which becomes the active one.
pub open spec fn joined(m: AppModel, s: session::SessionModel) -> AppModel {
    AppModel { sessions: m.sessions.push(s), active: m.sessions.len() as int, ..m }
}

/// The state with a new session.
pub open spec fn with_new_session(m: AppModel) -> AppModel {
    joined(
        m,
        session::channel_defaulted(m.channels, session::fresh(next_session(m.sessions))),
    )
}

/// The state without the active session. With the last one the program ends.
pub open spec fn without_current(m: AppModel) -> AppModel {
    let rest = m.sessions.remove(m.active);
    AppModel {
        sessions: rest,
        quit: m.quit || rest.len() == 0,
        active: if rest.len() == 0 || m.active < rest.len() {
            m.active
        } else {
            rest.len() - 1
        },
        ..m
    }
}

/// The session beside the active one; the ends lead to each other.
pub open spec fn neighbour(m: AppModel, back: bool) -> int {
    let n = m.sessions.len() as int;
    if back {
        if m.active == 0 {
            n - 1
        } else {
            m.active - 1
        }
    } else if m.active + 1 < n {
        m.active + 1
    } else {
        0
    }
}

/// Whether something runs in a session.
pub open spec fn is_working(s: session::SessionModel) -> bool {
    ||| s.phase != Phase::Idle
    ||| s.open_tool_ids.len() > 0
    ||| s.retrying is Some
    ||| s.compacting
}

/// In how many sessions something runs.
pub open spec fn working(v: Seq<session::SessionModel>) -> nat
    decreases v.len(),
{
    if v.len() == 0 {
        0
    } else {
        working(v.drop_last()) + (if is_working(v.last()) {
            1nat
        } else {
            0nat
        })
    }
}

/// Whether a dialog takes the keys.
pub open spec fn dialog_open(m: AppModel) -> bool {
    ||| m.channel_picker is Some
    ||| m.model_picker is Some
    ||| m.builder is Some
    ||| m.pre_send_confirm is Some
    ||| m.exec_confirm is Some
    ||| m.stop_confirm is Some
    ||| m.channel_close is Some
    ||| m.branch_confirm is Some
    ||| m.path_confirm is Some
    ||| m.options_dialog is Some
    ||| m.http_headers_dialog
}

/// Whether something in the picture moves: somewhere something runs, and no dialog is open.
pub open spec fn is_animated(m: AppModel) -> bool {
    !dialog_open(m) && working(m.sessions) > 0
}

/// Whether a question waits for an answer of the user.
pub open spec fn decision_open(m: AppModel) -> bool {
    ||| m.exec_confirm is Some
    ||| m.pre_send_confirm is Some
    ||| m.stop_confirm is Some
    ||| m.channel_close is Some
    ||| m.branch_confirm is Some
    ||| m.path_confirm is Some
}

// ---------------------------------------------------------------------------
// The model of a session
// ---------------------------------------------------------------------------
/// The endpoint of a known model.
pub open spec fn entry_endpoint(c: Config, e: models::EntryModel) -> Result<
    config::EndpointModel,
    Seq<char>,
> {
    match table::lookup(c.provider@, e.provider) {
        None => Err("Unbekannter Provider '"@ + e.provider + "'"@),
        Some(p) => Ok(
            config::endpoint_at(
                p,
                e.provider,
                models::key_of(e),
                e.server_model,
                config::window_or(e.context_window, c.context_window),
            ),
        ),
    }
}

/// The known model with an identity: provider, slash, name on the server.
pub open spec fn known_by_id(m: models::RegistryModel, id: Seq<char>) -> Option<models::EntryModel> {
    match text::split_once(id, '/') {
        None => None,
        Some((provider, server_model)) => {
            let k = models::server_at(m.entries, provider, server_model);
            if k < m.entries.len() {
                Some(m.entries[k].1)
            } else {
                None
            }
        },
    }
}

/// The endpoint of the model that was chosen, or of the default one. The default model is taken
/// for an alias first.
pub open spec fn chosen_endpoint(
    c: Config,
    m: models::RegistryModel,
    alias: Option<Seq<char>>,
) -> Result<config::EndpointModel, Seq<char>> {
    match alias {
        Some(key) => match table::lookup(m.entries, key) {
            Some(e) => entry_endpoint(c, e),
            None => match known_by_id(m, key) {
                Some(e) => entry_endpoint(c, e),
                None => config::resolved(c, Some(key)),
            },
        },
        None => match config::default_alias(c) {
            Some(a) => config::resolved_alias(c, a),
            None => match known_by_id(m, c.model@) {
                Some(e) => entry_endpoint(c, e),
                None => config::resolved(c, None),
            },
        },
    }
}

/// The name that the default model is shown under.
pub open spec fn default_shown(c: Config, m: models::RegistryModel) -> Seq<char> {
    match config::default_alias(c) {
        Some(a) => models::slashed(a.provider, a.alias),
        None => match known_by_id(m, c.model@) {
            Some(e) => models::key_of(e),
            None => {
                let k = config::model_at(c.models@, c.model@);
                if k < c.models@.len() {
                    models::slashed(config::before(c.model@, '/'), c.models@[k].0)
                } else {
                    c.model@
                }
            },
        },
    }
}

/// The name that the model of a session is shown under.
pub open spec fn shown_model(
    c: Config,
    m: models::RegistryModel,
    alias: Option<Seq<char>>,
) -> Seq<char> {
    match alias {
        Some(key) => match table::lookup(m.entries, key) {
            Some(e) => models::key_of(e),
            None => match table::lookup(c.models@, key) {
                Some(mc) => config::id_of(mc),
                None => key,
            },
        },
        None => default_shown(c, m),
    }
}

// ---------------------------------------------------------------------------
// Titles
// ---------------------------------------------------------------------------
/// What is known of the directory of a session.
#[derive(Debug, PartialEq)]
pub enum HostState {
    Plain,
    /// A repository, with branch and name where they could be found out.
    Repo(Option<String>),
}

/// What is known of the directory of a session.
pub enum HostModel {
    Plain,
    Repo(Option<Seq<char>>),
}

impl View for HostState {
    type V = HostModel;

    open spec fn view(&self) -> HostModel {
        match self {
            HostState::Plain => HostModel::Plain,
            HostState::Repo(l) => HostModel::Repo(text::opt_view(*l)),
        }
    }
}

/// What is known of the directories of the sessions.
pub open spec fn host_state_views(v: Seq<HostState>) -> Seq<HostModel> {
    v.map_values(|h: HostState| h@)
}

/// The last part of a path, or all of it.
pub open spec fn tail_of(p: Seq<char>) -> Seq<char> {
    match paths::name_of(p) {
        Some(n) => n,
        None => p,
    }
}

/// The number before a title.
pub open spec fn numbering(i: int) -> Seq<char> {
    text::decimal((i + 1) as nat) + ": "@
}

/// The title of a session: branch and repository, or its directory, or its model.
pub open spec fn title(m: AppModel, i: int, host: HostModel) -> Seq<char> {
    let s = m.sessions[i];
    let directory = match s.channel {
        Some(c) => c.says().host_root,
        None => None,
    };
    numbering(i) + (match directory {
        Some(p) => match host {
            HostModel::Repo(Some(l)) => l,
            HostModel::Repo(None) => "?@?"@,
            HostModel::Plain => tail_of(p),
        },
        None => shown_model(m.config, m.models, s.model_alias),
    })
}

/// The titles of the sessions.
pub open spec fn titles(m: AppModel, hosts: Seq<HostModel>) -> Seq<Seq<char>> {
    Seq::new(m.sessions.len(), |i: int| title(m, i, hosts[i]))
}

/// How many of the sessions are busy.
pub open spec fn status_text(v: Seq<session::SessionModel>) -> Seq<char> {
    if working(v) == 0 {
        "idle"@
    } else if v.len() == 1 {
        "busy"@
    } else {
        text::decimal(working(v)) + "/"@ + text::decimal(v.len()) + " busy"@
    }
}

/// The title of the active session without its number.
pub open spec fn bare_title(m: AppModel) -> Seq<char> {
    if m.active < m.tab_labels.len() {
        crate::channel::builder::unprefixed(m.tab_labels[m.active], numbering(m.active))
    } else {
        Seq::empty()
    }
}

// ---------------------------------------------------------------------------
// The program
// ---------------------------------------------------------------------------
/// Whether the position in a phase is sound.
pub open spec fn phase_wf(p: ChannelClosePhase) -> bool {
    types::phase_nav(p@).wf()
}

impl App {
    /// The tables name nothing twice, the sessions and dialogs are sound, and one session is
    /// active until the last one ends the program.
    pub open spec fn wf(&self) -> bool {
        &&& self.config.wf()
        &&& self.channels.wf()
        &&& self.model_registry.wf()
        &&& (self.active < self.sessions@.len() || (self.sessions@.len() == 0 && self.quit))
        &&& forall|i: int| 0 <= i < self.sessions@.len() ==> (#[trigger] self.sessions@[i]).wf()
        &&& (self.channel_picker matches Some(p) ==> p.items.wf())
        &&& (self.model_picker matches Some(p) ==> p.items.wf())
        &&& (self.channel_builder matches Some(b) ==> b.wf())
        &&& (self.pre_send_confirm matches Some(d) ==> d.nav.wf())
        &&& (self.exec_confirm matches Some(d) ==> d.nav.wf())
        &&& (self.stop_confirm matches Some(d) ==> d.nav.wf())
        &&& (self.channel_close matches Some(d) ==> phase_wf(d.phase))
        &&& (self.branch_confirm matches Some(d) ==> d.nav.wf())
        &&& (self.options_dialog matches Some(d) ==> d.nav.wf())
        &&& (self.branch_pending matches Some(p) ==> session::sound(p.history@))
    }

    /// The state is sound and a session is active.
    pub open spec fn ready(&self) -> bool {
        self.wf() && self.active < self.sessions@.len()
    }

    /// The program at its start: one session, with the default channel.
    pub fn new(config: Config, channels: ChannelRegistry) -> (r: Self)
        requires
            config.wf(),
            channels.wf(),
        ensures
            r.ready(),
            r@ == (AppModel {
                sessions: seq![session::channel_defaulted(channels@, session::fresh(0))],
                active: 0,
                quit: false,
                config,
                channels: channels@,
                models: models::all_configured(models::empty_registry(), config.models@),
                channel_picker: None,
                model_picker: None,
                builder: None,
                local_exec_mode: LocalExecMode::Ask,
                pre_send_confirm: None,
                exec_confirm: None,
                stop_confirm: None,
                channel_close: None,
                branch_confirm: None,
                path_confirm: None,
                options_dialog: None,
                http_headers_dialog: false,
                pending_esc: false,
                branch_pending: None,
                mouse_enabled: config.mouse,
                git_status: None,
                tab_labels: Seq::empty(),
            }),
    {
        let model_registry = ModelRegistry::new(&config.models);
        let mouse_enabled = config.mouse;
        let mut s = Session::new(0);
        apply_default_channel(&channels, &mut s);
        let mut sessions: Vec<Session> = Vec::new();
        sessions.push(s);
        let r = App {
            sessions,
            active: 0,
            quit: false,
            config,
            channels,
            model_registry,
            channel_picker: None,
            model_picker: None,
            channel_builder: None,
            local_exec_mode: LocalExecMode::default(),
            pre_send_confirm: None,
            exec_confirm: None,
            stop_confirm: None,
            channel_close: None,
            branch_confirm: None,
            path_confirm: None,
            options_dialog: None,
            http_headers_dialog: false,
            pending_esc: false,
            branch_pending: None,
            mouse_enabled,
            git_status: None,
            tab_labels: Vec::new(),
        };
        proof {
            assert(r@.sessions =~= seq![session::channel_defaulted(channels@, session::fresh(0))]);
            assert(r@.tab_labels =~= Seq::empty());
        }
        r
    }

    /// The endpoint of a known model.
    fn resolve_from_entry(&self, entry: &ModelEntry) -> (r: Result<ResolvedEndpoint, String>)
        ensures
            config::endpoint_view(r) == entry_endpoint(self.config, entry@),
    {
        match self.config.provider.get(entry.provider.as_str()) {
            None => Err(text::concat3("Unbekannter Provider '", entry.provider.as_str(), "'")),
            Some(p) => Ok(
                config::make_endpoint(
                    p,
                    entry.provider.as_str(),
                    entry.display_key(),
                    entry.api_model().to_string(),
                    config::window_or_default(entry.context_window, self.config.context_window),
                ),
            ),
        }
    }

    /// The endpoint of the model of a session.
    pub fn resolve_endpoint(&self, idx: usize) -> (r: Result<ResolvedEndpoint, String>)
        requires
            self.wf(),
            idx < self.sessions@.len(),
        ensures
            config::endpoint_view(r) == chosen_endpoint(
                self.config,
                self@.models,
                self@.sessions[idx as int].model_alias,
            ),
    {
        match &self.sessions[idx].model_alias {
            Some(key) => match self.model_registry.get(key.as_str()) {
                Some(e) => self.resolve_from_entry(e),
                None => match self.model_registry.find_by_model_id(key.as_str()) {
                    Some(e) => self.resolve_from_entry(e),
                    None => self.config.resolve(Some(key.as_str())),
                },
            },
            None => match self.config.resolve_default_alias() {
                Some(a) => self.config.resolve_from_default_alias(a),
                None => match self.model_registry.find_by_model_id(self.config.model.as_str()) {
                    Some(e) => self.resolve_from_entry(e),
                    None => self.config.resolve(None),
                },
            },
        }
    }

    /// The name that the default model is shown under.
    pub fn default_model_shown(&self) -> (r: String)
        requires
            self.wf(),
        ensures
            r@ == default_shown(self.config, self@.models),
    {
        if let Some(a) = self.config.resolve_default_alias() {
            return text::concat3(a.provider.as_str(), "/", a.alias.as_str());
        }
        if let Some(e) = self.model_registry.find_by_model_id(self.config.model.as_str()) {
            return e.display_key();
        }
        let n: usize = self.config.models.len();
        let ghost all = self.config.models@;
        let mut i: usize = 0;
        assert(all.skip(0) =~= all);
        while i < n
            invariant
                i <= n == all.len(),
                all == self.config.models@,
                self.wf(),
                config::default_alias(self.config) is None,
                known_by_id(self@.models, self.config.model@) is None,
                config::model_at(all, self.config.model@) == i + config::model_at(
                    all.skip(i as int),
                    self.config.model@,
                ),
            decreases n - i,
        {
            assert(all.skip(i as int)[0] == all[i as int]);
            assert(all.skip(i as int).drop_first() =~= all.skip(i + 1));
            if text::same_text(self.config.models.value(i).id(), self.config.model.as_str()) {
                let provider = config::before_char(self.config.model.as_str(), '/');
                let alias = self.config.models.key(i);
                return text::concat3(provider.as_str(), "/", alias.as_str());
            }
            i += 1;
        }
        self.config.model.clone()
    }

    /// The name that the model of a session is shown under.
    pub fn display_model(&self, idx: usize) -> (r: String)
        requires
            self.wf(),
            idx < self.sessions@.len(),
        ensures
            r@ == shown_model(
                self.config,
                self@.models,
                self@.sessions[idx as int].model_alias,
            ),
    {
        match &self.sessions[idx].model_alias {
            Some(key) => match self.model_registry.get(key.as_str()) {
                Some(e) => e.display_key(),
                None => match self.config.models.get(key.as_str()) {
                    Some(mc) => mc.id().to_string(),
                    None => key.clone(),
                },
            },
            None => self.default_model_shown(),
        }
    }

    /// Takes over what was found out about the repository of the active session, where what is
    /// known has expired; says whether something changed.
    pub fn refresh_git_status(&mut self, expired: bool, status: Option<(String, bool)>) -> (r: bool)
        requires
            old(self).wf(),
        ensures
            final(self).wf(),
            ({
                let found = match status {
                    Some(p) => Some((p.0@, p.1)),
                    None => None,
                };
                &&& r == (expired && found != old(self)@.git_status)
                &&& final(self)@ == (if expired {
                    AppModel { git_status: found, ..old(self)@ }
                } else {
                    old(self)@
                })
            }),
    {
        if !expired {
            return false;
        }
        let same = match (&self.git_status, &status) {
            (Some(a), Some(b)) => text::same_text(a.0.as_str(), b.0.as_str()) && a.1 == b.1,
            (None, None) => true,
            _ => false,
        };
        self.git_status = status;
        !same
    }

    /// The title of a session.
    fn session_tab_label(&self, idx: usize, host: &HostState) -> (r: String)
        requires
            self.wf(),
            idx < self.sessions@.len(),
        ensures
            r@ == title(self@, idx as int, host@),
    {
        let n: usize = self.sessions.len();
        assert(idx < n);
        let number: u128 = idx as u128 + 1;
        let directory = match &self.sessions[idx].channel {
            Some(c) => c.data.host_root(),
            None => None,
        };
        let mut r = text::decimal_wide(number);
        r.append(": ");
        match directory {
            Some(p) => match host {
                HostState::Repo(Some(l)) => {
                    r.append(l.as_str());
                },
                HostState::Repo(None) => {
                    r.append("?@?");
                },
                HostState::Plain => {
                    r.append(path_tail(p.as_str()).as_str());
                },
            },
            None => {
                r.append(self.display_model(idx).as_str());
            },
        }
        r
    }

    /// Makes the titles of the sessions anew, where they have expired or their number does not
    /// fit. `hosts` gives what is known of the directory of each session.
    pub fn refresh_tab_labels(&mut self, expired: bool, hosts: &Vec<HostState>)
        requires
            old(self).wf(),
            hosts@.len() == old(self).sessions@.len(),
        ensures
            final(self).wf(),
            final(self)@ == (if expired || old(self)@.tab_labels.len()
                != old(self)@.sessions.len() {
                AppModel {
                    tab_labels: titles(old(self)@, host_state_views(hosts@)),
                    ..old(self)@
                }
            } else {
                old(self)@
            }),
    {
        if !expired && self.tab_labels.len() == self.sessions.len() {
            return ;
        }
        let ghost m = self@;
        let ghost want = titles(m, host_state_views(hosts@));
        let n: usize = self.sessions.len();
        let mut out: Vec<String> = Vec::new();
        let mut i: usize = 0;
        assert(text::views(out@) =~= want.take(0));
        while i < n
            invariant
                i <= n == self.sessions@.len(),
                n == hosts@.len(),
                self.wf(),
                self@ == m,
                want == titles(m, host_state_views(hosts@)),
                text::views(out@) == want.take(i as int),
            decreases n - i,
        {
            assert(host_state_views(hosts@)[i as int] == hosts@[i as int]@);
            let l = self.session_tab_label(i, &hosts[i]);
            text::push_text(&mut out, l);
            assert(want.take(i + 1) =~= want.take(i as int).push(want[i as int]));
            i += 1;
        }
        assert(want.take(n as int) =~= want);
        self.tab_labels = out;
    }

    fn working_count(&self) -> (r: usize)
        ensures
            r == working(self@.sessions),
            r <= self.sessions@.len(),
    {
        let ghost all = self@.sessions;
        let mut k: usize = 0;
        let mut i: usize = 0;
        assert(all.take(0) =~= Seq::empty());
        while i < self.sessions.len()
            invariant
                i <= self.sessions@.len(),
                k <= i,
                all == session::session_views(self.sessions@),
                k == working(all.take(i as int)),
            decreases self.sessions@.len() - i,
        {
            assert(all.take(i + 1).drop_last() =~= all.take(i as int));
            assert(all.take(i + 1).last() == self.sessions@[i as int]@);
            let s = &self.sessions[i];
            if s.phase != Phase::Idle || s.open_tool_ids.len() > 0 || s.retrying.is_some()
                || s.compacting {
                k += 1;
            }
            i += 1;
        }
        assert(all.take(self.sessions@.len() as int) =~= all);
        k
    }

    /// How many of the sessions are busy, in words.
    pub fn busy_status(&self) -> (r: String)
        ensures
            r@ == status_text(self@.sessions),
    {
        let k: usize = self.working_count();
        if k == 0 {
            "idle".to_string()
        } else if self.sessions.len() == 1 {
            "busy".to_string()
        } else {
            let mut r = text::decimal_wide(k as u128);
            r.append("/");
            r.append(text::decimal_wide(self.sessions.len() as u128).as_str());
            r.append(" busy");
            r
        }
    }

    /// The title of the terminal.
    pub fn terminal_title_string(&self) -> (r: String)
        requires
            self.ready(),
        ensures
            r@ == "aidev · "@ + status_text(self@.sessions) + " · "@ + bare_title(self@),
    {
        let mut r = text::concat3("aidev · ", self.busy_status().as_str(), " · ");
        if self.active < self.tab_labels.len() {
            let number: u128 = self.active as u128 + 1;
            let mut prefix = text::decimal_wide(number);
            prefix.append(": ");
            let label = self.tab_labels[self.active].as_str();
            assert(self@.tab_labels[self@.active] == label@);
            match text::strip_prefix(label, prefix.as_str()) {
                Some(bare) => {
                    r.append(bare.as_str());
                },
                None => {
                    r.append(label);
                },
            }
        } else {
            let ghost before = r@;
            assert(before + Seq::<char>::empty() =~= before);
        }
        r
    }

    /// The work at the start: find out the state of every container, and start the one of the
    /// default channel.
    pub fn start_tasks(&self) -> (r: Vec<Task>)
        requires
            self.wf(),
        ensures
            types::task_views(r@) == starting(self@.channels),
    {
        let names = self.channels.names();
        let ghost keys = table::keys(self@.channels.map);
        let ghost map = self@.channels.map;
        let mut out: Vec<Task> = Vec::new();
        let mut i: usize = 0;
        assert(keys.take(0) =~= Seq::empty());
        assert(types::task_views(out@) =~= Seq::empty());
        while i < names.len()
            invariant
                i <= names@.len(),
                keys == text::views(names@),
                map == self@.channels.map,
                types::task_views(out@) == probes(map, keys.take(i as int)),
            decreases names@.len() - i,
        {
            let ghost before = out@;
            assert(keys.take(i + 1).drop_last() =~= keys.take(i as int));
            assert(keys.take(i + 1).last() == names@[i as int]@);
            if let Some(ch) = self.channels.get(names[i].as_str()) {
                if ch.data.kind() != ChannelKind::Local {
                    let t = Task::Probe(ch);
                    out.push(t);
                    assert(types::task_views(out@) =~= types::task_views(before).push(t@));
                }
            }
            i += 1;
        }
        assert(keys.take(names@.len() as int) =~= keys);
        if let Some(name) = self.channels.default_channel_name() {
            if let Some(ch) = self.channels.get(name) {
                if ch.data.kind() == ChannelKind::PodmanRun {
                    let ghost before = out@;
                    let t = Task::Warmup(ch);
                    out.push(t);
                    assert(types::task_views(out@) =~= types::task_views(before).push(t@));
                }
            }
        }
        out
    }

    /// The position of the session with a number.
    pub fn session_position(&self, id: usize) -> (r: Option<usize>)
        ensures
            match r {
                Some(i) => i < self.sessions@.len() && i == session_at(self@.sessions, id),
                None => session_at(self@.sessions, id) == self.sessions@.len(),
            },
    {
        let ghost all = self@.sessions;
        let mut i: usize = 0;
        assert(all.skip(0) =~= all);
        while i < self.sessions.len()
            invariant
                i <= self.sessions@.len(),
                all == session::session_views(self.sessions@),
                session_at(all, id) == i + session_at(all.skip(i as int), id),
            decreases self.sessions@.len() - i,
        {
            assert(all.skip(i as int)[0] == self.sessions@[i as int]@);
            assert(all.skip(i as int).drop_first() =~= all.skip(i + 1));
            if self.sessions[i].id == id {
                return Some(i);
            }
            i += 1;
        }
        None
    }

    /// The number of the next session.
    pub fn next_session_id(&self) -> (r: usize)
        ensures
            r == next_session(self@.sessions),
    {
        let ghost all = self@.sessions;
        let mut top: usize = 0;
        let mut i: usize = 0;
        assert(all.take(0) =~= Seq::empty());
        while i < self.sessions.len()
            invariant
                i <= self.sessions@.len(),
                all == session::session_views(self.sessions@),
                top == highest_id(all.take(i as int)),
            decreases self.sessions@.len() - i,
        {
            assert(all.take(i + 1).drop_last() =~= all.take(i as int));
            assert(all.take(i + 1).last() == self.sessions@[i as int]@);
            if self.sessions[i].id > top {
                top = self.sessions[i].id;
            }
            i += 1;
        }
        assert(all.take(self.sessions@.len() as int) =~= all);
        if top < usize::MAX {
            top + 1
        } else {
            usize::MAX
        }
    }

    /// Appends a session and makes it the active one.
    pub fn join_session(&mut self, s: Session)
        requires
            old(self).ready(),
            s.wf(),
        ensures
            final(self).ready(),
            final(self)@ == joined(old(self)@, s@),
    {
        let ghost before = self.sessions@;
        let at: usize = self.sessions.len();
        self.sessions.push(s);
        self.active = at;
        assert(self@.sessions =~= session::session_views(before).push(s@));
    }

    /// Opens a new session with the default channel.
    pub fn new_session(&mut self)
        requires
            old(self).ready(),
        ensures
            final(self).ready(),
            final(self)@ == with_new_session(old(self)@),
    {
        let id: usize = self.next_session_id();
        let mut s = Session::new(id);
        apply_default_channel(&self.channels, &mut s);
        self.join_session(s);
    }

    /// Removes the active session. With the last one the program ends.
    pub fn finish_close_session(&mut self)
        requires
            old(self).ready(),
        ensures
            final(self).wf(),
            final(self)@ == without_current(old(self)@),
            final(self)@.sessions.len() > 0 ==> final(self).ready(),
    {
        let ghost before = self.sessions@;
        let at: usize = self.active;
        let _gone = self.sessions.remove(at);
        assert(self@.sessions =~= session::session_views(before).remove(at as int));
        let n: usize = self.sessions.len();
        if n == 0 {
            self.quit = true;
        } else if at >= n {
            self.active = n - 1;
        }
        assert forall|i: int| 0 <= i < self.sessions@.len() implies (
        #[trigger] self.sessions@[i]).wf() by {
            if i < at {
                assert(self.sessions@[i] == before[i]);
            } else {
                assert(self.sessions@[i] == before[i + 1]);
            }
        }
    }

    /// Shows the session beside the active one.
    pub fn switch_session(&mut self, back: bool)
        requires
            old(self).ready(),
        ensures
            final(self).ready(),
            final(self)@ == (AppModel {
                active: neighbour(old(self)@, back),
                ..old(self)@
            }),
    {
        let n: usize = self.sessions.len();
        self.active = if back {
            if self.active == 0 {
                n - 1
            } else {
                self.active - 1
            }
        } else if self.active < n - 1 {
            self.active + 1
        } else {
            0
        };
    }

    /// Whether the picture changes by itself: something runs, and no dialog waits.
    pub fn spinner_active(&self) -> (r: bool)
        ensures
            r == is_animated(self@),
    {
        !self.any_dialog_open() && self.working_count() > 0
    }

    /// Whether a dialog takes the keys.
    pub fn any_dialog_open(&self) -> (r: bool)
        ensures
            r == dialog_open(self@),
    {
        self.channel_picker.is_some() || self.model_picker.is_some()
            || self.channel_builder.is_some() || self.pre_send_confirm.is_some()
            || self.exec_confirm.is_some() || self.stop_confirm.is_some()
            || self.channel_close.is_some() || self.branch_confirm.is_some()
            || self.path_confirm.is_some() || self.options_dialog.is_some()
            || self.http_headers_dialog
    }

    /// Whether a question waits for an answer of the user.
    pub fn awaiting_decision(&self) -> (r: bool)
        ensures
            r == decision_open(self@),
    {
        self.exec_confirm.is_some() || self.pre_send_confirm.is_some()
            || self.stop_confirm.is_some() || self.channel_close.is_some()
            || self.branch_confirm.is_some() || self.path_confirm.is_some()
    }

    /// Whether a question about a session waits: it is always about the active one.
    pub fn session_awaits_decision(&self, idx: usize) -> (r: bool)
        ensures
            r == (decision_open(self@) && idx == self@.active),
    {
        self.awaiting_decision() && idx == self.active
    }

    /// Switches the reports of the mouse.
    pub fn toggle_mouse(&mut self) -> (r: Task)
        requires
            old(self).wf(),
        ensures
            final(self).wf(),
            final(self)@ == (AppModel {
                mouse_enabled: !old(self)@.mouse_enabled,
                ..old(self)@
            }),
            r@ == types::TaskModel::Mouse(!old(self)@.mouse_enabled),
            final(self).sessions@.len() == old(self).sessions@.len(),
    {
        self.mouse_enabled = !self.mouse_enabled;
        Task::Mouse(self.mouse_enabled)
    }

    /// Opens the options and closes the lists.
    pub fn open_options_dialog(&mut self)
        requires
            old(self).wf(),
        ensures
            final(self).wf(),
            final(self)@ == with_options(old(self)@),
    {
        self.channel_picker = None;
        self.model_picker = None;
        self.channel_builder = None;
        self.options_dialog = Some(OptionsDialog { nav: ListNav::new(3) });
    }

    /// Sets a message in the active session. What details there were stay.
    pub fn say(&mut self, message: String)
        requires
            old(self).ready(),
        ensures
            final(self).ready(),
            final(self)@ == old(self)@.saying(message@),
    {
        broadcast use session::lemma_session_changed;

        let i: usize = self.active;
        self.sessions[i].error = Some(message);
    }

    /// Sets a message without details in the active session.
    pub fn tell(&mut self, message: String)
        requires
            old(self).ready(),
        ensures
            final(self).ready(),
            final(self)@ == old(self)@.telling(message@),
    {
        broadcast use session::lemma_session_changed;

        let i: usize = self.active;
        let s = &mut self.sessions[i];
        s.error = Some(message);
        s.error_debug = None;
    }

    /// Takes over a configuration that was read anew. The channels were made from it, and the
    /// first warning says what is wrong with it, if anything is.
    pub fn apply_reloaded_config(
        &mut self,
        fresh: Config,
        channels: ChannelRegistry,
        warnings: &Vec<String>,
    ) -> (r: (Task, Task))
        requires
            old(self).ready(),
            fresh.wf(),
            channels.wf(),
        ensures
            final(self).ready(),
            final(self)@ == reloaded(old(self)@, fresh, channels@, text::views(warnings@)),
            r.0@ == types::TaskModel::Theme(fresh.theme@),
            r.1@ == types::TaskModel::Mouse(fresh.mouse),
    {
        let theme = fresh.theme.clone();
        let mouse = fresh.mouse;
        let ghost m = self@;
        self.model_registry = ModelRegistry::new(&fresh.models);
        self.channels = channels;
        self.config = fresh;
        self.mouse_enabled = mouse;
        let message = if warnings.len() == 0 {
            "Config neu geladen.".to_string()
        } else {
            text::concat("Config neu geladen: ", text::join_texts(warnings, "; ").as_str())
        };
        self.tell(message);
        (Task::Theme(theme), Task::Mouse(mouse))
    }
}

/// The state with the options open and the lists closed.
pub open spec fn with_options(m: AppModel) -> AppModel {
    AppModel {
        channel_picker: None,
        model_picker: None,
        builder: None,
        options_dialog: Some(
            OptionsDialog { nav: ListNav { len: 3, cursor: 0, offset: 0, wrap: false } },
        ),
        ..m
    }
}

/// The state with a configuration that was read anew.
pub open spec fn reloaded(
    m: AppModel,
    fresh: Config,
    channels: registry::RegModel,
    warnings: Seq<Seq<char>>,
) -> AppModel {
    (AppModel {
        config: fresh,
        channels,
        models: models::all_configured(models::empty_registry(), fresh.models@),
        mouse_enabled: fresh.mouse,
        ..m
    }).telling(
        if warnings.len() == 0 {
            "Config neu geladen."@
        } else {
            "Config neu geladen: "@ + text::joined(warnings, "; "@)
        },
    )
}

/// The work to find out the state of containers.
pub open spec fn probes(
    map: Seq<(Seq<char>, registry::BoundModel)>,
    names: Seq<Seq<char>>,
) -> Seq<types::TaskModel>
    decreases names.len(),
{
    if names.len() == 0 {
        Seq::empty()
    } else {
        let before = probes(map, names.drop_last());
        match table::lookup(map, names.last()) {
            Some(c) if c.says().kind != ChannelKind::Local => before.push(
                types::TaskModel::Probe(c),
            ),
            _ => before,
        }
    }
}

/// The work at the start.
pub open spec fn starting(r: registry::RegModel) -> Seq<types::TaskModel> {
    let all = probes(r.map, table::keys(r.map));
    match r.default {
        Some(name) => match table::lookup(r.map, name) {
            Some(c) if c.says().kind == ChannelKind::PodmanRun => all.push(
                types::TaskModel::Warmup(c),
            ),
            _ => all,
        },
        None => all,
    }
}

/// The position of the first session with a number, or how many sessions there are.
pub open spec fn session_at(v: Seq<session::SessionModel>, id: usize) -> int
    decreases v.len(),
{
    if v.len() == 0 || v[0].id == id {
        0
    } else {
        1 + session_at(v.drop_first(), id)
    }
}

/// The last part of a path, or all of it.
pub fn path_tail(p: &str) -> (r: String)
    ensures
        r@ == tail_of(p@),
{
    match paths::file_name(p) {
        Some(n) => n,
        None => p.to_string(),
    }
}

// ---------------------------------------------------------------------------
// Laws
// ---------------------------------------------------------------------------
/// Going to the session on one side and back again shows the same session.
pub proof fn law_switching_back_shows_the_same_session(m: AppModel, back: bool)
    requires
        0 <= m.active < m.sessions.len(),
    ensures
        0 <= neighbour(m, back) < m.sessions.len(),
        neighbour(AppModel { active: neighbour(m, back), ..m }, !back) == m.active,
{
}

/// Closing a session keeps another one active, or ends the program.
pub proof fn law_a_session_stays_or_the_program_ends(m: AppModel)
    requires
        0 <= m.active < m.sessions.len(),
    ensures
        without_current(m).sessions.len() == m.sessions.len() - 1,
        without_current(m).sessions.len() == 0 ==> without_current(m).quit,
        without_current(m).sessions.len() > 0 ==> 0 <= without_current(m).active
            < without_current(m).sessions.len() && without_current(m).quit == m.quit,
{
}

/// A new session has a number that no other one has, and closing it again gives the sessions as
/// they were.
pub proof fn law_new_sessions_have_new_numbers(m: AppModel, i: int)
    requires
        0 <= i < m.sessions.len(),
        highest_id(m.sessions) < usize::MAX,
    ensures
        with_new_session(m).current().id != m.sessions[i].id,
        without_current(with_new_session(m)).sessions == m.sessions,
{
    lemma_highest_id(m.sessions, i);
    assert(with_new_session(m).sessions.remove(m.sessions.len() as int) =~= m.sessions);
}

proof fn lemma_highest_id(v: Seq<session::SessionModel>, i: int)
    requires
        0 <= i < v.len(),
    ensures
        v[i].id <= highest_id(v),
    decreases v.len(),
{
    if i < v.len() - 1 {
        lemma_highest_id(v.drop_last(), i);
    }
}

/// While a dialog is open nothing in the picture moves, and every question is such a dialog.
pub proof fn law_questions_stop_the_animation(m: AppModel)
    ensures
        dialog_open(m) ==> !is_animated(m),
        decision_open(m) ==> !is_animated(m),
{
}

/// What a known model is shown as is the model that is asked.
pub proof fn law_the_shown_model_is_asked(
    c: Config,
    m: models::RegistryModel,
    key: Seq<char>,
    e: models::EntryModel,
)
    requires
        table::lookup(m.entries, key) == Some(e),
        chosen_endpoint(c, m, Some(key)) is Ok,
    ensures
        (chosen_endpoint(c, m, Some(key))->Ok_0).model == shown_model(c, m, Some(key)),
{
}

/// The next session is the one to the right and the last one before is the one to the left; from an
/// end one comes to the other end.
pub proof fn law_neighbours_stand_side_by_side(m: AppModel)
    requires
        0 <= m.active < m.sessions.len(),
    ensures
        m.active + 1 < m.sessions.len() ==> neighbour(m, false) == m.active + 1,
        m.active + 1 == m.sessions.len() ==> neighbour(m, false) == 0,
        m.active > 0 ==> neighbour(m, true) == m.active - 1,
        m.active == 0 ==> neighbour(m, true) == m.sessions.len() - 1,
{
}

/// A new session comes last, is shown at once, is empty and idle, and leaves the others as they are.
pub proof fn law_a_new_session_is_shown(m: AppModel, i: int)
    requires
        0 <= i < m.sessions.len(),
    ensures
        ({
            let n = with_new_session(m);
            &&& n.sessions.len() == m.sessions.len() + 1
            &&& n.active == m.sessions.len()
            &&& n.sessions[i] == m.sessions[i]
            &&& n.current().chat.events.len() == 0
            &&& n.current().phase == Phase::Idle
            &&& n.current().editor.text.len() == 0
            &&& n.current().error is None
            &&& n.current().model_alias is None
            &&& n.current().chat_follow
            &&& m.channels.default is None ==> n.current().channel is None
        }),
{
}

/// A closed session is gone, the others stay in their order, and the one that took its place is
/// shown.
pub proof fn law_closing_shows_the_next_session(m: AppModel, i: int)
    requires
        0 <= m.active < m.sessions.len(),
        0 <= i < m.sessions.len() - 1,
    ensures
        ({
            let n = without_current(m);
            &&& i < m.active ==> n.sessions[i] == m.sessions[i]
            &&& i >= m.active ==> n.sessions[i] == m.sessions[i + 1]
            &&& m.active < m.sessions.len() - 1 ==> n.active == m.active
            &&& m.active == m.sessions.len() - 1 ==> n.active == m.active - 1
        }),
{
}

/// A session works while it waits for the model or a tool, retries or makes a summary, and only then.
pub proof fn law_when_a_session_works(s: session::SessionModel)
    ensures
        is_working(s) <==> (s.phase != Phase::Idle || s.open_tool_ids.len() > 0 || s.retrying is Some
            || s.compacting),
{
}

/// The state tells how many sessions work: none, the only one, or how many of how many.
pub proof fn law_the_state_counts_working_sessions(v: Seq<session::SessionModel>, s: session::SessionModel)
    ensures
        working(Seq::empty()) == 0,
        is_working(s) ==> working(v.push(s)) == working(v) + 1,
        !is_working(s) ==> working(v.push(s)) == working(v),
        working(v) == 0 ==> status_text(v) == "idle"@,
        working(v) > 0 && v.len() == 1 ==> status_text(v) == "busy"@,
        working(v) > 0 && v.len() != 1 ==> status_text(v) == text::decimal(working(v)) + "/"@
            + text::decimal(v.len()) + " busy"@,
{
    assert(v.push(s).drop_last() =~= v);
}

/// A tab is numbered from one and named by what is worked on: the repository and branch, else the
/// name of the directory, else the model.
pub proof fn law_tabs_are_named_by_what_is_worked_on(
    m: AppModel,
    i: int,
    root: Seq<char>,
    label: Seq<char>,
    host: HostModel,
)
    requires
        0 <= i < m.sessions.len(),
    ensures
        ({
            let s = m.sessions[i];
            let there = s.channel is Some && s.channel->0.says().host_root == Some(root);
            let number = text::decimal((i + 1) as nat) + ": "@;
            &&& there ==> title(m, i, HostModel::Repo(Some(label))) == number + label
            &&& there ==> title(m, i, HostModel::Repo(None)) == number + "?@?"@
            &&& there ==> title(m, i, HostModel::Plain) == number + (match paths::name_of(root) {
                Some(n) => n,
                None => root,
            })
            &&& s.channel is None ==> title(m, i, host) == number + shown_model(
                m.config,
                m.models,
                s.model_alias,
            )
        }),
{
}

/// The title of the shown session is its label without the number.
pub proof fn law_the_number_is_no_part_of_the_title(m: AppModel, rest: Seq<char>)
    requires
        0 <= m.active < m.tab_labels.len(),
        m.tab_labels[m.active] == text::decimal((m.active + 1) as nat) + ": "@ + rest,
    ensures
        bare_title(m) == rest,
{
    let number = numbering(m.active);
    let label = number + rest;
    assert(number =~= label.take(number.len() as int));
    assert(label.skip(number.len() as int) =~= rest);
}

/// A model that is known by its key is asked at its own provider, under its own name, with its window
/// or the general one; without its provider it cannot be asked.
pub proof fn law_known_models_are_asked_at_their_provider(
    c: Config,
    m: models::RegistryModel,
    key: Seq<char>,
    e: models::EntryModel,
)
    requires
        table::lookup(m.entries, key) == Some(e),
    ensures
        ({
            let r = chosen_endpoint(c, m, Some(key));
            let p = table::lookup(c.provider@, e.provider);
            &&& p is None ==> r == Err::<config::EndpointModel, Seq<char>>(
                "Unbekannter Provider '"@ + e.provider + "'"@,
            )
            &&& p is Some ==> r == Ok::<config::EndpointModel, Seq<char>>(
                config::endpoint_at(
                    p->0,
                    e.provider,
                    models::key_of(e),
                    e.server_model,
                    if e.context_window is Some && e.context_window->0 > 0 {
                        e.context_window->0
                    } else {
                        c.context_window
                    },
                ),
            )
        }),
{
}

/// A reload takes everything from the new configuration and keeps the sessions; what went wrong is
/// said.
pub proof fn law_a_reload_keeps_the_sessions(
    m: AppModel,
    fresh: Config,
    channels: registry::RegModel,
    warnings: Seq<Seq<char>>,
    i: int,
)
    requires
        0 <= m.active < m.sessions.len(),
        0 <= i < m.sessions.len(),
    ensures
        ({
            let n = reloaded(m, fresh, channels, warnings);
            &&& n.config == fresh
            &&& n.channels == channels
            &&& n.mouse_enabled == fresh.mouse
            &&& n.sessions.len() == m.sessions.len()
            &&& n.active == m.active
            &&& i != m.active ==> n.sessions[i] == m.sessions[i]
            &&& n.current().chat == m.current().chat
            &&& warnings.len() == 0 ==> n.current().error == Some("Config neu geladen."@)
            &&& warnings.len() > 0 ==> n.current().error == Some(
                "Config neu geladen: "@ + text::joined(warnings, "; "@),
            )
        }),
{
}

proof fn lemma_probes(
    map: Seq<(Seq<char>, registry::BoundModel)>,
    names: Seq<Seq<char>>,
    k: int,
    c: registry::BoundModel,
)
    requires
        0 <= k < names.len(),
        table::lookup(map, names[k]) == Some(c),
        c.says().kind != ChannelKind::Local,
    ensures
        probes(map, names).contains(types::TaskModel::Probe(c)),
    decreases names.len(),
{
    let before = probes(map, names.drop_last());
    let all = probes(map, names);
    if k == names.len() - 1 {
        assert(all[all.len() - 1] == types::TaskModel::Probe(c));
    } else {
        lemma_probes(map, names.drop_last(), k, c);
        let i = choose|i: int| 0 <= i < before.len() && before[i] == types::TaskModel::Probe(c);
        assert(all[i] == types::TaskModel::Probe(c));
    }
}

/// At the start every channel with a container is looked at, and the default one is started where its
/// container is its own.
pub proof fn law_the_start_looks_at_every_container(
    r: registry::RegModel,
    k: int,
    c: registry::BoundModel,
    name: Seq<char>,
)
    requires
        0 <= k < table::keys(r.map).len(),
        table::lookup(r.map, table::keys(r.map)[k]) == Some(c),
        c.says().kind != ChannelKind::Local,
    ensures
        starting(r).contains(types::TaskModel::Probe(c)),
        r.default == Some(name) && table::lookup(r.map, name) == Some(c) && c.says().kind
            == ChannelKind::PodmanRun ==> starting(r).last() == types::TaskModel::Warmup(c),
{
    let names = table::keys(r.map);
    lemma_probes(r.map, names, k, c);
    let all = probes(r.map, names);
    let i = choose|i: int| 0 <= i < all.len() && all[i] == types::TaskModel::Probe(c);
    assert(starting(r)[i] == types::TaskModel::Probe(c));
}

proof fn lemma_session_at_is(v: Seq<session::SessionModel>, i: int)
    requires
        0 <= i < v.len(),
        forall|j: int| 0 <= j < v.len() && j != i ==> (#[trigger] v[j]).id != v[i].id,
    ensures
        session_at(v, v[i].id) == i,
    decreases v.len(),
{
    if i > 0 {
        let t = v.drop_first();
        assert(v[0].id != v[i].id);
        assert forall|j: int| 0 <= j < t.len() && j != i - 1 implies (#[trigger] t[j]).id != t[i
            - 1].id by {
            assert(t[j] == v[j + 1]);
        }
        lemma_session_at_is(t, i - 1);
    }
}

/// A session is found by its number.
pub proof fn law_sessions_are_found_by_their_number(v: Seq<session::SessionModel>, i: int)
    requires
        0 <= i < v.len(),
        forall|j: int| 0 <= j < v.len() && j != i ==> (#[trigger] v[j]).id != v[i].id,
    ensures
        session_at(v, v[i].id) == i,
{
    lemma_session_at_is(v, i);
}

/// Every dialog counts as one: while any of them is open, the keys belong to it.
pub proof fn law_every_dialog_counts(m: AppModel)
    ensures
        dialog_open(m) <==> (m.channel_picker is Some || m.model_picker is Some || m.builder is Some
            || m.pre_send_confirm is Some || m.exec_confirm is Some || m.stop_confirm is Some
            || m.channel_close is Some || m.branch_confirm is Some || m.path_confirm is Some
            || m.options_dialog is Some || m.http_headers_dialog),
        decision_open(m) <==> (m.exec_confirm is Some || m.pre_send_confirm is Some
            || m.stop_confirm is Some || m.channel_close is Some || m.branch_confirm is Some
            || m.path_confirm is Some),
        is_animated(m) ==> working(m.sessions) > 0,
{
}

/// An emptied input takes the message with it and keeps everything else of the session.
pub proof fn law_an_emptied_input_keeps_the_session(s: session::SessionModel)
    ensures
        cleared(s).editor.text.len() == 0,
        cleared(s).editor.width == s.editor.width,
        cleared(s).error is None,
        cleared(s).error_debug is None,
        cleared(s).chat == s.chat,
        cleared(s).channel == s.channel,
        cleared(s).phase == s.phase,
        cleared(s).input_history == s.input_history,
{
}

/// A model that is named by the identity of its provider is asked as the known one with that
/// identity; without a choice the default of the configuration counts in the same way.
pub proof fn law_models_are_known_by_their_identity(
    c: Config,
    m: models::RegistryModel,
    provider: Seq<char>,
    server: Seq<char>,
    k: int,
)
    requires
        !provider.contains('/'),
        0 <= k < m.entries.len(),
        m.entries[k].1.provider == provider,
        m.entries[k].1.server_model == server,
        forall|j: int|
            0 <= j < k ==> (#[trigger] m.entries[j]).1.provider != provider
                || m.entries[j].1.server_model != server,
    ensures
        ({
            let id = provider + seq!['/'] + server;
            let e = m.entries[k].1;
            &&& known_by_id(m, id) == Some(e)
            &&& table::lookup(m.entries, id) is None ==> chosen_endpoint(c, m, Some(id))
                == entry_endpoint(c, e)
            &&& config::default_alias(c) is None && c.model@ == id ==> chosen_endpoint(c, m, None)
                == entry_endpoint(c, e) && shown_model(c, m, None) == e.provider + "/"@ + e.alias
        }),
{
    text::law_texts_are_cut_at_the_first(provider, server, '/');
    models::law_models_are_found_by_their_server_name(m.entries, provider, server, k);
}

/// Without a choice the default of the configuration is asked and shown: the alias where it names
/// one.
pub proof fn law_the_default_model_is_asked_and_shown(
    c: Config,
    m: models::RegistryModel,
    a: config::AliasModel,
)
    requires
        config::default_alias(c) == Some(a),
    ensures
        shown_model(c, m, None) == a.provider + "/"@ + a.alias,
        chosen_endpoint(c, m, None) == config::resolved_alias(c, a),
        table::lookup(c.provider@, a.provider) matches Some(p) ==> {
            let r = chosen_endpoint(c, m, None);
            &&& r is Ok
            &&& (r->Ok_0).model == a.provider + "/"@ + a.alias
            &&& (r->Ok_0).api_model == a.server_model
            &&& (r->Ok_0).base_url == text::trimmed_end_of(p.base_url@, '/')
            &&& a.context_window is None ==> (r->Ok_0).context_window == c.context_window
            &&& a.context_window matches Some(w) ==> (w > 0 ==> (r->Ok_0).context_window == w)
        },
        table::lookup(c.provider@, a.provider) is None ==> chosen_endpoint(c, m, None) == Err::<
            config::EndpointModel,
            Seq<char>,
        >(
            "Unbekannter Provider '"@ + a.provider + "' in Modell '"@ + a.provider + "/"@ + a.alias
                + "'"@,
        ),
{
}

/// A chosen model that nobody knows is shown as it was chosen.
pub proof fn law_unknown_models_are_shown_as_chosen(
    c: Config,
    m: models::RegistryModel,
    key: Seq<char>,
)
    requires
        table::lookup(m.entries, key) is None,
        table::lookup(c.models@, key) is None,
    ensures
        shown_model(c, m, Some(key)) == key,
{
}

/// The options are shown alone: the lists and the dialog for a channel are closed.
pub proof fn law_the_options_are_shown_alone(m: AppModel)
    ensures
        with_options(m).options_dialog is Some,
        (with_options(m).options_dialog->0).nav.cursor == 0,
        (with_options(m).options_dialog->0).nav.len == 3,
        with_options(m).channel_picker is None,
        with_options(m).model_picker is None,
        with_options(m).builder is None,
        with_options(m).sessions == m.sessions,
{
}

/// Every session has a tab.
pub proof fn law_every_session_has_a_tab(m: AppModel, hosts: Seq<HostModel>, i: int)
    requires
        0 <= i < m.sessions.len(),
    ensures
        titles(m, hosts).len() == m.sessions.len(),
        titles(m, hosts)[i] == title(m, i, hosts[i]),
{
}

} // verus!
