//! The dialogs of the program, and the work that it asks of its surroundings.

use super::list::{ListNav, Selection};
use crate::channel;
use crate::channel::builder;
use crate::channel::builder::{ContainerInfo, HostPath, Tunnel, WorktreeEntry};
use crate::channel::registry;
use crate::channel::{BoundChannel, ChannelKind, WorktreeInfo};
use crate::chat;
use crate::chat::Chat;
use crate::config;
use crate::config::ResolvedEndpoint;
use crate::editor;
use crate::editor::Editor;
use crate::llm;
use crate::llm::WireMessage;
use crate::perm::Permission;
use crate::text;
use vstd::prelude::*;
use vstd::string::*;

verus! {

// ---------------------------------------------------------------------------
// Decisions
// ---------------------------------------------------------------------------
/// What happens to commands on the host, until the program ends.
#[derive(Debug, Clone, Copy, PartialEq, Eq, Structural)]
pub enum LocalExecMode {
    /// The user is asked before a prompt is sent.
    Ask,
    /// The user answers for it.
    Trusted,
    /// The user is asked for every command.
    ConfirmEach,
}

impl Default for LocalExecMode {
    fn default() -> (r: Self)
        ensures
            r == LocalExecMode::Ask,
    {
        LocalExecMode::Ask
    }
}

/// The question before a prompt that may run commands on the host: answer for it, be asked for
/// every command, or do not send.
#[derive(Debug, Clone, Copy, PartialEq, Eq, Structural)]
pub struct PreSendConfirm {
    pub session: usize,
    pub nav: ListNav,
}

/// The question before one command: run it or not. The worker waits at `reply`.
#[derive(Debug, PartialEq)]
pub struct ExecConfirm {
    pub label: String,
    pub command: String,
    pub nav: ListNav,
    pub reply: u64,
}

/// What the question before a command holds.
pub struct ExecModel {
    pub label: Seq<char>,
    pub command: Seq<char>,
    pub nav: ListNav,
    pub reply: u64,
}

impl View for ExecConfirm {
    type V = ExecModel;

    open spec fn view(&self) -> ExecModel {
        ExecModel {
            label: self.label@,
            command: self.command@,
            nav: self.nav,
            reply: self.reply,
        }
    }
}

/// What would be lost with a channel.
#[derive(Debug, PartialEq)]
pub struct StopConfirmEntry {
    pub channel: String,
    pub container: Option<String>,
    pub notes: Vec<String>,
}

/// What is known of what would be lost with a channel.
pub struct StopEntryModel {
    pub channel: Seq<char>,
    pub container: Option<Seq<char>>,
    pub notes: Seq<Seq<char>>,
}

impl View for StopConfirmEntry {
    type V = StopEntryModel;

    open spec fn view(&self) -> StopEntryModel {
        StopEntryModel {
            channel: self.channel@,
            container: text::opt_view(self.container),
            notes: text::views(self.notes@),
        }
    }
}

/// What the entries of a list hold.
pub open spec fn stop_views(v: Seq<StopConfirmEntry>) -> Seq<StopEntryModel> {
    v.map_values(|e: StopConfirmEntry| e@)
}

/// The question before the end, where something would be lost: end or not.
#[derive(Debug, PartialEq)]
pub struct StopConfirm {
    pub entries: Vec<StopConfirmEntry>,
    /// How many more channels there are than entries.
    pub more: usize,
    pub nav: ListNav,
}

/// What the question before the end holds.
pub struct StopModel {
    pub entries: Seq<StopEntryModel>,
    pub more: int,
    pub nav: ListNav,
}

impl View for StopConfirm {
    type V = StopModel;

    open spec fn view(&self) -> StopModel {
        StopModel { entries: stop_views(self.entries@), more: self.more as int, nav: self.nav }
    }
}

/// What a new branch is made from.
#[derive(Debug)]
pub struct BranchPending {
    pub channel_kind: ChannelKind,
    pub channel_root: String,
    pub history: Chat,
    pub branch_name: String,
    pub has_worktree: bool,
    /// Image, working directory and home directory of the container.
    pub podman_spec: Option<(String, String, String)>,
}

/// What is known of what a new branch is made from.
pub struct PendingModel {
    pub channel_kind: ChannelKind,
    pub channel_root: Seq<char>,
    pub history: chat::ChatModel,
    pub branch_name: Seq<char>,
    pub has_worktree: bool,
    pub podman_spec: Option<(Seq<char>, Seq<char>, Seq<char>)>,
}

impl View for BranchPending {
    type V = PendingModel;

    open spec fn view(&self) -> PendingModel {
        PendingModel {
            channel_kind: self.channel_kind,
            channel_root: self.channel_root@,
            history: self.history@,
            branch_name: self.branch_name@,
            has_worktree: self.has_worktree,
            podman_spec: channel::spec_view(self.podman_spec),
        }
    }
}

/// The question what to do with a branch that is there already.
#[derive(Debug, PartialEq)]
pub struct BranchConfirm {
    pub summary: String,
    pub nav: ListNav,
    pub options: Vec<String>,
}

/// What the question about a branch holds.
pub struct BranchAskModel {
    pub summary: Seq<char>,
    pub nav: ListNav,
    pub options: Seq<Seq<char>>,
}

impl View for BranchConfirm {
    type V = BranchAskModel;

    open spec fn view(&self) -> BranchAskModel {
        BranchAskModel {
            summary: self.summary@,
            nav: self.nav,
            options: text::views(self.options@),
        }
    }
}

/// The question whether to make a directory that is not there.
#[derive(Debug, PartialEq)]
pub struct PathConfirm {
    pub path: String,
}

/// Why a channel is closed.
#[derive(Debug, Clone, Copy, PartialEq, Eq, Structural)]
pub enum CloseKind {
    /// In the list of channels: it is forgotten, and the list opens again.
    Picker,
    /// With its session, which ends.
    Session,
}

/// How far the closing of a channel is.
#[derive(Debug, PartialEq)]
pub enum ChannelClosePhase {
    /// A session still works on it: close or not.
    ActiveConfirm { nav: ListNav },
    /// Its worktree holds changes: do not close, delete, keep, or commit and delete.
    Worktree { summary: String, nav: ListNav, options: Vec<String> },
    /// Its container holds changes: close or not.
    Container { notes: Vec<String>, nav: ListNav },
}

/// How far the closing of a channel is.
pub enum PhaseModel {
    ActiveConfirm { nav: ListNav },
    Worktree { summary: Seq<char>, nav: ListNav, options: Seq<Seq<char>> },
    Container { notes: Seq<Seq<char>>, nav: ListNav },
}

impl View for ChannelClosePhase {
    type V = PhaseModel;

    open spec fn view(&self) -> PhaseModel {
        match self {
            ChannelClosePhase::ActiveConfirm { nav } => PhaseModel::ActiveConfirm { nav: *nav },
            ChannelClosePhase::Worktree { summary, nav, options } => PhaseModel::Worktree {
                summary: summary@,
                nav: *nav,
                options: text::views(options@),
            },
            ChannelClosePhase::Container { notes, nav } => PhaseModel::Container {
                notes: text::views(notes@),
                nav: *nav,
            },
        }
    }
}

/// The position in the list of a phase.
pub open spec fn phase_nav(p: PhaseModel) -> ListNav {
    match p {
        PhaseModel::ActiveConfirm { nav } => nav,
        PhaseModel::Worktree { nav, .. } => nav,
        PhaseModel::Container { nav, .. } => nav,
    }
}

/// The phase with another position.
pub open spec fn with_nav(p: PhaseModel, to: ListNav) -> PhaseModel {
    match p {
        PhaseModel::ActiveConfirm { .. } => PhaseModel::ActiveConfirm { nav: to },
        PhaseModel::Worktree { summary, options, .. } => PhaseModel::Worktree {
            summary,
            nav: to,
            options,
        },
        PhaseModel::Container { notes, .. } => PhaseModel::Container { notes, nav: to },
    }
}

/// The closing of a channel.
#[derive(Debug, PartialEq)]
pub struct ChannelClose {
    pub name: String,
    pub kind: CloseKind,
    pub phase: ChannelClosePhase,
}

/// What is known of the closing of a channel.
pub struct CloseModel {
    pub name: Seq<char>,
    pub kind: CloseKind,
    pub phase: PhaseModel,
}

impl View for ChannelClose {
    type V = CloseModel;

    open spec fn view(&self) -> CloseModel {
        CloseModel { name: self.name@, kind: self.kind, phase: self.phase@ }
    }
}

/// What can be done with the worktree of a channel that is closed.
pub open spec fn worktree_choices() -> Seq<Seq<char>> {
    seq![
        "Cancel – keep channel open"@,
        "Continue – delete worktree & close channel"@,
        "Keep – keep worktree & close channel"@,
        "Commit & delete – create snapshot, then delete"@,
    ]
}

/// What can be done with the worktree of a channel that is closed.
pub fn channel_close_worktree_options() -> (r: Vec<String>)
    ensures
        text::views(r@) == worktree_choices(),
        r@.len() == 4,
{
    let r = text::texts(
        &[
            "Cancel – keep channel open",
            "Continue – delete worktree & close channel",
            "Keep – keep worktree & close channel",
            "Commit & delete – create snapshot, then delete",
        ],
    );
    assert(text::views(r@) =~= worktree_choices());
    assert(text::views(r@).len() == 4);
    r
}

/// The options of the program: its version, the mouse and the model.
#[derive(Debug, Clone, Copy, PartialEq, Eq, Structural)]
pub struct OptionsDialog {
    pub nav: ListNav,
}

// ---------------------------------------------------------------------------
// Choices
// ---------------------------------------------------------------------------
/// A list of choices and the position in it.
pub struct SelModel<M> {
    pub items: Seq<M>,
    pub nav: ListNav,
}

/// An entry in the list of channels.
#[derive(Debug, PartialEq)]
pub enum ChannelPick {
    NoChannel,
    Channel { name: String },
    /// Build a new one.
    NewChannel,
}

/// What an entry in the list of channels holds.
pub enum PickModel {
    NoChannel,
    Channel { name: Seq<char> },
    NewChannel,
}

impl View for ChannelPick {
    type V = PickModel;

    open spec fn view(&self) -> PickModel {
        match self {
            ChannelPick::NoChannel => PickModel::NoChannel,
            ChannelPick::Channel { name } => PickModel::Channel { name: name@ },
            ChannelPick::NewChannel => PickModel::NewChannel,
        }
    }
}

/// What the entries of a list hold.
pub open spec fn pick_views(v: Seq<ChannelPick>) -> Seq<PickModel> {
    v.map_values(|p: ChannelPick| p@)
}

/// The list of channels.
pub struct ChannelPicker {
    pub items: Selection<ChannelPick>,
}

impl View for ChannelPicker {
    type V = SelModel<PickModel>;

    open spec fn view(&self) -> SelModel<PickModel> {
        SelModel { items: pick_views(self.items.items@), nav: self.items.nav }
    }
}

/// An entry in the list of models.
#[derive(Debug, PartialEq)]
pub enum ModelPick {
    /// The default model, where the list does not hold it.
    Default,
    Model { key: String, display: String },
}

/// What an entry in the list of models holds.
pub enum ModelPickModel {
    Default,
    Model { key: Seq<char>, display: Seq<char> },
}

impl View for ModelPick {
    type V = ModelPickModel;

    open spec fn view(&self) -> ModelPickModel {
        match self {
            ModelPick::Default => ModelPickModel::Default,
            ModelPick::Model { key, display } => ModelPickModel::Model {
                key: key@,
                display: display@,
            },
        }
    }
}

/// What the entries of a list hold.
pub open spec fn model_pick_views(v: Seq<ModelPick>) -> Seq<ModelPickModel> {
    v.map_values(|p: ModelPick| p@)
}

/// The list of models.
pub struct ModelPicker {
    pub items: Selection<ModelPick>,
    /// Whether the providers are being asked.
    pub loading: bool,
}

/// What the list of models holds.
pub struct ModelPickerModel {
    pub items: Seq<ModelPickModel>,
    pub nav: ListNav,
    pub loading: bool,
}

impl View for ModelPicker {
    type V = ModelPickerModel;

    open spec fn view(&self) -> ModelPickerModel {
        ModelPickerModel {
            items: model_pick_views(self.items.items@),
            nav: self.items.nav,
            loading: self.loading,
        }
    }
}

// ---------------------------------------------------------------------------
// The builder
// ---------------------------------------------------------------------------
/// An input of the builder.
#[derive(Debug, PartialEq)]
pub enum BuilderEdit {
    HostPath(Editor),
    Branch(Editor),
}

/// What an input of the builder holds.
pub enum EditModel {
    HostPath(editor::EditorModel),
    Branch(editor::EditorModel),
}

impl View for BuilderEdit {
    type V = EditModel;

    open spec fn view(&self) -> EditModel {
        match self {
            BuilderEdit::HostPath(e) => EditModel::HostPath(e@),
            BuilderEdit::Branch(e) => EditModel::Branch(e@),
        }
    }
}

/// What an input that may be missing holds.
pub open spec fn edit_view(o: Option<BuilderEdit>) -> Option<EditModel> {
    match o {
        Some(e) => Some(e@),
        None => None,
    }
}

/// The builder of channels: where, which directory, which worktree.
pub struct ChannelBuilderState {
    pub tunnels: Selection<Tunnel>,
    pub host_paths: Selection<HostPath>,
    pub worktrees: Selection<WorktreeEntry>,
    /// The column with the cursor.
    pub col: usize,
    pub container_info: Option<ContainerInfo>,
    pub images_loaded: bool,
    /// Whether the chosen directory is a repository.
    pub current_is_git: bool,
    /// The directory of the command line.
    pub argv_path: Option<String>,
    pub edit: Option<BuilderEdit>,
    pub edit_error: Option<String>,
}

/// What the builder holds.
pub struct BuilderModel {
    pub tunnels: SelModel<builder::TunnelModel>,
    pub host_paths: SelModel<Seq<char>>,
    pub worktrees: SelModel<builder::BranchModel>,
    pub col: int,
    pub container_info: Option<builder::InfoModel>,
    pub images_loaded: bool,
    pub current_is_git: bool,
    pub argv_path: Option<Seq<char>>,
    pub edit: Option<EditModel>,
    pub edit_error: Option<Seq<char>>,
}

impl View for ChannelBuilderState {
    type V = BuilderModel;

    open spec fn view(&self) -> BuilderModel {
        BuilderModel {
            tunnels: SelModel {
                items: builder::tunnel_views(self.tunnels.items@),
                nav: self.tunnels.nav,
            },
            host_paths: SelModel {
                items: builder::host_views(self.host_paths.items@),
                nav: self.host_paths.nav,
            },
            worktrees: SelModel {
                items: builder::branch_views(self.worktrees.items@),
                nav: self.worktrees.nav,
            },
            col: self.col as int,
            container_info: builder::info_view(self.container_info),
            images_loaded: self.images_loaded,
            current_is_git: self.current_is_git,
            argv_path: text::opt_view(self.argv_path),
            edit: edit_view(self.edit),
            edit_error: text::opt_view(self.edit_error),
        }
    }
}

impl ChannelBuilderState {
    /// The positions belong to their lists, and the input is sound.
    pub open spec fn wf(&self) -> bool {
        &&& self.tunnels.wf()
        &&& self.host_paths.wf()
        &&& self.worktrees.wf()
        &&& (self.edit matches Some(BuilderEdit::HostPath(e)) ==> e.wf())
        &&& (self.edit matches Some(BuilderEdit::Branch(e)) ==> e.wf())
    }
}

/// What was chosen in the builder.
#[derive(Debug)]
pub struct BuilderChoice {
    pub tunnel: Tunnel,
    pub host_root: String,
    /// The chosen worktree or branch, in a repository.
    pub worktree: Option<WorktreeEntry>,
    pub container_info: Option<ContainerInfo>,
    /// The branch that gets a worktree first.
    pub pending_branch: Option<String>,
}

/// What is known of what was chosen in the builder.
pub struct ChoiceModel {
    pub tunnel: builder::TunnelModel,
    pub host_root: Seq<char>,
    pub worktree: Option<builder::BranchModel>,
    pub container_info: Option<builder::InfoModel>,
    pub pending_branch: Option<Seq<char>>,
}

/// What an entry that may be missing holds.
pub open spec fn entry_view(o: Option<WorktreeEntry>) -> Option<builder::BranchModel> {
    match o {
        Some(e) => Some(e@),
        None => None,
    }
}

impl View for BuilderChoice {
    type V = ChoiceModel;

    open spec fn view(&self) -> ChoiceModel {
        ChoiceModel {
            tunnel: self.tunnel@,
            host_root: self.host_root@,
            worktree: entry_view(self.worktree),
            container_info: builder::info_view(self.container_info),
            pending_branch: text::opt_view(self.pending_branch),
        }
    }
}

// ---------------------------------------------------------------------------
// Work for the surroundings
// ---------------------------------------------------------------------------
/// What the program asks of its surroundings.
#[derive(Debug)]
pub enum Task {
    Nothing,
    /// Ask the model.
    Worker {
        session: usize,
        endpoint: ResolvedEndpoint,
        messages: Vec<WireMessage>,
        permission: Permission,
        /// Whether the history is to be summarised first.
        compact: bool,
        mode: LocalExecMode,
    },
    /// Summarise the history.
    Summarise { session: usize, endpoint: ResolvedEndpoint, messages: Vec<WireMessage> },
    /// Run a command of the user.
    Run { session: usize, command: String },
    /// Tell a waiting worker whether its command may run.
    Reply { to: u64, consent: bool },
    /// Switch the reports of the mouse on or off.
    Mouse(bool),
    /// Show another theme.
    Theme(String),
    /// Ask the providers, given by name, address and key, for their models.
    FetchModels(Vec<(String, String, Option<String>)>),
    /// Find out whether a directory is a repository, to commit in it.
    CheckCommit { host: String, message: String },
    /// Commit everything.
    Commit { host: String, message: String },
    /// Find out about a branch.
    InspectBranch(BranchPending),
    /// Make a worktree for a branch.
    MakeBranch { pending: BranchPending, skip_copy: bool, move_branch: bool },
    /// Find the worktree of a branch and use it; make one where there is none.
    UseWorktree(BranchPending),
    /// Commit in the worktree of a branch, take the changes over, and make a worktree.
    SaveAndMake(BranchPending),
    /// Use a worktree that is there.
    ReuseBranch { pending: BranchPending, path: String },
    /// Remove the worktree that was made for a branch.
    DropWorktree { root: String, branch: String },
    /// Find out whether a worktree holds changes, to close its channel.
    CheckWorktree { name: String, kind: CloseKind, worktree: WorktreeInfo },
    /// Remove a worktree, after a commit where asked for, and go on closing its channel.
    RemoveWorktree { name: String, kind: CloseKind, worktree: WorktreeInfo, commit: bool },
    /// Find out whether a container holds changes, to close its channel.
    CheckContainer { name: String, kind: CloseKind },
    /// Run `podman` with the arguments that stop a container.
    StopContainer(Vec<String>),
    /// Find out what would be lost at the end.
    CheckChannels,
    /// Start a channel.
    Warmup(BoundChannel),
    /// Find out the state of a channel.
    Probe(BoundChannel),
    /// Make a copy of a channel.
    Duplicate(BoundChannel),
    /// Open the builder.
    OpenBuilder,
    /// Find out about the directory with which the builder starts.
    LoadStart(Option<String>),
    /// Find out about a directory.
    LoadHost(Option<String>),
    /// Find the image that is meant for a directory.
    FindImage(String),
    /// Find the container that has a directory mounted.
    FindContainer { path: String, image: String },
    /// Make what a channel needs.
    PrepareChannel(BuilderChoice),
    /// Find out whether a path is there.
    CheckPath(String),
    /// Make a directory.
    MakeDir(String),
    /// Make a branch, from another one where it is named.
    CreateBranch { repo: String, name: String, source: Option<String> },
}

/// What work for the surroundings holds.
pub enum TaskModel {
    Nothing,
    Worker {
        session: usize,
        endpoint: config::EndpointModel,
        messages: Seq<llm::MessageModel>,
        permission: Permission,
        compact: bool,
        mode: LocalExecMode,
    },
    Summarise {
        session: usize,
        endpoint: config::EndpointModel,
        messages: Seq<llm::MessageModel>,
    },
    Run { session: usize, command: Seq<char> },
    Reply { to: u64, consent: bool },
    Mouse(bool),
    Theme(Seq<char>),
    FetchModels(Seq<(Seq<char>, Seq<char>, Option<Seq<char>>)>),
    CheckCommit { host: Seq<char>, message: Seq<char> },
    Commit { host: Seq<char>, message: Seq<char> },
    InspectBranch(PendingModel),
    MakeBranch { pending: PendingModel, skip_copy: bool, move_branch: bool },
    UseWorktree(PendingModel),
    SaveAndMake(PendingModel),
    ReuseBranch { pending: PendingModel, path: Seq<char> },
    DropWorktree { root: Seq<char>, branch: Seq<char> },
    CheckWorktree { name: Seq<char>, kind: CloseKind, worktree: channel::WorktreeModel },
    RemoveWorktree {
        name: Seq<char>,
        kind: CloseKind,
        worktree: channel::WorktreeModel,
        commit: bool,
    },
    CheckContainer { name: Seq<char>, kind: CloseKind },
    StopContainer(Seq<Seq<char>>),
    CheckChannels,
    Warmup(registry::BoundModel),
    Probe(registry::BoundModel),
    Duplicate(registry::BoundModel),
    OpenBuilder,
    LoadStart(Option<Seq<char>>),
    LoadHost(Option<Seq<char>>),
    FindImage(Seq<char>),
    FindContainer { path: Seq<char>, image: Seq<char> },
    PrepareChannel(ChoiceModel),
    CheckPath(Seq<char>),
    MakeDir(Seq<char>),
    CreateBranch { repo: Seq<char>, name: Seq<char>, source: Option<Seq<char>> },
}

/// What a list of providers holds.
pub open spec fn provider_views(v: Seq<(String, String, Option<String>)>) -> Seq<
    (Seq<char>, Seq<char>, Option<Seq<char>>),
> {
    v.map_values(|p: (String, String, Option<String>)| (p.0@, p.1@, text::opt_view(p.2)))
}

impl View for Task {
    type V = TaskModel;

    open spec fn view(&self) -> TaskModel {
        match self {
            Task::Nothing => TaskModel::Nothing,
            Task::Worker { session, endpoint, messages, permission, compact, mode } => {
                TaskModel::Worker {
                    session: *session,
                    endpoint: endpoint@,
                    messages: llm::message_views(messages@),
                    permission: *permission,
                    compact: *compact,
                    mode: *mode,
                }
            },
            Task::Summarise { session, endpoint, messages } => TaskModel::Summarise {
                session: *session,
                endpoint: endpoint@,
                messages: llm::message_views(messages@),
            },
            Task::Run { session, command } => TaskModel::Run {
                session: *session,
                command: command@,
            },
            Task::Reply { to, consent } => TaskModel::Reply { to: *to, consent: *consent },
            Task::Mouse(on) => TaskModel::Mouse(*on),
            Task::Theme(t) => TaskModel::Theme(t@),
            Task::FetchModels(v) => TaskModel::FetchModels(provider_views(v@)),
            Task::CheckCommit { host, message } => TaskModel::CheckCommit {
                host: host@,
                message: message@,
            },
            Task::Commit { host, message } => TaskModel::Commit {
                host: host@,
                message: message@,
            },
            Task::InspectBranch(p) => TaskModel::InspectBranch(p@),
            Task::MakeBranch { pending, skip_copy, move_branch } => TaskModel::MakeBranch {
                pending: pending@,
                skip_copy: *skip_copy,
                move_branch: *move_branch,
            },
            Task::UseWorktree(p) => TaskModel::UseWorktree(p@),
            Task::SaveAndMake(p) => TaskModel::SaveAndMake(p@),
            Task::ReuseBranch { pending, path } => TaskModel::ReuseBranch {
                pending: pending@,
                path: path@,
            },
            Task::DropWorktree { root, branch } => TaskModel::DropWorktree {
                root: root@,
                branch: branch@,
            },
            Task::CheckWorktree { name, kind, worktree } => TaskModel::CheckWorktree {
                name: name@,
                kind: *kind,
                worktree: worktree@,
            },
            Task::RemoveWorktree { name, kind, worktree, commit } => TaskModel::RemoveWorktree {
                name: name@,
                kind: *kind,
                worktree: worktree@,
                commit: *commit,
            },
            Task::CheckContainer { name, kind } => TaskModel::CheckContainer {
                name: name@,
                kind: *kind,
            },
            Task::StopContainer(v) => TaskModel::StopContainer(text::views(v@)),
            Task::CheckChannels => TaskModel::CheckChannels,
            Task::Warmup(c) => TaskModel::Warmup(c@),
            Task::Probe(c) => TaskModel::Probe(c@),
            Task::Duplicate(c) => TaskModel::Duplicate(c@),
            Task::OpenBuilder => TaskModel::OpenBuilder,
            Task::LoadStart(p) => TaskModel::LoadStart(text::opt_view(*p)),
            Task::LoadHost(p) => TaskModel::LoadHost(text::opt_view(*p)),
            Task::FindImage(p) => TaskModel::FindImage(p@),
            Task::FindContainer { path, image } => TaskModel::FindContainer {
                path: path@,
                image: image@,
            },
            Task::PrepareChannel(c) => TaskModel::PrepareChannel(c@),
            Task::CheckPath(p) => TaskModel::CheckPath(p@),
            Task::MakeDir(p) => TaskModel::MakeDir(p@),
            Task::CreateBranch { repo, name, source } => TaskModel::CreateBranch {
                repo: repo@,
                name: name@,
                source: text::opt_view(*source),
            },
        }
    }
}

/// What the tasks of a list hold.
pub open spec fn task_views(v: Seq<Task>) -> Seq<TaskModel> {
    v.map_values(|t: Task| t@)
}

} // verus!
