//! Working on another branch: a worktree, a channel and a session of its own.

use super::keys::{KeyCode, KeyEvent};
use super::list;
use super::list::{move_by_line, ListNav};
use super::session;
use super::session::{apply_channel_permission_default, Session};
use super::state;
use super::state::{App, AppModel};
use super::types;
use super::types::{BranchConfirm, BranchPending, Task};
use crate::channel;
use crate::channel::builder;
use crate::channel::builder::{run_channel_name, run_container_name};
use crate::channel::local;
use crate::channel::podman;
use crate::channel::registry;
use crate::channel::{
    AnyChannel, BoundChannel, Channel, ChannelKind, ChannelStatus, Local, PodmanChannel,
    PodmanMode, WorktreeInfo,
};
use crate::config;
use crate::config::{ChannelConfig, Config};
use crate::editor;
use crate::table;
use crate::text;
use vstd::prelude::*;
use vstd::string::*;

verus! {

// ---------------------------------------------------------------------------
// Asking for a branch
// ---------------------------------------------------------------------------
/// State and work to work on a branch: the channel needs a directory of its own.
#[verifier::opaque]
pub open spec fn branch_asked(m: AppModel, name: Seq<char>) -> (AppModel, types::TaskModel) {
    match m.current().channel {
        None => (m.saying("/branch needs a bound channel (Alt+O)."@), types::TaskModel::Nothing),
        Some(c) => if c.says().kind == ChannelKind::PodmanAttach {
            (
                m.saying("/branch does not work with shared (attach) channels."@),
                types::TaskModel::Nothing,
            )
        } else {
            match c.says().host_root {
                Some(host) if host.len() > 0 => (
                    m,
                    types::TaskModel::InspectBranch(
                        types::PendingModel {
                            channel_kind: c.says().kind,
                            channel_root: host,
                            history: m.current().chat,
                            branch_name: name,
                            has_worktree: false,
                            podman_spec: c.says().run_spec,
                        },
                    ),
                ),
                _ => (m.saying("Channel has no host_root."@), types::TaskModel::Nothing),
            }
        },
    }
}

/// What was found out about a branch.
pub struct BranchFacts {
    /// Whether the directory is a repository.
    pub is_root: bool,
    /// Why the repository could not be used.
    pub repo_error: Option<String>,
    pub exists: bool,
    /// The worktree of the branch.
    pub worktree: Option<String>,
    /// Whether the branch is at the commit of the directory.
    pub same_commit: bool,
    /// Whether its worktree holds the same changes as the directory.
    pub same_status: bool,
}

/// What was found out about a branch.
pub struct FactsModel {
    pub is_root: bool,
    pub repo_error: Option<Seq<char>>,
    pub exists: bool,
    pub worktree: Option<Seq<char>>,
    pub same_commit: bool,
    pub same_status: bool,
}

impl View for BranchFacts {
    type V = FactsModel;

    open spec fn view(&self) -> FactsModel {
        FactsModel {
            is_root: self.is_root,
            repo_error: text::opt_view(self.repo_error),
            exists: self.exists,
            worktree: text::opt_view(self.worktree),
            same_commit: self.same_commit,
            same_status: self.same_status,
        }
    }
}

/// A choice of four with the first one marked.
pub open spec fn first_of_four() -> ListNav {
    ListNav { len: 4, cursor: 0, offset: 0, wrap: false }
}

/// The question about a branch without worktree.
pub open spec fn plain_question(name: Seq<char>) -> types::BranchAskModel {
    types::BranchAskModel {
        summary: "Branch '"@ + name
            + "' exists and points to a different commit than the current HEAD."@,
        nav: first_of_four(),
        options: seq![
            "Use branch, take over working directory"@,
            "Use branch without stash & copy"@,
            "Move branch to current HEAD, then proceed as normal"@,
            "Cancel"@,
        ],
    }
}

/// What is different about a branch with a worktree.
pub open spec fn differences(name: Seq<char>, f: FactsModel) -> Seq<char> {
    let commit = "Branch '"@ + name + "' points to a different commit."@;
    let changes = "Worktree has divergent changes."@;
    if !f.same_commit && !f.same_status {
        commit + " "@ + changes
    } else if !f.same_commit {
        commit
    } else {
        changes
    }
}

/// The question about a branch with a worktree.
pub open spec fn worktree_question(name: Seq<char>, f: FactsModel) -> types::BranchAskModel {
    types::BranchAskModel {
        summary: differences(name, f),
        nav: first_of_four(),
        options: seq![
            "Use branch & worktree as they are"@,
            "Move branch to HEAD, take over working directory"@,
            "Commit old worktree, then take over stash"@,
            "Cancel"@,
        ],
    }
}

/// The state with a question about a branch.
pub open spec fn branch_question(
    m: AppModel,
    p: types::PendingModel,
    d: types::BranchAskModel,
) -> AppModel {
    AppModel { branch_pending: Some(p), branch_confirm: Some(d), ..m }
}

/// State and work after it was found out about a branch: what is in order goes on at once, the rest
/// is asked about.
#[verifier::opaque]
pub open spec fn after_inspection(m: AppModel, p: types::PendingModel, f: FactsModel) -> (
    AppModel,
    types::TaskModel,
) {
    let make = types::TaskModel::MakeBranch { pending: p, skip_copy: false, move_branch: false };
    if !f.is_root {
        (
            m.saying("/branch needs a channel bound to a repo (Git worktree)."@),
            types::TaskModel::Nothing,
        )
    } else if let Some(e) = f.repo_error {
        (m.saying("No Git repository found: "@ + e), types::TaskModel::Nothing)
    } else if !f.exists {
        (m, make)
    } else {
        match f.worktree {
            None => if f.same_commit {
                (m, make)
            } else {
                (
                    branch_question(
                        m,
                        types::PendingModel { has_worktree: false, ..p },
                        plain_question(p.branch_name),
                    ),
                    types::TaskModel::Nothing,
                )
            },
            Some(path) => if f.same_commit && f.same_status {
                (m, types::TaskModel::ReuseBranch { pending: p, path })
            } else {
                (
                    branch_question(
                        m,
                        types::PendingModel { has_worktree: true, ..p },
                        worktree_question(p.branch_name, f),
                    ),
                    types::TaskModel::Nothing,
                )
            },
        }
    }
}

/// The work after an answer to the question about a branch.
pub open spec fn branch_decided(p: types::PendingModel, at: usize) -> types::TaskModel {
    if p.has_worktree {
        if at == 0 {
            types::TaskModel::UseWorktree(p)
        } else if at == 1 {
            types::TaskModel::MakeBranch { pending: p, skip_copy: false, move_branch: true }
        } else if at == 2 {
            types::TaskModel::SaveAndMake(p)
        } else {
            types::TaskModel::Nothing
        }
    } else {
        if at == 0 {
            types::TaskModel::MakeBranch { pending: p, skip_copy: false, move_branch: false }
        } else if at == 1 {
            types::TaskModel::MakeBranch { pending: p, skip_copy: true, move_branch: false }
        } else if at == 2 {
            types::TaskModel::MakeBranch { pending: p, skip_copy: false, move_branch: true }
        } else {
            types::TaskModel::Nothing
        }
    }
}

/// State and work after a key in the question about a branch.
#[verifier::opaque]
pub open spec fn branch_key_handled(m: AppModel, key: KeyEvent) -> (AppModel, types::TaskModel) {
    match m.branch_confirm {
        None => (m, types::TaskModel::Nothing),
        Some(d) => {
            let n = AppModel { branch_confirm: None, branch_pending: None, ..m };
            let answered = (
                n,
                match m.branch_pending {
                    Some(p) => branch_decided(p, d.nav.cursor),
                    None => types::TaskModel::Nothing,
                },
            );
            match key.code {
                KeyCode::Esc => (n, types::TaskModel::Nothing),
                KeyCode::Enter => answered,
                KeyCode::Char(' ') => answered,
                _ => (
                    AppModel {
                        branch_confirm: Some(
                            types::BranchAskModel {
                                nav: list::after_key(d.nav, key.code, d.options.len() as u16),
                                ..d
                            },
                        ),
                        ..m
                    },
                    types::TaskModel::Nothing,
                ),
            }
        },
    }
}

// ---------------------------------------------------------------------------
// Making the channel
// ---------------------------------------------------------------------------
/// Whether a description is one of a container with an image.
pub open spec fn has_image(c: ChannelConfig) -> bool {
    c.kind@ == "podman"@ && c.image is Some
}

/// Image, working directory and home directory of the first container of the configuration.
pub open spec fn configured_spec(channels: Seq<(Seq<char>, ChannelConfig)>) -> Option<
    (Seq<char>, Seq<char>, Seq<char>),
>
    decreases channels.len(),
{
    if channels.len() == 0 {
        None
    } else if has_image(channels[0].1) {
        let c = channels[0].1;
        Some((c.image->0@, c.workdir@, config::or_else(config::non_blank(c.home), "/tmp"@)))
    } else {
        configured_spec(channels.drop_first())
    }
}

/// Image, working directory and home directory for a container: the given ones, else those of the
/// configuration.
pub open spec fn spec_for(
    c: Config,
    given: Option<(Seq<char>, Seq<char>, Seq<char>)>,
) -> Option<(Seq<char>, Seq<char>, Seq<char>)> {
    match given {
        Some(s) => Some(s),
        None => configured_spec(c.channels@),
    }
}

/// One second at least.
pub open spec fn at_least_one(n: u64) -> u64 {
    if n == 0 {
        1
    } else {
        n
    }
}

/// The name of the channel for a branch.
pub open spec fn branch_channel_name(
    kind: ChannelKind,
    root: Seq<char>,
    spec: Option<(Seq<char>, Seq<char>, Seq<char>)>,
) -> Seq<char> {
    match (kind, spec) {
        (ChannelKind::PodmanRun, Some((image, _, _))) => builder::channel_name(image, root),
        _ => root,
    }
}

/// The container channel for a branch.
pub open spec fn branch_container(
    c: Config,
    spec: (Seq<char>, Seq<char>, Seq<char>),
    branch: Seq<char>,
    base: Seq<char>,
    wt: channel::WorktreeModel,
    ids: (u32, u32),
) -> podman::PodmanModel {
    podman::PodmanModel {
        name: builder::channel_name(spec.0, wt.path),
        mode: PodmanMode::Run,
        container: builder::container_name(base, Some(branch), spec.0),
        workdir: spec.1,
        host_root: Some(wt.path),
        image: Some(spec.0),
        timeout: at_least_one(c.timeout_secs),
        uid: ids.0,
        gid: ids.1,
        home: spec.2,
        usermapping: c.podman.usermapping,
        worktree: Some(wt),
        seq: 1,
        status: ChannelStatus::Unknown,
    }
}

/// The channel on the host for a branch.
pub open spec fn branch_local(wt: channel::WorktreeModel) -> local::LocalModel {
    local::LocalModel { root: wt.path, timeout: 60, worktree: Some(wt), managed_worktree: true }
}

/// Whether `r` is name and channel for a branch: on the host, or in a container where an image is
/// known.
pub open spec fn is_branch_channel(
    c: Config,
    p: types::PendingModel,
    base: Seq<char>,
    wt: channel::WorktreeModel,
    ids: (u32, u32),
    r: Result<(String, AnyChannel), String>,
) -> bool {
    let spec = spec_for(c, p.podman_spec);
    match r {
        Ok((name, ch)) => {
            &&& name@ == branch_channel_name(p.channel_kind, wt.path, spec)
            &&& match (p.channel_kind, ch) {
                (ChannelKind::Local, AnyChannel::Local(l)) => l@ == branch_local(wt),
                (ChannelKind::PodmanRun, AnyChannel::Podman(o)) => spec is Some && o@
                    == branch_container(c, spec->0, p.branch_name, base, wt, ids),
                _ => false,
            }
        },
        Err(e) => p.channel_kind != ChannelKind::Local && spec is None && e@
            == "No Podman image available for the new channel."@,
    }
}

/// The channel for a branch.
pub open spec fn branch_channel(
    c: Config,
    p: types::PendingModel,
    base: Seq<char>,
    wt: channel::WorktreeModel,
    ids: (u32, u32),
) -> registry::AnyModel {
    match p.channel_kind {
        ChannelKind::Local => registry::AnyModel::Local(branch_local(wt)),
        _ => registry::AnyModel::Podman(
            branch_container(c, spec_for(c, p.podman_spec)->0, p.branch_name, base, wt, ids),
        ),
    }
}

/// The session for a branch: the history so far on the new channel.
pub open spec fn branch_session(
    id: usize,
    history: crate::chat::ChatModel,
    c: registry::BoundModel,
    note: Option<Seq<char>>,
) -> session::SessionModel {
    session::SessionModel {
        error: note,
        ..session::level_defaulted(
            session::SessionModel { chat: history, channel: Some(c), ..session::fresh(id) },
        )
    }
}

/// The session that a branch was asked for in: the command is noted and its input taken.
pub open spec fn branch_left(s: session::SessionModel, name: Seq<char>) -> session::SessionModel {
    let n = session::noted(s, "/branch "@ + name);
    session::SessionModel { editor: editor::empty_field(n.editor.width), ..n }
}

/// The channels with a new one.
pub open spec fn with_channel(r: registry::RegModel, name: Seq<char>, data: registry::AnyModel) -> registry::RegModel {
    registry::RegModel {
        map: table::put(
            r.map,
            registry::registered_name(r.map, name),
            registry::BoundModel { id: r.next, data },
        ),
        next: registry::next_id(r.next),
        ..r
    }
}

/// The state with channel and session for a branch.
#[verifier::opaque]
pub open spec fn branch_finished(
    m: AppModel,
    data: registry::AnyModel,
    channel_name: Seq<char>,
    branch: Seq<char>,
    history: crate::chat::ChatModel,
    note: Option<Seq<char>>,
) -> AppModel {
    let c = registry::BoundModel { id: m.channels.next, data };
    let n = AppModel { channels: with_channel(m.channels, channel_name, data), ..m };
    let left = n.with_current(branch_left(n.current(), branch));
    state::joined(
        left,
        branch_session(state::next_session(m.sessions), history, c, note),
    )
}

/// How the worktree for a branch was made.
pub enum BranchOutcome {
    /// There is no repository to make it in.
    NoRepo,
    /// The branch could not be moved.
    MoveFailed(String),
    WorktreeFailed(String),
    /// The worktree, the folder of the repository, and what was copied.
    Made { worktree: WorktreeInfo, base_folder: String, copy_info: Option<String> },
}

/// How the worktree for a branch was made.
pub enum OutcomeModel {
    NoRepo,
    MoveFailed(Seq<char>),
    WorktreeFailed(Seq<char>),
    Made {
        worktree: channel::WorktreeModel,
        base_folder: Seq<char>,
        copy_info: Option<Seq<char>>,
    },
}

impl View for BranchOutcome {
    type V = OutcomeModel;

    open spec fn view(&self) -> OutcomeModel {
        match self {
            BranchOutcome::NoRepo => OutcomeModel::NoRepo,
            BranchOutcome::MoveFailed(e) => OutcomeModel::MoveFailed(e@),
            BranchOutcome::WorktreeFailed(e) => OutcomeModel::WorktreeFailed(e@),
            BranchOutcome::Made { worktree, base_folder, copy_info } => OutcomeModel::Made {
                worktree: worktree@,
                base_folder: base_folder@,
                copy_info: text::opt_view(*copy_info),
            },
        }
    }
}

/// State and work after the worktree for a branch was made. Without a repository nothing happens.
/// Where no channel can be made, the worktree is removed again.
#[verifier::opaque]
pub open spec fn after_making(
    m: AppModel,
    p: types::PendingModel,
    outcome: OutcomeModel,
    ids: (u32, u32),
) -> (AppModel, types::TaskModel) {
    match outcome {
        OutcomeModel::NoRepo => (m, types::TaskModel::Nothing),
        OutcomeModel::MoveFailed(e) => (
            m.saying("Could not move branch: "@ + e),
            types::TaskModel::Nothing,
        ),
        OutcomeModel::WorktreeFailed(e) => (
            m.saying("Worktree failed: "@ + e),
            types::TaskModel::Nothing,
        ),
        OutcomeModel::Made { worktree, base_folder, copy_info } => {
            let spec = spec_for(m.config, p.podman_spec);
            if p.channel_kind != ChannelKind::Local && spec is None {
                (
                    m.saying("No Podman image available for the new channel."@),
                    types::TaskModel::DropWorktree {
                        root: p.channel_root,
                        branch: p.branch_name,
                    },
                )
            } else {
                (
                    branch_finished(
                        m,
                        branch_channel(m.config, p, base_folder, worktree, ids),
                        branch_channel_name(p.channel_kind, worktree.path, spec),
                        p.branch_name,
                        p.history,
                        copy_info,
                    ),
                    types::TaskModel::Nothing,
                )
            }
        },
    }
}

/// The worktree of a branch at a path.
pub open spec fn worktree_at(branch: Seq<char>, path: Seq<char>) -> channel::WorktreeModel {
    channel::WorktreeModel { name: branch, branch, path }
}

/// The state with channel and session for a branch in the worktree that it has.
#[verifier::opaque]
pub open spec fn after_reuse(
    m: AppModel,
    p: types::PendingModel,
    path: Seq<char>,
    base_folder: Seq<char>,
    ids: (u32, u32),
) -> AppModel {
    let spec = spec_for(m.config, p.podman_spec);
    let wt = worktree_at(p.branch_name, path);
    if p.channel_kind != ChannelKind::Local && spec is None {
        m.saying("No Podman image available for the new channel."@)
    } else {
        branch_finished(
            m,
            branch_channel(m.config, p, base_folder, wt, ids),
            branch_channel_name(p.channel_kind, path, spec),
            p.branch_name,
            p.history,
            None,
        )
    }
}

impl App {
    /// Begins to work on a branch.
    pub fn user_branch(&mut self, name: String) -> (r: Task)
        requires
            old(self).ready(),
        ensures
            final(self).ready(),
            (final(self)@, r@) == branch_asked(old(self)@, name@),
            r matches Task::InspectBranch(p) ==> session::sound(p.history@) && p.channel_kind
                != ChannelKind::PodmanAttach,
    {
        proof {
            reveal(branch_asked);
            assert(self.sessions@[self.active as int].wf());
        }
        let (kind, host, podman_spec) = match &self.sessions[self.active].channel {
            None => {
                self.say("/branch needs a bound channel (Alt+O).".to_string());
                return Task::Nothing;
            },
            Some(c) => (c.data.kind(), c.data.host_root(), c.data.podman_run_spec()),
        };
        if kind == ChannelKind::PodmanAttach {
            self.say("/branch does not work with shared (attach) channels.".to_string());
            return Task::Nothing;
        }
        match host {
            Some(host) => {
                if !host.as_str().is_empty() {
                    let history = self.sessions[self.active].chat.clone();
                    return Task::InspectBranch(
                        BranchPending {
                            channel_kind: kind,
                            channel_root: host,
                            history,
                            branch_name: name,
                            has_worktree: false,
                            podman_spec,
                        },
                    );
                }
            },
            None => {},
        }
        self.say("Channel has no host_root.".to_string());
        Task::Nothing
    }

    fn ask_about_branch(&mut self, p: BranchPending, d: BranchConfirm)
        requires
            old(self).ready(),
            session::sound(p.history@),
            d.nav.wf(),
        ensures
            final(self).ready(),
            final(self)@ == branch_question(old(self)@, p@, d@),
    {
        self.branch_pending = Some(p);
        self.branch_confirm = Some(d);
    }

    /// Goes on when it was found out about a branch.
    pub fn branch_inspected(&mut self, pending: BranchPending, facts: BranchFacts) -> (r: Task)
        requires
            old(self).ready(),
            session::sound(pending.history@),
        ensures
            final(self).ready(),
            (final(self)@, r@) == after_inspection(old(self)@, pending@, facts@),
    {
        proof {
            reveal(after_inspection);
        }
        if !facts.is_root {
            self.say("/branch needs a channel bound to a repo (Git worktree).".to_string());
            return Task::Nothing;
        }
        if let Some(e) = &facts.repo_error {
            self.say(text::concat("No Git repository found: ", e.as_str()));
            return Task::Nothing;
        }
        if !facts.exists {
            return Task::MakeBranch { pending, skip_copy: false, move_branch: false };
        }
        self.branch_is_there(pending, facts)
    }

    fn branch_is_there(&mut self, pending: BranchPending, facts: BranchFacts) -> (r: Task)
        requires
            old(self).ready(),
            session::sound(pending.history@),
            facts.is_root,
            facts.repo_error is None,
            facts.exists,
        ensures
            final(self).ready(),
            (final(self)@, r@) == after_inspection(old(self)@, pending@, facts@),
    {
        proof {
            reveal(after_inspection);
        }
        let same_commit = facts.same_commit;
        let same_status = facts.same_status;
        match facts.worktree {
            None => {
                if same_commit {
                    return Task::MakeBranch { pending, skip_copy: false, move_branch: false };
                }
                let d = question_about_branch(pending.branch_name.as_str());
                let p = BranchPending { has_worktree: false, ..pending };
                self.ask_about_branch(p, d);
                Task::Nothing
            },
            Some(path) => {
                if same_commit && same_status {
                    return Task::ReuseBranch { pending, path };
                }
                let d = question_about_worktree(
                    pending.branch_name.as_str(),
                    same_commit,
                    same_status,
                );
                let p = BranchPending { has_worktree: true, ..pending };
                self.ask_about_branch(p, d);
                Task::Nothing
            },
        }
    }

    /// Goes on when the worktree of a branch was looked for.
    pub fn worktree_found(&self, pending: BranchPending, path: Option<String>, repo_ok: bool) -> (r:
        Task)
        ensures
            r@ == (match path {
                Some(p) => types::TaskModel::ReuseBranch { pending: pending@, path: p@ },
                None => if repo_ok {
                    types::TaskModel::MakeBranch {
                        pending: pending@,
                        skip_copy: false,
                        move_branch: false,
                    }
                } else {
                    types::TaskModel::Nothing
                },
            }),
    {
        match path {
            Some(path) => Task::ReuseBranch { pending, path },
            None => if repo_ok {
                Task::MakeBranch { pending, skip_copy: false, move_branch: false }
            } else {
                Task::Nothing
            },
        }
    }

    /// Goes on when the worktree of a branch was committed and the changes were taken over.
    pub fn branch_saved(&self, pending: BranchPending, repo_ok: bool) -> (r: Task)
        ensures
            r@ == (if repo_ok {
                types::TaskModel::MakeBranch {
                    pending: pending@,
                    skip_copy: false,
                    move_branch: false,
                }
            } else {
                types::TaskModel::Nothing
            }),
    {
        if repo_ok {
            Task::MakeBranch { pending, skip_copy: false, move_branch: false }
        } else {
            Task::Nothing
        }
    }

    /// Image, working directory and home directory for a container.
    pub fn resolve_podman_spec(&self, podman_spec: &Option<(String, String, String)>) -> (r: Option<
        (String, String, String),
    >)
        requires
            self.wf(),
        ensures
            channel::spec_view(r) == spec_for(self.config, channel::spec_view(*podman_spec)),
    {
        if let Some(s) = podman_spec {
            return Some((s.0.clone(), s.1.clone(), s.2.clone()));
        }
        let n: usize = self.config.channels.len();
        let ghost all = self.config.channels@;
        let mut i: usize = 0;
        assert(all.skip(0) =~= all);
        while i < n
            invariant
                i <= n == all.len(),
                self.wf(),
                all == self.config.channels@,
                channel::spec_view(*podman_spec) is None,
                configured_spec(all.skip(i as int)) == configured_spec(all),
            decreases n - i,
        {
            assert(all.skip(i as int)[0] == all[i as int]);
            assert(all.skip(i as int).drop_first() =~= all.skip(i + 1));
            let c = self.config.channels.value(i);
            if text::same_text(c.kind.as_str(), "podman") {
                if let Some(image) = &c.image {
                    return Some((image.clone(), c.workdir.clone(), c.run_home()));
                }
            }
            i += 1;
        }
        None
    }

    /// Makes name and channel for a branch.
    fn make_branch_channel(
        &self,
        pending: &BranchPending,
        base_folder: &str,
        wt: WorktreeInfo,
        ids: (u32, u32),
    ) -> (r: Result<(String, AnyChannel), String>)
        requires
            self.wf(),
            pending.channel_kind != ChannelKind::PodmanAttach,
        ensures
            is_branch_channel(self.config, pending@, base_folder@, wt@, ids, r),
    {
        if pending.channel_kind == ChannelKind::Local {
            let name = wt.path.clone();
            let ch = Local::new(wt.path.clone()).with_worktree(wt);
            return Ok((name, AnyChannel::Local(ch)));
        }
        match self.resolve_podman_spec(&pending.podman_spec) {
            None => Err("No Podman image available for the new channel.".to_string()),
            Some((image, workdir, home)) => {
                let name = run_channel_name(image.as_str(), wt.path.as_str());
                let container = run_container_name(
                    base_folder,
                    Some(pending.branch_name.as_str()),
                    image.as_str(),
                );
                let timeout: u64 = if self.config.timeout_secs == 0 {
                    1
                } else {
                    self.config.timeout_secs
                };
                let ch = PodmanChannel::new_run(
                    name.as_str(),
                    container.as_str(),
                    wt.path.as_str(),
                    image.as_str(),
                    workdir.as_str(),
                    timeout,
                    ids.0,
                    ids.1,
                    home,
                    self.config.podman.usermapping,
                ).with_worktree(wt);
                Ok((name, AnyChannel::Podman(ch)))
            },
        }
    }

    fn leave_for_branch(&mut self, branch: &str)
        requires
            old(self).ready(),
        ensures
            final(self).ready(),
            final(self)@ == old(self)@.with_current(branch_left(old(self)@.current(), branch@)),
    {
        broadcast use session::lemma_session_changed;

        let i: usize = self.active;
        let s = &mut self.sessions[i];
        s.push_history(text::concat("/branch ", branch).as_str());
        s.editor.clear();
    }

    pub(crate) fn keep_channel(&mut self, data: AnyChannel, name: String) -> (r: BoundChannel)
        requires
            old(self).ready(),
        ensures
            final(self).ready(),
            r@ == (registry::BoundModel { id: old(self)@.channels.next, data: data@ }),
            final(self)@ == (AppModel {
                channels: with_channel(old(self)@.channels, name@, data@),
                ..old(self)@
            }),
    {
        let ch = self.channels.bind(data);
        let _kept = self.channels.register(name, ch.clone());
        ch
    }

    /// Keeps the channel for a branch and opens the session on it.
    fn branch_finish(
        &mut self,
        data: AnyChannel,
        channel_name: String,
        branch: &str,
        history: crate::chat::Chat,
        note: Option<String>,
    )
        requires
            old(self).ready(),
            session::sound(history@),
        ensures
            final(self).ready(),
            final(self)@ == branch_finished(
                old(self)@,
                data@,
                channel_name@,
                branch@,
                history@,
                text::opt_view(note),
            ),
    {
        proof {
            reveal(branch_finished);
        }
        let id: usize = self.next_session_id();
        let ch = self.keep_channel(data, channel_name);
        self.leave_for_branch(branch);
        let s = session_for_branch(id, history, ch, note);
        self.join_session(s);
    }

    /// Goes on when the worktree for a branch was made. `ids` is the identity that
    /// commands run as.
    pub fn user_branch_proceed(
        &mut self,
        pending: BranchPending,
        outcome: BranchOutcome,
        ids: (u32, u32),
    ) -> (r: Task)
        requires
            old(self).ready(),
            session::sound(pending.history@),
            pending.channel_kind != ChannelKind::PodmanAttach,
        ensures
            final(self).ready(),
            (final(self)@, r@) == after_making(old(self)@, pending@, outcome@, ids),
    {
        proof {
            reveal(after_making);
        }
        match outcome {
            BranchOutcome::NoRepo => Task::Nothing,
            BranchOutcome::MoveFailed(e) => {
                self.say(text::concat("Could not move branch: ", e.as_str()));
                Task::Nothing
            },
            BranchOutcome::WorktreeFailed(e) => {
                self.say(text::concat("Worktree failed: ", e.as_str()));
                Task::Nothing
            },
            BranchOutcome::Made { worktree, base_folder, copy_info } => {
                match self.make_branch_channel(&pending, base_folder.as_str(), worktree, ids) {
                    Ok((name, ch)) => {
                        self.branch_finish(
                            ch,
                            name,
                            pending.branch_name.as_str(),
                            pending.history,
                            copy_info,
                        );
                        Task::Nothing
                    },
                    Err(e) => {
                        self.say(e);
                        Task::DropWorktree {
                            root: pending.channel_root,
                            branch: pending.branch_name,
                        }
                    },
                }
            },
        }
    }

    /// Uses the worktree that a branch has. `base_folder` is the folder of the repository and `ids`
    /// the identity that commands run as.
    pub fn user_branch_reuse(
        &mut self,
        pending: BranchPending,
        path: String,
        base_folder: &str,
        ids: (u32, u32),
    )
        requires
            old(self).ready(),
            session::sound(pending.history@),
            pending.channel_kind != ChannelKind::PodmanAttach,
        ensures
            final(self).ready(),
            final(self)@ == after_reuse(old(self)@, pending@, path@, base_folder@, ids),
    {
        proof {
            reveal(after_reuse);
        }
        let wt = WorktreeInfo {
            name: pending.branch_name.clone(),
            branch: pending.branch_name.clone(),
            path,
        };
        assert(wt@ == worktree_at(pending.branch_name@, path@));
        match self.make_branch_channel(&pending, base_folder, wt, ids) {
            Ok((name, ch)) => {
                self.branch_finish(ch, name, pending.branch_name.as_str(), pending.history, None);
            },
            Err(e) => {
                self.say(e);
            },
        }
    }

    /// Handles a key in the question about a branch.
    pub fn handle_branch_confirm_key(&mut self, key: KeyEvent) -> (r: Task)
        requires
            old(self).ready(),
        ensures
            final(self).ready(),
            (final(self)@, r@) == branch_key_handled(old(self)@, key),
    {
        proof {
            reveal(branch_key_handled);
        }
        let ghost m = self@;
        let mut d = match self.branch_confirm.take() {
            Some(d) => d,
            None => {
                return Task::Nothing;
            },
        };
        match key.code {
            KeyCode::Esc => {
                self.branch_pending = None;
                Task::Nothing
            },
            KeyCode::Enter | KeyCode::Char(' ') => match self.branch_pending.take() {
                Some(p) => decide_about_branch(p, d.nav.cursor),
                None => Task::Nothing,
            },
            _ => {
                let shown: u16 = d.options.len() as u16;
                let _used = move_by_line(&mut d.nav, &key, shown);
                self.branch_confirm = Some(d);
                Task::Nothing
            },
        }
    }
}

fn decide_about_branch(pending: BranchPending, at: usize) -> (r: Task)
    ensures
        r@ == branch_decided(pending@, at),
{
    if pending.has_worktree {
        if at == 0 {
            Task::UseWorktree(pending)
        } else if at == 1 {
            Task::MakeBranch { pending, skip_copy: false, move_branch: true }
        } else if at == 2 {
            Task::SaveAndMake(pending)
        } else {
            Task::Nothing
        }
    } else {
        if at == 0 {
            Task::MakeBranch { pending, skip_copy: false, move_branch: false }
        } else if at == 1 {
            Task::MakeBranch { pending, skip_copy: true, move_branch: false }
        } else if at == 2 {
            Task::MakeBranch { pending, skip_copy: false, move_branch: true }
        } else {
            Task::Nothing
        }
    }
}

fn question_about_branch(name: &str) -> (r: BranchConfirm)
    ensures
        r@ == plain_question(name@),
        r.nav.wf(),
{
    let options = text::texts(
        &[
            "Use branch, take over working directory",
            "Use branch without stash & copy",
            "Move branch to current HEAD, then proceed as normal",
            "Cancel",
        ],
    );
    assert(text::views(options@) =~= plain_question(name@).options);
    BranchConfirm {
        summary: text::concat3(
            "Branch '",
            name,
            "' exists and points to a different commit than the current HEAD.",
        ),
        nav: ListNav::new(4),
        options,
    }
}

fn question_about_worktree(name: &str, same_commit: bool, same_status: bool) -> (r: BranchConfirm)
    requires
        !same_commit || !same_status,
    ensures
        forall|f: FactsModel|
            f.same_commit == same_commit && f.same_status == same_status ==> r@
                == #[trigger] worktree_question(name@, f),
        r.nav.wf(),
{
    let options = text::texts(
        &[
            "Use branch & worktree as they are",
            "Move branch to HEAD, take over working directory",
            "Commit old worktree, then take over stash",
            "Cancel",
        ],
    );
    assert(text::views(options@) =~= seq![
        "Use branch & worktree as they are"@,
        "Move branch to HEAD, take over working directory"@,
        "Commit old worktree, then take over stash"@,
        "Cancel"@,
    ]);
    let mut summary = String::new();
    if !same_commit {
        summary = text::concat3("Branch '", name, "' points to a different commit.");
        if !same_status {
            summary.append(" ");
            summary.append("Worktree has divergent changes.");
        }
    } else {
        summary = "Worktree has divergent changes.".to_string();
    }
    BranchConfirm { summary, nav: ListNav::new(4), options }
}

fn session_for_branch(
    id: usize,
    history: crate::chat::Chat,
    ch: BoundChannel,
    note: Option<String>,
) -> (r: Session)
    requires
        session::sound(history@),
    ensures
        r.wf(),
        r@ == branch_session(id, history@, ch@, text::opt_view(note)),
{
    let mut s = Session::new(id);
    s.chat = history;
    s.channel = Some(ch);
    apply_channel_permission_default(&mut s);
    s.error = note;
    s
}

// ---------------------------------------------------------------------------
// Laws
// ---------------------------------------------------------------------------
/// Nothing is done to a branch that differs from the directory before the user says what.
pub proof fn law_differing_branches_are_asked_about(
    m: AppModel,
    p: types::PendingModel,
    f: FactsModel,
)
    requires
        f.is_root,
        f.repo_error is None,
        f.exists,
        !f.same_commit || (f.worktree is Some && !f.same_status),
    ensures
        after_inspection(m, p, f).1 == types::TaskModel::Nothing,
        after_inspection(m, p, f).0.branch_confirm is Some,
        after_inspection(m, p, f).0.sessions == m.sessions,
        after_inspection(m, p, f).0.channels == m.channels,
{
    reveal(after_inspection);
}

/// Work on a branch begins in a new session with the history so far, and the session before keeps
/// its own.
pub proof fn law_a_branch_gets_a_session_of_its_own(
    m: AppModel,
    data: registry::AnyModel,
    channel_name: Seq<char>,
    branch: Seq<char>,
    history: crate::chat::ChatModel,
    note: Option<Seq<char>>,
)
    requires
        0 <= m.active < m.sessions.len(),
    ensures
        ({
            let n = branch_finished(m, data, channel_name, branch, history, note);
            &&& n.sessions.len() == m.sessions.len() + 1
            &&& n.active == m.sessions.len()
            &&& n.current().chat == history
            &&& n.current().channel == Some(registry::BoundModel { id: m.channels.next, data })
            &&& n.sessions[m.active].chat == m.current().chat
            &&& n.sessions[m.active].channel == m.current().channel
        }),
{
    reveal(branch_finished);
}

/// What happens to a branch is what the answer said that the user took: it is moved only by an
/// answer that says so, it is left alone by the one that gives up, and each other answer gives the
/// work that its words name.
#[verifier::rlimit(40)]
pub proof fn law_a_branch_is_treated_as_the_answer_says(
    m: AppModel,
    p: types::PendingModel,
    f: FactsModel,
    at: usize,
    key: KeyEvent,
)
    requires
        f.is_root,
        f.repo_error is None,
        f.exists,
        !f.same_commit || (f.worktree is Some && !f.same_status),
        at < 4,
        key.code == KeyCode::Enter || key.code == KeyCode::Char(' '),
    ensures
        ({
            let asked = after_inspection(m, p, f).0;
            let d = asked.branch_confirm->0;
            let marked = AppModel {
                branch_confirm: Some(
                    types::BranchAskModel { nav: ListNav { cursor: at, ..d.nav }, ..d },
                ),
                ..asked
            };
            let words = d.options[at as int];
            let (n, task) = branch_key_handled(marked, key);
            let now = types::PendingModel { has_worktree: f.worktree is Some, ..p };
            &&& d.options.len() == 4
            &&& d.nav.len == 4
            &&& d.nav.cursor == 0
            &&& n == (AppModel { branch_confirm: None, branch_pending: None, ..m })
            &&& task matches types::TaskModel::MakeBranch { move_branch, .. } ==> (move_branch
                <==> words == "Move branch to current HEAD, then proceed as normal"@ || words
                == "Move branch to HEAD, take over working directory"@)
            &&& task matches types::TaskModel::MakeBranch { skip_copy, .. } ==> (skip_copy <==> words
                == "Use branch without stash & copy"@)
            &&& task == types::TaskModel::Nothing <==> words == "Cancel"@
            &&& words == "Use branch, take over working directory"@ ==> task
                == (types::TaskModel::MakeBranch {
                pending: now,
                skip_copy: false,
                move_branch: false,
            })
            &&& words == "Use branch without stash & copy"@ ==> task
                == (types::TaskModel::MakeBranch {
                pending: now,
                skip_copy: true,
                move_branch: false,
            })
            &&& (words == "Move branch to current HEAD, then proceed as normal"@ || words
                == "Move branch to HEAD, take over working directory"@) ==> task
                == (types::TaskModel::MakeBranch {
                pending: now,
                skip_copy: false,
                move_branch: true,
            })
            &&& words == "Use branch & worktree as they are"@ ==> task
                == types::TaskModel::UseWorktree(now)
            &&& words == "Commit old worktree, then take over stash"@ ==> task
                == types::TaskModel::SaveAndMake(now)
        }),
{
    reveal(after_inspection);
    reveal(branch_key_handled);
    reveal_strlit("Use branch, take over working directory");
    reveal_strlit("Use branch without stash & copy");
    reveal_strlit("Move branch to current HEAD, then proceed as normal");
    reveal_strlit("Cancel");
    reveal_strlit("Use branch & worktree as they are");
    reveal_strlit("Move branch to HEAD, take over working directory");
    reveal_strlit("Commit old worktree, then take over stash");
    assert("Use branch, take over working directory"@.len() == 39);
    assert("Use branch without stash & copy"@.len() == 31);
    assert("Use branch & worktree as they are"@.len() == 33);
    assert("Commit old worktree, then take over stash"@.len() == 41);
    assert("Move branch to HEAD, take over working directory"@.len() == 48);
    assert("Move branch to current HEAD, then proceed as normal"@.len() == 51);
}

/// Which question is asked depends on the worktree: a branch without one is offered without a word
/// of a worktree, one with a worktree names what is different.
pub proof fn law_the_question_fits_the_branch(m: AppModel, p: types::PendingModel, f: FactsModel)
    requires
        f.is_root,
        f.repo_error is None,
        f.exists,
        !f.same_commit || (f.worktree is Some && !f.same_status),
    ensures
        ({
            let d = after_inspection(m, p, f).0.branch_confirm->0;
            let commit = "Branch '"@ + p.branch_name + "' points to a different commit."@;
            let changes = "Worktree has divergent changes."@;
            &&& f.worktree is None ==> d.summary == "Branch '"@ + p.branch_name
                + "' exists and points to a different commit than the current HEAD."@
            &&& f.worktree is None ==> d.options[0] == "Use branch, take over working directory"@
            &&& f.worktree is Some ==> d.options[0] == "Use branch & worktree as they are"@
            &&& f.worktree is Some && !f.same_commit && f.same_status ==> d.summary == commit
            &&& f.worktree is Some && f.same_commit ==> d.summary == changes
            &&& f.worktree is Some && !f.same_commit && !f.same_status ==> d.summary == commit
                + " "@ + changes
            &&& d.options[3] == "Cancel"@
        }),
{
    reveal(after_inspection);
}

/// A branch that is new, or that is where the directory is, is gone on with at once and not moved;
/// one whose worktree is the same is used there.
pub proof fn law_fitting_branches_are_used_as_they_are(
    m: AppModel,
    p: types::PendingModel,
    f: FactsModel,
)
    requires
        f.is_root,
        f.repo_error is None,
    ensures
        !f.exists || (f.worktree is None && f.same_commit) ==> after_inspection(m, p, f) == (
            m,
            types::TaskModel::MakeBranch { pending: p, skip_copy: false, move_branch: false },
        ),
        f.exists && f.worktree is Some && f.same_commit && f.same_status ==> after_inspection(
            m,
            p,
            f,
        ) == (m, types::TaskModel::ReuseBranch { pending: p, path: f.worktree->0 }),
{
    reveal(after_inspection);
}

/// Where a branch cannot be worked on, nothing is done and the session says why.
pub proof fn law_impossible_branches_are_refused(
    m: AppModel,
    p: types::PendingModel,
    f: FactsModel,
)
    requires
        0 <= m.active < m.sessions.len(),
        !f.is_root || f.repo_error is Some,
    ensures
        ({
            let (n, task) = after_inspection(m, p, f);
            &&& task == types::TaskModel::Nothing
            &&& n.current().error == Some(
                if f.is_root {
                    "No Git repository found: "@ + f.repo_error->0
                } else {
                    "/branch needs a channel bound to a repo (Git worktree)."@
                },
            )
            &&& n == m.with_current(
                session::SessionModel { error: n.current().error, ..m.current() },
            )
        }),
{
    reveal(after_inspection);
}

/// A branch can be asked for where the session has a channel of its own with a directory; what is
/// looked at is that directory, with the history and the container of the session.
pub proof fn law_a_branch_needs_a_directory(m: AppModel, name: Seq<char>)
    requires
        0 <= m.active < m.sessions.len(),
    ensures
        ({
            let (n, task) = branch_asked(m, name);
            let c = m.current().channel;
            &&& task matches types::TaskModel::InspectBranch(p) ==> {
                &&& n == m
                &&& c is Some
                &&& c->0.says().kind != ChannelKind::PodmanAttach
                &&& c->0.says().host_root == Some(p.channel_root)
                &&& p.channel_root.len() > 0
                &&& p.branch_name == name
                &&& p.history == m.current().chat
                &&& p.channel_kind == c->0.says().kind
                &&& p.podman_spec == c->0.says().run_spec
                &&& !p.has_worktree
            }
            &&& task is InspectBranch || task == types::TaskModel::Nothing
            &&& task is InspectBranch <==> c is Some && c->0.says().kind
                != ChannelKind::PodmanAttach && c->0.says().host_root is Some
                && c->0.says().host_root->0.len() > 0
            &&& task == types::TaskModel::Nothing ==> n.current().error == Some(
                if c is None {
                    "/branch needs a bound channel (Alt+O)."@
                } else if c->0.says().kind == ChannelKind::PodmanAttach {
                    "/branch does not work with shared (attach) channels."@
                } else {
                    "Channel has no host_root."@
                },
            )
        }),
{
    reveal(branch_asked);
}

/// The channel for a branch is of the same sort as the one before it and works in the worktree of
/// the branch, which belongs to it; a container keeps image, directory and home of the one before.
pub proof fn law_the_channel_of_a_branch_works_in_its_worktree(
    c: Config,
    p: types::PendingModel,
    base: Seq<char>,
    wt: channel::WorktreeModel,
    ids: (u32, u32),
)
    requires
        p.channel_kind != ChannelKind::PodmanAttach,
    ensures
        ({
            let says = branch_channel(c, p, base, wt, ids).says();
            &&& says.kind == p.channel_kind
            &&& says.host_root == Some(wt.path)
            &&& says.worktree == Some(wt)
            &&& p.channel_kind == ChannelKind::PodmanRun && p.podman_spec is Some
                && (p.podman_spec->0).0.len() > 0 ==> says.run_spec == p.podman_spec
        }),
        p.channel_kind == ChannelKind::PodmanRun ==> {
            let d = branch_channel(c, p, base, wt, ids)->Podman_0;
            &&& d.uid == ids.0
            &&& d.gid == ids.1
            &&& d.usermapping == c.podman.usermapping
            &&& d.timeout >= 1
            &&& c.timeout_secs > 0 ==> d.timeout == c.timeout_secs
            &&& d.status == ChannelStatus::Unknown
        },
        p.channel_kind == ChannelKind::Local ==> {
            let d = branch_channel(c, p, base, wt, ids)->Local_0;
            d.managed_worktree && d.timeout == 60
        },
{
}

/// What went wrong with the worktree of a branch is said, and no session and no channel is made;
/// without a repository nothing happens at all. A worktree whose channel could not be made is
/// removed again.
pub proof fn law_a_failed_branch_leaves_everything(
    m: AppModel,
    p: types::PendingModel,
    outcome: OutcomeModel,
    ids: (u32, u32),
)
    requires
        0 <= m.active < m.sessions.len(),
        p.channel_kind != ChannelKind::PodmanAttach,
    ensures
        ({
            let (n, task) = after_making(m, p, outcome, ids);
            let no_image = p.channel_kind == ChannelKind::PodmanRun && spec_for(
                m.config,
                p.podman_spec,
            ) is None;
            &&& outcome is NoRepo ==> n == m && task == types::TaskModel::Nothing
            &&& !(outcome is Made) || no_image ==> n.channels == m.channels && n.sessions.len()
                == m.sessions.len() && n.active == m.active
            &&& outcome matches OutcomeModel::MoveFailed(e) ==> n.current().error == Some(
                "Could not move branch: "@ + e,
            ) && task == types::TaskModel::Nothing
            &&& outcome matches OutcomeModel::WorktreeFailed(e) ==> n.current().error == Some(
                "Worktree failed: "@ + e,
            ) && task == types::TaskModel::Nothing
            &&& outcome is Made && no_image ==> task == (types::TaskModel::DropWorktree {
                root: p.channel_root,
                branch: p.branch_name,
            }) && n.current().error == Some("No Podman image available for the new channel."@)
            &&& outcome is Made && !no_image ==> task == types::TaskModel::Nothing
                && n.sessions.len() == m.sessions.len() + 1
        }),
{
    reveal(after_making);
    reveal(branch_finished);
}

/// The new session of a branch works in the worktree that was made, goes on with the history, shows
/// what was copied, and the old one keeps the command among its inputs.
pub proof fn law_a_made_branch_is_worked_on(
    m: AppModel,
    p: types::PendingModel,
    worktree: channel::WorktreeModel,
    base: Seq<char>,
    copied: Option<Seq<char>>,
    ids: (u32, u32),
)
    requires
        0 <= m.active < m.sessions.len(),
        p.channel_kind == ChannelKind::Local || (p.channel_kind == ChannelKind::PodmanRun
            && spec_for(m.config, p.podman_spec) is Some),
    ensures
        ({
            let outcome = OutcomeModel::Made {
                worktree,
                base_folder: base,
                copy_info: copied,
            };
            let n = after_making(m, p, outcome, ids).0;
            &&& n.active == m.sessions.len()
            &&& n.current().chat == p.history
            &&& n.current().error == copied
            &&& n.current().channel is Some
            &&& n.current().channel->0.says().host_root == Some(worktree.path)
            &&& n.current().channel->0.says().worktree == Some(worktree)
            &&& n.current().channel->0.says().kind == p.channel_kind
            &&& n.current().phase == session::Phase::Idle
            &&& n.sessions[m.active].hist_cursor is None
            &&& n.sessions[m.active].editor.text.len() == 0
            &&& n.sessions[m.active].chat == m.current().chat
        }),
{
    reveal(after_making);
    reveal(branch_finished);
}

/// A worktree that a branch has is used where it is: a session begins on it with the history, and
/// the worktree counts as that of the branch.
pub proof fn law_a_reused_worktree_is_worked_on(
    m: AppModel,
    p: types::PendingModel,
    path: Seq<char>,
    base: Seq<char>,
    ids: (u32, u32),
)
    requires
        0 <= m.active < m.sessions.len(),
        p.channel_kind == ChannelKind::Local || (p.channel_kind == ChannelKind::PodmanRun
            && spec_for(m.config, p.podman_spec) is Some),
    ensures
        ({
            let n = after_reuse(m, p, path, base, ids);
            &&& n.sessions.len() == m.sessions.len() + 1
            &&& n.active == m.sessions.len()
            &&& n.current().chat == p.history
            &&& n.current().error is None
            &&& n.current().channel is Some
            &&& n.current().channel->0.says().host_root == Some(path)
            &&& n.current().channel->0.says().worktree == Some(
                channel::WorktreeModel { name: p.branch_name, branch: p.branch_name, path },
            )
            &&& n.current().channel->0.says().kind == p.channel_kind
        }),
{
    reveal(after_reuse);
    reveal(branch_finished);
}

/// A question is given up with its own key, and no other key does anything but move the mark.
pub proof fn law_only_an_answer_acts_on_a_branch(m: AppModel, key: KeyEvent)
    requires
        m.branch_confirm is Some,
        key.code != KeyCode::Enter,
        key.code != KeyCode::Char(' '),
    ensures
        ({
            let (n, task) = branch_key_handled(m, key);
            &&& task == types::TaskModel::Nothing
            &&& key.code == KeyCode::Esc ==> n == (AppModel {
                branch_confirm: None,
                branch_pending: None,
                ..m
            })
            &&& key.code != KeyCode::Esc ==> n.branch_confirm is Some && n.branch_pending
                == m.branch_pending && (n.branch_confirm->0).options
                == (m.branch_confirm->0).options
            &&& n.sessions == m.sessions
            &&& n.channels == m.channels
        }),
{
    reveal(branch_key_handled);
}

/// The container of a branch is named by folder, branch and image and uses what the spec names; its
/// channel is named by image and directory, a local one by the directory.
pub proof fn law_the_container_of_a_branch(
    c: Config,
    p: types::PendingModel,
    base: Seq<char>,
    wt: channel::WorktreeModel,
    ids: (u32, u32),
    image: Seq<char>,
    workdir: Seq<char>,
    home: Seq<char>,
)
    requires
        p.channel_kind == ChannelKind::PodmanRun,
        spec_for(c, p.podman_spec) == Some((image, workdir, home)),
    ensures
        ({
            let d = branch_channel(c, p, base, wt, ids)->Podman_0;
            &&& d.mode == PodmanMode::Run
            &&& d.image == Some(image)
            &&& d.workdir == workdir
            &&& d.home == home
            &&& d.container == builder::container_name(base, Some(p.branch_name), image)
            &&& d.name == builder::short_name(image) + " "@ + wt.path
            &&& d.host_root == Some(wt.path)
            &&& d.worktree == Some(wt)
        }),
{
}

/// The spec of the session's own container is used where it has one; else that of the first
/// configured channel with an image.
pub proof fn law_the_spec_for_a_new_container(
    c: Config,
    given: (Seq<char>, Seq<char>, Seq<char>),
    channels: Seq<(Seq<char>, ChannelConfig)>,
    first: (Seq<char>, ChannelConfig),
)
    ensures
        spec_for(c, Some(given)) == Some(given),
        spec_for(c, None) == configured_spec(c.channels@),
        configured_spec(Seq::empty()) is None,
        first.1.kind@ == "podman"@ && first.1.image is Some ==> configured_spec(
            seq![first] + channels,
        ) == Some(
            (
                first.1.image->0@,
                first.1.workdir@,
                if first.1.home is Some && text::trimmed(first.1.home->0@).len() > 0 {
                    text::trimmed(first.1.home->0@)
                } else {
                    "/tmp"@
                },
            ),
        ),
        first.1.kind@ != "podman"@ || first.1.image is None ==> configured_spec(
            seq![first] + channels,
        ) == configured_spec(channels),
{
    assert((seq![first] + channels).drop_first() =~= channels);
}

/// The channel of a branch is registered under a name that was free, with a number of its own, and
/// the session gets the level of its kind.
pub proof fn law_the_channel_of_a_branch_is_registered(
    m: AppModel,
    p: types::PendingModel,
    worktree: channel::WorktreeModel,
    base: Seq<char>,
    ids: (u32, u32),
)
    requires
        0 <= m.active < m.sessions.len(),
        p.channel_kind == ChannelKind::Local,
    ensures
        ({
            let outcome = OutcomeModel::Made { worktree, base_folder: base, copy_info: None };
            let n = after_making(m, p, outcome, ids).0;
            let ch = n.current().channel->0;
            &&& ch.id == m.channels.next
            &&& n.channels.map == table::put(
                m.channels.map,
                registry::registered_name(m.channels.map, worktree.path),
                ch,
            )
            &&& m.channels.next < u64::MAX ==> n.channels.next == m.channels.next + 1
            &&& n.current().permission == crate::perm::Permission::Read
            &&& n.current().id == state::next_session(m.sessions)
        }),
{
    reveal(after_making);
    reveal(branch_finished);
}

/// Without an image a worktree cannot be used: the session says so and nothing is made.
pub proof fn law_reuse_needs_an_image(
    m: AppModel,
    p: types::PendingModel,
    path: Seq<char>,
    base: Seq<char>,
    ids: (u32, u32),
)
    requires
        0 <= m.active < m.sessions.len(),
        p.channel_kind == ChannelKind::PodmanRun,
        spec_for(m.config, p.podman_spec) is None,
    ensures
        after_reuse(m, p, path, base, ids).sessions.len() == m.sessions.len(),
        after_reuse(m, p, path, base, ids).channels == m.channels,
        after_reuse(m, p, path, base, ids).current().error == Some(
            "No Podman image available for the new channel."@,
        ),
{
    reveal(after_reuse);
}

/// The command for a branch is noted in the session that it came from.
pub proof fn law_the_command_for_a_branch_is_noted(
    m: AppModel,
    p: types::PendingModel,
    path: Seq<char>,
    base: Seq<char>,
    ids: (u32, u32),
)
    requires
        0 <= m.active < m.sessions.len(),
        p.channel_kind == ChannelKind::Local,
        p.branch_name.len() > 0,
        !text::is_white(p.branch_name.last()),
    ensures
        after_reuse(m, p, path, base, ids).sessions[m.active].input_history.last() == "/branch "@
            + p.branch_name,
{
    reveal(after_reuse);
    reveal(branch_finished);
    reveal_strlit("/branch ");
    assert(("/branch "@ + p.branch_name).last() == p.branch_name.last());
    text::lemma_trimmed_keeps("/branch "@ + p.branch_name);
}

} // verus!
