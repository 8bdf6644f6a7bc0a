//! Channels: the way to a filesystem and a shell.

use crate::text;
use vstd::prelude::*;
use vstd::string::*;

pub mod builder;
pub mod container;
pub mod glob;
pub mod ignore;
pub mod local;
pub mod paths;
pub mod podman;
pub mod registry;
pub mod resolve;
pub mod run;
pub mod search;

pub use local::Local;
pub use podman::PodmanChannel;
pub use registry::{
    channel_from_config, local_from_config, AnyChannel, BoundChannel, ChannelRegistry,
};

verus! {

/// The kinds of channels.
#[derive(Debug, Clone, Copy, PartialEq, Eq, Structural)]
pub enum ChannelKind {
    /// A directory of the host.
    Local,
    /// A container that the channel starts itself.
    PodmanRun,
    /// A container that someone else runs.
    PodmanAttach,
}

/// Whether a podman channel starts its own container or uses that of others.
#[derive(Debug, Clone, Copy, PartialEq, Eq, Structural)]
pub enum PodmanMode {
    Attach,
    Run,
}

/// What is known of a channel.
#[derive(Debug, Clone, Copy, PartialEq, Eq, Structural)]
pub enum ChannelStatus {
    Unknown,
    Starting,
    Running,
    Problem,
}

/// What a command left behind.
#[derive(Debug, PartialEq)]
pub struct RunOut {
    /// How the command ended; none where it was stopped.
    pub exit_code: Option<i32>,
    pub stdout: String,
    pub stderr: String,
}

/// What the result of a command holds.
pub struct RunModel {
    pub exit_code: Option<i32>,
    pub stdout: Seq<char>,
    pub stderr: Seq<char>,
}

impl View for RunOut {
    type V = RunModel;

    open spec fn view(&self) -> RunModel {
        RunModel { exit_code: self.exit_code, stdout: self.stdout@, stderr: self.stderr@ }
    }
}

impl Clone for RunOut {
    fn clone(&self) -> (r: Self)
        ensures
            r@ == self@,
    {
        RunOut {
            exit_code: self.exit_code,
            stdout: self.stdout.clone(),
            stderr: self.stderr.clone(),
        }
    }
}

/// What came of running a command: its result, or why it did not run.
pub open spec fn run_view(r: Result<RunOut, String>) -> Result<RunModel, Seq<char>> {
    match r {
        Ok(out) => Ok(out@),
        Err(e) => Err(e@),
    }
}

/// A place that a search found.
#[derive(Debug, PartialEq)]
pub struct Match {
    pub path: String,
    pub text: String,
}

/// What a found place holds.
pub struct MatchModel {
    pub path: Seq<char>,
    pub text: Seq<char>,
}

impl View for Match {
    type V = MatchModel;

    open spec fn view(&self) -> MatchModel {
        MatchModel { path: self.path@, text: self.text@ }
    }
}

/// What the places of a list hold.
pub open spec fn match_views(v: Seq<Match>) -> Seq<MatchModel> {
    v.map_values(|m: Match| m@)
}

/// What a search found.
#[derive(Debug, PartialEq)]
pub struct SearchResult {
    pub matches: Vec<Match>,
    /// A remark on how the search was made.
    pub note: Option<String>,
    /// The lines of a search with context, as they came; then there are no single places.
    pub raw: Option<String>,
}

/// What the result of a search holds.
pub struct FoundModel {
    pub matches: Seq<MatchModel>,
    pub note: Option<Seq<char>>,
    pub raw: Option<Seq<char>>,
}

impl View for SearchResult {
    type V = FoundModel;

    open spec fn view(&self) -> FoundModel {
        FoundModel {
            matches: match_views(self.matches@),
            note: text::opt_view(self.note),
            raw: text::opt_view(self.raw),
        }
    }
}

// ---------------------------------------------------------------------------
// What a channel says of itself
// ---------------------------------------------------------------------------
/// A worktree that was made for a channel.
#[derive(Debug, PartialEq)]
pub struct WorktreeInfo {
    pub name: String,
    pub branch: String,
    pub path: String,
}

/// What a worktree holds.
pub struct WorktreeModel {
    pub name: Seq<char>,
    pub branch: Seq<char>,
    pub path: Seq<char>,
}

impl View for WorktreeInfo {
    type V = WorktreeModel;

    open spec fn view(&self) -> WorktreeModel {
        WorktreeModel { name: self.name@, branch: self.branch@, path: self.path@ }
    }
}

impl Clone for WorktreeInfo {
    fn clone(&self) -> (r: Self)
        ensures
            r@ == self@,
    {
        WorktreeInfo {
            name: self.name.clone(),
            branch: self.branch.clone(),
            path: self.path.clone(),
        }
    }
}

/// What a worktree that may be missing holds.
pub open spec fn worktree_view(o: Option<WorktreeInfo>) -> Option<WorktreeModel> {
    match o {
        Some(w) => Some(w@),
        None => None,
    }
}

/// A worktree equal to the given one, or none.
pub fn copy_worktree(o: &Option<WorktreeInfo>) -> (r: Option<WorktreeInfo>)
    ensures
        worktree_view(r) == worktree_view(*o),
{
    match o {
        Some(w) => Some(w.clone()),
        None => None,
    }
}

/// Image, working directory and home directory of a container.
pub open spec fn spec_view(o: Option<(String, String, String)>) -> Option<
    (Seq<char>, Seq<char>, Seq<char>),
> {
    match o {
        Some(t) => Some((t.0@, t.1@, t.2@)),
        None => None,
    }
}

/// What a channel says of itself.
pub struct ChannelModel {
    pub kind: ChannelKind,
    /// The place where it works.
    pub root: Seq<char>,
    /// The name under which it is shown.
    pub label: Seq<char>,
    /// The directory of the host that it works in; a channel into a container of others names none.
    pub host_root: Option<Seq<char>>,
    /// The container that it starts itself.
    pub container: Option<Seq<char>>,
    /// Image, working directory and home directory of its container.
    pub run_spec: Option<(Seq<char>, Seq<char>, Seq<char>)>,
    /// The worktree that was made for it.
    pub worktree: Option<WorktreeModel>,
    pub status: ChannelStatus,
}

/// A way to a filesystem and a shell.
pub trait Channel {
    /// What the channel says of itself.
    spec fn model(&self) -> ChannelModel;

    fn kind(&self) -> (r: ChannelKind)
        ensures
            r == self.model().kind,
    ;

    /// The place where it works.
    fn root(&self) -> (r: String)
        ensures
            r@ == self.model().root,
    ;

    /// The name under which it is shown.
    fn label(&self) -> (r: String)
        ensures
            r@ == self.model().label,
    ;

    /// The directory of the host that it works in; a channel into a container of others names none.
    fn host_root(&self) -> (r: Option<String>)
        ensures
            text::opt_view(r) == self.model().host_root,
    ;

    /// The container that it starts itself.
    fn container_name(&self) -> (r: Option<String>)
        ensures
            text::opt_view(r) == self.model().container,
    ;

    /// Image, working directory and home directory of its container.
    fn podman_run_spec(&self) -> (r: Option<(String, String, String)>)
        ensures
            spec_view(r) == self.model().run_spec,
    ;

    /// The worktree that was made for it.
    fn owned_worktree(&self) -> (r: Option<WorktreeInfo>)
        ensures
            worktree_view(r) == self.model().worktree,
    ;

    fn status(&self) -> (r: ChannelStatus)
        ensures
            r == self.model().status,
    ;
}

} // verus!
