//! Channels that work on the host itself.

use super::{Channel, ChannelKind, ChannelStatus, WorktreeInfo};
use crate::text;
use vstd::prelude::*;
use vstd::string::*;

verus! {

/// A channel that works in a directory of the host.
#[derive(Debug)]
pub struct Local {
    pub root: String,
    /// How long a command may run, in seconds.
    pub timeout: u64,
    /// The worktree that was made for the channel.
    pub worktree: Option<WorktreeInfo>,
    /// Whether the directory is a worktree that was made for the channel.
    pub managed_worktree: bool,
}

/// What a channel on the host holds.
pub struct LocalModel {
    pub root: Seq<char>,
    pub timeout: u64,
    pub worktree: Option<super::WorktreeModel>,
    pub managed_worktree: bool,
}

impl View for Local {
    type V = LocalModel;

    open spec fn view(&self) -> LocalModel {
        LocalModel {
            root: self.root@,
            timeout: self.timeout,
            worktree: super::worktree_view(self.worktree),
            managed_worktree: self.managed_worktree,
        }
    }
}

impl Clone for Local {
    fn clone(&self) -> (r: Self)
        ensures
            r@ == self@,
    {
        Local {
            root: self.root.clone(),
            timeout: self.timeout,
            worktree: super::copy_worktree(&self.worktree),
            managed_worktree: self.managed_worktree,
        }
    }
}

impl Local {
    /// A channel in the directory `root`.
    pub fn new(root: String) -> (r: Self)
        ensures
            r@ == (LocalModel {
                root: root@,
                timeout: 60,
                worktree: None,
                managed_worktree: false,
            }),
    {
        Local { root, timeout: 60, worktree: None, managed_worktree: false }
    }

    /// The channel with a worktree that was made for it.
    pub fn with_worktree(self, wt: WorktreeInfo) -> (r: Self)
        ensures
            r@ == (LocalModel { worktree: Some(wt@), managed_worktree: true, ..self@ }),
    {
        Local { worktree: Some(wt), managed_worktree: true, ..self }
    }

    /// The channel with another time limit.
    pub fn with_timeout(self, timeout: u64) -> (r: Self)
        ensures
            r@ == (LocalModel { timeout, ..self@ }),
    {
        Local { timeout, ..self }
    }

    /// A second channel in the same directory. It does not own the worktree: closing it must not
    /// take the directory away from the first one.
    pub fn dup(&self) -> (r: Local)
        ensures
            r@ == (LocalModel { worktree: None, managed_worktree: false, ..self@ }),
    {
        Local {
            root: self.root.clone(),
            timeout: self.timeout,
            worktree: None,
            managed_worktree: false,
        }
    }

    /// Whether the directory is a worktree that was made for the channel.
    pub fn managed_worktree(&self) -> (r: bool)
        ensures
            r == self@.managed_worktree,
    {
        self.managed_worktree
    }
}

/// The shell that is used: `bash` where the test for it ran well, else `sh`.
pub open spec fn shell_name(test: Result<super::RunModel, Seq<char>>) -> Seq<char> {
    match test {
        Ok(o) if o.exit_code == Some(0i32) => "bash"@,
        _ => "sh"@,
    }
}

/// The shell that is used.
pub fn shell(test: &Result<super::RunOut, String>) -> (r: String)
    ensures
        r@ == shell_name(super::run_view(*test)),
{
    match test {
        Ok(o) => match o.exit_code {
            Some(c) => if c == 0 {
                "bash".to_string()
            } else {
                "sh".to_string()
            },
            None => "sh".to_string(),
        },
        Err(_) => "sh".to_string(),
    }
}

/// What a channel on the host says of itself.
pub open spec fn local_says(m: LocalModel) -> super::ChannelModel {
    super::ChannelModel {
        kind: ChannelKind::Local,
        root: "Local:"@ + m.root,
        label: "Local:"@ + m.root,
        host_root: Some(m.root),
        container: None,
        run_spec: None,
        worktree: m.worktree,
        status: ChannelStatus::Running,
    }
}

impl Channel for Local {
    open spec fn model(&self) -> super::ChannelModel {
        local_says(self@)
    }

    fn kind(&self) -> (r: ChannelKind) {
        ChannelKind::Local
    }

    fn root(&self) -> (r: String) {
        text::concat("Local:", self.root.as_str())
    }

    fn label(&self) -> (r: String) {
        self.root()
    }

    fn host_root(&self) -> (r: Option<String>) {
        Some(self.root.clone())
    }

    fn container_name(&self) -> (r: Option<String>) {
        None
    }

    fn podman_run_spec(&self) -> (r: Option<(String, String, String)>) {
        None
    }

    fn owned_worktree(&self) -> (r: Option<WorktreeInfo>) {
        super::copy_worktree(&self.worktree)
    }

    fn status(&self) -> (r: ChannelStatus) {
        ChannelStatus::Running
    }
}

// ---------------------------------------------------------------------------
// Laws
// ---------------------------------------------------------------------------
/// A local channel works in its directory, has no container, is always there, and is named by its
/// directory.
pub proof fn law_local_channels_work_in_their_directory(m: LocalModel)
    ensures
        ({
            let says = local_says(m);
            &&& says.kind == ChannelKind::Local
            &&& says.host_root == Some(m.root)
            &&& says.root == "Local:"@ + m.root
            &&& says.label == "Local:"@ + m.root
            &&& says.container is None
            &&& says.run_spec is None
            &&& says.worktree == m.worktree
            &&& says.status == ChannelStatus::Running
        }),
{
}

/// Commands run in bash where that works, else in the plain shell.
pub proof fn law_bash_is_used_where_it_works(o: super::RunModel, e: Seq<char>)
    ensures
        o.exit_code == Some(0i32) ==> shell_name(Ok(o)) == "bash"@,
        o.exit_code != Some(0i32) ==> shell_name(Ok(o)) == "sh"@,
        shell_name(Err(e)) == "sh"@,
{
}

} // verus!
