//! Channels from the builder, and copies of channels.

use super::branch;
use super::picker;
use super::picker::warmup_channel;
use super::state;
use super::state::{App, AppModel};
use super::types;
use super::types::{BuilderChoice, Task};
use crate::channel;
use crate::channel::builder;
use crate::channel::builder::{run_channel_name, run_container_name, Tunnel};
use crate::channel::registry;
use crate::channel::registry::channel_from_config;
use crate::channel::run;
use crate::channel::{AnyChannel, BoundChannel, Channel, WorktreeInfo};
use crate::config::ChannelConfig;
use crate::text;
use vstd::prelude::*;
use vstd::string::*;

verus! {

/// What came of making what a channel needs.
#[derive(Debug)]
pub enum Prepared {
    /// The repository could not be found.
    NoRepo(String),
    /// The worktree of the chosen branch could not be made.
    NoWorktree(String),
    /// The worktree that was made, and the name of the directory of the repository.
    Ready { worktree: Option<WorktreeInfo>, base: String },
}

/// What is known of what came of making what a channel needs.
pub enum PreparedModel {
    NoRepo(Seq<char>),
    NoWorktree(Seq<char>),
    Ready { worktree: Option<channel::WorktreeModel>, base: Seq<char> },
}

impl View for Prepared {
    type V = PreparedModel;

    open spec fn view(&self) -> PreparedModel {
        match self {
            Prepared::NoRepo(e) => PreparedModel::NoRepo(e@),
            Prepared::NoWorktree(e) => PreparedModel::NoWorktree(e@),
            Prepared::Ready { worktree, base } => PreparedModel::Ready {
                worktree: channel::worktree_view(*worktree),
                base: base@,
            },
        }
    }
}

/// The chosen worktree, where there is a directory for it.
pub open spec fn used_worktree(c: types::ChoiceModel) -> Option<builder::BranchModel> {
    match c.worktree {
        Some(w) => if w.has_worktree && w.path.len() > 0 {
            Some(w)
        } else {
            None
        },
        None => None,
    }
}

/// The directory of the channel.
pub open spec fn root_of(
    c: types::ChoiceModel,
    created: Option<channel::WorktreeModel>,
) -> Seq<char> {
    match created {
        Some(w) => w.path,
        None => match used_worktree(c) {
            Some(w) => w.path,
            None => c.host_root,
        },
    }
}

/// The branch of the channel.
pub open spec fn branch_of(
    c: types::ChoiceModel,
    created: Option<channel::WorktreeModel>,
) -> Option<Seq<char>> {
    match created {
        Some(w) => Some(w.branch),
        None => match used_worktree(c) {
            Some(w) => Some(w.branch),
            None => None,
        },
    }
}

/// Where a container that is there has the directory.
pub open spec fn used_mount(c: types::ChoiceModel) -> Option<Seq<char>> {
    match c.container_info {
        Some(i) => match i.mount_destination {
            Some(d) => if d.len() > 0 {
                Some(d)
            } else {
                None
            },
            None => None,
        },
        None => None,
    }
}

/// The working directory in the container: that of a container that is there, else the one of
/// the image with the repository below it.
pub open spec fn guest_dir(c: types::ChoiceModel, base: Seq<char>) -> Seq<char> {
    match used_mount(c) {
        Some(d) => d,
        None => match c.tunnel {
            builder::TunnelModel::Local => "/app"@,
            builder::TunnelModel::Image { working_dir, .. } => text::trimmed_end_of(
                match working_dir {
                    Some(d) => d,
                    None => "/app"@,
                },
                '/',
            ) + "/"@ + base,
        },
    }
}

/// The container that runs already.
pub open spec fn running(c: types::ChoiceModel) -> Option<Seq<char>> {
    match c.container_info {
        Some(i) => if i.status == "running"@ && used_mount(c) is Some {
            Some(i.name)
        } else {
            None
        },
        None => None,
    }
}

/// Whether the description is that of the chosen channel: a container that runs is joined, else
/// one is started from the image.
pub open spec fn is_chosen_config(
    cfg: ChannelConfig,
    c: types::ChoiceModel,
    created: Option<channel::WorktreeModel>,
    base: Seq<char>,
) -> bool {
    &&& cfg.kind@ == (match c.tunnel {
        builder::TunnelModel::Local => "local"@,
        builder::TunnelModel::Image { .. } => "podman"@,
    })
    &&& text::opt_view(cfg.image) == (if running(c) is Some {
        None
    } else {
        builder::image_of(c.tunnel)
    })
    &&& text::opt_view(cfg.container) == running(c)
    &&& text::opt_view(cfg.run_container) == (match (running(c), builder::image_of(c.tunnel)) {
        (None, Some(image)) => Some(builder::container_name(base, branch_of(c, created), image)),
        _ => None,
    })
    &&& cfg.workdir@ == guest_dir(c, base)
    &&& text::opt_view(cfg.host_root) == Some(root_of(c, created))
    &&& cfg.home is None
}

/// The name of the chosen channel.
pub open spec fn chosen_name(
    c: types::ChoiceModel,
    created: Option<channel::WorktreeModel>,
) -> Seq<char> {
    match builder::image_of(c.tunnel) {
        Some(image) => builder::channel_name(image, root_of(c, created)),
        None => root_of(c, created),
    }
}

/// The channel that starts the container that runs already.
pub open spec fn reused(m: AppModel, c: types::ChoiceModel) -> Option<registry::BoundModel> {
    match running(c) {
        None => None,
        Some(name) => {
            let k = registry::container_at(m.channels.map, name);
            if k < m.channels.map.len() {
                Some(m.channels.map[k].1)
            } else {
                None
            }
        },
    }
}

/// The state in which the active session works on a channel.
pub open spec fn working_on(m: AppModel, ch: registry::BoundModel) -> AppModel {
    m.with_current(picker::bound_to(state::quiet(m.current()), Some(ch)))
}

/// State and work after a channel was made.
#[verifier::opaque]
pub open spec fn channel_made(
    m: AppModel,
    name: Seq<char>,
    made: Result<registry::AnyModel, Seq<char>>,
) -> (AppModel, types::TaskModel) {
    match made {
        Ok(data) => {
            let ch = registry::BoundModel { id: m.channels.next, data };
            (
                working_on(
                    AppModel { channels: branch::with_channel(m.channels, name, data), ..m },
                    ch,
                ),
                picker::warming(ch),
            )
        },
        Err(e) => (m.telling("Could not create channel: "@ + e), types::TaskModel::Nothing),
    }
}

/// Whether state and work are right after what the chosen channel needs was made. A channel on
/// the container that runs already is used again.
#[verifier::opaque]
pub open spec fn chosen_made(
    m: AppModel,
    c: types::ChoiceModel,
    created: Option<channel::WorktreeModel>,
    base: Seq<char>,
    ids: Result<(nat, nat), Seq<char>>,
    to: (AppModel, types::TaskModel),
) -> bool {
    match reused(m, c) {
        Some(ch) => to == (working_on(m, ch), picker::warming(ch)),
        None => exists|cfg: ChannelConfig|
            {
                &&& #[trigger] is_chosen_config(cfg, c, created, base)
                &&& to == channel_made(
                    m,
                    chosen_name(c, created),
                    registry::channel_described(
                        chosen_name(c, created),
                        cfg,
                        m.config.timeout_secs,
                        ids,
                        created,
                        m.config.podman.usermapping,
                    ),
                )
            },
    }
}

/// Whether state and work are right after the surroundings made what the chosen channel needs.
pub open spec fn after_preparing(
    m: AppModel,
    c: types::ChoiceModel,
    prepared: PreparedModel,
    ids: Result<(nat, nat), Seq<char>>,
    to: (AppModel, types::TaskModel),
) -> bool {
    match prepared {
        PreparedModel::NoRepo(e) => to == (
            m.telling("Could not determine Git repo: "@ + e),
            types::TaskModel::Nothing,
        ),
        PreparedModel::NoWorktree(e) => to == (
            m.telling(
                "Could not create worktree for branch '"@ + (match c.pending_branch {
                    Some(b) => b,
                    None => Seq::empty(),
                }) + "': "@ + e,
            ),
            types::TaskModel::Nothing,
        ),
        PreparedModel::Ready { worktree, base } => chosen_made(m, c, worktree, base, ids, to),
    }
}

/// State and work to copy the channel of the active session; without one there is an error.
pub open spec fn copy_asked(m: AppModel) -> (AppModel, types::TaskModel) {
    match m.current().channel {
        Some(c) => (m, types::TaskModel::Duplicate(c)),
        None => (
            m.telling("Cannot duplicate: no channel is bound (Alt+C)."@),
            types::TaskModel::Nothing,
        ),
    }
}

/// The state with a copy of the channel of the active session, or with why there is none.
pub open spec fn after_copy(
    m: AppModel,
    copy: Result<registry::AnyModel, Seq<char>>,
) -> AppModel {
    match copy {
        Ok(data) => working_on(
            AppModel {
                channels: branch::with_channel(m.channels, data.says().label, data),
                ..m
            },
            registry::BoundModel { id: m.channels.next, data },
        ),
        Err(e) => m.telling("Cannot duplicate: "@ + e),
    }
}

impl BuilderChoice {
    fn directory(&self, created: &Option<WorktreeInfo>) -> (r: String)
        ensures
            r@ == root_of(self@, channel::worktree_view(*created)),
    {
        if let Some(w) = created {
            return w.path.clone();
        }
        if let Some(w) = &self.worktree {
            if w.has_worktree && !w.path.as_str().is_empty() {
                return w.path.clone();
            }
        }
        self.host_root.clone()
    }

    fn branch(&self, created: &Option<WorktreeInfo>) -> (r: Option<String>)
        ensures
            text::opt_view(r) == branch_of(self@, channel::worktree_view(*created)),
    {
        if let Some(w) = created {
            return Some(w.branch.clone());
        }
        if let Some(w) = &self.worktree {
            if w.has_worktree && !w.path.as_str().is_empty() {
                return Some(w.branch.clone());
            }
        }
        None
    }

    fn mount(&self) -> (r: Option<String>)
        ensures
            text::opt_view(r) == used_mount(self@),
    {
        if let Some(i) = &self.container_info {
            if let Some(d) = &i.mount_destination {
                if !d.as_str().is_empty() {
                    return Some(d.clone());
                }
            }
        }
        None
    }

    fn running_container(&self) -> (r: Option<String>)
        ensures
            text::opt_view(r) == running(self@),
    {
        let mounted = self.mount().is_some();
        match &self.container_info {
            Some(i) => if mounted && text::same_text(i.status.as_str(), "running") {
                Some(i.name.clone())
            } else {
                None
            },
            None => None,
        }
    }

    fn workdir(&self, base: &str) -> (r: String)
        ensures
            r@ == guest_dir(self@, base@),
    {
        if let Some(d) = self.mount() {
            return d;
        }
        match &self.tunnel {
            Tunnel::Local => "/app".to_string(),
            Tunnel::Image { working_dir, .. } => {
                let dir = match working_dir {
                    Some(d) => d.clone(),
                    None => "/app".to_string(),
                };
                text::concat3(text::trim_end_of(dir.as_str(), '/').as_str(), "/", base)
            },
        }
    }

    fn container_to_start(&self, created: &Option<WorktreeInfo>, base: &str) -> (r: Option<String>)
        ensures
            text::opt_view(r) == (match builder::image_of(self@.tunnel) {
                Some(image) => Some(
                    builder::container_name(
                        base@,
                        branch_of(self@, channel::worktree_view(*created)),
                        image,
                    ),
                ),
                None => None,
            }),
    {
        match self.tunnel.image_name() {
            Some(image) => {
                let branch = self.branch(created);
                let b = match &branch {
                    Some(s) => Some(s.as_str()),
                    None => None,
                };
                Some(run_container_name(base, b, image))
            },
            None => None,
        }
    }

    /// The description of the chosen channel.
    pub fn to_config(&self, created: &Option<WorktreeInfo>, base: &str) -> (r: ChannelConfig)
        ensures
            is_chosen_config(r, self@, channel::worktree_view(*created), base@),
    {
        let kind = match &self.tunnel {
            Tunnel::Local => "local".to_string(),
            Tunnel::Image { .. } => "podman".to_string(),
        };
        let container = self.running_container();
        let image = match self.tunnel.image_name() {
            Some(n) => Some(n.to_string()),
            None => None,
        };
        let joins = container.is_some();
        ChannelConfig {
            kind,
            image: if joins {
                None
            } else {
                image
            },
            container,
            run_container: if joins {
                None
            } else {
                self.container_to_start(created, base)
            },
            workdir: self.workdir(base),
            host_root: Some(self.directory(created)),
            home: None,
        }
    }

    /// The name of the chosen channel.
    pub fn channel_name(&self, created: &Option<WorktreeInfo>) -> (r: String)
        ensures
            r@ == chosen_name(self@, channel::worktree_view(*created)),
    {
        let root = self.directory(created);
        match self.tunnel.image_name() {
            Some(image) => run_channel_name(image, root.as_str()),
            None => root,
        }
    }
}

impl App {
    fn reusable(&self, choice: &BuilderChoice) -> (r: Option<BoundChannel>)
        requires
            self.wf(),
        ensures
            registry::bound_view(r) == reused(self@, choice@),
    {
        match choice.running_container() {
            None => None,
            Some(name) => match self.channels.find_by_container(name.as_str()) {
                Some(p) => Some(p.1),
                None => None,
            },
        }
    }

    fn use_made(&mut self, name: String, made: Result<AnyChannel, String>) -> (r: Task)
        requires
            old(self).ready(),
        ensures
            final(self).ready(),
            (final(self)@, r@) == channel_made(old(self)@, name@, registry::any_result(made)),
    {
        proof {
            reveal(channel_made);
        }
        match made {
            Ok(data) => {
                let ch = self.keep_channel(data, name);
                let t = warmup_channel(&ch);
                self.bind_active_channel(ch);
                t
            },
            Err(e) => {
                self.tell(text::concat("Could not create channel: ", e.as_str()));
                Task::Nothing
            },
        }
    }

    fn make_chosen(
        &mut self,
        choice: &BuilderChoice,
        created: Option<WorktreeInfo>,
        base: &str,
        ids: &Result<(u32, u32), String>,
    ) -> (r: Task)
        requires
            old(self).ready(),
        ensures
            final(self).ready(),
            chosen_made(
                old(self)@,
                choice@,
                channel::worktree_view(created),
                base@,
                run::pair_view(*ids),
                (final(self)@, r@),
            ),
    {
        proof {
            reveal(chosen_made);
        }
        if let Some(ch) = self.reusable(choice) {
            let t = warmup_channel(&ch);
            self.bind_active_channel(ch);
            return t;
        }
        let cfg = choice.to_config(&created, base);
        let name = choice.channel_name(&created);
        let made = channel_from_config(
            name.as_str(),
            &cfg,
            self.config.timeout_secs,
            ids,
            created,
            self.config.podman.usermapping,
        );
        self.use_made(name, made)
    }

    /// Makes the channel that was chosen in the builder, after the surroundings made what it
    /// needs. `ids` is the identity that commands in a container run as.
    pub fn channel_prepared(
        &mut self,
        choice: BuilderChoice,
        prepared: Prepared,
        ids: &Result<(u32, u32), String>,
    ) -> (r: Task)
        requires
            old(self).ready(),
        ensures
            final(self).ready(),
            after_preparing(
                old(self)@,
                choice@,
                prepared@,
                run::pair_view(*ids),
                (final(self)@, r@),
            ),
    {
        match prepared {
            Prepared::NoRepo(e) => {
                self.tell(text::concat("Could not determine Git repo: ", e.as_str()));
                Task::Nothing
            },
            Prepared::NoWorktree(e) => {
                let branch = match &choice.pending_branch {
                    Some(b) => b.clone(),
                    None => {
                        let s = String::new();
                        assert(s@ =~= Seq::empty());
                        s
                    },
                };
                let head = text::concat3(
                    "Could not create worktree for branch '",
                    branch.as_str(),
                    "': ",
                );
                self.tell(text::concat(head.as_str(), e.as_str()));
                Task::Nothing
            },
            Prepared::Ready { worktree, base } => self.make_chosen(
                &choice,
                worktree,
                base.as_str(),
                ids,
            ),
        }
    }

    /// Asks for a copy of the channel of the active session; says so where it has none.
    pub fn duplicate_active_channel(&mut self) -> (r: Task)
        requires
            old(self).ready(),
        ensures
            final(self).ready(),
            (final(self)@, r@) == copy_asked(old(self)@),
    {
        if let Some(c) = &self.sessions[self.active].channel {
            return Task::Duplicate(c.clone());
        }
        self.tell("Cannot duplicate: no channel is bound (Alt+C).".to_string());
        Task::Nothing
    }

    /// Works on with the copy of a channel, or says why there is none.
    pub fn duplicated(&mut self, copy: Result<AnyChannel, String>)
        requires
            old(self).ready(),
        ensures
            final(self).ready(),
            final(self)@ == after_copy(old(self)@, registry::any_result(copy)),
    {
        match copy {
            Ok(data) => {
                let label = data.label();
                let ch = self.keep_channel(data, label);
                self.bind_active_channel(ch);
            },
            Err(e) => self.tell(text::concat("Cannot duplicate: ", e.as_str())),
        }
    }
}

/// Where a channel on the container that runs already is known, it is used again and no other
/// one is made.
pub proof fn law_a_known_container_gets_no_second_channel(
    m: AppModel,
    c: types::ChoiceModel,
    created: Option<channel::WorktreeModel>,
    base: Seq<char>,
    ids: Result<(nat, nat), Seq<char>>,
    to: (AppModel, types::TaskModel),
)
    requires
        0 <= m.active < m.sessions.len(),
        reused(m, c) is Some,
        chosen_made(m, c, created, base, ids, to),
    ensures
        to.0.channels == m.channels,
        to.0.current().channel == reused(m, c),
{
    reveal(chosen_made);
}

/// A chosen container is described as it was chosen: from its image, in the directory that was
/// chosen or made for it, under a name of its own; and one that runs already is joined as it is.
pub proof fn law_chosen_containers_are_described_as_chosen(
    cfg: ChannelConfig,
    c: types::ChoiceModel,
    created: Option<channel::WorktreeModel>,
    base: Seq<char>,
    image: Seq<char>,
    working_dir: Option<Seq<char>>,
)
    requires
        is_chosen_config(cfg, c, created, base),
        c.tunnel == (builder::TunnelModel::Image { name: image, working_dir }),
    ensures
        ({
            let joins = c.container_info matches Some(i) && i.status == "running"@
                && i.mount_destination is Some && i.mount_destination->0.len() > 0;
            let branch = match created {
                Some(w) => Some(w.branch),
                None => match c.worktree {
                    Some(w) => if w.has_worktree && w.path.len() > 0 {
                        Some(w.branch)
                    } else {
                        None
                    },
                    None => None,
                },
            };
            &&& cfg.kind@ == "podman"@
            &&& joins ==> cfg.image is None && cfg.run_container is None && text::opt_view(
                cfg.container,
            ) == Some(c.container_info->0.name)
            &&& !joins ==> text::opt_view(cfg.image) == Some(image) && cfg.container is None
                && text::opt_view(cfg.run_container) == Some(
                builder::container_name(base, branch, image),
            )
            &&& cfg.host_root is Some
            &&& created matches Some(w) ==> cfg.host_root->0@ == w.path
            &&& created is None && c.worktree is None ==> cfg.host_root->0@ == c.host_root
            &&& cfg.home is None
            &&& c.container_info is None && working_dir is None ==> cfg.workdir@
                == text::trimmed_end_of("/app"@, '/') + "/"@ + base
            &&& c.container_info is None && working_dir is Some ==> cfg.workdir@
                == text::trimmed_end_of(working_dir->0, '/') + "/"@ + base
            &&& joins ==> cfg.workdir@ == c.container_info->0.mount_destination->0
        }),
{
}

/// A chosen local channel has neither image nor container and works in the directory that was chosen
/// or made.
pub proof fn law_chosen_local_channels_have_no_container(
    cfg: ChannelConfig,
    c: types::ChoiceModel,
    created: Option<channel::WorktreeModel>,
    base: Seq<char>,
)
    requires
        is_chosen_config(cfg, c, created, base),
        c.tunnel is Local,
        c.container_info is None,
    ensures
        cfg.kind@ == "local"@,
        cfg.image is None,
        cfg.container is None,
        cfg.run_container is None,
        cfg.host_root is Some,
        created matches Some(w) ==> cfg.host_root->0@ == w.path,
        created is None && c.worktree is None ==> cfg.host_root->0@ == c.host_root,
        created is None && c.worktree is Some && c.worktree->0.has_worktree
            && c.worktree->0.path.len() > 0 ==> cfg.host_root->0@ == c.worktree->0.path,
{
}

/// A made channel is the one that the session works on, with a number of its own, under a name that
/// was free, and is started where it has a container of its own; one that could not be made is said.
pub proof fn law_a_made_channel_is_used(
    m: AppModel,
    name: Seq<char>,
    data: registry::AnyModel,
    why: Seq<char>,
    i: int,
)
    requires
        0 <= m.active < m.sessions.len(),
        0 <= i < m.sessions.len(),
    ensures
        ({
            let (n, task) = channel_made(m, name, Ok(data));
            let ch = registry::BoundModel { id: m.channels.next, data };
            &&& n.current().channel == Some(ch)
            &&& n.current().error is None
            &&& i != m.active ==> n.sessions[i] == m.sessions[i]
            &&& n.channels.map == crate::table::put(
                m.channels.map,
                registry::registered_name(m.channels.map, name),
                ch,
            )
            &&& m.channels.next < u64::MAX ==> n.channels.next == m.channels.next + 1
            &&& data.says().kind == channel::ChannelKind::PodmanRun ==> task
                == types::TaskModel::Warmup(ch)
            &&& data.says().kind != channel::ChannelKind::PodmanRun ==> task
                == types::TaskModel::Nothing
        }),
        channel_made(m, name, Err(why)).1 == types::TaskModel::Nothing,
        channel_made(m, name, Err(why)).0.current().error == Some(
            "Could not create channel: "@ + why,
        ),
        channel_made(m, name, Err(why)).0.channels == m.channels,
{
    reveal(channel_made);
}

/// A channel from an image is named by the short name of the image and its directory, a local one by
/// its directory.
pub proof fn law_made_channels_are_named_by_their_directory(
    c: types::ChoiceModel,
    created: Option<channel::WorktreeModel>,
    image: Seq<char>,
    working_dir: Option<Seq<char>>,
)
    ensures
        c.tunnel is Local ==> chosen_name(c, created) == root_of(c, created),
        c.tunnel == (builder::TunnelModel::Image { name: image, working_dir }) ==> chosen_name(
            c,
            created,
        ) == builder::short_name(image) + " "@ + root_of(c, created),
        created matches Some(w) ==> root_of(c, created) == w.path,
        created is None && c.worktree is None ==> root_of(c, created) == c.host_root,
{
}

/// What keeps a channel from being prepared is said, and nothing is made.
pub proof fn law_unprepared_channels_are_not_made(
    m: AppModel,
    c: types::ChoiceModel,
    e: Seq<char>,
    ids: Result<(nat, nat), Seq<char>>,
    to: (AppModel, types::TaskModel),
    branch: Seq<char>,
)
    requires
        0 <= m.active < m.sessions.len(),
    ensures
        after_preparing(m, c, PreparedModel::NoRepo(e), ids, to) ==> to.1
            == types::TaskModel::Nothing && to.0.channels == m.channels && to.0.current().error
            == Some("Could not determine Git repo: "@ + e),
        after_preparing(m, c, PreparedModel::NoWorktree(e), ids, to) && c.pending_branch == Some(
            branch,
        ) ==> to.1 == types::TaskModel::Nothing && to.0.channels == m.channels
            && to.0.current().error == Some(
            "Could not create worktree for branch '"@ + branch + "': "@ + e,
        ),
{
}

/// The channel of the session is duplicated, and the duplicate is worked on; without a channel there
/// is nothing to duplicate.
pub proof fn law_the_channel_of_the_session_is_duplicated(
    m: AppModel,
    data: registry::AnyModel,
    why: Seq<char>,
)
    requires
        0 <= m.active < m.sessions.len(),
    ensures
        m.current().channel matches Some(c) ==> copy_asked(m) == (
            m,
            types::TaskModel::Duplicate(c),
        ),
        m.current().channel is None ==> copy_asked(m).1 == types::TaskModel::Nothing && copy_asked(
            m,
        ).0.current().error == Some("Cannot duplicate: no channel is bound (Alt+C)."@),
        after_copy(m, Ok(data)).current().channel == Some(
            registry::BoundModel { id: m.channels.next, data },
        ),
        after_copy(m, Ok(data)).channels.map == crate::table::put(
            m.channels.map,
            registry::registered_name(m.channels.map, data.says().label),
            registry::BoundModel { id: m.channels.next, data },
        ),
        after_copy(m, Err(why)).channels == m.channels,
        after_copy(m, Err(why)).current().error == Some("Cannot duplicate: "@ + why),
        after_copy(m, Err(why)).current().channel == m.current().channel,
{
}

} // verus!
