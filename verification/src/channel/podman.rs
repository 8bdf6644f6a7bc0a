//! Channels that work in a container.

use super::container;
use super::container::ContainerState;
use super::paths;
use super::resolve;
use super::run;
use super::{Channel, ChannelKind, ChannelStatus, PodmanMode, RunOut, WorktreeInfo};
use crate::config;
use crate::config::{ChannelConfig, PodmanUserMapping};
use crate::text;
use vstd::prelude::*;
use vstd::string::*;

verus! {

/// A channel that works in a container.
#[derive(Debug)]
pub struct PodmanChannel {
    pub name: String,
    pub mode: PodmanMode,
    pub container: String,
    /// The working directory in the container.
    pub workdir: String,
    /// The directory of the host behind it.
    pub host_root: Option<String>,
    pub image: Option<String>,
    /// How long a command may run, in seconds.
    pub timeout: u64,
    /// The user that commands run as.
    pub uid: u32,
    /// The group that commands run as.
    pub gid: u32,
    /// A writable home for commands.
    pub home: String,
    pub usermapping: PodmanUserMapping,
    /// The worktree that was made for the channel.
    pub worktree: Option<WorktreeInfo>,
    /// The number of the next duplicate.
    pub seq: usize,
    pub status: ChannelStatus,
}

/// What a channel in a container holds.
pub struct PodmanModel {
    pub name: Seq<char>,
    pub mode: PodmanMode,
    pub container: Seq<char>,
    pub workdir: Seq<char>,
    pub host_root: Option<Seq<char>>,
    pub image: Option<Seq<char>>,
    pub timeout: u64,
    pub uid: u32,
    pub gid: u32,
    pub home: Seq<char>,
    pub usermapping: PodmanUserMapping,
    pub worktree: Option<super::WorktreeModel>,
    pub seq: usize,
    pub status: ChannelStatus,
}

impl View for PodmanChannel {
    type V = PodmanModel;

    open spec fn view(&self) -> PodmanModel {
        PodmanModel {
            name: self.name@,
            mode: self.mode,
            container: self.container@,
            workdir: self.workdir@,
            host_root: text::opt_view(self.host_root),
            image: text::opt_view(self.image),
            timeout: self.timeout,
            uid: self.uid,
            gid: self.gid,
            home: self.home@,
            usermapping: self.usermapping,
            worktree: super::worktree_view(self.worktree),
            seq: self.seq,
            status: self.status,
        }
    }
}

impl Clone for PodmanChannel {
    fn clone(&self) -> (r: Self)
        ensures
            r@ == self@,
    {
        PodmanChannel {
            name: self.name.clone(),
            mode: self.mode,
            container: self.container.clone(),
            workdir: self.workdir.clone(),
            host_root: text::copy_opt(&self.host_root),
            image: text::copy_opt(&self.image),
            timeout: self.timeout,
            uid: self.uid,
            gid: self.gid,
            home: self.home.clone(),
            usermapping: self.usermapping,
            worktree: super::copy_worktree(&self.worktree),
            seq: self.seq,
            status: self.status,
        }
    }
}

// ---------------------------------------------------------------------------
// Identities
// ---------------------------------------------------------------------------
/// How many digits a text begins with.
pub open spec fn leading_digits(s: Seq<char>) -> int
    decreases s.len(),
{
    if s.len() == 0 || !text::is_digit(s[0]) {
        0
    } else {
        1 + leading_digits(s.drop_first())
    }
}

/// The number behind the first occurrence of `key`.
pub open spec fn number_behind(s: Seq<char>, key: Seq<char>) -> Option<nat> {
    let k = config::pos_text(s, key);
    if k + key.len() <= s.len() {
        let rest = s.skip(k + key.len());
        let digits = rest.take(leading_digits(rest));
        if digits.len() == 0 {
            None
        } else {
            text::parsed(digits, u32::MAX as nat)
        }
    } else {
        None
    }
}

proof fn lemma_pos_text_is(s: Seq<char>, p: Seq<char>, k: int)
    requires
        0 <= k <= s.len(),
        p.len() > 0,
        k < s.len() ==> p.is_prefix_of(s.skip(k)),
        forall|i: int| 0 <= i < k ==> !p.is_prefix_of(#[trigger] s.skip(i)),
    ensures
        config::pos_text(s, p) == k,
    decreases s.len(),
{
    assert(s.skip(0) =~= s);
    if k > 0 {
        assert(!p.is_prefix_of(s.skip(0)));
        let t = s.drop_first();
        assert forall|i: int| 0 <= i < k - 1 implies !p.is_prefix_of(#[trigger] t.skip(i)) by {
            assert(t.skip(i) =~= s.skip(i + 1));
        }
        if k < s.len() {
            assert(t.skip(k - 1) =~= s.skip(k));
        }
        lemma_pos_text_is(t, p, k - 1);
    }
}

fn number_after(s: &str, key: &str) -> (r: Option<u32>)
    requires
        key@.len() > 0,
    ensures
        match r {
            Some(n) => number_behind(s@, key@) == Some(n as nat),
            None => number_behind(s@, key@) is None,
        },
{
    let cs = text::chars_of(s);
    let mark = text::chars_of(key);
    let n: usize = cs.len();
    let mut i: usize = 0;
    while i < n && !text::chars_at(&cs, i, &mark)
        invariant
            i <= n == cs@.len(),
            cs@ == s@,
            mark@ == key@,
            forall|k: int| 0 <= k < i ==> !mark@.is_prefix_of(#[trigger] cs@.skip(k)),
        decreases n - i,
    {
        i += 1;
    }
    proof {
        lemma_pos_text_is(s@, key@, i as int);
    }
    if i >= n {
        return None;
    }
    assert(cs@.skip(i as int).len() >= mark@.len());
    let from: usize = i + mark.len();
    let mut to: usize = from;
    let ghost rest = s@.skip(from as int);
    assert(rest.skip(0) =~= rest);
    while to < n && '0' <= cs[to] && cs[to] <= '9'
        invariant
            from <= to <= n == cs@.len(),
            cs@ == s@,
            rest == s@.skip(from as int),
            leading_digits(rest) == (to - from) + leading_digits(rest.skip(to - from)),
        decreases n - to,
    {
        assert(rest.skip(to - from)[0] == cs@[to as int]);
        assert(rest.skip(to - from).drop_first() =~= rest.skip(to - from + 1));
        to += 1;
    }
    proof {
        if to < n {
            assert(rest.skip(to - from)[0] == cs@[to as int]);
        }
    }
    let digits = text::text_of(&cs, from, to);
    assert(digits@ =~= rest.take(to - from));
    if from == to {
        None
    } else {
        text::parse_u32(digits.as_str())
    }
}

/// User and group in what `id` printed.
pub open spec fn printed_ids(out: Seq<char>) -> Option<(nat, nat)> {
    match (number_behind(out, "uid="@), number_behind(out, "gid="@)) {
        (Some(u), Some(g)) => Some((u, g)),
        _ => None,
    }
}

/// User and group in what `id` printed.
pub fn parse_uid_gid_fields(out: &str) -> (r: Option<(u32, u32)>)
    ensures
        match r {
            Some(p) => printed_ids(out@) == Some((p.0 as nat, p.1 as nat)),
            None => printed_ids(out@) is None,
        },
{
    proof {
        reveal_strlit("uid=");
        reveal_strlit("gid=");
    }
    match number_after(out, "uid=") {
        Some(u) => match number_after(out, "gid=") {
            Some(g) => Some((u, g)),
            None => None,
        },
        None => None,
    }
}

/// The arguments that ask an image for its user.
pub fn image_id_args(image: &str) -> (r: Vec<String>)
    ensures
        text::views(r@) == seq!["run"@, "--rm"@, image@, "id"@],
{
    let r = text::texts(&["run", "--rm", image, "id"]);
    assert(text::views(r@) =~= seq!["run"@, "--rm"@, image@, "id"@]);
    r
}

/// The user of an image, from what the image printed.
pub open spec fn image_identity(
    image: Seq<char>,
    out: Result<super::RunModel, Seq<char>>,
) -> Result<(nat, nat), Seq<char>> {
    match out {
        Err(e) => Err(e),
        Ok(o) => if o.exit_code != Some(0i32) {
            Err("podman run --rm "@ + image + " id failed:\n"@ + o.stderr + "\n"@ + o.stdout)
        } else {
            match printed_ids(o.stdout) {
                Some(p) => Ok(p),
                None => Err(
                    "keine uid=/gid= in der Ausgabe von \""@ + image + " id\": "@ + text::trimmed(
                        o.stdout,
                    ),
                ),
            }
        },
    }
}

/// The user of an image.
pub fn image_default_uid_gid(image: &str, out: &Result<RunOut, String>) -> (r: Result<
    (u32, u32),
    String,
>)
    ensures
        run::pair_view(r) == image_identity(image@, super::run_view(*out)),
{
    let o = match out {
        Ok(o) => o,
        Err(e) => {
            return Err(e.clone());
        },
    };
    let ok = match o.exit_code {
        Some(c) => c == 0,
        None => false,
    };
    if !ok {
        let mut e = text::concat3("podman run --rm ", image, " id failed:\n");
        e.append(o.stderr.as_str());
        e.append("\n");
        e.append(o.stdout.as_str());
        return Err(e);
    }
    match parse_uid_gid_fields(o.stdout.as_str()) {
        Some(p) => Ok(p),
        None => Err(
            {
                let mut e = text::concat3(
                    "keine uid=/gid= in der Ausgabe von \"",
                    image,
                    " id\": ",
                );
                e.append(text::trim(o.stdout.as_str()).as_str());
                e
            },
        ),
    }
}

/// Whose identity commands run as.
#[derive(Debug, PartialEq)]
pub enum IdentitySource {
    /// The user of the host.
    Host,
    /// The user of the image.
    Image(String),
}

/// Whose identity commands run as: with the host's users kept that of the host, else that of the
/// image.
pub fn running_uid_gid(image: Option<&str>, usermapping: PodmanUserMapping) -> (r: Result<
    IdentitySource,
    String,
>)
    ensures
        match (usermapping, image) {
            (PodmanUserMapping::KeepId, _) => r == Ok::<IdentitySource, String>(
                IdentitySource::Host,
            ),
            (PodmanUserMapping::Uidmap, Some(i)) => r is Ok && r->Ok_0 is Image && (
            r->Ok_0)->Image_0@ == i@,
            (PodmanUserMapping::Uidmap, None) => r is Err && r->Err_0@
                == "uidmap needs an image (run mode)"@,
        },
{
    match usermapping {
        PodmanUserMapping::KeepId => Ok(IdentitySource::Host),
        PodmanUserMapping::Uidmap => match image {
            Some(i) => Ok(IdentitySource::Image(i.to_string())),
            None => Err("uidmap needs an image (run mode)".to_string()),
        },
    }
}

/// The maps of one kind of identity: it becomes the user of the host, and every other one stays.
pub open spec fn map_args(flag: Seq<char>, v: u32) -> Seq<Seq<char>> {
    let next: nat = if v == u32::MAX {
        0
    } else {
        (v + 1) as nat
    };
    let rest: nat = if v <= 65535 {
        (65535 - v) as nat
    } else {
        0
    };
    let own = seq![
        flag + "="@ + text::decimal(v as nat) + ":0:1"@,
        flag + "="@ + text::decimal(next) + ":"@ + text::decimal(next) + ":"@ + text::decimal(rest),
    ];
    if v > 0 {
        seq![flag + "=0:1:"@ + text::decimal(v as nat)] + own
    } else {
        own
    }
}

fn maps_of(flag: &str, v: u32) -> (r: Vec<String>)
    ensures
        text::views(r@) == map_args(flag@, v),
{
    let number = text::decimal_text(v as u64);
    let next: u64 = if v == u32::MAX {
        0
    } else {
        v as u64 + 1
    };
    let rest: u64 = if v <= 65535 {
        65535 - v as u64
    } else {
        0
    };
    let mut r: Vec<String> = Vec::new();
    if v > 0 {
        r.push(text::concat3(flag, "=0:1:", number.as_str()));
    }
    let mut own = text::concat3(flag, "=", number.as_str());
    own.append(":0:1");
    r.push(own);
    let mut others = text::concat3(flag, "=", text::decimal_text(next).as_str());
    others.append(":");
    others.append(text::decimal_text(next).as_str());
    others.append(":");
    others.append(text::decimal_text(rest).as_str());
    r.push(others);
    assert(text::views(r@) =~= map_args(flag@, v));
    r
}

fn extend(v: &mut Vec<String>, more: Vec<String>)
    ensures
        text::views(final(v)@) == text::views(old(v)@) + text::views(more@),
{
    let ghost before = text::views(v@);
    let ghost want = text::views(more@);
    let mut i: usize = 0;
    assert(before + want.take(0) =~= before);
    while i < more.len()
        invariant
            i <= more@.len(),
            want == text::views(more@),
            text::views(v@) == before + want.take(i as int),
        decreases more@.len() - i,
    {
        let ghost here = v@;
        let t = more[i].clone();
        v.push(t);
        proof {
            text::lemma_views_push(here, t);
            assert(before + want.take(i + 1) =~= (before + want.take(i as int)).push(
                want[i as int],
            ));
        }
        i += 1;
    }
    assert(want.take(more@.len() as int) =~= want);
}

/// The arguments that map user and group of an image to those of the host.
pub fn uidmap_args(u: u32, g: u32) -> (r: Vec<String>)
    ensures
        text::views(r@) == map_args("--uidmap"@, u) + map_args("--gidmap"@, g),
{
    let mut r = maps_of("--uidmap", u);
    let more = maps_of("--gidmap", g);
    extend(&mut r, more);
    r
}

// ---------------------------------------------------------------------------
// Making a channel
// ---------------------------------------------------------------------------
/// A time limit: one second at least.
pub open spec fn limit(timeout_secs: u64) -> u64 {
    if timeout_secs == 0 {
        1
    } else {
        timeout_secs
    }
}

/// The channel that a description gives. `ids` is the identity that its commands run as, or why
/// there is none.
pub open spec fn described(
    name: Seq<char>,
    cfg: ChannelConfig,
    timeout_secs: u64,
    ids: Result<(nat, nat), Seq<char>>,
    worktree: Option<super::WorktreeModel>,
    usermapping: PodmanUserMapping,
) -> Result<PodmanModel, Seq<char>> {
    match (text::opt_view(cfg.image), text::opt_view(cfg.container)) {
        (Some(image), _) => match ids {
            Err(e) => Err(e),
            Ok(p) => match text::opt_view(cfg.host_root) {
                None => Err("Run channel needs host_root"@),
                Some(host) => Ok(
                    PodmanModel {
                        name,
                        mode: PodmanMode::Run,
                        container: config::or_else(
                            text::opt_view(cfg.run_container),
                            "aidev-"@ + run::word_name(name),
                        ),
                        workdir: cfg.workdir@,
                        host_root: Some(host),
                        image: Some(image),
                        timeout: limit(timeout_secs),
                        uid: p.0 as u32,
                        gid: p.1 as u32,
                        home: config::or_else(config::non_blank(cfg.home), "/tmp"@),
                        usermapping,
                        worktree,
                        seq: 1,
                        status: ChannelStatus::Unknown,
                    },
                ),
            },
        },
        (None, Some(container)) => Ok(
            PodmanModel {
                name,
                mode: PodmanMode::Attach,
                container,
                workdir: cfg.workdir@,
                host_root: text::opt_view(cfg.host_root),
                image: None,
                timeout: limit(timeout_secs),
                uid: 0,
                gid: 0,
                home: Seq::empty(),
                usermapping: PodmanUserMapping::KeepId,
                worktree,
                seq: 1,
                status: ChannelStatus::Unknown,
            },
        ),
        (None, None) => Err("Podman-Kanal braucht image (run) oder container (attach)"@),
    }
}

/// The view of a channel or a message.
pub open spec fn channel_result(r: Result<PodmanChannel, String>) -> Result<
    PodmanModel,
    Seq<char>,
> {
    match r {
        Ok(c) => Ok(c@),
        Err(e) => Err(e@),
    }
}

/// The channel that a description gives.
pub fn podman_from_config(
    name: &str,
    cfg: &ChannelConfig,
    timeout_secs: u64,
    ids: &Result<(u32, u32), String>,
    worktree: Option<WorktreeInfo>,
    usermapping: PodmanUserMapping,
) -> (r: Result<PodmanChannel, String>)
    ensures
        channel_result(r) == described(
            name@,
            *cfg,
            timeout_secs,
            run::pair_view(*ids),
            super::worktree_view(worktree),
            usermapping,
        ),
{
    let timeout: u64 = if timeout_secs == 0 {
        1
    } else {
        timeout_secs
    };
    match &cfg.image {
        Some(image) => {
            let (uid, gid) = match ids {
                Ok(p) => *p,
                Err(e) => {
                    return Err(e.clone());
                },
            };
            let host = match &cfg.host_root {
                Some(h) => h.clone(),
                None => {
                    return Err("Run channel needs host_root".to_string());
                },
            };
            let container = match &cfg.run_container {
                Some(c) => c.clone(),
                None => text::concat("aidev-", run::sanitize(name).as_str()),
            };
            Ok(
                PodmanChannel {
                    name: name.to_string(),
                    mode: PodmanMode::Run,
                    container,
                    workdir: cfg.workdir.clone(),
                    host_root: Some(host),
                    image: Some(image.clone()),
                    timeout,
                    uid,
                    gid,
                    home: cfg.run_home(),
                    usermapping,
                    worktree,
                    seq: 1,
                    status: ChannelStatus::Unknown,
                },
            )
        },
        None => match &cfg.container {
            Some(container) => {
                let home = String::new();
                assert(home@ =~= Seq::empty());
                Ok(
                    PodmanChannel {
                        name: name.to_string(),
                        mode: PodmanMode::Attach,
                        container: container.clone(),
                        workdir: cfg.workdir.clone(),
                        host_root: text::copy_opt(&cfg.host_root),
                        image: None,
                        timeout,
                        uid: 0,
                        gid: 0,
                        home,
                        usermapping: PodmanUserMapping::KeepId,
                        worktree,
                        seq: 1,
                        status: ChannelStatus::Unknown,
                    },
                )
            },
            None => Err(
                "Podman-Kanal braucht image (run) oder container (attach)".to_string(),
            ),
        },
    }
}

impl PodmanChannel {
    /// The channel with a worktree that was made for it.
    pub fn with_worktree(self, wt: WorktreeInfo) -> (r: Self)
        ensures
            r@ == (PodmanModel { worktree: Some(wt@), ..self@ }),
    {
        PodmanChannel { worktree: Some(wt), ..self }
    }

    /// A channel that starts its own container.
    pub fn new_run(
        name: &str,
        container: &str,
        host_root: &str,
        image: &str,
        workdir: &str,
        timeout: u64,
        uid: u32,
        gid: u32,
        home: String,
        usermapping: PodmanUserMapping,
    ) -> (r: Self)
        ensures
            r@ == (PodmanModel {
                name: name@,
                mode: PodmanMode::Run,
                container: container@,
                workdir: workdir@,
                host_root: Some(host_root@),
                image: Some(image@),
                timeout,
                uid,
                gid,
                home: home@,
                usermapping,
                worktree: None,
                seq: 1,
                status: ChannelStatus::Unknown,
            }),
    {
        PodmanChannel {
            name: name.to_string(),
            mode: PodmanMode::Run,
            container: container.to_string(),
            workdir: workdir.to_string(),
            host_root: Some(host_root.to_string()),
            image: Some(image.to_string()),
            timeout,
            uid,
            gid,
            home,
            usermapping,
            worktree: None,
            seq: 1,
            status: ChannelStatus::Unknown,
        }
    }
}

// ---------------------------------------------------------------------------
// Files and commands
// ---------------------------------------------------------------------------
/// The arguments that run a command in the container. In a container of its own it runs as the
/// user of the channel, with a writable home.
pub open spec fn exec_arguments(
    m: PodmanModel,
    wd: Seq<char>,
    cmd: Seq<char>,
    args: Seq<Seq<char>>,
) -> Seq<Seq<char>> {
    let user = if m.mode == PodmanMode::Run {
        seq!["--user"@, text::decimal(m.uid as nat) + ":"@ + text::decimal(m.gid as nat)] + (
        if m.home.len() > 0 {
            seq!["--env"@, "HOME="@ + m.home]
        } else {
            Seq::empty()
        })
    } else {
        Seq::empty()
    };
    seq!["exec"@, "--workdir"@, wd] + user + seq![m.container, cmd] + args
}

/// The mount of a directory of the host in the container.
pub open spec fn bind_of(host_dir: Seq<char>, workdir: Seq<char>) -> Seq<char> {
    host_dir + ":"@ + workdir
}

/// The arguments that start the container.
pub open spec fn start_arguments(m: PodmanModel, host_dir: Seq<char>, image: Seq<char>) -> Seq<
    Seq<char>,
> {
    let mapping = match m.usermapping {
        PodmanUserMapping::KeepId => seq!["--userns"@, "keep-id"@],
        PodmanUserMapping::Uidmap => map_args("--uidmap"@, m.uid) + map_args("--gidmap"@, m.gid),
    };
    seq!["run"@, "-d"@, "--rm"@, "--init"@, "--name"@, m.container] + mapping + seq![
        "-v"@,
        bind_of(host_dir, m.workdir),
        "-w"@,
        m.workdir,
        image,
        "sleep"@,
        "infinity"@,
    ]
}

/// What has to be done before the container can be used.
#[derive(Debug, Clone, Copy, PartialEq, Eq, Structural)]
pub enum EnsureStep {
    /// It can be used.
    Ready,
    /// Look at it.
    Inspect,
    /// Take it away and start it anew.
    Replace,
    /// Start it.
    Start,
}

/// What has to be done after a look at the container.
pub open spec fn next_step(m: PodmanModel, host_dir: Seq<char>, state: container::StateModel) -> EnsureStep {
    if container::is_reusable(state, bind_of(host_dir, m.workdir), m.image, m.usermapping) {
        EnsureStep::Ready
    } else if state is Missing {
        EnsureStep::Start
    } else {
        EnsureStep::Replace
    }
}

/// The list with `name` in it.
pub open spec fn with_name(names: Seq<Seq<char>>, name: Seq<char>) -> Seq<Seq<char>> {
    if names.contains(name) {
        names
    } else {
        names.push(name)
    }
}

/// Whether an output says that the container is gone.
pub open spec fn is_lost(out: super::RunModel) -> bool {
    text::holds(out.stdout, "no such container"@) || text::holds(out.stderr, "no such container"@)
}

impl PodmanChannel {
    /// The path of the host behind a path of the channel.
    pub fn file_path(&self, rel: &str) -> (r: Result<String, String>)
        ensures
            resolve::text_result(r) == (match self@.host_root {
                Some(h) => resolve::resolved(h, rel@),
                None => Err("File access not available – host_root missing"@),
            }),
    {
        match &self.host_root {
            Some(h) => resolve::resolve(h.as_str(), rel),
            None => Err("File access not available – host_root missing".to_string()),
        }
    }

    /// The arguments that run a command in the container.
    pub fn exec_argv(&self, wd: &str, cmd: &str, args: &Vec<String>) -> (r: Vec<String>)
        ensures
            text::views(r@) == exec_arguments(self@, wd@, cmd@, text::views(args@)),
    {
        let mut argv = text::texts(&["exec", "--workdir", wd]);
        assert(text::views(argv@) =~= seq!["exec"@, "--workdir"@, wd@]);
        if self.mode == PodmanMode::Run {
            text::push_text(&mut argv, "--user".to_string());
            text::push_text(&mut argv, 
                text::concat3(
                    text::decimal_text(self.uid as u64).as_str(),
                    ":",
                    text::decimal_text(self.gid as u64).as_str(),
                ),
            );
            if !self.home.as_str().is_empty() {
                text::push_text(&mut argv, "--env".to_string());
                text::push_text(&mut argv, text::concat("HOME=", self.home.as_str()));
            }
        }
        text::push_text(&mut argv, self.container.clone());
        text::push_text(&mut argv, cmd.to_string());
        let more = text::copy_texts(args);
        proof {
            let head = seq!["exec"@, "--workdir"@, wd@];
            let tail = seq![self@.container, cmd@];
            let id = text::decimal(self.uid as nat) + ":"@ + text::decimal(self.gid as nat);
            if self.mode == PodmanMode::Run {
                if self@.home.len() > 0 {
                    assert(text::views(argv@) =~= head + (seq!["--user"@, id] + seq![
                        "--env"@,
                        "HOME="@ + self@.home,
                    ]) + tail);
                } else {
                    assert(text::views(argv@) =~= head + (seq!["--user"@, id]
                        + Seq::<Seq<char>>::empty()) + tail);
                }
            } else {
                assert(text::views(argv@) =~= head + Seq::<Seq<char>>::empty() + tail);
            }
        }
        extend(&mut argv, more);
        argv
    }

    /// What has to be done before the container can be used; nothing where it is known to run.
    pub fn ensure_running(&mut self) -> (r: EnsureStep)
        ensures
            old(self)@.status == ChannelStatus::Running ==> r == EnsureStep::Ready && final(self)@
                == old(self)@,
            old(self)@.status != ChannelStatus::Running ==> r == EnsureStep::Inspect && final(self)@
                == (PodmanModel { status: ChannelStatus::Starting, ..old(self)@ }),
    {
        if self.status == ChannelStatus::Running {
            return EnsureStep::Ready;
        }
        self.status = ChannelStatus::Starting;
        EnsureStep::Inspect
    }

    /// What has to be done after a look at the container.
    pub fn inspected(&mut self, host_dir: &str, out: &Result<RunOut, String>) -> (r: Result<
        EnsureStep,
        String,
    >)
        ensures
            match super::run_view(*out) {
                Err(e) => r is Err && r->Err_0@ == "podman not available: "@ + e && final(self)@
                    == (PodmanModel { status: ChannelStatus::Problem, ..old(self)@ }),
                Ok(o) => {
                    let step = next_step(
                        old(self)@,
                        host_dir@,
                        container::inspected(o.stdout, o.exit_code == Some(0i32)),
                    );
                    r == Ok::<EnsureStep, String>(step) && final(self)@ == (if step
                        == EnsureStep::Ready {
                        PodmanModel { status: ChannelStatus::Running, ..old(self)@ }
                    } else {
                        old(self)@
                    })
                },
            },
    {
        let state = match container::inspect_container_state(out) {
            Ok(s) => s,
            Err(e) => {
                self.status = ChannelStatus::Problem;
                return Err(e);
            },
        };
        let bind = text::concat3(host_dir, ":", self.workdir.as_str());
        let image = match &self.image {
            Some(i) => Some(i.as_str()),
            None => None,
        };
        if container::reuse_container(&state, bind.as_str(), image, self.usermapping) {
            self.status = ChannelStatus::Running;
            return Ok(EnsureStep::Ready);
        }
        match state {
            ContainerState::Missing => Ok(EnsureStep::Start),
            _ => Ok(EnsureStep::Replace),
        }
    }

    /// The arguments that take the container away.
    pub fn remove_args(&self) -> (r: Vec<String>)
        ensures
            text::views(r@) == seq!["rm"@, "-f"@, self@.container],
    {
        let r = text::texts(&["rm", "-f", self.container.as_str()]);
        assert(text::views(r@) =~= seq!["rm"@, "-f"@, self@.container]);
        r
    }

    /// The arguments that start the container. Without an image that is a problem.
    pub fn start_args(&mut self, host_dir: &str) -> (r: Result<Vec<String>, String>)
        ensures
            match old(self)@.image {
                Some(image) => final(self)@ == old(self)@ && r is Ok && text::views(r->Ok_0@)
                    == start_arguments(old(self)@, host_dir@, image),
                None => r is Err && r->Err_0@ == "Run channel without image"@ && final(self)@ == (
                PodmanModel { status: ChannelStatus::Problem, ..old(self)@ }),
            },
    {
        let image = match &self.image {
            Some(i) => i.clone(),
            None => {
                self.status = ChannelStatus::Problem;
                return Err("Run channel without image".to_string());
            },
        };
        let mut args = text::texts(
            &["run", "-d", "--rm", "--init", "--name", self.container.as_str()],
        );
        let mapping = match self.usermapping {
            PodmanUserMapping::KeepId => {
                let m = text::texts(&["--userns", "keep-id"]);
                assert(text::views(m@) =~= seq!["--userns"@, "keep-id"@]);
                m
            },
            PodmanUserMapping::Uidmap => uidmap_args(self.uid, self.gid),
        };
        let bind = text::concat3(host_dir, ":", self.workdir.as_str());
        let rest = text::texts(
            &[
                "-v",
                bind.as_str(),
                "-w",
                self.workdir.as_str(),
                image.as_str(),
                "sleep",
                "infinity",
            ],
        );
        extend(&mut args, mapping);
        extend(&mut args, rest);
        assert(text::views(args@) =~= start_arguments(self@, host_dir@, image@));
        Ok(args)
    }

    /// Takes the result of starting the container. A started container is one of those that are
    /// stopped at the end.
    pub fn started(&mut self, out: Result<RunOut, String>, managed: &mut Vec<String>) -> (r: Result<
        (),
        String,
    >)
        ensures
            match super::run_view(out) {
                Err(e) => r is Err && r->Err_0@ == e && final(self)@ == (PodmanModel {
                    status: ChannelStatus::Problem,
                    ..old(self)@
                }) && text::views(final(managed)@) == text::views(old(managed)@),
                Ok(o) => if o.exit_code == Some(0i32) {
                    r is Ok && final(self)@ == (PodmanModel {
                        status: ChannelStatus::Running,
                        ..old(self)@
                    }) && text::views(final(managed)@) == with_name(
                        text::views(old(managed)@),
                        old(self)@.container,
                    )
                } else {
                    r is Err && r->Err_0@ == "podman run \""@ + old(self)@.container
                        + "\" failed:\n"@ + o.stderr + "\n"@ + o.stdout && final(self)@ == (
                    PodmanModel { status: ChannelStatus::Problem, ..old(self)@ }) && text::views(
                        final(managed)@,
                    ) == text::views(old(managed)@)
                },
            },
    {
        let o = match out {
            Ok(o) => o,
            Err(e) => {
                self.status = ChannelStatus::Problem;
                return Err(e);
            },
        };
        let ok = match o.exit_code {
            Some(c) => c == 0,
            None => false,
        };
        if !ok {
            self.status = ChannelStatus::Problem;
            let mut e = text::concat3("podman run \"", self.container.as_str(), "\" failed:\n");
            e.append(o.stderr.as_str());
            e.append("\n");
            e.append(o.stdout.as_str());
            return Err(e);
        }
        if !text::has_text(managed, self.container.as_str()) {
            let name = self.container.clone();
            proof {
                text::lemma_views_push(managed@, name);
            }
            managed.push(name);
        }
        self.status = ChannelStatus::Running;
        Ok(())
    }

    /// Whether a command has to be run once more because the container was gone: a container of
    /// its own is started again, one of others is not there.
    pub fn after_run(&mut self, out: &RunOut) -> (r: bool)
        ensures
            r == (is_lost(out@) && old(self)@.mode == PodmanMode::Run),
            final(self)@ == (if !is_lost(out@) {
                old(self)@
            } else if old(self)@.mode == PodmanMode::Run {
                PodmanModel { status: ChannelStatus::Starting, ..old(self)@ }
            } else {
                PodmanModel { status: ChannelStatus::Problem, ..old(self)@ }
            }),
    {
        let lost = text::holds_text(out.stdout.as_str(), "no such container") || text::holds_text(
            out.stderr.as_str(),
            "no such container",
        );
        if !lost {
            return false;
        }
        if self.mode == PodmanMode::Run {
            self.status = ChannelStatus::Starting;
            true
        } else {
            self.status = ChannelStatus::Problem;
            false
        }
    }

    /// Takes a look at the container into account, without using it.
    pub fn probe(&mut self, out: &Result<RunOut, String>)
        ensures
            final(self)@ == (PodmanModel {
                status: match super::run_view(*out) {
                    Err(_) => ChannelStatus::Problem,
                    Ok(o) => {
                        let state = container::inspected(o.stdout, o.exit_code == Some(0i32));
                        if old(self)@.mode == PodmanMode::Run {
                            container::probed(
                                state,
                                PodmanMode::Run,
                                match old(self)@.host_root {
                                    Some(h) => bind_of(h, old(self)@.workdir),
                                    None => Seq::empty(),
                                },
                                old(self)@.image,
                                old(self)@.usermapping,
                            )
                        } else {
                            container::probed(
                                state,
                                PodmanMode::Attach,
                                Seq::empty(),
                                None,
                                old(self)@.usermapping,
                            )
                        }
                    },
                },
                ..old(self)@
            }),
    {
        let state = match container::inspect_container_state(out) {
            Ok(s) => s,
            Err(_) => {
                self.status = ChannelStatus::Problem;
                return ;
            },
        };
        let empty = String::new();
        assert(empty@ =~= Seq::empty());
        if self.mode == PodmanMode::Run {
            let bind = match &self.host_root {
                Some(h) => text::concat3(h.as_str(), ":", self.workdir.as_str()),
                None => empty,
            };
            let image = match &self.image {
                Some(i) => Some(i.as_str()),
                None => None,
            };
            self.status = container::podman_probe_status(
                &state,
                PodmanMode::Run,
                bind.as_str(),
                image,
                self.usermapping,
            );
        } else {
            self.status = container::podman_probe_status(
                &state,
                PodmanMode::Attach,
                empty.as_str(),
                None,
                self.usermapping,
            );
        }
    }
}

// ---------------------------------------------------------------------------
// Duplicates
// ---------------------------------------------------------------------------
/// What a duplicate of a channel needs.
#[derive(Debug)]
pub struct DupPlan {
    /// The arguments of `git` that make its worktree.
    pub git_args: Vec<String>,
    /// The duplicate.
    pub channel: PodmanChannel,
}

/// The branch of a duplicate.
pub open spec fn dup_branch(m: PodmanModel) -> Seq<char> {
    run::word_name("aidev/"@ + run::word_name(m.name) + "-d"@ + text::decimal(m.seq as nat))
}

/// The worktree of a duplicate, beside the directory of the channel.
pub open spec fn dup_worktree(m: PodmanModel, parent: Seq<char>) -> Seq<char> {
    config::below(parent, run::word_name(m.name) + "-wt"@ + text::decimal(m.seq as nat))
}

/// The duplicate of a channel: the same settings in a worktree and a container of its own.
pub open spec fn dup_model(m: PodmanModel, worktree: Seq<char>) -> PodmanModel {
    PodmanModel {
        name: run::word_name(m.name) + "-d"@ + text::decimal(m.seq as nat),
        mode: PodmanMode::Run,
        container: m.container + "-d"@ + text::decimal(m.seq as nat),
        host_root: Some(worktree),
        worktree: None,
        seq: 1,
        status: ChannelStatus::Unknown,
        ..m
    }
}

/// The directory above the one that a channel works in, or why it cannot be duplicated.
pub open spec fn dup_parent(m: PodmanModel) -> Result<Seq<char>, Seq<char>> {
    match m.mode {
        PodmanMode::Attach => Err(
            "Dieser Kanal ist geteilt und kann nicht dupliziert werden."@,
        ),
        PodmanMode::Run => match m.host_root {
            None => Err("Run channel without host_root"@),
            Some(h) => match paths::parent_of(h) {
                None => Err("host_root without parent directory"@),
                Some(p) => Ok(p),
            },
        },
    }
}

/// The number behind the one of a duplicate.
pub open spec fn next_seq(n: usize) -> usize {
    if n == usize::MAX {
        0
    } else {
        (n + 1) as usize
    }
}

impl PodmanChannel {
    /// What a duplicate of the channel needs. Each plan has a number of its own.
    pub fn dup(&mut self) -> (r: Result<DupPlan, String>)
        ensures
            match dup_parent(old(self)@) {
                Err(e) => r is Err && r->Err_0@ == e,
                Ok(parent) => {
                    let wt = dup_worktree(old(self)@, parent);
                    &&& r is Ok
                    &&& r->Ok_0.channel@ == dup_model(old(self)@, wt)
                    &&& text::views(r->Ok_0.git_args@) == seq![
                        "-C"@,
                        old(self)@.host_root->0,
                        "worktree"@,
                        "add"@,
                        "-b"@,
                        dup_branch(old(self)@),
                        wt,
                    ]
                },
            },
            final(self)@ == (PodmanModel {
                seq: if old(self)@.mode == PodmanMode::Run && old(self)@.host_root is Some {
                    next_seq(old(self)@.seq)
                } else {
                    old(self)@.seq
                },
                ..old(self)@
            }),
    {
        if self.mode == PodmanMode::Attach {
            return Err(
                "Dieser Kanal ist geteilt und kann nicht dupliziert werden.".to_string(),
            );
        }
        let host = match &self.host_root {
            Some(h) => h.clone(),
            None => {
                return Err("Run channel without host_root".to_string());
            },
        };
        let number = text::decimal_text(self.seq as u64);
        self.seq = if self.seq == usize::MAX {
            0
        } else {
            self.seq + 1
        };
        let base = run::sanitize(self.name.as_str());
        let mut long = text::concat3("aidev/", base.as_str(), "-d");
        long.append(number.as_str());
        let branch = run::sanitize(long.as_str());
        let parent = match paths::parent(host.as_str()) {
            Some(p) => p,
            None => {
                return Err("host_root without parent directory".to_string());
            },
        };
        let folder = text::concat3(base.as_str(), "-wt", number.as_str());
        let worktree = config::path_below(parent.as_str(), folder.as_str());
        let git_args = text::texts(
            &[
                "-C",
                host.as_str(),
                "worktree",
                "add",
                "-b",
                branch.as_str(),
                worktree.as_str(),
            ],
        );
        assert(text::views(git_args@) =~= seq![
            "-C"@,
            host@,
            "worktree"@,
            "add"@,
            "-b"@,
            branch@,
            worktree@,
        ]);
        let channel = PodmanChannel {
            name: text::concat3(base.as_str(), "-d", number.as_str()),
            mode: PodmanMode::Run,
            container: text::concat3(self.container.as_str(), "-d", number.as_str()),
            workdir: self.workdir.clone(),
            host_root: Some(worktree),
            image: text::copy_opt(&self.image),
            timeout: self.timeout,
            uid: self.uid,
            gid: self.gid,
            home: self.home.clone(),
            usermapping: self.usermapping,
            worktree: None,
            seq: 1,
            status: ChannelStatus::Unknown,
        };
        Ok(DupPlan { git_args, channel })
    }
}

/// The message of a worktree that could not be made; none where it was made.
pub fn worktree_failed(out: &Result<RunOut, String>) -> (r: Option<String>)
    ensures
        text::opt_view(r) == (match super::run_view(*out) {
            Err(e) => Some("git not available: "@ + e),
            Ok(o) => if o.exit_code == Some(0i32) {
                None
            } else {
                Some("git worktree add failed:\n"@ + o.stderr + "\n"@ + o.stdout)
            },
        }),
{
    match out {
        Err(e) => Some(text::concat("git not available: ", e.as_str())),
        Ok(o) => {
            let ok = match o.exit_code {
                Some(c) => c == 0,
                None => false,
            };
            if ok {
                None
            } else {
                let mut e = text::concat3(
                    "git worktree add failed:\n",
                    o.stderr.as_str(),
                    "\n",
                );
                e.append(o.stdout.as_str());
                Some(e)
            }
        },
    }
}

/// The remarks on what would be lost with a container; none where that is nothing. `managed` says
/// which containers were started here, `running` whether this one runs, `layer` and `copy` what
/// changed in it and in the working copy.
pub fn essential_changes(
    ch: &PodmanChannel,
    managed: &Vec<String>,
    running: bool,
    layer: Option<String>,
    copy: Option<String>,
) -> (r: Option<Vec<String>>)
    ensures
        match r {
            Some(notes) => {
                &&& ch@.mode == PodmanMode::Run
                &&& text::views(managed@).contains(ch@.container)
                &&& running
                &&& notes@.len() > 0
                &&& text::views(notes@) == (match (text::opt_view(layer), text::opt_view(copy)) {
                    (Some(a), Some(b)) => seq![a, b],
                    (Some(a), None) => seq![a],
                    (None, Some(b)) => seq![b],
                    (None, None) => Seq::empty(),
                })
            },
            None => ch@.mode != PodmanMode::Run || !text::views(managed@).contains(ch@.container)
                || !running || (layer is None && copy is None),
        },
{
    if ch.mode != PodmanMode::Run || !text::has_text(managed, ch.container.as_str()) || !running {
        return None;
    }
    let mut notes: Vec<String> = Vec::new();
    let ghost a = text::opt_view(layer);
    let ghost b = text::opt_view(copy);
    if let Some(l) = layer {
        notes.push(l);
    }
    if let Some(c) = copy {
        notes.push(c);
    }
    proof {
        let want = match (a, b) {
            (Some(x), Some(y)) => seq![x, y],
            (Some(x), None) => seq![x],
            (None, Some(y)) => seq![y],
            (None, None) => Seq::empty(),
        };
        assert(text::views(notes@) =~= want);
    }
    if notes.len() == 0 {
        None
    } else {
        Some(notes)
    }
}

// ---------------------------------------------------------------------------
// What the channel says of itself
// ---------------------------------------------------------------------------
/// What the channel says of itself.
pub open spec fn podman_says(m: PodmanModel) -> super::ChannelModel {
    super::ChannelModel {
        kind: match m.mode {
            PodmanMode::Attach => ChannelKind::PodmanAttach,
            PodmanMode::Run => ChannelKind::PodmanRun,
        },
        root: match m.mode {
            PodmanMode::Attach => "Podman:"@ + m.name + ":"@ + m.workdir,
            PodmanMode::Run => "Podman:"@ + m.name,
        },
        label: m.name,
        host_root: match m.mode {
            PodmanMode::Attach => None,
            PodmanMode::Run => m.host_root,
        },
        container: match m.mode {
            PodmanMode::Attach => None,
            PodmanMode::Run => Some(m.container),
        },
        run_spec: match m.image {
            Some(i) if m.mode == PodmanMode::Run && i.len() > 0 => Some((i, m.workdir, m.home)),
            _ => None,
        },
        worktree: m.worktree,
        status: m.status,
    }
}

impl Channel for PodmanChannel {
    open spec fn model(&self) -> super::ChannelModel {
        podman_says(self@)
    }

    fn kind(&self) -> (r: ChannelKind) {
        match self.mode {
            PodmanMode::Attach => ChannelKind::PodmanAttach,
            PodmanMode::Run => ChannelKind::PodmanRun,
        }
    }

    fn root(&self) -> (r: String) {
        let mut root = text::concat("Podman:", self.name.as_str());
        if self.mode == PodmanMode::Attach {
            root.append(":");
            root.append(self.workdir.as_str());
        }
        root
    }

    fn label(&self) -> (r: String) {
        self.name.clone()
    }

    fn host_root(&self) -> (r: Option<String>) {
        match self.mode {
            PodmanMode::Run => text::copy_opt(&self.host_root),
            PodmanMode::Attach => None,
        }
    }

    fn container_name(&self) -> (r: Option<String>) {
        match self.mode {
            PodmanMode::Run => Some(self.container.clone()),
            PodmanMode::Attach => None,
        }
    }

    fn podman_run_spec(&self) -> (r: Option<(String, String, String)>) {
        match &self.image {
            Some(i) => if self.mode == PodmanMode::Attach || i.as_str().is_empty() {
                None
            } else {
                Some((i.clone(), self.workdir.clone(), self.home.clone()))
            },
            None => None,
        }
    }

    fn owned_worktree(&self) -> (r: Option<WorktreeInfo>) {
        super::copy_worktree(&self.worktree)
    }

    fn status(&self) -> (r: ChannelStatus) {
        self.status
    }
}

// ---------------------------------------------------------------------------
// Laws
// ---------------------------------------------------------------------------
/// A command in a container of others runs as the user of that container: no user and no home are
/// set.
pub proof fn law_shared_containers_keep_their_user(
    m: PodmanModel,
    wd: Seq<char>,
    cmd: Seq<char>,
    args: Seq<Seq<char>>,
)
    requires
        m.mode == PodmanMode::Attach,
    ensures
        exec_arguments(m, wd, cmd, args) == seq!["exec"@, "--workdir"@, wd, m.container, cmd]
            + args,
{
    assert(exec_arguments(m, wd, cmd, args) =~= seq![
        "exec"@,
        "--workdir"@,
        wd,
        m.container,
        cmd,
    ] + args);
}

/// A container is used as it is only where its mapping, its mount and its image fit; otherwise it
/// is started, after what stood in its place was taken away.
pub proof fn law_containers_are_replaced_unless_they_fit(
    m: PodmanModel,
    host_dir: Seq<char>,
    state: container::StateModel,
)
    ensures
        (next_step(m, host_dir, state) == EnsureStep::Ready) == container::is_reusable(
            state,
            bind_of(host_dir, m.workdir),
            m.image,
            m.usermapping,
        ),
        state is Missing ==> next_step(m, host_dir, state) == EnsureStep::Start,
        state is Stopped ==> next_step(m, host_dir, state) == EnsureStep::Replace,
{
}

/// A container is started in the background under its name, goes away when it is stopped, has the
/// directory of the host mounted and works there; at the end stand the image and a command that
/// does not end by itself.
pub proof fn law_a_started_container_keeps_running(
    m: PodmanModel,
    host_dir: Seq<char>,
    image: Seq<char>,
)
    ensures
        ({
            let a = start_arguments(m, host_dir, image);
            let n = a.len();
            &&& n >= 15
            &&& a[n - 1] == "infinity"@
            &&& a[n - 2] == "sleep"@
            &&& a[n - 3] == image
            &&& a[n - 4] == m.workdir
            &&& a[n - 5] == "-w"@
            &&& a[n - 6] == host_dir + ":"@ + m.workdir
            &&& a[n - 7] == "-v"@
            &&& a[0] == "run"@
            &&& a[1] == "-d"@
            &&& a[2] == "--rm"@
            &&& a[3] == "--init"@
            &&& a[4] == "--name"@
            &&& a[5] == m.container
            &&& m.usermapping == PodmanUserMapping::KeepId ==> n == 15 && a[6] == "--userns"@
                && a[7] == "keep-id"@
        }),
{
}

/// With mapped users the user of the image is that of the host, those below it move up by one and
/// those above it stay, so that each of the 65536 users has one place; the same for the groups.
pub proof fn law_mapped_users_keep_one_place_each(
    m: PodmanModel,
    host_dir: Seq<char>,
    image: Seq<char>,
)
    requires
        m.usermapping == PodmanUserMapping::Uidmap,
        0 < m.uid < 65536,
        0 < m.gid < 65536,
    ensures
        ({
            let a = start_arguments(m, host_dir, image);
            let u = m.uid as nat;
            let g = m.gid as nat;
            &&& a.len() == 19
            &&& a[6] == "--uidmap"@ + "=0:1:"@ + text::decimal(u)
            &&& a[7] == "--uidmap"@ + "="@ + text::decimal(u) + ":0:1"@
            &&& a[8] == "--uidmap"@ + "="@ + text::decimal(u + 1) + ":"@ + text::decimal(u + 1)
                + ":"@ + text::decimal((65536 - u - 1) as nat)
            &&& a[9] == "--gidmap"@ + "=0:1:"@ + text::decimal(g)
            &&& a[10] == "--gidmap"@ + "="@ + text::decimal(g) + ":0:1"@
            &&& a[11] == "--gidmap"@ + "="@ + text::decimal(g + 1) + ":"@ + text::decimal(g + 1)
                + ":"@ + text::decimal((65536 - g - 1) as nat)
        }),
{
}

/// An image whose user is the superuser needs no map for users below.
pub proof fn law_the_superuser_has_none_below(
    m: PodmanModel,
    host_dir: Seq<char>,
    image: Seq<char>,
)
    requires
        m.usermapping == PodmanUserMapping::Uidmap,
        m.uid == 0,
        m.gid == 0,
    ensures
        ({
            let a = start_arguments(m, host_dir, image);
            &&& a.len() == 17
            &&& a[6] == "--uidmap"@ + "="@ + text::decimal(0) + ":0:1"@
            &&& a[7] == "--uidmap"@ + "="@ + text::decimal(1) + ":"@ + text::decimal(1) + ":"@
                + text::decimal(65535)
            &&& a[8] == "--gidmap"@ + "="@ + text::decimal(0) + ":0:1"@
            &&& a[9] == "--gidmap"@ + "="@ + text::decimal(1) + ":"@ + text::decimal(1) + ":"@
                + text::decimal(65535)
        }),
{
}

/// A command in a container of its own runs as the user of the channel, in the given directory, with
/// its home, and gets its arguments as they are.
pub proof fn law_own_containers_run_as_the_user(
    m: PodmanModel,
    wd: Seq<char>,
    cmd: Seq<char>,
    args: Seq<Seq<char>>,
)
    requires
        m.mode == PodmanMode::Run,
    ensures
        m.home.len() > 0 ==> exec_arguments(m, wd, cmd, args) == seq![
            "exec"@,
            "--workdir"@,
            wd,
            "--user"@,
            text::decimal(m.uid as nat) + ":"@ + text::decimal(m.gid as nat),
            "--env"@,
            "HOME="@ + m.home,
            m.container,
            cmd,
        ] + args,
        m.home.len() == 0 ==> exec_arguments(m, wd, cmd, args) == seq![
            "exec"@,
            "--workdir"@,
            wd,
            "--user"@,
            text::decimal(m.uid as nat) + ":"@ + text::decimal(m.gid as nat),
            m.container,
            cmd,
        ] + args,
{
    if m.home.len() > 0 {
        assert(exec_arguments(m, wd, cmd, args) =~= seq![
            "exec"@,
            "--workdir"@,
            wd,
            "--user"@,
            text::decimal(m.uid as nat) + ":"@ + text::decimal(m.gid as nat),
            "--env"@,
            "HOME="@ + m.home,
            m.container,
            cmd,
        ] + args);
    } else {
        assert(exec_arguments(m, wd, cmd, args) =~= seq![
            "exec"@,
            "--workdir"@,
            wd,
            "--user"@,
            text::decimal(m.uid as nat) + ":"@ + text::decimal(m.gid as nat),
            m.container,
            cmd,
        ] + args);
    }
}

proof fn lemma_leading_digits_are(d: Seq<char>, rest: Seq<char>)
    requires
        forall|i: int| 0 <= i < d.len() ==> text::is_digit(#[trigger] d[i]),
        rest.len() > 0 ==> !text::is_digit(rest[0]),
    ensures
        leading_digits(d + rest) == d.len(),
    decreases d.len(),
{
    if d.len() > 0 {
        let e = d.drop_first();
        assert forall|i: int| 0 <= i < e.len() implies text::is_digit(#[trigger] e[i]) by {
            assert(e[i] == d[i + 1]);
        }
        assert((d + rest).drop_first() =~= e + rest);
        assert((d + rest)[0] == d[0]);
        lemma_leading_digits_are(e, rest);
    } else {
        assert(d + rest =~= rest);
    }
}

/// The number behind a mark is the one that is written there, up to the first character that is no
/// digit.
pub proof fn law_the_number_behind_a_mark_is_read(
    a: Seq<char>,
    key: Seq<char>,
    n: nat,
    rest: Seq<char>,
)
    requires
        key.len() > 0,
        rest.len() > 0 ==> !text::is_digit(rest[0]),
        forall|i: int|
            0 <= i < a.len() ==> !key.is_prefix_of(
                #[trigger] (a + key + text::decimal(n) + rest).skip(i),
            ),
    ensures
        number_behind(a + key + text::decimal(n) + rest, key) == (if n <= u32::MAX {
            Some(n)
        } else {
            None
        }),
{
    let d = text::decimal(n);
    let s = a + key + d + rest;
    assert(s.skip(a.len() as int).take(key.len() as int) =~= key);
    assert(s.skip(a.len() as int) =~= key + d + rest);
    lemma_pos_text_is(s, key, a.len() as int);
    assert(s.skip((a.len() + key.len()) as int) =~= d + rest);
    text::law_numbers_are_written_in_digits(n);
    text::law_written_numbers_are_read(n, u32::MAX as nat);
    lemma_leading_digits_are(d, rest);
    assert((d + rest).take(d.len() as int) =~= d);
}

/// User and group come from what `id` printed where it succeeded; without both there is an error,
/// and a failed command is reported with all that it printed.
pub proof fn law_identities_come_from_what_was_printed(image: Seq<char>, o: super::RunModel)
    ensures
        o.exit_code == Some(0i32) ==> match (
            number_behind(o.stdout, "uid="@),
            number_behind(o.stdout, "gid="@),
        ) {
            (Some(u), Some(g)) => image_identity(image, Ok(o)) == Ok::<(nat, nat), Seq<char>>(
                (u, g),
            ),
            _ => image_identity(image, Ok(o)) == Err::<(nat, nat), Seq<char>>(
                "keine uid=/gid= in der Ausgabe von \""@ + image + " id\": "@ + text::trimmed(
                    o.stdout,
                ),
            ),
        },
        o.exit_code != Some(0i32) ==> image_identity(image, Ok(o)) == Err::<(nat, nat), Seq<char>>(
            "podman run --rm "@ + image + " id failed:\n"@ + o.stderr + "\n"@ + o.stdout,
        ),
        forall|e: Seq<char>|
            #[trigger] image_identity(image, Err(e)) == Err::<(nat, nat), Seq<char>>(e),
{
}

/// A described channel with an image has a container of its own, works in its own directory as the
/// user that was found out, and may wait a second at least; without a directory or a user there is
/// none.
pub proof fn law_described_images_run_in_their_own_container(
    name: Seq<char>,
    cfg: ChannelConfig,
    timeout_secs: u64,
    ids: Result<(nat, nat), Seq<char>>,
    worktree: Option<super::WorktreeModel>,
    usermapping: PodmanUserMapping,
)
    requires
        cfg.image is Some,
        ids matches Ok(p) ==> p.0 <= u32::MAX && p.1 <= u32::MAX,
    ensures
        match described(name, cfg, timeout_secs, ids, worktree, usermapping) {
            Ok(m) => {
                &&& ids is Ok && cfg.host_root is Some
                &&& m.name == name
                &&& m.mode == PodmanMode::Run
                &&& m.image == Some(cfg.image->0@)
                &&& m.host_root == Some(cfg.host_root->0@)
                &&& m.workdir == cfg.workdir@
                &&& m.uid == (ids->Ok_0).0
                &&& m.gid == (ids->Ok_0).1
                &&& m.usermapping == usermapping
                &&& m.worktree == worktree
                &&& m.timeout >= 1
                &&& timeout_secs > 0 ==> m.timeout == timeout_secs
                &&& m.status == ChannelStatus::Unknown
                &&& cfg.run_container matches Some(c) ==> m.container == c@
                &&& cfg.run_container is None ==> m.container == "aidev-"@ + run::word_name(name)
                &&& cfg.home is None ==> m.home == "/tmp"@
                &&& cfg.home matches Some(h) ==> m.home == (if text::trimmed(h@).len() == 0 {
                    "/tmp"@
                } else {
                    text::trimmed(h@)
                })
            },
            Err(e) => match ids {
                Err(why) => e == why,
                Ok(_) => cfg.host_root is None && e == "Run channel needs host_root"@,
            },
        },
        podman_says(
            described(name, cfg, timeout_secs, ids, worktree, usermapping)->Ok_0,
        ).kind == ChannelKind::PodmanRun || described(
            name,
            cfg,
            timeout_secs,
            ids,
            worktree,
            usermapping,
        ) is Err,
{
}

/// A described channel without an image uses the container that it names, as it is; with neither
/// there is no channel.
pub proof fn law_described_containers_are_shared(
    name: Seq<char>,
    cfg: ChannelConfig,
    timeout_secs: u64,
    ids: Result<(nat, nat), Seq<char>>,
    worktree: Option<super::WorktreeModel>,
    usermapping: PodmanUserMapping,
)
    requires
        cfg.image is None,
    ensures
        match described(name, cfg, timeout_secs, ids, worktree, usermapping) {
            Ok(m) => {
                &&& cfg.container is Some
                &&& m.container == cfg.container->0@
                &&& m.mode == PodmanMode::Attach
                &&& m.name == name
                &&& m.workdir == cfg.workdir@
                &&& m.image is None
                &&& m.worktree == worktree
                &&& m.timeout >= 1
                &&& timeout_secs > 0 ==> m.timeout == timeout_secs
                &&& m.status == ChannelStatus::Unknown
                &&& m.host_root is Some <==> cfg.host_root is Some
                &&& cfg.host_root matches Some(h) ==> m.host_root == Some(h@)
            },
            Err(e) => cfg.container is None && e
                == "Podman-Kanal braucht image (run) oder container (attach)"@,
        },
{
}

/// What a channel says of itself is what it was made with; one in a container of others has no
/// directory of the host and no container that it may stop.
pub proof fn law_channels_say_what_they_are(m: PodmanModel)
    ensures
        ({
            let says = podman_says(m);
            &&& says.label == m.name
            &&& says.status == m.status
            &&& says.worktree == m.worktree
            &&& m.mode == PodmanMode::Run ==> {
                &&& says.kind == ChannelKind::PodmanRun
                &&& says.root == "Podman:"@ + m.name
                &&& says.host_root == m.host_root
                &&& says.container == Some(m.container)
                &&& says.run_spec is Some <==> m.image is Some && m.image->0.len() > 0
                &&& says.run_spec is Some ==> says.run_spec == Some(
                    (m.image->0, m.workdir, m.home),
                )
            }
            &&& m.mode == PodmanMode::Attach ==> {
                &&& says.kind == ChannelKind::PodmanAttach
                &&& says.root == "Podman:"@ + m.name + ":"@ + m.workdir
                &&& says.host_root is None
                &&& says.container is None
                &&& says.run_spec is None
            }
        }),
{
}

/// A duplicate is a channel of its own beside the first one: the same image, user and settings in
/// another container, in another directory, which is a worktree on a branch of its own.
pub proof fn law_duplicates_share_nothing_but_settings(m: PodmanModel, parent: Seq<char>)
    requires
        dup_parent(m) == Ok::<Seq<char>, Seq<char>>(parent),
    ensures
        ({
            let d = dup_model(m, dup_worktree(m, parent));
            &&& m.mode == PodmanMode::Run
            &&& m.host_root is Some
            &&& paths::parent_of(m.host_root->0) == Some(parent)
            &&& d.mode == PodmanMode::Run
            &&& d.image == m.image
            &&& d.workdir == m.workdir
            &&& d.uid == m.uid
            &&& d.gid == m.gid
            &&& d.home == m.home
            &&& d.usermapping == m.usermapping
            &&& d.timeout == m.timeout
            &&& d.status == ChannelStatus::Unknown
            &&& d.worktree is None
            &&& d.container == m.container + "-d"@ + text::decimal(m.seq as nat)
            &&& d.container != m.container
            &&& d.name == run::word_name(m.name) + "-d"@ + text::decimal(m.seq as nat)
            &&& d.host_root == Some(
                config::below(parent, run::word_name(m.name) + "-wt"@ + text::decimal(m.seq as nat)),
            )
            &&& m.seq < usize::MAX ==> next_seq(m.seq) == m.seq + 1
        }),
{
    reveal_strlit("-d");
    let d = dup_model(m, dup_worktree(m, parent));
    assert(d.container.len() > m.container.len());
}

/// A container of others cannot be duplicated, nor one without a directory or with one that has none
/// above it.
pub proof fn law_what_cannot_be_duplicated_is_said(m: PodmanModel)
    ensures
        m.mode == PodmanMode::Attach ==> dup_parent(m) == Err::<Seq<char>, Seq<char>>(
            "Dieser Kanal ist geteilt und kann nicht dupliziert werden."@,
        ),
        m.mode == PodmanMode::Run && m.host_root is None ==> dup_parent(m) == Err::<
            Seq<char>,
            Seq<char>,
        >("Run channel without host_root"@),
        m.mode == PodmanMode::Run && m.host_root is Some && paths::parent_of(m.host_root->0) is None
            ==> dup_parent(m) == Err::<Seq<char>, Seq<char>>(
            "host_root without parent directory"@,
        ),
{
}

/// A container that runs but does not fit is taken away before it is started anew.
pub proof fn law_misfits_are_replaced(
    m: PodmanModel,
    host_dir: Seq<char>,
    state: container::StateModel,
)
    requires
        !(state is Missing),
        !container::is_reusable(
            state,
            host_dir + ":"@ + m.workdir,
            m.image,
            m.usermapping,
        ),
    ensures
        next_step(m, host_dir, state) == EnsureStep::Replace,
{
}

/// A name stands in a list once it was added, and stands there once.
pub proof fn law_names_are_noted_once(names: Seq<Seq<char>>, name: Seq<char>, other: Seq<char>)
    ensures
        with_name(names, name).contains(name),
        names.contains(other) ==> with_name(names, name).contains(other),
        other != name && with_name(names, name).contains(other) ==> names.contains(other),
        with_name(with_name(names, name), name) == with_name(names, name),
        !names.contains(name) ==> with_name(names, name).len() == names.len() + 1,
{
    let n = with_name(names, name);
    if !names.contains(name) {
        assert(n[names.len() as int] == name);
        if names.contains(other) {
            let k = choose|k: int| 0 <= k < names.len() && names[k] == other;
            assert(n[k] == other);
        }
        if other != name && n.contains(other) {
            let k = choose|k: int| 0 <= k < n.len() && n[k] == other;
            assert(names[k] == other);
        }
    }
}

/// A container is gone where either output says so, and only there.
pub proof fn law_gone_containers_are_noticed(o: super::RunModel, a: Seq<char>, b: Seq<char>)
    ensures
        o.stderr == a + "no such container"@ + b ==> is_lost(o),
        o.stdout == a + "no such container"@ + b ==> is_lost(o),
        is_lost(o) ==> text::holds(o.stdout, "no such container"@) || text::holds(
            o.stderr,
            "no such container"@,
        ),
{
    text::law_held_texts_stand_inside(o.stdout, a, "no such container"@, b);
}

/// The branch of a duplicate is named by the program, the channel and the number of the duplicate, in
/// a form that is a name everywhere; its directory stands beside that of the channel.
pub proof fn law_duplicates_have_a_branch_of_their_own(m: PodmanModel, parent: Seq<char>)
    ensures
        dup_branch(m) == run::word_name(
            "aidev/"@ + run::word_name(m.name) + "-d"@ + text::decimal(m.seq as nat),
        ),
        dup_worktree(m, parent) == config::below(
            parent,
            run::word_name(m.name) + "-wt"@ + text::decimal(m.seq as nat),
        ),
{
}

/// A time limit is what was configured, a second at least.
pub proof fn law_limits_are_a_second_at_least(n: u64)
    ensures
        limit(n) >= 1,
        n > 0 ==> limit(n) == n,
{
}

} // verus!
