//! What is known of a container, and what would be lost with it.

use super::{ChannelStatus, PodmanMode, RunOut};
use crate::config::PodmanUserMapping;
use crate::text;
use vstd::prelude::*;
use vstd::string::*;

verus! {

/// The state of a container.
#[derive(Debug, PartialEq)]
pub enum ContainerState {
    Missing,
    Stopped,
    Running { userns: String, binds: String, image: String },
}

/// What the state of a container holds.
pub enum StateModel {
    Missing,
    Stopped,
    Running { userns: Seq<char>, binds: Seq<char>, image: Seq<char> },
}

impl View for ContainerState {
    type V = StateModel;

    open spec fn view(&self) -> StateModel {
        match self {
            ContainerState::Missing => StateModel::Missing,
            ContainerState::Stopped => StateModel::Stopped,
            ContainerState::Running { userns, binds, image } => StateModel::Running {
                userns: userns@,
                binds: binds@,
                image: image@,
            },
        }
    }
}

/// What stands before and behind the first bar; nothing behind where there is none.
pub open spec fn cut(s: Seq<char>) -> (Seq<char>, Seq<char>) {
    match text::split_once(s, '|') {
        Some(p) => p,
        None => (s, Seq::empty()),
    }
}

/// What stands before and behind the first bar.
pub fn cut_text(s: &str) -> (r: (String, String))
    ensures
        r.0@ == cut(s@).0,
        r.1@ == cut(s@).1,
{
    match text::split_once_text(s, '|') {
        Some(p) => p,
        None => (s.to_string(), String::new()),
    }
}

/// The state that an inspection describes: whether it runs, its user namespace, its mounts and its
/// image, with bars between.
pub open spec fn inspected(stdout: Seq<char>, ok: bool) -> StateModel {
    let t = text::trimmed(stdout);
    if !ok {
        StateModel::Missing
    } else if text::trimmed(cut(t).0) == "true"@ {
        let rest = cut(cut(t).1);
        StateModel::Running { userns: rest.0, binds: cut(rest.1).0, image: cut(rest.1).1 }
    } else {
        StateModel::Stopped
    }
}

/// The state that an inspection describes; an inspection that failed found no container.
pub fn parse_inspect_state(stdout: &str, ok: bool) -> (r: ContainerState)
    ensures
        r@ == inspected(stdout@, ok),
{
    if !ok {
        return ContainerState::Missing;
    }
    let t = text::trim(stdout);
    let (first, rest) = cut_text(t.as_str());
    let (userns, rest) = cut_text(rest.as_str());
    let (binds, image) = cut_text(rest.as_str());
    if text::same_text(text::trim(first.as_str()).as_str(), "true") {
        ContainerState::Running { userns, binds, image }
    } else {
        ContainerState::Stopped
    }
}

/// The arguments of the inspection.
pub fn inspect_args(container: &str) -> (r: Vec<String>)
    ensures
        text::views(r@) == seq![
            "inspect"@,
            "--format"@,
            "{{.State.Running}}|{{.HostConfig.UsernsMode}}|{{.HostConfig.Binds}}|{{.Config.Image}}"@,
            container@,
        ],
{
    let r = text::texts(
        &[
            "inspect",
            "--format",
            "{{.State.Running}}|{{.HostConfig.UsernsMode}}|{{.HostConfig.Binds}}|{{.Config.Image}}",
            container,
        ],
    );
    assert(text::views(r@) =~= seq![
        "inspect"@,
        "--format"@,
        "{{.State.Running}}|{{.HostConfig.UsernsMode}}|{{.HostConfig.Binds}}|{{.Config.Image}}"@,
        container@,
    ]);
    r
}

/// The state that an inspection found, or why it could not be made.
pub fn inspect_container_state(out: &Result<RunOut, String>) -> (r: Result<ContainerState, String>)
    ensures
        match (r, super::run_view(*out)) {
            (Ok(s), Ok(o)) => s@ == inspected(o.stdout, o.exit_code == Some(0i32)),
            (Err(e), Err(x)) => e@ == "podman not available: "@ + x,
            _ => false,
        },
{
    match out {
        Ok(o) => {
            let ok = match o.exit_code {
                Some(c) => c == 0,
                None => false,
            };
            Ok(parse_inspect_state(o.stdout.as_str(), ok))
        },
        Err(e) => Err(text::concat("podman not available: ", e.as_str())),
    }
}

/// Whether the user namespace is the one that the mapping asks for.
pub open spec fn fits_mapping(userns: Seq<char>, mapping: PodmanUserMapping) -> bool {
    match mapping {
        PodmanUserMapping::KeepId => text::holds(userns, "keep-id"@),
        PodmanUserMapping::Uidmap => !text::holds(userns, "keep-id"@),
    }
}

/// Whether a container can be used as it is: it runs, and mapping, mount and image fit.
pub open spec fn is_reusable(
    state: StateModel,
    bind: Seq<char>,
    image: Option<Seq<char>>,
    mapping: PodmanUserMapping,
) -> bool {
    match state {
        StateModel::Running { userns, binds, image: img } => {
            &&& fits_mapping(userns, mapping)
            &&& text::holds(binds, bind)
            &&& (match image {
                Some(i) => img == i,
                None => true,
            })
        },
        _ => false,
    }
}

/// Whether a container can be used as it is.
pub fn reuse_container(
    state: &ContainerState,
    bind: &str,
    image: Option<&str>,
    usermapping: PodmanUserMapping,
) -> (r: bool)
    ensures
        r == is_reusable(state@, bind@, crate::config::opt_str(image), usermapping),
{
    match state {
        ContainerState::Running { userns, binds, image: img } => {
            let kept = text::holds_text(userns.as_str(), "keep-id");
            let mapped = match usermapping {
                PodmanUserMapping::KeepId => kept,
                PodmanUserMapping::Uidmap => !kept,
            };
            let same = match image {
                Some(i) => text::same_text(img.as_str(), i),
                None => true,
            };
            mapped && text::holds_text(binds.as_str(), bind) && same
        },
        _ => false,
    }
}

/// What a look at a container says of its channel. A channel that starts its own container does
/// not mind that there is none, but it has to fit; one that needs a container of others takes it as
/// it runs.
pub open spec fn probed(
    state: StateModel,
    mode: PodmanMode,
    bind: Seq<char>,
    image: Option<Seq<char>>,
    mapping: PodmanUserMapping,
) -> ChannelStatus {
    match mode {
        PodmanMode::Run => if is_reusable(state, bind, image, mapping) {
            ChannelStatus::Running
        } else {
            ChannelStatus::Unknown
        },
        PodmanMode::Attach => if state is Running {
            ChannelStatus::Running
        } else {
            ChannelStatus::Problem
        },
    }
}

/// What a look at a container says of its channel.
pub fn podman_probe_status(
    state: &ContainerState,
    mode: PodmanMode,
    bind: &str,
    image: Option<&str>,
    usermapping: PodmanUserMapping,
) -> (r: ChannelStatus)
    ensures
        r == probed(state@, mode, bind@, crate::config::opt_str(image), usermapping),
{
    match mode {
        PodmanMode::Run => if reuse_container(state, bind, image, usermapping) {
            ChannelStatus::Running
        } else {
            ChannelStatus::Unknown
        },
        PodmanMode::Attach => match state {
            ContainerState::Running { .. } => ChannelStatus::Running,
            _ => ChannelStatus::Problem,
        },
    }
}

// ---------------------------------------------------------------------------
// What would be lost
// ---------------------------------------------------------------------------
/// Whether `base` is `path` or one of the directories above it.
pub open spec fn is_base_of(base: Seq<char>, path: Seq<char>) -> bool {
    path == base || (base.is_prefix_of(path) && base.len() < path.len() && path[base.len() as int]
        == '/')
}

/// A path without slashes at its ends.
pub open spec fn unslashed(s: Seq<char>) -> Seq<char> {
    text::trimmed_start_of(text::trimmed_end_of(s, '/'), '/')
}

/// Whether a path without leading slash lies at or below `base`; everything lies below the root.
pub open spec fn is_at_or_under(path: Seq<char>, base: Seq<char>) -> bool {
    unslashed(base).len() == 0 || is_base_of(unslashed(base), path)
}

fn base_of(base: &str, path: &str) -> (r: bool)
    ensures
        r == is_base_of(base@, path@),
{
    if text::same_text(path, base) {
        return true;
    }
    let ghost b = base@;
    match text::strip_prefix(path, base) {
        Some(rest) => {
            let cs = text::chars_of(rest.as_str());
            cs.len() > 0 && cs[0] == '/'
        },
        None => false,
    }
}

/// Whether a path without leading slash lies at or below `base`.
pub fn path_at_or_under(path: &str, base: &str) -> (r: bool)
    ensures
        r == is_at_or_under(path@, base@),
{
    let b = text::trim_start_of(text::trim_end_of(base, '/').as_str(), '/');
    proof {
        reveal_strlit("");
        if b@.len() == 0 {
            assert(b@ =~= ""@);
        }
    }
    if text::same_text(b.as_str(), "") {
        return true;
    }
    base_of(b.as_str(), path)
}

/// Whether a path without leading slash lies where nothing lasts.
pub open spec fn is_volatile(path: Seq<char>) -> bool {
    ||| is_base_of("tmp"@, path)
    ||| is_base_of("var/tmp"@, path)
    ||| is_base_of("run"@, path)
    ||| is_base_of("proc"@, path)
    ||| is_base_of("sys"@, path)
    ||| is_base_of("dev"@, path)
}

/// Whether a path without leading slash lies where nothing lasts.
pub fn volatile_diff_path(path: &str) -> (r: bool)
    ensures
        r == is_volatile(path@),
{
    base_of("tmp", path) || base_of("var/tmp", path) || base_of("run", path) || base_of(
        "proc",
        path,
    ) || base_of("sys", path) || base_of("dev", path)
}

/// The path that a line names as changed: a letter for the change, and the path.
pub open spec fn changed_path(line: Seq<char>) -> Option<Seq<char>> {
    if line.len() > 0 && (line[0] == 'A' || line[0] == 'C' || line[0] == 'D' || line[0] == 'M') {
        Some(text::trimmed_start_of(text::trimmed(line.skip(1)), '/'))
    } else {
        None
    }
}

/// Whether a changed path would be missed: it is not the working copy, not the home directory and
/// not a place where nothing lasts.
pub open spec fn is_essential(path: Seq<char>, workdir: Seq<char>, home: Seq<char>) -> bool {
    path.len() > 0 && !is_at_or_under(path, workdir) && !is_at_or_under(path, home) && !is_volatile(
        path,
    )
}

/// The changed paths that would be missed.
pub open spec fn essential(lines: Seq<Seq<char>>, workdir: Seq<char>, home: Seq<char>) -> Seq<
    Seq<char>,
>
    decreases lines.len(),
{
    if lines.len() == 0 {
        Seq::empty()
    } else {
        let before = essential(lines.drop_last(), workdir, home);
        match changed_path(lines.last()) {
            Some(p) if is_essential(p, workdir, home) => before.push(p),
            _ => before,
        }
    }
}

fn change(line: &str) -> (r: Option<String>)
    ensures
        text::opt_view(r) == changed_path(line@),
{
    let cs = text::chars_of(line);
    if cs.len() > 0 && (cs[0] == 'A' || cs[0] == 'C' || cs[0] == 'D' || cs[0] == 'M') {
        let rest = text::text_of(&cs, 1, cs.len());
        assert(cs@.subrange(1, cs@.len() as int) =~= line@.skip(1));
        Some(text::trim_start_of(text::trim(rest.as_str()).as_str(), '/'))
    } else {
        None
    }
}

/// The changed paths that would be missed, in order, each once.
pub fn essential_diff_paths(diff_out: &str, workdir: &str, home: &str) -> (r: Vec<String>)
    ensures
        text::strictly_sorted(text::views(r@)),
        text::views(r@).to_set() == essential(text::lines(diff_out@), workdir@, home@).to_set(),
{
    let lines = text::lines_of(diff_out);
    let ghost want = text::lines(diff_out@);
    let mut all: Vec<String> = Vec::new();
    let mut i: usize = 0;
    assert(want.take(0) =~= Seq::empty());
    assert(text::views(all@) =~= Seq::empty());
    while i < lines.len()
        invariant
            i <= lines@.len(),
            want == text::views(lines@),
            text::views(all@) == essential(want.take(i as int), workdir@, home@),
        decreases lines@.len() - i,
    {
        let ghost before = all@;
        assert(want.take(i + 1).drop_last() =~= want.take(i as int));
        assert(want.take(i + 1).last() == lines@[i as int]@);
        if let Some(path) = change(lines[i].as_str()) {
            proof {
                reveal_strlit("");
                if path@.len() == 0 {
                    assert(path@ =~= ""@);
                }
            }
            if !text::same_text(path.as_str(), "") && !path_at_or_under(path.as_str(), workdir)
                && !path_at_or_under(path.as_str(), home) && !volatile_diff_path(path.as_str()) {
                proof {
                    text::lemma_views_push(before, path);
                }
                all.push(path);
            }
        }
        i += 1;
    }
    assert(want.take(lines@.len() as int) =~= want);
    text::sort_unique(&all)
}

/// The paths with a slash before each.
pub open spec fn rooted(v: Seq<Seq<char>>) -> Seq<Seq<char>> {
    v.map_values(|p: Seq<char>| "/"@ + p)
}

/// The remark on changed paths: up to five of them, and how many more there are.
pub open spec fn layer_note(paths: Seq<Seq<char>>) -> Option<Seq<char>> {
    if paths.len() == 0 {
        None
    } else if paths.len() <= 5 {
        Some("Container filesystem changes: "@ + text::joined(rooted(paths), ", "@))
    } else {
        Some(
            "Container filesystem changes: "@ + text::joined(rooted(paths.take(5)), ", "@)
                + " – and "@ + text::decimal((paths.len() - 5) as nat) + " more"@,
        )
    }
}

/// The remark on the changed paths of a container that would be missed.
pub fn container_layer_changes(paths: &Vec<String>) -> (r: Option<String>)
    ensures
        text::opt_view(r) == layer_note(text::views(paths@)),
{
    let n: usize = paths.len();
    if n == 0 {
        return None;
    }
    let ghost want = text::views(paths@);
    let show: usize = if n <= 5 {
        n
    } else {
        5
    };
    let mut examples: Vec<String> = Vec::new();
    let mut i: usize = 0;
    while i < show
        invariant
            i <= show <= n,
            n == paths@.len(),
            want == text::views(paths@),
            text::views(examples@) == rooted(want.take(i as int)),
        decreases show - i,
    {
        let ghost before = examples@;
        let t = text::concat("/", paths[i].as_str());
        examples.push(t);
        proof {
            text::lemma_views_push(before, t);
            assert(rooted(want.take(i + 1)) =~= rooted(want.take(i as int)).push(
                "/"@ + want[i as int],
            ));
        }
        i += 1;
    }
    let mut note = text::concat(
        "Container filesystem changes: ",
        text::join_texts(&examples, ", ").as_str(),
    );
    if n > 5 {
        note.append(" – and ");
        note.append(text::decimal_text((n - 5) as u64).as_str());
        note.append(" more");
    } else {
        assert(want.take(n as int) =~= want);
    }
    Some(note)
}

/// The paths of the lines: what stands behind the three characters of the state, where that is
/// something.
pub open spec fn porcelain_paths(lines: Seq<Seq<char>>) -> Seq<Seq<char>>
    decreases lines.len(),
{
    if lines.len() == 0 {
        Seq::empty()
    } else {
        let before = porcelain_paths(lines.drop_last());
        let path = line_path(lines.last());
        if path.len() == 0 {
            before
        } else {
            before.push(path)
        }
    }
}

/// What stands behind the three characters of the state.
pub open spec fn line_path(line: Seq<char>) -> Seq<char> {
    if line.len() <= 3 {
        text::trimmed(Seq::empty())
    } else {
        text::trimmed(line.skip(3))
    }
}

/// Up to four of the paths, and how many more there are.
pub open spec fn examples_note(paths: Seq<Seq<char>>) -> Seq<char> {
    if paths.len() == 0 {
        Seq::empty()
    } else if paths.len() <= 4 {
        " (e.g. "@ + text::joined(paths, ", "@) + ")"@
    } else {
        " (e.g. "@ + text::joined(paths.take(4), ", "@) + " – and "@ + text::decimal(
            (paths.len() - 4) as nat,
        ) + " more)"@
    }
}

/// The remark on the changes of a working copy: how many there are, with examples.
pub open spec fn porcelain_note(stdout: Seq<char>) -> Option<Seq<char>> {
    let lines = text::lines(stdout);
    let examples = examples_note(porcelain_paths(lines));
    if lines.len() == 0 {
        None
    } else if lines.len() == 1 {
        Some("1 uncommitted change in the working copy"@ + examples)
    } else {
        Some(
            text::decimal(lines.len()) + " uncommitted changes in the working copy"@ + examples,
        )
    }
}

fn path_in_line(line: &str) -> (r: String)
    ensures
        r@ == line_path(line@),
{
    let cs = text::chars_of(line);
    let from: usize = if cs.len() <= 3 {
        cs.len()
    } else {
        3
    };
    let rest = text::text_of(&cs, from, cs.len());
    proof {
        if cs@.len() <= 3 {
            assert(rest@ =~= Seq::empty());
        } else {
            assert(rest@ =~= line@.skip(3));
        }
    }
    text::trim(rest.as_str())
}

fn examples_text(paths: &Vec<String>) -> (r: String)
    ensures
        r@ == examples_note(text::views(paths@)),
{
    let n: usize = paths.len();
    assert(text::views(paths@).len() == n);
    if n == 0 {
        let r = String::new();
        assert(r@ =~= Seq::empty());
        return r;
    }
    let mut out = " (e.g. ".to_string();
    if n <= 4 {
        out.append(text::join_texts(paths, ", ").as_str());
        out.append(")");
    } else {
        let first = first_texts(paths, 4);
        out.append(text::join_texts(&first, ", ").as_str());
        out.append(" – and ");
        out.append(text::decimal_text((n - 4) as u64).as_str());
        out.append(" more)");
    }
    out
}

fn first_texts(v: &Vec<String>, n: usize) -> (r: Vec<String>)
    requires
        n <= v@.len(),
    ensures
        text::views(r@) == text::views(v@).take(n as int),
{
    let mut out: Vec<String> = Vec::new();
    let mut i: usize = 0;
    while i < n
        invariant
            i <= n <= v@.len(),
            text::views(out@) == text::views(v@).take(i as int),
        decreases n - i,
    {
        let ghost before = out@;
        let t = v[i].clone();
        out.push(t);
        proof {
            text::lemma_views_push(before, t);
            assert(text::views(v@).take(i + 1) =~= text::views(v@).take(i as int).push(
                v@[i as int]@,
            ));
        }
        i += 1;
    }
    out
}

/// The remark on the changes of a working copy; none where there are none.
pub fn git_porcelain_note(stdout: &str) -> (r: Option<String>)
    ensures
        text::opt_view(r) == porcelain_note(stdout@),
{
    let lines = text::lines_of(stdout);
    let ghost want = text::lines(stdout@);
    let n: usize = lines.len();
    assert(want.len() == n);
    if n == 0 {
        return None;
    }
    let mut paths: Vec<String> = Vec::new();
    let mut i: usize = 0;
    assert(want.take(0) =~= Seq::empty());
    assert(text::views(paths@) =~= Seq::empty());
    while i < n
        invariant
            i <= n == lines@.len(),
            want == text::views(lines@),
            text::views(paths@) == porcelain_paths(want.take(i as int)),
        decreases n - i,
    {
        let ghost before = paths@;
        assert(want.take(i + 1).drop_last() =~= want.take(i as int));
        assert(want.take(i + 1).last() == lines@[i as int]@);
        let path = path_in_line(lines[i].as_str());
        proof {
            reveal_strlit("");
            if path@.len() == 0 {
                assert(path@ =~= ""@);
            }
        }
        if !text::same_text(path.as_str(), "") {
            proof {
                text::lemma_views_push(before, path);
            }
            paths.push(path);
        }
        i += 1;
    }
    assert(want.take(n as int) =~= want);
    let examples = examples_text(&paths);
    if n == 1 {
        Some(text::concat("1 uncommitted change in the working copy", examples.as_str()))
    } else {
        Some(
            text::concat3(
                text::decimal_text(n as u64).as_str(),
                " uncommitted changes in the working copy",
                examples.as_str(),
            ),
        )
    }
}

// ---------------------------------------------------------------------------
// Laws
// ---------------------------------------------------------------------------
/// A container that was set up for one mapping is never used for the other.
pub proof fn law_mappings_exclude_each_other(
    state: StateModel,
    bind: Seq<char>,
    image: Option<Seq<char>>,
)
    ensures
        !(is_reusable(state, bind, image, PodmanUserMapping::KeepId) && is_reusable(
            state,
            bind,
            image,
            PodmanUserMapping::Uidmap,
        )),
{
}

/// Only a running container is used again.
pub proof fn law_only_running_containers_are_reused(
    state: StateModel,
    bind: Seq<char>,
    image: Option<Seq<char>>,
    mapping: PodmanUserMapping,
)
    requires
        is_reusable(state, bind, image, mapping),
    ensures
        state is Running,
        probed(state, PodmanMode::Run, bind, image, mapping) == ChannelStatus::Running,
        probed(state, PodmanMode::Attach, bind, image, mapping) == ChannelStatus::Running,
{
}

/// Nothing at or below the working copy or the home directory, and nothing that does not last, is
/// reported.
pub proof fn law_only_essential_paths_are_reported(
    lines: Seq<Seq<char>>,
    workdir: Seq<char>,
    home: Seq<char>,
    k: int,
)
    requires
        0 <= k < essential(lines, workdir, home).len(),
    ensures
        is_essential(essential(lines, workdir, home)[k], workdir, home),
    decreases lines.len(),
{
    let before = essential(lines.drop_last(), workdir, home);
    if k < before.len() {
        law_only_essential_paths_are_reported(lines.drop_last(), workdir, home, k);
    }
}

/// An inspection is read field by field: a container that runs is described by its user namespace,
/// its mounts and its image, in this order; any other one is stopped, and one that was not found is
/// missing.
pub proof fn law_inspections_are_read_field_by_field(
    first: Seq<char>,
    userns: Seq<char>,
    binds: Seq<char>,
    image: Seq<char>,
)
    requires
        !first.contains('|'),
        !userns.contains('|'),
        !binds.contains('|'),
        first.len() > 0,
        !text::is_white(first[0]),
        !text::is_white(first.last()),
        image.len() > 0 ==> !text::is_white(image.last()),
    ensures
        ({
            let line = first + seq!['|'] + userns + seq!['|'] + binds + seq!['|'] + image;
            &&& first == "true"@ ==> inspected(line, true) == (StateModel::Running {
                userns,
                binds,
                image,
            })
            &&& first != "true"@ ==> inspected(line, true) == StateModel::Stopped
            &&& inspected(line, false) == StateModel::Missing
        }),
{
    let tail = binds + seq!['|'] + image;
    let rest = userns + seq!['|'] + tail;
    let line = first + seq!['|'] + userns + seq!['|'] + binds + seq!['|'] + image;
    assert(line =~= first + seq!['|'] + rest);
    assert(line[0] == first[0]);
    if image.len() > 0 {
        assert(line.last() == image.last());
    } else {
        assert(line.last() == '|');
    }
    text::lemma_trimmed_keeps(line);
    text::lemma_trimmed_keeps(first);
    text::law_texts_are_cut_at_the_first(first, rest, '|');
    text::law_texts_are_cut_at_the_first(userns, tail, '|');
    text::law_texts_are_cut_at_the_first(binds, image, '|');
}

/// A running container is used again where the mapping is the one asked for, the mount is among its
/// mounts and the image is the same; without an image any will do.
pub proof fn law_reuse_needs_mapping_mount_and_image(
    userns: Seq<char>,
    binds: Seq<char>,
    img: Seq<char>,
    bind: Seq<char>,
    image: Seq<char>,
)
    ensures
        ({
            let s = StateModel::Running { userns, binds, image: img };
            let kept = text::holds(userns, "keep-id"@);
            let mounted = text::holds(binds, bind);
            &&& is_reusable(s, bind, Some(image), PodmanUserMapping::KeepId) <==> kept && mounted
                && img == image
            &&& is_reusable(s, bind, Some(image), PodmanUserMapping::Uidmap) <==> !kept && mounted
                && img == image
            &&& is_reusable(s, bind, None, PodmanUserMapping::KeepId) <==> kept && mounted
            &&& is_reusable(s, bind, None, PodmanUserMapping::Uidmap) <==> !kept && mounted
        }),
        forall|m: PodmanUserMapping|
            !#[trigger] is_reusable(StateModel::Stopped, bind, Some(image), m) && !is_reusable(
                StateModel::Missing,
                bind,
                Some(image),
                m,
            ),
{
}

/// A channel with a container of its own is not in trouble because there is none that fits; one that
/// needs a container of others is, unless it runs.
pub proof fn law_missing_containers_are_trouble_for_shared_channels_only(
    state: StateModel,
    bind: Seq<char>,
    image: Option<Seq<char>>,
    mapping: PodmanUserMapping,
)
    ensures
        !is_reusable(state, bind, image, mapping) ==> probed(
            state,
            PodmanMode::Run,
            bind,
            image,
            mapping,
        ) == ChannelStatus::Unknown,
        !(state is Running) ==> probed(state, PodmanMode::Attach, bind, image, mapping)
            == ChannelStatus::Problem,
        state is Running ==> probed(state, PodmanMode::Attach, bind, image, mapping)
            == ChannelStatus::Running,
{
}

/// A directory is above what stands behind it and a slash, and above itself, but not above a name
/// that only begins like it.
pub proof fn law_directories_end_at_slashes(base: Seq<char>, rest: Seq<char>)
    ensures
        is_base_of(base, base),
        is_base_of(base, base + seq!['/'] + rest),
        rest.len() > 0 && rest[0] != '/' ==> !is_base_of(base, base + rest),
{
    let p = base + seq!['/'] + rest;
    assert(base =~= p.take(base.len() as int));
    let q = base + rest;
    if rest.len() > 0 {
        assert(q[base.len() as int] == rest[0]);
        assert(q != base);
    }
}

/// What lies in the working copy or the home directory is at or below it, whether that is written
/// with slashes at its ends or not.
pub proof fn law_slashes_at_the_ends_do_not_count(base: Seq<char>, rest: Seq<char>, n: nat, m: nat)
    requires
        base.len() > 0,
        base[0] != '/',
        base.last() != '/',
    ensures
        ({
            let written = Seq::new(n, |i: int| '/') + base + Seq::new(m, |i: int| '/');
            &&& is_at_or_under(base, written)
            &&& is_at_or_under(base + seq!['/'] + rest, written)
            &&& rest.len() > 0 && rest[0] != '/' ==> !is_at_or_under(base + rest, written)
        }),
{
    let front = Seq::new(n, |i: int| '/');
    let written = front + base + Seq::new(m, |i: int| '/');
    lemma_only_end_slashes(front, base, m);
    text::law_trimming_one_character(base, '/', n);
    law_directories_end_at_slashes(base, rest);
}

proof fn lemma_only_end_slashes(front: Seq<char>, base: Seq<char>, m: nat)
    requires
        base.len() > 0,
        base.last() != '/',
    ensures
        text::trimmed_end_of(front + base + Seq::new(m, |i: int| '/'), '/') == front + base,
    decreases m,
{
    let s = front + base + Seq::new(m, |i: int| '/');
    if m > 0 {
        lemma_only_end_slashes(front, base, (m - 1) as nat);
        assert(s.drop_last() =~= front + base + Seq::new((m - 1) as nat, |i: int| '/'));
        assert(s.last() == '/');
    } else {
        assert(s =~= front + base);
        assert(s.last() == base.last());
    }
}

/// The places where nothing lasts are those of temporary files and those that the system makes.
#[verifier::rlimit(40)]
pub proof fn law_the_places_where_nothing_lasts(rest: Seq<char>)
    ensures
        is_volatile("tmp"@ + seq!['/'] + rest),
        is_volatile("var/tmp"@ + seq!['/'] + rest),
        is_volatile("run"@ + seq!['/'] + rest),
        is_volatile("proc"@ + seq!['/'] + rest),
        is_volatile("sys"@ + seq!['/'] + rest),
        is_volatile("dev"@ + seq!['/'] + rest),
        !is_volatile("etc"@ + seq!['/'] + rest),
        !is_volatile("usr"@ + seq!['/'] + rest),
        !is_volatile("var/lib"@ + seq!['/'] + rest),
        !is_volatile("home"@ + seq!['/'] + rest),
        !is_volatile("root"@ + seq!['/'] + rest),
        !is_volatile("opt"@ + seq!['/'] + rest),
{
    law_directories_end_at_slashes("tmp"@, rest);
    law_directories_end_at_slashes("var/tmp"@, rest);
    law_directories_end_at_slashes("run"@, rest);
    law_directories_end_at_slashes("proc"@, rest);
    law_directories_end_at_slashes("sys"@, rest);
    law_directories_end_at_slashes("dev"@, rest);
    lemma_lasts("etc"@, rest);
    lemma_lasts("usr"@, rest);
    lemma_lasts("var/lib"@, rest);
    lemma_lasts("home"@, rest);
    lemma_lasts("root"@, rest);
    lemma_lasts("opt"@, rest);
}

#[verifier::rlimit(40)]
proof fn lemma_lasts(base: Seq<char>, rest: Seq<char>)
    requires
        base == "etc"@ || base == "usr"@ || base == "var/lib"@ || base == "home"@ || base == "root"@
            || base == "opt"@,
    ensures
        !is_volatile(base + seq!['/'] + rest),
{
    reveal_strlit("etc");
    reveal_strlit("usr");
    reveal_strlit("var/lib");
    reveal_strlit("home");
    reveal_strlit("root");
    reveal_strlit("opt");
    reveal_strlit("tmp");
    reveal_strlit("var/tmp");
    reveal_strlit("run");
    reveal_strlit("proc");
    reveal_strlit("sys");
    reveal_strlit("dev");
    let p = base + seq!['/'] + rest;
    assert(p[0] == base[0]);
    assert(p[1] == base[1]);
    assert("tmp"@[0] == 't' && "run"@[0] == 'r' && "run"@[1] == 'u' && "proc"@[0] == 'p');
    assert("sys"@[0] == 's' && "dev"@[0] == 'd' && "var/tmp"@[0] == 'v' && "var/tmp"@[4] == 't');
    if base == "var/lib"@ {
        assert(p[4] == base[4]);
        if "var/tmp"@.is_prefix_of(p) {
            assert(p.take(7)[4] == 't');
        }
    }
    if "tmp"@.is_prefix_of(p) {
        assert(p.take(3)[0] == 't');
    }
    if "run"@.is_prefix_of(p) {
        assert(p.take(3)[0] == 'r' && p.take(3)[1] == 'u');
    }
    if "proc"@.is_prefix_of(p) {
        assert(p.take(4)[0] == 'p');
    }
    if "sys"@.is_prefix_of(p) {
        assert(p.take(3)[0] == 's');
    }
    if "dev"@.is_prefix_of(p) {
        assert(p.take(3)[0] == 'd');
    }
    if "var/tmp"@.is_prefix_of(p) {
        assert(p.take(7)[0] == 'v');
    }
}

/// A line with one of the four letters names what stands behind it as changed; any other line names
/// nothing.
pub proof fn law_changes_are_marked_by_a_letter(letter: char, path: Seq<char>)
    requires
        path.len() > 0,
        path[0] != '/',
        path.last() != '/',
        !text::is_white(path[0]),
        !text::is_white(path.last()),
    ensures
        changed_path(seq![letter, ' ', '/'] + path) == (if letter == 'A' || letter == 'C' || letter
            == 'D' || letter == 'M' {
            Some(path)
        } else {
            None
        }),
        changed_path(Seq::empty()) is None,
{
    let line = seq![letter, ' ', '/'] + path;
    let rooted = seq!['/'] + path;
    assert(line.skip(1) =~= seq![' '] + rooted + Seq::<char>::empty());
    assert(rooted.last() == path.last());
    text::law_trimming_takes_white_space_only(seq![' '], rooted, Seq::empty());
    text::law_trimming_one_character(path, '/', 1);
    assert(Seq::new(1, |i: int| '/') =~= seq!['/']);
}

/// Every changed path that would be missed is reported: all that is not below the working copy, not
/// below the home and lasts.
pub proof fn law_every_essential_path_is_reported(
    lines: Seq<Seq<char>>,
    line: Seq<char>,
    p: Seq<char>,
    workdir: Seq<char>,
    home: Seq<char>,
)
    requires
        changed_path(line) == Some(p),
    ensures
        p.len() > 0 && !is_at_or_under(p, workdir) && !is_at_or_under(p, home) && !is_volatile(p)
            ==> essential(lines.push(line), workdir, home) == essential(lines, workdir, home).push(
            p,
        ),
        is_at_or_under(p, workdir) || is_at_or_under(p, home) || is_volatile(p) ==> essential(
            lines.push(line),
            workdir,
            home,
        ) == essential(lines, workdir, home),
{
    assert(lines.push(line).drop_last() =~= lines);
}

/// A remark on changed paths is made where there are any. It names up to five of them from the root,
/// and says how many are not named.
pub proof fn law_changed_paths_are_named(paths: Seq<Seq<char>>)
    ensures
        layer_note(paths) is None <==> paths.len() == 0,
        paths.len() > 0 ==> exists|v: Seq<Seq<char>>|
            {
                &&& v.len() == (if paths.len() < 5 {
                    paths.len()
                } else {
                    5
                })
                &&& forall|i: int| 0 <= i < v.len() ==> #[trigger] v[i] == "/"@ + paths[i]
                &&& layer_note(paths) == Some(
                    "Container filesystem changes: "@ + #[trigger] text::joined(v, ", "@) + (
                    if paths.len() > 5 {
                        " – and "@ + text::decimal((paths.len() - 5) as nat) + " more"@
                    } else {
                        Seq::<char>::empty()
                    }),
                )
            },
{
    if paths.len() > 0 {
        let n: int = if paths.len() < 5 {
            paths.len() as int
        } else {
            5
        };
        let v = rooted(paths.take(n));
        let head = "Container filesystem changes: "@ + text::joined(v, ", "@);
        if paths.len() <= 5 {
            assert(paths.take(n) =~= paths);
            assert(head + Seq::<char>::empty() =~= head);
        } else {
            let tail = " – and "@ + text::decimal((paths.len() - 5) as nat) + " more"@;
            assert(head + tail =~= head + " – and "@ + text::decimal((paths.len() - 5) as nat)
                + " more"@);
        }
        assert(layer_note(paths) == Some(
            "Container filesystem changes: "@ + text::joined(v, ", "@) + (if paths.len() > 5 {
                " – and "@ + text::decimal((paths.len() - 5) as nat) + " more"@
            } else {
                Seq::<char>::empty()
            }),
        ));
    }
}

/// The remark on a working copy counts the changed files, one by one, and names up to four of them.
pub proof fn law_uncommitted_changes_are_counted(stdout: Seq<char>)
    ensures
        ({
            let n = text::lines(stdout).len();
            let paths = porcelain_paths(text::lines(stdout));
            let named = if paths.len() == 0 {
                Seq::<char>::empty()
            } else if paths.len() <= 4 {
                " (e.g. "@ + text::joined(paths, ", "@) + ")"@
            } else {
                " (e.g. "@ + text::joined(paths.take(4), ", "@) + " – and "@ + text::decimal(
                    (paths.len() - 4) as nat,
                ) + " more)"@
            };
            &&& porcelain_note(stdout) is None <==> stdout.len() == 0
            &&& n == 1 ==> porcelain_note(stdout) == Some(
                "1 uncommitted change in the working copy"@ + named,
            )
            &&& n > 1 ==> porcelain_note(stdout) == Some(
                text::decimal(n) + " uncommitted changes in the working copy"@ + named,
            )
        }),
{
    text::law_only_the_empty_text_has_no_lines(stdout);
}

/// A changed file is named by what stands behind the two letters of its state and a blank.
pub proof fn law_changed_files_stand_behind_their_state(
    lines: Seq<Seq<char>>,
    x: char,
    y: char,
    path: Seq<char>,
)
    requires
        path.len() > 0,
        !text::is_white(path[0]),
        !text::is_white(path.last()),
    ensures
        porcelain_paths(lines.push(seq![x, y, ' '] + path)) == porcelain_paths(lines).push(path),
        porcelain_paths(Seq::empty()).len() == 0,
{
    let line = seq![x, y, ' '] + path;
    assert(lines.push(line).drop_last() =~= lines);
    assert(line.skip(3) =~= path);
    text::lemma_trimmed_keeps(path);
}

} // verus!
