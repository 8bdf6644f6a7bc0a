//! What the channel builder offers: images, paths of the host, worktrees and branches.

use super::container;
use super::paths;
use super::run;
use super::RunOut;
use crate::config;
use crate::config::{Config, PathEntry};
use crate::table;
use crate::table::Table;
use crate::text;
use vstd::prelude::*;
use vstd::string::*;

verus! {

// ---------------------------------------------------------------------------
// Images
// ---------------------------------------------------------------------------
/// Where a channel works: on the host, or in a container of an image.
#[derive(Debug, PartialEq)]
pub enum Tunnel {
    Local,
    Image {
        name: String,
        /// The working directory of the image.
        working_dir: Option<String>,
    },
}

/// What a tunnel holds.
pub enum TunnelModel {
    Local,
    Image { name: Seq<char>, working_dir: Option<Seq<char>> },
}

impl View for Tunnel {
    type V = TunnelModel;

    open spec fn view(&self) -> TunnelModel {
        match self {
            Tunnel::Local => TunnelModel::Local,
            Tunnel::Image { name, working_dir } => TunnelModel::Image {
                name: name@,
                working_dir: text::opt_view(*working_dir),
            },
        }
    }
}

impl Clone for Tunnel {
    fn clone(&self) -> (r: Self)
        ensures
            r@ == self@,
    {
        match self {
            Tunnel::Local => Tunnel::Local,
            Tunnel::Image { name, working_dir } => Tunnel::Image {
                name: name.clone(),
                working_dir: text::copy_opt(working_dir),
            },
        }
    }
}

/// What the tunnels of a list hold.
pub open spec fn tunnel_views(v: Seq<Tunnel>) -> Seq<TunnelModel> {
    v.map_values(|t: Tunnel| t@)
}

/// The image of a tunnel.
pub open spec fn image_of(t: TunnelModel) -> Option<Seq<char>> {
    match t {
        TunnelModel::Local => None,
        TunnelModel::Image { name, .. } => Some(name),
    }
}

/// The short name of an image: its last part, without tag.
pub open spec fn short_name(name: Seq<char>) -> Seq<char> {
    config::before(name.skip(paths::last_start(name)), ':')
}

/// What is left behind a prefix, or all where it is not there.
pub open spec fn unprefixed(s: Seq<char>, p: Seq<char>) -> Seq<char> {
    if p.is_prefix_of(s) {
        s.skip(p.len() as int)
    } else {
        s
    }
}

/// What is left before a suffix, or all where it is not there.
pub open spec fn unsuffixed(s: Seq<char>, p: Seq<char>) -> Seq<char> {
    if p.is_suffix_of(s) {
        s.take(s.len() - p.len())
    } else {
        s
    }
}

/// The name of an image in the form in which names are held against each other.
pub open spec fn normal_name(name: Seq<char>) -> Seq<char> {
    let a = unprefixed(text::trimmed(name), "docker.io/library/"@);
    let b = unprefixed(a, "docker.io/"@);
    let c = unprefixed(b, "localhost/"@);
    unsuffixed(c, ":latest"@)
}

/// The short name of an image.
pub fn image_short_name(name: &str) -> (r: String)
    ensures
        r@ == short_name(name@),
{
    let cs = text::chars_of(name);
    let mut k: usize = cs.len();
    assert(cs@.take(k as int) =~= name@);
    while k > 0 && cs[k - 1] != '/'
        invariant
            k <= cs@.len(),
            paths::last_start(cs@.take(k as int)) == paths::last_start(name@),
        decreases k,
    {
        assert(cs@.take(k as int).drop_last() =~= cs@.take(k - 1));
        assert(cs@.take(k as int).last() == cs@[k - 1]);
        k -= 1;
    }
    proof {
        if k > 0 {
            assert(cs@.take(k as int).last() == cs@[k - 1]);
        }
    }
    let bare = text::text_of(&cs, k, cs.len());
    assert(bare@ =~= name@.skip(k as int));
    config::before_char(bare.as_str(), ':')
}

fn unprefix(s: &str, p: &str) -> (r: String)
    ensures
        r@ == unprefixed(s@, p@),
{
    match text::strip_prefix(s, p) {
        Some(t) => t,
        None => s.to_string(),
    }
}

/// The name of an image in the form in which names are held against each other.
pub fn normalize_image_name(name: &str) -> (r: String)
    ensures
        r@ == normal_name(name@),
{
    let t = text::trim(name);
    let a = unprefix(t.as_str(), "docker.io/library/");
    let b = unprefix(a.as_str(), "docker.io/");
    let c = unprefix(b.as_str(), "localhost/");
    match text::strip_suffix(c.as_str(), ":latest") {
        Some(d) => d,
        None => c,
    }
}

/// Whether two names mean the same image.
pub open spec fn same_image(a: Seq<char>, b: Seq<char>) -> bool {
    normal_name(a) == normal_name(b)
}

/// Whether two names mean the same image.
pub fn image_names_equal(a: &str, b: &str) -> (r: bool)
    ensures
        r == same_image(a@, b@),
{
    text::same_text(normalize_image_name(a).as_str(), normalize_image_name(b).as_str())
}

impl Tunnel {
    /// The name that is shown.
    pub fn label(&self) -> (r: String)
        ensures
            r@ == (match image_of(self@) {
                Some(n) => short_name(n),
                None => "local"@,
            }),
    {
        match self {
            Tunnel::Local => "local".to_string(),
            Tunnel::Image { name, .. } => image_short_name(name.as_str()),
        }
    }

    /// The full name of the image.
    pub fn image_name(&self) -> (r: Option<&str>)
        ensures
            config::opt_str(r) == image_of(self@),
    {
        match self {
            Tunnel::Local => None,
            Tunnel::Image { name, .. } => Some(name.as_str()),
        }
    }
}

/// Whether a command ran well.
pub open spec fn ran_well(out: Result<super::RunModel, Seq<char>>) -> bool {
    match out {
        Ok(o) => o.exit_code == Some(0i32),
        Err(_) => false,
    }
}

/// The output of a command that ran well.
pub fn good_output(out: &Result<RunOut, String>) -> (r: Option<&str>)
    ensures
        match r {
            Some(s) => ran_well(super::run_view(*out)) && s@ == (super::run_view(*out)->Ok_0).stdout,
            None => !ran_well(super::run_view(*out)),
        },
{
    match out {
        Ok(o) => match o.exit_code {
            Some(c) => if c == 0 {
                Some(o.stdout.as_str())
            } else {
                None
            },
            None => None,
        },
        Err(_) => None,
    }
}

/// The image that a line names; none for an image without name.
pub open spec fn listed_image(line: Seq<char>) -> Option<Seq<char>> {
    let t = text::trimmed(line);
    let n = normal_name(t);
    if t.len() == 0 || text::holds(t, "<none>"@) || n.len() == 0 || text::holds(n, "<none>"@) {
        None
    } else {
        Some(n)
    }
}

/// The images that the lines name.
pub open spec fn listed_images(lines: Seq<Seq<char>>) -> Seq<Seq<char>>
    decreases lines.len(),
{
    if lines.len() == 0 {
        Seq::empty()
    } else {
        let before = listed_images(lines.drop_last());
        match listed_image(lines.last()) {
            Some(n) => before.push(n),
            None => before,
        }
    }
}

/// Every listed image is named in the form in which names are held against each other, and none of
/// them lacks a part of its name.
proof fn lemma_listed_images(lines: Seq<Seq<char>>, k: int)
    requires
        0 <= k < listed_images(lines).len(),
    ensures
        listed_images(lines)[k].len() > 0,
        !text::holds(listed_images(lines)[k], "<none>"@),
        exists|i: int|
            0 <= i < lines.len() && listed_images(lines)[k] == normal_name(
                text::trimmed(#[trigger] lines[i]),
            ),
    decreases lines.len(),
{
    let t = lines.drop_last();
    if k < listed_images(t).len() {
        lemma_listed_images(t, k);
        let i = choose|i: int|
            0 <= i < t.len() && listed_images(t)[k] == normal_name(
                text::trimmed(#[trigger] t[i]),
            );
        assert(lines[i] == t[i]);
    } else {
        assert(lines[lines.len() - 1] == lines.last());
    }
}

/// The arguments that list the images.
pub fn images_args() -> (r: Vec<String>)
    ensures
        text::views(r@) == seq!["images"@, "--format"@, "{{.Repository}}:{{.Tag}}"@],
{
    let r = text::texts(&["images", "--format", "{{.Repository}}:{{.Tag}}"]);
    assert(text::views(r@) =~= seq!["images"@, "--format"@, "{{.Repository}}:{{.Tag}}"@]);
    r
}

fn image_in_line(line: &str) -> (r: Option<String>)
    ensures
        text::opt_view(r) == listed_image(line@),
{
    let t = text::trim(line);
    if t.as_str().is_empty() || text::holds_text(t.as_str(), "<none>") {
        return None;
    }
    let n = normalize_image_name(t.as_str());
    if n.as_str().is_empty() || text::holds_text(n.as_str(), "<none>") {
        return None;
    }
    Some(n)
}

/// The images that there are, in order, each once; none where they could not be listed.
pub fn podman_list_images(out: &Result<RunOut, String>) -> (r: Vec<String>)
    ensures
        text::strictly_sorted(text::views(r@)),
        text::views(r@).to_set() == (if ran_well(super::run_view(*out)) {
            listed_images(text::lines((super::run_view(*out)->Ok_0).stdout)).to_set()
        } else {
            Set::empty()
        }),
        forall|i: int|
            0 <= i < r@.len() ==> (#[trigger] text::views(r@)[i]).len() > 0 && !text::holds(
                text::views(r@)[i],
                "<none>"@,
            ),
{
    let stdout = match good_output(out) {
        Some(s) => s,
        None => {
            let r: Vec<String> = Vec::new();
            assert(text::views(r@).to_set() =~= Set::empty());
            return r;
        },
    };
    let lines = text::lines_of(stdout);
    let ghost want = text::lines(stdout@);
    let mut all: Vec<String> = Vec::new();
    let mut i: usize = 0;
    assert(want.take(0) =~= Seq::empty());
    assert(text::views(all@) =~= Seq::empty());
    while i < lines.len()
        invariant
            i <= lines@.len(),
            want == text::views(lines@),
            text::views(all@) == listed_images(want.take(i as int)),
        decreases lines@.len() - i,
    {
        assert(want.take(i + 1).drop_last() =~= want.take(i as int));
        assert(want.take(i + 1).last() == lines@[i as int]@);
        if let Some(n) = image_in_line(lines[i].as_str()) {
            text::push_text(&mut all, n);
        }
        i += 1;
    }
    assert(want.take(lines@.len() as int) =~= want);
    let r = text::sort_unique(&all);
    proof {
        let found = listed_images(want);
        assert forall|i: int| 0 <= i < r@.len() implies (#[trigger] text::views(r@)[i]).len() > 0
            && !text::holds(text::views(r@)[i], "<none>"@) by {
            assert(text::views(r@).to_set().contains(text::views(r@)[i]));
            assert(found.to_set().contains(text::views(r@)[i]));
            let k = choose|k: int| 0 <= k < found.len() && found[k] == text::views(r@)[i];
            lemma_listed_images(want, k);
        }
    }
    r
}

/// Whether podman can be used, from the result of `podman info`.
pub fn podman_available(out: &Result<RunOut, String>) -> (r: bool)
    ensures
        r == ran_well(super::run_view(*out)),
{
    good_output(out).is_some()
}

/// The images that are offered: those that there are, and where there are none an alpine one that
/// podman can get.
pub fn offered_images(images: Vec<String>, available: bool, has_alpine: bool) -> (r: Vec<String>)
    ensures
        text::views(r@) == (if images@.len() == 0 && available && has_alpine {
            seq!["alpine"@]
        } else {
            text::views(images@)
        }),
{
    if images.len() == 0 && available && has_alpine {
        let r = text::texts(&["alpine"]);
        assert(text::views(r@) =~= seq!["alpine"@]);
        r
    } else {
        images
    }
}

/// Whether a line names an alpine image.
pub open spec fn is_alpine(line: Seq<char>) -> bool {
    !text::holds(text::trimmed(line), "<none>"@) && short_name(text::trimmed(line)) == "alpine"@
}

/// Whether there is an alpine image, from the result of listing its name.
pub fn podman_has_alpine(out: &Result<RunOut, String>) -> (r: bool)
    ensures
        r == (ran_well(super::run_view(*out)) && exists|k: int|
            0 <= k < text::lines((super::run_view(*out)->Ok_0).stdout).len() && is_alpine(
                #[trigger] text::lines((super::run_view(*out)->Ok_0).stdout)[k],
            )),
{
    let stdout = match good_output(out) {
        Some(s) => s,
        None => {
            return false;
        },
    };
    let lines = text::lines_of(stdout);
    let ghost want = text::lines(stdout@);
    let mut i: usize = 0;
    while i < lines.len()
        invariant
            i <= lines@.len(),
            want == text::views(lines@),
            ran_well(super::run_view(*out)),
            want == text::lines((super::run_view(*out)->Ok_0).stdout),
            forall|k: int| 0 <= k < i ==> !is_alpine(#[trigger] want[k]),
        decreases lines@.len() - i,
    {
        let t = text::trim(lines[i].as_str());
        assert(want[i as int] == lines@[i as int]@);
        if !text::holds_text(t.as_str(), "<none>") && text::same_text(
            image_short_name(t.as_str()).as_str(),
            "alpine",
        ) {
            assert(is_alpine(want[i as int]));
            return true;
        }
        i += 1;
    }
    false
}

/// The arguments that ask for the working directory of an image.
pub fn working_dir_args(image: &str) -> (r: Vec<String>)
    ensures
        text::views(r@) == seq!["inspect"@, "--format"@, "{{.Config.WorkingDir}}"@, image@],
{
    let r = text::texts(&["inspect", "--format", "{{.Config.WorkingDir}}", image]);
    assert(text::views(r@) =~= seq![
        "inspect"@,
        "--format"@,
        "{{.Config.WorkingDir}}"@,
        image@,
    ]);
    r
}

/// The working directory of an image, where it has one.
pub fn podman_inspect_working_dir(out: &Result<RunOut, String>) -> (r: Option<String>)
    ensures
        text::opt_view(r) == (if ran_well(super::run_view(*out)) && text::trimmed(
            (super::run_view(*out)->Ok_0).stdout,
        ).len() > 0 {
            Some(text::trimmed((super::run_view(*out)->Ok_0).stdout))
        } else {
            None
        }),
{
    match good_output(out) {
        Some(s) => {
            let t = text::trim(s);
            if t.as_str().is_empty() {
                None
            } else {
                Some(t)
            }
        },
        None => None,
    }
}

// ---------------------------------------------------------------------------
// Containers
// ---------------------------------------------------------------------------
/// What was found out about a container.
#[derive(Debug, PartialEq)]
pub struct ContainerInfo {
    pub name: String,
    /// `running` or `stopped`.
    pub status: String,
    /// Where the directory of the host is mounted.
    pub mount_destination: Option<String>,
}

/// What is known of a container.
pub struct InfoModel {
    pub name: Seq<char>,
    pub status: Seq<char>,
    pub mount_destination: Option<Seq<char>>,
}

impl View for ContainerInfo {
    type V = InfoModel;

    open spec fn view(&self) -> InfoModel {
        InfoModel {
            name: self.name@,
            status: self.status@,
            mount_destination: text::opt_view(self.mount_destination),
        }
    }
}

impl Clone for ContainerInfo {
    fn clone(&self) -> (r: Self)
        ensures
            r@ == self@,
    {
        ContainerInfo {
            name: self.name.clone(),
            status: self.status.clone(),
            mount_destination: text::copy_opt(&self.mount_destination),
        }
    }
}

/// What is known of a container that may be missing.
pub open spec fn info_view(o: Option<ContainerInfo>) -> Option<InfoModel> {
    match o {
        Some(c) => Some(c@),
        None => None,
    }
}

/// The arguments that list all containers.
pub fn containers_args() -> (r: Vec<String>)
    ensures
        text::views(r@) == seq!["ps"@, "-a"@, "--format"@, "{{.Names}}|{{.Status}}"@],
{
    let r = text::texts(&["ps", "-a", "--format", "{{.Names}}|{{.Status}}"]);
    assert(text::views(r@) =~= seq!["ps"@, "-a"@, "--format"@, "{{.Names}}|{{.Status}}"@]);
    r
}

/// The arguments that ask for image and mounts of a container.
pub fn mounts_args(name: &str) -> (r: Vec<String>)
    ensures
        text::views(r@) == seq![
            "inspect"@,
            "--format"@,
            "{{.Config.Image}}|{{range .Mounts}}{{.Source}}:{{.Destination}} {{end}}"@,
            name@,
        ],
{
    let r = text::texts(
        &[
            "inspect",
            "--format",
            "{{.Config.Image}}|{{range .Mounts}}{{.Source}}:{{.Destination}} {{end}}",
            name,
        ],
    );
    assert(text::views(r@) =~= seq![
        "inspect"@,
        "--format"@,
        "{{.Config.Image}}|{{range .Mounts}}{{.Source}}:{{.Destination}} {{end}}"@,
        name@,
    ]);
    r
}

/// Name and state of the container that a line names.
pub open spec fn listed_container(line: Seq<char>) -> Option<(Seq<char>, Seq<char>)> {
    match text::split_once(line, '|') {
        Some((name, status)) => Some((text::trimmed(name), text::trimmed(status))),
        None => None,
    }
}

/// Names and states of the containers that the lines name.
pub open spec fn listed_containers(lines: Seq<Seq<char>>) -> Seq<(Seq<char>, Seq<char>)>
    decreases lines.len(),
{
    if lines.len() == 0 {
        Seq::empty()
    } else {
        let before = listed_containers(lines.drop_last());
        match listed_container(lines.last()) {
            Some(p) => before.push(p),
            None => before,
        }
    }
}

/// What a list of pairs of texts holds.
pub open spec fn pair_views(v: Seq<(String, String)>) -> Seq<(Seq<char>, Seq<char>)> {
    v.map_values(|p: (String, String)| (p.0@, p.1@))
}

/// Names and states of the containers that there are; none where they could not be listed.
pub fn containers_of(out: &Result<RunOut, String>) -> (r: Vec<(String, String)>)
    ensures
        pair_views(r@) == (if ran_well(super::run_view(*out)) {
            listed_containers(text::lines((super::run_view(*out)->Ok_0).stdout))
        } else {
            Seq::empty()
        }),
{
    let mut all: Vec<(String, String)> = Vec::new();
    assert(pair_views(all@) =~= Seq::empty());
    let stdout = match good_output(out) {
        Some(s) => s,
        None => {
            return all;
        },
    };
    let lines = text::lines_of(stdout);
    let ghost want = text::lines(stdout@);
    let mut i: usize = 0;
    assert(want.take(0) =~= Seq::empty());
    while i < lines.len()
        invariant
            i <= lines@.len(),
            want == text::views(lines@),
            pair_views(all@) == listed_containers(want.take(i as int)),
        decreases lines@.len() - i,
    {
        let ghost before = all@;
        assert(want.take(i + 1).drop_last() =~= want.take(i as int));
        assert(want.take(i + 1).last() == lines@[i as int]@);
        if let Some((name, status)) = text::split_once_text(lines[i].as_str(), '|') {
            let p = (text::trim(name.as_str()), text::trim(status.as_str()));
            all.push(p);
            assert(pair_views(all@) =~= pair_views(before).push((p.0@, p.1@)));
        }
        i += 1;
    }
    assert(want.take(lines@.len() as int) =~= want);
    all
}

/// Where the first of the mounts that comes from `path` leads.
pub open spec fn mount_of(mounts: Seq<Seq<char>>, path: Seq<char>) -> Option<Seq<char>>
    decreases mounts.len(),
{
    if mounts.len() == 0 {
        None
    } else {
        match text::split_once(mounts[0], ':') {
            Some((src, dst)) if text::trimmed_end_of(src, '/') == path => Some(dst),
            _ => mount_of(mounts.drop_first(), path),
        }
    }
}

/// What is known of a container where it has the path mounted and is of the image.
pub open spec fn fitting(
    entry: (Seq<char>, Seq<char>),
    inspect: Result<super::RunModel, Seq<char>>,
    path: Seq<char>,
    image: Option<Seq<char>>,
) -> Option<InfoModel> {
    if !ran_well(inspect) {
        None
    } else {
        let (img, mounts) = container::cut((inspect->Ok_0).stdout);
        match mount_of(run::words(mounts), text::trimmed_end_of(path, '/')) {
            None => None,
            Some(dst) => if image is Some && !same_image(text::trimmed(img), image->0) {
                None
            } else {
                Some(
                    InfoModel {
                        name: entry.0,
                        status: if "Up"@.is_prefix_of(entry.1) {
                            "running"@
                        } else {
                            "stopped"@
                        },
                        mount_destination: Some(dst),
                    },
                )
            },
        }
    }
}

/// What is known of the first container that fits.
pub open spec fn first_fitting(
    entries: Seq<(Seq<char>, Seq<char>)>,
    inspects: Seq<Result<super::RunModel, Seq<char>>>,
    path: Seq<char>,
    image: Option<Seq<char>>,
) -> Option<InfoModel>
    decreases entries.len(),
{
    if entries.len() == 0 || inspects.len() == 0 {
        None
    } else {
        match fitting(entries[0], inspects[0], path, image) {
            Some(i) => Some(i),
            None => first_fitting(entries.drop_first(), inspects.drop_first(), path, image),
        }
    }
}

/// What the results of a list of commands hold.
pub open spec fn run_views(v: Seq<Result<RunOut, String>>) -> Seq<
    Result<super::RunModel, Seq<char>>,
> {
    v.map_values(|r: Result<RunOut, String>| super::run_view(r))
}

fn mount_for(mounts: &Vec<String>, path: &str) -> (r: Option<String>)
    ensures
        text::opt_view(r) == mount_of(text::views(mounts@), path@),
{
    let ghost want = text::views(mounts@);
    let mut i: usize = 0;
    assert(want.skip(0) =~= want);
    while i < mounts.len()
        invariant
            i <= mounts@.len(),
            want == text::views(mounts@),
            mount_of(want.skip(i as int), path@) == mount_of(want, path@),
        decreases mounts@.len() - i,
    {
        assert(want.skip(i as int)[0] == mounts@[i as int]@);
        assert(want.skip(i as int).drop_first() =~= want.skip(i + 1));
        if let Some((src, dst)) = text::split_once_text(mounts[i].as_str(), ':') {
            if text::same_text(text::trim_end_of(src.as_str(), '/').as_str(), path) {
                return Some(dst);
            }
        }
        i += 1;
    }
    None
}

/// What is known of a container where it has the path mounted and is of the image.
pub fn container_fits(
    name: &str,
    status_line: &str,
    inspect: &Result<RunOut, String>,
    mount_path: &str,
    image: Option<&str>,
) -> (r: Option<ContainerInfo>)
    ensures
        info_view(r) == fitting(
            (name@, status_line@),
            super::run_view(*inspect),
            mount_path@,
            config::opt_str(image),
        ),
{
    let stdout = match good_output(inspect) {
        Some(s) => s,
        None => {
            return None;
        },
    };
    let (img, mounts) = container::cut_text(stdout);
    let list = run::words_of(mounts.as_str());
    let path = text::trim_end_of(mount_path, '/');
    let dst = match mount_for(&list, path.as_str()) {
        Some(d) => d,
        None => {
            return None;
        },
    };
    if let Some(expected) = image {
        if !image_names_equal(text::trim(img.as_str()).as_str(), expected) {
            return None;
        }
    }
    let status = if text::begins_with(status_line, "Up") {
        "running".to_string()
    } else {
        "stopped".to_string()
    };
    Some(ContainerInfo { name: name.to_string(), status, mount_destination: Some(dst) })
}

/// The first container that has the path mounted and is of the image. `inspects` holds what was
/// found out about each of the containers.
pub fn find_container_for(
    entries: &Vec<(String, String)>,
    inspects: &Vec<Result<RunOut, String>>,
    mount_path: &str,
    image: Option<&str>,
) -> (r: Option<ContainerInfo>)
    ensures
        info_view(r) == first_fitting(
            pair_views(entries@),
            run_views(inspects@),
            mount_path@,
            config::opt_str(image),
        ),
{
    let ghost es = pair_views(entries@);
    let ghost is = run_views(inspects@);
    let ghost img = config::opt_str(image);
    let mut i: usize = 0;
    assert(es.skip(0) =~= es);
    assert(is.skip(0) =~= is);
    while i < entries.len() && i < inspects.len()
        invariant
            i <= entries@.len(),
            i <= inspects@.len(),
            es == pair_views(entries@),
            is == run_views(inspects@),
            img == config::opt_str(image),
            first_fitting(es.skip(i as int), is.skip(i as int), mount_path@, img) == first_fitting(
                es,
                is,
                mount_path@,
                img,
            ),
        decreases entries@.len() - i,
    {
        assert(es.skip(i as int)[0] == (entries@[i as int].0@, entries@[i as int].1@));
        assert(is.skip(i as int)[0] == super::run_view(inspects@[i as int]));
        assert(es.skip(i as int).drop_first() =~= es.skip(i + 1));
        assert(is.skip(i as int).drop_first() =~= is.skip(i + 1));
        let found = container_fits(
            entries[i].0.as_str(),
            entries[i].1.as_str(),
            &inspects[i],
            mount_path,
            image,
        );
        if found.is_some() {
            return found;
        }
        i += 1;
    }
    None
}

/// The name of a channel in a container: short image and path.
pub open spec fn channel_name(image: Seq<char>, root: Seq<char>) -> Seq<char> {
    short_name(image) + " "@ + root
}

/// The name of a channel in a container.
pub fn run_channel_name(image: &str, effective_root: &str) -> (r: String)
    ensures
        r@ == channel_name(image@, effective_root@),
{
    text::concat3(image_short_name(image).as_str(), " ", effective_root)
}

/// The name of a container: folder, branch where there is one, and short image.
pub open spec fn container_name(folder: Seq<char>, branch: Option<Seq<char>>, image: Seq<char>) -> Seq<
    char,
> {
    run::word_name(
        match branch {
            Some(b) => "aidev-"@ + folder + "-"@ + b + "-"@ + short_name(image),
            None => "aidev-"@ + folder + "-"@ + short_name(image),
        },
    )
}

/// The name of a container.
pub fn run_container_name(repo_folder: &str, branch: Option<&str>, image: &str) -> (r: String)
    ensures
        r@ == container_name(repo_folder@, config::opt_str(branch), image@),
{
    let mut raw = text::concat("aidev-", repo_folder);
    if let Some(b) = branch {
        raw.append("-");
        raw.append(b);
    }
    raw.append("-");
    raw.append(image_short_name(image).as_str());
    run::sanitize(raw.as_str())
}

// ---------------------------------------------------------------------------
// Paths of the host
// ---------------------------------------------------------------------------
/// A path of the host.
#[derive(Debug, PartialEq)]
pub struct HostPath {
    pub path: String,
}

impl HostPath {
    /// The path as it is shown.
    pub fn label(&self) -> (r: String)
        ensures
            r@ == self.path@,
    {
        self.path.clone()
    }
}

/// What the paths of a list hold.
pub open spec fn host_views(v: Seq<HostPath>) -> Seq<Seq<char>> {
    v.map_values(|h: HostPath| h.path@)
}

/// Whether one of the paths is the same as the given one, part by part.
pub open spec fn has_path(v: Seq<Seq<char>>, path: Seq<char>) -> bool {
    exists|k: int| 0 <= k < v.len() && paths::parts(#[trigger] v[k]) == paths::parts(path)
}

/// The paths, each once: a path that stood before is left out.
pub open spec fn distinct_paths(v: Seq<Seq<char>>) -> Seq<Seq<char>>
    decreases v.len(),
{
    if v.len() == 0 {
        Seq::empty()
    } else {
        let before = distinct_paths(v.drop_last());
        if has_path(before, v.last()) {
            before
        } else {
            before.push(v.last())
        }
    }
}

/// A text that may be missing as a list.
pub open spec fn one_or_none(o: Option<Seq<char>>) -> Seq<Seq<char>> {
    match o {
        Some(s) => seq![s],
        None => Seq::empty(),
    }
}

/// Whether two paths are the same, part by part.
pub fn same_path(a: &str, b: &str) -> (r: bool)
    ensures
        r == (paths::parts(a@) == paths::parts(b@)),
{
    let x = paths::components(a);
    let y = paths::components(b);
    if x.len() != y.len() {
        assert(paths::part_views(x@).len() != paths::part_views(y@).len());
        return false;
    }
    let k = paths::common_parts(&x, &y);
    proof {
        paths::lemma_common(paths::part_views(x@), paths::part_views(y@));
        let p = paths::part_views(x@);
        let q = paths::part_views(y@);
        assert(p.take(p.len() as int) =~= p);
        assert(q.take(q.len() as int) =~= q);
        if p == q {
            paths::lemma_common_self(p);
        }
    }
    k == x.len()
}

/// The position of a path among those that are there.
pub fn path_position(v: &Vec<HostPath>, path: &str) -> (r: Option<usize>)
    ensures
        match r {
            Some(i) => i < v@.len() && paths::parts(v@[i as int].path@) == paths::parts(path@)
                && forall|k: int|
                0 <= k < i ==> paths::parts((#[trigger] v@[k]).path@) != paths::parts(path@),
            None => !has_path(host_views(v@), path@),
        },
{
    let mut i: usize = 0;
    while i < v.len()
        invariant
            i <= v@.len(),
            forall|k: int|
                0 <= k < i ==> paths::parts((#[trigger] v@[k]).path@) != paths::parts(path@),
        decreases v@.len() - i,
    {
        if same_path(v[i].path.as_str(), path) {
            return Some(i);
        }
        i += 1;
    }
    proof {
        assert forall|k: int| 0 <= k < host_views(v@).len() implies paths::parts(
            #[trigger] host_views(v@)[k],
        ) != paths::parts(path@) by {
            assert(host_views(v@)[k] == v@[k].path@);
        }
    }
    None
}

fn add_path(v: &mut Vec<HostPath>, path: &str)
    ensures
        host_views(final(v)@) == (if has_path(host_views(old(v)@), path@) {
            host_views(old(v)@)
        } else {
            host_views(old(v)@).push(path@)
        }),
{
    let ghost before = v@;
    match path_position(v, path) {
        Some(i) => {
            assert(host_views(v@)[i as int] == v@[i as int].path@);
            assert(has_path(host_views(v@), path@));
        },
        None => {
            let h = HostPath { path: path.to_string() };
            v.push(h);
            assert(host_views(v@) =~= host_views(before).push(path@));
        },
    }
}

/// The paths that the builder offers: those of the configuration, the working directory and the
/// one of the command line, each once.
pub fn collect_host_paths(
    config_paths: &Table<PathEntry>,
    cwd: Option<&str>,
    argv_path: Option<&str>,
) -> (r: Vec<HostPath>)
    ensures
        host_views(r@) == distinct_paths(
            table::keys(config_paths@) + one_or_none(config::opt_str(cwd)) + one_or_none(
                config::opt_str(argv_path),
            ),
        ),
{
    let names = config_paths.names();
    let ghost keys = table::keys(config_paths@);
    let mut out: Vec<HostPath> = Vec::new();
    let mut i: usize = 0;
    assert(keys.take(0) =~= Seq::empty());
    assert(host_views(out@) =~= Seq::empty());
    while i < names.len()
        invariant
            i <= names@.len(),
            keys == text::views(names@),
            host_views(out@) == distinct_paths(keys.take(i as int)),
        decreases names@.len() - i,
    {
        assert(keys.take(i + 1).drop_last() =~= keys.take(i as int));
        assert(keys.take(i + 1).last() == names@[i as int]@);
        add_path(&mut out, names[i].as_str());
        i += 1;
    }
    assert(keys.take(names@.len() as int) =~= keys);
    let ghost a = one_or_none(config::opt_str(cwd));
    let ghost b = one_or_none(config::opt_str(argv_path));
    assert(keys + Seq::<Seq<char>>::empty() =~= keys);
    if let Some(c) = cwd {
        add_path(&mut out, c);
        assert((keys + a).drop_last() =~= keys);
        assert((keys + a).last() == c@);
    } else {
        assert(keys + a =~= keys);
    }
    assert(host_views(out@) == distinct_paths(keys + a));
    if let Some(p) = argv_path {
        add_path(&mut out, p);
        assert((keys + a + b).drop_last() =~= keys + a);
        assert((keys + a + b).last() == p@);
    } else {
        assert(keys + a + b =~= keys + a);
    }
    assert(host_views(out@) == distinct_paths(keys + a + b));
    out
}

// ---------------------------------------------------------------------------
// Worktrees and branches
// ---------------------------------------------------------------------------
/// A worktree or a branch without one.
#[derive(Debug, PartialEq)]
pub struct WorktreeEntry {
    pub label: String,
    /// The path; empty for a branch without worktree.
    pub path: String,
    pub branch: String,
    /// Whether this is the worktree that was asked for.
    pub is_main: bool,
    pub has_worktree: bool,
}

/// What a worktree or branch holds.
pub struct BranchModel {
    pub label: Seq<char>,
    pub path: Seq<char>,
    pub branch: Seq<char>,
    pub is_main: bool,
    pub has_worktree: bool,
}

impl View for WorktreeEntry {
    type V = BranchModel;

    open spec fn view(&self) -> BranchModel {
        BranchModel {
            label: self.label@,
            path: self.path@,
            branch: self.branch@,
            is_main: self.is_main,
            has_worktree: self.has_worktree,
        }
    }
}

impl Clone for WorktreeEntry {
    fn clone(&self) -> (r: Self)
        ensures
            r@ == self@,
    {
        WorktreeEntry {
            label: self.label.clone(),
            path: self.path.clone(),
            branch: self.branch.clone(),
            is_main: self.is_main,
            has_worktree: self.has_worktree,
        }
    }
}

/// What the entries of a list hold.
pub open spec fn branch_views(v: Seq<WorktreeEntry>) -> Seq<BranchModel> {
    v.map_values(|e: WorktreeEntry| e@)
}

/// `s` with each pair of slashes made one, from left to right.
pub open spec fn single_slashed(s: Seq<char>) -> Seq<char>
    decreases s.len(),
{
    if s.len() >= 2 && s[0] == '/' && s[1] == '/' {
        seq!['/'] + single_slashed(s.skip(2))
    } else if s.len() > 0 {
        seq![s[0]] + single_slashed(s.drop_first())
    } else {
        s
    }
}

/// `n` steps up.
pub open spec fn steps(n: nat) -> Seq<Seq<char>> {
    Seq::new(n, |i: int| ".."@)
}

/// The way from one path to another.
pub open spec fn way(path: Seq<char>, base: Seq<char>) -> Seq<char> {
    let p = paths::parts(path);
    let b = paths::parts(base);
    let k = paths::common(p, b);
    if k == b.len() {
        if p.len() == k {
            "."@
        } else {
            text::joined(paths::texts_from(p, k as int), "/"@)
        }
    } else {
        single_slashed(
            text::joined(
                steps((b.len() - k) as nat) + paths::texts_from(p, k as int),
                "/"@,
            ),
        )
    }
}

fn single_slash(s: &str) -> (r: String)
    ensures
        r@ == single_slashed(s@),
{
    let cs = text::chars_of(s);
    let n: usize = cs.len();
    let mut out = String::new();
    let mut i: usize = 0;
    assert(cs@.skip(0) =~= s@);
    assert(out@ + single_slashed(cs@.skip(0)) =~= single_slashed(s@));
    while i < n
        invariant
            i <= n == cs@.len(),
            out@ + single_slashed(cs@.skip(i as int)) == single_slashed(s@),
        decreases n - i,
    {
        let ghost before = out@;
        let ghost t = cs@.skip(i as int);
        assert(t[0] == cs@[i as int]);
        if n - i >= 2 && cs[i] == '/' && cs[i + 1] == '/' {
            assert(t[1] == cs@[i + 1]);
            out.push('/');
            assert(t.skip(2) =~= cs@.skip(i + 2));
            assert(out@ + single_slashed(cs@.skip(i + 2)) =~= before + single_slashed(t));
            i += 2;
        } else {
            out.push(cs[i]);
            proof {
                if t.len() >= 2 {
                    assert(t[1] == cs@[i + 1]);
                }
                assert(t.drop_first() =~= cs@.skip(i + 1));
                assert(out@ + single_slashed(cs@.skip(i + 1)) =~= before + single_slashed(t));
            }
            i += 1;
        }
    }
    proof {
        assert(cs@.skip(n as int) =~= Seq::empty());
        assert(out@ + Seq::<char>::empty() =~= out@);
    }
    out
}

/// The way from one path to another.
pub fn relative_to_base(path: &str, base: &str) -> (r: String)
    ensures
        r@ == way(path@, base@),
{
    let p = paths::components(path);
    let b = paths::components(base);
    let k = paths::common_parts(&p, &b);
    let rest = paths::part_texts(&p, k);
    assert(paths::part_views(p@).len() == p@.len());
    assert(paths::part_views(b@).len() == b@.len());
    if k == b.len() {
        if k == p.len() {
            return ".".to_string();
        }
        return text::join_texts(&rest, "/");
    }
    let mut all: Vec<String> = Vec::new();
    let ups: usize = b.len() - k;
    let mut i: usize = 0;
    assert(text::views(all@) =~= steps(0));
    while i < ups
        invariant
            i <= ups,
            text::views(all@) == steps(i as nat),
        decreases ups - i,
    {
        text::push_text(&mut all, "..".to_string());
        assert(steps((i + 1) as nat) =~= steps(i as nat).push(".."@));
        i += 1;
    }
    let ghost head = steps(ups as nat);
    let ghost want = text::views(rest@);
    let mut j: usize = 0;
    assert(head + want.take(0) =~= head);
    while j < rest.len()
        invariant
            j <= rest@.len(),
            want == text::views(rest@),
            text::views(all@) == head + want.take(j as int),
        decreases rest@.len() - j,
    {
        text::push_text(&mut all, rest[j].clone());
        assert(head + want.take(j + 1) =~= (head + want.take(j as int)).push(want[j as int]));
        j += 1;
    }
    assert(want.take(rest@.len() as int) =~= want);
    single_slash(text::join_texts(&all, "/").as_str())
}

/// The entry of a worktree.
pub open spec fn worktree_entry(repo: Seq<char>, path: Seq<char>, reference: Seq<char>) -> BranchModel {
    let branch = unprefixed(reference, "refs/heads/"@);
    BranchModel {
        label: way(path, repo) + " ("@ + branch + ")"@,
        path,
        branch,
        is_main: paths::parts(repo) == paths::parts(path),
        has_worktree: true,
    }
}

/// The entry of a branch without worktree.
pub open spec fn branch_entry(branch: Seq<char>) -> BranchModel {
    BranchModel {
        label: branch + " (Kein Worktree)"@,
        path: Seq::empty(),
        branch,
        is_main: false,
        has_worktree: false,
    }
}

/// What was read of a list of worktrees: the entries, and path and branch of the one that is being
/// read.
pub struct ReadModel {
    pub entries: Seq<BranchModel>,
    pub path: Option<Seq<char>>,
    pub branch: Option<Seq<char>>,
}

/// The reading after an entry has ended.
pub open spec fn entry_ended(repo: Seq<char>, m: ReadModel) -> ReadModel {
    ReadModel {
        entries: match (m.path, m.branch) {
            (Some(p), Some(b)) => m.entries.push(worktree_entry(repo, p, b)),
            _ => m.entries,
        },
        path: None,
        branch: None,
    }
}

/// The reading after one more line.
pub open spec fn line_read(repo: Seq<char>, m: ReadModel, line: Seq<char>) -> ReadModel {
    if "worktree "@.is_prefix_of(line) {
        ReadModel { path: Some(line.skip("worktree "@.len() as int)), ..m }
    } else if "branch "@.is_prefix_of(line) {
        ReadModel { branch: Some(text::trimmed(line.skip("branch "@.len() as int))), ..m }
    } else if line.len() == 0 || "bare"@.is_prefix_of(line) {
        entry_ended(repo, m)
    } else {
        m
    }
}

/// The reading after all lines.
pub open spec fn lines_read(repo: Seq<char>, lines: Seq<Seq<char>>) -> ReadModel
    decreases lines.len(),
{
    if lines.len() == 0 {
        ReadModel { entries: Seq::empty(), path: None, branch: None }
    } else {
        line_read(repo, lines_read(repo, lines.drop_last()), lines.last())
    }
}

/// The worktrees of a repository.
pub open spec fn worktrees(repo: Seq<char>, out: Option<Seq<char>>) -> Seq<BranchModel> {
    match out {
        Some(s) => entry_ended(repo, lines_read(repo, text::lines(s))).entries,
        None => Seq::empty(),
    }
}

/// Whether some entry is of the branch.
pub open spec fn has_branch(v: Seq<BranchModel>, branch: Seq<char>) -> bool {
    exists|k: int| 0 <= k < v.len() && (#[trigger] v[k]).branch == branch
}

/// The entries with those branches behind them that have none yet.
pub open spec fn with_branches(v: Seq<BranchModel>, lines: Seq<Seq<char>>) -> Seq<BranchModel>
    decreases lines.len(),
{
    if lines.len() == 0 {
        v
    } else {
        let before = with_branches(v, lines.drop_last());
        let branch = text::trimmed(lines.last());
        if branch.len() == 0 || has_branch(before, branch) {
            before
        } else {
            before.push(branch_entry(branch))
        }
    }
}

/// Whether an entry may stand before another one: the one that was asked for comes first, then the
/// other worktrees, then the branches without one; among these they go by their names.
pub open spec fn entry_le(a: BranchModel, b: BranchModel) -> bool {
    if a.is_main != b.is_main {
        a.is_main
    } else if a.has_worktree != b.has_worktree {
        a.has_worktree
    } else {
        text::text_le(a.branch, b.branch)
    }
}

/// How many entries at the beginning may stand before the given one.
pub open spec fn place_of(v: Seq<BranchModel>, e: BranchModel) -> int
    decreases v.len(),
{
    if v.len() == 0 || !entry_le(v[0], e) {
        0
    } else {
        1 + place_of(v.drop_first(), e)
    }
}

/// The entries in order; those of equal rank stay in their order.
pub open spec fn in_order(v: Seq<BranchModel>) -> Seq<BranchModel>
    decreases v.len(),
{
    if v.len() == 0 {
        v
    } else {
        let before = in_order(v.drop_last());
        before.insert(place_of(before, v.last()), v.last())
    }
}

/// Worktrees and branches of a repository.
pub open spec fn listing(
    repo: Seq<char>,
    worktree_list: Option<Seq<char>>,
    branch_list: Option<Seq<char>>,
) -> Seq<BranchModel> {
    let trees = worktrees(repo, worktree_list);
    in_order(
        match branch_list {
            Some(s) => with_branches(trees, text::lines(s)),
            None => trees,
        },
    )
}

fn make_entry(repo: &str, path: &str, reference: &str) -> (r: WorktreeEntry)
    ensures
        r@ == worktree_entry(repo@, path@, reference@),
{
    let branch = unprefix(reference, "refs/heads/");
    let mut label = text::concat3(relative_to_base(path, repo).as_str(), " (", branch.as_str());
    label.append(")");
    WorktreeEntry {
        label,
        path: path.to_string(),
        branch,
        is_main: same_path(repo, path),
        has_worktree: true,
    }
}

fn end_entry(
    repo: &str,
    entries: &mut Vec<WorktreeEntry>,
    path: &Option<String>,
    branch: &Option<String>,
)
    ensures
        branch_views(final(entries)@) == entry_ended(
            repo@,
            ReadModel {
                entries: branch_views(old(entries)@),
                path: text::opt_view(*path),
                branch: text::opt_view(*branch),
            },
        ).entries,
{
    let ghost before = entries@;
    if let Some(p) = path {
        if let Some(b) = branch {
            let e = make_entry(repo, p.as_str(), b.as_str());
            entries.push(e);
            assert(branch_views(entries@) =~= branch_views(before).push(e@));
        }
    }
}

fn read_worktrees(repo: &str, out: &str) -> (r: Vec<WorktreeEntry>)
    ensures
        branch_views(r@) == worktrees(repo@, Some(out@)),
{
    let lines = text::lines_of(out);
    let ghost want = text::lines(out@);
    let mut entries: Vec<WorktreeEntry> = Vec::new();
    let mut path: Option<String> = None;
    let mut branch: Option<String> = None;
    let mut i: usize = 0;
    assert(want.take(0) =~= Seq::empty());
    assert(branch_views(entries@) =~= Seq::empty());
    while i < lines.len()
        invariant
            i <= lines@.len(),
            want == text::views(lines@),
            lines_read(repo@, want.take(i as int)) == (ReadModel {
                entries: branch_views(entries@),
                path: text::opt_view(path),
                branch: text::opt_view(branch),
            }),
        decreases lines@.len() - i,
    {
        let line = lines[i].as_str();
        assert(want.take(i + 1).drop_last() =~= want.take(i as int));
        assert(want.take(i + 1).last() == line@);
        if let Some(p) = text::strip_prefix(line, "worktree ") {
            path = Some(p);
        } else if let Some(b) = text::strip_prefix(line, "branch ") {
            branch = Some(text::trim(b.as_str()));
        } else if line.is_empty() || text::begins_with(line, "bare") {
            end_entry(repo, &mut entries, &path, &branch);
            path = None;
            branch = None;
        }
        i += 1;
    }
    assert(want.take(lines@.len() as int) =~= want);
    end_entry(repo, &mut entries, &path, &branch);
    entries
}

fn branch_known(v: &Vec<WorktreeEntry>, branch: &str) -> (r: bool)
    ensures
        r == has_branch(branch_views(v@), branch@),
{
    let ghost want = branch_views(v@);
    let mut i: usize = 0;
    while i < v.len()
        invariant
            i <= v@.len(),
            want == branch_views(v@),
            forall|k: int| 0 <= k < i ==> (#[trigger] want[k]).branch != branch@,
        decreases v@.len() - i,
    {
        assert(want[i as int] == v@[i as int]@);
        if text::same_text(v[i].branch.as_str(), branch) {
            return true;
        }
        i += 1;
    }
    false
}

fn add_branches(entries: &mut Vec<WorktreeEntry>, out: &str)
    ensures
        branch_views(final(entries)@) == with_branches(
            branch_views(old(entries)@),
            text::lines(out@),
        ),
{
    let lines = text::lines_of(out);
    let ghost want = text::lines(out@);
    let ghost first = branch_views(entries@);
    let mut i: usize = 0;
    assert(want.take(0) =~= Seq::empty());
    while i < lines.len()
        invariant
            i <= lines@.len(),
            want == text::views(lines@),
            branch_views(entries@) == with_branches(first, want.take(i as int)),
        decreases lines@.len() - i,
    {
        let ghost before = entries@;
        assert(want.take(i + 1).drop_last() =~= want.take(i as int));
        assert(want.take(i + 1).last() == lines@[i as int]@);
        let branch = text::trim(lines[i].as_str());
        if !branch.as_str().is_empty() && !branch_known(entries, branch.as_str()) {
            let label = text::concat(branch.as_str(), " (Kein Worktree)");
            let path = String::new();
            assert(path@ =~= Seq::empty());
            let e = WorktreeEntry { label, path, branch, is_main: false, has_worktree: false };
            entries.push(e);
            assert(branch_views(entries@) =~= branch_views(before).push(e@));
        }
        i += 1;
    }
    assert(want.take(lines@.len() as int) =~= want);
}

fn may_precede(a: &WorktreeEntry, b: &WorktreeEntry) -> (r: bool)
    ensures
        r == entry_le(a@, b@),
{
    if a.is_main != b.is_main {
        a.is_main
    } else if a.has_worktree != b.has_worktree {
        a.has_worktree
    } else {
        text::not_after(a.branch.as_str(), b.branch.as_str())
    }
}

fn find_place(v: &Vec<WorktreeEntry>, e: &WorktreeEntry) -> (r: usize)
    ensures
        r <= v@.len(),
        r == place_of(branch_views(v@), e@),
{
    let ghost want = branch_views(v@);
    let mut i: usize = 0;
    assert(want.skip(0) =~= want);
    while i < v.len() && may_precede(&v[i], e)
        invariant
            i <= v@.len(),
            want == branch_views(v@),
            place_of(want, e@) == i + place_of(want.skip(i as int), e@),
        decreases v@.len() - i,
    {
        assert(want.skip(i as int)[0] == v@[i as int]@);
        assert(want.skip(i as int).drop_first() =~= want.skip(i + 1));
        i += 1;
    }
    proof {
        if i < v@.len() {
            assert(want.skip(i as int)[0] == v@[i as int]@);
        }
    }
    i
}

fn sort_entries(v: Vec<WorktreeEntry>) -> (r: Vec<WorktreeEntry>)
    ensures
        branch_views(r@) == in_order(branch_views(v@)),
{
    let ghost want = branch_views(v@);
    let mut out: Vec<WorktreeEntry> = Vec::new();
    let mut i: usize = 0;
    assert(want.take(0) =~= Seq::empty());
    assert(branch_views(out@) =~= Seq::empty());
    while i < v.len()
        invariant
            i <= v@.len(),
            want == branch_views(v@),
            branch_views(out@) == in_order(want.take(i as int)),
        decreases v@.len() - i,
    {
        let ghost before = out@;
        assert(want.take(i + 1).drop_last() =~= want.take(i as int));
        assert(want.take(i + 1).last() == v@[i as int]@);
        let k = find_place(&out, &v[i]);
        let e = v[i].clone();
        out.insert(k, e);
        assert(branch_views(out@) =~= branch_views(before).insert(k as int, e@));
        i += 1;
    }
    assert(want.take(v@.len() as int) =~= want);
    out
}

/// Worktrees and branches of a repository: the one that was asked for first, then the other
/// worktrees, then the branches without one, each by their names.
/// `worktree_list` and `branch_list` are what `git` printed, where it ran well.
pub fn git_list_worktrees_and_branches(
    repo: &str,
    worktree_list: Option<&str>,
    branch_list: Option<&str>,
) -> (r: Vec<WorktreeEntry>)
    ensures
        branch_views(r@) == listing(
            repo@,
            config::opt_str(worktree_list),
            config::opt_str(branch_list),
        ),
{
    let mut entries: Vec<WorktreeEntry> = match worktree_list {
        Some(s) => read_worktrees(repo, s),
        None => {
            let v: Vec<WorktreeEntry> = Vec::new();
            assert(branch_views(v@) =~= Seq::empty());
            v
        },
    };
    if let Some(s) = branch_list {
        add_branches(&mut entries, s);
    }
    sort_entries(entries)
}

/// What stands at `.git` in a directory.
#[derive(Debug, PartialEq)]
pub enum GitMarker {
    Missing,
    Dir,
    /// A file, with what it holds where it could be read.
    File(Option<String>),
}

/// Whether a directory is the root of a repository.
#[derive(Debug, PartialEq)]
pub enum RepoRoot {
    No,
    Yes,
    /// Yes, where this path is there.
    IfExists(String),
}

/// Whether a directory is the root of a repository.
pub enum RootModel {
    No,
    Yes,
    IfExists(Seq<char>),
}

impl View for RepoRoot {
    type V = RootModel;

    open spec fn view(&self) -> RootModel {
        match self {
            RepoRoot::No => RootModel::No,
            RepoRoot::Yes => RootModel::Yes,
            RepoRoot::IfExists(p) => RootModel::IfExists(p@),
        }
    }
}

/// The position of the first line that begins with `p`, or how many lines there are.
pub open spec fn line_at(lines: Seq<Seq<char>>, p: Seq<char>) -> int
    decreases lines.len(),
{
    if lines.len() == 0 || p.is_prefix_of(lines[0]) {
        0
    } else {
        1 + line_at(lines.drop_first(), p)
    }
}

/// `s` without each `p` that it begins with.
pub open spec fn all_unprefixed(s: Seq<char>, p: Seq<char>) -> Seq<char>
    decreases s.len(),
{
    if p.len() > 0 && p.is_prefix_of(s) {
        all_unprefixed(s.skip(p.len() as int), p)
    } else {
        s
    }
}

/// The directory that a pointer file names.
pub open spec fn pointer_of(path: Seq<char>, content: Seq<char>) -> Option<Seq<char>> {
    let lines = text::lines(content);
    let k = line_at(lines, "gitdir:"@);
    if k < lines.len() {
        let dir = text::trimmed(all_unprefixed(lines[k], "gitdir:"@));
        Some(
            if dir.len() > 0 && dir[0] == '/' {
                dir
            } else {
                config::below(path, dir)
            },
        )
    } else {
        None
    }
}

/// Whether a directory is the root of a repository: it holds the repository itself, or a pointer
/// to a place that is there.
pub open spec fn repo_root(path: Seq<char>, marker: GitMarker) -> RootModel {
    match marker {
        GitMarker::Missing => RootModel::No,
        GitMarker::Dir => RootModel::Yes,
        GitMarker::File(None) => RootModel::No,
        GitMarker::File(Some(content)) => match pointer_of(path, content@) {
            Some(p) => RootModel::IfExists(p),
            None => RootModel::No,
        },
    }
}

proof fn lemma_line_at_is(lines: Seq<Seq<char>>, p: Seq<char>, k: int)
    requires
        0 <= k <= lines.len(),
        k < lines.len() ==> p.is_prefix_of(lines[k]),
        forall|i: int| 0 <= i < k ==> !p.is_prefix_of(#[trigger] lines[i]),
    ensures
        line_at(lines, p) == k,
    decreases lines.len(),
{
    if k > 0 {
        assert(!p.is_prefix_of(lines[0]));
        let t = lines.drop_first();
        assert forall|i: int| 0 <= i < k - 1 implies !p.is_prefix_of(#[trigger] t[i]) by {
            assert(t[i] == lines[i + 1]);
        }
        lemma_line_at_is(t, p, k - 1);
    }
}

fn unprefix_all(s: &str, p: &str) -> (r: String)
    requires
        p@.len() > 0,
    ensures
        r@ == all_unprefixed(s@, p@),
{
    let mut rest = s.to_string();
    loop
        invariant
            p@.len() > 0,
            all_unprefixed(rest@, p@) == all_unprefixed(s@, p@),
        decreases rest@.len(),
    {
        match text::strip_prefix(rest.as_str(), p) {
            Some(t) => {
                rest = t;
            },
            None => {
                return rest;
            },
        }
    }
}

fn pointer(path: &str, content: &str) -> (r: Option<String>)
    ensures
        text::opt_view(r) == pointer_of(path@, content@),
{
    let lines = text::lines_of(content);
    let ghost want = text::lines(content@);
    let mut i: usize = 0;
    while i < lines.len()
        invariant
            i <= lines@.len(),
            want == text::views(lines@),
            want == text::lines(content@),
            forall|k: int| 0 <= k < i ==> !"gitdir:"@.is_prefix_of(#[trigger] want[k]),
        decreases lines@.len() - i,
    {
        assert(want[i as int] == lines@[i as int]@);
        if text::begins_with(lines[i].as_str(), "gitdir:") {
            proof {
                lemma_line_at_is(want, "gitdir:"@, i as int);
                reveal_strlit("gitdir:");
            }
            let dir = text::trim(unprefix_all(lines[i].as_str(), "gitdir:").as_str());
            let cs = text::chars_of(dir.as_str());
            if cs.len() > 0 && cs[0] == '/' {
                return Some(dir);
            }
            return Some(config::path_below(path, dir.as_str()));
        }
        i += 1;
    }
    proof {
        lemma_line_at_is(want, "gitdir:"@, want.len() as int);
    }
    None
}

/// Whether a directory is the root of a repository. A directory below a root is none.
pub fn is_repo_root(path: &str, marker: &GitMarker) -> (r: RepoRoot)
    ensures
        r@ == repo_root(path@, *marker),
{
    match marker {
        GitMarker::Missing => RepoRoot::No,
        GitMarker::Dir => RepoRoot::Yes,
        GitMarker::File(None) => RepoRoot::No,
        GitMarker::File(Some(content)) => match pointer(path, content.as_str()) {
            Some(p) => RepoRoot::IfExists(p),
            None => RepoRoot::No,
        },
    }
}

// ---------------------------------------------------------------------------
// Images for paths
// ---------------------------------------------------------------------------
/// The image of an entry of the configuration.
pub open spec fn entry_image(paths: Seq<(Seq<char>, PathEntry)>, key: Seq<char>) -> Option<Seq<char>> {
    match table::lookup(paths, key) {
        Some(e) => text::opt_view(e.image),
        None => None,
    }
}

/// The image of the first path that belongs to the repository `top`.
pub open spec fn image_of_repo(
    config_paths: Seq<(Seq<char>, PathEntry)>,
    keys: Seq<Seq<char>>,
    tops: Seq<Option<Seq<char>>>,
    top: Seq<char>,
) -> Option<Seq<char>>
    decreases keys.len(),
{
    if keys.len() == 0 || tops.len() == 0 {
        None
    } else {
        match (entry_image(config_paths, keys[0]), tops[0]) {
            (Some(img), Some(t)) if paths::parts(t) == paths::parts(top) => Some(img),
            _ => image_of_repo(config_paths, keys.drop_first(), tops.drop_first(), top),
        }
    }
}

/// The image for a path: the one of its own entry, else that of the first entry, by name, in the
/// same repository.
pub open spec fn image_for(
    config_paths: Seq<(Seq<char>, PathEntry)>,
    path: Seq<char>,
    top: Option<Seq<char>>,
    keys: Seq<Seq<char>>,
    tops: Seq<Option<Seq<char>>>,
) -> Option<Seq<char>> {
    match entry_image(config_paths, path) {
        Some(img) => Some(img),
        None => match top {
            Some(t) => image_of_repo(config_paths, keys, tops, t),
            None => None,
        },
    }
}

/// What a list of texts that may be missing holds.
pub open spec fn opt_views(v: Seq<Option<String>>) -> Seq<Option<Seq<char>>> {
    v.map_values(|o: Option<String>| text::opt_view(o))
}

/// The paths of the configuration in order.
pub fn path_keys(config: &Config) -> (r: Vec<String>)
    ensures
        text::strictly_sorted(text::views(r@)),
        text::views(r@).to_set() == table::keys(config.paths@).to_set(),
{
    let names = config.paths.names();
    text::sort_unique(&names)
}

/// The image for a path. `top` is the root of its repository, and `tops` gives that of each of the
/// `keys`, the paths of the configuration in order.
pub fn default_image_for_path(
    config: &Config,
    path: &str,
    top: Option<&str>,
    keys: &Vec<String>,
    tops: &Vec<Option<String>>,
) -> (r: Option<String>)
    ensures
        text::opt_view(r) == image_for(
            config.paths@,
            path@,
            crate::config::opt_str(top),
            text::views(keys@),
            opt_views(tops@),
        ),
{
    if let Some(e) = config.paths.get(path) {
        if let Some(img) = &e.image {
            return Some(img.clone());
        }
    }
    let repo = match top {
        Some(t) => t,
        None => {
            return None;
        },
    };
    let ghost ks = text::views(keys@);
    let ghost ts = opt_views(tops@);
    let mut i: usize = 0;
    assert(ks.skip(0) =~= ks);
    assert(ts.skip(0) =~= ts);
    while i < keys.len() && i < tops.len()
        invariant
            i <= keys@.len(),
            i <= tops@.len(),
            ks == text::views(keys@),
            ts == opt_views(tops@),
            entry_image(config.paths@, path@) is None,
            crate::config::opt_str(top) == Some(repo@),
            image_of_repo(config.paths@, ks.skip(i as int), ts.skip(i as int), repo@)
                == image_of_repo(config.paths@, ks, ts, repo@),
        decreases keys@.len() - i,
    {
        assert(ks.skip(i as int)[0] == keys@[i as int]@);
        assert(ts.skip(i as int)[0] == text::opt_view(tops@[i as int]));
        assert(ks.skip(i as int).drop_first() =~= ks.skip(i + 1));
        assert(ts.skip(i as int).drop_first() =~= ts.skip(i + 1));
        if let Some(e) = config.paths.get(keys[i].as_str()) {
            if let Some(img) = &e.image {
                if let Some(t) = &tops[i] {
                    if same_path(t.as_str(), repo) {
                        return Some(img.clone());
                    }
                }
            }
        }
        i += 1;
    }
    None
}

/// The folder that stands for a path in names: that of its repository where it is the root of one,
/// else its own.
pub open spec fn base_name(path: Seq<char>, top: Option<Seq<char>>) -> Seq<char> {
    let from = match top {
        Some(t) => t,
        None => path,
    };
    match paths::name_of(from) {
        Some(n) => n,
        None => "app"@,
    }
}

/// The folder that stands for a path in names. `top` is the root of its repository, where the path
/// is the root of one.
pub fn base_name_for(path: &str, top: Option<&str>) -> (r: String)
    ensures
        r@ == base_name(path@, config::opt_str(top)),
{
    let from = match top {
        Some(t) => t,
        None => path,
    };
    match paths::file_name(from) {
        Some(n) => n,
        None => "app".to_string(),
    }
}

// ---------------------------------------------------------------------------
// Laws
// ---------------------------------------------------------------------------
/// Meaning the same image is an equivalence.
pub proof fn law_same_image_is_an_equivalence(a: Seq<char>, b: Seq<char>, c: Seq<char>)
    ensures
        same_image(a, a),
        same_image(a, b) == same_image(b, a),
        same_image(a, b) && same_image(b, c) ==> same_image(a, c),
{
}

proof fn lemma_place_of(v: Seq<BranchModel>, e: BranchModel)
    ensures
        0 <= place_of(v, e) <= v.len(),
        forall|i: int| 0 <= i < place_of(v, e) ==> entry_le(#[trigger] v[i], e),
        place_of(v, e) < v.len() ==> !entry_le(v[place_of(v, e)], e),
    decreases v.len(),
{
    if v.len() > 0 && entry_le(v[0], e) {
        let t = v.drop_first();
        lemma_place_of(t, e);
        assert forall|i: int| 0 <= i < place_of(v, e) implies entry_le(#[trigger] v[i], e) by {
            if i > 0 {
                assert(v[i] == t[i - 1]);
            }
        }
    }
}

proof fn lemma_entry_le_total(a: BranchModel, b: BranchModel)
    ensures
        entry_le(a, b) || entry_le(b, a),
{
    text::lemma_text_le_total(a.branch, b.branch);
}

proof fn lemma_entry_le_transitive(a: BranchModel, b: BranchModel, c: BranchModel)
    requires
        entry_le(a, b),
        entry_le(b, c),
    ensures
        entry_le(a, c),
{
    if a.is_main == c.is_main && a.has_worktree == c.has_worktree {
        text::lemma_text_le_transitive(a.branch, b.branch, c.branch);
    }
}

/// Worktrees and branches come in order, and none is added or lost.
pub proof fn law_listings_are_in_order(v: Seq<BranchModel>)
    ensures
        forall|i: int, j: int|
            0 <= i < j < in_order(v).len() ==> entry_le(
                #[trigger] in_order(v)[i],
                #[trigger] in_order(v)[j],
            ),
        in_order(v).to_multiset() == v.to_multiset(),
    decreases v.len(),
{
    broadcast use vstd::seq_lib::group_to_multiset_ensures;

    if v.len() > 0 {
        let t = v.drop_last();
        let e = v.last();
        law_listings_are_in_order(t);
        let before = in_order(t);
        let k = place_of(before, e);
        lemma_place_of(before, e);
        let after = in_order(v);
        assert forall|i: int, j: int| 0 <= i < j < after.len() implies entry_le(
            #[trigger] after[i],
            #[trigger] after[j],
        ) by {
            let bi = if i < k {
                i
            } else {
                i - 1
            };
            let bj = if j < k {
                j
            } else {
                j - 1
            };
            if j == k {
                assert(entry_le(before[bi], e));
            } else if i == k {
                lemma_entry_le_total(before[k], e);
                if bj > k {
                    assert(entry_le(before[k], before[bj]));
                    lemma_entry_le_transitive(e, before[k], before[bj]);
                }
            } else {
                assert(entry_le(before[bi], before[bj]));
            }
        }
        assert(v =~= t.push(e));
        before.to_multiset_ensures();
        assert(after.to_multiset() =~= before.to_multiset().insert(e));
        assert(v.to_multiset() =~= t.to_multiset().insert(e));
    }
}

proof fn lemma_worktrees_are_worktrees(repo: Seq<char>, lines: Seq<Seq<char>>, k: int)
    requires
        0 <= k < lines_read(repo, lines).entries.len(),
    ensures
        lines_read(repo, lines).entries[k].has_worktree,
    decreases lines.len(),
{
    let before = lines_read(repo, lines.drop_last()).entries;
    if k < before.len() {
        lemma_worktrees_are_worktrees(repo, lines.drop_last(), k);
    }
}

/// Whether only worktrees are marked as the one that was asked for.
pub open spec fn mains_are_worktrees(v: Seq<BranchModel>) -> bool {
    forall|k: int| 0 <= k < v.len() && (#[trigger] v[k]).is_main ==> v[k].has_worktree
}

proof fn lemma_branches_are_no_mains(v: Seq<BranchModel>, lines: Seq<Seq<char>>)
    requires
        mains_are_worktrees(v),
    ensures
        mains_are_worktrees(with_branches(v, lines)),
    decreases lines.len(),
{
    if lines.len() > 0 {
        lemma_branches_are_no_mains(v, lines.drop_last());
    }
}

proof fn lemma_order_keeps_mains(v: Seq<BranchModel>)
    requires
        mains_are_worktrees(v),
    ensures
        mains_are_worktrees(in_order(v)),
    decreases v.len(),
{
    if v.len() > 0 {
        let t = v.drop_last();
        assert forall|k: int| 0 <= k < t.len() && (#[trigger] t[k]).is_main implies t[k].has_worktree by {
            assert(v[k].is_main);
        }
        lemma_order_keeps_mains(t);
        let before = in_order(t);
        let at = place_of(before, v.last());
        lemma_place_of(before, v.last());
        let after = in_order(v);
        assert forall|k: int| 0 <= k < after.len() && (#[trigger] after[k]).is_main implies after[k].has_worktree by {
            if k < at {
                assert(after[k] == before[k]);
            } else if k == at {
                assert(after[k] == v[v.len() - 1]);
            } else {
                assert(after[k] == before[k - 1]);
            }
        }
    }
}

/// Worktrees are listed first, and the branches without one behind them.
pub proof fn law_worktrees_are_listed_first(
    repo: Seq<char>,
    worktree_list: Option<Seq<char>>,
    branch_list: Option<Seq<char>>,
    i: int,
    j: int,
)
    requires
        0 <= i < j < listing(repo, worktree_list, branch_list).len(),
        listing(repo, worktree_list, branch_list)[j].has_worktree,
    ensures
        listing(repo, worktree_list, branch_list)[i].has_worktree,
{
    let trees = worktrees(repo, worktree_list);
    if let Some(s) = worktree_list {
        let m = lines_read(repo, text::lines(s));
        assert forall|k: int| 0 <= k < trees.len() implies (#[trigger] trees[k]).has_worktree by {
            if k < m.entries.len() {
                lemma_worktrees_are_worktrees(repo, text::lines(s), k);
            }
        }
    }
    assert(mains_are_worktrees(trees));
    let all = match branch_list {
        Some(s) => with_branches(trees, text::lines(s)),
        None => trees,
    };
    if let Some(s) = branch_list {
        lemma_branches_are_no_mains(trees, text::lines(s));
    }
    lemma_order_keeps_mains(all);
    law_listings_are_in_order(all);
    assert(entry_le(in_order(all)[i], in_order(all)[j]));
}

/// No branch is listed twice beside those that have a worktree.
pub proof fn law_branches_are_listed_once(v: Seq<BranchModel>, lines: Seq<Seq<char>>, i: int, j: int)
    requires
        v.len() <= i < with_branches(v, lines).len(),
        0 <= j < i,
    ensures
        with_branches(v, lines)[i].branch != with_branches(v, lines)[j].branch,
        !with_branches(v, lines)[i].has_worktree,
    decreases lines.len(),
{
    if lines.len() > 0 {
        let before = with_branches(v, lines.drop_last());
        if i < before.len() {
            law_branches_are_listed_once(v, lines.drop_last(), i, j);
        } else {
            assert(before[j].branch != text::trimmed(lines.last()));
        }
    }
}

/// No path is offered twice.
pub proof fn law_paths_are_offered_once(v: Seq<Seq<char>>, i: int, j: int)
    requires
        0 <= j < i < distinct_paths(v).len(),
    ensures
        paths::parts(distinct_paths(v)[i]) != paths::parts(distinct_paths(v)[j]),
    decreases v.len(),
{
    let before = distinct_paths(v.drop_last());
    if i < before.len() {
        law_paths_are_offered_once(v.drop_last(), i, j);
    } else {
        assert(!has_path(before, v.last()));
        assert(paths::parts(before[j]) != paths::parts(v.last()));
    }
}

/// The short name of an image is what stands between its last slash and its tag.
pub proof fn law_the_short_name_of_an_image(a: Seq<char>, name: Seq<char>, tag: Seq<char>)
    requires
        !name.contains('/'),
        !name.contains(':'),
        !tag.contains('/'),
    ensures
        short_name(a + seq!['/'] + name + seq![':'] + tag) == name,
        short_name(a + seq!['/'] + name) == name,
        short_name(name + seq![':'] + tag) == name,
        short_name(name) == name,
{
    let tagged = name + seq![':'] + tag;
    assert(!tagged.contains('/')) by {
        if tagged.contains('/') {
            let k = choose|k: int| 0 <= k < tagged.len() && tagged[k] == '/';
            if k < name.len() {
                assert(name[k] == '/');
            } else if k > name.len() {
                assert(tag[k - name.len() - 1] == '/');
            }
        }
    }
    paths::law_the_last_name_begins_behind_the_last_slash(a, tagged);
    paths::law_the_last_name_begins_behind_the_last_slash(a, name);
    text::law_texts_are_cut_at_the_first(name, tag, ':');
    let long = a + seq!['/'] + name + seq![':'] + tag;
    assert(long =~= a + seq!['/'] + tagged);
    assert(long.skip((a.len() + 1) as int) =~= tagged);
    assert(tagged.take(name.len() as int) =~= name);
    assert((a + seq!['/'] + name).skip((a.len() + 1) as int) =~= name);
    assert(name.take(name.len() as int) =~= name);
    assert(tagged.skip(0) =~= tagged);
    assert(name.skip(0) =~= name);
}

proof fn lemma_not_prefixed(p: Seq<char>, s: Seq<char>, k: int)
    requires
        0 <= k < p.len(),
        k < s.len() ==> p[k] != s[k],
    ensures
        !p.is_prefix_of(s),
{
    if p.is_prefix_of(s) {
        assert(p[k] == s.take(p.len() as int)[k]);
    }
}

/// An image means the same with and without the registry that is meant where none is named, and with
/// and without the tag of the latest one.
pub proof fn law_images_mean_the_same_without_registry_and_tag(n: Seq<char>)
    requires
        n.len() > 0,
        !text::is_white(n[0]),
        !text::is_white(n.last()),
        !"docker.io/"@.is_prefix_of(n),
        !"localhost/"@.is_prefix_of(n),
        !"library/"@.is_prefix_of(n),
        !":latest"@.is_suffix_of(n),
    ensures
        same_image(n, "docker.io/library/"@ + n),
        same_image(n, "docker.io/"@ + n),
        same_image(n, "localhost/"@ + n),
        same_image(n, n + ":latest"@),
        normal_name(n) == n,
{
    lemma_bare_name(n);
    lemma_library_name(n);
    lemma_registry_name(n);
    lemma_local_name(n);
    lemma_latest_name(n);
}

proof fn lemma_bare_name(n: Seq<char>)
    requires
        n.len() > 0,
        !text::is_white(n[0]),
        !text::is_white(n.last()),
        !"docker.io/"@.is_prefix_of(n),
        !"localhost/"@.is_prefix_of(n),
        !"library/"@.is_prefix_of(n),
        !":latest"@.is_suffix_of(n),
    ensures
        !"docker.io/library/"@.is_prefix_of(n),
        normal_name(n) == n,
{
    let long = "docker.io/library/"@;
    let short = "docker.io/"@;
    assert(long.take(10) =~= short && short.len() == 10 && long.len() == 18) by {
        reveal_strlit("docker.io/library/");
        reveal_strlit("docker.io/");
    }
    if long.is_prefix_of(n) {
        assert(long =~= n.take(18));
        assert(n.take(10) =~= long.take(10));
    }
    text::lemma_trimmed_keeps(n);
}

proof fn lemma_library_name(n: Seq<char>)
    requires
        n.len() > 0,
        !text::is_white(n[0]),
        !text::is_white(n.last()),
        !"docker.io/"@.is_prefix_of(n),
        !"localhost/"@.is_prefix_of(n),
        !"library/"@.is_prefix_of(n),
        !":latest"@.is_suffix_of(n),
    ensures
        normal_name("docker.io/library/"@ + n) == n,
{
    let long = "docker.io/library/"@;
    assert(long.len() > 0 && long[0] == 'd') by {
        reveal_strlit("docker.io/library/");
    }
    lemma_bare_name(n);
    lemma_prefixed(n, long);
}

#[verifier::rlimit(40)]
proof fn lemma_registry_name(n: Seq<char>)
    requires
        n.len() > 0,
        !text::is_white(n[0]),
        !text::is_white(n.last()),
        !"docker.io/"@.is_prefix_of(n),
        !"localhost/"@.is_prefix_of(n),
        !"library/"@.is_prefix_of(n),
        !":latest"@.is_suffix_of(n),
    ensures
        normal_name("docker.io/"@ + n) == n,
{
    let long = "docker.io/library/"@;
    let short = "docker.io/"@;
    let middle = "library/"@;
    assert(short.len() == 10 && middle.len() == 8 && short[0] == 'd' && long =~= short + middle) by {
        reveal_strlit("docker.io/library/");
        reveal_strlit("docker.io/");
        reveal_strlit("library/");
    }
    let s = short + n;
    if long.is_prefix_of(s) {
        assert(long =~= s.take(18));
        assert(middle =~= n.take(8)) by {
            assert forall|k: int| 0 <= k < 8 implies middle[k] == n.take(8)[k] by {
                assert(long[k + 10] == s.take(18)[k + 10]);
            }
        }
    }
    lemma_bare_name(n);
    lemma_prefixed(n, short);
}

proof fn lemma_local_name(n: Seq<char>)
    requires
        n.len() > 0,
        !text::is_white(n[0]),
        !text::is_white(n.last()),
        !"docker.io/"@.is_prefix_of(n),
        !"localhost/"@.is_prefix_of(n),
        !"library/"@.is_prefix_of(n),
        !":latest"@.is_suffix_of(n),
    ensures
        normal_name("localhost/"@ + n) == n,
{
    let long = "docker.io/library/"@;
    let short = "docker.io/"@;
    let local = "localhost/"@;
    assert(long.len() > 0 && short.len() > 0 && local.len() > 0 && long[0] == 'd' && short[0] == 'd'
        && local[0] == 'l') by {
        reveal_strlit("docker.io/library/");
        reveal_strlit("docker.io/");
        reveal_strlit("localhost/");
    }
    lemma_not_prefixed(long, local + n, 0);
    lemma_not_prefixed(short, local + n, 0);
    lemma_prefixed(n, local);
}

#[verifier::rlimit(40)]
proof fn lemma_latest_name(n: Seq<char>)
    requires
        n.len() > 0,
        !text::is_white(n[0]),
        !text::is_white(n.last()),
        !"docker.io/"@.is_prefix_of(n),
        !"localhost/"@.is_prefix_of(n),
        !"library/"@.is_prefix_of(n),
        !":latest"@.is_suffix_of(n),
    ensures
        normal_name(n + ":latest"@) == n,
{
    let long = "docker.io/library/"@;
    let short = "docker.io/"@;
    let local = "localhost/"@;
    let tag = ":latest"@;
    assert(tag.len() == 7 && tag[0] == ':' && tag[6] == 't') by {
        reveal_strlit(":latest");
    }
    assert(!long.contains(':')) by {
        reveal_strlit("docker.io/library/");
    }
    assert(!short.contains(':')) by {
        reveal_strlit("docker.io/");
    }
    assert(!local.contains(':')) by {
        reveal_strlit("localhost/");
    }
    let latest = n + tag;
    assert(latest[0] == n[0]);
    assert(latest.last() == 't');
    text::lemma_trimmed_keeps(latest);
    lemma_bare_name(n);
    lemma_front_of(n, tag, long);
    lemma_front_of(n, tag, short);
    lemma_front_of(n, tag, local);
    assert(latest.take(latest.len() - tag.len()) =~= n);
    assert(tag =~= latest.subrange(latest.len() - tag.len(), latest.len() as int));
}

proof fn lemma_prefixed(n: Seq<char>, p: Seq<char>)
    requires
        n.len() > 0,
        !text::is_white(n.last()),
        p.len() > 0,
        !text::is_white(p[0]),
    ensures
        text::trimmed(p + n) == p + n,
        p.is_prefix_of(p + n),
        (p + n).skip(p.len() as int) == n,
{
    let s = p + n;
    assert(s[0] == p[0]);
    assert(s.last() == n.last());
    text::lemma_trimmed_keeps(s);
    assert(p =~= s.take(p.len() as int));
    assert(s.skip(p.len() as int) =~= n);
}

proof fn lemma_front_of(n: Seq<char>, tail: Seq<char>, p: Seq<char>)
    requires
        !p.is_prefix_of(n),
        tail.len() > 0,
        !p.contains(tail[0]),
    ensures
        !p.is_prefix_of(n + tail),
{
    let s = n + tail;
    if p.is_prefix_of(s) {
        assert(p =~= s.take(p.len() as int));
        if p.len() <= n.len() {
            assert(n.take(p.len() as int) =~= s.take(p.len() as int));
        } else {
            assert(p[n.len() as int] == s[n.len() as int]);
            assert(p.contains(tail[0]));
        }
    }
}

/// Every image that is listed is offered under its normal name; what has no name is not.
pub proof fn law_listed_images_are_offered(lines: Seq<Seq<char>>, line: Seq<char>)
    ensures
        listed_images(Seq::empty()).len() == 0,
        ({
            let t = text::trimmed(line);
            let n = normal_name(t);
            let named = t.len() > 0 && !text::holds(t, "<none>"@) && n.len() > 0 && !text::holds(
                n,
                "<none>"@,
            );
            &&& named ==> listed_images(lines.push(line)) == listed_images(lines).push(n)
            &&& !named ==> listed_images(lines.push(line)) == listed_images(lines)
        }),
{
    assert(lines.push(line).drop_last() =~= lines);
}

/// A listed container is its name and its state, around the bar.
pub proof fn law_listed_containers_have_a_state(
    lines: Seq<Seq<char>>,
    name: Seq<char>,
    status: Seq<char>,
)
    requires
        !name.contains('|'),
    ensures
        listed_containers(lines.push(name + seq!['|'] + status)) == listed_containers(lines).push(
            (text::trimmed(name), text::trimmed(status)),
        ),
        listed_containers(lines.push(name)) == listed_containers(lines),
        listed_containers(Seq::empty()).len() == 0,
{
    text::law_texts_are_cut_at_the_first(name, status, '|');
    assert(lines.push(name + seq!['|'] + status).drop_last() =~= lines);
    assert(lines.push(name).drop_last() =~= lines);
}

/// A container fits where the directory is mounted in it and its image means the same; then it is
/// known by its name, by whether it runs, and by where the directory is in it.
pub proof fn law_a_container_fits_by_mount_and_image(
    entry: (Seq<char>, Seq<char>),
    out: super::RunModel,
    path: Seq<char>,
    img: Seq<char>,
    mounts: Seq<char>,
    wanted: Seq<char>,
    e: Seq<char>,
)
    requires
        !img.contains('|'),
        out.stdout == img + seq!['|'] + mounts,
    ensures
        ({
            let r = fitting(entry, Ok(out), path, Some(wanted));
            let dst = mount_of(run::words(mounts), text::trimmed_end_of(path, '/'));
            let fits = out.exit_code == Some(0i32) && dst is Some && same_image(
                text::trimmed(img),
                wanted,
            );
            &&& fits <==> r is Some
            &&& fits ==> (r->0).name == entry.0
            &&& fits ==> (r->0).mount_destination == dst
            &&& fits && "Up"@.is_prefix_of(entry.1) ==> (r->0).status == "running"@
            &&& fits && !"Up"@.is_prefix_of(entry.1) ==> (r->0).status == "stopped"@
        }),
        fitting(entry, Err(e), path, Some(wanted)) is None,
{
    text::law_texts_are_cut_at_the_first(img, mounts, '|');
}

/// The directory is mounted where the first mount of it says, with or without a slash at its end.
pub proof fn law_mounts_are_found_by_their_source(
    src: Seq<char>,
    dst: Seq<char>,
    rest: Seq<Seq<char>>,
)
    requires
        !src.contains(':'),
        src.len() > 0,
        src.last() != '/',
        src[0] != '/',
    ensures
        mount_of(seq![src + seq![':'] + dst] + rest, src) == Some(dst),
        mount_of(Seq::empty(), src) is None,
{
    let m = seq![src + seq![':'] + dst] + rest;
    text::law_texts_are_cut_at_the_first(src, dst, ':');
    assert(text::trimmed_end_of(src, '/') == src);
    assert(m[0] == src + seq![':'] + dst);
}

/// The first container that fits is taken.
pub proof fn law_the_first_fitting_container_is_taken(
    entry: (Seq<char>, Seq<char>),
    inspect: Result<super::RunModel, Seq<char>>,
    entries: Seq<(Seq<char>, Seq<char>)>,
    inspects: Seq<Result<super::RunModel, Seq<char>>>,
    path: Seq<char>,
    image: Option<Seq<char>>,
)
    ensures
        fitting(entry, inspect, path, image) is Some ==> first_fitting(
            seq![entry] + entries,
            seq![inspect] + inspects,
            path,
            image,
        ) == fitting(entry, inspect, path, image),
        fitting(entry, inspect, path, image) is None ==> first_fitting(
            seq![entry] + entries,
            seq![inspect] + inspects,
            path,
            image,
        ) == first_fitting(entries, inspects, path, image),
        first_fitting(Seq::empty(), inspects, path, image) is None,
{
    assert((seq![entry] + entries).drop_first() =~= entries);
    assert((seq![inspect] + inspects).drop_first() =~= inspects);
}

/// A container of one's own is named by the program, the folder, the branch where there is one and
/// the image, in a form that is a name everywhere.
pub proof fn law_own_containers_are_named_by_folder_branch_and_image(
    folder: Seq<char>,
    branch: Seq<char>,
    image: Seq<char>,
    root: Seq<char>,
)
    ensures
        container_name(folder, Some(branch), image) == run::word_name(
            "aidev-"@ + folder + "-"@ + branch + "-"@ + short_name(image),
        ),
        container_name(folder, None, image) == run::word_name(
            "aidev-"@ + folder + "-"@ + short_name(image),
        ),
        channel_name(image, root) == short_name(image) + " "@ + root,
{
}

/// A worktree is read from its lines: its directory and its branch, whose long name is shortened; it
/// is the one that was asked for where the directories are the same.
#[verifier::rlimit(40)]
pub proof fn law_worktrees_are_read_from_their_lines(
    repo: Seq<char>,
    lines: Seq<Seq<char>>,
    path: Seq<char>,
    branch: Seq<char>,
)
    requires
        branch.len() > 0,
        !text::is_white(branch.last()),
        lines_read(repo, lines).path is None,
        lines_read(repo, lines).branch is None,
    ensures
        ({
            let more = lines.push("worktree "@ + path).push("branch "@ + "refs/heads/"@ + branch).push(
                Seq::empty(),
            );
            let before = lines_read(repo, lines).entries;
            let after = lines_read(repo, more).entries;
            &&& after.len() == before.len() + 1
            &&& after.drop_last() == before
            &&& after.last().path == path
            &&& after.last().branch == branch
            &&& after.last().has_worktree
            &&& after.last().is_main <==> paths::parts(repo) == paths::parts(path)
            &&& after.last().label == way(path, repo) + " ("@ + branch + ")"@
        }),
{
    reveal_strlit("worktree ");
    reveal_strlit("branch ");
    reveal_strlit("refs/heads/");
    reveal_strlit("bare");
    let a = "worktree "@ + path;
    let b = "branch "@ + "refs/heads/"@ + branch;
    let one = lines.push(a);
    let two = one.push(b);
    let three = two.push(Seq::empty());
    assert(one.drop_last() =~= lines);
    assert(two.drop_last() =~= one);
    assert(three.drop_last() =~= two);
    assert("worktree "@ =~= a.take("worktree "@.len() as int));
    assert(a.skip("worktree "@.len() as int) =~= path);
    assert(b[0] == 'b');
    lemma_not_prefixed("worktree "@, b, 0);
    assert("branch "@ =~= b.take("branch "@.len() as int));
    let reference = "refs/heads/"@ + branch;
    assert(b.skip("branch "@.len() as int) =~= reference);
    assert(reference[0] == 'r');
    assert(reference.last() == branch.last());
    text::lemma_trimmed_keeps(reference);
    assert("refs/heads/"@ =~= reference.take("refs/heads/"@.len() as int));
    assert(reference.skip("refs/heads/"@.len() as int) =~= branch);
    let none = Seq::<char>::empty();
    lemma_not_prefixed("worktree "@, none, 0);
    lemma_not_prefixed("branch "@, none, 0);
    let m1 = lines_read(repo, one);
    assert(m1.path == Some(path));
    let m2 = lines_read(repo, two);
    assert(m2.path == Some(path) && m2.branch == Some(reference));
    let m3 = lines_read(repo, three);
    assert(m3 == entry_ended(repo, m2));
    assert(m3.entries.drop_last() =~= lines_read(repo, lines).entries);
}

/// A branch without a worktree is offered as such, once; one that has a worktree is not offered
/// again.
pub proof fn law_branches_without_worktree_are_offered(
    v: Seq<BranchModel>,
    lines: Seq<Seq<char>>,
    line: Seq<char>,
)
    ensures
        ({
            let before = with_branches(v, lines);
            let after = with_branches(v, lines.push(line));
            let name = text::trimmed(line);
            &&& name.len() > 0 && !has_branch(before, name) ==> after == before.push(
                BranchModel {
                    label: name + " (Kein Worktree)"@,
                    path: Seq::empty(),
                    branch: name,
                    is_main: false,
                    has_worktree: false,
                },
            )
            &&& name.len() == 0 || has_branch(before, name) ==> after == before
        }),
        with_branches(v, Seq::empty()) == v,
{
    assert(lines.push(line).drop_last() =~= lines);
}

/// First comes the worktree that was asked for, then the other worktrees, then the branches, each by
/// their names.
pub proof fn law_the_order_of_a_listing(a: BranchModel, b: BranchModel)
    ensures
        a.is_main && !b.is_main ==> entry_le(a, b) && !entry_le(b, a),
        a.is_main == b.is_main && a.has_worktree && !b.has_worktree ==> entry_le(a, b) && !entry_le(
            b,
            a,
        ),
        a.is_main == b.is_main && a.has_worktree == b.has_worktree ==> entry_le(a, b)
            == text::text_le(a.branch, b.branch),
{
}

/// A repository has its data in a directory of its own, or names in a file where they are; the file
/// counts only where it leads somewhere.
#[verifier::rlimit(40)]
pub proof fn law_repositories_are_known_by_their_data(path: Seq<char>, content: String, dir: Seq<char>)
    requires
        dir.len() > 0,
        !text::is_white(dir[0]),
        !text::is_white(dir.last()),
        !dir.contains('\n'),
        !"gitdir:"@.is_prefix_of(seq![' '] + dir),
        content@ == "gitdir:"@ + seq![' '] + dir,
    ensures
        repo_root(path, GitMarker::Missing) == RootModel::No,
        repo_root(path, GitMarker::Dir) == RootModel::Yes,
        repo_root(path, GitMarker::File(None)) == RootModel::No,
        dir[0] == '/' ==> repo_root(path, GitMarker::File(Some(content))) == RootModel::IfExists(
            dir,
        ),
        dir[0] != '/' ==> repo_root(path, GitMarker::File(Some(content))) == RootModel::IfExists(
            config::below(path, dir),
        ),
{
    reveal_strlit("gitdir:");
    let s = content@;
    assert(!s.contains('\n')) by {
        if s.contains('\n') {
            let k = choose|k: int| 0 <= k < s.len() && s[k] == '\n';
            if k >= 8 {
                assert(dir[k - 8] == '\n');
            }
        }
    }
    text::law_lines_end_with_line_feeds(s, s);
    let l = text::lines(s);
    assert(l =~= seq![s]);
    assert("gitdir:"@ =~= s.take(7));
    assert(l[0] == s);
    assert(line_at(l, "gitdir:"@) == 0);
    let rest = seq![' '] + dir;
    assert(s.skip(7) =~= rest);
    assert(all_unprefixed(rest, "gitdir:"@) == rest);
    assert(all_unprefixed(s, "gitdir:"@) == rest);
    text::law_trimming_takes_white_space_only(seq![' '], dir, Seq::empty());
    assert(seq![' '] + dir + Seq::<char>::empty() =~= rest);
}

/// The image for a directory is the one that is configured for it, else the one for another directory
/// of the same repository, else none.
pub proof fn law_the_image_for_a_directory(
    config_paths: Seq<(Seq<char>, PathEntry)>,
    path: Seq<char>,
    img: Seq<char>,
    top: Option<Seq<char>>,
    keys: Seq<Seq<char>>,
    tops: Seq<Option<Seq<char>>>,
)
    ensures
        entry_image(config_paths, path) == Some(img) ==> image_for(
            config_paths,
            path,
            top,
            keys,
            tops,
        ) == Some(img),
        entry_image(config_paths, path) is None && top is None ==> image_for(
            config_paths,
            path,
            top,
            keys,
            tops,
        ) is None,
        entry_image(config_paths, path) is None && top is Some && keys.len() > 0 && tops.len() > 0
            && entry_image(config_paths, keys[0]) == Some(img) && tops[0] is Some && paths::parts(
            tops[0]->0,
        ) == paths::parts(top->0) ==> image_for(config_paths, path, top, keys, tops) == Some(img),
{
}

/// The name of a place is that of the repository, else that of the directory, else a general one.
pub proof fn law_places_are_named_by_their_repository(path: Seq<char>, top: Seq<char>, name: Seq<char>)
    ensures
        paths::name_of(top) == Some(name) ==> base_name(path, Some(top)) == name,
        paths::name_of(path) == Some(name) ==> base_name(path, None) == name,
        paths::name_of(path) is None ==> base_name(path, None) == "app"@,
        paths::name_of(top) is None ==> base_name(path, Some(top)) == "app"@,
{
}

/// The way from a directory to itself is a dot, and to what is below it the names that lead there.
pub proof fn law_the_way_to_what_is_below(base: Seq<char>, name: Seq<char>)
    requires
        base.len() > 0,
        paths::is_name(name),
    ensures
        way(base, base) == "."@,
        way(config::below(base, name), base) == name,
{
    let path = config::below(base, name);
    paths::lemma_below_adds_a_part(base, name);
    paths::lemma_common_self(paths::parts(base));
    paths::lemma_common_longer(
        paths::parts(base),
        paths::PartModel::Normal(name),
        paths::parts(base),
    );
    let p = paths::parts(path);
    let k = paths::parts(base).len() as int;
    assert(paths::texts_from(p, k) =~= seq![name]);
    assert(text::joined(seq![name], "/"@) == name);
}

/// An alpine image is known by its short name, whatever registry and tag stand around it.
pub proof fn law_alpine_is_known_by_its_short_name(line: Seq<char>)
    ensures
        is_alpine(line) <==> !text::holds(text::trimmed(line), "<none>"@) && short_name(
            text::trimmed(line),
        ) == "alpine"@,
{
}

/// A repository without a directory of its own ends its entry and is none of the worktrees.
pub proof fn law_bare_repositories_are_no_worktrees(
    repo: Seq<char>,
    lines: Seq<Seq<char>>,
    path: Seq<char>,
)
    requires
        lines_read(repo, lines).branch is None,
    ensures
        lines_read(repo, lines.push("worktree "@ + path).push("bare"@)) == (ReadModel {
            entries: lines_read(repo, lines).entries,
            path: None,
            branch: None,
        }),
{
    reveal_strlit("worktree ");
    reveal_strlit("branch ");
    reveal_strlit("bare");
    let a = "worktree "@ + path;
    let one = lines.push(a);
    let two = one.push("bare"@);
    assert(one.drop_last() =~= lines);
    assert(two.drop_last() =~= one);
    assert("worktree "@ =~= a.take("worktree "@.len() as int));
    lemma_not_prefixed("worktree "@, "bare"@, 0);
    lemma_not_prefixed("branch "@, "bare"@, 1);
    assert("bare"@ =~= "bare"@.take(4));
    let m = lines_read(repo, one);
    assert(m.branch is None);
    assert(lines_read(repo, two) == entry_ended(repo, m));
}

} // verus!
