//! Paths that stay below the root of a channel.

use super::paths;
use super::paths::Component;
use crate::config;
use crate::text;
use vstd::prelude::*;
use vstd::string::*;

verus! {

// ---------------------------------------------------------------------------
// By the text alone
// ---------------------------------------------------------------------------
/// Whether a path steps up.
pub open spec fn steps_up(rel: Seq<char>) -> bool {
    paths::parts(rel).contains(paths::PartModel::ParentDir)
}

/// The names among the parts of a path, one behind the other.
pub open spec fn names_of(v: Seq<paths::PartModel>) -> Seq<Seq<char>>
    decreases v.len(),
{
    if v.len() == 0 {
        Seq::empty()
    } else {
        match v.last() {
            paths::PartModel::Normal(s) => names_of(v.drop_last()).push(s),
            _ => names_of(v.drop_last()),
        }
    }
}

/// `base` with the names below it.
pub open spec fn below_all(base: Seq<char>, names: Seq<Seq<char>>) -> Seq<char>
    decreases names.len(),
{
    if names.len() == 0 {
        base
    } else {
        config::below(below_all(base, names.drop_last()), names.last())
    }
}

/// The message for a path that steps up.
pub open spec fn escapes(rel: Seq<char>) -> Seq<char> {
    "Path escapes the channel root: "@ + rel
}

/// The names of a path that does not step up; none where it does.
fn names(rel: &str) -> (r: Option<Vec<String>>)
    ensures
        match r {
            Some(v) => !steps_up(rel@) && text::views(v@) == names_of(paths::parts(rel@)),
            None => steps_up(rel@),
        },
{
    let comps = paths::components(rel);
    let ghost want = paths::parts(rel@);
    let mut out: Vec<String> = Vec::new();
    let mut i: usize = 0;
    assert(want.take(0) =~= Seq::empty());
    assert(text::views(out@) =~= Seq::empty());
    while i < comps.len()
        invariant
            i <= comps@.len(),
            want == paths::part_views(comps@),
            want == paths::parts(rel@),
            forall|k: int| 0 <= k < i ==> (#[trigger] want[k]) != paths::PartModel::ParentDir,
            text::views(out@) == names_of(want.take(i as int)),
        decreases comps@.len() - i,
    {
        let ghost before = out@;
        assert(want[i as int] == comps@[i as int]@);
        assert(want.take(i + 1).drop_last() =~= want.take(i as int));
        assert(want.take(i + 1).last() == want[i as int]);
        match &comps[i] {
            Component::ParentDir => {
                assert(want[i as int] == paths::PartModel::ParentDir);
                return None;
            },
            Component::Normal(s) => {
                let t = s.clone();
                out.push(t);
                proof {
                    text::lemma_views_push(before, t);
                }
            },
            _ => {},
        }
        i += 1;
    }
    assert(want.take(comps@.len() as int) =~= want);
    Some(out)
}

/// What a path means below `base`, by its text alone: steps up are refused, and everything else
/// stands below `base`.
pub open spec fn resolved(base: Seq<char>, rel: Seq<char>) -> Result<Seq<char>, Seq<char>> {
    if steps_up(rel) {
        Err(escapes(rel))
    } else {
        Ok(below_all(base, names_of(paths::parts(rel))))
    }
}

/// The view of a text or a message.
pub open spec fn text_result(r: Result<String, String>) -> Result<Seq<char>, Seq<char>> {
    match r {
        Ok(s) => Ok(s@),
        Err(e) => Err(e@),
    }
}

/// What a path means below `base`, by its text alone.
pub fn resolve(base: &str, rel: &str) -> (r: Result<String, String>)
    ensures
        text_result(r) == resolved(base@, rel@),
{
    let parts = match names(rel) {
        Some(v) => v,
        None => {
            return Err(text::concat("Path escapes the channel root: ", rel));
        },
    };
    let ghost want = text::views(parts@);
    let mut out = base.to_string();
    let mut i: usize = 0;
    assert(want.take(0) =~= Seq::empty());
    while i < parts.len()
        invariant
            i <= parts@.len(),
            want == text::views(parts@),
            out@ == below_all(base@, want.take(i as int)),
        decreases parts@.len() - i,
    {
        assert(want.take(i + 1).drop_last() =~= want.take(i as int));
        assert(want.take(i + 1).last() == parts@[i as int]@);
        out = config::path_below(out.as_str(), parts[i].as_str());
        i += 1;
    }
    assert(want.take(parts@.len() as int) =~= want);
    Ok(out)
}

/// What a path means below the working directory of a container.
pub open spec fn workdir_path(workdir: Seq<char>, rel: Seq<char>) -> Result<Seq<char>, Seq<char>> {
    let tail = names_of(paths::parts(rel));
    if steps_up(rel) {
        Err(escapes(rel))
    } else if tail.len() == 0 {
        Ok(workdir)
    } else {
        Ok(text::trimmed_end_of(workdir, '/') + "/"@ + text::joined(tail, "/"@))
    }
}

/// What a path means below the working directory of a container.
pub fn join_workdir(workdir: &str, rel: &str) -> (r: Result<String, String>)
    ensures
        text_result(r) == workdir_path(workdir@, rel@),
{
    match names(rel) {
        None => Err(text::concat("Path escapes the channel root: ", rel)),
        Some(tail) => {
            assert(text::views(tail@).len() == tail@.len());
            if tail.len() == 0 {
                Ok(workdir.to_string())
            } else {
                Ok(
                    text::concat3(
                        text::trim_end_of(workdir, '/').as_str(),
                        "/",
                        text::join_texts(&tail, "/").as_str(),
                    ),
                )
            }
        },
    }
}

// ---------------------------------------------------------------------------
// With links
// ---------------------------------------------------------------------------
/// What stands at a path. A link comes with the place that it leads to, where that can be found.
#[derive(Debug, PartialEq)]
pub enum Probe {
    Missing,
    File,
    Dir,
    Link(Option<String>),
}

/// What is known after a step of the walk.
#[derive(Debug, PartialEq)]
pub enum Progress {
    /// Look at this path next.
    Look(String),
    /// The path is fine.
    Fine,
    /// The path is refused.
    Refused(String),
}

/// What a step of the walk holds.
pub enum ProgressModel {
    Look(Seq<char>),
    Fine,
    Refused(Seq<char>),
}

impl View for Progress {
    type V = ProgressModel;

    open spec fn view(&self) -> ProgressModel {
        match self {
            Progress::Look(s) => ProgressModel::Look(s@),
            Progress::Fine => ProgressModel::Fine,
            Progress::Refused(s) => ProgressModel::Refused(s@),
        }
    }
}

/// A walk along a path that follows the links on it. It begins at the root, with all links of the
/// root itself followed.
pub struct RootWalk {
    /// The root with its links followed.
    pub root: String,
    /// The path as it is named in messages.
    pub path: String,
    /// The names of the path below the root.
    pub names: Vec<String>,
    /// How many of them were looked at.
    pub done: usize,
    /// Where the walk stands.
    pub current: String,
}

/// What a walk holds.
pub struct WalkModel {
    pub root: Seq<char>,
    pub path: Seq<char>,
    pub names: Seq<Seq<char>>,
    pub done: int,
    pub current: Seq<char>,
}

impl View for RootWalk {
    type V = WalkModel;

    open spec fn view(&self) -> WalkModel {
        WalkModel {
            root: self.root@,
            path: self.path@,
            names: text::views(self.names@),
            done: self.done as int,
            current: self.current@,
        }
    }
}

/// What a walk looks at next.
pub open spec fn next_look(w: WalkModel) -> ProgressModel {
    if w.done < w.names.len() {
        ProgressModel::Look(config::below(w.current, w.names[w.done]))
    } else {
        ProgressModel::Fine
    }
}

/// Whether what stands at the next path ends the walk, and how.
pub open spec fn verdict(w: WalkModel, probe: Probe) -> Option<ProgressModel> {
    let next = config::below(w.current, w.names[w.done]);
    match probe {
        Probe::Missing => Some(ProgressModel::Fine),
        Probe::File => Some(ProgressModel::Fine),
        Probe::Dir => None,
        Probe::Link(None) => Some(
            ProgressModel::Refused(
                "Path contains a broken symlink (target unresolvable): "@ + next,
            ),
        ),
        Probe::Link(Some(target)) => if paths::is_within(target@, w.root) {
            None
        } else {
            Some(
                ProgressModel::Refused("Path escapes the channel root via a symlink: "@ + w.path),
            )
        },
    }
}

/// Where the walk stands after a directory or a link that stays below the root.
pub open spec fn walked(w: WalkModel, probe: Probe) -> WalkModel {
    WalkModel {
        done: w.done + 1,
        current: match probe {
            Probe::Link(Some(target)) => target@,
            _ => config::below(w.current, w.names[w.done]),
        },
        ..w
    }
}

impl RootWalk {
    /// The walk stands within its path.
    pub open spec fn wf(&self) -> bool {
        self.done <= self.names@.len()
    }

    /// A walk along `rel` below `root`, which is given with its links followed. A path that steps
    /// up is refused at once.
    pub fn begin(root: &str, base: &str, rel: &str) -> (r: Result<RootWalk, String>)
        ensures
            match r {
                Ok(w) => !steps_up(rel@) && w.wf() && w@ == (WalkModel {
                    root: root@,
                    path: below_all(base@, names_of(paths::parts(rel@))),
                    names: names_of(paths::parts(rel@)),
                    done: 0,
                    current: root@,
                }),
                Err(e) => steps_up(rel@) && e@ == escapes(rel@),
            },
    {
        let path = match resolve(base, rel) {
            Ok(p) => p,
            Err(e) => {
                return Err(e);
            },
        };
        match names(rel) {
            Some(names) => Ok(
                RootWalk {
                    root: root.to_string(),
                    path,
                    names,
                    done: 0,
                    current: root.to_string(),
                },
            ),
            None => Err(text::concat("Path escapes the channel root: ", rel)),
        }
    }

    /// What to look at next.
    pub fn look(&self) -> (r: Progress)
        requires
            self.wf(),
        ensures
            r@ == next_look(self@),
    {
        assert(text::views(self.names@).len() == self.names@.len());
        if self.done < self.names.len() {
            Progress::Look(
                config::path_below(self.current.as_str(), self.names[self.done].as_str()),
            )
        } else {
            Progress::Fine
        }
    }

    /// Goes on with what stands at the path that was to be looked at.
    pub fn step(&mut self, probe: Probe) -> (r: Progress)
        requires
            old(self).wf(),
            old(self).done < old(self).names@.len(),
        ensures
            final(self).wf(),
            match verdict(old(self)@, probe) {
                Some(end) => r@ == end && final(self)@ == old(self)@,
                None => final(self)@ == walked(old(self)@, probe) && r@ == next_look(final(self)@),
            },
    {
        let ghost before = self@;
        let next = config::path_below(self.current.as_str(), self.names[self.done].as_str());
        assert(before.names[before.done] == self.names@[self.done as int]@);
        match probe {
            Probe::Missing => {
                return Progress::Fine;
            },
            Probe::File => {
                return Progress::Fine;
            },
            Probe::Dir => {
                self.current = next;
            },
            Probe::Link(None) => {
                return Progress::Refused(
                    text::concat(
                        "Path contains a broken symlink (target unresolvable): ",
                        next.as_str(),
                    ),
                );
            },
            Probe::Link(Some(target)) => {
                if !paths::within(target.as_str(), self.root.as_str()) {
                    return Progress::Refused(
                        text::concat(
                            "Path escapes the channel root via a symlink: ",
                            self.path.as_str(),
                        ),
                    );
                }
                self.current = target;
            },
        }
        let n: usize = self.names.len();
        assert(self.done < n);
        self.done += 1;
        self.look()
    }
}

/// Whether a root that cannot be followed to its end may be used: a part of it that is a link
/// must not be. `links` says of each of its parts, from the whole path up, whether it is a link;
/// none where it is not there.
pub open spec fn first_there(links: Seq<Option<bool>>) -> bool
    decreases links.len(),
{
    if links.len() == 0 {
        false
    } else {
        match links[0] {
            Some(link) => link,
            None => first_there(links.drop_first()),
        }
    }
}

/// Whether the first of the parts that is there is a link.
pub fn path_contains_existing_symlink(links: &Vec<Option<bool>>) -> (r: bool)
    ensures
        r == first_there(links@),
{
    let mut i: usize = 0;
    assert(links@.skip(0) =~= links@);
    while i < links.len()
        invariant
            i <= links@.len(),
            first_there(links@.skip(i as int)) == first_there(links@),
        decreases links@.len() - i,
    {
        assert(links@.skip(i as int).drop_first() =~= links@.skip(i + 1));
        assert(links@.skip(i as int)[0] == links@[i as int]);
        if let Some(link) = links[i] {
            return link;
        }
        i += 1;
    }
    false
}

/// Refuses a root that cannot be followed to its end because of a link.
pub fn unresolved_root(root: &str, links: &Vec<Option<bool>>) -> (r: Result<(), String>)
    ensures
        match r {
            Ok(_) => !first_there(links@),
            Err(e) => first_there(links@) && e@
                == "Channel root contains a symlink and cannot be resolved: "@ + root@,
        },
{
    if path_contains_existing_symlink(links) {
        Err(text::concat("Channel root contains a symlink and cannot be resolved: ", root))
    } else {
        Ok(())
    }
}

// ---------------------------------------------------------------------------
// Laws
// ---------------------------------------------------------------------------
proof fn lemma_names_are_names(v: Seq<paths::PartModel>, k: int)
    requires
        0 <= k < names_of(v).len(),
        forall|i: int| 0 <= i < v.len() ==> paths::is_plain(#[trigger] v[i]),
    ensures
        paths::is_name(names_of(v)[k]),
    decreases v.len(),
{
    let t = v.drop_last();
    assert(paths::is_plain(v[v.len() - 1]));
    assert forall|i: int| 0 <= i < t.len() implies paths::is_plain(#[trigger] t[i]) by {
        assert(t[i] == v[i]);
    }
    if k < names_of(t).len() {
        lemma_names_are_names(t, k);
    }
}

/// Whatever is not refused by its text stands at or below the base.
pub proof fn law_resolved_paths_stay_below_the_base(base: Seq<char>, rel: Seq<char>)
    requires
        resolved(base, rel) is Ok,
    ensures
        paths::is_within(resolved(base, rel)->Ok_0, base),
{
    let names = names_of(paths::parts(rel));
    assert forall|k: int| 0 <= k < names.len() implies paths::is_name(#[trigger] names[k]) by {
        paths::lemma_parts_are_plain(rel);
        lemma_names_are_names(paths::parts(rel), k);
    }
    if base.len() > 0 {
        lemma_below_all(base, names);
    } else {
        paths::lemma_no_parts(base);
        assert(paths::common(paths::parts(below_all(base, names)), Seq::empty()) == 0);
    }
}

proof fn lemma_below_all(base: Seq<char>, names: Seq<Seq<char>>)
    requires
        base.len() > 0,
        forall|k: int| 0 <= k < names.len() ==> paths::is_name(#[trigger] names[k]),
    ensures
        below_all(base, names).len() > 0,
        paths::is_within(below_all(base, names), base),
    decreases names.len(),
{
    if names.len() == 0 {
        paths::lemma_common_self(paths::parts(base));
    } else {
        let t = names.drop_last();
        assert forall|k: int| 0 <= k < t.len() implies paths::is_name(#[trigger] t[k]) by {
            assert(t[k] == names[k]);
        }
        lemma_below_all(base, t);
        assert(paths::is_name(names[names.len() - 1]));
        paths::lemma_below_adds_a_part(below_all(base, t), names.last());
        paths::lemma_common_longer(
            paths::parts(below_all(base, t)),
            paths::PartModel::Normal(names.last()),
            paths::parts(base),
        );
    }
}

/// A path with a step up is refused, whatever else it holds.
pub proof fn law_steps_up_are_refused(base: Seq<char>, rel: Seq<char>, workdir: Seq<char>)
    requires
        steps_up(rel),
    ensures
        resolved(base, rel) == Err::<Seq<char>, Seq<char>>(escapes(rel)),
        workdir_path(workdir, rel) == Err::<Seq<char>, Seq<char>>(escapes(rel)),
{
}

/// A walk never leaves the root: as long as it is not refused it stands at or below it.
pub proof fn law_walks_stay_below_the_root(w: WalkModel, probe: Probe)
    requires
        paths::is_within(w.current, w.root),
        0 <= w.done < w.names.len(),
        paths::is_name(w.names[w.done]),
        verdict(w, probe) is None,
    ensures
        paths::is_within(walked(w, probe).current, w.root),
{
    match probe {
        Probe::Link(Some(target)) => {},
        _ => if w.current.len() == 0 {
            paths::lemma_no_parts(w.current);
            assert(paths::parts(w.root).len() == 0);
            assert(paths::common(paths::parts(walked(w, probe).current), paths::parts(w.root)) == 0);
        } else {
            paths::lemma_below_adds_a_part(w.current, w.names[w.done]);
            paths::lemma_common_longer(
                paths::parts(w.current),
                paths::PartModel::Normal(w.names[w.done]),
                paths::parts(w.root),
            );
        },
    }
}

/// A link that leads out of the root is refused.
pub proof fn law_links_out_of_the_root_are_refused(w: WalkModel, target: String)
    requires
        0 <= w.done < w.names.len(),
        !paths::is_within(target@, w.root),
    ensures
        verdict(w, Probe::Link(Some(target))) == Some(
            ProgressModel::Refused("Path escapes the channel root via a symlink: "@ + w.path),
        ),
{
}

proof fn lemma_names_of_normals(v: Seq<Seq<char>>)
    ensures
        names_of(v.map_values(|n: Seq<char>| paths::PartModel::Normal(n))) == v,
        !v.map_values(|n: Seq<char>| paths::PartModel::Normal(n)).contains(
            paths::PartModel::ParentDir,
        ),
    decreases v.len(),
{
    let p = v.map_values(|n: Seq<char>| paths::PartModel::Normal(n));
    if v.len() > 0 {
        lemma_names_of_normals(v.drop_last());
        assert(p.drop_last() =~= v.drop_last().map_values(
            |n: Seq<char>| paths::PartModel::Normal(n),
        ));
        assert(v =~= v.drop_last().push(v.last()));
    } else {
        assert(names_of(p) =~= v);
    }
}

/// A path of names is found below the base by exactly these names, in the host as in the container; a
/// slash before it does not lead out of the base.
pub proof fn law_names_lead_below_the_base(base: Seq<char>, workdir: Seq<char>, v: Seq<Seq<char>>)
    requires
        v.len() > 0,
        forall|k: int| 0 <= k < v.len() ==> paths::is_name(#[trigger] v[k]),
    ensures
        ({
            let rel = text::joined(v, seq!['/']);
            &&& resolved(base, rel) == Ok::<Seq<char>, Seq<char>>(below_all(base, v))
            &&& resolved(base, seq!['/'] + rel) == resolved(base, rel)
            &&& workdir_path(workdir, rel) == Ok::<Seq<char>, Seq<char>>(
                text::trimmed_end_of(workdir, '/') + "/"@ + text::joined(v, "/"@),
            )
        }),
{
    let rel = text::joined(v, seq!['/']);
    let p = v.map_values(|n: Seq<char>| paths::PartModel::Normal(n));
    paths::law_parts_stand_between_slashes(v);
    lemma_names_of_normals(v);
    let r = seq![paths::PartModel::RootDir] + p;
    assert(!r.contains(paths::PartModel::ParentDir)) by {
        if r.contains(paths::PartModel::ParentDir) {
            let k = choose|k: int| 0 <= k < r.len() && r[k] == paths::PartModel::ParentDir;
            assert(p[k - 1] == paths::PartModel::ParentDir);
        }
    }
    lemma_names_with_root(v);
}

proof fn lemma_names_with_root(v: Seq<Seq<char>>)
    ensures
        names_of(
            seq![paths::PartModel::RootDir] + v.map_values(
                |n: Seq<char>| paths::PartModel::Normal(n),
            ),
        ) == v,
    decreases v.len(),
{
    let p = seq![paths::PartModel::RootDir] + v.map_values(
        |n: Seq<char>| paths::PartModel::Normal(n),
    );
    if v.len() > 0 {
        lemma_names_with_root(v.drop_last());
        assert(p.drop_last() =~= seq![paths::PartModel::RootDir] + v.drop_last().map_values(
            |n: Seq<char>| paths::PartModel::Normal(n),
        ));
        assert(p.last() == paths::PartModel::Normal(v.last()));
        assert(v =~= v.drop_last().push(v.last()));
    } else {
        assert(p.drop_last() =~= Seq::empty());
        assert(names_of(p.drop_last()) =~= Seq::empty());
        assert(names_of(p) =~= v);
    }
}

/// Names are put below the base one after the other.
pub proof fn law_names_are_put_below_each_other(base: Seq<char>, v: Seq<Seq<char>>, name: Seq<char>)
    ensures
        below_all(base, Seq::empty()) == base,
        below_all(base, v.push(name)) == config::below(below_all(base, v), name),
{
    assert(v.push(name).drop_last() =~= v);
}

/// A path with a step up is refused by name, wherever the step stands.
pub proof fn law_a_step_up_anywhere_is_refused(base: Seq<char>, workdir: Seq<char>, rel: Seq<char>, k: int)
    requires
        0 <= k < text::split(rel, '/').len(),
        text::split(rel, '/')[k] == ".."@,
    ensures
        resolved(base, rel) == Err::<Seq<char>, Seq<char>>(
            "Path escapes the channel root: "@ + rel,
        ),
        workdir_path(workdir, rel) == Err::<Seq<char>, Seq<char>>(
            "Path escapes the channel root: "@ + rel,
        ),
{
    let pieces = text::split(rel, '/');
    lemma_pieces_hold_steps(pieces, k);
    let p = paths::pieces_parts(pieces);
    let j = choose|j: int| 0 <= j < p.len() && p[j] == paths::PartModel::ParentDir;
    let all = paths::parts(rel);
    assert(all[paths::lead_parts(rel).len() + j] == paths::PartModel::ParentDir);
}

proof fn lemma_pieces_hold_steps(pieces: Seq<Seq<char>>, k: int)
    requires
        0 <= k < pieces.len(),
        pieces[k] == ".."@,
    ensures
        paths::pieces_parts(pieces).contains(paths::PartModel::ParentDir),
    decreases pieces.len(),
{
    reveal_strlit("..");
    reveal_strlit(".");
    assert(".."@.len() == 2 && "."@.len() == 1);
    let before = paths::pieces_parts(pieces.drop_last());
    let all = paths::pieces_parts(pieces);
    if k == pieces.len() - 1 {
        assert(all[before.len() as int] == paths::PartModel::ParentDir);
    } else {
        lemma_pieces_hold_steps(pieces.drop_last(), k);
        let j = choose|j: int| 0 <= j < before.len() && before[j] == paths::PartModel::ParentDir;
        assert(all[j] == paths::PartModel::ParentDir);
    }
}

/// A walk looks at every name below the one before it; it is fine where nothing more is there, and
/// goes on through directories and through links that stay within the root.
pub proof fn law_walks_look_at_every_name(w: WalkModel, target: String)
    requires
        0 <= w.done < w.names.len(),
    ensures
        next_look(w) == ProgressModel::Look(config::below(w.current, w.names[w.done])),
        verdict(w, Probe::Missing) == Some(ProgressModel::Fine),
        verdict(w, Probe::File) == Some(ProgressModel::Fine),
        verdict(w, Probe::Dir) is None,
        walked(w, Probe::Dir).current == config::below(w.current, w.names[w.done]),
        walked(w, Probe::Dir).done == w.done + 1,
        verdict(w, Probe::Link(None)) == Some(
            ProgressModel::Refused(
                "Path contains a broken symlink (target unresolvable): "@ + config::below(
                    w.current,
                    w.names[w.done],
                ),
            ),
        ),
        paths::is_within(target@, w.root) ==> verdict(w, Probe::Link(Some(target))) is None
            && walked(w, Probe::Link(Some(target))).current == target@,
        next_look(WalkModel { done: w.names.len() as int, ..w }) is Fine,
{
}

/// The first of the places that is there decides.
pub proof fn law_the_first_place_decides(links: Seq<Option<bool>>, link: bool)
    ensures
        !first_there(Seq::empty()),
        first_there(seq![Some(link)] + links) == link,
        first_there(seq![None] + links) == first_there(links),
{
    assert((seq![None::<bool>] + links).drop_first() =~= links);
}

} // verus!
