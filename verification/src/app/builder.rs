//! The builder of channels.

use super::keys::{KeyCode, KeyEvent};
use super::list;
use super::list::{ListNav, Selection};
use super::picker;
use super::state::{App, AppModel};
use super::types;
use super::types::{
    BuilderChoice, BuilderEdit, ChannelBuilderState, PathConfirm, Task,
};
use crate::channel;
use crate::channel::builder;
use crate::channel::builder::{
    collect_host_paths, image_names_equal, path_position, ContainerInfo, HostPath, Tunnel,
    WorktreeEntry,
};
use crate::channel::Channel;
use crate::config;
use crate::editor;
use crate::editor::Editor;
use crate::table;
use crate::text;
use vstd::prelude::*;
use vstd::string::*;

verus! {

// ---------------------------------------------------------------------------
// The lists
// ---------------------------------------------------------------------------
/// A list whose ends lead to each other, with an entry marked.
pub open spec fn ring<M>(items: Seq<M>, cursor: int) -> types::SelModel<M> {
    types::SelModel {
        items,
        nav: ListNav {
            len: items.len() as usize,
            cursor: list::last_or(cursor as usize, items.len() as usize),
            offset: 0,
            wrap: true,
        },
    }
}

/// The marked entry.
pub open spec fn marked<M>(s: types::SelModel<M>) -> Option<M> {
    if s.items.len() == 0 {
        None
    } else {
        Some(s.items[s.nav.cursor as int])
    }
}

/// The list after a key.
pub open spec fn ring_moved<M>(s: types::SelModel<M>, key: KeyEvent) -> types::SelModel<M> {
    types::SelModel { nav: list::after_key(s.nav, key.code, s.nav.len as u16), ..s }
}

/// The directory in which a channel works: that of the chosen worktree, else the chosen one.
pub open spec fn chosen_path(b: types::BuilderModel) -> Option<Seq<char>> {
    match (b.current_is_git, marked(b.worktrees)) {
        (true, Some(w)) => if w.has_worktree && w.path.len() > 0 {
            Some(w.path)
        } else {
            marked(b.host_paths)
        },
        _ => marked(b.host_paths),
    }
}

/// The work to find the container for what is chosen.
pub open spec fn finding(b: types::BuilderModel) -> types::TaskModel {
    match marked(b.tunnels) {
        None => types::TaskModel::Nothing,
        Some(t) => match (builder::image_of(t), chosen_path(b)) {
            (Some(image), Some(path)) => types::TaskModel::FindContainer { path, image },
            _ => types::TaskModel::Nothing,
        },
    }
}

/// The position of the first tunnel with the image, or how many there are.
pub open spec fn tunnel_at(v: Seq<builder::TunnelModel>, image: Seq<char>) -> int
    decreases v.len(),
{
    if v.len() == 0 || (builder::image_of(v[0]) matches Some(n) && builder::same_image(n, image)) {
        0
    } else {
        1 + tunnel_at(v.drop_first(), image)
    }
}

/// Whether the tunnel that is meant for the chosen directory is another one.
pub open spec fn image_differs(b: types::BuilderModel, image: Option<Seq<char>>) -> bool {
    match image {
        Some(img) => {
            let k = tunnel_at(b.tunnels.items, img);
            marked(b.host_paths) is Some && k < b.tunnels.items.len() && k != b.tunnels.nav.cursor
        },
        None => false,
    }
}

/// The builder with the tunnel that is meant for the chosen directory.
pub open spec fn with_image(b: types::BuilderModel, image: Option<Seq<char>>) -> types::BuilderModel {
    if image_differs(b, image) {
        types::BuilderModel {
            tunnels: types::SelModel {
                nav: ListNav {
                    cursor: tunnel_at(b.tunnels.items, image->0) as usize,
                    ..b.tunnels.nav
                },
                ..b.tunnels
            },
            ..b
        }
    } else {
        b
    }
}

/// The tunnels with those images that are not there yet.
pub open spec fn images_added(
    v: types::SelModel<builder::TunnelModel>,
    images: Seq<(Seq<char>, Option<Seq<char>>)>,
) -> types::SelModel<builder::TunnelModel>
    decreases images.len(),
{
    if images.len() == 0 {
        v
    } else {
        let before = images_added(v, images.drop_last());
        let (name, working_dir) = images.last();
        if tunnel_at(before.items, name) < before.items.len() {
            before
        } else {
            let n = (before.items.len() + 1) as usize;
            types::SelModel {
                items: before.items.push(builder::TunnelModel::Image { name, working_dir }),
                nav: ListNav {
                    len: n,
                    cursor: list::last_or(before.nav.cursor, n),
                    offset: list::last_or(before.nav.offset, n),
                    wrap: before.nav.wrap,
                },
            }
        }
    }
}

/// What images with their working directories hold.
pub open spec fn image_views(v: Seq<(String, Option<String>)>) -> Seq<
    (Seq<char>, Option<Seq<char>>),
> {
    v.map_values(|p: (String, Option<String>)| (p.0@, text::opt_view(p.1)))
}

/// The builder with what was found out in the meantime.
pub open spec fn with_found(
    b: types::BuilderModel,
    images: Seq<(Seq<char>, Option<Seq<char>>)>,
    info: Option<builder::InfoModel>,
    worktrees: Seq<builder::BranchModel>,
) -> types::BuilderModel {
    types::BuilderModel {
        tunnels: images_added(b.tunnels, images),
        container_info: info,
        worktrees: if b.worktrees.items.len() == 0 && worktrees.len() > 0 {
            ring(worktrees, 0)
        } else {
            b.worktrees
        },
        images_loaded: true,
        ..b
    }
}

/// The position of the worktree that was asked for, or how many there are.
pub open spec fn main_at(v: Seq<builder::BranchModel>) -> int
    decreases v.len(),
{
    if v.len() == 0 || v[0].is_main {
        0
    } else {
        1 + main_at(v.drop_first())
    }
}

/// The position of the first entry of a branch, or how many there are.
pub open spec fn branch_at(v: Seq<builder::BranchModel>, name: Seq<char>) -> int
    decreases v.len(),
{
    if v.len() == 0 || v[0].branch == name {
        0
    } else {
        1 + branch_at(v.drop_first(), name)
    }
}

/// The builder with what was found out about the chosen directory.
pub open spec fn with_host(
    b: types::BuilderModel,
    is_repo: bool,
    worktrees: Seq<builder::BranchModel>,
) -> types::BuilderModel {
    let list = if is_repo {
        worktrees
    } else {
        Seq::empty()
    };
    types::BuilderModel {
        current_is_git: is_repo,
        worktrees: ring(list, picker::or_first(main_at(list), list.len())),
        container_info: None,
        col: if !is_repo && b.col > 1 {
            1
        } else {
            b.col
        },
        ..b
    }
}

/// Builder and work after a key that moves in the column with the cursor.
pub open spec fn column_moved(b: types::BuilderModel, key: KeyEvent) -> (
    types::BuilderModel,
    types::TaskModel,
) {
    if b.col == 0 && b.tunnels.items.len() > 0 {
        let n = types::BuilderModel { tunnels: ring_moved(b.tunnels, key), ..b };
        (n, finding(n))
    } else if b.col == 1 && b.host_paths.items.len() > 0 {
        let n = types::BuilderModel { host_paths: ring_moved(b.host_paths, key), ..b };
        (
            n,
            if n.host_paths.nav.cursor != b.host_paths.nav.cursor {
                types::TaskModel::LoadHost(marked(n.host_paths))
            } else {
                types::TaskModel::Nothing
            },
        )
    } else if b.col == 2 && b.worktrees.items.len() > 0 {
        let n = types::BuilderModel { worktrees: ring_moved(b.worktrees, key), ..b };
        (n, finding(n))
    } else {
        (b, types::TaskModel::Nothing)
    }
}

/// The column to the left.
pub open spec fn left_of(b: types::BuilderModel) -> int {
    if b.col > 0 {
        if b.col - 1 == 2 && !b.current_is_git {
            1
        } else {
            b.col - 1
        }
    } else {
        b.col
    }
}

/// The column to the right; the last one only in a repository.
pub open spec fn right_of(b: types::BuilderModel) -> int {
    if b.col < 2 && !(b.col == 1 && !b.current_is_git) {
        b.col + 1
    } else {
        b.col
    }
}

/// The field after a key.
pub open spec fn field_key(m: editor::EditorModel, key: KeyEvent) -> editor::EditorModel {
    let shift = key.modifiers.shift;
    let ctrl = key.modifiers.ctrl;
    match key.code {
        KeyCode::Char(c) => if ctrl {
            m
        } else {
            editor::inserted(m, seq![c])
        },
        KeyCode::Backspace => editor::erased_before(m),
        KeyCode::Delete => editor::erased_behind(m),
        KeyCode::Left => if ctrl {
            editor::moved_to(m, editor::word_target(m, true), shift)
        } else {
            editor::moved_to(m, editor::near(m, -1), shift)
        },
        KeyCode::Right => if ctrl {
            editor::moved_to(m, editor::word_target(m, false), shift)
        } else {
            editor::moved_to(m, editor::near(m, 1), shift)
        },
        KeyCode::Home => editor::moved_to(m, 0, shift),
        KeyCode::End => editor::moved_to(m, m.text.len() as int, shift),
        _ => m,
    }
}

/// The builder after a key in its input.
pub open spec fn typed(b: types::BuilderModel, key: KeyEvent) -> types::BuilderModel {
    types::BuilderModel {
        edit: match b.edit {
            Some(types::EditModel::HostPath(e)) => Some(
                types::EditModel::HostPath(field_key(e, key)),
            ),
            Some(types::EditModel::Branch(e)) => Some(types::EditModel::Branch(field_key(e, key))),
            None => None,
        },
        edit_error: None,
        ..b
    }
}

/// A field with a text.
pub open spec fn field_with(s: Seq<char>) -> editor::EditorModel {
    editor::with_text(editor::empty_field(60), s)
}

/// The builder with the input for a directory, in the column of directories.
pub open spec fn path_input(b: types::BuilderModel) -> types::BuilderModel {
    if b.col != 1 {
        b
    } else {
        types::BuilderModel {
            edit: Some(
                types::EditModel::HostPath(
                    field_with(
                        match marked(b.host_paths) {
                            Some(p) => p,
                            None => Seq::empty(),
                        },
                    ),
                ),
            ),
            edit_error: None,
            ..b
        }
    }
}

/// The builder with the input for a directory again.
pub open spec fn path_input_again(
    b: types::BuilderModel,
    s: Seq<char>,
    error: Option<Seq<char>>,
) -> types::BuilderModel {
    types::BuilderModel {
        col: 1,
        edit: Some(types::EditModel::HostPath(field_with(s))),
        edit_error: error,
        ..b
    }
}

/// The builder with the input for a branch, in the column of worktrees.
pub open spec fn branch_input(b: types::BuilderModel) -> types::BuilderModel {
    if b.col != 2 {
        b
    } else {
        types::BuilderModel {
            edit: Some(
                types::EditModel::Branch(
                    field_with(
                        match marked(b.worktrees) {
                            Some(w) => w.branch,
                            None => Seq::empty(),
                        },
                    ),
                ),
            ),
            edit_error: None,
            ..b
        }
    }
}

/// Builder and work after the input for a directory was taken.
pub open spec fn path_taken(b: types::BuilderModel) -> (types::BuilderModel, types::TaskModel) {
    match b.edit {
        Some(types::EditModel::HostPath(e)) => {
            let t = text::trimmed(e.text);
            (
                types::BuilderModel { edit: None, edit_error: None, ..b },
                if t.len() == 0 {
                    types::TaskModel::Nothing
                } else {
                    types::TaskModel::CheckPath(t)
                },
            )
        },
        _ => (b, types::TaskModel::Nothing),
    }
}

/// Builder and work after the input for a branch was taken. It stays open until the branch is made.
pub open spec fn branch_taken(b: types::BuilderModel) -> (types::BuilderModel, types::TaskModel) {
    match b.edit {
        Some(types::EditModel::Branch(e)) => {
            let name = text::trimmed(e.text);
            if name.len() == 0 {
                (
                    types::BuilderModel { edit_error: Some("Enter a branch name"@), ..b },
                    types::TaskModel::Nothing,
                )
            } else {
                match marked(b.host_paths) {
                    None => (b, types::TaskModel::Nothing),
                    Some(repo) => (
                        b,
                        types::TaskModel::CreateBranch {
                            repo,
                            name,
                            source: match marked(b.worktrees) {
                                Some(w) => if w.branch.len() > 0 {
                                    Some(w.branch)
                                } else {
                                    None
                                },
                                None => None,
                            },
                        },
                    ),
                }
            }
        },
        _ => (b, types::TaskModel::Nothing),
    }
}

/// The position of a directory among those that are there, or how many there are.
pub open spec fn path_at(v: Seq<Seq<char>>, path: Seq<char>) -> int
    decreases v.len(),
{
    if v.len() == 0 || channel::paths::parts(v[0]) == channel::paths::parts(path) {
        0
    } else {
        1 + path_at(v.drop_first(), path)
    }
}

/// The builder with a directory chosen, which is added where it is not there.
pub open spec fn with_path(b: types::BuilderModel, path: Seq<char>) -> types::BuilderModel {
    let k = path_at(b.host_paths.items, path);
    let items = if k < b.host_paths.items.len() {
        b.host_paths.items
    } else {
        b.host_paths.items.push(path)
    };
    let n = items.len() as usize;
    types::BuilderModel {
        host_paths: types::SelModel {
            items,
            nav: ListNav {
                len: n,
                cursor: k as usize,
                offset: if k < b.host_paths.items.len() {
                    b.host_paths.nav.offset
                } else {
                    list::last_or(b.host_paths.nav.offset, n)
                },
                wrap: b.host_paths.nav.wrap,
            },
        },
        ..b
    }
}

/// The builder after a branch was made: it is marked.
pub open spec fn with_branch(
    b: types::BuilderModel,
    name: Seq<char>,
    worktrees: Seq<builder::BranchModel>,
) -> types::BuilderModel {
    types::BuilderModel {
        edit: None,
        edit_error: None,
        worktrees: ring(worktrees, picker::or_first(branch_at(worktrees, name), worktrees.len())),
        ..b
    }
}

/// The work after the builder was confirmed.
pub open spec fn preparing(b: types::BuilderModel) -> types::TaskModel {
    match (marked(b.tunnels), marked(b.host_paths)) {
        (Some(tunnel), Some(host_root)) => {
            let worktree = if b.current_is_git {
                marked(b.worktrees)
            } else {
                None
            };
            types::TaskModel::PrepareChannel(
                types::ChoiceModel {
                    tunnel,
                    host_root,
                    worktree,
                    container_info: b.container_info,
                    pending_branch: match worktree {
                        Some(w) => if !w.has_worktree && w.branch.len() > 0 {
                            Some(w.branch)
                        } else {
                            None
                        },
                        None => None,
                    },
                },
            )
        },
        _ => types::TaskModel::Nothing,
    }
}

fn field_for(s: &str) -> (r: Editor)
    ensures
        r.wf(),
        r@ == field_with(s@),
{
    let mut e = Editor::new(60);
    e.set_text(s);
    e
}

/// Handles a key in a field.
pub fn handle_editor_key(e: &mut Editor, key: KeyEvent)
    requires
        old(e).wf(),
    ensures
        final(e).wf(),
        final(e)@ == field_key(old(e)@, key),
{
    let shift = key.modifiers.shift;
    let ctrl = key.modifiers.ctrl;
    match key.code {
        KeyCode::Char(c) => {
            if !ctrl {
                e.insert_char(c);
            }
        },
        KeyCode::Backspace => e.backspace(),
        KeyCode::Delete => e.delete_at_cursor(),
        KeyCode::Left => {
            if ctrl {
                e.move_word(-1, shift);
            } else {
                e.move_cursor(-1, shift);
            }
        },
        KeyCode::Right => {
            if ctrl {
                e.move_word(1, shift);
            } else {
                e.move_cursor(1, shift);
            }
        },
        KeyCode::Home => e.move_home(shift),
        KeyCode::End => e.move_end(shift),
        _ => {},
    }
}

fn main_position(v: &Vec<WorktreeEntry>) -> (r: usize)
    ensures
        r == picker::or_first(main_at(builder::branch_views(v@)), v@.len()),
{
    let ghost want = builder::branch_views(v@);
    let mut i: usize = 0;
    assert(want.skip(0) =~= want);
    while i < v.len()
        invariant
            i <= v@.len(),
            want == builder::branch_views(v@),
            main_at(want) == i + main_at(want.skip(i as int)),
        decreases v@.len() - i,
    {
        assert(want.skip(i as int)[0] == v@[i as int]@);
        assert(want.skip(i as int).drop_first() =~= want.skip(i + 1));
        if v[i].is_main {
            return i;
        }
        i += 1;
    }
    0
}

fn branch_position(v: &Vec<WorktreeEntry>, name: &str) -> (r: usize)
    ensures
        r == picker::or_first(branch_at(builder::branch_views(v@), name@), v@.len()),
{
    let ghost want = builder::branch_views(v@);
    let mut i: usize = 0;
    assert(want.skip(0) =~= want);
    while i < v.len()
        invariant
            i <= v@.len(),
            want == builder::branch_views(v@),
            branch_at(want, name@) == i + branch_at(want.skip(i as int), name@),
        decreases v@.len() - i,
    {
        assert(want.skip(i as int)[0] == v@[i as int]@);
        assert(want.skip(i as int).drop_first() =~= want.skip(i + 1));
        if text::same_text(v[i].branch.as_str(), name) {
            return i;
        }
        i += 1;
    }
    0
}

fn tunnel_position(v: &Vec<Tunnel>, image: &str) -> (r: Option<usize>)
    ensures
        match r {
            Some(i) => i < v@.len() && i == tunnel_at(builder::tunnel_views(v@), image@),
            None => tunnel_at(builder::tunnel_views(v@), image@) == v@.len(),
        },
{
    let ghost want = builder::tunnel_views(v@);
    let mut i: usize = 0;
    assert(want.skip(0) =~= want);
    while i < v.len()
        invariant
            i <= v@.len(),
            want == builder::tunnel_views(v@),
            tunnel_at(want, image@) == i + tunnel_at(want.skip(i as int), image@),
        decreases v@.len() - i,
    {
        assert(want.skip(i as int)[0] == v@[i as int]@);
        assert(want.skip(i as int).drop_first() =~= want.skip(i + 1));
        let here = match v[i].image_name() {
            Some(n) => image_names_equal(n, image),
            None => false,
        };
        if here {
            return Some(i);
        }
        i += 1;
    }
    None
}

proof fn lemma_path_at_is(v: Seq<Seq<char>>, path: Seq<char>, k: int)
    requires
        0 <= k <= v.len(),
        k < v.len() ==> channel::paths::parts(v[k]) == channel::paths::parts(path),
        forall|i: int|
            0 <= i < k ==> channel::paths::parts(#[trigger] v[i]) != channel::paths::parts(path),
    ensures
        path_at(v, path) == k,
    decreases v.len(),
{
    if k > 0 {
        assert(channel::paths::parts(v[0]) != channel::paths::parts(path));
        let t = v.drop_first();
        assert forall|i: int| 0 <= i < k - 1 implies channel::paths::parts(#[trigger] t[i])
            != channel::paths::parts(path) by {
            assert(t[i] == v[i + 1]);
        }
        lemma_path_at_is(t, path, k - 1);
    }
}

impl ChannelBuilderState {
    fn marked_path(&self) -> (r: Option<String>)
        requires
            self.wf(),
        ensures
            text::opt_view(r) == marked(self@.host_paths),
    {
        match self.host_paths.selected() {
            Some(p) => {
                assert(self@.host_paths.items[self.host_paths.nav.cursor as int] == p.path@);
                Some(p.path.clone())
            },
            None => None,
        }
    }

    fn marked_entry(&self) -> (r: Option<&WorktreeEntry>)
        requires
            self.wf(),
        ensures
            match r {
                Some(w) => marked(self@.worktrees) == Some(w@),
                None => marked(self@.worktrees) is None,
            },
    {
        match self.worktrees.selected() {
            Some(w) => {
                assert(self@.worktrees.items[self.worktrees.nav.cursor as int] == w@);
                Some(w)
            },
            None => None,
        }
    }

    fn marked_tunnel(&self) -> (r: Option<&Tunnel>)
        requires
            self.wf(),
        ensures
            match r {
                Some(t) => marked(self@.tunnels) == Some(t@),
                None => marked(self@.tunnels) is None,
            },
    {
        match self.tunnels.selected() {
            Some(t) => {
                assert(self@.tunnels.items[self.tunnels.nav.cursor as int] == t@);
                Some(t)
            },
            None => None,
        }
    }

    fn working_path(&self) -> (r: Option<String>)
        requires
            self.wf(),
        ensures
            text::opt_view(r) == chosen_path(self@),
    {
        if self.current_is_git {
            if let Some(w) = self.marked_entry() {
                if w.has_worktree && !w.path.as_str().is_empty() {
                    return Some(w.path.clone());
                }
            }
        }
        self.marked_path()
    }

    /// The work to find the container for what is chosen.
    pub fn container_task(&self) -> (r: Task)
        requires
            self.wf(),
        ensures
            r@ == finding(self@),
    {
        match self.marked_tunnel() {
            None => Task::Nothing,
            Some(t) => match t.image_name() {
                None => Task::Nothing,
                Some(image) => match self.working_path() {
                    Some(path) => Task::FindContainer { path, image: image.to_string() },
                    None => Task::Nothing,
                },
            },
        }
    }

    /// Marks the tunnel that is meant for the chosen directory; says whether it was another one.
    pub fn use_default_image(&mut self, image: &Option<String>) -> (r: bool)
        requires
            old(self).wf(),
        ensures
            final(self).wf(),
            r == image_differs(old(self)@, text::opt_view(*image)),
            final(self)@ == with_image(old(self)@, text::opt_view(*image)),
    {
        let img = match image {
            Some(i) => i,
            None => {
                return false;
            },
        };
        if self.marked_path().is_none() {
            return false;
        }
        match tunnel_position(&self.tunnels.items, img.as_str()) {
            Some(k) => {
                if k != self.tunnels.nav.cursor() {
                    self.tunnels.set_cursor(k);
                    true
                } else {
                    false
                }
            },
            None => false,
        }
    }

    fn add_images(&mut self, images: &Vec<(String, Option<String>)>)
        requires
            old(self).wf(),
        ensures
            final(self).wf(),
            final(self)@ == (types::BuilderModel {
                tunnels: images_added(old(self)@.tunnels, image_views(images@)),
                ..old(self)@
            }),
    {
        let ghost b = self@;
        let ghost want = image_views(images@);
        let mut i: usize = 0;
        assert(want.take(0) =~= Seq::empty());
        while i < images.len()
            invariant
                i <= images@.len(),
                self.wf(),
                want == image_views(images@),
                self@ == (types::BuilderModel {
                    tunnels: images_added(b.tunnels, want.take(i as int)),
                    ..b
                }),
            decreases images@.len() - i,
        {
            let ghost before = self.tunnels.items@;
            assert(want.take(i + 1).drop_last() =~= want.take(i as int));
            assert(want.take(i + 1).last() == (
                images@[i as int].0@,
                text::opt_view(images@[i as int].1),
            ));
            if tunnel_position(&self.tunnels.items, images[i].0.as_str()).is_none() {
                let t = Tunnel::Image {
                    name: images[i].0.clone(),
                    working_dir: text::copy_opt(&images[i].1),
                };
                self.tunnels.push(t);
                assert(builder::tunnel_views(self.tunnels.items@) =~= builder::tunnel_views(
                    before,
                ).push(t@));
            }
            i += 1;
        }
        assert(want.take(images@.len() as int) =~= want);
    }

    /// Takes over what was found out in the meantime.
    pub fn take_found(
        &mut self,
        images: &Vec<(String, Option<String>)>,
        info: Option<ContainerInfo>,
        worktrees: Vec<WorktreeEntry>,
    )
        requires
            old(self).wf(),
        ensures
            final(self).wf(),
            final(self)@ == with_found(
                old(self)@,
                image_views(images@),
                builder::info_view(info),
                builder::branch_views(worktrees@),
            ),
    {
        self.add_images(images);
        self.container_info = info;
        if self.worktrees.items.len() == 0 && worktrees.len() > 0 {
            self.worktrees = Selection::wrap_at(worktrees, 0);
        }
        self.images_loaded = true;
    }

    /// Takes over what was found out about the chosen directory.
    pub fn take_host(&mut self, is_repo: bool, worktrees: Vec<WorktreeEntry>)
        requires
            old(self).wf(),
        ensures
            final(self).wf(),
            final(self)@ == with_host(old(self)@, is_repo, builder::branch_views(worktrees@)),
    {
        let found = if is_repo {
            worktrees
        } else {
            let v: Vec<WorktreeEntry> = Vec::new();
            assert(builder::branch_views(v@) =~= Seq::empty());
            v
        };
        let at: usize = main_position(&found);
        self.current_is_git = is_repo;
        self.worktrees = Selection::wrap_at(found, at);
        self.container_info = None;
        if !is_repo && self.col > 1 {
            self.col = 1;
        }
    }

    /// Moves in the column with the cursor.
    pub fn move_in_column(&mut self, key: KeyEvent) -> (r: Task)
        requires
            old(self).wf(),
        ensures
            final(self).wf(),
            (final(self)@, r@) == column_moved(old(self)@, key),
    {
        if self.col == 0 && self.tunnels.items.len() > 0 {
            let shown: u16 = self.tunnels.nav.len() as u16;
            let _used = self.tunnels.handle_move(&key, shown);
            self.container_task()
        } else if self.col == 1 && self.host_paths.items.len() > 0 {
            let before: usize = self.host_paths.nav.cursor();
            let shown: u16 = self.host_paths.nav.len() as u16;
            let _used = self.host_paths.handle_move(&key, shown);
            if self.host_paths.nav.cursor() != before {
                Task::LoadHost(self.marked_path())
            } else {
                Task::Nothing
            }
        } else if self.col == 2 && self.worktrees.items.len() > 0 {
            let shown: u16 = self.worktrees.nav.len() as u16;
            let _used = self.worktrees.handle_move(&key, shown);
            self.container_task()
        } else {
            Task::Nothing
        }
    }

    fn go_left(&mut self)
        requires
            old(self).wf(),
        ensures
            final(self).wf(),
            final(self)@ == (types::BuilderModel { col: left_of(old(self)@), ..old(self)@ }),
    {
        if self.col > 0 {
            self.col = self.col - 1;
            if self.col == 2 && !self.current_is_git {
                self.col = 1;
            }
        }
    }

    fn go_right(&mut self)
        requires
            old(self).wf(),
        ensures
            final(self).wf(),
            final(self)@ == (types::BuilderModel { col: right_of(old(self)@), ..old(self)@ }),
    {
        if self.col < 2 && !(self.col == 1 && !self.current_is_git) {
            self.col = self.col + 1;
        }
    }

    fn type_key(&mut self, key: KeyEvent)
        requires
            old(self).wf(),
        ensures
            final(self).wf(),
            final(self)@ == typed(old(self)@, key),
    {
        match &mut self.edit {
            Some(BuilderEdit::HostPath(e)) => handle_editor_key(e, key),
            Some(BuilderEdit::Branch(e)) => handle_editor_key(e, key),
            None => {},
        }
        self.edit_error = None;
    }

    fn open_path_input(&mut self)
        requires
            old(self).wf(),
        ensures
            final(self).wf(),
            final(self)@ == path_input(old(self)@),
    {
        if self.col != 1 {
            return ;
        }
        let current = match self.marked_path() {
            Some(p) => p,
            None => {
                let e = String::new();
                assert(e@ =~= Seq::empty());
                e
            },
        };
        self.edit = Some(BuilderEdit::HostPath(field_for(current.as_str())));
        self.edit_error = None;
    }

    fn reopen_path_input(&mut self, s: &str, error: Option<String>)
        requires
            old(self).wf(),
        ensures
            final(self).wf(),
            final(self)@ == path_input_again(old(self)@, s@, text::opt_view(error)),
    {
        self.col = 1;
        self.edit = Some(BuilderEdit::HostPath(field_for(s)));
        self.edit_error = error;
    }

    fn open_branch_input(&mut self)
        requires
            old(self).wf(),
        ensures
            final(self).wf(),
            final(self)@ == branch_input(old(self)@),
    {
        if self.col != 2 {
            return ;
        }
        let current = match self.marked_entry() {
            Some(w) => w.branch.clone(),
            None => {
                let e = String::new();
                assert(e@ =~= Seq::empty());
                e
            },
        };
        self.edit = Some(BuilderEdit::Branch(field_for(current.as_str())));
        self.edit_error = None;
    }

    fn take_path_input(&mut self) -> (r: Task)
        requires
            old(self).wf(),
        ensures
            final(self).wf(),
            (final(self)@, r@) == path_taken(old(self)@),
    {
        let t = match &self.edit {
            Some(BuilderEdit::HostPath(e)) => text::trim(e.text_string().as_str()),
            _ => {
                return Task::Nothing;
            },
        };
        self.edit = None;
        self.edit_error = None;
        if t.as_str().is_empty() {
            Task::Nothing
        } else {
            Task::CheckPath(t)
        }
    }

    fn take_branch_input(&mut self) -> (r: Task)
        requires
            old(self).wf(),
        ensures
            final(self).wf(),
            (final(self)@, r@) == branch_taken(old(self)@),
    {
        let name = match &self.edit {
            Some(BuilderEdit::Branch(e)) => text::trim(e.text_string().as_str()),
            _ => {
                return Task::Nothing;
            },
        };
        if name.as_str().is_empty() {
            self.edit_error = Some("Enter a branch name".to_string());
            return Task::Nothing;
        }
        let repo = match self.marked_path() {
            Some(p) => p,
            None => {
                return Task::Nothing;
            },
        };
        let source = match self.marked_entry() {
            Some(w) => if w.branch.as_str().is_empty() {
                None
            } else {
                Some(w.branch.clone())
            },
            None => None,
        };
        Task::CreateBranch { repo, name, source }
    }

    fn choose_path(&mut self, path: &str)
        requires
            old(self).wf(),
        ensures
            final(self).wf(),
            final(self)@ == with_path(old(self)@, path@),
    {
        let ghost b = self@;
        let ghost items = self.host_paths.items@;
        match path_position(&self.host_paths.items, path) {
            Some(k) => {
                proof {
                    let v = builder::host_views(items);
                    assert forall|i: int| 0 <= i < k implies channel::paths::parts(
                        #[trigger] v[i],
                    ) != channel::paths::parts(path@) by {
                        assert(v[i] == items[i].path@);
                    }
                    assert(v[k as int] == items[k as int].path@);
                    lemma_path_at_is(v, path@, k as int);
                }
                self.host_paths.set_cursor(k);
            },
            None => {
                proof {
                    let v = builder::host_views(items);
                    assert forall|i: int| 0 <= i < v.len() implies channel::paths::parts(
                        #[trigger] v[i],
                    ) != channel::paths::parts(path@) by {
                        assert(!builder::has_path(v, path@));
                    }
                    lemma_path_at_is(v, path@, v.len() as int);
                }
                let k: usize = self.host_paths.items.len();
                let h = HostPath { path: path.to_string() };
                self.host_paths.push(h);
                assert(builder::host_views(self.host_paths.items@) =~= builder::host_views(
                    items,
                ).push(path@));
                self.host_paths.set_cursor(k);
            },
        }
    }

    fn take_branch(&mut self, name: &str, worktrees: Vec<WorktreeEntry>)
        requires
            old(self).wf(),
        ensures
            final(self).wf(),
            final(self)@ == with_branch(
                old(self)@,
                name@,
                builder::branch_views(worktrees@),
            ),
    {
        self.edit = None;
        self.edit_error = None;
        let at: usize = branch_position(&worktrees, name);
        self.worktrees = Selection::wrap_at(worktrees, at);
    }

    fn builder_select(&self) -> (r: Task)
        requires
            self.wf(),
        ensures
            r@ == preparing(self@),
    {
        let tunnel = match self.marked_tunnel() {
            Some(t) => t.clone(),
            None => {
                return Task::Nothing;
            },
        };
        let host_root = match self.marked_path() {
            Some(p) => p,
            None => {
                return Task::Nothing;
            },
        };
        let worktree = if self.current_is_git {
            match self.marked_entry() {
                Some(w) => Some(w.clone()),
                None => None,
            }
        } else {
            None
        };
        let pending_branch = match &worktree {
            Some(w) => if !w.has_worktree && !w.branch.as_str().is_empty() {
                Some(w.branch.clone())
            } else {
                None
            },
            None => None,
        };
        let container_info = match &self.container_info {
            Some(i) => Some(i.clone()),
            None => None,
        };
        Task::PrepareChannel(
            BuilderChoice { tunnel, host_root, worktree, container_info, pending_branch },
        )
    }

    /// Takes over what was found out about the chosen directory, and the image meant for it.
    fn see_host(
        &mut self,
        is_repo: bool,
        worktrees: Vec<WorktreeEntry>,
        default_image: &Option<String>,
    ) -> (r: Task)
        requires
            old(self).wf(),
        ensures
            final(self).wf(),
            (Some(final(self)@), r@) == host_seen(
                old(self)@,
                is_repo,
                builder::branch_views(worktrees@),
                text::opt_view(*default_image),
            ),
    {
        proof {
            reveal(host_seen);
        }
        self.take_host(is_repo, worktrees);
        let _changed = self.use_default_image(default_image);
        self.container_task()
    }

    fn see_start(&mut self, is_repo: bool, worktrees: Vec<WorktreeEntry>)
        requires
            old(self).wf(),
        ensures
            final(self).wf(),
            final(self)@ == with_start(old(self)@, is_repo, builder::branch_views(worktrees@)),
    {
        proof {
            reveal(with_start);
        }
        let found = if is_repo {
            worktrees
        } else {
            let v: Vec<WorktreeEntry> = Vec::new();
            assert(builder::branch_views(v@) =~= Seq::empty());
            v
        };
        self.current_is_git = is_repo;
        self.worktrees = Selection::wrap_at(found, 0);
    }

    fn see_image(&mut self, image: &Option<String>) -> (r: Task)
        requires
            old(self).wf(),
        ensures
            final(self).wf(),
            (Some(final(self)@), r@) == image_seen(old(self)@, text::opt_view(*image)),
    {
        proof {
            reveal(image_seen);
        }
        if self.use_default_image(image) {
            self.container_info = None;
            self.container_task()
        } else {
            Task::Nothing
        }
    }

    fn see_found(
        &mut self,
        images: &Vec<(String, Option<String>)>,
        info: Option<ContainerInfo>,
        worktrees: Vec<WorktreeEntry>,
    ) -> (r: Task)
        requires
            old(self).wf(),
        ensures
            final(self).wf(),
            (Some(final(self)@), r@) == found(
                old(self)@,
                image_views(images@),
                builder::info_view(info),
                builder::branch_views(worktrees@),
            ),
    {
        proof {
            reveal(found);
        }
        let first = !self.images_loaded;
        self.take_found(images, info, worktrees);
        match self.marked_path() {
            Some(p) => if first {
                Task::FindImage(p)
            } else {
                Task::Nothing
            },
            None => Task::Nothing,
        }
    }

    fn see_path(&mut self, path: &str) -> (r: Task)
        requires
            old(self).wf(),
        ensures
            final(self).wf(),
            (Some(final(self)@), r@) == path_added(old(self)@, path@),
    {
        proof {
            reveal(path_added);
        }
        self.choose_path(path);
        Task::LoadHost(self.marked_path())
    }

    fn see_branch(&mut self, name: &str, result: Result<Vec<WorktreeEntry>, String>) -> (r: Task)
        requires
            old(self).wf(),
        ensures
            final(self).wf(),
            (Some(final(self)@), r@) == branch_seen(old(self)@, name@, branches_result(result)),
    {
        proof {
            reveal(branch_seen);
        }
        match result {
            Ok(v) => {
                self.take_branch(name, v);
                self.container_task()
            },
            Err(e) => {
                self.edit_error = Some(text::concat("Could not create branch: ", e.as_str()));
                Task::Nothing
            },
        }
    }

    fn handle_input_key(&mut self, key: KeyEvent) -> (r: Task)
        requires
            old(self).wf(),
            old(self).edit is Some,
        ensures
            final(self).wf(),
            (final(self)@, r@) == input_key(old(self)@, key),
    {
        proof {
            reveal(input_key);
        }
        match key.code {
            KeyCode::Esc => {
                self.edit = None;
                self.edit_error = None;
                Task::Nothing
            },
            KeyCode::Enter => {
                let is_branch = match &self.edit {
                    Some(BuilderEdit::Branch(_)) => true,
                    _ => false,
                };
                if is_branch {
                    self.take_branch_input()
                } else {
                    self.take_path_input()
                }
            },
            _ => {
                self.type_key(key);
                Task::Nothing
            },
        }
    }

    /// Handles a key; says whether the builder closes.
    pub fn handle_key(&mut self, key: KeyEvent) -> (r: (bool, Task))
        requires
            old(self).wf(),
        ensures
            final(self).wf(),
            (
                if r.0 {
                    None
                } else {
                    Some(final(self)@)
                },
                r.1@,
            ) == builder_key(old(self)@, key),
    {
        proof {
            reveal(builder_key);
        }
        if self.edit.is_some() {
            return (false, self.handle_input_key(key));
        }
        match key.code {
            KeyCode::Esc => (true, Task::Nothing),
            KeyCode::Enter => (true, self.builder_select()),
            KeyCode::Char('a') => {
                self.open_path_input();
                (false, Task::Nothing)
            },
            KeyCode::Char('b') => {
                self.open_branch_input();
                (false, Task::Nothing)
            },
            KeyCode::Down | KeyCode::Char('j') | KeyCode::Up | KeyCode::Char('k') => {
                let t = self.move_in_column(key);
                (false, t)
            },
            KeyCode::Left | KeyCode::Char('h') => {
                self.go_left();
                (false, Task::Nothing)
            },
            KeyCode::Right | KeyCode::Char('l') => {
                self.go_right();
                (false, Task::Nothing)
            },
            _ => (false, Task::Nothing),
        }
    }
}

/// Builder and work after a key in an input.
#[verifier::opaque]
pub open spec fn input_key(b: types::BuilderModel, key: KeyEvent) -> (
    types::BuilderModel,
    types::TaskModel,
) {
    match key.code {
        KeyCode::Esc => (
            types::BuilderModel { edit: None, edit_error: None, ..b },
            types::TaskModel::Nothing,
        ),
        KeyCode::Enter => if b.edit is Some && b.edit->0 is Branch {
            branch_taken(b)
        } else {
            path_taken(b)
        },
        _ => (typed(b, key), types::TaskModel::Nothing),
    }
}

/// Builder and work after a key; the builder may close.
#[verifier::opaque]
pub open spec fn builder_key(b: types::BuilderModel, key: KeyEvent) -> (
    Option<types::BuilderModel>,
    types::TaskModel,
) {
    if b.edit is Some {
        let (n, t) = input_key(b, key);
        (Some(n), t)
    } else {
        match key.code {
            KeyCode::Esc => (None, types::TaskModel::Nothing),
            KeyCode::Enter => (None, preparing(b)),
            KeyCode::Char('a') => (Some(path_input(b)), types::TaskModel::Nothing),
            KeyCode::Char('b') => (Some(branch_input(b)), types::TaskModel::Nothing),
            KeyCode::Down | KeyCode::Char('j') | KeyCode::Up | KeyCode::Char('k') => {
                let (n, t) = column_moved(b, key);
                (Some(n), t)
            },
            KeyCode::Left | KeyCode::Char('h') => (
                Some(types::BuilderModel { col: left_of(b), ..b }),
                types::TaskModel::Nothing,
            ),
            KeyCode::Right | KeyCode::Char('l') => (
                Some(types::BuilderModel { col: right_of(b), ..b }),
                types::TaskModel::Nothing,
            ),
            _ => (Some(b), types::TaskModel::Nothing),
        }
    }
}

// ---------------------------------------------------------------------------
// The builder in the program
// ---------------------------------------------------------------------------
/// The directories that the builder offers.
pub open spec fn offered_paths(m: AppModel, cwd: Option<Seq<char>>) -> Seq<Seq<char>> {
    let argv = match m.builder {
        Some(b) => b.argv_path,
        None => None,
    };
    builder::distinct_paths(
        table::keys(m.config.paths@) + builder::one_or_none(cwd) + builder::one_or_none(argv),
    )
}

/// The position of the first directory that the directory of the channel holds in its name, or
/// how many there are.
pub open spec fn near_at(v: Seq<Seq<char>>, root: Seq<char>) -> int
    decreases v.len(),
{
    if v.len() == 0 || text::holds(root, v[0]) {
        0
    } else {
        1 + near_at(v.drop_first(), root)
    }
}

/// The directory of the channel of the active session; empty where there is none.
pub open spec fn current_root(m: AppModel) -> Seq<char> {
    match m.current().channel {
        Some(c) => match c.says().host_root {
            Some(p) => p,
            None => Seq::empty(),
        },
        None => Seq::empty(),
    }
}

/// The builder as it opens.
pub open spec fn opened(m: AppModel, cwd: Option<Seq<char>>) -> types::BuilderModel {
    let paths = offered_paths(m, cwd);
    types::BuilderModel {
        tunnels: ring(seq![builder::TunnelModel::Local], 0),
        host_paths: ring(
            paths,
            if m.current().channel is Some {
                picker::or_first(near_at(paths, current_root(m)), paths.len())
            } else {
                0
            },
        ),
        worktrees: ring(Seq::empty(), 0),
        col: 1,
        container_info: None,
        images_loaded: false,
        current_is_git: false,
        argv_path: None,
        edit: None,
        edit_error: None,
    }
}

/// State and work with the builder replaced, where it is open.
pub open spec fn with_builder(
    m: AppModel,
    r: (Option<types::BuilderModel>, types::TaskModel),
) -> (AppModel, types::TaskModel) {
    if m.builder is Some {
        (AppModel { builder: r.0, ..m }, r.1)
    } else {
        (m, types::TaskModel::Nothing)
    }
}

/// The builder after its first directory was looked at.
#[verifier::opaque]
pub open spec fn with_start(
    b: types::BuilderModel,
    is_repo: bool,
    worktrees: Seq<builder::BranchModel>,
) -> types::BuilderModel {
    types::BuilderModel {
        current_is_git: is_repo,
        worktrees: ring(
            if is_repo {
                worktrees
            } else {
                Seq::empty()
            },
            0,
        ),
        ..b
    }
}

/// Builder and work after the chosen directory was looked at.
#[verifier::opaque]
pub open spec fn host_seen(
    b: types::BuilderModel,
    is_repo: bool,
    worktrees: Seq<builder::BranchModel>,
    image: Option<Seq<char>>,
) -> (Option<types::BuilderModel>, types::TaskModel) {
    let n = with_image(with_host(b, is_repo, worktrees), image);
    (Some(n), finding(n))
}

/// Builder and work after something was found out in the meantime. When the images come in, the
/// one that is meant for the directory is looked for.
#[verifier::opaque]
pub open spec fn found(
    b: types::BuilderModel,
    images: Seq<(Seq<char>, Option<Seq<char>>)>,
    info: Option<builder::InfoModel>,
    worktrees: Seq<builder::BranchModel>,
) -> (Option<types::BuilderModel>, types::TaskModel) {
    (
        Some(with_found(b, images, info, worktrees)),
        match marked(b.host_paths) {
            Some(p) => if b.images_loaded {
                types::TaskModel::Nothing
            } else {
                types::TaskModel::FindImage(p)
            },
            None => types::TaskModel::Nothing,
        },
    )
}

/// Builder and work after the image that is meant for the directory was found.
#[verifier::opaque]
pub open spec fn image_seen(b: types::BuilderModel, image: Option<Seq<char>>) -> (
    Option<types::BuilderModel>,
    types::TaskModel,
) {
    if image_differs(b, image) {
        let n = types::BuilderModel { container_info: None, ..with_image(b, image) };
        (Some(n), finding(n))
    } else {
        (Some(b), types::TaskModel::Nothing)
    }
}

/// Builder and work after a directory was added.
#[verifier::opaque]
pub open spec fn path_added(b: types::BuilderModel, path: Seq<char>) -> (
    Option<types::BuilderModel>,
    types::TaskModel,
) {
    let n = with_path(b, path);
    (Some(n), types::TaskModel::LoadHost(marked(n.host_paths)))
}

/// State and work after a directory was looked for: where it is not there, the user is asked.
pub open spec fn path_seen(m: AppModel, path: Seq<char>, exists: bool) -> (
    AppModel,
    types::TaskModel,
) {
    if exists {
        with_builder(m, path_added(m.builder->0, path))
    } else {
        (AppModel { path_confirm: Some(path), ..m }, types::TaskModel::Nothing)
    }
}

/// State and work after a key in the question whether to make a directory.
pub open spec fn path_key_handled(m: AppModel, key: KeyEvent) -> (AppModel, types::TaskModel) {
    match m.path_confirm {
        None => (m, types::TaskModel::Nothing),
        Some(path) => match key.code {
            KeyCode::Esc => with_builder(
                AppModel { path_confirm: None, ..m },
                    (Some(path_input_again(m.builder->0, path, None)), types::TaskModel::Nothing),
            ),
            KeyCode::Enter | KeyCode::Char(' ') => (
                AppModel { path_confirm: None, ..m },
                types::TaskModel::MakeDir(path),
            ),
            _ => (m, types::TaskModel::Nothing),
        },
    }
}

/// State and work after a directory was to be made.
pub open spec fn dir_seen(m: AppModel, path: Seq<char>, error: Option<Seq<char>>) -> (
    AppModel,
    types::TaskModel,
) {
    with_builder(
        m,
            match error {
                None => path_added(m.builder->0, path),
                Some(e) => (
                    Some(path_input_again(m.builder->0, path, Some("Could not create directory: "@ + e))),
                    types::TaskModel::Nothing,
                ),
            },
    )
}

/// What came of making a branch: what the repository holds now, or why there is none.
pub open spec fn branches_result(r: Result<Vec<WorktreeEntry>, String>) -> Result<
    Seq<builder::BranchModel>,
    Seq<char>,
> {
    match r {
        Ok(v) => Ok(builder::branch_views(v@)),
        Err(e) => Err(e@),
    }
}

/// Builder and work after a branch was to be made.
#[verifier::opaque]
pub open spec fn branch_seen(
    b: types::BuilderModel,
    name: Seq<char>,
    result: Result<Seq<builder::BranchModel>, Seq<char>>,
) -> (Option<types::BuilderModel>, types::TaskModel) {
    match result {
        Ok(v) => {
            let n = with_branch(b, name, v);
            (Some(n), finding(n))
        },
        Err(e) => (
            Some(
                types::BuilderModel { edit_error: Some("Could not create branch: "@ + e), ..b },
            ),
            types::TaskModel::Nothing,
        ),
    }
}

/// The position of a directory near that of the channel.
fn near_position(v: &Vec<HostPath>, root: &str) -> (r: usize)
    ensures
        r == picker::or_first(near_at(builder::host_views(v@), root@), v@.len()),
{
    let ghost want = builder::host_views(v@);
    let mut i: usize = 0;
    assert(want.skip(0) =~= want);
    while i < v.len()
        invariant
            i <= v@.len(),
            want == builder::host_views(v@),
            near_at(want, root@) == i + near_at(want.skip(i as int), root@),
        decreases v@.len() - i,
    {
        assert(want.skip(i as int)[0] == v@[i as int].path@);
        assert(want.skip(i as int).drop_first() =~= want.skip(i + 1));
        if text::holds_text(root, v[i].path.as_str()) {
            return i;
        }
        i += 1;
    }
    0
}

impl App {
    fn offered_host_paths(&self, cwd: Option<&str>) -> (r: Vec<HostPath>)
        ensures
            builder::host_views(r@) == offered_paths(self@, config::opt_str(cwd)),
    {
        let argv = match &self.channel_builder {
            Some(b) => match &b.argv_path {
                Some(p) => Some(p.as_str()),
                None => None,
            },
            None => None,
        };
        collect_host_paths(&self.config.paths, cwd, argv)
    }

    fn start_position(&self, v: &Vec<HostPath>) -> (r: usize)
        requires
            self.ready(),
        ensures
            r == (if self@.current().channel is Some {
                picker::or_first(near_at(builder::host_views(v@), current_root(self@)), v@.len())
            } else {
                0
            }),
    {
        match &self.sessions[self.active].channel {
            Some(c) => match c.data.host_root() {
                Some(p) => near_position(v, p.as_str()),
                None => {
                    proof {
                        reveal_strlit("");
                        assert(""@ =~= Seq::empty());
                    }
                    near_position(v, "")
                },
            },
            None => 0,
        }
    }

    /// Opens the builder. `cwd` is the working directory of the program.
    pub fn open_channel_builder(&mut self, cwd: Option<&str>) -> (r: Task)
        requires
            old(self).ready(),
        ensures
            final(self).ready(),
            ({
                let b = opened(old(self)@, config::opt_str(cwd));
                &&& final(self)@ == (AppModel { builder: Some(b), ..old(self)@ })
                &&& r@ == types::TaskModel::LoadStart(marked(b.host_paths))
            }),
    {
        let paths = self.offered_host_paths(cwd);
        let start: usize = self.start_position(&paths);
        let mut tunnels: Vec<Tunnel> = Vec::new();
        tunnels.push(Tunnel::Local);
        let entries: Vec<WorktreeEntry> = Vec::new();
        assert(builder::tunnel_views(tunnels@) =~= seq![builder::TunnelModel::Local]);
        assert(builder::branch_views(entries@) =~= Seq::empty());
        let b = ChannelBuilderState {
            tunnels: Selection::wrap_at(tunnels, 0),
            host_paths: Selection::wrap_at(paths, start),
            worktrees: Selection::wrap_at(entries, 0),
            col: 1,
            container_info: None,
            images_loaded: false,
            current_is_git: false,
            argv_path: None,
            edit: None,
            edit_error: None,
        };
        let t = Task::LoadStart(b.marked_path());
        self.channel_builder = Some(b);
        t
    }

    /// Takes over what was found out about the directory with which the builder starts.
    pub fn start_loaded(&mut self, is_repo: bool, worktrees: Vec<WorktreeEntry>)
        requires
            old(self).ready(),
        ensures
            final(self).ready(),
            final(self)@ == with_builder(
                old(self)@,
                    (
                        Some(with_start(old(self)@.builder->0, is_repo, builder::branch_views(worktrees@))),
                        types::TaskModel::Nothing,
                    ),
            ).0,
    {
        if let Some(b) = &mut self.channel_builder {
            b.see_start(is_repo, worktrees);
        }
    }

    /// Takes over what was found out about the chosen directory.
    pub fn host_loaded(
        &mut self,
        is_repo: bool,
        worktrees: Vec<WorktreeEntry>,
        default_image: Option<String>,
    ) -> (r: Task)
        requires
            old(self).ready(),
        ensures
            final(self).ready(),
            (final(self)@, r@) == with_builder(
                old(self)@,
                    host_seen(old(self)@.builder->0,
                        is_repo,
                        builder::branch_views(worktrees@),
                        text::opt_view(default_image),
                    ),
            ),
    {
        match &mut self.channel_builder {
            None => Task::Nothing,
            Some(b) => b.see_host(is_repo, worktrees, &default_image),
        }
    }

    /// Takes over what was found out in the meantime.
    pub fn builder_loaded(
        &mut self,
        images: &Vec<(String, Option<String>)>,
        info: Option<ContainerInfo>,
        worktrees: Vec<WorktreeEntry>,
    ) -> (r: Task)
        requires
            old(self).wf(),
        ensures
            final(self).wf(),
            final(self).sessions == old(self).sessions,
            (final(self)@, r@) == with_builder(
                old(self)@,
                    found(old(self)@.builder->0,
                        image_views(images@),
                        builder::info_view(info),
                        builder::branch_views(worktrees@),
                    ),
            ),
    {
        match &mut self.channel_builder {
            None => Task::Nothing,
            Some(b) => b.see_found(images, info, worktrees),
        }
    }

    /// Takes over the image that is meant for the chosen directory.
    pub fn image_found(&mut self, image: Option<String>) -> (r: Task)
        requires
            old(self).ready(),
        ensures
            final(self).ready(),
            (final(self)@, r@) == with_builder(
                old(self)@, image_seen(old(self)@.builder->0, text::opt_view(image)),
            ),
    {
        match &mut self.channel_builder {
            None => Task::Nothing,
            Some(b) => b.see_image(&image),
        }
    }

    fn add_host_path(&mut self, path: &str) -> (r: Task)
        requires
            old(self).ready(),
        ensures
            final(self).ready(),
            (final(self)@, r@) == with_builder(
                old(self)@, path_added(old(self)@.builder->0, path@),
            ),
    {
        match &mut self.channel_builder {
            None => Task::Nothing,
            Some(b) => b.see_path(path),
        }
    }

    fn ask_for_path_again(&mut self, path: &str, error: Option<String>)
        requires
            old(self).ready(),
        ensures
            final(self).ready(),
            final(self)@ == with_builder(
                old(self)@,
                    (
                        Some(path_input_again(old(self)@.builder->0, path@, text::opt_view(error))),
                        types::TaskModel::Nothing,
                    ),
            ).0,
    {
        if let Some(b) = &mut self.channel_builder {
            b.reopen_path_input(path, error);
        }
    }

    /// Adds a directory to the builder, or asks where it is not there.
    pub fn path_checked(&mut self, path: String, exists: bool) -> (r: Task)
        requires
            old(self).ready(),
        ensures
            final(self).ready(),
            (final(self)@, r@) == path_seen(old(self)@, path@, exists),
    {
        if !exists {
            self.path_confirm = Some(PathConfirm { path });
            return Task::Nothing;
        }
        self.add_host_path(path.as_str())
    }

    fn close_path_confirm(&mut self)
        requires
            old(self).ready(),
        ensures
            final(self).ready(),
            final(self)@ == (AppModel { path_confirm: None, ..old(self)@ }),
    {
        self.path_confirm = None;
    }

    /// Handles a key in the question whether to make a directory.
    pub fn handle_path_confirm_key(&mut self, key: KeyEvent) -> (r: Task)
        requires
            old(self).ready(),
        ensures
            final(self).ready(),
            (final(self)@, r@) == path_key_handled(old(self)@, key),
    {
        let path = match &self.path_confirm {
            Some(d) => d.path.clone(),
            None => {
                return Task::Nothing;
            },
        };
        match key.code {
            KeyCode::Esc => {
                self.close_path_confirm();
                self.ask_for_path_again(path.as_str(), None);
                Task::Nothing
            },
            KeyCode::Enter | KeyCode::Char(' ') => {
                self.close_path_confirm();
                Task::MakeDir(path)
            },
            _ => Task::Nothing,
        }
    }

    /// Adds a directory that was made, or asks for another one with the reason why it was not.
    pub fn dir_made(&mut self, path: &str, error: Option<String>) -> (r: Task)
        requires
            old(self).ready(),
        ensures
            final(self).ready(),
            (final(self)@, r@) == dir_seen(old(self)@, path@, text::opt_view(error)),
    {
        match error {
            None => self.add_host_path(path),
            Some(e) => {
                self.ask_for_path_again(
                    path,
                    Some(text::concat("Could not create directory: ", e.as_str())),
                );
                Task::Nothing
            },
        }
    }

    /// Takes over a branch that was made, or says why it was not.
    pub fn branch_created(&mut self, name: &str, result: Result<Vec<WorktreeEntry>, String>) -> (r:
        Task)
        requires
            old(self).ready(),
        ensures
            final(self).ready(),
            (final(self)@, r@) == with_builder(
                old(self)@, branch_seen(old(self)@.builder->0, name@, branches_result(result)),
            ),
    {
        match &mut self.channel_builder {
            None => Task::Nothing,
            Some(b) => b.see_branch(name, result),
        }
    }

    /// Handles a key in the builder.
    pub fn handle_builder_key(&mut self, key: KeyEvent) -> (r: Task)
        requires
            old(self).ready(),
        ensures
            final(self).ready(),
            (final(self)@, r@) == with_builder(
                old(self)@, builder_key(old(self)@.builder->0, key),
            ),
    {
        let closed = match &mut self.channel_builder {
            None => {
                return Task::Nothing;
            },
            Some(b) => b.handle_key(key),
        };
        if closed.0 {
            self.channel_builder = None;
        }
        closed.1
    }
}

// ---------------------------------------------------------------------------
// Laws
// ---------------------------------------------------------------------------
/// Typing into an input changes neither the lists nor what is chosen in them, and never closes
/// the builder.
pub proof fn law_typing_leaves_the_choice(b: types::BuilderModel, key: KeyEvent)
    requires
        b.edit is Some,
    ensures
        builder_key(b, key).0 matches Some(n) && n.tunnels == b.tunnels && n.host_paths
            == b.host_paths && n.worktrees == b.worktrees && n.col == b.col,
{
    reveal(builder_key);
    reveal(input_key);
}

/// The column of worktrees is entered in a repository only.
pub proof fn law_worktrees_need_a_repository(b: types::BuilderModel, key: KeyEvent)
    requires
        b.col < 2,
        !b.current_is_git,
    ensures
        builder_key(b, key).0 matches Some(n) ==> n.col < 2,
{
    reveal(builder_key);
    reveal(input_key);
}

proof fn lemma_path_at(v: Seq<Seq<char>>, path: Seq<char>)
    ensures
        0 <= path_at(v, path) <= v.len(),
        path_at(v, path) < v.len() ==> channel::paths::parts(v[path_at(v, path)])
            == channel::paths::parts(path),
        forall|i: int|
            0 <= i < path_at(v, path) ==> channel::paths::parts(#[trigger] v[i])
                != channel::paths::parts(path),
    decreases v.len(),
{
    if v.len() > 0 && channel::paths::parts(v[0]) != channel::paths::parts(path) {
        let t = v.drop_first();
        lemma_path_at(t, path);
        assert forall|i: int| 0 <= i < path_at(v, path) implies channel::paths::parts(
            #[trigger] v[i],
        ) != channel::paths::parts(path) by {
            if i > 0 {
                assert(v[i] == t[i - 1]);
            }
        }
    }
}

/// A directory that is added is the chosen one, and a second time nothing changes.
pub proof fn law_a_directory_is_added_once(b: types::BuilderModel, path: Seq<char>)
    requires
        b.host_paths.items.len() < usize::MAX,
        b.host_paths.nav.len == b.host_paths.items.len(),
    ensures
        ({
            let n = with_path(b, path);
            &&& marked(n.host_paths) is Some
            &&& channel::paths::parts(marked(n.host_paths)->0) == channel::paths::parts(path)
            &&& with_path(n, path) == n
        }),
{
    let v = b.host_paths.items;
    lemma_path_at(v, path);
    let k = path_at(v, path);
    let n = with_path(b, path);
    assert forall|i: int| 0 <= i < k implies channel::paths::parts(
        #[trigger] n.host_paths.items[i],
    ) != channel::paths::parts(path) by {
        assert(n.host_paths.items[i] == v[i]);
    }
    lemma_path_at_is(n.host_paths.items, path, k);
}

proof fn lemma_tunnel_at(v: Seq<builder::TunnelModel>, image: Seq<char>)
    ensures
        0 <= tunnel_at(v, image) <= v.len(),
        forall|i: int|
            0 <= i < tunnel_at(v, image) ==> !(builder::image_of(#[trigger] v[i]) matches Some(n)
                && builder::same_image(n, image)),
    decreases v.len(),
{
    if v.len() > 0 && !(builder::image_of(v[0]) matches Some(n) && builder::same_image(n, image)) {
        let t = v.drop_first();
        lemma_tunnel_at(t, image);
        assert forall|i: int| 0 <= i < tunnel_at(v, image) implies !(builder::image_of(
            #[trigger] v[i],
        ) matches Some(n) && builder::same_image(n, image)) by {
            if i > 0 {
                assert(v[i] == t[i - 1]);
            }
        }
    }
}

/// Whether no image is offered twice.
pub open spec fn images_differ(v: Seq<builder::TunnelModel>) -> bool {
    forall|i: int, j: int|
        0 <= i < j < v.len() ==> match (
            builder::image_of(#[trigger] v[i]),
            builder::image_of(#[trigger] v[j]),
        ) {
            (Some(a), Some(b)) => !builder::same_image(a, b),
            _ => true,
        }
}

/// However often images come in, each is offered once.
pub proof fn law_images_are_offered_once(
    v: types::SelModel<builder::TunnelModel>,
    images: Seq<(Seq<char>, Option<Seq<char>>)>,
)
    requires
        images_differ(v.items),
    ensures
        images_differ(images_added(v, images).items),
    decreases images.len(),
{
    if images.len() > 0 {
        let before = images_added(v, images.drop_last());
        law_images_are_offered_once(v, images.drop_last());
        lemma_tunnel_at(before.items, images.last().0);
    }
}

/// Taking the choice closes the dialog and prepares the channel from what is marked: the tunnel, the
/// directory, and in a repository the worktree; a branch without a worktree gets one.
pub proof fn law_the_marked_choice_is_prepared(
    b: types::BuilderModel,
    key: KeyEvent,
    tunnel: builder::TunnelModel,
    root: Seq<char>,
)
    requires
        b.edit is None,
        key.code == KeyCode::Enter,
        b.tunnels.items.len() > 0,
        b.tunnels.items[b.tunnels.nav.cursor as int] == tunnel,
        b.host_paths.items.len() > 0,
        b.host_paths.items[b.host_paths.nav.cursor as int] == root,
    ensures
        ({
            let (n, task) = builder_key(b, key);
            &&& n is None
            &&& task matches types::TaskModel::PrepareChannel(c) && {
                &&& c.tunnel == tunnel
                &&& c.host_root == root
                &&& c.container_info == b.container_info
                &&& !b.current_is_git || b.worktrees.items.len() == 0 ==> c.worktree is None
                    && c.pending_branch is None
                &&& b.current_is_git && b.worktrees.items.len() > 0 ==> {
                    let w = b.worktrees.items[b.worktrees.nav.cursor as int];
                    &&& c.worktree == Some(w)
                    &&& w.has_worktree ==> c.pending_branch is None
                    &&& !w.has_worktree && w.branch.len() > 0 ==> c.pending_branch == Some(w.branch)
                }
            }
        }),
{
    reveal(builder_key);
}

/// Without a directory there is nothing to prepare; giving up closes the dialog and does nothing.
pub proof fn law_nothing_is_prepared_without_a_directory(b: types::BuilderModel, key: KeyEvent)
    requires
        b.edit is None,
    ensures
        key.code == KeyCode::Enter && b.host_paths.items.len() == 0 ==> builder_key(b, key) == (
            None::<types::BuilderModel>,
            types::TaskModel::Nothing,
        ),
        key.code == KeyCode::Esc ==> builder_key(b, key) == (
            None::<types::BuilderModel>,
            types::TaskModel::Nothing,
        ),
{
    reveal(builder_key);
}

/// An input is opened in its own column with what is marked there; giving it up closes it and keeps
/// the dialog.
pub proof fn law_inputs_begin_with_what_is_marked(b: types::BuilderModel, key: KeyEvent)
    ensures
        b.edit is None && key.code == KeyCode::Char('a') && b.col == 1 && b.host_paths.items.len() > 0
            ==> {
            let n = builder_key(b, key).0->0;
            n.edit is Some && n.edit->0 is HostPath && (n.edit->0)->HostPath_0.text
                == b.host_paths.items[b.host_paths.nav.cursor as int]
        },
        b.edit is None && key.code == KeyCode::Char('b') && b.col == 2 && b.worktrees.items.len() > 0
            ==> {
            let n = builder_key(b, key).0->0;
            n.edit is Some && n.edit->0 is Branch && (n.edit->0)->Branch_0.text
                == b.worktrees.items[b.worktrees.nav.cursor as int].branch
        },
        b.edit is None && key.code == KeyCode::Char('a') && b.col != 1 ==> builder_key(b, key) == (
            Some(b),
            types::TaskModel::Nothing,
        ),
        b.edit is None && key.code == KeyCode::Char('b') && b.col != 2 ==> builder_key(b, key) == (
            Some(b),
            types::TaskModel::Nothing,
        ),
        b.edit is Some && key.code == KeyCode::Esc ==> builder_key(b, key) == (
            Some(types::BuilderModel { edit: None, edit_error: None, ..b }),
            types::TaskModel::Nothing,
        ),
{
    reveal(builder_key);
    reveal(input_key);
}

/// A directory that was typed is looked at, without blanks around it, before anything is done with
/// it; nothing typed means nothing to do.
pub proof fn law_typed_directories_are_looked_at(
    b: types::BuilderModel,
    key: KeyEvent,
    e: editor::EditorModel,
)
    requires
        key.code == KeyCode::Enter,
        b.edit == Some(types::EditModel::HostPath(e)),
    ensures
        builder_key(b, key).0 == Some(types::BuilderModel { edit: None, edit_error: None, ..b }),
        text::trimmed(e.text).len() > 0 ==> builder_key(b, key).1 == types::TaskModel::CheckPath(
            text::trimmed(e.text),
        ),
        text::trimmed(e.text).len() == 0 ==> builder_key(b, key).1 == types::TaskModel::Nothing,
{
    reveal(builder_key);
    reveal(input_key);
}

/// A branch that was typed is made in the marked repository from the marked branch; without a name
/// it is asked for.
pub proof fn law_typed_branches_are_made_from_the_marked_one(
    b: types::BuilderModel,
    key: KeyEvent,
    e: editor::EditorModel,
    w: builder::BranchModel,
    repo: Seq<char>,
)
    requires
        key.code == KeyCode::Enter,
        b.edit == Some(types::EditModel::Branch(e)),
        b.host_paths.items.len() > 0,
        b.host_paths.items[b.host_paths.nav.cursor as int] == repo,
        b.worktrees.items.len() > 0,
        b.worktrees.items[b.worktrees.nav.cursor as int] == w,
    ensures
        ({
            let (n, task) = builder_key(b, key);
            let name = text::trimmed(e.text);
            &&& name.len() > 0 && w.branch.len() > 0 ==> n == Some(b) && task == (
            types::TaskModel::CreateBranch { repo, name, source: Some(w.branch) })
            &&& name.len() > 0 && w.branch.len() == 0 ==> task == (types::TaskModel::CreateBranch {
                repo,
                name,
                source: None,
            })
            &&& name.len() == 0 ==> task == types::TaskModel::Nothing && n == Some(
                types::BuilderModel { edit_error: Some("Enter a branch name"@), ..b },
            )
        }),
{
    reveal(builder_key);
    reveal(input_key);
}

/// A key moves the mark in its own column only. A directory that was moved to is looked into, and
/// with another tunnel or worktree a container is looked for.
#[verifier::rlimit(40)]
pub proof fn law_moving_looks_for_what_belongs_to_the_mark(
    b: types::BuilderModel,
    key: KeyEvent,
)
    requires
        b.edit is None,
        key.code == KeyCode::Down || key.code == KeyCode::Up || key.code == KeyCode::Char('j')
            || key.code == KeyCode::Char('k'),
    ensures
        ({
            let (r, task) = builder_key(b, key);
            let n = r->0;
            &&& r is Some
            &&& b.col != 0 ==> n.tunnels == b.tunnels
            &&& b.col != 1 ==> n.host_paths == b.host_paths
            &&& b.col != 2 ==> n.worktrees == b.worktrees
            &&& n.col == b.col
            &&& b.col == 1 && b.host_paths.items.len() > 0 && n.host_paths.nav.cursor
                != b.host_paths.nav.cursor ==> task == types::TaskModel::LoadHost(
                Some(b.host_paths.items[n.host_paths.nav.cursor as int]),
            )
            &&& b.col == 1 && n.host_paths.nav.cursor == b.host_paths.nav.cursor ==> task
                == types::TaskModel::Nothing
            &&& task matches types::TaskModel::FindContainer { path, image } ==> {
                &&& n.tunnels.items.len() > 0
                &&& n.tunnels.items[n.tunnels.nav.cursor as int] is Image
                &&& n.tunnels.items[n.tunnels.nav.cursor as int]->name == image
                &&& !b.current_is_git ==> path == n.host_paths.items[n.host_paths.nav.cursor as int]
            }
        }),
{
    reveal(builder_key);
}

/// The columns stand side by side: tunnels, directories and, in a repository, worktrees.
pub proof fn law_columns_stand_side_by_side(b: types::BuilderModel, key: KeyEvent)
    requires
        b.edit is None,
        0 <= b.col <= 2,
        b.current_is_git,
    ensures
        key.code == KeyCode::Left || key.code == KeyCode::Char('h') ==> builder_key(b, key) == (
            Some(
                types::BuilderModel {
                    col: if b.col > 0 {
                        b.col - 1
                    } else {
                        0
                    },
                    ..b
                },
            ),
            types::TaskModel::Nothing,
        ),
        key.code == KeyCode::Right || key.code == KeyCode::Char('l') ==> builder_key(b, key) == (
            Some(
                types::BuilderModel {
                    col: if b.col < 2 {
                        b.col + 1
                    } else {
                        2
                    },
                    ..b
                },
            ),
            types::TaskModel::Nothing,
        ),
{
    reveal(builder_key);
}

/// A directory that is there is added and looked into; one that is not is made only where the user
/// agrees, and what went wrong brings the input back.
#[verifier::rlimit(40)]
pub proof fn law_missing_directories_are_asked_about(
    m: AppModel,
    b: types::BuilderModel,
    path: Seq<char>,
    key: KeyEvent,
    e: Seq<char>,
)
    requires
        m.builder == Some(b),
        b.host_paths.items.len() < usize::MAX,
        b.host_paths.nav.len == b.host_paths.items.len(),
    ensures
        path_seen(m, path, false) == (
            AppModel { path_confirm: Some(path), ..m },
            types::TaskModel::Nothing,
        ),
        path_seen(m, path, true).1 matches types::TaskModel::LoadHost(Some(p)) && channel::paths::parts(
            p,
        ) == channel::paths::parts(path),
        ({
            let asked = AppModel { path_confirm: Some(path), ..m };
            let r = path_key_handled(asked, key);
            let yes = key.code == KeyCode::Enter || key.code == KeyCode::Char(' ');
            &&& yes ==> r == (
                AppModel { path_confirm: None, ..asked },
                types::TaskModel::MakeDir(path),
            )
            &&& key.code == KeyCode::Esc ==> r.1 == types::TaskModel::Nothing && r.0.path_confirm
                is None && r.0.builder is Some && (r.0.builder->0).edit is Some
            &&& !yes && key.code != KeyCode::Esc ==> r == (asked, types::TaskModel::Nothing)
        }),
        dir_seen(m, path, Some(e)).1 == types::TaskModel::Nothing,
        (dir_seen(m, path, Some(e)).0.builder->0).edit_error == Some(
            "Could not create directory: "@ + e,
        ),
        dir_seen(m, path, None) == path_seen(m, path, true),
{
    reveal(path_added);
    law_a_directory_is_added_once(b, path);
}

proof fn lemma_branch_at(v: Seq<builder::BranchModel>, name: Seq<char>)
    ensures
        0 <= branch_at(v, name) <= v.len(),
        branch_at(v, name) < v.len() ==> v[branch_at(v, name)].branch == name,
        (exists|i: int| 0 <= i < v.len() && (#[trigger] v[i]).branch == name) ==> branch_at(v, name)
            < v.len(),
    decreases v.len(),
{
    if v.len() > 0 && v[0].branch != name {
        let t = v.drop_first();
        lemma_branch_at(t, name);
        if exists|i: int| 0 <= i < v.len() && (#[trigger] v[i]).branch == name {
            let i = choose|i: int| 0 <= i < v.len() && (#[trigger] v[i]).branch == name;
            assert(t[i - 1].branch == name);
        }
    }
}

/// A branch that was made is the marked one in the new list; one that could not be made is said and
/// the input stays.
pub proof fn law_a_made_branch_is_marked(
    b: types::BuilderModel,
    name: Seq<char>,
    v: Seq<builder::BranchModel>,
    i: int,
    e: Seq<char>,
)
    requires
        0 <= i < v.len() <= usize::MAX,
        v[i].branch == name,
    ensures
        ({
            let n = branch_seen(b, name, Ok(v)).0->0;
            &&& n.edit is None
            &&& n.edit_error is None
            &&& n.worktrees.items == v
            &&& n.worktrees.items[n.worktrees.nav.cursor as int].branch == name
        }),
        branch_seen(b, name, Err(e)) == (
            Some(types::BuilderModel { edit_error: Some("Could not create branch: "@ + e), ..b }),
            types::TaskModel::Nothing,
        ),
{
    reveal(branch_seen);
    lemma_branch_at(v, name);
}

/// What was found is taken: the container that fits, the images behind the tunnels that there are,
/// and the worktrees where none were known.
pub proof fn law_what_was_found_is_taken(
    b: types::BuilderModel,
    images: Seq<(Seq<char>, Option<Seq<char>>)>,
    info: Option<builder::InfoModel>,
    worktrees: Seq<builder::BranchModel>,
)
    ensures
        ({
            let (r, task) = found(b, images, info, worktrees);
            let n = r->0;
            &&& r is Some
            &&& n.container_info == info
            &&& n.images_loaded
            &&& n.host_paths == b.host_paths
            &&& n.col == b.col
            &&& b.worktrees.items.len() == 0 && worktrees.len() > 0 ==> n.worktrees.items
                == worktrees
            &&& b.worktrees.items.len() > 0 ==> n.worktrees == b.worktrees
            &&& !b.images_loaded && b.host_paths.items.len() > 0 ==> task
                == types::TaskModel::FindImage(b.host_paths.items[b.host_paths.nav.cursor as int])
            &&& b.images_loaded ==> task == types::TaskModel::Nothing
        }),
{
    reveal(found);
}

/// An image that is new is offered with its directory behind the others.
pub proof fn law_new_images_are_offered(
    v: types::SelModel<builder::TunnelModel>,
    name: Seq<char>,
    working_dir: Option<Seq<char>>,
)
    requires
        forall|i: int|
            0 <= i < v.items.len() ==> !(builder::image_of(#[trigger] v.items[i]) matches Some(n)
                && builder::same_image(n, name)),
    ensures
        images_added(v, seq![(name, working_dir)]).items == v.items.push(
            builder::TunnelModel::Image { name, working_dir },
        ),
        images_added(v, Seq::empty()) == v,
{
    let one = seq![(name, working_dir)];
    assert(one.drop_last() =~= Seq::empty());
    assert(images_added(v, one.drop_last()) == v);
    lemma_no_tunnel(v.items, name);
}

proof fn lemma_no_tunnel(v: Seq<builder::TunnelModel>, image: Seq<char>)
    requires
        forall|i: int|
            0 <= i < v.len() ==> !(builder::image_of(#[trigger] v[i]) matches Some(n)
                && builder::same_image(n, image)),
    ensures
        tunnel_at(v, image) == v.len(),
    decreases v.len(),
{
    if v.len() > 0 {
        let t = v.drop_first();
        assert(!(builder::image_of(v[0]) matches Some(n) && builder::same_image(n, image)));
        assert forall|i: int| 0 <= i < t.len() implies !(builder::image_of(#[trigger] t[i])
            matches Some(n) && builder::same_image(n, image)) by {
            assert(t[i] == v[i + 1]);
        }
        lemma_no_tunnel(t, image);
    }
}

/// The dialog opens with the local tunnel, with the directories that are known, in the column of
/// directories, and nothing found yet.
pub proof fn law_the_dialog_opens_with_what_is_known(m: AppModel, cwd: Option<Seq<char>>)
    ensures
        ({
            let b = opened(m, cwd);
            &&& b.tunnels.items.len() == 1
            &&& b.tunnels.items[0] is Local
            &&& b.col == 1
            &&& b.worktrees.items.len() == 0
            &&& b.container_info is None
            &&& !b.images_loaded
            &&& !b.current_is_git
            &&& b.edit is None
            &&& b.edit_error is None
        }),
{
}

/// In a directory that is no repository no worktrees are offered; in one that is, all of them, with
/// the main one marked.
pub proof fn law_worktrees_are_offered_in_repositories(
    b: types::BuilderModel,
    worktrees: Seq<builder::BranchModel>,
    image: Option<Seq<char>>,
)
    ensures
        ({
            let no = host_seen(b, false, worktrees, image).0->0;
            let yes = host_seen(b, true, worktrees, image).0->0;
            &&& no.worktrees.items.len() == 0
            &&& b.col > 1 ==> no.col == 1
            &&& b.col <= 1 ==> no.col == b.col
            &&& yes.col == b.col
            &&& !no.current_is_git
            &&& yes.worktrees.items == worktrees
            &&& yes.current_is_git
            &&& yes.container_info is None && no.container_info is None
        }),
        ({
            let no = with_start(b, false, worktrees);
            let yes = with_start(b, true, worktrees);
            no.worktrees.items.len() == 0 && !no.current_is_git && yes.worktrees.items == worktrees
                && yes.current_is_git
        }),
{
    reveal(host_seen);
    reveal(with_start);
}

/// In a field of the dialog the keys edit as everywhere: characters are typed, erased and stepped
/// over.
pub proof fn law_fields_are_edited(e: editor::EditorModel, key: KeyEvent, c: char)
    requires
        !key.modifiers.ctrl,
    ensures
        key.code == KeyCode::Char(c) ==> field_key(e, key) == editor::inserted(e, seq![c]),
        key.code == KeyCode::Backspace ==> field_key(e, key) == editor::erased_before(e),
        key.code == KeyCode::Delete ==> field_key(e, key) == editor::erased_behind(e),
        key.code == KeyCode::Left ==> field_key(e, key) == editor::moved_to(
            e,
            editor::near(e, -1),
            key.modifiers.shift,
        ),
        key.code == KeyCode::Right ==> field_key(e, key) == editor::moved_to(
            e,
            editor::near(e, 1),
            key.modifiers.shift,
        ),
        key.code == KeyCode::Home ==> field_key(e, key).cursor == 0,
        key.code == KeyCode::End ==> field_key(e, key).cursor == e.text.len(),
        key.code == KeyCode::Tab ==> field_key(e, key) == e,
{
}

proof fn lemma_tunnel_at_is(v: Seq<builder::TunnelModel>, image: Seq<char>, k: int)
    requires
        0 <= k < v.len(),
        builder::image_of(v[k]) matches Some(n) && builder::same_image(n, image),
        forall|i: int|
            0 <= i < k ==> !(builder::image_of(#[trigger] v[i]) matches Some(n)
                && builder::same_image(n, image)),
    ensures
        tunnel_at(v, image) == k,
    decreases v.len(),
{
    if k > 0 {
        let t = v.drop_first();
        assert(!(builder::image_of(v[0]) matches Some(n) && builder::same_image(n, image)));
        assert forall|i: int| 0 <= i < k - 1 implies !(builder::image_of(#[trigger] t[i])
            matches Some(n) && builder::same_image(n, image)) by {
            assert(t[i] == v[i + 1]);
        }
        lemma_tunnel_at_is(t, image, k - 1);
    }
}

/// The image of a directory is marked where it is offered, and a container is looked for; else
/// nothing changes.
pub proof fn law_the_image_of_a_directory_is_marked(
    b: types::BuilderModel,
    image: Seq<char>,
    k: int,
)
    requires
        0 <= k < b.tunnels.items.len() <= usize::MAX,
        builder::image_of(b.tunnels.items[k]) matches Some(n) && builder::same_image(n, image),
        forall|i: int|
            0 <= i < k ==> !(builder::image_of(#[trigger] b.tunnels.items[i]) matches Some(n)
                && builder::same_image(n, image)),
        b.host_paths.items.len() > 0,
    ensures
        (image_seen(b, Some(image)).0->0).tunnels.nav.cursor == k,
        (image_seen(b, Some(image)).0->0).tunnels.items == b.tunnels.items,
        k == b.tunnels.nav.cursor ==> image_seen(b, Some(image)) == (
            Some(b),
            types::TaskModel::Nothing,
        ),
        k != b.tunnels.nav.cursor ==> image_seen(b, Some(image)).1 is FindContainer
            && (image_seen(b, Some(image)).0->0).container_info is None,
        image_seen(b, None) == (Some(b), types::TaskModel::Nothing),
{
    reveal(image_seen);
    lemma_tunnel_at_is(b.tunnels.items, image, k);
}

/// A container is looked for in the worktree that is marked where there is one, else in the
/// directory.
pub proof fn law_containers_are_looked_for_in_the_worktree(
    b: types::BuilderModel,
    image: Seq<char>,
    working_dir: Option<Seq<char>>,
)
    requires
        b.tunnels.items.len() > 0,
        b.tunnels.items[b.tunnels.nav.cursor as int] == (builder::TunnelModel::Image {
            name: image,
            working_dir,
        }),
        b.host_paths.items.len() > 0,
    ensures
        ({
            let w = b.worktrees.items[b.worktrees.nav.cursor as int];
            let there = b.current_is_git && b.worktrees.items.len() > 0 && w.has_worktree
                && w.path.len() > 0;
            &&& there ==> finding(b) == (types::TaskModel::FindContainer { path: w.path, image })
            &&& !there ==> finding(b) == (types::TaskModel::FindContainer {
                path: b.host_paths.items[b.host_paths.nav.cursor as int],
                image,
            })
        }),
{
}

/// The directories that are offered are those of the configuration, the one that the program was
/// started in and the one that it was given, each once.
pub proof fn law_the_offered_directories(m: AppModel, cwd: Seq<char>)
    ensures
        m.builder is None ==> offered_paths(m, Some(cwd)) == builder::distinct_paths(
            table::keys(m.config.paths@) + seq![cwd],
        ),
        m.builder is None ==> offered_paths(m, None) == builder::distinct_paths(
            table::keys(m.config.paths@),
        ),
        m.builder matches Some(b) ==> (b.argv_path matches Some(a) ==> offered_paths(m, Some(cwd))
            == builder::distinct_paths(table::keys(m.config.paths@) + seq![cwd] + seq![a])),
        opened(m, Some(cwd)).host_paths.items == offered_paths(m, Some(cwd)),
{
    let keys = table::keys(m.config.paths@);
    let none = Seq::<Seq<char>>::empty();
    assert(keys + seq![cwd] + none =~= keys + seq![cwd]);
    assert(keys + none + none =~= keys);
}

proof fn lemma_main_at(v: Seq<builder::BranchModel>, k: int)
    requires
        0 <= k < v.len(),
        v[k].is_main,
        forall|i: int| 0 <= i < k ==> !(#[trigger] v[i]).is_main,
    ensures
        main_at(v) == k,
    decreases v.len(),
{
    if k > 0 {
        let t = v.drop_first();
        assert(!v[0].is_main);
        assert forall|i: int| 0 <= i < k - 1 implies !(#[trigger] t[i]).is_main by {
            assert(t[i] == v[i + 1]);
        }
        lemma_main_at(t, k - 1);
    }
}

/// The worktree of the directory itself is the marked one.
pub proof fn law_the_own_worktree_is_marked(
    b: types::BuilderModel,
    worktrees: Seq<builder::BranchModel>,
    image: Option<Seq<char>>,
    k: int,
)
    requires
        0 <= k < worktrees.len() <= usize::MAX,
        worktrees[k].is_main,
        forall|i: int| 0 <= i < k ==> !(#[trigger] worktrees[i]).is_main,
    ensures
        (host_seen(b, true, worktrees, image).0->0).worktrees.nav.cursor == k,
{
    reveal(host_seen);
    lemma_main_at(worktrees, k);
}

} // verus!
