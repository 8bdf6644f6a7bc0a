//! Closing channels and ending the program, without losing work unasked.

use super::keys::{KeyCode, KeyEvent};
use super::list;
use super::list::{move_by_line, ListNav};
use super::picker;
use super::session;
use super::session::Phase;
use super::state;
use super::state::{App, AppModel};
use super::types;
use super::types::{
    channel_close_worktree_options, ChannelClose, ChannelClosePhase, CloseKind, StopConfirm,
    StopConfirmEntry, Task,
};
use crate::channel;
use crate::channel::registry;
use crate::channel::{Channel, WorktreeInfo};
use crate::table;
use crate::text;
use vstd::prelude::*;
use vstd::string::*;

verus! {

/// A choice of two with the second one marked.
pub open spec fn second_of_two() -> ListNav {
    ListNav { len: 2, cursor: 1, offset: 0, wrap: false }
}

/// The session that is not asked: the one that is closed.
pub open spec fn skipped(m: AppModel, kind: CloseKind) -> int {
    if kind == CloseKind::Session {
        m.active
    } else {
        -1
    }
}

/// Whether a session works on the channel with the name.
pub open spec fn works_on(m: AppModel, i: int, name: Seq<char>) -> bool {
    &&& picker::bound_name(m.channels.map, m.sessions[i].channel) == Some(name)
    &&& (m.sessions[i].phase != Phase::Idle || m.sessions[i].open_tool_ids.len() > 0)
}

/// Whether another session works on the channel with the name.
#[verifier::opaque]
pub open spec fn in_use(m: AppModel, name: Seq<char>, kind: CloseKind) -> bool {
    exists|i: int|
        0 <= i < m.sessions.len() && i != skipped(m, kind) && #[trigger] works_on(m, i, name)
}

/// Whether a session is on the channel with the number.
pub open spec fn is_on(s: session::SessionModel, id: u64) -> bool {
    s.channel matches Some(c) && c.id == id
}

/// The sessions with those on a channel told to stop.
pub open spec fn stopped_on(v: Seq<session::SessionModel>, id: u64) -> Seq<session::SessionModel> {
    v.map_values(
        |s: session::SessionModel|
            if is_on(s, id) {
                session::SessionModel { cancel: true, ..s }
            } else {
                s
            },
    )
}

/// The sessions with those on a channel without it.
pub open spec fn parted_from(v: Seq<session::SessionModel>, id: u64) -> Seq<session::SessionModel> {
    v.map_values(
        |s: session::SessionModel|
            if is_on(s, id) {
                session::SessionModel { channel: None, ..s }
            } else {
                s
            },
    )
}

/// State and work to look after the worktree of a channel that is closed.
#[verifier::opaque]
pub open spec fn worktree_phase(m: AppModel, name: Seq<char>, kind: CloseKind) -> (
    AppModel,
    types::TaskModel,
) {
    match table::lookup(m.channels.map, name) {
        None => (m, types::TaskModel::CheckContainer { name, kind }),
        Some(c) => (
            AppModel { sessions: stopped_on(m.sessions, c.id), ..m },
            match c.says().worktree {
                Some(worktree) => types::TaskModel::CheckWorktree { name, kind, worktree },
                None => types::TaskModel::CheckContainer { name, kind },
            },
        ),
    }
}

/// State and work when a channel is to be closed: first it is asked whether a session works on it.
#[verifier::opaque]
pub open spec fn closing_begun(m: AppModel, name: Seq<char>, kind: CloseKind) -> (
    AppModel,
    types::TaskModel,
) {
    let n = AppModel { channel_picker: None, ..m };
    if in_use(n, name, kind) {
        (
            AppModel {
                channel_close: Some(
                    types::CloseModel {
                        name,
                        kind,
                        phase: types::PhaseModel::ActiveConfirm { nav: second_of_two() },
                    },
                ),
                ..n
            },
            types::TaskModel::Nothing,
        )
    } else {
        worktree_phase(n, name, kind)
    }
}

/// What was found out about a worktree.
#[derive(Debug, PartialEq)]
pub enum WorktreeAnswer {
    Unknown,
    Clean,
    /// It holds changes, with a summary where there is one.
    Dirty(Option<String>),
}

/// What was found out about a worktree.
pub enum AnswerModel {
    Unknown,
    Clean,
    Dirty(Option<Seq<char>>),
}

impl View for WorktreeAnswer {
    type V = AnswerModel;

    open spec fn view(&self) -> AnswerModel {
        match self {
            WorktreeAnswer::Unknown => AnswerModel::Unknown,
            WorktreeAnswer::Clean => AnswerModel::Clean,
            WorktreeAnswer::Dirty(s) => AnswerModel::Dirty(text::opt_view(*s)),
        }
    }
}

/// State and work after a worktree was looked at: a clean one is removed, one with changes is
/// asked about.
pub open spec fn after_worktree(
    m: AppModel,
    name: Seq<char>,
    kind: CloseKind,
    worktree: channel::WorktreeModel,
    answer: AnswerModel,
) -> (AppModel, types::TaskModel) {
    match answer {
        AnswerModel::Clean => (
            m,
            types::TaskModel::RemoveWorktree { name, kind, worktree, commit: false },
        ),
        AnswerModel::Unknown => (m, types::TaskModel::CheckContainer { name, kind }),
        AnswerModel::Dirty(summary) => (
            AppModel {
                channel_close: Some(
                    types::CloseModel {
                        name,
                        kind,
                        phase: types::PhaseModel::Worktree {
                            summary: match summary {
                                Some(s) => s,
                                None => "Worktree has uncommitted changes."@,
                            },
                            nav: ListNav { len: 4, cursor: 1, offset: 0, wrap: false },
                            options: types::worktree_choices(),
                        },
                    },
                ),
                ..m
            },
            types::TaskModel::Nothing,
        ),
    }
}

/// Whether a channel is forgotten when it is closed: always from the list, with its session only
/// where a worktree was made for it.
pub open spec fn is_forgotten(c: Option<registry::BoundModel>, kind: CloseKind) -> bool {
    kind == CloseKind::Picker || (c matches Some(b) && b.says().worktree is Some)
}

/// The channels after one was closed: its container no longer counts as started here.
pub open spec fn channels_after(r: registry::RegModel, name: Seq<char>, kind: CloseKind) -> registry::RegModel {
    let c = table::lookup(r.map, name);
    registry::RegModel {
        managed: match c {
            Some(b) => match b.says().container {
                Some(k) => registry::without_text(r.managed, k),
                None => r.managed,
            },
            None => r.managed,
        },
        map: if is_forgotten(c, kind) {
            table::without(r.map, name)
        } else {
            r.map
        },
        ..r
    }
}

/// The work to stop the container of a channel.
pub open spec fn stopping(c: Option<registry::BoundModel>) -> types::TaskModel {
    match c {
        Some(b) => match b.says().container {
            Some(k) => types::TaskModel::StopContainer(registry::stop_args(k)),
            None => types::TaskModel::Nothing,
        },
        None => types::TaskModel::Nothing,
    }
}

/// The state with a channel gone from the sessions and, where it is forgotten, from the list.
#[verifier::opaque]
pub open spec fn channel_gone(m: AppModel, name: Seq<char>, kind: CloseKind) -> AppModel {
    AppModel {
        sessions: match table::lookup(m.channels.map, name) {
            Some(c) => parted_from(m.sessions, c.id),
            None => m.sessions,
        },
        channels: channels_after(m.channels, name, kind),
        channel_close: None,
        ..m
    }
}

/// State and work when a channel is closed for good: the list opens again, or the session ends.
#[verifier::opaque]
pub open spec fn closed(m: AppModel, name: Seq<char>, kind: CloseKind) -> (
    AppModel,
    types::TaskModel,
) {
    let n = channel_gone(m, name, kind);
    (
        match kind {
            CloseKind::Picker => picker::with_channels(n),
            CloseKind::Session => state::without_current(n),
        },
        stopping(table::lookup(m.channels.map, name)),
    )
}

/// State and work after a container was looked at: what would be lost is asked about.
pub open spec fn after_container(
    m: AppModel,
    name: Seq<char>,
    kind: CloseKind,
    notes: Option<Seq<Seq<char>>>,
) -> (AppModel, types::TaskModel) {
    match notes {
        Some(v) => (
            AppModel {
                channel_close: Some(
                    types::CloseModel {
                        name,
                        kind,
                        phase: types::PhaseModel::Container { notes: v, nav: second_of_two() },
                    },
                ),
                ..m
            },
            types::TaskModel::Nothing,
        ),
        None => closed(m, name, kind),
    }
}

/// The state after the closing of a channel was given up: the list opens again, or the session
/// stays.
#[verifier::opaque]
pub open spec fn closing_given_up(m: AppModel, kind: CloseKind) -> AppModel {
    match kind {
        CloseKind::Picker => picker::with_channels(m),
        CloseKind::Session => m,
    }
}

/// The work to remove the worktree of a channel, or to look at its container where it has none.
pub open spec fn removing(m: AppModel, name: Seq<char>, kind: CloseKind, commit: bool) -> types::TaskModel {
    match table::lookup(m.channels.map, name) {
        Some(c) => match c.says().worktree {
            Some(worktree) => types::TaskModel::RemoveWorktree { name, kind, worktree, commit },
            None => types::TaskModel::CheckContainer { name, kind },
        },
        None => types::TaskModel::CheckContainer { name, kind },
    }
}

/// State and work after the marked answer was taken.
#[verifier::opaque]
pub open spec fn close_answered(m: AppModel, d: types::CloseModel) -> (AppModel, types::TaskModel) {
    let at = types::phase_nav(d.phase).cursor;
    match d.phase {
        types::PhaseModel::ActiveConfirm { .. } => if at == 0 {
            worktree_phase(m, d.name, d.kind)
        } else {
            (closing_given_up(m, d.kind), types::TaskModel::Nothing)
        },
        types::PhaseModel::Worktree { .. } => if at == 0 {
            (closing_given_up(m, d.kind), types::TaskModel::Nothing)
        } else if at == 1 {
            (m, removing(m, d.name, d.kind, false))
        } else if at == 2 {
            (m, types::TaskModel::CheckContainer { name: d.name, kind: d.kind })
        } else if at == 3 {
            (m, removing(m, d.name, d.kind, true))
        } else {
            (m, types::TaskModel::Nothing)
        },
        types::PhaseModel::Container { .. } => if at == 0 {
            closed(m, d.name, d.kind)
        } else {
            (closing_given_up(m, d.kind), types::TaskModel::Nothing)
        },
    }
}

/// How many answers a question about closing shows.
pub open spec fn answers_shown(p: types::PhaseModel) -> u16 {
    match p {
        types::PhaseModel::Worktree { options, .. } => options.len() as u16,
        _ => 2,
    }
}

/// The question with the mark after a key.
pub open spec fn close_moved(d: types::CloseModel, key: KeyEvent) -> types::CloseModel {
    types::CloseModel {
        phase: types::with_nav(
            d.phase,
            list::after_key(types::phase_nav(d.phase), key.code, answers_shown(d.phase)),
        ),
        ..d
    }
}

/// State and work after a key in the question about closing a channel.
pub open spec fn close_key_handled(m: AppModel, key: KeyEvent) -> (AppModel, types::TaskModel) {
    match m.channel_close {
        None => (m, types::TaskModel::Nothing),
        Some(d) => match key.code {
            KeyCode::Esc => (
                closing_given_up(AppModel { channel_close: None, ..m }, d.kind),
                types::TaskModel::Nothing,
            ),
            KeyCode::Enter => close_answered(AppModel { channel_close: None, ..m }, d),
            KeyCode::Char(' ') => close_answered(AppModel { channel_close: None, ..m }, d),
            _ => (
                AppModel { channel_close: Some(close_moved(d, key)), ..m },
                types::TaskModel::Nothing,
            ),
        },
    }
}

/// State and work when the active session is to end: its worker stops, and its channel is closed
/// with it.
pub open spec fn session_closing(m: AppModel) -> (AppModel, types::TaskModel) {
    let n = m.with_current(session::SessionModel { cancel: true, ..m.current() });
    match picker::bound_name(m.channels.map, m.current().channel) {
        Some(name) => closing_begun(n, name, CloseKind::Session),
        None => (state::without_current(n), types::TaskModel::Nothing),
    }
}

// ---------------------------------------------------------------------------
// The end of the program
// ---------------------------------------------------------------------------
/// What would be lost, channel by channel.
pub open spec fn losses(
    map: Seq<(Seq<char>, registry::BoundModel)>,
    names: Seq<Seq<char>>,
    notes: Seq<Option<Seq<Seq<char>>>>,
) -> Seq<types::StopEntryModel>
    decreases names.len(),
{
    if names.len() == 0 {
        Seq::empty()
    } else {
        let k = names.len() - 1;
        let before = losses(map, names.drop_last(), notes);
        match (table::lookup(map, names[k]), notes[k]) {
            (Some(c), Some(v)) => if v.len() > 0 {
                before.push(
                    types::StopEntryModel {
                        channel: names[k],
                        container: c.says().container,
                        notes: v,
                    },
                )
            } else {
                before
            },
            _ => before,
        }
    }
}

/// The question before the end: at most five of what would be lost, and how much more there is.
pub open spec fn stop_question(all: Seq<types::StopEntryModel>) -> types::StopModel {
    types::StopModel {
        entries: if all.len() > 5 {
            all.take(5)
        } else {
            all
        },
        more: if all.len() > 5 {
            all.len() - 5
        } else {
            0
        },
        nav: second_of_two(),
    }
}

/// What a list of notes that may be missing holds.
pub open spec fn note_views(v: Seq<Option<Vec<String>>>) -> Seq<Option<Seq<Seq<char>>>> {
    v.map_values(
        |o: Option<Vec<String>>|
            match o {
                Some(n) => Some(text::views(n@)),
                None => None,
            },
    )
}

/// The state with the question before the end, where something would be lost.
pub open spec fn stop_asked(m: AppModel, notes: Seq<Option<Seq<Seq<char>>>>) -> AppModel {
    let all = losses(m.channels.map, table::keys(m.channels.map), notes);
    if all.len() == 0 {
        m
    } else {
        AppModel { stop_confirm: Some(stop_question(all)), ..m }
    }
}

/// The state after a key in the question before the end.
pub open spec fn stop_key_handled(m: AppModel, key: KeyEvent) -> AppModel {
    match m.stop_confirm {
        None => m,
        Some(d) => {
            let n = AppModel { stop_confirm: None, ..m };
            let answered = AppModel { quit: m.quit || d.nav.cursor == 0, ..n };
            match key.code {
                KeyCode::Esc => n,
                KeyCode::Enter => answered,
                KeyCode::Char(' ') => answered,
                _ => AppModel {
                    stop_confirm: Some(
                        types::StopModel { nav: list::after_key(d.nav, key.code, 2), ..d },
                    ),
                    ..m
                },
            }
        },
    }
}

impl App {
    fn stop_sessions_on(&mut self, id: u64)
        requires
            old(self).ready(),
        ensures
            final(self).ready(),
            final(self)@ == (AppModel {
                sessions: stopped_on(old(self)@.sessions, id),
                ..old(self)@
            }),
    {
        let ghost m = self@;
        let ghost want = stopped_on(m.sessions, id);
        let n: usize = self.sessions.len();
        let mut i: usize = 0;
        while i < n
            invariant
                i <= n == self.sessions@.len(),
                self.ready(),
                want == stopped_on(m.sessions, id),
                m.sessions.len() == n,
                self@ == (AppModel { sessions: self@.sessions, ..m }),
                forall|k: int| 0 <= k < i ==> #[trigger] self@.sessions[k] == want[k],
                forall|k: int| i <= k < n ==> #[trigger] self@.sessions[k] == m.sessions[k],
            decreases n - i,
        {
            broadcast use session::lemma_session_changed;

            assert(self@.sessions[i as int] == m.sessions[i as int]);
            let on = match &self.sessions[i].channel {
                Some(c) => c.id == id,
                None => false,
            };
            if on {
                self.sessions[i].cancel = true;
            }
            i += 1;
        }
        assert(self@.sessions =~= want);
    }

    fn part_sessions_from(&mut self, id: u64)
        requires
            old(self).ready(),
        ensures
            final(self).ready(),
            final(self)@ == (AppModel {
                sessions: parted_from(old(self)@.sessions, id),
                ..old(self)@
            }),
    {
        let ghost m = self@;
        let ghost want = parted_from(m.sessions, id);
        let n: usize = self.sessions.len();
        let mut i: usize = 0;
        while i < n
            invariant
                i <= n == self.sessions@.len(),
                self.ready(),
                want == parted_from(m.sessions, id),
                m.sessions.len() == n,
                self@ == (AppModel { sessions: self@.sessions, ..m }),
                forall|k: int| 0 <= k < i ==> #[trigger] self@.sessions[k] == want[k],
                forall|k: int| i <= k < n ==> #[trigger] self@.sessions[k] == m.sessions[k],
            decreases n - i,
        {
            broadcast use session::lemma_session_changed;

            assert(self@.sessions[i as int] == m.sessions[i as int]);
            let on = match &self.sessions[i].channel {
                Some(c) => c.id == id,
                None => false,
            };
            if on {
                self.sessions[i].channel = None;
            }
            i += 1;
        }
        assert(self@.sessions =~= want);
    }

    fn channel_in_use(&self, name: &str, kind: CloseKind) -> (r: bool)
        requires
            self.ready(),
        ensures
            r == in_use(self@, name@, kind),
    {
        proof {
            reveal(in_use);
        }
        let n: usize = self.sessions.len();
        let mut i: usize = 0;
        while i < n
            invariant
                i <= n == self.sessions@.len(),
                n == self@.sessions.len(),
                forall|k: int|
                    0 <= k < i && k != skipped(self@, kind) ==> !works_on(self@, k, name@),
            decreases n - i,
        {
            let s = &self.sessions[i];
            assert(self@.sessions[i as int] == s@);
            if !(kind == CloseKind::Session && i == self.active) {
                let here = match &s.channel {
                    Some(c) => match self.channels.find_name(c) {
                        Some(found) => text::same_text(found.as_str(), name),
                        None => false,
                    },
                    None => false,
                };
                if here && (s.phase != Phase::Idle || s.open_tool_ids.len() > 0) {
                    proof {
                        reveal(in_use);
                        assert(works_on(self@, i as int, name@));
                    }
                    return true;
                }
                assert(!works_on(self@, i as int, name@));
            }
            i += 1;
        }
        false
    }

    fn close_channel_worktree_phase(&mut self, name: &str, kind: CloseKind) -> (r: Task)
        requires
            old(self).ready(),
        ensures
            final(self).ready(),
            (final(self)@, r@) == worktree_phase(old(self)@, name@, kind),
    {
        proof {
            reveal(worktree_phase);
        }
        match self.channels.get(name) {
            None => Task::CheckContainer { name: name.to_string(), kind },
            Some(c) => {
                self.stop_sessions_on(c.id);
                match c.data.owned_worktree() {
                    Some(worktree) => Task::CheckWorktree {
                        name: name.to_string(),
                        kind,
                        worktree,
                    },
                    None => Task::CheckContainer { name: name.to_string(), kind },
                }
            },
        }
    }

    fn ask_close(&mut self, d: ChannelClose)
        requires
            old(self).ready(),
            state::phase_wf(d.phase),
        ensures
            final(self).ready(),
            final(self)@ == (AppModel { channel_close: Some(d@), ..old(self)@ }),
    {
        self.channel_close = Some(d);
    }

    /// Begins to close a channel.
    pub fn begin_close_channel(&mut self, name: &str, kind: CloseKind) -> (r: Task)
        requires
            old(self).ready(),
        ensures
            final(self).ready(),
            (final(self)@, r@) == closing_begun(old(self)@, name@, kind),
    {
        proof {
            reveal(closing_begun);
        }
        let ghost m = self@;
        self.channel_picker = None;
        assert(self@ == AppModel { channel_picker: None, ..m });
        if self.channel_in_use(name, kind) {
            let phase = ChannelClosePhase::ActiveConfirm { nav: ListNav::new_at(2, 1) };
            self.ask_close(ChannelClose { name: name.to_string(), kind, phase });
            Task::Nothing
        } else {
            self.close_channel_worktree_phase(name, kind)
        }
    }

    /// Goes on when it was found out whether the worktree of a channel holds changes.
    pub fn worktree_checked(
        &mut self,
        name: &str,
        kind: CloseKind,
        worktree: WorktreeInfo,
        answer: WorktreeAnswer,
    ) -> (r: Task)
        requires
            old(self).ready(),
        ensures
            final(self).ready(),
            (final(self)@, r@) == after_worktree(old(self)@, name@, kind, worktree@, answer@),
    {
        match answer {
            WorktreeAnswer::Clean => Task::RemoveWorktree {
                name: name.to_string(),
                kind,
                worktree,
                commit: false,
            },
            WorktreeAnswer::Unknown => Task::CheckContainer { name: name.to_string(), kind },
            WorktreeAnswer::Dirty(summary) => {
                let summary = match summary {
                    Some(s) => s,
                    None => "Worktree has uncommitted changes.".to_string(),
                };
                let phase = ChannelClosePhase::Worktree {
                    summary,
                    nav: ListNav::new_at(4, 1),
                    options: channel_close_worktree_options(),
                };
                self.ask_close(ChannelClose { name: name.to_string(), kind, phase });
                Task::Nothing
            },
        }
    }

    /// Goes on when the worktree of a channel was removed, as far as it could be.
    pub fn worktree_removed(&self, name: &str, kind: CloseKind) -> (r: Task)
        ensures
            r@ == (types::TaskModel::CheckContainer { name: name@, kind }),
    {
        Task::CheckContainer { name: name.to_string(), kind }
    }

    fn drop_channel(&mut self, name: &str, kind: CloseKind) -> (r: Task)
        requires
            old(self).ready(),
        ensures
            final(self).ready(),
            final(self)@ == channel_gone(old(self)@, name@, kind),
            r@ == stopping(table::lookup(old(self)@.channels.map, name@)),
    {
        proof {
            reveal(channel_gone);
        }
        let ghost m = self@;
        let mut task = Task::Nothing;
        let mut owned = false;
        let target = self.channels.get(name);
        if let Some(c) = &target {
            if let Some(container) = c.data.container_name() {
                task = Task::StopContainer(self.channels.stop_one(container.as_str()));
            }
            self.part_sessions_from(c.id);
            owned = c.data.owned_worktree().is_some();
        }
        if kind == CloseKind::Picker || owned {
            self.channels.unregister(name);
        }
        self.channel_close = None;
        task
    }

    /// Closes a channel for good.
    pub fn finalize_close_channel(&mut self, name: &str, kind: CloseKind) -> (r: Task)
        requires
            old(self).ready(),
        ensures
            final(self).wf(),
            final(self)@.sessions.len() > 0 ==> final(self).ready(),
            (final(self)@, r@) == closed(old(self)@, name@, kind),
    {
        proof {
            reveal(closed);
        }
        let task = self.drop_channel(name, kind);
        match kind {
            CloseKind::Picker => self.open_channel_picker(),
            CloseKind::Session => self.finish_close_session(),
        }
        task
    }

    /// Goes on when it was found out what would be lost with the container of a channel.
    pub fn container_checked(&mut self, name: &str, kind: CloseKind, notes: Option<Vec<String>>) -> (r:
        Task)
        requires
            old(self).ready(),
        ensures
            final(self).wf(),
            final(self)@.sessions.len() > 0 ==> final(self).ready(),
            (final(self)@, r@) == after_container(
                old(self)@,
                name@,
                kind,
                match notes {
                    Some(v) => Some(text::views(v@)),
                    None => None,
                },
            ),
    {
        match notes {
            Some(notes) => {
                let phase = ChannelClosePhase::Container { notes, nav: ListNav::new_at(2, 1) };
                self.ask_close(ChannelClose { name: name.to_string(), kind, phase });
                Task::Nothing
            },
            None => self.finalize_close_channel(name, kind),
        }
    }

    fn give_up_closing(&mut self, kind: CloseKind)
        requires
            old(self).ready(),
        ensures
            final(self).ready(),
            final(self)@ == closing_given_up(old(self)@, kind),
    {
        proof {
            reveal(closing_given_up);
        }
        match kind {
            CloseKind::Picker => self.open_channel_picker(),
            CloseKind::Session => {},
        }
    }

    fn remove_worktree_of(&self, name: &str, kind: CloseKind, commit: bool) -> (r: Task)
        ensures
            r@ == removing(self@, name@, kind, commit),
    {
        match self.channels.get(name) {
            Some(c) => match c.data.owned_worktree() {
                Some(worktree) => Task::RemoveWorktree {
                    name: name.to_string(),
                    kind,
                    worktree,
                    commit,
                },
                None => Task::CheckContainer { name: name.to_string(), kind },
            },
            None => Task::CheckContainer { name: name.to_string(), kind },
        }
    }

    fn answer_worktree(&mut self, name: &str, kind: CloseKind, at: usize) -> (r: Task)
        requires
            old(self).ready(),
        ensures
            final(self).ready(),
            (final(self)@, r@) == (if at == 0 {
                (closing_given_up(old(self)@, kind), types::TaskModel::Nothing)
            } else if at == 1 {
                (old(self)@, removing(old(self)@, name@, kind, false))
            } else if at == 2 {
                (old(self)@, types::TaskModel::CheckContainer { name: name@, kind })
            } else if at == 3 {
                (old(self)@, removing(old(self)@, name@, kind, true))
            } else {
                (old(self)@, types::TaskModel::Nothing)
            }),
    {
        if at == 0 {
            self.give_up_closing(kind);
            Task::Nothing
        } else if at == 1 {
            self.remove_worktree_of(name, kind, false)
        } else if at == 2 {
            Task::CheckContainer { name: name.to_string(), kind }
        } else if at == 3 {
            self.remove_worktree_of(name, kind, true)
        } else {
            Task::Nothing
        }
    }

    fn answer_close(&mut self, d: &ChannelClose) -> (r: Task)
        requires
            old(self).ready(),
        ensures
            final(self).wf(),
            final(self)@.sessions.len() > 0 ==> final(self).ready(),
            (final(self)@, r@) == close_answered(old(self)@, d@),
    {
        proof {
            reveal(close_answered);
        }
        match &d.phase {
            ChannelClosePhase::ActiveConfirm { nav } => if nav.cursor == 0 {
                self.close_channel_worktree_phase(d.name.as_str(), d.kind)
            } else {
                self.give_up_closing(d.kind);
                Task::Nothing
            },
            ChannelClosePhase::Worktree { nav, .. } => {
                self.answer_worktree(d.name.as_str(), d.kind, nav.cursor)
            },
            ChannelClosePhase::Container { nav, .. } => if nav.cursor == 0 {
                self.finalize_close_channel(d.name.as_str(), d.kind)
            } else {
                self.give_up_closing(d.kind);
                Task::Nothing
            },
        }
    }

    fn move_in_close(&mut self, d: ChannelClose, key: KeyEvent)
        requires
            old(self).ready(),
            state::phase_wf(d.phase),
        ensures
            final(self).ready(),
            final(self)@ == (AppModel {
                channel_close: Some(close_moved(d@, key)),
                ..old(self)@
            }),
    {
        let phase = match d.phase {
            ChannelClosePhase::ActiveConfirm { mut nav } => {
                let _used = move_by_line(&mut nav, &key, 2);
                ChannelClosePhase::ActiveConfirm { nav }
            },
            ChannelClosePhase::Worktree { summary, mut nav, options } => {
                let shown: u16 = options.len() as u16;
                let _used = move_by_line(&mut nav, &key, shown);
                ChannelClosePhase::Worktree { summary, nav, options }
            },
            ChannelClosePhase::Container { notes, mut nav } => {
                let _used = move_by_line(&mut nav, &key, 2);
                ChannelClosePhase::Container { notes, nav }
            },
        };
        self.ask_close(ChannelClose { name: d.name, kind: d.kind, phase });
    }

    /// Handles a key in the question about closing a channel.
    pub fn handle_channel_close_key(&mut self, key: KeyEvent) -> (r: Task)
        requires
            old(self).ready(),
        ensures
            final(self).wf(),
            final(self)@.sessions.len() > 0 ==> final(self).ready(),
            (final(self)@, r@) == close_key_handled(old(self)@, key),
    {
        let ghost m = self@;
        let d = match self.channel_close.take() {
            Some(d) => d,
            None => {
                return Task::Nothing;
            },
        };
        assert(self@ == AppModel { channel_close: None, ..m });
        assert(AppModel { channel_close: None, ..self@ } == self@);
        match key.code {
            KeyCode::Esc => {
                self.give_up_closing(d.kind);
                Task::Nothing
            },
            KeyCode::Enter | KeyCode::Char(' ') => self.answer_close(&d),
            _ => {
                self.move_in_close(d, key);
                Task::Nothing
            },
        }
    }

    /// Ends the active session, with what belongs to its channel looked after first.
    pub fn close_session(&mut self) -> (r: Task)
        requires
            old(self).ready(),
        ensures
            final(self).wf(),
            final(self)@.sessions.len() > 0 ==> final(self).ready(),
            (final(self)@, r@) == session_closing(old(self)@),
    {
        let name = match &self.sessions[self.active].channel {
            Some(c) => self.channels.find_name(c),
            None => None,
        };
        self.stop_active();
        match name {
            Some(name) => self.begin_close_channel(name.as_str(), CloseKind::Session),
            None => {
                self.finish_close_session();
                Task::Nothing
            },
        }
    }

    /// Tells the worker of the active session to stop.
    pub fn stop_active(&mut self)
        requires
            old(self).ready(),
        ensures
            final(self).ready(),
            final(self)@ == old(self)@.with_current(
                session::SessionModel { cancel: true, ..old(self)@.current() },
            ),
    {
        broadcast use session::lemma_session_changed;

        let i: usize = self.active;
        self.sessions[i].cancel = true;
    }

    fn stop_confirm_entries(&self, notes: &Vec<Option<Vec<String>>>) -> (r: Vec<StopConfirmEntry>)
        requires
            self.ready(),
            notes@.len() == self@.channels.map.len(),
        ensures
            types::stop_views(r@) == losses(
                self@.channels.map,
                table::keys(self@.channels.map),
                note_views(notes@),
            ),
    {
        let names = self.channels.names();
        let ghost map = self@.channels.map;
        let ghost keys = table::keys(map);
        let ghost nv = note_views(notes@);
        let mut all: Vec<StopConfirmEntry> = Vec::new();
        let mut i: usize = 0;
        assert(keys.take(0) =~= Seq::empty());
        assert(types::stop_views(all@) =~= Seq::empty());
        assert(keys.len() == names@.len());
        while i < names.len()
            invariant
                i <= names@.len(),
                names@.len() == notes@.len(),
                keys == text::views(names@),
                map == self@.channels.map,
                nv == note_views(notes@),
                types::stop_views(all@) == losses(map, keys.take(i as int), nv),
            decreases names@.len() - i,
        {
            let ghost before = all@;
            assert(keys.take(i + 1).drop_last() =~= keys.take(i as int));
            assert(keys.take(i + 1)[i as int] == names@[i as int]@);
            if let Some(c) = self.channels.get(names[i].as_str()) {
                if let Some(v) = &notes[i] {
                    assert(nv[i as int] == Some(text::views(v@)));
                    if v.len() > 0 {
                        let e = StopConfirmEntry {
                            channel: names[i].clone(),
                            container: c.data.container_name(),
                            notes: text::copy_texts(v),
                        };
                        all.push(e);
                        assert(types::stop_views(all@) =~= types::stop_views(before).push(e@));
                    }
                } else {
                    assert(nv[i as int] is None);
                }
            }
            i += 1;
        }
        assert(keys.take(names@.len() as int) =~= keys);
        all
    }

    /// Asks before the end, where something would be lost; says whether it asks. `notes` gives what
    /// was found out about each channel.
    pub fn maybe_open_stop_confirm(&mut self, notes: &Vec<Option<Vec<String>>>) -> (r: bool)
        requires
            old(self).ready(),
            notes@.len() == old(self)@.channels.map.len(),
        ensures
            final(self).ready(),
            final(self)@ == stop_asked(old(self)@, note_views(notes@)),
            r == (losses(
                old(self)@.channels.map,
                table::keys(old(self)@.channels.map),
                note_views(notes@),
            ).len() > 0),
    {
        let mut entries = self.stop_confirm_entries(notes);
        let ghost all = types::stop_views(entries@);
        let n: usize = entries.len();
        if n == 0 {
            return false;
        }
        let mut more: usize = 0;
        if n > 5 {
            more = n - 5;
            entries.truncate(5);
            assert(types::stop_views(entries@) =~= all.take(5));
        }
        self.stop_confirm = Some(StopConfirm { entries, more, nav: ListNav::new_at(2, 1) });
        true
    }

    /// Ends the program, unless something would be lost and is asked about first.
    pub fn channels_checked(&mut self, notes: &Vec<Option<Vec<String>>>)
        requires
            old(self).ready(),
            notes@.len() == old(self)@.channels.map.len(),
        ensures
            final(self).ready(),
            final(self)@ == ({
                let n = stop_asked(old(self)@, note_views(notes@));
                let lost = losses(
                    old(self)@.channels.map,
                    table::keys(old(self)@.channels.map),
                    note_views(notes@),
                );
                AppModel { quit: n.quit || lost.len() == 0, ..n }
            }),
    {
        if !self.maybe_open_stop_confirm(notes) {
            self.quit = true;
        }
    }

    /// Handles a key in the question before the end.
    pub fn handle_stop_confirm_key(&mut self, key: KeyEvent)
        requires
            old(self).ready(),
        ensures
            final(self).ready(),
            final(self)@ == stop_key_handled(old(self)@, key),
    {
        let mut d = match self.stop_confirm.take() {
            Some(d) => d,
            None => {
                return ;
            },
        };
        match key.code {
            KeyCode::Esc => {},
            KeyCode::Enter | KeyCode::Char(' ') => {
                if d.nav.cursor == 0 {
                    self.quit = true;
                }
            },
            _ => {
                let _used = move_by_line(&mut d.nav, &key, 2);
                self.stop_confirm = Some(d);
            },
        }
    }
}

// ---------------------------------------------------------------------------
// Laws
// ---------------------------------------------------------------------------
/// Closing a channel that a session works on only asks: the safe answer is marked, and giving up
/// leaves channels and sessions as they are.
pub proof fn law_nothing_is_closed_unasked(
    m: AppModel,
    name: Seq<char>,
    kind: CloseKind,
)
    requires
        in_use(AppModel { channel_picker: None, ..m }, name, kind),
    ensures
        closing_begun(m, name, kind).0.sessions == m.sessions,
        closing_begun(m, name, kind).0.channels == m.channels,
        closing_begun(m, name, kind).1 == types::TaskModel::Nothing,
        types::phase_nav((closing_begun(m, name, kind).0.channel_close->0).phase).cursor == 1,
        closing_given_up(closing_begun(m, name, kind).0, kind).sessions == m.sessions,
        closing_given_up(closing_begun(m, name, kind).0, kind).channels == m.channels,
{
    reveal(picker::with_channels);
    reveal(closing_begun);
    reveal(closing_given_up);
    reveal(in_use);
}

/// What would be lost with a container is asked about before anything is stopped.
pub proof fn law_losses_are_asked_about(
    m: AppModel,
    name: Seq<char>,
    kind: CloseKind,
    notes: Seq<Seq<char>>,
)
    ensures
        after_container(m, name, kind, Some(notes)).1 == types::TaskModel::Nothing,
        after_container(m, name, kind, Some(notes)).0.sessions == m.sessions,
        after_container(m, name, kind, Some(notes)).0.channels == m.channels,
{
}

/// A channel that was closed is bound to no session any more.
pub proof fn law_closed_channels_are_bound_to_no_session(
    m: AppModel,
    name: Seq<char>,
    kind: CloseKind,
    c: registry::BoundModel,
    i: int,
)
    requires
        table::lookup(m.channels.map, name) == Some(c),
        0 <= i < m.sessions.len(),
    ensures
        !is_on(channel_gone(m, name, kind).sessions[i], c.id),
        !is_on(m.sessions[i], c.id) ==> channel_gone(m, name, kind).sessions[i]
            == m.sessions[i],
{
    reveal(channel_gone);
}

/// The program ends only where nothing would be lost, or the user says so; the safe answer is
/// marked.
pub proof fn law_the_end_asks_first(m: AppModel, notes: Seq<Option<Seq<Seq<char>>>>)
    requires
        losses(m.channels.map, table::keys(m.channels.map), notes).len() > 0,
        !m.quit,
    ensures
        !stop_asked(m, notes).quit,
        stop_asked(m, notes).stop_confirm is Some,
        (stop_asked(m, notes).stop_confirm->0).nav.cursor == 1,
        (stop_asked(m, notes).stop_confirm->0).entries.len() <= 5,
        (stop_asked(m, notes).stop_confirm->0).entries.len() + (stop_asked(
            m,
            notes,
        ).stop_confirm->0).more == losses(
            m.channels.map,
            table::keys(m.channels.map),
            notes,
        ).len(),
{
}

/// The answer about a worktree with changes does what its words say: only the last one commits, the
/// second one removes without a commit, the third one keeps the worktree and the first one gives up.
#[verifier::rlimit(40)]
pub proof fn law_changes_are_committed_where_the_answer_says(
    m: AppModel,
    d: types::CloseModel,
    c: registry::BoundModel,
    w: channel::WorktreeModel,
    answer: AnswerModel,
    at: usize,
)
    requires
        answer is Dirty,
        d == after_worktree(m, d.name, d.kind, w, answer).0.channel_close->0,
        table::lookup(m.channels.map, d.name) == Some(c),
        c.says().worktree == Some(w),
        at < 4,
    ensures
        ({
            let marked = types::CloseModel {
                phase: types::with_nav(
                    d.phase,
                    ListNav { cursor: at, ..types::phase_nav(d.phase) },
                ),
                ..d
            };
            let words = d.phase->options[at as int];
            let (n, task) = close_answered(m, marked);
            &&& words == "Commit & delete – create snapshot, then delete"@ <==> task
                == (types::TaskModel::RemoveWorktree {
                name: d.name,
                kind: d.kind,
                worktree: w,
                commit: true,
            })
            &&& words == "Continue – delete worktree & close channel"@ <==> task
                == (types::TaskModel::RemoveWorktree {
                name: d.name,
                kind: d.kind,
                worktree: w,
                commit: false,
            })
            &&& words == "Keep – keep worktree & close channel"@ <==> task
                == (types::TaskModel::CheckContainer { name: d.name, kind: d.kind })
            &&& words == "Cancel – keep channel open"@ <==> task == types::TaskModel::Nothing
            &&& n.channels == m.channels
            &&& n.sessions == m.sessions
        }),
{
    reveal(close_answered);
    reveal(closing_given_up);
    reveal(picker::with_channels);
    reveal_strlit("Cancel – keep channel open");
    reveal_strlit("Continue – delete worktree & close channel");
    reveal_strlit("Keep – keep worktree & close channel");
    reveal_strlit("Commit & delete – create snapshot, then delete");
    assert("Cancel – keep channel open"@.len() == 26);
    assert("Continue – delete worktree & close channel"@.len() == 42);
    assert("Keep – keep worktree & close channel"@.len() == 36);
    assert("Commit & delete – create snapshot, then delete"@.len() == 46);
}

/// By their places the answers about a worktree are: give up, remove it, keep it, commit and remove
/// it.
pub proof fn law_worktrees_are_removed_as_answered(
    m: AppModel,
    d: types::CloseModel,
    c: registry::BoundModel,
    w: channel::WorktreeModel,
)
    requires
        d.phase is Worktree,
        table::lookup(m.channels.map, d.name) == Some(c),
        c.says().worktree == Some(w),
    ensures
        types::phase_nav(d.phase).cursor == 3 ==> close_answered(m, d).1
            == (types::TaskModel::RemoveWorktree {
            name: d.name,
            kind: d.kind,
            worktree: w,
            commit: true,
        }),
        types::phase_nav(d.phase).cursor == 1 ==> close_answered(m, d).1
            == (types::TaskModel::RemoveWorktree {
            name: d.name,
            kind: d.kind,
            worktree: w,
            commit: false,
        }),
        types::phase_nav(d.phase).cursor == 2 ==> close_answered(m, d).1
            == (types::TaskModel::CheckContainer { name: d.name, kind: d.kind }),
        types::phase_nav(d.phase).cursor == 0 ==> close_answered(m, d).1
            == types::TaskModel::Nothing,
        close_answered(m, d).1 matches types::TaskModel::RemoveWorktree { worktree, commit, .. }
            ==> worktree == w && (commit <==> types::phase_nav(d.phase).cursor == 3),
{
    reveal(close_answered);
}

/// A clean worktree is removed without a question and without a commit; one that could not be
/// looked at stays; one with changes is only asked about, with what is known of the changes.
pub proof fn law_worktrees_with_changes_are_asked_about(
    m: AppModel,
    name: Seq<char>,
    kind: CloseKind,
    w: channel::WorktreeModel,
    summary: Option<Seq<char>>,
)
    ensures
        after_worktree(m, name, kind, w, AnswerModel::Clean) == (
            m,
            types::TaskModel::RemoveWorktree { name, kind, worktree: w, commit: false },
        ),
        after_worktree(m, name, kind, w, AnswerModel::Unknown) == (
            m,
            types::TaskModel::CheckContainer { name, kind },
        ),
        ({
            let (n, task) = after_worktree(m, name, kind, w, AnswerModel::Dirty(summary));
            let d = n.channel_close->0;
            &&& task == types::TaskModel::Nothing
            &&& n == (AppModel { channel_close: Some(d), ..m })
            &&& d.name == name
            &&& d.kind == kind
            &&& d.phase is Worktree
            &&& d.phase->summary == (match summary {
                Some(s) => s,
                None => "Worktree has uncommitted changes."@,
            })
            &&& d.phase->options.len() == 4
            &&& d.phase->options[0] == "Cancel – keep channel open"@
            &&& d.phase->options[1] == "Continue – delete worktree & close channel"@
            &&& d.phase->options[2] == "Keep – keep worktree & close channel"@
            &&& d.phase->options[3] == "Commit & delete – create snapshot, then delete"@
            &&& types::phase_nav(d.phase).len == 4
            &&& types::phase_nav(d.phase).cursor == 1
        }),
{
}

/// The question whether to close a channel in use, and the one about what a container would lose,
/// go on with the first answer only; every other one gives up and leaves sessions and channels.
pub proof fn law_only_a_yes_goes_on(m: AppModel, d: types::CloseModel)
    requires
        d.phase is ActiveConfirm || d.phase is Container,
    ensures
        ({
            let (n, task) = close_answered(m, d);
            let yes = types::phase_nav(d.phase).cursor == 0;
            &&& !yes ==> task == types::TaskModel::Nothing && n.sessions == m.sessions && n.channels
                == m.channels && n.quit == m.quit
            &&& !yes && d.kind == CloseKind::Session ==> n == m
            &&& !yes && d.kind == CloseKind::Picker ==> n.channel_picker is Some
            &&& yes && d.phase is ActiveConfirm ==> task is CheckWorktree || task
                is CheckContainer
            &&& yes && d.phase is Container ==> (n, task) == closed(m, d.name, d.kind)
        }),
{
    reveal(close_answered);
    reveal(closing_given_up);
    reveal(picker::with_channels);
    reveal(worktree_phase);
}

/// Before a channel is closed, everything that runs on it is told to stop, and its worktree is
/// looked at where it has one, else its container.
pub proof fn law_work_on_a_closed_channel_stops(
    m: AppModel,
    name: Seq<char>,
    kind: CloseKind,
    c: registry::BoundModel,
    i: int,
)
    requires
        table::lookup(m.channels.map, name) == Some(c),
        0 <= i < m.sessions.len(),
    ensures
        ({
            let (n, task) = worktree_phase(m, name, kind);
            let here = m.sessions[i].channel matches Some(b) && b.id == c.id;
            &&& n.sessions.len() == m.sessions.len()
            &&& here ==> n.sessions[i].cancel
            &&& !here ==> n.sessions[i] == m.sessions[i]
            &&& n.sessions[i] == (session::SessionModel {
                cancel: n.sessions[i].cancel,
                ..m.sessions[i]
            })
            &&& n.channels == m.channels
            &&& c.says().worktree matches Some(w) ==> task == (types::TaskModel::CheckWorktree {
                name,
                kind,
                worktree: w,
            })
            &&& c.says().worktree is None ==> task == (types::TaskModel::CheckContainer {
                name,
                kind,
            })
        }),
{
    reveal(worktree_phase);
}

/// A channel that no other session works on is gone on with at once; one that is worked on is asked
/// about, with the safe answer marked.
pub proof fn law_a_channel_in_use_is_asked_about(
    m: AppModel,
    name: Seq<char>,
    kind: CloseKind,
    i: int,
)
    requires
        0 <= i < m.sessions.len(),
        kind == CloseKind::Picker || i != m.active,
        picker::bound_name(m.channels.map, m.sessions[i].channel) == Some(name),
        m.sessions[i].phase != Phase::Idle || m.sessions[i].open_tool_ids.len() > 0,
    ensures
        ({
            let (n, task) = closing_begun(m, name, kind);
            &&& task == types::TaskModel::Nothing
            &&& n.channel_close is Some
            &&& n.channel_close->0.name == name
            &&& n.channel_close->0.kind == kind
            &&& n.channel_close->0.phase is ActiveConfirm
            &&& types::phase_nav(n.channel_close->0.phase).cursor == 1
            &&& types::phase_nav(n.channel_close->0.phase).len == 2
            &&& n.sessions == m.sessions
            &&& n.channels == m.channels
            &&& n.channel_picker is None
        }),
{
    reveal(in_use);
    reveal(closing_begun);
    let n = AppModel { channel_picker: None, ..m };
    assert(works_on(n, i, name));
}

/// Where nobody works on a channel its closing is not asked about.
pub proof fn law_an_idle_channel_is_not_asked_about(m: AppModel, name: Seq<char>, kind: CloseKind)
    requires
        forall|i: int|
            0 <= i < m.sessions.len() ==> (#[trigger] m.sessions[i]).phase == Phase::Idle
                && m.sessions[i].open_tool_ids.len() == 0,
    ensures
        closing_begun(m, name, kind).1 is CheckWorktree || closing_begun(m, name, kind).1
            is CheckContainer,
        closing_begun(m, name, kind).0.channel_close == m.channel_close,
{
    reveal(in_use);
    reveal(closing_begun);
    reveal(worktree_phase);
    let n = AppModel { channel_picker: None, ..m };
    assert forall|i: int| 0 <= i < n.sessions.len() implies !#[trigger] works_on(n, i, name) by {
        assert(n.sessions[i] == m.sessions[i]);
    }
}

/// A closed channel's own container is stopped at once and no longer counts as started here. From
/// the list the channel is forgotten in any case, with its session only where a worktree was made
/// for it.
#[verifier::rlimit(40)]
pub proof fn law_closing_stops_the_container(
    m: AppModel,
    name: Seq<char>,
    kind: CloseKind,
    c: registry::BoundModel,
)
    requires
        table::lookup(m.channels.map, name) == Some(c),
        table::unique_keys(m.channels.map),
        0 <= m.active < m.sessions.len(),
    ensures
        ({
            let (n, task) = closed(m, name, kind);
            let gone = kind == CloseKind::Picker || c.says().worktree is Some;
            &&& c.says().container matches Some(k) ==> task == types::TaskModel::StopContainer(
                seq!["stop"@, "-t"@, "0"@, k],
            ) && !n.channels.managed.contains(k)
            &&& c.says().container is None ==> task == types::TaskModel::Nothing
                && n.channels.managed == m.channels.managed
            &&& gone ==> table::lookup(n.channels.map, name) is None
            &&& !gone ==> n.channels.map == m.channels.map
            &&& n.channel_close is None
            &&& kind == CloseKind::Picker ==> n.channel_picker is Some && n.sessions.len()
                == m.sessions.len()
            &&& kind == CloseKind::Session ==> n.sessions.len() == m.sessions.len() - 1 && (
            n.sessions.len() == 0 ==> n.quit)
        }),
{
    reveal(closed);
    reveal(channel_gone);
    reveal(picker::with_channels);
    table::law_lookup_after_removal(m.channels.map, name, name);
    if let Some(k) = c.says().container {
        registry::law_stopped_containers_are_forgotten(m.channels.managed, k, k);
    }
}

/// A session ends with its work stopped: at once where it has no channel that is known, else after
/// its channel was looked after.
pub proof fn law_a_session_without_channel_ends_at_once(m: AppModel)
    requires
        0 <= m.active < m.sessions.len(),
        m.current().channel is None,
    ensures
        session_closing(m).1 == types::TaskModel::Nothing,
        session_closing(m).0.sessions == m.sessions.remove(m.active),
        m.sessions.len() == 1 ==> session_closing(m).0.quit,
        m.sessions.len() > 1 ==> session_closing(m).0.quit == m.quit,
        session_closing(m).0.channels == m.channels,
{
    assert(session_closing(m).0.sessions =~= m.sessions.remove(m.active));
}

/// What a container would lose is shown with the safe answer marked; where nothing would be lost the
/// channel is closed.
pub proof fn law_what_a_container_loses_is_shown(
    m: AppModel,
    name: Seq<char>,
    kind: CloseKind,
    notes: Seq<Seq<char>>,
)
    ensures
        ({
            let n = after_container(m, name, kind, Some(notes)).0;
            &&& n.channel_close is Some
            &&& n.channel_close->0.name == name
            &&& n.channel_close->0.kind == kind
            &&& n.channel_close->0.phase is Container
            &&& n.channel_close->0.phase->notes == notes
            &&& types::phase_nav(n.channel_close->0.phase).cursor == 1
            &&& types::phase_nav(n.channel_close->0.phase).len == 2
        }),
        after_container(m, name, kind, None) == closed(m, name, kind),
{
}

/// The program ends by the question before the end only with its first answer; giving up and every
/// other key keep it running, and an answer closes the question.
pub proof fn law_the_end_needs_a_yes(m: AppModel, key: KeyEvent)
    requires
        m.stop_confirm is Some,
        !m.quit,
    ensures
        ({
            let n = stop_key_handled(m, key);
            let taken = key.code == KeyCode::Enter || key.code == KeyCode::Char(' ');
            &&& n.quit <==> taken && (m.stop_confirm->0).nav.cursor == 0
            &&& taken || key.code == KeyCode::Esc ==> n.stop_confirm is None
            &&& !taken && key.code != KeyCode::Esc ==> n.stop_confirm is Some && (
            n.stop_confirm->0).entries == (m.stop_confirm->0).entries
            &&& n.sessions == m.sessions
            &&& n.channels == m.channels
        }),
{
}

proof fn lemma_losses(
    map: Seq<(Seq<char>, registry::BoundModel)>,
    names: Seq<Seq<char>>,
    notes: Seq<Option<Seq<Seq<char>>>>,
    k: int,
)
    requires
        0 <= k < names.len(),
        table::lookup(map, names[k]) is Some,
        notes[k] is Some,
        notes[k]->0.len() > 0,
    ensures
        exists|i: int|
            0 <= i < losses(map, names, notes).len() && (#[trigger] losses(
                map,
                names,
                notes,
            )[i]).channel == names[k] && losses(map, names, notes)[i].notes == notes[k]->0
                && losses(map, names, notes)[i].container == (table::lookup(
                map,
                names[k],
            )->0).says().container,
    decreases names.len(),
{
    let all = losses(map, names, notes);
    let before = losses(map, names.drop_last(), notes);
    if k == names.len() - 1 {
        assert(all[all.len() - 1].channel == names[k]);
    } else {
        lemma_losses(map, names.drop_last(), notes, k);
        let i = choose|i: int|
            0 <= i < before.len() && (#[trigger] before[i]).channel == names[k] && before[i].notes
                == notes[k]->0 && before[i].container == (table::lookup(
                map,
                names[k],
            )->0).says().container;
        assert(all[i] == before[i]);
    }
}

/// Whatever would be lost with a channel keeps the program from ending unasked.
pub proof fn law_any_loss_is_asked_about(m: AppModel, notes: Seq<Option<Seq<Seq<char>>>>, k: int)
    requires
        0 <= k < table::keys(m.channels.map).len(),
        table::lookup(m.channels.map, table::keys(m.channels.map)[k]) is Some,
        notes[k] is Some,
        notes[k]->0.len() > 0,
    ensures
        stop_asked(m, notes).stop_confirm is Some,
        (stop_asked(m, notes).stop_confirm->0).nav.cursor == 1,
        stop_asked(m, notes).quit == m.quit,
{
    lemma_losses(m.channels.map, table::keys(m.channels.map), notes, k);
}

/// While a channel is being closed, giving up keeps it, an answer is taken, and the other keys move
/// the mark.
pub proof fn law_keys_while_a_channel_is_closed(m: AppModel, d: types::CloseModel, key: KeyEvent)
    requires
        m.channel_close == Some(d),
    ensures
        ({
            let (n, task) = close_key_handled(m, key);
            let taken = key.code == KeyCode::Enter || key.code == KeyCode::Char(' ');
            &&& taken ==> (n, task) == close_answered(AppModel { channel_close: None, ..m }, d)
            &&& !taken ==> task == types::TaskModel::Nothing && n.sessions == m.sessions
                && n.channels == m.channels
            &&& key.code == KeyCode::Esc ==> n.channel_close is None
            &&& key.code == KeyCode::Esc && d.kind == CloseKind::Session ==> n == (AppModel {
                channel_close: None,
                ..m
            })
            &&& key.code == KeyCode::Esc && d.kind == CloseKind::Picker ==> n.channel_picker is Some
            &&& !taken && key.code != KeyCode::Esc ==> n.channel_close is Some && (
            n.channel_close->0).name == d.name && (n.channel_close->0).kind == d.kind
        }),
{
    reveal(closing_given_up);
    reveal(picker::with_channels);
}

/// A session that ends on a known channel is stopped first; then its channel is looked after.
pub proof fn law_a_session_ends_with_its_channel(m: AppModel, name: Seq<char>)
    requires
        0 <= m.active < m.sessions.len(),
        picker::bound_name(m.channels.map, m.current().channel) == Some(name),
    ensures
        session_closing(m) == closing_begun(
            m.with_current(session::SessionModel { cancel: true, ..m.current() }),
            name,
            CloseKind::Session,
        ),
{
}

/// Where a channel is forgotten, no session works on it any more, and sessions on other channels stay
/// on theirs.
pub proof fn law_sessions_leave_a_closed_channel(
    m: AppModel,
    name: Seq<char>,
    c: registry::BoundModel,
    i: int,
)
    requires
        table::lookup(m.channels.map, name) == Some(c),
        0 <= i < m.sessions.len(),
    ensures
        ({
            let n = channel_gone(m, name, CloseKind::Picker);
            let here = m.sessions[i].channel matches Some(b) && b.id == c.id;
            &&& n.sessions.len() == m.sessions.len()
            &&& here ==> n.sessions[i].channel is None
            &&& !here ==> n.sessions[i] == m.sessions[i]
            &&& n.channel_close is None
        }),
{
    reveal(channel_gone);
}

/// A session that closes its own channel is not kept from it by its own work.
pub proof fn law_the_own_work_is_not_asked_about(m: AppModel, name: Seq<char>)
    requires
        0 <= m.active < m.sessions.len(),
        forall|i: int|
            0 <= i < m.sessions.len() && i != m.active ==> (#[trigger] m.sessions[i]).phase
                == Phase::Idle && m.sessions[i].open_tool_ids.len() == 0,
    ensures
        closing_begun(m, name, CloseKind::Session).1 is CheckWorktree || closing_begun(
            m,
            name,
            CloseKind::Session,
        ).1 is CheckContainer,
{
    reveal(in_use);
    reveal(closing_begun);
    reveal(worktree_phase);
    let n = AppModel { channel_picker: None, ..m };
    assert forall|i: int| 0 <= i < n.sessions.len() && i != m.active implies !#[trigger] works_on(
        n,
        i,
        name,
    ) by {
        assert(n.sessions[i] == m.sessions[i]);
    }
}

/// What would be lost at the end is listed channel by channel with its container and the remarks on
/// it; up to five of them are shown, and how many more there are.
pub proof fn law_losses_are_listed(
    map: Seq<(Seq<char>, registry::BoundModel)>,
    names: Seq<Seq<char>>,
    notes: Seq<Option<Seq<Seq<char>>>>,
    c: registry::BoundModel,
    remarks: Seq<Seq<char>>,
)
    requires
        names.len() > 0,
        table::lookup(map, names.last()) == Some(c),
        notes[names.len() - 1] == Some(remarks),
    ensures
        remarks.len() > 0 ==> losses(map, names, notes) == losses(
            map,
            names.drop_last(),
            notes,
        ).push(
            types::StopEntryModel {
                channel: names.last(),
                container: c.says().container,
                notes: remarks,
            },
        ),
        remarks.len() == 0 ==> losses(map, names, notes) == losses(map, names.drop_last(), notes),
{
}

/// Of a long list of losses the first five are shown.
pub proof fn law_five_losses_are_shown(m: AppModel, notes: Seq<Option<Seq<Seq<char>>>>)
    ensures
        ({
            let all = losses(m.channels.map, table::keys(m.channels.map), notes);
            let n = stop_asked(m, notes);
            &&& all.len() == 0 ==> n == m
            &&& 0 < all.len() <= 5 ==> (n.stop_confirm->0).entries == all && (
            n.stop_confirm->0).more == 0
            &&& all.len() > 5 ==> (n.stop_confirm->0).entries == all.take(5) && (
            n.stop_confirm->0).more == all.len() - 5
            &&& all.len() > 0 ==> n.stop_confirm is Some && (n.stop_confirm->0).nav.len == 2
        }),
{
}

} // verus!
