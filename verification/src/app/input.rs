//! Keys, pasted text and the wheel of the mouse.

use super::branch;
use super::builder;
use super::builder::handle_editor_key;
use super::close;
use super::commands;
use super::commands::Moment;
use super::dialogs;
use super::keys::{KeyCode, KeyEvent};
use super::make;
use super::picker;
use super::session;
use super::session::{Phase, Session};
use super::state;
use super::state::{App, AppModel};
use super::types;
use super::types::Task;
use super::view;
use crate::editor;
use crate::perm;
use std::time::Instant;
use vstd::prelude::*;

verus! {

// ---------------------------------------------------------------------------
// What keys mean
// ---------------------------------------------------------------------------
/// What a key asks for where no dialog is open.
#[derive(Debug, Clone, Copy, PartialEq, Eq, Structural)]
pub enum Act {
    /// Take the input.
    Enter,
    /// Stop what runs.
    Esc,
    NewSession,
    Options,
    CloseSession,
    Channels,
    Models,
    Duplicate,
    Headers,
    /// Show the session beside.
    Switch { back: bool },
    /// Show the session with a number.
    Go(usize),
    /// Move the view by half its height.
    Page { up: bool },
    /// Choose the next level of permission.
    Level,
    ZoomOut,
    ZoomIn,
    /// Empty the input, or end the program.
    Leave,
    /// Close the session where the input is empty.
    EndInput,
    Type(char),
    /// Move or erase in the input.
    Edit,
    /// Move up in the input, or to the input before.
    Up,
    /// Move down in the input, or to the input behind.
    Down,
    Nothing,
}

/// Whether a character zooms.
pub open spec fn zooms(code: KeyCode) -> bool {
    code == KeyCode::Char('+') || code == KeyCode::Char('=') || code == KeyCode::Char('-') || code
        == KeyCode::Char('_')
}

/// Whether Alt counts as held. Some terminals send Esc before the key in its place; this is taken
/// for Alt with the keys that zoom only.
pub open spec fn alt_held(key: KeyEvent, after_esc: bool) -> bool {
    if after_esc {
        zooms(key.code)
    } else {
        key.modifiers.alt
    }
}

/// What a character with Control means.
pub open spec fn control_act(c: char) -> Option<Act> {
    if c == 'n' {
        Some(Act::NewSession)
    } else if c == 'o' {
        Some(Act::Options)
    } else if c == 'w' {
        Some(Act::CloseSession)
    } else {
        None
    }
}

/// What a character with Alt means.
pub open spec fn alt_act(c: char) -> Option<Act> {
    if c == 'c' {
        Some(Act::Channels)
    } else if c == 'm' {
        Some(Act::Models)
    } else if c == 'd' {
        Some(Act::Duplicate)
    } else if c == 'h' {
        Some(Act::Headers)
    } else {
        None
    }
}

/// What a character with Alt means where it is no letter.
pub open spec fn zoom_act(c: char) -> Option<Act> {
    if c == '-' || c == '_' {
        Some(Act::ZoomOut)
    } else if c == '+' || c == '=' {
        Some(Act::ZoomIn)
    } else {
        None
    }
}

/// What else a character with Control means.
pub open spec fn leaving_act(c: char) -> Option<Act> {
    if c == 'c' {
        Some(Act::Leave)
    } else if c == 'd' {
        Some(Act::EndInput)
    } else {
        None
    }
}

/// What a character means.
pub open spec fn char_act(c: char, ctrl: bool, alt: bool) -> Act {
    if ctrl && control_act(c) is Some {
        control_act(c)->0
    } else if alt && alt_act(c) is Some {
        alt_act(c)->0
    } else if ctrl && '0' <= c <= '9' {
        Act::Go((c as int - '0' as int) as usize)
    } else if alt && zoom_act(c) is Some {
        zoom_act(c)->0
    } else if ctrl && leaving_act(c) is Some {
        leaving_act(c)->0
    } else {
        Act::Type(c)
    }
}

/// What a key means. Enter with Shift begins a new line.
pub open spec fn act_of(key: KeyEvent, after_esc: bool) -> Act {
    let alt = alt_held(key, after_esc);
    match key.code {
        KeyCode::Enter => if key.modifiers.shift {
            Act::Type('\n')
        } else {
            Act::Enter
        },
        KeyCode::Esc => Act::Esc,
        KeyCode::Char(c) => char_act(c, key.modifiers.ctrl, alt),
        KeyCode::Left => if alt {
            Act::Switch { back: true }
        } else {
            Act::Edit
        },
        KeyCode::Right => if alt {
            Act::Switch { back: false }
        } else {
            Act::Edit
        },
        KeyCode::PageUp => Act::Page { up: true },
        KeyCode::PageDown => Act::Page { up: false },
        KeyCode::Tab => Act::Level,
        KeyCode::Backspace => Act::Edit,
        KeyCode::Delete => Act::Edit,
        KeyCode::Home => Act::Edit,
        KeyCode::End => Act::Edit,
        KeyCode::Up => Act::Up,
        KeyCode::Down => Act::Down,
        KeyCode::Other => Act::Nothing,
    }
}

fn char_meaning(c: char, ctrl: bool, alt: bool) -> (r: Act)
    ensures
        r == char_act(c, ctrl, alt),
{
    match c {
        'n' if ctrl => Act::NewSession,
        'o' if ctrl => Act::Options,
        'w' if ctrl => Act::CloseSession,
        'c' if alt => Act::Channels,
        'm' if alt => Act::Models,
        'd' if alt => Act::Duplicate,
        'h' if alt => Act::Headers,
        '-' if alt => Act::ZoomOut,
        '_' if alt => Act::ZoomOut,
        '+' if alt => Act::ZoomIn,
        '=' if alt => Act::ZoomIn,
        'c' if ctrl => Act::Leave,
        'd' if ctrl => Act::EndInput,
        _ => {
            if ctrl && '0' <= c && c <= '9' {
                let number: u32 = c as u32 - '0' as u32;
                Act::Go(number as usize)
            } else {
                Act::Type(c)
            }
        },
    }
}

/// What a key means; `after_esc` where the key before was Esc.
pub fn meaning(key: KeyEvent, after_esc: bool) -> (r: Act)
    ensures
        r == act_of(key, after_esc),
{
    let alt = if after_esc {
        matches!(key.code, KeyCode::Char('+') | KeyCode::Char('=') | KeyCode::Char('-')
            | KeyCode::Char('_'))
    } else {
        key.modifiers.alt
    };
    match key.code {
        KeyCode::Enter => if key.modifiers.shift {
            Act::Type('\n')
        } else {
            Act::Enter
        },
        KeyCode::Esc => Act::Esc,
        KeyCode::Char(c) => char_meaning(c, key.modifiers.ctrl, alt),
        KeyCode::Left if alt => Act::Switch { back: true },
        KeyCode::Right if alt => Act::Switch { back: false },
        KeyCode::PageUp => Act::Page { up: true },
        KeyCode::PageDown => Act::Page { up: false },
        KeyCode::Tab => Act::Level,
        KeyCode::Up => Act::Up,
        KeyCode::Down => Act::Down,
        KeyCode::Other => Act::Nothing,
        _ => Act::Edit,
    }
}

// ---------------------------------------------------------------------------
// Keys for a session
// ---------------------------------------------------------------------------
/// A number moved by some lines, as far as numbers go.
pub open spec fn shifted(n: i64, by: int) -> i64 {
    if n + by > i64::MAX {
        i64::MAX
    } else if n + by < i64::MIN {
        i64::MIN
    } else {
        (n + by) as i64
    }
}

/// Half the height of the view, at least one line.
pub open spec fn half_page(viewport: u16) -> int {
    if viewport < 4 {
        1
    } else {
        viewport as int / 2
    }
}

/// The session with the view moved; it no longer stays at the end.
pub open spec fn scrolled(s: session::SessionModel, by: int) -> session::SessionModel {
    session::SessionModel {
        chat_follow: false,
        chat_scroll_delta: Some(
            shifted(
                match s.chat_scroll_delta {
                    Some(n) => n,
                    None => 0,
                },
                by,
            ),
        ),
        ..s
    }
}

/// The session with another input.
pub open spec fn with_field(s: session::SessionModel, e: editor::EditorModel) -> session::SessionModel {
    session::SessionModel { editor: e, ..s }
}

/// The session with the next level of permission; without a channel there is none to choose.
pub open spec fn level_chosen(s: session::SessionModel) -> session::SessionModel {
    if s.channel is Some {
        session::SessionModel {
            permission: perm::next_level(s.permission),
            permission_touched: true,
            ..s
        }
    } else {
        s
    }
}

/// The session after Up or Down: at the first or last row the input before or behind is shown.
pub open spec fn row_left(s: session::SessionModel, up: bool, shift: bool) -> session::SessionModel {
    let edge = if up {
        editor::cursor_row(s.editor) == 0
    } else {
        editor::cursor_row(s.editor) == editor::place(s.editor.text, s.editor.width).0
    };
    if !shift && edge {
        if up {
            session::earlier(s)
        } else {
            session::later(s)
        }
    } else {
        with_field(
            s,
            editor::moved_to(s.editor, editor::line_target(s.editor, up), shift),
        )
    }
}

/// The session after a key that concerns it alone; none for the other keys.
#[verifier::opaque]
pub open spec fn session_key(s: session::SessionModel, act: Act, key: KeyEvent) -> Option<
    session::SessionModel,
> {
    match act {
        Act::Page { up } => Some(
            scrolled(
                s,
                if up {
                    -half_page(s.chat_viewport)
                } else {
                    half_page(s.chat_viewport)
                },
            ),
        ),
        Act::Level => Some(level_chosen(s)),
        Act::ZoomOut => Some(
            session::SessionModel { view: view::further_out(s.view), ..s },
        ),
        Act::ZoomIn => Some(session::SessionModel { view: view::further_in(s.view), ..s }),
        Act::Type(c) => Some(with_field(s, editor::inserted(s.editor, seq![c]))),
        Act::Edit => Some(with_field(s, builder::field_key(s.editor, key))),
        Act::Up => Some(row_left(s, true, key.modifiers.shift)),
        Act::Down => Some(row_left(s, false, key.modifiers.shift)),
        _ => None,
    }
}

fn moved_by(n: i64, by: i64) -> (r: i64)
    ensures
        r == shifted(n, by as int),
{
    let sum: i128 = n as i128 + by as i128;
    if sum > i64::MAX as i128 {
        i64::MAX
    } else if sum < i64::MIN as i128 {
        i64::MIN
    } else {
        sum as i64
    }
}

fn page_of(viewport: u16) -> (r: i64)
    ensures
        r == half_page(viewport),
        0 < r <= u16::MAX,
{
    if viewport < 4 {
        1
    } else {
        (viewport / 2) as i64
    }
}

impl Session {
    /// Moves the view by some lines.
    pub fn scroll(&mut self, by: i64)
        requires
            old(self).wf(),
        ensures
            final(self).wf(),
            final(self)@ == scrolled(old(self)@, by as int),
    {
        let before: i64 = match self.chat_scroll_delta {
            Some(n) => n,
            None => 0,
        };
        self.chat_follow = false;
        self.chat_scroll_delta = Some(moved_by(before, by));
    }

    fn page(&mut self, up: bool)
        requires
            old(self).wf(),
        ensures
            final(self).wf(),
            final(self)@ == scrolled(
                old(self)@,
                if up {
                    -half_page(old(self)@.chat_viewport)
                } else {
                    half_page(old(self)@.chat_viewport)
                },
            ),
    {
        let lines: i64 = page_of(self.chat_viewport);
        if up {
            self.scroll(-lines);
        } else {
            self.scroll(lines);
        }
    }

    /// Chooses the next level of permission.
    pub fn choose_level(&mut self)
        requires
            old(self).wf(),
        ensures
            final(self).wf(),
            final(self)@ == level_chosen(old(self)@),
    {
        if self.channel.is_some() {
            self.permission = self.permission.next();
            self.permission_touched = true;
        }
    }

    fn leave_row(&mut self, up: bool, shift: bool)
        requires
            old(self).wf(),
        ensures
            final(self).wf(),
            final(self)@ == row_left(old(self)@, up, shift),
    {
        let edge = if up {
            self.editor.cursor_is_first_row()
        } else {
            self.editor.cursor_is_last_row()
        };
        if !shift && edge {
            if up {
                self.history_prev();
            } else {
                self.history_next();
            }
        } else if up {
            self.editor.move_line(-1, shift);
        } else {
            self.editor.move_line(1, shift);
        }
    }

    /// Handles a key that concerns the session alone; says whether it was one.
    pub fn handle_act(&mut self, act: Act, key: KeyEvent) -> (r: bool)
        requires
            old(self).wf(),
        ensures
            final(self).wf(),
            match session_key(old(self)@, act, key) {
                Some(s) => r && final(self)@ == s,
                None => !r && final(self)@ == old(self)@,
            },
    {
        proof {
            reveal(session_key);
        }
        match act {
            Act::Page { up } => self.page(up),
            Act::Level => self.choose_level(),
            Act::ZoomOut => {
                self.view = self.view.zoom_out();
            },
            Act::ZoomIn => {
                self.view = self.view.zoom_in();
            },
            Act::Type(c) => self.editor.insert_char(c),
            Act::Edit => handle_editor_key(&mut self.editor, key),
            Act::Up => self.leave_row(true, key.modifiers.shift),
            Act::Down => self.leave_row(false, key.modifiers.shift),
            _ => {
                return false;
            },
        }
        true
    }
}

// ---------------------------------------------------------------------------
// Keys for the program
// ---------------------------------------------------------------------------
/// The state after an escape: what runs is to stop, and the next key may be meant with Alt.
pub open spec fn esc_pressed(m: AppModel) -> AppModel {
    AppModel { pending_esc: true, ..commands::escaped(m) }
}

/// The state with the session of a number shown, where there is one.
pub open spec fn gone_to(m: AppModel, n: usize) -> AppModel {
    if 0 < n <= m.sessions.len() {
        AppModel { active: n - 1, ..m }
    } else {
        m
    }
}

/// State and work after the key that leaves: it empties the input, or ends the program once it is
/// known what would be lost.
pub open spec fn leaving(m: AppModel) -> (AppModel, types::TaskModel) {
    if m.current().editor.text.len() == 0 {
        (m, types::TaskModel::CheckChannels)
    } else {
        (
            m.with_current(
                with_field(m.current(), editor::empty_field(m.current().editor.width)),
            ),
            types::TaskModel::Nothing,
        )
    }
}

/// State and work after the end of the input: with an empty one the session closes.
pub open spec fn input_ended(m: AppModel) -> (AppModel, types::TaskModel) {
    if m.current().editor.text.len() == 0 {
        close::session_closing(m)
    } else {
        (m, types::TaskModel::Nothing)
    }
}

/// State and work after a key that concerns the whole program.
#[verifier::opaque]
pub open spec fn program_key(m: AppModel, act: Act, t: Instant, threshold: u64) -> (
    AppModel,
    types::TaskModel,
) {
    match act {
        Act::Enter => commands::entered(m, t, threshold),
        Act::Esc => (esc_pressed(m), types::TaskModel::Nothing),
        Act::NewSession => (state::with_new_session(m), types::TaskModel::Nothing),
        Act::Options => (state::with_options(m), types::TaskModel::Nothing),
        Act::CloseSession => close::session_closing(m),
        Act::Channels => (picker::with_channels(m), types::TaskModel::Nothing),
        Act::Models => (picker::with_models(m), types::TaskModel::Nothing),
        Act::Duplicate => make::copy_asked(m),
        Act::Headers => (
            AppModel { http_headers_dialog: true, ..m },
            types::TaskModel::Nothing,
        ),
        Act::Switch { back } => (
            AppModel { active: state::neighbour(m, back), ..m },
            types::TaskModel::Nothing,
        ),
        Act::Go(n) => (gone_to(m, n), types::TaskModel::Nothing),
        Act::Leave => leaving(m),
        Act::EndInput => input_ended(m),
        _ => (m, types::TaskModel::Nothing),
    }
}

/// State and work after a key where no dialog is open.
#[verifier::opaque]
pub open spec fn plain_key(m: AppModel, key: KeyEvent, t: Instant, threshold: u64) -> (
    AppModel,
    types::TaskModel,
) {
    let act = act_of(key, m.pending_esc);
    let n = AppModel { pending_esc: false, ..m };
    match session_key(n.current(), act, key) {
        Some(s) => (n.with_current(s), types::TaskModel::Nothing),
        None => program_key(n, act, t, threshold),
    }
}

/// The state after a key while the headers of the last answer are shown.
pub open spec fn headers_key(m: AppModel, key: KeyEvent) -> AppModel {
    if key.code == KeyCode::Esc || key.code == KeyCode::Enter {
        AppModel { http_headers_dialog: false, ..m }
    } else {
        m
    }
}

/// State and work after a key, where a dialog takes it; none where no dialog is open.
#[verifier::opaque]
pub open spec fn dialog_key(m: AppModel, key: KeyEvent, t: Instant, threshold: u64) -> Option<
    (AppModel, types::TaskModel),
> {
    if m.http_headers_dialog {
        Some((headers_key(m, key), types::TaskModel::Nothing))
    } else if m.stop_confirm is Some {
        Some((close::stop_key_handled(m, key), types::TaskModel::Nothing))
    } else if m.branch_confirm is Some {
        Some(branch::branch_key_handled(m, key))
    } else if m.pre_send_confirm is Some {
        Some(dialogs::pre_send_key_handled(m, key, t, threshold))
    } else if m.exec_confirm is Some {
        Some(dialogs::exec_key_handled(m, key))
    } else if m.channel_close is Some {
        Some(close::close_key_handled(m, key))
    } else if m.options_dialog is Some {
        Some(dialogs::options_key_handled(m, key))
    } else if m.path_confirm is Some {
        Some(builder::path_key_handled(m, key))
    } else if m.channel_picker is Some {
        Some(picker::channel_key_handled(m, key))
    } else if m.builder is Some {
        Some(builder::with_builder(m, builder::builder_key(m.builder->0, key)))
    } else if m.model_picker is Some {
        Some(picker::model_key_handled(m, key))
    } else {
        None
    }
}

/// State and work after a key.
#[verifier::opaque]
pub open spec fn key_handled(m: AppModel, key: KeyEvent, t: Instant, threshold: u64) -> (
    AppModel,
    types::TaskModel,
) {
    match dialog_key(m, key, t, threshold) {
        Some(r) => r,
        None => plain_key(m, key, t, threshold),
    }
}

impl App {
    fn forget_esc(&mut self) -> (r: bool)
        requires
            old(self).ready(),
        ensures
            final(self).ready(),
            final(self)@ == (AppModel { pending_esc: false, ..old(self)@ }),
            r == old(self)@.pending_esc,
    {
        let before = self.pending_esc;
        self.pending_esc = false;
        before
    }

    fn press_esc(&mut self)
        requires
            old(self).ready(),
        ensures
            final(self).ready(),
            final(self)@ == esc_pressed(old(self)@),
    {
        self.handle_esc();
        self.pending_esc = true;
    }

    fn show_headers(&mut self, shown: bool)
        requires
            old(self).ready(),
        ensures
            final(self).ready(),
            final(self)@ == (AppModel { http_headers_dialog: shown, ..old(self)@ }),
    {
        self.http_headers_dialog = shown;
    }

    fn go_to(&mut self, n: usize)
        requires
            old(self).ready(),
        ensures
            final(self).ready(),
            final(self)@ == gone_to(old(self)@, n),
    {
        assert(self@.sessions.len() == self.sessions@.len());
        if n > 0 && n <= self.sessions.len() {
            self.active = n - 1;
        }
    }

    fn empty_input(&mut self)
        requires
            old(self).ready(),
        ensures
            final(self).ready(),
            final(self)@ == old(self)@.with_current(
                with_field(
                    old(self)@.current(),
                    editor::empty_field(old(self)@.current().editor.width),
                ),
            ),
    {
        broadcast use session::lemma_session_changed;

        let i: usize = self.active;
        assert(self.sessions@[i as int].wf());
        let s = &mut self.sessions[i];
        s.editor.clear();
    }

    fn is_input_empty(&self) -> (r: bool)
        requires
            self.ready(),
        ensures
            r == (self@.current().editor.text.len() == 0),
    {
        assert(self.sessions@[self.active as int].wf());
        self.sessions[self.active].editor.is_empty()
    }

    fn leave(&mut self) -> (r: Task)
        requires
            old(self).ready(),
        ensures
            final(self).ready(),
            (final(self)@, r@) == leaving(old(self)@),
    {
        if self.is_input_empty() {
            Task::CheckChannels
        } else {
            self.empty_input();
            Task::Nothing
        }
    }

    fn end_input(&mut self) -> (r: Task)
        requires
            old(self).ready(),
        ensures
            final(self).wf(),
            final(self)@.sessions.len() > 0 ==> final(self).ready(),
            (final(self)@, r@) == input_ended(old(self)@),
    {
        if self.is_input_empty() {
            self.close_session()
        } else {
            Task::Nothing
        }
    }

    fn show_options(&mut self)
        requires
            old(self).ready(),
        ensures
            final(self).ready(),
            final(self)@ == state::with_options(old(self)@),
    {
        let ghost m = self@;
        self.open_options_dialog();
        assert(self@.sessions == m.sessions);
        assert(self.sessions@.len() == m.sessions.len());
    }

    fn session_act(&mut self, act: Act, key: KeyEvent) -> (r: bool)
        requires
            old(self).ready(),
        ensures
            final(self).ready(),
            match session_key(old(self)@.current(), act, key) {
                Some(s) => r && final(self)@ == old(self)@.with_current(s),
                None => !r && final(self)@ == old(self)@,
            },
    {
        broadcast use session::lemma_session_changed;

        let ghost m = self@;
        let i: usize = self.active;
        assert(self.sessions@[i as int].wf());
        let s = &mut self.sessions[i];
        let used = s.handle_act(act, key);
        proof {
            if !used {
                assert(self@.sessions =~= m.sessions);
            }
        }
        used
    }

    fn open_act(&mut self, act: Act) -> (r: Task)
        requires
            old(self).ready(),
            act !is Enter,
            act !is CloseSession,
            act !is EndInput,
        ensures
            final(self).ready(),
            forall|t: Instant, threshold: u64|
                (final(self)@, r@) == #[trigger] program_key(old(self)@, act, t, threshold),
    {
        proof {
            reveal(program_key);
        }
        match act {
            Act::Esc => {
                self.press_esc();
                Task::Nothing
            },
            Act::NewSession => {
                self.new_session();
                Task::Nothing
            },
            Act::Options => {
                self.show_options();
                Task::Nothing
            },
            Act::Channels => {
                self.open_channel_picker();
                Task::Nothing
            },
            Act::Models => {
                self.open_model_picker();
                Task::Nothing
            },
            Act::Duplicate => self.duplicate_active_channel(),
            Act::Headers => {
                self.show_headers(true);
                Task::Nothing
            },
            Act::Switch { back } => {
                self.switch_session(back);
                Task::Nothing
            },
            Act::Go(n) => {
                self.go_to(n);
                Task::Nothing
            },
            Act::Leave => self.leave(),
            _ => Task::Nothing,
        }
    }

    fn program_act(&mut self, act: Act, at: &Moment) -> (r: Task)
        requires
            old(self).ready(),
        ensures
            final(self).wf(),
            final(self)@.sessions.len() > 0 ==> final(self).ready(),
            (final(self)@, r@) == program_key(old(self)@, act, at.now, at.threshold),
    {
        match act {
            Act::Enter => {
                proof {
                    reveal(program_key);
                }
                self.handle_enter(at)
            },
            Act::CloseSession => {
                proof {
                    reveal(program_key);
                }
                self.close_session()
            },
            Act::EndInput => {
                proof {
                    reveal(program_key);
                }
                self.end_input()
            },
            _ => self.open_act(act),
        }
    }

    fn handle_plain_key(&mut self, key: KeyEvent, at: &Moment) -> (r: Task)
        requires
            old(self).ready(),
        ensures
            final(self).wf(),
            final(self)@.sessions.len() > 0 ==> final(self).ready(),
            (final(self)@, r@) == plain_key(old(self)@, key, at.now, at.threshold),
    {
        proof {
            reveal(plain_key);
        }
        let after_esc = self.forget_esc();
        let act = meaning(key, after_esc);
        if self.session_act(act, key) {
            Task::Nothing
        } else {
            self.program_act(act, at)
        }
    }

    fn handle_headers_key(&mut self, key: KeyEvent)
        requires
            old(self).ready(),
        ensures
            final(self).ready(),
            final(self)@ == headers_key(old(self)@, key),
    {
        if key.code == KeyCode::Esc || key.code == KeyCode::Enter {
            self.show_headers(false);
        }
    }

    fn handle_dialog_key(&mut self, key: KeyEvent, at: &Moment) -> (r: Option<Task>)
        requires
            old(self).ready(),
        ensures
            final(self).wf(),
            final(self)@.sessions.len() > 0 ==> final(self).ready(),
            match dialog_key(old(self)@, key, at.now, at.threshold) {
                Some(to) => r matches Some(t) && (final(self)@, t@) == to,
                None => r is None && *final(self) == *old(self),
            },
    {
        proof {
            reveal(dialog_key);
        }
        if self.http_headers_dialog {
            self.handle_headers_key(key);
            Some(Task::Nothing)
        } else if self.stop_confirm.is_some() {
            self.handle_stop_confirm_key(key);
            Some(Task::Nothing)
        } else if self.branch_confirm.is_some() {
            Some(self.handle_branch_confirm_key(key))
        } else if self.pre_send_confirm.is_some() {
            Some(self.handle_pre_send_key(key, at))
        } else if self.exec_confirm.is_some() {
            Some(self.handle_exec_confirm_key(key))
        } else if self.channel_close.is_some() {
            Some(self.handle_channel_close_key(key))
        } else if self.options_dialog.is_some() {
            Some(self.handle_options_dialog_key(key))
        } else if self.path_confirm.is_some() {
            Some(self.handle_path_confirm_key(key))
        } else if self.channel_picker.is_some() {
            Some(self.handle_picker_key(key))
        } else if self.channel_builder.is_some() {
            Some(self.handle_builder_key(key))
        } else if self.model_picker.is_some() {
            Some(self.handle_model_picker_key(key))
        } else {
            None
        }
    }

    /// Handles a key. An open dialog takes it; the last session that closes ends the program.
    pub fn handle_key(&mut self, key: KeyEvent, at: &Moment) -> (r: Task)
        requires
            old(self).ready(),
        ensures
            final(self).wf(),
            final(self)@.sessions.len() > 0 ==> final(self).ready(),
            (final(self)@, r@) == key_handled(old(self)@, key, at.now, at.threshold),
    {
        proof {
            reveal(key_handled);
        }
        match self.handle_dialog_key(key, at) {
            Some(t) => t,
            None => self.handle_plain_key(key, at),
        }
    }

    /// Inserts pasted text into the input of the active session.
    pub fn handle_paste(&mut self, pasted: &str)
        requires
            old(self).ready(),
        ensures
            final(self).ready(),
            final(self)@ == old(self)@.with_current(
                with_field(
                    old(self)@.current(),
                    editor::inserted(old(self)@.current().editor, pasted@),
                ),
            ),
    {
        broadcast use session::lemma_session_changed;

        let i: usize = self.active;
        assert(self.sessions@[i as int].wf());
        let s = &mut self.sessions[i];
        s.editor.insert_text(pasted);
    }

    /// Moves the view of the active session by three lines.
    pub fn handle_wheel(&mut self, up: bool)
        requires
            old(self).ready(),
        ensures
            final(self).ready(),
            final(self)@ == old(self)@.with_current(
                scrolled(
                    old(self)@.current(),
                    if up {
                        -3
                    } else {
                        3
                    },
                ),
            ),
    {
        broadcast use session::lemma_session_changed;

        let i: usize = self.active;
        assert(self.sessions@[i as int].wf());
        let s = &mut self.sessions[i];
        s.scroll(
            if up {
                -3
            } else {
                3
            },
        );
    }
}

// ---------------------------------------------------------------------------
// Laws
// ---------------------------------------------------------------------------
/// While a dialog is open no key reaches the sessions behind it as text: what keys mean without a
/// dialog plays no part.
pub proof fn law_an_open_dialog_takes_every_key(
    m: AppModel,
    key: KeyEvent,
    t: Instant,
    threshold: u64,
)
    ensures
        state::dialog_open(m) <==> dialog_key(m, key, t, threshold) is Some,
        dialog_key(m, key, t, threshold) matches Some(r) ==> key_handled(m, key, t, threshold) == r,
{
    reveal(dialog_key);
    reveal(key_handled);
}

/// The headers of the last answer are looked at only: until they are closed no key changes
/// anything else.
pub proof fn law_headers_are_only_shown(m: AppModel, key: KeyEvent, t: Instant, threshold: u64)
    requires
        m.http_headers_dialog,
    ensures
        ({
            let (n, task) = key_handled(m, key, t, threshold);
            n == (AppModel { http_headers_dialog: n.http_headers_dialog, ..m }) && task
                == types::TaskModel::Nothing
        }),
{
    reveal(dialog_key);
    reveal(key_handled);
}

/// The level of permission comes round after three steps, and without a channel it stays.
pub proof fn law_levels_come_round(s: session::SessionModel)
    ensures
        level_chosen(level_chosen(level_chosen(s))).permission == s.permission,
        s.channel is None ==> level_chosen(s) == s,
{
}

/// Scrolling back by as much as before shows the same place, where the numbers go that far.
pub proof fn law_scrolling_undoes_itself(s: session::SessionModel, by: int)
    requires
        s.chat_scroll_delta matches Some(n) && i64::MIN <= n + by <= i64::MAX,
    ensures
        scrolled(scrolled(s, by), -by).chat_scroll_delta == s.chat_scroll_delta,
{
}

/// While something runs in the active session, Enter sends no second prompt and starts no second
/// tool; what was typed stays.
pub proof fn law_a_running_turn_is_not_disturbed(m: AppModel, t: Instant, threshold: u64)
    requires
        m.current().phase != Phase::Idle,
        !commands::runs_while_busy(
            commands::command_of(crate::text::trimmed(m.current().editor.text)),
        ),
    ensures
        commands::entered(m, t, threshold) == (m, types::TaskModel::Nothing),
{
    reveal(commands::entered);
}

/// Whether a key comes to the session that is shown: no dialog is open, and no escape stands before
/// the key.
pub open spec fn comes_through(m: AppModel) -> bool {
    &&& !state::dialog_open(m)
    &&& !m.pending_esc
    &&& 0 <= m.active < m.sessions.len()
}

proof fn lemma_comes_through(m: AppModel, key: KeyEvent, t: Instant, threshold: u64)
    requires
        comes_through(m),
    ensures
        key_handled(m, key, t, threshold) == plain_key(m, key, t, threshold),
        (AppModel { pending_esc: false, ..m }) == m,
{
    reveal(dialog_key);
    reveal(key_handled);
}

/// What is typed without control and alternate keys goes into the input of the session, at the
/// cursor; with shift the line ends.
pub proof fn law_typed_characters_go_into_the_input(
    m: AppModel,
    key: KeyEvent,
    c: char,
    t: Instant,
    threshold: u64,
)
    requires
        comes_through(m),
        !key.modifiers.ctrl,
        !key.modifiers.alt,
        key.code == KeyCode::Char(c) || (key.code == KeyCode::Enter && key.modifiers.shift && c
            == '\n'),
    ensures
        key_handled(m, key, t, threshold) == (
            m.with_current(
                session::SessionModel {
                    editor: editor::inserted(m.current().editor, seq![c]),
                    ..m.current()
                },
            ),
            types::TaskModel::Nothing,
        ),
{
    lemma_comes_through(m, key, t, threshold);
    reveal(plain_key);
    reveal(session_key);
}

/// Enter hands the input on.
pub proof fn law_enter_hands_the_input_on(m: AppModel, key: KeyEvent, t: Instant, threshold: u64)
    requires
        comes_through(m),
        key.code == KeyCode::Enter,
        !key.modifiers.shift,
    ensures
        key_handled(m, key, t, threshold) == commands::entered(m, t, threshold),
{
    lemma_comes_through(m, key, t, threshold);
    reveal(plain_key);
    reveal(session_key);
    reveal(program_key);
}

/// With the control key: a new session, the options, the end of the session, the session with that
/// number, leaving, and the end of the input.
#[verifier::rlimit(40)]
pub proof fn law_control_keys(m: AppModel, key: KeyEvent, t: Instant, threshold: u64)
    requires
        comes_through(m),
        key.modifiers.ctrl,
        !key.modifiers.alt,
    ensures
        ({
            let (n, task) = key_handled(m, key, t, threshold);
            let empty = m.current().editor.text.len() == 0;
            &&& key.code == KeyCode::Char('n') ==> n.sessions.len() == m.sessions.len() + 1
                && n.active == m.sessions.len() && task == types::TaskModel::Nothing
            &&& key.code == KeyCode::Char('o') ==> n.options_dialog is Some && (
            n.options_dialog->0).nav.len == 3 && task == types::TaskModel::Nothing
            &&& key.code == KeyCode::Char('w') ==> (n, task) == close::session_closing(m)
            &&& key.code == KeyCode::Char('1') ==> n == (AppModel { active: 0, ..m })
            &&& key.code == KeyCode::Char('2') && m.sessions.len() >= 2 ==> n == (AppModel {
                active: 1,
                ..m
            })
            &&& key.code == KeyCode::Char('9') && m.sessions.len() >= 9 ==> n == (AppModel {
                active: 8,
                ..m
            })
            &&& key.code == KeyCode::Char('9') && m.sessions.len() < 9 ==> n == m
            &&& key.code == KeyCode::Char('0') ==> n == m
            &&& key.code == KeyCode::Char('c') && empty ==> n == m && task
                == types::TaskModel::CheckChannels
            &&& key.code == KeyCode::Char('c') && !empty ==> n.current().editor.text.len() == 0
                && task == types::TaskModel::Nothing && n.sessions.len() == m.sessions.len()
            &&& key.code == KeyCode::Char('d') && empty ==> (n, task) == close::session_closing(m)
            &&& key.code == KeyCode::Char('d') && !empty ==> n == m && task
                == types::TaskModel::Nothing
        }),
{
    lemma_comes_through(m, key, t, threshold);
    reveal(plain_key);
    reveal(session_key);
    reveal(program_key);
}

/// With the alternate key: the channels, the models, a duplicate, the headers, the session beside,
/// and more or less detail.
#[verifier::rlimit(40)]
pub proof fn law_alternate_keys(m: AppModel, key: KeyEvent, t: Instant, threshold: u64)
    requires
        comes_through(m),
        key.modifiers.alt,
        !key.modifiers.ctrl,
    ensures
        ({
            let (n, task) = key_handled(m, key, t, threshold);
            &&& key.code == KeyCode::Char('c') ==> n.channel_picker is Some && task
                == types::TaskModel::Nothing
            &&& key.code == KeyCode::Char('m') ==> n == picker::with_models(m)
            &&& key.code == KeyCode::Char('d') ==> (n, task) == make::copy_asked(m)
            &&& key.code == KeyCode::Char('h') ==> n == (AppModel { http_headers_dialog: true, ..m })
            &&& key.code == KeyCode::Left ==> n == (AppModel { active: state::neighbour(m, true), ..m })
            &&& key.code == KeyCode::Right ==> n == (AppModel {
                active: state::neighbour(m, false),
                ..m
            })
            &&& key.code == KeyCode::Char('-') ==> n.current().view == view::further_out(
                m.current().view,
            ) && n.current().chat == m.current().chat
            &&& key.code == KeyCode::Char('+') ==> n.current().view == view::further_in(
                m.current().view,
            )
            &&& key.code == KeyCode::Char('_') ==> n.current().view == view::further_out(
                m.current().view,
            )
            &&& key.code == KeyCode::Char('=') ==> n.current().view == view::further_in(
                m.current().view,
            )
        }),
{
    lemma_comes_through(m, key, t, threshold);
    reveal(plain_key);
    reveal(session_key);
    reveal(program_key);
    reveal(picker::with_channels);
}

/// The other keys: one chooses the next level where there is a channel, two scroll by half of what is
/// shown, one stops what runs, and the keys of the field edit it.
#[verifier::rlimit(40)]
pub proof fn law_other_keys(m: AppModel, key: KeyEvent, t: Instant, threshold: u64)
    requires
        comes_through(m),
        !key.modifiers.ctrl,
        !key.modifiers.alt,
        !key.modifiers.shift,
        m.current().chat_scroll_delta is None,
        0 <= m.current().editor.cursor <= m.current().editor.text.len(),
        m.current().editor.anchor is None,
    ensures
        ({
            let (n, task) = key_handled(m, key, t, threshold);
            let s = m.current();
            let e = n.current().editor;
            let half: int = if s.chat_viewport < 4 {
                1
            } else {
                s.chat_viewport as int / 2
            };
            &&& key.code == KeyCode::Tab && s.channel is Some ==> n.current().permission
                == perm::next_level(s.permission) && n.current().permission_touched
            &&& key.code == KeyCode::Tab && s.channel is None ==> n.current() == s
            &&& key.code == KeyCode::PageUp ==> n.current().chat_scroll_delta == Some((-half) as i64)
                && !n.current().chat_follow
            &&& key.code == KeyCode::PageDown ==> n.current().chat_scroll_delta == Some(half as i64)
            &&& key.code == KeyCode::Esc ==> n.pending_esc
            &&& key.code == KeyCode::Esc && s.phase != Phase::Idle ==> n.current().cancel
            &&& key.code == KeyCode::Esc && s.phase == Phase::Idle ==> n.current() == s
            &&& key.code == KeyCode::Backspace && s.editor.cursor > 0 ==> e.text.len()
                == s.editor.text.len() - 1 && e.cursor == s.editor.cursor - 1
            &&& key.code == KeyCode::Delete && s.editor.cursor < s.editor.text.len() ==> e.text.len()
                == s.editor.text.len() - 1 && e.cursor == s.editor.cursor
            &&& key.code == KeyCode::Home ==> e.cursor == 0 && e.text == s.editor.text
            &&& key.code == KeyCode::End ==> e.cursor == s.editor.text.len() && e.text
                == s.editor.text
            &&& key.code == KeyCode::Left && s.editor.cursor > 0 ==> e.cursor == s.editor.cursor - 1
            &&& key.code == KeyCode::Right && s.editor.cursor < s.editor.text.len() ==> e.cursor
                == s.editor.cursor + 1
            &&& key.code == KeyCode::Up && editor::cursor_row(s.editor) == 0 ==> n.current()
                == session::earlier(s)
            &&& key.code == KeyCode::Down && editor::cursor_row(s.editor) == editor::place(
                s.editor.text,
                s.editor.width,
            ).0 ==> n.current() == session::later(s)
            &&& task == types::TaskModel::Nothing || key.code == KeyCode::Enter
        }),
{
    lemma_comes_through(m, key, t, threshold);
    reveal(plain_key);
    reveal(session_key);
    reveal(program_key);
}

/// Each dialog gets the keys that are typed while it is the first one.
pub proof fn law_each_dialog_gets_its_keys(m: AppModel, key: KeyEvent, t: Instant, threshold: u64)
    requires
        !m.http_headers_dialog,
        m.stop_confirm is None,
        m.branch_confirm is None,
    ensures
        m.pre_send_confirm is Some ==> key_handled(m, key, t, threshold)
            == dialogs::pre_send_key_handled(m, key, t, threshold),
        m.pre_send_confirm is None && m.exec_confirm is Some ==> key_handled(m, key, t, threshold)
            == dialogs::exec_key_handled(m, key),
        m.pre_send_confirm is None && m.exec_confirm is None && m.channel_close is Some
            ==> key_handled(m, key, t, threshold) == close::close_key_handled(m, key),
        m.pre_send_confirm is None && m.exec_confirm is None && m.channel_close is None
            && m.options_dialog is Some ==> key_handled(m, key, t, threshold)
            == dialogs::options_key_handled(m, key),
        forall|d: types::BranchAskModel|
            #[trigger] key_handled(AppModel { branch_confirm: Some(d), ..m }, key, t, threshold)
                == branch::branch_key_handled(AppModel { branch_confirm: Some(d), ..m }, key),
        forall|d: types::StopModel|
            #[trigger] key_handled(AppModel { stop_confirm: Some(d), ..m }, key, t, threshold)
                == (
                close::stop_key_handled(AppModel { stop_confirm: Some(d), ..m }, key),
                types::TaskModel::Nothing,
            ),
{
    reveal(dialog_key);
    reveal(key_handled);
}

/// After an escape the signs of the zoom count as with the alternate key, and no other key does: it
/// is typed as it is.
#[verifier::rlimit(40)]
pub proof fn law_an_escape_stands_for_the_alternate_key(
    m: AppModel,
    key: KeyEvent,
    t: Instant,
    threshold: u64,
    c: char,
)
    requires
        !state::dialog_open(m),
        m.pending_esc,
        0 <= m.active < m.sessions.len(),
        key.code == KeyCode::Char(c),
        !key.modifiers.ctrl,
    ensures
        ({
            let (n, task) = key_handled(m, key, t, threshold);
            &&& !n.pending_esc
            &&& task == types::TaskModel::Nothing
            &&& c == '+' || c == '=' ==> n.current().view == view::further_in(m.current().view)
                && n.current().editor == m.current().editor
            &&& c == '-' || c == '_' ==> n.current().view == view::further_out(m.current().view)
                && n.current().editor == m.current().editor
            &&& c != '+' && c != '=' && c != '-' && c != '_' ==> n.current().editor
                == editor::inserted(m.current().editor, seq![c]) && n.current().view
                == m.current().view
        }),
{
    reveal(dialog_key);
    reveal(key_handled);
    reveal(plain_key);
    reveal(session_key);
    reveal(program_key);
}

/// Between the rows of the input the cursor moves by rows; with shift it marks, and does so at the
/// edges too.
pub proof fn law_rows_of_the_input(m: AppModel, key: KeyEvent, t: Instant, threshold: u64)
    requires
        comes_through(m),
        key.code == KeyCode::Up || key.code == KeyCode::Down,
        key.modifiers.shift,
    ensures
        ({
            let n = key_handled(m, key, t, threshold).0;
            let e = m.current().editor;
            &&& n.current().editor.cursor == editor::line_target(e, key.code == KeyCode::Up)
            &&& n.current().editor.text == e.text
            &&& e.anchor is None ==> n.current().editor.anchor == Some(e.cursor)
        }),
{
    lemma_comes_through(m, key, t, threshold);
    reveal(plain_key);
    reveal(session_key);
}

} // verus!
