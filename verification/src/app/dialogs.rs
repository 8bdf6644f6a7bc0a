//! Questions before commands run on the host, and the options of the program.

use super::commands;
use super::commands::Moment;
use super::keys::{KeyCode, KeyEvent};
use super::list;
use super::list::move_by_line;
use super::state::{App, AppModel};
use super::types;
use super::types::{ExecConfirm, LocalExecMode, OptionsDialog, PreSendConfirm, Task};
use std::time::Instant;
use vstd::prelude::*;

verus! {

/// How commands on the host are treated after an answer; none where nothing is to be sent.
pub open spec fn answered_mode(cursor: usize) -> Option<LocalExecMode> {
    if cursor == 0 {
        Some(LocalExecMode::Trusted)
    } else if cursor == 1 {
        Some(LocalExecMode::ConfirmEach)
    } else {
        None
    }
}

/// State and work after the question before a prompt was answered.
#[verifier::opaque]
pub open spec fn pre_send_answered(m: AppModel, d: PreSendConfirm, t: Instant, threshold: u64) -> (
    AppModel,
    types::TaskModel,
) {
    let n = AppModel { pre_send_confirm: None, ..m };
    match answered_mode(d.nav.cursor) {
        None => (n, types::TaskModel::Nothing),
        Some(mode) => {
            let chosen = AppModel { local_exec_mode: mode, ..n };
            if d.session < m.sessions.len() {
                commands::prompt_sent(chosen, d.session as int, t, threshold)
            } else {
                (chosen, types::TaskModel::Nothing)
            }
        },
    }
}

/// State and work after a key in the question before a prompt.
#[verifier::opaque]
pub open spec fn pre_send_key_handled(m: AppModel, key: KeyEvent, t: Instant, threshold: u64) -> (
    AppModel,
    types::TaskModel,
) {
    match m.pre_send_confirm {
        None => (m, types::TaskModel::Nothing),
        Some(d) => match key.code {
            KeyCode::Esc => (
                AppModel { pre_send_confirm: None, ..m },
                types::TaskModel::Nothing,
            ),
            KeyCode::Enter => pre_send_answered(m, d, t, threshold),
            KeyCode::Char(' ') => pre_send_answered(m, d, t, threshold),
            _ => (
                AppModel {
                    pre_send_confirm: Some(
                        PreSendConfirm { nav: list::after_key(d.nav, key.code, 3), ..d },
                    ),
                    ..m
                },
                types::TaskModel::Nothing,
            ),
        },
    }
}

/// State and work after a key in the question before a command. The worker that waits learns the
/// answer; to close the question is to say no.
#[verifier::opaque]
pub open spec fn exec_key_handled(m: AppModel, key: KeyEvent) -> (AppModel, types::TaskModel) {
    match m.exec_confirm {
        None => (m, types::TaskModel::Nothing),
        Some(d) => {
            let closed = AppModel { exec_confirm: None, ..m };
            let answer = types::TaskModel::Reply { to: d.reply, consent: d.nav.cursor == 0 };
            match key.code {
                KeyCode::Esc => (
                    closed,
                    types::TaskModel::Reply { to: d.reply, consent: false },
                ),
                KeyCode::Enter => (closed, answer),
                KeyCode::Char(' ') => (closed, answer),
                _ => (
                    AppModel {
                        exec_confirm: Some(
                            types::ExecModel { nav: list::after_key(d.nav, key.code, 2), ..d },
                        ),
                        ..m
                    },
                    types::TaskModel::Nothing,
                ),
            }
        },
    }
}

/// State and work after the marked option was chosen. The options stay open.
pub open spec fn option_chosen(m: AppModel, cursor: usize) -> (AppModel, types::TaskModel) {
    if cursor == 1 {
        (
            AppModel { mouse_enabled: !m.mouse_enabled, ..m },
            types::TaskModel::Mouse(!m.mouse_enabled),
        )
    } else {
        (m, types::TaskModel::Nothing)
    }
}

/// State and work after a key in the options.
#[verifier::opaque]
pub open spec fn options_key_handled(m: AppModel, key: KeyEvent) -> (AppModel, types::TaskModel) {
    match m.options_dialog {
        None => (m, types::TaskModel::Nothing),
        Some(d) => {
            let closes = key.code == KeyCode::Esc || (key.code == KeyCode::Char('o')
                && key.modifiers.ctrl);
            if closes {
                (AppModel { options_dialog: None, ..m }, types::TaskModel::Nothing)
            } else if key.code == KeyCode::Enter || key.code == KeyCode::Char(' ') {
                option_chosen(m, d.nav.cursor)
            } else {
                (
                    AppModel {
                        options_dialog: Some(
                            OptionsDialog { nav: list::after_key(d.nav, key.code, 3) },
                        ),
                        ..m
                    },
                    types::TaskModel::Nothing,
                )
            }
        },
    }
}

impl App {
    fn put_pre_send(&mut self, d: Option<PreSendConfirm>)
        requires
            old(self).ready(),
            d matches Some(x) ==> x.nav.wf(),
        ensures
            final(self).ready(),
            final(self)@ == (AppModel { pre_send_confirm: d, ..old(self)@ }),
    {
        self.pre_send_confirm = d;
    }

    fn put_mode(&mut self, mode: LocalExecMode)
        requires
            old(self).ready(),
        ensures
            final(self).ready(),
            final(self)@ == (AppModel { local_exec_mode: mode, ..old(self)@ }),
    {
        self.local_exec_mode = mode;
    }

    fn take_exec(&mut self) -> (r: Option<ExecConfirm>)
        requires
            old(self).ready(),
        ensures
            final(self).ready(),
            final(self)@ == (AppModel { exec_confirm: None, ..old(self)@ }),
            old(self)@.exec_confirm == (match r {
                Some(d) => Some(d@),
                None => None,
            }),
            r matches Some(d) ==> d.nav.wf(),
    {
        self.exec_confirm.take()
    }

    fn put_exec(&mut self, d: ExecConfirm)
        requires
            old(self).ready(),
            d.nav.wf(),
        ensures
            final(self).ready(),
            final(self)@ == (AppModel { exec_confirm: Some(d@), ..old(self)@ }),
    {
        self.exec_confirm = Some(d);
    }

    fn put_options(&mut self, d: Option<OptionsDialog>)
        requires
            old(self).ready(),
            d matches Some(x) ==> x.nav.wf(),
        ensures
            final(self).ready(),
            final(self)@ == (AppModel { options_dialog: d, ..old(self)@ }),
    {
        self.options_dialog = d;
    }

    fn choose_option(&mut self, cursor: usize) -> (r: Task)
        requires
            old(self).ready(),
        ensures
            final(self).ready(),
            (final(self)@, r@) == option_chosen(old(self)@, cursor),
    {
        if cursor == 1 {
            self.toggle_mouse()
        } else {
            Task::Nothing
        }
    }

    fn answer_pre_send(&mut self, d: PreSendConfirm, at: &Moment) -> (r: Task)
        requires
            old(self).ready(),
        ensures
            final(self).ready(),
            (final(self)@, r@) == pre_send_answered(old(self)@, d, at.now, at.threshold),
    {
        proof {
            reveal(pre_send_answered);
        }
        let ghost m = self@;
        self.put_pre_send(None);
        if d.nav.cursor > 1 {
            return Task::Nothing;
        }
        if d.nav.cursor == 0 {
            self.put_mode(LocalExecMode::Trusted);
        } else {
            self.put_mode(LocalExecMode::ConfirmEach);
        }
        assert(self@.sessions == m.sessions);
        if d.session < self.sessions.len() {
            self.send_prompt(d.session, at)
        } else {
            Task::Nothing
        }
    }

    /// Handles a key in the question before a prompt that may run commands on the host.
    pub fn handle_pre_send_key(&mut self, key: KeyEvent, at: &Moment) -> (r: Task)
        requires
            old(self).ready(),
        ensures
            final(self).ready(),
            (final(self)@, r@) == pre_send_key_handled(old(self)@, key, at.now, at.threshold),
    {
        proof {
            reveal(pre_send_key_handled);
        }
        let mut d = match self.pre_send_confirm {
            Some(d) => d,
            None => {
                return Task::Nothing;
            },
        };
        match key.code {
            KeyCode::Esc => {
                self.put_pre_send(None);
                Task::Nothing
            },
            KeyCode::Enter | KeyCode::Char(' ') => self.answer_pre_send(d, at),
            _ => {
                let _used = move_by_line(&mut d.nav, &key, 3);
                self.put_pre_send(Some(d));
                Task::Nothing
            },
        }
    }

    /// Handles a key in the question before a command.
    pub fn handle_exec_confirm_key(&mut self, key: KeyEvent) -> (r: Task)
        requires
            old(self).ready(),
        ensures
            final(self).ready(),
            (final(self)@, r@) == exec_key_handled(old(self)@, key),
    {
        proof {
            reveal(exec_key_handled);
        }
        let mut d = match self.take_exec() {
            Some(d) => d,
            None => {
                return Task::Nothing;
            },
        };
        match key.code {
            KeyCode::Esc => Task::Reply { to: d.reply, consent: false },
            KeyCode::Enter | KeyCode::Char(' ') => Task::Reply {
                to: d.reply,
                consent: d.nav.cursor == 0,
            },
            _ => {
                let _used = move_by_line(&mut d.nav, &key, 2);
                self.put_exec(d);
                Task::Nothing
            },
        }
    }

    /// Handles a key in the options.
    pub fn handle_options_dialog_key(&mut self, key: KeyEvent) -> (r: Task)
        requires
            old(self).ready(),
        ensures
            final(self).ready(),
            (final(self)@, r@) == options_key_handled(old(self)@, key),
    {
        proof {
            reveal(options_key_handled);
        }
        let mut d = match self.options_dialog {
            Some(d) => d,
            None => {
                return Task::Nothing;
            },
        };
        match key.code {
            KeyCode::Esc => {
                self.put_options(None);
                Task::Nothing
            },
            KeyCode::Char('o') if key.modifiers.ctrl => {
                self.put_options(None);
                Task::Nothing
            },
            KeyCode::Enter | KeyCode::Char(' ') => self.choose_option(d.nav.cursor),
            _ => {
                let _used = move_by_line(&mut d.nav, &key, 3);
                self.put_options(Some(d));
                Task::Nothing
            },
        }
    }
}

/// No command gets its consent but by an answer: a question that is left is a question denied.
pub proof fn law_closing_a_question_denies_it(m: AppModel, modifiers: super::keys::KeyModifiers)
    ensures
        m.exec_confirm matches Some(d) ==> exec_key_handled(
            m,
            KeyEvent { code: KeyCode::Esc, modifiers },
        ).1 == (types::TaskModel::Reply { to: d.reply, consent: false }),
{
    reveal(exec_key_handled);
}

/// The question before a prompt stands at the answer that sends nothing, so that to confirm it
/// unread sends nothing and leaves commands on the host as they are.
pub proof fn law_an_unread_answer_sends_nothing(
    m: AppModel,
    d: PreSendConfirm,
    t: Instant,
    threshold: u64,
)
    requires
        d.nav.cursor == 2,
    ensures
        pre_send_answered(m, d, t, threshold) == (
            AppModel { pre_send_confirm: None, ..m },
            types::TaskModel::Nothing,
        ),
{
    reveal(pre_send_answered);
}

/// Before something is sent that may run commands on the machine: the first answer allows them all,
/// the second one has each asked about, and both send what was waiting; the third one and giving up
/// send nothing and decide nothing.
pub proof fn law_the_answer_before_sending_decides(
    m: AppModel,
    d: PreSendConfirm,
    key: KeyEvent,
    t: Instant,
    threshold: u64,
)
    requires
        m.pre_send_confirm == Some(d),
        d.session < m.sessions.len(),
        key.code == KeyCode::Enter || key.code == KeyCode::Char(' '),
    ensures
        ({
            let n = AppModel { pre_send_confirm: None, ..m };
            let r = pre_send_key_handled(m, key, t, threshold);
            &&& d.nav.cursor == 0 ==> r == commands::prompt_sent(
                AppModel { local_exec_mode: LocalExecMode::Trusted, ..n },
                d.session as int,
                t,
                threshold,
            )
            &&& d.nav.cursor == 1 ==> r == commands::prompt_sent(
                AppModel { local_exec_mode: LocalExecMode::ConfirmEach, ..n },
                d.session as int,
                t,
                threshold,
            )
            &&& d.nav.cursor >= 2 ==> r == (n, types::TaskModel::Nothing)
        }),
        pre_send_key_handled(m, KeyEvent { code: KeyCode::Esc, ..key }, t, threshold) == (
            AppModel { pre_send_confirm: None, ..m },
            types::TaskModel::Nothing,
        ),
{
    reveal(pre_send_key_handled);
    reveal(pre_send_answered);
}

/// A command is allowed only by taking the first answer; the second one and giving up deny it, and
/// either way the one that asked is answered and the question is closed.
pub proof fn law_only_the_first_answer_allows(m: AppModel, d: types::ExecModel, key: KeyEvent)
    requires
        m.exec_confirm == Some(d),
    ensures
        ({
            let (n, task) = exec_key_handled(m, key);
            let taken = key.code == KeyCode::Enter || key.code == KeyCode::Char(' ');
            &&& taken || key.code == KeyCode::Esc ==> n == (AppModel { exec_confirm: None, ..m })
            &&& taken ==> task == (types::TaskModel::Reply {
                to: d.reply,
                consent: d.nav.cursor == 0,
            })
            &&& key.code == KeyCode::Esc ==> task == (types::TaskModel::Reply {
                to: d.reply,
                consent: false,
            })
            &&& !taken && key.code != KeyCode::Esc ==> task == types::TaskModel::Nothing
                && n.exec_confirm is Some && (n.exec_confirm->0).reply == d.reply && (
            n.exec_confirm->0).command == d.command
        }),
{
    reveal(exec_key_handled);
}

/// The mouse is switched by its own option, and by no other one; the dialog stays open.
pub proof fn law_the_mouse_is_switched(m: AppModel, d: OptionsDialog, key: KeyEvent)
    requires
        m.options_dialog == Some(d),
        key.code == KeyCode::Enter || key.code == KeyCode::Char(' '),
    ensures
        d.nav.cursor == 1 ==> options_key_handled(m, key) == (
            AppModel { mouse_enabled: !m.mouse_enabled, ..m },
            types::TaskModel::Mouse(!m.mouse_enabled),
        ),
        d.nav.cursor != 1 ==> options_key_handled(m, key) == (m, types::TaskModel::Nothing),
        options_key_handled(m, KeyEvent { code: KeyCode::Esc, ..key }) == (
            AppModel { options_dialog: None, ..m },
            types::TaskModel::Nothing,
        ),
{
    reveal(options_key_handled);
}

} // verus!
