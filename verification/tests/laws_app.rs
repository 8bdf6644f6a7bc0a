//! What holds of the program, on chosen values.

use aidev::app::branch::{BranchFacts, BranchOutcome};
use aidev::app::commands::{parse_command, Command, Moment};
use aidev::app::input::{meaning, Act};
use aidev::app::keys::{KeyCode, KeyEvent, KeyModifiers};
use aidev::app::list::{ListNav, Selection};
use aidev::app::make::Prepared;
use aidev::app::models::{ModelEntry, ModelRegistry, ModelStatus};
use aidev::app::session::{
    prompt_chars, prompt_tokens, should_compact, tool_kind_from_activity, Phase, Session,
};
use aidev::app::state::{path_tail, App, HostState};
use aidev::app::types::{
    BuilderChoice, ChannelBuilderState, CloseKind, ExecConfirm, LocalExecMode, Task,
};
use aidev::app::view::ViewLevel;
use aidev::channel::builder::{ContainerInfo, HostPath, Tunnel, WorktreeEntry};
use aidev::channel::local::Local;
use aidev::channel::podman::PodmanChannel;
use aidev::channel::registry::{AnyChannel, BoundChannel, ChannelRegistry};
use aidev::channel::{Channel, ChannelKind, WorktreeInfo};
use aidev::chat::{EventKind, ToolKind};
use aidev::config::{Config, ModelConfig, PathEntry, PodmanUserMapping, ProviderConfig};
use aidev::llm::{ToolActivity, Usage, WorkerEvent};
use aidev::perm::Permission;
use aidev::table::{OrderedTable, Table};
use std::time::Instant;

fn no_usage() -> Usage {
    Usage { prompt_tokens: 0, completion_tokens: 0, total_tokens: 0, cached_tokens: None }
}

fn config() -> Config {
    let mut provider = Table::new();
    provider.insert(
        "test".to_string(),
        ProviderConfig { base_url: "http://127.0.0.1:1".into(), api_key: None, user_agent: None },
    );
    let mut models = OrderedTable::new();
    models.insert("fast".to_string(), ModelConfig::Plain("test/quick".into()));
    let mut paths = Table::new();
    paths.insert("/repo".to_string(), PathEntry { image: Some("node:22".into()) });
    Config { model: "test/m".into(), provider, models, paths, ..Config::default() }
}

fn app() -> App {
    App::new(config(), ChannelRegistry::empty())
}

fn moment() -> Moment {
    Moment { now: Instant::now(), threshold: 1_000 }
}

fn key(code: KeyCode) -> KeyEvent {
    KeyEvent::new(code, KeyModifiers::none())
}

fn ctrl(c: char) -> KeyEvent {
    KeyEvent::new(KeyCode::Char(c), KeyModifiers::ctrl())
}

fn alt(code: KeyCode) -> KeyEvent {
    KeyEvent::new(code, KeyModifiers::alt())
}

fn press(a: &mut App, k: KeyEvent) -> Task {
    a.handle_key(k, &moment())
}

fn enter(a: &mut App, input: &str) -> Task {
    let i = a.active;
    a.sessions[i].editor.set_text(input);
    press(a, key(KeyCode::Enter))
}

fn keep(a: &mut App, name: &str, data: AnyChannel) -> BoundChannel {
    let ch = a.channels.bind(data);
    a.channels.register(name.to_string(), ch.clone());
    ch
}

fn local(a: &mut App) -> BoundChannel {
    keep(a, "here", AnyChannel::Local(Local::new("/repo".into())))
}

fn podman(container: &str) -> AnyChannel {
    AnyChannel::Podman(PodmanChannel::new_run(
        "node /repo",
        container,
        "/repo",
        "node:22",
        "/app",
        60,
        1000,
        100,
        "/tmp".to_string(),
        PodmanUserMapping::KeepId,
    ))
}

fn entry(branch: &str, path: &str) -> WorktreeEntry {
    WorktreeEntry {
        label: branch.into(),
        path: path.into(),
        branch: branch.into(),
        is_main: false,
        has_worktree: !path.is_empty(),
    }
}

#[test]
fn going_to_the_next_session_and_back_shows_the_same() {
    let mut a = app();
    a.new_session();
    a.new_session();
    assert_eq!(a.active, 2);
    press(&mut a, alt(KeyCode::Right));
    assert_eq!(a.active, 0, "the ends lead to each other");
    press(&mut a, alt(KeyCode::Left));
    assert_eq!(a.active, 2);
    press(&mut a, ctrl('2'));
    assert_eq!(a.active, 1);
    press(&mut a, ctrl('9'));
    assert_eq!(a.active, 1, "a number without a session");
}

#[test]
fn the_last_session_ends_the_program() {
    let mut a = app();
    a.new_session();
    press(&mut a, ctrl('w'));
    assert_eq!((a.sessions.len(), a.quit), (1, false));
    press(&mut a, ctrl('d'));
    assert!(a.quit && a.sessions.is_empty());
}

#[test]
fn new_sessions_have_new_numbers() {
    let mut a = app();
    a.new_session();
    a.new_session();
    let ids: Vec<usize> = a.sessions.iter().map(|s| s.id).collect();
    assert_eq!(ids, vec![0, 1, 2]);
    a.active = 1;
    a.finish_close_session();
    a.new_session();
    assert_eq!(a.sessions.last().unwrap().id, 3);
}

#[test]
fn questions_stop_the_animation() {
    let mut a = app();
    a.sessions[0].phase = Phase::WaitingForLLM;
    assert!(a.spinner_active());
    a.exec_confirm = Some(ExecConfirm {
        label: "x".into(),
        command: "x".into(),
        nav: ListNav::new(2),
        reply: 1,
    });
    assert!(!a.spinner_active());
    assert!(a.awaiting_decision() && a.session_awaits_decision(0));
    assert!(!a.session_awaits_decision(1));
}

#[test]
fn the_shown_model_is_the_one_that_is_asked() {
    let mut a = app();
    a.sessions[0].model_alias = Some("test/fast".into());
    let endpoint = a.resolve_endpoint(0).unwrap();
    assert_eq!(endpoint.model, a.display_model(0));
    assert_eq!(endpoint.api_model, "quick");
    a.sessions[0].model_alias = Some("nobody".into());
    assert!(a.resolve_endpoint(0).is_err());
}

#[test]
fn titles_name_the_directory_or_the_model() {
    let mut a = app();
    let ch = local(&mut a);
    a.bind_active_channel(ch);
    a.new_session();
    a.refresh_tab_labels(true, &vec![HostState::Repo(Some("main@repo".into())), HostState::Plain]);
    assert_eq!(a.tab_labels, vec!["1: main@repo", "2: test/m"]);
    a.refresh_tab_labels(true, &vec![HostState::Plain, HostState::Plain]);
    assert_eq!(a.tab_labels[0], "1: repo");
    assert_eq!(path_tail("/a/b"), "b");
    assert!(a.refresh_git_status(true, Some(("main".into(), true))));
    assert!(!a.refresh_git_status(true, Some(("main".into(), true))));
    assert!(!a.refresh_git_status(false, None));
}

#[test]
fn levels_of_the_view_undo_themselves() {
    let mut a = app();
    assert_eq!(a.sessions[0].view, ViewLevel::Compact);
    press(&mut a, alt(KeyCode::Char('-')));
    assert_eq!(a.sessions[0].view, ViewLevel::Overview);
    assert!(a.sessions[0].view.is_overview());
    press(&mut a, alt(KeyCode::Char('+')));
    assert_eq!(a.sessions[0].view, ViewLevel::Compact);
    press(&mut a, key(KeyCode::Esc));
    press(&mut a, key(KeyCode::Char('=')));
    assert_eq!(a.sessions[0].view, ViewLevel::Dialog, "Esc stands for Alt before such a key");
    assert!(a.sessions[0].view.boxes_open() && !a.sessions[0].view.thoughts_open());
    press(&mut a, key(KeyCode::Char('=')));
    assert_eq!(a.sessions[0].editor.text_string(), "=");
}

#[test]
fn keys_mean_what_their_modifiers_say() {
    assert_eq!(meaning(ctrl('n'), false), Act::NewSession);
    assert_eq!(meaning(alt(KeyCode::Char('c')), false), Act::Channels);
    assert_eq!(meaning(alt(KeyCode::Char('c')), true), Act::Type('c'));
    assert_eq!(meaning(ctrl('c'), false), Act::Leave);
    assert_eq!(meaning(ctrl('7'), false), Act::Go(7));
    assert_eq!(meaning(ctrl('x'), false), Act::Type('x'));
    assert_eq!(meaning(key(KeyCode::Other), false), Act::Nothing);
}

#[test]
fn an_open_dialog_takes_every_key() {
    let mut a = app();
    press(&mut a, ctrl('o'));
    press(&mut a, key(KeyCode::Char('x')));
    press(&mut a, ctrl('n'));
    assert_eq!(a.sessions.len(), 1);
    assert!(a.sessions[0].editor.is_empty());
    assert!(a.any_dialog_open());
}

#[test]
fn headers_are_only_shown() {
    let mut a = app();
    press(&mut a, alt(KeyCode::Char('h')));
    press(&mut a, ctrl('n'));
    press(&mut a, key(KeyCode::Char('x')));
    assert!(a.http_headers_dialog);
    assert!(a.any_dialog_open());
    assert_eq!(a.sessions.len(), 1);
    press(&mut a, key(KeyCode::Enter));
    assert!(!a.http_headers_dialog);
}

#[test]
fn levels_of_permission_come_round() {
    let mut a = app();
    press(&mut a, key(KeyCode::Tab));
    assert_eq!(a.sessions[0].permission, Permission::Read, "without a channel there is none");
    let ch = local(&mut a);
    a.bind_active_channel(ch);
    for level in [Permission::Write, Permission::Execute, Permission::Read] {
        press(&mut a, key(KeyCode::Tab));
        assert_eq!(a.sessions[0].permission, level);
    }
    assert!(a.sessions[0].permission_touched);
}

#[test]
fn a_chosen_level_stays() {
    let mut a = app();
    let ch = local(&mut a);
    a.bind_active_channel(ch);
    press(&mut a, key(KeyCode::Tab));
    let other = keep(&mut a, "box", podman("box"));
    a.bind_active_channel(other);
    assert_eq!(a.sessions[0].permission, Permission::Write);
    a.new_session();
    let other = a.channels.get("box").unwrap();
    a.bind_active_channel(other);
    assert_eq!(a.sessions[1].permission, Permission::Execute, "the level of the channel");
}

#[test]
fn scrolling_undoes_itself() {
    let mut a = app();
    a.sessions[0].chat_viewport = 20;
    a.handle_wheel(true);
    assert_eq!(a.sessions[0].chat_scroll_delta, Some(-3));
    assert!(!a.sessions[0].chat_follow);
    press(&mut a, key(KeyCode::PageUp));
    assert_eq!(a.sessions[0].chat_scroll_delta, Some(-13));
    press(&mut a, key(KeyCode::PageDown));
    a.handle_wheel(false);
    assert_eq!(a.sessions[0].chat_scroll_delta, Some(0));
    a.sessions[0].chat_scroll_delta = Some(i64::MIN);
    a.handle_wheel(true);
    assert_eq!(a.sessions[0].chat_scroll_delta, Some(i64::MIN));
}

#[test]
fn commands_on_the_host_need_consent() {
    let mut a = app();
    let ch = local(&mut a);
    a.bind_active_channel(ch);
    a.sessions[0].permission = Permission::Execute;
    let task = enter(&mut a, "lösche alles");
    assert!(matches!(task, Task::Nothing));
    assert_eq!(a.pre_send_confirm.as_ref().unwrap().nav.cursor(), 2);
    assert!(a.sessions[0].chat.order().is_empty());
    press(&mut a, key(KeyCode::Enter));
    assert!(a.pre_send_confirm.is_none());
    assert_eq!(a.local_exec_mode, LocalExecMode::Ask, "an unread answer sends nothing");
    enter(&mut a, "lösche alles");
    press(&mut a, key(KeyCode::Up));
    let task = press(&mut a, key(KeyCode::Char(' ')));
    assert_eq!(a.local_exec_mode, LocalExecMode::ConfirmEach);
    match task {
        Task::Worker { permission, mode, session, messages, .. } => {
            assert_eq!(permission, Permission::Execute);
            assert_eq!(mode, LocalExecMode::ConfirmEach);
            assert_eq!(session, 0);
            assert_eq!(messages.len(), 1);
        }
        other => panic!("nothing sent: {other:?}"),
    }
}

#[test]
fn a_prompt_goes_out_with_everything_since_the_summary() {
    let mut a = app();
    let task = enter(&mut a, "frage");
    assert!(matches!(&task, Task::Worker { endpoint, .. } if endpoint.api_model == "m"));
    assert_eq!(a.sessions[0].phase, Phase::WaitingForLLM);
    assert!(a.sessions[0].editor.is_empty());
    press(&mut a, key(KeyCode::Esc));
    assert!(a.sessions[0].cancel, "Esc stops what runs");
}

#[test]
fn commands_do_not_reach_the_model() {
    let mut a = app();
    for input in ["/model fast", "/theme dark", "/commit x", "/run ls", "/compact", "/branch b"] {
        enter(&mut a, input);
        a.channel_picker = None;
        assert!(a.sessions[0].chat.order().is_empty(), "{input}");
    }
    assert_eq!(a.sessions[0].model_alias.as_deref(), Some("test/fast"));
}

#[test]
fn commands_are_told_from_prompts() {
    assert_eq!(parse_command("/compact"), Command::Compact);
    assert_eq!(parse_command("/end"), Command::End);
    assert_eq!(parse_command("/branch  b "), Command::Branch("b".into()));
    assert_eq!(parse_command("/branch"), Command::Prompt);
    assert_eq!(parse_command("/commit m"), Command::Commit("m".into()));
    assert_eq!(parse_command("/model"), Command::Model("".into()));
    assert_eq!(parse_command("/channel"), Command::Channel);
    assert_eq!(parse_command("/new"), Command::New);
    assert_eq!(parse_command("/run ls"), Command::Run("ls".into()));
    assert_eq!(parse_command("hallo"), Command::Prompt);
}

#[test]
fn a_running_turn_is_not_disturbed() {
    let mut a = app();
    enter(&mut a, "frage");
    let task = enter(&mut a, "noch eine");
    assert!(matches!(task, Task::Nothing));
    assert_eq!(a.sessions[0].editor.text_string(), "noch eine");
    enter(&mut a, "/new");
    assert_eq!(a.sessions.len(), 2);
}

#[test]
fn sent_inputs_come_back() {
    let mut s = Session::new(0);
    s.push_history("eins");
    s.push_history("zwei");
    s.editor.set_text("neu");
    s.history_prev();
    assert_eq!(s.editor.text_string(), "zwei");
    s.history_prev();
    assert_eq!(s.editor.text_string(), "eins");
    s.history_next();
    assert_eq!(s.editor.text_string(), "zwei");
    s.history_next();
    assert_eq!(s.editor.text_string(), "neu", "the fresh input comes back");
}

#[test]
fn as_many_steps_forward_as_back_lead_to_the_fresh_input() {
    for sent in 0..4 {
        for k in 0..7 {
            let mut s = Session::new(0);
            for i in 0..sent {
                s.push_history(&format!("eingabe {i}"));
            }
            let history = s.input_history.clone();
            s.editor.set_text("neu");
            for _ in 0..k {
                s.history_prev();
            }
            for _ in 0..k {
                s.history_next();
            }
            assert_eq!(s.editor.text_string(), "neu", "{sent} inputs, {k} steps");
            assert_eq!(s.hist_cursor, None);
            assert_eq!(s.input_history, history);
        }
    }
}

#[test]
fn a_demand_is_shown_behind_the_name() {
    let mut e = ModelEntry {
        provider: "openai".into(),
        alias: "fast".into(),
        server_model: "gpt-4o-mini".into(),
        context_window: None,
        demand: Some(42),
        in_config: true,
        fetched: true,
    };
    assert_eq!(e.display_full(), "openai/fast (gpt-4o-mini) \u{b7} \u{1f525}42");
    e.demand = Some(0);
    assert_eq!(e.display_full(), "openai/fast (gpt-4o-mini)");
    e.alias = "gpt-4o-mini".into();
    e.demand = None;
    assert_eq!(e.display_full(), "openai/gpt-4o-mini");
}

#[test]
fn a_round_ends_once_and_a_turn_ends_idle() {
    let now = Instant::now();
    let mut a = app();
    enter(&mut a, "frage");
    a.handle_event(WorkerEvent::Chunk(0, "hi".into()), now);
    a.handle_event(WorkerEvent::RoundEnd(0), now);
    let n = a.sessions[0].chat.order().len();
    a.handle_event(WorkerEvent::RoundEnd(0), now);
    assert_eq!(a.sessions[0].chat.order().len(), n);
    a.handle_event(WorkerEvent::Retrying(0, "later".into(), now), now);
    assert!(a.sessions[0].retrying.is_some());
    a.handle_event(WorkerEvent::Done(0), now);
    assert_eq!(a.sessions[0].phase, Phase::Idle);
    assert!(a.sessions[0].retrying.is_none());
    assert!(a.sessions[0].open_assistant_id.is_none());
}

#[test]
fn errors_are_shown_and_their_files_named() {
    let now = Instant::now();
    let mut a = app();
    enter(&mut a, "frage");
    a.handle_event(WorkerEvent::Error(0, "kaputt\n/tmp/debug.txt".into()), now);
    assert_eq!(a.sessions[0].error.as_deref(), Some("kaputt"));
    assert_eq!(a.sessions[0].error_debug.as_deref(), Some("/tmp/debug.txt"));
    a.handle_event(WorkerEvent::Error(0, "zwei\nZeilen".into()), now);
    assert_eq!(a.sessions[0].error.as_deref(), Some("zwei\nZeilen"));
    assert_eq!(a.sessions[0].error_debug, None);
}

#[test]
fn reports_change_their_session_only() {
    let now = Instant::now();
    let mut a = app();
    a.new_session();
    a.handle_event(WorkerEvent::Compacting(1), now);
    assert!(!a.sessions[0].compacting && a.sessions[1].compacting);
    a.handle_event(WorkerEvent::Compacting(7), now);
    assert!(!a.sessions[0].compacting, "no such session");
    a.handle_event(WorkerEvent::UsageUpdate(0, 12), now);
    assert_eq!(a.sessions[0].live_usage_total, Some(12));
    assert_eq!(a.sessions[1].live_usage_total, None);
    assert!(!a.drain_events(Vec::new(), now).0);
}

#[test]
fn every_question_is_answered() {
    let now = Instant::now();
    let mut a = app();
    let ask = |id, reply| WorkerEvent::ExecConfirm(id, "run".into(), "ls".into(), reply);
    assert!(matches!(a.handle_event(ask(0, 1), now), Task::Nothing));
    assert!(matches!(a.handle_event(ask(0, 2), now), Task::Reply { to: 1, consent: false }));
    assert!(matches!(a.handle_event(ask(5, 3), now), Task::Reply { to: 3, consent: false }));
    assert_eq!(a.exec_confirm.as_ref().unwrap().reply, 2);
    let task = press(&mut a, key(KeyCode::Esc));
    assert!(matches!(task, Task::Reply { to: 2, consent: false }));
}

#[test]
fn tools_show_what_they_did() {
    let now = Instant::now();
    let mut a = app();
    enter(&mut a, "frage");
    a.handle_event(
        WorkerEvent::ToolStart {
            session: 0,
            tool_call_id: "user_run".into(),
            function_name: "run".into(),
            arguments: "{\"command\": \"ls\"}".into(),
            label: "run ls".into(),
        },
        now,
    );
    assert_eq!(a.sessions[0].active_tool_label.as_deref(), Some("run ls"));
    assert!(a.sessions[0].open_assistant_id.is_none(), "a command of the user has no round");
    a.handle_event(WorkerEvent::ToolOutput(0, "a\n".into()), now);
    let activity = ToolActivity { output_full: "a\nb\n".into(), ..ToolActivity::default() };
    a.handle_event(WorkerEvent::ToolEnd(0, activity), now);
    assert!(a.sessions[0].live_tool.is_none());
    let events = a.sessions[0].chat.iter();
    let tool = events.iter().find(|e| matches!(e.kind, EventKind::Tool { .. })).unwrap();
    match &tool.kind {
        EventKind::Tool { output, .. } => assert_eq!(output, "a\nb\n"),
        _ => unreachable!(),
    }
    let kind = tool_kind_from_activity("read", "{\"path\": \"x\"}", &ToolActivity::default());
    assert!(matches!(kind, ToolKind::Read { path, .. } if path == "x"));
}

#[test]
fn without_a_count_a_quarter_of_the_bytes_decides() {
    let now = Instant::now();
    let mut s = Session::new(0);
    s.push_user_message("hallo".into(), None, "m".into(), now);
    assert_eq!(prompt_chars(&s), 5);
    assert!(should_compact(&s, 1, 1));
    assert!(!should_compact(&s, 1, 2), "five bytes are one token");
    let round = s.open_assistant("gr\u{fc}n".into(), "ja".into(), now);
    assert_eq!(prompt_chars(&s), 5 + 5 + 2, "bytes, not characters");
    s.chat.finalize_assistant(round, now, no_usage(), 0, 0, false);
    assert_eq!(s.last_usage_current(), None, "nothing was counted");
    assert!(should_compact(&s, 3, 1));
    assert!(should_compact(&s, 3, 3));
    assert!(!should_compact(&s, 3, 4));
    s.apply_compaction("kurz".into(), 7, 3, now);
    assert_eq!(prompt_chars(&s), 28, "four for each token of the summary");
    assert_eq!(prompt_tokens(&s), 7);
    assert!(should_compact(&s, 3, 7));
    assert!(!should_compact(&s, 3, 8));
}

#[test]
fn a_round_without_a_count_says_nothing() {
    let now = Instant::now();
    let mut s = Session::new(0);
    s.push_user_message("frage".into(), None, "m".into(), now);
    let counted = Usage {
        prompt_tokens: 90,
        completion_tokens: 10,
        total_tokens: 100,
        cached_tokens: None,
    };
    let first = s.open_assistant(String::new(), "ja".into(), now);
    s.chat.finalize_assistant(first, now, counted, 0, 0, false);
    let second = s.open_assistant(String::new(), "nein".into(), now);
    s.chat.finalize_assistant(second, now, no_usage(), 0, 0, false);
    assert_eq!(s.last_usage_current(), Some(counted));
}

#[test]
fn the_base_of_a_prompt_is_estimated_without_a_count() {
    let now = Instant::now();
    let mut a = app();
    enter(&mut a, "hallo welt");
    assert_eq!(a.sessions[0].prompt_base, 1, "nothing was said before");
    a.handle_event(WorkerEvent::Chunk(0, "antwort".into()), now);
    a.handle_event(WorkerEvent::Done(0), now);
    enter(&mut a, "und");
    assert_eq!(a.sessions[0].prompt_base, (10 + 7) / 4);
}

#[test]
fn copying_needs_a_channel() {
    let mut a = app();
    let task = press(&mut a, alt(KeyCode::Char('d')));
    assert!(matches!(task, Task::Nothing));
    assert_eq!(a.sessions.len(), 1);
    assert_eq!(
        a.sessions[0].error.as_deref(),
        Some("Cannot duplicate: no channel is bound (Alt+C).")
    );
    let ch = local(&mut a);
    a.bind_active_channel(ch);
    assert!(matches!(press(&mut a, alt(KeyCode::Char('d'))), Task::Duplicate(_)));
    assert_eq!(a.sessions[0].error, None);
}

#[test]
fn a_summary_leaves_the_last_turns() {
    let now = Instant::now();
    let mut a = app();
    for i in 0..6 {
        enter(&mut a, &format!("frage {i}"));
        a.handle_event(WorkerEvent::Chunk(0, "antwort".into()), now);
        let usage = Usage {
            prompt_tokens: 90,
            completion_tokens: 10,
            total_tokens: 100,
            cached_tokens: None,
        };
        a.handle_event(WorkerEvent::Usage(0, usage, Default::default()), now);
        a.handle_event(WorkerEvent::Done(0), now);
    }
    assert!(a.sessions[0].last_usage_current().is_some());
    a.handle_event(WorkerEvent::Compacted(0, "kurz".into(), 5), now);
    assert!(a.sessions[0].last_usage_current().is_none(), "no count is left");
    let prompts = a.sessions[0]
        .chat
        .iter()
        .iter()
        .skip_while(|e| !matches!(e.kind, EventKind::Archive { .. }))
        .filter(|e| matches!(e.kind, EventKind::UserPrompt { .. }))
        .count();
    assert_eq!(prompts, 4, "three turns and the one before them");
}

#[test]
fn moving_keeps_a_mark_in_the_window() {
    let mut nav = ListNav::with_wrap_at(3, 1);
    nav.move_down();
    nav.move_up();
    assert_eq!(nav.cursor(), 1);
    let mut nav = ListNav::new(30);
    nav.move_bottom();
    nav.follow(5, |_| 1);
    let first = nav.offset();
    nav.follow(5, |_| 1);
    assert_eq!(nav.offset(), first);
    assert!(nav.visible(5).contains(&nav.cursor()));
}

#[test]
fn known_models_stay_known() {
    let mut models = OrderedTable::new();
    models.insert("fast".to_string(), ModelConfig::Plain("p/quick".into()));
    let mut reg = ModelRegistry::new(&models);
    assert_eq!(reg.status("p/fast"), None, "nothing is said before a refresh");
    reg.apply_refresh(&vec![("p/quick".into(), Some(2)), ("p/new".into(), None)]);
    assert!(reg.get("p/new").is_some());
    assert!(reg.get_by_alias("fast").is_some());
    assert_eq!(reg.find_by_model_id("p/quick").unwrap().display_key(), "p/fast");
    assert!(matches!(reg.status("p/fast"), Some(ModelStatus::ConfigAndFetched)));
    models.insert("slow".to_string(), ModelConfig::Plain("p/slow".into()));
    reg.sync_from_config(&models);
    assert!(reg.get_by_alias("slow").is_some());
    assert!(reg.get("p/new").is_some());
    assert_eq!(reg.all().len(), reg.len());
}

#[test]
fn new_models_are_told_of() {
    let now = Instant::now();
    let mut a = app();
    a.open_model_picker();
    let found = vec![("test/a".to_string(), None), ("test/b".to_string(), None)];
    a.handle_event(WorkerEvent::ModelsRefreshed(found), now);
    assert_eq!(a.sessions[0].error.as_deref(), Some("Refreshed: 2 new models found."));
    assert!(!a.model_picker.as_ref().unwrap().loading);
    assert_eq!(a.model_picker.as_ref().unwrap().items.items.len(), 4);
    a.handle_event(WorkerEvent::ModelsRefreshed(vec![("test/c".to_string(), None)]), now);
    assert_eq!(a.sessions[0].error.as_deref(), Some("Refreshed: 1 new model found."));
}

#[test]
fn providers_are_asked_for_their_models() {
    let mut a = app();
    a.open_model_picker();
    let task = press(&mut a, key(KeyCode::Char('r')));
    match task {
        Task::FetchModels(v) => {
            assert_eq!(v, vec![("test".to_string(), "http://127.0.0.1:1".to_string(), None)])
        }
        other => panic!("not asked: {other:?}"),
    }
    assert!(a.model_picker.as_ref().unwrap().loading);
}

#[test]
fn every_channel_is_listed_and_bound_by_choice() {
    let mut a = app();
    local(&mut a);
    keep(&mut a, "box", podman("box"));
    a.open_channel_picker();
    assert_eq!(a.channel_picker.as_ref().unwrap().items.items.len(), 4);
    press(&mut a, key(KeyCode::Down));
    let bound = loop {
        let task = press(&mut a, key(KeyCode::Enter));
        if let Some(ch) = &a.sessions[0].channel {
            break (ch.data.kind(), matches!(task, Task::Warmup(_)));
        }
        a.open_channel_picker();
        press(&mut a, key(KeyCode::Down));
    };
    assert_eq!(bound.0 == ChannelKind::PodmanRun, bound.1, "only containers are started");
    a.open_channel_picker();
    press(&mut a, key(KeyCode::End));
    let task = press(&mut a, key(KeyCode::Enter));
    assert!(matches!(task, Task::OpenBuilder));
}

#[test]
fn nothing_is_closed_unasked() {
    let mut a = app();
    let ch = local(&mut a);
    a.bind_active_channel(ch);
    a.sessions[0].phase = Phase::WaitingForTool;
    let task = a.begin_close_channel("here", CloseKind::Picker);
    assert!(matches!(task, Task::Nothing));
    assert!(a.channel_close.is_some());
    assert!(a.channels.get("here").is_some());
    press(&mut a, key(KeyCode::Esc));
    assert!(a.channels.get("here").is_some());
    assert!(a.sessions[0].channel.is_some());
}

#[test]
fn losses_are_asked_about_and_closed_channels_are_gone() {
    let mut a = app();
    let ch = keep(&mut a, "box", podman("box"));
    a.channels.managed.push("box".into());
    a.bind_active_channel(ch);
    a.container_checked("box", CloseKind::Picker, Some(vec!["2 files".into()]));
    assert!(a.channel_close.is_some());
    assert!(a.channels.get("box").is_some());
    press(&mut a, key(KeyCode::Up));
    let task = press(&mut a, key(KeyCode::Enter));
    assert!(matches!(&task, Task::StopContainer(args) if args.contains(&"box".to_string())));
    assert!(a.channels.get("box").is_none());
    assert!(a.sessions[0].channel.is_none());
}

#[test]
fn the_end_asks_first() {
    let mut a = app();
    keep(&mut a, "box", podman("box"));
    assert!(matches!(press(&mut a, ctrl('c')), Task::CheckChannels));
    assert!(!a.quit);
    a.channels_checked(&vec![Some(vec!["2 files".into()])]);
    assert!(!a.quit);
    let d = a.stop_confirm.as_ref().unwrap();
    assert_eq!((d.entries.len(), d.nav.cursor()), (1, 1));
    press(&mut a, key(KeyCode::Esc));
    a.channels_checked(&vec![None]);
    assert!(a.quit, "nothing would be lost");
}

#[test]
fn differing_branches_are_asked_about() {
    let mut a = app();
    let ch = local(&mut a);
    a.bind_active_channel(ch);
    let pending = match enter(&mut a, "/branch neu") {
        Task::InspectBranch(p) => p,
        other => panic!("not looked at: {other:?}"),
    };
    assert_eq!(pending.branch_name, "neu");
    let facts = BranchFacts {
        is_root: true,
        repo_error: None,
        exists: true,
        worktree: None,
        same_commit: false,
        same_status: false,
    };
    let task = a.branch_inspected(pending, facts);
    assert!(matches!(task, Task::Nothing));
    assert!(a.branch_confirm.is_some());
    assert_eq!(a.sessions.len(), 1);
}

#[test]
fn a_branch_gets_a_session_of_its_own() {
    let mut a = app();
    let ch = local(&mut a);
    a.bind_active_channel(ch);
    let pending = match enter(&mut a, "/branch neu") {
        Task::InspectBranch(p) => p,
        other => panic!("not looked at: {other:?}"),
    };
    let worktree = WorktreeInfo {
        name: "wt-neu".into(),
        branch: "neu".into(),
        path: "/repo/.aidev/wt-neu".into(),
    };
    let made = BranchOutcome::Made { worktree, base_folder: "repo".into(), copy_info: None };
    a.user_branch_proceed(pending, made, (1000, 100));
    assert_eq!(a.sessions.len(), 2);
    assert_eq!(a.active, 1);
    let root = a.sessions[1].channel.as_ref().unwrap().data.host_root();
    assert_eq!(root.as_deref(), Some("/repo/.aidev/wt-neu"));
    assert_eq!(a.channels.names().len(), 2);
}

#[test]
fn without_a_repository_no_branch_is_made() {
    let mut a = app();
    let ch = local(&mut a);
    a.bind_active_channel(ch);
    let pending = match enter(&mut a, "/branch neu") {
        Task::InspectBranch(p) => p,
        other => panic!("not looked at: {other:?}"),
    };
    let task = a.user_branch_proceed(pending, BranchOutcome::NoRepo, (1000, 100));
    assert!(matches!(task, Task::Nothing));
    assert_eq!(a.sessions.len(), 1);
    assert_eq!(a.sessions[0].error, None);
    assert_eq!(a.channels.names().len(), 1);
}

#[test]
fn a_registered_channel_comes_back_whole() {
    let mut r = ChannelRegistry::empty();
    let data = AnyChannel::Podman(PodmanChannel::new_run(
        "node",
        "aidev-node",
        "/host/x",
        "node:22",
        "/app",
        61,
        1001,
        101,
        "/tmp".to_string(),
        PodmanUserMapping::Uidmap,
    ));
    let ch = r.bind(data);
    let name = r.register("node".into(), ch);
    let back = r.get(&name).expect("registered");
    let copy = back.data.clone();
    match (&back.data, &copy) {
        (AnyChannel::Podman(p), AnyChannel::Podman(q)) => {
            for c in [p, q] {
                assert_eq!((c.timeout, c.uid, c.gid), (61, 1001, 101));
                assert_eq!(c.container, "aidev-node");
                assert_eq!(c.workdir, "/app");
                assert_eq!(c.home, "/tmp");
                assert_eq!(c.usermapping, PodmanUserMapping::Uidmap);
            }
        }
        other => panic!("another channel: {other:?}"),
    }
    let (found, channel) = r.find_by_container("aidev-node").expect("there is one");
    assert_eq!(found, name);
    assert_eq!(r.get(&found).map(|c| c.id), Some(channel.id));
}

#[test]
fn the_builder_offers_images_and_directories_once() {
    let now = Instant::now();
    let mut a = app();
    let task = a.open_channel_builder(Some("/work"));
    assert!(matches!(&task, Task::LoadStart(Some(p)) if p == "/repo"));
    a.start_loaded(true, vec![entry("main", "/repo"), entry("feat", "")]);
    let images = vec![
        ("docker.io/library/node:22".to_string(), Some("/srv/".to_string())),
        ("node:22".to_string(), None),
        ("alpine".to_string(), None),
    ];
    let task = a.handle_event(WorkerEvent::BuilderLoaded(images, None, Vec::new()), now);
    assert!(matches!(&task, Task::FindImage(p) if p == "/repo"));
    let b = a.channel_builder.as_ref().unwrap();
    assert_eq!(b.tunnels.items.len(), 3, "the same image once");
    let task = a.image_found(Some("node:22".into()));
    assert!(matches!(&task, Task::FindContainer { path, .. } if path == "/repo"));
    assert_eq!(a.channel_builder.as_ref().unwrap().tunnels.nav.cursor(), 1);
    a.path_checked("/work/".into(), true);
    let b = a.channel_builder.as_ref().unwrap();
    assert_eq!(b.host_paths.items.len(), 2, "the directory was there");
    assert_eq!(b.host_paths.nav.cursor(), 1);
    let task = a.host_loaded(false, Vec::new(), None);
    assert!(matches!(&task, Task::FindContainer { path, .. } if path == "/work"));
    press(&mut a, key(KeyCode::Right));
    assert_eq!(a.channel_builder.as_ref().unwrap().col, 1, "no repository, no worktrees");
}

#[test]
fn typing_in_the_builder_changes_its_input_alone() {
    let mut a = app();
    a.open_channel_builder(Some("/work"));
    press(&mut a, key(KeyCode::Char('a')));
    press(&mut a, key(KeyCode::Char('j')));
    let b: &ChannelBuilderState = a.channel_builder.as_ref().unwrap();
    assert_eq!(b.host_paths.nav.cursor(), 0);
    assert!(b.edit.is_some());
    press(&mut a, key(KeyCode::Esc));
    press(&mut a, key(KeyCode::Esc));
    assert!(a.channel_builder.is_none());
}

#[test]
fn branches_are_made_in_the_builder() {
    let mut a = app();
    a.open_channel_builder(None);
    a.start_loaded(true, vec![entry("main", "/repo")]);
    press(&mut a, key(KeyCode::Right));
    press(&mut a, key(KeyCode::Char('b')));
    press(&mut a, key(KeyCode::Char('2')));
    let task = press(&mut a, key(KeyCode::Enter));
    match task {
        Task::CreateBranch { repo, name, source } => {
            assert_eq!((repo.as_str(), name.as_str()), ("/repo", "main2"));
            assert_eq!(source.as_deref(), Some("main"));
        }
        other => panic!("not made: {other:?}"),
    }
    a.branch_created("main2", Err("boom".into()));
    let b = a.channel_builder.as_ref().unwrap();
    assert_eq!(b.edit_error.as_deref(), Some("Could not create branch: boom"));
    a.branch_created("main2", Ok(vec![entry("main", "/repo"), entry("main2", "")]));
    let b = a.channel_builder.as_ref().unwrap();
    assert!(b.edit.is_none());
    assert_eq!(b.worktrees.nav.cursor(), 1);
}

#[test]
fn the_builder_makes_the_chosen_channel() {
    let mut a = app();
    a.open_channel_builder(None);
    a.start_loaded(true, vec![entry("main", "/repo"), entry("feat", "")]);
    a.channel_builder.as_mut().unwrap().tunnels = Selection::wrap_at(
        vec![Tunnel::Image { name: "node:22".into(), working_dir: Some("/srv/".into()) }],
        0,
    );
    a.channel_builder.as_mut().unwrap().worktrees.set_cursor(1);
    let choice = match press(&mut a, key(KeyCode::Enter)) {
        Task::PrepareChannel(c) => c,
        other => panic!("not prepared: {other:?}"),
    };
    assert_eq!(choice.pending_branch.as_deref(), Some("feat"));
    let worktree = WorktreeInfo { name: "wt".into(), branch: "feat".into(), path: "/wt".into() };
    let cfg = choice.to_config(&Some(worktree.clone()), "repo");
    assert_eq!(cfg.kind, "podman");
    assert_eq!(cfg.workdir, "/srv/repo");
    assert_eq!(cfg.run_container.as_deref(), Some("aidev-repo-feat-node"));
    assert_eq!(cfg.host_root.as_deref(), Some("/wt"));
    let ready = Prepared::Ready { worktree: Some(worktree), base: "repo".into() };
    let task = a.channel_prepared(choice, ready, &Ok((1000, 100)));
    assert!(matches!(task, Task::Warmup(_)));
    assert_eq!(a.channels.names(), vec!["node /wt"]);
    assert!(a.channel_builder.is_none());
}

fn choice(container_info: Option<ContainerInfo>) -> BuilderChoice {
    BuilderChoice {
        tunnel: Tunnel::Image { name: "node:22".into(), working_dir: None },
        host_root: "/repo".into(),
        worktree: None,
        container_info,
        pending_branch: Some("feat".into()),
    }
}

#[test]
fn a_known_container_gets_no_second_channel() {
    let mut a = app();
    let known = keep(&mut a, "known", podman("aidev-repo-node"));
    let info = ContainerInfo {
        name: "aidev-repo-node".into(),
        status: "running".into(),
        mount_destination: Some("/app".into()),
    };
    let ready = Prepared::Ready { worktree: None, base: "repo".into() };
    a.channel_prepared(choice(Some(info)), ready, &Ok((1000, 100)));
    assert_eq!(a.channels.names(), vec!["known"]);
    assert_eq!(a.sessions[0].channel.as_ref().unwrap().id, known.id);
}

#[test]
fn failures_of_the_builder_are_told() {
    let mut a = app();
    let none = Err("no id".to_string());
    a.channel_prepared(choice(None), Prepared::NoRepo("kaputt".into()), &none);
    assert_eq!(a.sessions[0].error.as_deref(), Some("Could not determine Git repo: kaputt"));
    a.channel_prepared(choice(None), Prepared::NoWorktree("kaputt".into()), &none);
    assert_eq!(
        a.sessions[0].error.as_deref(),
        Some("Could not create worktree for branch 'feat': kaputt")
    );
    let ready = Prepared::Ready { worktree: None, base: "repo".into() };
    a.channel_prepared(choice(None), ready, &none);
    assert_eq!(a.sessions[0].error.as_deref(), Some("Could not create channel: no id"));
    a.dir_made("/x", Some("denied".into()));
    a.duplicated(Err("no".into()));
    assert_eq!(a.sessions[0].error.as_deref(), Some("Cannot duplicate: no"));
}

#[test]
fn a_copied_channel_is_kept_and_bound() {
    let mut a = app();
    assert!(matches!(press(&mut a, alt(KeyCode::Char('d'))), Task::Nothing));
    let ch = local(&mut a);
    a.bind_active_channel(ch.clone());
    assert!(matches!(press(&mut a, alt(KeyCode::Char('d'))), Task::Duplicate(c) if c.id == ch.id));
    a.duplicated(Ok(AnyChannel::Local(Local::new("/repo".into()))));
    assert_eq!(a.channels.names().len(), 2);
    assert_ne!(a.sessions[0].channel.as_ref().unwrap().id, ch.id);
}

#[test]
fn host_paths_have_labels() {
    assert_eq!(HostPath { path: "/a".into() }.label(), "/a");
}

#[test]
fn the_version_tells_changes() {
    let now = Instant::now();
    let mut s = Session::new(1);
    assert_eq!(s.history_version, 0);
    s.push_user_message("hello".into(), None, "m".into(), now);
    assert_eq!(s.history_version, 1);
    s.take_event(WorkerEvent::Chunk(1, "a".into()), 2, now);
    let open = s.history_version;
    assert!(open > 1, "a round was opened");
    s.take_event(WorkerEvent::Chunk(1, "b".into()), 2, now);
    assert_eq!(s.history_version, open, "growing text is not over yet");
    s.take_event(WorkerEvent::Done(1), 2, now);
    assert_eq!(s.history_version, open + 1);
    s.take_event(WorkerEvent::Done(1), 2, now);
    assert_eq!(s.history_version, open + 1, "nothing was open any more");
}
