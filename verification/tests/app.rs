//! Sessions, reports of workers, summaries, keys and dialogs.

use aidev::app::commands::{parse_run_line, Moment};
use aidev::app::keys::{KeyCode, KeyEvent, KeyModifiers};
use aidev::app::list::{ListNav, Selection};
use aidev::app::session::{compact_boundary, prompt_tokens, should_compact, Phase, Session};
use aidev::app::state::{App, HostState};
use aidev::app::types::{
    BuilderEdit, ChannelBuilderState, ChannelClose, ChannelClosePhase, ChannelPick, CloseKind,
    ExecConfirm, ModelPick, PathConfirm, PreSendConfirm, StopConfirm, Task,
};
use aidev::channel::builder::{HostPath, Tunnel, WorktreeEntry};
use aidev::channel::registry::ChannelRegistry;
use aidev::chat::wire::api_messages;
use aidev::chat::EventKind;
use aidev::config::{ChannelConfig, Config, ModelConfig, ProviderConfig};
use aidev::llm::{estimate_tokens, CompletionParts, ToolActivity, Usage, WorkerEvent};
use aidev::perm::Permission;
use aidev::table::{OrderedTable, Table};
use std::collections::HashMap;
use std::time::Instant;

fn test_provider(base_url: &str) -> Table<ProviderConfig> {
    let mut m = Table::new();
    m.insert(
        "test".to_string(),
        ProviderConfig {
            base_url: base_url.to_string(),
            api_key: Some("x".into()),
            user_agent: None,
        },
    );
    m
}

fn base_config() -> Config {
    Config {
        model: "test/m".into(),
        provider: test_provider("http://127.0.0.1:1"),
        max_tool_rounds: 16,
        default_channel: None,
        channels: Table::new(),
        context_window: 200_000,
        compact_keep_turns: 3,
        compact_summary_tokens: 4_000,
        compact_auto: true,
        mouse: false,
        models: OrderedTable::new(),
        paths: Table::new(),
        ..Config::default()
    }
}

fn app() -> App {
    App::new(
        base_config(),
        ChannelRegistry::new_with_warnings(&base_config(), &Vec::new()).0,
    )
}

fn moment() -> Moment {
    Moment { now: Instant::now(), threshold: 160_000 }
}

fn press(a: &mut App, key: KeyEvent) -> Task {
    a.handle_key(key, &moment())
}

fn drain(a: &mut App, sent: &mut Vec<WorkerEvent>) -> bool {
    let events = std::mem::take(sent);
    a.drain_events(events, Instant::now()).0
}

fn label(a: &mut App) {
    let hosts = a.sessions.iter().map(|_| HostState::Plain).collect();
    a.refresh_tab_labels(true, &hosts);
}

fn apply_refresh(a: &mut App, ids: &[(&str, Option<u64>)]) {
    let found = ids.iter().map(|(s, d)| (s.to_string(), *d)).collect();
    a.model_registry.apply_refresh(&found);
}

fn alt_d() -> KeyEvent {
    KeyEvent::new(KeyCode::Char('d'), KeyModifiers::alt())
}

fn alt_h() -> KeyEvent {
    KeyEvent::new(KeyCode::Char('h'), KeyModifiers::alt())
}

fn ctrl_o() -> KeyEvent {
    KeyEvent::new(KeyCode::Char('o'), KeyModifiers::ctrl())
}

fn ctrl_c() -> KeyEvent {
    KeyEvent::new(KeyCode::Char('c'), KeyModifiers::ctrl())
}

fn tool_activity() -> ToolActivity {
    ToolActivity::default()
}

fn zero_usage() -> Usage {
    Usage {
        prompt_tokens: 0,
        completion_tokens: 0,
        total_tokens: 0,
        cached_tokens: None,
    }
}

fn active_confirm_cursor(a: &App) -> usize {
    match &a
        .channel_close
        .as_ref()
        .expect("Kanal-Schließ-Dialog offen")
        .phase
    {
        ChannelClosePhase::ActiveConfirm { nav } => nav.cursor(),
        _ => panic!("erwartet ActiveConfirm-Phase"),
    }
}

fn builder_state() -> ChannelBuilderState {
    ChannelBuilderState {
        tunnels: Selection::wrap_at(
            vec![
                Tunnel::Local,
                Tunnel::Image {
                    name: "img".into(),
                    working_dir: None,
                },
            ],
            0,
        ),
        host_paths: Selection::wrap_at(
            vec![
                HostPath { path: "/a".into() },
                HostPath { path: "/b".into() },
            ],
            0,
        ),
        worktrees: Selection::wrap_at(Vec::new(), 0),
        col: 1,
        container_info: None,
        images_loaded: true,
        current_is_git: false,
        argv_path: None,
        edit: None,
        edit_error: None,
    }
}

fn builder_state_with_repo() -> ChannelBuilderState {
    let mut b = builder_state();
    b.col = 2;
    b.current_is_git = true;
    b.worktrees = Selection::wrap_at(
        vec![
            WorktreeEntry {
                label: "/a (main)".into(),
                path: "/a".into(),
                branch: "main".into(),
                is_main: true,
                has_worktree: true,
            },
            WorktreeEntry {
                label: "feat (Kein Worktree)".into(),
                path: "".into(),
                branch: "feat".into(),
                is_main: false,
                has_worktree: false,
            },
        ],
        1,
    );
    b
}

#[test]
fn send_prompt_legt_user_event_an_und_setzt_phase() {
    let mut a = app();
    a.sessions[0].editor.set_text("hallo");
    a.send_prompt(0, &moment());

    let s = &a.sessions[0];
    assert_eq!(s.phase, Phase::WaitingForLLM);
    let ids: Vec<_> = s.chat.order().to_vec();
    assert_eq!(ids.len(), 1, "genau ein UserPrompt-Event");
    match &s.chat.event(ids[0]).unwrap().kind {
        EventKind::UserPrompt { text, .. } => assert_eq!(text, "hallo"),
        other => panic!("erwartet UserPrompt, bin {other:?}"),
    }
}

#[test]
fn enter_waehrend_stream_model_befehl_wird_ausgefuehrt() {
    let mut a = app();
    apply_refresh(&mut a, &[("test/fast", None)]);
    a.sessions[0].editor.set_text("erste nachricht");
    a.send_prompt(0, &moment());
    a.sessions[0].editor.set_text("/model test/fast");
    press(&mut a, KeyEvent::new(KeyCode::Enter, KeyModifiers::none()));
    assert_eq!(
        a.sessions[0].phase,
        Phase::WaitingForLLM,
        "Stream läuft weiter"
    );
    assert_eq!(
        a.sessions[0].model_alias.as_deref(),
        Some("test/fast"),
        "/model wird trotz aktivem Stream ausgeführt"
    );
    assert!(
        a.sessions[0].editor.text_string().is_empty(),
        "Editor nach /model geleert"
    );
}

#[test]
fn enter_waehrend_stream_theme_befehl_wird_ausgefuehrt() {
    let mut a = app();
    a.sessions[0].editor.set_text("erste nachricht");
    a.send_prompt(0, &moment());
    a.sessions[0].editor.set_text("/theme dark");
    press(&mut a, KeyEvent::new(KeyCode::Enter, KeyModifiers::none()));
    assert_eq!(a.sessions[0].phase, Phase::WaitingForLLM);
    assert!(
        a.sessions[0]
            .error
            .as_deref()
            .unwrap_or("")
            .contains("theme → dark"),
        "/theme läuft trotz aktivem Stream"
    );
}

#[test]
fn enter_waehrend_stream_dialog_befehle_oeffnen_dialoge() {
    let mut a = app();
    a.sessions[0].editor.set_text("erste nachricht");
    a.send_prompt(0, &moment());
    a.sessions[0].editor.set_text("/options");
    press(&mut a, KeyEvent::new(KeyCode::Enter, KeyModifiers::none()));
    assert!(
        a.options_dialog.is_some(),
        "/options öffnet Dialog trotz Stream"
    );
    press(&mut a, KeyEvent::new(KeyCode::Esc, KeyModifiers::none()));
    a.sessions[0].editor.set_text("/header");
    press(&mut a, KeyEvent::new(KeyCode::Enter, KeyModifiers::none()));
    assert!(a.http_headers_dialog, "/header öffnet Dialog trotz Stream");
    assert_eq!(
        a.sessions[0].phase,
        Phase::WaitingForLLM,
        "Stream läuft weiter"
    );
}

#[test]
fn enter_waehrend_stream_normaler_text_wird_ignoriert() {
    let mut a = app();
    a.sessions[0].editor.set_text("erste nachricht");
    a.send_prompt(0, &moment());
    a.sessions[0].editor.set_text("zweite nachricht");
    press(&mut a, KeyEvent::new(KeyCode::Enter, KeyModifiers::none()));
    let s = &a.sessions[0];
    assert_eq!(s.phase, Phase::WaitingForLLM, "Phase bleibt unverändert");
    let ids: Vec<_> = s.chat.order().to_vec();
    assert_eq!(ids.len(), 1, "kein zweiter UserPrompt während des Streams");
    assert_eq!(
        s.editor.text_string(),
        "zweite nachricht",
        "Text bleibt zum Weitertippen im Feld"
    );
}

#[test]
fn enter_waehrend_stream_run_und_kompaktierung_bleiben_gesperrt() {
    let mut a = app();
    a.sessions[0].editor.set_text("erste nachricht");
    a.send_prompt(0, &moment());
    a.sessions[0].editor.set_text("/run echo hi");
    press(&mut a, KeyEvent::new(KeyCode::Enter, KeyModifiers::none()));
    let s = &a.sessions[0];
    assert_eq!(s.phase, Phase::WaitingForLLM, "kein neuer Tool-Lauf");
    assert!(s.error.is_none(), "user_run wird gar nicht erreicht");
    assert_eq!(
        s.editor.text_string(),
        "/run echo hi",
        "Befehl bleibt stehen"
    );
    a.sessions[0].editor.set_text("/compact");
    press(&mut a, KeyEvent::new(KeyCode::Enter, KeyModifiers::none()));
    let s = &a.sessions[0];
    assert_eq!(s.phase, Phase::WaitingForLLM);
    assert!(!s.compacting, "keine Kompaktierung während des Streams");
    assert_eq!(s.editor.text_string(), "/compact", "Befehl bleibt stehen");
}

#[test]
fn terminal_title_idle_einzelne_session() {
    let mut a = app();
    label(&mut a);
    assert_eq!(a.busy_status(), "idle");
    assert_eq!(a.terminal_title_string(), "aidev · idle · test/m");
}

#[test]
fn terminal_title_busy_einzelne_session_ohne_zaehler() {
    let mut a = app();
    a.sessions[0].editor.set_text("hallo");
    a.send_prompt(0, &moment());
    label(&mut a);
    assert_eq!(a.busy_status(), "busy");
    assert_eq!(a.terminal_title_string(), "aidev · busy · test/m");
}

#[test]
fn terminal_title_busy_mehrere_sessions_mit_zaehler() {
    let mut a = app();
    a.new_session();
    a.sessions[0].editor.set_text("hallo");
    a.send_prompt(0, &moment());
    label(&mut a);
    assert_eq!(a.busy_status(), "1/2 busy");
    assert_eq!(a.terminal_title_string(), "aidev · 1/2 busy · test/m");

    let mut a = app();
    a.new_session();
    a.sessions[0].editor.set_text("hallo");
    a.send_prompt(0, &moment());
    a.active = 1;
    a.sessions[1].editor.set_text("hallo2");
    a.send_prompt(1, &moment());
    label(&mut a);
    assert_eq!(a.busy_status(), "2/2 busy");
}

#[test]
fn terminal_title_folgt_dem_aktiven_tab() {
    let mut a = app();
    apply_refresh(&mut a, &[("test/m", None), ("test/fast", None)]);
    a.new_session();
    a.sessions[1].model_alias = Some("test/fast".to_string());
    a.active = 0;
    label(&mut a);
    assert!(
        a.terminal_title_string().ends_with("test/m"),
        "Titel trägt Label der aktiven Session: {}",
        a.terminal_title_string()
    );

    a.active = 1;
    label(&mut a);
    assert!(
        a.terminal_title_string().ends_with("test/fast"),
        "nach Tab-Wechsel neues Label: {}",
        a.terminal_title_string()
    );
}

#[test]
fn shift_enter_fuegt_umbruch_ein_enter_sendet_mehrzeilig() {
    let mut a = app();
    let shift_enter = KeyEvent::new(KeyCode::Enter, KeyModifiers::shift());

    for c in "Zeile eins".chars() {
        press(&mut a, KeyEvent::new(KeyCode::Char(c), KeyModifiers::none()));
    }
    press(&mut a, shift_enter);
    assert_eq!(
        a.sessions[0].editor.text_string(),
        "Zeile eins\n",
        "Shift+Enter fügt einen Umbruch ein"
    );
    assert_ne!(
        a.sessions[0].phase,
        Phase::WaitingForLLM,
        "Shift+Enter sendet nicht"
    );

    for c in "Zeile zwei".chars() {
        press(&mut a, KeyEvent::new(KeyCode::Char(c), KeyModifiers::none()));
    }
    assert_eq!(a.sessions[0].editor.text_string(), "Zeile eins\nZeile zwei");
    press(&mut a, KeyEvent::new(KeyCode::Enter, KeyModifiers::none()));

    assert_eq!(a.sessions[0].phase, Phase::WaitingForLLM);
    let ids: Vec<_> = a.sessions[0].chat.order().to_vec();
    match &a.sessions[0].chat.event(ids[0]).unwrap().kind {
        EventKind::UserPrompt { text, .. } => {
            assert_eq!(
                text, "Zeile eins\nZeile zwei",
                "mehrzeiliger Text wird gesendet"
            )
        }
        other => panic!("erwartet UserPrompt, bin {other:?}"),
    }
}

#[test]
fn paste_fuegt_mehrzeiligen_text_ein_statt_zu_senden() {
    let mut a = app();
    for c in "Foo".chars() {
        press(&mut a, KeyEvent::new(KeyCode::Char(c), KeyModifiers::none()));
    }
    a.handle_paste("Bar\nBaz");
    assert_eq!(
        a.sessions[0].editor.text_string(),
        "FooBar\nBaz",
        "Paste fügt Text mit Zeilenumbrüchen ein"
    );
    assert_ne!(
        a.sessions[0].phase,
        Phase::WaitingForLLM,
        "Paste-Umbruch darf nicht senden"
    );

    press(&mut a, KeyEvent::new(KeyCode::Home, KeyModifiers::none()));
    for _ in 0..3 {
        press(&mut a, KeyEvent::new(KeyCode::Right, KeyModifiers::shift()));
    }
    assert_eq!(a.sessions[0].editor.selected_range(), Some(0..3));
    a.handle_paste("neu");
    assert_eq!(a.sessions[0].editor.text_string(), "neuBar\nBaz");

    press(&mut a, KeyEvent::new(KeyCode::Enter, KeyModifiers::none()));
    assert_eq!(a.sessions[0].phase, Phase::WaitingForLLM);
    let ids: Vec<_> = a.sessions[0].chat.order().to_vec();
    match &a.sessions[0].chat.event(ids[0]).unwrap().kind {
        EventKind::UserPrompt { text, .. } => assert_eq!(text, "neuBar\nBaz"),
        other => panic!("erwartet UserPrompt, bin {other:?}"),
    }
}

#[test]
fn worker_chunk_und_done_bauen_assistant_event() {
    let mut a = app();
    let mut sent = Vec::new();
    {
        let s = &mut a.sessions[0];
        s.push_user_message("frage".into(), Some(Permission::Read), "m".into(), Instant::now());
    }

    sent.push(WorkerEvent::Chunk(0, "Hel".into()));
    sent.push(WorkerEvent::Chunk(0, "lo".into()));
    sent.push(WorkerEvent::Done(0));
    assert!(drain(&mut a, &mut sent), "Events müssen verarbeitet werden");

    let assistant = a.sessions[0]
        .chat
        .iter()
        .into_iter()
        .find(|e| matches!(e.kind, EventKind::Assistant { .. }))
        .expect("Assistant-Event erzeugt");
    match &assistant.kind {
        EventKind::Assistant { text, .. } => assert_eq!(text, "Hello"),
        other => panic!("erwartet Assistant: {other:?}"),
    }
    assert_eq!(a.sessions[0].phase, Phase::Idle);
}

#[test]
fn tool_round_wird_als_assistant_plus_tool_events_abgebildet() {
    let mut a = app();
    let mut sent = Vec::new();
    a.sessions[0].push_user_message("frage".into(), Some(Permission::Read), "m".into(), Instant::now());

    sent.push(WorkerEvent::ToolStart {
        session: 0,
        tool_call_id: "call_1".into(),
        function_name: "read".into(),
        arguments: "{\"path\":\"x\"}".into(),
        label: "read x".into(),
    });
    sent.push(WorkerEvent::ToolOutput(0, "inhalt".into()));
    sent.push(WorkerEvent::ToolEnd(0, tool_activity()));
    sent.push(WorkerEvent::Done(0));
    assert!(drain(&mut a, &mut sent));

    let s = &a.sessions[0];
    assert_eq!(s.phase, Phase::Idle);
    let assistant = s
        .chat
        .iter()
        .into_iter()
        .find(|e| matches!(e.kind, EventKind::Assistant { .. }))
        .expect("Assistant vorhanden");
    let tool_ids = match &assistant.kind {
        EventKind::Assistant { tool_event_ids, .. } => tool_event_ids,
        _ => unreachable!(),
    };
    assert_eq!(tool_ids.len(), 1, "ein Tool-Event registriert");

    let wire = api_messages(&s.chat);
    assert_eq!(wire.len(), 3, "user + assistant(tool) + tool");
    assert!(wire[1].tool_calls.is_some(), "assistant trägt tool_calls");
    assert_eq!(wire[2].role, "tool");
    assert_eq!(wire[2].tool_call_id.as_deref(), Some("call_1"));
}

#[test]
fn tool_zwischenrunde_mit_usage_ableitet_text_tokens() {
    let mut a = app();
    let mut sent = Vec::new();
    a.sessions[0].push_user_message("frage".into(), Some(Permission::Read), "m".into(), Instant::now());

    sent.push(WorkerEvent::Chunk(0, "Ich schaue nach.".into()));
    sent.push(WorkerEvent::Usage(
        0,
        Usage {
            prompt_tokens: 500,
            completion_tokens: 40,
            total_tokens: 540,
            cached_tokens: None,
        },
        CompletionParts::default(),
    ));
    sent.push(WorkerEvent::ToolStart {
        session: 0,
        tool_call_id: "call_1".into(),
        function_name: "read".into(),
        arguments: "{\"path\":\"x\"}".into(),
        label: "read x".into(),
    });
    sent.push(WorkerEvent::ToolEnd(0, tool_activity()));
    sent.push(WorkerEvent::Chunk(0, "Antwort.".into()));
    sent.push(WorkerEvent::Usage(
        0,
        Usage {
            prompt_tokens: 600,
            completion_tokens: 30,
            total_tokens: 630,
            cached_tokens: None,
        },
        CompletionParts::default(),
    ));
    sent.push(WorkerEvent::Done(0));
    assert!(drain(&mut a, &mut sent));

    let s = &a.sessions[0];
    let assistants: Vec<_> = s
        .chat
        .iter()
        .into_iter()
        .filter(|e| matches!(e.kind, EventKind::Assistant { .. }))
        .collect();
    assert_eq!(assistants.len(), 2, "Zwischenrunde + finale Runde");
    let mid = match &assistants[0].kind {
        EventKind::Assistant {
            num_tokens_text,
            tool_event_ids,
            ..
        } => {
            assert_eq!(tool_event_ids.len(), 1, "Tool hängt an der Zwischenrunde");
            *num_tokens_text
        }
        _ => unreachable!(),
    };
    let fin = match &assistants[1].kind {
        EventKind::Assistant {
            num_tokens_text, ..
        } => *num_tokens_text,
        _ => unreachable!(),
    };
    assert!(
        mid > 0,
        "Zwischenantwort liefert abgeleitete Tokens, war {mid}"
    );
    assert!(
        fin > 0,
        "finale Antwort liefert abgeleitete Tokens, war {fin}"
    );
}

#[test]
fn round_end_schliesst_tool_runde_sofort_ab() {
    let mut a = app();
    let mut sent = Vec::new();
    a.sessions[0].push_user_message("frage".into(), Some(Permission::Read), "m".into(), Instant::now());

    sent.push(WorkerEvent::Usage(
        0,
        Usage {
            prompt_tokens: 500,
            completion_tokens: 40,
            total_tokens: 540,
            cached_tokens: None,
        },
        CompletionParts::default(),
    ));
    sent.push(WorkerEvent::ToolStart {
        session: 0,
        tool_call_id: "call_1".into(),
        function_name: "read".into(),
        arguments: "{\"path\":\"x\"}".into(),
        label: "read x".into(),
    });
    sent.push(WorkerEvent::ToolEnd(0, tool_activity()));
    sent.push(WorkerEvent::RoundEnd(0));
    assert!(drain(&mut a, &mut sent));

    {
        let s = &a.sessions[0];
        assert!(s.open_assistant_id.is_none(), "Runde sofort geschlossen");
        assert!(s.pending_usage.is_none(), "geparkte Usage verbraucht");
        let last = s.last_usage_current().expect("reported_usage steht sofort");
        assert_eq!(last.total_tokens, 540, "verified tokens ohne Folge-Chunk");
    }
    sent.push(WorkerEvent::RoundEnd(0));
    assert!(drain(&mut a, &mut sent));
    assert_eq!(
        a.sessions[0]
            .chat
            .iter()
        .into_iter()
            .filter(|e| matches!(e.kind, EventKind::Assistant { .. }))
            .count(),
        1,
        "keine Phantom-Runde durch doppeltes RoundEnd"
    );

    sent.push(WorkerEvent::Chunk(0, "Antwort.".into()));
    sent.push(WorkerEvent::Done(0));
    assert!(drain(&mut a, &mut sent));
    assert_eq!(
        a.sessions[0]
            .chat
            .iter()
        .into_iter()
            .filter(|e| matches!(e.kind, EventKind::Assistant { .. }))
            .count(),
        2,
        "Folge-Chunk öffnet neue Runde"
    );
}

#[test]
fn end_to_end_gemessene_parts_ueberleben_bis_zum_tool_event() {
    let mut a = app();
    let mut sent = Vec::new();
    a.sessions[0].push_user_message("frage".into(), Some(Permission::Read), "m".into(), Instant::now());

    sent.push(WorkerEvent::Reasoning(0, "Gedanken.".into()));
    sent.push(WorkerEvent::Usage(
        0,
        Usage {
            prompt_tokens: 987,
            completion_tokens: 111,
            total_tokens: 1098,
            cached_tokens: None,
        },
        CompletionParts {
            reasoning: 38,
            content: 0,
            tool_calls: vec![36, 37],
        },
    ));
    sent.push(WorkerEvent::ToolStart {
        session: 0,
        tool_call_id: "call_8f1dd6088e2d4f46a434135b".into(),
        function_name: "glob".into(),
        arguments: "{\"pattern\": \"*\"}".into(),
        label: "glob *".into(),
    });
    sent.push(WorkerEvent::ToolEnd(0, tool_activity()));
    sent.push(WorkerEvent::ToolStart {
        session: 0,
        tool_call_id: "call_04276ce441d9441786fe240d".into(),
        function_name: "glob".into(),
        arguments: "{\"pattern\": \"**/*\"}".into(),
        label: "glob **/*".into(),
    });
    sent.push(WorkerEvent::ToolEnd(0, tool_activity()));
    sent.push(WorkerEvent::Chunk(0, "Zusammenfassung.".into()));
    sent.push(WorkerEvent::Done(0));
    assert!(drain(&mut a, &mut sent));

    let s = &a.sessions[0];
    let mut by_call: HashMap<String, u64> = HashMap::new();
    for ev in s.chat.iter() {
        if let EventKind::Tool {
            tool_call_id,
            num_tokens_input,
            ..
        } = &ev.kind
        {
            let _ = by_call.insert(tool_call_id.clone(), *num_tokens_input);
        }
    }
    assert_eq!(
        by_call.get("call_8f1dd6088e2d4f46a434135b"),
        Some(&36),
        "Tool 1 behaelt gemessene 36"
    );
    assert_eq!(
        by_call.get("call_04276ce441d9441786fe240d"),
        Some(&37),
        "Tool 2 behaelt gemessene 37"
    );
    let assistant = s
        .chat
        .iter()
        .into_iter()
        .find(|e| matches!(e.kind, EventKind::Assistant { .. }))
        .expect("Tool-Runde");
    assert!(matches!(
        &assistant.kind,
        EventKind::Assistant {
            num_tokens_reasoning: 38,
            ..
        }
    ));
}

#[test]
fn abbruch_erzeugt_abort_event_und_phase_idle() {
    let mut a = app();
    let mut sent = Vec::new();
    a.sessions[0].push_user_message("frage".into(), Some(Permission::Read), "m".into(), Instant::now());
    sent.push(WorkerEvent::Chunk(0, "halb".into()));
    sent.push(WorkerEvent::Cancelled(0));
    assert!(drain(&mut a, &mut sent));

    let s = &a.sessions[0];
    assert_eq!(s.phase, Phase::Idle);
    assert!(s.aborted, "Abbruch markiert");
    assert!(
        s.chat.iter()
        .into_iter().any(|e| matches!(e.kind, EventKind::Abort)),
        "Abort-Event vorhanden"
    );
}

#[test]
fn compact_boundary_behaelt_letzte_turns() {
    let mut a = app();
    {
        let s = &mut a.sessions[0];
        for i in 0..5 {
            s.push_user_message(format!("frage {i}"), Some(Permission::Read), "m".into(), Instant::now());
            let aid = s.open_assistant(String::new(), format!("antwort {i}"), Instant::now());
            s.chat.finalize_assistant(
                aid,
                Instant::now(),
                Usage {
                    prompt_tokens: 0,
                    completion_tokens: 0,
                    total_tokens: 0,
                    cached_tokens: None,
                },
                0,
                0,
                false,
            );
        }
    }
    let b = compact_boundary(&a.sessions[0], 3);
    assert!(b > 0, "mindestens ein Turn ist kompaktierbar");
}

#[test]
fn prompt_tokens_nach_compaction_zaehlt_nur_aktuellen_kontext() {
    let mut s = Session::new(0);
    s.push_user_message("alte frage".into(), Some(Permission::Read), "m".into(), Instant::now());
    let a1 = s.open_assistant("gedanken alt".into(), "antwort alt".into(), Instant::now());
    s.chat
        .finalize_assistant(a1, Instant::now(), zero_usage(), 0, 0, false);
    let summary_tokens = 5;
    s.chat.compact(
        2,
        "[Compressed history - 1 earlier messages]\n\nzusammenfassung".into(),
        summary_tokens,
    );
    s.push_user_message("neue frage".into(), Some(Permission::Read), "m".into(), Instant::now());
    let a2 = s.open_assistant("gedanken neu".into(), "antwort neu".into(), Instant::now());
    s.chat
        .finalize_assistant(a2, Instant::now(), zero_usage(), 0, 0, false);

    let got = prompt_tokens(&s);
    let expected = summary_tokens
        + estimate_tokens("neue frage")
        + estimate_tokens("gedanken neu")
        + estimate_tokens("antwort neu");
    assert_eq!(got, expected, "archivierte Events fließen nicht mehr ein");
    assert!(
        got < 40,
        "ohne Aufräumen würde der alte Kontext (22T) mit reinzählen"
    );
}

#[test]
fn last_usage_current_verwirft_usage_vor_der_compaction() {
    let mut s = Session::new(0);
    s.push_user_message("alte frage".into(), Some(Permission::Read), "m".into(), Instant::now());
    let a1 = s.open_assistant("gedanken alt".into(), "antwort alt".into(), Instant::now());
    s.chat.finalize_assistant(
        a1,
        Instant::now(),
        Usage {
            prompt_tokens: 900,
            completion_tokens: 100,
            total_tokens: 1000,
            cached_tokens: None,
        },
        0,
        0,
        false,
    );
    assert!(
        s.last_usage_current().is_some(),
        "ohne Archive ist der Usage aktuell"
    );
    s.chat.compact(2, "zusammenfassung".into(), 5);
    assert!(
        s.last_usage_current().is_none(),
        "Usage vor dem Archive wird verworfen"
    );
    assert!(
        prompt_tokens(&s) <= 50,
        "gespeicherte Kontextlänge nach Summary bleibt klein"
    );
    s.push_user_message("neue frage".into(), Some(Permission::Read), "m".into(), Instant::now());
    let a2 = s.open_assistant("gedanken neu".into(), "antwort neu".into(), Instant::now());
    s.chat.finalize_assistant(
        a2,
        Instant::now(),
        Usage {
            prompt_tokens: 500,
            completion_tokens: 20,
            total_tokens: 520,
            cached_tokens: None,
        },
        0,
        0,
        false,
    );
    assert_eq!(
        s.last_usage_current().map(|u| u.total_tokens),
        Some(520),
        "Turn nach der Compaction liefert wieder aktuellen Usage"
    );
}

#[test]
fn parse_run_line_extrahiert_ausdruck() {
    assert_eq!(
        parse_run_line("/run cargo build && git status").as_deref(),
        Some("cargo build && git status")
    );
    assert_eq!(parse_run_line("/run"), Some(String::new()));
    assert_eq!(parse_run_line("/runfoo"), None);
    assert_eq!(parse_run_line("normal"), None);
}

#[test]
fn alt_d_dupliziert_kanal_der_session() {
    let mut a = app();
    press(&mut a, alt_d());
    assert_eq!(a.sessions.len(), 1, "Session-Anzahl bleibt");
}

#[test]
fn slash_new_erzeugt_neue_session_wie_ctrl_n() {
    let mut a = app();
    assert_eq!(a.sessions.len(), 1);

    a.sessions[0].editor.set_text("/new");
    press(&mut a, KeyEvent::new(KeyCode::Enter, KeyModifiers::none()));

    assert_eq!(a.sessions.len(), 2, "/new erzeugt eine neue Session/Tab");
    assert_eq!(a.active, 1, "die neue Session ist aktiv");
    assert!(
        a.sessions[1].editor.text_string().is_empty(),
        "neue Session startet mit leerer Eingabe"
    );
    assert_eq!(
        a.sessions[0].phase,
        Phase::Idle,
        "alte Session bleibt unangetastet"
    );

    let mut b = app();
    press(&mut b, KeyEvent::new(KeyCode::Char('n'), KeyModifiers::ctrl()));
    assert_eq!(
        b.sessions.len(),
        2,
        "Ctrl+N erzeugt ebenfalls eine neue Session"
    );
    assert_eq!(b.active, 1);
}

#[test]
fn ctrl_c_leert_editor_statt_zu_beenden() {
    let mut a = app();
    a.sessions[0].editor.set_text("halb geschrieben");
    press(&mut a, ctrl_c());
    assert!(!a.quit, "nicht beenden bei nicht-leerem Editor");
    assert!(a.sessions[0].editor.is_empty(), "Editor geleert");
}

#[test]
fn http_headers_event_setzt_dialog_daten_der_session() {
    let mut a = app();
    let mut sent = Vec::new();
    sent.push(WorkerEvent::HttpHeaders(
        0,
        vec![
            ("content-type".into(), "text/event-stream".into()),
            ("date".into(), "Tue, 01 Jan 2025 00:00:00 GMT".into()),
        ],
    ));
    assert!(drain(&mut a, &mut sent));
    let h = a.sessions[0]
        .last_http_headers
        .as_ref()
        .expect("Header gespeichert");
    assert_eq!(h.len(), 2);
    assert_eq!(h[0].0, "content-type");
    assert_eq!(h[0].1, "text/event-stream");
}

#[test]
fn alt_h_oeffnet_http_header_dialog_und_esc_schliesst_ihn() {
    let mut a = app();
    assert!(!a.http_headers_dialog);
    press(&mut a, alt_h());
    assert!(a.http_headers_dialog, "Alt+H öffnet den Header-Dialog");
    press(&mut a, KeyEvent::new(KeyCode::Char('x'), KeyModifiers::none()));
    assert!(
        a.http_headers_dialog,
        "andere Tasten behalten den Dialog offen"
    );
    press(&mut a, KeyEvent::new(KeyCode::Esc, KeyModifiers::none()));
    assert!(!a.http_headers_dialog, "Esc schließt den Header-Dialog");
}

#[test]
fn ctrl_o_oeffnet_options_dialog_mit_cursor_0() {
    let mut a = app();
    assert!(a.options_dialog.is_none(), "kein Options-Dialog zu Beginn");
    press(&mut a, ctrl_o());
    let d = a
        .options_dialog
        .as_ref()
        .expect("Ctrl+O öffnet den Options-Dialog");
    assert_eq!(d.nav.cursor(), 0);
    assert_eq!(
        d.nav.len(),
        3,
        "drei Optionen: Version (Info), Maus, Modell"
    );
    press(&mut a, KeyEvent::new(KeyCode::Char('x'), KeyModifiers::none()));
    assert!(
        a.options_dialog.is_some(),
        "fremde Tasten lassen den Dialog offen"
    );
}

#[test]
fn options_dialog_navigation_bewegt_cursor_geklemmt() {
    let mut a = app();
    press(&mut a, ctrl_o());
    press(&mut a, KeyEvent::new(KeyCode::Down, KeyModifiers::none()));
    assert_eq!(a.options_dialog.as_ref().unwrap().nav.cursor(), 1);
    press(&mut a, KeyEvent::new(KeyCode::Char('j'), KeyModifiers::none()));
    assert_eq!(
        a.options_dialog.as_ref().unwrap().nav.cursor(),
        2,
        "am Ende klemmt 'j'"
    );
    press(&mut a, KeyEvent::new(KeyCode::Up, KeyModifiers::none()));
    assert_eq!(a.options_dialog.as_ref().unwrap().nav.cursor(), 1);
    press(&mut a, KeyEvent::new(KeyCode::Char('k'), KeyModifiers::none()));
    assert_eq!(
        a.options_dialog.as_ref().unwrap().nav.cursor(),
        0,
        "am Anfang klemmt 'k'"
    );
}

#[test]
fn options_dialog_esc_und_ctrl_o_schliessen() {
    let mut a = app();
    press(&mut a, ctrl_o());
    assert!(a.options_dialog.is_some());
    press(&mut a, ctrl_o());
    assert!(
        a.options_dialog.is_none(),
        "Ctrl+O schließt den Dialog wieder"
    );

    press(&mut a, ctrl_o());
    press(&mut a, KeyEvent::new(KeyCode::Esc, KeyModifiers::none()));
    assert!(a.options_dialog.is_none(), "Esc schließt den Dialog");
}

#[test]
fn options_dialog_enter_toggelt_maus_bei_cursor_1() {
    let mut a = app();
    assert!(!a.mouse_enabled);
    press(&mut a, ctrl_o());
    press(&mut a, KeyEvent::new(KeyCode::Down, KeyModifiers::none()));
    let before = a.mouse_enabled;
    press(&mut a, KeyEvent::new(KeyCode::Enter, KeyModifiers::none()));
    assert_ne!(
        a.mouse_enabled, before,
        "Enter auf Maus-Option toggelt das Reporting"
    );
    assert!(a.options_dialog.is_some(), "Dialog bleibt offen");
}

#[test]
fn options_dialog_enter_bei_cursor_2_aendert_nicht_die_maus() {
    let mut a = app();
    press(&mut a, ctrl_o());
    press(&mut a, KeyEvent::new(KeyCode::Down, KeyModifiers::none()));
    press(&mut a, KeyEvent::new(KeyCode::Down, KeyModifiers::none()));
    let before = a.mouse_enabled;
    press(&mut a, KeyEvent::new(KeyCode::Enter, KeyModifiers::none()));
    assert_eq!(
        a.mouse_enabled, before,
        "Enter auf der Modell-Option toggelt nichts"
    );
    assert!(a.options_dialog.is_some(), "Dialog bleibt offen");
}

#[test]
fn stop_confirm_default_abbrechen_und_quitt_per_enter() {
    let mut a = app();
    a.stop_confirm = Some(StopConfirm {
        entries: vec![],
        more: 0,
        nav: ListNav::new_at(2, 1),
    });
    press(&mut a, KeyEvent::new(KeyCode::Enter, KeyModifiers::none()));
    assert!(!a.quit, "Abbrechen-Option quittet nicht");
    assert!(a.stop_confirm.is_none(), "Dialog schließt nach Enter");

    let mut a = app();
    a.stop_confirm = Some(StopConfirm {
        entries: vec![],
        more: 0,
        nav: ListNav::new_at(2, 1),
    });
    press(&mut a, KeyEvent::new(KeyCode::Up, KeyModifiers::none()));
    press(&mut a, KeyEvent::new(KeyCode::Enter, KeyModifiers::none()));
    assert!(a.quit, "Cursor 0 + Enter beendet das Programm");
}

#[test]
fn pre_send_confirm_default_abbrechen_und_bewegung_klemmt() {
    let mut a = app();
    a.pre_send_confirm = Some(PreSendConfirm {
        session: 0,
        nav: ListNav::new_at(3, 2),
    });
    press(&mut a, KeyEvent::new(KeyCode::Down, KeyModifiers::none()));
    assert_eq!(a.pre_send_confirm.as_ref().unwrap().nav.cursor(), 2);
    press(&mut a, KeyEvent::new(KeyCode::Up, KeyModifiers::none()));
    assert_eq!(a.pre_send_confirm.as_ref().unwrap().nav.cursor(), 1);
    press(&mut a, KeyEvent::new(KeyCode::Up, KeyModifiers::none()));
    assert_eq!(a.pre_send_confirm.as_ref().unwrap().nav.cursor(), 0);
    press(&mut a, KeyEvent::new(KeyCode::Up, KeyModifiers::none()));
    assert_eq!(
        a.pre_send_confirm.as_ref().unwrap().nav.cursor(),
        0,
        "am Anfang klemmt hoch"
    );
    press(&mut a, KeyEvent::new(KeyCode::Esc, KeyModifiers::none()));
    assert!(a.pre_send_confirm.is_none());
}

#[test]
fn model_pick_list_default_wird_eingefuegt_wenn_fehlend() {
    let mut a = app();
    apply_refresh(&mut a, &[("test/fast", None), ("test/strong", None)]);
    let list = a.model_pick_list();
    assert_eq!(list.len(), 3, "(Standard) + 2 Modelle");
    assert!(
        matches!(list[0], ModelPick::Default),
        "erster Eintrag ist (Standard)"
    );
    let keys: Vec<_> = list
        .iter()
        .filter_map(|it| match it {
            ModelPick::Model { key, .. } => Some(key.as_str()),
            _ => None,
        })
        .collect();
    assert_eq!(keys, vec!["test/fast", "test/strong"]);
}

#[test]
fn model_pick_list_kein_default_wenn_vorhanden() {
    let mut a = app();
    apply_refresh(&mut a, &[("test/m", None), ("test/fast", None)]);
    let list = a.model_pick_list();
    assert_eq!(list.len(), 2, "kein (Standard), da Default vorhanden");
    assert!(
        matches!(&list[0], ModelPick::Model { key, .. } if key == "test/m"),
        "erster Eintrag ist das Default-Modell"
    );
}

#[test]
fn open_model_picker_positioniert_cursor_auf_aktuelles_modell() {
    let mut a = app();
    apply_refresh(&mut a, &[("test/fast", None), ("test/strong", None)]);
    a.open_model_picker();
    let p = a.model_picker.as_ref().expect("Picker offen");
    assert_eq!(
        p.items.nav.cursor(),
        0,
        "ohne Alias → Cursor auf (Standard)"
    );
    assert!(matches!(p.items.selected(), Some(ModelPick::Default)));
    a.sessions[0].model_alias = Some("test/fast".into());
    a.open_model_picker();
    let p = a.model_picker.as_ref().expect("Picker offen");
    assert!(
        matches!(p.items.selected(), Some(ModelPick::Model { key, .. }) if key == "test/fast"),
        "Cursor liegt auf der Konfiguration"
    );
}

#[test]
fn model_picker_select_setzt_alias_und_esc_verwirft() {
    let mut a = app();
    apply_refresh(&mut a, &[("test/fast", None), ("test/strong", None)]);
    a.open_model_picker();
    press(&mut a, KeyEvent::new(KeyCode::Down, KeyModifiers::none()));
    press(&mut a, KeyEvent::new(KeyCode::Enter, KeyModifiers::none()));
    assert!(a.model_picker.is_none(), "Picker schließt nach Enter");
    assert_eq!(
        a.sessions[0].model_alias.as_deref(),
        Some("test/fast"),
        "Alias gesetzt"
    );
    a.open_model_picker();
    press(&mut a, KeyEvent::new(KeyCode::Up, KeyModifiers::none()));
    press(&mut a, KeyEvent::new(KeyCode::Enter, KeyModifiers::none()));
    assert!(
        a.sessions[0].model_alias.is_none(),
        "Alias zurückgesetzt auf (Standard)"
    );
    a.open_model_picker();
    press(&mut a, KeyEvent::new(KeyCode::Down, KeyModifiers::none()));
    press(&mut a, KeyEvent::new(KeyCode::Esc, KeyModifiers::none()));
    assert!(a.model_picker.is_none());
    assert_eq!(a.sessions[0].model_alias.as_deref(), None);
}

#[test]
fn open_channel_picker_baut_eintraege() {
    let mut a = app();
    a.open_channel_picker();
    let p = a.channel_picker.as_ref().expect("Picker offen");
    assert_eq!(
        p.items.nav.len(),
        2,
        "NoChannel + NewChannel (keine Channels konfiguriert)"
    );
    assert!(
        matches!(p.items.selected(), Some(ChannelPick::NoChannel)),
        "Cursor startet bei (no channel)"
    );
    press(&mut a, KeyEvent::new(KeyCode::Down, KeyModifiers::none()));
    let p = a.channel_picker.as_ref().expect("Picker noch offen");
    assert!(matches!(p.items.selected(), Some(ChannelPick::NewChannel)));
}

#[test]
fn channel_select_verbindet_oder_trennt() {
    let mut a = app();
    a.open_channel_picker();
    press(&mut a, KeyEvent::new(KeyCode::Enter, KeyModifiers::none()));
    assert!(a.channel_picker.is_none());
    assert!(
        a.sessions[0].channel.is_none(),
        "Session hat keinen Kanal mehr"
    );
    a.open_channel_picker();
    press(&mut a, KeyEvent::new(KeyCode::Esc, KeyModifiers::none()));
    assert!(a.channel_picker.is_none());
}

#[test]
fn channel_picker_bewegung_klemmt() {
    let mut a = app();
    a.open_channel_picker();
    press(&mut a, KeyEvent::new(KeyCode::Up, KeyModifiers::none()));
    assert!(matches!(
        a.channel_picker.as_ref().unwrap().items.selected(),
        Some(ChannelPick::NoChannel)
    ));
    press(&mut a, KeyEvent::new(KeyCode::Down, KeyModifiers::none()));
    press(&mut a, KeyEvent::new(KeyCode::Down, KeyModifiers::none()));
    assert!(matches!(
        a.channel_picker.as_ref().unwrap().items.selected(),
        Some(ChannelPick::NewChannel)
    ));
}

#[test]
fn builder_host_spalte_wrapt_und_spaltenwechsel_klemmt() {
    let mut a = app();
    a.channel_builder = Some(builder_state());
    press(&mut a, KeyEvent::new(KeyCode::Down, KeyModifiers::none()));
    assert_eq!(
        a.channel_builder.as_ref().unwrap().host_paths.nav.cursor(),
        1
    );
    press(&mut a, KeyEvent::new(KeyCode::Down, KeyModifiers::none()));
    assert_eq!(
        a.channel_builder.as_ref().unwrap().host_paths.nav.cursor(),
        0
    );
    press(&mut a, KeyEvent::new(KeyCode::Up, KeyModifiers::none()));
    assert_eq!(
        a.channel_builder.as_ref().unwrap().host_paths.nav.cursor(),
        1
    );
    press(&mut a, KeyEvent::new(KeyCode::Left, KeyModifiers::none()));
    assert_eq!(a.channel_builder.as_ref().unwrap().col, 0);
    press(&mut a, KeyEvent::new(KeyCode::Left, KeyModifiers::none()));
    assert_eq!(
        a.channel_builder.as_ref().unwrap().col,
        0,
        "links klemmt bei 0"
    );
    press(&mut a, KeyEvent::new(KeyCode::Right, KeyModifiers::none()));
    assert_eq!(a.channel_builder.as_ref().unwrap().col, 1);
    press(&mut a, KeyEvent::new(KeyCode::Right, KeyModifiers::none()));
    assert_eq!(
        a.channel_builder.as_ref().unwrap().col,
        1,
        "bei Nicht-Repo klemmt rechts bei 1"
    );
}

#[test]
fn builder_b_branch_field_nur_in_worktree_spalte_und_esc_schliesst() {
    let mut a = app();
    a.channel_builder = Some(builder_state_with_repo());
    a.channel_builder.as_mut().unwrap().col = 1;
    press(&mut a, KeyEvent::new(KeyCode::Char('b'), KeyModifiers::none()));
    assert!(
        a.channel_builder.as_ref().unwrap().edit.is_none(),
        "b in der Host-Spalte darf kein Feld öffnen"
    );
    a.channel_builder.as_mut().unwrap().col = 2;
    press(&mut a, KeyEvent::new(KeyCode::Char('b'), KeyModifiers::none()));
    match &a.channel_builder.as_ref().unwrap().edit {
        Some(BuilderEdit::Branch(ed)) => assert_eq!(ed.text_string(), "feat"),
        other => panic!("erwartet Branch-Editor, war {:?}", other.is_some()),
    }
    press(&mut a, KeyEvent::new(KeyCode::Esc, KeyModifiers::none()));
    assert!(a.channel_builder.as_ref().unwrap().edit.is_none());
}

#[test]
fn builder_branch_enter_leer_zeigt_fehler_und_haelt_offen() {
    let mut a = app();
    a.channel_builder = Some(builder_state_with_repo());
    press(&mut a, KeyEvent::new(KeyCode::Char('b'), KeyModifiers::none()));
    if let Some(BuilderEdit::Branch(ed)) = &mut a.channel_builder.as_mut().unwrap().edit {
        ed.set_text("");
    }
    press(&mut a, KeyEvent::new(KeyCode::Enter, KeyModifiers::none()));
    let b = a.channel_builder.as_ref().unwrap();
    assert!(
        matches!(b.edit, Some(BuilderEdit::Branch(_))),
        "Feld bleibt bei Fehler offen"
    );
    assert!(
        b.edit_error
            .as_deref()
            .is_some_and(|e| e.contains("branch")),
        "Fehlermeldung gesetzt, war {:?}",
        b.edit_error
    );
    press(&mut a, KeyEvent::new(KeyCode::Esc, KeyModifiers::none()));
    assert!(a.channel_builder.as_ref().unwrap().edit.is_none());
}

#[test]
fn channel_close_active_confirm_bewegt_und_esc_oeffnet_picker_wieder() {
    let mut a = app();
    a.channel_close = Some(ChannelClose {
        name: "test-channel".into(),
        kind: CloseKind::Picker,
        phase: ChannelClosePhase::ActiveConfirm {
            nav: ListNav::new_at(2, 1),
        },
    });
    press(&mut a, KeyEvent::new(KeyCode::Down, KeyModifiers::none()));
    assert_eq!(active_confirm_cursor(&a), 1);
    press(&mut a, KeyEvent::new(KeyCode::Up, KeyModifiers::none()));
    assert_eq!(active_confirm_cursor(&a), 0);
    press(&mut a, KeyEvent::new(KeyCode::Up, KeyModifiers::none()));
    assert_eq!(active_confirm_cursor(&a), 0, "am Anfang klemmt hoch");
    press(&mut a, KeyEvent::new(KeyCode::Esc, KeyModifiers::none()));
    assert!(a.channel_close.is_none());
    assert!(
        a.channel_picker.is_some(),
        "Picker-Ursprung öffnet den Picker wieder"
    );
}

#[test]
fn should_compact_verwendet_nach_compaction_nicht_altes_usage() {
    let cfg = base_config();
    let threshold = 160_000;
    let mut s = Session::new(0);
    let usage = |p: u64, c: u64| Usage {
        prompt_tokens: p,
        completion_tokens: c,
        total_tokens: p + c,
        cached_tokens: None,
    };
    s.push_user_message("frage eins".into(), Some(Permission::Read), "m".into(), Instant::now());
    let a1 = s.open_assistant("gedanken eins".into(), "antwort eins".into(), Instant::now());
    s.chat
        .finalize_assistant(a1, Instant::now(), usage(90_000, 10_000), 0, 0, false);
    s.push_user_message("frage zwei".into(), Some(Permission::Read), "m".into(), Instant::now());
    let a2 = s.open_assistant("gedanken zwei".into(), "antwort zwei".into(), Instant::now());
    s.chat
        .finalize_assistant(a2, Instant::now(), usage(150_000, 20_000), 0, 0, false);

    assert!(
        should_compact(&s, cfg.compact_keep_turns, threshold),
        "letzter Usage über der Schwelle → Kompaktierung"
    );

    s.apply_compaction("zusammenfassung".into(), 1_000, 0, Instant::now());

    let live = prompt_tokens(&s);
    assert!(
        live < 160_000,
        "aktueller Kontext nach Kompaktierung liegt unter der Schwelle (war {live})"
    );
    assert!(
        !should_compact(&s, cfg.compact_keep_turns, threshold),
        "Doppelkompaktierung: nach dem Einbau der Summary gilt der ALTE Usage nicht mehr"
    );
}

#[test]
fn exec_confirm_enter_sendet_ja_nein_ueber_reply() {
    let mut a = app();
    a.exec_confirm = Some(ExecConfirm {
        label: "run cargo test".into(),
        command: "cargo test".into(),
        nav: ListNav::new(2),
        reply: 7,
    });
    let task = press(&mut a, KeyEvent::new(KeyCode::Enter, KeyModifiers::none()));
    assert!(
        matches!(task, Task::Reply { to: 7, consent: true }),
        "Cursor 0 bestätigt die Ausführung"
    );
    assert!(
        a.exec_confirm.is_none(),
        "Dialog schließt nach der Entscheidung"
    );
}

#[test]
fn exec_confirm_navigation_und_esc_lehnen_ab() {
    let mut a = app();
    a.exec_confirm = Some(ExecConfirm {
        label: "run cargo test".into(),
        command: "cargo test".into(),
        nav: ListNav::new(2),
        reply: 1,
    });
    press(&mut a, KeyEvent::new(KeyCode::Down, KeyModifiers::none()));
    assert_eq!(a.exec_confirm.as_ref().unwrap().nav.cursor(), 1);
    let task = press(&mut a, KeyEvent::new(KeyCode::Enter, KeyModifiers::none()));
    assert!(
        matches!(task, Task::Reply { to: 1, consent: false }),
        "Option „No, decline“ lehnt ab"
    );

    let mut a = app();
    a.exec_confirm = Some(ExecConfirm {
        label: "x".into(),
        command: "x".into(),
        nav: ListNav::new(2),
        reply: 2,
    });
    let task = press(&mut a, KeyEvent::new(KeyCode::Esc, KeyModifiers::none()));
    assert!(
        matches!(task, Task::Reply { to: 2, consent: false }),
        "Esc lehnt ab"
    );
}

#[test]
fn default_model_alias_vorrang_in_resolve_und_display() {
    let mut provider = Table::new();
    provider.insert(
        "prov".to_string(),
        ProviderConfig {
            base_url: "http://127.0.0.1:1".into(),
            api_key: Some("x".into()),
            user_agent: None,
        },
    );
    let mut models = OrderedTable::new();
    models.insert(
        "mod".to_string(),
        ModelConfig::Full { id: "prov/bla".into(), context_window: Some(4096) },
    );
    models.insert(
        "other".to_string(),
        ModelConfig::Full { id: "prov/mod".into(), context_window: None },
    );
    let cfg = Config { model: "prov/mod".into(), provider, models, ..Config::default() };
    let a = App::new(
        cfg,
        ChannelRegistry::new_with_warnings(&base_config(), &Vec::new()).0,
    );

    let ep = a.resolve_endpoint(0).expect("Default auflösbar");
    assert_eq!(ep.model, "prov/mod", "Anzeige-Form provider/alias");
    assert_eq!(ep.api_model, "bla", "Servername aus dem Alias");
    assert_eq!(ep.context_window, 4096, "context_window aus dem Alias-Eintrag");

    assert_eq!(a.display_model(0), "prov/mod");

    let list = a.model_pick_list();
    assert!(
        list.iter()
            .any(|p| matches!(p, ModelPick::Model { key, .. } if key == "prov/mod")),
        "Alias-Eintrag im Picker gelistet"
    );
    assert!(
        !list.iter().any(|p| matches!(p, ModelPick::Default)),
        "Default-Modell ist selbst gelistet → kein (Standard)-Eintrag"
    );
}

#[test]
fn builder_pfad_existiert_nicht_oeffnet_bestaetigungsdialog() {
    let mut a = app();
    a.channel_builder = Some(builder_state());
    press(&mut a, KeyEvent::new(KeyCode::Char('a'), KeyModifiers::none()));
    let missing = "/tmp/aidev-nx/neu";
    if let Some(BuilderEdit::HostPath(ed)) = &mut a.channel_builder.as_mut().unwrap().edit {
        ed.set_text(missing);
    }
    let task = press(&mut a, KeyEvent::new(KeyCode::Enter, KeyModifiers::none()));
    let asked = match task {
        Task::CheckPath(path) => path,
        other => panic!("erwartet Pfadprüfung, war {other:?}"),
    };
    a.path_checked(asked, false);
    assert!(
        a.path_confirm.is_some(),
        "nicht existierender Pfad muss den Bestätigungsdialog öffnen"
    );
    assert_eq!(
        a.path_confirm.as_ref().unwrap().path,
        missing,
        "Dialog trägt den eingegebenen Pfad"
    );
    assert!(
        a.channel_builder.as_ref().unwrap().edit.is_none(),
        "Eingabefeld ist nach Enter geschlossen"
    );
}

#[test]
fn builder_pfad_confirm_esc_kehrt_zur_eingabe_zurueck() {
    let mut a = app();
    a.channel_builder = Some(builder_state());
    let missing = "/tmp/aidev-pec/neu";
    a.path_confirm = Some(PathConfirm { path: missing.to_string() });
    press(&mut a, KeyEvent::new(KeyCode::Esc, KeyModifiers::none()));
    assert!(a.path_confirm.is_none(), "Dialog geschlossen");
    let b = a.channel_builder.as_ref().unwrap();
    match &b.edit {
        Some(BuilderEdit::HostPath(ed)) => {
            assert_eq!(ed.text_string(), missing, "Eingabe behält den Pfad")
        }
        other => panic!("erwartet Pfad-Editor, war offen={}", other.is_some()),
    }
    assert!(b.edit_error.is_none(), "Abbruch ohne Fehlermeldung");
}

#[test]
fn builder_pfad_confirm_enter_legt_an_und_registriert() {
    let mut a = app();
    a.channel_builder = Some(builder_state());
    let missing = "/tmp/aidev-mkdir/a/b/c";
    a.path_confirm = Some(PathConfirm { path: missing.to_string() });
    let task = press(&mut a, KeyEvent::new(KeyCode::Enter, KeyModifiers::none()));
    assert!(a.path_confirm.is_none(), "Dialog geschlossen");
    assert!(
        matches!(&task, Task::MakeDir(path) if path == missing),
        "Verzeichnis per mkdir -p angelegt"
    );
    let task = a.dir_made(missing, None);
    assert!(matches!(&task, Task::LoadHost(Some(path)) if path == missing));
    let b = a.channel_builder.as_ref().unwrap();
    assert!(
        b.host_paths.items.iter().any(|hp| hp.path == missing),
        "Pfad in der Host-Liste registriert"
    );
    assert_eq!(b.host_paths.nav.cursor(), b.host_paths.items.len() - 1);
}

#[test]
fn reload_liefert_neue_config_und_baut_registries_um() {
    let mut a = app();
    assert_eq!(a.model_registry.len(), 0);
    assert!(a.channels.names().is_empty());

    let mut models = OrderedTable::new();
    models.insert("fast".to_string(), ModelConfig::Plain("test/neu".into()));
    let mut channels = Table::new();
    channels.insert(
        "testchannel".to_string(),
        ChannelConfig {
            kind: "local".into(),
            image: None,
            container: None,
            run_container: None,
            workdir: "/app".into(),
            host_root: Some("/tmp".into()),
            home: None,
        },
    );
    let fresh = Config {
        model: "test/neu".into(),
        default_channel: Some("testchannel".into()),
        channels,
        models,
        theme: "light".into(),
        mouse: true,
        ..base_config()
    };
    let registry = ChannelRegistry::new(&fresh, &vec![Ok((1000, 1000))]);

    let (theme, mouse) = a.apply_reloaded_config(fresh, registry, &Vec::new());

    assert!(matches!(&theme, Task::Theme(t) if t == "light"));
    assert!(matches!(mouse, Task::Mouse(true)));
    assert_eq!(a.config.model, "test/neu");
    assert_eq!(a.config.theme, "light");
    assert!(a.mouse_enabled, "Maus aus neuer Config übernommen");
    assert_eq!(
        a.model_registry.get("test/fast").map(|e| e.display_key()),
        Some("test/fast".to_string()),
        "Modell-Registry neu aufgebaut"
    );
    assert!(
        a.channels.get("testchannel").is_some(),
        "Kanal neu registriert"
    );
    assert_eq!(a.channels.default_channel_name(), Some("testchannel"));
    assert_eq!(
        a.sessions[0].error.as_deref(),
        Some("Config neu geladen."),
        "Statusmeldung gesetzt"
    );
}
