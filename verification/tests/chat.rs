//! The history of a conversation and what is sent of it.

use aidev::chat::wire::api_messages;
use aidev::chat::{Chat, EventKind, ToolKind};
use aidev::llm::{CompletionParts, Usage, WireMessage, WireToolCall};
use aidev::perm::Permission;
use std::time::Instant;

#[test]
fn api_messages_projiziert_user_und_assistant() {
    let mut chat = Chat::new();
    chat.push_user_prompt("hallo".into(), Permission::Read, "m".into(), 0, Instant::now());
    let aid = chat.open_assistant(None, String::new(), "hi".into(), Instant::now());
    chat.finalize_assistant(aid, Instant::now(), zero(), 0, 0, false);

    assert_eq!(
        api_messages(&chat),
        vec![
            wire("user", Some("hallo".into()), None, None, None),
            wire("assistant", Some("hi".into()), None, None, None),
        ]
    );
}

#[test]
fn kompaktierung_behaelt_altes_an_der_boundary_und_projiziert_ab_summary() {
    let mut chat = Chat::new();
    let a = chat.push_user_prompt("a".into(), Permission::Read, "m".into(), 0, Instant::now());
    let b = chat.push_user_prompt("b".into(), Permission::Read, "m".into(), 0, Instant::now());
    let c = chat.push_user_prompt("c".into(), Permission::Read, "m".into(), 0, Instant::now());
    let arch = chat.compact(
        2,
        "[Compressed history - 2 earlier messages]\n\nalt".into(),
        42,
    );
    assert_eq!(arch, 2);
    assert_eq!(chat.order().len(), 4);
    assert_eq!(chat.order()[0], a);
    assert_eq!(chat.order()[1], b);
    assert_eq!(chat.order()[3], c);
    let sum_id = chat.order()[2];
    match &chat.event(sum_id).map(|e| &e.kind) {
        Some(EventKind::Archive {
            num_tokens, ..
        }) => assert_eq!(*num_tokens, 42),
        other => panic!("unerwartet: {other:?}"),
    }
    assert_eq!(chat.event(sum_id).and_then(|e| e.previous_id), Some(b));
    assert_eq!(chat.event(c).and_then(|e| e.previous_id), Some(sum_id));
    let wire = api_messages(&chat);
    assert_eq!(wire.len(), 2, "nur Summary + letzter User-Prompt");
    assert_eq!(wire[0].role, "user");
    assert_eq!(
        wire[0].content.as_deref(),
        Some("[Compressed history - 2 earlier messages]\n\nalt")
    );
    assert_eq!(wire[1].content.as_deref(), Some("c"));
}

#[test]
fn derive_benutzt_gemessene_completion_parts_statt_proportional() {
    let mut chat = Chat::new();
    let uid = chat.push_user_prompt(
        "frage".into(),
        Permission::Read,
        "m".into(),
        0,
        Instant::now(),
    );
    let aid = chat.open_assistant(Some(uid), "gedanke".into(), "antwort".into(), Instant::now());
    let tid = chat.open_tool(
        Some(aid),
        "call_1".into(),
        "read".into(),
        r#"{"path":"x"}"#.into(),
        String::new(),
        ToolKind::Read {
            path: "x".into(),
            range: String::new(),
        },
        Instant::now(),
    );
    chat.set_tool_final(
        tid,
        "inhalt".into(),
        ToolKind::Read {
            path: "x".into(),
            range: String::new(),
        },
        0,
        0,
        Instant::now(),
    );
    chat.finalize_assistant(
        aid,
        Instant::now(),
        Usage {
            prompt_tokens: 100,
            completion_tokens: 60,
            total_tokens: 160,
            cached_tokens: None,
        },
        0,
        0,
        false,
    );
    chat.set_completion_parts(
        aid,
        Some(CompletionParts {
            reasoning: 30,
            content: 10,
            tool_calls: vec![20],
        }),
    );

    chat.derive_last_turn_tokens();

    let assistant = &chat.event(aid).expect("Runde").kind;
    match assistant {
        EventKind::Assistant {
            num_tokens_reasoning,
            num_tokens_text,
            ..
        } => {
            assert_eq!(*num_tokens_reasoning, 30);
            assert_eq!(*num_tokens_text, 10);
        }
        other => panic!("unerwartet: {other:?}"),
    }
    let tool = &chat.event(tid).expect("Tool").kind;
    match tool {
        EventKind::Tool {
            num_tokens_input, ..
        } => assert_eq!(*num_tokens_input, 20),
        other => panic!("unerwartet: {other:?}"),
    }
}

#[test]
fn tool_output_ist_prompt_differenz_zur_total_der_vorrunde() {
    let mut chat = Chat::new();
    let uid = chat.push_user_prompt(
        "p".into(),
        Permission::Read,
        "m".into(),
        0,
        Instant::now(),
    );
    let a = chat.open_assistant(Some(uid), String::new(), String::new(), Instant::now());
    let t = chat.open_tool(
        Some(a),
        "call_1".into(),
        "read".into(),
        r#"{"path":"x"}"#.into(),
        String::new(),
        ToolKind::Read {
            path: "x".into(),
            range: String::new(),
        },
        Instant::now(),
    );
    chat.set_tool_final(
        t,
        "ergebnis".into(),
        ToolKind::Read {
            path: "x".into(),
            range: String::new(),
        },
        0,
        0,
        Instant::now(),
    );
    chat.finalize_assistant(
        a,
        Instant::now(),
        Usage {
            prompt_tokens: 100,
            completion_tokens: 60,
            total_tokens: 160,
            cached_tokens: None,
        },
        0,
        0,
        false,
    );
    let b = chat.open_assistant(Some(uid), String::new(), "fertig".into(), Instant::now());
    chat.finalize_assistant(
        b,
        Instant::now(),
        Usage {
            prompt_tokens: 400,
            completion_tokens: 10,
            total_tokens: 410,
            cached_tokens: None,
        },
        0,
        0,
        false,
    );

    chat.derive_last_turn_tokens();

    let tool = &chat.event(t).expect("Tool").kind;
    match tool {
        EventKind::Tool {
            num_tokens_output, ..
        } => assert_eq!(*num_tokens_output, 240),
        other => panic!("unerwartet: {other:?}"),
    }
}

#[test]
fn tool_output_ohne_usage_der_vorrunde_fallt_auf_schaetzung_zurueck() {
    let mut chat = Chat::new();
    let uid = chat.push_user_prompt(
        "p".into(),
        Permission::Read,
        "m".into(),
        0,
        Instant::now(),
    );
    let a = chat.open_assistant(Some(uid), String::new(), String::new(), Instant::now());
    let t = chat.open_tool(
        Some(a),
        "call_1".into(),
        "read".into(),
        r#"{"path":"x"}"#.into(),
        String::new(),
        ToolKind::Read {
            path: "x".into(),
            range: String::new(),
        },
        Instant::now(),
    );
    chat.set_tool_final(
        t,
        "ergebnis".into(),
        ToolKind::Read {
            path: "x".into(),
            range: String::new(),
        },
        0,
        0,
        Instant::now(),
    );
    chat.finalize_assistant(a, Instant::now(), zero(), 0, 0, false);
    let b = chat.open_assistant(Some(uid), String::new(), "fertig".into(), Instant::now());
    chat.finalize_assistant(
        b,
        Instant::now(),
        Usage {
            prompt_tokens: 400,
            completion_tokens: 10,
            total_tokens: 410,
            cached_tokens: None,
        },
        0,
        0,
        false,
    );

    chat.derive_last_turn_tokens();

    let tool = &chat.event(t).expect("Tool").kind;
    match tool {
        EventKind::Tool {
            num_tokens_output, ..
        } => assert_eq!(*num_tokens_output, 3),
        other => panic!("unerwartet: {other:?}"),
    }
}

fn wire(
    role: &str,
    content: Option<String>,
    reasoning_content: Option<String>,
    tool_calls: Option<Vec<WireToolCall>>,
    tool_call_id: Option<String>,
) -> WireMessage {
    WireMessage {
        role: role.into(),
        content,
        reasoning_content,
        tool_calls,
        tool_call_id,
    }
}

fn zero() -> Usage {
    Usage {
        prompt_tokens: 0,
        completion_tokens: 0,
        total_tokens: 0,
        cached_tokens: None,
    }
}
