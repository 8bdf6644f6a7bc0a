//! What holds of texts, tables, levels, the configuration, the history and the input, on chosen
//! values.

use aidev::chat::shares::divide;
use aidev::chat::wire::api_messages;
use aidev::chat::{Chat, EventKind, ToolKind};
use aidev::config::{
    candidate_paths, effective_user_agent, is_opencode_base, normalize_theme, validate_model_id,
    Config, ModelConfig, ProviderConfig,
};
use aidev::editor::Editor;
use aidev::json::{argument_of, models_url, offered_models, shown_of, usable_key};
use aidev::llm::{estimate_tokens, CompletionParts, Usage};
use aidev::perm::Permission;
use aidev::channel::ChannelKind;
use aidev::table::{OrderedTable, Table};
use aidev::text::{
    decimal_text, decimal_wide, holds_text, join_texts, lines_of, lowercase, parse_u32,
    parse_usize, sort_names, sort_unique, split_once_text, split_text, strip_prefix, strip_suffix,
    trim,
};
use std::time::Instant;

fn usage(p: u64, c: u64) -> Usage {
    Usage { prompt_tokens: p, completion_tokens: c, total_tokens: p + c, cached_tokens: None }
}

fn read_kind() -> ToolKind {
    ToolKind::Read { path: "x".into(), range: String::new() }
}

#[test]
fn texts_are_taken_apart_as_they_are_put_together() {
    assert_eq!(trim("  a b\t\n"), "a b");
    assert_eq!(split_text("a/b//c", '/'), vec!["a", "b", "", "c"]);
    assert_eq!(split_once_text("a/b/c", '/'), Some(("a".into(), "b/c".into())));
    assert_eq!(split_once_text("abc", '/'), None);
    assert_eq!(lines_of("a\r\nb\n\nc"), vec!["a", "b", "", "c"]);
    assert_eq!(join_texts(&vec!["a".into(), "b".into()], ", "), "a, b");
    assert!(holds_text("abcd", "bc"));
    assert!(!holds_text("abcd", "cb"));
    assert_eq!(strip_prefix("/run x", "/run").as_deref(), Some(" x"));
    assert_eq!(strip_suffix("x.rs", ".rs").as_deref(), Some("x"));
    assert_eq!(lowercase("LiGHT"), "light");
}

#[test]
fn numbers_are_written_and_read() {
    assert_eq!(decimal_text(0), "0");
    assert_eq!(decimal_text(u64::MAX), "18446744073709551615");
    assert_eq!(decimal_wide(1 << 64), "18446744073709551616");
    assert_eq!(parse_u32("4294967295"), Some(u32::MAX));
    assert_eq!(parse_u32("4294967296"), None);
    assert_eq!(parse_u32("+7"), Some(7));
    assert_eq!(parse_u32(""), None);
    assert_eq!(parse_usize("12x"), None);
}

#[test]
fn names_in_order_are_none_added_and_none_lost() {
    let v: Vec<String> = ["b", "a", "c", "a"].iter().map(|s| s.to_string()).collect();
    assert_eq!(sort_names(&v), vec!["a", "a", "b", "c"]);
    assert_eq!(sort_unique(&v), vec!["a", "b", "c"]);
}

#[test]
fn levels_build_on_each_other() {
    assert!(Permission::Read.allows("read"));
    assert!(!Permission::Read.allows("write"));
    assert!(Permission::Write.allows("read") && Permission::Write.allows("write"));
    assert!(!Permission::Write.allows("run"));
    assert!(Permission::Execute.allows("run") && Permission::Execute.allows("write"));
    let p = Permission::Write;
    assert_eq!(p.next().next().next(), p);
    assert_eq!(Permission::default_for(ChannelKind::Local), Permission::Read);
    assert_eq!(Permission::default_for(ChannelKind::PodmanRun), Permission::Execute);
}

#[test]
fn what_was_put_into_a_table_is_found() {
    let mut t: Table<u64> = Table::new();
    t.insert("a".into(), 1);
    t.insert("b".into(), 2);
    t.insert("a".into(), 3);
    assert_eq!(t.len(), 2);
    assert_eq!(t.get("a"), Some(&3));
    assert_eq!(t.get("b"), Some(&2));
    assert_eq!(t.remove("a"), Some(3));
    assert_eq!(t.remove("a"), None);
    assert_eq!(t.get("a"), None);
    assert_eq!(t.get("b"), Some(&2));
    assert!(!t.is_empty());
}

#[test]
fn an_ordered_table_keeps_its_order() {
    let mut t: OrderedTable<u64> = OrderedTable::new();
    t.insert("z".into(), 1);
    t.insert("a".into(), 2);
    t.insert("z".into(), 3);
    assert_eq!(t.names(), vec!["z", "a"], "an entry that is put in again keeps its place");
    assert_eq!(t.get("z"), Some(&3));
    assert_eq!(t.position("a"), Some(1));
    assert_eq!(t.position("y"), None);
    assert_eq!(t.key(0), "z");
    assert_eq!(t.value(1), &2);
    t.set_value(1, 9);
    assert_eq!(t.get("a"), Some(&9));
}

#[test]
fn a_named_model_resolves_as_its_identity() {
    let cfg = Config::default();
    let by_name = cfg.resolve(Some("pig-pickle")).unwrap();
    let by_id = cfg.resolve_id("zen/big-pickle").unwrap();
    assert_eq!(by_name.model, by_id.model);
    assert_eq!(by_name.base_url, by_id.base_url);
    assert_eq!(cfg.resolve(Some("x")).unwrap_err().contains('x'), true);
    assert!(cfg.resolve_id("zen").is_err());
    assert!(cfg.resolve_id("nobody/model").is_err());
    assert_eq!(cfg.context_window_for(Some("pig-pickle")), 200_000);
}

#[test]
fn addresses_end_without_a_slash() {
    let mut cfg = Config::default();
    cfg.provider.insert(
        "p".to_string(),
        ProviderConfig { base_url: "http://h/v1///".into(), api_key: None, user_agent: None },
    );
    assert_eq!(cfg.resolve_id("p/m").unwrap().base_url, "http://h/v1");
    assert!(is_opencode_base("https://opencode.ai/zen/v1"));
    assert!(!is_opencode_base("https://example.com/v1"));
}

#[test]
fn filling_in_twice_changes_nothing() {
    let empty = Config {
        model: "  ".into(),
        max_tool_rounds: 0,
        timeout_secs: 0,
        context_window: 0,
        compact_keep_turns: 0,
        compact_summary_tokens: 0,
        theme: "neon".into(),
        ..Config::default()
    };
    let once = empty.with_defaults();
    assert_eq!(once.model, "zen/big-pickle");
    assert_eq!((once.max_tool_rounds, once.timeout_secs), (100, 500));
    assert_eq!(once.theme, "auto");
    let (model, rounds) = (once.model.clone(), once.max_tool_rounds);
    let twice = once.with_defaults();
    assert_eq!((twice.model, twice.max_tool_rounds), (model, rounds));
    assert_eq!(normalize_theme("LIGHT"), "light");
}

#[test]
fn identities_have_one_slash() {
    assert_eq!(validate_model_id("a/b").as_deref(), Ok("a/b"));
    for id in ["ab", "a/b/c", "/b", "a/", ""] {
        assert!(validate_model_id(id).is_err(), "{id}");
    }
}

#[test]
fn files_are_looked_for_in_their_order() {
    assert_eq!(
        candidate_paths(Some("/xdg"), Some("/home/u")),
        vec!["/xdg/aidev/config.toml", "/home/u/.config/aidev/config.toml"]
    );
    assert!(candidate_paths(None, None).is_empty());
    let blank = ProviderConfig { base_url: "x".into(), api_key: None, user_agent: Some(" ".into()) };
    assert!(effective_user_agent(&blank, "p").starts_with("aidev/"));
}

#[test]
fn shares_sum_to_the_amount() {
    let shares = divide(10, &vec![1, 1, 1]);
    assert_eq!(shares.iter().sum::<u64>(), 10);
    assert_eq!(divide(7, &vec![0, 5]), vec![0, 7]);
    assert_eq!(estimate_tokens(""), 1);
    assert_eq!(estimate_tokens("ergebnis"), 3);
}

#[test]
fn deriving_twice_changes_nothing() {
    let now = Instant::now();
    let mut chat = Chat::new();
    chat.derive_last_turn_tokens();
    assert_eq!(chat.order().len(), 0, "without a prompt nothing is derived");
    let uid = chat.push_user_prompt("p".into(), Permission::Read, "m".into(), 0, now);
    let a = chat.open_assistant(Some(uid), "denken".into(), "reden".into(), now);
    chat.finalize_assistant(a, now, usage(100, 60), 0, 0, false);
    let count = |chat: &Chat| match &chat.event(a).unwrap().kind {
        EventKind::Assistant { num_tokens_reasoning, num_tokens_text, .. } => {
            (*num_tokens_reasoning, *num_tokens_text)
        }
        _ => unreachable!(),
    };
    chat.derive_last_turn_tokens();
    let once = count(&chat);
    assert_eq!(once.0 + once.1, 60, "the completion is divided completely");
    chat.derive_last_turn_tokens();
    assert_eq!(count(&chat), once);
}

#[test]
fn every_call_is_answered() {
    let now = Instant::now();
    let mut chat = Chat::new();
    let uid = chat.push_user_prompt("p".into(), Permission::Read, "m".into(), 0, now);
    let a = chat.open_assistant(Some(uid), String::new(), String::new(), now);
    for call in ["c1", "c2"] {
        let t = chat.open_tool(
            Some(a),
            call.into(),
            "read".into(),
            "{}".into(),
            String::new(),
            read_kind(),
            now,
        );
        chat.set_tool_final(t, "out".into(), read_kind(), 0, 0, now);
    }
    chat.finalize_assistant(a, now, usage(0, 0), 0, 0, false);
    let wire = api_messages(&chat);
    let calls = wire[1].tool_calls.as_ref().unwrap();
    assert_eq!(calls.len(), 2);
    for (k, call) in calls.iter().enumerate() {
        assert_eq!(wire[k + 2].role, "tool");
        assert_eq!(wire[k + 2].tool_call_id.as_ref(), Some(&call.id));
    }
}

#[test]
fn a_summary_deletes_nothing_and_hides_what_it_covers() {
    let now = Instant::now();
    let mut chat = Chat::new();
    let a = chat.push_user_prompt("alt".into(), Permission::Read, "m".into(), 0, now);
    let b = chat.push_user_prompt("neu".into(), Permission::Read, "m".into(), 0, now);
    assert_eq!(chat.compact_between(1, " kurz ".into(), 5, now, now), 1);
    assert!(chat.event(a).is_some() && chat.event(b).is_some());
    assert_eq!(chat.order().len(), 3);
    let sent: Vec<String> = api_messages(&chat).into_iter().filter_map(|m| m.content).collect();
    assert_eq!(sent, vec!["kurz", "neu"]);
    chat.compact(3, "alles".into(), 5);
    let sent: Vec<String> = api_messages(&chat).into_iter().filter_map(|m| m.content).collect();
    assert_eq!(sent, vec!["alles"], "only the last summary counts");
}

#[test]
fn measured_parts_go_before_estimates() {
    assert!(CompletionParts { reasoning: 1, content: 0, tool_calls: Vec::new() }.measured());
    assert!(!CompletionParts::default().measured());
}

#[test]
fn erasing_undoes_typing() {
    let mut e = Editor::new(10);
    e.set_text("ab");
    e.move_home(false);
    e.insert_char('x');
    assert_eq!(e.text_string(), "xab");
    e.backspace();
    assert_eq!(e.text_string(), "ab");
    e.delete_at_cursor();
    assert_eq!(e.text_string(), "b");
    assert!(!e.is_empty());
    e.clear();
    assert!(e.is_empty());
}

#[test]
fn pasting_replaces_the_selection() {
    let mut e = Editor::new(10);
    e.set_text("Foo Bar");
    e.move_home(false);
    e.move_word(1, true);
    assert!(e.selected_range().is_some());
    e.insert_text("x");
    assert!(e.selected_range().is_none());
    assert!(e.text_string().starts_with('x'));
    assert!(e.text_string().ends_with("Bar"));
}

#[test]
fn the_cursor_stays_in_the_text() {
    let mut e = Editor::new(4);
    e.set_text("abcdefgh");
    assert!(e.cursor_is_last_row());
    e.move_cursor(-100, false);
    assert!(e.cursor_is_first_row());
    e.move_line(1, false);
    assert!(!e.cursor_is_first_row());
    e.move_line(-1, false);
    assert!(e.cursor_is_first_row());
    e.move_end(false);
    e.move_cursor(5, false);
    e.insert_char('!');
    assert_eq!(e.text_string(), "abcdefgh!");
}

#[test]
fn arguments_are_read_from_json() {
    let json = "{\"path\": \" src/a.rs \", \"n\": 3}";
    assert_eq!(argument_of(json, "path"), "src/a.rs");
    assert_eq!(argument_of(json, "n"), "", "a number is no text");
    assert_eq!(argument_of(json, "other"), "");
    assert_eq!(argument_of("no json", "path"), "");
}

#[test]
fn models_are_asked_for_with_a_key_that_is_there() {
    assert_eq!(models_url("https://example.com/v1"), "https://example.com/v1/models");
    assert_eq!(usable_key(Some("geheim")), Some("geheim"));
    assert_eq!(usable_key(Some("")), None);
    assert_eq!(usable_key(None), None);
}

#[test]
fn each_event_names_the_one_before_it() {
    let t = Instant::now();
    let mut chat = Chat::new();
    for i in 0..3 {
        chat.push_user_prompt(format!("frage {i}"), Permission::Read, "m".into(), 0, t);
        let a = chat.open_assistant(None, String::new(), String::new(), t);
        let tool = chat.open_tool(
            Some(a),
            "call".into(),
            "run".into(),
            "{}".into(),
            String::new(),
            read_kind(),
            t,
        );
        chat.finish_tool(tool, t);
        chat.compact(2 * i, "kurz".into(), 5);
        let order = chat.order();
        let events = chat.iter();
        assert_eq!(order.len(), 4 * (i + 1));
        assert_eq!(events.len(), order.len());
        for k in 0..order.len() {
            assert_eq!(order.iter().filter(|id| **id == order[k]).count(), 1);
            let before = if k == 0 { None } else { Some(order[k - 1]) };
            assert_eq!(events[k].previous_id, before);
        }
    }
}

#[test]
fn offered_models_are_read_from_json() {
    let body = "{\"data\": [{\"id\": \"big\", \"demand\": 3}, {\"id\": \"small\"}, {\"x\": 1}]}";
    let found = offered_models("p", "https://example.com/v1", None, body);
    assert_eq!(
        found,
        vec![("p/big".to_string(), Some(3)), ("p/small".to_string(), None)]
    );
    assert!(offered_models("p", "https://example.com/v1", None, "oops").is_empty());
    assert!(offered_models("p", "https://example.com/v1", None, "{\"data\": 1}").is_empty());
    let entries = vec![(Some("a-free".to_string()), None), (Some("b".to_string()), None)];
    let shown = shown_of("zen", "https://opencode.ai/zen/v1", Some("public"), &entries);
    assert!(shown.iter().any(|m| m.0 == "zen/a-free"), "{shown:?}");
    let plain = ModelConfig::Plain("p/m".into());
    assert_eq!((plain.id(), plain.model_name().as_str()), ("p/m", "m"));
}

#[test]
fn rows_follow_the_width() {
    let mut e = Editor::new(80);
    e.set_text("abcdefgh");
    assert!(e.cursor_is_first_row());
    e.set_width(4);
    assert!(!e.cursor_is_first_row());
    assert!(e.cursor_is_last_row());
    e.move_home(false);
    e.move_line(1, false);
    e.insert_char('!');
    assert_eq!(e.text_string(), "abcde!fgh", "the first position of a row that goes on");
}
