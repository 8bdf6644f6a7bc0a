//! Channels: paths, commands, containers and the registry.

use aidev::app::picker::warmup_channel;
use aidev::app::types::Task;
use aidev::channel::container::{
    essential_diff_paths, git_porcelain_note, parse_inspect_state, podman_probe_status,
    reuse_container, ContainerState,
};
use aidev::channel::local::Local;
use aidev::channel::podman::{podman_from_config, PodmanChannel};
use aidev::channel::registry::{channel_from_config, AnyChannel, ChannelRegistry};
use aidev::channel::resolve::join_workdir;
use aidev::channel::run::{
    host_uid_gid, sanitize, trim_front, truncate_output, RunLoop, RunStep, Seen,
};
use aidev::channel::search::{is_excluded_path, parse_search_lines};
use aidev::channel::{Channel, ChannelStatus, PodmanMode, RunOut};
use aidev::config::{ChannelConfig, PodmanUserMapping};

fn said(stdout: &str) -> RunOut {
    RunOut { exit_code: Some(0), stdout: stdout.to_string(), stderr: String::new() }
}

fn identity() -> (u32, u32) {
    host_uid_gid(Ok(said("1000\n")), Ok(said("1000\n"))).unwrap()
}

fn ids() -> Result<(u32, u32), String> {
    Ok(identity())
}

#[test]
fn truncate_output_haelt_das_ende_und_schneidet_ganze_zeilen_vorne() {
    assert_eq!(truncate_output("kurz\nende"), "kurz\nende");
    let lang: String = (1..=8000).map(|i| format!("zeile {i}\n")).collect();
    assert!(lang.chars().count() > 64 * 1024, "Eingabe über dem Limit");
    let out = truncate_output(&lang);
    assert!(out.starts_with("…\n[vorne gekürzt]\n"), "Markierung: {out}");
    assert!(out.ends_with("zeile 8000"), "letzte Zeile bleibt: {out}");
    assert!(!out.contains("zeile 1"), "vorne wird abgeschnitten: {out}");
    assert!(
        out.chars().count() <= 64 * 1024,
        "bleibt im Limit: {}",
        out.chars().count()
    );
}

#[test]
fn truncate_output_schneidet_einzelne_riesenzeile_nur_am_ende() {
    let riesig = "x".repeat(100_000);
    let out = truncate_output(&riesig);
    assert!(out.starts_with('…'), "{out}");
    assert!(out.chars().count() <= 64 * 1024, "{}", out.chars().count());
    assert!(out.ends_with('x'), "Ende bleibt lesbar");
}

#[test]
fn trim_front_behaelt_den_schwanz_an_zeilengrenzen() {
    let mut s = String::new();
    for i in 0..100_000 {
        s.push_str(&format!("zeile {i}\n"));
    }
    assert!(trim_front(&mut s, 4096), "gekürzt");
    assert!(!s.is_empty(), "nicht leer");
    assert!(
        s.trim_end().ends_with("zeile 99999"),
        "Ende bleibt: {}",
        &s[..32.min(s.len())]
    );
    assert!(!s.starts_with("zeile 0"), "vorne weg");
    assert!(
        s.starts_with("zeile "),
        "ganze Zeile vorn: {}",
        &s[..32.min(s.len())]
    );
    assert!(
        s.len() <= 4096 + "zeile 99999\n".len(),
        "nahe am Limit: {}",
        s.len()
    );

    let mut kurz = "a\nb\nc".to_string();
    assert!(!trim_front(&mut kurz, 1000));
    assert_eq!(kurz, "a\nb\nc");
}

#[test]
fn local_config_fehlerfaelle() {
    let ohne = ChannelConfig {
        kind: "local".into(),
        image: None,
        container: None,
        run_container: None,
        workdir: "/app".into(),
        host_root: None,
        home: None,
    };
    assert!(channel_from_config("x", &ohne, 60, &ids(), None, PodmanUserMapping::KeepId).is_err());
    let mit_img = ChannelConfig {
        kind: "local".into(),
        image: Some("node:22".into()),
        container: None,
        run_container: None,
        workdir: "/app".into(),
        host_root: Some("/tmp".into()),
        home: None,
    };
    assert!(channel_from_config("x", &mit_img, 60, &ids(), None, PodmanUserMapping::KeepId).is_err());
    let fremd = ChannelConfig {
        kind: "docker".into(),
        image: None,
        container: None,
        run_container: None,
        workdir: "/app".into(),
        host_root: Some("/tmp".into()),
        home: None,
    };
    assert!(channel_from_config("x", &fremd, 60, &ids(), None, PodmanUserMapping::KeepId).is_err());
}

#[test]
fn workdir_join_ohne_escape() {
    assert_eq!(
        join_workdir("/app", "src")
            .unwrap()
            .as_str(),
        "/app/src"
    );
    assert_eq!(
        join_workdir("/app", "")
            .unwrap()
            .as_str(),
        "/app"
    );
    assert_eq!(
        join_workdir("/app", "/x/y")
            .unwrap()
            .as_str(),
        "/app/x/y"
    );
    assert!(join_workdir("/app", "../x").is_err());
}

#[test]
fn sanitize_macht_wortnamen() {
    assert_eq!(sanitize("Mein Kanal 2"), "mein-kanal-2");
    assert_eq!(sanitize("!!!"), "channel");
}

#[test]
fn parse_search_lines_zerlegt_rg_grep_ausgabe() {
    let out = "src/lib.rs:1:pub fn hallo() {}\nREADME.md:7:# demo\n";
    let m = parse_search_lines(out);
    assert_eq!(m.len(), 2);
    assert_eq!(m[0].path, "src/lib.rs");
    assert_eq!(m[0].text, "pub fn hallo() {}");
    assert_eq!(m[1].path, "README.md");
    assert_eq!(m[1].text, "# demo");
}

#[test]
fn is_excluded_path_erkennt_ausgeschlossene_verzeichnisse() {
    assert!(is_excluded_path(".git/HEAD"));
    assert!(is_excluded_path("target/debug/aidev"));
    assert!(is_excluded_path("node_modules/x/index.js"));
    assert!(!is_excluded_path("src/lib.rs"));
    assert!(!is_excluded_path("targets.md"));
    assert!(!is_excluded_path(""));
}

#[test]
fn essential_diff_paths_liest_podman_diff_und_filtert_ueberfluessiges() {
    let diff = "A /app/quell.txt\nC /app\nA /tmp/npm-cache/x\nC /var/tmp\nA /run/secrets/token\nA /opt/tool/version\nM /opt/tool/version\nA /usr/local/bin/hilf\nD /etc/wichtig\nC /root/.cache\n";
    let paths = essential_diff_paths(diff, "/app", "/tmp");
    assert_eq!(
        paths,
        vec![
            "etc/wichtig".to_string(),
            "opt/tool/version".to_string(),
            "root/.cache".to_string(),
            "usr/local/bin/hilf".to_string()
        ],
        "{paths:?}"
    );
    let paths = essential_diff_paths(diff, "/app", "/home/aidev");
    assert!(paths.contains(&"root/.cache".to_string()), "{paths:?}");
    assert!(
        !paths.contains(&"tmp/npm-cache/x".to_string()),
        "/tmp ist flüchtig: {paths:?}"
    );
    assert!(!paths.contains(&"app/quell.txt".to_string()), "{paths:?}");
    let paths = essential_diff_paths(
        "C /tmp/x\nA /app/sub/y\nD /run/p\nA /dev/loop0\nA /root/cache\n",
        "/app",
        "/root",
    );
    assert!(paths.is_empty(), "{paths:?}");
    assert!(essential_diff_paths("", "/app", "/tmp").is_empty());
}

#[test]
fn git_porcelain_note_zaehlt_und_nennt_pfad() {
    assert_eq!(git_porcelain_note(""), None);
    let out = " M src/lib.rs\n?? README.md\n";
    let note = git_porcelain_note(out).expect("uncommittete Änderungen");
    assert!(note.contains("2 uncommitted changes"), "{note}");
    assert!(note.contains("src/lib.rs"), "{note}");
    let note = git_porcelain_note("?? neu.txt\n").expect("eine Änderung");
    assert!(note.contains("1 uncommitted change"), "{note}");
    assert!(note.contains("neu.txt"), "{note}");
}

#[test]
fn run_modus_exec_argv_als_host_identitaet() {
    let (uid, gid) = identity();
    let ch = PodmanChannel {
        name: "build".into(),
        mode: PodmanMode::Run,
        container: "aidev-build".into(),
        workdir: "/app".into(),
        host_root: Some("/tmp/x".to_string()),
        image: Some("build:latest".into()),
        timeout: 60,
        uid,
        gid,
        home: "/home/aidev".into(),
        usermapping: PodmanUserMapping::KeepId,
        seq: 1,
        status: ChannelStatus::Unknown,
        worktree: None,
    };
    let argv = ch.exec_argv("/app", "cargo", &vec!["build".into(), "-j2".into()]);
    let user_pos = argv
        .iter()
        .position(|a| a == "--user")
        .expect("--user gesetzt");
    assert_eq!(argv[user_pos + 1], format!("{uid}:{gid}"), "Host-Identität");
    let env_pos = argv
        .iter()
        .position(|a| a == "--env")
        .expect("--env gesetzt");
    assert_eq!(argv[env_pos + 1], "HOME=/home/aidev", "schreibbares $HOME");
}

#[test]
fn attach_modus_exec_argv_ohne_user() {
    let ch = PodmanChannel {
        name: "ci".into(),
        mode: PodmanMode::Attach,
        container: "aidev-ws".into(),
        workdir: "/app".into(),
        host_root: Some("/tmp/x".to_string()),
        image: None,
        timeout: 60,
        uid: 0,
        gid: 0,
        home: String::new(),
        usermapping: PodmanUserMapping::KeepId,
        seq: 1,
        status: ChannelStatus::Unknown,
        worktree: None,
    };
    let argv = ch.exec_argv("/app", "ls", &Vec::new());
    assert!(
        !argv.contains(&"--user".to_string()),
        "kein --user im Attach-Modus: {argv:?}"
    );
    assert!(
        !argv.contains(&"--env".to_string()),
        "kein HOME-Override: {argv:?}"
    );
}

#[test]
fn run_from_config_loest_host_identitaet_auf() {
    let cc = ChannelConfig {
        kind: "podman".into(),
        image: Some("node:22".into()),
        container: None,
        run_container: None,
        workdir: "/app".into(),
        host_root: Some("/tmp/x".into()),
        home: None,
    };
    let ch = podman_from_config("node", &cc, 60, &ids(), None, PodmanUserMapping::KeepId).expect("Run-Kanal bauen");
    let (uid, gid) = identity();
    assert_eq!(ch.uid, uid, "UID == Host");
    assert_eq!(ch.gid, gid, "GID == Host");
    assert_eq!(ch.home, "/tmp", "Default-Home");
}

#[test]
fn parse_inspect_state_liest_running_und_details() {
    assert_eq!(
        parse_inspect_state("true|keep-id:keep-gid|[/host/x:/app]|node:22", true),
        ContainerState::Running {
            userns: "keep-id:keep-gid".into(),
            binds: "[/host/x:/app]".into(),
            image: "node:22".into(),
        }
    );
    assert_eq!(
        parse_inspect_state("false|keep-id:keep-gid|[/host/x:/app]|node:22", true),
        ContainerState::Stopped,
    );
    assert_eq!(
        parse_inspect_state("", false),
        ContainerState::Missing,
    );
}

#[test]
fn reuse_container_nur_bei_passendem_laufenden_container() {
    let bind = "/host/x:/app";
    let running = || ContainerState::Running {
        userns: "keep-id:keep-gid".into(),
        binds: "[/host/x:/app]".into(),
        image: "node:22".into(),
    };
    let keep_id = PodmanUserMapping::KeepId;
    let uidmap = PodmanUserMapping::Uidmap;
    assert!(reuse_container(&running(), bind, Some("node:22"), keep_id));
    assert!(!reuse_container(
        &ContainerState::Running {
            userns: "host".into(),
            binds: "[/host/x:/app]".into(),
            image: "node:22".into(),
        },
        bind,
        Some("node:22"),
        keep_id
    ));
    assert!(!reuse_container(
        &ContainerState::Stopped,
        bind,
        Some("node:22"),
        keep_id
    ));
    assert!(!reuse_container(
        &ContainerState::Missing,
        bind,
        Some("node:22"),
        keep_id
    ));
    assert!(!reuse_container(&running(), bind, Some("node:22"), uidmap));
    let private_ns = ContainerState::Running {
        userns: "private".into(),
        binds: "[/host/x:/app]".into(),
        image: "node:22".into(),
    };
    assert!(reuse_container(&private_ns, bind, Some("node:22"), uidmap));
}

#[test]
fn local_kanal_status_ist_running() {
    let ch = Local::new("/tmp/aidev-test".to_string());
    assert_eq!(ch.status(), ChannelStatus::Running);
}

#[test]
fn podman_kanal_start_unknown() {
    let cc = ChannelConfig {
        kind: "podman".into(),
        image: Some("node:22".into()),
        container: None,
        run_container: None,
        workdir: "/app".into(),
        host_root: Some("/tmp/x".into()),
        home: None,
    };
    let ch = podman_from_config("node", &cc, 60, &ids(), None, PodmanUserMapping::KeepId).expect("Run-Kanal bauen");
    assert_eq!(ch.status(), ChannelStatus::Unknown);
}

#[test]
fn podman_probe_status_entscheidet_je_nach_modus() {
    let running_passt = ContainerState::Running {
        userns: "keep-id:keep-gid".into(),
        binds: "[/host/x:/app]".into(),
        image: "node:22".into(),
    };
    let running_falsch = ContainerState::Running {
        userns: "host".into(),
        binds: "[/host/x:/app]".into(),
        image: "node:22".into(),
    };
    let bind = "/host/x:/app";
    let keep_id = PodmanUserMapping::KeepId;
    assert_eq!(
        podman_probe_status(
            &ContainerState::Missing,
            PodmanMode::Run,
            bind,
            Some("node:22"),
            keep_id
        ),
        ChannelStatus::Unknown
    );
    assert_eq!(
        podman_probe_status(
            &ContainerState::Stopped,
            PodmanMode::Run,
            bind,
            Some("node:22"),
            keep_id
        ),
        ChannelStatus::Unknown
    );
    assert_eq!(
        podman_probe_status(
            &running_passt,
            PodmanMode::Run,
            bind,
            Some("node:22"),
            keep_id
        ),
        ChannelStatus::Running
    );
    assert_eq!(
        podman_probe_status(
            &running_falsch,
            PodmanMode::Run,
            bind,
            Some("node:22"),
            keep_id
        ),
        ChannelStatus::Unknown
    );
    assert_eq!(
        podman_probe_status(
            &ContainerState::Missing,
            PodmanMode::Attach,
            "",
            None,
            keep_id
        ),
        ChannelStatus::Problem
    );
    assert_eq!(
        podman_probe_status(
            &ContainerState::Stopped,
            PodmanMode::Attach,
            "",
            None,
            keep_id
        ),
        ChannelStatus::Problem
    );
    assert_eq!(
        podman_probe_status(&running_passt, PodmanMode::Attach, "", None, keep_id),
        ChannelStatus::Running
    );
}

#[test]
fn label_podman_name_default_root_local() {
    let ch = PodmanChannel {
        name: "node".into(),
        mode: PodmanMode::Run,
        container: "aidev-node".into(),
        workdir: "/app".into(),
        host_root: Some("/tmp/x".to_string()),
        image: Some("node:22".into()),
        timeout: 60,
        uid: 0,
        gid: 0,
        home: String::new(),
        usermapping: PodmanUserMapping::KeepId,
        seq: 1,
        status: ChannelStatus::Unknown,
        worktree: None,
    };
    assert_eq!(ch.label(), "node");
    let local = Local::new("/tmp/aidev-test".to_string());
    assert_eq!(local.label(), "Local:/tmp/aidev-test");
}

#[test]
fn host_uid_gid_liefert_numerische_identitaet() {
    let (uid, gid) = host_uid_gid(Ok(said("1000\n")), Ok(said("100\n"))).expect("id -u/-g verfügbar");
    assert!(uid < 1_000_000, "UID-Plausibilität: {uid}");
    assert!(gid < 1_000_000, "GID-Plausibilität: {gid}");
    assert_eq!((uid, gid), (1000, 100));
}

#[test]
fn register_fuegt_kanal_zur_auswahl_hinzu() {
    let mut registry = ChannelRegistry::empty();
    registry.default = Some("repo".to_string());
    let erster = registry.bind(AnyChannel::Local(Local::new("/tmp/aidev-x".to_string())));
    registry.register("repo".to_string(), erster);
    let neu = registry.bind(AnyChannel::Local(Local::new("/tmp/aidev-y".to_string())));
    assert_eq!(
        registry.register(neu.data.label(), neu.clone()),
        "Local:/tmp/aidev-y"
    );
    let names = registry.names();
    assert!(names.contains(&"Local:/tmp/aidev-y".to_string()));
    assert_eq!(
        registry.get("Local:/tmp/aidev-y").expect("registriert").id,
        neu.id
    );
    assert_eq!(registry.register("repo".to_string(), neu.clone()), "repo-2");
    assert_eq!(registry.register("repo".to_string(), neu), "repo-3");
    assert_eq!(registry.names().len(), 4);
}

#[test]
fn find_by_container_findet_passenden_run_kanal() {
    let mut registry = ChannelRegistry::empty();
    let cfg = ChannelConfig {
        kind: "podman".into(),
        image: Some("alpine".into()),
        container: None,
        run_container: Some("aidev-proj-feature-alpine".into()),
        workdir: "/app".into(),
        host_root: Some("/tmp/aidev-proj".into()),
        home: None,
    };
    let data = channel_from_config(
        "alpine /tmp/aidev-proj",
        &cfg,
        60,
        &ids(),
        None,
        PodmanUserMapping::KeepId,
    )
    .unwrap();
    let ch = registry.bind(data);
    let name = registry.register("alpine /tmp/aidev-proj".into(), ch);
    let found = registry.find_by_container("aidev-proj-feature-alpine");
    assert!(found.is_some(), "Kanal über Containernamen gefunden");
    let (found_name, found_channel) = found.unwrap();
    assert_eq!(found_name, name);
    assert_eq!(registry.get(&found_name).expect("registriert").id, found_channel.id);
    assert!(registry.find_by_container("does-not-exist").is_none());
}

#[test]
fn local_und_attach_warmup_ist_ein_kein_op() {
    let local = Local::new("/tmp/aidev-test".to_string());
    assert_eq!(local.status(), ChannelStatus::Running);
    let mut registry = ChannelRegistry::empty();
    let bound = registry.bind(AnyChannel::Local(local));
    assert!(matches!(warmup_channel(&bound), Task::Nothing));
    let attach = PodmanChannel {
        name: "ci".into(),
        mode: PodmanMode::Attach,
        container: "aidev-ws".into(),
        workdir: "/app".into(),
        host_root: Some("/tmp/x".to_string()),
        image: None,
        timeout: 60,
        uid: 0,
        gid: 0,
        home: String::new(),
        usermapping: PodmanUserMapping::KeepId,
        seq: 1,
        status: ChannelStatus::Unknown,
        worktree: None,
    };
    let bound = registry.bind(AnyChannel::Podman(attach));
    assert!(matches!(warmup_channel(&bound), Task::Nothing));
    assert_eq!(bound.data.status(), ChannelStatus::Unknown);
}

#[test]
fn timeout_kehrt_zeitnah_zurueck() {
    let mut course = RunLoop::new(300);
    let mut now = 0;
    let mut killed = false;
    loop {
        let seen = Seen { now, cancel: false, exit: None, closed: killed };
        match course.step(seen) {
            RunStep::Wait => {}
            RunStep::Kill => killed = true,
            RunStep::Finish => break,
            RunStep::KillAndFinish => {
                killed = true;
                break;
            }
        }
        now += 50;
    }
    let out = course.result("", "");
    assert!(killed);
    assert_eq!(out.exit_code, None);
    assert!(now < 5_000, "Rückkehr trotz laufendem Prozess: {now}");
}

#[test]
fn schnelles_kind_mit_erbe_blockiert_nicht() {
    let mut course = RunLoop::new(10_000);
    let mut now = 0;
    loop {
        let seen = Seen { now, cancel: false, exit: Some(Some(0)), closed: false };
        let step = course.step(seen);
        assert!(matches!(step, RunStep::Wait | RunStep::Finish), "{step:?}");
        if step == RunStep::Finish {
            break;
        }
        now += 50;
    }
    let out = course.result("hello\n", "");
    assert_eq!(out.exit_code, Some(0));
    assert!(
        out.stdout.contains("hello"),
        "Ausgabe trotz offener Erben-Pipe: {:?}",
        out.stdout
    );
    assert!(now < 2_000, "kein Blockieren an der geerbten Pipe: {now}");
}
