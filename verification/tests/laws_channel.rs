//! What holds of channels, on chosen values.

use aidev::channel::builder::{
    base_name_for, collect_host_paths, container_fits, containers_args, containers_of,
    default_image_for_path, find_container_for, git_list_worktrees_and_branches,
    image_names_equal, images_args, is_repo_root, mounts_args, offered_images, path_keys,
    podman_available, podman_has_alpine, podman_inspect_working_dir, podman_list_images,
    working_dir_args, GitMarker, RepoRoot, Tunnel,
};
use aidev::channel::container::{
    container_layer_changes, essential_diff_paths, inspect_args, inspect_container_state,
    path_at_or_under, podman_probe_status, reuse_container, volatile_diff_path, ContainerState,
};
use aidev::channel::glob::{find_args, find_glob, found_paths};
use aidev::channel::ignore::{parse_ignore_content, IgnoreFilter};
use aidev::channel::local::{shell, Local};
use aidev::channel::podman::{
    essential_changes, image_default_uid_gid, parse_uid_gid_fields, podman_from_config,
    running_uid_gid, uidmap_args, EnsureStep, IdentitySource, PodmanChannel,
};
use aidev::channel::registry::{AnyChannel, ChannelRegistry};
use aidev::channel::resolve::{
    join_workdir, path_contains_existing_symlink, resolve, unresolved_root, Probe, Progress,
    RootWalk,
};
use aidev::channel::run::{proc_pgrp, sanitize, trim_front, truncate_tail, RunLoop, RunStep, Seen};
use aidev::channel::search::{split_search_path, FileSearch, SearchTarget};
use aidev::channel::{Channel, ChannelKind, ChannelStatus, PodmanMode, RunOut, WorktreeInfo};
use aidev::config::{ChannelConfig, Config, PathEntry, PodmanUserMapping};
use aidev::table::Table;

fn ended(code: i32, stdout: &str, stderr: &str) -> Result<RunOut, String> {
    Ok(RunOut { exit_code: Some(code), stdout: stdout.into(), stderr: stderr.into() })
}

fn run_channel() -> PodmanChannel {
    PodmanChannel::new_run(
        "node",
        "aidev-node",
        "/host/x",
        "node:22",
        "/app",
        60,
        1000,
        100,
        "/tmp".to_string(),
        PodmanUserMapping::KeepId,
    )
}

fn attach_config() -> ChannelConfig {
    ChannelConfig {
        kind: "podman".into(),
        image: None,
        container: Some("shared".into()),
        run_container: None,
        workdir: "/work".into(),
        host_root: Some("/host/x".into()),
        home: None,
    }
}

#[test]
fn meaning_the_same_image_goes_both_ways() {
    let names = ["alpine", "docker.io/library/alpine:latest", "localhost/alpine"];
    for a in names {
        assert!(image_names_equal(a, a));
        for b in names {
            assert_eq!(image_names_equal(a, b), image_names_equal(b, a));
        }
    }
    assert!(!image_names_equal("alpine", "busybox"));
}

#[test]
fn worktrees_and_branches_come_in_order_and_once() {
    let worktrees = "worktree /repo\nHEAD 1\nbranch refs/heads/main\n\nworktree /repo/.aidev/wt-b\nHEAD 2\nbranch refs/heads/b\n";
    let branches = "main\nb\na\na\n";
    let list = git_list_worktrees_and_branches(
        "/repo",
        Some(worktrees),
        Some(branches),
    );
    let names: Vec<&str> = list.iter().map(|e| e.branch.as_str()).collect();
    assert_eq!(names.iter().filter(|n| **n == "a").count(), 1, "{names:?}");
    assert_eq!(names.iter().filter(|n| **n == "main").count(), 1, "{names:?}");
    assert_eq!(list.len(), 3);
    assert!(list.iter().any(|e| e.branch == "main" && e.has_worktree && e.is_main));
    assert!(list.iter().any(|e| e.branch == "a" && !e.has_worktree));
}

#[test]
fn worktrees_are_listed_before_branches() {
    let worktrees = "worktree /repo\nHEAD 1\nbranch refs/heads/main\n\nworktree /repo/.aidev/z\nHEAD 2\nbranch refs/heads/zeta\n\nworktree /other\nHEAD 3\nbranch refs/heads/eta\n";
    let branches = "alpha\neta\nbeta\nmain\nzeta\n";
    let list = git_list_worktrees_and_branches("/repo", Some(worktrees), Some(branches));
    let labels: Vec<&str> = list.iter().map(|e| e.label.as_str()).collect();
    assert_eq!(
        labels,
        vec![
            ". (main)",
            "../other (eta)",
            ".aidev/z (zeta)",
            "alpha (Kein Worktree)",
            "beta (Kein Worktree)",
        ]
    );
    assert_eq!(list[3].path, "");
}

#[test]
fn a_directory_is_offered_once_however_it_is_written() {
    let mut paths = Table::new();
    paths.insert("/tmp/test".to_string(), PathEntry { image: None });
    let offered = collect_host_paths(&paths, Some("/tmp/./test/"), Some("/tmp//test"));
    assert_eq!(offered.len(), 1);
    assert_eq!(offered[0].path, "/tmp/test");
}

#[test]
fn a_container_fits_one_mapping_only() {
    for userns in ["keep-id:keep-gid", "private", "host", ""] {
        let state = ContainerState::Running {
            userns: userns.into(),
            binds: "[/host/x:/app]".into(),
            image: "node:22".into(),
        };
        let keep = reuse_container(&state, "/host/x:/app", Some("node:22"), PodmanUserMapping::KeepId);
        let map = reuse_container(&state, "/host/x:/app", Some("node:22"), PodmanUserMapping::Uidmap);
        assert!(!(keep && map), "{userns}");
    }
}

#[test]
fn a_container_that_is_used_again_counts_as_running() {
    let state = ContainerState::Running {
        userns: "keep-id:keep-gid".into(),
        binds: "[/host/x:/app]".into(),
        image: "node:22".into(),
    };
    let keep = PodmanUserMapping::KeepId;
    assert!(reuse_container(&state, "/host/x:/app", Some("node:22"), keep));
    assert_eq!(
        podman_probe_status(&state, PodmanMode::Run, "/host/x:/app", Some("node:22"), keep),
        ChannelStatus::Running
    );
    assert!(!reuse_container(&state, "/host/y:/app", Some("node:22"), keep), "another mount");
    assert!(!reuse_container(&state, "/host/x:/app", Some("node:20"), keep), "another image");
}

#[test]
fn what_does_not_last_is_not_reported() {
    assert!(path_at_or_under("app/sub", "/app/"));
    assert!(path_at_or_under("app", "app"));
    assert!(!path_at_or_under("apples", "app"));
    assert!(volatile_diff_path("tmp/x"));
    assert!(!volatile_diff_path("opt/x"));
    assert_eq!(
        essential_diff_paths("A /tmp/a\nA /opt/b\nA /app/c\n", "/app", "/home/u"),
        vec!["opt/b".to_string()]
    );
    assert_eq!(container_layer_changes(&Vec::new()), None);
    let note = container_layer_changes(&vec!["opt/b".to_string()]).unwrap();
    assert!(note.contains("opt/b"), "{note}");
}

#[test]
fn a_pattern_without_two_stars_goes_unchanged() {
    let args = find_args("src/*.rs").unwrap();
    assert!(args.iter().any(|a| a.ends_with("src/*.rs")), "{args:?}");
    let args = find_args("src/**/*.rs").unwrap();
    assert!(!args.iter().any(|a| a.contains("/**/")), "{args:?}");
    assert!(find_args("  ").is_err(), "an empty pattern is refused");
}

#[test]
fn found_paths_lie_outside_what_no_search_looks_into() {
    let out = ended(0, "./src/main.rs\n./target/debug/x.rs\n./src/deep\n", "");
    let mut paths = found_paths(&out).unwrap();
    paths.sort();
    assert_eq!(paths, vec!["src/deep", "src/main.rs"]);
    let hits = find_glob(&paths, &vec![true, false]);
    assert_eq!(hits, vec!["src/deep/", "src/main.rs"], "directories end with a slash");
    assert!(found_paths(&Err("no find".to_string())).is_err());
}

#[test]
fn hidden_paths_are_ignored_whatever_the_rules_say() {
    let filter = IgnoreFilter { rules: parse_ignore_content("!.git\n!.git/**") };
    assert!(filter.is_ignored(".git/config"));
}

#[test]
fn the_last_rule_that_fits_decides() {
    let filter = IgnoreFilter { rules: parse_ignore_content("*.log\n!keep.log\nkeep.log") };
    assert!(filter.is_ignored("keep.log"));
    let filter = IgnoreFilter { rules: parse_ignore_content("*.log\n!keep.log") };
    assert!(!filter.is_ignored("keep.log"));
    assert!(!filter.is_ignored("src/main.rs"), "no rule fits");
}

#[test]
fn the_nearest_directory_decides() {
    let filter = IgnoreFilter::from_levels(&vec![
        vec!["!a.log".to_string()],
        vec!["*.log".to_string()],
    ]);
    assert_eq!(filter.len(), 2);
    assert!(!filter.is_ignored("a.log"));
    assert!(filter.is_ignored("b.log"));
}

#[test]
fn shared_containers_keep_their_user() {
    let ids = Err("no identity".to_string());
    let ch = podman_from_config("ci", &attach_config(), 0, &ids, None, PodmanUserMapping::KeepId)
        .expect("joining needs no identity");
    assert_eq!(ch.mode, PodmanMode::Attach);
    assert_eq!(ch.timeout, 1, "a limit of none becomes the smallest one");
    assert_eq!(
        ch.exec_argv("/work/a", "ls", &vec!["-l".to_string()]),
        vec!["exec", "--workdir", "/work/a", "shared", "ls", "-l"]
    );
    assert_eq!(ch.kind(), ChannelKind::PodmanAttach);
    assert_eq!(ch.container_name(), None, "the container is not its own");
    assert_eq!(ch.host_root(), None, "nor is the directory behind it");
    assert_eq!(ch.podman_run_spec(), None);
}

#[test]
fn a_container_is_replaced_unless_it_fits() {
    let mut ch = run_channel();
    assert_eq!(ch.ensure_running(), EnsureStep::Inspect);
    let fits = "true|keep-id:keep-gid|[/host/x:/app]|node:22";
    assert_eq!(ch.inspected("/host/x", &ended(0, fits, "")), Ok(EnsureStep::Ready));
    assert_eq!(ch.status(), ChannelStatus::Running);
    let mut ch = run_channel();
    assert_eq!(ch.inspected("/host/x", &ended(1, "", "no such")), Ok(EnsureStep::Start));
    let stopped = "false|keep-id:keep-gid|[/host/x:/app]|node:22";
    assert_eq!(ch.inspected("/host/x", &ended(0, stopped, "")), Ok(EnsureStep::Replace));
    assert!(ch.inspected("/host/x", &Err("no podman".into())).is_err());
    let args = ch.start_args("/host/x").unwrap();
    assert_eq!(args[0], "run");
    assert!(args.contains(&"node:22".to_string()));
    assert!(args.contains(&"/host/x:/app".to_string()), "{args:?}");
    assert!(ch.remove_args().contains(&"aidev-node".to_string()));
}

#[test]
fn a_started_container_is_stopped_at_the_end() {
    let mut ch = run_channel();
    let mut managed = Vec::new();
    assert!(ch.started(ended(0, "id\n", ""), &mut managed).is_ok());
    assert_eq!(managed, vec!["aidev-node".to_string()]);
    assert_eq!(ch.status(), ChannelStatus::Running);
    assert!(ch.started(ended(125, "", "boom"), &mut managed).is_err());
    assert_eq!(managed.len(), 1);
    assert_eq!(ch.status(), ChannelStatus::Problem);
}

#[test]
fn whatever_fails_on_the_way_is_a_problem() {
    let mut ch = run_channel();
    assert_eq!(ch.ensure_running(), EnsureStep::Inspect);
    assert_eq!(ch.status(), ChannelStatus::Starting);
    assert!(ch.inspected("/host/x", &Err("no podman".into())).is_err());
    assert_eq!(ch.status(), ChannelStatus::Problem);
    ch.ensure_running();
    assert_eq!(ch.started(Err("no podman".into()), &mut Vec::new()), Err("no podman".to_string()));
    assert_eq!(ch.status(), ChannelStatus::Problem);
    ch.ensure_running();
    ch.image = None;
    assert_eq!(ch.start_args("/host/x"), Err("Run channel without image".to_string()));
    assert_eq!(ch.status(), ChannelStatus::Problem);
}

#[test]
fn a_container_of_others_only_has_to_run() {
    let state = ContainerState::Running {
        userns: "host".into(),
        binds: "[]".into(),
        image: "node:22".into(),
    };
    let keep = PodmanUserMapping::KeepId;
    let attach = podman_probe_status(&state, PodmanMode::Attach, "", None, keep);
    assert_eq!(attach, ChannelStatus::Running);
    let own = podman_probe_status(&state, PodmanMode::Run, "/host/x:/app", None, keep);
    assert_eq!(own, ChannelStatus::Unknown);
}

#[test]
fn registering_never_overwrites() {
    let mut reg = ChannelRegistry::empty();
    let a = reg.bind(AnyChannel::Local(Local::new("/a".into())));
    let b = reg.bind(AnyChannel::Local(Local::new("/b".into())));
    assert_ne!(a.id, b.id);
    assert_eq!(reg.register("x".into(), a.clone()), "x");
    assert_eq!(reg.register("x".into(), b.clone()), "x-2");
    assert_eq!(reg.get("x").unwrap().id, a.id);
    assert_eq!(reg.get("x-2").unwrap().id, b.id);
    assert_eq!(reg.find_name(&b).as_deref(), Some("x-2"));
    reg.unregister("x");
    assert!(reg.get("x").is_none());
    assert_eq!(reg.get("x-2").unwrap().id, b.id);
}

#[test]
fn a_stopped_container_is_forgotten() {
    let mut reg = ChannelRegistry::empty();
    reg.managed = vec!["one".into(), "two".into()];
    let args = reg.stop_one("one");
    assert!(args.contains(&"one".to_string()), "{args:?}");
    assert_eq!(reg.managed, vec!["two".to_string()]);
    assert!(reg.stop_managed().contains(&"two".to_string()));
}

#[test]
fn resolved_paths_stay_below_the_base() {
    assert_eq!(resolve("/base", "a/b.txt").unwrap(), "/base/a/b.txt");
    assert_eq!(resolve("/base", "/a").unwrap(), "/base/a");
    assert_eq!(resolve("/base", "./x").unwrap(), "/base/x");
}

#[test]
fn steps_up_are_refused() {
    for rel in ["../x", "a/../../x", "a/.."] {
        let message = resolve("/base", rel).unwrap_err();
        assert_eq!(message, format!("Path escapes the channel root: {rel}"));
        assert!(join_workdir("/app", rel).is_err());
    }
}

#[test]
fn a_walk_ends_below_the_root_or_is_refused() {
    let mut walk = RootWalk::begin("/base", "/base", "sub/x").unwrap();
    assert!(matches!(walk.look(), Progress::Look(p) if p == "/base/sub"));
    assert!(matches!(walk.step(Probe::Dir), Progress::Look(p) if p == "/base/sub/x"));
    assert!(matches!(walk.step(Probe::Missing), Progress::Fine));
}

#[test]
fn links_out_of_the_root_are_refused() {
    let mut walk = RootWalk::begin("/base", "/base", "evil/x").unwrap();
    let end = walk.step(Probe::Link(Some("/outside".to_string())));
    match end {
        Progress::Refused(m) => assert!(m.contains("symlink"), "{m}"),
        other => panic!("not refused: {other:?}"),
    }
    let mut walk = RootWalk::begin("/base", "/base", "broken").unwrap();
    assert!(matches!(walk.step(Probe::Link(None)), Progress::Refused(_)));
    assert!(path_contains_existing_symlink(&vec![None, Some(true), Some(false)]));
    assert!(!path_contains_existing_symlink(&vec![None, Some(false), Some(true)]));
    assert!(unresolved_root("/base", &vec![Some(true)]).is_err());
    assert!(unresolved_root("/base", &vec![None]).is_ok());
}

#[test]
fn a_command_is_stopped_on_request_and_in_time() {
    let mut course = RunLoop::new(1_000);
    let seen = Seen { now: 10, cancel: true, exit: None, closed: true };
    assert_eq!(course.step(seen), RunStep::KillAndFinish);
    assert_eq!(course.result("x", "").exit_code, None);
    let mut course = RunLoop::new(1_000);
    let late = Seen { now: 1_000, cancel: false, exit: None, closed: false };
    assert_eq!(course.step(late), RunStep::Kill);
}

#[test]
fn reading_ends_after_the_grace_period() {
    let mut course = RunLoop::new(1_000);
    let over = Seen { now: 5, cancel: false, exit: Some(Some(3)), closed: false };
    assert_eq!(course.step(over), RunStep::Wait);
    let waiting = Seen { now: 254, ..over };
    assert_eq!(course.step(waiting), RunStep::Wait);
    let late = Seen { now: 255, ..over };
    assert_eq!(course.step(late), RunStep::Finish);
    assert_eq!(course.result("", "").exit_code, Some(3));
}

#[test]
fn trimming_keeps_the_end() {
    let mut s = "eins\nzwei\ndrei\n".to_string();
    assert!(trim_front(&mut s, 12));
    assert_eq!(s, "zwei\ndrei\n");
    let mut s = "ein".to_string();
    assert!(!trim_front(&mut s, 10));
    assert_eq!(s, "ein");
    for cap in 0..6 {
        let mut s = "aé€b".to_string();
        assert!(trim_front(&mut s, cap));
        assert!(s.len() <= cap, "{cap}: {s}");
        assert!("aé€b".ends_with(s.as_str()));
    }
    let mut s = "aé".to_string();
    assert!(trim_front(&mut s, 1), "half a character does not stay");
    assert_eq!(s, "");
}

#[test]
fn shortened_output_stays_within_the_limit() {
    let short = truncate_tail("aaaa\nbbbb\ncccc", 8, "~\n");
    assert!(short.chars().count() <= 8, "{short}");
    assert!(short.starts_with("~\n"), "{short}");
    assert!(short.ends_with("cccc"), "{short}");
}

#[test]
fn a_name_stays_as_it_is() {
    for s in ["Mein Kanal 2", "!!!", "feature/x", "Node:22", ""] {
        let name = sanitize(s);
        assert!(!name.is_empty());
        assert_eq!(sanitize(&name), name);
    }
    assert_eq!(sanitize("Über Straße"), "Über-straße", "letters of any script stay");
}

#[test]
fn process_groups_are_read_behind_the_name() {
    assert_eq!(proc_pgrp("42 (sh) S 1 42 42 0"), Some(42));
    assert_eq!(proc_pgrp("7 (odd) name)) R 3 -5 9"), Some(-5));
    assert_eq!(proc_pgrp("garbage"), None);
}

#[test]
fn a_search_goes_from_ripgrep_to_grep() {
    let mut search = FileSearch::new("fn", SearchTarget::Dir, None, 0);
    assert_eq!(search.program(), "rg");
    assert!(search.step(Err("not found".to_string())).is_none());
    assert_eq!(search.program(), "grep");
    assert!(search.args().contains(&"-E".to_string()) || search.args().iter().any(|a| a.starts_with("-") && a.contains('E')));
    let out = "./src/lib.rs:1:pub fn hallo() {}\n./target/x.rs:2:fn no() {}\n";
    let found = search.step(ended(0, out, "")).expect("an answer").unwrap();
    assert_eq!(found.matches.len(), 1, "what is left out is not found");
    assert_eq!(found.matches[0].path, "src/lib.rs");
}

#[test]
fn finding_nothing_is_no_error() {
    let mut search = FileSearch::new("nix", SearchTarget::Dir, None, 0);
    let found = search.step(ended(1, "", "")).expect("an answer").unwrap();
    assert!(found.matches.is_empty());
    assert!(found.raw.is_none());
}

#[test]
fn refused_patterns_are_reported() {
    let mut search = FileSearch::new("(?:a)", SearchTarget::Dir, None, 0);
    let mut answer = search.step(Err("not found".to_string()));
    let mut attempts = 0;
    while answer.is_none() {
        attempts += 1;
        assert!(attempts < 5, "a search comes to an end");
        answer = search.step(ended(2, "", "grep: Invalid preceding regular expression"));
    }
    let message = answer.unwrap().unwrap_err();
    assert!(message.contains("(?:a)"), "{message}");
}

#[test]
fn a_file_is_searched_from_its_directory() {
    let (cwd, target) = split_search_path("/d/sub/a.rs", true);
    assert_eq!(cwd, "/d/sub");
    assert!(matches!(target, SearchTarget::File(name) if name == "a.rs"));
    let (cwd, target) = split_search_path("/d/sub", false);
    assert_eq!(cwd, "/d/sub");
    assert!(matches!(target, SearchTarget::Dir));
}

#[test]
fn repositories_are_told_by_their_marker() {
    assert!(matches!(is_repo_root("/repo", &GitMarker::Dir), RepoRoot::Yes));
    assert!(matches!(is_repo_root("/repo/src", &GitMarker::Missing), RepoRoot::No));
    match is_repo_root("/wt", &GitMarker::File(Some("gitdir: /main/.git/worktrees/wt\n".into()))) {
        RepoRoot::IfExists(p) => assert_eq!(p, "/main/.git/worktrees/wt"),
        other => panic!("not asked: {other:?}"),
    }
    assert!(matches!(is_repo_root("/wt", &GitMarker::File(None)), RepoRoot::No));
}

#[test]
fn images_are_read_from_the_list() {
    assert_eq!(images_args()[0], "images");
    let out = ended(0, "docker.io/library/alpine:latest\n<none>:<none>\nnode:22\n", "");
    let images = podman_list_images(&out);
    assert!(images.contains(&"node:22".to_string()), "{images:?}");
    assert!(!images.iter().any(|i| i.contains("<none>")), "{images:?}");
    let dangling = ended(0, "foo:<none>\nbar:1\n<none>:2\n", "");
    assert_eq!(podman_list_images(&dangling), vec!["bar:1".to_string()]);
    assert!(podman_list_images(&Err("none".into())).is_empty());
    assert!(podman_available(&ended(0, "", "")));
    assert!(!podman_available(&Err("none".into())));
    assert_eq!(offered_images(Vec::new(), true, true), vec!["alpine".to_string()]);
    assert!(offered_images(Vec::new(), true, false).is_empty());
    assert!(!podman_has_alpine(&Err("none".into())));
    assert!(working_dir_args("node").contains(&"node".to_string()));
    assert_eq!(podman_inspect_working_dir(&ended(0, "/srv\n", "")).as_deref(), Some("/srv"));
    assert_eq!(podman_inspect_working_dir(&ended(0, "\n", "")), None);
    assert_eq!(Tunnel::Local.image_name(), None);
}

#[test]
fn the_container_with_the_mount_is_found() {
    assert_eq!(containers_args()[0], "ps");
    assert!(mounts_args("c1").contains(&"c1".to_string()));
    assert!(inspect_args("c1").contains(&"c1".to_string()));
    assert!(inspect_container_state(&Err("x".into())).is_err());
    let listed = containers_of(&Err("no podman".into()));
    assert!(listed.is_empty());
    assert!(find_container_for(&Vec::new(), &Vec::new(), "/host/x", None).is_none());
    assert!(container_fits("c1", "Up 2 hours", &Err("x".into()), "/host/x", None).is_none());
}

#[test]
fn images_come_from_the_configuration_of_the_repository() {
    let mut paths = Table::new();
    paths.insert("/repo".to_string(), PathEntry { image: Some("node:22".into()) });
    let config = Config { paths, ..Config::default() };
    assert_eq!(path_keys(&config), vec!["/repo".to_string()]);
    let keys = path_keys(&config);
    let tops = vec![Some("/repo".to_string())];
    assert_eq!(
        default_image_for_path(&config, "/repo", Some("/repo"), &keys, &tops).as_deref(),
        Some("node:22")
    );
    assert_eq!(
        default_image_for_path(&config, "/wt", Some("/repo"), &keys, &tops).as_deref(),
        Some("node:22"),
        "another worktree of the repository"
    );
    assert_eq!(default_image_for_path(&config, "/tmp", None, &keys, &tops), None);
    assert_eq!(base_name_for("/work/wt", Some("/work/main")), "main");
    assert_eq!(base_name_for("/work/dir", None), "dir");
}

#[test]
fn identities_are_numbers() {
    assert_eq!(parse_uid_gid_fields("uid=1000(node) gid=100(users)"), Some((1000, 100)));
    assert_eq!(parse_uid_gid_fields("root"), None);
    assert!(image_default_uid_gid("node", &Err("x".into())).is_err());
    assert!(matches!(
        running_uid_gid(None, PodmanUserMapping::KeepId),
        Ok(IdentitySource::Host)
    ));
    assert!(!uidmap_args(1000, 100).is_empty());
    assert_eq!(shell(&ended(0, "", "")), "bash");
    assert_eq!(shell(&Err("no bash".into())), "sh");
}

#[test]
fn a_copy_of_a_local_channel_owns_no_worktree() {
    let wt = WorktreeInfo { name: "wt".into(), branch: "b".into(), path: "/wt".into() };
    let ch = Local::new("/wt".into()).with_worktree(wt);
    assert!(ch.managed_worktree());
    assert!(ch.owned_worktree().is_some());
    let copy = ch.dup();
    assert!(!copy.managed_worktree());
    assert!(copy.owned_worktree().is_none());
    assert_eq!(copy.root(), "Local:/wt");
}

#[test]
fn a_copy_of_a_container_gets_a_worktree_of_its_own() {
    let mut ch = run_channel();
    let first = ch.dup().unwrap();
    let second = ch.dup().unwrap();
    assert_ne!(first.channel.container, second.channel.container);
    assert_eq!(first.channel.image.as_deref(), Some("node:22"));
    let managed = vec!["aidev-node".to_string()];
    let layer = Some("layer".to_string());
    let notes = essential_changes(&run_channel(), &managed, true, layer, None);
    assert_eq!(notes, Some(vec!["layer".to_string()]));
    assert_eq!(essential_changes(&run_channel(), &managed, true, None, None), None);
}
