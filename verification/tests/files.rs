//! Directories, links and searches, given by what was found there.

use aidev::channel::builder::{default_image_for_path, is_repo_root, path_keys, GitMarker, RepoRoot};
use aidev::channel::glob::{find_args, find_glob, found_paths};
use aidev::channel::ignore::IgnoreFilter;
use aidev::channel::resolve::{resolve, unresolved_root, Probe, Progress, RootWalk};
use aidev::channel::search::{split_search_path, FileSearch, SearchTarget};
use aidev::channel::{RunOut, SearchResult};
use aidev::config::{Config, PathEntry};
use aidev::table::Table;

/// What a command printed that ended with the given code.
fn printed(code: i32, stdout: &str, stderr: &str) -> Result<RunOut, String> {
    Ok(RunOut {
        exit_code: Some(code),
        stdout: stdout.to_string(),
        stderr: stderr.to_string(),
    })
}

/// What `find` prints for a small project, and what a search makes of it.
fn hits(pattern: &str, listing: &str, dirs: &[&str]) -> Vec<String> {
    let args = find_args(pattern).unwrap();
    assert_eq!(args[0], ".");
    let paths = found_paths(&printed(0, listing, "")).unwrap();
    let marks: Vec<bool> = paths.iter().map(|p| dirs.contains(&p.as_str())).collect();
    find_glob(&paths, &marks)
}

#[test]
fn name_ohne_slash_findet_jede_tiefe() {
    assert_eq!(find_args("*.rs").unwrap(), vec![".", "-name", "*.rs"]);
    let found = hits(
        "*.rs",
        "./target/debug/x.rs\n./src/main.rs\n./src/deep/nested.rs\n",
        &[],
    );
    assert_eq!(found, vec!["src/deep/nested.rs", "src/main.rs"]);
    assert!(!found.iter().any(|p| p.starts_with("target")), "Excludes");
}

#[test]
fn pfad_mit_slatch_matcht_relativ() {
    assert_eq!(find_args("src/**/*.rs").unwrap(), vec![".", "-path", "./src/**.rs"]);
    let found = hits("src/**/*.rs", "./src/main.rs\n./src/deep/nested.rs\n", &[]);
    assert!(found.contains(&"src/main.rs".to_string()), "{found:?}");
    assert!(found.contains(&"src/deep/nested.rs".to_string()), "{found:?}");
    assert_eq!(hits("*.md", "./README.md\n", &[]), vec!["README.md"]);
}

#[test]
fn findet_auch_verzeichnisse() {
    assert_eq!(hits("src", "./src\n", &["src"]), vec!["src/"]);
    assert_eq!(hits("deep", "./src/deep\n", &["src/deep"]), vec!["src/deep/"]);
    assert_eq!(hits("README.md", "./README.md\n", &[]), vec!["README.md"]);
}

#[test]
fn leeres_muster_wird_abgewiesen() {
    assert!(find_args("  ").is_err());
}

#[test]
fn ergebnisse_bleiben_an_der_decke_mit_hinweis_moeglich() {
    let listing: String = (0..5).map(|i| format!("./src/f{i}.txt\n")).collect();
    assert_eq!(hits("*.txt", &listing, &[]).len(), 5);
}

#[test]
fn load_liest_dateien_aufsteigend() {
    let levels = vec![
        vec!["*.log\n".to_string()],
        Vec::new(),
        vec!["target\n".to_string()],
    ];
    let filter = IgnoreFilter::from_levels(&levels);
    assert_eq!(filter.len(), 2, "2 Dateien, je 1 Regel");
    assert!(filter.is_ignored("target/debug"));
    assert!(filter.is_ignored("deep/app.log"));
    assert!(!filter.is_ignored("main.rs"));
}

#[test]
fn load_stopp_am_stop_at() {
    let filter = IgnoreFilter::from_levels(&vec![vec!["bar\n".to_string()]]);
    assert_eq!(filter.len(), 1);
    assert!(filter.is_ignored("bar/file"));
    assert!(!filter.is_ignored("foo/file"));
}

#[test]
fn dateipfad_und_verzeichnispfad_werden_unterschieden() {
    let (cwd, target) = split_search_path("/tmp/x/sub/a.rs", true);
    assert_eq!(cwd, "/tmp/x/sub");
    assert!(matches!(target, SearchTarget::File(name) if name == "a.rs"));
    let (cwd, target) = split_search_path("/tmp/x/sub", false);
    assert_eq!(cwd, "/tmp/x/sub");
    assert!(matches!(target, SearchTarget::Dir));
}

/// A search that goes on with grep because ripgrep cannot be run.
fn with_grep(pattern: &str) -> FileSearch {
    let mut search = FileSearch::new(pattern, SearchTarget::Dir, None, 0);
    assert_eq!(search.program(), "rg");
    assert!(search.step(Err("rg nicht startbar".to_string())).is_none());
    assert_eq!(search.program(), "grep");
    search
}

/// What a search with grep makes of an output.
fn grepped(pattern: &str, out: Result<RunOut, String>) -> Result<SearchResult, String> {
    let mut search = with_grep(pattern);
    for _ in 0..3 {
        if let Some(found) = search.step(out.clone()) {
            return found;
        }
    }
    panic!("the search does not end");
}

#[test]
fn grep_search_nutzt_ere_fuer_alternation() {
    let search = with_grep("cat|hat");
    assert!(search.args().contains(&"-E".to_string()), "{:?}", search.args());
    let found = grepped("cat|hat", printed(0, "f.txt:1:cat\nf.txt:2:cats\nf.txt:3:hat\n", ""));
    let found = found.unwrap();
    assert_eq!(found.matches.len(), 3, "{:?}", found.matches);
    assert_eq!(found.matches[0].path, "f.txt");
}

#[test]
fn grep_search_meldet_musterfehler_statt_leerer_treffer() {
    let bad = printed(2, "", "grep: Invalid preceding regular expression\n");
    match grepped("(?:a)", bad) {
        Err(msg) => assert!(msg.contains("nicht") || msg.contains("Muster"), "{msg}"),
        Ok(found) => panic!("no error: {found:?}"),
    }
}

#[test]
fn grep_fallback_findet_treffer_und_strippt_pfadpraefix() {
    let found = grepped("fn hallo", printed(0, "./src/lib.rs:1:pub fn hallo() {}\n", ""));
    let matches = found.unwrap().matches;
    assert_eq!(matches.len(), 1, "{matches:?}");
    assert_eq!(matches[0].path, "src/lib.rs", "kein ./-Präfix");
    assert!(matches[0].text.contains("fn hallo"));
}

#[test]
fn grep_fallback_keine_treffer_ist_kein_fehler() {
    let found = grepped("gibt-es-nicht", printed(1, "", ""));
    let matches = found.expect("keine Treffer ist kein Fehler").matches;
    assert!(matches.is_empty(), "{matches:?}");
}

#[test]
fn grep_fallback_folgt_keinen_symlinks_nach_aussen() {
    let args = with_grep("NUR-AUSSEN").args();
    assert!(args.iter().any(|a| a == "-r"), "{args:?}");
    assert!(!args.iter().any(|a| a == "-R"), "{args:?}");
    let found = grepped("NUR-INNEN", printed(0, "sub/eigen.txt:1:NUR-INNEN\n", ""));
    assert_eq!(found.unwrap().matches.len(), 1);
}

#[test]
fn is_repo_root_nur_bei_git_marker() {
    assert_eq!(
        is_repo_root("/base/repo", &GitMarker::Dir),
        RepoRoot::Yes,
        ".git/-Verzeichnis → Repo-Wurzel"
    );
    assert_eq!(
        is_repo_root("/base/repo/src", &GitMarker::Missing),
        RepoRoot::No,
        "Unterverzeichnis eines Repos ist KEINE Repo-Wurzel"
    );
    assert_eq!(is_repo_root("/base/plain", &GitMarker::Missing), RepoRoot::No);
    let pointer = "gitdir: /irgendwo/.git/worktrees/wt\n".to_string();
    assert_eq!(
        is_repo_root("/base/wt", &GitMarker::File(Some(pointer))),
        RepoRoot::IfExists("/irgendwo/.git/worktrees/wt".to_string()),
        "das Ziel entscheidet"
    );
    assert_eq!(is_repo_root("/base/wt", &GitMarker::File(None)), RepoRoot::No);
}

#[test]
fn default_image_erreicht_andere_worktrees() {
    let with_image = |path: &str, image: &str| {
        let mut paths = Table::new();
        paths.insert(path.to_string(), PathEntry { image: Some(image.to_string()) });
        Config { paths, ..Config::default() }
    };
    let top = "/base/repo";
    let wt = "/base/wt";
    let tops = vec![Some(top.to_string())];
    let config = with_image(top, "node:22");
    let keys = path_keys(&config);
    assert_eq!(
        default_image_for_path(&config, top, Some(top), &keys, &tops),
        Some("node:22".to_string())
    );
    assert_eq!(
        default_image_for_path(&config, wt, Some(top), &keys, &tops),
        Some("node:22".to_string())
    );
    let config2 = with_image(wt, "rust:1");
    let keys2 = path_keys(&config2);
    assert_eq!(
        default_image_for_path(&config2, top, Some(top), &keys2, &tops),
        Some("rust:1".to_string())
    );
    assert_eq!(default_image_for_path(&config, "/tmp", None, &keys, &tops), None);
}

#[test]
fn resolve_haltet_pfad_im_kanal() {
    let base = "/tmp/aidev-resolve";
    assert_eq!(resolve(base, "a/b.txt").unwrap(), format!("{base}/a/b.txt"));
    assert_eq!(resolve(base, "/a").unwrap(), format!("{base}/a"));
    assert_eq!(resolve(base, "./x").unwrap(), format!("{base}/x"));
    assert!(resolve(base, "../x").is_err());
    assert!(resolve(base, "a/../../x").is_err());
}

/// Walks along a path, with what stands at each of its places.
fn walked(rel: &str, probes: Vec<Probe>) -> Result<(), String> {
    let mut walk = RootWalk::begin("/base", "/base", rel)?;
    let mut progress = walk.look();
    for probe in probes {
        match progress {
            Progress::Look(_) => progress = walk.step(probe),
            _ => break,
        }
    }
    match progress {
        Progress::Fine => Ok(()),
        Progress::Refused(why) => Err(why),
        Progress::Look(next) => panic!("nothing is known of {next}"),
    }
}

#[test]
fn resolve_weist_symlink_escape_ab() {
    let out = |p: &str| Probe::Link(Some(p.to_string()));
    assert!(walked("evil/geheim.txt", vec![out("/outside"), Probe::File]).is_err());
    assert!(walked("leak.txt", vec![out("/outside/geheim.txt")]).is_err());
    assert!(walked("kaputt", vec![Probe::Link(None)]).is_err());
    assert!(walked("intern", vec![out("/base/ziel.txt")]).is_ok());
    assert!(walked("sub/x", vec![Probe::Dir, Probe::Missing]).is_ok());
}

#[test]
fn resolve_weist_kaputte_symlink_wurzel_ab() {
    assert!(unresolved_root("/tmp/aidev-symrootl", &vec![Some(true), Some(false)]).is_err());
}
