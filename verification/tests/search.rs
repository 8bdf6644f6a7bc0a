//! Searching files.

use aidev::channel::search::{is_excluded_path, normalize_raw, FileSearch, SearchTarget};

#[test]
fn include_landet_als_glob_bei_rg() {
    let search = FileSearch::new("x", SearchTarget::Dir, Some("*.rs".to_string()), 0);
    let args = search.args();
    assert!(args.contains(&"--glob=*.rs".to_string()));
}

#[test]
fn roh_ausdruck_verliert_punkt_schraeg_praefix() {
    let raw = normalize_raw("./src/a.rs:3:x\n--\n./src/a.rs-2-kontext\n");
    assert_eq!(raw, "src/a.rs:3:x\n--\nsrc/a.rs-2-kontext");
}

#[test]
fn excluded_path_filtert_auch_verschachtelte_pfade() {
    assert!(is_excluded_path("target/x.rs"));
    assert!(is_excluded_path(".git/config"));
    assert!(is_excluded_path("node_modules/pkg/main.js"));
    assert!(is_excluded_path("src/target/nested.rs"), "verschachteltes target muss raus");
    assert!(is_excluded_path("vendor/node_modules/deep.txt"), "verschachteltes node_modules muss raus");
    assert!(!is_excluded_path("src/main.rs"));
    assert!(!is_excluded_path("targets/keep.rs"));
}
