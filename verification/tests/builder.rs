//! Images, paths, worktrees and containers that the builder offers.

use aidev::channel::builder::{
    collect_host_paths, image_names_equal, image_short_name, normalize_image_name,
    relative_to_base, run_channel_name, run_container_name, HostPath, Tunnel,
};
use aidev::config::PathEntry;
use aidev::table::Table;

#[test]
fn tunnel_label() {
    assert_eq!(Tunnel::Local.label(), "local");
    assert_eq!(
        Tunnel::Image {
            name: "node:22".into(),
            working_dir: None
        }
        .label(),
        "node"
    );
    assert_eq!(
        Tunnel::Image {
            name: "docker.io/library/node:22".into(),
            working_dir: None
        }
        .label(),
        "node"
    );
    assert_eq!(
        Tunnel::Image {
            name: "ghcr.io/org/repo:latest".into(),
            working_dir: None
        }
        .label(),
        "repo"
    );
}

#[test]
fn normalize_image_name_variants() {
    assert_eq!(normalize_image_name("alpine"), "alpine");
    assert_eq!(normalize_image_name("node:22"), "node:22");
    assert_eq!(
        normalize_image_name("docker.io/library/alpine:latest"),
        "alpine"
    );
    assert_eq!(normalize_image_name("docker.io/library/node:22"), "node:22");
    assert_eq!(normalize_image_name("localhost/foo:latest"), "foo");
    assert_eq!(
        normalize_image_name("ghcr.io/org/repo:latest"),
        "ghcr.io/org/repo"
    );
}

#[test]
fn image_names_equal_variants() {
    assert!(image_names_equal(
        "alpine",
        "docker.io/library/alpine:latest"
    ));
    assert!(image_names_equal("node:22", "docker.io/library/node:22"));
    assert!(image_names_equal("foo", "localhost/foo"));
    assert!(!image_names_equal("alpine", "alpine:3.20"));
    assert!(!image_names_equal("alpine", "ghcr.io/x/alpine"));
}

#[test]
fn image_short_name_variants() {
    assert_eq!(image_short_name("alpine"), "alpine");
    assert_eq!(
        image_short_name("docker.io/library/alpine:latest"),
        "alpine"
    );
    assert_eq!(image_short_name("ghcr.io/org/repo:v2"), "repo");
}

#[test]
fn run_channel_name_ist_imagename_und_hostpfad() {
    let p = "/home/work/proj/.aidev/wt-feature";
    assert_eq!(
        run_channel_name("docker.io/library/alpine:latest", p),
        "alpine /home/work/proj/.aidev/wt-feature"
    );
    assert_eq!(
        run_channel_name("node:22", "/repo"),
        "node /repo"
    );
}

#[test]
fn run_container_name_mit_und_ohne_branch() {
    assert_eq!(
        run_container_name("proj", Some("feature/x"), "docker.io/library/alpine:latest"),
        "aidev-proj-feature-x-alpine"
    );
    assert_eq!(
        run_container_name("mein-tool", None, "alpine"),
        "aidev-mein-tool-alpine"
    );
    assert_eq!(
        run_container_name("Mein Proj", Some("Feature/X"), "Node:22"),
        "aidev-mein-proj-feature-x-node"
    );
}

#[test]
fn host_path_label() {
    let hp = HostPath {
        path: "/home/test".to_string(),
    };
    assert_eq!(hp.label(), "/home/test");
}

#[test]
fn relative_to_base_unter_basis() {
    assert_eq!(
        relative_to_base("/home/proj/.aidev/wt-a", "/home/proj"),
        ".aidev/wt-a"
    );
}

#[test]
fn relative_to_base_auf_basis() {
    assert_eq!(
        relative_to_base("/home/proj", "/home/proj"),
        "."
    );
}

#[test]
fn relative_to_base_geschwaestertes_worktree() {
    assert_eq!(
        relative_to_base(
            "/home/proj/.aidev/wt-b",
            "/home/proj/.aidev/wt-a"
        ),
        "../wt-b"
    );
}

#[test]
fn relative_to_base_ueber_basis_hinaus() {
    assert_eq!(
        relative_to_base("/home/proj", "/home/proj/.aidev/wt-a"),
        "../.."
    );
}

#[test]
fn collect_deduplicates() {
    let mut config_paths = Table::new();
    config_paths.insert(
        "/tmp/test".to_string(),
        PathEntry {
            image: Some("rust:latest".into()),
        },
    );
    let paths = collect_host_paths(&config_paths, Some("/work/here"), None);
    assert!(!paths.is_empty(), "mindestens Config + CWD");
    assert_eq!(paths.len(), 2);
    let again = collect_host_paths(&config_paths, Some("/tmp/test"), Some("/tmp/test/"));
    assert_eq!(again.len(), 1, "each path once");
}
