//! Channels in containers.

use aidev::channel::podman::PodmanChannel;
use aidev::channel::{Channel, PodmanMode};
use aidev::config::PodmanUserMapping;

#[test]
fn podman_run_spec_liefert_image_workdir_home() {
    let ch = PodmanChannel::new_run(
        "feature",
        "aidev-feature",
        "/work/proj/.aidev/wt-feature",
        "docker.io/library/node:22",
        "/usr/src/app",
        30,
        1000,
        1000,
        "/home/dev".to_string(),
        PodmanUserMapping::KeepId,
    );
    assert_eq!(
        ch.podman_run_spec(),
        Some((
            "docker.io/library/node:22".to_string(),
            "/usr/src/app".to_string(),
            "/home/dev".to_string(),
        ))
    );
}

#[test]
fn podman_run_spec_ohne_image_ist_none() {
    let mut ch = PodmanChannel::new_run(
        "shared",
        "aidev-shared",
        "/work/proj",
        "",
        "/work",
        30,
        0,
        0,
        String::new(),
        PodmanUserMapping::KeepId,
    );
    ch.mode = PodmanMode::Attach;
    assert_eq!(ch.podman_run_spec(), None);
}
