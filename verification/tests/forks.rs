//! Forks: where they live, how a host realizes them, and what the daemon keeps
//! of them.
use acyclic::fork::{
    forks_copy_root, forks_mount_root, forks_root, mount_capability, mount_setup_hint, short_id,
    ForkMode, MountKind, Platform,
};
use acyclic::path::HostPath;

fn path(text: &str) -> HostPath {
    HostPath::from_text(text)
}

#[test]
fn fork_forks_root_is_a_hidden_sibling() {
    let root = forks_root(&path("/work/my-repo")).expect("root");
    assert_eq!(root, path("/work/.my-repo.forks"));
}

#[test]
fn copy_root_sits_beside_mount_root() {
    let repo = path("/work/my-repo");
    assert_eq!(forks_copy_root(&repo).expect("copy"), path("/work/.my-repo.forks/copy"));
    assert_eq!(forks_mount_root(&repo).expect("mnt"), path("/work/.my-repo.forks/mnt"));
}

#[test]
fn forks_of_strange_names_stay_outside_the_repository() {
    for repo in ["/work/..name", "/work/ n\u{e9}", "name", "/a"] {
        let below = format!("{repo}/");
        for place in [forks_root, forks_mount_root, forks_copy_root] {
            let shown = place(&path(repo)).expect("place").display();
            assert_ne!(shown, repo);
            assert!(!shown.starts_with(&below), "{shown} is in {repo}");
        }
    }
}

#[test]
fn the_root_of_the_host_has_no_place_for_forks() {
    assert!(forks_root(&path("/")).is_none());
    assert!(forks_mount_root(&path("")).is_none());
    assert!(forks_copy_root(&path("/")).is_none());
}

#[test]
fn probe_names_a_provider_and_picks_a_mode() {
    let probes = [
        mount_capability(Some(MountKind::LinuxFuse), true, None),
        mount_capability(Some(MountKind::MacOsNfs), false, Some("blocked".to_owned())),
        mount_capability(None, false, Some("no provider".to_owned())),
    ];
    for capability in &probes {
        assert_ne!(capability.provider, "");
        assert_eq!(capability.available, capability.reason.is_none());
        assert_eq!(
            capability.fork_mode(),
            if capability.available {
                ForkMode::Mount
            } else {
                ForkMode::Copy
            }
        );
    }
    for platform in [Platform::Linux, Platform::MacOs, Platform::Windows, Platform::Other] {
        assert!(!mount_setup_hint(platform).is_empty());
    }
}

#[test]
fn providers_and_modes_have_their_names() {
    assert_eq!(mount_capability(Some(MountKind::LinuxFuse), true, None).provider, "fuse");
    assert_eq!(mount_capability(Some(MountKind::MacOsNfs), true, None).provider, "nfs loopback");
    assert_eq!(mount_capability(Some(MountKind::WindowsProjFs), true, None).provider, "projfs");
    assert_eq!(mount_capability(None, false, None).provider, "none");
    assert_eq!(mount_capability(None, false, None).reason_or_unknown(), "unknown reason");
    assert_eq!(ForkMode::Mount.as_str(), "mount");
    assert_eq!(ForkMode::Copy.as_str(), "copy");
}

#[test]
fn a_short_id_is_the_end_of_an_identifier() {
    let mut bytes = [0u8; 16];
    for i in 0..16 {
        bytes[i] = 0xf0 + i as u8;
    }
    assert_eq!(short_id(&bytes), "fafbfcfdfeff");
}
