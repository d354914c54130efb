//! Forks: writable trees beside the repository that never touch it until they
//! are promoted. Where they live, how they are realized on a host, and what
//! the host can do for them.
use vstd::prelude::*;
use vstd::utf8::*;
use crate::digest::hex_of;
use crate::path::{
    file_name_of, from_utf8_lossy, is_absolute, joined, law_joined_pieces, law_parent_and_name,
    lemma_encode_concat, lemma_no_slash_bytes, lemma_pieces_of_name, lossy_text, parent_of, pieces,
    HostPath,
};

verus! {

/// How a fork is realized on this host.
#[derive(Clone, Copy, Debug, PartialEq, Eq, Structural)]
pub enum ForkMode {
    /// Routed native mount: created at once, filled when read.
    Mount,
    /// Materialized directory: a full copy, captured back at promote.
    Copy,
}

/// The name of a mode.
pub open spec fn mode_text(mode: ForkMode) -> Seq<char> {
    match mode {
        ForkMode::Mount => "mount"@,
        ForkMode::Copy => "copy"@,
    }
}

impl ForkMode {
    /// The name of this mode.
    pub fn as_str(self) -> (r: &'static str)
        ensures
            r@ == mode_text(self),
    {
        match self {
            ForkMode::Mount => "mount",
            ForkMode::Copy => "copy",
        }
    }
}

/// The mount providers there are.
#[derive(Clone, Copy, Debug, PartialEq, Eq, Structural)]
pub enum MountKind {
    LinuxFuse,
    MacOsNfs,
    WindowsProjFs,
}

/// What the host can do for fork mounts.
#[derive(Debug)]
pub struct MountCapability {
    /// Human name of the provider.
    pub provider: &'static str,
    pub available: bool,
    /// Why not, when unavailable.
    pub reason: Option<String>,
}

/// The name of a mount provider.
pub open spec fn provider_text(kind: Option<MountKind>) -> Seq<char> {
    match kind {
        Some(MountKind::LinuxFuse) => "fuse"@,
        Some(MountKind::MacOsNfs) => "nfs loopback"@,
        Some(MountKind::WindowsProjFs) => "projfs"@,
        None => "none"@,
    }
}

impl MountCapability {
    /// How forks are realized with this capability.
    pub fn fork_mode(&self) -> (r: ForkMode)
        ensures
            r == if self.available { ForkMode::Mount } else { ForkMode::Copy },
    {
        if self.available {
            ForkMode::Mount
        } else {
            ForkMode::Copy
        }
    }

    /// Why there are no mounts, as it is told.
    pub fn reason_or_unknown(&self) -> (r: String)
        ensures
            r@ == match self.reason {
                Some(reason) => reason@,
                None => "unknown reason"@,
            },
    {
        match &self.reason {
            Some(reason) => reason.clone(),
            None => "unknown reason".to_owned(),
        }
    }
}

/// What the host can do, as a probe of its mount provider found it.
pub fn mount_capability(kind: Option<MountKind>, available: bool, reason: Option<String>) -> (r:
    MountCapability)
    ensures
        r.provider@ == provider_text(kind),
        r.available == available,
        r.reason == reason,
{
    let provider = match kind {
        Some(MountKind::LinuxFuse) => "fuse",
        Some(MountKind::MacOsNfs) => "nfs loopback",
        Some(MountKind::WindowsProjFs) => "projfs",
        None => "none",
    };
    MountCapability { provider, available, reason }
}

/// The systems that mounts are set up on.
#[derive(Clone, Copy, Debug, PartialEq, Eq, Structural)]
pub enum Platform {
    Linux,
    MacOs,
    Windows,
    Other,
}

pub const LINUX_HINT: &'static str = "forks will use full copies until /dev/fuse is usable. To enable mounts:\n  sudo modprobe fuse                          # load the kernel module\n  sudo usermod -aG fuse \"$USER\"               # if /dev/fuse is group-restricted; log in again\n  docker run --device /dev/fuse --cap-add SYS_ADMIN ...   # inside a container";

pub const MACOS_HINT: &'static str = "forks will use full copies: the built-in NFS mount tools (/sbin/mount_nfs, /sbin/umount)\nare missing or blocked by policy. No extra software is needed on macOS;\nask your administrator to allow loopback NFS mounts.";

pub const WINDOWS_HINT: &'static str = "forks will use full copies until the optional Windows Projected File System\nfeature is enabled and available to this process. Enable Client-ProjFS in\nWindows Features to use accelerated forks. ProjFS safely rejects cross-root\ndirectory moves that it cannot capture atomically.";

pub const OTHER_HINT: &'static str = "native mounts are not supported on this platform; forks use full copies.";

/// Instructions for making mounts available on a system, for a user whose host
/// has none.
pub fn mount_setup_hint(platform: Platform) -> (r: &'static str)
    ensures
        r@ == match platform {
            Platform::Linux => LINUX_HINT@,
            Platform::MacOs => MACOS_HINT@,
            Platform::Windows => WINDOWS_HINT@,
            Platform::Other => OTHER_HINT@,
        },
{
    match platform {
        Platform::Linux => LINUX_HINT,
        Platform::MacOs => MACOS_HINT,
        Platform::Windows => WINDOWS_HINT,
        Platform::Other => OTHER_HINT,
    }
}

/// Where a repository's fork workspaces live: a hidden sibling, outside the
/// working tree, so that capture never sees them.
pub open spec fn forks_home(repo: Seq<u8>) -> Option<Seq<u8>> {
    match (parent_of(repo), file_name_of(repo)) {
        (Some(parent), Some(name)) => Some(
            joined(parent, encode_utf8("."@ + lossy_text(name) + ".forks"@)),
        ),
        _ => None,
    }
}

/// A directory below where the forks live.
pub open spec fn forks_below(repo: Seq<u8>, name: Seq<char>) -> Option<Seq<u8>> {
    match forks_home(repo) {
        Some(root) => Some(joined(root, encode_utf8(name))),
        None => None,
    }
}

/// An optional path as optional bytes.
pub open spec fn opt_path(o: Option<HostPath>) -> Option<Seq<u8>> {
    match o {
        Some(p) => Some(p@),
        None => None,
    }
}

/// Whether a path is neither a repository nor below it.
pub open spec fn outside(repo: Seq<u8>, path: Seq<u8>) -> bool {
    !pieces(repo).is_prefix_of(pieces(path))
}

/// A hidden name beside a repository, and whatever is below it, stands outside
/// the repository.
proof fn lemma_beside(repo: Seq<u8>, text: Seq<char>, below: Seq<u8>)
    requires
        parent_of(repo) is Some,
        file_name_of(repo) is Some,
        valid_utf8(file_name_of(repo)->0) ==> text == decode_utf8(file_name_of(repo)->0),
        !text.contains('/'),
        !is_absolute(below),
    ensures
        ({
            let home = joined(parent_of(repo)->0, encode_utf8("."@ + text + ".forks"@));
            outside(repo, home) && outside(repo, joined(home, below))
        }),
{
    let name = file_name_of(repo)->0;
    let parent = parent_of(repo)->0;
    law_parent_and_name(repo);
    reveal_strlit(".");
    reveal_strlit(".forks");
    let whole = "."@ + text + ".forks"@;
    let tail = encode_utf8(whole);
    assert forall|i: int| 0 <= i < whole.len() implies whole[i] != '/' by {
        if 1 <= i < 1 + text.len() {
            assert(whole[i] == text[i - 1]);
        }
    }
    lemma_no_slash_bytes(whole);
    lemma_encode_concat("."@ + text, ".forks"@);
    lemma_encode_concat("."@, text);
    is_ascii_chars_encode_utf8("."@);
    is_ascii_chars_encode_utf8(".forks"@);
    let inner = encode_utf8(text);
    assert(tail == encode_utf8("."@) + inner + encode_utf8(".forks"@));
    assert(tail.len() == inner.len() + 7);
    encode_utf8_valid_utf8(whole);
    if valid_utf8(name) {
        decode_utf8_encode_utf8(name);
        assert(inner == name);
    }
    assert(tail != name);
    lemma_pieces_of_name(tail);
    law_joined_pieces(parent, tail);
    let home = joined(parent, tail);
    assert(pieces(parent) + seq![tail] =~= pieces(parent).push(tail));
    law_joined_pieces(home, below);
    let n = pieces(repo).len() - 1;
    assert(pieces(repo)[n] == name);
    assert(pieces(home)[n] == tail);
    assert(pieces(joined(home, below))[n] == tail);
}

/// Where a repository's fork workspaces live. It is outside the repository, so
/// that capture never sees them.
pub fn forks_root(repo_root: &HostPath) -> (r: Option<HostPath>)
    ensures
        opt_path(r) == forks_home(repo_root@),
        r matches Some(root) ==> outside(repo_root@, root@) && forall|below: Seq<u8>|
            !is_absolute(below) ==> outside(repo_root@, #[trigger] joined(root@, below)),
{
    let parent = match repo_root.parent() {
        Some(parent) => parent,
        None => {
            return None;
        },
    };
    match repo_root.file_name() {
        Some(bytes) => {
            let shown = from_utf8_lossy(bytes.as_slice());
            let mut name = ".".to_owned();
            name.append(shown.as_str());
            name.append(".forks");
            proof {
                law_parent_and_name(repo_root@);
                lemma_beside(repo_root@, shown@, Seq::empty());
                assert forall|below: Seq<u8>| !is_absolute(below) implies outside(
                    repo_root@,
                    #[trigger] joined(joined(parent@, encode_utf8(name@)), below),
                ) by {
                    lemma_beside(repo_root@, shown@, below);
                }
            }
            Some(parent.join(name.as_str()))
        },
        None => None,
    }
}

/// The one mountpoint below which every fork appears.
pub fn forks_mount_root(repo_root: &HostPath) -> (r: Option<HostPath>)
    ensures
        opt_path(r) == forks_below(repo_root@, "mnt"@),
        r matches Some(root) ==> outside(repo_root@, root@),
{
    proof {
        reveal_strlit("mnt");
        is_ascii_chars_encode_utf8("mnt"@);
    }
    match forks_root(repo_root) {
        Some(root) => Some(root.join("mnt")),
        None => None,
    }
}

/// Where copied forks live, beside the mountpoint.
pub fn forks_copy_root(repo_root: &HostPath) -> (r: Option<HostPath>)
    ensures
        opt_path(r) == forks_below(repo_root@, "copy"@),
        r matches Some(root) ==> outside(repo_root@, root@),
{
    proof {
        reveal_strlit("copy");
        is_ascii_chars_encode_utf8("copy"@);
    }
    match forks_root(repo_root) {
        Some(root) => Some(root.join("copy")),
        None => None,
    }
}

/// The short id of a fork: the random end of a fresh identifier. Identifiers
/// lead with the time, which is the same in calls close to each other.
pub fn short_id(bytes: &[u8; 16]) -> (r: String)
    ensures
        r@ == hex_of(bytes@.skip(10)),
{
    let tail = crate::path::copy_range(bytes.as_slice(), 10, 16);
    assert(tail@ =~= bytes@.skip(10));
    crate::digest::bytes_hex(tail.as_slice())
}

/// Forks that are mounted and forks that are copied live apart, neither below
/// the other.
pub proof fn law_mounts_and_copies_keep_apart(repo: Seq<u8>, mounted: Seq<u8>, copied: Seq<u8>)
    requires
        forks_below(repo, "mnt"@) == Some(mounted),
        forks_below(repo, "copy"@) == Some(copied),
    ensures
        mounted != copied,
        !pieces(mounted).is_prefix_of(pieces(copied)),
        !pieces(copied).is_prefix_of(pieces(mounted)),
{
    reveal_strlit("mnt");
    reveal_strlit("copy");
    let home = forks_home(repo)->0;
    let (m, c) = (encode_utf8("mnt"@), encode_utf8("copy"@));
    is_ascii_chars_encode_utf8("mnt"@);
    is_ascii_chars_encode_utf8("copy"@);
    lemma_no_slash_bytes("mnt"@);
    lemma_no_slash_bytes("copy"@);
    lemma_pieces_of_name(m);
    lemma_pieces_of_name(c);
    law_joined_pieces(home, m);
    law_joined_pieces(home, c);
    assert(m.len() != c.len());
    let n = pieces(home).len() as int;
    assert(pieces(mounted)[n] == m);
    assert(pieces(copied)[n] == c);
}

} // verus!
