//! The daemon of a repository: what each operation is answered at once, what
//! it has the engine do, and what is made of what came of it. The daemon holds
//! the forks, the Safe Mode session that shadows the repository, and the
//! sessions that were resolved but neither applied nor discarded.
use vstd::prelude::*;
use crate::brief::{plan_brief, plans, BriefPlan};
use crate::diff::{content_changes, content_of, FileChange};
use crate::digest::{generation_hex, hex_of, GenerationId};
use crate::fork::{
    forks_copy_root, forks_mount_root, mode_text, mount_setup_hint, opt_path, ForkMode, MountCapability,
    Platform,
};
use crate::history::{
    annotate_ignored, are_sessions, are_turns, diff_rows, inspect, is_diff_base, is_diff_end,
    is_diff_entry, is_inspect, is_target, is_timeline, no_diff, no_target, resolve_target, sessions,
    timeline, turns,
};
use crate::index::{kind_name, Attribution, CheckpointKind, CheckpointRow, Index};
use crate::path::{lossy_text, path_of, HostPath};
use crate::pipeline::{state_text, CheckpointOutcome, StatusReport};
use crate::promote::Landed;
use crate::proto::{
    clone_entry, CheckpointInfo, ConflictEntry, ConflictInfo, DiffEntry, ForkEntry, Op, PromoteInfo,
    Reply, RestoreInfo, RewindInfo, SessionPendingInfo, StatusInfo, TurnInfo,
};
use crate::restore::{RestoreAction, RestoreOutcome};
use crate::rewind::RewindOutcome;
use crate::sorting::{is_number_order, number_order};
use crate::text::{
    begins, copy_opt, debug_of, debug_text, opt_is, opt_text, text_begins, text_eq,
};

verus! {

/// How many forks one request may make.
pub const MAX_FORKS: u32 = 16;

/// One live fork.
#[derive(Debug)]
pub struct ForkState {
    /// The generation that promote is judged against: where the fork was cut,
    /// or the head that a conflicting promote rebased it onto.
    pub base: GenerationId,
    pub entry: ForkEntry,
    /// Of a copied fork, the directory that the user works in.
    pub copy_dir: Option<HostPath>,
    /// The paths of a conflict that a promote wrote into the workspace, until
    /// its markers are gone.
    pub conflict: Option<Vec<HostPath>>,
}

/// A Safe Mode session: its fork shadows the repository. There is one at most.
#[derive(Debug)]
pub struct DrySession {
    pub fork_id: String,
    pub session_id: String,
    pub base: GenerationId,
}

/// A session that was resolved and awaits being applied or discarded. Nothing
/// of it has touched the real tree.
#[derive(Debug)]
pub struct PendingSession {
    pub session_id: String,
    pub generation: GenerationId,
    pub base: GenerationId,
    pub label: String,
}

/// What the daemon knows.
#[derive(Debug)]
pub struct Server {
    pub repo_root: HostPath,
    pub mounts: MountCapability,
    pub platform: Platform,
    /// Whether every session runs in Safe Mode.
    pub dry_run: bool,
    pub forks: Vec<ForkState>,
    pub dry: Option<DrySession>,
    pub pending: Vec<PendingSession>,
}

/// What an operation has the engine do.
#[derive(Debug)]
#[allow(inconsistent_fields)]
pub enum Job {
    Status,
    /// Capture a checkpoint; the reply waits for it where `wait` is set.
    Checkpoint { kind: CheckpointKind, attribution: Attribution, wait: bool, durable: bool },
    TurnStart { session_id: String, prompt: String },
    Brief { plan: BriefPlan },
    RestorePath { row: CheckpointRow, path: HostPath },
    Rewind { row: CheckpointRow },
    Diff { before: GenerationId, after: GenerationId },
    SessionStart { session_id: String, host: String },
    SessionEnd { session_id: String },
    Commit,
    /// Unmount the shadow and every fork, and end.
    Stop { shadow: Option<DrySession> },
    /// Cut forks and give each a workspace below a directory.
    Fork { count: u32, session_id: Option<String>, mode: ForkMode, root: HostPath },
    Drop { fork: ForkState },
    Promote { fork: ForkState },
    ForkDiff { id: String, base: GenerationId, copy_dir: Option<HostPath> },
    /// Cut a fork and mount it over the repository.
    Shadow { session_id: String },
    /// Unmount the shadow and commit what it holds under a label.
    Resolve { session: DrySession, label: String },
    /// Make a resolved session the tree.
    Apply { session: PendingSession },
}

/// How an operation begins: it is answered, or the engine has to work.
#[derive(Debug)]
pub enum Begun {
    Answered(Result<Reply, String>),
    Work(Job),
}

/// Whether a fork has another id.
pub open spec fn other_fork(id: Seq<char>) -> spec_fn(ForkState) -> bool {
    |f: ForkState| f.entry.id@ != id
}

/// The forks without the one of an id.
pub open spec fn without(forks: Seq<ForkState>, id: Seq<char>) -> Seq<ForkState> {
    forks.filter(other_fork(id))
}

/// Whether a pending session is another.
pub open spec fn other_session(id: Seq<char>) -> spec_fn(PendingSession) -> bool {
    |p: PendingSession| p.session_id@ != id
}

/// The pending sessions without that of an id.
pub open spec fn without_session(pending: Seq<PendingSession>, id: Seq<char>) -> Seq<PendingSession> {
    pending.filter(other_session(id))
}

/// Whether a fork is no scratch tree of a session.
pub open spec fn not_scratch(session: Seq<char>) -> spec_fn(ForkState) -> bool {
    |f: ForkState| opt_text(f.entry.session_id) != Some(session)
}

/// Whether a fork is a scratch tree of a session.
pub open spec fn scratch(session: Seq<char>) -> spec_fn(ForkState) -> bool {
    |f: ForkState| opt_text(f.entry.session_id) == Some(session)
}

/// Whether the end of a session drops its scratch trees and keeps the rest.
pub open spec fn drops_scratch(
    before: Seq<ForkState>,
    session: Seq<char>,
    after: Seq<ForkState>,
    dropped: Seq<ForkState>,
) -> bool {
    after == before.filter(not_scratch(session)) && dropped == before.filter(scratch(session))
}

/// Whether no two forks have the same id.
pub open spec fn distinct_forks(forks: Seq<ForkState>) -> bool {
    forall|i: int, j: int|
        0 <= i < j < forks.len() ==> (#[trigger] forks[i]).entry.id@ != (#[trigger] forks[j]).entry.id@
}

/// Whether no two pending sessions have the same id.
pub open spec fn distinct_pending(pending: Seq<PendingSession>) -> bool {
    forall|i: int, j: int|
        0 <= i < j < pending.len() ==> (#[trigger] pending[i]).session_id@ != (
        #[trigger] pending[j]).session_id@
}

/// Whether a fork has an id.
pub open spec fn has_fork(forks: Seq<ForkState>, id: Seq<char>) -> bool {
    exists|i: int| 0 <= i < forks.len() && (#[trigger] forks[i]).entry.id@ == id
}

/// Whether a pending session has an id.
pub open spec fn has_pending(pending: Seq<PendingSession>, id: Seq<char>) -> bool {
    exists|i: int| 0 <= i < pending.len() && (#[trigger] pending[i]).session_id@ == id
}

/// The kinds of checkpoint that a caller may ask for.
pub open spec fn asked_kind(text: Seq<char>, kind: CheckpointKind) -> bool {
    &&& kind == CheckpointKind::Pre || kind == CheckpointKind::Post || kind
        == CheckpointKind::Manual
    &&& text == kind_name(kind)
}

/// The kind of checkpoint that a caller asks for.
pub fn parse_kind(kind: &str) -> (r: Result<CheckpointKind, String>)
    ensures
        match r {
            Ok(k) => asked_kind(kind@, k),
            Err(message) => {
                &&& forall|k: CheckpointKind| !#[trigger] asked_kind(kind@, k)
                &&& message@ == "unknown checkpoint kind "@ + debug_of(kind@)
            },
        },
{
    if text_eq(kind, "pre") {
        Ok(CheckpointKind::Pre)
    } else if text_eq(kind, "post") {
        Ok(CheckpointKind::Post)
    } else if text_eq(kind, "manual") {
        Ok(CheckpointKind::Manual)
    } else {
        let mut message = "unknown checkpoint kind ".to_owned();
        message.append(debug_text(kind).as_str());
        Err(message)
    }
}

/// Whether an entry is told as another.
pub open spec fn same_entry(a: ForkEntry, b: ForkEntry) -> bool {
    a == (ForkEntry { conflict_paths: a.conflict_paths, ..b }) && a.conflict_paths@
        == b.conflict_paths@
}

/// When forks were made.
pub open spec fn created(forks: Seq<ForkState>) -> Seq<i64> {
    forks.map_values(|f: ForkState| f.entry.created_at)
}

/// Whether entries are those of the forks in the order they were made.
pub open spec fn are_listed(forks: Seq<ForkState>, entries: Seq<ForkEntry>) -> bool {
    exists|order: Seq<usize>| #[trigger]
        is_number_order(created(forks), order) && entries.len() == forks.len() && forall|i: int|
            0 <= i < entries.len() ==> same_entry(
                #[trigger] entries[i],
                forks[order[i] as int].entry,
            )
}

/// Where forks of a mode live.
pub open spec fn forks_place(repo: Seq<u8>, mode: ForkMode) -> Option<Seq<u8>> {
    match mode {
        ForkMode::Mount => crate::fork::forks_below(repo, "mnt"@),
        ForkMode::Copy => crate::fork::forks_below(repo, "copy"@),
    }
}

/// What is said where there is no place for forks.
pub const NO_PLACE: &'static str = "repo root has no parent for fork workspaces";

/// Why Safe Mode is off on a host without mounts.
pub open spec fn no_mounts_text(mounts: MountCapability, platform: Platform) -> Seq<char> {
    "Safe Mode needs a mount provider and this host has none ("@ + match mounts.reason {
        Some(reason) => reason@,
        None => "unknown reason"@,
    } + ").\n"@ + match platform {
        Platform::Linux => crate::fork::LINUX_HINT@,
        Platform::MacOs => crate::fork::MACOS_HINT@,
        Platform::Windows => crate::fork::WINDOWS_HINT@,
        Platform::Other => crate::fork::OTHER_HINT@,
    }
}

/// Whether a result refuses with a message.
pub open spec fn refuses(r: Begun, message: Seq<char>) -> bool {
    r matches Begun::Answered(Err(m)) && m@ == message
}

/// What follows the start of a session.
pub open spec fn follows_start(s: Server, session_id: String, r: Begun) -> bool {
    if s.dry_run {
        shadows(s, session_id, r)
    } else {
        r == Begun::Answered(Ok(Reply::Unit))
    }
}

/// How a Safe Mode session begins: only on a host with mounts, and one at a
/// time.
pub open spec fn shadows(s: Server, session_id: String, r: Begun) -> bool {
    if !s.mounts.available {
        refuses(r, no_mounts_text(s.mounts, s.platform))
    } else if s.dry is Some {
        refuses(r, "a Safe Mode session is already active for this repo"@)
    } else {
        r matches Begun::Work(Job::Shadow { session_id: id }) && id@ == session_id@
    }
}

/// What an operation reads from the index.
pub open spec fn reads(s: Server, index: Index, op: Op, r: Begun) -> bool {
    match op {
        Op::Timeline { session_id, turn, limit } => r matches Begun::Answered(answer) && match answer {
            Ok(reply) => reply matches Reply::Timeline(entries) && is_timeline(
                index,
                opt_text(session_id),
                turn,
                limit as nat,
                Ok(entries),
            ),
            Err(message) => is_timeline(
                index,
                opt_text(session_id),
                turn,
                limit as nat,
                Err(message),
            ),
        },
        Op::Turns { session_id } => r matches Begun::Answered(Ok(Reply::Turns(entries)))
            && are_turns(index, opt_text(session_id), entries@),
        Op::Inspect { checkpoint } => r matches Begun::Answered(answer) && match answer {
            Ok(reply) => reply matches Reply::Inspect(info) && is_inspect(
                index,
                checkpoint,
                Ok(info),
            ),
            Err(message) => is_inspect(index, checkpoint, Err(message)),
        },
        Op::Sessions { limit } => r matches Begun::Answered(Ok(Reply::Sessions(entries)))
            && are_sessions(index, limit as nat, entries@),
        Op::Brief { current } => r matches Begun::Work(Job::Brief { plan }) && plans(
            index,
            opt_text(current),
            plan,
        ),
        Op::Rewind { target, path } => match r {
            Begun::Work(Job::RestorePath { row, path: p }) => path is Some && is_target(
                index,
                target,
                row,
            ) && p@ == vstd::utf8::encode_utf8(path->0@),
            Begun::Work(Job::Rewind { row }) => path is None && is_target(index, target, row),
            Begun::Answered(Err(message)) => no_target(index, target, message@),
            _ => false,
        },
        Op::Diff { before, after, before_hex, after_hex } => match r {
            Begun::Work(Job::Diff { before: x, after: y }) => exists|a: CheckpointRow, b: CheckpointRow|
                #[trigger] is_diff_base(index, before, before_hex, a) && #[trigger] is_diff_end(
                    index,
                    after,
                    after_hex,
                    b,
                ) && x == a.generation && y == b.generation,
            Begun::Answered(Err(message)) => no_diff(
                index,
                before,
                before_hex,
                after,
                after_hex,
                message@,
            ),
            _ => false,
        },
        _ => false,
    }
}

/// How an operation on forks or Safe Mode sessions begins, and what it leaves
/// the daemon with.
pub open spec fn works(s: Server, op: Op, t: Server, r: Begun) -> bool {
    match op {
        Op::Fork { count, session_id } => t == s && {
            let mode = if s.mounts.available { ForkMode::Mount } else { ForkMode::Copy };
            if count == 0 || count > MAX_FORKS {
                refuses(r, "fork count must be 1..=16"@)
            } else {
                match forks_place(s.repo_root@, mode) {
                    None => refuses(r, NO_PLACE@),
                    Some(place) => r matches Begun::Work(
                        Job::Fork { count: n, session_id: id, mode: m, root },
                    ) && n == count && id == session_id && m == mode && root@ == place,
                }
            }
        },
        Op::ForkList => t == s && (r matches Begun::Answered(Ok(Reply::Forks(entries)))
            && are_listed(s.forks@, entries@)),
        Op::ForkDrop { id } => if has_fork(s.forks@, id@) {
            &&& r matches Begun::Work(Job::Drop { fork }) && fork.entry.id@ == id@
                && s.forks@.contains(fork)
            &&& t == (Server { forks: t.forks, ..s }) && t.forks@ == without(s.forks@, id@)
        } else {
            t == s && refuses(r, "no fork "@ + id@)
        },
        Op::Promote { id } => if has_fork(s.forks@, id@) {
            &&& r matches Begun::Work(Job::Promote { fork }) && fork.entry.id@ == id@
                && s.forks@.contains(fork)
            &&& t == (Server { forks: t.forks, ..s }) && t.forks@ == without(s.forks@, id@)
        } else {
            t == s && refuses(r, "no fork "@ + id@)
        },
        Op::ForkDiff { id } => t == s && if has_fork(s.forks@, id@) {
            r matches Begun::Work(Job::ForkDiff { id: of, base, copy_dir }) && of@ == id@ && exists|
                i: int,
            |
                0 <= i < s.forks@.len() && (#[trigger] s.forks@[i]).entry.id@ == id@
                    && s.forks@[i].base == base && opt_path(s.forks@[i].copy_dir) == opt_path(
                    copy_dir,
                )
        } else {
            refuses(r, "no fork "@ + id@)
        },
        Op::SessionFork { session_id } => t == s && shadows(s, session_id, r),
        Op::SessionResolve { session_id } => {
            &&& t == (Server { dry: None, ..s })
            &&& if s.dry is Some && s.dry->0.session_id@ == session_id@ {
                r matches Begun::Work(Job::Resolve { session, label }) && session == s.dry->0
                    && label@ == "safe mode session "@ + session.fork_id@
            } else {
                refuses(r, "no active Safe Mode session "@ + session_id@)
            }
        },
        Op::SessionApply { session_id } => if has_pending(s.pending@, session_id@) {
            &&& r matches Begun::Work(Job::Apply { session }) && session.session_id@ == session_id@
                && s.pending@.contains(session)
            &&& t == (Server { pending: t.pending, ..s }) && t.pending@ == without_session(
                s.pending@,
                session_id@,
            )
        } else {
            t == s && refuses(r, "no resolved Safe Mode session "@ + session_id@)
        },
        Op::SessionDiscard { session_id } => {
            &&& r == Begun::Answered(Ok(Reply::Unit))
            &&& t == (Server { pending: t.pending, ..s }) && t.pending@ == without_session(
                s.pending@,
                session_id@,
            )
        },
        Op::Stop => {
            &&& r == Begun::Work(Job::Stop { shadow: s.dry })
            &&& t == (Server { forks: t.forks, pending: t.pending, dry: None, ..s })
            &&& t.forks@.len() == 0 && t.pending@.len() == 0
        },
        _ => false,
    }
}

/// How an operation begins, and what it leaves the daemon with.
pub open spec fn begun(s: Server, index: Index, op: Op, t: Server, r: Begun) -> bool {
    match op {
        Op::Ping => t == s && r == Begun::Answered(Ok(Reply::Pong)),
        Op::Status => t == s && r == Begun::Work(Job::Status),
        Op::Checkpoint { kind, session_id, tool_call_id, tool_name, label, wait, durable } => t
            == s && match r {
            Begun::Work(Job::Checkpoint { kind: k, attribution, wait: w, durable: d }) => {
                &&& asked_kind(kind@, k)
                &&& attribution == (Attribution {
                    session_id,
                    tool_call_id,
                    tool_name,
                    label,
                    turn: None,
                    rewind_target: None,
                })
                &&& w == wait && d == durable
            },
            Begun::Answered(Err(message)) => {
                &&& forall|k: CheckpointKind| !#[trigger] asked_kind(kind@, k)
                &&& message@ == "unknown checkpoint kind "@ + debug_of(kind@)
            },
            _ => false,
        },
        Op::TurnStart { session_id, prompt } => t == s && r == Begun::Work(
            Job::TurnStart { session_id, prompt },
        ),
        Op::SessionStart { session_id, host } => t == s && r == Begun::Work(
            Job::SessionStart { session_id, host },
        ),
        Op::SessionEnd { session_id } => t == s && r == Begun::Work(Job::SessionEnd { session_id }),
        Op::Commit => t == s && r == Begun::Work(Job::Commit),
        Op::Timeline { .. }
        | Op::Turns { .. }
        | Op::Inspect { .. }
        | Op::Sessions { .. }
        | Op::Brief { .. }
        | Op::Rewind { .. }
        | Op::Diff { .. } => t == s && reads(s, index, op, r),
        _ => works(s, op, t, r),
    }
}

/// The text of an optional text.
fn as_text(o: &Option<String>) -> (r: Option<&str>)
    ensures
        crate::text::opt_str(r) == opt_text(*o),
{
    match o {
        Some(t) => Some(t.as_str()),
        None => None,
    }
}

/// A message that ends in a name.
fn naming(lead: &str, name: &String) -> (r: String)
    ensures
        r@ == lead@ + name@,
{
    let mut message = lead.to_owned();
    message.append(name.as_str());
    message
}

/// A copy of an optional path.
fn copy_path(o: &Option<HostPath>) -> (r: Option<HostPath>)
    ensures
        opt_path(r) == opt_path(*o),
{
    match o {
        Some(p) => Some(p.clone()),
        None => None,
    }
}

impl Server {
    /// Whether forks and pending sessions are told apart by their ids.
    pub open spec fn wf(self) -> bool {
        distinct_forks(self.forks@) && distinct_pending(self.pending@)
    }

    /// A daemon at its start.
    pub fn new(repo_root: HostPath, mounts: MountCapability, platform: Platform, dry_run: bool) -> (r:
        Server)
        ensures
            r.wf(),
            r.repo_root == repo_root,
            r.mounts == mounts,
            r.platform == platform,
            r.dry_run == dry_run,
            r.forks@.len() == 0,
            r.dry is None,
            r.pending@.len() == 0,
    {
        Server {
            repo_root,
            mounts,
            platform,
            dry_run,
            forks: Vec::new(),
            dry: None,
            pending: Vec::new(),
        }
    }

    /// The position of the fork of an id.
    fn find_fork(&self, id: &str) -> (r: Option<usize>)
        ensures
            match r {
                Some(i) => i < self.forks@.len() && self.forks@[i as int].entry.id@ == id@,
                None => !has_fork(self.forks@, id@),
            },
    {
        let mut i: usize = 0;
        while i < self.forks.len()
            invariant
                i <= self.forks@.len(),
                forall|j: int| 0 <= j < i ==> (#[trigger] self.forks@[j]).entry.id@ != id@,
            decreases self.forks.len() - i,
        {
            if text_eq(self.forks[i].entry.id.as_str(), id) {
                return Some(i);
            }
            i += 1;
        }
        None
    }

    /// Takes the fork of an id out.
    fn take_fork(&mut self, id: &str) -> (r: Option<ForkState>)
        requires
            old(self).wf(),
        ensures
            final(self).wf(),
            match r {
                Some(fork) => {
                    &&& fork.entry.id@ == id@
                    &&& old(self).forks@.contains(fork)
                    &&& *final(self) == (Server { forks: final(self).forks, ..*old(self) })
                    &&& final(self).forks@ == without(old(self).forks@, id@)
                    &&& has_fork(old(self).forks@, id@)
                },
                None => *final(self) == *old(self) && !has_fork(old(self).forks@, id@),
            },
    {
        match self.find_fork(id) {
            Some(i) => {
                proof {
                    crate::vecs::lemma_filter_but_one(self.forks@, other_fork(id@), i as int);
                }
                let fork = self.forks.remove(i);
                assert(old(self).forks@[i as int] == fork);
                Some(fork)
            },
            None => None,
        }
    }

    /// Takes the pending session of an id out.
    fn take_pending(&mut self, id: &str) -> (r: Option<PendingSession>)
        requires
            old(self).wf(),
        ensures
            final(self).wf(),
            *final(self) == (Server { pending: final(self).pending, ..*old(self) }),
            final(self).pending@ == without_session(old(self).pending@, id@),
            match r {
                Some(session) => {
                    &&& session.session_id@ == id@
                    &&& old(self).pending@.contains(session)
                    &&& has_pending(old(self).pending@, id@)
                },
                None => *final(self) == *old(self) && !has_pending(old(self).pending@, id@),
            },
    {
        let mut i: usize = 0;
        while i < self.pending.len()
            invariant
                *self == *old(self),
                i <= self.pending@.len(),
                self.wf(),
                forall|j: int| 0 <= j < i ==> (#[trigger] self.pending@[j]).session_id@ != id@,
            decreases self.pending.len() - i,
        {
            if text_eq(self.pending[i].session_id.as_str(), id) {
                proof {
                    crate::vecs::lemma_filter_but_one(
                        self.pending@,
                        other_session(id@),
                        i as int,
                    );
                }
                let session = self.pending.remove(i);
                assert(old(self).pending@[i as int] == session);
                return Some(session);
            }
            i += 1;
        }
        proof {
            crate::vecs::lemma_filter_all(self.pending@, other_session(id@));
        }
        None
    }

    /// The forks in the order they were made.
    pub fn fork_list(&self) -> (r: Vec<ForkEntry>)
        ensures
            are_listed(self.forks@, r@),
    {
        let mut keys: Vec<i64> = Vec::new();
        let mut i: usize = 0;
        while i < self.forks.len()
            invariant
                i <= self.forks@.len(),
                keys@ =~= created(self.forks@.take(i as int)),
            decreases self.forks.len() - i,
        {
            keys.push(self.forks[i].entry.created_at);
            i += 1;
        }
        assert(self.forks@.take(i as int) =~= self.forks@);
        let order = number_order(&keys);
        let mut out: Vec<ForkEntry> = Vec::new();
        let mut k: usize = 0;
        while k < order.len()
            invariant
                k <= order@.len(),
                out@.len() == k,
                keys@.len() == self.forks@.len(),
                is_number_order(keys@, order@),
                forall|j: int|
                    0 <= j < k ==> same_entry(
                        #[trigger] out@[j],
                        self.forks@[order@[j] as int].entry,
                    ),
            decreases order.len() - k,
        {
            out.push(clone_entry(&self.forks[order[k]].entry));
            k += 1;
        }
        out
    }

    /// How a Safe Mode session begins.
    pub fn shadow(&self, session_id: String) -> (r: Begun)
        ensures
            shadows(*self, session_id, r),
    {
        if !self.mounts.available {
            let mut message = "Safe Mode needs a mount provider and this host has none (".to_owned();
            message.append(self.mounts.reason_or_unknown().as_str());
            message.append(").\n");
            message.append(mount_setup_hint(self.platform));
            return Begun::Answered(Err(message));
        }
        if self.dry.is_some() {
            return Begun::Answered(
                Err("a Safe Mode session is already active for this repo".to_owned()),
            );
        }
        Begun::Work(Job::Shadow { session_id })
    }

    /// What an operation reads from the index.
    fn begin_read(&self, op: Op, index: &Index) -> (r: Begun)
        requires
            index.rows@.len() <= i64::MAX,
            index.turns@.len() <= i64::MAX,
            op is Timeline || op is Turns || op is Inspect || op is Sessions || op is Brief
                || op is Rewind || op is Diff,
        ensures
            reads(*self, *index, op, r),
    {
        match op {
            Op::Timeline { session_id, turn, limit } => {
                match timeline(index, as_text(&session_id), turn, limit) {
                    Ok(entries) => Begun::Answered(Ok(Reply::Timeline(entries))),
                    Err(message) => Begun::Answered(Err(message)),
                }
            },
            Op::Turns { session_id } => Begun::Answered(
                Ok(Reply::Turns(turns(index, as_text(&session_id)))),
            ),
            Op::Inspect { checkpoint } => match inspect(index, checkpoint) {
                Ok(info) => Begun::Answered(Ok(Reply::Inspect(info))),
                Err(message) => Begun::Answered(Err(message)),
            },
            Op::Sessions { limit } => Begun::Answered(Ok(Reply::Sessions(sessions(index, limit)))),
            Op::Brief { current } => Begun::Work(
                Job::Brief { plan: plan_brief(index, as_text(&current)) },
            ),
            Op::Rewind { target, path } => match resolve_target(index, &target) {
                Ok(row) => match path {
                    Some(path) => Begun::Work(
                        Job::RestorePath { row, path: HostPath::from_text(path.as_str()) },
                    ),
                    None => Begun::Work(Job::Rewind { row }),
                },
                Err(message) => Begun::Answered(Err(message)),
            },
            Op::Diff { before, after, before_hex, after_hex } => {
                match diff_rows(index, before, &before_hex, after, &after_hex) {
                    Ok((a, b)) => Begun::Work(
                        Job::Diff { before: a.generation, after: b.generation },
                    ),
                    Err(message) => Begun::Answered(Err(message)),
                }
            },
            _ => Begun::Work(Job::Status),
        }
    }

    /// How an operation on forks or Safe Mode sessions begins.
    fn begin_work(&mut self, op: Op) -> (r: Begun)
        requires
            old(self).wf(),
            op is Fork || op is ForkList || op is ForkDrop || op is Promote || op is ForkDiff
                || op is SessionFork || op is SessionResolve || op is SessionApply
                || op is SessionDiscard || op is Stop,
        ensures
            final(self).wf(),
            works(*old(self), op, *final(self), r),
    {
        match op {
            Op::Fork { count, session_id } => {
                if count == 0 || count > MAX_FORKS {
                    return Begun::Answered(Err("fork count must be 1..=16".to_owned()));
                }
                let mode = self.mounts.fork_mode();
                let place = match mode {
                    ForkMode::Mount => forks_mount_root(&self.repo_root),
                    ForkMode::Copy => forks_copy_root(&self.repo_root),
                };
                match place {
                    Some(root) => Begun::Work(Job::Fork { count, session_id, mode, root }),
                    None => Begun::Answered(Err(NO_PLACE.to_owned())),
                }
            },
            Op::ForkList => Begun::Answered(Ok(Reply::Forks(self.fork_list()))),
            Op::ForkDrop { id } => match self.take_fork(id.as_str()) {
                Some(fork) => Begun::Work(Job::Drop { fork }),
                None => Begun::Answered(Err(naming("no fork ", &id))),
            },
            Op::Promote { id } => match self.take_fork(id.as_str()) {
                Some(fork) => Begun::Work(Job::Promote { fork }),
                None => Begun::Answered(Err(naming("no fork ", &id))),
            },
            Op::ForkDiff { id } => match self.find_fork(id.as_str()) {
                Some(i) => {
                    let base = self.forks[i].base;
                    let copy_dir = copy_path(&self.forks[i].copy_dir);
                    assert(has_fork(self.forks@, id@));
                    Begun::Work(Job::ForkDiff { id, base, copy_dir })
                },
                None => Begun::Answered(Err(naming("no fork ", &id))),
            },
            Op::SessionFork { session_id } => self.shadow(session_id),
            Op::SessionResolve { session_id } => match self.dry.take() {
                Some(session) => {
                    if text_eq(session.session_id.as_str(), session_id.as_str()) {
                        let label = naming("safe mode session ", &session.fork_id);
                        Begun::Work(Job::Resolve { session, label })
                    } else {
                        Begun::Answered(Err(naming("no active Safe Mode session ", &session_id)))
                    }
                },
                None => Begun::Answered(Err(naming("no active Safe Mode session ", &session_id))),
            },
            Op::SessionApply { session_id } => match self.take_pending(session_id.as_str()) {
                Some(session) => Begun::Work(Job::Apply { session }),
                None => Begun::Answered(Err(naming("no resolved Safe Mode session ", &session_id))),
            },
            Op::SessionDiscard { session_id } => {
                let _ = self.take_pending(session_id.as_str());
                Begun::Answered(Ok(Reply::Unit))
            },
            _ => {
                let shadow = self.dry.take();
                self.pending = Vec::new();
                self.forks = Vec::new();
                Begun::Work(Job::Stop { shadow })
            },
        }
    }

    /// How an operation begins: what it is answered at once, or what it has the
    /// engine do.
    pub fn begin(&mut self, op: Op, index: &Index) -> (r: Begun)
        requires
            old(self).wf(),
            index.rows@.len() <= i64::MAX,
            index.turns@.len() <= i64::MAX,
        ensures
            final(self).wf(),
            begun(*old(self), *index, op, *final(self), r),
    {
        match op {
            Op::Ping => Begun::Answered(Ok(Reply::Pong)),
            Op::Status => Begun::Work(Job::Status),
            Op::Checkpoint { kind, session_id, tool_call_id, tool_name, label, wait, durable } => {
                match parse_kind(kind.as_str()) {
                    Ok(kind) => {
                        let attribution = Attribution {
                            session_id,
                            tool_call_id,
                            tool_name,
                            label,
                            turn: None,
                            rewind_target: None,
                        };
                        Begun::Work(Job::Checkpoint { kind, attribution, wait, durable })
                    },
                    Err(message) => Begun::Answered(Err(message)),
                }
            },
            Op::TurnStart { session_id, prompt } => Begun::Work(
                Job::TurnStart { session_id, prompt },
            ),
            Op::SessionStart { session_id, host } => Begun::Work(
                Job::SessionStart { session_id, host },
            ),
            Op::SessionEnd { session_id } => Begun::Work(Job::SessionEnd { session_id }),
            Op::Commit => Begun::Work(Job::Commit),
            Op::Timeline { .. } => self.begin_read(op, index),
            Op::Turns { .. } => self.begin_read(op, index),
            Op::Inspect { .. } => self.begin_read(op, index),
            Op::Sessions { .. } => self.begin_read(op, index),
            Op::Brief { .. } => self.begin_read(op, index),
            Op::Rewind { .. } => self.begin_read(op, index),
            Op::Diff { .. } => self.begin_read(op, index),
            _ => self.begin_work(op),
        }
    }
}

/// What a status is answered.
pub open spec fn is_status(s: Server, report: StatusReport, store_bytes: u64, info: StatusInfo) -> bool {
    &&& info.state@ == state_text(report.state)
    &&& info.last_checkpoint == report.last_checkpoint
    &&& info.unpublished == report.unpublished
    &&& info.store_bytes == store_bytes
    &&& info.repo_root@ == lossy_text(s.repo_root@)
    &&& info.mount_provider@ == s.mounts.provider@
    &&& info.mount_available == s.mounts.available
    &&& info.mount_reason == s.mounts.reason
}

/// The reply to a checkpoint that has landed.
pub fn checkpoint_reply(outcome: CheckpointOutcome) -> (r: Reply)
    ensures
        r matches Reply::Checkpoint(info) && info.row_id == outcome.row_id && info.generation@
            == hex_of(outcome.generation.bytes@) && info.kind@ == kind_name(outcome.kind),
{
    Reply::Checkpoint(
        CheckpointInfo {
            row_id: outcome.row_id,
            generation: generation_hex(outcome.generation),
            kind: outcome.kind.as_str().to_owned(),
        },
    )
}

/// When a checkpoint is answered.
#[derive(Clone, Copy, Debug, PartialEq, Eq, Structural)]
pub enum AnswerOn {
    /// As soon as it is queued: a stop that comes after the answer waits for
    /// it, and a failure lands in the index.
    Admission,
    /// Once it has landed, with what came of it.
    Capture,
}

/// When a commit follows a checkpoint.
#[derive(Clone, Copy, Debug, PartialEq, Eq, Structural)]
pub enum CommitAfter {
    Never,
    /// Where the checkpoint has landed.
    Landing,
    /// Whatever came of the checkpoint.
    Anyhow,
}

/// How a checkpoint is taken.
#[derive(Clone, Copy, Debug, PartialEq, Eq, Structural)]
pub struct CheckpointPlan {
    pub answer: AnswerOn,
    pub commit: CommitAfter,
}

/// Whether a plan is the one for a checkpoint that is waited for or not, and is
/// to be durable or not.
pub open spec fn is_plan(wait: bool, durable: bool, plan: CheckpointPlan) -> bool {
    &&& plan.answer == if wait { AnswerOn::Capture } else { AnswerOn::Admission }
    &&& plan.commit == if !durable {
        CommitAfter::Never
    } else if wait {
        CommitAfter::Landing
    } else {
        CommitAfter::Anyhow
    }
}

/// How a checkpoint is taken that is waited for or not, and is to be durable or
/// not. One that is not waited for has its commit asked for behind it, whatever
/// comes of it.
pub fn checkpoint_plan(wait: bool, durable: bool) -> (r: CheckpointPlan)
    ensures
        is_plan(wait, durable, r),
        r.answer == if wait { AnswerOn::Capture } else { AnswerOn::Admission },
        r.commit == if !durable {
            CommitAfter::Never
        } else if wait {
            CommitAfter::Landing
        } else {
            CommitAfter::Anyhow
        },
{
    CheckpointPlan {
        answer: if wait { AnswerOn::Capture } else { AnswerOn::Admission },
        commit: if !durable {
            CommitAfter::Never
        } else if wait {
            CommitAfter::Landing
        } else {
            CommitAfter::Anyhow
        },
    }
}

impl CheckpointPlan {
    /// Whether a commit follows, given whether the checkpoint has landed.
    pub open spec fn commits(self, landed: bool) -> bool {
        self.commit == CommitAfter::Anyhow || (self.commit == CommitAfter::Landing && landed)
    }

    /// Whether a commit follows, given whether the checkpoint has landed.
    pub fn commit_follows(self, landed: bool) -> (r: bool)
        ensures
            r == self.commits(landed),
    {
        match self.commit {
            CommitAfter::Never => false,
            CommitAfter::Landing => landed,
            CommitAfter::Anyhow => true,
        }
    }
}

/// What a checkpoint is answered on its admission.
pub fn admitted_answer(admitted: Result<(), String>) -> (r: Result<Reply, String>)
    ensures
        r == match admitted {
            Ok(_) => Ok(Reply::Enqueued),
            Err(message) => Err(message),
        },
{
    match admitted {
        Ok(_) => Ok(Reply::Enqueued),
        Err(message) => Err(message),
    }
}

/// Whether a checkpoint that was waited for is answered with what came of it.
pub open spec fn is_landed_answer(
    captured: Result<CheckpointOutcome, String>,
    committed: Option<Result<(), String>>,
    r: Result<Reply, String>,
) -> bool {
    match (captured, committed) {
        (Err(message), _) => r == Err::<Reply, String>(message),
        (Ok(_), Some(Err(message))) => r == Err::<Reply, String>(message),
        (Ok(outcome), _) => r matches Ok(Reply::Checkpoint(info)) && info.row_id == outcome.row_id
            && info.generation@ == hex_of(outcome.generation.bytes@) && info.kind@ == kind_name(
            outcome.kind,
        ),
    }
}

/// What a checkpoint is answered that was waited for, given what came of the
/// commit behind it where there was one. It is durable or it has failed.
pub fn landed_answer(
    captured: Result<CheckpointOutcome, String>,
    committed: Option<Result<(), String>>,
) -> (r: Result<Reply, String>)
    ensures
        is_landed_answer(captured, committed, r),
        match (captured, committed) {
            (Err(message), _) => r == Err::<Reply, String>(message),
            (Ok(_), Some(Err(message))) => r == Err::<Reply, String>(message),
            (Ok(outcome), _) => r matches Ok(Reply::Checkpoint(info)) && info.row_id
                == outcome.row_id && info.generation@ == hex_of(outcome.generation.bytes@)
                && info.kind@ == kind_name(outcome.kind),
        },
{
    match (captured, committed) {
        (Err(message), _) => Err(message),
        (Ok(_), Some(Err(message))) => Err(message),
        (Ok(outcome), _) => Ok(checkpoint_reply(outcome)),
    }
}

/// The reply to a turn that was noted.
pub fn turn_reply(session_id: String, turn: i64) -> (r: Reply)
    ensures
        r == Reply::Turn(TurnInfo { session_id, turn }),
{
    Reply::Turn(TurnInfo { session_id, turn })
}

/// The name of what a restore did.
pub open spec fn action_text(action: RestoreAction) -> Seq<char> {
    match action {
        RestoreAction::Restored => "restored"@,
        RestoreAction::Removed => "removed"@,
    }
}

/// The reply to a restored path.
pub fn restore_reply(checkpoint: i64, outcome: &RestoreOutcome, recorded: Option<i64>) -> (r: Reply)
    ensures
        r matches Reply::Restore(info) && info.checkpoint == checkpoint && info.path@
            == lossy_text(outcome.path@) && info.action@ == action_text(outcome.action)
            && info.recorded_checkpoint == recorded,
{
    let action = match outcome.action {
        RestoreAction::Restored => "restored",
        RestoreAction::Removed => "removed",
    };
    Reply::Restore(
        RestoreInfo {
            checkpoint,
            path: outcome.path.display(),
            action: action.to_owned(),
            recorded_checkpoint: recorded,
        },
    )
}

/// The reply to a rewind.
pub fn rewind_reply(checkpoint: i64, outcome: &RewindOutcome) -> (r: Reply)
    ensures
        r matches Reply::Rewind(info) && info.restored_checkpoint == checkpoint && info.old_tree@
            == lossy_text(outcome.old_tree@) && info.warning@ == outcome.warning@,
{
    Reply::Rewind(
        RewindInfo {
            restored_checkpoint: checkpoint,
            old_tree: outcome.old_tree.display(),
            warning: outcome.warning.to_owned(),
        },
    )
}

/// Whether entries are what is told of changes, with those marked that are
/// ignored.
pub open spec fn are_told(
    changes: Seq<FileChange>,
    ignored: Seq<HostPath>,
    entries: Seq<DiffEntry>,
) -> bool {
    &&& entries.len() == changes.len()
    &&& forall|i: int|
        0 <= i < entries.len() ==> is_diff_entry(
            changes[i],
            crate::merge::among(ignored, path_of(changes[i].path())),
            #[trigger] entries[i],
        )
}

/// The reply to a comparison of two checkpoints.
pub fn diff_reply(changes: &Vec<FileChange>, ignored: &Vec<HostPath>) -> (r: Reply)
    ensures
        r matches Reply::Diff(entries) && are_told(changes@, ignored@, entries@),
{
    Reply::Diff(annotate_ignored(changes, ignored))
}

/// The reply to what a fork has changed. The times of a copied fork differ by
/// construction, so only content counts.
pub fn fork_diff_reply(changes: Vec<FileChange>, ignored: &Vec<HostPath>) -> (r: Reply)
    ensures
        r matches Reply::Diff(entries) && are_told(content_of(changes@), ignored@, entries@),
{
    let content = content_changes(changes);
    Reply::Diff(annotate_ignored(&content, ignored))
}

/// Whether an entry is that of a fork just made.
pub open spec fn is_new_entry(
    e: ForkEntry,
    id: Seq<char>,
    path: Seq<u8>,
    mode: ForkMode,
    base: GenerationId,
    created_at: i64,
    session_id: Option<String>,
) -> bool {
    &&& e.id@ == id
    &&& e.path@ == lossy_text(path)
    &&& e.mode@ == mode_text(mode)
    &&& e.base@ == hex_of(base.bytes@)
    &&& e.created_at == created_at
    &&& e.session_id == session_id
    &&& e.conflict_paths@.len() == 0
    &&& e.conflict is None
}

/// Whether a fork that was just made is held, and its entry told.
pub open spec fn adds_fork(
    s: Server,
    id: Seq<char>,
    base: GenerationId,
    root: Seq<u8>,
    mode: ForkMode,
    created_at: i64,
    session_id: Option<String>,
    t: Server,
    entry: ForkEntry,
) -> bool {
    let dir = crate::path::joined(root, vstd::utf8::encode_utf8(id));
    &&& t == (Server { forks: t.forks, ..s })
    &&& is_new_entry(entry, id, dir, mode, base, created_at, session_id)
    &&& t.forks@.len() > 0
    &&& t.forks@.drop_last() == without(s.forks@, id)
    &&& t.forks@.last().base == base
    &&& same_entry(t.forks@.last().entry, entry)
    &&& t.forks@.last().conflict is None
    &&& opt_path(t.forks@.last().copy_dir) == match mode {
        ForkMode::Mount => None,
        ForkMode::Copy => Some(dir),
    }
}

/// What a promotion that ended is answered, where it landed.
pub open spec fn is_landed_reply(landed: Landed, info: PromoteInfo) -> bool {
    &&& info.old_tree is None
    &&& info.conflicts@.len() == 0
    &&& info.fork_path is None
    &&& match landed {
        Landed::Replayed { generation, paths, merged, kept, moved } => {
            &&& info.generation@ == hex_of(generation.bytes@)
            &&& info.warning@ == if moved { MOVED_WARNING@ } else { Seq::<char>::empty() }
            &&& info.replayed_paths == paths
            &&& info.merged_files == merged
            &&& info.kept_mainline == kept
            &&& info.mainline_moved == moved
        },
        Landed::Nothing { generation, kept } => {
            &&& info.generation@ == hex_of(generation.bytes@)
            &&& info.warning@.len() == 0
            &&& info.replayed_paths == 0
            &&& info.merged_files == 0
            &&& info.kept_mainline == kept
            &&& !info.mainline_moved
        },
        Landed::Conflicted { .. } => false,
    }
}

/// What is said where a fork landed on a mainline that had moved.
pub const MOVED_WARNING: &'static str = "the mainline had moved; the fork's paths were merged onto it in place";

/// How the message begins that refuses a fork with markers left.
pub const UNRESOLVED: &'static str = "unresolved conflict markers";

/// The paths of conflicts.
pub open spec fn conflict_texts(files: Seq<ConflictEntry>) -> Seq<Seq<char>> {
    files.map_values(|f: ConflictEntry| f.path@)
}

/// What becomes of a fork whose promotion opened a conflict: it is judged
/// against the head that it was rebased onto, and carries the conflict.
pub open spec fn is_conflicted(
    before: ForkState,
    theirs: GenerationId,
    ours: GenerationId,
    files: Seq<ConflictEntry>,
    after: ForkState,
) -> bool {
    &&& after.base == theirs
    &&& after.copy_dir == before.copy_dir
    &&& after.conflict matches Some(paths) && paths@.len() == files.len() && forall|i: int|
        0 <= i < paths@.len() ==> (#[trigger] paths@[i])@ == vstd::utf8::encode_utf8(files[i].path@)
    &&& after.entry == (ForkEntry {
        base: after.entry.base,
        conflict_paths: after.entry.conflict_paths,
        conflict: after.entry.conflict,
        ..before.entry
    })
    &&& after.entry.base@ == hex_of(theirs.bytes@)
    &&& crate::text::texts(after.entry.conflict_paths@) == conflict_texts(files)
    &&& after.entry.conflict matches Some(info) && info.base@ == hex_of(before.base.bytes@)
        && info.ours@ == hex_of(ours.bytes@) && info.theirs@ == hex_of(theirs.bytes@)
}

/// What a promotion that opened a conflict is answered.
pub open spec fn is_conflict_reply(
    theirs: GenerationId,
    files: Vec<ConflictEntry>,
    kept: Vec<String>,
    fork_path: Seq<char>,
    info: PromoteInfo,
) -> bool {
    &&& info.generation@ == hex_of(theirs.bytes@)
    &&& info.old_tree is None
    &&& info.warning@.len() == 0
    &&& info.replayed_paths == 0
    &&& info.merged_files == 0
    &&& info.conflicts == files
    &&& info.fork_path matches Some(p) && p@ == fork_path
    &&& info.kept_mainline == kept
    &&& info.mainline_moved
}

/// What becomes of a fork whose promotion was refused or failed: it stays as it
/// was, but a conflict whose markers are gone is over.
pub open spec fn is_refused(before: ForkState, message: Seq<char>, after: ForkState) -> bool {
    if before.conflict is Some && !begins(message, UNRESOLVED@) {
        &&& after.base == before.base
        &&& after.copy_dir == before.copy_dir
        &&& after.conflict is None
        &&& after.entry == (ForkEntry {
            conflict_paths: after.entry.conflict_paths,
            conflict: None,
            ..before.entry
        })
        &&& after.entry.conflict_paths@.len() == 0
    } else {
        after == before
    }
}

/// How a promotion ends: a fork that landed is consumed, one that did not is
/// kept under its id.
pub open spec fn promote_ends(
    s: Server,
    fork: ForkState,
    result: Result<Landed, String>,
    t: Server,
    answer: Result<Reply, String>,
    consumed: Option<ForkState>,
) -> bool {
    let kept = t.forks@.last();
    let keeps = {
        &&& t == (Server { forks: t.forks, ..s })
        &&& t.forks@ == without(s.forks@, fork.entry.id@).push(kept)
        &&& consumed is None
    };
    match result {
        Ok(Landed::Conflicted { theirs, ours, files, kept: mainline }) => {
            &&& keeps
            &&& is_conflicted(fork, theirs, ours, files@, kept)
            &&& answer matches Ok(Reply::Promote(info)) && is_conflict_reply(
                theirs,
                files,
                mainline,
                fork.entry.path@,
                info,
            )
        },
        Ok(landed) => {
            &&& t == s
            &&& consumed == Some(fork)
            &&& answer matches Ok(Reply::Promote(info)) && is_landed_reply(landed, info)
        },
        Err(message) => {
            &&& keeps
            &&& is_refused(fork, message@, kept)
            &&& answer == Err::<Reply, String>(message)
        },
    }
}

/// What resolving a Safe Mode session came to.
#[derive(Debug)]
pub enum SessionResolveOutcome {
    NoChanges,
    Resolved { generation: GenerationId, changes: Vec<FileChange> },
    Conflict { message: String },
}

/// How the resolution of a Safe Mode session ends.
pub open spec fn resolves(
    s: Server,
    session: DrySession,
    label: String,
    resolved: SessionResolveOutcome,
    t: Server,
    r: Result<Reply, String>,
) -> bool {
    match resolved {
        SessionResolveOutcome::NoChanges => {
            &&& t == s
            &&& r matches Ok(Reply::SessionPending(info)) && info.session_id@ == session.session_id@
                && info.diff@.len() == 0
        },
        SessionResolveOutcome::Resolved { generation, changes } => {
            &&& t == (Server { pending: t.pending, ..s })
            &&& t.pending@.len() > 0
            &&& t.pending@.drop_last() == without_session(s.pending@, session.session_id@)
            &&& t.pending@.last().session_id@ == session.session_id@
            &&& t.pending@.last().generation == generation
            &&& t.pending@.last().base == session.base
            &&& t.pending@.last().label == label
            &&& r matches Ok(Reply::SessionPending(info)) && info.session_id@ == session.session_id@
                && are_told(changes@, Seq::empty(), info.diff@)
        },
        SessionResolveOutcome::Conflict { message } => t == s && r == Err::<Reply, String>(message),
    }
}

/// What applying a resolved session came to.
#[derive(Debug)]
pub enum PromoteOutcome {
    Promoted { generation: GenerationId, old_tree: Option<HostPath> },
    Conflict { message: String },
}

/// What is said where a session became the tree.
pub const REPLACED_WARNING: &'static str = "reload your editor: open files still point at the replaced tree";

/// The answer to an applied session.
pub fn finish_apply(applied: PromoteOutcome) -> (r: Result<Reply, String>)
    ensures
        match applied {
            PromoteOutcome::Promoted { generation, old_tree } => r matches Ok(Reply::Promote(info)) && {
                &&& info.generation@ == hex_of(generation.bytes@)
                &&& match old_tree {
                    Some(path) => info.old_tree matches Some(t) && t@ == lossy_text(path@),
                    None => info.old_tree is None,
                }
                &&& info.warning@ == REPLACED_WARNING@
                &&& info.replayed_paths == 0
                &&& info.merged_files == 0
                &&& info.conflicts@.len() == 0
                &&& info.fork_path is None
                &&& info.kept_mainline@.len() == 0
                &&& !info.mainline_moved
            },
            PromoteOutcome::Conflict { message } => r == Err::<Reply, String>(message),
        },
{
    match applied {
        PromoteOutcome::Promoted { generation, old_tree } => {
            let old_tree = match old_tree {
                Some(path) => Some(path.display()),
                None => None,
            };
            Ok(
                Reply::Promote(
                    PromoteInfo {
                        generation: generation_hex(generation),
                        old_tree,
                        warning: REPLACED_WARNING.to_owned(),
                        replayed_paths: 0,
                        merged_files: 0,
                        conflicts: Vec::new(),
                        fork_path: None,
                        kept_mainline: Vec::new(),
                        mainline_moved: false,
                    },
                ),
            )
        },
        PromoteOutcome::Conflict { message } => Err(message),
    }
}

fn landed_info(landed: Landed) -> (r: PromoteInfo)
    requires
        !(landed is Conflicted),
    ensures
        is_landed_reply(landed, r),
{
    let (generation, warning, paths, merged, kept, moved) = match landed {
        Landed::Replayed { generation, paths, merged, kept, moved } => (
            generation,
            if moved {
                MOVED_WARNING.to_owned()
            } else {
                String::new()
            },
            paths,
            merged,
            kept,
            moved,
        ),
        Landed::Nothing { generation, kept } => (generation, String::new(), 0, 0, kept, false),
        Landed::Conflicted { theirs, ours, files, kept } => (
            theirs,
            String::new(),
            0,
            0,
            kept,
            false,
        ),
    };
    PromoteInfo {
        generation: generation_hex(generation),
        old_tree: None,
        warning,
        replayed_paths: paths,
        merged_files: merged,
        conflicts: Vec::new(),
        fork_path: None,
        kept_mainline: kept,
        mainline_moved: moved,
    }
}

impl Server {
    /// The reply to a status request.
    pub fn status_reply(&self, report: StatusReport, store_bytes: u64) -> (r: Reply)
        ensures
            r matches Reply::Status(info) && is_status(*self, report, store_bytes, info),
    {
        Reply::Status(
            StatusInfo {
                state: report.state.as_str().to_owned(),
                last_checkpoint: report.last_checkpoint,
                unpublished: report.unpublished,
                store_bytes,
                repo_root: self.repo_root.display(),
                mount_provider: self.mounts.provider.to_owned(),
                mount_available: self.mounts.available,
                mount_reason: copy_opt(&self.mounts.reason),
            },
        )
    }

    /// What follows the start of a session: where every session runs in Safe
    /// Mode, its fork shadows the repository.
    pub fn session_started(&self, session_id: String) -> (r: Begun)
        ensures
            follows_start(*self, session_id, r),
            if self.dry_run {
                shadows(*self, session_id, r)
            } else {
                r == Begun::Answered(Ok(Reply::Unit))
            },
    {
        if self.dry_run {
            self.shadow(session_id)
        } else {
            Begun::Answered(Ok(Reply::Unit))
        }
    }

    /// Notes that a fork shadows the repository for a session.
    pub fn session_shadowed(&mut self, fork_id: String, session_id: String, base: GenerationId)
        requires
            old(self).wf(),
        ensures
            final(self).wf(),
            *final(self) == (Server {
                dry: Some(DrySession { fork_id, session_id, base }),
                ..*old(self)
            }),
    {
        self.dry = Some(DrySession { fork_id, session_id, base });
    }

    /// What follows the end of a session: its scratch trees, which are never
    /// promoted, are dropped.
    pub fn session_ended(&mut self, session_id: &str) -> (dropped: Vec<ForkState>)
        requires
            old(self).wf(),
        ensures
            final(self).wf(),
            *final(self) == (Server { forks: final(self).forks, ..*old(self) }),
            drops_scratch(old(self).forks@, session_id@, final(self).forks@, dropped@),
            final(self).forks@ == old(self).forks@.filter(not_scratch(session_id@)),
            dropped@ == old(self).forks@.filter(scratch(session_id@)),
    {
        let ghost all = self.forks@;
        let ghost stays = not_scratch(session_id@);
        let ghost goes = scratch(session_id@);
        let mut dropped: Vec<ForkState> = Vec::new();
        let mut i: usize = 0;
        let ghost mut n: int = 0;
        proof {
            reveal(Seq::filter);
            assert(all.take(0).filter(stays) =~= Seq::<ForkState>::empty());
            assert(all.take(0).filter(goes) =~= Seq::<ForkState>::empty());
            assert(all.skip(0) =~= all);
            assert(Seq::<ForkState>::empty() + all =~= all);
        }
        while i < self.forks.len()
            invariant
                stays == not_scratch(session_id@),
                goes == scratch(session_id@),
                all == old(self).forks@,
                *self == (Server { forks: self.forks, ..*old(self) }),
                0 <= n <= all.len(),
                i == all.take(n).filter(stays).len(),
                self.forks@ == all.take(n).filter(stays) + all.skip(n),
                dropped@ == all.take(n).filter(goes),
            decreases self.forks.len() - i,
        {
            proof {
                reveal(Seq::filter);
                assert(all.take(n + 1).drop_last() =~= all.take(n));
                assert(all.take(n + 1).last() == all[n]);
                assert(self.forks@[i as int] == all.skip(n)[0]);
                assert(all.skip(n) =~= seq![all[n]] + all.skip(n + 1));
            }
            if opt_is(&self.forks[i].entry.session_id, session_id) {
                let ghost kept = all.take(n).filter(stays);
                let fork = self.forks.remove(i);
                assert(self.forks@ =~= kept + all.skip(n + 1));
                dropped.push(fork);
            } else {
                let ghost kept = all.take(n).filter(stays);
                i += 1;
                assert(self.forks@ =~= kept.push(all[n]) + all.skip(n + 1));
            }
            proof {
                n = n + 1;
            }
        }
        proof {
            assert(n == all.len());
            assert(all.take(n) =~= all);
            assert(self.forks@ =~= all.filter(stays));
            lemma_filter_distinct(all, stays);
        }
        dropped
    }

    /// Holds a fork under its id.
    fn keep_fork(&mut self, fork: ForkState)
        requires
            old(self).wf(),
        ensures
            final(self).wf(),
            *final(self) == (Server { forks: final(self).forks, ..*old(self) }),
            final(self).forks@ == without(old(self).forks@, fork.entry.id@).push(fork),
    {
        let id = fork.entry.id.clone();
        let taken = self.take_fork(id.as_str());
        proof {
            if taken is None {
                crate::vecs::lemma_filter_all(old(self).forks@, other_fork(id@));
            }
            lemma_filter_lacks(old(self).forks@, id@);
        }
        self.forks.push(fork);
    }

    /// Holds a fork that was just made, and tells its entry.
    pub fn add_fork(
        &mut self,
        id: String,
        base: GenerationId,
        root: &HostPath,
        mode: ForkMode,
        created_at: i64,
        session_id: &Option<String>,
    ) -> (entry: ForkEntry)
        requires
            old(self).wf(),
        ensures
            adds_fork(
                *old(self),
                id@,
                base,
                root@,
                mode,
                created_at,
                *session_id,
                *final(self),
                entry,
            ),
            final(self).wf(),
            *final(self) == (Server { forks: final(self).forks, ..*old(self) }),
            is_new_entry(
                entry,
                id@,
                crate::path::joined(root@, vstd::utf8::encode_utf8(id@)),
                mode,
                base,
                created_at,
                *session_id,
            ),
            final(self).forks@.len() > 0,
            final(self).forks@.drop_last() == without(old(self).forks@, id@),
            final(self).forks@.last().base == base,
            same_entry(final(self).forks@.last().entry, entry),
            final(self).forks@.last().conflict is None,
            match mode {
                ForkMode::Mount => final(self).forks@.last().copy_dir is None,
                ForkMode::Copy => opt_path(final(self).forks@.last().copy_dir) == Some(
                    crate::path::joined(root@, vstd::utf8::encode_utf8(id@)),
                ),
            },
    {
        let dir = root.join(id.as_str());
        let entry = ForkEntry {
            id,
            path: dir.display(),
            mode: mode.as_str().to_owned(),
            base: generation_hex(base),
            created_at,
            session_id: copy_opt(session_id),
            conflict_paths: Vec::new(),
            conflict: None,
        };
        let copy_dir = match mode {
            ForkMode::Mount => None,
            ForkMode::Copy => Some(dir),
        };
        let told = clone_entry(&entry);
        self.keep_fork(ForkState { base, entry: told, copy_dir, conflict: None });
        assert(self.forks@.drop_last() =~= without(old(self).forks@, entry.id@));
        entry
    }

    /// The answer to a promotion that ended, and the fork whose workspace is
    /// done with.
    pub fn finish_promote(&mut self, fork: ForkState, result: Result<Landed, String>) -> (r: (
        Result<Reply, String>,
        Option<ForkState>,
    ))
        requires
            old(self).wf(),
        ensures
            final(self).wf(),
            promote_ends(*old(self), fork, result, *final(self), r.0, r.1),
    {
        let mut fork = fork;
        let ghost before = fork;
        match result {
            Ok(Landed::Conflicted { theirs, ours, files, kept }) => {
                let conflict_base = fork.base;
                let mut paths: Vec<HostPath> = Vec::new();
                let mut shown: Vec<String> = Vec::new();
                let mut i: usize = 0;
                while i < files.len()
                    invariant
                        i <= files@.len(),
                        paths@.len() == i,
                        shown@.len() == i,
                        forall|j: int|
                            0 <= j < i ==> (#[trigger] paths@[j])@ == vstd::utf8::encode_utf8(
                                files@[j].path@,
                            ),
                        forall|j: int| 0 <= j < i ==> (#[trigger] shown@[j])@ == files@[j].path@,
                    decreases files.len() - i,
                {
                    paths.push(HostPath::from_text(files[i].path.as_str()));
                    shown.push(files[i].path.clone());
                    i += 1;
                }
                assert(crate::text::texts(shown@) =~= conflict_texts(files@));
                fork.conflict = Some(paths);
                fork.base = theirs;
                fork.entry.base = generation_hex(theirs);
                fork.entry.conflict_paths = shown;
                fork.entry.conflict = Some(
                    ConflictInfo {
                        base: generation_hex(conflict_base),
                        ours: generation_hex(ours),
                        theirs: generation_hex(theirs),
                    },
                );
                let fork_path = fork.entry.path.clone();
                self.keep_fork(fork);
                (
                    Ok(
                        Reply::Promote(
                            PromoteInfo {
                                generation: generation_hex(theirs),
                                old_tree: None,
                                warning: String::new(),
                                replayed_paths: 0,
                                merged_files: 0,
                                conflicts: files,
                                fork_path: Some(fork_path),
                                kept_mainline: kept,
                                mainline_moved: true,
                            },
                        ),
                    ),
                    None,
                )
            },
            Err(message) => {
                if fork.conflict.is_some() && !text_begins(message.as_str(), UNRESOLVED) {
                    fork.conflict = None;
                    fork.entry.conflict_paths = Vec::new();
                    fork.entry.conflict = None;
                }
                self.keep_fork(fork);
                (Err(message), None)
            },
            Ok(landed) => (Ok(Reply::Promote(landed_info(landed))), Some(fork)),
        }
    }

    /// The answer to a session that was resolved: what it would change, which
    /// stays pending where it changes anything.
    pub fn finish_resolve(&mut self, session: DrySession, label: String, resolved: SessionResolveOutcome) -> (r:
        Result<Reply, String>)
        requires
            old(self).wf(),
        ensures
            final(self).wf(),
            resolves(*old(self), session, label, resolved, *final(self), r),
            match resolved {
                SessionResolveOutcome::NoChanges => {
                    &&& *final(self) == *old(self)
                    &&& r matches Ok(Reply::SessionPending(info)) && info.session_id@
                        == session.session_id@ && info.diff@.len() == 0
                },
                SessionResolveOutcome::Resolved { generation, changes } => {
                    &&& *final(self) == (Server { pending: final(self).pending, ..*old(self) })
                    &&& final(self).pending@.len() > 0
                    &&& final(self).pending@.drop_last() == without_session(
                        old(self).pending@,
                        session.session_id@,
                    )
                    &&& final(self).pending@.last().session_id@ == session.session_id@
                    &&& final(self).pending@.last().generation == generation
                    &&& final(self).pending@.last().base == session.base
                    &&& final(self).pending@.last().label == label
                    &&& r matches Ok(Reply::SessionPending(info)) && info.session_id@
                        == session.session_id@ && are_told(changes@, Seq::empty(), info.diff@)
                },
                SessionResolveOutcome::Conflict { message } => *final(self) == *old(self) && r == Err::<
                    Reply,
                    String,
                >(message),
            },
    {
        match resolved {
            SessionResolveOutcome::NoChanges => Ok(
                Reply::SessionPending(
                    SessionPendingInfo { session_id: session.session_id, diff: Vec::new() },
                ),
            ),
            SessionResolveOutcome::Resolved { generation, changes } => {
                let none: Vec<HostPath> = Vec::new();
                let diff = annotate_ignored(&changes, &none);
                let _ = self.take_pending(session.session_id.as_str());
                proof {
                    lemma_pending_lacks(old(self).pending@, session.session_id@);
                    assert(none@ =~= Seq::<HostPath>::empty());
                }
                self.pending.push(
                    PendingSession {
                        session_id: session.session_id.clone(),
                        generation,
                        base: session.base,
                        label,
                    },
                );
                assert(self.pending@.drop_last() =~= without_session(
                    old(self).pending@,
                    session.session_id@,
                ));
                Ok(Reply::SessionPending(SessionPendingInfo { session_id: session.session_id, diff }))
            },
            SessionResolveOutcome::Conflict { message } => Err(message),
        }
    }
}

/// Forks that are told apart still are when some have gone.
proof fn lemma_filter_distinct(forks: Seq<ForkState>, keep: spec_fn(ForkState) -> bool)
    requires
        distinct_forks(forks),
    ensures
        distinct_forks(forks.filter(keep)),
    decreases forks.len(),
{
    reveal(Seq::filter);
    if forks.len() > 0 {
        let rest = forks.drop_last();
        assert(distinct_forks(rest)) by {
            assert forall|i: int, j: int| 0 <= i < j < rest.len() implies (
            #[trigger] rest[i]).entry.id@ != (#[trigger] rest[j]).entry.id@ by {
                assert(rest[i] == forks[i] && rest[j] == forks[j]);
            }
        }
        lemma_filter_distinct(rest, keep);
        let kept = forks.filter(keep);
        if keep(forks.last()) {
            assert forall|i: int, j: int| 0 <= i < j < kept.len() implies (
            #[trigger] kept[i]).entry.id@ != (#[trigger] kept[j]).entry.id@ by {
                if j == kept.len() - 1 {
                    assert(rest.filter(keep)[i] == kept[i]);
                    assert(rest.filter(keep).contains(kept[i]));
                    rest.lemma_filter_contains_rev(keep, kept[i]);
                    let m = rest.index_of(kept[i]);
                    assert(forks[m] == kept[i] && forks[forks.len() - 1] == kept[j]);
                } else {
                    assert(rest.filter(keep)[i] == kept[i] && rest.filter(keep)[j] == kept[j]);
                }
            }
        }
    }
}

/// Without the fork of an id, none has it.
proof fn lemma_filter_lacks(forks: Seq<ForkState>, id: Seq<char>)
    ensures
        forall|i: int|
            0 <= i < without(forks, id).len() ==> (#[trigger] without(forks, id)[i]).entry.id@ != id,
{
    assert forall|i: int| 0 <= i < without(forks, id).len() implies (
    #[trigger] without(forks, id)[i]).entry.id@ != id by {
        forks.lemma_filter_pred(other_fork(id), i);
    }
}

/// Without the pending session of an id, none has it.
proof fn lemma_pending_lacks(pending: Seq<PendingSession>, id: Seq<char>)
    ensures
        forall|i: int|
            0 <= i < without_session(pending, id).len() ==> (
            #[trigger] without_session(pending, id)[i]).session_id@ != id,
{
    assert forall|i: int| 0 <= i < without_session(pending, id).len() implies (
    #[trigger] without_session(pending, id)[i]).session_id@ != id by {
        pending.lemma_filter_pred(other_session(id), i);
    }
}

/// Taking a fork out takes it and nothing else: there is one fork fewer, none
/// has its id, and every other fork is still there.
pub proof fn law_one_fork_goes(forks: Seq<ForkState>, id: Seq<char>)
    requires
        distinct_forks(forks),
        has_fork(forks, id),
    ensures
        without(forks, id).len() == forks.len() - 1,
        !has_fork(without(forks, id), id),
        forall|f: ForkState|
            f.entry.id@ != id ==> (#[trigger] without(forks, id).contains(f) <==> forks.contains(f)),
{
    let k = choose|k: int| 0 <= k < forks.len() && (#[trigger] forks[k]).entry.id@ == id;
    crate::vecs::lemma_filter_but_one(forks, other_fork(id), k);
    lemma_filter_lacks(forks, id);
    assert forall|f: ForkState| f.entry.id@ != id implies (#[trigger] without(forks, id).contains(f)
        <==> forks.contains(f)) by {
        if forks.contains(f) {
            let m = forks.index_of(f);
            forks.lemma_filter_contains(other_fork(id), m);
        }
        if without(forks, id).contains(f) {
            forks.lemma_filter_contains_rev(other_fork(id), f);
        }
    }
}

/// A promotion that is refused or fails loses nothing: the fork is held again
/// under its id, with the base, the workspace and the entry it had but for a
/// conflict that is over, and every other fork is untouched.
pub proof fn law_refused_promotion_keeps_forks(
    s: Server,
    id: String,
    t: Server,
    fork: ForkState,
    message: String,
    u: Server,
    answer: Result<Reply, String>,
    consumed: Option<ForkState>,
)
    requires
        s.wf(),
        works(s, Op::Promote { id }, t, Begun::Work(Job::Promote { fork })),
        has_fork(s.forks@, id@),
        promote_ends(t, fork, Err(message), u, answer, consumed),
    ensures
        u.forks@.len() == s.forks@.len(),
        forall|f: ForkState|
            f.entry.id@ != id@ ==> (#[trigger] u.forks@.contains(f) <==> s.forks@.contains(f)),
        u.forks@.last().entry.id == fork.entry.id,
        u.forks@.last().entry.path == fork.entry.path,
        u.forks@.last().base == fork.base,
        u.forks@.last().copy_dir == fork.copy_dir,
        answer == Err::<Reply, String>(message),
{
    law_one_fork_goes(s.forks@, id@);
    crate::vecs::lemma_filter_all(t.forks@, other_fork(id@));
    let kept = u.forks@.last();
    assert(u.forks@ == t.forks@.push(kept));
    assert forall|f: ForkState| f.entry.id@ != id@ implies (#[trigger] u.forks@.contains(f)
        <==> s.forks@.contains(f)) by {
        if u.forks@.contains(f) {
            let m = u.forks@.index_of(f);
            assert(t.forks@[m] == f);
            assert(t.forks@.contains(f));
        }
        if s.forks@.contains(f) {
            assert(t.forks@.contains(f));
            let m = t.forks@.index_of(f);
            assert(u.forks@[m] == f);
        }
    }
}

/// A promotion that opened a conflict keeps the fork under its id, judged
/// against the head that it was rebased onto; one that landed consumes it.
pub proof fn law_promotion_keeps_or_consumes(
    s: Server,
    id: String,
    t: Server,
    fork: ForkState,
    landed: Landed,
    u: Server,
    answer: Result<Reply, String>,
    consumed: Option<ForkState>,
)
    requires
        s.wf(),
        works(s, Op::Promote { id }, t, Begun::Work(Job::Promote { fork })),
        has_fork(s.forks@, id@),
        promote_ends(t, fork, Ok(landed), u, answer, consumed),
    ensures
        match landed {
            Landed::Conflicted { theirs, ours, files, kept } => {
                &&& u.forks@.len() == s.forks@.len()
                &&& u.forks@.last().entry.id == fork.entry.id
                &&& u.forks@.last().base == theirs
                &&& consumed is None
            },
            _ => {
                &&& u.forks@.len() == s.forks@.len() - 1
                &&& !has_fork(u.forks@, id@)
                &&& consumed == Some(fork)
            },
        },
{
    law_one_fork_goes(s.forks@, id@);
    crate::vecs::lemma_filter_all(t.forks@, other_fork(id@));
}

} // verus!
