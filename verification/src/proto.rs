//! The messages between the command line, the hooks and the daemon of a
//! repository. One request yields exactly one response with the same id.
use vstd::prelude::*;
use crate::text::{copy_opt, copy_texts};

verus! {

/// The version of the protocol; a request of another one is rejected.
pub const PROTOCOL_VERSION: u32 = 1;

/// How many rows of the timeline are listed unless asked otherwise.
pub const DEFAULT_LIMIT: u32 = 50;

/// How many forks are made unless asked otherwise.
pub const DEFAULT_FORK_COUNT: u32 = 1;

#[derive(Debug)]
pub struct Request {
    /// Protocol version.
    pub v: u32,
    /// Caller-chosen id, echoed in the response.
    pub id: u64,
    pub op: Op,
}

#[derive(Debug)]
#[allow(inconsistent_fields)]
pub enum Op {
    Ping,
    Status,
    Checkpoint {
        /// `pre`, `post` or `manual`.
        kind: String,
        session_id: Option<String>,
        tool_call_id: Option<String>,
        tool_name: Option<String>,
        label: Option<String>,
        /// Reply after the checkpoint lands, rather than on enqueue.
        wait: bool,
        /// Also publish.
        durable: bool,
    },
    Timeline { session_id: Option<String>, turn: Option<i64>, limit: u32 },
    Turns { session_id: Option<String> },
    TurnStart { session_id: String, prompt: String },
    Inspect { checkpoint: i64 },
    Sessions { limit: u32 },
    Brief { current: Option<String> },
    Rewind {
        target: RewindTarget,
        /// Restore just this path instead of the whole tree.
        path: Option<String>,
    },
    Diff {
        /// Checkpoint row ids, or beginnings of generations.
        before: Option<i64>,
        after: Option<i64>,
        before_hex: Option<String>,
        after_hex: Option<String>,
    },
    SessionStart { session_id: String, host: String },
    SessionEnd { session_id: String },
    Commit,
    Stop,
    Fork { count: u32, session_id: Option<String> },
    ForkList,
    ForkDrop { id: String },
    Promote { id: String },
    ForkDiff { id: String },
    SessionFork { session_id: String },
    SessionResolve { session_id: String },
    SessionApply { session_id: String },
    SessionDiscard { session_id: String },
}

#[derive(Debug)]
pub enum RewindTarget {
    Checkpoint(i64),
    Last,
    SessionStart(String),
}

#[derive(Debug)]
pub struct Response {
    pub id: u64,
    pub payload: Payload,
}

#[derive(Debug)]
pub enum Payload {
    Reply(Box<Reply>),
    Error { message: String },
}

#[derive(Debug)]
pub enum Reply {
    Pong,
    Unit,
    Status(StatusInfo),
    /// The capture is queued, not yet landed.
    Enqueued,
    Checkpoint(CheckpointInfo),
    Timeline(Vec<TimelineEntry>),
    Turns(Vec<TurnEntry>),
    Turn(TurnInfo),
    Inspect(InspectInfo),
    Sessions(Vec<SessionEntry>),
    Brief(BriefInfo),
    Rewind(RewindInfo),
    Restore(RestoreInfo),
    Diff(Vec<DiffEntry>),
    Forks(Vec<ForkEntry>),
    Promote(PromoteInfo),
    SessionPending(SessionPendingInfo),
}

#[derive(Debug)]
pub struct ForkEntry {
    pub id: String,
    pub path: String,
    /// `mount` or `copy`.
    pub mode: String,
    /// The published generation that the fork was cut from.
    pub base: String,
    pub created_at: i64,
    /// The session that a scratch fork belongs to.
    pub session_id: Option<String>,
    /// Paths that hold conflict markers.
    pub conflict_paths: Vec<String>,
    pub conflict: Option<ConflictInfo>,
}

/// The three generations of a conflict that a promote opened.
#[derive(Debug)]
pub struct ConflictInfo {
    pub base: String,
    pub ours: String,
    pub theirs: String,
}

#[derive(Debug)]
pub struct ConflictEntry {
    pub path: String,
    pub detail: String,
}

#[derive(Debug)]
pub struct PromoteInfo {
    pub generation: String,
    /// Where the replaced tree went, where one was replaced.
    pub old_tree: Option<String>,
    pub warning: String,
    pub replayed_paths: u32,
    pub merged_files: u32,
    pub conflicts: Vec<ConflictEntry>,
    pub fork_path: Option<String>,
    /// Ignored paths of which the mainline kept its copy.
    pub kept_mainline: Vec<String>,
    pub mainline_moved: bool,
}

#[derive(Debug)]
pub struct StatusInfo {
    pub state: String,
    pub last_checkpoint: Option<i64>,
    pub unpublished: u64,
    pub store_bytes: u64,
    pub repo_root: String,
    pub mount_provider: String,
    pub mount_available: bool,
    pub mount_reason: Option<String>,
}

#[derive(Debug)]
pub struct CheckpointInfo {
    pub row_id: i64,
    pub generation: String,
    pub kind: String,
}

#[derive(Debug)]
pub struct TimelineEntry {
    pub id: i64,
    pub created_at: i64,
    pub kind: String,
    pub published: bool,
    pub session_id: Option<String>,
    pub tool_name: Option<String>,
    pub label: Option<String>,
    pub error: Option<String>,
    pub turn: Option<i64>,
}

#[derive(Debug)]
pub struct TurnEntry {
    pub session_id: String,
    pub turn: i64,
    pub started_at: i64,
    pub prompt: String,
    pub first_checkpoint: Option<i64>,
    pub last_checkpoint: Option<i64>,
    pub checkpoints: i64,
    /// The state before the turn's first checkpoint.
    pub base_checkpoint: Option<i64>,
}

#[derive(Debug)]
pub struct TurnInfo {
    pub session_id: String,
    pub turn: i64,
}

#[derive(Debug)]
pub struct InspectInfo {
    pub id: i64,
    pub generation: String,
    pub created_at: i64,
    pub kind: String,
    pub published: bool,
    pub session_id: Option<String>,
    pub host: Option<String>,
    pub turn: Option<i64>,
    pub prompt: Option<String>,
    pub tool_name: Option<String>,
    pub tool_call_id: Option<String>,
    pub label: Option<String>,
    pub error: Option<String>,
    pub rewind_target: Option<i64>,
}

#[derive(Debug)]
pub struct SessionEntry {
    pub session_id: String,
    pub host: Option<String>,
    pub started_at: i64,
    pub ended_at: Option<i64>,
    pub checkpoints: i64,
    pub turns: i64,
    pub end_checkpoint: Option<i64>,
}

/// Where the previous session ended and what has moved since.
#[derive(Debug)]
pub struct BriefInfo {
    pub session: Option<BriefSession>,
    pub drift_files: u64,
}

#[derive(Debug)]
pub struct BriefSession {
    pub session_id: String,
    pub host: Option<String>,
    pub started_at: i64,
    pub ended_at: Option<i64>,
    pub turns: i64,
    pub checkpoints: i64,
    pub end_checkpoint: Option<i64>,
    pub end_turn: Option<i64>,
    pub end_prompt: Option<String>,
    pub files_changed: u64,
    pub sample_paths: Vec<String>,
    pub abandoned: Vec<BriefAbandoned>,
}

/// A branch that a rewind left behind.
#[derive(Debug)]
pub struct BriefAbandoned {
    pub from_checkpoint: i64,
    pub to_checkpoint: i64,
    pub rewound_to: i64,
    pub turn: Option<i64>,
    pub prompt: Option<String>,
    pub checkpoints: i64,
    pub files_changed: u64,
}

#[derive(Debug)]
pub struct RewindInfo {
    pub restored_checkpoint: i64,
    pub old_tree: String,
    pub warning: String,
}

#[derive(Debug)]
pub struct RestoreInfo {
    pub checkpoint: i64,
    pub path: String,
    /// `restored` or `removed`.
    pub action: String,
    pub recorded_checkpoint: Option<i64>,
}

#[derive(Debug)]
pub struct DiffEntry {
    pub path: String,
    /// `added`, `removed`, `modified` or `metadata`.
    pub change: String,
    pub file_kind: String,
    pub ignored: bool,
}

#[derive(Debug)]
pub struct SessionPendingInfo {
    pub session_id: String,
    pub diff: Vec<DiffEntry>,
}

impl Clone for ConflictInfo {
    fn clone(&self) -> (r: ConflictInfo)
        ensures
            r == *self,
    {
        ConflictInfo {
            base: self.base.clone(),
            ours: self.ours.clone(),
            theirs: self.theirs.clone(),
        }
    }
}

/// A copy of a fork's entry.
pub fn clone_entry(entry: &ForkEntry) -> (r: ForkEntry)
    ensures
        r == (ForkEntry { conflict_paths: r.conflict_paths, ..*entry }),
        r.conflict_paths@ == entry.conflict_paths@,
{
    let conflict = match &entry.conflict {
        Some(info) => Some(info.clone()),
        None => None,
    };
    ForkEntry {
        id: entry.id.clone(),
        path: entry.path.clone(),
        mode: entry.mode.clone(),
        base: entry.base.clone(),
        created_at: entry.created_at,
        session_id: copy_opt(&entry.session_id),
        conflict_paths: copy_texts(&entry.conflict_paths),
        conflict,
    }
}

/// The response to a request that could not be read.
pub fn bad_request(error: &str) -> (r: Response)
    ensures
        r.id == 0,
        r.payload matches Payload::Error { message } && message@ == "bad request: "@ + error@,
{
    let mut message = "bad request: ".to_owned();
    message.append(error);
    Response { id: 0, payload: Payload::Error { message } }
}

/// Whether a response rejects a request of another version, and there is none for
/// one of this.
pub open spec fn checks_version(request: Request, r: Option<Response>) -> bool {
    match r {
        None => request.v == PROTOCOL_VERSION,
        Some(response) => {
            &&& request.v != PROTOCOL_VERSION
            &&& response.id == request.id
            &&& response.payload matches Payload::Error { message } && message@
                == "unsupported protocol version "@ + crate::text::decimal_nat(request.v as nat)
        },
    }
}

/// Versions do not mix: of two requests of different versions at most one is
/// served, and one that is not is answered with an error under its own id.
pub proof fn law_versions_do_not_mix(a: Request, ra: Option<Response>, b: Request, rb: Option<Response>)
    requires
        checks_version(a, ra),
        checks_version(b, rb),
    ensures
        ra is None && rb is None ==> a.v == b.v,
        a.v == b.v ==> (ra is None <==> rb is None),
        ra matches Some(response) ==> response.id == a.id && response.payload is Error,
{
}

/// Whether a request can be served: nothing, or the response that rejects one
/// of another version.
pub fn check_version(request: &Request) -> (r: Option<Response>)
    ensures
        checks_version(*request, r),
        match r {
            None => request.v == PROTOCOL_VERSION,
            Some(response) => {
                &&& request.v != PROTOCOL_VERSION
                &&& response.id == request.id
                &&& response.payload matches Payload::Error { message } && message@
                    == "unsupported protocol version "@ + crate::text::decimal_nat(
                    request.v as nat,
                )
            },
        },
{
    if request.v == PROTOCOL_VERSION {
        return None;
    }
    let mut message = "unsupported protocol version ".to_owned();
    crate::text::push_nat(&mut message, request.v as u64);
    Some(Response { id: request.id, payload: Payload::Error { message } })
}

/// The response to a request: its id, and the reply or why there is none.
pub fn respond(id: u64, result: Result<Reply, String>) -> (r: Response)
    ensures
        r == carried(id, result),
{
    match result {
        Ok(reply) => Response { id, payload: Payload::Reply(Box::new(reply)) },
        Err(message) => Response { id, payload: Payload::Error { message } },
    }
}

/// What a response holds: the reply, or the daemon's message.
pub open spec fn held(response: Response) -> Result<Reply, String> {
    match response.payload {
        Payload::Reply(reply) => Ok(*reply),
        Payload::Error { message } => Err(message),
    }
}

/// What a caller makes of a response.
pub fn accept(response: Response) -> (r: Result<Reply, String>)
    ensures
        r == held(response),
{
    match response.payload {
        Payload::Reply(reply) => Ok(*reply),
        Payload::Error { message } => Err(message),
    }
}

/// The response that a result travels in.
pub open spec fn carried(id: u64, result: Result<Reply, String>) -> Response {
    match result {
        Ok(reply) => Response { id, payload: Payload::Reply(Box::new(reply)) },
        Err(message) => Response { id, payload: Payload::Error { message } },
    }
}

/// What the daemon answers arrives as it was sent: a reply as the reply, a
/// refusal as its message, under the id of the request.
pub proof fn law_replies_arrive(id: u64, result: Result<Reply, String>)
    ensures
        held(carried(id, result)) == result,
        carried(id, result).id == id,
{
}

} // verus!
