//! The capture pipeline: requests are taken one at a time, and each is worked
//! off by acts on the snapshot engine and the watcher.
//!
//! Snapshots per tool call are checkpoints, which publish nothing; commits run
//! at coarse boundaries only. [`Pipeline`] says what to do next, keeps the
//! index, and answers; the caller performs the acts.
use vstd::prelude::*;
use crate::diff::FileChange;
use crate::digest::GenerationId;
use crate::error::{error_text, EngineError};
use crate::index::{
    failure_row, inherited_turn, no_attribution, published_through, success_row, unpublished,
    Attribution, CheckpointKind, CheckpointRow, Index, TurnRow,
};
use crate::rewind::RewindOutcome;
use crate::text::{decimal, push_int};

verus! {

/// Pipeline state reported by `status`.
#[derive(Clone, Copy, Debug, PartialEq, Eq, Structural)]
pub enum State {
    Baselining,
    Ready,
    Rewinding,
}

/// The name of a state in messages.
pub open spec fn state_label(state: State) -> Seq<char> {
    match state {
        State::Baselining => "Baselining"@,
        State::Ready => "Ready"@,
        State::Rewinding => "Rewinding"@,
    }
}

/// The name of a state on the wire.
pub open spec fn state_text(state: State) -> Seq<char> {
    match state {
        State::Baselining => "baselining"@,
        State::Ready => "ready"@,
        State::Rewinding => "rewinding"@,
    }
}

impl State {
    fn label(self) -> (r: &'static str)
        ensures
            r@ == state_label(self),
    {
        match self {
            State::Baselining => "Baselining",
            State::Ready => "Ready",
            State::Rewinding => "Rewinding",
        }
    }

    /// The name of this state on the wire.
    pub fn as_str(self) -> (r: &'static str)
        ensures
            r@ == state_text(self),
    {
        match self {
            State::Baselining => "baselining",
            State::Ready => "ready",
            State::Rewinding => "rewinding",
        }
    }
}

/// Result of a checkpoint request.
#[derive(Clone, Copy, Debug, PartialEq, Eq)]
pub struct CheckpointOutcome {
    pub row_id: i64,
    pub generation: GenerationId,
    pub kind: CheckpointKind,
}

/// Snapshot of pipeline health.
#[derive(Clone, Copy, Debug, PartialEq, Eq)]
pub struct StatusReport {
    pub state: State,
    pub last_checkpoint: Option<i64>,
    pub unpublished: u64,
    pub checkpoints_since_commit: u32,
}

/// What is asked of the pipeline.
#[derive(Debug)]
pub enum Request {
    Checkpoint { kind: CheckpointKind, attribution: Attribution },
    Commit,
    Rewind { target: CheckpointRow },
    Diff { before: GenerationId, after: GenerationId },
    Status,
    SessionStarted { session_id: String, host: String },
    SessionEnded { session_id: String },
    TurnStarted { session_id: String, prompt: String },
    Shutdown,
}

/// What a request is answered.
#[derive(Debug)]
pub enum Reply {
    Checkpoint(CheckpointOutcome),
    Unit,
    Rewind(RewindOutcome),
    Diff(Vec<FileChange>),
    Status(StatusReport),
    Turn(i64),
    Failed(EngineError),
}

/// What a checkpoint's worth of watching belongs to.
#[derive(Clone, Copy, Debug, PartialEq, Eq, Structural)]
pub enum Use {
    Checkpoint,
    Rewind,
}

/// What a baseline belongs to: the start, a watcher that lost track while a
/// checkpoint or a rewind drained it, or the end of a rewind.
#[derive(Clone, Copy, Debug, PartialEq, Eq, Structural)]
pub enum Then {
    Start,
    Drained(Use),
    Rewound,
}

/// Why a commit runs.
#[derive(Clone, Copy, Debug, PartialEq, Eq, Structural)]
pub enum Cause {
    /// It was asked for, or a session began or ended.
    Asked,
    /// Enough checkpoints have gathered.
    Due,
    /// The state before a rewind must be safe.
    Safety,
}

/// Where the work on a request is.
#[derive(Clone, Copy, Debug, PartialEq, Eq, Structural)]
pub enum Stage {
    Idle,
    Draining(Use),
    BeginningRescan(Use),
    Capturing(Then),
    BaseSnapshot(Then),
    FinishingRescan(Then),
    CapturingTail(Then),
    BaseCommit(Then),
    Snapshotting(Use),
    Committing(Cause),
    Executing,
    Resetting,
    Diffing,
}

/// One act on the snapshot engine or the watcher.
#[derive(Clone, Copy, Debug, PartialEq, Eq, Structural)]
pub enum Act {
    Wait,
    /// Capture change batches until the watcher is quiet.
    Drain,
    BeginRescan,
    CaptureBaseline,
    /// Snapshot without publishing.
    Snapshot,
    FinishRescan,
    /// Capture what changed while the baseline was taken.
    CaptureTail,
    /// Publish.
    Commit,
    /// Put the target of the rewind in place.
    Execute,
    ResetWatch,
    Diff,
}

/// What came of a commit.
#[derive(Debug)]
pub enum CommitOutcome {
    Committed,
    AlreadyCommitted,
    /// There was nothing to publish.
    NothingPending,
    /// An outcome that a single writer cannot have.
    Unexpected(String),
    Failed(String),
}

/// What came of an act.
#[derive(Debug)]
pub enum Event {
    Done,
    /// The watcher is quiet; whether anything was captured.
    Drained(bool),
    /// The watcher lost track.
    RescanRequired,
    Snapshot(GenerationId),
    /// The rescan is finished; whether anything changed meanwhile.
    Rescanned(bool),
    Commit(CommitOutcome),
    Rewound(RewindOutcome),
    Changes(Vec<FileChange>),
    Failed(EngineError),
}

/// The act of a stage.
pub open spec fn act_of(stage: Stage) -> Act {
    match stage {
        Stage::Idle => Act::Wait,
        Stage::Draining(_) => Act::Drain,
        Stage::BeginningRescan(_) => Act::BeginRescan,
        Stage::Capturing(_) => Act::CaptureBaseline,
        Stage::BaseSnapshot(_) => Act::Snapshot,
        Stage::FinishingRescan(_) => Act::FinishRescan,
        Stage::CapturingTail(_) => Act::CaptureTail,
        Stage::BaseCommit(_) => Act::Commit,
        Stage::Snapshotting(_) => Act::Snapshot,
        Stage::Committing(_) => Act::Commit,
        Stage::Executing => Act::Execute,
        Stage::Resetting => Act::ResetWatch,
        Stage::Diffing => Act::Diff,
    }
}

/// The pipeline.
pub struct Pipeline {
    pub state: State,
    pub index: Index,
    pub last_generation: GenerationId,
    pub last_row: Option<i64>,
    pub since_commit: u32,
    /// A commit is due after this many checkpoints.
    pub commit_every: u32,
    pub stage: Stage,
    /// What the checkpoint under way is recorded as.
    pub kind: CheckpointKind,
    pub attribution: Attribution,
    /// What the checkpoint under way will be answered, once it is recorded.
    pub recorded: Option<CheckpointOutcome>,
    /// The row that the rewind under way is headed for.
    pub target: Option<CheckpointRow>,
    /// What came of putting its target in place.
    pub rewound: Option<Result<RewindOutcome, EngineError>>,
    /// The two generations of the diff under way.
    pub compared: Option<(GenerationId, GenerationId)>,
    /// Whether the pipeline ends with the request under way.
    pub closing: bool,
    /// Why the first baseline could not be taken.
    pub broken: Option<String>,
}

/// What is kept of rows and generations, aside from the work under way.
pub struct Ledger {
    pub state: State,
    pub rows: Seq<CheckpointRow>,
    pub last_generation: GenerationId,
    pub last_row: Option<i64>,
    pub since_commit: u32,
}

/// A ledger with a row added, which becomes the last checkpoint.
pub open spec fn with_row(l: Ledger, row: CheckpointRow) -> Ledger {
    Ledger {
        rows: l.rows.push(row),
        last_generation: row.generation,
        last_row: Some(row.id),
        ..l
    }
}

/// A ledger after a successful commit: everything up to the last checkpoint is
/// published.
pub open spec fn committed(l: Ledger) -> Ledger {
    Ledger {
        rows: match l.last_row {
            Some(id) => published_through(l.rows, id as int),
            None => l.rows,
        },
        since_commit: 0,
        ..l
    }
}

/// Whether a commit succeeded; that nothing was pending is success.
pub open spec fn commit_ok(outcome: CommitOutcome) -> bool {
    match outcome {
        CommitOutcome::Unexpected(_) => false,
        CommitOutcome::Failed(_) => false,
        _ => true,
    }
}

/// Whether an error is what a commit that did not succeed is reported as.
pub open spec fn is_commit_error(outcome: CommitOutcome, error: EngineError) -> bool {
    match outcome {
        CommitOutcome::Unexpected(text) => error matches EngineError::Fs(t) && t@
            == "unexpected commit outcome (single-writer invariant broken): "@ + text@,
        CommitOutcome::Failed(text) => error matches EngineError::Fs(t) && t@ == "commit: "@
            + text@,
        _ => false,
    }
}

/// The row of a rewind's safety checkpoint.
pub open spec fn is_safety_row(
    row: CheckpointRow,
    id: int,
    generation: GenerationId,
    now: i64,
    target: CheckpointRow,
) -> bool {
    &&& row.label matches Some(label) && label@ == "before rewind to #"@ + decimal(target.id as int)
    &&& row == success_row(
        id,
        generation,
        CheckpointKind::PreRewind,
        now,
        (Attribution { label: row.label, rewind_target: Some(target.id), ..no_attribution() }),
        None,
    )
}

/// Whether a pipeline has just started on an index.
pub open spec fn starts(index: Index, commit_every: u32, p: Pipeline) -> bool {
    &&& p.index == index
    &&& p.commit_every == commit_every
    &&& p.state == State::Baselining
    &&& p.stage == Stage::Capturing(Then::Start)
    &&& p.last_row is None
    &&& p.since_commit == 0
    &&& !p.closing
    &&& p.broken is None
}

impl Pipeline {
    /// The ledger of this pipeline.
    pub open spec fn ledger(&self) -> Ledger {
        Ledger {
            state: self.state,
            rows: self.index.rows@,
            last_generation: self.last_generation,
            last_row: self.last_row,
            since_commit: self.since_commit,
        }
    }

    /// What holds between two acts: the index is in order, and a rewind under
    /// way knows its target.
    pub open spec fn wf(&self) -> bool {
        &&& self.index.wf()
        &&& needs_target(self.stage) ==> self.target is Some
        &&& self.stage == Stage::Committing(Cause::Due) ==> self.recorded is Some
        &&& self.stage == Stage::Resetting || self.stage == Stage::Capturing(Then::Rewound)
            || self.stage == Stage::BaseSnapshot(Then::Rewound) || self.stage
            == Stage::FinishingRescan(Then::Rewound) || self.stage == Stage::CapturingTail(
            Then::Rewound,
        ) || self.stage == Stage::BaseCommit(Then::Rewound) ==> self.rewound is Some
        &&& self.last_row matches Some(id) ==> self.index.rows@.len() > 0 && id
            <= self.index.rows@.last().id
    }

    /// A pipeline that is about to take its first baseline.
    pub fn start(index: Index, commit_every: u32) -> (r: Pipeline)
        requires
            index.wf(),
        ensures
            r.wf(),
            starts(index, commit_every, r),
            r.index == index,
            r.commit_every == commit_every,
            r.state == State::Baselining,
            r.stage == Stage::Capturing(Then::Start),
            r.last_generation@ == Seq::new(32, |i: int| 0u8),
            r.last_row is None,
            r.since_commit == 0,
            !r.closing,
            r.broken is None,
    {
        let zero = GenerationId { bytes: [0;32] };
        assert(zero@ =~= Seq::new(32, |i: int| 0u8));
        Pipeline {
            state: State::Baselining,
            index,
            last_generation: zero,
            last_row: None,
            since_commit: 0,
            commit_every,
            stage: Stage::Capturing(Then::Start),
            kind: CheckpointKind::Baseline,
            attribution: Attribution::default(),
            recorded: None,
            target: None,
            rewound: None,
            compared: None,
            closing: false,
            broken: None,
        }
    }

    /// The act to perform now.
    pub fn act(&self) -> (r: Act)
        ensures
            r == act_of(self.stage),
    {
        match self.stage {
            Stage::Idle => Act::Wait,
            Stage::Draining(_) => Act::Drain,
            Stage::BeginningRescan(_) => Act::BeginRescan,
            Stage::Capturing(_) => Act::CaptureBaseline,
            Stage::BaseSnapshot(_) => Act::Snapshot,
            Stage::FinishingRescan(_) => Act::FinishRescan,
            Stage::CapturingTail(_) => Act::CaptureTail,
            Stage::BaseCommit(_) => Act::Commit,
            Stage::Snapshotting(_) => Act::Snapshot,
            Stage::Committing(_) => Act::Commit,
            Stage::Executing => Act::Execute,
            Stage::Resetting => Act::ResetWatch,
            Stage::Diffing => Act::Diff,
        }
    }

    /// Records a row and makes it the last checkpoint.
    fn record(&mut self, generation: GenerationId, kind: CheckpointKind, attribution: &Attribution, now: i64) -> (id: i64)
        requires
            old(self).index.wf(),
            old(self).index.next_id() <= i64::MAX,
        ensures
            final(self).index.wf(),
            id == old(self).index.next_id(),
            final(self).ledger() == with_row(
                old(self).ledger(),
                success_row(
                    id as int,
                    generation,
                    kind,
                    now,
                    *attribution,
                    inherited_turn(old(self).index.turns@, *attribution),
                ),
            ),
            *final(self) == (Pipeline {
                index: final(self).index,
                last_generation: generation,
                last_row: Some(id),
                ..*old(self)
            }),
            final(self).index.turns == old(self).index.turns,
            final(self).index.sessions == old(self).index.sessions,
            final(self).index.rows@.len() > 0,
            final(self).index.rows@.last().id == id,
    {
        let id: i64 = self.index.record(generation, kind, attribution, now);
        self.last_generation = generation;
        self.last_row = Some(id);
        id
    }

    /// Takes what came of a commit.
    fn commit_result(&mut self, outcome: CommitOutcome) -> (r: Result<(), EngineError>)
        requires
            old(self).index.wf(),
            old(self).last_row matches Some(id) ==> old(self).index.rows@.len() > 0 && id <= old(
                self,
            ).index.rows@.last().id,
        ensures
            final(self).index.wf(),
            match r {
                Ok(()) => commit_ok(outcome) && final(self).ledger() == committed(
                    old(self).ledger(),
                ),
                Err(error) => !commit_ok(outcome) && is_commit_error(outcome, error) && *final(self)
                    == *old(self),
            },
            *final(self) == (Pipeline {
                index: final(self).index,
                since_commit: final(self).since_commit,
                ..*old(self)
            }),
            final(self).index.turns == old(self).index.turns,
            final(self).index.sessions == old(self).index.sessions,
            final(self).index.rows@.len() == old(self).index.rows@.len(),
            final(self).index.rows@.len() > 0 ==> final(self).index.rows@.last().id == old(
                self,
            ).index.rows@.last().id,
            final(self).index.next_id() == old(self).index.next_id(),
    {
        match outcome {
            CommitOutcome::Unexpected(text) => {
                let mut message =
                    "unexpected commit outcome (single-writer invariant broken): ".to_owned();
                message.append(text.as_str());
                Err(EngineError::Fs(message))
            },
            CommitOutcome::Failed(text) => {
                let mut message = "commit: ".to_owned();
                message.append(text.as_str());
                Err(EngineError::Fs(message))
            },
            _ => {
                if let Some(row) = self.last_row {
                    self.index.mark_published(row);
                }
                self.since_commit = 0;
                Ok(())
            },
        }
    }
}

/// Whether a stage is one of a rewind before its target is in place.
pub open spec fn needs_target(stage: Stage) -> bool {
    match stage {
        Stage::Draining(Use::Rewind) => true,
        Stage::BeginningRescan(Use::Rewind) => true,
        Stage::Capturing(Then::Drained(Use::Rewind)) => true,
        Stage::BaseSnapshot(Then::Drained(Use::Rewind)) => true,
        Stage::FinishingRescan(Then::Drained(Use::Rewind)) => true,
        Stage::CapturingTail(Then::Drained(Use::Rewind)) => true,
        Stage::BaseCommit(Then::Drained(Use::Rewind)) => true,
        Stage::Snapshotting(Use::Rewind) => true,
        Stage::Committing(Cause::Safety) => true,
        Stage::Executing => true,
        _ => false,
    }
}

/// Whether a checkpoint is under way at a stage, so that a failure is kept as
/// a row.
pub open spec fn in_checkpoint(stage: Stage) -> bool {
    match stage {
        Stage::Draining(Use::Checkpoint) => true,
        Stage::BeginningRescan(Use::Checkpoint) => true,
        Stage::Capturing(Then::Drained(Use::Checkpoint)) => true,
        Stage::BaseSnapshot(Then::Drained(Use::Checkpoint)) => true,
        Stage::FinishingRescan(Then::Drained(Use::Checkpoint)) => true,
        Stage::CapturingTail(Then::Drained(Use::Checkpoint)) => true,
        Stage::BaseCommit(Then::Drained(Use::Checkpoint)) => true,
        Stage::Snapshotting(Use::Checkpoint) => true,
        Stage::Committing(Cause::Due) => true,
        _ => false,
    }
}

/// Whether a request is refused because the pipeline could not start.
pub open spec fn is_start_error(why: Seq<char>, error: EngineError) -> bool {
    error matches EngineError::Store(text) && text@ == "pipeline failed to start: "@ + why
}

/// Whether a ledger has a row of a failed checkpoint added, and nothing else
/// changed.
pub open spec fn failure_kept(p: Pipeline, error: EngineError, attribution: Attribution, now: i64, q: Pipeline) -> bool {
    &&& q.index.rows@.len() == p.index.rows@.len() + 1
    &&& q.index.rows@.last().error matches Some(text) && text@ == error_text(error)
        && q.index.rows@ == p.index.rows@.push(
        failure_row(
            p.index.next_id(),
            p.last_generation,
            now,
            text,
            attribution,
            inherited_turn(p.index.turns@, attribution),
        ),
    )
    &&& q.ledger() == (Ledger { rows: q.index.rows@, ..p.ledger() })
}

/// What a request makes of an idle pipeline, and what it is answered at once.
pub open spec fn submitted(p: Pipeline, request: Request, now: i64, q: Pipeline, reply: Option<Reply>) -> bool {
    let same_ledger = q.ledger() == p.ledger();
    let starts_checkpoint = request is Checkpoint && p.broken is None && p.state == State::Ready;
    let starts_rewind = request is Rewind && p.broken is None;
    &&& q.commit_every == p.commit_every
    &&& q.broken == p.broken
    &&& q.closing == (p.closing || request is Shutdown)
    &&& !starts_checkpoint ==> q.kind == p.kind && q.attribution == p.attribution
    &&& q.recorded == if starts_checkpoint { None } else { p.recorded }
    &&& !starts_rewind ==> q.target == p.target
    &&& q.rewound == if starts_rewind { None } else { p.rewound }
    &&& q.stage != Stage::Diffing ==> q.compared == p.compared
    &&& !(request is SessionStarted) && !(request is SessionEnded) ==> q.index.sessions
        == p.index.sessions
    &&& !(request is TurnStarted) ==> q.index.turns == p.index.turns
    &&& if p.broken is Some {
        &&& q == (Pipeline { closing: q.closing, ..p })
        &&& match request {
            Request::Status => reply == Some(
                Reply::Status(
                    StatusReport {
                        state: State::Baselining,
                        last_checkpoint: None,
                        unpublished: 0,
                        checkpoints_since_commit: 0,
                    },
                ),
            ),
            Request::Shutdown => reply == Some(Reply::Unit),
            _ => reply matches Some(Reply::Failed(error)) && is_start_error(p.broken->0@, error),
        }
    } else {
        match request {
            Request::Checkpoint { kind, attribution } => if p.state != State::Ready {
                &&& reply matches Some(Reply::Failed(error)) && error matches EngineError::Capture(
                    text,
                ) && text@ == "pipeline not ready ("@ + state_label(p.state) + ")"@ && failure_kept(
                    p,
                    error,
                    attribution,
                    now,
                    q,
                )
                &&& q.stage == Stage::Idle
            } else {
                &&& reply is None
                &&& same_ledger
                &&& q.stage == Stage::Draining(Use::Checkpoint)
                &&& q.kind == kind
                &&& q.attribution == attribution
            },
            Request::Commit => reply is None && same_ledger && q.stage == Stage::Committing(
                Cause::Asked,
            ),
            Request::Rewind { target } => {
                &&& reply is None
                &&& q.ledger() == (Ledger { state: State::Rewinding, ..p.ledger() })
                &&& q.stage == Stage::Draining(Use::Rewind)
                &&& q.target == Some(target)
            },
            Request::Diff { before, after } => if before == after {
                &&& reply matches Some(Reply::Diff(changes)) && changes@.len() == 0
                &&& same_ledger
                &&& q.stage == Stage::Idle
            } else {
                &&& reply is None
                &&& same_ledger
                &&& q.stage == Stage::Diffing
                &&& q.compared == Some((before, after))
            },
            Request::Status => {
                &&& reply matches Some(Reply::Status(report)) && report.state == p.state
                    && report.last_checkpoint == p.last_row && report.unpublished == unpublished(
                    p.index.rows@,
                ).len() && report.checkpoints_since_commit == p.since_commit
                &&& same_ledger
                &&& q.stage == Stage::Idle
            },
            Request::SessionStarted { session_id, host } => {
                &&& reply is None
                &&& same_ledger
                &&& q.stage == Stage::Committing(Cause::Asked)
                &&& (exists|i: int|
                    #[trigger] crate::index::session_at(p.index.sessions@, session_id@, i))
                    ==> q.index.sessions@ == p.index.sessions@
                &&& (forall|i: int|
                    !#[trigger] crate::index::session_at(p.index.sessions@, session_id@, i))
                    ==> q.index.sessions@ == p.index.sessions@.push(
                    (crate::index::SessionRow {
                        session_id,
                        host: Some(host),
                        started_at: now,
                        ended_at: None,
                    }),
                )
            },
            Request::SessionEnded { session_id } => {
                &&& reply is None
                &&& same_ledger
                &&& q.stage == Stage::Committing(Cause::Asked)
                &&& q.index.sessions@ == p.index.sessions@.map_values(
                    |row: crate::index::SessionRow|
                        if row.session_id@ == session_id@ {
                            crate::index::SessionRow { ended_at: Some(now), ..row }
                        } else {
                            row
                        },
                )
            },
            Request::TurnStarted { session_id, prompt } => {
                &&& same_ledger
                &&& q.stage == Stage::Idle
                &&& q.index.turns@.len() == p.index.turns@.len() + 1
                &&& q.index.turns@.drop_last() == p.index.turns@
                &&& q.index.turns@.last().session_id == session_id
                &&& q.index.turns@.last().started_at == now
                &&& q.index.turns@.last().prompt@ == crate::index::excerpt(prompt@)
                &&& reply == Some(Reply::Turn(q.index.turns@.last().turn))
                &&& q.index.turns@.last().turn == match crate::index::current_turn(
                    p.index.turns@,
                    session_id@,
                ) {
                    Some(t) => t + 1,
                    None => 1,
                }
            },
            Request::Shutdown => reply is None && same_ledger && q.stage == Stage::Committing(
                Cause::Asked,
            ),
        }
    }
}

impl Pipeline {
    /// Keeps a failed checkpoint as a row.
    fn keep_failure(&mut self, error: &EngineError, attribution: &Attribution, now: i64)
        requires
            old(self).index.wf(),
            old(self).index.next_id() <= i64::MAX,
        ensures
            final(self).index.wf(),
            failure_kept(*old(self), *error, *attribution, now, *final(self)),
            *final(self) == (Pipeline { index: final(self).index, ..*old(self) }),
            final(self).index.sessions == old(self).index.sessions,
            final(self).index.turns == old(self).index.turns,
    {
        let text = error.message();
        let _ = self.index.record_failure(self.last_generation, &text, attribution, now);
    }

    /// Takes a request while none is under way. What can be answered at once
    /// is; for the rest, acts follow.
    pub fn submit(&mut self, request: Request, now: i64) -> (reply: Option<Reply>)
        requires
            old(self).wf(),
            old(self).stage == Stage::Idle,
            old(self).index.next_id() <= i64::MAX,
            request matches Request::TurnStarted { session_id, .. }
                ==> crate::index::current_turn(old(self).index.turns@, session_id@) != Some(
                i64::MAX,
            ),
        ensures
            final(self).wf(),
            submitted(*old(self), request, now, *final(self), reply),
    {
        if let Some(why) = &self.broken {
            return match request {
                Request::Status => Some(
                    Reply::Status(
                        StatusReport {
                            state: State::Baselining,
                            last_checkpoint: None,
                            unpublished: 0,
                            checkpoints_since_commit: 0,
                        },
                    ),
                ),
                Request::Shutdown => {
                    self.closing = true;
                    Some(Reply::Unit)
                },
                _ => {
                    let mut text = "pipeline failed to start: ".to_owned();
                    text.append(why.as_str());
                    Some(Reply::Failed(EngineError::Store(text)))
                },
            };
        }
        match request {
            Request::Checkpoint { kind, attribution } => {
                if self.state != State::Ready {
                    let mut text = "pipeline not ready (".to_owned();
                    text.append(self.state.label());
                    text.append(")");
                    let error = EngineError::Capture(text);
                    self.keep_failure(&error, &attribution, now);
                    return Some(Reply::Failed(error));
                }
                self.kind = kind;
                self.attribution = attribution;
                self.recorded = None;
                self.stage = Stage::Draining(Use::Checkpoint);
                None
            },
            Request::Commit => {
                self.stage = Stage::Committing(Cause::Asked);
                None
            },
            Request::Rewind { target } => {
                self.state = State::Rewinding;
                self.target = Some(target);
                self.rewound = None;
                self.stage = Stage::Draining(Use::Rewind);
                None
            },
            Request::Diff { before, after } => {
                if before.same(&after) {
                    return Some(Reply::Diff(Vec::new()));
                }
                self.compared = Some((before, after));
                self.stage = Stage::Diffing;
                None
            },
            Request::Status => Some(
                Reply::Status(
                    StatusReport {
                        state: self.state,
                        last_checkpoint: self.last_row,
                        unpublished: self.index.unpublished_count(),
                        checkpoints_since_commit: self.since_commit,
                    },
                ),
            ),
            Request::SessionStarted { session_id, host } => {
                self.index.session_started(&session_id, &host, now);
                self.stage = Stage::Committing(Cause::Asked);
                None
            },
            Request::SessionEnded { session_id } => {
                self.index.session_ended(session_id.as_str(), now);
                self.stage = Stage::Committing(Cause::Asked);
                None
            },
            Request::TurnStarted { session_id, prompt } => {
                let turn: i64 = self.index.turn_started(&session_id, prompt.as_str(), now);
                Some(Reply::Turn(turn))
            },
            Request::Shutdown => {
                self.closing = true;
                self.stage = Stage::Committing(Cause::Asked);
                None
            },
        }
    }
}

/// Whether an event answers the act of a stage.
pub open spec fn answers(stage: Stage, event: Event) -> bool {
    match stage {
        Stage::Idle => false,
        Stage::Draining(_) => event is Drained || event is RescanRequired,
        Stage::BeginningRescan(_) => event is Done,
        Stage::Capturing(_) => event is Done,
        Stage::BaseSnapshot(_) => event is Snapshot,
        Stage::FinishingRescan(_) => event is Rescanned,
        Stage::CapturingTail(_) => event is Done,
        Stage::BaseCommit(_) => event is Commit,
        Stage::Snapshotting(_) => event is Snapshot,
        Stage::Committing(_) => event is Commit,
        Stage::Executing => event is Rewound || event is Failed,
        Stage::Resetting => event is Done,
        Stage::Diffing => event is Changes,
    }
}

/// What the checkpoint under way is once it has been recorded: answered, or
/// followed by a commit where one is due.
pub open spec fn after_record(p: Pipeline, row: CheckpointRow, q: Pipeline, reply: Option<Reply>) -> bool {
    let since = if p.since_commit < u32::MAX { (p.since_commit + 1) as u32 } else { u32::MAX };
    let outcome = CheckpointOutcome { row_id: row.id, generation: row.generation, kind: row.kind };
    &&& q.ledger() == (Ledger { since_commit: since, ..with_row(p.ledger(), row) })
    &&& if since >= p.commit_every {
        &&& reply is None
        &&& q.stage == Stage::Committing(Cause::Due)
        &&& q.recorded == Some(outcome)
    } else {
        &&& reply == Some(Reply::Checkpoint(outcome))
        &&& q.stage == Stage::Idle
    }
}

/// The row that the checkpoint under way is recorded as.
pub open spec fn checkpoint_row(p: Pipeline, generation: GenerationId, kind: CheckpointKind, now: i64) -> CheckpointRow {
    success_row(
        p.index.next_id(),
        generation,
        kind,
        now,
        p.attribution,
        inherited_turn(p.index.turns@, p.attribution),
    )
}

/// The row that a baseline is recorded as.
pub open spec fn baseline_row(p: Pipeline, generation: GenerationId, then: Then, now: i64) -> CheckpointRow {
    success_row(
        p.index.next_id(),
        generation,
        if then == Then::Start { CheckpointKind::Baseline } else { CheckpointKind::Recovered },
        now,
        no_attribution(),
        None,
    )
}

/// What a failure makes of the work under way: a checkpoint's is kept as a
/// row, the first baseline's breaks the pipeline, and all are answered.
pub open spec fn gave_up(p: Pipeline, error: EngineError, now: i64, q: Pipeline, reply: Option<Reply>) -> bool {
    &&& reply == Some(Reply::Failed(error))
    &&& q.stage == Stage::Idle
    &&& if in_checkpoint(p.stage) {
        failure_kept(p, error, p.attribution, now, q)
    } else {
        q.ledger() == p.ledger()
    }
    &&& if at_start(p.stage) {
        q.broken matches Some(why) && why@ == error_text(error)
    } else {
        q.broken == p.broken
    }
}

/// Whether the first baseline is being taken at a stage.
pub open spec fn at_start(stage: Stage) -> bool {
    match stage {
        Stage::Capturing(Then::Start) => true,
        Stage::BaseSnapshot(Then::Start) => true,
        Stage::FinishingRescan(Then::Start) => true,
        Stage::CapturingTail(Then::Start) => true,
        Stage::BaseCommit(Then::Start) => true,
        _ => false,
    }
}

/// Whether the work under way is still the same: what its checkpoint is to be
/// recorded as, what its rewind is headed for and what its diff compares; and
/// what its checkpoint will be answered, unless that is settled here.
pub open spec fn same_work(p: Pipeline, q: Pipeline) -> bool {
    &&& q.kind == p.kind
    &&& q.attribution == p.attribution
    &&& q.target == p.target
    &&& q.compared == p.compared
    &&& q.stage != Stage::Committing(Cause::Due) ==> q.recorded == p.recorded
}

/// What is known of putting a rewind's target in place, after an event: the
/// outcome of doing so is kept until the rewind is answered.
pub open spec fn rewound_after(p: Pipeline, event: Event) -> Option<
    Result<RewindOutcome, EngineError>,
> {
    match (p.stage, event) {
        (Stage::Executing, Event::Rewound(outcome)) => Some(Ok(outcome)),
        (Stage::Executing, Event::Failed(error)) => Some(Err(error)),
        (Stage::BaseCommit(Then::Rewound), Event::Commit(outcome)) => if commit_ok(outcome) {
            None
        } else {
            p.rewound
        },
        _ => p.rewound,
    }
}

/// What an event makes of the work under way, and whether it is answered.
pub open spec fn advanced(p: Pipeline, event: Event, now: i64, q: Pipeline, reply: Option<Reply>) -> bool {
    let same = q.ledger() == p.ledger() && reply is None;
    &&& q.commit_every == p.commit_every
    &&& q.closing == p.closing
    &&& same_work(p, q)
    &&& q.rewound == rewound_after(p, event)
    &&& q.index.sessions == p.index.sessions
    &&& q.index.turns == p.index.turns
    &&& !at_start(p.stage) ==> q.broken == p.broken
    &&& if p.stage == Stage::Idle {
        q == p && reply is None
    } else if !answers(p.stage, event) {
        match event {
            Event::Failed(error) => gave_up(p, error, now, q, reply),
            _ => reply matches Some(Reply::Failed(error)) && error matches EngineError::Store(text)
                && text@ == "pipeline dropped the request"@ && gave_up(p, error, now, q, reply),
        }
    } else {
        match p.stage {
            Stage::Idle => true,
            Stage::Draining(u) => match event {
                Event::RescanRequired => same && q.stage == Stage::BeginningRescan(u),
                _ => if u == Use::Checkpoint && event == Event::Drained(false) {
                    after_record(
                        p,
                        checkpoint_row(p, p.last_generation, CheckpointKind::Noop, now),
                        q,
                        reply,
                    )
                } else {
                    same && q.stage == Stage::Snapshotting(u)
                },
            },
            Stage::BeginningRescan(u) => {
                &&& reply is None
                &&& q.ledger() == (Ledger { state: State::Baselining, ..p.ledger() })
                &&& q.stage == Stage::Capturing(Then::Drained(u))
            },
            Stage::Capturing(t) => same && q.stage == Stage::BaseSnapshot(t),
            Stage::BaseSnapshot(t) => {
                &&& reply is None
                &&& q.ledger() == with_row(
                    p.ledger(),
                    baseline_row(p, event->Snapshot_0, t, now),
                )
                &&& q.stage == Stage::FinishingRescan(t)
            },
            Stage::FinishingRescan(t) => same && q.stage == if event == Event::Rescanned(true) {
                Stage::CapturingTail(t)
            } else {
                Stage::BaseCommit(t)
            },
            Stage::CapturingTail(t) => same && q.stage == Stage::BaseCommit(t),
            Stage::BaseCommit(t) => if !commit_ok(event->Commit_0) {
                reply matches Some(Reply::Failed(error)) && is_commit_error(
                    event->Commit_0,
                    error,
                ) && gave_up(p, error, now, q, reply)
            } else {
                &&& q.ledger() == (Ledger { state: State::Ready, ..committed(p.ledger()) })
                &&& match t {
                    Then::Start => reply is None && q.stage == Stage::Idle && q.broken == p.broken,
                    Then::Drained(u) => reply is None && q.stage == Stage::Snapshotting(u),
                    Then::Rewound => q.stage == Stage::Idle && reply == Some(
                        match p.rewound->0 {
                            Ok(outcome) => Reply::Rewind(outcome),
                            Err(error) => Reply::Failed(error),
                        },
                    ),
                }
            },
            Stage::Snapshotting(Use::Checkpoint) => after_record(
                p,
                checkpoint_row(p, event->Snapshot_0, p.kind, now),
                q,
                reply,
            ),
            Stage::Snapshotting(Use::Rewind) => {
                &&& reply is None
                &&& q.stage == Stage::Committing(Cause::Safety)
                &&& q.index.rows@.len() > 0
                &&& is_safety_row(
                    q.index.rows@.last(),
                    p.index.next_id(),
                    event->Snapshot_0,
                    now,
                    p.target->0,
                )
                &&& q.ledger() == with_row(p.ledger(), q.index.rows@.last())
            },
            Stage::Committing(cause) => if !commit_ok(event->Commit_0) {
                reply matches Some(Reply::Failed(error)) && is_commit_error(
                    event->Commit_0,
                    error,
                ) && gave_up(p, error, now, q, reply)
            } else {
                &&& q.ledger() == committed(p.ledger())
                &&& match cause {
                    Cause::Asked => q.stage == Stage::Idle && reply == Some(Reply::Unit),
                    Cause::Due => q.stage == Stage::Idle && reply == Some(
                        Reply::Checkpoint(p.recorded->0),
                    ),
                    Cause::Safety => q.stage == Stage::Executing && reply is None,
                }
            },
            Stage::Executing => {
                &&& same
                &&& q.stage == Stage::Resetting
            },
            Stage::Resetting => {
                &&& reply is None
                &&& q.ledger() == (Ledger { state: State::Baselining, ..p.ledger() })
                &&& q.stage == Stage::Capturing(Then::Rewound)
            },
            Stage::Diffing => q.ledger() == p.ledger() && q.stage == Stage::Idle && reply == Some(
                Reply::Diff(event->Changes_0),
            ),
        }
    }
}

impl Pipeline {
    fn give_up(&mut self, error: EngineError, now: i64) -> (reply: Option<Reply>)
        requires
            old(self).wf(),
            old(self).index.next_id() <= i64::MAX,
            old(self).stage != Stage::Idle,
        ensures
            final(self).wf(),
            gave_up(*old(self), error, now, *final(self), reply),
            final(self).commit_every == old(self).commit_every,
            final(self).closing == old(self).closing,
            same_work(*old(self), *final(self)),
            final(self).rewound == old(self).rewound,
            final(self).index.sessions == old(self).index.sessions,
            final(self).index.turns == old(self).index.turns,
    {
        let ghost before = *self;
        let checkpoint = match self.stage {
            Stage::Draining(u) => u == Use::Checkpoint,
            Stage::BeginningRescan(u) => u == Use::Checkpoint,
            Stage::Capturing(t) => t == Then::Drained(Use::Checkpoint),
            Stage::BaseSnapshot(t) => t == Then::Drained(Use::Checkpoint),
            Stage::FinishingRescan(t) => t == Then::Drained(Use::Checkpoint),
            Stage::CapturingTail(t) => t == Then::Drained(Use::Checkpoint),
            Stage::BaseCommit(t) => t == Then::Drained(Use::Checkpoint),
            Stage::Snapshotting(u) => u == Use::Checkpoint,
            Stage::Committing(c) => c == Cause::Due,
            _ => false,
        };
        let starting = match self.stage {
            Stage::Capturing(t) => t == Then::Start,
            Stage::BaseSnapshot(t) => t == Then::Start,
            Stage::FinishingRescan(t) => t == Then::Start,
            Stage::CapturingTail(t) => t == Then::Start,
            Stage::BaseCommit(t) => t == Then::Start,
            _ => false,
        };
        if checkpoint {
            let attribution = self.attribution.clone();
            self.keep_failure(&error, &attribution, now);
        }
        if starting {
            self.broken = Some(error.message());
        }
        self.stage = Stage::Idle;
        Some(Reply::Failed(error))
    }

    /// Records the checkpoint under way.
    fn finish_checkpoint(&mut self, generation: GenerationId, kind: CheckpointKind, now: i64) -> (reply: Option<Reply>)
        requires
            old(self).wf(),
            old(self).index.next_id() <= i64::MAX,
        ensures
            final(self).wf(),
            after_record(
                *old(self),
                checkpoint_row(*old(self), generation, kind, now),
                *final(self),
                reply,
            ),
            final(self).commit_every == old(self).commit_every,
            final(self).closing == old(self).closing,
            same_work(*old(self), *final(self)),
            final(self).rewound == old(self).rewound,
            final(self).broken == old(self).broken,
            final(self).index.sessions == old(self).index.sessions,
            final(self).index.turns == old(self).index.turns,
    {
        let attribution = self.attribution.clone();
        let row_id: i64 = self.record(generation, kind, &attribution, now);
        if self.since_commit < u32::MAX {
            self.since_commit = self.since_commit + 1;
        }
        let outcome = CheckpointOutcome { row_id, generation, kind };
        if self.since_commit >= self.commit_every {
            self.recorded = Some(outcome);
            self.stage = Stage::Committing(Cause::Due);
            None
        } else {
            self.stage = Stage::Idle;
            Some(Reply::Checkpoint(outcome))
        }
    }

    /// Records the safety checkpoint of the rewind under way.
    fn record_safety(&mut self, generation: GenerationId, now: i64)
        requires
            old(self).wf(),
            old(self).index.next_id() <= i64::MAX,
            old(self).target is Some,
        ensures
            final(self).wf(),
            final(self).stage == Stage::Committing(Cause::Safety),
            final(self).index.rows@.len() > 0,
            is_safety_row(
                final(self).index.rows@.last(),
                old(self).index.next_id(),
                generation,
                now,
                old(self).target->0,
            ),
            final(self).ledger() == with_row(old(self).ledger(), final(self).index.rows@.last()),
            *final(self) == (Pipeline {
                index: final(self).index,
                last_generation: final(self).last_generation,
                last_row: final(self).last_row,
                stage: final(self).stage,
                ..*old(self)
            }),
            final(self).index.sessions == old(self).index.sessions,
            final(self).index.turns == old(self).index.turns,
    {
        let mut label = "before rewind to #".to_owned();
        let mut target_id: i64 = 0;
        if let Some(target) = &self.target {
            target_id = target.id;
        }
        push_int(&mut label, target_id);
        let attribution = Attribution {
            session_id: None,
            tool_call_id: None,
            tool_name: None,
            label: Some(label),
            turn: None,
            rewind_target: Some(target_id),
        };
        let _ = self.record(generation, CheckpointKind::PreRewind, &attribution, now);
        self.stage = Stage::Committing(Cause::Safety);
    }

    fn base_committed(&mut self, t: Then, outcome: CommitOutcome, now: i64) -> (reply: Option<Reply>)
        requires
            old(self).wf(),
            old(self).index.next_id() <= i64::MAX,
            old(self).stage == Stage::BaseCommit(t),
        ensures
            final(self).wf(),
            advanced(*old(self), Event::Commit(outcome), now, *final(self), reply),
    {
        match self.commit_result(outcome) {
            Err(error) => self.give_up(error, now),
            Ok(()) => {
                self.state = State::Ready;
                match t {
                    Then::Start => {
                        self.stage = Stage::Idle;
                        None
                    },
                    Then::Drained(u) => {
                        self.stage = Stage::Snapshotting(u);
                        None
                    },
                    Then::Rewound => {
                        self.stage = Stage::Idle;
                        match self.rewound.take() {
                            Some(Ok(outcome)) => Some(Reply::Rewind(outcome)),
                            Some(Err(error)) => Some(Reply::Failed(error)),
                            None => None,
                        }
                    },
                }
            },
        }
    }

    fn request_committed(&mut self, cause: Cause, outcome: CommitOutcome, now: i64) -> (reply: Option<Reply>)
        requires
            old(self).wf(),
            old(self).index.next_id() <= i64::MAX,
            old(self).stage == Stage::Committing(cause),
        ensures
            final(self).wf(),
            advanced(*old(self), Event::Commit(outcome), now, *final(self), reply),
    {
        match self.commit_result(outcome) {
            Err(error) => self.give_up(error, now),
            Ok(()) => match cause {
                Cause::Asked => {
                    self.stage = Stage::Idle;
                    Some(Reply::Unit)
                },
                Cause::Due => {
                    self.stage = Stage::Idle;
                    match self.recorded {
                        Some(outcome) => Some(Reply::Checkpoint(outcome)),
                        None => None,
                    }
                },
                Cause::Safety => {
                    self.stage = Stage::Executing;
                    None
                },
            },
        }
    }

    /// Takes what came of the act of the request under way; answers it when
    /// nothing is left to do.
    #[verifier::rlimit(60)]
    pub fn advance(&mut self, event: Event, now: i64) -> (reply: Option<Reply>)
        requires
            old(self).wf(),
            old(self).index.next_id() <= i64::MAX,
        ensures
            final(self).wf(),
            advanced(*old(self), event, now, *final(self), reply),
    {
        match (self.stage, event) {
            (Stage::Idle, _) => None,
            (Stage::Draining(u), Event::RescanRequired) => {
                self.stage = Stage::BeginningRescan(u);
                None
            },
            (Stage::Draining(u), Event::Drained(changed)) => {
                if u == Use::Checkpoint && !changed {
                    let generation = self.last_generation;
                    self.finish_checkpoint(generation, CheckpointKind::Noop, now)
                } else {
                    self.stage = Stage::Snapshotting(u);
                    None
                }
            },
            (Stage::BeginningRescan(u), Event::Done) => {
                self.state = State::Baselining;
                self.stage = Stage::Capturing(Then::Drained(u));
                None
            },
            (Stage::Capturing(t), Event::Done) => {
                self.stage = Stage::BaseSnapshot(t);
                None
            },
            (Stage::BaseSnapshot(t), Event::Snapshot(generation)) => {
                let kind = if t == Then::Start {
                    CheckpointKind::Baseline
                } else {
                    CheckpointKind::Recovered
                };
                let _ = self.record(generation, kind, &Attribution::default(), now);
                self.stage = Stage::FinishingRescan(t);
                None
            },
            (Stage::FinishingRescan(t), Event::Rescanned(changed)) => {
                self.stage = if changed { Stage::CapturingTail(t) } else { Stage::BaseCommit(t) };
                None
            },
            (Stage::CapturingTail(t), Event::Done) => {
                self.stage = Stage::BaseCommit(t);
                None
            },
            (Stage::BaseCommit(t), Event::Commit(outcome)) => self.base_committed(t, outcome, now),
            (Stage::Snapshotting(Use::Checkpoint), Event::Snapshot(generation)) => {
                let kind = self.kind;
                self.finish_checkpoint(generation, kind, now)
            },
            (Stage::Snapshotting(Use::Rewind), Event::Snapshot(generation)) => {
                self.record_safety(generation, now);
                None
            },
            (Stage::Committing(cause), Event::Commit(outcome)) => self.request_committed(
                cause,
                outcome,
                now,
            ),
            (Stage::Executing, Event::Rewound(outcome)) => {
                self.rewound = Some(Ok(outcome));
                self.stage = Stage::Resetting;
                None
            },
            (Stage::Executing, Event::Failed(error)) => {
                self.rewound = Some(Err(error));
                self.stage = Stage::Resetting;
                None
            },
            (Stage::Resetting, Event::Done) => {
                self.state = State::Baselining;
                self.stage = Stage::Capturing(Then::Rewound);
                None
            },
            (Stage::Diffing, Event::Changes(changes)) => {
                self.stage = Stage::Idle;
                Some(Reply::Diff(changes))
            },
            (_, Event::Failed(error)) => self.give_up(error, now),
            _ => self.give_up(
                EngineError::Store("pipeline dropped the request".to_owned()),
                now,
            ),
        }
    }
}

/// What a poll of the watcher brought.
#[derive(Clone, Copy, Debug, PartialEq, Eq, Structural)]
pub enum Poll {
    Changes,
    Nothing,
    /// Events were lost.
    RescanRequired,
}

/// What draining the watcher does next.
#[derive(Clone, Copy, Debug, PartialEq, Eq, Structural)]
pub enum DrainStep {
    /// Capture the batch and poll again.
    Capture,
    /// Wait a moment and poll again.
    Wait,
    /// The watcher is quiet, or has been waited for long enough.
    Settled,
    Rescan,
}

/// Whether that is what draining the watcher does after a poll.
pub open spec fn drains(
    poll: Poll,
    since_change_ms: u64,
    since_start_ms: u64,
    quiesce_ms: u64,
    quiesce_cap_ms: u64,
    step: DrainStep,
) -> bool {
    step == match poll {
        Poll::Changes => DrainStep::Capture,
        Poll::RescanRequired => DrainStep::Rescan,
        Poll::Nothing => if since_change_ms >= quiesce_ms || since_start_ms >= quiesce_cap_ms {
            DrainStep::Settled
        } else {
            DrainStep::Wait
        },
    }
}

/// What draining the watcher does after a poll, given how long ago the last
/// change and the start were and for how long quiet is waited for.
pub fn drain_step(
    poll: Poll,
    since_change_ms: u64,
    since_start_ms: u64,
    quiesce_ms: u64,
    quiesce_cap_ms: u64,
) -> (r: DrainStep)
    ensures
        drains(poll, since_change_ms, since_start_ms, quiesce_ms, quiesce_cap_ms, r),
        r == match poll {
            Poll::Changes => DrainStep::Capture,
            Poll::RescanRequired => DrainStep::Rescan,
            Poll::Nothing => if since_change_ms >= quiesce_ms || since_start_ms >= quiesce_cap_ms {
                DrainStep::Settled
            } else {
                DrainStep::Wait
            },
        },
{
    match poll {
        Poll::Changes => DrainStep::Capture,
        Poll::RescanRequired => DrainStep::Rescan,
        Poll::Nothing => if since_change_ms >= quiesce_ms || since_start_ms >= quiesce_cap_ms {
            DrainStep::Settled
        } else {
            DrainStep::Wait
        },
    }
}

/// Whether that is what becomes of a pipeline that has been idle for a while.
pub open spec fn idles(p: Pipeline, idle_ms: u64, commit_idle_ms: u64, q: Pipeline, commits: bool) -> bool {
    &&& commits == (p.state == State::Ready && p.since_commit > 0 && idle_ms >= commit_idle_ms)
    &&& q == (Pipeline {
        stage: if commits { Stage::Committing(Cause::Asked) } else { Stage::Idle },
        ..p
    })
}

impl Pipeline {
    /// Starts a commit where the pipeline has been idle for long enough with
    /// checkpoints that none covers.
    pub fn idle(&mut self, idle_ms: u64, commit_idle_ms: u64) -> (r: bool)
        requires
            old(self).wf(),
            old(self).stage == Stage::Idle,
        ensures
            final(self).wf(),
            idles(*old(self), idle_ms, commit_idle_ms, *final(self), r),
            r == (old(self).state == State::Ready && old(self).since_commit > 0 && idle_ms
                >= commit_idle_ms),
            *final(self) == (Pipeline {
                stage: if r { Stage::Committing(Cause::Asked) } else { Stage::Idle },
                ..*old(self)
            }),
    {
        if self.state == State::Ready && self.since_commit > 0 && idle_ms >= commit_idle_ms {
            self.stage = Stage::Committing(Cause::Asked);
            true
        } else {
            false
        }
    }
}

/// Whether one row is another, but that it may have been published since.
pub open spec fn still(before: CheckpointRow, after: CheckpointRow) -> bool {
    &&& after == CheckpointRow { published: after.published, ..before }
    &&& before.published ==> after.published
}

/// Whether rows are kept in place, with others perhaps added after them.
pub open spec fn kept(before: Seq<CheckpointRow>, after: Seq<CheckpointRow>) -> bool {
    &&& before.len() <= after.len()
    &&& forall|i: int| 0 <= i < before.len() ==> still(before[i], #[trigger] after[i])
}

/// The history is never rewritten: whatever is asked of the pipeline and
/// whatever comes of it, every row stays as it was, but that a commit may mark
/// it as published.
pub proof fn law_rows_are_kept(p: Pipeline, event: Event, now: i64, q: Pipeline, reply: Option<Reply>)
    requires
        advanced(p, event, now, q, reply),
    ensures
        kept(p.index.rows@, q.index.rows@),
{
    let rows = p.ledger().rows;
    assert(q.ledger().rows == q.index.rows@);
    if let Some(id) = p.last_row {
        let marked = published_through(rows, id as int);
        assert(kept(rows, marked));
    }
    assert(kept(rows, rows));
}

/// Taking a request rewrites no history either.
pub proof fn law_requests_keep_rows(
    p: Pipeline,
    request: Request,
    now: i64,
    q: Pipeline,
    reply: Option<Reply>,
)
    requires
        submitted(p, request, now, q, reply),
    ensures
        kept(p.index.rows@, q.index.rows@),
{
    assert(q.ledger().rows == q.index.rows@);
    assert(p.ledger().rows == p.index.rows@);
}

/// Whether the last row is the safety checkpoint of the rewind under way.
pub open spec fn secured(p: Pipeline) -> bool {
    &&& p.target is Some
    &&& p.index.rows@.len() > 0
    &&& p.index.rows@.last().kind == CheckpointKind::PreRewind
    &&& p.index.rows@.last().rewind_target == Some(p.target->0.id)
    &&& p.last_row == Some(p.index.rows@.last().id)
}

/// A rewind puts its target in place only once the state before it has been
/// recorded as a checkpoint and that checkpoint has been published.
pub open spec fn rewinds_safely(p: Pipeline) -> bool {
    &&& p.stage == Stage::Committing(Cause::Safety) ==> secured(p)
    &&& p.stage == Stage::Executing ==> secured(p) && p.index.rows@.last().published
}

/// The safety of rewinds holds at every point of the work on a request.
pub proof fn law_rewinds_stay_safe(p: Pipeline, event: Event, now: i64, q: Pipeline, reply: Option<Reply>)
    requires
        p.wf(),
        rewinds_safely(p),
        advanced(p, event, now, q, reply),
    ensures
        rewinds_safely(q),
{
    assert(q.ledger().rows == q.index.rows@);
    assert(p.ledger().rows == p.index.rows@);
    assert(q.ledger().last_row == q.last_row);
    if p.stage == Stage::Committing(Cause::Safety) && q.stage == Stage::Executing {
        let id = p.last_row->0;
        let rows = p.index.rows@;
        assert(q.index.rows@ == published_through(rows, id as int));
        assert(q.index.rows@.last() == (CheckpointRow { published: true, ..rows.last() }));
    }
}

/// No request is taken past the safety checkpoint.
pub proof fn law_requests_start_safely(
    p: Pipeline,
    request: Request,
    now: i64,
    q: Pipeline,
    reply: Option<Reply>,
)
    requires
        p.stage == Stage::Idle,
        submitted(p, request, now, q, reply),
    ensures
        rewinds_safely(q),
{
}

/// Whether a row is what a checkpoint of a kind and an attribution is answered
/// with: of that kind, or without changes, and with all of the attribution.
pub open spec fn records(
    row: CheckpointRow,
    turns: Seq<TurnRow>,
    outcome: CheckpointOutcome,
    kind: CheckpointKind,
    attribution: Attribution,
) -> bool {
    &&& row.id == outcome.row_id
    &&& row.generation == outcome.generation
    &&& row.kind == outcome.kind
    &&& row.kind == kind || row.kind == CheckpointKind::Noop
    &&& row == CheckpointRow {
        published: row.published,
        ..success_row(
            row.id as int,
            row.generation,
            row.kind,
            row.created_at,
            attribution,
            inherited_turn(turns, attribution),
        )
    }
}

/// Whether there is such a row.
pub open spec fn on_record(
    p: Pipeline,
    outcome: CheckpointOutcome,
    kind: CheckpointKind,
    attribution: Attribution,
) -> bool {
    exists|i: int|
        0 <= i < p.index.rows@.len() && records(
            #[trigger] p.index.rows@[i],
            p.index.turns@,
            outcome,
            kind,
            attribution,
        )
}

/// Whether a checkpoint of a kind and an attribution is under way, and is on
/// record once it waits for a commit only.
pub open spec fn checkpointing(p: Pipeline, kind: CheckpointKind, attribution: Attribution) -> bool {
    &&& in_checkpoint(p.stage)
    &&& p.kind == kind
    &&& p.attribution == attribution
    &&& p.stage == Stage::Committing(Cause::Due) ==> p.recorded is Some && on_record(
        p,
        p.recorded->0,
        kind,
        attribution,
    )
}

proof fn lemma_checkpoint_step(
    p: Pipeline,
    event: Event,
    now: i64,
    q: Pipeline,
    reply: Option<Reply>,
    kind: CheckpointKind,
    attribution: Attribution,
)
    requires
        checkpointing(p, kind, attribution),
        advanced(p, event, now, q, reply),
    ensures
        reply is None ==> checkpointing(q, kind, attribution),
        reply matches Some(Reply::Checkpoint(outcome)) ==> on_record(q, outcome, kind, attribution),
{
    assert(q.ledger().rows == q.index.rows@);
    assert(p.ledger().rows == p.index.rows@);
    if p.stage == Stage::Committing(Cause::Due) {
        let outcome = p.recorded->0;
        let i = choose|i: int|
            0 <= i < p.index.rows@.len() && records(
                #[trigger] p.index.rows@[i],
                p.index.turns@,
                outcome,
                kind,
                attribution,
            );
        law_rows_are_kept(p, event, now, q, reply);
        assert(still(p.index.rows@[i], q.index.rows@[i]));
        assert(records(q.index.rows@[i], q.index.turns@, outcome, kind, attribution));
    } else if q.index.rows@.len() > 0 {
        let last = q.index.rows@.last();
        assert(q.index.rows@[q.index.rows@.len() - 1] == last);
        let outcome = CheckpointOutcome {
            row_id: last.id,
            generation: last.generation,
            kind: last.kind,
        };
        if p.stage == Stage::Snapshotting(Use::Checkpoint) || p.stage == Stage::Draining(
            Use::Checkpoint,
        ) {
            if q.stage == Stage::Committing(Cause::Due) || reply is Some {
                if !(reply matches Some(Reply::Failed(_))) {
                    assert(records(last, q.index.turns@, outcome, kind, attribution));
                }
            }
        }
    }
}

/// Whether a pipeline goes on from one state to another without an answer.
pub open spec fn goes_on(p: Pipeline, q: Pipeline) -> bool {
    exists|event: Event, now: i64| #[trigger] advanced(p, event, now, q, None)
}

proof fn lemma_checkpoint_way(
    way: Seq<Pipeline>,
    kind: CheckpointKind,
    attribution: Attribution,
    n: int,
)
    requires
        0 <= n < way.len(),
        checkpointing(way[0], kind, attribution),
        forall|i: int| 0 <= i < way.len() - 1 ==> goes_on(#[trigger] way[i], way[i + 1]),
    ensures
        checkpointing(way[n], kind, attribution),
    decreases n,
{
    if n > 0 {
        lemma_checkpoint_way(way, kind, attribution, n - 1);
        let (a, b) = (way[n - 1], way[n]);
        assert(goes_on(a, way[n - 1 + 1]));
        let (event, now) = choose|event: Event, now: i64| #[trigger] advanced(a, event, now, b, None);
        lemma_checkpoint_step(a, event, now, b, None, kind, attribution);
    }
}

/// A checkpoint is recorded as it was asked for: whatever happens on the way
/// from the request to its answer, the answer names a row of the kind asked
/// for, or of none where nothing changed, with the session, the turn and the
/// tool of the request.
pub proof fn law_checkpoints_are_recorded_as_asked(
    p: Pipeline,
    kind: CheckpointKind,
    attribution: Attribution,
    asked_at: i64,
    way: Seq<Pipeline>,
    event: Event,
    now: i64,
    q: Pipeline,
    outcome: CheckpointOutcome,
)
    requires
        way.len() > 0,
        submitted(p, Request::Checkpoint { kind, attribution }, asked_at, way[0], None),
        forall|i: int| 0 <= i < way.len() - 1 ==> goes_on(#[trigger] way[i], way[i + 1]),
        advanced(way.last(), event, now, q, Some(Reply::Checkpoint(outcome))),
    ensures
        on_record(q, outcome, kind, attribution),
{
    lemma_checkpoint_way(way, kind, attribution, way.len() - 1);
    lemma_checkpoint_step(
        way.last(),
        event,
        now,
        q,
        Some(Reply::Checkpoint(outcome)),
        kind,
        attribution,
    );
}

/// Whether the target of a rewind is in place, or could not be put there, and
/// the rewind is not answered yet.
pub open spec fn after_execution(stage: Stage) -> bool {
    match stage {
        Stage::Resetting => true,
        Stage::Capturing(Then::Rewound) => true,
        Stage::BaseSnapshot(Then::Rewound) => true,
        Stage::FinishingRescan(Then::Rewound) => true,
        Stage::CapturingTail(Then::Rewound) => true,
        Stage::BaseCommit(Then::Rewound) => true,
        _ => false,
    }
}

/// A rewind is answered with its outcome: what came of putting the target in
/// place is kept until the answer, which is that outcome, or a failure of a
/// later act.
pub proof fn law_rewinds_are_answered_with_their_outcome(
    way: Seq<Pipeline>,
    event: Event,
    now: i64,
    q: Pipeline,
    outcome: RewindOutcome,
)
    requires
        way.len() > 0,
        after_execution(way[0].stage),
        forall|i: int| 0 <= i < way.len() - 1 ==> goes_on(#[trigger] way[i], way[i + 1]),
        advanced(way.last(), event, now, q, Some(Reply::Rewind(outcome))),
        way.last().wf(),
    ensures
        way[0].rewound == Some(Ok::<RewindOutcome, EngineError>(outcome)),
{
    lemma_outcome_way(way, way.len() - 1);
}

proof fn lemma_outcome_way(way: Seq<Pipeline>, n: int)
    requires
        0 <= n < way.len(),
        after_execution(way[0].stage),
        forall|i: int| 0 <= i < way.len() - 1 ==> goes_on(#[trigger] way[i], way[i + 1]),
    ensures
        after_execution(way[n].stage),
        way[n].rewound == way[0].rewound,
    decreases n,
{
    if n > 0 {
        lemma_outcome_way(way, n - 1);
        let (a, b) = (way[n - 1], way[n]);
        assert(goes_on(a, way[n - 1 + 1]));
        let (event, now) = choose|event: Event, now: i64| #[trigger] advanced(a, event, now, b, None);
    }
}

} // verus!
