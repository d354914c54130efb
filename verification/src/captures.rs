//! What the pipeline promises from a request to its answer, said of the events
//! on the way and of the rows that are on record in the end.
use vstd::prelude::*;
use crate::digest::GenerationId;
use crate::error::{error_text, EngineError};
use crate::index::{Attribution, CheckpointKind, CheckpointRow, TurnRow};
use crate::pipeline::{
    advanced, drains, idles, in_checkpoint, submitted, Cause, CheckpointOutcome, CommitOutcome,
    DrainStep, Event, Pipeline, Poll, Reply, Request, Stage, State, Then, Use,
};
use crate::rewind::RewindOutcome;

verus! {

/// The work on a request: the states that the pipeline goes through, what came
/// of the act of each and when. Only the last is answered.
pub struct Work {
    pub way: Seq<Pipeline>,
    pub events: Seq<Event>,
    pub times: Seq<i64>,
}

impl Work {
    /// Whether one state follows from the other, and the answer from the last.
    pub open spec fn ends(self, q: Pipeline, reply: Reply) -> bool {
        &&& self.way.len() > 0
        &&& self.events.len() == self.way.len()
        &&& self.times.len() == self.way.len()
        &&& forall|i: int|
            0 <= i < self.way.len() - 1 ==> advanced(
                #[trigger] self.way[i],
                self.events[i],
                self.times[i],
                self.way[i + 1],
                None,
            )
        &&& advanced(
            self.way.last(),
            self.events.last(),
            self.times.last(),
            q,
            Some(reply),
        )
    }

    /// Whether a generation is that of the last snapshot among the first events.
    pub open spec fn last_snapshot(self, n: int, generation: GenerationId) -> bool {
        exists|j: int|
            0 < j < n && #[trigger] self.events[j] == Event::Snapshot(generation) && forall|k: int|
                j < k < n ==> !(#[trigger] self.events[k] is Snapshot)
    }
}

/// What is known of a checkpoint on its way, told by the first event.
spec fn drained_so_far(w: Work, kind: CheckpointKind, n: int) -> bool {
    let p = w.way[n];
    let first = w.events[0];
    &&& in_checkpoint(p.stage)
    &&& p.kind == kind
    &&& n == 0 <==> p.stage == Stage::Draining(Use::Checkpoint)
    &&& n > 0 && first == Event::Drained(false) ==> p.stage == Stage::Committing(Cause::Due)
        && p.recorded is Some && p.recorded->0.kind == CheckpointKind::Noop
        && p.recorded->0.generation == w.way[0].last_generation
    &&& n > 0 && first != Event::Drained(false) && p.stage == Stage::Committing(Cause::Due)
        ==> p.recorded is Some && p.recorded->0.kind == kind && w.last_snapshot(
        n,
        p.recorded->0.generation,
    )
}

proof fn lemma_drained(w: Work, kind: CheckpointKind, n: int, q: Pipeline, reply: Reply)
    requires
        0 <= n < w.way.len(),
        w.ends(q, reply),
        w.way[0].stage == Stage::Draining(Use::Checkpoint),
        w.way[0].kind == kind,
    ensures
        drained_so_far(w, kind, n),
    decreases n,
{
    if n > 0 {
        lemma_drained(w, kind, n - 1, q, reply);
        let (p, e) = (w.way[n - 1], w.events[n - 1]);
        assert(advanced(p, e, w.times[n - 1], w.way[n - 1 + 1], None));
        if p.stage == Stage::Snapshotting(Use::Checkpoint) && w.way[n].stage == Stage::Committing(
            Cause::Due,
        ) {
            assert(w.events[n - 1] == Event::Snapshot(w.way[n].recorded->0.generation));
            assert(w.last_snapshot(n, w.way[n].recorded->0.generation));
        }
    }
}

/// A checkpoint tells what the watcher found. Only where the watcher drained
/// without a change is it a checkpoint without changes, of the generation of
/// before; where anything was captured, or the watcher had lost track, it is of
/// the kind asked for, and its generation is that of the last snapshot taken
/// after the drain.
pub proof fn law_checkpoint_tells_what_the_drain_found(
    p: Pipeline,
    kind: CheckpointKind,
    attribution: Attribution,
    asked_at: i64,
    w: Work,
    q: Pipeline,
    outcome: CheckpointOutcome,
)
    requires
        w.ends(q, Reply::Checkpoint(outcome)),
        submitted(p, Request::Checkpoint { kind, attribution }, asked_at, w.way[0], None),
    ensures
        w.events[0] == Event::Drained(false) ==> outcome.kind == CheckpointKind::Noop
            && outcome.generation == p.last_generation,
        w.events[0] != Event::Drained(false) ==> outcome.kind == kind && w.last_snapshot(
            w.events.len() as int,
            outcome.generation,
        ),
{
    let n = w.way.len() - 1;
    lemma_drained(w, kind, n, q, Reply::Checkpoint(outcome));
    let (last, e) = (w.way[n], w.events[n]);
    assert(p.ledger().last_generation == w.way[0].ledger().last_generation);
    if last.stage == Stage::Snapshotting(Use::Checkpoint) {
        assert(w.events[n] == Event::Snapshot(outcome.generation));
        assert(w.last_snapshot(n + 1, outcome.generation));
    } else if last.stage == Stage::Committing(Cause::Due) && w.events[0] != Event::Drained(false) {
        let j = choose|j: int|
            0 < j < n && #[trigger] w.events[j] == Event::Snapshot(outcome.generation) && forall|
                k: int,
            | j < k < n ==> !(#[trigger] w.events[k] is Snapshot);
        assert(w.events[j] == Event::Snapshot(outcome.generation));
        assert(!(w.events[n] is Snapshot));
        assert(w.last_snapshot(n + 1, outcome.generation));
    }
}

/// Whether a turn is the one that a session is in: that of its last prompt, or
/// none where it has had no prompt.
pub open spec fn is_turn_of(turns: Seq<TurnRow>, session: Seq<char>, turn: Option<i64>) -> bool {
    match turn {
        Some(number) => exists|i: int|
            0 <= i < turns.len() && (#[trigger] turns[i]).session_id@ == session && turns[i].turn
                == number && forall|j: int|
                i < j < turns.len() ==> (#[trigger] turns[j]).session_id@ != session,
        None => forall|i: int|
            0 <= i < turns.len() ==> (#[trigger] turns[i]).session_id@ != session,
    }
}

/// A session is in the turn of its last prompt.
pub proof fn law_session_is_in_the_turn_of_its_last_prompt(turns: Seq<TurnRow>, session: Seq<char>)
    ensures
        is_turn_of(turns, session, crate::index::current_turn(turns, session)),
    decreases turns.len(),
{
    if turns.len() > 0 {
        let rest = turns.drop_last();
        law_session_is_in_the_turn_of_its_last_prompt(rest, session);
        let last = turns.len() - 1;
        let turn = crate::index::current_turn(turns, session);
        if turns.last().session_id@ == session {
            assert(turns[last].session_id@ == session);
        } else if let Some(number) = turn {
            let i = choose|i: int|
                0 <= i < rest.len() && (#[trigger] rest[i]).session_id@ == session && rest[i].turn
                    == number && forall|j: int|
                    i < j < rest.len() ==> (#[trigger] rest[j]).session_id@ != session;
            assert(turns[i] == rest[i]);
            assert forall|j: int| i < j < turns.len() implies (#[trigger] turns[j]).session_id@
                != session by {
                if j < last {
                    assert(rest[j] == turns[j]);
                }
            }
        } else {
            assert forall|i: int| 0 <= i < turns.len() implies (#[trigger] turns[i]).session_id@
                != session by {
                if i < last {
                    assert(rest[i] == turns[i]);
                }
            }
        }
    }
}

/// Whether a row holds all that a checkpoint was asked for with: the session,
/// the tool call and the label of the request, and the turn of the request or
/// else the one that the session is in.
pub open spec fn attributed(row: CheckpointRow, turns: Seq<TurnRow>, a: Attribution) -> bool {
    &&& row.session_id == a.session_id
    &&& row.tool_call_id == a.tool_call_id
    &&& row.tool_name == a.tool_name
    &&& match (a.turn, a.session_id) {
        (Some(turn), _) => row.turn == Some(turn),
        (None, Some(session)) => is_turn_of(turns, session@, row.turn),
        (None, None) => row.turn is None,
    }
}

/// The answer to a checkpoint names a row on record, which holds the generation
/// and the kind that are answered and everything that the checkpoint was asked
/// for with.
pub proof fn law_checkpoint_is_on_record(
    p: Pipeline,
    kind: CheckpointKind,
    attribution: Attribution,
    asked_at: i64,
    w: Work,
    q: Pipeline,
    outcome: CheckpointOutcome,
)
    requires
        w.ends(q, Reply::Checkpoint(outcome)),
        submitted(p, Request::Checkpoint { kind, attribution }, asked_at, w.way[0], None),
    ensures
        exists|row: CheckpointRow| #[trigger]
            q.index.rows@.contains(row) && row.id == outcome.row_id && row.generation
                == outcome.generation && row.kind == outcome.kind && row.error is None
                && row.label == attribution.label && row.rewind_target
                == attribution.rewind_target && attributed(row, q.index.turns@, attribution),
{
    assert forall|i: int| 0 <= i < w.way.len() - 1 implies crate::pipeline::goes_on(
        #[trigger] w.way[i],
        w.way[i + 1],
    ) by {
        assert(advanced(w.way[i], w.events[i], w.times[i], w.way[i + 1], None));
    }
    crate::pipeline::law_checkpoints_are_recorded_as_asked(
        p,
        kind,
        attribution,
        asked_at,
        w.way,
        w.events.last(),
        w.times.last(),
        q,
        outcome,
    );
    let i = choose|i: int|
        0 <= i < q.index.rows@.len() && crate::pipeline::records(
            #[trigger] q.index.rows@[i],
            q.index.turns@,
            outcome,
            kind,
            attribution,
        );
    let row = q.index.rows@[i];
    if let Some(session) = attribution.session_id {
        law_session_is_in_the_turn_of_its_last_prompt(q.index.turns@, session@);
    }
    assert(q.index.rows@.contains(row));
    assert(attributed(row, q.index.turns@, attribution));
}

/// A failure leaves the tree states on record as they are: the answer to a
/// checkpoint that failed is the error, and the last row says that it failed
/// and why; its generation is that of before, and no row is taken for the last
/// checkpoint.
pub proof fn law_failed_checkpoint_is_kept_as_failed(
    p: Pipeline,
    event: Event,
    now: i64,
    q: Pipeline,
    error: EngineError,
)
    requires
        in_checkpoint(p.stage),
        advanced(p, event, now, q, Some(Reply::Failed(error))),
    ensures
        q.stage == Stage::Idle,
        q.last_generation == p.last_generation,
        q.last_row == p.last_row,
        q.since_commit == p.since_commit,
        q.index.rows@.len() == p.index.rows@.len() + 1,
        q.index.rows@.drop_last() == p.index.rows@,
        q.index.rows@.last().kind == CheckpointKind::Failed,
        q.index.rows@.last().generation == p.last_generation,
        q.index.rows@.last().label is None,
        !q.index.rows@.last().published,
        q.index.rows@.last().error matches Some(text) && text@ == error_text(error),
        attributed(q.index.rows@.last(), p.index.turns@, p.attribution),
{
    if let Some(session) = p.attribution.session_id {
        law_session_is_in_the_turn_of_its_last_prompt(p.index.turns@, session@);
    }
    assert(q.ledger().last_generation == q.last_generation);
    assert(q.ledger().last_row == q.last_row);
    assert(q.ledger().since_commit == q.since_commit);
    assert(p.ledger().last_row == p.last_row);
    assert(p.ledger().since_commit == p.since_commit);
    assert(p.ledger().last_generation == p.last_generation);
    assert(q.index.rows@.drop_last() =~= p.index.rows@);
}

/// While the first baseline is being taken, or a rewind is under way, no
/// checkpoint is: it is answered with an error and kept as a failed row.
pub proof fn law_no_checkpoint_before_ready(
    p: Pipeline,
    kind: CheckpointKind,
    attribution: Attribution,
    now: i64,
    q: Pipeline,
    reply: Option<Reply>,
)
    requires
        p.broken is None,
        submitted(p, Request::Checkpoint { kind, attribution }, now, q, reply),
    ensures
        p.state == State::Ready <==> reply is None,
        p.state == State::Ready ==> q.stage == Stage::Draining(Use::Checkpoint) && q.index.rows@
            == p.index.rows@,
        p.state != State::Ready ==> {
            &&& reply matches Some(Reply::Failed(_))
            &&& q.stage == Stage::Idle
            &&& q.index.rows@.drop_last() == p.index.rows@
            &&& q.index.rows@.last().kind == CheckpointKind::Failed
            &&& q.last_generation == p.last_generation
            &&& q.last_row == p.last_row
        },
{
    assert(q.ledger().rows == q.index.rows@);
    assert(p.ledger().rows == p.index.rows@);
    assert(q.ledger().last_generation == q.last_generation);
    assert(q.ledger().last_row == q.last_row);
    assert(p.ledger().last_row == p.last_row);
    if p.state != State::Ready {
        assert(q.index.rows@.drop_last() =~= p.index.rows@);
    }
}

/// Whether every row up to the last checkpoint is published, and no other has
/// become so.
pub open spec fn all_published(p: Pipeline, q: Pipeline) -> bool {
    &&& q.index.rows@.len() == p.index.rows@.len()
    &&& forall|i: int|
        0 <= i < p.index.rows@.len() ==> (#[trigger] q.index.rows@[i]).id == p.index.rows@[i].id
            && q.index.rows@[i].generation == p.index.rows@[i].generation
            && q.index.rows@[i].kind == p.index.rows@[i].kind && (q.index.rows@[i].published
            <==> p.index.rows@[i].published || (p.last_row matches Some(id)
            && p.index.rows@[i].id <= id))
}

/// A commit that was asked for, and that succeeded, publishes every row up to
/// the last checkpoint and no other; it counts checkpoints anew. One that did
/// not is answered with an error and publishes nothing.
pub proof fn law_commit_publishes_up_to_the_last_checkpoint(
    p: Pipeline,
    commit: CommitOutcome,
    now: i64,
    q: Pipeline,
    reply: Option<Reply>,
)
    requires
        p.stage == Stage::Committing(Cause::Asked),
        advanced(p, Event::Commit(commit), now, q, reply),
    ensures
        q.stage == Stage::Idle,
        q.last_row == p.last_row,
        q.last_generation == p.last_generation,
        match commit {
            CommitOutcome::Failed(_) => reply matches Some(Reply::Failed(_)) && q.index.rows@
                == p.index.rows@ && q.since_commit == p.since_commit,
            CommitOutcome::Unexpected(_) => reply matches Some(Reply::Failed(_)) && q.index.rows@
                == p.index.rows@ && q.since_commit == p.since_commit,
            _ => reply == Some(Reply::Unit) && all_published(p, q) && q.since_commit == 0,
        },
{
    assert(q.ledger().rows == q.index.rows@);
    assert(p.ledger().rows == p.index.rows@);
    assert(q.ledger().last_generation == q.last_generation);
    assert(q.ledger().last_row == q.last_row);
    assert(q.ledger().since_commit == q.since_commit);
    assert(p.ledger().since_commit == p.since_commit);
    assert(p.ledger().last_row == p.last_row);
    assert(p.ledger().last_generation == p.last_generation);
}

/// Whether fewer checkpoints are uncommitted than make a commit due.
pub open spec fn within_bounds(p: Pipeline) -> bool {
    p.since_commit < p.commit_every
}

/// Commits come often enough: a checkpoint is answered as taken only while
/// fewer of them are uncommitted than make a commit due; where one more makes
/// it due, everything is published first.
pub proof fn law_commits_come_often_enough(
    p: Pipeline,
    event: Event,
    now: i64,
    q: Pipeline,
    outcome: CheckpointOutcome,
)
    requires
        p.commit_every > 0,
        in_checkpoint(p.stage),
        advanced(p, event, now, q, Some(Reply::Checkpoint(outcome))),
    ensures
        within_bounds(q),
        p.stage != Stage::Committing(Cause::Due) ==> q.since_commit == p.since_commit + 1
            && q.last_row == Some(outcome.row_id) && q.last_generation == outcome.generation,
        p.stage == Stage::Committing(Cause::Due) ==> all_published(p, q) && q.since_commit == 0,
{
    assert(q.ledger().rows == q.index.rows@);
    assert(p.ledger().rows == p.index.rows@);
    assert(q.ledger().since_commit == q.since_commit);
    assert(q.ledger().last_row == q.last_row);
    assert(q.ledger().last_generation == q.last_generation);
}

/// Whether a rewind put its target in place at a point of its way, with an
/// outcome: right before, the tree of then was snapshotted, recorded as the
/// state before this rewind, and published.
pub open spec fn put_in_place(w: Work, k: int, target: CheckpointRow, outcome: RewindOutcome) -> bool {
    let p = w.way[k];
    let row = p.index.rows@.last();
    &&& 2 <= k < w.way.len()
    &&& w.events[k] == Event::Rewound(outcome)
    &&& p.target == Some(target)
    &&& p.index.rows@.len() > 0
    &&& row.kind == CheckpointKind::PreRewind
    &&& row.rewind_target == Some(target.id)
    &&& row.published
    &&& row.error is None
    &&& w.events[k - 2] == Event::Snapshot(row.generation)
    &&& w.events[k - 1] matches Event::Commit(commit) && !(commit is Failed) && !(commit
        is Unexpected)
}

spec fn rewound_so_far(w: Work, target: CheckpointRow, n: int) -> bool {
    let p = w.way[n];
    let row = p.index.rows@.last();
    let safe = {
        &&& p.target == Some(target)
        &&& p.index.rows@.len() > 0
        &&& row.kind == CheckpointKind::PreRewind
        &&& row.rewind_target == Some(target.id)
        &&& row.error is None
    };
    &&& crate::pipeline::needs_target(p.stage) || crate::pipeline::after_execution(p.stage)
    &&& crate::pipeline::needs_target(p.stage) ==> p.target == Some(target)
    &&& p.stage == Stage::Committing(Cause::Safety) ==> {
        &&& n >= 1
        &&& safe
        &&& p.last_row == Some(row.id)
        &&& w.events[n - 1] == Event::Snapshot(row.generation)
    }
    &&& p.stage == Stage::Executing ==> {
        &&& n >= 2
        &&& safe
        &&& row.published
        &&& w.events[n - 2] == Event::Snapshot(row.generation)
        &&& w.events[n - 1] matches Event::Commit(commit) && !(commit is Failed) && !(commit
            is Unexpected)
    }
    &&& crate::pipeline::after_execution(p.stage) ==> (p.rewound matches Some(rewound) && (rewound
        matches Ok(outcome) ==> exists|k: int| #[trigger] put_in_place(w, k, target, outcome)))
}

proof fn lemma_rewound(w: Work, target: CheckpointRow, n: int, q: Pipeline, reply: Reply)
    requires
        0 <= n < w.way.len(),
        w.ends(q, reply),
        w.way[0].stage == Stage::Draining(Use::Rewind),
        w.way[0].target == Some(target),
    ensures
        rewound_so_far(w, target, n),
    decreases n,
{
    if n > 0 {
        lemma_rewound(w, target, n - 1, q, reply);
        let (p, e) = (w.way[n - 1], w.events[n - 1]);
        assert(advanced(p, e, w.times[n - 1], w.way[n - 1 + 1], None));
        let r = w.way[n];
        assert(p.ledger().rows == p.index.rows@);
        assert(r.ledger().rows == r.index.rows@);
        assert(r.ledger().last_row == r.last_row);
        assert(p.ledger().last_row == p.last_row);
        if p.stage == Stage::Committing(Cause::Safety) {
            let id = p.last_row->0;
            assert(r.index.rows@ == crate::index::published_through(p.index.rows@, id as int));
            assert(r.index.rows@.last() == (CheckpointRow {
                published: true,
                ..p.index.rows@.last()
            }));
        }
        if p.stage == Stage::Executing {
            if let Event::Rewound(outcome) = e {
                assert(put_in_place(w, n - 1, target, outcome));
            }
        }
        if crate::pipeline::after_execution(r.stage) {
            if let Some(Ok(outcome)) = r.rewound {
                if crate::pipeline::after_execution(p.stage) {
                    assert(p.rewound == r.rewound);
                } else {
                    assert(e == Event::Rewound(outcome));
                }
            }
        }
    }
}

/// A rewind can always be undone: where one is answered as done, its target was
/// put in place right after the tree of then had been snapshotted, recorded as
/// the state before this rewind, and published. What is answered is what came of
/// putting the target of the request in place.
pub proof fn law_rewind_can_be_undone(
    p: Pipeline,
    target: CheckpointRow,
    asked_at: i64,
    w: Work,
    q: Pipeline,
    outcome: RewindOutcome,
)
    requires
        w.ends(q, Reply::Rewind(outcome)),
        submitted(p, Request::Rewind { target }, asked_at, w.way[0], None),
    ensures
        exists|k: int| #[trigger] put_in_place(w, k, target, outcome),
        q.state == State::Ready,
        q.stage == Stage::Idle,
{
    lemma_rewound(w, target, w.way.len() - 1, q, Reply::Rewind(outcome));
    assert(q.ledger().state == q.state);
}

/// A baseline is a row of its own, of the generation of its snapshot and of no
/// session: the first one of a pipeline is told as such, any later one as a
/// recovery.
pub proof fn law_baselines_are_rows(
    p: Pipeline,
    then: Then,
    generation: GenerationId,
    now: i64,
    q: Pipeline,
    reply: Option<Reply>,
)
    requires
        p.stage == Stage::BaseSnapshot(then),
        advanced(p, Event::Snapshot(generation), now, q, reply),
    ensures
        reply is None,
        q.index.rows@.drop_last() == p.index.rows@,
        q.index.rows@.last().generation == generation,
        q.index.rows@.last().kind == if then is Start {
            CheckpointKind::Baseline
        } else {
            CheckpointKind::Recovered
        },
        q.index.rows@.last().session_id is None,
        q.index.rows@.last().error is None,
        q.last_generation == generation,
        q.last_row == Some(q.index.rows@.last().id),
{
    assert(q.ledger().rows == q.index.rows@);
    assert(q.ledger().last_generation == q.last_generation);
    assert(q.ledger().last_row == q.last_row);
    assert(q.index.rows@.drop_last() =~= p.index.rows@);
}

/// The pipeline is ready only once a baseline has been published, and what it
/// was baselined for goes on.
pub proof fn law_ready_only_after_a_baseline(
    p: Pipeline,
    event: Event,
    now: i64,
    q: Pipeline,
    reply: Option<Reply>,
)
    requires
        advanced(p, event, now, q, reply),
        p.state != State::Ready,
        q.state == State::Ready,
    ensures
        p.stage is BaseCommit,
        event matches Event::Commit(commit) && !(commit is Failed) && !(commit is Unexpected),
        all_published(p, q),
        p.stage matches Stage::BaseCommit(Then::Drained(use_)) ==> q.stage == Stage::Snapshotting(
            use_,
        ),
{
    assert(q.ledger().state == q.state);
    assert(p.ledger().state == p.state);
    assert(q.ledger().rows == q.index.rows@);
    assert(p.ledger().rows == p.index.rows@);
}

/// A comparison is of the two generations in the order they were given; of one
/// with itself there is nothing to tell.
pub proof fn law_comparison_keeps_its_order(
    p: Pipeline,
    before: GenerationId,
    after: GenerationId,
    now: i64,
    q: Pipeline,
    reply: Option<Reply>,
)
    requires
        p.broken is None,
        submitted(p, Request::Diff { before, after }, now, q, reply),
    ensures
        before == after ==> (reply matches Some(Reply::Diff(changes)) && changes@.len() == 0),
        before != after ==> reply is None && q.compared == Some((before, after)),
        q.index.rows@ == p.index.rows@,
{
    assert(q.ledger().rows == q.index.rows@);
    assert(p.ledger().rows == p.index.rows@);
}

/// The prompts of a session are numbered from one, one after the other,
/// whatever other sessions do in between; each is kept with the beginning of
/// its text.
pub proof fn law_prompts_are_numbered_within_their_session(
    p: Pipeline,
    session_id: String,
    prompt: String,
    now: i64,
    q: Pipeline,
    reply: Option<Reply>,
)
    requires
        p.broken is None,
        submitted(p, Request::TurnStarted { session_id, prompt }, now, q, reply),
    ensures
        q.index.turns@.drop_last() == p.index.turns@,
        q.index.turns@.last().session_id@ == session_id@,
        reply == Some(Reply::Turn(q.index.turns@.last().turn)),
        q.index.turns@.last().turn == 1 <== forall|i: int|
            0 <= i < p.index.turns@.len() ==> (#[trigger] p.index.turns@[i]).session_id@
                != session_id@,
        forall|i: int|
            0 <= i < p.index.turns@.len() && (#[trigger] p.index.turns@[i]).session_id@
                == session_id@ && (forall|j: int|
                i < j < p.index.turns@.len() ==> (#[trigger] p.index.turns@[j]).session_id@
                    != session_id@) ==> q.index.turns@.last().turn == p.index.turns@[i].turn + 1,
        q.index.turns@.last().prompt@.is_prefix_of(prompt@),
        vstd::utf8::encode_utf8(prompt@).len() <= 240 ==> q.index.turns@.last().prompt@ == prompt@,
        is_turn_of(q.index.turns@, session_id@, Some(q.index.turns@.last().turn)),
{
    let turns = p.index.turns@;
    law_session_is_in_the_turn_of_its_last_prompt(turns, session_id@);
    crate::text::lemma_fitting(prompt@, crate::index::EXCERPT_BYTES as nat);
    let after = q.index.turns@;
    let last = after.len() - 1;
    assert(after[last].session_id@ == session_id@);
    if let Some(number) = crate::index::current_turn(turns, session_id@) {
        let k = choose|i: int|
            0 <= i < turns.len() && (#[trigger] turns[i]).session_id@ == session_id@
                && turns[i].turn == number && forall|j: int|
                i < j < turns.len() ==> (#[trigger] turns[j]).session_id@ != session_id@;
        assert(turns[k].session_id@ == session_id@);
    }
}

/// Everything is published at the boundaries of the work: a commit that is asked
/// for, the start and the end of a session and the end of the pipeline are
/// answered only after a commit has run.
pub proof fn law_boundaries_publish(
    p: Pipeline,
    request: Request,
    now: i64,
    q: Pipeline,
    reply: Option<Reply>,
)
    requires
        p.broken is None,
        request is Commit || request is SessionStarted || request is SessionEnded || request
            is Shutdown,
        submitted(p, request, now, q, reply),
    ensures
        reply is None,
        q.stage == Stage::Committing(Cause::Asked),
        q.index.rows@ == p.index.rows@,
        request is Shutdown ==> q.closing,
{
    assert(q.ledger().rows == q.index.rows@);
    assert(p.ledger().rows == p.index.rows@);
}

/// A session starts once: one that is known stays as it was noted, one that is
/// not is noted with its host and the time, and no other is touched.
pub proof fn law_sessions_start_once(
    p: Pipeline,
    session_id: String,
    host: String,
    now: i64,
    q: Pipeline,
    reply: Option<Reply>,
)
    requires
        p.broken is None,
        submitted(p, Request::SessionStarted { session_id, host }, now, q, reply),
    ensures
        (exists|i: int|
            0 <= i < p.index.sessions@.len() && (#[trigger] p.index.sessions@[i]).session_id@
                == session_id@) ==> q.index.sessions@ == p.index.sessions@,
        (forall|i: int|
            0 <= i < p.index.sessions@.len() ==> (#[trigger] p.index.sessions@[i]).session_id@
                != session_id@) ==> {
            &&& q.index.sessions@.drop_last() == p.index.sessions@
            &&& q.index.sessions@.last().session_id@ == session_id@
            &&& q.index.sessions@.last().host == Some(host)
            &&& q.index.sessions@.last().started_at == now
            &&& q.index.sessions@.last().ended_at is None
        },
{
    let sessions = p.index.sessions@;
    if exists|i: int| 0 <= i < sessions.len() && (#[trigger] sessions[i]).session_id@ == session_id@ {
        let i = choose|i: int|
            0 <= i < sessions.len() && (#[trigger] sessions[i]).session_id@ == session_id@;
        assert(crate::index::session_at(sessions, session_id@, i));
    } else {
        assert(forall|i: int| !#[trigger] crate::index::session_at(sessions, session_id@, i));
        assert(q.index.sessions@.drop_last() =~= sessions);
    }
}

/// The end of a session is noted with it and with no other.
pub proof fn law_sessions_end_by_their_id(
    p: Pipeline,
    session_id: String,
    now: i64,
    q: Pipeline,
    reply: Option<Reply>,
    i: int,
)
    requires
        p.broken is None,
        submitted(p, Request::SessionEnded { session_id }, now, q, reply),
        0 <= i < p.index.sessions@.len(),
    ensures
        q.index.sessions@.len() == p.index.sessions@.len(),
        q.index.sessions@[i].session_id@ == p.index.sessions@[i].session_id@,
        q.index.sessions@[i].started_at == p.index.sessions@[i].started_at,
        q.index.sessions@[i].host == p.index.sessions@[i].host,
        q.index.sessions@[i].ended_at == if p.index.sessions@[i].session_id@ == session_id@ {
            Some(now)
        } else {
            p.index.sessions@[i].ended_at
        },
{
}

/// What is reported of the pipeline is how it stands: nothing is unpublished
/// exactly if every tree state is published.
pub proof fn law_status_tells_how_it_stands(p: Pipeline, now: i64, q: Pipeline, reply: Option<Reply>)
    requires
        p.broken is None,
        submitted(p, Request::Status, now, q, reply),
    ensures
        reply matches Some(Reply::Status(report)) && {
            &&& report.state == p.state
            &&& report.last_checkpoint == p.last_row
            &&& report.checkpoints_since_commit == p.since_commit
            &&& report.unpublished == 0 <==> forall|i: int|
                0 <= i < p.index.rows@.len() ==> (#[trigger] p.index.rows@[i]).published
                    || p.index.rows@[i].kind == CheckpointKind::Failed
        },
{
    let rows = p.index.rows@;
    let open = |row: CheckpointRow| !row.published && row.kind != CheckpointKind::Failed;
    let found = crate::index::unpublished(rows);
    assert(found == rows.filter(open));
    if found.len() > 0 {
        rows.lemma_filter_pred(open, 0);
        assert(found.contains(found[0]));
        rows.lemma_filter_contains_rev(open, found[0]);
        let i = choose|i: int| 0 <= i < rows.len() && rows[i] == found[0];
        assert(open(rows[i]));
    }
    assert forall|i: int| 0 <= i < rows.len() && found.len() == 0 implies (
    #[trigger] rows[i]).published || rows[i].kind == CheckpointKind::Failed by {
        if open(rows[i]) {
            rows.lemma_filter_contains(open, i);
        }
    }
}

/// A rewind whose target could not be put in place is answered with the error of
/// doing so, after the watch has begun anew, and the pipeline is ready again.
pub proof fn law_failed_rewind_is_told(
    p: Pipeline,
    commit: CommitOutcome,
    now: i64,
    q: Pipeline,
    reply: Option<Reply>,
)
    requires
        p.stage == Stage::BaseCommit(Then::Rewound),
        p.rewound is Some,
        !(commit is Failed) && !(commit is Unexpected),
        advanced(p, Event::Commit(commit), now, q, reply),
    ensures
        q.state == State::Ready,
        q.stage == Stage::Idle,
        q.rewound is None,
        match p.rewound->0 {
            Ok(outcome) => reply == Some(Reply::Rewind(outcome)),
            Err(error) => reply == Some(Reply::Failed(error)),
        },
{
    assert(q.ledger().state == q.state);
}

/// Whatever comes of putting a target in place, it is remembered, and the watch
/// begins anew before anything is answered.
pub proof fn law_watch_begins_anew_after_a_rewind(
    p: Pipeline,
    event: Event,
    now: i64,
    q: Pipeline,
    reply: Option<Reply>,
)
    requires
        p.stage == Stage::Executing,
        event is Rewound || event is Failed,
        advanced(p, event, now, q, reply),
    ensures
        reply is None,
        q.stage == Stage::Resetting,
        q.index.rows@ == p.index.rows@,
        match event {
            Event::Rewound(outcome) => q.rewound == Some(Ok::<RewindOutcome, EngineError>(outcome)),
            Event::Failed(error) => q.rewound == Some(Err::<RewindOutcome, EngineError>(error)),
            _ => false,
        },
{
    assert(q.ledger().rows == q.index.rows@);
    assert(p.ledger().rows == p.index.rows@);
}

/// Draining captures every batch, never settles on a watcher that lost track,
/// and otherwise settles once it has been quiet for long enough or has been
/// waited for as long as is allowed, and not before.
pub proof fn law_drain_waits_for_quiet(
    poll: Poll,
    since_change_ms: u64,
    since_start_ms: u64,
    quiesce_ms: u64,
    quiesce_cap_ms: u64,
    step: DrainStep,
)
    requires
        drains(poll, since_change_ms, since_start_ms, quiesce_ms, quiesce_cap_ms, step),
    ensures
        poll == Poll::Changes <==> step == DrainStep::Capture,
        poll == Poll::RescanRequired <==> step == DrainStep::Rescan,
        step == DrainStep::Settled ==> poll == Poll::Nothing && !(since_change_ms < quiesce_ms
            && since_start_ms < quiesce_cap_ms),
        step == DrainStep::Wait ==> poll == Poll::Nothing && since_change_ms < quiesce_ms
            && since_start_ms < quiesce_cap_ms,
{
}

/// An idle pipeline publishes what is left after a while: only with checkpoints
/// that no commit covers, only when it is ready, and not before the time.
pub proof fn law_idle_pipeline_publishes(
    p: Pipeline,
    idle_ms: u64,
    commit_idle_ms: u64,
    q: Pipeline,
    commits: bool,
)
    requires
        idles(p, idle_ms, commit_idle_ms, q, commits),
    ensures
        p.state == State::Ready && p.since_commit > 0 && idle_ms >= commit_idle_ms ==> q.stage
            == Stage::Committing(Cause::Asked),
        p.since_commit == 0 || idle_ms < commit_idle_ms ==> q.stage == Stage::Idle,
        commits <==> q.stage != Stage::Idle,
        q.index == p.index,
        q.last_row == p.last_row,
{
}

/// A pipeline begins with a baseline of the whole tree, on the history as it is:
/// it is not ready before, nothing is taken for the last checkpoint, and what the
/// baseline finds is recorded behind everything that was on record.
pub proof fn law_pipeline_begins_with_a_baseline(
    index: crate::index::Index,
    commit_every: u32,
    p: Pipeline,
    now: i64,
    q: Pipeline,
    reply: Option<Reply>,
)
    requires
        crate::pipeline::starts(index, commit_every, p),
        advanced(p, Event::Done, now, q, reply),
    ensures
        p.state != State::Ready,
        p.last_row is None,
        crate::pipeline::act_of(p.stage) == crate::pipeline::Act::CaptureBaseline,
        q.stage == Stage::BaseSnapshot(Then::Start),
        q.index.rows@ == index.rows@,
        reply is None,
{
    assert(q.ledger().rows == q.index.rows@);
    assert(p.ledger().rows == p.index.rows@);
}

/// A watcher that lost track is not trusted: whatever it was drained for, the
/// whole tree is captured anew before the snapshot that was asked for is taken.
pub proof fn law_lost_watch_is_made_good(
    p: Pipeline,
    event: Event,
    now: i64,
    q: Pipeline,
    reply: Option<Reply>,
    use_: Use,
)
    requires
        advanced(p, event, now, q, reply),
    ensures
        p.stage == Stage::Draining(use_) && event is RescanRequired ==> reply is None
            && crate::pipeline::act_of(q.stage) == crate::pipeline::Act::BeginRescan,
        p.stage == Stage::BeginningRescan(use_) && event is Done ==> reply is None
            && crate::pipeline::act_of(q.stage) == crate::pipeline::Act::CaptureBaseline && q.state
            == State::Baselining,
        q.stage == Stage::Snapshotting(use_) && reply is None ==> (p.stage == Stage::Draining(use_)
            && event is Drained) || p.stage == Stage::BaseCommit(Then::Drained(use_)),
{
    assert(q.ledger().state == q.state);
}

/// What changes while a baseline is being taken is captured before the baseline
/// is published.
pub proof fn law_changes_during_a_baseline_are_captured(
    p: Pipeline,
    event: Event,
    now: i64,
    q: Pipeline,
    reply: Option<Reply>,
    then: Then,
)
    requires
        advanced(p, event, now, q, reply),
    ensures
        p.stage == Stage::FinishingRescan(then) && event == Event::Rescanned(true) ==> reply is None
            && crate::pipeline::act_of(q.stage) == crate::pipeline::Act::CaptureTail,
        q.stage == Stage::BaseCommit(then) && reply is None ==> (p.stage == Stage::FinishingRescan(
            then,
        ) && event == Event::Rescanned(false)) || (p.stage == Stage::CapturingTail(then) && event
            is Done),
{
}

} // verus!
