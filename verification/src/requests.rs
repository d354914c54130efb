//! What the operations of the daemon promise to whoever asks for them, said of
//! the rows on record and of the trees they stand for.
use vstd::prelude::*;
use crate::history::{
    law_failed_rows_are_no_targets, law_last_is_the_newest_snapshot,
    law_rewind_is_refused_only_without_a_row, law_rewind_to_an_id_means_its_row,
    law_session_start_is_the_first_of_its_session,
};
use crate::diff::{content_of, content_only, ChangeKind, FileChange};
use crate::fork::ForkMode;
use crate::index::{law_kind_names_differ, CheckpointKind, CheckpointRow, Index};
use crate::path::{lossy_text, path_of, HostPath};
use crate::pipeline::CheckpointOutcome;
use crate::proto::{DiffEntry, Op, Reply, RewindTarget};
use crate::server::{
    are_told, asked_kind, begun, distinct_pending, drops_scratch, has_fork, is_landed_answer, is_plan,
    law_one_fork_goes, not_scratch, other_session, resolves, scratch, AnswerOn, Begun,
    CheckpointPlan, DrySession, ForkState, Job, PendingSession, Server, SessionResolveOutcome,
};

verus! {

/// A diff of two ids compares the tree of the first with the tree of the
/// second, in this order, whenever both are on record.
pub proof fn law_diff_compares_in_the_order_asked(
    s: Server,
    index: Index,
    hexes: (Option<String>, Option<String>),
    before: CheckpointRow,
    after: CheckpointRow,
    t: Server,
    r: Begun,
)
    requires
        index.wf(),
        index.rows@.contains(before),
        index.rows@.contains(after),
        begun(
            s,
            index,
            Op::Diff {
                before: Some(before.id),
                after: Some(after.id),
                before_hex: hexes.0,
                after_hex: hexes.1,
            },
            t,
            r,
        ),
    ensures
        t == s,
        r == Begun::Work(Job::Diff { before: before.generation, after: after.generation }),
{
    let i = choose|i: int| 0 <= i < index.rows@.len() && index.rows@[i] == before;
    let j = choose|j: int| 0 <= j < index.rows@.len() && index.rows@[j] == after;
    assert(index.rows@[i].id == before.id && index.rows@[j].id == after.id);
    if let Begun::Work(Job::Diff { before: x, after: y }) = r {
        let (a, b) = choose|a: CheckpointRow, b: CheckpointRow|
            #[trigger] crate::history::is_diff_base(index, Some(before.id), hexes.0, a)
                && #[trigger] crate::history::is_diff_end(index, Some(after.id), hexes.1, b) && x
                == a.generation && y == b.generation;
        let k = choose|k: int| 0 <= k < index.rows@.len() && index.rows@[k] == a;
        let m = choose|m: int| 0 <= m < index.rows@.len() && index.rows@[m] == b;
        assert(index.rows@[k].id == index.rows@[i].id);
        assert(index.rows@[m].id == index.rows@[j].id);
    }
}

/// A diff of an id that is not on record is refused.
pub proof fn law_diff_of_unknown_ids_is_refused(
    s: Server,
    index: Index,
    before: i64,
    after: i64,
    hexes: (Option<String>, Option<String>),
    t: Server,
    r: Begun,
)
    requires
        begun(
            s,
            index,
            Op::Diff {
                before: Some(before),
                after: Some(after),
                before_hex: hexes.0,
                after_hex: hexes.1,
            },
            t,
            r,
        ),
        (forall|row: CheckpointRow| #[trigger] index.rows@.contains(row) ==> row.id != before) || (
        forall|row: CheckpointRow| #[trigger] index.rows@.contains(row) ==> row.id != after),
    ensures
        r matches Begun::Answered(answer) && answer is Err,
        t == s,
{
}

/// A rewind to an id has the engine rewind to the row of that id; where a path
/// is given, that path alone is restored out of it.
pub proof fn law_rewind_works_on_the_row_of_the_id(
    s: Server,
    index: Index,
    path: Option<String>,
    row: CheckpointRow,
    t: Server,
    r: Begun,
)
    requires
        index.wf(),
        index.rows@.contains(row),
        row.kind != CheckpointKind::Failed,
        begun(
            s,
            index,
            Op::Rewind { target: RewindTarget::Checkpoint(row.id), path },
            t,
            r,
        ),
    ensures
        t == s,
        match path {
            None => r == Begun::Work(Job::Rewind { row }),
            Some(text) => r matches Begun::Work(Job::RestorePath { row: of, path: p }) && of == row
                && p@ == vstd::utf8::encode_utf8(text@),
        },
{
    let target = RewindTarget::Checkpoint(row.id);
    match r {
        Begun::Work(Job::RestorePath { row: of, path: _ }) => {
            law_rewind_to_an_id_means_its_row(index, row.id, of, row);
        },
        Begun::Work(Job::Rewind { row: of }) => {
            law_rewind_to_an_id_means_its_row(index, row.id, of, row);
        },
        Begun::Answered(Err(message)) => {
            law_rewind_is_refused_only_without_a_row(index, target, row, message@);
        },
        _ => {},
    }
}

/// The row that the engine is to rewind to, or to restore a path from.
pub open spec fn headed_for(r: Begun) -> Option<CheckpointRow> {
    match r {
        Begun::Work(Job::RestorePath { row, .. }) => Some(row),
        Begun::Work(Job::Rewind { row }) => Some(row),
        _ => None,
    }
}

/// However it is asked for, a rewind is headed for a tree state on record; for
/// the start of a session, for the earliest of that session; for the last
/// checkpoint, for the newest snapshot.
pub proof fn law_rewind_is_headed_where_it_was_told(
    s: Server,
    index: Index,
    target: RewindTarget,
    path: Option<String>,
    t: Server,
    r: Begun,
    other: CheckpointRow,
)
    requires
        index.wf(),
        begun(s, index, Op::Rewind { target, path }, t, r),
        index.rows@.contains(other),
        other.kind != CheckpointKind::Failed,
    ensures
        headed_for(r) matches Some(row) ==> index.rows@.contains(row) && row.kind
            != CheckpointKind::Failed,
        match target {
            RewindTarget::SessionStart(session) => (other.session_id matches Some(of) && of@
                == session@) ==> (headed_for(r) matches Some(row) && row.id <= other.id && (
            row.session_id matches Some(of) && of@ == session@)),
            _ => true,
        },
        target is Last && (other.kind == CheckpointKind::Baseline || other.kind
            == CheckpointKind::Pre || other.kind == CheckpointKind::Post || other.kind
            == CheckpointKind::Manual) ==> (headed_for(r) matches Some(row) && other.id <= row.id),
{
    if let Some(row) = headed_for(r) {
        law_failed_rows_are_no_targets(index, target, row);
        if let RewindTarget::SessionStart(session) = target {
            if (other.session_id matches Some(of) && of@ == session@) && other.id != row.id {
                law_session_start_is_the_first_of_its_session(index, session, row, other);
            }
            if other.id == row.id {
                let i = choose|i: int| 0 <= i < index.rows@.len() && index.rows@[i] == row;
                let j = choose|j: int| 0 <= j < index.rows@.len() && index.rows@[j] == other;
                assert(index.rows@[i].id == index.rows@[j].id);
            }
        }
        if target is Last && (other.kind == CheckpointKind::Baseline || other.kind
            == CheckpointKind::Pre || other.kind == CheckpointKind::Post || other.kind
            == CheckpointKind::Manual) {
            law_last_is_the_newest_snapshot(index, row, other);
        }
    } else if let Begun::Answered(Err(message)) = r {
        let meant = match target {
            RewindTarget::SessionStart(session) => other.session_id matches Some(of) && of@
                == session@,
            RewindTarget::Last => other.kind == CheckpointKind::Baseline || other.kind
                == CheckpointKind::Pre || other.kind == CheckpointKind::Post || other.kind
                == CheckpointKind::Manual,
            RewindTarget::Checkpoint(_) => false,
        };
        if meant {
            law_rewind_is_refused_only_without_a_row(index, target, other, message@);
        }
    }
}

/// A checkpoint is asked of the engine as it was asked of the daemon: `pre`,
/// `post` and `manual` are the kinds there are, with everything said of the
/// session, the tool call and the label; any other word is refused.
pub proof fn law_checkpoint_is_asked_as_it_was_asked_for(
    s: Server,
    index: Index,
    op: Op,
    t: Server,
    r: Begun,
)
    requires
        op is Checkpoint,
        begun(s, index, op, t, r),
    ensures
        t == s,
        match op {
            Op::Checkpoint { kind, session_id, tool_call_id, tool_name, label, wait, durable } => {
                let known = kind@ == "pre"@ || kind@ == "post"@ || kind@ == "manual"@;
                &&& !known ==> (r matches Begun::Answered(answer) && answer is Err)
                &&& known ==> (r matches Begun::Work(
                    Job::Checkpoint { kind: k, attribution, wait: w, durable: d },
                ) && {
                    &&& kind@ == "pre"@ ==> k == CheckpointKind::Pre
                    &&& kind@ == "post"@ ==> k == CheckpointKind::Post
                    &&& kind@ == "manual"@ ==> k == CheckpointKind::Manual
                    &&& attribution.session_id == session_id
                    &&& attribution.tool_call_id == tool_call_id
                    &&& attribution.tool_name == tool_name
                    &&& attribution.label == label
                    &&& attribution.turn is None
                    &&& attribution.rewind_target is None
                    &&& w == wait
                    &&& d == durable
                })
            },
            _ => false,
        },
{
    if let Op::Checkpoint { kind, .. } = op {
        let (a, b, c) = (CheckpointKind::Pre, CheckpointKind::Post, CheckpointKind::Manual);
        law_kind_names_differ(a, b);
        law_kind_names_differ(a, c);
        law_kind_names_differ(b, c);
        if kind@ == "pre"@ {
            assert(asked_kind(kind@, a));
        } else if kind@ == "post"@ {
            assert(asked_kind(kind@, b));
        } else if kind@ == "manual"@ {
            assert(asked_kind(kind@, c));
        }
    }
}

/// A checkpoint that was asked to be durable is followed by a commit once it has
/// landed, and one that was not never is; who waits is answered only once it has
/// landed.
pub proof fn law_durable_checkpoints_are_committed(wait: bool, durable: bool, plan: CheckpointPlan)
    requires
        is_plan(wait, durable, plan),
    ensures
        durable ==> plan.commits(true),
        !durable ==> !plan.commits(true) && !plan.commits(false),
        wait <==> plan.answer == AnswerOn::Capture,
        wait ==> !plan.commits(false),
{
}

/// Who waits for a durable checkpoint is told that it was taken only if both the
/// capture and the commit went well, and is told its row.
pub proof fn law_waiting_is_answered_with_the_truth(
    captured: Result<CheckpointOutcome, String>,
    committed: Option<Result<(), String>>,
    r: Result<Reply, String>,
)
    requires
        is_landed_answer(captured, committed, r),
    ensures
        r is Ok <==> captured is Ok && !(committed matches Some(Err(_))),
        r matches Ok(reply) ==> (reply matches Reply::Checkpoint(info) && info.row_id
            == captured->Ok_0.row_id),
{
}

/// From one to sixteen forks are cut at a time, mounted where the host can mount
/// and copied where it cannot; any other number is refused.
pub proof fn law_forks_are_cut_as_asked(
    s: Server,
    index: Index,
    count: u32,
    session_id: Option<String>,
    t: Server,
    r: Begun,
)
    requires
        begun(s, index, Op::Fork { count, session_id }, t, r),
    ensures
        t == s,
        count < 1 || count > 16 ==> (r matches Begun::Answered(answer) && answer is Err),
        r matches Begun::Work(job) ==> (job matches Job::Fork { count: n, session_id: id, mode, root }
            && n == count && id == session_id && (mode == ForkMode::Mount <==> s.mounts.available)),
        r matches Begun::Answered(answer) ==> answer is Err,
{
}

/// Whether a list of forks is another without that of an id.
pub open spec fn all_but(after: Seq<ForkState>, before: Seq<ForkState>, id: Seq<char>) -> bool {
    &&& !has_fork(after, id)
    &&& forall|f: ForkState| f.entry.id@ != id ==> (#[trigger] after.contains(f) <==> before.contains(f))
}

/// A fork is dropped or promoted by its id: the engine is handed the fork of
/// that id, which is out of the daemon's hands then, every other fork is
/// untouched, and an id of no fork is refused.
pub proof fn law_the_fork_of_the_id_is_taken(
    s: Server,
    index: Index,
    id: String,
    promote: bool,
    t: Server,
    r: Begun,
)
    requires
        s.wf(),
        begun(s, index, if promote { Op::Promote { id } } else { Op::ForkDrop { id } }, t, r),
    ensures
        t.dry == s.dry,
        t.pending == s.pending,
        has_fork(s.forks@, id@) ==> all_but(t.forks@, s.forks@, id@) && exists|fork: ForkState|
            #[trigger] s.forks@.contains(fork) && fork.entry.id@ == id@ && r == Begun::Work(
                if promote {
                    Job::Promote { fork }
                } else {
                    Job::Drop { fork }
                },
            ),
        !has_fork(s.forks@, id@) ==> t == s && (r matches Begun::Answered(answer) && answer is Err),
{
    if has_fork(s.forks@, id@) {
        law_one_fork_goes(s.forks@, id@);
        match r {
            Begun::Work(Job::Promote { fork }) => {
                assert(s.forks@.contains(fork));
            },
            Begun::Work(Job::Drop { fork }) => {
                assert(s.forks@.contains(fork));
            },
            _ => {},
        }
    }
}

/// The end of a session takes its own scratch trees and no other fork.
pub proof fn law_session_end_takes_its_scratch_trees(
    before: Seq<ForkState>,
    session: Seq<char>,
    after: Seq<ForkState>,
    dropped: Seq<ForkState>,
    fork: ForkState,
)
    requires
        drops_scratch(before, session, after, dropped),
        before.contains(fork),
    ensures
        dropped.contains(fork) <==> (fork.entry.session_id matches Some(s) && s@ == session),
        after.contains(fork) <==> !(fork.entry.session_id matches Some(s) && s@ == session),
{
    let i = choose|i: int| 0 <= i < before.len() && before[i] == fork;
    let (stays, goes) = (not_scratch(session), scratch(session));
    if goes(fork) {
        before.lemma_filter_contains(goes, i);
        if after.contains(fork) {
            let k = choose|k: int| 0 <= k < after.len() && after[k] == fork;
            before.lemma_filter_pred(stays, k);
        }
    } else {
        before.lemma_filter_contains(stays, i);
        if dropped.contains(fork) {
            let k = choose|k: int| 0 <= k < dropped.len() && dropped[k] == fork;
            before.lemma_filter_pred(goes, k);
        }
    }
}

/// A Safe Mode session begins only where the host can mount and while no other
/// is active, and it is the one that was asked for.
pub proof fn law_one_safe_session_at_a_time(
    s: Server,
    index: Index,
    session_id: String,
    t: Server,
    r: Begun,
)
    requires
        begun(s, index, Op::SessionFork { session_id }, t, r),
    ensures
        t == s,
        s.mounts.available && s.dry is None <==> r is Work,
        r matches Begun::Work(job) ==> (job matches Job::Shadow { session_id: id } && id@
            == session_id@),
{
}

/// A Safe Mode session is resolved by its own id only; the real tree is not
/// touched by it.
pub proof fn law_resolving_means_the_active_session(
    s: Server,
    index: Index,
    session_id: String,
    t: Server,
    r: Begun,
)
    requires
        begun(s, index, Op::SessionResolve { session_id }, t, r),
    ensures
        r is Work <==> (s.dry matches Some(active) && active.session_id@ == session_id@),
        r matches Begun::Work(job) ==> (job matches Job::Resolve { session, .. } && Some(session)
            == s.dry),
        t.dry is None,
        t.forks == s.forks,
        t.pending == s.pending,
{
}

/// Whether a session awaits being applied or discarded.
pub open spec fn awaits(pending: Seq<PendingSession>, id: Seq<char>) -> bool {
    exists|i: int| 0 <= i < pending.len() && (#[trigger] pending[i]).session_id@ == id
}

proof fn lemma_taken(pending: Seq<PendingSession>, after: Seq<PendingSession>, id: Seq<char>)
    requires
        after == crate::server::without_session(pending, id),
    ensures
        !awaits(after, id),
        forall|p: PendingSession|
            p.session_id@ != id ==> (#[trigger] after.contains(p) <==> pending.contains(p)),
{
    let keep = other_session(id);
    assert forall|i: int| 0 <= i < after.len() implies (#[trigger] after[i]).session_id@ != id by {
        pending.lemma_filter_pred(keep, i);
    }
    assert forall|p: PendingSession| p.session_id@ != id implies (#[trigger] after.contains(p)
        <==> pending.contains(p)) by {
        if pending.contains(p) {
            let i = choose|i: int| 0 <= i < pending.len() && pending[i] == p;
            pending.lemma_filter_contains(keep, i);
        }
        if after.contains(p) {
            pending.lemma_filter_contains_rev(keep, p);
        }
    }
}

/// A resolved session is applied once: the engine is handed the session of that
/// id, which does not await anything then, and every other still does. An id
/// that none awaits under is refused.
pub proof fn law_applying_takes_the_session_of_the_id(
    s: Server,
    index: Index,
    session_id: String,
    t: Server,
    r: Begun,
)
    requires
        begun(s, index, Op::SessionApply { session_id }, t, r),
    ensures
        r is Work <==> awaits(s.pending@, session_id@),
        r matches Begun::Work(job) ==> (job matches Job::Apply { session } && session.session_id@
            == session_id@ && s.pending@.contains(session)),
        !awaits(t.pending@, session_id@),
        forall|p: PendingSession|
            p.session_id@ != session_id@ ==> (#[trigger] t.pending@.contains(p)
                <==> s.pending@.contains(p)),
        t.forks == s.forks,
        t.dry == s.dry,
{
    if awaits(s.pending@, session_id@) {
        lemma_taken(s.pending@, t.pending@, session_id@);
    }
}

/// A discarded session awaits nothing, every other still does, and the engine
/// has nothing to do.
pub proof fn law_discarding_forgets_the_session_of_the_id(
    s: Server,
    index: Index,
    session_id: String,
    t: Server,
    r: Begun,
)
    requires
        begun(s, index, Op::SessionDiscard { session_id }, t, r),
    ensures
        r == Begun::Answered(Ok(Reply::Unit)),
        !awaits(t.pending@, session_id@),
        forall|p: PendingSession|
            p.session_id@ != session_id@ ==> (#[trigger] t.pending@.contains(p)
                <==> s.pending@.contains(p)),
        t.forks == s.forks,
        t.dry == s.dry,
{
    lemma_taken(s.pending@, t.pending@, session_id@);
}

/// A Safe Mode session that was resolved awaits being applied exactly if it
/// changed something, with the generation it was committed as and the base it
/// was cut from; only one session awaits under its id.
pub proof fn law_resolved_sessions_await(
    s: Server,
    session: DrySession,
    label: String,
    resolved: SessionResolveOutcome,
    t: Server,
    r: Result<Reply, String>,
)
    requires
        resolves(s, session, label, resolved, t, r),
    ensures
        t.forks == s.forks,
        t.dry == s.dry,
        match resolved {
            SessionResolveOutcome::Resolved { generation, changes } => {
                &&& t.pending@.last().session_id@ == session.session_id@
                &&& t.pending@.last().generation == generation
                &&& t.pending@.last().base == session.base
                &&& !awaits(t.pending@.drop_last(), session.session_id@)
                &&& r matches Ok(Reply::SessionPending(info)) && info.diff@.len() == changes@.len()
            },
            SessionResolveOutcome::NoChanges => t == s && r is Ok,
            SessionResolveOutcome::Conflict { .. } => t == s && r is Err,
        },
{
    if resolved is Resolved {
        lemma_taken(s.pending@, t.pending@.drop_last(), session.session_id@);
    }
}

/// A stop leaves nothing held: no fork, no active and no resolved session; the
/// shadow is handed over to be unmounted.
pub proof fn law_stop_leaves_nothing_held(s: Server, index: Index, t: Server, r: Begun)
    requires
        begun(s, index, Op::Stop, t, r),
    ensures
        t.forks@.len() == 0,
        t.pending@.len() == 0,
        t.dry is None,
        r == Begun::Work(Job::Stop { shadow: s.dry }),
{
}

/// A change is told by its path and by the name of what it is, and is marked
/// exactly if the repository ignores the path.
pub proof fn law_changes_are_told_for_what_they_are(
    changes: Seq<FileChange>,
    ignored: Seq<HostPath>,
    entries: Seq<DiffEntry>,
    i: int,
)
    requires
        are_told(changes, ignored, entries),
        0 <= i < changes.len(),
    ensures
        entries.len() == changes.len(),
        entries[i].path@ == lossy_text(path_of(changes[i].path())),
        entries[i].change@ == match changes[i].change {
            ChangeKind::Added => "added"@,
            ChangeKind::Removed => "removed"@,
            ChangeKind::Modified => "modified"@,
            ChangeKind::MetadataOnly => "metadata"@,
        },
        entries[i].ignored <==> exists|k: int|
            0 <= k < ignored.len() && (#[trigger] ignored[k])@ == path_of(changes[i].path()),
{
    let e = entries[i];
}

/// What a fork has changed is told without the paths whose content is the same.
pub proof fn law_content_changes_are_those_of_content(changes: Seq<FileChange>, c: FileChange)
    ensures
        content_of(changes).contains(c) <==> changes.contains(c) && c.change
            != ChangeKind::MetadataOnly,
{
    let keep = content_only();
    if content_of(changes).contains(c) {
        changes.lemma_filter_contains_rev(keep, c);
        let k = choose|k: int| 0 <= k < content_of(changes).len() && content_of(changes)[k] == c;
        changes.lemma_filter_pred(keep, k);
    }
    if changes.contains(c) && c.change != ChangeKind::MetadataOnly {
        let i = choose|i: int| 0 <= i < changes.len() && changes[i] == c;
        changes.lemma_filter_contains(keep, i);
    }
}

/// The forks are all listed, each once, in the order they were made.
pub proof fn law_forks_are_listed_in_the_order_they_were_made(
    s: Server,
    index: Index,
    t: Server,
    r: Begun,
    k: usize,
)
    requires
        begun(s, index, Op::ForkList, t, r),
        k < s.forks@.len(),
    ensures
        t == s,
        r matches Begun::Answered(Ok(Reply::Forks(entries))) && {
            &&& entries@.len() == s.forks@.len()
            &&& exists|i: int|
                0 <= i < entries@.len() && (#[trigger] entries@[i]).id@ == s.forks@[k as int].entry.id@
                    && entries@[i].path@ == s.forks@[k as int].entry.path@ && entries@[i].base@
                    == s.forks@[k as int].entry.base@
            &&& forall|i: int, j: int|
                0 <= i < j < entries@.len() ==> (#[trigger] entries@[i]).created_at <= (
                #[trigger] entries@[j]).created_at
        },
{
    if let Begun::Answered(Ok(Reply::Forks(entries))) = r {
        let keys = crate::server::created(s.forks@);
        let order = choose|order: Seq<usize>| #[trigger]
            crate::sorting::is_number_order(keys, order) && entries@.len() == s.forks@.len()
                && forall|i: int|
                0 <= i < entries@.len() ==> crate::server::same_entry(
                    #[trigger] entries@[i],
                    s.forks@[order[i] as int].entry,
                );
        assert(order.contains(k));
        let i = choose|i: int| 0 <= i < order.len() && order[i] == k;
        assert(crate::server::same_entry(entries@[i], s.forks@[k as int].entry));
        assert forall|i: int, j: int| 0 <= i < j < entries@.len() implies (
        #[trigger] entries@[i]).created_at <= (#[trigger] entries@[j]).created_at by {
            let (a, b) = (order[i] as int, order[j] as int);
            assert(crate::sorting::number_before(keys, a, b));
            assert(keys[a] == s.forks@[a].entry.created_at && keys[b]
                == s.forks@[b].entry.created_at);
        }
    }
}

/// A fork that was just made is held under its id: it is judged against the
/// generation it was cut from, has no conflict, and its workspace is the
/// directory of its id, which is a copy exactly if the fork is one. Every other
/// fork is untouched.
pub proof fn law_new_fork_is_held_under_its_id(
    s: Server,
    id: Seq<char>,
    base: crate::digest::GenerationId,
    root: Seq<u8>,
    mode: ForkMode,
    created_at: i64,
    session_id: Option<String>,
    t: Server,
    entry: crate::proto::ForkEntry,
)
    requires
        s.wf(),
        crate::server::adds_fork(s, id, base, root, mode, created_at, session_id, t, entry),
    ensures
        has_fork(t.forks@, id),
        t.forks@.last().entry.id@ == id,
        t.forks@.last().base == base,
        t.forks@.last().conflict is None,
        t.forks@.last().copy_dir is Some <==> mode == ForkMode::Copy,
        t.forks@.last().copy_dir matches Some(dir) ==> dir@ == crate::path::joined(
            root,
            vstd::utf8::encode_utf8(id),
        ),
        entry.id@ == id,
        entry.path@ == lossy_text(crate::path::joined(root, vstd::utf8::encode_utf8(id))),
        entry.base@ == crate::digest::hex_of(base@),
        entry.session_id == session_id,
        forall|f: ForkState|
            f.entry.id@ != id ==> (#[trigger] t.forks@.contains(f) <==> s.forks@.contains(f)),
        t.pending == s.pending,
        t.dry == s.dry,
{
    let kept = t.forks@.drop_last();
    let last = t.forks@.len() - 1;
    assert(t.forks@[last].entry.id@ == id);
    assert forall|f: ForkState| f.entry.id@ != id implies (#[trigger] t.forks@.contains(f)
        <==> s.forks@.contains(f)) by {
        let keep = crate::server::other_fork(id);
        if t.forks@.contains(f) {
            let i = choose|i: int| 0 <= i < t.forks@.len() && t.forks@[i] == f;
            assert(kept[i] == f);
            assert(kept.contains(f));
            s.forks@.lemma_filter_contains_rev(keep, f);
        }
        if s.forks@.contains(f) {
            let i = choose|i: int| 0 <= i < s.forks@.len() && s.forks@[i] == f;
            s.forks@.lemma_filter_contains(keep, i);
            let k = choose|k: int| 0 <= k < kept.len() && kept[k] == f;
            assert(t.forks@[k] == f);
        }
    }
}

/// A promotion is answered with what came of it: how many paths were written and
/// how many files merged, whether the mainline had moved, and what it kept; or
/// every conflict, with where the fork is; or why it was refused.
pub proof fn law_promotion_is_answered_with_its_outcome(
    s: Server,
    fork: ForkState,
    result: Result<crate::promote::Landed, String>,
    t: Server,
    answer: Result<Reply, String>,
    consumed: Option<ForkState>,
)
    requires
        crate::server::promote_ends(s, fork, result, t, answer, consumed),
    ensures
        answer is Err <==> result is Err,
        result matches Err(message) ==> answer == Err::<Reply, String>(message),
        match result {
            Ok(crate::promote::Landed::Replayed { generation, paths, merged, kept, moved }) => answer
                matches Ok(Reply::Promote(info)) && info.generation@ == crate::digest::hex_of(
                generation@,
            ) && info.replayed_paths == paths && info.merged_files == merged && info.mainline_moved
                == moved && info.kept_mainline == kept && info.conflicts@.len() == 0,
            Ok(crate::promote::Landed::Nothing { generation, kept }) => answer matches Ok(
                Reply::Promote(info),
            ) && info.generation@ == crate::digest::hex_of(generation@) && info.replayed_paths == 0
                && info.merged_files == 0 && info.conflicts@.len() == 0 && info.kept_mainline
                == kept,
            Ok(crate::promote::Landed::Conflicted { theirs, ours, files, kept }) => answer matches Ok(
                Reply::Promote(info),
            ) && info.conflicts == files && info.replayed_paths == 0 && info.merged_files == 0
                && info.kept_mainline == kept && (info.fork_path matches Some(path) && path@
                == fork.entry.path@),
            Err(_) => true,
        },
{
}

/// A conflict stays open as long as its markers do: after a promotion that was
/// refused for its markers the fork still carries it, after one that failed for
/// another reason it is over; a fork without one has none.
pub proof fn law_conflict_stays_as_long_as_its_markers(
    s: Server,
    fork: ForkState,
    message: String,
    t: Server,
    answer: Result<Reply, String>,
    consumed: Option<ForkState>,
)
    requires
        crate::server::promote_ends(s, fork, Err(message), t, answer, consumed),
    ensures
        t.forks@.last().conflict is Some <==> fork.conflict is Some && crate::text::begins(
            message@,
            "unresolved conflict markers"@,
        ),
        t.forks@.last().conflict is Some ==> t.forks@.last().conflict == fork.conflict,
        t.forks@.last().base == fork.base,
{
}

/// A fork with a new conflict carries every conflicting path, and is told with
/// the three generations of it: what it was cut from, what it holds, and what it
/// now sits on.
pub proof fn law_new_conflict_is_carried_by_the_fork(
    s: Server,
    fork: ForkState,
    landed: crate::promote::Landed,
    t: Server,
    answer: Result<Reply, String>,
    consumed: Option<ForkState>,
    i: int,
)
    requires
        crate::server::promote_ends(s, fork, Ok(landed), t, answer, consumed),
        landed is Conflicted,
        0 <= i < landed->files@.len(),
    ensures
        t.forks@.last().base == landed->Conflicted_theirs,
        t.forks@.last().conflict matches Some(paths) && paths@.len() == landed->files@.len()
            && paths@[i]@ == vstd::utf8::encode_utf8(landed->files@[i].path@),
        t.forks@.last().entry.conflict_paths@[i]@ == landed->files@[i].path@,
        t.forks@.last().entry.base@ == crate::digest::hex_of(landed->Conflicted_theirs@),
        t.forks@.last().entry.conflict matches Some(info) && info.base@ == crate::digest::hex_of(
            fork.base@,
        ) && info.ours@ == crate::digest::hex_of(landed->Conflicted_ours@) && info.theirs@
            == crate::digest::hex_of(landed->Conflicted_theirs@),
        t.forks@.last().copy_dir == fork.copy_dir,
{
    let kept = t.forks@.last();
    let shown = crate::text::texts(kept.entry.conflict_paths@);
    assert(shown == crate::server::conflict_texts(landed->files@));
    assert(shown.len() == kept.entry.conflict_paths@.len());
    assert(crate::server::conflict_texts(landed->files@)[i] == landed->files@[i].path@);
    assert(shown[i] == kept.entry.conflict_paths@[i]@);
    let paths = kept.conflict->0;
    assert(paths@[i]@ == vstd::utf8::encode_utf8(landed->files@[i].path@));
}

/// Where every session is to run in Safe Mode, one that starts never runs on the
/// real tree unnoticed: its own fork is cut, or the start is refused. Elsewhere
/// no fork is cut for it.
pub proof fn law_safe_mode_holds_from_the_start(s: Server, session_id: String, r: Begun)
    requires
        crate::server::follows_start(s, session_id, r),
    ensures
        s.dry_run ==> (r matches Begun::Work(Job::Shadow { session_id: id }) && id@ == session_id@) || (
        r matches Begun::Answered(answer) && answer is Err),
        s.dry_run && s.mounts.available && s.dry is None ==> r is Work,
        !s.dry_run ==> r !is Work,
{
}

} // verus!
