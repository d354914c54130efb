//! What a brief tells a new session, said of the sessions and rows on record.
use vstd::prelude::*;
use crate::brief::{
    abandoning, are_abandoned, branch, briefable, is_abandoned, is_brief, is_first, is_last, is_plan,
    is_previous, is_session_brief, plans, session_rewinds, BriefPlan,
};
use crate::diff::{content_of, FileChange};
use crate::index::{
    admits, answers, ask, ask_between, ask_rewinds, ask_session, CheckpointKind, CheckpointRow,
    Index, Kinds, SessionRow,
};
use crate::listings::{lemma_answers, lemma_first, lemma_last, lemma_same, of, snapshot};
use crate::path::{lossy_text, path_of};
use crate::proto::{BriefAbandoned, BriefInfo};

verus! {

/// Whether a session has left a row.
pub open spec fn has_row(index: Index, session: Seq<char>) -> bool {
    exists|row: CheckpointRow| #[trigger] index.rows@.contains(row) && of(row, session)
}

proof fn lemma_briefable(index: Index, current: Option<Seq<char>>, s: SessionRow)
    ensures
        briefable(index, current, s) <==> current != Some(s.session_id@) && has_row(
            index,
            s.session_id@,
        ),
{
    let q = ask_session(Kinds::Any, s.session_id@);
    if briefable(index, current, s) {
        let i = choose|i: int| 0 <= i < index.rows@.len() && admits(q, #[trigger] index.rows@[i]);
        assert(index.rows@.contains(index.rows@[i]));
    }
    if has_row(index, s.session_id@) {
        let row = choose|row: CheckpointRow| #[trigger]
            index.rows@.contains(row) && of(row, s.session_id@);
        let i = choose|i: int| 0 <= i < index.rows@.len() && index.rows@[i] == row;
        assert(admits(q, index.rows@[i]));
    }
}

/// A brief is about the session that started last among those that left a row,
/// never about the session that asks; without such a session there is none.
pub proof fn law_brief_is_about_the_last_other_session(
    index: Index,
    current: Option<Seq<char>>,
    plan: BriefPlan,
)
    requires
        plans(index, current, plan),
    ensures
        match plan.session {
            Some(info) => exists|i: int|
                0 <= i < index.sessions@.len() && (#[trigger] index.sessions@[i]).session_id@
                    == info.session_id@ && index.sessions@[i].host == info.host
                    && index.sessions@[i].started_at == info.started_at && index.sessions@[i].ended_at
                    == info.ended_at && current != Some(info.session_id@) && has_row(
                    index,
                    info.session_id@,
                ) && forall|j: int|
                    i < j < index.sessions@.len() ==> current == Some(
                        (#[trigger] index.sessions@[j]).session_id@,
                    ) || !has_row(index, index.sessions@[j].session_id@),
            None => forall|j: int|
                0 <= j < index.sessions@.len() ==> current == Some(
                    (#[trigger] index.sessions@[j]).session_id@,
                ) || !has_row(index, index.sessions@[j].session_id@),
        },
{
    assert forall|s: SessionRow| #[trigger]
        briefable(index, current, s) <==> current != Some(s.session_id@) && has_row(
            index,
            s.session_id@,
        ) by {
        lemma_briefable(index, current, s);
    }
    if plan.session is Some {
        let s = choose|s: SessionRow| #[trigger]
            is_previous(index, current, s) && is_plan(index, s, plan);
        let i = choose|i: int|
            0 <= i < index.sessions@.len() && #[trigger] index.sessions@[i] == s && briefable(
                index,
                current,
                s,
            ) && forall|j: int|
                i < j < index.sessions@.len() ==> !briefable(
                    index,
                    current,
                    #[trigger] index.sessions@[j],
                );
        assert(index.sessions@[i].session_id@ == plan.session->0.session_id@);
    }
}

/// Whether a row is the first, and another the last, of the tree states of a
/// session.
pub open spec fn spans(
    index: Index,
    session: Seq<char>,
    first: CheckpointRow,
    last: CheckpointRow,
) -> bool {
    &&& index.rows@.contains(first) && of(first, session) && first.kind != CheckpointKind::Failed
    &&& index.rows@.contains(last) && of(last, session) && last.kind != CheckpointKind::Failed
    &&& forall|row: CheckpointRow| #[trigger]
        index.rows@.contains(row) && of(row, session) && row.kind != CheckpointKind::Failed
            ==> first.id <= row.id <= last.id
}

/// Whether a row is the newest real snapshot.
pub open spec fn is_newest_snapshot(index: Index, row: CheckpointRow) -> bool {
    &&& index.rows@.contains(row) && snapshot(row)
    &&& forall|other: CheckpointRow| #[trigger]
        index.rows@.contains(other) && snapshot(other) ==> other.id <= row.id
}

/// What a session changed is counted from its first tree state to its last, and
/// what has moved since from its last to the newest snapshot, in this order.
pub proof fn law_brief_compares_first_with_last(
    index: Index,
    current: Option<Seq<char>>,
    plan: BriefPlan,
    first: CheckpointRow,
    last: CheckpointRow,
    newest: CheckpointRow,
)
    requires
        index.wf(),
        plans(index, current, plan),
        plan.session is Some,
        spans(index, plan.session->0.session_id@, first, last),
        is_newest_snapshot(index, newest),
    ensures
        plan.session_diff == if first.generation == last.generation {
            None
        } else {
            Some((first.generation, last.generation))
        },
        plan.drift_diff == if last.generation == newest.generation {
            None
        } else {
            Some((last.generation, newest.generation))
        },
        plan.session->0.end_checkpoint == Some(last.id),
        plan.session->0.end_turn == last.turn,
{
    let rows = index.rows@;
    let s = choose|s: SessionRow| #[trigger]
        is_previous(index, current, s) && is_plan(index, s, plan);
    let (a, b, _, d) = lemma_plan(index, s, plan);
    let q = ask_session(Kinds::Restorable, s.session_id@);
    let targets = ask(Kinds::Targets);
    let i = choose|i: int| 0 <= i < rows.len() && rows[i] == first;
    let j = choose|j: int| 0 <= j < rows.len() && rows[j] == last;
    let k = choose|k: int| 0 <= k < rows.len() && rows[k] == newest;
    assert(admits(q, rows[i]) && admits(q, rows[j]) && admits(targets, rows[k]));
    lemma_first(rows, q, a->0);
    lemma_last(rows, q, b->0);
    lemma_last(rows, targets, d->0);
    lemma_same(rows, a->0, first);
    lemma_same(rows, b->0, last);
    lemma_same(rows, d->0, newest);
    assert(rows.contains(a->0) && rows.contains(b->0) && rows.contains(d->0));
}

proof fn lemma_plan(index: Index, s: SessionRow, plan: BriefPlan) -> (r: (
    Option<CheckpointRow>,
    Option<CheckpointRow>,
    Option<CheckpointRow>,
    Option<CheckpointRow>,
))
    requires
        is_plan(index, s, plan),
    ensures
        is_first(index.rows@, ask_session(Kinds::Restorable, s.session_id@), r.0),
        is_last(index.rows@, ask_session(Kinds::Restorable, s.session_id@), r.1),
        is_last(index.rows@, ask_session(Kinds::Any, s.session_id@), r.2),
        is_last(index.rows@, ask(Kinds::Targets), r.3),
        plan.session_diff == crate::brief::comparison(r.0, r.1),
        plan.drift_diff == crate::brief::comparison(r.1, r.3),
        plan.session is Some,
        is_session_brief(index, s, r.1, plan.session->0),
        are_abandoned(
            index,
            session_rewinds(index, r.0, r.2),
            plan.session->0.abandoned@,
            plan.branch_diffs@,
        ),
{
    let rows = index.rows@;
    let tree = ask_session(Kinds::Restorable, s.session_id@);
    let any = ask_session(Kinds::Any, s.session_id@);
    let targets = ask(Kinds::Targets);
    choose|a: Option<CheckpointRow>, b: Option<CheckpointRow>, c: Option<CheckpointRow>, d: Option<
        CheckpointRow,
    >|
        #![trigger is_first(rows, tree, a), is_last(rows, tree, b), is_last(rows, any, c), is_last(rows, targets, d)]
        is_first(rows, tree, a) && is_last(rows, tree, b) && is_last(rows, any, c) && is_last(
            rows,
            targets,
            d,
        ) && plan.session_diff == crate::brief::comparison(a, b) && plan.drift_diff
            == crate::brief::comparison(b, d) && plan.session is Some && is_session_brief(
            index,
            s,
            b,
            plan.session->0,
        ) && are_abandoned(
            index,
            session_rewinds(index, a, c),
            plan.session->0.abandoned@,
            plan.branch_diffs@,
        )
}

/// Whether an entry tells of the tree states that a rewind left behind: those
/// between the row it went back to and the row that was recorded before it.
pub open spec fn tells_branch(index: Index, rewind: CheckpointRow, e: BriefAbandoned) -> bool {
    let left = |row: CheckpointRow|
        index.rows@.contains(row) && row.kind != CheckpointKind::Failed && e.rewound_to < row.id
            && row.id < rewind.id;
    &&& index.rows@.contains(rewind)
    &&& rewind.kind == CheckpointKind::PreRewind
    &&& rewind.rewind_target == Some(e.rewound_to)
    &&& e.rewound_to < e.from_checkpoint
    &&& e.from_checkpoint <= e.to_checkpoint
    &&& e.to_checkpoint < rewind.id
    &&& forall|row: CheckpointRow| #[trigger]
        left(row) ==> e.from_checkpoint <= row.id && row.id <= e.to_checkpoint
    &&& e.checkpoints == Set::new(left).len()
}

/// Every branch that a brief tells as abandoned is one: the tree states that a
/// rewind on record left behind, all of them counted, from the first to the last.
pub proof fn law_abandoned_branches_are_what_rewinds_left(
    index: Index,
    current: Option<Seq<char>>,
    plan: BriefPlan,
    i: int,
)
    requires
        index.wf(),
        plans(index, current, plan),
        plan.session is Some,
        0 <= i < plan.session->0.abandoned@.len(),
    ensures
        exists|rewind: CheckpointRow| #[trigger]
            tells_branch(index, rewind, plan.session->0.abandoned@[i]),
{
    let s = choose|s: SessionRow| #[trigger]
        is_previous(index, current, s) && is_plan(index, s, plan);
    let (a, _, c, _) = lemma_plan(index, s, plan);
    let rewinds = session_rewinds(index, a, c);
    let keep = |r: CheckpointRow| crate::brief::left_branch(index, r);
    let told = abandoning(index, rewinds);
    let e = plan.session->0.abandoned@[i];
    let rewind = told[i];
    assert(is_abandoned(index, rewind, e, plan.branch_diffs@[i]));
    rewinds.lemma_filter_pred(keep, i);
    assert(told.contains(rewind));
    rewinds.lemma_filter_contains_rev(keep, rewind);
    lemma_answers(index.rows@, ask_rewinds(a->0.id as int, c->0.id as int));
    assert(rewinds.contains(rewind));
    lemma_branch(index, rewind, e, plan.branch_diffs@[i]);
}

proof fn lemma_branch(
    index: Index,
    rewind: CheckpointRow,
    e: BriefAbandoned,
    diff: crate::brief::Comparison,
)
    requires
        index.wf(),
        index.rows@.contains(rewind),
        rewind.kind == CheckpointKind::PreRewind,
        crate::brief::left_branch(index, rewind),
        is_abandoned(index, rewind, e, diff),
    ensures
        tells_branch(index, rewind, e),
{
    let rows = index.rows@;
    let between = ask_between(rewind.rewind_target->0 as int, rewind.id as int);
    lemma_answers(rows, between);
    crate::listings::lemma_counted(rows, between);
    let left = branch(index, rewind);
    assert(left.contains(left[0]) && left.contains(left.last()));
    let inside = |row: CheckpointRow|
        rows.contains(row) && row.kind != CheckpointKind::Failed && e.rewound_to < row.id && row.id
            < rewind.id;
    assert(Set::new(inside) =~= Set::new(
        |row: CheckpointRow| rows.contains(row) && admits(between, row),
    ));
    assert forall|row: CheckpointRow| #[trigger] inside(row) implies e.from_checkpoint <= row.id
        && row.id <= e.to_checkpoint by {
        assert(left.contains(row));
        let k = choose|k: int| 0 <= k < left.len() && left[k] == row;
        if k > 0 {
            assert(left[0].id < left[k].id);
        }
        if k < left.len() - 1 {
            assert(left[k].id < left[left.len() - 1].id);
        }
    }
    if left.len() > 1 {
        assert(left[0].id < left[left.len() - 1].id);
    }
}

/// No branch is passed over: a rewind on record between the first tree state of
/// the session and its last row that left a tree state behind is told.
pub proof fn law_every_branch_left_behind_is_told(
    index: Index,
    current: Option<Seq<char>>,
    plan: BriefPlan,
    first: CheckpointRow,
    last: CheckpointRow,
    rewind: CheckpointRow,
    left: CheckpointRow,
)
    requires
        index.wf(),
        plans(index, current, plan),
        plan.session is Some,
        ({
            let session = plan.session->0.session_id@;
            &&& index.rows@.contains(first) && of(first, session) && first.kind
                != CheckpointKind::Failed
            &&& forall|row: CheckpointRow| #[trigger]
                index.rows@.contains(row) && of(row, session) && row.kind != CheckpointKind::Failed
                    ==> first.id <= row.id
            &&& index.rows@.contains(last) && of(last, session)
            &&& forall|row: CheckpointRow| #[trigger]
                index.rows@.contains(row) && of(row, session) ==> row.id <= last.id
        }),
        index.rows@.contains(rewind),
        rewind.kind == CheckpointKind::PreRewind,
        rewind.rewind_target is Some,
        first.id <= rewind.id <= last.id,
        index.rows@.contains(left),
        left.kind != CheckpointKind::Failed,
        rewind.rewind_target->0 < left.id < rewind.id,
    ensures
        exists|i: int|
            0 <= i < plan.session->0.abandoned@.len() && tells_branch(
                index,
                rewind,
                #[trigger] plan.session->0.abandoned@[i],
            ),
{
    let rows = index.rows@;
    let s = choose|s: SessionRow| #[trigger]
        is_previous(index, current, s) && is_plan(index, s, plan);
    let (a, _, c, _) = lemma_plan(index, s, plan);
    let tree = ask_session(Kinds::Restorable, s.session_id@);
    let any = ask_session(Kinds::Any, s.session_id@);
    let i = choose|i: int| 0 <= i < rows.len() && rows[i] == first;
    let j = choose|j: int| 0 <= j < rows.len() && rows[j] == last;
    assert(admits(tree, rows[i]) && admits(any, rows[j]));
    lemma_first(rows, tree, a->0);
    lemma_last(rows, any, c->0);
    lemma_same(rows, a->0, first);
    lemma_same(rows, c->0, last);
    assert(rows.contains(a->0) && rows.contains(c->0));
    let q = ask_rewinds(first.id as int, last.id as int);
    lemma_answers(rows, q);
    let rewinds = session_rewinds(index, a, c);
    assert(admits(q, rewind));
    assert(rewinds.contains(rewind));
    let between = ask_between(rewind.rewind_target->0 as int, rewind.id as int);
    lemma_answers(rows, between);
    assert(admits(between, left));
    assert(branch(index, rewind).contains(left));
    let keep = |r: CheckpointRow| crate::brief::left_branch(index, r);
    assert(keep(rewind));
    let m = choose|m: int| 0 <= m < rewinds.len() && rewinds[m] == rewind;
    rewinds.lemma_filter_contains(keep, m);
    let told = abandoning(index, rewinds);
    let k = choose|k: int| 0 <= k < told.len() && told[k] == rewind;
    let e = plan.session->0.abandoned@[k];
    assert(is_abandoned(index, told[k], e, plan.branch_diffs@[k]));
    lemma_branch(index, rewind, e, plan.branch_diffs@[k]);
}

/// A brief counts the files whose content changed, and shows the first few of
/// them, at most five.
pub proof fn law_brief_counts_content(
    plan: BriefPlan,
    session: Seq<FileChange>,
    branches: Seq<Vec<FileChange>>,
    drift: Seq<FileChange>,
    info: BriefInfo,
)
    requires
        is_brief(plan, session, branches, drift, info),
        content_of(session).len() <= u64::MAX,
    ensures
        info.session is Some <==> plan.session is Some,
        info.drift_files == content_of(drift).len(),
        info.session matches Some(told) ==> {
            &&& told.session_id == plan.session->0.session_id
            &&& told.end_checkpoint == plan.session->0.end_checkpoint
            &&& told.files_changed == content_of(session).len()
            &&& told.sample_paths@.len() <= 5
            &&& told.sample_paths@.len() <= told.files_changed
            &&& told.sample_paths@.len() < 5 ==> told.sample_paths@.len() == told.files_changed
            &&& forall|i: int|
                0 <= i < told.sample_paths@.len() ==> (#[trigger] told.sample_paths@[i])@
                    == lossy_text(path_of(content_of(session)[i].path()))
        },
{
}

} // verus!
