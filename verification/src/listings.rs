//! What the timeline, the turns, the sessions and an inspection tell, said of
//! the rows on record: everything that was asked for and nothing else, in order.
use vstd::prelude::*;
use crate::digest::hex_of;
use crate::history::{
    are_sessions, are_turns, is_inspect, is_session_entry, is_timeline, is_turn_entry, timeline_rows,
};
use crate::index::{
    admits, answers, ask, ask_session, is_newest, is_oldest, kind_name, newest_first, ordered, Asked,
    CheckpointKind, CheckpointRow, Index, Kinds, TurnRow,
};
use crate::proto::{InspectInfo, SessionEntry, TimelineEntry, TurnEntry};

verus! {

/// Whether a row is one of a session.
pub open spec fn of(row: CheckpointRow, session: Seq<char>) -> bool {
    row.session_id matches Some(s) && s@ == session
}

/// Whether a row is a real snapshot: taken by a baseline, around a tool call or
/// by hand.
pub open spec fn snapshot(row: CheckpointRow) -> bool {
    row.kind == CheckpointKind::Baseline || row.kind == CheckpointKind::Pre || row.kind
        == CheckpointKind::Post || row.kind == CheckpointKind::Manual
}

/// The first of the rows that answer a query has the smallest id of them.
pub proof fn lemma_first(rows: Seq<CheckpointRow>, q: Asked, row: CheckpointRow)
    requires
        ordered(rows),
        is_oldest(rows, q, row),
    ensures
        rows.contains(row),
        admits(q, row),
        forall|other: CheckpointRow| #[trigger]
            rows.contains(other) && admits(q, other) ==> row.id <= other.id,
{
    let i = choose|i: int|
        0 <= i < rows.len() && rows[i] == row && #[trigger] admits(q, rows[i]) && forall|j: int|
            0 <= j < i ==> !admits(q, #[trigger] rows[j]);
    assert forall|other: CheckpointRow| #[trigger]
        rows.contains(other) && admits(q, other) implies row.id <= other.id by {
        let j = choose|j: int| 0 <= j < rows.len() && rows[j] == other;
        assert(admits(q, rows[j]));
    }
}

/// The last of the rows that answer a query has the largest id of them.
pub proof fn lemma_last(rows: Seq<CheckpointRow>, q: Asked, row: CheckpointRow)
    requires
        ordered(rows),
        is_newest(rows, q, row),
    ensures
        rows.contains(row),
        admits(q, row),
        forall|other: CheckpointRow| #[trigger]
            rows.contains(other) && admits(q, other) ==> other.id <= row.id,
{
    let i = choose|i: int|
        0 <= i < rows.len() && rows[i] == row && #[trigger] admits(q, rows[i]) && forall|j: int|
            i < j < rows.len() ==> !admits(q, #[trigger] rows[j]);
    assert forall|other: CheckpointRow| #[trigger]
        rows.contains(other) && admits(q, other) implies other.id <= row.id by {
        let j = choose|j: int| 0 <= j < rows.len() && rows[j] == other;
        assert(admits(q, rows[j]));
    }
}

/// The rows that answer a query stand in order, and are those that do.
pub proof fn lemma_answers(rows: Seq<CheckpointRow>, q: Asked)
    requires
        ordered(rows),
    ensures
        ordered(answers(rows, q)),
        forall|row: CheckpointRow| #[trigger]
            answers(rows, q).contains(row) <==> rows.contains(row) && admits(q, row),
    decreases rows.len(),
{
    reveal(Seq::filter);
    let keep = |row: CheckpointRow| admits(q, row);
    let found = answers(rows, q);
    assert(found == rows.filter(keep));
    if rows.len() > 0 {
        let rest = rows.drop_last();
        let last = rows.last();
        assert(ordered(rest));
        lemma_answers(rest, q);
        let before = answers(rest, q);
        assert(found == if admits(q, last) { before.push(last) } else { before });
        assert forall|row: CheckpointRow| #[trigger]
            found.contains(row) <==> rows.contains(row) && admits(q, row) by {
            if found.contains(row) {
                let i = choose|i: int| 0 <= i < found.len() && found[i] == row;
                if i < before.len() {
                    assert(before.contains(row));
                    let j = choose|j: int| 0 <= j < rest.len() && rest[j] == row;
                    assert(rows[j] == row);
                } else {
                    assert(rows[rows.len() - 1] == row);
                }
            }
            if rows.contains(row) && admits(q, row) {
                let j = choose|j: int| 0 <= j < rows.len() && rows[j] == row;
                if j < rest.len() {
                    assert(rest[j] == row);
                    assert(before.contains(row));
                    let i = choose|i: int| 0 <= i < before.len() && before[i] == row;
                    assert(found[i] == row);
                } else {
                    assert(found[found.len() - 1] == row);
                }
            }
        }
        if admits(q, last) {
            assert forall|i: int, j: int| 0 <= i < j < found.len() implies (#[trigger] found[i]).id
                < (#[trigger] found[j]).id by {
                if j == found.len() - 1 {
                    assert(before.contains(before[i]));
                    let k = choose|k: int| 0 <= k < rest.len() && rest[k] == before[i];
                    assert(rows[k].id < rows[rows.len() - 1].id);
                }
            }
        }
    }
}

/// How many rows answer a query is how many there are that do.
pub proof fn lemma_counted(rows: Seq<CheckpointRow>, q: Asked)
    requires
        ordered(rows),
    ensures
        answers(rows, q).len() == Set::new(
            |row: CheckpointRow| rows.contains(row) && admits(q, row),
        ).len(),
{
    lemma_answers(rows, q);
    let found = answers(rows, q);
    assert(found.no_duplicates()) by {
        assert forall|i: int, j: int| 0 <= i < found.len() && 0 <= j < found.len() && i
            != j implies found[i] != found[j] by {
            assert(found[i].id != found[j].id);
        }
    }
    found.unique_seq_to_set();
    assert(found.to_set() =~= Set::new(
        |row: CheckpointRow| rows.contains(row) && admits(q, row),
    ));
}

/// Whether an entry shows a row.
pub open spec fn shows(e: TimelineEntry, row: CheckpointRow) -> bool {
    &&& e.id == row.id
    &&& e.created_at == row.created_at
    &&& e.kind@ == kind_name(row.kind)
    &&& e.published == row.published
    &&& e.session_id == row.session_id
    &&& e.tool_name == row.tool_name
    &&& e.label == row.label
    &&& e.error == row.error
    &&& e.turn == row.turn
}

/// Whether a row is one that a timeline was asked for.
pub open spec fn wanted(row: CheckpointRow, session: Option<Seq<char>>, turn: Option<i64>) -> bool {
    &&& session matches Some(s) ==> of(row, s)
    &&& turn matches Some(t) ==> row.turn == Some(t)
}

/// Whether an entry shows a row that a timeline was asked for.
pub open spec fn shows_wanted(
    rows: Seq<CheckpointRow>,
    e: TimelineEntry,
    session: Option<Seq<char>>,
    turn: Option<i64>,
) -> bool {
    exists|row: CheckpointRow| #[trigger]
        rows.contains(row) && wanted(row, session, turn) && shows(e, row)
}

/// The timeline lists the newest of the rows that were asked for, newest first:
/// each entry shows such a row, and a row that was asked for and is not listed
/// is older than everything listed, and the list is full. Nothing is left out
/// for what it is: failed captures and checkpoints without changes are listed
/// too.
pub proof fn law_timeline_lists_the_newest(
    index: Index,
    session: Option<Seq<char>>,
    turn: Option<i64>,
    limit: nat,
    entries: Vec<TimelineEntry>,
)
    requires
        index.wf(),
        is_timeline(index, session, turn, limit, Ok(entries)),
    ensures
        entries@.len() <= limit,
        forall|i: int, j: int|
            0 <= i < j < entries@.len() ==> (#[trigger] entries@[i]).id > (
            #[trigger] entries@[j]).id,
        forall|i: int|
            0 <= i < entries@.len() ==> shows_wanted(
                index.rows@,
                #[trigger] entries@[i],
                session,
                turn,
            ),
        forall|row: CheckpointRow| #[trigger]
            index.rows@.contains(row) && wanted(row, session, turn) ==> (exists|i: int|
                0 <= i < entries@.len() && (#[trigger] entries@[i]).id == row.id) || (
            entries@.len() == limit && forall|i: int|
                0 <= i < entries@.len() ==> (#[trigger] entries@[i]).id > row.id),
{
    let rows = index.rows@;
    let q = Asked { session, turn: crate::index::asked_turn(turn), ..ask(Kinds::Any) };
    lemma_answers(rows, q);
    let found = answers(rows, q);
    let back = found.reverse();
    let list = timeline_rows(index, session, turn, limit);
    assert(list == newest_first(rows, q, limit));
    assert forall|i: int| 0 <= i < list.len() implies #[trigger] list[i] == found[found.len() - 1
        - i] by {
        assert(back[i] == found[found.len() - 1 - i]);
    }
    assert forall|i: int, j: int| 0 <= i < j < entries@.len() implies (#[trigger] entries@[i]).id > (
    #[trigger] entries@[j]).id by {
        assert(list[i].id > list[j].id);
    }
    assert forall|i: int| 0 <= i < entries@.len() implies shows_wanted(
        rows,
        #[trigger] entries@[i],
        session,
        turn,
    ) by {
        let row = list[i];
        assert(found.contains(row));
        assert(rows.contains(row));
    }
    assert forall|row: CheckpointRow| #[trigger]
        index.rows@.contains(row) && wanted(row, session, turn) implies (exists|i: int|
        0 <= i < entries@.len() && (#[trigger] entries@[i]).id == row.id) || (entries@.len()
        == limit && forall|i: int|
        0 <= i < entries@.len() ==> (#[trigger] entries@[i]).id > row.id) by {
        assert(admits(q, row));
        assert(found.contains(row));
        let k = choose|k: int| 0 <= k < found.len() && found[k] == row;
        let i = found.len() - 1 - k;
        if i < list.len() {
            assert(list[i] == row);
            assert(entries@[i].id == row.id);
        } else {
            assert forall|m: int| 0 <= m < entries@.len() implies (#[trigger] entries@[m]).id
                > row.id by {
                assert(list[m] == found[found.len() - 1 - m]);
                assert(found[k].id < found[found.len() - 1 - m].id);
            }
        }
    }
}

/// A turn number means nothing without its session: a timeline of a turn alone
/// is refused, and nothing else is.
pub proof fn law_turns_need_their_session(
    index: Index,
    session: Option<Seq<char>>,
    turn: Option<i64>,
    limit: nat,
    r: Result<Vec<TimelineEntry>, String>,
)
    requires
        is_timeline(index, session, turn, limit, r),
    ensures
        r is Err <==> turn is Some && session is None,
{
}

/// Whether a row is one of a turn of a session.
pub open spec fn of_turn(row: CheckpointRow, session: Seq<char>, turn: i64) -> bool {
    of(row, session) && row.turn == Some(turn)
}

/// What is told of a turn spans its checkpoints: the first and the last are
/// rows of the turn, no row of the turn lies outside of them, they are counted,
/// and the base is the last real snapshot before the first of them.
pub proof fn law_turn_spans_its_checkpoints(index: Index, t: TurnRow, e: TurnEntry, row: CheckpointRow)
    requires
        index.wf(),
        is_turn_entry(index, t, e),
        index.rows@.contains(row),
    ensures
        e.session_id@ == t.session_id@,
        e.turn == t.turn,
        e.prompt@ == t.prompt@,
        e.first_checkpoint is Some <==> e.last_checkpoint is Some,
        of_turn(row, t.session_id@, t.turn) ==> (e.first_checkpoint matches Some(first) && first
            <= row.id) && (e.last_checkpoint matches Some(last) && row.id <= last),
        e.first_checkpoint == Some(row.id) ==> of_turn(row, t.session_id@, t.turn),
        e.last_checkpoint == Some(row.id) ==> of_turn(row, t.session_id@, t.turn),
        e.checkpoints == Set::new(
            |other: CheckpointRow|
                index.rows@.contains(other) && of_turn(other, t.session_id@, t.turn),
        ).len(),
        e.base_checkpoint == Some(row.id) ==> snapshot(row) && (e.first_checkpoint matches Some(
            first,
        ) && row.id < first),
        snapshot(row) && (e.first_checkpoint matches Some(first) && row.id < first) ==> (
        e.base_checkpoint matches Some(base) && row.id <= base),
{
    let rows = index.rows@;
    let q = crate::history::ask_turn(t.session_id@, t.turn as int);
    assert forall|other: CheckpointRow| #[trigger] admits(q, other) <==> of_turn(
        other,
        t.session_id@,
        t.turn,
    ) by {}
    lemma_counted(rows, q);
    assert(Set::new(
        |other: CheckpointRow| rows.contains(other) && of_turn(other, t.session_id@, t.turn),
    ) =~= Set::new(|other: CheckpointRow| rows.contains(other) && admits(q, other)));
    let k = choose|k: int| 0 <= k < rows.len() && rows[k] == row;
    if let Some(first) = e.first_checkpoint {
        let a = choose|a: CheckpointRow| #[trigger] is_oldest(rows, q, a) && a.id == first;
        lemma_first(rows, q, a);
        lemma_same(rows, a, row);
        let below = Asked { below: Some(first as int), ..ask(Kinds::Targets) };
        assert(admits(below, row) <==> snapshot(row) && row.id < first);
        if let Some(base) = e.base_checkpoint {
            let c = choose|c: CheckpointRow| #[trigger] is_newest(rows, below, c) && c.id == base;
            lemma_last(rows, below, c);
            lemma_same(rows, c, row);
        } else {
            assert(!admits(below, rows[k]));
        }
    } else {
        assert(!admits(q, rows[k]));
    }
    if let Some(last) = e.last_checkpoint {
        let b = choose|b: CheckpointRow| #[trigger] is_newest(rows, q, b) && b.id == last;
        lemma_last(rows, q, b);
        lemma_same(rows, b, row);
        let m = choose|m: int| 0 <= m < rows.len() && rows[m] == b;
        assert(admits(q, rows[m]));
    } else {
        assert(!admits(q, rows[k]));
        if let Some(first) = e.first_checkpoint {
            let a = choose|a: CheckpointRow| #[trigger] is_oldest(rows, q, a) && a.id == first;
            lemma_first(rows, q, a);
            let m = choose|m: int| 0 <= m < rows.len() && rows[m] == a;
            assert(admits(q, rows[m]));
        }
    }
}

/// Rows under one id are one row.
pub proof fn lemma_same(rows: Seq<CheckpointRow>, a: CheckpointRow, b: CheckpointRow)
    requires
        ordered(rows),
        rows.contains(a),
        rows.contains(b),
    ensures
        a.id == b.id ==> a == b,
{
    let i = choose|i: int| 0 <= i < rows.len() && rows[i] == a;
    let j = choose|j: int| 0 <= j < rows.len() && rows[j] == b;
    if i != j {
        assert(rows[i].id != rows[j].id);
    }
}

/// The turns of a session are all told, in the order of its prompts, and no
/// others: entries and turns of the session correspond in order.
pub proof fn law_turns_of_a_session_are_all_told(index: Index, session: Seq<char>, r: Seq<TurnEntry>)
    requires
        are_turns(index, Some(session), r),
    ensures
        forall|i: int| 0 <= i < r.len() ==> (#[trigger] r[i]).session_id@ == session,
        forall|k: int|
            0 <= k < index.turns@.len() && (#[trigger] index.turns@[k]).session_id@ == session
                ==> exists|i: int|
                0 <= i < r.len() && is_turn_entry(index, index.turns@[k], #[trigger] r[i]),
        r.len() <= index.turns@.len(),
{
    let keep = crate::history::of_session(Some(session));
    let told = crate::history::turns_of(index, Some(session));
    assert forall|i: int| 0 <= i < r.len() implies (#[trigger] r[i]).session_id@ == session by {
        assert(is_turn_entry(index, told[i], r[i]));
        index.turns@.lemma_filter_pred(keep, i);
    }
    assert forall|k: int|
        0 <= k < index.turns@.len() && (#[trigger] index.turns@[k]).session_id@
            == session implies exists|i: int|
        0 <= i < r.len() && is_turn_entry(index, index.turns@[k], #[trigger] r[i]) by {
        index.turns@.lemma_filter_contains(keep, k);
        let i = choose|i: int| 0 <= i < told.len() && told[i] == index.turns@[k];
        assert(is_turn_entry(index, told[i], r[i]));
    }
    index.turns@.lemma_filter_len(keep);
}

/// The sessions are told from the one that started last, at most as many as were
/// asked for.
pub proof fn law_sessions_are_told_newest_first(index: Index, limit: nat, r: Seq<SessionEntry>)
    requires
        are_sessions(index, limit, r),
    ensures
        r.len() <= limit,
        r.len() < limit ==> r.len() == index.sessions@.len(),
        forall|i: int|
            0 <= i < r.len() ==> {
                let session = index.sessions@[index.sessions@.len() - 1 - i];
                &&& (#[trigger] r[i]).session_id@ == session.session_id@
                &&& r[i].host == session.host
                &&& r[i].started_at == session.started_at
                &&& r[i].ended_at == session.ended_at
            },
{
}

/// What is told of a session counts its checkpoints and names the last tree
/// state of it.
pub proof fn law_session_entry_counts_its_rows(
    index: Index,
    session: crate::index::SessionRow,
    e: SessionEntry,
    row: CheckpointRow,
)
    requires
        index.wf(),
        is_session_entry(index, session, e),
        index.rows@.contains(row),
    ensures
        e.checkpoints == Set::new(
            |other: CheckpointRow| index.rows@.contains(other) && of(other, session.session_id@),
        ).len(),
        e.end_checkpoint == Some(row.id) ==> of(row, session.session_id@) && row.kind
            != CheckpointKind::Failed,
        of(row, session.session_id@) && row.kind != CheckpointKind::Failed ==> (e.end_checkpoint
            matches Some(end) && row.id <= end),
{
    let rows = index.rows@;
    let any = ask_session(Kinds::Any, session.session_id@);
    let q = ask_session(Kinds::Restorable, session.session_id@);
    assert forall|other: CheckpointRow| #[trigger] admits(any, other) <==> of(
        other,
        session.session_id@,
    ) by {}
    lemma_counted(rows, any);
    assert(Set::new(
        |other: CheckpointRow| rows.contains(other) && of(other, session.session_id@),
    ) =~= Set::new(|other: CheckpointRow| rows.contains(other) && admits(any, other)));
    assert(admits(q, row) <==> of(row, session.session_id@) && row.kind != CheckpointKind::Failed);
    let k = choose|k: int| 0 <= k < rows.len() && rows[k] == row;
    if let Some(end) = e.end_checkpoint {
        let b = choose|b: CheckpointRow| #[trigger] is_newest(rows, q, b) && b.id == end;
        lemma_last(rows, q, b);
        lemma_same(rows, b, row);
    } else {
        assert(!admits(q, rows[k]));
    }
}

/// An inspection tells all of the row of the id, and is refused only where there
/// is none.
pub proof fn law_inspection_tells_the_row(
    index: Index,
    row: CheckpointRow,
    r: Result<InspectInfo, String>,
)
    requires
        index.wf(),
        index.rows@.contains(row),
        is_inspect(index, row.id, r),
    ensures
        r matches Ok(info) && {
            &&& info.id == row.id
            &&& info.generation@ == hex_of(row.generation@)
            &&& info.created_at == row.created_at
            &&& info.kind@ == kind_name(row.kind)
            &&& info.published == row.published
            &&& info.session_id == row.session_id
            &&& info.turn == row.turn
            &&& info.tool_name == row.tool_name
            &&& info.tool_call_id == row.tool_call_id
            &&& info.label == row.label
            &&& info.error == row.error
            &&& info.rewind_target == row.rewind_target
            &&& row.session_id is None ==> info.host is None && info.prompt is None
            &&& info.host matches Some(host) ==> exists|k: int|
                0 <= k < index.sessions@.len() && of(row, (#[trigger] index.sessions@[k]).session_id@)
                    && index.sessions@[k].host == Some(host)
            &&& info.prompt matches Some(prompt) ==> exists|k: int|
                0 <= k < index.turns@.len() && of_turn(
                    row,
                    (#[trigger] index.turns@[k]).session_id@,
                    index.turns@[k].turn,
                ) && index.turns@[k].prompt == prompt
        },
{
    let k = choose|k: int| 0 <= k < index.rows@.len() && index.rows@[k] == row;
    assert(index.rows@[k].id == row.id);
    if let Ok(info) = r {
        let found = choose|found: CheckpointRow| #[trigger]
            index.rows@.contains(found) && found.id == row.id && crate::history::is_inspection(
                index,
                found,
                info,
            );
        lemma_same(index.rows@, found, row);
    }
}

} // verus!
