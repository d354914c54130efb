//! What is told of the history: the timeline, turns and sessions, single
//! checkpoints, and which rows a rewind or a diff means.
use vstd::prelude::*;
use crate::diff::{file_kind_text, ChangeKind, FileChange};
use crate::digest::{generation_hex, hex_of};
use crate::index::{
    admits, answers, answers_nothing, ask, ask_session, asked_turn, is_newest, is_oldest, kind_name,
    newest_first, prefixed, session_at, Asked, CheckpointKind, CheckpointRow, Index, Kinds, Query,
    SessionRow, TurnRow,
};
use crate::merge::{among, is_among};
use crate::path::{lossy_text, path_of, HostPath};
use crate::product::NAME;
use crate::proto::{
    DiffEntry, InspectInfo, RewindTarget, SessionEntry, TimelineEntry, TurnEntry,
};
use crate::text::{copy_opt, decimal, opt_str, push_int, text_eq};

verus! {

/// Whether an entry is what the timeline tells of a row.
pub open spec fn is_timeline_entry(row: CheckpointRow, e: TimelineEntry) -> bool {
    &&& e.kind@ == kind_name(row.kind)
    &&& e == TimelineEntry {
        id: row.id,
        created_at: row.created_at,
        kind: e.kind,
        published: row.published,
        session_id: row.session_id,
        tool_name: row.tool_name,
        label: row.label,
        error: row.error,
        turn: row.turn,
    }
}

/// What the timeline tells of a row.
pub fn timeline_entry(row: CheckpointRow) -> (e: TimelineEntry)
    ensures
        is_timeline_entry(row, e),
{
    TimelineEntry {
        id: row.id,
        created_at: row.created_at,
        kind: row.kind.as_str().to_owned(),
        published: row.published,
        session_id: row.session_id,
        tool_name: row.tool_name,
        label: row.label,
        error: row.error,
        turn: row.turn,
    }
}

/// The rows that the timeline lists: newest first, of one session and turn
/// where they are given.
pub open spec fn timeline_rows(index: Index, session: Option<Seq<char>>, turn: Option<i64>, limit: nat) -> Seq<CheckpointRow> {
    newest_first(
        index.rows@,
        (Asked { session, turn: asked_turn(turn), ..ask(Kinds::Any) }),
        limit,
    )
}

/// Whether a timeline is the one asked for. Turns are numbered within a
/// session, so a turn without one is an error.
pub open spec fn is_timeline(
    index: Index,
    session: Option<Seq<char>>,
    turn: Option<i64>,
    limit: nat,
    r: Result<Vec<TimelineEntry>, String>,
) -> bool {
    match r {
        Ok(entries) => {
            &&& turn is None || session is Some
            &&& entries@.len() == timeline_rows(index, session, turn, limit).len()
            &&& forall|i: int|
                0 <= i < entries@.len() ==> is_timeline_entry(
                    timeline_rows(index, session, turn, limit)[i],
                    #[trigger] entries@[i],
                )
        },
        Err(message) => turn is Some && session is None && message@
            == "--turn needs --session (turn numbers are per session)"@,
    }
}

/// The timeline.
pub fn timeline(index: &Index, session_id: Option<&str>, turn: Option<i64>, limit: u32) -> (r: Result<
    Vec<TimelineEntry>,
    String,
>)
    ensures
        is_timeline(*index, opt_str(session_id), turn, limit as nat, r),
{
    if turn.is_some() && session_id.is_none() {
        return Err("--turn needs --session (turn numbers are per session)".to_owned());
    }
    let rows = index.list(session_id, turn, limit);
    let mut out: Vec<TimelineEntry> = Vec::new();
    let mut i: usize = 0;
    while i < rows.len()
        invariant
            i <= rows@.len(),
            out@.len() == i,
            forall|j: int| 0 <= j < i ==> is_timeline_entry(rows@[j], #[trigger] out@[j]),
        decreases rows.len() - i,
    {
        out.push(timeline_entry(rows[i].clone()));
        i += 1;
    }
    Ok(out)
}

/// The rows of one turn of a session.
pub open spec fn ask_turn(session: Seq<char>, turn: int) -> Asked {
    Asked { session: Some(session), turn: Some(turn), ..ask(Kinds::Any) }
}

/// The number of a row that may be there.
pub open spec fn id_of(row: Option<CheckpointRow>) -> Option<i64> {
    match row {
        Some(row) => Some(row.id),
        None => None,
    }
}

fn row_id(row: &Option<CheckpointRow>) -> (r: Option<i64>)
    ensures
        r == id_of(*row),
{
    match row {
        Some(row) => Some(row.id),
        None => None,
    }
}

/// Whether an id is that of the first row that answers a query, or there is
/// none.
pub open spec fn first_id(rows: Seq<CheckpointRow>, q: Asked, id: Option<i64>) -> bool {
    match id {
        Some(id) => exists|row: CheckpointRow| #[trigger] is_oldest(rows, q, row) && row.id == id,
        None => answers_nothing(rows, q),
    }
}

/// Whether an id is that of the last row that answers a query, or there is
/// none.
pub open spec fn last_id(rows: Seq<CheckpointRow>, q: Asked, id: Option<i64>) -> bool {
    match id {
        Some(id) => exists|row: CheckpointRow| #[trigger] is_newest(rows, q, row) && row.id == id,
        None => answers_nothing(rows, q),
    }
}

/// Whether an entry is what is told of a turn: the prompt, its checkpoints,
/// and the last real snapshot before them.
pub open spec fn is_turn_entry(index: Index, t: TurnRow, e: TurnEntry) -> bool {
    let q = ask_turn(t.session_id@, t.turn as int);
    &&& e.session_id == t.session_id
    &&& e.turn == t.turn
    &&& e.started_at == t.started_at
    &&& e.prompt == t.prompt
    &&& first_id(index.rows@, q, e.first_checkpoint)
    &&& last_id(index.rows@, q, e.last_checkpoint)
    &&& e.checkpoints == answers(index.rows@, q).len()
    &&& match e.first_checkpoint {
        Some(first) => last_id(
            index.rows@,
            (Asked { below: Some(first as int), ..ask(Kinds::Targets) }),
            e.base_checkpoint,
        ),
        None => e.base_checkpoint is None,
    }
}

fn first_of(index: &Index, q: &Query) -> (r: Option<i64>)
    ensures
        first_id(index.rows@, q@, r),
{
    let row = index.first(q);
    proof {
        if row is Some {
            assert(is_oldest(index.rows@, q@, row->0));
        }
    }
    row_id(&row)
}

fn last_of(index: &Index, q: &Query) -> (r: Option<i64>)
    ensures
        last_id(index.rows@, q@, r),
{
    let row = index.newest(q);
    proof {
        if row is Some {
            assert(is_newest(index.rows@, q@, row->0));
        }
    }
    row_id(&row)
}

/// What is told of a turn.
pub fn turn_entry(index: &Index, t: &TurnRow) -> (e: TurnEntry)
    requires
        index.rows@.len() <= i64::MAX,
    ensures
        is_turn_entry(*index, *t, e),
{
    let q = Query {
        kinds: Kinds::Any,
        session: Some(t.session_id.as_str()),
        turn: Some(t.turn),
        from: None,
        below: None,
    };
    let first_checkpoint = first_of(index, &q);
    let last_checkpoint = last_of(index, &q);
    let found = index.select(&q);
    proof {
        lemma_answers_len(index.rows@, q@);
    }
    let base_checkpoint = match first_checkpoint {
        Some(first) => last_of(
            index,
            &Query {
                kinds: Kinds::Targets,
                session: None,
                turn: None,
                from: None,
                below: Some(first),
            },
        ),
        None => None,
    };
    TurnEntry {
        session_id: t.session_id.clone(),
        turn: t.turn,
        started_at: t.started_at,
        prompt: t.prompt.clone(),
        first_checkpoint,
        last_checkpoint,
        checkpoints: found.len() as i64,
        base_checkpoint,
    }
}

/// No more rows answer a query than there are.
pub proof fn lemma_answers_len(rows: Seq<CheckpointRow>, q: Asked)
    ensures
        answers(rows, q).len() <= rows.len(),
    decreases rows.len(),
{
    reveal(Seq::filter);
    if rows.len() > 0 {
        lemma_answers_len(rows.drop_last(), q);
    }
}

/// The turns of one session, or of all.
pub open spec fn turns_of(index: Index, session: Option<Seq<char>>) -> Seq<TurnRow> {
    index.turns@.filter(of_session(session))
}

/// Whether a turn is one of a session, or of any.
pub open spec fn of_session(session: Option<Seq<char>>) -> spec_fn(TurnRow) -> bool {
    |t: TurnRow| session matches Some(s) ==> t.session_id@ == s
}

/// Whether entries are what is told of the turns of one session, or of all.
pub open spec fn are_turns(index: Index, session: Option<Seq<char>>, r: Seq<TurnEntry>) -> bool {
    &&& r.len() == turns_of(index, session).len()
    &&& forall|i: int|
        0 <= i < r.len() ==> is_turn_entry(index, turns_of(index, session)[i], #[trigger] r[i])
}

/// What is told of the turns of one session, or of all, in the order they were
/// taken.
pub fn turns(index: &Index, session: Option<&str>) -> (r: Vec<TurnEntry>)
    requires
        index.rows@.len() <= i64::MAX,
    ensures
        are_turns(*index, opt_str(session), r@),
{
    let mut out: Vec<TurnEntry> = Vec::new();
    let mut i: usize = 0;
    let ghost wanted = of_session(opt_str(session));
    proof {
        reveal(Seq::filter);
        assert(index.turns@.take(0).filter(wanted) =~= Seq::<TurnRow>::empty());
    }
    while i < index.turns.len()
        invariant
            i <= index.turns@.len(),
            index.rows@.len() <= i64::MAX,
            wanted == of_session(opt_str(session)),
            out@.len() == index.turns@.take(i as int).filter(wanted).len(),
            forall|j: int|
                0 <= j < out@.len() ==> is_turn_entry(
                    *index,
                    index.turns@.take(i as int).filter(wanted)[j],
                    #[trigger] out@[j],
                ),
        decreases index.turns.len() - i,
    {
        proof {
            reveal(Seq::filter);
            assert(index.turns@.take(i + 1).drop_last() =~= index.turns@.take(i as int));
            assert(index.turns@.take(i + 1).last() == index.turns@[i as int]);
        }
        let fits = match session {
            Some(s) => text_eq(index.turns[i].session_id.as_str(), s),
            None => true,
        };
        if fits {
            out.push(turn_entry(index, &index.turns[i]));
        }
        i += 1;
    }
    assert(index.turns@.take(i as int) =~= index.turns@);
    out
}

/// Whether an entry is what is told of a session.
pub open spec fn is_session_entry(index: Index, s: SessionRow, e: SessionEntry) -> bool {
    &&& e.session_id == s.session_id
    &&& e.host == s.host
    &&& e.started_at == s.started_at
    &&& e.ended_at == s.ended_at
    &&& e.checkpoints == answers(
        index.rows@,
        ask_session(Kinds::Any, s.session_id@),
    ).len()
    &&& e.turns == turns_of(index, Some(s.session_id@)).len()
    &&& last_id(index.rows@, ask_session(Kinds::Restorable, s.session_id@), e.end_checkpoint)
}

fn count_turns(index: &Index, session: &str) -> (r: usize)
    ensures
        r == turns_of(*index, Some(session@)).len(),
        r <= index.turns@.len(),
{
    let mut n: usize = 0;
    let mut i: usize = 0;
    let ghost wanted = of_session(Some(session@));
    proof {
        reveal(Seq::filter);
        assert(index.turns@.take(0).filter(wanted) =~= Seq::<TurnRow>::empty());
    }
    while i < index.turns.len()
        invariant
            i <= index.turns@.len(),
            wanted == of_session(Some(session@)),
            n == index.turns@.take(i as int).filter(wanted).len(),
            n <= i,
        decreases index.turns.len() - i,
    {
        proof {
            reveal(Seq::filter);
            assert(index.turns@.take(i + 1).drop_last() =~= index.turns@.take(i as int));
            assert(index.turns@.take(i + 1).last() == index.turns@[i as int]);
        }
        if text_eq(index.turns[i].session_id.as_str(), session) {
            n += 1;
        }
        i += 1;
    }
    assert(index.turns@.take(i as int) =~= index.turns@);
    n
}

/// What is told of a session.
pub fn session_entry(index: &Index, s: &SessionRow) -> (e: SessionEntry)
    requires
        index.rows@.len() <= i64::MAX,
        index.turns@.len() <= i64::MAX,
    ensures
        is_session_entry(*index, *s, e),
{
    let session = s.session_id.as_str();
    let all = Query { kinds: Kinds::Any, session: Some(session), turn: None, from: None, below: None };
    let found = index.select(&all);
    proof {
        lemma_answers_len(index.rows@, all@);
    }
    let end_checkpoint = last_of(
        index,
        &Query { kinds: Kinds::Restorable, session: Some(session), turn: None, from: None, below: None },
    );
    SessionEntry {
        session_id: s.session_id.clone(),
        host: copy_opt(&s.host),
        started_at: s.started_at,
        ended_at: s.ended_at,
        checkpoints: found.len() as i64,
        turns: count_turns(index, session) as i64,
        end_checkpoint,
    }
}

/// Whether entries are what is told of the newest sessions, newest first.
pub open spec fn are_sessions(index: Index, limit: nat, r: Seq<SessionEntry>) -> bool {
    &&& r.len() == if index.sessions@.len() <= limit { index.sessions@.len() } else { limit }
    &&& forall|i: int|
        0 <= i < r.len() ==> is_session_entry(
            index,
            index.sessions@[index.sessions@.len() - 1 - i],
            #[trigger] r[i],
        )
}

/// What is told of the sessions, newest first, at most a number of them.
pub fn sessions(index: &Index, limit: u32) -> (r: Vec<SessionEntry>)
    requires
        index.rows@.len() <= i64::MAX,
        index.turns@.len() <= i64::MAX,
    ensures
        are_sessions(*index, limit as nat, r@),
{
    let mut out: Vec<SessionEntry> = Vec::new();
    let mut n: usize = index.sessions.len();
    while n > 0 && out.len() < limit as usize
        invariant
            n <= index.sessions@.len(),
            index.rows@.len() <= i64::MAX,
            index.turns@.len() <= i64::MAX,
            out@.len() == index.sessions@.len() - n,
            out@.len() <= limit,
            forall|i: int|
                0 <= i < out@.len() ==> is_session_entry(
                    *index,
                    index.sessions@[index.sessions@.len() - 1 - i],
                    #[trigger] out@[i],
                ),
        decreases n,
    {
        out.push(session_entry(index, &index.sessions[n - 1]));
        n -= 1;
    }
    out
}

/// Whether information is that of a row, with the host of its session and the
/// prompt of its turn.
pub open spec fn is_inspection(index: Index, row: CheckpointRow, e: InspectInfo) -> bool {
    &&& e.generation@ == hex_of(row.generation@)
    &&& e.kind@ == kind_name(row.kind)
    &&& e == InspectInfo {
        id: row.id,
        generation: e.generation,
        created_at: row.created_at,
        kind: e.kind,
        published: row.published,
        session_id: row.session_id,
        host: e.host,
        turn: row.turn,
        prompt: e.prompt,
        tool_name: row.tool_name,
        tool_call_id: row.tool_call_id,
        label: row.label,
        error: row.error,
        rewind_target: row.rewind_target,
    }
    &&& host_of(index, row.session_id, e.host)
    &&& prompt_of(index, row.session_id, row.turn, e.prompt)
}

/// Whether a host is that of a session; none for an unknown session.
pub open spec fn host_of(index: Index, session: Option<String>, host: Option<String>) -> bool {
    match session {
        Some(s) => {
            ||| exists|i: int|
                #[trigger] session_at(index.sessions@, s@, i) && host == index.sessions@[i].host
            ||| host is None && forall|i: int| !#[trigger] session_at(index.sessions@, s@, i)
        },
        None => host is None,
    }
}

/// Whether a turn stands at a position.
pub open spec fn turn_at(turns: Seq<TurnRow>, session: Seq<char>, turn: i64, i: int) -> bool {
    0 <= i < turns.len() && turns[i].session_id@ == session && turns[i].turn == turn
}

/// Whether a prompt is that of a turn; none for an unknown turn.
pub open spec fn prompt_of(index: Index, session: Option<String>, turn: Option<i64>, prompt: Option<String>) -> bool {
    match (session, turn) {
        (Some(s), Some(t)) => {
            ||| exists|i: int|
                #[trigger] turn_at(index.turns@, s@, t, i) && prompt == Some(index.turns@[i].prompt)
            ||| prompt is None && forall|i: int| !#[trigger] turn_at(index.turns@, s@, t, i)
        },
        _ => prompt is None,
    }
}

/// The host of a session.
pub fn find_host(index: &Index, session: &Option<String>) -> (r: Option<String>)
    ensures
        host_of(*index, *session, r),
{
    match session {
        Some(s) => match index.session(s.as_str()) {
            Some(row) => {
                proof {
                    let i = choose|i: int|
                        0 <= i < index.sessions@.len() && index.sessions@[i] == row;
                    assert(session_at(index.sessions@, s@, i));
                }
                row.host
            },
            None => None,
        },
        None => None,
    }
}

/// The prompt of a turn.
pub fn find_prompt(index: &Index, session: &Option<String>, turn: Option<i64>) -> (r: Option<String>)
    ensures
        prompt_of(*index, *session, turn, r),
{
    match (session, turn) {
        (Some(s), Some(t)) => match index.turn(s.as_str(), t) {
            Some(row) => {
                proof {
                    let i = choose|i: int| 0 <= i < index.turns@.len() && index.turns@[i] == row;
                    assert(turn_at(index.turns@, s@, t, i));
                }
                Some(row.prompt)
            },
            None => None,
        },
        _ => None,
    }
}

/// Whether an answer is everything known of one checkpoint, or says that there
/// is none.
pub open spec fn is_inspect(index: Index, checkpoint: i64, r: Result<InspectInfo, String>) -> bool {
    match r {
        Ok(info) => exists|row: CheckpointRow|
            #[trigger] index.rows@.contains(row) && row.id == checkpoint && is_inspection(
                index,
                row,
                info,
            ),
        Err(message) => {
            &&& forall|i: int|
                0 <= i < index.rows@.len() ==> (#[trigger] index.rows@[i]).id != checkpoint
            &&& message@ == "no checkpoint #"@ + decimal(checkpoint as int)
        },
    }
}

/// Everything known of one checkpoint.
pub fn inspect(index: &Index, checkpoint: i64) -> (r: Result<InspectInfo, String>)
    ensures
        is_inspect(*index, checkpoint, r),
{
    match index.by_id(checkpoint) {
        Some(row) => {
            let host = find_host(index, &row.session_id);
            let prompt = find_prompt(index, &row.session_id, row.turn);
            let ghost whole = row;
            let info = InspectInfo {
                id: row.id,
                generation: generation_hex(row.generation),
                created_at: row.created_at,
                kind: row.kind.as_str().to_owned(),
                published: row.published,
                session_id: row.session_id,
                host,
                turn: row.turn,
                prompt,
                tool_name: row.tool_name,
                tool_call_id: row.tool_call_id,
                label: row.label,
                error: row.error,
                rewind_target: row.rewind_target,
            };
            assert(index.rows@.contains(whole) && is_inspection(*index, whole, info));
            Ok(info)
        },
        None => {
            let mut message = "no checkpoint #".to_owned();
            push_int(&mut message, checkpoint);
            Err(message)
        },
    }
}

/// Whether a row is the one that a target names.
pub open spec fn names_row(index: Index, target: RewindTarget, row: CheckpointRow) -> bool {
    match target {
        RewindTarget::Checkpoint(id) => row.id == id && index.rows@.contains(row),
        RewindTarget::Last => is_newest(index.rows@, ask(Kinds::Targets), row),
        RewindTarget::SessionStart(session) => is_oldest(
            index.rows@,
            ask_session(Kinds::Restorable, session@),
            row,
        ),
    }
}

/// Whether a target names no row.
pub open spec fn names_nothing(index: Index, target: RewindTarget) -> bool {
    match target {
        RewindTarget::Checkpoint(id) => forall|i: int|
            0 <= i < index.rows@.len() ==> (#[trigger] index.rows@[i]).id != id,
        RewindTarget::Last => answers_nothing(index.rows@, ask(Kinds::Targets)),
        RewindTarget::SessionStart(session) => answers_nothing(
            index.rows@,
            ask_session(Kinds::Restorable, session@),
        ),
    }
}

/// What is said of a checkpoint that is no tree state.
pub open spec fn failed_target_text(id: int) -> Seq<char> {
    "checkpoint #"@ + decimal(id) + " records a failed capture, not a tree state; pick another from `"@
        + NAME@ + " timeline`"@
}

/// Whether a row is the one that a rewind to a target is headed for. A row of a
/// failed capture is none: it carries the generation of before.
pub open spec fn is_target(index: Index, target: RewindTarget, row: CheckpointRow) -> bool {
    names_row(index, target, row) && row.kind != CheckpointKind::Failed
}

/// Whether a message says why a target cannot be rewound to.
pub open spec fn no_target(index: Index, target: RewindTarget, message: Seq<char>) -> bool {
    ||| names_nothing(index, target) && message == "no matching checkpoint"@
    ||| exists|row: CheckpointRow| #[trigger]
        names_row(index, target, row) && row.kind == CheckpointKind::Failed && message
            == failed_target_text(row.id as int)
}

/// The row that a rewind is headed for.
pub fn resolve_target(index: &Index, target: &RewindTarget) -> (r: Result<CheckpointRow, String>)
    ensures
        match r {
            Ok(row) => is_target(*index, *target, row),
            Err(message) => no_target(*index, *target, message@),
        },
{
    let found = match target {
        RewindTarget::Checkpoint(id) => index.by_id(*id),
        RewindTarget::Last => index.latest_target(),
        RewindTarget::SessionStart(session) => index.session_start(session.as_str()),
    };
    match found {
        None => Err("no matching checkpoint".to_owned()),
        Some(row) => {
            assert(names_row(*index, *target, row));
            if !row.is_restorable() {
                let mut message = "checkpoint #".to_owned();
                push_int(&mut message, row.id);
                message.append(
                    " records a failed capture, not a tree state; pick another from `",
                );
                message.append(NAME);
                message.append(" timeline`");
                return Err(message);
            }
            Ok(row)
        },
    }
}

/// A rewind never restores a failed capture, whichever way it is asked for: a
/// row that a target names is on record, it is headed for exactly if its capture
/// did not fail, and only an id can name one whose capture did.
pub proof fn law_failed_rows_are_no_targets(index: Index, target: RewindTarget, row: CheckpointRow)
    requires
        names_row(index, target, row),
    ensures
        index.rows@.contains(row),
        is_target(index, target, row) <==> row.kind != CheckpointKind::Failed,
        !(target is Checkpoint) ==> row.kind != CheckpointKind::Failed,
{
    let q = match target {
        RewindTarget::Last => ask(Kinds::Targets),
        RewindTarget::SessionStart(session) => ask_session(Kinds::Restorable, session@),
        RewindTarget::Checkpoint(_) => ask(Kinds::Any),
    };
    if !(target is Checkpoint) {
        let i = choose|i: int|
            0 <= i < index.rows@.len() && index.rows@[i] == row && #[trigger] admits(
                q,
                index.rows@[i],
            );
        assert(admits(q, row));
    }
}

/// Whether a row is the newest tree state whose identity begins with a text.
pub open spec fn is_newest_prefixed(rows: Seq<CheckpointRow>, prefix: Seq<char>, row: CheckpointRow) -> bool {
    exists|i: int|
        0 <= i < rows.len() && #[trigger] rows[i] == row && prefixed(row, prefix) && forall|j: int|
            i < j < rows.len() ==> !prefixed(#[trigger] rows[j], prefix)
}

/// Whether a row is the one that an id, or else the beginning of a generation,
/// names.
pub open spec fn is_named(index: Index, id: Option<i64>, hex: Option<String>, row: CheckpointRow) -> bool {
    match (id, hex) {
        (Some(id), _) => row.id == id && index.rows@.contains(row),
        (None, Some(hex)) => is_newest_prefixed(index.rows@, hex@, row),
        (None, None) => false,
    }
}

/// What is said of a name for a row that names none.
pub open spec fn unnamed_text(id: Option<i64>, hex: Option<String>) -> Seq<char> {
    match (id, hex) {
        (Some(id), _) => "no checkpoint #"@ + decimal(id as int),
        (None, Some(hex)) => "no checkpoint has a generation starting "@ + hex@ + "; `"@ + NAME@
            + " timeline` lists row ids"@,
        (None, None) => Seq::empty(),
    }
}

/// Whether no row is named.
pub open spec fn is_unnamed(index: Index, id: Option<i64>, hex: Option<String>) -> bool {
    match (id, hex) {
        (Some(id), _) => forall|i: int|
            0 <= i < index.rows@.len() ==> (#[trigger] index.rows@[i]).id != id,
        (None, Some(hex)) => forall|j: int|
            0 <= j < index.rows@.len() ==> !prefixed(#[trigger] index.rows@[j], hex@),
        (None, None) => false,
    }
}

/// The row that an id, or else the beginning of a generation, names; nothing
/// where neither is given.
fn find_named(index: &Index, id: Option<i64>, hex: &Option<String>) -> (r: Result<
    Option<CheckpointRow>,
    String,
>)
    ensures
        match r {
            Ok(Some(row)) => is_named(*index, id, *hex, row),
            Ok(None) => id is None && hex is None,
            Err(message) => is_unnamed(*index, id, *hex) && message@ == unnamed_text(id, *hex),
        },
{
    match (id, hex) {
        (Some(id), _) => match index.by_id(id) {
            Some(row) => Ok(Some(row)),
            None => {
                let mut message = "no checkpoint #".to_owned();
                push_int(&mut message, id);
                Err(message)
            },
        },
        (None, Some(hex)) => match index.by_generation_prefix(hex.as_str()) {
            Some(row) => Ok(Some(row)),
            None => {
                let mut message = "no checkpoint has a generation starting ".to_owned();
                message.append(hex.as_str());
                message.append("; `");
                message.append(NAME);
                message.append(" timeline` lists row ids");
                Err(message)
            },
        },
        (None, None) => Ok(None),
    }
}

/// Whether the session that started last has a checkpoint.
pub open spec fn last_session_has_start(index: Index) -> bool {
    index.sessions@.len() > 0 && !answers_nothing(
        index.rows@,
        ask_session(Kinds::Restorable, index.sessions@.last().session_id@),
    )
}

/// Whether a row is where a diff begins unless told otherwise: the first
/// checkpoint of the session that started last, or the first on record.
pub open spec fn is_default_base(index: Index, row: CheckpointRow) -> bool {
    if last_session_has_start(index) {
        is_oldest(
            index.rows@,
            ask_session(Kinds::Restorable, index.sessions@.last().session_id@),
            row,
        )
    } else {
        is_oldest(index.rows@, ask(Kinds::Restorable), row)
    }
}

/// Where a diff begins unless told otherwise.
pub fn default_diff_base(index: &Index) -> (r: Result<CheckpointRow, String>)
    ensures
        match r {
            Ok(row) => is_default_base(*index, row),
            Err(message) => !last_session_has_start(*index) && answers_nothing(
                index.rows@,
                ask(Kinds::Restorable),
            ) && message@ == "no checkpoints yet"@,
        },
{
    if let Some(session) = index.latest_session() {
        if let Some(row) = index.session_start(session.session_id.as_str()) {
            proof {
                let q = ask_session(Kinds::Restorable, session.session_id@);
                let i = choose|i: int|
                    0 <= i < index.rows@.len() && index.rows@[i] == row && #[trigger] admits(
                        q,
                        index.rows@[i],
                    );
                assert(admits(q, index.rows@[i]));
            }
            return Ok(row);
        }
    }
    match index.oldest() {
        Some(row) => Ok(row),
        None => Err("no checkpoints yet".to_owned()),
    }
}

/// Whether a row is where a diff that was asked for begins.
pub open spec fn is_diff_base(index: Index, id: Option<i64>, hex: Option<String>, row: CheckpointRow) -> bool {
    if id is None && hex is None {
        is_default_base(index, row)
    } else {
        is_named(index, id, hex, row)
    }
}

/// Whether a row is where a diff that was asked for ends: the latest tree
/// state unless told otherwise.
pub open spec fn is_diff_end(index: Index, id: Option<i64>, hex: Option<String>, row: CheckpointRow) -> bool {
    if id is None && hex is None {
        is_newest(index.rows@, ask(Kinds::Restorable), row)
    } else {
        is_named(index, id, hex, row)
    }
}

/// Whether a message says why a diff has no beginning.
pub open spec fn no_diff_base(index: Index, id: Option<i64>, hex: Option<String>, message: Seq<char>) -> bool {
    if id is None && hex is None {
        answers_nothing(index.rows@, ask(Kinds::Restorable)) && message == "no checkpoints yet"@
    } else {
        is_unnamed(index, id, hex) && message == unnamed_text(id, hex)
    }
}

/// Whether a message says why two states cannot be compared.
pub open spec fn no_diff(
    index: Index,
    before: Option<i64>,
    before_hex: Option<String>,
    after: Option<i64>,
    after_hex: Option<String>,
    message: Seq<char>,
) -> bool {
    ||| no_diff_base(index, before, before_hex, message)
    ||| (exists|a: CheckpointRow| #[trigger] is_diff_base(index, before, before_hex, a))
        && no_diff_base(index, after, after_hex, message)
}

/// The two rows that a diff compares.
pub fn diff_rows(
    index: &Index,
    before: Option<i64>,
    before_hex: &Option<String>,
    after: Option<i64>,
    after_hex: &Option<String>,
) -> (r: Result<(CheckpointRow, CheckpointRow), String>)
    ensures
        match r {
            Ok((a, b)) => is_diff_base(*index, before, *before_hex, a) && is_diff_end(
                *index,
                after,
                *after_hex,
                b,
            ),
            Err(message) => no_diff(*index, before, *before_hex, after, *after_hex, message@),
        },
{
    let a = match find_named(index, before, before_hex) {
        Ok(Some(row)) => row,
        Ok(None) => match default_diff_base(index) {
            Ok(row) => row,
            Err(message) => {
                return Err(message);
            },
        },
        Err(message) => {
            return Err(message);
        },
    };
    assert(is_diff_base(*index, before, *before_hex, a));
    let b = match find_named(index, after, after_hex) {
        Ok(Some(row)) => row,
        Ok(None) => match index.latest() {
            Some(row) => row,
            None => {
                return Err("no checkpoints yet".to_owned());
            },
        },
        Err(message) => {
            return Err(message);
        },
    };
    Ok((a, b))
}

/// Where a session is rewound to its start, the row is a tree state of that
/// session, and every other tree state of the session on record came later.
pub proof fn law_session_start_is_the_first_of_its_session(
    index: Index,
    session: String,
    row: CheckpointRow,
    other: CheckpointRow,
)
    requires
        index.wf(),
        is_target(index, RewindTarget::SessionStart(session), row),
        index.rows@.contains(other),
        other.session_id matches Some(s) && s@ == session@,
        other.kind != CheckpointKind::Failed,
        other.id != row.id,
    ensures
        index.rows@.contains(row),
        row.session_id matches Some(s) && s@ == session@,
        row.kind != CheckpointKind::Failed,
        row.id < other.id,
{
    let q = ask_session(Kinds::Restorable, session@);
    let i = choose|i: int|
        0 <= i < index.rows@.len() && index.rows@[i] == row && #[trigger] admits(q, index.rows@[i])
            && forall|j: int| 0 <= j < i ==> !admits(q, #[trigger] index.rows@[j]);
    let j = choose|j: int| 0 <= j < index.rows@.len() && index.rows@[j] == other;
    assert(admits(q, index.rows@[i]));
    assert(admits(q, index.rows@[j]));
}

/// The last checkpoint is the newest real snapshot: it was taken by a baseline,
/// around a tool call or by hand, and no such row on record is newer.
pub proof fn law_last_is_the_newest_snapshot(index: Index, row: CheckpointRow, other: CheckpointRow)
    requires
        index.wf(),
        is_target(index, RewindTarget::Last, row),
        index.rows@.contains(other),
        other.kind == CheckpointKind::Baseline || other.kind == CheckpointKind::Pre || other.kind
            == CheckpointKind::Post || other.kind == CheckpointKind::Manual,
    ensures
        index.rows@.contains(row),
        row.kind == CheckpointKind::Baseline || row.kind == CheckpointKind::Pre || row.kind
            == CheckpointKind::Post || row.kind == CheckpointKind::Manual,
        other.id <= row.id,
{
    let q = ask(Kinds::Targets);
    let i = choose|i: int|
        0 <= i < index.rows@.len() && index.rows@[i] == row && #[trigger] admits(q, index.rows@[i])
            && forall|j: int| i < j < index.rows@.len() ==> !admits(q, #[trigger] index.rows@[j]);
    let j = choose|j: int| 0 <= j < index.rows@.len() && index.rows@[j] == other;
    assert(admits(q, index.rows@[i]));
    assert(admits(q, index.rows@[j]));
}

/// A rewind to an id is headed for the row of that id and for no other.
pub proof fn law_rewind_to_an_id_means_its_row(
    index: Index,
    id: i64,
    row: CheckpointRow,
    other: CheckpointRow,
)
    requires
        index.wf(),
        is_target(index, RewindTarget::Checkpoint(id), row),
        index.rows@.contains(other),
        other.id == id,
    ensures
        row == other,
        row.kind != CheckpointKind::Failed,
{
    let i = choose|i: int| 0 <= i < index.rows@.len() && index.rows@[i] == row;
    let j = choose|j: int| 0 <= j < index.rows@.len() && index.rows@[j] == other;
    assert(index.rows@[i].id == index.rows@[j].id);
}

/// A rewind is not refused where there is something to rewind to: a tree state
/// of the id, a snapshot for the last checkpoint, or a tree state of the
/// session for its start.
pub proof fn law_rewind_is_refused_only_without_a_row(
    index: Index,
    target: RewindTarget,
    row: CheckpointRow,
    message: Seq<char>,
)
    requires
        index.wf(),
        index.rows@.contains(row),
        row.kind != CheckpointKind::Failed,
        match target {
            RewindTarget::Checkpoint(id) => row.id == id,
            RewindTarget::Last => row.kind == CheckpointKind::Baseline || row.kind
                == CheckpointKind::Pre || row.kind == CheckpointKind::Post || row.kind
                == CheckpointKind::Manual,
            RewindTarget::SessionStart(session) => row.session_id matches Some(s) && s@
                == session@,
        },
    ensures
        !no_target(index, target, message),
{
    let j = choose|j: int| 0 <= j < index.rows@.len() && index.rows@[j] == row;
    assert(index.rows@[j].id == row.id);
    let q = match target {
        RewindTarget::Last => ask(Kinds::Targets),
        RewindTarget::SessionStart(session) => ask_session(Kinds::Restorable, session@),
        RewindTarget::Checkpoint(_) => ask(Kinds::Any),
    };
    assert(admits(q, index.rows@[j]));
    if no_target(index, target, message) {
        assert(!names_nothing(index, target));
        let named = choose|named: CheckpointRow| #[trigger]
            names_row(index, target, named) && named.kind == CheckpointKind::Failed;
        law_failed_rows_are_no_targets(index, target, named);
        let k = choose|k: int| 0 <= k < index.rows@.len() && index.rows@[k] == named;
        assert(index.rows@[k].id == named.id);
    }
}

/// A diff between two ids begins at the row of the first and ends at the row of
/// the second.
pub proof fn law_diff_of_two_ids_keeps_their_order(
    index: Index,
    before: i64,
    after: i64,
    hexes: (Option<String>, Option<String>),
    rows: (CheckpointRow, CheckpointRow),
)
    requires
        is_diff_base(index, Some(before), hexes.0, rows.0),
        is_diff_end(index, Some(after), hexes.1, rows.1),
    ensures
        index.rows@.contains(rows.0),
        index.rows@.contains(rows.1),
        rows.0.id == before,
        rows.1.id == after,
{
}

/// A diff that names a generation by its first digits means the newest tree
/// state whose generation begins with them.
pub proof fn law_diff_by_digits_means_the_newest_match(
    index: Index,
    digits: String,
    ends: (CheckpointRow, CheckpointRow),
    other: CheckpointRow,
)
    requires
        index.wf(),
        is_diff_base(index, None, Some(digits), ends.0),
        is_diff_end(index, None, Some(digits), ends.1),
        index.rows@.contains(other),
        other.kind != CheckpointKind::Failed,
        digits@.len() <= hex_of(other.generation@).len(),
        hex_of(other.generation@).take(digits@.len() as int) == digits@,
    ensures
        ends.0 == ends.1,
        index.rows@.contains(ends.0),
        ends.0.kind != CheckpointKind::Failed,
        hex_of(ends.0.generation@).take(digits@.len() as int) == digits@,
        other.id <= ends.0.id,
{
    let rows = index.rows@;
    let j = choose|j: int| 0 <= j < rows.len() && rows[j] == other;
    assert(prefixed(rows[j], digits@));
    let a = choose|i: int|
        0 <= i < rows.len() && #[trigger] rows[i] == ends.0 && prefixed(ends.0, digits@) && forall|
            k: int,
        | i < k < rows.len() ==> !prefixed(#[trigger] rows[k], digits@);
    let b = choose|i: int|
        0 <= i < rows.len() && #[trigger] rows[i] == ends.1 && prefixed(ends.1, digits@) && forall|
            k: int,
        | i < k < rows.len() ==> !prefixed(#[trigger] rows[k], digits@);
    assert(prefixed(rows[a], digits@));
    assert(prefixed(rows[b], digits@));
    assert(hex_of(ends.0.generation@).take(digits@.len() as int) =~= digits@);
}

/// A diff that is told no end compares with the newest tree state.
pub proof fn law_diff_ends_at_the_newest_state(index: Index, row: CheckpointRow, other: CheckpointRow)
    requires
        index.wf(),
        is_diff_end(index, None, None, row),
        index.rows@.contains(other),
        other.kind != CheckpointKind::Failed,
    ensures
        index.rows@.contains(row),
        row.kind != CheckpointKind::Failed,
        other.id <= row.id,
{
    let q = ask(Kinds::Restorable);
    let i = choose|i: int|
        0 <= i < index.rows@.len() && index.rows@[i] == row && #[trigger] admits(q, index.rows@[i])
            && forall|j: int| i < j < index.rows@.len() ==> !admits(q, #[trigger] index.rows@[j]);
    let j = choose|j: int| 0 <= j < index.rows@.len() && index.rows@[j] == other;
    assert(admits(q, index.rows@[i]));
    assert(admits(q, index.rows@[j]));
}

/// A diff that is told no beginning starts at the first tree state of the
/// session that started last, or, where that session has none, at the first on
/// record.
pub proof fn law_diff_begins_where_the_last_session_did(
    index: Index,
    row: CheckpointRow,
    other: CheckpointRow,
)
    requires
        index.wf(),
        is_diff_base(index, None, None, row),
        index.rows@.contains(other),
        other.kind != CheckpointKind::Failed,
    ensures
        index.rows@.contains(row),
        row.kind != CheckpointKind::Failed,
        index.sessions@.len() > 0 && (other.session_id matches Some(s) && s@
            == index.sessions@.last().session_id@) ==> row.id <= other.id && (row.session_id
            matches Some(s) && s@ == index.sessions@.last().session_id@),
        (index.sessions@.len() == 0 || !(row.session_id matches Some(s) && s@
            == index.sessions@.last().session_id@)) ==> row.id <= other.id,
{
    let rows = index.rows@;
    let j = choose|j: int| 0 <= j < rows.len() && rows[j] == other;
    let latest = ask_session(Kinds::Restorable, index.sessions@.last().session_id@);
    let q = if last_session_has_start(index) { latest } else { ask(Kinds::Restorable) };
    let i = choose|i: int|
        0 <= i < rows.len() && rows[i] == row && #[trigger] admits(q, rows[i]) && forall|k: int|
            0 <= k < i ==> !admits(q, #[trigger] rows[k]);
    assert(admits(q, rows[i]));
    assert(admits(ask(Kinds::Restorable), rows[j]));
    if index.sessions@.len() > 0 && (other.session_id matches Some(s) && s@
        == index.sessions@.last().session_id@) {
        assert(admits(latest, rows[j]));
    }
}

/// The name of a change on the wire.
pub open spec fn change_text(change: ChangeKind) -> Seq<char> {
    match change {
        ChangeKind::Added => "added"@,
        ChangeKind::Removed => "removed"@,
        ChangeKind::Modified => "modified"@,
        ChangeKind::MetadataOnly => "metadata"@,
    }
}

/// Whether an entry is what is told of a change.
pub open spec fn is_diff_entry(c: FileChange, ignored: bool, e: DiffEntry) -> bool {
    &&& e.path@ == lossy_text(path_of(c.path()))
    &&& e.change@ == change_text(c.change)
    &&& e.file_kind@ == file_kind_text(c.file_kind)
    &&& e.ignored == ignored
}

/// What is told of a change.
pub fn diff_entry(c: &FileChange, ignored: bool) -> (e: DiffEntry)
    ensures
        is_diff_entry(*c, ignored, e),
{
    let change = match c.change {
        ChangeKind::Added => "added",
        ChangeKind::Removed => "removed",
        ChangeKind::Modified => "modified",
        ChangeKind::MetadataOnly => "metadata",
    };
    DiffEntry {
        path: c.host_path().display(),
        change: change.to_owned(),
        file_kind: c.file_kind.as_str().to_owned(),
        ignored,
    }
}

/// What is told of changes, with those marked that the repository ignores.
pub fn annotate_ignored(changes: &Vec<FileChange>, ignored: &Vec<HostPath>) -> (r: Vec<DiffEntry>)
    ensures
        r@.len() == changes@.len(),
        forall|i: int|
            0 <= i < r@.len() ==> is_diff_entry(
                changes@[i],
                among(ignored@, path_of(changes@[i].path())),
                #[trigger] r@[i],
            ),
{
    let mut out: Vec<DiffEntry> = Vec::new();
    let mut i: usize = 0;
    while i < changes.len()
        invariant
            i <= changes@.len(),
            out@.len() == i,
            forall|j: int|
                0 <= j < i ==> is_diff_entry(
                    changes@[j],
                    among(ignored@, path_of(changes@[j].path())),
                    #[trigger] out@[j],
                ),
        decreases changes.len() - i,
    {
        let path = changes[i].host_path();
        let marked = is_among(ignored, &path);
        out.push(diff_entry(&changes[i], marked));
        i += 1;
    }
    out
}

} // verus!
