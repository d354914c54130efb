//! The brief of the previous session: where it ended, what it changed, and
//! every branch that it abandoned by rewinding. Counts come from diffs of the
//! store, so they are exact rather than remembered.
use vstd::prelude::*;
use vstd::utf8::encode_utf8;
use crate::diff::{content_changes, content_of, FileChange};
use crate::digest::GenerationId;
use crate::history::{find_prompt, lemma_answers_len, prompt_of, session_entry};
use crate::index::{
    admits, answers, answers_nothing, ask, ask_between, ask_rewinds, ask_session, is_newest,
    is_oldest, Asked, CheckpointRow, Index, Kinds, Query, SessionRow,
};
use crate::path::{lossy_text, path_of};
use crate::proto::{BriefAbandoned, BriefInfo, BriefSession};
use crate::text::{
    chars_of, decimal, decimal_nat, fit, fitting, join_texts, joined_texts, lemma_fitting, opt_str,
    push_int, push_nat, text_eq, texts,
};

verus! {

/// Two generations to be compared, where they differ.
pub type Comparison = Option<(GenerationId, GenerationId)>;

/// The comparison of two states of the tree: none where they are the same one
/// or one of them is not there.
pub open spec fn comparison(before: Option<CheckpointRow>, after: Option<CheckpointRow>) -> Comparison {
    match (before, after) {
        (Some(a), Some(b)) => if a.generation != b.generation {
            Some((a.generation, b.generation))
        } else {
            None
        },
        _ => None,
    }
}

fn compare_rows(before: &Option<CheckpointRow>, after: &Option<CheckpointRow>) -> (r: Comparison)
    ensures
        r == comparison(*before, *after),
{
    match (before, after) {
        (Some(a), Some(b)) => if !a.generation.same(&b.generation) {
            Some((a.generation, b.generation))
        } else {
            None
        },
        _ => None,
    }
}

/// Whether a row is the first, or the last, that answers a query, or there is
/// none and no row answers.
pub open spec fn is_first(rows: Seq<CheckpointRow>, q: Asked, row: Option<CheckpointRow>) -> bool {
    match row {
        Some(row) => is_oldest(rows, q, row),
        None => answers_nothing(rows, q),
    }
}

pub open spec fn is_last(rows: Seq<CheckpointRow>, q: Asked, row: Option<CheckpointRow>) -> bool {
    match row {
        Some(row) => is_newest(rows, q, row),
        None => answers_nothing(rows, q),
    }
}

/// Whether a row is the one of an id, or there is none.
pub open spec fn is_row_of(rows: Seq<CheckpointRow>, id: i64, row: Option<CheckpointRow>) -> bool {
    match row {
        Some(row) => row.id == id && rows.contains(row),
        None => forall|i: int| 0 <= i < rows.len() ==> (#[trigger] rows[i]).id != id,
    }
}

/// Whether a session has checkpoints and is not the one that asks.
pub open spec fn briefable(index: Index, current: Option<Seq<char>>, s: SessionRow) -> bool {
    &&& current != Some(s.session_id@)
    &&& !answers_nothing(index.rows@, ask_session(Kinds::Any, s.session_id@))
}

/// Whether a session is the newest one to brief about.
pub open spec fn is_previous(index: Index, current: Option<Seq<char>>, s: SessionRow) -> bool {
    exists|i: int|
        0 <= i < index.sessions@.len() && #[trigger] index.sessions@[i] == s && briefable(
            index,
            current,
            s,
        ) && forall|j: int|
            i < j < index.sessions@.len() ==> !briefable(
                index,
                current,
                #[trigger] index.sessions@[j],
            )
}

/// The newest session with checkpoints that is not the one that asks.
pub fn last_session_with_checkpoints(index: &Index, current: Option<&str>) -> (r: Option<SessionRow>)
    ensures
        match r {
            Some(s) => is_previous(*index, opt_str(current), s),
            None => forall|j: int|
                0 <= j < index.sessions@.len() ==> !briefable(
                    *index,
                    opt_str(current),
                    #[trigger] index.sessions@[j],
                ),
        },
{
    let mut n: usize = index.sessions.len();
    while n > 0
        invariant
            n <= index.sessions@.len(),
            forall|j: int|
                n <= j < index.sessions@.len() ==> !briefable(
                    *index,
                    opt_str(current),
                    #[trigger] index.sessions@[j],
                ),
        decreases n,
    {
        let session = &index.sessions[n - 1];
        let asking = match current {
            Some(c) => text_eq(session.session_id.as_str(), c),
            None => false,
        };
        let q = Query {
            kinds: Kinds::Any,
            session: Some(session.session_id.as_str()),
            turn: None,
            from: None,
            below: None,
        };
        let found = index.first(&q);
        proof {
            if found is Some {
                let i = choose|i: int|
                    0 <= i < index.rows@.len() && index.rows@[i] == found->0 && #[trigger] admits(
                        q@,
                        index.rows@[i],
                    );
                assert(admits(q@, index.rows@[i]));
            }
        }
        if !asking && found.is_some() {
            assert(briefable(*index, opt_str(current), index.sessions@[n - 1]));
            return Some(session.clone());
        }
        assert(!briefable(*index, opt_str(current), index.sessions@[n - 1]));
        n -= 1;
    }
    None
}

/// The rows that a rewind left behind: the tree states after its target and
/// before its safety row.
pub open spec fn branch(index: Index, rewind: CheckpointRow) -> Seq<CheckpointRow> {
    answers(index.rows@, ask_between(rewind.rewind_target->0 as int, rewind.id as int))
}

/// Whether a rewind left a branch behind.
pub open spec fn left_branch(index: Index, rewind: CheckpointRow) -> bool {
    rewind.rewind_target is Some && branch(index, rewind).len() > 0
}

/// The turn of a branch: that of its last row, or else of its first.
pub open spec fn branch_turn(rows: Seq<CheckpointRow>) -> Option<i64> {
    if rows.last().turn is Some { rows.last().turn } else { rows[0].turn }
}

/// Whether an entry is what is told of an abandoned branch, and a comparison
/// the one that counts its files.
pub open spec fn is_abandoned(
    index: Index,
    rewind: CheckpointRow,
    e: BriefAbandoned,
    diff: Comparison,
) -> bool {
    let rows = branch(index, rewind);
    &&& e.from_checkpoint == rows[0].id
    &&& e.to_checkpoint == rows.last().id
    &&& e.rewound_to == rewind.rewind_target->0
    &&& e.turn == branch_turn(rows)
    &&& prompt_of(index, rows.last().session_id, e.turn, e.prompt)
    &&& e.checkpoints == rows.len()
    &&& e.files_changed == 0
    &&& exists|target: Option<CheckpointRow>| #[trigger]
        is_row_of(index.rows@, rewind.rewind_target->0, target) && diff == comparison(
            target,
            Some(rows.last()),
        )
}

/// What is told of an abandoned branch.
fn abandoned_entry(index: &Index, rewind: &CheckpointRow) -> (r: Option<
    (BriefAbandoned, Comparison),
>)
    requires
        index.rows@.len() <= i64::MAX,
    ensures
        match r {
            Some((e, diff)) => left_branch(*index, *rewind) && is_abandoned(
                *index,
                *rewind,
                e,
                diff,
            ),
            None => !left_branch(*index, *rewind),
        },
{
    let target: i64 = match rewind.rewind_target {
        Some(target) => target,
        None => {
            return None;
        },
    };
    let rows = index.between(target, rewind.id);
    if rows.len() == 0 {
        return None;
    }
    proof {
        lemma_answers_len(
            index.rows@,
            ask_between(target as int, rewind.id as int),
        );
    }
    let first = &rows[0];
    let last = &rows[rows.len() - 1];
    let turn = match last.turn {
        Some(turn) => Some(turn),
        None => first.turn,
    };
    let prompt = find_prompt(index, &last.session_id, turn);
    let target_row = index.by_id(target);
    let diff = compare_rows(&target_row, &Some(last.clone()));
    assert(is_row_of(index.rows@, target, target_row));
    Some(
        (
            BriefAbandoned {
                from_checkpoint: first.id,
                to_checkpoint: last.id,
                rewound_to: target,
                turn,
                prompt,
                checkpoints: rows.len() as i64,
                files_changed: 0,
            },
            diff,
        ),
    )
}

/// The rewinds that left a branch behind.
pub open spec fn abandoning(index: Index, rewinds: Seq<CheckpointRow>) -> Seq<CheckpointRow> {
    rewinds.filter(|r: CheckpointRow| left_branch(index, r))
}

/// Whether entries and comparisons are those of the branches that rewinds left
/// behind, one each, in order.
pub open spec fn are_abandoned(
    index: Index,
    rewinds: Seq<CheckpointRow>,
    entries: Seq<BriefAbandoned>,
    diffs: Seq<Comparison>,
) -> bool {
    &&& entries.len() == abandoning(index, rewinds).len()
    &&& diffs.len() == entries.len()
    &&& forall|i: int|
        0 <= i < entries.len() ==> is_abandoned(
            index,
            abandoning(index, rewinds)[i],
            #[trigger] entries[i],
            diffs[i],
        )
}

fn abandoned_entries(index: &Index, rewinds: &Vec<CheckpointRow>) -> (r: (
    Vec<BriefAbandoned>,
    Vec<Comparison>,
))
    requires
        index.rows@.len() <= i64::MAX,
    ensures
        are_abandoned(*index, rewinds@, r.0@, r.1@),
{
    let mut entries: Vec<BriefAbandoned> = Vec::new();
    let mut diffs: Vec<Comparison> = Vec::new();
    let mut i: usize = 0;
    proof {
        reveal(Seq::filter);
        assert(abandoning(*index, rewinds@.take(0)) =~= Seq::<CheckpointRow>::empty());
    }
    while i < rewinds.len()
        invariant
            i <= rewinds@.len(),
            index.rows@.len() <= i64::MAX,
            are_abandoned(*index, rewinds@.take(i as int), entries@, diffs@),
        decreases rewinds.len() - i,
    {
        let ghost before = abandoning(*index, rewinds@.take(i as int));
        proof {
            reveal(Seq::filter);
            assert(rewinds@.take(i + 1).drop_last() =~= rewinds@.take(i as int));
            assert(rewinds@.take(i + 1).last() == rewinds@[i as int]);
        }
        match abandoned_entry(index, &rewinds[i]) {
            Some((entry, diff)) => {
                entries.push(entry);
                diffs.push(diff);
                assert(abandoning(*index, rewinds@.take(i + 1)) == before.push(
                    rewinds@[i as int],
                ));
            },
            None => {
                assert(abandoning(*index, rewinds@.take(i + 1)) == before);
            },
        }
        i += 1;
    }
    assert(rewinds@.take(i as int) =~= rewinds@);
    (entries, diffs)
}

/// A brief before its diffs have been made, with the diffs that it wants.
#[derive(Debug)]
pub struct BriefPlan {
    pub session: Option<BriefSession>,
    /// What the session changed from beginning to end.
    pub session_diff: Comparison,
    /// What each abandoned branch had changed.
    pub branch_diffs: Vec<Comparison>,
    /// What has moved since the session ended.
    pub drift_diff: Comparison,
}

/// Whether the rewinds of a session are given: the safety rows between its
/// first checkpoint and its last row; none where it has no first checkpoint.
pub open spec fn session_rewinds(
    index: Index,
    start: Option<CheckpointRow>,
    last: Option<CheckpointRow>,
) -> Seq<CheckpointRow> {
    match (start, last) {
        (Some(start), Some(last)) => answers(
            index.rows@,
            ask_rewinds(start.id as int, last.id as int),
        ),
        _ => Seq::empty(),
    }
}

/// Whether a plan briefs about a session.
pub open spec fn is_plan(index: Index, s: SessionRow, plan: BriefPlan) -> bool {
    exists|start: Option<CheckpointRow>, end: Option<CheckpointRow>, last: Option<CheckpointRow>,
        latest: Option<CheckpointRow>|
        #![trigger is_first(index.rows@, ask_session(Kinds::Restorable, s.session_id@), start), is_last(index.rows@, ask_session(Kinds::Restorable, s.session_id@), end), is_last(index.rows@, ask_session(Kinds::Any, s.session_id@), last), is_last(index.rows@, ask(Kinds::Targets), latest)]
        {
            &&& is_first(index.rows@, ask_session(Kinds::Restorable, s.session_id@), start)
            &&& is_last(index.rows@, ask_session(Kinds::Restorable, s.session_id@), end)
            &&& is_last(index.rows@, ask_session(Kinds::Any, s.session_id@), last)
            &&& is_last(index.rows@, ask(Kinds::Targets), latest)
            &&& plan.session_diff == comparison(start, end)
            &&& plan.drift_diff == comparison(end, latest)
            &&& plan.session matches Some(info) && is_session_brief(index, s, end, info)
                && are_abandoned(
                index,
                session_rewinds(index, start, last),
                info.abandoned@,
                plan.branch_diffs@,
            )
        }
}

/// Whether what is told of a session is right, but for the diffs.
pub open spec fn is_session_brief(
    index: Index,
    s: SessionRow,
    end: Option<CheckpointRow>,
    info: BriefSession,
) -> bool {
    &&& info.session_id == s.session_id
    &&& info.host == s.host
    &&& info.started_at == s.started_at
    &&& info.ended_at == s.ended_at
    &&& info.turns == crate::history::turns_of(index, Some(s.session_id@)).len()
    &&& info.checkpoints == answers(index.rows@, ask_session(Kinds::Any, s.session_id@)).len()
    &&& info.end_checkpoint == crate::history::id_of(end)
    &&& info.end_turn == match end {
        Some(row) => row.turn,
        None => None,
    }
    &&& prompt_of(index, Some(s.session_id), info.end_turn, info.end_prompt)
    &&& info.files_changed == 0
    &&& info.sample_paths@.len() == 0
}

/// Whether a plan is the one for a session that asks.
pub open spec fn plans(index: Index, current: Option<Seq<char>>, plan: BriefPlan) -> bool {
    match plan.session {
        None => {
            &&& forall|j: int|
                0 <= j < index.sessions@.len() ==> !briefable(
                    index,
                    current,
                    #[trigger] index.sessions@[j],
                )
            &&& plan.session_diff is None
            &&& plan.branch_diffs@.len() == 0
            &&& plan.drift_diff is None
        },
        Some(info) => exists|s: SessionRow| #[trigger]
            is_previous(index, current, s) && is_plan(index, s, plan),
    }
}

/// What the brief for a session that asks will say, and the diffs it wants.
pub fn plan_brief(index: &Index, current: Option<&str>) -> (plan: BriefPlan)
    requires
        index.rows@.len() <= i64::MAX,
        index.turns@.len() <= i64::MAX,
    ensures
        plans(*index, opt_str(current), plan),
{
    let session = match last_session_with_checkpoints(index, current) {
        Some(session) => session,
        None => {
            return BriefPlan {
                session: None,
                session_diff: None,
                branch_diffs: Vec::new(),
                drift_diff: None,
            };
        },
    };
    let start = index.session_start(session.session_id.as_str());
    let end = index.session_end(session.session_id.as_str());
    let last = index.newest(
        &Query {
            kinds: Kinds::Any,
            session: Some(session.session_id.as_str()),
            turn: None,
            from: None,
            below: None,
        },
    );
    let latest = index.latest_target();
    let rewinds = match (&start, &last) {
        (Some(a), Some(b)) => index.rewinds_between(a.id, b.id),
        _ => Vec::new(),
    };
    assert(rewinds@ =~= session_rewinds(*index, start, last));
    let (abandoned, branch_diffs) = abandoned_entries(index, &rewinds);
    let session_diff = compare_rows(&start, &end);
    let drift_diff = compare_rows(&end, &latest);
    let told = session_entry(index, &session);
    let end_turn = match &end {
        Some(row) => row.turn,
        None => None,
    };
    let end_checkpoint = match &end {
        Some(row) => Some(row.id),
        None => None,
    };
    let end_prompt = find_prompt(index, &Some(session.session_id.clone()), end_turn);
    let info = BriefSession {
        session_id: told.session_id,
        host: told.host,
        started_at: told.started_at,
        ended_at: told.ended_at,
        turns: told.turns,
        checkpoints: told.checkpoints,
        end_checkpoint,
        end_turn,
        end_prompt,
        files_changed: 0,
        sample_paths: Vec::new(),
        abandoned,
    };
    let plan = BriefPlan { session: Some(info), session_diff, branch_diffs, drift_diff };
    proof {
        let restorable = ask_session(Kinds::Restorable, session.session_id@);
        assert(is_first(index.rows@, restorable, start));
        assert(is_last(index.rows@, restorable, end));
        assert(is_last(index.rows@, ask_session(Kinds::Any, session.session_id@), last));
        assert(is_last(index.rows@, ask(Kinds::Targets), latest));
        assert(is_session_brief(*index, session, end, info));
        assert(is_plan(*index, session, plan));
        assert(is_previous(*index, opt_str(current), session));
    }
    plan
}

/// How many changed paths a brief names.
pub const SAMPLE_PATHS: usize = 5;

/// Whether paths are those of the first changes, as many as a brief names.
pub open spec fn are_samples(changes: Seq<FileChange>, sample: Seq<String>) -> bool {
    &&& sample.len() == if changes.len() < SAMPLE_PATHS { changes.len() } else {
        SAMPLE_PATHS as nat
    }
    &&& forall|i: int|
        0 <= i < sample.len() ==> (#[trigger] sample[i])@ == lossy_text(path_of(changes[i].path()))
}

fn sample_paths(changes: &Vec<FileChange>) -> (r: Vec<String>)
    ensures
        are_samples(changes@, r@),
{
    let mut out: Vec<String> = Vec::new();
    while out.len() < changes.len() && out.len() < SAMPLE_PATHS
        invariant
            out@.len() <= changes@.len(),
            out@.len() <= SAMPLE_PATHS,
            forall|i: int|
                0 <= i < out@.len() ==> (#[trigger] out@[i])@ == lossy_text(
                    path_of(changes@[i].path()),
                ),
        decreases SAMPLE_PATHS - out.len(),
    {
        let path = changes[out.len()].host_path().display();
        out.push(path);
    }
    out
}

/// Whether an abandoned branch tells what it did before, and the files that
/// the branch had changed.
pub open spec fn counts_branch(
    before: BriefAbandoned,
    changes: Seq<FileChange>,
    after: BriefAbandoned,
) -> bool {
    after == (BriefAbandoned { files_changed: content_of(changes).len() as u64, ..before })
}

/// Whether a brief is what a plan becomes when its diffs have been made.
pub open spec fn is_brief(
    plan: BriefPlan,
    session: Seq<FileChange>,
    branches: Seq<Vec<FileChange>>,
    drift: Seq<FileChange>,
    info: BriefInfo,
) -> bool {
    &&& info.drift_files == content_of(drift).len()
    &&& match (plan.session, info.session) {
        (None, None) => true,
        (Some(before), Some(after)) => {
            &&& after == (BriefSession {
                files_changed: content_of(session).len() as u64,
                sample_paths: after.sample_paths,
                abandoned: after.abandoned,
                ..before
            })
            &&& are_samples(content_of(session), after.sample_paths@)
            &&& after.abandoned@.len() == before.abandoned@.len()
            &&& forall|i: int|
                0 <= i < after.abandoned@.len() ==> counts_branch(
                    before.abandoned@[i],
                    branches[i]@,
                    #[trigger] after.abandoned@[i],
                )
        },
        _ => false,
    }
}

/// The brief, once its diffs have been made. A diff that the plan does not
/// want is empty.
pub fn finish_brief(
    plan: BriefPlan,
    session: Vec<FileChange>,
    branches: Vec<Vec<FileChange>>,
    drift: Vec<FileChange>,
) -> (info: BriefInfo)
    requires
        plan.session matches Some(s) ==> s.abandoned@.len() == branches@.len(),
    ensures
        is_brief(plan, session@, branches@, drift@, info),
{
    let drift_files = content_changes(drift).len() as u64;
    let ghost before = plan;
    let told = match plan.session {
        None => None,
        Some(told) => {
            let mut told = told;
            let ghost first = told;
            let ghost all = branches@;
            let content = content_changes(session);
            told.files_changed = content.len() as u64;
            told.sample_paths = sample_paths(&content);
            let mut entries = told.abandoned;
            let mut branches = branches;
            let mut out: Vec<BriefAbandoned> = Vec::new();
            while entries.len() > 0
                invariant
                    all.len() == first.abandoned@.len(),
                    entries@ == first.abandoned@.take(entries@.len() as int),
                    branches@ == all.take(entries@.len() as int),
                    entries@.len() + out@.len() == all.len(),
                    forall|i: int|
                        0 <= i < out@.len() ==> counts_branch(
                            first.abandoned@[all.len() - 1 - i],
                            all[all.len() - 1 - i]@,
                            #[trigger] out@[i],
                        ),
                decreases entries.len(),
            {
                let ghost n = entries@.len();
                match (entries.pop(), branches.pop()) {
                    (Some(entry), Some(changes)) => {
                        let mut entry = entry;
                        entry.files_changed = content_changes(changes).len() as u64;
                        out.push(entry);
                        assert(entries@ =~= first.abandoned@.take(n - 1));
                        assert(branches@ =~= all.take(n - 1));
                    },
                    _ => {
                        assert(false);
                    },
                }
            }
            told.abandoned = crate::vecs::reversed(out);
            Some(told)
        },
    };
    BriefInfo { session: told, drift_files }
}

/// A character of a quotation: a line break becomes a space.
pub open spec fn quoted_char(c: char) -> char {
    if c == '\n' || c == '\r' { ' ' } else { c }
}

/// A text on one line in quotation marks, cut after so many characters.
pub open spec fn quoted(text: Seq<char>, max: nat) -> Seq<char> {
    let shown = if text.len() <= max { text } else { text.take(max as int) };
    "\""@ + shown.map_values(|c: char| quoted_char(c)) + if text.len() <= max { "\""@ } else {
        "...\""@
    }
}

/// A text on one line in quotation marks, cut after so many characters.
pub fn quote(text: &str, max: usize) -> (r: String)
    ensures
        r@ == quoted(text@, max as nat),
{
    let chars = chars_of(text);
    let mut out = "\"".to_owned();
    let mut i: usize = 0;
    let ghost f = |c: char| quoted_char(c);
    while i < chars.len() && i < max
        invariant
            i <= chars@.len(),
            i <= max,
            f == (|c: char| quoted_char(c)),
            out@ == "\""@ + chars@.take(i as int).map_values(f),
        decreases chars.len() - i,
    {
        let c = if chars[i] == '\n' || chars[i] == '\r' { ' ' } else { chars[i] };
        out.push(c);
        i += 1;
        assert(chars@.take(i as int).map_values(f) =~= chars@.take(i - 1).map_values(f).push(c));
    }
    if chars.len() <= max {
        assert(chars@.take(i as int) =~= text@);
        out.append("\"");
    } else {
        out.append("...\"");
    }
    assert(out@ =~= quoted(text@, max as nat));
    out
}

/// The most bytes that a rendered brief takes.
pub const BRIEF_BYTES: usize = 1000;

/// How many characters of a prompt a brief quotes.
pub const BRIEF_QUOTE: usize = 80;

/// A turn in words, with its prompt; nothing where there is none.
pub open spec fn turn_words(turn: Option<i64>, prompt: Option<String>) -> Seq<char> {
    match turn {
        None => Seq::empty(),
        Some(t) => " (turn "@ + decimal(t as int) + match prompt {
            Some(p) => ": "@ + quoted(p@, BRIEF_QUOTE as nat),
            None => Seq::empty(),
        } + ")"@,
    }
}

fn push_turn(out: &mut String, turn: Option<i64>, prompt: &Option<String>)
    ensures
        final(out)@ == old(out)@ + turn_words(turn, *prompt),
{
    if let Some(t) = turn {
        let mut words = " (turn ".to_owned();
        push_int(&mut words, t);
        let mut asked = String::new();
        if let Some(p) = prompt {
            asked.append(": ");
            asked.append(quote(p.as_str(), BRIEF_QUOTE).as_str());
        }
        proof {
            assert(asked@ =~= match *prompt {
                Some(p) => ": "@ + quoted(p@, BRIEF_QUOTE as nat),
                None => Seq::empty(),
            });
        }
        words.append(asked.as_str());
        words.append(")");
        out.append(words.as_str());
    } else {
        assert(old(out)@ + Seq::<char>::empty() =~= old(out)@);
    }
}

/// The first line of a brief: which session, and where it ended.
pub open spec fn end_line(s: BriefSession) -> Seq<char> {
    let host = match s.host {
        Some(h) => " ("@ + h@ + ")"@,
        None => Seq::empty(),
    };
    let end = match s.end_checkpoint {
        Some(id) => "ended at checkpoint #"@ + decimal(id as int) + turn_words(
            s.end_turn,
            s.end_prompt,
        ),
        None => "ended without a checkpoint"@,
    };
    "previous session "@ + s.session_id@ + host + ": "@ + end + "\n"@
}

/// The line on what a session changed.
pub open spec fn files_line(s: BriefSession) -> Seq<char> {
    "files changed: "@ + decimal_nat(s.files_changed as nat) + (if s.sample_paths@.len() == 0 {
        Seq::empty()
    } else {
        " ("@ + joined_texts(texts(s.sample_paths@), ", "@) + ")"@
    }) + "\n"@
}

/// The line on an abandoned branch.
pub open spec fn abandoned_line(a: BriefAbandoned) -> Seq<char> {
    "abandoned: #"@ + decimal(a.from_checkpoint as int) + "..#"@ + decimal(
        a.to_checkpoint as int,
    ) + turn_words(a.turn, a.prompt) + ", "@ + decimal_nat(a.files_changed as nat)
        + " files, rewound to #"@ + decimal(a.rewound_to as int) + "\n"@
}

/// The lines on abandoned branches.
pub open spec fn abandoned_lines(entries: Seq<BriefAbandoned>) -> Seq<char>
    decreases entries.len(),
{
    if entries.len() == 0 {
        Seq::empty()
    } else {
        abandoned_lines(entries.drop_last()) + abandoned_line(entries.last())
    }
}

/// A brief in words, whatever its length.
pub open spec fn brief_words(info: BriefInfo) -> Seq<char> {
    match info.session {
        None => "no previous session with checkpoints\n"@,
        Some(s) => end_line(s) + files_line(s) + abandoned_lines(s.abandoned@) + (
        if info.drift_files == 0 {
            Seq::empty()
        } else {
            "changed since: "@ + decimal_nat(info.drift_files as nat) + " files\n"@
        }),
    }
}

/// A brief in words, cut to what it may take.
pub open spec fn brief_text(info: BriefInfo) -> Seq<char> {
    fitting(brief_words(info), BRIEF_BYTES as nat)
}

fn end_words(s: &BriefSession) -> (r: String)
    ensures
        r@ == end_line(*s),
{
    let mut host = String::new();
    if let Some(h) = &s.host {
        host.append(" (");
        host.append(h.as_str());
        host.append(")");
        assert(host@ =~= " ("@ + h@ + ")"@);
    }
    let mut end = String::new();
    match s.end_checkpoint {
        Some(id) => {
            end.append("ended at checkpoint #");
            push_int(&mut end, id);
            push_turn(&mut end, s.end_turn, &s.end_prompt);
            assert(end@ =~= "ended at checkpoint #"@ + decimal(id as int) + turn_words(
                s.end_turn,
                s.end_prompt,
            ));
        },
        None => {
            end.append("ended without a checkpoint");
            assert(end@ =~= "ended without a checkpoint"@);
        },
    }
    let mut out = "previous session ".to_owned();
    out.append(s.session_id.as_str());
    out.append(host.as_str());
    out.append(": ");
    out.append(end.as_str());
    out.append("\n");
    out
}

fn file_words(s: &BriefSession) -> (r: String)
    ensures
        r@ == files_line(*s),
{
    let mut sample = String::new();
    if s.sample_paths.len() > 0 {
        sample.append(" (");
        sample.append(join_texts(&s.sample_paths, ", ").as_str());
        sample.append(")");
        assert(sample@ =~= " ("@ + joined_texts(texts(s.sample_paths@), ", "@) + ")"@);
    }
    let mut out = "files changed: ".to_owned();
    push_nat(&mut out, s.files_changed);
    out.append(sample.as_str());
    out.append("\n");
    out
}

fn abandoned_words(entries: &Vec<BriefAbandoned>) -> (r: String)
    ensures
        r@ == abandoned_lines(entries@),
{
    let mut out = String::new();
    let mut i: usize = 0;
    while i < entries.len()
        invariant
            i <= entries@.len(),
            out@ == abandoned_lines(entries@.take(i as int)),
        decreases entries.len() - i,
    {
        let a = &entries[i];
        let mut line = "abandoned: #".to_owned();
        push_int(&mut line, a.from_checkpoint);
        line.append("..#");
        push_int(&mut line, a.to_checkpoint);
        push_turn(&mut line, a.turn, &a.prompt);
        line.append(", ");
        push_nat(&mut line, a.files_changed);
        line.append(" files, rewound to #");
        push_int(&mut line, a.rewound_to);
        line.append("\n");
        out.append(line.as_str());
        i += 1;
        assert(entries@.take(i as int).drop_last() =~= entries@.take(i - 1));
    }
    assert(entries@.take(i as int) =~= entries@);
    out
}

/// A brief in words: where the session ended, what it changed, the branches
/// that it abandoned and what has moved since.
pub fn render(info: &BriefInfo) -> (r: String)
    ensures
        r@ == brief_text(*info),
{
    match &info.session {
        None => {
            let words = "no previous session with checkpoints\n".to_owned();
            fit(words.as_str(), BRIEF_BYTES)
        },
        Some(s) => {
            let mut words = end_words(s);
            words.append(file_words(s).as_str());
            words.append(abandoned_words(&s.abandoned).as_str());
            let mut drift = String::new();
            if info.drift_files > 0 {
                drift.append("changed since: ");
                push_nat(&mut drift, info.drift_files);
                drift.append(" files\n");
                assert(drift@ =~= "changed since: "@ + decimal_nat(info.drift_files as nat)
                    + " files\n"@);
            }
            words.append(drift.as_str());
            assert(words@ == brief_words(*info));
            fit(words.as_str(), BRIEF_BYTES)
        },
    }
}

/// A brief stays under a kilobyte, however long the session was, and is a
/// beginning of what there is to say.
pub proof fn law_brief_is_short(info: BriefInfo)
    ensures
        encode_utf8(brief_text(info)).len() < 1024,
        crate::text::begins(brief_words(info), brief_text(info)),
{
    lemma_fitting(brief_words(info), BRIEF_BYTES as nat);
}

} // verus!
