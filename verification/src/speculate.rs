//! Computing what an agent is about to ask for before it asks: the brief of the
//! previous session. A result is kept under a key that names the tree it
//! describes, so that one of another tree is missed rather than stale.
use vstd::prelude::*;
use crate::brief::{briefable, is_previous, last_session_with_checkpoints};
use crate::digest::GenerationId;
use crate::index::{admits, answers_nothing, ask, is_newest, CheckpointRow, Index, Kinds, SessionRow};
use crate::text::opt_str;

verus! {

/// What a brief is kept under.
#[derive(Debug)]
pub struct SpecKey {
    /// The tree that the brief describes.
    pub generation: GenerationId,
    /// The session that it is about.
    pub scope: String,
    /// How it was made.
    pub recipe: String,
}

/// Whether a key is the one that a brief is served under.
pub open spec fn is_brief_key(
    index: Index,
    recipe: Seq<char>,
    current: Option<Seq<char>>,
    key: SpecKey,
) -> bool {
    exists|s: SessionRow, row: CheckpointRow| #[trigger]
        is_previous(index, current, s) && #[trigger] is_newest(
            index.rows@,
            ask(Kinds::Targets),
            row,
        ) && key.generation == row.generation && key.scope@ == s.session_id@ && key.recipe@ == recipe
}

/// Whether there is nothing to compute ahead.
pub open spec fn no_brief_key(index: Index, current: Option<Seq<char>>) -> bool {
    ||| forall|j: int|
        0 <= j < index.sessions@.len() ==> !briefable(index, current, #[trigger] index.sessions@[j])
    ||| answers_nothing(index.rows@, ask(Kinds::Targets))
}

/// The key that a brief is served under: the session that it is about and the
/// tree as it is. Nothing where there is no such session or no tree.
pub fn brief_key(index: &Index, recipe: &str, current: Option<&str>) -> (r: Option<SpecKey>)
    ensures
        match r {
            Some(key) => is_brief_key(*index, recipe@, opt_str(current), key),
            None => no_brief_key(*index, opt_str(current)),
        },
{
    let subject = match last_session_with_checkpoints(index, current) {
        Some(subject) => subject,
        None => {
            return None;
        },
    };
    let latest = match index.latest_target() {
        Some(latest) => latest,
        None => {
            return None;
        },
    };
    let key = SpecKey {
        generation: latest.generation,
        scope: subject.session_id.clone(),
        recipe: recipe.to_owned(),
    };
    assert(is_previous(*index, opt_str(current), subject));
    assert(is_newest(index.rows@, ask(Kinds::Targets), latest));
    Some(key)
}

/// Whether a key names the same result as another.
pub open spec fn same_key(a: SpecKey, b: SpecKey) -> bool {
    a.generation == b.generation && a.scope@ == b.scope@ && a.recipe@ == b.recipe@
}

/// There is one newest row.
proof fn lemma_newest_is_one(rows: Seq<CheckpointRow>, a: CheckpointRow, b: CheckpointRow)
    requires
        is_newest(rows, ask(Kinds::Targets), a),
        is_newest(rows, ask(Kinds::Targets), b),
    ensures
        a == b,
{
    let q = ask(Kinds::Targets);
    let i = choose|i: int|
        0 <= i < rows.len() && rows[i] == a && #[trigger] admits(q, rows[i]) && forall|j: int|
            i < j < rows.len() ==> !admits(q, #[trigger] rows[j]);
    let k = choose|i: int|
        0 <= i < rows.len() && rows[i] == b && #[trigger] admits(q, rows[i]) && forall|j: int|
            i < j < rows.len() ==> !admits(q, #[trigger] rows[j]);
    assert(admits(q, rows[i]) && admits(q, rows[k]));
}

/// A brief computed ahead is never stale: once the tree has moved, its key is
/// not the one that is asked for.
pub proof fn law_moved_tree_is_a_miss(
    before: Index,
    after: Index,
    recipe: Seq<char>,
    current: Option<Seq<char>>,
    kept: SpecKey,
    asked: SpecKey,
    old_row: CheckpointRow,
    new_row: CheckpointRow,
)
    requires
        is_brief_key(before, recipe, current, kept),
        is_brief_key(after, recipe, current, asked),
        is_newest(before.rows@, ask(Kinds::Targets), old_row),
        is_newest(after.rows@, ask(Kinds::Targets), new_row),
        old_row.generation != new_row.generation,
    ensures
        !same_key(kept, asked),
{
    let q = ask(Kinds::Targets);
    let (_, a) = choose|s: SessionRow, row: CheckpointRow| #[trigger]
        is_previous(before, current, s) && #[trigger] is_newest(before.rows@, q, row)
            && kept.generation == row.generation && kept.scope@ == s.session_id@ && kept.recipe@
            == recipe;
    let (_, b) = choose|s: SessionRow, row: CheckpointRow| #[trigger]
        is_previous(after, current, s) && #[trigger] is_newest(after.rows@, q, row)
            && asked.generation == row.generation && asked.scope@ == s.session_id@ && asked.recipe@
            == recipe;
    lemma_newest_is_one(before.rows@, a, old_row);
    lemma_newest_is_one(after.rows@, b, new_row);
}

/// There is one session to brief about.
proof fn lemma_previous_is_one(
    index: Index,
    current: Option<Seq<char>>,
    a: SessionRow,
    b: SessionRow,
)
    requires
        is_previous(index, current, a),
        is_previous(index, current, b),
    ensures
        a == b,
{
    let rows = index.sessions@;
    let i = choose|i: int|
        0 <= i < rows.len() && #[trigger] rows[i] == a && briefable(index, current, a) && forall|
            j: int,
        | i < j < rows.len() ==> !briefable(index, current, #[trigger] rows[j]);
    let k = choose|i: int|
        0 <= i < rows.len() && #[trigger] rows[i] == b && briefable(index, current, b) && forall|
            j: int,
        | i < j < rows.len() ==> !briefable(index, current, #[trigger] rows[j]);
    assert(rows[i] == a && rows[k] == b);
}

/// Nor is it one of another session: once the session to brief about is
/// another, whoever asks, the key of before is not the one that is asked for.
pub proof fn law_changed_session_is_a_miss(
    before: Index,
    after: Index,
    recipe: Seq<char>,
    current: Option<Seq<char>>,
    asking: Option<Seq<char>>,
    kept: SpecKey,
    asked: SpecKey,
    old_subject: SessionRow,
    new_subject: SessionRow,
)
    requires
        is_brief_key(before, recipe, current, kept),
        is_brief_key(after, recipe, asking, asked),
        is_previous(before, current, old_subject),
        is_previous(after, asking, new_subject),
        old_subject.session_id@ != new_subject.session_id@,
    ensures
        !same_key(kept, asked),
{
    let q = ask(Kinds::Targets);
    let (a, _) = choose|s: SessionRow, row: CheckpointRow| #[trigger]
        is_previous(before, current, s) && #[trigger] is_newest(before.rows@, q, row)
            && kept.generation == row.generation && kept.scope@ == s.session_id@ && kept.recipe@
            == recipe;
    let (b, _) = choose|s: SessionRow, row: CheckpointRow| #[trigger]
        is_previous(after, asking, s) && #[trigger] is_newest(after.rows@, q, row)
            && asked.generation == row.generation && asked.scope@ == s.session_id@ && asked.recipe@
            == recipe;
    lemma_previous_is_one(before, current, a, old_subject);
    lemma_previous_is_one(after, asking, b, new_subject);
}

} // verus!
