//! What the promotion of a fork promises, from its beginning to how it ends.
use vstd::prelude::*;
use vstd::utf8::*;
use crate::diff::FileChange;
use crate::digest::GenerationId;
use crate::merge::{are_roots, covered, law_markers_are_lines_of_seven, seven_at, within};
use crate::path::{byte_strings, lossy_text};
use crate::promote::{
    are_landing_entries, are_marked_entries, begins_at, promoted, shown, unresolved_paths,
    unresolved_text, BuildEntry, Entry, Event, FileContent, Landed, Promotion, Stage,
};
use crate::text::{contains_text, joined_texts, law_joined_texts_hold_each, lemma_contained};

verus! {

/// Whether a file of the fork is a text in which a line still begins with seven
/// opening angles, bars or closing angles.
pub open spec fn unsettled(f: FileContent) -> bool {
    f.bytes matches Some(bytes) && valid_utf8(bytes@) && exists|at: int, c: char|
        (c == '<' || c == '|' || c == '>') && #[trigger] seven_at(decode_utf8(bytes@), at, c)
}

proof fn lemma_unsettled(files: Seq<FileContent>, i: int)
    requires
        0 <= i < files.len(),
        unsettled(files[i]),
    ensures
        unresolved_paths(files).len() > 0,
        contains_text(unresolved_text(shown(unresolved_paths(files))), lossy_text(files[i].path@)),
{
    let keep = |f: FileContent| crate::merge::unresolved_content(f.bytes);
    let path = |f: FileContent| f.path@;
    law_markers_are_lines_of_seven(decode_utf8(files[i].bytes->0@));
    assert(keep(files[i]));
    files.lemma_filter_contains(keep, i);
    let kept = files.filter(keep);
    let k = choose|k: int| 0 <= k < kept.len() && kept[k] == files[i];
    let paths = unresolved_paths(files);
    assert(paths =~= kept.map_values(path));
    assert(shown(paths)[k] == lossy_text(files[i].path@));
    law_joined_texts_hold_each(shown(paths), ", "@, k);
    lemma_contained(
        "unresolved conflict markers in: "@,
        joined_texts(shown(paths), ", "@),
        ". Resolve every <<<<<<< / ||||||| / ======= / >>>>>>> block in the fork (or delete the file) and promote again"@,
        lossy_text(files[i].path@),
    );
}

proof fn lemma_settled(files: Seq<FileContent>)
    requires
        forall|i: int| 0 <= i < files.len() ==> !unsettled(#[trigger] files[i]),
    ensures
        unresolved_paths(files).len() == 0,
{
    let keep = |f: FileContent| crate::merge::unresolved_content(f.bytes);
    let kept = files.filter(keep);
    if kept.len() > 0 {
        files.lemma_filter_pred(keep, 0);
        assert(kept.contains(kept[0]));
        files.lemma_filter_contains_rev(keep, kept[0]);
        let i = choose|i: int| 0 <= i < files.len() && files[i] == kept[0];
        law_markers_are_lines_of_seven(decode_utf8(files[i].bytes->0@));
        assert(unsettled(files[i]));
    }
}

/// An open conflict is over only once its files are free of markers: where one
/// of them still holds one, the promotion ends with an error that names that
/// file; where none does, it goes on to the head.
pub proof fn law_markers_stop_a_promotion(
    p: Promotion,
    files: Vec<FileContent>,
    q: Promotion,
    result: Result<Option<Landed>, String>,
)
    requires
        p.stage == Stage::ConflictRead,
        promoted(p, Event::Files(files), q, result),
    ensures
        forall|i: int|
            0 <= i < files@.len() && unsettled(#[trigger] files@[i]) ==> (result matches Err(message)
                && contains_text(message@, lossy_text(files@[i].path@))),
        (forall|i: int| 0 <= i < files@.len() ==> !unsettled(#[trigger] files@[i])) ==> result
            == Ok::<Option<Landed>, String>(None) && q.stage == Stage::PublishHead,
{
    assert forall|i: int| 0 <= i < files@.len() && unsettled(#[trigger] files@[i]) implies (result
        matches Err(message) && contains_text(message@, lossy_text(files@[i].path@))) by {
        lemma_unsettled(files@, i);
    }
    if forall|i: int| 0 <= i < files@.len() ==> !unsettled(#[trigger] files@[i]) {
        lemma_settled(files@);
    }
}

/// The way of a promotion: the states it goes through and what came of each.
pub struct Course {
    pub way: Seq<Promotion>,
    pub events: Seq<Event>,
}

impl Course {
    /// Whether the promotion began with the first state, and each state follows
    /// from the one before.
    pub open spec fn leads(self) -> bool {
        &&& self.way.len() > 0
        &&& self.events.len() + 1 == self.way.len()
        &&& begins_at(self.way[0])
        &&& forall|i: int|
            0 <= i < self.events.len() ==> promoted(
                #[trigger] self.way[i],
                self.events[i],
                self.way[i + 1],
                Ok(None),
            )
    }

    /// Whether an event came at a stage, before a number of events.
    pub open spec fn had(self, n: int, stage: Stage, event: Event) -> bool {
        exists|i: int|
            0 <= i < n && (#[trigger] self.way[i]).stage == stage && self.events[i] == event
    }
}

/// Whether a stage comes before the head is published.
spec fn early(stage: Stage) -> bool {
    stage == Stage::OpenScratch || stage == Stage::CaptureCopy || stage == Stage::ConflictPending
        || stage == Stage::ConflictSnapshot || stage == Stage::ConflictRead
}

/// Whether an event brings files, none of which holds a marker.
pub open spec fn clean(event: Event) -> bool {
    event matches Event::Files(files) && forall|k: int|
        0 <= k < files@.len() ==> !unsettled(#[trigger] files@[k])
}

/// Whether files were read that hold no markers.
spec fn read_clean(c: Course, n: int) -> bool {
    exists|i: int|
        0 <= i < n && (#[trigger] c.way[i]).stage == Stage::ConflictRead && clean(c.events[i])
}

proof fn lemma_course(c: Course, n: int)
    requires
        c.leads(),
        0 <= n < c.way.len(),
    ensures
        c.way[n].conflict == c.way[0].conflict,
        c.way[n].copy_dir == c.way[0].copy_dir,
        c.way[n].base == c.way[0].base,
        c.way[n].id == c.way[0].id,
        c.way[0].conflict is Some && !early(c.way[n].stage) ==> read_clean(c, n),
    decreases n,
{
    if n > 0 {
        lemma_course(c, n - 1);
        let (p, e, q) = (c.way[n - 1], c.events[n - 1], c.way[n]);
        assert(promoted(p, e, c.way[n - 1 + 1], Ok(None)));
        if c.way[0].conflict is Some && !early(q.stage) {
            if early(p.stage) {
                if let Event::Files(files) = e {
                    law_markers_stop_a_promotion(p, files, q, Ok(None));
                    assert(c.way[n - 1].stage == Stage::ConflictRead && clean(c.events[n - 1]));
                }
            } else {
                let i = choose|i: int|
                    0 <= i < n - 1 && (#[trigger] c.way[i]).stage == Stage::ConflictRead && clean(
                        c.events[i],
                    );
                assert(c.way[i].stage == Stage::ConflictRead && clean(c.events[i]));
            }
        }
    }
}

/// A fork with an open conflict gets past it only by its files: wherever the
/// promotion has the head published, plans, writes or lands, the files of the
/// conflict were read before and none held a marker.
pub proof fn law_open_conflict_lands_only_when_settled(c: Course)
    requires
        c.leads(),
        c.way[0].conflict is Some,
        match c.way.last().stage {
            Stage::OpenScratch => false,
            Stage::CaptureCopy => false,
            Stage::ConflictPending => false,
            Stage::ConflictSnapshot => false,
            Stage::ConflictRead => false,
            _ => true,
        },
    ensures
        exists|i: int|
            0 <= i < c.events.len() && (#[trigger] c.way[i]).stage == Stage::ConflictRead && clean(
                c.events[i],
            ),
{
    lemma_course(c, c.way.len() - 1);
}

/// Whether a path is in a list.
pub open spec fn listed(paths: Seq<crate::path::HostPath>, path: Seq<u8>) -> bool {
    exists|k: int| 0 <= k < paths.len() && (#[trigger] paths[k])@ == path
}

/// A contested path stops a promotion unless the repository ignores it: with
/// one that cannot be merged the promotion ends in an error, and what stays in
/// the plan as a conflict are the conflicting files that are not ignored.
pub proof fn law_only_ignored_paths_are_left_to_the_mainline(
    p: Promotion,
    ignored: Vec<crate::path::HostPath>,
    q: Promotion,
    result: Result<Option<Landed>, String>,
)
    requires
        p.stage == Stage::Ignored,
        promoted(p, Event::Ignored(ignored), q, result),
    ensures
        result is Ok ==> forall|i: int|
            0 <= i < p.plan.refusals@.len() ==> listed(
                ignored@,
                (#[trigger] p.plan.refusals@[i]).path@,
            ),
        forall|f: crate::merge::ConflictedFile| #[trigger]
            q.plan.conflicted@.contains(f) <==> p.plan.conflicted@.contains(f) && !listed(
                ignored@,
                f.path@,
            ),
        q.plan.take_ours@ == p.plan.take_ours@,
        q.plan.merged@ == p.plan.merged@,
{
    let refusals = p.plan.refusals@;
    let goes = |r: crate::merge::MergeRefusal| !crate::merge::among(ignored@, r.path@);
    assert forall|i: int| 0 <= i < refusals.len() && result is Ok implies listed(
        ignored@,
        (#[trigger] refusals[i]).path@,
    ) by {
        if goes(refusals[i]) {
            refusals.lemma_filter_contains(goes, i);
            assert(refusals.filter(goes).len() > 0);
        }
    }
    let files = p.plan.conflicted@;
    let stays = |f: crate::merge::ConflictedFile| !crate::merge::among(ignored@, f.path@);
    assert forall|f: crate::merge::ConflictedFile| #[trigger]
        q.plan.conflicted@.contains(f) <==> files.contains(f) && !listed(ignored@, f.path@) by {
        assert(q.plan.conflicted@ == files.filter(stays));
        if q.plan.conflicted@.contains(f) {
            files.lemma_filter_contains_rev(stays, f);
            let i = choose|i: int| 0 <= i < q.plan.conflicted@.len() && q.plan.conflicted@[i] == f;
            files.lemma_filter_pred(stays, i);
        }
        if files.contains(f) && !listed(ignored@, f.path@) {
            let i = choose|i: int| 0 <= i < files.len() && files[i] == f;
            assert(stays(f));
            files.lemma_filter_contains(stays, i);
        }
    }
}

/// Whether the head has been published at a stage.
spec fn headed(stage: Stage) -> bool {
    !early(stage) && stage != Stage::PublishHead
}

/// Whether a checkpoint came at a stage, before a number of events.
pub open spec fn had_checkpoint(c: Course, n: int, stage: Stage) -> bool {
    exists|i: int| 0 <= i < n && (#[trigger] c.way[i]).stage == stage && c.events[i] is Checkpoint
}

/// How many paths of a plan have been written at a stage.
spec fn written(p: Promotion) -> int {
    match p.stage {
        Stage::Landing(i) => i as int,
        Stage::LandedCheckpoint => p.plan.landing() as int,
        Stage::RecordLanded => p.plan.landing() as int,
        Stage::Commit => p.plan.landing() as int,
        _ => 0,
    }
}

/// Whether the path of a number was written, before a number of events.
pub open spec fn wrote(c: Course, n: int, number: int) -> bool {
    exists|i: int|
        0 <= i < n && ((#[trigger] c.way[i]).stage matches Stage::Landing(k) && k == number)
            && c.events[i] is Done
}

/// What is known of the way at a point.
spec fn known(c: Course, n: int) -> bool {
    let p = c.way[n];
    let on_tree = crate::promote::on_the_tree(p.stage);
    &&& headed(p.stage) ==> c.had(n, Stage::PublishHead, Event::Generation(p.head))
    &&& on_tree ==> had_checkpoint(c, n, Stage::Safety)
    &&& forall|k: int| 0 <= k < written(p) ==> #[trigger] wrote(c, n, k)
    &&& p.stage == Stage::RecordLanded || p.stage == Stage::Commit ==> exists|i: int|
        0 <= i < n && (#[trigger] c.way[i]).stage == Stage::LandedCheckpoint && (c.events[i]
            matches Event::Checkpoint(g, _) && g == p.landed)
}

proof fn lemma_known(c: Course, n: int)
    requires
        c.leads(),
        0 <= n < c.way.len(),
    ensures
        known(c, n),
    decreases n,
{
    if n > 0 {
        lemma_known(c, n - 1);
        let (p, e, q) = (c.way[n - 1], c.events[n - 1], c.way[n]);
        assert(promoted(p, e, c.way[n - 1 + 1], Ok(None)));
        let at = c.way[n - 1];
        if headed(q.stage) {
            if headed(p.stage) {
                let i = choose|i: int|
                    0 <= i < n - 1 && (#[trigger] c.way[i]).stage == Stage::PublishHead
                        && c.events[i] == Event::Generation(p.head);
                assert(c.way[i].stage == Stage::PublishHead);
                assert(q.head == p.head);
            }
            assert(c.had(n, Stage::PublishHead, Event::Generation(q.head)));
        }
        if crate::promote::on_the_tree(q.stage) {
            if crate::promote::on_the_tree(p.stage) {
                let i = choose|i: int|
                    0 <= i < n - 1 && (#[trigger] c.way[i]).stage == Stage::Safety && c.events[i]
                        is Checkpoint;
                assert(c.way[i].stage == Stage::Safety);
            }
        }
        assert forall|k: int| 0 <= k < written(q) implies #[trigger] wrote(c, n, k) by {
            if k < written(p) {
                assert(wrote(c, n - 1, k));
                let i = choose|i: int|
                    0 <= i < n - 1 && ((#[trigger] c.way[i]).stage matches Stage::Landing(m) && m
                        == k) && c.events[i] is Done;
                assert(c.way[i].stage is Landing);
            } else {
                assert(at.stage is Landing);
            }
        }
        if q.stage == Stage::Commit && p.stage == Stage::RecordLanded {
            let i = choose|i: int|
                0 <= i < n - 1 && (#[trigger] c.way[i]).stage == Stage::LandedCheckpoint && (
                c.events[i] matches Event::Checkpoint(g, _) && g == p.landed);
            assert(c.way[i].stage == Stage::LandedCheckpoint);
        }
    }
}

/// A fork that lands is on the tree, all of it: the tree as it was had been
/// recorded, every path that the plan takes from the fork or has merged was
/// written, and the answer is the generation of the checkpoint taken after, says
/// how many paths these were, and says that the mainline had moved exactly if
/// the head differed from the base of the fork.
pub proof fn law_landed_is_all_on_the_tree(
    c: Course,
    event: Event,
    q: Promotion,
    landed: Landed,
)
    requires
        c.leads(),
        c.way.last().wf(),
        promoted(c.way.last(), event, q, Ok(Some(landed))),
        landed is Replayed,
    ensures
        ({
            let n = c.way.len() - 1;
            let p = c.way[n];
            &&& had_checkpoint(c, n, Stage::Safety)
            &&& forall|k: int|
                0 <= k < p.plan.take_ours@.len() + p.plan.merged@.len() ==> #[trigger] wrote(c, n, k)
            &&& exists|i: int|
                0 <= i < n && (#[trigger] c.way[i]).stage == Stage::LandedCheckpoint && (c.events[i]
                    matches Event::Checkpoint(g, _) && g == landed->Replayed_generation)
            &&& exists|head: GenerationId| #[trigger]
                c.had(n, Stage::PublishHead, Event::Generation(head))
                    && landed->Replayed_moved == (head != c.way[0].base)
            &&& p.plan.refusals@.len() == 0
            &&& p.plan.conflicted@.len() == 0
        }),
{
    let n = c.way.len() - 1;
    lemma_known(c, n);
    lemma_course(c, n);
    assert(c.had(n, Stage::PublishHead, Event::Generation(c.way[n].head)));
}

/// Where the fork has changed nothing, nothing lands: the answer is the head of
/// the mainline.
pub proof fn law_unchanged_fork_lands_nothing(
    c: Course,
    q: Promotion,
    result: Result<Option<Landed>, String>,
)
    requires
        c.leads(),
        c.way.last().stage == Stage::Pending,
        promoted(c.way.last(), Event::Pending(false), q, result),
    ensures
        result matches Ok(Some(Landed::Nothing { generation, kept })) && kept@.len() == 0
            && c.had(c.way.len() - 1, Stage::PublishHead, Event::Generation(generation)),
{
    lemma_known(c, c.way.len() - 1);
}

/// Whether a text shows the path of one of some files.
pub open spec fn shows_one_of(files: Seq<crate::merge::ConflictedFile>, text: Seq<char>) -> bool {
    exists|k: int| 0 <= k < files.len() && lossy_text((#[trigger] files[k]).path@) == text
}

/// A promotion that opens a conflict is told both sides: the head that the fork
/// was rebased onto and the snapshot of the fork, with one entry for each
/// conflicting file.
#[verifier::rlimit(60)]
#[verifier::spinoff_prover]
pub proof fn law_conflict_tells_both_sides(
    c: Course,
    event: Event,
    q: Promotion,
    landed: Landed,
)
    requires
        c.leads(),
        c.way.last().wf(),
        promoted(c.way.last(), event, q, Ok(Some(landed))),
        landed is Conflicted,
    ensures
        c.had(
            c.way.len() - 1,
            Stage::PublishHead,
            Event::Generation(landed->Conflicted_theirs),
        ),
        landed->Conflicted_theirs != c.way[0].base,
        landed->Conflicted_ours == c.way.last().snapshot,
        landed->files@.len() == c.way.last().plan.conflicted@.len(),
        landed->files@.len() > 0,
        forall|i: int|
            0 <= i < landed->files@.len() ==> shows_one_of(
                c.way.last().plan.conflicted@,
                (#[trigger] landed->files@[i]).path@,
            ),
{
    let n = c.way.len() - 1;
    let p = c.way[n];
    lemma_conflicted(p, event, q, landed);
    lemma_known(c, n);
    lemma_course(c, n);
    lemma_entries(p.plan.conflicted@, landed->files@);
}

proof fn lemma_conflicted(p: Promotion, event: Event, q: Promotion, landed: Landed)
    requires
        p.wf(),
        promoted(p, event, q, Ok(Some(landed))),
        landed is Conflicted,
    ensures
        headed(p.stage),
        p.head != p.base,
        p.plan.conflicted@.len() > 0,
        landed->Conflicted_theirs == p.head,
        landed->Conflicted_ours == p.snapshot,
        crate::promote::are_conflict_entries(p.plan.conflicted@, landed->files@),
{
}

proof fn lemma_entries(
    files: Seq<crate::merge::ConflictedFile>,
    entries: Seq<crate::proto::ConflictEntry>,
)
    requires
        crate::promote::are_conflict_entries(files, entries),
    ensures
        entries.len() == files.len(),
        forall|i: int|
            0 <= i < entries.len() ==> shows_one_of(files, (#[trigger] entries[i]).path@),
{
    let (keys, order) = choose|keys: Seq<String>, order: Seq<usize>| #[trigger]
        crate::sorting::is_text_order(keys, order) && crate::promote::entries_by(
            files,
            entries,
            keys,
            order,
        );
    assert(crate::text::texts(keys).len() == keys.len());
    assert(crate::text::texts(keys).len() == files.len());
    assert forall|i: int| 0 <= i < entries.len() implies shows_one_of(
        files,
        (#[trigger] entries[i]).path@,
    ) by {
        let k = order[i] as int;
        assert(crate::text::texts(keys)[k] == keys[k]@);
        assert(lossy_text(files[k].path@) == entries[i].path@);
    }
}

/// What a list of entries makes of a path of the head.
pub open spec fn made_of(entries: Seq<BuildEntry>, path: Seq<u8>, entry: Entry) -> bool {
    exists|i: int|
        0 <= i < entries.len() && (#[trigger] entries[i]).path@ == path && entries[i].entry == entry
}

/// The tree that lands is the head with the fork's work on it and nothing else:
/// a path that only the fork changed is as the fork's snapshot has it, a merged
/// file holds the merged bytes, and a path that is neither is the head's.
pub proof fn law_landing_tree_is_the_head_with_the_fork_on_it(
    p: Promotion,
    entries: Seq<BuildEntry>,
    path: Seq<u8>,
)
    requires
        are_landing_entries(p, entries),
    ensures
        listed(p.plan.take_ours@, path) ==> made_of(
            entries,
            path,
            Entry::FromGeneration(p.snapshot),
        ),
        forall|k: int|
            0 <= k < p.plan.merged@.len() && (#[trigger] p.plan.merged@[k]).path@ == path ==> exists|
                i: int,
            |
                0 <= i < entries.len() && (#[trigger] entries[i]).path@ == path && (entries[i].entry
                    matches Entry::Regular { bytes, mode } && bytes@ == p.plan.merged@[k].bytes@
                    && mode == p.plan.merged@[k].mode),
        !listed(p.plan.take_ours@, path) && (forall|k: int|
            0 <= k < p.plan.merged@.len() ==> (#[trigger] p.plan.merged@[k]).path@ != path)
            ==> forall|i: int| 0 <= i < entries.len() ==> (#[trigger] entries[i]).path@ != path,
{
    let n = p.plan.take_ours@.len();
    if listed(p.plan.take_ours@, path) {
        let k = choose|k: int|
            0 <= k < p.plan.take_ours@.len() && (#[trigger] p.plan.take_ours@[k])@ == path;
        assert(entries[k].path@ == path);
    }
    assert forall|k: int|
        0 <= k < p.plan.merged@.len() && (#[trigger] p.plan.merged@[k]).path@ == path implies exists|
        i: int,
    |
        0 <= i < entries.len() && (#[trigger] entries[i]).path@ == path && (entries[i].entry
            matches Entry::Regular { bytes, mode } && bytes@ == p.plan.merged@[k].bytes@ && mode
            == p.plan.merged@[k].mode) by {
        assert(entries[n + k].path@ == path);
    }
    if !listed(p.plan.take_ours@, path) && (forall|k: int|
        0 <= k < p.plan.merged@.len() ==> (#[trigger] p.plan.merged@[k]).path@ != path) {
        assert forall|i: int| 0 <= i < entries.len() implies (#[trigger] entries[i]).path@
            != path by {
            if i >= n {
                let k = i - n;
                assert(entries[n + k].path@ == p.plan.merged@[k].path@);
            } else {
                assert(p.plan.take_ours@[i]@ != path);
            }
        }
    }
}

/// What a conflict writes into the fork are the marked bytes of the conflicting
/// files, one file each.
pub proof fn law_conflicts_are_written_into_the_fork(p: Promotion, entries: Seq<BuildEntry>, i: int)
    requires
        are_marked_entries(p, entries),
        0 <= i < p.plan.conflicted@.len(),
    ensures
        entries.len() == p.plan.conflicted@.len(),
        entries[i].path@ == p.plan.conflicted@[i].path@,
        entries[i].entry matches Entry::Regular { bytes, mode } && bytes@
            == p.plan.conflicted@[i].bytes@ && mode == p.plan.conflicted@[i].mode,
{
    assert(crate::promote::is_file_entry(
        entries[i],
        p.plan.conflicted@[i].path@,
        p.plan.conflicted@[i].bytes@,
        p.plan.conflicted@[i].mode,
    ));
}

/// Restoring the roots of changes restores all of them and nothing twice: every
/// changed path is a root or lies below one, every root was changed, and no root
/// lies below another.
pub proof fn law_roots_cover_the_changes(
    changes: Seq<FileChange>,
    roots: Seq<Vec<Vec<u8>>>,
    k: int,
)
    requires
        are_roots(changes, roots),
        0 <= k < changes.len(),
    ensures
        exists|i: int|
            0 <= i < roots.len() && byte_strings((#[trigger] roots[i])@).is_prefix_of(
                changes[k].path(),
            ),
        forall|i: int|
            0 <= i < roots.len() ==> exists|m: int|
                0 <= m < changes.len() && (#[trigger] changes[m]).path() == byte_strings(
                    (#[trigger] roots[i])@,
                ),
        forall|i: int, j: int|
            0 <= i < roots.len() && 0 <= j < roots.len() && i != j ==> !byte_strings(
                (#[trigger] roots[i])@,
            ).is_prefix_of(byte_strings((#[trigger] roots[j])@)),
{
    assert forall|a: Seq<Seq<u8>>, b: Seq<Seq<u8>>| #[trigger] within(a, b) == a.is_prefix_of(b) by {
        lemma_within(a, b);
    }
    assert(covered(roots, changes[k].path()));
    assert forall|i: int| 0 <= i < roots.len() implies exists|m: int|
        0 <= m < changes.len() && (#[trigger] changes[m]).path() == byte_strings(
            (#[trigger] roots[i])@,
        ) by {
        assert(crate::diff::listed(changes, byte_strings(roots[i]@)));
    }
    assert forall|i: int, j: int|
        0 <= i < roots.len() && 0 <= j < roots.len() && i != j implies !byte_strings(
        (#[trigger] roots[i])@,
    ).is_prefix_of(byte_strings((#[trigger] roots[j])@)) by {
        assert(!within(byte_strings(roots[i]@), byte_strings(roots[j]@)));
    }
}

proof fn lemma_within(a: Seq<Seq<u8>>, b: Seq<Seq<u8>>)
    ensures
        within(a, b) == a.is_prefix_of(b),
{
    if within(a, b) {
        assert(a =~= b.take(a.len() as int));
    }
    if a.is_prefix_of(b) {
        assert(b.take(a.len() as int) =~= a);
    }
}

/// Whether a path is shown in a list of texts.
pub open spec fn shown_in(kept: Seq<String>, path: Seq<u8>) -> bool {
    exists|k: int| 0 <= k < kept.len() && (#[trigger] kept[k])@ == lossy_text(path)
}

proof fn lemma_shown(kept: Seq<String>, paths: Seq<Seq<u8>>, i: int)
    requires
        crate::text::texts(kept) == shown(paths),
        0 <= i < paths.len(),
    ensures
        shown_in(kept, paths[i]),
{
    assert(shown(paths)[i] == lossy_text(paths[i]));
    assert(crate::text::texts(kept).len() == kept.len());
    assert(crate::text::texts(kept)[i] == kept[i]@);
}

/// What the mainline keeps is told: every contested path that the repository
/// ignores, whether it could not be merged or conflicted.
pub proof fn law_kept_paths_are_the_ignored_ones(
    p: Promotion,
    ignored: Vec<crate::path::HostPath>,
    q: Promotion,
    result: Result<Option<Landed>, String>,
)
    requires
        p.stage == Stage::Ignored,
        promoted(p, Event::Ignored(ignored), q, result),
    ensures
        forall|i: int|
            0 <= i < p.plan.refusals@.len() && listed(
                ignored@,
                (#[trigger] p.plan.refusals@[i]).path@,
            ) ==> shown_in(q.kept@, p.plan.refusals@[i].path@),
        forall|i: int|
            0 <= i < p.plan.conflicted@.len() && listed(
                ignored@,
                (#[trigger] p.plan.conflicted@[i]).path@,
            ) ==> shown_in(q.kept@, p.plan.conflicted@[i].path@),
        q.kept@.len() <= p.plan.refusals@.len() + p.plan.conflicted@.len(),
        ignored@.len() == 0 ==> q.kept@.len() == 0,
{
    let keep_r = |r: crate::merge::MergeRefusal| crate::merge::among(ignored@, r.path@);
    let keep_f = |f: crate::merge::ConflictedFile| crate::merge::among(ignored@, f.path@);
    let path_r = |r: crate::merge::MergeRefusal| r.path@;
    let path_f = |f: crate::merge::ConflictedFile| f.path@;
    let (refusals, files) = (p.plan.refusals@, p.plan.conflicted@);
    let (a, b) = (refusals.filter(keep_r), files.filter(keep_f));
    let paths = crate::merge::kept_paths(p.plan, ignored@);
    assert(paths == a.map_values(path_r) + b.map_values(path_f));
    assert(crate::text::texts(q.kept@).len() == q.kept@.len());
    assert(shown(paths).len() == paths.len());
    refusals.lemma_filter_len(keep_r);
    files.lemma_filter_len(keep_f);
    assert forall|i: int|
        0 <= i < refusals.len() && listed(ignored@, (#[trigger] refusals[i]).path@) implies shown_in(
        q.kept@,
        refusals[i].path@,
    ) by {
        assert(keep_r(refusals[i]));
        refusals.lemma_filter_contains(keep_r, i);
        let k = choose|k: int| 0 <= k < a.len() && a[k] == refusals[i];
        assert(paths[k] == refusals[i].path@);
        lemma_shown(q.kept@, paths, k);
    }
    assert forall|i: int|
        0 <= i < files.len() && listed(ignored@, (#[trigger] files[i]).path@) implies shown_in(
        q.kept@,
        files[i].path@,
    ) by {
        assert(keep_f(files[i]));
        files.lemma_filter_contains(keep_f, i);
        let k = choose|k: int| 0 <= k < b.len() && b[k] == files[i];
        assert(paths[a.len() + k] == files[i].path@);
        lemma_shown(q.kept@, paths, (a.len() + k) as int);
    }
    if ignored@.len() == 0 {
        if a.len() > 0 {
            refusals.lemma_filter_pred(keep_r, 0);
        }
        if b.len() > 0 {
            files.lemma_filter_pred(keep_f, 0);
        }
    }
}

/// Whether an event is what a promotion waits for at a stage.
pub open spec fn awaited(stage: Stage, event: Event) -> bool {
    match stage {
        Stage::ConflictPending => event is Pending,
        Stage::Pending => event is Pending,
        Stage::ConflictSnapshot => event is Generation,
        Stage::PublishHead => event is Generation,
        Stage::Snapshot => event is Generation,
        Stage::BuildMerged => event is Generation,
        Stage::BuildRebased => event is Generation,
        Stage::ConflictRead => event is Files,
        Stage::Plan => event is Plan,
        Stage::Ignored => event is Ignored,
        Stage::DiffRebased => event is Changes,
        Stage::Safety => event is Checkpoint,
        Stage::LandedCheckpoint => event is Checkpoint,
        Stage::Finished => false,
        _ => event is Done,
    }
}

/// A promotion to which nothing fails is stopped for three reasons only: a
/// conflict is still open in the fork, a path that cannot be merged is not
/// ignored, or a path conflicts although the mainline has not moved. Only a plan
/// with more paths than can be counted is turned away besides.
pub proof fn law_promotion_stops_only_for_a_reason(
    p: Promotion,
    event: Event,
    q: Promotion,
    message: String,
)
    requires
        promoted(p, event, q, Err(message)),
        awaited(p.stage, event),
    ensures
        match event {
            Event::Pending(pending) => p.stage == Stage::ConflictPending && !pending,
            Event::Files(files) => exists|i: int|
                0 <= i < files@.len() && unsettled(#[trigger] files@[i]),
            Event::Ignored(ignored) => {
                ||| exists|i: int|
                    0 <= i < p.plan.refusals@.len() && !listed(
                        ignored@,
                        (#[trigger] p.plan.refusals@[i]).path@,
                    )
                ||| p.head == p.base && exists|i: int|
                    0 <= i < p.plan.conflicted@.len() && !listed(
                        ignored@,
                        (#[trigger] p.plan.conflicted@[i]).path@,
                    )
                ||| p.plan.take_ours@.len() + p.plan.merged@.len() > usize::MAX
            },
            _ => false,
        },
{
    if let Event::Files(files) = event {
        if forall|i: int| 0 <= i < files@.len() ==> !unsettled(#[trigger] files@[i]) {
            law_markers_stop_a_promotion(p, files, q, Err(message));
        }
    }
    if let Event::Ignored(ignored) = event {
        let refusals = p.plan.refusals@;
        let goes = |r: crate::merge::MergeRefusal| !crate::merge::among(ignored@, r.path@);
        if refusals.filter(goes).len() > 0 {
            let r = refusals.filter(goes)[0];
            refusals.lemma_filter_pred(goes, 0);
            assert(refusals.filter(goes).contains(r));
            refusals.lemma_filter_contains_rev(goes, r);
            let i = choose|i: int| 0 <= i < refusals.len() && refusals[i] == r;
            assert(!listed(ignored@, refusals[i].path@));
        } else {
            let files = p.plan.conflicted@;
            let stays = |f: crate::merge::ConflictedFile| !crate::merge::among(ignored@, f.path@);
            if files.filter(stays).len() > 0 {
                let f = files.filter(stays)[0];
                files.lemma_filter_pred(stays, 0);
                assert(files.filter(stays).contains(f));
                files.lemma_filter_contains_rev(stays, f);
                let i = choose|i: int| 0 <= i < files.len() && files[i] == f;
                assert(!listed(ignored@, files[i].path@));
            }
        }
    }
}

/// What is on record of a landing at a point of the way.
spec fn recorded(c: Course, n: int) -> bool {
    let p = c.way[n];
    &&& p.stage == Stage::Safety || crate::promote::on_the_tree(p.stage) ==> c.had(
        n,
        Stage::RecordMerged,
        Event::Done,
    )
    &&& p.stage == Stage::Commit ==> c.had(n, Stage::RecordLanded, Event::Done) || took_landing(c, n)
}

/// Whether the checkpoint after the landing captured something.
pub open spec fn took_landing(c: Course, n: int) -> bool {
    exists|i: int|
        0 <= i < n && (#[trigger] c.way[i]).stage == Stage::LandedCheckpoint && (c.events[i] matches
            Event::Checkpoint(_, kind) && kind != crate::index::CheckpointKind::Noop)
}

proof fn lemma_recorded(c: Course, n: int)
    requires
        c.leads(),
        0 <= n < c.way.len(),
    ensures
        recorded(c, n),
    decreases n,
{
    if n > 0 {
        lemma_recorded(c, n - 1);
        let (p, e, q) = (c.way[n - 1], c.events[n - 1], c.way[n]);
        assert(promoted(p, e, c.way[n - 1 + 1], Ok(None)));
        let at = c.way[n - 1];
        if p.stage == Stage::Safety || crate::promote::on_the_tree(p.stage) {
            let i = choose|i: int|
                0 <= i < n - 1 && (#[trigger] c.way[i]).stage == Stage::RecordMerged && c.events[i]
                    == Event::Done;
            assert(c.way[i].stage == Stage::RecordMerged);
        }
        if q.stage == Stage::Commit {
            assert(at.stage == Stage::LandedCheckpoint || at.stage == Stage::RecordLanded);
        }
    }
}

/// A fork that lands is on the timeline: what was to land was recorded before
/// the tree was written, and what stands there after it is a checkpoint of its
/// own, or is recorded where the capture found nothing new.
pub proof fn law_landings_are_on_record(c: Course, event: Event, q: Promotion, landed: Landed)
    requires
        c.leads(),
        promoted(c.way.last(), event, q, Ok(Some(landed))),
        landed is Replayed,
    ensures
        c.had(c.way.len() - 1, Stage::RecordMerged, Event::Done),
        c.had(c.way.len() - 1, Stage::RecordLanded, Event::Done) || took_landing(
            c,
            c.way.len() - 1,
        ),
{
    lemma_recorded(c, c.way.len() - 1);
}

} // verus!
