//! How the changes of a fork and those of the mainline, both since the fork's
//! base, go together.
use vstd::prelude::*;
use crate::diff::{FileChange, FileKind};
use crate::merge::{path_bytes, ConflictedFile, MergePlan, MergeRefusal, MergedFile};
use crate::order::{rank_paths, Rank};
use crate::path::{byte_strings, path_of, HostPath};
use crate::text::{decimal_nat, push_nat};

verus! {

/// A path that both sides changed, and what stands there on each.
#[derive(Debug)]
pub struct Meeting {
    pub path: HostPath,
    pub ours: FileKind,
    pub theirs: FileKind,
}

/// Whether a path is among changed ones.
pub open spec fn changed(changes: Seq<FileChange>, path: Seq<Seq<u8>>) -> bool {
    exists|i: int| 0 <= i < changes.len() && (#[trigger] changes[i]).path() == path
}

/// Whether a path is among changed ones and is of a kind there.
pub open spec fn changed_as(changes: Seq<FileChange>, path: Seq<Seq<u8>>, kind: FileKind) -> bool {
    exists|i: int|
        0 <= i < changes.len() && (#[trigger] changes[i]).path() == path && changes[i].file_kind
            == kind
}

/// Whether a change is of a path that the other side left alone.
pub open spec fn alone(others: Seq<FileChange>) -> spec_fn(FileChange) -> bool {
    |c: FileChange| !changed(others, c.path())
}

/// Whether a change is of a path that the other side changed too.
pub open spec fn contested_by(others: Seq<FileChange>) -> spec_fn(FileChange) -> bool {
    |c: FileChange| changed(others, c.path())
}

/// The paths of changes.
pub open spec fn places(changes: Seq<FileChange>) -> Seq<Seq<u8>> {
    changes.map_values(|c: FileChange| path_of(c.path()))
}

/// Whether meetings are the contested changes of one side, in order.
pub open spec fn are_meetings(
    meetings: Seq<Meeting>,
    contested: Seq<FileChange>,
    others: Seq<FileChange>,
) -> bool {
    &&& meetings.len() == contested.len()
    &&& forall|i: int|
        0 <= i < meetings.len() ==> {
            &&& (#[trigger] meetings[i]).path@ == path_of(contested[i].path())
            &&& meetings[i].ours == contested[i].file_kind
            &&& changed_as(others, contested[i].path(), meetings[i].theirs)
        }
}

fn find_change(changes: &Vec<FileChange>, names: &Vec<Vec<u8>>) -> (r: Option<usize>)
    ensures
        match r {
            Some(i) => i < changes@.len() && changes@[i as int].path() == byte_strings(names@),
            None => !changed(changes@, byte_strings(names@)),
        },
{
    let mut i: usize = 0;
    while i < changes.len()
        invariant
            i <= changes@.len(),
            forall|j: int| 0 <= j < i ==> (#[trigger] changes@[j]).path() != byte_strings(names@),
        decreases changes.len() - i,
    {
        if rank_paths(&changes[i].names, names) == Rank::Same {
            return Some(i);
        }
        i += 1;
    }
    None
}

proof fn lemma_filter_step<T>(s: Seq<T>, keep: spec_fn(T) -> bool, i: int)
    requires
        0 <= i < s.len(),
    ensures
        s.take(i + 1).filter(keep) == if keep(s[i]) {
            s.take(i).filter(keep).push(s[i])
        } else {
            s.take(i).filter(keep)
        },
{
    reveal(Seq::filter);
    assert(s.take(i + 1).drop_last() =~= s.take(i));
    assert(s.take(i + 1).last() == s[i]);
}

proof fn lemma_filter_none<T>(s: Seq<T>, keep: spec_fn(T) -> bool)
    ensures
        s.take(0).filter(keep) == Seq::<T>::empty(),
{
    reveal(Seq::filter);
}

/// The paths of one side's changes that the other left alone.
fn alone_paths(changes: &Vec<FileChange>, others: &Vec<FileChange>) -> (r: Vec<HostPath>)
    ensures
        path_bytes(r@) == places(changes@.filter(alone(others@))),
{
    let mut out: Vec<HostPath> = Vec::new();
    let mut i: usize = 0;
    let ghost keep = alone(others@);
    proof {
        lemma_filter_none(changes@, keep);
    }
    while i < changes.len()
        invariant
            i <= changes@.len(),
            keep == alone(others@),
            path_bytes(out@) =~= places(changes@.take(i as int).filter(keep)),
        decreases changes.len() - i,
    {
        let ghost before = out@;
        proof {
            lemma_filter_step(changes@, keep, i as int);
        }
        if find_change(others, &changes[i].names).is_none() {
            out.push(changes[i].host_path());
            assert(path_bytes(out@) =~= path_bytes(before).push(path_of(changes@[i as int].path())));
            assert(places(changes@.take(i as int).filter(keep).push(changes@[i as int])) =~= places(
                changes@.take(i as int).filter(keep),
            ).push(path_of(changes@[i as int].path())));
        }
        i += 1;
    }
    assert(changes@.take(i as int) =~= changes@);
    out
}

/// Whether the changes of both sides are sorted into a plan and into what is to
/// be settled.
pub open spec fn sorts(
    ours: Seq<FileChange>,
    theirs: Seq<FileChange>,
    plan: MergePlan,
    meetings: Seq<Meeting>,
) -> bool {
    &&& path_bytes(plan.take_ours@) == places(ours.filter(alone(theirs)))
    &&& path_bytes(plan.take_theirs@) == places(theirs.filter(alone(ours)))
    &&& are_meetings(meetings, ours.filter(contested_by(theirs)), theirs)
}

/// Sorts the changes of both sides: what only the fork changed and what only
/// the mainline changed go into the plan as they are; what both changed is to
/// be settled path by path.
pub fn sides(ours: &Vec<FileChange>, theirs: &Vec<FileChange>) -> (r: (MergePlan, Vec<Meeting>))
    ensures
        sorts(ours@, theirs@, r.0, r.1@),
        path_bytes(r.0.take_ours@) == places(ours@.filter(alone(theirs@))),
        path_bytes(r.0.take_theirs@) == places(theirs@.filter(alone(ours@))),
        r.0.merged@.len() == 0,
        r.0.conflicted@.len() == 0,
        r.0.refusals@.len() == 0,
        are_meetings(r.1@, ours@.filter(contested_by(theirs@)), theirs@),
{
    let mut plan = MergePlan::empty();
    plan.take_ours = alone_paths(ours, theirs);
    plan.take_theirs = alone_paths(theirs, ours);
    let mut meetings: Vec<Meeting> = Vec::new();
    let mut i: usize = 0;
    let ghost keep = contested_by(theirs@);
    proof {
        lemma_filter_none(ours@, keep);
    }
    while i < ours.len()
        invariant
            i <= ours@.len(),
            keep == contested_by(theirs@),
            are_meetings(meetings@, ours@.take(i as int).filter(keep), theirs@),
        decreases ours.len() - i,
    {
        let ghost before = meetings@;
        let ghost done = ours@.take(i as int).filter(keep);
        proof {
            lemma_filter_step(ours@, keep, i as int);
        }
        if let Some(j) = find_change(theirs, &ours[i].names) {
            meetings.push(
                Meeting {
                    path: ours[i].host_path(),
                    ours: ours[i].file_kind,
                    theirs: theirs[j].file_kind,
                },
            );
            proof {
                assert(theirs@[j as int].path() == ours@[i as int].path());
                assert(changed_as(theirs@, ours@[i as int].path(), theirs@[j as int].file_kind));
                assert forall|k: int| 0 <= k < meetings@.len() implies {
                    &&& (#[trigger] meetings@[k]).path@ == path_of(
                        done.push(ours@[i as int])[k].path(),
                    )
                    &&& meetings@[k].ours == done.push(ours@[i as int])[k].file_kind
                    &&& changed_as(
                        theirs@,
                        done.push(ours@[i as int])[k].path(),
                        meetings@[k].theirs,
                    )
                } by {
                    if k < before.len() {
                        assert(meetings@[k] == before[k]);
                    }
                }
            }
        }
        i += 1;
    }
    assert(ours@.take(i as int) =~= ours@);
    (plan, meetings)
}

/// What a content merge of three versions of a file came to.
#[derive(Debug)]
pub enum Blend {
    Merged(Vec<u8>),
    /// Both sides changed the same places; the bytes hold markers there.
    Hunks { bytes: Vec<u8>, hunks: u32 },
    /// One side deleted what the other changed; the bytes hold markers.
    TheirsDeleted(Vec<u8>),
    OursDeleted(Vec<u8>),
    Binary,
    TooLarge,
}

/// What is known of the content of a path that both sides changed.
#[derive(Debug)]
pub enum Content {
    /// It was not looked at.
    Unread,
    /// Both sides have the same.
    Same,
    Blended(Blend),
}

/// What conflicts, in words.
pub open spec fn conflict_detail(blend: Blend) -> Seq<char> {
    match blend {
        Blend::Hunks { hunks, .. } => decimal_nat(hunks as nat) + " conflicting hunk(s)"@,
        Blend::TheirsDeleted(_) => "modified in the fork, deleted on the mainline"@,
        _ => "deleted in the fork, modified on the mainline"@,
    }
}

/// Whether a path can be merged by its content.
pub open spec fn by_content(meeting: Meeting) -> bool {
    meeting.ours == FileKind::Regular && meeting.theirs == FileKind::Regular
}

/// Whether a path needs nothing: a directory on both sides, or the same
/// content.
pub open spec fn agrees(meeting: Meeting, content: Content) -> bool {
    ||| meeting.ours == FileKind::Directory && meeting.theirs == FileKind::Directory
    ||| by_content(meeting) && content is Same
}

/// Why a path is refused, where it is.
pub open spec fn refused(meeting: Meeting, content: Content) -> Option<Seq<char>> {
    if agrees(meeting, content) {
        None
    } else if !by_content(meeting) {
        Some("changed on both sides and not a regular file"@)
    } else {
        match content {
            Content::Unread => Some("changed on both sides and not read"@),
            Content::Blended(Blend::Binary) => Some("binary file changed on both sides"@),
            Content::Blended(Blend::TooLarge) => Some("too large to merge"@),
            _ => None,
        }
    }
}

/// The bytes of a clean merge, where there is one.
pub open spec fn merged_bytes(meeting: Meeting, content: Content) -> Option<Seq<u8>> {
    match content {
        Content::Blended(Blend::Merged(bytes)) if by_content(meeting) => Some(bytes@),
        _ => None,
    }
}

/// The marked bytes of a conflict, where there is one.
pub open spec fn marked_bytes(meeting: Meeting, content: Content) -> Option<Seq<u8>> {
    if by_content(meeting) {
        match content {
            Content::Blended(Blend::Hunks { bytes, .. }) => Some(bytes@),
            Content::Blended(Blend::TheirsDeleted(bytes)) => Some(bytes@),
            Content::Blended(Blend::OursDeleted(bytes)) => Some(bytes@),
            _ => None,
        }
    } else {
        None
    }
}

/// Whether settling a path takes one plan to another.
pub open spec fn settles(
    before: MergePlan,
    after: MergePlan,
    meeting: Meeting,
    content: Content,
    mode: u32,
) -> bool {
    &&& after.take_ours == before.take_ours
    &&& after.take_theirs == before.take_theirs
    &&& match refused(meeting, content) {
        Some(reason) => {
            &&& after.refusals@.len() == before.refusals@.len() + 1
            &&& after.refusals@.drop_last() == before.refusals@
            &&& after.refusals@.last().path@ == meeting.path@
            &&& after.refusals@.last().reason@ == reason
        },
        None => after.refusals == before.refusals,
    }
    &&& match merged_bytes(meeting, content) {
        Some(bytes) => {
            &&& after.merged@.len() == before.merged@.len() + 1
            &&& after.merged@.drop_last() == before.merged@
            &&& after.merged@.last().path@ == meeting.path@
            &&& after.merged@.last().bytes@ == bytes
            &&& after.merged@.last().mode == mode
        },
        None => after.merged == before.merged,
    }
    &&& match marked_bytes(meeting, content) {
        Some(bytes) => {
            &&& after.conflicted@.len() == before.conflicted@.len() + 1
            &&& after.conflicted@.drop_last() == before.conflicted@
            &&& after.conflicted@.last().path@ == meeting.path@
            &&& after.conflicted@.last().bytes@ == bytes
            &&& after.conflicted@.last().mode == mode
            &&& after.conflicted@.last().detail@ == conflict_detail(content->Blended_0)
        },
        None => after.conflicted == before.conflicted,
    }
}

/// A path that both sides changed ends in one place of the plan and in one
/// only, unless both sides agree on it: no change is lost in silence.
pub proof fn law_no_change_is_lost(meeting: Meeting, content: Content)
    ensures
        agrees(meeting, content) <==> refused(meeting, content) is None && merged_bytes(
            meeting,
            content,
        ) is None && marked_bytes(meeting, content) is None,
        refused(meeting, content) is Some ==> merged_bytes(meeting, content) is None
            && marked_bytes(meeting, content) is None,
        merged_bytes(meeting, content) is Some ==> marked_bytes(meeting, content) is None,
{
}

/// Every change of the fork is taken as it is or is settled with the
/// mainline's change of the same path.
pub proof fn law_every_change_has_a_side(ours: Seq<FileChange>, theirs: Seq<FileChange>, i: int)
    requires
        0 <= i < ours.len(),
    ensures
        ours.filter(alone(theirs)).contains(ours[i]) != ours.filter(contested_by(theirs)).contains(
            ours[i],
        ),
{
    broadcast use vstd::seq_lib::group_filter_ensures;

    let left = ours.filter(alone(theirs));
    let met = ours.filter(contested_by(theirs));
    if left.contains(ours[i]) {
        let k = choose|k: int| 0 <= k < left.len() && left[k] == ours[i];
        assert(alone(theirs)(left[k]));
    }
    if met.contains(ours[i]) {
        let k = choose|k: int| 0 <= k < met.len() && met[k] == ours[i];
        assert(contested_by(theirs)(met[k]));
    }
    assert(alone(theirs)(ours[i]) || contested_by(theirs)(ours[i]));
}

/// Whether a path is one of a list.
pub open spec fn holds_path(paths: Seq<HostPath>, path: Seq<u8>) -> bool {
    exists|i: int| 0 <= i < paths.len() && (#[trigger] paths[i])@ == path
}

proof fn lemma_places(changes: Seq<FileChange>, keep: spec_fn(FileChange) -> bool, paths: Seq<HostPath>, path: Seq<u8>)
    requires
        path_bytes(paths) == places(changes.filter(keep)),
    ensures
        holds_path(paths, path) <==> exists|i: int|
            0 <= i < changes.len() && keep(#[trigger] changes[i]) && path_of(changes[i].path())
                == path,
{
    let kept = changes.filter(keep);
    assert(path_bytes(paths).len() == paths.len());
    assert(places(kept).len() == kept.len());
    if holds_path(paths, path) {
        let i = choose|i: int| 0 <= i < paths.len() && (#[trigger] paths[i])@ == path;
        assert(path_bytes(paths)[i] == path);
        assert(places(kept)[i] == path_of(kept[i].path()));
        changes.lemma_filter_pred(keep, i);
        assert(kept.contains(kept[i]));
        changes.lemma_filter_contains_rev(keep, kept[i]);
        let k = choose|k: int| 0 <= k < changes.len() && changes[k] == kept[i];
        assert(keep(changes[k]));
    }
    if exists|i: int|
        0 <= i < changes.len() && keep(#[trigger] changes[i]) && path_of(changes[i].path())
            == path {
        let i = choose|i: int|
            0 <= i < changes.len() && keep(#[trigger] changes[i]) && path_of(changes[i].path())
                == path;
        changes.lemma_filter_contains(keep, i);
        let k = choose|k: int| 0 <= k < kept.len() && kept[k] == changes[i];
        assert(places(kept)[k] == path);
        assert(path_bytes(paths)[k] == paths[k]@);
    }
}

/// Whether a path is among changed ones and the same names were changed by the
/// other side or were not.
pub open spec fn changed_and(
    changes: Seq<FileChange>,
    others: Seq<FileChange>,
    path: Seq<u8>,
    both: bool,
) -> bool {
    exists|i: int|
        0 <= i < changes.len() && path_of((#[trigger] changes[i]).path()) == path && (exists|j: int|
            0 <= j < others.len() && (#[trigger] others[j]).path() == changes[i].path()) == both
}

/// A merge takes from the fork what only the fork changed, leaves to the
/// mainline what only the mainline changed, and has a path settled exactly if
/// both changed it.
pub proof fn law_merge_takes_each_side_for_its_own(
    ours: Seq<FileChange>,
    theirs: Seq<FileChange>,
    plan: MergePlan,
    meetings: Seq<Meeting>,
    path: Seq<u8>,
)
    requires
        sorts(ours, theirs, plan, meetings),
    ensures
        holds_path(plan.take_ours@, path) <==> changed_and(ours, theirs, path, false),
        holds_path(plan.take_theirs@, path) <==> changed_and(theirs, ours, path, false),
        (exists|i: int| 0 <= i < meetings.len() && (#[trigger] meetings[i]).path@ == path)
            <==> changed_and(ours, theirs, path, true),
{
    lemma_places(ours, alone(theirs), plan.take_ours@, path);
    lemma_places(theirs, alone(ours), plan.take_theirs@, path);
    lemma_alone(ours, theirs, path);
    lemma_alone(theirs, ours, path);
    let keep = contested_by(theirs);
    let met = ours.filter(keep);
    if exists|i: int| 0 <= i < meetings.len() && (#[trigger] meetings[i]).path@ == path {
        let i = choose|i: int| 0 <= i < meetings.len() && (#[trigger] meetings[i]).path@ == path;
        ours.lemma_filter_pred(keep, i);
        assert(met.contains(met[i]));
        ours.lemma_filter_contains_rev(keep, met[i]);
        let k = choose|k: int| 0 <= k < ours.len() && ours[k] == met[i];
        assert(changed(theirs, ours[k].path()));
        assert(path_of(ours[k].path()) == path);
    }
    if changed_and(ours, theirs, path, true) {
        let k = choose|k: int|
            0 <= k < ours.len() && path_of((#[trigger] ours[k]).path()) == path && (exists|j: int|
                0 <= j < theirs.len() && (#[trigger] theirs[j]).path() == ours[k].path()) == true;
        assert(keep(ours[k]));
        ours.lemma_filter_contains(keep, k);
        let i = choose|i: int| 0 <= i < met.len() && met[i] == ours[k];
        assert(meetings[i].path@ == path);
    }
}

proof fn lemma_alone(changes: Seq<FileChange>, others: Seq<FileChange>, path: Seq<u8>)
    ensures
        changed_and(changes, others, path, false) <==> exists|i: int|
            0 <= i < changes.len() && alone(others)(#[trigger] changes[i]) && path_of(
                changes[i].path(),
            ) == path,
{
    if changed_and(changes, others, path, false) {
        let i = choose|i: int|
            0 <= i < changes.len() && path_of((#[trigger] changes[i]).path()) == path && (exists|
                j: int,
            | 0 <= j < others.len() && (#[trigger] others[j]).path() == changes[i].path())
                == false;
        assert(alone(others)(changes[i]));
    }
    if exists|i: int|
        0 <= i < changes.len() && alone(others)(#[trigger] changes[i]) && path_of(changes[i].path())
            == path {
        let i = choose|i: int|
            0 <= i < changes.len() && alone(others)(#[trigger] changes[i]) && path_of(
                changes[i].path(),
            ) == path;
        assert(!changed(others, changes[i].path()));
        assert(path_of(changes[i].path()) == path);
    }
}

/// A path that both sides changed is settled by its content alone: only a clean
/// merge of two regular files is written to the tree, with the merged bytes; a
/// conflict keeps both versions in marked bytes and writes nothing; anything else
/// that differs, a file that is not regular among them, is refused.
pub proof fn law_only_clean_merges_are_written(
    before: MergePlan,
    after: MergePlan,
    meeting: Meeting,
    content: Content,
    mode: u32,
)
    requires
        settles(before, after, meeting, content, mode),
    ensures
        after.take_ours == before.take_ours,
        after.take_theirs == before.take_theirs,
        after.merged@.len() > before.merged@.len() <==> meeting.ours == FileKind::Regular
            && meeting.theirs == FileKind::Regular && (content matches Content::Blended(b) && b
            is Merged),
        after.merged@.len() > before.merged@.len() ==> after.merged@.last().path@ == meeting.path@
            && after.merged@.last().bytes@ == content->Blended_0->Merged_0@
            && after.merged@.last().mode == mode,
        after.conflicted@.len() > before.conflicted@.len() <==> meeting.ours == FileKind::Regular
            && meeting.theirs == FileKind::Regular && (content matches Content::Blended(b) && (b
            is Hunks || b is TheirsDeleted || b is OursDeleted)),
        after.conflicted@.len() > before.conflicted@.len() ==> after.conflicted@.last().path@
            == meeting.path@,
        after.refusals@.len() > before.refusals@.len() <==> !(meeting.ours == FileKind::Directory
            && meeting.theirs == FileKind::Directory) && (!(meeting.ours == FileKind::Regular
            && meeting.theirs == FileKind::Regular) || content is Unread || (content
            matches Content::Blended(b) && (b is Binary || b is TooLarge))),
        after.refusals@.len() > before.refusals@.len() ==> after.refusals@.last().path@
            == meeting.path@,
{
}

fn refuse(plan: &mut MergePlan, path: HostPath, reason: &str)
    ensures
        final(plan).take_ours == old(plan).take_ours,
        final(plan).take_theirs == old(plan).take_theirs,
        final(plan).merged == old(plan).merged,
        final(plan).conflicted == old(plan).conflicted,
        final(plan).refusals@.len() == old(plan).refusals@.len() + 1,
        final(plan).refusals@.drop_last() == old(plan).refusals@,
        final(plan).refusals@.last().path == path,
        final(plan).refusals@.last().reason@ == reason@,
{
    plan.refusals.push(MergeRefusal { path, reason: reason.to_owned() });
    assert(plan.refusals@.drop_last() =~= old(plan).refusals@);
}

fn mark(plan: &mut MergePlan, path: HostPath, bytes: Vec<u8>, mode: u32, detail: String)
    ensures
        final(plan).take_ours == old(plan).take_ours,
        final(plan).take_theirs == old(plan).take_theirs,
        final(plan).merged == old(plan).merged,
        final(plan).refusals == old(plan).refusals,
        final(plan).conflicted@.len() == old(plan).conflicted@.len() + 1,
        final(plan).conflicted@.drop_last() == old(plan).conflicted@,
        final(plan).conflicted@.last() == (ConflictedFile { path, bytes, mode, detail }),
{
    plan.conflicted.push(ConflictedFile { path, bytes, mode, detail });
    assert(plan.conflicted@.drop_last() =~= old(plan).conflicted@);
}

/// Settles a path that both sides changed; `mode` is the file's where it is
/// written.
pub fn settle(plan: &mut MergePlan, meeting: Meeting, content: Content, mode: u32)
    ensures
        settles(*old(plan), *final(plan), meeting, content, mode),
{
    let regular = meeting.ours == FileKind::Regular && meeting.theirs == FileKind::Regular;
    if meeting.ours == FileKind::Directory && meeting.theirs == FileKind::Directory {
        return;
    }
    if !regular {
        refuse(plan, meeting.path, "changed on both sides and not a regular file");
        return;
    }
    match content {
        Content::Unread => refuse(plan, meeting.path, "changed on both sides and not read"),
        Content::Same => {},
        Content::Blended(blend) => match blend {
            Blend::Merged(bytes) => {
                plan.merged.push(MergedFile { path: meeting.path, bytes, mode });
                assert(plan.merged@.drop_last() =~= old(plan).merged@);
            },
            Blend::Hunks { bytes, hunks } => {
                let mut detail = String::new();
                push_nat(&mut detail, hunks as u64);
                detail.append(" conflicting hunk(s)");
                proof {
                    assert(Seq::<char>::empty() + decimal_nat(hunks as nat) =~= decimal_nat(
                        hunks as nat,
                    ));
                }
                mark(plan, meeting.path, bytes, mode, detail);
            },
            Blend::TheirsDeleted(bytes) => {
                let detail = "modified in the fork, deleted on the mainline".to_owned();
                mark(plan, meeting.path, bytes, mode, detail);
            },
            Blend::OursDeleted(bytes) => {
                let detail = "deleted in the fork, modified on the mainline".to_owned();
                mark(plan, meeting.path, bytes, mode, detail);
            },
            Blend::Binary => refuse(plan, meeting.path, "binary file changed on both sides"),
            Blend::TooLarge => refuse(plan, meeting.path, "too large to merge"),
        },
    }
}

} // verus!
