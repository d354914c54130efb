//! Landing a fork in the real tree.
//!
//! The fork's paths are merged onto the current head and written onto the tree
//! one path at a time; the repository's directory is never replaced. A content
//! conflict rebases the fork, with markers, and lands nothing; a refusal names
//! the paths and leaves everything untouched. [`Promotion`] says what to do
//! next; the caller performs it on the snapshot engine and reports back.
use vstd::prelude::*;
use vstd::utf8::*;
use crate::diff::{changes_in_order, content_changes, content_of, content_only, FileChange};
use crate::digest::{generation_hex, hex_of, GenerationId};
use crate::fork::{forks_below, forks_mount_root};
use crate::index::CheckpointKind;
use crate::merge::{
    are_roots, is_unresolved, kept_paths, path_bytes, real_conflicts, real_refusals, subtree_roots,
    unresolved_content, ConflictedFile, MergePlan, MergeRefusal,
};
use crate::path::{joined, lossy_text, path_from, HostPath};
use crate::product::NAME;
use crate::proto::ConflictEntry;
use crate::sorting::{is_text_order, text_order};
use crate::text::{copy_texts, decimal_nat, join_texts, joined_texts, push_nat, texts};
use crate::vecs::{count, count_of};

verus! {

/// What is to be done next.
#[derive(Clone, Copy, Debug, PartialEq, Eq, Structural)]
pub enum Stage {
    /// A copied fork: open an overlay pinned at the base and read the copy
    /// into it.
    OpenScratch,
    CaptureCopy,
    /// A fork with an open conflict: say whether anything was written since,
    /// snapshot it and read the conflicting paths.
    ConflictPending,
    ConflictSnapshot,
    ConflictRead,
    /// Publish the mainline and say what its head is.
    PublishHead,
    /// Say whether the fork has changes; snapshot it; plan the merge; say
    /// which contested paths the repository ignores.
    Pending,
    Snapshot,
    Plan,
    Ignored,
    /// Build the head with the fork's paths and the merged files.
    BuildMerged,
    /// Conflict: build it with the marked files too, record it, and make the
    /// fork's workspace equal to it.
    BuildRebased,
    RecordRebased,
    DiffRebased,
    RestoreInto(usize),
    MaterializeRoots,
    /// Record what will land, then the tree as it is.
    RecordMerged,
    Safety,
    /// Write the path of a number onto the tree.
    Landing(usize),
    /// Record the tree as it now is, and publish.
    LandedCheckpoint,
    RecordLanded,
    Commit,
    Finished,
}

/// The content of a path, where there is any.
#[derive(Debug)]
pub struct FileContent {
    pub path: HostPath,
    pub bytes: Option<Vec<u8>>,
}

/// What came of it.
#[derive(Debug)]
pub enum Event {
    Done,
    Pending(bool),
    Generation(GenerationId),
    Files(Vec<FileContent>),
    Plan(MergePlan),
    Ignored(Vec<HostPath>),
    Changes(Vec<FileChange>),
    Checkpoint(GenerationId, CheckpointKind),
    Failed(String),
}

/// How a fork ended up.
#[derive(Debug)]
pub enum Landed {
    /// Written path by path onto the current head. `merged` of the paths come
    /// from a content merge; `moved` says whether the mainline had moved past
    /// the fork's base.
    Replayed { generation: GenerationId, paths: u32, merged: u32, kept: Vec<String>, moved: bool },
    /// No content changes to land.
    Nothing { generation: GenerationId, kept: Vec<String> },
    /// Nothing landed: the fork was rebased onto `theirs` and `files` carry
    /// markers in its workspace.
    Conflicted {
        theirs: GenerationId,
        ours: GenerationId,
        files: Vec<ConflictEntry>,
        kept: Vec<String>,
    },
}

/// A promotion under way.
#[derive(Debug)]
pub struct Promotion {
    pub repo_root: HostPath,
    pub id: String,
    /// The generation that the fork is judged against.
    pub base: GenerationId,
    /// The directory of a copied fork.
    pub copy_dir: Option<HostPath>,
    /// The paths of an open conflict.
    pub conflict: Option<Vec<HostPath>>,
    pub stage: Stage,
    pub head: GenerationId,
    pub snapshot: GenerationId,
    pub plan: MergePlan,
    pub kept: Vec<String>,
    pub merged: GenerationId,
    pub rebased: GenerationId,
    pub roots: Vec<Vec<Vec<u8>>>,
    pub landed: GenerationId,
}

impl Promotion {
    /// Whether the mainline has moved past the fork's base.
    pub open spec fn moved(&self) -> bool {
        self.head != self.base
    }

    /// What holds between two steps. In particular the tree is written only
    /// when the plan holds neither refusals nor conflicts.
    pub open spec fn wf(&self) -> bool {
        &&& self.stage == Stage::OpenScratch || self.stage == Stage::CaptureCopy
            ==> self.copy_dir is Some
        &&& in_conflict(self.stage) ==> self.conflict is Some
        &&& past_plan(self.stage) ==> self.plan.refusals@.len() == 0 && self.plan.landing()
            <= usize::MAX
        &&& past_plan(self.stage) && self.plan.conflicted@.len() > 0 ==> self.moved()
        &&& rebasing(self.stage) ==> self.plan.conflicted@.len() > 0 && self.moved()
        &&& writing(self.stage) ==> self.plan.conflicted@.len() == 0
        &&& self.stage matches Stage::RestoreInto(i) ==> i < self.roots@.len() && self.copy_dir
            is Some
        &&& self.stage matches Stage::Landing(i) ==> i < self.plan.landing()
    }
}

/// Whether a stage looks into an open conflict.
pub open spec fn in_conflict(stage: Stage) -> bool {
    stage == Stage::ConflictPending || stage == Stage::ConflictSnapshot || stage
        == Stage::ConflictRead
}

/// Whether the plan has been accepted at a stage.
pub open spec fn past_plan(stage: Stage) -> bool {
    stage == Stage::BuildMerged || rebasing(stage) || writing(stage)
}

/// Whether the fork is being rebased at a stage.
pub open spec fn rebasing(stage: Stage) -> bool {
    match stage {
        Stage::BuildRebased => true,
        Stage::RecordRebased => true,
        Stage::DiffRebased => true,
        Stage::RestoreInto(_) => true,
        Stage::MaterializeRoots => true,
        _ => false,
    }
}

/// Whether the tree is about to be written at a stage, or has been.
pub open spec fn writing(stage: Stage) -> bool {
    match stage {
        Stage::RecordMerged => true,
        Stage::Safety => true,
        Stage::Landing(_) => true,
        Stage::LandedCheckpoint => true,
        Stage::RecordLanded => true,
        Stage::Commit => true,
        _ => false,
    }
}

/// The first twelve digits of a generation.
pub open spec fn short_hex(generation: GenerationId) -> Seq<char> {
    hex_of(generation@).take(12)
}

fn short_generation(generation: GenerationId) -> (r: String)
    ensures
        r@ == short_hex(generation),
{
    let hex = generation_hex(generation);
    assert(hex@.len() == 64);
    let r = hex.as_str().substring_char(0, 12).to_owned();
    assert(r@ =~= hex_of(generation@).take(12));
    r
}

/// What a rebased fork is recorded as.
pub open spec fn rebased_text(p: Promotion) -> Seq<char> {
    "fork "@ + p.id@ + " rebased onto "@ + short_hex(p.head) + " ("@ + decimal_nat(
        p.plan.conflicted@.len(),
    ) + " conflict(s))"@
}

/// What the tree that will land is recorded as.
pub open spec fn merged_text(p: Promotion) -> Seq<char> {
    if p.moved() {
        "fork "@ + p.id@ + " merge ("@ + decimal_nat(p.plan.merged@.len()) + " merged, "@
            + decimal_nat(p.plan.take_ours@.len()) + " replayed)"@
    } else {
        "fork "@ + p.id@ + " snapshot ("@ + decimal_nat(p.plan.take_ours@.len()) + " paths)"@
    }
}

/// What the tree before landing is recorded as.
pub open spec fn safety_text(p: Promotion) -> Seq<char> {
    if p.moved() {
        "before promote fork "@ + p.id@ + " (merge)"@
    } else {
        "before promote fork "@ + p.id@
    }
}

/// What the landed tree is recorded as.
pub open spec fn landed_text(p: Promotion) -> Seq<char> {
    if p.moved() {
        "promote fork "@ + p.id@ + " (merged "@ + decimal_nat(p.plan.merged@.len())
            + " file(s), replayed "@ + decimal_nat(p.plan.landing())
            + " path(s) onto moved mainline)"@
    } else {
        "promote fork "@ + p.id@ + " ("@ + decimal_nat(p.plan.landing())
            + " path(s) written in place)"@
    }
}

/// What is said when writing a path onto the tree fails.
pub open spec fn stopped_text(p: Promotion, i: int, error: Seq<char>) -> Seq<char> {
    "merge stopped at "@ + lossy_text(p.plan.landing_path(i)) + " after "@ + decimal_nat(i as nat)
        + " path(s): "@ + error + ". The tree is partially merged; `"@ + NAME@
        + " rewind <id>` of the `before promote ... (merge)` row in `"@ + NAME@
        + " timeline` returns to the pre-merge tree"@
}

/// What is said of paths whose markers are still there.
pub open spec fn unresolved_text(paths: Seq<Seq<char>>) -> Seq<char> {
    "unresolved conflict markers in: "@ + joined_texts(paths, ", "@)
        + ". Resolve every <<<<<<< / ||||||| / ======= / >>>>>>> block in the fork (or delete the file) and promote again"@
}

/// Paths as they are shown.
pub open spec fn shown(paths: Seq<Seq<u8>>) -> Seq<Seq<char>> {
    paths.map_values(|p: Seq<u8>| lossy_text(p))
}

/// The line that says why a path cannot be merged.
pub open spec fn refusal_line(r: MergeRefusal) -> Seq<char> {
    "  "@ + lossy_text(r.path@) + ": "@ + r.reason@
}

/// A list taken in an order.
pub open spec fn arranged(lines: Seq<String>, order: Seq<usize>) -> Seq<Seq<char>> {
    order.map_values(|i: usize| lines[i as int]@)
}

/// Whether a text says why paths cannot be merged, one line each, in order.
pub open spec fn is_refusal_text(base: GenerationId, refusals: Seq<MergeRefusal>, text: Seq<char>) -> bool {
    exists|lines: Seq<String>, order: Seq<usize>|
        #![trigger is_text_order(lines, order)]
        {
            &&& texts(lines) == refusals.map_values(|r: MergeRefusal| refusal_line(r))
            &&& is_text_order(lines, order)
            &&& text == "the working tree moved past the fork's base ("@ + hex_of(base@) + ") and "@
                + decimal_nat(refusals.len()) + " path(s) cannot be merged:\n"@ + joined_texts(
                arranged(lines, order),
                "\n"@,
            )
                + "\nOne fork must own those paths: re-fork from the current tree and redo that part, or rewind to the base. The fork is untouched"@
        }
}

/// Whether entries are those of conflicting files, taken in an order of their
/// paths.
pub open spec fn entries_by(
    files: Seq<ConflictedFile>,
    entries: Seq<ConflictEntry>,
    keys: Seq<String>,
    order: Seq<usize>,
) -> bool {
    &&& texts(keys) == files.map_values(|f: ConflictedFile| lossy_text(f.path@))
    &&& entries.len() == files.len()
    &&& forall|i: int|
        0 <= i < entries.len() ==> (#[trigger] entries[i]).path@ == keys[order[i] as int]@
            && entries[i].detail == files[order[i] as int].detail
}

/// Whether entries are those of conflicting files, in the order of their paths.
pub open spec fn are_conflict_entries(files: Seq<ConflictedFile>, entries: Seq<ConflictEntry>) -> bool {
    exists|keys: Seq<String>, order: Seq<usize>| #[trigger]
        is_text_order(keys, order) && entries_by(files, entries, keys, order)
}

/// The paths of contents whose markers are still there.
pub open spec fn unresolved_paths(files: Seq<FileContent>) -> Seq<Seq<u8>> {
    files.filter(|f: FileContent| unresolved_content(f.bytes)).map_values(|f: FileContent| f.path@)
}

/// The stage that follows once the fork's overlay is at hand.
pub open spec fn after_overlay(p: Promotion) -> Stage {
    if p.conflict is Some { Stage::ConflictPending } else { Stage::PublishHead }
}

/// Whether a promotion has just begun.
pub open spec fn begins_at(p: Promotion) -> bool {
    p.stage == if p.copy_dir is Some { Stage::OpenScratch } else { after_overlay(p) }
}

/// The stage that writes the path of a number, or what comes after the last.
pub open spec fn after_landing(p: Promotion, i: int) -> Stage {
    if i < p.plan.landing() { Stage::Landing(i as usize) } else { Stage::LandedCheckpoint }
}

/// Whether a promotion is another one but for its stage and what it has
/// learnt.
pub open spec fn same_fork(p: Promotion, q: Promotion) -> bool {
    &&& q.repo_root == p.repo_root
    &&& q.id == p.id
    &&& q.base == p.base
    &&& q.copy_dir == p.copy_dir
    &&& q.conflict == p.conflict
}

/// Whether the outcome is that the fork was rebased with markers.
pub open spec fn is_conflicted(p: Promotion, result: Result<Option<Landed>, String>) -> bool {
    result matches Ok(Some(Landed::Conflicted { theirs, ours, files, kept })) && {
        &&& theirs == p.head
        &&& ours == p.snapshot
        &&& are_conflict_entries(p.plan.conflicted@, files@)
        &&& kept@ == p.kept@
    }
}

/// Whether a result is that nothing lands.
pub open spec fn is_nothing(p: Promotion, kept: Seq<String>, result: Result<Option<Landed>, String>) -> bool {
    result matches Ok(Some(Landed::Nothing { generation, kept: k })) && generation == p.head && k@
        == kept
}

/// What an event makes of a promotion: how it goes on, or how it ends.
pub open spec fn promoted(
    p: Promotion,
    event: Event,
    q: Promotion,
    result: Result<Option<Landed>, String>,
) -> bool {
    let go = |stage: Stage| result == Ok::<Option<Landed>, String>(None) && q.stage == stage;
    &&& same_fork(p, q)
    &&& match (p.stage, event) {
        (Stage::Landing(i), Event::Failed(text)) => result matches Err(message) && message@
            == stopped_text(p, i as int, text@),
        (_, Event::Failed(text)) => result == Err::<Option<Landed>, String>(text),
        (Stage::OpenScratch, Event::Done) => go(Stage::CaptureCopy) && q.plan == p.plan,
        (Stage::CaptureCopy, Event::Done) => go(after_overlay(p)),
        (Stage::ConflictPending, Event::Pending(pending)) => if pending {
            go(Stage::ConflictSnapshot)
        } else {
            result matches Err(message) && message@ == unresolved_text(
                shown(path_bytes(p.conflict->0@)),
            )
        },
        (Stage::ConflictSnapshot, Event::Generation(generation)) => go(Stage::ConflictRead)
            && q.snapshot == generation,
        (Stage::ConflictRead, Event::Files(files)) => if unresolved_paths(files@).len() == 0 {
            go(Stage::PublishHead)
        } else {
            result matches Err(message) && message@ == unresolved_text(
                shown(unresolved_paths(files@)),
            )
        },
        (Stage::PublishHead, Event::Generation(generation)) => go(Stage::Pending) && q.head
            == generation,
        (Stage::Pending, Event::Pending(pending)) => if pending {
            go(Stage::Snapshot) && q.head == p.head
        } else {
            is_nothing(p, Seq::empty(), result)
        },
        (Stage::Snapshot, Event::Generation(generation)) => go(Stage::Plan) && q.snapshot
            == generation && q.head == p.head,
        (Stage::Plan, Event::Plan(plan)) => go(Stage::Ignored) && q.plan == plan && q.head == p.head
            && q.snapshot == p.snapshot,
        (Stage::Ignored, Event::Ignored(ignored)) => {
            let refusals = real_refusals(p.plan.refusals@, ignored@);
            let conflicts = real_conflicts(p.plan.conflicted@, ignored@);
            &&& q.head == p.head
            &&& q.snapshot == p.snapshot
            &&& q.plan.take_ours == p.plan.take_ours
            &&& q.plan.merged == p.plan.merged
            &&& q.plan.refusals@ == refusals
            &&& q.plan.conflicted@ == conflicts
            &&& texts(q.kept@) == shown(kept_paths(p.plan, ignored@))
            &&& if refusals.len() > 0 {
                result matches Err(message) && is_refusal_text(p.base, refusals, message@)
            } else if !p.moved() && conflicts.len() > 0 {
                result matches Err(message) && message@
                    == "internal: conflicts against an unmoved mainline"@
            } else if q.plan.nothing_lands() {
                is_nothing(p, q.kept@, result)
            } else if q.plan.landing() > usize::MAX {
                result matches Err(message) && message@ == "too many paths to land"@
            } else {
                go(Stage::BuildMerged)
            }
        },
        (Stage::BuildMerged, Event::Generation(generation)) => {
            &&& q == (Promotion { stage: q.stage, merged: generation, ..p })
            &&& go(if p.plan.conflicted@.len() > 0 {
                Stage::BuildRebased
            } else {
                Stage::RecordMerged
            })
        },
        (Stage::BuildRebased, Event::Generation(generation)) => go(Stage::RecordRebased) && q == (
        Promotion { stage: q.stage, rebased: generation, ..p }),
        (Stage::RecordRebased, Event::Done) => go(Stage::DiffRebased) && q == (Promotion {
            stage: q.stage,
            ..p
        }),
        (Stage::DiffRebased, Event::Changes(changes)) => {
            &&& q == (Promotion { stage: q.stage, roots: q.roots, ..p })
            &&& are_roots(
                content_of(changes@),
                q.roots@,
            )
            &&& if p.copy_dir is Some {
                if q.roots@.len() > 0 {
                    go(Stage::RestoreInto(0))
                } else {
                    is_conflicted(p, result)
                }
            } else {
                go(Stage::MaterializeRoots)
            }
        },
        (Stage::RestoreInto(i), Event::Done) => {
            &&& q == (Promotion { stage: q.stage, ..p })
            &&& if i + 1 < p.roots@.len() {
                go(Stage::RestoreInto((i + 1) as usize))
            } else {
                is_conflicted(p, result)
            }
        },
        (Stage::MaterializeRoots, Event::Done) => is_conflicted(p, result),
        (Stage::RecordMerged, Event::Done) => go(Stage::Safety) && q == (Promotion {
            stage: q.stage,
            ..p
        }),
        (Stage::Safety, Event::Checkpoint(_, _)) => go(after_landing(p, 0)) && q == (Promotion {
            stage: q.stage,
            ..p
        }),
        (Stage::Landing(i), Event::Done) => go(after_landing(p, i + 1)) && q == (Promotion {
            stage: q.stage,
            ..p
        }),
        (Stage::LandedCheckpoint, Event::Checkpoint(generation, kind)) => {
            &&& q == (Promotion { stage: q.stage, landed: generation, ..p })
            &&& go(if kind == CheckpointKind::Noop { Stage::RecordLanded } else { Stage::Commit })
        },
        (Stage::RecordLanded, Event::Done) => go(Stage::Commit) && q == (Promotion {
            stage: q.stage,
            ..p
        }),
        (Stage::Commit, Event::Done) => result matches Ok(
            Some(Landed::Replayed { generation, paths, merged, kept, moved }),
        ) && {
            &&& generation == p.landed
            &&& paths == count_of(p.plan.landing())
            &&& merged == count_of(p.plan.merged@.len())
            &&& kept@ == p.kept@
            &&& moved == p.moved()
        },
        _ => result matches Err(message) && message@ == "unexpected answer while promoting"@,
    }
}

/// Paths as they are shown.
fn show_paths(paths: &Vec<HostPath>) -> (r: Vec<String>)
    ensures
        texts(r@) == shown(path_bytes(paths@)),
{
    let mut out: Vec<String> = Vec::new();
    let mut i: usize = 0;
    while i < paths.len()
        invariant
            i <= paths@.len(),
            texts(out@) =~= shown(path_bytes(paths@.take(i as int))),
        decreases paths.len() - i,
    {
        let ghost before = out@;
        let text = paths[i].display();
        out.push(text);
        i += 1;
        assert(texts(out@) =~= texts(before).push(lossy_text(paths@[i - 1]@)));
        assert(shown(path_bytes(paths@.take(i as int))) =~= shown(
            path_bytes(paths@.take(i - 1)),
        ).push(lossy_text(paths@[i - 1]@)));
    }
    assert(paths@.take(i as int) =~= paths@);
    out
}

/// What is said of paths whose markers are still there.
pub fn unresolved_message(paths: &Vec<HostPath>) -> (r: String)
    ensures
        r@ == unresolved_text(shown(path_bytes(paths@))),
{
    let shown_paths = show_paths(paths);
    let mut out = "unresolved conflict markers in: ".to_owned();
    out.append(join_texts(&shown_paths, ", ").as_str());
    out.append(
        ". Resolve every <<<<<<< / ||||||| / ======= / >>>>>>> block in the fork (or delete the file) and promote again",
    );
    out
}

/// The paths of contents whose markers are still there.
fn unresolved(files: &Vec<FileContent>) -> (r: Vec<HostPath>)
    ensures
        path_bytes(r@) == unresolved_paths(files@),
{
    let mut out: Vec<HostPath> = Vec::new();
    let mut i: usize = 0;
    let ghost open = |f: FileContent| unresolved_content(f.bytes);
    let ghost path = |f: FileContent| f.path@;
    proof {
        reveal(Seq::filter);
        assert(files@.take(0).filter(open) =~= Seq::<FileContent>::empty());
    }
    while i < files.len()
        invariant
            i <= files@.len(),
            open == (|f: FileContent| unresolved_content(f.bytes)),
            path == (|f: FileContent| f.path@),
            path_bytes(out@) =~= files@.take(i as int).filter(open).map_values(path),
        decreases files.len() - i,
    {
        let ghost before = out@;
        proof {
            reveal(Seq::filter);
            assert(files@.take(i + 1).drop_last() =~= files@.take(i as int));
            assert(files@.take(i + 1).last() == files@[i as int]);
        }
        if is_unresolved(&files[i].bytes) {
            out.push(files[i].path.clone());
            assert(path_bytes(out@) =~= path_bytes(before).push(files@[i as int].path@));
            assert(files@.take(i + 1).filter(open).map_values(path) =~= files@.take(
                i as int,
            ).filter(open).map_values(path).push(files@[i as int].path@));
        }
        i += 1;
    }
    assert(files@.take(i as int) =~= files@);
    out
}

/// Texts taken in an order.
fn arrange(lines: &Vec<String>, order: &Vec<usize>) -> (r: Vec<String>)
    requires
        forall|i: int| 0 <= i < order@.len() ==> (#[trigger] order@[i]) < lines@.len(),
    ensures
        texts(r@) == arranged(lines@, order@),
{
    let mut out: Vec<String> = Vec::new();
    let mut i: usize = 0;
    while i < order.len()
        invariant
            i <= order@.len(),
            forall|j: int| 0 <= j < order@.len() ==> (#[trigger] order@[j]) < lines@.len(),
            texts(out@) =~= arranged(lines@, order@.take(i as int)),
        decreases order.len() - i,
    {
        let ghost before = out@;
        out.push(lines[order[i]].clone());
        i += 1;
        assert(texts(out@) =~= texts(before).push(lines@[order@[i - 1] as int]@));
        assert(arranged(lines@, order@.take(i as int)) =~= arranged(
            lines@,
            order@.take(i - 1),
        ).push(lines@[order@[i - 1] as int]@));
    }
    assert(order@.take(i as int) =~= order@);
    out
}

/// Says why paths cannot be merged.
fn refusal_message(base: GenerationId, refusals: &Vec<MergeRefusal>) -> (r: String)
    ensures
        is_refusal_text(base, refusals@, r@),
{
    let mut lines: Vec<String> = Vec::new();
    let mut i: usize = 0;
    while i < refusals.len()
        invariant
            i <= refusals@.len(),
            texts(lines@) =~= refusals@.take(i as int).map_values(
                |r: MergeRefusal| refusal_line(r),
            ),
        decreases refusals.len() - i,
    {
        let mut line = "  ".to_owned();
        line.append(refusals[i].path.display().as_str());
        line.append(": ");
        line.append(refusals[i].reason.as_str());
        let ghost before = lines@;
        lines.push(line);
        i += 1;
        assert(texts(lines@) =~= texts(before).push(refusal_line(refusals@[i - 1])));
    }
    assert(refusals@.take(i as int) =~= refusals@);
    let order = text_order(&lines);
    let sorted = arrange(&lines, &order);
    let mut out = "the working tree moved past the fork's base (".to_owned();
    out.append(generation_hex(base).as_str());
    out.append(") and ");
    push_nat(&mut out, refusals.len() as u64);
    out.append(" path(s) cannot be merged:\n");
    out.append(join_texts(&sorted, "\n").as_str());
    out.append(
        "\nOne fork must own those paths: re-fork from the current tree and redo that part, or rewind to the base. The fork is untouched",
    );
    assert(is_text_order(lines@, order@));
    out
}

/// The entries of conflicting files, in the order of their paths.
fn conflict_entries(files: &Vec<ConflictedFile>) -> (r: Vec<ConflictEntry>)
    ensures
        are_conflict_entries(files@, r@),
{
    let mut keys: Vec<String> = Vec::new();
    let mut i: usize = 0;
    while i < files.len()
        invariant
            i <= files@.len(),
            texts(keys@) =~= files@.take(i as int).map_values(
                |f: ConflictedFile| lossy_text(f.path@),
            ),
        decreases files.len() - i,
    {
        let ghost before = keys@;
        keys.push(files[i].path.display());
        i += 1;
        assert(texts(keys@) =~= texts(before).push(lossy_text(files@[i - 1].path@)));
    }
    assert(files@.take(i as int) =~= files@);
    assert(texts(keys@).len() == keys@.len());
    let order = text_order(&keys);
    let mut out: Vec<ConflictEntry> = Vec::new();
    let mut k: usize = 0;
    while k < order.len()
        invariant
            k <= order@.len() == files@.len() == keys@.len(),
            is_text_order(keys@, order@),
            out@.len() == k,
            forall|j: int|
                0 <= j < k ==> (#[trigger] out@[j]).path@ == keys@[order@[j] as int]@
                    && out@[j].detail == files@[order@[j] as int].detail,
        decreases order.len() - k,
    {
        let at: usize = order[k];
        out.push(ConflictEntry { path: keys[at].clone(), detail: files[at].detail.clone() });
        k += 1;
    }
    assert(is_text_order(keys@, order@));
    out
}

/// Leaving out changes keeps the rest in order.
proof fn lemma_filter_in_order(changes: Seq<FileChange>, keep: spec_fn(FileChange) -> bool)
    requires
        changes_in_order(changes),
    ensures
        changes_in_order(changes.filter(keep)),
        forall|i: int|
            0 <= i < changes.filter(keep).len() ==> changes.contains(
                #[trigger] changes.filter(keep)[i],
            ),
    decreases changes.len(),
{
    reveal(Seq::filter);
    if changes.len() > 0 {
        let rest = changes.drop_last();
        assert(changes_in_order(rest)) by {
            assert forall|i: int, j: int| 0 <= i < j < rest.len() implies crate::order::path_lt(
                (#[trigger] rest[i]).path(),
                (#[trigger] rest[j]).path(),
            ) by {
                assert(crate::order::path_lt(changes[i].path(), changes[j].path()));
            }
        }
        lemma_filter_in_order(rest, keep);
        let last = changes.last();
        let less = rest.filter(keep);
        let kept = changes.filter(keep);
        assert(kept == if keep(last) { less.push(last) } else { less });
        assert forall|i: int| 0 <= i < kept.len() implies changes.contains(#[trigger] kept[i]) by {
            if i < less.len() {
                assert(rest.contains(less[i]));
                let k = choose|k: int| 0 <= k < rest.len() && rest[k] == less[i];
                assert(changes[k] == kept[i]);
            } else {
                assert(changes[changes.len() - 1] == kept[i]);
            }
        }
        assert forall|i: int, j: int| 0 <= i < j < kept.len() implies crate::order::path_lt(
            (#[trigger] kept[i]).path(),
            (#[trigger] kept[j]).path(),
        ) by {
            assert(kept[i] == less[i]);
            if j < less.len() {
                assert(kept[j] == less[j]);
            } else {
                assert(rest.contains(less[i]));
                let k = choose|k: int| 0 <= k < rest.len() && rest[k] == less[i];
                assert(changes[k] == less[i]);
                assert(crate::order::path_lt(
                    changes[k].path(),
                    changes[changes.len() - 1].path(),
                ));
            }
        }
    }
}

impl Promotion {
    /// Starts to promote a fork.
    pub fn begin(
        repo_root: HostPath,
        id: String,
        base: GenerationId,
        copy_dir: Option<HostPath>,
        conflict: Option<Vec<HostPath>>,
    ) -> (r: Promotion)
        ensures
            r.wf(),
            r.repo_root == repo_root,
            r.id == id,
            r.base == base,
            r.copy_dir == copy_dir,
            r.conflict == conflict,
            begins_at(r),
            r.stage == if copy_dir is Some { Stage::OpenScratch } else { after_overlay(r) },
    {
        let stage = if copy_dir.is_some() {
            Stage::OpenScratch
        } else if conflict.is_some() {
            Stage::ConflictPending
        } else {
            Stage::PublishHead
        };
        Promotion {
            repo_root,
            id,
            base,
            copy_dir,
            conflict,
            stage,
            head: base,
            snapshot: base,
            plan: MergePlan::empty(),
            kept: Vec::new(),
            merged: base,
            rebased: base,
            roots: Vec::new(),
            landed: base,
        }
    }

    fn go(&mut self, stage: Stage) -> (r: Result<Option<Landed>, String>)
        ensures
            r == Ok::<Option<Landed>, String>(None),
            *final(self) == (Promotion { stage, ..*old(self) }),
    {
        self.stage = stage;
        Ok(None)
    }

    fn conflicted(&mut self) -> (r: Result<Option<Landed>, String>)
        ensures
            is_conflicted(*old(self), r),
            *final(self) == (Promotion { stage: Stage::Finished, ..*old(self) }),
    {
        let files = conflict_entries(&self.plan.conflicted);
        let kept = copy_texts(&self.kept);
        self.stage = Stage::Finished;
        Ok(
            Some(
                Landed::Conflicted { theirs: self.head, ours: self.snapshot, files, kept },
            ),
        )
    }

    fn sort_out_plan(&mut self, ignored: Vec<HostPath>) -> (r: Result<Option<Landed>, String>)
        requires
            old(self).wf(),
            old(self).stage == Stage::Ignored,
        ensures
            final(self).wf(),
            promoted(*old(self), Event::Ignored(ignored), *final(self), r),
    {
        let kept = self.plan.keep_mainline_for(&ignored);
        self.kept = show_paths(&kept);
        if self.plan.refusals.len() > 0 {
            return Err(refusal_message(self.base, &self.plan.refusals));
        }
        let moved = !self.head.same(&self.base);
        if !moved && self.plan.conflicted.len() > 0 {
            return Err("internal: conflicts against an unmoved mainline".to_owned());
        }
        if self.plan.lands_nothing() {
            let kept = copy_texts(&self.kept);
            self.stage = Stage::Finished;
            return Ok(Some(Landed::Nothing { generation: self.head, kept }));
        }
        match self.plan.landing_count() {
            None => Err("too many paths to land".to_owned()),
            Some(_) => self.go(Stage::BuildMerged),
        }
    }

    fn find_roots(&mut self, changes: Vec<FileChange>) -> (r: Result<Option<Landed>, String>)
        requires
            old(self).wf(),
            old(self).stage == Stage::DiffRebased,
            changes_in_order(changes@),
        ensures
            final(self).wf(),
            promoted(*old(self), Event::Changes(changes), *final(self), r),
    {
        proof {
            lemma_filter_in_order(changes@, content_only());
        }
        let content = content_changes(changes);
        self.roots = subtree_roots(&content);
        if self.copy_dir.is_some() {
            if self.roots.len() > 0 {
                self.go(Stage::RestoreInto(0))
            } else {
                self.conflicted()
            }
        } else {
            self.go(Stage::MaterializeRoots)
        }
    }

    /// Takes what came of the last step. The promotion goes on, or ends with
    /// how the fork landed, or with why it did not.
    pub fn advance(&mut self, event: Event) -> (r: Result<Option<Landed>, String>)
        requires
            old(self).wf(),
            event matches Event::Changes(changes) ==> changes_in_order(changes@),
        ensures
            final(self).wf(),
            promoted(*old(self), event, *final(self), r),
    {
        match (self.stage, event) {
            (Stage::Landing(i), Event::Failed(text)) => {
                let path = self.plan.path_to_land(i).display();
                let mut message = "merge stopped at ".to_owned();
                message.append(path.as_str());
                message.append(" after ");
                push_nat(&mut message, i as u64);
                message.append(" path(s): ");
                message.append(text.as_str());
                message.append(". The tree is partially merged; `");
                message.append(NAME);
                message.append(" rewind <id>` of the `before promote ... (merge)` row in `");
                message.append(NAME);
                message.append(" timeline` returns to the pre-merge tree");
                Err(message)
            },
            (_, Event::Failed(text)) => Err(text),
            (Stage::OpenScratch, Event::Done) => self.go(Stage::CaptureCopy),
            (Stage::CaptureCopy, Event::Done) => {
                let stage = if self.conflict.is_some() {
                    Stage::ConflictPending
                } else {
                    Stage::PublishHead
                };
                self.go(stage)
            },
            (Stage::ConflictPending, Event::Pending(pending)) => {
                if pending {
                    return self.go(Stage::ConflictSnapshot);
                }
                match &self.conflict {
                    Some(paths) => Err(unresolved_message(paths)),
                    None => Err("unexpected answer while promoting".to_owned()),
                }
            },
            (Stage::ConflictSnapshot, Event::Generation(generation)) => {
                self.snapshot = generation;
                self.go(Stage::ConflictRead)
            },
            (Stage::ConflictRead, Event::Files(files)) => {
                let open = unresolved(&files);
                assert(path_bytes(open@).len() == open@.len());
                if open.len() == 0 {
                    self.go(Stage::PublishHead)
                } else {
                    Err(unresolved_message(&open))
                }
            },
            (Stage::PublishHead, Event::Generation(generation)) => {
                self.head = generation;
                self.go(Stage::Pending)
            },
            (Stage::Pending, Event::Pending(pending)) => {
                if pending {
                    self.go(Stage::Snapshot)
                } else {
                    self.stage = Stage::Finished;
                    Ok(Some(Landed::Nothing { generation: self.head, kept: Vec::new() }))
                }
            },
            (Stage::Snapshot, Event::Generation(generation)) => {
                self.snapshot = generation;
                self.go(Stage::Plan)
            },
            (Stage::Plan, Event::Plan(plan)) => {
                self.plan = plan;
                self.go(Stage::Ignored)
            },
            (Stage::Ignored, Event::Ignored(ignored)) => self.sort_out_plan(ignored),
            (Stage::BuildMerged, Event::Generation(generation)) => {
                self.merged = generation;
                if self.plan.conflicted.len() > 0 {
                    self.go(Stage::BuildRebased)
                } else {
                    self.go(Stage::RecordMerged)
                }
            },
            (Stage::BuildRebased, Event::Generation(generation)) => {
                self.rebased = generation;
                self.go(Stage::RecordRebased)
            },
            (Stage::RecordRebased, Event::Done) => self.go(Stage::DiffRebased),
            (Stage::DiffRebased, Event::Changes(changes)) => self.find_roots(changes),
            (Stage::RestoreInto(i), Event::Done) => {
                if i < self.roots.len() - 1 {
                    self.go(Stage::RestoreInto(i + 1))
                } else {
                    self.conflicted()
                }
            },
            (Stage::MaterializeRoots, Event::Done) => self.conflicted(),
            (Stage::RecordMerged, Event::Done) => self.go(Stage::Safety),
            (Stage::Safety, Event::Checkpoint(_, _)) => self.land(0),
            (Stage::Landing(i), Event::Done) => self.land(i + 1),
            (Stage::LandedCheckpoint, Event::Checkpoint(generation, kind)) => {
                self.landed = generation;
                if kind == CheckpointKind::Noop {
                    self.go(Stage::RecordLanded)
                } else {
                    self.go(Stage::Commit)
                }
            },
            (Stage::RecordLanded, Event::Done) => self.go(Stage::Commit),
            (Stage::Commit, Event::Done) => {
                let kept = copy_texts(&self.kept);
                let paths: u32 = match self.plan.landing_count() {
                    Some(n) => count(n),
                    None => 0xffff_ffff,
                };
                let merged: u32 = count(self.plan.merged.len());
                let moved = !self.head.same(&self.base);
                self.stage = Stage::Finished;
                Ok(Some(Landed::Replayed { generation: self.landed, paths, merged, kept, moved }))
            },
            _ => Err("unexpected answer while promoting".to_owned()),
        }
    }

    /// Turns to the path of a number, or to what comes after the last.
    fn land(&mut self, i: usize) -> (r: Result<Option<Landed>, String>)
        requires
            i <= old(self).plan.landing() <= usize::MAX,
        ensures
            r == Ok::<Option<Landed>, String>(None),
            *final(self) == (Promotion {
                stage: after_landing(*old(self), i as int),
                ..*old(self)
            }),
    {
        let stage = match self.plan.landing_count() {
            Some(n) => if i < n { Stage::Landing(i) } else { Stage::LandedCheckpoint },
            None => Stage::LandedCheckpoint,
        };
        self.go(stage)
    }

    /// What the fork's side is called in merged files.
    pub fn ours_name(&self) -> (r: String)
        ensures
            r@ == "fork "@ + self.id@,
    {
        let mut out = "fork ".to_owned();
        out.append(self.id.as_str());
        out
    }

    /// What a rebased fork is recorded as.
    pub fn rebased_label(&self) -> (r: String)
        ensures
            r@ == rebased_text(*self),
    {
        let mut out = "fork ".to_owned();
        out.append(self.id.as_str());
        out.append(" rebased onto ");
        out.append(short_generation(self.head).as_str());
        out.append(" (");
        push_nat(&mut out, self.plan.conflicted.len() as u64);
        out.append(" conflict(s))");
        out
    }

    /// What the tree that will land is recorded as.
    pub fn merged_label(&self) -> (r: String)
        ensures
            r@ == merged_text(*self),
    {
        let mut out = "fork ".to_owned();
        out.append(self.id.as_str());
        if !self.head.same(&self.base) {
            out.append(" merge (");
            push_nat(&mut out, self.plan.merged.len() as u64);
            out.append(" merged, ");
            push_nat(&mut out, self.plan.take_ours.len() as u64);
            out.append(" replayed)");
        } else {
            out.append(" snapshot (");
            push_nat(&mut out, self.plan.take_ours.len() as u64);
            out.append(" paths)");
        }
        out
    }

    /// What the tree before landing is recorded as.
    pub fn safety_label(&self) -> (r: String)
        ensures
            r@ == safety_text(*self),
    {
        let mut out = "before promote fork ".to_owned();
        out.append(self.id.as_str());
        if !self.head.same(&self.base) {
            out.append(" (merge)");
        }
        out
    }

    /// What the landed tree is recorded as.
    pub fn landed_label(&self) -> (r: String)
        requires
            self.plan.landing() <= usize::MAX,
        ensures
            r@ == landed_text(*self),
    {
        let n: usize = match self.plan.landing_count() {
            Some(n) => n,
            None => 0,
        };
        let mut out = "promote fork ".to_owned();
        out.append(self.id.as_str());
        if !self.head.same(&self.base) {
            out.append(" (merged ");
            push_nat(&mut out, self.plan.merged.len() as u64);
            out.append(" file(s), replayed ");
            push_nat(&mut out, n as u64);
            out.append(" path(s) onto moved mainline)");
        } else {
            out.append(" (");
            push_nat(&mut out, n as u64);
            out.append(" path(s) written in place)");
        }
        out
    }

    /// The workspace of a mounted fork.
    pub fn mount_dir(&self) -> (r: Result<HostPath, String>)
        ensures
            match r {
                Ok(dir) => forks_below(self.repo_root@, "mnt"@) matches Some(root) && dir@ == joined(
                    root,
                    encode_utf8(self.id@),
                ),
                Err(message) => forks_below(self.repo_root@, "mnt"@) is None && message@
                    == "repo root has no parent for fork workspaces"@,
            },
    {
        match forks_mount_root(&self.repo_root) {
            Some(root) => Ok(root.join(self.id.as_str())),
            None => Err("repo root has no parent for fork workspaces".to_owned()),
        }
    }

    /// The root of a number, as a path.
    pub fn root(&self, i: usize) -> (r: HostPath)
        requires
            i < self.roots@.len(),
        ensures
            r@ == crate::path::path_of(crate::path::byte_strings(self.roots@[i as int]@)),
    {
        path_from(&self.roots[i])
    }
}

/// What a generation is built with at a path.
#[derive(Debug)]
pub enum Entry {
    /// Whatever another generation holds there.
    FromGeneration(GenerationId),
    /// A regular file.
    Regular { bytes: Vec<u8>, mode: u32 },
}

/// One path that a generation is built with.
#[derive(Debug)]
pub struct BuildEntry {
    pub path: HostPath,
    pub entry: Entry,
}

/// Whether an entry is a regular file of given content.
pub open spec fn is_file_entry(e: BuildEntry, path: Seq<u8>, bytes: Seq<u8>, mode: u32) -> bool {
    &&& e.path@ == path
    &&& e.entry matches Entry::Regular { bytes: b, mode: m } && b@ == bytes && m == mode
}

/// Whether entries are those that make the tree that lands out of the head.
pub open spec fn are_landing_entries(p: Promotion, entries: Seq<BuildEntry>) -> bool {
    &&& entries.len() == p.plan.landing()
    &&& forall|i: int|
        0 <= i < p.plan.take_ours@.len() ==> (#[trigger] entries[i]).path@ == p.plan.take_ours@[i]@
            && entries[i].entry == Entry::FromGeneration(p.snapshot)
    &&& forall|i: int|
        0 <= i < p.plan.merged@.len() ==> is_file_entry(
            #[trigger] entries[p.plan.take_ours@.len() + i],
            p.plan.merged@[i].path@,
            p.plan.merged@[i].bytes@,
            p.plan.merged@[i].mode,
        )
}

/// Whether entries are those that put the markers of a conflict into a fork.
pub open spec fn are_marked_entries(p: Promotion, entries: Seq<BuildEntry>) -> bool {
    &&& entries.len() == p.plan.conflicted@.len()
    &&& forall|i: int|
        0 <= i < entries.len() ==> is_file_entry(
            #[trigger] entries[i],
            p.plan.conflicted@[i].path@,
            p.plan.conflicted@[i].bytes@,
            p.plan.conflicted@[i].mode,
        )
}

impl Promotion {
    /// What the head is built with to make the tree that lands: the fork's own
    /// paths as it holds them, then the merged files.
    pub fn merged_entries(&self) -> (r: Vec<BuildEntry>)
        ensures
            are_landing_entries(*self, r@),
            r@.len() == self.plan.landing(),
            forall|i: int|
                0 <= i < self.plan.take_ours@.len() ==> (#[trigger] r@[i]).path@
                    == self.plan.take_ours@[i]@ && r@[i].entry == Entry::FromGeneration(
                    self.snapshot,
                ),
            forall|i: int|
                0 <= i < self.plan.merged@.len() ==> is_file_entry(
                    #[trigger] r@[self.plan.take_ours@.len() + i],
                    self.plan.merged@[i].path@,
                    self.plan.merged@[i].bytes@,
                    self.plan.merged@[i].mode,
                ),
    {
        let mut out: Vec<BuildEntry> = Vec::new();
        let mut i: usize = 0;
        while i < self.plan.take_ours.len()
            invariant
                i <= self.plan.take_ours@.len(),
                out@.len() == i,
                forall|j: int|
                    0 <= j < i ==> (#[trigger] out@[j]).path@ == self.plan.take_ours@[j]@
                        && out@[j].entry == Entry::FromGeneration(self.snapshot),
            decreases self.plan.take_ours.len() - i,
        {
            out.push(
                BuildEntry {
                    path: self.plan.take_ours[i].clone(),
                    entry: Entry::FromGeneration(self.snapshot),
                },
            );
            i += 1;
        }
        let mut k: usize = 0;
        while k < self.plan.merged.len()
            invariant
                k <= self.plan.merged@.len(),
                out@.len() == self.plan.take_ours@.len() + k,
                forall|j: int|
                    0 <= j < self.plan.take_ours@.len() ==> (#[trigger] out@[j]).path@
                        == self.plan.take_ours@[j]@ && out@[j].entry == Entry::FromGeneration(
                        self.snapshot,
                    ),
                forall|j: int|
                    0 <= j < k ==> is_file_entry(
                        #[trigger] out@[self.plan.take_ours@.len() + j],
                        self.plan.merged@[j].path@,
                        self.plan.merged@[j].bytes@,
                        self.plan.merged@[j].mode,
                    ),
            decreases self.plan.merged.len() - k,
        {
            let file = &self.plan.merged[k];
            out.push(
                BuildEntry {
                    path: file.path.clone(),
                    entry: Entry::Regular {
                        bytes: vstd::slice::slice_to_vec(file.bytes.as_slice()),
                        mode: file.mode,
                    },
                },
            );
            k += 1;
        }
        out
    }

    /// What that tree is built with to make the fork's new workspace: the
    /// conflicting files with their markers.
    pub fn marked_entries(&self) -> (r: Vec<BuildEntry>)
        ensures
            are_marked_entries(*self, r@),
            r@.len() == self.plan.conflicted@.len(),
            forall|i: int|
                0 <= i < r@.len() ==> is_file_entry(
                    #[trigger] r@[i],
                    self.plan.conflicted@[i].path@,
                    self.plan.conflicted@[i].bytes@,
                    self.plan.conflicted@[i].mode,
                ),
    {
        let mut out: Vec<BuildEntry> = Vec::new();
        let mut k: usize = 0;
        while k < self.plan.conflicted.len()
            invariant
                k <= self.plan.conflicted@.len(),
                out@.len() == k,
                forall|j: int|
                    0 <= j < k ==> is_file_entry(
                        #[trigger] out@[j],
                        self.plan.conflicted@[j].path@,
                        self.plan.conflicted@[j].bytes@,
                        self.plan.conflicted@[j].mode,
                    ),
            decreases self.plan.conflicted.len() - k,
        {
            let file = &self.plan.conflicted[k];
            out.push(
                BuildEntry {
                    path: file.path.clone(),
                    entry: Entry::Regular {
                        bytes: vstd::slice::slice_to_vec(file.bytes.as_slice()),
                        mode: file.mode,
                    },
                },
            );
            k += 1;
        }
        out
    }
}

/// The tree is never written with a refusal or a conflict outstanding.
pub proof fn law_tree_is_written_only_without_conflict(p: Promotion)
    requires
        p.wf(),
        p.stage is Landing,
    ensures
        p.plan.refusals@.len() == 0,
        p.plan.conflicted@.len() == 0,
{
}

/// Nothing but landing comes after the tree has been written: a promotion that
/// writes paths goes on to the next path or to recording and publishing what has
/// landed, and ends as landed; where writing a path fails, the message says
/// which path it was and how many were written before it.
pub proof fn law_landing_ends_as_landed(
    p: Promotion,
    event: Event,
    q: Promotion,
    result: Result<Option<Landed>, String>,
)
    requires
        p.stage is Landing || p.stage == Stage::LandedCheckpoint || p.stage == Stage::RecordLanded
            || p.stage == Stage::Commit,
        promoted(p, event, q, result),
    ensures
        match result {
            Ok(None) => q.stage is Landing || q.stage == Stage::LandedCheckpoint || q.stage
                == Stage::RecordLanded || q.stage == Stage::Commit,
            Ok(Some(landed)) => landed is Replayed,
            Err(message) => p.stage is Landing && event is Failed ==> message@ == stopped_text(
                p,
                p.stage->Landing_0 as int,
                event->Failed_0@,
            ),
        },
{
}

/// Whether a promotion at a stage is writing paths of the tree or has written
/// them all.
pub open spec fn on_the_tree(stage: Stage) -> bool {
    stage is Landing || stage == Stage::LandedCheckpoint || stage == Stage::RecordLanded || stage
        == Stage::Commit
}

/// Whether a promotion goes on from one state to another.
pub open spec fn goes_on(p: Promotion, q: Promotion) -> bool {
    exists|event: Event| #[trigger] promoted(p, event, q, Ok(None))
}

/// There is no outcome in between: a promotion that ends as a conflict, with
/// nothing to land, or in a failure that is not one of landing, has not written
/// a path of the tree at any point of its way.
pub proof fn law_what_does_not_land_touches_nothing(
    way: Seq<Promotion>,
    event: Event,
    end: Promotion,
    result: Result<Option<Landed>, String>,
)
    requires
        way.len() > 0,
        forall|i: int| 0 <= i < way.len() - 1 ==> goes_on(#[trigger] way[i], way[i + 1]),
        promoted(way.last(), event, end, result),
        match result {
            Ok(Some(landed)) => !(landed is Replayed),
            Ok(None) => false,
            Err(_) => !on_the_tree(way.last().stage),
        },
    ensures
        forall|i: int| 0 <= i < way.len() ==> !((#[trigger] way[i]).stage is Landing),
{
    if on_the_tree(way.last().stage) {
        law_landing_ends_as_landed(way.last(), event, end, result);
    }
    assert forall|i: int| 0 <= i < way.len() implies !((#[trigger] way[i]).stage is Landing) by {
        if way[i].stage is Landing {
            lemma_stays_on_the_tree(way, i, way.len() - 1);
        }
    }
}

proof fn lemma_stays_on_the_tree(way: Seq<Promotion>, i: int, j: int)
    requires
        0 <= i <= j < way.len(),
        on_the_tree(way[i].stage),
        forall|k: int| 0 <= k < way.len() - 1 ==> goes_on(#[trigger] way[k], way[k + 1]),
    ensures
        on_the_tree(way[j].stage),
    decreases j - i,
{
    if i < j {
        lemma_stays_on_the_tree(way, i, j - 1);
        assert(goes_on(way[j - 1], way[j - 1 + 1]));
        let (p, q) = (way[j - 1], way[j]);
        let event = choose|event: Event| promoted(p, event, q, Ok(None));
        law_landing_ends_as_landed(p, event, q, Ok(None));
    }
}

/// A path of the tree is written only after the tree as it was has been
/// recorded: landing follows the safety checkpoint.
pub proof fn law_landing_follows_safety(
    p: Promotion,
    event: Event,
    q: Promotion,
    result: Result<Option<Landed>, String>,
)
    requires
        promoted(p, event, q, result),
        result == Ok::<Option<Landed>, String>(None),
        q.stage is Landing,
    ensures
        (p.stage == Stage::Safety && event is Checkpoint) || p.stage is Landing,
{
}

/// Every promotion that lands is a row that a rewind can undo: it is published
/// only after the landed tree was recorded, by the checkpoint itself or, where
/// that found nothing new, by a row of its own.
pub proof fn law_landing_is_recorded(
    p: Promotion,
    event: Event,
    q: Promotion,
    result: Result<Option<Landed>, String>,
)
    requires
        promoted(p, event, q, result),
        result == Ok::<Option<Landed>, String>(None),
        q.stage == Stage::Commit,
    ensures
        (p.stage == Stage::LandedCheckpoint && (event matches Event::Checkpoint(_, kind) && kind
            != CheckpointKind::Noop)) || (p.stage == Stage::RecordLanded && event == Event::Done),
{
}

} // verus!
