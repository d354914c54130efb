//! Restoring one path of a checkpoint into a tree.
//!
//! The content is staged under a hidden name and then put in the path's place,
//! so that a crash leaves the path either old or new. [`Restore`] says, one
//! act at a time, what to do on the host; the caller performs each act and
//! reports what came of it.
use vstd::prelude::*;
use crate::error::EngineError;
use crate::path::{
    byte_strings, is_absolute, joined, lossy_text, path_from, path_of, pieces, HostPath, DOT, SLASH,
};
use crate::product::NAME;
use crate::text::push_nat;

verus! {

/// What a single-path restore did to the tree.
#[derive(Clone, Copy, Debug, PartialEq, Eq, Structural)]
pub enum RestoreAction {
    /// The path now matches the checkpoint's content.
    Restored,
    /// The path was absent at the checkpoint and has been removed.
    Removed,
}

/// Result of restoring one path.
#[derive(Debug, PartialEq, Eq)]
pub struct RestoreOutcome {
    pub path: HostPath,
    pub action: RestoreAction,
}

/// How the new content takes the place of the old.
#[derive(Clone, Copy, Debug, PartialEq, Eq, Structural)]
pub enum PathReplace {
    /// By one exchange of the two nodes.
    Atomic,
    /// By ordinary renames, which a mounted tree's driver observes.
    LiveMount,
}

/// Whether a path names something below the directory it is relative to.
pub open spec fn stays_inside(relative: Seq<u8>) -> bool {
    !is_absolute(relative) && !pieces(relative).contains(seq![DOT, DOT])
}

fn is_dot_dot(name: &Vec<u8>) -> (r: bool)
    ensures
        r == (name@ == seq![DOT, DOT]),
{
    let r = name.len() == 2 && name[0] == DOT && name[1] == DOT;
    if r {
        assert(name@ =~= seq![DOT, DOT]);
    }
    r
}

/// Whether a path is taken for one inside the repository, by its names.
pub open spec fn validates(relative: Seq<u8>, r: Result<Vec<Vec<u8>>, EngineError>) -> bool {
    match r {
        Ok(names) => stays_inside(relative) && names@.len() > 0 && byte_strings(names@) == pieces(
            relative,
        ),
        Err(_) => !stays_inside(relative) || pieces(relative).len() == 0,
    }
}

/// A path is restored exactly if it is relative, has a name, and no name of it
/// leads back up; its names are then those that lead to it.
pub proof fn law_paths_inside_are_taken(relative: Seq<u8>, r: Result<Vec<Vec<u8>>, EngineError>)
    requires
        validates(relative, r),
    ensures
        r is Ok <==> !(relative.len() > 0 && relative[0] == 47u8) && pieces(relative).len() > 0 && (
        forall|i: int| 0 <= i < pieces(relative).len() ==> #[trigger] pieces(relative)[i] != seq![46u8, 46u8]),
        r matches Ok(names) ==> names@.len() == pieces(relative).len() && forall|i: int|
            0 <= i < names@.len() ==> (#[trigger] names@[i])@ == pieces(relative)[i],
{
    if let Ok(names) = r {
        assert(byte_strings(names@).len() == names@.len());
        assert forall|i: int| 0 <= i < names@.len() implies (#[trigger] names@[i])@ == pieces(
            relative,
        )[i] by {
            assert(byte_strings(names@)[i] == names@[i]@);
        }
    }
}

/// The names that lead to a path inside the repository; an error for a path
/// that leaves it and for the repository itself.
pub fn validate_relative(relative: &HostPath) -> (r: Result<Vec<Vec<u8>>, EngineError>)
    ensures
        validates(relative@, r),
        match r {
            Ok(names) => stays_inside(relative@) && names@.len() > 0 && byte_strings(names@)
                == pieces(relative@),
            Err(EngineError::Restore(text)) => if !stays_inside(relative@) {
                text@ == lossy_text(relative@)
                    + ": path must be relative to the repo root and stay inside it"@
            } else {
                &&& pieces(relative@).len() == 0
                &&& text@ == "restoring the whole tree is `acyclic rewind`, not a path restore"@
            },
            Err(_) => false,
        },
{
    let names = relative.components();
    let mut inside = !(relative.bytes.len() > 0 && relative.bytes[0] == SLASH);
    let ghost start = inside;
    let mut i: usize = 0;
    while i < names.len()
        invariant
            i <= names@.len(),
            byte_strings(names@) == pieces(relative@),
            inside == (start && forall|j: int|
                0 <= j < i ==> (#[trigger] names@[j])@ != seq![DOT, DOT]),
        decreases names.len() - i,
    {
        if is_dot_dot(&names[i]) {
            inside = false;
        }
        i += 1;
    }
    proof {
        assert(forall|j: int|
            0 <= j < names@.len() ==> byte_strings(names@)[j] == (#[trigger] names@[j])@);
        assert(pieces(relative@).contains(seq![DOT, DOT]) <==> exists|j: int|
            0 <= j < names@.len() && (#[trigger] names@[j])@ == seq![DOT, DOT]) by {
            if pieces(relative@).contains(seq![DOT, DOT]) {
                let k = choose|k: int|
                    0 <= k < pieces(relative@).len() && pieces(relative@)[k] == seq![DOT, DOT];
                assert(names@[k]@ == seq![DOT, DOT]);
            }
        }
    }
    if !inside {
        let mut text = relative.display();
        text.append(": path must be relative to the repo root and stay inside it");
        return Err(EngineError::Restore(text));
    }
    if names.len() == 0 {
        return Err(
            EngineError::Restore(
                "restoring the whole tree is `acyclic rewind`, not a path restore".to_owned(),
            ),
        );
    }
    Ok(names)
}

/// A path inside the repository stands below it: its pieces are those of the
/// repository followed by names, none of which leads back up.
pub proof fn law_restore_stays_below_root(root: Seq<u8>, relative: Seq<u8>)
    requires
        stays_inside(relative),
    ensures
        pieces(joined(root, relative)) == pieces(root) + pieces(relative),
        !pieces(relative).contains(seq![DOT, DOT]),
{
    crate::path::law_joined_pieces(root, relative);
}

/// How often a fresh name is tried.
pub const STAGE_TRIES: u8 = 16;

/// One thing to do on the host.
#[derive(Clone, Copy, Debug, PartialEq, Eq, Structural)]
pub enum Act {
    /// Say what stands at the repository's root.
    StatRoot,
    /// Say what stands at the ancestor of a number, counted from the root.
    StatParent(usize),
    /// Create that ancestor.
    MakeParent(usize),
    /// Create a directory under a fresh name, to stage in or to keep the old
    /// node in.
    MakeStage,
    MakeBackup,
    /// Write the checkpoint's content of the path below the stage.
    Materialize,
    /// Say what stands at the destination.
    StatDestination,
    /// Remove what stands at the destination.
    RemoveDirectory,
    RemoveFile,
    /// Exchange the destination with the staged node.
    Exchange,
    /// Move the staged node to the destination, which is free.
    MoveIn,
    /// Move the destination to the backup, and back.
    MoveOut,
    MoveBack,
    /// Remove the old node, then the directory that held it.
    RemoveOld,
    RemoveBackup,
    /// Remove the stage with everything in it.
    RemoveStage,
    /// Make the removal of the stage durable.
    SyncStageParent,
    /// Nothing is left to do.
    Finish,
}

/// What came of an act.
#[derive(Clone, Copy, Debug, PartialEq, Eq, Structural)]
pub enum Answer {
    Done,
    /// A directory that is one itself, not a link to one.
    Directory,
    /// Anything else that exists.
    Other,
    /// Nothing: no such file, or not in the checkpoint.
    Missing,
    /// The fresh name was taken.
    Taken,
    Failed,
}

/// Where a restore is.
#[derive(Clone, Copy, Debug, PartialEq, Eq, Structural)]
pub enum Stage {
    /// Making sure that everything above the destination is a real directory,
    /// before staging and again after it.
    Root(bool),
    Parent(bool, usize),
    NewParent(bool, usize),
    NewParentCheck(bool, usize),
    Staging(u8),
    Materializing,
    /// The path is not in the checkpoint: it goes.
    Unstage,
    SeeAbsent,
    DropDirectory,
    DropFile,
    /// Clearing up after content that could not be written.
    Abandon,
    /// Putting the staged node in place.
    SeeDestination,
    Exchanging,
    Entering,
    /// The same by renames.
    BackupDir(u8),
    Leaving,
    Replacing,
    RollingBack,
    CloseBackup,
    DropOld,
    DropBackup,
    /// Clearing up.
    Clear,
    Sync,
    Finished(RestoreAction),
}

/// Why a restore ends without having done its work.
#[derive(Clone, Copy, Debug, PartialEq, Eq, Structural)]
pub enum Refusal {
    /// Something above the destination is no real directory: the root, or the
    /// ancestor of a number.
    RootNotReal,
    ParentNotReal(usize),
    /// The root has no directory above it to stage in.
    NoStageParent,
    /// Every fresh name was taken.
    NoFreshName,
    /// The path is neither in the checkpoint nor in the tree.
    Nowhere,
    /// The content could not be written.
    Materialize,
    /// The old node could neither be replaced nor put back.
    RollBack,
    /// An act failed on the host; at the exchange, which says so.
    Exchange,
    Host,
}

/// What a restore does next.
#[derive(Clone, Copy, Debug, PartialEq, Eq, Structural)]
pub enum Next {
    Go(Stage),
    Stop(Refusal),
}

/// What a restore knows from the start.
#[derive(Clone, Copy, Debug, PartialEq, Eq, Structural)]
pub struct Facts {
    pub replace: PathReplace,
    /// How many names lead to the path.
    pub depth: usize,
    /// Whether there is a directory to stage in.
    pub can_stage: bool,
}

/// The act of a stage.
pub open spec fn act_of(stage: Stage) -> Act {
    match stage {
        Stage::Root(_) => Act::StatRoot,
        Stage::Parent(_, i) => Act::StatParent(i),
        Stage::NewParent(_, i) => Act::MakeParent(i),
        Stage::NewParentCheck(_, i) => Act::StatParent(i),
        Stage::Staging(_) => Act::MakeStage,
        Stage::Materializing => Act::Materialize,
        Stage::Unstage => Act::RemoveStage,
        Stage::SeeAbsent => Act::StatDestination,
        Stage::DropDirectory => Act::RemoveDirectory,
        Stage::DropFile => Act::RemoveFile,
        Stage::Abandon => Act::RemoveStage,
        Stage::SeeDestination => Act::StatDestination,
        Stage::Exchanging => Act::Exchange,
        Stage::Entering => Act::MoveIn,
        Stage::BackupDir(_) => Act::MakeBackup,
        Stage::Leaving => Act::MoveOut,
        Stage::Replacing => Act::MoveIn,
        Stage::RollingBack => Act::MoveBack,
        Stage::CloseBackup => Act::RemoveBackup,
        Stage::DropOld => Act::RemoveOld,
        Stage::DropBackup => Act::RemoveBackup,
        Stage::Clear => Act::RemoveStage,
        Stage::Sync => Act::SyncStageParent,
        Stage::Finished(_) => Act::Finish,
    }
}

/// The stage that looks at the ancestors from a number on; past the last one,
/// what comes after looking.
pub open spec fn from_parent(f: Facts, again: bool, i: int) -> Next {
    if i + 1 < f.depth {
        Next::Go(Stage::Parent(again, i as usize))
    } else if again {
        Next::Go(Stage::SeeDestination)
    } else if f.replace == PathReplace::Atomic && !f.can_stage {
        Next::Stop(Refusal::NoStageParent)
    } else {
        Next::Go(Stage::Staging(0))
    }
}

/// What a stage and the answer to its act lead to.
pub open spec fn next(f: Facts, stage: Stage, answer: Answer) -> Next {
    let failed = answer == Answer::Failed;
    match stage {
        Stage::Root(again) => match answer {
            Answer::Directory => from_parent(f, again, 0),
            Answer::Other => Next::Stop(Refusal::RootNotReal),
            _ => Next::Stop(Refusal::Host),
        },
        Stage::Parent(again, i) => match answer {
            Answer::Directory => from_parent(f, again, i + 1),
            Answer::Other => Next::Stop(Refusal::ParentNotReal(i)),
            Answer::Missing => Next::Go(Stage::NewParent(again, i)),
            _ => Next::Stop(Refusal::Host),
        },
        Stage::NewParent(again, i) => if failed {
            Next::Stop(Refusal::Host)
        } else {
            Next::Go(Stage::NewParentCheck(again, i))
        },
        Stage::NewParentCheck(again, i) => match answer {
            Answer::Directory => from_parent(f, again, i + 1),
            Answer::Other => Next::Stop(Refusal::ParentNotReal(i)),
            _ => Next::Stop(Refusal::Host),
        },
        Stage::Staging(tries) => match answer {
            Answer::Done => Next::Go(Stage::Materializing),
            Answer::Taken => if tries + 1 < STAGE_TRIES {
                Next::Go(Stage::Staging((tries + 1) as u8))
            } else {
                Next::Stop(Refusal::NoFreshName)
            },
            _ => Next::Stop(Refusal::Host),
        },
        Stage::Materializing => match answer {
            Answer::Done => Next::Go(Stage::Root(true)),
            Answer::Missing => Next::Go(Stage::Unstage),
            _ => Next::Go(Stage::Abandon),
        },
        Stage::Unstage => if failed {
            Next::Stop(Refusal::Host)
        } else {
            Next::Go(Stage::SeeAbsent)
        },
        Stage::SeeAbsent => match answer {
            Answer::Directory => Next::Go(Stage::DropDirectory),
            Answer::Other => Next::Go(Stage::DropFile),
            Answer::Missing => if f.replace == PathReplace::Atomic {
                Next::Stop(Refusal::Nowhere)
            } else {
                Next::Go(Stage::Finished(RestoreAction::Removed))
            },
            _ => Next::Stop(Refusal::Host),
        },
        Stage::DropDirectory => if failed {
            Next::Stop(Refusal::Host)
        } else {
            Next::Go(Stage::Finished(RestoreAction::Removed))
        },
        Stage::DropFile => if failed {
            Next::Stop(Refusal::Host)
        } else {
            Next::Go(Stage::Finished(RestoreAction::Removed))
        },
        Stage::Abandon => Next::Stop(Refusal::Materialize),
        Stage::SeeDestination => match answer {
            Answer::Missing => Next::Go(Stage::Entering),
            Answer::Directory => Next::Go(in_place(f)),
            Answer::Other => Next::Go(in_place(f)),
            _ => Next::Stop(Refusal::Host),
        },
        Stage::Exchanging => if failed {
            Next::Stop(Refusal::Exchange)
        } else {
            Next::Go(Stage::Clear)
        },
        Stage::Entering => if failed {
            Next::Stop(Refusal::Host)
        } else {
            Next::Go(Stage::Clear)
        },
        Stage::BackupDir(tries) => match answer {
            Answer::Done => Next::Go(Stage::Leaving),
            Answer::Taken => if tries + 1 < STAGE_TRIES {
                Next::Go(Stage::BackupDir((tries + 1) as u8))
            } else {
                Next::Stop(Refusal::NoFreshName)
            },
            _ => Next::Stop(Refusal::Host),
        },
        Stage::Leaving => Next::Go(if failed { Stage::CloseBackup } else { Stage::Replacing }),
        Stage::Replacing => Next::Go(if failed { Stage::RollingBack } else { Stage::DropOld }),
        Stage::RollingBack => if failed {
            Next::Stop(Refusal::RollBack)
        } else {
            Next::Go(Stage::CloseBackup)
        },
        Stage::CloseBackup => Next::Stop(Refusal::Host),
        Stage::DropOld => if failed {
            Next::Stop(Refusal::Host)
        } else {
            Next::Go(Stage::DropBackup)
        },
        Stage::DropBackup => if failed {
            Next::Stop(Refusal::Host)
        } else {
            Next::Go(Stage::Clear)
        },
        Stage::Clear => if failed {
            Next::Stop(Refusal::Host)
        } else if f.replace == PathReplace::Atomic {
            Next::Go(Stage::Sync)
        } else {
            Next::Go(Stage::Finished(RestoreAction::Restored))
        },
        Stage::Sync => if failed {
            Next::Stop(Refusal::Host)
        } else {
            Next::Go(Stage::Finished(RestoreAction::Restored))
        },
        Stage::Finished(action) => Next::Go(Stage::Finished(action)),
    }
}

/// The stage that puts the staged node in the place of one that is there.
pub open spec fn in_place(f: Facts) -> Stage {
    match f.replace {
        PathReplace::Atomic => Stage::Exchanging,
        PathReplace::LiveMount => Stage::BackupDir(0),
    }
}

/// Whether a stage names only ancestors that there are, and tries that are
/// allowed.
pub open spec fn in_range(f: Facts, stage: Stage) -> bool {
    match stage {
        Stage::Parent(_, i) => i + 1 < f.depth,
        Stage::NewParent(_, i) => i + 1 < f.depth,
        Stage::NewParentCheck(_, i) => i + 1 < f.depth,
        Stage::Staging(tries) => tries < STAGE_TRIES,
        Stage::BackupDir(tries) => tries < STAGE_TRIES,
        _ => true,
    }
}

fn parent_step(f: Facts, again: bool, i: usize) -> (r: Next)
    requires
        i < usize::MAX,
    ensures
        r == from_parent(f, again, i as int),
{
    if i + 1 < f.depth {
        Next::Go(Stage::Parent(again, i))
    } else if again {
        Next::Go(Stage::SeeDestination)
    } else if f.replace == PathReplace::Atomic && !f.can_stage {
        Next::Stop(Refusal::NoStageParent)
    } else {
        Next::Go(Stage::Staging(0))
    }
}

/// Continues unless an act failed.
fn unless(failed: bool, stage: Stage) -> (r: Next)
    ensures
        r == if failed { Next::Stop(Refusal::Host) } else { Next::Go(stage) },
{
    if failed { Next::Stop(Refusal::Host) } else { Next::Go(stage) }
}

/// What a stage and the answer to its act lead to.
pub fn step(f: Facts, stage: Stage, answer: Answer) -> (r: Next)
    requires
        in_range(f, stage),
    ensures
        r == next(f, stage, answer),
        r matches Next::Go(later) ==> in_range(f, later),
{
    let failed = answer == Answer::Failed;
    let place = match f.replace {
        PathReplace::Atomic => Stage::Exchanging,
        PathReplace::LiveMount => Stage::BackupDir(0),
    };
    match stage {
        Stage::Root(again) => match answer {
            Answer::Directory => parent_step(f, again, 0),
            Answer::Other => Next::Stop(Refusal::RootNotReal),
            _ => Next::Stop(Refusal::Host),
        },
        Stage::Parent(again, i) => match answer {
            Answer::Directory => parent_step(f, again, i + 1),
            Answer::Other => Next::Stop(Refusal::ParentNotReal(i)),
            Answer::Missing => Next::Go(Stage::NewParent(again, i)),
            _ => Next::Stop(Refusal::Host),
        },
        Stage::NewParent(again, i) => unless(failed, Stage::NewParentCheck(again, i)),
        Stage::NewParentCheck(again, i) => match answer {
            Answer::Directory => parent_step(f, again, i + 1),
            Answer::Other => Next::Stop(Refusal::ParentNotReal(i)),
            _ => Next::Stop(Refusal::Host),
        },
        Stage::Staging(tries) => match answer {
            Answer::Done => Next::Go(Stage::Materializing),
            Answer::Taken => if tries + 1 < STAGE_TRIES {
                Next::Go(Stage::Staging(tries + 1))
            } else {
                Next::Stop(Refusal::NoFreshName)
            },
            _ => Next::Stop(Refusal::Host),
        },
        Stage::Materializing => match answer {
            Answer::Done => Next::Go(Stage::Root(true)),
            Answer::Missing => Next::Go(Stage::Unstage),
            _ => Next::Go(Stage::Abandon),
        },
        Stage::Unstage => unless(failed, Stage::SeeAbsent),
        Stage::SeeAbsent => match answer {
            Answer::Directory => Next::Go(Stage::DropDirectory),
            Answer::Other => Next::Go(Stage::DropFile),
            Answer::Missing => if f.replace == PathReplace::Atomic {
                Next::Stop(Refusal::Nowhere)
            } else {
                Next::Go(Stage::Finished(RestoreAction::Removed))
            },
            _ => Next::Stop(Refusal::Host),
        },
        Stage::DropDirectory => unless(failed, Stage::Finished(RestoreAction::Removed)),
        Stage::DropFile => unless(failed, Stage::Finished(RestoreAction::Removed)),
        Stage::Abandon => Next::Stop(Refusal::Materialize),
        Stage::SeeDestination => match answer {
            Answer::Missing => Next::Go(Stage::Entering),
            Answer::Directory => Next::Go(place),
            Answer::Other => Next::Go(place),
            _ => Next::Stop(Refusal::Host),
        },
        Stage::Exchanging => if failed {
            Next::Stop(Refusal::Exchange)
        } else {
            Next::Go(Stage::Clear)
        },
        Stage::Entering => unless(failed, Stage::Clear),
        Stage::BackupDir(tries) => match answer {
            Answer::Done => Next::Go(Stage::Leaving),
            Answer::Taken => if tries + 1 < STAGE_TRIES {
                Next::Go(Stage::BackupDir(tries + 1))
            } else {
                Next::Stop(Refusal::NoFreshName)
            },
            _ => Next::Stop(Refusal::Host),
        },
        Stage::Leaving => Next::Go(if failed { Stage::CloseBackup } else { Stage::Replacing }),
        Stage::Replacing => Next::Go(if failed { Stage::RollingBack } else { Stage::DropOld }),
        Stage::RollingBack => if failed {
            Next::Stop(Refusal::RollBack)
        } else {
            Next::Go(Stage::CloseBackup)
        },
        Stage::CloseBackup => Next::Stop(Refusal::Host),
        Stage::DropOld => unless(failed, Stage::DropBackup),
        Stage::DropBackup => unless(failed, Stage::Clear),
        Stage::Clear => if f.replace == PathReplace::Atomic {
            unless(failed, Stage::Sync)
        } else {
            unless(failed, Stage::Finished(RestoreAction::Restored))
        },
        Stage::Sync => unless(failed, Stage::Finished(RestoreAction::Restored)),
        Stage::Finished(action) => Next::Go(Stage::Finished(action)),
    }
}

/// A restore under way.
#[derive(Debug)]
pub struct Restore {
    pub root: HostPath,
    pub relative: HostPath,
    pub names: Vec<Vec<u8>>,
    pub facts: Facts,
    pub stage: Stage,
    /// What the host said of the first failure.
    pub trouble: String,
    /// Where the old node is kept while it is being replaced.
    pub backup: HostPath,
}

impl Restore {
    /// What holds between two acts.
    pub open spec fn wf(&self) -> bool {
        &&& stays_inside(self.relative@)
        &&& byte_strings(self.names@) == pieces(self.relative@)
        &&& self.names@.len() > 0
        &&& self.facts.depth == self.names@.len()
        &&& in_range(self.facts, self.stage)
    }

    /// Starts to restore a path of the tree at `root`.
    pub fn begin(root: HostPath, relative: HostPath, replace: PathReplace) -> (r: Result<
        Restore,
        EngineError,
    >)
        ensures
            match r {
                Ok(restore) => {
                    &&& restore.wf()
                    &&& restore.root == root
                    &&& restore.relative == relative
                    &&& restore.stage == Stage::Root(false)
                    &&& restore.facts == (Facts {
                        replace,
                        depth: pieces(relative@).len() as usize,
                        can_stage: crate::path::parent_of(root@) is Some,
                    })
                },
                Err(EngineError::Restore(text)) => if !stays_inside(relative@) {
                    text@ == lossy_text(relative@)
                        + ": path must be relative to the repo root and stay inside it"@
                } else {
                    &&& pieces(relative@).len() == 0
                    &&& text@
                        == "restoring the whole tree is `acyclic rewind`, not a path restore"@
                },
                Err(_) => false,
            },
    {
        let names = match validate_relative(&relative) {
            Ok(names) => names,
            Err(error) => {
                return Err(error);
            },
        };
        let can_stage = root.parent().is_some();
        let facts = Facts { replace, depth: names.len(), can_stage };
        assert(names@.len() == byte_strings(names@).len());
        Ok(
            Restore {
                root,
                relative,
                names,
                facts,
                stage: Stage::Root(false),
                trouble: String::new(),
                backup: HostPath { bytes: Vec::new() },
            },
        )
    }

    /// The act to perform now.
    pub fn act(&self) -> (r: Act)
        ensures
            r == act_of(self.stage),
    {
        match self.stage {
            Stage::Root(_) => Act::StatRoot,
            Stage::Parent(_, i) => Act::StatParent(i),
            Stage::NewParent(_, i) => Act::MakeParent(i),
            Stage::NewParentCheck(_, i) => Act::StatParent(i),
            Stage::Staging(_) => Act::MakeStage,
            Stage::Materializing => Act::Materialize,
            Stage::Unstage => Act::RemoveStage,
            Stage::SeeAbsent => Act::StatDestination,
            Stage::DropDirectory => Act::RemoveDirectory,
            Stage::DropFile => Act::RemoveFile,
            Stage::Abandon => Act::RemoveStage,
            Stage::SeeDestination => Act::StatDestination,
            Stage::Exchanging => Act::Exchange,
            Stage::Entering => Act::MoveIn,
            Stage::BackupDir(_) => Act::MakeBackup,
            Stage::Leaving => Act::MoveOut,
            Stage::Replacing => Act::MoveIn,
            Stage::RollingBack => Act::MoveBack,
            Stage::CloseBackup => Act::RemoveBackup,
            Stage::DropOld => Act::RemoveOld,
            Stage::DropBackup => Act::RemoveBackup,
            Stage::Clear => Act::RemoveStage,
            Stage::Sync => Act::SyncStageParent,
            Stage::Finished(_) => Act::Finish,
        }
    }

    /// The path that is restored.
    pub fn destination(&self) -> (r: HostPath)
        ensures
            r@ == joined(self.root@, self.relative@),
    {
        self.root.join_bytes(self.relative.bytes.as_slice())
    }

    /// The path below the stage, or below the root, without `.` pieces.
    pub fn normalized(&self) -> (r: HostPath)
        requires
            self.wf(),
        ensures
            r@ == path_of(pieces(self.relative@)),
    {
        path_from(&self.names)
    }

    /// The ancestor of a number, counted from just below the root.
    pub fn ancestor(&self, i: usize) -> (r: HostPath)
        requires
            self.wf(),
            i < self.names@.len(),
        ensures
            r@ == below(self.root@, pieces(self.relative@).take(i + 1)),
    {
        let mut path = self.root.clone();
        let mut k: usize = 0;
        proof {
            assert(pieces(self.relative@).take(0) =~= Seq::<Seq<u8>>::empty());
        }
        while k <= i
            invariant
                self.wf(),
                k <= i + 1,
                i < self.names@.len(),
                path@ == below(self.root@, pieces(self.relative@).take(k as int)),
            decreases i + 1 - k,
        {
            let ghost names = pieces(self.relative@);
            proof {
                assert(byte_strings(self.names@)[k as int] == self.names@[k as int]@);
                assert(names.take(k + 1).drop_last() =~= names.take(k as int));
                assert(names.take(k + 1).last() == self.names@[k as int]@);
            }
            path = path.join_bytes(self.names[k].as_slice());
            k += 1;
        }
        path
    }

    /// Where to create the stage: beside the repository, or, for a mounted
    /// tree, beside the destination.
    pub fn stage_parent(&self) -> (r: Option<HostPath>)
        ensures
            match r {
                Some(p) => stage_home(
                    self.facts.replace,
                    self.root@,
                    self.relative@,
                ) == Some(p@),
                None => stage_home(self.facts.replace, self.root@, self.relative@) is None,
            },
    {
        match self.facts.replace {
            PathReplace::Atomic => self.root.parent(),
            PathReplace::LiveMount => self.destination().parent(),
        }
    }

    /// Takes what came of the act; `text` describes a failure of the host. An
    /// error ends the restore.
    pub fn advance(&mut self, answer: Answer, text: String) -> (r: Result<(), EngineError>)
        requires
            old(self).wf(),
        ensures
            final(self).wf(),
            final(self).root == old(self).root,
            final(self).relative == old(self).relative,
            final(self).facts == old(self).facts,
            final(self).backup == old(self).backup,
            final(self).trouble == if keeps_trouble(old(self).stage) {
                text
            } else {
                old(self).trouble
            },
            match next(old(self).facts, old(self).stage, answer) {
                Next::Go(stage) => r is Ok && final(self).stage == stage,
                Next::Stop(refusal) => {
                    &&& final(self).stage == old(self).stage
                    &&& r matches Err(error) && is_refusal(*old(self), refusal, text, error)
                },
            },
    {
        let outcome = step(self.facts, self.stage, answer);
        match outcome {
            Next::Go(stage) => {
                self.keep_trouble(text);
                self.stage = stage;
                Ok(())
            },
            Next::Stop(refusal) => {
                let error = self.refused(refusal, &text);
                self.keep_trouble(text);
                Err(error)
            },
        }
    }

    fn keep_trouble(&mut self, text: String)
        ensures
            *final(self) == (Restore {
                trouble: if keeps_trouble(old(self).stage) { text } else { old(self).trouble },
                ..*old(self)
            }),
    {
        let keeps = match self.stage {
            Stage::Materializing => true,
            Stage::Leaving => true,
            Stage::Replacing => true,
            _ => false,
        };
        if keeps {
            self.trouble = text;
        }
    }

    fn refused(&self, refusal: Refusal, text: &String) -> (error: EngineError)
        requires
            self.wf(),
            refusal matches Refusal::ParentNotReal(i) ==> i < self.names@.len(),
        ensures
            is_refusal(*self, refusal, *text, error),
    {
        match refusal {
            Refusal::RootNotReal => EngineError::Restore(not_real(&self.root)),
            Refusal::ParentNotReal(i) => EngineError::Restore(not_real(&self.ancestor(i))),
            Refusal::NoStageParent => EngineError::Restore(
                "repository root has no parent".to_owned(),
            ),
            Refusal::NoFreshName => EngineError::Restore(
                "could not allocate a unique restore stage".to_owned(),
            ),
            Refusal::Nowhere => {
                let mut message = self.relative.display();
                message.append(" does not exist at that checkpoint or in the tree");
                EngineError::Restore(message)
            },
            Refusal::Materialize => {
                let mut message = "materialize path: ".to_owned();
                message.append(self.trouble.as_str());
                EngineError::Restore(message)
            },
            Refusal::RollBack => {
                let mut message = "materialize rename failed: ".to_owned();
                message.append(self.trouble.as_str());
                message.append("; old node remains at ");
                message.append(self.backup.display().as_str());
                message.append(" after rollback failed: ");
                message.append(text.as_str());
                EngineError::Restore(message)
            },
            Refusal::Exchange => {
                let mut message = "exchange path: ".to_owned();
                message.append(text.as_str());
                EngineError::Restore(message)
            },
            Refusal::Host => if self.stage == Stage::CloseBackup {
                EngineError::Io(self.trouble.clone())
            } else {
                EngineError::Io(text.clone())
            },
        }
    }

    /// What a finished restore reports.
    pub fn finish(self, action: RestoreAction) -> (r: RestoreOutcome)
        requires
            self.stage == Stage::Finished(action),
        ensures
            r.path == self.relative,
            r.action == action,
    {
        RestoreOutcome { path: self.relative, action }
    }
}

/// Whether a failure at a stage is reported later on.
pub open spec fn keeps_trouble(stage: Stage) -> bool {
    stage == Stage::Materializing || stage == Stage::Leaving || stage == Stage::Replacing
}

/// A path extended by names, one below the other.
pub open spec fn below(root: Seq<u8>, names: Seq<Seq<u8>>) -> Seq<u8>
    decreases names.len(),
{
    if names.len() == 0 {
        root
    } else {
        joined(below(root, names.drop_last()), names.last())
    }
}

/// The directory in which a restore stages.
pub open spec fn stage_home(replace: PathReplace, root: Seq<u8>, relative: Seq<u8>) -> Option<
    Seq<u8>,
> {
    match replace {
        PathReplace::Atomic => crate::path::parent_of(root),
        PathReplace::LiveMount => crate::path::parent_of(joined(root, relative)),
    }
}

/// What is said of something above the destination that is no real directory.
pub open spec fn not_real_text(path: Seq<u8>) -> Seq<char> {
    "restore parent "@ + lossy_text(path) + " is not a real directory"@
}

fn not_real(path: &HostPath) -> (r: String)
    ensures
        r@ == not_real_text(path@),
{
    let mut message = "restore parent ".to_owned();
    message.append(path.display().as_str());
    message.append(" is not a real directory");
    message
}

/// Whether an error is what a refusal is reported as.
pub open spec fn is_refusal(
    restore: Restore,
    refusal: Refusal,
    text: String,
    error: EngineError,
) -> bool {
    match refusal {
        Refusal::RootNotReal => error matches EngineError::Restore(t) && t@ == not_real_text(
            restore.root@,
        ),
        Refusal::ParentNotReal(i) => error matches EngineError::Restore(t) && t@ == not_real_text(
            below(restore.root@, pieces(restore.relative@).take(i + 1)),
        ),
        Refusal::NoStageParent => error matches EngineError::Restore(t) && t@
            == "repository root has no parent"@,
        Refusal::NoFreshName => error matches EngineError::Restore(t) && t@
            == "could not allocate a unique restore stage"@,
        Refusal::Nowhere => error matches EngineError::Restore(t) && t@ == lossy_text(
            restore.relative@,
        ) + " does not exist at that checkpoint or in the tree"@,
        Refusal::Materialize => error matches EngineError::Restore(t) && t@
            == "materialize path: "@ + restore.trouble@,
        Refusal::RollBack => error matches EngineError::Restore(t) && t@
            == "materialize rename failed: "@ + restore.trouble@ + "; old node remains at "@
            + lossy_text(restore.backup@) + " after rollback failed: "@ + text@,
        Refusal::Exchange => error matches EngineError::Restore(t) && t@ == "exchange path: "@
            + text@,
        Refusal::Host => if restore.stage == Stage::CloseBackup {
            error == EngineError::Io(restore.trouble)
        } else {
            error == EngineError::Io(text)
        },
    }
}

/// The name of a stage: hidden, with the process and a number that no other
/// stage of the process has.
pub open spec fn stage_name_text(pid: int, sequence: int) -> Seq<char> {
    "."@ + NAME@ + "-restore-"@ + crate::text::decimal_nat(pid as nat) + "-"@
        + crate::text::decimal_nat(sequence as nat)
}

/// The name of a stage.
pub fn stage_name(pid: u32, sequence: u64) -> (r: String)
    ensures
        r@ == stage_name_text(pid as int, sequence as int),
{
    let mut name = ".".to_owned();
    name.append(NAME);
    name.append("-restore-");
    push_nat(&mut name, pid as u64);
    name.append("-");
    push_nat(&mut name, sequence);
    name
}

/// The permission bits of a stored mode that a restore applies.
pub fn applied_mode(mode: u32) -> (r: u32)
    ensures
        r == mode & 0o7777,
        r < 0o10000,
{
    assert(mode & 0o7777 < 0o10000) by (bit_vector);
    mode & 0o7777
}

/// On an ordinary tree a restore stages beside the repository, where no snapshot
/// sees the stage; below a mount it stages in the directory of what it restores, so that
/// putting it in place does not leave the mount.
pub proof fn law_stages_stand_where_they_can_be_moved(
    replace: PathReplace,
    root: Seq<u8>,
    relative: Seq<u8>,
    home: Seq<u8>,
)
    requires
        stage_home(replace, root, relative) == Some(home),
        stays_inside(relative),
        pieces(relative).len() > 0,
        crate::path::file_name_of(root) is Some,
        crate::path::file_name_of(joined(root, relative)) is Some,
    ensures
        replace == PathReplace::Atomic ==> pieces(home) == pieces(root).drop_last(),
        replace == PathReplace::LiveMount ==> pieces(home) == pieces(root) + pieces(
            relative,
        ).drop_last(),
{
    crate::path::law_joined_pieces(root, relative);
    if replace == PathReplace::Atomic {
        crate::path::law_parent_and_name(root);
        assert(pieces(root).drop_last() =~= pieces(home));
    } else {
        crate::path::law_parent_and_name(joined(root, relative));
        assert(pieces(joined(root, relative)).drop_last() =~= pieces(home));
        assert(pieces(joined(root, relative)).drop_last() =~= pieces(root) + pieces(
            relative,
        ).drop_last());
    }
}

} // verus!
