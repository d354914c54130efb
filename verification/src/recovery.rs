//! Crash recovery of a rewind.
//!
//! A rewind materializes the target beside the repository, moves the excluded
//! paths over and exchanges the two trees, with a journal that names the phase
//! it is in. After a crash [`Recovery`] says, one act at a time, how to finish
//! or unwind what the journal describes; the caller performs each act and
//! reports what it saw.
use vstd::prelude::*;
use crate::digest::{decode_generation, is_hex_text, unhex, DigestError, GenerationId, DIGEST_BYTES};
use crate::error::EngineError;
use crate::path::{file_name_of, parent_of, HostPath};

verus! {

/// Where a rewind is.
#[derive(Clone, Copy, Debug, PartialEq, Eq, Structural)]
pub enum Phase {
    /// Materializing beside the repository, which is untouched.
    Materializing,
    /// The prepared tree is complete and the head is being restored.
    RestoringHead,
    /// Excluded paths are moving from the repository into the prepared tree.
    Carrying,
    /// The exchange of the two trees is in flight.
    Swapping,
}

/// Crash-recovery journal. On disk only while a rewind is in flight.
#[derive(Debug, PartialEq, Eq)]
pub struct Journal {
    pub target_generation: String,
    pub repo_root: HostPath,
    pub tmp: HostPath,
    pub phase: Phase,
    /// Excluded paths, relative to the repository, that move into `tmp` before
    /// the exchange.
    pub carried: Vec<HostPath>,
}

/// Result of reconciling an interrupted rewind.
#[derive(Debug, PartialEq, Eq)]
pub struct RecoveredSwap {
    /// The target was in place already when parking the old tree failed.
    pub published: bool,
    /// The displaced tree, kept beside the repository.
    pub old_tree: Option<HostPath>,
    /// The generation that the journal names.
    pub target: GenerationId,
}

/// A place that can hold a whole tree.
#[derive(Clone, Copy, Debug, PartialEq, Eq, Structural)]
pub enum Place {
    /// The repository itself.
    Repo,
    /// The prepared tree beside it.
    Tmp,
    /// The name that a two-step exchange moves the old tree through.
    Scratch,
}

/// One thing to do on the host.
#[derive(Clone, Copy, Debug, PartialEq, Eq, Structural)]
pub enum Act {
    /// Say whether a place holds a tree.
    Look(Place),
    /// Say whether the tree at a place holds the carried path of a number.
    LookCarried(Place, usize),
    /// Move a carried path from the prepared tree to a place, creating the
    /// directories above it.
    MoveCarried(Place, usize),
    /// Move the tree at a place to the repository's name.
    MoveHome(Place),
    /// Remove the prepared tree; failing to is no failure.
    Discard,
    /// Move the tree at a place to a fresh name beside the repository.
    Park(Place),
    /// Remove the journal.
    RemoveJournal,
    /// Nothing is left to do.
    Finish,
}

/// What came of an act.
#[derive(Clone, Copy, Debug, PartialEq, Eq, Structural)]
pub enum Answer {
    Yes,
    No,
    Done,
    Failed,
}

/// Where a recovery is.
#[derive(Clone, Copy, Debug, PartialEq, Eq, Structural)]
pub enum Stage {
    /// Bringing carried paths home to a place: looking for one in the prepared
    /// tree, then for a second copy of it, then moving it.
    Source(Place, usize),
    Home(Place, usize),
    Moving(Place, usize),
    /// Removing the prepared tree.
    Discarding,
    /// Finding out which trees there are.
    SeeScratch,
    SeeRepo(bool),
    SeeTmp(bool, bool),
    /// Moving a tree to the repository's name.
    Homing(Place),
    /// Making sure that there is a repository.
    CheckRepo,
    /// Parking what is left over.
    CheckTmp,
    ParkTmp,
    CheckScratch,
    ParkScratch,
    /// Removing the journal.
    Closing,
    Finished,
}

/// Why a recovery stops and keeps everything as it is.
#[derive(Clone, Copy, Debug, PartialEq, Eq, Structural)]
pub enum Refusal {
    /// Three trees where two can be.
    ThreeTrees,
    /// A carried path stands in both trees.
    BothCopies(usize),
    /// No tree to make the repository of.
    NoTree,
    NoParent,
    NoName,
    /// An act failed on the host.
    Host,
}

/// What a recovery does next.
#[derive(Clone, Copy, Debug, PartialEq, Eq, Structural)]
pub enum Next {
    Go(Stage),
    Stop(Refusal),
}

/// What a recovery knows from the journal and the platform.
#[derive(Clone, Copy, Debug, PartialEq, Eq, Structural)]
pub struct Facts {
    pub phase: Phase,
    /// How many paths are carried.
    pub carried: usize,
    /// Whether exchanges go through a scratch name here.
    pub scratch: bool,
    /// Whether the repository's path has a parent and a name.
    pub parent: bool,
    pub name: bool,
}

/// The first stage of a recovery; a rewind that was restoring the head is
/// handed on as it is.
pub open spec fn first_stage(f: Facts) -> Stage {
    match f.phase {
        Phase::Materializing => Stage::Discarding,
        Phase::RestoringHead => Stage::Finished,
        Phase::Carrying => carry_from(f, Place::Repo, 0),
        Phase::Swapping => if f.scratch { Stage::SeeScratch } else { Stage::SeeRepo(false) },
    }
}

/// The stage that brings home the carried paths from a number on.
pub open spec fn carry_from(f: Facts, into: Place, i: int) -> Stage {
    if i < f.carried {
        Stage::Source(into, i as usize)
    } else if f.phase == Phase::Carrying {
        Stage::Discarding
    } else if into == Place::Scratch {
        Stage::Homing(Place::Scratch)
    } else {
        Stage::CheckRepo
    }
}

/// The act of a stage.
pub open spec fn act_of(stage: Stage) -> Act {
    match stage {
        Stage::Source(_, i) => Act::LookCarried(Place::Tmp, i),
        Stage::Home(into, i) => Act::LookCarried(into, i),
        Stage::Moving(into, i) => Act::MoveCarried(into, i),
        Stage::Discarding => Act::Discard,
        Stage::SeeScratch => Act::Look(Place::Scratch),
        Stage::SeeRepo(_) => Act::Look(Place::Repo),
        Stage::SeeTmp(_, _) => Act::Look(Place::Tmp),
        Stage::Homing(from) => Act::MoveHome(from),
        Stage::CheckRepo => Act::Look(Place::Repo),
        Stage::CheckTmp => Act::Look(Place::Tmp),
        Stage::ParkTmp => Act::Park(Place::Tmp),
        Stage::CheckScratch => Act::Look(Place::Scratch),
        Stage::ParkScratch => Act::Park(Place::Scratch),
        Stage::Closing => Act::RemoveJournal,
        Stage::Finished => Act::Finish,
    }
}

/// What the trees that were found call for.
pub open spec fn sort_out(f: Facts, scratch: bool, repo: bool, tmp: bool) -> Next {
    if scratch && repo && tmp {
        Next::Stop(Refusal::ThreeTrees)
    } else if !repo && scratch {
        Next::Go(carry_from(f, Place::Scratch, 0))
    } else if !repo && tmp {
        Next::Go(Stage::Homing(Place::Tmp))
    } else {
        Next::Go(carry_from(f, Place::Repo, 0))
    }
}

/// What a stage and the answer to its act lead to. A failed act stops the
/// recovery, but for the removal of a tree that is only garbage.
pub open spec fn next(f: Facts, stage: Stage, answer: Answer) -> Next {
    if answer == Answer::Failed && stage != Stage::Discarding {
        Next::Stop(Refusal::Host)
    } else {
        let yes = answer == Answer::Yes;
        match stage {
            Stage::Source(into, i) => Next::Go(
                if yes { Stage::Home(into, i) } else { carry_from(f, into, i + 1) },
            ),
            Stage::Home(into, i) => if yes {
                Next::Stop(Refusal::BothCopies(i))
            } else {
                Next::Go(Stage::Moving(into, i))
            },
            Stage::Moving(into, i) => Next::Go(carry_from(f, into, i + 1)),
            Stage::Discarding => Next::Go(Stage::Closing),
            Stage::SeeScratch => Next::Go(Stage::SeeRepo(yes)),
            Stage::SeeRepo(scratch) => Next::Go(Stage::SeeTmp(scratch, yes)),
            Stage::SeeTmp(scratch, repo) => sort_out(f, scratch, repo, yes),
            Stage::Homing(_) => Next::Go(Stage::CheckRepo),
            Stage::CheckRepo => if !yes {
                Next::Stop(Refusal::NoTree)
            } else if !f.parent {
                Next::Stop(Refusal::NoParent)
            } else if !f.name {
                Next::Stop(Refusal::NoName)
            } else {
                Next::Go(Stage::CheckTmp)
            },
            Stage::CheckTmp => Next::Go(
                if yes { Stage::ParkTmp } else { after_tmp(f) },
            ),
            Stage::ParkTmp => Next::Go(after_tmp(f)),
            Stage::CheckScratch => Next::Go(
                if yes { Stage::ParkScratch } else { Stage::Closing },
            ),
            Stage::ParkScratch => Next::Go(Stage::Closing),
            Stage::Closing => Next::Go(Stage::Finished),
            Stage::Finished => Next::Go(Stage::Finished),
        }
    }
}

/// The stage after the prepared tree has been dealt with.
pub open spec fn after_tmp(f: Facts) -> Stage {
    if f.scratch { Stage::CheckScratch } else { Stage::Closing }
}

fn carry_stage(f: Facts, into: Place, i: usize) -> (r: Stage)
    ensures
        r == carry_from(f, into, i as int),
{
    if i < f.carried {
        Stage::Source(into, i)
    } else if f.phase == Phase::Carrying {
        Stage::Discarding
    } else if into == Place::Scratch {
        Stage::Homing(Place::Scratch)
    } else {
        Stage::CheckRepo
    }
}

/// What a stage and the answer to its act lead to.
pub fn step(f: Facts, stage: Stage, answer: Answer) -> (r: Next)
    requires
        stage matches Stage::Source(_, i) ==> i < f.carried,
        stage matches Stage::Moving(_, i) ==> i < f.carried,
    ensures
        r == next(f, stage, answer),
{
    if answer == Answer::Failed && stage != Stage::Discarding {
        return Next::Stop(Refusal::Host);
    }
    let yes = answer == Answer::Yes;
    let after = if f.scratch { Stage::CheckScratch } else { Stage::Closing };
    match stage {
        Stage::Source(into, i) => Next::Go(
            if yes { Stage::Home(into, i) } else { carry_stage(f, into, i + 1) },
        ),
        Stage::Home(into, i) => if yes {
            Next::Stop(Refusal::BothCopies(i))
        } else {
            Next::Go(Stage::Moving(into, i))
        },
        Stage::Moving(into, i) => Next::Go(carry_stage(f, into, i + 1)),
        Stage::Discarding => Next::Go(Stage::Closing),
        Stage::SeeScratch => Next::Go(Stage::SeeRepo(yes)),
        Stage::SeeRepo(scratch) => Next::Go(Stage::SeeTmp(scratch, yes)),
        Stage::SeeTmp(scratch, repo) => if scratch && repo && yes {
            Next::Stop(Refusal::ThreeTrees)
        } else if !repo && scratch {
            Next::Go(carry_stage(f, Place::Scratch, 0))
        } else if !repo && yes {
            Next::Go(Stage::Homing(Place::Tmp))
        } else {
            Next::Go(carry_stage(f, Place::Repo, 0))
        },
        Stage::Homing(_) => Next::Go(Stage::CheckRepo),
        Stage::CheckRepo => if !yes {
            Next::Stop(Refusal::NoTree)
        } else if !f.parent {
            Next::Stop(Refusal::NoParent)
        } else if !f.name {
            Next::Stop(Refusal::NoName)
        } else {
            Next::Go(Stage::CheckTmp)
        },
        Stage::CheckTmp => Next::Go(if yes { Stage::ParkTmp } else { after }),
        Stage::ParkTmp => Next::Go(after),
        Stage::CheckScratch => Next::Go(if yes { Stage::ParkScratch } else { Stage::Closing }),
        Stage::ParkScratch => Next::Go(Stage::Closing),
        Stage::Closing => Next::Go(Stage::Finished),
        Stage::Finished => Next::Go(Stage::Finished),
    }
}

/// A recovery under way.
#[derive(Debug)]
pub struct Recovery {
    pub journal: Journal,
    pub target: GenerationId,
    pub facts: Facts,
    pub stage: Stage,
    pub published: bool,
    pub old_tree: Option<HostPath>,
}

/// The facts that a journal gives on a platform.
pub open spec fn facts_of(journal: Journal, scratch: bool) -> Facts {
    Facts {
        phase: journal.phase,
        carried: journal.carried@.len() as usize,
        scratch: scratch && parent_of(journal.repo_root@) is Some && file_name_of(
            journal.repo_root@,
        ) is Some,
        parent: parent_of(journal.repo_root@) is Some,
        name: file_name_of(journal.repo_root@) is Some,
    }
}

/// Whether a recovery that goes on has noted what it found: that the exchange
/// had been done, and where a tree was parked.
pub open spec fn notes(p: Recovery, answer: Answer, parked: Option<HostPath>, q: Recovery) -> bool {
    &&& q.published == (p.published || (p.stage == Stage::SeeTmp(true, true) && answer
        != Answer::Yes))
    &&& q.old_tree == if p.stage == Stage::ParkTmp || p.stage == Stage::ParkScratch {
        parked
    } else {
        p.old_tree
    }
}

impl Recovery {
    /// What holds between two acts: the facts are those of the journal and no
    /// stage names a carried path that there is not.
    pub open spec fn wf(&self) -> bool {
        &&& self.facts == facts_of(self.journal, self.facts.scratch)
        &&& in_range(self.facts, self.stage)
    }

    /// Starts to recover from a journal. `scratch` says whether exchanges go
    /// through a scratch name on this platform.
    pub fn begin(journal: Journal, scratch: bool) -> (r: Result<Recovery, EngineError>)
        ensures
            match r {
                Ok(recovery) => {
                    &&& recovery.wf()
                    &&& recovery.journal == journal
                    &&& recovery.facts == facts_of(journal, scratch)
                    &&& recovery.stage == first_stage(recovery.facts)
                    &&& !recovery.published
                    &&& recovery.old_tree is None
                    &&& is_hex_text(journal.target_generation@)
                    &&& journal.target_generation@.len() == 2 * DIGEST_BYTES
                    &&& recovery.target@ == unhex(journal.target_generation@)
                },
                Err(EngineError::Restore(text)) => if !is_hex_text(journal.target_generation@) {
                    text@ == "rewind generation: "@ + crate::digest::hex_complaint(
                        journal.target_generation@,
                    )
                } else {
                    &&& journal.target_generation@.len() != 2 * DIGEST_BYTES
                    &&& text@ == "rewind generation must be 32 bytes"@
                },
                Err(_) => false,
            },
    {
        let target = match decode_generation(journal.target_generation.as_str()) {
            Ok(target) => target,
            Err(DigestError::NotHex(detail)) => {
                let mut message = "rewind generation: ".to_owned();
                message.append(detail.as_str());
                return Err(EngineError::Restore(message));
            },
            Err(DigestError::WrongLength) => {
                return Err(
                    EngineError::Restore("rewind generation must be 32 bytes".to_owned()),
                );
            },
        };
        let parent = journal.repo_root.parent().is_some();
        let name = journal.repo_root.file_name().is_some();
        let facts = Facts {
            phase: journal.phase,
            carried: journal.carried.len(),
            scratch: scratch && parent && name,
            parent,
            name,
        };
        let stage = match journal.phase {
            Phase::Materializing => Stage::Discarding,
            Phase::RestoringHead => Stage::Finished,
            Phase::Carrying => carry_stage(facts, Place::Repo, 0),
            Phase::Swapping => if facts.scratch {
                Stage::SeeScratch
            } else {
                Stage::SeeRepo(false)
            },
        };
        Ok(Recovery { journal, target, facts, stage, published: false, old_tree: None })
    }

    /// The act to perform now.
    pub fn act(&self) -> (r: Act)
        ensures
            r == act_of(self.stage),
    {
        match self.stage {
            Stage::Source(_, i) => Act::LookCarried(Place::Tmp, i),
            Stage::Home(into, i) => Act::LookCarried(into, i),
            Stage::Moving(into, i) => Act::MoveCarried(into, i),
            Stage::Discarding => Act::Discard,
            Stage::SeeScratch => Act::Look(Place::Scratch),
            Stage::SeeRepo(_) => Act::Look(Place::Repo),
            Stage::SeeTmp(_, _) => Act::Look(Place::Tmp),
            Stage::Homing(from) => Act::MoveHome(from),
            Stage::CheckRepo => Act::Look(Place::Repo),
            Stage::CheckTmp => Act::Look(Place::Tmp),
            Stage::ParkTmp => Act::Park(Place::Tmp),
            Stage::CheckScratch => Act::Look(Place::Scratch),
            Stage::ParkScratch => Act::Park(Place::Scratch),
            Stage::Closing => Act::RemoveJournal,
            Stage::Finished => Act::Finish,
        }
    }

    /// Takes what came of the act: `text` describes a failure of the host, and
    /// `parked` says where a tree was parked. An error ends the recovery with
    /// the journal and every tree kept.
    pub fn advance(&mut self, answer: Answer, parked: Option<HostPath>, text: String) -> (r: Result<
        (),
        EngineError,
    >)
        requires
            old(self).wf(),
        ensures
            r is Ok ==> notes(*old(self), answer, parked, *final(self)),
            final(self).wf(),
            final(self).journal == old(self).journal,
            final(self).target == old(self).target,
            final(self).facts == old(self).facts,
            match next(old(self).facts, old(self).stage, answer) {
                Next::Go(stage) => {
                    &&& r is Ok
                    &&& final(self).stage == stage
                    &&& final(self).published == (old(self).published || (old(self).stage
                        == Stage::SeeTmp(true, true) && answer != Answer::Yes))
                    &&& final(self).old_tree == if old(self).stage == Stage::ParkTmp
                        || old(self).stage == Stage::ParkScratch {
                        parked
                    } else {
                        old(self).old_tree
                    }
                },
                Next::Stop(refusal) => {
                    &&& *final(self) == *old(self)
                    &&& r matches Err(error) && is_refusal(
                        refusal,
                        old(self).journal,
                        old(self).stage,
                        text,
                        error,
                    )
                },
            },
    {
        match step(self.facts, self.stage, answer) {
            Next::Go(stage) => {
                if let Stage::SeeTmp(scratch, repo) = self.stage {
                    if scratch && repo && answer != Answer::Yes {
                        self.published = true;
                    }
                }
                if self.stage == Stage::ParkTmp || self.stage == Stage::ParkScratch {
                    self.old_tree = parked;
                }
                self.stage = stage;
                Ok(())
            },
            Next::Stop(refusal) => Err(refused(refusal, &self.journal, self.stage, text)),
        }
    }

    /// What a finished recovery reports.
    pub fn finish(self) -> (r: RecoveredSwap)
        ensures
            r.published == self.published,
            r.old_tree == self.old_tree,
            r.target == self.target,
    {
        RecoveredSwap { published: self.published, old_tree: self.old_tree, target: self.target }
    }

    /// Where a carried path stands in the tree at a place; nothing for a
    /// scratch name that cannot be.
    pub fn carried_path(&self, root: &HostPath, i: usize) -> (r: HostPath)
        requires
            i < self.journal.carried@.len(),
        ensures
            r@ == crate::path::joined(root@, self.journal.carried@[i as int]@),
    {
        root.join_bytes(self.journal.carried[i].bytes.as_slice())
    }
}

/// Whether a stage names only carried paths that there are.
pub open spec fn in_range(f: Facts, stage: Stage) -> bool {
    match stage {
        Stage::Source(_, i) => i < f.carried,
        Stage::Home(_, i) => i < f.carried,
        Stage::Moving(_, i) => i < f.carried,
        _ => true,
    }
}

/// Whether an error is what a refusal is reported as.
pub open spec fn is_refusal(
    refusal: Refusal,
    journal: Journal,
    stage: Stage,
    text: String,
    error: EngineError,
) -> bool {
    match refusal {
        Refusal::ThreeTrees => error matches EngineError::Restore(t) && t@
            == "rewind recovery found three live trees; refusing to discard any"@,
        Refusal::BothCopies(i) => error matches EngineError::Restore(t) && t@
            == "rewind recovery found both copies of carried path "@ + crate::path::lossy_text(
            journal.carried@[i as int]@,
        ),
        Refusal::NoTree => error matches EngineError::Restore(t) && t@
            == "rewind recovery could not find a complete repository tree"@,
        Refusal::NoParent => error matches EngineError::Restore(t) && t@
            == "rewind repo root has no parent"@,
        Refusal::NoName => error matches EngineError::Restore(t) && t@
            == "rewind repo root has no name"@,
        Refusal::Host => if stage == Stage::ParkTmp || stage == Stage::ParkScratch {
            error == EngineError::Restore(text)
        } else {
            error == EngineError::Io(text)
        },
    }
}

fn refused(refusal: Refusal, journal: &Journal, stage: Stage, text: String) -> (error: EngineError)
    requires
        refusal matches Refusal::BothCopies(i) ==> i < journal.carried@.len(),
    ensures
        is_refusal(refusal, *journal, stage, text, error),
{
    match refusal {
        Refusal::ThreeTrees => EngineError::Restore(
            "rewind recovery found three live trees; refusing to discard any".to_owned(),
        ),
        Refusal::BothCopies(i) => {
            let mut message = "rewind recovery found both copies of carried path ".to_owned();
            message.append(journal.carried[i].display().as_str());
            EngineError::Restore(message)
        },
        Refusal::NoTree => EngineError::Restore(
            "rewind recovery could not find a complete repository tree".to_owned(),
        ),
        Refusal::NoParent => EngineError::Restore("rewind repo root has no parent".to_owned()),
        Refusal::NoName => EngineError::Restore("rewind repo root has no name".to_owned()),
        Refusal::Host => if stage == Stage::ParkTmp || stage == Stage::ParkScratch {
            EngineError::Restore(text)
        } else {
            EngineError::Io(text)
        },
    }
}

} // verus!
