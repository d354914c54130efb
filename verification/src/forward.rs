//! The way of a rewind: the target is materialized beside the repository, the
//! excluded paths move over, and the two trees change places. The journal is
//! written ahead of each part, so that a crash at any step leaves a disk that
//! recovery makes whole.
use vstd::prelude::*;
use crate::crash::{all, interrupted, keeps, law_recovery_leaves_old_or_new, run, whole, Disk, Tree, Which};
use crate::error::EngineError;
use crate::path::{file_name_of, lossy_text, parent_of, HostPath};
use crate::recovery::{facts_of, first_stage, Facts, Journal, Phase};
use crate::rewind::{publishes, PreparedRewind};

verus! {

/// What the way depends on.
#[derive(Clone, Copy, Debug, PartialEq, Eq, Structural)]
pub struct Way {
    /// How many paths are carried.
    pub carried: usize,
    /// Whether exchanges go through a scratch name here.
    pub scratch: bool,
}

/// Where a rewind is.
#[derive(Clone, Copy, Debug, PartialEq, Eq, Structural)]
pub enum Stage {
    /// Making the directory for the new tree.
    Staging,
    /// Noting that it is being filled, and filling it.
    NotingTree,
    Materializing,
    /// It could not be filled: removing it, then the journal.
    Clearing,
    Dropping,
    /// Given up; the repository is as it was.
    Abandoned,
    /// Noting that the new tree is complete.
    NotingReady,
    /// Noting beside the repository where the journal is.
    Locating,
    /// Noting that paths move, and moving them one by one.
    NotingCarry,
    Carrying(usize),
    /// Noting that the trees change places.
    NotingSwap,
    /// Exchanging them in one step.
    Exchanging,
    /// Exchanging them in three: the old tree to the scratch name, the new one
    /// home, the old one to the new one's place.
    MovingAside,
    MovingIn,
    MovingBehind,
    /// Parking the old tree.
    Parking,
    /// Removing the journal and the note beside the repository.
    Closing,
    Forgetting,
    Finished,
}

/// One thing to do on the host.
#[derive(Clone, Copy, Debug, PartialEq, Eq, Structural)]
pub enum Act {
    /// Remove whatever stands in the new tree's place and make a directory.
    MakeTmp,
    /// Put a journal of a phase in place of what was there.
    WriteJournal(Phase),
    Materialize,
    RemoveTmp,
    RemoveJournal,
    WriteLocator,
    RemoveLocator,
    /// Move the carried path of a number from the repository to the new tree.
    Carry(usize),
    Exchange,
    MoveAside,
    MoveIn,
    MoveBehind,
    /// Move what stands in the new tree's place to a fresh name beside the
    /// repository.
    Park,
    /// Nothing is left to do.
    Finish,
}

/// The act of a stage.
pub open spec fn act_of(stage: Stage) -> Act {
    match stage {
        Stage::Staging => Act::MakeTmp,
        Stage::NotingTree => Act::WriteJournal(Phase::Materializing),
        Stage::Materializing => Act::Materialize,
        Stage::Clearing => Act::RemoveTmp,
        Stage::Dropping => Act::RemoveJournal,
        Stage::Abandoned => Act::Finish,
        Stage::NotingReady => Act::WriteJournal(Phase::RestoringHead),
        Stage::Locating => Act::WriteLocator,
        Stage::NotingCarry => Act::WriteJournal(Phase::Carrying),
        Stage::Carrying(i) => Act::Carry(i),
        Stage::NotingSwap => Act::WriteJournal(Phase::Swapping),
        Stage::Exchanging => Act::Exchange,
        Stage::MovingAside => Act::MoveAside,
        Stage::MovingIn => Act::MoveIn,
        Stage::MovingBehind => Act::MoveBehind,
        Stage::Parking => Act::Park,
        Stage::Closing => Act::RemoveJournal,
        Stage::Forgetting => Act::RemoveLocator,
        Stage::Finished => Act::Finish,
    }
}

/// The stage that moves the carried paths from a number on.
pub open spec fn carry_from(w: Way, i: int) -> Stage {
    if i < w.carried { Stage::Carrying(i as usize) } else { Stage::NotingSwap }
}

/// What a stage leads to; nothing where the rewind stops with everything kept
/// as it is, for recovery to see to. A tree that could not be materialized is
/// garbage, and failing to remove garbage stops nothing.
pub open spec fn next(w: Way, stage: Stage, done: bool) -> Option<Stage> {
    match stage {
        Stage::Materializing => Some(if done { Stage::NotingReady } else { Stage::Clearing }),
        Stage::Clearing => Some(Stage::Dropping),
        Stage::Dropping => Some(Stage::Abandoned),
        Stage::Abandoned => Some(Stage::Abandoned),
        Stage::Forgetting => Some(Stage::Finished),
        Stage::Finished => Some(Stage::Finished),
        _ => if !done {
            None
        } else {
            match stage {
                Stage::Staging => Some(Stage::NotingTree),
                Stage::NotingTree => Some(Stage::Materializing),
                Stage::NotingReady => Some(Stage::Locating),
                Stage::Locating => Some(Stage::NotingCarry),
                Stage::NotingCarry => Some(carry_from(w, 0)),
                Stage::Carrying(i) => Some(carry_from(w, i + 1)),
                Stage::NotingSwap => Some(
                    if w.scratch { Stage::MovingAside } else { Stage::Exchanging },
                ),
                Stage::Exchanging => Some(Stage::Parking),
                Stage::MovingAside => Some(Stage::MovingIn),
                Stage::MovingIn => Some(Stage::MovingBehind),
                Stage::MovingBehind => Some(Stage::Parking),
                Stage::Parking => Some(Stage::Closing),
                _ => Some(Stage::Forgetting),
            }
        },
    }
}

/// The act to perform at a stage.
pub fn act(stage: Stage) -> (r: Act)
    ensures
        r == act_of(stage),
{
    match stage {
        Stage::Staging => Act::MakeTmp,
        Stage::NotingTree => Act::WriteJournal(Phase::Materializing),
        Stage::Materializing => Act::Materialize,
        Stage::Clearing => Act::RemoveTmp,
        Stage::Dropping => Act::RemoveJournal,
        Stage::Abandoned => Act::Finish,
        Stage::NotingReady => Act::WriteJournal(Phase::RestoringHead),
        Stage::Locating => Act::WriteLocator,
        Stage::NotingCarry => Act::WriteJournal(Phase::Carrying),
        Stage::Carrying(i) => Act::Carry(i),
        Stage::NotingSwap => Act::WriteJournal(Phase::Swapping),
        Stage::Exchanging => Act::Exchange,
        Stage::MovingAside => Act::MoveAside,
        Stage::MovingIn => Act::MoveIn,
        Stage::MovingBehind => Act::MoveBehind,
        Stage::Parking => Act::Park,
        Stage::Closing => Act::RemoveJournal,
        Stage::Forgetting => Act::RemoveLocator,
        Stage::Finished => Act::Finish,
    }
}

/// What a stage leads to once its act is done, or has failed.
pub fn step(w: Way, stage: Stage, done: bool) -> (r: Option<Stage>)
    ensures
        r == next(w, stage, done),
{
    match stage {
        Stage::Materializing => Some(if done { Stage::NotingReady } else { Stage::Clearing }),
        Stage::Clearing => Some(Stage::Dropping),
        Stage::Dropping => Some(Stage::Abandoned),
        Stage::Abandoned => Some(Stage::Abandoned),
        Stage::Forgetting => Some(Stage::Finished),
        Stage::Finished => Some(Stage::Finished),
        _ => if !done {
            None
        } else {
            match stage {
                Stage::Staging => Some(Stage::NotingTree),
                Stage::NotingTree => Some(Stage::Materializing),
                Stage::NotingReady => Some(Stage::Locating),
                Stage::Locating => Some(Stage::NotingCarry),
                Stage::NotingCarry => Some(
                    if w.carried > 0 { Stage::Carrying(0) } else { Stage::NotingSwap },
                ),
                Stage::Carrying(i) => Some(
                    if i < w.carried && i + 1 < w.carried {
                        Stage::Carrying(i + 1)
                    } else {
                        Stage::NotingSwap
                    },
                ),
                Stage::NotingSwap => Some(
                    if w.scratch { Stage::MovingAside } else { Stage::Exchanging },
                ),
                Stage::Exchanging => Some(Stage::Parking),
                Stage::MovingAside => Some(Stage::MovingIn),
                Stage::MovingIn => Some(Stage::MovingBehind),
                Stage::MovingBehind => Some(Stage::Parking),
                Stage::Parking => Some(Stage::Closing),
                _ => Some(Stage::Forgetting),
            }
        },
    }
}

/// Whether an error is what a rewind reports that failed at a stage.
pub open spec fn is_failure(
    stage: Stage,
    tmp: Seq<u8>,
    text: Seq<char>,
    error: EngineError,
) -> bool {
    match stage {
        Stage::Staging => error matches EngineError::Restore(t) && t@ == "rewind: stage "@
            + lossy_text(tmp) + ": "@ + text,
        Stage::Materializing => error matches EngineError::Restore(t) && t@ == "materialize: "@
            + text,
        Stage::Exchanging | Stage::MovingAside | Stage::MovingIn | Stage::MovingBehind =>
            error matches EngineError::Restore(t) && t@ == "publish tree: "@ + text,
        Stage::Carrying(_) | Stage::Locating | Stage::Closing => error matches EngineError::Io(t)
            && t@ == text,
        _ => error matches EngineError::Restore(t) && t@ == text,
    }
}

/// What a rewind reports that failed at a stage, where the new tree's place
/// and a description of the failure are given.
pub fn failure(stage: Stage, tmp: &HostPath, text: &str) -> (error: EngineError)
    ensures
        is_failure(stage, tmp@, text@, error),
{
    match stage {
        Stage::Staging => {
            let mut message = "rewind: stage ".to_owned();
            message.append(tmp.display().as_str());
            message.append(": ");
            message.append(text);
            EngineError::Restore(message)
        },
        Stage::Materializing => {
            let mut message = "materialize: ".to_owned();
            message.append(text);
            EngineError::Restore(message)
        },
        Stage::Exchanging | Stage::MovingAside | Stage::MovingIn | Stage::MovingBehind => {
            let mut message = "publish tree: ".to_owned();
            message.append(text);
            EngineError::Restore(message)
        },
        Stage::Carrying(_) | Stage::Locating | Stage::Closing => EngineError::Io(text.to_owned()),
        _ => EngineError::Restore(text.to_owned()),
    }
}

/// What stands on disk, and the phase that the journal names where there is
/// one.
pub struct Scene {
    pub disk: Disk,
    pub phase: Option<Phase>,
}

/// The numbers of all carried paths.
pub open spec fn numbers(w: Way) -> Set<int> {
    Set::new(|i: int| 0 <= i < w.carried)
}

/// A tree of a kind with carried paths in it.
pub open spec fn tree(which: Which, carried: Set<int>) -> Option<Tree> {
    Some(Tree { which, carried })
}

/// What an act makes of the disk.
pub open spec fn perform(s: Scene, act: Act) -> Scene {
    let disk = s.disk;
    match act {
        Act::MakeTmp => Scene { disk: Disk { tmp: tree(Which::Partial, Set::empty()), ..disk }, ..s },
        Act::WriteJournal(phase) => Scene {
            disk: Disk { journal: true, ..disk },
            phase: Some(phase),
        },
        Act::Materialize => Scene { disk: Disk { tmp: tree(Which::New, Set::empty()), ..disk }, ..s },
        Act::RemoveTmp => Scene { disk: Disk { tmp: None, ..disk }, ..s },
        Act::RemoveJournal => Scene { disk: Disk { journal: false, ..disk }, phase: None },
        Act::Carry(i) => Scene {
            disk: Disk {
                repo: tree(disk.repo->0.which, disk.repo->0.carried.remove(i as int)),
                tmp: tree(disk.tmp->0.which, disk.tmp->0.carried.insert(i as int)),
                ..disk
            },
            ..s
        },
        Act::Exchange => Scene { disk: Disk { repo: disk.tmp, tmp: disk.repo, ..disk }, ..s },
        Act::MoveAside => Scene { disk: Disk { scratch: disk.repo, repo: None, ..disk }, ..s },
        Act::MoveIn => Scene { disk: Disk { repo: disk.tmp, tmp: None, ..disk }, ..s },
        Act::MoveBehind => Scene { disk: Disk { tmp: disk.scratch, scratch: None, ..disk }, ..s },
        Act::Park => Scene {
            disk: Disk { parked: disk.parked.push(disk.tmp->0), tmp: None, ..disk },
            ..s
        },
        _ => s,
    }
}

/// The disk when a rewind is at a stage, has tried a number of acts, of which
/// those succeed that the host lets succeed, and then crashes. A failed act
/// changes nothing.
pub open spec fn crashed_after(w: Way, stage: Stage, s: Scene, host: Seq<bool>) -> Scene
    decreases host.len(),
{
    if host.len() == 0 {
        s
    } else {
        let after = if host[0] { perform(s, act_of(stage)) } else { s };
        match next(w, stage, host[0]) {
            None => after,
            Some(later) => crashed_after(w, later, after, host.skip(1)),
        }
    }
}

/// Whether the repository is the old tree, whole, and nothing stands on the
/// scratch name.
pub open spec fn untouched(w: Way, s: Scene) -> bool {
    &&& s.disk.journal == (s.phase is Some)
    &&& s.disk.scratch is None
    &&& s.disk.repo == tree(Which::Old, numbers(w))
    &&& s.disk.tmp matches Some(t) ==> t.which != Which::Old
}

/// Whether the new tree stands complete beside the untouched repository.
pub open spec fn prepared(w: Way, s: Scene) -> bool {
    &&& untouched(w, s)
    &&& s.phase == Some(Phase::RestoringHead)
    &&& s.disk.tmp == tree(Which::New, Set::empty())
}

/// What holds of the disk at each stage.
pub open spec fn fits(w: Way, stage: Stage, s: Scene) -> bool {
    let disk = s.disk;
    let swapping = s.phase == Some(Phase::Swapping) && disk.journal;
    match stage {
        Stage::Staging | Stage::NotingTree => untouched(w, s) && s.phase is None,
        Stage::Materializing | Stage::Clearing | Stage::Dropping => untouched(w, s) && s.phase
            == Some(Phase::Materializing),
        Stage::Abandoned => untouched(w, s) && (s.phase is None || s.phase == Some(
            Phase::Materializing,
        )),
        Stage::NotingReady => {
            &&& untouched(w, s)
            &&& s.phase == Some(Phase::Materializing)
            &&& disk.tmp == tree(Which::New, Set::empty())
        },
        Stage::Locating | Stage::NotingCarry => prepared(w, s),
        Stage::Carrying(i) => {
            &&& i < w.carried
            &&& s.phase == Some(Phase::Carrying) && disk.journal
            &&& disk.scratch is None
            &&& disk.repo == tree(Which::Old, Set::new(|j: int| i <= j < w.carried))
            &&& disk.tmp == tree(Which::New, Set::new(|j: int| 0 <= j < i))
        },
        Stage::NotingSwap => {
            &&& s.phase == Some(Phase::Carrying) && disk.journal
            &&& disk.scratch is None
            &&& disk.repo == tree(Which::Old, Set::empty())
            &&& disk.tmp == tree(Which::New, numbers(w))
        },
        Stage::Exchanging | Stage::MovingAside => {
            &&& swapping
            &&& w.scratch == (stage == Stage::MovingAside)
            &&& disk.scratch is None
            &&& disk.repo == tree(Which::Old, Set::empty())
            &&& disk.tmp == tree(Which::New, numbers(w))
        },
        Stage::MovingIn => {
            &&& swapping && w.scratch
            &&& disk.repo is None
            &&& disk.scratch == tree(Which::Old, Set::empty())
            &&& disk.tmp == tree(Which::New, numbers(w))
        },
        Stage::MovingBehind => {
            &&& swapping && w.scratch
            &&& disk.repo == tree(Which::New, numbers(w))
            &&& disk.scratch == tree(Which::Old, Set::empty())
            &&& disk.tmp is None
        },
        Stage::Parking => {
            &&& swapping
            &&& disk.repo == tree(Which::New, numbers(w))
            &&& disk.tmp == tree(Which::Old, Set::empty())
            &&& disk.scratch is None
        },
        Stage::Closing => {
            &&& swapping
            &&& disk.repo == tree(Which::New, numbers(w))
            &&& disk.tmp is None && disk.scratch is None
            &&& parked_old(disk)
        },
        Stage::Forgetting | Stage::Finished => {
            &&& s.phase is None && !disk.journal
            &&& disk.repo == tree(Which::New, numbers(w))
            &&& disk.tmp is None && disk.scratch is None
            &&& parked_old(disk)
        },
    }
}

/// Whether the old tree was parked last.
pub open spec fn parked_old(disk: Disk) -> bool {
    disk.parked.len() > 0 && disk.parked.last().which == Which::Old
}

proof fn lemma_step(w: Way, stage: Stage, s: Scene, done: bool)
    requires
        fits(w, stage, s),
    ensures
        next(w, stage, done) matches Some(later) ==> fits(
            w,
            later,
            if done { perform(s, act_of(stage)) } else { s },
        ),
{
    let after = perform(s, act_of(stage));
    match stage {
        Stage::NotingCarry => {
            assert(numbers(w) =~= Set::new(|j: int| 0 <= j < w.carried));
            assert(Set::<int>::empty() =~= Set::new(|j: int| 0 <= j < 0));
            if w.carried == 0 {
                assert(numbers(w) =~= Set::empty());
            }
        },
        Stage::Carrying(i) => {
            let left = Set::new(|j: int| i <= j < w.carried);
            let moved = Set::new(|j: int| 0 <= j < i);
            assert(left.remove(i as int) =~= Set::new(|j: int| i + 1 <= j < w.carried));
            assert(moved.insert(i as int) =~= Set::new(|j: int| 0 <= j < i + 1));
            if i + 1 >= w.carried {
                assert(left.remove(i as int) =~= Set::empty());
                assert(moved.insert(i as int) =~= numbers(w));
            }
        },
        _ => {},
    }
}

/// What the journal of a phase tells recovery: while the new tree is being
/// filled it lists no carried paths.
pub open spec fn journal_facts(w: Way, phase: Phase) -> Facts {
    Facts {
        phase,
        carried: if phase == Phase::Materializing { 0 } else { w.carried },
        scratch: w.scratch,
        parent: true,
        name: true,
    }
}

/// The journals of a prepared rewind tell recovery just that.
pub proof fn law_journals_say_what_recovery_needs(
    p: PreparedRewind,
    phase: Phase,
    j: Journal,
    scratch: bool,
)
    requires
        parent_of(p.repo_root@) is Some,
        file_name_of(p.repo_root@) is Some,
        j.repo_root@ == p.repo_root@,
        j.phase == phase,
        phase == Phase::Materializing ==> j.carried@.len() == 0,
        phase != Phase::Materializing ==> j.carried@.len() == p.carried@.len(),
        p.carried@.len() <= usize::MAX,
    ensures
        facts_of(j, scratch) == journal_facts(
            (Way { carried: p.carried@.len() as usize, scratch }),
            phase,
        ),
{
}

/// A journal is enough to go by: whatever phase it was written in, recovery reads
/// the target of the rewind out of it, and once the new tree is complete every
/// carried path under its number.
pub proof fn law_journals_hold_the_rewind(p: PreparedRewind, phase: Phase, j: Journal, scratch: bool)
    requires
        parent_of(p.repo_root@) is Some,
        file_name_of(p.repo_root@) is Some,
        crate::rewind::is_journal(p, phase, j),
        p.carried@.len() <= usize::MAX,
    ensures
        crate::digest::unhex(j.target_generation@) == p.target@,
        j.repo_root@ == p.repo_root@,
        j.tmp@ == p.tmp@,
        facts_of(j, scratch) == journal_facts(
            (Way { carried: p.carried@.len() as usize, scratch }),
            phase,
        ),
        phase != Phase::Materializing ==> j.carried@.len() == p.carried@.len() && forall|i: int|
            0 <= i < p.carried@.len() ==> (#[trigger] j.carried@[i])@ == p.carried@[i]@,
{
    crate::digest::law_hex_round_trip(p.target@);
}

/// What recovery makes of a disk after a crash; without a journal, nothing.
pub open spec fn recovered(w: Way, s: Scene) -> Option<Disk> {
    match s.phase {
        None => Some(s.disk),
        Some(phase) => run(
            journal_facts(w, phase),
            first_stage(journal_facts(w, phase)),
            s.disk,
        ),
    }
}

/// Whether the repository is one whole tree, old or new, with every carried
/// path in it.
pub open spec fn old_or_new(w: Way, disk: Disk) -> bool {
    disk.repo == tree(Which::Old, numbers(w)) || disk.repo == tree(Which::New, numbers(w))
}

proof fn lemma_fits_is_handled(w: Way, stage: Stage, s: Scene)
    requires
        fits(w, stage, s),
    ensures
        s.phase matches Some(phase) ==> {
            ||| interrupted(Facts { carried: w.carried, ..journal_facts(w, phase) }, s.disk)
            ||| phase == Phase::RestoringHead && prepared(w, s)
        },
        s.phase is None ==> old_or_new(w, s.disk),
        s.phase == Some(Phase::Materializing) ==> untouched(w, s),
        keeps(s.disk, Which::Old),
{
    if let Some(phase) = s.phase {
        let f = Facts { carried: w.carried, ..journal_facts(w, phase) };
        assert(all(f) =~= numbers(w));
        if let Stage::Carrying(i) = stage {
            let left = Set::new(|j: int| i <= j < w.carried);
            let moved = Set::new(|j: int| 0 <= j < i);
            assert(left.union(moved) =~= all(f));
            assert(left.disjoint(moved));
        }
        assert(Set::<int>::empty().union(numbers(w)) =~= all(f));
        assert(numbers(w).union(Set::<int>::empty()) =~= all(f));
    }
    if parked_old(s.disk) {
        assert(s.disk.parked[s.disk.parked.len() - 1].which == Which::Old);
    }
}

proof fn lemma_crashed_fits(w: Way, stage: Stage, s: Scene, host: Seq<bool>) -> (at: Stage)
    requires
        fits(w, stage, s),
    ensures
        fits(w, at, crashed_after(w, stage, s, host)),
    decreases host.len(),
{
    if host.len() == 0 {
        stage
    } else {
        lemma_step(w, stage, s, host[0]);
        let after = if host[0] { perform(s, act_of(stage)) } else { s };
        match next(w, stage, host[0]) {
            None => stage,
            Some(later) => lemma_crashed_fits(w, later, after, host.skip(1)),
        }
    }
}

/// Where a rewind can begin: at its first act, or, for a tree that a crash
/// left complete, where it is to be published.
pub open spec fn begins(w: Way, stage: Stage, s: Scene) -> bool {
    ||| stage == Stage::Staging && untouched(w, s) && s.phase is None
    ||| stage == Stage::Locating && prepared(w, s)
}

/// A crash of a rewind at any step, whatever failed before it, leaves a disk
/// that the journal on it describes: one that recovery knows, or the new tree
/// complete beside the untouched repository, or, without a journal, a whole
/// repository.
pub proof fn law_crashed_rewind_is_known(w: Way, stage: Stage, s: Scene, host: Seq<bool>)
    requires
        begins(w, stage, s),
    ensures
        crashed_after(w, stage, s, host).phase matches Some(phase) ==> {
            ||| interrupted(
                Facts { carried: w.carried, ..journal_facts(w, phase) },
                crashed_after(w, stage, s, host).disk,
            )
            ||| phase == Phase::RestoringHead && prepared(w, crashed_after(w, stage, s, host))
        },
        crashed_after(w, stage, s, host).phase is None ==> old_or_new(
            w,
            crashed_after(w, stage, s, host).disk,
        ),
{
    let at = lemma_crashed_fits(w, stage, s, host);
    lemma_fits_is_handled(w, at, crashed_after(w, stage, s, host));
}

/// A crash of a rewind at any step leaves the repository fully old or fully
/// new once recovery has run, which it does without a refusal, and the old
/// tree is not lost.
pub proof fn law_crashed_rewind_leaves_old_or_new(w: Way, stage: Stage, s: Scene, host: Seq<bool>)
    requires
        begins(w, stage, s),
    ensures
        recovered(w, crashed_after(w, stage, s, host)) matches Some(end) && old_or_new(w, end)
            && keeps(end, Which::Old),
{
    let crashed = crashed_after(w, stage, s, host);
    let at = lemma_crashed_fits(w, stage, s, host);
    lemma_fits_is_handled(w, at, crashed);
    if let Some(phase) = crashed.phase {
        let f = Facts { carried: w.carried, ..journal_facts(w, phase) };
        let g = journal_facts(w, phase);
        if phase == Phase::Materializing {
            reveal_with_fuel(run, 3);
        } else if phase == Phase::RestoringHead {
            reveal_with_fuel(run, 2);
        } else {
            assert(f == g);
            law_recovery_leaves_old_or_new(f, crashed.disk);
            crate::crash::law_recovery_discards_no_tree(f, crashed.disk);
            let end = run(f, first_stage(f), crashed.disk)->0;
            assert(whole(f, end));
            assert(all(f) =~= numbers(w));
            let t = end.repo->0;
            assert(t.carried =~= numbers(w));
        }
    }
}

/// A new tree that a crash left complete is not touched by recovery and is
/// then published: the rewind goes on from there.
pub proof fn law_prepared_tree_is_published(w: Way, s: Scene, journal: Journal)
    requires
        prepared(w, s),
        journal.phase == Phase::RestoringHead,
    ensures
        recovered(w, s) == Some(s.disk),
        publishes(false, Some(journal)),
        begins(w, Stage::Locating, s),
{
    reveal_with_fuel(run, 2);
}

/// On a host that works a rewind ends with the new tree in the repository's
/// place, every carried path in it, and the old tree parked.
pub proof fn law_rewind_puts_the_target_in_place(w: Way, s: Scene)
    requires
        begins(w, Stage::Staging, s),
    ensures
        exists|host: Seq<bool>|
            fits(w, Stage::Finished, #[trigger] crashed_after(w, Stage::Staging, s, host)),
{
    lemma_works(w, Stage::Staging, s);
}

/// On a host that works the tree of the repository's name is the target in the
/// end, complete and with every carried path, no journal and nothing unfinished
/// is left, and the tree of before is parked, not lost.
pub proof fn law_rewind_gets_done(w: Way, s: Scene)
    requires
        begins(w, Stage::Staging, s),
    ensures
        exists|host: Seq<bool>|
            {
                let disk = (#[trigger] crashed_after(w, Stage::Staging, s, host)).disk;
                &&& disk.repo matches Some(t) && t.which == Which::New && (forall|i: int|
                    0 <= i < w.carried ==> t.carried.contains(i))
                &&& disk.tmp is None
                &&& disk.scratch is None
                &&& !disk.journal
                &&& exists|i: int|
                    0 <= i < disk.parked.len() && (#[trigger] disk.parked[i]).which == Which::Old
            },
{
    law_rewind_puts_the_target_in_place(w, s);
    let host = choose|host: Seq<bool>|
        fits(w, Stage::Finished, #[trigger] crashed_after(w, Stage::Staging, s, host));
    let end = crashed_after(w, Stage::Staging, s, host);
    assert(end.disk.repo == tree(Which::New, numbers(w)));
    assert forall|i: int| 0 <= i < w.carried implies end.disk.repo->0.carried.contains(i) by {
        assert(numbers(w).contains(i));
    }
}

/// How far a stage is from the end.
pub open spec fn distance(w: Way, stage: Stage) -> int {
    match stage {
        Stage::Staging => w.carried + 20,
        Stage::NotingTree => w.carried + 19,
        Stage::Materializing => w.carried + 18,
        Stage::NotingReady => w.carried + 17,
        Stage::Locating => w.carried + 16,
        Stage::NotingCarry => w.carried + 15,
        Stage::Carrying(i) => w.carried - i + 13,
        Stage::NotingSwap => 12,
        Stage::Exchanging | Stage::MovingAside => 10,
        Stage::MovingIn => 8,
        Stage::MovingBehind => 7,
        Stage::Parking => 6,
        Stage::Closing => 4,
        Stage::Forgetting => 2,
        _ => 0,
    }
}

proof fn lemma_works(w: Way, stage: Stage, s: Scene)
    requires
        fits(w, stage, s),
        stage != Stage::Clearing && stage != Stage::Dropping && stage != Stage::Abandoned,
    ensures
        exists|host: Seq<bool>|
            fits(w, Stage::Finished, #[trigger] crashed_after(w, stage, s, host)),
    decreases distance(w, stage),
{
    if stage == Stage::Finished {
        let host = Seq::<bool>::empty();
        assert(crashed_after(w, stage, s, host) == s);
    } else {
        lemma_step(w, stage, s, true);
        let later = next(w, stage, true)->0;
        let after = perform(s, act_of(stage));
        lemma_works(w, later, after);
        let rest = choose|host: Seq<bool>|
            fits(w, Stage::Finished, #[trigger] crashed_after(w, later, after, host));
        let host = seq![true] + rest;
        assert(host.skip(1) =~= rest);
        assert(host[0]);
        assert(crashed_after(w, stage, s, host) == crashed_after(w, later, after, rest));
    }
}

} // verus!
