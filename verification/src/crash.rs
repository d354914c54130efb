//! What a crash can leave of a rewind, and what recovery makes of it: the
//! repository ends up wholly old or wholly new, never mixed.
use vstd::prelude::*;
use crate::path::HostPath;
use crate::recovery::{
    act_of, first_stage, in_range, next, notes, Act, Answer, Facts, Next, Phase, Place, Recovery,
    Stage,
};

verus! {

/// Which tree something is.
pub enum Which {
    /// The tree that the rewind replaces.
    Old,
    /// The tree that it restores, complete.
    New,
    /// What of the new tree was written before a crash.
    Partial,
}

/// A tree on disk, with the numbers of the carried paths that it holds.
pub struct Tree {
    pub which: Which,
    pub carried: Set<int>,
}

/// What stands on disk.
pub struct Disk {
    pub repo: Option<Tree>,
    pub tmp: Option<Tree>,
    pub scratch: Option<Tree>,
    pub parked: Seq<Tree>,
    pub journal: bool,
}

/// The numbers of all carried paths.
pub open spec fn all(f: Facts) -> Set<int> {
    Set::new(|i: int| 0 <= i < f.carried)
}

pub open spec fn at(disk: Disk, place: Place) -> Option<Tree> {
    match place {
        Place::Repo => disk.repo,
        Place::Tmp => disk.tmp,
        Place::Scratch => disk.scratch,
    }
}

pub open spec fn put(disk: Disk, place: Place, tree: Option<Tree>) -> Disk {
    match place {
        Place::Repo => Disk { repo: tree, ..disk },
        Place::Tmp => Disk { tmp: tree, ..disk },
        Place::Scratch => Disk { scratch: tree, ..disk },
    }
}

/// What a host that works answers to an act.
pub open spec fn answer(disk: Disk, act: Act) -> Answer {
    match act {
        Act::Look(place) => if at(disk, place) is Some { Answer::Yes } else { Answer::No },
        Act::LookCarried(place, i) => if at(disk, place) matches Some(t) && t.carried.contains(
            i as int,
        ) {
            Answer::Yes
        } else {
            Answer::No
        },
        _ => Answer::Done,
    }
}

/// What an act makes of the disk.
pub open spec fn perform(disk: Disk, act: Act) -> Disk {
    match act {
        Act::MoveCarried(into, i) => {
            let from = disk.tmp->0;
            let to = at(disk, into)->0;
            put(
                Disk { tmp: Some(Tree { carried: from.carried.remove(i as int), ..from }), ..disk },
                into,
                Some(Tree { carried: to.carried.insert(i as int), ..to }),
            )
        },
        Act::MoveHome(from) => Disk { repo: at(disk, from), ..put(disk, from, None) },
        Act::Discard => Disk { tmp: None, ..disk },
        Act::Park(place) => Disk {
            parked: disk.parked.push(at(disk, place)->0),
            ..put(disk, place, None)
        },
        Act::RemoveJournal => Disk { journal: false, ..disk },
        _ => disk,
    }
}

/// Whether two trees hold every carried path exactly once between them, the
/// second being absent where it holds none.
pub open spec fn shared_out(f: Facts, one: Tree, other: Option<Tree>) -> bool {
    match other {
        Some(t) => {
            &&& one.carried.union(t.carried) =~= all(f)
            &&& one.carried.disjoint(t.carried)
        },
        None => one.carried =~= all(f),
    }
}

/// Whether a rewind that crashed, or a recovery that crashed after it, can
/// have left this disk.
pub open spec fn interrupted(f: Facts, disk: Disk) -> bool {
    &&& disk.journal
    &&& f.parent && f.name
    &&& !f.scratch ==> disk.scratch is None
    &&& match f.phase {
        Phase::Materializing => {
            &&& disk.scratch is None
            &&& disk.repo matches Some(t) && t.which == Which::Old && t.carried =~= all(f)
            &&& disk.tmp matches Some(t) ==> t.which != Which::Old
        },
        Phase::RestoringHead => false,
        Phase::Carrying => {
            &&& disk.scratch is None
            &&& disk.repo matches Some(t) && t.which == Which::Old && shared_out(f, t, disk.tmp)
            &&& disk.tmp matches Some(t) ==> t.which == Which::New
        },
        Phase::Swapping => {
            ||| before_exchange(f, disk)
            ||| after_exchange(f, disk)
            ||| half_exchanged(f, disk)
            ||| on_scratch(f, disk)
            ||| settled(f, disk)
        },
    }
}

/// The exchange has not begun: the repository is old, carried paths are on
/// their way.
pub open spec fn before_exchange(f: Facts, disk: Disk) -> bool {
    &&& disk.scratch is None
    &&& disk.tmp matches Some(t) && t.which == Which::New
    &&& disk.repo matches Some(t) && t.which == Which::Old && shared_out(f, t, disk.tmp)
}

/// The exchange is complete: the repository is new with everything carried,
/// the old tree stands in the other place.
pub open spec fn after_exchange(f: Facts, disk: Disk) -> bool {
    &&& disk.repo matches Some(t) && t.which == Which::New && t.carried =~= all(f)
    &&& {
        ||| disk.scratch is None && (disk.tmp matches Some(t) && t.which == Which::Old
            && t.carried =~= Set::empty())
        ||| disk.tmp is None && (disk.scratch matches Some(t) && t.which == Which::Old
            && t.carried =~= Set::empty())
    }
}

/// The old tree has left the repository's name and the new one is not there
/// yet, without a scratch name.
pub open spec fn half_exchanged(f: Facts, disk: Disk) -> bool {
    &&& disk.repo is None && disk.scratch is None
    &&& disk.tmp matches Some(t) && t.which == Which::New && t.carried =~= all(f)
}

/// The old tree has left the repository's name for the scratch name.
pub open spec fn on_scratch(f: Facts, disk: Disk) -> bool {
    &&& disk.repo is None
    &&& disk.tmp matches Some(t) && t.which == Which::New
    &&& disk.scratch matches Some(t) && t.which == Which::Old && shared_out(f, t, disk.tmp)
}

/// Everything is in place but for the journal.
pub open spec fn settled(f: Facts, disk: Disk) -> bool {
    &&& disk.tmp is None && disk.scratch is None
    &&& disk.repo matches Some(t) && t.which != Which::Partial && t.carried =~= all(f)
}

/// The repository is one whole tree, with every carried path, and nothing is
/// left beside it but what was parked.
pub open spec fn whole(f: Facts, disk: Disk) -> bool {
    settled(f, disk) && !disk.journal
}

/// Whether a tree of a kind stands somewhere.
pub open spec fn keeps(disk: Disk, which: Which) -> bool {
    ||| disk.repo matches Some(t) && t.which == which
    ||| disk.tmp matches Some(t) && t.which == which
    ||| disk.scratch matches Some(t) && t.which == which
    ||| exists|i: int| 0 <= i < disk.parked.len() && (#[trigger] disk.parked[i]).which == which
}

/// How far a stage is from the end.
pub open spec fn distance(f: Facts, stage: Stage) -> nat {
    match stage {
        Stage::Source(_, i) => (3 * (f.carried - i) + 10) as nat,
        Stage::Home(_, i) => (3 * (f.carried - i) + 9) as nat,
        Stage::Moving(_, i) => (3 * (f.carried - i) + 8) as nat,
        Stage::SeeScratch => (3 * f.carried + 13) as nat,
        Stage::SeeRepo(_) => (3 * f.carried + 12) as nat,
        Stage::SeeTmp(_, _) => (3 * f.carried + 11) as nat,
        Stage::Homing(_) => 9,
        Stage::CheckRepo => 8,
        Stage::CheckTmp => 7,
        Stage::ParkTmp => 6,
        Stage::CheckScratch => 5,
        Stage::ParkScratch => 4,
        Stage::Discarding => 3,
        Stage::Closing => 2,
        Stage::Finished => 0,
    }
}

/// The disk when a recovery has run to its end on a host that works; nothing
/// where it stops with a refusal.
pub open spec fn run(f: Facts, stage: Stage, disk: Disk) -> Option<Disk>
    decreases distance(f, stage),
{
    if stage == Stage::Finished || !in_range(f, stage) {
        Some(disk)
    } else {
        let act = act_of(stage);
        match next(f, stage, answer(disk, act)) {
            Next::Stop(_) => None,
            Next::Go(later) => run(f, later, perform(disk, act)),
        }
    }
}

/// What holds of the disk in each stage of a recovery.
pub open spec fn fits(f: Facts, stage: Stage, disk: Disk) -> bool {
    let carrying = |into: Place, i: int|
        {
            &&& f.phase == Phase::Carrying || f.phase == Phase::Swapping
            &&& into != Place::Tmp
            &&& into == Place::Scratch ==> f.phase == Phase::Swapping && disk.repo is None
            &&& into == Place::Repo && disk.scratch is Some ==> disk.tmp is None
            &&& at(disk, into) matches Some(t) && t.which != Which::Partial && shared_out(
                f,
                t,
                disk.tmp,
            )
            &&& disk.tmp matches Some(t) ==> forall|j: int| 0 <= j < i ==> !t.carried.contains(j)
        };
    &&& in_range(f, stage)
    &&& match stage {
        Stage::Source(into, i) => carrying(into, i as int),
        Stage::Home(into, i) => carrying(into, i as int) && (disk.tmp matches Some(t)
            && t.carried.contains(i as int)),
        Stage::Moving(into, i) => carrying(into, i as int) && (disk.tmp matches Some(t)
            && t.carried.contains(i as int)),
        Stage::Discarding => {
            &&& f.phase == Phase::Carrying || f.phase == Phase::Materializing
            &&& disk.scratch is None
            &&& disk.repo matches Some(t) && t.which == Which::Old && t.carried =~= all(f)
            &&& disk.tmp matches Some(t) ==> t.which != Which::Old
        },
        Stage::SeeScratch => f.phase == Phase::Swapping,
        Stage::SeeRepo(s) => f.phase == Phase::Swapping && s == (disk.scratch is Some),
        Stage::SeeTmp(s, r) => f.phase == Phase::Swapping && s == (disk.scratch is Some) && r == (
        disk.repo is Some),
        Stage::Homing(from) => {
            &&& f.phase == Phase::Swapping
            &&& from != Place::Repo
            &&& disk.repo is None
            &&& from == Place::Tmp ==> half_exchanged(f, disk)
            &&& from == Place::Scratch ==> on_scratch(f, disk) && disk.scratch->0.carried
                =~= all(f)
        },
        Stage::CheckRepo => f.phase == Phase::Swapping && brought_home(f, disk),
        Stage::CheckTmp => f.phase == Phase::Swapping && brought_home(f, disk),
        Stage::ParkTmp => f.phase == Phase::Swapping && brought_home(f, disk) && disk.tmp is Some,
        Stage::CheckScratch => f.phase == Phase::Swapping && brought_home(f, disk)
            && disk.tmp is None && f.scratch,
        Stage::ParkScratch => f.phase == Phase::Swapping && brought_home(f, disk)
            && disk.tmp is None && disk.scratch is Some,
        Stage::Closing => settled(f, disk),
        Stage::Finished => settled(f, disk) && !disk.journal,
    }
}

/// The repository is whole; a displaced tree without carried paths may still
/// stand beside it.
pub open spec fn brought_home(f: Facts, disk: Disk) -> bool {
    &&& disk.repo matches Some(t) && t.which != Which::Partial && t.carried =~= all(f)
    &&& disk.tmp is Some ==> disk.scratch is None
    &&& disk.tmp matches Some(t) ==> t.carried =~= Set::empty() && t.which != Which::Partial
        && t.which != disk.repo->0.which
    &&& disk.scratch matches Some(t) ==> t.carried =~= Set::empty() && t.which == Which::Old
        && disk.repo->0.which == Which::New
}

/// With nothing to carry, neither tree holds a carried path.
proof fn lemma_nothing_carried(f: Facts, one: Tree, other: Option<Tree>)
    ensures
        f.carried == 0 && shared_out(f, one, other) ==> {
            &&& one.carried =~= Set::empty()
            &&& one.carried =~= all(f)
            &&& other matches Some(t) ==> t.carried =~= Set::empty()
        },
{
    if f.carried == 0 && shared_out(f, one, other) {
        assert(all(f) =~= Set::empty());
        if let Some(t) = other {
            assert forall|j: int| !t.carried.contains(j) && !one.carried.contains(j) by {
                assert(!one.carried.union(t.carried).contains(j));
            }
        }
    }
}

/// One act of a recovery: the disk stays one that a crash can have left, so
/// that recovery can begin again at any point; the stage goes on to fit it;
/// and the old tree is never lost.
proof fn lemma_step(f: Facts, stage: Stage, disk: Disk)
    requires
        fits(f, stage, disk),
        interrupted(f, disk),
        stage != Stage::Finished,
    ensures
        next(f, stage, answer(disk, act_of(stage))) is Go,
        fits(f, next(f, stage, answer(disk, act_of(stage)))->Go_0, perform(disk, act_of(stage))),
        stage != Stage::Closing ==> interrupted(f, perform(disk, act_of(stage))),
        keeps(disk, Which::Old) ==> keeps(perform(disk, act_of(stage)), Which::Old),
        f.phase == Phase::Swapping && keeps(disk, Which::New) ==> keeps(
            perform(disk, act_of(stage)),
            Which::New,
        ),
        distance(f, next(f, stage, answer(disk, act_of(stage)))->Go_0) < distance(f, stage),
{
    let act = act_of(stage);
    let after = perform(disk, act);
    match stage {
        Stage::Source(into, i) => {
            if answer(disk, act) != Answer::Yes && i + 1 >= f.carried {
                if let Some(t) = disk.tmp {
                    assert(t.carried =~= Set::empty()) by {
                        assert forall|j: int| !t.carried.contains(j) by {
                            if t.carried.contains(j) {
                                assert(at(disk, into)->0.carried.union(t.carried).contains(j));
                                assert(all(f).contains(j));
                            }
                        }
                    }
                    assert(at(disk, into)->0.carried =~= all(f));
                }
            }
        },
        Stage::Home(into, i) => {},
        Stage::Moving(into, i) => {
            let t = disk.tmp->0;
            let home = at(disk, into)->0;
            let t2 = after.tmp->0;
            let home2 = at(after, into)->0;
            assert(home2.carried.union(t2.carried) =~= all(f)) by {
                assert(home.carried.union(t.carried) =~= home2.carried.union(t2.carried));
            }
            assert(home2.carried.disjoint(t2.carried));
            if i + 1 >= f.carried {
                assert(t2.carried =~= Set::empty()) by {
                    assert forall|j: int| !t2.carried.contains(j) by {
                        if t2.carried.contains(j) {
                            assert(home.carried.union(t.carried).contains(j));
                            assert(all(f).contains(j));
                        }
                    }
                }
                assert(home2.carried =~= all(f));
            }
        },
        _ => {
            if let Some(r) = disk.repo {
                lemma_nothing_carried(f, r, disk.tmp);
            }
            if let Some(r) = disk.scratch {
                lemma_nothing_carried(f, r, disk.tmp);
            }
        },
    }
    assert forall|w: Which| keeps_parked(disk, w) implies keeps_parked(after, w) by {
        let i = choose|i: int| 0 <= i < disk.parked.len() && (#[trigger] disk.parked[i]).which == w;
        assert(after.parked[i] == disk.parked[i]);
    }
    if let Act::Park(place) = act {
        let last = after.parked.len() - 1;
        assert(after.parked[last] == at(disk, place)->0);
        assert(keeps_parked(after, at(disk, place)->0.which));
    }
    assert(keeps_parked(disk, Which::Old) ==> keeps_parked(after, Which::Old));
    assert(keeps_parked(disk, Which::New) ==> keeps_parked(after, Which::New));
}

/// Whether a tree of a kind has been parked.
pub open spec fn keeps_parked(disk: Disk, which: Which) -> bool {
    exists|i: int| 0 <= i < disk.parked.len() && (#[trigger] disk.parked[i]).which == which
}

proof fn lemma_first(f: Facts, disk: Disk)
    requires
        interrupted(f, disk),
    ensures
        fits(f, first_stage(f), disk),
{
    if let Some(r) = disk.repo {
        lemma_nothing_carried(f, r, disk.tmp);
    }
}

proof fn lemma_run(f: Facts, stage: Stage, disk: Disk)
    requires
        fits(f, stage, disk),
        stage == Stage::Finished || interrupted(f, disk),
    ensures
        run(f, stage, disk) matches Some(end) && whole(f, end) && (keeps(disk, Which::Old)
            ==> keeps(end, Which::Old)) && (f.phase == Phase::Swapping && keeps(disk, Which::New)
            ==> keeps(end, Which::New)),
    decreases distance(f, stage),
{
    if stage != Stage::Finished {
        lemma_step(f, stage, disk);
        let act = act_of(stage);
        let later = next(f, stage, answer(disk, act))->Go_0;
        lemma_run(f, later, perform(disk, act));
    }
}

/// Whatever a crash left of a rewind, recovery runs to its end without a
/// refusal and makes the repository one whole tree, old or new and never
/// mixed, with every carried path in it.
pub proof fn law_recovery_leaves_old_or_new(f: Facts, disk: Disk)
    requires
        interrupted(f, disk),
    ensures
        run(f, first_stage(f), disk) matches Some(end) && whole(f, end),
{
    lemma_first(f, disk);
    lemma_run(f, first_stage(f), disk);
}

/// Recovery never discards the old tree, and once the exchange was in flight
/// it does not discard the new one either.
pub proof fn law_recovery_discards_no_tree(f: Facts, disk: Disk)
    requires
        interrupted(f, disk),
    ensures
        run(f, first_stage(f), disk) matches Some(end) && (keeps(disk, Which::Old) ==> keeps(
            end,
            Which::Old,
        )) && (f.phase == Phase::Swapping && keeps(disk, Which::New) ==> keeps(end, Which::New)),
{
    lemma_first(f, disk);
    lemma_run(f, first_stage(f), disk);
}

/// The tree that a recovery brings home from a stage on.
spec fn destined(stage: Stage, disk: Disk) -> Option<Which> {
    let place = match stage {
        Stage::Source(into, _) => into,
        Stage::Home(into, _) => into,
        Stage::Moving(into, _) => into,
        Stage::Homing(from) => from,
        _ => if disk.repo is Some {
            Place::Repo
        } else if disk.scratch is Some {
            Place::Scratch
        } else {
            Place::Tmp
        },
    };
    match at(disk, place) {
        Some(tree) => Some(tree.which),
        None => None,
    }
}

proof fn lemma_destined(f: Facts, stage: Stage, disk: Disk)
    requires
        fits(f, stage, disk),
        stage == Stage::Finished || interrupted(f, disk),
    ensures
        run(f, stage, disk) matches Some(end) && (end.repo matches Some(t) && Some(t.which)
            == destined(stage, disk)),
    decreases distance(f, stage),
{
    if stage != Stage::Finished {
        lemma_step(f, stage, disk);
        let act = act_of(stage);
        let later = next(f, stage, answer(disk, act))->Go_0;
        let after = perform(disk, act);
        assert(destined(later, after) == destined(stage, disk)) by {
            if let Stage::SeeTmp(scratch, repo) = stage {
                if let Some(r) = disk.repo {
                    lemma_nothing_carried(f, r, disk.tmp);
                }
                if let Some(r) = disk.scratch {
                    lemma_nothing_carried(f, r, disk.tmp);
                }
            }
        }
        lemma_destined(f, later, after);
    }
}

/// Recovery ends with the tree that has the repository's name, whichever that
/// is; where none has, the old tree comes back from the scratch name if it stands
/// there, and only otherwise the new one takes its place. So a rewind is undone
/// until its exchange, and is not undone after it.
pub proof fn law_recovery_ends_with_the_tree_of_the_name(f: Facts, disk: Disk)
    requires
        interrupted(f, disk),
    ensures
        run(f, first_stage(f), disk) matches Some(end) && (end.repo matches Some(t) && t.which
            == match (disk.repo, disk.scratch) {
            (Some(repo), _) => repo.which,
            (None, Some(_)) => Which::Old,
            (None, None) => Which::New,
        }),
        f.phase != Phase::Swapping ==> run(f, first_stage(f), disk)->0.repo->0.which == Which::Old,
{
    lemma_first(f, disk);
    lemma_destined(f, first_stage(f), disk);
}

/// Recovery takes a rewind for published only where the new tree has the
/// repository's name and the old one stands aside, and tells where a tree was
/// parked, if and only if it parked one.
pub proof fn law_published_means_that_the_new_tree_is_home(
    f: Facts,
    disk: Disk,
    p: Recovery,
    parked: Option<HostPath>,
    q: Recovery,
)
    requires
        interrupted(f, disk),
        fits(f, p.stage, disk),
        !p.published,
        notes(p, answer(disk, act_of(p.stage)), parked, q),
    ensures
        q.published ==> (disk.repo matches Some(t) && t.which == Which::New),
        (p.stage is SeeTmp && disk.repo is Some && disk.scratch is Some) ==> q.published,
        act_of(p.stage) is Park ==> q.old_tree == parked,
        !(act_of(p.stage) is Park) ==> q.old_tree == p.old_tree,
{
}

/// A crash of the recovery itself leaves a disk that recovery handles: after
/// any number of its acts, unless the last one removed the journal, it can
/// begin again.
pub proof fn law_recovery_can_begin_again(f: Facts, disk: Disk, acts: nat)
    requires
        interrupted(f, disk),
    ensures
        interrupted(f, crashed_after(f, first_stage(f), disk, acts)) || whole(
            f,
            crashed_after(f, first_stage(f), disk, acts),
        ),
{
    lemma_first(f, disk);
    lemma_crashed(f, first_stage(f), disk, acts);
}

/// The disk when a recovery stops after a number of acts.
pub open spec fn crashed_after(f: Facts, stage: Stage, disk: Disk, acts: nat) -> Disk
    decreases acts,
{
    if acts == 0 || stage == Stage::Finished {
        disk
    } else {
        let act = act_of(stage);
        match next(f, stage, answer(disk, act)) {
            Next::Stop(_) => disk,
            Next::Go(later) => crashed_after(f, later, perform(disk, act), (acts - 1) as nat),
        }
    }
}

proof fn lemma_crashed(f: Facts, stage: Stage, disk: Disk, acts: nat)
    requires
        fits(f, stage, disk),
        stage == Stage::Finished || interrupted(f, disk),
    ensures
        interrupted(f, crashed_after(f, stage, disk, acts)) || whole(
            f,
            crashed_after(f, stage, disk, acts),
        ),
    decreases acts,
{
    if acts != 0 && stage != Stage::Finished {
        lemma_step(f, stage, disk);
        let act = act_of(stage);
        let later = next(f, stage, answer(disk, act))->Go_0;
        lemma_crashed(f, later, perform(disk, act), (acts - 1) as nat);
    }
}

/// What recovering makes of a disk, on a host that works: nothing where there
/// is no journal.
pub open spec fn recover(f: Facts, disk: Disk) -> Option<Disk> {
    if disk.journal { run(f, first_stage(f), disk) } else { Some(disk) }
}

proof fn lemma_finished_removed_the_journal(f: Facts, stage: Stage, disk: Disk)
    requires
        stage != Stage::Finished,
        in_range(f, stage),
        run(f, stage, disk) is Some,
    ensures
        !run(f, stage, disk)->0.journal,
    decreases distance(f, stage),
{
    let act = act_of(stage);
    let after = perform(disk, act);
    if let Next::Go(later) = next(f, stage, answer(disk, act)) {
        if later == Stage::Finished {
            assert(stage == Stage::Closing);
            assert(run(f, later, after) == Some(after));
        } else {
            lemma_finished_removed_the_journal(f, later, after);
        }
    }
}

/// Recovering again changes nothing: a recovery that has run to its end, on
/// whatever disk, has removed its journal, but where it hands a complete new
/// tree on; and without a journal there is nothing to recover, whatever a
/// journal said before.
pub proof fn law_recovering_again_changes_nothing(f: Facts, disk: Disk, again: Facts)
    requires
        recover(f, disk) is Some,
        f.phase != Phase::RestoringHead || !disk.journal,
    ensures
        !recover(f, disk)->0.journal,
        recover(again, recover(f, disk)->0) == recover(f, disk),
{
    if disk.journal {
        assert(in_range(f, first_stage(f)));
        lemma_finished_removed_the_journal(f, first_stage(f), disk);
    }
}

/// Without a journal nothing is changed.
pub proof fn law_nothing_to_recover_without_a_journal(f: Facts, disk: Disk)
    requires
        !disk.journal,
    ensures
        recover(f, disk) == Some(disk),
{
}

} // verus!
