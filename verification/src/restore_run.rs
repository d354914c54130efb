//! That a restore of one path gets done: on a host where nothing stands in its
//! way it puts the checkpoint's node in place, and it gives up only for the
//! reason that it tells. On any host it writes below real directories only.
use vstd::prelude::*;
use crate::restore::{
    act_of, from_parent, next, Act, Answer, Facts, Next, PathReplace, Refusal, RestoreAction, Stage,
};
use crate::restore_crash::{
    happens, perform, possible, untouched_nodes, Case, Node, Nodes,
};

verus! {

/// A host where nothing stands in the way of a restore.
pub struct Host {
    pub nodes: Nodes,
    /// How many of the path's ancestors exist, counted from the root. Each is a
    /// real directory.
    pub parents: nat,
    /// Whether what stands at the path before is a directory.
    pub directory: bool,
}

/// What such a host answers to an act, and what becomes of it: no act fails and
/// no fresh name is taken.
pub open spec fn served(c: Case, h: Host, act: Act) -> (Answer, Host) {
    match act {
        Act::StatRoot => (Answer::Directory, h),
        Act::StatParent(i) => (
            if i < h.parents { Answer::Directory } else { Answer::Missing },
            h,
        ),
        Act::MakeParent(i) => (
            Answer::Done,
            Host { parents: if i == h.parents { h.parents + 1 } else { h.parents }, ..h },
        ),
        Act::Materialize => if c.stored {
            (Answer::Done, Host { nodes: Nodes { staged: Some(Node::New), ..h.nodes }, ..h })
        } else {
            (Answer::Missing, h)
        },
        Act::StatDestination => (
            match h.nodes.destination {
                None => Answer::Missing,
                Some(_) => if h.directory { Answer::Directory } else { Answer::Other },
            },
            h,
        ),
        _ => (Answer::Done, Host { nodes: perform(c, h.nodes, act), ..h }),
    }
}

/// Where a restore gets from a stage within a number of acts on such a host:
/// the stage it is in then, or why it was refused.
pub open spec fn run(f: Facts, c: Case, stage: Stage, h: Host, acts: nat) -> (Next, Host)
    decreases acts,
{
    if acts == 0 || stage is Finished {
        (Next::Go(stage), h)
    } else {
        let (answer, after) = served(c, h, act_of(stage));
        match next(f, stage, answer) {
            Next::Go(later) => run(f, c, later, after, (acts - 1) as nat),
            Next::Stop(refusal) => (Next::Stop(refusal), after),
        }
    }
}

/// Where it gets from what comes next.
spec fn carry(f: Facts, c: Case, n: Next, h: Host, acts: nat) -> (Next, Host) {
    match n {
        Next::Go(stage) => run(f, c, stage, h, acts),
        Next::Stop(refusal) => (n, h),
    }
}

/// The stage that follows when all ancestors have been looked at.
spec fn past_parents(again: bool) -> Stage {
    if again { Stage::SeeDestination } else { Stage::Staging(0) }
}

proof fn lemma_parents(f: Facts, c: Case, again: bool, i: nat, h: Host) -> (k: nat)
    requires
        i + 1 <= f.depth,
        i <= h.parents <= f.depth - 1,
        f.replace == PathReplace::Atomic ==> f.can_stage,
    ensures
        forall|acts: nat|
            carry(f, c, from_parent(f, again, i as int), h, (acts + k) as nat) == #[trigger] run(
                f,
                c,
                past_parents(again),
                (Host { parents: (f.depth - 1) as nat, ..h }),
                acts,
            ),
    decreases f.depth - i,
{
    let goal = Host { parents: (f.depth - 1) as nat, ..h };
    if i + 1 < f.depth {
        if i < h.parents {
            let k = lemma_parents(f, c, again, (i + 1) as nat, h);
            assert forall|acts: nat|
                carry(f, c, from_parent(f, again, i as int), h, (acts + (k + 1)) as nat)
                    == #[trigger] run(f, c, past_parents(again), goal, acts) by {
                assert(run(f, c, Stage::Parent(again, i as usize), h, (acts + k + 1) as nat)
                    == carry(f, c, from_parent(f, again, (i + 1) as int), h, (acts + k) as nat));
            }
            (k + 1) as nat
        } else {
            let made = Host { parents: (i + 1) as nat, ..h };
            let k = lemma_parents(f, c, again, (i + 1) as nat, made);
            assert forall|acts: nat|
                carry(f, c, from_parent(f, again, i as int), h, (acts + (k + 3)) as nat)
                    == #[trigger] run(f, c, past_parents(again), goal, acts) by {
                let u = i as usize;
                assert(run(f, c, Stage::Parent(again, u), h, (acts + k + 3) as nat) == run(
                    f,
                    c,
                    Stage::NewParent(again, u),
                    h,
                    (acts + k + 2) as nat,
                ));
                assert(run(f, c, Stage::NewParent(again, u), h, (acts + k + 2) as nat) == run(
                    f,
                    c,
                    Stage::NewParentCheck(again, u),
                    made,
                    (acts + k + 1) as nat,
                ));
                assert(run(f, c, Stage::NewParentCheck(again, u), made, (acts + k + 1) as nat)
                    == carry(f, c, from_parent(f, again, (i + 1) as int), made, (acts + k) as nat));
            }
            (k + 3) as nat
        }
    } else {
        assert(goal == h);
        assert(from_parent(f, again, i as int) == Next::Go(past_parents(again)));
        0
    }
}

proof fn lemma_placed(f: Facts, c: Case, h: Host)
    requires
        h.nodes.staged == Some(Node::New),
        h.nodes.destination == crate::restore_crash::before(c),
        h.nodes.backup is None,
    ensures
        ({
            let (ended, after) = run(f, c, Stage::SeeDestination, h, 8);
            &&& ended == Next::Go(Stage::Finished(RestoreAction::Restored))
            &&& after.nodes.destination == Some(Node::New)
            &&& after.nodes.staged is None
            &&& after.nodes.backup is None
            &&& after.parents == h.parents
        }),
{
    reveal_with_fuel(run, 9);
}

proof fn lemma_dropped(f: Facts, c: Case, h: Host)
    requires
        !c.stored,
        h.nodes == untouched_nodes(c),
    ensures
        ({
            let (ended, after) = run(f, c, Stage::Staging(0), h, 6);
            &&& ended == if c.before || f.replace == PathReplace::LiveMount {
                Next::Go(Stage::Finished(RestoreAction::Removed))
            } else {
                Next::Stop(Refusal::Nowhere)
            }
            &&& after.nodes.destination is None
            &&& after.nodes.staged is None
        }),
{
    reveal_with_fuel(run, 7);
}

/// The host before a restore.
pub open spec fn at_first(c: Case, parents: nat, directory: bool) -> Host {
    Host { nodes: untouched_nodes(c), parents, directory }
}

/// A restore of a path that the checkpoint holds gets done, whether or not
/// something stood there before and whether or not its ancestors existed: it
/// ends as restored, with the checkpoint's node in place, every ancestor there,
/// and nothing staged or set aside left behind.
pub proof fn law_restore_gets_done(f: Facts, c: Case, parents: nat, directory: bool)
    requires
        f.depth >= 1,
        parents <= f.depth - 1,
        f.replace == PathReplace::Atomic ==> f.can_stage,
        c.stored,
    ensures
        exists|acts: nat|
            {
                let (ended, h) = #[trigger] run(
                    f,
                    c,
                    Stage::Root(false),
                    at_first(c, parents, directory),
                    acts,
                );
                &&& ended == Next::Go(Stage::Finished(RestoreAction::Restored))
                &&& h.nodes.destination == Some(Node::New)
                &&& h.nodes.staged is None
                &&& h.nodes.backup is None
                &&& h.parents == f.depth - 1
            },
{
    let h = at_first(c, parents, directory);
    let there = Host { parents: (f.depth - 1) as nat, ..h };
    let staged = Host { nodes: Nodes { staged: Some(Node::New), ..h.nodes }, ..there };
    let a = lemma_parents(f, c, false, 0, h);
    let b = lemma_parents(f, c, true, 0, staged);
    let rest: nat = 8;
    let n3 = (rest + b + 1) as nat;
    let n2 = (n3 + 2) as nat;
    let n1 = (n2 + a + 1) as nat;
    assert(run(f, c, Stage::Root(false), h, n1) == carry(
        f,
        c,
        from_parent(f, false, 0),
        h,
        (n2 + a) as nat,
    ));
    assert(run(f, c, Stage::Root(false), h, n1) == run(f, c, Stage::Staging(0), there, n2));
    assert(run(f, c, Stage::Staging(0), there, n2) == run(
        f,
        c,
        Stage::Materializing,
        there,
        (n3 + 1) as nat,
    ));
    assert(run(f, c, Stage::Materializing, there, (n3 + 1) as nat) == run(
        f,
        c,
        Stage::Root(true),
        staged,
        n3,
    ));
    assert(run(f, c, Stage::Root(true), staged, n3) == carry(
        f,
        c,
        from_parent(f, true, 0),
        staged,
        (rest + b) as nat,
    ));
    assert(run(f, c, Stage::Root(true), staged, n3) == run(
        f,
        c,
        Stage::SeeDestination,
        staged,
        rest,
    ));
    lemma_placed(f, c, staged);
}

/// A path that the checkpoint does not hold goes; where it is not there either,
/// an exchanging restore says that it is nowhere, and one by renames has nothing
/// to do.
pub proof fn law_restore_of_nothing_removes(f: Facts, c: Case, parents: nat, directory: bool)
    requires
        f.depth >= 1,
        parents <= f.depth - 1,
        f.replace == PathReplace::Atomic ==> f.can_stage,
        !c.stored,
    ensures
        exists|acts: nat|
            {
                let (ended, h) = #[trigger] run(
                    f,
                    c,
                    Stage::Root(false),
                    at_first(c, parents, directory),
                    acts,
                );
                &&& ended == if c.before || f.replace == PathReplace::LiveMount {
                    Next::Go(Stage::Finished(RestoreAction::Removed))
                } else {
                    Next::Stop(Refusal::Nowhere)
                }
                &&& h.nodes.destination is None
                &&& h.nodes.staged is None
            },
{
    let h = at_first(c, parents, directory);
    let there = Host { parents: (f.depth - 1) as nat, ..h };
    let a = lemma_parents(f, c, false, 0, h);
    let rest: nat = 6;
    let n1 = (rest + a + 1) as nat;
    assert(run(f, c, Stage::Root(false), h, n1) == carry(
        f,
        c,
        from_parent(f, false, 0),
        h,
        (rest + a) as nat,
    ));
    assert(run(f, c, Stage::Root(false), h, n1) == run(f, c, Stage::Staging(0), there, rest));
    lemma_dropped(f, c, there);
}

/// Why the last of some acts was refused.
pub open spec fn refused(f: Facts, stage: Stage, steps: Seq<(Answer, Nodes)>) -> Option<Refusal>
    decreases steps.len(),
{
    if steps.len() == 0 {
        None
    } else {
        match next(f, stage, steps[0].0) {
            Next::Go(later) => refused(f, later, steps.skip(1)),
            Next::Stop(refusal) => Some(refusal),
        }
    }
}

proof fn lemma_refused(f: Facts, c: Case, stage: Stage, n: Nodes, steps: Seq<(Answer, Nodes)>)
    requires
        crate::restore_crash::fits(f, c, stage, n),
        happens(f, c, stage, n, steps),
    ensures
        refused(f, stage, steps) == Some(Refusal::Nowhere) ==> !c.stored && !c.before,
    decreases steps.len(),
{
    if steps.len() > 0 {
        let (answer, m) = steps[0];
        assert(possible(c, n, act_of(stage), answer, m));
        crate::restore_crash::lemma_step(f, c, stage, n, answer, m);
        if let Next::Go(later) = next(f, stage, answer) {
            lemma_refused(f, c, later, m, steps.skip(1));
        }
    }
}

/// Whatever a host does, a path is said to be nowhere only if neither the
/// checkpoint nor the tree holds it.
pub proof fn law_nowhere_is_nowhere(f: Facts, c: Case, steps: Seq<(Answer, Nodes)>)
    requires
        happens(f, c, Stage::Root(false), untouched_nodes(c), steps),
        refused(f, Stage::Root(false), steps) == Some(Refusal::Nowhere),
    ensures
        !c.stored,
        !c.before,
{
    lemma_refused(f, c, Stage::Root(false), untouched_nodes(c), steps);
}

/// A restore that is refused says what was in its way: that the root or an
/// ancestor is no real directory, exactly where that was answered; that there is
/// no directory to stage in, only where there is none; that every fresh name was
/// taken, only after a name was.
pub proof fn law_refusals_tell_what_was_in_the_way(f: Facts, stage: Stage, answer: Answer)
    ensures
        act_of(stage) == Act::StatRoot && answer == Answer::Other <==> next(f, stage, answer)
            == Next::Stop(Refusal::RootNotReal),
        forall|i: usize|
            act_of(stage) == Act::StatParent(i) && answer == Answer::Other <==> #[trigger] next(
                f,
                stage,
                answer,
            ) == Next::Stop(Refusal::ParentNotReal(i)),
        next(f, stage, answer) == Next::Stop(Refusal::NoStageParent) ==> f.replace
            == PathReplace::Atomic && !f.can_stage,
        next(f, stage, answer) == Next::Stop(Refusal::NoFreshName) ==> answer == Answer::Taken,
        next(f, stage, answer) == Next::Stop(Refusal::Exchange) ==> act_of(stage) == Act::Exchange
            && answer == Answer::Failed,
        next(f, stage, answer) == Next::Stop(Refusal::RollBack) ==> act_of(stage) == Act::MoveBack
            && answer == Answer::Failed,
{
}

/// Whether a stage follows from the stage before it, by whatever was answered.
pub open spec fn follows(f: Facts, way: Seq<(Stage, Answer)>) -> bool {
    &&& way.len() > 0
    &&& way[0].0 == Stage::Root(false)
    &&& forall|i: int|
        0 <= i < way.len() - 1 ==> next(f, (#[trigger] way[i]).0, way[i].1) == Next::Go(
            way[i + 1].0,
        )
}

/// Whether an act was answered between two points of the way with a real
/// directory.
pub open spec fn seen(way: Seq<(Stage, Answer)>, from: int, to: int, act: Act) -> bool {
    exists|i: int|
        from <= i < to && act_of((#[trigger] way[i]).0) == act && way[i].1 == Answer::Directory
}

/// Whether the root and the first ancestors were seen as real directories.
pub open spec fn vetted(way: Seq<(Stage, Answer)>, from: int, to: int, ancestors: int) -> bool {
    &&& seen(way, from, to, Act::StatRoot)
    &&& forall|i: usize| i < ancestors ==> #[trigger] seen(way, from, to, Act::StatParent(i))
}

proof fn lemma_vetted(way: Seq<(Stage, Answer)>, from: int, to: int, ancestors: int, later: int)
    requires
        vetted(way, from, to, ancestors),
        to <= later,
    ensures
        vetted(way, from, later, ancestors),
{
    let i = choose|i: int|
        from <= i < to && act_of((#[trigger] way[i]).0) == Act::StatRoot && way[i].1
            == Answer::Directory;
    assert(from <= i < later && act_of(way[i].0) == Act::StatRoot);
    assert forall|j: usize| j < ancestors implies #[trigger] seen(
        way,
        from,
        later,
        Act::StatParent(j),
    ) by {
        assert(seen(way, from, to, Act::StatParent(j)));
        let k = choose|k: int|
            from <= k < to && act_of((#[trigger] way[k]).0) == Act::StatParent(j) && way[k].1
                == Answer::Directory;
        assert(from <= k < later && act_of(way[k].0) == Act::StatParent(j));
    }
}

/// How many ancestors have been seen in this look at a stage, and whether this
/// is the look after staging; nothing for a stage that ends a restore or cleans
/// up.
spec fn looked(f: Facts, stage: Stage) -> (int, bool) {
    match stage {
        Stage::Root(again) => (-1, again),
        Stage::Parent(again, i) => (i as int, again),
        Stage::NewParent(again, i) => (i as int, again),
        Stage::NewParentCheck(again, i) => (i as int, again),
        Stage::Staging(_) => (f.depth - 1, false),
        Stage::Materializing => (f.depth - 1, false),
        Stage::Unstage => (f.depth - 1, false),
        Stage::SeeAbsent => (f.depth - 1, false),
        Stage::DropDirectory => (f.depth - 1, false),
        Stage::DropFile => (f.depth - 1, false),
        Stage::Abandon => (-1, false),
        Stage::Finished(_) => (-1, false),
        _ => (f.depth - 1, true),
    }
}

/// Whether the look that a stage belongs to has seen what it should have, after
/// the content was staged where it is the second.
spec fn looked_well(f: Facts, way: Seq<(Stage, Answer)>, n: int, from: int) -> bool {
    let (ancestors, again) = looked(f, way[n].0);
    &&& 0 <= from <= n
    &&& again ==> from > 0 && way[from - 1].0 == Stage::Materializing && way[from - 1].1
        == Answer::Done
    &&& ancestors >= 0 ==> vetted(way, from, n, ancestors)
    &&& crate::restore::in_range(f, way[n].0)
}

proof fn lemma_looked(f: Facts, way: Seq<(Stage, Answer)>, n: int) -> (from: int)
    requires
        f.depth >= 1,
        follows(f, way),
        0 <= n < way.len(),
    ensures
        looked_well(f, way, n, from),
    decreases n,
{
    if n == 0 {
        0
    } else {
        let from = lemma_looked(f, way, n - 1);
        let (stage, answer) = way[n - 1];
        let later = way[n].0;
        assert(next(f, stage, answer) == Next::Go(way[n - 1 + 1].0));
        let (before, _) = looked(f, stage);
        let (ancestors, _) = looked(f, later);
        if later == Stage::Root(true) {
            n
        } else {
            if ancestors >= 0 {
                if before >= 0 {
                    lemma_vetted(way, from, n - 1, before, n);
                }
                assert(act_of(way[n - 1].0) == act_of(stage));
                assert(seen(way, from, n, Act::StatRoot)) by {
                    if before < 0 {
                        assert(act_of(way[n - 1].0) == Act::StatRoot && way[n - 1].1
                            == Answer::Directory);
                    }
                }
                assert forall|i: usize| i < ancestors implies #[trigger] seen(
                    way,
                    from,
                    n,
                    Act::StatParent(i),
                ) by {
                    if i >= before {
                        assert(act_of(way[n - 1].0) == Act::StatParent(i) && way[n - 1].1
                            == Answer::Directory);
                    }
                }
            }
            from
        }
    }
}

/// Nothing is written through a link: whatever a host answers, the path is
/// changed only after its root and every ancestor have been seen to be real
/// directories, and new content is put in place only after they have been seen
/// so once more since it was staged.
pub proof fn law_restore_writes_below_real_directories(
    f: Facts,
    way: Seq<(Stage, Answer)>,
)
    requires
        f.depth >= 1,
        follows(f, way),
    ensures
        ({
            let n = way.len() - 1;
            let act = act_of(way[n].0);
            &&& act == Act::RemoveDirectory || act == Act::RemoveFile ==> vetted(
                way,
                0,
                n,
                f.depth - 1,
            )
            &&& act == Act::Exchange || act == Act::MoveIn || act == Act::MoveOut ==> exists|m: int|
                0 <= m < n && (#[trigger] way[m]).0 == Stage::Materializing && way[m].1
                    == Answer::Done && vetted(way, m + 1, n, f.depth - 1)
        }),
{
    let n = way.len() - 1;
    let from = lemma_looked(f, way, n);
    if looked(f, way[n].0).1 {
        assert(way[from - 1].0 == Stage::Materializing);
    } else if looked(f, way[n].0).0 >= 0 {
        assert(vetted(way, 0, n, looked(f, way[n].0).0)) by {
            assert(vetted(way, from, n, looked(f, way[n].0).0));
            lemma_earlier(way, from, n, looked(f, way[n].0).0);
        }
    }
}

proof fn lemma_earlier(way: Seq<(Stage, Answer)>, from: int, to: int, ancestors: int)
    requires
        vetted(way, from, to, ancestors),
        0 <= from,
    ensures
        vetted(way, 0, to, ancestors),
{
    let i = choose|i: int|
        from <= i < to && act_of((#[trigger] way[i]).0) == Act::StatRoot && way[i].1
            == Answer::Directory;
    assert(0 <= i < to && act_of(way[i].0) == Act::StatRoot);
    assert forall|j: usize| j < ancestors implies #[trigger] seen(
        way,
        0,
        to,
        Act::StatParent(j),
    ) by {
        assert(seen(way, from, to, Act::StatParent(j)));
        let k = choose|k: int|
            from <= k < to && act_of((#[trigger] way[k]).0) == Act::StatParent(j) && way[k].1
                == Answer::Directory;
        assert(0 <= k < to && act_of(way[k].0) == Act::StatParent(j));
    }
}

} // verus!
