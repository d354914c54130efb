//! What a restore of one path can leave when it fails or crashes on the way:
//! the path is old or new, and the old node is not lost before the new one is
//! in place.
use vstd::prelude::*;
use crate::restore::{act_of, next, Act, Answer, Facts, Next, PathReplace, RestoreAction, Stage};

verus! {

/// A node of the tree: what stood at the path before, or what the checkpoint
/// holds of it.
pub enum Node {
    Old,
    New,
}

/// The places that a restore touches.
pub struct Nodes {
    pub destination: Option<Node>,
    pub staged: Option<Node>,
    pub backup: Option<Node>,
}

/// What a restore finds: whether the path exists before, and whether the
/// checkpoint holds it.
pub struct Case {
    pub before: bool,
    pub stored: bool,
}

pub open spec fn before(c: Case) -> Option<Node> {
    if c.before { Some(Node::Old) } else { None }
}

pub open spec fn goal(c: Case) -> Option<Node> {
    if c.stored { Some(Node::New) } else { None }
}

/// What an act that succeeds makes of the nodes.
pub open spec fn perform(c: Case, n: Nodes, act: Act) -> Nodes {
    match act {
        Act::Materialize => Nodes { staged: goal(c), ..n },
        Act::RemoveDirectory => Nodes { destination: None, ..n },
        Act::RemoveFile => Nodes { destination: None, ..n },
        Act::Exchange => Nodes { destination: n.staged, staged: n.destination, ..n },
        Act::MoveIn => Nodes { destination: n.staged, staged: None, ..n },
        Act::MoveOut => Nodes { destination: None, backup: n.destination, ..n },
        Act::MoveBack => Nodes { destination: n.backup, backup: None, ..n },
        Act::RemoveOld => Nodes { backup: None, ..n },
        Act::RemoveStage => Nodes { staged: None, ..n },
        _ => n,
    }
}

/// Whether an answer and a change of the nodes can come of an act. A failed
/// act changes nothing, but for content that was written in part and for an
/// exchange, which may have happened before it failed.
pub open spec fn possible(c: Case, n: Nodes, act: Act, answer: Answer, m: Nodes) -> bool {
    match answer {
        Answer::Failed => {
            ||| m == n
            ||| act == Act::Exchange && m == perform(c, n, act)
            ||| act == Act::Materialize && m == Nodes { staged: m.staged, ..n }
            ||| act == Act::RemoveStage && m == Nodes { staged: m.staged, ..n }
            ||| act == Act::RemoveOld && m == Nodes { backup: m.backup, ..n }
        },
        Answer::Missing => match act {
            Act::StatDestination => n.destination is None && m == n,
            Act::Materialize => !c.stored && m == n,
            Act::StatParent(_) => m == n,
            Act::StatRoot => m == n,
            _ => false,
        },
        Answer::Directory => match act {
            Act::StatDestination => n.destination is Some && m == n,
            Act::StatParent(_) => m == n,
            Act::StatRoot => m == n,
            _ => false,
        },
        Answer::Other => match act {
            Act::StatDestination => n.destination is Some && m == n,
            Act::StatParent(_) => m == n,
            Act::StatRoot => m == n,
            _ => false,
        },
        Answer::Taken => (act == Act::MakeStage || act == Act::MakeBackup) && m == n,
        Answer::Done => match act {
            Act::StatDestination => false,
            Act::StatParent(_) => false,
            Act::StatRoot => false,
            Act::Materialize => c.stored && m == perform(c, n, act),
            _ => m == perform(c, n, act),
        },
    }
}

/// The path is as it was or as the checkpoint has it; while a mounted tree's
/// node is being replaced by renames, the old one is at hand.
pub open spec fn safe(f: Facts, c: Case, n: Nodes) -> bool {
    ||| n.destination == before(c)
    ||| n.destination == goal(c)
    ||| f.replace == PathReplace::LiveMount && n.destination is None && n.backup == Some(Node::Old)
}

/// What holds of the nodes in each stage.
pub open spec fn fits(f: Facts, c: Case, stage: Stage, n: Nodes) -> bool {
    let untouched = n.destination == before(c) && n.backup is None;
    let staged = c.stored && n.staged == Some(Node::New);
    match stage {
        Stage::Root(again) => untouched && (again ==> staged),
        Stage::Parent(again, _) => untouched && (again ==> staged),
        Stage::NewParent(again, _) => untouched && (again ==> staged),
        Stage::NewParentCheck(again, _) => untouched && (again ==> staged),
        Stage::Staging(_) => untouched,
        Stage::Materializing => untouched,
        Stage::Unstage => untouched && !c.stored,
        Stage::SeeAbsent => untouched && !c.stored,
        Stage::DropDirectory => untouched && !c.stored,
        Stage::DropFile => untouched && !c.stored,
        Stage::Abandon => untouched,
        Stage::SeeDestination => untouched && staged,
        Stage::Exchanging => untouched && staged && c.before && f.replace == PathReplace::Atomic,
        Stage::Entering => untouched && staged && !c.before,
        Stage::BackupDir(_) => untouched && staged && c.before && f.replace
            == PathReplace::LiveMount,
        Stage::Leaving => untouched && staged && c.before && f.replace == PathReplace::LiveMount,
        Stage::Replacing => staged && c.before && f.replace == PathReplace::LiveMount
            && n.destination is None && n.backup == Some(Node::Old),
        Stage::RollingBack => c.before && f.replace == PathReplace::LiveMount && n.destination
            is None && n.backup == Some(Node::Old),
        Stage::CloseBackup => untouched,
        Stage::DropOld => c.stored && n.destination == goal(c),
        Stage::DropBackup => c.stored && n.destination == goal(c),
        Stage::Clear => c.stored && n.destination == goal(c),
        Stage::Sync => c.stored && n.destination == goal(c),
        Stage::Finished(RestoreAction::Restored) => c.stored && n.destination == goal(c),
        Stage::Finished(RestoreAction::Removed) => !c.stored && n.destination is None,
    }
}

pub proof fn lemma_step(f: Facts, c: Case, stage: Stage, n: Nodes, answer: Answer, m: Nodes)
    requires
        fits(f, c, stage, n),
        possible(c, n, act_of(stage), answer, m),
    ensures
        safe(f, c, m),
        next(f, stage, answer) matches Next::Go(later) ==> fits(f, c, later, m),
{
}

/// One act after another, with the nodes after each; the restore goes on as
/// long as it is not refused.
pub open spec fn happens(f: Facts, c: Case, stage: Stage, n: Nodes, steps: Seq<(Answer, Nodes)>) -> bool
    decreases steps.len(),
{
    steps.len() > 0 ==> {
        let (answer, m) = steps[0];
        &&& possible(c, n, act_of(stage), answer, m)
        &&& match next(f, stage, answer) {
            Next::Go(later) => happens(f, c, later, m, steps.skip(1)),
            Next::Stop(_) => steps.len() == 1,
        }
    }
}

/// The stage after a number of acts; the last one reached where it stopped.
pub open spec fn reached(f: Facts, stage: Stage, steps: Seq<(Answer, Nodes)>) -> Stage
    decreases steps.len(),
{
    if steps.len() == 0 {
        stage
    } else {
        match next(f, stage, steps[0].0) {
            Next::Go(later) => reached(f, later, steps.skip(1)),
            Next::Stop(_) => stage,
        }
    }
}

proof fn lemma_happens(f: Facts, c: Case, stage: Stage, n: Nodes, steps: Seq<(Answer, Nodes)>)
    requires
        fits(f, c, stage, n),
        safe(f, c, n),
        happens(f, c, stage, n, steps),
    ensures
        steps.len() > 0 ==> safe(f, c, steps.last().1),
        steps.len() > 0 && reached(f, stage, steps) == Stage::Finished(RestoreAction::Restored)
            ==> steps.last().1.destination == goal(c) && c.stored,
        steps.len() > 0 && reached(f, stage, steps) == Stage::Finished(RestoreAction::Removed)
            ==> steps.last().1.destination is None && !c.stored,
    decreases steps.len(),
{
    if steps.len() > 0 {
        let (answer, m) = steps[0];
        lemma_step(f, c, stage, n, answer, m);
        match next(f, stage, answer) {
            Next::Go(later) => {
                lemma_happens(f, c, later, m, steps.skip(1));
                if steps.len() > 1 {
                    assert(steps.skip(1).last() == steps.last());
                }
            },
            Next::Stop(_) => {},
        }
    }
}

/// The nodes before a restore.
pub open spec fn untouched_nodes(c: Case) -> Nodes {
    Nodes { destination: before(c), staged: None, backup: None }
}

/// Wherever a restore fails or crashes, the path is as it was or as the
/// checkpoint has it, or, in a mounted tree, its old node is kept aside.
pub proof fn law_restore_leaves_old_or_new(f: Facts, c: Case, steps: Seq<(Answer, Nodes)>)
    requires
        steps.len() > 0,
        happens(f, c, Stage::Root(false), untouched_nodes(c), steps),
    ensures
        safe(f, c, steps.last().1),
{
    lemma_happens(f, c, Stage::Root(false), untouched_nodes(c), steps);
}

/// A restore that ends well leaves the path as the checkpoint has it: the
/// stored node in place, or nothing where the checkpoint holds nothing.
pub proof fn law_finished_restore_matches_checkpoint(
    f: Facts,
    c: Case,
    steps: Seq<(Answer, Nodes)>,
    action: RestoreAction,
)
    requires
        steps.len() > 0,
        happens(f, c, Stage::Root(false), untouched_nodes(c), steps),
        reached(f, Stage::Root(false), steps) == Stage::Finished(action),
    ensures
        steps.last().1.destination == goal(c),
        action == RestoreAction::Restored <==> c.stored,
{
    lemma_happens(f, c, Stage::Root(false), untouched_nodes(c), steps);
}

} // verus!
