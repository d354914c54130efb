//! The daemon: what an operation is answered or has the engine do, promotions,
//! briefs, and the tools of hosts without hooks.
use acyclic::brief::{finish_brief, plan_brief, quote, render};
use acyclic::client::ConnectError;
use acyclic::diff::{ChangeKind, FileChange, FileKind};
use acyclic::digest::GenerationId;
use acyclic::fork::{mount_capability, ForkMode, MountKind, Platform};
use acyclic::index::{Attribution, CheckpointKind, Index};
use acyclic::mcp::{instructions, request as tool_request, tell, tell_restored, tell_unreached, Tool};
use acyclic::merge::{
    has_conflict_markers, is_unresolved, subtree_roots, ConflictedFile, MergePlan, MergeRefusal,
};
use acyclic::path::HostPath;
use acyclic::pipeline::{CheckpointOutcome, State, StatusReport};
use acyclic::promote::{unresolved_message, Event, Landed, Promotion, Stage};
use acyclic::proto::{
    accept, bad_request, check_version, respond, BriefAbandoned, BriefInfo, BriefSession,
    ConflictEntry, DiffEntry, Op, Payload, Reply, Request, RestoreInfo, RewindTarget, TimelineEntry,
};
use acyclic::restore::{RestoreAction, RestoreOutcome};
use acyclic::rewind::{RewindOutcome, RELOAD_WARNING};
use acyclic::server::{
    admitted_answer, checkpoint_plan, checkpoint_reply, diff_reply, finish_apply, fork_diff_reply,
    landed_answer, parse_kind, restore_reply, rewind_reply, turn_reply, AnswerOn, PromoteOutcome, Begun, Job, SessionResolveOutcome, Server, MOVED_WARNING,
    REPLACED_WARNING,
};
use acyclic::sides::{settle, sides, Blend, Content};
use acyclic::speculate::brief_key;

fn generation(byte: u8) -> GenerationId {
    GenerationId { bytes: [byte; 32] }
}

fn path(text: &str) -> HostPath {
    HostPath::from_text(text)
}

fn change(at: &str, change: ChangeKind) -> FileChange {
    FileChange {
        names: at.split('/').map(|part| part.as_bytes().to_vec()).collect(),
        change,
        file_kind: FileKind::Regular,
    }
}

fn server(mounts: bool, dry_run: bool) -> Server {
    let capability = if mounts {
        mount_capability(Some(MountKind::LinuxFuse), true, None)
    } else {
        mount_capability(None, false, Some("no /dev/fuse".to_owned()))
    };
    Server::new(path("/work/repo"), capability, Platform::Linux, dry_run)
}

fn refusal(begun: Begun) -> String {
    match begun {
        Begun::Answered(Err(message)) => message,
        other => panic!("not refused: {other:?}"),
    }
}

fn answer(begun: Begun) -> Reply {
    match begun {
        Begun::Answered(Ok(reply)) => reply,
        other => panic!("not answered: {other:?}"),
    }
}

fn work(begun: Begun) -> Job {
    match begun {
        Begun::Work(job) => job,
        other => panic!("no work: {other:?}"),
    }
}

fn add(server: &mut Server, id: &str, at: i64, session: Option<&str>) {
    let session = session.map(|s| s.to_owned());
    server.add_fork(
        id.to_owned(),
        generation(1),
        &path("/work/.repo.forks/mnt"),
        ForkMode::Mount,
        at,
        &session,
    );
}

fn ids(server: &Server) -> Vec<String> {
    server.fork_list().into_iter().map(|entry| entry.id).collect()
}

#[test]
fn simple_operations_are_answered_or_handed_on() {
    let mut s = server(true, false);
    let index = Index::new();
    assert!(matches!(answer(s.begin(Op::Ping, &index)), Reply::Pong));
    assert!(matches!(work(s.begin(Op::Status, &index)), Job::Status));
    assert!(matches!(work(s.begin(Op::Commit, &index)), Job::Commit));
    assert!(matches!(
        answer(s.begin(Op::Timeline { session_id: None, turn: None, limit: 50 }, &index)),
        Reply::Timeline(entries) if entries.is_empty()
    ));
    assert_eq!(
        refusal(s.begin(Op::Timeline { session_id: None, turn: Some(1), limit: 50 }, &index)),
        "--turn needs --session (turn numbers are per session)"
    );
    assert_eq!(
        refusal(s.begin(Op::Inspect { checkpoint: 3 }, &index)),
        "no checkpoint #3"
    );
    assert_eq!(
        refusal(s.begin(Op::Rewind { target: RewindTarget::Last, path: None }, &index)),
        "no matching checkpoint"
    );
}

#[test]
fn only_three_kinds_of_checkpoint_can_be_asked_for() {
    assert_eq!(parse_kind("pre").unwrap(), CheckpointKind::Pre);
    assert_eq!(parse_kind("post").unwrap(), CheckpointKind::Post);
    assert_eq!(parse_kind("manual").unwrap(), CheckpointKind::Manual);
    assert_eq!(parse_kind("noop").unwrap_err(), "unknown checkpoint kind \"noop\"");
    let mut s = server(true, false);
    let asked = Op::Checkpoint {
        kind: "pre".to_owned(),
        session_id: Some("s".to_owned()),
        tool_call_id: None,
        tool_name: None,
        label: None,
        wait: true,
        durable: false,
    };
    let Job::Checkpoint { kind, attribution, wait, durable } =
        work(s.begin(asked, &Index::new()))
    else {
        panic!("no checkpoint");
    };
    assert_eq!(kind, CheckpointKind::Pre);
    assert_eq!(attribution.session_id.as_deref(), Some("s"));
    assert!(wait && !durable);
}

#[test]
fn a_rewind_of_one_path_is_a_restore() {
    let mut s = server(true, false);
    let mut index = Index::new();
    let id = index.record(generation(4), CheckpointKind::Post, &Attribution::default(), 1);
    let op = Op::Rewind { target: RewindTarget::Checkpoint(id), path: Some("a/b".to_owned()) };
    let Job::RestorePath { row, path: at } = work(s.begin(op, &index)) else {
        panic!("no restore");
    };
    assert_eq!(row.id, id);
    assert_eq!(at.display(), "a/b");
    let op = Op::Rewind { target: RewindTarget::Last, path: None };
    assert!(matches!(work(s.begin(op, &index)), Job::Rewind { row } if row.id == id));
    let op = Op::Diff { before: None, after: None, before_hex: None, after_hex: None };
    let Job::Diff { before, after } = work(s.begin(op, &index)) else {
        panic!("no diff");
    };
    assert_eq!((before, after), (generation(4), generation(4)));
}

#[test]
fn forks_are_cut_where_the_host_can_hold_them() {
    let index = Index::new();
    let fork = |s: &mut Server, count| s.begin(Op::Fork { count, session_id: None }, &index);
    assert_eq!(refusal(fork(&mut server(true, false), 0)), "fork count must be 1..=16");
    assert_eq!(refusal(fork(&mut server(true, false), 17)), "fork count must be 1..=16");
    let Job::Fork { count, mode, root, .. } = work(fork(&mut server(true, false), 16)) else {
        panic!("no fork");
    };
    assert_eq!((count, mode), (16, ForkMode::Mount));
    assert_eq!(root.display(), "/work/.repo.forks/mnt");
    let Job::Fork { mode, root, .. } = work(fork(&mut server(false, false), 1)) else {
        panic!("no fork");
    };
    assert_eq!(mode, ForkMode::Copy);
    assert_eq!(root.display(), "/work/.repo.forks/copy");
    let mut rootless = server(true, false);
    rootless.repo_root = path("/");
    assert_eq!(
        refusal(fork(&mut rootless, 1)),
        "repo root has no parent for fork workspaces"
    );
}

#[test]
fn dropping_a_fork_takes_it_and_no_other() {
    let mut s = server(true, false);
    add(&mut s, "b", 2, None);
    add(&mut s, "a", 1, None);
    add(&mut s, "c", 3, None);
    assert_eq!(ids(&s), vec!["a", "b", "c"]);
    let index = Index::new();
    let Job::Drop { fork } = work(s.begin(Op::ForkDrop { id: "b".to_owned() }, &index)) else {
        panic!("no drop");
    };
    assert_eq!(fork.entry.id, "b");
    assert_eq!(fork.entry.path, "/work/.repo.forks/mnt/b");
    assert_eq!(ids(&s), vec!["a", "c"]);
    assert_eq!(
        refusal(s.begin(Op::ForkDrop { id: "b".to_owned() }, &index)),
        "no fork b"
    );
    assert_eq!(
        refusal(s.begin(Op::ForkDiff { id: "b".to_owned() }, &index)),
        "no fork b"
    );
    let Job::ForkDiff { base, copy_dir, .. } =
        work(s.begin(Op::ForkDiff { id: "c".to_owned() }, &index))
    else {
        panic!("no diff");
    };
    assert_eq!(base, generation(1));
    assert!(copy_dir.is_none());
}

#[test]
fn a_session_that_ends_takes_its_scratch_trees() {
    let mut s = server(true, false);
    add(&mut s, "a", 1, Some("s1"));
    add(&mut s, "b", 2, None);
    add(&mut s, "c", 3, Some("s1"));
    add(&mut s, "d", 4, Some("s2"));
    let gone: Vec<String> =
        s.session_ended("s1").into_iter().map(|fork| fork.entry.id).collect();
    assert_eq!(gone, vec!["a", "c"]);
    assert_eq!(ids(&s), vec!["b", "d"]);
}

fn begin_promote(s: &mut Server, id: &str) -> acyclic::server::ForkState {
    let Job::Promote { fork } =
        work(s.begin(Op::Promote { id: id.to_owned() }, &Index::new()))
    else {
        panic!("no promotion");
    };
    fork
}

#[test]
fn a_refused_promotion_keeps_the_fork() {
    let mut s = server(true, false);
    add(&mut s, "a", 1, None);
    add(&mut s, "b", 2, None);
    let fork = begin_promote(&mut s, "a");
    assert_eq!(ids(&s), vec!["b"]);
    let (reply, consumed) = s.finish_promote(fork, Err("no".to_owned()));
    assert_eq!(reply.unwrap_err(), "no");
    assert!(consumed.is_none());
    assert_eq!(ids(&s), vec!["a", "b"]);
}

#[test]
fn a_conflict_stays_with_the_fork_until_it_is_resolved() {
    let mut s = server(true, false);
    add(&mut s, "a", 1, None);
    let fork = begin_promote(&mut s, "a");
    let landed = Landed::Conflicted {
        theirs: generation(9),
        ours: generation(5),
        files: vec![ConflictEntry { path: "x".to_owned(), detail: "both".to_owned() }],
        kept: vec!["k".to_owned()],
    };
    let (reply, consumed) = s.finish_promote(fork, Ok(landed));
    let Reply::Promote(info) = reply.unwrap() else {
        panic!("no promotion");
    };
    assert_eq!(info.generation, "09".repeat(32));
    assert_eq!(info.conflicts.len(), 1);
    assert_eq!(info.fork_path.as_deref(), Some("/work/.repo.forks/mnt/a"));
    assert!(info.mainline_moved && consumed.is_none());
    let entry = &s.fork_list()[0];
    assert_eq!(entry.base, "09".repeat(32));
    assert_eq!(entry.conflict_paths, vec!["x"]);
    let conflict = entry.conflict.as_ref().expect("conflict");
    assert_eq!(conflict.base, "01".repeat(32));
    assert_eq!(conflict.ours, "05".repeat(32));
    assert_eq!(conflict.theirs, "09".repeat(32));

    let fork = begin_promote(&mut s, "a");
    assert_eq!(fork.base, generation(9));
    let unresolved = unresolved_message(fork.conflict.as_ref().expect("open"));
    assert!(unresolved.starts_with("unresolved conflict markers in: x. Resolve every"));
    s.finish_promote(fork, Err(unresolved)).0.unwrap_err();
    assert_eq!(s.fork_list()[0].conflict_paths, vec!["x"]);

    let fork = begin_promote(&mut s, "a");
    s.finish_promote(fork, Err("other".to_owned())).0.unwrap_err();
    assert!(s.fork_list()[0].conflict_paths.is_empty());
    assert!(s.fork_list()[0].conflict.is_none());
}

#[test]
fn a_landed_promotion_consumes_the_fork() {
    let mut s = server(true, false);
    add(&mut s, "a", 1, None);
    let fork = begin_promote(&mut s, "a");
    let (reply, consumed) = s.finish_promote(
        fork,
        Ok(Landed::Replayed {
            generation: generation(3),
            paths: 4,
            merged: 1,
            kept: Vec::new(),
            moved: true,
        }),
    );
    let Reply::Promote(info) = reply.unwrap() else {
        panic!("no promotion");
    };
    assert_eq!(info.warning, MOVED_WARNING);
    assert_eq!((info.replayed_paths, info.merged_files), (4, 1));
    assert_eq!(consumed.expect("consumed").entry.id, "a");
    assert!(ids(&s).is_empty());
    assert_eq!(
        refusal(s.begin(Op::Promote { id: "a".to_owned() }, &Index::new())),
        "no fork a"
    );
}

#[test]
fn safe_mode_shadows_one_session_at_a_time() {
    let index = Index::new();
    let fork = |s: &mut Server| {
        s.begin(Op::SessionFork { session_id: "s".to_owned() }, &index)
    };
    assert!(refusal(fork(&mut server(false, false)))
        .starts_with("Safe Mode needs a mount provider and this host has none (no /dev/fuse).\n"));
    let mut s = server(true, true);
    assert!(matches!(work(fork(&mut s)), Job::Shadow { .. }));
    assert!(matches!(work(s.session_started("s".to_owned())), Job::Shadow { .. }));
    s.session_shadowed("f".to_owned(), "s".to_owned(), generation(1));
    assert_eq!(
        refusal(fork(&mut s)),
        "a Safe Mode session is already active for this repo"
    );
    assert!(matches!(
        answer(server(true, false).session_started("s".to_owned())),
        Reply::Unit
    ));
}

#[test]
fn a_safe_mode_session_is_resolved_and_applied_or_discarded() {
    let index = Index::new();
    let mut s = server(true, false);
    let resolve = |s: &mut Server, id: &str| {
        s.begin(Op::SessionResolve { session_id: id.to_owned() }, &index)
    };
    assert_eq!(refusal(resolve(&mut s, "s")), "no active Safe Mode session s");
    s.session_shadowed("f".to_owned(), "s".to_owned(), generation(1));
    let Job::Resolve { session, label } = work(resolve(&mut s, "s")) else {
        panic!("no resolve");
    };
    assert_eq!(label, "safe mode session f");
    let resolved = SessionResolveOutcome::Resolved {
        generation: generation(2),
        changes: vec![change("a", ChangeKind::Added)],
    };
    let Reply::SessionPending(info) = s.finish_resolve(session, label, resolved).unwrap() else {
        panic!("not pending");
    };
    assert_eq!(info.diff.len(), 1);
    let apply = |s: &mut Server| {
        s.begin(Op::SessionApply { session_id: "s".to_owned() }, &index)
    };
    let Job::Apply { session } = work(apply(&mut s)) else {
        panic!("no apply");
    };
    assert_eq!((session.generation, session.base), (generation(2), generation(1)));
    assert_eq!(refusal(apply(&mut s)), "no resolved Safe Mode session s");
    let applied = PromoteOutcome::Promoted { generation: generation(2), old_tree: Some(path("/old")) };
    let Reply::Promote(info) = finish_apply(applied).unwrap() else {
        panic!("not applied");
    };
    assert_eq!(info.old_tree.as_deref(), Some("/old"));
    assert_eq!(info.warning, REPLACED_WARNING);
    assert_eq!(
        finish_apply(PromoteOutcome::Conflict { message: "moved".to_owned() }).unwrap_err(),
        "moved"
    );

    s.session_shadowed("f".to_owned(), "s".to_owned(), generation(1));
    let Job::Resolve { session, label } = work(resolve(&mut s, "s")) else {
        panic!("no resolve");
    };
    assert!(matches!(
        s.finish_resolve(session, label, SessionResolveOutcome::NoChanges).unwrap(),
        Reply::SessionPending(info) if info.diff.is_empty()
    ));
    assert!(s.pending.is_empty());
    let discard = Op::SessionDiscard { session_id: "s".to_owned() };
    assert!(matches!(answer(s.begin(discard, &index)), Reply::Unit));
}

#[test]
fn stopping_lets_everything_go() {
    let mut s = server(true, false);
    add(&mut s, "a", 1, None);
    s.session_shadowed("f".to_owned(), "s".to_owned(), generation(1));
    let Job::Stop { shadow } = work(s.begin(Op::Stop, &Index::new())) else {
        panic!("no stop");
    };
    assert_eq!(shadow.expect("shadow").fork_id, "f");
    assert!(s.forks.is_empty() && s.pending.is_empty() && s.dry.is_none());
}

#[test]
fn replies_carry_what_the_engine_did() {
    let report = StatusReport {
        state: State::Ready,
        last_checkpoint: Some(4),
        unpublished: 2,
        checkpoints_since_commit: 1,
    };
    let Reply::Status(info) = server(false, false).status_reply(report, 77) else {
        panic!("no status");
    };
    assert_eq!((info.state.as_str(), info.store_bytes), ("ready", 77));
    assert_eq!(info.mount_reason.as_deref(), Some("no /dev/fuse"));
    let outcome = CheckpointOutcome {
        row_id: 8,
        generation: generation(2),
        kind: CheckpointKind::Noop,
    };
    let Reply::Checkpoint(info) = checkpoint_reply(outcome) else {
        panic!("no checkpoint");
    };
    assert_eq!((info.row_id, info.kind.as_str()), (8, "noop"));
    assert_eq!(info.generation, "02".repeat(32));
    assert!(matches!(turn_reply("s".to_owned(), 3), Reply::Turn(info) if info.turn == 3));
    let restored = RestoreOutcome { path: path("a"), action: RestoreAction::Removed };
    let Reply::Restore(info) = restore_reply(5, &restored, Some(9)) else {
        panic!("no restore");
    };
    assert_eq!((info.action.as_str(), info.recorded_checkpoint), ("removed", Some(9)));
    let rewound = RewindOutcome {
        restored: generation(2),
        old_tree: path("/old"),
        warning: RELOAD_WARNING,
    };
    let Reply::Rewind(info) = rewind_reply(5, &rewound) else {
        panic!("no rewind");
    };
    assert_eq!((info.restored_checkpoint, info.old_tree.as_str()), (5, "/old"));
    let changes = vec![change("a", ChangeKind::Added), change("b", ChangeKind::MetadataOnly)];
    let Reply::Diff(entries) = diff_reply(&changes, &vec![path("b")]) else {
        panic!("no diff");
    };
    assert_eq!(entries.len(), 2);
    assert!(entries[1].ignored);
    let Reply::Diff(entries) = fork_diff_reply(changes, &Vec::new()) else {
        panic!("no diff");
    };
    assert_eq!(entries.len(), 1);
}

fn promotion() -> Promotion {
    Promotion::begin(path("/work/repo"), "f".to_owned(), generation(1), None, None)
}

#[test]
fn a_fork_without_changes_lands_nothing() {
    let mut p = promotion();
    assert_eq!(p.stage, Stage::PublishHead);
    assert!(p.advance(Event::Generation(generation(1))).unwrap().is_none());
    assert_eq!(p.stage, Stage::Pending);
    let landed = p.advance(Event::Pending(false)).unwrap().expect("landed");
    assert!(matches!(landed, Landed::Nothing { .. }));
}

#[test]
fn a_fork_lands_path_by_path_behind_a_safety_checkpoint() {
    let mut p = promotion();
    p.advance(Event::Generation(generation(2))).unwrap();
    p.advance(Event::Pending(true)).unwrap();
    p.advance(Event::Generation(generation(3))).unwrap();
    assert_eq!(p.stage, Stage::Plan);
    let mut plan = MergePlan::empty();
    plan.take_ours.push(path("a"));
    plan.take_ours.push(path("b"));
    p.advance(Event::Plan(plan)).unwrap();
    let mut stages = Vec::new();
    let mut landed = None;
    for _ in 0..30 {
        stages.push(p.stage);
        let event = match p.stage {
            Stage::Ignored => Event::Ignored(Vec::new()),
            Stage::BuildMerged => Event::Generation(generation(4)),
            Stage::RecordMerged | Stage::Landing(_) | Stage::RecordLanded | Stage::Commit => {
                Event::Done
            }
            Stage::Safety => Event::Checkpoint(generation(2), CheckpointKind::Noop),
            Stage::LandedCheckpoint => Event::Checkpoint(generation(4), CheckpointKind::Post),
            other => panic!("unexpected {other:?}"),
        };
        if let Some(done) = p.advance(event).unwrap() {
            landed = Some(done);
            break;
        }
    }
    let Some(Landed::Replayed { paths, moved, .. }) = landed else {
        panic!("not landed: {stages:?}");
    };
    assert_eq!(paths, 2);
    assert!(moved);
    let safety = stages.iter().position(|s| *s == Stage::Safety).expect("safety");
    let first = stages.iter().position(|s| *s == Stage::Landing(0)).expect("landing");
    assert!(safety < first);
}

#[test]
fn a_conflicted_promotion_never_writes_the_tree() {
    let mut p = promotion();
    p.advance(Event::Generation(generation(2))).unwrap();
    p.advance(Event::Pending(true)).unwrap();
    p.advance(Event::Generation(generation(3))).unwrap();
    let mut plan = MergePlan::empty();
    plan.take_ours.push(path("a"));
    plan.conflicted.push(ConflictedFile {
        path: path("both"),
        bytes: b"<<<<<<< fork f\n".to_vec(),
        mode: 0o644,
        detail: "both changed".to_owned(),
    });
    p.advance(Event::Plan(plan)).unwrap();
    let mut stages = Vec::new();
    let mut landed = None;
    for _ in 0..30 {
        stages.push(p.stage);
        let event = match p.stage {
            Stage::Ignored => Event::Ignored(Vec::new()),
            Stage::BuildMerged => Event::Generation(generation(4)),
            Stage::BuildRebased => Event::Generation(generation(5)),
            Stage::DiffRebased => Event::Changes(vec![change("both", ChangeKind::Modified)]),
            Stage::RecordRebased | Stage::MaterializeRoots => Event::Done,
            other => panic!("unexpected {other:?}"),
        };
        if let Some(done) = p.advance(event).unwrap() {
            landed = Some(done);
            break;
        }
    }
    let Some(Landed::Conflicted { theirs, files, .. }) = landed else {
        panic!("no conflict: {stages:?}");
    };
    assert_eq!(theirs, generation(2));
    assert_eq!(files.len(), 1);
    assert!(!stages.iter().any(|stage| matches!(stage, Stage::Landing(_))));
}

#[test]
fn ignored_paths_are_left_to_the_mainline() {
    let mut plan = MergePlan::empty();
    plan.refusals.push(MergeRefusal { path: path("bin"), reason: "binary".to_owned() });
    plan.refusals.push(MergeRefusal { path: path(".env"), reason: "binary".to_owned() });
    plan.conflicted.push(ConflictedFile {
        path: path("cache"),
        bytes: Vec::new(),
        mode: 0,
        detail: "both".to_owned(),
    });
    let kept = plan.keep_mainline_for(&vec![path(".env"), path("cache")]);
    let kept: Vec<String> = kept.iter().map(|p| p.display()).collect();
    assert_eq!(kept, vec![".env", "cache"]);
    assert_eq!(plan.refusals.len(), 1);
    assert!(plan.conflicted.is_empty());
}

fn displayed(paths: &[HostPath]) -> Vec<String> {
    paths.iter().map(|p| p.display()).collect()
}

#[test]
fn changes_of_one_side_are_taken_and_those_of_both_are_settled() {
    let ours = vec![
        change("a", ChangeKind::Added),
        change("b", ChangeKind::Modified),
        change("c/d", ChangeKind::Modified),
    ];
    let theirs = vec![change("c/d", ChangeKind::Removed), change("e", ChangeKind::Added)];
    let (plan, meetings) = sides(&ours, &theirs);
    assert_eq!(displayed(&plan.take_ours), vec!["a", "b"]);
    assert_eq!(displayed(&plan.take_theirs), vec!["e"]);
    assert_eq!(meetings.len(), 1);
    assert_eq!(meetings[0].path.display(), "c/d");
    assert_eq!(meetings[0].theirs, FileKind::Regular);
}

#[test]
fn a_path_that_both_sides_changed_ends_in_one_place() {
    let met = |content: Content, kind: FileKind| {
        let mut theirs = change("x", ChangeKind::Modified);
        theirs.file_kind = kind;
        let mut ours = change("x", ChangeKind::Modified);
        ours.file_kind = kind;
        let (mut plan, mut meetings) = sides(&vec![ours], &vec![theirs]);
        settle(&mut plan, meetings.remove(0), content, 0o600);
        plan
    };
    let empty = |plan: &MergePlan| {
        plan.merged.is_empty() && plan.conflicted.is_empty() && plan.refusals.is_empty()
    };
    assert!(empty(&met(Content::Unread, FileKind::Directory)));
    assert!(empty(&met(Content::Same, FileKind::Regular)));
    let plan = met(Content::Blended(Blend::Merged(vec![1])), FileKind::Regular);
    assert_eq!((plan.merged[0].bytes.as_slice(), plan.merged[0].mode), ([1u8].as_slice(), 0o600));
    assert!(plan.conflicted.is_empty() && plan.refusals.is_empty());
    let hunks = Blend::Hunks { bytes: vec![2], hunks: 3 };
    let plan = met(Content::Blended(hunks), FileKind::Regular);
    assert_eq!(plan.conflicted[0].detail, "3 conflicting hunk(s)");
    let plan = met(Content::Blended(Blend::TheirsDeleted(vec![2])), FileKind::Regular);
    assert_eq!(plan.conflicted[0].detail, "modified in the fork, deleted on the mainline");
    let plan = met(Content::Blended(Blend::OursDeleted(vec![2])), FileKind::Regular);
    assert_eq!(plan.conflicted[0].detail, "deleted in the fork, modified on the mainline");
    let refused = |content: Content, kind: FileKind| met(content, kind).refusals.remove(0).reason;
    assert_eq!(
        refused(Content::Same, FileKind::SymbolicLink),
        "changed on both sides and not a regular file"
    );
    assert_eq!(
        refused(Content::Unread, FileKind::Regular),
        "changed on both sides and not read"
    );
    assert_eq!(
        refused(Content::Blended(Blend::Binary), FileKind::Regular),
        "binary file changed on both sides"
    );
    assert_eq!(
        refused(Content::Blended(Blend::TooLarge), FileKind::Regular),
        "too large to merge"
    );
}

#[test]
fn markers_are_seen_at_the_start_of_lines() {
    assert!(has_conflict_markers("a\n<<<<<<< ours\nb\n"));
    assert!(has_conflict_markers(">>>>>>> theirs"));
    assert!(!has_conflict_markers("a <<<<<<< b"));
    assert!(!has_conflict_markers(""));
    assert!(is_unresolved(&Some(b"||||||| base\n".to_vec())));
    assert!(!is_unresolved(&None));
    assert!(!is_unresolved(&Some(vec![0xff, 0xfe])));
}

#[test]
fn changes_below_a_changed_directory_are_one() {
    let roots = subtree_roots(&vec![
        change("a", ChangeKind::Added),
        change("a/b", ChangeKind::Added),
        change("c/d", ChangeKind::Modified),
    ]);
    assert_eq!(roots.len(), 2);
    assert_eq!(roots[0], vec![b"a".to_vec()]);
    assert_eq!(roots[1], vec![b"c".to_vec(), b"d".to_vec()]);
}

fn told_session() -> (Index, i64, i64) {
    let mut index = Index::new();
    let s = "s1".to_owned();
    index.session_started(&s, &"codex".to_owned(), 1);
    index.turn_started(&s, "try it", 2);
    let of = |id: &str| Attribution { session_id: Some(id.to_owned()), ..Attribution::default() };
    let first = index.record(generation(1), CheckpointKind::Pre, &of("s1"), 3);
    index.record(generation(2), CheckpointKind::Post, &of("s1"), 4);
    let rewind = Attribution { rewind_target: Some(first), ..of("s1") };
    index.record(generation(2), CheckpointKind::PreRewind, &rewind, 5);
    let end = index.record(generation(1), CheckpointKind::Recovered, &of("s1"), 6);
    index.session_ended("s1", 7);
    (index, first, end)
}

#[test]
fn a_brief_tells_the_previous_session_and_what_it_abandoned() {
    let (index, first, end) = told_session();
    assert!(plan_brief(&index, Some("s1")).session.is_none());
    let plan = plan_brief(&index, Some("other"));
    let told = plan.session.as_ref().expect("session");
    assert_eq!(told.session_id, "s1");
    assert_eq!(told.end_checkpoint, Some(end));
    assert_eq!(told.abandoned.len(), 1);
    assert_eq!(told.abandoned[0].rewound_to, first);
    assert_eq!(told.abandoned[0].from_checkpoint, first + 1);
    assert_eq!(told.abandoned[0].prompt.as_deref(), Some("try it"));
    assert_eq!(plan.branch_diffs, vec![Some((generation(1), generation(2)))]);
    assert_eq!(plan.session_diff, None);
    let branch = vec![change("x", ChangeKind::Added), change("y", ChangeKind::MetadataOnly)];
    let info = finish_brief(plan, Vec::new(), vec![branch], Vec::new());
    assert_eq!(info.session.as_ref().expect("session").abandoned[0].files_changed, 1);
    let text = render(&info);
    assert!(text.starts_with("previous session s1 (codex): ended at checkpoint #4"), "{text}");
    assert!(text.contains("abandoned: #2..#2 (turn 1: \"try it\"), 1 files, rewound to #1\n"), "{text}");
}

#[test]
fn a_brief_stays_under_a_kilobyte() {
    let abandoned = |i: i64| BriefAbandoned {
        from_checkpoint: i,
        to_checkpoint: i + 1,
        rewound_to: 1,
        turn: Some(i),
        prompt: Some("p".repeat(300)),
        checkpoints: 2,
        files_changed: 3,
    };
    let info = BriefInfo {
        session: Some(BriefSession {
            session_id: "é".repeat(40),
            host: None,
            started_at: 0,
            ended_at: None,
            turns: 1,
            checkpoints: 1,
            end_checkpoint: None,
            end_turn: None,
            end_prompt: None,
            files_changed: 7,
            sample_paths: vec!["a".to_owned(), "b".to_owned()],
            abandoned: (0..50).map(abandoned).collect(),
        }),
        drift_files: 2,
    };
    let text = render(&info);
    assert!(text.len() < 1024);
    assert!(text.contains(": ended without a checkpoint\nfiles changed: 7 (a, b)\n"));
    let short = BriefInfo { session: None, drift_files: 0 };
    assert_eq!(render(&short), "no previous session with checkpoints\n");
}

#[test]
fn quotations_are_one_line_and_cut() {
    assert_eq!(quote("a\nb", 72), "\"a b\"");
    assert_eq!(quote("abcdef", 3), "\"abc...\"");
    assert_eq!(quote("abc", 3), "\"abc\"");
}

#[test]
fn a_brief_computed_ahead_is_kept_under_the_tree() {
    let (mut index, _, _) = told_session();
    let key = brief_key(&index, "r1", None).expect("key");
    assert_eq!(key.scope, "s1");
    assert_eq!(key.generation, generation(2));
    index.record(generation(9), CheckpointKind::Post, &Attribution::default(), 9);
    let moved = brief_key(&index, "r1", None).expect("key");
    assert_ne!(moved.generation, key.generation);
    assert!(brief_key(&index, "r1", Some("s1")).is_none());
    index.session_started(&"s2".to_owned(), &"codex".to_owned(), 10);
    let later = Attribution { session_id: Some("s2".to_owned()), ..Attribution::default() };
    index.record(generation(9), CheckpointKind::Post, &later, 11);
    let changed = brief_key(&index, "r1", None).expect("key");
    assert_eq!(changed.generation, moved.generation);
    assert_eq!(changed.scope, "s2");
    assert!(brief_key(&Index::new(), "r1", None).is_none());
}

#[test]
fn tools_ask_and_tell() {
    let Op::Timeline { limit, .. } = tool_request(Tool::Timeline { limit: None }) else {
        panic!("no timeline");
    };
    assert_eq!(limit, 50);
    let Op::Checkpoint { kind, wait, label, .. } =
        tool_request(Tool::Checkpoint { message: Some("m".to_owned()) })
    else {
        panic!("no checkpoint");
    };
    assert_eq!((kind.as_str(), wait, label.as_deref()), ("manual", true, Some("m")));
    let entry = TimelineEntry {
        id: 3,
        created_at: 40,
        kind: "post".to_owned(),
        published: true,
        session_id: None,
        tool_name: Some("Edit".to_owned()),
        label: None,
        error: None,
        turn: Some(2),
    };
    assert_eq!(
        tell(&Tool::Timeline { limit: None }, Reply::Timeline(vec![entry]), 100).unwrap(),
        "#3 1m ago post t2 Edit"
    );
    let diff = DiffEntry {
        path: "a".to_owned(),
        change: "added".to_owned(),
        file_kind: "regular".to_owned(),
        ignored: true,
    };
    assert_eq!(
        tell(&Tool::Diff { before: None, after: None }, Reply::Diff(vec![diff]), 0).unwrap(),
        "added a (gitignored)"
    );
    assert_eq!(
        tell(&Tool::Turns, Reply::Turns(Vec::new()), 0).unwrap(),
        "no turns recorded yet"
    );
    assert_eq!(tell(&Tool::Brief, Reply::Pong, 0).unwrap_err(), "unexpected reply");
    let info = RestoreInfo {
        checkpoint: 5,
        path: "a".to_owned(),
        action: "restored".to_owned(),
        recorded_checkpoint: None,
    };
    assert_eq!(tell_restored(Reply::Restore(info)).unwrap(), "a: restored from #5");
    assert_eq!(
        tell_unreached(ConnectError::NoDaemon),
        "daemon not running and could not be started"
    );
    assert!(instructions().starts_with("This repo uses acyclic: the working tree"));
}

#[test]
fn requests_of_another_version_are_rejected() {
    let request = Request { v: 2, id: 7, op: Op::Ping };
    let response = check_version(&request).expect("rejected");
    assert_eq!(response.id, 7);
    let Payload::Error { message } = response.payload else {
        panic!("accepted");
    };
    assert_eq!(message, "unsupported protocol version 2");
    assert!(check_version(&Request { v: 1, id: 7, op: Op::Ping }).is_none());
    let Payload::Error { message } = bad_request("eof").payload else {
        panic!("accepted");
    };
    assert_eq!(message, "bad request: eof");
    assert!(matches!(accept(respond(3, Ok(Reply::Pong))), Ok(Reply::Pong)));
    assert_eq!(accept(respond(3, Err("no".to_owned()))).unwrap_err(), "no");
}

#[test]
fn a_checkpoint_is_answered_and_committed_as_it_was_asked_for() {
    let outcome =
        CheckpointOutcome { row_id: 4, generation: generation(2), kind: CheckpointKind::Post };
    for (wait, durable, landed, commits) in [
        (true, true, true, true),
        (true, true, false, false),
        (true, false, true, false),
        (false, true, true, true),
        (false, true, false, true),
        (false, false, false, false),
    ] {
        let plan = checkpoint_plan(wait, durable);
        assert_eq!(plan.answer == AnswerOn::Capture, wait);
        assert_eq!(plan.commit_follows(landed), commits);
    }
    assert!(matches!(admitted_answer(Ok(())), Ok(Reply::Enqueued)));
    assert_eq!(admitted_answer(Err("gone".to_owned())).unwrap_err(), "gone");
    let Ok(Reply::Checkpoint(info)) = landed_answer(Ok(outcome), Some(Ok(()))) else {
        panic!("no checkpoint");
    };
    assert_eq!((info.row_id, info.kind.as_str()), (4, "post"));
    assert_eq!(info.generation, "02".repeat(32));
    assert!(landed_answer(Ok(outcome), None).is_ok());
    assert_eq!(
        landed_answer(Ok(outcome), Some(Err("commit: boom".to_owned()))).unwrap_err(),
        "commit: boom"
    );
    assert_eq!(landed_answer(Err("capture".to_owned()), None).unwrap_err(), "capture");
}
