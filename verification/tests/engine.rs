//! The engine: trees and their differences, restores, rewinds, and the pipeline
//! that serves requests one at a time.
use std::collections::BTreeMap;

use acyclic::diff::{
    content_changes, diff, sort_entries, ChangeKind, FileChange, FileKind, RecordSummary, TreeEntry,
};
use acyclic::digest::GenerationId;
use acyclic::error::EngineError;
use acyclic::history::{annotate_ignored, resolve_target};
use acyclic::index::{Attribution, CheckpointKind, Index};
use acyclic::nodes::{children, plan_node, NodeStep, TRANSFER_BYTES};
use acyclic::path::HostPath;
use acyclic::pipeline::{
    drain_step, Act, CommitOutcome, DrainStep, Event, Pipeline, Poll, Reply, Request, State,
};
use acyclic::proto::RewindTarget;
use acyclic::restore::{
    applied_mode, stage_name, validate_relative, Act as RestoreAct, Answer, PathReplace, Restore,
    RestoreAction,
};
use acyclic::rewind::{
    expired, locator_path, must_publish, prepare, prunes, RewindOutcome, RELOAD_WARNING,
};
use acyclic::recovery::Phase;
use acyclic::walk::{Page, PageEntry, Walk};

fn generation(byte: u8) -> GenerationId {
    GenerationId { bytes: [byte; 32] }
}

fn path(text: &str) -> HostPath {
    HostPath::from_text(text)
}

fn names(text: &str) -> Vec<Vec<u8>> {
    text.split('/').map(|part| part.as_bytes().to_vec()).collect()
}

fn record(at: &str, kind: FileKind, payload: &str, metadata: &str) -> TreeEntry {
    TreeEntry {
        names: names(at),
        record: RecordSummary {
            kind,
            payload: if kind == FileKind::Directory { None } else { Some(payload.as_bytes().to_vec()) },
            metadata: metadata.as_bytes().to_vec(),
        },
    }
}

fn shown(changes: &[FileChange]) -> Vec<(String, ChangeKind)> {
    changes.iter().map(|c| (c.host_path().display(), c.change)).collect()
}

fn before_tree() -> Vec<TreeEntry> {
    vec![
        record("src", FileKind::Directory, "", "d"),
        record("src/main.rs", FileKind::Regular, "fn main() {}", "m"),
        record(".env", FileKind::Regular, "SECRET=1", "m"),
        record("touched", FileKind::Regular, "same", "m"),
    ]
}

fn after_tree() -> Vec<TreeEntry> {
    vec![
        record("generated.bin", FileKind::Regular, "7777", "m"),
        record("src/main.rs", FileKind::Regular, "fn main() { changed(); }", "m"),
        record("src", FileKind::Directory, "", "d"),
        record("touched", FileKind::Regular, "same", "later"),
    ]
}

#[test]
fn a_diff_names_exactly_the_changed_paths() {
    let changes = diff(
        generation(1),
        generation(2),
        sort_entries(before_tree()),
        sort_entries(after_tree()),
    );
    assert_eq!(
        shown(&changes),
        vec![
            (".env".to_owned(), ChangeKind::Removed),
            ("generated.bin".to_owned(), ChangeKind::Added),
            ("src/main.rs".to_owned(), ChangeKind::Modified),
            ("touched".to_owned(), ChangeKind::MetadataOnly),
        ]
    );
    let entries = annotate_ignored(&changes, &vec![path("generated.bin")]);
    assert_eq!(entries[1].change, "added");
    assert_eq!(entries[1].file_kind, "regular");
    assert!(entries[1].ignored && !entries[0].ignored);
    assert_eq!(shown(&content_changes(changes)).len(), 3);
}

#[test]
fn a_tree_has_no_changes_to_itself() {
    let same = diff(generation(1), generation(1), Vec::new(), sort_entries(after_tree()));
    assert!(same.is_empty());
    let equal = diff(
        generation(1),
        generation(2),
        sort_entries(before_tree()),
        sort_entries(before_tree()),
    );
    assert!(equal.is_empty());
}

#[test]
fn the_reverse_diff_reverses_the_changes() {
    let back = diff(
        generation(2),
        generation(1),
        sort_entries(after_tree()),
        sort_entries(before_tree()),
    );
    assert_eq!(
        shown(&back),
        vec![
            (".env".to_owned(), ChangeKind::Added),
            ("generated.bin".to_owned(), ChangeKind::Removed),
            ("src/main.rs".to_owned(), ChangeKind::Modified),
            ("touched".to_owned(), ChangeKind::MetadataOnly),
        ]
    );
}

fn page_entry(name: &str, kind: FileKind) -> PageEntry {
    PageEntry {
        name: name.as_bytes().to_vec(),
        kind,
        payload: b"p".to_vec(),
        metadata: b"m".to_vec(),
    }
}

#[test]
fn a_walk_finds_every_entry_of_every_page() {
    let mut walk = Walk::new();
    let mut asked = Vec::new();
    while walk.turn() {
        let directory = walk.current.clone().expect("directory");
        let after = walk.after.clone();
        asked.push((directory.len(), after.is_some()));
        let page = match (directory.len(), after) {
            (0, None) => Page {
                entries: vec![page_entry("a", FileKind::Regular)],
                has_more: true,
            },
            (0, Some(last)) => {
                assert_eq!(last, b"a");
                Page { entries: vec![page_entry("d", FileKind::Directory)], has_more: false }
            }
            _ => Page { entries: vec![page_entry("x", FileKind::SymbolicLink)], has_more: false },
        };
        walk.accept(page);
    }
    assert_eq!(asked, vec![(0, false), (0, true), (1, false)]);
    let found = walk.finish();
    let mut at: Vec<Vec<Vec<u8>>> = found.iter().map(|e| e.names.clone()).collect();
    at.sort();
    assert_eq!(at, vec![names("a"), names("d"), names("d/x")]);
    for entry in &found {
        assert_eq!(entry.record.payload.is_none(), entry.record.kind == FileKind::Directory);
    }
}

#[test]
fn a_path_restore_stays_inside_the_repository() {
    assert_eq!(validate_relative(&path("a/./b")).expect("inside"), names("a/b"));
    assert_eq!(
        validate_relative(&path("../x")).unwrap_err().message(),
        "restore: ../x: path must be relative to the repo root and stay inside it"
    );
    assert!(validate_relative(&path("/etc/passwd")).is_err());
    assert_eq!(
        validate_relative(&path(".")).unwrap_err().message(),
        "restore: restoring the whole tree is `acyclic rewind`, not a path restore"
    );
    assert_eq!(applied_mode(0o100644), 0o644);
    assert!(stage_name(7, 3).starts_with(".acyclic-restore-"));
    assert_ne!(stage_name(7, 3), stage_name(7, 4));
}

fn drive(restore: &mut Restore, answers: &[(RestoreAct, Answer)]) -> Result<(), EngineError> {
    for (act, answer) in answers {
        assert_eq!(restore.act(), *act);
        restore.advance(*answer, "host".to_owned())?;
    }
    Ok(())
}

#[test]
fn a_path_is_restored_by_one_exchange() {
    let mut restore =
        Restore::begin(path("/work/repo"), path("dir/file"), PathReplace::Atomic).expect("begin");
    drive(
        &mut restore,
        &[
            (RestoreAct::StatRoot, Answer::Directory),
            (RestoreAct::StatParent(0), Answer::Directory),
            (RestoreAct::MakeStage, Answer::Taken),
            (RestoreAct::MakeStage, Answer::Done),
            (RestoreAct::Materialize, Answer::Done),
            (RestoreAct::StatRoot, Answer::Directory),
            (RestoreAct::StatParent(0), Answer::Directory),
            (RestoreAct::StatDestination, Answer::Other),
            (RestoreAct::Exchange, Answer::Done),
            (RestoreAct::RemoveStage, Answer::Done),
            (RestoreAct::SyncStageParent, Answer::Done),
        ],
    )
    .expect("restored");
    assert_eq!(restore.act(), RestoreAct::Finish);
    assert_eq!(restore.destination().display(), "/work/repo/dir/file");
    let outcome = restore.finish(RestoreAction::Restored);
    assert_eq!(outcome.path.display(), "dir/file");
}

#[test]
fn path_restore_rejects_symlinked_parent() {
    let mut restore =
        Restore::begin(path("/work/repo"), path("dir/file"), PathReplace::Atomic).expect("begin");
    let refused = drive(
        &mut restore,
        &[
            (RestoreAct::StatRoot, Answer::Directory),
            (RestoreAct::StatParent(0), Answer::Other),
        ],
    );
    assert!(refused.is_err());
}

#[test]
fn nodes_are_written_in_pieces() {
    let steps = plan_node(FileKind::Regular, Some(TRANSFER_BYTES + 1), u64::MAX).expect("file");
    assert_eq!(
        steps,
        vec![
            NodeStep::CreateFile,
            NodeStep::Copy { offset: 0, length: TRANSFER_BYTES },
            NodeStep::Copy { offset: TRANSFER_BYTES, length: 1 },
            NodeStep::Seal,
            NodeStep::ApplyMode,
        ]
    );
    assert!(plan_node(FileKind::Regular, None, 1).is_err());
    assert!(plan_node(FileKind::Fifo, None, 1).is_err());
    assert!(plan_node(FileKind::Directory, None, 1).expect("directory").contains(&NodeStep::MakeDirectory));
    assert!(plan_node(FileKind::SymbolicLink, None, 1).expect("link").contains(&NodeStep::Link));
}

#[test]
fn a_rewind_is_prepared_beside_the_repository() {
    let mut prepared = prepare(path("/work/repo"), generation(7), 42, 3).expect("prepared");
    assert_eq!(prepared.tmp.parent().expect("parent").display(), "/work");
    assert!(prepared.tmp.display().ends_with("-tmp-42"));
    prepared.carry(path(".env"), true);
    prepared.carry(path("gone"), false);
    let journal = prepared.journal(Phase::Carrying);
    assert_eq!(journal.carried.len(), 1);
    assert_eq!(journal.target_generation, "07".repeat(32));
    let outcome = prepared.outcome(path("/work/old"));
    assert_eq!(outcome.restored, generation(7));
    assert_eq!(outcome.warning, RELOAD_WARNING);
    assert_eq!(
        prepare(path("/"), generation(7), 42, 3).err().expect("refused").message(),
        "restore: repo root has no parent"
    );
    assert!(locator_path(&path("/work/repo")).is_ok());
    assert!(!must_publish(false, &None));
}

#[test]
fn what_was_parked_is_kept_for_its_days() {
    let day: u128 = 86_400_000_000_000;
    assert!(!expired(7 * day, 7));
    assert!(expired(7 * day + 1, 7));
    let name = acyclic::rewind::parked_path(&path("/work"), "repo", 5, 1, 0)
        .file_name()
        .expect("name");
    assert!(prunes(&path("/work/repo"), &name, Some(8 * day), 7));
    assert!(!prunes(&path("/work/repo"), &name, Some(6 * day), 7));
    assert!(!prunes(&path("/work/repo"), &name, None, 7));
    assert!(!prunes(&path("/work/repo"), b"elsewhere", Some(8 * day), 7));
}

#[test]
fn draining_waits_for_quiet() {
    assert_eq!(drain_step(Poll::Changes, 0, 0, 50, 500), DrainStep::Capture);
    assert_eq!(drain_step(Poll::RescanRequired, 0, 0, 50, 500), DrainStep::Rescan);
    assert_eq!(drain_step(Poll::Nothing, 50, 60, 50, 500), DrainStep::Settled);
    assert_eq!(drain_step(Poll::Nothing, 10, 500, 50, 500), DrainStep::Settled);
    assert!(!matches!(
        drain_step(Poll::Nothing, 10, 60, 50, 500),
        DrainStep::Settled | DrainStep::Capture | DrainStep::Rescan
    ));
}

/// Plays the snapshot engine: a checkpoint of a changed tree is a new
/// generation.
struct Engine {
    files: BTreeMap<&'static str, Vec<u8>>,
    shots: Vec<BTreeMap<&'static str, Vec<u8>>>,
    seen: BTreeMap<&'static str, Vec<u8>>,
}

impl Engine {
    fn new(files: &[(&'static str, &[u8])]) -> Engine {
        let files: BTreeMap<&'static str, Vec<u8>> =
            files.iter().map(|(path, bytes)| (*path, bytes.to_vec())).collect();
        Engine { seen: files.clone(), files, shots: Vec::new() }
    }

    fn event(&mut self, act: Act, target: Option<GenerationId>) -> Event {
        match act {
            Act::Drain => {
                let changed = self.files != self.seen;
                self.seen = self.files.clone();
                Event::Drained(changed)
            }
            Act::CaptureBaseline | Act::CaptureTail | Act::BeginRescan | Act::ResetWatch => {
                self.seen = self.files.clone();
                Event::Done
            }
            Act::Snapshot => {
                let at = match self.shots.iter().position(|shot| *shot == self.files) {
                    Some(at) => at,
                    None => {
                        self.shots.push(self.files.clone());
                        self.shots.len() - 1
                    }
                };
                Event::Snapshot(generation(at as u8 + 1))
            }
            Act::FinishRescan => Event::Rescanned(false),
            Act::Commit => Event::Commit(CommitOutcome::Committed),
            Act::Execute => {
                let to = target.expect("target");
                self.files = self.shots[to.bytes[0] as usize - 1].clone();
                Event::Rewound(RewindOutcome {
                    restored: to,
                    old_tree: path("/work/.repo.acyclic-trash-1"),
                    warning: RELOAD_WARNING,
                })
            }
            Act::Diff => Event::Changes(Vec::new()),
            Act::Wait => panic!("nothing to do"),
        }
    }

    fn run(&mut self, pipeline: &mut Pipeline, now: i64) -> Option<Reply> {
        let mut reply = None;
        for _ in 0..100 {
            if pipeline.act() == Act::Wait {
                return reply;
            }
            let target = pipeline.target.as_ref().map(|row| row.generation);
            let event = self.event(pipeline.act(), target);
            if let Some(r) = pipeline.advance(event, now) {
                reply = Some(r);
            }
        }
        panic!("the pipeline does not come to rest");
    }

    fn ask(&mut self, pipeline: &mut Pipeline, request: Request, now: i64) -> Reply {
        match pipeline.submit(request, now) {
            Some(reply) => reply,
            None => self.run(pipeline, now).expect("reply"),
        }
    }
}

fn checkpoint(kind: CheckpointKind) -> Request {
    Request::Checkpoint { kind, attribution: Attribution::default() }
}

#[test]
fn checkpoint_rewind_journey() {
    let mut engine =
        Engine::new(&[("src/main.rs", b"fn main() {}\n"), (".env", b"SECRET=1\n")]);
    let mut pipeline = Pipeline::start(Index::new(), 100);
    engine.run(&mut pipeline, 1);
    assert_eq!(pipeline.state, State::Ready);

    // Baseline exists; take the "before" checkpoint.
    let Reply::Checkpoint(before) = engine.ask(&mut pipeline, checkpoint(CheckpointKind::Pre), 2)
    else {
        panic!("no checkpoint");
    };

    // An agent turn: edit + new gitignored artifact + delete.
    engine.files.insert("src/main.rs", b"fn main() { changed(); }\n".to_vec());
    engine.files.insert("generated.bin", vec![7u8; 4096]);
    engine.files.remove(".env");
    let asked = Request::Checkpoint {
        kind: CheckpointKind::Post,
        attribution: Attribution {
            session_id: Some("s1".into()),
            tool_name: Some("Bash".into()),
            ..Attribution::default()
        },
    };
    let Reply::Checkpoint(after) = engine.ask(&mut pipeline, asked, 3) else {
        panic!("no checkpoint");
    };
    assert_ne!(before.generation, after.generation);
    assert_eq!(after.kind, CheckpointKind::Post);
    let row = pipeline.index.by_id(after.row_id).expect("row");
    assert_eq!(row.kind, CheckpointKind::Post);
    assert_eq!(row.generation, after.generation);
    assert_eq!(row.session_id.as_deref(), Some("s1"));
    assert_eq!(row.tool_name.as_deref(), Some("Bash"));

    // A checkpoint with no changes is recorded as a noop.
    let Reply::Checkpoint(idle) = engine.ask(&mut pipeline, checkpoint(CheckpointKind::Post), 4)
    else {
        panic!("no checkpoint");
    };
    assert_eq!(idle.kind, CheckpointKind::Noop);
    assert_eq!(idle.generation, after.generation);

    // Rewind to the pre state.
    let target = resolve_target(&pipeline.index, &RewindTarget::Checkpoint(before.row_id))
        .expect("target");
    let Reply::Rewind(outcome) = engine.ask(&mut pipeline, Request::Rewind { target }, 5) else {
        panic!("no rewind");
    };
    assert_eq!(outcome.restored, before.generation);
    assert!(pipeline
        .index
        .rows
        .iter()
        .any(|row| row.kind == CheckpointKind::PreRewind && row.rewind_target == Some(before.row_id)));

    // The tree is back: edit reverted, artifact gone, .env restored.
    assert_eq!(engine.files["src/main.rs"], b"fn main() {}\n");
    assert!(!engine.files.contains_key("generated.bin"));
    assert_eq!(engine.files[".env"], b"SECRET=1\n");

    let Reply::Status(status) = engine.ask(&mut pipeline, Request::Status, 6) else {
        panic!("no status");
    };
    assert_eq!(status.state, State::Ready);
    assert!(!pipeline.closing);
    assert!(matches!(engine.ask(&mut pipeline, Request::Commit, 7), Reply::Unit));
    assert!(!pipeline.closing);
    assert!(matches!(engine.ask(&mut pipeline, Request::Shutdown, 8), Reply::Unit));
    assert!(pipeline.closing);
}

#[test]
fn a_commit_is_due_after_so_many_checkpoints() {
    let mut engine = Engine::new(&[("a", b"0")]);
    let mut pipeline = Pipeline::start(Index::new(), 2);
    engine.run(&mut pipeline, 1);
    for i in 2..=3u8 {
        engine.files.insert("a", vec![i]);
        engine.ask(&mut pipeline, checkpoint(CheckpointKind::Post), i as i64);
    }
    assert_eq!(pipeline.index.unpublished_count(), 0);
    assert_eq!(pipeline.since_commit, 0);
}

#[test]
fn children_are_written_below_their_directory() {
    let entries =
        vec![page_entry("b", FileKind::Directory), page_entry("a", FileKind::Regular)];
    let written = children(&names("src/deep"), &path("/stage/src/deep"), &entries);
    assert_eq!(written.len(), 2);
    assert_eq!(written[0].names, names("src/deep/b"));
    assert_eq!(written[0].host, path("/stage/src/deep/b"));
    assert_eq!(written[0].kind, FileKind::Directory);
    assert_eq!(written[1].names, names("src/deep/a"));
    assert_eq!(written[1].host, path("/stage/src/deep/a"));
    assert_eq!(written[1].kind, FileKind::Regular);
    assert!(children(&names("src"), &path("/stage/src"), &Vec::new()).is_empty());
}
