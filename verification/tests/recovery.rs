//! What a daemon does at its start with a rewind that a crash interrupted,
//! played on a disk of names.
use std::collections::BTreeMap;

use acyclic::forward;
use acyclic::path::HostPath;
use acyclic::recovery::{Act, Answer, Journal, Phase, Place, RecoveredSwap, Recovery};
use acyclic::rewind::{must_publish, parked_path, swap_scratch, swapped_repo};

type Tree = BTreeMap<String, Vec<u8>>;

struct Disk {
    trees: BTreeMap<String, Tree>,
    journal: bool,
    parked: u64,
}

fn tree(files: &[(&str, &[u8])]) -> Tree {
    files.iter().map(|(name, bytes)| (name.to_string(), bytes.to_vec())).collect()
}

const REPO: &str = "/work/repo";
const TMP: &str = "/work/repo.tmp";

impl Disk {
    fn new(trees: &[(&str, Tree)]) -> Disk {
        Disk {
            trees: trees.iter().map(|(at, t)| (at.to_string(), t.clone())).collect(),
            journal: true,
            parked: 0,
        }
    }

    fn place(&self, place: Place) -> String {
        match place {
            Place::Repo => REPO.to_owned(),
            Place::Tmp => TMP.to_owned(),
            Place::Scratch => swap_scratch(&HostPath::from_text(REPO)).expect("scratch").display(),
        }
    }

    fn perform(&mut self, recovery: &Recovery) -> (Answer, Option<HostPath>) {
        let yes = |b: bool| if b { Answer::Yes } else { Answer::No };
        match recovery.act() {
            Act::Look(place) => (yes(self.trees.contains_key(&self.place(place))), None),
            Act::LookCarried(place, i) => {
                let name = recovery.journal.carried[i].display();
                let there = self.trees.get(&self.place(place)).is_some_and(|t| t.contains_key(&name));
                (yes(there), None)
            }
            Act::MoveCarried(place, i) => {
                let name = recovery.journal.carried[i].display();
                let bytes = self.trees.get_mut(TMP).and_then(|t| t.remove(&name)).expect("carried");
                let to = self.place(place);
                self.trees.get_mut(&to).expect("tree").insert(name, bytes);
                (Answer::Done, None)
            }
            Act::MoveHome(place) => {
                let from = self.place(place);
                let moved = self.trees.remove(&from).expect("tree");
                self.trees.insert(REPO.to_owned(), moved);
                (Answer::Done, None)
            }
            Act::Discard => {
                self.trees.remove(TMP);
                (Answer::Done, None)
            }
            Act::Park(place) => {
                let from = self.place(place);
                let moved = self.trees.remove(&from).expect("tree");
                let to = parked_path(&HostPath::from_text("/work"), "repo", 7, 1, self.parked);
                self.parked += 1;
                self.trees.insert(to.display(), moved);
                (Answer::Done, Some(to))
            }
            Act::RemoveJournal => {
                self.journal = false;
                (Answer::Done, None)
            }
            Act::Finish => (Answer::Done, None),
        }
    }

    fn recover(&mut self, journal: Journal, scratch: bool) -> Result<RecoveredSwap, String> {
        let mut recovery = Recovery::begin(journal, scratch).map_err(|e| e.message())?;
        for _ in 0..200 {
            if recovery.act() == Act::Finish {
                return Ok(recovery.finish());
            }
            let (answer, parked) = self.perform(&recovery);
            recovery.advance(answer, parked, String::new()).map_err(|e| e.message())?;
        }
        panic!("recovery does not end");
    }

    fn file(&self, at: &str, name: &str) -> Option<Vec<u8>> {
        self.trees.get(at).and_then(|t| t.get(name).cloned())
    }

    fn parked_tree_contains(&self, name: &str, expected: &[u8]) -> bool {
        self.trees
            .iter()
            .filter(|(at, _)| at.contains(".acyclic-trash-"))
            .any(|(_, t)| t.get(name).map(|b| b.as_slice()) == Some(expected))
    }
}

fn journal(phase: Phase, carried: &[&str]) -> Journal {
    Journal {
        target_generation: "00".repeat(32),
        repo_root: HostPath::from_text(REPO),
        tmp: HostPath::from_text(TMP),
        phase,
        carried: carried.iter().map(|c| HostPath::from_text(c)).collect(),
    }
}

#[test]
fn rewind_recover_finishes_interrupted_two_step_swap() {
    let mut disk = Disk::new(&[(TMP, tree(&[("file.txt", b"restored")]))]);
    let recovered = disk.recover(journal(Phase::Swapping, &[]), false).expect("recover");
    assert!(!recovered.published);
    assert_eq!(disk.file(REPO, "file.txt").expect("read"), b"restored");
    assert!(!disk.trees.contains_key(TMP));
    assert!(!disk.journal);
}

#[test]
fn rewind_recover_discards_partial_materialization() {
    let mut disk = Disk::new(&[
        (REPO, tree(&[("keep.txt", b"live")])),
        (TMP, tree(&[("partial.txt", b"half")])),
    ]);
    disk.recover(journal(Phase::Materializing, &[]), false).expect("recover");
    assert_eq!(disk.file(REPO, "keep.txt").expect("read"), b"live");
    assert!(!disk.trees.contains_key(TMP));
    assert!(!disk.journal);
}

#[test]
fn recover_mid_carry_returns_excluded_paths_to_the_repo() {
    let mut disk = Disk::new(&[
        (REPO, tree(&[("secrets/key.pem", b"KEY")])),
        (TMP, tree(&[(".env", b"LIVE")])),
    ]);
    disk.recover(journal(Phase::Carrying, &[".env", "secrets/key.pem"]), false).expect("recover");
    assert_eq!(disk.file(REPO, ".env").expect("back"), b"LIVE");
    assert_eq!(disk.file(REPO, "secrets/key.pem").expect("kept"), b"KEY");
    assert!(!disk.trees.contains_key(TMP), "unused new tree removed");
    assert!(!disk.journal);
}

#[test]
fn recover_before_the_swap_keeps_carried_paths_out_of_the_discarded_tree() {
    let mut disk = Disk::new(&[
        (REPO, tree(&[("file.txt", b"old")])),
        (TMP, tree(&[("file.txt", b"new"), (".env", b"LIVE")])),
    ]);
    disk.recover(journal(Phase::Swapping, &[".env"]), false).expect("recover");
    assert_eq!(disk.file(REPO, "file.txt").expect("repo"), b"old");
    assert_eq!(disk.file(REPO, ".env").expect("carried back"), b"LIVE");
    assert!(!disk.trees.contains_key(TMP));
}

#[test]
fn recover_keeps_both_trees_and_journal_on_carried_path_conflict() {
    let mut disk = Disk::new(&[
        (REPO, tree(&[(".env", b"repo copy")])),
        (TMP, tree(&[(".env", b"staged copy")])),
    ]);
    disk.recover(journal(Phase::Carrying, &[".env"]), false)
        .expect_err("conflicting copies require inspection");
    assert_eq!(disk.file(REPO, ".env").expect("repo"), b"repo copy");
    assert_eq!(disk.file(TMP, ".env").expect("staged"), b"staged copy");
    assert!(disk.journal);
}

#[test]
fn recover_after_the_swap_leaves_carried_paths_in_the_new_tree() {
    let mut disk = Disk::new(&[
        (REPO, tree(&[("file.txt", b"new"), (".env", b"LIVE")])),
        (TMP, tree(&[("file.txt", b"old")])),
    ]);
    disk.recover(journal(Phase::Swapping, &[".env"]), false).expect("recover");
    assert_eq!(disk.file(REPO, "file.txt").expect("repo"), b"new");
    assert_eq!(disk.file(REPO, ".env").expect("still here"), b"LIVE");
    assert!(!disk.trees.contains_key(TMP));
    assert!(disk.parked_tree_contains("file.txt", b"old"));
}

#[test]
fn recover_preserves_both_trees_after_first_windows_rename() {
    let scratch = swap_scratch(&HostPath::from_text(REPO)).expect("scratch").display();
    let mut disk = Disk::new(&[
        (TMP, tree(&[("file.txt", b"new tree"), (".env", b"carried live data")])),
        (scratch.as_str(), tree(&[("file.txt", b"old tree")])),
    ]);
    disk.recover(journal(Phase::Swapping, &[".env"]), true).expect("recover");
    assert_eq!(disk.file(REPO, "file.txt").expect("repo whole"), b"old tree");
    assert!(!disk.trees.contains_key(&scratch), "scratch must not outlive recovery");
    assert!(!disk.trees.contains_key(TMP));
    assert!(!disk.journal);
    assert_eq!(disk.file(REPO, ".env").expect("carried data survived"), b"carried live data");
    assert!(disk.parked_tree_contains("file.txt", b"new tree"));
}

#[test]
fn a_journal_that_names_no_generation_is_refused() {
    let mut bad = journal(Phase::Materializing, &[]);
    bad.target_generation = "00".to_owned();
    assert_eq!(
        Recovery::begin(bad, false).err().expect("refused").message(),
        "restore: rewind generation must be 32 bytes"
    );
    let mut bad = journal(Phase::Materializing, &[]);
    bad.target_generation = "no hex".to_owned();
    assert!(Recovery::begin(bad, false)
        .err()
        .expect("refused")
        .message()
        .starts_with("restore: rewind generation: "));
}

#[test]
fn parking_replaced_trees_never_reuses_a_name() {
    let parent = HostPath::from_text("/work");
    let parked: Vec<HostPath> =
        (0..3).map(|sequence| parked_path(&parent, "repo", 1_789_144_724, 42, sequence)).collect();
    assert!(parked[0] != parked[1] && parked[1] != parked[2] && parked[0] != parked[2]);
    for at in &parked {
        assert_eq!(at.parent().expect("parent"), parent);
        assert!(at.display().contains(".acyclic-trash-"));
    }
}

/// Walks a rewind over a disk until the acts run out, and says which phase the
/// journal then names.
fn walk(disk: &mut Disk, scratch: bool, acts: usize, fails_at: Option<usize>) -> Option<Phase> {
    let carried = ["cache", "data"];
    let way = forward::Way { carried: carried.len(), scratch };
    let aside = disk.place(Place::Scratch);
    let mut phase = None;
    let mut stage = forward::Stage::Staging;
    for n in 0..acts {
        let act = forward::act(stage);
        let done = fails_at != Some(n);
        if done {
            match act {
                forward::Act::MakeTmp => {
                    disk.trees.insert(TMP.to_owned(), Tree::new());
                }
                forward::Act::WriteJournal(p) => phase = Some(p),
                forward::Act::Materialize => {
                    disk.trees.insert(TMP.to_owned(), tree(&[("file", b"new")]));
                }
                forward::Act::RemoveTmp => {
                    disk.trees.remove(TMP);
                }
                forward::Act::RemoveJournal => phase = None,
                forward::Act::Carry(i) => {
                    let bytes =
                        disk.trees.get_mut(REPO).and_then(|t| t.remove(carried[i])).expect("path");
                    disk.trees.get_mut(TMP).expect("tmp").insert(carried[i].to_owned(), bytes);
                }
                forward::Act::Exchange => {
                    let old = disk.trees.remove(REPO).expect("repo");
                    let new = disk.trees.remove(TMP).expect("tmp");
                    disk.trees.insert(REPO.to_owned(), new);
                    disk.trees.insert(TMP.to_owned(), old);
                }
                forward::Act::MoveAside => {
                    let old = disk.trees.remove(REPO).expect("repo");
                    disk.trees.insert(aside.clone(), old);
                }
                forward::Act::MoveIn => {
                    let new = disk.trees.remove(TMP).expect("tmp");
                    disk.trees.insert(REPO.to_owned(), new);
                }
                forward::Act::MoveBehind => {
                    let old = disk.trees.remove(&aside).expect("aside");
                    disk.trees.insert(TMP.to_owned(), old);
                }
                forward::Act::Park => {
                    let old = disk.trees.remove(TMP).expect("tmp");
                    disk.trees.insert("/work/.repo.acyclic-trash-0".to_owned(), old);
                }
                forward::Act::WriteLocator
                | forward::Act::RemoveLocator
                | forward::Act::Finish => {}
            }
        }
        match forward::step(way, stage, done) {
            Some(later) => stage = later,
            None => break,
        }
    }
    disk.journal = phase.is_some();
    phase
}

fn before_rewind() -> Disk {
    let mut disk =
        Disk::new(&[(REPO, tree(&[("file", b"old"), ("cache", b"c"), ("data", b"d")]))]);
    disk.journal = false;
    disk
}

#[test]
fn a_crash_at_any_step_of_a_rewind_leaves_old_or_new() {
    let old = tree(&[("file", b"old"), ("cache", b"c"), ("data", b"d")]);
    let new = tree(&[("file", b"new"), ("cache", b"c"), ("data", b"d")]);
    for scratch in [false, true] {
        for acts in 0..25 {
            for fails_at in (0..25).map(Some).chain([None]) {
                let mut disk = before_rewind();
                if let Some(phase) = walk(&mut disk, scratch, acts, fails_at) {
                    let carried: &[&str] =
                        if phase == Phase::Materializing { &[] } else { &["cache", "data"] };
                    let trees = disk.trees.clone();
                    let read = journal(phase, carried);
                    disk.recover(journal(phase, carried), scratch).expect("recover");
                    if phase == Phase::RestoringHead {
                        assert_eq!(disk.trees, trees);
                        assert!(disk.journal && must_publish(false, &Some(read)));
                    } else {
                        assert!(!disk.journal);
                    }
                }
                let repo = disk.trees.get(REPO).expect("repo");
                assert!(*repo == old || *repo == new, "{acts} {fails_at:?}: {repo:?}");
                assert!(
                    *repo == old || disk.parked_tree_contains("file", b"old"),
                    "{acts} {fails_at:?}"
                );
            }
        }
        let mut disk = before_rewind();
        assert_eq!(walk(&mut disk, scratch, 25, None), None);
        assert_eq!(disk.trees[REPO], new);
        assert!(!disk.trees.contains_key(TMP));
    }
}

#[test]
fn a_rewind_says_what_failed() {
    let tmp = HostPath::from_text(TMP);
    let said = |stage| forward::failure(stage, &tmp, "disk full").message();
    assert_eq!(
        said(forward::Stage::Staging),
        "restore: rewind: stage /work/repo.tmp: disk full"
    );
    assert_eq!(said(forward::Stage::Materializing), "restore: materialize: disk full");
    assert_eq!(said(forward::Stage::Exchanging), "restore: publish tree: disk full");
    assert_eq!(said(forward::Stage::MovingIn), "restore: publish tree: disk full");
    assert_eq!(said(forward::Stage::Parking), "restore: disk full");
    assert_eq!(said(forward::Stage::Carrying(0)), "disk full");
}

#[test]
fn a_tree_moved_aside_names_its_repository() {
    let repo = HostPath::from_text(REPO);
    let aside = swap_scratch(&repo).expect("scratch");
    assert_eq!(swapped_repo(&aside), Some(repo));
    for other in ["/work/repo", "/work/.acyclic-swap", "/work/.repo.acyclic-trash-1", "/"] {
        assert_eq!(swapped_repo(&HostPath::from_text(other)), None, "{other}");
    }
}
