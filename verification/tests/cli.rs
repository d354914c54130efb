//! The command line: what it asks, what it prints, what it refuses.
use acyclic::cli::{
    checkpoint_ref, confirmed, is_yes, parse_int, plan, reference, show, stranded, stranded_in_trash,
    turn_range, turn_session, Command, Place, Planned, Shown,
};
use acyclic::client::{
    endpoint_display, explain, log_tail, pipe_name, wait_step, without_daemon, Calls, ConnectError,
    Spawn, Waiting,
};
use acyclic::config::Decompose;
use acyclic::fork::{mount_capability, MountKind, Platform};
use acyclic::path::HostPath;
use acyclic::proto::{
    CheckpointInfo, ConflictEntry, DiffEntry, ForkEntry, InspectInfo, Op, PromoteInfo, Reply,
    RestoreInfo, RewindInfo, RewindTarget, SessionEntry, SessionPendingInfo, StatusInfo,
    TimelineEntry, TurnEntry,
};
use acyclic::store::StorePaths;
use acyclic::report::{age, mounts_report, policy_report, range, short_session};

const NOW: i64 = 1_000_000;

fn some(s: &str) -> Option<String> {
    Some(s.to_owned())
}

fn entry(id: i64) -> TimelineEntry {
    TimelineEntry {
        id,
        created_at: NOW - 30,
        kind: "post".to_owned(),
        published: true,
        session_id: None,
        tool_name: None,
        label: None,
        error: None,
        turn: None,
    }
}

fn turn(n: i64, first: Option<i64>, last: Option<i64>, base: Option<i64>) -> TurnEntry {
    TurnEntry {
        session_id: "session-one".to_owned(),
        turn: n,
        started_at: NOW - 120,
        prompt: "fix\nit".to_owned(),
        first_checkpoint: first,
        last_checkpoint: last,
        checkpoints: 1,
        base_checkpoint: base,
    }
}

fn fork(id: &str, mode: &str) -> ForkEntry {
    ForkEntry {
        id: id.to_owned(),
        path: format!("/f/{id}"),
        mode: mode.to_owned(),
        base: "ab".repeat(32),
        created_at: NOW - 7200,
        session_id: None,
        conflict_paths: Vec::new(),
        conflict: None,
    }
}

fn promoted() -> PromoteInfo {
    PromoteInfo {
        generation: "cd".repeat(32),
        old_tree: None,
        warning: String::new(),
        replayed_paths: 0,
        merged_files: 0,
        conflicts: Vec::new(),
        fork_path: None,
        kept_mainline: Vec::new(),
        mainline_moved: false,
    }
}

fn printed(shown: Shown, reply: Reply) -> String {
    show(&shown, reply, NOW, "1.0 KiB", "").expect("shown")
}

#[test]
fn ages_are_told_in_the_largest_unit() {
    assert_eq!(age(NOW, NOW), "0s ago");
    assert_eq!(age(NOW, NOW + 5), "0s ago");
    assert_eq!(age(NOW, NOW - 59), "59s ago");
    assert_eq!(age(NOW, NOW - 60), "1m ago");
    assert_eq!(age(NOW, NOW - 3600), "1h ago");
    assert_eq!(age(NOW, NOW - 86_400 * 3), "3d ago");
    assert_eq!(age(i64::MAX, i64::MIN), "213503982334601d ago");
}

#[test]
fn sessions_and_ranges_are_shortened() {
    assert_eq!(short_session("12345678"), "12345678");
    assert_eq!(short_session("123456789"), "12345678…");
    assert_eq!(range(Some(1), Some(3)), "#1..#3");
    assert_eq!(range(Some(1), Some(1)), "#1");
    assert_eq!(range(Some(1), None), "#1");
    assert_eq!(range(None, None), "no checkpoints");
}

#[test]
fn numbers_are_read_as_std_reads_them() {
    for text in [
        "0", "7", "-7", "+7", "", "-", "+", "12a", " 1", "9223372036854775807",
        "9223372036854775808", "-9223372036854775808", "-9223372036854775809", "00012", "--1",
        "99999999999999999999999999999999999999999999",
    ] {
        assert_eq!(parse_int(text), text.parse::<i64>().ok(), "{text}");
    }
}

#[test]
fn checkpoints_are_named_by_row_or_generation() {
    assert_eq!(checkpoint_ref(&None).unwrap(), (None, None));
    assert_eq!(checkpoint_ref(&some(" #42 ")).unwrap(), (Some(42), None));
    assert_eq!(checkpoint_ref(&some("abcdef")).unwrap(), (None, some("abcdef")));
    assert_eq!(checkpoint_ref(&some("123456")).unwrap(), (Some(123456), None));
    assert_eq!(
        checkpoint_ref(&some("abc")).unwrap_err(),
        "\"abc\" is neither a checkpoint row id (see `acyclic timeline`) nor a generation hex prefix of at least 6 digits"
    );
    assert_eq!(reference("##7").unwrap(), (Some(7), None));
    assert!(reference(" 7").is_err());
    assert!(reference("xyzxyz").is_err());
}

#[test]
fn a_rewind_names_exactly_one_target() {
    let rewind = |target, last, session_start, yes| {
        plan(Command::Rewind { target, last, session_start, yes })
    };
    let Planned::Ask { op: Op::Rewind { target: RewindTarget::Checkpoint(3), path: None }, .. } =
        rewind(Some(3), false, None, true)
    else {
        panic!("no rewind");
    };
    assert!(matches!(rewind(None, true, None, false), Planned::Confirm { .. }));
    assert!(matches!(rewind(None, false, some("s"), true), Planned::Ask { .. }));
    for refused in [
        rewind(None, false, None, true),
        rewind(Some(1), true, None, true),
        rewind(None, true, some("s"), true),
    ] {
        let Planned::Refused { message } = refused else {
            panic!("accepted");
        };
        assert_eq!(message, "pass exactly one of <id>, --last, --session-start");
    }
}

#[test]
fn a_checkpoint_waits_unless_told_otherwise() {
    let checkpoint = |no_wait, durable, kind: &str| {
        plan(Command::Checkpoint {
            message: some("m"),
            no_wait,
            durable,
            kind: kind.to_owned(),
            session_id: None,
            tool_call_id: None,
            tool_name: None,
        })
    };
    for (no_wait, durable, waits) in
        [(false, false, true), (true, false, false), (true, true, true)]
    {
        let Planned::Ask { op: Op::Checkpoint { wait, label, .. }, .. } =
            checkpoint(no_wait, durable, "manual")
        else {
            panic!("refused");
        };
        assert_eq!(wait, waits);
        assert_eq!(label, some("m"));
    }
    let Planned::Refused { message } = checkpoint(false, false, "ba\"d") else {
        panic!("accepted");
    };
    assert_eq!(message, "unknown kind \"ba\\\"d\"");
}

#[test]
fn a_comparison_refuses_what_names_nothing() {
    let diff = |before: Option<String>, after: Option<String>, turn| {
        plan(Command::Diff { before, after, turn, session: None })
    };
    assert!(matches!(diff(None, None, Some(2)), Planned::Turn { turn: 2, .. }));
    assert!(matches!(diff(some("x"), some("y"), None), Planned::Refused { .. }));
    let Planned::Ask { op: Op::Diff { before, after_hex, .. }, .. } =
        diff(some("4"), some("abcdef12"), None)
    else {
        panic!("refused");
    };
    assert_eq!(before, Some(4));
    assert_eq!(after_hex, some("abcdef12"));
}

#[test]
fn paths_are_restored_one_by_one() {
    let Planned::Each { ops } = plan(Command::Restore {
        checkpoint: 5,
        paths: vec!["a".to_owned(), "b".to_owned()],
    }) else {
        panic!("not each");
    };
    assert_eq!(ops.len(), 2);
    let Op::Rewind { target: RewindTarget::Checkpoint(5), path: Some(path) } = &ops[1] else {
        panic!("no restore");
    };
    assert_eq!(path, "b");
    let removed = RestoreInfo {
        checkpoint: 5,
        path: "b".to_owned(),
        action: "removed".to_owned(),
        recorded_checkpoint: Some(8),
    };
    assert_eq!(
        printed(Shown::Restore, Reply::Restore(removed)),
        "b: absent at #5, removed\n  recorded as checkpoint #8\n"
    );
    let restored = RestoreInfo {
        checkpoint: 5,
        path: "a".to_owned(),
        action: "restored".to_owned(),
        recorded_checkpoint: None,
    };
    assert_eq!(printed(Shown::Restore, Reply::Restore(restored)), "a: restored from #5\n");
}

#[test]
fn agreement_is_a_plain_yes() {
    for yes in ["y", "Y", "yes"] {
        assert!(is_yes(yes));
        assert!(confirmed(&format!("  {yes}\n")));
    }
    for no in ["", "n", "YES", "yes please"] {
        assert!(!confirmed(no));
    }
}

#[test]
fn the_timeline_is_printed_in_columns() {
    let labelled = TimelineEntry {
        label: some("before x"),
        tool_name: some("Bash"),
        turn: Some(3),
        published: false,
        ..entry(7)
    };
    let failed = TimelineEntry { error: some("boom"), ..entry(8) };
    assert_eq!(
        printed(Shown::Timeline, Reply::Timeline(vec![labelled, failed])),
        format!(
            "#{:<5} {:<10} {:<9} {:<4} {}{}\n#{:<5} {:<10} {:<9} {:<4} {}{}\n",
            7, "30s ago", "post", "t3", "before x", "  (unpublished)", 8, "30s ago", "post", "",
            "error: boom", ""
        )
    );
    assert_eq!(printed(Shown::Timeline, Reply::Timeline(Vec::new())), "no checkpoints yet\n");
}

#[test]
fn turns_are_printed_in_columns() {
    assert_eq!(
        printed(Shown::Turns, Reply::Turns(vec![turn(1, Some(4), Some(9), None)])),
        format!(
            "{}  t{:<3} {:<10} {:<14} {}\n",
            "session-…", 1, "2m ago", "#4..#9", "\"fix it\""
        )
    );
    assert_eq!(
        printed(Shown::Turns, Reply::Turns(Vec::new())),
        "no turns recorded (the user-prompt hook records them)\n"
    );
}

#[test]
fn one_checkpoint_is_printed_whole() {
    let info = InspectInfo {
        id: 12,
        generation: "ab".to_owned(),
        created_at: NOW - 30,
        kind: "pre_rewind".to_owned(),
        published: false,
        session_id: some("s1"),
        host: some("codex"),
        turn: Some(2),
        prompt: some("do it"),
        tool_name: some("Bash"),
        tool_call_id: some("t9"),
        label: some("before rewind to #3"),
        error: None,
        rewind_target: Some(3),
    };
    assert_eq!(
        printed(Shown::Show, Reply::Inspect(info)),
        "checkpoint:  #12  (pre_rewind, unpublished)\n\
         generation:  ab\n\
         created:     30s ago\n\
         session:     s1  (codex)\n\
         turn:        2\n\
         prompt:      \"do it\"\n\
         tool:        Bash  (t9)\n\
         label:       before rewind to #3\n\
         rewind to:   #3\n"
    );
    let bare = InspectInfo {
        id: 1,
        generation: "cd".to_owned(),
        created_at: NOW,
        kind: "failed".to_owned(),
        published: true,
        session_id: None,
        host: None,
        turn: None,
        prompt: None,
        tool_name: None,
        tool_call_id: None,
        label: None,
        error: some("boom"),
        rewind_target: None,
    };
    assert_eq!(
        printed(Shown::Show, Reply::Inspect(bare)),
        "checkpoint:  #1  (failed)\n\
         generation:  cd\n\
         created:     0s ago\n\
         session:     none (outside any host session)\n\
         turn:        none\n\
         error:       boom\n"
    );
}

#[test]
fn sessions_are_printed_in_columns() {
    let session = SessionEntry {
        session_id: "abc".to_owned(),
        host: some("codex"),
        started_at: NOW - 60,
        ended_at: None,
        checkpoints: 14,
        turns: 2,
        end_checkpoint: Some(20),
    };
    assert_eq!(
        printed(Shown::Sessions, Reply::Sessions(vec![session])),
        format!(
            "{}  {:<12} started {:<10} {:<12} {:>3} turns  {:>4} checkpoints  ends at {}\n",
            "abc", "codex", "1m ago", "(no end)", 2, 14, "#20"
        )
    );
}

#[test]
fn changes_are_counted_apart_from_ignored_ones() {
    let change = |change: &str, path: &str, ignored| DiffEntry {
        path: path.to_owned(),
        change: change.to_owned(),
        file_kind: "regular".to_owned(),
        ignored,
    };
    assert_eq!(
        printed(
            Shown::Diff,
            Reply::Diff(vec![
                change("added", "a", false),
                change("removed", "b", true),
                change("modified", "c", false),
                change("metadata", "d", false),
            ])
        ),
        "A a\nD b  (gitignored)\nM c\nm d\n4 paths changed (1 gitignored)\n"
    );
    assert_eq!(
        printed(Shown::Diff, Reply::Diff(vec![change("added", "a", false)])),
        "A a\n1 paths changed\n"
    );
    assert_eq!(printed(Shown::Diff, Reply::Diff(Vec::new())), "no changes\n");
}

#[test]
fn forks_are_printed() {
    assert_eq!(
        printed(Shown::Fork, Reply::Forks(vec![fork("a", "mount")])),
        "fork a  (mount)  /f/a\n1 fork(s) ready — work in them freely; `acyclic promote <id>` keeps a winner\n"
    );
    assert!(printed(Shown::Fork, Reply::Forks(vec![fork("a", "mount"), fork("b", "copy")]))
        .ends_with("note: no mount provider on this host, so these are full copies (`acyclic status` explains; promote works the same)\n"));
    let mut conflicted = fork("a", "copy");
    conflicted.conflict_paths = vec!["x".to_owned(), "y".to_owned()];
    assert_eq!(
        printed(Shown::Forks, Reply::Forks(vec![conflicted])),
        "a  copy  2h ago  /f/a  base abababababab  conflict: 2 path(s), resolve then promote\n"
    );
    assert_eq!(
        printed(Shown::Forks, Reply::Forks(Vec::new())),
        "no live forks (forks do not survive daemon restarts)\n"
    );
}

#[test]
fn promotions_are_told_by_how_they_landed() {
    let shown = |info| show(&Shown::Promote { id: "f1".to_owned() }, Reply::Promote(info), NOW, "", "");
    assert_eq!(shown(promoted()).unwrap(), "fork had no changes; nothing to land\n");
    assert_eq!(
        shown(PromoteInfo { replayed_paths: 3, ..promoted() }).unwrap(),
        "promoted: 3 path(s) written in place, tree now at cdcdcdcdcdcd\n"
    );
    assert_eq!(
        shown(PromoteInfo {
            replayed_paths: 3,
            mainline_moved: true,
            warning: "w".to_owned(),
            ..promoted()
        })
        .unwrap(),
        "promoted by replay: 3 path(s) written in place, tree now at cdcdcdcdcdcd\nnote: w\n"
    );
    assert_eq!(
        shown(PromoteInfo {
            replayed_paths: 3,
            merged_files: 1,
            warning: "w".to_owned(),
            kept_mainline: vec![".env".to_owned(), "x".to_owned()],
            ..promoted()
        })
        .unwrap(),
        "kept the mainline's copy of 2 gitignored path(s) both sides changed: .env, x\n\
         promoted by merge: 1 file(s) merged, 3 path(s) written in place, tree now at cdcdcdcdcdcd\nnote: w\n"
    );
    assert_eq!(
        shown(PromoteInfo { old_tree: some("/old"), warning: "w".to_owned(), ..promoted() })
            .unwrap(),
        "promoted: working tree now at cdcdcdcdcdcd\nold tree kept at /old\nnote: w\n"
    );
    let conflicted = PromoteInfo {
        conflicts: vec![ConflictEntry { path: "a.txt".to_owned(), detail: "both".to_owned() }],
        fork_path: some("/f/f1"),
        kept_mainline: vec!["k".to_owned()],
        ..promoted()
    };
    assert_eq!(
        shown(conflicted).unwrap_err(),
        "promote fork f1: 1 file(s) conflict; markers written into the fork, nothing landed\n  a.txt: both\nResolve the markers in /f/f1 and run `acyclic promote f1` again (the fork now sits on cdcdcdcdcdcd)\nkept the mainline's copy of 1 gitignored path(s) both sides changed: k"
    );
}

#[test]
fn health_is_printed() {
    let info = StatusInfo {
        state: "ready".to_owned(),
        last_checkpoint: Some(9),
        unpublished: 2,
        store_bytes: 1024,
        repo_root: "/r".to_owned(),
        mount_provider: "fuse".to_owned(),
        mount_available: true,
        mount_reason: None,
    };
    assert_eq!(
        printed(Shown::Status, Reply::Status(info)),
        "repo:          /r\nstate:         ready\nlast checkpoint: #9\nunpublished:   2\nstore size:    1.0 KiB\nmounts:        fuse (forks mount, Safe Mode on)\n"
    );
}

#[test]
fn sessions_in_safe_mode_are_printed() {
    let pending = SessionPendingInfo {
        session_id: "s".to_owned(),
        diff: vec![DiffEntry {
            path: "a".to_owned(),
            change: "added".to_owned(),
            file_kind: "regular".to_owned(),
            ignored: true,
        }],
    };
    assert_eq!(
        printed(Shown::Pending, Reply::SessionPending(pending)),
        "A a\n1 paths changed; run `acyclic session-apply s` to land them or `acyclic session-discard s` to throw them away\n"
    );
    let nothing = SessionPendingInfo { session_id: "s".to_owned(), diff: Vec::new() };
    assert_eq!(
        printed(Shown::Pending, Reply::SessionPending(nothing)),
        "session s: no changes\n"
    );
    assert_eq!(
        printed(
            Shown::Applied,
            Reply::Promote(PromoteInfo { old_tree: some("/o"), warning: "w".to_owned(), ..promoted() })
        ),
        "applied: working tree now at cdcdcdcdcdcd\nold tree kept at /o\nnote: w\n"
    );
    assert_eq!(
        printed(Shown::Applied, Reply::Promote(promoted())),
        "session had no changes; nothing to land\n"
    );
}

#[test]
fn short_answers_and_strange_ones() {
    assert_eq!(printed(Shown::Checkpoint, Reply::Enqueued), "checkpoint queued\n");
    let landed = CheckpointInfo { row_id: 4, generation: String::new(), kind: "manual".to_owned() };
    assert_eq!(
        printed(Shown::Checkpoint, Reply::Checkpoint(landed)),
        "checkpoint #4 (manual)\n"
    );
    let rewound = RewindInfo {
        restored_checkpoint: 3,
        old_tree: "/t".to_owned(),
        warning: "w".to_owned(),
    };
    assert_eq!(
        printed(Shown::Rewind, Reply::Rewind(rewound)),
        "restored checkpoint #3\nold tree kept at /t\nnote: w\n"
    );
    assert_eq!(printed(Shown::Dropped, Reply::Unit), "fork dropped; its changes evaporated\n");
    assert_eq!(printed(Shown::Published, Reply::Unit), "published\n");
    assert_eq!(printed(Shown::Stopping, Reply::Unit), "daemon stopping\n");
    assert_eq!(printed(Shown::Nothing, Reply::Unit), "");
    assert_eq!(show(&Shown::Status, Reply::Pong, 0, "", "Pong").unwrap_err(), "unexpected reply");
    assert_eq!(
        show(&Shown::Checkpoint, Reply::Pong, 0, "", "Pong").unwrap_err(),
        "unexpected reply Pong"
    );
}

#[test]
fn a_turn_is_compared_from_its_base() {
    let turns = vec![turn(1, Some(2), Some(4), Some(1)), turn(2, None, None, None)];
    assert_eq!(turn_range("s", &turns, 1).unwrap(), (Some(1), Some(4)));
    assert_eq!(turn_range("s", &turns, 2).unwrap_err(), "turn 2 produced no checkpoints");
    assert_eq!(turn_range("s", &turns, 3).unwrap_err(), "session s has no turn 3");
    assert_eq!(turn_session(&Vec::new()).unwrap_err(), "no sessions recorded");
}

fn is_stranded(path: &str, meta: &str) -> bool {
    let places = stranded_in_trash(&HostPath::from_text(path));
    let present = places
        .iter()
        .map(|place| match place {
            Place::StoreTrash { meta: at } => at.display() == meta,
            _ => false,
        })
        .collect();
    stranded(&places, &present)
}

#[test]
fn store_trash_and_sibling_trash_are_detected() {
    let meta = "/w/stores/944d51144ca00be5/meta.json";
    assert!(is_stranded("/w/stores/944d51144ca00be5/trash/demo-1789144724/src", meta));
    assert!(is_stranded("/w/stores/944d51144ca00be5/trash/demo-1789144724", meta));
    assert!(is_stranded("/w/.demo.acyclic-trash-1789144724/src", meta));
    // A directory merely named trash, with no store above it, is fine.
    assert!(!is_stranded("/w/project/trash/notes", meta));
    assert!(!is_stranded("/w/demo", meta));
}

#[test]
fn the_limits_of_splitting_work_are_printed() {
    assert_eq!(
        policy_report(&Decompose::default()),
        "fan_out = 3\nmax_depth = 2\nmax_forks = 8\nrequire_tests = true\ntest_command = (infer from the repo)\ntie_break = \"smallest-diff\"\n# set these under [decompose] in .acyclic/config.toml\n"
    );
    let with_command = Decompose { test_command: some("cargo \"test\""), ..Decompose::default() };
    assert!(policy_report(&with_command).contains("test_command = \"cargo \\\"test\\\"\"\n"));
}

#[test]
fn what_mounts_can_do_is_printed() {
    assert_eq!(
        mounts_report(&mount_capability(Some(MountKind::LinuxFuse), true, None), "hint"),
        "mounts:        fuse (forks and Safe Mode available)\n"
    );
    assert_eq!(
        mounts_report(&mount_capability(None, false, some("no /dev/fuse")), "hint"),
        "mounts:        unavailable (no /dev/fuse)\nhint\n"
    );
}

#[test]
fn callers_without_a_daemon_say_so() {
    assert!(matches!(without_daemon(Spawn::Never), Err(ConnectError::NoDaemon)));
    assert!(without_daemon(Spawn::Allowed).is_ok());
    assert!(without_daemon(Spawn::AllowedFor(300)).is_ok());
    assert_eq!(
        explain(&ConnectError::NoDaemon),
        ("acyclic: daemon not running; checkpoint skipped\n".to_owned(), 2)
    );
    assert_eq!(
        explain(&ConnectError::Other("boom".to_owned())),
        ("acyclic: boom\n".to_owned(), 1)
    );
    assert_eq!(explain(&ConnectError::Starting).1, 1);
}

#[test]
fn a_started_daemon_is_waited_for() {
    let log = HostPath::from_text("/s/daemon.log");
    let step = |answers, ended, elapsed, limit, noticed| {
        wait_step(answers, ended, elapsed, limit, noticed, &log)
    };
    assert!(matches!(step(true, None, 0, None, false), Waiting::Ready));
    assert!(matches!(step(false, None, 0, None, false), Waiting::Again { notice: false }));
    assert!(matches!(step(false, None, 2001, None, false), Waiting::Again { notice: true }));
    assert!(matches!(step(false, None, 2001, None, true), Waiting::Again { notice: false }));
    assert!(matches!(
        step(false, None, 301, Some(300), false),
        Waiting::Failed(ConnectError::Starting)
    ));
    let Waiting::Failed(ConnectError::Other(message)) =
        step(false, Some(("exit status: 1", "a\nb\nc\nd\ne\nf\n")), 0, None, false)
    else {
        panic!("waits");
    };
    assert_eq!(message, "daemon exited (exit status: 1) before serving: f | e | d | c | b");
    let Waiting::Failed(ConnectError::Other(message)) = step(false, None, 1_800_001, None, true)
    else {
        panic!("waits");
    };
    assert_eq!(message, "daemon did not become ready (log: /s/daemon.log)");
    assert_eq!(log_tail(""), "");
    assert_eq!(log_tail("one\r\ntwo\r"), "two\r | one");
}

#[test]
fn endpoints_are_described() {
    let socket = HostPath::from_text("/s/ab:cd.sock");
    assert_eq!(endpoint_display(Platform::Linux, &socket), "/s/ab:cd.sock");
    assert_eq!(
        endpoint_display(Platform::Windows, &socket),
        "\\\\.\\pipe\\acyclic--2fs-2fab-3acd.sock"
    );
    assert_eq!(pipe_name(&HostPath::from_text("/")), "\\\\.\\pipe\\acyclic-default");
}

#[test]
fn every_store_has_a_pipe_of_its_own() {
    let name = |root: &str| pipe_name(&StorePaths { root: HostPath::from_text(root) }.socket());
    let roots = ["/s/ab", "/s/a-b", "/s/a:b", "/s/a\\b", "/s/a/b", "/s/a-2fb", "/s/\u{e9}", "s/ab"];
    for (i, a) in roots.iter().enumerate() {
        let shown = name(a);
        let key = shown.strip_prefix("\\\\.\\pipe\\acyclic-").expect("lead");
        assert!(!key.contains(['\\', '/', ':']), "{key}");
        for b in &roots[i + 1..] {
            assert_ne!(shown, name(b));
        }
    }
    assert_eq!(name("/s/ab/"), name("/s/ab"));
}

#[test]
fn every_request_has_an_id_of_its_own() {
    let mut calls = Calls::new();
    let first = calls.request(Op::Ping);
    let second = calls.request(Op::Ping);
    assert_eq!((first.id, second.id), (1, 2));
    assert_eq!(first.v, 1);
}
