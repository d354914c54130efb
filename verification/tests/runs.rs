//! Runs on behalf of nobody: their places, their ends, and what is left behind.
use acyclic::path::HostPath;
use acyclic::spec_runner::{
    argv0, command_name_matches, is_run_dir, judge, names_program, not_spawned, note, read_note,
    read_words, sweep_stale_runs, Finished, RunOutcome, RunSpace, RunSpec,
};
use acyclic::text::{trim, trim_end, words};

fn finished(success: bool, status: &str, stdout: &[u8], stderr: &[u8]) -> Finished {
    Finished {
        success,
        status: status.to_owned(),
        stdout: stdout.to_vec(),
        stderr: stderr.to_vec(),
    }
}

fn spec(command: &[&str]) -> RunSpec {
    RunSpec {
        command: command.iter().map(|part| (*part).to_owned()).collect(),
        stdin: String::new(),
        timeout: 5000,
        kill_grace: 50,
        max_output_bytes: 1024,
    }
}

#[test]
fn stdin_reaches_the_child_and_stdout_comes_back() {
    let outcome = judge(&finished(true, "exit status: 0", b"the diff", b""), 1024);
    assert_eq!(outcome, RunOutcome::Ready { body: "the diff".to_owned() });
}

#[test]
fn output_over_the_cap_is_refused_rather_than_stored() {
    let body = "x".repeat(2048);
    assert_eq!(judge(&finished(true, "", body.as_bytes(), b""), 16), RunOutcome::Overflow);
    assert!(matches!(
        judge(&finished(true, "", body.as_bytes(), b""), 2048),
        RunOutcome::Ready { .. }
    ));
}

#[test]
fn a_failing_command_reports_its_stderr() {
    let outcome = judge(&finished(false, "exit status: 3", b"", b"first\nwent wrong\n"), 1024);
    assert_eq!(outcome, RunOutcome::Failed("exit exit status: 3: went wrong".to_owned()));
    let quiet = judge(&finished(false, "exit status: 3", b"", b""), 1024);
    assert_eq!(quiet, RunOutcome::Failed("exit exit status: 3: no stderr".to_owned()));
}

#[test]
fn a_missing_command_is_an_outcome_not_a_panic() {
    assert_eq!(
        spec(&[]).program().unwrap_err(),
        RunOutcome::Failed("no command configured".to_owned())
    );
    assert_eq!(spec(&["definitely-not-a-real-binary", "x"]).program().unwrap(), "definitely-not-a-real-binary");
    assert_eq!(
        not_spawned("nope", "not found"),
        RunOutcome::Failed("spawn nope: not found".to_owned())
    );
}

#[test]
fn a_run_has_its_places_below_the_store() {
    let space = RunSpace::create(&HostPath::from_text("/s/runs"), 17);
    assert_eq!(space.scratch.display(), "/s/runs/run-17");
    assert_eq!(space.pid_file.display(), "/s/runs/pids/17");
    assert_eq!(space.root.display(), "/s/runs");
    assert!(is_run_dir("run-17"));
    assert!(!is_run_dir("pids"));
}

#[test]
fn a_note_is_read_back() {
    let text = note(4321, 1_789_144_724, "model");
    assert_eq!(text, "4321 1789144724 model\n");
    assert_eq!(read_note(&text), Some((4321, "model".to_owned())));
    assert_eq!(read_note("  4321\t5   model extra "), Some((4321, "model".to_owned())));
    assert_eq!(read_note("4321 5"), None);
    assert_eq!(read_note("x 5 model"), None);
    assert_eq!(read_note("4294967296 5 model"), None);
    let words = vec!["-7".to_owned(), "0".to_owned(), "sh".to_owned()];
    assert_eq!(read_words(&words), Some((-7, "sh".to_owned())));
}

#[test]
fn only_the_noted_program_is_killed() {
    let text = note(99, 5, "model");
    assert_eq!(sweep_stale_runs(&text, true, "/usr/bin/model\n"), Some(99));
    assert_eq!(sweep_stale_runs(&text, true, "vim\n"), None);
    assert_eq!(sweep_stale_runs(&text, false, "/usr/bin/model\n"), None);
    assert_eq!(sweep_stale_runs("", true, "model"), None);
    assert!(command_name_matches("  /opt/model  \n", "model"));
    assert!(!command_name_matches("", "model"));
    assert!(names_program("model", "model"));
}

#[test]
fn a_program_is_listed_by_its_name() {
    assert_eq!(argv0("/usr/local/bin/model"), "model");
    assert_eq!(argv0("model"), "model");
    assert_eq!(argv0("/"), "/");
}

#[test]
fn white_space_is_that_of_every_script() {
    for text in [
        "",
        " \t\n",
        "one",
        "  one two\n",
        "\u{a0}one\u{2003}two\u{3000}",
        "\u{85}one\u{b}two\u{1680}\u{200a}three\u{2028}",
        "one\u{200b}two \u{feff}",
        "\u{2029}\u{202f}\u{205f}x",
    ] {
        assert_eq!(trim(text), text.trim());
        assert_eq!(trim_end(text), text.trim_end());
        let expected: Vec<&str> = text.split_whitespace().collect();
        assert_eq!(words(text), expected);
    }
}
