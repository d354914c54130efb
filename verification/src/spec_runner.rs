//! Running a model as a child process on behalf of nobody: what a run is given,
//! where it runs, what its end comes to, and what a daemon that died left
//! behind.
use vstd::prelude::*;
use vstd::utf8::encode_utf8;
use crate::cli::{int_value, parse_int};
use crate::path::{file_name_of, from_utf8_lossy, joined, lossy_text, HostPath};
use crate::text::{
    begins, decimal, int_text, lines, lines_of, push_int, text_begins, text_eq, texts, trim, trimmed, words, words_of,
};

verus! {

/// One run to perform.
#[derive(Debug)]
pub struct RunSpec {
    /// The command and its arguments; never the prompt, which a listing of
    /// processes would show.
    pub command: Vec<String>,
    pub stdin: String,
    /// In milliseconds.
    pub timeout: u64,
    /// In milliseconds.
    pub kill_grace: u64,
    pub max_output_bytes: u64,
}

/// What a run came to.
#[derive(Debug, PartialEq, Eq)]
pub enum RunOutcome {
    Ready { body: String },
    Overflow,
    Failed(String),
    Timeout,
    Cancelled,
}

/// Where one run keeps what it needs: an empty directory to run in, and a note
/// of its process.
#[derive(Debug)]
pub struct RunSpace {
    pub root: HostPath,
    pub pids: HostPath,
    pub pid_file: HostPath,
    pub scratch: HostPath,
}

/// How the directory of a run begins.
pub const RUN_PREFIX: &'static str = "run-";

impl RunSpace {
    /// The places of a run.
    pub fn create(spec_runs: &HostPath, run_id: i64) -> (r: RunSpace)
        ensures
            r.root@ == spec_runs@,
            r.pids@ == joined(spec_runs@, encode_utf8("pids"@)),
            r.pid_file@ == joined(r.pids@, encode_utf8(decimal(run_id as int))),
            r.scratch@ == joined(spec_runs@, encode_utf8(RUN_PREFIX@ + decimal(run_id as int))),
    {
        let mut name = RUN_PREFIX.to_owned();
        push_int(&mut name, run_id);
        let pids = spec_runs.join("pids");
        let pid_file = pids.join(int_text(run_id).as_str());
        RunSpace { root: spec_runs.clone(), pids, pid_file, scratch: spec_runs.join(name.as_str()) }
    }
}

/// The note of a run's process.
pub open spec fn note_text(pgid: i32, now: i64, name: Seq<char>) -> Seq<char> {
    decimal(pgid as int) + " "@ + decimal(now as int) + " "@ + name + "\n"@
}

/// The note of a run's process.
pub fn note(pgid: i32, now: i64, name: &str) -> (r: String)
    ensures
        r@ == note_text(pgid, now, name@),
{
    let mut out = int_text(pgid as i64);
    out.append(" ");
    push_int(&mut out, now);
    out.append(" ");
    out.append(name);
    out.append("\n");
    out
}

/// The name of a program as processes are listed.
pub open spec fn program_name(program: Seq<char>) -> Seq<char> {
    match file_name_of(encode_utf8(program)) {
        Some(name) => lossy_text(name),
        None => program,
    }
}

/// The name of a program as processes are listed.
pub fn argv0(program: &str) -> (r: String)
    ensures
        r@ == program_name(program@),
{
    match HostPath::from_text(program).file_name() {
        Some(name) => from_utf8_lossy(name.as_slice()),
        None => program.to_owned(),
    }
}

impl RunSpec {
    /// The program to run; a run without a command fails.
    pub fn program(&self) -> (r: Result<&String, RunOutcome>)
        ensures
            match r {
                Ok(program) => self.command@.len() > 0 && *program == self.command@[0],
                Err(RunOutcome::Failed(message)) => self.command@.len() == 0 && message@
                    == "no command configured"@,
                Err(_) => false,
            },
    {
        if self.command.len() == 0 {
            return Err(RunOutcome::Failed("no command configured".to_owned()));
        }
        Ok(&self.command[0])
    }
}

/// What is said of a program that could not be started.
pub fn not_spawned(program: &str, error: &str) -> (r: RunOutcome)
    ensures
        r matches RunOutcome::Failed(message) && message@ == "spawn "@ + program@ + ": "@ + error@,
{
    let mut message = "spawn ".to_owned();
    message.append(program);
    message.append(": ");
    message.append(error);
    RunOutcome::Failed(message)
}

/// How a child ended.
#[derive(Debug)]
pub struct Finished {
    pub success: bool,
    pub status: String,
    pub stdout: Vec<u8>,
    pub stderr: Vec<u8>,
}

/// What a run came to whose child ended: its output where it succeeded and kept
/// to its size, else the last line of what it complained of.
pub open spec fn comes_to(f: Finished, max: u64, r: RunOutcome) -> bool {
    let body = lossy_text(f.stdout@);
    if f.success {
        if encode_utf8(body).len() > max {
            r is Overflow
        } else {
            r matches RunOutcome::Ready { body: b } && b@ == body
        }
    } else {
        let complaint = lines_of(lossy_text(f.stderr@));
        r matches RunOutcome::Failed(message) && message@ == "exit "@ + f.status@ + ": "@ + if complaint.len() == 0 {
            "no stderr"@
        } else {
            complaint.last()
        }
    }
}

/// Only what a run that succeeded wrote is served, whole, and never more than is
/// allowed; a run that failed says how it ended.
pub proof fn law_only_successful_runs_are_served(f: Finished, max: u64, r: RunOutcome)
    requires
        comes_to(f, max, r),
    ensures
        r matches RunOutcome::Ready { body } ==> f.success && body@ == lossy_text(f.stdout@)
            && encode_utf8(body@).len() <= max,
        f.success && encode_utf8(lossy_text(f.stdout@)).len() <= max ==> r is Ready,
        r is Overflow ==> f.success && encode_utf8(lossy_text(f.stdout@)).len() > max,
        !f.success ==> (r matches RunOutcome::Failed(message) && crate::text::contains_text(
            message@,
            f.status@,
        )),
{
    if !f.success {
        if let RunOutcome::Failed(message) = r {
            let complaint = lines_of(lossy_text(f.stderr@));
            let rest = ": "@ + if complaint.len() == 0 { "no stderr"@ } else { complaint.last() };
            let status = f.status@;
            assert(message@ =~= "exit "@ + status + rest);
            assert(status.subrange(0, status.len() as int) =~= status);
            assert(crate::text::occurs_at(status, status, 0));
            crate::text::lemma_contained("exit "@, status, rest, status);
        }
    }
}

/// What a run came to whose child ended.
pub fn judge(f: &Finished, max: u64) -> (r: RunOutcome)
    ensures
        comes_to(*f, max, r),
{
    if f.success {
        let body = from_utf8_lossy(f.stdout.as_slice());
        if body.as_str().as_bytes().len() as u64 > max {
            return RunOutcome::Overflow;
        }
        return RunOutcome::Ready { body };
    }
    let complaint = lines(from_utf8_lossy(f.stderr.as_slice()).as_str());
    assert(texts(complaint@).len() == complaint@.len());
    let mut message = "exit ".to_owned();
    message.append(f.status.as_str());
    message.append(": ");
    if complaint.len() == 0 {
        message.append("no stderr");
    } else {
        message.append(complaint[complaint.len() - 1].as_str());
    }
    RunOutcome::Failed(message)
}

/// The process and the program that the words of a note tell: the first and the
/// third.
pub open spec fn noted(words: Seq<Seq<char>>) -> Option<(int, Seq<char>)> {
    if words.len() < 3 {
        None
    } else {
        match int_value(words[0]) {
            Some(n) => if i32::MIN <= n <= i32::MAX {
                Some((n, words[2]))
            } else {
                None
            },
            None => None,
        }
    }
}

/// The process and the program that the words of a note tell.
pub fn read_words(words: &Vec<String>) -> (r: Option<(i32, String)>)
    ensures
        match r {
            Some((pgid, name)) => noted(texts(words@)) == Some((pgid as int, name@)),
            None => noted(texts(words@)) is None,
        },
{
    if words.len() < 3 {
        return None;
    }
    assert(texts(words@)[0] == words@[0]@ && texts(words@)[2] == words@[2]@);
    match parse_int(words[0].as_str()) {
        Some(n) => {
            if n < i32::MIN as i64 || n > i32::MAX as i64 {
                return None;
            }
            Some((n as i32, words[2].clone()))
        },
        None => None,
    }
}

/// The process and the program that a note tells.
pub fn read_note(text: &str) -> (r: Option<(i32, String)>)
    ensures
        match r {
            Some((pgid, name)) => noted(words_of(text@)) == Some((pgid as int, name@)),
            None => noted(words_of(text@)) is None,
        },
{
    read_words(&words(text))
}

/// Whether a process that is listed, without white space around it, is the
/// program that was noted.
pub open spec fn is_program(listed: Seq<char>, expected: Seq<char>) -> bool {
    file_name_of(encode_utf8(listed)) matches Some(name) && lossy_text(name) == expected
}

/// Whether a process that is listed, without white space around it, is the
/// program that was noted.
pub fn names_program(listed: &str, expected: &str) -> (r: bool)
    ensures
        r == is_program(listed@, expected@),
{
    match HostPath::from_text(listed).file_name() {
        Some(name) => text_eq(from_utf8_lossy(name.as_slice()).as_str(), expected),
        None => false,
    }
}

/// Whether a process that lives is the run that was noted, rather than whatever
/// got its number.
pub fn command_name_matches(listed: &str, expected: &str) -> (r: bool)
    ensures
        r == is_program(trimmed(listed@), expected@),
{
    names_program(trim(listed).as_str(), expected)
}

/// Whether a process of a run that a dead daemon left is killed: it lives, and
/// is the run that was noted.
pub open spec fn kills(alive: bool, listed: Seq<char>, expected: Seq<char>) -> bool {
    alive && is_program(trimmed(listed), expected)
}

/// Whether a process of a run that a dead daemon left is killed.
pub fn must_kill(alive: bool, listed: &str, expected: &str) -> (r: bool)
    ensures
        r == kills(alive, listed@, expected@),
{
    alive && command_name_matches(listed, expected)
}

/// Whether a directory is one of a run that never ended.
pub fn is_run_dir(name: &str) -> (r: bool)
    ensures
        r == begins(name@, RUN_PREFIX@),
{
    text_begins(name, RUN_PREFIX)
}

/// One step of clearing what a dead daemon left: a note is read, and its
/// process, should it live and be the run, is to be killed.
pub fn sweep_stale_runs(note: &str, alive: bool, listed: &str) -> (r: Option<i32>)
    ensures
        r == match noted(words_of(note@)) {
            Some((pgid, name)) => if kills(alive, listed@, name) {
                Some(pgid as i32)
            } else {
                None
            },
            None => None,
        },
{
    match read_note(note) {
        Some((pgid, name)) => {
            if must_kill(alive, listed, name.as_str()) {
                Some(pgid)
            } else {
                None
            }
        },
        None => None,
    }
}

/// A process that only got the number of a run is never killed.
pub proof fn law_strangers_are_not_killed(alive: bool, listed: Seq<char>, expected: Seq<char>)
    requires
        !is_program(trimmed(listed), expected),
    ensures
        !kills(alive, listed, expected),
{
}

/// What a daemon notes of a run's process is what the next one reads: from the
/// words of a note, the process and the program that it was written for.
pub proof fn law_notes_are_read_back(pgid: i32, now: i64, name: Seq<char>)
    ensures
        noted(seq![decimal(pgid as int), decimal(now as int), name]) == Some((pgid as int, name)),
{
    let text = decimal(pgid as int);
    if pgid < 0 {
        let n = (-pgid) as nat;
        crate::journeys::lemma_decimal_read(n);
        assert(text.skip(1) =~= crate::text::decimal_nat(n));
    } else {
        crate::journeys::lemma_decimal_read(pgid as nat);
    }
}

} // verus!
