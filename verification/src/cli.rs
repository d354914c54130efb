//! The command line: what each command asks the daemon, what is made of the
//! reply, and what is refused before anything is asked.
use vstd::prelude::*;
use crate::brief::{brief_text, render};
use crate::digest::hex_value;
use crate::path::{file_name_of, from_utf8_lossy, joined, lossy_text, parent_of, HostPath};
use crate::proto::{Op, Reply, RewindTarget, SessionEntry, TurnEntry};
use crate::report::{
    applied_report, applied_text, checkpoint_line, checkpoint_report, diff_report, diff_text,
    fork_report, fork_text, forks_report, forks_text, pending_report, pending_text, promote_report,
    restore_report, restore_text, rewound, rewound_text, sessions_report, sessions_text, show_report,
    show_text, status_report, status_text, timeline_report, timeline_text, turns_report, turns_text,
};
use crate::text::{
    begins, chars_of, contains_text, debug_of, debug_text, decimal, push_int, text_begins,
    text_contains, text_eq, text_of, trim, trimmed,
};

verus! {

/// The code that a command ends with where it did what it was asked.
pub const EXIT_DONE: i32 = 0;

/// The code of a command that failed.
pub const EXIT_FAILED: i32 = 1;

/// The code of a command that found no daemon and was not to start one.
pub const EXIT_NO_DAEMON: i32 = 2;

/// A command that the daemon serves.
#[derive(Debug)]
#[allow(inconsistent_fields)]
pub enum Command {
    Checkpoint {
        message: Option<String>,
        no_wait: bool,
        durable: bool,
        kind: String,
        session_id: Option<String>,
        tool_call_id: Option<String>,
        tool_name: Option<String>,
    },
    Timeline { session: Option<String>, turn: Option<i64>, limit: u32 },
    Turns { session: Option<String> },
    Show { checkpoint: i64 },
    Sessions { limit: u32 },
    Brief { current: Option<String> },
    Restore { checkpoint: i64, paths: Vec<String> },
    Rewind { target: Option<i64>, last: bool, session_start: Option<String>, yes: bool },
    Diff {
        before: Option<String>,
        after: Option<String>,
        turn: Option<i64>,
        session: Option<String>,
    },
    Fork { count: u32 },
    Forks,
    ForkDrop { id: String },
    Promote { id: String },
    ForkDiff { id: String },
    Status,
    Commit,
    Stop,
    SessionStart { session_id: String, host: String },
    SessionEnd { session_id: String },
    SessionResolve { session_id: String },
    SessionApply { session_id: String },
    SessionDiscard { session_id: String },
}

/// What is made of a reply.
#[derive(Debug)]
pub enum Shown {
    Checkpoint,
    Timeline,
    Turns,
    Show,
    Sessions,
    Brief,
    Restore,
    Rewind,
    Diff,
    Fork,
    Forks,
    Dropped,
    Promote { id: String },
    Status,
    Published,
    Stopping,
    Pending,
    Applied,
    Nothing,
}

/// What a command does.
#[derive(Debug)]
pub enum Planned {
    /// One request.
    Ask { op: Op, shown: Shown },
    /// A request for each of several paths, as long as they are answered.
    Each { ops: Vec<Op> },
    /// One request, once the user has agreed.
    Confirm { op: Op },
    /// A comparison over a turn, which has to be looked up.
    Turn { session: Option<String>, turn: i64 },
    Refused { message: String },
}

/// The digits of a number, from the left.
pub open spec fn digits_value(s: Seq<char>) -> Option<nat>
    decreases s.len(),
{
    if s.len() == 0 {
        Some(0)
    } else {
        match digits_value(s.drop_last()) {
            Some(n) => if '0' <= s.last() && s.last() <= '9' {
                Some(10 * n + (s.last() as nat - '0' as nat) as nat)
            } else {
                None
            },
            None => None,
        }
    }
}

/// The number that a text writes in decimal: a sign or none, then digits.
pub open spec fn int_value(s: Seq<char>) -> Option<int> {
    let signed = s.len() > 0 && (s[0] == '-' || s[0] == '+');
    let digits = if signed { s.skip(1) } else { s };
    match digits_value(digits) {
        Some(n) => if digits.len() == 0 {
            None
        } else if signed && s[0] == '-' {
            Some(-n)
        } else {
            Some(n as int)
        },
        None => None,
    }
}

/// Digits with no value have none with more behind them, and a value only
/// grows.
proof fn lemma_digits_prefix(s: Seq<char>, k: int)
    requires
        0 <= k <= s.len(),
    ensures
        digits_value(s.take(k)) is None ==> digits_value(s) is None,
        digits_value(s) is Some ==> digits_value(s.take(k)) is Some && digits_value(s.take(k))->0
            <= digits_value(s)->0,
    decreases s.len() - k,
{
    if k < s.len() {
        lemma_digits_prefix(s, k + 1);
        assert(s.take(k + 1).drop_last() =~= s.take(k));
    } else {
        assert(s.take(k) =~= s);
    }
}

/// The number that a text writes in decimal, where it fits.
pub fn parse_int(text: &str) -> (r: Option<i64>)
    ensures
        match r {
            Some(n) => int_value(text@) == Some(n as int),
            None => match int_value(text@) {
                Some(n) => n < i64::MIN || n > i64::MAX,
                None => true,
            },
        },
{
    let chars = chars_of(text);
    let size: usize = chars.len();
    let signed = size > 0 && (chars[0] == '-' || chars[0] == '+');
    let negative = size > 0 && chars[0] == '-';
    let start: usize = if signed {
        1
    } else {
        0
    };
    let ghost digits = if signed { text@.skip(1) } else { text@ };
    assert(digits =~= text@.skip(start as int));
    if start == size {
        return None;
    }
    let mut value: i128 = 0;
    let mut i: usize = start;
    assert(digits.take(0) =~= Seq::<char>::empty());
    while i < size
        invariant
            chars@ == text@,
            size == chars@.len(),
            start <= i <= size,
            signed == (text@.len() > 0 && (text@[0] == '-' || text@[0] == '+')),
            digits == if signed { text@.skip(1) } else { text@ },
            digits == text@.skip(start as int),
            digits.len() == size - start,
            digits.len() > 0,
            0 <= value <= 0x8000_0000_0000_0000,
            digits_value(digits.take(i - start)) == Some(value as nat),
        decreases size - i,
    {
        let c = chars[i];
        proof {
            assert(digits.take(i - start + 1).drop_last() =~= digits.take(i - start));
            assert(digits.take(i - start + 1).last() == c);
        }
        if !('0' <= c && c <= '9') {
            proof {
                lemma_digits_prefix(digits, i - start + 1);
            }
            return None;
        }
        value = 10 * value + (c as u32 as i128 - '0' as u32 as i128);
        if value > 0x8000_0000_0000_0000 {
            proof {
                lemma_digits_prefix(digits, i - start + 1);
            }
            return None;
        }
        i += 1;
    }
    assert(digits.take(i - start) =~= digits);
    if negative {
        Some((-value) as i64)
    } else if value <= 0x7fff_ffff_ffff_ffff {
        Some(value as i64)
    } else {
        None
    }
}

/// A text without the marks that lead it.
pub open spec fn unmarked(s: Seq<char>) -> Seq<char>
    decreases s.len(),
{
    if s.len() > 0 && s[0] == '#' { unmarked(s.skip(1)) } else { s }
}

fn strip_marks(s: &str) -> (r: String)
    ensures
        r@ == unmarked(s@),
{
    let chars = chars_of(s);
    let size: usize = chars.len();
    let mut i: usize = 0;
    assert(s@.skip(0) =~= s@);
    while i < size && chars[i] == '#'
        invariant
            chars@ == s@,
            size == chars@.len(),
            i <= size,
            unmarked(s@) == unmarked(s@.skip(i as int)),
        decreases size - i,
    {
        assert(s@.skip(i as int).skip(1) =~= s@.skip(i + 1));
        i += 1;
    }
    let r = text_of(vstd::slice::slice_subrange(chars.as_slice(), i, size));
    assert(r@ =~= s@.skip(i as int));
    r
}

/// The fewest digits of a generation that name one.
pub const SHORTEST_GENERATION: usize = 6;

/// Whether a text begins a generation.
pub open spec fn is_generation_head(s: Seq<char>) -> bool {
    s.len() >= SHORTEST_GENERATION && forall|i: int|
        0 <= i < s.len() ==> hex_value(#[trigger] s[i]) is Some
}

fn generation_head(s: &str) -> (r: bool)
    ensures
        r == is_generation_head(s@),
{
    let chars = chars_of(s);
    if chars.len() < SHORTEST_GENERATION {
        return false;
    }
    let mut i: usize = 0;
    while i < chars.len()
        invariant
            chars@ == s@,
            i <= chars@.len(),
            forall|j: int| 0 <= j < i ==> hex_value(#[trigger] s@[j]) is Some,
        decreases chars.len() - i,
    {
        let c = chars[i];
        let hex = ('0' <= c && c <= '9') || ('a' <= c && c <= 'f') || ('A' <= c && c <= 'F');
        if !hex {
            assert(hex_value(s@[i as int]) is None);
            return false;
        }
        i += 1;
    }
    true
}

/// What is said of an argument that names no checkpoint.
pub open spec fn no_checkpoint_text(arg: Seq<char>) -> Seq<char> {
    debug_of(arg)
        + " is neither a checkpoint row id (see `acyclic timeline`) nor a generation hex prefix of at least 6 digits"@
}

/// Whether an argument, without white space around it, names a checkpoint by
/// its row or by the beginning of its generation, or is refused.
pub open spec fn is_reference(arg: Seq<char>, r: Result<(Option<i64>, Option<String>), String>) -> bool {
    let bare = unmarked(arg);
    match int_value(bare) {
        Some(n) if i64::MIN <= n <= i64::MAX => r matches Ok((Some(id), None)) && id == n,
        _ => if is_generation_head(bare) {
            r matches Ok((None, Some(hex))) && hex@ == bare
        } else {
            r matches Err(message) && message@ == no_checkpoint_text(bare)
        },
    }
}

/// What an argument, without white space around it, names.
pub fn reference(arg: &str) -> (r: Result<(Option<i64>, Option<String>), String>)
    ensures
        is_reference(arg@, r),
{
    let bare = strip_marks(arg);
    if let Some(id) = parse_int(bare.as_str()) {
        return Ok((Some(id), None));
    }
    if generation_head(bare.as_str()) {
        return Ok((None, Some(bare)));
    }
    let mut message = debug_text(bare.as_str());
    message.append(
        " is neither a checkpoint row id (see `acyclic timeline`) nor a generation hex prefix of at least 6 digits",
    );
    Err(message)
}

/// What an argument names; nothing where it is missing.
pub fn checkpoint_ref(arg: &Option<String>) -> (r: Result<(Option<i64>, Option<String>), String>)
    ensures
        match arg {
            None => r == Ok::<(Option<i64>, Option<String>), String>((None, None)),
            Some(text) => is_reference(trimmed(text@), r),
        },
{
    match arg {
        None => Ok((None, None)),
        Some(text) => reference(trim(text.as_str()).as_str()),
    }
}

/// Whether a command asks for a checkpoint as it was told.
pub open spec fn asks_checkpoint(c: Command, p: Planned) -> bool {
    c matches Command::Checkpoint {
        message,
        no_wait,
        durable,
        kind,
        session_id,
        tool_call_id,
        tool_name,
    } && if kind@ == "pre"@ || kind@ == "post"@ || kind@ == "manual"@ {
        p == (Planned::Ask {
            op: Op::Checkpoint {
                kind,
                session_id,
                tool_call_id,
                tool_name,
                label: message,
                wait: !no_wait || durable,
                durable,
            },
            shown: Shown::Checkpoint,
        })
    } else {
        p matches Planned::Refused { message: said } && said@ == "unknown kind "@ + debug_of(kind@)
    }
}

/// Whether a command rewinds to what it was told, once the user has agreed
/// where agreement was not given.
pub open spec fn asks_rewind(c: Command, p: Planned) -> bool {
    c matches Command::Rewind { target, last, session_start, yes } && {
        let named = match (target, last, session_start) {
            (Some(id), false, None) => Some(RewindTarget::Checkpoint(id)),
            (None, true, None) => Some(RewindTarget::Last),
            (None, false, Some(session)) => Some(RewindTarget::SessionStart(session)),
            _ => None,
        };
        match named {
            Some(to) => if yes {
                p == (Planned::Ask {
                    op: Op::Rewind { target: to, path: None },
                    shown: Shown::Rewind,
                })
            } else {
                p == (Planned::Confirm { op: Op::Rewind { target: to, path: None } })
            },
            None => p matches Planned::Refused { message } && message@
                == "pass exactly one of <id>, --last, --session-start"@,
        }
    }
}

/// Whether a result is what an argument names, or it is missing.
pub open spec fn names(arg: Option<String>, r: Result<(Option<i64>, Option<String>), String>) -> bool {
    match arg {
        None => r == Ok::<(Option<i64>, Option<String>), String>((None, None)),
        Some(text) => is_reference(trimmed(text@), r),
    }
}

/// Whether a command compares what it was told.
pub open spec fn asks_diff(c: Command, p: Planned) -> bool {
    c matches Command::Diff { before, after, turn, session } && match turn {
        Some(turn) => p == (Planned::Turn { session, turn }),
        None => match p {
            Planned::Ask { op: Op::Diff { before: a, after: b, before_hex, after_hex }, shown } => {
                &&& shown is Diff
                &&& names(before, Ok((a, before_hex)))
                &&& names(after, Ok((b, after_hex)))
            },
            Planned::Refused { message } => {
                ||| names(before, Err(message))
                ||| (exists|found: (Option<i64>, Option<String>)| #[trigger]
                    names(before, Ok(found))) && names(after, Err(message))
            },
            _ => false,
        },
    }
}

/// Whether a command restores each path that it was told.
pub open spec fn asks_restore(c: Command, p: Planned) -> bool {
    c matches Command::Restore { checkpoint, paths } && p matches Planned::Each { ops } && {
        &&& ops@.len() == paths@.len()
        &&& forall|i: int|
            0 <= i < ops@.len() ==> #[trigger] ops@[i] == (Op::Rewind {
                target: RewindTarget::Checkpoint(checkpoint),
                path: Some(paths@[i]),
            })
    }
}

/// Whether a command does what it was told.
pub open spec fn plans_command(c: Command, p: Planned) -> bool {
    match c {
        Command::Checkpoint { .. } => asks_checkpoint(c, p),
        Command::Timeline { session, turn, limit } => p == (Planned::Ask {
            op: Op::Timeline { session_id: session, turn, limit },
            shown: Shown::Timeline,
        }),
        Command::Turns { session } => p == (Planned::Ask {
            op: Op::Turns { session_id: session },
            shown: Shown::Turns,
        }),
        Command::Show { checkpoint } => p == (Planned::Ask {
            op: Op::Inspect { checkpoint },
            shown: Shown::Show,
        }),
        Command::Sessions { limit } => p == (Planned::Ask {
            op: Op::Sessions { limit },
            shown: Shown::Sessions,
        }),
        Command::Brief { current } => p == (Planned::Ask {
            op: Op::Brief { current },
            shown: Shown::Brief,
        }),
        Command::Restore { .. } => asks_restore(c, p),
        Command::Rewind { .. } => asks_rewind(c, p),
        Command::Diff { .. } => asks_diff(c, p),
        Command::Fork { count } => p == (Planned::Ask {
            op: Op::Fork { count, session_id: None },
            shown: Shown::Fork,
        }),
        Command::Forks => p == (Planned::Ask { op: Op::ForkList, shown: Shown::Forks }),
        Command::ForkDrop { id } => p == (Planned::Ask {
            op: Op::ForkDrop { id },
            shown: Shown::Dropped,
        }),
        Command::Promote { id } => p matches Planned::Ask {
            op: Op::Promote { id: of },
            shown: Shown::Promote { id: told },
        } && of@ == id@ && told@ == id@,
        Command::ForkDiff { id } => p == (Planned::Ask {
            op: Op::ForkDiff { id },
            shown: Shown::Diff,
        }),
        Command::Status => p == (Planned::Ask { op: Op::Status, shown: Shown::Status }),
        Command::Commit => p == (Planned::Ask { op: Op::Commit, shown: Shown::Published }),
        Command::Stop => p == (Planned::Ask { op: Op::Stop, shown: Shown::Stopping }),
        Command::SessionStart { session_id, host } => p == (Planned::Ask {
            op: Op::SessionStart { session_id, host },
            shown: Shown::Nothing,
        }),
        Command::SessionEnd { session_id } => p == (Planned::Ask {
            op: Op::SessionEnd { session_id },
            shown: Shown::Nothing,
        }),
        Command::SessionResolve { session_id } => p == (Planned::Ask {
            op: Op::SessionResolve { session_id },
            shown: Shown::Pending,
        }),
        Command::SessionApply { session_id } => p == (Planned::Ask {
            op: Op::SessionApply { session_id },
            shown: Shown::Applied,
        }),
        Command::SessionDiscard { session_id } => p == (Planned::Ask {
            op: Op::SessionDiscard { session_id },
            shown: Shown::Nothing,
        }),
    }
}

fn plan_restore(checkpoint: i64, paths: Vec<String>) -> (r: Planned)
    ensures
        asks_restore(Command::Restore { checkpoint, paths }, r),
{
    let mut ops: Vec<Op> = Vec::new();
    let mut i: usize = 0;
    while i < paths.len()
        invariant
            i <= paths@.len(),
            ops@.len() == i,
            forall|j: int|
                0 <= j < i ==> #[trigger] ops@[j] == (Op::Rewind {
                    target: RewindTarget::Checkpoint(checkpoint),
                    path: Some(paths@[j]),
                }),
        decreases paths.len() - i,
    {
        ops.push(
            Op::Rewind {
                target: RewindTarget::Checkpoint(checkpoint),
                path: Some(paths[i].clone()),
            },
        );
        i += 1;
    }
    Planned::Each { ops }
}

/// What a command does.
pub fn plan(command: Command) -> (r: Planned)
    ensures
        plans_command(command, r),
{
    match command {
        Command::Checkpoint {
            message,
            no_wait,
            durable,
            kind,
            session_id,
            tool_call_id,
            tool_name,
        } => {
            if !text_eq(kind.as_str(), "pre") && !text_eq(kind.as_str(), "post") && !text_eq(
                kind.as_str(),
                "manual",
            ) {
                let mut said = "unknown kind ".to_owned();
                said.append(debug_text(kind.as_str()).as_str());
                return Planned::Refused { message: said };
            }
            Planned::Ask {
                op: Op::Checkpoint {
                    kind,
                    session_id,
                    tool_call_id,
                    tool_name,
                    label: message,
                    wait: !no_wait || durable,
                    durable,
                },
                shown: Shown::Checkpoint,
            }
        },
        Command::Timeline { session, turn, limit } => Planned::Ask {
            op: Op::Timeline { session_id: session, turn, limit },
            shown: Shown::Timeline,
        },
        Command::Turns { session } => Planned::Ask {
            op: Op::Turns { session_id: session },
            shown: Shown::Turns,
        },
        Command::Show { checkpoint } => Planned::Ask {
            op: Op::Inspect { checkpoint },
            shown: Shown::Show,
        },
        Command::Sessions { limit } => Planned::Ask {
            op: Op::Sessions { limit },
            shown: Shown::Sessions,
        },
        Command::Brief { current } => Planned::Ask {
            op: Op::Brief { current },
            shown: Shown::Brief,
        },
        Command::Restore { checkpoint, paths } => plan_restore(checkpoint, paths),
        Command::Rewind { target, last, session_start, yes } => {
            let to = match (target, last, session_start) {
                (Some(id), false, None) => RewindTarget::Checkpoint(id),
                (None, true, None) => RewindTarget::Last,
                (None, false, Some(session)) => RewindTarget::SessionStart(session),
                _ => {
                    return Planned::Refused {
                        message: "pass exactly one of <id>, --last, --session-start".to_owned(),
                    };
                },
            };
            let op = Op::Rewind { target: to, path: None };
            if yes {
                Planned::Ask { op, shown: Shown::Rewind }
            } else {
                Planned::Confirm { op }
            }
        },
        Command::Diff { before, after, turn, session } => {
            if let Some(turn) = turn {
                return Planned::Turn { session, turn };
            }
            let (a, before_hex) = match checkpoint_ref(&before) {
                Ok(found) => found,
                Err(message) => {
                    return Planned::Refused { message };
                },
            };
            assert(names(before, Ok((a, before_hex))));
            let (b, after_hex) = match checkpoint_ref(&after) {
                Ok(found) => found,
                Err(message) => {
                    return Planned::Refused { message };
                },
            };
            Planned::Ask {
                op: Op::Diff { before: a, after: b, before_hex, after_hex },
                shown: Shown::Diff,
            }
        },
        Command::Fork { count } => Planned::Ask {
            op: Op::Fork { count, session_id: None },
            shown: Shown::Fork,
        },
        Command::Forks => Planned::Ask { op: Op::ForkList, shown: Shown::Forks },
        Command::ForkDrop { id } => Planned::Ask {
            op: Op::ForkDrop { id },
            shown: Shown::Dropped,
        },
        Command::Promote { id } => Planned::Ask {
            op: Op::Promote { id: id.clone() },
            shown: Shown::Promote { id },
        },
        Command::ForkDiff { id } => Planned::Ask { op: Op::ForkDiff { id }, shown: Shown::Diff },
        Command::Status => Planned::Ask { op: Op::Status, shown: Shown::Status },
        Command::Commit => Planned::Ask { op: Op::Commit, shown: Shown::Published },
        Command::Stop => Planned::Ask { op: Op::Stop, shown: Shown::Stopping },
        Command::SessionStart { session_id, host } => Planned::Ask {
            op: Op::SessionStart { session_id, host },
            shown: Shown::Nothing,
        },
        Command::SessionEnd { session_id } => Planned::Ask {
            op: Op::SessionEnd { session_id },
            shown: Shown::Nothing,
        },
        Command::SessionResolve { session_id } => Planned::Ask {
            op: Op::SessionResolve { session_id },
            shown: Shown::Pending,
        },
        Command::SessionApply { session_id } => Planned::Ask {
            op: Op::SessionApply { session_id },
            shown: Shown::Applied,
        },
        Command::SessionDiscard { session_id } => Planned::Ask {
            op: Op::SessionDiscard { session_id },
            shown: Shown::Nothing,
        },
    }
}

/// What the user is asked before a rewind.
pub const CONFIRM: &'static str = "rewind will replace the working tree (a safety checkpoint is taken first). Continue? [y/N] ";

/// What is printed where the user did not agree.
pub const ABORTED: &'static str = "aborted\n";

/// Whether an answer, without white space around it, agrees.
pub open spec fn agrees(answer: Seq<char>) -> bool {
    answer == "y"@ || answer == "Y"@ || answer == "yes"@
}

/// Whether an answer, without white space around it, agrees.
pub fn is_yes(answer: &str) -> (r: bool)
    ensures
        r == agrees(answer@),
{
    text_eq(answer, "y") || text_eq(answer, "Y") || text_eq(answer, "yes")
}

/// Whether the user agreed.
pub fn confirmed(line: &str) -> (r: bool)
    ensures
        r == agrees(trimmed(line@)),
{
    is_yes(trim(line).as_str())
}

/// The session whose turn is compared: the one that was named, else the newest.
pub fn turn_session(sessions: &Vec<SessionEntry>) -> (r: Result<String, String>)
    ensures
        match r {
            Ok(id) => sessions@.len() > 0 && id@ == sessions@[0].session_id@,
            Err(message) => sessions@.len() == 0 && message@ == "no sessions recorded"@,
        },
{
    if sessions.len() == 0 {
        return Err("no sessions recorded".to_owned());
    }
    Ok(sessions[0].session_id.clone())
}

/// Whether an entry is the first of a turn.
pub open spec fn first_of_turn(turns: Seq<TurnEntry>, turn: i64, i: int) -> bool {
    &&& 0 <= i < turns.len()
    &&& turns[i].turn == turn
    &&& forall|j: int| 0 <= j < i ==> (#[trigger] turns[j]).turn != turn
}

/// Whether a result is the span of a turn: from the last tree state before it
/// through its last checkpoint.
pub open spec fn is_turn_range(
    session: Seq<char>,
    turns: Seq<TurnEntry>,
    turn: i64,
    r: Result<(Option<i64>, Option<i64>), String>,
) -> bool {
    match r {
        Ok((before, after)) => exists|i: int| #[trigger]
            first_of_turn(turns, turn, i) && before == turns[i].base_checkpoint && after
                == turns[i].last_checkpoint && after is Some,
        Err(message) => {
            ||| (forall|j: int| 0 <= j < turns.len() ==> (#[trigger] turns[j]).turn != turn)
                && message@ == "session "@ + session + " has no turn "@ + decimal(turn as int)
            ||| (exists|i: int| #[trigger]
                first_of_turn(turns, turn, i) && turns[i].last_checkpoint is None) && message@
                == "turn "@ + decimal(turn as int) + " produced no checkpoints"@
        },
    }
}

/// What a turn changed: from the last tree state before it through its last
/// checkpoint.
pub fn turn_range(session: &str, turns: &Vec<TurnEntry>, turn: i64) -> (r: Result<
    (Option<i64>, Option<i64>),
    String,
>)
    ensures
        is_turn_range(session@, turns@, turn, r),
        match r {
            Ok((before, after)) => exists|i: int| #[trigger]
                first_of_turn(turns@, turn, i) && before == turns@[i].base_checkpoint && after
                    == turns@[i].last_checkpoint && after is Some,
            Err(message) => {
                ||| (forall|j: int| 0 <= j < turns@.len() ==> (#[trigger] turns@[j]).turn != turn)
                    && message@ == "session "@ + session@ + " has no turn "@ + decimal(turn as int)
                ||| (exists|i: int| #[trigger]
                    first_of_turn(turns@, turn, i) && turns@[i].last_checkpoint is None)
                    && message@ == "turn "@ + decimal(turn as int) + " produced no checkpoints"@
            },
        },
{
    let mut i: usize = 0;
    while i < turns.len()
        invariant
            i <= turns@.len(),
            forall|j: int| 0 <= j < i ==> (#[trigger] turns@[j]).turn != turn,
        decreases turns.len() - i,
    {
        if turns[i].turn == turn {
            assert(first_of_turn(turns@, turn, i as int));
            if turns[i].last_checkpoint.is_none() {
                let mut message = "turn ".to_owned();
                push_int(&mut message, turn);
                message.append(" produced no checkpoints");
                return Err(message);
            }
            return Ok((turns[i].base_checkpoint, turns[i].last_checkpoint));
        }
        i += 1;
    }
    let mut message = "session ".to_owned();
    message.append(session);
    message.append(" has no turn ");
    push_int(&mut message, turn);
    Err(message)
}

/// What is printed of a reply of the wanted kind; nothing of another.
pub open spec fn shown_text(shown: Shown, reply: Reply, now: i64, size: Seq<char>) -> Option<Seq<char>> {
    match (shown, reply) {
        (Shown::Checkpoint, Reply::Enqueued) => Some("checkpoint queued\n"@),
        (Shown::Checkpoint, Reply::Checkpoint(info)) => Some(checkpoint_line(info)),
        (Shown::Timeline, Reply::Timeline(entries)) => Some(timeline_text(entries@, now)),
        (Shown::Turns, Reply::Turns(entries)) => Some(turns_text(entries@, now)),
        (Shown::Show, Reply::Inspect(info)) => Some(show_text(info, now)),
        (Shown::Sessions, Reply::Sessions(entries)) => Some(sessions_text(entries@, now)),
        (Shown::Brief, Reply::Brief(info)) => Some(brief_text(info)),
        (Shown::Restore, Reply::Restore(info)) => Some(restore_text(info)),
        (Shown::Rewind, Reply::Rewind(info)) => Some(rewound_text(info) + "\n"@),
        (Shown::Diff, Reply::Diff(entries)) => Some(diff_text(entries@)),
        (Shown::Fork, Reply::Forks(entries)) => Some(fork_text(entries@)),
        (Shown::Forks, Reply::Forks(entries)) => Some(forks_text(entries@, now)),
        (Shown::Status, Reply::Status(info)) => Some(status_text(info, size)),
        (Shown::Pending, Reply::SessionPending(info)) => Some(pending_text(info)),
        (Shown::Applied, Reply::Promote(info)) => Some(applied_text(info)),
        (Shown::Dropped, _) => Some("fork dropped; its changes evaporated\n"@),
        (Shown::Published, _) => Some("published\n"@),
        (Shown::Stopping, _) => Some("daemon stopping\n"@),
        (Shown::Nothing, _) => Some(Seq::empty()),
        _ => None,
    }
}

/// Whether a result is what is printed of a promotion, or why it did not land.
pub open spec fn shows_promotion(id: Seq<char>, reply: Reply, r: Result<String, String>) -> bool {
    match reply {
        Reply::Promote(info) => match r {
            Ok(text) => info.conflicts@.len() == 0 && text@ == crate::report::kept_text(
                info.kept_mainline@,
            ) + crate::report::landed_text(info),
            Err(message) => info.conflicts@.len() > 0 && message@ == crate::report::conflict_text(
                id,
                info,
                if info.kept_mainline@.len() == 0 {
                    Seq::empty()
                } else {
                    crate::text::end_trimmed(crate::report::kept_text(info.kept_mainline@))
                },
            ),
        },
        _ => r matches Err(message) && message@ == "unexpected reply"@,
    }
}

/// Whether a result is what a command prints of a reply, or why it failed.
pub open spec fn shows(
    shown: Shown,
    reply: Reply,
    now: i64,
    size: Seq<char>,
    described: Seq<char>,
    r: Result<String, String>,
) -> bool {
    match shown {
        Shown::Promote { id } => shows_promotion(id@, reply, r),
        _ => match shown_text(shown, reply, now, size) {
            Some(text) => r matches Ok(t) && t@ == text,
            None => r matches Err(message) && message@ == if shown is Checkpoint {
                "unexpected reply "@ + described
            } else {
                "unexpected reply"@
            },
        },
    }
}

/// What a command prints of a reply, or why it failed. `size` is the size of the
/// store and `described` the whole reply, as they are shown.
pub fn show(shown: &Shown, reply: Reply, now: i64, size: &str, described: &str) -> (r: Result<
    String,
    String,
>)
    ensures
        shows(*shown, reply, now, size@, described@, r),
{
    match shown {
        Shown::Checkpoint => match &reply {
            Reply::Enqueued => Ok("checkpoint queued\n".to_owned()),
            Reply::Checkpoint(info) => Ok(checkpoint_report(info)),
            _ => {
                let mut message = "unexpected reply ".to_owned();
                message.append(described);
                Err(message)
            },
        },
        Shown::Timeline => match &reply {
            Reply::Timeline(entries) => Ok(timeline_report(entries, now)),
            _ => unexpected(),
        },
        Shown::Turns => match &reply {
            Reply::Turns(entries) => Ok(turns_report(entries, now)),
            _ => unexpected(),
        },
        Shown::Show => match &reply {
            Reply::Inspect(info) => Ok(show_report(info, now)),
            _ => unexpected(),
        },
        Shown::Sessions => match &reply {
            Reply::Sessions(entries) => Ok(sessions_report(entries, now)),
            _ => unexpected(),
        },
        Shown::Brief => match &reply {
            Reply::Brief(info) => Ok(render(info)),
            _ => unexpected(),
        },
        Shown::Restore => match &reply {
            Reply::Restore(info) => Ok(restore_report(info)),
            _ => unexpected(),
        },
        Shown::Rewind => match &reply {
            Reply::Rewind(info) => {
                let mut out = rewound(info);
                out.append("\n");
                Ok(out)
            },
            _ => unexpected(),
        },
        Shown::Diff => match &reply {
            Reply::Diff(entries) => Ok(diff_report(entries)),
            _ => unexpected(),
        },
        Shown::Fork => match &reply {
            Reply::Forks(entries) => Ok(fork_report(entries)),
            _ => unexpected(),
        },
        Shown::Forks => match &reply {
            Reply::Forks(entries) => Ok(forks_report(entries, now)),
            _ => unexpected(),
        },
        Shown::Promote { id } => match &reply {
            Reply::Promote(info) => promote_report(id.as_str(), info),
            _ => unexpected(),
        },
        Shown::Status => match &reply {
            Reply::Status(info) => Ok(status_report(info, size)),
            _ => unexpected(),
        },
        Shown::Pending => match &reply {
            Reply::SessionPending(info) => Ok(pending_report(info)),
            _ => unexpected(),
        },
        Shown::Applied => match &reply {
            Reply::Promote(info) => Ok(applied_report(info)),
            _ => unexpected(),
        },
        Shown::Dropped => Ok("fork dropped; its changes evaporated\n".to_owned()),
        Shown::Published => Ok("published\n".to_owned()),
        Shown::Stopping => Ok("daemon stopping\n".to_owned()),
        Shown::Nothing => Ok(String::new()),
    }
}

fn unexpected() -> (r: Result<String, String>)
    ensures
        r matches Err(message) && message@ == "unexpected reply"@,
{
    Err("unexpected reply".to_owned())
}

/// A path and every path above it.
pub open spec fn upward(p: Seq<u8>) -> Seq<Seq<u8>>
    decreases p.len(),
    via upward_decreases
{
    match parent_of(p) {
        Some(q) => seq![p] + upward(q),
        None => seq![p],
    }
}

#[via_fn]
proof fn upward_decreases(p: Seq<u8>) {
    crate::path::lemma_parent_shorter(p);
}

/// What a path says of whether it lies in a tree that a rewind put away.
#[derive(Debug)]
pub enum Place {
    /// It does not.
    Elsewhere,
    /// It does where this file is there: it is the trash of a store.
    StoreTrash { meta: HostPath },
    /// It does: it is a trash beside a repository.
    SiblingTrash,
}

/// Whether that is what a path says.
pub open spec fn is_place(p: Seq<u8>, place: Place) -> bool {
    match file_name_of(p) {
        None => place is Elsewhere,
        Some(name) => {
            let shown = lossy_text(name);
            if shown == "trash"@ {
                match parent_of(p) {
                    Some(store) => place matches Place::StoreTrash { meta } && meta@ == joined(
                        store,
                        vstd::utf8::encode_utf8("meta.json"@),
                    ),
                    None => place is Elsewhere,
                }
            } else if begins(shown, "."@) && contains_text(shown, ".acyclic-trash-"@) {
                place is SiblingTrash
            } else {
                place is Elsewhere
            }
        },
    }
}

fn place_of(p: &HostPath) -> (r: Place)
    ensures
        is_place(p@, r),
{
    match p.file_name() {
        None => Place::Elsewhere,
        Some(name) => {
            let shown = from_utf8_lossy(name.as_slice());
            if text_eq(shown.as_str(), "trash") {
                match p.parent() {
                    Some(store) => Place::StoreTrash { meta: store.join("meta.json") },
                    None => Place::Elsewhere,
                }
            } else if text_begins(shown.as_str(), ".") && text_contains(
                shown.as_str(),
                ".acyclic-trash-",
            ) {
                Place::SiblingTrash
            } else {
                Place::Elsewhere
            }
        },
    }
}

/// What a path and every path above it say of whether it lies in a tree that a
/// rewind put away. It does where one of them says so.
pub fn stranded_in_trash(repo: &HostPath) -> (r: Vec<Place>)
    ensures
        r@.len() == upward(repo@).len(),
        forall|i: int| 0 <= i < r@.len() ==> is_place(upward(repo@)[i], #[trigger] r@[i]),
{
    let mut out: Vec<Place> = Vec::new();
    let mut here = repo.clone();
    let mut more = true;
    let ghost whole = upward(repo@);
    proof {
        assert(whole.skip(0) =~= whole);
    }
    while more
        invariant
            whole == upward(repo@),
            out@.len() <= whole.len(),
            forall|i: int| 0 <= i < out@.len() ==> is_place(whole[i], #[trigger] out@[i]),
            more ==> whole.skip(out@.len() as int) == upward(here@) && out@.len() < whole.len(),
            !more ==> out@.len() == whole.len(),
        decreases (if more { here@.len() + 1 } else { 0 }),
    {
        let ghost rest = whole.skip(out@.len() as int);
        let ghost n = out@.len() as int;
        assert(rest[0] == whole[n]);
        out.push(place_of(&here));
        match here.parent() {
            Some(up) => {
                proof {
                    crate::path::lemma_parent_shorter(here@);
                    assert(rest =~= seq![here@] + upward(up@));
                    assert(whole.skip(n + 1) =~= rest.skip(1));
                    assert(rest.skip(1) =~= upward(up@));
                    assert(upward(up@).len() > 0);
                }
                here = up;
            },
            None => {
                assert(rest.len() == 1);
                more = false;
            },
        }
    }
    out
}

/// Whether a place says that a path lies in a tree that a rewind put away: one
/// beside a repository does, and a store's does where the store's description
/// is there.
pub open spec fn put_away(place: Place, meta_present: bool) -> bool {
    match place {
        Place::Elsewhere => false,
        Place::SiblingTrash => true,
        Place::StoreTrash { .. } => meta_present,
    }
}

/// Whether a path lies in a tree that a rewind put away, given what it and every
/// path above it say, and for each whether the description that it names is
/// there.
pub fn stranded(places: &Vec<Place>, present: &Vec<bool>) -> (r: bool)
    requires
        places@.len() == present@.len(),
    ensures
        r == exists|i: int|
            0 <= i < places@.len() && put_away(#[trigger] places@[i], present@[i]),
{
    let mut i: usize = 0;
    while i < places.len()
        invariant
            i <= places@.len(),
            places@.len() == present@.len(),
            forall|j: int| 0 <= j < i ==> !put_away(#[trigger] places@[j], present@[j]),
        decreases places.len() - i,
    {
        let away = match &places[i] {
            Place::Elsewhere => false,
            Place::SiblingTrash => true,
            Place::StoreTrash { .. } => present[i],
        };
        if away {
            assert(put_away(places@[i as int], present@[i as int]));
            return true;
        }
        i += 1;
    }
    false
}

/// A repository that lies anywhere below a tree that a rewind parked beside
/// another is recognized as lying there, and so is the parked tree itself. Where
/// no path above it bears such a name or that of a store's trash, it is not.
pub proof fn law_put_away_trees_are_recognized(
    repo: Seq<u8>,
    places: Seq<Place>,
    present: Seq<bool>,
    k: int,
)
    requires
        places.len() == upward(repo).len(),
        places.len() == present.len(),
        forall|i: int| 0 <= i < places.len() ==> is_place(upward(repo)[i], #[trigger] places[i]),
        0 <= k < upward(repo).len(),
    ensures
        upward(repo)[0] == repo,
        parent_of(upward(repo)[k]) is None <==> k == upward(repo).len() - 1,
        k + 1 < upward(repo).len() ==> parent_of(upward(repo)[k]) == Some(upward(repo)[k + 1]),
        file_name_of(upward(repo)[k]) matches Some(name) ==> {
            let shown = lossy_text(name);
            &&& shown.len() > 0 && shown[0] == '.' && contains_text(shown, ".acyclic-trash-"@) && shown
                != "trash"@ ==> put_away(places[k], present[k])
            &&& shown == "trash"@ && present[k] && parent_of(upward(repo)[k]) is Some ==> put_away(
                places[k],
                present[k],
            )
            &&& shown != "trash"@ && !contains_text(shown, ".acyclic-trash-"@) ==> !put_away(
                places[k],
                present[k],
            )
        },
{
    reveal_strlit(".");
    lemma_upward(repo, k);
    assert(is_place(upward(repo)[k], places[k]));
    if let Some(name) = file_name_of(upward(repo)[k]) {
        let shown = lossy_text(name);
        if shown.len() > 0 && shown[0] == '.' {
            assert(shown.take(1) =~= "."@);
        }
    }
}

proof fn lemma_upward(p: Seq<u8>, k: int)
    requires
        0 <= k < upward(p).len(),
    ensures
        upward(p).len() > 0,
        upward(p)[0] == p,
        parent_of(upward(p)[k]) is None <==> k == upward(p).len() - 1,
        k + 1 < upward(p).len() ==> parent_of(upward(p)[k]) == Some(upward(p)[k + 1]),
    decreases k,
{
    if let Some(q) = parent_of(p) {
        assert(upward(p) == seq![p] + upward(q));
        assert(upward(q).len() > 0);
        if k > 0 {
            lemma_upward(q, k - 1);
            assert(upward(p)[k] == upward(q)[k - 1]);
            if k + 1 < upward(p).len() {
                assert(upward(p)[k + 1] == upward(q)[k]);
            }
        } else {
            assert(upward(q)[0] == q);
            assert(upward(p)[1] == upward(q)[0]);
        }
    }
}

} // verus!
