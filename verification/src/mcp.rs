//! The tools that a host without hooks offers its agent: what each asks the
//! daemon, and what the agent is told of the reply.
use vstd::prelude::*;
use crate::brief::{brief_text, render};
use crate::client::ConnectError;
use crate::product::{render as render_name, replaced, MARK, NAME};
use crate::proto::{DiffEntry, Op, Reply, RewindTarget, TimelineEntry, TurnEntry, DEFAULT_LIMIT};
use crate::report::{
    age, age_text, label_of, label_text, range, range_text, restored, restored_line, rewound,
    rewound_text,
};
use crate::text::{decimal, join_texts, joined_texts, push_int, texts};

verus! {

/// What an agent is told of the tools.
pub const INSTRUCTIONS: &'static str = "This repo uses {{name}}: the working tree (untracked + gitignored files included) is snapshotted on request — nothing here fires automatically the way it does in a hooked host, so call `checkpoint` yourself before a risky change. Call `brief` once at the start of a conversation grounded in this repo. After a failed attempt, call `rewind` instead of hand-reverting — but call `timeline` first and confirm the target checkpoint with the user, since there is no interactive confirmation prompt here. Before finishing, call `diff` and review the blast radius.";

/// What an agent is told of the tools.
pub fn instructions() -> (r: String)
    ensures
        r@ == replaced(INSTRUCTIONS@, MARK@, NAME@),
{
    render_name(INSTRUCTIONS)
}

/// A call of a tool.
#[derive(Debug)]
pub enum Tool {
    Checkpoint { message: Option<String> },
    Timeline { limit: Option<u32> },
    Turns,
    Rewind { checkpoint: i64 },
    Diff { before: Option<i64>, after: Option<i64> },
    Brief,
}

/// Whether a request is the one that a tool makes.
pub open spec fn asks_tool(tool: Tool, op: Op) -> bool {
    match tool {
        Tool::Checkpoint { message } => op matches Op::Checkpoint {
            kind,
            session_id,
            tool_call_id,
            tool_name,
            label,
            wait,
            durable,
        } && kind@ == "manual"@ && session_id is None && tool_call_id is None && tool_name is None
            && label == message && wait && !durable,
        Tool::Timeline { limit } => op == (Op::Timeline {
            session_id: None,
            turn: None,
            limit: match limit {
                Some(n) => n,
                None => DEFAULT_LIMIT,
            },
        }),
        Tool::Turns => op == (Op::Turns { session_id: None }),
        Tool::Rewind { checkpoint } => op == (Op::Rewind {
            target: RewindTarget::Checkpoint(checkpoint),
            path: None,
        }),
        Tool::Diff { before, after } => op == (Op::Diff {
            before,
            after,
            before_hex: None,
            after_hex: None,
        }),
        Tool::Brief => op == (Op::Brief { current: None }),
    }
}

/// The request that a tool makes.
pub fn request(tool: Tool) -> (op: Op)
    ensures
        asks_tool(tool, op),
{
    match tool {
        Tool::Checkpoint { message } => Op::Checkpoint {
            kind: "manual".to_owned(),
            session_id: None,
            tool_call_id: None,
            tool_name: None,
            label: message,
            wait: true,
            durable: false,
        },
        Tool::Timeline { limit } => Op::Timeline {
            session_id: None,
            turn: None,
            limit: match limit {
                Some(n) => n,
                None => DEFAULT_LIMIT,
            },
        },
        Tool::Turns => Op::Turns { session_id: None },
        Tool::Rewind { checkpoint } => Op::Rewind {
            target: RewindTarget::Checkpoint(checkpoint),
            path: None,
        },
        Tool::Diff { before, after } => Op::Diff {
            before,
            after,
            before_hex: None,
            after_hex: None,
        },
        Tool::Brief => Op::Brief { current: None },
    }
}

/// The request that restores one path.
pub fn restore_request(checkpoint: i64, path: String) -> (op: Op)
    ensures
        op == (Op::Rewind { target: RewindTarget::Checkpoint(checkpoint), path: Some(path) }),
{
    Op::Rewind { target: RewindTarget::Checkpoint(checkpoint), path: Some(path) }
}

/// The line of a checkpoint.
pub open spec fn timeline_line(e: TimelineEntry, now: i64) -> Seq<char> {
    "#"@ + decimal(e.id as int) + " "@ + age_text(now, e.created_at) + " "@ + e.kind@ + (
    match e.turn {
        Some(t) => " t"@ + decimal(t as int),
        None => Seq::empty(),
    }) + " "@ + label_text(e)
}

/// The lines of checkpoints.
pub open spec fn timeline_lines(entries: Seq<TimelineEntry>, now: i64) -> Seq<Seq<char>> {
    entries.map_values(|e: TimelineEntry| timeline_line(e, now))
}

fn timeline_texts(entries: &Vec<TimelineEntry>, now: i64) -> (r: Vec<String>)
    ensures
        texts(r@) == timeline_lines(entries@, now),
{
    let mut out: Vec<String> = Vec::new();
    let mut i: usize = 0;
    while i < entries.len()
        invariant
            i <= entries@.len(),
            out@.len() == i,
            forall|j: int| 0 <= j < i ==> (#[trigger] out@[j])@ == timeline_line(entries@[j], now),
        decreases entries.len() - i,
    {
        let e = &entries[i];
        let mut turn = String::new();
        if let Some(t) = e.turn {
            turn.append(" t");
            push_int(&mut turn, t);
            assert(turn@ =~= " t"@ + decimal(t as int));
        }
        let mut line = "#".to_owned();
        push_int(&mut line, e.id);
        line.append(" ");
        line.append(age(now, e.created_at).as_str());
        line.append(" ");
        line.append(e.kind.as_str());
        line.append(turn.as_str());
        line.append(" ");
        line.append(label_of(e).as_str());
        out.push(line);
        i += 1;
    }
    assert(texts(out@) =~= timeline_lines(entries@, now));
    out
}

/// The line of a turn.
pub open spec fn turn_line(e: TurnEntry, now: i64) -> Seq<char> {
    "t"@ + decimal(e.turn as int) + " "@ + age_text(now, e.started_at) + " "@ + range_text(
        e.first_checkpoint,
        e.last_checkpoint,
    ) + " "@ + e.prompt@
}

/// The lines of turns.
pub open spec fn turn_lines(entries: Seq<TurnEntry>, now: i64) -> Seq<Seq<char>> {
    entries.map_values(|e: TurnEntry| turn_line(e, now))
}

fn turn_texts(entries: &Vec<TurnEntry>, now: i64) -> (r: Vec<String>)
    ensures
        texts(r@) == turn_lines(entries@, now),
{
    let mut out: Vec<String> = Vec::new();
    let mut i: usize = 0;
    while i < entries.len()
        invariant
            i <= entries@.len(),
            out@.len() == i,
            forall|j: int| 0 <= j < i ==> (#[trigger] out@[j])@ == turn_line(entries@[j], now),
        decreases entries.len() - i,
    {
        let e = &entries[i];
        let mut line = "t".to_owned();
        push_int(&mut line, e.turn);
        line.append(" ");
        line.append(age(now, e.started_at).as_str());
        line.append(" ");
        line.append(range(e.first_checkpoint, e.last_checkpoint).as_str());
        line.append(" ");
        line.append(e.prompt.as_str());
        out.push(line);
        i += 1;
    }
    assert(texts(out@) =~= turn_lines(entries@, now));
    out
}

/// The line of a changed path.
pub open spec fn diff_line(e: DiffEntry) -> Seq<char> {
    e.change@ + " "@ + e.path@ + if e.ignored { " (gitignored)"@ } else { ""@ }
}

/// The lines of changed paths.
pub open spec fn diff_lines(entries: Seq<DiffEntry>) -> Seq<Seq<char>> {
    entries.map_values(|e: DiffEntry| diff_line(e))
}

fn diff_texts(entries: &Vec<DiffEntry>) -> (r: Vec<String>)
    ensures
        texts(r@) == diff_lines(entries@),
{
    let mut out: Vec<String> = Vec::new();
    let mut i: usize = 0;
    while i < entries.len()
        invariant
            i <= entries@.len(),
            out@.len() == i,
            forall|j: int| 0 <= j < i ==> (#[trigger] out@[j])@ == diff_line(entries@[j]),
        decreases entries.len() - i,
    {
        let e = &entries[i];
        let mut line = e.change.clone();
        line.append(" ");
        line.append(e.path.as_str());
        line.append(
            if e.ignored {
                " (gitignored)"
            } else {
                ""
            },
        );
        out.push(line);
        i += 1;
    }
    assert(texts(out@) =~= diff_lines(entries@));
    out
}

/// What the agent is told of a reply of the wanted kind; nothing of another.
pub open spec fn told(tool: Tool, reply: Reply, now: i64) -> Option<Seq<char>> {
    match (tool, reply) {
        (Tool::Checkpoint { .. }, Reply::Checkpoint(info)) => Some(
            "checkpoint #"@ + decimal(info.row_id as int) + " ("@ + info.generation@ + ")"@,
        ),
        (Tool::Timeline { .. }, Reply::Timeline(entries)) => Some(
            if entries@.len() == 0 {
                "no checkpoints yet"@
            } else {
                joined_texts(timeline_lines(entries@, now), "\n"@)
            },
        ),
        (Tool::Turns, Reply::Turns(entries)) => Some(
            if entries@.len() == 0 {
                "no turns recorded yet"@
            } else {
                joined_texts(turn_lines(entries@, now), "\n"@)
            },
        ),
        (Tool::Rewind { .. }, Reply::Rewind(info)) => Some(rewound_text(info)),
        (Tool::Diff { .. }, Reply::Diff(entries)) => Some(
            if entries@.len() == 0 {
                "no changes"@
            } else {
                joined_texts(diff_lines(entries@), "\n"@)
            },
        ),
        (Tool::Brief, Reply::Brief(info)) => Some(brief_text(info)),
        _ => None,
    }
}

fn unexpected() -> (r: Result<String, String>)
    ensures
        r matches Err(message) && message@ == "unexpected reply"@,
{
    Err("unexpected reply".to_owned())
}

/// What the agent is told of a reply, or that it was not the one expected.
pub fn tell(tool: &Tool, reply: Reply, now: i64) -> (r: Result<String, String>)
    ensures
        match told(*tool, reply, now) {
            Some(text) => r matches Ok(t) && t@ == text,
            None => r matches Err(message) && message@ == "unexpected reply"@,
        },
{
    match tool {
        Tool::Checkpoint { message: _ } => match &reply {
            Reply::Checkpoint(info) => {
                let mut out = "checkpoint #".to_owned();
                push_int(&mut out, info.row_id);
                out.append(" (");
                out.append(info.generation.as_str());
                out.append(")");
                Ok(out)
            },
            _ => unexpected(),
        },
        Tool::Timeline { limit: _ } => match &reply {
            Reply::Timeline(entries) => {
                if entries.len() == 0 {
                    return Ok("no checkpoints yet".to_owned());
                }
                Ok(join_texts(&timeline_texts(entries, now), "\n"))
            },
            _ => unexpected(),
        },
        Tool::Turns => match &reply {
            Reply::Turns(entries) => {
                if entries.len() == 0 {
                    return Ok("no turns recorded yet".to_owned());
                }
                Ok(join_texts(&turn_texts(entries, now), "\n"))
            },
            _ => unexpected(),
        },
        Tool::Rewind { checkpoint: _ } => match &reply {
            Reply::Rewind(info) => Ok(rewound(info)),
            _ => unexpected(),
        },
        Tool::Diff { before: _, after: _ } => match &reply {
            Reply::Diff(entries) => {
                if entries.len() == 0 {
                    return Ok("no changes".to_owned());
                }
                Ok(join_texts(&diff_texts(entries), "\n"))
            },
            _ => unexpected(),
        },
        Tool::Brief => match &reply {
            Reply::Brief(info) => Ok(render(info)),
            _ => unexpected(),
        },
    }
}

/// What the agent is told of one restored path.
pub fn tell_restored(reply: Reply) -> (r: Result<String, String>)
    ensures
        match reply {
            Reply::Restore(info) => r matches Ok(t) && t@ == restored_line(info),
            _ => r matches Err(message) && message@ == "unexpected reply"@,
        },
{
    match &reply {
        Reply::Restore(info) => Ok(restored(info)),
        _ => unexpected(),
    }
}

/// What the agent is told where the daemon was not reached.
pub fn tell_unreached(error: ConnectError) -> (r: String)
    ensures
        match error {
            ConnectError::Other(message) => r@ == message@,
            _ => r@ == "daemon not running and could not be started"@,
        },
{
    match error {
        ConnectError::Other(message) => message,
        _ => "daemon not running and could not be started".to_owned(),
    }
}

} // verus!
