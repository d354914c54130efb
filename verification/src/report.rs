//! What the command line prints of the daemon's replies.
use vstd::prelude::*;
use crate::brief::{quote, quoted};
use crate::fork::MountCapability;
use crate::proto::{
    CheckpointInfo, ConflictEntry, DiffEntry, ForkEntry, InspectInfo, PromoteInfo, RestoreInfo,
    RewindInfo, SessionEntry, SessionPendingInfo, StatusInfo, TimelineEntry, TurnEntry,
};
use crate::text::{
    chars_of, decimal, decimal_nat, end_trimmed, fit, fitting, int_text, join_texts, joined_texts,
    opt_text, pad, pad_left, padded, padded_left, push_int, push_nat, push_wide, text_eq, text_of,
    texts, trim_end,
};

verus! {

/// How long ago something was, in the largest unit that fits.
pub open spec fn age_text(now: i64, at: i64) -> Seq<char> {
    let delta = if now > at { now - at } else { 0 };
    if delta < 60 {
        decimal_nat(delta as nat) + "s ago"@
    } else if delta < 3600 {
        decimal_nat((delta / 60) as nat) + "m ago"@
    } else if delta < 86_400 {
        decimal_nat((delta / 3600) as nat) + "h ago"@
    } else {
        decimal_nat((delta / 86_400) as nat) + "d ago"@
    }
}

/// How long ago something was, in the largest unit that fits.
pub fn age(now: i64, at: i64) -> (r: String)
    ensures
        r@ == age_text(now, at),
{
    let delta: u128 = if now > at {
        (now as i128 - at as i128) as u128
    } else {
        0
    };
    let mut out = String::new();
    if delta < 60 {
        push_wide(&mut out, delta);
        out.append("s ago");
    } else if delta < 3600 {
        push_wide(&mut out, delta / 60);
        out.append("m ago");
    } else if delta < 86_400 {
        push_wide(&mut out, delta / 3600);
        out.append("h ago");
    } else {
        push_wide(&mut out, delta / 86_400);
        out.append("d ago");
    }
    assert(out@ =~= age_text(now, at));
    out
}

/// The beginning of a session's id, with a mark where there is more.
pub open spec fn short_text(id: Seq<char>) -> Seq<char> {
    if id.len() > 8 { id.take(8).push('…') } else { id }
}

/// The beginning of a session's id, with a mark where there is more.
pub fn short_session(id: &str) -> (r: String)
    ensures
        r@ == short_text(id@),
{
    let chars = chars_of(id);
    if chars.len() > 8 {
        let mut out = text_of(vstd::slice::slice_subrange(chars.as_slice(), 0, 8));
        assert(out@ =~= id@.take(8));
        out.push('…');
        out
    } else {
        id.to_owned()
    }
}

/// The checkpoints of a turn.
pub open spec fn range_text(first: Option<i64>, last: Option<i64>) -> Seq<char> {
    match (first, last) {
        (Some(a), Some(b)) => if a != b {
            "#"@ + decimal(a as int) + "..#"@ + decimal(b as int)
        } else {
            "#"@ + decimal(a as int)
        },
        (Some(a), None) => "#"@ + decimal(a as int),
        _ => "no checkpoints"@,
    }
}

/// The checkpoints of a turn.
pub fn range(first: Option<i64>, last: Option<i64>) -> (r: String)
    ensures
        r@ == range_text(first, last),
{
    match first {
        None => "no checkpoints".to_owned(),
        Some(a) => {
            let mut out = "#".to_owned();
            push_int(&mut out, a);
            if let Some(b) = last {
                if a != b {
                    out.append("..#");
                    push_int(&mut out, b);
                }
            }
            out
        },
    }
}

/// What a checkpoint is told by: its label, its tool, or its failure.
pub open spec fn label_text(e: TimelineEntry) -> Seq<char> {
    match (e.label, e.tool_name, e.error) {
        (Some(label), _, _) => label@,
        (None, Some(tool), _) => tool@,
        (None, None, Some(error)) => "error: "@ + error@,
        _ => Seq::empty(),
    }
}

/// What a checkpoint is told by: its label, its tool, or its failure.
pub fn label_of(e: &TimelineEntry) -> (r: String)
    ensures
        r@ == label_text(*e),
{
    if let Some(label) = &e.label {
        return label.clone();
    }
    if let Some(tool) = &e.tool_name {
        return tool.clone();
    }
    let mut out = String::new();
    if let Some(error) = &e.error {
        out.append("error: ");
        out.append(error.as_str());
        assert(out@ =~= "error: "@ + error@);
    }
    out
}

/// A turn as a mark.
pub open spec fn turn_mark(turn: Option<i64>) -> Seq<char> {
    match turn {
        Some(t) => "t"@ + decimal(t as int),
        None => Seq::empty(),
    }
}

fn turn_text(turn: Option<i64>) -> (r: String)
    ensures
        r@ == turn_mark(turn),
{
    match turn {
        Some(t) => {
            let mut out = "t".to_owned();
            push_int(&mut out, t);
            out
        },
        None => String::new(),
    }
}

/// The line of a checkpoint.
pub open spec fn timeline_line(e: TimelineEntry, now: i64) -> Seq<char> {
    "#"@ + padded(decimal(e.id as int), 5) + " "@ + padded(age_text(now, e.created_at), 10) + " "@
        + padded(e.kind@, 9) + " "@ + padded(turn_mark(e.turn), 4) + " "@ + label_text(e) + (
    if e.published { ""@ } else { "  (unpublished)"@ }) + "\n"@
}

/// The lines of checkpoints.
pub open spec fn timeline_lines(entries: Seq<TimelineEntry>, now: i64) -> Seq<char>
    decreases entries.len(),
{
    if entries.len() == 0 {
        Seq::empty()
    } else {
        timeline_lines(entries.drop_last(), now) + timeline_line(entries.last(), now)
    }
}

/// What is printed of a timeline.
pub open spec fn timeline_text(entries: Seq<TimelineEntry>, now: i64) -> Seq<char> {
    if entries.len() == 0 { "no checkpoints yet\n"@ } else { timeline_lines(entries, now) }
}

/// What is printed of a timeline.
pub fn timeline_report(entries: &Vec<TimelineEntry>, now: i64) -> (r: String)
    ensures
        r@ == timeline_text(entries@, now),
{
    if entries.len() == 0 {
        return "no checkpoints yet\n".to_owned();
    }
    let mut out = String::new();
    let mut i: usize = 0;
    while i < entries.len()
        invariant
            i <= entries@.len(),
            out@ == timeline_lines(entries@.take(i as int), now),
        decreases entries.len() - i,
    {
        let e = &entries[i];
        let mut line = "#".to_owned();
        line.append(pad(int_text(e.id).as_str(), 5).as_str());
        line.append(" ");
        line.append(pad(age(now, e.created_at).as_str(), 10).as_str());
        line.append(" ");
        line.append(pad(e.kind.as_str(), 9).as_str());
        line.append(" ");
        line.append(pad(turn_text(e.turn).as_str(), 4).as_str());
        line.append(" ");
        line.append(label_of(e).as_str());
        line.append(
            if e.published {
                ""
            } else {
                "  (unpublished)"
            },
        );
        line.append("\n");
        assert(line@ == timeline_line(*e, now));
        out.append(line.as_str());
        i += 1;
        assert(entries@.take(i as int).drop_last() =~= entries@.take(i - 1));
    }
    assert(entries@.take(i as int) =~= entries@);
    out
}

/// How much of a prompt a line of a turn quotes.
pub const TURN_QUOTE: usize = 72;

/// How much of a prompt is quoted of one checkpoint.
pub const SHOW_QUOTE: usize = 200;

/// The line of a turn.
pub open spec fn turn_line(e: TurnEntry, now: i64) -> Seq<char> {
    short_text(e.session_id@) + "  t"@ + padded(decimal(e.turn as int), 3) + " "@ + padded(
        age_text(now, e.started_at),
        10,
    ) + " "@ + padded(range_text(e.first_checkpoint, e.last_checkpoint), 14) + " "@ + quoted(
        e.prompt@,
        TURN_QUOTE as nat,
    ) + "\n"@
}

/// The lines of turns.
pub open spec fn turn_lines(entries: Seq<TurnEntry>, now: i64) -> Seq<char>
    decreases entries.len(),
{
    if entries.len() == 0 {
        Seq::empty()
    } else {
        turn_lines(entries.drop_last(), now) + turn_line(entries.last(), now)
    }
}

/// What is printed of turns.
pub open spec fn turns_text(entries: Seq<TurnEntry>, now: i64) -> Seq<char> {
    if entries.len() == 0 {
        "no turns recorded (the user-prompt hook records them)\n"@
    } else {
        turn_lines(entries, now)
    }
}

/// What is printed of turns.
pub fn turns_report(entries: &Vec<TurnEntry>, now: i64) -> (r: String)
    ensures
        r@ == turns_text(entries@, now),
{
    if entries.len() == 0 {
        return "no turns recorded (the user-prompt hook records them)\n".to_owned();
    }
    let mut out = String::new();
    let mut i: usize = 0;
    while i < entries.len()
        invariant
            i <= entries@.len(),
            out@ == turn_lines(entries@.take(i as int), now),
        decreases entries.len() - i,
    {
        let e = &entries[i];
        let mut line = short_session(e.session_id.as_str());
        line.append("  t");
        line.append(pad(int_text(e.turn).as_str(), 3).as_str());
        line.append(" ");
        line.append(pad(age(now, e.started_at).as_str(), 10).as_str());
        line.append(" ");
        line.append(pad(range(e.first_checkpoint, e.last_checkpoint).as_str(), 14).as_str());
        line.append(" ");
        line.append(quote(e.prompt.as_str(), TURN_QUOTE).as_str());
        line.append("\n");
        assert(line@ == turn_line(*e, now));
        out.append(line.as_str());
        i += 1;
        assert(entries@.take(i as int).drop_last() =~= entries@.take(i - 1));
    }
    assert(entries@.take(i as int) =~= entries@);
    out
}

/// A text in brackets behind two spaces, where there is one.
pub open spec fn bracketed(o: Option<String>) -> Seq<char> {
    match o {
        Some(t) => "  ("@ + t@ + ")"@,
        None => Seq::empty(),
    }
}

fn bracket(o: &Option<String>) -> (r: String)
    ensures
        r@ == bracketed(*o),
{
    match o {
        Some(t) => {
            let mut out = "  (".to_owned();
            out.append(t.as_str());
            out.append(")");
            out
        },
        None => String::new(),
    }
}

/// A line that is there where there is something to say.
pub open spec fn optional_line(head: Seq<char>, o: Option<Seq<char>>) -> Seq<char> {
    match o {
        Some(t) => head + t + "\n"@,
        None => Seq::empty(),
    }
}

fn push_line(out: &mut String, head: &str, text: &str)
    ensures
        final(out)@ == old(out)@ + (head@ + text@ + "\n"@),
{
    let mut line = head.to_owned();
    line.append(text);
    line.append("\n");
    out.append(line.as_str());
}

/// What is printed of one checkpoint.
pub open spec fn show_text(info: InspectInfo, now: i64) -> Seq<char> {
    ("checkpoint:  #"@ + (decimal(info.id as int) + "  ("@ + info.kind@ + (if info.published {
        ""@
    } else {
        ", unpublished"@
    }) + ")"@) + "\n"@) + ("generation:  "@ + info.generation@ + "\n"@) + ("created:     "@
        + age_text(now, info.created_at) + "\n"@) + ("session:     "@ + (match info.session_id {
        Some(session) => session@ + bracketed(info.host),
        None => "none (outside any host session)"@,
    }) + "\n"@) + ("turn:        "@ + (match info.turn {
        Some(turn) => decimal(turn as int),
        None => "none"@,
    }) + "\n"@) + optional_line(
        "prompt:      "@,
        match info.prompt {
            Some(prompt) => Some(quoted(prompt@, SHOW_QUOTE as nat)),
            None => None,
        },
    ) + optional_line(
        "tool:        "@,
        match info.tool_name {
            Some(tool) => Some(tool@ + bracketed(info.tool_call_id)),
            None => None,
        },
    ) + optional_line("label:       "@, opt_text(info.label)) + optional_line(
        "rewind to:   #"@,
        match info.rewind_target {
            Some(id) => Some(decimal(id as int)),
            None => None,
        },
    ) + optional_line("error:       "@, opt_text(info.error))
}

/// What is printed of one checkpoint.
pub fn show_report(info: &InspectInfo, now: i64) -> (r: String)
    ensures
        r@ == show_text(*info, now),
{
    let mut head = int_text(info.id);
    head.append("  (");
    head.append(info.kind.as_str());
    head.append(
        if info.published {
            ""
        } else {
            ", unpublished"
        },
    );
    head.append(")");
    let session = match &info.session_id {
        Some(session) => {
            let mut t = session.clone();
            t.append(bracket(&info.host).as_str());
            t
        },
        None => "none (outside any host session)".to_owned(),
    };
    let turn = match info.turn {
        Some(turn) => int_text(turn),
        None => "none".to_owned(),
    };
    let mut out = String::new();
    push_line(&mut out, "checkpoint:  #", head.as_str());
    push_line(&mut out, "generation:  ", info.generation.as_str());
    push_line(&mut out, "created:     ", age(now, info.created_at).as_str());
    push_line(&mut out, "session:     ", session.as_str());
    push_line(&mut out, "turn:        ", turn.as_str());
    let prompt = match &info.prompt {
        Some(prompt) => Some(quote(prompt.as_str(), SHOW_QUOTE)),
        None => None,
    };
    push_optional(&mut out, "prompt:      ", &prompt);
    let tool = match &info.tool_name {
        Some(tool) => {
            let mut t = tool.clone();
            t.append(bracket(&info.tool_call_id).as_str());
            Some(t)
        },
        None => None,
    };
    push_optional(&mut out, "tool:        ", &tool);
    push_optional(&mut out, "label:       ", &info.label);
    let target = match info.rewind_target {
        Some(id) => Some(int_text(id)),
        None => None,
    };
    push_optional(&mut out, "rewind to:   #", &target);
    push_optional(&mut out, "error:       ", &info.error);
    assert(out@ =~= show_text(*info, now));
    out
}

fn push_optional(out: &mut String, head: &str, o: &Option<String>)
    ensures
        final(out)@ == old(out)@ + optional_line(head@, opt_text(*o)),
{
    match o {
        Some(t) => push_line(out, head, t.as_str()),
        None => {
            assert(out@ + Seq::<char>::empty() =~= out@);
        },
    }
}

/// The line of a session.
pub open spec fn session_line(e: SessionEntry, now: i64) -> Seq<char> {
    let host = match e.host {
        Some(h) => h@,
        None => ""@,
    };
    let ended = match e.ended_at {
        Some(at) => "ended "@ + age_text(now, at),
        None => "(no end)"@,
    };
    let end = match e.end_checkpoint {
        Some(id) => "#"@ + decimal(id as int),
        None => "-"@,
    };
    short_text(e.session_id@) + "  "@ + padded(host, 12) + " started "@ + padded(
        age_text(now, e.started_at),
        10,
    ) + " "@ + padded(ended, 12) + " "@ + padded_left(decimal(e.turns as int), 3) + " turns  "@
        + padded_left(decimal(e.checkpoints as int), 4) + " checkpoints  ends at "@ + end + "\n"@
}

/// The lines of sessions.
pub open spec fn session_lines(entries: Seq<SessionEntry>, now: i64) -> Seq<char>
    decreases entries.len(),
{
    if entries.len() == 0 {
        Seq::empty()
    } else {
        session_lines(entries.drop_last(), now) + session_line(entries.last(), now)
    }
}

/// What is printed of sessions.
pub open spec fn sessions_text(entries: Seq<SessionEntry>, now: i64) -> Seq<char> {
    if entries.len() == 0 { "no sessions recorded\n"@ } else { session_lines(entries, now) }
}

/// What is printed of sessions.
pub fn sessions_report(entries: &Vec<SessionEntry>, now: i64) -> (r: String)
    ensures
        r@ == sessions_text(entries@, now),
{
    if entries.len() == 0 {
        return "no sessions recorded\n".to_owned();
    }
    let mut out = String::new();
    let mut i: usize = 0;
    while i < entries.len()
        invariant
            i <= entries@.len(),
            out@ == session_lines(entries@.take(i as int), now),
        decreases entries.len() - i,
    {
        let e = &entries[i];
        let host = match &e.host {
            Some(h) => h.clone(),
            None => "".to_owned(),
        };
        let ended = match e.ended_at {
            Some(at) => {
                let mut t = "ended ".to_owned();
                t.append(age(now, at).as_str());
                t
            },
            None => "(no end)".to_owned(),
        };
        let end = match e.end_checkpoint {
            Some(id) => {
                let mut t = "#".to_owned();
                push_int(&mut t, id);
                t
            },
            None => "-".to_owned(),
        };
        let mut line = short_session(e.session_id.as_str());
        line.append("  ");
        line.append(pad(host.as_str(), 12).as_str());
        line.append(" started ");
        line.append(pad(age(now, e.started_at).as_str(), 10).as_str());
        line.append(" ");
        line.append(pad(ended.as_str(), 12).as_str());
        line.append(" ");
        line.append(pad_left(int_text(e.turns).as_str(), 3).as_str());
        line.append(" turns  ");
        line.append(pad_left(int_text(e.checkpoints).as_str(), 4).as_str());
        line.append(" checkpoints  ends at ");
        line.append(end.as_str());
        line.append("\n");
        assert(line@ == session_line(*e, now));
        out.append(line.as_str());
        i += 1;
        assert(entries@.take(i as int).drop_last() =~= entries@.take(i - 1));
    }
    assert(entries@.take(i as int) =~= entries@);
    out
}

/// What is said of a restored path.
pub open spec fn restored_line(info: RestoreInfo) -> Seq<char> {
    if info.action@ == "removed"@ {
        info.path@ + ": absent at #"@ + decimal(info.checkpoint as int) + ", removed"@
    } else {
        info.path@ + ": restored from #"@ + decimal(info.checkpoint as int)
    }
}

/// What is said of a restored path.
pub fn restored(info: &RestoreInfo) -> (r: String)
    ensures
        r@ == restored_line(*info),
{
    let mut out = info.path.clone();
    if text_eq(info.action.as_str(), "removed") {
        out.append(": absent at #");
        push_int(&mut out, info.checkpoint);
        out.append(", removed");
    } else {
        out.append(": restored from #");
        push_int(&mut out, info.checkpoint);
    }
    out
}

/// What is printed of a restored path.
pub open spec fn restore_text(info: RestoreInfo) -> Seq<char> {
    restored_line(info) + "\n"@ + optional_line(
        "  recorded as checkpoint #"@,
        match info.recorded_checkpoint {
            Some(id) => Some(decimal(id as int)),
            None => None,
        },
    )
}

/// What is printed of a restored path.
pub fn restore_report(info: &RestoreInfo) -> (r: String)
    ensures
        r@ == restore_text(*info),
{
    let mut out = restored(info);
    out.append("\n");
    let recorded = match info.recorded_checkpoint {
        Some(id) => Some(int_text(id)),
        None => None,
    };
    push_optional(&mut out, "  recorded as checkpoint #", &recorded);
    out
}

/// What is said of a rewind.
pub open spec fn rewound_text(info: RewindInfo) -> Seq<char> {
    "restored checkpoint #"@ + decimal(info.restored_checkpoint as int) + "\nold tree kept at "@
        + info.old_tree@ + "\nnote: "@ + info.warning@
}

/// What is said of a rewind.
pub fn rewound(info: &RewindInfo) -> (r: String)
    ensures
        r@ == rewound_text(*info),
{
    let mut out = "restored checkpoint #".to_owned();
    push_int(&mut out, info.restored_checkpoint);
    out.append("\nold tree kept at ");
    out.append(info.old_tree.as_str());
    out.append("\nnote: ");
    out.append(info.warning.as_str());
    out
}

/// The letter of a change.
pub open spec fn change_tag(change: Seq<char>) -> Seq<char> {
    if change == "added"@ {
        "A"@
    } else if change == "removed"@ {
        "D"@
    } else if change == "modified"@ {
        "M"@
    } else {
        "m"@
    }
}

fn tag_of(change: &str) -> (r: &'static str)
    ensures
        r@ == change_tag(change@),
{
    if text_eq(change, "added") {
        "A"
    } else if text_eq(change, "removed") {
        "D"
    } else if text_eq(change, "modified") {
        "M"
    } else {
        "m"
    }
}

/// The line of a changed path.
pub open spec fn diff_line(e: DiffEntry, marks: bool) -> Seq<char> {
    change_tag(e.change@) + " "@ + e.path@ + (if marks && e.ignored {
        "  (gitignored)"@
    } else {
        ""@
    }) + "\n"@
}

/// The lines of changed paths.
pub open spec fn diff_lines(entries: Seq<DiffEntry>, marks: bool) -> Seq<char>
    decreases entries.len(),
{
    if entries.len() == 0 {
        Seq::empty()
    } else {
        diff_lines(entries.drop_last(), marks) + diff_line(entries.last(), marks)
    }
}

/// How many of the changed paths are ignored.
pub open spec fn ignored_count(entries: Seq<DiffEntry>) -> nat
    decreases entries.len(),
{
    if entries.len() == 0 {
        0
    } else {
        ignored_count(entries.drop_last()) + if entries.last().ignored { 1nat } else { 0 }
    }
}

fn push_diff_lines(entries: &Vec<DiffEntry>, marks: bool) -> (r: (String, usize))
    ensures
        r.0@ == diff_lines(entries@, marks),
        r.1 == ignored_count(entries@),
{
    let mut out = String::new();
    let mut ignored: usize = 0;
    let mut i: usize = 0;
    while i < entries.len()
        invariant
            i <= entries@.len(),
            ignored <= i,
            ignored == ignored_count(entries@.take(i as int)),
            out@ == diff_lines(entries@.take(i as int), marks),
        decreases entries.len() - i,
    {
        let e = &entries[i];
        let mut line = tag_of(e.change.as_str()).to_owned();
        line.append(" ");
        line.append(e.path.as_str());
        line.append(
            if marks && e.ignored {
                "  (gitignored)"
            } else {
                ""
            },
        );
        line.append("\n");
        assert(line@ == diff_line(*e, marks));
        out.append(line.as_str());
        if e.ignored {
            ignored += 1;
        }
        i += 1;
        assert(entries@.take(i as int).drop_last() =~= entries@.take(i - 1));
    }
    assert(entries@.take(i as int) =~= entries@);
    (out, ignored)
}

/// What is printed of changes: a line for each, and how many there are, with
/// those told apart that the repository ignores.
pub open spec fn diff_text(entries: Seq<DiffEntry>) -> Seq<char> {
    let ignored = ignored_count(entries);
    if entries.len() == 0 {
        "no changes\n"@
    } else if ignored > 0 {
        diff_lines(entries, true) + decimal_nat(entries.len()) + " paths changed ("@ + decimal_nat(
            ignored,
        ) + " gitignored)\n"@
    } else {
        diff_lines(entries, true) + decimal_nat(entries.len()) + " paths changed\n"@
    }
}

/// What is printed of changes.
pub fn diff_report(entries: &Vec<DiffEntry>) -> (r: String)
    ensures
        r@ == diff_text(entries@),
{
    if entries.len() == 0 {
        return "no changes\n".to_owned();
    }
    let (lines, ignored) = push_diff_lines(entries, true);
    let mut out = lines;
    push_nat(&mut out, entries.len() as u64);
    if ignored > 0 {
        out.append(" paths changed (");
        push_nat(&mut out, ignored as u64);
        out.append(" gitignored)\n");
    } else {
        out.append(" paths changed\n");
    }
    out
}

/// The lines of new forks.
pub open spec fn fork_lines(entries: Seq<ForkEntry>) -> Seq<char>
    decreases entries.len(),
{
    if entries.len() == 0 {
        Seq::empty()
    } else {
        let e = entries.last();
        fork_lines(entries.drop_last()) + ("fork "@ + e.id@ + "  ("@ + e.mode@ + ")  "@ + e.path@
            + "\n"@)
    }
}

/// Whether one of some forks is a copy.
pub open spec fn any_copy(entries: Seq<ForkEntry>) -> bool {
    exists|i: int| 0 <= i < entries.len() && (#[trigger] entries[i]).mode@ == "copy"@
}

/// What is printed of new forks.
pub open spec fn fork_text(entries: Seq<ForkEntry>) -> Seq<char> {
    fork_lines(entries) + decimal_nat(entries.len())
        + " fork(s) ready — work in them freely; `acyclic promote <id>` keeps a winner\n"@ + (
    if any_copy(entries) {
        "note: no mount provider on this host, so these are full copies (`acyclic status` explains; promote works the same)\n"@
    } else {
        ""@
    })
}

/// What is printed of new forks.
pub fn fork_report(entries: &Vec<ForkEntry>) -> (r: String)
    ensures
        r@ == fork_text(entries@),
{
    let mut out = String::new();
    let mut copy = false;
    let mut i: usize = 0;
    while i < entries.len()
        invariant
            i <= entries@.len(),
            out@ == fork_lines(entries@.take(i as int)),
            copy == any_copy(entries@.take(i as int)),
        decreases entries.len() - i,
    {
        let e = &entries[i];
        let mut line = "fork ".to_owned();
        line.append(e.id.as_str());
        line.append("  (");
        line.append(e.mode.as_str());
        line.append(")  ");
        line.append(e.path.as_str());
        line.append("\n");
        out.append(line.as_str());
        let is_copy = text_eq(e.mode.as_str(), "copy");
        let ghost before = entries@.take(i as int);
        i += 1;
        proof {
            let now = entries@.take(i as int);
            assert(now.drop_last() =~= before);
            assert(now.last() == *e);
            if copy {
                let k = choose|k: int| 0 <= k < before.len() && (#[trigger] before[k]).mode@
                    == "copy"@;
                assert(now[k] == before[k]);
            }
            if is_copy {
                assert(now[i - 1].mode@ == "copy"@);
            }
            if any_copy(now) && !is_copy {
                let k = choose|k: int| 0 <= k < now.len() && (#[trigger] now[k]).mode@ == "copy"@;
                assert(before[k] == now[k]);
            }
        }
        copy = copy || is_copy;
    }
    assert(entries@.take(i as int) =~= entries@);
    push_nat(&mut out, entries.len() as u64);
    out.append(" fork(s) ready — work in them freely; `acyclic promote <id>` keeps a winner\n");
    out.append(
        if copy {
            "note: no mount provider on this host, so these are full copies (`acyclic status` explains; promote works the same)\n"
        } else {
            ""
        },
    );
    out
}

/// How much of a generation is shown, in bytes.
pub const SHORT_GENERATION: usize = 12;

/// The beginning of a generation.
pub open spec fn short_generation(text: Seq<char>) -> Seq<char> {
    fitting(text, SHORT_GENERATION as nat)
}

/// The line of a live fork.
pub open spec fn live_line(e: ForkEntry, now: i64) -> Seq<char> {
    e.id@ + "  "@ + e.mode@ + "  "@ + age_text(now, e.created_at) + "  "@ + e.path@ + "  base "@
        + short_generation(e.base@) + (if e.conflict_paths@.len() == 0 {
        Seq::empty()
    } else {
        "  conflict: "@ + decimal_nat(e.conflict_paths@.len()) + " path(s), resolve then promote"@
    }) + "\n"@
}

/// The lines of live forks.
pub open spec fn live_lines(entries: Seq<ForkEntry>, now: i64) -> Seq<char>
    decreases entries.len(),
{
    if entries.len() == 0 {
        Seq::empty()
    } else {
        live_lines(entries.drop_last(), now) + live_line(entries.last(), now)
    }
}

/// What is printed of live forks.
pub open spec fn forks_text(entries: Seq<ForkEntry>, now: i64) -> Seq<char> {
    if entries.len() == 0 {
        "no live forks (forks do not survive daemon restarts)\n"@
    } else {
        live_lines(entries, now)
    }
}

/// What is printed of live forks.
pub fn forks_report(entries: &Vec<ForkEntry>, now: i64) -> (r: String)
    ensures
        r@ == forks_text(entries@, now),
{
    if entries.len() == 0 {
        return "no live forks (forks do not survive daemon restarts)\n".to_owned();
    }
    let mut out = String::new();
    let mut i: usize = 0;
    while i < entries.len()
        invariant
            i <= entries@.len(),
            out@ == live_lines(entries@.take(i as int), now),
        decreases entries.len() - i,
    {
        let e = &entries[i];
        let mut conflict = String::new();
        if e.conflict_paths.len() > 0 {
            conflict.append("  conflict: ");
            push_nat(&mut conflict, e.conflict_paths.len() as u64);
            conflict.append(" path(s), resolve then promote");
            assert(conflict@ =~= "  conflict: "@ + decimal_nat(e.conflict_paths@.len())
                + " path(s), resolve then promote"@);
        }
        let mut line = e.id.clone();
        line.append("  ");
        line.append(e.mode.as_str());
        line.append("  ");
        line.append(age(now, e.created_at).as_str());
        line.append("  ");
        line.append(e.path.as_str());
        line.append("  base ");
        line.append(fit(e.base.as_str(), SHORT_GENERATION).as_str());
        line.append(conflict.as_str());
        line.append("\n");
        assert(line@ == live_line(*e, now));
        out.append(line.as_str());
        i += 1;
        assert(entries@.take(i as int).drop_last() =~= entries@.take(i - 1));
    }
    assert(entries@.take(i as int) =~= entries@);
    out
}

/// What is said of ignored paths of which the mainline kept its copy.
pub open spec fn kept_text(kept: Seq<String>) -> Seq<char> {
    if kept.len() == 0 {
        Seq::empty()
    } else {
        "kept the mainline's copy of "@ + decimal_nat(kept.len())
            + " gitignored path(s) both sides changed: "@ + joined_texts(texts(kept), ", "@) + "\n"@
    }
}

fn kept_note(kept: &Vec<String>) -> (r: String)
    ensures
        r@ == kept_text(kept@),
{
    let mut out = String::new();
    if kept.len() > 0 {
        out.append("kept the mainline's copy of ");
        push_nat(&mut out, kept.len() as u64);
        out.append(" gitignored path(s) both sides changed: ");
        out.append(join_texts(kept, ", ").as_str());
        out.append("\n");
        assert(out@ =~= kept_text(kept@));
    }
    out
}

/// The lines of conflicts.
pub open spec fn conflict_lines(conflicts: Seq<ConflictEntry>) -> Seq<char>
    decreases conflicts.len(),
{
    if conflicts.len() == 0 {
        Seq::empty()
    } else {
        let c = conflicts.last();
        conflict_lines(conflicts.drop_last()) + ("  "@ + c.path@ + ": "@ + c.detail@ + "\n"@)
    }
}

/// What is said of a promotion that opened a conflict, given what is said of
/// kept paths.
pub open spec fn conflict_text(id: Seq<char>, info: PromoteInfo, kept: Seq<char>) -> Seq<char> {
    "promote fork "@ + id + ": "@ + decimal_nat(info.conflicts@.len())
        + " file(s) conflict; markers written into the fork, nothing landed\n"@ + conflict_lines(
        info.conflicts@,
    ) + "Resolve the markers in "@ + (match info.fork_path {
        Some(path) => path@,
        None => "the fork"@,
    }) + " and run `acyclic promote "@ + id + "` again (the fork now sits on "@ + short_generation(
        info.generation@,
    ) + ")"@ + (if kept.len() == 0 { Seq::empty() } else { "\n"@ + kept })
}

/// What is said of a promotion that opened a conflict.
pub fn conflict_report(id: &str, info: &PromoteInfo, kept: &str) -> (r: String)
    ensures
        r@ == conflict_text(id@, *info, kept@),
{
    let mut lines = String::new();
    let mut i: usize = 0;
    while i < info.conflicts.len()
        invariant
            i <= info.conflicts@.len(),
            lines@ == conflict_lines(info.conflicts@.take(i as int)),
        decreases info.conflicts.len() - i,
    {
        let c = &info.conflicts[i];
        let mut line = "  ".to_owned();
        line.append(c.path.as_str());
        line.append(": ");
        line.append(c.detail.as_str());
        line.append("\n");
        lines.append(line.as_str());
        i += 1;
        assert(info.conflicts@.take(i as int).drop_last() =~= info.conflicts@.take(i - 1));
    }
    assert(info.conflicts@.take(i as int) =~= info.conflicts@);
    let place = match &info.fork_path {
        Some(path) => path.clone(),
        None => "the fork".to_owned(),
    };
    let mut tail = String::new();
    if !text_eq(kept, "") {
        tail.append("\n");
        tail.append(kept);
    }
    proof {
        reveal_strlit("");
        if kept@.len() == 0 {
            assert(kept@ =~= ""@);
        }
        assert(tail@ =~= if kept@.len() == 0 { Seq::empty() } else { "\n"@ + kept@ });
    }
    let mut out = "promote fork ".to_owned();
    out.append(id);
    out.append(": ");
    push_nat(&mut out, info.conflicts.len() as u64);
    out.append(" file(s) conflict; markers written into the fork, nothing landed\n");
    out.append(lines.as_str());
    out.append("Resolve the markers in ");
    out.append(place.as_str());
    out.append(" and run `acyclic promote ");
    out.append(id);
    out.append("` again (the fork now sits on ");
    out.append(fit(info.generation.as_str(), SHORT_GENERATION).as_str());
    out.append(")");
    out.append(tail.as_str());
    out
}

/// What is printed of a promotion that landed.
pub open spec fn landed_text(info: PromoteInfo) -> Seq<char> {
    let short = short_generation(info.generation@);
    let paths = decimal_nat(info.replayed_paths as nat);
    let note = "\nnote: "@ + info.warning@ + "\n"@;
    match info.old_tree {
        Some(old) => "promoted: working tree now at "@ + short + "\nold tree kept at "@ + old@ + note,
        None => if info.merged_files > 0 {
            "promoted by merge: "@ + decimal_nat(info.merged_files as nat) + " file(s) merged, "@
                + paths + " path(s) written in place, tree now at "@ + short + note
        } else if info.replayed_paths > 0 && info.mainline_moved {
            "promoted by replay: "@ + paths + " path(s) written in place, tree now at "@ + short
                + note
        } else if info.replayed_paths > 0 {
            "promoted: "@ + paths + " path(s) written in place, tree now at "@ + short + "\n"@
        } else {
            "fork had no changes; nothing to land\n"@
        },
    }
}

/// What is printed of a promotion that landed.
pub fn landed_report(info: &PromoteInfo) -> (r: String)
    ensures
        r@ == landed_text(*info),
{
    let short = fit(info.generation.as_str(), SHORT_GENERATION);
    let mut note = "\nnote: ".to_owned();
    note.append(info.warning.as_str());
    note.append("\n");
    match &info.old_tree {
        Some(old) => {
            let mut out = "promoted: working tree now at ".to_owned();
            out.append(short.as_str());
            out.append("\nold tree kept at ");
            out.append(old.as_str());
            out.append(note.as_str());
            out
        },
        None => {
            if info.merged_files > 0 {
                let mut out = "promoted by merge: ".to_owned();
                push_nat(&mut out, info.merged_files as u64);
                out.append(" file(s) merged, ");
                push_nat(&mut out, info.replayed_paths as u64);
                out.append(" path(s) written in place, tree now at ");
                out.append(short.as_str());
                out.append(note.as_str());
                out
            } else if info.replayed_paths > 0 && info.mainline_moved {
                let mut out = "promoted by replay: ".to_owned();
                push_nat(&mut out, info.replayed_paths as u64);
                out.append(" path(s) written in place, tree now at ");
                out.append(short.as_str());
                out.append(note.as_str());
                out
            } else if info.replayed_paths > 0 {
                let mut out = "promoted: ".to_owned();
                push_nat(&mut out, info.replayed_paths as u64);
                out.append(" path(s) written in place, tree now at ");
                out.append(short.as_str());
                out.append("\n");
                out
            } else {
                "fork had no changes; nothing to land\n".to_owned()
            }
        },
    }
}

/// What is printed of a promotion, or why nothing landed.
pub fn promote_report(id: &str, info: &PromoteInfo) -> (r: Result<String, String>)
    ensures
        match r {
            Ok(text) => info.conflicts@.len() == 0 && text@ == kept_text(info.kept_mainline@)
                + landed_text(*info),
            Err(message) => info.conflicts@.len() > 0 && message@ == conflict_text(
                id@,
                *info,
                if info.kept_mainline@.len() == 0 {
                    Seq::empty()
                } else {
                    end_trimmed(kept_text(info.kept_mainline@))
                },
            ),
        },
{
    let kept = kept_note(&info.kept_mainline);
    if info.conflicts.len() > 0 {
        let shown = if info.kept_mainline.len() == 0 {
            String::new()
        } else {
            trim_end(kept.as_str())
        };
        return Err(conflict_report(id, info, shown.as_str()));
    }
    let mut out = kept;
    out.append(landed_report(info).as_str());
    Ok(out)
}

/// What is printed of the daemon's health. The size of the store is given in
/// words.
pub open spec fn status_text(info: StatusInfo, size: Seq<char>) -> Seq<char> {
    "repo:          "@ + info.repo_root@ + "\nstate:         "@ + info.state@
        + "\nlast checkpoint: "@ + (match info.last_checkpoint {
        Some(id) => "#"@ + decimal(id as int),
        None => "none"@,
    }) + "\nunpublished:   "@ + decimal_nat(info.unpublished as nat) + "\nstore size:    "@ + size
        + "\nmounts:        "@ + (if info.mount_available {
        info.mount_provider@ + " (forks mount, Safe Mode on)\n"@
    } else {
        "unavailable ("@ + (match info.mount_reason {
            Some(reason) => reason@,
            None => "unknown reason"@,
        }) + ") — forks copy, Safe Mode off\n"@
    })
}

/// What is printed of the daemon's health.
pub fn status_report(info: &StatusInfo, size: &str) -> (r: String)
    ensures
        r@ == status_text(*info, size@),
{
    let last = match info.last_checkpoint {
        Some(id) => {
            let mut t = "#".to_owned();
            push_int(&mut t, id);
            t
        },
        None => "none".to_owned(),
    };
    let mut mounts = String::new();
    if info.mount_available {
        mounts.append(info.mount_provider.as_str());
        mounts.append(" (forks mount, Safe Mode on)\n");
        assert(mounts@ =~= info.mount_provider@ + " (forks mount, Safe Mode on)\n"@);
    } else {
        let reason = match &info.mount_reason {
            Some(reason) => reason.clone(),
            None => "unknown reason".to_owned(),
        };
        mounts.append("unavailable (");
        mounts.append(reason.as_str());
        mounts.append(") — forks copy, Safe Mode off\n");
        assert(mounts@ =~= "unavailable ("@ + reason@ + ") — forks copy, Safe Mode off\n"@);
    }
    let mut out = "repo:          ".to_owned();
    out.append(info.repo_root.as_str());
    out.append("\nstate:         ");
    out.append(info.state.as_str());
    out.append("\nlast checkpoint: ");
    out.append(last.as_str());
    out.append("\nunpublished:   ");
    push_nat(&mut out, info.unpublished);
    out.append("\nstore size:    ");
    out.append(size);
    out.append("\nmounts:        ");
    out.append(mounts.as_str());
    out
}

/// What is printed of a session that was resolved.
pub open spec fn pending_text(info: SessionPendingInfo) -> Seq<char> {
    if info.diff@.len() == 0 {
        "session "@ + info.session_id@ + ": no changes\n"@
    } else {
        diff_lines(info.diff@, false) + decimal_nat(info.diff@.len())
            + " paths changed; run `acyclic session-apply "@ + info.session_id@
            + "` to land them or `acyclic session-discard "@ + info.session_id@
            + "` to throw them away\n"@
    }
}

/// What is printed of a session that was resolved.
pub fn pending_report(info: &SessionPendingInfo) -> (r: String)
    ensures
        r@ == pending_text(*info),
{
    if info.diff.len() == 0 {
        let mut out = "session ".to_owned();
        out.append(info.session_id.as_str());
        out.append(": no changes\n");
        return out;
    }
    let (lines, _) = push_diff_lines(&info.diff, false);
    let mut out = lines;
    push_nat(&mut out, info.diff.len() as u64);
    out.append(" paths changed; run `acyclic session-apply ");
    out.append(info.session_id.as_str());
    out.append("` to land them or `acyclic session-discard ");
    out.append(info.session_id.as_str());
    out.append("` to throw them away\n");
    out
}

/// What is printed of a session that was applied.
pub open spec fn applied_text(info: PromoteInfo) -> Seq<char> {
    match info.old_tree {
        Some(old) => "applied: working tree now at "@ + short_generation(info.generation@)
            + "\nold tree kept at "@ + old@ + "\nnote: "@ + info.warning@ + "\n"@,
        None => "session had no changes; nothing to land\n"@,
    }
}

/// What is printed of a session that was applied.
pub fn applied_report(info: &PromoteInfo) -> (r: String)
    ensures
        r@ == applied_text(*info),
{
    match &info.old_tree {
        Some(old) => {
            let mut out = "applied: working tree now at ".to_owned();
            out.append(fit(info.generation.as_str(), SHORT_GENERATION).as_str());
            out.append("\nold tree kept at ");
            out.append(old.as_str());
            out.append("\nnote: ");
            out.append(info.warning.as_str());
            out.append("\n");
            out
        },
        None => "session had no changes; nothing to land\n".to_owned(),
    }
}

/// What is said of a checkpoint that landed.
pub open spec fn checkpoint_line(info: CheckpointInfo) -> Seq<char> {
    "checkpoint #"@ + decimal(info.row_id as int) + " ("@ + info.kind@ + ")\n"@
}

/// What is said of a checkpoint that landed.
pub fn checkpoint_report(info: &CheckpointInfo) -> (r: String)
    ensures
        r@ == checkpoint_line(*info),
{
    let mut out = "checkpoint #".to_owned();
    push_int(&mut out, info.row_id);
    out.append(" (");
    out.append(info.kind.as_str());
    out.append(")\n");
    out
}

/// What is printed of what mounts can do here, with what to do where they can
/// do nothing.
pub open spec fn mounts_text(mounts: MountCapability, hint: Seq<char>) -> Seq<char> {
    if mounts.available {
        "mounts:        "@ + mounts.provider@ + " (forks and Safe Mode available)\n"@
    } else {
        "mounts:        unavailable ("@ + (match mounts.reason {
            Some(reason) => reason@,
            None => "unknown reason"@,
        }) + ")\n"@ + hint + "\n"@
    }
}

/// What is printed of what mounts can do here.
pub fn mounts_report(mounts: &MountCapability, hint: &str) -> (r: String)
    ensures
        r@ == mounts_text(*mounts, hint@),
{
    if mounts.available {
        let mut out = "mounts:        ".to_owned();
        out.append(mounts.provider);
        out.append(" (forks and Safe Mode available)\n");
        out
    } else {
        let mut out = "mounts:        unavailable (".to_owned();
        out.append(mounts.reason_or_unknown().as_str());
        out.append(")\n");
        out.append(hint);
        out.append("\n");
        out
    }
}

/// What is printed of the limits of splitting work across forks: a line for
/// each, for an agent to read.
pub open spec fn policy_text(d: crate::config::Decompose) -> Seq<char> {
    "fan_out = "@ + decimal_nat(d.fan_out as nat) + "\nmax_depth = "@ + decimal_nat(
        d.max_depth as nat,
    ) + "\nmax_forks = "@ + decimal_nat(d.max_forks as nat) + "\nrequire_tests = "@ + (
    if d.require_tests { "true"@ } else { "false"@ }) + "\ntest_command = "@ + (match d.test_command {
        Some(command) => crate::text::debug_of(command@),
        None => "(infer from the repo)"@,
    }) + "\ntie_break = "@ + crate::text::debug_of(d.tie_break@)
        + "\n# set these under [decompose] in .acyclic/config.toml\n"@
}

/// What is printed of the limits of splitting work across forks.
pub fn policy_report(d: &crate::config::Decompose) -> (r: String)
    ensures
        r@ == policy_text(*d),
{
    let command = match &d.test_command {
        Some(command) => crate::text::debug_text(command.as_str()),
        None => "(infer from the repo)".to_owned(),
    };
    let mut out = "fan_out = ".to_owned();
    push_nat(&mut out, d.fan_out as u64);
    out.append("\nmax_depth = ");
    push_nat(&mut out, d.max_depth as u64);
    out.append("\nmax_forks = ");
    push_nat(&mut out, d.max_forks as u64);
    out.append("\nrequire_tests = ");
    out.append(
        if d.require_tests {
            "true"
        } else {
            "false"
        },
    );
    out.append("\ntest_command = ");
    out.append(command.as_str());
    out.append("\ntie_break = ");
    out.append(crate::text::debug_text(d.tie_break.as_str()).as_str());
    out.append("\n# set these under [decompose] in .acyclic/config.toml\n");
    out
}

} // verus!
