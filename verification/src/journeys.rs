//! From what a user, a hook or a tool asks for to what the engine is to do.
use vstd::prelude::*;
use crate::cli::{
    agrees, digits_value, first_of_turn, int_value, is_reference, is_turn_range, names, plans_command,
    unmarked, Command, Planned,
};
use crate::history::is_turn_entry;
use crate::hook::{asks, HookEvent, Payload};
use crate::index::{CheckpointKind, CheckpointRow, Index, TurnRow};
use crate::listings::{law_turn_spans_its_checkpoints, of_turn, snapshot};
use crate::mcp::{asks_tool, Tool};
use crate::proto::{Op, RewindTarget, TurnEntry};
use crate::requests::{
    law_checkpoint_is_asked_as_it_was_asked_for, law_diff_compares_in_the_order_asked,
    law_rewind_works_on_the_row_of_the_id,
};
use crate::server::{begun, Begun, Job, Server};
use crate::text::{decimal, decimal_nat, digit};

verus! {

/// Before a tool runs the tree is captured, and the tool waits for it; after it
/// has run the tree is captured again, and nobody waits. Both captures carry the
/// session, by whichever name the host gives it, the id of the call, and the
/// tool, which is the shell's where the host names a command only.
pub proof fn law_tools_are_captured_on_both_sides(
    event: HookEvent,
    payload: Payload,
    host: Seq<char>,
    op: Op,
    s: Server,
    index: Index,
    t: Server,
    r: Begun,
)
    requires
        event == HookEvent::PreTool || event == HookEvent::PostTool,
        asks(event, payload, host, op),
        begun(s, index, op, t, r),
    ensures
        r matches Begun::Work(Job::Checkpoint { kind, attribution, wait, durable }) && {
            &&& kind == if event == HookEvent::PreTool {
                CheckpointKind::Pre
            } else {
                CheckpointKind::Post
            }
            &&& wait == (event == HookEvent::PreTool)
            &&& !durable
            &&& attribution.session_id == if payload.session_id is Some {
                payload.session_id
            } else {
                payload.conversation_id
            }
            &&& attribution.tool_call_id == payload.tool_use_id
            &&& payload.tool_name is Some ==> attribution.tool_name == payload.tool_name
            &&& payload.tool_name is None && payload.command is Some ==> (attribution.tool_name
                matches Some(name) && name@ == "Bash"@)
        },
{
    law_checkpoint_is_asked_as_it_was_asked_for(s, index, op, t, r);
    reveal_strlit("pre");
    reveal_strlit("post");
    reveal_strlit("manual");
    assert("pre"@.len() != "post"@.len());
}

/// A prompt begins a turn of its session with the text of the prompt; the start
/// and the end of a session are noted as such.
pub proof fn law_sessions_and_prompts_are_noted(
    event: HookEvent,
    payload: Payload,
    session: String,
    host: Seq<char>,
    op: Op,
    s: Server,
    index: Index,
    t: Server,
    r: Begun,
)
    requires
        payload.session_id == Some(session),
        asks(event, payload, host, op),
        begun(s, index, op, t, r),
    ensures
        event == HookEvent::UserPrompt ==> (r matches Begun::Work(
            Job::TurnStart { session_id, prompt },
        ) && session_id@ == session@ && (payload.prompt matches Some(text) ==> prompt@ == text@)),
        event == HookEvent::SessionStart ==> (r matches Begun::Work(
            Job::SessionStart { session_id, host: h },
        ) && session_id@ == session@ && h@ == host),
        event == HookEvent::SessionEnd ==> (r matches Begun::Work(Job::SessionEnd { session_id })
            && session_id@ == session@),
{
}

/// A tool of an assistant that rewinds rewinds the whole tree to the row it
/// names.
pub proof fn law_tool_rewinds_to_the_row_it_names(
    row: CheckpointRow,
    op: Op,
    s: Server,
    index: Index,
    t: Server,
    r: Begun,
)
    requires
        index.wf(),
        index.rows@.contains(row),
        row.kind != CheckpointKind::Failed,
        asks_tool(Tool::Rewind { checkpoint: row.id }, op),
        begun(s, index, op, t, r),
    ensures
        r == Begun::Work(Job::Rewind { row }),
{
    law_rewind_works_on_the_row_of_the_id(s, index, None, row, t, r);
}

/// A tool of an assistant that compares two rows compares them in the order it
/// names them.
pub proof fn law_tool_compares_in_the_order_it_names(
    before: CheckpointRow,
    after: CheckpointRow,
    op: Op,
    s: Server,
    index: Index,
    t: Server,
    r: Begun,
)
    requires
        index.wf(),
        index.rows@.contains(before),
        index.rows@.contains(after),
        asks_tool(Tool::Diff { before: Some(before.id), after: Some(after.id) }, op),
        begun(s, index, op, t, r),
    ensures
        r == Begun::Work(Job::Diff { before: before.generation, after: after.generation }),
{
    law_diff_compares_in_the_order_asked(s, index, (None, None), before, after, t, r);
}

/// A tool of an assistant that takes a checkpoint takes one by hand, under its
/// message, and is told once it is taken.
pub proof fn law_tool_takes_a_checkpoint_by_hand(
    message: Option<String>,
    op: Op,
    s: Server,
    index: Index,
    t: Server,
    r: Begun,
)
    requires
        asks_tool(Tool::Checkpoint { message }, op),
        begun(s, index, op, t, r),
    ensures
        r matches Begun::Work(Job::Checkpoint { kind, attribution, wait, durable }) && kind
            == CheckpointKind::Manual && attribution.label == message && attribution.session_id
            is None && wait,
{
    law_checkpoint_is_asked_as_it_was_asked_for(s, index, op, t, r);
}

/// No rewind without agreement: a command that rewinds asks first unless it was
/// told not to, and it rewinds to the one target that it names; with none or
/// with more than one it is refused.
pub proof fn law_rewind_asks_first(
    target: Option<i64>,
    last: bool,
    session_start: Option<String>,
    yes: bool,
    p: Planned,
)
    requires
        plans_command(Command::Rewind { target, last, session_start, yes }, p),
    ensures
        !yes ==> p is Confirm || p is Refused,
        p is Refused <==> (if target is Some { 1int } else { 0 }) + (if last { 1int } else { 0 })
            + (if session_start is Some { 1int } else { 0 }) != 1,
        !(p is Refused) ==> ({
            let op = if yes { p->Ask_op } else { p->Confirm_op };
            &&& yes ==> p is Ask
            &&& op matches Op::Rewind { target: to, path } && path is None && {
                &&& target matches Some(id) ==> to == RewindTarget::Checkpoint(id)
                &&& last ==> to == RewindTarget::Last
                &&& session_start matches Some(session) ==> to == RewindTarget::SessionStart(session)
            }
        }),
{
}

/// Only a plain yes agrees: no answer does not.
pub proof fn law_silence_is_no_agreement(answer: Seq<char>)
    ensures
        agrees(answer) ==> answer.len() == 1 || answer.len() == 3,
        agrees(answer) ==> answer[0] == 'y' || answer[0] == 'Y',
        answer == "yes"@ || answer == "y"@ ==> agrees(answer),
{
    reveal_strlit("y");
    reveal_strlit("Y");
    reveal_strlit("yes");
}

/// A command that restores paths asks for each of them, out of the row it
/// names, and the engine restores that path alone.
pub proof fn law_restore_restores_each_path(
    row: CheckpointRow,
    paths: Vec<String>,
    p: Planned,
    i: int,
    s: Server,
    index: Index,
    t: Server,
    r: Begun,
)
    requires
        index.wf(),
        index.rows@.contains(row),
        row.kind != CheckpointKind::Failed,
        plans_command(Command::Restore { checkpoint: row.id, paths }, p),
        0 <= i < paths@.len(),
        p is Each,
        begun(s, index, p->ops@[i], t, r),
    ensures
        p->ops@.len() == paths@.len(),
        r matches Begun::Work(Job::RestorePath { row: of, path }) && of == row && path@
            == vstd::utf8::encode_utf8(paths@[i]@),
{
    assert(p->ops@[i] == (Op::Rewind {
        target: RewindTarget::Checkpoint(row.id),
        path: Some(paths@[i]),
    }));
    law_rewind_works_on_the_row_of_the_id(s, index, Some(paths@[i]), row, t, r);
}

/// A checkpoint that a user wants durable is waited for, whatever else they
/// said.
pub proof fn law_durable_is_waited_for(c: Command, p: Planned)
    requires
        c is Checkpoint,
        plans_command(c, p),
        p is Ask,
    ensures
        p->Ask_op matches Op::Checkpoint { label, wait, durable, kind, .. } && {
            &&& durable == c->durable
            &&& durable ==> wait
            &&& !c->no_wait ==> wait
            &&& c->no_wait && !durable ==> !wait
            &&& label == c->message
            &&& kind == c->Checkpoint_kind
        },
{
}

pub proof fn lemma_decimal_read(n: nat)
    ensures
        digits_value(decimal_nat(n)) == Some(n),
        decimal_nat(n).len() > 0,
        '0' <= decimal_nat(n)[0] <= '9',
    decreases n,
{
    let text = decimal_nat(n);
    if n < 10 {
        assert(text.drop_last() =~= Seq::<char>::empty());
        assert(text.last() == digit(n as int));
        assert(digits_value(text.drop_last()) == Some(0nat));
    } else {
        lemma_decimal_read(n / 10);
        assert(text.drop_last() =~= decimal_nat(n / 10));
        assert(text.last() == digit((n % 10) as int));
        assert(text[0] == decimal_nat(n / 10)[0]);
    }
}

/// The number of a row, with or without the mark that the timeline shows before
/// it, names that row.
pub proof fn law_numbers_name_their_row(
    id: i64,
    marked: bool,
    r: Result<(Option<i64>, Option<String>), String>,
)
    requires
        is_reference(if marked { seq!['#'] + decimal(id as int) } else { decimal(id as int) }, r),
    ensures
        r == Ok::<(Option<i64>, Option<String>), String>((Some(id), None)),
{
    let text = decimal(id as int);
    if id < 0 {
        lemma_decimal_read((-id) as nat);
        assert(text.skip(1) =~= decimal_nat((-id) as nat));
    } else {
        lemma_decimal_read(id as nat);
    }
    assert(int_value(text) == Some(id as int));
    assert(unmarked(text) == text);
    if marked {
        assert((seq!['#'] + text).skip(1) =~= text);
        assert(unmarked(seq!['#'] + text) == unmarked(text));
    }
}

/// A command that compares hands on what its two arguments name, each in its
/// place.
pub proof fn law_compare_keeps_its_arguments_apart(
    before: Option<String>,
    after: Option<String>,
    session: Option<String>,
    p: Planned,
)
    requires
        plans_command(Command::Diff { before, after, turn: None, session }, p),
        p is Ask,
    ensures
        p->Ask_op matches Op::Diff { before: a, after: b, before_hex, after_hex } && names(
            before,
            Ok((a, before_hex)),
        ) && names(after, Ok((b, after_hex))) && (before is None ==> a is None && before_hex is None)
            && (after is None ==> b is None && after_hex is None),
{
}

/// What a turn changed is compared from the last real snapshot before it to the
/// last of its checkpoints.
pub proof fn law_turn_is_compared_with_the_state_before_it(
    index: Index,
    turn: TurnRow,
    e: TurnEntry,
    session: Seq<char>,
    turns: Seq<TurnEntry>,
    range: (Option<i64>, Option<i64>),
    row: CheckpointRow,
)
    requires
        index.wf(),
        is_turn_entry(index, turn, e),
        first_of_turn(turns, turn.turn, 0),
        turns[0] == e,
        is_turn_range(session, turns, turn.turn, Ok(range)),
        index.rows@.contains(row),
    ensures
        range.1 == Some(row.id) ==> of_turn(row, turn.session_id@, turn.turn),
        of_turn(row, turn.session_id@, turn.turn) ==> (range.1 matches Some(last) && row.id <= last),
        range.0 == Some(row.id) ==> snapshot(row) && (e.first_checkpoint matches Some(first)
            && row.id < first),
        snapshot(row) && (e.first_checkpoint matches Some(first) && row.id < first) ==> (range.0
            matches Some(base) && row.id <= base),
{
    law_turn_spans_its_checkpoints(index, turn, e, row);
    let i = choose|i: int| #[trigger]
        first_of_turn(turns, turn.turn, i) && range.0 == turns[i].base_checkpoint && range.1
            == turns[i].last_checkpoint;
    if i > 0 {
        assert(turns[0].turn == turn.turn);
    }
}

/// Whether a command only looks.
pub open spec fn looks(c: Command) -> bool {
    c is Timeline || c is Turns || c is Show || c is Sessions || c is Brief || c is Diff || c
        is Forks || c is ForkDiff || c is Status
}

/// A command that only looks changes nothing: the daemon holds what it held, and
/// the engine is asked for nothing that writes.
pub proof fn law_looking_changes_nothing(
    c: Command,
    p: Planned,
    s: Server,
    index: Index,
    t: Server,
    r: Begun,
)
    requires
        looks(c),
        plans_command(c, p),
        p is Ask,
        begun(s, index, p->Ask_op, t, r),
    ensures
        t == s,
        r matches Begun::Work(job) ==> job is Status || job is Brief || job is Diff || job
            is ForkDiff,
{
}

/// A command on a fork is about the fork it names: dropping hands that fork over
/// to be dropped, promoting to be promoted, and comparing looks at that fork.
pub proof fn law_fork_commands_mean_the_fork_they_name(
    id: String,
    dropped: Planned,
    promoted: Planned,
    compared: Planned,
)
    requires
        plans_command(Command::ForkDrop { id }, dropped),
        plans_command(Command::Promote { id }, promoted),
        plans_command(Command::ForkDiff { id }, compared),
    ensures
        dropped matches Planned::Ask { op, .. } && (op matches Op::ForkDrop { id: of } && of@ == id@),
        promoted matches Planned::Ask { op, .. } && (op matches Op::Promote { id: of } && of@ == id@),
        compared matches Planned::Ask { op, .. } && (op matches Op::ForkDiff { id: of } && of@
            == id@),
{
}

/// A command on a Safe Mode session is about the session it names: resolving,
/// applying and discarding are told apart.
pub proof fn law_session_commands_mean_the_session_they_name(
    session_id: String,
    resolved: Planned,
    applied: Planned,
    discarded: Planned,
)
    requires
        plans_command(Command::SessionResolve { session_id }, resolved),
        plans_command(Command::SessionApply { session_id }, applied),
        plans_command(Command::SessionDiscard { session_id }, discarded),
    ensures
        resolved matches Planned::Ask { op, .. } && op == (Op::SessionResolve { session_id }),
        applied matches Planned::Ask { op, .. } && op == (Op::SessionApply { session_id }),
        discarded matches Planned::Ask { op, .. } && op == (Op::SessionDiscard { session_id }),
{
}

} // verus!
