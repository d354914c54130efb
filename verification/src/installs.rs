//! What installing does to the files of a host: it adds what runs the library's
//! own commands and leaves everything that is somebody else's.
use vstd::prelude::*;
use crate::install::{
    after_space, bare_command, entries_of, flat_hooked, flat_rows, given, hooked, inner, nested_rows,
    not_ours, ours, runs_hook, EntryShape, HookRow, HOST_VARIABLE,
};
use crate::json::{field, member, Json};
use crate::product::NAME;
use crate::text::{begins, contains_text, finishes, lemma_contained, occurs_at};

verus! {

/// What a list in a field holds.
pub open spec fn listed(fields: Seq<(String, Json)>, key: Seq<char>) -> Seq<Json> {
    match field(fields, key) {
        Some(Json::List(l)) => l@,
        _ => Seq::empty(),
    }
}

/// Whether a value calls the library with an event as its last word.
pub open spec fn calls_with(call: Json, event: Seq<char>) -> bool {
    member(call, "command"@) matches Some(Json::Text(c)) && finishes(
        c@,
        "acyclic hook "@ + event,
    )
}

/// Whether the last entry of an event calls the library so, one level down where
/// entries nest their hooks.
pub open spec fn runs(shape: EntryShape, hooks: Seq<(String, Json)>, key: Seq<char>, event: Seq<char>) -> bool {
    &&& listed(hooks, key).len() > 0
    &&& match shape {
        EntryShape::Flat => calls_with(listed(hooks, key).last(), event),
        EntryShape::Nested => member(listed(hooks, key).last(), "hooks"@) matches Some(
            Json::List(inside),
        ) && inside@.len() == 1 && calls_with(inside@[0], event),
    }
}

proof fn lemma_runs(
    shape: EntryShape,
    before: Seq<(String, Json)>,
    after: Seq<(String, Json)>,
    row: HookRow,
    host: Option<Seq<char>>,
)
    requires
        given(shape, before, after, row, host),
    ensures
        runs(shape, after, row.event@, crate::hook::event_arg(row.hook)),
{
    reveal_strlit("acyclic");
    reveal_strlit(" hook ");
    reveal_strlit("acyclic hook ");
    let arg = crate::hook::event_arg(row.hook);
    let command = crate::install::hook_command(host, row.hook);
    let tail = "acyclic hook "@ + arg;
    assert("acyclic hook "@ =~= NAME@ + " hook "@);
    assert(command.subrange(command.len() - tail.len(), command.len() as int) =~= tail);
    assert(finishes(command, tail));
}

/// Each event of a host runs the hook that is meant for it: before a tool the one
/// that captures before, after a tool the one that captures after, and so on.
pub proof fn law_each_event_runs_its_hook(before: Json, after: Json, host: Option<Seq<char>>)
    requires
        hooked(before, after, host),
    ensures
        ({
            let hooks = inner(after->Object_0@, "hooks"@);
            &&& runs(EntryShape::Nested, hooks, "PreToolUse"@, "pre-tool"@)
            &&& runs(EntryShape::Nested, hooks, "PostToolUse"@, "post-tool"@)
            &&& runs(EntryShape::Nested, hooks, "UserPromptSubmit"@, "user-prompt"@)
            &&& runs(EntryShape::Nested, hooks, "SessionStart"@, "session-start"@)
            &&& runs(EntryShape::Nested, hooks, "SessionEnd"@, "session-end"@)
        }),
{
    let (b, a) = (inner(before->Object_0@, "hooks"@), inner(after->Object_0@, "hooks"@));
    let rows = nested_rows();
    assert forall|i: int| 0 <= i < rows.len() implies runs(
        EntryShape::Nested,
        a,
        (#[trigger] rows[i]).event@,
        crate::hook::event_arg(rows[i].hook),
    ) by {
        lemma_runs(EntryShape::Nested, b, a, rows[i], host);
    }
    assert(rows.len() == 5);
    assert(rows[0].event@ == "PreToolUse"@ && rows[1].event@ == "PostToolUse"@ && rows[2].event@
        == "UserPromptSubmit"@ && rows[3].event@ == "SessionStart"@ && rows[4].event@
        == "SessionEnd"@);
}

/// The same of the host whose entries are flat: a command is captured before it
/// runs and after, an edit after it.
pub proof fn law_each_flat_event_runs_its_hook(before: Json, after: Json)
    requires
        flat_hooked(before, after),
    ensures
        ({
            let hooks = inner(after->Object_0@, "hooks"@);
            &&& runs(EntryShape::Flat, hooks, "beforeShellExecution"@, "pre-tool"@)
            &&& runs(EntryShape::Flat, hooks, "afterShellExecution"@, "post-tool"@)
            &&& runs(EntryShape::Flat, hooks, "afterFileEdit"@, "post-tool"@)
            &&& runs(EntryShape::Flat, hooks, "beforeSubmitPrompt"@, "user-prompt"@)
            &&& runs(EntryShape::Flat, hooks, "sessionStart"@, "session-start"@)
            &&& runs(EntryShape::Flat, hooks, "sessionEnd"@, "session-end"@)
        }),
{
    let (b, a) = (inner(before->Object_0@, "hooks"@), inner(after->Object_0@, "hooks"@));
    let rows = flat_rows();
    assert forall|i: int| 0 <= i < rows.len() implies runs(
        EntryShape::Flat,
        a,
        (#[trigger] rows[i]).event@,
        crate::hook::event_arg(rows[i].hook),
    ) by {
        lemma_runs(EntryShape::Flat, b, a, rows[i], Some("cursor"@));
    }
    assert(rows.len() == 6);
    assert(rows[0].event@ == "sessionStart"@ && rows[1].event@ == "sessionEnd"@ && rows[2].event@
        == "beforeShellExecution"@ && rows[3].event@ == "afterShellExecution"@ && rows[4].event@
        == "afterFileEdit"@ && rows[5].event@ == "beforeSubmitPrompt"@);
}

proof fn lemma_rest(s: Seq<char>, part: Seq<char>)
    requires
        after_space(s) matches Some(rest) && contains_text(rest, part),
    ensures
        contains_text(s, part),
    decreases s.len(),
{
    if s.len() > 0 {
        let tail = s.skip(1);
        if s[0] != ' ' {
            lemma_rest(tail, part);
        }
        lemma_contained(seq![s[0]], tail, Seq::empty(), part);
        assert(seq![s[0]] + tail + Seq::<char>::empty() =~= s);
    }
}

/// A command is taken for the library's own only if it calls the library's hook:
/// one in which the call does not occur is somebody else's.
pub proof fn law_own_commands_call_the_hook(command: Seq<char>)
    ensures
        runs_hook(command) ==> contains_text(command, "acyclic hook"@),
{
    if runs_hook(command) {
        reveal_strlit("acyclic");
        reveal_strlit(" hook");
        reveal_strlit(" hook ");
        reveal_strlit("acyclic hook");
        let part = "acyclic hook"@;
        assert(part =~= NAME@ + " hook"@);
        let bare = bare_command(command);
        assert(contains_text(bare, part)) by {
            let lead = NAME@ + " hook "@;
            if bare == NAME@ + " hook"@ {
                assert(bare.subrange(0, part.len() as int) =~= part);
            } else {
                assert(bare.subrange(0, lead.len() as int) == lead);
                assert(bare.subrange(0, part.len() as int) =~= bare.subrange(
                    0,
                    lead.len() as int,
                ).subrange(0, part.len() as int));
                assert(lead.subrange(0, part.len() as int) =~= part);
            }
            assert(occurs_at(bare, part, 0));
        }
        if bare != command {
            let n = HOST_VARIABLE@.len() as int;
            let tail = command.skip(n);
            lemma_rest(tail, part);
            lemma_contained(command.take(n), tail, Seq::empty(), part);
            assert(command.take(n) + tail + Seq::<char>::empty() =~= command);
        }
    }
}

/// Whether a value holds a command in which the library's hook is called.
pub open spec fn mentions(call: Json) -> bool {
    member(call, "command"@) matches Some(Json::Text(c)) && contains_text(c@, "acyclic hook"@)
}

/// Whether an entry is somebody else's: no command of it calls the library's
/// hook.
pub open spec fn foreign(shape: EntryShape, entry: Json) -> bool {
    match shape {
        EntryShape::Flat => !mentions(entry),
        EntryShape::Nested => member(entry, "hooks"@) matches Some(Json::List(inside)) ==> forall|i: int|
            0 <= i < inside@.len() ==> !mentions(#[trigger] inside@[i]),
    }
}

proof fn lemma_foreign(shape: EntryShape, entry: Json)
    requires
        foreign(shape, entry),
    ensures
        !ours(shape, entry),
{
    assert forall|c: Seq<char>| #[trigger] runs_hook(c) implies contains_text(c, "acyclic hook"@) by {
        law_own_commands_call_the_hook(c);
    }
}

/// Installing leaves what is somebody else's: every entry of an event that does
/// not call the library's hook is still there, and so is every other part of the
/// document.
pub proof fn law_installing_leaves_others_alone(
    before: Json,
    after: Json,
    host: Option<Seq<char>>,
    event: Seq<char>,
    entry: Json,
)
    requires
        hooked(before, after, host),
        listed(inner(before->Object_0@, "hooks"@), event).contains(entry),
        foreign(EntryShape::Nested, entry),
    ensures
        listed(inner(after->Object_0@, "hooks"@), event).contains(entry),
        host != Some("codex"@) ==> forall|key: Seq<char>|
            key != "hooks"@ ==> #[trigger] field(after->Object_0@, key) == field(
                before->Object_0@,
                key,
            ),
{
    let (b, a) = (inner(before->Object_0@, "hooks"@), inner(after->Object_0@, "hooks"@));
    let rows = nested_rows();
    lemma_foreign(EntryShape::Nested, entry);
    let n = rows.len() as int;
    if crate::install::among_rows(rows, n, event) {
        let i = choose|i: int| 0 <= i < n && (#[trigger] rows[i]).event@ == event;
        assert(given(EntryShape::Nested, b, a, rows[i], host));
        lemma_kept(EntryShape::Nested, b, a, rows[i], host, entry);
    } else {
        assert(field(a, event) == field(b, event));
    }
}

proof fn lemma_kept(
    shape: EntryShape,
    before: Seq<(String, Json)>,
    after: Seq<(String, Json)>,
    row: HookRow,
    host: Option<Seq<char>>,
    entry: Json,
)
    requires
        given(shape, before, after, row, host),
        entries_of(before, row.event@).contains(entry),
        !ours(shape, entry),
    ensures
        entries_of(after, row.event@).contains(entry),
{
    let (old_list, list) = (entries_of(before, row.event@), entries_of(after, row.event@));
    let keep = not_ours(shape);
    let i = choose|i: int| 0 <= i < old_list.len() && old_list[i] == entry;
    assert(keep(entry));
    old_list.lemma_filter_contains(keep, i);
    let kept = old_list.filter(keep);
    let k = choose|k: int| 0 <= k < kept.len() && kept[k] == entry;
    assert(list.drop_last()[k] == entry);
    assert(list[k] == entry);
}

/// The same of the host whose entries are flat.
pub proof fn law_flat_installing_leaves_others_alone(
    before: Json,
    after: Json,
    event: Seq<char>,
    entry: Json,
)
    requires
        flat_hooked(before, after),
        listed(inner(before->Object_0@, "hooks"@), event).contains(entry),
        foreign(EntryShape::Flat, entry),
    ensures
        listed(inner(after->Object_0@, "hooks"@), event).contains(entry),
        forall|key: Seq<char>|
            key != "hooks"@ && key != "version"@ ==> #[trigger] field(after->Object_0@, key)
                == field(before->Object_0@, key),
{
    let (b, a) = (inner(before->Object_0@, "hooks"@), inner(after->Object_0@, "hooks"@));
    let rows = flat_rows();
    lemma_foreign(EntryShape::Flat, entry);
    let n = rows.len() as int;
    if crate::install::among_rows(rows, n, event) {
        let i = choose|i: int| 0 <= i < n && (#[trigger] rows[i]).event@ == event;
        assert(given(EntryShape::Flat, b, a, rows[i], Some("cursor"@)));
        lemma_kept(EntryShape::Flat, b, a, rows[i], Some("cursor"@), entry);
    } else {
        assert(field(a, event) == field(b, event));
    }
}

/// Whether a value is a text.
pub open spec fn says(json: Json, text: Seq<char>) -> bool {
    json matches Json::Text(t) && t@ == text
}

/// Giving a host the library's server starts it as it should be started, for the
/// repository it is for, keeps what a user set for it, such as its environment,
/// and touches no other server and no other part of the document.
pub proof fn law_server_is_added_beside_others(
    shape: crate::servers::McpConfigShape,
    entry: crate::servers::McpEntry,
    before: Json,
    after: Json,
)
    requires
        crate::servers::served(shape, entry, before, after),
    ensures
        ({
            let (b, a) = (before->Object_0@, after->Object_0@);
            let (had, has) = (inner(b, shape.servers_key@), inner(a, shape.servers_key@));
            let (was, own) = (inner(had, entry.key@), inner(has, entry.key@));
            let args = if shape.command_as_array {
                listed(own, "command"@).skip(1)
            } else {
                listed(own, "args"@)
            };
            &&& forall|name: Seq<char>|
                name != entry.key@ ==> #[trigger] field(has, name) == field(had, name)
            &&& field(own, "env"@) == field(was, "env"@)
            &&& forall|key: Seq<char>|
                key != shape.servers_key@ && key != "$schema"@ ==> #[trigger] field(a, key) == field(
                    b,
                    key,
                )
            &&& if shape.command_as_array {
                listed(own, "command"@).len() > 0 && says(
                    listed(own, "command"@)[0],
                    entry.command@,
                )
            } else {
                field(own, "command"@) matches Some(c) && says(c, entry.command@)
            }
            &&& args.len() == if entry.repo is Some { 3nat } else { 1 }
            &&& says(args[0], "mcp"@)
            &&& entry.repo matches Some(repo) ==> says(args[1], "--repo"@) && says(args[2], repo@)
        }),
{
    reveal_strlit("env");
    reveal_strlit("command");
    reveal_strlit("args");
    reveal_strlit("type");
    reveal_strlit("enabled");
    reveal_strlit("cwd");
    assert("env"@.len() == 3 && "cwd"@.len() == 3 && "command"@.len() == 7 && "args"@.len() == 4
        && "type"@.len() == 4 && "enabled"@.len() == 7);
    assert("env"@[0] != "cwd"@[0]);
}

} // verus!
