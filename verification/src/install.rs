//! Wiring a host's hooks into a repository. The file that a host reads is
//! merged into, never replaced: what the library wrote earlier is renewed,
//! whatever else is there stays.
use vstd::prelude::*;
use crate::hook::{event_arg, HookEvent};
use crate::json::{field, find_field, get, member, set_field, take_field, Json};
use crate::product::NAME;
use crate::text::{begins, chars_of, opt_str, text_begins, text_eq, text_of};

verus! {

/// The hosts that there is an adapter for. Two of them are one maker's: the one
/// for terminals and the one for desktops.
#[derive(Clone, Copy, Debug, PartialEq, Eq, Structural)]
pub enum Host {
    Code,
    Codex,
    Cursor,
    AgentsMd,
    Desktop,
    VsCode,
    OpenCode,
}

/// The name of a host, given the maker of the two that are named after theirs.
pub open spec fn host_name(host: Host, maker: Seq<char>) -> Seq<char> {
    match host {
        Host::Code => maker + "-code"@,
        Host::Codex => "codex"@,
        Host::Cursor => "cursor"@,
        Host::AgentsMd => "agents-md"@,
        Host::Desktop => maker + "-desktop"@,
        Host::VsCode => "vscode"@,
        Host::OpenCode => "opencode"@,
    }
}

impl Host {
    /// Every host.
    pub const ALL: [Host; 7] = [
        Host::Code,
        Host::Codex,
        Host::Cursor,
        Host::AgentsMd,
        Host::Desktop,
        Host::VsCode,
        Host::OpenCode,
    ];

    /// The name of this host, given the maker of the two that are named after
    /// theirs.
    pub fn name(self, maker: &str) -> (r: String)
        ensures
            r@ == host_name(self, maker@),
    {
        match self {
            Host::Code => {
                let mut out = maker.to_owned();
                out.append("-code");
                out
            },
            Host::Codex => "codex".to_owned(),
            Host::Cursor => "cursor".to_owned(),
            Host::AgentsMd => "agents-md".to_owned(),
            Host::Desktop => {
                let mut out = maker.to_owned();
                out.append("-desktop");
                out
            },
            Host::VsCode => "vscode".to_owned(),
            Host::OpenCode => "opencode".to_owned(),
        }
    }

    /// The host of a name.
    pub fn parse(name: &str, maker: &str) -> (r: Option<Host>)
        ensures
            match r {
                Some(host) => name@ == host_name(host, maker@),
                None => forall|host: Host| name@ != #[trigger] host_name(host, maker@),
            },
    {
        if text_eq(name, "codex") {
            Some(Host::Codex)
        } else if text_eq(name, "cursor") {
            Some(Host::Cursor)
        } else if text_eq(name, "agents-md") {
            Some(Host::AgentsMd)
        } else if text_eq(name, "vscode") {
            Some(Host::VsCode)
        } else if text_eq(name, "opencode") {
            Some(Host::OpenCode)
        } else if text_eq(name, Host::Code.name(maker).as_str()) {
            Some(Host::Code)
        } else if text_eq(name, Host::Desktop.name(maker).as_str()) {
            Some(Host::Desktop)
        } else {
            None
        }
    }
}

/// The tools whose use changes the tree, as a pattern.
pub const MUTATING_TOOLS: &'static str = "Edit|Write|MultiEdit|NotebookEdit|Bash|apply_patch";

/// How the variable begins that tells a hook its host.
pub const HOST_VARIABLE: &'static str = "ACYCLIC_HOST=";

/// What follows the first space of a text.
pub open spec fn after_space(s: Seq<char>) -> Option<Seq<char>>
    decreases s.len(),
{
    if s.len() == 0 {
        None
    } else if s[0] == ' ' {
        Some(s.skip(1))
    } else {
        after_space(s.skip(1))
    }
}

/// A command without the variable that tells a hook its host.
pub open spec fn bare_command(command: Seq<char>) -> Seq<char> {
    if begins(command, HOST_VARIABLE@) {
        match after_space(command.skip(HOST_VARIABLE@.len() as int)) {
            Some(rest) => rest,
            None => command,
        }
    } else {
        command
    }
}

/// Whether a command runs one of the library's hooks. One that only mentions
/// them in an argument does not.
pub open spec fn runs_hook(command: Seq<char>) -> bool {
    let bare = bare_command(command);
    bare == NAME@ + " hook"@ || begins(bare, NAME@ + " hook "@)
}

/// The command that runs a hook for a host. The host that hooks serve unless told
/// otherwise is not told.
pub open spec fn hook_command(host: Option<Seq<char>>, event: HookEvent) -> Seq<char> {
    match host {
        None => NAME@ + " hook "@ + event_arg(event),
        Some(host) => HOST_VARIABLE@ + host + " "@ + NAME@ + " hook "@ + event_arg(event),
    }
}

/// The command that runs a hook for a host.
pub fn command_for(host: Option<&str>, event: HookEvent) -> (r: String)
    ensures
        r@ == hook_command(opt_str(host), event),
{
    let mut out = String::new();
    if let Some(host) = host {
        out.append(HOST_VARIABLE);
        out.append(host);
        out.append(" ");
    }
    out.append(NAME);
    out.append(" hook ");
    out.append(event.as_arg());
    assert(out@ =~= hook_command(opt_str(host), event));
    out
}

/// What follows the first space from a position.
fn space_from(chars: &Vec<char>, from: usize) -> (r: Option<usize>)
    requires
        from <= chars@.len(),
    ensures
        match r {
            Some(i) => from <= i < chars@.len() && after_space(chars@.skip(from as int)) == Some(
                chars@.skip(i + 1),
            ),
            None => after_space(chars@.skip(from as int)) is None,
        },
{
    let mut i: usize = from;
    while i < chars.len()
        invariant
            from <= i <= chars@.len(),
            after_space(chars@.skip(from as int)) == after_space(chars@.skip(i as int)),
        decreases chars.len() - i,
    {
        assert(chars@.skip(i as int).skip(1) =~= chars@.skip(i + 1));
        if chars[i] == ' ' {
            return Some(i);
        }
        i += 1;
    }
    None
}

/// Whether a command runs one of the library's hooks.
pub fn is_our_command(command: &str) -> (r: bool)
    ensures
        r == runs_hook(command@),
{
    let chars = chars_of(command);
    let size: usize = chars.len();
    let mut bare = command.to_owned();
    if text_begins(command, HOST_VARIABLE) {
        let from: usize = chars_of(HOST_VARIABLE).len();
        match space_from(&chars, from) {
            Some(i) => {
                bare = text_of(vstd::slice::slice_subrange(chars.as_slice(), i + 1, size));
                assert(bare@ =~= chars@.skip(i + 1));
            },
            None => {},
        }
    }
    assert(bare@ == bare_command(command@));
    let mut call = NAME.to_owned();
    call.append(" hook");
    let mut lead = NAME.to_owned();
    lead.append(" hook ");
    text_eq(bare.as_str(), call.as_str()) || text_begins(bare.as_str(), lead.as_str())
}

/// The command that an adapter writes is one that it recognizes as its own, for
/// every host whose name has no space.
pub proof fn law_own_commands_are_recognized(host: Option<Seq<char>>, event: HookEvent)
    requires
        host matches Some(h) ==> !h.contains(' '),
    ensures
        runs_hook(hook_command(host, event)),
{
    reveal_strlit("ACYCLIC_HOST=");
    reveal_strlit("acyclic");
    reveal_strlit(" hook ");
    reveal_strlit(" ");
    let lead = NAME@ + " hook "@;
    let tail = lead + event_arg(event);
    let command = hook_command(host, event);
    if host is None {
        assert(command =~= tail);
        assert(command[0] == 'a');
        assert(!begins(command, HOST_VARIABLE@)) by {
            if begins(command, HOST_VARIABLE@) {
                assert(command.subrange(0, HOST_VARIABLE@.len() as int)[0] == HOST_VARIABLE@[0]);
            }
        }
        assert(command.subrange(0, lead.len() as int) =~= lead);
    } else {
        let h = host->0;
        assert(command =~= HOST_VARIABLE@ + (h + " "@ + tail));
        assert(command.subrange(0, HOST_VARIABLE@.len() as int) =~= HOST_VARIABLE@);
        assert(command.skip(HOST_VARIABLE@.len() as int) =~= h + seq![' '] + tail);
        lemma_after_space(h, tail);
        assert(tail.subrange(0, lead.len() as int) =~= lead);
    }
}

proof fn lemma_after_space(a: Seq<char>, b: Seq<char>)
    requires
        !a.contains(' '),
    ensures
        after_space(a + seq![' '] + b) == Some(b),
    decreases a.len(),
{
    let s = a + seq![' '] + b;
    if a.len() == 0 {
        assert(s.skip(1) =~= b);
    } else {
        assert(s[0] == a[0]);
        assert(a.contains(a[0]));
        assert(!a.skip(1).contains(' ')) by {
            if a.skip(1).contains(' ') {
                let i = a.skip(1).index_of(' ');
                assert(a[i + 1] == ' ');
            }
        }
        lemma_after_space(a.skip(1), b);
        assert(s.skip(1) =~= a.skip(1) + seq![' '] + b);
    }
}

/// How a host writes the entries of an event: a list of hooks inside, or the
/// command itself.
#[derive(Clone, Copy, Debug, PartialEq, Eq, Structural)]
pub enum EntryShape {
    Nested,
    Flat,
}

/// Whether a value is a given text.
pub open spec fn is_text(json: Option<Json>, text: Seq<char>) -> bool {
    json matches Some(Json::Text(t)) && t@ == text
}

/// Whether a value holds a command that runs one of the library's hooks.
pub open spec fn holds_our_command(json: Json) -> bool {
    member(json, "command"@) matches Some(Json::Text(c)) && runs_hook(c@)
}

/// Whether an entry is the library's own.
pub open spec fn ours(shape: EntryShape, entry: Json) -> bool {
    match shape {
        EntryShape::Flat => holds_our_command(entry),
        EntryShape::Nested => member(entry, "hooks"@) matches Some(Json::List(hooks)) && exists|
            i: int,
        |
            0 <= i < hooks@.len() && holds_our_command(#[trigger] hooks@[i]),
    }
}

/// Whether an entry is somebody else's.
pub open spec fn not_ours(shape: EntryShape) -> spec_fn(Json) -> bool {
    |e: Json| !ours(shape, e)
}

/// Whether an entry of one command is the library's own.
pub fn is_our_cursor_entry(entry: &Json) -> (r: bool)
    ensures
        r == ours(EntryShape::Flat, *entry),
{
    match get(entry, "command") {
        Some(Json::Text(c)) => is_our_command(c.as_str()),
        _ => false,
    }
}

/// Whether an entry with hooks inside is the library's own: one of its commands
/// runs one of the library's hooks.
pub fn is_ours(entry: &Json) -> (r: bool)
    ensures
        r == ours(EntryShape::Nested, *entry),
{
    match get(entry, "hooks") {
        Some(Json::List(hooks)) => {
            let mut i: usize = 0;
            while i < hooks.len()
                invariant
                    i <= hooks@.len(),
                    member(*entry, "hooks"@) == Some(Json::List(*hooks)),
                    forall|j: int| 0 <= j < i ==> !holds_our_command(#[trigger] hooks@[j]),
                decreases hooks.len() - i,
            {
                if is_our_cursor_entry(&hooks[i]) {
                    assert(member(*entry, "hooks"@) matches Some(Json::List(h))
                        && holds_our_command(h@[i as int]));
                    return true;
                }
                i += 1;
            }
            false
        },
        _ => false,
    }
}

/// Whether an entry is the one that the library writes for a command: exactly
/// these fields.
pub open spec fn is_entry(shape: EntryShape, entry: Json, tools: bool, command: Seq<char>) -> bool {
    match shape {
        EntryShape::Flat => is_call(entry, command),
        EntryShape::Nested => {
            &&& entry matches Json::Object(fields) && fields@.len() == if tools { 2nat } else { 1 }
            &&& member(entry, "hooks"@) matches Some(Json::List(hooks)) && hooks@.len() == 1
                && is_call(hooks@[0], command)
            &&& if tools {
                is_text(member(entry, "matcher"@), MUTATING_TOOLS@)
            } else {
                member(entry, "matcher"@) is None
            }
        },
    }
}

/// Whether a value is the call of a command: exactly these fields.
pub open spec fn is_call(json: Json, command: Seq<char>) -> bool {
    &&& json matches Json::Object(fields) && fields@.len() == 2
    &&& is_text(member(json, "type"@), "command"@)
    &&& is_text(member(json, "command"@), command)
}

fn call_of(command: String) -> (r: Json)
    ensures
        is_call(r, command@),
{
    let mut fields: Vec<(String, Json)> = Vec::new();
    fields.push(("type".to_owned(), Json::Text("command".to_owned())));
    fields.push(("command".to_owned(), Json::Text(command)));
    proof {
        reveal_strlit("type");
        reveal_strlit("command");
        assert("type"@.len() != "command"@.len());
        reveal_with_fuel(field, 3);
        assert(fields@.skip(1)[0] == fields@[1]);
    }
    Json::Object(fields)
}

fn entry_of(shape: EntryShape, tools: bool, command: String) -> (r: Json)
    ensures
        is_entry(shape, r, tools, command@),
{
    let call = call_of(command);
    match shape {
        EntryShape::Flat => call,
        EntryShape::Nested => {
            let mut hooks: Vec<Json> = Vec::new();
            hooks.push(call);
            let mut fields: Vec<(String, Json)> = Vec::new();
            fields.push(("hooks".to_owned(), Json::List(hooks)));
            if tools {
                fields.push(("matcher".to_owned(), Json::Text(MUTATING_TOOLS.to_owned())));
            }
            proof {
                reveal_strlit("hooks");
                reveal_strlit("matcher");
                assert("hooks"@.len() != "matcher"@.len());
                reveal_with_fuel(field, 3);
                if tools {
                    assert(fields@.skip(1)[0] == fields@[1]);
                }
            }
            Json::Object(fields)
        },
    }
}

/// What the library writes is what it recognizes as its own.
pub proof fn law_own_entries_are_recognized(
    shape: EntryShape,
    entry: Json,
    tools: bool,
    host: Option<Seq<char>>,
    event: HookEvent,
)
    requires
        host matches Some(h) ==> !h.contains(' '),
        is_entry(shape, entry, tools, hook_command(host, event)),
    ensures
        ours(shape, entry),
{
    law_own_commands_are_recognized(host, event);
    match shape {
        EntryShape::Flat => {},
        EntryShape::Nested => {
            let hooks = member(entry, "hooks"@)->0->List_0;
            assert(holds_our_command(hooks@[0]));
        },
    }
}

/// One event that a host runs hooks at: its name there, whether it is narrowed
/// to tools that change the tree, and the hook that it runs.
#[derive(Clone, Copy, Debug)]
pub struct HookRow {
    pub event: &'static str,
    pub tools: bool,
    pub hook: HookEvent,
}

/// The events of hosts that nest their hooks.
pub fn nested_events() -> (r: Vec<HookRow>)
    ensures
        r@ == nested_rows(),
{
    let mut rows: Vec<HookRow> = Vec::new();
    rows.push(HookRow { event: "PreToolUse", tools: true, hook: HookEvent::PreTool });
    rows.push(HookRow { event: "PostToolUse", tools: true, hook: HookEvent::PostTool });
    rows.push(HookRow { event: "UserPromptSubmit", tools: false, hook: HookEvent::UserPrompt });
    rows.push(HookRow { event: "SessionStart", tools: false, hook: HookEvent::SessionStart });
    rows.push(HookRow { event: "SessionEnd", tools: false, hook: HookEvent::SessionEnd });
    rows
}

/// The events of hosts that nest their hooks.
pub open spec fn nested_rows() -> Seq<HookRow> {
    seq![
        HookRow { event: "PreToolUse", tools: true, hook: HookEvent::PreTool },
        HookRow { event: "PostToolUse", tools: true, hook: HookEvent::PostTool },
        HookRow { event: "UserPromptSubmit", tools: false, hook: HookEvent::UserPrompt },
        HookRow { event: "SessionStart", tools: false, hook: HookEvent::SessionStart },
        HookRow { event: "SessionEnd", tools: false, hook: HookEvent::SessionEnd },
    ]
}

/// The events of the host whose entries are flat.
pub fn flat_events() -> (r: Vec<HookRow>)
    ensures
        r@ == flat_rows(),
{
    let mut rows: Vec<HookRow> = Vec::new();
    rows.push(HookRow { event: "sessionStart", tools: false, hook: HookEvent::SessionStart });
    rows.push(HookRow { event: "sessionEnd", tools: false, hook: HookEvent::SessionEnd });
    rows.push(HookRow { event: "beforeShellExecution", tools: false, hook: HookEvent::PreTool });
    rows.push(HookRow { event: "afterShellExecution", tools: false, hook: HookEvent::PostTool });
    rows.push(HookRow { event: "afterFileEdit", tools: false, hook: HookEvent::PostTool });
    rows.push(HookRow { event: "beforeSubmitPrompt", tools: false, hook: HookEvent::UserPrompt });
    rows
}

/// The events of the host whose entries are flat.
pub open spec fn flat_rows() -> Seq<HookRow> {
    seq![
        HookRow { event: "sessionStart", tools: false, hook: HookEvent::SessionStart },
        HookRow { event: "sessionEnd", tools: false, hook: HookEvent::SessionEnd },
        HookRow { event: "beforeShellExecution", tools: false, hook: HookEvent::PreTool },
        HookRow { event: "afterShellExecution", tools: false, hook: HookEvent::PostTool },
        HookRow { event: "afterFileEdit", tools: false, hook: HookEvent::PostTool },
        HookRow { event: "beforeSubmitPrompt", tools: false, hook: HookEvent::UserPrompt },
    ]
}

/// Whether no event occurs twice.
pub open spec fn distinct_rows(rows: Seq<HookRow>) -> bool {
    forall|i: int, j: int|
        0 <= i < j < rows.len() ==> (#[trigger] rows[i]).event@ != (#[trigger] rows[j]).event@
}

/// The events of a host are told apart by their names.
proof fn lemma_rows_differ()
    ensures
        distinct_rows(nested_rows()),
        distinct_rows(flat_rows()),
{
    reveal_strlit("PreToolUse");
    reveal_strlit("PostToolUse");
    reveal_strlit("UserPromptSubmit");
    reveal_strlit("SessionStart");
    reveal_strlit("SessionEnd");
    reveal_strlit("sessionStart");
    reveal_strlit("sessionEnd");
    reveal_strlit("beforeShellExecution");
    reveal_strlit("afterShellExecution");
    reveal_strlit("afterFileEdit");
    reveal_strlit("beforeSubmitPrompt");
    assert forall|i: int, j: int| 0 <= i < j < nested_rows().len() implies (
    #[trigger] nested_rows()[i]).event@ != (#[trigger] nested_rows()[j]).event@ by {
        let a = nested_rows()[i].event@;
        let b = nested_rows()[j].event@;
        assert(a.len() != b.len() || a[0] != b[0]);
    }
    assert forall|i: int, j: int| 0 <= i < j < flat_rows().len() implies (
    #[trigger] flat_rows()[i]).event@ != (#[trigger] flat_rows()[j]).event@ by {
        assert(flat_rows()[i].event@.len() != flat_rows()[j].event@.len());
    }
}

/// Whether a key is the name of one of the first events.
pub open spec fn among_rows(rows: Seq<HookRow>, n: int, key: Seq<char>) -> bool {
    exists|i: int| 0 <= i < n && (#[trigger] rows[i]).event@ == key
}

/// The entries of an event.
pub open spec fn entries_of(fields: Seq<(String, Json)>, event: Seq<char>) -> Seq<Json> {
    match field(fields, event) {
        Some(Json::List(l)) => l@,
        _ => Seq::empty(),
    }
}

/// Whether an event has entries or none, but nothing else in their place.
pub open spec fn takes_entries(fields: Seq<(String, Json)>, event: Seq<char>) -> bool {
    match field(fields, event) {
        None => true,
        Some(Json::List(l)) => true,
        _ => false,
    }
}

/// Whether an event has been given the library's entry: everybody else's
/// entries as they were, and one of the library's behind them.
pub open spec fn given(
    shape: EntryShape,
    before: Seq<(String, Json)>,
    after: Seq<(String, Json)>,
    row: HookRow,
    host: Option<Seq<char>>,
) -> bool {
    &&& takes_entries(before, row.event@)
    &&& field(after, row.event@) matches Some(Json::List(l)) && l@.len() > 0 && l@.drop_last()
        == entries_of(before, row.event@).filter(not_ours(shape)) && is_entry(
        shape,
        l@.last(),
        row.tools,
        hook_command(host, row.hook),
    )
}

/// Whether the first events have been given the library's entries, and nothing
/// else has changed.
pub open spec fn given_all(
    shape: EntryShape,
    before: Seq<(String, Json)>,
    after: Seq<(String, Json)>,
    rows: Seq<HookRow>,
    n: int,
    host: Option<Seq<char>>,
) -> bool {
    &&& forall|i: int| 0 <= i < n ==> given(shape, before, after, #[trigger] rows[i], host)
    &&& forall|key: Seq<char>|
        !among_rows(rows, n, key) ==> #[trigger] field(after, key) == field(before, key)
}

/// Keeps everybody else's entries.
fn retain_others(shape: EntryShape, entries: Vec<Json>) -> (r: Vec<Json>)
    ensures
        r@ == entries@.filter(not_ours(shape)),
{
    let mut entries = entries;
    let ghost all = entries@;
    let ghost keep = not_ours(shape);
    let mut back: Vec<Json> = Vec::new();
    proof {
        assert(all.take(all.len() as int) =~= all);
        assert(all.filter(keep) + back@.reverse() =~= all.filter(keep));
    }
    while entries.len() > 0
        invariant
            keep == not_ours(shape),
            entries@ == all.take(entries@.len() as int),
            entries@.len() <= all.len(),
            entries@.filter(keep) + back@.reverse() == all.filter(keep),
        decreases entries.len(),
    {
        let ghost before = entries@;
        let ghost back0 = back@;
        proof {
            reveal(Seq::filter);
            assert(before.drop_last() =~= all.take(before.len() - 1));
        }
        match entries.pop() {
            Some(entry) => {
                let mine = match shape {
                    EntryShape::Flat => is_our_cursor_entry(&entry),
                    EntryShape::Nested => is_ours(&entry),
                };
                assert(entries@ =~= before.drop_last());
                if !mine {
                    back.push(entry);
                    assert(back@.reverse() =~= seq![entry] + back0.reverse());
                    assert(entries@.filter(keep) + back@.reverse() =~= entries@.filter(keep).push(
                        entry,
                    ) + back0.reverse());
                }
            },
            None => {},
        }
    }
    proof {
        reveal(Seq::filter);
        assert(entries@.filter(keep) =~= Seq::<Json>::empty());
    }
    let r = crate::vecs::reversed(back);
    assert(r@ =~= all.filter(keep));
    r
}

/// What is said of an event whose entries are not a list.
pub open spec fn not_array_text(label: Seq<char>, event: Seq<char>) -> Seq<char> {
    label + "."@ + event + " is not an array"@
}

/// Whether giving events the library's entries fails at one: the first that has
/// something else than a list.
pub open spec fn refused_at(
    before: Seq<(String, Json)>,
    rows: Seq<HookRow>,
    label: Seq<char>,
    i: int,
    message: Seq<char>,
) -> bool {
    &&& 0 <= i < rows.len()
    &&& !takes_entries(before, rows[i].event@)
    &&& forall|j: int| 0 <= j < i ==> takes_entries(before, (#[trigger] rows[j]).event@)
    &&& message == not_array_text(label, rows[i].event@)
}

/// Whether giving events the library's entries fails with a message.
pub open spec fn refused(
    before: Seq<(String, Json)>,
    rows: Seq<HookRow>,
    label: Seq<char>,
    message: Seq<char>,
) -> bool {
    exists|i: int| #[trigger] refused_at(before, rows, label, i, message)
}

/// Gives each event of a host the library's entry.
fn merge_event_hooks(
    fields: &mut Vec<(String, Json)>,
    shape: EntryShape,
    rows: &Vec<HookRow>,
    label: &str,
    host: Option<&str>,
) -> (r: Result<(), String>)
    requires
        distinct_rows(rows@),
    ensures
        r is Ok ==> given_all(
            shape,
            old(fields)@,
            final(fields)@,
            rows@,
            rows@.len() as int,
            opt_str(host),
        ),
        r matches Err(message) ==> refused(old(fields)@, rows@, label@, message@),
{
    let mut i: usize = 0;
    while i < rows.len()
        invariant
            i <= rows@.len(),
            distinct_rows(rows@),
            given_all(shape, old(fields)@, fields@, rows@, i as int, opt_str(host)),
        decreases rows.len() - i,
    {
        let row = rows[i];
        let ghost before = fields@;
        proof {
            assert(!among_rows(rows@, i as int, row.event@)) by {
                if among_rows(rows@, i as int, row.event@) {
                    let j = choose|j: int| 0 <= j < i && (#[trigger] rows@[j]).event@ == row.event@;
                    assert(rows@[j].event@ != rows@[i as int].event@);
                }
            }
        }
        let entries = match take_field(fields, row.event) {
            None => Vec::new(),
            Some(Json::List(l)) => l,
            Some(_) => {
                let mut message = label.to_owned();
                message.append(".");
                message.append(row.event);
                message.append(" is not an array");
                proof {
                    assert forall|j: int| 0 <= j < i implies takes_entries(
                        old(fields)@,
                        (#[trigger] rows@[j]).event@,
                    ) by {
                        assert(given(shape, old(fields)@, before, rows@[j], opt_str(host)));
                    }
                    assert(refused_at(old(fields)@, rows@, label@, i as int, message@));
                    assert(refused(old(fields)@, rows@, label@, message@));
                }
                return Err(message);
            },
        };
        assert(entries@ =~= entries_of(old(fields)@, row.event@));
        let mut kept = retain_others(shape, entries);
        let entry = entry_of(shape, row.tools, command_for(host, row.hook));
        let ghost others = kept@;
        kept.push(entry);
        assert(kept@.drop_last() =~= others);
        set_field(fields, row.event, Json::List(kept));
        proof {
            assert forall|j: int| 0 <= j < i + 1 implies given(
                shape,
                old(fields)@,
                fields@,
                #[trigger] rows@[j],
                opt_str(host),
            ) by {
                if j < i {
                    assert(given(shape, old(fields)@, before, rows@[j], opt_str(host)));
                    assert(rows@[j].event@ != rows@[i as int].event@);
                    assert(field(fields@, rows@[j].event@) == field(before, rows@[j].event@));
                }
            }
            assert forall|key: Seq<char>| !among_rows(
                rows@,
                i + 1,
                key,
            ) implies #[trigger] field(fields@, key) == field(old(fields)@, key) by {
                assert(rows@[i as int].event@ != key);
                assert(!among_rows(rows@, i as int, key));
                assert(field(fields@, key) == field(before, key));
            }
        }
        i += 1;
    }
    Ok(())
}

/// Whether the entries of an event at the top of a document have been cleared of
/// the library's own; a list that is then empty is gone.
pub open spec fn cleared(
    before: Seq<(String, Json)>,
    after: Seq<(String, Json)>,
    event: Seq<char>,
) -> bool {
    match field(before, event) {
        Some(Json::List(l)) => {
            let kept = l@.filter(not_ours(EntryShape::Nested));
            if kept.len() == 0 {
                field(after, event) is None
            } else {
                field(after, event) matches Some(Json::List(k)) && k@ == kept
            }
        },
        other => field(after, event) == other,
    }
}

/// Whether the first events at the top of a document have been cleared, and
/// nothing else has changed.
pub open spec fn cleared_all(
    before: Seq<(String, Json)>,
    after: Seq<(String, Json)>,
    rows: Seq<HookRow>,
    n: int,
) -> bool {
    &&& forall|i: int| 0 <= i < n ==> cleared(before, after, (#[trigger] rows[i]).event@)
    &&& forall|key: Seq<char>|
        !among_rows(rows, n, key) ==> #[trigger] field(after, key) == field(before, key)
}

/// Clears the library's entries from the top of a document, where one host's
/// events once stood and are ignored. What a user put there is left alone.
pub fn remove_flat_codex_hooks(root: &mut Vec<(String, Json)>)
    ensures
        cleared_all(old(root)@, final(root)@, nested_rows(), nested_rows().len() as int),
{
    let rows = nested_events();
    proof {
        lemma_rows_differ();
    }
    let mut i: usize = 0;
    while i < rows.len()
        invariant
            i <= rows@.len(),
            rows@ == nested_rows(),
            distinct_rows(rows@),
            cleared_all(old(root)@, root@, rows@, i as int),
        decreases rows.len() - i,
    {
        let row = rows[i];
        let ghost before = root@;
        proof {
            assert(!among_rows(rows@, i as int, row.event@)) by {
                if among_rows(rows@, i as int, row.event@) {
                    let j = choose|j: int| 0 <= j < i && (#[trigger] rows@[j]).event@ == row.event@;
                    assert(rows@[j].event@ != rows@[i as int].event@);
                }
            }
        }
        match take_field(root, row.event) {
            None => {},
            Some(Json::List(l)) => {
                let kept = retain_others(EntryShape::Nested, l);
                if kept.len() > 0 {
                    set_field(root, row.event, Json::List(kept));
                }
            },
            Some(other) => {
                set_field(root, row.event, other);
            },
        }
        proof {
            assert forall|key: Seq<char>| key != row.event@ implies #[trigger] field(root@, key)
                == field(before, key) by {}
            assert forall|j: int| 0 <= j < i + 1 implies cleared(
                old(root)@,
                root@,
                (#[trigger] rows@[j]).event@,
            ) by {
                if j < i {
                    assert(cleared(old(root)@, before, rows@[j].event@));
                    assert(rows@[j].event@ != rows@[i as int].event@);
                    assert(field(root@, rows@[j].event@) == field(before, rows@[j].event@));
                }
            }
            assert forall|key: Seq<char>| !among_rows(
                rows@,
                i + 1,
                key,
            ) implies #[trigger] field(root@, key) == field(old(root)@, key) by {
                assert(rows@[i as int].event@ != key);
                assert(!among_rows(rows@, i as int, key));
            }
        }
        i += 1;
    }
}

/// The fields of an object inside an object; none where there is no such
/// object.
pub open spec fn inner(fields: Seq<(String, Json)>, key: Seq<char>) -> Seq<(String, Json)> {
    match field(fields, key) {
        Some(Json::Object(f)) => f@,
        _ => Seq::empty(),
    }
}

/// Whether a field is an object or missing.
pub open spec fn takes_object(fields: Seq<(String, Json)>, key: Seq<char>) -> bool {
    match field(fields, key) {
        None => true,
        Some(Json::Object(f)) => true,
        _ => false,
    }
}

/// Whether a document has been given the library's hooks: each event one entry
/// of the library's behind everybody else's, and everything else as it was, but
/// for the top of the document of the host that once had its events there.
pub open spec fn hooked(before: Json, after: Json, host: Option<Seq<char>>) -> bool {
    &&& before matches Json::Object(b) && after matches Json::Object(a) && {
        &&& takes_object(b@, "hooks"@)
        &&& field(a@, "hooks"@) matches Some(Json::Object(h)) && given_all(
            EntryShape::Nested,
            inner(b@, "hooks"@),
            h@,
            nested_rows(),
            nested_rows().len() as int,
            host,
        )
        &&& forall|key: Seq<char>|
            key != "hooks"@ ==> if host == Some("codex"@) && among_rows(
                nested_rows(),
                nested_rows().len() as int,
                key,
            ) {
                cleared(b@, a@, key)
            } else {
                #[trigger] field(a@, key) == field(b@, key)
            }
    }
}

/// Whether a message says why a document cannot be given the library's hooks.
pub open spec fn not_hooked(before: Json, path: Seq<char>, message: Seq<char>) -> bool {
    match before {
        Json::Object(b) => if takes_object(b@, "hooks"@) {
            refused(inner(b@, "hooks"@), nested_rows(), "hooks"@, message)
        } else {
            message == "hooks is not an object"@
        },
        _ => message == path + " is not an object"@,
    }
}

/// Gives a document the library's hooks for a host.
pub fn merge_hooks(root: Json, path: &str, host: Option<&str>) -> (r: Result<Json, String>)
    ensures
        match r {
            Ok(after) => hooked(root, after, opt_str(host)),
            Err(message) => not_hooked(root, path@, message@),
        },
{
    let mut fields = match root {
        Json::Object(fields) => fields,
        _ => {
            let mut message = path.to_owned();
            message.append(" is not an object");
            return Err(message);
        },
    };
    let ghost before = fields@;
    proof {
        lemma_rows_differ();
        reveal_strlit("hooks");
        reveal_strlit("PreToolUse");
        reveal_strlit("PostToolUse");
        reveal_strlit("UserPromptSubmit");
        reveal_strlit("SessionStart");
        reveal_strlit("SessionEnd");
        assert forall|i: int| 0 <= i < nested_rows().len() implies (
        #[trigger] nested_rows()[i]).event@ != "hooks"@ by {
            assert(nested_rows()[i].event@.len() != "hooks"@.len());
        }
        assert(!among_rows(nested_rows(), nested_rows().len() as int, "hooks"@));
    }
    let flat = match host {
        Some(name) => text_eq(name, "codex"),
        None => false,
    };
    if flat {
        remove_flat_codex_hooks(&mut fields);
    }
    let ghost middle = fields@;
    assert(field(middle, "hooks"@) == field(before, "hooks"@));
    let mut hooks = match take_field(&mut fields, "hooks") {
        None => Vec::new(),
        Some(Json::Object(f)) => f,
        Some(_) => {
            return Err("hooks is not an object".to_owned());
        },
    };
    assert(hooks@ =~= inner(before, "hooks"@));
    let rows = nested_events();
    match merge_event_hooks(&mut hooks, EntryShape::Nested, &rows, "hooks", host) {
        Ok(_) => {},
        Err(message) => {
            return Err(message);
        },
    }
    set_field(&mut fields, "hooks", Json::Object(hooks));
    proof {
        assert forall|key: Seq<char>| key != "hooks"@ implies #[trigger] field(fields@, key)
            == field(middle, key) by {}
        assert forall|key: Seq<char>| key != "hooks"@ && opt_str(host) == Some("codex"@) && among_rows(
            nested_rows(),
            nested_rows().len() as int,
            key,
        ) implies cleared(before, fields@, key) by {
            let i = choose|i: int|
                0 <= i < nested_rows().len() && (#[trigger] nested_rows()[i]).event@ == key;
            assert(cleared(before, middle, nested_rows()[i].event@));
            assert(field(fields@, key) == field(middle, key));
        }
    }
    Ok(Json::Object(fields))
}

/// Whether a document has been given the library's hooks in the flat shape,
/// with a version where it had none.
pub open spec fn flat_hooked(before: Json, after: Json) -> bool {
    &&& before matches Json::Object(b) && after matches Json::Object(a) && {
        &&& takes_object(b@, "hooks"@)
        &&& field(a@, "hooks"@) matches Some(Json::Object(h)) && given_all(
            EntryShape::Flat,
            inner(b@, "hooks"@),
            h@,
            flat_rows(),
            flat_rows().len() as int,
            Some("cursor"@),
        )
        &&& field(a@, "version"@) == match field(b@, "version"@) {
            Some(version) => Some(version),
            None => Some(Json::Whole(1)),
        }
        &&& forall|key: Seq<char>|
            key != "hooks"@ && key != "version"@ ==> #[trigger] field(a@, key) == field(b@, key)
    }
}

/// Whether a message says why a document cannot be given the library's hooks in
/// the flat shape.
pub open spec fn not_flat_hooked(before: Json, message: Seq<char>) -> bool {
    match before {
        Json::Object(b) => if takes_object(b@, "hooks"@) {
            refused(inner(b@, "hooks"@), flat_rows(), "hooks.hooks"@, message)
        } else {
            message == "hooks.hooks is not an object"@
        },
        _ => message == "hooks.json is not an object"@,
    }
}

/// Gives a document the library's hooks in the flat shape.
pub fn merge_cursor_hooks(root: Json) -> (r: Result<Json, String>)
    ensures
        match r {
            Ok(after) => flat_hooked(root, after),
            Err(message) => not_flat_hooked(root, message@),
        },
{
    let mut fields = match root {
        Json::Object(fields) => fields,
        _ => {
            return Err("hooks.json is not an object".to_owned());
        },
    };
    let ghost before = fields@;
    proof {
        lemma_rows_differ();
        reveal_strlit("hooks");
        reveal_strlit("version");
        assert("hooks"@.len() != "version"@.len());
    }
    if find_field(&fields, "version").is_none() {
        set_field(&mut fields, "version", Json::Whole(1));
    }
    let ghost middle = fields@;
    assert forall|key: Seq<char>| key != "version"@ implies #[trigger] field(middle, key) == field(
        before,
        key,
    ) by {}
    let mut hooks = match take_field(&mut fields, "hooks") {
        None => Vec::new(),
        Some(Json::Object(f)) => f,
        Some(_) => {
            assert(field(middle, "hooks"@) == field(before, "hooks"@));
            return Err("hooks.hooks is not an object".to_owned());
        },
    };
    assert(field(middle, "hooks"@) == field(before, "hooks"@));
    assert(hooks@ =~= inner(before, "hooks"@));
    let rows = flat_events();
    match merge_event_hooks(&mut hooks, EntryShape::Flat, &rows, "hooks.hooks", Some("cursor")) {
        Ok(_) => {},
        Err(message) => {
            return Err(message);
        },
    }
    set_field(&mut fields, "hooks", Json::Object(hooks));
    proof {
        assert(field(fields@, "version"@) == field(middle, "version"@));
        assert forall|key: Seq<char>|
            key != "hooks"@ && key != "version"@ implies #[trigger] field(fields@, key) == field(
            before,
            key,
        ) by {
            assert(field(fields@, key) == field(middle, key));
        }
    }
    Ok(Json::Object(fields))
}

/// No two hosts share a name, whoever made the two that are named after their
/// maker: what a name is read as is the host that has it.
pub proof fn law_host_names_are_their_own(a: Host, b: Host, maker: Seq<char>)
    requires
        host_name(a, maker) == host_name(b, maker),
    ensures
        a == b,
{
    reveal_strlit("-code");
    reveal_strlit("codex");
    reveal_strlit("cursor");
    reveal_strlit("agents-md");
    reveal_strlit("-desktop");
    reveal_strlit("vscode");
    reveal_strlit("opencode");
    let (x, y) = (host_name(a, maker), host_name(b, maker));
    let n = x.len() as int;
    assert(x[n - 1] == y[n - 1]);
    assert(x[n - 5] == y[n - 5]);
    assert(x[0] == y[0]);
}

} // verus!
