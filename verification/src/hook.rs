//! The hooks that a host runs around an agent's work. They never fail the
//! agent: an event that is not known, a daemon that is not there and a call
//! that fails all end well, and waits are bounded.
use vstd::prelude::*;
use crate::brief::{brief_text, render};
use crate::client::ConnectError;
use crate::product::NAME;
use crate::proto::{Op, Reply};
use crate::text::{ascii_lower, contains_text, lower, text_contains, text_eq};

verus! {

/// What a host tells of an event.
#[derive(Debug)]
pub struct Payload {
    pub session_id: Option<String>,
    /// What one host sends in place of a session id.
    pub conversation_id: Option<String>,
    pub tool_name: Option<String>,
    pub tool_use_id: Option<String>,
    /// The text of a prompt that was submitted.
    pub prompt: Option<String>,
    /// How a session started: `startup`, `resume`, `clear` or `compact`.
    pub source: Option<String>,
    /// A shell command, in place of the name of a tool.
    pub command: Option<String>,
}

impl Default for Payload {
    fn default() -> (r: Payload)
        ensures
            r.session_id is None,
            r.conversation_id is None,
            r.tool_name is None,
            r.tool_use_id is None,
            r.prompt is None,
            r.source is None,
            r.command is None,
    {
        Payload {
            session_id: None,
            conversation_id: None,
            tool_name: None,
            tool_use_id: None,
            prompt: None,
            source: None,
            command: None,
        }
    }
}

/// The session that a payload belongs to.
pub open spec fn session_of(p: Payload) -> Option<String> {
    if p.session_id is Some { p.session_id } else { p.conversation_id }
}

/// The tool that a payload is about: a bare command is one of the shell.
pub open spec fn is_tool_of(p: Payload, tool: Option<String>) -> bool {
    if p.tool_name is Some {
        tool == p.tool_name
    } else if p.command is Some {
        tool matches Some(t) && t@ == "Bash"@
    } else {
        tool is None
    }
}

impl Payload {
    /// The session that this payload belongs to; the field it came from is
    /// empty afterwards.
    pub fn session(&mut self) -> (r: Option<String>)
        ensures
            r == session_of(*old(self)),
            *final(self) == if old(self).session_id is Some {
                Payload { session_id: None, ..*old(self) }
            } else {
                Payload { conversation_id: None, ..*old(self) }
            },
    {
        match self.session_id.take() {
            Some(id) => Some(id),
            None => self.conversation_id.take(),
        }
    }

    /// The tool that this payload is about; the field it came from is empty
    /// afterwards.
    pub fn tool(&mut self) -> (r: Option<String>)
        ensures
            is_tool_of(*old(self), r),
            *final(self) == if old(self).tool_name is Some {
                Payload { tool_name: None, ..*old(self) }
            } else {
                Payload { command: None, ..*old(self) }
            },
    {
        match self.tool_name.take() {
            Some(name) => Some(name),
            None => match self.command.take() {
                Some(_) => Some("Bash".to_owned()),
                None => None,
            },
        }
    }
}

/// The bound on the wait before a tool runs, in milliseconds. Past it the
/// capture still lands, in the order it was asked for.
pub const PRE_TOOL_WAIT: u64 = 2000;

/// How long the start of a session waits for a daemon that is coming up, in
/// milliseconds: the agent's first turn is behind it.
pub const SESSION_START_WAIT: u64 = 300;

/// The code that a hook ends with, whatever happened.
pub const EXIT_CODE: i32 = 0;

/// The events that hosts run hooks at.
#[derive(Clone, Copy, Debug, PartialEq, Eq, Structural)]
pub enum HookEvent {
    PreTool,
    PostTool,
    UserPrompt,
    SessionStart,
    SessionEnd,
}

/// The name of an event as an argument.
pub open spec fn event_arg(event: HookEvent) -> Seq<char> {
    match event {
        HookEvent::PreTool => "pre-tool"@,
        HookEvent::PostTool => "post-tool"@,
        HookEvent::UserPrompt => "user-prompt"@,
        HookEvent::SessionStart => "session-start"@,
        HookEvent::SessionEnd => "session-end"@,
    }
}

impl HookEvent {
    /// Every event.
    pub const ALL: [HookEvent; 5] = [
        HookEvent::PreTool,
        HookEvent::PostTool,
        HookEvent::UserPrompt,
        HookEvent::SessionStart,
        HookEvent::SessionEnd,
    ];

    /// The name of this event as an argument.
    pub fn as_arg(self) -> (r: &'static str)
        ensures
            r@ == event_arg(self),
    {
        match self {
            HookEvent::PreTool => "pre-tool",
            HookEvent::PostTool => "post-tool",
            HookEvent::UserPrompt => "user-prompt",
            HookEvent::SessionStart => "session-start",
            HookEvent::SessionEnd => "session-end",
        }
    }

    /// The event that an argument names. Settings of another release may name
    /// one that is not known: that is no error.
    pub fn parse(arg: &str) -> (r: Option<HookEvent>)
        ensures
            match r {
                Some(event) => arg@ == event_arg(event),
                None => forall|event: HookEvent| arg@ != #[trigger] event_arg(event),
            },
    {
        if text_eq(arg, "pre-tool") {
            Some(HookEvent::PreTool)
        } else if text_eq(arg, "post-tool") {
            Some(HookEvent::PostTool)
        } else if text_eq(arg, "user-prompt") {
            Some(HookEvent::UserPrompt)
        } else if text_eq(arg, "session-start") {
            Some(HookEvent::SessionStart)
        } else if text_eq(arg, "session-end") {
            Some(HookEvent::SessionEnd)
        } else {
            None
        }
    }
}

/// Every event is the one that its name names.
pub proof fn law_event_names_differ(a: HookEvent, b: HookEvent)
    ensures
        event_arg(a) == event_arg(b) <==> a == b,
{
    reveal_strlit("pre-tool");
    reveal_strlit("post-tool");
    reveal_strlit("user-prompt");
    reveal_strlit("session-start");
    reveal_strlit("session-end");
    if a != b {
        assert(event_arg(a).len() != event_arg(b).len() || event_arg(a)[0] != event_arg(b)[0]
            || event_arg(a)[1] != event_arg(b)[1]);
    }
}

/// Whether a message speaks of a wait that ran out.
pub open spec fn says_timeout(message: Seq<char>) -> bool {
    let low = message.map_values(|c: char| lower(c));
    ||| contains_text(low, "timed out"@)
    ||| contains_text(low, "timeout"@)
    ||| contains_text(low, "would block"@)
}

/// Whether a message speaks of a wait that ran out.
pub fn is_timeout(message: &str) -> (r: bool)
    ensures
        r == says_timeout(message@),
{
    let low = ascii_lower(message);
    text_contains(low.as_str(), "timed out") || text_contains(low.as_str(), "timeout")
        || text_contains(low.as_str(), "would block")
}

/// What is said while the daemon builds its first snapshot.
pub open spec fn starting_text() -> Seq<char> {
    NAME@
        + ": building the first snapshot of this tree in the background; checkpoints start once `"@
        + NAME@ + " status` says ready, and `"@ + NAME@ + " brief` has the previous session.\n"@
}

/// What is said while the daemon builds its first snapshot.
pub fn starting_notice() -> (r: String)
    ensures
        r@ == starting_text(),
{
    let mut out = NAME.to_owned();
    out.append(
        ": building the first snapshot of this tree in the background; checkpoints start once `",
    );
    out.append(NAME);
    out.append(" status` says ready, and `");
    out.append(NAME);
    out.append(" brief` has the previous session.\n");
    out
}

/// How long a hook may wait for a daemon to be started: only the start of a
/// session starts one.
pub fn spawn_wait(event: HookEvent) -> (r: Option<u64>)
    ensures
        r == if event == HookEvent::SessionStart { Some(SESSION_START_WAIT) } else { None },
{
    if event == HookEvent::SessionStart {
        Some(SESSION_START_WAIT)
    } else {
        None
    }
}

/// How long a hook waits for the daemon's answer, where that is bounded.
pub open spec fn wait_of(event: HookEvent) -> Option<u64> {
    match event {
        HookEvent::PreTool => Some(PRE_TOOL_WAIT),
        HookEvent::SessionStart => Some(SESSION_START_WAIT),
        _ => None,
    }
}

/// How long a hook waits for the daemon's answer, where that is bounded.
pub fn deadline(event: HookEvent) -> (r: Option<u64>)
    ensures
        r == wait_of(event),
{
    match event {
        HookEvent::PreTool => Some(PRE_TOOL_WAIT),
        HookEvent::SessionStart => Some(SESSION_START_WAIT),
        _ => None,
    }
}

/// A text, or none of it.
pub open spec fn text_or_empty(o: Option<String>) -> Seq<char> {
    match o {
        Some(t) => t@,
        None => Seq::empty(),
    }
}

fn or_empty(o: Option<String>) -> (r: String)
    ensures
        r@ == text_or_empty(o),
{
    match o {
        Some(t) => t,
        None => String::new(),
    }
}

/// Whether a request is the one of a checkpoint at a tool.
pub open spec fn asks_checkpoint(op: Op, p: Payload, name: Seq<char>, waits: bool) -> bool {
    op matches Op::Checkpoint { kind, session_id, tool_call_id, tool_name, label, wait, durable } && {
        &&& kind@ == name
        &&& session_id == session_of(p)
        &&& tool_call_id == p.tool_use_id
        &&& is_tool_of(p, tool_name)
        &&& label is None
        &&& wait == waits
        &&& !durable
    }
}

/// Whether a request is the one that an event makes.
pub open spec fn asks(event: HookEvent, p: Payload, host: Seq<char>, op: Op) -> bool {
    match event {
        HookEvent::PreTool => asks_checkpoint(op, p, "pre"@, true),
        HookEvent::PostTool => asks_checkpoint(op, p, "post"@, false),
        HookEvent::UserPrompt => op matches Op::TurnStart { session_id, prompt } && session_id@
            == text_or_empty(session_of(p)) && prompt@ == text_or_empty(p.prompt),
        HookEvent::SessionStart => op matches Op::SessionStart { session_id, host: h }
            && session_id@ == text_or_empty(session_of(p)) && h@ == host,
        HookEvent::SessionEnd => op matches Op::SessionEnd { session_id } && session_id@
            == text_or_empty(session_of(p)),
    }
}

/// The request that an event makes. Before a tool it waits for the checkpoint,
/// after one it only enqueues it.
pub fn request(event: HookEvent, payload: Payload, host: &str) -> (op: Op)
    ensures
        asks(event, payload, host@, op),
{
    let mut payload = payload;
    let session_id = payload.session();
    match event {
        HookEvent::PreTool => {
            let tool_name = payload.tool();
            Op::Checkpoint {
                kind: "pre".to_owned(),
                session_id,
                tool_call_id: payload.tool_use_id,
                tool_name,
                label: None,
                wait: true,
                durable: false,
            }
        },
        HookEvent::PostTool => {
            let tool_name = payload.tool();
            Op::Checkpoint {
                kind: "post".to_owned(),
                session_id,
                tool_call_id: payload.tool_use_id,
                tool_name,
                label: None,
                wait: false,
                durable: false,
            }
        },
        HookEvent::UserPrompt => Op::TurnStart {
            session_id: or_empty(session_id),
            prompt: or_empty(payload.prompt),
        },
        HookEvent::SessionStart => Op::SessionStart {
            session_id: or_empty(session_id),
            host: host.to_owned(),
        },
        HookEvent::SessionEnd => Op::SessionEnd { session_id: or_empty(session_id) },
    }
}

/// What a hook prints, and what it asks next.
#[derive(Debug)]
pub struct Said {
    /// What the host reads.
    pub out: String,
    /// What the user may read.
    pub err: String,
    /// A request that follows.
    pub follow: Option<Op>,
}

/// What a hook says that did not reach the daemon: that it is starting, and
/// nothing else, for hooks run on every call of a tool.
pub fn not_reached(error: &ConnectError) -> (r: Said)
    ensures
        r.out@ == if *error is Starting { starting_text() } else { Seq::empty() },
        r.err@.len() == 0,
        r.follow is None,
{
    let out = match error {
        ConnectError::Starting => starting_notice(),
        _ => String::new(),
    };
    Said { out, err: String::new(), follow: None }
}

/// What is said of a call that failed.
pub open spec fn failure_text(event: HookEvent, part: Seq<char>, message: Seq<char>) -> Seq<char> {
    NAME@ + " hook ("@ + event_arg(event) + part + "): "@ + message + "\n"@
}

fn failure(event: HookEvent, part: &str, message: &str) -> (r: String)
    ensures
        r@ == failure_text(event, part@, message@),
{
    let mut out = NAME.to_owned();
    out.append(" hook (");
    out.append(event.as_arg());
    out.append(part);
    out.append("): ");
    out.append(message);
    out.append("\n");
    out
}

/// What one host has to be answered before it goes on.
pub const ALLOW: &'static str = "{\"permission\":\"allow\"}\n";

/// Whether a host has to be answered before it goes on at an event. Another
/// host would take the answer for context.
pub open spec fn must_allow(event: HookEvent, host: Seq<char>) -> bool {
    host == "cursor"@ && (event == HookEvent::PreTool || event == HookEvent::UserPrompt)
}

/// Whether that is what a hook prints and asks next.
pub open spec fn says_back(
    event: HookEvent,
    host: Seq<char>,
    session_id: Seq<char>,
    source: Option<String>,
    failed: Option<Seq<char>>,
    r: Said,
) -> bool {
    if event != HookEvent::SessionStart {
        &&& r.out@ == if must_allow(event, host) { ALLOW@ } else { Seq::empty() }
        &&& r.err@ == match failed {
            Some(message) => failure_text(event, Seq::empty(), message),
            None => Seq::empty(),
        }
        &&& r.follow is None
    } else {
        match failed {
            Some(message) => {
                &&& r.follow is None
                &&& if says_timeout(message) {
                    r.out@ == starting_text() && r.err@.len() == 0
                } else {
                    r.out@.len() == 0 && r.err@ == failure_text(event, Seq::empty(), message)
                }
            },
            None => {
                &&& r.out@.len() == 0
                &&& r.err@.len() == 0
                &&& if source matches Some(s) && s@ == "compact"@ {
                    r.follow is None
                } else {
                    r.follow matches Some(Op::Brief { current: Some(id) }) && id@ == session_id
                }
            },
        }
    }
}

/// A hook never stands in the way of a tool: what the host reads at any event
/// but the start of a session is the same whether or not the daemon did its
/// part, and the host that waits for leave is given it.
pub proof fn law_hooks_never_stand_in_the_way(
    event: HookEvent,
    host: Seq<char>,
    session_id: Seq<char>,
    source: Option<String>,
    message: Seq<char>,
    well: Said,
    badly: Said,
)
    requires
        event != HookEvent::SessionStart,
        says_back(event, host, session_id, source, None, well),
        says_back(event, host, session_id, source, Some(message), badly),
    ensures
        badly.out@ == well.out@,
        host == "cursor"@ && (event == HookEvent::PreTool || event == HookEvent::UserPrompt)
            ==> badly.out@ == "{\"permission\":\"allow\"}\n"@,
        host != "cursor"@ ==> badly.out@.len() == 0,
        well.err@.len() == 0,
        crate::text::contains_text(badly.err@, message),
{
    let text = badly.err@;
    let lead = NAME@ + " hook ("@ + event_arg(event) + Seq::<char>::empty() + "): "@;
    assert(text =~= lead + message + "\n"@);
    assert(message.subrange(0, message.len() as int) =~= message);
    assert(crate::text::occurs_at(message, message, 0));
    crate::text::lemma_contained(lead, message, "\n"@, message);
}

/// A session that starts is briefed about the one before, and only such a
/// session: not one that a compaction restarted, and not where the daemon did
/// not do its part.
pub proof fn law_new_sessions_are_briefed(
    event: HookEvent,
    host: Seq<char>,
    session_id: Seq<char>,
    source: Option<String>,
    failed: Option<Seq<char>>,
    r: Said,
)
    requires
        says_back(event, host, session_id, source, failed, r),
    ensures
        r.follow is Some <==> event == HookEvent::SessionStart && failed is None && !(source
            matches Some(s) && s@ == "compact"@),
        r.follow matches Some(op) ==> (op matches Op::Brief { current } && (current matches Some(id)
            && id@ == session_id)),
{
}

/// What a hook prints when its request was answered, and what it asks next: the
/// brief at the start of a session, unless a compaction restarted it, which has
/// that context already.
pub fn answered(
    event: HookEvent,
    host: &str,
    session_id: &str,
    source: &Option<String>,
    failed: Option<&str>,
) -> (r: Said)
    ensures
        says_back(event, host@, session_id@, *source, crate::text::opt_str(failed), r),
        event != HookEvent::SessionStart ==> {
            &&& r.out@ == if must_allow(event, host@) { ALLOW@ } else { Seq::empty() }
            &&& r.err@ == match failed {
                Some(message) => failure_text(event, Seq::empty(), message@),
                None => Seq::empty(),
            }
            &&& r.follow is None
        },
        event == HookEvent::SessionStart ==> match failed {
            Some(message) => {
                &&& r.follow is None
                &&& if says_timeout(message@) {
                    r.out@ == starting_text() && r.err@.len() == 0
                } else {
                    r.out@.len() == 0 && r.err@ == failure_text(event, Seq::empty(), message@)
                }
            },
            None => {
                &&& r.out@.len() == 0
                &&& r.err@.len() == 0
                &&& if *source matches Some(s) && s@ == "compact"@ {
                    r.follow is None
                } else {
                    r.follow matches Some(Op::Brief { current: Some(id) }) && id@ == session_id@
                }
            },
        },
{
    let mut said = Said { out: String::new(), err: String::new(), follow: None };
    if event == HookEvent::SessionStart {
        match failed {
            Some(message) => {
                if is_timeout(message) {
                    said.out = starting_notice();
                } else {
                    said.err = failure(event, "", message);
                    proof {
                        reveal_strlit("");
                        assert(""@ =~= Seq::<char>::empty());
                    }
                }
            },
            None => {
                let compact = match source {
                    Some(s) => text_eq(s.as_str(), "compact"),
                    None => false,
                };
                if !compact {
                    said.follow = Some(Op::Brief { current: Some(session_id.to_owned()) });
                }
            },
        }
        return said;
    }
    if let Some(message) = failed {
        said.err = failure(event, "", message);
        proof {
            reveal_strlit("");
            assert(""@ =~= Seq::<char>::empty());
        }
    }
    if text_eq(host, "cursor") && (event == HookEvent::PreTool || event == HookEvent::UserPrompt) {
        said.out = ALLOW.to_owned();
    }
    said
}

/// What a hook prints when the brief was answered.
pub fn briefed(reply: Result<Reply, String>) -> (r: Said)
    ensures
        r.follow is None,
        match reply {
            Ok(Reply::Brief(info)) => r.out@ == brief_text(info) && r.err@.len() == 0,
            Ok(_) => r.out@.len() == 0 && r.err@.len() == 0,
            Err(message) => r.out@.len() == 0 && r.err@ == failure_text(
                HookEvent::SessionStart,
                " brief"@,
                message@,
            ),
        },
{
    let mut said = Said { out: String::new(), err: String::new(), follow: None };
    match reply {
        Ok(Reply::Brief(info)) => {
            said.out = render(&info);
        },
        Ok(_) => {},
        Err(message) => {
            said.err = failure(HookEvent::SessionStart, " brief", message.as_str());
        },
    }
    said
}

} // verus!
