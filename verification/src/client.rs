//! The caller's side of the daemon: how it is reached, how long a caller waits
//! for one to come up, and what is said where that fails.
use vstd::prelude::*;
use vstd::utf8::*;
use crate::cli::{EXIT_FAILED, EXIT_NO_DAEMON};
use crate::fork::Platform;
use crate::hook::{starting_notice, starting_text};
use crate::digest::{bytes_hex, hex_of, law_hex_round_trip};
use crate::path::{
    file_name_of, joined, law_joined_name_is_file_name, lemma_encoded_length, lemma_no_slash_bytes,
    lossy_text, HostPath, SLASH,
};
use crate::product::NAME;
use crate::proto::{Op, Request, PROTOCOL_VERSION};
use crate::store::StorePaths;
use crate::text::{join_texts, joined_texts, lines, lines_of, texts};

verus! {

/// Whether a caller may start a daemon.
#[derive(Clone, Copy, Debug, PartialEq, Eq, Structural)]
pub enum Spawn {
    /// It may, and waits for it.
    Allowed,
    /// It may, and waits so long for it, in milliseconds.
    AllowedFor(u64),
    /// It may not.
    Never,
}

/// Why the daemon was not reached.
#[derive(Debug)]
pub enum ConnectError {
    /// There is none, and none was to be started.
    NoDaemon,
    /// One was started and is not ready yet.
    Starting,
    Other(String),
}

/// What a caller does where the daemon does not answer.
pub fn without_daemon(spawn: Spawn) -> (r: Result<(), ConnectError>)
    ensures
        match r {
            Ok(_) => spawn != Spawn::Never,
            Err(ConnectError::NoDaemon) => spawn == Spawn::Never,
            Err(_) => false,
        },
{
    match spawn {
        Spawn::Never => Err(ConnectError::NoDaemon),
        _ => Ok(()),
    }
}

/// What a command that did not reach the daemon says, and the code it ends
/// with.
pub fn explain(error: &ConnectError) -> (r: (String, i32))
    ensures
        match error {
            ConnectError::NoDaemon => r.0@ == NAME@ + ": daemon not running; checkpoint skipped\n"@
                && r.1 == EXIT_NO_DAEMON,
            ConnectError::Starting => r.0@ == starting_text() && r.1 == EXIT_FAILED,
            ConnectError::Other(message) => r.0@ == NAME@ + ": "@ + message@ + "\n"@ && r.1
                == EXIT_FAILED,
        },
{
    match error {
        ConnectError::NoDaemon => {
            let mut out = NAME.to_owned();
            out.append(": daemon not running; checkpoint skipped\n");
            (out, EXIT_NO_DAEMON)
        },
        ConnectError::Starting => (starting_notice(), EXIT_FAILED),
        ConnectError::Other(message) => {
            let mut out = NAME.to_owned();
            out.append(": ");
            out.append(message.as_str());
            out.append("\n");
            (out, EXIT_FAILED)
        },
    }
}

/// How long a caller waits for a daemon that it started, in milliseconds: the
/// first snapshot of a large tree takes a while.
pub const READY_WAIT: u64 = 1800000;

/// After how long a caller says that it waits, in milliseconds.
pub const NOTICE_AFTER: u64 = 2000;

/// How many lines of the daemon's log are told.
pub const LOG_TAIL: usize = 5;

/// How often a caller looks for the daemon, in milliseconds.
pub const POLL_EVERY: u64 = 200;

/// The last lines of a log, the newest first.
pub open spec fn tail_of(log: Seq<char>) -> Seq<Seq<char>> {
    let all = lines_of(log).reverse();
    if all.len() <= LOG_TAIL { all } else { all.take(LOG_TAIL as int) }
}

/// The last lines of a log in one.
pub fn log_tail(log: &str) -> (r: String)
    ensures
        r@ == joined_texts(tail_of(log@), " | "@),
{
    let all = lines(log);
    let mut out: Vec<String> = Vec::new();
    let mut n: usize = all.len();
    while n > 0 && out.len() < LOG_TAIL
        invariant
            texts(all@) == lines_of(log@),
            n <= all@.len(),
            out@.len() == all@.len() - n,
            out@.len() <= LOG_TAIL,
            texts(out@) =~= texts(all@).reverse().take(out@.len() as int),
        decreases n,
    {
        n -= 1;
        out.push(all[n].clone());
    }
    assert(texts(out@) =~= tail_of(log@));
    join_texts(&out, " | ")
}

/// What a caller that started a daemon does next.
#[derive(Debug)]
pub enum Waiting {
    /// The daemon answers.
    Ready,
    /// Look again in a while, and say that it is being waited for where that is
    /// due.
    Again { notice: bool },
    Failed(ConnectError),
}

/// Whether that is what a caller does next. A daemon that ended is told with the
/// end of its log; one that takes too long is given up.
pub open spec fn waits(
    answers: bool,
    ended: Option<(Seq<char>, Seq<char>)>,
    elapsed: u64,
    limit: Option<u64>,
    noticed: bool,
    log_path: Seq<u8>,
    r: Waiting,
) -> bool {
    if answers {
        r is Ready
    } else {
        match ended {
            Some((status, log)) => r matches Waiting::Failed(ConnectError::Other(message))
                && message@ == "daemon exited ("@ + status + ") before serving: "@ + joined_texts(
                tail_of(log),
                " | "@,
            ),
            None => if limit is Some && elapsed > limit->0 {
                r matches Waiting::Failed(ConnectError::Starting)
            } else if elapsed > READY_WAIT {
                r matches Waiting::Failed(ConnectError::Other(message)) && message@
                    == "daemon did not become ready (log: "@ + lossy_text(log_path) + ")"@
            } else {
                r == (Waiting::Again { notice: elapsed > NOTICE_AFTER && !noticed })
            },
        }
    }
}

/// Who waits for a daemon is ready as soon as it answers, is told that it ended
/// only if it did, and is told that it is starting only after the time they
/// would wait; as long as there is time and nothing ended, they look again.
pub proof fn law_waiting_ends_for_a_reason(
    answers: bool,
    ended: Option<(Seq<char>, Seq<char>)>,
    elapsed: u64,
    limit: Option<u64>,
    noticed: bool,
    log_path: Seq<u8>,
    r: Waiting,
)
    requires
        waits(answers, ended, elapsed, limit, noticed, log_path, r),
    ensures
        answers <==> r is Ready,
        r matches Waiting::Failed(ConnectError::Starting) ==> limit is Some && elapsed > limit->0
            && ended is None,
        !answers && ended is Some ==> (ended matches Some((status, _)) && (r
            matches Waiting::Failed(ConnectError::Other(message)) && crate::text::contains_text(
            message@,
            status,
        ))),
        !answers && ended is None && elapsed <= READY_WAIT && (limit is Some ==> elapsed <= limit->0)
            ==> r is Again,
        !answers && elapsed > READY_WAIT ==> r is Failed,
        r matches Waiting::Again { notice } ==> (notice ==> !noticed),
{
    if !answers && ended is Some {
        if let Waiting::Failed(ConnectError::Other(message)) = r {
            let (status, log) = ended->0;
            let lead = "daemon exited ("@;
            let rest = ") before serving: "@ + joined_texts(tail_of(log), " | "@);
            assert(message@ =~= lead + status + rest);
            assert(status.subrange(0, status.len() as int) =~= status);
            assert(crate::text::occurs_at(status, status, 0));
            crate::text::lemma_contained(lead, status, rest, status);
        }
    }
}

/// A pair of texts as sequences of characters.
pub open spec fn opt_pair(o: Option<(&str, &str)>) -> Option<(Seq<char>, Seq<char>)> {
    match o {
        Some((a, b)) => Some((a@, b@)),
        None => None,
    }
}

/// What a caller that started a daemon does next: `ended` holds how the daemon
/// ended and what it logged.
pub fn wait_step(
    answers: bool,
    ended: Option<(&str, &str)>,
    elapsed: u64,
    limit: Option<u64>,
    noticed: bool,
    log_path: &HostPath,
) -> (r: Waiting)
    ensures
        waits(answers, opt_pair(ended), elapsed, limit, noticed, log_path@, r),
{
    if answers {
        return Waiting::Ready;
    }
    if let Some((status, log)) = ended {
        let mut message = "daemon exited (".to_owned();
        message.append(status);
        message.append(") before serving: ");
        message.append(log_tail(log).as_str());
        return Waiting::Failed(ConnectError::Other(message));
    }
    if let Some(limit) = limit {
        if elapsed > limit {
            return Waiting::Failed(ConnectError::Starting);
        }
    }
    if elapsed > READY_WAIT {
        let mut message = "daemon did not become ready (log: ".to_owned();
        message.append(log_path.display().as_str());
        message.append(")");
        return Waiting::Failed(ConnectError::Other(message));
    }
    Waiting::Again { notice: elapsed > NOTICE_AFTER && !noticed }
}

/// The requests of one caller: each has an id of its own.
#[derive(Debug)]
pub struct Calls {
    pub next_id: u64,
}

/// Whether a request is the next of a caller.
pub open spec fn asks_as(before: Calls, op: Op, r: Request, after: Calls) -> bool {
    &&& r == (Request { v: PROTOCOL_VERSION, id: before.next_id, op })
    &&& after.next_id == before.next_id + 1
}

/// A caller's requests are told apart by their ids, hold what was asked, and are
/// of the version that the daemon serves.
pub proof fn law_requests_are_told_apart(
    before: Calls,
    first: Op,
    a: Request,
    between: Calls,
    second: Op,
    b: Request,
    after: Calls,
    checked: Option<crate::proto::Response>,
)
    requires
        asks_as(before, first, a, between),
        asks_as(between, second, b, after),
        crate::proto::checks_version(b, checked),
    ensures
        a.id != b.id,
        a.op == first,
        b.op == second,
        checked is None,
{
}

impl Calls {
    /// A caller that has asked nothing.
    pub fn new() -> (r: Calls)
        ensures
            r.next_id == 1,
    {
        Calls { next_id: 1 }
    }

    /// The request of an operation.
    pub fn request(&mut self, op: Op) -> (r: Request)
        requires
            old(self).next_id < u64::MAX,
        ensures
            asks_as(*old(self), op, r, *final(self)),
            r == (Request { v: PROTOCOL_VERSION, id: old(self).next_id, op }),
            final(self).next_id == old(self).next_id + 1,
    {
        let id: u64 = self.next_id;
        self.next_id = id + 1;
        Request { v: PROTOCOL_VERSION, id, op }
    }
}

/// Whether a byte of a path stands for itself in a pipe's name.
pub open spec fn plain_byte(b: u8) -> bool {
    48 <= b <= 57 || 65 <= b <= 90 || 97 <= b <= 122 || b == 46 || b == 95
}

/// A byte of a path in a pipe's name: letters, digits, the dot and the
/// underscore as they are, and any other byte, what a name forbids among them,
/// as its two digits behind a hyphen.
pub open spec fn pipe_piece(b: u8) -> Seq<char> {
    if plain_byte(b) { seq![b as char] } else { seq!['-'] + hex_of(seq![b]) }
}

/// The key of a path in a pipe's name.
pub open spec fn pipe_key(path: Seq<u8>) -> Seq<char>
    decreases path.len(),
{
    if path.len() == 0 {
        Seq::empty()
    } else {
        pipe_piece(path[0]) + pipe_key(path.skip(1))
    }
}

/// What the name of every pipe starts with.
pub open spec fn pipe_lead() -> Seq<char> {
    "\\\\.\\pipe\\"@ + NAME@ + "-"@
}

/// The pipe that stands for a socket where there are none. Its key is made of
/// the whole path: the last name is the same for every store.
pub open spec fn pipe_text(socket: Seq<u8>) -> Seq<char> {
    pipe_lead() + match file_name_of(socket) {
        Some(_) => pipe_key(socket),
        None => "default"@,
    }
}

/// The pipe that stands for a socket where there are none.
pub fn pipe_name(socket: &HostPath) -> (r: String)
    ensures
        r@ == pipe_text(socket@),
{
    let mut out = "\\\\.\\pipe\\".to_owned();
    out.append(NAME);
    out.append("-");
    if socket.file_name().is_none() {
        out.append("default");
        return out;
    }
    let ghost bytes = socket@;
    let ghost whole = out@ + pipe_key(bytes);
    let mut i: usize = 0;
    assert(bytes.skip(0) =~= bytes);
    while i < socket.bytes.len()
        invariant
            bytes == socket@,
            i <= bytes.len(),
            out@ + pipe_key(bytes.skip(i as int)) == whole,
        decreases socket.bytes.len() - i,
    {
        let b: u8 = socket.bytes[i];
        let ghost before = out@;
        let ghost rest = bytes.skip(i as int);
        if (48 <= b && b <= 57) || (65 <= b && b <= 90) || (97 <= b && b <= 122) || b == 46 || b
            == 95 {
            out.push(b as char);
        } else {
            let one: [u8; 1] = [b];
            out.append("-");
            out.append(bytes_hex(one.as_slice()).as_str());
            proof {
                reveal_strlit("-");
                assert(one@ =~= seq![b]);
                assert("-"@ =~= seq!['-']);
            }
        }
        i += 1;
        proof {
            assert(rest.skip(1) =~= bytes.skip(i as int));
            assert(out@ =~= before + pipe_piece(b));
            assert(out@ + pipe_key(rest.skip(1)) =~= before + pipe_key(rest));
        }
    }
    assert(pipe_key(bytes.skip(i as int)) =~= Seq::<char>::empty());
    assert(out@ =~= whole);
    out
}

proof fn lemma_pipe_piece(b: u8)
    ensures
        pipe_piece(b).len() == if plain_byte(b) { 1int } else { 3int },
        plain_byte(b) ==> pipe_piece(b)[0] == b as char && pipe_piece(b)[0] != '-',
        !plain_byte(b) ==> pipe_piece(b)[0] == '-' && pipe_piece(b).skip(1) == hex_of(seq![b]),
        forall|i: int|
            0 <= i < pipe_piece(b).len() ==> #[trigger] pipe_piece(b)[i] != '\\' && pipe_piece(b)[i]
                != '/' && pipe_piece(b)[i] != ':',
{
    if !plain_byte(b) {
        assert(pipe_piece(b).skip(1) =~= hex_of(seq![b]));
    }
}

proof fn lemma_pipe_piece_differs(a: u8, b: u8)
    requires
        pipe_piece(a) == pipe_piece(b),
    ensures
        a == b,
{
    lemma_pipe_piece(a);
    lemma_pipe_piece(b);
    if plain_byte(a) {
        assert(a as char == b as char);
    } else {
        law_hex_round_trip(seq![a]);
        law_hex_round_trip(seq![b]);
        assert(seq![a][0] == seq![b][0]);
    }
}

proof fn lemma_pipe_key(a: Seq<u8>, b: Seq<u8>)
    requires
        pipe_key(a) == pipe_key(b),
    ensures
        a == b,
    decreases a.len(),
{
    if a.len() > 0 {
        lemma_pipe_piece(a[0]);
    }
    if b.len() > 0 {
        lemma_pipe_piece(b[0]);
    }
    if a.len() == 0 || b.len() == 0 {
        assert(a =~= b);
    } else {
        let n = pipe_piece(a[0]).len() as int;
        assert(pipe_key(a)[0] == pipe_piece(a[0])[0]);
        assert(pipe_key(b)[0] == pipe_piece(b[0])[0]);
        assert(pipe_key(a).take(n) =~= pipe_piece(a[0]));
        assert(pipe_key(b).take(n) =~= pipe_piece(b[0]));
        assert(pipe_key(a).skip(n) =~= pipe_key(a.skip(1)));
        assert(pipe_key(b).skip(n) =~= pipe_key(b.skip(1)));
        lemma_pipe_piece_differs(a[0], b[0]);
        lemma_pipe_key(a.skip(1), b.skip(1));
        assert(a =~= seq![a[0]] + a.skip(1));
        assert(b =~= seq![b[0]] + b.skip(1));
    }
}

/// The name of a pipe holds nothing behind its lead that a name forbids.
pub proof fn law_pipe_names_are_allowed(socket: Seq<u8>)
    ensures
        pipe_text(socket).len() >= pipe_lead().len(),
        pipe_text(socket).take(pipe_lead().len() as int) == pipe_lead(),
        forall|i: int|
            pipe_lead().len() <= i < pipe_text(socket).len() ==> #[trigger] pipe_text(socket)[i]
                != '\\' && pipe_text(socket)[i] != '/' && pipe_text(socket)[i] != ':',
{
    let lead = pipe_lead();
    let key = match file_name_of(socket) {
        Some(_) => pipe_key(socket),
        None => "default"@,
    };
    assert(pipe_text(socket) == lead + key);
    assert((lead + key).take(lead.len() as int) =~= lead);
    if file_name_of(socket) is Some {
        lemma_key_is_allowed(socket);
    } else {
        reveal_strlit("default");
    }
    assert forall|i: int| lead.len() <= i < pipe_text(socket).len() implies #[trigger] pipe_text(
        socket,
    )[i] != '\\' && pipe_text(socket)[i] != '/' && pipe_text(socket)[i] != ':' by {
        assert(pipe_text(socket)[i] == key[i - lead.len()]);
    }
}

proof fn lemma_key_is_allowed(path: Seq<u8>)
    ensures
        forall|i: int|
            0 <= i < pipe_key(path).len() ==> #[trigger] pipe_key(path)[i] != '\\' && pipe_key(
                path,
            )[i] != '/' && pipe_key(path)[i] != ':',
    decreases path.len(),
{
    if path.len() > 0 {
        lemma_pipe_piece(path[0]);
        lemma_key_is_allowed(path.skip(1));
        let piece = pipe_piece(path[0]);
        let rest = pipe_key(path.skip(1));
        assert forall|i: int| 0 <= i < pipe_key(path).len() implies #[trigger] pipe_key(path)[i]
            != '\\' && pipe_key(path)[i] != '/' && pipe_key(path)[i] != ':' by {
            if i < piece.len() {
                assert(pipe_key(path)[i] == piece[i]);
            } else {
                assert(pipe_key(path)[i] == rest[i - piece.len()]);
            }
        }
    }
}

/// Sockets that differ have pipes that differ.
pub proof fn law_pipes_keep_apart(a: Seq<u8>, b: Seq<u8>)
    requires
        file_name_of(a) is Some,
        file_name_of(b) is Some,
        a != b,
    ensures
        pipe_text(a) != pipe_text(b),
{
    if pipe_text(a) == pipe_text(b) {
        let n = pipe_lead().len() as int;
        assert(pipe_text(a).skip(n) =~= pipe_key(a));
        assert(pipe_text(b).skip(n) =~= pipe_key(b));
        lemma_pipe_key(a, b);
    }
}

/// Whether one path is another with a separator after it, which names the same
/// directory.
pub open spec fn with_separator(a: Seq<u8>, b: Seq<u8>) -> bool {
    b.len() > 0 && b.last() != SLASH && a == b.push(SLASH)
}

/// Every store has a pipe of its own: the sockets of two stores have different
/// pipes.
pub proof fn law_stores_have_pipes_of_their_own(
    one: StorePaths,
    other: StorePaths,
    a: HostPath,
    b: HostPath,
)
    requires
        a@ == joined(one.root@, encode_utf8("daemon.sock"@)),
        b@ == joined(other.root@, encode_utf8("daemon.sock"@)),
        one.root@ != other.root@,
        !with_separator(one.root@, other.root@),
        !with_separator(other.root@, one.root@),
    ensures
        pipe_text(a@) != pipe_text(b@),
{
    let name = encode_utf8("daemon.sock"@);
    reveal_strlit("daemon.sock");
    lemma_no_slash_bytes("daemon.sock"@);
    lemma_encoded_length("daemon.sock"@);
    law_joined_name_is_file_name(one.root@, name);
    law_joined_name_is_file_name(other.root@, name);
    if a@ == b@ {
        let x = a@.take(a@.len() - name.len());
        let r = if one.root@.len() == 0 || one.root@.last() == SLASH {
            one.root@
        } else {
            one.root@.push(SLASH)
        };
        let s = if other.root@.len() == 0 || other.root@.last() == SLASH {
            other.root@
        } else {
            other.root@.push(SLASH)
        };
        assert(x =~= r);
        assert(x =~= s);
        if r == one.root@ && s == other.root@ {
        } else if r == one.root@ {
            assert(with_separator(one.root@, other.root@));
        } else if s == other.root@ {
            assert(with_separator(other.root@, one.root@));
        } else {
            assert(one.root@ =~= r.drop_last());
            assert(other.root@ =~= s.drop_last());
        }
    }
    law_pipes_keep_apart(a@, b@);
}

/// How the daemon's endpoint is described: its socket, or the pipe that stands
/// for it.
pub fn endpoint_display(platform: Platform, socket: &HostPath) -> (r: String)
    ensures
        r@ == if platform == Platform::Windows { pipe_text(socket@) } else {
            lossy_text(socket@)
        },
{
    if platform == Platform::Windows {
        pipe_name(socket)
    } else {
        socket.display()
    }
}

} // verus!
