//! Registering the library's server with a host that starts servers. The file
//! that the host reads is merged into: one server is renewed, whatever else is
//! there stays.
use vstd::prelude::*;
use crate::install::{inner, is_text, takes_object};
use crate::json::{agree_but, field, find_field, get, member, set_field, take_field, Json};
use crate::path::{file_name_of, from_utf8_lossy, lossy_text, HostPath};
use crate::product::NAME;
use crate::text::{decimal_nat, push_nat, text_eq};

verus! {

/// How a host writes the servers that it starts.
#[derive(Clone, Copy, Debug)]
pub struct McpConfigShape {
    /// The field that holds the servers.
    pub servers_key: &'static str,
    /// The kind of a server, where the host wants one.
    pub explicit_type: Option<&'static str>,
    /// Whether a command and its arguments are one list.
    pub command_as_array: bool,
    /// Whether a server has a flag that enables it.
    pub enabled_flag: bool,
    /// What describes the document, where the host publishes it.
    pub schema_url: Option<&'static str>,
    /// Whether a server is told to start in the workspace.
    pub workspace_cwd: bool,
}

/// The shape that two hosts share.
pub fn mcp_servers_shape() -> (r: McpConfigShape)
    ensures
        r.servers_key@ == "mcpServers"@,
        r.explicit_type is None,
        !r.command_as_array,
        !r.enabled_flag,
        r.schema_url is None,
        !r.workspace_cwd,
{
    McpConfigShape {
        servers_key: "mcpServers",
        explicit_type: None,
        command_as_array: false,
        enabled_flag: false,
        schema_url: None,
        workspace_cwd: false,
    }
}

/// The shape of an editor that names its servers otherwise, and starts them in
/// the workspace.
pub fn vscode_mcp_shape() -> (r: McpConfigShape)
    ensures
        r.servers_key@ == "servers"@,
        r.explicit_type matches Some(t) && t@ == "stdio"@,
        !r.command_as_array,
        !r.enabled_flag,
        r.schema_url is None,
        r.workspace_cwd,
{
    McpConfigShape {
        servers_key: "servers",
        explicit_type: Some("stdio"),
        command_as_array: false,
        enabled_flag: false,
        schema_url: None,
        workspace_cwd: true,
    }
}

/// The shape of the host that takes a command and its arguments as one list.
pub fn opencode_mcp_shape() -> (r: McpConfigShape)
    ensures
        r.servers_key@ == "mcp"@,
        r.explicit_type matches Some(t) && t@ == "local"@,
        r.command_as_array,
        r.enabled_flag,
        r.schema_url matches Some(u) && u@ == "https://opencode.ai/config.json"@,
        !r.workspace_cwd,
{
    McpConfigShape {
        servers_key: "mcp",
        explicit_type: Some("local"),
        command_as_array: true,
        enabled_flag: true,
        schema_url: Some("https://opencode.ai/config.json"),
        workspace_cwd: false,
    }
}

/// A server as it is registered: its key, and how it is started. One that many
/// machines read carries no path; one of a single machine is pinned to a
/// repository.
#[derive(Debug)]
pub struct McpEntry {
    pub key: String,
    pub command: String,
    pub repo: Option<String>,
}

/// The arguments of a server.
pub open spec fn arg_texts(repo: Option<Seq<char>>) -> Seq<Seq<char>> {
    match repo {
        Some(repo) => seq!["mcp"@, "--repo"@, repo],
        None => seq!["mcp"@],
    }
}

/// Whether a list holds given texts and nothing else.
pub open spec fn holds_texts(items: Seq<Json>, wanted: Seq<Seq<char>>) -> bool {
    &&& items.len() == wanted.len()
    &&& forall|i: int|
        0 <= i < items.len() ==> ((#[trigger] items[i]) matches Json::Text(t) && t@ == wanted[i])
}

/// Whether a value is a list of given texts.
pub open spec fn is_list(json: Option<Json>, wanted: Seq<Seq<char>>) -> bool {
    json matches Some(Json::List(l)) && holds_texts(l@, wanted)
}

/// Whether a value is a list of given texts.
fn lists(json: Option<&Json>, wanted: &Vec<String>) -> (r: bool)
    ensures
        r == match json {
            Some(j) => is_list(Some(*j), crate::text::texts(wanted@)),
            None => false,
        },
{
    match json {
        Some(Json::List(l)) => {
            if l.len() != wanted.len() {
                return false;
            }
            let mut i: usize = 0;
            while i < l.len()
                invariant
                    i <= l@.len(),
                    l@.len() == wanted@.len(),
                    json matches Some(j) && *j == Json::List(*l),
                    forall|k: int|
                        0 <= k < i ==> ((#[trigger] l@[k]) matches Json::Text(t) && t@
                            == wanted@[k]@),
                decreases l.len() - i,
            {
                let same = match &l[i] {
                    Json::Text(t) => text_eq(t.as_str(), wanted[i].as_str()),
                    _ => false,
                };
                if !same {
                    assert(!(l@[i as int] matches Json::Text(t) && t@ == crate::text::texts(
                        wanted@,
                    )[i as int]));
                    return false;
                }
                i += 1;
            }
            assert(holds_texts(l@, crate::text::texts(wanted@)));
            true
        },
        _ => false,
    }
}

impl McpEntry {
    /// A server that every clone of a repository reads: found on the path, and
    /// told no repository.
    pub fn portable() -> (r: McpEntry)
        ensures
            r.key@ == NAME@,
            r.command@ == NAME@,
            r.repo is None,
    {
        McpEntry { key: NAME.to_owned(), command: NAME.to_owned(), repo: None }
    }

    /// The arguments of this server.
    pub fn args(&self) -> (r: Vec<Json>)
        ensures
            holds_texts(r@, arg_texts(crate::text::opt_text(self.repo))),
    {
        let mut out: Vec<Json> = Vec::new();
        out.push(Json::Text("mcp".to_owned()));
        if let Some(repo) = &self.repo {
            out.push(Json::Text("--repo".to_owned()));
            out.push(Json::Text(repo.clone()));
        }
        out
    }
}

/// A short id of bytes: FNV-1a.
pub open spec fn fnv(bytes: Seq<u8>) -> u32
    decreases bytes.len(),
{
    if bytes.len() == 0 {
        0x811c_9dc5
    } else {
        (fnv(bytes.drop_last()) ^ bytes.last() as u32).wrapping_mul(0x0100_0193)
    }
}

/// A short id of bytes: FNV-1a. It tells repositories of one name apart, and
/// guards nothing.
pub fn fnv1a(bytes: &[u8]) -> (r: u32)
    ensures
        r == fnv(bytes@),
{
    let mut hash: u32 = 0x811c_9dc5;
    let mut i: usize = 0;
    assert(bytes@.take(0) =~= Seq::<u8>::empty());
    while i < bytes.len()
        invariant
            i <= bytes@.len(),
            hash == fnv(bytes@.take(i as int)),
        decreases bytes.len() - i,
    {
        hash = (hash ^ bytes[i] as u32).wrapping_mul(0x0100_0193);
        i += 1;
        assert(bytes@.take(i as int).drop_last() =~= bytes@.take(i - 1));
    }
    assert(bytes@.take(i as int) =~= bytes@);
    hash
}

/// The bytes of a number, the highest first.
pub open spec fn high_first(n: u32) -> Seq<u8> {
    seq![
        (n / 0x100_0000) as u8,
        (n / 0x1_0000 % 0x100) as u8,
        (n / 0x100 % 0x100) as u8,
        (n % 0x100) as u8,
    ]
}

/// A number in eight hexadecimal digits.
fn hex_word(n: u32) -> (r: String)
    ensures
        r@ == crate::digest::hex_of(high_first(n)),
{
    let mut bytes: Vec<u8> = Vec::new();
    bytes.push((n / 0x100_0000) as u8);
    bytes.push((n / 0x1_0000 % 0x100) as u8);
    bytes.push((n / 0x100 % 0x100) as u8);
    bytes.push((n % 0x100) as u8);
    assert(bytes@ =~= high_first(n));
    crate::digest::bytes_hex(bytes.as_slice())
}

/// The name of a repository's directory, as a user knows it.
pub open spec fn repo_label(repo: Seq<u8>) -> Seq<char> {
    match file_name_of(repo) {
        Some(name) => lossy_text(name),
        None => "repo"@,
    }
}

/// The keys that a server of a repository may have, in the order they are
/// tried: the repository's name, that with a short id of its path, and that
/// with a number.
pub open spec fn candidate(repo: Seq<u8>, n: int) -> Seq<char> {
    let plain = NAME@ + "-"@ + repo_label(repo);
    let hashed = plain + "-"@ + crate::digest::hex_of(
        high_first(fnv(vstd::utf8::encode_utf8(lossy_text(repo)))),
    );
    if n == 0 {
        plain
    } else if n == 1 {
        hashed
    } else {
        hashed + "-"@ + decimal_nat(n as nat)
    }
}

/// Whether a key is somebody else's: what is there is not a server of this very
/// repository.
pub open spec fn occupied(servers: Seq<(String, Json)>, repo: Seq<char>, key: Seq<char>) -> bool {
    field(servers, key) matches Some(entry) && !is_list(
        member(entry, "args"@),
        arg_texts(Some(repo)),
    )
}

/// The last number that a key may have.
pub const LAST_CANDIDATE: u32 = 0xffff_ffff;

/// Whether a key is the one for a repository's server: the first that is free.
pub open spec fn is_key(servers: Seq<(String, Json)>, repo: Seq<u8>, key: Seq<char>) -> bool {
    let shown = lossy_text(repo);
    ||| exists|n: int|
        0 <= n <= LAST_CANDIDATE && key == #[trigger] candidate(repo, n) && !occupied(
            servers,
            shown,
            key,
        ) && forall|m: int|
            0 <= m < n ==> occupied(servers, shown, #[trigger] candidate(repo, m))
    ||| key == candidate(repo, 1) && forall|m: int|
        0 <= m <= LAST_CANDIDATE ==> occupied(servers, shown, #[trigger] candidate(repo, m))
}

fn is_occupied(servers: &Vec<(String, Json)>, ours: &Vec<String>, key: &str) -> (r: bool)
    requires
        ours@.len() == 3,
        ours@[0]@ == "mcp"@,
        ours@[1]@ == "--repo"@,
    ensures
        r == occupied(servers@, ours@[2]@, key@),
{
    proof {
        assert(crate::text::texts(ours@) =~= arg_texts(Some(ours@[2]@)));
    }
    match find_field(servers, key) {
        Some(i) => !lists(get(&servers[i].1, "args"), ours),
        None => false,
    }
}

/// The server of one repository on this machine, under a key that takes nobody
/// else's place.
pub fn per_machine(exe: &HostPath, repo: &HostPath, servers: &Vec<(String, Json)>) -> (r: McpEntry)
    ensures
        is_key(servers@, repo@, r.key@),
        r.command@ == lossy_text(exe@),
        r.repo matches Some(shown) && shown@ == lossy_text(repo@),
{
    let label = match repo.file_name() {
        Some(name) => from_utf8_lossy(name.as_slice()),
        None => "repo".to_owned(),
    };
    let repo_arg = repo.display();
    let mut plain = NAME.to_owned();
    plain.append("-");
    plain.append(label.as_str());
    let mut hashed = plain.clone();
    hashed.append("-");
    hashed.append(hex_word(fnv1a(repo_arg.as_str().as_bytes())).as_str());
    let mut ours: Vec<String> = Vec::new();
    ours.push("mcp".to_owned());
    ours.push("--repo".to_owned());
    ours.push(repo_arg.clone());
    assert(plain@ == candidate(repo@, 0));
    assert(hashed@ == candidate(repo@, 1));
    let mut key = plain;
    let mut n: u32 = 0;
    let command = exe.display();
    while is_occupied(servers, &ours, key.as_str())
        invariant
            ours@.len() == 3,
            ours@[0]@ == "mcp"@,
            ours@[1]@ == "--repo"@,
            ours@[2]@ == lossy_text(repo@),
            hashed@ == candidate(repo@, 1),
            repo_arg@ == lossy_text(repo@),
            command@ == lossy_text(exe@),
            key@ == candidate(repo@, n as int),
            forall|m: int|
                0 <= m < n ==> occupied(servers@, lossy_text(repo@), #[trigger] candidate(repo@, m)),
        decreases LAST_CANDIDATE - n,
    {
        if n == LAST_CANDIDATE {
            return McpEntry { key: hashed, command, repo: Some(repo_arg) };
        }
        n += 1;
        key = hashed.clone();
        if n > 1 {
            key.append("-");
            push_nat(&mut key, n as u64);
        }
        assert(key@ == candidate(repo@, n as int));
    }
    McpEntry { key, command, repo: Some(repo_arg) }
}

/// Whether the fields of a server are those that it had, with the library's own
/// renewed: how it is started, and what the host wants besides.
pub open spec fn is_server(
    shape: McpConfigShape,
    entry: McpEntry,
    before: Seq<(String, Json)>,
    after: Seq<(String, Json)>,
) -> bool {
    let args = arg_texts(crate::text::opt_text(entry.repo));
    &&& if shape.command_as_array {
        is_list(field(after, "command"@), seq![entry.command@] + args) && field(after, "args"@) is None
    } else {
        is_text(field(after, "command"@), entry.command@) && is_list(field(after, "args"@), args)
    }
    &&& match shape.explicit_type {
        Some(kind) => is_text(field(after, "type"@), kind@),
        None => field(after, "type"@) == field(before, "type"@),
    }
    &&& field(after, "enabled"@) == if shape.enabled_flag && field(before, "enabled"@) is None {
        Some(Json::Bool(true))
    } else {
        field(before, "enabled"@)
    }
    &&& if shape.workspace_cwd && entry.repo is None {
        is_text(field(after, "cwd"@), "${workspaceFolder}"@)
    } else {
        field(after, "cwd"@) == field(before, "cwd"@)
    }
    &&& forall|key: Seq<char>|
        key != "command"@ && key != "args"@ && key != "type"@ && key != "enabled"@ && key != "cwd"@
            ==> #[trigger] field(after, key) == field(before, key)
}

/// The five fields that the library owns are told apart by their keys.
proof fn lemma_server_keys()
    ensures
        "command"@ != "args"@,
        "command"@ != "type"@,
        "command"@ != "enabled"@,
        "command"@ != "cwd"@,
        "args"@ != "type"@,
        "args"@ != "enabled"@,
        "args"@ != "cwd"@,
        "type"@ != "enabled"@,
        "type"@ != "cwd"@,
        "enabled"@ != "cwd"@,
{
    reveal_strlit("command");
    reveal_strlit("args");
    reveal_strlit("type");
    reveal_strlit("enabled");
    reveal_strlit("cwd");
    assert("command"@.len() == 7 && "cwd"@.len() == 3 && "args"@.len() == 4);
    assert("command"@[0] != "enabled"@[0]);
    assert("args"@[0] != "type"@[0]);
}

fn server_fields(shape: &McpConfigShape, entry: &McpEntry, fields: Vec<(String, Json)>) -> (r: Vec<
    (String, Json),
>)
    ensures
        is_server(*shape, *entry, fields@, r@),
{
    let mut fields = fields;
    let ghost before = fields@;
    proof {
        lemma_server_keys();
    }
    let mut args = entry.args();
    if shape.command_as_array {
        let mut argv: Vec<Json> = Vec::new();
        argv.push(Json::Text(entry.command.clone()));
        let ghost tail = args@;
        argv.append(&mut args);
        proof {
            assert(argv@ =~= seq![Json::Text(entry.command)] + tail);
            assert(holds_texts(
                argv@,
                seq![entry.command@] + arg_texts(crate::text::opt_text(entry.repo)),
            ));
        }
        set_field(&mut fields, "command", Json::List(argv));
        let _ = take_field(&mut fields, "args");
    } else {
        set_field(&mut fields, "command", Json::Text(entry.command.clone()));
        set_field(&mut fields, "args", Json::List(args));
    }
    let ghost started = fields@;
    assert forall|key: Seq<char>| key != "command"@ && key != "args"@ implies #[trigger] field(
        started,
        key,
    ) == field(before, key) by {}
    if let Some(kind) = shape.explicit_type {
        set_field(&mut fields, "type", Json::Text(kind.to_owned()));
    }
    let ghost typed = fields@;
    assert forall|key: Seq<char>| key != "type"@ implies #[trigger] field(typed, key) == field(
        started,
        key,
    ) by {}
    if shape.enabled_flag && find_field(&fields, "enabled").is_none() {
        set_field(&mut fields, "enabled", Json::Bool(true));
    }
    let ghost flagged = fields@;
    assert forall|key: Seq<char>| key != "enabled"@ implies #[trigger] field(flagged, key) == field(
        typed,
        key,
    ) by {}
    if shape.workspace_cwd && entry.repo.is_none() {
        set_field(&mut fields, "cwd", Json::Text("${workspaceFolder}".to_owned()));
    }
    proof {
        let after = fields@;
        assert forall|key: Seq<char>| key != "cwd"@ implies #[trigger] field(after, key) == field(
            flagged,
            key,
        ) by {}
        assert(field(after, "command"@) == field(started, "command"@));
        assert(field(after, "args"@) == field(started, "args"@));
        assert(field(after, "type"@) == field(typed, "type"@));
        assert(field(started, "type"@) == field(before, "type"@));
        assert(field(after, "enabled"@) == field(flagged, "enabled"@));
        assert(field(typed, "enabled"@) == field(before, "enabled"@));
        assert(field(flagged, "cwd"@) == field(before, "cwd"@));
        assert forall|key: Seq<char>|
            key != "command"@ && key != "args"@ && key != "type"@ && key != "enabled"@ && key
                != "cwd"@ implies #[trigger] field(after, key) == field(before, key) by {
            assert(field(after, key) == field(flagged, key));
            assert(field(flagged, key) == field(typed, key));
            assert(field(typed, key) == field(started, key));
        }
    }
    fields
}

/// Whether a document has been given a server: that one renewed, with whatever
/// a user added to it, and every other server and field as it was, but for what
/// describes the document, which is added where it is missing.
pub open spec fn served(shape: McpConfigShape, entry: McpEntry, before: Json, after: Json) -> bool {
    &&& before matches Json::Object(b) && after matches Json::Object(a) && {
        &&& takes_object(b@, shape.servers_key@)
        &&& field(a@, shape.servers_key@) matches Some(Json::Object(servers)) && {
            &&& field(servers@, entry.key@) matches Some(Json::Object(fields)) && is_server(
                shape,
                entry,
                inner(inner(b@, shape.servers_key@), entry.key@),
                fields@,
            )
            &&& agree_but(servers@, inner(b@, shape.servers_key@), entry.key@)
        }
        &&& match shape.schema_url {
            Some(url) => if field(b@, "$schema"@) is Some {
                field(a@, "$schema"@) == field(b@, "$schema"@)
            } else {
                is_text(field(a@, "$schema"@), url@)
            },
            None => true,
        }
        &&& forall|key: Seq<char>|
            key != shape.servers_key@ && (key != "$schema"@ || shape.schema_url is None)
                ==> #[trigger] field(a@, key) == field(b@, key)
    }
}

/// Whether a message says why a document cannot be given a server.
pub open spec fn not_served(
    shape: McpConfigShape,
    before: Json,
    path: Seq<char>,
    message: Seq<char>,
) -> bool {
    match before {
        Json::Object(b) => !takes_object(b@, shape.servers_key@) && message == shape.servers_key@
            + " is not an object"@,
        _ => message == path + " is not an object"@,
    }
}

/// Gives a document a server.
pub fn merge_mcp_server_json(root: Json, path: &str, shape: &McpConfigShape, entry: &McpEntry) -> (r:
    Result<Json, String>)
    requires
        shape.servers_key@ != "$schema"@,
    ensures
        match r {
            Ok(after) => served(*shape, *entry, root, after),
            Err(message) => not_served(*shape, root, path@, message@),
        },
{
    let mut fields = match root {
        Json::Object(fields) => fields,
        _ => {
            let mut message = path.to_owned();
            message.append(" is not an object");
            return Err(message);
        },
    };
    let ghost before = fields@;
    if let Some(url) = shape.schema_url {
        if find_field(&fields, "$schema").is_none() {
            set_field(&mut fields, "$schema", Json::Text(url.to_owned()));
        }
    }
    let ghost middle = fields@;
    assert forall|key: Seq<char>| key != "$schema"@ implies #[trigger] field(middle, key) == field(
        before,
        key,
    ) by {}
    assert(field(middle, shape.servers_key@) == field(before, shape.servers_key@));
    let mut servers = match take_field(&mut fields, shape.servers_key) {
        None => Vec::new(),
        Some(Json::Object(f)) => f,
        Some(_) => {
            let mut message = shape.servers_key.to_owned();
            message.append(" is not an object");
            return Err(message);
        },
    };
    let ghost old_servers = servers@;
    assert(old_servers =~= inner(before, shape.servers_key@));
    let existing = match take_field(&mut servers, entry.key.as_str()) {
        Some(Json::Object(f)) => f,
        _ => Vec::new(),
    };
    assert(existing@ =~= inner(old_servers, entry.key@));
    let renewed = server_fields(shape, entry, existing);
    set_field(&mut servers, entry.key.as_str(), Json::Object(renewed));
    assert(agree_but(servers@, old_servers, entry.key@));
    set_field(&mut fields, shape.servers_key, Json::Object(servers));
    proof {
        assert forall|key: Seq<char>| key != shape.servers_key@ implies #[trigger] field(
            fields@,
            key,
        ) == field(middle, key) by {}
        assert forall|key: Seq<char>|
            key != shape.servers_key@ && (key != "$schema"@ || shape.schema_url is None) implies
            #[trigger] field(fields@, key) == field(before, key) by {
            assert(field(fields@, key) == field(middle, key));
        }
        if shape.schema_url is Some {
            assert(field(fields@, "$schema"@) == field(middle, "$schema"@));
        }
    }
    Ok(Json::Object(fields))
}

/// The servers that a document holds; none where it holds none.
pub fn existing_servers(root: Json, shape: &McpConfigShape) -> (r: Vec<(String, Json)>)
    ensures
        r@ == match root {
            Json::Object(b) => inner(b@, shape.servers_key@),
            _ => Seq::empty(),
        },
{
    match root {
        Json::Object(fields) => {
            let mut fields = fields;
            match take_field(&mut fields, shape.servers_key) {
                Some(Json::Object(f)) => f,
                _ => Vec::new(),
            }
        },
        _ => Vec::new(),
    }
}

} // verus!
