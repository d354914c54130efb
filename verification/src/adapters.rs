//! The files that an adapter writes: what a host's document becomes, what the
//! cheatsheet becomes, and which files each host gets.
use vstd::prelude::*;
use crate::fork::Platform;
use crate::install::{
    entries_of, flat_hooked, given, given_all, hook_command, hooked, inner, is_entry,
    law_own_entries_are_recognized, merge_cursor_hooks, merge_hooks, not_flat_hooked, not_hooked,
    not_ours, ours, EntryShape, Host, HookRow,
};
use crate::json::{
    agree_but, doc, field, field_docs, lemma_field_docs, member, parse, parsed_json, pretty,
    pretty_json, written_as, Doc, Json,
};
use crate::path::{lossy_text, HostPath};
use crate::product::{render, replace, replaced, MARK, NAME};
use crate::servers::{
    arg_texts, candidate, existing_servers, is_key, is_list, is_server, mcp_servers_shape,
    merge_mcp_server_json, not_served, occupied, per_machine, served, McpConfigShape, McpEntry,
    LAST_CANDIDATE,
};
use crate::templates::{
    later_heading, lemma_later_headings, AGENTS_MD_REST, CURSOR_RULE, FORK_COMMAND,
    FORK_DECOMPOSE_SKILL, REWIND_COMMAND, SELF_ROLLBACK_SKILL, TIMELINE_COMMAND,
};
use crate::text::{chars_of, contains_text, finishes, opt_str, opt_text, occurs_at, text_contains, text_eq, text_finishes, text_of};

verus! {

/// Whether a document is what a file holds; a file that is missing holds an
/// empty object.
pub open spec fn is_document(existing: Option<Seq<char>>, json: Json) -> bool {
    match existing {
        None => json matches Json::Object(fields) && fields@.len() == 0,
        Some(text) => parsed_json(text) == Ok::<Doc, Seq<char>>(doc(json)),
    }
}

/// Whether a message says why a file holds no document.
pub open spec fn is_unreadable(existing: Option<Seq<char>>, path: Seq<char>, message: Seq<char>) -> bool {
    existing matches Some(text) && parsed_json(text) matches Err(error) && message == path + ": "@
        + error
}

/// Whether a text is what a document is written as.
pub open spec fn is_written(json: Json, text: Seq<char>) -> bool {
    exists|shown: Seq<char>| #[trigger] written_as(doc(json), shown) && text == shown + "\n"@
}

/// Whether a message says why a document cannot be written.
pub open spec fn is_unwritable(json: Json, message: Seq<char>) -> bool {
    pretty_json(doc(json)) == Err::<Seq<char>, Seq<char>>(message)
}

fn read_document(existing: Option<&str>, path: &str) -> (r: Result<Json, String>)
    ensures
        match r {
            Ok(json) => is_document(opt_str(existing), json),
            Err(message) => is_unreadable(opt_str(existing), path@, message@),
        },
{
    match existing {
        None => Ok(Json::Object(Vec::new())),
        Some(text) => match parse(text) {
            Ok(json) => Ok(json),
            Err(error) => {
                let mut message = path.to_owned();
                message.append(": ");
                message.append(error.as_str());
                Err(message)
            },
        },
    }
}

fn write_document(json: &Json) -> (r: Result<String, String>)
    ensures
        match r {
            Ok(text) => is_written(*json, text@),
            Err(message) => is_unwritable(*json, message@),
        },
{
    match pretty(json) {
        Ok(shown) => {
            let mut text = shown;
            assert(written_as(doc(*json), text@));
            text.append("\n");
            Ok(text)
        },
        Err(message) => Err(message),
    }
}

/// Whether a file becomes one with the library's hooks for a host.
pub open spec fn hooks_written(
    existing: Option<Seq<char>>,
    host: Option<Seq<char>>,
    text: Seq<char>,
) -> bool {
    exists|before: Json, after: Json| #[trigger]
        is_document(existing, before) && #[trigger] hooked(before, after, host) && is_written(
            after,
            text,
        )
}

/// Whether a message says why a file cannot be given the library's hooks.
pub open spec fn hooks_failed(
    existing: Option<Seq<char>>,
    path: Seq<char>,
    host: Option<Seq<char>>,
    message: Seq<char>,
) -> bool {
    ||| is_unreadable(existing, path, message)
    ||| exists|before: Json| #[trigger]
        is_document(existing, before) && not_hooked(before, path, message)
    ||| exists|before: Json, after: Json| #[trigger]
        is_document(existing, before) && #[trigger] hooked(before, after, host) && is_unwritable(
            after,
            message,
        )
}

/// What the file of a host's hooks becomes.
pub fn hooks_file(existing: Option<&str>, path: &str, host: Option<&str>) -> (r: Result<
    String,
    String,
>)
    ensures
        match r {
            Ok(text) => hooks_written(opt_str(existing), opt_str(host), text@),
            Err(message) => hooks_failed(opt_str(existing), path@, opt_str(host), message@),
        },
{
    let before = match read_document(existing, path) {
        Ok(json) => json,
        Err(message) => {
            return Err(message);
        },
    };
    let ghost was = before;
    assert(is_document(opt_str(existing), was));
    match merge_hooks(before, path, host) {
        Ok(after) => {
            assert(hooked(was, after, opt_str(host)));
            write_document(&after)
        },
        Err(message) => Err(message),
    }
}

/// Whether a file becomes one with the library's hooks in the flat shape.
pub open spec fn flat_hooks_written(existing: Option<Seq<char>>, text: Seq<char>) -> bool {
    exists|before: Json, after: Json| #[trigger]
        is_document(existing, before) && #[trigger] flat_hooked(before, after) && is_written(
            after,
            text,
        )
}

/// Whether a message says why a file cannot be given hooks in the flat shape.
pub open spec fn flat_hooks_failed(
    existing: Option<Seq<char>>,
    path: Seq<char>,
    message: Seq<char>,
) -> bool {
    ||| is_unreadable(existing, path, message)
    ||| exists|before: Json| #[trigger]
        is_document(existing, before) && not_flat_hooked(before, message)
    ||| exists|before: Json, after: Json| #[trigger]
        is_document(existing, before) && #[trigger] flat_hooked(before, after) && is_unwritable(
            after,
            message,
        )
}

/// What the file of the host with flat entries becomes.
pub fn flat_hooks_file(existing: Option<&str>, path: &str) -> (r: Result<String, String>)
    ensures
        match r {
            Ok(text) => flat_hooks_written(opt_str(existing), text@),
            Err(message) => flat_hooks_failed(opt_str(existing), path@, message@),
        },
{
    let before = match read_document(existing, path) {
        Ok(json) => json,
        Err(message) => {
            return Err(message);
        },
    };
    let ghost was = before;
    assert(is_document(opt_str(existing), was));
    match merge_cursor_hooks(before) {
        Ok(after) => {
            assert(flat_hooked(was, after));
            write_document(&after)
        },
        Err(message) => Err(message),
    }
}

/// Whether a file becomes one with a server.
pub open spec fn server_written(
    existing: Option<Seq<char>>,
    shape: McpConfigShape,
    entry: McpEntry,
    text: Seq<char>,
) -> bool {
    exists|before: Json, after: Json| #[trigger]
        is_document(existing, before) && #[trigger] served(shape, entry, before, after)
            && is_written(after, text)
}

/// Whether a message says why a file cannot be given a server.
pub open spec fn server_failed(
    existing: Option<Seq<char>>,
    path: Seq<char>,
    shape: McpConfigShape,
    entry: McpEntry,
    message: Seq<char>,
) -> bool {
    ||| is_unreadable(existing, path, message)
    ||| exists|before: Json| #[trigger]
        is_document(existing, before) && not_served(shape, before, path, message)
    ||| exists|before: Json, after: Json| #[trigger]
        is_document(existing, before) && #[trigger] served(shape, entry, before, after)
            && is_unwritable(after, message)
}

/// What the file of a host's servers becomes.
pub fn server_file(existing: Option<&str>, path: &str, shape: &McpConfigShape, entry: &McpEntry) -> (r:
    Result<String, String>)
    requires
        shape.servers_key@ != "$schema"@,
    ensures
        match r {
            Ok(text) => server_written(opt_str(existing), *shape, *entry, text@),
            Err(message) => server_failed(
                opt_str(existing),
                path@,
                *shape,
                *entry,
                message@,
            ),
        },
{
    let before = match read_document(existing, path) {
        Ok(json) => json,
        Err(message) => {
            return Err(message);
        },
    };
    let ghost was = before;
    assert(is_document(opt_str(existing), was));
    match merge_mcp_server_json(before, path, shape, entry) {
        Ok(after) => {
            assert(served(*shape, *entry, was, after));
            write_document(&after)
        },
        Err(message) => Err(message),
    }
}

/// Whether servers are what a file holds under a key; a file that is missing or
/// holds no document holds none.
pub open spec fn holds_servers(
    existing: Option<Seq<char>>,
    key: Seq<char>,
    servers: Seq<(String, Json)>,
) -> bool {
    match existing {
        None => servers.len() == 0,
        Some(text) => match parsed_json(text) {
            Ok(Doc::Object(fields)) => if fields.contains_key(key) && fields[key] is Object {
                field_docs(servers) == fields[key]->Object_0
            } else {
                servers.len() == 0
            },
            _ => servers.len() == 0,
        },
    }
}

/// The server of a repository for the file that one machine's user has for all
/// of them.
pub fn machine_entry(existing: Option<&str>, exe: &HostPath, repo: &HostPath) -> (r: McpEntry)
    ensures
        exists|servers: Seq<(String, Json)>| #[trigger]
            holds_servers(opt_str(existing), "mcpServers"@, servers) && is_key(
                servers,
                repo@,
                r.key@,
            ),
        r.command@ == lossy_text(exe@),
        r.repo matches Some(shown) && shown@ == lossy_text(repo@),
{
    let shape = mcp_servers_shape();
    let servers = match existing {
        None => Vec::new(),
        Some(text) => match parse(text) {
            Ok(json) => {
                proof {
                    if json is Object {
                        lemma_field_docs(json->Object_0@, "mcpServers"@);
                    }
                }
                existing_servers(json, &shape)
            },
            Err(_) => Vec::new(),
        },
    };
    assert(holds_servers(opt_str(existing), "mcpServers"@, servers@));
    per_machine(exe, repo, &servers)
}

/// The heading of the cheatsheet.
pub open spec fn sheet_heading() -> Seq<char> {
    "## "@ + NAME@ + " checkpoints"@
}

/// What the cheatsheet's file becomes where it does not carry the cheatsheet.
pub open spec fn with_sheet(existing: Seq<char>) -> Seq<char> {
    let gap = if existing.len() > 0 && !finishes(existing, "\n"@) { "\n"@ } else { Seq::empty() };
    existing + gap + "\n"@ + sheet_heading() + sheet_rest()
}

/// What the cheatsheet's file becomes; nothing where it carries the cheatsheet
/// already.
pub fn agents_md(existing: &str) -> (r: Option<String>)
    ensures
        match r {
            None => contains_text(existing@, sheet_heading()),
            Some(text) => !contains_text(existing@, sheet_heading()) && text@ == with_sheet(
                existing@,
            ),
        },
{
    let mut heading = "## ".to_owned();
    heading.append(NAME);
    heading.append(" checkpoints");
    assert(heading@ == sheet_heading());
    if text_contains(existing, heading.as_str()) {
        return None;
    }
    let mut text = existing.to_owned();
    let mut gap = String::new();
    if !text_eq(existing, "") && !text_finishes(existing, "\n") {
        gap.append("\n");
    }
    proof {
        reveal_strlit("");
        if existing@.len() == 0 {
            assert(existing@ =~= ""@);
        }
        assert(gap@ =~= if existing@.len() > 0 && !finishes(existing@, "\n"@) {
            "\n"@
        } else {
            Seq::empty()
        });
    }
    text.append(gap.as_str());
    text.append("\n");
    text.append(heading.as_str());
    text.append(render(AGENTS_MD_REST).as_str());
    Some(text)
}

/// The cheatsheet is appended once: a file that was given it carries it.
pub proof fn law_cheatsheet_is_appended_once(existing: Seq<char>)
    ensures
        contains_text(with_sheet(existing), sheet_heading()),
        crate::text::begins(with_sheet(existing), existing),
{
    let gap = if existing.len() > 0 && !finishes(existing, "\n"@) { "\n"@ } else { Seq::empty() };
    let whole = with_sheet(existing);
    let at = (existing + gap + "\n"@).len() as int;
    assert(whole.subrange(at, at + sheet_heading().len()) =~= sheet_heading());
    assert(occurs_at(whole, sheet_heading(), at));
    assert(whole.subrange(0, existing.len() as int) =~= existing);
}

/// What follows the heading of the cheatsheet.
pub open spec fn sheet_rest() -> Seq<char> {
    replaced(AGENTS_MD_REST@, MARK@, NAME@)
}

/// Where the heading of the cheatsheet is put.
pub open spec fn sheet_start(existing: Seq<char>) -> int {
    with_sheet(existing).len() - sheet_heading().len() - sheet_rest().len()
}

proof fn lemma_heading()
    ensures
        !sheet_heading().contains('\n'),
        sheet_heading().len() == 22,
        sheet_heading()[0] == '#',
        sheet_heading()[1] == '#',
        sheet_heading()[2] == ' ',
        sheet_heading()[3] == 'a',
        forall|i: int| 2 <= i < sheet_heading().len() ==> #[trigger] sheet_heading()[i] != '#',
{
    reveal_strlit("## ");
    reveal_strlit("acyclic");
    reveal_strlit(" checkpoints");
    let h = sheet_heading();
    assert forall|i: int| 2 <= i < h.len() implies #[trigger] h[i] != '#' by {
        if 3 <= i < 10 {
            assert(h[i] == NAME@[i - 3]);
        } else if i >= 10 {
            assert(h[i] == " checkpoints"@[i - 10]);
        }
    }
    assert forall|i: int| 0 <= i < h.len() implies #[trigger] h[i] != '\n' by {
        if i < 3 {
            assert(h[i] == "## "@[i]);
        } else if i < 10 {
            assert(h[i] == NAME@[i - 3]);
        } else {
            assert(h[i] == " checkpoints"@[i - 10]);
        }
    }
}

proof fn lemma_rendered_headings(t: Seq<char>)
    requires
        forall|j: int| #[trigger] later_heading(t, j),
    ensures
        forall|j: int| #[trigger] later_heading(replaced(t, MARK@, NAME@), j),
    decreases t.len(),
{
    reveal_strlit("acyclic");
    reveal_strlit("{{name}}");
    let u = replaced(t, MARK@, NAME@);
    if t.len() > 0 {
        let n = if occurs_at(t, MARK@, 0) { MARK@.len() as int } else { 1int };
        let rest = t.skip(n);
        assert forall|j: int| #[trigger] later_heading(rest, j) by {
            assert(later_heading(t, j + n));
        }
        lemma_rendered_headings(rest);
        let v = replaced(rest, MARK@, NAME@);
        assert forall|j: int| #[trigger] later_heading(u, j) by {
            if occurs_at(t, MARK@, 0) {
                if 0 <= j < NAME@.len() {
                    assert(u[j] == NAME@[j]);
                } else if j >= NAME@.len() {
                    assert(later_heading(v, j - NAME@.len()));
                    assert(forall|k: int| 0 <= k < v.len() ==> u[k + NAME@.len()] == #[trigger] v[k]);
                    if j + 3 < u.len() {
                        assert(u[j] == v[j - NAME@.len()]);
                    }
                }
            } else if j >= 1 {
                assert(later_heading(v, j - 1));
                assert(forall|k: int| 0 <= k < v.len() ==> u[k + 1] == #[trigger] v[k]);
            } else if j == 0 && u.len() > 3 && u[0] == '#' && u[1] == '#' && u[2] == ' ' {
                lemma_first_rendered(rest);
                let two = rest.skip(1);
                lemma_first_rendered(two);
                let three = two.skip(1);
                lemma_first_rendered(three);
                assert(u[1] == v[0]);
                assert(u[2] == replaced(two, MARK@, NAME@)[0]);
                assert(u[3] == replaced(three, MARK@, NAME@)[0]);
                assert(later_heading(t, 0));
                assert(t[3] == three[0]);
            }
        }
    }
}

/// How a rendered text begins: with the name where it had a mark, else with its
/// own first character.
proof fn lemma_first_rendered(t: Seq<char>)
    ensures
        t.len() == 0 ==> replaced(t, MARK@, NAME@).len() == 0,
        occurs_at(t, MARK@, 0) ==> t[0] == '{' && replaced(t, MARK@, NAME@)[0] == 'a',
        t.len() > 0 && !occurs_at(t, MARK@, 0) ==> replaced(t, MARK@, NAME@) == seq![t[0]]
            + replaced(t.skip(1), MARK@, NAME@),
{
    reveal_strlit("acyclic");
    reveal_strlit("{{name}}");
    if occurs_at(t, MARK@, 0) {
        assert(t.subrange(0, MARK@.len() as int)[0] == MARK@[0]);
    }
}

/// After the cheatsheet is appended its heading stands in the file exactly once.
pub proof fn law_heading_stands_once(existing: Seq<char>)
    requires
        !contains_text(existing, sheet_heading()),
    ensures
        occurs_at(with_sheet(existing), sheet_heading(), sheet_start(existing)),
        forall|i: int| #[trigger]
            occurs_at(with_sheet(existing), sheet_heading(), i) ==> i == sheet_start(existing),
{
    lemma_heading();
    lemma_later_headings();
    lemma_rendered_headings(AGENTS_MD_REST@);
    reveal_strlit("\n");
    let h = sheet_heading();
    let rest = sheet_rest();
    let whole = with_sheet(existing);
    let gap = if existing.len() > 0 && !finishes(existing, "\n"@) { "\n"@ } else { Seq::empty() };
    let lead = existing + gap + "\n"@;
    let at = lead.len() as int;
    assert(whole == lead + h + rest);
    assert(sheet_start(existing) == at);
    assert(whole.subrange(at, at + h.len()) =~= h);
    assert(whole[at - 1] == '\n');
    assert forall|i: int| #[trigger] occurs_at(whole, h, i) implies i == at by {
        let here = whole.subrange(i, i + h.len());
        assert(here == h);
        if i + h.len() <= existing.len() {
            assert(existing.subrange(i, i + h.len()) =~= here);
            assert(occurs_at(existing, h, i));
        } else if i < at {
            // A line break stands between the old text and the heading.
            let k = if i <= existing.len() {
                existing.len() as int
            } else {
                at - 1
            };
            assert(whole[k] == '\n');
            assert(here[k - i] == '\n');
            assert(h.contains('\n'));
        } else if i > at && i < at + h.len() {
            assert(here[0] == whole[i]);
            assert(whole[i] == h[i - at]);
            assert(here[1] == whole[i + 1]);
            if i == at + 1 {
                assert(whole[i + 1] == h[2]);
            }
        } else if i >= at + h.len() {
            let j = i - at - h.len();
            assert(forall|k: int|
                0 <= k < h.len() ==> #[trigger] here[k] == rest[j + k]);
            assert(later_heading(rest, j));
            assert(here[0] == rest[j] && here[1] == rest[j + 1] && here[2] == rest[j + 2]
                && here[3] == rest[j + 3]);
        }
    }
}

/// What stands for the maker of two hosts in a template.
pub const MAKER_MARK: &'static str = "{{maker}}";

/// A template with the product's name and the maker's in place of their marks.
pub open spec fn filled(template: Seq<char>, maker: Seq<char>) -> Seq<char> {
    replaced(replaced(template, MARK@, NAME@), MAKER_MARK@, maker)
}

/// A template with the product's name and the maker's in place of their marks.
pub fn fill(template: &str, maker: &str) -> (r: String)
    ensures
        r@ == filled(template@, maker@),
{
    replace(render(template).as_str(), MAKER_MARK, maker)
}

/// A name with its first letter a capital, where that is an ASCII letter.
pub open spec fn capitalized(name: Seq<char>) -> Seq<char> {
    if name.len() > 0 && 'a' <= name[0] && name[0] <= 'z' {
        seq![((name[0] as u8 - 32) as u8) as char] + name.skip(1)
    } else {
        name
    }
}

/// A name with its first letter a capital, where that is an ASCII letter.
pub fn capitalize(name: &str) -> (r: String)
    ensures
        r@ == capitalized(name@),
{
    let chars = chars_of(name);
    let size: usize = chars.len();
    if size > 0 && 'a' <= chars[0] && chars[0] <= 'z' {
        let mut out = String::new();
        out.push(((chars[0] as u8) - 32) as char);
        let rest = text_of(vstd::slice::slice_subrange(chars.as_slice(), 1, size));
        assert(rest@ =~= name@.skip(1));
        out.append(rest.as_str());
        assert(out@ =~= capitalized(name@));
        out
    } else {
        name.to_owned()
    }
}

/// The file that the maker's host for desktops reads, below where a system keeps
/// settings.
pub open spec fn desktop_file(maker: Seq<char>) -> Seq<char> {
    capitalized(maker) + "/"@ + maker + "_desktop_config.json"@
}

/// Where that file is: a directory that the environment names, and what leads
/// from it to the settings of the system; or what is missing.
pub open spec fn desktop_place(
    platform: Platform,
    home: Option<Seq<char>>,
    appdata: Option<Seq<char>>,
    config: Option<Seq<char>>,
) -> Result<(Seq<char>, Seq<char>), Seq<char>> {
    match platform {
        Platform::MacOs => match home {
            Some(home) => Ok((home, "Library/Application Support/"@)),
            None => Err("HOME is not set"@),
        },
        Platform::Windows => match appdata {
            Some(dir) => Ok((dir, ""@)),
            None => Err("APPDATA is not set"@),
        },
        _ => match (config, home) {
            (Some(dir), _) => Ok((dir, ""@)),
            (None, Some(home)) => Ok((home, ".config/"@)),
            (None, None) => Err("neither XDG_CONFIG_HOME nor HOME is set"@),
        },
    }
}

/// Where the file is that the maker's host for desktops reads: a directory, and
/// the path below it; or what is missing.
pub fn desktop_config_path(
    maker: &str,
    platform: Platform,
    home: Option<String>,
    appdata: Option<String>,
    config: Option<String>,
) -> (r: Result<(String, String), String>)
    ensures
        match desktop_place(platform, opt_text(home), opt_text(appdata), opt_text(config)) {
            Ok((dir, lead)) => r matches Ok((d, below)) && d@ == dir && below@ == lead
                + desktop_file(maker@),
            Err(message) => r matches Err(m) && m@ == message,
        },
{
    let (dir, lead) = match platform {
        Platform::MacOs => match home {
            Some(home) => (home, "Library/Application Support/"),
            None => {
                return Err("HOME is not set".to_owned());
            },
        },
        Platform::Windows => match appdata {
            Some(dir) => (dir, ""),
            None => {
                return Err("APPDATA is not set".to_owned());
            },
        },
        _ => match (config, home) {
            (Some(dir), _) => (dir, ""),
            (None, Some(home)) => (home, ".config/"),
            (None, None) => {
                return Err("neither XDG_CONFIG_HOME nor HOME is set".to_owned());
            },
        },
    };
    let mut file = capitalize(maker);
    file.append("/");
    file.append(maker);
    file.append("_desktop_config.json");
    let mut below = lead.to_owned();
    below.append(file.as_str());
    Ok((dir, below))
}

/// The servers' documents that hosts read below a repository.
#[derive(Clone, Copy, Debug, PartialEq, Eq, Structural)]
pub enum ServerShape {
    McpServers,
    VsCode,
    OpenCode,
}

/// One file of an adapter. Paths are below the repository; the product's name
/// and the maker's stand in paths and texts as marks.
#[derive(Clone, Copy, Debug)]
pub enum Step {
    /// The hooks of a host, merged into a document.
    Hooks { path: &'static str, host: Host },
    /// The hooks of the host with flat entries.
    FlatHooks { path: &'static str },
    /// The library's server, merged into a document.
    Server { path: &'static str, shape: ServerShape },
    /// The library's server, in the document of the machine's user.
    Machine,
    /// A text.
    Text { path: &'static str, text: &'static str },
    /// The cheatsheet.
    Sheet,
}

/// The files of a host's adapter, in the order they are written.
pub open spec fn steps_of(host: Host) -> Seq<Step> {
    match host {
        Host::Code => seq![
            Step::Hooks { path: ".{{maker}}/settings.json", host: Host::Code },
            Step::Text { path: ".{{maker}}/commands/rewind.md", text: REWIND_COMMAND },
            Step::Text { path: ".{{maker}}/commands/timeline.md", text: TIMELINE_COMMAND },
            Step::Text {
                path: ".{{maker}}/skills/{{name}}-self-rollback/SKILL.md",
                text: SELF_ROLLBACK_SKILL,
            },
            Step::Text { path: ".{{maker}}/commands/fork.md", text: FORK_COMMAND },
            Step::Text {
                path: ".{{maker}}/skills/{{name}}-fork-decompose/SKILL.md",
                text: FORK_DECOMPOSE_SKILL,
            },
        ],
        Host::Codex => seq![
            Step::Hooks { path: ".codex/hooks.json", host: Host::Codex },
            Step::Sheet,
        ],
        Host::Cursor => seq![
            Step::FlatHooks { path: ".cursor/hooks.json" },
            Step::Text { path: ".cursor/rules/{{name}}.mdc", text: CURSOR_RULE },
            Step::Server { path: ".cursor/mcp.json", shape: ServerShape::McpServers },
        ],
        Host::AgentsMd => seq![Step::Sheet],
        Host::Desktop => seq![Step::Machine],
        Host::VsCode => seq![
            Step::Server { path: ".vscode/mcp.json", shape: ServerShape::VsCode },
        ],
        Host::OpenCode => seq![
            Step::Server { path: "opencode.json", shape: ServerShape::OpenCode },
            Step::Sheet,
        ],
    }
}

/// What installing a host's adapter does: the files that it writes, in order.
pub fn run(host: Host) -> (r: Vec<Step>)
    ensures
        r@ == steps_of(host),
{
    let mut out: Vec<Step> = Vec::new();
    match host {
        Host::Code => {
            out.push(Step::Hooks { path: ".{{maker}}/settings.json", host: Host::Code });
            out.push(Step::Text { path: ".{{maker}}/commands/rewind.md", text: REWIND_COMMAND });
            out.push(Step::Text { path: ".{{maker}}/commands/timeline.md", text: TIMELINE_COMMAND });
            out.push(
                Step::Text {
                    path: ".{{maker}}/skills/{{name}}-self-rollback/SKILL.md",
                    text: SELF_ROLLBACK_SKILL,
                },
            );
            out.push(Step::Text { path: ".{{maker}}/commands/fork.md", text: FORK_COMMAND });
            out.push(
                Step::Text {
                    path: ".{{maker}}/skills/{{name}}-fork-decompose/SKILL.md",
                    text: FORK_DECOMPOSE_SKILL,
                },
            );
        },
        Host::Codex => {
            out.push(Step::Hooks { path: ".codex/hooks.json", host: Host::Codex });
            out.push(Step::Sheet);
        },
        Host::Cursor => {
            out.push(Step::FlatHooks { path: ".cursor/hooks.json" });
            out.push(Step::Text { path: ".cursor/rules/{{name}}.mdc", text: CURSOR_RULE });
            out.push(Step::Server { path: ".cursor/mcp.json", shape: ServerShape::McpServers });
        },
        Host::AgentsMd => {
            out.push(Step::Sheet);
        },
        Host::Desktop => {
            out.push(Step::Machine);
        },
        Host::VsCode => {
            out.push(Step::Server { path: ".vscode/mcp.json", shape: ServerShape::VsCode });
        },
        Host::OpenCode => {
            out.push(Step::Server { path: "opencode.json", shape: ServerShape::OpenCode });
            out.push(Step::Sheet);
        },
    }
    assert(out@ =~= steps_of(host));
    out
}

/// The shape of a host's document.
pub fn shape_of(shape: ServerShape) -> (r: McpConfigShape)
    ensures
        r.servers_key@ != "$schema"@,
        r.servers_key@ == match shape {
            ServerShape::McpServers => "mcpServers"@,
            ServerShape::VsCode => "servers"@,
            ServerShape::OpenCode => "mcp"@,
        },
        r.explicit_type is None <==> shape == ServerShape::McpServers,
        r.command_as_array <==> shape == ServerShape::OpenCode,
        r.enabled_flag <==> shape == ServerShape::OpenCode,
        r.schema_url is Some <==> shape == ServerShape::OpenCode,
        r.workspace_cwd <==> shape == ServerShape::VsCode,
        r.explicit_type matches Some(kind) ==> kind@ == if shape == ServerShape::VsCode {
            "stdio"@
        } else {
            "local"@
        },
        r.schema_url matches Some(url) ==> url@ == "https://opencode.ai/config.json"@,
{
    proof {
        reveal_strlit("$schema");
        reveal_strlit("mcpServers");
        reveal_strlit("servers");
        reveal_strlit("mcp");
        assert("$schema"@[0] != "servers"@[0]);
    }
    match shape {
        ServerShape::McpServers => mcp_servers_shape(),
        ServerShape::VsCode => crate::servers::vscode_mcp_shape(),
        ServerShape::OpenCode => crate::servers::opencode_mcp_shape(),
    }
}

/// An event that was given the library's entry has one of the library's, and
/// everybody else's as they were.
pub proof fn law_one_entry_for_each_event(
    shape: EntryShape,
    before: Seq<(String, Json)>,
    after: Seq<(String, Json)>,
    row: HookRow,
    host: Option<Seq<char>>,
)
    requires
        host matches Some(h) ==> !h.contains(' '),
        given(shape, before, after, row, host),
    ensures
        ours(shape, entries_of(after, row.event@).last()),
        forall|i: int|
            0 <= i < entries_of(after, row.event@).len() - 1 ==> !ours(
                shape,
                #[trigger] entries_of(after, row.event@)[i],
            ),
        forall|e: Json|
            entries_of(before, row.event@).contains(e) && !ours(shape, e)
                ==> #[trigger] entries_of(after, row.event@).contains(e),
{
    let list = entries_of(after, row.event@);
    let old_list = entries_of(before, row.event@);
    let kept = old_list.filter(not_ours(shape));
    law_own_entries_are_recognized(shape, list.last(), row.tools, host, row.hook);
    assert forall|i: int| 0 <= i < list.len() - 1 implies !ours(shape, #[trigger] list[i]) by {
        assert(list.drop_last()[i] == list[i]);
        old_list.lemma_filter_pred(not_ours(shape), i);
    }
    assert forall|e: Json| old_list.contains(e) && !ours(shape, e) implies #[trigger] list.contains(
        e,
    ) by {
        let k = old_list.index_of(e);
        old_list.lemma_filter_contains(not_ours(shape), k);
        let m = kept.index_of(e);
        assert(list[m] == list.drop_last()[m]);
    }
}

/// Installing again changes nothing: each event keeps everybody else's entries
/// and gets the same one of the library's, and nothing else is touched.
pub proof fn law_installing_twice_is_installing_once(
    shape: EntryShape,
    before: Seq<(String, Json)>,
    once: Seq<(String, Json)>,
    twice: Seq<(String, Json)>,
    rows: Seq<HookRow>,
    host: Option<Seq<char>>,
)
    requires
        host matches Some(h) ==> !h.contains(' '),
        given_all(shape, before, once, rows, rows.len() as int, host),
        given_all(shape, once, twice, rows, rows.len() as int, host),
    ensures
        forall|i: int|
            0 <= i < rows.len() ==> {
                let event = (#[trigger] rows[i]).event@;
                &&& entries_of(twice, event).drop_last() == entries_of(once, event).drop_last()
                &&& is_entry(
                    shape,
                    entries_of(once, event).last(),
                    rows[i].tools,
                    hook_command(host, rows[i].hook),
                )
                &&& is_entry(
                    shape,
                    entries_of(twice, event).last(),
                    rows[i].tools,
                    hook_command(host, rows[i].hook),
                )
            },
        forall|key: Seq<char>|
            !crate::install::among_rows(rows, rows.len() as int, key) ==> #[trigger] field(
                twice,
                key,
            ) == field(before, key),
{
    assert forall|i: int| 0 <= i < rows.len() implies {
        let event = (#[trigger] rows[i]).event@;
        entries_of(twice, event).drop_last() == entries_of(once, event).drop_last()
    } by {
        let row = rows[i];
        assert(given(shape, before, once, row, host));
        assert(given(shape, once, twice, row, host));
        law_one_entry_for_each_event(shape, before, once, row, host);
        let list = entries_of(once, row.event@);
        crate::vecs::lemma_filter_but_one(list, not_ours(shape), list.len() - 1);
        assert(list.remove(list.len() - 1) =~= list.drop_last());
    }
    assert forall|i: int| 0 <= i < rows.len() implies {
        let event = (#[trigger] rows[i]).event@;
        &&& is_entry(
            shape,
            entries_of(once, event).last(),
            rows[i].tools,
            hook_command(host, rows[i].hook),
        )
        &&& is_entry(
            shape,
            entries_of(twice, event).last(),
            rows[i].tools,
            hook_command(host, rows[i].hook),
        )
    } by {
        assert(given(shape, before, once, rows[i], host));
        assert(given(shape, once, twice, rows[i], host));
    }
    assert forall|key: Seq<char>| !crate::install::among_rows(
        rows,
        rows.len() as int,
        key,
    ) implies #[trigger] field(twice, key) == field(before, key) by {
        assert(field(once, key) == field(before, key));
    }
}

/// The key of a repository's server stays its key once the server is there.
pub proof fn law_key_is_stable(
    shape: McpConfigShape,
    entry: McpEntry,
    repo: Seq<u8>,
    before: Seq<(String, Json)>,
    after: Seq<(String, Json)>,
    server: Vec<(String, Json)>,
)
    requires
        !shape.command_as_array,
        entry.repo matches Some(shown) && shown@ == lossy_text(repo),
        is_key(before, repo, entry.key@),
        field(after, entry.key@) == Some(Json::Object(server)),
        is_server(shape, entry, inner(before, entry.key@), server@),
        agree_but(after, before, entry.key@),
    ensures
        is_key(after, repo, entry.key@),
{
    let shown = lossy_text(repo);
    let key = entry.key@;
    assert(!occupied(after, shown, key)) by {
        assert(member(Json::Object(server), "args"@) == field(server@, "args"@));
    }
    if exists|n: int|
        0 <= n <= LAST_CANDIDATE && key == #[trigger] candidate(repo, n) && !occupied(
            before,
            shown,
            key,
        ) && forall|m: int|
            0 <= m < n ==> occupied(before, shown, #[trigger] candidate(repo, m)) {
        let n = choose|n: int|
            0 <= n <= LAST_CANDIDATE && key == #[trigger] candidate(repo, n) && !occupied(
                before,
                shown,
                key,
            ) && forall|m: int|
                0 <= m < n ==> occupied(before, shown, #[trigger] candidate(repo, m));
        assert forall|m: int| 0 <= m < n implies occupied(
            after,
            shown,
            #[trigger] candidate(repo, m),
        ) by {
            assert(occupied(before, shown, candidate(repo, m)));
            assert(candidate(repo, m) != key);
            assert(field(after, candidate(repo, m)) == field(before, candidate(repo, m)));
        }
        assert(key == candidate(repo, n));
    } else {
        reveal_strlit("-");
        assert(candidate(repo, 0).len() < candidate(repo, 1).len());
        assert forall|m: int| 0 <= m < 1 implies occupied(
            after,
            shown,
            #[trigger] candidate(repo, m),
        ) by {
            assert(occupied(before, shown, candidate(repo, 0)));
            assert(field(after, candidate(repo, 0)) == field(before, candidate(repo, 0)));
        }
        assert(key == candidate(repo, 1));
    }
}

/// Two repositories never share a server: while a key is free, a repository is
/// not given the key of another's.
pub proof fn law_repositories_keep_apart(
    servers: Seq<(String, Json)>,
    other: Seq<char>,
    taken: Seq<char>,
    repo: Seq<u8>,
    key: Seq<char>,
)
    requires
        field(servers, taken) matches Some(entry) && is_list(
            member(entry, "args"@),
            arg_texts(Some(other)),
        ),
        other != lossy_text(repo),
        is_key(servers, repo, key),
        exists|n: int|
            0 <= n <= LAST_CANDIDATE && !occupied(
                servers,
                lossy_text(repo),
                #[trigger] candidate(repo, n),
            ),
    ensures
        key != taken,
{
    let shown = lossy_text(repo);
    let entry = field(servers, taken)->0;
    assert(occupied(servers, shown, taken)) by {
        if is_list(member(entry, "args"@), arg_texts(Some(shown))) {
            let l = member(entry, "args"@)->0->List_0;
            assert(l@[2] is Text);
            assert(arg_texts(Some(shown))[2] == shown);
            assert(arg_texts(Some(other))[2] == other);
        }
    }
}

/// Every adapter writes something, the hooks in it are its own host's, and the
/// server is described in the shape that its own host reads.
pub proof fn law_adapters_are_their_own_hosts(host: Host, i: int)
    requires
        0 <= i < steps_of(host).len(),
    ensures
        steps_of(host)[i] matches Step::Hooks { host: of, .. } ==> of == host,
        steps_of(host)[i] is FlatHooks ==> host == Host::Cursor,
        steps_of(host)[i] is Machine <==> host == Host::Desktop,
        steps_of(host)[i] matches Step::Server { shape, .. } ==> {
            &&& host == Host::VsCode <==> shape == ServerShape::VsCode
            &&& host == Host::OpenCode <==> shape == ServerShape::OpenCode
        },
        host == Host::Code || host == Host::Codex ==> steps_of(host)[0] is Hooks,
        host == Host::Cursor ==> steps_of(host)[0] is FlatHooks,
        host == Host::VsCode || host == Host::OpenCode ==> steps_of(host)[0] is Server,
        host == Host::Codex || host == Host::AgentsMd || host == Host::OpenCode ==> steps_of(
            host,
        ).last() is Sheet,
{
}

} // verus!
