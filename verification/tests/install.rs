//! Wiring hosts into a repository: what becomes of the files that they read.
use acyclic::adapters::{
    agents_md, capitalize, desktop_config_path, fill, flat_hooks_file, hooks_file, machine_entry,
    run, server_file, shape_of, ServerShape, Step,
};
use acyclic::fork::Platform;
use acyclic::install::{
    is_our_command, is_our_cursor_entry, is_ours, Host, MUTATING_TOOLS,
};
use acyclic::json::Json;
use acyclic::path::HostPath;
use acyclic::product::{render, NAME};
use acyclic::servers::{fnv1a, mcp_servers_shape, vscode_mcp_shape, McpEntry};
use serde_json::Value;

fn read(text: &str) -> Value {
    serde_json::from_str(text).expect("json")
}

fn text(s: &str) -> Json {
    Json::Text(s.to_owned())
}

fn json(value: &Value) -> Json {
    match value {
        Value::Null => Json::Null,
        Value::Bool(b) => Json::Bool(*b),
        Value::Number(n) => match (n.as_u64(), n.as_i64()) {
            (Some(whole), _) => Json::Whole(whole),
            (None, Some(negative)) => Json::Negative(negative),
            (None, None) => Json::Float(n.clone()),
        },
        Value::String(s) => text(s),
        Value::Array(items) => Json::List(items.iter().map(json).collect()),
        Value::Object(fields) => {
            Json::Object(fields.iter().map(|(k, v)| (k.clone(), json(v))).collect())
        }
    }
}

fn list(items: &[&str]) -> Value {
    Value::Array(items.iter().map(|s| Value::String(s.to_string())).collect())
}

const EVENTS: [&str; 5] =
    ["PreToolUse", "PostToolUse", "UserPromptSubmit", "SessionStart", "SessionEnd"];

#[test]
fn is_our_command_recognizes_host_prefixed_form() {
    assert!(is_our_command(&format!("ACYCLIC_HOST=cursor {NAME} hook pre-tool")));
    assert!(is_our_command(&format!("{NAME} hook pre-tool")));
    assert!(!is_our_command("echo not ours"));
    assert!(!is_our_command(&format!("{NAME} hookery --flag")));
    // A user command mentioning our phrase as an argument, not invoking it, is
    // left alone.
    assert!(!is_our_command(&format!("echo {NAME} hook mention")));
}

#[test]
fn commands_at_the_edge_of_recognition() {
    assert!(is_our_command("acyclic hook"));
    assert!(!is_our_command("acyclic"));
    assert!(!is_our_command("acyclic timeline"));
    assert!(!is_our_command("ACYCLIC_HOST=cursor"));
    assert!(!is_our_command("ACYCLIC_HOST=cursor echo acyclic hook x"));
    assert!(!is_our_command(""));
}

#[test]
fn merge_preserves_user_settings_and_is_idempotent() {
    let seed = r#"{
      "permissions": {"allow": ["Bash(ls:*)"]},
      "hooks": {
        "PreToolUse": [
          {"matcher": "Bash",
           "hooks": [{"type": "command", "command": "echo NAME_HERE hook mention"}]}
        ]
      }
    }"#
    .replace("NAME_HERE", NAME);
    let once = hooks_file(Some(&seed), "settings.json", None).expect("first merge");
    let twice = hooks_file(Some(&once), "settings.json", None).expect("second merge");
    assert_eq!(once, twice);

    let value = read(&twice);
    assert_eq!(value["permissions"]["allow"][0], "Bash(ls:*)");
    let pre = value["hooks"]["PreToolUse"].as_array().expect("array");
    assert!(pre
        .iter()
        .any(|entry| entry["hooks"][0]["command"] == format!("echo {NAME} hook mention")));
    for event in EVENTS {
        let ours = value["hooks"][event]
            .as_array()
            .expect("array")
            .iter()
            .filter(|entry| is_ours(&json(entry)))
            .count();
        assert_eq!(ours, 1, "{event}");
    }
}

#[test]
fn merge_creates_settings_from_nothing() {
    let value = read(&hooks_file(None, "settings.json", None).expect("merge"));
    assert_eq!(
        value["hooks"]["PostToolUse"][0]["hooks"][0]["command"],
        format!("{NAME} hook post-tool")
    );
    assert_eq!(value["hooks"]["PreToolUse"][0]["matcher"], MUTATING_TOOLS);
    assert!(value["hooks"]["SessionEnd"][0].get("matcher").is_none());
}

#[test]
fn agents_md_appends_once() {
    let first = agents_md("# Existing\n").expect("appended");
    assert!(agents_md(&first).is_none());
    assert!(first.starts_with("# Existing\n"));
    assert_eq!(first.matches(&format!("## {NAME} checkpoints")).count(), 1);
    assert!(!first.contains("{{name}}"));
    assert!(agents_md("no end").expect("appended").starts_with("no end\n\n## acyclic checkpoints\n"));
    assert!(agents_md("").expect("appended").starts_with("\n## acyclic checkpoints\n"));
}

#[test]
fn codex_install_is_idempotent_and_writes_agents_md() {
    let once = hooks_file(None, "hooks.json", Some("codex")).expect("first install");
    let twice = hooks_file(Some(&once), "hooks.json", Some("codex")).expect("second install");
    let value = read(&twice);
    for event in EVENTS {
        let entries = value["hooks"][event].as_array().expect("array");
        assert_eq!(entries.iter().filter(|e| is_ours(&json(e))).count(), 1, "{event}");
        assert!(value.get(event).is_none(), "{event} must not be top-level");
    }
    assert_eq!(
        value["hooks"]["SessionStart"][0]["hooks"][0]["command"],
        format!("ACYCLIC_HOST=codex {NAME} hook session-start")
    );
    assert!(matches!(run(Host::Codex)[1], Step::Sheet));
}

#[test]
fn codex_reinstall_migrates_the_legacy_flat_layout() {
    let legacy = r#"{
      "PreToolUse": [
        {"hooks": [{"type": "command", "command": "echo user-hook"}]},
        {"hooks": [{"type": "command", "command": "ACYCLIC_HOST=codex NAME_HERE hook pre-tool"}]}
      ],
      "SessionEnd": [
        {"hooks": [{"type": "command", "command": "ACYCLIC_HOST=codex NAME_HERE hook session-end"}]}
      ]
    }"#
    .replace("NAME_HERE", NAME);
    let value = read(&hooks_file(Some(&legacy), "hooks.json", Some("codex")).expect("install"));
    assert_eq!(value["PreToolUse"].as_array().map(Vec::len), Some(1), "user hook kept");
    assert!(value.get("SessionEnd").is_none(), "emptied legacy key removed");
    assert_eq!(
        value["hooks"]["PreToolUse"].as_array().map(Vec::len),
        Some(1),
        "ours lives under hooks now"
    );
}

#[test]
fn cursor_install_is_idempotent_and_writes_rule() {
    let once = flat_hooks_file(None, "hooks.json").expect("first install");
    let twice = flat_hooks_file(Some(&once), "hooks.json").expect("second install");
    let value = read(&twice);
    assert_eq!(value["version"], 1);
    for event in [
        "sessionStart",
        "sessionEnd",
        "beforeShellExecution",
        "afterShellExecution",
        "afterFileEdit",
        "beforeSubmitPrompt",
    ] {
        let entries = value["hooks"][event].as_array().expect("array");
        let ours = entries.iter().filter(|e| is_our_cursor_entry(&json(e))).count();
        assert_eq!(ours, 1, "{event}");
    }
    assert_eq!(
        value["hooks"]["beforeShellExecution"][0]["command"],
        format!("ACYCLIC_HOST=cursor {NAME} hook pre-tool")
    );

    let steps = run(Host::Cursor);
    let Step::Text { path, text } = steps[1] else {
        panic!("no rule");
    };
    assert_eq!(render(path), format!(".cursor/rules/{NAME}.mdc"));
    assert!(render(text).contains(&format!("## {NAME} checkpoints")));

    let mcp = read(
        &server_file(None, "mcp.json", &mcp_servers_shape(), &McpEntry::portable()).expect("mcp"),
    );
    assert_eq!(mcp["mcpServers"][NAME]["command"], NAME);
    assert_eq!(mcp["mcpServers"][NAME]["args"], list(&["mcp"]));
    assert!(mcp["mcpServers"][NAME].get("cwd").is_none());
}

#[test]
fn vscode_install_writes_project_scoped_mcp_config() {
    let shape = vscode_mcp_shape();
    let entry = McpEntry::portable();
    let once = server_file(None, "mcp.json", &shape, &entry).expect("first install");
    let twice = server_file(Some(&once), "mcp.json", &shape, &entry).expect("second install");
    assert_eq!(once, twice);
    let value = read(&twice);
    assert_eq!(value["servers"][NAME]["type"], "stdio");
    assert_eq!(value["servers"][NAME]["command"], NAME);
    assert_eq!(value["servers"][NAME]["args"], list(&["mcp"]));
    assert_eq!(value["servers"][NAME]["cwd"], "${workspaceFolder}");
    assert!(value.get("mcpServers").is_none());
}

#[test]
fn reinstall_keeps_user_added_fields_on_our_entry() {
    let shape = vscode_mcp_shape();
    let entry = McpEntry::portable();
    let first = server_file(None, "mcp.json", &shape, &entry).expect("first install");
    let mut value = read(&first);
    let mut env = serde_json::Map::new();
    env.insert("ACYCLIC_TRACE".to_owned(), Value::String("1".to_owned()));
    value["servers"][NAME]["env"] = Value::Object(env);
    let seeded = value.to_string();

    let second = server_file(Some(&seeded), "mcp.json", &shape, &entry).expect("second install");
    let value = read(&second);
    assert_eq!(value["servers"][NAME]["env"]["ACYCLIC_TRACE"], "1");
    assert_eq!(value["servers"][NAME]["args"], list(&["mcp"]));
}

#[test]
fn opencode_takes_one_command_list_and_keeps_its_flag() {
    let shape = shape_of(ServerShape::OpenCode);
    let entry = McpEntry::portable();
    let value = read(&server_file(None, "opencode.json", &shape, &entry).expect("install"));
    assert_eq!(value["$schema"], "https://opencode.ai/config.json");
    assert_eq!(value["mcp"][NAME]["type"], "local");
    assert_eq!(value["mcp"][NAME]["command"], list(&[NAME, "mcp"]));
    assert!(value["mcp"][NAME].get("args").is_none());
    assert_eq!(value["mcp"][NAME]["enabled"], true);
    let off = r#"{"$schema": "mine", "mcp": {"acyclic": {"enabled": false, "args": ["x"]}}}"#;
    let value = read(&server_file(Some(off), "opencode.json", &shape, &entry).expect("install"));
    assert_eq!(value["$schema"], "mine");
    assert_eq!(value["mcp"][NAME]["enabled"], false);
    assert!(value["mcp"][NAME].get("args").is_none());
}

#[test]
fn every_host_installs_into_a_fresh_repo() {
    for host in Host::ALL {
        let steps = run(host);
        assert!(!steps.is_empty(), "{host:?}");
        for step in steps {
            match step {
                Step::Hooks { path, host } => {
                    let name = host.name("acme");
                    let told = if host == Host::Code { None } else { Some(name.as_str()) };
                    hooks_file(None, path, told).expect("hooks");
                }
                Step::FlatHooks { path } => {
                    flat_hooks_file(None, path).expect("hooks");
                }
                Step::Server { path, shape } => {
                    server_file(None, path, &shape_of(shape), &McpEntry::portable())
                        .expect("server");
                }
                Step::Text { path, text } => {
                    assert!(!fill(path, "acme").contains("{{"));
                    assert!(!fill(text, "acme").contains("{{name}}"));
                }
                Step::Sheet => {
                    assert!(agents_md("").is_some());
                }
                Step::Machine => {
                    assert_eq!(host, Host::Desktop);
                }
            }
        }
    }
}

#[test]
fn host_names_are_the_documented_kebab_case_ids() {
    let names: Vec<String> = Host::ALL.iter().map(|host| host.name("acme")).collect();
    assert_eq!(
        names,
        ["acme-code", "codex", "cursor", "agents-md", "acme-desktop", "vscode", "opencode"]
    );
    for host in Host::ALL {
        assert_eq!(Host::parse(&host.name("acme"), "acme"), Some(host));
    }
    assert_eq!(Host::parse("vs-code", "acme"), None);
    assert_eq!(Host::parse("other-code", "acme"), None);
}

fn register(config: &mut String, exe: &str, repo: &str) -> String {
    let entry = machine_entry(
        Some(config.as_str()),
        &HostPath::from_text(exe),
        &HostPath::from_text(repo),
    );
    *config = server_file(Some(config.as_str()), "config", &mcp_servers_shape(), &entry)
        .expect("merge");
    entry.key
}

#[test]
fn desktop_config_merge_is_idempotent_and_preserves_other_servers() {
    let mut config = r#"{
      "mcpServers": {
        "other-tool": {"command": "/usr/bin/other", "args": []}
      }
    }"#
    .to_owned();
    let exe = format!("/usr/local/bin/{NAME}");
    let repo = "/Users/dev/my-repo";
    register(&mut config, &exe, repo);
    let before = config.clone();
    register(&mut config, &exe, repo);
    assert_eq!(before, config, "the second install is idempotent");
    let other_repo = "/Users/dev/other-repo";
    register(&mut config, &exe, other_repo);
    let twin_repo = "/Users/dev/elsewhere/my-repo";
    let twin_key = register(&mut config, &exe, twin_repo);
    assert_ne!(twin_key, format!("{NAME}-my-repo"));
    assert!(twin_key.starts_with(&format!("{NAME}-my-repo-")), "{twin_key}");
    assert_eq!(register(&mut config, &exe, twin_repo), twin_key, "the suffixed key is stable");

    let fourth = "/Users/dev/again/my-repo";
    let would_be = machine_entry(
        Some(&config),
        &HostPath::from_text(&exe),
        &HostPath::from_text(fourth),
    )
    .key;
    let mut value = read(&config);
    let mut planted = serde_json::Map::new();
    planted.insert("command".to_owned(), Value::String("/usr/bin/theirs".to_owned()));
    planted.insert("args".to_owned(), list(&[]));
    value["mcpServers"][&would_be] = Value::Object(planted);
    config = value.to_string();
    let chosen = register(&mut config, &exe, fourth);
    assert_ne!(would_be, chosen, "occupied suffix skipped");

    let value = read(&config);
    assert_eq!(value["mcpServers"]["other-tool"]["command"], "/usr/bin/other");
    let key = format!("{NAME}-my-repo");
    assert_eq!(value["mcpServers"][&key]["command"], exe);
    assert_eq!(value["mcpServers"][&key]["args"], list(&["mcp", "--repo", repo]));
    assert_eq!(value["mcpServers"][format!("{NAME}-other-repo")]["args"][2], other_repo);
    assert_eq!(value["mcpServers"][&twin_key]["args"][2], twin_repo);
    assert_eq!(
        value["mcpServers"][&would_be]["command"], "/usr/bin/theirs",
        "planted server untouched"
    );
    assert_eq!(value["mcpServers"][&chosen]["args"][2], fourth);
    // other-tool, my-repo, other-repo, twin, planted, fourth.
    assert_eq!(value["mcpServers"].as_object().map(|m| m.len()), Some(6));
}

#[test]
fn documents_of_the_wrong_shape_are_refused() {
    assert_eq!(
        hooks_file(Some("[]"), "/r/settings.json", None).unwrap_err(),
        "/r/settings.json is not an object"
    );
    assert_eq!(
        hooks_file(Some(r#"{"hooks": 1}"#), "p", None).unwrap_err(),
        "hooks is not an object"
    );
    assert_eq!(
        hooks_file(Some(r#"{"hooks": {"SessionStart": {}}}"#), "p", None).unwrap_err(),
        "hooks.SessionStart is not an array"
    );
    assert!(hooks_file(Some("{"), "p", None).unwrap_err().starts_with("p: "));
    assert_eq!(
        flat_hooks_file(Some("3"), "p").unwrap_err(),
        "hooks.json is not an object"
    );
    assert_eq!(
        flat_hooks_file(Some(r#"{"hooks": []}"#), "p").unwrap_err(),
        "hooks.hooks is not an object"
    );
    assert_eq!(
        flat_hooks_file(Some(r#"{"hooks": {"sessionEnd": 1}}"#), "p").unwrap_err(),
        "hooks.hooks.sessionEnd is not an array"
    );
    let entry = McpEntry::portable();
    assert_eq!(
        server_file(Some("null"), "p", &mcp_servers_shape(), &entry).unwrap_err(),
        "p is not an object"
    );
    assert_eq!(
        server_file(Some(r#"{"servers": 1}"#), "p", &vscode_mcp_shape(), &entry).unwrap_err(),
        "servers is not an object"
    );
}

#[test]
fn documents_are_written_in_the_order_and_form_of_the_parser() {
    let once = server_file(
        Some(r#"{"z": 1.5, "mcpServers": {"a": null}, "b": [true, "x"]}"#),
        "p",
        &mcp_servers_shape(),
        &McpEntry::portable(),
    )
    .expect("merge");
    let mut expected = serde_json::to_string_pretty(&read(&once)).expect("pretty");
    expected.push('\n');
    assert_eq!(once, expected);
    assert_eq!(read(&once)["z"], 1.5);
    assert_eq!(read(&once)["b"][1], "x");
}

#[test]
fn short_ids_are_those_of_the_published_hash() {
    assert_eq!(fnv1a(b""), 0x811c_9dc5);
    assert_eq!(fnv1a(b"a"), 0xe40c_292c);
    assert_eq!(fnv1a(b"foobar"), 0xbf9c_f968);
}

#[test]
fn the_desktop_file_is_where_the_system_keeps_it() {
    let some = |s: &str| Some(s.to_owned());
    let place = |platform, home, appdata, config| {
        desktop_config_path("acme", platform, home, appdata, config)
    };
    assert_eq!(
        place(Platform::MacOs, some("/Users/me"), None, None).unwrap(),
        (
            "/Users/me".to_owned(),
            "Library/Application Support/Acme/acme_desktop_config.json".to_owned()
        )
    );
    assert_eq!(
        place(Platform::Linux, some("/home/me"), None, some("/cfg")).unwrap(),
        ("/cfg".to_owned(), "Acme/acme_desktop_config.json".to_owned())
    );
    assert_eq!(
        place(Platform::Linux, some("/home/me"), None, None).unwrap(),
        ("/home/me".to_owned(), ".config/Acme/acme_desktop_config.json".to_owned())
    );
    assert_eq!(
        place(Platform::Windows, None, some("C:/x"), None).unwrap(),
        ("C:/x".to_owned(), "Acme/acme_desktop_config.json".to_owned())
    );
    assert_eq!(
        place(Platform::Linux, None, None, None).unwrap_err(),
        "neither XDG_CONFIG_HOME nor HOME is set"
    );
    assert_eq!(place(Platform::MacOs, None, None, None).unwrap_err(), "HOME is not set");
    assert_eq!(place(Platform::Windows, None, None, None).unwrap_err(), "APPDATA is not set");
}

#[test]
fn the_maker_is_filled_in() {
    let steps = run(Host::Code);
    let Step::Hooks { path, .. } = steps[0] else {
        panic!("no hooks");
    };
    assert_eq!(fill(path, "acme"), ".acme/settings.json");
    let Step::Text { path, .. } = steps[3] else {
        panic!("no skill");
    };
    assert_eq!(fill(path, "acme"), ".acme/skills/acyclic-self-rollback/SKILL.md");
    assert_eq!(capitalize("acme"), "Acme");
    assert_eq!(capitalize("Élan"), "Élan");
    assert_eq!(capitalize(""), "");
}

#[test]
fn writing_again_leaves_the_same_bytes() {
    let written = r#"{"z": -7, "b": [1, {"a": null}], "PreToolUse": [1],
        "hooks": {"Stop": [], "PreToolUse": [{"hooks": [{"command": "mine"}]}]},
        "mcpServers": {"acyclic": {"env": {"A": "b"}, "command": "old"}, "other": {}}}"#;
    for existing in [None, Some(written)] {
        for host in [None, Some("codex")] {
            let once = hooks_file(existing, "p", host).expect("hooks");
            assert_eq!(hooks_file(Some(&once), "p", host).expect("again"), once);
            assert_eq!(once.matches("hook pre-tool").count(), 1);
        }
        let once = flat_hooks_file(existing, "p").expect("hooks");
        assert_eq!(flat_hooks_file(Some(&once), "p").expect("again"), once);
        for shape in [ServerShape::McpServers, ServerShape::VsCode, ServerShape::OpenCode] {
            let shape = shape_of(shape);
            let once = server_file(existing, "p", &shape, &McpEntry::portable()).expect("server");
            let again = server_file(Some(&once), "p", &shape, &McpEntry::portable());
            assert_eq!(again.expect("again"), once);
        }
    }
    let kept = hooks_file(Some(written), "p", None).expect("hooks");
    assert_eq!(read(&kept)["z"], -7);
    assert!(kept.find("\"b\"") < kept.find("\"z\""));
}
