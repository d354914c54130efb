//! Hooks: what a host tells, what the daemon is asked, what is printed.
use acyclic::client::ConnectError;
use acyclic::hook::{
    answered, briefed, deadline, is_timeout, not_reached, request, spawn_wait, starting_notice,
    HookEvent, Payload, ALLOW,
};
use acyclic::proto::{BriefInfo, Op, Reply};

fn payload(raw: &str) -> Payload {
    let value: serde_json::Value = serde_json::from_str(raw).expect("json");
    let text = |key: &str| value.get(key).and_then(|v| v.as_str()).map(|s| s.to_owned());
    Payload {
        session_id: text("session_id"),
        conversation_id: text("conversation_id"),
        tool_name: text("tool_name"),
        tool_use_id: text("tool_use_id"),
        prompt: text("prompt"),
        source: text("source"),
        command: text("command"),
    }
}

#[test]
fn cursor_payload_falls_back_to_conversation_id_and_command() {
    let mut payload = payload(
        r#"{"conversation_id":"c1","command":"ls -la","cwd":"/x",
            "hook_event_name":"beforeShellExecution"}"#,
    );
    assert_eq!(payload.session_id, None);
    assert_eq!(payload.session(), Some("c1".to_owned()));
    assert_eq!(payload.tool(), Some("Bash".to_owned()));
}

#[test]
fn session_prefers_session_id_over_conversation_id() {
    let mut payload = payload(r#"{"session_id":"s1","conversation_id":"c1"}"#);
    assert_eq!(payload.session(), Some("s1".to_owned()));
}

#[test]
fn a_tool_asks_for_checkpoints_around_it() {
    let raw = r#"{"session_id":"abc","tool_name":"Edit","tool_use_id":"toolu_01"}"#;
    let Op::Checkpoint { kind, session_id, tool_call_id, tool_name, label, wait, durable } =
        request(HookEvent::PreTool, payload(raw), "acme-code")
    else {
        panic!("no checkpoint");
    };
    assert_eq!(kind, "pre");
    assert_eq!(session_id.as_deref(), Some("abc"));
    assert_eq!(tool_call_id.as_deref(), Some("toolu_01"));
    assert_eq!(tool_name.as_deref(), Some("Edit"));
    assert_eq!(label, None);
    assert!(wait && !durable);
    let Op::Checkpoint { kind, wait, .. } =
        request(HookEvent::PostTool, payload(raw), "acme-code")
    else {
        panic!("no checkpoint");
    };
    assert_eq!(kind, "post");
    assert!(!wait);
}

#[test]
fn a_prompt_starts_a_turn() {
    let raw = r#"{"session_id":"abc","prompt":"fix the JWT refactor"}"#;
    let Op::TurnStart { session_id, prompt } =
        request(HookEvent::UserPrompt, payload(raw), "acme-code")
    else {
        panic!("no turn");
    };
    assert_eq!((session_id.as_str(), prompt.as_str()), ("abc", "fix the JWT refactor"));
    let Op::TurnStart { session_id, prompt } =
        request(HookEvent::UserPrompt, Payload::default(), "acme-code")
    else {
        panic!("no turn");
    };
    assert_eq!((session_id.as_str(), prompt.as_str()), ("", ""));
}

#[test]
fn a_session_is_registered_with_its_host() {
    let Op::SessionStart { session_id, host } =
        request(HookEvent::SessionStart, payload(r#"{"session_id":"abc"}"#), "codex")
    else {
        panic!("no session");
    };
    assert_eq!((session_id.as_str(), host.as_str()), ("abc", "codex"));
    assert!(matches!(
        request(HookEvent::SessionEnd, Payload::default(), "codex"),
        Op::SessionEnd { .. }
    ));
}

#[test]
fn only_a_session_start_may_start_a_daemon() {
    for event in HookEvent::ALL {
        assert_eq!(spawn_wait(event).is_some(), event == HookEvent::SessionStart);
        assert_eq!(HookEvent::parse(event.as_arg()), Some(event));
    }
    assert_eq!(HookEvent::parse("pre-tools"), None);
    assert_eq!(deadline(HookEvent::PreTool), Some(2000));
    assert_eq!(deadline(HookEvent::SessionStart), Some(300));
    assert_eq!(deadline(HookEvent::PostTool), None);
}

#[test]
fn timeouts_are_recognized_in_any_case() {
    assert!(is_timeout("receive: Operation Timed Out"));
    assert!(is_timeout("TIMEOUT"));
    assert!(is_timeout("Resource temporarily unavailable: would block"));
    assert!(!is_timeout("no fork x"));
}

#[test]
fn a_failed_call_is_told_and_fails_nothing() {
    let said = answered(HookEvent::PostTool, "acme-code", "", &None, Some("boom"));
    assert_eq!(said.out, "");
    assert_eq!(said.err, "acyclic hook (post-tool): boom\n");
    assert!(said.follow.is_none());
}

#[test]
fn one_host_is_answered_before_it_goes_on() {
    let said = answered(HookEvent::PreTool, "cursor", "", &None, None);
    assert_eq!(said.out, ALLOW);
    assert_eq!(ALLOW, "{\"permission\":\"allow\"}\n");
    assert_eq!(answered(HookEvent::PreTool, "acme-code", "", &None, None).out, "");
    assert_eq!(answered(HookEvent::PostTool, "cursor", "", &None, None).out, "");
    assert_eq!(answered(HookEvent::UserPrompt, "cursor", "", &None, Some("x")).out, ALLOW);
}

#[test]
fn a_session_start_hands_over_the_brief() {
    let said = answered(HookEvent::SessionStart, "acme-code", "abc", &None, None);
    let Some(Op::Brief { current: Some(id) }) = said.follow else {
        panic!("no brief");
    };
    assert_eq!(id, "abc");
    let compact = Some("compact".to_owned());
    assert!(answered(HookEvent::SessionStart, "acme-code", "abc", &compact, None)
        .follow
        .is_none());
    let slow = answered(HookEvent::SessionStart, "acme-code", "abc", &None, Some("timed out"));
    assert!(slow.out.starts_with("acyclic: building the first snapshot of this tree"));
    assert_eq!(slow.err, "");
    let bad = answered(HookEvent::SessionStart, "acme-code", "abc", &None, Some("boom"));
    assert_eq!(bad.err, "acyclic hook (session-start): boom\n");
}

#[test]
fn a_brief_is_printed_or_its_failure_told() {
    let info = BriefInfo { session: None, drift_files: 0 };
    assert_eq!(briefed(Ok(Reply::Brief(info))).out, "no previous session with checkpoints\n");
    assert_eq!(briefed(Ok(Reply::Pong)).out, "");
    assert_eq!(
        briefed(Err("gone".to_owned())).err,
        "acyclic hook (session-start brief): gone\n"
    );
}

#[test]
fn a_hook_without_a_daemon_says_only_that_it_starts() {
    let said = not_reached(&ConnectError::Starting);
    assert_eq!(said.out, starting_notice());
    assert!(said.err.is_empty() && said.follow.is_none());
    for error in [ConnectError::NoDaemon, ConnectError::Other("boom".to_owned())] {
        let said = not_reached(&error);
        assert!(said.out.is_empty() && said.err.is_empty() && said.follow.is_none());
    }
}
