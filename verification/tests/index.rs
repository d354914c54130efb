//! The metadata index and what is read from it.
use acyclic::digest::{decode_generation, generation_hex, DigestError, GenerationId};
use acyclic::history::{diff_rows, inspect, resolve_target, sessions, timeline, turns};
use acyclic::index::{
    checkpoint_to_row, row_to_checkpoint, Attribution, CheckpointKind, Index,
};
use acyclic::proto::RewindTarget;

fn generation(byte: u8) -> GenerationId {
    GenerationId { bytes: [byte; 32] }
}

fn of_session(id: &str) -> Attribution {
    Attribution { session_id: Some(id.to_owned()), ..Attribution::default() }
}

#[test]
fn record_list_publish_roundtrip() {
    let mut index = Index::new();
    let attribution = Attribution {
        session_id: Some("s1".into()),
        tool_name: Some("Edit".into()),
        ..Attribution::default()
    };
    index.record(generation(1), CheckpointKind::Baseline, &Attribution::default(), 10);
    let post_id = index.record(generation(2), CheckpointKind::Post, &attribution, 11);
    index.record_failure(generation(2), &"boom".to_owned(), &attribution, 12);

    assert_eq!(index.unpublished_count(), 2);
    index.mark_published(post_id);
    assert_eq!(index.unpublished_count(), 0);

    let latest = index.latest().expect("some");
    assert_eq!(latest.generation, generation(2));
    assert_eq!(latest.kind, CheckpointKind::Post);

    assert_eq!(index.list(None, None, 10).len(), 3);
    assert_eq!(index.list(Some("s1"), None, 10).len(), 2);

    let start = index.session_start("s1").expect("some");
    assert_eq!(start.id, post_id);
}

#[test]
fn latest_target_skips_bookkeeping_rows() {
    let mut index = Index::new();
    let a = Attribution::default();
    index.record(generation(1), CheckpointKind::Baseline, &a, 1);
    let post = index.record(generation(2), CheckpointKind::Post, &a, 2);
    index.record(generation(2), CheckpointKind::Noop, &a, 3);
    index.record(generation(2), CheckpointKind::PreRewind, &a, 4);
    index.record(generation(3), CheckpointKind::Recovered, &a, 5);
    index.record_failure(generation(3), &"boom".to_owned(), &a, 6);

    let target = index.latest_target().expect("some");
    assert_eq!(target.id, post);
    assert_eq!(target.kind, CheckpointKind::Post);
}

#[test]
fn failed_rows_are_not_restorable() {
    let mut index = Index::new();
    let a = Attribution::default();
    let ok = index.record(generation(1), CheckpointKind::Post, &a, 1);
    let bad = index.record_failure(generation(1), &"boom".to_owned(), &a, 2);
    assert!(index.by_id(ok).expect("s").is_restorable());
    assert!(!index.by_id(bad).expect("s").is_restorable());
}

#[test]
fn a_failed_row_is_no_rewind_target() {
    let mut index = Index::new();
    let a = Attribution::default();
    let bad = index.record_failure(generation(1), &"boom".to_owned(), &a, 2);
    assert_eq!(
        resolve_target(&index, &RewindTarget::Checkpoint(bad)).unwrap_err(),
        "checkpoint #1 records a failed capture, not a tree state; pick another from `acyclic timeline`"
    );
    assert_eq!(resolve_target(&index, &RewindTarget::Last).unwrap_err(), "no matching checkpoint");
    assert_eq!(
        resolve_target(&index, &RewindTarget::SessionStart("s".to_owned())).unwrap_err(),
        "no matching checkpoint"
    );
    assert_eq!(
        resolve_target(&index, &RewindTarget::Checkpoint(9)).unwrap_err(),
        "no matching checkpoint"
    );
}

#[test]
fn checkpoints_inherit_the_turn_of_their_session() {
    let mut index = Index::new();
    let s = "s1".to_owned();
    index.session_started(&s, &"codex".to_owned(), 5);
    let before = index.record(generation(1), CheckpointKind::Pre, &of_session("s1"), 6);
    assert_eq!(index.turn_started(&s, "fix the JWT refactor", 7), 1);
    let first = index.record(generation(2), CheckpointKind::Post, &of_session("s1"), 8);
    assert_eq!(index.turn_started(&s, "now the tests", 9), 2);
    let second = index.record(generation(3), CheckpointKind::Post, &of_session("s1"), 10);
    assert_eq!(index.by_id(before).unwrap().turn, None);
    assert_eq!(index.by_id(first).unwrap().turn, Some(1));
    assert_eq!(index.by_id(second).unwrap().turn, Some(2));

    let told = turns(&index, Some("s1"));
    assert_eq!(told.len(), 2);
    assert_eq!(told[0].prompt, "fix the JWT refactor");
    assert_eq!(told[0].first_checkpoint, Some(first));
    assert_eq!(told[0].last_checkpoint, Some(first));
    assert_eq!(told[0].base_checkpoint, Some(before));
    assert_eq!(told[1].base_checkpoint, Some(first));

    let seen = inspect(&index, second).expect("row");
    assert_eq!(seen.prompt.as_deref(), Some("now the tests"));
    assert_eq!(seen.host.as_deref(), Some("codex"));
    assert_eq!(seen.generation, "03".repeat(32));
    assert_eq!(inspect(&index, 77).unwrap_err(), "no checkpoint #77");

    let of_turn = timeline(&index, Some("s1"), Some(2), 50).expect("timeline");
    assert_eq!(of_turn.len(), 1);
    assert_eq!(of_turn[0].id, second);
    assert_eq!(
        timeline(&index, None, Some(2), 50).unwrap_err(),
        "--turn needs --session (turn numbers are per session)"
    );

    let listed = sessions(&index, 20);
    assert_eq!(listed.len(), 1);
    assert_eq!(listed[0].turns, 2);
    assert_eq!(listed[0].checkpoints, 3);
    assert_eq!(listed[0].end_checkpoint, Some(second));
}

#[test]
fn the_timeline_lists_the_newest_first() {
    let mut index = Index::new();
    let a = Attribution::default();
    for i in 1..=4u8 {
        index.record(generation(i), CheckpointKind::Post, &a, i as i64);
    }
    let ids: Vec<i64> = timeline(&index, None, None, 3).unwrap().iter().map(|e| e.id).collect();
    assert_eq!(ids, vec![4, 3, 2]);
}

#[test]
fn a_diff_compares_what_was_named() {
    let mut index = Index::new();
    assert_eq!(
        diff_rows(&index, None, &None, None, &None).unwrap_err(),
        "no checkpoints yet"
    );
    let a = Attribution::default();
    let first = index.record(generation(0xab), CheckpointKind::Baseline, &a, 1);
    let second = index.record(generation(0xcd), CheckpointKind::Post, &a, 2);
    let (x, y) = diff_rows(&index, None, &None, None, &None).unwrap();
    assert_eq!((x.id, y.id), (first, second));
    let (x, y) = diff_rows(&index, None, &Some("cdcd".to_owned()), Some(first), &None).unwrap();
    assert_eq!((x.id, y.id), (second, first));
    assert_eq!(
        diff_rows(&index, Some(9), &None, None, &None).unwrap_err(),
        "no checkpoint #9"
    );
    assert_eq!(
        diff_rows(&index, None, &None, None, &Some("ffff".to_owned())).unwrap_err(),
        "no checkpoint has a generation starting ffff; `acyclic timeline` lists row ids"
    );
}

#[test]
fn prompts_are_kept_as_excerpts() {
    let mut index = Index::new();
    let long = "x".repeat(500);
    index.turn_started(&"s".to_owned(), &long, 1);
    assert_eq!(index.turns[0].prompt.len(), 240);
    let wide = "é".repeat(121);
    index.turn_started(&"s".to_owned(), &wide, 1);
    assert_eq!(index.turns[1].prompt, "é".repeat(120));
}

#[test]
fn kinds_have_their_names() {
    for (kind, name) in [
        (CheckpointKind::Baseline, "baseline"),
        (CheckpointKind::Pre, "pre"),
        (CheckpointKind::Post, "post"),
        (CheckpointKind::Manual, "manual"),
        (CheckpointKind::PreRewind, "pre_rewind"),
        (CheckpointKind::Recovered, "recovered"),
        (CheckpointKind::Failed, "failed"),
        (CheckpointKind::Noop, "noop"),
    ] {
        assert_eq!(kind.as_str(), name);
        assert_eq!(CheckpointKind::parse(name).unwrap(), kind);
    }
    assert!(CheckpointKind::parse("other").is_err());
}

#[test]
fn generations_go_through_hexadecimal() {
    let id = GenerationId { bytes: [0x5a; 32] };
    let text = generation_hex(id);
    assert_eq!(text, "5a".repeat(32));
    assert_eq!(decode_generation(&text).unwrap(), id);
    assert_eq!(decode_generation("00").unwrap_err(), DigestError::WrongLength);
    let complaint = |text: &str| match decode_generation(text) {
        Err(DigestError::NotHex(message)) => message,
        other => panic!("unexpected {other:?}"),
    };
    assert_eq!(complaint("zz"), "Invalid character 'z' at position 0");
    assert_eq!(complaint("0'"), "Invalid character '\\'' at position 1");
    assert_eq!(complaint("\u{e9}\u{e9}"), "Invalid character '\u{c3}' at position 0");
    assert_eq!(complaint("abc"), "Odd number of digits");
    assert_eq!(complaint("zzz"), "Odd number of digits");
}

#[test]
fn stored_rows_read_back() {
    let mut index = Index::new();
    let attribution = Attribution {
        session_id: Some("s1".into()),
        tool_name: Some("Edit".into()),
        label: Some("before".into()),
        ..Attribution::default()
    };
    let id = index.record(generation(7), CheckpointKind::PreRewind, &attribution, 11);
    index.record_failure(generation(7), &"boom".to_owned(), &attribution, 12);
    index.mark_published(id);
    for row in &index.rows {
        let raw = checkpoint_to_row(row);
        assert_eq!(raw.generation, vec![7u8; 32]);
        assert_eq!(&row_to_checkpoint(raw).unwrap(), row);
        assert_eq!(&index.by_id(row.id).unwrap(), row);
    }
    let mut short = checkpoint_to_row(&index.rows[0]);
    short.generation.pop();
    assert_eq!(row_to_checkpoint(short).unwrap_err(), "generation digest is not 32 bytes");
    let mut strange = checkpoint_to_row(&index.rows[0]);
    strange.kind = "other".to_owned();
    assert_eq!(row_to_checkpoint(strange).unwrap_err(), "store: unknown checkpoint kind other");
}
