use pretty_notes::oplog::OperationLog;
use pretty_notes::replay::InvariantViolation;
use pretty_notes::session::Session;
use pretty_notes::text_ops::{DeleteTextEventData, InsertOpsData, InsertTextEventData, Ops};
use pretty_notes::document::{Document, TagSpan};

fn registry() -> Vec<String> {
    ["color_tag_1", "color_tag_2", "color_tag_3", "italic", "bold"]
        .iter()
        .map(|name| name.to_string())
        .collect()
}

fn session() -> Session {
    Session::new(
        registry(),
        "color_tag_1".to_string(),
        "italic".to_string(),
        "bold".to_string(),
    )
    .unwrap()
}

fn restore(log: OperationLog) -> Result<Session, InvariantViolation> {
    Session::hydrate(
        registry(),
        "color_tag_1".to_string(),
        "italic".to_string(),
        "bold".to_string(),
        log,
    )
}

/// Types `text` at the end of the document, one character at a time, and
/// returns what the detector emitted for each.
fn type_text(session: &mut Session, text: &str) -> Vec<Vec<Ops>> {
    let mut emitted = Vec::new();
    for c in text.chars() {
        let offset = session.document().len() as i32;
        emitted.push(session.insert_text(InsertTextEventData::new(offset, &c.to_string())));
    }
    emitted
}

fn text_of(doc: &Document) -> String {
    doc.text().iter().collect()
}

fn insert(content: &str, tag: &str) -> Ops {
    Ops::Insert(InsertOpsData::new(content.to_string(), tag.to_string()))
}

fn copy_of(log: &OperationLog) -> OperationLog {
    OperationLog::load(&log.save()).unwrap()
}

#[test]
fn new_session_is_empty() {
    let session = session();
    assert_eq!(session.document().len(), 0);
    assert_eq!(session.document().current_tag(), "color_tag_1");
    assert_eq!(session.log().len(), 0);
    assert!(!session.detector().single_asterisk_active);
    assert_eq!(session.detector().single_asterisk_tag_name, "italic");
    assert_eq!(session.detector().double_asterisk_tag_name, "bold");
}

#[test]
fn new_session_reports_the_first_missing_tag() {
    let missing = |current: &str, single: &str, double: &str| {
        Session::new(registry(), current.to_string(), single.to_string(), double.to_string())
            .err()
            .map(|violation| (violation.position, violation.tag))
    };
    assert_eq!(missing("tag_0", "em", "strong"), Some((0, "tag_0".to_string())));
    assert_eq!(missing("bold", "em", "strong"), Some((0, "em".to_string())));
    assert_eq!(missing("bold", "italic", "strong"), Some((0, "strong".to_string())));
    assert_eq!(missing("bold", "italic", "bold"), None);
}

#[test]
fn typing_single_emphasis_tags_the_word() {
    let mut session = session();
    let emitted = type_text(&mut session, "*word*");
    for ops in &emitted[..5] {
        assert!(ops.is_empty());
    }
    assert_eq!(
        emitted[5],
        vec![
            Ops::Delete((0, 1)),
            Ops::Delete((4, 5)),
            Ops::ApplyTag(("italic".to_string(), 0, 4)),
        ]
    );
    assert_eq!(text_of(session.document()), "word");
    assert_eq!(session.document().cursor(), 4);
    assert_eq!(
        session.document().spans().last(),
        Some(&TagSpan { tag: "italic".to_string(), start: 0, end: 4 })
    );
    let after_space = type_text(&mut session, " ");
    assert!(after_space[0].is_empty());
    assert_eq!(text_of(session.document()), "word ");
    for index in 0..4 {
        assert!(session.document().has_tag(index, &"italic".to_string()));
    }
    assert!(!session.document().has_tag(4, &"italic".to_string()));
    assert!(!session.detector().single_asterisk_active);
}

#[test]
fn typing_single_emphasis_logs_insertions_then_derived_operations() {
    let mut session = session();
    type_text(&mut session, "*ab*");
    assert_eq!(
        session.log().snapshot(),
        &vec![
            insert("*", "color_tag_1"),
            insert("a", "color_tag_1"),
            insert("b", "color_tag_1"),
            insert("*", "color_tag_1"),
            Ops::Delete((0, 1)),
            Ops::Delete((2, 3)),
            Ops::ApplyTag(("italic".to_string(), 0, 2)),
        ]
    );
}

#[test]
fn space_after_the_opening_marker_starts_a_new_candidate() {
    let mut session = session();
    let emitted = type_text(&mut session, "* word*");
    assert!(emitted.iter().all(|ops| ops.is_empty()));
    assert_eq!(text_of(session.document()), "* word*");
    assert!(session.detector().single_asterisk_active);
    assert!(!session.detector().double_asterisk_active);
    assert_eq!(session.detector().start_offset, 6);
    assert!(!session.document().has_tag(2, &"italic".to_string()));
    let emitted = type_text(&mut session, "x*");
    assert_eq!(
        emitted[1],
        vec![
            Ops::Delete((6, 7)),
            Ops::Delete((7, 8)),
            Ops::ApplyTag(("italic".to_string(), 6, 7)),
        ]
    );
    assert_eq!(text_of(session.document()), "* wordx");
}

#[test]
fn typing_double_emphasis_applies_the_double_tag_once() {
    let mut session = session();
    let emitted = type_text(&mut session, "**bold**");
    for ops in &emitted[..7] {
        assert!(ops.is_empty());
    }
    assert_eq!(
        emitted[7],
        vec![
            Ops::Delete((0, 2)),
            Ops::Delete((4, 6)),
            Ops::ApplyTag(("bold".to_string(), 0, 4)),
        ]
    );
    assert_eq!(text_of(session.document()), "bold");
    for index in 0..4 {
        assert!(session.document().has_tag(index, &"bold".to_string()));
        assert!(!session.document().has_tag(index, &"italic".to_string()));
    }
    let applied = session
        .log()
        .snapshot()
        .iter()
        .filter(|op| matches!(op, Ops::ApplyTag(_)))
        .count();
    assert_eq!(applied, 1);
}

#[test]
fn emphasis_inside_a_sentence_keeps_the_text_around_it() {
    let mut session = session();
    type_text(&mut session, "say **hi** and *bye* now");
    assert_eq!(text_of(session.document()), "say hi and bye now");
    assert!(session.document().has_tag(4, &"bold".to_string()));
    assert!(session.document().has_tag(5, &"bold".to_string()));
    assert!(!session.document().has_tag(6, &"bold".to_string()));
    assert!(!session.document().has_tag(10, &"italic".to_string()));
    assert!(session.document().has_tag(11, &"italic".to_string()));
    assert!(session.document().has_tag(13, &"italic".to_string()));
    assert!(!session.document().has_tag(14, &"italic".to_string()));
}

#[test]
fn selected_color_is_carried_by_every_insertion() {
    let mut session = session();
    assert_eq!(session.select_color("color_tag_2".to_string()), Ok(()));
    type_text(&mut session, "abc");
    assert_eq!(
        session.log().snapshot(),
        &vec![
            Ops::SelectColorTag("color_tag_2".to_string()),
            insert("a", "color_tag_2"),
            insert("b", "color_tag_2"),
            insert("c", "color_tag_2"),
        ]
    );
}

#[test]
fn selected_color_survives_markup_runs() {
    let mut session = session();
    session.select_color("color_tag_2".to_string()).unwrap();
    type_text(&mut session, "a*b*c**d**");
    assert_eq!(session.document().current_tag(), "color_tag_2");
    assert_eq!(text_of(session.document()), "abcd");
    let mut insertions = 0;
    for op in session.log().snapshot() {
        if let Ops::Insert(data) = op {
            assert_eq!(data.tag, "color_tag_2");
            insertions += 1;
        }
    }
    assert_eq!(insertions, 10);
}

#[test]
fn selecting_a_color_leaves_a_pending_run_alone() {
    let mut session = session();
    type_text(&mut session, "*ab");
    session.select_color("color_tag_3".to_string()).unwrap();
    assert!(session.detector().single_asterisk_active);
    assert_eq!(session.detector().start_offset, 0);
    let emitted = type_text(&mut session, "c*");
    assert_eq!(emitted[1].len(), 3);
    assert_eq!(text_of(session.document()), "abc");
    assert_eq!(session.document().current_tag(), "color_tag_3");
}

#[test]
fn unknown_color_is_refused_and_not_logged() {
    let mut session = session();
    type_text(&mut session, "a");
    assert_eq!(
        session.select_color("color_tag_9".to_string()),
        Err(InvariantViolation { position: 0, tag: "color_tag_9".to_string() })
    );
    assert_eq!(session.log().len(), 1);
    assert_eq!(session.document().current_tag(), "color_tag_1");
}

#[test]
fn typing_away_from_the_cursor_logs_a_cursor_move() {
    let mut session = session();
    type_text(&mut session, "ac");
    session.insert_text(InsertTextEventData::new(1, "b"));
    assert_eq!(text_of(session.document()), "abc");
    assert_eq!(session.document().cursor(), 2);
    assert_eq!(
        session.log().snapshot(),
        &vec![
            insert("a", "color_tag_1"),
            insert("c", "color_tag_1"),
            Ops::MoveCursor(1),
            insert("b", "color_tag_1"),
        ]
    );
}

#[test]
fn deletion_is_applied_and_logged() {
    let mut session = session();
    type_text(&mut session, "abcd");
    session.delete_text(DeleteTextEventData::new(1, 3));
    assert_eq!(text_of(session.document()), "ad");
    assert_eq!(session.document().cursor(), 2);
    assert_eq!(session.log().snapshot().last(), Some(&Ops::Delete((1, 3))));
}

#[test]
fn the_log_replays_to_the_document() {
    let mut session = session();
    type_text(&mut session, "one *two* ");
    session.select_color("color_tag_3".to_string()).unwrap();
    type_text(&mut session, "**three** * four*");
    session.delete_text(DeleteTextEventData::new(0, 4));
    session.insert_text(InsertTextEventData::new(2, "*"));
    type_text(&mut session, "!");
    let restored = restore(copy_of(session.log())).unwrap();
    assert_eq!(text_of(restored.document()), text_of(session.document()));
    assert_eq!(restored.document().spans(), session.document().spans());
    assert_eq!(restored.document().cursor(), session.document().cursor());
    assert_eq!(restored.document().current_tag(), session.document().current_tag());
    assert_eq!(restored.log().snapshot(), session.log().snapshot());
}

#[test]
fn save_then_load_gives_the_same_log() {
    let mut session = session();
    session.select_color("color_tag_2".to_string()).unwrap();
    type_text(&mut session, "*é* **✓✓** plain");
    let bytes = session.log().save();
    let loaded = OperationLog::load(&bytes).unwrap();
    assert_eq!(loaded.snapshot(), session.log().snapshot());
}

#[test]
fn restoring_an_empty_log_gives_an_empty_document() {
    let restored = restore(OperationLog::new()).unwrap();
    assert_eq!(restored.document().len(), 0);
    assert_eq!(restored.log().len(), 0);
    assert_eq!(restored.document().current_tag(), "color_tag_1");
}

#[test]
fn restored_session_is_armed_and_idle() {
    let mut first = session();
    type_text(&mut first, "a *b");
    let mut restored = restore(copy_of(first.log())).unwrap();
    assert!(!restored.detector().single_asterisk_active);
    let emitted = type_text(&mut restored, "*");
    assert!(emitted[0].is_empty());
    assert_eq!(restored.detector().start_offset, 4);
}

#[test]
fn restoring_a_log_with_an_unknown_tag_fails() {
    let mut log = OperationLog::new();
    log.append(insert("a", "color_tag_1"));
    log.append(Ops::ApplyTag(("underline".to_string(), 0, 1)));
    assert_eq!(
        restore(log).err(),
        Some(InvariantViolation { position: 1, tag: "underline".to_string() })
    );
}

#[test]
fn typing_before_a_pending_run_drops_it() {
    let mut session = session();
    type_text(&mut session, "*ab");
    assert!(session.detector().single_asterisk_active);
    session.insert_text(InsertTextEventData::new(0, "x"));
    assert!(!session.detector().single_asterisk_active);
    assert_eq!(session.detector().start_offset, -1);
    let emitted = type_text(&mut session, "*");
    assert!(emitted[0].is_empty());
    assert_eq!(text_of(session.document()), "x*ab*");
    assert_eq!(session.detector().start_offset, 4);
}

#[test]
fn typing_at_the_opening_marker_drops_the_run() {
    let mut session = session();
    type_text(&mut session, "a*b");
    session.insert_text(InsertTextEventData::new(1, "c"));
    assert!(!session.detector().single_asterisk_active);
    assert_eq!(text_of(session.document()), "ac*b");
}

#[test]
fn typing_inside_a_pending_run_keeps_it() {
    let mut session = session();
    type_text(&mut session, "*ad");
    session.insert_text(InsertTextEventData::new(2, "b"));
    session.insert_text(InsertTextEventData::new(3, "c"));
    assert!(session.detector().single_asterisk_active);
    let emitted = type_text(&mut session, "*");
    assert_eq!(
        emitted[0],
        vec![
            Ops::Delete((0, 1)),
            Ops::Delete((4, 5)),
            Ops::ApplyTag(("italic".to_string(), 0, 4)),
        ]
    );
    assert_eq!(text_of(session.document()), "abcd");
}

#[test]
fn closing_marker_typed_inside_the_line_leaves_the_rest() {
    let mut session = session();
    type_text(&mut session, "x  tail");
    session.insert_text(InsertTextEventData::new(2, "*"));
    session.insert_text(InsertTextEventData::new(3, "a"));
    let emitted = session.insert_text(InsertTextEventData::new(4, "*"));
    assert_eq!(
        emitted,
        vec![
            Ops::Delete((2, 3)),
            Ops::Delete((3, 4)),
            Ops::ApplyTag(("italic".to_string(), 2, 3)),
        ]
    );
    assert_eq!(text_of(session.document()), "x a tail");
    assert!(session.document().has_tag(2, &"italic".to_string()));
    assert!(!session.document().has_tag(1, &"italic".to_string()));
    assert!(!session.document().has_tag(3, &"italic".to_string()));
}

#[test]
fn deleting_before_a_pending_run_drops_it() {
    let mut session = session();
    type_text(&mut session, "ab*cd");
    session.delete_text(DeleteTextEventData::new(0, 1));
    assert!(!session.detector().single_asterisk_active);
    let emitted = type_text(&mut session, "*");
    assert!(emitted[0].is_empty());
    assert_eq!(text_of(session.document()), "b*cd*");
}

#[test]
fn deleting_the_opening_marker_drops_the_run() {
    let mut session = session();
    type_text(&mut session, "ab*cd");
    session.delete_text(DeleteTextEventData::new(3, 2));
    assert!(!session.detector().single_asterisk_active);
    assert_eq!(text_of(session.document()), "abcd");
}

#[test]
fn deleting_inside_a_pending_run_keeps_it() {
    let mut session = session();
    type_text(&mut session, "*abc");
    session.delete_text(DeleteTextEventData::new(2, 3));
    assert!(session.detector().single_asterisk_active);
    let emitted = type_text(&mut session, "*");
    assert_eq!(
        emitted[0],
        vec![
            Ops::Delete((0, 1)),
            Ops::Delete((2, 3)),
            Ops::ApplyTag(("italic".to_string(), 0, 2)),
        ]
    );
    assert_eq!(text_of(session.document()), "ac");
}

#[test]
fn deleting_nothing_keeps_a_pending_run() {
    let mut session = session();
    type_text(&mut session, "*ab");
    session.delete_text(DeleteTextEventData::new(0, 0));
    assert!(session.detector().single_asterisk_active);
    assert_eq!(session.detector().start_offset, 0);
    assert_eq!(session.log().snapshot().last(), Some(&Ops::Delete((0, 0))));
}

#[test]
fn offset_outside_the_document_types_at_its_end() {
    let mut session = session();
    type_text(&mut session, "ab");
    session.insert_text(InsertTextEventData::new(-1, "*"));
    assert_eq!(text_of(session.document()), "ab*");
    assert_eq!(session.detector().start_offset, 2);
    session.insert_text(InsertTextEventData::new(40, "c"));
    let emitted = session.insert_text(InsertTextEventData::new(i32::MAX, "*"));
    assert_eq!(
        emitted,
        vec![
            Ops::Delete((2, 3)),
            Ops::Delete((3, 4)),
            Ops::ApplyTag(("italic".to_string(), 2, 3)),
        ]
    );
    assert_eq!(text_of(session.document()), "abc");
}

#[test]
fn pasted_text_is_inserted_whole_and_detects_nothing() {
    let mut session = session();
    let emitted = session.insert_text(InsertTextEventData::new(0, "*pasted*"));
    assert!(emitted.is_empty());
    assert_eq!(text_of(session.document()), "*pasted*");
    assert!(!session.detector().single_asterisk_active);
    assert_eq!(session.log().snapshot(), &vec![insert("*pasted*", "color_tag_1")]);
}

#[test]
fn lone_marker_inside_a_double_run_is_kept() {
    let mut session = session();
    let emitted = type_text(&mut session, "**a*b**");
    for ops in &emitted[..6] {
        assert!(ops.is_empty());
    }
    assert_eq!(
        emitted[6],
        vec![
            Ops::Delete((0, 2)),
            Ops::Delete((3, 5)),
            Ops::ApplyTag(("bold".to_string(), 0, 3)),
        ]
    );
    assert_eq!(text_of(session.document()), "a*b");
}

#[test]
fn text_behind_the_validating_marker_takes_validation_back() {
    let mut session = session();
    type_text(&mut session, "**a*");
    assert!(session.detector().single_asterisk_complete);
    type_text(&mut session, "b");
    assert!(session.detector().double_asterisk_active);
    assert!(!session.detector().single_asterisk_complete);
    assert_eq!(session.detector().start_offset, 0);
    let emitted = type_text(&mut session, " *");
    assert!(emitted[1].is_empty());
    assert!(!session.detector().double_asterisk_active);
    assert_eq!(session.detector().start_offset, 6);
    assert_eq!(text_of(session.document()), "**a*b *");
}

#[test]
fn marker_typed_elsewhere_does_not_close_a_validated_run() {
    let mut session = session();
    type_text(&mut session, "**ab*");
    let emitted = session.insert_text(InsertTextEventData::new(3, "*"));
    assert!(emitted.is_empty());
    assert_eq!(text_of(session.document()), "**a*b*");
    assert!(session.detector().double_asterisk_active);
    assert!(session.detector().single_asterisk_complete);
    assert_eq!(session.detector().start_offset, 0);
    let emitted = session.insert_text(InsertTextEventData::new(4, "*"));
    assert_eq!(
        emitted,
        vec![
            Ops::Delete((0, 2)),
            Ops::Delete((1, 3)),
            Ops::ApplyTag(("bold".to_string(), 0, 1)),
        ]
    );
    assert_eq!(text_of(session.document()), "ab*");
}

#[test]
fn deleting_inside_a_validated_run_takes_validation_back() {
    let mut session = session();
    type_text(&mut session, "**abc*");
    session.delete_text(DeleteTextEventData::new(3, 4));
    assert!(session.detector().double_asterisk_active);
    assert!(!session.detector().single_asterisk_complete);
    assert_eq!(text_of(session.document()), "**ac*");
    let emitted = type_text(&mut session, "*");
    assert!(emitted[0].is_empty());
    assert!(session.detector().single_asterisk_complete);
    let emitted = type_text(&mut session, "*");
    assert_eq!(
        emitted[0],
        vec![
            Ops::Delete((0, 2)),
            Ops::Delete((3, 5)),
            Ops::ApplyTag(("bold".to_string(), 0, 3)),
        ]
    );
    assert_eq!(text_of(session.document()), "ac*");
}

#[test]
fn typing_between_the_opening_pair_drops_the_run() {
    let mut session = session();
    type_text(&mut session, "**a");
    session.insert_text(InsertTextEventData::new(1, "x"));
    assert!(!session.detector().single_asterisk_active);
    assert!(!session.detector().double_asterisk_active);
    assert_eq!(text_of(session.document()), "*x*a");
}

#[test]
fn three_markers_open_a_double_run_at_the_last_two() {
    let mut session = session();
    let emitted = type_text(&mut session, "***bold**");
    assert_eq!(
        emitted[8],
        vec![
            Ops::Delete((1, 3)),
            Ops::Delete((5, 7)),
            Ops::ApplyTag(("bold".to_string(), 1, 5)),
        ]
    );
    assert_eq!(text_of(session.document()), "*bold");
    assert!(session.document().has_tag(1, &"bold".to_string()));
    assert!(!session.document().has_tag(0, &"bold".to_string()));
}
