use pretty_notes::tags::{is_blank_char, BoldItalicTagState, TagType, TextTagState};
use pretty_notes::text_ops::Ops;

fn detector() -> BoldItalicTagState {
    BoldItalicTagState::new("italic".to_string(), "bold".to_string())
}

/// Feeds the detector `text`, typed from offset 0 into an empty document,
/// and returns what each character emitted. The detector is shown the text
/// between the opening marker, or pair of markers, and the closing one.
fn feed(state: &mut BoldItalicTagState, text: &str) -> Vec<Vec<Ops>> {
    let chars: Vec<char> = text.chars().collect();
    let mut emitted = Vec::new();
    for (offset, c) in chars.iter().enumerate() {
        let start = state.start_offset.max(0) as usize;
        let run: String = if state.double_asterisk_active {
            let last = if state.single_asterisk_complete { offset - 1 } else { offset };
            chars[(start + 2).min(last)..last].iter().collect()
        } else if state.single_asterisk_active {
            chars[(start + 1).min(offset)..offset].iter().collect()
        } else {
            String::new()
        };
        let (_, ops) = state.update_state(offset as i32, run, c.to_string());
        emitted.push(ops);
    }
    emitted
}

fn state(single: bool, double: bool, complete: bool, start: i32) -> BoldItalicTagState {
    let mut state = detector();
    state.single_asterisk_active = single;
    state.double_asterisk_active = double;
    state.single_asterisk_complete = complete;
    state.start_offset = start;
    state
}

fn flags(state: &BoldItalicTagState) -> (bool, bool, bool, i32) {
    (
        state.single_asterisk_active,
        state.double_asterisk_active,
        state.single_asterisk_complete,
        state.start_offset,
    )
}

#[test]
fn new_detector_is_idle() {
    let state = detector();
    assert!(!state.single_asterisk_active);
    assert!(!state.double_asterisk_active);
    assert!(!state.single_asterisk_complete);
    assert_eq!(state.start_offset, -1);
    assert_eq!(state.end_offset, -1);
    assert_eq!(state.single_asterisk_tag_name, "italic");
    assert_eq!(state.double_asterisk_tag_name, "bold");
}

#[test]
fn new_text_tag_state_is_inactive() {
    let state = TextTagState::new(TagType::Italic, '*');
    assert!(!state.is_active);
    assert_eq!(state.start_offset, -1);
    assert_eq!(state.tag_symbol, '*');
    assert!(matches!(state.tag_type, TagType::Italic));
}

#[test]
fn reset_clears_the_candidate() {
    let mut state = detector();
    feed(&mut state, "**a*");
    assert!(state.single_asterisk_complete);
    state.reset_state();
    assert!(!state.single_asterisk_active);
    assert!(!state.double_asterisk_active);
    assert!(!state.single_asterisk_complete);
    assert_eq!(state.start_offset, -1);
    assert_eq!(state.single_asterisk_tag_name, "italic");
}

#[test]
fn plain_text_leaves_the_detector_idle() {
    let mut state = detector();
    let emitted = feed(&mut state, "hello world");
    assert!(emitted.iter().all(|ops| ops.is_empty()));
    assert!(!state.single_asterisk_active);
    assert_eq!(state.start_offset, -1);
}

#[test]
fn first_marker_opens_a_single_candidate() {
    let mut state = detector();
    let emitted = feed(&mut state, "ab*");
    assert!(emitted[2].is_empty());
    assert!(state.single_asterisk_active);
    assert!(!state.double_asterisk_active);
    assert_eq!(state.start_offset, 2);
}

#[test]
fn single_emphasis_commits_at_the_closing_marker() {
    let mut state = detector();
    let emitted = feed(&mut state, "*word*");
    for ops in &emitted[..5] {
        assert!(ops.is_empty());
    }
    assert_eq!(
        emitted[5],
        vec![
            Ops::Delete((0, 1)),
            Ops::Delete((4, 5)),
            Ops::ApplyTag(("italic".to_string(), 0, 4)),
        ]
    );
    assert!(!state.single_asterisk_active);
    assert!(!state.double_asterisk_active);
    assert_eq!(state.start_offset, -1);
}

#[test]
fn single_emphasis_in_the_middle_of_a_line() {
    let mut state = detector();
    let emitted = feed(&mut state, "ab *cd*");
    assert_eq!(
        emitted[6],
        vec![
            Ops::Delete((3, 4)),
            Ops::Delete((5, 6)),
            Ops::ApplyTag(("italic".to_string(), 3, 5)),
        ]
    );
}

#[test]
fn space_after_the_opening_marker_rejects_the_run() {
    let mut state = detector();
    let emitted = feed(&mut state, "* word*");
    assert!(emitted.iter().all(|ops| ops.is_empty()));
    assert!(state.single_asterisk_active);
    assert!(!state.double_asterisk_active);
    assert_eq!(state.start_offset, 6);
}

#[test]
fn space_before_the_closing_marker_rejects_the_run() {
    let mut state = detector();
    let emitted = feed(&mut state, "*word *");
    assert!(emitted.iter().all(|ops| ops.is_empty()));
    assert!(state.single_asterisk_active);
    assert_eq!(state.start_offset, 6);
}

#[test]
fn restarted_candidate_can_complete() {
    let mut state = detector();
    let emitted = feed(&mut state, "* a *b*");
    assert_eq!(
        emitted[6],
        vec![
            Ops::Delete((4, 5)),
            Ops::Delete((5, 6)),
            Ops::ApplyTag(("italic".to_string(), 4, 5)),
        ]
    );
}

#[test]
fn adjacent_markers_escalate() {
    let mut state = detector();
    let emitted = feed(&mut state, "**");
    assert!(emitted.iter().all(|ops| ops.is_empty()));
    assert!(state.single_asterisk_active);
    assert!(state.double_asterisk_active);
    assert!(!state.single_asterisk_complete);
    assert_eq!(state.start_offset, 0);
}

#[test]
fn third_adjacent_marker_slides_the_opening_pair() {
    let mut state = detector();
    feed(&mut state, "***");
    assert!(state.double_asterisk_active);
    assert!(!state.single_asterisk_complete);
    assert_eq!(state.start_offset, 1);
}

#[test]
fn first_closing_marker_of_a_double_run_validates() {
    let mut state = detector();
    let emitted = feed(&mut state, "**bold*");
    assert!(emitted.iter().all(|ops| ops.is_empty()));
    assert!(state.double_asterisk_active);
    assert!(state.single_asterisk_complete);
    assert_eq!(state.start_offset, 0);
}

#[test]
fn double_emphasis_commits_at_the_second_closing_marker() {
    let mut state = detector();
    let emitted = feed(&mut state, "**bold**");
    for ops in &emitted[..7] {
        assert!(ops.is_empty());
    }
    assert_eq!(
        emitted[7],
        vec![
            Ops::Delete((0, 2)),
            Ops::Delete((4, 6)),
            Ops::ApplyTag(("bold".to_string(), 0, 4)),
        ]
    );
    assert!(!state.single_asterisk_active);
    assert!(!state.double_asterisk_active);
    assert!(!state.single_asterisk_complete);
    assert_eq!(state.start_offset, -1);
}

#[test]
fn double_run_with_a_leading_space_restarts() {
    let mut state = detector();
    let emitted = feed(&mut state, "** a*");
    assert!(emitted.iter().all(|ops| ops.is_empty()));
    assert!(state.single_asterisk_active);
    assert!(!state.double_asterisk_active);
    assert_eq!(state.start_offset, 4);
}

#[test]
fn double_run_with_a_trailing_space_restarts() {
    let mut state = detector();
    feed(&mut state, "**a *");
    assert!(state.single_asterisk_active);
    assert!(!state.double_asterisk_active);
    assert_eq!(state.start_offset, 4);
}

#[test]
fn pasted_text_is_no_marker() {
    let mut state = detector();
    let (_, ops) = state.update_state(0, String::new(), "**".to_string());
    assert!(ops.is_empty());
    assert!(!state.single_asterisk_active);
    let (_, ops) = state.update_state(0, String::new(), String::new());
    assert!(ops.is_empty());
    assert!(!state.single_asterisk_active);
}

#[test]
fn other_characters_never_emit() {
    let mut state = detector();
    feed(&mut state, "**bold*");
    let before = flags(&state);
    let (after, ops) = state.update_state(7, "bold".to_string(), "x".to_string());
    assert!(ops.is_empty());
    assert_eq!(before, flags(after));
}

#[test]
fn validated_run_commits_on_the_content_between_the_pairs() {
    let mut state = state(true, true, true, 0);
    let (_, ops) = state.update_state(7, "bold".to_string(), "*".to_string());
    assert_eq!(
        ops,
        vec![
            Ops::Delete((0, 2)),
            Ops::Delete((4, 6)),
            Ops::ApplyTag(("bold".to_string(), 0, 4)),
        ]
    );
    assert_eq!(flags(&state), (false, false, false, -1));
}

#[test]
fn validated_run_commits_whatever_the_text() {
    for text in ["", "*", " bold ", "*bold", "x"] {
        let mut state = state(true, true, true, 3);
        let (_, ops) = state.update_state_with_asterisk(12, text.to_string());
        assert_eq!(
            ops,
            vec![
                Ops::Delete((3, 5)),
                Ops::Delete((9, 11)),
                Ops::ApplyTag(("bold".to_string(), 3, 9)),
            ]
        );
        assert_eq!(flags(&state), (false, false, false, -1));
    }
}

#[test]
fn open_double_run_validates_on_its_content() {
    let mut state = state(true, true, false, 0);
    let (_, ops) = state.update_state(6, "bold".to_string(), "*".to_string());
    assert!(ops.is_empty());
    assert_eq!(flags(&state), (true, true, true, 0));
}

#[test]
fn second_marker_escalates_on_empty_text_and_on_the_marker_itself() {
    for text in ["", "*"] {
        let mut state = detector();
        state.update_state_with_asterisk(0, String::new());
        let (_, ops) = state.update_state_with_asterisk(1, text.to_string());
        assert!(ops.is_empty());
        assert_eq!(flags(&state), (true, true, false, 0));
    }
}

#[test]
fn third_marker_slides_on_empty_text_and_on_the_marker_itself() {
    for text in ["", "*"] {
        let mut state = state(true, true, false, 4);
        let (_, ops) = state.update_state_with_asterisk(6, text.to_string());
        assert!(ops.is_empty());
        assert_eq!(flags(&state), (true, true, false, 5));
    }
}

#[test]
fn one_character_run_is_completed() {
    let mut state = state(true, false, false, 0);
    let (_, ops) = state.update_state_with_asterisk(2, "a".to_string());
    assert_eq!(
        ops,
        vec![
            Ops::Delete((0, 1)),
            Ops::Delete((1, 2)),
            Ops::ApplyTag(("italic".to_string(), 0, 1)),
        ]
    );
}

#[test]
fn detector_goes_by_the_text_it_is_shown() {
    let mut state = state(true, false, false, 3);
    let (_, ops) = state.update_state_with_asterisk(9, "ab".to_string());
    assert_eq!(
        ops,
        vec![
            Ops::Delete((3, 4)),
            Ops::Delete((8, 9)),
            Ops::ApplyTag(("italic".to_string(), 3, 8)),
        ]
    );
    assert_eq!(flags(&state), (false, false, false, -1));
}

#[test]
fn opening_leaves_the_validation_flag_alone() {
    let mut state = state(false, false, true, -1);
    let (_, ops) = state.update_state_with_asterisk(5, "anything".to_string());
    assert!(ops.is_empty());
    assert_eq!(flags(&state), (true, false, true, 5));
    let mut state = state_after_restart();
    assert_eq!(flags(&state), (true, false, false, 7));
    state.reset_state();
    assert_eq!(flags(&state), (false, false, false, -1));
}

fn state_after_restart() -> BoldItalicTagState {
    let mut state = state(true, true, false, 1);
    state.update_state_with_asterisk(7, " a".to_string());
    state
}

#[test]
fn escalating_and_validating_touch_one_flag_each() {
    let mut odd = state(true, false, true, 2);
    odd.update_state_with_asterisk(3, String::new());
    assert_eq!(flags(&odd), (true, true, true, 2));
    let mut odd = state(false, true, false, 2);
    odd.update_state_with_asterisk(6, "ab".to_string());
    assert_eq!(flags(&odd), (false, true, true, 2));
}

#[test]
fn moving_start_and_marker_moves_every_emitted_offset() {
    let mut here = state(true, false, false, -1);
    let mut there = state(true, false, false, 9);
    let (_, near) = here.update_state_with_asterisk(4, "word".to_string());
    let (_, far) = there.update_state_with_asterisk(14, "word".to_string());
    assert_eq!(
        near,
        vec![
            Ops::Delete((-1, 0)),
            Ops::Delete((3, 4)),
            Ops::ApplyTag(("italic".to_string(), -1, 3)),
        ]
    );
    assert_eq!(
        far,
        vec![
            Ops::Delete((9, 10)),
            Ops::Delete((13, 14)),
            Ops::ApplyTag(("italic".to_string(), 9, 13)),
        ]
    );
}

#[test]
fn marker_opens_a_candidate_at_any_offset() {
    for offset in [i32::MIN, -1, 0, i32::MAX] {
        let mut state = detector();
        let (_, ops) = state.update_state_with_asterisk(offset, String::new());
        assert!(ops.is_empty());
        assert_eq!(flags(&state), (true, false, false, offset));
    }
}

#[test]
fn only_the_space_is_a_blank() {
    assert!(is_blank_char(' '));
    assert!(!is_blank_char('\t'));
    assert!(!is_blank_char('\n'));
    assert!(!is_blank_char('a'));
    assert!(!is_blank_char('*'));
    let mut state = detector();
    let emitted = feed(&mut state, "*\tword*");
    assert_eq!(emitted[6].len(), 3);
    assert_eq!(flags(&state), (false, false, false, -1));
}

#[test]
fn update_state_returns_the_detector_itself() {
    let mut state = detector();
    let (after, ops) = state.update_state(4, String::new(), "*".to_string());
    assert!(ops.is_empty());
    assert!(after.single_asterisk_active);
    assert_eq!(after.start_offset, 4);
}
