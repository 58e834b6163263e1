use regname::{
    after_rename_attempt, calculate_rename_counts, check_preflight_safety, cursor_cell,
    cursor_column, entry_label, escape_history_field, format_history, next_char_boundary,
    parse_cli_args, parse_history, prev_char_boundary, preview_new_name, record_history,
    rename_plan, sort_listing, start_renames, unescape_history_field, Action, AppState,
    ConfirmChoice, FocusedField, Key, KeyPress, Matcher, Modal, RenameProgress, SafetyViolation,
    Settings, TextField, HISTORY_CAPACITY,
};
use std::collections::HashSet;

fn items_of(names: &[&str]) -> Vec<(bool, String)> {
    names.iter().map(|n| (true, n.to_string())).collect()
}

fn press(key: Key) -> KeyPress {
    KeyPress { key, shift: false, control: false, alt: false, other_modifiers: false, release: false }
}

fn ctrl(c: char) -> KeyPress {
    KeyPress { key: Key::Char(c), shift: false, control: true, alt: false, other_modifiers: false, release: false }
}

const SAFE: Settings = Settings { confirm: true, prevent_delete: true };
const UNSAFE: Settings = Settings { confirm: false, prevent_delete: false };

fn type_text(state: &mut AppState, text: &str, items: &[(bool, String)]) {
    for c in text.chars() {
        assert_eq!(state.handle_key(press(Key::Char(c)), items, &[], SAFE), Action::Nothing);
    }
}

fn clear_focused(state: &mut AppState, items: &[(bool, String)]) {
    state.handle_key(press(Key::End), items, &[], SAFE);
    for _ in 0..64 {
        state.handle_key(press(Key::Backspace), items, &[], SAFE);
    }
}

#[test]
fn test_matcher_rejects_invalid_pattern() {
    let err = Matcher::new("foo(bar").unwrap_err();
    assert_eq!(err.source, "foo(bar");
    assert!(Matcher::new("foo(bar)").is_ok());
}

#[test]
fn test_matcher_field_fallback() {
    let m = Matcher::from_field("(");
    assert_eq!(m.source(), "^$");
    assert!(!m.is_match("file.txt"));
    assert!(m.is_match(""));
    let m2 = Matcher::from_field("a+");
    assert_eq!(m2.source(), "a+");
}

#[test]
fn test_matcher_replace_all_expands_groups() {
    let m = Matcher::new(r"(\w+)\.txt").unwrap();
    assert_eq!(m.replace_all("notes.txt", "${1}.md"), "notes.md");
    // no match: unchanged
    assert_eq!(m.replace_all("notes.rs", "${1}.md"), "notes.rs");
}

#[test]
fn test_counts_never_increase() {
    let items = items_of(&["a", "b", "c", "ab"]);
    let re = Matcher::new("b").unwrap();
    for pattern in &["x", "a", "", "$0", "c"] {
        let (before, after) = calculate_rename_counts(&items, &re, pattern);
        assert_eq!(before, 4);
        assert!(after <= before);
    }
    // "b" -> "a" collides with "a"; "ab" -> "aa" does not
    assert_eq!(calculate_rename_counts(&items, &re, "a"), (4, 3));
}

#[test]
fn test_preflight_count_decrease_values() {
    let items = items_of(&["file1.txt", "file2.txt", "file3.txt"]);
    let re = Matcher::new(r"file\d\.txt").unwrap();
    assert_eq!(
        check_preflight_safety(&items, &re, "same.txt"),
        Err(SafetyViolation::CountDecrease { before: 3, after: 1 })
    );
}

#[test]
fn test_preflight_chain_collision_reported() {
    // "1" -> "10" while "10" itself moves to "100": no names are lost, but
    // moving "1" first would overwrite "10".
    let items = items_of(&["1", "10"]);
    let re = Matcher::new(r"^(\d+)$").unwrap();
    assert_eq!(calculate_rename_counts(&items, &re, "${1}0"), (2, 2));
    assert_eq!(
        check_preflight_safety(&items, &re, "${1}0"),
        Err(SafetyViolation::ChainCollision { source: "1".to_string(), target: "10".to_string() })
    );
}

#[test]
fn test_preflight_empty_pattern_allowed() {
    let items = items_of(&["a", "b"]);
    let re = Matcher::new(".*").unwrap();
    assert_eq!(check_preflight_safety(&items, &re, ""), Ok(()));
}

#[test]
fn test_rename_plan_lists_matching_entries_in_order() {
    let items = items_of(&["img_1.png", "notes.txt", "img_2.png"]);
    let re = Matcher::new(r"^img_(\d+)").unwrap();
    let plan = rename_plan(&items, &re, "photo_${1}");
    assert_eq!(
        plan,
        vec![
            ("img_1.png".to_string(), "photo_1.png".to_string()),
            ("img_2.png".to_string(), "photo_2.png".to_string()),
        ]
    );
    assert!(rename_plan(&items, &re, "").is_empty());
}

#[test]
fn test_passing_rename_never_overwrites_when_run_in_order() {
    let items = items_of(&["a1", "a2", "b1", "c"]);
    let re = Matcher::new(r"^([ab])(\d)$").unwrap();
    let pattern = "${2}${1}";
    assert_eq!(check_preflight_safety(&items, &re, pattern), Ok(()));
    let mut dir: HashSet<String> = items.iter().map(|i| i.1.clone()).collect();
    for (from, to) in rename_plan(&items, &re, pattern) {
        assert!(dir.contains(&from));
        if from != to {
            assert!(!dir.contains(&to), "{} would overwrite {}", from, to);
        }
        dir.remove(&from);
        dir.insert(to);
    }
    assert_eq!(dir.len(), items.len());
}

#[test]
fn test_rename_progress() {
    assert_eq!(start_renames(0), RenameProgress::Finish(0));
    assert_eq!(start_renames(3), RenameProgress::Next(0));
    assert_eq!(after_rename_attempt(0, 3, true), RenameProgress::Next(1));
    assert_eq!(after_rename_attempt(2, 3, true), RenameProgress::Finish(0));
    assert_eq!(after_rename_attempt(1, 3, false), RenameProgress::Finish(1));
}

#[test]
fn test_entry_labels_and_preview() {
    assert_eq!(entry_label(true, "a.txt"), "📄 a.txt");
    assert_eq!(entry_label(false, "docs"), "📁 docs/");
    let re = Matcher::new(r"\.txt$").unwrap();
    assert_eq!(preview_new_name(&re, "a.txt", ".md"), Some("a.md".to_string()));
    assert_eq!(preview_new_name(&re, "a.rs", ".md"), None);
    assert_eq!(preview_new_name(&re, "a.txt", ""), None);
}

#[test]
fn test_sort_listing_case_insensitive_and_stable() {
    let items = vec![
        (true, "b.txt".to_string()),
        (false, "A".to_string()),
        (true, "a".to_string()),
        (true, "C.txt".to_string()),
    ];
    let sorted = sort_listing(&items);
    assert_eq!(
        sorted,
        vec![
            (false, "A".to_string()),
            (true, "a".to_string()),
            (true, "b.txt".to_string()),
            (true, "C.txt".to_string()),
        ]
    );
}

#[test]
fn test_cli_later_flags_override() {
    let parsed = parse_cli_args(vec!["--unsafe", "--confirm"]).unwrap();
    assert!(parsed.confirm);
    assert!(!parsed.prevent_delete);
    let parsed = parse_cli_args(vec!["-f", "-s"]).unwrap();
    assert!(parsed.confirm && parsed.prevent_delete);
    let err = parse_cli_args(vec!["-"]).unwrap_err();
    assert_eq!(err, "Unknown option: -");
    let err = parse_cli_args(vec!["--bogus", "dir"]).unwrap_err();
    assert_eq!(err, "Unknown option: --bogus");
}

#[test]
fn test_escape_exact_form() {
    assert_eq!(escape_history_field("a\tb\nc\rd\\e"), "a\\tb\\nc\\rd\\\\e");
    assert_eq!(unescape_history_field("x\\qy\\"), "x\\qy\\");
}

#[test]
fn test_history_text_roundtrip() {
    let list = vec![
        ("a\tb".to_string(), "".to_string()),
        ("".to_string(), "x\ny\\".to_string()),
    ];
    let text = format_history(&list);
    assert_eq!(text, "a\\tb\t\n\tx\\ny\\\\\n");
    assert_eq!(parse_history(&text), list);
    // lines without a tab are passed over
    assert_eq!(parse_history("junk\nm\tr"), vec![("m".to_string(), "r".to_string())]);
}

#[test]
fn test_record_history_capacity() {
    let mut list = Vec::new();
    for i in 0..(HISTORY_CAPACITY + 5) {
        list = record_history(&list, &format!("m{}", i), "r");
    }
    assert_eq!(list.len(), HISTORY_CAPACITY);
    let again = record_history(&list, "m50", "r");
    assert_eq!(again.len(), HISTORY_CAPACITY);
    assert_eq!(again[0], ("m50".to_string(), "r".to_string()));
    assert_eq!(again.iter().filter(|e| e.0 == "m50").count(), 1);
}

#[test]
fn test_char_boundaries() {
    let s = "héllo";
    assert_eq!(prev_char_boundary(s, 0), 0);
    assert_eq!(prev_char_boundary(s, 3), 1);
    assert_eq!(prev_char_boundary(s, 1), 0);
    assert_eq!(prev_char_boundary(s, 100), 5);
    assert_eq!(prev_char_boundary("", 4), 0);
    assert_eq!(next_char_boundary(s, 1), 3);
    assert_eq!(next_char_boundary(s, 0), 1);
    assert_eq!(next_char_boundary(s, 6), 6);
    assert_eq!(next_char_boundary(s, 9), 6);
}

#[test]
fn test_cursor_cell_and_column() {
    let s = "héllo";
    assert_eq!(cursor_column(s, 3), 2);
    assert_eq!(cursor_column(s, 60), 5);
    assert_eq!(cursor_cell(s, 1), "é");
    assert_eq!(cursor_cell(s, 6), " ");
}

#[test]
fn test_text_field_editing() {
    let mut f = TextField::with_text("añb");
    assert_eq!(f.cursor, 4);
    f.move_left();
    assert_eq!(f.cursor, 3);
    f.backspace();
    assert_eq!(f.value, "ab");
    assert_eq!(f.cursor, 1);
    f.insert_char('€');
    assert_eq!(f.value, "a€b");
    assert_eq!(f.cursor, 4);
    f.delete();
    assert_eq!(f.value, "a€");
    f.delete();
    assert_eq!(f.value, "a€");
    f.move_home();
    f.backspace();
    assert_eq!(f.value, "a€");
    f.move_right();
    assert_eq!(f.cursor, 1);
    f.move_end();
    assert_eq!(f.cursor, 4);
}

#[test]
fn test_app_initial_state() {
    let s = AppState::new();
    assert_eq!(s.match_field.value, "(.*)");
    assert_eq!(s.match_field.cursor, 4);
    assert_eq!(s.rename_field.value, "${1}");
    assert_eq!(s.rename_field.cursor, 4);
    assert_eq!(s.focused_field, FocusedField::Match);
    assert!(matches!(s.modal, Modal::Closed));
    assert_eq!(s.scroll_offset, 0);
}

#[test]
fn test_app_enter_asks_confirmation_then_renames() {
    let items = items_of(&["file1.txt", "file2.txt"]);
    let mut s = AppState::new();
    clear_focused(&mut s, &items);
    type_text(&mut s, r"file(\d)\.txt", &items);
    s.handle_key(press(Key::Tab), &items, &[], SAFE);
    clear_focused(&mut s, &items);
    type_text(&mut s, "doc$1.txt", &items);
    assert_eq!(s.rename_field.value, "doc$1.txt");
    assert_eq!(s.handle_key(press(Key::Enter), &items, &[], SAFE), Action::Nothing);
    assert!(matches!(s.modal, Modal::Confirm));
    assert_eq!(s.confirm_choice, ConfirmChoice::Yes);
    // Tab toggles the choice; Enter on "No" dismisses
    s.handle_key(press(Key::Tab), &items, &[], SAFE);
    assert_eq!(s.confirm_choice, ConfirmChoice::No);
    assert_eq!(s.handle_key(press(Key::Enter), &items, &[], SAFE), Action::Nothing);
    assert!(matches!(s.modal, Modal::Closed));
    s.handle_key(press(Key::Enter), &items, &[], SAFE);
    assert_eq!(s.handle_key(press(Key::Char('y')), &items, &[], SAFE), Action::Rename);
}

#[test]
fn test_app_blocks_overwriting_rename() {
    let items = items_of(&["a.txt", "b.txt"]);
    let mut s = AppState::new();
    s.handle_key(press(Key::Tab), &items, &[], SAFE);
    clear_focused(&mut s, &items);
    type_text(&mut s, "same", &items);
    assert_eq!(s.handle_key(press(Key::Enter), &items, &[], SAFE), Action::Nothing);
    match &s.modal {
        Modal::Blocked(SafetyViolation::CountDecrease { before, after }) => {
            assert_eq!((*before, *after), (2, 1));
        }
        _ => panic!("expected a blocked pop-up"),
    }
    // Space dismisses the pop-up and returns to editing
    s.handle_key(press(Key::Char(' ')), &items, &[], SAFE);
    assert!(matches!(s.modal, Modal::Closed));
    // Without protection and confirmation the same rename runs at once
    assert_eq!(s.handle_key(press(Key::Enter), &items, &[], UNSAFE), Action::Rename);
}

#[test]
fn test_app_escape_and_confirm_cancel() {
    let items = items_of(&["a"]);
    let mut s = AppState::new();
    s.handle_key(press(Key::Enter), &items, &[], SAFE);
    assert!(matches!(s.modal, Modal::Confirm));
    assert_eq!(s.handle_key(press(Key::Esc), &items, &[], SAFE), Action::Nothing);
    assert!(matches!(s.modal, Modal::Closed));
    assert_eq!(s.handle_key(press(Key::Esc), &items, &[], SAFE), Action::Exit);
    let mut release = press(Key::Esc);
    release.release = true;
    assert_eq!(s.handle_key(release, &items, &[], SAFE), Action::Nothing);
}

#[test]
fn test_app_scroll_bounds() {
    let items = items_of(&["a", "b", "c"]);
    let mut s = AppState::new();
    s.handle_key(press(Key::Up), &items, &[], SAFE);
    assert_eq!(s.scroll_offset, 0);
    for _ in 0..5 {
        s.handle_key(press(Key::Down), &items, &[], SAFE);
    }
    assert_eq!(s.scroll_offset, 2);
}

#[test]
fn test_app_history_picker() {
    let items = items_of(&["a"]);
    let history = vec![
        ("m1".to_string(), "r1".to_string()),
        ("m2".to_string(), "r2".to_string()),
    ];
    let mut s = AppState::new();
    // with no history Ctrl+R does nothing
    s.handle_key(ctrl('r'), &items, &[], SAFE);
    assert!(matches!(s.modal, Modal::Closed));
    s.handle_key(ctrl('r'), &items, &history, SAFE);
    assert!(matches!(s.modal, Modal::History(0)));
    s.handle_key(press(Key::Down), &items, &history, SAFE);
    assert!(matches!(s.modal, Modal::History(1)));
    s.handle_key(press(Key::Down), &items, &history, SAFE);
    assert!(matches!(s.modal, Modal::History(1)));
    s.handle_key(ctrl('r'), &items, &history, SAFE);
    assert!(matches!(s.modal, Modal::History(0)));
    s.handle_key(press(Key::Up), &items, &history, SAFE);
    s.handle_key(press(Key::Down), &items, &history, SAFE);
    s.handle_key(press(Key::Enter), &items, &history, SAFE);
    assert!(matches!(s.modal, Modal::Closed));
    assert_eq!(s.match_field.value, "m2");
    assert_eq!(s.rename_field.value, "r2");
    assert_eq!(s.rename_field.cursor, 2);
}

#[test]
fn test_app_typing_with_control_is_ignored() {
    let items = items_of(&["a"]);
    let mut s = AppState::new();
    s.handle_key(ctrl('x'), &items, &[], SAFE);
    assert_eq!(s.match_field.value, "(.*)");
    let mut shifted = press(Key::Char('X'));
    shifted.shift = true;
    s.handle_key(shifted, &items, &[], SAFE);
    assert_eq!(s.match_field.value, "(.*)X");
}

#[test]
fn test_cli_directory_position_irrelevant() {
    for flag in &["-h", "-y", "-f", "--unsafe", "-s", "-c", "-p"] {
        let a = parse_cli_args(vec![*flag, "photos"]);
        let b = parse_cli_args(vec!["photos", *flag]);
        assert_eq!(a, b);
        let c = parse_cli_args(vec!["first", *flag, "photos"]);
        let d = parse_cli_args(vec!["first", "photos", *flag]);
        assert_eq!(c, d);
        assert_eq!(c.unwrap_err(), "Unexpected argument: photos");
    }
}
