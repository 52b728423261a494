use pulseon_viewer::editing::{
    metric_filter_key, rename_key, run_filter_key, MetricFilterKey, RenameKey, TextField,
};

fn type_text(field: &mut TextField, text: &str) {
    assert!(run_filter_key(field, text, Some(text), false, false));
}

#[test]
fn run_filter_types_at_the_caret_and_moves_over_wide_characters() {
    let mut field = TextField::new();
    type_text(&mut field, "a");
    type_text(&mut field, "界");
    type_text(&mut field, "b");
    assert_eq!(field.text(), "a界b");
    assert_eq!(field.cursor(), "a界b".len());

    assert!(run_filter_key(&mut field, "left", None, false, false));
    assert_eq!(field.cursor(), "a界".len());
    assert!(run_filter_key(&mut field, "left", None, false, false));
    assert_eq!(field.cursor(), "a".len());
    type_text(&mut field, "x");
    assert_eq!(field.text(), "ax界b");
    assert_eq!(field.cursor(), "ax".len());

    assert!(run_filter_key(&mut field, "right", None, false, false));
    assert_eq!(field.cursor(), "ax界".len());
    assert!(run_filter_key(&mut field, "backspace", None, false, false));
    assert_eq!(field.text(), "axb");
    assert_eq!(field.cursor(), "ax".len());
}

#[test]
fn run_filter_backspace_at_the_start_changes_nothing() {
    let mut field = TextField::new();
    type_text(&mut field, "ab");
    assert!(run_filter_key(&mut field, "left", None, false, false));
    assert!(run_filter_key(&mut field, "left", None, false, false));
    assert!(run_filter_key(&mut field, "left", None, false, false));
    assert_eq!(field.cursor(), 0);
    assert!(run_filter_key(&mut field, "backspace", None, false, false));
    assert_eq!(field.text(), "ab");
    assert_eq!(field.cursor(), 0);
}

#[test]
fn run_filter_escape_clears_and_shortcuts_propagate() {
    let mut field = TextField::new();
    type_text(&mut field, "loss");
    assert!(!run_filter_key(&mut field, "a", Some("a"), true, false));
    assert!(!run_filter_key(&mut field, "a", Some("a"), false, true));
    assert_eq!(field.text(), "loss");
    assert!(run_filter_key(&mut field, "tab", Some("\t"), false, false));
    assert!(run_filter_key(&mut field, "shift", None, false, false));
    assert_eq!(field.text(), "loss");
    assert!(run_filter_key(&mut field, "escape", None, false, false));
    assert_eq!(field.text(), "");
    assert_eq!(field.cursor(), 0);
}

#[test]
fn rename_replaces_the_selected_name_when_typing() {
    let mut field = TextField::with_text_selected("Loss view".to_string());
    assert!(field.all_selected());
    assert_eq!(field.cursor(), "Loss view".len());
    assert_eq!(rename_key(&mut field, "n", Some("n"), false, false), RenameKey::Edited);
    assert_eq!(field.text(), "n");
    assert_eq!(field.cursor(), 1);
    assert!(!field.all_selected());
    assert_eq!(rename_key(&mut field, "enter", None, false, false), RenameKey::Commit);
    assert_eq!(field.text(), "n");
}

#[test]
fn rename_arrows_collapse_the_selection_to_either_end() {
    let mut field = TextField::with_text_selected("Über".to_string());
    assert_eq!(rename_key(&mut field, "left", None, false, false), RenameKey::Edited);
    assert_eq!(field.cursor(), 0);
    assert!(!field.all_selected());

    let mut field = TextField::with_text_selected("Über".to_string());
    assert_eq!(rename_key(&mut field, "right", None, false, false), RenameKey::Edited);
    assert_eq!(field.cursor(), "Über".len());

    let mut field = TextField::with_text_selected("Über".to_string());
    assert_eq!(rename_key(&mut field, "backspace", None, false, false), RenameKey::Edited);
    assert_eq!(field.text(), "");
}

#[test]
fn rename_escape_cancels_and_other_keys_are_sorted_out() {
    let mut field = TextField::with_text_selected("a".to_string());
    assert_eq!(rename_key(&mut field, "escape", None, false, false), RenameKey::Cancel);
    assert_eq!(field.text(), "a");
    assert_eq!(rename_key(&mut field, "shift", None, false, false), RenameKey::Handled);
    assert_eq!(rename_key(&mut field, "c", Some("c"), true, false), RenameKey::Ignored);
    assert_eq!(rename_key(&mut field, "escape", Some("\u{1b}"), false, false), RenameKey::Cancel);
    assert!(field.all_selected());
}

#[test]
fn metric_filter_edits_at_its_end_and_escape_closes_when_empty() {
    let mut filter = String::new();
    assert_eq!(metric_filter_key(&mut filter, "escape", None, false, false), MetricFilterKey::ClosePicker);
    assert_eq!(metric_filter_key(&mut filter, "l", Some("l"), false, false), MetricFilterKey::Handled);
    assert_eq!(metric_filter_key(&mut filter, "é", Some("é"), false, false), MetricFilterKey::Handled);
    assert_eq!(filter, "lé");
    assert_eq!(metric_filter_key(&mut filter, "backspace", None, false, false), MetricFilterKey::Handled);
    assert_eq!(filter, "l");
    assert_eq!(metric_filter_key(&mut filter, "x", Some("x"), false, true), MetricFilterKey::Ignored);
    assert_eq!(metric_filter_key(&mut filter, "escape", None, false, false), MetricFilterKey::Handled);
    assert_eq!(filter, "");
    assert_eq!(metric_filter_key(&mut filter, "backspace", None, false, false), MetricFilterKey::Handled);
    assert_eq!(filter, "");
}
