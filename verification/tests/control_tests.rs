use april::control::{apply_field_patch, remove_item_from_string_list};
use april::plan::{AprilAction, AprilActionType};
use deb822_lossless::Paragraph;

#[test]
fn test_remove_item_from_string_list() {
    let input = "foo, bar, baz";
    let item = "bar";
    let expected = "foo, baz";
    assert_eq!(remove_item_from_string_list(input, item), expected);

    let input = "foo, bar (>= 1.2.0), baz";
    let item = "bar";
    let expected = "foo, baz";
    assert_eq!(remove_item_from_string_list(input, item), expected);
}

#[test]
fn remove_item_keeps_unrelated_entries() {
    assert_eq!(
        remove_item_from_string_list("foo (>= 1.2.0), bar", "baz"),
        "foo (>= 1.2.0), bar"
    );
    assert_eq!(remove_item_from_string_list("foo", "foo"), "");
    assert_eq!(
        remove_item_from_string_list(" spaced ,foo", "foo"),
        "spaced"
    );
}

fn patch(field: &str, value: &str, action: AprilActionType) -> AprilAction {
    AprilAction::PatchField {
        field: field.to_string(),
        value: value.to_owned(),
        action,
    }
}

#[test]
fn test_apply_field_patch() {
    let mut paragraph = Paragraph::new();
    paragraph.set("Depends", "foo (>= 1.2.0), bar");

    let action = patch("Depends", "baz", AprilActionType::Remove);
    apply_field_patch(&action, &mut paragraph).unwrap();
    assert_eq!(paragraph.get("Depends").unwrap(), "foo (>= 1.2.0), bar");

    let action = patch("Depends", "baz", AprilActionType::Append);
    apply_field_patch(&action, &mut paragraph).unwrap();
    assert_eq!(
        paragraph.get("Depends").unwrap(),
        "foo (>= 1.2.0), bar, baz"
    );

    let action = patch("Depends", "foo", AprilActionType::Replace);
    apply_field_patch(&action, &mut paragraph).unwrap();
    assert_eq!(paragraph.get("Depends").unwrap(), "foo");

    let action = patch("Depends", "", AprilActionType::Replace);
    apply_field_patch(&action, &mut paragraph).unwrap();
    assert_eq!(paragraph.get("Depends"), None);

    let action = patch("Depends", "baz", AprilActionType::Append);
    apply_field_patch(&action, &mut paragraph).unwrap();
    assert_eq!(paragraph.get("Depends").unwrap(), "baz");
}

#[test]
fn field_patch_remove_with_constraint() {
    let mut paragraph = Paragraph::new();
    paragraph.set("Depends", "foo, bar (>= 1.2.0), baz");
    let action = patch("Depends", "bar", AprilActionType::Remove);
    apply_field_patch(&action, &mut paragraph).unwrap();
    assert_eq!(paragraph.get("Depends").unwrap(), "foo, baz");
}

#[test]
fn field_patch_end_to_end_sequence() {
    // A control paragraph patched the way the planner orders it for a
    // manifest that sets the version, appends `c` and removes `a`.
    let mut paragraph = Paragraph::new();
    paragraph.set("Package", "foo");
    paragraph.set("Version", "1.0-1");
    paragraph.set("Depends", "a, b");

    apply_field_patch(&patch("Depends", "c", AprilActionType::Append), &mut paragraph).unwrap();
    apply_field_patch(&patch("Depends", "a", AprilActionType::Remove), &mut paragraph).unwrap();
    apply_field_patch(&patch("Version", "1.0-2", AprilActionType::Replace), &mut paragraph)
        .unwrap();

    assert_eq!(paragraph.get("Package").unwrap(), "foo");
    assert_eq!(paragraph.get("Version").unwrap(), "1.0-2");
    assert_eq!(paragraph.get("Depends").unwrap(), "b, c");
}

#[test]
fn field_patch_rejects_empty_continuation_line() {
    let mut paragraph = Paragraph::new();
    let action = patch("Description", "line one\n\nline three", AprilActionType::Replace);
    let err = apply_field_patch(&action, &mut paragraph).unwrap_err();
    assert!(matches!(err, april::errors::AprilError::InvalidFieldValue(_)));
    let action = patch("Description", "line one\n \t\nline three", AprilActionType::Replace);
    let err = apply_field_patch(&action, &mut paragraph).unwrap_err();
    assert!(matches!(err, april::errors::AprilError::InvalidFieldValue(_)));
    assert_eq!(paragraph.get("Description"), None);
}

#[test]
fn field_patch_accepts_multi_line_values() {
    let mut paragraph = Paragraph::new();
    let action = patch("Description", "a tool\n with a long story", AprilActionType::Replace);
    apply_field_patch(&action, &mut paragraph).unwrap();
    assert_eq!(
        paragraph.get("Description").unwrap(),
        "a tool\n with a long story"
    );
}
