use move_clippy::fix::{apply_fix, apply_fixes, validate_edits, FixError, TextEdit};

#[test]
fn test_text_edit_creation() {
    let edit = TextEdit::new(0, 5, "hello".to_string());
    assert_eq!(edit.start_byte, 0);
    assert_eq!(edit.end_byte, 5);
    assert_eq!(edit.replacement, "hello");
}

#[test]
fn test_text_edit_delete() {
    let edit = TextEdit::delete(10, 20);
    assert_eq!(edit.start_byte, 10);
    assert_eq!(edit.end_byte, 20);
    assert_eq!(edit.replacement, "");
}

#[test]
fn test_text_edit_insert() {
    let edit = TextEdit::insert(5, "inserted".to_string());
    assert_eq!(edit.start_byte, 5);
    assert_eq!(edit.end_byte, 5);
    assert_eq!(edit.replacement, "inserted");
}

#[test]
fn test_overlaps_with() {
    let edit1 = TextEdit::new(0, 10, "a".to_string());
    let edit2 = TextEdit::new(5, 15, "b".to_string());
    let edit3 = TextEdit::new(10, 20, "c".to_string());

    assert!(edit1.overlaps_with(&edit2));
    assert!(edit2.overlaps_with(&edit1));
    assert!(!edit1.overlaps_with(&edit3));
    assert!(!edit3.overlaps_with(&edit1));
}

#[test]
fn test_validate_edit_valid() {
    let edit = TextEdit::new(0, 5, "hello".to_string());
    assert!(edit.validate(10).is_ok());
}

#[test]
fn test_validate_edit_invalid_order() {
    let edit = TextEdit::new(10, 5, "hello".to_string());
    assert!(matches!(
        edit.validate(20),
        Err(FixError::InvalidEditOrder { .. })
    ));
}

#[test]
fn test_validate_edit_exceeds_length() {
    let edit = TextEdit::new(0, 15, "hello".to_string());
    assert!(matches!(
        edit.validate(10),
        Err(FixError::InvalidRange { .. })
    ));
}

#[test]
fn test_validate_edits_overlapping() {
    let edits = vec![
        TextEdit::new(0, 10, "a".to_string()),
        TextEdit::new(5, 15, "b".to_string()),
    ];
    assert!(matches!(
        validate_edits(&edits, 20),
        Err(FixError::OverlappingEdits(_))
    ));
}

#[test]
fn test_validate_edits_non_overlapping() {
    let edits = vec![
        TextEdit::new(0, 5, "a".to_string()),
        TextEdit::new(10, 15, "b".to_string()),
    ];
    assert!(validate_edits(&edits, 20).is_ok());
}

#[test]
fn test_apply_single_replacement() {
    let source = "while (true) { break }";
    let edit = TextEdit::replace(0, 12, "loop".to_string());
    let result = apply_fix(source, &edit).unwrap();
    assert_eq!(result, "loop { break }");
}

#[test]
fn test_apply_single_deletion() {
    let source = "hello world";
    let edit = TextEdit::delete(5, 11);
    let result = apply_fix(source, &edit).unwrap();
    assert_eq!(result, "hello");
}

#[test]
fn test_apply_single_insertion() {
    let source = "hello world";
    let edit = TextEdit::insert(5, " beautiful".to_string());
    let result = apply_fix(source, &edit).unwrap();
    assert_eq!(result, "hello beautiful world");
}

#[test]
fn test_apply_multiple_edits_preserves_offsets() {
    let source = "one two three";
    let edits = vec![
        TextEdit::replace(0, 3, "1".to_string()),
        TextEdit::replace(4, 7, "2".to_string()),
        TextEdit::replace(8, 13, "3".to_string()),
    ];
    let result = apply_fixes(source, &edits).unwrap();
    assert_eq!(result, "1 2 3");
}

#[test]
fn test_apply_edits_reversed_order() {
    let source = "abc def ghi";
    let edits = vec![
        TextEdit::replace(8, 11, "3".to_string()),
        TextEdit::replace(0, 3, "1".to_string()),
        TextEdit::replace(4, 7, "2".to_string()),
    ];
    let result = apply_fixes(source, &edits).unwrap();
    assert_eq!(result, "1 2 3");
}

#[test]
fn test_idempotency_no_edits() {
    let source = "unchanged";
    let result1 = apply_fixes(source, &[]).unwrap();
    let result2 = apply_fixes(&result1, &[]).unwrap();
    assert_eq!(result1, source);
    assert_eq!(result2, source);
}

#[test]
fn test_roundtrip_property() {
    let source = "while (true) { }";

    let edit1 = TextEdit::replace(0, 12, "loop".to_string());
    let result1 = apply_fix(source, &edit1).unwrap();
    assert_eq!(result1, "loop { }");

    let edit2 = TextEdit::replace(0, 4, "while (true)".to_string());
    let result2 = apply_fix(&result1, &edit2).unwrap();
    assert_eq!(result2, "while (true) { }");
}

#[test]
fn edits_given_in_any_order_splice_in_ascending_order() {
    let source = "0123456789";
    let edits = vec![
        TextEdit::replace(7, 9, "c".to_string()),
        TextEdit::insert(0, "a".to_string()),
        TextEdit::replace(2, 4, "bb".to_string()),
    ];
    let result = apply_fixes(source, &edits).unwrap();
    assert_eq!(result, ["a", &source[0..2], "bb", &source[4..7], "c", &source[9..]].concat());
    assert_eq!(result, "a01bb456c9");
}

#[test]
fn insertion_and_replacement_at_one_start_both_name_source_bytes() {
    let source = "abc";
    let edits = vec![TextEdit::insert(1, "X".to_string()), TextEdit::replace(1, 2, "Y".to_string())];
    assert_eq!(apply_fixes(source, &edits).unwrap(), "aXYc");
    let reversed = vec![TextEdit::replace(1, 2, "Y".to_string()), TextEdit::insert(1, "X".to_string())];
    assert_eq!(apply_fixes(source, &reversed).unwrap(), "aXYc");
}
