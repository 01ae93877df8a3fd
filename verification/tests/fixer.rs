use move_clippy::diagnostics::{Applicability, Diagnostic, Position, Span, Suggestion};
use move_clippy::fixer::{apply_fixes, format_diff, span_to_bytes};
use move_clippy::level::LintLevel;
use move_clippy::lint::{LintCategory, LintDescriptor};

fn test_lint() -> LintDescriptor {
    LintDescriptor::stable("test", LintCategory::Style, "test")
}

#[test]
fn test_span_to_bytes_simple() {
    let source = "line1\nline2\nline3";
    let span = Span {
        start: Position { row: 2, column: 1 },
        end: Position { row: 2, column: 6 },
    };

    let result = span_to_bytes(source, &span);
    assert_eq!(result, Some((6, 11)));
}

#[test]
fn test_apply_single_fix() {
    let source = "let x = vector::empty();";

    let diag = Diagnostic {
        lint: test_lint(),
        level: LintLevel::Warn,
        file: None,
        span: Span {
            start: Position { row: 1, column: 9 },
            end: Position { row: 1, column: 24 },
        },
        message: "test".into(),
        help: None,
        suggestion: Some(Suggestion {
            message: "Replace".into(),
            replacement: "vector[]".into(),
            applicability: Applicability::MachineApplicable,
        }),
    };

    let result = apply_fixes(source, &[diag], false).unwrap();
    assert_eq!(result.fixed_source, "let x = vector[];");
    assert_eq!(result.fixes_applied, 1);
}

#[test]
fn test_format_diff() {
    let original = "let x = vector::empty();\nlet y = 1;";
    let fixed = "let x = vector[];\nlet y = 1;";
    let path = "test.move";

    let diff = format_diff(original, fixed, path);
    assert!(diff.contains("--- a/test.move"));
    assert!(diff.contains("+++ b/test.move"));
    assert!(diff.contains("-let x = vector::empty();"));
    assert!(diff.contains("+let x = vector[];"));
}

fn diag_with(span: Span, applicability: Option<Applicability>) -> Diagnostic {
    Diagnostic {
        lint: test_lint(),
        level: LintLevel::Warn,
        file: None,
        span,
        message: "test".into(),
        help: None,
        suggestion: applicability.map(|a| Suggestion {
            message: "Replace".into(),
            replacement: "X".into(),
            applicability: a,
        }),
    }
}

fn cols(a: usize, b: usize) -> Span {
    Span { start: Position { row: 1, column: a }, end: Position { row: 1, column: b } }
}

#[test]
fn applied_and_skipped_fixes_are_counted() {
    let source = "abcdef";
    let ds = vec![
        diag_with(cols(1, 2), Some(Applicability::MachineApplicable)),
        diag_with(cols(3, 4), Some(Applicability::MaybeIncorrect)),
        diag_with(cols(5, 6), None),
        diag_with(Span { start: Position { row: 9, column: 1 }, end: Position { row: 9, column: 2 } }, Some(Applicability::MachineApplicable)),
    ];
    let r = apply_fixes(source, &ds, false).unwrap();
    assert_eq!(r.fixes_applied, 1);
    assert_eq!(r.fixes_skipped, 2);
    assert_eq!(r.fixed_source, "Xbcdef");
    let r = apply_fixes(source, &ds, true).unwrap();
    assert_eq!(r.fixes_applied, 2);
    assert_eq!(r.fixes_skipped, 1);
    assert_eq!(r.fixed_source, "XbXdef");
}

#[test]
fn nothing_applicable_leaves_text_unchanged() {
    let source = "abcdef";
    let ds = vec![diag_with(cols(1, 2), Some(Applicability::Unspecified)), diag_with(cols(3, 4), None)];
    let r = apply_fixes(source, &ds, true).unwrap();
    assert_eq!(r.fixes_applied, 0);
    assert_eq!(r.fixes_skipped, 1);
    assert_eq!(r.fixed_source, source);
}
