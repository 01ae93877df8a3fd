use move_clippy::cli::{github_escape, lint_exit_code, sort_json_diagnostics, JsonDiagnostic};
use move_clippy::engine::{sorted_by_name, LintEngine, LintEngineBuilder, LintRegistry, RegistryError};
use move_clippy::diagnostics::{Diagnostic, Position, Span};
use move_clippy::fix::{apply_fix, apply_fixes, TextEdit};
use move_clippy::level::LintLevel;
use move_clippy::lint::{LintCategory, LintDescriptor};
use move_clippy::syntax::{NodeData, SyntaxTree};

fn names(r: &LintRegistry) -> Vec<&'static str> {
    r.descriptors().iter().map(|d| d.name).collect()
}

#[test]
fn unknown_lint_is_refused_with_its_name() {
    let only = vec!["no_such_lint".to_string()];
    match LintRegistry::default_rules_filtered(&only, &[], &[], false, false) {
        Err(e) => {
            assert!(matches!(e, RegistryError::UnknownLint(ref n) if n == "no_such_lint"));
            assert_eq!(e.message(), "unknown lint: no_such_lint");
        }
        Ok(_) => panic!("unknown lint accepted"),
    }
}

#[test]
fn only_keeps_exactly_the_named_rule() {
    let only = vec!["abilities_order".to_string()];
    let r = LintRegistry::default_rules_filtered(&only, &[], &[], false, false).ok().unwrap();
    assert_eq!(names(&r), vec!["abilities_order"]);
}

#[test]
fn experimental_rules_need_the_experimental_flag() {
    let stable = LintRegistry::default_rules_filtered(&[], &[], &[], false, true).ok().unwrap();
    assert!(!names(&stable).contains(&"fresh_address_reuse"));
    let all = LintRegistry::default_rules_filtered_with_experimental(&[], &[], &[], false, false, true).ok().unwrap();
    assert!(names(&all).contains(&"fresh_address_reuse"));
}

#[test]
fn experimental_implies_preview_on_the_default_rules() {
    let a = LintRegistry::default_rules_filtered_with_experimental(&[], &[], &[], false, false, true).ok().unwrap();
    let b = LintRegistry::default_rules_filtered_with_experimental(&[], &[], &[], false, true, true).ok().unwrap();
    assert_eq!(names(&a), names(&b));
}

#[test]
fn listing_is_sorted_by_name() {
    let ds = vec![
        LintDescriptor::stable("b_lint", LintCategory::Style, "b"),
        LintDescriptor::stable("a_lint", LintCategory::Style, "a"),
        LintDescriptor::stable("c_lint", LintCategory::Style, "c"),
    ];
    let sorted: Vec<&str> = sorted_by_name(ds).iter().map(|d| d.name).collect();
    assert_eq!(sorted, vec!["a_lint", "b_lint", "c_lint"]);
}

#[test]
fn github_messages_are_escaped() {
    assert_eq!(github_escape("100%\r\ndone"), "100%25%0D%0Adone");
    assert_eq!(github_escape("plain"), "plain");
}

#[test]
fn exit_code_follows_deny_warnings() {
    assert_eq!(lint_exit_code(true, 3), 1);
    assert_eq!(lint_exit_code(true, 0), 0);
    assert_eq!(lint_exit_code(false, 3), 0);
}

#[test]
fn replace_then_restore_gives_back_the_source() {
    let source = "let x = vector::empty();";
    let once = apply_fix(source, &TextEdit::replace(8, 23, "vector[]".to_string())).ok().unwrap();
    assert_eq!(once, "let x = vector[];");
    let back = apply_fix(&once, &TextEdit::replace(8, 16, "vector::empty()".to_string())).ok().unwrap();
    assert_eq!(back, source);
}

#[test]
fn engine_lints_a_tree_in_rule_order() {
    let src = "struct S has store, key {}\nfun f() { abort 7 }";
    let mk = |kind: &str, field: Option<&str>, start: usize, end: usize, parent: Option<usize>| NodeData {
        kind: kind.to_string(),
        named: true,
        field: field.map(|f| f.to_string()),
        start_byte: start,
        end_byte: end,
        start_row: if start > 26 { 1 } else { 0 },
        start_column: if start > 26 { start - 27 } else { start },
        end_row: if end > 26 { 1 } else { 0 },
        end_column: if end > 26 { end - 27 } else { end },
        parent,
        children: Vec::new(),
    };
    let mut nodes = vec![
        mk("source_file", None, 0, src.len(), None),
        mk("struct_definition", None, 0, 26, Some(0)),
        mk("ability_decls", None, 9, 23, Some(1)),
        mk("function_definition", None, 27, src.len(), Some(0)),
        mk("abort_expression", None, 37, 44, Some(3)),
        mk("num_literal", Some("value"), 43, 44, Some(4)),
    ];
    nodes[0].children = vec![1, 3];
    nodes[1].children = vec![2];
    nodes[3].children = vec![4];
    nodes[4].children = vec![5];
    let tree = SyntaxTree::from_nodes(nodes).unwrap();
    let only = vec!["typed_abort_code".to_string(), "abilities_order".to_string()];
    let engine = LintEngine::new(LintRegistry::default_rules_filtered(&only, &[], &[], false, false).ok().unwrap());
    assert!(engine.can_lint(src, &tree));
    let ds = engine.lint_tree(src, &tree);
    let got: Vec<&str> = ds.iter().map(|d| d.lint.name).collect();
    assert_eq!(got.len(), 2);
    assert!(got.contains(&"abilities_order"));
    assert!(got.contains(&"typed_abort_code"));
}

#[test]
fn diagnostics_compare_by_every_field() {
    let d = Diagnostic {
        lint: LintDescriptor::stable("a_lint", LintCategory::Style, "a"),
        level: LintLevel::Warn,
        file: None,
        span: Span { start: Position { row: 1, column: 1 }, end: Position { row: 1, column: 2 } },
        message: "m".to_string(),
        help: None,
        suggestion: None,
    };
    let same = d.clone();
    assert!(d == same);
    let mut other = d.clone();
    other.message = "n".to_string();
    assert!(d != other);
    let mut other_lint = d.clone();
    other_lint.lint = LintDescriptor::stable("b_lint", LintCategory::Style, "a");
    assert!(d != other_lint);
}

#[test]
fn swapped_edits_apply_alike() {
    let source = "abc def ghi";
    let a = vec![TextEdit::replace(0, 3, "1".to_string()), TextEdit::replace(4, 7, "2".to_string())];
    let b = vec![TextEdit::replace(4, 7, "2".to_string()), TextEdit::replace(0, 3, "1".to_string())];
    assert_eq!(apply_fixes(source, &a).ok().unwrap(), "1 2 ghi");
    assert_eq!(apply_fixes(source, &b).ok().unwrap(), "1 2 ghi");
}

#[test]
fn json_output_is_sorted_by_file_position_and_lint() {
    let d = |file: &str, row: usize, column: usize, lint: &str| JsonDiagnostic {
        file: file.to_string(),
        row,
        column,
        lint: lint.to_string(),
        message: String::new(),
    };
    let out = sort_json_diagnostics(vec![d("b.move", 1, 1, "x"), d("a.move", 2, 1, "y"), d("a.move", 1, 5, "z"), d("a.move", 1, 5, "a")]);
    let keys: Vec<(String, usize, usize, String)> = out.into_iter().map(|j| (j.file, j.row, j.column, j.lint)).collect();
    assert_eq!(
        keys,
        vec![
            ("a.move".to_string(), 1, 5, "a".to_string()),
            ("a.move".to_string(), 1, 5, "z".to_string()),
            ("a.move".to_string(), 2, 1, "y".to_string()),
            ("b.move".to_string(), 1, 1, "x".to_string()),
        ]
    );
}

#[test]
fn test_builder_unknown_lint_error() {
    let result = LintEngineBuilder::new().only(vec!["not_a_real_lint".to_string()]).build();
    match result {
        Ok(_) => panic!("expected error for unknown lint"),
        Err(e) => assert!(e.message().contains("unknown lint")),
    }
}
