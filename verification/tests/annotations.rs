use move_clippy::annotations::{
    get_validates_annotation, parse_annotations, parse_module_annotations, MoveClippyAnnotation,
    SuppressionScope, SuppressionStack,
};

#[test]
fn test_parse_allow_annotation() {
    let source = r#"
    #[allow(lint::unused_capability_param)]
    public fun foo() {}
"#;
    let fn_start = source.find("public fun").unwrap();
    let annotations = parse_annotations(source, fn_start);

    assert_eq!(annotations.len(), 1);
    assert!(matches!(
        &annotations[0],
        MoveClippyAnnotation::Allow(name) if name == "unused_capability_param"
    ));
}

#[test]
fn test_parse_ext_allow_deny_expect_annotations() {
    let source = r#"
    #[ext(move_clippy(allow(entry_function_returns_value)))]
    #[ext(move_clippy(deny(suspicious)))]
    #[ext(move_clippy(expect(security)))]
    public fun foo() {}
"#;
    let fn_start = source.find("public fun").unwrap();
    let annotations = parse_annotations(source, fn_start);

    assert_eq!(annotations.len(), 3);
    assert!(annotations.iter().any(|a| {
        matches!(a, MoveClippyAnnotation::Allow(n) if n == "entry_function_returns_value")
    }));
    assert!(annotations
        .iter()
        .any(|a| { matches!(a, MoveClippyAnnotation::Deny(n) if n == "suspicious") }));
    assert!(annotations
        .iter()
        .any(|a| { matches!(a, MoveClippyAnnotation::Expect(n) if n == "security") }));
}

#[test]
fn test_parse_deny_annotation() {
    let source = r#"
    #[deny(lint::unsafe_arithmetic)]
    public fun bar() {}
"#;
    let fn_start = source.find("public fun").unwrap();
    let annotations = parse_annotations(source, fn_start);

    assert_eq!(annotations.len(), 1);
    assert!(matches!(
        &annotations[0],
        MoveClippyAnnotation::Deny(name) if name == "unsafe_arithmetic"
    ));
}

#[test]
fn test_parse_validates_annotation() {
    let source = r#"
    #[validates(admin_cap)]
    fun check_admin(cap: &AdminCap) {}
"#;
    let fn_start = source.find("fun check_admin").unwrap();
    let annotations = parse_annotations(source, fn_start);

    assert_eq!(annotations.len(), 1);
    assert!(matches!(
        &annotations[0],
        MoveClippyAnnotation::Validates(param) if param == "admin_cap"
    ));
}

#[test]
fn test_parse_multiple_annotations() {
    let source = r#"
    #[allow(lint::style)]
    #[deny(lint::security)]
    #[validates(cap)]
    public fun baz() {}
"#;
    let fn_start = source.find("public fun").unwrap();
    let annotations = parse_annotations(source, fn_start);

    assert_eq!(annotations.len(), 3);
}

#[test]
fn test_suppression_scope() {
    let annotations = vec![
        MoveClippyAnnotation::Allow("lint_a".to_string()),
        MoveClippyAnnotation::Deny("lint_b".to_string()),
        MoveClippyAnnotation::Validates("cap".to_string()),
    ];

    let scope = SuppressionScope::from_annotations(annotations);

    assert!(scope.is_suppressed("lint_a"));
    assert!(!scope.is_suppressed("lint_b"));
    assert!(scope.is_denied("lint_b"));
    assert!(scope.is_validated("cap"));
}

#[test]
fn test_suppression_stack() {
    let mut stack = SuppressionStack::new();

    let scope1 =
        SuppressionScope::from_annotations(vec![MoveClippyAnnotation::Allow("lint_a".to_string())]);
    stack.push(scope1);

    assert!(stack.is_suppressed("lint_a"));
    assert!(!stack.is_suppressed("lint_b"));

    let scope2 =
        SuppressionScope::from_annotations(vec![MoveClippyAnnotation::Allow("lint_b".to_string())]);
    stack.push(scope2);

    assert!(stack.is_suppressed("lint_a"));
    assert!(stack.is_suppressed("lint_b"));

    stack.pop();

    assert!(stack.is_suppressed("lint_a"));
    assert!(!stack.is_suppressed("lint_b"));
}

#[test]
fn test_module_level_annotation() {
    let source = r#"
#![allow(lint::style)]
module example::test {
    public fun foo() {}
}
"#;
    let annotations = parse_module_annotations(source);

    assert_eq!(annotations.len(), 1);
    assert!(matches!(
        &annotations[0],
        MoveClippyAnnotation::Allow(name) if name == "style"
    ));
}

#[test]
fn test_module_level_deny_and_expect_annotations() {
    let source = r#"
#![deny(lint::foo)]
#![expect(lint::bar)]
module example::test {
    public fun baz() {}
}
"#;

    let annotations = parse_module_annotations(source);
    assert_eq!(annotations.len(), 2);
    assert!(annotations
        .iter()
        .any(|a| matches!(a, MoveClippyAnnotation::Deny(n) if n == "foo")));
    assert!(annotations
        .iter()
        .any(|a| matches!(a, MoveClippyAnnotation::Expect(n) if n == "bar")));
}

#[test]
fn test_get_validates_annotation() {
    let source = r#"
    #[validates(admin_cap)]
    fun validate_admin(cap: &AdminCap): bool {}
"#;
    let fn_start = source.find("fun validate").unwrap();
    let validates = get_validates_annotation(source, fn_start);

    assert_eq!(validates, Some("admin_cap".to_string()));
}
