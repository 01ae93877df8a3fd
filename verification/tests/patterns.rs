use move_clippy::rules::patterns::{
    extract_assert_condition, extract_is_some_receiver, is_simple_expression,
    parse_length_comparison,
};

#[test]
fn test_extract_assert_condition() {
    let src = "assert!(foo == bar, 0);";
    assert_eq!(extract_assert_condition(src), Some("foo == bar"));
    let nested = "assert!(   (vector::length(v) == 0), \"\" );";
    assert_eq!(
        extract_assert_condition(nested),
        Some("vector::length(v) == 0")
    );
}

#[test]
fn test_simple_expression_checks() {
    assert!(is_simple_expression("foo"));
    assert!(is_simple_expression("sui::coin::Coin"));
    assert!(is_simple_expression("foo.bar"));
    assert!(!is_simple_expression("foo(bar)"));
    assert!(!is_simple_expression("(foo, bar)"));
}

#[test]
fn test_is_some_receiver() {
    assert_eq!(extract_is_some_receiver("foo.is_some()"), Some("foo"));
    assert_eq!(extract_is_some_receiver("(foo.is_some());"), Some("foo"));
    assert!(extract_is_some_receiver("foo.bar.is_some()").is_none());
}

#[test]
fn test_parse_length_comparison() {
    assert_eq!(parse_length_comparison("i < vec.length()"), Some(("i", "vec")));
    assert_eq!(
        parse_length_comparison("( idx   < data.length() );"),
        Some(("idx", "data"))
    );
    assert!(parse_length_comparison("i <= vec.length()").is_none());
}
