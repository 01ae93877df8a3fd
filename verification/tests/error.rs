use move_clippy::error::{format_error_chain, Error};

#[test]
fn test_error_display() {
    let err = Error::parse("unexpected token".to_string());
    assert_eq!(err.message(), "parse error: unexpected token");

    let err = Error::semantic("type mismatch".to_string());
    assert_eq!(err.message(), "semantic analysis failed: type mismatch");

    let err = Error::unknown_lint("fake_lint".to_string());
    assert_eq!(err.message(), "unknown lint: fake_lint");
}

#[test]
fn test_error_with_context() {
    let err = Error::parse("syntax error".to_string()).with_context("processing file.move".to_string());
    assert!(err.message().contains("processing file.move"));
}

#[test]
fn context_comes_before_the_message() {
    let err = Error::parse("syntax error".to_string()).with_context("processing file.move".to_string());
    assert_eq!(format_error_chain(&err), "processing file.move: parse error: syntax error");
    let err = Error::config("move-clippy.toml".to_string(), "bad level".to_string());
    assert_eq!(err.message(), "configuration error in move-clippy.toml: bad level");
    assert_eq!(Error::other("plain".to_string()).message(), "plain");
    assert_eq!(Error::Io("denied".to_string()).message(), "I/O error: denied");
}
