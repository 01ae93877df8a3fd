use move_clippy::parser::mask_lint_directive_lines;

#[test]
fn masking_preserves_length_and_indentation() {
    let src = "   \t#![allow(lint::prefer_vector_methods)]\nmodule my_pkg::m;\n";
    let masked = mask_lint_directive_lines(src);

    assert_eq!(masked.len(), src.len(), "masking must preserve byte length");
    assert_eq!(&masked.as_bytes()[0..4], b"   \t", "indentation must remain");

    let first_line = masked.lines().next().expect("expected at least one line");
    let replaced = &first_line[4..];
    assert!(
        replaced.as_bytes().iter().all(|b| *b == b' '),
        "expected directive contents to be replaced with spaces"
    );
}

#[test]
fn masking_handles_last_line_without_trailing_newline() {
    let src = "#![expect(lint::prefer_vector_methods)]";
    let masked = mask_lint_directive_lines(src);
    assert_eq!(masked.len(), src.len(), "masking must preserve byte length");
    assert!(
        masked.as_bytes().iter().all(|b| *b == b' '),
        "expected entire directive line to be masked"
    );
}

#[test]
fn masking_keeps_newline_offsets() {
    let source = "\t#![allow(lint::é_lint)]\nmodule a::b;\n#[ext(move_clippy(deny(x)))]\nfun f() {}\n";
    let masked = mask_lint_directive_lines(source);
    let at = |s: &str| s.bytes().enumerate().filter(|(_, b)| *b == b'\n').map(|(i, _)| i).collect::<Vec<_>>();
    assert_eq!(at(&masked), at(source));
    assert_eq!(masked.len(), source.len());
    assert!(masked.starts_with("\t    "));
}

#[test]
fn masks_directives_with_extra_whitespace() {
    let src = " \t#![ allow ( lint::prefer_vector_methods ) ]\nmodule my_pkg::m;\n";
    let masked = mask_lint_directive_lines(src);

    assert_eq!(masked.len(), src.len(), "masking must preserve byte length");
    let first_line = masked.lines().next().expect("expected at least one line");
    assert!(
        first_line.trim().is_empty(),
        "expected directive contents to be replaced with spaces"
    );
}
