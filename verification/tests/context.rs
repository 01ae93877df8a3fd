use move_clippy::context::LintContext;
use move_clippy::diagnostics::{Position, Span};
use move_clippy::level::LintLevel;
use move_clippy::lint::{LintCategory, LintDescriptor, LintSettings, RuleGroup};
use move_clippy::semantic::{descriptors, find_descriptor};

#[test]
fn file_level_report_meets_file_expectation() {
    let foo = LintDescriptor::stable("foo", LintCategory::Style, "d");
    let mut ctx = LintContext::new(
        "#![expect(lint::foo)]\n#![expect(lint::bar)]\nmodule a::b;\n",
        LintSettings::new(),
    );
    ctx.report(
        &foo,
        Span { start: Position { row: 3, column: 1 }, end: Position { row: 3, column: 2 } },
        "m".to_string(),
    );
    let result = ctx.into_diagnostics();
    assert_eq!(result.len(), 2);
    assert_eq!(result[0].lint.name, "foo");
    assert_eq!(result[0].level, LintLevel::Warn);
    assert_eq!(result[1].lint.name, "unfulfilled_expectation");
    assert_eq!(result[1].level, LintLevel::Error);
    assert_eq!(result[1].span.start, Position { row: 1, column: 1 });
    assert_eq!(
        result[1].message,
        "Expected `lint::bar` to produce a diagnostic in this file, but it did not"
    );
}

#[test]
fn every_tier_but_stable_needs_opt_in() {
    assert!(!RuleGroup::Stable.requires_opt_in());
    assert!(RuleGroup::Preview.requires_opt_in());
    assert!(RuleGroup::Experimental.requires_opt_in());
    assert!(RuleGroup::Deprecated.requires_opt_in());
    for g in [RuleGroup::Stable, RuleGroup::Preview, RuleGroup::Experimental, RuleGroup::Deprecated] {
        assert_eq!(g.requires_opt_in(), g.required_flag().is_some());
    }
}

#[test]
fn semantic_descriptor_lookup_finds_listed_names_only() {
    assert_eq!(find_descriptor("share_owned").unwrap().name, "share_owned");
    assert!(find_descriptor("abilities_order").is_none());
    for d in descriptors() {
        assert_eq!(find_descriptor(d.name).unwrap().name, d.name);
    }
}

#[test]
fn unconfigured_lint_reads_warn() {
    let s = LintSettings::new().with_config_levels(vec![("foo".to_string(), LintLevel::Error)]);
    assert_eq!(s.level_for("bar"), LintLevel::Warn);
    assert_eq!(s.level_for("foo"), LintLevel::Error);
}

#[test]
fn config_levels_read_back_and_keep_others() {
    let s = LintSettings::new().with_config_levels(vec![("keep".to_string(), LintLevel::Allow)]);
    let t = s.with_config_levels(vec![
        ("a".to_string(), LintLevel::Error),
        ("b".to_string(), LintLevel::Allow),
    ]);
    assert_eq!(t.level_for("a"), LintLevel::Error);
    assert_eq!(t.level_for("b"), LintLevel::Allow);
    assert_eq!(t.level_for("keep"), LintLevel::Allow);
    assert_eq!(t.level_for("other"), LintLevel::Warn);
}

#[test]
fn disable_allows_named_lints_and_keeps_others() {
    let s = LintSettings::new().with_config_levels(vec![
        ("a".to_string(), LintLevel::Error),
        ("c".to_string(), LintLevel::Error),
    ]);
    let t = s.disable(vec!["a".to_string(), "b".to_string()]);
    assert_eq!(t.level_for("a"), LintLevel::Allow);
    assert_eq!(t.level_for("b"), LintLevel::Allow);
    assert_eq!(t.level_for("c"), LintLevel::Error);
    assert_eq!(t.level_for("d"), LintLevel::Warn);
}
