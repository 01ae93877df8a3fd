use move_clippy::catalog::{escape_md_cell, requirements};
use move_clippy::lint::{AnalysisKind, RuleGroup};

#[test]
fn syntactic_stable_lint_runs_in_fast_mode() {
    assert_eq!(requirements(AnalysisKind::Syntactic, RuleGroup::Stable), "fast");
}

#[test]
fn type_based_preview_lint_needs_full_mode_and_preview() {
    assert_eq!(
        requirements(AnalysisKind::TypeBased, RuleGroup::Preview),
        "--mode full --preview"
    );
}

#[test]
fn syntactic_experimental_lint_needs_only_its_flag() {
    assert_eq!(
        requirements(AnalysisKind::Syntactic, RuleGroup::Experimental),
        "--experimental"
    );
    assert_eq!(
        requirements(AnalysisKind::Syntactic, RuleGroup::Deprecated),
        "--experimental"
    );
}

#[test]
fn cross_module_stable_lint_needs_only_full_mode() {
    assert_eq!(requirements(AnalysisKind::CrossModule, RuleGroup::Stable), "--mode full");
}

#[test]
fn markdown_cells_escape_pipes_and_newlines() {
    assert_eq!(escape_md_cell("a|b\nc"), "a\\|b c");
    assert_eq!(escape_md_cell("plain"), "plain");
    assert_eq!(escape_md_cell(""), "");
}
