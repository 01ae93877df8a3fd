use move_clippy::context::LintContext;
use move_clippy::diagnostics::{Applicability, Diagnostic};
use move_clippy::lint::LintSettings;
use move_clippy::rules::conventions::AdminCapPositionLint;
use move_clippy::rules::modernization::{ManualLoopIterationLint, ManualOptionCheckLint};
use move_clippy::rules::style::{
    AbilitiesOrderLint, DocCommentStyleLint, EmptyVectorLiteralLint, EventSuffixLint, TypedAbortCodeLint,
    UnneededReturnLint,
};
use move_clippy::rules::test_quality::MergeTestAttributesLint;
use move_clippy::syntax::{NodeData, SourceText, SyntaxTree};

/// Builds a syntax tree over `src` node by node, in preorder.
struct TreeBuilder<'a> {
    src: &'a str,
    nodes: Vec<NodeData>,
}

fn point(src: &str, byte: usize) -> (usize, usize) {
    let before = &src[..byte];
    let row = before.matches('\n').count();
    let col = match before.rfind('\n') {
        Some(p) => byte - p - 1,
        None => byte,
    };
    (row, col)
}

impl<'a> TreeBuilder<'a> {
    fn new(src: &'a str) -> Self {
        let mut b = TreeBuilder { src, nodes: Vec::new() };
        b.push(None, "source_file", None, 0, src.len(), true);
        b
    }

    fn push(&mut self, parent: Option<usize>, kind: &str, field: Option<&str>, start: usize, end: usize, named: bool) -> usize {
        let (sr, sc) = point(self.src, start);
        let (er, ec) = point(self.src, end);
        let index = self.nodes.len();
        self.nodes.push(NodeData {
            kind: kind.to_string(),
            named,
            field: field.map(|f| f.to_string()),
            start_byte: start,
            end_byte: end,
            start_row: sr,
            start_column: sc,
            end_row: er,
            end_column: ec,
            parent,
            children: Vec::new(),
        });
        if let Some(p) = parent {
            self.nodes[p].children.push(index);
        }
        index
    }

    /// A named node over the first occurrence of `text` at or after the parent's start.
    fn node(&mut self, parent: usize, kind: &str, field: Option<&str>, text: &str) -> usize {
        let from = self.nodes[parent].start_byte;
        let start = from + self.src[from..].find(text).expect("text in source");
        self.push(Some(parent), kind, field, start, start + text.len(), true)
    }

    fn build(self) -> SyntaxTree {
        SyntaxTree::from_nodes(self.nodes).expect("well-formed tree")
    }
}

fn context(src: &str) -> LintContext {
    LintContext::new(src, LintSettings::new())
}

fn messages(ds: &[Diagnostic]) -> Vec<String> {
    ds.iter().map(|d| d.message.clone()).collect()
}

// ---------------------------------------------------------------------------
// abilities_order
// ---------------------------------------------------------------------------

fn abilities_tree(src: &str, abilities: &str) -> SyntaxTree {
    let mut b = TreeBuilder::new(src);
    let s = b.node(0, "struct_definition", None, src.trim());
    b.node(s, "ability_decls", None, abilities);
    b.build()
}

#[test]
fn abilities_out_of_order_are_reordered() {
    let src = "struct S has store, key { id: UID }";
    let tree = abilities_tree(src, "has store, key");
    let mut ctx = context(src);
    AbilitiesOrderLint.check(&tree, &SourceText::new(src), &mut ctx);
    let ds = ctx.into_diagnostics();
    assert_eq!(ds.len(), 1);
    assert_eq!(ds[0].message, "Abilities should be ordered: `has key, store`. Found: `has store, key`");
    assert_eq!(ds[0].help.as_deref(), Some("Reorder to `has key, store`"));
    let s = ds[0].suggestion.as_ref().unwrap();
    assert_eq!(s.replacement, "has key, store");
    assert_eq!(s.applicability, Applicability::MachineApplicable);
}

#[test]
fn abilities_sort_is_stable_over_four() {
    let src = "struct S has store, drop, copy, key {}";
    let tree = abilities_tree(src, "has store, drop, copy, key");
    let mut ctx = context(src);
    AbilitiesOrderLint.check(&tree, &SourceText::new(src), &mut ctx);
    let ds = ctx.into_diagnostics();
    assert_eq!(ds.len(), 1);
    assert_eq!(ds[0].suggestion.as_ref().unwrap().replacement, "has key, copy, drop, store");
}

#[test]
fn abilities_in_order_are_accepted() {
    let src = "struct S has key, store { id: UID }";
    let tree = abilities_tree(src, "has key, store");
    let mut ctx = context(src);
    AbilitiesOrderLint.check(&tree, &SourceText::new(src), &mut ctx);
    assert!(ctx.into_diagnostics().is_empty());
}

// ---------------------------------------------------------------------------
// doc_comment_style
// ---------------------------------------------------------------------------

#[test]
fn javadoc_before_function_is_reported() {
    let src = "/** Adds. */\nfun add() {}";
    let mut b = TreeBuilder::new(src);
    b.node(0, "block_comment", None, "/** Adds. */");
    b.node(0, "function_definition", None, "fun add() {}");
    let tree = b.build();
    let mut ctx = context(src);
    DocCommentStyleLint.check(&tree, &SourceText::new(src), &mut ctx);
    assert_eq!(messages(&ctx.into_diagnostics()), vec!["Use `///` for doc comments instead of block comments"]);
}

#[test]
fn block_doc_with_star_lines_is_reported_past_comments() {
    let src = "/*\n * Adds.\n */\n// note\nconst X: u64 = 1;";
    let mut b = TreeBuilder::new(src);
    b.node(0, "block_comment", None, "/*\n * Adds.\n */");
    b.node(0, "line_comment", None, "// note");
    b.node(0, "constant", None, "const X: u64 = 1;");
    let tree = b.build();
    let mut ctx = context(src);
    DocCommentStyleLint.check(&tree, &SourceText::new(src), &mut ctx);
    assert_eq!(ctx.into_diagnostics().len(), 1);
}

#[test]
fn plain_block_comment_is_accepted() {
    let src = "/* plain */\nfun add() {}";
    let mut b = TreeBuilder::new(src);
    b.node(0, "block_comment", None, "/* plain */");
    b.node(0, "function_definition", None, "fun add() {}");
    let tree = b.build();
    let mut ctx = context(src);
    DocCommentStyleLint.check(&tree, &SourceText::new(src), &mut ctx);
    assert!(ctx.into_diagnostics().is_empty());
}

// ---------------------------------------------------------------------------
// empty_vector_literal
// ---------------------------------------------------------------------------

fn call_tree(src: &str, call: &str) -> SyntaxTree {
    let mut b = TreeBuilder::new(src);
    b.node(0, "call_expression", None, call);
    b.build()
}

#[test]
fn empty_vector_call_is_replaced_by_literal() {
    let src = "let v = vector::empty();";
    let tree = call_tree(src, "vector::empty()");
    let mut ctx = context(src);
    let lint = EmptyVectorLiteralLint;
    assert!(lint.can_check(&tree, &SourceText::new(src)));
    lint.check(&tree, &SourceText::new(src), &mut ctx);
    let ds = ctx.into_diagnostics();
    assert_eq!(ds.len(), 1);
    assert_eq!(ds[0].message, "Prefer `vector[]` over `vector::empty()`");
    assert_eq!(ds[0].help.as_deref(), Some("Replace with `vector[]`"));
    let s = ds[0].suggestion.as_ref().unwrap();
    assert_eq!(s.message, "Replace `vector::empty()` with `vector[]`");
    assert_eq!(s.replacement, "vector[]");
}

#[test]
fn empty_vector_with_type_keeps_the_type() {
    let src = "let v = vector::empty< u64 >();";
    let tree = call_tree(src, "vector::empty< u64 >()");
    let mut ctx = context(src);
    EmptyVectorLiteralLint.check(&tree, &SourceText::new(src), &mut ctx);
    let ds = ctx.into_diagnostics();
    assert_eq!(ds[0].suggestion.as_ref().unwrap().replacement, "vector<u64>");
}

#[test]
fn empty_vector_with_unclosed_type_cannot_be_checked() {
    let src = "vector::empty(a<b)()";
    let tree = call_tree(src, "vector::empty(a<b)()");
    assert!(!EmptyVectorLiteralLint.can_check(&tree, &SourceText::new(src)));
}

// ---------------------------------------------------------------------------
// typed_abort_code
// ---------------------------------------------------------------------------

fn abort_tree(src: &str, code: &str) -> SyntaxTree {
    let mut b = TreeBuilder::new(src);
    let f = b.node(0, "function_definition", None, src.trim());
    let a = b.node(f, "abort_expression", None, "abort");
    let end = b.nodes[f].end_byte - 2;
    b.nodes[a].end_byte = end;
    b.nodes[a].end_column = end;
    b.node(a, "num_literal", Some("value"), code);
    b.build()
}

#[test]
fn numeric_abort_code_is_reported() {
    let src = "fun f() { abort 42 }";
    let tree = abort_tree(src, "42");
    let mut ctx = context(src);
    TypedAbortCodeLint.check(&tree, &SourceText::new(src), &mut ctx);
    assert_eq!(messages(&ctx.into_diagnostics()), vec!["Prefer named error constant over numeric abort code `42`"]);
}

#[test]
fn abort_codes_past_u64_are_not_numbers() {
    let src = "fun f() { abort 18446744073709551616 }";
    let tree = abort_tree(src, "18446744073709551616");
    let mut ctx = context(src);
    TypedAbortCodeLint.check(&tree, &SourceText::new(src), &mut ctx);
    assert!(ctx.into_diagnostics().is_empty());
}

#[test]
fn hex_assert_code_is_reported() {
    let src = "fun f() { assert!(ok(x), 0xFF); }";
    let mut b = TreeBuilder::new(src);
    let f = b.node(0, "function_definition", None, src);
    b.node(f, "macro_call_expression", None, "assert!(ok(x), 0xFF)");
    let tree = b.build();
    let mut ctx = context(src);
    TypedAbortCodeLint.check(&tree, &SourceText::new(src), &mut ctx);
    assert_eq!(messages(&ctx.into_diagnostics()), vec!["Prefer named error constant over numeric abort code `0xFF`"]);
}

#[test]
fn abort_codes_in_tests_are_accepted() {
    let src = "#[test]\nfun t() { abort 1 }";
    let mut b = TreeBuilder::new(src);
    b.node(0, "attribute", None, "#[test]");
    let f = b.node(0, "function_definition", None, "fun t() { abort 1 }");
    let a = b.node(f, "abort_expression", None, "abort 1");
    b.node(a, "num_literal", Some("value"), "1");
    let tree = b.build();
    let mut ctx = context(src);
    TypedAbortCodeLint.check(&tree, &SourceText::new(src), &mut ctx);
    assert!(ctx.into_diagnostics().is_empty());
}

// ---------------------------------------------------------------------------
// unneeded_return
// ---------------------------------------------------------------------------

#[test]
fn trailing_return_is_reported_with_fix() {
    let src = "fun f(): u64 {\n    return 5;\n}";
    let mut b = TreeBuilder::new(src);
    let f = b.node(0, "function_definition", None, src);
    let body = b.node(f, "block", Some("body"), "{\n    return 5;\n}");
    let item = b.node(body, "block_item", None, "return 5;");
    b.node(item, "return_expression", None, "return 5");
    let tree = b.build();
    let mut ctx = context(src);
    UnneededReturnLint.check(&tree, &SourceText::new(src), &mut ctx);
    let ds = ctx.into_diagnostics();
    assert_eq!(ds.len(), 1);
    assert_eq!(ds[0].message, "Remove `return`; the last expression in a block already returns implicitly");
    assert_eq!(ds[0].help.as_deref(), Some("Replace with `5`"));
    assert_eq!(ds[0].suggestion.as_ref().unwrap().replacement, "5");
    assert_eq!(ds[0].span.start.row, 2);
    assert_eq!(ds[0].span.start.column, 5);
}

// ---------------------------------------------------------------------------
// event_suffix
// ---------------------------------------------------------------------------

fn event_tree(src: &str, name: &str, abilities: &str) -> SyntaxTree {
    let mut b = TreeBuilder::new(src);
    let s = b.node(0, "struct_definition", None, src);
    b.node(s, "identifier", Some("name"), name);
    b.node(s, "ability_decls", None, abilities);
    b.build()
}

#[test]
fn event_without_suffix_is_reported() {
    let src = "struct Transfer has Copy, Drop { amount: u64 }";
    let tree = event_tree(src, "Transfer", "has Copy, Drop");
    let mut ctx = context(src);
    EventSuffixLint.check(&tree, &SourceText::new(src), &mut ctx);
    assert_eq!(
        messages(&ctx.into_diagnostics()),
        vec!["Event struct `Transfer` should end with `Event` suffix (e.g., `TransferEvent`)"]
    );
}

#[test]
fn past_tense_event_is_accepted() {
    let src = "struct Transferred has copy, drop { amount: u64 }";
    let tree = event_tree(src, "Transferred", "has copy, drop");
    let mut ctx = context(src);
    EventSuffixLint.check(&tree, &SourceText::new(src), &mut ctx);
    assert!(ctx.into_diagnostics().is_empty());
}

// ---------------------------------------------------------------------------
// admin_cap_position
// ---------------------------------------------------------------------------

fn params_tree(src: &str, params: &[(&str, &str)]) -> SyntaxTree {
    let mut b = TreeBuilder::new(src);
    let f = b.node(0, "function_definition", None, src);
    let open = src.find('(').unwrap();
    let close = src.rfind(')').unwrap();
    let pl = b.push(Some(f), "function_parameters", Some("parameters"), open, close + 1, true);
    for (param, ty) in params {
        let p = b.node(pl, "function_parameter", None, param);
        b.node(p, "ref_type", Some("type"), ty);
    }
    b.build()
}

#[test]
fn late_capability_is_reported() {
    let src = "fun f(x: u64, cap: &AdminCap) {}";
    let tree = params_tree(src, &[("x: u64", "u64"), ("cap: &AdminCap", "&AdminCap")]);
    let mut ctx = context(src);
    AdminCapPositionLint.check(&tree, &SourceText::new(src), &mut ctx);
    assert_eq!(
        messages(&ctx.into_diagnostics()),
        vec!["Capability parameter `&AdminCap` should be first in the parameter list"]
    );
}

#[test]
fn capability_after_tx_context_is_accepted_second_only() {
    let src = "fun f(ctx: &mut TxContext, x: u64, cap: &mut TreasuryCap) {}";
    let tree = params_tree(
        src,
        &[("ctx: &mut TxContext", "&mut TxContext"), ("x: u64", "u64"), ("cap: &mut TreasuryCap", "&mut TreasuryCap")],
    );
    let mut ctx = context(src);
    AdminCapPositionLint.check(&tree, &SourceText::new(src), &mut ctx);
    assert_eq!(
        messages(&ctx.into_diagnostics()),
        vec!["Capability parameter `&mut TreasuryCap` should be second (after TxContext) in the parameter list"]
    );
}

// ---------------------------------------------------------------------------
// merge_test_attributes
// ---------------------------------------------------------------------------

#[test]
fn stacked_test_attributes_are_reported() {
    let src = "#[test]\n#[expected_failure]\nfun t() {}";
    let mut b = TreeBuilder::new(src);
    b.node(0, "attribute", None, "#[test]");
    b.node(0, "attribute", None, "#[expected_failure]");
    b.node(0, "function_definition", None, "fun t() {}");
    let tree = b.build();
    let mut ctx = context(src);
    MergeTestAttributesLint.check(&tree, &SourceText::new(src), &mut ctx);
    let ds = ctx.into_diagnostics();
    assert_eq!(ds.len(), 1);
    assert_eq!(ds[0].message, "Merge `#[test]` and `#[expected_failure]` into `#[test, expected_failure]`");
    assert_eq!((ds[0].span.start.row, ds[0].span.start.column), (1, 1));
    assert_eq!((ds[0].span.end.row, ds[0].span.end.column), (2, 20));
}

#[test]
fn expected_failure_with_arguments_is_accepted() {
    let src = "#[test]\n#[expected_failure(abort_code = 1, location = m)]\nfun t() {}";
    let mut b = TreeBuilder::new(src);
    b.node(0, "attribute", None, "#[test]");
    b.node(0, "attribute", None, "#[expected_failure(abort_code = 1, location = m)]");
    let tree = b.build();
    let mut ctx = context(src);
    MergeTestAttributesLint.check(&tree, &SourceText::new(src), &mut ctx);
    assert!(ctx.into_diagnostics().is_empty());
}

// ---------------------------------------------------------------------------
// manual_option_check / manual_loop_iteration
// ---------------------------------------------------------------------------

#[test]
fn manual_option_check_suggests_do() {
    let src = "if (opt.is_some()) {\n    let v = opt.destroy_some();\n    use_it(v);\n}";
    let mut b = TreeBuilder::new(src);
    let i = b.node(0, "if_expression", None, src);
    b.node(i, "dot_expression", None, "opt.is_some()");
    b.node(i, "block", None, "{\n    let v = opt.destroy_some();\n    use_it(v);\n}");
    let tree = b.build();
    let mut ctx = context(src);
    ManualOptionCheckLint.check(&tree, &SourceText::new(src), &mut ctx);
    let ds = ctx.into_diagnostics();
    assert_eq!(ds.len(), 1);
    assert_eq!(ds[0].message, "Consider `opt.do!(|v| ...)` instead of manual `is_some()` + `destroy_some()`");
    let s = ds[0].suggestion.as_ref().unwrap();
    assert_eq!(s.replacement, "opt.do!(|v| {\nuse_it(v);\n})");
    assert_eq!(s.message, "Replace with opt.do! macro");
    assert_eq!(s.applicability, Applicability::MaybeIncorrect);
}

#[test]
fn manual_loop_iteration_suggests_do_ref() {
    let src = "while (i < v.length()) {\n    let x = v.borrow(i);\n    sum = sum + *x;\n    i = i + 1;\n}";
    let mut b = TreeBuilder::new(src);
    let w = b.node(0, "while_expression", None, src);
    b.node(w, "binary_expression", Some("condition"), "i < v.length()");
    b.node(w, "block", Some("body"), "{\n    let x = v.borrow(i);\n    sum = sum + *x;\n    i = i + 1;\n}");
    let tree = b.build();
    let mut ctx = context(src);
    ManualLoopIterationLint.check(&tree, &SourceText::new(src), &mut ctx);
    let ds = ctx.into_diagnostics();
    assert_eq!(ds.len(), 1);
    assert_eq!(ds[0].message, "Consider `v.do_ref!(|e| ...)` instead of manual while loop with index");
    assert_eq!(
        ds[0].help.as_deref(),
        Some("Use do_ref! macro for cleaner iteration. Note: You must manually remove `let mut i = 0;` above this loop.")
    );
    let s = ds[0].suggestion.as_ref().unwrap();
    assert_eq!(s.replacement, "v.do_ref!(|x| {\nsum = sum + *x;\n})");
}

// ---------------------------------------------------------------------------
// directives through a rule
// ---------------------------------------------------------------------------

#[test]
fn module_allow_silences_a_rule() {
    let src = "#![allow(lint::typed_abort_code)]\nfun f() { abort 42 }";
    let mut b = TreeBuilder::new(src);
    let f = b.node(0, "function_definition", None, "fun f() { abort 42 }");
    let a = b.node(f, "abort_expression", None, "abort 42");
    b.node(a, "num_literal", Some("value"), "42");
    let tree = b.build();
    let mut ctx = context(src);
    TypedAbortCodeLint.check(&tree, &SourceText::new(src), &mut ctx);
    assert!(ctx.into_diagnostics().is_empty());
}

#[test]
fn item_deny_raises_a_rule_to_error() {
    let src = "#[ext(move_clippy(deny(typed_abort_code)))]\nfun f() { abort 42 }";
    let mut b = TreeBuilder::new(src);
    let f = b.node(0, "function_definition", None, "fun f() { abort 42 }");
    let a = b.node(f, "abort_expression", None, "abort 42");
    b.node(a, "num_literal", Some("value"), "42");
    let tree = b.build();
    let mut ctx = context(src);
    TypedAbortCodeLint.check(&tree, &SourceText::new(src), &mut ctx);
    let ds = ctx.into_diagnostics();
    assert_eq!(ds.len(), 1);
    assert_eq!(ds[0].level, move_clippy::level::LintLevel::Error);
}

#[test]
fn unmet_file_expectation_is_an_error() {
    let src = "#![expect(lint::typed_abort_code)]\nfun f() { g() }";
    let mut b = TreeBuilder::new(src);
    b.node(0, "function_definition", None, "fun f() { g() }");
    let tree = b.build();
    let mut ctx = context(src);
    TypedAbortCodeLint.check(&tree, &SourceText::new(src), &mut ctx);
    let ds = ctx.into_diagnostics();
    assert_eq!(ds.len(), 1);
    assert_eq!(ds[0].lint.name, "unfulfilled_expectation");
    assert_eq!(ds[0].level, move_clippy::level::LintLevel::Error);
}

#[test]
fn met_file_expectation_keeps_the_diagnostic() {
    let src = "#![expect(lint::typed_abort_code)]\nfun f() { abort 42 }";
    let mut b = TreeBuilder::new(src);
    let f = b.node(0, "function_definition", None, "fun f() { abort 42 }");
    let a = b.node(f, "abort_expression", None, "abort 42");
    b.node(a, "num_literal", Some("value"), "42");
    let tree = b.build();
    let mut ctx = context(src);
    TypedAbortCodeLint.check(&tree, &SourceText::new(src), &mut ctx);
    let ds = ctx.into_diagnostics();
    assert_eq!(ds.len(), 1);
    assert_eq!(ds[0].lint.name, "typed_abort_code");
}
