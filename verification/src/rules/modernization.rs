//! Lints that suggest Move 2024 forms: method-call syntax, label module
//! syntax, `assert_eq!`.
use vstd::prelude::*;
use crate::annotations::{item_annotations, item_scope, scope_of};
use crate::context::{findings_reported, LintContext};
use crate::diagnostics::{opt_suggestion_view, opt_view, Applicability, DiagView, Diagnostic, Span, Suggestion, SuggestionView};
use crate::level::LintLevel;
use crate::lint::{AnalysisKind, FixDescriptor, FixSafety, LintCategory, LintDescriptor, RuleGroup};
use crate::rules::patterns::{
    extract_is_some_receiver, is_some_receiver, length_comparison, parse_length_comparison, assert_condition, extract_assert_condition, is_simple_equality_comparison, simple_equality,
};
use crate::rules::util::{
    args_of, call_parts, generate_method_call_fix, is_simple_ident, is_simple_receiver,
    method_call_text, parse_ref_ident, parse_ref_mut_ident, ref_ident, ref_mut_ident,
    simple_ident, split_args, split_call, str_views,
};
use crate::syntax::{span_of, text_of, NodeView, SourceText, SyntaxTree};
use crate::text::{
    contains, join_with, lines, span_pieces, string_of, chars_of, compact_ws, find, find_from, push_str, remove_ws, rfind, str_eq, strip_prefix,
    to_owned_string, trim, trim_start, trim_str, v_find_from,
};

verus! {

// ---------------------------------------------------------------------------
// Shared pieces
// ---------------------------------------------------------------------------
/// `a + b` as a new string.
pub fn concat(a: &str, b: &str) -> (r: String)
    ensures
        r@ == a@ + b@,
{
    let mut r = String::new();
    push_str(&mut r, a);
    push_str(&mut r, b);
    assert(r@ =~= a@ + b@);
    r
}

/// The view of an optional diagnostic.
pub open spec fn opt_diag_view(o: Option<Diagnostic>) -> Option<DiagView> {
    match o {
        Some(d) => Some(d@),
        None => None,
    }
}

/// A warning-level diagnostic of `lint` over node `n`.
pub open spec fn node_diag(
    lint: LintDescriptor,
    n: NodeView,
    message: Seq<char>,
    help: Option<Seq<char>>,
    suggestion: Option<SuggestionView>,
) -> DiagView {
    DiagView { lint, level: LintLevel::Warn, file: None, span: span_of(n), message, help, suggestion }
}

/// Builds a warning-level diagnostic (the level that applies is set when it is reported).
pub fn make_diagnostic(
    lint: LintDescriptor,
    span: Span,
    message: String,
    help: Option<String>,
    suggestion: Option<Suggestion>,
) -> (d: Diagnostic)
    ensures
        d@ == (DiagView {
            lint,
            level: LintLevel::Warn,
            file: None,
            span,
            message: message@,
            help: opt_view(help),
            suggestion: opt_suggestion_view(suggestion),
        }),
{
    Diagnostic { lint, level: LintLevel::Warn, file: None, span, message, help, suggestion }
}

/// The trimmed text of node `i`.
pub open spec fn node_text(ns: Seq<NodeView>, src: Seq<char>, i: int) -> Seq<char> {
    text_of(src, ns[i].start_byte, ns[i].end_byte)
}

/// A machine-applicable "use method syntax" suggestion.
pub open spec fn method_suggestion(repl: Seq<char>) -> SuggestionView {
    SuggestionView {
        message: "Use method syntax: "@ + repl,
        replacement: repl,
        applicability: Applicability::MachineApplicable,
    }
}

fn method_suggestion_exec(repl: String) -> (r: Suggestion)
    ensures
        r@ == method_suggestion(repl@),
{
    let message = concat("Use method syntax: ", repl.as_str());
    Suggestion { message, replacement: repl, applicability: Applicability::MachineApplicable }
}

// ---------------------------------------------------------------------------
// prefer_vector_methods
// ---------------------------------------------------------------------------
pub open spec fn prefer_vector_methods_descriptor() -> LintDescriptor {
    LintDescriptor {
        name: "prefer_vector_methods",
        category: LintCategory::Modernization,
        description: "Prefer method syntax on vectors (e.g., v.push_back(x), v.length())",
        group: RuleGroup::Stable,
        fix: FixDescriptor { available: true, safety: FixSafety::Safe, description: "Convert to method syntax" },
        analysis: AnalysisKind::Syntactic,
        gap: None,
    }
}

/// The report for a `vector::` call on `recv` turned into `recv.method(rest)`.
pub open spec fn vector_method_diag(n: NodeView, recv: Seq<char>, method: Seq<char>, rest: Seq<Seq<char>>, shown: Seq<char>) -> DiagView {
    node_diag(
        prefer_vector_methods_descriptor(),
        n,
        "Prefer method syntax: `"@ + recv + shown,
        Some("Use method call syntax for cleaner code"@),
        if simple_ident(recv) {
            Some(method_suggestion(method_call_text(recv, method, rest)))
        } else {
            None
        },
    )
}

/// What `prefer_vector_methods` reports at node `i`.
pub open spec fn prefer_vector_methods_finding(ns: Seq<NodeView>, src: Seq<char>, i: int) -> Option<DiagView> {
    if !(0 <= i < ns.len()) || ns[i].kind != "call_expression"@ {
        None
    } else {
        match call_parts(trim(node_text(ns, src, i))) {
            None => None,
            Some((callee, args_str)) => {
                let c = remove_ws(callee);
                if c == "vector::push_back"@ {
                    match args_of(args_str) {
                        None => None,
                        Some(args) => if args.len() != 2 {
                            None
                        } else {
                            match ref_mut_ident(args[0]) {
                                None => None,
                                Some(recv) => Some(
                                    vector_method_diag(ns[i], recv, "push_back"@, seq![args[1]], ".push_back(...)`"@),
                                ),
                            }
                        },
                    }
                } else if c == "vector::length"@ {
                    match args_of(args_str) {
                        None => None,
                        Some(args) => if args.len() != 1 {
                            None
                        } else {
                            match ref_ident(args[0]) {
                                None => None,
                                Some(recv) => Some(
                                    vector_method_diag(ns[i], recv, "length"@, Seq::empty(), ".length()`"@),
                                ),
                            }
                        },
                    }
                } else {
                    None
                }
            },
        }
    }
}

/// Prefer method syntax on vectors (e.g., `v.push_back(x)`, `v.length()`).
pub struct PreferVectorMethodsLint;

impl PreferVectorMethodsLint {
    pub fn descriptor(&self) -> (r: LintDescriptor)
        ensures
            r == prefer_vector_methods_descriptor(),
    {
        LintDescriptor {
            name: "prefer_vector_methods",
            category: LintCategory::Modernization,
            description: "Prefer method syntax on vectors (e.g., v.push_back(x), v.length())",
            group: RuleGroup::Stable,
            fix: FixDescriptor { available: true, safety: FixSafety::Safe, description: "Convert to method syntax" },
            analysis: AnalysisKind::Syntactic,
            gap: None,
        }
    }

    fn vector_diag(&self, tree: &SyntaxTree, i: usize, recv: &str, method: &str, rest: Vec<&str>, shown: &str) -> (r: Diagnostic)
        requires
            i < tree@.len(),
        ensures
            r@ == vector_method_diag(tree@[i as int], recv@, method@, str_views(rest@), shown@),
    {
        let suggestion = if is_simple_receiver(recv) {
            Some(method_suggestion_exec(generate_method_call_fix(recv, method, rest)))
        } else {
            None
        };
        let message = concat(concat("Prefer method syntax: `", recv).as_str(), shown);
        assert(message@ =~= "Prefer method syntax: `"@ + recv@ + shown@);
        make_diagnostic(
            self.descriptor(),
            tree.span(i),
            message,
            Some(to_owned_string("Use method call syntax for cleaner code")),
            suggestion,
        )
    }

    /// The report at node `i`, if any.
    pub fn finding(&self, tree: &SyntaxTree, source: &SourceText, i: usize) -> (r: Option<Diagnostic>)
        requires
            i < tree@.len(),
        ensures
            opt_diag_view(r) == prefer_vector_methods_finding(tree@, source@, i as int),
    {
        if !tree.is_kind(i, "call_expression") {
            return None;
        }
        let full = tree.text(source, i);
        let text = trim_str(full.as_str());
        let (callee, args_str) = match split_call(text) {
            Some(p) => p,
            None => {
                return None;
            },
        };
        let callee = compact_ws(callee);
        if str_eq(callee.as_str(), "vector::push_back") {
            let args = match split_args(args_str) {
                Some(a) => a,
                None => {
                    return None;
                },
            };
            if args.len() != 2 {
                return None;
            }
            let recv = match parse_ref_mut_ident(args[0]) {
                Some(r) => r,
                None => {
                    return None;
                },
            };
            let rest = vec![args[1]];
            assert(str_views(rest@) =~= seq![str_views(args@)[1]]);
            Some(self.vector_diag(tree, i, recv, "push_back", rest, ".push_back(...)`"))
        } else if str_eq(callee.as_str(), "vector::length") {
            let args = match split_args(args_str) {
                Some(a) => a,
                None => {
                    return None;
                },
            };
            if args.len() != 1 {
                return None;
            }
            let recv = match parse_ref_ident(args[0]) {
                Some(r) => r,
                None => {
                    return None;
                },
            };
            let rest: Vec<&str> = Vec::new();
            assert(str_views(rest@) =~= Seq::<Seq<char>>::empty());
            Some(self.vector_diag(tree, i, recv, "length", rest, ".length()`"))
        } else {
            None
        }
    }

    /// Reports every `vector::push_back(&mut v, x)` and `vector::length(&v)` call.
    pub fn check(&self, tree: &SyntaxTree, source: &SourceText, ctx: &mut LintContext)
        ensures
            final(ctx)@ == findings_reported(
                old(ctx)@,
                tree@,
                |i: int| prefer_vector_methods_finding(tree@, source@, i),
                tree@.len() as int,
            ),
    {
        let mut i: usize = 0;
        while i < tree.len()
            invariant
                i <= tree@.len(),
                ctx@ == findings_reported(
                    old(ctx)@,
                    tree@,
                    |i: int| prefer_vector_methods_finding(tree@, source@, i),
                    i as int,
                ),
            decreases tree@.len() - i,
        {
            match self.finding(tree, source, i) {
                Some(d) => {
                    ctx.report_diagnostic_for_node(tree, i, d);
                },
                None => {},
            }
            i = i + 1;
        }
    }
}


// ---------------------------------------------------------------------------
// modern_method_syntax
// ---------------------------------------------------------------------------
pub open spec fn modern_method_syntax_descriptor() -> LintDescriptor {
    LintDescriptor {
        name: "modern_method_syntax",
        category: LintCategory::Modernization,
        description: "Prefer Move 2024 method call syntax for common allowlisted functions",
        group: RuleGroup::Stable,
        fix: FixDescriptor { available: true, safety: FixSafety::Safe, description: "Convert to method syntax" },
        analysis: AnalysisKind::Syntactic,
        gap: None,
    }
}

/// Number of known-safe method-syntax rewrites.
pub open spec fn method_transform_count() -> int {
    60
}

/// The known-safe rewrites: (module, function, method, argument count).
pub open spec fn method_transform(k: int) -> (Seq<char>, Seq<char>, Seq<char>, int) {
    if k < 0 {
        (Seq::empty(), Seq::empty(), Seq::empty(), 0)
    } else if k == 0 {
        ("tx_context"@, "sender"@, "sender"@, 1)
    } else if k == 1 {
        ("tx_context"@, "epoch"@, "epoch"@, 1)
    } else if k == 2 {
        ("tx_context"@, "epoch_timestamp_ms"@, "epoch_timestamp_ms"@, 1)
    } else if k == 3 {
        ("object"@, "delete"@, "delete"@, 1)
    } else if k == 4 {
        ("object"@, "id"@, "id"@, 1)
    } else if k == 5 {
        ("object"@, "borrow_id"@, "borrow_id"@, 1)
    } else if k == 6 {
        ("object"@, "uid_to_inner"@, "uid_to_inner"@, 1)
    } else if k == 7 {
        ("object"@, "uid_as_inner"@, "uid_as_inner"@, 1)
    } else if k == 8 {
        ("coin"@, "value"@, "value"@, 1)
    } else if k == 9 {
        ("coin"@, "into_balance"@, "into_balance"@, 1)
    } else if k == 10 {
        ("coin"@, "destroy_zero"@, "destroy_zero"@, 1)
    } else if k == 11 {
        ("coin"@, "from_balance"@, "from_balance"@, 2)
    } else if k == 12 {
        ("coin"@, "split"@, "split"@, 3)
    } else if k == 13 {
        ("coin"@, "join"@, "join"@, 2)
    } else if k == 14 {
        ("balance"@, "value"@, "value"@, 1)
    } else if k == 15 {
        ("balance"@, "destroy_zero"@, "destroy_zero"@, 1)
    } else if k == 16 {
        ("balance"@, "split"@, "split"@, 2)
    } else if k == 17 {
        ("balance"@, "join"@, "join"@, 2)
    } else if k == 18 {
        ("option"@, "is_some"@, "is_some"@, 1)
    } else if k == 19 {
        ("option"@, "is_none"@, "is_none"@, 1)
    } else if k == 20 {
        ("option"@, "borrow"@, "borrow"@, 1)
    } else if k == 21 {
        ("option"@, "borrow_mut"@, "borrow_mut"@, 1)
    } else if k == 22 {
        ("option"@, "destroy_some"@, "destroy_some"@, 1)
    } else if k == 23 {
        ("option"@, "destroy_none"@, "destroy_none"@, 1)
    } else if k == 24 {
        ("option"@, "extract"@, "extract"@, 1)
    } else if k == 25 {
        ("option"@, "get_with_default"@, "get_with_default"@, 2)
    } else if k == 26 {
        ("option"@, "swap"@, "swap"@, 2)
    } else if k == 27 {
        ("option"@, "fill"@, "fill"@, 2)
    } else if k == 28 {
        ("option"@, "contains"@, "contains"@, 2)
    } else if k == 29 {
        ("string"@, "length"@, "length"@, 1)
    } else if k == 30 {
        ("string"@, "is_empty"@, "is_empty"@, 1)
    } else if k == 31 {
        ("string"@, "as_bytes"@, "as_bytes"@, 1)
    } else if k == 32 {
        ("string"@, "into_bytes"@, "into_bytes"@, 1)
    } else if k == 33 {
        ("string"@, "append"@, "append"@, 2)
    } else if k == 34 {
        ("string"@, "sub_string"@, "sub_string"@, 3)
    } else if k == 35 {
        ("ascii"@, "length"@, "length"@, 1)
    } else if k == 36 {
        ("ascii"@, "is_empty"@, "is_empty"@, 1)
    } else if k == 37 {
        ("ascii"@, "as_bytes"@, "as_bytes"@, 1)
    } else if k == 38 {
        ("ascii"@, "into_bytes"@, "into_bytes"@, 1)
    } else if k == 39 {
        ("table"@, "length"@, "length"@, 1)
    } else if k == 40 {
        ("table"@, "is_empty"@, "is_empty"@, 1)
    } else if k == 41 {
        ("table"@, "contains"@, "contains"@, 2)
    } else if k == 42 {
        ("table"@, "borrow"@, "borrow"@, 2)
    } else if k == 43 {
        ("table"@, "borrow_mut"@, "borrow_mut"@, 2)
    } else if k == 44 {
        ("table"@, "add"@, "add"@, 3)
    } else if k == 45 {
        ("table"@, "remove"@, "remove"@, 2)
    } else if k == 46 {
        ("vector"@, "is_empty"@, "is_empty"@, 1)
    } else if k == 47 {
        ("vector"@, "borrow"@, "borrow"@, 2)
    } else if k == 48 {
        ("vector"@, "borrow_mut"@, "borrow_mut"@, 2)
    } else if k == 49 {
        ("vector"@, "pop_back"@, "pop_back"@, 1)
    } else if k == 50 {
        ("vector"@, "swap_remove"@, "swap_remove"@, 2)
    } else if k == 51 {
        ("vector"@, "contains"@, "contains"@, 2)
    } else if k == 52 {
        ("transfer"@, "transfer"@, "transfer"@, 2)
    } else if k == 53 {
        ("transfer"@, "public_transfer"@, "public_transfer"@, 2)
    } else if k == 54 {
        ("transfer"@, "share_object"@, "share_object"@, 1)
    } else if k == 55 {
        ("transfer"@, "public_share_object"@, "public_share_object"@, 1)
    } else if k == 56 {
        ("transfer"@, "freeze_object"@, "freeze_object"@, 1)
    } else if k == 57 {
        ("transfer"@, "public_freeze_object"@, "public_freeze_object"@, 1)
    } else if k == 58 {
        ("event"@, "emit"@, "emit"@, 1)
    } else if k == 59 {
        ("bcs"@, "to_bytes"@, "to_bytes"@, 1)
    } else {
        (Seq::empty(), Seq::empty(), Seq::empty(), 0)
    }
}

/// Rewrite `k` of the allowlist.
fn known_method_transform(k: usize) -> (r: (&'static str, &'static str, &'static str, usize))
    requires
        k < 60,
    ensures
        (r.0@, r.1@, r.2@, r.3 as int) == method_transform(k as int),
{
    match k {
        0 => ("tx_context", "sender", "sender", 1),
        1 => ("tx_context", "epoch", "epoch", 1),
        2 => ("tx_context", "epoch_timestamp_ms", "epoch_timestamp_ms", 1),
        3 => ("object", "delete", "delete", 1),
        4 => ("object", "id", "id", 1),
        5 => ("object", "borrow_id", "borrow_id", 1),
        6 => ("object", "uid_to_inner", "uid_to_inner", 1),
        7 => ("object", "uid_as_inner", "uid_as_inner", 1),
        8 => ("coin", "value", "value", 1),
        9 => ("coin", "into_balance", "into_balance", 1),
        10 => ("coin", "destroy_zero", "destroy_zero", 1),
        11 => ("coin", "from_balance", "from_balance", 2),
        12 => ("coin", "split", "split", 3),
        13 => ("coin", "join", "join", 2),
        14 => ("balance", "value", "value", 1),
        15 => ("balance", "destroy_zero", "destroy_zero", 1),
        16 => ("balance", "split", "split", 2),
        17 => ("balance", "join", "join", 2),
        18 => ("option", "is_some", "is_some", 1),
        19 => ("option", "is_none", "is_none", 1),
        20 => ("option", "borrow", "borrow", 1),
        21 => ("option", "borrow_mut", "borrow_mut", 1),
        22 => ("option", "destroy_some", "destroy_some", 1),
        23 => ("option", "destroy_none", "destroy_none", 1),
        24 => ("option", "extract", "extract", 1),
        25 => ("option", "get_with_default", "get_with_default", 2),
        26 => ("option", "swap", "swap", 2),
        27 => ("option", "fill", "fill", 2),
        28 => ("option", "contains", "contains", 2),
        29 => ("string", "length", "length", 1),
        30 => ("string", "is_empty", "is_empty", 1),
        31 => ("string", "as_bytes", "as_bytes", 1),
        32 => ("string", "into_bytes", "into_bytes", 1),
        33 => ("string", "append", "append", 2),
        34 => ("string", "sub_string", "sub_string", 3),
        35 => ("ascii", "length", "length", 1),
        36 => ("ascii", "is_empty", "is_empty", 1),
        37 => ("ascii", "as_bytes", "as_bytes", 1),
        38 => ("ascii", "into_bytes", "into_bytes", 1),
        39 => ("table", "length", "length", 1),
        40 => ("table", "is_empty", "is_empty", 1),
        41 => ("table", "contains", "contains", 2),
        42 => ("table", "borrow", "borrow", 2),
        43 => ("table", "borrow_mut", "borrow_mut", 2),
        44 => ("table", "add", "add", 3),
        45 => ("table", "remove", "remove", 2),
        46 => ("vector", "is_empty", "is_empty", 1),
        47 => ("vector", "borrow", "borrow", 2),
        48 => ("vector", "borrow_mut", "borrow_mut", 2),
        49 => ("vector", "pop_back", "pop_back", 1),
        50 => ("vector", "swap_remove", "swap_remove", 2),
        51 => ("vector", "contains", "contains", 2),
        52 => ("transfer", "transfer", "transfer", 2),
        53 => ("transfer", "public_transfer", "public_transfer", 2),
        54 => ("transfer", "share_object", "share_object", 1),
        55 => ("transfer", "public_share_object", "public_share_object", 1),
        56 => ("transfer", "freeze_object", "freeze_object", 1),
        57 => ("transfer", "public_freeze_object", "public_freeze_object", 1),
        58 => ("event", "emit", "emit", 1),
        59 => ("bcs", "to_bytes", "to_bytes", 1),
        _ => ("", "", "", 0),
    }
}

/// The receiver of a rewritten call: trimmed, without a leading `&mut ` or `&`.
pub open spec fn clean_receiver(arg: Seq<char>) -> Seq<char> {
    let r = trim(arg);
    trim(
        if "&mut "@.is_prefix_of(r) {
            r.skip("&mut "@.len() as int)
        } else if "&"@.is_prefix_of(r) {
            r.skip("&"@.len() as int)
        } else {
            r
        },
    )
}

/// The first rewrite at or after `k` that applies to `callee(args_str)`:
/// its index, the arguments, and the receiver.
pub open spec fn method_rewrite_from(callee: Seq<char>, args_str: Seq<char>, k: int) -> Option<(int, Seq<Seq<char>>, Seq<char>)>
    decreases method_transform_count() - k,
{
    if k < 0 || k >= method_transform_count() {
        None
    } else {
        let t = method_transform(k);
        if callee != t.0 + "::"@ + t.1 {
            method_rewrite_from(callee, args_str, k + 1)
        } else {
            match args_of(args_str) {
                None => method_rewrite_from(callee, args_str, k + 1),
                Some(args) => if args.len() != t.3 || !simple_ident(clean_receiver(args[0])) {
                    method_rewrite_from(callee, args_str, k + 1)
                } else {
                    Some((k, args, clean_receiver(args[0])))
                },
            }
        }
    }
}

/// What `modern_method_syntax` reports at node `i`.
pub open spec fn modern_method_syntax_finding(ns: Seq<NodeView>, src: Seq<char>, i: int) -> Option<DiagView> {
    if !(0 <= i < ns.len()) || ns[i].kind != "call_expression"@ {
        None
    } else {
        match call_parts(trim(node_text(ns, src, i))) {
            None => None,
            Some((callee, args_str)) => match method_rewrite_from(remove_ws(callee), args_str, 0) {
                None => None,
                Some((k, args, recv)) => {
                    let method = method_transform(k).2;
                    Some(
                        node_diag(
                            modern_method_syntax_descriptor(),
                            ns[i],
                            "Prefer method syntax: `"@ + recv + "."@ + method + "(...)`"@,
                            Some("Use method call syntax for cleaner code"@),
                            Some(method_suggestion(method_call_text(recv, method, args.skip(1)))),
                        ),
                    )
                },
            },
        }
    }
}

/// Prefer Move 2024 method call syntax for common allowlisted functions.
pub struct ModernMethodSyntaxLint;

impl ModernMethodSyntaxLint {
    pub fn descriptor(&self) -> (r: LintDescriptor)
        ensures
            r == modern_method_syntax_descriptor(),
    {
        LintDescriptor {
            name: "modern_method_syntax",
            category: LintCategory::Modernization,
            description: "Prefer Move 2024 method call syntax for common allowlisted functions",
            group: RuleGroup::Stable,
            fix: FixDescriptor { available: true, safety: FixSafety::Safe, description: "Convert to method syntax" },
            analysis: AnalysisKind::Syntactic,
            gap: None,
        }
    }

    /// The receiver of a rewritten call.
    fn clean_receiver_exec<'a>(arg: &'a str) -> (r: &'a str)
        ensures
            r@ == clean_receiver(arg@),
    {
        let receiver = trim_str(arg);
        let stripped = match strip_prefix(receiver, "&mut ") {
            Some(x) => x,
            None => match strip_prefix(receiver, "&") {
                Some(x) => x,
                None => receiver,
            },
        };
        trim_str(stripped)
    }

    /// The report at node `i`, if any.
    pub fn finding(&self, tree: &SyntaxTree, source: &SourceText, i: usize) -> (r: Option<Diagnostic>)
        requires
            i < tree@.len(),
        ensures
            opt_diag_view(r) == modern_method_syntax_finding(tree@, source@, i as int),
    {
        if !tree.is_kind(i, "call_expression") {
            return None;
        }
        let full = tree.text(source, i);
        let text = trim_str(full.as_str());
        let (callee0, args_str) = match split_call(text) {
            Some(p) => p,
            None => {
                return None;
            },
        };
        let callee = compact_ws(callee0);
        let ghost c = callee@;
        let mut k: usize = 0;
        while k < 60
            invariant
                k <= 60,
                c == callee@,
                i < tree@.len(),
                tree@[i as int].kind == "call_expression"@,
                call_parts(trim(node_text(tree@, source@, i as int))) == Some((callee0@, args_str@)),
                c == remove_ws(callee0@),
                method_rewrite_from(c, args_str@, 0) == method_rewrite_from(c, args_str@, k as int),
            decreases 60 - k,
        {
            let (module, func, method, expected) = known_method_transform(k);
            let pattern = concat(concat(module, "::").as_str(), func);
            if !str_eq(callee.as_str(), pattern.as_str()) {
                k = k + 1;
                continue;
            }
            let args = match split_args(args_str) {
                Some(a) => a,
                None => {
                    k = k + 1;
                    continue;
                },
            };
            if args.len() != expected || args.len() == 0 {
                k = k + 1;
                continue;
            }
            let recv = Self::clean_receiver_exec(args[0]);
            if !is_simple_ident(recv) {
                k = k + 1;
                continue;
            }
            let mut rest: Vec<&str> = Vec::new();
            let mut j: usize = 1;
            while j < args.len()
                invariant
                    1 <= j <= args@.len(),
                    str_views(rest@) == str_views(args@).subrange(1, j as int),
                decreases args.len() - j,
            {
                let ghost b = str_views(rest@);
                rest.push(args[j]);
                assert(str_views(rest@) =~= b.push(str_views(args@)[j as int]));
                assert(str_views(args@).subrange(1, j + 1) =~= str_views(args@).subrange(1, j as int).push(str_views(args@)[j as int]));
                j = j + 1;
            }
            assert(str_views(args@).subrange(1, args@.len() as int) =~= str_views(args@).skip(1));
            let repl = generate_method_call_fix(recv, method, rest);
            let message = concat(concat(concat(concat("Prefer method syntax: `", recv).as_str(), ".").as_str(), method).as_str(), "(...)`");
            assert(message@ =~= "Prefer method syntax: `"@ + recv@ + "."@ + method@ + "(...)`"@);
            return Some(
                make_diagnostic(
                    self.descriptor(),
                    tree.span(i),
                    message,
                    Some(to_owned_string("Use method call syntax for cleaner code")),
                    Some(method_suggestion_exec(repl)),
                ),
            );
        }
        None
    }

    /// Reports every call of an allowlisted function whose receiver is a simple name.
    pub fn check(&self, tree: &SyntaxTree, source: &SourceText, ctx: &mut LintContext)
        ensures
            final(ctx)@ == findings_reported(
                old(ctx)@,
                tree@,
                |i: int| modern_method_syntax_finding(tree@, source@, i),
                tree@.len() as int,
            ),
    {
        let mut i: usize = 0;
        while i < tree.len()
            invariant
                i <= tree@.len(),
                ctx@ == findings_reported(
                    old(ctx)@,
                    tree@,
                    |i: int| modern_method_syntax_finding(tree@, source@, i),
                    i as int,
                ),
            decreases tree@.len() - i,
        {
            match self.finding(tree, source, i) {
                Some(d) => {
                    ctx.report_diagnostic_for_node(tree, i, d);
                },
                None => {},
            }
            i = i + 1;
        }
    }
}


// ---------------------------------------------------------------------------
// equality_in_assert
// ---------------------------------------------------------------------------
pub open spec fn equality_in_assert_descriptor() -> LintDescriptor {
    LintDescriptor {
        name: "equality_in_assert",
        category: LintCategory::Style,
        description: "Prefer `assert_eq!(a, b)` over `assert!(a == b)` for clearer failure messages",
        group: RuleGroup::Stable,
        fix: FixDescriptor {
            available: true,
            safety: FixSafety::Safe,
            description: "Replace `assert!(a == b)` with `assert_eq!(a, b)`",
        },
        analysis: AnalysisKind::Syntactic,
        gap: None,
    }
}

/// The first `,` at depth 0 from `i` on, where closing brackets may take the depth below 0.
pub open spec fn signed_top_comma(s: Seq<char>, i: int, d: int) -> Option<int>
    decreases s.len() - i,
{
    if i < 0 || i >= s.len() {
        None
    } else if s[i] == '(' || s[i] == '[' || s[i] == '{' {
        signed_top_comma(s, i + 1, d + 1)
    } else if s[i] == ')' || s[i] == ']' || s[i] == '}' {
        signed_top_comma(s, i + 1, d - 1)
    } else if s[i] == ',' && d == 0 {
        Some(i)
    } else {
        signed_top_comma(s, i + 1, d)
    }
}

proof fn lemma_signed_top_comma_bound(s: Seq<char>, i: int, d: int)
    ensures
        signed_top_comma(s, i, d) matches Some(k) ==> i <= k < s.len(),
    decreases s.len() - i,
{
    if 0 <= i < s.len() {
        lemma_signed_top_comma_bound(s, i + 1, d + 1);
        lemma_signed_top_comma_bound(s, i + 1, d - 1);
        lemma_signed_top_comma_bound(s, i + 1, d);
    }
}

/// What `generate_assert_eq_fix` returns for `assert!(left == right, rest)`.
pub open spec fn assert_eq_fix(text: Seq<char>, cond: Seq<char>) -> Option<SuggestionView> {
    match find(cond, "=="@) {
        None => None,
        Some(p) => if find_from(cond, "=="@, p + 2) is Some {
            None
        } else {
            let left = trim(cond.take(p));
            let right = trim(cond.skip(p + 2));
            match find(text, "assert!"@) {
                None => None,
                Some(q) => {
                    let rest = trim_start(text.skip(q + 7));
                    match find(rest, "("@) {
                        None => None,
                        Some(o) => match rfind(rest, ")"@) {
                            None => None,
                            Some(c) => if o + 1 > c {
                                None
                            } else {
                                let full = rest.subrange(o + 1, c);
                                let err = match signed_top_comma(full, 0, 0) {
                                    Some(k) => ", "@ + trim(full.skip(k + 1)),
                                    None => Seq::empty(),
                                };
                                Some(
                                    SuggestionView {
                                        message: "Replace with assert_eq!"@,
                                        replacement: "assert_eq!("@ + left + ", "@ + right + err + ")"@,
                                        applicability: Applicability::MachineApplicable,
                                    },
                                )
                            },
                        },
                    }
                },
            }
        },
    }
}

/// The index of the first top-level `,` of `v[a..b]` (signed depth).
fn signed_top_comma_range(v: &Vec<char>, a: usize, b: usize) -> (r: Option<usize>)
    requires
        a <= b <= v.len(),
    ensures
        match signed_top_comma(v@.subrange(a as int, b as int), 0, 0) {
            Some(c) => r == Some((a + c) as usize),
            None => r is None,
        },
{
    let ghost s = v@.subrange(a as int, b as int);
    let mut depth: i128 = 0;
    let mut i = a;
    while i < b
        invariant
            a <= i <= b <= v.len(),
            s == v@.subrange(a as int, b as int),
            -(i - a) <= depth <= i - a,
            signed_top_comma(s, 0, 0) == signed_top_comma(s, i - a, depth as int),
        decreases b - i,
    {
        let c = v[i];
        assert(s[i - a] == c);
        if c == '(' || c == '[' || c == '{' {
            depth = depth + 1;
        } else if c == ')' || c == ']' || c == '}' {
            depth = depth - 1;
        } else if c == ',' && depth == 0 {
            return Some(i);
        }
        i = i + 1;
    }
    None
}

/// The `assert_eq!` form of `assert!(a == b, ...)`.
pub fn generate_assert_eq_fix(assert_text: &str, condition: &str) -> (r: Option<Suggestion>)
    ensures
        opt_suggestion_view(r) == assert_eq_fix(assert_text@, condition@),
{
    let cv = chars_of(condition);
    let eq = chars_of("==");
    proof {
        reveal_strlit("==");
        reveal_strlit("assert!");
        reveal_strlit("(");
        reveal_strlit(")");
        assert("=="@.len() == 2);
        assert("assert!"@.len() == 7);
        assert("("@.len() == 1);
        assert(")"@.len() == 1);
    }
    let p = match v_find_from(&cv, &eq, 0) {
        Some(p) => p,
        None => {
            return None;
        },
    };
    proof {
        crate::text::lemma_find_from_some(cv@, "=="@, 0);
        assert(crate::text::matches_at(cv@, "=="@, p as int));
        assert(p + 2 <= cv@.len());
    }
    let cn = cv.len();
    let after_eq: usize = p + 2;
    if v_find_from(&cv, &eq, after_eq).is_some() {
        return None;
    }
    let left = trim_str(condition.substring_char(0, p));
    let right = trim_str(condition.substring_char(p + 2, cv.len()));
    assert(cv@.take(p as int) =~= cv@.subrange(0, p as int));
    assert(cv@.skip(p + 2) =~= cv@.subrange(p + 2, cv@.len() as int));
    let v = chars_of(assert_text);
    let vn = v.len();
    let ap = chars_of("assert!");
    let q = match v_find_from(&v, &ap, 0) {
        Some(q) => q,
        None => {
            return None;
        },
    };
    proof {
        crate::text::lemma_find_from_some(v@, "assert!"@, 0);
        assert(crate::text::matches_at(v@, "assert!"@, q as int));
        assert(q + 7 <= v@.len());
    }
    let a = crate::text::skip_ws_forward(&v, q + 7, v.len());
    let ghost rest = v@.subrange(a as int, v.len() as int);
    proof {
        let u = v@.skip(q + 7);
        assert forall|j: int| 0 <= j < a - (q + 7) implies crate::text::is_ws(#[trigger] u[j]) by {
            assert(u[j] == v@[q + 7 + j]);
        }
        if a < v.len() {
            assert(u[a - (q + 7)] == v@[a as int]);
        }
        crate::text::lemma_lead_ws(u, a - (q + 7));
        assert(trim_start(u) =~= rest);
    }
    let sub = crate::rules::patterns::slice_vec(&v, a, v.len());
    let lp = chars_of("(");
    let rp = chars_of(")");
    let o = match v_find_from(&sub, &lp, 0) {
        Some(o) => o,
        None => {
            return None;
        },
    };
    proof {
        crate::text::lemma_find_from_some(rest, "("@, 0);
    }
    if sub.len() == 0 {
        return None;
    }
    let c = match crate::text::v_rfind_from(&sub, &rp, sub.len() - 1) {
        Some(c) => c,
        None => {
            return None;
        },
    };
    proof {
        crate::text::lemma_rfind_from(rest, ")"@, rest.len() - 1);
    }
    if o + 1 > c {
        return None;
    }
    let ghost full = rest.subrange(o + 1, c as int);
    assert(full =~= v@.subrange(a + o + 1, a + c));
    let err = match signed_top_comma_range(&v, a + o + 1, a + c) {
        Some(k) => {
            proof {
                lemma_signed_top_comma_bound(full, 0, 0);
            }
            let tail = trim_str(assert_text.substring_char(k + 1, a + c));
            assert(full.skip(k - (a + o + 1) + 1) =~= v@.subrange(k + 1, a + c));
            concat(", ", tail)
        },
        None => String::new(),
    };
    let mut replacement = String::new();
    push_str(&mut replacement, "assert_eq!(");
    push_str(&mut replacement, left);
    push_str(&mut replacement, ", ");
    push_str(&mut replacement, right);
    push_str(&mut replacement, err.as_str());
    push_str(&mut replacement, ")");
    let ghost ev = err@;
    assert(replacement@ =~= "assert_eq!("@ + left@ + ", "@ + right@ + ev + ")"@);
    Some(
        Suggestion {
            message: to_owned_string("Replace with assert_eq!"),
            replacement,
            applicability: Applicability::MachineApplicable,
        },
    )
}

/// What `equality_in_assert` reports at node `i`.
pub open spec fn equality_in_assert_finding(ns: Seq<NodeView>, src: Seq<char>, i: int) -> Option<DiagView> {
    if !(0 <= i < ns.len()) || ns[i].kind != "macro_call_expression"@ {
        None
    } else {
        let text = trim(node_text(ns, src, i));
        if !"assert!"@.is_prefix_of(text) || "assert_eq!"@.is_prefix_of(text) || "assert_ne!"@.is_prefix_of(text) {
            None
        } else {
            match assert_condition(text) {
                None => None,
                Some(cond) => if simple_equality(cond) {
                    Some(
                        node_diag(
                            equality_in_assert_descriptor(),
                            ns[i],
                            "Prefer `assert_eq!(a, b)` for clearer failure messages"@,
                            Some("Use assert_eq! for better error messages"@),
                            assert_eq_fix(text, cond),
                        ),
                    )
                } else {
                    None
                },
            }
        }
    }
}

/// Prefer `assert_eq!(a, b)` over `assert!(a == b)`.
pub struct EqualityInAssertLint;

impl EqualityInAssertLint {
    pub fn descriptor(&self) -> (r: LintDescriptor)
        ensures
            r == equality_in_assert_descriptor(),
    {
        LintDescriptor {
            name: "equality_in_assert",
            category: LintCategory::Style,
            description: "Prefer `assert_eq!(a, b)` over `assert!(a == b)` for clearer failure messages",
            group: RuleGroup::Stable,
            fix: FixDescriptor {
                available: true,
                safety: FixSafety::Safe,
                description: "Replace `assert!(a == b)` with `assert_eq!(a, b)`",
            },
            analysis: AnalysisKind::Syntactic,
            gap: None,
        }
    }

    /// The report at node `i`, if any.
    pub fn finding(&self, tree: &SyntaxTree, source: &SourceText, i: usize) -> (r: Option<Diagnostic>)
        requires
            i < tree@.len(),
        ensures
            opt_diag_view(r) == equality_in_assert_finding(tree@, source@, i as int),
    {
        if !tree.is_kind(i, "macro_call_expression") {
            return None;
        }
        let full = tree.text(source, i);
        let text = trim_str(full.as_str());
        if !crate::text::starts_with(text, "assert!") || crate::text::starts_with(text, "assert_eq!")
            || crate::text::starts_with(text, "assert_ne!") {
            return None;
        }
        let cond = match extract_assert_condition(text) {
            Some(c) => c,
            None => {
                return None;
            },
        };
        if !is_simple_equality_comparison(cond) {
            return None;
        }
        let suggestion = generate_assert_eq_fix(text, cond);
        Some(
            make_diagnostic(
                self.descriptor(),
                tree.span(i),
                to_owned_string("Prefer `assert_eq!(a, b)` for clearer failure messages"),
                Some(to_owned_string("Use assert_eq! for better error messages")),
                suggestion,
            ),
        )
    }

    /// Reports every `assert!(a == b, ...)` over simple operands.
    pub fn check(&self, tree: &SyntaxTree, source: &SourceText, ctx: &mut LintContext)
        ensures
            final(ctx)@ == findings_reported(
                old(ctx)@,
                tree@,
                |i: int| equality_in_assert_finding(tree@, source@, i),
                tree@.len() as int,
            ),
    {
        let mut i: usize = 0;
        while i < tree.len()
            invariant
                i <= tree@.len(),
                ctx@ == findings_reported(
                    old(ctx)@,
                    tree@,
                    |i: int| equality_in_assert_finding(tree@, source@, i),
                    i as int,
                ),
            decreases tree@.len() - i,
        {
            match self.finding(tree, source, i) {
                Some(d) => {
                    ctx.report_diagnostic_for_node(tree, i, d);
                },
                None => {},
            }
            i = i + 1;
        }
    }
}


// ---------------------------------------------------------------------------
// modern_module_syntax
// ---------------------------------------------------------------------------
pub open spec fn modern_module_syntax_descriptor() -> LintDescriptor {
    LintDescriptor {
        name: "modern_module_syntax",
        category: LintCategory::Modernization,
        description: "Prefer Move 2024 module label syntax (module x::y;) over block form (module x::y { ... })",
        group: RuleGroup::Stable,
        fix: FixDescriptor {
            available: true,
            safety: FixSafety::Safe,
            description: "Convert to Move 2024 module label syntax",
        },
        analysis: AnalysisKind::Syntactic,
        gap: None,
    }
}

/// The first child of node `i`, from the `j`-th on, whose kind is `kind`.
pub open spec fn child_of_kind_from(ns: Seq<NodeView>, i: int, kind: Seq<char>, j: int) -> Option<int>
    decreases ns[i].children.len() - j,
{
    if j < 0 || j >= ns[i].children.len() {
        None
    } else if ns[ns[i].children[j] as int].kind == kind {
        Some(ns[i].children[j] as int)
    } else {
        child_of_kind_from(ns, i, kind, j + 1)
    }
}

/// The first line of `text` (empty when there is none).
pub open spec fn first_line(text: Seq<char>) -> Seq<char> {
    if crate::text::lines(text).len() > 0 {
        crate::text::lines(text)[0]
    } else {
        Seq::empty()
    }
}

/// The module header opens a block: a `{` comes before any `;`.
pub open spec fn legacy_header(header: Seq<char>) -> bool {
    match (find(header, "{"@), find(header, ";"@)) {
        (Some(b), Some(s)) => b < s,
        (Some(_), None) => true,
        _ => false,
    }
}

/// What `modern_module_syntax` reports at node `i`.
#[verifier::opaque]
pub open spec fn modern_module_syntax_finding(ns: Seq<NodeView>, src: Seq<char>, i: int) -> Option<DiagView> {
    if !(0 <= i < ns.len()) || ns[i].kind != "module_definition"@ {
        None
    } else if !legacy_header(first_line(node_text(ns, src, i))) {
        None
    } else {
        match child_of_kind_from(ns, i, "module_identity"@, 0) {
            Some(c) => {
                let path = trim(node_text(ns, src, c));
                let repl = "module "@ + path + ";"@;
                if scope_of(item_annotations(src, ns[i].start_byte as int)).0.contains(
                    modern_module_syntax_descriptor().name@,
                ) {
                    None
                } else {
                    Some(
                        node_diag(
                            modern_module_syntax_descriptor(),
                            ns[i],
                            "Use Move 2024 module label syntax: `module pkg::mod;`"@,
                            Some("Convert to label syntax"@),
                            Some(
                                SuggestionView {
                                    message: "Convert `module "@ + path + " { ... }` to `"@ + repl + "`"@,
                                    replacement: repl,
                                    applicability: Applicability::MachineApplicable,
                                },
                            ),
                        ),
                    )
                }
            },
            None => Some(
                node_diag(
                    modern_module_syntax_descriptor(),
                    ns[i],
                    "Use Move 2024 module label syntax: `module pkg::mod;`"@,
                    None,
                    None,
                ),
            ),
        }
    }
}

/// The first child of node `i` of kind `kind`.
pub fn child_of_kind(tree: &SyntaxTree, i: usize, kind: &str) -> (r: Option<usize>)
    requires
        i < tree@.len(),
    ensures
        match r {
            Some(c) => child_of_kind_from(tree@, i as int, kind@, 0) == Some(c as int),
            None => child_of_kind_from(tree@, i as int, kind@, 0) is None,
        },
        r matches Some(c) ==> i < c < tree@.len(),
{
    let cs = tree.children(i);
    let mut j: usize = 0;
    while j < cs.len()
        invariant
            i < tree@.len(),
            cs@ == tree@[i as int].children,
            forall|t: int| 0 <= t < cs@.len() ==> i < #[trigger] cs@[t] < tree@.len(),
            j <= cs@.len(),
            child_of_kind_from(tree@, i as int, kind@, 0) == child_of_kind_from(tree@, i as int, kind@, j as int),
        decreases cs.len() - j,
    {
        let c = cs[j];
        if tree.is_kind(c, kind) {
            return Some(c);
        }
        j = j + 1;
    }
    None
}

/// Whether the first line of `text` opens a block.
fn is_legacy_header(text: &str) -> (r: bool)
    ensures
        r == legacy_header(first_line(text@)),
{
    let v = chars_of(text);
    let spans = crate::text::line_spans(&v);
    let header = if spans.len() > 0 {
        let (a, b) = spans[0];
        crate::rules::patterns::slice_vec(&v, a, b)
    } else {
        Vec::new()
    };
    assert(header@ == first_line(text@));
    let lb = chars_of("{");
    let sc = chars_of(";");
    let brace = v_find_from(&header, &lb, 0);
    let semi = v_find_from(&header, &sc, 0);
    match (brace, semi) {
        (Some(b), Some(s)) => b < s,
        (Some(_), None) => true,
        _ => false,
    }
}

/// The lint is allowed by the directives of the item that starts at `start`.
pub fn suppressed_at(source: &SourceText, start: usize, name: &str) -> (r: bool)
    ensures
        r == scope_of(item_annotations(source@, start as int)).0.contains(name@),
{
    let full = source.full_text();
    let scope = item_scope(full.as_str(), start);
    scope.is_suppressed(name)
}

/// Prefer Move 2024 module label syntax over the block form.
pub struct ModernModuleSyntaxLint;

impl ModernModuleSyntaxLint {
    pub fn descriptor(&self) -> (r: LintDescriptor)
        ensures
            r == modern_module_syntax_descriptor(),
    {
        LintDescriptor {
            name: "modern_module_syntax",
            category: LintCategory::Modernization,
            description: "Prefer Move 2024 module label syntax (module x::y;) over block form (module x::y { ... })",
            group: RuleGroup::Stable,
            fix: FixDescriptor {
                available: true,
                safety: FixSafety::Safe,
                description: "Convert to Move 2024 module label syntax",
            },
            analysis: AnalysisKind::Syntactic,
            gap: None,
        }
    }

    /// The report at node `i`, if any.
    pub fn finding(&self, tree: &SyntaxTree, source: &SourceText, i: usize) -> (r: Option<Diagnostic>)
        requires
            i < tree@.len(),
        ensures
            opt_diag_view(r) == modern_module_syntax_finding(tree@, source@, i as int),
    {
        proof {
            reveal(modern_module_syntax_finding);
        }
        if !tree.is_kind(i, "module_definition") {
            return None;
        }
        let text = tree.text(source, i);
        if !is_legacy_header(text.as_str()) {
            return None;
        }
        let lint = self.descriptor();
        match child_of_kind(tree, i, "module_identity") {
            Some(c) => {
                let id_text = tree.text(source, c);
                let path = trim_str(id_text.as_str());
                let mut repl = String::new();
                push_str(&mut repl, "module ");
                push_str(&mut repl, path);
                push_str(&mut repl, ";");
                assert(repl@ =~= "module "@ + path@ + ";"@);
                let mut msg = String::new();
                push_str(&mut msg, "Convert `module ");
                push_str(&mut msg, path);
                push_str(&mut msg, " { ... }` to `");
                push_str(&mut msg, repl.as_str());
                push_str(&mut msg, "`");
                assert(msg@ =~= "Convert `module "@ + path@ + " { ... }` to `"@ + repl@ + "`"@);
                if suppressed_at(source, tree.start_byte(i), lint.name) {
                    return None;
                }
                Some(
                    make_diagnostic(
                        lint,
                        tree.span(i),
                        to_owned_string("Use Move 2024 module label syntax: `module pkg::mod;`"),
                        Some(to_owned_string("Convert to label syntax")),
                        Some(Suggestion { message: msg, replacement: repl, applicability: Applicability::MachineApplicable }),
                    ),
                )
            },
            None => Some(
                make_diagnostic(
                    lint,
                    tree.span(i),
                    to_owned_string("Use Move 2024 module label syntax: `module pkg::mod;`"),
                    None,
                    None,
                ),
            ),
        }
    }

    /// Reports every module written in the block form.
    pub fn check(&self, tree: &SyntaxTree, source: &SourceText, ctx: &mut LintContext)
        ensures
            final(ctx)@ == findings_reported(
                old(ctx)@,
                tree@,
                |i: int| modern_module_syntax_finding(tree@, source@, i),
                tree@.len() as int,
            ),
    {
        let mut i: usize = 0;
        while i < tree.len()
            invariant
                i <= tree@.len(),
                ctx@ == findings_reported(
                    old(ctx)@,
                    tree@,
                    |i: int| modern_module_syntax_finding(tree@, source@, i),
                    i as int,
                ),
            decreases tree@.len() - i,
        {
            match self.finding(tree, source, i) {
                Some(d) => {
                    ctx.report_diagnostic_for_node(tree, i, d);
                },
                None => {},
            }
            i = i + 1;
        }
    }
}

// ---------------------------------------------------------------------------
// manual_option_check
// ---------------------------------------------------------------------------
pub open spec fn manual_option_check_descriptor() -> LintDescriptor {
    LintDescriptor {
        name: "manual_option_check",
        category: LintCategory::Modernization,
        description: "Prefer option macros (`do!`, `destroy_or!`) over manual `is_some()` + `destroy_some()` patterns",
        group: RuleGroup::Stable,
        fix: FixDescriptor { available: true, safety: FixSafety::Unsafe, description: "Replace with do! macro" },
        analysis: AnalysisKind::Syntactic,
        gap: None,
    }
}

/// The name bound by `let NAME = ...` in a trimmed line, or `default`.
pub open spec fn let_binding(t: Seq<char>, default: Seq<char>) -> Seq<char> {
    match find(t, "let "@) {
        Some(lp) => {
            let after = t.skip(lp + 4);
            match find(after, "="@) {
                Some(eq) => trim(after.take(eq)),
                None => default,
            }
        },
        None => default,
    }
}

/// The scan of the first `k` lines of an `if` body: whether a line held
/// `pat`, the binding such a line names (`value` when none does), and the
/// lines without `pat`.
pub open spec fn option_body_scan(ls: Seq<Seq<char>>, pat: Seq<char>, k: int) -> (bool, Seq<char>, Seq<Seq<char>>)
    decreases k,
{
    if k <= 0 || k > ls.len() {
        (false, "value"@, Seq::empty())
    } else {
        let (found, binding, kept) = option_body_scan(ls, pat, k - 1);
        let t = trim(ls[k - 1]);
        if contains(t, pat) {
            (true, let_binding(t, binding), kept)
        } else {
            (found, binding, kept.push(ls[k - 1]))
        }
    }
}

/// A block's statements: the trimmed text inside its outer braces (or the
/// whole text trimmed when it is not braced).
pub open spec fn unbraced(s: Seq<char>) -> Seq<char> {
    let nb = trim(s);
    if "{"@.is_prefix_of(nb) && "}"@.is_suffix_of(nb.skip(1)) {
        trim(nb.skip(1).drop_last())
    } else {
        nb
    }
}

/// The `var.do!(|binding| { ... })` rewrite of an `if var.is_some()` body.
pub open spec fn manual_option_fix(body: Seq<char>, var: Seq<char>) -> Option<SuggestionView> {
    let ls = lines(body);
    let (found, binding, kept) = option_body_scan(ls, var + ".destroy_some()"@, ls.len() as int);
    if !found {
        None
    } else {
        let inner = unbraced(join_with(kept, "\n"@));
        let repl = if inner.len() == 0 {
            var + ".do!(|"@ + binding + "| {})"@
        } else {
            var + ".do!(|"@ + binding + "| {\n"@ + inner + "\n})"@
        };
        Some(
            SuggestionView {
                message: "Replace with "@ + var + ".do! macro"@,
                replacement: repl,
                applicability: Applicability::MaybeIncorrect,
            },
        )
    }
}

/// A node kind that can be the condition of an `if`.
pub open spec fn is_condition_kind(k: Seq<char>) -> bool {
    ||| k == "dot_expression"@
    ||| k == "binary_expression"@
    ||| k == "call_expression"@
    ||| k == "name_expression"@
}

/// The first child of `i` from position `j` on whose kind can be a condition.
pub open spec fn condition_child_from(ns: Seq<NodeView>, i: int, j: int) -> Option<int>
    decreases ns[i].children.len() - j,
{
    if j < 0 || j >= ns[i].children.len() {
        None
    } else if is_condition_kind(ns[ns[i].children[j] as int].kind) {
        Some(ns[i].children[j] as int)
    } else {
        condition_child_from(ns, i, j + 1)
    }
}

/// What `manual_option_check` reports at node `i`.
pub open spec fn manual_option_check_finding(ns: Seq<NodeView>, src: Seq<char>, i: int) -> Option<DiagView> {
    if !(0 <= i < ns.len()) || ns[i].kind != "if_expression"@ {
        None
    } else {
        match (condition_child_from(ns, i, 0), child_of_kind_from(ns, i, "block"@, 0)) {
            (Some(c), Some(b)) => {
                let body = node_text(ns, src, b);
                match is_some_receiver(trim(node_text(ns, src, c))) {
                    Some(var) => if contains(body, var + ".destroy_some()"@) {
                        Some(
                            node_diag(
                                manual_option_check_descriptor(),
                                ns[i],
                                "Consider `"@ + var + ".do!(|v| ...)` instead of manual `is_some()` + `destroy_some()`"@,
                                Some("Use do! macro for cleaner option handling"@),
                                manual_option_fix(body, var),
                            ),
                        )
                    } else {
                        None
                    },
                    None => None,
                }
            },
            _ => None,
        }
    }
}

/// The binding a trimmed line names with `let NAME = ...`, or `default`.
fn let_binding_of(t: &str, default: String) -> (r: String)
    ensures
        r@ == let_binding(t@, default@),
{
    proof {
        reveal_strlit("let ");
        reveal_strlit("=");
        assert("let "@.len() == 4);
        assert("="@.len() == 1);
        crate::text::lemma_find_from_some(t@, "let "@, 0);
    }
    match crate::text::find_char_index(t, "let ") {
        None => default,
        Some(lp) => {
            let n = t.unicode_len();
            let after = t.substring_char(lp + 4, n);
            assert(after@ =~= t@.skip(lp + 4));
            proof {
                crate::text::lemma_find_from_some(after@, "="@, 0);
            }
            match crate::text::find_char_index(after, "=") {
                None => default,
                Some(eq) => to_owned_string(trim_str(after.substring_char(0, eq))),
            }
        },
    }
}

/// The statements of a block text with its outer braces removed.
fn unbraced_text(s: &str) -> (r: &str)
    ensures
        r@ == unbraced(s@),
{
    proof {
        reveal_strlit("{");
        reveal_strlit("}");
        assert("{"@.len() == 1);
        assert("}"@.len() == 1);
    }
    let nb = trim_str(s);
    match strip_prefix(nb, "{") {
        Some(x) => match crate::text::strip_suffix(x, "}") {
            Some(y) => trim_str(y),
            None => nb,
        },
        None => nb,
    }
}

/// The `do!` rewrite of an `if var.is_some() { ... }` body.
pub fn generate_manual_option_fix(body_text: &str, var_name: &str) -> (r: Option<Suggestion>)
    ensures
        opt_suggestion_view(r) == manual_option_fix(body_text@, var_name@),
{
    let pat = concat(var_name, ".destroy_some()");
    let v = chars_of(body_text);
    let spans = crate::text::line_spans(&v);
    let ghost ls = lines(v@);
    let mut found = false;
    let mut binding = to_owned_string("value");
    let mut kept: Vec<(usize, usize)> = Vec::new();
    let mut k: usize = 0;
    while k < spans.len()
        invariant
            v@ == body_text@,
            ls == lines(v@),
            pat@ == var_name@ + ".destroy_some()"@,
            spans@.len() == ls.len(),
            forall|i: int|
                #![trigger spans@[i]]
                0 <= i < spans@.len() ==> (spans@[i].0 <= spans@[i].1 && spans@[i].1 <= v@.len() && ls[i]
                    == v@.subrange(spans@[i].0 as int, spans@[i].1 as int)),
            k <= spans@.len(),
            forall|i: int| 0 <= i < kept@.len() ==> #[trigger] kept@[i].0 <= kept@[i].1 && kept@[i].1 <= v@.len(),
            option_body_scan(ls, pat@, k as int) == (found, binding@, span_pieces(v@, kept@)),
        decreases spans.len() - k,
    {
        let (a, b) = spans[k];
        let (x, y) = crate::text::trim_bounds(&v, a, b);
        let t = string_of(&v, x, y);
        assert(ls[k as int] == v@.subrange(a as int, b as int));
        if crate::text::str_contains(t.as_str(), pat.as_str()) {
            found = true;
            binding = let_binding_of(t.as_str(), binding);
        } else {
            let ghost old_kept = kept@;
            kept.push((a, b));
            assert(span_pieces(v@, kept@) =~= span_pieces(v@, old_kept).push(ls[k as int]));
        }
        k = k + 1;
    }
    if !found {
        return None;
    }
    let joined = crate::text::join_spans(&v, &kept, "\n");
    let inner = unbraced_text(joined.as_str());
    let mut repl = to_owned_string(var_name);
    push_str(&mut repl, ".do!(|");
    push_str(&mut repl, binding.as_str());
    if inner.unicode_len() == 0 {
        push_str(&mut repl, "| {})");
    } else {
        push_str(&mut repl, "| {\n");
        push_str(&mut repl, inner);
        push_str(&mut repl, "\n})");
    }
    let mut message = to_owned_string("Replace with ");
    push_str(&mut message, var_name);
    push_str(&mut message, ".do! macro");
    Some(Suggestion { message, replacement: repl, applicability: Applicability::MaybeIncorrect })
}

/// Prefer `do!` over `if x.is_some() { let v = x.destroy_some(); ... }`.
pub struct ManualOptionCheckLint;

impl ManualOptionCheckLint {
    pub fn descriptor(&self) -> (r: LintDescriptor)
        ensures
            r == manual_option_check_descriptor(),
    {
        LintDescriptor {
            name: "manual_option_check",
            category: LintCategory::Modernization,
            description: "Prefer option macros (`do!`, `destroy_or!`) over manual `is_some()` + `destroy_some()` patterns",
            group: RuleGroup::Stable,
            fix: FixDescriptor { available: true, safety: FixSafety::Unsafe, description: "Replace with do! macro" },
            analysis: AnalysisKind::Syntactic,
            gap: None,
        }
    }

    /// The first child of node `i` whose kind can be an `if` condition.
    fn condition_child(&self, tree: &SyntaxTree, i: usize) -> (r: Option<usize>)
        requires
            i < tree@.len(),
        ensures
            match r {
                Some(c) => condition_child_from(tree@, i as int, 0) == Some(c as int) && c < tree@.len(),
                None => condition_child_from(tree@, i as int, 0) is None,
            },
    {
        let cs = tree.children(i);
        let mut j: usize = 0;
        while j < cs.len()
            invariant
                i < tree@.len(),
                cs@ == tree@[i as int].children,
                forall|t: int| 0 <= t < cs@.len() ==> i < #[trigger] cs@[t] < tree@.len(),
                j <= cs@.len(),
                condition_child_from(tree@, i as int, 0) == condition_child_from(tree@, i as int, j as int),
            decreases cs.len() - j,
        {
            let c = cs[j];
            if tree.is_kind(c, "dot_expression") || tree.is_kind(c, "binary_expression") || tree.is_kind(c, "call_expression")
                || tree.is_kind(c, "name_expression") {
                return Some(c);
            }
            j = j + 1;
        }
        None
    }

    /// The diagnostic at node `i`, if any.
    pub fn finding(&self, tree: &SyntaxTree, source: &SourceText, i: usize) -> (r: Option<Diagnostic>)
        requires
            i < tree@.len(),
        ensures
            opt_diag_view(r) == manual_option_check_finding(tree@, source@, i as int),
    {
        if !tree.is_kind(i, "if_expression") {
            return None;
        }
        let c = match self.condition_child(tree, i) {
            Some(c) => c,
            None => {
                return None;
            },
        };
        let b = match child_of_kind(tree, i, "block") {
            Some(b) => b,
            None => {
                return None;
            },
        };
        let ctext = tree.text(source, c);
        let condition = trim_str(ctext.as_str());
        let body = tree.text(source, b);
        match extract_is_some_receiver(condition) {
            None => None,
            Some(var) => {
                let pat = concat(var, ".destroy_some()");
                if !crate::text::str_contains(body.as_str(), pat.as_str()) {
                    return None;
                }
                let suggestion = generate_manual_option_fix(body.as_str(), var);
                let mut message = to_owned_string("Consider `");
                push_str(&mut message, var);
                push_str(&mut message, ".do!(|v| ...)` instead of manual `is_some()` + `destroy_some()`");
                Some(
                    make_diagnostic(
                        self.descriptor(),
                        tree.span(i),
                        message,
                        Some(to_owned_string("Use do! macro for cleaner option handling")),
                        suggestion,
                    ),
                )
            },
        }
    }

    /// Reports `if x.is_some()` blocks that destroy `x` by hand.
    pub fn check(&self, tree: &SyntaxTree, source: &SourceText, ctx: &mut LintContext)
        ensures
            final(ctx)@ == findings_reported(
                old(ctx)@,
                tree@,
                |i: int| manual_option_check_finding(tree@, source@, i),
                tree@.len() as int,
            ),
    {
        let mut i: usize = 0;
        while i < tree.len()
            invariant
                i <= tree@.len(),
                ctx@ == findings_reported(
                    old(ctx)@,
                    tree@,
                    |i: int| manual_option_check_finding(tree@, source@, i),
                    i as int,
                ),
            decreases tree@.len() - i,
        {
            match self.finding(tree, source, i) {
                Some(d) => {
                    ctx.report_diagnostic_for_node(tree, i, d);
                },
                None => {},
            }
            i = i + 1;
        }
    }
}

// ---------------------------------------------------------------------------
// manual_loop_iteration
// ---------------------------------------------------------------------------
pub open spec fn manual_loop_iteration_descriptor() -> LintDescriptor {
    LintDescriptor {
        name: "manual_loop_iteration",
        category: LintCategory::Modernization,
        description: "Prefer loop macros (`do_ref!`, `fold!`) over manual while loops with index",
        group: RuleGroup::Stable,
        fix: FixDescriptor { available: true, safety: FixSafety::Unsafe, description: "Replace with do_ref! macro" },
        analysis: AnalysisKind::Syntactic,
        gap: None,
    }
}

/// The four spellings of `i = i + 1` the rule recognises.
pub open spec fn increment_patterns(iv: Seq<char>) -> Seq<Seq<char>> {
    seq![
        iv + " = "@ + iv + " + 1"@,
        iv + " = 1 + "@ + iv,
        iv + "="@ + iv + " + 1"@,
        iv + "="@ + iv + "+1"@,
    ]
}

/// `s` holds one of the increments of `iv`.
pub open spec fn has_increment(s: Seq<char>, iv: Seq<char>) -> bool {
    exists|k: int| 0 <= k < 4 && contains(s, #[trigger] increment_patterns(iv)[k])
}

/// `vec.borrow(i)`.
pub open spec fn borrow_pattern(vv: Seq<char>, iv: Seq<char>) -> Seq<char> {
    vv + ".borrow("@ + iv + ")"@
}

/// The scan of the first `k` lines of a loop body: the binding the borrow
/// line names (`elem` when none does) and the lines that are not increments.
pub open spec fn loop_body_scan(ls: Seq<Seq<char>>, iv: Seq<char>, borrow: Seq<char>, k: int) -> (Seq<char>, Seq<Seq<char>>)
    decreases k,
{
    if k <= 0 || k > ls.len() {
        ("elem"@, Seq::empty())
    } else {
        let (binding, kept) = loop_body_scan(ls, iv, borrow, k - 1);
        let t = trim(ls[k - 1]);
        if has_increment(t, iv) {
            (binding, kept)
        } else if contains(t, borrow) {
            (let_binding(t, binding), kept.push(ls[k - 1]))
        } else {
            (binding, kept.push(ls[k - 1]))
        }
    }
}

/// The lines of `ls` whose trimmed text does not hold `p`, among the first `k`.
pub open spec fn lines_without(ls: Seq<Seq<char>>, p: Seq<char>, k: int) -> Seq<Seq<char>>
    decreases k,
{
    if k <= 0 || k > ls.len() {
        Seq::empty()
    } else if contains(trim(ls[k - 1]), p) {
        lines_without(ls, p, k - 1)
    } else {
        lines_without(ls, p, k - 1).push(ls[k - 1])
    }
}

/// The `vec.do_ref!(|binding| { ... })` rewrite of a manual index loop body.
pub open spec fn manual_loop_fix(body: Seq<char>, iv: Seq<char>, vv: Seq<char>) -> SuggestionView {
    let borrow = borrow_pattern(vv, iv);
    let ls = lines(body);
    let (binding, kept) = loop_body_scan(ls, iv, borrow, ls.len() as int);
    let inner = unbraced(join_with(kept, "\n"@));
    let il = lines(inner);
    let fin = trim(join_with(lines_without(il, borrow, il.len() as int), "\n"@));
    let repl = if fin.len() == 0 {
        vv + ".do_ref!(|"@ + binding + "| {})"@
    } else {
        vv + ".do_ref!(|"@ + binding + "| {\n"@ + fin + "\n})"@
    };
    SuggestionView {
        message: "Replace with "@ + vv + ".do_ref! macro (note: manually remove `let mut "@ + iv + " = 0;` above)"@,
        replacement: repl,
        applicability: Applicability::MaybeIncorrect,
    }
}

/// The child of node `i` under field `a`, else under field `b`.
pub open spec fn field_or(ns: Seq<NodeView>, i: int, a: Seq<char>, b: Seq<char>) -> Option<usize> {
    match crate::syntax::field_child_from(ns, i, a, 0) {
        Some(c) => Some(c),
        None => crate::syntax::field_child_from(ns, i, b, 0),
    }
}

/// What `manual_loop_iteration` reports at node `i`.
pub open spec fn manual_loop_iteration_finding(ns: Seq<NodeView>, src: Seq<char>, i: int) -> Option<DiagView> {
    if !(0 <= i < ns.len()) || ns[i].kind != "while_expression"@ {
        None
    } else {
        match (field_or(ns, i, "condition"@, "eb"@), field_or(ns, i, "body"@, "e"@)) {
            (Some(c), Some(b)) => {
                let body = node_text(ns, src, b as int);
                match length_comparison(trim(node_text(ns, src, c as int))) {
                    Some((iv, vv)) => if has_increment(body, iv) && contains(body, borrow_pattern(vv, iv)) {
                        Some(
                            node_diag(
                                manual_loop_iteration_descriptor(),
                                ns[i],
                                "Consider `"@ + vv + ".do_ref!(|e| ...)` instead of manual while loop with index"@,
                                Some(
                                    "Use do_ref! macro for cleaner iteration. Note: You must manually remove `let mut "@ + iv
                                        + " = 0;` above this loop."@,
                                ),
                                Some(manual_loop_fix(body, iv, vv)),
                            ),
                        )
                    } else {
                        None
                    },
                    None => None,
                }
            },
            _ => None,
        }
    }
}

/// Whether `s` holds one of the increments of `iv`.
fn holds_increment(s: &str, iv: &str) -> (r: bool)
    ensures
        r == has_increment(s@, iv@),
{
    let mut p0 = to_owned_string(iv);
    push_str(&mut p0, " = ");
    push_str(&mut p0, iv);
    push_str(&mut p0, " + 1");
    let mut p1 = to_owned_string(iv);
    push_str(&mut p1, " = 1 + ");
    push_str(&mut p1, iv);
    let mut p2 = to_owned_string(iv);
    push_str(&mut p2, "=");
    push_str(&mut p2, iv);
    push_str(&mut p2, " + 1");
    let mut p3 = to_owned_string(iv);
    push_str(&mut p3, "=");
    push_str(&mut p3, iv);
    push_str(&mut p3, "+1");
    let ghost ps = increment_patterns(iv@);
    assert(p0@ == ps[0]);
    assert(p1@ == ps[1]);
    assert(p2@ == ps[2]);
    assert(p3@ == ps[3]);
    let r = crate::text::str_contains(s, p0.as_str()) || crate::text::str_contains(s, p1.as_str())
        || crate::text::str_contains(s, p2.as_str()) || crate::text::str_contains(s, p3.as_str());
    proof {
        if !r {
            assert forall|k: int| 0 <= k < 4 implies !contains(s@, #[trigger] increment_patterns(iv@)[k]) by {
                if k == 0 {
                } else if k == 1 {
                } else if k == 2 {
                } else {
                }
            }
        }
    }
    r
}

/// The `do_ref!` rewrite of a manual index loop body.
pub fn generate_manual_loop_fix(body_text: &str, iter_var: &str, vec_var: &str) -> (r: Option<Suggestion>)
    ensures
        opt_suggestion_view(r) == Some(manual_loop_fix(body_text@, iter_var@, vec_var@)),
{
    let mut borrow = to_owned_string(vec_var);
    push_str(&mut borrow, ".borrow(");
    push_str(&mut borrow, iter_var);
    push_str(&mut borrow, ")");
    let v = chars_of(body_text);
    let spans = crate::text::line_spans(&v);
    let ghost ls = lines(v@);
    let mut binding = to_owned_string("elem");
    let mut kept: Vec<(usize, usize)> = Vec::new();
    let mut k: usize = 0;
    while k < spans.len()
        invariant
            v@ == body_text@,
            ls == lines(v@),
            borrow@ == borrow_pattern(vec_var@, iter_var@),
            spans@.len() == ls.len(),
            forall|i: int|
                #![trigger spans@[i]]
                0 <= i < spans@.len() ==> (spans@[i].0 <= spans@[i].1 && spans@[i].1 <= v@.len() && ls[i]
                    == v@.subrange(spans@[i].0 as int, spans@[i].1 as int)),
            k <= spans@.len(),
            forall|i: int| 0 <= i < kept@.len() ==> #[trigger] kept@[i].0 <= kept@[i].1 && kept@[i].1 <= v@.len(),
            loop_body_scan(ls, iter_var@, borrow@, k as int) == (binding@, span_pieces(v@, kept@)),
        decreases spans.len() - k,
    {
        let (a, b) = spans[k];
        let (x, y) = crate::text::trim_bounds(&v, a, b);
        let t = string_of(&v, x, y);
        assert(ls[k as int] == v@.subrange(a as int, b as int));
        if !holds_increment(t.as_str(), iter_var) {
            if crate::text::str_contains(t.as_str(), borrow.as_str()) {
                binding = let_binding_of(t.as_str(), binding);
            }
            let ghost old_kept = kept@;
            kept.push((a, b));
            assert(span_pieces(v@, kept@) =~= span_pieces(v@, old_kept).push(ls[k as int]));
        }
        k = k + 1;
    }
    let joined = crate::text::join_spans(&v, &kept, "\n");
    let inner = unbraced_text(joined.as_str());
    let w = chars_of(inner);
    let ispans = crate::text::line_spans(&w);
    let ghost il = lines(w@);
    let mut rest: Vec<(usize, usize)> = Vec::new();
    let mut j: usize = 0;
    while j < ispans.len()
        invariant
            il == lines(w@),
            borrow@ == borrow_pattern(vec_var@, iter_var@),
            ispans@.len() == il.len(),
            forall|i: int|
                #![trigger ispans@[i]]
                0 <= i < ispans@.len() ==> (ispans@[i].0 <= ispans@[i].1 && ispans@[i].1 <= w@.len() && il[i]
                    == w@.subrange(ispans@[i].0 as int, ispans@[i].1 as int)),
            j <= ispans@.len(),
            forall|i: int| 0 <= i < rest@.len() ==> #[trigger] rest@[i].0 <= rest@[i].1 && rest@[i].1 <= w@.len(),
            lines_without(il, borrow@, j as int) == span_pieces(w@, rest@),
        decreases ispans.len() - j,
    {
        let (a, b) = ispans[j];
        let (x, y) = crate::text::trim_bounds(&w, a, b);
        let t = string_of(&w, x, y);
        assert(il[j as int] == w@.subrange(a as int, b as int));
        if !crate::text::str_contains(t.as_str(), borrow.as_str()) {
            let ghost old_rest = rest@;
            rest.push((a, b));
            assert(span_pieces(w@, rest@) =~= span_pieces(w@, old_rest).push(il[j as int]));
        }
        j = j + 1;
    }
    let fin_joined = crate::text::join_spans(&w, &rest, "\n");
    let fin = trim_str(fin_joined.as_str());
    let mut repl = to_owned_string(vec_var);
    push_str(&mut repl, ".do_ref!(|");
    push_str(&mut repl, binding.as_str());
    if fin.unicode_len() == 0 {
        push_str(&mut repl, "| {})");
    } else {
        push_str(&mut repl, "| {\n");
        push_str(&mut repl, fin);
        push_str(&mut repl, "\n})");
    }
    let mut message = to_owned_string("Replace with ");
    push_str(&mut message, vec_var);
    push_str(&mut message, ".do_ref! macro (note: manually remove `let mut ");
    push_str(&mut message, iter_var);
    push_str(&mut message, " = 0;` above)");
    Some(Suggestion { message, replacement: repl, applicability: Applicability::MaybeIncorrect })
}

/// Prefer `do_ref!` over a `while i < v.length()` loop that borrows `v[i]`.
pub struct ManualLoopIterationLint;

impl ManualLoopIterationLint {
    pub fn descriptor(&self) -> (r: LintDescriptor)
        ensures
            r == manual_loop_iteration_descriptor(),
    {
        LintDescriptor {
            name: "manual_loop_iteration",
            category: LintCategory::Modernization,
            description: "Prefer loop macros (`do_ref!`, `fold!`) over manual while loops with index",
            group: RuleGroup::Stable,
            fix: FixDescriptor { available: true, safety: FixSafety::Unsafe, description: "Replace with do_ref! macro" },
            analysis: AnalysisKind::Syntactic,
            gap: None,
        }
    }

    /// The child of node `i` under field `a`, else under field `b`.
    fn field_child_or(&self, tree: &SyntaxTree, i: usize, a: &str, b: &str) -> (r: Option<usize>)
        requires
            i < tree@.len(),
        ensures
            r == field_or(tree@, i as int, a@, b@),
            r matches Some(c) ==> c < tree@.len(),
    {
        match tree.child_by_field_name(i, a) {
            Some(c) => Some(c),
            None => tree.child_by_field_name(i, b),
        }
    }

    /// The diagnostic at node `i`, if any.
    pub fn finding(&self, tree: &SyntaxTree, source: &SourceText, i: usize) -> (r: Option<Diagnostic>)
        requires
            i < tree@.len(),
        ensures
            opt_diag_view(r) == manual_loop_iteration_finding(tree@, source@, i as int),
    {
        if !tree.is_kind(i, "while_expression") {
            return None;
        }
        let c = match self.field_child_or(tree, i, "condition", "eb") {
            Some(c) => c,
            None => {
                return None;
            },
        };
        let b = match self.field_child_or(tree, i, "body", "e") {
            Some(b) => b,
            None => {
                return None;
            },
        };
        let ctext = tree.text(source, c);
        let condition = trim_str(ctext.as_str());
        let body = tree.text(source, b);
        match parse_length_comparison(condition) {
            None => None,
            Some((iv, vv)) => {
                let mut borrow = to_owned_string(vv);
                push_str(&mut borrow, ".borrow(");
                push_str(&mut borrow, iv);
                push_str(&mut borrow, ")");
                if !(holds_increment(body.as_str(), iv) && crate::text::str_contains(body.as_str(), borrow.as_str())) {
                    return None;
                }
                let suggestion = generate_manual_loop_fix(body.as_str(), iv, vv);
                let mut message = to_owned_string("Consider `");
                push_str(&mut message, vv);
                push_str(&mut message, ".do_ref!(|e| ...)` instead of manual while loop with index");
                let mut help = to_owned_string("Use do_ref! macro for cleaner iteration. Note: You must manually remove `let mut ");
                push_str(&mut help, iv);
                push_str(&mut help, " = 0;` above this loop.");
                Some(make_diagnostic(self.descriptor(), tree.span(i), message, Some(help), suggestion))
            },
        }
    }

    /// Reports index loops that could use `do_ref!`.
    pub fn check(&self, tree: &SyntaxTree, source: &SourceText, ctx: &mut LintContext)
        ensures
            final(ctx)@ == findings_reported(
                old(ctx)@,
                tree@,
                |i: int| manual_loop_iteration_finding(tree@, source@, i),
                tree@.len() as int,
            ),
    {
        let mut i: usize = 0;
        while i < tree.len()
            invariant
                i <= tree@.len(),
                ctx@ == findings_reported(
                    old(ctx)@,
                    tree@,
                    |i: int| manual_loop_iteration_finding(tree@, source@, i),
                    i as int,
                ),
            decreases tree@.len() - i,
        {
            match self.finding(tree, source, i) {
                Some(d) => {
                    ctx.report_diagnostic_for_node(tree, i, d);
                },
                None => {},
            }
            i = i + 1;
        }
    }
}

} // verus!
