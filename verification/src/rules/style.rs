//! Style and naming lints.
use vstd::prelude::*;
use crate::annotations::{item_annotations, scope_of};
use crate::context::{effects_applied, Effect, findings_pushed, findings_pushed_seq, findings_reported_at, ContextView, LintContext};
use crate::diagnostics::{Applicability, DiagView, Diagnostic, Suggestion, SuggestionView};
use crate::fixer::{decimal, push_decimal};
use crate::level::LintLevel;
use crate::lint::{level_in, AnalysisKind, FixDescriptor, FixSafety, LintCategory, LintDescriptor, RuleGroup};
use crate::rules::modernization::{concat, make_diagnostic, node_diag, node_text, opt_diag_view, suppressed_at};
use crate::syntax::{field_child_from, first_named_from, last_named_before, sibling_index, span_of, NodeView, SourceText, SyntaxTree};
use crate::text::{
    contains, ends_with, find, lowercase, matches_at, rfind, v_rfind_from, chars_of, compact_ws, find_from, is_ascii_alnum, is_ascii_digit, is_ascii_lower,
    is_ascii_upper, str_contains, strip_prefix, line_spans, lines, push_str, remove_ws, starts_with, str_eq, to_owned_string, trim, trim_bounds, trim_str, v_find_from,
};

verus! {

/// A report of `lint` over node `n` with a message alone, anchored at `n`.
pub open spec fn plain_report(lint: LintDescriptor, ns: Seq<NodeView>, n: int, message: Seq<char>) -> (int, DiagView) {
    (n, node_diag(lint, ns[n], message, None, None))
}

// ---------------------------------------------------------------------------
// prefer_to_string
// ---------------------------------------------------------------------------
pub open spec fn prefer_to_string_descriptor() -> LintDescriptor {
    LintDescriptor {
        name: "prefer_to_string",
        category: LintCategory::Style,
        description: "Prefer b\"...\".to_string() over std::string::utf8(b\"...\") (import-only check)",
        group: RuleGroup::Stable,
        fix: FixDescriptor { available: false, safety: FixSafety::Safe, description: "" },
        analysis: AnalysisKind::Syntactic,
        gap: None,
    }
}

/// What `prefer_to_string` reports at node `i`.
pub open spec fn prefer_to_string_finding(ns: Seq<NodeView>, src: Seq<char>, i: int) -> Option<(int, DiagView)> {
    if !(0 <= i < ns.len()) || ns[i].kind != "use_declaration"@ {
        None
    } else {
        let c = remove_ws(node_text(ns, src, i));
        if c == "usestd::string::utf8;"@ || c == "usestd::string::{utf8};"@ {
            Some(
                plain_report(
                    prefer_to_string_descriptor(),
                    ns,
                    i,
                    "Prefer `b\"...\".to_string()` over `std::string::utf8(b\"...\")`"@,
                ),
            )
        } else {
            None
        }
    }
}

/// Prefer `b"...".to_string()` over importing `std::string::utf8`.
pub struct PreferToStringLint;

impl PreferToStringLint {
    pub fn descriptor(&self) -> (r: LintDescriptor)
        ensures
            r == prefer_to_string_descriptor(),
    {
        LintDescriptor {
            name: "prefer_to_string",
            category: LintCategory::Style,
            description: "Prefer b\"...\".to_string() over std::string::utf8(b\"...\") (import-only check)",
            group: RuleGroup::Stable,
            fix: FixDescriptor { available: false, safety: FixSafety::Safe, description: "" },
            analysis: AnalysisKind::Syntactic,
            gap: None,
        }
    }

    /// Reports every exact `use std::string::utf8;` import.
    pub fn check(&self, tree: &SyntaxTree, source: &SourceText, ctx: &mut LintContext)
        ensures
            final(ctx)@ == findings_reported_at(
                old(ctx)@,
                tree@,
                |i: int| prefer_to_string_finding(tree@, source@, i),
                tree@.len() as int,
            ),
    {
        let mut i: usize = 0;
        while i < tree.len()
            invariant
                i <= tree@.len(),
                ctx@ == findings_reported_at(
                    old(ctx)@,
                    tree@,
                    |i: int| prefer_to_string_finding(tree@, source@, i),
                    i as int,
                ),
            decreases tree@.len() - i,
        {
            if tree.is_kind(i, "use_declaration") {
                let text = tree.text(source, i);
                let c = compact_ws(text.as_str());
                if str_eq(c.as_str(), "usestd::string::utf8;") || str_eq(c.as_str(), "usestd::string::{utf8};") {
                    let lint = self.descriptor();
                    ctx.report_node(
                        tree,
                        &lint,
                        i,
                        to_owned_string("Prefer `b\"...\".to_string()` over `std::string::utf8(b\"...\")`"),
                    );
                }
            }
            i = i + 1;
        }
    }
}

// ---------------------------------------------------------------------------
// explicit_self_assignments
// ---------------------------------------------------------------------------
pub open spec fn explicit_self_assignments_descriptor() -> LintDescriptor {
    LintDescriptor {
        name: "explicit_self_assignments",
        category: LintCategory::Style,
        description: "Use `..` to ignore multiple struct fields instead of explicit `: _` bindings",
        group: RuleGroup::Stable,
        fix: FixDescriptor { available: false, safety: FixSafety::Safe, description: "" },
        analysis: AnalysisKind::Syntactic,
        gap: None,
    }
}

/// Number of non-overlapping occurrences of `p` in `s` from `i` on.
pub open spec fn count_from(s: Seq<char>, p: Seq<char>, i: int) -> nat
    decreases s.len() + 1 - i,
    when p.len() > 0
{
    match find_from(s, p, i) {
        None => 0,
        Some(k) => {
            proof {
                crate::text::lemma_find_from_some(s, p, i);
            }
            if k >= i {
                1 + count_from(s, p, k + p.len())
            } else {
                0
            }
        },
    }
}

/// Number of `: _` field patterns (fields bound to `_`).
pub open spec fn ignored_fields(text: Seq<char>) -> nat {
    count_from(text, ": _"@, 0)
}

/// Counts the `: _` patterns of `text`.
pub fn count_ignored_fields(text: &str) -> (r: usize)
    ensures
        r == ignored_fields(text@),
{
    let v = chars_of(text);
    let p = chars_of(": _");
    proof {
        reveal_strlit(": _");
        assert(": _"@.len() == 3);
    }
    let mut count: usize = 0;
    let mut i: usize = 0;
    while i <= v.len()
        invariant
            v@ == text@,
            p@ == ": _"@,
            p@.len() == 3,
            count <= i,
            i <= v@.len() + 1,
            ignored_fields(text@) == count + count_from(v@, p@, i as int),
        decreases v.len() + 1 - i,
    {
        match v_find_from(&v, &p, i) {
            None => {
                return count;
            },
            Some(k) => {
                proof {
                    crate::text::lemma_find_from_some(v@, p@, i as int);
                }
                count = count + 1;
                i = k + 3;
            },
        }
    }
    count
}

/// What `explicit_self_assignments` reports at node `i`.
pub open spec fn explicit_self_assignments_finding(ns: Seq<NodeView>, src: Seq<char>, i: int) -> Option<(int, DiagView)> {
    if !(0 <= i < ns.len()) || !(ns[i].kind == "bind_unpack"@ || ns[i].kind == "unpack_expression"@
        || ns[i].kind == "bind_fields"@) {
        None
    } else {
        let text = node_text(ns, src, i);
        if crate::text::contains(text, ".."@) || ignored_fields(text) < 2 {
            None
        } else {
            Some(
                plain_report(
                    explicit_self_assignments_descriptor(),
                    ns,
                    i,
                    "Use `..` to ignore "@ + decimal(ignored_fields(text)) + " fields instead of explicit `: _` bindings"@,
                ),
            )
        }
    }
}

/// Prefer `..` over binding several fields to `_`.
pub struct ExplicitSelfAssignmentsLint;

impl ExplicitSelfAssignmentsLint {
    pub fn descriptor(&self) -> (r: LintDescriptor)
        ensures
            r == explicit_self_assignments_descriptor(),
    {
        LintDescriptor {
            name: "explicit_self_assignments",
            category: LintCategory::Style,
            description: "Use `..` to ignore multiple struct fields instead of explicit `: _` bindings",
            group: RuleGroup::Stable,
            fix: FixDescriptor { available: false, safety: FixSafety::Safe, description: "" },
            analysis: AnalysisKind::Syntactic,
            gap: None,
        }
    }

    /// Reports every unpacking that binds two or more fields to `_` without `..`.
    pub fn check(&self, tree: &SyntaxTree, source: &SourceText, ctx: &mut LintContext)
        ensures
            final(ctx)@ == findings_reported_at(
                old(ctx)@,
                tree@,
                |i: int| explicit_self_assignments_finding(tree@, source@, i),
                tree@.len() as int,
            ),
    {
        let mut i: usize = 0;
        while i < tree.len()
            invariant
                i <= tree@.len(),
                ctx@ == findings_reported_at(
                    old(ctx)@,
                    tree@,
                    |i: int| explicit_self_assignments_finding(tree@, source@, i),
                    i as int,
                ),
            decreases tree@.len() - i,
        {
            if tree.is_kind(i, "bind_unpack") || tree.is_kind(i, "unpack_expression") || tree.is_kind(i, "bind_fields") {
                let text = tree.text(source, i);
                if !crate::text::str_contains(text.as_str(), "..") {
                    let n = count_ignored_fields(text.as_str());
                    if n >= 2 {
                        let mut message = to_owned_string("Use `..` to ignore ");
                        push_decimal(&mut message, n);
                        push_str(&mut message, " fields instead of explicit `: _` bindings");
                        assert(message@ =~= "Use `..` to ignore "@ + decimal(n as nat) + " fields instead of explicit `: _` bindings"@);
                        let lint = self.descriptor();
                        ctx.report_node(tree, &lint, i, message);
                    }
                }
            }
            i = i + 1;
        }
    }
}

// ---------------------------------------------------------------------------
// constant_naming
// ---------------------------------------------------------------------------
pub open spec fn constant_naming_descriptor() -> LintDescriptor {
    LintDescriptor {
        name: "constant_naming",
        category: LintCategory::Naming,
        description: "Error constants should use EPascalCase; other constants should be SCREAMING_SNAKE_CASE",
        group: RuleGroup::Stable,
        fix: FixDescriptor { available: false, safety: FixSafety::Safe, description: "" },
        analysis: AnalysisKind::Syntactic,
        gap: None,
    }
}

/// `E`, an uppercase letter, and a lowercase letter somewhere after the `E`.
pub open spec fn error_like(n: Seq<char>) -> bool {
    n.len() >= 2 && n[0] == 'E' && is_ascii_upper(n[1]) && exists|i: int| 1 <= i < n.len() && is_ascii_lower(#[trigger] n[i])
}

/// `EPascalCase`: `E`, an uppercase letter, then letters and digits only.
pub open spec fn valid_error_constant(n: Seq<char>) -> bool {
    n.len() >= 2 && n[0] == 'E' && is_ascii_upper(n[1]) && forall|i: int| 1 <= i < n.len() ==> is_ascii_alnum(#[trigger] n[i])
}

/// `SCREAMING_SNAKE_CASE`: an uppercase letter or `_` first, then uppercase letters, digits and `_`.
pub open spec fn valid_regular_constant(n: Seq<char>) -> bool {
    n.len() >= 1 && (is_ascii_upper(n[0]) || n[0] == '_') && forall|i: int| 0 <= i < n.len() ==> (is_ascii_upper(#[trigger] n[i]) || is_ascii_digit(n[i]) || n[i] == '_')
}

/// Whether the constant name looks like an error code name.
pub fn is_error_like(name: &str) -> (r: bool)
    ensures
        r == error_like(name@),
{
    let v = chars_of(name);
    if v.len() < 2 || v[0] != 'E' || !('A' <= v[1] && v[1] <= 'Z') {
        return false;
    }
    let mut i: usize = 1;
    while i < v.len()
        invariant
            v@ == name@,
            1 <= i <= v@.len(),
            v@.len() >= 2,
            v@[0] == 'E',
            is_ascii_upper(v@[1]),
            forall|j: int| 1 <= j < i ==> !is_ascii_lower(#[trigger] v@[j]),
        decreases v.len() - i,
    {
        if 'a' <= v[i] && v[i] <= 'z' {
            assert(is_ascii_lower(v@[i as int]));
            return true;
        }
        i = i + 1;
    }
    false
}

/// Whether an error constant name is `EPascalCase`.
pub fn is_valid_error_constant(name: &str) -> (r: bool)
    ensures
        r == valid_error_constant(name@),
{
    let v = chars_of(name);
    if v.len() < 2 || v[0] != 'E' || !('A' <= v[1] && v[1] <= 'Z') {
        return false;
    }
    let mut i: usize = 1;
    while i < v.len()
        invariant
            v@ == name@,
            1 <= i <= v@.len(),
            forall|j: int| 1 <= j < i ==> is_ascii_alnum(#[trigger] v@[j]),
        decreases v.len() - i,
    {
        let c = v[i];
        if !(('a' <= c && c <= 'z') || ('A' <= c && c <= 'Z') || ('0' <= c && c <= '9')) {
            return false;
        }
        i = i + 1;
    }
    true
}

/// Whether a regular constant name is `SCREAMING_SNAKE_CASE`.
pub fn is_valid_regular_constant(name: &str) -> (r: bool)
    ensures
        r == valid_regular_constant(name@),
{
    let v = chars_of(name);
    if v.len() < 1 || !(('A' <= v[0] && v[0] <= 'Z') || v[0] == '_') {
        return false;
    }
    let mut i: usize = 0;
    while i < v.len()
        invariant
            v@ == name@,
            i <= v@.len(),
            forall|j: int| 0 <= j < i ==> (is_ascii_upper(#[trigger] v@[j]) || is_ascii_digit(v@[j]) || v@[j] == '_'),
        decreases v.len() - i,
    {
        let c = v[i];
        if !(('A' <= c && c <= 'Z') || ('0' <= c && c <= '9') || c == '_') {
            return false;
        }
        i = i + 1;
    }
    true
}

/// Whether a constant is an error code or a regular constant.
#[derive(Debug, Clone, Copy, PartialEq, Eq, Structural)]
pub enum ConstantKind {
    Error,
    Regular,
}

/// Classifies a constant by its name.
pub fn classify_constant(name: &str) -> (r: ConstantKind)
    ensures
        r == (if error_like(name@) {
            ConstantKind::Error
        } else {
            ConstantKind::Regular
        }),
{
    if is_error_like(name) {
        ConstantKind::Error
    } else {
        ConstantKind::Regular
    }
}

/// What `constant_naming` reports at node `i`.
pub open spec fn constant_naming_finding(ns: Seq<NodeView>, src: Seq<char>, i: int) -> Option<(int, DiagView)> {
    if !(0 <= i < ns.len()) || ns[i].kind != "constant"@ {
        None
    } else {
        match field_child_from(ns, i, "name"@, 0) {
            None => None,
            Some(nn) => {
                let name = trim(node_text(ns, src, nn as int));
                if name.len() == 0 {
                    None
                } else if error_like(name) {
                    if valid_error_constant(name) {
                        None
                    } else {
                        Some(
                            plain_report(
                                constant_naming_descriptor(),
                                ns,
                                nn as int,
                                "Error constants should use EPascalCase (e.g. `ENotAuthorized`), found `"@ + name + "`"@,
                            ),
                        )
                    }
                } else if valid_regular_constant(name) {
                    None
                } else {
                    Some(
                        plain_report(
                            constant_naming_descriptor(),
                            ns,
                            nn as int,
                            "Regular constants should be SCREAMING_SNAKE_CASE (e.g. `MAX_SUPPLY`), found `"@ + name + "`"@,
                        ),
                    )
                }
            },
        }
    }
}

/// Error constants in `EPascalCase`, others in `SCREAMING_SNAKE_CASE`.
pub struct ConstantNamingLint;

impl ConstantNamingLint {
    pub fn descriptor(&self) -> (r: LintDescriptor)
        ensures
            r == constant_naming_descriptor(),
    {
        LintDescriptor {
            name: "constant_naming",
            category: LintCategory::Naming,
            description: "Error constants should use EPascalCase; other constants should be SCREAMING_SNAKE_CASE",
            group: RuleGroup::Stable,
            fix: FixDescriptor { available: false, safety: FixSafety::Safe, description: "" },
            analysis: AnalysisKind::Syntactic,
            gap: None,
        }
    }

    /// Reports every constant whose name breaks its naming convention.
    pub fn check(&self, tree: &SyntaxTree, source: &SourceText, ctx: &mut LintContext)
        ensures
            final(ctx)@ == findings_reported_at(
                old(ctx)@,
                tree@,
                |i: int| constant_naming_finding(tree@, source@, i),
                tree@.len() as int,
            ),
    {
        let mut i: usize = 0;
        while i < tree.len()
            invariant
                i <= tree@.len(),
                ctx@ == findings_reported_at(
                    old(ctx)@,
                    tree@,
                    |i: int| constant_naming_finding(tree@, source@, i),
                    i as int,
                ),
            decreases tree@.len() - i,
        {
            if tree.is_kind(i, "constant") {
                match tree.child_by_field_name(i, "name") {
                    None => {},
                    Some(nn) => {
                        let text = tree.text(source, nn);
                        let name = trim_str(text.as_str());
                        let lint = self.descriptor();
                        if chars_of(name).len() > 0 {
                            match classify_constant(name) {
                                ConstantKind::Error => {
                                    if !is_valid_error_constant(name) {
                                        let m = concat(
                                            concat("Error constants should use EPascalCase (e.g. `ENotAuthorized`), found `", name).as_str(),
                                            "`",
                                        );
                                        ctx.report_node(tree, &lint, nn, m);
                                    }
                                },
                                ConstantKind::Regular => {
                                    if !is_valid_regular_constant(name) {
                                        let m = concat(
                                            concat("Regular constants should be SCREAMING_SNAKE_CASE (e.g. `MAX_SUPPLY`), found `", name).as_str(),
                                            "`",
                                        );
                                        ctx.report_node(tree, &lint, nn, m);
                                    }
                                },
                            }
                        }
                    },
                }
            }
            i = i + 1;
        }
    }
}


// ---------------------------------------------------------------------------
// redundant_self_import
// ---------------------------------------------------------------------------
pub open spec fn redundant_self_import_descriptor() -> LintDescriptor {
    LintDescriptor {
        name: "redundant_self_import",
        category: LintCategory::Style,
        description: "Avoid `use pkg::mod::{Self};`; prefer `use pkg::mod;`",
        group: RuleGroup::Stable,
        fix: FixDescriptor { available: true, safety: FixSafety::Safe, description: "Remove redundant `{Self}`" },
        analysis: AnalysisKind::Syntactic,
        gap: None,
    }
}

/// The comma-separated items of `s`, trimmed and without empty ones, are
/// exactly `Self` (`seen`: `Self` has been met already).
pub open spec fn only_self(s: Seq<char>, seen: bool) -> bool
    decreases s.len(),
{
    match find(s, ","@) {
        None => {
            let t = trim(s);
            if t.len() == 0 {
                seen
            } else {
                t == "Self"@ && !seen
            }
        },
        Some(p) => {
            proof {
                crate::text::lemma_find_from_some(s, ","@, 0);
                reveal_strlit(",");
            }
            let t = trim(s.take(p));
            if t.len() == 0 {
                only_self(s.skip(p + 1), seen)
            } else if t == "Self"@ && !seen {
                only_self(s.skip(p + 1), true)
            } else {
                false
            }
        },
    }
}

/// `s` with every (non-overlapping, leftmost-first) occurrence of `from` replaced by `to`.
pub open spec fn replace_all(s: Seq<char>, from: Seq<char>, to: Seq<char>) -> Seq<char>
    decreases s.len(),
    when from.len() > 0
{
    match find(s, from) {
        None => s,
        Some(p) => {
            proof {
                crate::text::lemma_find_from_some(s, from, 0);
            }
            s.take(p) + to + replace_all(s.skip(p + from.len()), from, to)
        },
    }
}

/// `str::replace`.
pub fn replace_str(s: &str, from: &str, to: &str) -> (r: String)
    requires
        from@.len() > 0,
    ensures
        r@ == replace_all(s@, from@, to@),
{
    let v = chars_of(s);
    let f = chars_of(from);
    let mut out = String::new();
    let mut i: usize = 0;
    let n = v.len();
    assert(v@.skip(0) =~= v@);
    assert(out@ + replace_all(v@, from@, to@) =~= replace_all(v@, from@, to@));
    while i <= n
        invariant
            v@ == s@,
            f@ == from@,
            f@.len() > 0,
            n == v@.len(),
            i <= n,
            replace_all(s@, from@, to@) == out@ + replace_all(v@.skip(i as int), from@, to@),
        decreases n + 1 - i,
    {
        let ghost rest = v@.skip(i as int);
        match v_find_from(&v, &f, i) {
            None => {
                proof {
                    crate::text::lemma_find_from_some(v@, f@, i as int);
                    if find(rest, from@) is Some {
                        crate::text::lemma_find_from_some(rest, from@, 0);
                        let k = find(rest, from@)->0;
                        assert(crate::text::matches_at(v@, f@, i + k)) by {
                            assert(rest.subrange(k, k + f@.len()) =~= v@.subrange(i + k, i + k + f@.len()));
                        }
                    }
                }
                let tail = crate::rules::patterns::slice_vec(&v, i, n);
                let t = crate::text::string_from_chars(&tail);
                push_str(&mut out, t.as_str());
                assert(rest =~= v@.subrange(i as int, n as int));
                return out;
            },
            Some(k) => {
                proof {
                    crate::text::lemma_find_from_some(v@, f@, i as int);
                    crate::text::lemma_find_from_some(rest, from@, 0);
                    assert(crate::text::matches_at(rest, from@, k - i)) by {
                        assert(rest.subrange(k - i, k - i + f@.len()) =~= v@.subrange(k as int, k + f@.len()));
                    }
                    if find(rest, from@) != Some(k - i) {
                        let j = find(rest, from@)->0;
                        assert(crate::text::matches_at(v@, f@, i + j)) by {
                            assert(rest.subrange(j, j + f@.len()) =~= v@.subrange(i + j, i + j + f@.len()));
                        }
                    }
                    assert(find(rest, from@) == Some(k - i));
                    assert(rest.take(k - i) =~= v@.subrange(i as int, k as int));
                    assert(rest.skip(k - i + f@.len()) =~= v@.skip(k + f@.len()));
                }
                let piece = crate::rules::patterns::slice_vec(&v, i, k);
                let t = crate::text::string_from_chars(&piece);
                push_str(&mut out, t.as_str());
                push_str(&mut out, to);
                i = k + f.len();
            },
        }
    }
    out
}

/// Whether the items of `s` are exactly `Self`.
fn is_only_self(s: &str) -> (r: bool)
    ensures
        r == only_self(s@, false),
{
    let v = chars_of(s);
    let comma = chars_of(",");
    proof {
        reveal_strlit(",");
        assert(","@.len() == 1);
    }
    let mut i: usize = 0;
    let mut seen = false;
    let n = v.len();
    assert(v@.skip(0) =~= v@);
    while i <= n
        invariant
            v@ == s@,
            comma@ == ","@,
            ","@.len() == 1,
            n == v@.len(),
            i <= n,
            only_self(s@, false) == only_self(v@.skip(i as int), seen),
        decreases n + 1 - i,
    {
        let ghost rest = v@.skip(i as int);
        match v_find_from(&v, &comma, i) {
            None => {
                proof {
                    crate::text::lemma_find_from_some(v@, comma@, i as int);
                    if find(rest, ","@) is Some {
                        crate::text::lemma_find_from_some(rest, ","@, 0);
                        let k = find(rest, ","@)->0;
                        assert(crate::text::matches_at(v@, comma@, i + k)) by {
                            assert(rest.subrange(k, k + 1) =~= v@.subrange(i + k, i + k + 1));
                        }
                    }
                    assert(rest =~= v@.subrange(i as int, n as int));
                }
                let (a, b) = crate::text::trim_bounds(&v, i, n);
                if a == b {
                    return seen;
                }
                let piece = crate::rules::patterns::slice_vec(&v, a, b);
                let t = crate::text::string_from_chars(&piece);
                return str_eq(t.as_str(), "Self") && !seen;
            },
            Some(k) => {
                proof {
                    crate::text::lemma_find_from_some(v@, comma@, i as int);
                    crate::text::lemma_find_from_some(rest, ","@, 0);
                    assert(crate::text::matches_at(rest, ","@, k - i)) by {
                        assert(rest.subrange(k - i, k - i + 1) =~= v@.subrange(k as int, k + 1));
                    }
                    if find(rest, ","@) != Some(k - i) {
                        let j = find(rest, ","@)->0;
                        assert(crate::text::matches_at(v@, comma@, i + j)) by {
                            assert(rest.subrange(j, j + 1) =~= v@.subrange(i + j, i + j + 1));
                        }
                    }
                    assert(rest.take(k - i) =~= v@.subrange(i as int, k as int));
                    assert(rest.skip(k - i + 1) =~= v@.skip(k + 1));
                }
                let (a, b) = crate::text::trim_bounds(&v, i, k);
                if a != b {
                    let piece = crate::rules::patterns::slice_vec(&v, a, b);
                    let t = crate::text::string_from_chars(&piece);
                    if str_eq(t.as_str(), "Self") && !seen {
                        seen = true;
                    } else {
                        return false;
                    }
                }
                i = k + 1;
            },
        }
    }
    false
}

/// What `redundant_self_import` adds at node `i` (with the level the settings give it).
pub open spec fn redundant_self_import_finding(ns: Seq<NodeView>, src: Seq<char>, settings: Map<Seq<char>, LintLevel>, i: int) -> Option<DiagView> {
    if !(0 <= i < ns.len()) || ns[i].kind != "use_declaration"@ {
        None
    } else {
        let text = node_text(ns, src, i);
        match crate::rules::util::braced_items(text) {
            None => None,
            Some(b) => if !only_self(b, false) {
                None
            } else if scope_of(item_annotations(src, ns[i].start_byte as int)).0.contains(
                redundant_self_import_descriptor().name@,
            ) {
                None
            } else {
                let repl = replace_all(replace_all(text, "::{Self}"@, Seq::empty()), "::{ Self }"@, Seq::empty());
                Some(
                    DiagView {
                        lint: redundant_self_import_descriptor(),
                        level: level_in(settings, redundant_self_import_descriptor().name@),
                        file: None,
                        span: span_of(ns[i]),
                        message: "Redundant `{Self}` import; prefer `use pkg::mod;`"@,
                        help: Some("Remove `{Self}`"@),
                        suggestion: Some(
                            SuggestionView {
                                message: "Remove redundant `{Self}`"@,
                                replacement: repl,
                                applicability: Applicability::MachineApplicable,
                            },
                        ),
                    },
                )
            },
        }
    }
}

/// Prefer `use pkg::mod;` over `use pkg::mod::{Self};`.
pub struct RedundantSelfImportLint;

impl RedundantSelfImportLint {
    pub fn descriptor(&self) -> (r: LintDescriptor)
        ensures
            r == redundant_self_import_descriptor(),
    {
        LintDescriptor {
            name: "redundant_self_import",
            category: LintCategory::Style,
            description: "Avoid `use pkg::mod::{Self};`; prefer `use pkg::mod;`",
            group: RuleGroup::Stable,
            fix: FixDescriptor { available: true, safety: FixSafety::Safe, description: "Remove redundant `{Self}`" },
            analysis: AnalysisKind::Syntactic,
            gap: None,
        }
    }

    /// Adds a diagnostic for every `use ...::{Self};` import that is not allowed at its start.
    pub fn check(&self, tree: &SyntaxTree, source: &SourceText, ctx: &mut LintContext)
        ensures
            final(ctx)@ == findings_pushed(
                old(ctx)@,
                |i: int| redundant_self_import_finding(tree@, source@, old(ctx)@.settings, i),
                tree@.len() as int,
            ),
    {
        proof {
            reveal_strlit("::{Self}");
            reveal_strlit("::{ Self }");
            assert("::{Self}"@.len() == 8);
            assert("::{ Self }"@.len() == 10);
        }
        let lint = self.descriptor();
        let mut i: usize = 0;
        while i < tree.len()
            invariant
                i <= tree@.len(),
                lint == redundant_self_import_descriptor(),
                "::{Self}"@.len() == 8,
                "::{ Self }"@.len() == 10,
                ctx@.settings == old(ctx)@.settings,
                ctx@ == findings_pushed(
                    old(ctx)@,
                    |i: int| redundant_self_import_finding(tree@, source@, old(ctx)@.settings, i),
                    i as int,
                ),
            decreases tree@.len() - i,
        {
            match self.finding(tree, source, ctx.settings(), i) {
                Some(d) => {
                    ctx.report_diagnostic(d);
                },
                None => {},
            }
            i = i + 1;
        }
    }

    /// What the rule adds at node `i`, if anything.
    pub fn finding(&self, tree: &SyntaxTree, source: &SourceText, settings: &crate::lint::LintSettings, i: usize) -> (r: Option<Diagnostic>)
        requires
            i < tree@.len(),
        ensures
            opt_diag_view(r) == redundant_self_import_finding(tree@, source@, settings@, i as int),
    {
        proof {
            reveal_strlit("::{Self}");
            reveal_strlit("::{ Self }");
            assert("::{Self}"@.len() == 8);
            assert("::{ Self }"@.len() == 10);
            reveal_strlit("");
            assert(""@ =~= Seq::<char>::empty());
        }
        let lint = self.descriptor();
        if tree.is_kind(i, "use_declaration") {
            let text = tree.text(source, i);
            match crate::rules::util::extract_braced_items(text.as_str()) {
                None => {},
                Some(b) => {
                    if is_only_self(b) && !suppressed_at(source, tree.start_byte(i), lint.name) {
                        let r1 = replace_str(text.as_str(), "::{Self}", "");
                        let repl = replace_str(r1.as_str(), "::{ Self }", "");
                        let level = settings.level_for(lint.name);
                        let d = Diagnostic {
                            lint,
                            level,
                            file: None,
                            span: tree.span(i),
                            message: to_owned_string("Redundant `{Self}` import; prefer `use pkg::mod;`"),
                            help: Some(to_owned_string("Remove `{Self}`")),
                            suggestion: Some(
                                Suggestion {
                                    message: to_owned_string("Remove redundant `{Self}`"),
                                    replacement: repl,
                                    applicability: Applicability::MachineApplicable,
                                },
                            ),
                        };
                        return Some(d);
                    }
                },
            }
        }
        None
    }
}

// ---------------------------------------------------------------------------
// doc_comment_style
// ---------------------------------------------------------------------------
pub open spec fn doc_comment_style_descriptor() -> LintDescriptor {
    LintDescriptor {
        name: "doc_comment_style",
        category: LintCategory::Style,
        description: "Use `///` for doc comments, not `/** */` or `/* */`",
        group: RuleGroup::Stable,
        fix: FixDescriptor { available: false, safety: FixSafety::Safe, description: "" },
        analysis: AnalysisKind::Syntactic,
        gap: None,
    }
}

/// A comment node kind, which the search for the documented item passes over.
pub open spec fn is_comment_kind(k: Seq<char>) -> bool {
    k == "line_comment"@ || k == "block_comment"@
}

/// An item kind that can carry documentation.
pub open spec fn is_documentable_kind(k: Seq<char>) -> bool {
    ||| k == "function_definition"@
    ||| k == "struct_definition"@
    ||| k == "datatype_definition"@
    ||| k == "constant"@
    ||| k == "module_definition"@
    ||| k == "enum_definition"@
    ||| k == "spec_block"@
    ||| k == "use_declaration"@
}

/// The first child of `p` from position `j` on that is not a comment is documentable.
pub open spec fn next_item_documentable(ns: Seq<NodeView>, p: int, j: int) -> bool
    decreases ns[p].children.len() - j,
{
    if j < 0 || j >= ns[p].children.len() {
        false
    } else if is_comment_kind(ns[ns[p].children[j] as int].kind) {
        next_item_documentable(ns, p, j + 1)
    } else {
        is_documentable_kind(ns[ns[p].children[j] as int].kind)
    }
}

/// The first sibling after node `i` that is not a comment is a documentable item.
pub open spec fn precedes_documentable_item(ns: Seq<NodeView>, i: int) -> bool {
    match sibling_index(ns, i) {
        Some(j) => next_item_documentable(ns, ns[i].parent->0 as int, j + 1),
        None => false,
    }
}

/// A block comment laid out as documentation: some line after the first
/// starts, past its whitespace, with `*`.
pub open spec fn looks_like_doc(t: Seq<char>) -> bool {
    &&& lines(t).len() >= 2
    &&& exists|k: int|
        1 <= k < lines(t).len() && trim(#[trigger] lines(t)[k]).len() > 0 && trim(lines(t)[k])[0] == '*'
}

/// What `doc_comment_style` reports at node `i`.
pub open spec fn doc_comment_style_finding(ns: Seq<NodeView>, src: Seq<char>, i: int) -> Option<(int, DiagView)> {
    if !(0 <= i < ns.len()) || ns[i].kind != "block_comment"@ {
        None
    } else {
        let t = trim(node_text(ns, src, i));
        let javadoc = "/**"@.is_prefix_of(t);
        let block_doc = "/*"@.is_prefix_of(t) && !javadoc && looks_like_doc(t);
        if (javadoc || block_doc) && precedes_documentable_item(ns, i) {
            Some(
                plain_report(
                    doc_comment_style_descriptor(),
                    ns,
                    i,
                    "Use `///` for doc comments instead of block comments"@,
                ),
            )
        } else {
            None
        }
    }
}

/// Whether a block comment looks like documentation.
fn is_doc_like(t: &str) -> (r: bool)
    ensures
        r == looks_like_doc(t@),
{
    let v = chars_of(t);
    let spans = line_spans(&v);
    if spans.len() < 2 {
        return false;
    }
    let mut k: usize = 1;
    while k < spans.len()
        invariant
            v@ == t@,
            spans@.len() == lines(v@).len(),
            forall|i: int|
                #![trigger spans@[i]]
                0 <= i < spans@.len() ==> (spans@[i].0 <= spans@[i].1 && spans@[i].1 <= v@.len()
                    && lines(v@)[i] == v@.subrange(spans@[i].0 as int, spans@[i].1 as int)),
            1 <= k <= spans@.len(),
            forall|m: int|
                1 <= m < k ==> !(trim(#[trigger] lines(v@)[m]).len() > 0 && trim(lines(v@)[m])[0] == '*'),
        decreases spans.len() - k,
    {
        let (a, b) = spans[k];
        let (x, y) = trim_bounds(&v, a, b);
        assert(lines(v@)[k as int] == v@.subrange(a as int, b as int));
        if x < y && v[x] == '*' {
            assert(trim(lines(v@)[k as int])[0] == v@[x as int]);
            return true;
        }
        k = k + 1;
    }
    false
}

/// Prefer `///` over block comments for documentation.
pub struct DocCommentStyleLint;

impl DocCommentStyleLint {
    pub fn descriptor(&self) -> (r: LintDescriptor)
        ensures
            r == doc_comment_style_descriptor(),
    {
        LintDescriptor {
            name: "doc_comment_style",
            category: LintCategory::Style,
            description: "Use `///` for doc comments, not `/** */` or `/* */`",
            group: RuleGroup::Stable,
            fix: FixDescriptor { available: false, safety: FixSafety::Safe, description: "" },
            analysis: AnalysisKind::Syntactic,
            gap: None,
        }
    }

    /// Whether the first sibling after node `i` that is not a comment is documentable.
    fn precedes_item(&self, tree: &SyntaxTree, i: usize) -> (r: bool)
        requires
            i < tree@.len(),
        ensures
            r == precedes_documentable_item(tree@, i as int),
    {
        match tree.sibling_position(i) {
            None => false,
            Some((p, j)) => {
                let cs = tree.children(p);
                let n = cs.len();
                let mut k: usize = j + 1;
                while k < cs.len()
                    invariant
                        p < tree@.len(),
                        cs@ == tree@[p as int].children,
                        forall|t: int| 0 <= t < cs@.len() ==> p < #[trigger] cs@[t] < tree@.len(),
                        j + 1 <= k <= cs@.len(),
                        precedes_documentable_item(tree@, i as int) == next_item_documentable(tree@, p as int, k as int),
                    decreases cs.len() - k,
                {
                    let c = cs[k];
                    if tree.is_kind(c, "line_comment") || tree.is_kind(c, "block_comment") {
                        k = k + 1;
                    } else {
                        return tree.is_kind(c, "function_definition") || tree.is_kind(c, "struct_definition")
                            || tree.is_kind(c, "datatype_definition") || tree.is_kind(c, "constant")
                            || tree.is_kind(c, "module_definition") || tree.is_kind(c, "enum_definition")
                            || tree.is_kind(c, "spec_block") || tree.is_kind(c, "use_declaration");
                    }
                }
                false
            },
        }
    }

    /// Reports block comments that document an item.
    pub fn check(&self, tree: &SyntaxTree, source: &SourceText, ctx: &mut LintContext)
        ensures
            final(ctx)@ == findings_reported_at(
                old(ctx)@,
                tree@,
                |i: int| doc_comment_style_finding(tree@, source@, i),
                tree@.len() as int,
            ),
    {
        let mut i: usize = 0;
        while i < tree.len()
            invariant
                i <= tree@.len(),
                ctx@ == findings_reported_at(
                    old(ctx)@,
                    tree@,
                    |i: int| doc_comment_style_finding(tree@, source@, i),
                    i as int,
                ),
            decreases tree@.len() - i,
        {
            if tree.is_kind(i, "block_comment") {
                let text = tree.text(source, i);
                let t = trim_str(text.as_str());
                let javadoc = starts_with(t, "/**");
                let block_doc = starts_with(t, "/*") && !javadoc && is_doc_like(t);
                if (javadoc || block_doc) && self.precedes_item(tree, i) {
                    let lint = self.descriptor();
                    ctx.report_node(tree, &lint, i, to_owned_string("Use `///` for doc comments instead of block comments"));
                }
            }
            i = i + 1;
        }
    }
}

// ---------------------------------------------------------------------------
// abilities_order
// ---------------------------------------------------------------------------
pub open spec fn abilities_order_descriptor() -> LintDescriptor {
    LintDescriptor {
        name: "abilities_order",
        category: LintCategory::Style,
        description: "Struct abilities should be ordered: key, copy, drop, store",
        group: RuleGroup::Stable,
        fix: FixDescriptor { available: true, safety: FixSafety::Safe, description: "Reorder abilities to canonical order" },
        analysis: AnalysisKind::Syntactic,
        gap: None,
    }
}

/// The ability at position `p` of the canonical order `key, copy, drop, store`.
pub open spec fn ability_name(p: u8) -> Seq<char> {
    if p == 0 {
        "key"@
    } else if p == 1 {
        "copy"@
    } else if p == 2 {
        "drop"@
    } else {
        "store"@
    }
}

/// The position of `t` in the canonical order, if it is an ability.
pub open spec fn ability_position(t: Seq<char>) -> Option<u8> {
    if t == "key"@ {
        Some(0u8)
    } else if t == "copy"@ {
        Some(1u8)
    } else if t == "drop"@ {
        Some(2u8)
    } else if t == "store"@ {
        Some(3u8)
    } else {
        None
    }
}

/// `str::split` by one char, as a fold: the finished pieces and the piece in progress.
pub open spec fn split_fold(s: Seq<char>, sep: char) -> (Seq<Seq<char>>, Seq<char>)
    decreases s.len(),
{
    if s.len() == 0 {
        (Seq::empty(), Seq::empty())
    } else {
        let (done, cur) = split_fold(s.drop_last(), sep);
        if s.last() == sep {
            (done.push(cur), Seq::empty())
        } else {
            (done, cur.push(s.last()))
        }
    }
}

/// The pieces of `s` between occurrences of `sep` (`str::split`).
pub open spec fn split_on(s: Seq<char>, sep: char) -> Seq<Seq<char>> {
    split_fold(s, sep).0.push(split_fold(s, sep).1)
}

/// The positions of the trimmed pieces that name abilities, in order.
pub open spec fn ability_positions(pieces: Seq<Seq<char>>) -> Seq<u8>
    decreases pieces.len(),
{
    if pieces.len() == 0 {
        Seq::empty()
    } else {
        let rest = ability_positions(pieces.drop_last());
        match ability_position(trim(pieces.last())) {
            Some(p) => rest.push(p),
            None => rest,
        }
    }
}

/// The abilities an `ability_decls` text lists: `has` removed, split at commas, trimmed.
pub open spec fn listed_abilities(text: Seq<char>) -> Seq<u8> {
    ability_positions(split_on(replace_all(text, "has"@, Seq::empty()), ','))
}

/// Some ability comes before one that precedes it in the canonical order.
pub open spec fn out_of_order(ps: Seq<u8>) -> bool {
    exists|k: int| 1 <= k < ps.len() && #[trigger] ps[k] < ps[k - 1]
}

/// The entries of `ps` equal to `p`, in order.
pub open spec fn entries_equal(ps: Seq<u8>, p: u8) -> Seq<u8>
    decreases ps.len(),
{
    if ps.len() == 0 {
        Seq::empty()
    } else if ps.last() == p {
        entries_equal(ps.drop_last(), p).push(p)
    } else {
        entries_equal(ps.drop_last(), p)
    }
}

/// `ps` stably sorted by canonical position.
pub open spec fn canonical_order(ps: Seq<u8>) -> Seq<u8> {
    entries_equal(ps, 0) + entries_equal(ps, 1) + entries_equal(ps, 2) + entries_equal(ps, 3)
}

/// The abilities joined with `", "`.
pub open spec fn abilities_text(ps: Seq<u8>) -> Seq<char> {
    crate::rules::util::joined(ps.map_values(|p: u8| ability_name(p)))
}

/// The diagnostic for the `ability_decls` node `c`, if its abilities are out of order.
pub open spec fn abilities_diag(ns: Seq<NodeView>, src: Seq<char>, settings: Map<Seq<char>, LintLevel>, c: int) -> Option<DiagView> {
    let ps = listed_abilities(node_text(ns, src, c));
    if ps.len() < 2 || !out_of_order(ps) {
        None
    } else if scope_of(item_annotations(src, ns[c].start_byte as int)).0.contains(abilities_order_descriptor().name@) {
        None
    } else {
        let sorted = abilities_text(canonical_order(ps));
        let repl = "has "@ + sorted;
        Some(
            DiagView {
                lint: abilities_order_descriptor(),
                level: level_in(settings, abilities_order_descriptor().name@),
                file: None,
                span: span_of(ns[c]),
                message: "Abilities should be ordered: `has "@ + sorted + "`. Found: `has "@ + abilities_text(ps) + "`"@,
                help: Some("Reorder to `"@ + repl + "`"@),
                suggestion: Some(
                    SuggestionView {
                        message: "Reorder abilities to `"@ + repl + "`"@,
                        replacement: repl,
                        applicability: Applicability::MachineApplicable,
                    },
                ),
            },
        )
    }
}

/// The diagnostics for the first `j` children of node `i`.
pub open spec fn abilities_findings_upto(ns: Seq<NodeView>, src: Seq<char>, settings: Map<Seq<char>, LintLevel>, i: int, j: int) -> Seq<DiagView>
    decreases j,
{
    if j <= 0 || j > ns[i].children.len() {
        Seq::empty()
    } else {
        let rest = abilities_findings_upto(ns, src, settings, i, j - 1);
        let c = ns[i].children[j - 1] as int;
        if ns[c].kind == "ability_decls"@ {
            match abilities_diag(ns, src, settings, c) {
                Some(d) => rest.push(d),
                None => rest,
            }
        } else {
            rest
        }
    }
}

/// What `abilities_order` adds at node `i`.
pub open spec fn abilities_order_findings(ns: Seq<NodeView>, src: Seq<char>, settings: Map<Seq<char>, LintLevel>, i: int) -> Seq<DiagView> {
    if 0 <= i < ns.len() && (ns[i].kind == "struct_definition"@ || ns[i].kind == "datatype_definition"@) {
        abilities_findings_upto(ns, src, settings, i, ns[i].children.len() as int)
    } else {
        Seq::empty()
    }
}

fn ability_str(p: u8) -> (r: &'static str)
    requires
        p < 4,
    ensures
        r@ == ability_name(p),
{
    if p == 0 {
        "key"
    } else if p == 1 {
        "copy"
    } else if p == 2 {
        "drop"
    } else {
        "store"
    }
}

/// The canonical position of a trimmed piece, if it names an ability.
fn ability_of(t: &str) -> (r: Option<u8>)
    ensures
        r == ability_position(t@),
        r matches Some(p) ==> p < 4,
{
    if str_eq(t, "key") {
        Some(0)
    } else if str_eq(t, "copy") {
        Some(1)
    } else if str_eq(t, "drop") {
        Some(2)
    } else if str_eq(t, "store") {
        Some(3)
    } else {
        None
    }
}

/// The abilities listed in an `ability_decls` text, by canonical position.
fn parse_abilities(text: &str) -> (r: Vec<u8>)
    ensures
        r@ == listed_abilities(text@),
        forall|k: int| 0 <= k < r@.len() ==> r@[k] < 4,
{
    proof {
        reveal_strlit("has");
        assert("has"@.len() == 3);
        reveal_strlit("");
        assert(""@ =~= Seq::<char>::empty());
    }
    let cleaned = replace_str(text, "has", "");
    let v = chars_of(cleaned.as_str());
    let mut out: Vec<u8> = Vec::new();
    let mut cur_start: usize = 0;
    let mut i: usize = 0;
    assert(v@.take(0) =~= Seq::<char>::empty());
    while i < v.len()
        invariant
            v@ == cleaned@,
            cur_start <= i <= v@.len(),
            split_fold(v@.take(i as int), ',').1 == v@.subrange(cur_start as int, i as int),
            out@ == ability_positions(split_fold(v@.take(i as int), ',').0),
            forall|k: int| 0 <= k < out@.len() ==> out@[k] < 4,
        decreases v.len() - i,
    {
        assert(v@.take(i + 1).drop_last() =~= v@.take(i as int));
        assert(v@.take(i + 1).last() == v@[i as int]);
        if v[i] == ',' {
            let (a, b) = trim_bounds(&v, cur_start, i);
            let piece = crate::rules::patterns::slice_vec(&v, a, b);
            let t = crate::text::string_from_chars(&piece);
            let ghost done = split_fold(v@.take(i as int), ',').0;
            let ghost cur = split_fold(v@.take(i as int), ',').1;
            assert(done.push(cur).drop_last() =~= done);
            assert(done.push(cur).last() == cur);
            match ability_of(t.as_str()) {
                Some(p) => {
                    out.push(p);
                },
                None => {},
            }
            cur_start = i + 1;
            assert(v@.subrange(cur_start as int, i + 1) =~= Seq::<char>::empty());
        } else {
            assert(v@.subrange(cur_start as int, i + 1) =~= v@.subrange(cur_start as int, i as int).push(v@[i as int]));
        }
        i = i + 1;
    }
    assert(v@.take(v@.len() as int) =~= v@);
    let (a, b) = trim_bounds(&v, cur_start, v.len());
    let piece = crate::rules::patterns::slice_vec(&v, a, b);
    let t = crate::text::string_from_chars(&piece);
    let ghost done = split_fold(v@, ',').0;
    let ghost cur = split_fold(v@, ',').1;
    assert(done.push(cur).drop_last() =~= done);
    assert(done.push(cur).last() == cur);
    match ability_of(t.as_str()) {
        Some(p) => {
            out.push(p);
        },
        None => {},
    }
    out
}

/// The entries of `ps` equal to `p`, appended to `out`.
fn push_entries_equal(ps: &Vec<u8>, p: u8, out: &mut Vec<u8>)
    ensures
        final(out)@ == old(out)@ + entries_equal(ps@, p),
{
    let ghost start = out@;
    let mut i: usize = 0;
    assert(ps@.take(0) =~= Seq::<u8>::empty());
    assert(start + Seq::<u8>::empty() =~= start);
    while i < ps.len()
        invariant
            i <= ps@.len(),
            out@ == start + entries_equal(ps@.take(i as int), p),
        decreases ps.len() - i,
    {
        assert(ps@.take(i + 1).drop_last() =~= ps@.take(i as int));
        assert(ps@.take(i + 1).last() == ps@[i as int]);
        if ps[i] == p {
            out.push(p);
            assert(start + entries_equal(ps@.take(i + 1), p) =~= (start + entries_equal(ps@.take(i as int), p)).push(p));
        }
        i = i + 1;
    }
    assert(ps@.take(ps@.len() as int) =~= ps@);
}

/// The abilities joined with `", "`.
fn join_abilities(ps: &Vec<u8>) -> (r: String)
    requires
        forall|k: int| 0 <= k < ps@.len() ==> ps@[k] < 4,
    ensures
        r@ == abilities_text(ps@),
{
    let ghost names = ps@.map_values(|p: u8| ability_name(p));
    let mut r = String::new();
    let mut i: usize = 0;
    assert(names.take(0) =~= Seq::<Seq<char>>::empty());
    while i < ps.len()
        invariant
            i <= ps@.len(),
            names == ps@.map_values(|p: u8| ability_name(p)),
            forall|k: int| 0 <= k < ps@.len() ==> ps@[k] < 4,
            r@ == crate::rules::util::joined(names.take(i as int)),
        decreases ps.len() - i,
    {
        if i > 0 {
            push_str(&mut r, ", ");
        }
        push_str(&mut r, ability_str(ps[i]));
        proof {
            let t = names.take(i + 1);
            assert(t.drop_last() =~= names.take(i as int));
            assert(t.last() == ability_name(ps@[i as int]));
            if i == 0 {
                assert(names.take(0) =~= Seq::<Seq<char>>::empty());
                assert(t.len() == 1);
            }
        }
        i = i + 1;
    }
    assert(names.take(ps@.len() as int) =~= names);
    r
}

/// Prefer abilities in the order `key, copy, drop, store`.
pub struct AbilitiesOrderLint;

impl AbilitiesOrderLint {
    pub fn descriptor(&self) -> (r: LintDescriptor)
        ensures
            r == abilities_order_descriptor(),
    {
        LintDescriptor {
            name: "abilities_order",
            category: LintCategory::Style,
            description: "Struct abilities should be ordered: key, copy, drop, store",
            group: RuleGroup::Stable,
            fix: FixDescriptor { available: true, safety: FixSafety::Safe, description: "Reorder abilities to canonical order" },
            analysis: AnalysisKind::Syntactic,
            gap: None,
        }
    }

    /// The diagnostic for the `ability_decls` node `c`, if its abilities are out of order.
    fn diagnose(&self, tree: &SyntaxTree, source: &SourceText, settings: &crate::lint::LintSettings, c: usize) -> (r: Option<Diagnostic>)
        requires
            c < tree@.len(),
        ensures
            opt_diag_view(r) == abilities_diag(tree@, source@, settings@, c as int),
    {
        let lint = self.descriptor();
        let text = tree.text(source, c);
        let ps = parse_abilities(text.as_str());
        if ps.len() < 2 {
            return None;
        }
        let mut disordered = false;
        let mut k: usize = 1;
        while k < ps.len()
            invariant
                1 <= k <= ps@.len(),
                disordered == exists|m: int| 1 <= m < k && #[trigger] ps@[m] < ps@[m - 1],
            decreases ps.len() - k,
        {
            if ps[k] < ps[k - 1] {
                disordered = true;
            }
            k = k + 1;
        }
        if !disordered {
            return None;
        }
        if suppressed_at(source, tree.start_byte(c), lint.name) {
            return None;
        }
        let mut sorted: Vec<u8> = Vec::new();
        push_entries_equal(&ps, 0, &mut sorted);
        push_entries_equal(&ps, 1, &mut sorted);
        push_entries_equal(&ps, 2, &mut sorted);
        push_entries_equal(&ps, 3, &mut sorted);
        proof {
            assert(sorted@ =~= canonical_order(ps@));
            lemma_entries_equal_value(ps@, 0);
            lemma_entries_equal_value(ps@, 1);
            lemma_entries_equal_value(ps@, 2);
            lemma_entries_equal_value(ps@, 3);
            assert forall|k: int| 0 <= k < sorted@.len() implies sorted@[k] < 4 by {
                let a = entries_equal(ps@, 0);
                let b = entries_equal(ps@, 1);
                let c2 = entries_equal(ps@, 2);
                let d = entries_equal(ps@, 3);
                if k < a.len() {
                } else if k < a.len() + b.len() {
                    assert(sorted@[k] == b[k - a.len()]);
                } else if k < a.len() + b.len() + c2.len() {
                    assert(sorted@[k] == c2[k - a.len() - b.len()]);
                } else {
                    assert(sorted@[k] == d[k - a.len() - b.len() - c2.len()]);
                }
            }
        }
        let sorted_text = join_abilities(&sorted);
        let found_text = join_abilities(&ps);
        let mut repl = to_owned_string("has ");
        push_str(&mut repl, sorted_text.as_str());
        let mut message = to_owned_string("Abilities should be ordered: `has ");
        push_str(&mut message, sorted_text.as_str());
        push_str(&mut message, "`. Found: `has ");
        push_str(&mut message, found_text.as_str());
        push_str(&mut message, "`");
        let mut help = to_owned_string("Reorder to `");
        push_str(&mut help, repl.as_str());
        push_str(&mut help, "`");
        let mut smsg = to_owned_string("Reorder abilities to `");
        push_str(&mut smsg, repl.as_str());
        push_str(&mut smsg, "`");
        let level = settings.level_for(lint.name);
        Some(
            Diagnostic {
                lint,
                level,
                file: None,
                span: tree.span(c),
                message,
                help: Some(help),
                suggestion: Some(
                    Suggestion { message: smsg, replacement: repl, applicability: Applicability::MachineApplicable },
                ),
            },
        )
    }

    /// Adds a diagnostic for every struct whose abilities are out of canonical order.
    pub fn check(&self, tree: &SyntaxTree, source: &SourceText, ctx: &mut LintContext)
        ensures
            final(ctx)@ == findings_pushed_seq(
                old(ctx)@,
                |i: int| abilities_order_findings(tree@, source@, old(ctx)@.settings, i),
                tree@.len() as int,
            ),
    {
        let mut i: usize = 0;
        while i < tree.len()
            invariant
                i <= tree@.len(),
                ctx@.settings == old(ctx)@.settings,
                ctx@ == findings_pushed_seq(
                    old(ctx)@,
                    |i: int| abilities_order_findings(tree@, source@, old(ctx)@.settings, i),
                    i as int,
                ),
            decreases tree@.len() - i,
        {
            let ghost before = ctx@;
            if tree.is_kind(i, "struct_definition") || tree.is_kind(i, "datatype_definition") {
                let cs = tree.children(i);
                let mut j: usize = 0;
                while j < cs.len()
                    invariant
                        i < tree@.len(),
                        cs@ == tree@[i as int].children,
                        forall|t: int| 0 <= t < cs@.len() ==> i < #[trigger] cs@[t] < tree@.len(),
                        j <= cs@.len(),
                        ctx@.settings == old(ctx)@.settings,
                        ctx@ == (ContextView {
                            diagnostics: before.diagnostics + abilities_findings_upto(tree@, source@, old(ctx)@.settings, i as int, j as int),
                            ..before
                        }),
                    decreases cs.len() - j,
                {
                    let c = cs[j];
                    if tree.is_kind(c, "ability_decls") {
                        match self.diagnose(tree, source, ctx.settings(), c) {
                            Some(d) => {
                                ctx.report_diagnostic(d);
                            },
                            None => {},
                        }
                    }
                    proof {
                        let s0 = abilities_findings_upto(tree@, source@, old(ctx)@.settings, i as int, j as int);
                        let s1 = abilities_findings_upto(tree@, source@, old(ctx)@.settings, i as int, j + 1);
                        assert(s1 == s0 || exists|d: DiagView| s1 == s0.push(d));
                        assert(before.diagnostics + s0.push(
                            abilities_diag(tree@, source@, old(ctx)@.settings, c as int)->0,
                        ) =~= (before.diagnostics + s0).push(abilities_diag(tree@, source@, old(ctx)@.settings, c as int)->0));
                    }
                    j = j + 1;
                }
            } else {
                assert(before.diagnostics + Seq::<DiagView>::empty() =~= before.diagnostics);
            }
            i = i + 1;
        }
    }
}

proof fn lemma_entries_equal_value(ps: Seq<u8>, p: u8)
    ensures
        forall|k: int| 0 <= k < entries_equal(ps, p).len() ==> #[trigger] entries_equal(ps, p)[k] == p,
    decreases ps.len(),
{
    if ps.len() > 0 {
        lemma_entries_equal_value(ps.drop_last(), p);
        let r = entries_equal(ps.drop_last(), p);
        assert forall|k: int| 0 <= k < entries_equal(ps, p).len() implies #[trigger] entries_equal(ps, p)[k] == p by {
            if ps.last() == p && k < r.len() {
                assert(entries_equal(ps, p)[k] == r[k]);
            }
        }
    }
}

// ---------------------------------------------------------------------------
// empty_vector_literal
// ---------------------------------------------------------------------------
pub open spec fn empty_vector_literal_descriptor() -> LintDescriptor {
    LintDescriptor {
        name: "empty_vector_literal",
        category: LintCategory::Modernization,
        description: "Prefer `vector[]` over `vector::empty()`",
        group: RuleGroup::Stable,
        fix: FixDescriptor { available: true, safety: FixSafety::Safe, description: "Replace with `vector[]`" },
        analysis: AnalysisKind::Syntactic,
        gap: None,
    }
}

/// A call written `vector::empty...()` once its whitespace is removed.
pub open spec fn is_empty_vector_call(c: Seq<char>) -> bool {
    "vector::empty"@.is_prefix_of(c) && "()"@.is_suffix_of(c)
}

/// The call text holds a `<` with no `>` at or after the char before it, so
/// the type parameter cannot be cut out.
pub open spec fn type_param_unbounded(c: Seq<char>) -> bool {
    contains(c, "<"@) && match rfind(c, ">"@) {
        None => true,
        Some(e) => e + 1 < find(c, "<"@)->0,
    }
}

/// `vector` followed by the text from the first `<` to the last `>`, or `vector[]`.
pub open spec fn empty_vector_replacement(c: Seq<char>) -> Seq<char> {
    if contains(c, "<"@) {
        "vector"@ + c.subrange(find(c, "<"@)->0, rfind(c, ">"@)->0 + 1)
    } else {
        "vector[]"@
    }
}

/// The whitespace-free text of node `i`.
pub open spec fn compact_node_text(ns: Seq<NodeView>, src: Seq<char>, i: int) -> Seq<char> {
    remove_ws(trim(node_text(ns, src, i)))
}

/// Node `i` is a `vector::empty<...>()` call whose type parameter cannot be cut out.
pub open spec fn empty_vector_unbounded_at(ns: Seq<NodeView>, src: Seq<char>, i: int) -> bool {
    &&& 0 <= i < ns.len()
    &&& ns[i].kind == "call_expression"@
    &&& is_empty_vector_call(compact_node_text(ns, src, i))
    &&& type_param_unbounded(compact_node_text(ns, src, i))
}

/// No node of the file is such a call: the inputs `empty_vector_literal` handles.
pub open spec fn empty_vector_calls_bounded(ns: Seq<NodeView>, src: Seq<char>) -> bool {
    forall|i: int| !#[trigger] empty_vector_unbounded_at(ns, src, i)
}

/// What `empty_vector_literal` adds at node `i`.
pub open spec fn empty_vector_literal_finding(ns: Seq<NodeView>, src: Seq<char>, settings: Map<Seq<char>, LintLevel>, i: int) -> Option<DiagView> {
    if !(0 <= i < ns.len()) || ns[i].kind != "call_expression"@ {
        None
    } else {
        let t = trim(node_text(ns, src, i));
        let c = remove_ws(t);
        if !is_empty_vector_call(c) {
            None
        } else if scope_of(item_annotations(src, ns[i].start_byte as int)).0.contains(
            empty_vector_literal_descriptor().name@,
        ) {
            None
        } else {
            let repl = empty_vector_replacement(c);
            Some(
                DiagView {
                    lint: empty_vector_literal_descriptor(),
                    level: level_in(settings, empty_vector_literal_descriptor().name@),
                    file: None,
                    span: span_of(ns[i]),
                    message: "Prefer `"@ + repl + "` over `"@ + t + "`"@,
                    help: Some("Replace with `"@ + repl + "`"@),
                    suggestion: Some(
                        SuggestionView {
                            message: "Replace `"@ + t + "` with `"@ + repl + "`"@,
                            replacement: repl,
                            applicability: Applicability::MachineApplicable,
                        },
                    ),
                },
            )
        }
    }
}

/// Prefer `vector[]` over `vector::empty()`.
pub struct EmptyVectorLiteralLint;

impl EmptyVectorLiteralLint {
    pub fn descriptor(&self) -> (r: LintDescriptor)
        ensures
            r == empty_vector_literal_descriptor(),
    {
        LintDescriptor {
            name: "empty_vector_literal",
            category: LintCategory::Modernization,
            description: "Prefer `vector[]` over `vector::empty()`",
            group: RuleGroup::Stable,
            fix: FixDescriptor { available: true, safety: FixSafety::Safe, description: "Replace with `vector[]`" },
            analysis: AnalysisKind::Syntactic,
            gap: None,
        }
    }

    /// The replacement for a `vector::empty...()` call text.
    fn replacement(&self, c: &str) -> (r: String)
        requires
            is_empty_vector_call(c@),
            !type_param_unbounded(c@),
        ensures
            r@ == empty_vector_replacement(c@),
    {
        proof {
            reveal_strlit("<");
            reveal_strlit(">");
            reveal_strlit("vector::empty");
            assert("<"@.len() == 1);
            assert(">"@.len() == 1);
            assert("vector::empty"@.len() == 13);
            crate::text::lemma_find_from_some(c@, "<"@, 0);
        }
        let v = chars_of(c);
        let lt = chars_of("<");
        let gt = chars_of(">");
        match v_find_from(&v, &lt, 0) {
            None => {
                to_owned_string("vector[]")
            },
            Some(a) => {
                assert(matches_at(c@, "<"@, a as int));
                match v_rfind_from(&v, &gt, v.len() - 1) {
                    None => {
                        to_owned_string("vector[]")
                    },
                    Some(e) => {
                        proof {
                            crate::text::lemma_rfind_from(c@, ">"@, c@.len() - 1);
                        }
                        let piece = crate::rules::patterns::slice_vec(&v, a, e + 1);
                        let mut r = to_owned_string("vector");
                        let t = crate::text::string_from_chars(&piece);
                        push_str(&mut r, t.as_str());
                        r
                    },
                }
            },
        }
    }

    /// Whether the type parameter of a `vector::empty...()` call text cannot be cut out.
    fn unbounded(&self, c: &str) -> (r: bool)
        ensures
            r == type_param_unbounded(c@),
    {
        proof {
            reveal_strlit("<");
            reveal_strlit(">");
            assert("<"@.len() == 1);
            assert(">"@.len() == 1);
            crate::text::lemma_find_from_some(c@, "<"@, 0);
        }
        let v = chars_of(c);
        let lt = chars_of("<");
        let gt = chars_of(">");
        match v_find_from(&v, &lt, 0) {
            None => false,
            Some(a) => {
                assert(matches_at(c@, "<"@, a as int));
                if v.len() == 0 {
                    return true;
                }
                match v_rfind_from(&v, &gt, v.len() - 1) {
                    None => true,
                    Some(e) => e < a && a - e > 1,
                }
            },
        }
    }

    /// Whether the rule can check the file: no `vector::empty<...>()` call in
    /// it has a `<` that no later `>` closes.
    pub fn can_check(&self, tree: &SyntaxTree, source: &SourceText) -> (r: bool)
        ensures
            r == empty_vector_calls_bounded(tree@, source@),
    {
        let mut i: usize = 0;
        while i < tree.len()
            invariant
                i <= tree@.len(),
                forall|k: int| 0 <= k < i ==> !#[trigger] empty_vector_unbounded_at(tree@, source@, k),
            decreases tree@.len() - i,
        {
            if tree.is_kind(i, "call_expression") {
                let text = tree.text(source, i);
                let t = trim_str(text.as_str());
                let c = compact_ws(t);
                if starts_with(c.as_str(), "vector::empty") && ends_with(c.as_str(), "()") && self.unbounded(c.as_str()) {
                    assert(empty_vector_unbounded_at(tree@, source@, i as int));
                    return false;
                }
            }
            i = i + 1;
        }
        assert forall|k: int| !#[trigger] empty_vector_unbounded_at(tree@, source@, k) by {
            if 0 <= k < i {
            }
        }
        true
    }

    /// What the rule adds at node `i`, if anything.
    pub fn finding(&self, tree: &SyntaxTree, source: &SourceText, settings: &crate::lint::LintSettings, i: usize) -> (r: Option<Diagnostic>)
        requires
            i < tree@.len(),
            !empty_vector_unbounded_at(tree@, source@, i as int),
        ensures
            opt_diag_view(r) == empty_vector_literal_finding(tree@, source@, settings@, i as int),
    {
        if !tree.is_kind(i, "call_expression") {
            return None;
        }
        let text = tree.text(source, i);
        let t = trim_str(text.as_str());
        let c = compact_ws(t);
        if !(starts_with(c.as_str(), "vector::empty") && ends_with(c.as_str(), "()")) {
            return None;
        }
        let lint = self.descriptor();
        if suppressed_at(source, tree.start_byte(i), lint.name) {
            return None;
        }
        let repl = self.replacement(c.as_str());
        let mut message = to_owned_string("Prefer `");
        push_str(&mut message, repl.as_str());
        push_str(&mut message, "` over `");
        push_str(&mut message, t);
        push_str(&mut message, "`");
        let mut help = to_owned_string("Replace with `");
        push_str(&mut help, repl.as_str());
        push_str(&mut help, "`");
        let mut smsg = to_owned_string("Replace `");
        push_str(&mut smsg, t);
        push_str(&mut smsg, "` with `");
        push_str(&mut smsg, repl.as_str());
        push_str(&mut smsg, "`");
        let level = settings.level_for(lint.name);
        Some(
            Diagnostic {
                lint,
                level,
                file: None,
                span: tree.span(i),
                message,
                help: Some(help),
                suggestion: Some(
                    Suggestion { message: smsg, replacement: repl, applicability: Applicability::MachineApplicable },
                ),
            },
        )
    }

    /// Adds a diagnostic for every `vector::empty()` call.
    pub fn check(&self, tree: &SyntaxTree, source: &SourceText, ctx: &mut LintContext)
        requires
            empty_vector_calls_bounded(tree@, source@),
        ensures
            final(ctx)@ == findings_pushed(
                old(ctx)@,
                |i: int| empty_vector_literal_finding(tree@, source@, old(ctx)@.settings, i),
                tree@.len() as int,
            ),
    {
        let mut i: usize = 0;
        while i < tree.len()
            invariant
                i <= tree@.len(),
                empty_vector_calls_bounded(tree@, source@),
                ctx@.settings == old(ctx)@.settings,
                ctx@ == findings_pushed(
                    old(ctx)@,
                    |i: int| empty_vector_literal_finding(tree@, source@, old(ctx)@.settings, i),
                    i as int,
                ),
            decreases tree@.len() - i,
        {
            assert(!empty_vector_unbounded_at(tree@, source@, i as int));
            match self.finding(tree, source, ctx.settings(), i) {
                Some(d) => {
                    ctx.report_diagnostic(d);
                },
                None => {},
            }
            i = i + 1;
        }
    }
}

// ---------------------------------------------------------------------------
// typed_abort_code
// ---------------------------------------------------------------------------
pub open spec fn typed_abort_code_descriptor() -> LintDescriptor {
    LintDescriptor {
        name: "typed_abort_code",
        category: LintCategory::Style,
        description: "Prefer named error constants over numeric abort codes",
        group: RuleGroup::Stable,
        fix: FixDescriptor { available: false, safety: FixSafety::Safe, description: "" },
        analysis: AnalysisKind::Syntactic,
        gap: None,
    }
}

/// The value of a digit in base 10, or base 16 when `hex`.
pub open spec fn digit_value(c: char, hex: bool) -> Option<nat> {
    if '0' <= c && c <= '9' {
        Some((c as nat - '0' as nat) as nat)
    } else if hex && 'a' <= c && c <= 'f' {
        Some((c as nat - 'a' as nat + 10) as nat)
    } else if hex && 'A' <= c && c <= 'F' {
        Some((c as nat - 'A' as nat + 10) as nat)
    } else {
        None
    }
}

/// The number a run of digits spells, if every char is a digit.
pub open spec fn digits_value(ds: Seq<char>, hex: bool) -> Option<nat>
    decreases ds.len(),
{
    if ds.len() == 0 {
        Some(0)
    } else {
        match (digits_value(ds.drop_last(), hex), digit_value(ds.last(), hex)) {
            (Some(v), Some(d)) => Some(if hex { v * 16 + d } else { v * 10 + d }),
            _ => None,
        }
    }
}

/// What `u64::from_str_radix` accepts: an optional `+`, then one or more
/// digits whose value fits in a `u64`.
pub open spec fn parses_as_u64(s: Seq<char>, hex: bool) -> bool {
    let ds = if s.len() > 0 && s[0] == '+' { s.skip(1) } else { s };
    &&& ds.len() > 0
    &&& digits_value(ds, hex) matches Some(v)
    &&& v <= u64::MAX
}

/// A numeric literal: a decimal `u64`, or `0x` and a hexadecimal `u64`.
pub open spec fn is_numeric_literal_text(s: Seq<char>) -> bool {
    let t = trim(s);
    parses_as_u64(t, false) || ("0x"@.is_prefix_of(t) && parses_as_u64(t.skip(2), true))
}

/// Bracket depth and the last comma at depth zero after scanning `s`.
pub open spec fn comma_scan(s: Seq<char>) -> (nat, Option<int>)
    decreases s.len(),
{
    if s.len() == 0 {
        (0, None)
    } else {
        let (d, last) = comma_scan(s.drop_last());
        let c = s.last();
        if c == '(' || c == '[' || c == '{' || c == '<' {
            (d + 1, last)
        } else if c == ')' || c == ']' || c == '}' || c == '>' {
            (if d == 0 { 0 } else { (d - 1) as nat }, last)
        } else if c == ',' && d == 0 {
            (d, Some(s.len() - 1))
        } else {
            (d, last)
        }
    }
}

/// The abort code of `assert!(cond, code)`: the trimmed text after the last
/// top-level comma inside the outermost parentheses.
pub open spec fn assert_abort_code(text: Seq<char>) -> Option<Seq<char>> {
    if !"assert!"@.is_prefix_of(text) {
        None
    } else {
        let rest = text.skip(7);
        match (find(rest, "("@), rfind(rest, ")"@)) {
            (Some(a), Some(b)) => if a + 1 > b {
                None
            } else {
                let inner = trim(rest.subrange(a + 1, b));
                match comma_scan(inner).1 {
                    Some(p) => Some(trim(inner.skip(p + 1))),
                    None => None,
                }
            },
            _ => None,
        }
    }
}

/// The file's root has a `test_only` attribute or a module with `_test` in its text.
pub open spec fn typed_abort_test_root(ns: Seq<NodeView>, src: Seq<char>) -> bool {
    exists|j: int|
        0 <= j < ns[0].children.len() && {
            let c = #[trigger] ns[0].children[j] as int;
            ||| (ns[c].kind == "attribute"@ && contains(node_text(ns, src, c), "test_only"@))
            ||| (ns[c].kind == "module_definition"@ && (contains(node_text(ns, src, c), "_tests"@)
                || contains(node_text(ns, src, c), "_test"@)))
        }
}

/// The nearest proper ancestor of node `i` that is a function definition.
pub open spec fn fn_ancestor(ns: Seq<NodeView>, i: int) -> Option<int>
    decreases i,
{
    if !(0 <= i < ns.len()) {
        None
    } else {
        match ns[i].parent {
            None => None,
            Some(p) => if !(p < i) {
                None
            } else if ns[p as int].kind == "function_definition"@ {
                Some(p as int)
            } else {
                fn_ancestor(ns, p as int)
            },
        }
    }
}

/// Some sibling before node `f` is an attribute whose text mentions `test`.
pub open spec fn test_attr_before(ns: Seq<NodeView>, src: Seq<char>, f: int) -> bool {
    match sibling_index(ns, f) {
        None => false,
        Some(j) => {
            let par = ns[f].parent->0 as int;
            exists|k: int|
                0 <= k < j && ns[#[trigger] ns[par].children[k] as int].kind == "attribute"@ && contains(
                    node_text(ns, src, ns[par].children[k] as int),
                    "test"@,
                )
        },
    }
}

/// Node `i` lies in a function marked as a test.
pub open spec fn in_test_function(ns: Seq<NodeView>, src: Seq<char>, i: int) -> bool {
    match fn_ancestor(ns, i) {
        Some(f) => test_attr_before(ns, src, f),
        None => false,
    }
}

/// The message for a numeric abort code.
pub open spec fn abort_code_message(code: Seq<char>) -> Seq<char> {
    "Prefer named error constant over numeric abort code `"@ + code + "`"@
}

/// What `typed_abort_code` reports at node `i`.
pub open spec fn typed_abort_code_finding(ns: Seq<NodeView>, src: Seq<char>, i: int) -> Option<(int, DiagView)> {
    if !(0 <= i < ns.len()) || typed_abort_test_root(ns, src) || in_test_function(ns, src, i) {
        None
    } else if ns[i].kind == "abort_expression"@ {
        match field_child_from(ns, i, "value"@, 0) {
            Some(c) => {
                let code = trim(node_text(ns, src, c as int));
                if is_numeric_literal_text(code) {
                    Some(plain_report(typed_abort_code_descriptor(), ns, i, abort_code_message(code)))
                } else {
                    None
                }
            },
            None => None,
        }
    } else if ns[i].kind == "macro_call_expression"@ {
        let t = trim(node_text(ns, src, i));
        if "assert!"@.is_prefix_of(t) && !"assert_eq!"@.is_prefix_of(t) && !"assert_ne!"@.is_prefix_of(t) {
            match assert_abort_code(t) {
                Some(code) => if is_numeric_literal_text(code) {
                    Some(plain_report(typed_abort_code_descriptor(), ns, i, abort_code_message(code)))
                } else {
                    None
                },
                None => None,
            }
        } else {
            None
        }
    } else {
        None
    }
}

/// Whether `v[from..]` is what `u64::from_str_radix` accepts.
fn parses_u64(v: &Vec<char>, from: usize, hex: bool) -> (r: bool)
    requires
        from <= v@.len(),
    ensures
        r == parses_as_u64(v@.skip(from as int), hex),
{
    let ghost s = v@.skip(from as int);
    let mut start = from;
    if from < v.len() && v[from] == '+' {
        start = from + 1;
    }
    let ghost ds = v@.skip(start as int);
    assert(ds =~= (if s.len() > 0 && s[0] == '+' { s.skip(1) } else { s }));
    if start >= v.len() {
        return false;
    }
    // 0: valid so far, 1: too large so far, 2: holds a non-digit.
    let mut state: u8 = 0;
    let mut acc: u64 = 0;
    let mut i = start;
    assert(ds.take(0) =~= Seq::<char>::empty());
    while i < v.len()
        invariant
            start <= i <= v@.len(),
            ds == v@.skip(start as int),
            state <= 2,
            state == 0 ==> digits_value(ds.take(i - start), hex) == Some(acc as nat),
            state == 1 ==> (digits_value(ds.take(i - start), hex) matches Some(x) && x > u64::MAX),
            state == 2 ==> digits_value(ds.take(i - start), hex) is None,
        decreases v.len() - i,
    {
        let c = v[i];
        let ghost pre = ds.take(i - start);
        assert(ds.take(i - start + 1).drop_last() =~= pre);
        assert(ds.take(i - start + 1).last() == c);
        let d: Option<u64> = if '0' <= c && c <= '9' {
            Some((c as u32 - '0' as u32) as u64)
        } else if hex && 'a' <= c && c <= 'f' {
            Some((c as u32 - 'a' as u32 + 10) as u64)
        } else if hex && 'A' <= c && c <= 'F' {
            Some((c as u32 - 'A' as u32 + 10) as u64)
        } else {
            None
        };
        assert(d matches Some(x) ==> digit_value(c, hex) == Some(x as nat));
        assert(d is None ==> digit_value(c, hex) is None);
        match d {
            None => {
                state = 2;
            },
            Some(dv) => {
                if state == 0 {
                    let base: u64 = if hex { 16 } else { 10 };
                    match acc.checked_mul(base) {
                        None => {
                            state = 1;
                        },
                        Some(m) => match m.checked_add(dv) {
                            None => {
                                state = 1;
                            },
                            Some(n) => {
                                acc = n;
                            },
                        },
                    }
                }
            },
        }
        i = i + 1;
    }
    assert(ds.take(i - start) =~= ds);
    state == 0
}

/// Whether `s`, trimmed, is a decimal or `0x` hexadecimal `u64` literal.
fn numeric_literal(s: &str) -> (r: bool)
    ensures
        r == is_numeric_literal_text(s@),
{
    let t = trim_str(s);
    let v = chars_of(t);
    if parses_u64(&v, 0, false) {
        assert(v@.skip(0) =~= v@);
        return true;
    }
    assert(v@.skip(0) =~= v@);
    proof {
        reveal_strlit("0x");
        assert("0x"@.len() == 2);
    }
    if starts_with(t, "0x") {
        parses_u64(&v, 2, true)
    } else {
        false
    }
}

/// The abort code of an `assert!(cond, code)` text.
fn extract_assert_abort_code_for_typed(text: &str) -> (r: Option<String>)
    ensures
        match r {
            Some(c) => assert_abort_code(text@) == Some(c@),
            None => assert_abort_code(text@) is None,
        },
{
    proof {
        reveal_strlit("assert!");
        reveal_strlit("(");
        reveal_strlit(")");
        assert("assert!"@.len() == 7);
        assert("("@.len() == 1);
        assert(")"@.len() == 1);
    }
    let rest = match strip_prefix(text, "assert!") {
        Some(r) => r,
        None => {
            return None;
        },
    };
    let rv = chars_of(rest);
    let open = chars_of("(");
    let close = chars_of(")");
    let a = match v_find_from(&rv, &open, 0) {
        Some(a) => a,
        None => {
            return None;
        },
    };
    proof {
        crate::text::lemma_find_from_some(rv@, "("@, 0);
    }
    if rv.len() == 0 {
        return None;
    }
    let b = match v_rfind_from(&rv, &close, rv.len() - 1) {
        Some(b) => b,
        None => {
            return None;
        },
    };
    proof {
        crate::text::lemma_rfind_from(rv@, ")"@, rv@.len() - 1);
    }
    if a >= b {
        return None;
    }
    let (x, y) = trim_bounds(&rv, a + 1, b);
    let inner = crate::rules::patterns::slice_vec(&rv, x, y);
    let ghost iv = inner@;
    let mut depth: usize = 0;
    let mut last: Option<usize> = None;
    let mut i: usize = 0;
    assert(iv.take(0) =~= Seq::<char>::empty());
    while i < inner.len()
        invariant
            inner@ == iv,
            i <= iv.len(),
            depth <= i,
            comma_scan(iv.take(i as int)) == (depth as nat, match last {
                Some(p) => Some(p as int),
                None => None,
            }),
            last matches Some(p) ==> p < i,
        decreases inner.len() - i,
    {
        let c = inner[i];
        assert(iv.take(i + 1).drop_last() =~= iv.take(i as int));
        assert(iv.take(i + 1).last() == c);
        if c == '(' || c == '[' || c == '{' || c == '<' {
            depth = depth + 1;
        } else if c == ')' || c == ']' || c == '}' || c == '>' {
            if depth > 0 {
                depth = depth - 1;
            }
        } else if c == ',' && depth == 0 {
            last = Some(i);
        }
        i = i + 1;
    }
    assert(iv.take(iv.len() as int) =~= iv);
    match last {
        None => None,
        Some(p) => {
            let (u, w) = trim_bounds(&inner, p + 1, inner.len());
            let code = crate::rules::patterns::slice_vec(&inner, u, w);
            assert(iv.skip(p + 1) =~= iv.subrange(p + 1, iv.len() as int));
            Some(crate::text::string_from_chars(&code))
        },
    }
}

/// Prefer named error constants over numeric abort codes.
pub struct TypedAbortCodeLint;

impl TypedAbortCodeLint {
    pub fn descriptor(&self) -> (r: LintDescriptor)
        ensures
            r == typed_abort_code_descriptor(),
    {
        LintDescriptor {
            name: "typed_abort_code",
            category: LintCategory::Style,
            description: "Prefer named error constants over numeric abort codes",
            group: RuleGroup::Stable,
            fix: FixDescriptor { available: false, safety: FixSafety::Safe, description: "" },
            analysis: AnalysisKind::Syntactic,
            gap: None,
        }
    }

    /// Whether the file is a test-only module.
    fn test_root(&self, tree: &SyntaxTree, source: &SourceText) -> (r: bool)
        ensures
            r == typed_abort_test_root(tree@, source@),
    {
        tree.ensure_wf();
        let cs = tree.children(0);
        let mut j: usize = 0;
        while j < cs.len()
            invariant
                tree@.len() > 0,
                cs@ == tree@[0].children,
                forall|t: int| 0 <= t < cs@.len() ==> 0 < #[trigger] cs@[t] < tree@.len(),
                j <= cs@.len(),
                forall|t: int|
                    0 <= t < j ==> {
                        let c = #[trigger] cs@[t] as int;
                        !((tree@[c].kind == "attribute"@ && contains(node_text(tree@, source@, c), "test_only"@))
                            || (tree@[c].kind == "module_definition"@ && (contains(node_text(tree@, source@, c), "_tests"@)
                            || contains(node_text(tree@, source@, c), "_test"@))))
                    },
            decreases cs.len() - j,
        {
            let c = cs[j];
            let text = tree.text(source, c);
            let hit = (tree.is_kind(c, "attribute") && str_contains(text.as_str(), "test_only")) || (tree.is_kind(
                c,
                "module_definition",
            ) && (str_contains(text.as_str(), "_tests") || str_contains(text.as_str(), "_test")));
            if hit {
                assert(tree@[0].children[j as int] == c);
                return true;
            }
            j = j + 1;
        }
        false
    }

    /// Whether node `i` lies in a function marked as a test.
    fn in_test(&self, tree: &SyntaxTree, source: &SourceText, i: usize) -> (r: bool)
        requires
            i < tree@.len(),
        ensures
            r == in_test_function(tree@, source@, i as int),
    {
        let mut cur = i;
        loop
            invariant
                cur < tree@.len(),
                fn_ancestor(tree@, i as int) == fn_ancestor(tree@, cur as int),
            decreases cur,
        {
            match tree.parent(cur) {
                None => {
                    return false;
                },
                Some(p) => {
                    if tree.is_kind(p, "function_definition") {
                        return self.attr_before(tree, source, p);
                    }
                    cur = p;
                },
            }
        }
    }

    /// Whether a sibling before node `f` is an attribute mentioning `test`.
    fn attr_before(&self, tree: &SyntaxTree, source: &SourceText, f: usize) -> (r: bool)
        requires
            f < tree@.len(),
        ensures
            r == test_attr_before(tree@, source@, f as int),
    {
        match tree.sibling_position(f) {
            None => false,
            Some((par, j)) => {
                let cs = tree.children(par);
                let mut k: usize = 0;
                while k < j
                    invariant
                        par < tree@.len(),
                        cs@ == tree@[par as int].children,
                        forall|t: int| 0 <= t < cs@.len() ==> par < #[trigger] cs@[t] < tree@.len(),
                        j < cs@.len(),
                        k <= j,
                        f < tree@.len(),
                        sibling_index(tree@, f as int) == Some(j as int),
                        tree@[f as int].parent == Some(par),
                        forall|t: int|
                            0 <= t < k ==> !(tree@[#[trigger] cs@[t] as int].kind == "attribute"@ && contains(
                                node_text(tree@, source@, cs@[t] as int),
                                "test"@,
                            )),
                    decreases j - k,
                {
                    let c = cs[k];
                    if tree.is_kind(c, "attribute") {
                        let text = tree.text(source, c);
                        if str_contains(text.as_str(), "test") {
                            assert(tree@[par as int].children[k as int] == c);
                            assert(sibling_index(tree@, f as int) == Some(j as int));
                            let ghost p2 = tree@[f as int].parent->0 as int;
                            assert(p2 == par);
                            assert(tree@[tree@[p2].children[k as int] as int].kind == "attribute"@ && contains(
                                node_text(tree@, source@, tree@[p2].children[k as int] as int),
                                "test"@,
                            ));
                            return true;
                        }
                    }
                    k = k + 1;
                }
                proof {
                    assert forall|t: int|
                        0 <= t < j implies !(tree@[#[trigger] tree@[par as int].children[t] as int].kind == "attribute"@
                            && contains(node_text(tree@, source@, tree@[par as int].children[t] as int), "test"@)) by {
                        assert(cs@[t] == tree@[par as int].children[t]);
                    }
                }
                false
            },
        }
    }

    /// Reports numeric abort codes outside tests.
    pub fn check(&self, tree: &SyntaxTree, source: &SourceText, ctx: &mut LintContext)
        ensures
            final(ctx)@ == findings_reported_at(
                old(ctx)@,
                tree@,
                |i: int| typed_abort_code_finding(tree@, source@, i),
                tree@.len() as int,
            ),
    {
        let test_root = self.test_root(tree, source);
        let mut i: usize = 0;
        while i < tree.len()
            invariant
                i <= tree@.len(),
                test_root == typed_abort_test_root(tree@, source@),
                ctx@ == findings_reported_at(
                    old(ctx)@,
                    tree@,
                    |i: int| typed_abort_code_finding(tree@, source@, i),
                    i as int,
                ),
            decreases tree@.len() - i,
        {
            if !test_root && !self.in_test(tree, source, i) {
                if tree.is_kind(i, "abort_expression") {
                    match tree.child_by_field_name(i, "value") {
                        Some(c) => {
                            let text = tree.text(source, c);
                            let code = trim_str(text.as_str());
                            if numeric_literal(code) {
                                let lint = self.descriptor();
                                let mut msg = to_owned_string("Prefer named error constant over numeric abort code `");
                                push_str(&mut msg, code);
                                push_str(&mut msg, "`");
                                ctx.report_node(tree, &lint, i, msg);
                            }
                        },
                        None => {},
                    }
                } else if tree.is_kind(i, "macro_call_expression") {
                    let text = tree.text(source, i);
                    let t = trim_str(text.as_str());
                    if starts_with(t, "assert!") && !starts_with(t, "assert_eq!") && !starts_with(t, "assert_ne!") {
                        match extract_assert_abort_code_for_typed(t) {
                            Some(code) => {
                                if numeric_literal(code.as_str()) {
                                    let lint = self.descriptor();
                                    let mut msg = to_owned_string("Prefer named error constant over numeric abort code `");
                                    push_str(&mut msg, code.as_str());
                                    push_str(&mut msg, "`");
                                    ctx.report_node(tree, &lint, i, msg);
                                }
                            },
                            None => {},
                        }
                    }
                }
            }
            i = i + 1;
        }
    }
}

// ---------------------------------------------------------------------------
// unneeded_return
// ---------------------------------------------------------------------------
pub open spec fn unneeded_return_descriptor() -> LintDescriptor {
    LintDescriptor {
        name: "unneeded_return",
        category: LintCategory::Style,
        description: "Avoid trailing `return` statements; let the final expression return implicitly",
        group: RuleGroup::Stable,
        fix: FixDescriptor { available: true, safety: FixSafety::Safe, description: "Remove `return` keyword" },
        analysis: AnalysisKind::Syntactic,
        gap: None,
    }
}

/// `s` without its trailing `;` chars (`str::trim_end_matches(';')`).
pub open spec fn strip_trailing_semis(s: Seq<char>) -> Seq<char>
    decreases s.len(),
{
    if s.len() > 0 && s.last() == ';' {
        strip_trailing_semis(s.drop_last())
    } else {
        s
    }
}

/// The body block of function node `i`: its `body` field, else its first `block` child.
pub open spec fn function_body(ns: Seq<NodeView>, i: int) -> Option<int> {
    match field_child_from(ns, i, "body"@, 0) {
        Some(b) => Some(b as int),
        None => crate::rules::modernization::child_of_kind_from(ns, i, "block"@, 0),
    }
}

/// The `return` expression that ends block `b`, if it ends with one.
pub open spec fn trailing_return(ns: Seq<NodeView>, b: int) -> Option<int> {
    match last_named_before(ns, b, ns[b].children.len() as int) {
        None => None,
        Some(l) => if ns[l].kind == "block_item"@ {
            match first_named_from(ns, l, 0) {
                Some(e) => if ns[e].kind == "return_expression"@ {
                    Some(e)
                } else {
                    None
                },
                None => None,
            }
        } else if ns[l].kind == "return_expression"@ {
            Some(l)
        } else {
            None
        },
    }
}

/// The expression a `return` text returns: the text after `return`, trimmed,
/// without trailing `;`, trimmed again.
pub open spec fn returned_expression(t: Seq<char>) -> Seq<char> {
    trim(strip_trailing_semis(trim(t.skip(6))))
}

pub open spec fn unneeded_return_message() -> Seq<char> {
    "Remove `return`; the last expression in a block already returns implicitly"@
}

/// What `unneeded_return` does at node `i`.
pub open spec fn unneeded_return_effect(ns: Seq<NodeView>, src: Seq<char>, settings: Map<Seq<char>, LintLevel>, i: int) -> Option<Effect> {
    if !(0 <= i < ns.len()) || ns[i].kind != "function_definition"@ {
        None
    } else {
        match function_body(ns, i) {
            None => None,
            Some(b) => if ns[b].kind != "block"@ {
                None
            } else {
                match trailing_return(ns, b) {
                    None => None,
                    Some(r) => {
                        let t = node_text(ns, src, r);
                        if !"return"@.is_prefix_of(t) {
                            Some(Effect::Report(r, node_diag(unneeded_return_descriptor(), ns[r], unneeded_return_message(), None, None)))
                        } else if scope_of(item_annotations(src, ns[r].start_byte as int)).0.contains(
                            unneeded_return_descriptor().name@,
                        ) {
                            None
                        } else {
                            let repl = returned_expression(t);
                            Some(
                                Effect::Push(
                                    DiagView {
                                        lint: unneeded_return_descriptor(),
                                        level: level_in(settings, unneeded_return_descriptor().name@),
                                        file: None,
                                        span: span_of(ns[r]),
                                        message: unneeded_return_message(),
                                        help: Some("Replace with `"@ + repl + "`"@),
                                        suggestion: Some(
                                            SuggestionView {
                                                message: "Remove `return` keyword"@,
                                                replacement: repl,
                                                applicability: Applicability::MachineApplicable,
                                            },
                                        ),
                                    },
                                ),
                            )
                        }
                    },
                }
            },
        }
    }
}

/// `s` without its trailing `;` chars.
fn trim_end_semis(s: &str) -> (r: &str)
    ensures
        r@ == strip_trailing_semis(s@),
{
    let v = chars_of(s);
    let mut k = v.len();
    assert(v@.take(v@.len() as int) =~= v@);
    while k > 0 && v[k - 1] == ';'
        invariant
            k <= v@.len(),
            strip_trailing_semis(v@) == strip_trailing_semis(v@.take(k as int)),
        decreases k,
    {
        assert(v@.take(k as int).drop_last() =~= v@.take(k - 1));
        k = k - 1;
    }
    assert(v@.take(v@.len() as int) =~= v@);
    s.substring_char(0, k)
}

/// Prefer an implicit return over a trailing `return`.
pub struct UnneededReturnLint;

impl UnneededReturnLint {
    pub fn descriptor(&self) -> (r: LintDescriptor)
        ensures
            r == unneeded_return_descriptor(),
    {
        LintDescriptor {
            name: "unneeded_return",
            category: LintCategory::Style,
            description: "Avoid trailing `return` statements; let the final expression return implicitly",
            group: RuleGroup::Stable,
            fix: FixDescriptor { available: true, safety: FixSafety::Safe, description: "Remove `return` keyword" },
            analysis: AnalysisKind::Syntactic,
            gap: None,
        }
    }

    /// The `return` expression that ends block `b`, if any.
    fn trailing_return_expression(&self, tree: &SyntaxTree, b: usize) -> (r: Option<usize>)
        requires
            b < tree@.len(),
        ensures
            match r {
                Some(e) => trailing_return(tree@, b as int) == Some(e as int) && e < tree@.len(),
                None => trailing_return(tree@, b as int) is None,
            },
    {
        match tree.last_named_child(b) {
            None => None,
            Some(l) => {
                if tree.is_kind(l, "block_item") {
                    match tree.first_named_child(l) {
                        Some(e) => if tree.is_kind(e, "return_expression") {
                            Some(e)
                        } else {
                            None
                        },
                        None => None,
                    }
                } else if tree.is_kind(l, "return_expression") {
                    Some(l)
                } else {
                    None
                }
            },
        }
    }

    /// Reports a trailing `return` in every function body.
    pub fn check(&self, tree: &SyntaxTree, source: &SourceText, ctx: &mut LintContext)
        ensures
            final(ctx)@ == effects_applied(
                old(ctx)@,
                tree@,
                |i: int| unneeded_return_effect(tree@, source@, old(ctx)@.settings, i),
                tree@.len() as int,
            ),
    {
        proof {
            reveal_strlit("return");
            assert("return"@.len() == 6);
        }
        let lint = self.descriptor();
        let mut i: usize = 0;
        while i < tree.len()
            invariant
                i <= tree@.len(),
                lint == unneeded_return_descriptor(),
                "return"@.len() == 6,
                ctx@.settings == old(ctx)@.settings,
                ctx@ == effects_applied(
                    old(ctx)@,
                    tree@,
                    |i: int| unneeded_return_effect(tree@, source@, old(ctx)@.settings, i),
                    i as int,
                ),
            decreases tree@.len() - i,
        {
            if tree.is_kind(i, "function_definition") {
                let body = match tree.child_by_field_name(i, "body") {
                    Some(b) => Some(b),
                    None => crate::rules::modernization::child_of_kind(tree, i, "block"),
                };
                match body {
                    None => {},
                    Some(b) => {
                        if tree.is_kind(b, "block") {
                            match self.trailing_return_expression(tree, b) {
                                None => {},
                                Some(r) => {
                                    let text = tree.text(source, r);
                                    match strip_prefix(text.as_str(), "return") {
                                        None => {
                                            ctx.report_node(
                                                tree,
                                                &lint,
                                                r,
                                                to_owned_string(
                                                    "Remove `return`; the last expression in a block already returns implicitly",
                                                ),
                                            );
                                        },
                                        Some(stripped) => {
                                            if !suppressed_at(source, tree.start_byte(r), lint.name) {
                                                let e1 = trim_str(stripped);
                                                let e2 = trim_end_semis(e1);
                                                let repl = to_owned_string(trim_str(e2));
                                                let mut help = to_owned_string("Replace with `");
                                                push_str(&mut help, repl.as_str());
                                                push_str(&mut help, "`");
                                                let level = ctx.settings().level_for(lint.name);
                                                let d = Diagnostic {
                                                    lint,
                                                    level,
                                                    file: None,
                                                    span: tree.span(r),
                                                    message: to_owned_string(
                                                        "Remove `return`; the last expression in a block already returns implicitly",
                                                    ),
                                                    help: Some(help),
                                                    suggestion: Some(
                                                        Suggestion {
                                                            message: to_owned_string("Remove `return` keyword"),
                                                            replacement: repl,
                                                            applicability: Applicability::MachineApplicable,
                                                        },
                                                    ),
                                                };
                                                ctx.report_diagnostic(d);
                                            }
                                        },
                                    }
                                },
                            }
                        }
                    },
                }
            }
            i = i + 1;
        }
    }
}

// ---------------------------------------------------------------------------
// event_suffix
// ---------------------------------------------------------------------------
pub open spec fn event_suffix_descriptor() -> LintDescriptor {
    LintDescriptor {
        name: "event_suffix",
        category: LintCategory::Naming,
        description: "Event structs should end with `Event` suffix",
        group: RuleGroup::Stable,
        fix: FixDescriptor { available: false, safety: FixSafety::Safe, description: "" },
        analysis: AnalysisKind::Syntactic,
        gap: None,
    }
}

/// The last of the first `j` children of node `i` whose kind is `kind`.
pub open spec fn last_child_of_kind(ns: Seq<NodeView>, i: int, kind: Seq<char>, j: int) -> Option<int>
    decreases j,
{
    if j <= 0 || j > ns[i].children.len() {
        None
    } else if ns[ns[i].children[j - 1] as int].kind == kind {
        Some(ns[i].children[j - 1] as int)
    } else {
        last_child_of_kind(ns, i, kind, j - 1)
    }
}

/// The struct at node `i` has the abilities of an event: its (last) ability
/// list mentions `copy` and `drop` but not `key`, ignoring case.
pub open spec fn has_event_abilities(ns: Seq<NodeView>, src: Seq<char>, i: int) -> bool {
    match last_child_of_kind(ns, i, "ability_decls"@, ns[i].children.len() as int) {
        None => false,
        Some(c) => {
            let a = lowercase(node_text(ns, src, c));
            contains(a, "copy"@) && contains(a, "drop"@) && !contains(a, "key"@)
        },
    }
}

/// Whether a lowercased ability list mentions `copy`, `drop` and `key`.
pub fn ability_mentions(lower: &str) -> (r: (bool, bool, bool))
    ensures
        r == (contains(lower@, "copy"@), contains(lower@, "drop"@), contains(lower@, "key"@)),
{
    (str_contains(lower, "copy"), str_contains(lower, "drop"), str_contains(lower, "key"))
}

/// What `event_suffix` reports at node `i`.
pub open spec fn event_suffix_finding(ns: Seq<NodeView>, src: Seq<char>, i: int) -> Option<(int, DiagView)> {
    if !(0 <= i < ns.len()) || !(ns[i].kind == "struct_definition"@ || ns[i].kind == "datatype_definition"@) {
        None
    } else {
        match field_child_from(ns, i, "name"@, 0) {
            None => None,
            Some(n) => {
                let name = trim(node_text(ns, src, n as int));
                if has_event_abilities(ns, src, i) && !"Event"@.is_suffix_of(name) && !"ed"@.is_suffix_of(name) {
                    Some(
                        plain_report(
                            event_suffix_descriptor(),
                            ns,
                            n as int,
                            "Event struct `"@ + name + "` should end with `Event` suffix (e.g., `"@ + name + "Event`)"@,
                        ),
                    )
                } else {
                    None
                }
            },
        }
    }
}

/// Event structs (copy and drop, no key) should be named `...Event`.
pub struct EventSuffixLint;

impl EventSuffixLint {
    pub fn descriptor(&self) -> (r: LintDescriptor)
        ensures
            r == event_suffix_descriptor(),
    {
        LintDescriptor {
            name: "event_suffix",
            category: LintCategory::Naming,
            description: "Event structs should end with `Event` suffix",
            group: RuleGroup::Stable,
            fix: FixDescriptor { available: false, safety: FixSafety::Safe, description: "" },
            analysis: AnalysisKind::Syntactic,
            gap: None,
        }
    }

    /// Whether the struct at node `i` has event abilities.
    fn event_abilities(&self, tree: &SyntaxTree, source: &SourceText, i: usize) -> (r: bool)
        requires
            i < tree@.len(),
        ensures
            r == has_event_abilities(tree@, source@, i as int),
    {
        let cs = tree.children(i);
        let mut has_copy = false;
        let mut has_drop = false;
        let mut has_key = false;
        let mut j: usize = 0;
        while j < cs.len()
            invariant
                i < tree@.len(),
                cs@ == tree@[i as int].children,
                forall|t: int| 0 <= t < cs@.len() ==> i < #[trigger] cs@[t] < tree@.len(),
                j <= cs@.len(),
                match last_child_of_kind(tree@, i as int, "ability_decls"@, j as int) {
                    None => !has_copy && !has_drop && !has_key,
                    Some(c) => {
                        let a = lowercase(node_text(tree@, source@, c));
                        has_copy == contains(a, "copy"@) && has_drop == contains(a, "drop"@) && has_key == contains(
                            a,
                            "key"@,
                        )
                    },
                },
            decreases cs.len() - j,
        {
            let c = cs[j];
            if tree.is_kind(c, "ability_decls") {
                let text = tree.text(source, c);
                let a = crate::text::to_lowercase(text.as_str());
                let (c1, d1, k1) = ability_mentions(a.as_str());
                has_copy = c1;
                has_drop = d1;
                has_key = k1;
            }
            j = j + 1;
        }
        has_copy && has_drop && !has_key
    }

    /// Reports event structs whose names lack the `Event` suffix.
    pub fn check(&self, tree: &SyntaxTree, source: &SourceText, ctx: &mut LintContext)
        ensures
            final(ctx)@ == findings_reported_at(
                old(ctx)@,
                tree@,
                |i: int| event_suffix_finding(tree@, source@, i),
                tree@.len() as int,
            ),
    {
        let mut i: usize = 0;
        while i < tree.len()
            invariant
                i <= tree@.len(),
                ctx@ == findings_reported_at(
                    old(ctx)@,
                    tree@,
                    |i: int| event_suffix_finding(tree@, source@, i),
                    i as int,
                ),
            decreases tree@.len() - i,
        {
            if tree.is_kind(i, "struct_definition") || tree.is_kind(i, "datatype_definition") {
                match tree.child_by_field_name(i, "name") {
                    None => {},
                    Some(n) => {
                        let text = tree.text(source, n);
                        let name = trim_str(text.as_str());
                        if self.event_abilities(tree, source, i) && !ends_with(name, "Event") && !ends_with(name, "ed") {
                            let lint = self.descriptor();
                            let mut msg = to_owned_string("Event struct `");
                            push_str(&mut msg, name);
                            push_str(&mut msg, "` should end with `Event` suffix (e.g., `");
                            push_str(&mut msg, name);
                            push_str(&mut msg, "Event`)");
                            ctx.report_node(tree, &lint, n, msg);
                        }
                    },
                }
            }
            i = i + 1;
        }
    }
}

} // verus!
