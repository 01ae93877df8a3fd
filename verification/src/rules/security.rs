//! Security lints drawn from published audits: patterns whose risk the
//! compiler cannot see.
use vstd::prelude::*;
use crate::context::{findings_reported_at, LintContext};
use crate::diagnostics::DiagView;
use crate::fixer::{decimal, push_decimal};
use crate::lint::{AnalysisKind, FixDescriptor, FixSafety, LintCategory, LintDescriptor, RuleGroup, TypeSystemGap};
use crate::rules::modernization::node_text;
use crate::rules::style::{count_from, plain_report};
use crate::rules::util::{is_test_only_module, test_only_child};
use crate::syntax::{field_child_from, text_of, NodeView, SourceText, SyntaxTree};
use crate::text::{
    byte_len, chars_of, contains, is_char_boundary, lowercase, push_str, str_contains, to_lowercase,
    to_owned_string, v_find_from,
};

verus! {

// ---------------------------------------------------------------------------
// Shared pieces
// ---------------------------------------------------------------------------
/// Every node's byte range lies inside the source: the trees the security
/// lints, which slice the source by node ranges, can read.
pub open spec fn ranges_within(ns: Seq<NodeView>, src: Seq<char>) -> bool {
    forall|i: int|
        0 <= i < ns.len() ==> #[trigger] ns[i].start_byte <= ns[i].end_byte && ns[i].end_byte <= byte_len(src)
}

/// Whether every node's byte range lies inside `source`.
pub fn ranges_fit(tree: &SyntaxTree, source: &str) -> (r: bool)
    ensures
        r == ranges_within(tree@, source@),
{
    let n = crate::text::byte_length(source);
    let mut i: usize = 0;
    while i < tree.len()
        invariant
            n == byte_len(source@),
            i <= tree@.len(),
            forall|k: int| 0 <= k < i ==> #[trigger] tree@[k].start_byte <= tree@[k].end_byte && tree@[k].end_byte <= n,
        decreases tree@.len() - i,
    {
        if !(tree.start_byte(i) <= tree.end_byte(i) && tree.end_byte(i) <= n) {
            return false;
        }
        i = i + 1;
    }
    true
}

/// The file's root marks it as test-only.
pub open spec fn test_only_file(ns: Seq<NodeView>, src: Seq<char>) -> bool {
    exists|j: int| 0 <= j < ns[0].children.len() && test_only_child(src, #[trigger] ns[ns[0].children[j] as int])
}

/// The text of function node `i`'s name, or `unknown` when it has none or
/// its range does not fall on char boundaries.
pub open spec fn name_or_unknown(ns: Seq<NodeView>, src: Seq<char>, i: int) -> Seq<char> {
    match field_child_from(ns, i, "name"@, 0) {
        None => "unknown"@,
        Some(n) => if is_char_boundary(src, ns[n as int].start_byte as int) && is_char_boundary(
            src,
            ns[n as int].end_byte as int,
        ) {
            node_text(ns, src, n as int)
        } else {
            "unknown"@
        },
    }
}

/// Number of non-overlapping occurrences of `p` in `text` (`str::matches(p).count()`).
pub fn count_matches(text: &str, p: &str) -> (r: usize)
    requires
        p@.len() > 0,
    ensures
        r == count_from(text@, p@, 0),
{
    let v = chars_of(text);
    let pv = chars_of(p);
    let n = pv.len();
    let mut count: usize = 0;
    let mut i: usize = 0;
    while i <= v.len()
        invariant
            v@ == text@,
            pv@ == p@,
            n == p@.len(),
            n > 0,
            count <= i,
            i <= v@.len() + 1,
            count_from(text@, p@, 0) == count + count_from(v@, pv@, i as int),
        decreases v.len() + 1 - i,
    {
        match v_find_from(&v, &pv, i) {
            None => {
                return count;
            },
            Some(k) => {
                proof {
                    crate::text::lemma_find_from_some(v@, pv@, i as int);
                }
                count = count + 1;
                i = k + n;
            },
        }
    }
    count
}

/// The name of function node `i`, or `unknown`.
fn function_name(tree: &SyntaxTree, source: &SourceText, i: usize) -> (r: String)
    requires
        i < tree@.len(),
    ensures
        r@ == name_or_unknown(tree@, source@, i as int),
{
    match tree.child_by_field_name(i, "name") {
        None => to_owned_string("unknown"),
        Some(n) => {
            if source.is_char_boundary(tree.start_byte(n)) && source.is_char_boundary(tree.end_byte(n)) {
                tree.text(source, n)
            } else {
                to_owned_string("unknown")
            }
        },
    }
}

// ---------------------------------------------------------------------------
// suspicious_overflow_check
// ---------------------------------------------------------------------------
pub open spec fn suspicious_overflow_check_descriptor() -> LintDescriptor {
    LintDescriptor {
        name: "suspicious_overflow_check",
        category: LintCategory::Security,
        description: "Manual overflow check detected - these are error-prone. Consider using built-in checked arithmetic (see Cetus $223M hack)",
        group: RuleGroup::Stable,
        fix: FixDescriptor { available: false, safety: FixSafety::Safe, description: "" },
        analysis: AnalysisKind::Syntactic,
        gap: Some(TypeSystemGap::ArithmeticSafety),
    }
}

/// A function name (lowercased) that suggests overflow or bounds checking.
pub open spec fn names_overflow_check(lower: Seq<char>) -> bool {
    ||| contains(lower, "checked_"@)
    ||| contains(lower, "safe_"@)
    ||| contains(lower, "_checked"@)
    ||| contains(lower, "_safe"@)
    ||| contains(lower, "overflow"@)
    ||| contains(lower, "underflow"@)
}

/// Whether a lowercased function name suggests overflow or bounds checking.
pub fn is_overflow_check_name(lower: &str) -> (b: bool)
    ensures
        b == names_overflow_check(lower@),
{
    str_contains(lower, "checked_") || str_contains(lower, "safe_") || str_contains(lower, "_checked")
        || str_contains(lower, "_safe") || str_contains(lower, "overflow") || str_contains(lower, "underflow")
}

/// A function text with bit shifts, comparisons and hex constants.
pub open spec fn shifts_and_compares(t: Seq<char>) -> bool {
    &&& (contains(t, "<<"@) || contains(t, ">>"@))
    &&& (contains(t, " > "@) || contains(t, " >= "@) || contains(t, " < "@) || contains(t, " <= "@))
    &&& contains(t, "0x"@)
}

/// What `suspicious_overflow_check` reports at node `i`.
pub open spec fn suspicious_overflow_check_finding(ns: Seq<NodeView>, src: Seq<char>, i: int) -> Option<(int, DiagView)> {
    if !(0 <= i < ns.len()) || ns[i].kind != "function_definition"@ {
        None
    } else {
        match field_child_from(ns, i, "name"@, 0) {
            None => None,
            Some(n) => {
                let fname = node_text(ns, src, n as int);
                if names_overflow_check(lowercase(fname)) && shifts_and_compares(node_text(ns, src, i)) {
                    Some(
                        plain_report(
                            suspicious_overflow_check_descriptor(),
                            ns,
                            i,
                            "Function `"@ + fname
                                + "` appears to implement manual overflow checking with bit shifts. Manual overflow checks are error-prone (see Cetus $223M hack). Consider: 1) Using built-in checked arithmetic, 2) Adding extensive tests, 3) Getting this code audited."@,
                        ),
                    )
                } else {
                    None
                }
            },
        }
    }
}

/// Flags hand-written overflow checks built from shifts and comparisons.
pub struct SuspiciousOverflowCheckLint;

impl SuspiciousOverflowCheckLint {
    pub fn descriptor(&self) -> (r: LintDescriptor)
        ensures
            r == suspicious_overflow_check_descriptor(),
    {
        LintDescriptor {
            name: "suspicious_overflow_check",
            category: LintCategory::Security,
            description: "Manual overflow check detected - these are error-prone. Consider using built-in checked arithmetic (see Cetus $223M hack)",
            group: RuleGroup::Stable,
            fix: FixDescriptor { available: false, safety: FixSafety::Safe, description: "" },
            analysis: AnalysisKind::Syntactic,
            gap: Some(TypeSystemGap::ArithmeticSafety),
        }
    }

    /// Reports functions named like overflow checks that shift, compare and use hex constants.
    pub fn check(&self, tree: &SyntaxTree, source: &SourceText, ctx: &mut LintContext)
        requires
            ranges_within(tree@, source@),
        ensures
            final(ctx)@ == findings_reported_at(
                old(ctx)@,
                tree@,
                |i: int| suspicious_overflow_check_finding(tree@, source@, i),
                tree@.len() as int,
            ),
    {
        let mut i: usize = 0;
        while i < tree.len()
            invariant
                i <= tree@.len(),
                ctx@ == findings_reported_at(
                    old(ctx)@,
                    tree@,
                    |i: int| suspicious_overflow_check_finding(tree@, source@, i),
                    i as int,
                ),
            decreases tree@.len() - i,
        {
            if tree.is_kind(i, "function_definition") {
                match tree.child_by_field_name(i, "name") {
                    None => {},
                    Some(n) => {
                        let fname = tree.text(source, n);
                        let lower = to_lowercase(fname.as_str());
                        let is_overflow_fn = is_overflow_check_name(lower.as_str());
                        if is_overflow_fn {
                            let text = tree.text(source, i);
                            let t = text.as_str();
                            let shifts = str_contains(t, "<<") || str_contains(t, ">>");
                            let compares = str_contains(t, " > ") || str_contains(t, " >= ") || str_contains(t, " < ")
                                || str_contains(t, " <= ");
                            let hex = str_contains(t, "0x");
                            if shifts && compares && hex {
                                let lint = self.descriptor();
                                let mut msg = to_owned_string("Function `");
                                push_str(&mut msg, fname.as_str());
                                push_str(
                                    &mut msg,
                                    "` appears to implement manual overflow checking with bit shifts. Manual overflow checks are error-prone (see Cetus $223M hack). Consider: 1) Using built-in checked arithmetic, 2) Adding extensive tests, 3) Getting this code audited.",
                                );
                                ctx.report_node(tree, &lint, i, msg);
                            }
                        }
                    },
                }
            }
            i = i + 1;
        }
    }
}

// ---------------------------------------------------------------------------
// fresh_address_reuse
// ---------------------------------------------------------------------------
pub open spec fn fresh_address_reuse_descriptor() -> LintDescriptor {
    LintDescriptor {
        name: "fresh_address_reuse",
        category: LintCategory::Security,
        description: "fresh_object_address result appears to be reused - each UID needs a fresh address (needs usage tracking for low FP)",
        group: RuleGroup::Experimental,
        fix: FixDescriptor { available: false, safety: FixSafety::Safe, description: "" },
        analysis: AnalysisKind::Syntactic,
        gap: Some(TypeSystemGap::OwnershipViolation),
    }
}

/// What `fresh_address_reuse` reports at node `i`.
pub open spec fn fresh_address_reuse_finding(ns: Seq<NodeView>, src: Seq<char>, i: int) -> Option<(int, DiagView)> {
    if !(0 <= i < ns.len()) || ns[i].kind != "function_definition"@ {
        None
    } else {
        let t = node_text(ns, src, i);
        let uids = count_from(t, "new_uid_from_address"@, 0);
        let fresh = count_from(t, "fresh_object_address"@, 0);
        if contains(t, "fresh_object_address"@) && uids > fresh {
            Some(
                plain_report(
                    fresh_address_reuse_descriptor(),
                    ns,
                    i,
                    "Function `"@ + name_or_unknown(ns, src, i) + "` has "@ + decimal(uids) + " `new_uid_from_address` calls but only "@
                        + decimal(fresh)
                        + " `fresh_object_address` calls. Each UID needs its own fresh address. Consider using `object::new(ctx)` which handles this internally."@,
                ),
            )
        } else {
            None
        }
    }
}

/// Flags functions that create more UIDs from addresses than they make fresh addresses.
pub struct FreshAddressReuseLint;

impl FreshAddressReuseLint {
    pub fn descriptor(&self) -> (r: LintDescriptor)
        ensures
            r == fresh_address_reuse_descriptor(),
    {
        LintDescriptor {
            name: "fresh_address_reuse",
            category: LintCategory::Security,
            description: "fresh_object_address result appears to be reused - each UID needs a fresh address (needs usage tracking for low FP)",
            group: RuleGroup::Experimental,
            fix: FixDescriptor { available: false, safety: FixSafety::Safe, description: "" },
            analysis: AnalysisKind::Syntactic,
            gap: Some(TypeSystemGap::OwnershipViolation),
        }
    }

    /// Reports functions with more `new_uid_from_address` than `fresh_object_address` calls.
    pub fn check(&self, tree: &SyntaxTree, source: &SourceText, ctx: &mut LintContext)
        requires
            ranges_within(tree@, source@),
        ensures
            final(ctx)@ == findings_reported_at(
                old(ctx)@,
                tree@,
                |i: int| fresh_address_reuse_finding(tree@, source@, i),
                tree@.len() as int,
            ),
    {
        proof {
            reveal_strlit("new_uid_from_address");
            reveal_strlit("fresh_object_address");
            assert("new_uid_from_address"@.len() == 20);
            assert("fresh_object_address"@.len() == 20);
        }
        let mut i: usize = 0;
        while i < tree.len()
            invariant
                i <= tree@.len(),
                "new_uid_from_address"@.len() == 20,
                "fresh_object_address"@.len() == 20,
                ctx@ == findings_reported_at(
                    old(ctx)@,
                    tree@,
                    |i: int| fresh_address_reuse_finding(tree@, source@, i),
                    i as int,
                ),
            decreases tree@.len() - i,
        {
            if tree.is_kind(i, "function_definition") {
                let text = tree.text(source, i);
                let t = text.as_str();
                if str_contains(t, "fresh_object_address") {
                    let uids = count_matches(t, "new_uid_from_address");
                    let fresh = count_matches(t, "fresh_object_address");
                    if uids > fresh {
                        let lint = self.descriptor();
                        let name = function_name(tree, source, i);
                        let mut msg = to_owned_string("Function `");
                        push_str(&mut msg, name.as_str());
                        push_str(&mut msg, "` has ");
                        push_decimal(&mut msg, uids);
                        push_str(&mut msg, " `new_uid_from_address` calls but only ");
                        push_decimal(&mut msg, fresh);
                        push_str(
                            &mut msg,
                            " `fresh_object_address` calls. Each UID needs its own fresh address. Consider using `object::new(ctx)` which handles this internally.",
                        );
                        ctx.report_node(tree, &lint, i, msg);
                    }
                }
            }
            i = i + 1;
        }
    }
}

// ---------------------------------------------------------------------------
// suggest_capability_pattern
// ---------------------------------------------------------------------------
pub open spec fn suggest_capability_pattern_descriptor() -> LintDescriptor {
    LintDescriptor {
        name: "suggest_capability_pattern",
        category: LintCategory::Security,
        description: "Address-based authorization detected - consider using capability pattern for safer access control",
        group: RuleGroup::Experimental,
        fix: FixDescriptor { available: false, safety: FixSafety::Safe, description: "" },
        analysis: AnalysisKind::Syntactic,
        gap: Some(TypeSystemGap::CapabilityEscape),
    }
}

/// The text compares the transaction sender with something.
pub open spec fn is_sender_address_check(t: Seq<char>) -> bool {
    (contains(t, "sender("@) || contains(t, "tx_context::sender("@)) && (contains(t, " == "@) || contains(t, " != "@))
}

/// The message for an `assert!` on the sender: what kind of address it is
/// compared with, and what to do instead.
pub open spec fn address_check_message(t: Seq<char>) -> Seq<char> {
    if contains(t, "== @"@) || contains(t, "!= @"@) {
        "Hardcoded address comparison detected - this is fragile and non-transferable. Consider using capability pattern: add a capability struct (e.g., `AdminCap`) and require `_cap: &AdminCap` parameter instead of checking sender address."@
    } else if contains(t, ".admin"@) || contains(t, ".owner"@) || contains(t, ".creator"@) {
        "Stored address comparison detected for authorization. While checking against a stored address is better than hardcoded, capability pattern is still preferred. Consider storing an AdminCap in the owner's account instead of an address in your shared object."@
    } else {
        "Address-based authorization detected. Consider using capability pattern: define a capability struct with `key, store` abilities and require it as a parameter for privileged operations."@
    }
}

pub open spec fn if_address_check_message() -> Seq<char> {
    "Address-based authorization in if-condition. Consider using capability pattern: replace address check with a capability parameter like `_cap: &AdminCap`."@
}

/// What `suggest_capability_pattern` reports at node `i`.
pub open spec fn suggest_capability_pattern_finding(ns: Seq<NodeView>, src: Seq<char>, i: int) -> Option<(int, DiagView)> {
    if !(0 <= i < ns.len()) || test_only_file(ns, src) {
        None
    } else {
        let t = node_text(ns, src, i);
        if (ns[i].kind == "macro_call_expression"@ || ns[i].kind == "call_expression"@) && contains(t, "assert!"@)
            && is_sender_address_check(t) && !contains(t, "@0x0"@) {
            Some(plain_report(suggest_capability_pattern_descriptor(), ns, i, address_check_message(t)))
        } else if ns[i].kind == "if_expression"@ && is_sender_address_check(t) && (contains(t, "abort"@) || contains(
            t,
            "return"@,
        )) && !contains(t, "@0x0"@) {
            Some(plain_report(suggest_capability_pattern_descriptor(), ns, i, if_address_check_message()))
        } else {
            None
        }
    }
}

fn sender_address_check(t: &str) -> (r: bool)
    ensures
        r == is_sender_address_check(t@),
{
    (str_contains(t, "sender(") || str_contains(t, "tx_context::sender(")) && (str_contains(t, " == ") || str_contains(t, " != "))
}

fn classify_address_check(t: &str) -> (r: &'static str)
    ensures
        r@ == address_check_message(t@),
{
    if str_contains(t, "== @") || str_contains(t, "!= @") {
        "Hardcoded address comparison detected - this is fragile and non-transferable. Consider using capability pattern: add a capability struct (e.g., `AdminCap`) and require `_cap: &AdminCap` parameter instead of checking sender address."
    } else if str_contains(t, ".admin") || str_contains(t, ".owner") || str_contains(t, ".creator") {
        "Stored address comparison detected for authorization. While checking against a stored address is better than hardcoded, capability pattern is still preferred. Consider storing an AdminCap in the owner's account instead of an address in your shared object."
    } else {
        "Address-based authorization detected. Consider using capability pattern: define a capability struct with `key, store` abilities and require it as a parameter for privileged operations."
    }
}

/// Suggests capabilities in place of checks of the sender's address.
pub struct SuggestCapabilityPatternLint;

impl SuggestCapabilityPatternLint {
    pub fn descriptor(&self) -> (r: LintDescriptor)
        ensures
            r == suggest_capability_pattern_descriptor(),
    {
        LintDescriptor {
            name: "suggest_capability_pattern",
            category: LintCategory::Security,
            description: "Address-based authorization detected - consider using capability pattern for safer access control",
            group: RuleGroup::Experimental,
            fix: FixDescriptor { available: false, safety: FixSafety::Safe, description: "" },
            analysis: AnalysisKind::Syntactic,
            gap: Some(TypeSystemGap::CapabilityEscape),
        }
    }

    /// Reports sender-address checks in `assert!`s and `if`s outside test modules.
    pub fn check(&self, tree: &SyntaxTree, source: &SourceText, ctx: &mut LintContext)
        requires
            ranges_within(tree@, source@),
        ensures
            final(ctx)@ == findings_reported_at(
                old(ctx)@,
                tree@,
                |i: int| suggest_capability_pattern_finding(tree@, source@, i),
                tree@.len() as int,
            ),
    {
        let test_only = is_test_only_module(tree, source);
        let lint = self.descriptor();
        let mut i: usize = 0;
        while i < tree.len()
            invariant
                i <= tree@.len(),
                lint == suggest_capability_pattern_descriptor(),
                test_only == test_only_file(tree@, source@),
                ctx@ == findings_reported_at(
                    old(ctx)@,
                    tree@,
                    |i: int| suggest_capability_pattern_finding(tree@, source@, i),
                    i as int,
                ),
            decreases tree@.len() - i,
        {
            if !test_only {
                let text = tree.text(source, i);
                let t = text.as_str();
                if (tree.is_kind(i, "macro_call_expression") || tree.is_kind(i, "call_expression")) && str_contains(t, "assert!")
                    && sender_address_check(t) && !str_contains(t, "@0x0") {
                    ctx.report_node(tree, &lint, i, to_owned_string(classify_address_check(t)));
                } else if tree.is_kind(i, "if_expression") && sender_address_check(t) && (str_contains(t, "abort")
                    || str_contains(t, "return")) && !str_contains(t, "@0x0") {
                    ctx.report_node(
                        tree,
                        &lint,
                        i,
                        to_owned_string(
                            "Address-based authorization in if-condition. Consider using capability pattern: replace address check with a capability parameter like `_cap: &AdminCap`.",
                        ),
                    );
                }
            }
            i = i + 1;
        }
    }
}

// ---------------------------------------------------------------------------
// suggest_sequenced_witness
// ---------------------------------------------------------------------------
pub open spec fn suggest_sequenced_witness_descriptor() -> LintDescriptor {
    LintDescriptor {
        name: "suggest_sequenced_witness",
        category: LintCategory::Security,
        description: "Boolean state flag detected - consider using sequenced witness pattern for compile-time ordering enforcement",
        group: RuleGroup::Experimental,
        fix: FixDescriptor { available: false, safety: FixSafety::Safe, description: "" },
        analysis: AnalysisKind::Syntactic,
        gap: Some(TypeSystemGap::TemporalOrdering),
    }
}

/// The text names a field like a state flag.
pub open spec fn has_state_flag_name(t: Seq<char>) -> bool {
    ||| contains(t, "_complete"@)
    ||| contains(t, "_done"@)
    ||| contains(t, "_finished"@)
    ||| contains(t, "_initialized"@)
    ||| contains(t, "_started"@)
    ||| contains(t, "_pending"@)
    ||| contains(t, "is_active"@)
    ||| contains(t, "is_paused"@)
    ||| contains(t, "is_locked"@)
    ||| contains(t, "has_"@)
    ||| contains(t, "step_"@)
}

/// What kind of state the flags of a struct text track.
pub open spec fn state_flag_hint(t: Seq<char>) -> Seq<char> {
    if contains(t, "_complete"@) {
        "completion tracking"@
    } else if contains(t, "_initialized"@) || contains(t, "_started"@) {
        "initialization tracking"@
    } else if contains(t, "step_"@) {
        "step sequencing"@
    } else {
        "state tracking"@
    }
}

/// What `suggest_sequenced_witness` reports at node `i`.
pub open spec fn suggest_sequenced_witness_finding(ns: Seq<NodeView>, src: Seq<char>, i: int) -> Option<(int, DiagView)> {
    if !(0 <= i < ns.len()) || test_only_file(ns, src) || ns[i].kind != "struct_definition"@ {
        None
    } else {
        let t = node_text(ns, src, i);
        if has_state_flag_name(t) && contains(t, ": bool"@) {
            Some(
                plain_report(
                    suggest_sequenced_witness_descriptor(),
                    ns,
                    i,
                    "Boolean field detected for "@ + state_flag_hint(t)
                        + ". Consider using sequenced witness pattern: return a proof struct from each step that the next step requires as a parameter. This enforces ordering at compile time instead of runtime."@,
                ),
            )
        } else {
            None
        }
    }
}

fn state_flag_name(t: &str) -> (r: bool)
    ensures
        r == has_state_flag_name(t@),
{
    str_contains(t, "_complete") || str_contains(t, "_done") || str_contains(t, "_finished") || str_contains(
        t,
        "_initialized",
    ) || str_contains(t, "_started") || str_contains(t, "_pending") || str_contains(t, "is_active") || str_contains(
        t,
        "is_paused",
    ) || str_contains(t, "is_locked") || str_contains(t, "has_") || str_contains(t, "step_")
}

fn flag_hint(t: &str) -> (r: &'static str)
    ensures
        r@ == state_flag_hint(t@),
{
    if str_contains(t, "_complete") {
        "completion tracking"
    } else if str_contains(t, "_initialized") || str_contains(t, "_started") {
        "initialization tracking"
    } else if str_contains(t, "step_") {
        "step sequencing"
    } else {
        "state tracking"
    }
}

/// Suggests proof types in place of boolean step flags.
pub struct SuggestSequencedWitnessLint;

impl SuggestSequencedWitnessLint {
    pub fn descriptor(&self) -> (r: LintDescriptor)
        ensures
            r == suggest_sequenced_witness_descriptor(),
    {
        LintDescriptor {
            name: "suggest_sequenced_witness",
            category: LintCategory::Security,
            description: "Boolean state flag detected - consider using sequenced witness pattern for compile-time ordering enforcement",
            group: RuleGroup::Experimental,
            fix: FixDescriptor { available: false, safety: FixSafety::Safe, description: "" },
            analysis: AnalysisKind::Syntactic,
            gap: Some(TypeSystemGap::TemporalOrdering),
        }
    }

    /// Reports structs with boolean fields named like state flags.
    pub fn check(&self, tree: &SyntaxTree, source: &SourceText, ctx: &mut LintContext)
        requires
            ranges_within(tree@, source@),
        ensures
            final(ctx)@ == findings_reported_at(
                old(ctx)@,
                tree@,
                |i: int| suggest_sequenced_witness_finding(tree@, source@, i),
                tree@.len() as int,
            ),
    {
        let test_only = is_test_only_module(tree, source);
        let lint = self.descriptor();
        let mut i: usize = 0;
        while i < tree.len()
            invariant
                i <= tree@.len(),
                lint == suggest_sequenced_witness_descriptor(),
                test_only == test_only_file(tree@, source@),
                ctx@ == findings_reported_at(
                    old(ctx)@,
                    tree@,
                    |i: int| suggest_sequenced_witness_finding(tree@, source@, i),
                    i as int,
                ),
            decreases tree@.len() - i,
        {
            if !test_only && tree.is_kind(i, "struct_definition") {
                let text = tree.text(source, i);
                let t = text.as_str();
                if state_flag_name(t) && str_contains(t, ": bool") {
                    let mut msg = to_owned_string("Boolean field detected for ");
                    push_str(&mut msg, flag_hint(t));
                    push_str(
                        &mut msg,
                        ". Consider using sequenced witness pattern: return a proof struct from each step that the next step requires as a parameter. This enforces ordering at compile time instead of runtime.",
                    );
                    ctx.report_node(tree, &lint, i, msg);
                }
            }
            i = i + 1;
        }
    }
}

// ---------------------------------------------------------------------------
// suggest_counted_capability
// ---------------------------------------------------------------------------
pub open spec fn suggest_counted_capability_descriptor() -> LintDescriptor {
    LintDescriptor {
        name: "suggest_counted_capability",
        category: LintCategory::Security,
        description: "Counter-based supply limiting detected - consider using counted capability pattern for linearity-enforced scarcity",
        group: RuleGroup::Experimental,
        fix: FixDescriptor { available: false, safety: FixSafety::Safe, description: "" },
        analysis: AnalysisKind::Syntactic,
        gap: Some(TypeSystemGap::ValueFlow),
    }
}

/// A lowercased function text that counts what it mints.
pub open spec fn has_counter_name(lower: Seq<char>) -> bool {
    ||| contains(lower, "minted"@)
    ||| contains(lower, "total_minted"@)
    ||| contains(lower, "mint_count"@)
    ||| contains(lower, "supply_count"@)
    ||| contains(lower, "num_minted"@)
}

/// A lowercased function text that names a supply limit.
pub open spec fn has_max_name(lower: Seq<char>) -> bool {
    ||| contains(lower, "max_supply"@)
    ||| contains(lower, "max_mint"@)
    ||| contains(lower, "supply_limit"@)
    ||| contains(lower, "mint_limit"@)
    ||| contains(lower, "cap"@)
}

/// Whether a lowercased function text counts what it mints.
pub fn counts_mints(lower: &str) -> (b: bool)
    ensures
        b == has_counter_name(lower@),
{
    str_contains(lower, "minted") || str_contains(lower, "total_minted") || str_contains(lower, "mint_count")
        || str_contains(lower, "supply_count") || str_contains(lower, "num_minted")
}

/// Whether a lowercased function text names a supply limit.
pub fn names_supply_limit(lower: &str) -> (b: bool)
    ensures
        b == has_max_name(lower@),
{
    str_contains(lower, "max_supply") || str_contains(lower, "max_mint") || str_contains(lower, "supply_limit")
        || str_contains(lower, "mint_limit") || str_contains(lower, "cap")
}

/// What `suggest_counted_capability` reports at node `i`.
pub open spec fn suggest_counted_capability_finding(ns: Seq<NodeView>, src: Seq<char>, i: int) -> Option<(int, DiagView)> {
    if !(0 <= i < ns.len()) || test_only_file(ns, src) || ns[i].kind != "function_definition"@ {
        None
    } else {
        let t = node_text(ns, src, i);
        let lower = lowercase(t);
        if has_counter_name(lower) && has_max_name(lower) && (contains(t, "+ 1"@) || contains(t, "+= 1"@)) && (contains(
            t,
            " < "@,
        ) || contains(t, " <= "@)) {
            Some(
                plain_report(
                    suggest_counted_capability_descriptor(),
                    ns,
                    i,
                    "Function `"@ + name_or_unknown(ns, src, i)
                        + "` uses counter-based supply limiting. Consider using counted capability pattern: create a fixed number of 'ticket' objects at init, and require consuming one to mint. This enforces scarcity through Move's linearity rather than runtime checks."@,
                ),
            )
        } else {
            None
        }
    }
}

/// Suggests consumable tickets in place of a mint counter and a limit.
pub struct SuggestCountedCapabilityLint;

impl SuggestCountedCapabilityLint {
    pub fn descriptor(&self) -> (r: LintDescriptor)
        ensures
            r == suggest_counted_capability_descriptor(),
    {
        LintDescriptor {
            name: "suggest_counted_capability",
            category: LintCategory::Security,
            description: "Counter-based supply limiting detected - consider using counted capability pattern for linearity-enforced scarcity",
            group: RuleGroup::Experimental,
            fix: FixDescriptor { available: false, safety: FixSafety::Safe, description: "" },
            analysis: AnalysisKind::Syntactic,
            gap: Some(TypeSystemGap::ValueFlow),
        }
    }

    /// Reports functions that count mints against a limit.
    pub fn check(&self, tree: &SyntaxTree, source: &SourceText, ctx: &mut LintContext)
        requires
            ranges_within(tree@, source@),
        ensures
            final(ctx)@ == findings_reported_at(
                old(ctx)@,
                tree@,
                |i: int| suggest_counted_capability_finding(tree@, source@, i),
                tree@.len() as int,
            ),
    {
        let test_only = is_test_only_module(tree, source);
        let lint = self.descriptor();
        let mut i: usize = 0;
        while i < tree.len()
            invariant
                i <= tree@.len(),
                lint == suggest_counted_capability_descriptor(),
                test_only == test_only_file(tree@, source@),
                ctx@ == findings_reported_at(
                    old(ctx)@,
                    tree@,
                    |i: int| suggest_counted_capability_finding(tree@, source@, i),
                    i as int,
                ),
            decreases tree@.len() - i,
        {
            if !test_only && tree.is_kind(i, "function_definition") {
                let text = tree.text(source, i);
                let t = text.as_str();
                let lower = to_lowercase(t);
                let counter = counts_mints(lower.as_str());
                let max = names_supply_limit(lower.as_str());
                let inc = str_contains(t, "+ 1") || str_contains(t, "+= 1");
                let compares = str_contains(t, " < ") || str_contains(t, " <= ");
                if counter && max && inc && compares {
                    let name = function_name(tree, source, i);
                    let mut msg = to_owned_string("Function `");
                    push_str(&mut msg, name.as_str());
                    push_str(
                        &mut msg,
                        "` uses counter-based supply limiting. Consider using counted capability pattern: create a fixed number of 'ticket' objects at init, and require consuming one to mint. This enforces scarcity through Move's linearity rather than runtime checks.",
                    );
                    ctx.report_node(tree, &lint, i, msg);
                }
            }
            i = i + 1;
        }
    }
}

// ---------------------------------------------------------------------------
// suggest_balanced_receipt
// ---------------------------------------------------------------------------
pub open spec fn suggest_balanced_receipt_descriptor() -> LintDescriptor {
    LintDescriptor {
        name: "suggest_balanced_receipt",
        category: LintCategory::Security,
        description: "Bookend invariant check detected - consider using balanced receipt (hot potato) pattern for compiler-enforced verification",
        group: RuleGroup::Experimental,
        fix: FixDescriptor { available: false, safety: FixSafety::Safe, description: "" },
        analysis: AnalysisKind::Syntactic,
        gap: Some(TypeSystemGap::TemporalOrdering),
    }
}

/// A function text that compares a quantity before and after its work.
pub open spec fn has_bookend_check(t: Seq<char>) -> bool {
    &&& contains(t, "_before"@) || contains(t, "before_"@)
    &&& contains(t, "_after"@) || contains(t, "after_"@)
    &&& contains(t, "assert!"@)
    &&& {
        ||| contains(t, "k_before"@)
        ||| contains(t, "k_after"@)
        ||| contains(t, "balance_before"@)
        ||| contains(t, "balance_after"@)
        ||| contains(t, "reserve_before"@)
        ||| contains(t, "reserve_after"@)
        ||| contains(t, "value_before"@)
        ||| contains(t, "value_after"@)
    }
}

/// What `suggest_balanced_receipt` reports at node `i`.
pub open spec fn suggest_balanced_receipt_finding(ns: Seq<NodeView>, src: Seq<char>, i: int) -> Option<(int, DiagView)> {
    if !(0 <= i < ns.len()) || test_only_file(ns, src) || ns[i].kind != "function_definition"@ {
        None
    } else if has_bookend_check(node_text(ns, src, i)) {
        Some(
            plain_report(
                suggest_balanced_receipt_descriptor(),
                ns,
                i,
                "Function `"@ + name_or_unknown(ns, src, i)
                    + "` uses bookend invariant checking (before/after pattern). Consider using balanced receipt pattern: create a hot potato receipt at the start that accumulates values and MUST be verified at completion. This makes the verification compiler-enforced rather than developer-remembered."@,
            ),
        )
    } else {
        None
    }
}

fn bookend_check(t: &str) -> (r: bool)
    ensures
        r == has_bookend_check(t@),
{
    let before = str_contains(t, "_before") || str_contains(t, "before_");
    let after = str_contains(t, "_after") || str_contains(t, "after_");
    let asserts = str_contains(t, "assert!");
    if before && after && asserts {
        str_contains(t, "k_before") || str_contains(t, "k_after") || str_contains(t, "balance_before") || str_contains(
            t,
            "balance_after",
        ) || str_contains(t, "reserve_before") || str_contains(t, "reserve_after") || str_contains(t, "value_before")
            || str_contains(t, "value_after")
    } else {
        false
    }
}

/// Suggests a hot-potato receipt in place of before/after invariant checks.
pub struct SuggestBalancedReceiptLint;

impl SuggestBalancedReceiptLint {
    pub fn descriptor(&self) -> (r: LintDescriptor)
        ensures
            r == suggest_balanced_receipt_descriptor(),
    {
        LintDescriptor {
            name: "suggest_balanced_receipt",
            category: LintCategory::Security,
            description: "Bookend invariant check detected - consider using balanced receipt (hot potato) pattern for compiler-enforced verification",
            group: RuleGroup::Experimental,
            fix: FixDescriptor { available: false, safety: FixSafety::Safe, description: "" },
            analysis: AnalysisKind::Syntactic,
            gap: Some(TypeSystemGap::TemporalOrdering),
        }
    }

    /// Reports functions that assert an invariant between before/after values.
    pub fn check(&self, tree: &SyntaxTree, source: &SourceText, ctx: &mut LintContext)
        requires
            ranges_within(tree@, source@),
        ensures
            final(ctx)@ == findings_reported_at(
                old(ctx)@,
                tree@,
                |i: int| suggest_balanced_receipt_finding(tree@, source@, i),
                tree@.len() as int,
            ),
    {
        let test_only = is_test_only_module(tree, source);
        let lint = self.descriptor();
        let mut i: usize = 0;
        while i < tree.len()
            invariant
                i <= tree@.len(),
                lint == suggest_balanced_receipt_descriptor(),
                test_only == test_only_file(tree@, source@),
                ctx@ == findings_reported_at(
                    old(ctx)@,
                    tree@,
                    |i: int| suggest_balanced_receipt_finding(tree@, source@, i),
                    i as int,
                ),
            decreases tree@.len() - i,
        {
            if !test_only && tree.is_kind(i, "function_definition") {
                let text = tree.text(source, i);
                if bookend_check(text.as_str()) {
                    let name = function_name(tree, source, i);
                    let mut msg = to_owned_string("Function `");
                    push_str(&mut msg, name.as_str());
                    push_str(
                        &mut msg,
                        "` uses bookend invariant checking (before/after pattern). Consider using balanced receipt pattern: create a hot potato receipt at the start that accumulates values and MUST be verified at completion. This makes the verification compiler-enforced rather than developer-remembered.",
                    );
                    ctx.report_node(tree, &lint, i, msg);
                }
            }
            i = i + 1;
        }
    }
}

} // verus!
