//! The registry of syntactic lint rules and the engine that runs them over a
//! parsed file.
use vstd::prelude::*;
use crate::context::{context_ok, readable_source, ContextView, LintContext};
use crate::diagnostics::{diag_views, DiagView, Diagnostic};
use crate::lint::{
    canonical, is_lint_alias, resolve_lint_alias, LintDescriptor, LintSettings, RuleGroup,
};
use crate::names::{string_views, NameSet};
use crate::rules::modernization::{
    equality_in_assert_descriptor, equality_in_assert_finding, modern_method_syntax_descriptor,
    modern_method_syntax_finding, modern_module_syntax_descriptor, modern_module_syntax_finding,
    prefer_vector_methods_descriptor, prefer_vector_methods_finding, EqualityInAssertLint,
    ModernMethodSyntaxLint, ModernModuleSyntaxLint, PreferVectorMethodsLint,
};
use crate::rules::style::{prefer_to_string_descriptor, prefer_to_string_finding, PreferToStringLint};
use crate::rules::style::{explicit_self_assignments_descriptor, explicit_self_assignments_finding, ExplicitSelfAssignmentsLint};
use crate::rules::style::{constant_naming_descriptor, constant_naming_finding, ConstantNamingLint};
use crate::rules::style::{redundant_self_import_descriptor, redundant_self_import_finding, RedundantSelfImportLint};
use crate::rules::style::{doc_comment_style_descriptor, doc_comment_style_finding, DocCommentStyleLint};
use crate::rules::style::{abilities_order_descriptor, abilities_order_findings, AbilitiesOrderLint};
use crate::rules::style::{empty_vector_literal_descriptor, empty_vector_literal_finding, empty_vector_calls_bounded, EmptyVectorLiteralLint};
use crate::rules::style::{typed_abort_code_descriptor, typed_abort_code_finding, TypedAbortCodeLint};
use crate::rules::style::{unneeded_return_descriptor, unneeded_return_effect, UnneededReturnLint};
use crate::rules::conventions::{admin_cap_position_descriptor, admin_cap_position_finding, AdminCapPositionLint};
use crate::rules::test_quality::{merge_test_attributes_descriptor, merge_test_attributes_effect, MergeTestAttributesLint};
use crate::rules::modernization::{manual_option_check_descriptor, manual_option_check_finding, ManualOptionCheckLint};
use crate::rules::modernization::{manual_loop_iteration_descriptor, manual_loop_iteration_finding, ManualLoopIterationLint};
use crate::rules::security::{suspicious_overflow_check_descriptor, suspicious_overflow_check_finding, SuspiciousOverflowCheckLint};
use crate::rules::security::{fresh_address_reuse_descriptor, fresh_address_reuse_finding, FreshAddressReuseLint};
use crate::rules::security::{suggest_capability_pattern_descriptor, suggest_capability_pattern_finding, SuggestCapabilityPatternLint};
use crate::rules::security::{suggest_sequenced_witness_descriptor, suggest_sequenced_witness_finding, SuggestSequencedWitnessLint};
use crate::rules::security::{suggest_counted_capability_descriptor, suggest_counted_capability_finding, SuggestCountedCapabilityLint};
use crate::rules::security::{suggest_balanced_receipt_descriptor, suggest_balanced_receipt_finding, SuggestBalancedReceiptLint};
use crate::syntax::{NodeView, SourceText, SyntaxTree};
use crate::text::{push_str, str_eq, to_owned_string};

verus! {

/// A syntactic lint rule.
#[derive(Debug, Clone, Copy, PartialEq, Eq, Structural)]
pub enum RuleKind {
    EqualityInAssert,
    ModernModuleSyntax,
    PreferVectorMethods,
    ModernMethodSyntax,
    PreferToString,
    ExplicitSelfAssignments,
    ConstantNaming,
    RedundantSelfImport,
    DocCommentStyle,
    AbilitiesOrder,
    EmptyVectorLiteral,
    TypedAbortCode,
    UnneededReturn,
    AdminCapPosition,
    MergeTestAttributes,
    ManualOptionCheck,
    ManualLoopIteration,
    SuspiciousOverflowCheck,
    FreshAddressReuse,
    SuggestCapabilityPattern,
    SuggestSequencedWitness,
    SuggestCountedCapability,
    SuggestBalancedReceipt,
}

/// The descriptor of a rule.
pub open spec fn rule_descriptor(k: RuleKind) -> LintDescriptor {
    match k {
        RuleKind::EqualityInAssert => equality_in_assert_descriptor(),
        RuleKind::ModernModuleSyntax => modern_module_syntax_descriptor(),
        RuleKind::PreferVectorMethods => prefer_vector_methods_descriptor(),
        RuleKind::ModernMethodSyntax => modern_method_syntax_descriptor(),
        RuleKind::PreferToString => prefer_to_string_descriptor(),
        RuleKind::ExplicitSelfAssignments => explicit_self_assignments_descriptor(),
        RuleKind::ConstantNaming => constant_naming_descriptor(),
        RuleKind::RedundantSelfImport => redundant_self_import_descriptor(),
        RuleKind::DocCommentStyle => doc_comment_style_descriptor(),
        RuleKind::AbilitiesOrder => abilities_order_descriptor(),
        RuleKind::EmptyVectorLiteral => empty_vector_literal_descriptor(),
        RuleKind::TypedAbortCode => typed_abort_code_descriptor(),
        RuleKind::UnneededReturn => unneeded_return_descriptor(),
        RuleKind::AdminCapPosition => admin_cap_position_descriptor(),
        RuleKind::MergeTestAttributes => merge_test_attributes_descriptor(),
        RuleKind::ManualOptionCheck => manual_option_check_descriptor(),
        RuleKind::ManualLoopIteration => manual_loop_iteration_descriptor(),
        RuleKind::SuspiciousOverflowCheck => suspicious_overflow_check_descriptor(),
        RuleKind::FreshAddressReuse => fresh_address_reuse_descriptor(),
        RuleKind::SuggestCapabilityPattern => suggest_capability_pattern_descriptor(),
        RuleKind::SuggestSequencedWitness => suggest_sequenced_witness_descriptor(),
        RuleKind::SuggestCountedCapability => suggest_counted_capability_descriptor(),
        RuleKind::SuggestBalancedReceipt => suggest_balanced_receipt_descriptor(),
    }
}

/// What a rule does to a context when it checks the file `src` parsed as `ns`.
pub open spec fn rule_effect(k: RuleKind, v: ContextView, ns: Seq<NodeView>, src: Seq<char>) -> ContextView {
    match k {
        RuleKind::EqualityInAssert => crate::context::findings_reported(
            v,
            ns,
            |i: int| equality_in_assert_finding(ns, src, i),
            ns.len() as int,
        ),
        RuleKind::ModernModuleSyntax => crate::context::findings_reported(
            v,
            ns,
            |i: int| modern_module_syntax_finding(ns, src, i),
            ns.len() as int,
        ),
        RuleKind::PreferVectorMethods => crate::context::findings_reported(
            v,
            ns,
            |i: int| prefer_vector_methods_finding(ns, src, i),
            ns.len() as int,
        ),
        RuleKind::ModernMethodSyntax => crate::context::findings_reported(
            v,
            ns,
            |i: int| modern_method_syntax_finding(ns, src, i),
            ns.len() as int,
        ),
        RuleKind::PreferToString => crate::context::findings_reported_at(v, ns, |i: int| prefer_to_string_finding(ns, src, i), ns.len() as int),
        RuleKind::ExplicitSelfAssignments => crate::context::findings_reported_at(v, ns, |i: int| explicit_self_assignments_finding(ns, src, i), ns.len() as int),
        RuleKind::ConstantNaming => crate::context::findings_reported_at(v, ns, |i: int| constant_naming_finding(ns, src, i), ns.len() as int),
        RuleKind::RedundantSelfImport => crate::context::findings_pushed(v, |i: int| redundant_self_import_finding(ns, src, v.settings, i), ns.len() as int),
        RuleKind::DocCommentStyle => crate::context::findings_reported_at(v, ns, |i: int| doc_comment_style_finding(ns, src, i), ns.len() as int),
        RuleKind::AbilitiesOrder => crate::context::findings_pushed_seq(v, |i: int| abilities_order_findings(ns, src, v.settings, i), ns.len() as int),
        RuleKind::EmptyVectorLiteral => crate::context::findings_pushed(v, |i: int| empty_vector_literal_finding(ns, src, v.settings, i), ns.len() as int),
        RuleKind::TypedAbortCode => crate::context::findings_reported_at(v, ns, |i: int| typed_abort_code_finding(ns, src, i), ns.len() as int),
        RuleKind::UnneededReturn => crate::context::effects_applied(v, ns, |i: int| unneeded_return_effect(ns, src, v.settings, i), ns.len() as int),
        RuleKind::AdminCapPosition => crate::context::findings_reported_at(v, ns, |i: int| admin_cap_position_finding(ns, src, i), ns.len() as int),
        RuleKind::MergeTestAttributes => merge_test_attributes_effect(v, ns, src),
        RuleKind::ManualOptionCheck => crate::context::findings_reported(v, ns, |i: int| manual_option_check_finding(ns, src, i), ns.len() as int),
        RuleKind::ManualLoopIteration => crate::context::findings_reported(v, ns, |i: int| manual_loop_iteration_finding(ns, src, i), ns.len() as int),
        RuleKind::SuspiciousOverflowCheck => crate::context::findings_reported_at(v, ns, |i: int| suspicious_overflow_check_finding(ns, src, i), ns.len() as int),
        RuleKind::FreshAddressReuse => crate::context::findings_reported_at(v, ns, |i: int| fresh_address_reuse_finding(ns, src, i), ns.len() as int),
        RuleKind::SuggestCapabilityPattern => crate::context::findings_reported_at(v, ns, |i: int| suggest_capability_pattern_finding(ns, src, i), ns.len() as int),
        RuleKind::SuggestSequencedWitness => crate::context::findings_reported_at(v, ns, |i: int| suggest_sequenced_witness_finding(ns, src, i), ns.len() as int),
        RuleKind::SuggestCountedCapability => crate::context::findings_reported_at(v, ns, |i: int| suggest_counted_capability_finding(ns, src, i), ns.len() as int),
        RuleKind::SuggestBalancedReceipt => crate::context::findings_reported_at(v, ns, |i: int| suggest_balanced_receipt_finding(ns, src, i), ns.len() as int),
    }
}

/// The files a rule can check: those on which it does not stop.
pub open spec fn rule_accepts(k: RuleKind, ns: Seq<NodeView>, src: Seq<char>) -> bool {
    match k {
        RuleKind::EmptyVectorLiteral => empty_vector_calls_bounded(ns, src),
        RuleKind::SuspiciousOverflowCheck | RuleKind::FreshAddressReuse | RuleKind::SuggestCapabilityPattern
        | RuleKind::SuggestSequencedWitness | RuleKind::SuggestCountedCapability
        | RuleKind::SuggestBalancedReceipt => crate::rules::security::ranges_within(ns, src),
        _ => true,
    }
}

/// Every rule of `rules` can check the file.
pub open spec fn rules_accept(rules: Seq<RuleKind>, ns: Seq<NodeView>, src: Seq<char>) -> bool {
    forall|k: int| 0 <= k < rules.len() ==> rule_accepts(#[trigger] rules[k], ns, src)
}

impl RuleKind {
    /// The rule's descriptor.
    pub fn descriptor(&self) -> (r: LintDescriptor)
        ensures
            r == rule_descriptor(*self),
    {
        match self {
            RuleKind::EqualityInAssert => EqualityInAssertLint.descriptor(),
            RuleKind::ModernModuleSyntax => ModernModuleSyntaxLint.descriptor(),
            RuleKind::PreferVectorMethods => PreferVectorMethodsLint.descriptor(),
            RuleKind::ModernMethodSyntax => ModernMethodSyntaxLint.descriptor(),
            RuleKind::PreferToString => PreferToStringLint.descriptor(),
            RuleKind::ExplicitSelfAssignments => ExplicitSelfAssignmentsLint.descriptor(),
            RuleKind::ConstantNaming => ConstantNamingLint.descriptor(),
            RuleKind::RedundantSelfImport => RedundantSelfImportLint.descriptor(),
            RuleKind::DocCommentStyle => DocCommentStyleLint.descriptor(),
            RuleKind::AbilitiesOrder => AbilitiesOrderLint.descriptor(),
            RuleKind::EmptyVectorLiteral => EmptyVectorLiteralLint.descriptor(),
            RuleKind::TypedAbortCode => TypedAbortCodeLint.descriptor(),
            RuleKind::UnneededReturn => UnneededReturnLint.descriptor(),
            RuleKind::AdminCapPosition => AdminCapPositionLint.descriptor(),
            RuleKind::MergeTestAttributes => MergeTestAttributesLint.descriptor(),
            RuleKind::ManualOptionCheck => ManualOptionCheckLint.descriptor(),
            RuleKind::ManualLoopIteration => ManualLoopIterationLint.descriptor(),
            RuleKind::SuspiciousOverflowCheck => SuspiciousOverflowCheckLint.descriptor(),
            RuleKind::FreshAddressReuse => FreshAddressReuseLint.descriptor(),
            RuleKind::SuggestCapabilityPattern => SuggestCapabilityPatternLint.descriptor(),
            RuleKind::SuggestSequencedWitness => SuggestSequencedWitnessLint.descriptor(),
            RuleKind::SuggestCountedCapability => SuggestCountedCapabilityLint.descriptor(),
            RuleKind::SuggestBalancedReceipt => SuggestBalancedReceiptLint.descriptor(),
        }
    }

    /// Runs the rule over a parsed file.
    pub fn check(&self, tree: &SyntaxTree, source: &SourceText, ctx: &mut LintContext)
        requires
            rule_accepts(*self, tree@, source@),
            crate::text::byte_len(source@) < usize::MAX,
        ensures
            final(ctx)@ == rule_effect(*self, old(ctx)@, tree@, source@),
    {
        match self {
            RuleKind::EqualityInAssert => EqualityInAssertLint.check(tree, source, ctx),
            RuleKind::ModernModuleSyntax => ModernModuleSyntaxLint.check(tree, source, ctx),
            RuleKind::PreferVectorMethods => PreferVectorMethodsLint.check(tree, source, ctx),
            RuleKind::ModernMethodSyntax => ModernMethodSyntaxLint.check(tree, source, ctx),
            RuleKind::PreferToString => PreferToStringLint.check(tree, source, ctx),
            RuleKind::ExplicitSelfAssignments => ExplicitSelfAssignmentsLint.check(tree, source, ctx),
            RuleKind::ConstantNaming => ConstantNamingLint.check(tree, source, ctx),
            RuleKind::RedundantSelfImport => RedundantSelfImportLint.check(tree, source, ctx),
            RuleKind::DocCommentStyle => DocCommentStyleLint.check(tree, source, ctx),
            RuleKind::AbilitiesOrder => AbilitiesOrderLint.check(tree, source, ctx),
            RuleKind::EmptyVectorLiteral => EmptyVectorLiteralLint.check(tree, source, ctx),
            RuleKind::TypedAbortCode => TypedAbortCodeLint.check(tree, source, ctx),
            RuleKind::UnneededReturn => UnneededReturnLint.check(tree, source, ctx),
            RuleKind::AdminCapPosition => AdminCapPositionLint.check(tree, source, ctx),
            RuleKind::MergeTestAttributes => MergeTestAttributesLint.check(tree, source, ctx),
            RuleKind::ManualOptionCheck => ManualOptionCheckLint.check(tree, source, ctx),
            RuleKind::ManualLoopIteration => ManualLoopIterationLint.check(tree, source, ctx),
            RuleKind::SuspiciousOverflowCheck => SuspiciousOverflowCheckLint.check(tree, source, ctx),
            RuleKind::FreshAddressReuse => FreshAddressReuseLint.check(tree, source, ctx),
            RuleKind::SuggestCapabilityPattern => SuggestCapabilityPatternLint.check(tree, source, ctx),
            RuleKind::SuggestSequencedWitness => SuggestSequencedWitnessLint.check(tree, source, ctx),
            RuleKind::SuggestCountedCapability => SuggestCountedCapabilityLint.check(tree, source, ctx),
            RuleKind::SuggestBalancedReceipt => SuggestBalancedReceiptLint.check(tree, source, ctx),
        }
    }
}

/// The built-in rules, in the order in which they run.
pub open spec fn builtin_rules() -> Seq<RuleKind> {
    seq![
        RuleKind::EqualityInAssert,
        RuleKind::ModernModuleSyntax,
        RuleKind::PreferVectorMethods,
        RuleKind::ModernMethodSyntax,
        RuleKind::PreferToString,
        RuleKind::ExplicitSelfAssignments,
        RuleKind::ConstantNaming,
        RuleKind::RedundantSelfImport,
        RuleKind::DocCommentStyle,
        RuleKind::AbilitiesOrder,
        RuleKind::EmptyVectorLiteral,
        RuleKind::TypedAbortCode,
        RuleKind::UnneededReturn,
        RuleKind::AdminCapPosition,
        RuleKind::MergeTestAttributes,
        RuleKind::ManualOptionCheck,
        RuleKind::ManualLoopIteration,
        RuleKind::SuspiciousOverflowCheck,
        RuleKind::FreshAddressReuse,
        RuleKind::SuggestCapabilityPattern,
        RuleKind::SuggestSequencedWitness,
        RuleKind::SuggestCountedCapability,
        RuleKind::SuggestBalancedReceipt,
    ]
}

fn builtin_rules_exec() -> (r: Vec<RuleKind>)
    ensures
        r@ == builtin_rules(),
{
    let r = vec![
        RuleKind::EqualityInAssert,
        RuleKind::ModernModuleSyntax,
        RuleKind::PreferVectorMethods,
        RuleKind::ModernMethodSyntax,
        RuleKind::PreferToString,
        RuleKind::ExplicitSelfAssignments,
        RuleKind::ConstantNaming,
        RuleKind::RedundantSelfImport,
        RuleKind::DocCommentStyle,
        RuleKind::AbilitiesOrder,
        RuleKind::EmptyVectorLiteral,
        RuleKind::TypedAbortCode,
        RuleKind::UnneededReturn,
        RuleKind::AdminCapPosition,
        RuleKind::MergeTestAttributes,
        RuleKind::ManualOptionCheck,
        RuleKind::ManualLoopIteration,
        RuleKind::SuspiciousOverflowCheck,
        RuleKind::FreshAddressReuse,
        RuleKind::SuggestCapabilityPattern,
        RuleKind::SuggestSequencedWitness,
        RuleKind::SuggestCountedCapability,
        RuleKind::SuggestBalancedReceipt,
    ];
    assert(r@ =~= builtin_rules());
    r
}

// ---------------------------------------------------------------------------
// Known lint names
// ---------------------------------------------------------------------------
/// The names of all lints this build knows: the syntactic rules' and the
/// type-based ones'.
pub open spec fn known_lint_names() -> Set<Seq<char>> {
    Set::new(
        |n: Seq<char>|
            (exists|k: int| 0 <= k < builtin_rules().len() && rule_descriptor(#[trigger] builtin_rules()[k]).name@ == n)
                || (exists|k: int|
                0 <= k < crate::semantic::semantic_count() && (#[trigger] crate::semantic::semantic_descriptor(k)).name@ == n),
    )
}

/// The names of all known lints.
pub fn all_known_lints() -> (r: NameSet)
    ensures
        r@ == known_lint_names(),
{
    let mut r = NameSet::new();
    let rules = builtin_rules_exec();
    let mut i: usize = 0;
    while i < rules.len()
        invariant
            rules@ == builtin_rules(),
            i <= rules@.len(),
            r@ == Set::new(|n: Seq<char>| exists|k: int| 0 <= k < i && rule_descriptor(#[trigger] builtin_rules()[k]).name@ == n),
        decreases rules.len() - i,
    {
        let d = rules[i].descriptor();
        let ghost before = r@;
        r.insert(to_owned_string(d.name));
        proof {
            assert(r@ =~= Set::new(|n: Seq<char>| exists|k: int| 0 <= k < i + 1 && rule_descriptor(#[trigger] builtin_rules()[k]).name@ == n)) by {
                assert forall|n: Seq<char>| #[trigger] r@.contains(n) <==> (exists|k: int| 0 <= k < i + 1 && rule_descriptor(#[trigger] builtin_rules()[k]).name@ == n) by {
                    if n == d.name@ {
                        assert(rule_descriptor(builtin_rules()[i as int]).name@ == n);
                    }
                    if exists|k: int| 0 <= k < i + 1 && rule_descriptor(#[trigger] builtin_rules()[k]).name@ == n {
                        let k = choose|k: int| 0 <= k < i + 1 && rule_descriptor(#[trigger] builtin_rules()[k]).name@ == n;
                        if k < i {
                            assert(before.contains(n));
                        }
                    }
                }
            }
        }
        i = i + 1;
    }
    let sem = crate::semantic::descriptors();
    let ghost base = r@;
    let mut j: usize = 0;
    while j < sem.len()
        invariant
            sem@.len() == crate::semantic::semantic_count(),
            forall|k: int| 0 <= k < crate::semantic::semantic_count() ==> sem@[k] == crate::semantic::semantic_descriptor(k),
            j <= sem@.len(),
            base == Set::new(|n: Seq<char>| exists|k: int| 0 <= k < builtin_rules().len() && rule_descriptor(#[trigger] builtin_rules()[k]).name@ == n),
            r@ == base.union(Set::new(|n: Seq<char>| exists|k: int| 0 <= k < j && (#[trigger] crate::semantic::semantic_descriptor(k)).name@ == n)),
        decreases sem.len() - j,
    {
        let d = sem[j];
        let ghost before = r@;
        r.insert(to_owned_string(d.name));
        proof {
            let s2 = Set::new(|n: Seq<char>| exists|k: int| 0 <= k < j + 1 && (#[trigger] crate::semantic::semantic_descriptor(k)).name@ == n);
            assert forall|n: Seq<char>| #[trigger] r@.contains(n) <==> base.union(s2).contains(n) by {
                if n == d.name@ {
                    assert(crate::semantic::semantic_descriptor(j as int).name@ == n);
                }
                if s2.contains(n) {
                    let k = choose|k: int| 0 <= k < j + 1 && (#[trigger] crate::semantic::semantic_descriptor(k)).name@ == n;
                    if k < j {
                        assert(before.contains(n));
                    }
                }
            }
            assert(r@ =~= base.union(s2));
        }
        j = j + 1;
    }
    proof {
        assert(r@ =~= known_lint_names());
    }
    r
}

/// The names of all known lints, and the aliases that name them.
pub fn all_known_lints_with_aliases() -> (r: NameSet)
    ensures
        r@ == known_lint_names().union(crate::lint::alias_table().map_values(|p: (Seq<char>, Seq<char>)| p.0).to_set()),
{
    let r = all_known_lints();
    proof {
        assert(crate::lint::alias_table().map_values(|p: (Seq<char>, Seq<char>)| p.0).to_set() =~= Set::<Seq<char>>::empty());
        assert(r@.union(Set::<Seq<char>>::empty()) =~= r@);
    }
    r
}


// ---------------------------------------------------------------------------
// Registry
// ---------------------------------------------------------------------------
/// Lints that full mode replaces with type-based versions.
pub open spec fn superseded_in_full_mode(name: Seq<char>) -> bool {
    name == "public_mut_tx_context"@ || name == "unnecessary_public_entry"@
}

/// The canonical names of a list of lint names.
pub open spec fn canonical_names(ns: Seq<String>) -> Seq<Seq<char>> {
    ns.map_values(|s: String| canonical(s@))
}

/// A rule is kept by the filter.
pub open spec fn rule_selected(
    d: LintDescriptor,
    only: Seq<String>,
    skip: Seq<String>,
    disabled: Seq<String>,
    full_mode: bool,
    preview: bool,
    experimental: bool,
) -> bool {
    let name = d.name@;
    &&& !(full_mode && superseded_in_full_mode(name))
    &&& (only.len() == 0 || canonical_names(only).contains(name))
    &&& !canonical_names(skip).contains(name)
    &&& !canonical_names(disabled).contains(name)
    &&& !(d.group == RuleGroup::Preview && !(preview || experimental))
    &&& !(d.group == RuleGroup::Experimental && !experimental)
}

/// The rules of `rules` that the filter keeps, in order.
pub open spec fn selected_rules(
    rules: Seq<RuleKind>,
    only: Seq<String>,
    skip: Seq<String>,
    disabled: Seq<String>,
    full_mode: bool,
    preview: bool,
    experimental: bool,
) -> Seq<RuleKind>
    decreases rules.len(),
{
    if rules.len() == 0 {
        Seq::empty()
    } else {
        let rest = selected_rules(rules.drop_last(), only, skip, disabled, full_mode, preview, experimental);
        if rule_selected(rule_descriptor(rules.last()), only, skip, disabled, full_mode, preview, experimental) {
            rest.push(rules.last())
        } else {
            rest
        }
    }
}

/// The first name of `ns` that is not in `known`.
pub open spec fn first_unknown(ns: Seq<String>, known: Set<Seq<char>>) -> Option<Seq<char>>
    decreases ns.len(),
{
    if ns.len() == 0 {
        None
    } else if !known.contains(ns[0]@) {
        Some(ns[0]@)
    } else {
        first_unknown(ns.drop_first(), known)
    }
}

/// Why a registry cannot be built.
#[derive(Debug)]
pub enum RegistryError {
    /// A lint name given in a filter is not known.
    UnknownLint(String),
}

impl RegistryError {
    /// The error's message.
    pub fn message(&self) -> (r: String)
        ensures
            match self {
                RegistryError::UnknownLint(n) => r@ == "unknown lint: "@ + n@,
            },
    {
        match self {
            RegistryError::UnknownLint(n) => {
                let mut m = to_owned_string("unknown lint: ");
                push_str(&mut m, n.as_str());
                m
            },
        }
    }
}

/// The registry of syntax-only lint rules that the engine runs.
#[derive(Debug)]
pub struct LintRegistry {
    rules: Vec<RuleKind>,
}

impl View for LintRegistry {
    type V = Seq<RuleKind>;

    closed spec fn view(&self) -> Seq<RuleKind> {
        self.rules@
    }
}

impl Default for LintRegistry {
    fn default() -> (r: Self)
        ensures
            r@ == Seq::<RuleKind>::empty(),
    {
        LintRegistry::new()
    }
}

/// `name` is in `v`.
fn names_contain(v: &[String], name: &str) -> (r: bool)
    ensures
        r == string_views(v@).contains(name@),
{
    let mut i: usize = 0;
    while i < v.len()
        invariant
            i <= v@.len(),
            forall|j: int| 0 <= j < i ==> (#[trigger] v@[j])@ != name@,
        decreases v.len() - i,
    {
        if str_eq(v[i].as_str(), name) {
            assert(string_views(v@)[i as int] == name@);
            return true;
        }
        i = i + 1;
    }
    proof {
        if string_views(v@).contains(name@) {
            let j = choose|j: int| 0 <= j < string_views(v@).len() && string_views(v@)[j] == name@;
            assert(v@[j]@ == name@);
        }
    }
    false
}

/// The canonical forms of `v`, in order.
fn canonical_list(v: &[String]) -> (r: Vec<String>)
    ensures
        string_views(r@) == canonical_names(v@),
{
    let mut r: Vec<String> = Vec::new();
    let mut i: usize = 0;
    while i < v.len()
        invariant
            i <= v@.len(),
            string_views(r@) == canonical_names(v@).take(i as int),
        decreases v.len() - i,
    {
        let c = resolve_lint_alias(v[i].as_str());
        let ghost before = string_views(r@);
        r.push(c);
        assert(string_views(r@) =~= before.push(canonical(v@[i as int]@)));
        assert(canonical_names(v@).take(i + 1) =~= canonical_names(v@).take(i as int).push(canonical(v@[i as int]@)));
        i = i + 1;
    }
    assert(canonical_names(v@).take(v@.len() as int) =~= canonical_names(v@));
    r
}

/// The first name of `v` not in `known`.
fn find_unknown(v: &[String], known: &NameSet) -> (r: Option<String>)
    ensures
        match r {
            Some(n) => first_unknown(v@, known@) == Some(n@),
            None => first_unknown(v@, known@) is None,
        },
{
    let mut i: usize = 0;
    assert(v@.skip(0) =~= v@);
    while i < v.len()
        invariant
            i <= v@.len(),
            first_unknown(v@, known@) == first_unknown(v@.skip(i as int), known@),
        decreases v.len() - i,
    {
        assert(v@.skip(i as int)[0] == v@[i as int]);
        if !known.contains(v[i].as_str()) {
            return Some(v[i].clone());
        }
        assert(v@.skip(i as int).drop_first() =~= v@.skip(i + 1));
        i = i + 1;
    }
    None
}

impl LintRegistry {
    /// An empty registry.
    pub fn new() -> (r: Self)
        ensures
            r@ == Seq::<RuleKind>::empty(),
    {
        LintRegistry { rules: Vec::new() }
    }

    /// The registry with `rule` added last.
    pub fn with_rule(self, rule: RuleKind) -> (r: Self)
        ensures
            r@ == self@.push(rule),
    {
        let mut rules = self.rules;
        rules.push(rule);
        LintRegistry { rules }
    }

    /// The rules, in the order in which they run.
    pub fn rules(&self) -> (r: &Vec<RuleKind>)
        ensures
            r@ == self@,
    {
        &self.rules
    }

    /// The descriptors of the rules, in order.
    pub fn descriptors(&self) -> (r: Vec<LintDescriptor>)
        ensures
            r@ == self@.map_values(|k: RuleKind| rule_descriptor(k)),
    {
        let mut r: Vec<LintDescriptor> = Vec::new();
        let mut i: usize = 0;
        while i < self.rules.len()
            invariant
                i <= self@.len(),
                r@ == self@.take(i as int).map_values(|k: RuleKind| rule_descriptor(k)),
            decreases self.rules.len() - i,
        {
            r.push(self.rules[i].descriptor());
            assert(self@.take(i + 1).map_values(|k: RuleKind| rule_descriptor(k)) =~= self@.take(i as int).map_values(|k: RuleKind| rule_descriptor(k)).push(rule_descriptor(self@[i as int])));
            i = i + 1;
        }
        assert(self@.take(self@.len() as int) =~= self@);
        r
    }

    /// The descriptor of the first rule named `name`.
    pub fn find_descriptor(&self, name: &str) -> (r: Option<LintDescriptor>)
        ensures
            match r {
                Some(d) => exists|i: int| 0 <= i < self@.len() && d == rule_descriptor(#[trigger] self@[i])
                    && d.name@ == name@ && forall|j: int| 0 <= j < i ==> rule_descriptor(#[trigger] self@[j]).name@ != name@,
                None => forall|j: int| 0 <= j < self@.len() ==> rule_descriptor(#[trigger] self@[j]).name@ != name@,
            },
    {
        let mut i: usize = 0;
        while i < self.rules.len()
            invariant
                i <= self@.len(),
                forall|j: int| 0 <= j < i ==> rule_descriptor(#[trigger] self@[j]).name@ != name@,
            decreases self.rules.len() - i,
        {
            let d = self.rules[i].descriptor();
            if str_eq(d.name, name) {
                return Some(d);
            }
            i = i + 1;
        }
        None
    }

    /// All built-in syntactic rules.
    pub fn default_rules() -> (r: Self)
        ensures
            r@ == builtin_rules(),
    {
        LintRegistry { rules: builtin_rules_exec() }
    }

    /// The built-in rules that the filters keep; experimental rules stay out.
    pub fn default_rules_filtered(
        only: &[String],
        skip: &[String],
        disabled: &[String],
        full_mode: bool,
        preview: bool,
    ) -> (r: Result<Self, RegistryError>)
        ensures
            match first_unknown(only@ + skip@ + disabled@, known_lint_names()) {
                Some(n) => r matches Err(RegistryError::UnknownLint(m)) && m@ == n,
                None => r matches Ok(reg) && reg@ == selected_rules(builtin_rules(), only@, skip@, disabled@, full_mode, preview, false),
            },
    {
        Self::default_rules_filtered_with_experimental(only, skip, disabled, full_mode, preview, false)
    }

    /// The built-in rules that the filters keep: only the `only` rules (when
    /// given), none of `skip` or `disabled`, preview rules only with
    /// `preview` or `experimental`, experimental rules only with
    /// `experimental`; an error names the first unknown lint name.
    pub fn default_rules_filtered_with_experimental(
        only: &[String],
        skip: &[String],
        disabled: &[String],
        full_mode: bool,
        preview: bool,
        experimental: bool,
    ) -> (r: Result<Self, RegistryError>)
        ensures
            match first_unknown(only@ + skip@ + disabled@, known_lint_names()) {
                Some(n) => r matches Err(RegistryError::UnknownLint(m)) && m@ == n,
                None => r matches Ok(reg) && reg@ == selected_rules(builtin_rules(), only@, skip@, disabled@, full_mode, preview, experimental),
            },
    {
        let known = all_known_lints_with_aliases();
        proof {
            assert(crate::lint::alias_table().map_values(|p: (Seq<char>, Seq<char>)| p.0).to_set() =~= Set::<Seq<char>>::empty());
            assert(known@ =~= known_lint_names());
            lemma_first_unknown_concat(only@, skip@ + disabled@, known@);
            lemma_first_unknown_concat(skip@, disabled@, known@);
            assert(only@ + skip@ + disabled@ =~= only@ + (skip@ + disabled@));
        }
        match find_unknown(only, &known) {
            Some(n) => {
                return Err(RegistryError::UnknownLint(n));
            },
            None => {},
        }
        match find_unknown(skip, &known) {
            Some(n) => {
                return Err(RegistryError::UnknownLint(n));
            },
            None => {},
        }
        match find_unknown(disabled, &known) {
            Some(n) => {
                return Err(RegistryError::UnknownLint(n));
            },
            None => {},
        }
        let only_c = canonical_list(only);
        let skip_c = canonical_list(skip);
        let disabled_c = canonical_list(disabled);
        let all = builtin_rules_exec();
        let mut rules: Vec<RuleKind> = Vec::new();
        let mut i: usize = 0;
        while i < all.len()
            invariant
                all@ == builtin_rules(),
                i <= all@.len(),
                string_views(only_c@) == canonical_names(only@),
                string_views(skip_c@) == canonical_names(skip@),
                string_views(disabled_c@) == canonical_names(disabled@),
                rules@ == selected_rules(all@.take(i as int), only@, skip@, disabled@, full_mode, preview, experimental),
            decreases all.len() - i,
        {
            let k = all[i];
            let d = k.descriptor();
            let name = d.name;
            let superseded = str_eq(name, "public_mut_tx_context") || str_eq(name, "unnecessary_public_entry");
            let keep = !(full_mode && superseded)
                && (only_c.len() == 0 || names_contain(only_c.as_slice(), name))
                && !names_contain(skip_c.as_slice(), name)
                && !names_contain(disabled_c.as_slice(), name)
                && !(d.group == RuleGroup::Preview && !(preview || experimental))
                && !(d.group == RuleGroup::Experimental && !experimental);
            proof {
                assert(all@.take(i + 1).drop_last() =~= all@.take(i as int));
                assert(all@.take(i + 1).last() == k);
                assert(only_c@.len() == only@.len()) by {
                    assert(string_views(only_c@).len() == canonical_names(only@).len());
                }
            }
            if keep {
                rules.push(k);
            }
            i = i + 1;
        }
        assert(all@.take(all@.len() as int) =~= all@);
        Ok(LintRegistry { rules })
    }
}

pub proof fn lemma_first_unknown_concat(a: Seq<String>, b: Seq<String>, known: Set<Seq<char>>)
    ensures
        first_unknown(a + b, known) == match first_unknown(a, known) {
            Some(n) => Some(n),
            None => first_unknown(b, known),
        },
    decreases a.len(),
{
    if a.len() > 0 {
        assert((a + b).drop_first() =~= a.drop_first() + b);
        assert((a + b)[0] == a[0]);
        lemma_first_unknown_concat(a.drop_first(), b, known);
    } else {
        assert(a + b =~= b);
    }
}

// ---------------------------------------------------------------------------
// Engine
// ---------------------------------------------------------------------------
/// The state after the rules `rules.take(k)` have checked the file, in order.
pub open spec fn rules_applied(v: ContextView, rules: Seq<RuleKind>, ns: Seq<NodeView>, src: Seq<char>, k: int) -> ContextView
    decreases k,
{
    if k <= 0 {
        v
    } else {
        rule_effect(rules[k - 1], rules_applied(v, rules, ns, src, k - 1), ns, src)
    }
}

/// What linting a file gives: a fresh context reads every item's directives,
/// each rule checks the file in turn, and the context hands out its report.
pub open spec fn lint_report(
    settings: Map<Seq<char>, crate::level::LintLevel>,
    rules: Seq<RuleKind>,
    ns: Seq<NodeView>,
    src: Seq<char>,
    rv: Seq<DiagView>,
) -> bool {
    let v0 = crate::context::cache_directive_items(crate::context::fresh_context(src, settings), ns, ns.len() as int);
    crate::context::final_report(rules_applied(v0, rules, ns, src, rules.len() as int), rv)
}

/// Runs registered rules over parsed files.
#[derive(Debug)]
pub struct LintEngine {
    registry: LintRegistry,
    settings: LintSettings,
}

impl LintEngine {
    /// An engine with default settings.
    pub fn new(registry: LintRegistry) -> (r: Self)
        ensures
            r.rule_list() == registry@,
            r.settings_view() == Map::<Seq<char>, crate::level::LintLevel>::empty(),
    {
        LintEngine { registry, settings: LintSettings::new() }
    }

    /// An engine with explicit settings.
    pub fn new_with_settings(registry: LintRegistry, settings: LintSettings) -> (r: Self)
        ensures
            r.rule_list() == registry@,
            r.settings_view() == settings@,
    {
        LintEngine { registry, settings }
    }

    /// The rules the engine runs.
    pub closed spec fn rule_list(&self) -> Seq<RuleKind> {
        self.registry@
    }

    /// The settings the engine applies.
    pub closed spec fn settings_view(&self) -> Map<Seq<char>, crate::level::LintLevel> {
        self.settings@
    }

    /// A builder for an engine.
    pub fn builder() -> (r: LintEngineBuilder)
        ensures
            r@ == LintEngineBuilder::new_spec(),
    {
        LintEngineBuilder::new()
    }

    /// Whether every rule of the engine can check the file.
    pub fn can_lint(&self, source: &str, tree: &SyntaxTree) -> (r: bool)
        ensures
            r == rules_accept(self.rule_list(), tree@, source@),
    {
        let text = SourceText::new(source);
        let rules = self.registry.rules();
        let mut i: usize = 0;
        while i < rules.len()
            invariant
                rules@ == self.rule_list(),
                text@ == source@,
                i <= rules@.len(),
                forall|k: int| 0 <= k < i ==> rule_accepts(#[trigger] rules@[k], tree@, source@),
            decreases rules.len() - i,
        {
            let ok = match rules[i] {
                RuleKind::EmptyVectorLiteral => EmptyVectorLiteralLint.can_check(tree, &text),
                RuleKind::SuspiciousOverflowCheck | RuleKind::FreshAddressReuse | RuleKind::SuggestCapabilityPattern
                | RuleKind::SuggestSequencedWitness | RuleKind::SuggestCountedCapability
                | RuleKind::SuggestBalancedReceipt => crate::rules::security::ranges_fit(tree, source),
                _ => true,
            };
            if !ok {
                return false;
            }
            i = i + 1;
        }
        true
    }

    /// Lints a parsed file: the diagnostics of all rules, with directives
    /// applied, then the errors for unmet expectations.
    pub fn lint_tree(&self, source: &str, tree: &SyntaxTree) -> (r: Vec<Diagnostic>)
        requires
            readable_source(source@),
            rules_accept(self.rule_list(), tree@, source@),
        ensures
            lint_report(self.settings_view(), self.rule_list(), tree@, source@, diag_views(r@)),
    {
        let text = SourceText::new(source);
        let mut ctx = LintContext::new(source, self.settings.duplicate());
        ctx.precollect_item_directives(tree);
        let ghost v0 = ctx@;
        let rules = self.registry.rules();
        let mut i: usize = 0;
        while i < rules.len()
            invariant
                rules@ == self.rule_list(),
                text@ == source@,
                i <= rules@.len(),
                readable_source(source@),
                rules_accept(rules@, tree@, text@),
                ctx@ == rules_applied(v0, rules@, tree@, source@, i as int),
            decreases rules.len() - i,
        {
            rules[i].check(tree, &text, &mut ctx);
            i = i + 1;
        }
        ctx.into_diagnostics()
    }
}

/// The settings of a builder as plain values.
pub struct BuilderView {
    pub registry: Option<Seq<RuleKind>>,
    pub settings: Map<Seq<char>, crate::level::LintLevel>,
    pub only: Seq<String>,
    pub skip: Seq<String>,
    pub disabled: Seq<String>,
    pub full_mode: bool,
    pub preview: bool,
    pub experimental: bool,
}

/// Builder for a configured [`LintEngine`].
#[derive(Debug)]
pub struct LintEngineBuilder {
    registry: Option<LintRegistry>,
    settings: LintSettings,
    only: Vec<String>,
    skip: Vec<String>,
    disabled: Vec<String>,
    full_mode: bool,
    preview: bool,
    experimental: bool,
}

impl View for LintEngineBuilder {
    type V = BuilderView;

    closed spec fn view(&self) -> BuilderView {
        BuilderView {
            registry: match self.registry {
                Some(r) => Some(r@),
                None => None,
            },
            settings: self.settings@,
            only: self.only@,
            skip: self.skip@,
            disabled: self.disabled@,
            full_mode: self.full_mode,
            preview: self.preview,
            experimental: self.experimental,
        }
    }
}

impl Default for LintEngineBuilder {
    fn default() -> (r: Self)
        ensures
            r@ == LintEngineBuilder::new_spec(),
    {
        LintEngineBuilder::new()
    }
}

impl LintEngineBuilder {
    /// The state of a new builder.
    pub open spec fn new_spec() -> BuilderView {
        BuilderView {
            registry: None,
            settings: Map::empty(),
            only: Seq::empty(),
            skip: Seq::empty(),
            disabled: Seq::empty(),
            full_mode: false,
            preview: false,
            experimental: false,
        }
    }

    /// A builder with default settings.
    pub fn new() -> (r: Self)
        ensures
            r@ == Self::new_spec(),
    {
        let r = LintEngineBuilder {
            registry: None,
            settings: LintSettings::new(),
            only: Vec::new(),
            skip: Vec::new(),
            disabled: Vec::new(),
            full_mode: false,
            preview: false,
            experimental: false,
        };
        assert(r@ == Self::new_spec());
        r
    }

    /// Use this registry instead of building one from the filters.
    pub fn registry(self, registry: LintRegistry) -> (r: Self)
        ensures
            r@ == (BuilderView { registry: Some(registry@), ..self@ }),
    {
        let mut this = self;
        this.registry = Some(registry);
        this
    }

    /// Use these settings.
    pub fn settings(self, settings: LintSettings) -> (r: Self)
        ensures
            r@ == (BuilderView { settings: settings@, ..self@ }),
    {
        let mut this = self;
        this.settings = settings;
        this
    }

    /// Only run these lints.
    pub fn only(self, lints: Vec<String>) -> (r: Self)
        ensures
            r@ == (BuilderView { only: lints@, ..self@ }),
    {
        let mut this = self;
        this.only = lints;
        this
    }

    /// Skip these lints.
    pub fn skip(self, lints: Vec<String>) -> (r: Self)
        ensures
            r@ == (BuilderView { skip: lints@, ..self@ }),
    {
        let mut this = self;
        this.skip = lints;
        this
    }

    /// Disable these lints (as `skip` does).
    pub fn disabled(self, lints: Vec<String>) -> (r: Self)
        ensures
            r@ == (BuilderView { disabled: lints@, ..self@ }),
    {
        let mut this = self;
        this.disabled = lints;
        this
    }

    /// Full mode leaves out the syntactic lints that type-based ones replace.
    pub fn full_mode(self, enabled: bool) -> (r: Self)
        ensures
            r@ == (BuilderView { full_mode: enabled, ..self@ }),
    {
        let mut this = self;
        this.full_mode = enabled;
        this
    }

    /// Enable preview lints.
    pub fn preview(self, enabled: bool) -> (r: Self)
        ensures
            r@ == (BuilderView { preview: enabled, ..self@ }),
    {
        let mut this = self;
        this.preview = enabled;
        this
    }

    /// Enable experimental lints (which implies preview).
    pub fn experimental(self, enabled: bool) -> (r: Self)
        ensures
            r@ == (BuilderView { experimental: enabled, ..self@ }),
    {
        let mut this = self;
        this.experimental = enabled;
        this
    }

    /// The configured engine: the given registry, or the built-in rules the
    /// filters keep; an error names the first unknown lint name.
    pub fn build(self) -> (r: Result<LintEngine, RegistryError>)
        ensures
            ({
                let b = self@;
                match b.registry {
                    Some(reg) => r matches Ok(e) && e.rule_list() == reg && e.settings_view() == b.settings,
                    None => match first_unknown(b.only + b.skip + b.disabled, known_lint_names()) {
                        Some(n) => r matches Err(RegistryError::UnknownLint(m)) && m@ == n,
                        None => r matches Ok(e) && e.settings_view() == b.settings && e.rule_list()
                            == selected_rules(builtin_rules(), b.only, b.skip, b.disabled, b.full_mode, b.preview, b.experimental),
                    },
                }
            }),
    {
        let LintEngineBuilder { registry, settings, only, skip, disabled, full_mode, preview, experimental } = self;
        let registry = match registry {
            Some(r) => r,
            None => {
                match LintRegistry::default_rules_filtered_with_experimental(
                    only.as_slice(),
                    skip.as_slice(),
                    disabled.as_slice(),
                    full_mode,
                    preview,
                    experimental,
                ) {
                    Ok(r) => r,
                    Err(e) => {
                        return Err(e);
                    },
                }
            },
        };
        Ok(LintEngine::new_with_settings(registry, settings))
    }
}

/// The rules of the default engine: the stable built-in ones.
pub open spec fn default_engine_rules() -> Seq<RuleKind> {
    selected_rules(builtin_rules(), Seq::empty(), Seq::empty(), Seq::empty(), false, false, false)
}

/// An engine with the stable built-in rules and default settings.
pub fn create_default_engine() -> (r: LintEngine)
    ensures
        r.rule_list() == default_engine_rules(),
        r.settings_view() == Map::<Seq<char>, crate::level::LintLevel>::empty(),
{
    let none: Vec<String> = Vec::new();
    proof {
        assert(none@ + none@ + none@ =~= Seq::<String>::empty());
    }
    match LintRegistry::default_rules_filtered_with_experimental(
        none.as_slice(),
        none.as_slice(),
        none.as_slice(),
        false,
        false,
        false,
    ) {
        Ok(reg) => LintEngine::new(reg),
        Err(_) => {
            assert(false);
            LintEngine::new(LintRegistry::new())
        },
    }
}

// ---------------------------------------------------------------------------
// Listing
// ---------------------------------------------------------------------------
/// `d` inserted into `s` after the last entry, counted from the end, whose
/// name does not come after `d`'s: one step of a stable sort by name.
pub open spec fn insert_by_name(s: Seq<LintDescriptor>, d: LintDescriptor) -> Seq<LintDescriptor>
    decreases s.len(),
{
    if s.len() == 0 {
        seq![d]
    } else if !crate::order::lex_lt(d.name@, s.last().name@) {
        s.push(d)
    } else {
        insert_by_name(s.drop_last(), d).push(s.last())
    }
}

/// `s` stably sorted by name.
pub open spec fn sort_by_name(s: Seq<LintDescriptor>) -> Seq<LintDescriptor>
    decreases s.len(),
{
    if s.len() == 0 {
        s
    } else {
        insert_by_name(sort_by_name(s.drop_last()), s.last())
    }
}

proof fn lemma_insert_by_name(s: Seq<LintDescriptor>, d: LintDescriptor, p: int)
    requires
        0 <= p <= s.len(),
        forall|j: int| p <= j < s.len() ==> crate::order::lex_lt(d.name@, #[trigger] s[j].name@),
    ensures
        insert_by_name(s, d) == insert_by_name(s.take(p), d) + s.skip(p),
    decreases s.len() - p,
{
    if p == s.len() {
        assert(s.take(p) =~= s);
        assert(s.skip(p) =~= Seq::<LintDescriptor>::empty());
        assert(insert_by_name(s, d) + Seq::<LintDescriptor>::empty() =~= insert_by_name(s, d));
    } else {
        let t = s.drop_last();
        assert forall|j: int| p <= j < t.len() implies crate::order::lex_lt(d.name@, #[trigger] t[j].name@) by {
            assert(t[j] == s[j]);
        }
        lemma_insert_by_name(t, d, p);
        assert(t.take(p) =~= s.take(p));
        assert(t.skip(p).push(s.last()) =~= s.skip(p));
        assert(insert_by_name(s, d) == insert_by_name(t, d).push(s.last()));
        assert((insert_by_name(t.take(p), d) + t.skip(p)).push(s.last()) =~= insert_by_name(t.take(p), d)
            + t.skip(p).push(s.last()));
    }
}

/// The descriptors stably sorted by name, as `list-rules` prints them.
pub fn sorted_by_name(ds: Vec<LintDescriptor>) -> (r: Vec<LintDescriptor>)
    ensures
        r@ == sort_by_name(ds@),
{
    let mut r: Vec<LintDescriptor> = Vec::new();
    let mut i: usize = 0;
    assert(ds@.take(0) =~= Seq::<LintDescriptor>::empty());
    while i < ds.len()
        invariant
            i <= ds@.len(),
            r@ == sort_by_name(ds@.take(i as int)),
        decreases ds.len() - i,
    {
        let d = ds[i];
        let mut p = r.len();
        while p > 0 && crate::order::str_lt(d.name, r[p - 1].name)
            invariant
                p <= r@.len(),
                forall|j: int| p <= j < r@.len() ==> crate::order::lex_lt(d.name@, #[trigger] r@[j].name@),
            decreases p,
        {
            p = p - 1;
        }
        proof {
            lemma_insert_by_name(r@, d, p as int);
            let h = r@.take(p as int);
            if p > 0 {
                assert(h.last() == r@[p - 1]);
                assert(insert_by_name(h, d) == h.push(d));
            } else {
                assert(h =~= Seq::<LintDescriptor>::empty());
            }
            assert(h.push(d) + r@.skip(p as int) =~= r@.insert(p as int, d));
            assert(ds@.take(i + 1).drop_last() =~= ds@.take(i as int));
            assert(ds@.take(i + 1).last() == d);
        }
        r.insert(p, d);
        i = i + 1;
    }
    assert(ds@.take(ds@.len() as int) =~= ds@);
    r
}

} // verus!
