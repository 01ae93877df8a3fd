//! Naming and layout conventions of Sui Move.
use vstd::prelude::*;
use crate::context::{findings_reported_at, LintContext};
use crate::diagnostics::DiagView;
use crate::lint::{AnalysisKind, FixDescriptor, FixSafety, LintCategory, LintDescriptor, RuleGroup};
use crate::rules::modernization::node_text;
use crate::rules::style::plain_report;
use crate::syntax::{field_child_from, NodeView, SourceText, SyntaxTree};
use crate::text::{ends_with, push_str, str_eq, strip_prefix, to_owned_string, trim, trim_str};

verus! {

pub open spec fn admin_cap_position_descriptor() -> LintDescriptor {
    LintDescriptor {
        name: "admin_cap_position",
        category: LintCategory::Style,
        description: "Capability parameters should be first (or second after TxContext)",
        group: RuleGroup::Stable,
        fix: FixDescriptor { available: false, safety: FixSafety::Safe, description: "" },
        analysis: AnalysisKind::Syntactic,
        gap: None,
    }
}

/// `s` with every leading occurrence of `p` removed (`str::trim_start_matches`).
pub open spec fn strip_leading(s: Seq<char>, p: Seq<char>) -> Seq<char>
    decreases s.len(),
{
    if p.len() > 0 && p.is_prefix_of(s) {
        strip_leading(s.skip(p.len() as int), p)
    } else {
        s
    }
}

/// A type text without reference marks: trimmed, leading `&` and `mut `
/// removed, trimmed again.
pub open spec fn bare_type(t: Seq<char>) -> Seq<char> {
    trim(strip_leading(strip_leading(trim(t), "&"@), "mut "@))
}

/// A type named like a capability.
pub open spec fn is_capability_type_text(t: Seq<char>) -> bool {
    let c = bare_type(t);
    ||| "Cap"@.is_suffix_of(c)
    ||| "Capability"@.is_suffix_of(c)
    ||| "_cap"@.is_suffix_of(c)
    ||| "AdminCap"@.is_suffix_of(c)
    ||| "OwnerCap"@.is_suffix_of(c)
    ||| "TreasuryCap"@.is_suffix_of(c)
}

/// The type `TxContext`, plain or by path.
pub open spec fn is_tx_context_type_text(t: Seq<char>) -> bool {
    let c = bare_type(t);
    c == "TxContext"@ || "::TxContext"@.is_suffix_of(c)
}

/// The parameters among the first `j` children of list node `pl` that have a
/// type: each parameter node and its trimmed type text.
pub open spec fn typed_params(ns: Seq<NodeView>, src: Seq<char>, pl: int, j: int) -> Seq<(int, Seq<char>)>
    decreases j,
{
    if j <= 0 || j > ns[pl].children.len() {
        Seq::empty()
    } else {
        let rest = typed_params(ns, src, pl, j - 1);
        let c = ns[pl].children[j - 1] as int;
        if ns[c].kind == "function_parameter"@ || ns[c].kind == "mut_function_parameter"@ {
            match field_child_from(ns, c, "type"@, 0) {
                Some(t) => rest.push((c, trim(node_text(ns, src, t as int)))),
                None => rest,
            }
        } else {
            rest
        }
    }
}

/// The first position at or after `k` whose type is a capability.
pub open spec fn first_capability(ps: Seq<(int, Seq<char>)>, k: int) -> Option<int>
    decreases ps.len() - k,
{
    if k < 0 || k >= ps.len() {
        None
    } else if is_capability_type_text(ps[k].1) {
        Some(k)
    } else {
        first_capability(ps, k + 1)
    }
}

/// What `admin_cap_position` reports at node `i`.
pub open spec fn admin_cap_position_finding(ns: Seq<NodeView>, src: Seq<char>, i: int) -> Option<(int, DiagView)> {
    if !(0 <= i < ns.len()) || ns[i].kind != "function_definition"@ {
        None
    } else {
        match field_child_from(ns, i, "parameters"@, 0) {
            None => None,
            Some(pl) => {
                let ps = typed_params(ns, src, pl as int, ns[pl as int].children.len() as int);
                if ps.len() == 0 {
                    None
                } else {
                    match first_capability(ps, 0) {
                        None => None,
                        Some(k) => {
                            let tx_first = is_tx_context_type_text(ps[0].1);
                            let expected: int = if tx_first { 1 } else { 0 };
                            if k > expected {
                                let hint = if tx_first { "second (after TxContext)"@ } else { "first"@ };
                                Some(
                                    plain_report(
                                        admin_cap_position_descriptor(),
                                        ns,
                                        ps[k].0,
                                        "Capability parameter `"@ + ps[k].1 + "` should be "@ + hint
                                            + " in the parameter list"@,
                                    ),
                                )
                            } else {
                                None
                            }
                        },
                    }
                }
            },
        }
    }
}

/// `str::trim_start_matches` with a string pattern.
fn trim_start_matches<'a>(s: &'a str, p: &str) -> (r: &'a str)
    requires
        p@.len() > 0,
    ensures
        r@ == strip_leading(s@, p@),
{
    let mut cur = s;
    loop
        invariant
            p@.len() > 0,
            strip_leading(s@, p@) == strip_leading(cur@, p@),
        decreases cur@.len(),
    {
        match strip_prefix(cur, p) {
            Some(rest) => {
                cur = rest;
            },
            None => {
                return cur;
            },
        }
    }
}

fn bare_type_text(t: &str) -> (r: &str)
    ensures
        r@ == bare_type(t@),
{
    proof {
        reveal_strlit("&");
        reveal_strlit("mut ");
        assert("&"@.len() == 1);
        assert("mut "@.len() == 4);
    }
    let a = trim_str(t);
    let b = trim_start_matches(a, "&");
    let c = trim_start_matches(b, "mut ");
    trim_str(c)
}

/// Whether a type looks like a capability (ends with `Cap`, `Capability`, ...).
fn is_capability_type(t: &str) -> (r: bool)
    ensures
        r == is_capability_type_text(t@),
{
    let c = bare_type_text(t);
    ends_with(c, "Cap") || ends_with(c, "Capability") || ends_with(c, "_cap") || ends_with(c, "AdminCap")
        || ends_with(c, "OwnerCap") || ends_with(c, "TreasuryCap")
}

/// Whether a type is `TxContext`.
fn is_tx_context_type(t: &str) -> (r: bool)
    ensures
        r == is_tx_context_type_text(t@),
{
    let c = bare_type_text(t);
    str_eq(c, "TxContext") || ends_with(c, "::TxContext")
}

/// Capability parameters should come first (or second, after `TxContext`).
pub struct AdminCapPositionLint;

impl AdminCapPositionLint {
    pub fn descriptor(&self) -> (r: LintDescriptor)
        ensures
            r == admin_cap_position_descriptor(),
    {
        LintDescriptor {
            name: "admin_cap_position",
            category: LintCategory::Style,
            description: "Capability parameters should be first (or second after TxContext)",
            group: RuleGroup::Stable,
            fix: FixDescriptor { available: false, safety: FixSafety::Safe, description: "" },
            analysis: AnalysisKind::Syntactic,
            gap: None,
        }
    }

    /// The typed parameters of list node `pl`: nodes and type texts.
    fn params(&self, tree: &SyntaxTree, source: &SourceText, pl: usize) -> (r: (Vec<usize>, Vec<String>))
        requires
            pl < tree@.len(),
        ensures
            r.0@.len() == r.1@.len(),
            r.0@.len() == typed_params(tree@, source@, pl as int, tree@[pl as int].children.len() as int).len(),
            forall|k: int|
                0 <= k < r.0@.len() ==> (#[trigger] typed_params(
                    tree@,
                    source@,
                    pl as int,
                    tree@[pl as int].children.len() as int,
                )[k]) == (r.0@[k] as int, r.1@[k]@),
            forall|k: int| 0 <= k < r.0@.len() ==> #[trigger] r.0@[k] < tree@.len(),
    {
        let cs = tree.children(pl);
        let mut nodes: Vec<usize> = Vec::new();
        let mut types: Vec<String> = Vec::new();
        let mut j: usize = 0;
        while j < cs.len()
            invariant
                pl < tree@.len(),
                cs@ == tree@[pl as int].children,
                forall|t: int| 0 <= t < cs@.len() ==> pl < #[trigger] cs@[t] < tree@.len(),
                j <= cs@.len(),
                nodes@.len() == types@.len(),
                nodes@.len() == typed_params(tree@, source@, pl as int, j as int).len(),
                forall|k: int|
                    0 <= k < nodes@.len() ==> (#[trigger] typed_params(tree@, source@, pl as int, j as int)[k]) == (
                    nodes@[k] as int,
                    types@[k]@,
                ),
                forall|k: int| 0 <= k < nodes@.len() ==> #[trigger] nodes@[k] < tree@.len(),
            decreases cs.len() - j,
        {
            let c = cs[j];
            let ghost before = typed_params(tree@, source@, pl as int, j as int);
            if tree.is_kind(c, "function_parameter") || tree.is_kind(c, "mut_function_parameter") {
                match tree.child_by_field_name(c, "type") {
                    Some(t) => {
                        let text = tree.text(source, t);
                        let tt = to_owned_string(trim_str(text.as_str()));
                        nodes.push(c);
                        types.push(tt);
                        proof {
                            let after = typed_params(tree@, source@, pl as int, j + 1);
                            assert(after == before.push((c as int, trim(node_text(tree@, source@, t as int)))));
                            assert forall|k: int| 0 <= k < nodes@.len() implies (#[trigger] after[k]) == (
                                nodes@[k] as int,
                                types@[k]@,
                            ) by {
                                if k < before.len() {
                                    assert(after[k] == before[k]);
                                }
                            }
                        }
                    },
                    None => {},
                }
            }
            j = j + 1;
        }
        (nodes, types)
    }

    /// Reports capability parameters placed after other parameters.
    pub fn check(&self, tree: &SyntaxTree, source: &SourceText, ctx: &mut LintContext)
        ensures
            final(ctx)@ == findings_reported_at(
                old(ctx)@,
                tree@,
                |i: int| admin_cap_position_finding(tree@, source@, i),
                tree@.len() as int,
            ),
    {
        let mut i: usize = 0;
        while i < tree.len()
            invariant
                i <= tree@.len(),
                ctx@ == findings_reported_at(
                    old(ctx)@,
                    tree@,
                    |i: int| admin_cap_position_finding(tree@, source@, i),
                    i as int,
                ),
            decreases tree@.len() - i,
        {
            if tree.is_kind(i, "function_definition") {
                match tree.child_by_field_name(i, "parameters") {
                    None => {},
                    Some(pl) => {
                        let (nodes, types) = self.params(tree, source, pl);
                        let ghost ps = typed_params(tree@, source@, pl as int, tree@[pl as int].children.len() as int);
                        if nodes.len() > 0 {
                            let mut k: usize = 0;
                            while k < types.len() && !is_capability_type(types[k].as_str())
                                invariant
                                    k <= types@.len(),
                                    types@.len() == ps.len(),
                                    forall|m: int| 0 <= m < types@.len() ==> (#[trigger] ps[m]).1 == types@[m]@,
                                    first_capability(ps, 0) == first_capability(ps, k as int),
                                decreases types.len() - k,
                            {
                                assert(ps[k as int].1 == types@[k as int]@);
                                k = k + 1;
                            }
                            if k < types.len() {
                                assert(ps[k as int].1 == types@[k as int]@);
                                assert(ps[0].1 == types@[0]@);
                                let tx_first = is_tx_context_type(types[0].as_str());
                                let expected: usize = if tx_first { 1 } else { 0 };
                                if k > expected {
                                    let lint = self.descriptor();
                                    let mut msg = to_owned_string("Capability parameter `");
                                    push_str(&mut msg, types[k].as_str());
                                    push_str(&mut msg, "` should be ");
                                    push_str(&mut msg, if tx_first { "second (after TxContext)" } else { "first" });
                                    push_str(&mut msg, " in the parameter list");
                                    assert(ps[k as int].0 == nodes@[k as int] as int);
                                    ctx.report_node(tree, &lint, nodes[k], msg);
                                }
                            } else {
                                assert(first_capability(ps, k as int) is None);
                            }
                        }
                    },
                }
            }
            i = i + 1;
        }
    }
}

} // verus!
