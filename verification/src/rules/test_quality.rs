//! Lints on how tests are written.
use vstd::prelude::*;
use crate::context::{position_from_byte_offset, position_of, reported_in_module, ContextView, LintContext};
use crate::diagnostics::{Position, Span};
use crate::lint::{AnalysisKind, FixDescriptor, FixSafety, LintCategory, LintDescriptor, RuleGroup};
use crate::rules::modernization::node_text;
use crate::rules::util::{all_ws, is_exact_test_attr, is_expected_failure_attr, is_only_whitespace_between};
use crate::syntax::{text_of, NodeView, SourceText, SyntaxTree};
use crate::text::{byte_len, contains, ends_with, starts_with, to_owned_string, trim, trim_str};

verus! {

pub open spec fn merge_test_attributes_descriptor() -> LintDescriptor {
    LintDescriptor {
        name: "merge_test_attributes",
        category: LintCategory::TestQuality,
        description: "Merge stacked #[test] and #[expected_failure] into a single attribute list",
        group: RuleGroup::Stable,
        fix: FixDescriptor { available: false, safety: FixSafety::Safe, description: "" },
        analysis: AnalysisKind::Syntactic,
        gap: None,
    }
}

/// Node `i`'s trimmed text has the shape of an attribute, `#[...]`.
pub open spec fn is_attribute_text(ns: Seq<NodeView>, src: Seq<char>, i: int) -> bool {
    let t = trim(node_text(ns, src, i));
    "#["@.is_prefix_of(t) && "]"@.is_suffix_of(t)
}

/// The byte ranges of the attribute-shaped nodes among the first `k`, in node order.
pub open spec fn attribute_ranges(ns: Seq<NodeView>, src: Seq<char>, k: int) -> Seq<(usize, usize)>
    decreases k,
{
    if k <= 0 || k > ns.len() {
        Seq::empty()
    } else {
        let r = attribute_ranges(ns, src, k - 1);
        if is_attribute_text(ns, src, k - 1) {
            r.push((ns[k - 1].start_byte, ns[k - 1].end_byte))
        } else {
            r
        }
    }
}

/// `x` inserted into `s` after the last entry, counted from the end, whose
/// start is at most `x`'s: one step of a stable sort by start.
pub open spec fn insert_by_start(s: Seq<(usize, usize)>, x: (usize, usize)) -> Seq<(usize, usize)>
    decreases s.len(),
{
    if s.len() == 0 {
        seq![x]
    } else if s.last().0 <= x.0 {
        s.push(x)
    } else {
        insert_by_start(s.drop_last(), x).push(s.last())
    }
}

/// `s` stably sorted by start.
pub open spec fn sort_by_start(s: Seq<(usize, usize)>) -> Seq<(usize, usize)>
    decreases s.len(),
{
    if s.len() == 0 {
        s
    } else {
        insert_by_start(sort_by_start(s.drop_last()), s.last())
    }
}

/// `#[test]` at range `a` and `#[expected_failure...]` at range `b`, with only
/// whitespace between them.
pub open spec fn mergeable(src: Seq<char>, a: (usize, usize), b: (usize, usize)) -> bool {
    let at = trim(text_of(src, a.0, a.1));
    let bt = trim(text_of(src, b.0, b.1));
    &&& at == "#[test]"@
    &&& "#[expected_failure"@.is_prefix_of(bt) && "]"@.is_suffix_of(bt) && !contains(bt, ","@)
    &&& all_ws(text_of(src, a.1, b.0))
}

pub open spec fn merge_message() -> Seq<char> {
    "Merge `#[test]` and `#[expected_failure]` into `#[test, expected_failure]`"@
}

/// The state after reporting each mergeable pair among the first `k`
/// consecutive pairs of `rs`.
pub open spec fn merge_pairs_reported(v: ContextView, src: Seq<char>, rs: Seq<(usize, usize)>, k: int) -> ContextView
    decreases k,
{
    if k <= 0 || k >= rs.len() {
        v
    } else {
        let w = merge_pairs_reported(v, src, rs, k - 1);
        let a = rs[k - 1];
        let b = rs[k];
        if mergeable(src, a, b) {
            reported_in_module(
                w,
                merge_test_attributes_descriptor(),
                Span { start: position_of(src, a.0 as int), end: position_of(src, b.1 as int) },
                merge_message(),
            )
        } else {
            w
        }
    }
}

/// What `merge_test_attributes` does to a context.
pub open spec fn merge_test_attributes_effect(v: ContextView, ns: Seq<NodeView>, src: Seq<char>) -> ContextView {
    let rs = sort_by_start(attribute_ranges(ns, src, ns.len() as int));
    merge_pairs_reported(v, src, rs, rs.len() - 1)
}

proof fn lemma_insert_by_start(s: Seq<(usize, usize)>, x: (usize, usize), p: int)
    requires
        0 <= p <= s.len(),
        forall|j: int| p <= j < s.len() ==> #[trigger] s[j].0 > x.0,
    ensures
        insert_by_start(s, x) == insert_by_start(s.take(p), x) + s.skip(p),
    decreases s.len() - p,
{
    if p == s.len() {
        assert(s.take(p) =~= s);
        assert(s.skip(p) =~= Seq::<(usize, usize)>::empty());
        assert(insert_by_start(s, x) + Seq::<(usize, usize)>::empty() =~= insert_by_start(s, x));
    } else {
        let t = s.drop_last();
        assert forall|j: int| p <= j < t.len() implies #[trigger] t[j].0 > x.0 by {
            assert(t[j] == s[j]);
        }
        lemma_insert_by_start(t, x, p);
        assert(t.take(p) =~= s.take(p));
        assert(t.skip(p).push(s.last()) =~= s.skip(p));
        assert(insert_by_start(s, x) == insert_by_start(t, x).push(s.last()));
        assert((insert_by_start(t.take(p), x) + t.skip(p)).push(s.last()) =~= insert_by_start(t.take(p), x)
            + t.skip(p).push(s.last()));
    }
}

/// The attribute ranges stably sorted by start.
fn sorted_attribute_ranges(tree: &SyntaxTree, source: &SourceText) -> (r: Vec<(usize, usize)>)
    ensures
        r@ == sort_by_start(attribute_ranges(tree@, source@, tree@.len() as int)),
{
    let mut r: Vec<(usize, usize)> = Vec::new();
    let ghost found: Seq<(usize, usize)> = Seq::empty();
    let mut i: usize = 0;
    while i < tree.len()
        invariant
            i <= tree@.len(),
            found == attribute_ranges(tree@, source@, i as int),
            r@ == sort_by_start(found),
        decreases tree@.len() - i,
    {
        let text = tree.text(source, i);
        let t = trim_str(text.as_str());
        if starts_with(t, "#[") && ends_with(t, "]") {
            let x = (tree.start_byte(i), tree.end_byte(i));
            let mut p = r.len();
            while p > 0 && r[p - 1].0 > x.0
                invariant
                    p <= r@.len(),
                    forall|j: int| p <= j < r@.len() ==> #[trigger] r@[j].0 > x.0,
                decreases p,
            {
                p = p - 1;
            }
            proof {
                lemma_insert_by_start(r@, x, p as int);
                let h = r@.take(p as int);
                if p > 0 {
                    assert(h.last() == r@[p - 1]);
                    assert(insert_by_start(h, x) == h.push(x));
                } else {
                    assert(h =~= Seq::<(usize, usize)>::empty());
                }
                assert(h.push(x) + r@.skip(p as int) =~= r@.insert(p as int, x));
                assert(found.push(x).drop_last() =~= found);
            }
            r.insert(p, x);
            proof {
                found = found.push(x);
            }
        }
        i = i + 1;
    }
    r
}

/// `#[test]` and `#[expected_failure]` stacked separately should be merged.
pub struct MergeTestAttributesLint;

impl MergeTestAttributesLint {
    pub fn descriptor(&self) -> (r: LintDescriptor)
        ensures
            r == merge_test_attributes_descriptor(),
    {
        LintDescriptor {
            name: "merge_test_attributes",
            category: LintCategory::TestQuality,
            description: "Merge stacked #[test] and #[expected_failure] into a single attribute list",
            group: RuleGroup::Stable,
            fix: FixDescriptor { available: false, safety: FixSafety::Safe, description: "" },
            analysis: AnalysisKind::Syntactic,
            gap: None,
        }
    }

    /// Reports every `#[test]` directly followed by a separate `#[expected_failure]`.
    pub fn check(&self, tree: &SyntaxTree, source: &SourceText, ctx: &mut LintContext)
        requires
            byte_len(source@) < usize::MAX,
        ensures
            final(ctx)@ == merge_test_attributes_effect(old(ctx)@, tree@, source@),
    {
        let rs = sorted_attribute_ranges(tree, source);
        let full = source.full_text();
        let lint = self.descriptor();
        if rs.len() < 2 {
            return;
        }
        let mut k: usize = 1;
        while k < rs.len()
            invariant
                1 <= k <= rs@.len(),
                full@ == source@,
                byte_len(source@) < usize::MAX,
                lint == merge_test_attributes_descriptor(),
                rs@ == sort_by_start(attribute_ranges(tree@, source@, tree@.len() as int)),
                ctx@ == merge_pairs_reported(old(ctx)@, source@, rs@, k - 1),
            decreases rs.len() - k,
        {
            let (a_start, a_end) = rs[k - 1];
            let (b_start, b_end) = rs[k];
            let a_text = source.slice(a_start, a_end);
            let b_text = source.slice(b_start, b_end);
            if is_exact_test_attr(a_text.as_str()) && is_expected_failure_attr(b_text.as_str())
                && is_only_whitespace_between(source, a_end, b_start) {
                let span = Span {
                    start: position_from_byte_offset(full.as_str(), a_start),
                    end: position_from_byte_offset(full.as_str(), b_end),
                };
                ctx.report(
                    &lint,
                    span,
                    to_owned_string("Merge `#[test]` and `#[expected_failure]` into `#[test, expected_failure]`"),
                );
            }
            k = k + 1;
        }
    }
}

} // verus!
