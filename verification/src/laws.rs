//! Properties that hold across the library's operations.
use vstd::prelude::*;
use crate::annotations::{item_annotations, scope_of, ScopeView};
use crate::context::{
    after_cache, after_fired, final_report, is_module_expectation_error, level_at, module_level, reported,
    reported_in_module, ContextView,
};
use crate::diagnostics::{DiagView, Span};
use crate::engine::{canonical_names, rule_descriptor, selected_rules, RuleKind};
use crate::level::LintLevel;
use crate::semantic::{find_semantic_from, semantic_count, semantic_descriptor};
use crate::lint::{apply_levels, canonical, category_name, effective_level, level_in, LintCategory, LintDescriptor, RuleGroup};
use crate::rules::modernization::{first_line, legacy_header, modern_module_syntax_descriptor, modern_module_syntax_finding, node_text};
use crate::rules::style::{constant_naming_finding, error_like, valid_regular_constant};
use crate::syntax::{field_child_from, NodeView};
use crate::order::{lemma_sorted_listing_contains, sorted_listing};
use crate::fix::{apply_ok, apply_seq, edit_error, lemma_no_edit_error, lemma_no_overlap, lemma_range_pos_bounds, lemma_range_pos_split, lemma_valid_edits_apply, overlaps, range_before, range_pos_from, sort_by_range, splice_edit, spliced, step_ok, validation, EditView};
use crate::text::{byte_len, char_idx, find, is_ascii_digit, is_ascii_lower, is_ascii_upper, is_boundary_at, is_char_boundary, lemma_find_from_some, matches_at, trim, lemma_boundary_unique, lemma_byte_len_concat, lemma_byte_len_take_mono};

verus! {

/// An item's `allow` of a lint silences it there: when the item's directives
/// allow the lint by name, deny neither it nor its category, and neither the
/// file nor the item expects it, a report of it adds no diagnostic.
pub proof fn law_item_allow_silences(v: ContextView, lint: LintDescriptor, anchor: usize, d: DiagView)
    requires
        scope_of(item_annotations(v.source, anchor as int)).0.contains(lint.name@),
        !scope_of(item_annotations(v.source, anchor as int)).1.contains(lint.name@),
        !scope_of(item_annotations(v.source, anchor as int)).1.contains(category_name(lint.category)),
        !v.module_scope.2.contains(lint.name@),
        !v.module_scope.2.contains(category_name(lint.category)),
        !scope_of(item_annotations(v.source, anchor as int)).2.contains(lint.name@),
        !scope_of(item_annotations(v.source, anchor as int)).2.contains(category_name(lint.category)),
    ensures
        reported(v, lint, anchor, d).diagnostics == v.diagnostics,
{
}

/// An item's `deny` of a lint makes every report of it there an error.
pub proof fn law_item_deny_is_error(v: ContextView, lint: LintDescriptor, anchor: usize, d: DiagView)
    requires
        scope_of(item_annotations(v.source, anchor as int)).1.contains(lint.name@),
    ensures
        reported(v, lint, anchor, d).diagnostics == v.diagnostics.push(
            DiagView { level: LintLevel::Error, ..d },
        ),
{
}

/// A lint that the file or the item expects is never silenced: its report
/// always adds a diagnostic.
pub proof fn law_expected_lint_is_reported(v: ContextView, lint: LintDescriptor, anchor: usize, d: DiagView)
    requires
        v.module_scope.2.contains(lint.name@) || scope_of(item_annotations(v.source, anchor as int)).2.contains(
            lint.name@,
        ),
    ensures
        reported(v, lint, anchor, d).diagnostics.len() == v.diagnostics.len() + 1,
{
}

/// A report that is not silenced meets the expectations of its lint: the
/// file's expectation of it is no longer unmet, nor the item's.
pub proof fn law_report_meets_expectation(v: ContextView, lint: LintDescriptor, anchor: usize, d: DiagView)
    requires
        level_at(after_cache(v, anchor), lint, anchor) != LintLevel::Allow,
    ensures
        !reported(v, lint, anchor, d).module_unfired.contains(lint.name@),
        reported(v, lint, anchor, d).item_unfired.contains_key(anchor) ==> !reported(
            v,
            lint,
            anchor,
            d,
        ).item_unfired[anchor].contains(lint.name@),
{
}

/// A file-level report that is not silenced meets the file's expectations of
/// its lint and of its category.
pub proof fn law_module_report_meets_expectation(v: ContextView, lint: LintDescriptor, span: Span, message: Seq<char>)
    requires
        module_level(v, lint) != LintLevel::Allow,
    ensures
        !reported_in_module(v, lint, span, message).module_unfired.contains(lint.name@),
        !reported_in_module(v, lint, span, message).module_unfired.contains(category_name(lint.category)),
        reported_in_module(v, lint, span, message).diagnostics.len() == v.diagnostics.len() + 1,
{
}

/// An expectation of the file that nothing met ends in an error naming it.
pub proof fn law_unmet_expectation_is_error(v: ContextView, rv: Seq<DiagView>, name: Seq<char>)
    requires
        final_report(v, rv),
        v.module_unfired.finite(),
        v.module_unfired.contains(name),
    ensures
        exists|k: int| 0 <= k < rv.len() && is_module_expectation_error(#[trigger] rv[k], name),
{
    lemma_sorted_listing_contains(v.module_unfired, name);
    let m = sorted_listing(v.module_unfired);
    let k = choose|k: int| 0 <= k < m.len() && m[k] == name;
    let n = v.diagnostics.len();
    assert(is_module_expectation_error(rv[n + k], m[k]));
}

/// Reading an item's directives twice is the same as reading them once.
pub proof fn law_directives_read_once(v: ContextView, anchor: usize)
    ensures
        after_cache(after_cache(v, anchor), anchor) == after_cache(v, anchor),
{
}

/// A configured level is the level read back for that lint.
pub proof fn law_configured_level_read_back(
    m: Map<Seq<char>, LintLevel>,
    name: Seq<char>,
    level: LintLevel,
)
    ensures
        level_in(apply_levels(m, seq![(name, level)]), name) == level,
{
    assert(seq![(name, level)].drop_last() =~= Seq::<(Seq<char>, LintLevel)>::empty());
    assert(canonical(name) == name);
}

/// A disabled lint reads back as allowed.
pub proof fn law_disabled_is_allowed(m: Map<Seq<char>, LintLevel>, names: Seq<Seq<char>>, name: Seq<char>)
    requires
        names.contains(name),
    ensures
        level_in(apply_levels(m, names.map_values(|s: Seq<char>| (s, LintLevel::Allow))), name)
            == LintLevel::Allow,
    decreases names.len(),
{
    let ls = names.map_values(|s: Seq<char>| (s, LintLevel::Allow));
    assert(canonical(name) == name);
    if names.last() == name {
        assert(ls.last() == (name, LintLevel::Allow));
    } else {
        let d = names.drop_last();
        let k = choose|k: int| 0 <= k < names.len() && names[k] == name;
        assert(d[k] == name);
        law_disabled_is_allowed(m, d, name);
        assert(ls.drop_last() =~= d.map_values(|s: Seq<char>| (s, LintLevel::Allow)));
        assert(canonical(ls.last().0) == ls.last().0);
    }
}

/// Without `preview` or `experimental`, no preview or experimental rule is kept.
pub proof fn law_default_rules_exclude_unstable(
    rules: Seq<RuleKind>,
    only: Seq<String>,
    skip: Seq<String>,
    disabled: Seq<String>,
    full_mode: bool,
)
    ensures
        forall|i: int|
            0 <= i < selected_rules(rules, only, skip, disabled, full_mode, false, false).len() ==> {
                let g = rule_descriptor(
                    #[trigger] selected_rules(rules, only, skip, disabled, full_mode, false, false)[i],
                ).group;
                g != RuleGroup::Preview && g != RuleGroup::Experimental
            },
    decreases rules.len(),
{
    if rules.len() > 0 {
        law_default_rules_exclude_unstable(rules.drop_last(), only, skip, disabled, full_mode);
    }
}

/// `--experimental` implies `--preview`: the rules kept with `experimental`
/// set are the same whether or not `preview` is set.
pub proof fn law_experimental_implies_preview(
    rules: Seq<RuleKind>,
    only: Seq<String>,
    skip: Seq<String>,
    disabled: Seq<String>,
    full_mode: bool,
)
    ensures
        selected_rules(rules, only, skip, disabled, full_mode, false, true) == selected_rules(
            rules,
            only,
            skip,
            disabled,
            full_mode,
            true,
            true,
        ),
    decreases rules.len(),
{
    if rules.len() > 0 {
        law_experimental_implies_preview(rules.drop_last(), only, skip, disabled, full_mode);
    }
}

/// Replacing a byte range with new text, then replacing the new text with
/// the old, gives back the source.
pub proof fn law_replace_roundtrip(s: Seq<char>, a: usize, b: usize, rep: Seq<char>)
    requires
        step_ok(s, (a, b, rep)),
        a + byte_len(rep) <= usize::MAX,
    ensures
        ({
            let t = splice_edit(s, (a, b, rep));
            let back = (a, (a + byte_len(rep)) as usize, s.subrange(char_idx(s, a as int), char_idx(s, b as int)));
            step_ok(t, back) && splice_edit(t, back) == s
        }),
{
    let k1 = char_idx(s, a as int);
    let k2 = char_idx(s, b as int);
    assert(is_boundary_at(s, k1, a as int));
    assert(is_boundary_at(s, k2, b as int));
    if k2 < k1 {
        lemma_byte_len_take_mono(s, k2, k1);
    }
    let t = splice_edit(s, (a, b, rep));
    assert(t == s.take(k1) + rep + s.skip(k2));
    let e = (a + byte_len(rep)) as usize;
    assert(t.take(k1) =~= s.take(k1));
    assert(is_boundary_at(t, k1, a as int));
    assert(t.take(k1 + rep.len()) =~= s.take(k1) + rep);
    lemma_byte_len_concat(s.take(k1), rep);
    assert(is_boundary_at(t, k1 + rep.len(), e as int));
    let c1 = char_idx(t, a as int);
    let c2 = char_idx(t, e as int);
    lemma_boundary_unique(t, k1, c1, a as int);
    lemma_boundary_unique(t, k1 + rep.len(), c2, e as int);
    let back = (a, e, s.subrange(k1, k2));
    assert(splice_edit(t, back) =~= s);
}

/// Inserting two edits with different (start, end) into a list, as the sort
/// of `apply_fixes` does, gives the same list in either order.
proof fn lemma_insert_commutes(s: Seq<EditView>, x: EditView, y: EditView)
    requires
        range_before(y, x),
    ensures
        ({
            let sx = s.insert(range_pos_from(s, x, 0), x);
            let sy = s.insert(range_pos_from(s, y, 0), y);
            sx.insert(range_pos_from(sx, y, 0), y) == sy.insert(range_pos_from(sy, x, 0), x)
        }),
{
    let px = range_pos_from(s, x, 0);
    let py = range_pos_from(s, y, 0);
    lemma_range_pos_bounds(s, x, 0);
    lemma_range_pos_bounds(s, y, 0);
    lemma_range_pos_split(s, x, 0);
    lemma_range_pos_split(s, y, 0);
    // Everything before `px` comes at or after `x`, so after `y` too.
    assert(px <= py) by {
        if py < px {
            assert(!range_before(s[py], x));
        }
    }
    let sx = s.insert(px, x);
    let sy = s.insert(py, y);
    lemma_range_pos_split(sx, y, 0);
    lemma_range_pos_bounds(sx, y, 0);
    lemma_range_pos_split(sy, x, 0);
    lemma_range_pos_bounds(sy, x, 0);
    let qy = range_pos_from(sx, y, 0);
    let qx = range_pos_from(sy, x, 0);
    assert(qy == py + 1) by {
        if qy < py + 1 {
            if qy < px {
                assert(sx[qy] == s[qy]);
            } else if qy == px {
                assert(sx[qy] == x);
            } else {
                assert(sx[qy] == s[qy - 1]);
            }
        }
        if py < s.len() {
            assert(sx[py + 1] == s[py]);
        }
    }
    assert(qx == px) by {
        if qx < px {
            assert(sy[qx] == s[qx]);
        }
        if px < sy.len() {
            if px < py {
                assert(sy[px] == s[px]);
            } else {
                assert(sy[px] == y);
            }
        }
    }
    assert(sx.insert(qy, y) =~= sy.insert(qx, x));
}

/// Edits may come in any order: exchanging two neighbouring edits that differ
/// in start or end changes neither whether `apply_fixes` accepts the list nor
/// the order in which it applies the edits.
pub proof fn law_edit_order_irrelevant(es: Seq<EditView>, i: int, len: usize)
    requires
        0 <= i,
        i + 1 < es.len(),
        es[i].0 != es[i + 1].0 || es[i].1 != es[i + 1].1,
    ensures
        ({
            let sw = es.update(i, es[i + 1]).update(i + 1, es[i]);
            &&& (validation(sw, len) is Ok) == (validation(es, len) is Ok)
            &&& sort_by_range(sw) == sort_by_range(es)
        }),
{
    let sw = es.update(i, es[i + 1]).update(i + 1, es[i]);
    let x = es[i];
    let y = es[i + 1];
    // Validity: the same edits, and overlapping is symmetric.
    lemma_no_edit_error(es, len, 0);
    lemma_no_edit_error(sw, len, 0);
    lemma_no_overlap(es, 0);
    lemma_no_overlap(sw, 0);
    let perm = |k: int| if k == i { i + 1 } else if k == i + 1 { i } else { k };
    assert forall|k: int| 0 <= k < es.len() implies sw[k] == es[perm(k)] by {}
    if forall|k: int| 0 <= k < es.len() ==> edit_error(#[trigger] es[k], len) is None {
        assert forall|k: int| 0 <= k < sw.len() implies edit_error(#[trigger] sw[k], len) is None by {
            assert(sw[k] == es[perm(k)]);
        }
    }
    if forall|k: int| 0 <= k < sw.len() ==> edit_error(#[trigger] sw[k], len) is None {
        assert forall|k: int| 0 <= k < es.len() implies edit_error(#[trigger] es[k], len) is None by {
            assert(es[k] == sw[perm(k)]);
        }
    }
    if forall|k: int, j: int| 0 <= k < j < es.len() ==> !overlaps(#[trigger] es[k], #[trigger] es[j]) {
        assert forall|k: int, j: int| 0 <= k < j < sw.len() implies !overlaps(#[trigger] sw[k], #[trigger] sw[j]) by {
            assert(sw[k] == es[perm(k)]);
            assert(sw[j] == es[perm(j)]);
            if perm(k) > perm(j) {
                assert(!overlaps(es[perm(j)], es[perm(k)]));
            }
        }
    }
    if forall|k: int, j: int| 0 <= k < j < sw.len() ==> !overlaps(#[trigger] sw[k], #[trigger] sw[j]) {
        assert forall|k: int, j: int| 0 <= k < j < es.len() implies !overlaps(#[trigger] es[k], #[trigger] es[j]) by {
            assert(es[k] == sw[perm(k)]);
            assert(es[j] == sw[perm(j)]);
            if perm(k) > perm(j) {
                assert(!overlaps(sw[perm(j)], sw[perm(k)]));
            }
        }
    }
    // Order: the prefixes up to the pair agree, the pair commutes, the rest agrees.
    let pre = es.take(i);
    assert(sw.take(i) =~= pre);
    let s0 = sort_by_range(pre);
    assert(es.take(i + 1).drop_last() =~= pre);
    assert(sw.take(i + 1).drop_last() =~= pre);
    assert(es.take(i + 2).drop_last() =~= es.take(i + 1));
    assert(sw.take(i + 2).drop_last() =~= sw.take(i + 1));
    assert(es.take(i + 1).last() == x);
    assert(es.take(i + 2).last() == y);
    assert(sw.take(i + 1).last() == y);
    assert(sw.take(i + 2).last() == x);
    let sx = s0.insert(range_pos_from(s0, x, 0), x);
    let sy = s0.insert(range_pos_from(s0, y, 0), y);
    assert(sort_by_range(es.take(i + 1)) == sx);
    assert(sort_by_range(sw.take(i + 1)) == sy);
    assert(sort_by_range(es.take(i + 2)) == sx.insert(range_pos_from(sx, y, 0), y));
    assert(sort_by_range(sw.take(i + 2)) == sy.insert(range_pos_from(sy, x, 0), x));
    if range_before(y, x) {
        lemma_insert_commutes(s0, x, y);
    } else {
        lemma_insert_commutes(s0, y, x);
    }
    assert(sort_by_range(sw.take(i + 2)) == sort_by_range(es.take(i + 2)));
    lemma_sort_by_range_same_rest(sw, es, i + 2);
}

/// Lists that agree from position `k` on, and whose first `k` edits sort
/// alike, sort alike.
proof fn lemma_sort_by_range_same_rest(a: Seq<EditView>, b: Seq<EditView>, k: int)
    requires
        0 <= k <= a.len(),
        a.len() == b.len(),
        forall|j: int| k <= j < a.len() ==> a[j] == b[j],
        sort_by_range(a.take(k)) == sort_by_range(b.take(k)),
    ensures
        sort_by_range(a) == sort_by_range(b),
    decreases a.len() - k,
{
    if k < a.len() {
        assert(a.take(k + 1).drop_last() =~= a.take(k));
        assert(b.take(k + 1).drop_last() =~= b.take(k));
        assert(a[k] == b[k]);
        lemma_sort_by_range_same_rest(a, b, k + 1);
    } else {
        assert(a.take(k) =~= a);
        assert(b.take(k) =~= b);
    }
}


// ---------------------------------------------------------------------------
// Configured levels
// ---------------------------------------------------------------------------
/// With no alias defined, every lint name is its own canonical name.
proof fn lemma_canonical_is_name(x: Seq<char>)
    ensures
        canonical(x) == x,
{
}

/// Levels set for other names leave the level stored for `x` as it was.
proof fn lemma_apply_levels_other(m: Map<Seq<char>, LintLevel>, ls: Seq<(Seq<char>, LintLevel)>, x: Seq<char>)
    requires
        forall|i: int| 0 <= i < ls.len() ==> canonical(#[trigger] ls[i].0) != x,
    ensures
        apply_levels(m, ls).contains_key(x) == m.contains_key(x),
        m.contains_key(x) ==> apply_levels(m, ls)[x] == m[x],
    decreases ls.len(),
{
    if ls.len() > 0 {
        assert(canonical(ls[ls.len() - 1].0) != x);
        lemma_apply_levels_other(m, ls.drop_last(), x);
    }
}

/// The level set for `ls[i]` is stored when no later entry names the same lint.
proof fn lemma_apply_levels_read_back(m: Map<Seq<char>, LintLevel>, ls: Seq<(Seq<char>, LintLevel)>, i: int)
    requires
        0 <= i < ls.len(),
        forall|j: int| i < j < ls.len() ==> canonical(#[trigger] ls[j].0) != canonical(ls[i].0),
    ensures
        apply_levels(m, ls).contains_key(canonical(ls[i].0)),
        apply_levels(m, ls)[canonical(ls[i].0)] == ls[i].1,
    decreases ls.len(),
{
    if i < ls.len() - 1 {
        assert(canonical(ls[ls.len() - 1].0) != canonical(ls[i].0));
        assert(ls.drop_last()[i] == ls[i]);
        lemma_apply_levels_read_back(m, ls.drop_last(), i);
    }
}

/// A lint with no configured level reads `Warn`: after configuring levels
/// (as `with_config_levels` does on fresh settings) for names that are not
/// the lint, nor its canonical name, the lint reads the default level.
pub proof fn law_unconfigured_reads_warn(ls: Seq<(Seq<char>, LintLevel)>, name: Seq<char>)
    requires
        forall|i: int| 0 <= i < ls.len() ==> canonical(#[trigger] ls[i].0) != name && canonical(ls[i].0) != canonical(name),
    ensures
        level_in(apply_levels(Map::<Seq<char>, LintLevel>::empty(), ls), name) == LintLevel::Warn,
{
    lemma_canonical_is_name(name);
    lemma_apply_levels_other(Map::<Seq<char>, LintLevel>::empty(), ls, name);
}

/// Configured levels read back: after `with_config_levels`, where no two
/// configured names stand for the same lint, each configured name reads the
/// level given for it.
pub proof fn law_config_levels_read_back(m: Map<Seq<char>, LintLevel>, ls: Seq<(Seq<char>, LintLevel)>)
    requires
        forall|i: int, j: int| 0 <= i < j < ls.len() ==> canonical(#[trigger] ls[i].0) != canonical(#[trigger] ls[j].0),
    ensures
        forall|i: int| 0 <= i < ls.len() ==> level_in(apply_levels(m, ls), #[trigger] ls[i].0) == ls[i].1,
{
    assert forall|i: int| 0 <= i < ls.len() implies level_in(apply_levels(m, ls), #[trigger] ls[i].0) == ls[i].1 by {
        lemma_canonical_is_name(ls[i].0);
        lemma_apply_levels_read_back(m, ls, i);
    }
}

/// Configuring levels leaves every other lint's level as it was: a name that
/// no configured name stands for reads the same level before and after.
pub proof fn law_config_levels_keep_others(m: Map<Seq<char>, LintLevel>, ls: Seq<(Seq<char>, LintLevel)>, other: Seq<char>)
    requires
        forall|i: int| 0 <= i < ls.len() ==> canonical(#[trigger] ls[i].0) != other && canonical(ls[i].0) != canonical(other),
    ensures
        level_in(apply_levels(m, ls), other) == level_in(m, other),
{
    lemma_canonical_is_name(other);
    lemma_apply_levels_other(m, ls, other);
}

/// Disabling lints leaves every other lint's level as it was.
pub proof fn law_disable_keeps_others(m: Map<Seq<char>, LintLevel>, names: Seq<Seq<char>>, other: Seq<char>)
    requires
        forall|i: int| 0 <= i < names.len() ==> canonical(#[trigger] names[i]) != other && canonical(names[i]) != canonical(other),
    ensures
        level_in(apply_levels(m, names.map_values(|s: Seq<char>| (s, LintLevel::Allow))), other) == level_in(m, other),
{
    let ls = names.map_values(|s: Seq<char>| (s, LintLevel::Allow));
    assert forall|i: int| 0 <= i < ls.len() implies canonical(#[trigger] ls[i].0) != other && canonical(ls[i].0) != canonical(other) by {
        assert(ls[i].0 == names[i]);
    }
    law_config_levels_keep_others(m, ls, other);
}

// ---------------------------------------------------------------------------
// Type-based descriptors
// ---------------------------------------------------------------------------
proof fn lemma_find_semantic_from(name: Seq<char>, k: int)
    requires
        0 <= k <= semantic_count(),
    ensures
        (find_semantic_from(name, k) is Some) == exists|j: int| k <= j < semantic_count() && (#[trigger] semantic_descriptor(j)).name@ == name,
        find_semantic_from(name, k) matches Some(d) ==> d.name@ == name && exists|j: int| k <= j < semantic_count() && #[trigger] semantic_descriptor(j) == d,
    decreases semantic_count() - k,
{
    if k < semantic_count() {
        lemma_find_semantic_from(name, k + 1);
        if semantic_descriptor(k).name@ == name {
            assert(k <= k < semantic_count() && semantic_descriptor(k).name@ == name);
        } else {
            assert forall|j: int| k <= j < semantic_count() && (#[trigger] semantic_descriptor(j)).name@ == name implies k + 1 <= j by {}
        }
    }
}

/// `find_descriptor` finds a type-based descriptor exactly when one of that
/// name is listed by `descriptors`, and what it finds is a listed descriptor
/// of that name.
pub proof fn law_find_descriptor_lists(name: Seq<char>)
    ensures
        (find_semantic_from(name, 0) is Some) == exists|j: int| 0 <= j < semantic_count() && (#[trigger] semantic_descriptor(j)).name@ == name,
        find_semantic_from(name, 0) matches Some(d) ==> d.name@ == name && exists|j: int| 0 <= j < semantic_count() && #[trigger] semantic_descriptor(j) == d,
{
    lemma_find_semantic_from(name, 0);
}


// ---------------------------------------------------------------------------
// Edits applied in ascending order
// ---------------------------------------------------------------------------
/// For valid edits whose offsets are char boundaries of the source,
/// `apply_fixes` can apply them all, and its result is the source with the
/// edits, sorted by (start, end) in ascending order, spliced in: the text
/// before the first, its replacement, the text between it and the next, ...,
/// the text after the last. Offsets name bytes of the source itself.
pub proof fn law_fixes_apply_in_ascending_order(s: Seq<char>, es: Seq<EditView>)
    requires
        validation(es, byte_len(s) as usize) is Ok,
        forall|k: int| 0 <= k < es.len() ==> is_char_boundary(s, (#[trigger] es[k]).0 as int) && is_char_boundary(s, es[k].1 as int),
    ensures
        ({
            let a = sort_by_range(es).reverse();
            &&& a.to_multiset() == es.to_multiset()
            &&& forall|i: int, j: int| 0 <= i < j < a.len() ==> !range_before(#[trigger] a[j], #[trigger] a[i])
            &&& forall|i: int, j: int| 0 <= i < j < a.len() ==> #[trigger] a[i].1 <= #[trigger] a[j].0
            &&& apply_ok(s, sort_by_range(es))
            &&& apply_seq(s, sort_by_range(es)) == spliced(s, a)
        }),
{
    lemma_valid_edits_apply(s, es, byte_len(s) as usize);
    let d = sort_by_range(es);
    let a = d.reverse();
    d.lemma_reverse_to_multiset();
    assert forall|i: int, j: int| 0 <= i < j < a.len() implies !range_before(#[trigger] a[j], #[trigger] a[i]) && a[i].1 <= a[j].0 by {
        assert(a[i] == d[d.len() - 1 - i] && a[j] == d[d.len() - 1 - j]);
    }
}


// ---------------------------------------------------------------------------
// Constant names, module headers, directive levels, rule selection
// ---------------------------------------------------------------------------
/// A constant whose name starts with an uppercase letter and holds only
/// uppercase letters, digits and underscores (`SCREAMING_SNAKE_CASE`, such as
/// `MAX_SUPPLY`) draws no `constant_naming` report.
pub proof fn law_screaming_snake_constant_is_accepted(ns: Seq<NodeView>, src: Seq<char>, i: int)
    requires
        match field_child_from(ns, i, "name"@, 0) {
            Some(nn) => {
                let name = trim(node_text(ns, src, nn as int));
                &&& name.len() >= 1
                &&& is_ascii_upper(name[0])
                &&& forall|k: int| 0 <= k < name.len() ==> (is_ascii_upper(#[trigger] name[k]) || is_ascii_digit(name[k]) || name[k] == '_')
            },
            None => true,
        },
    ensures
        constant_naming_finding(ns, src, i) is None,
{
    if 0 <= i < ns.len() && ns[i].kind == "constant"@ {
        if let Some(nn) = field_child_from(ns, i, "name"@, 0) {
            let name = trim(node_text(ns, src, nn as int));
            assert(!error_like(name)) by {
                if error_like(name) {
                    let k = choose|k: int| 1 <= k < name.len() && is_ascii_lower(#[trigger] name[k]);
                    assert(is_ascii_upper(name[k]) || is_ascii_digit(name[k]) || name[k] == '_');
                }
            }
            assert(valid_regular_constant(name));
        }
    }
}

/// A name of regular constant that holds a lowercase letter, or that starts
/// with a digit, is reported by `constant_naming`.
pub proof fn law_non_screaming_constant_is_reported(ns: Seq<NodeView>, src: Seq<char>, i: int, nn: usize)
    requires
        0 <= i < ns.len(),
        ns[i].kind == "constant"@,
        field_child_from(ns, i, "name"@, 0) == Some(nn),
        ({
            let name = trim(node_text(ns, src, nn as int));
            &&& name.len() >= 1
            &&& !(name[0] == 'E')
            &&& (is_ascii_digit(name[0]) || exists|k: int| 0 <= k < name.len() && is_ascii_lower(#[trigger] name[k]))
        }),
    ensures
        constant_naming_finding(ns, src, i) is Some,
{
    let name = trim(node_text(ns, src, nn as int));
    assert(!error_like(name));
    if is_ascii_digit(name[0]) {
        assert(!valid_regular_constant(name));
    } else {
        let k = choose|k: int| 0 <= k < name.len() && is_ascii_lower(#[trigger] name[k]);
        assert(!(is_ascii_upper(name[k]) || is_ascii_digit(name[k]) || name[k] == '_'));
        assert(!valid_regular_constant(name));
    }
}

/// A module whose first line opens a block (`{`) and holds no `;` is
/// reported by `modern_module_syntax`, unless the module allows that lint.
pub proof fn law_block_module_is_reported(ns: Seq<NodeView>, src: Seq<char>, i: int)
    requires
        0 <= i < ns.len(),
        ns[i].kind == "module_definition"@,
        exists|k: int| 0 <= k < first_line(node_text(ns, src, i)).len() && #[trigger] first_line(node_text(ns, src, i))[k] == '{',
        forall|k: int| 0 <= k < first_line(node_text(ns, src, i)).len() ==> #[trigger] first_line(node_text(ns, src, i))[k] != ';',
        !scope_of(item_annotations(src, ns[i].start_byte as int)).0.contains("modern_module_syntax"@),
    ensures
        modern_module_syntax_finding(ns, src, i) is Some,
{
    reveal(modern_module_syntax_finding);
    let h = first_line(node_text(ns, src, i));
    reveal_strlit("{");
    reveal_strlit(";");
    reveal_strlit("modern_module_syntax");
    let k = choose|k: int| 0 <= k < h.len() && #[trigger] h[k] == '{';
    assert(matches_at(h, "{"@, k)) by {
        assert(h.subrange(k, k + 1) =~= "{"@);
    }
    lemma_find_from_some(h, "{"@, 0);
    lemma_find_from_some(h, ";"@, 0);
    if find(h, ";"@) is Some {
        let t = find(h, ";"@)->0;
        assert(matches_at(h, ";"@, t));
        assert(h.subrange(t, t + 1)[0] == h[t]);
        assert(";"@[0] == ';');
    }
    assert(legacy_header(h));
    assert(modern_module_syntax_descriptor().name@ == "modern_module_syntax"@);
}

/// A module-level `allow` of a lint's category silences the lint: when
/// neither the module nor the item denies or expects the lint or its
/// category, and the item does not allow it either way, its level is `Allow`.
pub proof fn law_module_category_allow_silences(
    settings: Map<Seq<char>, LintLevel>,
    name: Seq<char>,
    category: LintCategory,
    module: ScopeView,
    item: ScopeView,
)
    requires
        module.0.contains(category_name(category)),
        !module.1.contains(name),
        !module.1.contains(category_name(category)),
        !item.1.contains(name),
        !item.1.contains(category_name(category)),
        !module.2.contains(name),
        !module.2.contains(category_name(category)),
        !item.2.contains(name),
        !item.2.contains(category_name(category)),
    ensures
        effective_level(settings, name, category, module, item) == LintLevel::Allow,
{
}

/// The same holds of a report of the lint anywhere in the file: it adds no
/// diagnostic.
pub proof fn law_module_category_allow_silences_reports(v: ContextView, lint: LintDescriptor, anchor: usize, d: DiagView)
    requires
        v.module_scope.0.contains(category_name(lint.category)),
        !v.module_scope.1.contains(lint.name@),
        !v.module_scope.1.contains(category_name(lint.category)),
        !v.module_scope.2.contains(lint.name@),
        !v.module_scope.2.contains(category_name(lint.category)),
        !scope_of(item_annotations(v.source, anchor as int)).1.contains(lint.name@),
        !scope_of(item_annotations(v.source, anchor as int)).1.contains(category_name(lint.category)),
        !scope_of(item_annotations(v.source, anchor as int)).2.contains(lint.name@),
        !scope_of(item_annotations(v.source, anchor as int)).2.contains(category_name(lint.category)),
    ensures
        reported(v, lint, anchor, d).diagnostics == v.diagnostics,
        module_level(v, lint) == LintLevel::Allow,
{
}

/// No rule that `skip` or `disabled` names is selected; every selected rule
/// is one of the given rules.
pub proof fn law_skipped_rules_are_not_selected(
    rules: Seq<RuleKind>,
    only: Seq<String>,
    skip: Seq<String>,
    disabled: Seq<String>,
    full_mode: bool,
    preview: bool,
    experimental: bool,
)
    ensures
        forall|i: int, j: int|
            0 <= i < selected_rules(rules, only, skip, disabled, full_mode, preview, experimental).len() && 0 <= j < skip.len()
                ==> rule_descriptor(#[trigger] selected_rules(rules, only, skip, disabled, full_mode, preview, experimental)[i]).name@
                != (#[trigger] skip[j])@,
        forall|i: int, j: int|
            0 <= i < selected_rules(rules, only, skip, disabled, full_mode, preview, experimental).len() && 0 <= j < disabled.len()
                ==> rule_descriptor(#[trigger] selected_rules(rules, only, skip, disabled, full_mode, preview, experimental)[i]).name@
                != (#[trigger] disabled[j])@,
        forall|i: int|
            0 <= i < selected_rules(rules, only, skip, disabled, full_mode, preview, experimental).len()
                ==> rules.contains(#[trigger] selected_rules(rules, only, skip, disabled, full_mode, preview, experimental)[i]),
    decreases rules.len(),
{
    if rules.len() > 0 {
        law_skipped_rules_are_not_selected(rules.drop_last(), only, skip, disabled, full_mode, preview, experimental);
        let sel = selected_rules(rules, only, skip, disabled, full_mode, preview, experimental);
        let rest = selected_rules(rules.drop_last(), only, skip, disabled, full_mode, preview, experimental);
        let r = rules.last();
        assert forall|i: int, j: int| 0 <= i < sel.len() && 0 <= j < skip.len() implies rule_descriptor(#[trigger] sel[i]).name@ != (#[trigger] skip[j])@ by {
            if i < rest.len() {
                assert(sel[i] == rest[i]);
            } else {
                assert(sel[i] == r);
                let names = canonical_names(skip);
                assert(names[j] == canonical(skip[j]@));
                assert(canonical(skip[j]@) == skip[j]@);
            }
        }
        assert forall|i: int, j: int| 0 <= i < sel.len() && 0 <= j < disabled.len() implies rule_descriptor(#[trigger] sel[i]).name@ != (#[trigger] disabled[j])@ by {
            if i < rest.len() {
                assert(sel[i] == rest[i]);
            } else {
                assert(sel[i] == r);
                let names = canonical_names(disabled);
                assert(names[j] == canonical(disabled[j]@));
                assert(canonical(disabled[j]@) == disabled[j]@);
            }
        }
        assert forall|i: int| 0 <= i < sel.len() implies rules.contains(#[trigger] sel[i]) by {
            if i < rest.len() {
                assert(sel[i] == rest[i]);
                assert(rules.drop_last().contains(rest[i]));
                let k = choose|k: int| 0 <= k < rules.drop_last().len() && rules.drop_last()[k] == rest[i];
                assert(rules[k] == rest[i]);
            } else {
                assert(rules[rules.len() - 1] == r);
            }
        }
    }
}

/// A module whose first line holds no `{` (label syntax, `module a::b;`) is
/// not reported by `modern_module_syntax`.
pub proof fn law_label_module_is_not_reported(ns: Seq<NodeView>, src: Seq<char>, i: int)
    requires
        forall|k: int| 0 <= k < first_line(node_text(ns, src, i)).len() ==> #[trigger] first_line(node_text(ns, src, i))[k] != '{',
    ensures
        modern_module_syntax_finding(ns, src, i) is None,
{
    reveal(modern_module_syntax_finding);
    let h = first_line(node_text(ns, src, i));
    reveal_strlit("{");
    lemma_find_from_some(h, "{"@, 0);
    if find(h, "{"@) is Some {
        let t = find(h, "{"@)->0;
        assert(matches_at(h, "{"@, t));
        assert(h.subrange(t, t + 1)[0] == h[t]);
        assert("{"@[0] == '{');
    }
    assert(!legacy_header(h));
}

/// With `only` given, every selected rule is one that `only` names.
pub proof fn law_only_restricts_selection(
    rules: Seq<RuleKind>,
    only: Seq<String>,
    skip: Seq<String>,
    disabled: Seq<String>,
    full_mode: bool,
    preview: bool,
    experimental: bool,
)
    requires
        only.len() > 0,
    ensures
        forall|i: int|
            0 <= i < selected_rules(rules, only, skip, disabled, full_mode, preview, experimental).len() ==> exists|j: int|
                0 <= j < only.len() && (#[trigger] only[j])@ == rule_descriptor(
                    #[trigger] selected_rules(rules, only, skip, disabled, full_mode, preview, experimental)[i],
                ).name@,
    decreases rules.len(),
{
    if rules.len() > 0 {
        law_only_restricts_selection(rules.drop_last(), only, skip, disabled, full_mode, preview, experimental);
        let sel = selected_rules(rules, only, skip, disabled, full_mode, preview, experimental);
        let rest = selected_rules(rules.drop_last(), only, skip, disabled, full_mode, preview, experimental);
        assert forall|i: int| 0 <= i < sel.len() implies exists|j: int|
            0 <= j < only.len() && (#[trigger] only[j])@ == rule_descriptor(#[trigger] sel[i]).name@ by {
            if i < rest.len() {
                assert(sel[i] == rest[i]);
            } else {
                let names = canonical_names(only);
                let name = rule_descriptor(sel[i]).name@;
                assert(names.contains(name));
                let j = choose|j: int| 0 <= j < names.len() && names[j] == name;
                assert(names[j] == canonical(only[j]@));
                assert(canonical(only[j]@) == only[j]@);
            }
        }
    }
}

/// A module-level `deny` of a lint or its category makes it an error unless
/// the item allows it.
pub proof fn law_module_deny_is_error(
    settings: Map<Seq<char>, LintLevel>,
    name: Seq<char>,
    category: LintCategory,
    module: ScopeView,
    item: ScopeView,
)
    requires
        module.1.contains(name) || module.1.contains(category_name(category)),
        !item.0.contains(name),
        !item.0.contains(category_name(category)),
    ensures
        effective_level(settings, name, category, module, item) == LintLevel::Error,
{
}
} // verus!
