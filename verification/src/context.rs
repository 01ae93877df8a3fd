//! The context that lint rules report into while a file is checked.
//!
//! It applies the file's and the items' directives (`allow`, `deny`,
//! `expect`) to each report, and at the end adds an error for every
//! expectation that no report met.
use vstd::prelude::*;
use crate::annotations::{
    item_annotations, item_scope, module_annotations, module_scope, scope_of, ScopeView,
    SuppressionScope,
};
use crate::diagnostics::{diag_views, opt_suggestion_view, opt_view, DiagView, Diagnostic, Position, Span, Suggestion};
use crate::level::LintLevel;
use crate::lint::{
    category_name, directive_item_kind, effective_level, effective_level_for_scopes,
    is_directive_item_kind, level_in, AnalysisKind, FixDescriptor, FixSafety, LintCategory,
    LintDescriptor, LintSettings, RuleGroup,
};
use crate::names::{string_views, NameSet};
use crate::order::{sorted_listing, sorted_names, sorted_offsets, sort_offsets};
use crate::syntax::{span_of, NodeView, SyntaxTree};
use std::collections::HashMap;
use vstd::std_specs::iter::IteratorSpec;
use crate::text::{byte_len, is_char_boundary, push_str, to_owned_string};

verus! {

// ---------------------------------------------------------------------------
// Positions
// ---------------------------------------------------------------------------
/// Row and column (1-based) reached after reading the first `end` bytes of `b`:
/// a newline starts a new row, any other byte moves one column.
pub open spec fn position_counts(b: Seq<u8>, end: int) -> (int, int)
    decreases end,
{
    if end <= 0 {
        (1, 1)
    } else {
        let p = position_counts(b, end - 1);
        if b[end - 1] == 10u8 {
            (p.0 + 1, 1)
        } else {
            (p.0, p.1 + 1)
        }
    }
}

pub proof fn lemma_position_bounds(b: Seq<u8>, end: int)
    requires
        end >= 0,
    ensures
        1 <= position_counts(b, end).0 <= end + 1,
        1 <= position_counts(b, end).1 <= end + 1,
    decreases end,
{
    if end > 0 {
        lemma_position_bounds(b, end - 1);
    }
}

/// The position of byte `offset` of the UTF-8 encoding of `src`
/// (offsets past the end give the position of the end).
pub open spec fn position_of(src: Seq<char>, offset: int) -> Position {
    let b = vstd::utf8::encode_utf8(src);
    let end = if offset < b.len() {
        offset
    } else {
        b.len() as int
    };
    let p = position_counts(b, end);
    Position { row: p.0 as usize, column: p.1 as usize }
}

/// The position of byte `byte_offset` of `source`, counting bytes.
pub fn position_from_byte_offset(source: &str, byte_offset: usize) -> (r: Position)
    requires
        byte_len(source@) < usize::MAX,
    ensures
        r == position_of(source@, byte_offset as int),
{
    let bytes = source.as_bytes();
    proof {
        crate::text::lemma_encode_len(source@);
    }
    let end = if byte_offset < bytes.len() {
        byte_offset
    } else {
        bytes.len()
    };
    let mut row: usize = 1;
    let mut col: usize = 1;
    let mut i: usize = 0;
    while i < end
        invariant
            end <= bytes@.len(),
            bytes@ == vstd::utf8::encode_utf8(source@),
            bytes@.len() < usize::MAX,
            i <= end,
            (row as int, col as int) == position_counts(bytes@, i as int),
        decreases end - i,
    {
        proof {
            lemma_position_bounds(bytes@, i as int);
        }
        if bytes[i] == 10u8 {
            row = row + 1;
            col = 1;
        } else {
            col = col + 1;
        }
        i = i + 1;
    }
    Position { row, column: col }
}

// ---------------------------------------------------------------------------
// Anchors
// ---------------------------------------------------------------------------
/// The start byte of the nearest node, from `i` up through its ancestors,
/// whose kind carries directives; the node's own start byte when there is none.
pub open spec fn anchor_from(ns: Seq<NodeView>, i: int, origin: int) -> usize
    decreases i,
{
    if i < 0 || i >= ns.len() {
        ns[origin].start_byte
    } else if directive_item_kind(ns[i].kind) {
        ns[i].start_byte
    } else {
        match ns[i].parent {
            Some(p) => if p < i {
                anchor_from(ns, p as int, origin)
            } else {
                ns[origin].start_byte
            },
            None => ns[origin].start_byte,
        }
    }
}

/// The byte at which the directives that govern node `i` are anchored.
pub open spec fn anchor_of(ns: Seq<NodeView>, i: int) -> usize {
    anchor_from(ns, i, i)
}

/// The start byte of the item whose directives govern node `node`.
pub fn anchor_item_start_byte(tree: &SyntaxTree, node: usize) -> (r: usize)
    requires
        node < tree@.len(),
    ensures
        r == anchor_of(tree@, node as int),
{
    let mut cur = node;
    loop
        invariant
            node < tree@.len(),
            cur < tree@.len(),
            anchor_of(tree@, node as int) == anchor_from(tree@, cur as int, node as int),
        decreases cur,
    {
        if is_directive_item_kind(tree.kind(cur)) {
            return tree.start_byte(cur);
        }
        match tree.parent(cur) {
            Some(p) => {
                cur = p;
            },
            None => {
                return tree.start_byte(node);
            },
        }
    }
}

// ---------------------------------------------------------------------------
// The context
// ---------------------------------------------------------------------------
/// The state of a context as plain values.
pub struct ContextView {
    pub source: Seq<char>,
    pub settings: Map<Seq<char>, LintLevel>,
    pub diagnostics: Seq<DiagView>,
    pub module_scope: ScopeView,
    /// Lints expected by the file's directives that have not fired.
    pub module_unfired: Set<Seq<char>>,
    /// Anchors whose item directives have been read.
    pub cached: Set<usize>,
    /// For each anchor, the lints its directives expect that have not fired
    /// (anchors with none left are absent).
    pub item_unfired: Map<usize, Set<Seq<char>>>,
}

/// The lints that the directives of the item at `anchor` expect.
pub open spec fn item_expected(src: Seq<char>, anchor: usize) -> Set<Seq<char>> {
    scope_of(item_annotations(src, anchor as int)).2
}

/// The state after the directives of the item at `anchor` have been read.
pub open spec fn after_cache(v: ContextView, anchor: usize) -> ContextView {
    if v.cached.contains(anchor) {
        v
    } else {
        ContextView {
            cached: v.cached.insert(anchor),
            item_unfired: if item_expected(v.source, anchor) == Set::<Seq<char>>::empty() {
                v.item_unfired
            } else {
                v.item_unfired.insert(anchor, item_expected(v.source, anchor))
            },
            ..v
        }
    }
}

/// The state after a report of a lint named `name` of category `cat` has met
/// the file's expectations it matches.
pub open spec fn after_module_fired(v: ContextView, name: Seq<char>, cat: Seq<char>) -> ContextView {
    ContextView { module_unfired: v.module_unfired.remove(name).remove(cat), ..v }
}

/// The state after a report of a lint named `name` of category `cat` at `anchor`
/// has met the expectations it matches.
pub open spec fn after_fired(v: ContextView, anchor: usize, name: Seq<char>, cat: Seq<char>) -> ContextView {
    ContextView {
        module_unfired: v.module_unfired.remove(name).remove(cat),
        item_unfired: if v.item_unfired.contains_key(anchor) {
            let s = v.item_unfired[anchor].remove(name).remove(cat);
            if s == Set::<Seq<char>>::empty() {
                v.item_unfired.remove(anchor)
            } else {
                v.item_unfired.insert(anchor, s)
            }
        } else {
            v.item_unfired
        },
        ..v
    }
}

/// The level at which `lint` reports at `anchor`.
pub open spec fn level_at(v: ContextView, lint: LintDescriptor, anchor: usize) -> LintLevel {
    effective_level(
        v.settings,
        lint.name@,
        lint.category,
        v.module_scope,
        scope_of(item_annotations(v.source, anchor as int)),
    )
}

/// The state after reporting `lint` over `span` with the module's directives
/// applied: nothing when they allow it, else a diagnostic at their level, and
/// the file's expectations of the lint or its category are met.
pub open spec fn reported_in_module(v: ContextView, lint: LintDescriptor, span: Span, message: Seq<char>) -> ContextView {
    if module_level(v, lint) == LintLevel::Allow {
        v
    } else {
        ContextView {
            module_unfired: v.module_unfired.remove(lint.name@).remove(category_name(lint.category)),
            diagnostics: v.diagnostics.push(
                DiagView {
                    lint,
                    level: module_level(v, lint),
                    file: None,
                    span,
                    message,
                    help: None,
                    suggestion: None,
                },
            ),
            ..v
        }
    }
}

/// The level at which `lint` reports with the file's directives alone
/// (expectations do not keep it).
pub open spec fn module_level(v: ContextView, lint: LintDescriptor) -> LintLevel {
    let cat = category_name(lint.category);
    let l0 = level_in(v.settings, lint.name@);
    let l1 = if v.module_scope.0.contains(lint.name@) || v.module_scope.0.contains(cat) {
        LintLevel::Allow
    } else {
        l0
    };
    if v.module_scope.1.contains(lint.name@) || v.module_scope.1.contains(cat) {
        LintLevel::Error
    } else {
        l1
    }
}

/// The state after a report of `lint` at `anchor`: the item's directives are
/// read; unless the lint is allowed there, the diagnostic `d`, at the level
/// that applies there, is added and the expectations it meets are marked.
pub open spec fn reported(v: ContextView, lint: LintDescriptor, anchor: usize, d: DiagView) -> ContextView {
    let v1 = after_cache(v, anchor);
    if level_at(v1, lint, anchor) == LintLevel::Allow {
        v1
    } else {
        let v2 = after_fired(v1, anchor, lint.name@, category_name(lint.category));
        ContextView { diagnostics: v2.diagnostics.push(DiagView { level: level_at(v1, lint, anchor), ..d }), ..v2 }
    }
}

/// The descriptor of the error for an unmet expectation.
pub open spec fn is_unfulfilled_descriptor(d: LintDescriptor) -> bool {
    &&& d.name@ == "unfulfilled_expectation"@
    &&& d.category == LintCategory::TestQuality
    &&& d.description@ == "An #[expect(lint::...)] directive did not match any emitted diagnostics"@
    &&& d.group == RuleGroup::Stable
    &&& !d.fix.available
    &&& d.fix.safety == FixSafety::Safe
    &&& d.fix.description@ == ""@
    &&& d.analysis == AnalysisKind::Syntactic
    &&& d.gap is None
}

/// The error for a lint that the file's directives expect and that did not fire.
pub open spec fn is_module_expectation_error(d: DiagView, name: Seq<char>) -> bool {
    &&& is_unfulfilled_descriptor(d.lint)
    &&& d.level == LintLevel::Error
    &&& d.file is None
    &&& d.span == (Span { start: Position { row: 1, column: 1 }, end: Position { row: 1, column: 1 } })
    &&& d.message == "Expected `lint::"@ + name + "` to produce a diagnostic in this file, but it did not"@
    &&& d.help == Some("Remove the `#![expect(...)]` directive or adjust the code/lint so it triggers."@)
    &&& d.suggestion is None
}

/// The error for a lint that an item's directives expect and that did not fire.
pub open spec fn is_item_expectation_error(d: DiagView, pos: Position, name: Seq<char>) -> bool {
    &&& is_unfulfilled_descriptor(d.lint)
    &&& d.level == LintLevel::Error
    &&& d.file is None
    &&& d.span == (Span { start: pos, end: pos })
    &&& d.message == "Expected `lint::"@ + name + "` to produce a diagnostic in this scope, but it did not"@
    &&& d.help == Some("Remove the `#[expect(...)]` directive or adjust the code/lint so it triggers."@)
    &&& d.suggestion is None
}

/// The (anchor, lint) pairs of unmet item expectations: anchors in increasing
/// order, and the lints of each in increasing order.
pub open spec fn unmet_pairs(anchors: Seq<usize>, m: Map<usize, Set<Seq<char>>>) -> Seq<(usize, Seq<char>)>
    decreases anchors.len(),
{
    if anchors.len() == 0 {
        Seq::empty()
    } else {
        let a = anchors.last();
        unmet_pairs(anchors.drop_last(), m) + sorted_listing(m[a]).map_values(
            |n: Seq<char>| (a, n),
        )
    }
}

/// The unmet expectations of an item table, as pairs.
pub open spec fn unmet_item_pairs(m: Map<usize, Set<Seq<char>>>) -> Seq<(usize, Seq<char>)> {
    unmet_pairs(sorted_offsets(m.dom()), m)
}

/// The unmet expectations of an item table, as sets of names.
pub open spec fn unfired_sets(m: Map<usize, NameSet>) -> Map<usize, Set<Seq<char>>> {
    m.map_values(|s: NameSet| s@)
}

/// An empty table of unmet item expectations.
fn empty_unfired_table() -> (t: HashMap<usize, NameSet>)
    ensures
        t@ == Map::<usize, NameSet>::empty(),
        unfired_sets(t@) == Map::<usize, Set<Seq<char>>>::empty(),
{
    let t: HashMap<usize, NameSet> = HashMap::new();
    assert(unfired_sets(t@) =~= Map::<usize, Set<Seq<char>>>::empty());
    t
}

/// Mutable context passed to lint rules while checking a file.
#[derive(Debug)]
pub struct LintContext {
    source: String,
    settings: LintSettings,
    diagnostics: Vec<Diagnostic>,
    module_scope: SuppressionScope,
    module_expected_unfired: NameSet,
    item_scope_cache: HashMap<usize, SuppressionScope>,
    item_expected_unfired: HashMap<usize, NameSet>,
}

impl View for LintContext {
    type V = ContextView;

    closed spec fn view(&self) -> ContextView {
        ContextView {
            source: self.source@,
            settings: self.settings@,
            diagnostics: diag_views(self.diagnostics@),
            module_scope: self.module_scope@,
            module_unfired: self.module_expected_unfired@,
            cached: self.item_scope_cache@.dom(),
            item_unfired: unfired_sets(self.item_expected_unfired@),
        }
    }
}

/// The source of a context can be read: its header limit falls on a char
/// boundary and its length leaves room for positions.
pub open spec fn readable_source(src: Seq<char>) -> bool {
    &&& byte_len(src) > 8192 ==> is_char_boundary(src, 8192)
    &&& byte_len(src) < usize::MAX
}

/// What holds of every context.
pub open spec fn context_ok(v: ContextView) -> bool {
    &&& readable_source(v.source)
    &&& v.module_scope == scope_of(module_annotations(v.source))
    &&& v.module_unfired.subset_of(v.module_scope.2)
    &&& v.item_unfired.dom().subset_of(v.cached)
    &&& v.item_unfired.dom().finite()
    &&& forall|a: usize| #[trigger] v.item_unfired.contains_key(a) ==> v.item_unfired[a] != Set::<Seq<char>>::empty()
        && v.item_unfired[a].finite()
}

impl LintContext {
    #[verifier::type_invariant]
    closed spec fn inv(&self) -> bool {
        &&& context_ok(self@)
        &&& forall|a: usize| #[trigger] self.item_scope_cache@.contains_key(a) ==>
            self.item_scope_cache@[a]@ == scope_of(item_annotations(self.source@, a as int))
    }

    /// What holds of every context.
    pub fn ensure_ok(&self)
        ensures
            context_ok(self@),
    {
        proof {
            use_type_invariant(self);
        }
    }

    /// A context for `source`, with no report yet.
    pub fn new(source: &str, settings: LintSettings) -> (r: Self)
        requires
            readable_source(source@),
        ensures
            r@ == fresh_context(source@, settings@),
    {
        let module_scope = module_scope(source);
        let mut module_expected_unfired = NameSet::new();
        let names = module_scope.unfired_expectations();
        let mut i: usize = 0;
        while i < names.len()
            invariant
                i <= names@.len(),
                module_expected_unfired@ == string_views(names@).take(i as int).to_set(),
            decreases names.len() - i,
        {
            module_expected_unfired.insert(names[i].clone());
            proof {
                let s = string_views(names@);
                assert(s.take(i + 1) =~= s.take(i as int).push(s[i as int]));
                s.take(i as int).lemma_push_to_set_commute(s[i as int]);
            }
            i = i + 1;
        }
        assert(string_views(names@).take(names@.len() as int) =~= string_views(names@));
        let r = LintContext {
            source: to_owned_string(source),
            settings,
            diagnostics: Vec::new(),
            module_scope,
            module_expected_unfired,
            item_scope_cache: HashMap::new(),
            item_expected_unfired: empty_unfired_table(),
        };
        proof {
            assert(r@.cached =~= Set::<usize>::empty());
            assert(r@.item_unfired =~= Map::<usize, Set<Seq<char>>>::empty());
            assert(r@.diagnostics =~= Seq::<DiagView>::empty());
            assert(r@.module_unfired =~= scope_of(module_annotations(source@)).2);
            assert(r@ == fresh_context(source@, settings@));
        }
        r
    }

    /// Reads the directives of the item at `anchor`, once.
    fn ensure_item_scope_cached(&mut self, anchor_start_byte: usize)
        ensures
            final(self)@ == after_cache(old(self)@, anchor_start_byte),
    {
        broadcast use vstd::std_specs::hash::group_hash_axioms;
        proof {
            use_type_invariant(&*self);
        }
        if self.item_scope_cache.contains_key(&anchor_start_byte) {
            return;
        }
        let ghost old_v = self@;
        let scope = item_scope(self.source.as_str(), anchor_start_byte);
        let expected = scope.unfired_expectations();
        let ghost exp = scope@.2;
        let ghost old_c = self.item_scope_cache@;
        let ghost old_e = self.item_expected_unfired@;
        let mut table: HashMap<usize, NameSet> = empty_unfired_table();
        std::mem::swap(&mut table, &mut self.item_expected_unfired);
        let mut cache: HashMap<usize, SuppressionScope> = HashMap::new();
        std::mem::swap(&mut cache, &mut self.item_scope_cache);
        cache.insert(anchor_start_byte, scope);
        self.item_scope_cache = cache;
        proof {
            assert(self@.cached =~= old_v.cached.insert(anchor_start_byte));
        }
        self.item_expected_unfired = table;
        if expected.len() > 0 {
            let mut set = NameSet::new();
            let mut i: usize = 0;
            while i < expected.len()
                invariant
                    i <= expected@.len(),
                    set@ == string_views(expected@).take(i as int).to_set(),
                decreases expected.len() - i,
            {
                set.insert(expected[i].clone());
                proof {
                    let s = string_views(expected@);
                    assert(s.take(i + 1) =~= s.take(i as int).push(s[i as int]));
                    s.take(i as int).lemma_push_to_set_commute(s[i as int]);
                }
                i = i + 1;
            }
            assert(string_views(expected@).take(expected@.len() as int) =~= string_views(expected@));
            proof {
                assert(exp.contains(string_views(expected@)[0]));
                assert(exp != Set::<Seq<char>>::empty());
                vstd::seq_lib::seq_to_set_is_finite(string_views(expected@));
            }
            let mut table: HashMap<usize, NameSet> = empty_unfired_table();
            std::mem::swap(&mut table, &mut self.item_expected_unfired);
            table.insert(anchor_start_byte, set);
            proof {
                assert(!old_v.item_unfired.contains_key(anchor_start_byte));
                assert(unfired_sets(table@) =~= old_v.item_unfired.insert(anchor_start_byte, exp));
            }
            self.item_expected_unfired = table;
        } else {
            proof {
                if exp.len() > 0 {
                    assert(exp.finite());
                }
                string_views(expected@).unique_seq_to_set();
                assert(exp =~= Set::<Seq<char>>::empty()) by {
                    assert(string_views(expected@) =~= Seq::<Seq<char>>::empty());
                }
            }
        }
    }

    /// The scope of the item at `anchor`, which has been read.
    fn cached_scope(&self, anchor: usize) -> (r: &SuppressionScope)
        requires
            self@.cached.contains(anchor),
        ensures
            r@ == scope_of(item_annotations(self@.source, anchor as int)),
    {
        proof {
            use_type_invariant(self);
        }
        broadcast use vstd::std_specs::hash::group_hash_axioms;
        match self.item_scope_cache.get(&anchor) {
            Some(scope) => scope,
            None => {
                assert(false);
                &self.module_scope
            },
        }
    }

    /// The level at which `lint` reports at `anchor` (reading the item's directives).
    fn effective_level_for_anchor(&mut self, lint: &LintDescriptor, anchor_start_byte: usize) -> (r: LintLevel)
        ensures
            final(self)@ == after_cache(old(self)@, anchor_start_byte),
            r == level_at(final(self)@, *lint, anchor_start_byte),
    {
        self.ensure_item_scope_cached(anchor_start_byte);
        let item = self.cached_scope(anchor_start_byte);
        effective_level_for_scopes(&self.settings, lint, &self.module_scope, item)
    }

    /// Marks the file's expectations that a report of `lint` meets.
    fn mark_module_expected_fired(&mut self, lint: &LintDescriptor)
        ensures
            final(self)@ == after_module_fired(old(self)@, lint.name@, category_name(lint.category)),
    {
        proof {
            use_type_invariant(&*self);
        }
        let ghost v = self@;
        let lint_name = lint.name;
        let category = lint.category.as_str();
        if self.module_scope.is_expected(lint_name) {
            let mut mu = NameSet::new();
            std::mem::swap(&mut mu, &mut self.module_expected_unfired);
            mu.remove(lint_name);
            self.module_expected_unfired = mu;
        } else {
            assert(!v.module_unfired.contains(lint_name@));
            assert(v.module_unfired.remove(lint_name@) =~= v.module_unfired);
        }
        let ghost mu1 = self.module_expected_unfired@;
        if self.module_scope.is_expected(category) {
            let mut mu = NameSet::new();
            std::mem::swap(&mut mu, &mut self.module_expected_unfired);
            mu.remove(category);
            self.module_expected_unfired = mu;
        } else {
            assert(!mu1.contains(category@));
            assert(mu1.remove(category@) =~= mu1);
        }
        proof {
            assert(self@.module_unfired =~= v.module_unfired.remove(lint_name@).remove(category@));
        }
    }

    /// Marks the expectations that a report of `lint` at `anchor` meets.
    fn mark_expected_fired(&mut self, anchor_start_byte: usize, lint: &LintDescriptor)
        ensures
            final(self)@ == after_fired(old(self)@, anchor_start_byte, lint.name@, category_name(lint.category)),
    {
        broadcast use vstd::std_specs::hash::group_hash_axioms;
        proof {
            use_type_invariant(&*self);
        }
        let ghost v = self@;
        let lint_name = lint.name;
        let category = lint.category.as_str();
        self.mark_module_expected_fired(lint);
        proof {
            use_type_invariant(&*self);
        }
        match self.item_expected_unfired.get(&anchor_start_byte) {
            Some(unfired) => {
                let mut set = unfired.duplicate();
                set.remove(lint_name);
                set.remove(category);
                let ghost e = self.item_expected_unfired@;
                let mut table: HashMap<usize, NameSet> = empty_unfired_table();
                std::mem::swap(&mut table, &mut self.item_expected_unfired);
                if set.is_empty() {
                    table.remove(&anchor_start_byte);
                    proof {
                        assert(unfired_sets(table@) =~= unfired_sets(e).remove(anchor_start_byte));
                    }
                } else {
                    table.insert(anchor_start_byte, set);
                    proof {
                        assert(unfired_sets(table@) =~= unfired_sets(e).insert(anchor_start_byte, set@));
                    }
                }
                self.item_expected_unfired = table;
            },
            None => {},
        }
        proof {
            let w = after_fired(v, anchor_start_byte, lint.name@, category_name(lint.category));
            assert(self@.item_unfired =~= w.item_unfired);
            assert(self@.module_unfired =~= w.module_unfired);
        }
    }

    /// Reports `lint` over `span` with the file's directives alone applied
    /// (item directives play no part, and expectations do not keep an allowed
    /// lint); a report meets the file's expectations of the lint.
    pub fn report(&mut self, lint: &LintDescriptor, span: Span, message: String)
        ensures
            final(self)@ == reported_in_module(old(self)@, *lint, span, message@),
    {
        let mut level = self.settings.level_for(lint.name);
        let category = lint.category.as_str();
        if self.module_scope.is_suppressed(lint.name) || self.module_scope.is_suppressed(category) {
            level = LintLevel::Allow;
        }
        if self.module_scope.is_denied(lint.name) || self.module_scope.is_denied(category) {
            level = LintLevel::Error;
        }
        if level == LintLevel::Allow {
            return;
        }
        self.push_diagnostic(Diagnostic {
            lint: *lint,
            level,
            file: None,
            span,
            message,
            help: None,
            suggestion: None,
        });
        self.mark_module_expected_fired(lint);
    }

    fn push_diagnostic(&mut self, d: Diagnostic)
        ensures
            final(self)@ == (ContextView { diagnostics: old(self)@.diagnostics.push(d@), ..old(self)@ }),
    {
        proof {
            use_type_invariant(&*self);
        }
        let mut ds: Vec<Diagnostic> = Vec::new();
        std::mem::swap(&mut ds, &mut self.diagnostics);
        let ghost before = ds@;
        ds.push(d);
        assert(diag_views(ds@) =~= diag_views(before).push(d@));
        self.diagnostics = ds;
    }

    /// Reports a diagnostic as it is, with no directive applied.
    pub fn report_diagnostic(&mut self, diagnostic: Diagnostic)
        ensures
            final(self)@ == (ContextView { diagnostics: old(self)@.diagnostics.push(diagnostic@), ..old(self)@ }),
    {
        self.push_diagnostic(diagnostic);
    }

    /// Reports `lint` over `span`, with the directives of the item at `anchor` applied.
    pub fn report_span_with_anchor(&mut self, lint: &LintDescriptor, anchor_start_byte: usize, span: Span, message: String)
        ensures
            final(self)@ == reported(
                old(self)@,
                *lint,
                anchor_start_byte,
                DiagView { lint: *lint, level: LintLevel::Warn, file: None, span, message: message@, help: None, suggestion: None },
            ),
    {
        self.report_span_diagnostic_with_anchor(lint, anchor_start_byte, span, message, None, None);
    }

    /// Reports `lint` over `span` with help and a suggestion, with the
    /// directives of the item at `anchor` applied.
    pub fn report_span_diagnostic_with_anchor(
        &mut self,
        lint: &LintDescriptor,
        anchor_start_byte: usize,
        span: Span,
        message: String,
        help: Option<String>,
        suggestion: Option<Suggestion>,
    )
        ensures
            final(self)@ == reported(
                old(self)@,
                *lint,
                anchor_start_byte,
                DiagView {
                    lint: *lint,
                    level: LintLevel::Warn,
                    file: None,
                    span,
                    message: message@,
                    help: opt_view(help),
                    suggestion: opt_suggestion_view(suggestion),
                },
            ),
    {
        let level = self.effective_level_for_anchor(lint, anchor_start_byte);
        if level == LintLevel::Allow {
            return;
        }
        let d = Diagnostic { lint: *lint, level, file: None, span, message, help, suggestion };
        self.mark_expected_fired(anchor_start_byte, lint);
        self.push_diagnostic(d);
    }

    /// Reports `lint` over node `node` of `tree`, with the directives of the
    /// item that holds the node applied.
    pub fn report_node(&mut self, tree: &SyntaxTree, lint: &LintDescriptor, node: usize, message: String)
        requires
            node < tree@.len(),
        ensures
            final(self)@ == reported(
                old(self)@,
                *lint,
                anchor_of(tree@, node as int),
                DiagView {
                    lint: *lint,
                    level: LintLevel::Warn,
                    file: None,
                    span: span_of(tree@[node as int]),
                    message: message@,
                    help: None,
                    suggestion: None,
                },
            ),
    {
        let anchor = anchor_item_start_byte(tree, node);
        let span = tree.span(node);
        self.report_span_with_anchor(lint, anchor, span, message);
    }

    /// Reports a diagnostic built by the caller, at the level that the
    /// directives of the item holding node `node` give its lint.
    pub fn report_diagnostic_for_node(&mut self, tree: &SyntaxTree, node: usize, diagnostic: Diagnostic)
        requires
            node < tree@.len(),
        ensures
            final(self)@ == reported(old(self)@, diagnostic.lint, anchor_of(tree@, node as int), diagnostic@),
    {
        let anchor = anchor_item_start_byte(tree, node);
        let lint = diagnostic.lint;
        let level = self.effective_level_for_anchor(&lint, anchor);
        if level == LintLevel::Allow {
            return;
        }
        let mut d = diagnostic;
        d.level = level;
        self.mark_expected_fired(anchor, &lint);
        self.push_diagnostic(d);
    }

    /// Adds an error for every expectation that nothing met: the file's
    /// first, by lint name, then the items', by anchor and lint name.
    fn append_unfulfilled_expectation_diagnostics(&mut self)
        ensures
            ({
                let v = old(self)@;
                let m = sorted_listing(v.module_unfired);
                let p = unmet_item_pairs(v.item_unfired);
                let n = v.diagnostics.len();
                let r = final(self)@.diagnostics;
                &&& r.len() == n + m.len() + p.len()
                &&& r.take(n as int) == v.diagnostics
                &&& forall|k: int| 0 <= k < m.len() ==> is_module_expectation_error(#[trigger] r[n + k], m[k])
                &&& item_errors_at(r, (n + m.len()) as int, p, v.source)
            }),
    {
        broadcast use vstd::std_specs::hash::group_hash_axioms;
        proof {
            use_type_invariant(&*self);
        }
        let ghost v = self@;
        let ghost n = v.diagnostics.len();
        let mut out: Vec<Diagnostic> = Vec::new();
        std::mem::swap(&mut out, &mut self.diagnostics);
        let names = sorted_names(&self.module_expected_unfired);
        let ghost m = sorted_listing(v.module_unfired);
        let mut i: usize = 0;
        while i < names.len()
            invariant
                string_views(names@) == m,
                i <= names@.len(),
                diag_views(out@).len() == n + i,
                diag_views(out@).take(n as int) == v.diagnostics,
                forall|k: int| 0 <= k < i ==> is_module_expectation_error(#[trigger] diag_views(out@)[n + k], m[k]),
            decreases names.len() - i,
        {
            let d = module_expectation_error(names[i].as_str());
            assert(names@[i as int]@ == m[i as int]);
            let ghost before = diag_views(out@);
            let ghost dv = d@;
            out.push(d);
            assert(diag_views(out@) =~= before.push(dv));
            proof {
                assert(diag_views(out@).take(n as int) =~= before.take(n as int));
                assert forall|k: int| 0 <= k < i + 1 implies is_module_expectation_error(#[trigger] diag_views(out@)[n + k], m[k]) by {
                    if k < i {
                        assert(diag_views(out@)[n + k] == before[n + k]);
                    }
                }
            }
            i = i + 1;
        }
        let ghost mid = diag_views(out@);
        let ghost base: int = (n + m.len()) as int;
        // The anchors that still have unmet expectations, in increasing order.
        let ghost um = v.item_unfired;
        let anchors = self.unfired_anchors();
        proof {
            assert(um.dom() =~= self.item_expected_unfired@.dom());
        }
        let sorted = sort_offsets(anchors);
        let ghost so = sorted@;
        assert(so == sorted_offsets(um.dom()));
        let mut t: usize = 0;
        while t < sorted.len()
            invariant
                so == sorted@,
                so == sorted_offsets(um.dom()),
                so.to_set() == um.dom(),
                t <= so.len(),
                base == n + m.len(),
                n == v.diagnostics.len(),
                um == v.item_unfired,
                um == unfired_sets(self.item_expected_unfired@),
                self@.source == v.source,
                readable_source(v.source),
                forall|a: usize| #[trigger] um.contains_key(a) ==> um[a].finite(),
                diag_views(out@).len() == base + unmet_pairs(so.take(t as int), um).len(),
                diag_views(out@).take(base) == mid,
                item_errors_at(diag_views(out@), base, unmet_pairs(so.take(t as int), um), v.source),
            decreases sorted.len() - t,
        {
            let a = sorted[t];
            proof {
                assert(so.to_set().contains(a)) by {
                    assert(so[t as int] == a);
                }
            }
            let lint_names = match self.item_expected_unfired.get(&a) {
                Some(unfired) => sorted_names(unfired),
                None => {
                    assert(false);
                    Vec::new()
                },
            };
            let pos = position_from_byte_offset(self.source.as_str(), a);
            let ghost ln = sorted_listing(um[a]);
            let ghost pre = unmet_pairs(so.take(t as int), um);
            let ghost start: int = (base + pre.len()) as int;
            proof {
                assert(so.take(t + 1).drop_last() =~= so.take(t as int));
                assert(so.take(t + 1).last() == a);
            }
            let mut q: usize = 0;
            while q < lint_names.len()
                invariant
                    string_views(lint_names@) == ln,
                    q <= ln.len(),
                    pos == position_of(v.source, a as int),
                    start == base + pre.len(),
                    base >= 0,
                    diag_views(out@).len() == start + q,
                    diag_views(out@).take(base) == mid,
                    item_errors_at(diag_views(out@), base, pre, v.source),
                    forall|r: int| 0 <= r < q ==> is_item_expectation_error(#[trigger] diag_views(out@)[start + r], pos, ln[r]),
                decreases lint_names.len() - q,
            {
                let d = item_expectation_error(pos, lint_names[q].as_str());
                assert(lint_names@[q as int]@ == ln[q as int]);
                let ghost before = diag_views(out@);
                let ghost dv = d@;
                out.push(d);
                assert(diag_views(out@) =~= before.push(dv));
                proof {
                    assert(diag_views(out@).take(base) =~= before.take(base));
                    assert forall|r: int| 0 <= r < pre.len() implies is_item_expectation_error(
                        #[trigger] diag_views(out@)[base + r],
                        position_of(v.source, pre[r].0 as int),
                        pre[r].1,
                    ) by {
                        assert(diag_views(out@)[base + r] == before[base + r]);
                    }
                    assert forall|r: int| 0 <= r < q + 1 implies is_item_expectation_error(#[trigger] diag_views(out@)[start + r], pos, ln[r]) by {
                        if r < q {
                            assert(diag_views(out@)[start + r] == before[start + r]);
                        }
                    }
                }
                q = q + 1;
            }
            proof {
                let post = unmet_pairs(so.take(t + 1), um);
                let add = ln.map_values(|nm: Seq<char>| (a, nm));
                assert(post == pre + add);
                assert forall|r: int| 0 <= r < post.len() implies is_item_expectation_error(
                    #[trigger] diag_views(out@)[base + r],
                    position_of(v.source, post[r].0 as int),
                    post[r].1,
                ) by {
                    if r < pre.len() {
                        assert(post[r] == pre[r]);
                    } else {
                        assert(post[r] == add[r - pre.len()]);
                        assert(diag_views(out@)[start + (r - pre.len())] == diag_views(out@)[base + r]);
                    }
                }
            }
            t = t + 1;
        }
        proof {
            assert(so.take(so.len() as int) =~= so);
            assert(diag_views(out@).take(n as int) =~= mid.take(n as int));
            assert forall|k: int| 0 <= k < m.len() implies is_module_expectation_error(#[trigger] diag_views(out@)[n + k], m[k]) by {
                assert(diag_views(out@)[n + k] == mid[n + k]);
            }
        }
        self.diagnostics = out;
    }

    /// The source being checked.
    pub fn source(&self) -> (r: &str)
        ensures
            r@ == self@.source,
    {
        self.source.as_str()
    }

    /// The settings in force.
    pub fn settings(&self) -> (r: &LintSettings)
        ensures
            r@ == self@.settings,
    {
        &self.settings
    }

    /// Reads the directives of every item of `tree`, so that expectations
    /// attached to items that produce no report are enforced too.
    pub fn precollect_item_directives(&mut self, tree: &SyntaxTree)
        ensures
            final(self)@ == cache_directive_items(old(self)@, tree@, tree@.len() as int),
    {
        let mut i: usize = 0;
        while i < tree.len()
            invariant
                i <= tree@.len(),
                self@ == cache_directive_items(old(self)@, tree@, i as int),
            decreases tree@.len() - i,
        {
            if is_directive_item_kind(tree.kind(i)) {
                let start = tree.start_byte(i);
                self.ensure_item_scope_cached(start);
            }
            i = i + 1;
        }
    }

    /// The anchors of the items with unmet expectations, each once.
    fn unfired_anchors(&self) -> (r: Vec<usize>)
        ensures
            r@.to_set() == self.item_expected_unfired@.dom(),
            r@.no_duplicates(),
    {
        broadcast use vstd::std_specs::hash::group_hash_axioms;
        let mut r: Vec<usize> = Vec::new();
        let ghost s = vstd::std_specs::hash::spec_keys_iter(&self.item_expected_unfired).remaining();
        for k in it: self.item_expected_unfired.keys()
            invariant
                it.seq() == s,
                r@ == s.take(it.index()).map_values(|x: &usize| *x),
            ensures
                r@ == s.map_values(|x: &usize| *x),
        {
            assert(s.take(it.index() + 1).map_values(|x: &usize| *x) =~= r@.push(*k));
            r.push(*k);
        }
        proof {
            assert(s.unref().to_set() == self.item_expected_unfired@.dom());
            assert(r@ =~= s.unref());
        }
        r
    }

    /// The diagnostics reported, followed by an error for each expectation
    /// that nothing met: the file's first, by lint name, then the items', by
    /// anchor and lint name.
    pub fn into_diagnostics(self) -> (r: Vec<Diagnostic>)
        ensures
            final_report(self@, diag_views(r@)),
    {
        proof {
            use_type_invariant(&self);
        }
        let mut this = self;
        this.append_unfulfilled_expectation_diagnostics();
        proof {
            use_type_invariant(&this);
        }
        let mut out: Vec<Diagnostic> = Vec::new();
        std::mem::swap(&mut out, &mut this.diagnostics);
        out
    }
}

/// The descriptor of the error reported for an expectation that nothing met.
pub fn unfulfilled_expectation() -> (r: LintDescriptor)
    ensures
        is_unfulfilled_descriptor(r),
{
    LintDescriptor {
        name: "unfulfilled_expectation",
        category: LintCategory::TestQuality,
        description: "An #[expect(lint::...)] directive did not match any emitted diagnostics",
        group: RuleGroup::Stable,
        fix: FixDescriptor::none(),
        analysis: AnalysisKind::Syntactic,
        gap: None,
    }
}

fn module_expectation_error(name: &str) -> (d: Diagnostic)
    ensures
        is_module_expectation_error(d@, name@),
{
    let mut message = String::new();
    push_str(&mut message, "Expected `lint::");
    push_str(&mut message, name);
    push_str(&mut message, "` to produce a diagnostic in this file, but it did not");
    assert(message@ =~= "Expected `lint::"@ + name@ + "` to produce a diagnostic in this file, but it did not"@);
    let help = to_owned_string("Remove the `#![expect(...)]` directive or adjust the code/lint so it triggers.");
    let p = Position { row: 1, column: 1 };
    Diagnostic {
        lint: unfulfilled_expectation(),
        level: LintLevel::Error,
        file: None,
        span: Span { start: p, end: p },
        message,
        help: Some(help),
        suggestion: None,
    }
}

fn item_expectation_error(pos: Position, name: &str) -> (d: Diagnostic)
    ensures
        is_item_expectation_error(d@, pos, name@),
{
    let mut message = String::new();
    push_str(&mut message, "Expected `lint::");
    push_str(&mut message, name);
    push_str(&mut message, "` to produce a diagnostic in this scope, but it did not");
    assert(message@ =~= "Expected `lint::"@ + name@ + "` to produce a diagnostic in this scope, but it did not"@);
    let help = to_owned_string("Remove the `#[expect(...)]` directive or adjust the code/lint so it triggers.");
    Diagnostic {
        lint: unfulfilled_expectation(),
        level: LintLevel::Error,
        file: None,
        span: Span { start: pos, end: pos },
        message,
        help: Some(help),
        suggestion: None,
    }
}

/// The errors in `ds` from index `start` on are those of the unmet item
/// expectations `p` of a file whose text is `src`.
pub open spec fn item_errors_at(ds: Seq<DiagView>, start: int, p: Seq<(usize, Seq<char>)>, src: Seq<char>) -> bool {
    forall|k: int| 0 <= k < p.len() ==> is_item_expectation_error(
        #[trigger] ds[start + k],
        position_of(src, p[k].0 as int),
        p[k].1,
    )
}

/// The state of a new context for `src`.
pub open spec fn fresh_context(src: Seq<char>, settings: Map<Seq<char>, LintLevel>) -> ContextView {
    ContextView {
        source: src,
        settings,
        diagnostics: Seq::empty(),
        module_scope: scope_of(module_annotations(src)),
        module_unfired: scope_of(module_annotations(src)).2,
        cached: Set::empty(),
        item_unfired: Map::empty(),
    }
}

/// `rv` is what a context in state `v` finally hands out: its diagnostics,
/// then an error for each of the file's unmet expectations (by lint name),
/// then one for each item's (by anchor, then lint name).
pub open spec fn final_report(v: ContextView, rv: Seq<DiagView>) -> bool {
    let m = sorted_listing(v.module_unfired);
    let p = unmet_item_pairs(v.item_unfired);
    let n = v.diagnostics.len();
    &&& rv.len() == n + m.len() + p.len()
    &&& rv.take(n as int) == v.diagnostics
    &&& forall|k: int| 0 <= k < m.len() ==> is_module_expectation_error(#[trigger] rv[n + k], m[k])
    &&& forall|k: int| 0 <= k < p.len() ==> is_item_expectation_error(
        #[trigger] rv[n + m.len() + k],
        position_of(v.source, p[k].0 as int),
        p[k].1,
    )
}

/// The state after a rule has reported, for each of the first `k` nodes of
/// `ns` in order, the finding `f` gives for it (if any), through the
/// directives of the item that holds the node.
pub open spec fn findings_reported(
    v: ContextView,
    ns: Seq<NodeView>,
    f: spec_fn(int) -> Option<DiagView>,
    k: int,
) -> ContextView
    decreases k,
{
    if k <= 0 {
        v
    } else {
        let w = findings_reported(v, ns, f, k - 1);
        match f(k - 1) {
            Some(d) => reported(w, d.lint, anchor_of(ns, k - 1), d),
            None => w,
        }
    }
}

/// The state after a rule has reported, for each of the first `k` nodes of
/// `ns` in order, the finding `f` gives for it (if any): a diagnostic and the
/// node whose item's directives apply.
pub open spec fn findings_reported_at(
    v: ContextView,
    ns: Seq<NodeView>,
    f: spec_fn(int) -> Option<(int, DiagView)>,
    k: int,
) -> ContextView
    decreases k,
{
    if k <= 0 {
        v
    } else {
        let w = findings_reported_at(v, ns, f, k - 1);
        match f(k - 1) {
            Some((n, d)) => reported(w, d.lint, anchor_of(ns, n), d),
            None => w,
        }
    }
}

/// The state after a rule has added, for each of the first `k` nodes in
/// order, the diagnostic `f` gives for it (if any), as it is.
pub open spec fn findings_pushed(v: ContextView, f: spec_fn(int) -> Option<DiagView>, k: int) -> ContextView
    decreases k,
{
    if k <= 0 {
        v
    } else {
        let w = findings_pushed(v, f, k - 1);
        match f(k - 1) {
            Some(d) => ContextView { diagnostics: w.diagnostics.push(d), ..w },
            None => w,
        }
    }
}

/// The state after a rule has added, for each of the first `k` nodes in
/// order, the diagnostics `f` gives for it, as they are.
pub open spec fn findings_pushed_seq(v: ContextView, f: spec_fn(int) -> Seq<DiagView>, k: int) -> ContextView
    decreases k,
{
    if k <= 0 {
        v
    } else {
        let w = findings_pushed_seq(v, f, k - 1);
        ContextView { diagnostics: w.diagnostics + f(k - 1), ..w }
    }
}

/// What a rule does with one finding: add a diagnostic as it is, or report
/// it through the directives of the item that holds a node.
pub enum Effect {
    Push(DiagView),
    Report(int, DiagView),
}

/// The state after a rule has applied, for each of the first `k` nodes in
/// order, the effect `f` gives for it (if any).
pub open spec fn effects_applied(v: ContextView, ns: Seq<NodeView>, f: spec_fn(int) -> Option<Effect>, k: int) -> ContextView
    decreases k,
{
    if k <= 0 {
        v
    } else {
        let w = effects_applied(v, ns, f, k - 1);
        match f(k - 1) {
            Some(Effect::Push(d)) => ContextView { diagnostics: w.diagnostics.push(d), ..w },
            Some(Effect::Report(n, d)) => reported(w, d.lint, anchor_of(ns, n), d),
            None => w,
        }
    }
}

/// The state after reading the directives of each directive-carrying node
/// among the first `k` nodes of `ns`, in order.
pub open spec fn cache_directive_items(v: ContextView, ns: Seq<NodeView>, k: int) -> ContextView
    decreases k,
{
    if k <= 0 {
        v
    } else {
        let w = cache_directive_items(v, ns, k - 1);
        if directive_item_kind(ns[k - 1].kind) {
            after_cache(w, ns[k - 1].start_byte)
        } else {
            w
        }
    }
}

} // verus!
