//! Lint metadata, per-lint settings, and the context that rules report into.
use vstd::prelude::*;
use crate::annotations::SuppressionScope;
use crate::level::LintLevel;
use crate::text::str_eq;

verus! {

// ============================================================================
// Rule groups, analysis kinds, fix safety, categories, type-system gaps
// ============================================================================
/// Stability tier of a lint rule.
#[derive(Debug, Clone, Copy, PartialEq, Eq, Structural, Hash)]
pub enum RuleGroup {
    /// Battle-tested rules with minimal false positives.
    Stable,
    /// New rules; require `--preview`.
    Preview,
    /// High false-positive risk; require `--experimental`.
    Experimental,
    /// No longer active; kept for configuration compatibility.
    Deprecated,
}

impl Default for RuleGroup {
    fn default() -> (r: Self)
        ensures
            r == RuleGroup::Stable,
    {
        RuleGroup::Stable
    }
}

impl RuleGroup {
    pub fn as_str(&self) -> (r: &'static str)
        ensures
            r@ == (match self {
                RuleGroup::Stable => "stable"@,
                RuleGroup::Preview => "preview"@,
                RuleGroup::Experimental => "experimental"@,
                RuleGroup::Deprecated => "deprecated"@,
            }),
    {
        match self {
            RuleGroup::Stable => "stable",
            RuleGroup::Preview => "preview",
            RuleGroup::Experimental => "experimental",
            RuleGroup::Deprecated => "deprecated",
        }
    }

    /// The tier needs an explicit opt-in flag: every tier but `Stable`, as
    /// `required_flag` names one for each of them.
    pub fn requires_opt_in(&self) -> (b: bool)
        ensures
            b == (*self != RuleGroup::Stable),
            b == (self.required_flag_spec() is Some),
    {
        matches!(self, RuleGroup::Preview | RuleGroup::Experimental | RuleGroup::Deprecated)
    }

    /// The flag that `required_flag` names, as a sequence of chars.
    pub open spec fn required_flag_spec(&self) -> Option<Seq<char>> {
        match self {
            RuleGroup::Stable => None,
            RuleGroup::Preview => Some("--preview"@),
            RuleGroup::Experimental => Some("--experimental"@),
            RuleGroup::Deprecated => Some("--experimental"@),
        }
    }

    /// The CLI flag that enables this tier.
    pub fn required_flag(&self) -> (r: Option<&'static str>)
        ensures
            match self {
                RuleGroup::Stable => r is None,
                RuleGroup::Preview => r matches Some(f) && f@ == "--preview"@,
                RuleGroup::Experimental => r matches Some(f) && f@ == "--experimental"@,
                RuleGroup::Deprecated => r matches Some(f) && f@ == "--experimental"@,
            },
            match r {
                Some(f) => self.required_flag_spec() == Some(f@),
                None => self.required_flag_spec() is None,
            },
    {
        match self {
            RuleGroup::Stable => None,
            RuleGroup::Preview => Some("--preview"),
            RuleGroup::Experimental => Some("--experimental"),
            RuleGroup::Deprecated => Some("--experimental"),
        }
    }
}

/// How a lint examines Move code.
#[derive(Debug, Clone, Copy, PartialEq, Eq, Structural, Hash)]
pub enum AnalysisKind {
    /// Syntax-tree pattern matching (`--mode fast`).
    Syntactic,
    /// Compiler type information (`--mode full`).
    TypeBased,
    /// Control-flow aware abstract interpretation (`--mode full --preview`).
    TypeBasedCFG,
    /// Cross-module call graph analysis (`--mode full`).
    CrossModule,
}

impl Default for AnalysisKind {
    fn default() -> (r: Self)
        ensures
            r == AnalysisKind::Syntactic,
    {
        AnalysisKind::Syntactic
    }
}

impl AnalysisKind {
    pub fn as_str(&self) -> (r: &'static str)
        ensures
            r@ == (match self {
                AnalysisKind::Syntactic => "syntactic"@,
                AnalysisKind::TypeBased => "type-based"@,
                AnalysisKind::TypeBasedCFG => "type-based-cfg"@,
                AnalysisKind::CrossModule => "cross-module"@,
            }),
    {
        match self {
            AnalysisKind::Syntactic => "syntactic",
            AnalysisKind::TypeBased => "type-based",
            AnalysisKind::TypeBasedCFG => "type-based-cfg",
            AnalysisKind::CrossModule => "cross-module",
        }
    }

    /// The analysis needs `--mode full`.
    pub fn requires_full_mode(&self) -> (b: bool)
        ensures
            b == (*self != AnalysisKind::Syntactic),
    {
        !matches!(self, AnalysisKind::Syntactic)
    }

    /// The analysis needs `--preview`.
    pub fn requires_preview(&self) -> (b: bool)
        ensures
            b == (*self == AnalysisKind::TypeBasedCFG),
    {
        matches!(self, AnalysisKind::TypeBasedCFG)
    }
}

/// Whether an auto-fix preserves behaviour.
#[derive(Debug, Clone, Copy, PartialEq, Eq, Structural, Hash)]
pub enum FixSafety {
    Safe,
    Unsafe,
}

impl Default for FixSafety {
    fn default() -> (r: Self)
        ensures
            r == FixSafety::Safe,
    {
        FixSafety::Safe
    }
}

impl FixSafety {
    pub fn as_str(&self) -> (r: &'static str)
        ensures
            r@ == (match self {
                FixSafety::Safe => "safe"@,
                FixSafety::Unsafe => "unsafe"@,
            }),
    {
        match self {
            FixSafety::Safe => "safe",
            FixSafety::Unsafe => "unsafe",
        }
    }
}

/// An auto-fix that a lint offers.
#[derive(Debug, Clone, Copy)]
pub struct FixDescriptor {
    pub available: bool,
    pub safety: FixSafety,
    pub description: &'static str,
}

impl FixDescriptor {
    /// A safe fix.
    pub fn safe(description: &'static str) -> (r: Self)
        ensures
            r.available && r.safety == FixSafety::Safe && r.description@ == description@,
    {
        FixDescriptor { available: true, safety: FixSafety::Safe, description }
    }

    /// A fix that may change behaviour.
    pub fn unsafe_fix(description: &'static str) -> (r: Self)
        ensures
            r.available && r.safety == FixSafety::Unsafe && r.description@ == description@,
    {
        FixDescriptor { available: true, safety: FixSafety::Unsafe, description }
    }

    /// No fix.
    pub fn none() -> (r: Self)
        ensures
            !r.available && r.safety == FixSafety::Safe && r.description@ == ""@,
    {
        FixDescriptor { available: false, safety: FixSafety::Safe, description: "" }
    }
}

/// High-level categories used to group lints.
#[derive(Debug, Clone, Copy, PartialEq, Eq, Structural, Hash)]
pub enum LintCategory {
    Style,
    Modernization,
    Naming,
    TestQuality,
    Suspicious,
    Security,
}

pub open spec fn category_name(c: LintCategory) -> Seq<char> {
    match c {
        LintCategory::Style => "style"@,
        LintCategory::Modernization => "modernization"@,
        LintCategory::Naming => "naming"@,
        LintCategory::TestQuality => "test_quality"@,
        LintCategory::Suspicious => "suspicious"@,
        LintCategory::Security => "security"@,
    }
}

impl LintCategory {
    pub fn as_str(&self) -> (r: &'static str)
        ensures
            r@ == category_name(*self),
    {
        match self {
            LintCategory::Style => "style",
            LintCategory::Modernization => "modernization",
            LintCategory::Naming => "naming",
            LintCategory::TestQuality => "test_quality",
            LintCategory::Suspicious => "suspicious",
            LintCategory::Security => "security",
        }
    }
}

/// The type-system gap that a lint addresses.
#[derive(Debug, Clone, Copy, PartialEq, Eq, Structural, Hash)]
pub enum TypeSystemGap {
    AbilityMismatch,
    OwnershipViolation,
    CapabilityEscape,
    ValueFlow,
    ApiMisuse,
    TemporalOrdering,
    ArithmeticSafety,
    ResourceExhaustion,
    TypeConfusion,
    StyleConvention,
}

impl TypeSystemGap {
    pub fn as_str(&self) -> (r: &'static str)
        ensures
            r@ == (match self {
                TypeSystemGap::AbilityMismatch => "ability_mismatch"@,
                TypeSystemGap::OwnershipViolation => "ownership_violation"@,
                TypeSystemGap::CapabilityEscape => "capability_escape"@,
                TypeSystemGap::ValueFlow => "value_flow"@,
                TypeSystemGap::ApiMisuse => "api_misuse"@,
                TypeSystemGap::TemporalOrdering => "temporal_ordering"@,
                TypeSystemGap::ArithmeticSafety => "arithmetic_safety"@,
                TypeSystemGap::ResourceExhaustion => "resource_exhaustion"@,
                TypeSystemGap::TypeConfusion => "type_confusion"@,
                TypeSystemGap::StyleConvention => "style_convention"@,
            }),
    {
        match self {
            TypeSystemGap::AbilityMismatch => "ability_mismatch",
            TypeSystemGap::OwnershipViolation => "ownership_violation",
            TypeSystemGap::CapabilityEscape => "capability_escape",
            TypeSystemGap::ValueFlow => "value_flow",
            TypeSystemGap::ApiMisuse => "api_misuse",
            TypeSystemGap::TemporalOrdering => "temporal_ordering",
            TypeSystemGap::ArithmeticSafety => "arithmetic_safety",
            TypeSystemGap::ResourceExhaustion => "resource_exhaustion",
            TypeSystemGap::TypeConfusion => "type_confusion",
            TypeSystemGap::StyleConvention => "style_convention",
        }
    }

    pub fn description(&self) -> (r: &'static str)
        ensures
            r@ == (match self {
                TypeSystemGap::AbilityMismatch => "Wrong ability combinations"@,
                TypeSystemGap::OwnershipViolation => "Incorrect object ownership transitions"@,
                TypeSystemGap::CapabilityEscape => "Capabilities leaking scope"@,
                TypeSystemGap::ValueFlow => "Values going to wrong destinations"@,
                TypeSystemGap::ApiMisuse => "Incorrect stdlib function usage"@,
                TypeSystemGap::TemporalOrdering => "Operations in wrong sequence"@,
                TypeSystemGap::ArithmeticSafety => "Numeric operations without validation"@,
                TypeSystemGap::ResourceExhaustion => "Unbounded execution / resource exhaustion"@,
                TypeSystemGap::TypeConfusion => "Generic/type misuse (type confusion)"@,
                TypeSystemGap::StyleConvention => "Style/convention issues"@,
            }),
    {
        match self {
            TypeSystemGap::AbilityMismatch => "Wrong ability combinations",
            TypeSystemGap::OwnershipViolation => "Incorrect object ownership transitions",
            TypeSystemGap::CapabilityEscape => "Capabilities leaking scope",
            TypeSystemGap::ValueFlow => "Values going to wrong destinations",
            TypeSystemGap::ApiMisuse => "Incorrect stdlib function usage",
            TypeSystemGap::TemporalOrdering => "Operations in wrong sequence",
            TypeSystemGap::ArithmeticSafety => "Numeric operations without validation",
            TypeSystemGap::ResourceExhaustion => "Unbounded execution / resource exhaustion",
            TypeSystemGap::TypeConfusion => "Generic/type misuse (type confusion)",
            TypeSystemGap::StyleConvention => "Style/convention issues",
        }
    }
}

/// Static metadata describing a lint rule.
#[derive(Debug, Clone, Copy)]
pub struct LintDescriptor {
    pub name: &'static str,
    pub category: LintCategory,
    pub description: &'static str,
    pub group: RuleGroup,
    pub fix: FixDescriptor,
    pub analysis: AnalysisKind,
    pub gap: Option<TypeSystemGap>,
}

/// A descriptor's fields as plain values, the fix reduced to availability and safety.
pub open spec fn descriptor_is(
    d: LintDescriptor,
    name: &str,
    category: LintCategory,
    description: &str,
    group: RuleGroup,
    analysis: AnalysisKind,
) -> bool {
    &&& d.name@ == name@
    &&& d.category == category
    &&& d.description@ == description@
    &&& d.group == group
    &&& d.analysis == analysis
    &&& d.gap is None
}

impl LintDescriptor {
    /// A stable syntactic lint without a fix.
    pub fn stable(name: &'static str, category: LintCategory, description: &'static str) -> (r:
        Self)
        ensures
            descriptor_is(r, name, category, description, RuleGroup::Stable, AnalysisKind::Syntactic),
            !r.fix.available,
    {
        LintDescriptor {
            name,
            category,
            description,
            group: RuleGroup::Stable,
            fix: FixDescriptor::none(),
            analysis: AnalysisKind::Syntactic,
            gap: None,
        }
    }

    /// A stable syntactic lint with a safe fix.
    pub fn stable_with_fix(
        name: &'static str,
        category: LintCategory,
        description: &'static str,
        fix_description: &'static str,
    ) -> (r: Self)
        ensures
            descriptor_is(r, name, category, description, RuleGroup::Stable, AnalysisKind::Syntactic),
            r.fix.available && r.fix.safety == FixSafety::Safe && r.fix.description@
                == fix_description@,
    {
        LintDescriptor {
            name,
            category,
            description,
            group: RuleGroup::Stable,
            fix: FixDescriptor::safe(fix_description),
            analysis: AnalysisKind::Syntactic,
            gap: None,
        }
    }

    /// A preview syntactic lint without a fix.
    pub fn preview(name: &'static str, category: LintCategory, description: &'static str) -> (r:
        Self)
        ensures
            descriptor_is(r, name, category, description, RuleGroup::Preview, AnalysisKind::Syntactic),
            !r.fix.available,
    {
        LintDescriptor {
            name,
            category,
            description,
            group: RuleGroup::Preview,
            fix: FixDescriptor::none(),
            analysis: AnalysisKind::Syntactic,
            gap: None,
        }
    }

    /// A preview syntactic lint with a safe fix.
    pub fn preview_with_fix(
        name: &'static str,
        category: LintCategory,
        description: &'static str,
        fix_description: &'static str,
    ) -> (r: Self)
        ensures
            descriptor_is(r, name, category, description, RuleGroup::Preview, AnalysisKind::Syntactic),
            r.fix.available && r.fix.safety == FixSafety::Safe && r.fix.description@
                == fix_description@,
    {
        LintDescriptor {
            name,
            category,
            description,
            group: RuleGroup::Preview,
            fix: FixDescriptor::safe(fix_description),
            analysis: AnalysisKind::Syntactic,
            gap: None,
        }
    }

    /// A stable type-based lint (needs `--mode full`).
    pub fn stable_type_based(
        name: &'static str,
        category: LintCategory,
        description: &'static str,
    ) -> (r: Self)
        ensures
            descriptor_is(r, name, category, description, RuleGroup::Stable, AnalysisKind::TypeBased),
            !r.fix.available,
    {
        LintDescriptor {
            name,
            category,
            description,
            group: RuleGroup::Stable,
            fix: FixDescriptor::none(),
            analysis: AnalysisKind::TypeBased,
            gap: None,
        }
    }

    /// A preview type-based lint (needs `--mode full`).
    pub fn preview_type_based(
        name: &'static str,
        category: LintCategory,
        description: &'static str,
    ) -> (r: Self)
        ensures
            descriptor_is(r, name, category, description, RuleGroup::Preview, AnalysisKind::TypeBased),
            !r.fix.available,
    {
        LintDescriptor {
            name,
            category,
            description,
            group: RuleGroup::Preview,
            fix: FixDescriptor::none(),
            analysis: AnalysisKind::TypeBased,
            gap: None,
        }
    }

    /// A preview control-flow aware lint (needs `--mode full --preview`).
    pub fn preview_cfg(name: &'static str, category: LintCategory, description: &'static str) -> (r:
        Self)
        ensures
            descriptor_is(
                r,
                name,
                category,
                description,
                RuleGroup::Preview,
                AnalysisKind::TypeBasedCFG,
            ),
            !r.fix.available,
    {
        LintDescriptor {
            name,
            category,
            description,
            group: RuleGroup::Preview,
            fix: FixDescriptor::none(),
            analysis: AnalysisKind::TypeBasedCFG,
            gap: None,
        }
    }

    /// A preview cross-module lint (needs `--mode full --preview`).
    pub fn preview_cross_module(
        name: &'static str,
        category: LintCategory,
        description: &'static str,
    ) -> (r: Self)
        ensures
            descriptor_is(
                r,
                name,
                category,
                description,
                RuleGroup::Preview,
                AnalysisKind::CrossModule,
            ),
            !r.fix.available,
    {
        LintDescriptor {
            name,
            category,
            description,
            group: RuleGroup::Preview,
            fix: FixDescriptor::none(),
            analysis: AnalysisKind::CrossModule,
            gap: None,
        }
    }
}

// ============================================================================
// Lint name aliases
// ============================================================================
/// Old lint names and the names they now stand for (none at present).
pub open spec fn alias_table() -> Seq<(Seq<char>, Seq<char>)> {
    Seq::empty()
}

fn lint_aliases() -> (r: Vec<(&'static str, &'static str)>)
    ensures
        r@.map_values(|p: (&'static str, &'static str)| (p.0@, p.1@)) == alias_table(),
{
    let r: Vec<(&'static str, &'static str)> = Vec::new();
    assert(r@.map_values(|p: (&'static str, &'static str)| (p.0@, p.1@)) =~= alias_table());
    r
}

/// The canonical name of `name` found from index `i` of the alias table.
pub open spec fn resolve_from(t: Seq<(Seq<char>, Seq<char>)>, name: Seq<char>, i: int) -> Seq<char>
    decreases t.len() - i,
{
    if i < 0 || i >= t.len() {
        name
    } else if t[i].0 == name {
        t[i].1
    } else {
        resolve_from(t, name, i + 1)
    }
}

/// The canonical name of a lint name.
pub open spec fn canonical(name: Seq<char>) -> Seq<char> {
    resolve_from(alias_table(), name, 0)
}

/// Resolves a lint name to its canonical form.
pub fn resolve_lint_alias(name: &str) -> (r: String)
    ensures
        r@ == canonical(name@),
{
    let table = lint_aliases();
    let ghost t = alias_table();
    let mut i: usize = 0;
    while i < table.len()
        invariant
            i <= table@.len(),
            t == table@.map_values(|p: (&'static str, &'static str)| (p.0@, p.1@)),
            t == alias_table(),
            resolve_from(t, name@, 0) == resolve_from(t, name@, i as int),
        decreases table.len() - i,
    {
        assert(t[i as int] == (table@[i as int].0@, table@[i as int].1@));
        if str_eq(table[i].0, name) {
            return table[i].1.to_owned();
        }
        i = i + 1;
    }
    name.to_owned()
}

/// The name is a known alias.
pub fn is_lint_alias(name: &str) -> (b: bool)
    ensures
        b == exists|i: int| 0 <= i < alias_table().len() && (#[trigger] alias_table()[i]).0 == name@,
{
    let table = lint_aliases();
    let ghost t = alias_table();
    let mut i: usize = 0;
    while i < table.len()
        invariant
            i <= table@.len(),
            t == table@.map_values(|p: (&'static str, &'static str)| (p.0@, p.1@)),
            t == alias_table(),
            forall|j: int| 0 <= j < i ==> (#[trigger] t[j]).0 != name@,
        decreases table.len() - i,
    {
        assert(t[i as int] == (table@[i as int].0@, table@[i as int].1@));
        if str_eq(table[i].0, name) {
            return true;
        }
        i = i + 1;
    }
    false
}

// ============================================================================
// Settings
// ============================================================================
/// Per-lint levels configured by the user.
#[derive(Debug)]
pub struct LintSettings {
    levels: Vec<(String, LintLevel)>,
}

impl View for LintSettings {
    type V = Map<Seq<char>, LintLevel>;

    closed spec fn view(&self) -> Map<Seq<char>, LintLevel> {
        Map::new(
            |k: Seq<char>| exists|i: int| 0 <= i < self.levels@.len() && self.levels@[i].0@ == k,
            |k: Seq<char>|
                self.levels@[choose|i: int|
                    0 <= i < self.levels@.len() && self.levels@[i].0@ == k].1,
        )
    }
}

/// The level that the settings give a lint (warn when unset).
pub open spec fn level_in(m: Map<Seq<char>, LintLevel>, name: Seq<char>) -> LintLevel {
    if m.contains_key(name) {
        m[name]
    } else if m.contains_key(canonical(name)) {
        m[canonical(name)]
    } else {
        LintLevel::Warn
    }
}

impl LintSettings {
    #[verifier::type_invariant]
    closed spec fn inv(&self) -> bool {
        forall|i: int, j: int|
            0 <= i < self.levels@.len() && 0 <= j < self.levels@.len() && i != j
                ==> #[trigger] self.levels@[i].0@ != #[trigger] self.levels@[j].0@
    }

    /// No level configured.
    pub fn new() -> (r: Self)
        ensures
            r@ == Map::<Seq<char>, LintLevel>::empty(),
    {
        let r = LintSettings { levels: Vec::new() };
        assert(r@ =~= Map::<Seq<char>, LintLevel>::empty());
        r
    }

    fn index_of(&self, name: &str) -> (r: Option<usize>)
        ensures
            r matches Some(i) ==> i < self.levels@.len() && self.levels@[i as int].0@ == name@,
            r is None ==> !self@.contains_key(name@),
    {
        let mut i: usize = 0;
        while i < self.levels.len()
            invariant
                i <= self.levels@.len(),
                forall|j: int| 0 <= j < i ==> (#[trigger] self.levels@[j]).0@ != name@,
            decreases self.levels.len() - i,
        {
            if str_eq(self.levels[i].0.as_str(), name) {
                return Some(i);
            }
            i = i + 1;
        }
        None
    }

    proof fn lemma_lookup(&self, i: int)
        requires
            0 <= i < self.levels@.len(),
            self.inv(),
        ensures
            self@.contains_key(self.levels@[i].0@),
            self@[self.levels@[i].0@] == self.levels@[i].1,
    {
        let k = self.levels@[i].0@;
        let j = choose|j: int| 0 <= j < self.levels@.len() && self.levels@[j].0@ == k;
        assert(j == i);
    }

    /// Sets the level of `name`.
    pub fn set_level(&mut self, name: String, level: LintLevel)
        ensures
            final(self)@ == old(self)@.insert(name@, level),
    {
        proof {
            use_type_invariant(&*self);
        }
        let ghost old_levels = self.levels@;
        let ghost k = name@;
        match self.index_of(name.as_str()) {
            Some(i) => {
                let mut levels: Vec<(String, LintLevel)> = Vec::new();
                std::mem::swap(&mut levels, &mut self.levels);
                levels.set(i, (name, level));
                self.levels = levels;
                proof {
                    assert forall|x: Seq<char>| #[trigger]
                        self@.contains_key(x) <==> old(self)@.insert(k, level).contains_key(x) by {
                        if exists|j: int| 0 <= j < self.levels@.len() && self.levels@[j].0@ == x {
                            let j = choose|j: int|
                                0 <= j < self.levels@.len() && self.levels@[j].0@ == x;
                            if j != i {
                                assert(old_levels[j] == self.levels@[j]);
                            }
                        }
                        if old(self)@.contains_key(x) {
                            let j = choose|j: int| 0 <= j < old_levels.len() && old_levels[j].0@ == x;
                            if j != i {
                                assert(old_levels[j] == self.levels@[j]);
                            } else {
                                assert(self.levels@[i as int].0@ == k);
                            }
                        }
                    }
                    assert forall|x: Seq<char>| #[trigger]
                        self@.contains_key(x) implies self@[x] == old(self)@.insert(k, level)[x] by {
                        let j = choose|j: int| 0 <= j < self.levels@.len() && self.levels@[j].0@ == x;
                        self.lemma_lookup(j);
                        if j != i {
                            assert(old_levels[j] == self.levels@[j]);
                            old(self).lemma_lookup(j);
                        }
                    }
                    assert(self@ =~= old(self)@.insert(k, level));
                }
            },
            None => {
                let mut levels: Vec<(String, LintLevel)> = Vec::new();
                std::mem::swap(&mut levels, &mut self.levels);
                levels.push((name, level));
                self.levels = levels;
                proof {
                    let n = old_levels.len() as int;
                    assert forall|x: Seq<char>| #[trigger]
                        self@.contains_key(x) <==> old(self)@.insert(k, level).contains_key(x) by {
                        if exists|j: int| 0 <= j < self.levels@.len() && self.levels@[j].0@ == x {
                            let j = choose|j: int|
                                0 <= j < self.levels@.len() && self.levels@[j].0@ == x;
                            if j < n {
                                assert(old_levels[j] == self.levels@[j]);
                            }
                        }
                        if old(self)@.contains_key(x) {
                            let j = choose|j: int| 0 <= j < old_levels.len() && old_levels[j].0@ == x;
                            assert(old_levels[j] == self.levels@[j]);
                        }
                        if x == k {
                            assert(self.levels@[n].0@ == k);
                        }
                    }
                    assert forall|x: Seq<char>| #[trigger]
                        self@.contains_key(x) implies self@[x] == old(self)@.insert(k, level)[x] by {
                        let j = choose|j: int| 0 <= j < self.levels@.len() && self.levels@[j].0@ == x;
                        self.lemma_lookup(j);
                        if j < n {
                            assert(old_levels[j] == self.levels@[j]);
                            old(self).lemma_lookup(j);
                        }
                    }
                    assert(self@ =~= old(self)@.insert(k, level));
                }
            },
        }
    }

    /// The level configured for `name` (or its canonical name), warn when unset.
    pub fn level_for(&self, lint_name: &str) -> (r: LintLevel)
        ensures
            r == level_in(self@, lint_name@),
    {
        match self.index_of(lint_name) {
            Some(i) => {
                proof {
                    use_type_invariant(self);
                    self.lemma_lookup(i as int);
                }
                self.levels[i].1
            },
            None => {
                let canonical_name = resolve_lint_alias(lint_name);
                match self.index_of(canonical_name.as_str()) {
                    Some(i) => {
                        proof {
                            use_type_invariant(self);
                            self.lemma_lookup(i as int);
                        }
                        self.levels[i].1
                    },
                    None => LintLevel::Warn,
                }
            },
        }
    }

    /// The settings with the given levels added, each under its canonical name;
    /// a later entry for the same name wins.
    pub fn with_config_levels(self, levels: Vec<(String, LintLevel)>) -> (r: Self)
        ensures
            r@ == apply_levels(self@, levels@.map_values(|p: (String, LintLevel)| (p.0@, p.1))),
    {
        let mut this = self;
        let ghost ls = levels@.map_values(|p: (String, LintLevel)| (p.0@, p.1));
        let ghost start = this@;
        let mut i: usize = 0;
        while i < levels.len()
            invariant
                i <= levels@.len(),
                ls == levels@.map_values(|p: (String, LintLevel)| (p.0@, p.1)),
                this@ == apply_levels(start, ls.take(i as int)),
            decreases levels.len() - i,
        {
            let canonical_name = resolve_lint_alias(levels[i].0.as_str());
            this.set_level(canonical_name, levels[i].1);
            assert(ls.take(i + 1).drop_last() =~= ls.take(i as int));
            i = i + 1;
        }
        assert(ls.take(levels@.len() as int) =~= ls);
        this
    }

    /// The settings with each of `disabled` (under its canonical name) set to allow.
    pub fn disable(self, disabled: Vec<String>) -> (r: Self)
        ensures
            r@ == apply_levels(
                self@,
                disabled@.map_values(|s: String| (s@, LintLevel::Allow)),
            ),
    {
        let mut this = self;
        let ghost ls = disabled@.map_values(|s: String| (s@, LintLevel::Allow));
        let ghost start = this@;
        let mut i: usize = 0;
        while i < disabled.len()
            invariant
                i <= disabled@.len(),
                ls == disabled@.map_values(|s: String| (s@, LintLevel::Allow)),
                this@ == apply_levels(start, ls.take(i as int)),
            decreases disabled.len() - i,
        {
            let canonical_name = resolve_lint_alias(disabled[i].as_str());
            this.set_level(canonical_name, LintLevel::Allow);
            assert(ls.take(i + 1).drop_last() =~= ls.take(i as int));
            i = i + 1;
        }
        assert(ls.take(disabled@.len() as int) =~= ls);
        this
    }

    /// A copy of the settings.
    pub fn duplicate(&self) -> (r: Self)
        ensures
            r@ == self@,
    {
        proof {
            use_type_invariant(self);
        }
        let mut levels: Vec<(String, LintLevel)> = Vec::new();
        let mut i: usize = 0;
        while i < self.levels.len()
            invariant
                i <= self.levels@.len(),
                levels@.len() == i,
                forall|j: int| 0 <= j < i ==> #[trigger] levels@[j] == self.levels@[j],
            decreases self.levels.len() - i,
        {
            levels.push((self.levels[i].0.clone(), self.levels[i].1));
            i = i + 1;
        }
        assert(levels@ =~= self.levels@);
        LintSettings { levels }
    }
}

/// The level map after setting each `(name, level)` in turn (by canonical name).
pub open spec fn apply_levels(
    m: Map<Seq<char>, LintLevel>,
    ls: Seq<(Seq<char>, LintLevel)>,
) -> Map<Seq<char>, LintLevel>
    decreases ls.len(),
{
    if ls.len() == 0 {
        m
    } else {
        apply_levels(m, ls.drop_last()).insert(canonical(ls.last().0), ls.last().1)
    }
}

/// The level of a lint after the file-level and item-level directives.
pub open spec fn effective_level(
    settings: Map<Seq<char>, LintLevel>,
    name: Seq<char>,
    category: LintCategory,
    module: crate::annotations::ScopeView,
    item: crate::annotations::ScopeView,
) -> LintLevel {
    let cat = category_name(category);
    let l0 = level_in(settings, name);
    let l1 = if module.0.contains(name) || module.0.contains(cat) {
        LintLevel::Allow
    } else {
        l0
    };
    let l2 = if module.1.contains(name) || module.1.contains(cat) {
        LintLevel::Error
    } else {
        l1
    };
    let l3 = if item.0.contains(name) || item.0.contains(cat) {
        LintLevel::Allow
    } else {
        l2
    };
    let l4 = if item.1.contains(name) || item.1.contains(cat) {
        LintLevel::Error
    } else {
        l3
    };
    if l4 == LintLevel::Allow && (module.2.contains(name) || module.2.contains(cat)
        || item.2.contains(name) || item.2.contains(cat)) {
        LintLevel::Warn
    } else {
        l4
    }
}

/// The level at which a lint reports inside the given module and item scopes.
pub fn effective_level_for_scopes(
    settings: &LintSettings,
    lint: &LintDescriptor,
    module_scope: &SuppressionScope,
    item_scope: &SuppressionScope,
) -> (r: LintLevel)
    ensures
        r == effective_level(settings@, lint.name@, lint.category, module_scope@, item_scope@),
{
    let mut level = settings.level_for(lint.name);
    let category = lint.category.as_str();
    if module_scope.is_suppressed(lint.name) || module_scope.is_suppressed(category) {
        level = LintLevel::Allow;
    }
    if module_scope.is_denied(lint.name) || module_scope.is_denied(category) {
        level = LintLevel::Error;
    }
    if item_scope.is_suppressed(lint.name) || item_scope.is_suppressed(category) {
        level = LintLevel::Allow;
    }
    if item_scope.is_denied(lint.name) || item_scope.is_denied(category) {
        level = LintLevel::Error;
    }
    if level == LintLevel::Allow && (module_scope.is_expected(lint.name)
        || module_scope.is_expected(category) || item_scope.is_expected(lint.name)
        || item_scope.is_expected(category)) {
        level = LintLevel::Warn;
    }
    level
}

/// Item kinds that directives attach to.
pub open spec fn directive_item_kind(kind: Seq<char>) -> bool {
    kind == "module_definition"@ || kind == "use_declaration"@ || crate::text::contains(
        kind,
        "function"@,
    ) || crate::text::contains(kind, "struct"@) || crate::text::contains(kind, "enum"@)
        || crate::text::contains(kind, "constant"@)
}

/// Whether directives attach to nodes of this kind.
pub fn is_directive_item_kind(kind: &str) -> (b: bool)
    ensures
        b == directive_item_kind(kind@),
{
    if str_eq(kind, "module_definition") || str_eq(kind, "use_declaration") {
        return true;
    }
    crate::text::str_contains(kind, "function") || crate::text::str_contains(kind, "struct")
        || crate::text::str_contains(kind, "enum") || crate::text::str_contains(kind, "constant")
}

} // verus!
