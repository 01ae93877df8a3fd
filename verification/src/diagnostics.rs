//! Diagnostics: what a lint reports.
use vstd::prelude::*;
use crate::level::LintLevel;
use crate::lint::LintDescriptor;

verus! {

/// Single position in a Move source file (1-based row/column).
#[derive(Debug, Clone, Copy, PartialEq, Eq, Structural, Hash)]
pub struct Position {
    pub row: usize,
    pub column: usize,
}

/// Span in a Move source file (1-based row/column positions).
#[derive(Debug, Clone, Copy, PartialEq, Eq, Structural, Hash)]
pub struct Span {
    pub start: Position,
    pub end: Position,
}

impl Span {
    /// The span of a syntax-tree range given by 0-based points.
    pub fn from_points(start_row: usize, start_column: usize, end_row: usize, end_column: usize) -> (r: Self)
        requires
            start_row < usize::MAX,
            start_column < usize::MAX,
            end_row < usize::MAX,
            end_column < usize::MAX,
        ensures
            r.start == (Position { row: (start_row + 1) as usize, column: (start_column + 1) as usize }),
            r.end == (Position { row: (end_row + 1) as usize, column: (end_column + 1) as usize }),
    {
        Span {
            start: Position { row: start_row + 1, column: start_column + 1 },
            end: Position { row: end_row + 1, column: end_column + 1 },
        }
    }
}

/// Applicability of an automated suggestion.
#[derive(Debug, Clone, Copy, PartialEq, Eq, Structural, Hash)]
pub enum Applicability {
    MachineApplicable,
    MaybeIncorrect,
    HasPlaceholders,
    Unspecified,
}

/// Optional machine- or human-applicable fix for a diagnostic.
#[derive(Debug, Clone, PartialEq, Eq)]
pub struct Suggestion {
    pub message: String,
    pub replacement: String,
    pub applicability: Applicability,
}

/// A suggestion as plain values.
pub struct SuggestionView {
    pub message: Seq<char>,
    pub replacement: Seq<char>,
    pub applicability: Applicability,
}

impl View for Suggestion {
    type V = SuggestionView;

    open spec fn view(&self) -> SuggestionView {
        SuggestionView {
            message: self.message@,
            replacement: self.replacement@,
            applicability: self.applicability,
        }
    }
}

/// A single lint finding.
#[derive(Debug, Clone)]
pub struct Diagnostic {
    pub lint: LintDescriptor,
    pub level: LintLevel,
    pub file: Option<String>,
    pub span: Span,
    pub message: String,
    pub help: Option<String>,
    pub suggestion: Option<Suggestion>,
}

/// A diagnostic as plain values.
pub struct DiagView {
    pub lint: LintDescriptor,
    pub level: LintLevel,
    pub file: Option<Seq<char>>,
    pub span: Span,
    pub message: Seq<char>,
    pub help: Option<Seq<char>>,
    pub suggestion: Option<SuggestionView>,
}

/// The view of an optional string.
pub open spec fn opt_view(o: Option<String>) -> Option<Seq<char>> {
    match o {
        Some(s) => Some(s@),
        None => None,
    }
}

/// The view of an optional suggestion.
pub open spec fn opt_suggestion_view(o: Option<Suggestion>) -> Option<SuggestionView> {
    match o {
        Some(s) => Some(s@),
        None => None,
    }
}

impl View for Diagnostic {
    type V = DiagView;

    open spec fn view(&self) -> DiagView {
        DiagView {
            lint: self.lint,
            level: self.level,
            file: opt_view(self.file),
            span: self.span,
            message: self.message@,
            help: opt_view(self.help),
            suggestion: opt_suggestion_view(self.suggestion),
        }
    }
}

/// The views of a list of diagnostics.
pub open spec fn diag_views(ds: Seq<Diagnostic>) -> Seq<DiagView> {
    ds.map_values(|d: Diagnostic| d@)
}

/// Two descriptors agree in every field.
pub open spec fn same_descriptor(a: LintDescriptor, b: LintDescriptor) -> bool {
    &&& a.name@ == b.name@
    &&& a.category == b.category
    &&& a.description@ == b.description@
    &&& a.group == b.group
    &&& a.fix.available == b.fix.available
    &&& a.fix.safety == b.fix.safety
    &&& a.fix.description@ == b.fix.description@
    &&& a.analysis == b.analysis
    &&& a.gap == b.gap
}

/// Two diagnostics agree: the same lint, level, file, span, message, help and suggestion.
pub open spec fn same_diagnostic(a: DiagView, b: DiagView) -> bool {
    &&& same_descriptor(a.lint, b.lint)
    &&& a.level == b.level
    &&& a.file == b.file
    &&& a.span == b.span
    &&& a.message == b.message
    &&& a.help == b.help
    &&& a.suggestion == b.suggestion
}

fn same_opt_string(a: &Option<String>, b: &Option<String>) -> (r: bool)
    ensures
        r == (opt_view(*a) == opt_view(*b)),
{
    match (a, b) {
        (Some(x), Some(y)) => crate::text::str_eq(x.as_str(), y.as_str()),
        (None, None) => true,
        _ => false,
    }
}

fn same_lint(a: &LintDescriptor, b: &LintDescriptor) -> (r: bool)
    ensures
        r == same_descriptor(*a, *b),
{
    let gaps = match (a.gap, b.gap) {
        (Some(x), Some(y)) => x == y,
        (None, None) => true,
        _ => false,
    };
    crate::text::str_eq(a.name, b.name) && a.category == b.category && crate::text::str_eq(a.description, b.description)
        && a.group == b.group && a.fix.available == b.fix.available && a.fix.safety == b.fix.safety
        && crate::text::str_eq(a.fix.description, b.fix.description) && a.analysis == b.analysis && gaps
}

impl PartialEq for Diagnostic {
    fn eq(&self, other: &Self) -> (r: bool) {
        let suggestions = match (&self.suggestion, &other.suggestion) {
            (Some(x), Some(y)) => crate::text::str_eq(x.message.as_str(), y.message.as_str()) && crate::text::str_eq(
                x.replacement.as_str(),
                y.replacement.as_str(),
            ) && x.applicability == y.applicability,
            (None, None) => true,
            _ => false,
        };
        same_lint(&self.lint, &other.lint) && self.level == other.level && same_opt_string(&self.file, &other.file)
            && self.span == other.span && crate::text::str_eq(self.message.as_str(), other.message.as_str())
            && same_opt_string(&self.help, &other.help) && suggestions
    }
}

impl vstd::std_specs::cmp::PartialEqSpecImpl for Diagnostic {
    open spec fn obeys_eq_spec() -> bool {
        true
    }

    open spec fn eq_spec(&self, other: &Diagnostic) -> bool {
        same_diagnostic(self@, other@)
    }
}

impl Eq for Diagnostic {}

} // verus!
