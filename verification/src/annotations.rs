//! Attributes that control lint behaviour.
//!
//! - `#[allow(lint::name)]` suppresses a lint for an item,
//! - `#[deny(lint::name)]` promotes it to an error,
//! - `#[expect(lint::name)]` requires it to fire,
//! - `#[validates(param)]` marks a function as validating a capability parameter,
//! - `#[ext(move_clippy(allow(name)))]` and friends are compiler-accepted forms,
//! - `#![...]` at the top of a file applies to the whole file.
use vstd::prelude::*;
use crate::names::{NameSet, string_views};
use crate::text::{
    byte_len, byte_length, char_idx, char_index_of_byte, chars_of, compact_ws, is_boundary_at,
    is_char_boundary, lemma_boundary_unique, line_spans, lines, remove_ws, starts_with, string_of,
    strip_prefix, strip_suffix, trim, trim_bounds, utf8_width,
};

verus! {

/// The kind of a recognised annotation.
#[derive(Debug, Clone, Copy, PartialEq, Eq, Structural)]
pub enum AnnKind {
    Allow,
    Deny,
    Expect,
    Validates,
}

/// Annotation types recognized by move-clippy.
#[derive(Debug, Clone, PartialEq, Eq)]
pub enum MoveClippyAnnotation {
    /// Suppress warnings for this lint.
    Allow(String),
    /// Promote this lint to error level.
    Deny(String),
    /// Expect this lint to fire; an error if it does not.
    Expect(String),
    /// Mark a function as validating a capability parameter.
    Validates(String),
}

/// An annotation as plain values.
pub type AnnView = (AnnKind, Seq<char>);

impl View for MoveClippyAnnotation {
    type V = AnnView;

    open spec fn view(&self) -> AnnView {
        match self {
            MoveClippyAnnotation::Allow(n) => (AnnKind::Allow, n@),
            MoveClippyAnnotation::Deny(n) => (AnnKind::Deny, n@),
            MoveClippyAnnotation::Expect(n) => (AnnKind::Expect, n@),
            MoveClippyAnnotation::Validates(n) => (AnnKind::Validates, n@),
        }
    }
}

pub open spec fn ann_views(v: Seq<MoveClippyAnnotation>) -> Seq<AnnView> {
    v.map_values(|a: MoveClippyAnnotation| a@)
}

fn make_annotation(kind: AnnKind, name: String) -> (r: MoveClippyAnnotation)
    ensures
        r@ == (kind, name@),
{
    match kind {
        AnnKind::Allow => MoveClippyAnnotation::Allow(name),
        AnnKind::Deny => MoveClippyAnnotation::Deny(name),
        AnnKind::Expect => MoveClippyAnnotation::Expect(name),
        AnnKind::Validates => MoveClippyAnnotation::Validates(name),
    }
}

impl MoveClippyAnnotation {
    /// The lint name of an Allow/Deny/Expect annotation.
    pub fn lint_name(&self) -> (r: Option<&str>)
        ensures
            self@.0 != AnnKind::Validates ==> (r matches Some(n) && n@ == self@.1),
            self@.0 == AnnKind::Validates ==> r is None,
    {
        match self {
            MoveClippyAnnotation::Allow(name) => Some(name.as_str()),
            MoveClippyAnnotation::Deny(name) => Some(name.as_str()),
            MoveClippyAnnotation::Expect(name) => Some(name.as_str()),
            MoveClippyAnnotation::Validates(_) => None,
        }
    }

    /// The parameter name of a Validates annotation.
    pub fn validates_param(&self) -> (r: Option<&str>)
        ensures
            self@.0 == AnnKind::Validates ==> (r matches Some(n) && n@ == self@.1),
            self@.0 != AnnKind::Validates ==> r is None,
    {
        match self {
            MoveClippyAnnotation::Validates(param) => Some(param.as_str()),
            _ => None,
        }
    }
}

// ---------------------------------------------------------------------------
// One attribute line
// ---------------------------------------------------------------------------
pub open spec fn strip_pre(s: Seq<char>, p: Seq<char>) -> Option<Seq<char>> {
    if p.is_prefix_of(s) {
        Some(s.skip(p.len() as int))
    } else {
        None
    }
}

pub open spec fn strip_suf(s: Seq<char>, p: Seq<char>) -> Option<Seq<char>> {
    if p.is_suffix_of(s) {
        Some(s.take(s.len() - p.len()))
    } else {
        None
    }
}

pub open spec fn or_else<T>(a: Option<T>, b: Option<T>) -> Option<T> {
    match a {
        Some(x) => Some(x),
        None => b,
    }
}

/// `kw(name)` inside `move_clippy(...)`, with an optional `lint::` on the name.
pub open spec fn ext_keyword(rest: Seq<char>, kw: Seq<char>, kind: AnnKind) -> Option<AnnView> {
    match strip_pre(rest, kw) {
        Some(inner) => match strip_suf(inner, ")"@) {
            Some(name) => Some(
                (
                    kind,
                    match strip_pre(name, "lint::"@) {
                        Some(n) => n,
                        None => name,
                    },
                ),
            ),
            None => None,
        },
        None => None,
    }
}

/// `prefix move_clippy(kw(name)))]`.
pub open spec fn ext_form(c: Seq<char>, prefix: Seq<char>) -> Option<AnnView> {
    match strip_pre(c, prefix) {
        Some(a) => match strip_suf(a, ")]"@) {
            Some(b) => match strip_pre(b, "move_clippy("@) {
                Some(d) => match strip_suf(d, ")"@) {
                    Some(rest) => or_else(
                        ext_keyword(rest, "allow("@, AnnKind::Allow),
                        or_else(
                            ext_keyword(rest, "deny("@, AnnKind::Deny),
                            ext_keyword(rest, "expect("@, AnnKind::Expect),
                        ),
                    ),
                    None => None,
                },
                None => None,
            },
            None => None,
        },
        None => None,
    }
}

/// `prefix name)]`.
pub open spec fn simple_form(c: Seq<char>, prefix: Seq<char>, kind: AnnKind) -> Option<AnnView> {
    match strip_pre(c, prefix) {
        Some(r) => match strip_suf(r, ")]"@) {
            Some(n) => Some((kind, n)),
            None => None,
        },
        None => None,
    }
}

/// The annotation that an attribute line holds, read with its whitespace removed.
pub open spec fn annotation_of(line: Seq<char>) -> Option<AnnView> {
    let c = remove_ws(line);
    or_else(
        ext_form(c, "#[ext("@),
        or_else(
            ext_form(c, "#![ext("@),
            or_else(
                simple_form(c, "#[allow(lint::"@, AnnKind::Allow),
                or_else(
                    simple_form(c, "#![allow(lint::"@, AnnKind::Allow),
                    or_else(
                        simple_form(c, "#[deny(lint::"@, AnnKind::Deny),
                        or_else(
                            simple_form(c, "#![deny(lint::"@, AnnKind::Deny),
                            or_else(
                                simple_form(c, "#[expect(lint::"@, AnnKind::Expect),
                                or_else(
                                    simple_form(c, "#![expect(lint::"@, AnnKind::Expect),
                                    simple_form(c, "#[validates("@, AnnKind::Validates),
                                ),
                            ),
                        ),
                    ),
                ),
            ),
        ),
    )
}

fn parse_ext_keyword(rest: &str, kw: &str, kind: AnnKind) -> (r: Option<MoveClippyAnnotation>)
    ensures
        r matches Some(a) ==> ext_keyword(rest@, kw@, kind) == Some(a@),
        r is None ==> ext_keyword(rest@, kw@, kind) is None,
{
    if let Some(inner) = strip_prefix(rest, kw) {
        if let Some(name) = strip_suffix(inner, ")") {
            let name = match strip_prefix(name, "lint::") {
                Some(n) => n,
                None => name,
            };
            return Some(make_annotation(kind, name.to_owned()));
        }
    }
    None
}

fn parse_ext_form(compact: &str, prefix: &str) -> (r: Option<MoveClippyAnnotation>)
    ensures
        r matches Some(a) ==> ext_form(compact@, prefix@) == Some(a@),
        r is None ==> ext_form(compact@, prefix@) is None,
{
    if let Some(a) = strip_prefix(compact, prefix) {
        if let Some(b) = strip_suffix(a, ")]") {
            if let Some(d) = strip_prefix(b, "move_clippy(") {
                if let Some(rest) = strip_suffix(d, ")") {
                    if let Some(x) = parse_ext_keyword(rest, "allow(", AnnKind::Allow) {
                        return Some(x);
                    }
                    if let Some(x) = parse_ext_keyword(rest, "deny(", AnnKind::Deny) {
                        return Some(x);
                    }
                    if let Some(x) = parse_ext_keyword(rest, "expect(", AnnKind::Expect) {
                        return Some(x);
                    }
                }
            }
        }
    }
    None
}

fn parse_simple_form(compact: &str, prefix: &str, kind: AnnKind) -> (r: Option<
    MoveClippyAnnotation,
>)
    ensures
        r matches Some(a) ==> simple_form(compact@, prefix@, kind) == Some(a@),
        r is None ==> simple_form(compact@, prefix@, kind) is None,
{
    if let Some(rest) = strip_prefix(compact, prefix) {
        if let Some(name) = strip_suffix(rest, ")]") {
            return Some(make_annotation(kind, name.to_owned()));
        }
    }
    None
}

/// Parses one attribute line.
pub fn parse_annotation_line(line: &str) -> (r: Option<MoveClippyAnnotation>)
    ensures
        r matches Some(a) ==> annotation_of(line@) == Some(a@),
        r is None ==> annotation_of(line@) is None,
{
    let compact_s = compact_ws(line);
    let compact = compact_s.as_str();
    if let Some(a) = parse_ext_form(compact, "#[ext(") {
        return Some(a);
    }
    if let Some(a) = parse_ext_form(compact, "#![ext(") {
        return Some(a);
    }
    if let Some(a) = parse_simple_form(compact, "#[allow(lint::", AnnKind::Allow) {
        return Some(a);
    }
    if let Some(a) = parse_simple_form(compact, "#![allow(lint::", AnnKind::Allow) {
        return Some(a);
    }
    if let Some(a) = parse_simple_form(compact, "#[deny(lint::", AnnKind::Deny) {
        return Some(a);
    }
    if let Some(a) = parse_simple_form(compact, "#![deny(lint::", AnnKind::Deny) {
        return Some(a);
    }
    if let Some(a) = parse_simple_form(compact, "#[expect(lint::", AnnKind::Expect) {
        return Some(a);
    }
    if let Some(a) = parse_simple_form(compact, "#![expect(lint::", AnnKind::Expect) {
        return Some(a);
    }
    parse_simple_form(compact, "#[validates(", AnnKind::Validates)
}

// ---------------------------------------------------------------------------
// Attribute blocks
// ---------------------------------------------------------------------------
/// A doc-comment line (after trimming).
pub open spec fn is_doc_line(t: Seq<char>) -> bool {
    "///"@.is_prefix_of(t) || "/**"@.is_prefix_of(t) || "*"@.is_prefix_of(t) || "*/"@.is_prefix_of(
        t,
    )
}

/// The annotations of the attribute block that ends at line `i` (exclusive),
/// read bottom-up: blank and doc lines are skipped, `#[` lines are parsed, and
/// a `#![` line or any other line ends the block.
pub open spec fn scan_item_attrs(ls: Seq<Seq<char>>, i: int) -> Seq<AnnView>
    decreases i,
{
    if i <= 0 || i > ls.len() {
        Seq::empty()
    } else {
        let t = trim(ls[i - 1]);
        if t.len() == 0 || is_doc_line(t) {
            scan_item_attrs(ls, i - 1)
        } else if "#!["@.is_prefix_of(t) {
            Seq::empty()
        } else if "#["@.is_prefix_of(t) {
            match annotation_of(t) {
                Some(a) => seq![a] + scan_item_attrs(ls, i - 1),
                None => scan_item_attrs(ls, i - 1),
            }
        } else {
            Seq::empty()
        }
    }
}

/// The largest `j` at or after `j0` such that the first `j` chars of `s` take
/// at most `lim` bytes.
pub open spec fn max_take_within(s: Seq<char>, lim: int, j: int) -> int
    decreases s.len() - j,
{
    if j < 0 || j >= s.len() || byte_len(s.take(j + 1)) > lim {
        j
    } else {
        max_take_within(s, lim, j + 1)
    }
}

/// The text before byte `b` that is scanned for an item's attributes: at most
/// the last 4096 bytes, widened to a char boundary.  `None` when `b` is not a
/// char boundary of `src`.
pub open spec fn item_window(src: Seq<char>, b: int) -> Option<Seq<char>> {
    if is_char_boundary(src, b) {
        let before = src.take(char_idx(src, b));
        let lim = if b >= 4096 {
            b - 4096
        } else {
            0
        };
        Some(before.skip(max_take_within(before, lim, 0)))
    } else {
        None
    }
}

/// The annotations of the item that starts at byte `b`, nearest first.
pub open spec fn item_annotations(src: Seq<char>, b: int) -> Seq<AnnView> {
    match item_window(src, b) {
        Some(w) => scan_item_attrs(lines(w), lines(w).len() as int),
        None => Seq::empty(),
    }
}

/// The annotations of the file header: blank and doc lines are skipped,
/// `#![` lines are parsed, and any other line ends the header.
pub open spec fn scan_module_attrs(ls: Seq<Seq<char>>, i: int) -> Seq<AnnView>
    decreases ls.len() - i,
{
    if i < 0 || i >= ls.len() {
        Seq::empty()
    } else {
        let t = trim(ls[i]);
        if t.len() == 0 || is_doc_line(t) {
            scan_module_attrs(ls, i + 1)
        } else if "#!["@.is_prefix_of(t) {
            match annotation_of(t) {
                Some(a) => seq![a] + scan_module_attrs(ls, i + 1),
                None => scan_module_attrs(ls, i + 1),
            }
        } else {
            Seq::empty()
        }
    }
}

/// The first 8192 bytes of the file (all of it when shorter).
pub open spec fn module_header(src: Seq<char>) -> Seq<char> {
    if byte_len(src) <= 8192 {
        src
    } else {
        src.take(char_idx(src, 8192))
    }
}

pub open spec fn module_annotations(src: Seq<char>) -> Seq<AnnView> {
    scan_module_attrs(lines(module_header(src)), 0)
}

/// What the trimmed line `t` contributes, and whether the scan goes on.
fn classify_line(t: &str, module_level: bool) -> (r: (Option<MoveClippyAnnotation>, bool))
    ensures
        t@.len() == 0 || is_doc_line(t@) ==> r.0 is None && r.1,
        !(t@.len() == 0 || is_doc_line(t@)) && module_level ==> if "#!["@.is_prefix_of(t@) {
            r.1 && (match r.0 {
                Some(a) => annotation_of(t@) == Some(a@),
                None => annotation_of(t@) is None,
            })
        } else {
            !r.1 && r.0 is None
        },
        !(t@.len() == 0 || is_doc_line(t@)) && !module_level ==> if "#!["@.is_prefix_of(t@) {
            !r.1 && r.0 is None
        } else if "#["@.is_prefix_of(t@) {
            r.1 && (match r.0 {
                Some(a) => annotation_of(t@) == Some(a@),
                None => annotation_of(t@) is None,
            })
        } else {
            !r.1 && r.0 is None
        },
{
    if t.is_empty() {
        return (None, true);
    }
    if starts_with(t, "///") || starts_with(t, "/**") || starts_with(t, "*") || starts_with(t, "*/") {
        return (None, true);
    }
    if starts_with(t, "#![") {
        if module_level {
            return (parse_annotation_line(t), true);
        } else {
            return (None, false);
        }
    }
    if !module_level && starts_with(t, "#[") {
        return (parse_annotation_line(t), true);
    }
    (None, false)
}

/// Parses the annotations in the attribute block that precedes the item
/// starting at byte `item_start_byte`, nearest line first.
pub fn parse_annotations(source: &str, item_start_byte: usize) -> (r: Vec<MoveClippyAnnotation>)
    ensures
        ann_views(r@) == item_annotations(source@, item_start_byte as int),
{
    let v = chars_of(source);
    let k = match char_index_of_byte(&v, item_start_byte) {
        None => {
            return Vec::new();
        },
        Some(k) => k,
    };
    let ghost before = v@.take(k as int);
    let lim: usize = if item_start_byte >= 4096 {
        item_start_byte - 4096
    } else {
        0
    };
    let mut j: usize = 0;
    let mut acc: usize = 0;
    while j < k && utf8_width(v[j]) <= lim - acc
        invariant
            j <= k <= v@.len(),
            acc <= lim,
            lim <= item_start_byte,
            before == v@.take(k as int),
            acc == byte_len(before.take(j as int)),
            max_take_within(before, lim as int, 0) == max_take_within(before, lim as int, j as int),
        decreases k - j,
    {
        assert(before.take(j + 1).drop_last() =~= before.take(j as int));
        acc = acc + utf8_width(v[j]);
        j = j + 1;
    }
    proof {
        if j < k {
            assert(before.take(j + 1).drop_last() =~= before.take(j as int));
        }
        let c = char_idx(v@, item_start_byte as int);
        lemma_boundary_unique(v@, k as int, c, item_start_byte as int);
    }
    let ws = string_of(&v, j, k);
    let w = chars_of(ws.as_str());
    assert(w@ == before.skip(j as int));
    let spans = line_spans(&w);
    let ghost ls = lines(w@);
    let mut out: Vec<MoveClippyAnnotation> = Vec::new();
    let mut i = spans.len();
    while i > 0
        invariant
            i <= spans@.len(),
            spans@.len() == ls.len(),
            ls == lines(w@),
            forall|t: int|
                #![trigger spans@[t]]
                0 <= t < spans@.len() ==> (spans@[t].0 <= spans@[t].1 && spans@[t].1
                    <= w@.len() && ls[t] == w@.subrange(spans@[t].0 as int, spans@[t].1 as int)),
            ann_views(out@) + scan_item_attrs(ls, i as int) == scan_item_attrs(
                ls,
                ls.len() as int,
            ),
        ensures
            ann_views(out@) == scan_item_attrs(ls, ls.len() as int),
        decreases i,
    {
        let (a, b) = spans[i - 1];
        let (ta, tb) = trim_bounds(&w, a, b);
        let ts = string_of(&w, ta, tb);
        let t = ts.as_str();
        assert(t@ == trim(ls[i - 1]));
        let (ann, go_on) = classify_line(t, false);
        if !go_on {
            assert(scan_item_attrs(ls, i as int) =~= Seq::<AnnView>::empty());
            assert(ann_views(out@) =~= ann_views(out@) + Seq::<AnnView>::empty());
            break;
        }
        let ghost old_out = out@;
        match ann {
            Some(x) => {
                out.push(x);
                assert(ann_views(out@) =~= ann_views(old_out).push(annotation_of(t@).unwrap()));
            },
            None => {},
        }
        proof {
            let rest = scan_item_attrs(ls, i - 1);
            if annotation_of(t@) is Some && "#["@.is_prefix_of(t@) && !(t@.len() == 0
                || is_doc_line(t@)) {
                assert(ann_views(out@) + rest =~= ann_views(old_out) + (seq![
                    annotation_of(t@).unwrap(),
                ] + rest));
            }
        }
        i = i - 1;
    }
    proof {
        assert(max_take_within(before, lim as int, j as int) == j);
        assert(item_window(source@, item_start_byte as int) == Some(before.skip(j as int)));
    }
    out
}

/// Parses the `#![...]` directives of the file header.
pub fn parse_module_annotations(source: &str) -> (r: Vec<MoveClippyAnnotation>)
    requires
        byte_len(source@) > 8192 ==> is_char_boundary(source@, 8192),
    ensures
        ann_views(r@) == module_annotations(source@),
{
    let v = chars_of(source);
    let len = byte_length(source);
    let mut k = v.len();
    if len > 8192 {
        match char_index_of_byte(&v, 8192) {
            Some(c) => {
                proof {
                    lemma_boundary_unique(v@, c as int, char_idx(v@, 8192), 8192);
                }
                k = c;
            },
            None => {
                return Vec::new();
            },
        }
    } else {
        assert(v@.take(k as int) =~= v@);
    }
    let hs = string_of(&v, 0, k);
    let w = chars_of(hs.as_str());
    assert(w@ == module_header(source@));
    let spans = line_spans(&w);
    let ghost ls = lines(w@);
    let mut out: Vec<MoveClippyAnnotation> = Vec::new();
    let mut i: usize = 0;
    while i < spans.len()
        invariant
            i <= spans@.len(),
            spans@.len() == ls.len(),
            ls == lines(w@),
            forall|t: int|
                #![trigger spans@[t]]
                0 <= t < spans@.len() ==> (spans@[t].0 <= spans@[t].1 && spans@[t].1
                    <= w@.len() && ls[t] == w@.subrange(spans@[t].0 as int, spans@[t].1 as int)),
            ann_views(out@) + scan_module_attrs(ls, i as int) == scan_module_attrs(ls, 0),
        ensures
            ann_views(out@) == scan_module_attrs(ls, 0),
        decreases spans.len() - i,
    {
        let (a, b) = spans[i];
        let (ta, tb) = trim_bounds(&w, a, b);
        let ts = string_of(&w, ta, tb);
        let t = ts.as_str();
        assert(t@ == trim(ls[i as int]));
        let (ann, go_on) = classify_line(t, true);
        if !go_on {
            assert(scan_module_attrs(ls, i as int) =~= Seq::<AnnView>::empty());
            assert(ann_views(out@) =~= ann_views(out@) + Seq::<AnnView>::empty());
            break;
        }
        let ghost old_out = out@;
        match ann {
            Some(x) => {
                out.push(x);
                assert(ann_views(out@) =~= ann_views(old_out).push(annotation_of(t@).unwrap()));
            },
            None => {},
        }
        proof {
            let rest = scan_module_attrs(ls, i + 1);
            if annotation_of(t@) is Some && "#!["@.is_prefix_of(t@) && !(t@.len() == 0
                || is_doc_line(t@)) {
                assert(ann_views(out@) + rest =~= ann_views(old_out) + (seq![
                    annotation_of(t@).unwrap(),
                ] + rest));
            }
        }
        i = i + 1;
    }
    out
}

/// The names that the annotations of kind `k` carry.
pub open spec fn names_of(anns: Seq<AnnView>, k: AnnKind) -> Set<Seq<char>> {
    Set::new(|n: Seq<char>| exists|i: int| 0 <= i < anns.len() && anns[i] == (k, n))
}

/// Suppression scope: which lints are allowed, denied or expected, and which
/// parameters are validated, in one scope.
#[derive(Debug)]
pub struct SuppressionScope {
    allowed: NameSet,
    denied: NameSet,
    expected: NameSet,
    validated_params: NameSet,
}

/// A scope as plain values: allowed, denied, expected, validated.
pub type ScopeView = (Set<Seq<char>>, Set<Seq<char>>, Set<Seq<char>>, Set<Seq<char>>);

impl View for SuppressionScope {
    type V = ScopeView;

    closed spec fn view(&self) -> ScopeView {
        (self.allowed@, self.denied@, self.expected@, self.validated_params@)
    }
}

/// The scope that a list of annotations makes.
pub open spec fn scope_of(anns: Seq<AnnView>) -> ScopeView {
    (
        names_of(anns, AnnKind::Allow),
        names_of(anns, AnnKind::Deny),
        names_of(anns, AnnKind::Expect),
        names_of(anns, AnnKind::Validates),
    )
}

impl SuppressionScope {
    pub fn new() -> (r: Self)
        ensures
            r@ == (
                Set::<Seq<char>>::empty(),
                Set::<Seq<char>>::empty(),
                Set::<Seq<char>>::empty(),
                Set::<Seq<char>>::empty(),
            ),
    {
        SuppressionScope {
            allowed: NameSet::new(),
            denied: NameSet::new(),
            expected: NameSet::new(),
            validated_params: NameSet::new(),
        }
    }

    /// The scope of a list of annotations.
    pub fn from_annotations(annotations: Vec<MoveClippyAnnotation>) -> (r: Self)
        ensures
            r@ == scope_of(ann_views(annotations@)),
    {
        let ghost anns = ann_views(annotations@);
        let mut scope = Self::new();
        let mut i: usize = 0;
        while i < annotations.len()
            invariant
                i <= annotations@.len(),
                anns == ann_views(annotations@),
                scope@ == scope_of(anns.take(i as int)),
            decreases annotations.len() - i,
        {
            let ghost before = scope@;
            let ghost t = anns.take(i + 1);
            assert(anns.take(i as int) =~= t.drop_last());
            assert(t[i as int] == annotations@[i as int]@);
            match &annotations[i] {
                MoveClippyAnnotation::Allow(name) => {
                    scope.allowed.insert(name.clone());
                },
                MoveClippyAnnotation::Deny(name) => {
                    scope.denied.insert(name.clone());
                },
                MoveClippyAnnotation::Expect(name) => {
                    scope.expected.insert(name.clone());
                },
                MoveClippyAnnotation::Validates(param) => {
                    scope.validated_params.insert(param.clone());
                },
            }
            proof {
                let pre = anns.take(i as int);
                assert forall|k: AnnKind, n: Seq<char>|
                    #[trigger] names_of(t, k).contains(n) <==> names_of(pre, k).contains(n) || (k, n)
                        == t[i as int] by {
                    if names_of(t, k).contains(n) {
                        let j = choose|j: int| 0 <= j < t.len() && t[j] == (k, n);
                        if j < i {
                            assert(pre[j] == t[j]);
                        }
                    }
                    if names_of(pre, k).contains(n) {
                        let j = choose|j: int| 0 <= j < pre.len() && pre[j] == (k, n);
                        assert(t[j] == pre[j]);
                    }
                }
                assert(scope@.0 =~= names_of(t, AnnKind::Allow));
                assert(scope@.1 =~= names_of(t, AnnKind::Deny));
                assert(scope@.2 =~= names_of(t, AnnKind::Expect));
                assert(scope@.3 =~= names_of(t, AnnKind::Validates));
            }
            i = i + 1;
        }
        assert(anns.take(annotations@.len() as int) =~= anns);
        scope
    }

    /// The lint is allowed (suppressed) in this scope.
    pub fn is_suppressed(&self, lint_name: &str) -> (b: bool)
        ensures
            b == self@.0.contains(lint_name@),
    {
        self.allowed.contains(lint_name)
    }

    /// The lint is denied (promoted to error) in this scope.
    pub fn is_denied(&self, lint_name: &str) -> (b: bool)
        ensures
            b == self@.1.contains(lint_name@),
    {
        self.denied.contains(lint_name)
    }

    /// The lint is expected in this scope.
    pub fn is_expected(&self, lint_name: &str) -> (b: bool)
        ensures
            b == self@.2.contains(lint_name@),
    {
        self.expected.contains(lint_name)
    }

    /// The parameter is marked as validated.
    pub fn is_validated(&self, param_name: &str) -> (b: bool)
        ensures
            b == self@.3.contains(param_name@),
    {
        self.validated_params.contains(param_name)
    }

    /// Merges another scope into this one.
    pub fn merge(&mut self, other: &SuppressionScope)
        ensures
            final(self)@ == (
                old(self)@.0.union(other@.0),
                old(self)@.1.union(other@.1),
                old(self)@.2.union(other@.2),
                old(self)@.3.union(other@.3),
            ),
    {
        self.allowed.extend(&other.allowed);
        self.denied.extend(&other.denied);
        self.expected.extend(&other.expected);
        self.validated_params.extend(&other.validated_params);
    }

    /// The expected lints that have not fired, each once.
    pub fn unfired_expectations(&self) -> (r: Vec<String>)
        ensures
            string_views(r@).to_set() == self@.2,
            string_views(r@).no_duplicates(),
    {
        self.expected.elements()
    }

    /// Marks an expected lint as having fired.
    pub fn mark_expected_fired(&mut self, lint_name: &str)
        ensures
            final(self)@ == (
                old(self)@.0,
                old(self)@.1,
                old(self)@.2.remove(lint_name@),
                old(self)@.3,
            ),
    {
        self.expected.remove(lint_name);
    }

    /// A copy of the scope.
    pub fn duplicate(&self) -> (r: Self)
        ensures
            r@ == self@,
    {
        SuppressionScope {
            allowed: self.allowed.duplicate(),
            denied: self.denied.duplicate(),
            expected: self.expected.duplicate(),
            validated_params: self.validated_params.duplicate(),
        }
    }
}

/// The scope of the item that starts at byte `item_start_byte`.
pub fn item_scope(source: &str, item_start_byte: usize) -> (r: SuppressionScope)
    ensures
        r@ == scope_of(item_annotations(source@, item_start_byte as int)),
{
    SuppressionScope::from_annotations(parse_annotations(source, item_start_byte))
}

/// The scope of the whole file, from its header directives.
pub fn module_scope(source: &str) -> (r: SuppressionScope)
    requires
        byte_len(source@) > 8192 ==> is_char_boundary(source@, 8192),
    ensures
        r@ == scope_of(module_annotations(source@)),
{
    SuppressionScope::from_annotations(parse_module_annotations(source))
}

/// The first parameter in a list of annotations that a `validates` names.
pub open spec fn first_validates(anns: Seq<AnnView>, i: int) -> Option<Seq<char>>
    decreases anns.len() - i,
{
    if i < 0 || i >= anns.len() {
        None
    } else if anns[i].0 == AnnKind::Validates {
        Some(anns[i].1)
    } else {
        first_validates(anns, i + 1)
    }
}

/// The parameter that the function starting at `fn_start_byte` validates, if any.
pub fn get_validates_annotation(source: &str, fn_start_byte: usize) -> (r: Option<String>)
    ensures
        match first_validates(item_annotations(source@, fn_start_byte as int), 0) {
            Some(p) => (r matches Some(s) && s@ == p),
            None => r is None,
        },
{
    let anns = parse_annotations(source, fn_start_byte);
    let ghost av = ann_views(anns@);
    let mut i: usize = 0;
    while i < anns.len()
        invariant
            i <= anns@.len(),
            av == ann_views(anns@),
            av == item_annotations(source@, fn_start_byte as int),
            first_validates(av, 0) == first_validates(av, i as int),
        decreases anns.len() - i,
    {
        assert(av[i as int] == anns@[i as int]@);
        match &anns[i] {
            MoveClippyAnnotation::Validates(param) => {
                let p = param.clone();
                assert(av[i as int] == (AnnKind::Validates, param@));
                assert(p@ == param@);
                assert(first_validates(av, i as int) == Some(param@));
                assert(av == item_annotations(source@, fn_start_byte as int));
                assert(first_validates(item_annotations(source@, fn_start_byte as int), 0) == Some(
                    param@,
                ));
                return Some(p);
            },
            _ => {},
        }
        i = i + 1;
    }
    None
}

/// Stack of scopes, innermost last.
#[derive(Debug)]
pub struct SuppressionStack {
    scopes: Vec<SuppressionScope>,
}

impl View for SuppressionStack {
    type V = Seq<ScopeView>;

    closed spec fn view(&self) -> Seq<ScopeView> {
        self.scopes@.map_values(|s: SuppressionScope| s@)
    }
}

impl SuppressionStack {
    pub fn new() -> (r: Self)
        ensures
            r@ == Seq::<ScopeView>::empty(),
    {
        let r = SuppressionStack { scopes: Vec::new() };
        assert(r@ =~= Seq::<ScopeView>::empty());
        r
    }

    /// Pushes a scope.
    pub fn push(&mut self, scope: SuppressionScope)
        ensures
            final(self)@ == old(self)@.push(scope@),
    {
        self.scopes.push(scope);
        assert(self@ =~= old(self)@.push(scope@));
    }

    /// Pops the innermost scope.
    pub fn pop(&mut self) -> (r: Option<SuppressionScope>)
        ensures
            old(self)@.len() == 0 ==> r is None && final(self)@ == old(self)@,
            old(self)@.len() > 0 ==> (r matches Some(s) && s@ == old(self)@.last())
                && final(self)@ == old(self)@.drop_last(),
    {
        let r = self.scopes.pop();
        proof {
            if old(self)@.len() > 0 {
                assert(self@ =~= old(self)@.drop_last());
            } else {
                assert(self@ =~= old(self)@);
            }
        }
        r
    }

    /// Some active scope allows the lint.
    pub fn is_suppressed(&self, lint_name: &str) -> (b: bool)
        ensures
            b == exists|i: int| 0 <= i < self@.len() && (#[trigger] self@[i]).0.contains(lint_name@),
    {
        let mut i: usize = 0;
        while i < self.scopes.len()
            invariant
                i <= self.scopes@.len(),
                forall|j: int| 0 <= j < i ==> !(#[trigger] self@[j]).0.contains(lint_name@),
            decreases self.scopes.len() - i,
        {
            assert(self@[i as int] == self.scopes@[i as int]@);
            if self.scopes[i].is_suppressed(lint_name) {
                return true;
            }
            i = i + 1;
        }
        false
    }

    /// Some active scope denies the lint.
    pub fn is_denied(&self, lint_name: &str) -> (b: bool)
        ensures
            b == exists|i: int| 0 <= i < self@.len() && (#[trigger] self@[i]).1.contains(lint_name@),
    {
        let mut i: usize = 0;
        while i < self.scopes.len()
            invariant
                i <= self.scopes@.len(),
                forall|j: int| 0 <= j < i ==> !(#[trigger] self@[j]).1.contains(lint_name@),
            decreases self.scopes.len() - i,
        {
            assert(self@[i as int] == self.scopes@[i as int]@);
            if self.scopes[i].is_denied(lint_name) {
                return true;
            }
            i = i + 1;
        }
        false
    }

    /// Some active scope marks the parameter as validated.
    pub fn is_validated(&self, param_name: &str) -> (b: bool)
        ensures
            b == exists|i: int| 0 <= i < self@.len() && (#[trigger] self@[i]).3.contains(
                param_name@,
            ),
    {
        let mut i: usize = 0;
        while i < self.scopes.len()
            invariant
                i <= self.scopes@.len(),
                forall|j: int| 0 <= j < i ==> !(#[trigger] self@[j]).3.contains(param_name@),
            decreases self.scopes.len() - i,
        {
            assert(self@[i as int] == self.scopes@[i as int]@);
            if self.scopes[i].is_validated(param_name) {
                return true;
            }
            i = i + 1;
        }
        false
    }
}

} // verus!
