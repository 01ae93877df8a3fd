//! Applying the machine-applicable suggestions of diagnostics to a source file.
use vstd::prelude::*;
use crate::diagnostics::{Applicability, Diagnostic, Span};
use crate::fix::{apply_seq, sort_desc, sorted_desc, splice_edit, step_ok, views, EditView, TextEdit};
use crate::text::{
    push_str, byte_len, byte_length, char_idx, char_index_of_byte, chars_of, is_boundary_at,
    is_char_boundary, lemma_boundary_unique, lemma_byte_len_take_mono, splice_vec,
    string_from_chars, to_owned_string, utf8_width,
};

verus! {

/// Result of applying fixes to a source file.
#[derive(Debug)]
pub struct FixResult {
    /// The modified source code.
    pub fixed_source: String,
    /// Number of fixes applied.
    pub fixes_applied: usize,
    /// Fix suggestions that were skipped (not machine-applicable, unsafe, or unplaceable).
    pub fixes_skipped: usize,
}

/// Error when applying fixes.
#[derive(Debug)]
pub enum FixError {
    /// Fixes cannot be written back to standard input.
    StdinNotSupported,
    /// Two fixes overlap, so neither can be applied safely.
    OverlappingFixes,
    /// A fix's byte range falls outside the text.
    InvalidRange(usize, usize),
    /// Reading or writing the file failed; the payload is the error's message.
    Io(String),
}

/// A text edit to apply to source code.
#[derive(Debug, Clone)]
pub struct SourceEdit {
    /// Start byte offset (0-based, inclusive).
    pub start_byte: usize,
    /// End byte offset (0-based, exclusive).
    pub end_byte: usize,
    /// Replacement text.
    pub replacement: String,
}

impl SourceEdit {
    pub fn new(start: usize, end: usize, replacement: String) -> (r: Self)
        ensures
            r.start_byte == start,
            r.end_byte == end,
            r.replacement == replacement,
    {
        SourceEdit { start_byte: start, end_byte: end, replacement }
    }
}

// ---------------------------------------------------------------------------
// Spans to byte ranges
// ---------------------------------------------------------------------------
/// The (row, column) position, 1-based, just before char `k` of `s`.
pub open spec fn walk_pos(s: Seq<char>, k: int) -> (int, int)
    decreases k,
{
    if k <= 0 {
        (1, 1)
    } else {
        let p = walk_pos(s, k - 1);
        if s[k - 1] == '\n' {
            (p.0 + 1, 1)
        } else {
            (p.0, p.1 + 1)
        }
    }
}

pub proof fn lemma_walk_pos_bounds(s: Seq<char>, k: int)
    requires
        k >= 0,
    ensures
        1 <= walk_pos(s, k).0 <= k + 1,
        1 <= walk_pos(s, k).1 <= k + 1,
    decreases k,
{
    if k > 0 {
        lemma_walk_pos_bounds(s, k - 1);
    }
}

/// The first char index at or after `k` whose position is `p`.
pub open spec fn first_at(s: Seq<char>, p: (int, int), k: int) -> Option<int>
    decreases s.len() - k,
{
    if k < 0 || k >= s.len() {
        None
    } else if walk_pos(s, k) == p {
        Some(k)
    } else {
        first_at(s, p, k + 1)
    }
}

/// The last char index below `lim` whose position is `p`.
pub open spec fn last_below(s: Seq<char>, p: (int, int), lim: int) -> Option<int>
    decreases lim,
{
    if lim <= 0 {
        None
    } else if walk_pos(s, lim - 1) == p {
        Some(lim - 1)
    } else {
        last_below(s, p, lim - 1)
    }
}

/// The byte range that a span names in `s`: the start is where the walk
/// meets the start position (up to where it meets the end position); the end
/// is where it meets the end position, else the end of the text.
pub open spec fn span_bytes(s: Seq<char>, span: Span) -> Option<(int, int)> {
    let st = (span.start.row as int, span.start.column as int);
    let en = (span.end.row as int, span.end.column as int);
    let ke = first_at(s, en, 0);
    let lim = match ke {
        Some(k) => k + 1,
        None => s.len() as int,
    };
    let ks = last_below(s, st, lim);
    let eb = match ke {
        Some(k) => Some(byte_len(s.take(k)) as int),
        None => if walk_pos(s, s.len() as int) == en || ks is Some {
            Some(byte_len(s) as int)
        } else {
            None
        },
    };
    match (ks, eb) {
        (Some(a), Some(b)) => Some((byte_len(s.take(a)) as int, b)),
        _ => None,
    }
}

proof fn lemma_last_below_bound(s: Seq<char>, p: (int, int), lim: int)
    ensures
        last_below(s, p, lim) matches Some(k) ==> 0 <= k < lim,
    decreases lim,
{
    if lim > 0 {
        lemma_last_below_bound(s, p, lim - 1);
    }
}

proof fn lemma_first_at_bound(s: Seq<char>, p: (int, int), k: int)
    ensures
        first_at(s, p, k) matches Some(j) ==> k <= j < s.len(),
    decreases s.len() - k,
{
    if 0 <= k < s.len() {
        lemma_first_at_bound(s, p, k + 1);
    }
}

/// Both ends of a span's byte range are char boundaries, in order, within the text.
pub proof fn lemma_span_bytes_valid(s: Seq<char>, span: Span)
    ensures
        span_bytes(s, span) matches Some((a, b)) ==> 0 <= a <= b <= byte_len(s) && is_char_boundary(s, a)
            && is_char_boundary(s, b),
{
    let st = (span.start.row as int, span.start.column as int);
    let en = (span.end.row as int, span.end.column as int);
    let ke = first_at(s, en, 0);
    lemma_first_at_bound(s, en, 0);
    let lim = match ke {
        Some(k) => k + 1,
        None => s.len() as int,
    };
    lemma_last_below_bound(s, st, lim);
    match span_bytes(s, span) {
        Some((a, b)) => {
            let ka = last_below(s, st, lim)->0;
            assert(is_boundary_at(s, ka, a));
            lemma_byte_len_take_mono(s, ka, s.len() as int);
            assert(s.take(s.len() as int) =~= s);
            match ke {
                Some(k) => {
                    lemma_byte_len_take_mono(s, ka, k);
                    lemma_byte_len_take_mono(s, k, s.len() as int);
                    assert(is_boundary_at(s, k, b));
                },
                None => {
                    assert(is_boundary_at(s, s.len() as int, b));
                },
            }
        },
        None => {},
    }
}

/// Converts a row/column span (1-based) to a byte range of `source`.
pub fn span_to_bytes(source: &str, span: &Span) -> (r: Option<(usize, usize)>)
    requires
        byte_len(source@) < usize::MAX,
    ensures
        match span_bytes(source@, *span) {
            Some((a, b)) => r == Some((a as usize, b as usize)),
            None => r is None,
        },
{
    let chars = chars_of(source);
    let ghost s = chars@;
    let total = byte_length(source);
    let ghost st = (span.start.row as int, span.start.column as int);
    let ghost en = (span.end.row as int, span.end.column as int);
    let mut byte_offset: usize = 0;
    let mut row: usize = 1;
    let mut col: usize = 1;
    let mut start_byte: Option<usize> = None;
    let mut end_byte: Option<usize> = None;
    let mut k: usize = 0;
    proof {
        assert(s.take(0) =~= Seq::<char>::empty());
    }
    while k < chars.len()
        invariant_except_break
            end_byte is None,
            match last_below(s, st, k as int) {
                Some(j) => start_byte == Some(byte_len(s.take(j)) as usize),
                None => start_byte is None,
            },
        invariant
            s == chars@,
            s == source@,
            st == (span.start.row as int, span.start.column as int),
            en == (span.end.row as int, span.end.column as int),
            total == byte_len(s),
            total < usize::MAX,
            k <= s.len(),
            byte_offset == byte_len(s.take(k as int)),
            (row as int, col as int) == walk_pos(s, k as int),
            first_at(s, en, 0) == first_at(s, en, k as int),
        ensures
            match end_byte {
                Some(e) => first_at(s, en, 0) == Some(k as int) && e == byte_len(s.take(k as int))
                    && match last_below(s, st, k + 1) {
                        Some(j) => start_byte == Some(byte_len(s.take(j)) as usize),
                        None => start_byte is None,
                    },
                None => k == s.len() && first_at(s, en, 0) is None && (row as int, col as int) == walk_pos(s, k as int)
                    && match last_below(s, st, k as int) {
                        Some(j) => start_byte == Some(byte_len(s.take(j)) as usize),
                        None => start_byte is None,
                    },
            },
        decreases chars.len() - k,
    {
        proof {
            lemma_walk_pos_bounds(s, k as int);
            lemma_byte_len_take_mono(s, k + 1, s.len() as int);
            lemma_byte_len_take_mono(s, 0, k + 1);
            assert(s.take(0) =~= Seq::<char>::empty());
            assert(s.take(s.len() as int) =~= s);
            assert(s.take(k + 1).drop_last() =~= s.take(k as int));
        }
        if row == span.start.row && col == span.start.column {
            start_byte = Some(byte_offset);
        }
        if row == span.end.row && col == span.end.column {
            end_byte = Some(byte_offset);
            assert(first_at(s, en, k as int) == Some(k as int));
            break;
        }
        let c = chars[k];
        if c == '\n' {
            row = row + 1;
            col = 1;
        } else {
            col = col + 1;
        }
        byte_offset = byte_offset + utf8_width(c);
        k = k + 1;
    }
    proof {
        assert(s.take(s.len() as int) =~= s);
    }
    if end_byte.is_none() && row == span.end.row && col == span.end.column {
        end_byte = Some(byte_offset);
    }
    if end_byte.is_none() && start_byte.is_some() {
        end_byte = Some(total);
    }
    match (start_byte, end_byte) {
        (Some(a), Some(b)) => Some((a, b)),
        _ => None,
    }
}

// ---------------------------------------------------------------------------
// Applying fixes
// ---------------------------------------------------------------------------
/// The suggestion is applied: machine-applicable always, maybe-incorrect or
/// with placeholders only when unsafe fixes are allowed.
pub open spec fn applicable(a: Applicability, allow_unsafe: bool) -> bool {
    match a {
        Applicability::MachineApplicable => true,
        Applicability::MaybeIncorrect | Applicability::HasPlaceholders => allow_unsafe,
        Applicability::Unspecified => false,
    }
}

/// The edits that the diagnostics' suggestions make, in order, and the number
/// of suggestions skipped.
pub open spec fn collect_edits(src: Seq<char>, ds: Seq<Diagnostic>, allow_unsafe: bool) -> (Seq<EditView>, nat)
    decreases ds.len(),
{
    if ds.len() == 0 {
        (Seq::empty(), 0)
    } else {
        let (es, sk) = collect_edits(src, ds.drop_last(), allow_unsafe);
        let d = ds.last();
        match d.suggestion {
            None => (es, sk),
            Some(sg) => if !applicable(sg.applicability, allow_unsafe) {
                (es, sk + 1)
            } else {
                match span_bytes(src, d.span) {
                    None => (es, sk + 1),
                    Some((a, b)) => (es.push((a as usize, b as usize, sg.replacement@)), sk),
                }
            },
        }
    }
}

/// Some edit overlaps the next one in `es` (sorted by start, highest first).
pub open spec fn adjacent_overlap(es: Seq<EditView>) -> bool {
    exists|k: int| 0 <= k < es.len() - 1 && #[trigger] es[k].0 < es[k + 1].1
}

proof fn lemma_collect_valid(src: Seq<char>, ds: Seq<Diagnostic>, allow_unsafe: bool)
    requires
        byte_len(src) < usize::MAX,
    ensures
        ({
            let (es, sk) = collect_edits(src, ds, allow_unsafe);
            &&& sk + es.len() <= ds.len()
            &&& forall|j: int| 0 <= j < es.len() ==> es[j].0 <= #[trigger] es[j].1 <= byte_len(src)
                && is_char_boundary(src, es[j].0 as int) && is_char_boundary(src, es[j].1 as int)
        }),
    decreases ds.len(),
{
    if ds.len() > 0 {
        lemma_collect_valid(src, ds.drop_last(), allow_unsafe);
        lemma_span_bytes_valid(src, ds.last().span);
        let (es0, sk0) = collect_edits(src, ds.drop_last(), allow_unsafe);
        let (es, sk) = collect_edits(src, ds, allow_unsafe);
        let d = ds.last();
        match d.suggestion {
            None => {
                assert(es == es0);
            },
            Some(sg) => {
                if !applicable(sg.applicability, allow_unsafe) {
                    assert(es == es0);
                } else {
                    match span_bytes(src, d.span) {
                        None => {
                            assert(es == es0);
                        },
                        Some((a, b)) => {
                            let x = (a as usize, b as usize, sg.replacement@);
                            assert(es == es0.push(x));
                            assert(a as usize == a && b as usize == b);
                            assert forall|j: int| 0 <= j < es.len() implies es[j].0 <= #[trigger] es[j].1
                                <= byte_len(src) && is_char_boundary(src, es[j].0 as int)
                                && is_char_boundary(src, es[j].1 as int) by {
                                if j < es0.len() {
                                    assert(es[j] == es0[j]);
                                } else {
                                    assert(es[j] == x);
                                }
                            }
                        },
                    }
                }
            },
        }
    }
}

proof fn lemma_sort_desc_members(es: Seq<EditView>)
    ensures
        sort_desc(es).len() == es.len(),
        forall|j: int| 0 <= j < sort_desc(es).len() ==> exists|i: int| 0 <= i < es.len() && es[i] == #[trigger] sort_desc(es)[j],
        forall|j: int, k: int| 0 <= j < k < sort_desc(es).len() ==> #[trigger] sort_desc(es)[j].0 >= #[trigger] sort_desc(es)[k].0,
    decreases es.len(),
{
    if es.len() > 0 {
        let d = es.drop_last();
        lemma_sort_desc_members(d);
        let s = sort_desc(d);
        let key = es.last().0;
        let p = crate::fix::desc_pos_from(s, key, 0);
        crate::fix::lemma_desc_pos_bounds(s, key, 0);
        crate::fix::lemma_desc_pos_split(s, key, 0);
        let t = s.insert(p, es.last());
        assert(t == sort_desc(es));
        assert forall|j: int| 0 <= j < t.len() implies exists|i: int| 0 <= i < es.len() && es[i] == #[trigger] t[j] by {
            if j < p {
                assert(t[j] == s[j]);
                let i = choose|i: int| 0 <= i < d.len() && d[i] == s[j];
                assert(es[i] == d[i]);
            } else if j == p {
                assert(es[es.len() - 1] == t[j]);
            } else {
                assert(t[j] == s[j - 1]);
                let i = choose|i: int| 0 <= i < d.len() && d[i] == #[trigger] s[j - 1];
                assert(es[i] == d[i]);
            }
        }
        assert forall|j: int, k: int| 0 <= j < k < t.len() implies #[trigger] t[j].0 >= #[trigger] t[k].0 by {
            if k < p {
                assert(t[j] == s[j] && t[k] == s[k]);
            } else if k == p {
                assert(t[j] == s[j]);
            } else if j < p {
                assert(t[j] == s[j] && t[k] == s[k - 1]);
            } else if j == p {
                assert(t[k] == s[k - 1]);
            } else {
                assert(t[j] == s[j - 1] && t[k] == s[k - 1]);
            }
        }
    }
}

/// A byte offset that is a char boundary of `a` at or below the end of a
/// prefix that `a` and `b` share is a boundary of `b` at the same char index.
proof fn lemma_common_prefix_boundary(a: Seq<char>, b: Seq<char>, cb: int, x: int, bound: int) -> (k: int)
    requires
        0 <= cb <= a.len(),
        cb <= b.len(),
        a.take(cb) == b.take(cb),
        is_boundary_at(a, cb, bound),
        is_char_boundary(a, x),
        x <= bound,
    ensures
        0 <= k <= cb,
        is_boundary_at(a, k, x),
        is_boundary_at(b, k, x),
{
    let k = choose|q: int| is_boundary_at(a, q, x);
    if k > cb {
        lemma_byte_len_take_mono(a, cb, k);
    }
    assert(a.take(cb).take(k) =~= a.take(k));
    assert(b.take(cb).take(k) =~= b.take(k));
    k
}

/// In edits sorted by start (highest first) where none overlaps the next,
/// every edit after `t` ends at or before edit `t` starts.
proof fn lemma_rest_below(ss: Seq<EditView>, t: int)
    requires
        0 <= t < ss.len(),
        !adjacent_overlap(ss),
        forall|j: int, q: int| 0 <= j < q < ss.len() ==> #[trigger] ss[j].0 >= #[trigger] ss[q].0,
    ensures
        forall|j: int| t + 1 <= j < ss.len() ==> #[trigger] ss[j].1 <= ss[t].0,
{
    assert forall|j: int| t + 1 <= j < ss.len() implies #[trigger] ss[j].1 <= ss[t].0 by {
        if ss[j - 1].0 < ss[j].1 {
            assert(adjacent_overlap(ss));
        }
        if j - 1 > t {
            assert(ss[t].0 >= ss[j - 1].0);
        }
    }
}

/// The diagnostic's suggestion is applied: it is applicable and its span
/// names bytes of the source.
pub open spec fn fix_applies(src: Seq<char>, d: Diagnostic, allow_unsafe: bool) -> bool {
    match d.suggestion {
        Some(sg) => applicable(sg.applicability, allow_unsafe) && span_bytes(src, d.span) is Some,
        None => false,
    }
}

/// How many diagnostics of `ds` carry a suggestion.
pub open spec fn suggestion_count(ds: Seq<Diagnostic>) -> nat
    decreases ds.len(),
{
    if ds.len() == 0 {
        0
    } else {
        suggestion_count(ds.drop_last()) + if ds.last().suggestion is Some { 1nat } else { 0nat }
    }
}

/// How many diagnostics of `ds` have their suggestion applied.
pub open spec fn applied_count(src: Seq<char>, ds: Seq<Diagnostic>, allow_unsafe: bool) -> nat
    decreases ds.len(),
{
    if ds.len() == 0 {
        0
    } else {
        applied_count(src, ds.drop_last(), allow_unsafe) + if fix_applies(src, ds.last(), allow_unsafe) {
            1nat
        } else {
            0nat
        }
    }
}

/// The fixes counted by `apply_fixes`: one edit is collected for each
/// diagnostic whose suggestion applies, every other suggestion is skipped, and
/// when none applies no edit is collected, so the text is left as it is.
pub proof fn law_fixes_counted(src: Seq<char>, ds: Seq<Diagnostic>, allow_unsafe: bool)
    ensures
        collect_edits(src, ds, allow_unsafe).0.len() == applied_count(src, ds, allow_unsafe),
        collect_edits(src, ds, allow_unsafe).1 + applied_count(src, ds, allow_unsafe) == suggestion_count(ds),
        applied_count(src, ds, allow_unsafe) == 0 ==> collect_edits(src, ds, allow_unsafe).0.len() == 0,
    decreases ds.len(),
{
    if ds.len() > 0 {
        law_fixes_counted(src, ds.drop_last(), allow_unsafe);
    }
}

/// Applies the machine-applicable (and, when `allow_unsafe`, the other
/// applicable) suggestions of `diagnostics` to `source`.
///
/// The edits are applied from the highest start offset down; two edits of
/// which the earlier-applied starts before the later-applied ends overlap, and
/// then nothing is applied.
pub fn apply_fixes(source: &str, diagnostics: &[Diagnostic], allow_unsafe: bool) -> (r: Result<FixResult, FixError>)
    requires
        byte_len(source@) < usize::MAX,
    ensures
        ({
            let (es, sk) = collect_edits(source@, diagnostics@, allow_unsafe);
            let sorted = sort_desc(es);
            if es.len() == 0 {
                r matches Ok(f) && f.fixed_source@ == source@ && f.fixes_applied == 0 && f.fixes_skipped == sk
            } else if adjacent_overlap(sorted) {
                r matches Err(FixError::OverlappingFixes)
            } else {
                r matches Ok(f) && f.fixed_source@ == apply_seq(source@, sorted) && f.fixes_applied
                    == es.len() && f.fixes_skipped == sk
            }
        }),
{
    let ghost src = source@;
    let mut edits: Vec<TextEdit> = Vec::new();
    let mut skipped: usize = 0;
    let mut i: usize = 0;
    proof {
        lemma_collect_valid(src, diagnostics@, allow_unsafe);
    }
    while i < diagnostics.len()
        invariant
            src == source@,
            byte_len(src) < usize::MAX,
            i <= diagnostics@.len(),
            (views(edits@), skipped as nat) == collect_edits(src, diagnostics@.take(i as int), allow_unsafe),
        decreases diagnostics.len() - i,
    {
        proof {
            assert(diagnostics@.take(i + 1).drop_last() =~= diagnostics@.take(i as int));
            lemma_collect_valid(src, diagnostics@.take(i as int), allow_unsafe);
        }
        let diag = &diagnostics[i];
        match &diag.suggestion {
            None => {},
            Some(suggestion) => {
                let ok = match suggestion.applicability {
                    Applicability::MachineApplicable => true,
                    Applicability::MaybeIncorrect | Applicability::HasPlaceholders => allow_unsafe,
                    Applicability::Unspecified => false,
                };
                if !ok {
                    skipped = skipped + 1;
                } else {
                    match span_to_bytes(source, &diag.span) {
                        None => {
                            skipped = skipped + 1;
                        },
                        Some((start_byte, end_byte)) => {
                            let ghost before = views(edits@);
                            edits.push(TextEdit::new(start_byte, end_byte, suggestion.replacement.clone()));
                            proof {
                                assert(views(edits@) =~= before.push(
                                    (start_byte, end_byte, suggestion.replacement@),
                                ));
                            }
                        },
                    }
                }
            },
        }
        i = i + 1;
    }
    proof {
        assert(diagnostics@.take(diagnostics@.len() as int) =~= diagnostics@);
    }
    if edits.len() == 0 {
        return Ok(FixResult { fixed_source: to_owned_string(source), fixes_applied: 0, fixes_skipped: skipped });
    }
    let sorted = sorted_desc(edits.as_slice());
    let ghost es = views(edits@);
    let ghost ss = views(sorted@);
    proof {
        lemma_collect_valid(src, diagnostics@, allow_unsafe);
        lemma_sort_desc_members(es);
    }
    let mut k: usize = 0;
    while k + 1 < sorted.len()
        invariant
            ss == views(sorted@),
            ss == sort_desc(es),
            src == source@,
            es.len() > 0,
            (es, skipped as nat) == collect_edits(src, diagnostics@, allow_unsafe),
            ss.len() > 0,
            k < sorted@.len(),
            forall|j: int| 0 <= j < k ==> !(#[trigger] ss[j].0 < ss[j + 1].1),
        decreases sorted.len() - k,
    {
        if sorted[k].start_byte < sorted[k + 1].end_byte {
            assert(ss[k as int].0 < ss[k + 1].1);
            return Err(FixError::OverlappingFixes);
        }
        k = k + 1;
    }
    let applied = sorted.len();
    let mut cur = chars_of(source);
    let ghost total = byte_len(src);
    // `bound` is a byte offset below which the text is still the original one;
    // every edit still to apply lies below it.
    let mut bound: usize = byte_length(source);
    let ghost mut cb: int = src.len() as int;
    proof {
        assert(src.take(src.len() as int) =~= src);
        assert(ss.skip(0) =~= ss);
        assert(is_boundary_at(src, cb, bound as int));
    }
    let mut t: usize = 0;
    while t < sorted.len()
        invariant
            ss == views(sorted@),
            src == source@,
            t <= ss.len(),
            ss.len() == es.len(),
            !adjacent_overlap(ss),
            forall|j: int, q: int| 0 <= j < q < ss.len() ==> #[trigger] ss[j].0 >= #[trigger] ss[q].0,
            forall|j: int| 0 <= j < ss.len() ==> ss[j].0 <= #[trigger] ss[j].1 <= byte_len(src)
                && is_char_boundary(src, ss[j].0 as int) && is_char_boundary(src, ss[j].1 as int),
            0 <= cb <= src.len(),
            cb <= cur@.len(),
            is_boundary_at(src, cb, bound as int),
            cur@.take(cb) == src.take(cb),
            forall|j: int| t <= j < ss.len() ==> #[trigger] ss[j].1 <= bound,
            apply_seq(src, ss) == apply_seq(cur@, ss.skip(t as int)),
        decreases sorted.len() - t,
    {
        let ghost e = ss[t as int];
        proof {
            assert(ss.skip(t as int)[0] == e);
            assert(ss.skip(t as int).drop_first() =~= ss.skip(t + 1));
        }
        let e_start = sorted[t].start_byte;
        let e_end = sorted[t].end_byte;
        assert(e == sorted@[t as int]@);
        let ghost q1 = lemma_common_prefix_boundary(src, cur@, cb, e.0 as int, bound as int);
        let ghost q2 = lemma_common_prefix_boundary(src, cur@, cb, e.1 as int, bound as int);
        let k1 = char_index_of_byte(&cur, e_start);
        let k2 = char_index_of_byte(&cur, e_end);
        let k1 = match k1 {
            Some(q) => q,
            None => {
                return Err(FixError::InvalidRange(e_start, e_end));
            },
        };
        let k2 = match k2 {
            Some(q) => q,
            None => {
                return Err(FixError::InvalidRange(e_start, e_end));
            },
        };
        proof {
            lemma_boundary_unique(cur@, k1 as int, q1, e.0 as int);
            lemma_boundary_unique(cur@, k2 as int, q2, e.1 as int);
            lemma_boundary_unique(cur@, k1 as int, char_idx(cur@, e.0 as int), e.0 as int);
            lemma_boundary_unique(cur@, k2 as int, char_idx(cur@, e.1 as int), e.1 as int);
            if k1 > k2 {
                lemma_byte_len_take_mono(cur@, k2 as int, k1 as int);
            }
            lemma_rest_below(ss, t as int);
        }
        let repl = chars_of(sorted[t].replacement.as_str());
        let ghost prev = cur@;
        cur = splice_vec(&cur, k1, k2, &repl);
        proof {
            assert(cur@ == splice_edit(prev, e));
            assert(cur@.take(k1 as int) =~= prev.take(k1 as int));
            assert(prev.take(cb).take(k1 as int) =~= prev.take(k1 as int));
            assert(src.take(cb).take(k1 as int) =~= src.take(k1 as int));
        }
        bound = e_start;
        proof {
            cb = k1 as int;
        }
        t = t + 1;
    }
    proof {
        assert(ss.skip(ss.len() as int) =~= Seq::<EditView>::empty());
    }
    Ok(FixResult { fixed_source: string_from_chars(&cur), fixes_applied: applied, fixes_skipped: skipped })
}


// ---------------------------------------------------------------------------
// Unified diffs
// ---------------------------------------------------------------------------
/// The decimal digits of `n`.
pub open spec fn decimal(n: nat) -> Seq<char>
    decreases n,
{
    if n < 10 {
        seq![(48 + n) as char]
    } else {
        decimal(n / 10).push((48 + n % 10) as char)
    }
}

/// Appends the decimal digits of `n`.
pub fn push_decimal(out: &mut String, n: usize)
    ensures
        final(out)@ == old(out)@ + decimal(n as nat),
    decreases n,
{
    if n >= 10 {
        push_decimal(out, n / 10);
    }
    let d: u8 = (n % 10) as u8;
    let c = (48u8 + d) as char;
    assert(c == (48 + n % 10) as char);
    crate::text::push_char(out, c);
    proof {
        if n >= 10 {
            assert(final(out)@ =~= old(out)@ + decimal(n as nat));
        } else {
            assert(final(out)@ =~= old(out)@ + decimal(n as nat));
        }
    }
}

/// Line `i` of `l`, if there is one.
pub open spec fn opt_line(l: Seq<Seq<char>>, i: int) -> Option<Seq<char>> {
    if 0 <= i < l.len() {
        Some(l[i])
    } else {
        None
    }
}

/// The indices below `n` at which the two line lists differ, in increasing order.
pub open spec fn changed_upto(o: Seq<Seq<char>>, f: Seq<Seq<char>>, n: int) -> Seq<int>
    decreases n,
{
    if n <= 0 {
        Seq::empty()
    } else {
        let c = changed_upto(o, f, n - 1);
        if opt_line(o, n - 1) != opt_line(f, n - 1) {
            c.push(n - 1)
        } else {
            c
        }
    }
}

/// A hunk: its first line, the line after its last, and its changed lines.
pub type Hunk = (int, int, Seq<int>);

/// The hunks that the changes `cs` make with `ctx` lines of context in a text
/// of `m` lines: a change whose context reaches the current hunk joins it.
pub open spec fn hunks_of(cs: Seq<int>, ctx: int, m: int) -> Seq<Hunk>
    decreases cs.len(),
{
    if cs.len() == 0 {
        Seq::empty()
    } else {
        let g = hunks_of(cs.drop_last(), ctx, m);
        let i = cs.last();
        let lo = if i - ctx > 0 {
            i - ctx
        } else {
            0
        };
        let hi = if i + ctx + 1 < m {
            i + ctx + 1
        } else {
            m
        };
        if g.len() > 0 && lo <= g.last().1 {
            g.update(g.len() - 1, (g.last().0, hi, g.last().2.push(i)))
        } else {
            g.push((lo, hi, seq![i]))
        }
    }
}

/// `l`, its line `i` prefixed by `p` and followed by a newline, if there is such a line.
pub open spec fn marked(l: Seq<Seq<char>>, i: int, p: char) -> Seq<char> {
    if 0 <= i < l.len() {
        seq![p] + l[i] + seq!['\n']
    } else {
        Seq::empty()
    }
}

/// How line `i` of a hunk is shown.
pub open spec fn hunk_line(o: Seq<Seq<char>>, f: Seq<Seq<char>>, hc: Seq<int>, i: int) -> Seq<char> {
    if hc.contains(i) {
        marked(o, i, '-') + marked(f, i, '+')
    } else {
        marked(o, i, ' ')
    }
}

/// The lines `lo..k` of a hunk as shown.
pub open spec fn hunk_body(o: Seq<Seq<char>>, f: Seq<Seq<char>>, hc: Seq<int>, lo: int, k: int) -> Seq<char>
    decreases k - lo,
{
    if k <= lo {
        Seq::empty()
    } else {
        hunk_body(o, f, hc, lo, k - 1) + hunk_line(o, f, hc, k - 1)
    }
}

/// `min(hi, len) - lo`, or 0 when that is negative.
pub open spec fn clipped_size(hi: int, len: int, lo: int) -> int {
    let m = if hi < len {
        hi
    } else {
        len
    };
    if m > lo {
        m - lo
    } else {
        0
    }
}

/// The header of a hunk from line `lo` to before line `hi` of texts of `olen` and `flen` lines.
pub open spec fn hunk_header(olen: int, flen: int, lo: int, hi: int) -> Seq<char> {
    "@@ -"@ + decimal((lo + 1) as nat) + ","@ + decimal(clipped_size(hi, olen, lo) as nat) + " +"@
        + decimal((lo + 1) as nat) + ","@ + decimal(clipped_size(hi, flen, lo) as nat) + " @@\n"@
}

/// A hunk as shown: its header and its lines.
pub open spec fn hunk_text(o: Seq<Seq<char>>, f: Seq<Seq<char>>, h: Hunk) -> Seq<char> {
    hunk_header(o.len() as int, f.len() as int, h.0, h.1) + hunk_body(o, f, h.2, h.0, h.1)
}

/// The first `k` hunks as shown.
pub open spec fn hunks_text(o: Seq<Seq<char>>, f: Seq<Seq<char>>, hs: Seq<Hunk>, k: int) -> Seq<char>
    decreases k,
{
    if k <= 0 {
        Seq::empty()
    } else {
        hunks_text(o, f, hs, k - 1) + hunk_text(o, f, hs[k - 1])
    }
}

/// The unified diff of two texts (empty when their lines agree).
pub open spec fn diff_text(original: Seq<char>, fixed: Seq<char>, path: Seq<char>, ctx: int) -> Seq<char> {
    let o = crate::text::lines(original);
    let f = crate::text::lines(fixed);
    let m = if o.len() > f.len() {
        o.len() as int
    } else {
        f.len() as int
    };
    let cs = changed_upto(o, f, m);
    if cs.len() == 0 {
        Seq::empty()
    } else {
        let hs = hunks_of(cs, ctx, m);
        "--- a/"@ + path + "\n"@ + "+++ b/"@ + path + "\n"@ + hunks_text(o, f, hs, hs.len() as int)
    }
}

/// `v[a..b] == w[c..d]`.
fn ranges_equal(v: &Vec<char>, a: usize, b: usize, w: &Vec<char>, c: usize, d: usize) -> (r: bool)
    requires
        a <= b <= v.len(),
        c <= d <= w.len(),
    ensures
        r == (v@.subrange(a as int, b as int) == w@.subrange(c as int, d as int)),
{
    if b - a != d - c {
        assert(v@.subrange(a as int, b as int).len() != w@.subrange(c as int, d as int).len());
        return false;
    }
    let mut i: usize = 0;
    assert(v@.subrange(a as int, a as int) =~= w@.subrange(c as int, c as int));
    while i < b - a
        invariant
            a <= b <= v.len(),
            c <= d <= w.len(),
            b - a == d - c,
            i <= b - a,
            v@.subrange(a as int, a + i) == w@.subrange(c as int, c + i),
        decreases b - a - i,
    {
        if v[a + i] != w[c + i] {
            assert(v@.subrange(a as int, b as int)[i as int] != w@.subrange(c as int, d as int)[i as int]);
            return false;
        }
        assert(v@.subrange(a as int, a + i + 1) =~= v@.subrange(a as int, a + i).push(v@[a + i]));
        assert(w@.subrange(c as int, c + i + 1) =~= w@.subrange(c as int, c + i).push(w@[c + i]));
        i = i + 1;
    }
    true
}

/// Appends `v[a..b]`.
fn push_range(out: &mut String, v: &Vec<char>, a: usize, b: usize)
    requires
        a <= b <= v.len(),
    ensures
        final(out)@ == old(out)@ + v@.subrange(a as int, b as int),
{
    let mut i = a;
    while i < b
        invariant
            a <= i <= b <= v.len(),
            out@ == old(out)@ + v@.subrange(a as int, i as int),
        decreases b - i,
    {
        crate::text::push_char(out, v[i]);
        assert(v@.subrange(a as int, i + 1) =~= v@.subrange(a as int, i as int).push(v@[i as int]));
        assert(out@ =~= old(out)@ + v@.subrange(a as int, i + 1));
        i = i + 1;
    }
}

/// Text lines as char vectors with their spans.
struct LineTable {
    chars: Vec<char>,
    spans: Vec<(usize, usize)>,
}

impl LineTable {
    spec fn wf(&self, text: Seq<char>) -> bool {
        &&& self.chars@ == text
        &&& self.spans@.len() == crate::text::lines(text).len()
        &&& forall|i: int|
            #![trigger self.spans@[i]]
            0 <= i < self.spans@.len() ==> (self.spans@[i].0 <= self.spans@[i].1 && self.spans@[i].1
                <= text.len() && crate::text::lines(text)[i] == text.subrange(
                self.spans@[i].0 as int,
                self.spans@[i].1 as int,
            ))
    }

    fn new(text: &str) -> (r: Self)
        ensures
            r.wf(text@),
    {
        let chars = chars_of(text);
        let spans = crate::text::line_spans(&chars);
        LineTable { chars, spans }
    }

    /// Appends `p`, line `i` (if there is one) and a newline.
    fn push_marked(&self, out: &mut String, i: usize, p: char, Ghost(text): Ghost<Seq<char>>)
        requires
            self.wf(text),
        ensures
            final(out)@ == old(out)@ + marked(crate::text::lines(text), i as int, p),
    {
        if i < self.spans.len() {
            let (a, b) = self.spans[i];
            crate::text::push_char(out, p);
            push_range(out, &self.chars, a, b);
            crate::text::push_char(out, '\n');
            assert(final(out)@ =~= old(out)@ + marked(crate::text::lines(text), i as int, p));
        } else {
            assert(marked(crate::text::lines(text), i as int, p) =~= Seq::<char>::empty());
            assert(final(out)@ =~= old(out)@ + Seq::<char>::empty());
        }
    }

    /// Line `i` of this table equals line `i` of `other` (both absent counts as equal).
    fn same_line(&self, other: &LineTable, i: usize, Ghost(t1): Ghost<Seq<char>>, Ghost(t2): Ghost<Seq<char>>) -> (r: bool)
        requires
            self.wf(t1),
            other.wf(t2),
        ensures
            r == (opt_line(crate::text::lines(t1), i as int) == opt_line(crate::text::lines(t2), i as int)),
    {
        let has1 = i < self.spans.len();
        let has2 = i < other.spans.len();
        if has1 && has2 {
            let (a, b) = self.spans[i];
            let (c, d) = other.spans[i];
            ranges_equal(&self.chars, a, b, &other.chars, c, d)
        } else {
            !has1 && !has2
        }
    }
}

/// `x` is in `v`.
fn contains_index(v: &Vec<usize>, x: usize) -> (b: bool)
    ensures
        b == v@.map_values(|y: usize| y as int).contains(x as int),
{
    let ghost m = v@.map_values(|y: usize| y as int);
    let mut i: usize = 0;
    while i < v.len()
        invariant
            m == v@.map_values(|y: usize| y as int),
            i <= v.len(),
            forall|j: int| 0 <= j < i ==> v@[j] != x,
        decreases v.len() - i,
    {
        if v[i] == x {
            assert(m[i as int] == x as int);
            return true;
        }
        i = i + 1;
    }
    proof {
        if m.contains(x as int) {
            let j = choose|j: int| 0 <= j < m.len() && m[j] == x as int;
            assert(v@[j] == x);
        }
    }
    false
}

/// The header of a hunk.
fn hunk_header_text(olen: usize, flen: usize, hstart: usize, hend: usize) -> (r: String)
    requires
        hstart < hend < usize::MAX,
    ensures
        r@ == hunk_header(olen as int, flen as int, hstart as int, hend as int),
{
    let osz = {
        let mn = if hend < olen {
            hend
        } else {
            olen
        };
        if mn > hstart {
            mn - hstart
        } else {
            0
        }
    };
    let fsz = {
        let mn = if hend < flen {
            hend
        } else {
            flen
        };
        if mn > hstart {
            mn - hstart
        } else {
            0
        }
    };
    let mut out = String::new();
    push_str(&mut out, "@@ -");
    push_decimal(&mut out, hstart + 1);
    push_str(&mut out, ",");
    push_decimal(&mut out, osz);
    push_str(&mut out, " +");
    push_decimal(&mut out, hstart + 1);
    push_str(&mut out, ",");
    push_decimal(&mut out, fsz);
    push_str(&mut out, " @@\n");
    assert(out@ =~= hunk_header(olen as int, flen as int, hstart as int, hend as int));
    out
}

/// Appends a hunk: its header and its lines.
fn push_hunk(
    ot: &LineTable,
    ft: &LineTable,
    output: &mut String,
    hstart: usize,
    hend: usize,
    hc: &Vec<usize>,
    Ghost(t1): Ghost<Seq<char>>,
    Ghost(t2): Ghost<Seq<char>>,
)
    requires
        ot.wf(t1),
        ft.wf(t2),
        hstart < hend,
        hend < usize::MAX,
    ensures
        final(output)@ == old(output)@ + hunk_text(
            crate::text::lines(t1),
            crate::text::lines(t2),
            (hstart as int, hend as int, hc@.map_values(|y: usize| y as int)),
        ),
{
    let ghost o = crate::text::lines(t1);
    let ghost f = crate::text::lines(t2);
    let ghost hcv = hc@.map_values(|y: usize| y as int);
    let header = hunk_header_text(ot.spans.len(), ft.spans.len(), hstart, hend);
    push_str(output, header.as_str());
    let ghost head = output@;
    let mut line_idx = hstart;
    while line_idx < hend
        invariant
            ot.wf(t1),
            ft.wf(t2),
            o == crate::text::lines(t1),
            f == crate::text::lines(t2),
            hcv == hc@.map_values(|y: usize| y as int),
            hstart <= line_idx <= hend,
            output@ == head + hunk_body(o, f, hcv, hstart as int, line_idx as int),
        decreases hend - line_idx,
    {
        let ghost b2 = output@;
        if contains_index(hc, line_idx) {
            ot.push_marked(output, line_idx, '-', Ghost(t1));
            ft.push_marked(output, line_idx, '+', Ghost(t2));
        } else {
            ot.push_marked(output, line_idx, ' ', Ghost(t1));
        }
        assert(output@ =~= b2 + hunk_line(o, f, hcv, line_idx as int));
        line_idx = line_idx + 1;
    }
    assert(output@ =~= old(output)@ + hunk_text(o, f, (hstart as int, hend as int, hcv)));
}

/// The unified diff of `original` and `fixed`, with 3 lines of context.
pub fn format_diff(original: &str, fixed: &str, path: &str) -> (r: String)
    requires
        crate::text::lines(original@).len() + crate::text::lines(fixed@).len() + 3 < usize::MAX,
    ensures
        r@ == diff_text(original@, fixed@, path@, 3),
{
    format_diff_with_context(original, fixed, path, 3)
}

/// The unified diff of `original` and `fixed`, with `context` lines of context
/// around each change; empty when the lines agree.
pub fn format_diff_with_context(original: &str, fixed: &str, path: &str, context: usize) -> (r: String)
    requires
        crate::text::lines(original@).len() + crate::text::lines(fixed@).len() + context < usize::MAX,
    ensures
        r@ == diff_text(original@, fixed@, path@, context as int),
{
    let ghost o = crate::text::lines(original@);
    let ghost f = crate::text::lines(fixed@);
    let ot = LineTable::new(original);
    let ft = LineTable::new(fixed);
    let max_len = if ot.spans.len() > ft.spans.len() {
        ot.spans.len()
    } else {
        ft.spans.len()
    };
    // The changed lines.
    let mut changes: Vec<usize> = Vec::new();
    let mut i: usize = 0;
    while i < max_len
        invariant
            ot.wf(original@),
            ft.wf(fixed@),
            o == crate::text::lines(original@),
            f == crate::text::lines(fixed@),
            i <= max_len,
            changes@.map_values(|y: usize| y as int) == changed_upto(o, f, i as int),
            forall|j: int| 0 <= j < changes@.len() ==> #[trigger] changes@[j] < i,
            forall|j: int, l: int| 0 <= j < l < changes@.len() ==> #[trigger] changes@[j] < #[trigger] changes@[l],
        decreases max_len - i,
    {
        let ghost before = changes@;
        if !ot.same_line(&ft, i, Ghost(original@), Ghost(fixed@)) {
            changes.push(i);
            assert(changes@.map_values(|y: usize| y as int) =~= before.map_values(|y: usize| y as int).push(i as int));
        }
        i = i + 1;
    }
    let ghost m: int = max_len as int;
    let ghost cs = changed_upto(o, f, m);
    if changes.len() == 0 {
        return String::new();
    }
    // Group the changes into hunks.
    let mut starts: Vec<usize> = Vec::new();
    let mut ends: Vec<usize> = Vec::new();
    let mut members: Vec<Vec<usize>> = Vec::new();
    let mut k: usize = 0;
    while k < changes.len()
        invariant
            changes@.map_values(|y: usize| y as int) == cs,
            forall|j: int| 0 <= j < changes@.len() ==> #[trigger] changes@[j] < max_len,
            max_len as int == m,
            max_len + context < usize::MAX,
            k <= changes@.len(),
            starts@.len() == ends@.len(),
            starts@.len() == members@.len(),
            (k == 0) == (starts@.len() == 0),
            forall|h: int| #![trigger starts@[h]] 0 <= h < starts@.len() ==> starts@[h] < ends@[h] <= max_len,
            forall|j: int, l: int| 0 <= j < l < changes@.len() ==> #[trigger] changes@[j] < #[trigger] changes@[l],
            k > 0 ==> forall|h: int| #![trigger starts@[h]] 0 <= h < starts@.len() ==> starts@[h] <= changes@[k - 1],
            forall|h: int| #![trigger starts@[h]] 0 <= h < starts@.len() ==>
                hunks_of(cs.take(k as int), context as int, m)[h] == (
                    starts@[h] as int,
                    ends@[h] as int,
                    members@[h]@.map_values(|y: usize| y as int),
                ),
            hunks_of(cs.take(k as int), context as int, m).len() == starts@.len(),
        decreases changes.len() - k,
    {
        let c = changes[k];
        assert(cs[k as int] == c as int);
        let lo = if c > context {
            c - context
        } else {
            0
        };
        let hi = if c + context + 1 < max_len {
            c + context + 1
        } else {
            max_len
        };
        let ghost g = hunks_of(cs.take(k as int), context as int, m);
        proof {
            assert(cs.take(k + 1).drop_last() =~= cs.take(k as int));
            assert(cs.take(k + 1).last() == c as int);
        }
        let n = starts.len();
        proof {
            if n > 0 {
                assert(g[n - 1] == (starts@[n - 1] as int, ends@[n - 1] as int, members@[n - 1]@.map_values(|y: usize| y as int)));
            }
        }
        if n > 0 && lo <= ends[n - 1] {
            let ghost old_members = members@;
            let ghost old_starts = starts@;
            let ghost old_ends = ends@;
            ends.set(n - 1, hi);
            let mut last = members.pop().unwrap();
            let ghost lv = last@;
            last.push(c);
            members.push(last);
            proof {
                assert(g.last() == g[n - 1]);
                assert(last@.map_values(|y: usize| y as int) =~= lv.map_values(|y: usize| y as int).push(c as int));
                let g2 = hunks_of(cs.take(k + 1), context as int, m);
                assert(g2 == g.update(g.len() - 1, (g.last().0, hi as int, g.last().2.push(c as int))));
                assert forall|h: int| #![trigger starts@[h]] 0 <= h < starts@.len() implies
                    g2[h] == (starts@[h] as int, ends@[h] as int, members@[h]@.map_values(|y: usize| y as int)) by {
                    if h < n - 1 {
                        assert(members@[h] == old_members[h]);
                        assert(ends@[h] == old_ends[h]);
                        assert(g2[h] == g[h]);
                    }
                }
                assert forall|h: int| #![trigger starts@[h]] 0 <= h < starts@.len() implies starts@[h] < ends@[h] <= max_len by {
                    if h < n - 1 {
                        assert(ends@[h] == old_ends[h]);
                    } else {
                        assert(starts@[h] == old_starts[h]);
                        assert(old_starts[h] <= changes@[k - 1]);
                        assert(changes@[k - 1] < changes@[k as int]);
                    }
                }
            }
        } else {
            let ghost old_members = members@;
            let ghost old_starts = starts@;
            let ghost old_ends = ends@;
            starts.push(lo);
            ends.push(hi);
            let mut v: Vec<usize> = Vec::new();
            v.push(c);
            members.push(v);
            proof {
                assert(v@.map_values(|y: usize| y as int) =~= seq![c as int]);
                let g2 = hunks_of(cs.take(k + 1), context as int, m);
                assert(g2 == g.push((lo as int, hi as int, seq![c as int])));
                assert forall|h: int| #![trigger starts@[h]] 0 <= h < starts@.len() implies
                    g2[h] == (starts@[h] as int, ends@[h] as int, members@[h]@.map_values(|y: usize| y as int)) by {
                    if h < n {
                        assert(members@[h] == old_members[h]);
                        assert(starts@[h] == old_starts[h]);
                        assert(ends@[h] == old_ends[h]);
                        assert(g2[h] == g[h]);
                    }
                }
                assert forall|h: int| #![trigger starts@[h]] 0 <= h < starts@.len() implies starts@[h] < ends@[h] <= max_len by {
                    if h < n {
                        assert(starts@[h] == old_starts[h]);
                        assert(ends@[h] == old_ends[h]);
                    }
                }
            }
        }
        k = k + 1;
    }
    let ghost hs = hunks_of(cs, context as int, m);
    assert(ot.spans@.len() <= max_len && ft.spans@.len() <= max_len);
    proof {
        assert(cs.take(changes@.len() as int) =~= cs);
        assert(changes@.map_values(|y: usize| y as int).len() == changes@.len());
    }
    // Output.
    let mut output = String::new();
    push_str(&mut output, "--- a/");
    push_str(&mut output, path);
    push_str(&mut output, "\n");
    push_str(&mut output, "+++ b/");
    push_str(&mut output, path);
    push_str(&mut output, "\n");
    let ghost header = output@;
    proof {
        assert(header =~= "--- a/"@ + path@ + "\n"@ + "+++ b/"@ + path@ + "\n"@);
    }
    let mut h: usize = 0;
    while h < starts.len()
        invariant
            ot.wf(original@),
            ft.wf(fixed@),
            o == crate::text::lines(original@),
            f == crate::text::lines(fixed@),
            starts@.len() == ends@.len(),
            starts@.len() == members@.len(),
            hs.len() == starts@.len(),
            forall|q: int| #![trigger starts@[q]] 0 <= q < starts@.len() ==>
                hs[q] == (starts@[q] as int, ends@[q] as int, members@[q]@.map_values(|y: usize| y as int)),
            forall|q: int| #![trigger starts@[q]] 0 <= q < starts@.len() ==> starts@[q] < ends@[q] <= max_len,
            ot.spans@.len() <= max_len,
            ft.spans@.len() <= max_len,
            max_len + context < usize::MAX,
            h <= starts@.len(),
            output@ == header + hunks_text(o, f, hs, h as int),
        decreases starts.len() - h,
    {
        let ghost hv = hs[h as int];
        push_hunk(&ot, &ft, &mut output, starts[h], ends[h], &members[h], Ghost(original@), Ghost(fixed@));
        assert(hv == (starts@[h as int] as int, ends@[h as int] as int, members@[h as int]@.map_values(|y: usize| y as int)));
        h = h + 1;
    }
    output
}

} // verus!
