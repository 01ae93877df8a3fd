//! Applying text edits (byte-offset replacements) to source code.
//!
//! Edits are validated to lie inside the source and not to overlap, and are
//! then applied from the highest (start, end) down, so that the offsets of
//! the edits still to apply keep naming the same bytes of the source.
use vstd::prelude::*;
use crate::text::{char_idx, byte_len, byte_length, char_index_of_byte, chars_of, is_boundary_at, is_char_boundary, lemma_boundary_unique, lemma_byte_len_take_mono, splice_vec, string_from_chars, to_owned_string};

verus! {

/// Why a list of edits cannot be applied.
#[derive(Debug, Clone, Copy, PartialEq, Eq, Structural)]
pub enum FixError {
    /// Two edits overlap; the payload is the start of the first of them.
    OverlappingEdits(usize),
    /// An edit ends past the end of the source.
    InvalidRange { start: usize, end: usize, source_len: usize },
    /// An edit starts after it ends.
    InvalidEditOrder { start: usize, end: usize },
}

/// Replace the bytes `[start_byte, end_byte)` with `replacement`.
#[derive(Debug, Clone, PartialEq, Eq)]
pub struct TextEdit {
    pub start_byte: usize,
    pub end_byte: usize,
    pub replacement: String,
}

/// An edit as plain values: start, end, replacement text.
pub type EditView = (usize, usize, Seq<char>);

impl View for TextEdit {
    type V = EditView;

    open spec fn view(&self) -> EditView {
        (self.start_byte, self.end_byte, self.replacement@)
    }
}

pub open spec fn views(es: Seq<TextEdit>) -> Seq<EditView> {
    es.map_values(|e: TextEdit| e@)
}

/// `[a.0, a.1)` and `[b.0, b.1)` share a byte.
pub open spec fn overlaps(a: EditView, b: EditView) -> bool {
    a.0 < b.1 && b.0 < a.1
}

/// The error that a single edit raises against a source of `len` bytes.
pub open spec fn edit_error(e: EditView, len: usize) -> Option<FixError> {
    if e.0 > e.1 {
        Some(FixError::InvalidEditOrder { start: e.0, end: e.1 })
    } else if e.1 > len {
        Some(FixError::InvalidRange { start: e.0, end: e.1, source_len: len })
    } else {
        None
    }
}

/// The error of the first invalid edit at or after `i`.
pub open spec fn first_edit_error(es: Seq<EditView>, len: usize, i: int) -> Option<FixError>
    decreases es.len() - i,
{
    if i < 0 || i >= es.len() {
        None
    } else {
        match edit_error(es[i], len) {
            Some(e) => Some(e),
            None => first_edit_error(es, len, i + 1),
        }
    }
}

/// Edit `i` overlaps some later edit.
pub open spec fn overlaps_later(es: Seq<EditView>, i: int) -> bool {
    exists|j: int| i < j < es.len() && overlaps(es[i], #[trigger] es[j])
}

/// The first edit at or after `i` that overlaps a later one.
pub open spec fn first_overlap(es: Seq<EditView>, i: int) -> Option<int>
    decreases es.len() - i,
{
    if i < 0 || i >= es.len() {
        None
    } else if overlaps_later(es, i) {
        Some(i)
    } else {
        first_overlap(es, i + 1)
    }
}

/// What `validate_edits` answers.
pub open spec fn validation(es: Seq<EditView>, len: usize) -> Result<(), FixError> {
    match first_edit_error(es, len, 0) {
        Some(e) => Err(e),
        None => match first_overlap(es, 0) {
            Some(i) => Err(FixError::OverlappingEdits(es[i].0)),
            None => Ok(()),
        },
    }
}

/// The first index at or after `p` whose start is below `key` (or the end).
pub open spec fn desc_pos_from(s: Seq<EditView>, key: usize, p: int) -> int
    decreases s.len() - p,
{
    if p < 0 || p >= s.len() || s[p].0 < key {
        p
    } else {
        desc_pos_from(s, key, p + 1)
    }
}

/// The edits sorted by start, highest first; edits with equal starts keep
/// their order (a stable sort).
pub open spec fn sort_desc(es: Seq<EditView>) -> Seq<EditView>
    decreases es.len(),
{
    if es.len() == 0 {
        es
    } else {
        let s = sort_desc(es.drop_last());
        s.insert(desc_pos_from(s, es.last().0, 0), es.last())
    }
}

/// Edit `a` comes before edit `b` by start, then by end.
pub open spec fn range_before(a: EditView, b: EditView) -> bool {
    a.0 < b.0 || (a.0 == b.0 && a.1 < b.1)
}

/// The first index at or after `p` whose edit comes before `x` by (start, end) (or the end).
pub open spec fn range_pos_from(s: Seq<EditView>, x: EditView, p: int) -> int
    decreases s.len() - p,
{
    if p < 0 || p >= s.len() || range_before(s[p], x) {
        p
    } else {
        range_pos_from(s, x, p + 1)
    }
}

/// The edits sorted by (start, end), highest first; edits with the same
/// start and end keep their order (a stable sort). This is the order in
/// which `apply_fixes` applies them: an edit never moves a byte that an edit
/// applied after it names.
pub open spec fn sort_by_range(es: Seq<EditView>) -> Seq<EditView>
    decreases es.len(),
{
    if es.len() == 0 {
        es
    } else {
        let s = sort_by_range(es.drop_last());
        s.insert(range_pos_from(s, es.last(), 0), es.last())
    }
}

/// `s` with the edits of `a` applied, `a` in ascending order of (start,
/// end): the text before the first edit, its replacement, the text between
/// its end and the next edit's start, and so on, ending with the text after
/// the last edit. Every offset names a byte of `s` itself.
pub open spec fn spliced(s: Seq<char>, a: Seq<EditView>) -> Seq<char>
    decreases a.len(),
{
    if a.len() == 0 {
        s
    } else {
        let e = a.last();
        spliced(s.take(char_idx(s, e.0 as int)), a.drop_last()) + e.2 + s.skip(char_idx(s, e.1 as int))
    }
}

/// Every edit of `r` is in order and its ends are char boundaries of `p`.
pub open spec fn edits_within(p: Seq<char>, r: Seq<EditView>) -> bool {
    forall|i: int|
        0 <= i < r.len() ==> (#[trigger] r[i]).0 <= r[i].1 && is_char_boundary(p, r[i].0 as int) && is_char_boundary(
            p,
            r[i].1 as int,
        )
}

/// Each later edit of `r` ends at or before every earlier one starts.
pub open spec fn ends_descending(r: Seq<EditView>) -> bool {
    forall|i: int, j: int| 0 <= i < j < r.len() ==> #[trigger] r[j].1 <= #[trigger] r[i].0
}

/// Of two edits, the one that comes first by (start, end) ends at or before
/// the other starts.
pub open spec fn apart(x: EditView, y: EditView) -> bool {
    &&& (x.0 < y.0 || (x.0 == y.0 && x.1 <= y.1)) ==> x.1 <= y.0
    &&& (y.0 < x.0 || (y.0 == x.0 && y.1 <= x.1)) ==> y.1 <= x.0
}

/// Edit `e` can be applied to `s`: both its offsets are char boundaries.
pub open spec fn step_ok(s: Seq<char>, e: EditView) -> bool {
    e.0 <= e.1 && is_char_boundary(s, e.0 as int) && is_char_boundary(s, e.1 as int)
}

/// `s` with the bytes `[e.0, e.1)` replaced by `e.2`.
pub open spec fn splice_edit(s: Seq<char>, e: EditView) -> Seq<char> {
    s.take(char_idx(s, e.0 as int)) + e.2 + s.skip(char_idx(s, e.1 as int))
}

/// Every edit, applied in turn to the text the previous ones produced, is applicable.
pub open spec fn apply_ok(s: Seq<char>, es: Seq<EditView>) -> bool
    decreases es.len(),
{
    es.len() == 0 || (step_ok(s, es[0]) && apply_ok(splice_edit(s, es[0]), es.drop_first()))
}

/// The text after applying the edits in turn.
pub open spec fn apply_seq(s: Seq<char>, es: Seq<EditView>) -> Seq<char>
    decreases es.len(),
{
    if es.len() == 0 {
        s
    } else {
        apply_seq(splice_edit(s, es[0]), es.drop_first())
    }
}

impl TextEdit {
    pub fn new(start_byte: usize, end_byte: usize, replacement: String) -> (r: Self)
        ensures
            r.start_byte == start_byte,
            r.end_byte == end_byte,
            r.replacement == replacement,
    {
        TextEdit { start_byte, end_byte, replacement }
    }

    /// Removes `[start_byte, end_byte)`.
    pub fn delete(start_byte: usize, end_byte: usize) -> (r: Self)
        ensures
            r@ == (start_byte, end_byte, Seq::<char>::empty()),
    {
        Self::new(start_byte, end_byte, String::new())
    }

    /// Inserts `text` at `byte_offset`.
    pub fn insert(byte_offset: usize, text: String) -> (r: Self)
        ensures
            r.start_byte == byte_offset,
            r.end_byte == byte_offset,
            r.replacement == text,
    {
        Self::new(byte_offset, byte_offset, text)
    }

    /// Replaces `[start_byte, end_byte)` with `replacement`.
    pub fn replace(start_byte: usize, end_byte: usize, replacement: String) -> (r: Self)
        ensures
            r.start_byte == start_byte,
            r.end_byte == end_byte,
            r.replacement == replacement,
    {
        Self::new(start_byte, end_byte, replacement)
    }

    /// The byte range the edit covers.
    pub fn range(&self) -> (r: std::ops::Range<usize>)
        ensures
            r.start == self.start_byte,
            r.end == self.end_byte,
    {
        self.start_byte..self.end_byte
    }

    pub fn overlaps_with(&self, other: &TextEdit) -> (b: bool)
        ensures
            b == overlaps(self@, other@),
    {
        self.start_byte < other.end_byte && other.start_byte < self.end_byte
    }

    pub fn validate(&self, source_len: usize) -> (r: Result<(), FixError>)
        ensures
            r == (match edit_error(self@, source_len) {
                Some(e) => Err(e),
                None => Ok(()),
            }),
    {
        if self.start_byte > self.end_byte {
            return Err(FixError::InvalidEditOrder { start: self.start_byte, end: self.end_byte });
        }
        if self.end_byte > source_len {
            return Err(
                FixError::InvalidRange {
                    start: self.start_byte,
                    end: self.end_byte,
                    source_len,
                },
            );
        }
        Ok(())
    }

    /// A copy of the edit.
    pub fn duplicate(&self) -> (r: Self)
        ensures
            r == *self,
    {
        TextEdit {
            start_byte: self.start_byte,
            end_byte: self.end_byte,
            replacement: self.replacement.clone(),
        }
    }
}

/// Validates that the edits are in range and pairwise non-overlapping.
pub fn validate_edits(edits: &[TextEdit], source_len: usize) -> (r: Result<(), FixError>)
    ensures
        r == validation(views(edits@), source_len),
{
    let ghost es = views(edits@);
    let mut i: usize = 0;
    while i < edits.len()
        invariant
            i <= edits.len(),
            es == views(edits@),
            first_edit_error(es, source_len, 0) == first_edit_error(es, source_len, i as int),
        decreases edits.len() - i,
    {
        assert(es[i as int] == edits@[i as int]@);
        match edits[i].validate(source_len) {
            Err(e) => {
                return Err(e);
            },
            Ok(()) => {},
        }
        i = i + 1;
    }
    assert(first_edit_error(es, source_len, 0) is None);
    let mut i: usize = 0;
    while i < edits.len()
        invariant
            i <= edits.len(),
            es == views(edits@),
            first_edit_error(es, source_len, 0) is None,
            first_overlap(es, 0) == first_overlap(es, i as int),
        decreases edits.len() - i,
    {
        let mut j: usize = i + 1;
        while j < edits.len()
            invariant
                i < edits.len(),
                i + 1 <= j <= edits.len(),
                es == views(edits@),
                first_edit_error(es, source_len, 0) is None,
                first_overlap(es, 0) == first_overlap(es, i as int),
                forall|t: int| i < t < j ==> !overlaps(es[i as int], #[trigger] es[t]),
            decreases edits.len() - j,
        {
            if edits[i].overlaps_with(&edits[j]) {
                assert(overlaps(es[i as int], es[j as int]));
                assert(overlaps_later(es, i as int));
                return Err(FixError::OverlappingEdits(edits[i].start_byte));
            }
            j = j + 1;
        }
        assert(!overlaps_later(es, i as int));
        i = i + 1;
    }
    Ok(())
}

pub proof fn lemma_desc_pos_bounds(s: Seq<EditView>, key: usize, p: int)
    requires
        0 <= p <= s.len(),
    ensures
        p <= desc_pos_from(s, key, p) <= s.len(),
    decreases s.len() - p,
{
    if p < s.len() && s[p].0 >= key {
        lemma_desc_pos_bounds(s, key, p + 1);
    }
}

pub proof fn lemma_desc_pos_split(s: Seq<EditView>, key: usize, p: int)
    requires
        0 <= p <= s.len(),
    ensures
        forall|j: int| p <= j < desc_pos_from(s, key, p) ==> #[trigger] s[j].0 >= key,
        desc_pos_from(s, key, p) < s.len() ==> s[desc_pos_from(s, key, p)].0 < key,
    decreases s.len() - p,
{
    if p < s.len() && s[p].0 >= key {
        lemma_desc_pos_split(s, key, p + 1);
    }
}

/// Where an edit with start `key` goes in the (descending) `sorted`.
fn desc_insert_pos(sorted: &Vec<TextEdit>, key: usize) -> (p: usize)
    ensures
        p == desc_pos_from(views(sorted@), key, 0),
        p <= sorted.len(),
{
    let ghost s = views(sorted@);
    let mut p: usize = 0;
    while p < sorted.len() && sorted[p].start_byte >= key
        invariant
            p <= sorted.len(),
            s == views(sorted@),
            desc_pos_from(s, key, 0) == desc_pos_from(s, key, p as int),
        decreases sorted.len() - p,
    {
        assert(s[p as int] == sorted@[p as int]@);
        p = p + 1;
    }
    proof {
        if p < sorted.len() {
            assert(s[p as int] == sorted@[p as int]@);
        }
    }
    p
}

/// The edits sorted by start, highest first (a stable sort), as the fixer
/// applies the edits of its suggestions.
pub(crate) fn sorted_desc(edits: &[TextEdit]) -> (r: Vec<TextEdit>)
    ensures
        views(r@) == sort_desc(views(edits@)),
{
    let mut r: Vec<TextEdit> = Vec::new();
    let ghost es = views(edits@);
    let mut i: usize = 0;
    while i < edits.len()
        invariant
            i <= edits.len(),
            es == views(edits@),
            views(r@) == sort_desc(es.take(i as int)),
        decreases edits.len() - i,
    {
        let e = edits[i].duplicate();
        let pos = desc_insert_pos(&r, e.start_byte);
        let ghost old_r = r@;
        r.insert(pos, e);
        proof {
            let t = es.take(i + 1);
            assert(t.drop_last() =~= es.take(i as int));
            assert(t.last() == e@);
            assert(views(r@) =~= views(old_r).insert(pos as int, e@));
        }
        i = i + 1;
    }
    assert(es.take(edits.len() as int) =~= es);
    r
}

pub proof fn lemma_range_pos_bounds(s: Seq<EditView>, x: EditView, p: int)
    requires
        0 <= p <= s.len(),
    ensures
        p <= range_pos_from(s, x, p) <= s.len(),
    decreases s.len() - p,
{
    if p < s.len() && !range_before(s[p], x) {
        lemma_range_pos_bounds(s, x, p + 1);
    }
}

pub proof fn lemma_range_pos_split(s: Seq<EditView>, x: EditView, p: int)
    requires
        0 <= p <= s.len(),
    ensures
        forall|j: int| p <= j < range_pos_from(s, x, p) ==> !range_before(#[trigger] s[j], x),
        range_pos_from(s, x, p) < s.len() ==> range_before(s[range_pos_from(s, x, p)], x),
    decreases s.len() - p,
{
    if p < s.len() && !range_before(s[p], x) {
        lemma_range_pos_split(s, x, p + 1);
    }
}

/// Where edit `x` goes in the (descending) `sorted`.
fn range_insert_pos(sorted: &Vec<TextEdit>, x: &TextEdit) -> (p: usize)
    ensures
        p == range_pos_from(views(sorted@), x@, 0),
        p <= sorted.len(),
{
    let ghost s = views(sorted@);
    let mut p: usize = 0;
    while p < sorted.len() && !(sorted[p].start_byte < x.start_byte || (sorted[p].start_byte == x.start_byte
        && sorted[p].end_byte < x.end_byte))
        invariant
            p <= sorted.len(),
            s == views(sorted@),
            range_pos_from(s, x@, 0) == range_pos_from(s, x@, p as int),
        decreases sorted.len() - p,
    {
        assert(s[p as int] == sorted@[p as int]@);
        p = p + 1;
    }
    proof {
        if p < sorted.len() {
            assert(s[p as int] == sorted@[p as int]@);
        }
    }
    p
}

/// The edits in the order in which `apply_fixes` applies them.
pub(crate) fn sorted_by_range(edits: &[TextEdit]) -> (r: Vec<TextEdit>)
    ensures
        views(r@) == sort_by_range(views(edits@)),
{
    let mut r: Vec<TextEdit> = Vec::new();
    let ghost es = views(edits@);
    let mut i: usize = 0;
    while i < edits.len()
        invariant
            i <= edits.len(),
            es == views(edits@),
            views(r@) == sort_by_range(es.take(i as int)),
        decreases edits.len() - i,
    {
        let e = edits[i].duplicate();
        let pos = range_insert_pos(&r, &e);
        let ghost old_r = r@;
        r.insert(pos, e);
        proof {
            let t = es.take(i + 1);
            assert(t.drop_last() =~= es.take(i as int));
            assert(t.last() == e@);
            assert(views(r@) =~= views(old_r).insert(pos as int, e@));
        }
        i = i + 1;
    }
    assert(es.take(edits.len() as int) =~= es);
    r
}

/// A boundary of `p` is one of `p + q` too, at the same char index.
proof fn lemma_boundary_prefix(p: Seq<char>, q: Seq<char>, b: int)
    requires
        is_char_boundary(p, b),
    ensures
        is_char_boundary(p + q, b),
        char_idx(p + q, b) == char_idx(p, b),
        0 <= char_idx(p, b) <= p.len(),
        is_boundary_at(p, char_idx(p, b), b),
{
    let k = char_idx(p, b);
    assert(is_boundary_at(p, k, b));
    assert((p + q).take(k) =~= p.take(k));
    assert(is_boundary_at(p + q, k, b));
    let k2 = char_idx(p + q, b);
    lemma_boundary_unique(p + q, k, k2, b);
}

/// A boundary of `p` at or before byte `byte_len(p.take(c))` is one of `p.take(c)` too.
proof fn lemma_boundary_take(p: Seq<char>, c: int, b: int)
    requires
        0 <= c <= p.len(),
        is_char_boundary(p, b),
        b <= byte_len(p.take(c)),
    ensures
        is_char_boundary(p.take(c), b),
{
    let k = char_idx(p, b);
    assert(is_boundary_at(p, k, b));
    if k > c {
        lemma_byte_len_take_mono(p, c, k);
    }
    assert(p.take(c).take(k) =~= p.take(k));
    assert(is_boundary_at(p.take(c), k, b));
}

/// Applying edits that lie in `p`, each later one ending at or before every
/// earlier one starts, to `p + q` applies them to `p` and keeps `q`; the
/// result is `p` spliced in ascending order.
pub proof fn lemma_apply_descending(p: Seq<char>, q: Seq<char>, d: Seq<EditView>)
    requires
        edits_within(p, d),
        ends_descending(d),
    ensures
        apply_ok(p + q, d),
        apply_seq(p + q, d) == spliced(p, d.reverse()) + q,
    decreases d.len(),
{
    if d.len() == 0 {
        assert(d.reverse() =~= d);
        return;
    }
    let f = d[0];
    let rest = d.drop_first();
    assert(f.0 <= f.1 && is_char_boundary(p, f.0 as int) && is_char_boundary(p, f.1 as int));
    lemma_boundary_prefix(p, q, f.0 as int);
    lemma_boundary_prefix(p, q, f.1 as int);
    let c0 = char_idx(p, f.0 as int);
    let c1 = char_idx(p, f.1 as int);
    if c1 < c0 {
        lemma_byte_len_take_mono(p, c1, c0);
    }
    assert(step_ok(p + q, f));
    let p1 = p.take(c0);
    let q1 = f.2 + p.skip(c1) + q;
    assert(splice_edit(p + q, f) =~= p1 + q1);
    assert(byte_len(p1) == f.0);
    assert forall|i: int| 0 <= i < rest.len() implies (#[trigger] rest[i]).0 <= rest[i].1 && is_char_boundary(
        p1,
        rest[i].0 as int,
    ) && is_char_boundary(p1, rest[i].1 as int) by {
        assert(rest[i] == d[i + 1]);
        assert(d[i + 1].1 <= d[0].0);
        lemma_boundary_take(p, c0, rest[i].0 as int);
        lemma_boundary_take(p, c0, rest[i].1 as int);
    }
    assert forall|i: int, j: int| 0 <= i < j < rest.len() implies #[trigger] rest[j].1 <= #[trigger] rest[i].0 by {
        assert(rest[i] == d[i + 1] && rest[j] == d[j + 1]);
    }
    lemma_apply_descending(p1, q1, rest);
    let a = d.reverse();
    assert(a.last() == f);
    assert(a.drop_last() =~= rest.reverse());
    assert(apply_seq(p + q, d) == apply_seq(p1 + q1, rest));
    assert(spliced(p, a) == spliced(p1, rest.reverse()) + f.2 + p.skip(c1));
    assert(spliced(p1, rest.reverse()) + q1 =~= spliced(p1, rest.reverse()) + f.2 + p.skip(c1) + q);
}

proof fn lemma_range_pos_after(s: Seq<EditView>, x: EditView)
    requires
        forall|i: int, j: int| 0 <= i < j < s.len() ==> !range_before(#[trigger] s[i], #[trigger] s[j]),
    ensures
        forall|j: int| range_pos_from(s, x, 0) <= j < s.len() ==> range_before(#[trigger] s[j], x),
{
    lemma_range_pos_bounds(s, x, 0);
    lemma_range_pos_split(s, x, 0);
    let p = range_pos_from(s, x, 0);
    assert forall|j: int| p <= j < s.len() implies range_before(#[trigger] s[j], x) by {
        if j > p {
            assert(!range_before(s[p], s[j]));
        }
    }
}

/// The sort keeps the edits: it is a permutation of them.
pub proof fn lemma_sort_by_range_multiset(es: Seq<EditView>)
    ensures
        sort_by_range(es).to_multiset() =~= es.to_multiset(),
        sort_by_range(es).len() == es.len(),
    decreases es.len(),
{
    broadcast use vstd::seq_lib::group_to_multiset_ensures;
    broadcast use vstd::multiset::group_multiset_axioms;
    if es.len() > 0 {
        let x = es.last();
        let s = sort_by_range(es.drop_last());
        lemma_sort_by_range_multiset(es.drop_last());
        let p = range_pos_from(s, x, 0);
        lemma_range_pos_bounds(s, x, 0);
        let t = s.insert(p, x);
        assert(t.remove(p) =~= s);
        assert(t[p] == x);
        assert(t.to_multiset().remove(x) == s.to_multiset());
        assert(t.contains(x));
        assert(t.to_multiset().count(x) > 0);
        assert(es =~= es.drop_last().push(x));
        assert(t.to_multiset() =~= s.to_multiset().insert(x));
    }
}

/// The sort puts edits that are pairwise apart in descending order of
/// (start, end), each ending at or before every earlier one starts.
pub proof fn lemma_sort_by_range_descending(es: Seq<EditView>)
    requires
        forall|k: int, m: int| 0 <= k < es.len() && 0 <= m < es.len() && k != m ==> apart(#[trigger] es[k], #[trigger] es[m]),
        forall|k: int| 0 <= k < es.len() ==> (#[trigger] es[k]).0 <= es[k].1,
    ensures
        ends_descending(sort_by_range(es)),
        forall|i: int, j: int| 0 <= i < j < sort_by_range(es).len() ==> !range_before(#[trigger] sort_by_range(es)[i], #[trigger] sort_by_range(es)[j]),
    decreases es.len(),
{
    broadcast use vstd::seq_lib::group_to_multiset_ensures;
    if es.len() > 0 {
        let n = es.len() - 1;
        let x = es[n];
        let e0 = es.drop_last();
        assert forall|k: int, m: int| 0 <= k < e0.len() && 0 <= m < e0.len() && k != m implies apart(#[trigger] e0[k], #[trigger] e0[m]) by {
            assert(e0[k] == es[k] && e0[m] == es[m]);
        }
        assert forall|k: int| 0 <= k < e0.len() implies (#[trigger] e0[k]).0 <= e0[k].1 by {
            assert(e0[k] == es[k]);
        }
        lemma_sort_by_range_descending(e0);
        lemma_sort_by_range_multiset(e0);
        let s = sort_by_range(e0);
        let p = range_pos_from(s, x, 0);
        lemma_range_pos_bounds(s, x, 0);
        lemma_range_pos_split(s, x, 0);
        lemma_range_pos_after(s, x);
        assert forall|j: int| 0 <= j < s.len() implies apart(#[trigger] s[j], x) by {
            assert(s.contains(s[j]));
            assert(s.to_multiset().count(s[j]) > 0);
            assert(e0.contains(s[j]));
            let k = choose|k: int| 0 <= k < e0.len() && e0[k] == s[j];
            assert(es[k] == s[j]);
            assert(apart(es[k], es[n]));
        }
        let t = s.insert(p, x);
        assert forall|i: int, j: int| 0 <= i < j < t.len() implies #[trigger] t[j].1 <= #[trigger] t[i].0 && !range_before(t[i], t[j]) by {
            if j < p {
                assert(t[i] == s[i] && t[j] == s[j]);
            } else if j == p {
                assert(t[i] == s[i] && t[j] == x);
                assert(apart(s[i], x));
                assert(!range_before(s[i], x));
            } else if i == p {
                assert(t[i] == x && t[j] == s[j - 1]);
                assert(apart(s[j - 1], x));
                assert(range_before(s[j - 1], x));
            } else if i < p {
                assert(t[i] == s[i] && t[j] == s[j - 1]);
            } else {
                assert(t[i] == s[i - 1] && t[j] == s[j - 1]);
            }
        }
    }
}

/// No edit of `es` from `i` on raises an error exactly when the first such error is none.
pub proof fn lemma_no_edit_error(es: Seq<EditView>, len: usize, i: int)
    requires
        0 <= i <= es.len(),
    ensures
        (first_edit_error(es, len, i) is None) == (forall|k: int| i <= k < es.len() ==> edit_error(#[trigger] es[k], len) is None),
    decreases es.len() - i,
{
    if i < es.len() {
        lemma_no_edit_error(es, len, i + 1);
    }
}

/// No edit of `es` from `i` on overlaps a later one exactly when the first such is none.
pub proof fn lemma_no_overlap(es: Seq<EditView>, i: int)
    requires
        0 <= i <= es.len(),
    ensures
        (first_overlap(es, i) is None) == (forall|k: int, j: int| i <= k < j < es.len() ==> !overlaps(#[trigger] es[k], #[trigger] es[j])),
    decreases es.len() - i,
{
    if i < es.len() {
        lemma_no_overlap(es, i + 1);
        if first_overlap(es, i) is None {
            assert(!overlaps_later(es, i));
        } else if !overlaps_later(es, i) {
            assert(first_overlap(es, i) == first_overlap(es, i + 1));
        }
    }
}

/// Valid edits are in order, end within the source, and are pairwise apart.
pub proof fn lemma_valid_edits_apart(es: Seq<EditView>, len: usize)
    requires
        validation(es, len) is Ok,
    ensures
        forall|k: int, m: int| 0 <= k < es.len() && 0 <= m < es.len() && k != m ==> apart(#[trigger] es[k], #[trigger] es[m]),
        forall|k: int| 0 <= k < es.len() ==> (#[trigger] es[k]).0 <= es[k].1 && es[k].1 <= len,
{
    lemma_no_edit_error(es, len, 0);
    lemma_no_overlap(es, 0);
    assert forall|k: int| 0 <= k < es.len() implies (#[trigger] es[k]).0 <= es[k].1 && es[k].1 <= len by {
        assert(edit_error(es[k], len) is None);
    }
    assert forall|k: int, m: int| 0 <= k < es.len() && 0 <= m < es.len() && k != m implies apart(#[trigger] es[k], #[trigger] es[m]) by {
        assert(edit_error(es[k], len) is None);
        assert(edit_error(es[m], len) is None);
        if k < m {
            assert(!overlaps(es[k], es[m]));
        } else {
            assert(!overlaps(es[m], es[k]));
        }
    }
}

/// Valid edits whose offsets are char boundaries of `s` can all be applied
/// in the sorted order, and the result is `s` with them spliced in ascending
/// order of (start, end).
pub proof fn lemma_valid_edits_apply(s: Seq<char>, es: Seq<EditView>, len: usize)
    requires
        validation(es, len) is Ok,
        forall|k: int| 0 <= k < es.len() ==> is_char_boundary(s, (#[trigger] es[k]).0 as int) && is_char_boundary(s, es[k].1 as int),
    ensures
        apply_ok(s, sort_by_range(es)),
        apply_seq(s, sort_by_range(es)) == spliced(s, sort_by_range(es).reverse()),
        ends_descending(sort_by_range(es)),
        forall|i: int, j: int| 0 <= i < j < sort_by_range(es).len() ==> !range_before(#[trigger] sort_by_range(es)[i], #[trigger] sort_by_range(es)[j]),
        sort_by_range(es).to_multiset() == es.to_multiset(),
{
    broadcast use vstd::seq_lib::group_to_multiset_ensures;
    lemma_valid_edits_apart(es, len);
    lemma_sort_by_range_descending(es);
    lemma_sort_by_range_multiset(es);
    let d = sort_by_range(es);
    assert forall|i: int| 0 <= i < d.len() implies (#[trigger] d[i]).0 <= d[i].1 && is_char_boundary(s, d[i].0 as int)
        && is_char_boundary(s, d[i].1 as int) by {
        assert(d.contains(d[i]));
        assert(d.to_multiset().count(d[i]) > 0);
        assert(es.contains(d[i]));
        let k = choose|k: int| 0 <= k < es.len() && es[k] == d[i];
        assert(is_char_boundary(s, es[k].0 as int));
    }
    lemma_apply_descending(s, Seq::<char>::empty(), d);
    assert(s + Seq::<char>::empty() =~= s);
    assert(spliced(s, d.reverse()) + Seq::<char>::empty() =~= spliced(s, d.reverse()));
}

/// Applies the edits (whose validity `validation` describes) to `source`.
///
/// Offsets name bytes of `source` itself. The edits are applied from the
/// highest (start, end) down, so that the edits still to apply keep naming
/// the same bytes; the result is the source with the edits spliced in, in
/// ascending order of (start, end).
pub fn apply_fixes(source: &str, edits: &[TextEdit]) -> (r: Result<String, FixError>)
    requires
        validation(views(edits@), byte_len(source@) as usize) is Ok ==> forall|k: int|
            0 <= k < edits@.len() ==> is_char_boundary(source@, (#[trigger] edits@[k]).start_byte as int)
                && is_char_boundary(source@, edits@[k].end_byte as int),
    ensures
        edits@.len() == 0 ==> (r matches Ok(s) && s@ == source@),
        edits@.len() > 0 ==> match validation(views(edits@), byte_len(source@) as usize) {
            Err(e) => r == Err::<String, FixError>(e),
            Ok(_) => (r matches Ok(s) && s@ == apply_seq(source@, sort_by_range(views(edits@)))
                && s@ == spliced(source@, sort_by_range(views(edits@)).reverse())),
        },
{
    if edits.len() == 0 {
        return Ok(to_owned_string(source));
    }
    let len = byte_length(source);
    match validate_edits(edits, len) {
        Err(e) => {
            return Err(e);
        },
        Ok(()) => {},
    }
    proof {
        let es = views(edits@);
        let ghost_len = byte_len(source@) as usize;
        lemma_valid_edits_apart(es, ghost_len);
        assert forall|k: int| 0 <= k < es.len() implies is_char_boundary(source@, (#[trigger] es[k]).0 as int)
            && is_char_boundary(source@, es[k].1 as int) by {
            assert(es[k] == edits@[k]@);
        }
        lemma_valid_edits_apply(source@, es, ghost_len);
    }
    let sorted = sorted_by_range(edits);
    let ghost ss = views(sorted@);
    let mut cur = chars_of(source);
    assert(ss.skip(0) =~= ss);
    let mut i: usize = 0;
    while i < sorted.len()
        invariant
            i <= sorted.len(),
            ss == views(sorted@),
            apply_seq(source@, ss) == apply_seq(cur@, ss.skip(i as int)),
            apply_ok(cur@, ss.skip(i as int)),
        decreases sorted.len() - i,
    {
        let ghost rest = ss.skip(i as int);
        let e = &sorted[i];
        assert(rest[0] == e@);
        assert(rest.drop_first() =~= ss.skip(i + 1));
        let k1 = char_index_of_byte(&cur, e.start_byte);
        let k2 = char_index_of_byte(&cur, e.end_byte);
        let k1 = match k1 {
            Some(k) => k,
            None => {
                return Err(FixError::InvalidRange { start: e.start_byte, end: e.end_byte, source_len: len });
            },
        };
        let k2 = match k2 {
            Some(k) => k,
            None => {
                return Err(FixError::InvalidRange { start: e.start_byte, end: e.end_byte, source_len: len });
            },
        };
        proof {
            let c1 = char_idx(cur@, e.start_byte as int);
            let c2 = char_idx(cur@, e.end_byte as int);
            lemma_boundary_unique(cur@, k1 as int, c1, e.start_byte as int);
            lemma_boundary_unique(cur@, k2 as int, c2, e.end_byte as int);
            if k1 > k2 {
                lemma_byte_len_take_mono(cur@, k2 as int, k1 as int);
            }
        }
        let repl = chars_of(e.replacement.as_str());
        cur = splice_vec(&cur, k1, k2, &repl);
        i = i + 1;
    }
    Ok(string_from_chars(&cur))
}

/// Applies a single edit.
pub fn apply_fix(source: &str, edit: &TextEdit) -> (r: Result<String, FixError>)
    requires
        edit_error(edit@, byte_len(source@) as usize) is None ==> is_char_boundary(source@, edit.start_byte as int)
            && is_char_boundary(source@, edit.end_byte as int),
    ensures
        match edit_error(edit@, byte_len(source@) as usize) {
            Some(e) => r == Err::<String, FixError>(e),
            None => (r matches Ok(s) && s@ == splice_edit(source@, edit@)),
        },
{
    let v = vec![edit.duplicate()];
    proof {
        let es = views(v@);
        assert(es =~= seq![edit@]);
        assert(first_edit_error(es, byte_len(source@) as usize, 1) is None);
        assert(!overlaps_later(es, 0));
        assert(first_overlap(es, 1) is None);
        assert(sort_by_range(es.drop_last()) =~= Seq::<EditView>::empty());
        assert(sort_by_range(es) =~= es);
        assert(es.drop_first() =~= Seq::<EditView>::empty());
        let len = byte_len(source@) as usize;
        assert(first_edit_error(es, len, 0) == edit_error(edit@, len));
        assert(apply_ok(splice_edit(source@, edit@), es.drop_first()));
        assert(apply_seq(splice_edit(source@, edit@), es.drop_first()) == splice_edit(source@, edit@));
    }
    apply_fixes(source, v.as_slice())
}

} // verus!
