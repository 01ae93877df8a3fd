//! Preparing source text for the Move grammar.
//!
//! Move-clippy directives such as `#![allow(lint::x)]` are not part of the
//! grammar, so their lines are blanked out with spaces before parsing.  Byte
//! length and newlines are kept, so that offsets and spans of the parsed tree
//! still refer to the original text.
use vstd::prelude::*;
use crate::text::{
    byte_len, char_width, chars_of, contains, lemma_byte_len_concat, next_nl, str_contains,
    string_from_chars, utf8_width,
};

verus! {

pub open spec fn is_sp_tab(c: char) -> bool {
    c == ' ' || c == '\t'
}

/// `s` without its spaces and tabs.
pub open spec fn remove_sp_tab(s: Seq<char>) -> Seq<char>
    decreases s.len(),
{
    if s.len() == 0 {
        s
    } else if is_sp_tab(s.last()) {
        remove_sp_tab(s.drop_last())
    } else {
        remove_sp_tab(s.drop_last()).push(s.last())
    }
}

/// Number of leading spaces and tabs.
pub open spec fn lead_sp_tab(s: Seq<char>) -> nat
    decreases s.len(),
{
    if s.len() == 0 || !is_sp_tab(s[0]) {
        0
    } else {
        1 + lead_sp_tab(s.subrange(1, s.len() as int))
    }
}

/// The (left-trimmed) line is a move-clippy directive.
pub open spec fn directive_line(t: Seq<char>) -> bool {
    let c = remove_sp_tab(t);
    ||| "#![allow(lint::"@.is_prefix_of(c)
    ||| "#![deny(lint::"@.is_prefix_of(c)
    ||| "#![expect(lint::"@.is_prefix_of(c)
    ||| "#[ext(move_clippy(allow("@.is_prefix_of(c)
    ||| "#[ext(move_clippy(deny("@.is_prefix_of(c)
    ||| "#[ext(move_clippy(expect("@.is_prefix_of(c)
    ||| "#![ext(move_clippy(allow("@.is_prefix_of(c)
    ||| "#![ext(move_clippy(deny("@.is_prefix_of(c)
    ||| "#![ext(move_clippy(expect("@.is_prefix_of(c)
}

/// `n` spaces.
pub open spec fn spaces(n: nat) -> Seq<char> {
    Seq::new(n, |i: int| ' ')
}

/// A line with its directive (if it is one) replaced by as many spaces as it has bytes.
pub open spec fn mask_line(line: Seq<char>) -> Seq<char> {
    let k = lead_sp_tab(line) as int;
    if directive_line(line.skip(k)) {
        line.take(k) + spaces(byte_len(line.skip(k)))
    } else {
        line
    }
}

/// The masked text from char `i` on (lines are split at `\n` only).
pub open spec fn mask_from(s: Seq<char>, i: int) -> Seq<char>
    decreases s.len() + 1 - i,
{
    if i < 0 || i >= s.len() {
        Seq::empty()
    } else {
        let e = next_nl(s, i);
        if e < i || e > s.len() {
            Seq::empty()
        } else if e < s.len() {
            mask_line(s.subrange(i, e)) + seq!['\n'] + mask_from(s, e + 1)
        } else {
            mask_line(s.subrange(i, e))
        }
    }
}

/// The text with its directive lines masked; unchanged when it holds
/// neither `#![` nor `#[ext(`.
pub open spec fn masked(s: Seq<char>) -> Seq<char> {
    if contains(s, "#!["@) || contains(s, "#[ext("@) {
        mask_from(s, 0)
    } else {
        s
    }
}

fn remove_sp_tab_vec(v: &Vec<char>, from: usize, to: usize) -> (r: Vec<char>)
    requires
        from <= to <= v.len(),
    ensures
        r@ == remove_sp_tab(v@.subrange(from as int, to as int)),
{
    let mut r: Vec<char> = Vec::new();
    let mut i = from;
    while i < to
        invariant
            from <= i <= to <= v.len(),
            r@ == remove_sp_tab(v@.subrange(from as int, i as int)),
        decreases to - i,
    {
        assert(v@.subrange(from as int, i + 1).drop_last() =~= v@.subrange(from as int, i as int));
        if v[i] != ' ' && v[i] != '\t' {
            r.push(v[i]);
        }
        i = i + 1;
    }
    r
}

fn has_prefix(v: &Vec<char>, p: &str) -> (b: bool)
    ensures
        b == p@.is_prefix_of(v@),
{
    let pv = chars_of(p);
    crate::text::v_matches_at(v, &pv, 0)
}

/// Whether the left-trimmed line `v[from..to]` is a directive.
fn directive_at(v: &Vec<char>, from: usize, to: usize) -> (b: bool)
    requires
        from <= to <= v.len(),
    ensures
        b == directive_line(v@.subrange(from as int, to as int)),
{
    let c = remove_sp_tab_vec(v, from, to);
    has_prefix(&c, "#![allow(lint::") || has_prefix(&c, "#![deny(lint::") || has_prefix(
        &c,
        "#![expect(lint::",
    ) || has_prefix(&c, "#[ext(move_clippy(allow(") || has_prefix(&c, "#[ext(move_clippy(deny(")
        || has_prefix(&c, "#[ext(move_clippy(expect(") || has_prefix(
        &c,
        "#![ext(move_clippy(allow(",
    ) || has_prefix(&c, "#![ext(move_clippy(deny(") || has_prefix(
        &c,
        "#![ext(move_clippy(expect(",
    )
}

/// Whether a left-trimmed line is a move-clippy directive, whitespace inside
/// it notwithstanding.
pub fn should_mask_directive_line(line_trimmed: &str) -> (b: bool)
    ensures
        b == directive_line(line_trimmed@),
{
    let v = chars_of(line_trimmed);
    assert(v@.subrange(0, v.len() as int) =~= v@);
    directive_at(&v, 0, v.len())
}

pub proof fn lemma_lead_sp_tab(s: Seq<char>, k: int)
    requires
        0 <= k <= s.len(),
        forall|j: int| 0 <= j < k ==> is_sp_tab(#[trigger] s[j]),
        k == s.len() || !is_sp_tab(s[k]),
    ensures
        lead_sp_tab(s) == k,
    decreases s.len(),
{
    if k > 0 {
        let t = s.subrange(1, s.len() as int);
        assert forall|j: int| 0 <= j < k - 1 implies is_sp_tab(#[trigger] t[j]) by {
            assert(t[j] == s[j + 1]);
        }
        if k - 1 < t.len() {
            assert(t[k - 1] == s[k]);
        }
        lemma_lead_sp_tab(t, k - 1);
    }
}

/// Appends the masked form of the line `v[from..to]` to `out`.
fn push_masked_line(out: &mut Vec<char>, v: &Vec<char>, from: usize, to: usize)
    requires
        from <= to <= v.len(),
    ensures
        final(out)@ == old(out)@ + mask_line(v@.subrange(from as int, to as int)),
{
    let ghost line = v@.subrange(from as int, to as int);
    let mut k = from;
    while k < to && (v[k] == ' ' || v[k] == '\t')
        invariant
            from <= k <= to <= v.len(),
            forall|j: int| from <= j < k ==> is_sp_tab(#[trigger] v@[j]),
        decreases to - k,
    {
        k = k + 1;
    }
    proof {
        assert forall|j: int| 0 <= j < k - from implies is_sp_tab(#[trigger] line[j]) by {
            assert(line[j] == v@[from + j]);
        }
        if k < to {
            assert(line[k - from] == v@[k as int]);
        }
        lemma_lead_sp_tab(line, k - from);
        assert(line.skip(k - from) =~= v@.subrange(k as int, to as int));
        assert(line.take(k - from) =~= v@.subrange(from as int, k as int));
    }
    let is_dir = directive_at(v, k, to);
    let mut i = from;
    while i < k
        invariant
            from <= i <= k <= to <= v.len(),
            out@ == old(out)@ + v@.subrange(from as int, i as int),
        decreases k - i,
    {
        out.push(v[i]);
        assert(v@.subrange(from as int, i + 1) =~= v@.subrange(from as int, i as int).push(
            v@[i as int],
        ));
        i = i + 1;
    }
    let ghost mid = out@;
    let mut j = k;
    while j < to
        invariant
            k <= j <= to <= v.len(),
            mid == old(out)@ + v@.subrange(from as int, k as int),
            is_dir ==> out@ == mid + spaces(byte_len(v@.subrange(k as int, j as int))),
            !is_dir ==> out@ == mid + v@.subrange(k as int, j as int),
        decreases to - j,
    {
        let ghost before = out@;
        if is_dir {
            let w = utf8_width(v[j]);
            let mut t: usize = 0;
            while t < w
                invariant
                    t <= w,
                    w == char_width(v@[j as int]),
                    out@ == before + spaces(t as nat),
                decreases w - t,
            {
                out.push(' ');
                assert(spaces((t + 1) as nat) =~= spaces(t as nat).push(' '));
                t = t + 1;
            }
            proof {
                let sub = v@.subrange(k as int, j + 1);
                assert(sub.drop_last() =~= v@.subrange(k as int, j as int));
                assert(spaces(byte_len(sub)) =~= spaces(byte_len(v@.subrange(k as int, j as int)))
                    + spaces(w as nat));
            }
        } else {
            out.push(v[j]);
        }
        assert(v@.subrange(k as int, j + 1) =~= v@.subrange(k as int, j as int).push(v@[j as int]));
        j = j + 1;
    }
    proof {
        let mk = k - from;
        assert(line.take(mk) =~= v@.subrange(from as int, k as int));
        assert(line.skip(mk) =~= v@.subrange(k as int, to as int));
        assert(line =~= v@.subrange(from as int, k as int) + v@.subrange(k as int, to as int));
    }
}

/// Masks move-clippy directive lines with spaces, keeping byte length and newlines.
pub fn mask_lint_directive_lines(source: &str) -> (r: String)
    ensures
        r@ == masked(source@),
{
    if !str_contains(source, "#![") && !str_contains(source, "#[ext(") {
        return source.to_owned();
    }
    let v = chars_of(source);
    let mut out: Vec<char> = Vec::new();
    let mut i: usize = 0;
    while i < v.len()
        invariant
            i <= v.len(),
            out@ + mask_from(v@, i as int) == mask_from(v@, 0),
        decreases v.len() - i,
    {
        let mut e = i;
        while e < v.len() && v[e] != '\n'
            invariant
                i <= e <= v.len(),
                next_nl(v@, i as int) == next_nl(v@, e as int),
            decreases v.len() - e,
        {
            e = e + 1;
        }
        let ghost before = out@;
        push_masked_line(&mut out, &v, i, e);
        if e < v.len() {
            out.push('\n');
            proof {
                assert(out@ + mask_from(v@, e + 1) =~= before + (mask_line(
                    v@.subrange(i as int, e as int),
                ) + seq!['\n'] + mask_from(v@, e + 1)));
            }
            i = e + 1;
        } else {
            proof {
                assert(mask_from(v@, e as int) =~= Seq::<char>::empty());
                assert(out@ + mask_from(v@, e as int) =~= before + mask_line(
                    v@.subrange(i as int, e as int),
                ));
            }
            i = e;
        }
    }
    assert(out@ + mask_from(v@, i as int) =~= out@);
    string_from_chars(&out)
}

// ---------------------------------------------------------------------------
// Masking keeps the byte length
// ---------------------------------------------------------------------------
pub proof fn lemma_spaces_byte_len(n: nat)
    ensures
        byte_len(spaces(n)) == n,
    decreases n,
{
    if n > 0 {
        assert(spaces(n).drop_last() =~= spaces((n - 1) as nat));
        lemma_spaces_byte_len((n - 1) as nat);
    }
}

pub proof fn lemma_mask_line_byte_len(line: Seq<char>)
    ensures
        byte_len(mask_line(line)) == byte_len(line),
{
    let k = lead_sp_tab(line) as int;
    let rest = line.skip(k);
    if directive_line(rest) {
        assert(k <= line.len()) by {
            lemma_lead_sp_tab_bound(line);
        }
        lemma_byte_len_concat(line.take(k), spaces(byte_len(rest)));
        lemma_spaces_byte_len(byte_len(rest));
        lemma_byte_len_concat(line.take(k), rest);
        assert(line.take(k) + rest =~= line);
    }
}

pub proof fn lemma_lead_sp_tab_bound(s: Seq<char>)
    ensures
        lead_sp_tab(s) <= s.len(),
    decreases s.len(),
{
    if s.len() > 0 && is_sp_tab(s[0]) {
        lemma_lead_sp_tab_bound(s.subrange(1, s.len() as int));
    }
}

pub proof fn lemma_mask_from_byte_len(s: Seq<char>, i: int)
    requires
        0 <= i <= s.len(),
    ensures
        byte_len(mask_from(s, i)) == byte_len(s.skip(i)),
    decreases s.len() + 1 - i,
{
    if i >= s.len() {
        assert(s.skip(i) =~= Seq::<char>::empty());
    } else {
        crate::text::lemma_next_nl(s, i);
        let e = next_nl(s, i);
        let seg = s.subrange(i, e);
        lemma_mask_line_byte_len(seg);
        if e < s.len() {
            lemma_mask_from_byte_len(s, e + 1);
            lemma_byte_len_concat(mask_line(seg) + seq!['\n'], mask_from(s, e + 1));
            lemma_byte_len_concat(mask_line(seg), seq!['\n']);
            lemma_byte_len_concat(seg + seq!['\n'], s.skip(e + 1));
            lemma_byte_len_concat(seg, seq!['\n']);
            assert(s.skip(i) =~= seg + seq!['\n'] + s.skip(e + 1));
        } else {
            assert(s.skip(i) =~= seg);
        }
    }
}

/// Masking keeps the byte length of the text, so byte offsets into the
/// masked text name the same places as in the original.
pub proof fn law_mask_preserves_byte_len(s: Seq<char>)
    ensures
        byte_len(masked(s)) == byte_len(s),
{
    lemma_mask_from_byte_len(s, 0);
    assert(s.skip(0) =~= s);
}

// ---------------------------------------------------------------------------
// Masking keeps the newlines where they are
// ---------------------------------------------------------------------------
/// `s` has a newline starting at byte `b`.
pub open spec fn newline_at_byte(s: Seq<char>, b: int) -> bool {
    exists|k: int| 0 <= k < s.len() && #[trigger] s[k] == '\n' && byte_len(s.take(k)) == b
}

proof fn lemma_newline_concat(a: Seq<char>, c: Seq<char>, b: int)
    ensures
        newline_at_byte(a + c, b) == (newline_at_byte(a, b) || (b >= byte_len(a) && newline_at_byte(
            c,
            b - byte_len(a),
        ))),
{
    let ac = a + c;
    if newline_at_byte(ac, b) {
        let k = choose|k: int| 0 <= k < ac.len() && #[trigger] ac[k] == '\n' && byte_len(ac.take(k)) == b;
        if k < a.len() {
            assert(ac.take(k) =~= a.take(k));
            assert(a[k] == '\n');
        } else {
            let j = k - a.len();
            assert(ac.take(k) =~= a + c.take(j));
            lemma_byte_len_concat(a, c.take(j));
            assert(c[j] == '\n');
            assert(newline_at_byte(c, b - byte_len(a)));
        }
    }
    if newline_at_byte(a, b) {
        let k = choose|k: int| 0 <= k < a.len() && #[trigger] a[k] == '\n' && byte_len(a.take(k)) == b;
        assert(ac.take(k) =~= a.take(k));
        assert(ac[k] == '\n');
    }
    if b >= byte_len(a) && newline_at_byte(c, b - byte_len(a)) {
        let j = choose|j: int| 0 <= j < c.len() && #[trigger] c[j] == '\n' && byte_len(c.take(j)) == b - byte_len(a);
        let k = a.len() + j;
        assert(ac.take(k) =~= a + c.take(j));
        lemma_byte_len_concat(a, c.take(j));
        assert(ac[k] == '\n');
    }
}

proof fn lemma_mask_line_no_newline(line: Seq<char>)
    requires
        forall|k: int| 0 <= k < line.len() ==> #[trigger] line[k] != '\n',
    ensures
        forall|k: int| 0 <= k < mask_line(line).len() ==> #[trigger] mask_line(line)[k] != '\n',
{
    let k0 = lead_sp_tab(line) as int;
    lemma_lead_sp_tab_bound(line);
    if directive_line(line.skip(k0)) {
        let m = mask_line(line);
        assert forall|k: int| 0 <= k < m.len() implies #[trigger] m[k] != '\n' by {
            if k < k0 {
                assert(m[k] == line[k]);
            } else {
                assert(m[k] == ' ');
            }
        }
    }
}

proof fn lemma_mask_from_newlines(s: Seq<char>, i: int, b: int)
    requires
        0 <= i <= s.len(),
    ensures
        newline_at_byte(mask_from(s, i), b) == newline_at_byte(s.skip(i), b),
    decreases s.len() + 1 - i,
{
    if i >= s.len() {
        assert(s.skip(i) =~= Seq::<char>::empty());
    } else {
        crate::text::lemma_next_nl(s, i);
        let e = next_nl(s, i);
        let seg = s.subrange(i, e);
        assert forall|k: int| 0 <= k < seg.len() implies #[trigger] seg[k] != '\n' by {
            assert(seg[k] == s[i + k]);
        }
        lemma_mask_line_no_newline(seg);
        lemma_mask_line_byte_len(seg);
        let m = mask_line(seg);
        if e < s.len() {
            lemma_mask_from_newlines(s, e + 1, b - byte_len(seg) - 1);
            let nl = seq!['\n'];
            assert(s.skip(i) =~= seg + nl + s.skip(e + 1));
            lemma_newline_concat(m + nl, mask_from(s, e + 1), b);
            lemma_newline_concat(m, nl, b);
            lemma_newline_concat(seg + nl, s.skip(e + 1), b);
            lemma_newline_concat(seg, nl, b);
            lemma_byte_len_concat(m, nl);
            lemma_byte_len_concat(seg, nl);
            assert(byte_len(nl) == 1) by {
                assert(nl.len() == 1);
                assert(nl.drop_last() =~= Seq::<char>::empty());
                assert(byte_len(Seq::<char>::empty()) == 0);
                assert(byte_len(nl.drop_last()) == 0);
                assert(nl.last() == '\n');
                assert(('\n' as u32) < 0x80);
                assert(crate::text::char_width('\n') == 1);
            }
            assert(!newline_at_byte(m, b));
            assert(!newline_at_byte(seg, b));
            assert(newline_at_byte(nl, b - byte_len(seg)) == (b - byte_len(seg) == 0)) by {
                assert(nl.take(0) =~= Seq::<char>::empty());
                if b - byte_len(seg) == 0 {
                    assert(nl[0] == '\n');
                }
            }
        } else {
            assert(s.skip(i) =~= seg);
            assert(!newline_at_byte(m, b));
            assert(!newline_at_byte(seg, b));
        }
    }
}

/// Masking keeps every newline at its byte offset, so the lines of the
/// masked text start and end where the source's do.
pub proof fn law_mask_keeps_newlines(s: Seq<char>, b: int)
    ensures
        newline_at_byte(masked(s), b) == newline_at_byte(s, b),
{
    lemma_mask_from_newlines(s, 0, b);
    assert(s.skip(0) =~= s);
}

} // verus!
