//! Character-level text utilities with specifications.
//!
//! Text is modelled as the sequence of its `char`s (`s@`).  Byte offsets,
//! which the lint machinery uses for spans and edits, are related to char
//! indices through the UTF-8 width of each char (`char_width`).
use vstd::prelude::*;

verus! {

broadcast use vstd::string::group_string_axioms;

// ---------------------------------------------------------------------------
// Character classes
// ---------------------------------------------------------------------------

/// The Unicode `White_Space` property, which `char::is_whitespace` tests.
pub open spec fn is_ws(c: char) -> bool {
    ||| ('\u{9}' <= c && c <= '\u{d}')
    ||| c == ' '
    ||| c == '\u{85}'
    ||| c == '\u{a0}'
    ||| c == '\u{1680}'
    ||| ('\u{2000}' <= c && c <= '\u{200a}')
    ||| c == '\u{2028}'
    ||| c == '\u{2029}'
    ||| c == '\u{202f}'
    ||| c == '\u{205f}'
    ||| c == '\u{3000}'
}

pub fn is_whitespace(c: char) -> (b: bool)
    ensures
        b == is_ws(c),
{
    ('\u{9}' <= c && c <= '\u{d}') || c == ' ' || c == '\u{85}' || c == '\u{a0}' || c
        == '\u{1680}' || ('\u{2000}' <= c && c <= '\u{200a}') || c == '\u{2028}' || c
        == '\u{2029}' || c == '\u{202f}' || c == '\u{205f}' || c == '\u{3000}'
}

pub open spec fn is_ascii_upper(c: char) -> bool {
    'A' <= c && c <= 'Z'
}

pub open spec fn is_ascii_lower(c: char) -> bool {
    'a' <= c && c <= 'z'
}

pub open spec fn is_ascii_alpha(c: char) -> bool {
    is_ascii_upper(c) || is_ascii_lower(c)
}

pub open spec fn is_ascii_digit(c: char) -> bool {
    '0' <= c && c <= '9'
}

pub open spec fn is_ascii_alnum(c: char) -> bool {
    is_ascii_alpha(c) || is_ascii_digit(c)
}

pub open spec fn is_ascii_hex(c: char) -> bool {
    is_ascii_digit(c) || ('a' <= c && c <= 'f') || ('A' <= c && c <= 'F')
}

/// Number of bytes of the UTF-8 encoding of `c`.
pub open spec fn char_width(c: char) -> nat {
    if (c as u32) < 0x80 {
        1
    } else if (c as u32) < 0x800 {
        2
    } else if (c as u32) < 0x10000 {
        3
    } else {
        4
    }
}

pub fn utf8_width(c: char) -> (w: usize)
    ensures
        w == char_width(c),
{
    let u = c as u32;
    if u < 0x80 {
        1
    } else if u < 0x800 {
        2
    } else if u < 0x10000 {
        3
    } else {
        4
    }
}

/// Number of bytes of the UTF-8 encoding of `s`.
pub open spec fn byte_len(s: Seq<char>) -> nat
    decreases s.len(),
{
    if s.len() == 0 {
        0
    } else {
        byte_len(s.drop_last()) + char_width(s.last())
    }
}

/// `b` is the byte offset at which char `k` of `s` starts (or the end, for `k == len`).
pub open spec fn is_boundary_at(s: Seq<char>, k: int, b: int) -> bool {
    0 <= k <= s.len() && byte_len(s.take(k)) == b
}

/// `b` is a char boundary of `s` (what `str::is_char_boundary` tests).
pub open spec fn is_char_boundary(s: Seq<char>, b: int) -> bool {
    exists|k: int| is_boundary_at(s, k, b)
}

/// The char index that byte offset `b` names in `s` (meaningful when `b` is a boundary).
pub open spec fn char_idx(s: Seq<char>, b: int) -> int {
    choose|k: int| is_boundary_at(s, k, b)
}

pub proof fn lemma_byte_len_take_mono(s: Seq<char>, i: int, j: int)
    requires
        0 <= i <= j <= s.len(),
    ensures
        byte_len(s.take(i)) + (j - i) <= byte_len(s.take(j)),
    decreases j - i,
{
    if i < j {
        lemma_byte_len_take_mono(s, i, j - 1);
        assert(s.take(j).drop_last() =~= s.take(j - 1));
    }
}

/// Byte offsets that are boundaries name exactly one char index.
pub proof fn lemma_boundary_unique(s: Seq<char>, k1: int, k2: int, b: int)
    requires
        is_boundary_at(s, k1, b),
        is_boundary_at(s, k2, b),
    ensures
        k1 == k2,
{
    if k1 < k2 {
        lemma_byte_len_take_mono(s, k1, k2);
    } else if k2 < k1 {
        lemma_byte_len_take_mono(s, k2, k1);
    }
}

/// The char index that byte offset `b` names in `chars`, if `b` is a boundary.
pub fn char_index_of_byte(chars: &Vec<char>, b: usize) -> (r: Option<usize>)
    ensures
        match r {
            Some(k) => is_boundary_at(chars@, k as int, b as int),
            None => !is_char_boundary(chars@, b as int),
        },
{
    let mut acc: usize = 0;
    let mut k: usize = 0;
    while k < chars.len()
        invariant
            k <= chars.len(),
            acc == byte_len(chars@.take(k as int)),
            forall|j: int| 0 <= j < k ==> byte_len(#[trigger] chars@.take(j)) != b,
        decreases chars.len() - k,
    {
        if acc == b {
            return Some(k);
        }
        if acc > b {
            proof {
                assert forall|j: int| 0 <= j <= chars.len() implies byte_len(
                    #[trigger] chars@.take(j),
                ) != b by {
                    if j >= k {
                        lemma_byte_len_take_mono(chars@, k as int, j);
                    }
                }
            }
            return None;
        }
        let w = utf8_width(chars[k]);
        assert(chars@.take(k + 1).drop_last() =~= chars@.take(k as int));
        if w > b - acc {
            proof {
                assert forall|j: int| 0 <= j <= chars.len() implies byte_len(
                    #[trigger] chars@.take(j),
                ) != b by {
                    if j > k {
                        lemma_byte_len_take_mono(chars@, k + 1, j);
                    }
                }
            }
            return None;
        }
        acc = acc + w;
        k = k + 1;
    }
    if acc == b {
        return Some(k);
    }
    assert forall|j: int| 0 <= j <= chars.len() implies byte_len(#[trigger] chars@.take(j)) != b by {
        if j == chars.len() {
        }
    }
    None
}

pub proof fn lemma_byte_len_concat(a: Seq<char>, b: Seq<char>)
    ensures
        byte_len(a + b) == byte_len(a) + byte_len(b),
    decreases b.len(),
{
    if b.len() > 0 {
        lemma_byte_len_concat(a, b.drop_last());
        assert((a + b).drop_last() =~= a + b.drop_last());
    } else {
        assert(a + b =~= a);
    }
}

pub proof fn lemma_encode_len(s: Seq<char>)
    ensures
        vstd::utf8::encode_utf8(s).len() == byte_len(s),
    decreases s.len(),
{
    if s.len() > 0 {
        lemma_encode_len(s.drop_first());
        vstd::utf8::char_is_scalar(s[0]);
        lemma_byte_len_concat(seq![s[0]], s.drop_first());
        assert(seq![s[0]] + s.drop_first() =~= s);
        assert(seq![s[0]].drop_last() =~= Seq::<char>::empty());
        assert(byte_len(Seq::<char>::empty()) == 0);
        assert(seq![s[0]].last() == s[0]);
        assert(byte_len(seq![s[0]]) == char_width(s[0]));
        let v = s[0] as u32;
        assert(vstd::utf8::encode_scalar(v).len() == char_width(s[0]));
    }
}

/// `str::len`: the number of bytes of the UTF-8 encoding.
pub fn byte_length(s: &str) -> (n: usize)
    ensures
        n == byte_len(s@),
{
    let b = s.as_bytes();
    proof {
        lemma_encode_len(s@);
    }
    b.len()
}

/// `v[..a] ++ mid ++ v[b..]`.
pub fn splice_vec(v: &Vec<char>, a: usize, b: usize, mid: &Vec<char>) -> (r: Vec<char>)
    requires
        a <= b <= v.len(),
    ensures
        r@ == v@.take(a as int) + mid@ + v@.skip(b as int),
{
    let mut r: Vec<char> = Vec::new();
    let mut i: usize = 0;
    while i < a
        invariant
            i <= a <= b <= v.len(),
            r@ == v@.take(i as int),
        decreases a - i,
    {
        r.push(v[i]);
        assert(v@.take(i + 1) =~= v@.take(i as int).push(v@[i as int]));
        i = i + 1;
    }
    let mut j: usize = 0;
    while j < mid.len()
        invariant
            j <= mid.len(),
            r@ == v@.take(a as int) + mid@.take(j as int),
        decreases mid.len() - j,
    {
        r.push(mid[j]);
        assert(mid@.take(j + 1) =~= mid@.take(j as int).push(mid@[j as int]));
        j = j + 1;
    }
    assert(mid@.take(mid.len() as int) =~= mid@);
    let mut k = b;
    while k < v.len()
        invariant
            b <= k <= v.len(),
            r@ == v@.take(a as int) + mid@ + v@.subrange(b as int, k as int),
        decreases v.len() - k,
    {
        r.push(v[k]);
        assert(v@.subrange(b as int, k + 1) =~= v@.subrange(b as int, k as int).push(v@[k as int]));
        k = k + 1;
    }
    assert(v@.subrange(b as int, v.len() as int) =~= v@.skip(b as int));
    r
}

// ---------------------------------------------------------------------------
// Conversions
// ---------------------------------------------------------------------------
/// The characters of `s`, in order.
pub fn chars_of(s: &str) -> (v: Vec<char>)
    ensures
        v@ == s@,
{
    let mut v: Vec<char> = Vec::new();
    for c in iter: s.chars()
        invariant
            v@ == iter.seq().take(iter.index()),
            iter.seq() == s@,
    {
        v.push(c);
    }
    v
}

/// Appends one char to a `String` (`String::push`).
#[verifier::external_body]
pub(crate) fn push_char(s: &mut String, c: char)
    ensures
        final(s)@ == old(s)@.push(c),
{
    s.push(c);
}

/// What `str::to_lowercase` returns for `s`: its Unicode lowercase mapping.
pub uninterp spec fn lowercase(s: Seq<char>) -> Seq<char>;

/// The ASCII lowercase of `c`: `A`..`Z` become `a`..`z`, anything else stays.
pub open spec fn ascii_lower(c: char) -> char {
    if 'A' <= c && c <= 'Z' {
        ((c as u32) + 32) as char
    } else {
        c
    }
}

/// `str::to_lowercase`. The contract names the result `lowercase(s@)`; of
/// the Unicode case tables behind it, it states only the ASCII part: text of
/// ASCII chars alone has each letter `A`..`Z` lowered and every other char kept.
#[verifier::external_body]
pub(crate) fn to_lowercase(s: &str) -> (r: String)
    ensures
        r@ == lowercase(s@),
        (forall|i: int| 0 <= i < s@.len() ==> (#[trigger] s@[i] as u32) < 128) ==> r@ == s@.map_values(
            |c: char| ascii_lower(c),
        ),
{
    s.to_lowercase()
}

/// The string made of `v[from..to]`.
pub fn string_of(v: &Vec<char>, from: usize, to: usize) -> (s: String)
    requires
        from <= to <= v.len(),
    ensures
        s@ == v@.subrange(from as int, to as int),
{
    let mut s = String::new();
    let mut i = from;
    while i < to
        invariant
            from <= i <= to <= v.len(),
            s@ == v@.subrange(from as int, i as int),
        decreases to - i,
    {
        push_char(&mut s, v[i]);
        assert(v@.subrange(from as int, i + 1) =~= v@.subrange(from as int, i as int).push(
            v@[i as int],
        ));
        i = i + 1;
    }
    s
}

/// The whole of `v` as a string.
pub fn string_from_chars(v: &Vec<char>) -> (s: String)
    ensures
        s@ == v@,
{
    let s = string_of(v, 0, v.len());
    assert(v@.subrange(0, v.len() as int) =~= v@);
    s
}

/// A fresh `String` with the chars of `s`.
pub fn to_owned_string(s: &str) -> (r: String)
    ensures
        r@ == s@,
{
    s.to_owned()
}

/// Appends `t` to `s`.
pub fn push_str(s: &mut String, t: &str)
    ensures
        final(s)@ == old(s)@ + t@,
{
    s.append(t);
}

// ---------------------------------------------------------------------------
// Whitespace trimming
// ---------------------------------------------------------------------------
/// Number of leading whitespace chars.
pub open spec fn lead_ws(s: Seq<char>) -> nat
    decreases s.len(),
{
    if s.len() == 0 {
        0
    } else if is_ws(s[0]) {
        1 + lead_ws(s.subrange(1, s.len() as int))
    } else {
        0
    }
}

/// Number of trailing whitespace chars.
pub open spec fn trail_ws(s: Seq<char>) -> nat
    decreases s.len(),
{
    if s.len() == 0 {
        0
    } else if is_ws(s.last()) {
        1 + trail_ws(s.drop_last())
    } else {
        0
    }
}

pub open spec fn trim_start(s: Seq<char>) -> Seq<char> {
    s.skip(lead_ws(s) as int)
}

pub open spec fn trim_end(s: Seq<char>) -> Seq<char> {
    s.take(s.len() - trail_ws(s))
}

/// What `str::trim` returns.
pub open spec fn trim(s: Seq<char>) -> Seq<char> {
    trim_end(trim_start(s))
}

pub proof fn lemma_lead_ws(s: Seq<char>, k: int)
    requires
        0 <= k <= s.len(),
        forall|j: int| 0 <= j < k ==> is_ws(#[trigger] s[j]),
        k == s.len() || !is_ws(s[k]),
    ensures
        lead_ws(s) == k,
    decreases s.len(),
{
    if k > 0 {
        let t = s.subrange(1, s.len() as int);
        assert forall|j: int| 0 <= j < k - 1 implies is_ws(#[trigger] t[j]) by {
            assert(t[j] == s[j + 1]);
        }
        if k - 1 < t.len() {
            assert(t[k - 1] == s[k]);
        }
        lemma_lead_ws(t, k - 1);
    }
}

pub proof fn lemma_trail_ws(s: Seq<char>, k: int)
    requires
        0 <= k <= s.len(),
        forall|j: int| k <= j < s.len() ==> is_ws(#[trigger] s[j]),
        k == 0 || !is_ws(s[k - 1]),
    ensures
        trail_ws(s) == s.len() - k,
    decreases s.len(),
{
    if k < s.len() {
        let t = s.drop_last();
        assert forall|j: int| k <= j < t.len() implies is_ws(#[trigger] t[j]) by {
            assert(t[j] == s[j]);
        }
        if k > 0 {
            assert(t[k - 1] == s[k - 1]);
        }
        lemma_trail_ws(t, k);
    }
}

/// Index of the first non-whitespace char of `v[from..to]`, or `to`.
pub fn skip_ws_forward(v: &Vec<char>, from: usize, to: usize) -> (k: usize)
    requires
        from <= to <= v.len(),
    ensures
        from <= k <= to,
        forall|j: int| from <= j < k ==> is_ws(#[trigger] v@[j]),
        k == to || !is_ws(v@[k as int]),
{
    let mut k = from;
    while k < to && is_whitespace(v[k])
        invariant
            from <= k <= to <= v.len(),
            forall|j: int| from <= j < k ==> is_ws(#[trigger] v@[j]),
        decreases to - k,
    {
        k = k + 1;
    }
    k
}

/// Index just past the last non-whitespace char of `v[from..to]`, or `from`.
pub fn skip_ws_backward(v: &Vec<char>, from: usize, to: usize) -> (k: usize)
    requires
        from <= to <= v.len(),
    ensures
        from <= k <= to,
        forall|j: int| k <= j < to ==> is_ws(#[trigger] v@[j]),
        k == from || !is_ws(v@[k - 1]),
{
    let mut k = to;
    while k > from && is_whitespace(v[k - 1])
        invariant
            from <= k <= to <= v.len(),
            forall|j: int| k <= j < to ==> is_ws(#[trigger] v@[j]),
        decreases k - from,
    {
        k = k - 1;
    }
    k
}

/// The bounds of `trim(v[from..to])` inside `v`.
pub fn trim_bounds(v: &Vec<char>, from: usize, to: usize) -> (r: (usize, usize))
    requires
        from <= to <= v.len(),
    ensures
        from <= r.0 <= r.1 <= to,
        v@.subrange(r.0 as int, r.1 as int) == trim(v@.subrange(from as int, to as int)),
{
    let a = skip_ws_forward(v, from, to);
    let b = skip_ws_backward(v, a, to);
    proof {
        let s = v@.subrange(from as int, to as int);
        assert forall|j: int| 0 <= j < a - from implies is_ws(#[trigger] s[j]) by {
            assert(s[j] == v@[from + j]);
        }
        if a < to {
            assert(s[a - from] == v@[a as int]);
        }
        lemma_lead_ws(s, a - from);
        let t = trim_start(s);
        assert(t =~= v@.subrange(a as int, to as int));
        assert forall|j: int| b - a <= j < t.len() implies is_ws(#[trigger] t[j]) by {
            assert(t[j] == v@[a + j]);
        }
        if b > a {
            assert(t[b - a - 1] == v@[b - 1]);
        }
        lemma_trail_ws(t, b - a);
        assert(trim_end(t) =~= v@.subrange(a as int, b as int));
    }
    (a, b)
}

/// `str::trim`.
pub fn trim_str(s: &str) -> (r: &str)
    ensures
        r@ == trim(s@),
{
    let v = chars_of(s);
    let (a, b) = trim_bounds(&v, 0, v.len());
    assert(v@.subrange(0, v.len() as int) =~= v@);
    s.substring_char(a, b)
}

// ---------------------------------------------------------------------------
// Matching
// ---------------------------------------------------------------------------
/// `p` occurs in `s` at char index `i`.
pub open spec fn matches_at(s: Seq<char>, p: Seq<char>, i: int) -> bool {
    0 <= i && i + p.len() <= s.len() && s.subrange(i, i + p.len()) =~= p
}

/// `p` occurs somewhere in `s` (`str::contains`).
pub open spec fn contains(s: Seq<char>, p: Seq<char>) -> bool {
    exists|i: int| matches_at(s, p, i)
}

/// The first occurrence of `p` in `s` at or after `i`.
pub open spec fn find_from(s: Seq<char>, p: Seq<char>, i: int) -> Option<int>
    decreases s.len() + 1 - i,
{
    if i < 0 || i + p.len() > s.len() {
        None
    } else if matches_at(s, p, i) {
        Some(i)
    } else {
        find_from(s, p, i + 1)
    }
}

/// The first occurrence of `p` in `s` (`str::find`, in chars).
pub open spec fn find(s: Seq<char>, p: Seq<char>) -> Option<int> {
    find_from(s, p, 0)
}

/// The last occurrence of `p` in `s` that starts at or before `i`.
pub open spec fn rfind_from(s: Seq<char>, p: Seq<char>, i: int) -> Option<int>
    decreases i + 1,
{
    if i < 0 {
        None
    } else if matches_at(s, p, i) {
        Some(i)
    } else {
        rfind_from(s, p, i - 1)
    }
}

/// The last occurrence of `p` in `s` (`str::rfind`, in chars).
pub open spec fn rfind(s: Seq<char>, p: Seq<char>) -> Option<int> {
    rfind_from(s, p, s.len() - p.len())
}

pub proof fn lemma_find_from_some(s: Seq<char>, p: Seq<char>, i: int)
    requires
        0 <= i,
    ensures
        find_from(s, p, i) matches Some(k) ==> i <= k && matches_at(s, p, k) && forall|j: int|
            i <= j < k ==> !matches_at(s, p, j),
        find_from(s, p, i) is None ==> forall|j: int| i <= j ==> !matches_at(s, p, j),
    decreases s.len() + 1 - i,
{
    if i + p.len() > s.len() {
    } else if matches_at(s, p, i) {
    } else {
        lemma_find_from_some(s, p, i + 1);
    }
}

pub proof fn lemma_rfind_from(s: Seq<char>, p: Seq<char>, i: int)
    ensures
        rfind_from(s, p, i) matches Some(k) ==> k <= i && matches_at(s, p, k) && forall|j: int|
            k < j <= i ==> !matches_at(s, p, j),
        rfind_from(s, p, i) is None ==> forall|j: int| j <= i ==> !matches_at(s, p, j),
    decreases i + 1,
{
    if i >= 0 {
        lemma_rfind_from(s, p, i - 1);
    }
}

/// Whether `p` occurs in `v` at `i`.
pub fn v_matches_at(v: &Vec<char>, p: &Vec<char>, i: usize) -> (b: bool)
    ensures
        b == matches_at(v@, p@, i as int),
{
    if i > v.len() || p.len() > v.len() - i {
        return false;
    }
    let mut j: usize = 0;
    while j < p.len()
        invariant
            i + p.len() <= v.len(),
            j <= p.len(),
            forall|t: int| 0 <= t < j ==> v@[i + t] == p@[t],
        decreases p.len() - j,
    {
        if v[i + j] != p[j] {
            return false;
        }
        j = j + 1;
    }
    assert(v@.subrange(i as int, i + p.len()) =~= p@);
    true
}

/// First occurrence of `p` in `v` at or after `from`.
pub fn v_find_from(v: &Vec<char>, p: &Vec<char>, from: usize) -> (r: Option<usize>)
    ensures
        r matches Some(k) ==> find_from(v@, p@, from as int) == Some(k as int),
        r is None ==> find_from(v@, p@, from as int) is None,
{
    let mut i = from;
    if i > v.len() {
        return None;
    }
    while i <= v.len()
        invariant
            from <= i,
            i <= v.len() + 1,
            find_from(v@, p@, from as int) == find_from(v@, p@, i as int),
        decreases v.len() + 1 - i,
    {
        if p.len() > v.len() - i {
            return None;
        }
        if v_matches_at(v, p, i) {
            return Some(i);
        }
        i = i + 1;
    }
    None
}

/// Last occurrence of `p` in `v` starting at or before `from`.
pub fn v_rfind_from(v: &Vec<char>, p: &Vec<char>, from: usize) -> (r: Option<usize>)
    ensures
        r matches Some(k) ==> rfind_from(v@, p@, from as int) == Some(k as int),
        r is None ==> rfind_from(v@, p@, from as int) is None,
{
    let mut i = from;
    loop
        invariant
            i <= from,
            rfind_from(v@, p@, from as int) == rfind_from(v@, p@, i as int),
        decreases i,
    {
        if v_matches_at(v, p, i) {
            return Some(i);
        }
        if i == 0 {
            assert(rfind_from(v@, p@, -1) is None);
            return None;
        }
        i = i - 1;
    }
}

/// `str::find`, as a char index.
pub fn find_char_index(s: &str, p: &str) -> (r: Option<usize>)
    ensures
        r matches Some(k) ==> find(s@, p@) == Some(k as int),
        r is None ==> find(s@, p@) is None,
{
    let v = chars_of(s);
    let pv = chars_of(p);
    v_find_from(&v, &pv, 0)
}

/// `str::contains`.
pub fn str_contains(s: &str, p: &str) -> (b: bool)
    ensures
        b == contains(s@, p@),
{
    let v = chars_of(s);
    let pv = chars_of(p);
    let r = v_find_from(&v, &pv, 0);
    proof {
        lemma_find_from_some(v@, pv@, 0);
    }
    r.is_some()
}

/// `str::starts_with`.
pub fn starts_with(s: &str, p: &str) -> (b: bool)
    ensures
        b == p@.is_prefix_of(s@),
{
    let v = chars_of(s);
    let pv = chars_of(p);
    v_matches_at(&v, &pv, 0)
}

/// `str::ends_with`.
pub fn ends_with(s: &str, p: &str) -> (b: bool)
    ensures
        b == p@.is_suffix_of(s@),
{
    let v = chars_of(s);
    let pv = chars_of(p);
    if pv.len() > v.len() {
        return false;
    }
    v_matches_at(&v, &pv, v.len() - pv.len())
}

/// `==` on string contents.
pub fn str_eq(a: &str, b: &str) -> (r: bool)
    ensures
        r == (a@ == b@),
{
    let v = chars_of(a);
    let w = chars_of(b);
    if v.len() != w.len() {
        return false;
    }
    let r = v_matches_at(&v, &w, 0);
    proof {
        if r {
            assert(v@ =~= v@.subrange(0, w@.len() as int));
        } else {
            assert(v@.subrange(0, w@.len() as int) =~= v@);
        }
    }
    r
}

/// `str::strip_prefix`.
pub fn strip_prefix<'a>(s: &'a str, p: &str) -> (r: Option<&'a str>)
    ensures
        p@.is_prefix_of(s@) ==> (r matches Some(t) && t@ == s@.skip(p@.len() as int)),
        !p@.is_prefix_of(s@) ==> r is None,
{
    let v = chars_of(s);
    let pv = chars_of(p);
    if v_matches_at(&v, &pv, 0) {
        Some(s.substring_char(pv.len(), v.len()))
    } else {
        None
    }
}

/// `str::strip_suffix`.
pub fn strip_suffix<'a>(s: &'a str, p: &str) -> (r: Option<&'a str>)
    ensures
        p@.is_suffix_of(s@) ==> (r matches Some(t) && t@ == s@.take(s@.len() - p@.len())),
        !p@.is_suffix_of(s@) ==> r is None,
{
    let v = chars_of(s);
    let pv = chars_of(p);
    if pv.len() > v.len() {
        return None;
    }
    if v_matches_at(&v, &pv, v.len() - pv.len()) {
        Some(s.substring_char(0, v.len() - pv.len()))
    } else {
        None
    }
}

// ---------------------------------------------------------------------------
// Whitespace removal
// ---------------------------------------------------------------------------
/// `s` without its whitespace chars.
pub open spec fn remove_ws(s: Seq<char>) -> Seq<char>
    decreases s.len(),
{
    if s.len() == 0 {
        s
    } else if is_ws(s.last()) {
        remove_ws(s.drop_last())
    } else {
        remove_ws(s.drop_last()).push(s.last())
    }
}

/// `v` without its whitespace chars.
pub fn v_remove_ws(v: &Vec<char>) -> (r: Vec<char>)
    ensures
        r@ == remove_ws(v@),
{
    let mut r: Vec<char> = Vec::new();
    let mut i: usize = 0;
    while i < v.len()
        invariant
            i <= v.len(),
            r@ == remove_ws(v@.take(i as int)),
        decreases v.len() - i,
    {
        assert(v@.take(i + 1).drop_last() =~= v@.take(i as int));
        if !is_whitespace(v[i]) {
            r.push(v[i]);
        }
        i = i + 1;
    }
    assert(v@.take(v.len() as int) =~= v@);
    r
}

/// The text with all whitespace removed.
pub fn compact_ws(text: &str) -> (r: String)
    ensures
        r@ == remove_ws(text@),
{
    let v = chars_of(text);
    let r = v_remove_ws(&v);
    string_from_chars(&r)
}

// ---------------------------------------------------------------------------
// Lines
// ---------------------------------------------------------------------------
/// The index of the first `'\n'` at or after `i` (or the end).
pub open spec fn next_nl(s: Seq<char>, i: int) -> int
    decreases s.len() - i,
{
    if i < 0 || i >= s.len() || s[i] == '\n' {
        i
    } else {
        next_nl(s, i + 1)
    }
}

/// The line that starts at `i` and ends before the newline at `e`.
pub open spec fn line_at(s: Seq<char>, i: int, e: int) -> Seq<char> {
    let seg = s.subrange(i, e);
    if e < s.len() && seg.len() > 0 && seg.last() == '\r' {
        seg.drop_last()
    } else {
        seg
    }
}

/// The lines of `s` from char `i` on.
pub open spec fn lines_from(s: Seq<char>, i: int) -> Seq<Seq<char>>
    decreases s.len() + 1 - i,
{
    if i < 0 || i >= s.len() {
        Seq::empty()
    } else {
        let e = next_nl(s, i);
        if e < i || e > s.len() {
            Seq::empty()
        } else {
            seq![line_at(s, i, e)] + lines_from(s, e + 1)
        }
    }
}

/// What `str::lines` yields: the text split at `\n`, each line without a
/// trailing `\r` that precedes its `\n`, and no empty last line.
pub open spec fn lines(s: Seq<char>) -> Seq<Seq<char>> {
    lines_from(s, 0)
}

pub proof fn lemma_next_nl(s: Seq<char>, i: int)
    requires
        0 <= i <= s.len(),
    ensures
        i <= next_nl(s, i) <= s.len(),
        forall|j: int| i <= j < next_nl(s, i) ==> s[j] != '\n',
        next_nl(s, i) < s.len() ==> s[next_nl(s, i)] == '\n',
    decreases s.len() - i,
{
    if i < s.len() && s[i] != '\n' {
        lemma_next_nl(s, i + 1);
    }
}

/// The parts joined with `sep` between each two (`[&str]::join`).
pub open spec fn join_with(parts: Seq<Seq<char>>, sep: Seq<char>) -> Seq<char>
    decreases parts.len(),
{
    if parts.len() == 0 {
        Seq::empty()
    } else if parts.len() == 1 {
        parts[0]
    } else {
        join_with(parts.drop_last(), sep) + sep + parts.last()
    }
}

/// The pieces `v[a..b]` for the spans `(a, b)`.
pub open spec fn span_pieces(v: Seq<char>, spans: Seq<(usize, usize)>) -> Seq<Seq<char>> {
    spans.map_values(|p: (usize, usize)| v.subrange(p.0 as int, p.1 as int))
}

/// The pieces of `v` at `spans` joined with `sep`.
pub fn join_spans(v: &Vec<char>, spans: &Vec<(usize, usize)>, sep: &str) -> (r: String)
    requires
        forall|k: int| 0 <= k < spans@.len() ==> #[trigger] spans@[k].0 <= spans@[k].1 && spans@[k].1 <= v@.len(),
    ensures
        r@ == join_with(span_pieces(v@, spans@), sep@),
{
    let ghost ps = span_pieces(v@, spans@);
    let mut r = String::new();
    let mut k: usize = 0;
    assert(ps.take(0) =~= Seq::<Seq<char>>::empty());
    while k < spans.len()
        invariant
            ps == span_pieces(v@, spans@),
            forall|k: int| 0 <= k < spans@.len() ==> #[trigger] spans@[k].0 <= spans@[k].1 && spans@[k].1 <= v@.len(),
            k <= spans@.len(),
            r@ == join_with(ps.take(k as int), sep@),
        decreases spans.len() - k,
    {
        if k > 0 {
            push_str(&mut r, sep);
        }
        let (a, b) = spans[k];
        let piece = string_of(v, a, b);
        push_str(&mut r, piece.as_str());
        proof {
            let t = ps.take(k + 1);
            assert(t.drop_last() =~= ps.take(k as int));
            assert(t.last() == v@.subrange(a as int, b as int));
            if k == 0 {
                assert(t.len() == 1);
                assert(r@ =~= t[0]);
            }
        }
        k = k + 1;
    }
    assert(ps.take(spans@.len() as int) =~= ps);
    r
}

/// The spans `(start, end)` of the lines of `v`; line `i` is `v[start..end]`.
pub fn line_spans(v: &Vec<char>) -> (r: Vec<(usize, usize)>)
    ensures
        r@.len() == lines(v@).len(),
        forall|i: int|
            #![trigger r@[i]]
            0 <= i < r@.len() ==> (r@[i].0 <= r@[i].1 && r@[i].1 <= v@.len() && lines(v@)[i]
                == v@.subrange(r@[i].0 as int, r@[i].1 as int)),
{
    let mut r: Vec<(usize, usize)> = Vec::new();
    let mut i: usize = 0;
    while i < v.len()
        invariant
            i <= v.len(),
            r@.len() + lines_from(v@, i as int).len() == lines(v@).len(),
            forall|t: int|
                #![trigger r@[t]]
                0 <= t < r@.len() ==> (r@[t].0 <= r@[t].1 && r@[t].1 <= v@.len() && lines(v@)[t]
                    == v@.subrange(r@[t].0 as int, r@[t].1 as int)),
            forall|t: int|
                0 <= t < lines_from(v@, i as int).len() ==> #[trigger] lines(v@)[r@.len() + t]
                    == lines_from(v@, i as int)[t],
        decreases v.len() - i,
    {
        let mut e = i;
        while e < v.len() && v[e] != '\n'
            invariant
                i <= e <= v.len(),
                next_nl(v@, i as int) == next_nl(v@, e as int),
            decreases v.len() - e,
        {
            e = e + 1;
        }
        proof {
            lemma_next_nl(v@, i as int);
        }
        let ghost rest = lines_from(v@, e + 1);
        let ghost here = line_at(v@, i as int, e as int);
        assert(lines_from(v@, i as int) =~= seq![here] + rest);
        let mut end = e;
        if e < v.len() && e > i && v[e - 1] == '\r' {
            end = e - 1;
        }
        assert(here =~= v@.subrange(i as int, end as int));
        assert(lines_from(v@, i as int).len() > 0);
        assert(lines(v@)[r@.len() + 0int] == lines_from(v@, i as int)[0]);
        assert(lines(v@)[r@.len() as int] == here);
        let ghost old_r = r@;
        r.push((i, end));
        proof {
            assert forall|t: int|
                #![trigger r@[t]]
                0 <= t < r@.len() implies (r@[t].0 <= r@[t].1 && r@[t].1 <= v@.len()
                    && lines(v@)[t] == v@.subrange(r@[t].0 as int, r@[t].1 as int)) by {
                if t < old_r.len() {
                    assert(r@[t] == old_r[t]);
                    assert(lines(v@)[t] == v@.subrange(old_r[t].0 as int, old_r[t].1 as int));
                } else {
                    assert(t == old_r.len());
                    assert(r@[t] == (i, end));
                    assert(i <= end);
                    assert(end <= v@.len());
                    assert(lines(v@)[t] == v@.subrange(i as int, end as int));
                }
            }
            assert forall|t: int| 0 <= t < rest.len() implies #[trigger] lines(v@)[r@.len() + t]
                == rest[t] by {
                assert(lines(v@)[(r@.len() - 1) + (t + 1)] == lines_from(v@, i as int)[t + 1]);
            }
        }
        if e == v.len() {
            i = e;
        } else {
            i = e + 1;
        }
    }
    r
}

} // verus!
