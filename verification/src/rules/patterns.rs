//! Shared helpers for reading common expression shapes out of source text.
//!
//! Each helper works on a range `[a, b)` of the chars of the text, so that what
//! it returns is a slice of its input.
use vstd::prelude::*;
use vstd::string::StrSliceExecFns;
use crate::rules::util::{ident_range, match_paren_from, simple_ident};
use crate::text::{
    chars_of, find, find_from, is_ascii_digit, is_ascii_hex, is_whitespace, is_ws, lead_ws,
    lemma_find_from_some, trail_ws, trim, trim_bounds, trim_start, v_find_from, v_matches_at,
};

verus! {

// ---------------------------------------------------------------------------
// Trimming
// ---------------------------------------------------------------------------
pub open spec fn semi_or_ws(c: char) -> bool {
    c == ';' || is_ws(c)
}

/// Number of trailing `;` and whitespace chars.
pub open spec fn trail_semi(s: Seq<char>) -> nat
    decreases s.len(),
{
    if s.len() == 0 {
        0
    } else if semi_or_ws(s.last()) {
        1 + trail_semi(s.drop_last())
    } else {
        0
    }
}

/// `s` without trailing `;` and whitespace.
pub open spec fn trim_semi_end(s: Seq<char>) -> Seq<char> {
    s.take(s.len() - trail_semi(s))
}

proof fn lemma_trail_semi(s: Seq<char>, k: int)
    requires
        0 <= k <= s.len(),
        forall|j: int| k <= j < s.len() ==> semi_or_ws(#[trigger] s[j]),
        k == 0 || !semi_or_ws(s[k - 1]),
    ensures
        trail_semi(s) == s.len() - k,
    decreases s.len(),
{
    if k < s.len() {
        let t = s.drop_last();
        assert forall|j: int| k <= j < t.len() implies semi_or_ws(#[trigger] t[j]) by {
            assert(t[j] == s[j]);
        }
        if k > 0 {
            assert(t[k - 1] == s[k - 1]);
        }
        lemma_trail_semi(t, k);
    }
}

/// The end of `trim_semi_end(v[a..b])`.
fn trim_semi_end_range(v: &Vec<char>, a: usize, b: usize) -> (r: usize)
    requires
        a <= b <= v.len(),
    ensures
        a <= r <= b,
        v@.subrange(a as int, r as int) == trim_semi_end(v@.subrange(a as int, b as int)),
{
    let mut k = b;
    while k > a && (v[k - 1] == ';' || is_whitespace(v[k - 1]))
        invariant
            a <= k <= b <= v.len(),
            forall|j: int| k <= j < b ==> semi_or_ws(#[trigger] v@[j]),
        decreases k - a,
    {
        k = k - 1;
    }
    proof {
        let s = v@.subrange(a as int, b as int);
        assert forall|j: int| k - a <= j < s.len() implies semi_or_ws(#[trigger] s[j]) by {
            assert(s[j] == v@[a + j]);
        }
        if k > a {
            assert(s[k - a - 1] == v@[k - 1]);
        }
        lemma_trail_semi(s, k - a);
        assert(trim_semi_end(s) =~= v@.subrange(a as int, k as int));
    }
    k
}

/// `s.trim_end_matches(|c| c == ';' || c.is_whitespace())`.
pub fn trim_trailing_semicolon(s: &str) -> (r: &str)
    ensures
        r@ == trim_semi_end(s@),
{
    let v = chars_of(s);
    let b = trim_semi_end_range(&v, 0, v.len());
    assert(v@.subrange(0, v.len() as int) =~= v@);
    s.substring_char(0, b)
}

pub proof fn lemma_ws_counts(s: Seq<char>)
    ensures
        lead_ws(s) <= s.len(),
        trail_ws(s) <= s.len(),
        trim(s).len() <= s.len(),
    decreases s.len(),
{
    if s.len() > 0 {
        lemma_ws_counts(s.subrange(1, s.len() as int));
        lemma_ws_counts(s.drop_last());
        let t = trim_start(s);
        lemma_ws_counts_trail(t);
    }
}

proof fn lemma_ws_counts_trail(s: Seq<char>)
    ensures
        trail_ws(s) <= s.len(),
    decreases s.len(),
{
    if s.len() > 0 {
        lemma_ws_counts_trail(s.drop_last());
    }
}

// ---------------------------------------------------------------------------
// Parentheses
// ---------------------------------------------------------------------------
/// Scanning from `i` at depth `d`: the depth never goes below 0 and ends at 0.
pub open spec fn balanced_from(s: Seq<char>, i: int, d: int) -> bool
    decreases s.len() - i,
{
    if i < 0 || i >= s.len() {
        d == 0
    } else if s[i] == '(' {
        balanced_from(s, i + 1, d + 1)
    } else if s[i] == ')' {
        d >= 1 && balanced_from(s, i + 1, d - 1)
    } else {
        balanced_from(s, i + 1, d)
    }
}

/// Parentheses in `s` are balanced.
pub open spec fn balanced(s: Seq<char>) -> bool {
    balanced_from(s, 0, 0)
}

/// Whether the parentheses of `v[a..b]` are balanced.
fn balanced_range(v: &Vec<char>, a: usize, b: usize) -> (r: bool)
    requires
        a <= b <= v.len(),
    ensures
        r == balanced(v@.subrange(a as int, b as int)),
{
    let ghost s = v@.subrange(a as int, b as int);
    let mut depth: usize = 0;
    let mut i = a;
    while i < b
        invariant
            a <= i <= b <= v.len(),
            s == v@.subrange(a as int, b as int),
            depth <= i - a,
            balanced(s) == balanced_from(s, i - a, depth as int),
        decreases b - i,
    {
        let c = v[i];
        assert(s[i - a] == c);
        if c == '(' {
            depth = depth + 1;
        } else if c == ')' {
            if depth == 0 {
                return false;
            }
            depth = depth - 1;
        }
        i = i + 1;
    }
    depth == 0
}

/// Whether the parentheses of `s` are balanced.
pub fn is_parentheses_balanced(s: &str) -> (r: bool)
    ensures
        r == balanced(s@),
{
    let v = chars_of(s);
    assert(v@.subrange(0, v.len() as int) =~= v@);
    balanced_range(&v, 0, v.len())
}

/// `s` trimmed, then, while it is `( .. )` around balanced text, that text trimmed.
pub open spec fn strip_parens(s: Seq<char>) -> Seq<char>
    decreases s.len(),
{
    let t = trim(s);
    if t.len() >= 2 && t[0] == '(' && t[t.len() - 1] == ')' && balanced(t.subrange(1, t.len() - 1)) {
        proof {
            lemma_ws_counts(s);
        }
        strip_parens(t.subrange(1, t.len() - 1))
    } else {
        t
    }
}

/// The bounds of `strip_parens(v[a..b])` in `v`.
fn strip_parens_range(v: &Vec<char>, a: usize, b: usize) -> (r: (usize, usize))
    requires
        a <= b <= v.len(),
    ensures
        a <= r.0 <= r.1 <= b,
        v@.subrange(r.0 as int, r.1 as int) == strip_parens(v@.subrange(a as int, b as int)),
{
    let mut x = a;
    let mut y = b;
    loop
        invariant
            a <= x <= y <= b <= v.len(),
            strip_parens(v@.subrange(a as int, b as int)) == strip_parens(v@.subrange(x as int, y as int)),
        decreases y - x,
    {
        let (ta, tb) = trim_bounds(v, x, y);
        let ghost t = v@.subrange(ta as int, tb as int);
        if tb - ta >= 2 && v[ta] == '(' && v[tb - 1] == ')' && balanced_range(v, ta + 1, tb - 1) {
            proof {
                assert(t[0] == v@[ta as int]);
                assert(t[t.len() - 1] == v@[tb - 1]);
                assert(t.subrange(1, t.len() - 1) =~= v@.subrange(ta + 1, tb - 1));
            }
            x = ta + 1;
            y = tb - 1;
        } else {
            proof {
                if tb - ta >= 2 {
                    assert(t[0] == v@[ta as int]);
                    assert(t[t.len() - 1] == v@[tb - 1]);
                    assert(t.subrange(1, t.len() - 1) =~= v@.subrange(ta + 1, tb - 1));
                }
            }
            return (ta, tb);
        }
    }
}

/// `s` trimmed with balanced outer parentheses removed.
pub fn strip_balanced_parens(s: &str) -> (r: &str)
    ensures
        r@ == strip_parens(s@),
{
    let v = chars_of(s);
    let (a, b) = strip_parens_range(&v, 0, v.len());
    assert(v@.subrange(0, v.len() as int) =~= v@);
    s.substring_char(a, b)
}

// ---------------------------------------------------------------------------
// assert!
// ---------------------------------------------------------------------------
/// The first `,` at bracket depth 0 from `i` on (a closing bracket at depth 0 keeps it at 0).
pub open spec fn top_comma(s: Seq<char>, i: int, d: int) -> Option<int>
    decreases s.len() - i,
{
    if i < 0 || i >= s.len() {
        None
    } else if s[i] == '(' || s[i] == '[' || s[i] == '{' {
        top_comma(s, i + 1, d + 1)
    } else if s[i] == ')' || s[i] == ']' || s[i] == '}' {
        top_comma(s, i + 1, if d > 0 { d - 1 } else { 0 })
    } else if s[i] == ',' && d == 0 {
        Some(i)
    } else {
        top_comma(s, i + 1, d)
    }
}

proof fn lemma_top_comma_bound(s: Seq<char>, i: int, d: int)
    ensures
        top_comma(s, i, d) matches Some(k) ==> i <= k < s.len(),
    decreases s.len() - i,
{
    if 0 <= i < s.len() {
        lemma_top_comma_bound(s, i + 1, d + 1);
        lemma_top_comma_bound(s, i + 1, d);
        lemma_top_comma_bound(s, i + 1, if d > 0 { d - 1 } else { 0 });
    }
}

/// What `extract_assert_condition` returns.
pub open spec fn assert_condition(text: Seq<char>) -> Option<Seq<char>> {
    match find(text, "assert!"@) {
        None => None,
        Some(p) => {
            let rest = trim_semi_end(trim_start(text.skip(p + 7)));
            if rest.len() == 0 || rest[0] != '(' {
                None
            } else {
                match match_paren_from(rest, 0, 0) {
                    None => None,
                    Some(c) => {
                        let inner = trim(rest.subrange(1, c));
                        match top_comma(inner, 0, 0) {
                            Some(i) => Some(strip_parens(trim(inner.take(i)))),
                            None => Some(strip_parens(inner)),
                        }
                    },
                }
            }
        },
    }
}

/// The index (in `v`) of the `)` that closes the `(` at `a`, within `v[a..b]`.
fn match_paren_range(v: &Vec<char>, a: usize, b: usize) -> (r: Option<usize>)
    requires
        a <= b <= v.len(),
    ensures
        match match_paren_from(v@.subrange(a as int, b as int), 0, 0) {
            Some(c) => r == Some((a + c) as usize),
            None => r is None,
        },
{
    let ghost s = v@.subrange(a as int, b as int);
    let mut depth: usize = 0;
    let mut i = a;
    while i < b
        invariant
            a <= i <= b <= v.len(),
            s == v@.subrange(a as int, b as int),
            depth <= i - a,
            match_paren_from(s, 0, 0) == match_paren_from(s, i - a, depth as int),
        decreases b - i,
    {
        let c = v[i];
        assert(s[i - a] == c);
        if c == '(' {
            depth = depth + 1;
        } else if c == ')' {
            if depth == 0 {
                return None;
            }
            if depth == 1 {
                return Some(i);
            }
            depth = depth - 1;
        }
        i = i + 1;
    }
    None
}

/// The index (in `v`) of the first top-level `,` of `v[a..b]`.
fn top_comma_range(v: &Vec<char>, a: usize, b: usize) -> (r: Option<usize>)
    requires
        a <= b <= v.len(),
    ensures
        match top_comma(v@.subrange(a as int, b as int), 0, 0) {
            Some(c) => r == Some((a + c) as usize),
            None => r is None,
        },
{
    let ghost s = v@.subrange(a as int, b as int);
    let mut depth: usize = 0;
    let mut i = a;
    while i < b
        invariant
            a <= i <= b <= v.len(),
            s == v@.subrange(a as int, b as int),
            depth <= i - a,
            top_comma(s, 0, 0) == top_comma(s, i - a, depth as int),
        decreases b - i,
    {
        let c = v[i];
        assert(s[i - a] == c);
        if c == '(' || c == '[' || c == '{' {
            depth = depth + 1;
        } else if c == ')' || c == ']' || c == '}' {
            depth = if depth > 0 {
                depth - 1
            } else {
                0
            };
        } else if c == ',' && depth == 0 {
            return Some(i);
        }
        i = i + 1;
    }
    None
}

/// Extract the condition expression from `assert!(cond)` forms.
pub fn extract_assert_condition(text: &str) -> (r: Option<&str>)
    ensures
        match r {
            Some(x) => assert_condition(text@) == Some(x@),
            None => assert_condition(text@) is None,
        },
{
    let v = chars_of(text);
    let pat = chars_of("assert!");
    proof {
        reveal_strlit("assert!");
    }
    let p = match v_find_from(&v, &pat, 0) {
        Some(p) => p,
        None => {
            return None;
        },
    };
    proof {
        lemma_find_from_some(v@, "assert!"@, 0);
        assert("assert!"@.len() == 7);
    }
    let start = p + 7;
    let a = crate::text::skip_ws_forward(&v, start, v.len());
    proof {
        let u = v@.skip(start as int);
        assert forall|j: int| 0 <= j < a - start implies is_ws(#[trigger] u[j]) by {
            assert(u[j] == v@[start + j]);
        }
        if a < v.len() {
            assert(u[a - start] == v@[a as int]);
        }
        crate::text::lemma_lead_ws(u, a - start);
        assert(trim_start(u) =~= v@.subrange(a as int, v.len() as int));
    }
    let b = trim_semi_end_range(&v, a, v.len());
    let ghost rest = v@.subrange(a as int, b as int);
    if a == b || v[a] != '(' {
        proof {
            if a < b {
                assert(rest[0] == v@[a as int]);
            }
        }
        return None;
    }
    assert(rest[0] == v@[a as int]);
    let close = match match_paren_range(&v, a, b) {
        Some(c) => c,
        None => {
            return None;
        },
    };
    proof {
        crate::rules::util::lemma_match_paren_bound_pub(rest, 0, 0);
        assert(rest.subrange(1, close - a) =~= v@.subrange(a + 1, close as int));
    }
    let (ia, ib) = trim_bounds(&v, a + 1, close);
    let ghost inner = v@.subrange(ia as int, ib as int);
    proof {
        lemma_top_comma_bound(inner, 0, 0);
    }
    match top_comma_range(&v, ia, ib) {
        Some(i) => {
            let (ca, cb) = trim_bounds(&v, ia, i);
            assert(inner.take(i - ia) =~= v@.subrange(ia as int, i as int));
            let (sa, sb) = strip_parens_range(&v, ca, cb);
            Some(text.substring_char(sa, sb))
        },
        None => {
            let (sa, sb) = strip_parens_range(&v, ia, ib);
            Some(text.substring_char(sa, sb))
        },
    }
}

// ---------------------------------------------------------------------------
// Simple expressions
// ---------------------------------------------------------------------------
/// Every part of `t` between occurrences of `sep` is a simple identifier (trimmed).
pub open spec fn parts_are_idents(t: Seq<char>, sep: Seq<char>) -> bool
    decreases t.len(),
    when sep.len() > 0
{
    match find(t, sep) {
        None => simple_ident(trim(t)),
        Some(p) => {
            proof {
                lemma_find_from_some(t, sep, 0);
            }
            simple_ident(trim(t.take(p))) && parts_are_idents(t.skip(p + sep.len()), sep)
        },
    }
}

/// All chars of `s` satisfy ASCII digit.
pub open spec fn all_digits(s: Seq<char>) -> bool {
    forall|i: int| 0 <= i < s.len() ==> is_ascii_digit(#[trigger] s[i])
}

/// All chars of `s` are ASCII hex digits.
pub open spec fn all_hex(s: Seq<char>) -> bool {
    forall|i: int| 0 <= i < s.len() ==> is_ascii_hex(#[trigger] s[i])
}

/// A conservative notion of a simple expression: an identifier, a path or
/// field chain of identifiers, a number, or a boolean literal.
pub open spec fn simple_expr(e: Seq<char>) -> bool {
    let t = trim(e);
    if t.len() == 0 {
        false
    } else if simple_ident(t) {
        true
    } else if crate::text::contains(t, "."@) && !crate::text::contains(t, "("@) {
        parts_are_idents(t, "."@)
    } else if crate::text::contains(t, "::"@) && !crate::text::contains(t, "("@) {
        parts_are_idents(t, "::"@)
    } else if all_digits(t) {
        true
    } else if "0x"@.is_prefix_of(t) || "0X"@.is_prefix_of(t) {
        t.len() > 2 && all_hex(t.skip(2))
    } else {
        t == "true"@ || t == "false"@
    }
}

/// Whether the parts of `v[a..b]` around `sep` are all identifiers.
fn parts_are_idents_range(v: &Vec<char>, a: usize, b: usize, sep: &Vec<char>) -> (r: bool)
    requires
        a <= b <= v.len(),
        sep@.len() > 0,
    ensures
        r == parts_are_idents(v@.subrange(a as int, b as int), sep@),
{
    let mut x = a;
    loop
        invariant
            a <= x <= b <= v.len(),
            sep@.len() > 0,
            parts_are_idents(v@.subrange(a as int, b as int), sep@) == parts_are_idents(
                v@.subrange(x as int, b as int),
                sep@,
            ),
        decreases b - x,
    {
        let ghost t = v@.subrange(x as int, b as int);
        let sub = slice_vec(v, x, b);
        assert(sub@ == t);
        match v_find_from(&sub, sep, 0) {
            None => {
                let (ta, tb) = trim_bounds(v, x, b);
                return ident_range(v, ta, tb);
            },
            Some(p) => {
                proof {
                    lemma_find_from_some(t, sep@, 0);
                }
                let (ta, tb) = trim_bounds(v, x, x + p);
                assert(t.take(p as int) =~= v@.subrange(x as int, x + p));
                if !ident_range(v, ta, tb) {
                    return false;
                }
                assert(t.skip(p + sep@.len()) =~= v@.subrange(x + p + sep@.len(), b as int));
                x = x + p + sep.len();
            },
        }
    }
}

/// A copy of `v[a..b]`.
pub fn slice_vec(v: &Vec<char>, a: usize, b: usize) -> (r: Vec<char>)
    requires
        a <= b <= v.len(),
    ensures
        r@ == v@.subrange(a as int, b as int),
{
    let mut r: Vec<char> = Vec::new();
    let mut i = a;
    while i < b
        invariant
            a <= i <= b <= v.len(),
            r@ == v@.subrange(a as int, i as int),
        decreases b - i,
    {
        r.push(v[i]);
        assert(v@.subrange(a as int, i + 1) =~= v@.subrange(a as int, i as int).push(v@[i as int]));
        i = i + 1;
    }
    r
}

/// Whether `v[a..b]` is a simple expression.
fn simple_expr_range(v: &Vec<char>, a: usize, b: usize) -> (r: bool)
    requires
        a <= b <= v.len(),
    ensures
        r == simple_expr(v@.subrange(a as int, b as int)),
{
    let (x, y) = trim_bounds(v, a, b);
    let ghost t = v@.subrange(x as int, y as int);
    let dot = chars_of(".");
    let lp = chars_of("(");
    let cc = chars_of("::");
    let hx = chars_of("0x");
    let hx2 = chars_of("0X");
    let tv = chars_of("true");
    let fv = chars_of("false");
    proof {
        reveal_strlit(".");
        reveal_strlit("::");
        reveal_strlit("0x");
        reveal_strlit("0X");
        assert("."@.len() == 1);
        assert("::"@.len() == 2);
        assert("0x"@.len() == 2);
        assert("0X"@.len() == 2);
    }
    if x == y {
        return false;
    }
    if ident_range(v, x, y) {
        return true;
    }
    let sub = slice_vec(v, x, y);
    let has_dot = v_find_from(&sub, &dot, 0).is_some();
    let has_paren = v_find_from(&sub, &lp, 0).is_some();
    let has_colons = v_find_from(&sub, &cc, 0).is_some();
    proof {
        lemma_find_from_some(t, "."@, 0);
        lemma_find_from_some(t, "("@, 0);
        lemma_find_from_some(t, "::"@, 0);
        if crate::text::contains(t, "."@) {
            let i = choose|i: int| crate::text::matches_at(t, "."@, i);
        }
        if crate::text::contains(t, "("@) {
            let i = choose|i: int| crate::text::matches_at(t, "("@, i);
        }
        if crate::text::contains(t, "::"@) {
            let i = choose|i: int| crate::text::matches_at(t, "::"@, i);
        }
    }
    assert(has_dot == crate::text::contains(t, "."@));
    assert(has_paren == crate::text::contains(t, "("@));
    assert(has_colons == crate::text::contains(t, "::"@));
    if has_dot && !has_paren {
        return parts_are_idents_range(v, x, y, &dot);
    }
    if has_colons && !has_paren {
        return parts_are_idents_range(v, x, y, &cc);
    }
    let mut i = x;
    while i < y && '0' <= v[i] && v[i] <= '9'
        invariant
            x <= i <= y <= v.len(),
            t == v@.subrange(x as int, y as int),
            forall|j: int| 0 <= j < i - x ==> is_ascii_digit(#[trigger] t[j]),
        decreases y - i,
    {
        assert(t[i - x] == v@[i as int]);
        i = i + 1;
    }
    if i == y {
        return true;
    }
    assert(t[i - x] == v@[i as int]);
    if v_matches_at(&sub, &hx, 0) || v_matches_at(&sub, &hx2, 0) {
        proof {
            assert("0x"@.is_prefix_of(t) == crate::text::matches_at(t, "0x"@, 0));
            assert("0X"@.is_prefix_of(t) == crate::text::matches_at(t, "0X"@, 0));
        }
        if y - x <= 2 {
            return false;
        }
        let mut k = x + 2;
        while k < y && (('0' <= v[k] && v[k] <= '9') || ('a' <= v[k] && v[k] <= 'f') || ('A' <= v[k] && v[k] <= 'F'))
            invariant
                x + 2 <= k <= y <= v.len(),
                t == v@.subrange(x as int, y as int),
                forall|j: int| 0 <= j < k - x - 2 ==> is_ascii_hex(#[trigger] t.skip(2)[j]),
            decreases y - k,
        {
            assert(t.skip(2)[k - x - 2] == v@[k as int]);
            k = k + 1;
        }
        if k < y {
            assert(t.skip(2)[k - x - 2] == v@[k as int]);
        }
        return k == y;
    }
    proof {
        assert("0x"@.is_prefix_of(t) == crate::text::matches_at(t, "0x"@, 0));
        assert("0X"@.is_prefix_of(t) == crate::text::matches_at(t, "0X"@, 0));
    }
    let is_true = sub.len() == tv.len() && v_matches_at(&sub, &tv, 0);
    let is_false = sub.len() == fv.len() && v_matches_at(&sub, &fv, 0);
    proof {
        if sub.len() == tv.len() {
            assert(t.subrange(0, tv@.len() as int) =~= t);
        }
        if sub.len() == fv.len() {
            assert(t.subrange(0, fv@.len() as int) =~= t);
        }
    }
    is_true || is_false
}

/// Conservative check for simple expressions (identifiers, literals, field access).
pub fn is_simple_expression(expr: &str) -> (r: bool)
    ensures
        r == simple_expr(expr@),
{
    let v = chars_of(expr);
    assert(v@.subrange(0, v.len() as int) =~= v@);
    simple_expr_range(&v, 0, v.len())
}

/// What `is_simple_equality_comparison` answers: exactly one `==`, with a
/// simple expression on each side.
pub open spec fn simple_equality(e: Seq<char>) -> bool {
    match find(e, "=="@) {
        None => false,
        Some(p) => find_from(e, "=="@, p + 2) is None && simple_expr(e.take(p)) && simple_expr(
            e.skip(p + 2),
        ),
    }
}

/// Return true if the expression is a simple equality comparison.
pub fn is_simple_equality_comparison(expr: &str) -> (r: bool)
    ensures
        r == simple_equality(expr@),
{
    let v = chars_of(expr);
    let eq = chars_of("==");
    proof {
        reveal_strlit("==");
        assert("=="@.len() == 2);
    }
    let p = match v_find_from(&v, &eq, 0) {
        Some(p) => p,
        None => {
            return false;
        },
    };
    proof {
        lemma_find_from_some(v@, "=="@, 0);
    }
    if v_find_from(&v, &eq, p + 2).is_some() {
        return false;
    }
    assert(v@.take(p as int) =~= v@.subrange(0, p as int));
    assert(v@.skip(p + 2) =~= v@.subrange(p + 2, v.len() as int));
    simple_expr_range(&v, 0, p) && simple_expr_range(&v, p + 2, v.len())
}

// ---------------------------------------------------------------------------
// Option and loop shapes
// ---------------------------------------------------------------------------
/// What `extract_is_some_receiver` returns.
pub open spec fn is_some_receiver(c: Seq<char>) -> Option<Seq<char>> {
    let t = strip_parens(trim_semi_end(c));
    if ".is_some()"@.is_suffix_of(t) && simple_ident(trim(t.take(t.len() - ".is_some()"@.len()))) {
        Some(trim(t.take(t.len() - ".is_some()"@.len())))
    } else {
        None
    }
}

/// Extract the receiver from `foo.is_some()` style expressions.
pub fn extract_is_some_receiver(condition: &str) -> (r: Option<&str>)
    ensures
        match r {
            Some(x) => is_some_receiver(condition@) == Some(x@),
            None => is_some_receiver(condition@) is None,
        },
{
    let v = chars_of(condition);
    let b0 = trim_semi_end_range(&v, 0, v.len());
    assert(v@.subrange(0, v.len() as int) =~= v@);
    let (a, b) = strip_parens_range(&v, 0, b0);
    let ghost t = v@.subrange(a as int, b as int);
    let suf = chars_of(".is_some()");
    if b - a < suf.len() {
        return None;
    }
    let sub = slice_vec(&v, a, b);
    if !v_matches_at(&sub, &suf, b - a - suf.len()) {
        return None;
    }
    assert(t.take(t.len() - suf@.len()) =~= v@.subrange(a as int, b - suf@.len()));
    let (x, y) = trim_bounds(&v, a, b - suf.len());
    if ident_range(&v, x, y) {
        Some(condition.substring_char(x, y))
    } else {
        None
    }
}

/// What `parse_length_comparison` returns: the index and the vector of `i < v.length()`.
pub open spec fn length_comparison(c: Seq<char>) -> Option<(Seq<char>, Seq<char>)> {
    let t = strip_parens(trim_semi_end(c));
    match find(t, "<"@) {
        None => None,
        Some(p) => if find_from(t, "<"@, p + 1) is Some {
            None
        } else {
            let iv = trim(t.take(p));
            let lc = trim(t.skip(p + 1));
            if ".length()"@.is_suffix_of(lc) {
                let vv = trim(lc.take(lc.len() - ".length()"@.len()));
                if simple_ident(iv) && simple_ident(vv) {
                    Some((iv, vv))
                } else {
                    None
                }
            } else {
                None
            }
        },
    }
}

/// Parse comparisons like `i < vec.length()` into iterator and collection names.
pub fn parse_length_comparison(condition: &str) -> (r: Option<(&str, &str)>)
    ensures
        match r {
            Some((i, c)) => length_comparison(condition@) == Some((i@, c@)),
            None => length_comparison(condition@) is None,
        },
{
    let v = chars_of(condition);
    let b0 = trim_semi_end_range(&v, 0, v.len());
    assert(v@.subrange(0, v.len() as int) =~= v@);
    let (a, b) = strip_parens_range(&v, 0, b0);
    let ghost t = v@.subrange(a as int, b as int);
    let sub = slice_vec(&v, a, b);
    let lt = chars_of("<");
    proof {
        reveal_strlit("<");
        assert("<"@.len() == 1);
    }
    let p = match v_find_from(&sub, &lt, 0) {
        Some(p) => p,
        None => {
            return None;
        },
    };
    proof {
        lemma_find_from_some(t, "<"@, 0);
    }
    if v_find_from(&sub, &lt, p + 1).is_some() {
        return None;
    }
    let (ia, ib) = trim_bounds(&v, a, a + p);
    assert(t.take(p as int) =~= v@.subrange(a as int, a + p));
    let (la, lb) = trim_bounds(&v, a + p + 1, b);
    assert(t.skip(p + 1) =~= v@.subrange(a + p + 1, b as int));
    let ghost lc = v@.subrange(la as int, lb as int);
    let suf = chars_of(".length()");
    if lb - la < suf.len() {
        return None;
    }
    let lsub = slice_vec(&v, la, lb);
    if !v_matches_at(&lsub, &suf, lb - la - suf.len()) {
        return None;
    }
    let (va, vb) = trim_bounds(&v, la, lb - suf.len());
    assert(lc.take(lc.len() - suf@.len()) =~= v@.subrange(la as int, lb - suf@.len()));
    if ident_range(&v, ia, ib) && ident_range(&v, va, vb) {
        Some((condition.substring_char(ia, ib), condition.substring_char(va, vb)))
    } else {
        None
    }
}

} // verus!
