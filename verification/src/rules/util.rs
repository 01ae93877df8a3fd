//! Small text and tree helpers shared by the lint rules.
use vstd::prelude::*;
use vstd::string::StrSliceExecFns;
use crate::syntax::{text_of, SourceText, SyntaxTree};
use crate::text::{
    byte_len, chars_of, contains, ends_with, find, find_from, is_ascii_alnum, is_ascii_alpha,
    is_ws, is_whitespace, lemma_byte_len_take_mono, push_str, starts_with, str_contains, str_eq,
    strip_prefix, trim, trim_bounds, trim_str, utf8_width, v_find_from,
};

verus! {

// ---------------------------------------------------------------------------
// Identifiers and attributes
// ---------------------------------------------------------------------------
/// An ASCII identifier: a letter or `_`, then letters, digits or `_`.
pub open spec fn simple_ident(s: Seq<char>) -> bool {
    &&& s.len() > 0
    &&& (s[0] == '_' || is_ascii_alpha(s[0]))
    &&& forall|i: int| 1 <= i < s.len() ==> (#[trigger] s[i] == '_' || is_ascii_alnum(s[i]))
}

/// Whether `v[a..b]` is a simple identifier.
pub fn ident_range(v: &Vec<char>, a: usize, b: usize) -> (r: bool)
    requires
        a <= b <= v.len(),
    ensures
        r == simple_ident(v@.subrange(a as int, b as int)),
{
    let ghost s = v@.subrange(a as int, b as int);
    if a == b {
        return false;
    }
    let first = v[a];
    assert(s[0] == first);
    if !(first == '_' || ('a' <= first && first <= 'z') || ('A' <= first && first <= 'Z')) {
        return false;
    }
    let mut i = a + 1;
    while i < b
        invariant
            a < i <= b <= v.len(),
            s == v@.subrange(a as int, b as int),
            forall|j: int| 1 <= j < i - a ==> (#[trigger] s[j] == '_' || is_ascii_alnum(s[j])),
        decreases b - i,
    {
        let c = v[i];
        assert(s[i - a] == c);
        if !(c == '_' || ('a' <= c && c <= 'z') || ('A' <= c && c <= 'Z') || ('0' <= c && c <= '9')) {
            return false;
        }
        i = i + 1;
    }
    true
}

/// Whether `text` is a simple identifier.
pub fn is_simple_ident(text: &str) -> (r: bool)
    ensures
        r == simple_ident(text@),
{
    let v = chars_of(text);
    assert(v@.subrange(0, v.len() as int) =~= v@);
    ident_range(&v, 0, v.len())
}

/// Only simple identifiers are safe receivers for a method-call rewrite.
pub fn is_simple_receiver(receiver: &str) -> (r: bool)
    ensures
        r == simple_ident(receiver@),
{
    is_simple_ident(receiver)
}

/// The attribute is exactly `#[test]`.
pub fn is_exact_test_attr(text: &str) -> (r: bool)
    ensures
        r == (trim(text@) == "#[test]"@),
{
    str_eq(trim_str(text), "#[test]")
}

/// The attribute is an `#[expected_failure...]` without arguments after a comma.
pub fn is_expected_failure_attr(text: &str) -> (r: bool)
    ensures
        r == ("#[expected_failure"@.is_prefix_of(trim(text@)) && "]"@.is_suffix_of(trim(text@))
            && !contains(trim(text@), ","@)),
{
    let t = trim_str(text);
    starts_with(t, "#[expected_failure") && ends_with(t, "]") && !str_contains(t, ",")
}

/// Every char of `s` is whitespace.
pub open spec fn all_ws(s: Seq<char>) -> bool {
    forall|i: int| 0 <= i < s.len() ==> is_ws(#[trigger] s[i])
}

/// The bytes `[start, end)` of the source hold only whitespace (a range that
/// is not a valid slice counts as empty).
pub fn is_only_whitespace_between(source: &SourceText, start: usize, end: usize) -> (r: bool)
    ensures
        r == all_ws(text_of(source@, start, end)),
{
    let t = source.slice(start, end);
    let v = chars_of(t.as_str());
    let mut i: usize = 0;
    while i < v.len()
        invariant
            v@ == text_of(source@, start, end),
            i <= v.len(),
            forall|j: int| 0 <= j < i ==> is_ws(#[trigger] v@[j]),
        decreases v.len() - i,
    {
        if !is_whitespace(v[i]) {
            return false;
        }
        i = i + 1;
    }
    true
}

// ---------------------------------------------------------------------------
// References
// ---------------------------------------------------------------------------
/// What `parse_ref_mut_ident` returns: the identifier after `&mut`.
pub open spec fn ref_mut_ident(arg: Seq<char>) -> Option<Seq<char>> {
    let t = trim(arg);
    if "&mut"@.is_prefix_of(t) && simple_ident(trim(t.skip("&mut"@.len() as int))) {
        Some(trim(t.skip("&mut"@.len() as int)))
    } else {
        None
    }
}

/// The identifier of a `&mut x` argument.
pub fn parse_ref_mut_ident(arg: &str) -> (r: Option<&str>)
    ensures
        match r {
            Some(x) => ref_mut_ident(arg@) == Some(x@),
            None => ref_mut_ident(arg@) is None,
        },
{
    let t = trim_str(arg);
    let rest = match strip_prefix(t, "&mut") {
        Some(x) => trim_str(x),
        None => {
            return None;
        },
    };
    if is_simple_ident(rest) {
        Some(rest)
    } else {
        None
    }
}

/// What `parse_ref_ident` returns: the identifier after `&` (not `&mut`).
pub open spec fn ref_ident(arg: Seq<char>) -> Option<Seq<char>> {
    let t = trim(arg);
    if !"&mut"@.is_prefix_of(t) && "&"@.is_prefix_of(t) && simple_ident(trim(t.skip("&"@.len() as int))) {
        Some(trim(t.skip("&"@.len() as int)))
    } else {
        None
    }
}

/// The identifier of a `&x` argument.
pub fn parse_ref_ident(arg: &str) -> (r: Option<&str>)
    ensures
        match r {
            Some(x) => ref_ident(arg@) == Some(x@),
            None => ref_ident(arg@) is None,
        },
{
    let t = trim_str(arg);
    if starts_with(t, "&mut") {
        return None;
    }
    let rest = match strip_prefix(t, "&") {
        Some(x) => trim_str(x),
        None => {
            return None;
        },
    };
    if is_simple_ident(rest) {
        Some(rest)
    } else {
        None
    }
}

// ---------------------------------------------------------------------------
// Braces and calls
// ---------------------------------------------------------------------------
/// What `extract_braced_items` returns: the text between the first `{` and the next `}`.
pub open spec fn braced_items(s: Seq<char>) -> Option<Seq<char>> {
    match find(s, "{"@) {
        None => None,
        Some(o) => match find_from(s, "}"@, o + 1) {
            None => None,
            Some(c) => Some(s.subrange(o + 1, c)),
        },
    }
}

/// The text between the first `{` and the `}` after it.
pub fn extract_braced_items(text: &str) -> (r: Option<&str>)
    ensures
        match r {
            Some(x) => braced_items(text@) == Some(x@),
            None => braced_items(text@) is None,
        },
{
    let v = chars_of(text);
    proof {
        reveal_strlit("{");
        reveal_strlit("}");
        assert(seq!['{'] =~= "{"@);
        assert(seq!['}'] =~= "}"@);
    }
    let lb = chars_of("{");
    let rb = chars_of("}");
    let open = match v_find_from(&v, &lb, 0) {
        Some(o) => o,
        None => {
            return None;
        },
    };
    proof {
        crate::text::lemma_find_from_some(v@, "{"@, 0);
    }
    let close = match v_find_from(&v, &rb, open + 1) {
        Some(c) => c,
        None => {
            return None;
        },
    };
    proof {
        crate::text::lemma_find_from_some(v@, "}"@, open + 1);
    }
    Some(text.substring_char(open + 1, close))
}

/// Scanning from char `j` at paren depth `d`: the char index of the `)` that
/// brings the depth back to 0 (None when a `)` comes at depth 0 or none does).
pub open spec fn match_paren_from(s: Seq<char>, j: int, d: int) -> Option<int>
    decreases s.len() - j,
{
    if j < 0 || j >= s.len() {
        None
    } else if s[j] == '(' {
        match_paren_from(s, j + 1, d + 1)
    } else if s[j] == ')' {
        if d == 0 {
            None
        } else if d == 1 {
            Some(j)
        } else {
            match_paren_from(s, j + 1, d - 1)
        }
    } else {
        match_paren_from(s, j + 1, d)
    }
}

pub proof fn lemma_match_paren_bound_pub(s: Seq<char>, j: int, d: int)
    ensures
        match_paren_from(s, j, d) matches Some(k) ==> j <= k < s.len() && s[k] == ')',
{
    lemma_match_paren_bound(s, j, d);
}

proof fn lemma_match_paren_bound(s: Seq<char>, j: int, d: int)
    ensures
        match_paren_from(s, j, d) matches Some(k) ==> j <= k < s.len() && s[k] == ')',
    decreases s.len() - j,
{
    if 0 <= j < s.len() {
        lemma_match_paren_bound(s, j + 1, d + 1);
        lemma_match_paren_bound(s, j + 1, d);
        lemma_match_paren_bound(s, j + 1, d - 1);
    }
}

/// The byte offset of the `)` matching the first `(` met when scanning `text`
/// from char `open` on (the scan skips `open` chars).
pub fn find_matching_paren(text: &str, open: usize) -> (r: Option<usize>)
    ensures
        match match_paren_from(text@, open as int, 0) {
            Some(k) => r == Some(byte_len(text@.take(k)) as usize),
            None => r is None,
        },
{
    let v = chars_of(text);
    let ghost s = v@;
    if open >= v.len() {
        return None;
    }
    let mut depth: usize = 0;
    let mut byte: usize = 0;
    let mut k: usize = 0;
    let total = crate::text::byte_length(text);
    while k < open
        invariant
            s == v@,
            s == text@,
            k <= open < v.len(),
            byte == byte_len(s.take(k as int)),
            total == byte_len(s),
        decreases open - k,
    {
        proof {
            lemma_byte_len_take_mono(s, k + 1, s.len() as int);
            assert(s.take(s.len() as int) =~= s);
            assert(s.take(k + 1).drop_last() =~= s.take(k as int));
        }
        byte = byte + utf8_width(v[k]);
        k = k + 1;
    }
    while k < v.len()
        invariant
            s == v@,
            s == text@,
            open <= k <= v.len(),
            byte == byte_len(s.take(k as int)),
            total == byte_len(s),
            depth <= k,
            match_paren_from(s, open as int, 0) == match_paren_from(s, k as int, depth as int),
        decreases v.len() - k,
    {
        proof {
            lemma_byte_len_take_mono(s, k + 1, s.len() as int);
            assert(s.take(s.len() as int) =~= s);
            assert(s.take(k + 1).drop_last() =~= s.take(k as int));
        }
        let c = v[k];
        if c == '(' {
            depth = depth + 1;
        } else if c == ')' {
            if depth == 0 {
                return None;
            }
            if depth == 1 {
                return Some(byte);
            }
            depth = depth - 1;
        }
        byte = byte + utf8_width(c);
        k = k + 1;
    }
    None
}

/// What `split_call` returns: the callee and the arguments of a call that
/// ends the text.
pub open spec fn call_parts(s: Seq<char>) -> Option<(Seq<char>, Seq<char>)> {
    match find(s, "("@) {
        None => None,
        Some(k) => match match_paren_from(s, byte_len(s.take(k)) as int, 0) {
            None => None,
            Some(m) => if trim(s.skip(m + 1)).len() == 0 {
                Some((trim(s.take(k)), s.subrange(k + 1, m)))
            } else {
                None
            },
        },
    }
}

/// Splits `callee(args)` into callee and arguments.
pub fn split_call(text: &str) -> (r: Option<(&str, &str)>)
    ensures
        match r {
            Some((c, a)) => call_parts(text@) == Some((c@, a@)),
            None => call_parts(text@) is None,
        },
{
    let v = chars_of(text);
    let ghost s = v@;
    proof {
        reveal_strlit("(");
        assert(seq!['('] =~= "("@);
    }
    let lp = chars_of("(");
    let k = match v_find_from(&v, &lp, 0) {
        Some(k) => k,
        None => {
            return None;
        },
    };
    let total = crate::text::byte_length(text);
    proof {
        crate::text::lemma_find_from_some(s, "("@, 0);
        assert(s.subrange(k as int, k + 1) =~= "("@);
        assert(s.subrange(k as int, k + 1)[0] == s[k as int]);
        assert(s[k as int] == '(');
        lemma_byte_len_take_mono(s, k as int, s.len() as int);
        assert(s.take(s.len() as int) =~= s);
    }
    let open = byte_of_index(&v, k);
    let close = match find_matching_paren(text, open) {
        Some(c) => c,
        None => {
            return None;
        },
    };
    let ghost m = match_paren_from(s, open as int, 0)->0;
    proof {
        lemma_match_paren_bound(s, open as int, 0);
        lemma_byte_len_take_mono(s, m, s.len() as int);
        lemma_match_paren_bound(s, open as int, 0);
        lemma_byte_len_take_mono(s, 0, k as int);
        assert(s.take(0) =~= Seq::<char>::empty());
        assert(m > k);
    }
    let mi = char_index_after(&v, close, Ghost(m));
    let tail = text.substring_char(mi + 1, v.len());
    if chars_of(trim_str(tail)).len() == 0 {
        let callee = trim_str(text.substring_char(0, k));
        let args = text.substring_char(k + 1, mi);
        assert(s.skip(mi + 1) =~= s.subrange(mi + 1, s.len() as int));
        assert(s.take(k as int) =~= s.subrange(0, k as int));
        Some((callee, args))
    } else {
        assert(s.skip(mi + 1) =~= s.subrange(mi + 1, s.len() as int));
        None
    }
}

/// The byte offset of char `k` of `v`.
fn byte_of_index(v: &Vec<char>, k: usize) -> (b: usize)
    requires
        k <= v.len(),
        byte_len(v@) <= usize::MAX,
    ensures
        b == byte_len(v@.take(k as int)),
{
    let mut b: usize = 0;
    let mut i: usize = 0;
    while i < k
        invariant
            i <= k <= v.len(),
            byte_len(v@) <= usize::MAX,
            b == byte_len(v@.take(i as int)),
        decreases k - i,
    {
        proof {
            lemma_byte_len_take_mono(v@, i + 1, v@.len() as int);
            assert(v@.take(v@.len() as int) =~= v@);
            assert(v@.take(i + 1).drop_last() =~= v@.take(i as int));
        }
        b = b + utf8_width(v[i]);
        i = i + 1;
    }
    b
}

/// The char index `m` of `v` (given as a ghost) whose byte offset is `b`.
fn char_index_after(v: &Vec<char>, b: usize, Ghost(m): Ghost<int>) -> (r: usize)
    requires
        0 <= m < v.len(),
        b == byte_len(v@.take(m)),
    ensures
        r == m,
{
    match crate::text::char_index_of_byte(v, b) {
        Some(k) => {
            proof {
                crate::text::lemma_boundary_unique(v@, k as int, m, b as int);
            }
            k
        },
        None => {
            assert(crate::text::is_boundary_at(v@, m, b as int));
            0
        },
    }
}

// ---------------------------------------------------------------------------
// Argument lists
// ---------------------------------------------------------------------------
/// The scan of `split_args` from char `i`: depths of `()`, `{}`, `[]`, whether
/// inside a string, where the current argument starts, and the arguments so far.
pub open spec fn split_scan(
    s: Seq<char>,
    i: int,
    dp: int,
    db: int,
    dk: int,
    ins: bool,
    start: int,
    acc: Seq<Seq<char>>,
) -> Option<Seq<Seq<char>>>
    decreases s.len() - i,
{
    if i < 0 || i >= s.len() {
        let tail = trim(s.skip(start));
        Some(
            if tail.len() > 0 {
                acc.push(tail)
            } else {
                acc
            },
        )
    } else {
        let c = s[i];
        if c == '"' {
            let esc = i > 0 && s[i - 1] == '\\';
            split_scan(s, i + 1, dp, db, dk, if esc { ins } else { !ins }, start, acc)
        } else if !ins && c == '(' {
            split_scan(s, i + 1, dp + 1, db, dk, ins, start, acc)
        } else if !ins && c == ')' {
            if dp == 0 {
                None
            } else {
                split_scan(s, i + 1, dp - 1, db, dk, ins, start, acc)
            }
        } else if !ins && c == '{' {
            split_scan(s, i + 1, dp, db + 1, dk, ins, start, acc)
        } else if !ins && c == '}' {
            if db == 0 {
                None
            } else {
                split_scan(s, i + 1, dp, db - 1, dk, ins, start, acc)
            }
        } else if !ins && c == '[' {
            split_scan(s, i + 1, dp, db, dk + 1, ins, start, acc)
        } else if !ins && c == ']' {
            if dk == 0 {
                None
            } else {
                split_scan(s, i + 1, dp, db, dk - 1, ins, start, acc)
            }
        } else if !ins && c == ',' && dp == 0 && db == 0 && dk == 0 {
            split_scan(s, i + 1, dp, db, dk, ins, i + 1, acc.push(trim(s.subrange(start, i))))
        } else {
            split_scan(s, i + 1, dp, db, dk, ins, start, acc)
        }
    }
}

/// What `split_args` returns: the top-level comma-separated arguments,
/// trimmed (no empty last one); None for unbalanced brackets or angle brackets.
pub open spec fn args_of(s: Seq<char>) -> Option<Seq<Seq<char>>> {
    if contains(s, "<"@) || contains(s, ">"@) {
        None
    } else {
        split_scan(s, 0, 0, 0, 0, false, 0, Seq::empty())
    }
}

/// Splits an argument list at its top-level commas.
pub fn split_args(args: &str) -> (r: Option<Vec<&str>>)
    ensures
        match r {
            Some(v) => args_of(args@) == Some(str_views(v@)),
            None => args_of(args@) is None,
        },
{
    if str_contains(args, "<") || str_contains(args, ">") {
        return None;
    }
    let v = chars_of(args);
    let ghost s = v@;
    let mut out: Vec<&str> = Vec::new();
    let mut dp: usize = 0;
    let mut db: usize = 0;
    let mut dk: usize = 0;
    let mut ins = false;
    let mut start: usize = 0;
    let mut i: usize = 0;
    assert(str_views(out@) =~= Seq::<Seq<char>>::empty());
    while i < v.len()
        invariant
            s == v@,
            s == args@,
            start <= i <= v.len(),
            dp <= i,
            db <= i,
            dk <= i,
            split_scan(s, 0, 0, 0, 0, false, 0, Seq::empty()) == split_scan(
                s,
                i as int,
                dp as int,
                db as int,
                dk as int,
                ins,
                start as int,
                str_views(out@),
            ),
        decreases v.len() - i,
    {
        let c = v[i];
        let ghost acc = str_views(out@);
        if c == '"' {
            let esc = i > 0 && v[i - 1] == '\\';
            if !esc {
                ins = !ins;
            }
        } else if !ins && c == '(' {
            dp = dp + 1;
        } else if !ins && c == ')' {
            if dp == 0 {
                return None;
            }
            dp = dp - 1;
        } else if !ins && c == '{' {
            db = db + 1;
        } else if !ins && c == '}' {
            if db == 0 {
                return None;
            }
            db = db - 1;
        } else if !ins && c == '[' {
            dk = dk + 1;
        } else if !ins && c == ']' {
            if dk == 0 {
                return None;
            }
            dk = dk - 1;
        } else if !ins && c == ',' && dp == 0 && db == 0 && dk == 0 {
            let part = trim_str(args.substring_char(start, i));
            out.push(part);
            assert(str_views(out@) =~= acc.push(trim(s.subrange(start as int, i as int))));
            start = i + 1;
        }
        i = i + 1;
    }
    let tail = trim_str(args.substring_char(start, v.len()));
    assert(s.skip(start as int) =~= s.subrange(start as int, s.len() as int));
    let ghost acc = str_views(out@);
    if chars_of(tail).len() > 0 {
        out.push(tail);
        assert(str_views(out@) =~= acc.push(tail@));
    }
    Some(out)
}

// ---------------------------------------------------------------------------
// Method-call rewrites
// ---------------------------------------------------------------------------
/// The arguments joined with `", "`.
pub open spec fn joined(args: Seq<Seq<char>>) -> Seq<char>
    decreases args.len(),
{
    if args.len() == 0 {
        Seq::empty()
    } else if args.len() == 1 {
        args[0]
    } else {
        joined(args.drop_last()) + ", "@ + args.last()
    }
}

/// `receiver.method(args)`.
pub open spec fn method_call_text(receiver: Seq<char>, method: Seq<char>, args: Seq<Seq<char>>) -> Seq<char> {
    receiver + "."@ + method + "("@ + joined(args) + ")"@
}

/// The views of a list of string slices.
pub open spec fn str_views(v: Seq<&str>) -> Seq<Seq<char>> {
    v.map_values(|s: &str| s@)
}

/// The method-call form `receiver.method(args)` of a function call.
pub fn generate_method_call_fix(receiver: &str, method: &str, remaining_args: Vec<&str>) -> (r: String)
    ensures
        r@ == method_call_text(receiver@, method@, str_views(remaining_args@)),
{
    let ghost a = str_views(remaining_args@);
    let mut args = String::new();
    let mut i: usize = 0;
    while i < remaining_args.len()
        invariant
            a == str_views(remaining_args@),
            i <= remaining_args@.len(),
            args@ == joined(a.take(i as int)),
        decreases remaining_args.len() - i,
    {
        if i > 0 {
            push_str(&mut args, ", ");
        }
        push_str(&mut args, remaining_args[i]);
        proof {
            let t = a.take(i + 1);
            assert(t.drop_last() =~= a.take(i as int));
            assert(t.last() == remaining_args@[i as int]@);
            if i == 0 {
                assert(a.take(0) =~= Seq::<Seq<char>>::empty());
                assert(args@ =~= t[0]);
            } else {
                assert(args@ =~= joined(t.drop_last()) + ", "@ + t.last());
            }
        }
        i = i + 1;
    }
    assert(a.take(remaining_args@.len() as int) =~= a);
    let mut out = String::new();
    push_str(&mut out, receiver);
    push_str(&mut out, ".");
    push_str(&mut out, method);
    push_str(&mut out, "(");
    push_str(&mut out, args.as_str());
    push_str(&mut out, ")");
    assert(out@ =~= method_call_text(receiver@, method@, a));
    out
}

// ---------------------------------------------------------------------------
// Tree helpers
// ---------------------------------------------------------------------------
/// A top-level node of the file marks it as test-only: a `test_only`
/// attribute or annotation, or a module whose text has `_test` in it.
pub open spec fn test_only_child(src: Seq<char>, t: crate::syntax::NodeView) -> bool {
    let text = text_of(src, t.start_byte, t.end_byte);
    ||| ((t.kind == "attribute"@ || t.kind == "annotation"@) && contains(text, "test_only"@))
    ||| (t.kind == "module_definition"@ && (contains(text, "_tests"@) || contains(text, "_test"@)))
}

/// Whether the file is a test-only module.
pub fn is_test_only_module(tree: &SyntaxTree, source: &SourceText) -> (r: bool)
    ensures
        r == exists|j: int| 0 <= j < tree@[0].children.len() && test_only_child(
            source@,
            #[trigger] tree@[tree@[0].children[j] as int],
        ),
{
    tree.ensure_wf();
    let cs = tree.children(0);
    let mut j: usize = 0;
    while j < cs.len()
        invariant
            tree@.len() > 0,
            cs@ == tree@[0].children,
            forall|t: int| 0 <= t < cs@.len() ==> 0 < #[trigger] cs@[t] < tree@.len(),
            j <= cs@.len(),
            forall|t: int| 0 <= t < j ==> !test_only_child(source@, #[trigger] tree@[cs@[t] as int]),
        decreases cs.len() - j,
    {
        let c = cs[j];
        proof {
            reveal_strlit("attribute");
            reveal_strlit("annotation");
            reveal_strlit("module_definition");
            assert("module_definition"@.len() == 17);
            assert("attribute"@.len() == 9);
            assert("annotation"@.len() == 10);
        }
        let text = tree.text(source, c);
        let t = text.as_str();
        let is_attr = tree.is_kind(c, "attribute") || tree.is_kind(c, "annotation");
        let is_mod = tree.is_kind(c, "module_definition");
        let has_test_only = str_contains(t, "test_only");
        let has_tests = str_contains(t, "_tests");
        let has_test = str_contains(t, "_test");
        let hit = if is_attr {
            has_test_only
        } else if is_mod {
            has_tests || has_test
        } else {
            false
        };
        if hit {
            assert(test_only_child(source@, tree@[cs@[j as int] as int]));
            return true;
        }
        assert(!test_only_child(source@, tree@[c as int]));
        j = j + 1;
    }
    false
}

} // verus!
