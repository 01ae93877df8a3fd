//! Ordering of names and offsets, and listings of finite sets in that order.
use vstd::prelude::*;
use crate::names::{string_views, NameSet};
use crate::text::chars_of;

verus! {

/// Lexicographic order of strings by code point (the order of `String`'s `Ord`,
/// which compares UTF-8 bytes, and UTF-8 keeps code point order).
pub open spec fn lex_lt(a: Seq<char>, b: Seq<char>) -> bool
    decreases a.len(),
{
    if b.len() == 0 {
        false
    } else if a.len() == 0 {
        true
    } else if a[0] != b[0] {
        a[0] < b[0]
    } else {
        lex_lt(a.drop_first(), b.drop_first())
    }
}

pub proof fn lemma_lex_irreflexive(a: Seq<char>)
    ensures
        !lex_lt(a, a),
    decreases a.len(),
{
    if a.len() > 0 {
        lemma_lex_irreflexive(a.drop_first());
    }
}

pub proof fn lemma_lex_asymmetric(a: Seq<char>, b: Seq<char>)
    ensures
        lex_lt(a, b) ==> !lex_lt(b, a),
    decreases a.len(),
{
    if a.len() > 0 && b.len() > 0 && a[0] == b[0] {
        lemma_lex_asymmetric(a.drop_first(), b.drop_first());
    }
}

pub proof fn lemma_lex_transitive(a: Seq<char>, b: Seq<char>, c: Seq<char>)
    requires
        lex_lt(a, b),
        lex_lt(b, c),
    ensures
        lex_lt(a, c),
    decreases a.len(),
{
    if a.len() > 0 && b.len() > 0 && c.len() > 0 && a[0] == b[0] && b[0] == c[0] {
        lemma_lex_transitive(a.drop_first(), b.drop_first(), c.drop_first());
    }
}

pub proof fn lemma_lex_total(a: Seq<char>, b: Seq<char>)
    requires
        a != b,
    ensures
        lex_lt(a, b) || lex_lt(b, a),
    decreases a.len(),
{
    if a.len() == 0 {
        assert(b.len() > 0) by {
            if b.len() == 0 {
                assert(a =~= b);
            }
        }
    } else if b.len() > 0 && a[0] == b[0] {
        if a.drop_first() == b.drop_first() {
            assert(a =~= seq![a[0]] + a.drop_first());
            assert(b =~= seq![b[0]] + b.drop_first());
        }
        lemma_lex_total(a.drop_first(), b.drop_first());
    }
}

/// `a < b` in the order of `lex_lt`.
pub fn chars_lt(a: &Vec<char>, b: &Vec<char>) -> (r: bool)
    ensures
        r == lex_lt(a@, b@),
{
    let mut i: usize = 0;
    assert(a@.skip(0) =~= a@);
    assert(b@.skip(0) =~= b@);
    while i < a.len() && i < b.len()
        invariant
            i <= a@.len(),
            i <= b@.len(),
            lex_lt(a@, b@) == lex_lt(a@.skip(i as int), b@.skip(i as int)),
        decreases a.len() - i,
    {
        assert(a@.skip(i as int)[0] == a@[i as int]);
        assert(b@.skip(i as int)[0] == b@[i as int]);
        if a[i] != b[i] {
            return a[i] < b[i];
        }
        assert(a@.skip(i as int).drop_first() =~= a@.skip(i + 1));
        assert(b@.skip(i as int).drop_first() =~= b@.skip(i + 1));
        i = i + 1;
    }
    a.len() < b.len()
}

/// `a < b` for strings, in the order of `lex_lt`.
pub fn str_lt(a: &str, b: &str) -> (r: bool)
    ensures
        r == lex_lt(a@, b@),
{
    let va = chars_of(a);
    let vb = chars_of(b);
    chars_lt(&va, &vb)
}

pub proof fn lemma_remove_no_duplicates<A>(s: Seq<A>, k: int)
    requires
        0 <= k < s.len(),
        s.no_duplicates(),
    ensures
        s.remove(k).no_duplicates(),
{
    let r = s.remove(k);
    assert forall|i: int, j: int| 0 <= i < r.len() && 0 <= j < r.len() && i != j implies r[i]
        != r[j] by {
        let i2 = if i < k {
            i
        } else {
            i + 1
        };
        let j2 = if j < k {
            j
        } else {
            j + 1
        };
        assert(r[i] == s[i2]);
        assert(r[j] == s[j2]);
    }
}

/// `m` is the least member of `s`.
pub open spec fn least_name(s: Set<Seq<char>>, m: Seq<char>) -> bool {
    s.contains(m) && forall|x: Seq<char>| #[trigger] s.contains(x) && x != m ==> lex_lt(m, x)
}

/// The members of a finite set of names in increasing order.
pub open spec fn sorted_listing(s: Set<Seq<char>>) -> Seq<Seq<char>>
    decreases s.len(),
    when s.finite()
{
    if s.len() == 0 {
        Seq::empty()
    } else {
        let m = choose|m: Seq<char>| least_name(s, m);
        if s.contains(m) {
            seq![m] + sorted_listing(s.remove(m))
        } else {
            Seq::empty()
        }
    }
}

pub proof fn lemma_least_unique(s: Set<Seq<char>>, m1: Seq<char>, m2: Seq<char>)
    requires
        least_name(s, m1),
        least_name(s, m2),
    ensures
        m1 == m2,
{
    if m1 != m2 {
        assert(s.contains(m2));
        assert(lex_lt(m1, m2));
        assert(lex_lt(m2, m1));
        lemma_lex_asymmetric(m1, m2);
    }
}

/// The names of `set` in increasing order.
pub fn sorted_names(set: &NameSet) -> (r: Vec<String>)
    ensures
        string_views(r@) == sorted_listing(set@),
{
    let mut rem = set.elements();
    let mut out: Vec<String> = Vec::new();
    proof {
        string_views(rem@).unique_seq_to_set();
    }
    while rem.len() > 0
        invariant
            string_views(rem@).no_duplicates(),
            string_views(rem@).to_set().finite(),
            string_views(rem@).to_set().len() == rem@.len(),
            string_views(out@) + sorted_listing(string_views(rem@).to_set()) == sorted_listing(
                set@,
            ),
        decreases rem.len(),
    {
        let ghost rs = string_views(rem@);
        let ghost t = rs.to_set();
        let mut best: usize = 0;
        let mut k: usize = 1;
        let mut best_chars = chars_of(rem[0].as_str());
        while k < rem.len()
            invariant
                rem@.len() > 0,
                rs == string_views(rem@),
                best < rem@.len(),
                best < k,
                best_chars@ == rs[best as int],
                1 <= k <= rem@.len(),
                forall|j: int| 0 <= j < k && j != best ==> lex_lt(rs[best as int], #[trigger] rs[j]),
                rs.no_duplicates(),
            decreases rem.len() - k,
        {
            let kc = chars_of(rem[k].as_str());
            assert(kc@ == rs[k as int]);
            if chars_lt(&kc, &best_chars) {
                proof {
                    assert forall|j: int| 0 <= j < k + 1 && j != k implies lex_lt(
                        rs[k as int],
                        #[trigger] rs[j],
                    ) by {
                        if j != best as int {
                            lemma_lex_transitive(rs[k as int], rs[best as int], rs[j]);
                        }
                    }
                }
                best = k;
                best_chars = kc;
            } else {
                proof {
                    assert(rs[k as int] != rs[best as int]);
                    lemma_lex_total(rs[k as int], rs[best as int]);
                }
            }
            k = k + 1;
        }
        let ghost m = rs[best as int];
        proof {
            assert forall|x: Seq<char>| #[trigger] t.contains(x) && x != m implies lex_lt(m, x) by {
                let j = choose|j: int| 0 <= j < rs.len() && rs[j] == x;
                assert(j != best);
            }
            assert(t.contains(m));
            assert(least_name(t, m));
            let c = choose|c: Seq<char>| least_name(t, c);
            lemma_least_unique(t, c, m);
            assert(sorted_listing(t) == seq![m] + sorted_listing(t.remove(m)));
        }
        let s = rem.remove(best);
        proof {
            let rs2 = string_views(rem@);
            assert(rs2 =~= rs.remove(best as int));
            lemma_remove_no_duplicates(rs, best as int);
            assert(rs2.to_set() =~= t.remove(m)) by {
                assert forall|x: Seq<char>| rs2.to_set().contains(x) <==> t.remove(m).contains(x) by {
                    if rs2.to_set().contains(x) {
                        let j = choose|j: int| 0 <= j < rs2.len() && rs2[j] == x;
                        if j < best {
                            assert(rs[j] == x);
                        } else {
                            assert(rs[j + 1] == x);
                        }
                    }
                    if t.remove(m).contains(x) {
                        let j = choose|j: int| 0 <= j < rs.len() && rs[j] == x;
                        if j < best {
                            assert(rs2[j] == x);
                        } else {
                            assert(rs2[j - 1] == x);
                        }
                    }
                }
            }
            rs2.unique_seq_to_set();
        }
        let ghost before = string_views(out@);
        out.push(s);
        proof {
            assert(string_views(out@) =~= before.push(m));
            assert(before.push(m) + sorted_listing(t.remove(m)) =~= before + (seq![m]
                + sorted_listing(t.remove(m))));
        }
    }
    proof {
        assert(string_views(rem@) =~= Seq::<Seq<char>>::empty());
        assert(string_views(rem@).to_set() =~= Set::<Seq<char>>::empty());
        assert(string_views(out@) + Seq::<Seq<char>>::empty() =~= string_views(out@));
    }
    out
}

/// `m` is the least member of `s`.
pub open spec fn least_offset(s: Set<usize>, m: usize) -> bool {
    s.contains(m) && forall|x: usize| #[trigger] s.contains(x) ==> m <= x
}

/// The members of a finite set of offsets in increasing order.
pub open spec fn sorted_offsets(s: Set<usize>) -> Seq<usize>
    decreases s.len(),
    when s.finite()
{
    if s.len() == 0 {
        Seq::empty()
    } else {
        let m = choose|m: usize| least_offset(s, m);
        if s.contains(m) {
            seq![m] + sorted_offsets(s.remove(m))
        } else {
            Seq::empty()
        }
    }
}

/// The values of `v`, each once, in increasing order (`v` holds no value twice).
pub fn sort_offsets(v: Vec<usize>) -> (r: Vec<usize>)
    requires
        v@.no_duplicates(),
    ensures
        r@ == sorted_offsets(v@.to_set()),
        r@.to_set() == v@.to_set(),
{
    let mut rem = v;
    let mut out: Vec<usize> = Vec::new();
    let ghost all = rem@.to_set();
    proof {
        rem@.unique_seq_to_set();
    }
    while rem.len() > 0
        invariant
            rem@.no_duplicates(),
            rem@.to_set().finite(),
            rem@.to_set().len() == rem@.len(),
            out@ + sorted_offsets(rem@.to_set()) == sorted_offsets(all),
            out@.to_set().union(rem@.to_set()) == all,
        decreases rem.len(),
    {
        let ghost rs = rem@;
        let ghost t = rs.to_set();
        let mut best: usize = 0;
        let mut k: usize = 1;
        while k < rem.len()
            invariant
                rem@.len() > 0,
                rs == rem@,
                best < rem@.len(),
                1 <= k <= rem@.len(),
                forall|j: int| 0 <= j < k ==> rs[best as int] <= #[trigger] rs[j],
            decreases rem.len() - k,
        {
            if rem[k] < rem[best] {
                best = k;
            }
            k = k + 1;
        }
        let ghost m = rs[best as int];
        proof {
            assert forall|x: usize| #[trigger] t.contains(x) implies m <= x by {
                let j = choose|j: int| 0 <= j < rs.len() && rs[j] == x;
            }
            assert(t.contains(m));
            let c = choose|c: usize| least_offset(t, c);
            assert(least_offset(t, m));
            assert(c <= m && m <= c);
            assert(sorted_offsets(t) == seq![m] + sorted_offsets(t.remove(m)));
        }
        let s = rem.remove(best);
        proof {
            let rs2 = rem@;
            lemma_remove_no_duplicates(rs, best as int);
            assert(rs2.to_set() =~= t.remove(m)) by {
                assert forall|x: usize| rs2.to_set().contains(x) <==> t.remove(m).contains(x) by {
                    if rs2.to_set().contains(x) {
                        let j = choose|j: int| 0 <= j < rs2.len() && rs2[j] == x;
                        if j < best {
                            assert(rs[j] == x);
                        } else {
                            assert(rs[j + 1] == x);
                        }
                    }
                    if t.remove(m).contains(x) {
                        let j = choose|j: int| 0 <= j < rs.len() && rs[j] == x;
                        if j < best {
                            assert(rs2[j] == x);
                        } else {
                            assert(rs2[j - 1] == x);
                        }
                    }
                }
            }
            rs2.unique_seq_to_set();
        }
        let ghost before = out@;
        out.push(s);
        proof {
            assert(before.push(m) + sorted_offsets(t.remove(m)) =~= before + (seq![m]
                + sorted_offsets(t.remove(m))));
            before.lemma_push_to_set_commute(m);
            assert(out@.to_set().union(rem@.to_set()) =~= before.to_set().union(t));
        }
    }
    proof {
        assert(rem@.to_set() =~= Set::<usize>::empty());
        assert(out@ + Seq::<usize>::empty() =~= out@);
        assert(out@.to_set().union(rem@.to_set()) =~= out@.to_set());
    }
    out
}


/// A finite non-empty set of names has a least member.
pub proof fn lemma_least_exists(s: Set<Seq<char>>)
    requires
        s.finite(),
        s.len() > 0,
    ensures
        exists|m: Seq<char>| least_name(s, m),
    decreases s.len(),
{
    let a = s.choose();
    let r = s.remove(a);
    if r.len() == 0 {
        assert forall|x: Seq<char>| #[trigger] s.contains(x) && x != a implies lex_lt(a, x) by {
            assert(r.contains(x));
        }
        assert(least_name(s, a));
    } else {
        lemma_least_exists(r);
        let m = choose|m: Seq<char>| least_name(r, m);
        if lex_lt(a, m) {
            assert forall|x: Seq<char>| #[trigger] s.contains(x) && x != a implies lex_lt(a, x) by {
                assert(r.contains(x));
                if x != m {
                    lemma_lex_transitive(a, m, x);
                }
            }
            assert(least_name(s, a));
        } else {
            assert(m != a);
            lemma_lex_total(a, m);
            assert forall|x: Seq<char>| #[trigger] s.contains(x) && x != m implies lex_lt(m, x) by {
                if x != a {
                    assert(r.contains(x));
                }
            }
            assert(least_name(s, m));
        }
    }
}

/// Every member of a finite set of names appears in its sorted listing.
pub proof fn lemma_sorted_listing_contains(s: Set<Seq<char>>, n: Seq<char>)
    requires
        s.finite(),
        s.contains(n),
    ensures
        sorted_listing(s).contains(n),
    decreases s.len(),
{
    lemma_least_exists(s);
    let m = choose|m: Seq<char>| least_name(s, m);
    assert(sorted_listing(s) == seq![m] + sorted_listing(s.remove(m)));
    if n == m {
        assert(sorted_listing(s)[0] == n);
    } else {
        lemma_sorted_listing_contains(s.remove(m), n);
        let k = choose|k: int| 0 <= k < sorted_listing(s.remove(m)).len() && sorted_listing(s.remove(m))[k] == n;
        assert(sorted_listing(s)[k + 1] == n);
    }
}

} // verus!
