//! Call graph over a package's functions, and the lints that read it.
//!
//! A function is named by a pair of integers, its module's and its own, as
//! numbered by whoever read the compiled package; the graph only compares them.
use vstd::prelude::*;
use crate::lint::{descriptor_is, AnalysisKind, LintCategory, LintDescriptor, RuleGroup};
use crate::text::str_eq;

verus! {

/// A function: its module's number and its own.
#[derive(Debug, Clone, Copy, PartialEq, Eq, Structural)]
pub struct FunctionKey {
    pub module: u64,
    pub function: u64,
}

/// One call from a function to another.
#[derive(Debug, Clone, Copy, PartialEq, Eq, Structural)]
pub struct Call {
    /// The calling function.
    pub caller: FunctionKey,
    /// The called function.
    pub callee: FunctionKey,
    /// Where the call stands in the source.
    pub loc: u64,
}

/// What a function creates or consumes.
#[derive(Debug, Clone, Copy, PartialEq, Eq, Structural)]
pub enum ResourceKind {
    FlashLoan,
    Capability,
    Asset,
    Generic,
}

// ---------------------------------------------------------------------------
// Maps kept as lists of (key, value) pairs; the first pair with a key wins.
// ---------------------------------------------------------------------------
/// The value that `m` holds for `k`: that of the first pair with key `k`.
pub open spec fn lookup<V>(m: Seq<(FunctionKey, V)>, k: FunctionKey) -> Option<V>
    decreases m.len(),
{
    if m.len() == 0 {
        None
    } else if m[0].0 == k {
        Some(m[0].1)
    } else {
        lookup(m.drop_first(), k)
    }
}

/// No key occurs twice in `m`.
pub open spec fn distinct_keys<V>(m: Seq<(FunctionKey, V)>) -> bool {
    forall|i: int, j: int| 0 <= i < j < m.len() ==> m[i].0 != m[j].0
}

proof fn lemma_lookup_first<V>(m: Seq<(FunctionKey, V)>, k: FunctionKey, i: int)
    requires
        0 <= i < m.len(),
        m[i].0 == k,
        forall|j: int| 0 <= j < i ==> m[j].0 != k,
    ensures
        lookup(m, k) == Some(m[i].1),
    decreases i,
{
    if i > 0 {
        assert forall|j: int| 0 <= j < i - 1 implies m.drop_first()[j].0 != k by {
            assert(m.drop_first()[j] == m[j + 1]);
        }
        lemma_lookup_first(m.drop_first(), k, i - 1);
    }
}

proof fn lemma_lookup_none<V>(m: Seq<(FunctionKey, V)>, k: FunctionKey)
    requires
        forall|j: int| 0 <= j < m.len() ==> m[j].0 != k,
    ensures
        lookup(m, k) is None,
    decreases m.len(),
{
    if m.len() > 0 {
        assert forall|j: int| 0 <= j < m.drop_first().len() implies m.drop_first()[j].0 != k by {
            assert(m.drop_first()[j] == m[j + 1]);
        }
        lemma_lookup_none(m.drop_first(), k);
    }
}

/// A value found by `lookup` sits at some index of `m`.
proof fn lemma_lookup_index<V>(m: Seq<(FunctionKey, V)>, k: FunctionKey)
    requires
        lookup(m, k) is Some,
    ensures
        exists|i: int| 0 <= i < m.len() && m[i].0 == k && Some(m[i].1) == lookup(m, k),
    decreases m.len(),
{
    if m[0].0 != k {
        lemma_lookup_index(m.drop_first(), k);
        let i = choose|i: int|
            0 <= i < m.drop_first().len() && m.drop_first()[i].0 == k && Some(m.drop_first()[i].1)
                == lookup(m.drop_first(), k);
        assert(m[i + 1] == m.drop_first()[i]);
    } else {
        assert(m[0].0 == k);
    }
}

proof fn lemma_lookup_update<V>(m: Seq<(FunctionKey, V)>, i: int, k: FunctionKey, v: V, x: FunctionKey)
    requires
        0 <= i < m.len(),
        m[i].0 == k,
        x != k,
    ensures
        lookup(m.update(i, (k, v)), x) == lookup(m, x),
    decreases m.len(),
{
    if i > 0 && m[0].0 != x {
        assert(m.update(i, (k, v)).drop_first() =~= m.drop_first().update(i - 1, (k, v)));
        lemma_lookup_update(m.drop_first(), i - 1, k, v, x);
    } else if i == 0 {
        assert(m.update(i, (k, v)).drop_first() =~= m.drop_first());
    }
}

proof fn lemma_lookup_push<V>(m: Seq<(FunctionKey, V)>, k: FunctionKey, v: V, x: FunctionKey)
    ensures
        lookup(m.push((k, v)), x) == (if lookup(m, x) is Some {
            lookup(m, x)
        } else if x == k {
            Some(v)
        } else {
            None
        }),
    decreases m.len(),
{
    if m.len() > 0 {
        assert(m.push((k, v))[0] == m[0]);
        assert(m.push((k, v)).drop_first() =~= m.drop_first().push((k, v)));
        lemma_lookup_push(m.drop_first(), k, v, x);
    } else {
        assert(m.push((k, v))[0] == (k, v));
        assert(m.push((k, v)).drop_first() =~= Seq::<(FunctionKey, V)>::empty());
        assert(lookup(Seq::<(FunctionKey, V)>::empty(), x) is None);
    }
}

/// Index of the first pair of `m` with key `k`.
pub fn find_key<V>(m: &Vec<(FunctionKey, V)>, k: FunctionKey) -> (r: Option<usize>)
    ensures
        match r {
            Some(i) => i < m@.len() && m@[i as int].0 == k && lookup(m@, k) == Some(
                m@[i as int].1,
            ) && forall|j: int| 0 <= j < i ==> m@[j].0 != k,
            None => lookup(m@, k) is None && forall|j: int| 0 <= j < m@.len() ==> m@[j].0 != k,
        },
{
    let n = m.len();
    let mut i: usize = 0;
    while i < n
        invariant
            n == m@.len(),
            i <= n,
            forall|j: int| 0 <= j < i ==> m@[j].0 != k,
        decreases n - i,
    {
        if m[i].0 == k {
            proof {
                lemma_lookup_first(m@, k, i as int);
            }
            return Some(i);
        }
        i = i + 1;
    }
    proof {
        lemma_lookup_none(m@, k);
    }
    None
}

/// Sets the value of `k` in `m` to `v`: the first pair with key `k` is
/// replaced, or a new pair goes at the end.
pub fn map_insert<V>(m: &mut Vec<(FunctionKey, V)>, k: FunctionKey, v: V)
    ensures
        lookup(final(m)@, k) == Some(v),
        forall|x: FunctionKey| x != k ==> lookup(final(m)@, x) == lookup(old(m)@, x),
        distinct_keys(old(m)@) ==> distinct_keys(final(m)@),
{
    match find_key(m, k) {
        Some(i) => {
            let ghost before = m@;
            m.set(i, (k, v));
            proof {
                assert(m@ == before.update(i as int, (k, v)));
                lemma_lookup_first(m@, k, i as int);
                assert forall|x: FunctionKey| x != k implies lookup(m@, x) == lookup(before, x) by {
                    lemma_lookup_update(before, i as int, k, v, x);
                }
            }
        },
        None => {
            let ghost before = m@;
            m.push((k, v));
            proof {
                assert forall|x: FunctionKey|
                    #![trigger lookup(m@, x)]
                    true implies lookup(m@, x) == (if lookup(before, x) is Some {
                        lookup(before, x)
                    } else if x == k {
                        Some(v)
                    } else {
                        None
                    }) by {
                    lemma_lookup_push(before, k, v, x);
                }
                assert(lookup(m@, k) == Some(v));
            }
        },
    }
}

/// `a` comes before `b` by module, then by function.
pub open spec fn key_before(a: FunctionKey, b: FunctionKey) -> bool {
    a.module < b.module || (a.module == b.module && a.function < b.function)
}

/// The keys of `m` are in strictly ascending order.
pub open spec fn keys_ascending<V>(m: Seq<(FunctionKey, V)>) -> bool {
    forall|i: int, j: int| 0 <= i < j < m.len() ==> key_before(#[trigger] m[i].0, #[trigger] m[j].0)
}

/// The functions of `s` are in strictly ascending order of key.
pub open spec fn strictly_sorted(s: Seq<FunctionKey>) -> bool {
    forall|i: int, j: int| 0 <= i < j < s.len() ==> key_before(#[trigger] s[i], #[trigger] s[j])
}

proof fn lemma_lookup_insert<V>(m: Seq<(FunctionKey, V)>, p: int, k: FunctionKey, v: V, x: FunctionKey)
    requires
        0 <= p <= m.len(),
        x != k,
    ensures
        lookup(m.insert(p, (k, v)), x) == lookup(m, x),
    decreases p,
{
    let t = m.insert(p, (k, v));
    if p == 0 {
        assert(t[0] == (k, v));
        assert(t.drop_first() =~= m);
    } else {
        assert(t[0] == m[0]);
        if m[0].0 != x {
            assert(t.drop_first() =~= m.drop_first().insert(p - 1, (k, v)));
            lemma_lookup_insert(m.drop_first(), p - 1, k, v, x);
        }
    }
}

/// Sets the value of `k` in `m`, whose keys are in ascending order, to `v`:
/// the pair with key `k` is replaced, or a new pair goes where its key falls.
pub fn sorted_map_insert<V>(m: &mut Vec<(FunctionKey, V)>, k: FunctionKey, v: V)
    requires
        keys_ascending(old(m)@),
    ensures
        lookup(final(m)@, k) == Some(v),
        forall|x: FunctionKey| x != k ==> lookup(final(m)@, x) == lookup(old(m)@, x),
        keys_ascending(final(m)@),
        forall|i: int| 0 <= i < final(m)@.len() ==> #[trigger] final(m)@[i] == (k, v) || old(m)@.contains(final(m)@[i]),
{
    let ghost before = m@;
    match find_key(m, k) {
        Some(i) => {
            m.set(i, (k, v));
            proof {
                assert(m@ == before.update(i as int, (k, v)));
                lemma_lookup_first(m@, k, i as int);
                assert forall|x: FunctionKey| x != k implies lookup(m@, x) == lookup(before, x) by {
                    lemma_lookup_update(before, i as int, k, v, x);
                }
                assert forall|a: int, b: int| 0 <= a < b < m@.len() implies key_before(#[trigger] m@[a].0, #[trigger] m@[b].0) by {
                    assert(m@[a].0 == before[a].0 && m@[b].0 == before[b].0);
                }
                assert forall|j: int| 0 <= j < m@.len() implies #[trigger] m@[j] == (k, v) || before.contains(m@[j]) by {
                    if j != i {
                        assert(m@[j] == before[j]);
                    }
                }
            }
        },
        None => {
            let n = m.len();
            let mut p: usize = 0;
            while p < n && !(k.module < m[p].0.module || (k.module == m[p].0.module && k.function < m[p].0.function))
                invariant
                    n == m@.len(),
                    m@ == before,
                    p <= n,
                    forall|j: int| 0 <= j < p ==> !key_before(k, #[trigger] m@[j].0),
                decreases n - p,
            {
                p = p + 1;
            }
            m.insert(p, (k, v));
            proof {
                assert(m@ == before.insert(p as int, (k, v)));
                assert forall|j: int| 0 <= j < p implies m@[j].0 != k by {
                    assert(m@[j] == before[j]);
                }
                lemma_lookup_first(m@, k, p as int);
                assert forall|x: FunctionKey| x != k implies lookup(m@, x) == lookup(before, x) by {
                    lemma_lookup_insert(before, p as int, k, v, x);
                }
                assert forall|a: int, b: int| 0 <= a < b < m@.len() implies key_before(#[trigger] m@[a].0, #[trigger] m@[b].0) by {
                    if b < p {
                        assert(m@[a] == before[a] && m@[b] == before[b]);
                    } else if b == p {
                        assert(m@[a] == before[a]);
                        assert(before[a].0 != k);
                    } else if a == p {
                        assert(m@[b] == before[b - 1]);
                        if b - 1 > p {
                            assert(key_before(before[p as int].0, before[b - 1].0));
                        }
                    } else if a < p {
                        assert(m@[a] == before[a] && m@[b] == before[b - 1]);
                    } else {
                        assert(m@[a] == before[a - 1] && m@[b] == before[b - 1]);
                    }
                }
                assert forall|j: int| 0 <= j < m@.len() implies #[trigger] m@[j] == (k, v) || before.contains(m@[j]) by {
                    if j < p {
                        assert(m@[j] == before[j]);
                    } else if j > p {
                        assert(m@[j] == before[j - 1]);
                    }
                }
            }
        },
    }
}

/// The functions of `v` in strictly ascending order of key, each once.
pub fn sort_keys(v: &Vec<FunctionKey>) -> (r: Vec<FunctionKey>)
    ensures
        strictly_sorted(r@),
        r@.no_duplicates(),
        forall|x: FunctionKey| r@.contains(x) <==> v@.contains(x),
{
    let mut r: Vec<FunctionKey> = Vec::new();
    let n = v.len();
    let mut i: usize = 0;
    while i < n
        invariant
            n == v@.len(),
            i <= n,
            strictly_sorted(r@),
            forall|x: FunctionKey| r@.contains(x) <==> v@.take(i as int).contains(x),
        decreases n - i,
    {
        let x = v[i];
        let m = r.len();
        let mut p: usize = 0;
        while p < m && (r[p].module < x.module || (r[p].module == x.module && r[p].function < x.function))
            invariant
                m == r@.len(),
                p <= m,
                forall|j: int| 0 <= j < p ==> key_before(#[trigger] r@[j], x),
            decreases m - p,
        {
            p = p + 1;
        }
        let ghost before = r@;
        proof {
            let t0 = v@.take(i as int);
            let t1 = v@.take(i + 1);
            assert forall|y: FunctionKey| t1.contains(y) <==> (t0.contains(y) || y == x) by {
                if t1.contains(y) {
                    let j = choose|j: int| 0 <= j < t1.len() && t1[j] == y;
                    if j < i {
                        assert(t0[j] == y);
                    }
                }
                if t0.contains(y) {
                    let j = choose|j: int| 0 <= j < t0.len() && t0[j] == y;
                    assert(t1[j] == y);
                }
                if y == x {
                    assert(t1[i as int] == x);
                }
            }
        }
        if p < m && r[p] == x {
            proof {
                assert forall|y: FunctionKey| r@.contains(y) <==> v@.take(i + 1).contains(y) by {
                    if y == x {
                        assert(r@[p as int] == x);
                    }
                }
            }
        } else {
            r.insert(p, x);
            proof {
                assert(r@ == before.insert(p as int, x));
                assert forall|a: int, b: int| 0 <= a < b < r@.len() implies key_before(#[trigger] r@[a], #[trigger] r@[b]) by {
                    if b < p {
                        assert(r@[a] == before[a] && r@[b] == before[b]);
                    } else if b == p {
                        assert(r@[a] == before[a]);
                    } else if a == p {
                        assert(r@[b] == before[b - 1]);
                        assert(!key_before(before[p as int], x));
                        assert(before[p as int] != x);
                        if b - 1 > p {
                            assert(key_before(before[p as int], before[b - 1]));
                        }
                    } else if a < p {
                        assert(r@[a] == before[a] && r@[b] == before[b - 1]);
                    } else {
                        assert(r@[a] == before[a - 1] && r@[b] == before[b - 1]);
                    }
                }
                assert forall|y: FunctionKey| r@.contains(y) <==> v@.take(i + 1).contains(y) by {
                    if r@.contains(y) {
                        let j = choose|j: int| 0 <= j < r@.len() && r@[j] == y;
                        if j < p {
                            assert(before[j] == y);
                        } else if j > p {
                            assert(before[j - 1] == y);
                        }
                    }
                    if before.contains(y) {
                        let j = choose|j: int| 0 <= j < before.len() && before[j] == y;
                        if j < p {
                            assert(r@[j] == y);
                        } else {
                            assert(r@[j + 1] == y);
                        }
                    }
                    if y == x {
                        assert(r@[p as int] == x);
                    }
                }
            }
        }
        i = i + 1;
    }
    proof {
        assert(v@.take(n as int) =~= v@);
        assert forall|a: int, b: int| 0 <= a < r@.len() && 0 <= b < r@.len() && a != b implies r@[a] != r@[b] by {
            if a < b {
                assert(key_before(r@[a], r@[b]));
            } else {
                assert(key_before(r@[b], r@[a]));
            }
        }
    }
    r
}

/// `m` holds `x`.
pub fn holds_key(m: &Vec<FunctionKey>, x: FunctionKey) -> (b: bool)
    ensures
        b == m@.contains(x),
{
    let n = m.len();
    let mut i: usize = 0;
    while i < n
        invariant
            n == m@.len(),
            i <= n,
            forall|j: int| 0 <= j < i ==> m@[j] != x,
        decreases n - i,
    {
        if m[i] == x {
            assert(m@[i as int] == x);
            return true;
        }
        i = i + 1;
    }
    false
}

// ---------------------------------------------------------------------------
// Reachability
// ---------------------------------------------------------------------------
/// The function a call leads to: forwards its callee, backwards its caller.
pub open spec fn far_end(c: Call, forward: bool) -> FunctionKey {
    if forward {
        c.callee
    } else {
        c.caller
    }
}

/// The calls that `m` lists under `a`.
pub open spec fn calls_under(m: Seq<(FunctionKey, Vec<Call>)>, a: FunctionKey) -> Seq<Call> {
    match lookup(m, a) {
        Some(v) => v@,
        None => Seq::empty(),
    }
}

/// The calls that `m` lists, as a function from caller to its calls.
pub open spec fn succ_of(m: Seq<(FunctionKey, Vec<Call>)>) -> spec_fn(FunctionKey) -> Seq<Call> {
    |a: FunctionKey| calls_under(m, a)
}

/// One step from `a` to `b` along a call that `succ` lists under `a`.
pub open spec fn step(succ: spec_fn(FunctionKey) -> Seq<Call>, forward: bool, a: FunctionKey, b: FunctionKey) -> bool {
    exists|i: int| 0 <= i < succ(a).len() && far_end(#[trigger] succ(a)[i], forward) == b
}

/// `p` is a walk: it has a first function, and each next one is a step on.
pub open spec fn is_walk(succ: spec_fn(FunctionKey) -> Seq<Call>, forward: bool, p: Seq<FunctionKey>) -> bool {
    p.len() >= 1 && forall|i: int| 0 <= i < p.len() - 1 ==> #[trigger] step(succ, forward, p[i], p[i + 1])
}

/// `x` can be reached from `s`: some walk starts at `s` and ends at `x`.
pub open spec fn reachable(succ: spec_fn(FunctionKey) -> Seq<Call>, forward: bool, s: FunctionKey, x: FunctionKey) -> bool {
    exists|p: Seq<FunctionKey>| is_walk(succ, forward, p) && p[0] == s && p.last() == x
}

/// Every function that a call in `m` leads to.
pub open spec fn far_ends(m: Seq<(FunctionKey, Vec<Call>)>, forward: bool) -> Seq<FunctionKey>
    decreases m.len(),
{
    if m.len() == 0 {
        Seq::empty()
    } else {
        m[0].1@.map_values(|c: Call| far_end(c, forward)) + far_ends(m.drop_first(), forward)
    }
}

/// The functions a search from `s` can meet.
pub open spec fn universe(m: Seq<(FunctionKey, Vec<Call>)>, forward: bool, s: FunctionKey) -> Set<FunctionKey> {
    (seq![s] + far_ends(m, forward)).to_set()
}

proof fn lemma_step_in_far_ends(m: Seq<(FunctionKey, Vec<Call>)>, forward: bool, a: FunctionKey, i: int)
    requires
        0 <= i < calls_under(m, a).len(),
    ensures
        far_ends(m, forward).contains(far_end(calls_under(m, a)[i], forward)),
    decreases m.len(),
{
    if m[0].0 == a {
        let here = m[0].1@.map_values(|c: Call| far_end(c, forward));
        assert(here[i] == far_end(calls_under(m, a)[i], forward));
        assert((here + far_ends(m.drop_first(), forward))[i] == here[i]);
    } else {
        assert(calls_under(m, a) == calls_under(m.drop_first(), a));
        lemma_step_in_far_ends(m.drop_first(), forward, a, i);
        let rest = far_ends(m.drop_first(), forward);
        let here = m[0].1@.map_values(|c: Call| far_end(c, forward));
        let j = choose|j: int| 0 <= j < rest.len() && rest[j] == far_end(calls_under(m, a)[i], forward);
        assert((here + rest)[here.len() + j] == rest[j]);
    }
}

proof fn lemma_reach_start(succ: spec_fn(FunctionKey) -> Seq<Call>, forward: bool, s: FunctionKey)
    ensures
        reachable(succ, forward, s, s),
{
    let p = seq![s];
    assert(is_walk(succ, forward, p) && p[0] == s && p.last() == s);
}

proof fn lemma_reach_step(succ: spec_fn(FunctionKey) -> Seq<Call>, forward: bool, s: FunctionKey, a: FunctionKey, b: FunctionKey)
    requires
        reachable(succ, forward, s, a),
        step(succ, forward, a, b),
    ensures
        reachable(succ, forward, s, b),
{
    let p = choose|p: Seq<FunctionKey>| is_walk(succ, forward, p) && p[0] == s && p.last() == a;
    let q = p.push(b);
    assert forall|i: int| 0 <= i < q.len() - 1 implies #[trigger] step(succ, forward, q[i], q[i + 1]) by {
        if i < p.len() - 1 {
            assert(q[i] == p[i] && q[i + 1] == p[i + 1]);
            assert(step(succ, forward, p[i], p[i + 1]));
        } else {
            assert(q[i] == a && q[i + 1] == b);
        }
    }
    assert(is_walk(succ, forward, q) && q[0] == s && q.last() == b);
}

proof fn lemma_closed_holds_walk(
    succ: spec_fn(FunctionKey) -> Seq<Call>,
    forward: bool,
    vis: Seq<FunctionKey>,
    p: Seq<FunctionKey>,
    i: int,
)
    requires
        is_walk(succ, forward, p),
        vis.contains(p[0]),
        forall|v: FunctionKey, b: FunctionKey|
            vis.contains(v) && #[trigger] step(succ, forward, v, b) ==> vis.contains(b),
        0 <= i < p.len(),
    ensures
        vis.contains(p[i]),
    decreases i,
{
    if i > 0 {
        lemma_closed_holds_walk(succ, forward, vis, p, i - 1);
        assert(step(succ, forward, p[i - 1], p[(i - 1) + 1]));
    }
}

/// Every function reachable from `start` along the calls of `m`, `start`
/// included, each once.
fn reach_from(m: &Vec<(FunctionKey, Vec<Call>)>, start: FunctionKey, forward: bool) -> (r: Vec<FunctionKey>)
    ensures
        r@.no_duplicates(),
        forall|x: FunctionKey| r@.contains(x) <==> reachable(succ_of(m@), forward, start, x),
{
    let ghost u = universe(m@, forward, start);
    let mut visited: Vec<FunctionKey> = Vec::new();
    let mut queue: Vec<FunctionKey> = Vec::new();
    queue.push(start);
    let mut head: usize = 0;
    proof {
        broadcast use vstd::seq_lib::seq_to_set_is_finite;
        lemma_reach_start(succ_of(m@), forward, start);
        assert((seq![start] + far_ends(m@, forward))[0] == start);
        assert(u.finite());
    }
    while head < queue.len()
        invariant
            u == universe(m@, forward, start),
            u.finite(),
            head <= queue.len(),
            queue.len() >= 1,
            queue@[0] == start,
            head > 0 ==> visited@.contains(start),
            visited@.no_duplicates(),
            forall|x: FunctionKey| visited@.contains(x) ==> reachable(succ_of(m@), forward, start, x),
            forall|x: FunctionKey| visited@.contains(x) ==> u.contains(x),
            forall|j: int| 0 <= j < queue.len() ==> reachable(succ_of(m@), forward, start, #[trigger] queue@[j]),
            forall|j: int| 0 <= j < queue.len() ==> u.contains(#[trigger] queue@[j]),
            forall|v: FunctionKey, b: FunctionKey|
                visited@.contains(v) && #[trigger] step(succ_of(m@), forward, v, b) ==> visited@.contains(b)
                    || exists|j: int| head <= j < queue.len() && queue@[j] == b,
        decreases u.len() - visited@.len(), queue.len() - head,
    {
        let ghost q0 = queue@;
        let ghost h0 = head as int;
        let ghost v0 = visited@;
        let current = queue[head];
        head = head + 1;
        if holds_key(&visited, current) {
            proof {
                assert forall|v: FunctionKey, b: FunctionKey|
                    visited@.contains(v) && #[trigger] step(succ_of(m@), forward, v, b) implies visited@.contains(b)
                        || exists|j: int| head <= j < queue.len() && queue@[j] == b by {
                    if !visited@.contains(b) {
                        let j = choose|j: int| h0 <= j < q0.len() && q0[j] == b;
                        assert(j != h0);
                        assert(head <= j < queue.len() && queue@[j] == b);
                    }
                }
            }
            continue;
        }
        let old_len = queue.len();
        visited.push(current);
        proof {
            assert forall|x: FunctionKey| visited@.contains(x) implies v0.contains(x) || x == current by {
                let k = choose|k: int| 0 <= k < visited@.len() && visited@[k] == x;
                if k < v0.len() {
                    assert(v0[k] == x);
                }
            }
            assert forall|x: FunctionKey| v0.contains(x) implies visited@.contains(x) by {
                let k = choose|k: int| 0 <= k < v0.len() && v0[k] == x;
                assert(visited@[k] == v0[k]);
            }
            assert(visited@[v0.len() as int] == current);
            assert(visited@.contains(current));
            assert(u.contains(q0[h0]));
            assert(reachable(succ_of(m@), forward, start, q0[h0]));
            assert forall|x: FunctionKey| visited@.contains(x) implies reachable(succ_of(m@), forward, start, x) by {
                if x != current {
                    assert(v0.contains(x));
                }
            }
            assert(visited@.to_set().subset_of(u));
            visited@.unique_seq_to_set();
            vstd::set_lib::lemma_len_subset(visited@.to_set(), u);
        }
        match find_key(m, current) {
            Some(idx) => {
                let cs = &m[idx].1;
                let n = cs.len();
                let mut j: usize = 0;
                while j < n
                    invariant
                        u == universe(m@, forward, start),
                        idx < m@.len(),
                        *cs == m@[idx as int].1,
                        calls_under(m@, current) == cs@,
                        n == cs@.len(),
                        j <= n,
                        reachable(succ_of(m@), forward, start, current),
                        old_len == q0.len(),
                        queue.len() == old_len + j,
                        forall|k: int| 0 <= k < j ==> queue@[old_len + k] == far_end(cs@[k], forward),
                        forall|k: int| 0 <= k < queue.len() ==> reachable(succ_of(m@), forward, start, #[trigger] queue@[k]),
                        forall|k: int| 0 <= k < queue.len() ==> u.contains(#[trigger] queue@[k]),
                        forall|k: int| 0 <= k < old_len ==> queue@[k] == q0[k],
                    decreases n - j,
                {
                    let c = cs[j];
                    let next = if forward {
                        c.callee
                    } else {
                        c.caller
                    };
                    proof {
                        assert(far_end(succ_of(m@)(current)[j as int], forward) == next);
                        assert(step(succ_of(m@), forward, current, next));
                        lemma_reach_step(succ_of(m@), forward, start, current, next);
                        lemma_step_in_far_ends(m@, forward, current, j as int);
                        let p = choose|p: int|
                            0 <= p < far_ends(m@, forward).len() && far_ends(m@, forward)[p] == next;
                        assert((seq![start] + far_ends(m@, forward))[p + 1] == next);
                    }
                    queue.push(next);
                    j = j + 1;
                }
                proof {
                    assert forall|v: FunctionKey, b: FunctionKey|
                        visited@.contains(v) && #[trigger] step(succ_of(m@), forward, v, b) implies visited@.contains(b)
                            || exists|k: int| head <= k < queue.len() && queue@[k] == b by {
                        if v == current {
                            let i = choose|i: int|
                                0 <= i < succ_of(m@)(v).len() && far_end(#[trigger] succ_of(m@)(v)[i], forward)
                                    == b;
                            assert(queue@[old_len + i] == b);
                            assert(head <= old_len + i < queue.len());
                        } else {
                            assert(v0.contains(v));
                            assert(v0.contains(b) || exists|j: int| h0 <= j < q0.len() && q0[j] == b);
                            if !v0.contains(b) {
                                let k = choose|k: int| h0 <= k < q0.len() && q0[k] == b;
                                if k != h0 {
                                    assert(queue@[k] == b);
                                } else {
                                    assert(b == current);
                                }
                            }
                        }
                    }
                }
            },
            None => {
                proof {
                    assert forall|v: FunctionKey, b: FunctionKey|
                        visited@.contains(v) && #[trigger] step(succ_of(m@), forward, v, b) implies visited@.contains(b)
                            || exists|k: int| head <= k < queue.len() && queue@[k] == b by {
                        if v == current {
                            assert(succ_of(m@)(v).len() == 0);
                        } else {
                            assert(v0.contains(v));
                            assert(v0.contains(b) || exists|j: int| h0 <= j < q0.len() && q0[j] == b);
                            if !v0.contains(b) {
                                let k = choose|k: int| h0 <= k < q0.len() && q0[k] == b;
                                if k != h0 {
                                    assert(queue@[k] == b);
                                } else {
                                    assert(b == current);
                                }
                            }
                        }
                    }
                }
            },
        }
    }
    proof {
        assert forall|x: FunctionKey| reachable(succ_of(m@), forward, start, x) implies visited@.contains(x) by {
            let p = choose|p: Seq<FunctionKey>| is_walk(succ_of(m@), forward, p) && p[0] == start && p.last() == x;
            lemma_closed_holds_walk(succ_of(m@), forward, visited@, p, p.len() - 1);
        }
    }
    visited
}


// ---------------------------------------------------------------------------
// The call graph
// ---------------------------------------------------------------------------
/// What the call graph reads of one function of the compiled package.
#[derive(Debug, Clone)]
pub struct FunctionFacts {
    pub key: FunctionKey,
    /// Its return type is a value without `drop`.
    pub returns_hot_potato: bool,
    /// It takes a value without `drop` by value.
    pub takes_hot_potato: bool,
    /// Its return type has `key` and `store`.
    pub returns_key_store: bool,
    /// It is `public`.
    pub is_public: bool,
    /// It takes a value with `key` and `store` by value.
    pub takes_key_store: bool,
    /// The module calls in its body, in the order the body holds them: the
    /// called function and where the call stands.
    pub calls: Vec<(FunctionKey, u64)>,
}

/// Call graph of a program.
pub struct CallGraph {
    /// Each function's calls.
    pub calls: Vec<(FunctionKey, Vec<Call>)>,
    /// The calls into each function.
    pub callers: Vec<(FunctionKey, Vec<Call>)>,
    /// Functions that handle capabilities.
    pub capability_handlers: Vec<FunctionKey>,
    /// Functions that create resources.
    pub resource_creators: Vec<(FunctionKey, ResourceKind)>,
    /// Functions that consume resources.
    pub resource_consumers: Vec<(FunctionKey, ResourceKind)>,
}

impl Default for CallGraph {
    fn default() -> (g: Self)
        ensures
            g.calls@.len() == 0,
            g.callers@.len() == 0,
            g.capability_handlers@.len() == 0,
            g.resource_creators@.len() == 0,
            g.resource_consumers@.len() == 0,
    {
        CallGraph {
            calls: Vec::new(),
            callers: Vec::new(),
            capability_handlers: Vec::new(),
            resource_creators: Vec::new(),
            resource_consumers: Vec::new(),
        }
    }
}

/// `module` lies in the package boundary `roots` (everything does without one).
pub open spec fn in_roots(roots: Option<Seq<u64>>, module: u64) -> bool {
    match roots {
        Some(r) => r.contains(module),
        None => true,
    }
}

/// The boundary as a sequence of module numbers.
pub open spec fn roots_view(roots: Option<&Vec<u64>>) -> Option<Seq<u64>> {
    match roots {
        Some(r) => Some(r@),
        None => None,
    }
}

/// The calls of `key` that the graph records, in body order: those whose
/// caller and callee both lie in the boundary.
pub open spec fn scoped_calls(key: FunctionKey, cs: Seq<(FunctionKey, u64)>, roots: Option<Seq<u64>>) -> Seq<Call>
    decreases cs.len(),
{
    if cs.len() == 0 {
        Seq::empty()
    } else {
        scoped_calls(key, cs.drop_last(), roots) + if in_roots(roots, key.module) && in_roots(
            roots,
            cs.last().0.module,
        ) {
            seq![Call { caller: key, callee: cs.last().0, loc: cs.last().1 }]
        } else {
            Seq::empty()
        }
    }
}

/// What a function creates: a flash loan when it takes and returns values
/// without `drop`, a capability when it returns a `key + store` value.
pub open spec fn creation_kind(f: FunctionFacts) -> Option<ResourceKind> {
    if f.returns_hot_potato && f.takes_hot_potato {
        Some(ResourceKind::FlashLoan)
    } else if f.returns_key_store {
        Some(ResourceKind::Capability)
    } else {
        None
    }
}

/// What a function consumes: a flash loan when it takes a value without `drop`.
pub open spec fn consumption_kind(f: FunctionFacts) -> Option<ResourceKind> {
    if f.takes_hot_potato {
        Some(ResourceKind::FlashLoan)
    } else {
        None
    }
}

/// The calls the graph built from `fs` records for `x`: those of the last
/// function in the boundary keyed `x` that records any.
pub open spec fn built_calls(fs: Seq<FunctionFacts>, roots: Option<Seq<u64>>, x: FunctionKey) -> Seq<Call>
    decreases fs.len(),
{
    if fs.len() == 0 {
        Seq::empty()
    } else {
        let f = fs.last();
        let sc = scoped_calls(f.key, f.calls@, roots);
        if f.key == x && in_roots(roots, f.key.module) && sc.len() > 0 {
            sc
        } else {
            built_calls(fs.drop_last(), roots, x)
        }
    }
}

/// What the graph built from `fs` records that `x` creates (`creating`) or
/// consumes: the kind of the last function in the boundary keyed `x` that has one.
pub open spec fn built_kind(fs: Seq<FunctionFacts>, roots: Option<Seq<u64>>, x: FunctionKey, creating: bool) -> Option<ResourceKind>
    decreases fs.len(),
{
    if fs.len() == 0 {
        None
    } else {
        let f = fs.last();
        let k = if creating {
            creation_kind(f)
        } else {
            consumption_kind(f)
        };
        if f.key == x && in_roots(roots, f.key.module) && k is Some {
            k
        } else {
            built_kind(fs.drop_last(), roots, x, creating)
        }
    }
}

/// The calls of `cs` into `b`, in order.
pub open spec fn calls_into(cs: Seq<Call>, b: FunctionKey) -> Seq<Call>
    decreases cs.len(),
{
    if cs.len() == 0 {
        Seq::empty()
    } else {
        calls_into(cs.drop_last(), b) + if cs.last().callee == b {
            seq![cs.last()]
        } else {
            Seq::empty()
        }
    }
}

/// The calls into `b` that the call lists of `m` hold, in the order of `m`.
pub open spec fn callers_model(m: Seq<(FunctionKey, Vec<Call>)>, b: FunctionKey) -> Seq<Call>
    decreases m.len(),
{
    if m.len() == 0 {
        Seq::empty()
    } else {
        callers_model(m.drop_last(), b) + calls_into(m.last().1@, b)
    }
}

impl CallGraph {
    /// The graph is the one built from `fs` within `roots`.
    pub open spec fn built_from(self, fs: Seq<FunctionFacts>, roots: Option<Seq<u64>>) -> bool {
        &&& forall|x: FunctionKey| #[trigger] calls_under(self.calls@, x) == built_calls(fs, roots, x)
        &&& forall|x: FunctionKey| #[trigger] lookup(self.resource_creators@, x) == built_kind(fs, roots, x, true)
        &&& forall|x: FunctionKey| #[trigger] lookup(self.resource_consumers@, x) == built_kind(fs, roots, x, false)
        &&& self.capability_handlers@.len() == 0
        &&& forall|b: FunctionKey| #[trigger] calls_under(self.callers@, b) == callers_model(self.calls@, b)
        &&& distinct_keys(self.calls@)
        &&& keys_ascending(self.calls@)
        &&& forall|i: int| 0 <= i < self.calls@.len() ==> (#[trigger] self.calls@[i]).1@.len() > 0
        &&& distinct_keys(self.resource_creators@)
        &&& distinct_keys(self.resource_consumers@)
    }
}

/// `roots` holds `module`.
pub fn module_in(roots: &Vec<u64>, module: u64) -> (b: bool)
    ensures
        b == roots@.contains(module),
{
    let n = roots.len();
    let mut i: usize = 0;
    while i < n
        invariant
            n == roots@.len(),
            i <= n,
            forall|j: int| 0 <= j < i ==> roots@[j] != module,
        decreases n - i,
    {
        if roots[i] == module {
            return true;
        }
        i = i + 1;
    }
    false
}

fn in_scope(roots: Option<&Vec<u64>>, module: u64) -> (b: bool)
    ensures
        b == in_roots(roots_view(roots), module),
{
    match roots {
        Some(r) => module_in(r, module),
        None => true,
    }
}

/// Adds `c` at the end of the calls `m` lists under `k`.
fn push_under(m: &mut Vec<(FunctionKey, Vec<Call>)>, k: FunctionKey, c: Call)
    ensures
        calls_under(final(m)@, k) == calls_under(old(m)@, k).push(c),
        forall|x: FunctionKey| x != k ==> calls_under(final(m)@, x) == calls_under(old(m)@, x),
{
    match find_key(m, k) {
        Some(i) => {
            let ghost before = m@;
            let (key, mut cs) = m.remove(i);
            cs.push(c);
            m.insert(i, (key, cs));
            proof {
                assert(m@ =~= before.update(i as int, (k, cs)));
                lemma_lookup_first(m@, k, i as int);
                assert forall|x: FunctionKey| x != k implies calls_under(m@, x) == calls_under(before, x) by {
                    lemma_lookup_update(before, i as int, k, cs, x);
                }
            }
        },
        None => {
            let mut cs: Vec<Call> = Vec::new();
            cs.push(c);
            map_insert(m, k, cs);
            assert(calls_under(old(m)@, k) =~= Seq::<Call>::empty());
            assert(cs@ =~= Seq::<Call>::empty().push(c));
        },
    }
}

impl CallGraph {
    /// Builds the call graph of the whole program.
    pub fn build(functions: &Vec<FunctionFacts>) -> (g: Self)
        ensures
            g.built_from(functions@, None),
    {
        Self::build_scoped(functions, None)
    }

    /// Builds the call graph within a package boundary: only the functions of
    /// modules in `roots` are read, and only calls between such modules kept.
    pub fn build_scoped(functions: &Vec<FunctionFacts>, roots: Option<&Vec<u64>>) -> (g: Self)
        ensures
            g.built_from(functions@, roots_view(roots)),
    {
        let ghost rv = roots_view(roots);
        let mut graph = CallGraph::default();
        let n = functions.len();
        let mut i: usize = 0;
        while i < n
            invariant
                n == functions@.len(),
                i <= n,
                rv == roots_view(roots),
                forall|x: FunctionKey| #[trigger] calls_under(graph.calls@, x) == built_calls(functions@.take(i as int), rv, x),
                forall|x: FunctionKey| #[trigger] lookup(graph.resource_creators@, x) == built_kind(functions@.take(i as int), rv, x, true),
                forall|x: FunctionKey| #[trigger] lookup(graph.resource_consumers@, x) == built_kind(functions@.take(i as int), rv, x, false),
                graph.capability_handlers@.len() == 0,
                graph.callers@.len() == 0,
                distinct_keys(graph.calls@),
                keys_ascending(graph.calls@),
                forall|i: int| 0 <= i < graph.calls@.len() ==> (#[trigger] graph.calls@[i]).1@.len() > 0,
                distinct_keys(graph.resource_creators@),
                distinct_keys(graph.resource_consumers@),
            decreases n - i,
        {
            let f = &functions[i];
            let ghost pre = functions@.take(i as int);
            proof {
                assert(functions@.take(i + 1).drop_last() =~= pre);
                assert(functions@.take(i + 1).last() == *f);
            }
            if in_scope(roots, f.key.module) {
                graph.analyze_function(f, roots);
            }
            i = i + 1;
        }
        proof {
            assert(functions@.take(n as int) =~= functions@);
        }
        graph.build_caller_map();
        graph
    }

    fn analyze_function(&mut self, f: &FunctionFacts, roots: Option<&Vec<u64>>)
        requires
            keys_ascending(old(self).calls@),
        ensures
            forall|x: FunctionKey| #[trigger] calls_under(final(self).calls@, x) == (if x == f.key && scoped_calls(f.key, f.calls@, roots_view(roots)).len() > 0 {
                scoped_calls(f.key, f.calls@, roots_view(roots))
            } else {
                calls_under(old(self).calls@, x)
            }),
            forall|x: FunctionKey| #[trigger] lookup(final(self).resource_creators@, x) == (if x == f.key && creation_kind(*f) is Some {
                creation_kind(*f)
            } else {
                lookup(old(self).resource_creators@, x)
            }),
            forall|x: FunctionKey| #[trigger] lookup(final(self).resource_consumers@, x) == (if x == f.key && consumption_kind(*f) is Some {
                consumption_kind(*f)
            } else {
                lookup(old(self).resource_consumers@, x)
            }),
            final(self).capability_handlers@ == old(self).capability_handlers@,
            final(self).callers@ == old(self).callers@,
            keys_ascending(final(self).calls@),
            distinct_keys(final(self).calls@),
            (forall|i: int| 0 <= i < old(self).calls@.len() ==> (#[trigger] old(self).calls@[i]).1@.len() > 0)
                ==> forall|i: int| 0 <= i < final(self).calls@.len() ==> (#[trigger] final(self).calls@[i]).1@.len() > 0,
            distinct_keys(old(self).resource_creators@) ==> distinct_keys(final(self).resource_creators@),
            distinct_keys(old(self).resource_consumers@) ==> distinct_keys(final(self).resource_consumers@),
    {
        let caller_key = f.key;
        if Self::is_capability_handler(f) {
            self.capability_handlers.push(caller_key);
        }
        if let Some(kind) = Self::detects_resource_creation(f) {
            map_insert(&mut self.resource_creators, caller_key, kind);
        }
        if let Some(kind) = Self::detects_resource_consumption(f) {
            map_insert(&mut self.resource_consumers, caller_key, kind);
        }
        let calls = Self::extract_calls(f, roots);
        if calls.len() > 0 {
            sorted_map_insert(&mut self.calls, caller_key, calls);
        }
    }

    /// No function is classed as a capability handler: leaks are found from
    /// the values that calls pass instead.
    fn is_capability_handler(_f: &FunctionFacts) -> (b: bool)
        ensures
            !b,
    {
        false
    }

    fn detects_resource_creation(f: &FunctionFacts) -> (r: Option<ResourceKind>)
        ensures
            r == creation_kind(*f),
    {
        if f.returns_hot_potato && f.takes_hot_potato {
            return Some(ResourceKind::FlashLoan);
        }
        if f.returns_key_store {
            return Some(ResourceKind::Capability);
        }
        None
    }

    fn detects_resource_consumption(f: &FunctionFacts) -> (r: Option<ResourceKind>)
        ensures
            r == consumption_kind(*f),
    {
        if f.takes_hot_potato {
            return Some(ResourceKind::FlashLoan);
        }
        None
    }

    /// The calls of `f` that the graph records, in body order.
    fn extract_calls(f: &FunctionFacts, roots: Option<&Vec<u64>>) -> (r: Vec<Call>)
        ensures
            r@ == scoped_calls(f.key, f.calls@, roots_view(roots)),
    {
        let mut calls: Vec<Call> = Vec::new();
        let n = f.calls.len();
        let mut i: usize = 0;
        while i < n
            invariant
                n == f.calls@.len(),
                i <= n,
                calls@ == scoped_calls(f.key, f.calls@.take(i as int), roots_view(roots)),
            decreases n - i,
        {
            let (callee, loc) = f.calls[i];
            proof {
                assert(f.calls@.take(i + 1).drop_last() =~= f.calls@.take(i as int));
                assert(f.calls@.take(i + 1).last() == (callee, loc));
            }
            Self::record_call_if_in_scope(&mut calls, f.key, callee, loc, roots);
            i = i + 1;
        }
        proof {
            assert(f.calls@.take(n as int) =~= f.calls@);
        }
        calls
    }

    fn record_call_if_in_scope(
        calls: &mut Vec<Call>,
        caller: FunctionKey,
        callee: FunctionKey,
        loc: u64,
        roots: Option<&Vec<u64>>,
    )
        ensures
            final(calls)@ == old(calls)@ + if in_roots(roots_view(roots), caller.module) && in_roots(
                roots_view(roots),
                callee.module,
            ) {
                seq![Call { caller, callee, loc }]
            } else {
                Seq::empty()
            },
    {
        if !in_scope(roots, caller.module) || !in_scope(roots, callee.module) {
            assert(old(calls)@ + Seq::<Call>::empty() =~= old(calls)@);
            return;
        }
        calls.push(Call { caller, callee, loc });
        assert(old(calls)@ + seq![Call { caller, callee, loc }] =~= old(calls)@.push(Call { caller, callee, loc }));
    }

    fn build_caller_map(&mut self)
        requires
            old(self).callers@.len() == 0,
        ensures
            forall|b: FunctionKey| #[trigger] calls_under(final(self).callers@, b) == callers_model(final(self).calls@, b),
            final(self).calls@ == old(self).calls@,
            final(self).capability_handlers@ == old(self).capability_handlers@,
            final(self).resource_creators@ == old(self).resource_creators@,
            final(self).resource_consumers@ == old(self).resource_consumers@,
    {
        let n = self.calls.len();
        let mut i: usize = 0;
        proof {
            assert forall|b: FunctionKey| #[trigger] calls_under(self.callers@, b) == callers_model(self.calls@.take(0), b) by {
                assert(self.calls@.take(0).len() == 0);
            }
        }
        while i < n
            invariant
                n == self.calls@.len(),
                i <= n,
                self.calls@ == old(self).calls@,
                self.capability_handlers@ == old(self).capability_handlers@,
                self.resource_creators@ == old(self).resource_creators@,
                self.resource_consumers@ == old(self).resource_consumers@,
                forall|b: FunctionKey| #[trigger] calls_under(self.callers@, b) == callers_model(self.calls@.take(i as int), b),
            decreases n - i,
        {
            let m = self.calls[i].1.len();
            let mut j: usize = 0;
            proof {
                assert forall|b: FunctionKey| #[trigger] calls_under(self.callers@, b) == callers_model(self.calls@.take(i as int), b)
                    + calls_into(self.calls@[i as int].1@.take(0), b) by {
                    assert(self.calls@[i as int].1@.take(0).len() == 0);
                    assert(callers_model(self.calls@.take(i as int), b) + Seq::<Call>::empty() =~= callers_model(self.calls@.take(i as int), b));
                }
            }
            while j < m
                invariant
                    n == self.calls@.len(),
                    i < n,
                    m == self.calls@[i as int].1@.len(),
                    j <= m,
                    self.calls@ == old(self).calls@,
                    self.capability_handlers@ == old(self).capability_handlers@,
                    self.resource_creators@ == old(self).resource_creators@,
                    self.resource_consumers@ == old(self).resource_consumers@,
                    forall|b: FunctionKey| #[trigger] calls_under(self.callers@, b) == callers_model(self.calls@.take(i as int), b)
                        + calls_into(self.calls@[i as int].1@.take(j as int), b),
                decreases m - j,
            {
                let c = self.calls[i].1[j];
                let ghost before = self.callers@;
                push_under(&mut self.callers, c.callee, c);
                proof {
                    let cs = self.calls@[i as int].1@;
                    assert(cs.take(j + 1).drop_last() =~= cs.take(j as int));
                    assert(cs.take(j + 1).last() == c);
                    assert forall|b: FunctionKey| #[trigger] calls_under(self.callers@, b) == callers_model(self.calls@.take(i as int), b)
                        + calls_into(cs.take(j + 1), b) by {
                        if b == c.callee {
                            assert(calls_under(self.callers@, b) == calls_under(before, b).push(c));
                            assert(callers_model(self.calls@.take(i as int), b) + calls_into(cs.take(j + 1), b) =~= (
                            callers_model(self.calls@.take(i as int), b) + calls_into(cs.take(j as int), b)).push(c));
                        } else {
                            assert(calls_under(self.callers@, b) == calls_under(before, b));
                            assert(calls_into(cs.take(j + 1), b) =~= calls_into(cs.take(j as int), b));
                        }
                    }
                }
                j = j + 1;
            }
            proof {
                let cs = self.calls@[i as int].1@;
                assert(cs.take(m as int) =~= cs);
                assert(self.calls@.take(i + 1).drop_last() =~= self.calls@.take(i as int));
                assert(self.calls@.take(i + 1).last() == self.calls@[i as int]);
            }
            i = i + 1;
        }
        proof {
            assert(self.calls@.take(n as int) =~= self.calls@);
        }
    }

    /// Every function that calls `target`, directly or through others,
    /// `target` included, in ascending order of key.
    pub fn transitive_callers(&self, target: FunctionKey) -> (r: Vec<FunctionKey>)
        ensures
            strictly_sorted(r@),
            r@.no_duplicates(),
            forall|x: FunctionKey| r@.contains(x) <==> reachable(succ_of(self.callers@), false, target, x),
    {
        let found = reach_from(&self.callers, target, false);
        sort_keys(&found)
    }

    /// Every function that `source` calls, directly or through others,
    /// `source` included, in ascending order of key.
    pub fn transitive_callees(&self, source: FunctionKey) -> (r: Vec<FunctionKey>)
        ensures
            strictly_sorted(r@),
            r@.no_duplicates(),
            forall|x: FunctionKey| r@.contains(x) <==> reachable(succ_of(self.calls@), true, source, x),
    {
        let found = reach_from(&self.calls, source, true);
        sort_keys(&found)
    }

    /// A capability flows from `source` to `dest`: `source` handles
    /// capabilities and `dest` is among the functions it calls.
    pub fn has_capability_flow(&self, source: FunctionKey, dest: FunctionKey) -> (b: bool)
        ensures
            b == (self.capability_handlers@.contains(source) && reachable(succ_of(self.calls@), true, source, dest)),
    {
        if !holds_key(&self.capability_handlers, source) {
            return false;
        }
        let reachable_set = self.transitive_callees(source);
        holds_key(&reachable_set, dest)
    }
}

// ---------------------------------------------------------------------------
// Callers and callees
// ---------------------------------------------------------------------------
proof fn lemma_calls_into_contains(cs: Seq<Call>, b: FunctionKey, c: Call)
    ensures
        calls_into(cs, b).contains(c) <==> cs.contains(c) && c.callee == b,
    decreases cs.len(),
{
    if cs.len() > 0 {
        lemma_calls_into_contains(cs.drop_last(), b, c);
        let rest = calls_into(cs.drop_last(), b);
        let tail = if cs.last().callee == b {
            seq![cs.last()]
        } else {
            Seq::<Call>::empty()
        };
        assert(calls_into(cs, b) == rest + tail);
        if calls_into(cs, b).contains(c) {
            let k = choose|k: int| 0 <= k < (rest + tail).len() && (rest + tail)[k] == c;
            if k < rest.len() {
                assert(rest[k] == c);
                let q = choose|q: int| 0 <= q < cs.drop_last().len() && cs.drop_last()[q] == c;
                assert(cs[q] == c);
            } else {
                assert(cs[cs.len() - 1] == c);
            }
        }
        if cs.contains(c) && c.callee == b {
            let q = choose|q: int| 0 <= q < cs.len() && cs[q] == c;
            if q < cs.len() - 1 {
                assert(cs.drop_last()[q] == c);
                let k = choose|k: int| 0 <= k < rest.len() && rest[k] == c;
                assert((rest + tail)[k] == c);
            } else {
                assert((rest + tail)[rest.len() as int] == c);
            }
        }
    }
}

proof fn lemma_callers_model_contains(m: Seq<(FunctionKey, Vec<Call>)>, b: FunctionKey, c: Call)
    ensures
        callers_model(m, b).contains(c) <==> c.callee == b && exists|j: int|
            0 <= j < m.len() && (#[trigger] m[j]).1@.contains(c),
    decreases m.len(),
{
    if m.len() > 0 {
        lemma_callers_model_contains(m.drop_last(), b, c);
        lemma_calls_into_contains(m.last().1@, b, c);
        let rest = callers_model(m.drop_last(), b);
        let tail = calls_into(m.last().1@, b);
        if callers_model(m, b).contains(c) {
            let k = choose|k: int| 0 <= k < (rest + tail).len() && (rest + tail)[k] == c;
            if k < rest.len() {
                assert(rest[k] == c);
                let j = choose|j: int| 0 <= j < m.drop_last().len() && (#[trigger] m.drop_last()[j]).1@.contains(c);
                assert(m[j] == m.drop_last()[j]);
            } else {
                assert(tail[k - rest.len()] == c);
                assert(m[m.len() - 1] == m.last());
            }
        }
        if c.callee == b && exists|j: int| 0 <= j < m.len() && (#[trigger] m[j]).1@.contains(c) {
            let j = choose|j: int| 0 <= j < m.len() && (#[trigger] m[j]).1@.contains(c);
            if j < m.len() - 1 {
                assert(m.drop_last()[j] == m[j]);
                let k = choose|k: int| 0 <= k < rest.len() && rest[k] == c;
                assert((rest + tail)[k] == c);
            } else {
                let k = choose|k: int| 0 <= k < tail.len() && tail[k] == c;
                assert((rest + tail)[rest.len() + k] == c);
            }
        }
    }
}

proof fn lemma_scoped_caller(key: FunctionKey, cs: Seq<(FunctionKey, u64)>, roots: Option<Seq<u64>>, i: int)
    requires
        0 <= i < scoped_calls(key, cs, roots).len(),
    ensures
        scoped_calls(key, cs, roots)[i].caller == key,
    decreases cs.len(),
{
    let rest = scoped_calls(key, cs.drop_last(), roots);
    if i < rest.len() {
        lemma_scoped_caller(key, cs.drop_last(), roots, i);
    }
}

proof fn lemma_built_caller(fs: Seq<FunctionFacts>, roots: Option<Seq<u64>>, x: FunctionKey, i: int)
    requires
        0 <= i < built_calls(fs, roots, x).len(),
    ensures
        built_calls(fs, roots, x)[i].caller == x,
    decreases fs.len(),
{
    let f = fs.last();
    let sc = scoped_calls(f.key, f.calls@, roots);
    if f.key == x && in_roots(roots, f.key.module) && sc.len() > 0 {
        lemma_scoped_caller(f.key, f.calls@, roots, i);
    } else {
        lemma_built_caller(fs.drop_last(), roots, x, i);
    }
}

proof fn lemma_step_dual(g: CallGraph, fs: Seq<FunctionFacts>, roots: Option<Seq<u64>>, a: FunctionKey, b: FunctionKey)
    requires
        g.built_from(fs, roots),
    ensures
        step(succ_of(g.callers@), false, b, a) == step(succ_of(g.calls@), true, a, b),
{
    let m = g.calls@;
    if step(succ_of(g.callers@), false, b, a) {
        let i = choose|i: int|
            0 <= i < succ_of(g.callers@)(b).len() && far_end(#[trigger] succ_of(g.callers@)(b)[i], false) == a;
        let c = calls_under(g.callers@, b)[i];
        assert(callers_model(m, b).contains(c));
        lemma_callers_model_contains(m, b, c);
        let j = choose|j: int| 0 <= j < m.len() && (#[trigger] m[j]).1@.contains(c);
        lemma_entry_is_lookup(m, j);
        let q = choose|q: int| 0 <= q < m[j].1@.len() && m[j].1@[q] == c;
        assert(calls_under(m, m[j].0)[q] == c);
        lemma_built_caller(fs, roots, m[j].0, q);
        assert(m[j].0 == a);
        assert(far_end(succ_of(m)(a)[q], true) == b);
    }
    if step(succ_of(m), true, a, b) {
        let q = choose|q: int| 0 <= q < succ_of(m)(a).len() && far_end(#[trigger] succ_of(m)(a)[q], true) == b;
        let c = calls_under(m, a)[q];
        lemma_built_caller(fs, roots, a, q);
        lemma_lookup_index(m, a);
        let j = choose|j: int| 0 <= j < m.len() && m[j].0 == a && Some(m[j].1) == lookup(m, a);
        assert(m[j].1@[q] == c);
        assert((#[trigger] m[j]).1@.contains(c));
        lemma_callers_model_contains(m, b, c);
        assert(calls_under(g.callers@, b).contains(c));
        let i = choose|i: int| 0 <= i < calls_under(g.callers@, b).len() && calls_under(g.callers@, b)[i] == c;
        assert(far_end(succ_of(g.callers@)(b)[i], false) == a);
    }
}

proof fn lemma_reverse_walk(
    s1: spec_fn(FunctionKey) -> Seq<Call>,
    f1: bool,
    s2: spec_fn(FunctionKey) -> Seq<Call>,
    f2: bool,
    s: FunctionKey,
    x: FunctionKey,
)
    requires
        reachable(s1, f1, s, x),
        forall|a: FunctionKey, b: FunctionKey| #[trigger] step(s1, f1, a, b) ==> step(s2, f2, b, a),
    ensures
        reachable(s2, f2, x, s),
{
    let p = choose|p: Seq<FunctionKey>| is_walk(s1, f1, p) && p[0] == s && p.last() == x;
    let q = p.reverse();
    assert forall|i: int| 0 <= i < q.len() - 1 implies #[trigger] step(s2, f2, q[i], q[i + 1]) by {
        let k = p.len() - 2 - i;
        assert(step(s1, f1, p[k], p[k + 1]));
        assert(q[i] == p[k + 1] && q[i + 1] == p[k]);
    }
    assert(is_walk(s2, f2, q) && q[0] == x && q.last() == s);
}

/// A function calls `target`, directly or through others, exactly when
/// `target` is among the functions it calls, directly or through others.
pub proof fn law_callers_are_inverse_callees(
    g: CallGraph,
    fs: Seq<FunctionFacts>,
    roots: Option<Seq<u64>>,
    target: FunctionKey,
    x: FunctionKey,
)
    requires
        g.built_from(fs, roots),
    ensures
        reachable(succ_of(g.callers@), false, target, x) <==> reachable(succ_of(g.calls@), true, x, target),
{
    assert forall|a: FunctionKey, b: FunctionKey| #[trigger] step(succ_of(g.callers@), false, a, b) implies step(
        succ_of(g.calls@),
        true,
        b,
        a,
    ) by {
        lemma_step_dual(g, fs, roots, b, a);
    }
    assert forall|a: FunctionKey, b: FunctionKey| #[trigger] step(succ_of(g.calls@), true, a, b) implies step(
        succ_of(g.callers@),
        false,
        b,
        a,
    ) by {
        lemma_step_dual(g, fs, roots, a, b);
    }
    if reachable(succ_of(g.callers@), false, target, x) {
        lemma_reverse_walk(succ_of(g.callers@), false, succ_of(g.calls@), true, target, x);
    }
    if reachable(succ_of(g.calls@), true, x, target) {
        lemma_reverse_walk(succ_of(g.calls@), true, succ_of(g.callers@), false, x, target);
    }
}

// ---------------------------------------------------------------------------
// The lints
// ---------------------------------------------------------------------------
/// The facts of the first function keyed `k`.
pub open spec fn facts_of(fs: Seq<FunctionFacts>, k: FunctionKey) -> Option<FunctionFacts>
    decreases fs.len(),
{
    if fs.len() == 0 {
        None
    } else if fs[0].key == k {
        Some(fs[0])
    } else {
        facts_of(fs.drop_first(), k)
    }
}

/// Index of the first function keyed `k`.
pub fn find_function(fs: &Vec<FunctionFacts>, k: FunctionKey) -> (r: Option<usize>)
    ensures
        match r {
            Some(i) => i < fs@.len() && facts_of(fs@, k) == Some(fs@[i as int]),
            None => facts_of(fs@, k) is None,
        },
{
    let n = fs.len();
    let mut i: usize = 0;
    assert(fs@.skip(0) =~= fs@);
    while i < n
        invariant
            n == fs@.len(),
            i <= n,
            facts_of(fs@, k) == facts_of(fs@.skip(i as int), k),
        decreases n - i,
    {
        proof {
            assert(fs@.skip(i as int).drop_first() =~= fs@.skip(i + 1));
            assert(fs@.skip(i as int)[0] == fs@[i as int]);
        }
        if fs[i].key == k {
            return Some(i);
        }
        i = i + 1;
    }
    proof {
        assert(fs@.skip(n as int).len() == 0);
    }
    None
}

/// The calls recorded by the graph built from `fs` within `roots`, as a
/// function from caller to its calls.
pub open spec fn built_succ(fs: Seq<FunctionFacts>, roots: Option<Seq<u64>>) -> spec_fn(FunctionKey) -> Seq<Call> {
    |a: FunctionKey| built_calls(fs, roots, a)
}

/// `y` consumes a flash loan in the graph built from `fs` within `roots`.
pub open spec fn consumes_flashloan(fs: Seq<FunctionFacts>, roots: Seq<u64>, y: FunctionKey) -> bool {
    built_kind(fs, Some(roots), y, false) == Some(ResourceKind::FlashLoan)
}

/// `k` creates a flash loan that nothing it calls, itself included, consumes,
/// though some function of the package consumes one.
pub open spec fn unrepaid_flashloan(fs: Seq<FunctionFacts>, roots: Seq<u64>, k: FunctionKey) -> bool {
    &&& built_kind(fs, Some(roots), k, true) == Some(ResourceKind::FlashLoan)
    &&& roots.contains(k.module)
    &&& exists|y: FunctionKey| consumes_flashloan(fs, roots, y)
    &&& facts_of(fs, k) is Some
    &&& !exists|y: FunctionKey|
        reachable(built_succ(fs, Some(roots)), true, k, y) && roots.contains(y.module) && consumes_flashloan(
            fs,
            roots,
            y,
        )
}

proof fn lemma_entry_is_lookup<V>(m: Seq<(FunctionKey, V)>, i: int)
    requires
        distinct_keys(m),
        0 <= i < m.len(),
    ensures
        lookup(m, m[i].0) == Some(m[i].1),
{
    lemma_lookup_first(m, m[i].0, i);
}

proof fn lemma_creator_consumes(fs: Seq<FunctionFacts>, roots: Option<Seq<u64>>, k: FunctionKey)
    requires
        built_kind(fs, roots, k, true) == Some(ResourceKind::FlashLoan),
    ensures
        built_kind(fs, roots, k, false) == Some(ResourceKind::FlashLoan),
    decreases fs.len(),
{
    let f = fs.last();
    if !(f.key == k && in_roots(roots, f.key.module) && consumption_kind(f) is Some) {
        if f.key == k && in_roots(roots, f.key.module) && creation_kind(f) is Some {
            assert(creation_kind(f) == Some(ResourceKind::FlashLoan));
            assert(f.takes_hot_potato);
        }
        lemma_creator_consumes(fs.drop_last(), roots, k);
    }
}

/// A function that creates a flash loan takes one by value, so it consumes one
/// itself, and the functions it reaches include itself: no flash loan is ever
/// reported unrepaid.
pub proof fn law_flashloan_creator_repays_itself(fs: Seq<FunctionFacts>, roots: Seq<u64>, k: FunctionKey)
    ensures
        !unrepaid_flashloan(fs, roots, k),
{
    if built_kind(fs, Some(roots), k, true) == Some(ResourceKind::FlashLoan) && roots.contains(k.module) {
        lemma_creator_consumes(fs, Some(roots), k);
        lemma_reach_start(built_succ(fs, Some(roots)), true, k);
        assert(reachable(built_succ(fs, Some(roots)), true, k, k) && roots.contains(k.module) && consumes_flashloan(fs, roots, k));
    }
}

/// Some value of `m` is a flash loan.
fn any_flashloan(m: &Vec<(FunctionKey, ResourceKind)>) -> (b: bool)
    ensures
        b == exists|i: int| 0 <= i < m@.len() && m@[i].1 == ResourceKind::FlashLoan,
{
    let n = m.len();
    let mut i: usize = 0;
    while i < n
        invariant
            n == m@.len(),
            i <= n,
            forall|j: int| 0 <= j < i ==> m@[j].1 != ResourceKind::FlashLoan,
        decreases n - i,
    {
        if m[i].1 == ResourceKind::FlashLoan {
            return true;
        }
        i = i + 1;
    }
    false
}

/// Flash loans that are created but not repaid: each function of the package
/// that returns a value without `drop` from one it took, such that nothing it
/// calls takes such a value, once some function of the package does. Such a
/// function takes a value without `drop` itself and is among the functions it
/// reaches, so none is ever reported: the result is empty.
pub fn lint_flashloan_without_repay(functions: &Vec<FunctionFacts>, roots: &Vec<u64>) -> (r: Vec<FunctionKey>)
    ensures
        r@.no_duplicates(),
        forall|k: FunctionKey| r@.contains(k) <==> unrepaid_flashloan(functions@, roots@, k),
        r@.len() == 0,
{
    let graph = CallGraph::build_scoped(functions, Some(roots));
    let ghost fs = functions@;
    let ghost rv = Some(roots@);
    proof {
        assert(roots_view(Some(roots)) == rv);
        assert(succ_of(graph.calls@) =~= built_succ(fs, rv));
    }
    let consumed_somewhere = any_flashloan(&graph.resource_consumers);
    proof {
        if consumed_somewhere {
            let j = choose|j: int|
                0 <= j < graph.resource_consumers@.len() && graph.resource_consumers@[j].1 == ResourceKind::FlashLoan;
            lemma_entry_is_lookup(graph.resource_consumers@, j);
            assert(lookup(graph.resource_consumers@, graph.resource_consumers@[j].0) == built_kind(fs, rv, graph.resource_consumers@[j].0, false));
            assert(consumes_flashloan(fs, roots@, graph.resource_consumers@[j].0));
        } else {
            assert forall|y: FunctionKey| !consumes_flashloan(fs, roots@, y) by {
                if consumes_flashloan(fs, roots@, y) {
                    assert(lookup(graph.resource_consumers@, y) == built_kind(fs, rv, y, false));
                    lemma_lookup_index(graph.resource_consumers@, y);
                }
            }
        }
    }
    let creators = &graph.resource_creators;
    let n = creators.len();
    let mut out: Vec<FunctionKey> = Vec::new();
    let mut i: usize = 0;
    while i < n
        invariant
            n == creators@.len(),
            i <= n,
            *creators == graph.resource_creators,
            graph.built_from(fs, rv),
            fs == functions@,
            rv == Some(roots@),
            succ_of(graph.calls@) == built_succ(fs, rv),
            consumed_somewhere == exists|y: FunctionKey| consumes_flashloan(fs, roots@, y),
            out@.no_duplicates(),
            forall|x: FunctionKey| out@.contains(x) ==> exists|j: int| 0 <= j < i && creators@[j].0 == x,
            forall|x: FunctionKey| out@.contains(x) <==> exists|j: int| 0 <= j < i && creators@[j].0 == x && unrepaid_flashloan(fs, roots@, x),
        decreases n - i,
    {
        let (key, kind) = creators[i];
        proof {
            lemma_entry_is_lookup(creators@, i as int);
            assert(lookup(creators@, key) == built_kind(fs, rv, key, true));
        }
        let mut flagged = false;
        if kind == ResourceKind::FlashLoan && module_in(roots, key.module) && consumed_somewhere {
            if let Some(_) = find_function(functions, key) {
                let callees = graph.transitive_callees(key);
                let mut has_consume = false;
                let m = callees.len();
                let mut j: usize = 0;
                while j < m
                    invariant
                        m == callees@.len(),
                        j <= m,
                        graph.built_from(fs, rv),
                        rv == Some(roots@),
                        has_consume == exists|t: int|
                            0 <= t < j && roots@.contains(callees@[t].module) && consumes_flashloan(
                                fs,
                                roots@,
                                callees@[t],
                            ),
                    decreases m - j,
                {
                    let y = callees[j];
                    let mut consumes = false;
                    if module_in(roots, y.module) {
                        if let Some(idx) = find_key(&graph.resource_consumers, y) {
                            consumes = graph.resource_consumers[idx].1 == ResourceKind::FlashLoan;
                        }
                    }
                    proof {
                        assert(lookup(graph.resource_consumers@, y) == built_kind(fs, rv, y, false));
                        if consumes {
                            assert(roots@.contains(callees@[j as int].module) && consumes_flashloan(fs, roots@, callees@[j as int]));
                        }
                    }
                    has_consume = has_consume || consumes;
                    j = j + 1;
                }
                proof {
                    if has_consume {
                        let t = choose|t: int|
                            0 <= t < m && roots@.contains(callees@[t].module) && consumes_flashloan(fs, roots@, callees@[t]);
                        assert(callees@.contains(callees@[t]));
                    } else {
                        assert forall|y: FunctionKey|
                            !(reachable(built_succ(fs, rv), true, key, y) && roots@.contains(y.module)
                                && consumes_flashloan(fs, roots@, y)) by {
                            if reachable(built_succ(fs, rv), true, key, y) {
                                assert(callees@.contains(y));
                                let t = choose|t: int| 0 <= t < m && callees@[t] == y;
                            }
                        }
                    }
                }
                flagged = !has_consume;
            }
        }
        proof {
            assert(flagged == unrepaid_flashloan(fs, roots@, key));
        }
        let ghost out0 = out@;
        if flagged {
            proof {
                assert(!out@.contains(key)) by {
                    if out@.contains(key) {
                        let j = choose|j: int| 0 <= j < i && creators@[j].0 == key;
                    }
                }
            }
            out.push(key);
        }
        proof {
            assert forall|x: FunctionKey| out@.contains(x) <==> exists|j: int| 0 <= j < i + 1 && creators@[j].0 == x && unrepaid_flashloan(fs, roots@, x) by {
                if out@.contains(x) {
                    if out0.contains(x) {
                        let j = choose|j: int| 0 <= j < i && creators@[j].0 == x && unrepaid_flashloan(fs, roots@, x);
                        assert(0 <= j < i + 1 && creators@[j].0 == x);
                    } else {
                        let t = choose|t: int| 0 <= t < out@.len() && out@[t] == x;
                        if t < out0.len() {
                            assert(out0[t] == x);
                        }
                        assert(x == key);
                        assert(creators@[i as int].0 == x);
                    }
                }
                if exists|j: int| 0 <= j < i + 1 && creators@[j].0 == x && unrepaid_flashloan(fs, roots@, x) {
                    let j = choose|j: int| 0 <= j < i + 1 && creators@[j].0 == x && unrepaid_flashloan(fs, roots@, x);
                    if j < i {
                        assert(out0.contains(x));
                        let t = choose|t: int| 0 <= t < out0.len() && out0[t] == x;
                        assert(out@[t] == x);
                    } else {
                        assert(out@[out@.len() - 1] == key);
                    }
                }
            }
            assert forall|x: FunctionKey| out@.contains(x) implies exists|j: int| 0 <= j < i + 1 && creators@[j].0 == x by {
                let j = choose|j: int| 0 <= j < i + 1 && creators@[j].0 == x && unrepaid_flashloan(fs, roots@, x);
            }
        }
        i = i + 1;
    }
    proof {
        assert forall|k: FunctionKey| unrepaid_flashloan(fs, roots@, k) implies exists|j: int| 0 <= j < n && creators@[j].0 == k by {
            assert(lookup(creators@, k) == built_kind(fs, rv, k, true));
            lemma_lookup_index(creators@, k);
        }
        if out@.len() > 0 {
            assert(out@.contains(out@[0]));
            law_flashloan_creator_repays_itself(fs, roots@, out@[0]);
        }
    }
    out
}

/// The call `c`, recorded for `a`, may leak a capability: `a` and the callee
/// lie in the package but in different modules, and the callee is public and
/// takes a `key + store` value by value.
pub open spec fn leaks_capability(fs: Seq<FunctionFacts>, roots: Seq<u64>, a: FunctionKey, c: Call) -> bool {
    &&& roots.contains(a.module)
    &&& c.callee.module != a.module
    &&& roots.contains(c.callee.module)
    &&& match facts_of(fs, c.callee) {
        Some(f) => f.is_public && f.takes_key_store,
        None => false,
    }
}

/// The calls of `cs`, recorded for `a`, that may leak a capability, in order.
pub open spec fn leaky_calls(fs: Seq<FunctionFacts>, roots: Seq<u64>, a: FunctionKey, cs: Seq<Call>) -> Seq<Call>
    decreases cs.len(),
{
    if cs.len() == 0 {
        Seq::empty()
    } else {
        leaky_calls(fs, roots, a, cs.drop_last()) + if leaks_capability(fs, roots, a, cs.last()) {
            seq![cs.last()]
        } else {
            Seq::empty()
        }
    }
}

/// The leaky calls of the callers `ks`, caller by caller in the order of
/// `ks`, each caller's in the order of its body.
pub open spec fn leaks_in_order(fs: Seq<FunctionFacts>, roots: Seq<u64>, ks: Seq<FunctionKey>) -> Seq<Call>
    decreases ks.len(),
{
    if ks.len() == 0 {
        Seq::empty()
    } else {
        leaks_in_order(fs, roots, ks.drop_last()) + leaky_calls(
            fs,
            roots,
            ks.last(),
            built_calls(fs, Some(roots), ks.last()),
        )
    }
}

/// `ks` lists, in ascending order of key, the callers for which the graph
/// built from `fs` within `roots` records calls (there is one such list).
pub open spec fn recorded_callers(fs: Seq<FunctionFacts>, roots: Option<Seq<u64>>, ks: Seq<FunctionKey>) -> bool {
    &&& strictly_sorted(ks)
    &&& forall|a: FunctionKey| ks.contains(a) <==> built_calls(fs, roots, a).len() > 0
}

/// Two lists of functions in strictly ascending order of key that hold the
/// same functions are the same list.
pub proof fn lemma_sorted_keys_unique(k1: Seq<FunctionKey>, k2: Seq<FunctionKey>)
    requires
        strictly_sorted(k1),
        strictly_sorted(k2),
        forall|a: FunctionKey| k1.contains(a) <==> k2.contains(a),
    ensures
        k1 == k2,
    decreases k1.len(),
{
    if k1.len() == 0 {
        if k2.len() > 0 {
            assert(k2.contains(k2[0]));
        }
        assert(k1 =~= k2);
    } else {
        assert(k1.contains(k1[0]));
        let j = choose|j: int| 0 <= j < k2.len() && k2[j] == k1[0];
        assert(k2.contains(k2[0]));
        let i = choose|i: int| 0 <= i < k1.len() && k1[i] == k2[0];
        if j > 0 {
            assert(key_before(k2[0], k2[j]));
            if i > 0 {
                assert(key_before(k1[0], k1[i]));
            }
        }
        assert(k2[0] == k1[0]);
        let r1 = k1.drop_first();
        let r2 = k2.drop_first();
        assert forall|a: FunctionKey| r1.contains(a) <==> r2.contains(a) by {
            if r1.contains(a) {
                let x = choose|x: int| 0 <= x < r1.len() && r1[x] == a;
                assert(k1[x + 1] == a);
                assert(key_before(k1[0], k1[x + 1]));
                assert(k2.contains(a));
                let y = choose|y: int| 0 <= y < k2.len() && k2[y] == a;
                assert(y != 0);
                assert(r2[y - 1] == a);
            }
            if r2.contains(a) {
                let x = choose|x: int| 0 <= x < r2.len() && r2[x] == a;
                assert(k2[x + 1] == a);
                assert(key_before(k2[0], k2[x + 1]));
                assert(k1.contains(a));
                let y = choose|y: int| 0 <= y < k1.len() && k1[y] == a;
                assert(y != 0);
                assert(r1[y - 1] == a);
            }
        }
        assert forall|x: int, y: int| 0 <= x < y < r1.len() implies key_before(#[trigger] r1[x], #[trigger] r1[y]) by {
            assert(r1[x] == k1[x + 1] && r1[y] == k1[y + 1]);
        }
        assert forall|x: int, y: int| 0 <= x < y < r2.len() implies key_before(#[trigger] r2[x], #[trigger] r2[y]) by {
            assert(r2[x] == k2[x + 1] && r2[y] == k2[y + 1]);
        }
        lemma_sorted_keys_unique(r1, r2);
        assert(k1 =~= seq![k1[0]] + r1);
        assert(k2 =~= seq![k2[0]] + r2);
    }
}

/// There is one list of recorded callers, so the leak findings are fixed.
pub proof fn lemma_recorded_callers_unique(
    fs: Seq<FunctionFacts>,
    roots: Option<Seq<u64>>,
    k1: Seq<FunctionKey>,
    k2: Seq<FunctionKey>,
)
    requires
        recorded_callers(fs, roots, k1),
        recorded_callers(fs, roots, k2),
    ensures
        k1 == k2,
{
    lemma_sorted_keys_unique(k1, k2);
}

/// The cross-module calls that may leak a capability value into a public
/// function, taken from the graph built within the package: one finding per
/// call, caller by caller in ascending order of key, each caller's calls in
/// the order of its body.
pub fn lint_transitive_capability_leak(functions: &Vec<FunctionFacts>, roots: &Vec<u64>) -> (r: Vec<Call>)
    ensures
        exists|ks: Seq<FunctionKey>|
            recorded_callers(functions@, Some(roots@), ks) && r@ == leaks_in_order(functions@, roots@, ks),
        forall|i: int| 0 <= i < r@.len() ==> {
            let c = #[trigger] r@[i];
            &&& roots@.contains(c.callee.module)
            &&& facts_of(functions@, c.callee) matches Some(f) && f.key == c.callee && f.is_public && f.takes_key_store
        },
{
    let graph = CallGraph::build_scoped(functions, Some(roots));
    let ghost fs = functions@;
    let ghost rv = Some(roots@);
    proof {
        assert(roots_view(Some(roots)) == rv);
    }
    let entries = &graph.calls;
    let ghost ks = entries@.map_values(|e: (FunctionKey, Vec<Call>)| e.0);
    let n = entries.len();
    let mut out: Vec<Call> = Vec::new();
    let mut i: usize = 0;
    proof {
        assert(ks.take(0) =~= Seq::<FunctionKey>::empty());
    }
    while i < n
        invariant
            n == entries@.len(),
            i <= n,
            *entries == graph.calls,
            ks == entries@.map_values(|e: (FunctionKey, Vec<Call>)| e.0),
            graph.built_from(fs, rv),
            fs == functions@,
            rv == Some(roots@),
            out@ == leaks_in_order(fs, roots@, ks.take(i as int)),
        decreases n - i,
    {
        let caller = entries[i].0;
        let calls = &entries[i].1;
        proof {
            lemma_entry_is_lookup(entries@, i as int);
            assert(calls_under(entries@, caller) == built_calls(fs, rv, caller));
            assert(calls@ == built_calls(fs, rv, caller));
            assert(ks[i as int] == caller);
            assert(ks.take(i + 1).drop_last() =~= ks.take(i as int));
            assert(ks.take(i + 1).last() == caller);
        }
        let ghost out_i = out@;
        let m = calls.len();
        let mut t: usize = 0;
        proof {
            assert(calls@.take(0) =~= Seq::<Call>::empty());
            assert(out@ =~= out_i + leaky_calls(fs, roots@, caller, calls@.take(0)));
        }
        while t < m
            invariant
                m == calls@.len(),
                t <= m,
                fs == functions@,
                out@ == out_i + leaky_calls(fs, roots@, caller, calls@.take(t as int)),
            decreases m - t,
        {
            let c = calls[t];
            let mut leak = false;
            if module_in(roots, caller.module) && c.callee.module != caller.module && module_in(roots, c.callee.module) {
                if let Some(idx) = find_function(functions, c.callee) {
                    leak = functions[idx].is_public && functions[idx].takes_key_store;
                }
            }
            assert(leak == leaks_capability(fs, roots@, caller, c));
            proof {
                assert(calls@.take(t + 1).drop_last() =~= calls@.take(t as int));
                assert(calls@.take(t + 1).last() == c);
            }
            if leak {
                out.push(c);
                assert(out@ =~= out_i + leaky_calls(fs, roots@, caller, calls@.take(t + 1)));
            } else {
                assert(out@ =~= out_i + leaky_calls(fs, roots@, caller, calls@.take(t + 1)));
            }
            t = t + 1;
        }
        proof {
            assert(calls@.take(m as int) =~= calls@);
            assert(out@ =~= leaks_in_order(fs, roots@, ks.take(i + 1)));
        }
        i = i + 1;
    }
    proof {
        assert(ks.take(n as int) =~= ks);
        assert forall|x: int, y: int| 0 <= x < y < ks.len() implies key_before(#[trigger] ks[x], #[trigger] ks[y]) by {
            assert(ks[x] == entries@[x].0 && ks[y] == entries@[y].0);
        }
        assert forall|a: FunctionKey| ks.contains(a) <==> built_calls(fs, rv, a).len() > 0 by {
            if ks.contains(a) {
                let j = choose|j: int| 0 <= j < ks.len() && ks[j] == a;
                lemma_entry_is_lookup(entries@, j);
                assert(calls_under(entries@, a) == built_calls(fs, rv, a));
                assert(entries@[j].1@.len() > 0);
            }
            if built_calls(fs, rv, a).len() > 0 {
                assert(calls_under(entries@, a) == built_calls(fs, rv, a));
                lemma_lookup_index(entries@, a);
                let j = choose|j: int| 0 <= j < entries@.len() && entries@[j].0 == a && Some(entries@[j].1) == lookup(entries@, a);
                assert(ks[j] == a);
            }
        }
        assert(recorded_callers(fs, rv, ks));
        law_leaks_reach_key_store_takers(fs, roots@, ks);
    }
    out
}

/// Every leak reported goes from a caller of the package to a public
/// function of another package module that takes a `key + store` value by
/// value: a call to a public function that takes none is never reported.
pub proof fn law_leaks_reach_key_store_takers(fs: Seq<FunctionFacts>, roots: Seq<u64>, ks: Seq<FunctionKey>)
    ensures
        forall|i: int| 0 <= i < leaks_in_order(fs, roots, ks).len() ==> {
            let c = #[trigger] leaks_in_order(fs, roots, ks)[i];
            &&& roots.contains(c.callee.module)
            &&& facts_of(fs, c.callee) matches Some(f) && f.key == c.callee && f.is_public && f.takes_key_store
        },
    decreases ks.len(),
{
    if ks.len() > 0 {
        law_leaks_reach_key_store_takers(fs, roots, ks.drop_last());
        let a = ks.last();
        lemma_leaky_calls_take_key_store(fs, roots, a, built_calls(fs, Some(roots), a));
        let pre = leaks_in_order(fs, roots, ks.drop_last());
        let post = leaky_calls(fs, roots, a, built_calls(fs, Some(roots), a));
        assert forall|i: int| 0 <= i < leaks_in_order(fs, roots, ks).len() implies {
            let c = #[trigger] leaks_in_order(fs, roots, ks)[i];
            &&& roots.contains(c.callee.module)
            &&& facts_of(fs, c.callee) matches Some(f) && f.key == c.callee && f.is_public && f.takes_key_store
        } by {
            if i < pre.len() {
                assert(leaks_in_order(fs, roots, ks)[i] == pre[i]);
            } else {
                assert(leaks_in_order(fs, roots, ks)[i] == post[i - pre.len()]);
            }
        }
    }
}

proof fn lemma_facts_of_key(fs: Seq<FunctionFacts>, k: FunctionKey)
    ensures
        facts_of(fs, k) matches Some(f) ==> f.key == k,
    decreases fs.len(),
{
    if fs.len() > 0 && fs[0].key != k {
        lemma_facts_of_key(fs.drop_first(), k);
    }
}

proof fn lemma_leaky_calls_take_key_store(fs: Seq<FunctionFacts>, roots: Seq<u64>, a: FunctionKey, cs: Seq<Call>)
    ensures
        forall|i: int| 0 <= i < leaky_calls(fs, roots, a, cs).len() ==> {
            let c = #[trigger] leaky_calls(fs, roots, a, cs)[i];
            &&& roots.contains(c.callee.module)
            &&& facts_of(fs, c.callee) matches Some(f) && f.key == c.callee && f.is_public && f.takes_key_store
        },
    decreases cs.len(),
{
    if cs.len() > 0 {
        lemma_leaky_calls_take_key_store(fs, roots, a, cs.drop_last());
        let pre = leaky_calls(fs, roots, a, cs.drop_last());
        lemma_facts_of_key(fs, cs.last().callee);
        assert forall|i: int| 0 <= i < leaky_calls(fs, roots, a, cs).len() implies {
            let c = #[trigger] leaky_calls(fs, roots, a, cs)[i];
            &&& roots.contains(c.callee.module)
            &&& facts_of(fs, c.callee) matches Some(f) && f.key == c.callee && f.is_public && f.takes_key_store
        } by {
            if i < pre.len() {
                assert(leaky_calls(fs, roots, a, cs)[i] == pre[i]);
            } else {
                assert(leaky_calls(fs, roots, a, cs)[i] == cs.last());
            }
        }
    }
}

/// What the cross-module lints report.
pub struct CrossModuleFindings {
    /// Calls that may leak a capability.
    pub capability_leaks: Vec<Call>,
    /// Functions whose flash loan is not repaid.
    pub unrepaid_flashloans: Vec<FunctionKey>,
}

/// Runs both cross-module lints.
pub fn run_cross_module_lints(functions: &Vec<FunctionFacts>, roots: &Vec<u64>) -> (r: CrossModuleFindings)
    ensures
        exists|ks: Seq<FunctionKey>|
            recorded_callers(functions@, Some(roots@), ks) && r.capability_leaks@ == leaks_in_order(functions@, roots@, ks),
        r.unrepaid_flashloans@.no_duplicates(),
        forall|k: FunctionKey| r.unrepaid_flashloans@.contains(k) <==> unrepaid_flashloan(functions@, roots@, k),
        r.unrepaid_flashloans@.len() == 0,
{
    let capability_leaks = lint_transitive_capability_leak(functions, roots);
    let unrepaid_flashloans = lint_flashloan_without_repay(functions, roots);
    CrossModuleFindings { capability_leaks, unrepaid_flashloans }
}

/// The descriptors of the cross-module lints, by position.
pub open spec fn cross_module_descriptor(d: LintDescriptor, k: int) -> bool {
    if k == 0 {
        descriptor_is(
            d,
            "transitive_capability_leak",
            LintCategory::Security,
            "Capability leaks across module boundary (type-based cross-module analysis)",
            RuleGroup::Preview,
            AnalysisKind::CrossModule,
        )
    } else {
        descriptor_is(
            d,
            "flashloan_without_repay",
            LintCategory::Security,
            "Flashloan borrowed but not repaid on all paths (type-based cross-module)",
            RuleGroup::Preview,
            AnalysisKind::CrossModule,
        )
    }
}

/// All cross-module lint descriptors.
pub fn descriptors() -> (r: Vec<LintDescriptor>)
    ensures
        r@.len() == 2,
        cross_module_descriptor(r@[0], 0),
        cross_module_descriptor(r@[1], 1),
{
    let mut r: Vec<LintDescriptor> = Vec::new();
    r.push(
        LintDescriptor::preview_cross_module(
            "transitive_capability_leak",
            LintCategory::Security,
            "Capability leaks across module boundary (type-based cross-module analysis)",
        ),
    );
    r.push(
        LintDescriptor::preview_cross_module(
            "flashloan_without_repay",
            LintCategory::Security,
            "Flashloan borrowed but not repaid on all paths (type-based cross-module)",
        ),
    );
    r
}

/// The cross-module lint descriptor named `name`.
pub fn find_descriptor(name: &str) -> (r: Option<LintDescriptor>)
    ensures
        match r {
            Some(d) => d.name@ == name@ && (cross_module_descriptor(d, 0) || cross_module_descriptor(d, 1)),
            None => name@ != "transitive_capability_leak"@ && name@ != "flashloan_without_repay"@,
        },
{
    let all = descriptors();
    if str_eq(all[0].name, name) {
        return Some(all[0]);
    }
    if str_eq(all[1].name, name) {
        return Some(all[1]);
    }
    None
}

} // verus!
