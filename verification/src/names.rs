//! Finite sets of names (lint names, parameter names), viewed as `Set<Seq<char>>`.
use vstd::prelude::*;
use crate::text::str_eq;

verus! {

/// A set of names; each name is held once.
#[derive(Debug)]
pub struct NameSet {
    items: Vec<String>,
}

/// The views of the strings of `v`.
pub open spec fn string_views(v: Seq<String>) -> Seq<Seq<char>> {
    v.map_values(|s: String| s@)
}

impl View for NameSet {
    type V = Set<Seq<char>>;

    closed spec fn view(&self) -> Set<Seq<char>> {
        string_views(self.items@).to_set()
    }
}

impl NameSet {
    #[verifier::type_invariant]
    closed spec fn inv(&self) -> bool {
        string_views(self.items@).no_duplicates()
    }

    /// The empty set.
    pub fn new() -> (r: Self)
        ensures
            r@ == Set::<Seq<char>>::empty(),
    {
        let r = NameSet { items: Vec::new() };
        assert(string_views(r.items@) =~= Seq::<Seq<char>>::empty());
        assert(r@ =~= Set::<Seq<char>>::empty());
        r
    }

    fn position(&self, name: &str) -> (r: Option<usize>)
        ensures
            r matches Some(i) ==> i < self.items@.len() && self.items@[i as int]@ == name@,
            r is None ==> !self@.contains(name@),
    {
        let mut i: usize = 0;
        while i < self.items.len()
            invariant
                i <= self.items@.len(),
                forall|j: int| 0 <= j < i ==> #[trigger] self.items@[j]@ != name@,
            decreases self.items.len() - i,
        {
            if str_eq(self.items[i].as_str(), name) {
                return Some(i);
            }
            i = i + 1;
        }
        proof {
            if self@.contains(name@) {
                let k = string_views(self.items@).index_of(name@);
                assert(string_views(self.items@)[k] == self.items@[k]@);
            }
        }
        None
    }

    /// `name` is in the set.
    pub fn contains(&self, name: &str) -> (b: bool)
        ensures
            b == self@.contains(name@),
    {
        match self.position(name) {
            Some(i) => {
                assert(string_views(self.items@)[i as int] == name@);
                true
            },
            None => false,
        }
    }

    /// Adds `name` (no change if it is already there).
    pub fn insert(&mut self, name: String)
        ensures
            final(self)@ == old(self)@.insert(name@),
    {
        proof {
            use_type_invariant(&*self);
        }
        if self.contains(name.as_str()) {
            assert(old(self)@.insert(name@) =~= old(self)@);
            return;
        }
        let ghost old_items = self.items@;
        let mut items: Vec<String> = Vec::new();
        std::mem::swap(&mut items, &mut self.items);
        items.push(name);
        proof {
            assert(string_views(items@) =~= string_views(old_items).push(name@));
            string_views(old_items).lemma_push_to_set_commute(name@);
            assert(string_views(items@).to_set() =~= string_views(old_items).to_set().insert(
                name@,
            ));
            assert forall|i: int, j: int|
                0 <= i < string_views(items@).len() && 0 <= j < string_views(items@).len() && i
                    != j implies string_views(items@)[i] != string_views(items@)[j] by {
                if i < old_items.len() && j < old_items.len() {
                } else if i < old_items.len() {
                    assert(string_views(old_items).to_set().contains(string_views(old_items)[i]));
                } else if j < old_items.len() {
                    assert(string_views(old_items).to_set().contains(string_views(old_items)[j]));
                }
            }
        }
        self.items = items;
    }

    /// Removes `name` (no change if it is absent).
    pub fn remove(&mut self, name: &str)
        ensures
            final(self)@ == old(self)@.remove(name@),
    {
        proof {
            use_type_invariant(&*self);
        }
        match self.position(name) {
            None => {
                assert(old(self)@.remove(name@) =~= old(self)@);
            },
            Some(i) => {
                let ghost old_items = self.items@;
                let mut items: Vec<String> = Vec::new();
                std::mem::swap(&mut items, &mut self.items);
                items.remove(i);
                proof {
                    let ov = string_views(old_items);
                    let nv = string_views(items@);
                    assert(nv =~= ov.remove(i as int));
                    assert forall|x: Seq<char>| nv.to_set().contains(x) <==> ov.to_set().remove(
                        name@,
                    ).contains(x) by {
                        assert(ov[i as int] == name@);
                        assert(ov.no_duplicates());
                        if nv.contains(x) {
                            let k = choose|k: int| 0 <= k < nv.len() && nv[k] == x;
                            if k < i {
                                assert(ov[k] == x);
                            } else {
                                assert(ov[k + 1] == x);
                                assert(k + 1 != i);
                            }
                            assert(ov.contains(x));
                            assert(x != name@);
                        }
                        if ov.contains(x) && x != name@ {
                            let k = choose|k: int| 0 <= k < ov.len() && ov[k] == x;
                            assert(k != i);
                            if k < i {
                                assert(nv[k] == x);
                            } else {
                                assert(nv[k - 1] == x);
                            }
                            assert(nv.contains(x));
                        }
                    }
                    assert(nv.to_set() =~= ov.to_set().remove(name@));
                }
                self.items = items;
            },
        }
    }

    /// Adds every name of `other`.
    pub fn extend(&mut self, other: &NameSet)
        ensures
            final(self)@ == old(self)@.union(other@),
    {
        let mut i: usize = 0;
        while i < other.items.len()
            invariant
                i <= other.items@.len(),
                self@ == old(self)@.union(string_views(other.items@).take(i as int).to_set()),
            decreases other.items.len() - i,
        {
            let ghost before = self@;
            self.insert(other.items[i].clone());
            proof {
                let t = string_views(other.items@);
                assert(t.take(i + 1) =~= t.take(i as int).push(t[i as int]));
                t.take(i as int).lemma_push_to_set_commute(t[i as int]);
                assert(t.take(i + 1).to_set() =~= t.take(i as int).to_set().insert(t[i as int]));
                assert(self@ =~= old(self)@.union(t.take(i + 1).to_set()));
            }
            i = i + 1;
        }
        assert(string_views(other.items@).take(other.items@.len() as int) =~= string_views(
            other.items@,
        ));
    }

    /// The names, each once, in some order.
    pub fn elements(&self) -> (r: Vec<String>)
        ensures
            string_views(r@).to_set() == self@,
            string_views(r@).no_duplicates(),
            r@.len() == self@.len(),
    {
        proof {
            use_type_invariant(self);
            string_views(self.items@).unique_seq_to_set();
        }
        self.items.clone()
    }

    /// A copy of the set.
    pub fn duplicate(&self) -> (r: Self)
        ensures
            r@ == self@,
    {
        proof {
            use_type_invariant(self);
        }
        NameSet { items: self.items.clone() }
    }

    /// The set is empty.
    pub fn is_empty(&self) -> (b: bool)
        ensures
            b == (self@ == Set::<Seq<char>>::empty()),
    {
        proof {
            use_type_invariant(self);
            string_views(self.items@).unique_seq_to_set();
            if self.items@.len() > 0 {
                assert(self@.contains(string_views(self.items@)[0]));
            } else {
                assert(string_views(self.items@) =~= Seq::<Seq<char>>::empty());
                assert(self@ =~= Set::<Seq<char>>::empty());
            }
        }
        self.items.len() == 0
    }
}

} // verus!
