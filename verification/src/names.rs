//! Sets of names kept in code-point order, so listing them needs no sort.

use vstd::prelude::*;

use crate::text::{lemma_lt_irreflexive, lemma_lt_total, lemma_lt_transitive, seq_lt, str_lt};

verus! {

/// The characters of each string of a list.
pub open spec fn names_view(s: Seq<String>) -> Seq<Seq<char>> {
    s.map_values(|x: String| x@)
}

/// Each name comes strictly before every later one.
pub open spec fn sorted_names(s: Seq<Seq<char>>) -> bool {
    forall|i: int, j: int| 0 <= i < j < s.len() ==> seq_lt(#[trigger] s[i], #[trigger] s[j])
}

/// A sorted list holds no name twice.
pub proof fn lemma_sorted_distinct(s: Seq<Seq<char>>)
    requires
        sorted_names(s),
    ensures
        forall|i: int, j: int| 0 <= i < s.len() && 0 <= j < s.len() && i != j ==> #[trigger] s[i] != #[trigger] s[j],
{
    assert forall|i: int, j: int| 0 <= i < s.len() && 0 <= j < s.len() && i != j implies #[trigger] s[i] != #[trigger] s[j] by {
        lemma_lt_irreflexive(s[i]);
        if i < j {
            assert(seq_lt(s[i], s[j]));
        } else {
            assert(seq_lt(s[j], s[i]));
        }
    }
}

/// A set of names.
pub struct NameSet {
    items: Vec<String>,
}

impl View for NameSet {
    type V = Set<Seq<char>>;

    closed spec fn view(&self) -> Set<Seq<char>> {
        names_view(self.items@).to_set()
    }
}

impl NameSet {
    /// The names are held in strictly increasing order.
    pub closed spec fn wf(&self) -> bool {
        sorted_names(names_view(self.items@))
    }

    pub fn new() -> (r: Self)
        ensures
            r.wf(),
            r@ == Set::<Seq<char>>::empty(),
    {
        let r = NameSet { items: Vec::new() };
        assert(r@ =~= Set::empty());
        r
    }

    pub fn len(&self) -> (n: usize)
        requires
            self.wf(),
        ensures
            n == self@.len(),
            self@.finite(),
    {
        proof {
            lemma_sorted_distinct(names_view(self.items@));
            names_view(self.items@).unique_seq_to_set();
        }
        self.items.len()
    }

    pub fn contains(&self, name: &String) -> (r: bool)
        ensures
            r == self@.contains(name@),
    {
        let mut i: usize = 0;
        while i < self.items.len()
            invariant
                i <= self.items.len(),
                forall|j: int| 0 <= j < i ==> #[trigger] self.items@[j]@ != name@,
            decreases self.items.len() - i,
        {
            if self.items[i].eq(name) {
                assert(names_view(self.items@)[i as int] == name@);
                return true;
            }
            i = i + 1;
        }
        proof {
            if names_view(self.items@).contains(name@) {
                let j = choose|j: int| 0 <= j < self.items@.len() && names_view(self.items@)[j] == name@;
                assert(self.items@[j]@ == name@);
            }
        }
        false
    }

    /// Adds `name`; returns whether it was new.
    pub fn insert(&mut self, name: String) -> (r: bool)
        requires
            old(self).wf(),
        ensures
            final(self).wf(),
            final(self)@ == old(self)@.insert(name@),
            r == !old(self)@.contains(name@),
    {
        let ghost s = names_view(self.items@);
        let mut p: usize = 0;
        while p < self.items.len() && str_lt(&self.items[p], &name)
            invariant
                p <= self.items.len(),
                s == names_view(self.items@),
                forall|j: int| 0 <= j < p ==> seq_lt(#[trigger] s[j], name@),
            decreases self.items.len() - p,
        {
            p = p + 1;
        }
        if p < self.items.len() && self.items[p].eq(&name) {
            proof {
                assert(s[p as int] == name@);
                assert(s.contains(name@));
                assert(self@.insert(name@) =~= self@);
            }
            return false;
        }
        proof {
            // every later name comes after `name`
            assert forall|j: int| p <= j < s.len() implies seq_lt(name@, #[trigger] s[j]) by {
                assert(s[p as int] == self.items@[p as int]@);
                lemma_lt_total(s[p as int], name@);
                lemma_lt_transitive(name@, s[p as int], s[j]);
            }
            assert(!s.contains(name@)) by {
                if s.contains(name@) {
                    let j = choose|j: int| 0 <= j < s.len() && s[j] == name@;
                    lemma_lt_irreflexive(name@);
                }
            }
        }
        self.items.insert(p, name);
        proof {
            let t = names_view(self.items@);
            assert(t =~= s.insert(p as int, name@));
            assert forall|i: int, j: int| 0 <= i < j < t.len() implies seq_lt(#[trigger] t[i], #[trigger] t[j]) by {
                if j < p {
                } else if j == p {
                } else if i < p {
                    lemma_lt_transitive(t[i], name@, t[j]);
                } else if i == p {
                } else {
                    assert(t[i] == s[i - 1] && t[j] == s[j - 1]);
                }
            }
            assert(t.to_set() =~= s.to_set().insert(name@)) by {
                assert forall|x: Seq<char>| t.to_set().contains(x) <==> s.to_set().insert(name@).contains(x) by {
                    if t.contains(x) {
                        let k = choose|k: int| 0 <= k < t.len() && t[k] == x;
                        if k < p { assert(s[k] == x); } else if k > p { assert(s[k - 1] == x); }
                    }
                    if s.contains(x) {
                        let k = choose|k: int| 0 <= k < s.len() && s[k] == x;
                        if k < p { assert(t[k] == x); } else { assert(t[k + 1] == x); }
                    }
                    if x == name@ {
                        assert(t[p as int] == x);
                    }
                }
            }
        }
        true
    }

    fn position(&self, name: &String) -> (r: Option<usize>)
        ensures
            match r {
                Some(i) => i < self.items.len() && self.items@[i as int]@ == name@,
                None => !names_view(self.items@).contains(name@),
            },
    {
        let mut i: usize = 0;
        while i < self.items.len()
            invariant
                i <= self.items.len(),
                forall|j: int| 0 <= j < i ==> #[trigger] self.items@[j]@ != name@,
            decreases self.items.len() - i,
        {
            if self.items[i].eq(name) {
                return Some(i);
            }
            i = i + 1;
        }
        proof {
            if names_view(self.items@).contains(name@) {
                let j = choose|j: int| 0 <= j < self.items@.len() && names_view(self.items@)[j] == name@;
                assert(self.items@[j]@ == name@);
            }
        }
        None
    }

    /// Takes `name` out; returns whether it was there.
    pub fn remove(&mut self, name: &String) -> (r: bool)
        requires
            old(self).wf(),
        ensures
            final(self).wf(),
            final(self)@ == old(self)@.remove(name@),
            r == old(self)@.contains(name@),
    {
        let ghost s = names_view(self.items@);
        proof {
            lemma_sorted_distinct(s);
        }
        match self.position(name) {
            None => {
                assert(self@.remove(name@) =~= self@);
                false
            },
            Some(i) => {
                self.items.remove(i);
                proof {
                    let t = names_view(self.items@);
                    assert(t =~= s.remove(i as int));
                    assert(s[i as int] == name@);
                    assert forall|a: int, b: int| 0 <= a < b < t.len() implies seq_lt(#[trigger] t[a], #[trigger] t[b]) by {
                        let a2 = if a < i { a } else { a + 1 };
                        let b2 = if b < i { b } else { b + 1 };
                        assert(t[a] == s[a2] && t[b] == s[b2]);
                    }
                    assert forall|x: Seq<char>| #[trigger] t.to_set().contains(x) <==> s.to_set().remove(name@).contains(x) by {
                        if t.contains(x) {
                            let k = choose|k: int| 0 <= k < t.len() && t[k] == x;
                            let k2 = if k < i { k } else { k + 1 };
                            assert(s[k2] == x);
                            assert(k2 != i);
                        }
                        if s.contains(x) && x != name@ {
                            let k = choose|k: int| 0 <= k < s.len() && s[k] == x;
                            assert(k != i);
                            if k < i { assert(t[k] == x); } else { assert(t[k - 1] == x); }
                        }
                    }
                    assert(t.to_set() =~= s.to_set().remove(name@));
                }
                true
            },
        }
    }

    /// The names, in code-point order.
    pub fn sorted(&self) -> (r: Vec<String>)
        requires
            self.wf(),
        ensures
            sorted_names(names_view(r@)),
            names_view(r@).to_set() == self@,
    {
        let mut r: Vec<String> = Vec::new();
        let mut i: usize = 0;
        while i < self.items.len()
            invariant
                i <= self.items.len(),
                r.len() == i,
                forall|j: int| 0 <= j < i ==> #[trigger] r@[j]@ == self.items@[j]@,
            decreases self.items.len() - i,
        {
            r.push(self.items[i].clone());
            i = i + 1;
        }
        assert(names_view(r@) =~= names_view(self.items@));
        r
    }
}

} // verus!
