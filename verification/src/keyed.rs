//! Lists of records that are looked up by a string key, each key at most once.
//!
//! A `Vec` of such records is read as a map from the key's characters to the
//! view of the record: this is how the rooms, peers and members of the
//! library are modelled.

use vstd::prelude::*;

verus! {

/// A record that is found again by a string key.
pub trait Keyed: View {
    spec fn key_view(&self) -> Seq<char>;

    fn key(&self) -> (k: &String)
        ensures
            k@ == self.key_view(),
    ;
}

/// No two records of `s` share a key.
pub open spec fn keys_unique<T: Keyed>(s: Seq<T>) -> bool {
    forall|i: int, j: int|
        0 <= i < s.len() && 0 <= j < s.len() && i != j ==> #[trigger] s[i].key_view()
            != #[trigger] s[j].key_view()
}

/// `s` read as a map from key to view; a later record wins over an earlier one.
pub open spec fn key_map<T: Keyed>(s: Seq<T>) -> Map<Seq<char>, T::V>
    decreases s.len(),
{
    if s.len() == 0 {
        Map::empty()
    } else {
        key_map(s.drop_last()).insert(s.last().key_view(), s.last()@)
    }
}

/// The domain of `key_map(s)` is the set of keys of `s`; each record of a
/// list with unique keys is what the map gives for its key.
pub proof fn lemma_key_map<T: Keyed>(s: Seq<T>)
    requires
        keys_unique(s),
    ensures
        forall|k: Seq<char>|
            #[trigger] key_map(s).dom().contains(k) <==> exists|i: int|
                0 <= i < s.len() && #[trigger] s[i].key_view() == k,
        forall|i: int| 0 <= i < s.len() ==> #[trigger] key_map(s)[s[i].key_view()] == s[i]@,
        key_map(s).dom().finite(),
        key_map(s).len() == s.len(),
    decreases s.len(),
{
    if s.len() > 0 {
        let t = s.drop_last();
        assert forall|i: int, j: int|
            0 <= i < t.len() && 0 <= j < t.len() && i != j implies #[trigger] t[i].key_view()
            != #[trigger] t[j].key_view() by {
            assert(t[i] == s[i] && t[j] == s[j]);
        }
        lemma_key_map(t);
        let x = s.last();
        assert(!key_map(t).dom().contains(x.key_view())) by {
            if key_map(t).dom().contains(x.key_view()) {
                let i = choose|i: int| 0 <= i < t.len() && #[trigger] t[i].key_view() == x.key_view();
                assert(s[i] == t[i]);
                assert(s[s.len() - 1] == x);
            }
        }
        assert forall|k: Seq<char>|
            #[trigger] key_map(s).dom().contains(k) <==> exists|i: int|
                0 <= i < s.len() && #[trigger] s[i].key_view() == k by {
            if key_map(s).dom().contains(k) {
                if k == x.key_view() {
                    assert(s[s.len() - 1].key_view() == k);
                } else {
                    let i = choose|i: int| 0 <= i < t.len() && #[trigger] t[i].key_view() == k;
                    assert(s[i] == t[i]);
                }
            }
            if exists|i: int| 0 <= i < s.len() && #[trigger] s[i].key_view() == k {
                let i = choose|i: int| 0 <= i < s.len() && #[trigger] s[i].key_view() == k;
                if i < s.len() - 1 {
                    assert(t[i] == s[i]);
                }
            }
        }
        assert forall|i: int| 0 <= i < s.len() implies #[trigger] key_map(s)[s[i].key_view()]
            == s[i]@ by {
            if i < s.len() - 1 {
                assert(t[i] == s[i]);
                assert(s[i].key_view() != s[s.len() - 1].key_view());
            }
        }
    }
}

/// Adding a record with a new key adds one entry to the map.
pub proof fn lemma_key_map_push<T: Keyed>(s: Seq<T>, x: T)
    requires
        keys_unique(s),
        !key_map(s).dom().contains(x.key_view()),
    ensures
        keys_unique(s.push(x)),
        key_map(s.push(x)) == key_map(s).insert(x.key_view(), x@),
{
    lemma_key_map(s);
    let u = s.push(x);
    assert(u.drop_last() =~= s);
    assert forall|i: int, j: int|
        0 <= i < u.len() && 0 <= j < u.len() && i != j implies #[trigger] u[i].key_view()
        != #[trigger] u[j].key_view() by {
        if i < s.len() && j < s.len() {
            assert(u[i] == s[i] && u[j] == s[j]);
        } else if i < s.len() {
            assert(u[i] == s[i]);
            assert(key_map(s).dom().contains(s[i].key_view()));
        } else if j < s.len() {
            assert(u[j] == s[j]);
            assert(key_map(s).dom().contains(s[j].key_view()));
        }
    }
}

/// Replacing the record at `i` by one with the same key replaces the entry.
pub proof fn lemma_key_map_update<T: Keyed>(s: Seq<T>, i: int, x: T)
    requires
        keys_unique(s),
        0 <= i < s.len(),
        x.key_view() == s[i].key_view(),
    ensures
        keys_unique(s.update(i, x)),
        key_map(s.update(i, x)) == key_map(s).insert(x.key_view(), x@),
{
    let u = s.update(i, x);
    assert forall|a: int, b: int|
        0 <= a < u.len() && 0 <= b < u.len() && a != b implies #[trigger] u[a].key_view()
        != #[trigger] u[b].key_view() by {
        assert(u[a].key_view() == s[a].key_view());
        assert(u[b].key_view() == s[b].key_view());
    }
    lemma_key_map(s);
    lemma_key_map(u);
    let m = key_map(s).insert(x.key_view(), x@);
    assert forall|k: Seq<char>| #[trigger] key_map(u).dom().contains(k) <==> m.dom().contains(k) by {
        if key_map(u).dom().contains(k) {
            let j = choose|j: int| 0 <= j < u.len() && #[trigger] u[j].key_view() == k;
            assert(s[j].key_view() == k);
        }
        if m.dom().contains(k) && k != x.key_view() {
            let j = choose|j: int| 0 <= j < s.len() && #[trigger] s[j].key_view() == k;
            assert(u[j].key_view() == k);
        }
        if k == x.key_view() {
            assert(u[i].key_view() == k);
        }
    }
    assert forall|k: Seq<char>| #[trigger] key_map(u).dom().contains(k) implies key_map(u)[k]
        == m[k] by {
        let j = choose|j: int| 0 <= j < u.len() && #[trigger] u[j].key_view() == k;
        assert(key_map(u)[u[j].key_view()] == u[j]@);
        if j == i {
        } else {
            assert(u[j] == s[j]);
            assert(key_map(s)[s[j].key_view()] == s[j]@);
        }
    }
    assert(key_map(u) =~= m);
}

/// Removing the record at `i` removes its entry.
pub proof fn lemma_key_map_remove<T: Keyed>(s: Seq<T>, i: int)
    requires
        keys_unique(s),
        0 <= i < s.len(),
    ensures
        keys_unique(s.remove(i)),
        key_map(s.remove(i)) == key_map(s).remove(s[i].key_view()),
{
    let u = s.remove(i);
    assert forall|a: int, b: int|
        0 <= a < u.len() && 0 <= b < u.len() && a != b implies #[trigger] u[a].key_view()
        != #[trigger] u[b].key_view() by {
        let a2 = if a < i { a } else { a + 1 };
        let b2 = if b < i { b } else { b + 1 };
        assert(u[a] == s[a2] && u[b] == s[b2]);
    }
    lemma_key_map(s);
    lemma_key_map(u);
    let m = key_map(s).remove(s[i].key_view());
    assert forall|k: Seq<char>| #[trigger] key_map(u).dom().contains(k) <==> m.dom().contains(k) by {
        if key_map(u).dom().contains(k) {
            let j = choose|j: int| 0 <= j < u.len() && #[trigger] u[j].key_view() == k;
            let j2 = if j < i { j } else { j + 1 };
            assert(u[j] == s[j2]);
        }
        if m.dom().contains(k) {
            let j = choose|j: int| 0 <= j < s.len() && #[trigger] s[j].key_view() == k;
            assert(j != i);
            let j2 = if j < i { j } else { j - 1 };
            assert(u[j2] == s[j]);
        }
    }
    assert forall|k: Seq<char>| #[trigger] key_map(u).dom().contains(k) implies key_map(u)[k]
        == m[k] by {
        let j = choose|j: int| 0 <= j < u.len() && #[trigger] u[j].key_view() == k;
        let j2 = if j < i { j } else { j + 1 };
        assert(u[j] == s[j2]);
        assert(key_map(u)[u[j].key_view()] == u[j]@);
        assert(key_map(s)[s[j2].key_view()] == s[j2]@);
    }
    assert(key_map(u) =~= m);
}

/// Position of the record with key `k`, if there is one.
pub fn find_key<T: Keyed>(v: &Vec<T>, k: &String) -> (r: Option<usize>)
    ensures
        match r {
            Some(i) => i < v.len() && v@[i as int].key_view() == k@,
            None => forall|i: int| 0 <= i < v.len() ==> #[trigger] v@[i].key_view() != k@,
        },
{
    let mut i: usize = 0;
    while i < v.len()
        invariant
            i <= v.len(),
            forall|j: int| 0 <= j < i ==> #[trigger] v@[j].key_view() != k@,
        decreases v.len() - i,
    {
        if v[i].key().eq(k) {
            return Some(i);
        }
        i = i + 1;
    }
    None
}

/// With unique keys, `find_key` answers the map's domain.
pub proof fn lemma_find_key<T: Keyed>(s: Seq<T>, k: Seq<char>, r: Option<usize>)
    requires
        keys_unique(s),
        match r {
            Some(i) => i < s.len() && s[i as int].key_view() == k,
            None => forall|i: int| 0 <= i < s.len() ==> #[trigger] s[i].key_view() != k,
        },
    ensures
        key_map(s).dom().contains(k) == r is Some,
        r matches Some(i) ==> key_map(s)[k] == s[i as int]@,
{
    lemma_key_map(s);
    if let Some(i) = r {
        assert(s[i as int].key_view() == k);
    }
}

/// Puts `x` in place of the record with the same key, or adds it.
pub fn upsert<T: Keyed>(v: &mut Vec<T>, x: T)
    requires
        keys_unique(old(v)@),
    ensures
        keys_unique(final(v)@),
        key_map(final(v)@) == key_map(old(v)@).insert(x.key_view(), x@),
{
    let r = find_key(v, x.key());
    match r {
        Some(i) => {
            proof {
                lemma_key_map_update(v@, i as int, x);
            }
            v.set(i, x);
        },
        None => {
            proof {
                lemma_find_key(v@, x.key_view(), r);
                lemma_key_map_push(v@, x);
            }
            v.push(x);
        },
    }
}

/// Takes out the record with key `k`, if there is one.
pub fn take_key<T: Keyed>(v: &mut Vec<T>, k: &String) -> (r: Option<T>)
    requires
        keys_unique(old(v)@),
    ensures
        keys_unique(final(v)@),
        key_map(final(v)@) == key_map(old(v)@).remove(k@),
        key_map(old(v)@).dom().contains(k@) == r is Some,
        r matches Some(x) ==> x@ == key_map(old(v)@)[k@] && x.key_view() == k@,
{
    let f = find_key(v, k);
    proof {
        lemma_find_key(v@, k@, f);
    }
    match f {
        Some(i) => {
            proof {
                lemma_key_map_remove(v@, i as int);
            }
            let x = v.remove(i);
            Some(x)
        },
        None => {
            assert(key_map(v@).remove(k@) =~= key_map(v@));
            None
        },
    }
}

/// Changing every record's view by `f`, keys untouched, changes the map by `f`.
pub proof fn lemma_key_map_pointwise<T: Keyed>(s1: Seq<T>, s2: Seq<T>, f: spec_fn(T::V) -> T::V)
    requires
        s1.len() == s2.len(),
        forall|i: int| 0 <= i < s1.len() ==> #[trigger] s2[i].key_view() == s1[i].key_view() && s2[i]@ == f(s1[i]@),
    ensures
        key_map(s2) == key_map(s1).map_values(f),
        keys_unique(s1) ==> keys_unique(s2),
    decreases s1.len(),
{
    if s1.len() == 0 {
        assert(key_map(s1).map_values(f) =~= Map::empty());
    } else {
        let t1 = s1.drop_last();
        let t2 = s2.drop_last();
        assert forall|i: int| 0 <= i < t1.len() implies #[trigger] t2[i].key_view() == t1[i].key_view() && t2[i]@ == f(t1[i]@) by {
            assert(t1[i] == s1[i] && t2[i] == s2[i]);
        }
        lemma_key_map_pointwise(t1, t2, f);
        assert(s2.last().key_view() == s1.last().key_view());
        assert(key_map(s2) =~= key_map(s1).map_values(f));
    }
    if keys_unique(s1) {
        assert forall|i: int, j: int| 0 <= i < s2.len() && 0 <= j < s2.len() && i != j implies #[trigger] s2[i].key_view() != #[trigger] s2[j].key_view() by {
            assert(s2[i].key_view() == s1[i].key_view());
            assert(s2[j].key_view() == s1[j].key_view());
        }
    }
}

} // verus!
