//! A map from string keys to string values that keeps its entries in increasing key order.
use vstd::prelude::*;
use crate::order::{
    key_lt, key_order, lemma_key_lt_asymmetric, lemma_key_lt_irreflexive, lemma_key_lt_transitive,
    KeyOrder,
};

verus! {

/// Keys strictly increase along the sequence (so no key occurs twice).
pub open spec fn items_sorted(s: Seq<(Seq<char>, Seq<char>)>) -> bool {
    forall|i: int, j: int| 0 <= i < j < s.len() ==> key_lt(#[trigger] s[i].0, #[trigger] s[j].0)
}

/// Some entry of the sequence has key `k`.
pub open spec fn has_key(s: Seq<(Seq<char>, Seq<char>)>, k: Seq<char>) -> bool {
    exists|i: int| 0 <= i < s.len() && #[trigger] s[i].0 == k
}

/// A position of the sequence whose entry has key `k`, where there is one.
pub open spec fn key_index(s: Seq<(Seq<char>, Seq<char>)>, k: Seq<char>) -> int {
    choose|i: int| 0 <= i < s.len() && #[trigger] s[i].0 == k
}

/// The map that a sequence of entries stands for.
pub open spec fn items_map(s: Seq<(Seq<char>, Seq<char>)>) -> Map<Seq<char>, Seq<char>> {
    Map::new(|k: Seq<char>| has_key(s, k), |k: Seq<char>| s[key_index(s, k)].1)
}

/// In a sorted sequence, each entry is what the map holds at its key.
pub proof fn lemma_items_map_at(s: Seq<(Seq<char>, Seq<char>)>, i: int)
    requires
        items_sorted(s),
        0 <= i < s.len(),
    ensures
        items_map(s).contains_key(s[i].0),
        items_map(s)[s[i].0] == s[i].1,
{
    let k = s[i].0;
    assert(has_key(s, k));
    let j = key_index(s, k);
    if j != i {
        lemma_key_lt_irreflexive(k);
        if j < i {
            assert(key_lt(s[j].0, s[i].0));
        } else {
            assert(key_lt(s[i].0, s[j].0));
        }
    }
    assert(items_map(s).contains_key(k));
    assert(items_map(s)[k] == s[j].1);
}

/// Appending an entry whose key is above all others adds that entry to the map.
pub proof fn lemma_items_map_push(s: Seq<(Seq<char>, Seq<char>)>, p: (Seq<char>, Seq<char>))
    requires
        items_sorted(s.push(p)),
    ensures
        items_sorted(s),
        items_map(s.push(p)) == items_map(s).insert(p.0, p.1),
{
    let t = s.push(p);
    assert forall|i: int, j: int| 0 <= i < j < s.len() implies key_lt(
        #[trigger] s[i].0,
        #[trigger] s[j].0,
    ) by {
        assert(t[i] == s[i] && t[j] == s[j]);
    }
    let lhs = items_map(t);
    let rhs = items_map(s).insert(p.0, p.1);
    assert forall|k: Seq<char>| lhs.contains_key(k) <==> rhs.contains_key(k) by {
        if has_key(t, k) {
            let i = choose|i: int| 0 <= i < t.len() && #[trigger] t[i].0 == k;
            if i < s.len() {
                assert(s[i].0 == k);
            }
        }
        if has_key(s, k) {
            let i = choose|i: int| 0 <= i < s.len() && #[trigger] s[i].0 == k;
            assert(t[i].0 == k);
        }
        if k == p.0 {
            assert(t[s.len() as int].0 == k);
        }
    }
    assert forall|k: Seq<char>| #[trigger] lhs.contains_key(k) implies lhs[k] == rhs[k] by {
        let i = choose|i: int| 0 <= i < t.len() && #[trigger] t[i].0 == k;
        lemma_items_map_at(t, i);
        if i < s.len() {
            assert(t[i] == s[i]);
            lemma_items_map_at(s, i);
            assert(key_lt(t[i].0, t[s.len() as int].0));
            lemma_key_lt_irreflexive(k);
        }
    }
    assert(lhs =~= rhs);
}

/// In a sorted sequence the last key occurs nowhere before the end.
pub proof fn lemma_last_not_in_prefix(s: Seq<(Seq<char>, Seq<char>)>)
    requires
        items_sorted(s),
        s.len() > 0,
    ensures
        !items_map(s.drop_last()).contains_key(s.last().0),
{
    let r = s.drop_last();
    if has_key(r, s.last().0) {
        let i = key_index(r, s.last().0);
        assert(s[i] == r[i]);
        assert(key_lt(s[i].0, s[s.len() - 1].0));
        lemma_key_lt_irreflexive(s.last().0);
    }
}

/// A sorted sequence is determined by its map: two sorted sequences with the same map are equal.
pub proof fn lemma_sorted_items_unique(s: Seq<(Seq<char>, Seq<char>)>, t: Seq<(Seq<char>, Seq<char>)>)
    requires
        items_sorted(s),
        items_sorted(t),
        items_map(s) == items_map(t),
    ensures
        s == t,
    decreases s.len(),
{
    if s.len() == 0 {
        if t.len() > 0 {
            lemma_items_map_at(t, 0);
            assert(!has_key(s, t[0].0));
        }
        assert(s =~= t);
    } else if t.len() == 0 {
        lemma_items_map_at(s, 0);
        assert(!has_key(t, s[0].0));
    } else {
        let ps = s.last();
        let pt = t.last();
        let rs = s.drop_last();
        let rt = t.drop_last();
        assert(rs.push(ps) =~= s);
        assert(rt.push(pt) =~= t);
        lemma_items_map_push(rs, ps);
        lemma_items_map_push(rt, pt);
        lemma_items_map_at(s, s.len() - 1);
        lemma_items_map_at(t, t.len() - 1);
        if ps.0 != pt.0 {
            // Each last key lies in the other's map, below the other's last key.
            let i = key_index(t, ps.0);
            let j = key_index(s, pt.0);
            assert(has_key(t, ps.0));
            assert(has_key(s, pt.0));
            assert(i != t.len() - 1);
            assert(j != s.len() - 1);
            assert(key_lt(t[i].0, t[t.len() - 1].0));
            assert(key_lt(s[j].0, s[s.len() - 1].0));
            lemma_key_lt_asymmetric(ps.0, pt.0);
        }
        assert(ps.1 == pt.1);
        assert(ps == pt);
        lemma_last_not_in_prefix(s);
        lemma_last_not_in_prefix(t);
        assert(items_map(rs) =~= items_map(s).remove(ps.0));
        assert(items_map(rt) =~= items_map(t).remove(pt.0));
        lemma_sorted_items_unique(rs, rt);
    }
}

/// A map from string keys to string values, held as entries in increasing key order.
#[derive(Debug)]
pub struct OrderedMap {
    entries: Vec<(String, String)>,
}

impl OrderedMap {
    /// The entries as plain values, in increasing key order.
    pub closed spec fn items(&self) -> Seq<(Seq<char>, Seq<char>)> {
        self.entries@.map_values(|p: (String, String)| (p.0@, p.1@))
    }

    /// The entries are sorted by key.
    pub closed spec fn wf(&self) -> bool {
        items_sorted(self.items())
    }

    /// A well-formed map stands for the map of its entries, which are sorted.
    pub proof fn lemma_wf(&self)
        requires
            self.wf(),
        ensures
            items_sorted(self.items()),
            self@ == items_map(self.items()),
            self@.dom().finite(),
            self@.len() == self.items().len(),
    {
        self.lemma_finite(self.items());
    }

    proof fn lemma_finite(&self, s: Seq<(Seq<char>, Seq<char>)>)
        requires
            items_sorted(s),
        ensures
            items_map(s).dom().finite(),
            items_map(s).len() == s.len(),
        decreases s.len(),
    {
        if s.len() == 0 {
            assert(items_map(s).dom() =~= Set::empty());
        } else {
            let p = s.last();
            let r = s.drop_last();
            assert(r.push(p) =~= s);
            lemma_items_map_push(r, p);
            self.lemma_finite(r);
            if items_map(r).contains_key(p.0) {
                let i = choose|i: int| 0 <= i < r.len() && #[trigger] r[i].0 == p.0;
                assert(s[i] == r[i]);
                assert(key_lt(s[i].0, s[s.len() - 1].0));
                lemma_key_lt_irreflexive(p.0);
            }
        }
    }

    /// An empty map.
    pub fn new() -> (m: OrderedMap)
        ensures
            m.wf(),
            m@ == Map::<Seq<char>, Seq<char>>::empty(),
            m.items() == Seq::<(Seq<char>, Seq<char>)>::empty(),
    {
        let m = OrderedMap { entries: Vec::new() };
        assert(m.items() =~= Seq::<(Seq<char>, Seq<char>)>::empty());
        assert(m@ =~= Map::<Seq<char>, Seq<char>>::empty());
        m
    }

    /// The number of entries.
    pub fn len(&self) -> (n: usize)
        ensures
            n == self.items().len(),
    {
        self.entries.len()
    }

    /// The entry at position `i` in key order.
    pub fn entry(&self, i: usize) -> (r: (&String, &String))
        requires
            i < self.items().len(),
        ensures
            (r.0@, r.1@) == self.items()[i as int],
    {
        let p = &self.entries[i];
        (&p.0, &p.1)
    }

    /// Where `key` stands: its position if present, else the position at which it would go.
    fn find(&self, key: &String) -> (r: Result<usize, usize>)
        requires
            self.wf(),
        ensures
            r matches Ok(i) ==> i < self.items().len() && self.items()[i as int].0 == key@,
            r matches Err(i) ==> {
                &&& i <= self.items().len()
                &&& forall|j: int| 0 <= j < i ==> key_lt(#[trigger] self.items()[j].0, key@)
                &&& forall|j: int| i <= j < self.items().len() ==> key_lt(key@, #[trigger] self.items()[j].0)
            },
    {
        let n = self.entries.len();
        let mut i: usize = 0;
        while i < n
            invariant
                self.wf(),
                n == self.items().len(),
                i <= n,
                forall|j: int| 0 <= j < i ==> key_lt(#[trigger] self.items()[j].0, key@),
            decreases n - i,
        {
            let k = &self.entries[i].0;
            assert(k@ == self.items()[i as int].0);
            match key_order(k, key) {
                KeyOrder::Less => {
                    i = i + 1;
                },
                KeyOrder::Equal => {
                    return Ok(i);
                },
                KeyOrder::Greater => {
                    proof {
                        let s = self.items();
                        assert forall|j: int| i <= j < s.len() implies key_lt(key@, #[trigger] s[j].0) by {
                            if j > i {
                                assert(key_lt(s[i as int].0, s[j].0));
                                lemma_key_lt_transitive(key@, s[i as int].0, s[j].0);
                            }
                        }
                    }
                    return Err(i);
                },
            }
        }
        Err(i)
    }

    /// Whether `key` has an entry.
    pub fn contains_key(&self, key: &String) -> (b: bool)
        requires
            self.wf(),
        ensures
            b == self@.contains_key(key@),
    {
        proof {
            self.lemma_wf();
        }
        match self.find(key) {
            Ok(i) => {
                proof {
                    lemma_items_map_at(self.items(), i as int);
                }
                true
            },
            Err(i) => {
                proof {
                    self.lemma_absent(key@, i as int);
                }
                false
            },
        }
    }

    proof fn lemma_absent(&self, k: Seq<char>, i: int)
        requires
            self.wf(),
            0 <= i <= self.items().len(),
            forall|j: int| 0 <= j < i ==> key_lt(#[trigger] self.items()[j].0, k),
            forall|j: int| i <= j < self.items().len() ==> key_lt(k, #[trigger] self.items()[j].0),
        ensures
            !self@.contains_key(k),
    {
        let s = self.items();
        if has_key(s, k) {
            let j = choose|j: int| 0 <= j < s.len() && #[trigger] s[j].0 == k;
            lemma_key_lt_irreflexive(k);
            if j < i {
                assert(key_lt(s[j].0, k));
            } else {
                assert(key_lt(k, s[j].0));
            }
        }
    }

    /// The value held at `key`, if any.
    pub fn get(&self, key: &String) -> (r: Option<&String>)
        requires
            self.wf(),
        ensures
            r is None <==> !self@.contains_key(key@),
            r matches Some(v) ==> v@ == self@[key@],
    {
        proof {
            self.lemma_wf();
        }
        match self.find(key) {
            Ok(i) => {
                proof {
                    lemma_items_map_at(self.items(), i as int);
                }
                Some(&self.entries[i].1)
            },
            Err(i) => {
                proof {
                    self.lemma_absent(key@, i as int);
                }
                None
            },
        }
    }

    /// Sets `key` to `value`, replacing any value it held.
    pub fn insert(&mut self, key: String, value: String)
        requires
            old(self).wf(),
        ensures
            final(self).wf(),
            final(self)@ == old(self)@.insert(key@, value@),
    {
        proof {
            self.lemma_wf();
        }
        let ghost s = self.items();
        let ghost k = key@;
        let ghost v = value@;
        match self.find(&key) {
            Ok(i) => {
                self.entries.set(i, (key, value));
                proof {
                    let t = self.items();
                    assert(t =~= s.update(i as int, (k, v)));
                    assert(items_sorted(t)) by {
                        assert forall|a: int, b: int| 0 <= a < b < t.len() implies key_lt(
                            #[trigger] t[a].0,
                            #[trigger] t[b].0,
                        ) by {
                            assert(t[a].0 == s[a].0 && t[b].0 == s[b].0);
                        }
                    }
                    self.lemma_update_map(s, t, i as int);
                }
            },
            Err(i) => {
                self.entries.insert(i, (key, value));
                proof {
                    let t = self.items();
                    assert(t =~= s.insert(i as int, (k, v)));
                    assert(items_sorted(t)) by {
                        assert forall|a: int, b: int| 0 <= a < b < t.len() implies key_lt(
                            #[trigger] t[a].0,
                            #[trigger] t[b].0,
                        ) by {
                            if b < i {
                                assert(t[a] == s[a] && t[b] == s[b]);
                            } else if b == i {
                                assert(t[a] == s[a]);
                            } else if a < i {
                                assert(t[a] == s[a] && t[b] == s[b - 1]);
                                lemma_key_lt_transitive(s[a].0, k, s[b - 1].0);
                            } else if a == i {
                                assert(t[b] == s[b - 1]);
                            } else {
                                assert(t[a] == s[a - 1] && t[b] == s[b - 1]);
                            }
                        }
                    }
                    self.lemma_insert_map(s, t, i as int, k, v);
                }
            },
        }
    }

    proof fn lemma_update_map(
        &self,
        s: Seq<(Seq<char>, Seq<char>)>,
        t: Seq<(Seq<char>, Seq<char>)>,
        i: int,
    )
        requires
            items_sorted(s),
            items_sorted(t),
            0 <= i < s.len(),
            t.len() == s.len(),
            t[i].0 == s[i].0,
            forall|j: int| 0 <= j < s.len() && j != i ==> t[j] == s[j],
        ensures
            items_map(t) == items_map(s).insert(t[i].0, t[i].1),
    {
        let lhs = items_map(t);
        let rhs = items_map(s).insert(t[i].0, t[i].1);
        assert forall|k: Seq<char>| lhs.contains_key(k) <==> rhs.contains_key(k) by {
            if has_key(t, k) {
                let j = choose|j: int| 0 <= j < t.len() && #[trigger] t[j].0 == k;
                assert(s[j].0 == k);
            }
            if has_key(s, k) {
                let j = choose|j: int| 0 <= j < s.len() && #[trigger] s[j].0 == k;
                assert(t[j].0 == k);
            }
        }
        assert forall|k: Seq<char>| #[trigger] lhs.contains_key(k) implies lhs[k] == rhs[k] by {
            let j = choose|j: int| 0 <= j < t.len() && #[trigger] t[j].0 == k;
            lemma_items_map_at(t, j);
            if j != i {
                lemma_items_map_at(s, j);
                lemma_key_lt_irreflexive(k);
                if j < i {
                    assert(key_lt(t[j].0, t[i].0));
                } else {
                    assert(key_lt(t[i].0, t[j].0));
                }
            }
        }
        assert(lhs =~= rhs);
    }

    proof fn lemma_insert_map(
        &self,
        s: Seq<(Seq<char>, Seq<char>)>,
        t: Seq<(Seq<char>, Seq<char>)>,
        i: int,
        k: Seq<char>,
        v: Seq<char>,
    )
        requires
            items_sorted(s),
            items_sorted(t),
            0 <= i <= s.len(),
            t == s.insert(i, (k, v)),
        ensures
            items_map(t) == items_map(s).insert(k, v),
    {
        let lhs = items_map(t);
        let rhs = items_map(s).insert(k, v);
        assert forall|q: Seq<char>| lhs.contains_key(q) <==> rhs.contains_key(q) by {
            if has_key(t, q) {
                let j = choose|j: int| 0 <= j < t.len() && #[trigger] t[j].0 == q;
                if j < i {
                    assert(s[j].0 == q);
                } else if j > i {
                    assert(s[j - 1].0 == q);
                }
            }
            if has_key(s, q) {
                let j = choose|j: int| 0 <= j < s.len() && #[trigger] s[j].0 == q;
                if j < i {
                    assert(t[j].0 == q);
                } else {
                    assert(t[j + 1].0 == q);
                }
            }
            if q == k {
                assert(t[i].0 == q);
            }
        }
        assert forall|q: Seq<char>| #[trigger] lhs.contains_key(q) implies lhs[q] == rhs[q] by {
            let j = choose|j: int| 0 <= j < t.len() && #[trigger] t[j].0 == q;
            lemma_items_map_at(t, j);
            if j != i {
                lemma_key_lt_irreflexive(q);
                if j < i {
                    assert(key_lt(t[j].0, t[i].0));
                    assert(t[j] == s[j]);
                    lemma_items_map_at(s, j);
                } else {
                    assert(key_lt(t[i].0, t[j].0));
                    assert(t[j] == s[j - 1]);
                    lemma_items_map_at(s, j - 1);
                }
            }
        }
        assert(lhs =~= rhs);
    }

    /// Removes the entry of `key`, if there is one.
    pub fn remove(&mut self, key: &String)
        requires
            old(self).wf(),
        ensures
            final(self).wf(),
            final(self)@ == old(self)@.remove(key@),
    {
        proof {
            self.lemma_wf();
        }
        let ghost s = self.items();
        match self.find(key) {
            Ok(i) => {
                let _ = self.entries.remove(i);
                proof {
                    let t = self.items();
                    assert(t =~= s.remove(i as int));
                    assert(items_sorted(t)) by {
                        assert forall|a: int, b: int| 0 <= a < b < t.len() implies key_lt(
                            #[trigger] t[a].0,
                            #[trigger] t[b].0,
                        ) by {
                            if b < i {
                                assert(t[a] == s[a] && t[b] == s[b]);
                            } else if a < i {
                                assert(t[a] == s[a] && t[b] == s[b + 1]);
                            } else {
                                assert(t[a] == s[a + 1] && t[b] == s[b + 1]);
                            }
                        }
                    }
                    self.lemma_remove_map(s, t, i as int);
                }
            },
            Err(i) => {
                proof {
                    self.lemma_absent(key@, i as int);
                    assert(self@.remove(key@) =~= self@);
                }
            },
        }
    }

    proof fn lemma_remove_map(
        &self,
        s: Seq<(Seq<char>, Seq<char>)>,
        t: Seq<(Seq<char>, Seq<char>)>,
        i: int,
    )
        requires
            items_sorted(s),
            items_sorted(t),
            0 <= i < s.len(),
            t == s.remove(i),
        ensures
            items_map(t) == items_map(s).remove(s[i].0),
    {
        let k = s[i].0;
        let lhs = items_map(t);
        let rhs = items_map(s).remove(k);
        assert forall|q: Seq<char>| lhs.contains_key(q) <==> rhs.contains_key(q) by {
            lemma_key_lt_irreflexive(k);
            if has_key(t, q) {
                let j = choose|j: int| 0 <= j < t.len() && #[trigger] t[j].0 == q;
                if j < i {
                    assert(s[j].0 == q);
                    assert(key_lt(s[j].0, s[i].0));
                } else {
                    assert(s[j + 1].0 == q);
                    assert(key_lt(s[i].0, s[j + 1].0));
                }
            }
            if has_key(s, q) && q != k {
                let j = choose|j: int| 0 <= j < s.len() && #[trigger] s[j].0 == q;
                if j < i {
                    assert(t[j].0 == q);
                } else {
                    assert(j != i);
                    assert(t[j - 1].0 == q);
                }
            }
        }
        assert forall|q: Seq<char>| #[trigger] lhs.contains_key(q) implies lhs[q] == rhs[q] by {
            let j = choose|j: int| 0 <= j < t.len() && #[trigger] t[j].0 == q;
            lemma_items_map_at(t, j);
            if j < i {
                assert(t[j] == s[j]);
                lemma_items_map_at(s, j);
            } else {
                assert(t[j] == s[j + 1]);
                lemma_items_map_at(s, j + 1);
            }
        }
        assert(lhs =~= rhs);
    }
}

impl View for OrderedMap {
    type V = Map<Seq<char>, Seq<char>>;

    closed spec fn view(&self) -> Map<Seq<char>, Seq<char>> {
        items_map(self.items())
    }
}

} // verus!
