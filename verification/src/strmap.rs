//! A small map keyed by strings, kept as a list of pairs.
//!
//! The map's view is the pairs read from first to last, a later pair for a key
//! replacing an earlier one. The operations keep every key at most once
//! (`wf`), which is what a map read from a JSON object gives.
use vstd::prelude::*;

verus! {

/// No key occurs twice in `s`.
pub open spec fn keys_distinct<V>(s: Seq<(String, V)>) -> bool {
    forall|i: int, j: int| 0 <= i < s.len() && 0 <= j < s.len() && i != j ==> s[i].0@ != s[j].0@
}

/// The map the pairs `s` describe: a later pair for a key replaces an earlier one.
pub open spec fn pairs_map<V: View>(s: Seq<(String, V)>) -> Map<Seq<char>, V::V>
    decreases s.len(),
{
    if s.len() == 0 {
        Map::empty()
    } else {
        pairs_map(s.drop_last()).insert(s.last().0@, s.last().1@)
    }
}

/// The index of a pair with key `k` in `s`, if any.
pub open spec fn has_key_at<V>(s: Seq<(String, V)>, k: Seq<char>, i: int) -> bool {
    0 <= i < s.len() && s[i].0@ == k
}

/// With distinct keys, the map holds exactly the keys of the pairs, each with
/// its pair's value.
pub proof fn lemma_pairs_map<V: View>(s: Seq<(String, V)>)
    requires
        keys_distinct(s),
    ensures
        forall|k: Seq<char>|
            #![trigger pairs_map(s).contains_key(k)]
            pairs_map(s).contains_key(k) <==> exists|i: int| has_key_at(s, k, i),
        forall|i: int| 0 <= i < s.len() ==> #[trigger] pairs_map(s)[s[i].0@] == s[i].1@,
        forall|i: int| 0 <= i < s.len() ==> #[trigger] pairs_map(s).contains_key(s[i].0@),
    decreases s.len(),
{
    if s.len() > 0 {
        let t = s.drop_last();
        assert(keys_distinct(t)) by {
            assert forall|i: int, j: int|
                0 <= i < t.len() && 0 <= j < t.len() && i != j implies t[i].0@ != t[j].0@ by {
                assert(t[i] == s[i] && t[j] == s[j]);
            }
        }
        lemma_pairs_map(t);
        assert forall|k: Seq<char>| pairs_map(s).contains_key(k) implies exists|i: int|
            has_key_at(s, k, i) by {
            if k == s.last().0@ {
                assert(has_key_at(s, k, s.len() - 1));
            } else {
                assert(pairs_map(t).contains_key(k));
                let i = choose|i: int| has_key_at(t, k, i);
                assert(t[i] == s[i]);
                assert(has_key_at(s, k, i));
            }
        }
        assert forall|k: Seq<char>| (exists|i: int| has_key_at(s, k, i)) implies pairs_map(
            s,
        ).contains_key(k) by {
            let i = choose|i: int| has_key_at(s, k, i);
            if i < s.len() - 1 {
                assert(t[i] == s[i]);
                assert(has_key_at(t, k, i));
                assert(pairs_map(t).contains_key(k));
            }
        }
        assert forall|i: int| 0 <= i < s.len() implies #[trigger] pairs_map(s)[s[i].0@]
            == s[i].1@ && pairs_map(s).contains_key(s[i].0@) by {
            if i < s.len() - 1 {
                assert(t[i] == s[i]);
                assert(s[i].0@ != s[s.len() - 1].0@);
                assert(pairs_map(t)[t[i].0@] == t[i].1@);
                assert(pairs_map(t).contains_key(t[i].0@));
            }
        }
        assert forall|i: int| 0 <= i < s.len() implies #[trigger] pairs_map(s).contains_key(
            s[i].0@,
        ) by {
            assert(pairs_map(s)[s[i].0@] == s[i].1@);
        }
    }
}

/// The pairs map of no pairs is empty, and a non-empty list of pairs maps
/// its last key.
pub proof fn lemma_pairs_map_empty<V: View>(s: Seq<(String, V)>)
    ensures
        (s.len() == 0) <==> (pairs_map(s) =~= Map::<Seq<char>, V::V>::empty()),
{
    if s.len() > 0 {
        assert(pairs_map(s).contains_key(s.last().0@));
    }
}

/// Extending a prefix of distinct pairs by one pair adds a key the prefix
/// does not yet hold.
pub proof fn lemma_pairs_map_prefix<V: View>(s: Seq<(String, V)>, i: int)
    requires
        keys_distinct(s),
        0 <= i < s.len(),
    ensures
        pairs_map(s.take(i + 1)) == pairs_map(s.take(i)).insert(s[i].0@, s[i].1@),
        !pairs_map(s.take(i)).contains_key(s[i].0@),
        keys_distinct(s.take(i)),
{
    let t = s.take(i);
    assert(s.take(i + 1).drop_last() =~= t);
    assert(keys_distinct(t)) by {
        assert forall|a: int, b: int|
            0 <= a < t.len() && 0 <= b < t.len() && a != b implies t[a].0@ != t[b].0@ by {
            assert(t[a] == s[a] && t[b] == s[b]);
        }
    }
    lemma_pairs_map(t);
    if pairs_map(t).contains_key(s[i].0@) {
        let j = choose|j: int| has_key_at(t, s[i].0@, j);
        assert(t[j] == s[j]);
    }
}

/// The whole list is its own longest prefix.
pub proof fn lemma_pairs_map_full<V: View>(s: Seq<(String, V)>)
    ensures
        pairs_map(s.take(s.len() as int)) == pairs_map(s),
        pairs_map(s.take(0)) == Map::<Seq<char>, V::V>::empty(),
{
    assert(s.take(s.len() as int) =~= s);
    assert(s.take(0).len() == 0);
}

/// A map from strings to values with at most one pair per key.
#[derive(Debug, Clone, PartialEq, Eq)]
pub struct StrMap<V> {
    items: Vec<(String, V)>,
}

impl<V: View> View for StrMap<V> {
    type V = Map<Seq<char>, V::V>;

    closed spec fn view(&self) -> Map<Seq<char>, V::V> {
        pairs_map(self.items@)
    }
}

impl<V: View> StrMap<V> {
    /// The pairs of the map, in their stored order.
    pub closed spec fn pairs(self) -> Seq<(String, V)> {
        self.items@
    }

    /// Every key is stored once.
    pub open spec fn wf(self) -> bool {
        keys_distinct(self.pairs())
    }

    /// The view is the map of the stored pairs.
    pub proof fn lemma_view(self)
        ensures
            self@ == pairs_map(self.pairs()),
    {
    }

    /// An empty map.
    pub fn new() -> (r: Self)
        ensures
            r.wf(),
            r@ == Map::<Seq<char>, V::V>::empty(),
            r.pairs().len() == 0,
    {
        StrMap { items: Vec::new() }
    }

    /// Number of stored pairs.
    pub fn len(&self) -> (r: usize)
        ensures
            r == self.pairs().len(),
    {
        self.items.len()
    }

    /// Whether the map is empty.
    pub fn is_empty(&self) -> (r: bool)
        ensures
            r == (self@ =~= Map::<Seq<char>, V::V>::empty()),
    {
        proof {
            lemma_pairs_map_empty(self.items@);
        }
        self.items.len() == 0
    }

    /// The `i`-th stored pair.
    pub fn entry_at(&self, i: usize) -> (r: (&String, &V))
        requires
            i < self.pairs().len(),
        ensures
            *r.0 == self.pairs()[i as int].0,
            *r.1 == self.pairs()[i as int].1,
    {
        let p = &self.items[i];
        (&p.0, &p.1)
    }

    /// The position of `key`, if it is stored.
    fn position(&self, key: &String) -> (r: Option<usize>)
        ensures
            match r {
                Some(i) => i < self.items@.len() && self.items@[i as int].0@ == key@,
                None => forall|i: int|
                    0 <= i < self.items@.len() ==> #[trigger] self.items@[i].0@ != key@,
            },
    {
        let mut i: usize = 0;
        while i < self.items.len()
            invariant
                i <= self.items@.len(),
                forall|j: int| 0 <= j < i ==> #[trigger] self.items@[j].0@ != key@,
            decreases self.items@.len() - i,
        {
            if self.items[i].0 == *key {
                return Some(i);
            }
            i = i + 1;
        }
        None
    }

    /// The value stored for `key`.
    pub fn get(&self, key: &String) -> (r: Option<&V>)
        requires
            self.wf(),
        ensures
            match r {
                Some(v) => self@.contains_key(key@) && v@ == self@[key@],
                None => !self@.contains_key(key@),
            },
    {
        proof {
            lemma_pairs_map(self.items@);
        }
        match self.position(key) {
            Some(i) => Some(&self.items[i].1),
            None => {
                proof {
                    if self@.contains_key(key@) {
                        let j = choose|j: int| has_key_at(self.items@, key@, j);
                        assert(self.items@[j].0@ != key@);
                    }
                }
                None
            },
        }
    }

    /// Whether `key` is stored.
    pub fn contains_key(&self, key: &String) -> (r: bool)
        requires
            self.wf(),
        ensures
            r == self@.contains_key(key@),
    {
        self.get(key).is_some()
    }

    /// Stores `value` for `key`, replacing any value it had.
    pub fn insert(&mut self, key: String, value: V)
        requires
            old(self).wf(),
        ensures
            final(self).wf(),
            final(self)@ == old(self)@.insert(key@, value@),
    {
        let ghost k = key@;
        let ghost val = value@;
        proof {
            lemma_pairs_map(self.items@);
        }
        match self.position(&key) {
            Some(i) => {
                let ghost before = self.items@;
                let ghost old_map = pairs_map(before);
                self.items.set(i, (key, value));
                let ghost after = self.items@;
                assert(keys_distinct(after)) by {
                    assert forall|a: int, b: int|
                        0 <= a < after.len() && 0 <= b < after.len() && a != b implies after[a].0@
                        != after[b].0@ by {
                        if a != i && b != i {
                            assert(after[a] == before[a] && after[b] == before[b]);
                        } else if a == i {
                            assert(after[b] == before[b]);
                        } else {
                            assert(after[a] == before[a]);
                        }
                    }
                }
                proof {
                    lemma_pairs_map(after);
                    assert(pairs_map(after) =~= old_map.insert(k, val)) by {
                        assert forall|q: Seq<char>| #[trigger]
                            pairs_map(after).contains_key(q) == old_map.insert(
                                k,
                                val,
                            ).contains_key(q) by {
                            if pairs_map(after).contains_key(q) {
                                let j = choose|j: int| has_key_at(after, q, j);
                                if j != i {
                                    assert(has_key_at(before, q, j));
                                }
                            }
                            if old_map.contains_key(q) {
                                let j = choose|j: int| has_key_at(before, q, j);
                                if j != i {
                                    assert(has_key_at(after, q, j));
                                } else {
                                    assert(has_key_at(after, q, i as int));
                                }
                            }
                            if q == k {
                                assert(has_key_at(after, q, i as int));
                            }
                        }
                        assert forall|q: Seq<char>| #[trigger]
                            pairs_map(after).contains_key(q) implies pairs_map(after)[q]
                            == old_map.insert(k, val)[q] by {
                            let j = choose|j: int| has_key_at(after, q, j);
                            if j != i {
                                assert(after[j] == before[j]);
                                assert(has_key_at(before, q, j));
                            }
                        }
                    }
                }
            },
            None => {
                let ghost before = self.items@;
                self.items.push((key, value));
                let ghost after = self.items@;
                assert(after.drop_last() =~= before);
                assert(keys_distinct(after)) by {
                    assert forall|a: int, b: int|
                        0 <= a < after.len() && 0 <= b < after.len() && a != b implies after[a].0@
                        != after[b].0@ by {
                        if a < before.len() && b < before.len() {
                            assert(after[a] == before[a] && after[b] == before[b]);
                        } else if a < before.len() {
                            assert(after[a] == before[a]);
                        } else {
                            assert(after[b] == before[b]);
                        }
                    }
                }
            },
        }
    }

    /// Drops `key` and its value.
    pub fn remove(&mut self, key: &String)
        requires
            old(self).wf(),
        ensures
            final(self).wf(),
            final(self)@ == old(self)@.remove(key@),
    {
        let ghost k = key@;
        proof {
            lemma_pairs_map(self.items@);
        }
        match self.position(key) {
            Some(i) => {
                let ghost before = self.items@;
                let ghost old_map = pairs_map(before);
                self.items.remove(i);
                let ghost after = self.items@;
                assert(after =~= before.remove(i as int));
                assert(keys_distinct(after)) by {
                    assert forall|a: int, b: int|
                        0 <= a < after.len() && 0 <= b < after.len() && a != b implies after[a].0@
                        != after[b].0@ by {
                        let a2 = if a < i { a } else { a + 1 };
                        let b2 = if b < i { b } else { b + 1 };
                        assert(after[a] == before[a2] && after[b] == before[b2]);
                    }
                }
                proof {
                    lemma_pairs_map(after);
                    assert(pairs_map(after) =~= old_map.remove(k)) by {
                        assert forall|q: Seq<char>| #[trigger]
                            pairs_map(after).contains_key(q) == old_map.remove(k).contains_key(
                                q,
                            ) by {
                            if pairs_map(after).contains_key(q) {
                                let j = choose|j: int| has_key_at(after, q, j);
                                let j2 = if j < i { j } else { j + 1 };
                                assert(after[j] == before[j2]);
                                assert(has_key_at(before, q, j2));
                            }
                            if old_map.remove(k).contains_key(q) {
                                let j = choose|j: int| has_key_at(before, q, j);
                                assert(j != i);
                                let j2 = if j < i { j } else { j - 1 };
                                assert(after[j2] == before[j]);
                                assert(has_key_at(after, q, j2));
                            }
                        }
                        assert forall|q: Seq<char>| #[trigger]
                            pairs_map(after).contains_key(q) implies pairs_map(after)[q]
                            == old_map.remove(k)[q] by {
                            let j = choose|j: int| has_key_at(after, q, j);
                            let j2 = if j < i { j } else { j + 1 };
                            assert(after[j] == before[j2]);
                        }
                    }
                }
            },
            None => {
                proof {
                    assert(self@ =~= self@.remove(k)) by {
                        if self@.contains_key(k) {
                            let j = choose|j: int| has_key_at(self.items@, k, j);
                            assert(self.items@[j].0@ != k);
                        }
                    }
                }
            },
        }
    }
}

} // verus!
