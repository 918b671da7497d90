//! A map from string keys to string values that keeps one entry per key,
//! in the order the keys were first inserted.

use vstd::prelude::*;
use crate::text::str_eq;

verus! {

/// The mapping that a sequence of (key, value) pairs denotes: a later pair
/// overrides an earlier one with the same key.
pub open spec fn pairs_map(s: Seq<(Seq<char>, Seq<char>)>) -> Map<Seq<char>, Seq<char>>
    decreases s.len(),
{
    if s.len() == 0 {
        Map::empty()
    } else {
        pairs_map(s.drop_last()).insert(s.last().0, s.last().1)
    }
}

/// No two pairs share a key.
pub open spec fn keys_distinct(s: Seq<(Seq<char>, Seq<char>)>) -> bool {
    forall|i: int, j: int| 0 <= i < s.len() && 0 <= j < s.len() && i != j ==> s[i].0 != s[j].0
}

/// Where keys are distinct, each pair is what the mapping holds for its key,
/// and a key carried by no pair is absent.
pub proof fn lemma_pairs_map_lookup(s: Seq<(Seq<char>, Seq<char>)>, k: Seq<char>)
    requires
        keys_distinct(s),
    ensures
        forall|i: int| 0 <= i < s.len() && s[i].0 == k
            ==> pairs_map(s).contains_key(k) && pairs_map(s)[k] == s[i].1,
        (forall|i: int| 0 <= i < s.len() ==> s[i].0 != k) ==> !pairs_map(s).contains_key(k),
    decreases s.len(),
{
    if s.len() > 0 {
        let p = s.drop_last();
        assert(keys_distinct(p)) by {
            assert forall|i: int, j: int| 0 <= i < p.len() && 0 <= j < p.len() && i != j implies p[i].0 != p[j].0 by {
                assert(p[i] == s[i] && p[j] == s[j]);
            }
        }
        lemma_pairs_map_lookup(p, k);
        assert forall|i: int| 0 <= i < s.len() && s[i].0 == k
            implies pairs_map(s).contains_key(k) && pairs_map(s)[k] == s[i].1 by {
            if i < s.len() - 1 {
                assert(p[i] == s[i]);
                assert(s[s.len() - 1].0 != k);
            }
        }
        if forall|i: int| 0 <= i < s.len() ==> s[i].0 != k {
            assert forall|i: int| 0 <= i < p.len() implies p[i].0 != k by {
                assert(p[i] == s[i]);
            }
            assert(s[s.len() - 1].0 != k);
        }
    }
}

/// A map from string keys to string values with at most one entry per key.
pub struct StrMap {
    entries: Vec<(String, String)>,
}

impl StrMap {
    /// The entries, as views, in the order they are stored.
    pub closed spec fn pairs(&self) -> Seq<(Seq<char>, Seq<char>)> {
        self.entries@.map_values(|e: (String, String)| (e.0@, e.1@))
    }

    /// Each key is stored once.
    pub closed spec fn wf(&self) -> bool {
        keys_distinct(self.pairs())
    }
}

impl View for StrMap {
    type V = Map<Seq<char>, Seq<char>>;

    open spec fn view(&self) -> Map<Seq<char>, Seq<char>> {
        pairs_map(self.pairs())
    }
}

impl StrMap {
    /// An empty map.
    pub fn new() -> (r: StrMap)
        ensures
            r.wf(),
            r@ == Map::<Seq<char>, Seq<char>>::empty(),
            r.pairs().len() == 0,
    {
        let r = StrMap { entries: Vec::new() };
        assert(r.pairs() =~= Seq::<(Seq<char>, Seq<char>)>::empty());
        r
    }

    /// The number of entries.
    pub fn len(&self) -> (r: usize)
        ensures
            r == self.pairs().len(),
    {
        self.entries.len()
    }

    /// The `i`-th entry in storage order.
    pub fn entry(&self, i: usize) -> (r: (&String, &String))
        requires
            i < self.pairs().len(),
        ensures
            (r.0@, r.1@) == self.pairs()[i as int],
    {
        let e = &self.entries[i];
        (&e.0, &e.1)
    }

    /// The position of `key` among the entries, if it has one.
    fn find(&self, key: &str) -> (r: Option<usize>)
        ensures
            match r {
                Some(i) => i < self.pairs().len() && self.pairs()[i as int].0 == key@,
                None => forall|i: int| 0 <= i < self.pairs().len() ==> self.pairs()[i].0 != key@,
            },
    {
        let mut i: usize = 0;
        while i < self.entries.len()
            invariant
                0 <= i <= self.entries@.len(),
                self.pairs().len() == self.entries@.len(),
                forall|j: int| 0 <= j < i ==> self.pairs()[j].0 != key@,
            decreases self.entries@.len() - i,
        {
            if str_eq(self.entries[i].0.as_str(), key) {
                return Some(i);
            }
            i = i + 1;
        }
        None
    }

    /// Whether `key` has an entry.
    pub fn contains_key(&self, key: &str) -> (r: bool)
        requires
            self.wf(),
        ensures
            r == self@.contains_key(key@),
    {
        proof {
            lemma_pairs_map_lookup(self.pairs(), key@);
        }
        self.find(key).is_some()
    }

    /// The value stored under `key`.
    pub fn get(&self, key: &str) -> (r: Option<&String>)
        requires
            self.wf(),
        ensures
            match r {
                Some(v) => self@.contains_key(key@) && v@ == self@[key@],
                None => !self@.contains_key(key@),
            },
    {
        proof {
            lemma_pairs_map_lookup(self.pairs(), key@);
        }
        match self.find(key) {
            Some(i) => Some(&self.entries[i].1),
            None => None,
        }
    }

    /// Stores `value` under `key`, replacing any value it had.
    pub fn insert(&mut self, key: String, value: String)
        requires
            old(self).wf(),
        ensures
            final(self).wf(),
            final(self)@ == old(self)@.insert(key@, value@),
    {
        let ghost k = key@;
        let ghost v = value@;
        let ghost before = self.pairs();
        match self.find(key.as_str()) {
            Some(i) => {
                self.entries.set(i, (key, value));
                proof {
                    assert(self.pairs() =~= before.update(i as int, (k, v)));
                    assert(keys_distinct(self.pairs()));
                    let after = self.pairs();
                    assert(self@ =~= pairs_map(before).insert(k, v)) by {
                        lemma_pairs_map_lookup(after, k);
                        assert(after[i as int].0 == k);
                        assert forall|q: Seq<char>| q != k implies
                            (#[trigger] self@.contains_key(q) == pairs_map(before).contains_key(q))
                            && (self@.contains_key(q) ==> self@[q] == pairs_map(before)[q]) by {
                            lemma_pairs_map_lookup(before, q);
                            lemma_pairs_map_lookup(after, q);
                            if exists|j: int| 0 <= j < before.len() && before[j].0 == q {
                                let j = choose|j: int| 0 <= j < before.len() && before[j].0 == q;
                                assert(after[j] == before[j]);
                            } else {
                                assert forall|j: int| 0 <= j < after.len() implies after[j].0 != q by {
                                    if j != i {
                                        assert(after[j] == before[j]);
                                    }
                                }
                            }
                        }
                    }
                }
            },
            None => {
                self.entries.push((key, value));
                proof {
                    assert(self.pairs() =~= before.push((k, v)));
                    assert(self.pairs().drop_last() =~= before);
                    assert(keys_distinct(self.pairs())) by {
                        assert forall|a: int, b: int| 0 <= a < self.pairs().len() && 0 <= b < self.pairs().len() && a != b
                            implies self.pairs()[a].0 != self.pairs()[b].0 by {
                            if a < before.len() && b < before.len() {
                                assert(self.pairs()[a] == before[a] && self.pairs()[b] == before[b]);
                            }
                        }
                    }
                }
            },
        }
    }
}

} // verus!
