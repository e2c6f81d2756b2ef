//! Tables keyed by text: at most one entry for each key.

use crate::text::same;
use vstd::prelude::*;

verus! {

/// A table from texts to values.
pub struct StrMap<V: View> {
    entries: Vec<(String, V)>,
}

/// No key stands in the list twice.
spec fn distinct_keys<V>(s: Seq<(String, V)>) -> bool {
    forall|i: int, j: int| 0 <= i < j < s.len() ==> #[trigger] s[i].0@ != #[trigger] s[j].0@
}

/// Whether `k` stands in the list at `i`.
spec fn key_at<V>(s: Seq<(String, V)>, i: int, k: Seq<char>) -> bool {
    0 <= i < s.len() && s[i].0@ == k
}

spec fn has_key<V>(s: Seq<(String, V)>, k: Seq<char>) -> bool {
    exists|i: int| key_at(s, i, k)
}

spec fn list_map<V: View>(s: Seq<(String, V)>) -> Map<Seq<char>, V::V> {
    Map::new(|k: Seq<char>| has_key(s, k), |k: Seq<char>| s[choose|i: int| key_at(s, i, k)].1@)
}

impl<V: View> View for StrMap<V> {
    type V = Map<Seq<char>, V::V>;

    closed spec fn view(&self) -> Map<Seq<char>, V::V> {
        list_map(self.entries@)
    }
}

proof fn lemma_list_map<V: View>(s: Seq<(String, V)>, i: int)
    requires
        distinct_keys(s),
        0 <= i < s.len(),
    ensures
        list_map(s).contains_key(s[i].0@),
        list_map(s)[s[i].0@] == s[i].1@,
{
    let k = s[i].0@;
    assert(key_at(s, i, k));
    let j = choose|j: int| key_at(s, j, k);
    assert(key_at(s, j, k));
    if j < i {
        assert(s[j].0@ != s[i].0@);
    } else if i < j {
        assert(s[i].0@ != s[j].0@);
    }
}

impl<V: View> StrMap<V> {
    #[verifier::type_invariant]
    spec fn keys_are_distinct(self) -> bool {
        distinct_keys(self.entries@)
    }

    /// The empty table.
    pub fn new() -> (r: Self)
        ensures
            r@ == Map::<Seq<char>, V::V>::empty(),
    {
        let r = StrMap { entries: Vec::new() };
        assert(r@ =~= Map::<Seq<char>, V::V>::empty()) by {
            assert forall|k: Seq<char>| !has_key(r.entries@, k) by {
                if has_key(r.entries@, k) {
                    let i = choose|i: int| key_at(r.entries@, i, k);
                    assert(key_at(r.entries@, i, k));
                }
            }
        }
        r
    }

    /// The place of `k` in the list.
    fn position(&self, k: &str) -> (r: Option<usize>)
        ensures
            r matches Some(i) ==> key_at(self.entries@, i as int, k@),
            r is None ==> !has_key(self.entries@, k@),
    {
        let mut i: usize = 0;
        while i < self.entries.len()
            invariant
                i <= self.entries@.len(),
                forall|j: int| 0 <= j < i ==> !key_at(self.entries@, j, k@),
            decreases self.entries@.len() - i,
        {
            if same(self.entries[i].0.as_str(), k) {
                return Some(i);
            }
            i = i + 1;
        }
        None
    }

    /// Whether `k` has an entry.
    pub fn contains_key(&self, k: &str) -> (r: bool)
        ensures
            r == self@.contains_key(k@),
    {
        self.position(k).is_some()
    }

    /// The value of `k`.
    pub fn get(&self, k: &str) -> (r: Option<&V>)
        ensures
            match r {
                Some(v) => self@.contains_key(k@) && v@ == self@[k@],
                None => !self@.contains_key(k@),
            },
    {
        proof {
            use_type_invariant(self);
        }
        match self.position(k) {
            Some(i) => {
                proof {
                    lemma_list_map(self.entries@, i as int);
                }
                Some(&self.entries[i].1)
            },
            None => None,
        }
    }

    /// Gives `k` the value `v`, in place of any that it had.
    pub fn insert(&mut self, k: String, v: V)
        ensures
            final(self)@ == old(self)@.insert(k@, v@),
    {
        proof {
            use_type_invariant(&*self);
        }
        let at = self.position(k.as_str());
        let ghost before = self.entries@;
        let mut list: Vec<(String, V)> = Vec::new();
        std::mem::swap(&mut list, &mut self.entries);
        let ghost kk = k@;
        let ghost vv = v@;
        match at {
            Some(i) => {
                list.set(i, (k, v));
                let ghost after = list@;
                assert(after[i as int].0@ == before[i as int].0@);
                assert(distinct_keys(after)) by {
                    assert forall|a: int, b: int| 0 <= a < b < after.len() implies after[a].0@
                        != after[b].0@ by {
                        assert(before[a].0@ != before[b].0@);
                    }
                }
                assert(list_map(after) =~= list_map(before).insert(kk, vv)) by {
                    assert forall|q: Seq<char>| has_key(after, q) == has_key(before, q) by {
                        assert forall|j: int| key_at(after, j, q) == key_at(before, j, q) by {}
                    }
                    assert forall|q: Seq<char>| has_key(after, q) implies list_map(after)[q]
                        == list_map(before).insert(kk, vv)[q] by {
                        let j = choose|j: int| key_at(after, j, q);
                        assert(key_at(after, j, q));
                        lemma_list_map(after, j);
                        lemma_list_map(before, j);
                        if q == kk && j != i {
                            if j < i {
                                assert(after[j].0@ != after[i as int].0@);
                            } else {
                                assert(after[i as int].0@ != after[j].0@);
                            }
                        }
                    }
                    assert(has_key(before, kk));
                }
            },
            None => {
                list.push((k, v));
                let ghost after = list@;
                assert forall|j: int| 0 <= j < before.len() implies after[j] == before[j]
                    && before[j].0@ != kk by {
                    if before[j].0@ == kk {
                        assert(key_at(before, j, kk));
                    }
                }
                assert(distinct_keys(after)) by {
                    assert forall|a: int, b: int| 0 <= a < b < after.len() implies after[a].0@
                        != after[b].0@ by {
                        if b < before.len() {
                            assert(before[a].0@ != before[b].0@);
                        }
                    }
                }
                assert(list_map(after) =~= list_map(before).insert(kk, vv)) by {
                    assert forall|q: Seq<char>| has_key(after, q) == (has_key(before, q) || q
                        == kk) by {
                        if has_key(before, q) {
                            let j = choose|j: int| key_at(before, j, q);
                            assert(key_at(after, j, q));
                        }
                        if q == kk {
                            assert(key_at(after, before.len() as int, q));
                        }
                        if has_key(after, q) && q != kk {
                            let j = choose|j: int| key_at(after, j, q);
                            assert(key_at(before, j, q));
                        }
                    }
                    assert forall|q: Seq<char>| has_key(after, q) implies list_map(after)[q]
                        == list_map(before).insert(kk, vv)[q] by {
                        let j = choose|j: int| key_at(after, j, q);
                        assert(key_at(after, j, q));
                        lemma_list_map(after, j);
                        if j < before.len() {
                            lemma_list_map(before, j);
                        }
                    }
                }
            },
        }
        self.entries = list;
    }

    /// Takes out the entry of `k` and hands over its value.
    pub fn remove(&mut self, k: &str) -> (r: Option<V>)
        ensures
            final(self)@ == old(self)@.remove(k@),
            match r {
                Some(v) => old(self)@.contains_key(k@) && v@ == old(self)@[k@],
                None => !old(self)@.contains_key(k@),
            },
    {
        proof {
            use_type_invariant(&*self);
        }
        let at = self.position(k);
        let ghost before = self.entries@;
        match at {
            Some(i) => {
                let mut list: Vec<(String, V)> = Vec::new();
                std::mem::swap(&mut list, &mut self.entries);
                let (_key, v) = list.remove(i);
                let ghost after = list@;
                proof {
                    lemma_list_map(before, i as int);
                    assert(after == before.remove(i as int));
                    assert forall|j: int| 0 <= j < after.len() implies #[trigger] after[j] == (
                    if j < i {
                        before[j]
                    } else {
                        before[j + 1]
                    }) by {}
                    assert(distinct_keys(after)) by {
                        assert forall|a: int, b: int| 0 <= a < b < after.len() implies after[a].0@
                            != after[b].0@ by {
                            let a2 = if a < i {
                                a
                            } else {
                                a + 1
                            };
                            let b2 = if b < i {
                                b
                            } else {
                                b + 1
                            };
                            assert(before[a2].0@ != before[b2].0@);
                        }
                    }
                    assert(list_map(after) =~= list_map(before).remove(k@)) by {
                        assert forall|q: Seq<char>| has_key(after, q) == (has_key(before, q) && q
                            != k@) by {
                            if has_key(after, q) {
                                let j = choose|j: int| key_at(after, j, q);
                                assert(key_at(after, j, q));
                                let j2 = if j < i {
                                    j
                                } else {
                                    j + 1
                                };
                                assert(key_at(before, j2, q));
                                if j2 < i {
                                    assert(before[j2].0@ != before[i as int].0@);
                                } else {
                                    assert(before[i as int].0@ != before[j2].0@);
                                }
                            }
                            if has_key(before, q) && q != k@ {
                                let j = choose|j: int| key_at(before, j, q);
                                assert(key_at(before, j, q));
                                let j2 = if j < i {
                                    j
                                } else {
                                    j - 1
                                };
                                assert(key_at(after, j2, q));
                            }
                        }
                        assert forall|q: Seq<char>| has_key(after, q) implies list_map(after)[q]
                            == list_map(before)[q] by {
                            let j = choose|j: int| key_at(after, j, q);
                            assert(key_at(after, j, q));
                            lemma_list_map(after, j);
                            let j2 = if j < i {
                                j
                            } else {
                                j + 1
                            };
                            lemma_list_map(before, j2);
                        }
                    }
                }
                self.entries = list;
                Some(v)
            },
            None => {
                assert(self@.remove(k@) =~= self@);
                None
            },
        }
    }

    /// The keys, each once.
    pub fn keys(&self) -> (r: Vec<String>)
        ensures
            forall|i: int, j: int| 0 <= i < j < r@.len() ==> #[trigger] r@[i]@ != #[trigger] r@[j]@,
            forall|i: int| 0 <= i < r@.len() ==> self@.contains_key(#[trigger] r@[i]@),
            forall|k: Seq<char>| self@.contains_key(k) ==> exists|i: int| 0 <= i < r@.len() && #[trigger] r@[i]@ == k,
    {
        proof {
            use_type_invariant(self);
        }
        let mut out: Vec<String> = Vec::new();
        let mut i: usize = 0;
        while i < self.entries.len()
            invariant
                i <= self.entries@.len(),
                out@.len() == i,
                forall|j: int| 0 <= j < i ==> #[trigger] out@[j]@ == self.entries@[j].0@,
            decreases self.entries@.len() - i,
        {
            out.push(self.entries[i].0.clone());
            i = i + 1;
        }
        proof {
            let s = self.entries@;
            assert forall|a: int, b: int| 0 <= a < b < out@.len() implies #[trigger] out@[a]@
                != #[trigger] out@[b]@ by {
                assert(s[a].0@ != s[b].0@);
            }
            assert forall|a: int| 0 <= a < out@.len() implies self@.contains_key(
                #[trigger] out@[a]@,
            ) by {
                lemma_list_map(s, a);
            }
            assert forall|k: Seq<char>| self@.contains_key(k) implies exists|a: int|
                0 <= a < out@.len() && #[trigger] out@[a]@ == k by {
                let a = choose|a: int| key_at(s, a, k);
                assert(key_at(s, a, k));
                assert(out@[a]@ == k);
            }
        }
        out
    }
}

/// A set of texts.
pub struct StrSet {
    map: StrMap<bool>,
}

impl View for StrSet {
    type V = Set<Seq<char>>;

    closed spec fn view(&self) -> Set<Seq<char>> {
        self.map@.dom()
    }
}

impl StrSet {
    /// The empty set.
    pub fn new() -> (r: Self)
        ensures
            r@ == Set::<Seq<char>>::empty(),
    {
        let r = StrSet { map: StrMap::new() };
        assert(r@ =~= Set::<Seq<char>>::empty());
        r
    }

    /// Whether `k` is in the set.
    pub fn contains(&self, k: &str) -> (r: bool)
        ensures
            r == self@.contains(k@),
    {
        self.map.contains_key(k)
    }

    /// Puts `k` into the set.
    pub fn insert(&mut self, k: String)
        ensures
            final(self)@ == old(self)@.insert(k@),
    {
        let ghost q = k@;
        self.map.insert(k, true);
        assert(self@ =~= old(self)@.insert(q));
    }

    /// Takes `k` out of the set.
    pub fn remove(&mut self, k: &str)
        ensures
            final(self)@ == old(self)@.remove(k@),
    {
        let _ = self.map.remove(k);
        assert(self@ =~= old(self)@.remove(k@));
    }

    /// The members, each once.
    pub fn items(&self) -> (r: Vec<String>)
        ensures
            forall|i: int, j: int| 0 <= i < j < r@.len() ==> #[trigger] r@[i]@ != #[trigger] r@[j]@,
            forall|i: int| 0 <= i < r@.len() ==> self@.contains(#[trigger] r@[i]@),
            forall|k: Seq<char>| self@.contains(k) ==> exists|i: int| 0 <= i < r@.len() && #[trigger] r@[i]@ == k,
    {
        self.map.keys()
    }
}

} // verus!
