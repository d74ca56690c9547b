//! A map keyed by strings that keeps its keys in ascending order, the
//! order in which `BTreeMap<String, _>` walks its keys. It stands in for
//! std's `HashMap<String, _>` and `BTreeMap<String, _>`: vstd specifies
//! those maps only for key types whose equality it models, and `String` is
//! not among them, so not even the length after one insert follows from
//! their contracts.
use vstd::prelude::*;

use super::text::{
    compare_keys, key_lt, lemma_key_lt_irreflexive, lemma_key_lt_transitive, KeyOrder,
};

verus! {

/// Values that can be copied with their view kept.
pub trait Duplicate: View + Sized {
    fn duplicate(&self) -> (r: Self)
        ensures
            r@ == self@,
    ;
}

impl Duplicate for String {
    fn duplicate(&self) -> (r: String) {
        self.clone()
    }
}

impl Duplicate for (String, String) {
    fn duplicate(&self) -> (r: (String, String)) {
        (self.0.clone(), self.1.clone())
    }
}

/// Keys in strictly ascending order (so each key occurs once).
pub open spec fn sorted_keys(ks: Seq<Seq<char>>) -> bool {
    forall|i: int, j: int| 0 <= i < j < ks.len() ==> key_lt(#[trigger] ks[i], #[trigger] ks[j])
}

/// A string-keyed map whose entries stand in ascending key order.
#[derive(Debug)]
pub struct StrMap<V: View> {
    entries: Vec<(String, V)>,
}

impl<V: View> View for StrMap<V> {
    type V = Map<Seq<char>, V::V>;

    closed spec fn view(&self) -> Map<Seq<char>, V::V> {
        Map::new(
            |k: Seq<char>| self.key_seq().contains(k),
            |k: Seq<char>| self.entries@[self.key_seq().index_of(k)].1@,
        )
    }
}

impl<V: View> StrMap<V> {
    /// The keys, in the order in which the map walks them.
    pub closed spec fn key_seq(&self) -> Seq<Seq<char>> {
        self.entries@.map_values(|e: (String, V)| e.0@)
    }

    #[verifier::type_invariant]
    closed spec fn keys_ascending(&self) -> bool {
        sorted_keys(self.key_seq())
    }

    proof fn lemma_view_at(&self)
        requires
            sorted_keys(self.key_seq()),
        ensures
            forall|i: int|
                0 <= i < self.key_seq().len() ==> {
                    &&& #[trigger] self@.contains_key(self.key_seq()[i])
                    &&& self@[self.key_seq()[i]] == self.entries@[i].1@
                },
            forall|k: Seq<char>| self@.contains_key(k) <==> self.key_seq().contains(k),
    {
        let ks = self.key_seq();
        assert forall|i: int| 0 <= i < ks.len() implies {
            &&& #[trigger] self@.contains_key(ks[i])
            &&& self@[ks[i]] == self.entries@[i].1@
        } by {
            assert(ks.contains(ks[i]));
            let j = ks.index_of(ks[i]);
            if j != i {
                lemma_key_lt_irreflexive(ks[i]);
                if j < i {
                    assert(key_lt(ks[j], ks[i]));
                } else {
                    assert(key_lt(ks[i], ks[j]));
                }
            }
        }
    }

    /// An empty map.
    pub fn new() -> (m: Self)
        ensures
            m@ == Map::<Seq<char>, V::V>::empty(),
            m.key_seq() == Seq::<Seq<char>>::empty(),
    {
        let m = StrMap { entries: Vec::new() };
        assert(m.key_seq() =~= Seq::<Seq<char>>::empty());
        assert(m@ =~= Map::<Seq<char>, V::V>::empty());
        m
    }

    /// The number of keys; also what the key sequence says of the map.
    pub fn len(&self) -> (n: usize)
        ensures
            n == self.key_seq().len(),
            n == self@.len(),
            sorted_keys(self.key_seq()),
            self@.dom().finite(),
            forall|k: Seq<char>| self@.contains_key(k) <==> self.key_seq().contains(k),
    {
        proof {
            use_type_invariant(self);
            self.lemma_view_at();
            self.lemma_dom_len();
        }
        self.entries.len()
    }

    proof fn lemma_dom_len(&self)
        requires
            sorted_keys(self.key_seq()),
        ensures
            self@.dom() == self.key_seq().to_set(),
            self@.dom().finite(),
            self@.dom().len() == self.key_seq().len(),
    {
        let ks = self.key_seq();
        assert(self@.dom() =~= ks.to_set());
        assert forall|i: int, j: int| 0 <= i < ks.len() && 0 <= j < ks.len() && i != j implies ks[i]
            != ks[j] by {
            lemma_key_lt_irreflexive(ks[i]);
            if i < j {
                assert(key_lt(ks[i], ks[j]));
            } else {
                assert(key_lt(ks[j], ks[i]));
            }
        }
        assert(ks.no_duplicates());
        ks.unique_seq_to_set();
    }

    /// The key at position `i` of the ascending order.
    pub fn key_at(&self, i: usize) -> (k: &String)
        requires
            i < self.key_seq().len(),
        ensures
            k@ == self.key_seq()[i as int],
    {
        &self.entries[i].0
    }

    /// The value of the key at position `i` of the ascending order.
    pub fn value_at(&self, i: usize) -> (v: &V)
        requires
            i < self.key_seq().len(),
        ensures
            v@ == self@[self.key_seq()[i as int]],
    {
        proof {
            use_type_invariant(self);
            self.lemma_view_at();
        }
        &self.entries[i].1
    }

    /// The first position whose key is not below `key`, and whether it holds `key`.
    fn find(&self, key: &str) -> (r: (usize, bool))
        ensures
            r.0 <= self.key_seq().len(),
            forall|j: int| 0 <= j < r.0 ==> key_lt(#[trigger] self.key_seq()[j], key@),
            r.1 ==> r.0 < self.key_seq().len() && self.key_seq()[r.0 as int] == key@,
            !r.1 ==> r.0 == self.key_seq().len() || key_lt(key@, self.key_seq()[r.0 as int]),
    {
        let ghost ks = self.key_seq();
        let mut i: usize = 0;
        while i < self.entries.len()
            invariant
                ks == self.key_seq(),
                i <= ks.len(),
                ks.len() == self.entries@.len(),
                forall|j: int| 0 <= j < i ==> key_lt(#[trigger] ks[j], key@),
            decreases self.entries.len() - i,
        {
            assert(ks[i as int] == self.entries@[i as int].0@);
            match compare_keys(self.entries[i].0.as_str(), key) {
                KeyOrder::Less => {},
                KeyOrder::Equal => {
                    return (i, true);
                },
                KeyOrder::Greater => {
                    return (i, false);
                },
            }
            i = i + 1;
        }
        (i, false)
    }

    /// The value stored under `key`, if any.
    pub fn get(&self, key: &str) -> (r: Option<&V>)
        ensures
            r is Some <==> self@.contains_key(key@),
            r matches Some(v) ==> v@ == self@[key@],
    {
        proof {
            use_type_invariant(self);
            self.lemma_view_at();
        }
        let (p, found) = self.find(key);
        if found {
            Some(&self.entries[p].1)
        } else {
            proof {
                let ks = self.key_seq();
                if ks.contains(key@) {
                    let j = ks.index_of(key@);
                    lemma_key_lt_irreflexive(key@);
                    if j >= p {
                        if j > p {
                            assert(key_lt(ks[p as int], ks[j]));
                            lemma_key_lt_transitive(key@, ks[p as int], ks[j]);
                        }
                    } else {
                        assert(key_lt(ks[j], key@));
                    }
                }
            }
            None
        }
    }

    /// Whether `key` has a value.
    pub fn contains_key(&self, key: &str) -> (b: bool)
        ensures
            b == self@.contains_key(key@),
    {
        self.get(key).is_some()
    }

    /// Stores `value` under `key`, replacing what was there.
    pub fn insert(&mut self, key: String, value: V)
        ensures
            final(self)@ == old(self)@.insert(key@, value@),
    {
        proof {
            use_type_invariant(&*self);
            self.lemma_view_at();
        }
        let ghost old_entries = self.entries@;
        let ghost ks = self.key_seq();
        let ghost kv = key@;
        let ghost vv = value@;
        let (p, found) = self.find(key.as_str());
        if found {
            let mut es: Vec<(String, V)> = Vec::new();
            std::mem::swap(&mut es, &mut self.entries);
            es.set(p, (key, value));
            proof {
                assert(es@.map_values(|e: (String, V)| e.0@) =~= ks);
            }
            self.entries = es;
            proof {
                assert(self.key_seq() =~= ks);
                self.lemma_view_at();
                assert(self@ =~= old(self)@.insert(kv, vv)) by {
                    assert forall|k: Seq<char>| #[trigger] self@.contains_key(k) implies (k == kv
                        || old(self)@.contains_key(k)) by {
                        let i = ks.index_of(k);
                        assert(ks[i] == k);
                    }
                    assert forall|k: Seq<char>| self@.contains_key(k) && k != kv implies self@[k]
                        == old(self)@[k] by {
                        let i = ks.index_of(k);
                        assert(ks[i] == k);
                        assert(i != p);
                    }
                }
            }
        } else {
            let mut es: Vec<(String, V)> = Vec::new();
            std::mem::swap(&mut es, &mut self.entries);
            es.insert(p, (key, value));
            proof {
                let ks2 = es@.map_values(|e: (String, V)| e.0@);
                assert(ks2 =~= ks.insert(p as int, kv));
                assert forall|i: int, j: int| 0 <= i < j < ks2.len() implies key_lt(
                    #[trigger] ks2[i],
                    #[trigger] ks2[j],
                ) by {
                    if j < p {
                        assert(ks2[i] == ks[i]);
                        assert(ks2[j] == ks[j]);
                    } else if i < p && j == p {
                    } else if i < p && j > p {
                        assert(ks2[j] == ks[j - 1]);
                        if j - 1 == p {
                            lemma_key_lt_transitive(ks2[i], kv, ks[p as int]);
                        } else {
                            assert(key_lt(ks[i], ks[j - 1]));
                        }
                    } else if i == p {
                        assert(ks2[j] == ks[j - 1]);
                        if j - 1 > p {
                            assert(key_lt(ks[p as int], ks[j - 1]));
                            lemma_key_lt_transitive(kv, ks[p as int], ks[j - 1]);
                        }
                    } else {
                        assert(ks2[i] == ks[i - 1]);
                        assert(ks2[j] == ks[j - 1]);
                        assert(key_lt(ks[i - 1], ks[j - 1]));
                    }
                }
            }
            self.entries = es;
            proof {
                let ks2 = self.key_seq();
                assert(ks2 =~= ks.insert(p as int, kv));
                self.lemma_view_at();
                assert(self@ =~= old(self)@.insert(kv, vv)) by {
                    assert(self@.contains_key(ks2[p as int]));
                    assert forall|k: Seq<char>| #[trigger] self@.contains_key(k) implies (k == kv
                        || old(self)@.contains_key(k)) by {
                        let i = ks2.index_of(k);
                        assert(ks2[i] == k);
                        if i < p {
                            assert(ks[i] == k);
                        } else if i > p {
                            assert(ks[i - 1] == k);
                        }
                    }
                    assert forall|k: Seq<char>| old(self)@.contains_key(k) implies #[trigger] self@.contains_key(k) by {
                        let i = ks.index_of(k);
                        assert(ks[i] == k);
                        if i < p {
                            assert(ks2[i] == k);
                        } else {
                            assert(ks2[i + 1] == k);
                        }
                    }
                    assert forall|k: Seq<char>| self@.contains_key(k) && k != kv implies self@[k]
                        == old(self)@[k] by {
                        let i = ks2.index_of(k);
                        assert(ks2[i] == k);
                        if i < p {
                            assert(ks[i] == k);
                            assert(self.entries@[i] == old_entries[i]);
                        } else {
                            assert(i != p);
                            assert(ks[i - 1] == k);
                            assert(self.entries@[i] == old_entries[i - 1]);
                        }
                    }
                }
            }
        }
    }
}

/// Environment variables by name: (value, source the value came from).
pub type EnvVarsMap = StrMap<(String, String)>;

/// Strings by name.
pub type StringMap = StrMap<String>;

impl<V: Duplicate> StrMap<V> {
    /// A map with the same entries.
    pub fn copy(&self) -> (r: Self)
        ensures
            r@ == self@,
    {
        let mut r = StrMap::new();
        r.update(self);
        assert(r@ =~= self@);
        r
    }

    /// Copies every entry of `other` into `self`; `other` wins on shared keys.
    pub fn update(&mut self, other: &StrMap<V>)
        ensures
            final(self)@ == old(self)@.union_prefer_right(other@),
    {
        let n = other.len();
        let ghost ks = other.key_seq();
        let mut i: usize = 0;
        while i < n
            invariant
                n == ks.len(),
                ks == other.key_seq(),
                i <= n,
                forall|k: Seq<char>| other@.contains_key(k) <==> ks.contains(k),
                self@ == old(self)@.union_prefer_right(
                    other@.restrict(ks.take(i as int).to_set()),
                ),
            decreases n - i,
        {
            let k = other.key_at(i).clone();
            let v = other.value_at(i).duplicate();
            let ghost before = self@;
            self.insert(k, v);
            proof {
                assert(ks.take(i + 1) =~= ks.take(i as int).push(ks[i as int]));
                assert(ks.contains(ks[i as int]));
                let s0 = ks.take(i as int).to_set();
                let s1 = ks.take(i + 1).to_set();
                ks.take(i as int).lemma_push_to_set_commute(ks[i as int]);
                assert(s1 =~= s0.insert(ks[i as int]));
                assert(other@.restrict(s1) =~= other@.restrict(s0).insert(ks[i as int], other@[ks[i as int]]));
                assert(self@ =~= old(self)@.union_prefer_right(
                    other@.restrict(ks.take(i + 1).to_set()),
                ));
            }
            i = i + 1;
        }
        proof {
            assert(ks.take(n as int) == ks);
            assert(other@.restrict(ks.to_set()) =~= other@);
        }
    }
}

} // verus!
