//! A map keyed by strings, kept as a vector of entries in which no key
//! occurs twice.
use vstd::prelude::*;

verus! {

/// A finite map from strings to values of `V`.
///
/// The entries are kept in the order in which their keys first came in.
pub struct StrMap<V> {
    entries: Vec<(String, V)>,
}

/// The keys of a sequence of entries.
pub open spec fn entry_keys<V>(s: Seq<(String, V)>) -> Seq<Seq<char>> {
    Seq::new(s.len(), |i: int| s[i].0@)
}

/// Tells whether no key occurs twice in `s`.
pub open spec fn distinct_keys<V>(s: Seq<(String, V)>) -> bool {
    forall|i: int, j: int| 0 <= i < j < s.len() ==> s[i].0@ != s[j].0@
}

/// Where no key occurs twice, the sequence of the keys has no duplicates.
pub proof fn lemma_distinct_keys<V>(s: Seq<(String, V)>)
    requires
        distinct_keys(s),
    ensures
        entry_keys(s).no_duplicates(),
{
    assert forall|i: int, j: int|
        0 <= i < entry_keys(s).len() && 0 <= j < entry_keys(s).len() && i != j implies entry_keys(
        s,
    )[i] != entry_keys(s)[j] by {
        if i < j {
            assert(s[i].0@ != s[j].0@);
        } else {
            assert(s[j].0@ != s[i].0@);
        }
    }
}

impl<V> StrMap<V> {
    #[verifier::type_invariant]
    spec fn inv(self) -> bool {
        distinct_keys(self.entries@)
    }

    /// The keys, in the order in which they first came in.
    pub closed spec fn keys(self) -> Seq<Seq<char>> {
        entry_keys(self.entries@)
    }

    /// The values, in the order of their keys.
    pub closed spec fn values(self) -> Seq<V> {
        Seq::new(self.entries@.len(), |i: int| self.entries@[i].1)
    }

    /// Tells whether `k` is a key of the map.
    pub open spec fn has(self, k: Seq<char>) -> bool {
        self.keys().contains(k)
    }

    /// The place of the key `k`, for a key of the map.
    pub open spec fn index_of(self, k: Seq<char>) -> int {
        self.keys().index_of(k)
    }

    /// The value under the key `k`, for a key of the map.
    pub open spec fn get_value(self, k: Seq<char>) -> V {
        self.values()[self.index_of(k)]
    }

    /// The number of entries.
    pub open spec fn size(self) -> nat {
        self.keys().len()
    }

    /// States what holds of every map: no key occurs twice, and there is one
    /// value for each key. It does nothing when run.
    pub fn keys_are_distinct(&self)
        ensures
            self.keys().no_duplicates(),
            self.values().len() == self.keys().len(),
    {
        proof {
            use_type_invariant(self);
            lemma_distinct_keys(self.entries@);
        }
    }

    /// The empty map.
    pub fn new() -> (m: Self)
        ensures
            m.keys() == Seq::<Seq<char>>::empty(),
            m.values() == Seq::<V>::empty(),
    {
        let m = StrMap { entries: Vec::new() };
        assert(m.keys() =~= Seq::<Seq<char>>::empty());
        assert(m.values() =~= Seq::<V>::empty());
        m
    }

    /// The number of entries.
    pub fn len(&self) -> (n: usize)
        ensures
            n == self.size(),
    {
        self.entries.len()
    }

    /// The place of the key `k`, if it is a key of the map.
    pub fn position(&self, k: &str) -> (r: Option<usize>)
        ensures
            r is Some <==> self.has(k@),
            r matches Some(i) ==> i < self.size() && self.keys()[i as int] == k@ && i
                == self.index_of(k@),
    {
        proof {
            use_type_invariant(self);
        }
        let key = String::from_str(k);
        let mut i: usize = 0;
        while i < self.entries.len()
            invariant
                i <= self.entries.len(),
                key@ == k@,
                distinct_keys(self.entries@),
                forall|j: int| 0 <= j < i ==> self.entries@[j].0@ != k@,
            decreases self.entries.len() - i,
        {
            if self.entries[i].0 == key {
                assert(self.keys()[i as int] == k@);
                proof {
                    lemma_distinct_keys(self.entries@);
                }
                return Some(i);
            }
            i += 1;
        }
        assert(!self.keys().contains(k@));
        None
    }

    /// Tells whether `k` is a key of the map.
    pub fn contains_key(&self, k: &str) -> (b: bool)
        ensures
            b == self.has(k@),
    {
        self.position(k).is_some()
    }

    /// The value under the key `k`, if any.
    pub fn get(&self, k: &str) -> (r: Option<&V>)
        ensures
            r is Some <==> self.has(k@),
            r matches Some(v) ==> *v == self.get_value(k@),
    {
        match self.position(k) {
            Some(i) => Some(&self.entries[i].1),
            None => None,
        }
    }

    /// The key at place `i`.
    pub fn key_at(&self, i: usize) -> (k: &String)
        requires
            i < self.size(),
        ensures
            k@ == self.keys()[i as int],
    {
        &self.entries[i].0
    }

    /// The value at place `i`.
    pub fn value_at(&self, i: usize) -> (v: &V)
        requires
            i < self.size(),
        ensures
            *v == self.values()[i as int],
    {
        &self.entries[i].1
    }

    /// Binds `k` to `v`: a new key goes to the end, a known key keeps its
    /// place and gets the new value.
    pub fn insert(&mut self, k: String, v: V)
        ensures
            old(self).has(k@) ==> final(self).keys() == old(self).keys(),
            old(self).has(k@) ==> final(self).values() == old(self).values().update(
                old(self).index_of(k@),
                v,
            ),
            !old(self).has(k@) ==> final(self).keys() == old(self).keys().push(k@),
            !old(self).has(k@) ==> final(self).values() == old(self).values().push(v),
    {
        proof {
            use_type_invariant(&*self);
        }
        let found = self.position(k.as_str());
        let mut entries: Vec<(String, V)> = Vec::new();
        std::mem::swap(&mut self.entries, &mut entries);
        let ghost before = entries@;
        assert(entry_keys(before) == old(self).keys());
        match found {
            Some(i) => {
                entries.set(i, (k, v));
                assert(entry_keys(before)[i as int] == k@);
                assert(forall|j: int| 0 <= j < before.len() ==> entries@[j].0@ == before[j].0@);
            },
            None => {
                entries.push((k, v));
                assert forall|j: int| 0 <= j < before.len() implies before[j].0@ != k@ by {
                    assert(entry_keys(before)[j] == before[j].0@);
                }
                assert(forall|j: int| 0 <= j < before.len() ==> entries@[j].0@ == before[j].0@);
            },
        }
        assert(distinct_keys(entries@));
        self.entries = entries;
        proof {
            if old(self).has(k@) {
                assert(self.keys() =~= old(self).keys());
                assert(self.values() =~= old(self).values().update(old(self).index_of(k@), v));
            } else {
                assert(self.keys() =~= old(self).keys().push(k@));
                assert(self.values() =~= old(self).values().push(v));
            }
        }
    }

    /// Puts `v` in the place of the value at place `i`, and returns the value
    /// that was there.
    pub fn replace_at(&mut self, i: usize, v: V) -> (previous: V)
        requires
            i < old(self).size(),
        ensures
            final(self).keys() == old(self).keys(),
            final(self).values() == old(self).values().update(i as int, v),
            previous == old(self).values()[i as int],
    {
        proof {
            use_type_invariant(&*self);
        }
        let mut entries: Vec<(String, V)> = Vec::new();
        std::mem::swap(&mut self.entries, &mut entries);
        let ghost before = entries@;
        let (k, previous) = entries.remove(i);
        entries.insert(i, (k, v));
        proof {
            assert(forall|j: int| 0 <= j < before.len() ==> entries@[j].0@ == before[j].0@);
            assert(distinct_keys(entries@));
        }
        self.entries = entries;
        proof {
            assert(self.keys() =~= old(self).keys());
            assert(self.values() =~= old(self).values().update(i as int, v));
        }
        previous
    }

    /// Takes the entry of the key `k` out, if there is one, and returns its
    /// value.
    pub fn remove(&mut self, k: &str) -> (r: Option<V>)
        ensures
            r is Some <==> old(self).has(k@),
            r matches Some(v) ==> v == old(self).get_value(k@),
            old(self).has(k@) ==> final(self).keys() == old(self).keys().remove(
                old(self).index_of(k@),
            ),
            old(self).has(k@) ==> final(self).values() == old(self).values().remove(
                old(self).index_of(k@),
            ),
            !old(self).has(k@) ==> final(self).keys() == old(self).keys() && final(self).values()
                == old(self).values(),
    {
        proof {
            use_type_invariant(&*self);
        }
        match self.position(k) {
            None => None,
            Some(i) => {
                let mut entries: Vec<(String, V)> = Vec::new();
                std::mem::swap(&mut self.entries, &mut entries);
                let ghost before = entries@;
                let (_, v) = entries.remove(i);
                proof {
                    assert forall|a: int, b: int| 0 <= a < b < entries@.len() implies entries@[a].0@
                        != entries@[b].0@ by {
                        let a0 = if a < i { a } else { a + 1 };
                        let b0 = if b < i { b } else { b + 1 };
                        assert(entries@[a] == before[a0]);
                        assert(entries@[b] == before[b0]);
                    }
                }
                self.entries = entries;
                proof {
                    assert(self.keys() =~= old(self).keys().remove(i as int));
                    assert(self.values() =~= old(self).values().remove(i as int));
                }
                Some(v)
            },
        }
    }
}

} // verus!
