//! The identifiers that the names of a flow graph stand for, version by
//! version.
use crate::planning::atom::AtomId;
use crate::strmap::StrMap;
use vstd::prelude::*;

verus! {

/// The rank of a declaration of a name.
pub type Version = usize;

/// What a name stands for: one atom, or one atom for each of its versions.
#[derive(Debug)]
pub enum Id {
    Unique(AtomId),
    Several(Vec<AtomId>),
}

impl Id {
    /// The atoms of the versions, oldest first.
    pub open spec fn versions(self) -> Seq<AtomId> {
        match self {
            Id::Unique(id) => seq![id],
            Id::Several(v) => v@,
        }
    }

    /// A name with several versions has one version at least.
    pub open spec fn wf(self) -> bool {
        self.versions().len() >= 1
    }

    /// The name that stands for the atom `id` only.
    pub fn unique(id: &AtomId) -> (r: Self)
        ensures
            r == Id::Unique(*id),
            r.wf(),
    {
        Self::Unique(*id)
    }

    /// The name whose first version is the atom `id`.
    pub fn several(id: &AtomId) -> (r: Self)
        ensures
            r is Several,
            r.versions() == seq![*id],
            r.wf(),
    {
        Self::Several(vec![*id])
    }

    /// The atom of the latest version.
    pub fn get_id(&self) -> (id: &AtomId)
        requires
            self.wf(),
        ensures
            *id == self.versions().last(),
    {
        match self {
            Id::Unique(id) => id,
            Id::Several(vec) => &vec[vec.len() - 1],
        }
    }

    /// The number of versions.
    pub fn n_version(&self) -> (n: Version)
        ensures
            n == self.versions().len(),
    {
        match self {
            Id::Unique(_) => 1,
            Id::Several(vec) => vec.len(),
        }
    }
}

/// The names of a flow graph and what they stand for.
pub struct SymbolTableId {
    inner: StrMap<Id>,
}

impl SymbolTableId {
    /// Every name has one version at least.
    pub closed spec fn wf(self) -> bool {
        forall|i: int| 0 <= i < self.inner.values().len() ==> (#[trigger] self.inner.values()[i]).wf()
    }

    /// Tells whether `symbol` is a name of the table.
    pub closed spec fn has(self, symbol: Seq<char>) -> bool {
        self.inner.has(symbol)
    }

    /// The atoms of the versions of `symbol`, oldest first; none where
    /// `symbol` is no name of the table.
    pub closed spec fn versions(self, symbol: Seq<char>) -> Seq<AtomId> {
        if self.inner.has(symbol) {
            self.inner.get_value(symbol).versions()
        } else {
            Seq::empty()
        }
    }

    /// A table without names: no symbol is a name of it, and no symbol has a
    /// version.
    pub fn new() -> (t: Self)
        ensures
            t.wf(),
            forall|s: Seq<char>| !t.has(s),
            forall|s: Seq<char>| #[trigger] t.versions(s) == Seq::<AtomId>::empty(),
    {
        let t = SymbolTableId { inner: StrMap::new() };
        assert forall|s: Seq<char>| !t.has(s) && #[trigger] t.versions(s) == Seq::<
            AtomId,
        >::empty() by {
            assert(t.inner.keys().len() == 0);
        }
        t
    }

    /// Declares `symbol` once more, with the atom `id`, and returns the rank
    /// of the declaration.
    pub fn insert(&mut self, symbol: &str, id: &AtomId) -> (v: Version)
        requires
            old(self).wf(),
            old(self).versions(symbol@).len() < usize::MAX,
        ensures
            final(self).wf(),
            final(self).has(symbol@),
            final(self).versions(symbol@) == old(self).versions(symbol@).push(*id),
            v == old(self).versions(symbol@).len(),
            forall|s: Seq<char>|
                s != symbol@ ==> final(self).has(s) == old(self).has(s) && final(self).versions(s)
                    == old(self).versions(s),
    {
        self.inner.keys_are_distinct();
        let ghost before = self.inner;
        match self.inner.position(symbol) {
            None => {
                self.inner.insert(String::from_str(symbol), Id::unique(id));
                proof {
                    let n = before.keys().len() as int;
                    assert(self.inner.keys()[n] == symbol@);
                    self.lemma_lookup(symbol@, n);
                    assert(self.versions(symbol@) =~= old(self).versions(symbol@).push(*id));
                    assert forall|s: Seq<char>| s != symbol@ implies self.has(s) == old(self).has(s)
                        && self.versions(s) == old(self).versions(s) by {
                        if old(self).has(s) {
                            let k = before.index_of(s);
                            assert(self.inner.keys()[k] == s);
                            self.lemma_lookup(s, k);
                        }
                        if self.has(s) {
                            let k = self.inner.index_of(s);
                            assert(k < n);
                            assert(before.keys()[k] == s);
                            old(self).lemma_lookup(s, k);
                        }
                    }
                }
                0
            },
            Some(i) => {
                let fresh = match self.inner.value_at(i) {
                    Id::Unique(o_id) => {
                        let mut v: Vec<AtomId> = Vec::new();
                        v.push(*o_id);
                        v.push(*id);
                        v
                    },
                    Id::Several(ids) => {
                        let mut v = ids.clone();
                        v.push(*id);
                        v
                    },
                };
                let n = fresh.len() - 1;
                let _ = self.inner.replace_at(i, Id::Several(fresh));
                proof {
                    old(self).lemma_lookup(symbol@, i as int);
                    self.lemma_lookup(symbol@, i as int);
                    assert(self.versions(symbol@) =~= old(self).versions(symbol@).push(*id));
                    assert forall|s: Seq<char>| s != symbol@ implies self.has(s) == old(self).has(s)
                        && self.versions(s) == old(self).versions(s) by {
                        if old(self).has(s) {
                            let k = before.index_of(s);
                            old(self).lemma_lookup(s, k);
                            self.lemma_lookup(s, k);
                        }
                    }
                }
                n
            },
        }
    }

    /// The number of versions of `symbol`; 0 where it is no name of the
    /// table.
    pub fn version(&mut self, symbol: &str) -> (v: Version)
        ensures
            *final(self) == *old(self),
            v == old(self).versions(symbol@).len(),
    {
        match self.inner.get(symbol) {
            None => 0,
            Some(id) => id.n_version(),
        }
    }

    /// The atom of the latest version of `symbol`, if it is a name of the
    /// table.
    pub fn get_id(&self, symbol: &str) -> (r: Option<AtomId>)
        requires
            self.wf(),
        ensures
            r is Some <==> self.has(symbol@),
            r matches Some(id) ==> id == self.versions(symbol@).last(),
    {
        self.inner.keys_are_distinct();
        match self.inner.position(symbol) {
            None => None,
            Some(i) => Some(*self.inner.value_at(i).get_id()),
        }
    }

    /// Tells whether `symbol` is a name of the table.
    pub fn contains(&self, symbol: &str) -> (b: bool)
        ensures
            b == self.has(symbol@),
    {
        self.inner.contains_key(symbol)
    }

    /// The key at place `i` is looked up at place `i`.
    proof fn lemma_lookup(self, s: Seq<char>, i: int)
        requires
            0 <= i < self.inner.keys().len(),
            self.inner.keys()[i] == s,
            self.inner.keys().no_duplicates(),
        ensures
            self.inner.has(s),
            self.inner.index_of(s) == i,
    {
        let j = self.inner.index_of(s);
        assert(self.inner.keys().contains(s));
    }
}

} // verus!
