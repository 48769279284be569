//! The instances of the world and the lattice of their types.
//!
//! Types form a tree under the root type `object`. An instance is tagged with
//! one type, and is an instance of that type and of every type above it.
use crate::lvalue::{clone_strings, string_views};
use vstd::prelude::*;

verus! {

/// The sequence `s` without the values equal to `e`.
pub open spec fn drop_value(s: Seq<Seq<char>>, e: Seq<char>) -> Seq<Seq<char>>
    decreases s.len(),
{
    if s.len() == 0 {
        Seq::empty()
    } else if s.last() == e {
        drop_value(s.drop_last(), e)
    } else {
        drop_value(s.drop_last(), e).push(s.last())
    }
}

/// What is left of a sequence without `e` holds `x` exactly when `x` is not
/// `e` and the sequence holds it.
pub proof fn lemma_drop_value(s: Seq<Seq<char>>, e: Seq<char>, x: Seq<char>)
    ensures
        drop_value(s, e).contains(x) <==> (x != e && s.contains(x)),
    decreases s.len(),
{
    if s.len() > 0 {
        let rest = s.drop_last();
        lemma_drop_value(rest, e, x);
        let d = drop_value(s, e);
        if d.contains(x) {
            let k = choose|k: int| 0 <= k < d.len() && d[k] == x;
            if s.last() != e && k == d.len() - 1 {
                assert(s[s.len() - 1] == x);
            } else {
                assert(drop_value(rest, e)[k] == x);
                assert(rest.contains(x));
                let j = choose|j: int| 0 <= j < rest.len() && rest[j] == x;
                assert(s[j] == x);
            }
        }
        if x != e && s.contains(x) {
            let j = choose|j: int| 0 <= j < s.len() && s[j] == x;
            if j == s.len() - 1 {
                assert(d[d.len() - 1] == x);
            } else {
                assert(rest[j] == x);
                assert(drop_value(rest, e).contains(x));
                let k = choose|k: int|
                    0 <= k < drop_value(rest, e).len() && drop_value(rest, e)[k] == x;
                assert(d[k] == x);
            }
        }
    }
}

/// What is left of a sequence without duplicates has none.
pub proof fn lemma_drop_value_single(s: Seq<Seq<char>>, e: Seq<char>)
    requires
        s.no_duplicates(),
    ensures
        drop_value(s, e).no_duplicates(),
    decreases s.len(),
{
    if s.len() > 0 {
        let rest = s.drop_last();
        assert forall|i: int, j: int| 0 <= i < rest.len() && 0 <= j < rest.len() && i
            != j implies rest[i] != rest[j] by {
            assert(s[i] != s[j]);
        }
        lemma_drop_value_single(rest, e);
        if s.last() != e {
            let d = drop_value(rest, e);
            lemma_drop_value(rest, e, s.last());
            assert(!rest.contains(s.last())) by {
                if rest.contains(s.last()) {
                    let k = choose|k: int| 0 <= k < rest.len() && rest[k] == s.last();
                    assert(s[k] == s[s.len() - 1]);
                }
            }
            assert forall|i: int, j: int|
                0 <= i < d.push(s.last()).len() && 0 <= j < d.push(s.last()).len() && i
                    != j implies d.push(s.last())[i] != d.push(s.last())[j] by {
                if i == d.len() {
                    assert(d.contains(d[j]));
                } else if j == d.len() {
                    assert(d.contains(d[i]));
                } else {
                    assert(d[i] != d[j]);
                }
            }
        }
    }
}

/// A sequence that does not hold `e` is what it is without `e`.
pub proof fn lemma_drop_absent(s: Seq<Seq<char>>, e: Seq<char>)
    requires
        !s.contains(e),
    ensures
        drop_value(s, e) == s,
    decreases s.len(),
{
    if s.len() > 0 {
        assert(s[s.len() - 1] == s.last());
        assert forall|j: int| 0 <= j < s.drop_last().len() implies s.drop_last()[j] != e by {
            assert(s[j] == s.drop_last()[j]);
        }
        lemma_drop_absent(s.drop_last(), e);
        assert(s.drop_last().push(s.last()) =~= s);
    } else {
        assert(drop_value(s, e) =~= s);
    }
}

/// The instances that are tagged with one type, and the name that stands for
/// an instance of that type that is not known.
pub struct InstanceSet {
    unk_element: String,
    elements: Vec<String>,
}

impl InstanceSet {
    /// The name that stands for an unknown instance.
    pub closed spec fn unknown(self) -> Seq<char> {
        self.unk_element@
    }

    /// The instances, in the order in which they came.
    pub closed spec fn items(self) -> Seq<Seq<char>> {
        string_views(self.elements@)
    }

    /// A set without instances.
    pub fn new(unk_element: String) -> (s: Self)
        ensures
            s.unknown() == unk_element@,
            s.items() == Seq::<Seq<char>>::empty(),
    {
        let s = InstanceSet { unk_element, elements: Vec::new() };
        assert(s.items() =~= Seq::<Seq<char>>::empty());
        s
    }

    /// Tells whether `e` is in the set.
    pub fn contains(&self, e: &str) -> (b: bool)
        ensures
            b == self.items().contains(e@),
    {
        let key = String::from_str(e);
        let mut i: usize = 0;
        while i < self.elements.len()
            invariant
                i <= self.elements.len(),
                key@ == e@,
                forall|j: int| 0 <= j < i ==> self.elements@[j]@ != e@,
            decreases self.elements.len() - i,
        {
            if self.elements[i] == key {
                assert(self.items()[i as int] == e@);
                return true;
            }
            i += 1;
        }
        assert forall|j: int| 0 <= j < self.items().len() implies self.items()[j] != e@ by {
            assert(self.items()[j] == self.elements@[j]@);
        }
        false
    }

    /// Adds `e` to the set; an instance that is there already stays once.
    pub fn add_element(&mut self, e: &str)
        ensures
            final(self).unknown() == old(self).unknown(),
            old(self).items().contains(e@) ==> final(self).items() == old(self).items(),
            !old(self).items().contains(e@) ==> final(self).items() == old(self).items().push(e@),
    {
        if !self.contains(e) {
            self.elements.push(String::from_str(e));
            assert(self.items() =~= old(self).items().push(e@));
        }
    }

    /// The instances of the set.
    pub fn get_instance(&self) -> (v: Vec<String>)
        ensures
            string_views(v@) == self.items(),
    {
        clone_strings(&self.elements)
    }

    /// The instances of the set, followed by the name that stands for an
    /// unknown one.
    pub fn get_all_elements(&self) -> (v: Vec<String>)
        ensures
            string_views(v@) == self.items().push(self.unknown()),
    {
        let mut v = clone_strings(&self.elements);
        v.push(self.unk_element.clone());
        assert(string_views(v@) =~= self.items().push(self.unknown()));
        v
    }

    /// Takes `e` out of the set.
    pub fn remove_element(&mut self, e: &str)
        ensures
            final(self).unknown() == old(self).unknown(),
            final(self).items() == drop_value(old(self).items(), e@),
    {
        let key = String::from_str(e);
        let mut kept: Vec<String> = Vec::new();
        let mut i: usize = 0;
        let ghost all = self.items();
        while i < self.elements.len()
            invariant
                i <= self.elements.len(),
                key@ == e@,
                *self == *old(self),
                all == self.items(),
                string_views(kept@) == drop_value(all.take(i as int), e@),
            decreases self.elements.len() - i,
        {
            proof {
                assert(all.take(i as int + 1).drop_last() =~= all.take(i as int));
                assert(all.take(i as int + 1).last() == self.elements@[i as int]@);
            }
            if self.elements[i] != key {
                kept.push(self.elements[i].clone());
                assert(string_views(kept@) =~= drop_value(all.take(i as int), e@).push(
                    self.elements@[i as int]@,
                ));
            }
            i += 1;
        }
        assert(all.take(i as int) =~= all);
        self.elements = kept;
    }
}

/// The name of the root type.
pub const TYPE_OBJECT: &'static str = "object";

/// One type of the lattice with its instances.
pub struct TypeEntry {
    name: String,
    parent: Option<usize>,
    set: InstanceSet,
}

/// One type, as contracts see it.
pub struct TypeModel {
    pub name: Seq<char>,
    /// The place of the parent type; the root type has none.
    pub parent: Option<nat>,
    pub unknown: Seq<char>,
    /// The instances tagged with the type, in the order in which they came.
    pub elements: Seq<Seq<char>>,
}

/// The types and their instances, as contracts see them.
pub struct CollectionModel {
    /// The types, each behind its parent; the first is the root type.
    pub types: Seq<TypeModel>,
}

/// The name that stands for an unknown instance of the type `t`.
pub open spec fn unk_name(t: Seq<char>) -> Seq<char> {
    "unk_"@ + t
}

impl CollectionModel {
    /// The collection that holds the root type `object` and no instance.
    pub open spec fn initial() -> CollectionModel {
        CollectionModel {
            types: seq![
                TypeModel {
                    name: TYPE_OBJECT@,
                    parent: None,
                    unknown: unk_name(TYPE_OBJECT@),
                    elements: Seq::empty(),
                },
            ],
        }
    }

    /// The first type is the root type `object`; every other type has a
    /// parent that stands before it; no name is used twice, and no instance
    /// occurs twice.
    pub open spec fn wf(self) -> bool {
        &&& self.types.len() >= 1
        &&& self.types[0].name == TYPE_OBJECT@
        &&& self.types[0].parent is None
        &&& forall|i: int|
            1 <= i < self.types.len() ==> (#[trigger] self.types[i]).parent is Some
                && self.types[i].parent->0 < i
        &&& forall|i: int, j: int|
            0 <= i < j < self.types.len() ==> (#[trigger] self.types[i]).name != (
            #[trigger] self.types[j]).name
        &&& forall|i: int|
            0 <= i < self.types.len() ==> (#[trigger] self.types[i]).unknown == unk_name(
                self.types[i].name,
            )
        &&& self.single()
    }

    /// No instance occurs twice: not among the instances of one type, and
    /// not under two types.
    pub open spec fn single(self) -> bool {
        &&& forall|u: int|
            0 <= u < self.types.len() ==> (#[trigger] self.types[u]).elements.no_duplicates()
        &&& forall|o: Seq<char>, u: int, v: int|
            #[trigger] self.tagged(o, u) && #[trigger] self.tagged(o, v) ==> u == v
    }

    /// Tells whether `name` is the name of a type.
    pub open spec fn known(self, name: Seq<char>) -> bool {
        exists|i: int| 0 <= i < self.types.len() && (#[trigger] self.types[i]).name == name
    }

    /// The place of the type called `name`, where there is one.
    pub open spec fn index_of(self, name: Seq<char>) -> int {
        choose|i: int| 0 <= i < self.types.len() && (#[trigger] self.types[i]).name == name
    }

    /// Tells whether the type at `u` is the type at `t` or lies below it.
    pub open spec fn below(self, u: int, t: int) -> bool
        decreases u,
    {
        if u < 0 || u >= self.types.len() {
            false
        } else if u == t {
            true
        } else {
            match self.types[u].parent {
                Some(p) => p < u && self.below(p as int, t),
                None => false,
            }
        }
    }

    /// Tells whether `path` leads from the type at `from` up to the type at
    /// `to`, each step going from a type to its parent.
    pub open spec fn chain(self, path: Seq<int>, from: int, to: int) -> bool {
        &&& path.len() >= 1
        &&& path[0] == from
        &&& path[path.len() - 1] == to
        &&& forall|k: int| 0 <= k < path.len() ==> 0 <= #[trigger] path[k] < self.types.len()
        &&& forall|k: int|
            0 <= k < path.len() - 1 ==> self.types[#[trigger] path[k]].parent == Some(
                path[k + 1] as nat,
            )
    }

    /// Tells whether `o` is tagged with the type at `u`.
    pub open spec fn tagged(self, o: Seq<char>, u: int) -> bool {
        0 <= u < self.types.len() && self.types[u].elements.contains(o)
    }

    /// Tells whether `o` is an instance of the type called `t`: it is tagged
    /// with that type or with a type below it.
    pub open spec fn instance_of(self, o: Seq<char>, t: Seq<char>) -> bool {
        self.known(t) && exists|u: int| #[trigger]
            self.tagged(o, u) && self.below(u, self.index_of(t))
    }

    /// The instances of the first `n` types that are the type at `t` or lie
    /// below it, in the order of the types.
    pub open spec fn gather(self, t: int, n: nat) -> Seq<Seq<char>>
        decreases n,
    {
        if n == 0 || n > self.types.len() {
            Seq::empty()
        } else if self.below(n - 1, t) {
            self.gather(t, (n - 1) as nat) + self.types[n - 1].elements
        } else {
            self.gather(t, (n - 1) as nat)
        }
    }

    /// The types once a type called `name` without instances has been added
    /// under the type at `parent`.
    pub open spec fn with_type(self, name: Seq<char>, parent: int) -> CollectionModel {
        CollectionModel {
            types: self.types.push(
                TypeModel {
                    name,
                    parent: Some(parent as nat),
                    unknown: unk_name(name),
                    elements: Seq::empty(),
                },
            ),
        }
    }

    /// The types once `t` has been declared under `p`: a known type changes
    /// nothing; a parent that is not known is first added under the root
    /// type; a type without parent goes under the root type.
    pub open spec fn add_type(self, t: Seq<char>, p: Option<Seq<char>>) -> CollectionModel {
        if self.known(t) {
            self
        } else {
            match p {
                None => self.with_type(t, 0),
                Some(parent) => if self.known(parent) {
                    self.with_type(t, self.index_of(parent))
                } else if parent == t {
                    self.with_type(t, 0)
                } else {
                    self.with_type(parent, 0).with_type(t, self.types.len() as int)
                },
            }
        }
    }

    /// The types once no type has `o` among its instances.
    pub open spec fn untagged(self, o: Seq<char>) -> CollectionModel {
        CollectionModel {
            types: Seq::new(
                self.types.len(),
                |i: int|
                    TypeModel { elements: drop_value(self.types[i].elements, o), ..self.types[i] },
            ),
        }
    }

    /// The types once `o` has been tagged with the type called `t`: a type
    /// that is not known is first added under the root type, and `o` loses
    /// the tag that it had.
    pub open spec fn add_instance(self, o: Seq<char>, t: Seq<char>) -> CollectionModel {
        let declared = self.add_type(t, None).untagged(o);
        let i = declared.index_of(t);
        CollectionModel {
            types: declared.types.update(
                i,
                TypeModel { elements: declared.types[i].elements.push(o), ..declared.types[i] },
            ),
        }
    }

    /// The types once every instance has been forgotten.
    pub open spec fn cleared(self) -> CollectionModel {
        CollectionModel {
            types: Seq::new(
                self.types.len(),
                |i: int| TypeModel { elements: Seq::empty(), ..self.types[i] },
            ),
        }
    }
}

/// A name names one type at most.
pub proof fn lemma_type_index(m: CollectionModel, name: Seq<char>, i: int)
    requires
        m.wf(),
        0 <= i < m.types.len(),
        m.types[i].name == name,
    ensures
        m.known(name),
        m.index_of(name) == i,
{
    let j = m.index_of(name);
    if i < j {
        assert(m.types[i].name != m.types[j].name);
    } else if j < i {
        assert(m.types[j].name != m.types[i].name);
    }
}

/// Adding a type under a known one keeps the lattice well formed, and keeps
/// every type where it was.
pub proof fn lemma_with_type(m: CollectionModel, name: Seq<char>, parent: int)
    requires
        m.wf(),
        !m.known(name),
        0 <= parent < m.types.len(),
    ensures
        m.with_type(name, parent).wf(),
        m.with_type(name, parent).known(name),
        m.with_type(name, parent).index_of(name) == m.types.len(),
        forall|u: int, t: int|
            0 <= u < m.types.len() ==> m.with_type(name, parent).below(u, t) == m.below(u, t),
{
    let n = m.with_type(name, parent);
    assert forall|i: int, j: int| 0 <= i < j < n.types.len() implies (#[trigger] n.types[i]).name
        != (#[trigger] n.types[j]).name by {
        if j == m.types.len() {
            assert(m.types[i].name != name);
        } else {
            assert(m.types[i].name != m.types[j].name);
        }
    }
    assert forall|i: int| 1 <= i < n.types.len() implies (#[trigger] n.types[i]).parent is Some
        && n.types[i].parent->0 < i by {
        if i < m.types.len() {
            assert(m.types[i].parent is Some);
        }
    }
    assert forall|i: int| 0 <= i < n.types.len() implies (#[trigger] n.types[i]).unknown
        == unk_name(n.types[i].name) by {
        if i < m.types.len() {
            assert(m.types[i].unknown == unk_name(m.types[i].name));
        }
    }
    assert(n.single()) by {
        assert forall|u: int| 0 <= u < n.types.len() implies (#[trigger] n.types[u]).elements.no_duplicates() by {
            if u < m.types.len() {
                assert(m.types[u].elements.no_duplicates());
            }
        }
        assert forall|o: Seq<char>, u: int, v: int| #[trigger]
            n.tagged(o, u) && #[trigger] n.tagged(o, v) implies u == v by {
            assert(u < m.types.len() && v < m.types.len());
            assert(m.tagged(o, u) && m.tagged(o, v));
        }
    }
    assert(n.wf());
    lemma_type_index(n, name, m.types.len() as int);
    assert forall|u: int, t: int| 0 <= u < m.types.len() implies n.below(u, t) == m.below(
        u,
        t,
    ) by {
        lemma_same_below(m, n, u, t);
    }
}

/// Where two lattices agree on the parents of their first types, they agree
/// on what lies below what among them.
pub proof fn lemma_same_below(m: CollectionModel, n: CollectionModel, u: int, t: int)
    requires
        0 <= u < m.types.len() <= n.types.len(),
        forall|i: int| 0 <= i < m.types.len() ==> (#[trigger] n.types[i]).parent
            == m.types[i].parent,
    ensures
        n.below(u, t) == m.below(u, t),
    decreases u,
{
    if u != t {
        assert(n.types[u].parent == m.types[u].parent);
        match m.types[u].parent {
            Some(p) => {
                if p < u {
                    lemma_same_below(m, n, p as int, t);
                }
            },
            None => {},
        }
    }
}

/// The path from a type up to a type that it lies below.
pub open spec fn path_up(m: CollectionModel, u: int, t: int) -> Seq<int>
    decreases u,
{
    if u < 0 || u >= m.types.len() || u == t {
        seq![u]
    } else {
        match m.types[u].parent {
            Some(p) => if p < u {
                seq![u] + path_up(m, p as int, t)
            } else {
                seq![u]
            },
            None => seq![u],
        }
    }
}

proof fn lemma_path_up(m: CollectionModel, u: int, t: int)
    requires
        m.below(u, t),
    ensures
        m.chain(path_up(m, u, t), u, t),
    decreases u,
{
    if u != t {
        let p = m.types[u].parent->0 as int;
        lemma_path_up(m, p, t);
        let rest = path_up(m, p, t);
        let path = path_up(m, u, t);
        assert(path =~= seq![u] + rest);
        assert forall|k: int| 0 <= k < path.len() implies 0 <= #[trigger] path[k]
            < m.types.len() by {
            if k > 0 {
                assert(path[k] == rest[k - 1]);
            }
        }
        assert forall|k: int| 0 <= k < path.len() - 1 implies m.types[#[trigger] path[k]].parent
            == Some(path[k + 1] as nat) by {
            if k > 0 {
                assert(path[k] == rest[k - 1]);
                assert(path[k + 1] == rest[k]);
            } else {
                assert(path[1] == rest[0]);
            }
        }
    }
}

proof fn lemma_chain_below(m: CollectionModel, path: Seq<int>, u: int, t: int)
    requires
        m.wf(),
        m.chain(path, u, t),
    ensures
        m.below(u, t),
    decreases path.len(),
{
    if path.len() == 1 {
        assert(u == t);
    } else if u != t {
        let rest = path.drop_first();
        assert(path[0] == u);
        assert(m.types[path[0]].parent == Some(path[1] as nat));
        assert(0 <= path[1] < m.types.len());
        assert(rest[0] == path[1]);
        assert(rest[rest.len() - 1] == path[path.len() - 1]);
        assert forall|k: int| 0 <= k < rest.len() implies 0 <= #[trigger] rest[k]
            < m.types.len() by {
            assert(rest[k] == path[k + 1]);
        }
        assert forall|k: int| 0 <= k < rest.len() - 1 implies m.types[#[trigger] rest[k]].parent
            == Some(rest[k + 1] as nat) by {
            assert(rest[k] == path[k + 1]);
            assert(rest[k + 1] == path[k + 2]);
        }
        lemma_chain_below(m, rest, path[1], t);
        assert(u >= 1) by {
            if u == 0 {
                assert(m.types[0].parent is None);
            }
        }
        assert(m.types[u].parent->0 < u);
    }
}

/// An object is an instance of a type exactly when a chain of the lattice
/// leads from a type that the object is tagged with up to that type.
pub proof fn law_instance_follows_chain(m: CollectionModel, o: Seq<char>, t: Seq<char>)
    requires
        m.wf(),
        m.known(t),
    ensures
        m.instance_of(o, t) <==> exists|u: int, path: Seq<int>|
            m.tagged(o, u) && #[trigger] m.chain(path, u, m.index_of(t)),
{
    let ti = m.index_of(t);
    if m.instance_of(o, t) {
        let u = choose|u: int| #[trigger] m.tagged(o, u) && m.below(u, ti);
        lemma_path_up(m, u, ti);
        assert(m.tagged(o, u) && m.chain(path_up(m, u, ti), u, ti));
    }
    if exists|u: int, path: Seq<int>| m.tagged(o, u) && #[trigger] m.chain(path, u, ti) {
        let (u, path) = choose|u: int, path: Seq<int>|
            m.tagged(o, u) && #[trigger] m.chain(path, u, ti);
        lemma_chain_below(m, path, u, ti);
        assert(m.tagged(o, u) && m.below(u, ti));
    }
}

/// What is gathered from the first `n` types is tagged with one of them,
/// which is the type at `t` or lies below it.
pub proof fn lemma_gathered_is_tagged(m: CollectionModel, t: int, n: nat, x: Seq<char>)
    requires
        n <= m.types.len(),
        m.gather(t, n).contains(x),
    ensures
        exists|u: int| 0 <= u < n && #[trigger] m.tagged(x, u) && m.below(u, t),
    decreases n,
{
    if n > 0 {
        let before = m.gather(t, (n - 1) as nat);
        let g = m.gather(t, n);
        let k = choose|k: int| 0 <= k < g.len() && g[k] == x;
        if m.below(n - 1, t) && k >= before.len() {
            let e = m.types[n - 1].elements;
            assert(e[k - before.len()] == x);
            assert(m.tagged(x, n - 1));
        } else {
            assert(before[k] == x);
            lemma_gathered_is_tagged(m, t, (n - 1) as nat, x);
            let u = choose|u: int| 0 <= u < n - 1 && #[trigger] m.tagged(x, u) && m.below(u, t);
            assert(0 <= u < n && m.tagged(x, u) && m.below(u, t));
        }
    }
}

/// The instances of a type are gathered once each: no instance occurs twice
/// among the instances of a type and of the types below it.
pub proof fn law_instances_once(m: CollectionModel, t: int, n: nat)
    requires
        m.wf(),
        n <= m.types.len(),
    ensures
        m.gather(t, n).no_duplicates(),
    decreases n,
{
    if n > 0 {
        law_instances_once(m, t, (n - 1) as nat);
        if m.below(n - 1, t) {
            let before = m.gather(t, (n - 1) as nat);
            let e = m.types[n - 1].elements;
            let g = before + e;
            assert(e.no_duplicates());
            assert forall|i: int, j: int| 0 <= i < g.len() && 0 <= j < g.len() && i != j implies g[i]
                != g[j] by {
                if i < before.len() && j < before.len() {
                    assert(before[i] != before[j]);
                } else if i >= before.len() && j >= before.len() {
                    assert(e[i - before.len()] != e[j - before.len()]);
                } else {
                    let (a, b) = if i < before.len() {
                        (i, j)
                    } else {
                        (j, i)
                    };
                    if g[a] == g[b] {
                        let x = before[a];
                        assert(before.contains(x));
                        lemma_gathered_is_tagged(m, t, (n - 1) as nat, x);
                        let u = choose|u: int|
                            0 <= u < n - 1 && #[trigger] m.tagged(x, u) && m.below(u, t);
                        assert(e[b - before.len()] == x);
                        assert(m.tagged(x, n - 1));
                        assert(m.tagged(x, u));
                    }
                }
            }
        }
    }
}

/// Once an object has been tagged with a type, it is tagged with that type
/// and with no other.
pub proof fn law_one_type(m: CollectionModel, o: Seq<char>, t: Seq<char>, u: int)
    requires
        m.wf(),
    ensures
        m.add_instance(o, t).tagged(o, u) <==> u == m.add_type(t, None).index_of(t),
        m.add_instance(o, t).wf(),
{
    lemma_add_type(m, t, None);
    let a = m.add_type(t, None);
    let d = a.untagged(o);
    lemma_untagged(a, o);
    let i = d.index_of(t);
    lemma_type_index(a, t, a.index_of(t));
    assert(d.types[a.index_of(t)].name == t);
    lemma_type_index(d, t, a.index_of(t));
    let n = m.add_instance(o, t);
    if 0 <= u < n.types.len() {
        if u == i {
            assert(n.types[i].elements[d.types[i].elements.len() as int] == o);
        } else {
            assert(n.types[u].elements == drop_value(a.types[u].elements, o));
            lemma_drop_value(a.types[u].elements, o, o);
        }
    }
    lemma_retagged_wf(d, i, o);
}

/// Forgetting an object keeps the lattice well formed and moves no type.
pub proof fn lemma_untagged(m: CollectionModel, o: Seq<char>)
    requires
        m.wf(),
    ensures
        m.untagged(o).wf(),
        m.untagged(o).types.len() == m.types.len(),
        forall|i: int|
            0 <= i < m.types.len() ==> (#[trigger] m.untagged(o).types[i]).name == m.types[i].name
                && m.untagged(o).types[i].parent == m.types[i].parent,
        forall|u: int| !m.untagged(o).tagged(o, u),
{
    let n = m.untagged(o);
    assert forall|u: int| 0 <= u < n.types.len() implies (#[trigger] n.types[u]).elements.no_duplicates() by {
        assert(m.types[u].elements.no_duplicates());
        lemma_drop_value_single(m.types[u].elements, o);
    }
    assert forall|x: Seq<char>, u: int, v: int| #[trigger]
        n.tagged(x, u) && #[trigger] n.tagged(x, v) implies u == v by {
        lemma_drop_value(m.types[u].elements, o, x);
        lemma_drop_value(m.types[v].elements, o, x);
        assert(m.tagged(x, u) && m.tagged(x, v));
    }
    assert forall|u: int| !n.tagged(o, u) by {
        if 0 <= u < n.types.len() {
            lemma_drop_value(m.types[u].elements, o, o);
        }
    }
    assert forall|i: int, j: int| 0 <= i < j < n.types.len() implies (#[trigger] n.types[i]).name
        != (#[trigger] n.types[j]).name by {
        assert(m.types[i].name != m.types[j].name);
    }
    assert forall|i: int| 1 <= i < n.types.len() implies (#[trigger] n.types[i]).parent is Some
        && n.types[i].parent->0 < i by {
        assert(m.types[i].parent is Some);
    }
    assert forall|i: int| 0 <= i < n.types.len() implies (#[trigger] n.types[i]).unknown
        == unk_name(n.types[i].name) by {
        assert(m.types[i].unknown == unk_name(m.types[i].name));
    }
}

/// Tagging an object keeps the lattice well formed.
pub proof fn lemma_retagged_wf(m: CollectionModel, i: int, o: Seq<char>)
    requires
        m.wf(),
        0 <= i < m.types.len(),
        forall|u: int| !m.tagged(o, u),
    ensures
        (CollectionModel {
            types: m.types.update(
                i,
                TypeModel { elements: m.types[i].elements.push(o), ..m.types[i] },
            ),
        }).wf(),
{
    let n = CollectionModel {
        types: m.types.update(i, TypeModel { elements: m.types[i].elements.push(o), ..m.types[i] }),
    };
    assert forall|x: Seq<char>, u: int| #[trigger] n.tagged(x, u) implies (x == o && u == i)
        || m.tagged(x, u) by {
        if u == i {
            let e = m.types[i].elements;
            let k = choose|k: int| 0 <= k < e.push(o).len() && e.push(o)[k] == x;
            if k < e.len() {
                assert(e[k] == x);
            }
        } else {
            assert(n.types[u] == m.types[u]);
        }
    }
    assert forall|u: int| 0 <= u < n.types.len() implies (#[trigger] n.types[u]).elements.no_duplicates() by {
        assert(m.types[u].elements.no_duplicates());
        if u == i {
            let e = m.types[i].elements;
            assert(!m.tagged(o, i));
            assert forall|a: int, b: int|
                0 <= a < e.push(o).len() && 0 <= b < e.push(o).len() && a != b implies e.push(
                o,
            )[a] != e.push(o)[b] by {
                if a == e.len() {
                    assert(e.contains(e[b]));
                } else if b == e.len() {
                    assert(e.contains(e[a]));
                } else {
                    assert(e[a] != e[b]);
                }
            }
        }
    }
    assert forall|x: Seq<char>, u: int, v: int| #[trigger]
        n.tagged(x, u) && #[trigger] n.tagged(x, v) implies u == v by {
        if x == o {
            assert(!m.tagged(o, u) && !m.tagged(o, v));
        } else {
            assert(m.tagged(x, u) && m.tagged(x, v));
        }
    }
    assert forall|a: int, b: int| 0 <= a < b < n.types.len() implies (#[trigger] n.types[a]).name
        != (#[trigger] n.types[b]).name by {
        assert(m.types[a].name != m.types[b].name);
    }
    assert forall|a: int| 1 <= a < n.types.len() implies (#[trigger] n.types[a]).parent is Some
        && n.types[a].parent->0 < a by {
        assert(m.types[a].parent is Some);
    }
    assert forall|a: int| 0 <= a < n.types.len() implies (#[trigger] n.types[a]).unknown
        == unk_name(n.types[a].name) by {
        assert(m.types[a].unknown == unk_name(m.types[a].name));
    }
}

/// Declaring a type keeps the lattice well formed, and the type is known
/// afterwards.
pub proof fn lemma_add_type(m: CollectionModel, t: Seq<char>, p: Option<Seq<char>>)
    requires
        m.wf(),
    ensures
        m.add_type(t, p).wf(),
        m.add_type(t, p).known(t),
        m.add_type(t, p).types.len() >= m.types.len(),
{
    if !m.known(t) {
        match p {
            None => {
                lemma_with_type(m, t, 0);
            },
            Some(parent) => {
                if m.known(parent) {
                    lemma_with_type(m, t, m.index_of(parent));
                } else if parent == t {
                    lemma_with_type(m, t, 0);
                } else {
                    lemma_with_type(m, parent, 0);
                    let mid = m.with_type(parent, 0);
                    assert(!mid.known(t)) by {
                        if mid.known(t) {
                            let i = mid.index_of(t);
                            if i < m.types.len() {
                                assert(m.types[i].name == t);
                            }
                        }
                    }
                    lemma_with_type(mid, t, m.types.len() as int);
                }
            },
        }
    }
}

impl View for TypeEntry {
    type V = TypeModel;

    closed spec fn view(&self) -> TypeModel {
        TypeModel {
            name: self.name@,
            parent: match self.parent {
                Some(p) => Some(p as nat),
                None => None,
            },
            unknown: self.set.unknown(),
            elements: self.set.items(),
        }
    }
}

/// The types of the world and the instances tagged with them.
pub struct InstanceCollection {
    types: Vec<TypeEntry>,
}

impl View for InstanceCollection {
    type V = CollectionModel;

    closed spec fn view(&self) -> CollectionModel {
        CollectionModel { types: Seq::new(self.types@.len(), |i: int| self.types@[i]@) }
    }
}

impl Clone for InstanceSet {
    fn clone(&self) -> (r: Self)
        ensures
            r.unknown() == self.unknown(),
            r.items() == self.items(),
    {
        InstanceSet { unk_element: self.unk_element.clone(), elements: clone_strings(&self.elements) }
    }
}

impl Clone for InstanceCollection {
    fn clone(&self) -> (r: Self)
        ensures
            r@ == self@,
    {
        let mut types: Vec<TypeEntry> = Vec::new();
        let mut i: usize = 0;
        while i < self.types.len()
            invariant
                i <= self.types.len(),
                types@.len() == i,
                forall|j: int| 0 <= j < i ==> types@[j]@ == self.types@[j]@,
            decreases self.types.len() - i,
        {
            let e = &self.types[i];
            types.push(TypeEntry { name: e.name.clone(), parent: e.parent, set: e.set.clone() });
            i += 1;
        }
        let r = InstanceCollection { types };
        assert(r@.types =~= self@.types);
        r
    }
}

impl InstanceCollection {
    /// The name that stands for an unknown instance of the type `t`.
    pub fn format_unk_type(t: &str) -> (r: String)
        ensures
            r@ == unk_name(t@),
    {
        let mut r = String::from_str("unk_");
        r.append(t);
        r
    }

    /// A collection that holds the root type and no instance.
    pub fn new() -> (c: Self)
        ensures
            c@.wf(),
            c@ == CollectionModel::initial(),
            c@.types.len() == 1,
            c@.types[0].elements == Seq::<Seq<char>>::empty(),
    {
        let mut types: Vec<TypeEntry> = Vec::new();
        types.push(
            TypeEntry {
                name: String::from_str(TYPE_OBJECT),
                parent: None,
                set: InstanceSet::new(Self::format_unk_type(TYPE_OBJECT)),
            },
        );
        let c = InstanceCollection { types };
        assert(c@.types =~= CollectionModel::initial().types);
        c
    }

    /// Forgets every instance; the types stay.
    pub fn clear(&mut self)
        requires
            old(self)@.wf(),
        ensures
            final(self)@.wf(),
            final(self)@ == old(self)@.cleared(),
    {
        let mut i: usize = 0;
        while i < self.types.len()
            invariant
                i <= self.types.len(),
                self.types@.len() == old(self).types@.len(),
                forall|j: int| 0 <= j < i ==> (#[trigger] self.types@[j])@ == old(self)@.cleared().types[j],
                forall|j: int| i <= j < self.types@.len() ==> (#[trigger] self.types@[j]) == old(
                    self,
                ).types@[j],
            decreases self.types.len() - i,
        {
            let e = &self.types[i];
            let fresh = TypeEntry {
                name: e.name.clone(),
                parent: e.parent,
                set: InstanceSet::new(e.set.unk_element.clone()),
            };
            assert(old(self)@.types[i as int] == old(self).types@[i as int]@);
            self.types.set(i, fresh);
            i += 1;
        }
        proof {
            assert(self@.types =~= old(self)@.cleared().types);
            let m = old(self)@;
            let n = self@;
            assert forall|a: int, b: int| 0 <= a < b < n.types.len() implies (
            #[trigger] n.types[a]).name != (#[trigger] n.types[b]).name by {
                assert(m.types[a].name != m.types[b].name);
            }
            assert forall|a: int| 1 <= a < n.types.len() implies (#[trigger] n.types[a]).parent
                is Some && n.types[a].parent->0 < a by {
                assert(m.types[a].parent is Some);
            }
            assert forall|a: int| 0 <= a < n.types.len() implies (#[trigger] n.types[a]).unknown
                == unk_name(n.types[a].name) by {
                assert(m.types[a].unknown == unk_name(m.types[a].name));
            }
            assert forall|o: Seq<char>, u: int| !(#[trigger] n.tagged(o, u)) by {}
        }
    }

    /// A copy of the collection as it is now.
    pub fn get_snapshot(&self) -> (c: Self)
        ensures
            c@ == self@,
    {
        self.clone()
    }

    /// The place of the type called `name`, if there is one.
    pub fn find_type(&self, name: &str) -> (r: Option<usize>)
        requires
            self@.wf(),
        ensures
            r is Some <==> self@.known(name@),
            r matches Some(i) ==> i == self@.index_of(name@) && i < self@.types.len()
                && self@.types[i as int].name == name@,
    {
        let key = String::from_str(name);
        let mut i: usize = 0;
        while i < self.types.len()
            invariant
                i <= self.types.len(),
                key@ == name@,
                self@.wf(),
                self@.types.len() == self.types@.len(),
                forall|j: int| 0 <= j < i ==> (#[trigger] self@.types[j]).name != name@,
            decreases self.types.len() - i,
        {
            assert(self@.types[i as int] == self.types@[i as int]@);
            if self.types[i].name == key {
                proof {
                    lemma_type_index(self@, name@, i as int);
                }
                return Some(i);
            }
            i += 1;
        }
        None
    }

    /// Adds a type without instances under the type at `parent`.
    fn push_type(&mut self, name: &str, parent: usize)
        requires
            old(self)@.wf(),
            !old(self)@.known(name@),
            parent < old(self)@.types.len(),
        ensures
            final(self)@ == old(self)@.with_type(name@, parent as int),
            final(self)@.wf(),
    {
        let entry = TypeEntry {
            name: String::from_str(name),
            parent: Some(parent),
            set: InstanceSet::new(Self::format_unk_type(name)),
        };
        self.types.push(entry);
        proof {
            assert(self@.types =~= old(self)@.with_type(name@, parent as int).types);
            lemma_with_type(old(self)@, name@, parent as int);
        }
    }

    /// Declares the type `t` under the type `p`, or under the root type when
    /// no parent is given. A type that is known already is left as it is. A
    /// parent that is not known is first declared under the root type.
    pub fn add_type(&mut self, t: &str, p: Option<&str>)
        requires
            old(self)@.wf(),
        ensures
            final(self)@.wf(),
            final(self)@ == old(self)@.add_type(
                t@,
                match p {
                    Some(parent) => Some(parent@),
                    None => None,
                },
            ),
    {
        if self.find_type(t).is_some() {
            return ;
        }
        match p {
            None => {
                self.push_type(t, 0);
            },
            Some(parent) => {
                match self.find_type(parent) {
                    Some(i) => {
                        self.push_type(t, i);
                    },
                    None => {
                        if crate::text::str_eq(parent, t) {
                            self.push_type(t, 0);
                        } else {
                            let ghost before = self@;
                            let at = self.types.len();
                            self.push_type(parent, 0);
                            proof {
                                let mid = self@;
                                if mid.known(t@) {
                                    let i = mid.index_of(t@);
                                    if i < before.types.len() {
                                        assert(before.types[i].name == t@);
                                    }
                                }
                            }
                            self.push_type(t, at);
                        }
                    },
                }
            },
        }
    }

    /// The name that stands for an unknown instance of the type `t`, or
    /// `unk` when `t` is no type.
    pub fn get_unk_of_type(&self, t: &str) -> (r: String)
        requires
            self@.wf(),
        ensures
            self@.known(t@) ==> r@ == unk_name(t@),
            !self@.known(t@) ==> r@ == "unk"@,
    {
        match self.find_type(t) {
            None => String::from_str("unk"),
            Some(i) => {
                assert(self@.types[i as int] == self.types@[i as int]@);
                assert(self@.types[i as int].unknown == unk_name(self@.types[i as int].name));
                self.types[i].set.unk_element.clone()
            },
        }
    }

    /// Tags the instance `i` with the type `t`. A type that is not known is
    /// first declared under the root type. An instance has one type: the tag
    /// that it had is taken away.
    pub fn add_instance(&mut self, i: &str, t: &str)
        requires
            old(self)@.wf(),
        ensures
            final(self)@.wf(),
            final(self)@ == old(self)@.add_instance(i@, t@),
    {
        self.add_type(t, None);
        proof {
            lemma_add_type(old(self)@, t@, None);
        }
        let ghost declared = self@;
        let mut k: usize = 0;
        while k < self.types.len()
            invariant
                k <= self.types.len(),
                self.types@.len() == declared.types.len(),
                forall|j: int|
                    0 <= j < k ==> (#[trigger] self.types@[j])@ == declared.untagged(i@).types[j],
                forall|j: int|
                    k <= j < self.types@.len() ==> (#[trigger] self.types@[j])@ == declared.types[j],
            decreases self.types.len() - k,
        {
            let e = &self.types[k];
            let mut set = e.set.clone();
            set.remove_element(i);
            let fresh = TypeEntry { name: e.name.clone(), parent: e.parent, set };
            self.types.set(k, fresh);
            k += 1;
        }
        proof {
            assert(self@.types =~= declared.untagged(i@).types);
            lemma_untagged(declared, i@);
        }
        let ghost forgotten = self@;
        let at = match self.find_type(t) {
            Some(at) => at,
            None => 0,
        };
        proof {
            lemma_type_index(declared, t@, declared.index_of(t@));
            assert(forgotten.types[declared.index_of(t@)].name == t@);
            lemma_type_index(forgotten, t@, declared.index_of(t@));
        }
        let e = &self.types[at];
        let mut set = e.set.clone();
        proof {
            lemma_drop_value(declared.types[at as int].elements, i@, i@);
            assert(forgotten.types[at as int] == self.types@[at as int]@);
        }
        set.add_element(i);
        let fresh = TypeEntry { name: e.name.clone(), parent: e.parent, set };
        self.types.set(at, fresh);
        proof {
            assert(self@.types =~= old(self)@.add_instance(i@, t@).types);
            lemma_retagged_wf(forgotten, at as int, i@);
        }
    }

    /// Tells whether the type at `u` is the type at `t` or lies below it.
    fn is_below(&self, u: usize, t: usize) -> (b: bool)
        requires
            self@.wf(),
            u < self@.types.len(),
        ensures
            b == self@.below(u as int, t as int),
    {
        let mut cur = u;
        while cur != t
            invariant
                cur < self.types.len(),
                self@.wf(),
                self@.types.len() == self.types@.len(),
                self@.below(u as int, t as int) == self@.below(cur as int, t as int),
            decreases cur,
        {
            assert(self@.types[cur as int] == self.types@[cur as int]@);
            match self.types[cur].parent {
                Some(p) => {
                    proof {
                        if cur == 0 {
                            assert(self@.types[0].parent is None);
                        }
                        assert(self@.types[cur as int].parent->0 < cur);
                    }
                    cur = p;
                },
                None => { return false; },
            }
        }
        true
    }

    /// Tells whether `i` is an instance of the type `t`: it is tagged with
    /// `t` or with a type below `t`.
    pub fn is_of_type(&self, i: &str, t: &str) -> (b: bool)
        requires
            self@.wf(),
        ensures
            b == self@.instance_of(i@, t@),
    {
        let ti = match self.find_type(t) {
            Some(ti) => ti,
            None => { return false; },
        };
        let mut u: usize = 0;
        while u < self.types.len()
            invariant
                u <= self.types.len(),
                self@.wf(),
                self@.types.len() == self.types@.len(),
                ti == self@.index_of(t@),
                self@.known(t@),
                forall|v: int|
                    0 <= v < u ==> !(#[trigger] self@.tagged(i@, v) && self@.below(v, ti as int)),
            decreases self.types.len() - u,
        {
            assert(self@.types[u as int] == self.types@[u as int]@);
            if self.types[u].set.contains(i) && self.is_below(u, ti) {
                assert(self@.tagged(i@, u as int) && self@.below(u as int, ti as int));
                return true;
            }
            u += 1;
        }
        false
    }

    /// The instances of the type `t`: those tagged with `t` and those tagged
    /// with a type below it, in the order of the types. A name that is no
    /// type has no instance.
    pub fn get_instances(&self, t: &str) -> (v: Vec<String>)
        requires
            self@.wf(),
        ensures
            !self@.known(t@) ==> v@.len() == 0,
            self@.known(t@) ==> string_views(v@) == self@.gather(
                self@.index_of(t@),
                self@.types.len(),
            ),
            string_views(v@).no_duplicates(),
    {
        proof {
            if self@.known(t@) {
                law_instances_once(self@, self@.index_of(t@), self@.types.len());
            }
        }
        let mut v: Vec<String> = Vec::new();
        let ti = match self.find_type(t) {
            Some(ti) => ti,
            None => { return v; },
        };
        assert(string_views(v@) =~= self@.gather(ti as int, 0));
        let mut u: usize = 0;
        while u < self.types.len()
            invariant
                u <= self.types.len(),
                self@.wf(),
                self@.types.len() == self.types@.len(),
                string_views(v@) == self@.gather(ti as int, u as nat),
            decreases self.types.len() - u,
        {
            assert(self@.types[u as int] == self.types@[u as int]@);
            if self.is_below(u, ti) {
                let mut items = self.types[u].set.get_instance();
                let ghost a = v@;
                let ghost b = items@;
                v.append(&mut items);
                assert(string_views(v@) =~= string_views(a) + string_views(b));
            }
            u += 1;
        }
        v
    }
}

} // verus!
