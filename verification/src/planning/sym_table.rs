//! The symbol table of a conversion: atoms, their types, the classes of atoms
//! that were unified, and the names that stand for atoms, scope by scope.
use crate::domain::Table;
use crate::lvalue::{string_views, LNumber};
use crate::planning::atom::{Atom, AtomId, AtomModel, AtomType, Sym, SymModel, SymbolTypes};
use crate::planning::chronicle::{ExpressionChronicleResult, Interval};
use crate::strmap::StrMap;
use crate::text::{nat_text, usize_to_string};
use vstd::prelude::*;

verus! {

/// The symbol table.
pub struct SymTable {
    atoms: Vec<Atom>,
    /// For each atom, the atom that stands for its class.
    repr: Vec<AtomId>,
    symbol_types: SymbolTypes,
    /// For each name, the atoms of its versions, oldest first.
    names: StrMap<Vec<AtomId>>,
    /// For each scope, innermost last, the version of each name that is
    /// current in the scope.
    scopes: Vec<StrMap<usize>>,
}

/// The symbol table, as contracts see it.
pub struct SymTableModel {
    pub atoms: Seq<AtomModel>,
    pub repr: Seq<AtomId>,
    pub types: Map<AtomId, AtomType>,
    /// The number of atoms that were given each type.
    pub counts: Map<AtomType, nat>,
    pub names: Table<Seq<AtomId>>,
    pub scopes: Seq<Table<usize>>,
}

/// The views of a sequence of vectors.
pub open spec fn vec_views(s: Seq<Vec<AtomId>>) -> Seq<Seq<AtomId>> {
    Seq::new(s.len(), |i: int| s[i]@)
}

/// The models of a sequence of scopes.
pub open spec fn scope_models(s: Seq<StrMap<usize>>) -> Seq<Table<usize>> {
    Seq::new(s.len(), |i: int| Table { labels: s[i].keys(), entries: s[i].values() })
}

/// The models of a sequence of atoms.
pub open spec fn atom_models(s: Seq<Atom>) -> Seq<AtomModel> {
    Seq::new(s.len(), |i: int| s[i]@)
}

impl SymTableModel {
    /// Every version of a name is an atom of the table, and that atom is a
    /// symbol of that name.
    pub open spec fn names_hold(self) -> bool {
        &&& self.names.wf()
        &&& forall|k: int, v: int|
            0 <= k < self.names.labels.len() && 0 <= v < self.names.entries[k].len() ==> {
                let id = #[trigger] self.names.entries[k][v];
                id < self.atoms.len() && self.atoms[id as int] is Sym
                    && self.atoms[id as int]->Sym_0.name() == self.names.labels[k]
            }
    }

    /// The version of `name` that is current: the one that the innermost
    /// scope points at, the oldest when it points at none.
    pub open spec fn current(self, name: Seq<char>) -> nat {
        if self.scopes.len() > 0 && self.scopes.last().has(name) {
            self.scopes.last().get(name) as nat
        } else {
            0
        }
    }

    /// The atom that `name` stands for: the atom of its current version.
    pub open spec fn id_of(self, name: Seq<char>) -> Option<AtomId> {
        if self.names.has(name) && self.current(name) < self.names.get(name).len() {
            Some(self.names.get(name)[self.current(name) as int])
        } else {
            None
        }
    }

    /// The table once the atom `a` of the type `t` has been added: it stands
    /// for a class of its own.
    pub open spec fn with_atom(self, a: AtomModel, t: AtomType) -> SymTableModel {
        SymTableModel {
            atoms: self.atoms.push(a),
            repr: self.repr.push(self.atoms.len() as AtomId),
            types: self.types.insert(self.atoms.len() as AtomId, t),
            counts: self.counts.insert(t, self.counts[t] + 1),
            ..self
        }
    }

    /// The table once a new symbol of the type `t` has been declared whose
    /// name is `prefix` followed by the number of atoms of that type.
    pub open spec fn declared_ranked(self, prefix: Seq<char>, t: AtomType) -> SymTableModel {
        self.declared(ranked_name(prefix, self.counts[t]), t)
    }

    /// The table once a new timepoint has been declared.
    pub open spec fn with_timepoint(self) -> SymTableModel {
        self.declared_ranked("t_"@, AtomType::Timepoint)
    }

    /// The table once a new result has been declared.
    pub open spec fn with_result(self) -> SymTableModel {
        self.declared_ranked("r_"@, AtomType::Result)
    }

    /// The table once a scope has been opened.
    pub open spec fn scoped(self) -> SymTableModel {
        SymTableModel { scopes: self.scopes.push(self.scopes.last()), ..self }
    }

    /// The table once the innermost scope has been closed; the outermost
    /// scope stays open.
    pub open spec fn unscoped(self) -> SymTableModel {
        SymTableModel {
            scopes: if self.scopes.len() > 1 {
                self.scopes.drop_last()
            } else {
                self.scopes
            },
            ..self
        }
    }

    /// The atom that a symbol stands for once it has been declared without
    /// asking for a new version.
    pub open spec fn symbol_id(self, name: Seq<char>) -> AtomId {
        match self.id_of(name) {
            Some(id) => id,
            None => self.atoms.len() as AtomId,
        }
    }

    /// The table once a name has been declared without asking for a new
    /// version: a name that is not declared gets a new atom of the type `t`.
    pub open spec fn with_typed(self, name: Seq<char>, t: AtomType) -> SymTableModel {
        match self.id_of(name) {
            Some(_) => self,
            None => self.declared(name, t),
        }
    }

    /// The table once a name has been declared, asking for a new version of
    /// a name that is declared: the new atom is of the type `t`.
    pub open spec fn with_new_typed(self, name: Seq<char>, t: AtomType) -> SymTableModel {
        match self.id_of(name) {
            Some(_) => self.redeclared_as(name, t),
            None => self.declared(name, t),
        }
    }

    /// The table once a symbol has been declared without asking for a new
    /// version.
    pub open spec fn with_symbol(self, name: Seq<char>) -> SymTableModel {
        self.with_typed(name, AtomType::Symbol)
    }

    /// The table once a symbol has been declared, asking for a new version
    /// of a name that is declared.
    pub open spec fn with_new_symbol(self, name: Seq<char>) -> SymTableModel {
        self.with_new_typed(name, AtomType::Symbol)
    }

    /// The table once a variable has been declared without asking for a new
    /// version.
    pub open spec fn with_variable(self, name: Seq<char>) -> SymTableModel {
        self.with_typed(name, AtomType::Variable)
    }

    /// The table once a variable has been declared, asking for a new version
    /// of a name that is declared.
    pub open spec fn with_new_variable(self, name: Seq<char>) -> SymTableModel {
        self.with_new_typed(name, AtomType::Variable)
    }

    /// Tells whether `n` more atoms can be added.
    pub open spec fn has_room(self, n: nat) -> bool {
        self.atoms.len() + n + 1 < usize::MAX
    }

    /// The table once `name` stands for the one atom `id`.
    pub open spec fn named(self, name: Seq<char>, id: AtomId) -> SymTableModel {
        SymTableModel { names: self.names.with(name, seq![id]), ..self }
    }

    /// The table once a new symbol called `name` of the type `t` has been
    /// declared: a new atom, which `name` stands for.
    pub open spec fn declared(self, name: Seq<char>, t: AtomType) -> SymTableModel {
        self.with_atom(AtomModel::Sym(SymModel::Unique(name)), t).named(
            name,
            self.atoms.len() as AtomId,
        )
    }

    /// The table once the first `n` names of `list` have been declared, one
    /// after the other, as new symbols of the type `t`.
    pub open spec fn with_symbols(self, list: Seq<Seq<char>>, n: nat, t: AtomType) -> SymTableModel
        decreases n,
    {
        if n == 0 || n > list.len() {
            self
        } else {
            self.with_symbols(list, (n - 1) as nat, t).declared(list[n - 1], t)
        }
    }

    /// The table once the classes of `a` and `b` have been unified: every
    /// atom of the class of `a` now stands in the class of `b`.
    pub open spec fn unified(self, a: AtomId, b: AtomId) -> SymTableModel {
        SymTableModel {
            repr: Seq::new(
                self.repr.len(),
                |i: int|
                    if self.repr[i] == self.repr[a as int] {
                        self.repr[b as int]
                    } else {
                        self.repr[i]
                    },
            ),
            ..self
        }
    }

    /// The table once the innermost scope points at the version `v` of
    /// `name`.
    pub open spec fn pointing(self, name: Seq<char>, v: usize) -> SymTableModel {
        SymTableModel {
            scopes: self.scopes.update(
                self.scopes.len() - 1,
                self.scopes.last().with(name, v),
            ),
            ..self
        }
    }

    /// The table once a new version of the symbol `name` has been declared.
    pub open spec fn redeclared(self, name: Seq<char>) -> SymTableModel {
        self.redeclared_as(name, AtomType::Symbol)
    }

    /// The table once a new version of `name` has been declared: the first
    /// version is marked as one of several, the new atom, of the type `t`, is
    /// the last version, and the innermost scope points at it.
    pub open spec fn redeclared_as(self, name: Seq<char>, t: AtomType) -> SymTableModel {
        let versions = self.names.get(name);
        let n = versions.len();
        let marked = SymTableModel {
            atoms: if n == 1 && versions[0] < self.atoms.len() {
                self.atoms.update(
                    versions[0] as int,
                    AtomModel::Sym(SymModel::Several(name, 0)),
                )
            } else {
                self.atoms
            },
            ..self
        };
        let fresh = marked.with_atom(AtomModel::Sym(SymModel::Several(name, n)), t);
        (SymTableModel {
            names: fresh.names.with(name, versions.push(self.atoms.len() as AtomId)),
            ..fresh
        }).pointing(name, n as usize)
    }
}

impl View for SymTable {
    type V = SymTableModel;

    closed spec fn view(&self) -> SymTableModel {
        SymTableModel {
            atoms: atom_models(self.atoms@),
            repr: self.repr@,
            types: self.symbol_types.types(),
            counts: Map::new(|t: AtomType| true, |t: AtomType| self.symbol_types.count(t)),
            names: Table { labels: self.names.keys(), entries: vec_views(self.names.values()) },
            scopes: scope_models(self.scopes@),
        }
    }
}

/// The name of the result, timepoint or object of the given rank.
pub open spec fn ranked_name(prefix: Seq<char>, n: nat) -> Seq<char> {
    prefix + nat_text(n)
}

impl SymTable {
    /// The number of atoms of the type `t`.
    pub open spec fn count(self, t: AtomType) -> nat {
        self@.counts[t]
    }

    /// Every atom has a class, there is one scope at least, no type counts
    /// more atoms than there are, but for the one lambda that is counted from
    /// the start, and there is room for more atoms.
    pub closed spec fn wf(self) -> bool {
        &&& self.symbol_types.wf()
        &&& self.repr@.len() == self.atoms@.len()
        &&& forall|i: int| 0 <= i < self.repr@.len() ==> #[trigger] self.repr@[i] < self.atoms@.len()
        &&& self.scopes@.len() >= 1
        &&& forall|t: AtomType| #[trigger] self.symbol_types.count(t) <= self.atoms@.len() + 1
        &&& self@.names_hold()
    }

    /// Tells whether `n` more atoms can be added.
    pub open spec fn has_room(self, n: nat) -> bool {
        self@.has_room(n)
    }

    /// What holds of a well-formed table, in terms of its model.
    pub proof fn lemma_wf(self)
        requires
            self.wf(),
        ensures
            self@.repr.len() == self@.atoms.len(),
            forall|i: int| 0 <= i < self@.repr.len() ==> #[trigger] self@.repr[i] < self@.atoms.len(),
            self@.scopes.len() >= 1,
            forall|t: AtomType| #[trigger] self@.counts.contains_key(t),
            forall|t: AtomType| #[trigger] self@.counts[t] <= self@.atoms.len() + 1,
            self@.names_hold(),
    {
    }

    /// A table without atoms, with one scope.
    pub fn new() -> (st: Self)
        ensures
            st.wf(),
            st@.atoms.len() == 0,
            st@.names.labels.len() == 0,
            st@.scopes.len() == 1,
            st@.scopes[0].labels.len() == 0,
            forall|t: AtomType| #[trigger]
                st.count(t) == (if t == AtomType::Lambda {
                    1nat
                } else {
                    0nat
                }),
    {
        let mut scopes: Vec<StrMap<usize>> = Vec::new();
        scopes.push(StrMap::new());
        SymTable {
            atoms: Vec::new(),
            repr: Vec::new(),
            symbol_types: SymbolTypes::new(),
            names: StrMap::new(),
            scopes,
        }
    }

    /// The number of atoms.
    pub fn n_atoms(&self) -> (n: usize)
        ensures
            n == self@.atoms.len(),
    {
        self.atoms.len()
    }

    /// Adds an atom of the given type, in a class of its own.
    fn new_node(&mut self, a: Atom, t: AtomType) -> (id: AtomId)
        requires
            old(self).wf(),
            old(self).has_room(0),
        ensures
            final(self).wf(),
            id == old(self)@.atoms.len(),
            final(self)@ == old(self)@.with_atom(a@, t),
            final(self).count(t) == old(self).count(t) + 1,
            forall|u: AtomType| u != t ==> #[trigger] final(self).count(u) == old(self).count(u),
    {
        let id = self.atoms.len();
        self.atoms.push(a);
        self.repr.push(id);
        self.symbol_types.add_new_atom(id, t);
        proof {
            assert(self@.atoms =~= old(self)@.atoms.push(a@));
            assert forall|u: AtomType| #[trigger] self.symbol_types.count(u) <= self.atoms@.len()
                + 1 by {
                assert(old(self).symbol_types.count(u) <= old(self).atoms@.len() + 1);
            }
            assert(self@.counts =~= old(self)@.counts.insert(t, old(self)@.counts[t] + 1));
        }
        id
    }

    /// Makes `name` stand for the one atom `id`.
    fn set_name(&mut self, name: String, id: AtomId)
        requires
            old(self).wf(),
            id < old(self)@.atoms.len(),
            old(self)@.atoms[id as int] is Sym,
            old(self)@.atoms[id as int]->Sym_0.name() == name@,
        ensures
            final(self).wf(),
            final(self)@ == old(self)@.named(name@, id),
            forall|u: AtomType| #[trigger] final(self).count(u) == old(self).count(u),
    {
        self.names.keys_are_distinct();
        let ghost known = self.names.has(name@);
        let ghost at = self.names.index_of(name@);
        let mut v: Vec<AtomId> = Vec::new();
        v.push(id);
        self.names.insert(name, v);
        self.names.keys_are_distinct();
        proof {
            assert(v@ =~= seq![id]);
            if known {
                assert(self@.names.entries =~= old(self)@.names.entries.update(at, seq![id]));
            } else {
                assert(self@.names.entries =~= old(self)@.names.entries.push(seq![id]));
            }
            let o = old(self)@;
            let n = self@;
            assert forall|k: int, w: int|
                0 <= k < n.names.labels.len() && 0 <= w < n.names.entries[k].len() implies ({
                let a = #[trigger] n.names.entries[k][w];
                a < n.atoms.len() && n.atoms[a as int] is Sym && n.atoms[a as int]->Sym_0.name()
                    == n.names.labels[k]
            }) by {
                if known && k == at {
                } else if !known && k == o.names.labels.len() {
                } else {
                    assert(n.names.entries[k] == o.names.entries[k]);
                    let a = o.names.entries[k][w];
                    assert(a < o.atoms.len());
                }
            }
        }
    }

    /// The atom at `id`, if there is one.
    pub fn get_atom(&self, id: &AtomId) -> (r: Option<&Atom>)
        ensures
            r is Some <==> *id < self@.atoms.len(),
            r matches Some(a) ==> a@ == self@.atoms[*id as int],
    {
        if *id < self.atoms.len() {
            Some(&self.atoms[*id])
        } else {
            None
        }
    }

    /// The type of the atom `id`, if it has one.
    pub fn get_type(&self, id: &AtomId) -> (r: Option<&AtomType>)
        ensures
            r is Some <==> self@.types.contains_key(*id),
            r matches Some(t) ==> *t == self@.types[*id],
    {
        self.symbol_types.get_type(id)
    }

    /// The atom that stands for the class of `a`; `a` itself where it is no
    /// atom of the table.
    pub fn get_parent(&self, a: &AtomId) -> (p: AtomId)
        ensures
            p == (if *a < self@.repr.len() {
                self@.repr[*a as int]
            } else {
                *a
            }),
    {
        if *a < self.repr.len() {
            self.repr[*a]
        } else {
            *a
        }
    }

    /// The atom that stands for the class of `a`.
    pub fn find_parent(&mut self, a: &AtomId) -> (p: AtomId)
        ensures
            *final(self) == *old(self),
            p == (if *a < old(self)@.repr.len() {
                old(self)@.repr[*a as int]
            } else {
                *a
            }),
    {
        self.get_parent(a)
    }

    /// Unifies the classes of `a` and `b`: every atom of the class of `a`
    /// joins the class of `b`. Nothing changes where one of them is no atom
    /// of the table.
    pub fn union_atom(&mut self, a: &AtomId, b: &AtomId)
        requires
            old(self).wf(),
        ensures
            final(self).wf(),
            *a < old(self)@.atoms.len() && *b < old(self)@.atoms.len() ==> final(self)@ == old(
                self,
            )@.unified(*a, *b),
            !(*a < old(self)@.atoms.len() && *b < old(self)@.atoms.len()) ==> final(self)@ == old(
                self,
            )@,
            forall|u: AtomType| #[trigger] final(self).count(u) == old(self).count(u),
    {
        if *a >= self.repr.len() || *b >= self.repr.len() {
            return ;
        }
        let ra = self.repr[*a];
        let rb = self.repr[*b];
        let mut i: usize = 0;
        while i < self.repr.len()
            invariant
                i <= self.repr.len(),
                self.repr@.len() == old(self).repr@.len(),
                self.atoms == old(self).atoms,
                self.symbol_types == old(self).symbol_types,
                self.names == old(self).names,
                self.scopes == old(self).scopes,
                old(self).wf(),
                ra == old(self).repr@[*a as int],
                rb == old(self).repr@[*b as int],
                forall|j: int|
                    0 <= j < i ==> self.repr@[j] == (if old(self).repr@[j] == ra {
                        rb
                    } else {
                        old(self).repr@[j]
                    }),
                forall|j: int| i <= j < self.repr@.len() ==> self.repr@[j] == old(self).repr@[j],
            decreases self.repr.len() - i,
        {
            if self.repr[i] == ra {
                self.repr.set(i, rb);
            }
            i += 1;
        }
        proof {
            assert(self@.repr =~= old(self)@.unified(*a, *b).repr);
            assert forall|j: int| 0 <= j < self.repr@.len() implies #[trigger] self.repr@[j]
                < self.atoms@.len() by {
                assert(old(self).repr@[j] < old(self).atoms@.len());
                assert(old(self).repr@[*b as int] < old(self).atoms@.len());
            }
        }
    }

    /// The atom that stands for the class of `id`, if `id` is an atom of the
    /// table.
    pub fn get_sym(&self, id: &AtomId) -> (r: Option<&Atom>)
        requires
            self.wf(),
        ensures
            r is Some <==> *id < self@.atoms.len(),
            r matches Some(a) ==> a@ == self@.atoms[self@.repr[*id as int] as int],
    {
        if *id < self.repr.len() {
            let p = self.repr[*id];
            assert(self.repr@[*id as int] < self.atoms@.len());
            Some(&self.atoms[p])
        } else {
            None
        }
    }

    /// The version of `sym` that is current.
    fn current_version(&self, sym: &str) -> (v: usize)
        ensures
            v == self@.current(sym@),
    {
        if self.scopes.len() == 0 {
            return 0;
        }
        let top = &self.scopes[self.scopes.len() - 1];
        top.keys_are_distinct();
        assert(self@.scopes.last() == (Table { labels: top.keys(), entries: top.values() }));
        match top.get(sym) {
            Some(v) => *v,
            None => 0,
        }
    }

    /// The atom that the name `sym` stands for, if it is declared.
    pub fn id(&self, sym: &str) -> (r: Option<AtomId>)
        ensures
            r == self@.id_of(sym@),
    {
        self.names.keys_are_distinct();
        let v = self.current_version(sym);
        match self.names.position(sym) {
            None => None,
            Some(i) => {
                let versions = self.names.value_at(i);
                assert(self@.names.get(sym@) == versions@);
                if v < versions.len() {
                    Some(versions[v])
                } else {
                    None
                }
            },
        }
    }

    /// Tells whether the name `sym` is declared.
    pub fn it_exists(&self, sym: &str) -> (b: bool)
        ensures
            b == self@.names.has(sym@),
    {
        self.names.contains_key(sym)
    }

    /// Adds the atom of a boolean.
    pub fn new_bool(&mut self, b: bool) -> (id: AtomId)
        requires
            old(self).wf(),
            old(self).has_room(0),
        ensures
            final(self).wf(),
            id == old(self)@.atoms.len(),
            final(self)@ == old(self)@.with_atom(AtomModel::Bool(b), AtomType::Boolean),
            final(self).count(AtomType::Boolean) == old(self).count(AtomType::Boolean) + 1,
            forall|u: AtomType|
                u != AtomType::Boolean ==> #[trigger] final(self).count(u) == old(self).count(u),
    {
        self.new_node(Atom::Bool(b), AtomType::Boolean)
    }

    /// Adds the atom of a number.
    pub fn new_number(&mut self, n: LNumber) -> (id: AtomId)
        requires
            old(self).wf(),
            old(self).has_room(0),
        ensures
            final(self).wf(),
            id == old(self)@.atoms.len(),
            final(self)@ == old(self)@.with_atom(AtomModel::Number(n), AtomType::Number),
            final(self).count(AtomType::Number) == old(self).count(AtomType::Number) + 1,
            forall|u: AtomType|
                u != AtomType::Number ==> #[trigger] final(self).count(u) == old(self).count(u),
    {
        self.new_node(Atom::Number(n), AtomType::Number)
    }

    /// Declares a new symbol of the type `t` whose name is `prefix` followed
    /// by the number of atoms of that type.
    fn declare_ranked(&mut self, prefix: &'static str, t: AtomType) -> (id: AtomId)
        requires
            old(self).wf(),
            old(self).has_room(0),
        ensures
            final(self).wf(),
            id == old(self)@.atoms.len(),
            final(self)@ == old(self)@.declared_ranked(prefix@, t),
            final(self).count(t) == old(self).count(t) + 1,
            forall|u: AtomType| u != t ==> #[trigger] final(self).count(u) == old(self).count(u),
    {
        let n = self.symbol_types.get_number_of_type(&t);
        let mut name = String::from_str(prefix);
        name.append(usize_to_string(n).as_str());
        let id = self.new_node(Atom::Sym(Sym::Unique(name.clone())), t);
        self.set_name(name, id);
        id
    }

    /// Declares the symbol of a new result: its name is `r_` followed by
    /// the number of results declared before.
    pub fn declare_new_result(&mut self) -> (r: ExpressionChronicleResult)
        requires
            old(self).wf(),
            old(self).has_room(0),
        ensures
            final(self).wf(),
            r.id() == old(self)@.atoms.len(),
            r.pure_lit() is None,
            final(self)@ == old(self)@.with_result(),
            final(self).count(AtomType::Result) == old(self).count(AtomType::Result) + 1,
            forall|u: AtomType|
                u != AtomType::Result ==> #[trigger] final(self).count(u) == old(self).count(u),
    {
        let id = self.declare_ranked("r_", AtomType::Result);
        ExpressionChronicleResult::new(id)
    }

    /// Declares the symbol of a new timepoint: its name is `t_` followed by
    /// the number of timepoints declared before.
    pub fn declare_new_timepoint(&mut self) -> (id: AtomId)
        requires
            old(self).wf(),
            old(self).has_room(0),
        ensures
            final(self).wf(),
            id == old(self)@.atoms.len(),
            final(self)@ == old(self)@.with_timepoint(),
            final(self).count(AtomType::Timepoint) == old(self).count(AtomType::Timepoint) + 1,
            forall|u: AtomType|
                u != AtomType::Timepoint ==> #[trigger] final(self).count(u) == old(self).count(u),
    {
        self.declare_ranked("t_", AtomType::Timepoint)
    }

    /// Declares the symbol of a new object: its name is `o_` followed by the
    /// number of objects declared before.
    pub fn declare_new_object(&mut self) -> (id: AtomId)
        requires
            old(self).wf(),
            old(self).has_room(0),
        ensures
            final(self).wf(),
            id == old(self)@.atoms.len(),
            final(self)@ == old(self)@.declared_ranked("o_"@, AtomType::Object),
            final(self).count(AtomType::Object) == old(self).count(AtomType::Object) + 1,
            forall|u: AtomType|
                u != AtomType::Object ==> #[trigger] final(self).count(u) == old(self).count(u),
    {
        self.declare_ranked("o_", AtomType::Object)
    }

    /// Declares two new timepoints and returns the interval from the first
    /// to the second.
    pub fn declare_new_interval(&mut self) -> (i: Interval)
        requires
            old(self).wf(),
            old(self).has_room(1),
        ensures
            final(self).wf(),
            i.first() == old(self)@.atoms.len(),
            i.last() == old(self)@.atoms.len() + 1,
            final(self)@ == old(self)@.with_timepoint().with_timepoint(),
            final(self).count(AtomType::Timepoint) == old(self).count(AtomType::Timepoint) + 2,
            forall|u: AtomType|
                u != AtomType::Timepoint ==> #[trigger] final(self).count(u) == old(self).count(u),
    {
        let start = self.declare_new_timepoint();
        let end = self.declare_new_timepoint();
        Interval::new(&start, &end)
    }

    /// Opens a scope: it starts with what the scope around it points at.
    pub fn new_scope(&mut self)
        requires
            old(self).wf(),
        ensures
            final(self).wf(),
            final(self)@ == old(self)@.scoped(),
            forall|u: AtomType| #[trigger] final(self).count(u) == old(self).count(u),
    {
        let top = &self.scopes[self.scopes.len() - 1];
        let mut copy: StrMap<usize> = StrMap::new();
        top.keys_are_distinct();
        let mut i: usize = 0;
        while i < top.len()
            invariant
                i <= top.size(),
                top.keys().no_duplicates(),
                top.values().len() == top.keys().len(),
                copy.keys() == top.keys().take(i as int),
                copy.values() == top.values().take(i as int),
            decreases top.size() - i,
        {
            proof {
                assert(!copy.has(top.keys()[i as int])) by {
                    if copy.keys().contains(top.keys()[i as int]) {
                        let k = choose|k: int|
                            0 <= k < copy.keys().len() && copy.keys()[k] == top.keys()[i as int];
                        assert(top.keys()[k] == top.keys()[i as int]);
                    }
                }
            }
            copy.insert(top.key_at(i).clone(), *top.value_at(i));
            proof {
                assert(copy.keys() =~= top.keys().take(i as int + 1));
                assert(copy.values() =~= top.values().take(i as int + 1));
            }
            i += 1;
        }
        proof {
            assert(copy.keys() =~= top.keys());
            assert(copy.values() =~= top.values());
        }
        self.scopes.push(copy);
        proof {
            assert(self@.scopes =~= old(self)@.scopes.push(old(self)@.scopes.last()));
        }
    }

    /// Closes the innermost scope. The outermost scope stays open.
    pub fn revert_scope(&mut self)
        requires
            old(self).wf(),
        ensures
            final(self).wf(),
            final(self)@ == old(self)@.unscoped(),
            forall|u: AtomType| #[trigger] final(self).count(u) == old(self).count(u),
    {
        if self.scopes.len() > 1 {
            let _ = self.scopes.pop();
            assert(self@.scopes =~= old(self)@.scopes.drop_last());
        }
    }

    /// Declares the name `symbol` with the type `t` for the atom that it
    /// may add.
    fn declare_typed(&mut self, symbol: String, if_it_exists_create_new: bool, t: AtomType) -> (id:
        AtomId)
        requires
            old(self).wf(),
            old(self).has_room(0),
        ensures
            final(self).wf(),
            old(self)@.id_of(symbol@) is Some && !if_it_exists_create_new ==> id == old(
                self,
            )@.id_of(symbol@)->0 && final(self)@ == old(self)@,
            old(self)@.id_of(symbol@) is Some && if_it_exists_create_new ==> id == old(
                self,
            )@.atoms.len() && final(self)@ == old(self)@.redeclared_as(symbol@, t),
            old(self)@.id_of(symbol@) is Some && if_it_exists_create_new ==> final(self).count(t)
                == old(self).count(t) + 1,
            old(self)@.id_of(symbol@) is None ==> id == old(self)@.atoms.len() && final(self)@
                == old(self)@.declared(symbol@, t) && final(self).count(t) == old(self).count(t)
                + 1,
            forall|u: AtomType| u != t ==> #[trigger] final(self).count(u) == old(self).count(u),
            !if_it_exists_create_new ==> id == old(self)@.symbol_id(symbol@) && final(self)@
                == old(self)@.with_typed(symbol@, t),
            if_it_exists_create_new ==> id == old(self)@.atoms.len() && final(self)@ == old(
                self,
            )@.with_new_typed(symbol@, t),
    {
        match self.id(symbol.as_str()) {
            Some(id) => {
                if !if_it_exists_create_new {
                    return id;
                }
                self.names.keys_are_distinct();
                let at = match self.names.position(symbol.as_str()) {
                    Some(at) => at,
                    None => 0,
                };
                let versions = self.names.value_at(at);
                assert(self@.names.get(symbol@) == versions@);
                let n = versions.len();
                let mut grown = versions.clone();
                if n == 1 && versions[0] < self.atoms.len() {
                    let first = versions[0];
                    self.atoms.set(first, Atom::Sym(Sym::Several(symbol.clone(), 0)));
                    assert(atom_models(self.atoms@) =~= old(self)@.atoms.update(
                        first as int,
                        AtomModel::Sym(SymModel::Several(symbol@, 0)),
                    ));
                }
                let id = self.new_node(Atom::Sym(Sym::Several(symbol.clone(), n)), t);
                let ghost types_then = self.symbol_types;
                let ghost then = *self;
                assert(forall|u: AtomType| u != t ==> #[trigger] then.count(u) == old(self).count(u));
                grown.push(id);
                let ghost g = grown@;
                let _ = self.names.replace_at(at, grown);
                proof {
                    assert(self@.names.entries =~= old(self)@.names.entries.update(at as int, g));
                    assert(self@.names == old(self)@.names.with(symbol@, g));
                }
                let last = self.scopes.len() - 1;
                let mut top: StrMap<usize> = StrMap::new();
                std::mem::swap(&mut top, &mut self.scopes[last]);
                top.keys_are_distinct();
                let ghost t0 = Table { labels: top.keys(), entries: top.values() };
                assert(t0 == old(self)@.scopes.last());
                top.insert(symbol, n);
                let ghost t1 = Table { labels: top.keys(), entries: top.values() };
                assert(t1 == t0.with(symbol@, n));
                self.scopes.set(last, top);
                proof {
                    assert(self@.scopes =~= old(self)@.scopes.update(
                        old(self)@.scopes.len() - 1,
                        old(self)@.scopes.last().with(symbol@, n),
                    ));
                    assert(self.symbol_types == types_then);
                    assert forall|u: AtomType| u != t implies #[trigger] self.count(u) == old(
                        self,
                    ).count(u) by {
                        assert(then.count(u) == old(self).count(u));
                    }
                }
                id
            },
            None => {
                let id = self.new_node(Atom::Sym(Sym::Unique(symbol.clone())), t);
                self.set_name(symbol, id);
                id
            },
        }
    }

    /// Declares the symbol `symbol`.
    ///
    /// A name that is not declared yet gets a new atom. For a name that is
    /// declared, the atom of its current version is returned, unless
    /// `if_it_exists_create_new` asks for a new version: the new atom is then
    /// the last version of the name, and the innermost scope points at it. A
    /// name whose current version is missing is declared afresh.
    pub fn declare_new_symbol(&mut self, symbol: String, if_it_exists_create_new: bool) -> (id:
        AtomId)
        requires
            old(self).wf(),
            old(self).has_room(0),
        ensures
            final(self).wf(),
            old(self)@.id_of(symbol@) is Some && !if_it_exists_create_new ==> id == old(
                self,
            )@.id_of(symbol@)->0 && final(self)@ == old(self)@,
            old(self)@.id_of(symbol@) is Some && if_it_exists_create_new ==> id == old(
                self,
            )@.atoms.len() && final(self)@ == old(self)@.redeclared(symbol@) && final(self).count(
                AtomType::Symbol,
            ) == old(self).count(AtomType::Symbol) + 1,
            old(self)@.id_of(symbol@) is None ==> id == old(self)@.atoms.len() && final(self)@
                == old(self)@.declared(symbol@, AtomType::Symbol) && final(self).count(
                AtomType::Symbol,
            ) == old(self).count(AtomType::Symbol) + 1,
            forall|u: AtomType|
                u != AtomType::Symbol ==> #[trigger] final(self).count(u) == old(self).count(u),
            !if_it_exists_create_new ==> id == old(self)@.symbol_id(symbol@) && final(self)@
                == old(self)@.with_symbol(symbol@),
            if_it_exists_create_new ==> id == old(self)@.atoms.len() && final(self)@ == old(
                self,
            )@.with_new_symbol(symbol@),
    {
        self.declare_typed(symbol, if_it_exists_create_new, AtomType::Symbol)
    }

    /// Declares the variable `symbol`: a symbol that stands for a value that
    /// is not known yet. The atom that the declaration may add is of the
    /// type of variables; for the rest it is the declaration of a symbol.
    pub fn declare_new_variable(&mut self, symbol: String, if_it_exists_create_new: bool) -> (id:
        AtomId)
        requires
            old(self).wf(),
            old(self).has_room(0),
        ensures
            final(self).wf(),
            forall|u: AtomType|
                u != AtomType::Variable ==> #[trigger] final(self).count(u) == old(self).count(u),
            !if_it_exists_create_new ==> id == old(self)@.symbol_id(symbol@) && final(self)@
                == old(self)@.with_variable(symbol@),
            if_it_exists_create_new ==> id == old(self)@.atoms.len() && final(self)@ == old(
                self,
            )@.with_new_variable(symbol@),
    {
        self.declare_typed(symbol, if_it_exists_create_new, AtomType::Variable)
    }

    /// Declares the names of `list`, in order, as new symbols of the type
    /// `sym_type`, and stops at the first name that is declared by then.
    /// Returns the number of names declared and, if it stopped, the name that
    /// it stopped at.
    pub fn add_list_of_symbols_of_same_type(&mut self, list: Vec<String>, sym_type: &AtomType) -> (r:
        (usize, Option<String>))
        requires
            old(self).wf(),
            old(self).has_room(list@.len()),
        ensures
            final(self).wf(),
            r.0 <= list@.len(),
            r.1 is None <==> r.0 == list@.len(),
            r.1 matches Some(name) ==> name@ == list@[r.0 as int]@ && final(self)@.names.has(name@),
            final(self)@ == old(self)@.with_symbols(string_views(list@), r.0 as nat, *sym_type),
            forall|k: int|
                0 <= k < r.0 ==> !(#[trigger] old(self)@.with_symbols(
                    string_views(list@),
                    k as nat,
                    *sym_type,
                )).names.has(list@[k]@),
            final(self)@.atoms.len() == old(self)@.atoms.len() + r.0,
            final(self).count(*sym_type) == old(self).count(*sym_type) + r.0,
            forall|u: AtomType|
                u != *sym_type ==> #[trigger] final(self).count(u) == old(self).count(u),
            forall|k: int|
                0 <= k < r.0 ==> final(self)@.names.has(#[trigger] list@[k]@) && final(self)@.names.get(list@[k]@) == seq![(old(self)@.atoms.len() + k) as AtomId]
                    && final(self)@.atoms[old(self)@.atoms.len() + k] == AtomModel::Sym(
                    SymModel::Unique(list@[k]@),
                ) && final(self)@.types[(old(self)@.atoms.len() + k) as AtomId] == *sym_type,
    {
        let mut i: usize = 0;
        while i < list.len()
            invariant
                i <= list.len(),
                self.wf(),
                self@.atoms.len() == old(self)@.atoms.len() + i,
                old(self).has_room(list@.len()),
                self@ == old(self)@.with_symbols(string_views(list@), i as nat, *sym_type),
                forall|k: int|
                    0 <= k < i ==> !(#[trigger] old(self)@.with_symbols(
                        string_views(list@),
                        k as nat,
                        *sym_type,
                    )).names.has(list@[k]@),
                self.count(*sym_type) == old(self).count(*sym_type) + i,
                forall|u: AtomType|
                    u != *sym_type ==> #[trigger] self.count(u) == old(self).count(u),
                forall|k: int|
                    0 <= k < i ==> self@.names.has(#[trigger] list@[k]@) && self@.names.get(
                        list@[k]@,
                    ) == seq![(old(self)@.atoms.len() + k) as AtomId] && self@.atoms[old(
                        self,
                    )@.atoms.len() + k] == AtomModel::Sym(SymModel::Unique(list@[k]@))
                        && self@.types[(old(self)@.atoms.len() + k) as AtomId] == *sym_type,
            decreases list.len() - i,
        {
            if self.it_exists(list[i].as_str()) {
                return (i, Some(list[i].clone()));
            }
            self.names.keys_are_distinct();
            let ghost before = self@;
            let name = list[i].clone();
            let id = self.new_node(Atom::Sym(Sym::Unique(name.clone())), *sym_type);
            self.set_name(name, id);
            proof {
                let n = self@;
                assert(before.names.wf()) by {
                    assert(before.names.labels.len() == before.names.entries.len());
                }
                crate::domain::lemma_with_get(before.names, list@[i as int]@, seq![id], list@[i as int]@);
                assert forall|k: int| 0 <= k < i + 1 implies n.names.has(#[trigger] list@[k]@)
                    && n.names.get(list@[k]@) == seq![(old(self)@.atoms.len() + k) as AtomId]
                    && n.atoms[old(self)@.atoms.len() + k] == AtomModel::Sym(
                    SymModel::Unique(list@[k]@),
                ) && n.types[(old(self)@.atoms.len() + k) as AtomId] == *sym_type by {
                    if k < i {
                        assert(before.names.has(list@[k]@));
                        assert(list@[k]@ != list@[i as int]@);
                        crate::domain::lemma_with_get(
                            before.names,
                            list@[i as int]@,
                            seq![id],
                            list@[k]@,
                        );
                        assert(n.atoms[old(self)@.atoms.len() + k] == before.atoms[old(
                            self,
                        )@.atoms.len() + k]);
                    }
                }
            }
            i += 1;
        }
        (i, None)
    }
}

impl Default for SymTable {
    fn default() -> (st: Self)
        ensures
            st.wf(),
    {
        SymTable::new()
    }
}

} // verus!
