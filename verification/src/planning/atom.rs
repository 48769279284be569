//! Atoms of the symbol table: symbols, their types and how many there are of
//! each type.
use crate::lvalue::LNumber;
use crate::text::{int_text, nat_text, usize_to_string};
use std::collections::HashMap;
use vstd::prelude::*;

verus! {

broadcast use vstd::std_specs::hash::group_hash_axioms;

/// Identifier of an atom: its place in the symbol table.
pub type AtomId = usize;

/// A symbol: a name that was declared once, or one version of a name that
/// was declared several times.
#[derive(Debug)]
pub enum Sym {
    Unique(String),
    Several(String, usize),
}

/// A symbol, as contracts see it.
pub enum SymModel {
    Unique(Seq<char>),
    Several(Seq<char>, nat),
}

impl View for Sym {
    type V = SymModel;

    open spec fn view(&self) -> SymModel {
        match self {
            Sym::Unique(s) => SymModel::Unique(s@),
            Sym::Several(s, i) => SymModel::Several(s@, *i as nat),
        }
    }
}

impl SymModel {
    /// The name of the symbol, without its version.
    pub open spec fn name(self) -> Seq<char> {
        match self {
            SymModel::Unique(s) => s,
            SymModel::Several(s, _) => s,
        }
    }

    /// The printed form: the name, followed for a version by an underscore
    /// and the number of the version.
    pub open spec fn text(self) -> Seq<char> {
        match self {
            SymModel::Unique(s) => s,
            SymModel::Several(s, i) => s + "_"@ + nat_text(i),
        }
    }
}

impl Clone for Sym {
    fn clone(&self) -> (r: Self)
        ensures
            r@ == self@,
    {
        match self {
            Sym::Unique(s) => Sym::Unique(s.clone()),
            Sym::Several(s, i) => Sym::Several(s.clone(), *i),
        }
    }
}

impl Sym {
    /// The name of the symbol, without its version.
    pub fn get_string(&self) -> (s: &String)
        ensures
            s@ == self@.name(),
    {
        match self {
            Sym::Unique(s) => s,
            Sym::Several(s, _) => s,
        }
    }

    /// The symbol that was declared once under the name `s`.
    pub fn from_str(s: &str) -> (r: Self)
        ensures
            r@ == SymModel::Unique(s@),
    {
        Sym::Unique(String::from_str(s))
    }

    /// Tells whether two symbols are the same.
    pub fn same(&self, other: &Sym) -> (b: bool)
        ensures
            b == (self@ == other@),
    {
        match (self, other) {
            (Sym::Unique(a), Sym::Unique(b)) => *a == *b,
            (Sym::Several(a, i), Sym::Several(b, j)) => *a == *b && *i == *j,
            _ => false,
        }
    }

    /// The printed form of the symbol.
    pub fn to_string(&self) -> (r: String)
        ensures
            r@ == self@.text(),
    {
        match self {
            Sym::Unique(s) => s.clone(),
            Sym::Several(s, i) => {
                let mut r = s.clone();
                r.append("_");
                r.append(usize_to_string(*i).as_str());
                r
            },
        }
    }
}

/// What an atom holds: a boolean, a number or a symbol.
#[derive(Debug)]
pub enum Atom {
    Bool(bool),
    Number(LNumber),
    Sym(Sym),
}

/// An atom, as contracts see it.
pub enum AtomModel {
    Bool(bool),
    Number(LNumber),
    Sym(SymModel),
}

impl View for Atom {
    type V = AtomModel;

    open spec fn view(&self) -> AtomModel {
        match self {
            Atom::Bool(b) => AtomModel::Bool(*b),
            Atom::Number(n) => AtomModel::Number(*n),
            Atom::Sym(s) => AtomModel::Sym(s@),
        }
    }
}

impl AtomModel {
    /// The printed form: `true`, `nil`, the number, or the symbol.
    pub open spec fn text(self) -> Seq<char> {
        match self {
            AtomModel::Bool(true) => "true"@,
            AtomModel::Bool(false) => "nil"@,
            AtomModel::Number(n) => int_text(n.value()),
            AtomModel::Sym(s) => s.text(),
        }
    }
}

impl Clone for Atom {
    fn clone(&self) -> (r: Self)
        ensures
            r@ == self@,
    {
        match self {
            Atom::Bool(b) => Atom::Bool(*b),
            Atom::Number(n) => Atom::Number(*n),
            Atom::Sym(s) => Atom::Sym(s.clone()),
        }
    }
}

impl Default for Atom {
    fn default() -> (r: Self)
        ensures
            r@ == AtomModel::Bool(false),
    {
        Atom::Bool(false)
    }
}

impl Atom {
    /// The printed form of the atom.
    pub fn to_string(&self) -> (r: String)
        ensures
            r@ == self@.text(),
    {
        match self {
            Atom::Bool(true) => String::from_str("true"),
            Atom::Bool(false) => String::from_str("nil"),
            Atom::Number(n) => n.to_string(),
            Atom::Sym(s) => s.to_string(),
        }
    }
}

/// How an expression is handled when it is converted.
#[derive(Clone, Copy, Debug, PartialEq, Eq, Structural)]
pub enum ExpressionType {
    Pure,
    Lisp,
    Action,
    Task,
    StateFunction,
}

/// The type of an atom.
#[derive(Clone, Copy, Debug, PartialEq, Eq, Structural, Hash)]
pub enum AtomType {
    Number,
    Boolean,
    Timepoint,
    Result,
    Symbol,
    Object,
    Action,
    StateFunction,
    Method,
    Task,
    Function,
    Lambda,
    /// A symbol that stands for a value that is not known yet: a parameter
    /// of a task or of a method.
    Variable,
}

/// The number of types of atoms.
pub const N_ATOM_TYPES: usize = 13;

/// The rank of a type of atoms, in the order of their declaration.
pub open spec fn type_rank(t: AtomType) -> int {
    match t {
        AtomType::Number => 0,
        AtomType::Boolean => 1,
        AtomType::Timepoint => 2,
        AtomType::Result => 3,
        AtomType::Symbol => 4,
        AtomType::Object => 5,
        AtomType::Action => 6,
        AtomType::StateFunction => 7,
        AtomType::Method => 8,
        AtomType::Task => 9,
        AtomType::Function => 10,
        AtomType::Lambda => 11,
        AtomType::Variable => 12,
    }
}

/// The name of a type of atoms.
pub open spec fn type_text(t: AtomType) -> Seq<char> {
    match t {
        AtomType::Timepoint => "timepoint"@,
        AtomType::Result => "return"@,
        AtomType::Object => "object"@,
        AtomType::Action => "action"@,
        AtomType::StateFunction => "state-function"@,
        AtomType::Method => "method"@,
        AtomType::Task => "task"@,
        AtomType::Function => "function"@,
        AtomType::Number => "number"@,
        AtomType::Boolean => "boolean"@,
        AtomType::Symbol => "symbol"@,
        AtomType::Lambda => "lambda"@,
        AtomType::Variable => "variable"@,
    }
}

impl AtomType {
    /// The rank of the type.
    pub fn rank(&self) -> (r: usize)
        ensures
            r == type_rank(*self),
            r < N_ATOM_TYPES,
    {
        match self {
            AtomType::Number => 0,
            AtomType::Boolean => 1,
            AtomType::Timepoint => 2,
            AtomType::Result => 3,
            AtomType::Symbol => 4,
            AtomType::Object => 5,
            AtomType::Action => 6,
            AtomType::StateFunction => 7,
            AtomType::Method => 8,
            AtomType::Task => 9,
            AtomType::Function => 10,
            AtomType::Lambda => 11,
            AtomType::Variable => 12,
        }
    }

    /// The name of the type.
    pub fn to_str(&self) -> (r: &'static str)
        ensures
            r@ == type_text(*self),
    {
        match self {
            AtomType::Timepoint => "timepoint",
            AtomType::Result => "return",
            AtomType::Object => "object",
            AtomType::Action => "action",
            AtomType::StateFunction => "state-function",
            AtomType::Method => "method",
            AtomType::Task => "task",
            AtomType::Function => "function",
            AtomType::Number => "number",
            AtomType::Boolean => "boolean",
            AtomType::Symbol => "symbol",
            AtomType::Lambda => "lambda",
            AtomType::Variable => "variable",
        }
    }
}

/// How many atoms there are of each type.
pub struct TypesNumber {
    inner: Vec<usize>,
}

impl TypesNumber {
    /// There is one count for each type.
    pub closed spec fn wf(self) -> bool {
        self.inner@.len() == N_ATOM_TYPES
    }

    /// The number of atoms of the type `t`.
    pub closed spec fn count(self, t: AtomType) -> nat {
        self.inner@[type_rank(t)] as nat
    }

    /// Counts that start at zero, but for the type of lambdas, which starts
    /// at one.
    pub fn new() -> (n: Self)
        ensures
            n.wf(),
            forall|t: AtomType| #[trigger]
                n.count(t) == (if t == AtomType::Lambda {
                    1nat
                } else {
                    0nat
                }),
    {
        let mut inner: Vec<usize> = Vec::new();
        let mut i: usize = 0;
        while i < N_ATOM_TYPES
            invariant
                i <= N_ATOM_TYPES,
                inner@.len() == i,
                forall|j: int| 0 <= j < i ==> inner@[j] == (if j == 11 { 1usize } else { 0usize }),
            decreases N_ATOM_TYPES - i,
        {
            inner.push(if i == 11 { 1 } else { 0 });
            i += 1;
        }
        TypesNumber { inner }
    }

    /// Counts one atom more of the type `atom_type`, and returns the number
    /// that there were before.
    pub fn increase_number_of_type(&mut self, atom_type: &AtomType) -> (previous: usize)
        requires
            old(self).wf(),
            old(self).count(*atom_type) < usize::MAX,
        ensures
            final(self).wf(),
            previous == old(self).count(*atom_type),
            final(self).count(*atom_type) == old(self).count(*atom_type) + 1,
            forall|t: AtomType| t != *atom_type ==> #[trigger] final(self).count(t) == old(
                self,
            ).count(t),
    {
        let r = atom_type.rank();
        let previous = self.inner[r];
        self.inner.set(r, previous + 1);
        previous
    }

    /// The number of atoms of the type `atom_type`.
    pub fn get_number_of_type(&self, atom_type: &AtomType) -> (n: usize)
        requires
            self.wf(),
        ensures
            n == self.count(*atom_type),
    {
        self.inner[atom_type.rank()]
    }
}

impl Clone for TypesNumber {
    fn clone(&self) -> (r: Self)
        ensures
            self.wf() ==> r.wf(),
            forall|t: AtomType| #[trigger] r.count(t) == self.count(t),
    {
        let r = TypesNumber { inner: self.inner.clone() };
        assert(r.inner@ =~= self.inner@);
        r
    }
}

/// The types of the atoms, and how many atoms there are of each type.
pub struct SymbolTypes {
    inner: HashMap<AtomId, AtomType>,
    types_number: TypesNumber,
}

impl SymbolTypes {
    /// The counts are well formed.
    pub closed spec fn wf(self) -> bool {
        self.types_number.wf()
    }

    /// The type of each atom that has one.
    pub closed spec fn types(self) -> Map<AtomId, AtomType> {
        self.inner@
    }

    /// The number of atoms of the type `t`.
    pub closed spec fn count(self, t: AtomType) -> nat {
        self.types_number.count(t)
    }

    /// No atom has a type yet; the counts are those of `TypesNumber::new`.
    pub fn new() -> (s: Self)
        ensures
            s.wf(),
            s.types() == Map::<AtomId, AtomType>::empty(),
            forall|t: AtomType| #[trigger]
                s.count(t) == (if t == AtomType::Lambda {
                    1nat
                } else {
                    0nat
                }),
    {
        SymbolTypes { inner: HashMap::new(), types_number: TypesNumber::new() }
    }

    /// The type of the atom `atom_id`, if it has one.
    pub fn get_type(&self, atom_id: &AtomId) -> (r: Option<&AtomType>)
        ensures
            r is Some <==> self.types().contains_key(*atom_id),
            r matches Some(t) ==> *t == self.types()[*atom_id],
    {
        self.inner.get(atom_id)
    }

    /// The number of atoms of the type `atom_type`.
    pub fn get_number_of_type(&self, atom_type: &AtomType) -> (n: usize)
        requires
            self.wf(),
        ensures
            n == self.count(*atom_type),
    {
        self.types_number.get_number_of_type(atom_type)
    }

    /// Gives the atom `id` the type `atom_type` and counts one atom more of
    /// that type.
    pub fn add_new_atom(&mut self, id: AtomId, atom_type: AtomType)
        requires
            old(self).wf(),
            old(self).count(atom_type) < usize::MAX,
        ensures
            final(self).wf(),
            final(self).types() == old(self).types().insert(id, atom_type),
            final(self).count(atom_type) == old(self).count(atom_type) + 1,
            forall|t: AtomType| t != atom_type ==> #[trigger] final(self).count(t) == old(
                self,
            ).count(t),
    {
        self.inner.insert(id, atom_type);
        self.types_number.increase_number_of_type(&atom_type);
    }
}

} // verus!
