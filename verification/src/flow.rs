//! Flows: what the body of a method becomes before it is turned into a
//! chronicle.
use crate::planning::atom::AtomId;
use crate::planning::chronicle::Interval;
use crate::planning::idset::{id_set_contents, id_set_insert, id_set_new, IdSet};
use vstd::prelude::*;

verus! {

/// Identifier of a flow: its place in the flow graph.
pub type FlowId = usize;

/// Identifier of a type of the lattice of values.
pub type TypeId = usize;

/// The types that every lattice of values starts with.
#[derive(Clone, Copy, Debug, PartialEq, Eq, Structural)]
pub enum RootType {
    Empty,
    Any,
    Boolean,
    List,
    Table,
    Failure,
    Handle,
    Number,
    Nil,
    Int,
    Float,
    Symbol,
    EmptyList,
    True,
    False,
}

pub const TRUE_ID: usize = 13;

pub const FALSE_ID: usize = 14;

pub const NIL_ID: usize = 8;

/// The identifier of a root type: its rank.
pub open spec fn root_type_id(t: RootType) -> int {
    match t {
        RootType::Empty => 0,
        RootType::Any => 1,
        RootType::Boolean => 2,
        RootType::List => 3,
        RootType::Table => 4,
        RootType::Failure => 5,
        RootType::Handle => 6,
        RootType::Number => 7,
        RootType::Nil => 8,
        RootType::Int => 9,
        RootType::Float => 10,
        RootType::Symbol => 11,
        RootType::EmptyList => 12,
        RootType::True => 13,
        RootType::False => 14,
    }
}

/// The name of a root type.
pub open spec fn root_type_text(t: RootType) -> Seq<char> {
    match t {
        RootType::Any => "Any"@,
        RootType::Boolean => "Boolean"@,
        RootType::List => "List"@,
        RootType::Empty => "Empty"@,
        RootType::Table => "Map"@,
        RootType::Failure => "Err"@,
        RootType::Handle => "Handle"@,
        RootType::Number => "Number"@,
        RootType::Int => "Int"@,
        RootType::Float => "Float"@,
        RootType::Symbol => "Symbol"@,
        RootType::EmptyList => "EmptyList"@,
        RootType::True => "True"@,
        RootType::False => "False"@,
        RootType::Nil => "Nil"@,
    }
}

impl RootType {
    /// The root type of the given identifier, if there is one.
    pub fn try_from(value: TypeId) -> (r: Option<RootType>)
        ensures
            r is Some <==> value <= 14,
            r matches Some(t) ==> root_type_id(t) == value,
    {
        if value == 0 {
            Some(RootType::Empty)
        } else if value == 1 {
            Some(RootType::Any)
        } else if value == 2 {
            Some(RootType::Boolean)
        } else if value == 3 {
            Some(RootType::List)
        } else if value == 4 {
            Some(RootType::Table)
        } else if value == 5 {
            Some(RootType::Failure)
        } else if value == 6 {
            Some(RootType::Handle)
        } else if value == 7 {
            Some(RootType::Number)
        } else if value == 8 {
            Some(RootType::Nil)
        } else if value == 9 {
            Some(RootType::Int)
        } else if value == 10 {
            Some(RootType::Float)
        } else if value == 11 {
            Some(RootType::Symbol)
        } else if value == 12 {
            Some(RootType::EmptyList)
        } else if value == 13 {
            Some(RootType::True)
        } else if value == 14 {
            Some(RootType::False)
        } else {
            None
        }
    }

    /// The identifier of the root type.
    pub fn id(&self) -> (r: TypeId)
        ensures
            r == root_type_id(*self),
    {
        match self {
            RootType::Empty => 0,
            RootType::Any => 1,
            RootType::Boolean => 2,
            RootType::List => 3,
            RootType::Table => 4,
            RootType::Failure => 5,
            RootType::Handle => 6,
            RootType::Number => 7,
            RootType::Nil => 8,
            RootType::Int => 9,
            RootType::Float => 10,
            RootType::Symbol => 11,
            RootType::EmptyList => 12,
            RootType::True => 13,
            RootType::False => 14,
        }
    }

    /// The name of the root type.
    pub fn to_str(&self) -> (r: &'static str)
        ensures
            r@ == root_type_text(*self),
    {
        match self {
            RootType::Any => "Any",
            RootType::Boolean => "Boolean",
            RootType::List => "List",
            RootType::Empty => "Empty",
            RootType::Table => "Map",
            RootType::Failure => "Err",
            RootType::Handle => "Handle",
            RootType::Number => "Number",
            RootType::Int => "Int",
            RootType::Float => "Float",
            RootType::Symbol => "Symbol",
            RootType::EmptyList => "EmptyList",
            RootType::True => "True",
            RootType::False => "False",
            RootType::Nil => "Nil",
        }
    }
}

/// The assignment of the value of an atom to a result.
#[derive(Clone, Copy, Debug, PartialEq, Eq, Structural)]
pub struct Assignment {
    pub interval: Interval,
    pub result: AtomId,
    pub value: AtomId,
}

/// A flow that branches on a condition.
#[derive(Clone, Copy, Debug, PartialEq, Eq, Structural)]
pub struct BranchingFlow {
    pub branch: Option<bool>,
    pub cond_flow: FlowId,
    pub true_flow: FlowId,
    pub false_flow: FlowId,
    pub result: FlowId,
}

/// What a flow is made of.
#[derive(Debug)]
pub enum FlowKind {
    Assignment(Assignment),
    /// Flows that follow one another, and the flow of their result.
    Sequence(Vec<FlowId>, FlowId),
    Branching(BranchingFlow),
    FlowResult(AtomId),
}

/// A flow of the graph.
#[derive(Debug)]
pub struct Flow {
    pub valid: bool,
    pub parent: Option<FlowId>,
    pub kind: FlowKind,
}

impl Flow {
    /// A valid flow of the given kind, without parent.
    pub fn new(kind: FlowKind) -> (f: Self)
        ensures
            f.valid,
            f.parent is None,
            f.kind == kind,
    {
        Self { valid: true, parent: None, kind }
    }

    /// A valid flow that is an assignment.
    pub fn from_assignment(value: Assignment) -> (f: Self)
        ensures
            f.valid,
            f.parent is None,
            f.kind == FlowKind::Assignment(value),
    {
        Self::new(FlowKind::Assignment(value))
    }

    /// A valid flow that branches.
    pub fn from_branching(value: BranchingFlow) -> (f: Self)
        ensures
            f.valid,
            f.parent is None,
            f.kind == FlowKind::Branching(value),
    {
        Self::new(FlowKind::Branching(value))
    }
}

/// The assignment of a value to a state variable over an interval, in atoms.
#[derive(Debug)]
pub struct Effect {
    pub interval: Interval,
    pub sv: Vec<AtomId>,
    pub value: AtomId,
}

impl Effect {
    /// The timepoint at which the effect starts.
    pub fn get_start(&self) -> (a: AtomId)
        ensures
            a == self.interval.first(),
    {
        self.interval.start()
    }

    /// The timepoint at which the effect ends.
    pub fn get_end(&self) -> (a: AtomId)
        ensures
            a == self.interval.last(),
    {
        self.interval.end()
    }

    /// The atoms of the effect: the two timepoints of its interval, the
    /// atoms of its state variable and its value.
    pub open spec fn variables(self) -> Set<AtomId> {
        self.sv@.to_set().insert(self.interval.first()).insert(self.interval.last()).insert(
            self.value,
        )
    }

    /// The atoms of the effect.
    pub fn get_variables(&self) -> (s: IdSet)
        ensures
            id_set_contents(s) == self.variables(),
    {
        let mut s = id_set_new();
        id_set_insert(&mut s, self.interval.start());
        id_set_insert(&mut s, self.interval.end());
        let mut i: usize = 0;
        while i < self.sv.len()
            invariant
                i <= self.sv.len(),
                id_set_contents(s) == self.sv@.take(i as int).to_set().insert(
                    self.interval.first(),
                ).insert(self.interval.last()),
            decreases self.sv.len() - i,
        {
            id_set_insert(&mut s, self.sv[i]);
            proof {
                let a = self.sv@.take(i as int);
                let b = self.sv@.take(i as int + 1);
                assert(b =~= a.push(self.sv@[i as int]));
                assert(b.to_set() =~= a.to_set().insert(self.sv@[i as int])) by {
                    assert forall|x: usize| b.to_set().contains(x) <==> a.to_set().insert(
                        self.sv@[i as int],
                    ).contains(x) by {
                        if b.contains(x) {
                            let k = choose|k: int| 0 <= k < b.len() && b[k] == x;
                            if k < a.len() {
                                assert(a[k] == x);
                            }
                        }
                        if a.contains(x) {
                            let k = choose|k: int| 0 <= k < a.len() && a[k] == x;
                            assert(b[k] == x);
                        }
                        if x == self.sv@[i as int] {
                            assert(b[a.len() as int] == x);
                        }
                    }
                }
                assert(id_set_contents(s) =~= b.to_set().insert(self.interval.first()).insert(
                    self.interval.last(),
                ));
            }
            i += 1;
        }
        assert(self.sv@.take(self.sv@.len() as int) =~= self.sv@);
        id_set_insert(&mut s, self.value);
        s
    }
}

/// A task and the chronicles of the methods that refine it, named by their
/// atoms.
pub struct TaskTemplate {
    pub name: Vec<AtomId>,
    pub methods: Vec<Vec<AtomId>>,
}

} // verus!
