//! Chronicles: the variables, constraints, conditions, effects and subtasks
//! that stand for a body over an interval of time.
use crate::planning::atom::AtomId;
use crate::planning::idset::{
    id_set_contains, id_set_contents, id_set_insert, id_set_new, id_set_remove, id_set_union,
    IdSet,
};
use crate::planning::lit::{Constraint, ConstraintModel, Lit, LitModel};
use vstd::prelude::*;

verus! {

/// An interval of time between two timepoints.
#[derive(Clone, Copy, Debug, PartialEq, Eq, Structural)]
pub struct Interval {
    pub start: AtomId,
    pub end: AtomId,
}

impl Interval {
    /// The timepoint at which the interval starts.
    pub open spec fn first(self) -> AtomId {
        self.start
    }

    /// The timepoint at which the interval ends.
    pub open spec fn last(self) -> AtomId {
        self.end
    }

    /// The interval from `start` to `end`.
    pub fn new(start: &AtomId, end: &AtomId) -> (i: Self)
        ensures
            i.first() == *start,
            i.last() == *end,
    {
        Self { start: *start, end: *end }
    }

    /// The timepoint at which the interval starts.
    pub fn start(&self) -> (a: AtomId)
        ensures
            a == self.first(),
    {
        self.start
    }

    /// The timepoint at which the interval ends.
    pub fn end(&self) -> (a: AtomId)
        ensures
            a == self.last(),
    {
        self.end
    }
}

/// An assignment: a variable and the value that it takes.
#[derive(Debug)]
pub struct Transition {
    variable: Lit,
    value: Lit,
}

impl Transition {
    /// The variable that is assigned.
    pub closed spec fn variable(self) -> LitModel {
        self.variable@
    }

    /// The value that the variable takes.
    pub closed spec fn value(self) -> LitModel {
        self.value@
    }

    /// The assignment of `val` to `var`.
    pub fn new(var: Lit, val: Lit) -> (t: Self)
        ensures
            t.variable() == var@,
            t.value() == val@,
    {
        Self { variable: var, value: val }
    }

    /// The variable that is assigned.
    pub fn get_variable(&self) -> (l: &Lit)
        ensures
            l@ == self.variable(),
    {
        &self.variable
    }

    /// The value that the variable takes.
    pub fn get_value(&self) -> (l: &Lit)
        ensures
            l@ == self.value(),
    {
        &self.value
    }
}

impl Clone for Transition {
    fn clone(&self) -> (r: Self)
        ensures
            r.variable() == self.variable(),
            r.value() == self.value(),
    {
        Transition { variable: self.variable.clone(), value: self.value.clone() }
    }
}

/// A constraint that has to hold over an interval.
#[derive(Debug)]
pub struct Condition {
    pub interval: Interval,
    pub constraint: Constraint,
}

/// An assignment that takes place over an interval.
#[derive(Debug)]
pub struct Effect {
    pub interval: Interval,
    pub transition: Transition,
}

/// A literal that is evaluated over an interval.
#[derive(Debug)]
pub struct Expression {
    pub interval: Interval,
    pub lit: Lit,
}

/// A condition, as contracts see it.
pub struct ConditionModel {
    pub interval: Interval,
    pub constraint: ConstraintModel,
}

/// An effect, as contracts see it.
pub struct EffectModel {
    pub interval: Interval,
    pub variable: LitModel,
    pub value: LitModel,
}

/// An expression, as contracts see it.
pub struct ExpressionModel {
    pub interval: Interval,
    pub lit: LitModel,
}

impl View for Condition {
    type V = ConditionModel;

    open spec fn view(&self) -> ConditionModel {
        ConditionModel { interval: self.interval, constraint: self.constraint@ }
    }
}

impl View for Effect {
    type V = EffectModel;

    open spec fn view(&self) -> EffectModel {
        EffectModel {
            interval: self.interval,
            variable: self.transition.variable(),
            value: self.transition.value(),
        }
    }
}

impl View for Expression {
    type V = ExpressionModel;

    open spec fn view(&self) -> ExpressionModel {
        ExpressionModel { interval: self.interval, lit: self.lit@ }
    }
}

impl Effect {
    /// The timepoint at which the effect starts.
    pub fn get_start(&self) -> (a: AtomId)
        ensures
            a == self.interval.first(),
    {
        self.interval.start()
    }

    /// The timepoint at which the effect ends.
    pub fn get_end(&self) -> (a: AtomId)
        ensures
            a == self.interval.last(),
    {
        self.interval.end()
    }
}

/// What can take in another value of its kind.
pub trait Absorb: Sized {
    /// Takes in what `other` holds.
    fn absorb(&mut self, other: Self);
}

/// The sequence `s` without the item at each place of `indexes`, taken out
/// from the last place of `indexes` to the first.
pub open spec fn without_places<T>(s: Seq<T>, indexes: Seq<usize>) -> Seq<T>
    decreases indexes.len(),
{
    if indexes.len() == 0 {
        s
    } else {
        without_places(s.remove(indexes.last() as int), indexes.drop_last())
    }
}

/// Tells whether each place of `indexes` exists at the time at which its item
/// is taken out of a sequence of `len` items.
pub open spec fn places_exist(len: nat, indexes: Seq<usize>) -> bool
    decreases indexes.len(),
{
    if indexes.len() == 0 {
        true
    } else {
        indexes.last() < len && places_exist((len - 1) as nat, indexes.drop_last())
    }
}

/// The models of a sequence of conditions.
pub open spec fn condition_models(s: Seq<Condition>) -> Seq<ConditionModel> {
    Seq::new(s.len(), |i: int| s[i]@)
}

/// The models of a sequence of effects.
pub open spec fn effect_models(s: Seq<Effect>) -> Seq<EffectModel> {
    Seq::new(s.len(), |i: int| s[i]@)
}

/// The models of a sequence of expressions.
pub open spec fn expression_models(s: Seq<Expression>) -> Seq<ExpressionModel> {
    Seq::new(s.len(), |i: int| s[i]@)
}

/// The part of a chronicle that an expression contributes.
pub struct PartialChronicle {
    variables: IdSet,
    constraints: Vec<Constraint>,
    conditions: Vec<Condition>,
    effects: Vec<Effect>,
    subtasks: Vec<Expression>,
}

/// A partial chronicle, as contracts see it.
pub struct PartialChronicleModel {
    pub variables: Set<AtomId>,
    pub constraints: Seq<ConstraintModel>,
    pub conditions: Seq<ConditionModel>,
    pub effects: Seq<EffectModel>,
    pub subtasks: Seq<ExpressionModel>,
}

impl PartialChronicleModel {
    /// The chronicle that holds nothing.
    pub open spec fn empty() -> PartialChronicleModel {
        PartialChronicleModel {
            variables: Set::empty(),
            constraints: Seq::empty(),
            conditions: Seq::empty(),
            effects: Seq::empty(),
            subtasks: Seq::empty(),
        }
    }

    /// The chronicle once it has taken in `other`: the variables of both,
    /// and the constraints, conditions, effects and subtasks of `other` behind
    /// its own.
    pub open spec fn absorb(self, other: PartialChronicleModel) -> PartialChronicleModel {
        PartialChronicleModel {
            variables: self.variables.union(other.variables),
            constraints: self.constraints + other.constraints,
            conditions: self.conditions + other.conditions,
            effects: self.effects + other.effects,
            subtasks: self.subtasks + other.subtasks,
        }
    }
}

impl View for PartialChronicle {
    type V = PartialChronicleModel;

    closed spec fn view(&self) -> PartialChronicleModel {
        PartialChronicleModel {
            variables: id_set_contents(self.variables),
            constraints: crate::planning::lit::constraint_models(self.constraints@),
            conditions: condition_models(self.conditions@),
            effects: effect_models(self.effects@),
            subtasks: expression_models(self.subtasks@),
        }
    }
}

impl Default for PartialChronicle {
    fn default() -> (r: Self)
        ensures
            r@ == PartialChronicleModel::empty(),
    {
        let r = PartialChronicle {
            variables: id_set_new(),
            constraints: Vec::new(),
            conditions: Vec::new(),
            effects: Vec::new(),
            subtasks: Vec::new(),
        };
        assert(r@.constraints =~= Seq::empty());
        assert(r@.conditions =~= Seq::empty());
        assert(r@.effects =~= Seq::empty());
        assert(r@.subtasks =~= Seq::empty());
        r
    }
}

impl PartialChronicle {
    /// Takes the variable `sym_id` out.
    pub fn rm_var(&mut self, sym_id: &AtomId)
        ensures
            final(self)@ == (PartialChronicleModel {
                variables: old(self)@.variables.remove(*sym_id),
                ..old(self)@
            }),
    {
        id_set_remove(&mut self.variables, *sym_id);
    }

    /// Takes the variables of `ids` out.
    pub fn rm_set_var(&mut self, ids: Vec<AtomId>)
        ensures
            final(self)@ == (PartialChronicleModel {
                variables: old(self)@.variables.difference(ids@.to_set()),
                ..old(self)@
            }),
    {
        let mut i: usize = 0;
        proof {
            assert(ids@.take(0).to_set() =~= Set::<usize>::empty());
            assert(self@.variables.difference(Set::<usize>::empty()) =~= self@.variables);
        }
        while i < ids.len()
            invariant
                i <= ids.len(),
                self@ == (PartialChronicleModel {
                    variables: old(self)@.variables.difference(ids@.take(i as int).to_set()),
                    ..old(self)@
                }),
            decreases ids.len() - i,
        {
            proof {
                let a = ids@.take(i as int);
                let b = ids@.take(i as int + 1);
                assert(b =~= a.push(ids@[i as int]));
                assert(old(self)@.variables.difference(a.to_set()).remove(ids@[i as int])
                    =~= old(self)@.variables.difference(b.to_set())) by {
                    assert forall|x: usize|
                        old(self)@.variables.difference(a.to_set()).remove(
                            ids@[i as int],
                        ).contains(x) <==> old(self)@.variables.difference(b.to_set()).contains(
                            x,
                        ) by {
                        if b.contains(x) {
                            let k = choose|k: int| 0 <= k < b.len() && b[k] == x;
                            if k < a.len() {
                                assert(a[k] == x);
                            }
                        }
                        if a.contains(x) {
                            let k = choose|k: int| 0 <= k < a.len() && a[k] == x;
                            assert(b[k] == x);
                        }
                        if x == ids@[i as int] {
                            assert(b[a.len() as int] == x);
                        }
                    }
                }
            }
            self.rm_var(&ids[i]);
            i += 1;
        }
        assert(ids@.take(ids@.len() as int) =~= ids@);
    }

    /// Takes the constraint at place `index` out.
    pub fn rm_constraint(&mut self, index: usize)
        requires
            index < old(self)@.constraints.len(),
        ensures
            final(self)@ == (PartialChronicleModel {
                constraints: old(self)@.constraints.remove(index as int),
                ..old(self)@
            }),
    {
        let _ = self.constraints.remove(index);
        assert(self@.constraints =~= old(self)@.constraints.remove(index as int));
    }

    /// Takes the constraints at the places of `indexes` out, from the last
    /// place of `indexes` to the first.
    pub fn rm_set_constraint(&mut self, indexes: Vec<usize>)
        requires
            places_exist(old(self)@.constraints.len(), indexes@),
        ensures
            final(self)@ == (PartialChronicleModel {
                constraints: without_places(old(self)@.constraints, indexes@),
                ..old(self)@
            }),
    {
        let mut i: usize = indexes.len();
        assert(indexes@.take(i as int) =~= indexes@);
        while i > 0
            invariant
                i <= indexes.len(),
                places_exist(self@.constraints.len(), indexes@.take(i as int)),
                without_places(self@.constraints, indexes@.take(i as int)) == without_places(
                    old(self)@.constraints,
                    indexes@,
                ),
                self@ == (PartialChronicleModel { constraints: self@.constraints, ..old(self)@ }),
            decreases i,
        {
            proof {
                assert(indexes@.take(i as int).drop_last() =~= indexes@.take(i as int - 1));
                assert(indexes@.take(i as int).last() == indexes@[i as int - 1]);
            }
            i -= 1;
            self.rm_constraint(indexes[i]);
        }
        proof {
            assert(indexes@.take(0).len() == 0);
        }
    }

    /// Adds the variable `sym_id`.
    pub fn add_var(&mut self, sym_id: &AtomId)
        ensures
            final(self)@ == (PartialChronicleModel {
                variables: old(self)@.variables.insert(*sym_id),
                ..old(self)@
            }),
    {
        id_set_insert(&mut self.variables, *sym_id);
    }

    /// Tells whether `sym_id` is a variable of the chronicle.
    pub fn has_var(&self, sym_id: &AtomId) -> (b: bool)
        ensures
            b == self@.variables.contains(*sym_id),
    {
        id_set_contains(&self.variables, *sym_id)
    }

    /// Adds the two timepoints of `interval` to the variables.
    pub fn add_interval(&mut self, interval: &Interval)
        ensures
            final(self)@ == (PartialChronicleModel {
                variables: old(self)@.variables.insert(interval.first()).insert(interval.last()),
                ..old(self)@
            }),
    {
        id_set_insert(&mut self.variables, interval.start());
        id_set_insert(&mut self.variables, interval.end());
    }

    /// Adds a constraint behind those that are there.
    pub fn add_constraint(&mut self, constraint: Constraint)
        ensures
            final(self)@ == (PartialChronicleModel {
                constraints: old(self)@.constraints.push(constraint@),
                ..old(self)@
            }),
    {
        self.constraints.push(constraint);
        assert(self@.constraints =~= old(self)@.constraints.push(constraint@));
    }

    /// Adds a condition behind those that are there.
    pub fn add_condition(&mut self, cond: Condition)
        ensures
            final(self)@ == (PartialChronicleModel {
                conditions: old(self)@.conditions.push(cond@),
                ..old(self)@
            }),
    {
        self.conditions.push(cond);
        assert(self@.conditions =~= old(self)@.conditions.push(cond@));
    }

    /// Adds an effect behind those that are there.
    pub fn add_effect(&mut self, effect: Effect)
        ensures
            final(self)@ == (PartialChronicleModel {
                effects: old(self)@.effects.push(effect@),
                ..old(self)@
            }),
    {
        self.effects.push(effect);
        assert(self@.effects =~= old(self)@.effects.push(effect@));
    }

    /// Adds a subtask behind those that are there.
    pub fn add_subtask(&mut self, sub_task: Expression)
        ensures
            final(self)@ == (PartialChronicleModel {
                subtasks: old(self)@.subtasks.push(sub_task@),
                ..old(self)@
            }),
    {
        self.subtasks.push(sub_task);
        assert(self@.subtasks =~= old(self)@.subtasks.push(sub_task@));
    }

    /// The constraints.
    pub fn get_constraints(&self) -> (c: &Vec<Constraint>)
        ensures
            crate::planning::lit::constraint_models(c@) == self@.constraints,
    {
        &self.constraints
    }

    /// The variables.
    pub fn get_variables(&self) -> (v: &IdSet)
        ensures
            id_set_contents(*v) == self@.variables,
    {
        &self.variables
    }

    /// The conditions.
    pub fn get_conditions(&self) -> (c: &Vec<Condition>)
        ensures
            condition_models(c@) == self@.conditions,
    {
        &self.conditions
    }

    /// The effects.
    pub fn get_effects(&self) -> (c: &Vec<Effect>)
        ensures
            effect_models(c@) == self@.effects,
    {
        &self.effects
    }

    /// The subtasks.
    pub fn get_subtasks(&self) -> (c: &Vec<Expression>)
        ensures
            expression_models(c@) == self@.subtasks,
    {
        &self.subtasks
    }

    /// Takes in what `other` holds: its variables, and its constraints,
    /// conditions, effects and subtasks behind those that are there.
    pub fn absorb(&mut self, other: Self)
        ensures
            final(self)@ == old(self)@.absorb(other@),
    {
        let mut other = other;
        let mut mine = id_set_new();
        std::mem::swap(&mut self.variables, &mut mine);
        let mut theirs = id_set_new();
        std::mem::swap(&mut other.variables, &mut theirs);
        self.variables = id_set_union(mine, theirs);
        let ghost c0 = self.constraints@;
        let ghost c1 = other.constraints@;
        self.constraints.append(&mut other.constraints);
        assert(crate::planning::lit::constraint_models(self.constraints@)
            =~= crate::planning::lit::constraint_models(c0)
            + crate::planning::lit::constraint_models(c1));
        let ghost d0 = self.conditions@;
        let ghost d1 = other.conditions@;
        self.conditions.append(&mut other.conditions);
        assert(condition_models(self.conditions@) =~= condition_models(d0) + condition_models(d1));
        let ghost e0 = self.effects@;
        let ghost e1 = other.effects@;
        self.effects.append(&mut other.effects);
        assert(effect_models(self.effects@) =~= effect_models(e0) + effect_models(e1));
        let ghost s0 = self.subtasks@;
        let ghost s1 = other.subtasks@;
        self.subtasks.append(&mut other.subtasks);
        assert(expression_models(self.subtasks@) =~= expression_models(s0) + expression_models(
            s1,
        ));
    }
}

impl Absorb for PartialChronicle {
    fn absorb(&mut self, other: Self) {
        PartialChronicle::absorb(self, other)
    }
}

/// The result of an expression: the atom that stands for it, and the literal
/// that it is known to be when the expression is pure.
pub struct ExpressionChronicleResult {
    id: AtomId,
    pure: Option<Lit>,
}

impl ExpressionChronicleResult {
    /// The atom that stands for the result.
    pub closed spec fn id(self) -> AtomId {
        self.id
    }

    /// The literal that the result is known to be, if any.
    pub closed spec fn pure_lit(self) -> Option<LitModel> {
        match self.pure {
            Some(l) => Some(l@),
            None => None,
        }
    }

    /// The literal that stands for the result: what it is known to be, or
    /// else its atom.
    pub open spec fn lit(self) -> LitModel {
        match self.pure_lit() {
            Some(l) => l,
            None => LitModel::Atom(self.id()),
        }
    }

    /// A result that is not known, under the atom `id`.
    pub fn new(id: AtomId) -> (r: Self)
        ensures
            r.id() == id,
            r.pure_lit() is None,
    {
        ExpressionChronicleResult { id, pure: None }
    }

    /// The atom that stands for the result.
    pub fn get_id(&self) -> (a: &AtomId)
        ensures
            *a == self.id(),
    {
        &self.id
    }

    /// Records that the result is the literal `lit`.
    pub fn set_pure(&mut self, lit: Lit)
        ensures
            final(self).id() == old(self).id(),
            final(self).pure_lit() == Some(lit@),
    {
        self.pure = Some(lit)
    }

    /// Tells whether the result is known.
    pub fn is_pure(&self) -> (b: bool)
        ensures
            b == self.pure_lit() is Some,
    {
        self.pure.is_some()
    }

    /// The literal that the result is known to be, if any.
    pub fn get_pure(&self) -> (l: &Option<Lit>)
        ensures
            l is Some <==> self.pure_lit() is Some,
            l matches Some(x) ==> Some(x@) == self.pure_lit(),
    {
        &self.pure
    }

    /// The literal that stands for the result.
    pub fn to_lit(&self) -> (l: Lit)
        ensures
            l@ == self.lit(),
    {
        match &self.pure {
            Some(lit) => lit.clone(),
            None => Lit::Atom(self.id),
        }
    }
}

impl Clone for ExpressionChronicleResult {
    fn clone(&self) -> (r: Self)
        ensures
            r.id() == self.id(),
            r.pure_lit() == self.pure_lit(),
    {
        ExpressionChronicleResult {
            id: self.id,
            pure: match &self.pure {
                Some(l) => Some(l.clone()),
                None => None,
            },
        }
    }
}

/// A planning problem. It holds nothing yet.
pub struct Problem {}

} // verus!
