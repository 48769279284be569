//! The chronicle of one expression, and whole chronicles of methods, tasks
//! and commands.
use crate::lvalue::{LValue, Sexp};
use crate::planning::atom::AtomId;
use crate::planning::chronicle::{
    Condition, Effect, Expression, ExpressionChronicleResult, Interval, PartialChronicle,
    PartialChronicleModel,
};
use crate::planning::idset::{id_set_contents, IdSet};
use crate::planning::lit::{
    constraint_models, lemma_exp_model, lit_models, Constraint, ConstraintModel, Lit, LitModel,
};
use crate::planning::sym_table::SymTable;
use vstd::prelude::*;

verus! {

/// The chronicle of one expression: the interval over which it is
/// evaluated, the atom of its result, and what it contributes.
pub struct ExpressionChronicle {
    interval: Interval,
    result: ExpressionChronicleResult,
    partial_chronicle: PartialChronicle,
    value: Lit,
    debug: LValue,
}

/// The chronicle of an expression, as contracts see it.
pub struct ExpressionChronicleModel {
    pub interval: Interval,
    pub result_id: AtomId,
    pub pure_result: Option<LitModel>,
    pub partial: PartialChronicleModel,
    pub value: LitModel,
    pub debug: Sexp,
}

impl ExpressionChronicleModel {
    /// The literal that stands for the result: what it is known to be, or
    /// else its atom.
    pub open spec fn result(self) -> LitModel {
        match self.pure_result {
            Some(l) => l,
            None => LitModel::Atom(self.result_id),
        }
    }

    /// The chronicle of an expression that has just been opened over
    /// `interval` with the result `result_id`: its one constraint says that
    /// the interval does not end before it starts.
    pub open spec fn opened(interval: Interval, result_id: AtomId, debug: Sexp) -> ExpressionChronicleModel {
        ExpressionChronicleModel {
            interval,
            result_id,
            pure_result: None,
            partial: PartialChronicleModel {
                constraints: seq![
                    ConstraintModel::LEq(
                        LitModel::Atom(interval.first()),
                        LitModel::Atom(interval.last()),
                    ),
                ],
                ..PartialChronicleModel::empty()
            },
            value: LitModel::Exp(Seq::empty()),
            debug,
        }
    }

    /// The chronicle once it has taken in `other`: what `other`
    /// contributes, the two timepoints of its interval and the atom of its
    /// result.
    pub open spec fn absorb(self, other: ExpressionChronicleModel) -> ExpressionChronicleModel {
        let merged = self.partial.absorb(other.partial);
        ExpressionChronicleModel {
            partial: PartialChronicleModel {
                variables: merged.variables.insert(other.interval.first()).insert(
                    other.interval.last(),
                ).insert(other.result_id),
                ..merged
            },
            ..self
        }
    }

    /// The chronicle once the constraint `c` has been added.
    pub open spec fn with_constraint(self, c: ConstraintModel) -> ExpressionChronicleModel {
        ExpressionChronicleModel {
            partial: PartialChronicleModel {
                constraints: self.partial.constraints.push(c),
                ..self.partial
            },
            ..self
        }
    }

    /// The chronicle once the result is known to be `l`.
    pub open spec fn with_pure_result(self, l: LitModel) -> ExpressionChronicleModel {
        ExpressionChronicleModel { pure_result: Some(l), ..self }
    }

    /// The chronicle once the effect that assigns `value` to `variable`
    /// over its own interval has been added.
    pub open spec fn with_effect(self, variable: LitModel, value: LitModel) -> ExpressionChronicleModel {
        ExpressionChronicleModel {
            partial: PartialChronicleModel {
                effects: self.partial.effects.push(
                    crate::planning::chronicle::EffectModel {
                        interval: self.interval,
                        variable,
                        value,
                    },
                ),
                ..self.partial
            },
            ..self
        }
    }

    /// The chronicle once the subtask `lit` over its own interval has been
    /// added.
    pub open spec fn with_subtask(self, lit: LitModel) -> ExpressionChronicleModel {
        ExpressionChronicleModel {
            partial: PartialChronicleModel {
                subtasks: self.partial.subtasks.push(
                    crate::planning::chronicle::ExpressionModel { interval: self.interval, lit },
                ),
                ..self.partial
            },
            ..self
        }
    }
}

impl View for ExpressionChronicle {
    type V = ExpressionChronicleModel;

    closed spec fn view(&self) -> ExpressionChronicleModel {
        ExpressionChronicleModel {
            interval: self.interval,
            result_id: self.result.id(),
            pure_result: self.result.pure_lit(),
            partial: self.partial_chronicle@,
            value: self.value@,
            debug: self.debug@,
        }
    }
}

impl ExpressionChronicle {
    /// Opens the chronicle of the expression `lv`: declares its interval and
    /// its result in the symbol table, and constrains the interval not to end
    /// before it starts.
    pub fn new(lv: LValue, st: &mut SymTable) -> (ec: Self)
        requires
            old(st).wf(),
            old(st).has_room(2),
        ensures
            final(st).wf(),
            final(st)@ == old(st)@.with_timepoint().with_timepoint().with_result(),
            ec@.interval.first() == old(st)@.atoms.len(),
            ec@.interval.last() == old(st)@.atoms.len() + 1,
            ec@.result_id == old(st)@.atoms.len() + 2,
            ec@ == ExpressionChronicleModel::opened(ec@.interval, ec@.result_id, lv@),
    {
        let interval = st.declare_new_interval();
        let result = st.declare_new_result();
        let v: Vec<Lit> = Vec::new();
        proof {
            lemma_exp_model(v);
            assert(lit_models(v@) =~= Seq::<LitModel>::empty());
        }
        let mut ec = Self {
            interval,
            result,
            partial_chronicle: PartialChronicle::default(),
            value: Lit::Exp(v),
            debug: lv,
        };
        ec.add_constraint(Constraint::LEq(Lit::Atom(interval.start()), Lit::Atom(interval.end())));
        proof {
            assert(ec@.partial.constraints =~= seq![
                ConstraintModel::LEq(
                    LitModel::Atom(interval.first()),
                    LitModel::Atom(interval.last()),
                ),
            ]);
        }
        ec
    }

    /// Sets the literal of the expression.
    pub fn set_lit(&mut self, lit: Lit)
        ensures
            final(self)@ == (ExpressionChronicleModel { value: lit@, ..old(self)@ }),
    {
        self.value = lit;
    }

    /// The literal of the expression.
    pub fn get_lit(&self) -> (l: Lit)
        ensures
            l@ == self@.value,
    {
        self.value.clone()
    }

    /// The interval over which the expression is evaluated.
    pub fn get_interval(&self) -> (i: &Interval)
        ensures
            *i == self@.interval,
    {
        &self.interval
    }

    /// The literal that stands for the result.
    pub fn get_result(&self) -> (l: Lit)
        ensures
            l@ == self@.result(),
    {
        self.result.to_lit()
    }

    /// Tells whether the result is known.
    pub fn is_result_pure(&self) -> (b: bool)
        ensures
            b == self@.pure_result is Some,
    {
        self.result.is_pure()
    }

    /// The atom of the result.
    pub fn get_result_id(&self) -> (a: &AtomId)
        ensures
            *a == self@.result_id,
    {
        self.result.get_id()
    }

    /// Records that the result is the literal `result`.
    pub fn set_pure_result(&mut self, result: Lit)
        ensures
            final(self)@ == old(self)@.with_pure_result(result@),
    {
        self.result.set_pure(result)
    }

    /// The constraints.
    pub fn get_constraints(&self) -> (c: &Vec<Constraint>)
        ensures
            constraint_models(c@) == self@.partial.constraints,
    {
        self.partial_chronicle.get_constraints()
    }

    /// The variables.
    pub fn get_variables(&self) -> (v: &IdSet)
        ensures
            id_set_contents(*v) == self@.partial.variables,
    {
        self.partial_chronicle.get_variables()
    }

    /// What the expression contributes.
    pub fn get_partial_chronicle(&self) -> (p: &PartialChronicle)
        ensures
            p@ == self@.partial,
    {
        &self.partial_chronicle
    }

    /// Takes the variable `sym_id` out.
    pub fn rm_var(&mut self, sym_id: &AtomId)
        ensures
            final(self)@ == (ExpressionChronicleModel {
                partial: PartialChronicleModel {
                    variables: old(self)@.partial.variables.remove(*sym_id),
                    ..old(self)@.partial
                },
                ..old(self)@
            }),
    {
        self.partial_chronicle.rm_var(sym_id);
    }

    /// Takes the variables of `ids` out.
    pub fn rm_set_var(&mut self, ids: Vec<AtomId>)
        ensures
            final(self)@ == (ExpressionChronicleModel {
                partial: PartialChronicleModel {
                    variables: old(self)@.partial.variables.difference(ids@.to_set()),
                    ..old(self)@.partial
                },
                ..old(self)@
            }),
    {
        self.partial_chronicle.rm_set_var(ids)
    }

    /// Takes the constraint at place `index` out.
    pub fn rm_constraint(&mut self, index: usize)
        requires
            index < old(self)@.partial.constraints.len(),
        ensures
            final(self)@ == (ExpressionChronicleModel {
                partial: PartialChronicleModel {
                    constraints: old(self)@.partial.constraints.remove(index as int),
                    ..old(self)@.partial
                },
                ..old(self)@
            }),
    {
        self.partial_chronicle.rm_constraint(index);
    }

    /// Takes the constraints at the places of `indexes` out, from the last
    /// place of `indexes` to the first.
    pub fn rm_set_constraint(&mut self, indexes: Vec<usize>)
        requires
            crate::planning::chronicle::places_exist(
                old(self)@.partial.constraints.len(),
                indexes@,
            ),
        ensures
            final(self)@ == (ExpressionChronicleModel {
                partial: PartialChronicleModel {
                    constraints: crate::planning::chronicle::without_places(
                        old(self)@.partial.constraints,
                        indexes@,
                    ),
                    ..old(self)@.partial
                },
                ..old(self)@
            }),
    {
        self.partial_chronicle.rm_set_constraint(indexes)
    }

    /// Adds the variable `sym_id`.
    pub fn add_var(&mut self, sym_id: &AtomId)
        ensures
            final(self)@ == (ExpressionChronicleModel {
                partial: PartialChronicleModel {
                    variables: old(self)@.partial.variables.insert(*sym_id),
                    ..old(self)@.partial
                },
                ..old(self)@
            }),
    {
        self.partial_chronicle.add_var(sym_id);
    }

    /// Adds the two timepoints of `interval` to the variables.
    pub fn add_interval(&mut self, interval: &Interval)
        ensures
            final(self)@ == (ExpressionChronicleModel {
                partial: PartialChronicleModel {
                    variables: old(self)@.partial.variables.insert(interval.first()).insert(
                        interval.last(),
                    ),
                    ..old(self)@.partial
                },
                ..old(self)@
            }),
    {
        self.partial_chronicle.add_interval(interval);
    }

    /// Adds a constraint behind those that are there.
    pub fn add_constraint(&mut self, constraint: Constraint)
        ensures
            final(self)@ == old(self)@.with_constraint(constraint@),
    {
        self.partial_chronicle.add_constraint(constraint);
    }

    /// Adds a condition behind those that are there.
    pub fn add_condition(&mut self, cond: Condition)
        ensures
            final(self)@ == (ExpressionChronicleModel {
                partial: PartialChronicleModel {
                    conditions: old(self)@.partial.conditions.push(cond@),
                    ..old(self)@.partial
                },
                ..old(self)@
            }),
    {
        self.partial_chronicle.add_condition(cond)
    }

    /// Adds an effect behind those that are there.
    pub fn add_effect(&mut self, effect: Effect)
        ensures
            final(self)@ == (ExpressionChronicleModel {
                partial: PartialChronicleModel {
                    effects: old(self)@.partial.effects.push(effect@),
                    ..old(self)@.partial
                },
                ..old(self)@
            }),
    {
        self.partial_chronicle.add_effect(effect)
    }

    /// Adds a subtask behind those that are there.
    pub fn add_subtask(&mut self, sub_task: Expression)
        ensures
            final(self)@ == (ExpressionChronicleModel {
                partial: PartialChronicleModel {
                    subtasks: old(self)@.partial.subtasks.push(sub_task@),
                    ..old(self)@.partial
                },
                ..old(self)@
            }),
    {
        self.partial_chronicle.add_subtask(sub_task)
    }

    /// Takes in what `other` contributes, the two timepoints of its
    /// interval and the atom of its result.
    pub fn absorb(&mut self, other: Self)
        ensures
            final(self)@ == old(self)@.absorb(other@),
    {
        let interval = other.interval;
        let id = *other.result.get_id();
        self.partial_chronicle.absorb(other.partial_chronicle);
        self.partial_chronicle.add_interval(&interval);
        self.partial_chronicle.add_var(&id);
    }
}

impl crate::planning::chronicle::Absorb for ExpressionChronicle {
    fn absorb(&mut self, other: Self) {
        ExpressionChronicle::absorb(self, other)
    }
}

/// The chronicle of a method, of a task or of a command.
pub struct Chronicle {
    name: Lit,
    task: Lit,
    partial_chronicle: PartialChronicle,
    debug: Option<LValue>,
}

/// A chronicle, as contracts see it.
pub struct ChronicleModel {
    pub name: LitModel,
    pub task: LitModel,
    pub partial: PartialChronicleModel,
    pub debug: Option<Sexp>,
}

impl View for Chronicle {
    type V = ChronicleModel;

    closed spec fn view(&self) -> ChronicleModel {
        ChronicleModel {
            name: self.name@,
            task: self.task@,
            partial: self.partial_chronicle@,
            debug: match self.debug {
                Some(d) => Some(d@),
                None => None,
            },
        }
    }
}

impl Default for Chronicle {
    fn default() -> (c: Self)
        ensures
            c@ == (ChronicleModel {
                name: LitModel::Exp(Seq::empty()),
                task: LitModel::Exp(Seq::empty()),
                partial: PartialChronicleModel::empty(),
                debug: None,
            }),
    {
        Chronicle {
            name: Lit::default(),
            task: Lit::default(),
            partial_chronicle: PartialChronicle::default(),
            debug: None,
        }
    }
}

impl Chronicle {
    /// Sets the expression that the chronicle stands for.
    pub fn set_debug(&mut self, debug: Option<LValue>)
        ensures
            final(self)@ == (ChronicleModel {
                debug: match debug {
                    Some(d) => Some(d@),
                    None => None,
                },
                ..old(self)@
            }),
    {
        self.debug = debug;
    }

    /// Takes in the chronicle of an expression: what it contributes, the
    /// atom of its result and the two timepoints of its interval.
    pub fn absorb_expression_chronicle(&mut self, ec: ExpressionChronicle)
        ensures
            final(self)@ == (ChronicleModel {
                partial: PartialChronicleModel {
                    variables: old(self)@.partial.absorb(ec@.partial).variables.insert(
                        ec@.result_id,
                    ).insert(ec@.interval.first()).insert(ec@.interval.last()),
                    ..old(self)@.partial.absorb(ec@.partial)
                },
                ..old(self)@
            }),
    {
        let interval = ec.interval;
        let id = *ec.result.get_id();
        self.partial_chronicle.absorb(ec.partial_chronicle);
        self.add_var(&id);
        self.add_interval(&interval);
    }

    /// Adds the variable `sym_id`.
    pub fn add_var(&mut self, sym_id: &AtomId)
        ensures
            final(self)@ == (ChronicleModel {
                partial: PartialChronicleModel {
                    variables: old(self)@.partial.variables.insert(*sym_id),
                    ..old(self)@.partial
                },
                ..old(self)@
            }),
    {
        self.partial_chronicle.add_var(sym_id);
    }

    /// Adds the two timepoints of `interval` to the variables.
    pub fn add_interval(&mut self, interval: &Interval)
        ensures
            final(self)@ == (ChronicleModel {
                partial: PartialChronicleModel {
                    variables: old(self)@.partial.variables.insert(interval.first()).insert(
                        interval.last(),
                    ),
                    ..old(self)@.partial
                },
                ..old(self)@
            }),
    {
        self.partial_chronicle.add_interval(interval);
    }

    /// Adds a constraint behind those that are there.
    pub fn add_constraint(&mut self, constraint: Constraint)
        ensures
            final(self)@ == (ChronicleModel {
                partial: PartialChronicleModel {
                    constraints: old(self)@.partial.constraints.push(constraint@),
                    ..old(self)@.partial
                },
                ..old(self)@
            }),
    {
        self.partial_chronicle.add_constraint(constraint);
    }

    /// Adds a condition behind those that are there.
    pub fn add_condition(&mut self, cond: Condition)
        ensures
            final(self)@ == (ChronicleModel {
                partial: PartialChronicleModel {
                    conditions: old(self)@.partial.conditions.push(cond@),
                    ..old(self)@.partial
                },
                ..old(self)@
            }),
    {
        self.partial_chronicle.add_condition(cond)
    }

    /// Adds an effect behind those that are there.
    pub fn add_effect(&mut self, effect: Effect)
        ensures
            final(self)@ == (ChronicleModel {
                partial: PartialChronicleModel {
                    effects: old(self)@.partial.effects.push(effect@),
                    ..old(self)@.partial
                },
                ..old(self)@
            }),
    {
        self.partial_chronicle.add_effect(effect)
    }

    /// Adds a subtask behind those that are there.
    pub fn add_subtask(&mut self, sub_task: Expression)
        ensures
            final(self)@ == (ChronicleModel {
                partial: PartialChronicleModel {
                    subtasks: old(self)@.partial.subtasks.push(sub_task@),
                    ..old(self)@.partial
                },
                ..old(self)@
            }),
    {
        self.partial_chronicle.add_subtask(sub_task)
    }

    /// Sets the name of the chronicle.
    pub fn set_name(&mut self, name: Lit)
        ensures
            final(self)@ == (ChronicleModel { name: name@, ..old(self)@ }),
    {
        self.name = name;
    }

    /// Sets the task that the chronicle achieves.
    pub fn set_task(&mut self, task: Lit)
        ensures
            final(self)@ == (ChronicleModel { task: task@, ..old(self)@ }),
    {
        self.task = task;
    }

    /// The name of the chronicle.
    pub fn get_name(&self) -> (l: &Lit)
        ensures
            l@ == self@.name,
    {
        &self.name
    }

    /// The task that the chronicle achieves.
    pub fn get_task(&self) -> (l: &Lit)
        ensures
            l@ == self@.task,
    {
        &self.task
    }

    /// The expression that the chronicle stands for, if it is known.
    pub fn get_debug(&self) -> (d: Option<&LValue>)
        ensures
            match d {
                Some(v) => self@.debug == Some(v@),
                None => self@.debug is None,
            },
    {
        self.debug.as_ref()
    }

    /// What the chronicle holds.
    pub fn get_partial_chronicle(&self) -> (p: &PartialChronicle)
        ensures
            p@ == self@.partial,
    {
        &self.partial_chronicle
    }
}

/// The chronicles of a planning domain.
pub struct Domain {
    actions: Vec<Chronicle>,
    tasks: Vec<Lit>,
    methods: Vec<Chronicle>,
}

impl Domain {
    /// The chronicles of the actions.
    pub closed spec fn actions(self) -> Seq<Chronicle> {
        self.actions@
    }

    /// The tasks.
    pub closed spec fn tasks(self) -> Seq<Lit> {
        self.tasks@
    }

    /// The chronicles of the methods.
    pub closed spec fn methods(self) -> Seq<Chronicle> {
        self.methods@
    }

    /// A domain made of its parts.
    pub fn new(actions: Vec<Chronicle>, tasks: Vec<Lit>, methods: Vec<Chronicle>) -> (d: Self)
        ensures
            d.actions() == actions@,
            d.tasks() == tasks@,
            d.methods() == methods@,
    {
        Self { actions, tasks, methods }
    }
}

} // verus!
