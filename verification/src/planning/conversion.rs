//! The conversion of the body of a method, a task or a command into the
//! chronicle of an expression.
//!
//! Every expression gets an interval and a result. The intervals of the
//! parts of an expression follow one another, a definition binds its value
//! to a new version of its symbol, an assertion becomes an effect, the call
//! of a task or of an action becomes a subtask, and the call of a state
//! function or of any other function becomes the effect that assigns what
//! it gives to the result.
use crate::lvalue::{
    clone_string, lemma_list_model, models, string_views, LCoreOperator, LValue, Sexp,
};
use crate::planning::atom::{Atom, AtomId, AtomModel, AtomType, ExpressionType};
use crate::planning::chronicle::{
    Effect, Expression, ExpressionModel, Interval, PartialChronicleModel, Transition,
};
use crate::planning::expression_chronicle::{
    Chronicle, ExpressionChronicle, ExpressionChronicleModel,
};
use crate::planning::lit::{lemma_exp_model, lit_models, Constraint, ConstraintModel, Lit, LitModel};
use crate::planning::sym_table::{SymTable, SymTableModel};
use vstd::prelude::*;

verus! {

pub const ASSERT: &'static str = "assert";

pub const ASSERT_SHORT: &'static str = "+>";

pub const RETRACT: &'static str = "retract";

pub const RETRACT_SHORT: &'static str = "->";

pub const INSTANCE: &'static str = "instance";

pub const EVAL: &'static str = "eval";

/// Why an expression cannot be converted.
#[derive(Clone, Copy, Debug, PartialEq, Eq, Structural)]
pub enum ConversionError {
    /// The symbol table cannot hold the atoms that the expression needs.
    Full,
    /// A list without items is no expression.
    EmptyExpression,
    /// An operator or an assertion has not the number of arguments that it
    /// takes.
    WrongNumberOfArguments,
    /// The first argument of a definition is no symbol.
    DefineNeedsSymbol,
    /// The operator is not converted.
    UnsupportedOperator,
    /// Retractions are not converted.
    RetractNotSupported,
    /// A method is called where its task should be.
    MethodCalledDirectly,
    /// The symbol stands for nothing that can be called.
    NotCallable,
    /// The function is not declared in the symbol table.
    UndefinedFunction,
    /// The head of the expression is neither a symbol nor a function.
    UnsupportedHead,
    /// The value is of a kind that is not converted.
    UnsupportedValue,
    /// The lambda of a task, a method or a command has not the parameters
    /// that were declared.
    ParametersDiffer,
    /// The body of a method or the model of a command is no lambda.
    NotALambda,
    /// A label of the domain is a symbol of the table already.
    AlreadyDeclared,
    /// The expression is no conditional.
    NotAConditional,
}

/// The atoms that one step of a conversion adds at most, outside of the parts
/// of the expression.
pub const STEP_ROOM: usize = 8;

/// What a conversion gave: the symbol table afterwards, and the chronicle or
/// the reason why there is none.
pub struct Converted<T> {
    pub st: SymTableModel,
    pub result: Result<T, ConversionError>,
}

/// What a conversion adds to, as contracts see it: the symbol table, and the
/// tasks and methods that conversions made up.
pub struct HierarchyModel {
    pub st: SymTableModel,
    pub tasks: Seq<LitModel>,
    pub methods: Seq<crate::planning::expression_chronicle::ChronicleModel>,
}

/// What the conversion of an expression gave: the hierarchy afterwards, and
/// the chronicle or the reason why there is none.
pub struct Outcome<T> {
    pub st: HierarchyModel,
    pub result: Result<T, ConversionError>,
}

impl HierarchyModel {
    /// The hierarchy with another symbol table.
    pub open spec fn on(self, st: SymTableModel) -> HierarchyModel {
        HierarchyModel { st, ..self }
    }
}

/// Tells whether `s` is a value that stands for itself.
pub open spec fn is_literal(s: Sexp) -> bool {
    s is Nil || s is True || s is Number || s is Text || s is Character
}

/// The literal of a value: the atom of a boolean or of a number, the symbol
/// of its printed form for any other value, and the literals of the items of
/// a list.
pub open spec fn lit_of(s: Sexp, st: SymTableModel) -> Converted<LitModel>
    decreases s, 0nat,
{
    match s {
        Sexp::List(l) => lits_of(l, l.len(), st),
        _ => if !st.has_room(0) {
            Converted { st, result: Err(ConversionError::Full) }
        } else {
            match s {
                Sexp::Number(n) => Converted {
                    st: st.with_atom(AtomModel::Number(n), AtomType::Number),
                    result: Ok(LitModel::Atom(st.atoms.len() as AtomId)),
                },
                Sexp::True => Converted {
                    st: st.with_atom(AtomModel::Bool(true), AtomType::Boolean),
                    result: Ok(LitModel::Atom(st.atoms.len() as AtomId)),
                },
                Sexp::Nil => Converted {
                    st: st.with_atom(AtomModel::Bool(false), AtomType::Boolean),
                    result: Ok(LitModel::Atom(st.atoms.len() as AtomId)),
                },
                _ => Converted {
                    st: st.with_symbol(s.text()),
                    result: Ok(LitModel::Atom(st.symbol_id(s.text()))),
                },
            }
        },
    }
}

/// The literal of the first `n` items of a list, one after the other.
pub open spec fn lits_of(l: Seq<Sexp>, n: nat, st: SymTableModel) -> Converted<LitModel>
    decreases l, n,
{
    if n == 0 || n > l.len() {
        Converted { st, result: Ok(LitModel::Exp(Seq::empty())) }
    } else {
        let before = lits_of(l, (n - 1) as nat, st);
        match before.result {
            Err(e) => before,
            Ok(done) => {
                let item = lit_of(l[n - 1], before.st);
                match item.result {
                    Err(e) => item,
                    Ok(lit) => Converted {
                        st: item.st,
                        result: Ok(LitModel::Exp(done->Exp_0.push(lit))),
                    },
                }
            },
        }
    }
}

/// Tells whether `r` is the literal, or the error, that `c` gives.
pub open spec fn is_lit(r: Result<Lit, ConversionError>, c: Converted<LitModel>) -> bool {
    match c.result {
        Ok(l) => r matches Ok(x) && x@ == l,
        Err(e) => r matches Err(x) && x == e,
    }
}

/// The literal of a value.
pub fn lvalue_to_lit(lv: &LValue, st: &mut SymTable) -> (r: Result<Lit, ConversionError>)
    requires
        old(st).wf(),
    ensures
        final(st).wf(),
        final(st)@ == lit_of(lv@, old(st)@).st,
        is_lit(r, lit_of(lv@, old(st)@)),
    decreases *lv,
{
    match lv {
        LValue::List(list) => {
            proof {
                lemma_list_model(*list);
            }
            let ghost l = models(list@);
            let ghost st0 = st@;
            let mut vec: Vec<Lit> = Vec::new();
            let mut i: usize = 0;
            proof {
                lemma_exp_model(vec);
                assert(lit_models(vec@) =~= Seq::<LitModel>::empty());
            }
            while i < list.len()
                invariant
                    i <= list.len(),
                    l == models(list@),
                    lv@ == Sexp::List(l),
                    st0 == old(st)@,
                    st.wf(),
                    st@ == lits_of(l, i as nat, st0).st,
                    lits_of(l, i as nat, st0).result == Ok::<LitModel, ConversionError>(
                        LitModel::Exp(lit_models(vec@)),
                    ),
                    lv is List,
                    lv->List_0 == *list,
                decreases list.len() - i,
            {
                proof {
                    assert(decreases_to!(*lv => lv->List_0));
                    assert(l[i as int] == list@[i as int]@);
                }
                let ghost before = vec@;
                match lvalue_to_lit(&list[i], st) {
                    Ok(lit) => {
                        vec.push(lit);
                        assert(lit_models(vec@) =~= lit_models(before).push(lit@));
                    },
                    Err(e) => {
                        proof {
                            lemma_lits_stop(l, i as nat + 1, list@.len(), st0);
                        }
                        return Err(e);
                    },
                }
                i += 1;
            }
            proof {
                lemma_exp_model(vec);
            }
            Ok(Lit::Exp(vec))
        },
        other => {
            if st.n_atoms() >= usize::MAX - 1 {
                return Err(ConversionError::Full);
            }
            match other {
                LValue::Number(n) => Ok(Lit::Atom(st.new_number(*n))),
                LValue::True => Ok(Lit::Atom(st.new_bool(true))),
                LValue::Nil => Ok(Lit::Atom(st.new_bool(false))),
                _ => Ok(Lit::Atom(st.declare_new_symbol(other.to_string(), false))),
            }
        },
    }
}

/// The conversion of the items of a list stops at the first item that
/// cannot be converted.
pub proof fn lemma_lits_stop(l: Seq<Sexp>, k: nat, n: nat, st: SymTableModel)
    requires
        k <= n <= l.len(),
        lits_of(l, k, st).result is Err,
    ensures
        lits_of(l, n, st) == lits_of(l, k, st),
    decreases n,
{
    if k < n {
        lemma_lits_stop(l, k, (n - 1) as nat, st);
    }
}

/// What the conversion of the parts of an expression has gathered: the
/// chronicle so far, the results of the parts, the interval of the last
/// part and whether every part was pure.
pub struct Parts {
    pub ec: ExpressionChronicleModel,
    pub lits: Seq<LitModel>,
    pub previous: Interval,
    pub pure: bool,
}

/// The equality of two timepoints.
pub open spec fn same_time(a: AtomId, b: AtomId) -> ConstraintModel {
    ConstraintModel::Eq(LitModel::Atom(a), LitModel::Atom(b))
}

/// How the head of a call is handled, and the literal that the call starts
/// with.
pub open spec fn head_of_call(head: Sexp, st: SymTableModel) -> Result<
    (ExpressionType, Seq<LitModel>),
    ConversionError,
> {
    if !(head is Symbol || head is Fn) {
        Err(ConversionError::UnsupportedHead)
    } else {
        let name = head.text();
        if name == RETRACT@ || name == RETRACT_SHORT@ {
            Err(ConversionError::RetractNotSupported)
        } else {
            match st.id_of(name) {
                None => Err(ConversionError::UndefinedFunction),
                Some(id) => if name == INSTANCE@ {
                    Ok((ExpressionType::StateFunction, seq![LitModel::Atom(id)]))
                } else if !st.types.contains_key(id) {
                    Err(ConversionError::NotCallable)
                } else {
                    match st.types[id] {
                        AtomType::Action => Ok((ExpressionType::Action, seq![LitModel::Atom(id)])),
                        AtomType::Function => Ok((ExpressionType::Lisp, seq![LitModel::Atom(id)])),
                        AtomType::Method => Err(ConversionError::MethodCalledDirectly),
                        AtomType::StateFunction => Ok(
                            (ExpressionType::StateFunction, seq![LitModel::Atom(id)]),
                        ),
                        AtomType::Task => Ok((ExpressionType::Task, seq![LitModel::Atom(id)])),
                        _ => Err(ConversionError::NotCallable),
                    }
                },
            }
        }
    }
}

/// Tells whether the head of a call is that of an assertion.
pub open spec fn is_assertion(head: Sexp) -> bool {
    (head is Symbol || head is Fn) && (head.text() == ASSERT@ || head.text() == ASSERT_SHORT@)
}

/// What one part adds to what was gathered: its result, the constraint that
/// it starts when the part before it ends, or when the whole starts for the
/// first part, and what it contributes. In a sequence, the last part gives
/// the result of the whole: as a known literal when it is pure, through an
/// effect otherwise.
pub open spec fn with_part(
    p: Parts,
    part: ExpressionChronicleModel,
    first: bool,
    gives_result: bool,
) -> Parts {
    let linked = p.ec.with_constraint(
        same_time(
            if first {
                p.previous.first()
            } else {
                p.previous.last()
            },
            part.interval.first(),
        ),
    );
    let resulted = if gives_result {
        if part.pure_result is Some {
            linked.with_pure_result(part.result())
        } else {
            linked.with_effect(linked.result(), part.result())
        }
    } else {
        linked
    };
    Parts {
        ec: resulted.absorb(part),
        lits: p.lits.push(part.result()),
        previous: part.interval,
        pure: p.pure && part.pure_result is Some,
    }
}

/// The chronicle of a call once its parts are converted, by the way its head
/// is handled: a task or an action becomes a subtask whose last argument is
/// the result; a state function becomes the effect that assigns its value to
/// the result; any other function becomes the effect that assigns its
/// evaluation to the result.
pub open spec fn call_done(
    p: Parts,
    etype: ExpressionType,
    st: SymTableModel,
    end: AtomId,
) -> Result<ExpressionChronicleModel, ConversionError> {
    let ec = p.ec.with_constraint(
        ConstraintModel::LEq(LitModel::Atom(p.previous.last()), LitModel::Atom(end)),
    );
    match etype {
        ExpressionType::Action | ExpressionType::Task => Ok(
            ec.with_subtask(LitModel::Exp(p.lits.push(ec.result()))),
        ),
        ExpressionType::StateFunction => Ok(ec.with_effect(ec.result(), LitModel::Exp(p.lits))),
        _ => match st.id_of(EVAL@) {
            None => Err(ConversionError::UndefinedFunction),
            Some(id) => Ok(
                ec.with_effect(
                    ec.result(),
                    LitModel::Exp(seq![LitModel::Atom(id), LitModel::Exp(p.lits)]),
                ),
            ),
        },
    }
}

/// The atoms that the conversion of a conditional adds at most, outside of
/// its condition and its branches.
pub const IF_ROOM: usize = 32;

/// The label of the task that stands for the conditional of the given rank.
pub open spec fn if_label(rank: nat) -> Seq<char> {
    "t_if_"@ + crate::text::nat_text(rank)
}

/// The label of the method of the task `label` for the branch `flag`.
pub open spec fn branch_label(label: Seq<char>, flag: bool) -> Seq<char> {
    "m_"@ + label + (if flag {
        "_true"@
    } else {
        "_false"@
    })
}

/// The name of the parameter of `label` that holds the condition.
pub open spec fn cond_name(label: Seq<char>) -> Seq<char> {
    label + "_cond"@
}

/// The name of the parameter of `label` that holds the result.
pub open spec fn result_name(label: Seq<char>) -> Seq<char> {
    label + "_r"@
}

/// The variables among `vars` that are atoms below `n` of the table, in the
/// order of their identifiers.
pub open spec fn variables_below(vars: Set<AtomId>, st: SymTableModel, n: nat) -> Seq<AtomId>
    decreases n,
{
    if n == 0 {
        Seq::empty()
    } else {
        let before = variables_below(vars, st, (n - 1) as nat);
        if vars.contains((n - 1) as AtomId) && is_variable(st, (n - 1) as AtomId) {
            before.push((n - 1) as AtomId)
        } else {
            before
        }
    }
}

/// The variables that the two branches of a conditional use, in the order of
/// their identifiers.
pub open spec fn shared_variables(
    yes: ExpressionChronicleModel,
    no: ExpressionChronicleModel,
    st: SymTableModel,
) -> Seq<AtomId> {
    variables_below(yes.partial.variables.union(no.partial.variables), st, st.atoms.len())
}

/// The name of an atom: that of a symbol, without its version; the printed
/// form of any other atom.
pub open spec fn name_of(st: SymTableModel, id: AtomId) -> Seq<char> {
    if id < st.atoms.len() {
        match st.atoms[id as int] {
            AtomModel::Sym(s) => s.name(),
            a => a.text(),
        }
    } else {
        Seq::empty()
    }
}

/// The names of atoms.
pub open spec fn names_of(st: SymTableModel, ids: Seq<AtomId>) -> Seq<Seq<char>> {
    Seq::new(ids.len(), |i: int| name_of(st, ids[i]))
}

/// The atoms of the first `n` names, declared as variables one after the
/// other, afresh when `fresh` is set, and the table afterwards.
pub open spec fn declared_params(st: SymTableModel, names: Seq<Seq<char>>, n: nat, fresh: bool) -> (
    SymTableModel,
    Seq<AtomId>,
)
    decreases n,
{
    if n == 0 || n > names.len() {
        (st, Seq::empty())
    } else {
        let (s, ids) = declared_params(st, names, (n - 1) as nat, fresh);
        if fresh {
            (s.with_new_variable(names[n - 1]), ids.push(s.atoms.len() as AtomId))
        } else {
            (s.with_variable(names[n - 1]), ids.push(s.symbol_id(names[n - 1])))
        }
    }
}

/// The atoms of a task or of a method and of its parameters, declared one
/// after the other: the condition, the result, and one parameter for each
/// of the names of `extra`. The parameters are variables; they are declared
/// afresh when `fresh` is set.
pub open spec fn signature(st: SymTableModel, label: Seq<char>, fresh: bool, extra: Seq<Seq<char>>) -> (
    SymTableModel,
    Seq<AtomId>,
) {
    let head = st.symbol_id(label);
    let s1 = st.with_symbol(label);
    let cond = if fresh {
        s1.atoms.len() as AtomId
    } else {
        s1.symbol_id(cond_name(label))
    };
    let s2 = if fresh {
        s1.with_new_variable(cond_name(label))
    } else {
        s1.with_variable(cond_name(label))
    };
    let result = if fresh {
        s2.atoms.len() as AtomId
    } else {
        s2.symbol_id(result_name(label))
    };
    let s3 = if fresh {
        s2.with_new_variable(result_name(label))
    } else {
        s2.with_variable(result_name(label))
    };
    let (s4, more) = declared_params(s3, extra, extra.len(), fresh);
    (s4, seq![head, cond, result] + more)
}

/// The atoms that the conversion of a conditional adds at most, outside of
/// its condition and its branches, when its branches share `k` variables.
pub open spec fn if_room(k: nat) -> nat {
    IF_ROOM as nat + 6 * k
}

/// A method of a conditional while its parameters are bound: the table, the
/// chronicle of its branch and the atoms of its name.
pub struct BoundModel {
    pub st: SymTableModel,
    pub ec: ExpressionChronicleModel,
    pub name: Seq<AtomId>,
}

/// The method once the first `n` shared variables are bound to the
/// parameters of the task. A variable that the branch uses is a parameter of
/// the method as it is; for any other a new version of its name is declared,
/// which becomes a variable of the branch. Either is equal to the parameter
/// of the task at its place.
pub open spec fn bound_params(
    b: BoundModel,
    local: Set<AtomId>,
    shared: Seq<AtomId>,
    names: Seq<Seq<char>>,
    task: Seq<AtomId>,
    n: nat,
) -> BoundModel
    decreases n,
{
    if n == 0 || n > shared.len() {
        b
    } else {
        let p = bound_params(b, local, shared, names, task, (n - 1) as nat);
        let own = local.contains(shared[n - 1]);
        let var = if own {
            shared[n - 1]
        } else {
            p.st.atoms.len() as AtomId
        };
        let taken = if own {
            p.ec
        } else {
            ExpressionChronicleModel {
                partial: PartialChronicleModel {
                    variables: p.ec.partial.variables.insert(var),
                    ..p.ec.partial
                },
                ..p.ec
            }
        };
        BoundModel {
            st: if own {
                p.st
            } else {
                p.st.with_new_variable(names[n - 1])
            },
            ec: taken.with_constraint(same_time(var, task[n as int + 2])),
            name: p.name.push(var),
        }
    }
}

/// The chronicle once the atoms of `ids` are among its variables.
pub open spec fn with_variables(ec: ExpressionChronicleModel, ids: Seq<AtomId>, n: nat) -> ExpressionChronicleModel
    decreases n,
{
    if n == 0 || n > ids.len() {
        ec
    } else {
        let before = with_variables(ec, ids, (n - 1) as nat);
        ExpressionChronicleModel {
            partial: PartialChronicleModel {
                variables: before.partial.variables.insert(ids[n - 1]),
                ..before.partial
            },
            ..before
        }
    }
}

/// The literal of a sequence of atoms.
pub open spec fn atoms_lit(a: Seq<AtomId>) -> LitModel {
    LitModel::Exp(Seq::new(a.len(), |i: int| LitModel::Atom(a[i])))
}

/// The method that achieves the task `label` by the branch `branch`, taken
/// when the condition is `flag`, and the symbol table once the method is
/// declared.
///
/// The method has a condition and a result of its own, bound to those of the
/// task, and one parameter for each variable that the branches share, bound
/// to that of the task; its result is the result of the branch; and it holds,
/// when it starts, only if its condition is `flag`.
pub open spec fn branch_method(
    st: SymTableModel,
    branch: ExpressionChronicleModel,
    flag: bool,
    label: Seq<char>,
    debug: Sexp,
    shared: Seq<AtomId>,
    names: Seq<Seq<char>>,
) -> (SymTableModel, crate::planning::expression_chronicle::ChronicleModel) {
    let (s3, task) = signature(st, label, true, names);
    let (s6, name) = signature(s3, branch_label(label, flag), false, Seq::empty());
    let first = ExpressionChronicleModel {
        partial: PartialChronicleModel {
            variables: branch.partial.variables.insert(name[1]).insert(name[2]),
            constraints: branch.partial.constraints.push(
                same_time(name[1], task[1]),
            ).push(same_time(name[2], task[2])).push(
                ConstraintModel::Eq(branch.result(), LitModel::Atom(name[2])),
            ),
            ..branch.partial
        },
        ..branch
    };
    let b = bound_params(
        BoundModel { st: s6, ec: first, name },
        branch.partial.variables,
        shared,
        names,
        task,
        shared.len(),
    );
    let truth = b.st.atoms.len() as AtomId;
    let s7 = b.st.with_atom(AtomModel::Bool(flag), AtomType::Boolean);
    let bound = ExpressionChronicleModel {
        partial: PartialChronicleModel {
            conditions: b.ec.partial.conditions.push(
                crate::planning::chronicle::ConditionModel {
                    interval: Interval {
                        start: branch.interval.start,
                        end: branch.interval.start,
                    },
                    constraint: same_time(name[1], truth),
                },
            ),
            ..b.ec.partial
        },
        ..b.ec
    };
    let absorbed = PartialChronicleModel::empty().absorb(bound.partial);
    (
        s7,
        crate::planning::expression_chronicle::ChronicleModel {
            name: atoms_lit(b.name),
            task: atoms_lit(task),
            partial: PartialChronicleModel {
                variables: absorbed.variables.insert(bound.result_id).insert(
                    bound.interval.start,
                ).insert(bound.interval.end),
                ..absorbed
            },
            debug: Some(debug),
        },
    )
}

/// The chronicle of a conditional whose condition and branches are
/// converted, and the hierarchy afterwards.
///
/// The conditional becomes a subtask of its own: a task with the condition,
/// the result and the variables that the branches share as parameters, and
/// one method for each branch. The subtask starts when the condition is
/// evaluated and ends with the conditional; the shared variables are
/// variables of the conditional.
pub open spec fn branched(
    h: HierarchyModel,
    ec: ExpressionChronicleModel,
    cond: ExpressionChronicleModel,
    yes: ExpressionChronicleModel,
    no: ExpressionChronicleModel,
    debug_yes: Sexp,
    debug_no: Sexp,
) -> Outcome<ExpressionChronicleModel> {
    let label = if_label(h.tasks.len());
    let shared = shared_variables(yes, no, h.st);
    let names = names_of(h.st, shared);
    let (s1, call) = signature(h.st, label, false, names);
    let sub = Interval { start: s1.atoms.len() as AtomId, end: (s1.atoms.len() + 1) as AtomId };
    let s2 = s1.with_timepoint().with_timepoint();
    let constrained = ec.with_constraint(
        ConstraintModel::LEq(LitModel::Atom(sub.start), LitModel::Atom(sub.end)),
    ).with_constraint(same_time(ec.interval.start, cond.interval.start)).with_constraint(
        same_time(cond.interval.end, sub.start),
    ).with_constraint(same_time(ec.interval.end, sub.end)).with_constraint(
        ConstraintModel::Eq(LitModel::Atom(call[2]), ec.result()),
    ).with_constraint(ConstraintModel::Eq(LitModel::Atom(call[1]), cond.result()));
    let absorbed = with_variables(constrained.absorb(cond), shared, shared.len());
    let done = ExpressionChronicleModel {
        partial: PartialChronicleModel {
            subtasks: absorbed.partial.subtasks.push(
                crate::planning::chronicle::ExpressionModel {
                    interval: sub,
                    lit: atoms_lit(call),
                },
            ),
            variables: absorbed.partial.variables.insert(sub.start).insert(sub.end),
            ..absorbed.partial
        },
        ..absorbed
    };
    let (s3, task) = signature(s2, label, true, names);
    let (s4, m_yes) = branch_method(s3, yes, true, label, debug_yes, shared, names);
    let (s5, m_no) = branch_method(s4, no, false, label, debug_no, shared, names);
    Outcome {
        st: HierarchyModel {
            st: s5.unscoped(),
            tasks: h.tasks.push(atoms_lit(task)),
            methods: h.methods.push(m_yes).push(m_no),
        },
        result: Ok(done),
    }
}

/// Tells whether the atom `id` is a variable of the table.
pub open spec fn is_variable(st: SymTableModel, id: AtomId) -> bool {
    st.types.contains_key(id) && st.types[id] == AtomType::Variable
}

/// The chronicle once it has taken note of the atom `id`: a variable of the
/// table becomes a variable of the chronicle.
pub open spec fn noted(ec: ExpressionChronicleModel, st: SymTableModel, id: AtomId) -> ExpressionChronicleModel {
    if is_variable(st, id) {
        ExpressionChronicleModel {
            partial: PartialChronicleModel {
                variables: ec.partial.variables.insert(id),
                ..ec.partial
            },
            ..ec
        }
    } else {
        ec
    }
}

/// The chronicle of an expression, and the symbol table afterwards.
pub open spec fn conv(exp: Sexp, h: HierarchyModel) -> Outcome<ExpressionChronicleModel>
    decreases exp, 0nat,
{
    let st = h.st;
    if !st.has_room(STEP_ROOM as nat) {
        Outcome { st: h, result: Err(ConversionError::Full) }
    } else {
        let opened = st.with_timepoint().with_timepoint().with_result();
        let interval = Interval {
            start: st.atoms.len() as AtomId,
            end: (st.atoms.len() + 1) as AtomId,
        };
        let ec = ExpressionChronicleModel::opened(interval, (st.atoms.len() + 2) as AtomId, exp);
        match exp {
            Sexp::Symbol(s) => Outcome { st: h.on(opened.with_symbol(s)),
                result: Ok(
                    noted(ec, opened.with_symbol(s), opened.symbol_id(s)).with_pure_result(
                        LitModel::Atom(opened.symbol_id(s)),
                    ),
                ),
            },
            Sexp::List(l) => if l.len() == 0 {
                Outcome { st: h.on(opened), result: Err(ConversionError::EmptyExpression) }
            } else {
                match l[0] {
                    Sexp::CoreOperator(co) => match co {
                        LCoreOperator::Define => if l.len() < 3 {
                            Outcome { st: h.on(opened),
                                result: Err(ConversionError::WrongNumberOfArguments),
                            }
                        } else if !(l[1] is Symbol) {
                            Outcome { st: h.on(opened), result: Err(ConversionError::DefineNeedsSymbol) }
                        } else {
                            let var = opened.atoms.len() as AtomId;
                            let val = conv(l[2], h.on(opened.with_new_symbol(l[1]->Symbol_0)));
                            match val.result {
                                Err(e) => Outcome { st: val.st, result: Err(e) },
                                Ok(v) => if !val.st.st.has_room(0) {
                                    Outcome { st: val.st, result: Err(ConversionError::Full) }
                                } else {
                                    let timed = if v.pure_result is Some {
                                        ec.with_constraint(same_time(interval.start, interval.end))
                                    } else {
                                        ec
                                    };
                                    let bound = timed.with_constraint(
                                        ConstraintModel::Eq(v.result(), LitModel::Atom(var)),
                                    );
                                    Outcome {
 st: val.st.on(val.st.st.with_atom(AtomModel::Bool(false), AtomType::Boolean)),
                                        result: Ok(
                                            bound.with_pure_result(
                                                LitModel::Atom(val.st.st.atoms.len() as AtomId),
                                            ).absorb(v),
                                        ),
                                    }
                                },
                            }
                        },
                        LCoreOperator::Begin | LCoreOperator::Do => {
                            let parts = conv_parts(
                                l,
                                (l.len() - 1) as nat,
                                true,
                                h.on(opened.scoped()),
                                Parts { ec, lits: Seq::empty(), previous: interval, pure: true },
                            );
                            match parts.result {
                                Err(e) => Outcome { st: parts.st, result: Err(e) },
                                Ok(p) => Outcome { st: parts.st.on(parts.st.st.unscoped()),
                                    result: Ok(
                                        p.ec.with_constraint(
                                            same_time(p.previous.last(), interval.end),
                                        ),
                                    ),
                                },
                            }
                        },
                        LCoreOperator::Quote => if l.len() < 2 {
                            Outcome { st: h.on(opened),
                                result: Err(ConversionError::WrongNumberOfArguments),
                            }
                        } else {
                            let c = lit_of(l[1], opened);
                            match c.result {
                                Err(e) => Outcome { st: h.on(c.st), result: Err(e) },
                                Ok(lit) => Outcome { st: h.on(c.st),
                                    result: Ok(ec.with_pure_result(lit)),
                                },
                            }
                        },
                        LCoreOperator::If => if l.len() < 4 {
                            Outcome {
                                st: h.on(opened),
                                result: Err(ConversionError::WrongNumberOfArguments),
                            }
                        } else {
                            let c = conv(l[1], h.on(opened.scoped()));
                            match c.result {
                                Err(e) => Outcome { st: c.st, result: Err(e) },
                                Ok(cond) => {
                                    let t = conv(l[2], c.st);
                                    match t.result {
                                        Err(e) => Outcome { st: t.st, result: Err(e) },
                                        Ok(yes) => {
                                            let f = conv(l[3], t.st);
                                            match f.result {
                                                Err(e) => Outcome { st: f.st, result: Err(e) },
                                                Ok(no) => if !f.st.st.has_room(
                                                    if_room(
                                                        shared_variables(yes, no, f.st.st).len(),
                                                    ),
                                                ) {
                                                    Outcome {
                                                        st: f.st,
                                                        result: Err(ConversionError::Full),
                                                    }
                                                } else {
                                                    branched(f.st, ec, cond, yes, no, l[2], l[3])
                                                },
                                            }
                                        },
                                    }
                                },
                            }
                        },
                        _ => Outcome { st: h.on(opened),
                            result: Err(ConversionError::UnsupportedOperator),
                        },
                    },
                    head => if is_assertion(head) {
                        if l.len() != 3 {
                            Outcome { st: h.on(opened.scoped()),
                                result: Err(ConversionError::WrongNumberOfArguments),
                            }
                        } else {
                            let sv = conv(l[1], h.on(opened.scoped()));
                            match sv.result {
                                Err(e) => Outcome { st: sv.st, result: Err(e) },
                                Ok(variable) => {
                                    let val = conv(l[2], sv.st);
                                    match val.result {
                                        Err(e) => Outcome { st: val.st, result: Err(e) },
                                        Ok(value) => if !val.st.st.has_room(0) {
                                            Outcome { st: val.st,
                                                result: Err(ConversionError::Full),
                                            }
                                        } else {
                                            Outcome {
 st: val.st.on(val.st.st.with_atom(AtomModel::Bool(false), AtomType::Boolean)),
                                                result: Ok(
                                                    ec.with_effect(
                                                        variable.result(),
                                                        value.result(),
                                                    ).absorb(variable).absorb(
                                                        value,
                                                    ).with_pure_result(
                                                        LitModel::Atom(
                                                            val.st.st.atoms.len() as AtomId,
                                                        ),
                                                    ),
                                                ),
                                            }
                                        },
                                    }
                                },
                            }
                        }
                    } else {
                        match head_of_call(head, opened.scoped()) {
                            Err(e) => Outcome { st: h.on(opened.scoped()), result: Err(e) },
                            Ok((etype, lits)) => {
                                let parts = conv_parts(
                                    l,
                                    (l.len() - 1) as nat,
                                    false,
                                    h.on(opened.scoped()),
                                    Parts { ec, lits, previous: interval, pure: true },
                                );
                                match parts.result {
                                    Err(e) => Outcome { st: parts.st, result: Err(e) },
                                    Ok(p) => match call_done(p, etype, parts.st.st, interval.end) {
                                        Err(e) => Outcome { st: parts.st, result: Err(e) },
                                        Ok(done) => Outcome { st: parts.st.on(parts.st.st.unscoped()),
                                            result: Ok(done),
                                        },
                                    },
                                }
                            },
                        }
                    },
                }
            },
            _ => if is_literal(exp) {
                let c = lit_of(exp, opened);
                match c.result {
                    Err(e) => Outcome { st: h.on(c.st), result: Err(e) },
                    Ok(lit) => Outcome { st: h.on(c.st), result: Ok(ec.with_pure_result(lit)) },
                }
            } else {
                Outcome { st: h.on(opened), result: Err(ConversionError::UnsupportedValue) }
            },
        }
    }
}

/// What the conversion of the parts `l[1]` to `l[n]` of an expression
/// gathers, one part after the other, starting from `init`.
pub open spec fn conv_parts(
    l: Seq<Sexp>,
    n: nat,
    sequence: bool,
    st: HierarchyModel,
    init: Parts,
) -> Outcome<Parts>
    decreases l, n,
{
    if n == 0 || n >= l.len() {
        Outcome { st, result: Ok(init) }
    } else {
        let before = conv_parts(l, (n - 1) as nat, sequence, st, init);
        match before.result {
            Err(e) => before,
            Ok(p) => {
                let part = conv(l[n as int], before.st);
                match part.result {
                    Err(e) => Outcome { st: part.st, result: Err(e) },
                    Ok(ec) => Outcome { st: part.st,
                        result: Ok(with_part(p, ec, n == 1, sequence && n == l.len() - 1)),
                    },
                }
            },
        }
    }
}

/// What a conversion adds to: the symbol table, and the tasks and methods
/// that the conversion makes up on its way.
pub struct ChronicleHierarchy {
    pub sym_table: SymTable,
    pub tasks: Vec<Lit>,
    pub methods: Vec<Chronicle>,
}

impl ChronicleHierarchy {
    /// A hierarchy around the given symbol table, without tasks and
    /// methods.
    pub fn new(sym_table: SymTable) -> (ch: Self)
        ensures
            ch.sym_table == sym_table,
            ch.tasks@.len() == 0,
            ch.methods@.len() == 0,
    {
        ChronicleHierarchy { sym_table, tasks: Vec::new(), methods: Vec::new() }
    }
}

/// The models of a sequence of chronicles.
pub open spec fn chronicle_models(s: Seq<Chronicle>) -> Seq<
    crate::planning::expression_chronicle::ChronicleModel,
> {
    Seq::new(s.len(), |i: int| s[i]@)
}

impl View for ChronicleHierarchy {
    type V = HierarchyModel;

    open spec fn view(&self) -> HierarchyModel {
        HierarchyModel {
            st: self.sym_table@,
            tasks: lit_models(self.tasks@),
            methods: chronicle_models(self.methods@),
        }
    }
}

/// Tells whether `r` is the chronicle, or the error, that `c` gives.
pub open spec fn is_chronicle(
    r: Result<ExpressionChronicle, ConversionError>,
    c: Outcome<ExpressionChronicleModel>,
) -> bool {
    match c.result {
        Ok(m) => r matches Ok(x) && x@ == m,
        Err(e) => r matches Err(x) && x == e,
    }
}

/// The name of the head of a call, if the head is a symbol or a function.
fn head_name(head: &LValue) -> (r: Option<String>)
    ensures
        r is Some <==> (head@ is Symbol || head@ is Fn),
        r matches Some(n) ==> n@ == head@.text(),
{
    match head {
        LValue::Symbol(s) => Some(s.clone()),
        LValue::Fn(s) => Some(s.clone()),
        _ => None,
    }
}

/// The literal of one atom.
fn one_atom(id: AtomId) -> (v: Vec<Lit>)
    ensures
        lit_models(v@) == seq![LitModel::Atom(id)],
{
    let mut v: Vec<Lit> = Vec::new();
    v.push(Lit::Atom(id));
    assert(lit_models(v@) =~= seq![LitModel::Atom(id)]);
    v
}

/// How the head of a call is handled, and the literal that the call starts
/// with.
fn classify_head(head: &LValue, st: &SymTable) -> (r: Result<
    (ExpressionType, Vec<Lit>),
    ConversionError,
>)
    ensures
        match head_of_call(head@, st@) {
            Ok((t, l)) => r matches Ok(x) && x.0 == t && lit_models(x.1@) == l,
            Err(e) => r matches Err(x) && x == e,
        },
{
    let name = match head_name(head) {
        Some(n) => n,
        None => { return Err(ConversionError::UnsupportedHead); },
    };
    if crate::text::str_eq(name.as_str(), RETRACT) || crate::text::str_eq(
        name.as_str(),
        RETRACT_SHORT,
    ) {
        return Err(ConversionError::RetractNotSupported);
    }
    let id = match st.id(name.as_str()) {
        Some(id) => id,
        None => { return Err(ConversionError::UndefinedFunction); },
    };
    if crate::text::str_eq(name.as_str(), INSTANCE) {
        return Ok((ExpressionType::StateFunction, one_atom(id)));
    }
    match st.get_type(&id) {
        None => Err(ConversionError::NotCallable),
        Some(t) => match t {
            AtomType::Action => Ok((ExpressionType::Action, one_atom(id))),
            AtomType::Function => Ok((ExpressionType::Lisp, one_atom(id))),
            AtomType::Method => Err(ConversionError::MethodCalledDirectly),
            AtomType::StateFunction => Ok((ExpressionType::StateFunction, one_atom(id))),
            AtomType::Task => Ok((ExpressionType::Task, one_atom(id))),
            _ => Err(ConversionError::NotCallable),
        },
    }
}

/// Tells whether the head of a call is that of an assertion.
fn head_is_assertion(head: &LValue) -> (b: bool)
    ensures
        b == is_assertion(head@),
{
    match head_name(head) {
        Some(n) => crate::text::str_eq(n.as_str(), ASSERT) || crate::text::str_eq(
            n.as_str(),
            ASSERT_SHORT,
        ),
        None => false,
    }
}

/// Adds to `ec` the effect that assigns `value` to `variable` over the
/// interval of `ec`.
fn add_own_effect(ec: &mut ExpressionChronicle, variable: Lit, value: Lit)
    ensures
        final(ec)@ == old(ec)@.with_effect(variable@, value@),
{
    let interval = *ec.get_interval();
    ec.add_effect(Effect { interval, transition: Transition::new(variable, value) });
}

/// Adds to `ec` the subtask `lit` over the interval of `ec`.
fn add_own_subtask(ec: &mut ExpressionChronicle, lit: Lit)
    ensures
        final(ec)@ == old(ec)@.with_subtask(lit@),
{
    let interval = *ec.get_interval();
    ec.add_subtask(Expression { interval, lit });
}

/// Converts the parts `l[1]`, `l[2]`, ... of an expression, one after the
/// other, into `ec`, and gathers their results in `literal`. Returns the
/// interval of the last part and whether every part was pure.
fn convert_parts(
    l: &Vec<LValue>,
    sequence: bool,
    ec: &mut ExpressionChronicle,
    literal: &mut Vec<Lit>,
    interval: Interval,
    ch: &mut ChronicleHierarchy,
) -> (r: Result<(Interval, bool), ConversionError>)
    requires
        old(ch).sym_table.wf(),
        l@.len() >= 1,
    ensures
        final(ch).sym_table.wf(),
        ({
            let c = conv_parts(
                models(l@),
                (l@.len() - 1) as nat,
                sequence,
                old(ch)@,
                Parts {
                    ec: old(ec)@,
                    lits: lit_models(old(literal)@),
                    previous: interval,
                    pure: true,
                },
            );
            &&& final(ch)@ == c.st
            &&& match c.result {
                Err(e) => r == Err::<(Interval, bool), ConversionError>(e),
                Ok(p) => r == Ok::<(Interval, bool), ConversionError>((p.previous, p.pure))
                    && final(ec)@ == p.ec && lit_models(final(literal)@) == p.lits,
            }
        }),
    decreases *l, 0nat,
{
    let ghost ml = models(l@);
    let ghost st0 = ch@;
    let ghost init = Parts {
        ec: ec@,
        lits: lit_models(literal@),
        previous: interval,
        pure: true,
    };
    let mut previous = interval;
    let mut pure = true;
    let mut i: usize = 1;
    while i < l.len()
        invariant
            1 <= i <= l.len(),
            ml == models(l@),
            st0 == old(ch)@,
            init == (Parts {
                ec: old(ec)@,
                lits: lit_models(old(literal)@),
                previous: interval,
                pure: true,
            }),
            ch.sym_table.wf(),
            conv_parts(ml, (i - 1) as nat, sequence, st0, init) == (Outcome {
                st: ch@,
                result: Ok::<Parts, ConversionError>(
                    Parts { ec: ec@, lits: lit_models(literal@), previous, pure },
                ),
            }),
        decreases l.len() - i,
    {
        proof {
            assert(ml[i as int] == l@[i as int]@);
        }
        let ec_i = match convert_lvalue_to_expression_chronicle(&l[i], ch) {
            Ok(e) => e,
            Err(e) => {
                proof {
                    lemma_parts_stop(ml, i as nat, (ml.len() - 1) as nat, sequence, st0, init);
                }
                return Err(e);
            },
        };
        let ghost before = literal@;
        literal.push(ec_i.get_result());
        assert(lit_models(literal@) =~= lit_models(before).push(ec_i@.result()));
        let first = if i == 1 {
            previous.start()
        } else {
            previous.end()
        };
        ec.add_constraint(
            Constraint::Eq(Lit::Atom(first), Lit::Atom(ec_i.get_interval().start())),
        );
        previous = *ec_i.get_interval();
        if sequence && i == l.len() - 1 {
            if ec_i.is_result_pure() {
                ec.set_pure_result(ec_i.get_result());
            } else {
                let own = ec.get_result();
                add_own_effect(ec, own, ec_i.get_result());
            }
        }
        pure = pure && ec_i.is_result_pure();
        ec.absorb(ec_i);
        i += 1;
    }
    Ok((previous, pure))
}

/// Ends the chronicle of a call whose parts are converted.
fn finish_call(
    ec: &mut ExpressionChronicle,
    literal: Vec<Lit>,
    etype: ExpressionType,
    previous: Interval,
    pure: bool,
    end: AtomId,
    st: &SymTable,
) -> (r: Result<(), ConversionError>)
    ensures
        match call_done(
            Parts { ec: old(ec)@, lits: lit_models(literal@), previous, pure },
            etype,
            st@,
            end,
        ) {
            Ok(done) => r is Ok && final(ec)@ == done,
            Err(e) => r == Err::<(), ConversionError>(e),
        },
{
    let mut literal = literal;
    ec.add_constraint(Constraint::LEq(Lit::Atom(previous.end()), Lit::Atom(end)));
    match etype {
        ExpressionType::Action | ExpressionType::Task => {
            let ghost before = literal@;
            literal.push(ec.get_result());
            proof {
                assert(lit_models(literal@) =~= lit_models(before).push(ec@.result()));
                lemma_exp_model(literal);
            }
            add_own_subtask(ec, Lit::Exp(literal));
            Ok(())
        },
        ExpressionType::StateFunction => {
            proof {
                lemma_exp_model(literal);
            }
            let own = ec.get_result();
            add_own_effect(ec, own, Lit::Exp(literal));
            Ok(())
        },
        _ => {
            let eval = match st.id(EVAL) {
                Some(id) => id,
                None => { return Err(ConversionError::UndefinedFunction); },
            };
            let mut call: Vec<Lit> = Vec::new();
            call.push(Lit::Atom(eval));
            proof {
                lemma_exp_model(literal);
            }
            let ghost lm = lit_models(literal@);
            call.push(Lit::Exp(literal));
            proof {
                assert(lit_models(call@) =~= seq![LitModel::Atom(eval), LitModel::Exp(lm)]);
                lemma_exp_model(call);
            }
            let own = ec.get_result();
            add_own_effect(ec, own, Lit::Exp(call));
            Ok(())
        },
    }
}

/// Converts an expression into its chronicle.
pub fn convert_lvalue_to_expression_chronicle(exp: &LValue, ch: &mut ChronicleHierarchy) -> (r:
    Result<ExpressionChronicle, ConversionError>)
    requires
        old(ch).sym_table.wf(),
    ensures
        final(ch).sym_table.wf(),
        final(ch)@ == conv(exp@, old(ch)@).st,
        is_chronicle(r, conv(exp@, old(ch)@)),
    decreases *exp, 2nat,
{
    if ch.sym_table.n_atoms() >= usize::MAX - 1 - STEP_ROOM {
        return Err(ConversionError::Full);
    }
    let ghost st0 = ch@;
    let mut ec = ExpressionChronicle::new(exp.clone(), &mut ch.sym_table);
    let interval = *ec.get_interval();
    match exp {
        LValue::Symbol(s) => {
            let symbol = ch.sym_table.declare_new_symbol(s.clone(), false);
            let variable = match ch.sym_table.get_type(&symbol) {
                Some(AtomType::Variable) => true,
                _ => false,
            };
            if variable {
                ec.add_var(&symbol);
            }
            ec.set_pure_result(Lit::Atom(symbol));
            Ok(ec)
        },
        LValue::Nil | LValue::True | LValue::Number(_) | LValue::String(_) | LValue::Character(
            _,
        ) => {
            match lvalue_to_lit(exp, &mut ch.sym_table) {
                Ok(lit) => {
                    ec.set_pure_result(lit);
                    Ok(ec)
                },
                Err(e) => Err(e),
            }
        },
        LValue::List(l) => {
            proof {
                lemma_list_model(*l);
                assert(decreases_to!(*exp => exp->List_0));
            }
            if l.len() == 0 {
                return Err(ConversionError::EmptyExpression);
            }
            assert(models(l@)[0] == l@[0]@);
            match &l[0] {
                LValue::CoreOperator(co) => match co {
                    LCoreOperator::Define => convert_define(l, ec, interval, ch, Ghost(st0)),
                    LCoreOperator::If => convert_conditional(l, ec, interval, ch, Ghost(st0)),
                    LCoreOperator::Begin | LCoreOperator::Do => convert_sequence(
                        l,
                        ec,
                        interval,
                        ch,
                        Ghost(st0),
                    ),
                    LCoreOperator::Quote => {
                        if l.len() < 2 {
                            return Err(ConversionError::WrongNumberOfArguments);
                        }
                        assert(models(l@)[1] == l@[1]@);
                        match lvalue_to_lit(&l[1], &mut ch.sym_table) {
                            Ok(lit) => {
                                ec.set_pure_result(lit);
                                Ok(ec)
                            },
                            Err(e) => Err(e),
                        }
                    },
                    _ => Err(ConversionError::UnsupportedOperator),
                },
                head => {
                    if head_is_assertion(head) {
                        convert_assertion(l, ec, interval, ch, Ghost(st0))
                    } else {
                        convert_call(l, ec, interval, ch, Ghost(st0))
                    }
                },
            }
        },
        _ => Err(ConversionError::UnsupportedValue),
    }
}

/// Tells whether the chronicle `ec` of the list `l` has just been opened
/// over `interval` in the symbol table `st0`, which became `st`.
pub open spec fn opened_list(
    h0: HierarchyModel,
    h: HierarchyModel,
    interval: Interval,
    ec: ExpressionChronicleModel,
    l: Seq<Sexp>,
) -> bool {
    let st0 = h0.st;
    &&& st0.has_room(STEP_ROOM as nat)
    &&& h == h0.on(st0.with_timepoint().with_timepoint().with_result())
    &&& interval == (Interval {
        start: st0.atoms.len() as AtomId,
        end: (st0.atoms.len() + 1) as AtomId,
    })
    &&& ec == ExpressionChronicleModel::opened(
        interval,
        (st0.atoms.len() + 2) as AtomId,
        Sexp::List(l),
    )
    &&& l.len() >= 1
}

/// The conversion of a definition, once its chronicle is opened.
fn convert_define(
    l: &Vec<LValue>,
    ec: ExpressionChronicle,
    interval: Interval,
    ch: &mut ChronicleHierarchy,
    Ghost(st0): Ghost<HierarchyModel>,
) -> (r: Result<ExpressionChronicle, ConversionError>)
    requires
        old(ch).sym_table.wf(),
        opened_list(st0, old(ch)@, interval, ec@, models(l@)),
        models(l@)[0] == Sexp::CoreOperator(LCoreOperator::Define),
    ensures
        final(ch).sym_table.wf(),
        final(ch)@ == conv(Sexp::List(models(l@)), st0).st,
        is_chronicle(r, conv(Sexp::List(models(l@)), st0)),
    decreases *l, 0nat,
{
    let mut ec = ec;
    let ghost ml = models(l@);
    if l.len() < 3 {
        return Err(ConversionError::WrongNumberOfArguments);
    }
    assert(ml[1] == l@[1]@);
    assert(ml[2] == l@[2]@);
    let s = match &l[1] {
        LValue::Symbol(s) => s,
        _ => { return Err(ConversionError::DefineNeedsSymbol); },
    };
    let var = ch.sym_table.declare_new_symbol(s.clone(), true);
    let val = match convert_lvalue_to_expression_chronicle(&l[2], ch) {
        Ok(v) => v,
        Err(e) => { return Err(e); },
    };
    if ch.sym_table.n_atoms() >= usize::MAX - 1 {
        return Err(ConversionError::Full);
    }
    if val.is_result_pure() {
        ec.add_constraint(Constraint::Eq(Lit::Atom(interval.start()), Lit::Atom(interval.end())));
    }
    ec.add_constraint(Constraint::Eq(val.get_result(), Lit::Atom(var)));
    ec.set_pure_result(Lit::Atom(ch.sym_table.new_bool(false)));
    ec.absorb(val);
    Ok(ec)
}

/// The text `a` followed by the text `b`.
fn joined(a: &str, b: &str) -> (r: String)
    ensures
        r@ == a@ + b@,
{
    let mut r = String::from_str(a);
    r.append(b);
    r
}

/// Declares the names of `names` as variables, one after the other.
fn declare_params(st: &mut SymTable, names: &Vec<String>, fresh: bool) -> (ids: Vec<AtomId>)
    requires
        old(st).wf(),
        old(st).has_room(names@.len()),
    ensures
        final(st).wf(),
        (final(st)@, ids@) == declared_params(
            old(st)@,
            string_views(names@),
            names@.len() as nat,
            fresh,
        ),
        ids@.len() == names@.len(),
        final(st)@.atoms.len() <= old(st)@.atoms.len() + names@.len(),
        old(st)@.atoms.len() <= final(st)@.atoms.len(),
{
    let ghost views = string_views(names@);
    let mut ids: Vec<AtomId> = Vec::new();
    let mut i: usize = 0;
    while i < names.len()
        invariant
            i <= names.len(),
            views == string_views(names@),
            st.wf(),
            old(st).has_room(names@.len()),
            old(st)@.atoms.len() <= st@.atoms.len() <= old(st)@.atoms.len() + i,
            ids@.len() == i,
            (st@, ids@) == declared_params(old(st)@, views, i as nat, fresh),
        decreases names.len() - i,
    {
        let ghost before = ids@;
        let ghost then = st@;
        let id = st.declare_new_variable(clone_string(&names[i]), fresh);
        ids.push(id);
        proof {
            assert(views[i as int] == names@[i as int]@);
            assert(ids@ =~= before.push(id));
            lemma_declared_adds(then, views[i as int], fresh);
        }
        i += 1;
    }
    ids
}

/// Declaring a variable adds one atom at most, and takes none away.
proof fn lemma_declared_adds(st: SymTableModel, name: Seq<char>, fresh: bool)
    ensures
        st.atoms.len() <= st.with_variable(name).atoms.len() <= st.atoms.len() + 1,
        st.atoms.len() <= st.with_new_variable(name).atoms.len() <= st.atoms.len() + 1,
{
}

/// Declares a task or a method and its parameters: the condition, the
/// result, and one for each name of `extra`.
fn declare_signature(st: &mut SymTable, label: &str, fresh: bool, extra: &Vec<String>) -> (ids: Vec<
    AtomId,
>)
    requires
        old(st).wf(),
        old(st).has_room(3 + extra@.len()),
    ensures
        final(st).wf(),
        (final(st)@, ids@) == signature(old(st)@, label@, fresh, string_views(extra@)),
        ids@.len() == 3 + extra@.len(),
        final(st)@.atoms.len() <= old(st)@.atoms.len() + 3 + extra@.len(),
        old(st)@.atoms.len() <= final(st)@.atoms.len(),
{
    let head = st.declare_new_symbol(String::from_str(label), false);
    let cond = st.declare_new_variable(joined(label, "_cond"), fresh);
    let result = st.declare_new_variable(joined(label, "_r"), fresh);
    let mut ids: Vec<AtomId> = Vec::new();
    ids.push(head);
    ids.push(cond);
    ids.push(result);
    let ghost three = ids@;
    let mut more = declare_params(st, extra, fresh);
    let ghost rest = more@;
    ids.append(&mut more);
    assert(ids@ =~= three + rest);
    assert(three =~= seq![head, cond, result]);
    ids
}

/// The variables that two chronicles use, in the order of their identifiers.
fn variables_shared(a: &ExpressionChronicle, b: &ExpressionChronicle, st: &SymTable) -> (v: Vec<
    AtomId,
>)
    ensures
        v@ == shared_variables(a@, b@, st@),
        v@.len() <= st@.atoms.len(),
{
    let ghost vars = a@.partial.variables.union(b@.partial.variables);
    let mut v: Vec<AtomId> = Vec::new();
    let n = st.n_atoms();
    let mut i: usize = 0;
    while i < n
        invariant
            i <= n,
            n == st@.atoms.len(),
            vars == a@.partial.variables.union(b@.partial.variables),
            v@ == variables_below(vars, st@, i as nat),
            v@.len() <= i,
        decreases n - i,
    {
        let used = a.get_partial_chronicle().has_var(&i) || b.get_partial_chronicle().has_var(&i);
        let variable = match st.get_type(&i) {
            Some(AtomType::Variable) => true,
            _ => false,
        };
        if used && variable {
            v.push(i);
        }
        i += 1;
    }
    v
}

/// The names of atoms.
fn atom_names(ids: &Vec<AtomId>, st: &SymTable) -> (names: Vec<String>)
    ensures
        string_views(names@) == names_of(st@, ids@),
        names@.len() == ids@.len(),
{
    let mut names: Vec<String> = Vec::new();
    let mut i: usize = 0;
    while i < ids.len()
        invariant
            i <= ids.len(),
            names@.len() == i,
            forall|k: int| 0 <= k < i ==> (#[trigger] names@[k])@ == name_of(st@, ids@[k]),
        decreases ids.len() - i,
    {
        let name = match st.get_atom(&ids[i]) {
            Some(Atom::Sym(s)) => clone_string(s.get_string()),
            Some(a) => a.to_string(),
            None => String::new(),
        };
        names.push(name);
        i += 1;
    }
    assert(string_views(names@) =~= names_of(st@, ids@));
    names
}

/// Tells of each shared variable whether the chronicle uses it.
fn used_by(shared: &Vec<AtomId>, ec: &ExpressionChronicle) -> (own: Vec<bool>)
    ensures
        own@.len() == shared@.len(),
        forall|k: int|
            0 <= k < own@.len() ==> #[trigger] own@[k] == ec@.partial.variables.contains(shared@[k]),
{
    let mut own: Vec<bool> = Vec::new();
    let mut i: usize = 0;
    while i < shared.len()
        invariant
            i <= shared.len(),
            own@.len() == i,
            forall|k: int|
                0 <= k < i ==> #[trigger] own@[k] == ec@.partial.variables.contains(shared@[k]),
        decreases shared.len() - i,
    {
        own.push(ec.get_partial_chronicle().has_var(&shared[i]));
        i += 1;
    }
    own
}

/// Binds the shared variables to the parameters of the task, one after the
/// other.
fn bind_params(
    st: &mut SymTable,
    ec: &mut ExpressionChronicle,
    name: &mut Vec<AtomId>,
    own: &Vec<bool>,
    shared: &Vec<AtomId>,
    names: &Vec<String>,
    task: &Vec<AtomId>,
    Ghost(local): Ghost<Set<AtomId>>,
)
    requires
        old(st).wf(),
        old(st).has_room(shared@.len()),
        names@.len() == shared@.len(),
        own@.len() == shared@.len(),
        task@.len() == 3 + shared@.len(),
        forall|k: int| 0 <= k < own@.len() ==> #[trigger] own@[k] == local.contains(shared@[k]),
    ensures
        final(st).wf(),
        (BoundModel { st: final(st)@, ec: final(ec)@, name: final(name)@ }) == bound_params(
            BoundModel { st: old(st)@, ec: old(ec)@, name: old(name)@ },
            local,
            shared@,
            string_views(names@),
            task@,
            shared@.len() as nat,
        ),
        old(st)@.atoms.len() <= final(st)@.atoms.len() <= old(st)@.atoms.len() + shared@.len(),
{
    let ghost b0 = BoundModel { st: st@, ec: ec@, name: name@ };
    let ghost views = string_views(names@);
    let mut i: usize = 0;
    while i < shared.len()
        invariant
            i <= shared.len(),
            views == string_views(names@),
            names@.len() == shared@.len(),
            own@.len() == shared@.len(),
            task@.len() == 3 + shared@.len(),
            forall|k: int| 0 <= k < own@.len() ==> #[trigger] own@[k] == local.contains(shared@[k]),
            st.wf(),
            old(st).has_room(shared@.len()),
            old(st)@.atoms.len() <= st@.atoms.len() <= old(st)@.atoms.len() + i,
            (BoundModel { st: st@, ec: ec@, name: name@ }) == bound_params(
                b0,
                local,
                shared@,
                views,
                task@,
                i as nat,
            ),
        decreases shared.len() - i,
    {
        let ghost then = st@;
        let ghost before = name@;
        assert(views[i as int] == names@[i as int]@);
        assert(own@[i as int] == local.contains(shared@[i as int]));
        let var = if own[i] {
            shared[i]
        } else {
            let fresh = st.declare_new_variable(clone_string(&names[i]), true);
            ec.add_var(&fresh);
            fresh
        };
        proof {
            lemma_declared_adds(then, views[i as int], true);
        }
        ec.add_constraint(Constraint::Eq(Lit::Atom(var), Lit::Atom(task[i + 3])));
        name.push(var);
        assert(name@ =~= before.push(var));
        i += 1;
    }
}

/// Makes the method that achieves the task `label` by the branch `branch`,
/// taken when the condition is `flag`.
fn make_branch_method(
    st: &mut SymTable,
    branch: ExpressionChronicle,
    flag: bool,
    label: &str,
    debug: LValue,
    shared: &Vec<AtomId>,
    names: &Vec<String>,
) -> (method: Chronicle)
    requires
        old(st).wf(),
        old(st).has_room(8 + 2 * shared@.len()),
        names@.len() == shared@.len(),
    ensures
        final(st).wf(),
        (final(st)@, method@) == branch_method(
            old(st)@,
            branch@,
            flag,
            label@,
            debug@,
            shared@,
            string_views(names@),
        ),
        final(st)@.atoms.len() <= old(st)@.atoms.len() + 7 + 2 * shared@.len(),
{
    let mut ec_branch = branch;
    let own = used_by(shared, &ec_branch);
    let task = declare_signature(st, label, true, names);
    let method_label = joined(
        joined("m_", label).as_str(),
        if flag {
            "_true"
        } else {
            "_false"
        },
    );
    assert(method_label@ =~= branch_label(label@, flag));
    let none: Vec<String> = Vec::new();
    assert(string_views(none@) =~= Seq::<Seq<char>>::empty());
    let mut name = declare_signature(st, method_label.as_str(), false, &none);
    let start = ec_branch.get_interval().start();
    let cond = name[1];
    ec_branch.add_var(&name[1]);
    ec_branch.add_constraint(Constraint::Eq(Lit::Atom(name[1]), Lit::Atom(task[1])));
    ec_branch.add_var(&name[2]);
    ec_branch.add_constraint(Constraint::Eq(Lit::Atom(name[2]), Lit::Atom(task[2])));
    ec_branch.add_constraint(Constraint::Eq(ec_branch.get_result(), Lit::Atom(name[2])));
    bind_params(
        st,
        &mut ec_branch,
        &mut name,
        &own,
        shared,
        names,
        &task,
        Ghost(branch@.partial.variables),
    );
    let truth = st.new_bool(flag);
    ec_branch.add_condition(
        crate::planning::chronicle::Condition {
            interval: Interval::new(&start, &start),
            constraint: Constraint::Eq(Lit::Atom(cond), Lit::Atom(truth)),
        },
    );
    let mut method = Chronicle::default();
    method.set_debug(Some(debug));
    method.set_task(Lit::from_atoms(&task));
    method.set_name(Lit::from_atoms(&name));
    method.absorb_expression_chronicle(ec_branch);
    method
}

/// The conversion of a conditional, once its chronicle is opened.
fn convert_conditional(
    l: &Vec<LValue>,
    ec: ExpressionChronicle,
    interval: Interval,
    ch: &mut ChronicleHierarchy,
    Ghost(st0): Ghost<HierarchyModel>,
) -> (r: Result<ExpressionChronicle, ConversionError>)
    requires
        old(ch).sym_table.wf(),
        opened_list(st0, old(ch)@, interval, ec@, models(l@)),
        models(l@)[0] == Sexp::CoreOperator(LCoreOperator::If),
    ensures
        final(ch).sym_table.wf(),
        final(ch)@ == conv(Sexp::List(models(l@)), st0).st,
        is_chronicle(r, conv(Sexp::List(models(l@)), st0)),
    decreases *l, 0nat,
{
    let mut ec = ec;
    let ghost ml = models(l@);
    if l.len() < 4 {
        return Err(ConversionError::WrongNumberOfArguments);
    }
    assert(ml[1] == l@[1]@);
    assert(ml[2] == l@[2]@);
    assert(ml[3] == l@[3]@);
    ch.sym_table.new_scope();
    let ec_cond = match convert_lvalue_to_expression_chronicle(&l[1], ch) {
        Ok(v) => v,
        Err(e) => { return Err(e); },
    };
    let ec_true = match convert_lvalue_to_expression_chronicle(&l[2], ch) {
        Ok(v) => v,
        Err(e) => { return Err(e); },
    };
    let ec_false = match convert_lvalue_to_expression_chronicle(&l[3], ch) {
        Ok(v) => v,
        Err(e) => { return Err(e); },
    };
    let shared = variables_shared(&ec_true, &ec_false, &ch.sym_table);
    let n = ch.sym_table.n_atoms();
    if n >= usize::MAX - 1 - IF_ROOM {
        return Err(ConversionError::Full);
    }
    let free: usize = usize::MAX - 1 - IF_ROOM - n;
    if shared.len() > free / 6 || (shared.len() == free / 6 && free % 6 == 0) {
        return Err(ConversionError::Full);
    }
    let names = atom_names(&shared, &ch.sym_table);
    Ok(finish_if(ec, ec_cond, ec_true, ec_false, l[2].clone(), l[3].clone(), &shared, &names, ch))
}

/// Adds the atoms of `ids` to the variables of the chronicle.
fn add_variables(ec: &mut ExpressionChronicle, ids: &Vec<AtomId>)
    ensures
        final(ec)@ == with_variables(old(ec)@, ids@, ids@.len() as nat),
{
    let mut i: usize = 0;
    while i < ids.len()
        invariant
            i <= ids.len(),
            ec@ == with_variables(old(ec)@, ids@, i as nat),
        decreases ids.len() - i,
    {
        ec.add_var(&ids[i]);
        i += 1;
    }
}

/// Ends the chronicle of a conditional whose condition and branches are
/// converted: declares its task and the methods of its branches.
fn finish_if(
    ec: ExpressionChronicle,
    ec_cond: ExpressionChronicle,
    ec_true: ExpressionChronicle,
    ec_false: ExpressionChronicle,
    debug_yes: LValue,
    debug_no: LValue,
    shared: &Vec<AtomId>,
    names: &Vec<String>,
    ch: &mut ChronicleHierarchy,
) -> (r: ExpressionChronicle)
    requires
        old(ch).sym_table.wf(),
        old(ch).sym_table.has_room(if_room(shared@.len() as nat)),
        shared@ == shared_variables(ec_true@, ec_false@, old(ch)@.st),
        string_views(names@) == names_of(old(ch)@.st, shared@),
        names@.len() == shared@.len(),
    ensures
        final(ch).sym_table.wf(),
        final(ch)@ == branched(
            old(ch)@,
            ec@,
            ec_cond@,
            ec_true@,
            ec_false@,
            debug_yes@,
            debug_no@,
        ).st,
        branched(old(ch)@, ec@, ec_cond@, ec_true@, ec_false@, debug_yes@, debug_no@).result == Ok::<
            ExpressionChronicleModel,
            ConversionError,
        >(r@),
{
    let mut ec = ec;
    let interval = *ec.get_interval();
    let ghost h = ch@;
    let task_label = joined("t_if_", crate::text::usize_to_string(ch.tasks.len()).as_str());
    assert(task_label@ == if_label(h.tasks.len()));
    let call = declare_signature(&mut ch.sym_table, task_label.as_str(), false, names);
    let sub = ch.sym_table.declare_new_interval();
    ec.add_constraint(Constraint::LEq(Lit::Atom(sub.start()), Lit::Atom(sub.end())));
    ec.add_constraint(
        Constraint::Eq(Lit::Atom(interval.start()), Lit::Atom(ec_cond.get_interval().start())),
    );
    ec.add_constraint(
        Constraint::Eq(Lit::Atom(ec_cond.get_interval().end()), Lit::Atom(sub.start())),
    );
    ec.add_constraint(Constraint::Eq(Lit::Atom(interval.end()), Lit::Atom(sub.end())));
    ec.add_constraint(Constraint::Eq(Lit::Atom(call[2]), ec.get_result()));
    ec.add_constraint(Constraint::Eq(Lit::Atom(call[1]), ec_cond.get_result()));
    ec.absorb(ec_cond);
    add_variables(&mut ec, shared);
    ec.add_subtask(Expression { interval: sub, lit: Lit::from_atoms(&call) });
    ec.add_interval(&sub);
    finish_if_methods(ec_true, ec_false, debug_yes, debug_no, task_label, shared, names, ch);
    ec
}

/// Declares the task of a conditional and the methods of its branches.
fn finish_if_methods(
    ec_true: ExpressionChronicle,
    ec_false: ExpressionChronicle,
    debug_yes: LValue,
    debug_no: LValue,
    task_label: String,
    shared: &Vec<AtomId>,
    names: &Vec<String>,
    ch: &mut ChronicleHierarchy,
)
    requires
        old(ch).sym_table.wf(),
        old(ch).sym_table.has_room(20 + 5 * shared@.len()),
        names@.len() == shared@.len(),
    ensures
        final(ch).sym_table.wf(),
        ({
            let (s3, task) = signature(old(ch)@.st, task_label@, true, string_views(names@));
            let (s4, m_yes) = branch_method(
                s3,
                ec_true@,
                true,
                task_label@,
                debug_yes@,
                shared@,
                string_views(names@),
            );
            let (s5, m_no) = branch_method(
                s4,
                ec_false@,
                false,
                task_label@,
                debug_no@,
                shared@,
                string_views(names@),
            );
            final(ch)@ == (HierarchyModel {
                st: s5.unscoped(),
                tasks: old(ch)@.tasks.push(atoms_lit(task)),
                methods: old(ch)@.methods.push(m_yes).push(m_no),
            })
        }),
{
    let task = declare_signature(&mut ch.sym_table, task_label.as_str(), true, names);
    let task_lit = Lit::from_atoms(&task);
    let ghost tasks0 = ch.tasks@;
    ch.tasks.push(task_lit);
    assert(lit_models(ch.tasks@) =~= lit_models(tasks0).push(task_lit@));
    let m_true = make_branch_method(
        &mut ch.sym_table,
        ec_true,
        true,
        task_label.as_str(),
        debug_yes,
        shared,
        names,
    );
    let m_false = make_branch_method(
        &mut ch.sym_table,
        ec_false,
        false,
        task_label.as_str(),
        debug_no,
        shared,
        names,
    );
    let ghost methods0 = ch.methods@;
    ch.methods.push(m_true);
    ch.methods.push(m_false);
    assert(chronicle_models(ch.methods@) =~= chronicle_models(methods0).push(m_true@).push(
        m_false@,
    ));
    ch.sym_table.revert_scope();
}

/// The conversion of a sequence, once its chronicle is opened.
fn convert_sequence(
    l: &Vec<LValue>,
    ec: ExpressionChronicle,
    interval: Interval,
    ch: &mut ChronicleHierarchy,
    Ghost(st0): Ghost<HierarchyModel>,
) -> (r: Result<ExpressionChronicle, ConversionError>)
    requires
        old(ch).sym_table.wf(),
        opened_list(st0, old(ch)@, interval, ec@, models(l@)),
        models(l@)[0] == Sexp::CoreOperator(LCoreOperator::Begin) || models(l@)[0]
            == Sexp::CoreOperator(LCoreOperator::Do),
    ensures
        final(ch).sym_table.wf(),
        final(ch)@ == conv(Sexp::List(models(l@)), st0).st,
        is_chronicle(r, conv(Sexp::List(models(l@)), st0)),
    decreases *l, 1nat,
{
    let mut ec = ec;
    ch.sym_table.new_scope();
    let mut literal: Vec<Lit> = Vec::new();
    assert(lit_models(literal@) =~= Seq::<LitModel>::empty());
    let (previous, _) = match convert_parts(l, true, &mut ec, &mut literal, interval, ch) {
        Ok(x) => x,
        Err(e) => { return Err(e); },
    };
    ec.add_constraint(Constraint::Eq(Lit::Atom(previous.end()), Lit::Atom(interval.end())));
    ch.sym_table.revert_scope();
    Ok(ec)
}

/// The conversion of an assertion, once its chronicle is opened.
fn convert_assertion(
    l: &Vec<LValue>,
    ec: ExpressionChronicle,
    interval: Interval,
    ch: &mut ChronicleHierarchy,
    Ghost(st0): Ghost<HierarchyModel>,
) -> (r: Result<ExpressionChronicle, ConversionError>)
    requires
        old(ch).sym_table.wf(),
        opened_list(st0, old(ch)@, interval, ec@, models(l@)),
        !(models(l@)[0] is CoreOperator),
        is_assertion(models(l@)[0]),
    ensures
        final(ch).sym_table.wf(),
        final(ch)@ == conv(Sexp::List(models(l@)), st0).st,
        is_chronicle(r, conv(Sexp::List(models(l@)), st0)),
    decreases *l, 0nat,
{
    let mut ec = ec;
    let ghost ml = models(l@);
    ch.sym_table.new_scope();
    if l.len() != 3 {
        return Err(ConversionError::WrongNumberOfArguments);
    }
    assert(ml[1] == l@[1]@);
    assert(ml[2] == l@[2]@);
    let state_variable = match convert_lvalue_to_expression_chronicle(&l[1], ch) {
        Ok(v) => v,
        Err(e) => { return Err(e); },
    };
    let value = match convert_lvalue_to_expression_chronicle(&l[2], ch) {
        Ok(v) => v,
        Err(e) => { return Err(e); },
    };
    if ch.sym_table.n_atoms() >= usize::MAX - 1 {
        return Err(ConversionError::Full);
    }
    add_own_effect(&mut ec, state_variable.get_result(), value.get_result());
    ec.absorb(state_variable);
    ec.absorb(value);
    ec.set_pure_result(Lit::Atom(ch.sym_table.new_bool(false)));
    Ok(ec)
}

/// The conversion of a call, once its chronicle is opened.
fn convert_call(
    l: &Vec<LValue>,
    ec: ExpressionChronicle,
    interval: Interval,
    ch: &mut ChronicleHierarchy,
    Ghost(st0): Ghost<HierarchyModel>,
) -> (r: Result<ExpressionChronicle, ConversionError>)
    requires
        old(ch).sym_table.wf(),
        opened_list(st0, old(ch)@, interval, ec@, models(l@)),
        !(models(l@)[0] is CoreOperator),
        !is_assertion(models(l@)[0]),
    ensures
        final(ch).sym_table.wf(),
        final(ch)@ == conv(Sexp::List(models(l@)), st0).st,
        is_chronicle(r, conv(Sexp::List(models(l@)), st0)),
    decreases *l, 1nat,
{
    let mut ec = ec;
    let ghost ml = models(l@);
    assert(ml[0] == l@[0]@);
    ch.sym_table.new_scope();
    let (etype, mut literal) = match classify_head(&l[0], &ch.sym_table) {
        Ok(x) => x,
        Err(e) => { return Err(e); },
    };
    let (previous, pure) = match convert_parts(l, false, &mut ec, &mut literal, interval, ch) {
        Ok(x) => x,
        Err(e) => { return Err(e); },
    };
    match finish_call(&mut ec, literal, etype, previous, pure, interval.end(), &ch.sym_table) {
        Ok(()) => {},
        Err(e) => { return Err(e); },
    }
    ch.sym_table.revert_scope();
    Ok(ec)
}

/// Tells whether an expression is a conditional: a list that begins with
/// the operator `if`.
pub open spec fn is_conditional(exp: Sexp) -> bool {
    exp matches Sexp::List(l) && l.len() >= 1 && l[0] == Sexp::CoreOperator(LCoreOperator::If)
}

/// Converts a conditional into its chronicle: a subtask for a task made up
/// for it, whose two methods are its branches. What is no conditional is
/// refused, and nothing changes.
pub fn convert_if(exp: &LValue, ch: &mut ChronicleHierarchy) -> (r: Result<
    ExpressionChronicle,
    ConversionError,
>)
    requires
        old(ch).sym_table.wf(),
    ensures
        final(ch).sym_table.wf(),
        !is_conditional(exp@) ==> r == Err::<ExpressionChronicle, ConversionError>(
            ConversionError::NotAConditional,
        ) && final(ch)@ == old(ch)@,
        is_conditional(exp@) ==> final(ch)@ == conv(exp@, old(ch)@).st && is_chronicle(
            r,
            conv(exp@, old(ch)@),
        ),
{
    let conditional = match exp {
        LValue::List(l) => {
            proof {
                lemma_list_model(*l);
            }
            if l.len() >= 1 {
                assert(models(l@)[0] == l@[0]@);
                match &l[0] {
                    LValue::CoreOperator(LCoreOperator::If) => true,
                    _ => false,
                }
            } else {
                false
            }
        },
        _ => false,
    };
    if !conditional {
        return Err(ConversionError::NotAConditional);
    }
    convert_lvalue_to_expression_chronicle(exp, ch)
}

/// The conversion of the parts of an expression stops at the first part
/// that cannot be converted.
pub proof fn lemma_parts_stop(
    l: Seq<Sexp>,
    k: nat,
    n: nat,
    sequence: bool,
    st: HierarchyModel,
    init: Parts,
)
    requires
        1 <= k <= n < l.len(),
        conv_parts(l, k, sequence, st, init).result is Err,
    ensures
        conv_parts(l, n, sequence, st, init) == conv_parts(l, k, sequence, st, init),
    decreases n,
{
    if k < n {
        lemma_parts_stop(l, k, (n - 1) as nat, sequence, st, init);
    }
}

} // verus!
