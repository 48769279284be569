//! The chronicles of the tasks, methods and commands of a domain: the name
//! of the entry with its parameters, the task that it achieves, and what its
//! body contributes.
use crate::domain::{Parameters, Task, TaskModel};
use crate::lvalue::{clone_string, string_views, LLambda, LValue, LambdaArgs, ParamsModel, Sexp};
use crate::planning::atom::AtomId;
use crate::planning::chronicle::PartialChronicleModel;
use crate::planning::conversion::{
    conv, convert_lvalue_to_expression_chronicle, ChronicleHierarchy, ConversionError,
    HierarchyModel, Outcome,
};
use crate::planning::expression_chronicle::{
    Chronicle, ChronicleModel, ExpressionChronicleModel,
};
use crate::planning::lit::{lemma_exp_model, lit_models, Lit, LitModel};
use crate::planning::pre_processing::{pre_processed, pre_processing};
use crate::planning::sym_table::SymTableModel;
use vstd::prelude::*;

verus! {

/// The names that a lambda binds one by one: those of a list of parameters,
/// none otherwise.
pub open spec fn bound_names(p: ParamsModel) -> Seq<Seq<char>> {
    match p {
        ParamsModel::List(l) => l,
        _ => Seq::empty(),
    }
}

/// The table once a new version of each of the first `n` names has been
/// declared as a variable, one after the other.
pub open spec fn with_params(st: SymTableModel, names: Seq<Seq<char>>, n: nat) -> SymTableModel
    decreases n,
{
    if n == 0 || n > names.len() {
        st
    } else {
        with_params(st, names, (n - 1) as nat).with_new_variable(names[n - 1])
    }
}

/// The atoms `first`, `first + 1`, and so on, `n` of them, as literals.
pub open spec fn atoms_from(first: nat, n: nat) -> Seq<LitModel> {
    Seq::new(n, |k: int| LitModel::Atom((first + k) as AtomId))
}

/// The chronicle once it has taken in the chronicle of an expression: what
/// the expression contributes, the atom of its result and the two timepoints
/// of its interval.
pub open spec fn taken_in(c: ChronicleModel, ec: ExpressionChronicleModel) -> ChronicleModel {
    ChronicleModel {
        partial: PartialChronicleModel {
            variables: c.partial.absorb(ec.partial).variables.insert(ec.result_id).insert(
                ec.interval.first(),
            ).insert(ec.interval.last()),
            ..c.partial.absorb(ec.partial)
        },
        ..c
    }
}

/// Why no chronicle is made of a lambda before its body is looked at, if
/// that is so: the lambda binds other parameters than were declared, the
/// task has more parameters than the entry, or the table has no room.
pub open spec fn template_error(
    params: ParamsModel,
    task: Option<TaskModel>,
    declared: nat,
    st: SymTableModel,
) -> Option<ConversionError> {
    if params is List && bound_names(params).len() != declared {
        Some(ConversionError::ParametersDiffer)
    } else if task is Some && task->0.parameters.names.len() > bound_names(params).len() {
        Some(ConversionError::ParametersDiffer)
    } else if !st.has_room(bound_names(params).len() + 2) {
        Some(ConversionError::Full)
    } else {
        None
    }
}

/// The table in which the body of an entry is converted: the label of the
/// entry and that of its task are symbols, and in a scope of its own each
/// parameter has a new version.
pub open spec fn template_table(
    params: ParamsModel,
    label: Seq<char>,
    task: Option<TaskModel>,
    st: SymTableModel,
) -> SymTableModel {
    let named = st.with_symbol(label);
    let tasked = match task {
        Some(t) => named.with_symbol(t.label),
        None => named,
    };
    with_params(tasked.scoped(), bound_names(params), bound_names(params).len())
}

/// The chronicle of an entry before its body is taken in: its name is the
/// symbol of its label followed by its parameters, its task is the symbol of
/// the task followed by as many parameters as the task has, or its name
/// where it achieves no task, and its variables are its parameters.
pub open spec fn template_head(
    params: ParamsModel,
    body: Sexp,
    label: Seq<char>,
    task: Option<TaskModel>,
    st: SymTableModel,
) -> ChronicleModel {
    let named = st.with_symbol(label);
    let tasked = match task {
        Some(t) => named.with_symbol(t.label),
        None => named,
    };
    let first = tasked.atoms.len();
    let n = bound_names(params).len();
    let name = seq![LitModel::Atom(st.symbol_id(label))] + atoms_from(first, n);
    ChronicleModel {
        name: LitModel::Exp(name),
        task: match task {
            Some(t) => LitModel::Exp(
                seq![LitModel::Atom(named.symbol_id(t.label))] + atoms_from(
                    first,
                    t.parameters.names.len(),
                ),
            ),
            None => LitModel::Exp(name),
        },
        partial: PartialChronicleModel {
            variables: Set::new(|a: AtomId| first <= a < first + n),
            ..PartialChronicleModel::empty()
        },
        debug: Some(body),
    }
}

/// The chronicle of an entry of the domain, and the hierarchy afterwards.
#[verifier::opaque]
pub open spec fn template(
    params: ParamsModel,
    body: Sexp,
    label: Seq<char>,
    task: Option<TaskModel>,
    declared: nat,
    h: HierarchyModel,
) -> Outcome<ChronicleModel> {
    match template_error(params, task, declared, h.st) {
        Some(e) => Outcome { st: h, result: Err(e) },
        None => {
            let c = conv(
                pre_processed(body),
                h.on(template_table(params, label, task, h.st)),
            );
            Outcome {
                st: c.st.on(c.st.st.unscoped()),
                result: match c.result {
                    Err(e) => Err(e),
                    Ok(ec) => Ok(taken_in(template_head(params, body, label, task, h.st), ec)),
                },
            }
        },
    }
}

/// Tells whether `r` is the chronicle, or the error, that `c` gives.
pub open spec fn is_template(r: Result<Chronicle, ConversionError>, c: Outcome<ChronicleModel>) -> bool {
    match c.result {
        Ok(m) => r matches Ok(x) && x@ == m,
        Err(e) => r matches Err(x) && x == e,
    }
}

/// Declares the label of an entry, that of its task and, in a scope of its
/// own, its parameters, and makes the chronicle that holds its name, its
/// task and its parameters as variables.
fn open_template(
    names: &Vec<String>,
    body: &LValue,
    label: &str,
    task: Option<&Task>,
    ch: &mut ChronicleHierarchy,
    Ghost(params): Ghost<ParamsModel>,
) -> (chronicle: Chronicle)
    requires
        old(ch).sym_table.wf(),
        string_views(names@) == bound_names(params),
        old(ch)@.st.has_room(names@.len() + 2),
        task matches Some(t) ==> t@.parameters.names.len() <= names@.len(),
    ensures
        final(ch).sym_table.wf(),
        final(ch)@ == old(ch)@.on(
            template_table(
                params,
                label@,
                match task {
                    Some(t) => Some(t@),
                    None => None,
                },
                old(ch)@.st,
            ),
        ),
        chronicle@ == template_head(
            params,
            body@,
            label@,
            match task {
                Some(t) => Some(t@),
                None => None,
            },
            old(ch)@.st,
        ),
{
    let ghost h0 = ch@;
    let ghost l = string_views(names@);
    let n = names.len();
    let in_task: usize = match task {
        Some(t) => t.parameters.len(),
        None => 0,
    };
    let id0 = ch.sym_table.declare_new_symbol(String::from_str(label), false);
    let task_id = match task {
        Some(t) => ch.sym_table.declare_new_symbol(clone_string(&t.label), false),
        None => id0,
    };
    ch.sym_table.new_scope();
    let first = ch.sym_table.n_atoms();
    let ghost scoped = ch.sym_table@;
    let mut chronicle = Chronicle::default();
    chronicle.set_debug(Some(body.clone()));
    let mut name: Vec<Lit> = Vec::new();
    name.push(Lit::Atom(id0));
    let mut task_name: Vec<Lit> = Vec::new();
    task_name.push(Lit::Atom(task_id));
    let mut k: usize = 0;
    proof {
        assert(chronicle@.partial.variables =~= Set::new(|a: AtomId| first <= a < first + 0));
    }
    while k < n
        invariant
            k <= n,
            n == names.len(),
            in_task <= n,
            l == string_views(names@),
            ch.sym_table.wf(),
            ch@ == h0.on(with_params(scoped, l, k as nat)),
            ch.sym_table@.atoms.len() == first + k,
            first + n + 1 < usize::MAX,
            name.len() == k + 1,
            name[0]@ == LitModel::Atom(id0),
            forall|j: int| 1 <= j <= k ==> (#[trigger] name[j])@ == LitModel::Atom((first + j - 1) as AtomId),
            task_name.len() == (if k < in_task { k } else { in_task }) + 1,
            task_name[0]@ == LitModel::Atom(task_id),
            forall|j: int|
                1 <= j < task_name.len() ==> (#[trigger] task_name[j])@ == LitModel::Atom(
                    (first + j - 1) as AtomId,
                ),
            chronicle@ == (ChronicleModel {
                name: LitModel::Exp(Seq::empty()),
                task: LitModel::Exp(Seq::empty()),
                partial: PartialChronicleModel {
                    variables: Set::new(|a: AtomId| first <= a < first + k),
                    ..PartialChronicleModel::empty()
                },
                debug: Some(body@),
            }),
        decreases n - k,
    {
        let ghost vars = chronicle@.partial.variables;
        let id = ch.sym_table.declare_new_variable(clone_string(&names[k]), true);
        chronicle.add_var(&id);
        name.push(Lit::Atom(id));
        if k < in_task {
            task_name.push(Lit::Atom(id));
        }
        proof {
            assert(vars.insert(id) =~= Set::new(|a: AtomId| first <= a < first + k + 1));
        }
        k += 1;
    }
    proof {
        lemma_exp_model(name);
        lemma_exp_model(task_name);
        assert(lit_models(name@) =~= seq![LitModel::Atom(id0)] + atoms_from(
            first as nat,
            n as nat,
        ));
        assert(lit_models(task_name@) =~= seq![LitModel::Atom(task_id)] + atoms_from(
            first as nat,
            in_task as nat,
        ));
    }
    match task {
        Some(_) => {
            chronicle.set_name(Lit::Exp(name));
            chronicle.set_task(Lit::Exp(task_name));
        },
        None => {
            let same = Lit::Exp(name);
            chronicle.set_task(same.clone());
            chronicle.set_name(same);
        },
    }
    chronicle
}

/// Makes the chronicle of a task, a method or a command out of its lambda.
///
/// The label of the entry, and that of the task that it achieves, become
/// symbols. In a scope of its own each parameter of the lambda gets a new
/// version, which is a variable of the chronicle; then the body, with its
/// applications of lambdas written out, is converted and taken in, and the
/// scope is closed. A lambda that binds a list of
/// parameters must bind as many as `parameters` declares, and a task cannot
/// have more parameters than the entry that achieves it.
pub fn convert_abstract_task_to_chronicle(
    lambda: &LLambda,
    label: &str,
    task: Option<&Task>,
    parameters: &Parameters,
    ch: &mut ChronicleHierarchy,
) -> (r: Result<Chronicle, ConversionError>)
    requires
        old(ch).sym_table.wf(),
    ensures
        final(ch).sym_table.wf(),
        final(ch)@ == template(
            lambda.params@,
            (*lambda.body)@,
            label@,
            match task {
                Some(t) => Some(t@),
                None => None,
            },
            parameters@.names.len(),
            old(ch)@,
        ).st,
        is_template(
            r,
            template(
                lambda.params@,
                (*lambda.body)@,
                label@,
                match task {
                    Some(t) => Some(t@),
                    None => None,
                },
                parameters@.names.len(),
                old(ch)@,
            ),
        ),
{
    reveal(template);
    let none: Vec<String> = Vec::new();
    let names: &Vec<String> = match &lambda.params {
        LambdaArgs::List(l) => {
            if l.len() != parameters.len() {
                return Err(ConversionError::ParametersDiffer);
            }
            l
        },
        _ => &none,
    };
    assert(string_views(names@) =~= bound_names(lambda.params@));
    let n = names.len();
    match task {
        Some(t) => {
            if t.parameters.len() > n {
                return Err(ConversionError::ParametersDiffer);
            }
        },
        None => {},
    }
    let room = ch.sym_table.n_atoms();
    if n >= usize::MAX - 3 || room >= usize::MAX - 3 - n {
        return Err(ConversionError::Full);
    }
    let mut chronicle = open_template(names, &*lambda.body, label, task, ch, Ghost(lambda.params@));
    let body = pre_processing(&*lambda.body);
    let converted = convert_lvalue_to_expression_chronicle(&body, ch);
    ch.sym_table.revert_scope();
    match converted {
        Ok(ec) => {
            chronicle.absorb_expression_chronicle(ec);
            Ok(chronicle)
        },
        Err(e) => Err(e),
    }
}

} // verus!
