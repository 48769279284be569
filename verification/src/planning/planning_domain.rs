//! The chronicles of a whole domain: one for each command and for each
//! method, made in the order of their declaration.
use crate::domain::{CommandModel, DomainModel, MethodModel, OMPASDomain, Parameters, Task, TaskModel};
use crate::lvalue::{clone_string, string_views, LValue, Sexp};
use crate::planning::conversion::{
    chronicle_models, ChronicleHierarchy, ConversionError, HierarchyModel, Outcome,
};
use crate::planning::expression_chronicle::{Chronicle, ChronicleModel};
use crate::planning::atom::AtomType;
use crate::planning::sym_table::{SymTable, SymTableModel};
use crate::planning::template::{convert_abstract_task_to_chronicle, is_template, template};
use vstd::prelude::*;

verus! {

/// The chronicle of an entry whose behaviour is given as a value: that of
/// its lambda, and none where the value is no lambda.
pub open spec fn entry_template(
    lambda: Sexp,
    label: Seq<char>,
    task: Option<TaskModel>,
    declared: nat,
    h: HierarchyModel,
) -> Outcome<ChronicleModel> {
    match lambda {
        Sexp::Lambda(p, b) => template(p, *b, label, task, declared, h),
        _ => Outcome { st: h, result: Err(ConversionError::NotALambda) },
    }
}

/// The chronicle of a command: that of its model.
pub open spec fn command_template(c: CommandModel, h: HierarchyModel) -> Outcome<ChronicleModel> {
    entry_template(c.model, c.label, None, c.parameters.names.len(), h)
}

/// The task that a method refines, where it is declared.
pub open spec fn task_of(d: DomainModel, m: MethodModel) -> Option<TaskModel> {
    if d.tasks.has(m.task_label) {
        Some(d.tasks.get(m.task_label))
    } else {
        None
    }
}

/// The chronicle of a method: that of its body, which achieves the task of
/// the method.
pub open spec fn method_template(d: DomainModel, m: MethodModel, h: HierarchyModel) -> Outcome<
    ChronicleModel,
> {
    entry_template(m.body, m.label, task_of(d, m), m.parameters.names.len(), h)
}

/// The chronicles of the first `n` commands, one after the other.
pub open spec fn command_templates(d: DomainModel, n: nat, h: HierarchyModel) -> Outcome<
    Seq<ChronicleModel>,
>
    decreases n,
{
    if n == 0 || n > d.commands.entries.len() {
        Outcome { st: h, result: Ok(Seq::empty()) }
    } else {
        let before = command_templates(d, (n - 1) as nat, h);
        match before.result {
            Err(e) => before,
            Ok(done) => {
                let c = command_template(d.commands.entries[n - 1], before.st);
                match c.result {
                    Err(e) => Outcome { st: c.st, result: Err(e) },
                    Ok(t) => Outcome { st: c.st, result: Ok(done.push(t)) },
                }
            },
        }
    }
}

/// The chronicles of the first `n` methods, one after the other.
pub open spec fn method_templates(d: DomainModel, n: nat, h: HierarchyModel) -> Outcome<
    Seq<ChronicleModel>,
>
    decreases n,
{
    if n == 0 || n > d.methods.entries.len() {
        Outcome { st: h, result: Ok(Seq::empty()) }
    } else {
        let before = method_templates(d, (n - 1) as nat, h);
        match before.result {
            Err(e) => before,
            Ok(done) => {
                let c = method_template(d, d.methods.entries[n - 1], before.st);
                match c.result {
                    Err(e) => Outcome { st: c.st, result: Err(e) },
                    Ok(t) => Outcome { st: c.st, result: Ok(done.push(t)) },
                }
            },
        }
    }
}

/// The chronicles of a domain, with the labels of what they were made of.
pub struct PlanningDomain {
    pub tasks: Vec<String>,
    pub methods: Vec<String>,
    pub commands: Vec<String>,
    pub state_functions: Vec<String>,
    pub templates: Vec<Chronicle>,
}

/// The chronicles of a domain, as contracts see them.
pub struct PlanningDomainModel {
    pub tasks: Seq<Seq<char>>,
    pub methods: Seq<Seq<char>>,
    pub commands: Seq<Seq<char>>,
    pub state_functions: Seq<Seq<char>>,
    pub templates: Seq<ChronicleModel>,
}

impl View for PlanningDomain {
    type V = PlanningDomainModel;

    open spec fn view(&self) -> PlanningDomainModel {
        PlanningDomainModel {
            tasks: string_views(self.tasks@),
            methods: string_views(self.methods@),
            commands: string_views(self.commands@),
            state_functions: string_views(self.state_functions@),
            templates: chronicle_models(self.templates@),
        }
    }
}

/// The chronicles of a whole domain, and the hierarchy afterwards: those of
/// the commands, then those of the methods. The tasks and the state
/// functions are listed by their labels.
pub open spec fn acting_domain(d: DomainModel, h: HierarchyModel) -> Outcome<PlanningDomainModel> {
    let c = command_templates(d, d.commands.entries.len(), h);
    match c.result {
        Err(e) => Outcome { st: c.st, result: Err(e) },
        Ok(cs) => {
            let m = method_templates(d, d.methods.entries.len(), c.st);
            match m.result {
                Err(e) => Outcome { st: m.st, result: Err(e) },
                Ok(ms) => Outcome {
                    st: m.st,
                    result: Ok(
                        PlanningDomainModel {
                            tasks: task_labels(d, d.tasks.entries.len()),
                            methods: method_labels(d, d.methods.entries.len()),
                            commands: command_labels(d, d.commands.entries.len()),
                            state_functions: state_function_labels(
                                d,
                                d.state_functions.entries.len(),
                            ),
                            templates: cs + ms,
                        },
                    ),
                },
            }
        },
    }
}

/// Tells whether `r` holds the chronicles, or is the error, that `c` gives.
pub open spec fn is_domain(r: Result<PlanningDomain, ConversionError>, c: Outcome<PlanningDomainModel>) -> bool {
    match c.result {
        Ok(m) => r matches Ok(x) && x@ == m,
        Err(e) => r matches Err(x) && x == e,
    }
}

/// Once a command has no chronicle, the commands that follow are not looked
/// at.
proof fn lemma_commands_stop(d: DomainModel, n: nat, m: nat, h: HierarchyModel)
    requires
        n <= m <= d.commands.entries.len(),
        command_templates(d, n, h).result is Err,
    ensures
        command_templates(d, m, h) == command_templates(d, n, h),
    decreases m,
{
    if n < m {
        lemma_commands_stop(d, n, (m - 1) as nat, h);
    }
}

/// Once a method has no chronicle, the methods that follow are not looked
/// at.
proof fn lemma_methods_stop(d: DomainModel, n: nat, m: nat, h: HierarchyModel)
    requires
        n <= m <= d.methods.entries.len(),
        method_templates(d, n, h).result is Err,
    ensures
        method_templates(d, m, h) == method_templates(d, n, h),
    decreases m,
{
    if n < m {
        lemma_methods_stop(d, n, (m - 1) as nat, h);
    }
}

/// Makes the chronicle of an entry whose behaviour is given as a value.
pub fn convert_entry(
    lambda: &LValue,
    label: &str,
    task: Option<&Task>,
    parameters: &Parameters,
    ch: &mut ChronicleHierarchy,
) -> (r: Result<Chronicle, ConversionError>)
    requires
        old(ch).sym_table.wf(),
    ensures
        final(ch).sym_table.wf(),
        final(ch)@ == entry_template(
            lambda@,
            label@,
            match task {
                Some(t) => Some(t@),
                None => None,
            },
            parameters@.names.len(),
            old(ch)@,
        ).st,
        is_template(
            r,
            entry_template(
                lambda@,
                label@,
                match task {
                    Some(t) => Some(t@),
                    None => None,
                },
                parameters@.names.len(),
                old(ch)@,
            ),
        ),
{
    match lambda {
        LValue::Lambda(l) => convert_abstract_task_to_chronicle(l, label, task, parameters, ch),
        _ => Err(ConversionError::NotALambda),
    }
}

/// The labels of the first `n` commands.
pub open spec fn command_labels(d: DomainModel, n: nat) -> Seq<Seq<char>> {
    Seq::new(n, |i: int| d.commands.entries[i].label)
}

/// The labels of the first `n` methods.
pub open spec fn method_labels(d: DomainModel, n: nat) -> Seq<Seq<char>> {
    Seq::new(n, |i: int| d.methods.entries[i].label)
}

/// The labels of the first `n` tasks.
pub open spec fn task_labels(d: DomainModel, n: nat) -> Seq<Seq<char>> {
    Seq::new(n, |i: int| d.tasks.entries[i].label)
}

/// Tells whether `r` holds the chronicles, or is the error, that `c` gives.
pub open spec fn are_templates(r: Result<Vec<Chronicle>, ConversionError>, c: Outcome<Seq<ChronicleModel>>) -> bool {
    match c.result {
        Ok(m) => r matches Ok(x) && chronicle_models(x@) == m,
        Err(e) => r matches Err(x) && x == e,
    }
}

/// The labels of the tasks of a domain, in the order of their declaration.
pub fn labels_of_tasks(domain: &OMPASDomain) -> (v: Vec<String>)
    ensures
        string_views(v@) == task_labels(domain@, domain@.tasks.entries.len()),
{
    let mut v: Vec<String> = Vec::new();
    let n = domain.n_tasks();
    let mut i: usize = 0;
    while i < n
        invariant
            i <= n,
            n == domain@.tasks.entries.len(),
            v.len() == i,
            forall|j: int| 0 <= j < i ==> (#[trigger] v[j])@ == domain@.tasks.entries[j].label,
        decreases n - i,
    {
        v.push(clone_string(&domain.task_at(i).label));
        i += 1;
    }
    assert(string_views(v@) =~= task_labels(domain@, n as nat));
    v
}

/// The labels of the commands of a domain, in the order of their
/// declaration.
pub fn labels_of_commands(domain: &OMPASDomain) -> (v: Vec<String>)
    ensures
        string_views(v@) == command_labels(domain@, domain@.commands.entries.len()),
{
    let mut v: Vec<String> = Vec::new();
    let n = domain.n_commands();
    let mut i: usize = 0;
    while i < n
        invariant
            i <= n,
            n == domain@.commands.entries.len(),
            v.len() == i,
            forall|j: int| 0 <= j < i ==> (#[trigger] v[j])@ == domain@.commands.entries[j].label,
        decreases n - i,
    {
        v.push(clone_string(&domain.command_at(i).label));
        i += 1;
    }
    assert(string_views(v@) =~= command_labels(domain@, n as nat));
    v
}

/// The labels of the methods of a domain, in the order of their
/// declaration.
pub fn labels_of_methods(domain: &OMPASDomain) -> (v: Vec<String>)
    ensures
        string_views(v@) == method_labels(domain@, domain@.methods.entries.len()),
{
    let mut v: Vec<String> = Vec::new();
    let n = domain.n_methods();
    let mut i: usize = 0;
    while i < n
        invariant
            i <= n,
            n == domain@.methods.entries.len(),
            v.len() == i,
            forall|j: int| 0 <= j < i ==> (#[trigger] v[j])@ == domain@.methods.entries[j].label,
        decreases n - i,
    {
        v.push(clone_string(&domain.method_at(i).label));
        i += 1;
    }
    assert(string_views(v@) =~= method_labels(domain@, n as nat));
    v
}

/// Makes the chronicles of the commands of a domain, in the order of their
/// declaration, and stops at the first command that has none.
pub fn convert_commands(domain: &OMPASDomain, ch: &mut ChronicleHierarchy) -> (r: Result<
    Vec<Chronicle>,
    ConversionError,
>)
    requires
        old(ch).sym_table.wf(),
    ensures
        final(ch).sym_table.wf(),
        final(ch)@ == command_templates(domain@, domain@.commands.entries.len(), old(ch)@).st,
        are_templates(r, command_templates(domain@, domain@.commands.entries.len(), old(ch)@)),
{
    let ghost d = domain@;
    let ghost h0 = ch@;
    let mut templates: Vec<Chronicle> = Vec::new();
    let n = domain.n_commands();
    let mut c: usize = 0;
    assert(chronicle_models(templates@) =~= Seq::<ChronicleModel>::empty());
    while c < n
        invariant
            c <= n,
            n == d.commands.entries.len(),
            d == domain@,
            h0 == old(ch)@,
            ch.sym_table.wf(),
            ch@ == command_templates(d, c as nat, h0).st,
            command_templates(d, c as nat, h0).result == Ok::<Seq<ChronicleModel>, ConversionError>(
                chronicle_models(templates@),
            ),
        decreases n - c,
    {
        let command = domain.command_at(c);
        let ghost before = chronicle_models(templates@);
        match convert_entry(&command.model, command.label.as_str(), None, &command.parameters, ch) {
            Ok(t) => {
                templates.push(t);
                assert(chronicle_models(templates@) =~= before.push(t@));
            },
            Err(e) => {
                proof {
                    lemma_commands_stop(d, (c + 1) as nat, n as nat, h0);
                }
                return Err(e);
            },
        }
        c += 1;
    }
    Ok(templates)
}

/// Makes the chronicles of the methods of a domain, in the order of their
/// declaration, and stops at the first method that has none.
pub fn convert_methods(domain: &OMPASDomain, ch: &mut ChronicleHierarchy) -> (r: Result<
    Vec<Chronicle>,
    ConversionError,
>)
    requires
        old(ch).sym_table.wf(),
    ensures
        final(ch).sym_table.wf(),
        final(ch)@ == method_templates(domain@, domain@.methods.entries.len(), old(ch)@).st,
        are_templates(r, method_templates(domain@, domain@.methods.entries.len(), old(ch)@)),
{
    let ghost d = domain@;
    let ghost h0 = ch@;
    let mut templates: Vec<Chronicle> = Vec::new();
    let n = domain.n_methods();
    let mut m: usize = 0;
    assert(chronicle_models(templates@) =~= Seq::<ChronicleModel>::empty());
    while m < n
        invariant
            m <= n,
            n == d.methods.entries.len(),
            d == domain@,
            h0 == old(ch)@,
            ch.sym_table.wf(),
            ch@ == method_templates(d, m as nat, h0).st,
            method_templates(d, m as nat, h0).result == Ok::<Seq<ChronicleModel>, ConversionError>(
                chronicle_models(templates@),
            ),
        decreases n - m,
    {
        let method = domain.method_at(m);
        let task = domain.get_task(method.task_label.as_str());
        let ghost before = chronicle_models(templates@);
        match convert_entry(&method.lambda_body, method.label.as_str(), task, &method.parameters, ch) {
            Ok(t) => {
                templates.push(t);
                assert(chronicle_models(templates@) =~= before.push(t@));
            },
            Err(e) => {
                proof {
                    lemma_methods_stop(d, (m + 1) as nat, n as nat, h0);
                }
                return Err(e);
            },
        }
        m += 1;
    }
    Ok(templates)
}

/// Makes the chronicles of a whole domain: one for each command, out of its
/// model, then one for each method, out of its body, in the order of their
/// declaration. Stops at the first entry that has no chronicle.
pub fn convert_acting_domain(domain: &OMPASDomain, ch: &mut ChronicleHierarchy) -> (r: Result<
    PlanningDomain,
    ConversionError,
>)
    requires
        old(ch).sym_table.wf(),
    ensures
        final(ch).sym_table.wf(),
        final(ch)@ == acting_domain(domain@, old(ch)@).st,
        is_domain(r, acting_domain(domain@, old(ch)@)),
{
    let mut templates = match convert_commands(domain, ch) {
        Ok(t) => t,
        Err(e) => {
            return Err(e);
        },
    };
    let mut of_methods = match convert_methods(domain, ch) {
        Ok(t) => t,
        Err(e) => {
            return Err(e);
        },
    };
    let ghost cs = chronicle_models(templates@);
    let ghost ms = chronicle_models(of_methods@);
    templates.append(&mut of_methods);
    assert(chronicle_models(templates@) =~= cs + ms);
    Ok(
        PlanningDomain {
            tasks: labels_of_tasks(domain),
            methods: labels_of_methods(domain),
            commands: labels_of_commands(domain),
            state_functions: labels_of_state_functions(domain),
            templates,
        },
    )
}

/// The labels of the first `n` state functions.
pub open spec fn state_function_labels(d: DomainModel, n: nat) -> Seq<Seq<char>> {
    Seq::new(n, |i: int| d.state_functions.entries[i].label)
}

/// The labels of the state functions of a domain, in the order of their
/// declaration.
pub fn labels_of_state_functions(domain: &OMPASDomain) -> (v: Vec<String>)
    ensures
        string_views(v@) == state_function_labels(domain@, domain@.state_functions.entries.len()),
{
    let mut v: Vec<String> = Vec::new();
    let n = domain.n_state_functions();
    let mut i: usize = 0;
    while i < n
        invariant
            i <= n,
            n == domain@.state_functions.entries.len(),
            v.len() == i,
            forall|j: int|
                0 <= j < i ==> (#[trigger] v[j])@ == domain@.state_functions.entries[j].label,
        decreases n - i,
    {
        v.push(clone_string(&domain.state_function_at(i).label));
        i += 1;
    }
    assert(string_views(v@) =~= state_function_labels(domain@, n as nat));
    v
}

/// Tells whether each name of `list` is new when its turn comes to be
/// declared in the table.
pub open spec fn all_new(st: SymTableModel, list: Seq<Seq<char>>, t: AtomType) -> bool {
    forall|k: int|
        0 <= k < list.len() ==> !(#[trigger] st.with_symbols(list, k as nat, t)).names.has(list[k])
}

/// The table once the tasks of a domain have been declared.
pub open spec fn with_tasks(d: DomainModel, st: SymTableModel) -> SymTableModel {
    st.with_symbols(
        task_labels(d, d.tasks.entries.len()),
        d.tasks.entries.len(),
        AtomType::Task,
    )
}

/// The table once the tasks and the commands of a domain have been declared.
pub open spec fn with_commands(d: DomainModel, st: SymTableModel) -> SymTableModel {
    with_tasks(d, st).with_symbols(
        command_labels(d, d.commands.entries.len()),
        d.commands.entries.len(),
        AtomType::Action,
    )
}

/// The table once the tasks, the commands and the methods of a domain have
/// been declared.
pub open spec fn with_methods(d: DomainModel, st: SymTableModel) -> SymTableModel {
    with_commands(d, st).with_symbols(
        method_labels(d, d.methods.entries.len()),
        d.methods.entries.len(),
        AtomType::Method,
    )
}

/// The table once the labels of a domain have been declared: the tasks, the
/// commands, the methods and the state functions, each with its type.
pub open spec fn with_domain(d: DomainModel, st: SymTableModel) -> SymTableModel {
    with_methods(d, st).with_symbols(
        state_function_labels(d, d.state_functions.entries.len()),
        d.state_functions.entries.len(),
        AtomType::StateFunction,
    )
}

/// The number of labels of a domain.
pub open spec fn n_labels(d: DomainModel) -> nat {
    d.tasks.entries.len() + d.commands.entries.len() + d.methods.entries.len()
        + d.state_functions.entries.len()
}

/// Tells whether every label of a domain is new when its turn comes to be
/// declared.
pub open spec fn domain_is_new(d: DomainModel, st: SymTableModel) -> bool {
    &&& all_new(st, task_labels(d, d.tasks.entries.len()), AtomType::Task)
    &&& all_new(with_tasks(d, st), command_labels(d, d.commands.entries.len()), AtomType::Action)
    &&& all_new(with_commands(d, st), method_labels(d, d.methods.entries.len()), AtomType::Method)
    &&& all_new(
        with_methods(d, st),
        state_function_labels(d, d.state_functions.entries.len()),
        AtomType::StateFunction,
    )
}

/// Declares one kind of labels, and tells whether all of them were new.
fn declare_labels(labels: Vec<String>, t: AtomType, st: &mut SymTable) -> (all: bool)
    requires
        old(st).wf(),
        old(st).has_room(labels@.len()),
    ensures
        final(st).wf(),
        all == all_new(old(st)@, string_views(labels@), t),
        all ==> final(st)@ == old(st)@.with_symbols(
            string_views(labels@),
            labels@.len() as nat,
            t,
        ),
        final(st)@.atoms.len() <= old(st)@.atoms.len() + labels@.len(),
{
    let ghost l = string_views(labels@);
    let (n, stopped) = st.add_list_of_symbols_of_same_type(labels, &t);
    proof {
        if stopped is Some {
            let k: int = n as int;
            assert(l[k] == labels@[k]@);
            assert(old(st)@.with_symbols(l, k as nat, t).names.has(l[k]));
            assert(!all_new(old(st)@, l, t));
        } else {
            assert forall|k: int| 0 <= k < l.len() implies !(#[trigger] old(st)@.with_symbols(
                l,
                k as nat,
                t,
            )).names.has(l[k]) by {
                assert(l[k] == labels@[k]@);
            }
        }
    }
    stopped.is_none()
}

/// Declares the labels of a domain as symbols of the table: the tasks, the
/// commands, the methods and the state functions, each with the type of its
/// kind, so that the bodies that call them can be converted. A label that is
/// a symbol of the table already is refused; the labels declared before it
/// stay declared.
pub fn declare_domain(domain: &OMPASDomain, st: &mut SymTable) -> (r: Result<(), ConversionError>)
    requires
        old(st).wf(),
    ensures
        final(st).wf(),
        !old(st)@.has_room(n_labels(domain@)) ==> r == Err::<(), ConversionError>(
            ConversionError::Full,
        ) && final(st)@ == old(st)@,
        old(st)@.has_room(n_labels(domain@)) ==> (r is Ok <==> domain_is_new(domain@, old(st)@)),
        r is Ok ==> final(st)@ == with_domain(domain@, old(st)@),
        r matches Err(e) ==> e == ConversionError::Full || e == ConversionError::AlreadyDeclared,
{
    let tasks = labels_of_tasks(domain);
    let commands = labels_of_commands(domain);
    let methods = labels_of_methods(domain);
    let functions = labels_of_state_functions(domain);
    proof {
        assert(string_views(tasks@).len() == tasks@.len());
        assert(string_views(commands@).len() == commands@.len());
        assert(string_views(methods@).len() == methods@.len());
        assert(string_views(functions@).len() == functions@.len());
    }
    let room = st.n_atoms();
    if room >= usize::MAX - 1 {
        return Err(ConversionError::Full);
    }
    let mut left: usize = usize::MAX - 1 - room;
    if tasks.len() >= left {
        return Err(ConversionError::Full);
    }
    left = left - tasks.len();
    if commands.len() >= left {
        return Err(ConversionError::Full);
    }
    left = left - commands.len();
    if methods.len() >= left {
        return Err(ConversionError::Full);
    }
    left = left - methods.len();
    if functions.len() >= left {
        return Err(ConversionError::Full);
    }
    if !declare_labels(tasks, AtomType::Task, st) {
        return Err(ConversionError::AlreadyDeclared);
    }
    if !declare_labels(commands, AtomType::Action, st) {
        return Err(ConversionError::AlreadyDeclared);
    }
    if !declare_labels(methods, AtomType::Method, st) {
        return Err(ConversionError::AlreadyDeclared);
    }
    if !declare_labels(functions, AtomType::StateFunction, st) {
        return Err(ConversionError::AlreadyDeclared);
    }
    Ok(())
}

} // verus!
