//! The chronicles of what a problem can reach: starting from the labels that
//! the problem calls, each task and each command is converted once, and the
//! tasks that its chronicles call are converted in their turn.
use crate::domain::{DomainModel, OMPASDomain, Task, TaskModel};
use crate::lvalue::{clone_string, clone_strings, string_views, LValue, Sexp};
use crate::planning::atom::Atom;
use crate::planning::chronicle::{
    effect_models, expression_models, Effect, EffectModel, ExpressionModel,
};
use crate::planning::conversion::{
    chronicle_models, ChronicleHierarchy, ConversionError, HierarchyModel, Outcome,
};
use crate::planning::expression_chronicle::{Chronicle, ChronicleModel};
use crate::planning::lit::{lemma_exp_model, Lit, LitModel};
use crate::planning::planning_domain::{
    are_templates, command_template, convert_entry, entry_template, method_template,
    PlanningDomain, PlanningDomainModel,
};
use crate::planning::sym_table::{SymTable, SymTableModel};
use vstd::prelude::*;

verus! {

/// The label that a literal calls: the name of the symbol that it begins
/// with, if it begins with one.
pub open spec fn head_label(lit: LitModel, st: SymTableModel) -> Option<Seq<char>> {
    match lit {
        LitModel::Exp(v) => if v.len() > 0 && v[0] is Atom && v[0]->Atom_0 < st.atoms.len()
            && st.atoms[v[0]->Atom_0 as int] is Sym {
            Some(st.atoms[v[0]->Atom_0 as int]->Sym_0.name())
        } else {
            None
        },
        _ => None,
    }
}

/// The labels that the first `n` subtasks call, in their order.
pub open spec fn labels_called(subtasks: Seq<ExpressionModel>, n: nat, st: SymTableModel) -> Seq<
    Seq<char>,
>
    decreases n,
{
    if n == 0 || n > subtasks.len() {
        Seq::empty()
    } else {
        let before = labels_called(subtasks, (n - 1) as nat, st);
        match head_label(subtasks[n - 1].lit, st) {
            Some(l) => before.push(l),
            None => before,
        }
    }
}

/// The labels that the subtasks of the first `n` chronicles call, chronicle
/// by chronicle.
pub open spec fn called(ts: Seq<ChronicleModel>, n: nat, st: SymTableModel) -> Seq<Seq<char>>
    decreases n,
{
    if n == 0 || n > ts.len() {
        Seq::empty()
    } else {
        called(ts, (n - 1) as nat, st) + labels_called(
            ts[n - 1].partial.subtasks,
            ts[n - 1].partial.subtasks.len(),
            st,
        )
    }
}

/// The chronicles of the first `n` methods of a task, one after the other.
/// A label that stands for no method is passed over.
pub open spec fn methods_of_task(d: DomainModel, t: TaskModel, n: nat, h: HierarchyModel) -> Outcome<
    Seq<ChronicleModel>,
>
    decreases n,
{
    if n == 0 || n > t.methods.len() {
        Outcome { st: h, result: Ok(Seq::empty()) }
    } else {
        let before = methods_of_task(d, t, (n - 1) as nat, h);
        match before.result {
            Err(e) => before,
            Ok(done) => if !d.methods.has(t.methods[n - 1]) {
                before
            } else {
                let c = method_template(d, d.methods.get(t.methods[n - 1]), before.st);
                match c.result {
                    Err(e) => Outcome { st: c.st, result: Err(e) },
                    Ok(x) => Outcome { st: c.st, result: Ok(done.push(x)) },
                }
            },
        }
    }
}

/// Tells whether a task has a model: a lambda whose body is not `nil`.
pub open spec fn has_model(t: TaskModel) -> bool {
    t.model matches Sexp::Lambda(_, b) && !(*b is Nil)
}

/// The chronicles of a task: that of its model where it has one, those of
/// its methods otherwise.
pub open spec fn task_templates(d: DomainModel, t: TaskModel, h: HierarchyModel) -> Outcome<
    Seq<ChronicleModel>,
> {
    if has_model(t) {
        let c = entry_template(t.model, t.label, None, t.parameters.names.len(), h);
        match c.result {
            Err(e) => Outcome { st: c.st, result: Err(e) },
            Ok(x) => Outcome { st: c.st, result: Ok(seq![x]) },
        }
    } else {
        methods_of_task(d, t, t.methods.len(), h)
    }
}

/// Where the conversion of what a problem reaches stands.
pub struct WorkModel {
    /// The labels that are still to be looked at, first in first out.
    pub queue: Seq<Seq<char>>,
    /// The labels that were looked at.
    pub seen: Seq<Seq<char>>,
    /// The tasks that were converted.
    pub tasks: Seq<Seq<char>>,
    /// The commands that were converted.
    pub commands: Seq<Seq<char>>,
    /// The chronicles that were made.
    pub templates: Seq<ChronicleModel>,
    /// The hierarchy that the conversions have left.
    pub h: HierarchyModel,
    /// Why the conversion has stopped, if it has.
    pub failed: Option<ConversionError>,
}

impl WorkModel {
    /// The work before anything was looked at.
    pub open spec fn start(roots: Seq<Seq<char>>, h: HierarchyModel) -> WorkModel {
        WorkModel {
            queue: roots,
            seen: Seq::empty(),
            tasks: Seq::empty(),
            commands: Seq::empty(),
            templates: Seq::empty(),
            h,
            failed: None,
        }
    }

    /// Tells whether nothing is left to do: the conversion has failed, or no
    /// label is left to look at.
    pub open spec fn done(self) -> bool {
        self.failed is Some || self.queue.len() == 0
    }

    /// The work once the first label of the queue has been looked at. A
    /// label that was seen is dropped. A task is converted, and the labels
    /// that its chronicles call join the queue; a command is converted; any
    /// other label is only marked as seen. Work that is done stays as it is.
    pub open spec fn step(self, d: DomainModel) -> WorkModel {
        if self.done() {
            self
        } else {
            let label = self.queue[0];
            let rest = self.queue.drop_first();
            let seen = self.seen.push(label);
            if self.seen.contains(label) {
                WorkModel { queue: rest, ..self }
            } else if d.tasks.has(label) {
                let made = task_templates(d, d.tasks.get(label), self.h);
                match made.result {
                    Err(e) => WorkModel {
                        queue: rest,
                        seen,
                        tasks: self.tasks.push(label),
                        h: made.st,
                        failed: Some(e),
                        ..self
                    },
                    Ok(ts) => WorkModel {
                        queue: rest + called(ts, ts.len(), made.st.st),
                        seen,
                        tasks: self.tasks.push(label),
                        templates: self.templates + ts,
                        h: made.st,
                        ..self
                    },
                }
            } else if d.commands.has(label) {
                let made = command_template(d.commands.get(label), self.h);
                match made.result {
                    Err(e) => WorkModel {
                        queue: rest,
                        seen,
                        commands: self.commands.push(label),
                        h: made.st,
                        failed: Some(e),
                        ..self
                    },
                    Ok(t) => WorkModel {
                        queue: rest,
                        seen,
                        commands: self.commands.push(label),
                        templates: self.templates.push(t),
                        h: made.st,
                        ..self
                    },
                }
            } else {
                WorkModel { queue: rest, seen, ..self }
            }
        }
    }

    /// The work after `n` steps.
    pub open spec fn run(self, d: DomainModel, n: nat) -> WorkModel
        decreases n,
    {
        if n == 0 {
            self
        } else {
            self.run(d, (n - 1) as nat).step(d)
        }
    }
}

/// Work that is done stays as it is, however many steps follow.
pub proof fn lemma_done_stays(w: WorkModel, d: DomainModel, n: nat, m: nat)
    requires
        n <= m,
        w.run(d, n).done(),
    ensures
        w.run(d, m) == w.run(d, n),
    decreases m,
{
    if n < m {
        lemma_done_stays(w, d, n, (m - 1) as nat);
    }
}

/// The work ends in one way only: whatever the numbers of steps after which
/// nothing is left to do, the work then stands where it stands.
pub proof fn law_one_end(w: WorkModel, d: DomainModel, n: nat, m: nat)
    requires
        w.run(d, n).done(),
        w.run(d, m).done(),
    ensures
        w.run(d, n) == w.run(d, m),
{
    if n <= m {
        lemma_done_stays(w, d, n, m);
    } else {
        lemma_done_stays(w, d, m, n);
    }
}

/// The number of the labels of `labels` that are not among `seen`.
pub open spec fn pending(labels: Seq<Seq<char>>, seen: Seq<Seq<char>>) -> nat
    decreases labels.len(),
{
    if labels.len() == 0 {
        0
    } else {
        pending(labels.drop_last(), seen) + if seen.contains(labels.last()) {
            0nat
        } else {
            1nat
        }
    }
}

/// Seeing one more label leaves no more labels pending, and one less where
/// the label was pending.
pub proof fn lemma_pending_push(labels: Seq<Seq<char>>, seen: Seq<Seq<char>>, x: Seq<char>)
    ensures
        pending(labels, seen.push(x)) <= pending(labels, seen),
        labels.contains(x) && !seen.contains(x) ==> pending(labels, seen.push(x)) < pending(
            labels,
            seen,
        ),
    decreases labels.len(),
{
    if labels.len() > 0 {
        let init = labels.drop_last();
        let last = labels.last();
        lemma_pending_push(init, seen, x);
        assert(seen.push(x)[seen.len() as int] == x);
        if seen.contains(last) {
            let k = choose|k: int| 0 <= k < seen.len() && seen[k] == last;
            assert(seen.push(x)[k] == last);
        }
        if seen.push(x).contains(last) && last != x {
            let k = choose|k: int| 0 <= k < seen.push(x).len() && seen.push(x)[k] == last;
            assert(seen[k] == last);
        }
        if labels.contains(x) && !seen.contains(x) && last != x {
            let k = choose|k: int| 0 <= k < labels.len() && labels[k] == x;
            assert(init[k] == x);
        }
    }
}

/// Tells whether `label` is among `labels`.
pub fn contains_label(labels: &Vec<String>, label: &String) -> (b: bool)
    ensures
        b == string_views(labels@).contains(label@),
{
    let mut i: usize = 0;
    while i < labels.len()
        invariant
            i <= labels.len(),
            forall|j: int| 0 <= j < i ==> labels[j]@ != label@,
        decreases labels.len() - i,
    {
        if labels[i] == *label {
            assert(string_views(labels@)[i as int] == label@);
            return true;
        }
        i += 1;
    }
    false
}

/// The label that a literal calls, if it calls one.
pub fn label_of_call(lit: &Lit, st: &SymTable) -> (r: Option<String>)
    ensures
        r is Some <==> head_label(lit@, st@) is Some,
        r matches Some(l) ==> Some(l@) == head_label(lit@, st@),
{
    match lit {
        Lit::Exp(v) => {
            proof {
                lemma_exp_model(*v);
            }
            if v.len() == 0 {
                return None;
            }
            match &v[0] {
                Lit::Atom(id) => match st.get_atom(id) {
                    Some(Atom::Sym(s)) => Some(clone_string(s.get_string())),
                    _ => None,
                },
                _ => None,
            }
        },
        _ => None,
    }
}

/// Adds to `labels` the labels that the subtasks of the chronicles call,
/// chronicle by chronicle.
pub fn gather_calls(templates: &Vec<Chronicle>, st: &SymTable, labels: &mut Vec<String>)
    ensures
        string_views(final(labels)@) == string_views(old(labels)@) + called(
            chronicle_models(templates@),
            templates@.len(),
            st@,
        ),
{
    let ghost ts = chronicle_models(templates@);
    let ghost first = string_views(labels@);
    let mut i: usize = 0;
    assert(string_views(labels@) =~= first + called(ts, 0, st@));
    while i < templates.len()
        invariant
            i <= templates.len(),
            ts == chronicle_models(templates@),
            string_views(labels@) == first + called(ts, i as nat, st@),
        decreases templates.len() - i,
    {
        let subtasks = templates[i].get_partial_chronicle().get_subtasks();
        let ghost subs = ts[i as int].partial.subtasks;
        let ghost base = string_views(labels@);
        let mut k: usize = 0;
        assert(string_views(labels@) =~= base + labels_called(subs, 0, st@));
        while k < subtasks.len()
            invariant
                k <= subtasks.len(),
                subs == expression_models(subtasks@),
                string_views(labels@) == base + labels_called(subs, k as nat, st@),
            decreases subtasks.len() - k,
        {
            let ghost now = string_views(labels@);
            match label_of_call(&subtasks[k].lit, st) {
                Some(l) => {
                    labels.push(l);
                    assert(string_views(labels@) =~= now.push(l@));
                    assert(now.push(l@) =~= base + labels_called(subs, (k + 1) as nat, st@));
                },
                None => {},
            }
            k += 1;
        }
        assert(base + labels_called(subs, subs.len(), st@) =~= first + called(
            ts,
            (i + 1) as nat,
            st@,
        ));
        i += 1;
    }
}

/// Once a method has no chronicle, the methods that follow are not looked
/// at.
proof fn lemma_task_methods_stop(d: DomainModel, t: TaskModel, n: nat, m: nat, h: HierarchyModel)
    requires
        n <= m <= t.methods.len(),
        methods_of_task(d, t, n, h).result is Err,
    ensures
        methods_of_task(d, t, m, h) == methods_of_task(d, t, n, h),
    decreases m,
{
    if n < m {
        lemma_task_methods_stop(d, t, n, (m - 1) as nat, h);
    }
}

/// Makes the chronicles of a task: that of its model where it has one, those
/// of its methods otherwise, in the order in which they were declared.
pub fn convert_task(domain: &OMPASDomain, task: &Task, ch: &mut ChronicleHierarchy) -> (r: Result<
    Vec<Chronicle>,
    ConversionError,
>)
    requires
        old(ch).sym_table.wf(),
    ensures
        final(ch).sym_table.wf(),
        final(ch)@ == task_templates(domain@, task@, old(ch)@).st,
        are_templates(r, task_templates(domain@, task@, old(ch)@)),
{
    let ghost d = domain@;
    let ghost t = task@;
    let ghost h0 = ch@;
    let mut templates: Vec<Chronicle> = Vec::new();
    let modelled = match &task.model {
        LValue::Lambda(l) => {
            assert(task.model@ == Sexp::Lambda(l.params@, Box::new((*l.body)@)));
            match &*l.body {
                LValue::Nil => false,
                _ => {
                    assert(!((*l.body)@ is Nil));
                    true
                },
            }
        },
        _ => false,
    };
    assert(modelled == has_model(t));
    if modelled {
        return match convert_entry(&task.model, task.label.as_str(), None, &task.parameters, ch) {
            Ok(c) => {
                templates.push(c);
                assert(chronicle_models(templates@) =~= seq![c@]);
                Ok(templates)
            },
            Err(e) => Err(e),
        };
    }
    let n = task.methods.len();
    let mut m: usize = 0;
    assert(chronicle_models(templates@) =~= Seq::<ChronicleModel>::empty());
    while m < n
        invariant
            m <= n,
            n == task.methods.len(),
            n == t.methods.len(),
            d == domain@,
            t == task@,
            !has_model(t),
            h0 == old(ch)@,
            ch.sym_table.wf(),
            ch@ == methods_of_task(d, t, m as nat, h0).st,
            methods_of_task(d, t, m as nat, h0).result == Ok::<Seq<ChronicleModel>, ConversionError>(
                chronicle_models(templates@),
            ),
        decreases n - m,
    {
        assert(t.methods[m as int] == task.methods[m as int]@);
        match domain.get_method(task.methods[m].as_str()) {
            None => {},
            Some(method) => {
                let of = domain.get_task(method.task_label.as_str());
                let ghost before = chronicle_models(templates@);
                match convert_entry(
                    &method.lambda_body,
                    method.label.as_str(),
                    of,
                    &method.parameters,
                    ch,
                ) {
                    Ok(c) => {
                        templates.push(c);
                        assert(chronicle_models(templates@) =~= before.push(c@));
                    },
                    Err(e) => {
                        proof {
                            lemma_task_methods_stop(d, t, (m + 1) as nat, n as nat, h0);
                        }
                        return Err(e);
                    },
                }
            },
        }
        m += 1;
    }
    Ok(templates)
}

/// The labels that can be converted: those of the tasks, then those of the
/// commands.
pub open spec fn convertible(d: DomainModel) -> Seq<Seq<char>> {
    d.tasks.labels + d.commands.labels
}

/// Each step brings the work nearer to its end: a label that can be
/// converted is seen for the first time, or else the queue gets shorter and
/// no label is forgotten.
pub proof fn lemma_step_decreases(w: WorkModel, d: DomainModel)
    requires
        !w.done(),
    ensures
        pending(convertible(d), w.step(d).seen) < pending(convertible(d), w.seen) || (pending(
            convertible(d),
            w.step(d).seen,
        ) <= pending(convertible(d), w.seen) && w.step(d).queue.len() < w.queue.len()),
{
    let label = w.queue[0];
    let all = convertible(d);
    if !w.seen.contains(label) {
        lemma_pending_push(all, w.seen, label);
        if d.tasks.has(label) {
            let k = choose|k: int| 0 <= k < d.tasks.labels.len() && d.tasks.labels[k] == label;
            assert(all[k] == label);
        } else if d.commands.has(label) {
            let k = choose|k: int|
                0 <= k < d.commands.labels.len() && d.commands.labels[k] == label;
            assert(all[d.tasks.labels.len() + k] == label);
        }
    }
}

/// The work as the conversion holds it: the queue with the place of the
/// next label to look at, and what was made so far.
struct Work {
    queue: Vec<String>,
    next: usize,
    seen: Vec<String>,
    tasks: Vec<String>,
    commands: Vec<String>,
    templates: Vec<Chronicle>,
    failed: Option<ConversionError>,
}

impl Work {
    /// The work as contracts see it, in the hierarchy `h`.
    spec fn model(self, h: HierarchyModel) -> WorkModel {
        WorkModel {
            queue: string_views(self.queue@).subrange(self.next as int, self.queue@.len() as int),
            seen: string_views(self.seen@),
            tasks: string_views(self.tasks@),
            commands: string_views(self.commands@),
            templates: chronicle_models(self.templates@),
            h,
            failed: self.failed,
        }
    }

    /// Looks at the next label of the queue.
    fn step(&mut self, domain: &OMPASDomain, ch: &mut ChronicleHierarchy)
        requires
            old(ch).sym_table.wf(),
            old(self).next < old(self).queue@.len(),
            old(self).failed is None,
        ensures
            final(ch).sym_table.wf(),
            final(self).next <= final(self).queue@.len(),
            final(self).model(final(ch)@) == old(self).model(old(ch)@).step(domain@),
    {
        let ghost w = self.model(ch@);
        let label = clone_string(&self.queue[self.next]);
        assert(w.queue[0] == label@);
        let len = self.queue.len();
        self.next = self.next + 1;
        assert(string_views(self.queue@).subrange(self.next as int, self.queue@.len() as int)
            =~= w.queue.drop_first());
        if contains_label(&self.seen, &label) {
            return ;
        }
        self.seen.push(clone_string(&label));
        assert(string_views(self.seen@) =~= w.seen.push(label@));
        match domain.get_task(label.as_str()) {
            Some(t) => {
                self.tasks.push(clone_string(&label));
                assert(string_views(self.tasks@) =~= w.tasks.push(label@));
                match convert_task(domain, t, ch) {
                    Ok(mut ts) => {
                        let ghost made = chronicle_models(ts@);
                        let ghost before = chronicle_models(self.templates@);
                        let ghost queue = string_views(self.queue@);
                        gather_calls(&ts, &ch.sym_table, &mut self.queue);
                        self.templates.append(&mut ts);
                        assert(chronicle_models(self.templates@) =~= before + made);
                        proof {
                            let more = called(made, made.len(), ch@.st);
                            let now = string_views(self.queue@);
                            assert(now == queue + more);
                            assert(now.len() == self.queue@.len());
                            assert(queue.len() == len);
                            assert(now.subrange(self.next as int, now.len() as int)
                                =~= queue.subrange(self.next as int, len as int) + more);
                        }
                    },
                    Err(e) => {
                        self.failed = Some(e);
                    },
                }
            },
            None => match domain.get_command(label.as_str()) {
                Some(c) => {
                    self.commands.push(clone_string(&label));
                    assert(string_views(self.commands@) =~= w.commands.push(label@));
                    let ghost before = chronicle_models(self.templates@);
                    match convert_entry(&c.model, c.label.as_str(), None, &c.parameters, ch) {
                        Ok(t) => {
                            self.templates.push(t);
                            assert(chronicle_models(self.templates@) =~= before.push(t@));
                        },
                        Err(e) => {
                            self.failed = Some(e);
                        },
                    }
                },
                None => {},
            },
        }
    }
}

/// Tells whether one of the first `n` effects names the state function
/// `label`: it assigns a value of the state function, or it reads one.
pub open spec fn named_in(effects: Seq<EffectModel>, n: nat, st: SymTableModel, label: Seq<char>) -> bool
    decreases n,
{
    if n == 0 || n > effects.len() {
        false
    } else {
        named_in(effects, (n - 1) as nat, st, label) || head_label(effects[n - 1].variable, st)
            == Some(label) || head_label(effects[n - 1].value, st) == Some(label)
    }
}

/// Tells whether an effect of one of the first `n` chronicles names the
/// state function `label`.
pub open spec fn named(ts: Seq<ChronicleModel>, n: nat, st: SymTableModel, label: Seq<char>) -> bool
    decreases n,
{
    if n == 0 || n > ts.len() {
        false
    } else {
        named(ts, (n - 1) as nat, st, label) || named_in(
            ts[n - 1].partial.effects,
            ts[n - 1].partial.effects.len(),
            st,
            label,
        )
    }
}

/// The labels of those of the first `n` state functions of a domain that
/// the effects of the chronicles name, in the order of their declaration.
pub open spec fn functions_used(d: DomainModel, ts: Seq<ChronicleModel>, st: SymTableModel, n: nat) -> Seq<
    Seq<char>,
>
    decreases n,
{
    if n == 0 || n > d.state_functions.entries.len() {
        Seq::empty()
    } else {
        let before = functions_used(d, ts, st, (n - 1) as nat);
        let label = d.state_functions.entries[n - 1].label;
        if named(ts, ts.len(), st, label) {
            before.push(label)
        } else {
            before
        }
    }
}

/// Tells whether one of the effects names the state function `label`.
fn is_named_in(effects: &Vec<Effect>, st: &SymTable, label: &String) -> (b: bool)
    ensures
        b == named_in(effect_models(effects@), effects@.len(), st@, label@),
{
    let ghost es = effect_models(effects@);
    let mut i: usize = 0;
    while i < effects.len()
        invariant
            i <= effects.len(),
            es == effect_models(effects@),
            !named_in(es, i as nat, st@, label@),
        decreases effects.len() - i,
    {
        let written = match label_of_call(effects[i].transition.get_variable(), st) {
            Some(l) => l == *label,
            None => false,
        };
        let read = match label_of_call(effects[i].transition.get_value(), st) {
            Some(l) => l == *label,
            None => false,
        };
        if written || read {
            proof {
                lemma_named_in_stays(es, (i + 1) as nat, es.len(), st@, label@);
            }
            return true;
        }
        i += 1;
    }
    false
}

/// An effect that was found stays found.
proof fn lemma_named_in_stays(
    effects: Seq<EffectModel>,
    n: nat,
    m: nat,
    st: SymTableModel,
    label: Seq<char>,
)
    requires
        n <= m <= effects.len(),
        named_in(effects, n, st, label),
    ensures
        named_in(effects, m, st, label),
    decreases m,
{
    if n < m {
        lemma_named_in_stays(effects, n, (m - 1) as nat, st, label);
    }
}

/// A chronicle that was found stays found.
proof fn lemma_named_stays(ts: Seq<ChronicleModel>, n: nat, m: nat, st: SymTableModel, label: Seq<char>)
    requires
        n <= m <= ts.len(),
        named(ts, n, st, label),
    ensures
        named(ts, m, st, label),
    decreases m,
{
    if n < m {
        lemma_named_stays(ts, n, (m - 1) as nat, st, label);
    }
}

/// Tells whether an effect of one of the chronicles names the state
/// function `label`.
fn is_named(templates: &Vec<Chronicle>, st: &SymTable, label: &String) -> (b: bool)
    ensures
        b == named(chronicle_models(templates@), templates@.len(), st@, label@),
{
    let ghost ts = chronicle_models(templates@);
    let mut i: usize = 0;
    while i < templates.len()
        invariant
            i <= templates.len(),
            ts == chronicle_models(templates@),
            !named(ts, i as nat, st@, label@),
        decreases templates.len() - i,
    {
        if is_named_in(templates[i].get_partial_chronicle().get_effects(), st, label) {
            proof {
                lemma_named_stays(ts, (i + 1) as nat, ts.len(), st@, label@);
            }
            return true;
        }
        i += 1;
    }
    false
}

/// The labels of the state functions of a domain that the effects of the
/// chronicles name, in the order of their declaration.
pub fn state_functions_used(domain: &OMPASDomain, templates: &Vec<Chronicle>, st: &SymTable) -> (v:
    Vec<String>)
    ensures
        string_views(v@) == functions_used(
            domain@,
            chronicle_models(templates@),
            st@,
            domain@.state_functions.entries.len(),
        ),
{
    let ghost ts = chronicle_models(templates@);
    let mut v: Vec<String> = Vec::new();
    let n = domain.n_state_functions();
    let mut i: usize = 0;
    assert(string_views(v@) =~= functions_used(domain@, ts, st@, 0));
    while i < n
        invariant
            i <= n,
            n == domain@.state_functions.entries.len(),
            ts == chronicle_models(templates@),
            string_views(v@) == functions_used(domain@, ts, st@, i as nat),
        decreases n - i,
    {
        let f = domain.state_function_at(i);
        if is_named(templates, st, &f.label) {
            let ghost before = string_views(v@);
            v.push(clone_string(&f.label));
            assert(string_views(v@) =~= before.push(f.label@));
        }
        i += 1;
    }
    v
}

/// Tells whether the work `w` has come to its end with the result `r` in
/// the hierarchy `h`: nothing is left to do, and `r` is the error that
/// stopped it, or else holds the tasks and commands that were converted,
/// their chronicles, and the state functions that these chronicles name.
pub open spec fn ended(
    r: Result<PlanningDomain, ConversionError>,
    h: HierarchyModel,
    w: WorkModel,
    d: DomainModel,
) -> bool {
    &&& w.done()
    &&& w.h == h
    &&& match w.failed {
        Some(e) => r matches Err(x) && x == e,
        None => r matches Ok(p) && p@ == (PlanningDomainModel {
            tasks: w.tasks,
            methods: Seq::empty(),
            commands: w.commands,
            state_functions: functions_used(
                d,
                w.templates,
                w.h.st,
                d.state_functions.entries.len(),
            ),
            templates: w.templates,
        }),
    }
}

/// Converts what a problem reaches. The labels of `roots` are looked at in
/// their order; each task and each command among them is converted once,
/// and the labels that the chronicles of a task call are looked at in their
/// turn, after those that were waiting. The conversion stops at the first
/// entry that has no chronicle. The result is that of the work at its end,
/// which is reached after finitely many steps, with the state functions
/// that the effects of the chronicles name.
pub fn p_convert(domain: &OMPASDomain, roots: &Vec<String>, ch: &mut ChronicleHierarchy) -> (r:
    Result<PlanningDomain, ConversionError>)
    requires
        old(ch).sym_table.wf(),
    ensures
        final(ch).sym_table.wf(),
        exists|n: nat|
            ended(
                r,
                final(ch)@,
                #[trigger] WorkModel::start(string_views(roots@), old(ch)@).run(domain@, n),
                domain@,
            ),
{
    let ghost d = domain@;
    let ghost w0 = WorkModel::start(string_views(roots@), ch@);
    let mut work = Work {
        queue: clone_strings(roots),
        next: 0,
        seen: Vec::new(),
        tasks: Vec::new(),
        commands: Vec::new(),
        templates: Vec::new(),
        failed: None,
    };
    let ghost mut steps: nat = 0;
    proof {
        let m = work.model(ch@);
        assert(m.queue =~= w0.queue);
        assert(m.seen =~= w0.seen);
        assert(m.tasks =~= w0.tasks);
        assert(m.commands =~= w0.commands);
        assert(m.templates =~= w0.templates);
    }
    while work.failed.is_none() && work.next < work.queue.len()
        invariant
            d == domain@,
            ch.sym_table.wf(),
            work.next <= work.queue@.len(),
            work.model(ch@) == w0.run(d, steps),
        decreases
            pending(convertible(d), work.model(ch@).seen),
            work.model(ch@).queue.len(),
    {
        proof {
            lemma_step_decreases(work.model(ch@), d);
            steps = steps + 1;
        }
        work.step(domain, ch);
    }
    let ghost end = w0.run(d, steps);
    assert(end.done());
    match work.failed {
        Some(e) => Err(e),
        None => {
            let methods: Vec<String> = Vec::new();
            assert(string_views(methods@) =~= Seq::<Seq<char>>::empty());
            let state_functions = state_functions_used(domain, &work.templates, &ch.sym_table);
            Ok(
                PlanningDomain {
                    tasks: work.tasks,
                    methods,
                    commands: work.commands,
                    state_functions,
                    templates: work.templates,
                },
            )
        },
    }
}

} // verus!
