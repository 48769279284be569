//! The refinement executor: how a task is driven through its candidate
//! methods until one succeeds or none is left.
//!
//! The bodies of methods are evaluated elsewhere. This module creates the
//! processes of the acting tree, hands out the next method to evaluate, and
//! takes the outcome of each evaluation.
use crate::acting_tree::{
    terminal, ActingProcessId, ActingTree, ProcessKind, ProcessStatus, TreeError,
};
use crate::lvalue::{lemma_list_model, models, LValue, Sexp};
use vstd::prelude::*;

verus! {

/// The label of a method instance: the symbol that it is, or the symbol that
/// it begins with.
pub open spec fn instance_label(s: Sexp) -> Option<Seq<char>> {
    crate::state::head_of(s)
}

/// The arguments of a method instance: what follows its first item.
pub open spec fn instance_args(s: Sexp) -> Seq<Sexp> {
    if s is List && s->List_0.len() > 0 {
        s->List_0.skip(1)
    } else {
        Seq::empty()
    }
}

/// What the executor asks for next.
pub enum RefineStep {
    /// Evaluate the body of the method `method`, an instance of
    /// `instance`.
    Evaluate { method: ActingProcessId, instance: LValue },
    /// The task has ended with the given status; nothing is left to
    /// evaluate.
    Ended(ProcessStatus),
}

/// Why the executor stops before it could ask for anything.
#[derive(Clone, Copy, Debug, PartialEq, Eq, Structural)]
pub enum RefineError {
    /// The tree refused an operation.
    Tree(TreeError),
    /// The candidate is no method instance: it has no label.
    NotAMethod,
}

/// The arguments of a method instance.
pub fn arguments_of(instance: &LValue) -> (r: Vec<LValue>)
    ensures
        models(r@) == instance_args(instance@),
{
    match instance {
        LValue::List(l) => {
            proof {
                lemma_list_model(*l);
            }
            if l.len() > 0 {
                let r = crate::functions::clone_from_place(l, 1);
                r
            } else {
                let r: Vec<LValue> = Vec::new();
                assert(models(r@) =~= Seq::<Sexp>::empty());
                r
            }
        },
        _ => {
            let r: Vec<LValue> = Vec::new();
            assert(models(r@) =~= Seq::<Sexp>::empty());
            r
        },
    }
}

/// Creates the task `label` under `parent` and starts it.
pub fn begin_task(
    tree: &mut ActingTree,
    parent: ActingProcessId,
    label: &str,
    args: Vec<LValue>,
    now: u64,
) -> (r: Result<ActingProcessId, TreeError>)
    requires
        old(tree).wf(),
    ensures
        final(tree).wf(),
        r is Err ==> final(tree)@ == old(tree)@,
        r is Err <==> old(tree)@.spawn_error(parent as int, ProcessKind::Task) is Some || old(
            tree,
        )@.nodes[parent as int].start is None,
        r matches Ok(id) ==> {
            let spawned = old(tree)@.spawn(parent as int, ProcessKind::Task, label@, models(args@));
            &&& id == old(tree)@.nodes.len()
            &&& final(tree)@ == spawned.advance(
                id as int,
                ProcessStatus::Running,
                spawned.instant(now),
            )
            &&& final(tree)@.nodes[id as int].status == ProcessStatus::Running
        },
{
    let started = match tree.interval(parent) {
        Some((start, _)) => start.is_some(),
        None => true,
    };
    if !started {
        proof {
            tree.lemma_wf();
        }
        return Err(TreeError::ParentNotStarted);
    }
    let ghost before = tree@;
    let id = match tree.new_task(parent, label, args) {
        Ok(id) => id,
        Err(e) => { return Err(e); },
    };
    proof {
        tree.lemma_wf();
        let spawned = tree@;
        assert(spawned.nodes[id as int].parent == Some(parent as nat));
        assert(spawned.nodes[parent as int].start == before.nodes[parent as int].start);
        assert(spawned.advance_error(id as int, ProcessStatus::Running) is None);
    }
    match tree.set_status(id, ProcessStatus::Running, now) {
        Ok(()) => Ok(id),
        Err(e) => Err(e),
    }
}

/// What the executor does next, as contracts see it.
pub enum NextModel {
    /// It stops with an error.
    Refused(RefineError),
    /// The task has ended with the given status.
    Ended(ProcessStatus),
    /// The body of the new method at the given place is to be evaluated.
    Evaluate(nat),
}

/// The tree once the candidates of `task` have been counted, if they were
/// not counted yet: the first call for a task counts them.
pub open spec fn counted(m: crate::acting_tree::TreeModel, task: int, n: nat, now: u64) -> crate::acting_tree::TreeModel {
    if m.nodes[task].remaining is None {
        m.count(task, n, m.instant(now))
    } else {
        m
    }
}

/// What handing out the next method of `task` does to the tree, and what
/// comes of it, when the candidates that are left are `c`.
///
/// An unknown process is refused, and a task that has ended has nothing
/// left. The first call counts the candidates, which the tree refuses for a
/// process that is no running task; with no candidate the task fails at
/// once. A later call with no candidate left is refused. Otherwise the first
/// candidate, which has to have a label, becomes a new method under the
/// task, and the method starts.
pub open spec fn next_of(m: crate::acting_tree::TreeModel, task: int, c: Seq<Sexp>, now: u64) -> (
    crate::acting_tree::TreeModel,
    NextModel,
) {
    if task < 0 || task >= m.nodes.len() {
        (m, NextModel::Refused(RefineError::Tree(TreeError::UnknownProcess)))
    } else if terminal(m.nodes[task].status) {
        (m, NextModel::Ended(m.nodes[task].status))
    } else if m.nodes[task].remaining is None && m.count_error(task) is Some {
        (m, NextModel::Refused(RefineError::Tree(m.count_error(task)->0)))
    } else {
        let k = counted(m, task, c.len(), now);
        if c.len() == 0 {
            if m.nodes[task].remaining is None {
                (k, NextModel::Ended(ProcessStatus::Failure))
            } else {
                (m, NextModel::Refused(RefineError::Tree(TreeError::NoCandidate)))
            }
        } else {
            match instance_label(c[0]) {
                None => (k, NextModel::Refused(RefineError::NotAMethod)),
                Some(label) => match k.spawn_error(task, ProcessKind::Method) {
                    Some(e) => (k, NextModel::Refused(RefineError::Tree(e))),
                    None => {
                        let spawned = k.spawn(task, ProcessKind::Method, label, instance_args(c[0]));
                        (
                            spawned.advance(
                                k.nodes.len() as int,
                                ProcessStatus::Running,
                                spawned.instant(now),
                            ),
                            NextModel::Evaluate(k.nodes.len()),
                        )
                    },
                },
            }
        }
    }
}

/// Tells whether `r` and the candidates that are left are what `next`
/// asks for, when the candidates were `c`.
pub open spec fn is_next(
    r: Result<RefineStep, RefineError>,
    left: Seq<LValue>,
    c: Seq<LValue>,
    next: NextModel,
) -> bool {
    match next {
        NextModel::Refused(e) => r == Err::<RefineStep, RefineError>(e) && left == c,
        NextModel::Ended(s) => (r matches Ok(RefineStep::Ended(x)) && x == s) && left == c,
        NextModel::Evaluate(place) => {
            &&& r matches Ok(RefineStep::Evaluate { method, instance })
            &&& method == place
            &&& c.len() > 0
            &&& instance@ == c[0]@
            &&& models(left) == models(c).skip(1)
        },
    }
}

/// Hands out the next method of the running task `task`.
///
/// The first time, `candidates` is the ordered list that the select policy
/// gave: with no candidate the task fails at once. Each call takes the first
/// candidate off the list, creates its method under the task and starts it.
/// A task that has ended has nothing left to evaluate.
pub fn next_method(
    tree: &mut ActingTree,
    task: ActingProcessId,
    candidates: &mut Vec<LValue>,
    now: u64,
) -> (r: Result<RefineStep, RefineError>)
    requires
        old(tree).wf(),
    ensures
        final(tree).wf(),
        final(tree)@ == next_of(old(tree)@, task as int, models(old(candidates)@), now).0,
        is_next(
            r,
            final(candidates)@,
            old(candidates)@,
            next_of(old(tree)@, task as int, models(old(candidates)@), now).1,
        ),
        task >= old(tree)@.nodes.len() ==> r == Err::<RefineStep, RefineError>(
            RefineError::Tree(TreeError::UnknownProcess),
        ),
        task < old(tree)@.nodes.len() && terminal(old(tree)@.nodes[task as int].status) ==> {
            &&& r matches Ok(RefineStep::Ended(s))
            &&& s == old(tree)@.nodes[task as int].status
            &&& final(tree)@ == old(tree)@
            &&& final(candidates)@ == old(candidates)@
        },
        r matches Ok(RefineStep::Ended(s)) ==> s == final(tree)@.nodes[task as int].status
            && terminal(s),
        r matches Ok(RefineStep::Evaluate { method, instance }) ==> {
            &&& old(candidates)@.len() > 0
            &&& instance@ == old(candidates)@[0]@
            &&& models(final(candidates)@) == models(old(candidates)@).skip(1)
            &&& method == old(tree)@.nodes.len()
            &&& final(tree)@.nodes.len() == old(tree)@.nodes.len() + 1
            &&& final(tree)@.nodes[method as int].kind == ProcessKind::Method
            &&& final(tree)@.nodes[method as int].parent == Some(task as nat)
            &&& final(tree)@.nodes[method as int].status == ProcessStatus::Running
            &&& Some(final(tree)@.nodes[method as int].label) == instance_label(instance@)
            &&& final(tree)@.nodes[method as int].args == instance_args(instance@)
            &&& final(tree)@.nodes[task as int].status == ProcessStatus::Running
        },
        r matches Err(RefineError::NotAMethod) ==> old(candidates)@.len() > 0 && instance_label(
            old(candidates)@[0]@,
        ) is None,
{
    proof {
        tree.lemma_wf();
    }
    let status = match tree.status(task) {
        Some(s) => s,
        None => { return Err(RefineError::Tree(TreeError::UnknownProcess)); },
    };
    if crate::acting_tree::is_terminal(status) {
        return Ok(RefineStep::Ended(status));
    }
    if tree.remaining(task).is_none() {
        match tree.set_candidates(task, candidates.len(), now) {
            Ok(()) => {},
            Err(e) => { return Err(RefineError::Tree(e)); },
        }
        proof {
            tree.lemma_wf();
        }
        if candidates.len() == 0 {
            return Ok(RefineStep::Ended(ProcessStatus::Failure));
        }
    }
    if candidates.len() == 0 {
        // Every candidate was tried: the last method has not failed yet, or
        // the count of the task and the list disagree.
        return Err(RefineError::Tree(TreeError::NoCandidate));
    }
    assert(models(candidates@)[0] == candidates@[0]@);
    let label = match crate::state::state_function_of(&candidates[0]) {
        Some(l) => l,
        None => { return Err(RefineError::NotAMethod); },
    };
    let args = arguments_of(&candidates[0]);
    let ghost before = tree@;
    let method = match tree.new_method(task, label.as_str(), args) {
        Ok(m) => m,
        Err(e) => { return Err(RefineError::Tree(e)); },
    };
    proof {
        tree.lemma_wf();
        let spawned = tree@;
        assert(spawned.nodes[method as int].parent == Some(task as nat));
        assert(spawned.nodes[task as int].start == before.nodes[task as int].start);
        assert(before.nodes[task as int].start is Some);
        assert(spawned.advance_error(method as int, ProcessStatus::Running) is None);
    }
    match tree.set_status(method, ProcessStatus::Running, now) {
        Ok(()) => {},
        Err(e) => { return Err(RefineError::Tree(e)); },
    }
    let ghost c0 = candidates@;
    let instance = candidates.remove(0);
    proof {
        assert(models(candidates@) =~= models(c0).skip(1));
        tree.lemma_wf();
    }
    Ok(RefineStep::Evaluate { method, instance })
}

/// Takes the outcome of the body of the method `method`, and returns the
/// status of its task afterwards: the task has succeeded with its method,
/// has failed with its last method, or runs on towards its next candidate.
pub fn method_ended(tree: &mut ActingTree, method: ActingProcessId, success: bool, now: u64) -> (r:
    Result<ProcessStatus, TreeError>)
    requires
        old(tree).wf(),
    ensures
        final(tree).wf(),
        ({
            let s = if success {
                ProcessStatus::Success
            } else {
                ProcessStatus::Failure
            };
            let wrong = method < old(tree)@.nodes.len() && old(tree)@.nodes[method as int].kind
                != ProcessKind::Method;
            &&& r is Err <==> wrong || old(tree)@.advance_error(method as int, s) is Some
            &&& r matches Err(e) ==> final(tree)@ == old(tree)@ && e == (if wrong {
                TreeError::WrongKind
            } else {
                old(tree)@.advance_error(method as int, s)->0
            })
            &&& r matches Ok(task_status) ==> {
                &&& final(tree)@ == old(tree)@.advance(method as int, s, old(tree)@.instant(now))
                &&& task_status == final(tree)@.nodes[old(
                    tree,
                )@.nodes[method as int].parent->0 as int].status
                &&& task_status == (match old(tree)@.task_follows(method as int, s) {
                    Some(ts) => ts,
                    None => ProcessStatus::Running,
                })
            }
        }),
{
    proof {
        tree.lemma_wf();
    }
    match tree.kind(method) {
        Some(ProcessKind::Method) => {},
        Some(_) => { return Err(TreeError::WrongKind); },
        None => { return Err(TreeError::UnknownProcess); },
    }
    let task = match tree.parent(method) {
        Some(t) => t,
        None => { return Err(TreeError::WrongKind); },
    };
    let ghost before = tree@;
    let status = if success {
        ProcessStatus::Success
    } else {
        ProcessStatus::Failure
    };
    match tree.set_status(method, status, now) {
        Ok(()) => {},
        Err(e) => { return Err(e); },
    }
    proof {
        tree.lemma_wf();
        assert(before.child_of(method as int, task as int));
        assert(before.nodes[task as int].status == ProcessStatus::Running);
    }
    match tree.status(task) {
        Some(s) => Ok(s),
        None => Ok(ProcessStatus::Running),
    }
}

/// Creates the command `label` under `parent` and starts it: the command is
/// to be handed to the platform under the identifier returned.
///
/// The parent is the method whose body runs the command, or the running
/// task that stands for the command: such a task has counted no candidate,
/// takes the command as its only one, and succeeds or fails with it.
pub fn begin_command(
    tree: &mut ActingTree,
    parent: ActingProcessId,
    label: &str,
    args: Vec<LValue>,
    now: u64,
) -> (r: Result<ActingProcessId, TreeError>)
    requires
        old(tree).wf(),
    ensures
        final(tree).wf(),
        r is Err ==> final(tree)@ == old(tree)@,
        r is Err <==> old(tree)@.spawn_error(parent as int, ProcessKind::Command) is Some || old(
            tree,
        )@.nodes[parent as int].start is None,
        r matches Ok(id) ==> {
            let spawned = old(tree)@.spawn(
                parent as int,
                ProcessKind::Command,
                label@,
                models(args@),
            );
            &&& id == old(tree)@.nodes.len()
            &&& final(tree)@ == spawned.advance(
                id as int,
                ProcessStatus::Running,
                spawned.instant(now),
            )
            &&& final(tree)@.nodes[id as int].status == ProcessStatus::Running
        },
{
    let started = match tree.interval(parent) {
        Some((start, _)) => start.is_some(),
        None => true,
    };
    if !started {
        proof {
            tree.lemma_wf();
        }
        return Err(TreeError::ParentNotStarted);
    }
    let ghost before = tree@;
    let id = match tree.new_command(parent, label, args) {
        Ok(id) => id,
        Err(e) => { return Err(e); },
    };
    proof {
        tree.lemma_wf();
        let spawned = tree@;
        assert(spawned.nodes[id as int].parent == Some(parent as nat));
        assert(spawned.nodes[parent as int].start == before.nodes[parent as int].start);
        assert(spawned.advance_error(id as int, ProcessStatus::Running) is None);
    }
    match tree.set_status(id, ProcessStatus::Running, now) {
        Ok(()) => Ok(id),
        Err(e) => Err(e),
    }
}

/// The choice of `arbitrary` among `xs` when no function is given: the head
/// of the list, or `nil` for a list without items.
pub fn arbitrary_head(xs: &Vec<LValue>) -> (r: LValue)
    ensures
        r@ == (if xs@.len() > 0 {
            xs@[0]@
        } else {
            Sexp::Nil
        }),
{
    if xs.len() > 0 {
        xs[0].clone()
    } else {
        LValue::Nil
    }
}

/// The instances of methods on the arguments of a task: for each method,
/// the list of its label followed by the arguments.
pub open spec fn instances_of(methods: Seq<Seq<char>>, args: Seq<Sexp>) -> Seq<Sexp> {
    Seq::new(methods.len(), |i: int| Sexp::List(seq![Sexp::Symbol(methods[i])] + args))
}

/// Builds the instances of the methods of a task on the arguments of the
/// task, in the order of the methods.
pub fn instantiate_methods(methods: &Vec<String>, args: &Vec<LValue>) -> (r: Vec<LValue>)
    ensures
        r@.len() == methods@.len(),
        forall|i: int|
            0 <= i < r@.len() ==> (#[trigger] r@[i])@ == Sexp::List(
                seq![Sexp::Symbol(methods@[i]@)] + models(args@),
            ),
        models(r@) == instances_of(crate::lvalue::string_views(methods@), models(args@)),
{
    let mut r: Vec<LValue> = Vec::new();
    let mut i: usize = 0;
    while i < methods.len()
        invariant
            i <= methods.len(),
            r@.len() == i,
            forall|j: int|
                0 <= j < i ==> (#[trigger] r@[j])@ == Sexp::List(
                    seq![Sexp::Symbol(methods@[j]@)] + models(args@),
                ),
        decreases methods.len() - i,
    {
        let mut items: Vec<LValue> = Vec::new();
        items.push(LValue::Symbol(crate::lvalue::clone_string(&methods[i])));
        let mut rest = crate::lvalue::clone_values(args);
        let ghost copied = models(rest@);
        items.append(&mut rest);
        proof {
            lemma_list_model(items);
            assert(models(items@) =~= seq![Sexp::Symbol(methods@[i as int]@)] + copied);
        }
        r.push(LValue::List(items));
        i += 1;
    }
    assert(models(r@) =~= instances_of(crate::lvalue::string_views(methods@), models(args@)));
    r
}

/// The symbol inside the value that a failed command returns.
pub const ACTION_FAILURE: &'static str = "action-failure";

/// The value that a failed command returns.
pub open spec fn action_failure() -> Sexp {
    Sexp::Failure(Box::new(Sexp::Symbol(ACTION_FAILURE@)))
}

/// What the executor does with a command once the platform has reported.
pub enum CommandStep {
    /// The command has not ended: wait for the next report.
    Wait,
    /// The command has ended: its call returns the given value.
    Return(LValue),
}

/// Why a report of the platform on `c` is refused, if it is: there is no
/// such process, it is no command, the platform reports a cancellation, which
/// is not its to decide, or the status cannot follow the present one. A
/// report that the command runs is taken twice.
pub open spec fn report_error(m: crate::acting_tree::TreeModel, c: int, s: ProcessStatus) -> Option<
    TreeError,
> {
    if c < 0 || c >= m.nodes.len() {
        Some(TreeError::UnknownProcess)
    } else if m.nodes[c].kind != ProcessKind::Command {
        Some(TreeError::WrongKind)
    } else {
        match s {
            ProcessStatus::Pending => None,
            ProcessStatus::Cancelled => Some(TreeError::IllegalTransition),
            ProcessStatus::Running => if m.nodes[c].status == ProcessStatus::Running {
                None
            } else {
                m.advance_error(c, s)
            },
            _ => m.advance_error(c, s),
        }
    }
}

/// The tree once the platform has reported the status `s` of the command
/// `c`: a command that is reported to run starts, and one that is reported
/// to have succeeded or failed ends then.
pub open spec fn reported(m: crate::acting_tree::TreeModel, c: int, s: ProcessStatus, now: u64) -> crate::acting_tree::TreeModel {
    if s == ProcessStatus::Pending || m.nodes[c].status == s {
        m
    } else {
        m.advance(c, s, m.instant(now))
    }
}

/// Takes a report of the platform on the command `command`.
///
/// While the command is pending or runs the executor waits; a report that
/// it runs starts it. On success its end is recorded and its call returns
/// `true`; on failure its end is recorded and its call returns the failure
/// value. A report that is refused changes nothing.
pub fn on_command_status(
    tree: &mut ActingTree,
    command: ActingProcessId,
    status: ProcessStatus,
    now: u64,
) -> (r: Result<CommandStep, TreeError>)
    requires
        old(tree).wf(),
    ensures
        final(tree).wf(),
        r is Err <==> report_error(old(tree)@, command as int, status) is Some,
        r matches Err(e) ==> Some(e) == report_error(old(tree)@, command as int, status)
            && final(tree)@ == old(tree)@,
        r is Ok ==> final(tree)@ == reported(old(tree)@, command as int, status, now),
        r matches Ok(step) ==> match status {
            ProcessStatus::Success => step matches CommandStep::Return(v) && v@ == Sexp::True,
            ProcessStatus::Failure => step matches CommandStep::Return(v) && v@
                == action_failure(),
            _ => step is Wait,
        },
{
    proof {
        tree.lemma_wf();
    }
    match tree.kind(command) {
        None => { return Err(TreeError::UnknownProcess); },
        Some(ProcessKind::Command) => {},
        Some(_) => { return Err(TreeError::WrongKind); },
    }
    match status {
        ProcessStatus::Pending => Ok(CommandStep::Wait),
        ProcessStatus::Cancelled => Err(TreeError::IllegalTransition),
        ProcessStatus::Running => {
            match tree.status(command) {
                Some(ProcessStatus::Running) => Ok(CommandStep::Wait),
                _ => match tree.set_status(command, status, now) {
                    Ok(()) => Ok(CommandStep::Wait),
                    Err(e) => Err(e),
                },
            }
        },
        ProcessStatus::Success => match tree.set_status(command, status, now) {
            Ok(()) => Ok(CommandStep::Return(LValue::True)),
            Err(e) => Err(e),
        },
        ProcessStatus::Failure => match tree.set_status(command, status, now) {
            Ok(()) => Ok(
                CommandStep::Return(LValue::failure(LValue::symbol(ACTION_FAILURE))),
            ),
            Err(e) => Err(e),
        },
    }
}

/// The tree once a process of the given kind has been added under `parent`
/// and started.
pub open spec fn started(
    m: crate::acting_tree::TreeModel,
    parent: int,
    kind: ProcessKind,
    label: Seq<char>,
    args: Seq<Sexp>,
    now: u64,
) -> crate::acting_tree::TreeModel {
    let spawned = m.spawn(parent, kind, label, args);
    spawned.advance(m.nodes.len() as int, ProcessStatus::Running, spawned.instant(now))
}

/// Tells whether a process of the given kind cannot be started under
/// `parent`: the tree refuses it, or the parent has not started.
pub open spec fn start_refused(m: crate::acting_tree::TreeModel, parent: int, kind: ProcessKind) -> bool {
    m.spawn_error(parent, kind) is Some || m.nodes[parent].start is None
}

/// Starts a task that names a command: creates the task `label` under
/// `parent`, starts it, and creates and starts under it the command of the
/// same label and arguments, which is to be handed to the platform under
/// the second identifier returned. The task takes no method: it succeeds or
/// fails with the command.
///
/// Where the task is refused nothing changes. Where the tree has room for
/// the task only, the task stays, running, and the command is refused.
pub fn begin_command_task(
    tree: &mut ActingTree,
    parent: ActingProcessId,
    label: &str,
    args: Vec<LValue>,
    now: u64,
) -> (r: Result<(ActingProcessId, ActingProcessId), TreeError>)
    requires
        old(tree).wf(),
    ensures
        final(tree).wf(),
        start_refused(old(tree)@, parent as int, ProcessKind::Task) ==> r is Err && final(tree)@
            == old(tree)@,
        !start_refused(old(tree)@, parent as int, ProcessKind::Task) ==> ({
            let task = old(tree)@.nodes.len();
            let with_task = started(
                old(tree)@,
                parent as int,
                ProcessKind::Task,
                label@,
                models(args@),
                now,
            );
            if start_refused(with_task, task as int, ProcessKind::Command) {
                r is Err && final(tree)@ == with_task
            } else {
                &&& r == Ok::<(ActingProcessId, ActingProcessId), TreeError>(
                    (task as usize, (task + 1) as usize),
                )
                &&& final(tree)@ == started(
                    with_task,
                    task as int,
                    ProcessKind::Command,
                    label@,
                    models(args@),
                    now,
                )
                &&& final(tree)@.nodes[task as int].kind == ProcessKind::Task
                &&& final(tree)@.nodes[task as int + 1].kind == ProcessKind::Command
                &&& final(tree)@.nodes[task as int + 1].parent == Some(task)
                &&& final(tree)@.nodes[task as int + 1].status == ProcessStatus::Running
            }
        }),
{
    let copy = crate::lvalue::clone_values(&args);
    let task = match begin_task(tree, parent, label, args, now) {
        Ok(t) => t,
        Err(e) => { return Err(e); },
    };
    proof {
        tree.lemma_wf();
    }
    match begin_command(tree, task, label, copy, now) {
        Ok(c) => {
            proof {
                tree.lemma_wf();
            }
            Ok((task, c))
        },
        Err(e) => Err(e),
    }
}

} // verus!
