//! The acting tree: the processes of an engine, kept in an arena in which a
//! process stands behind its parent.
use crate::lvalue::{clone_values, models, LValue, Sexp};
use vstd::prelude::*;

verus! {

/// Identifier of a process: its place in the arena. The root is 0.
pub type ActingProcessId = usize;

/// What a process stands for.
#[derive(Clone, Copy, Debug, PartialEq, Eq, Structural)]
pub enum ProcessKind {
    Root,
    Task,
    Method,
    Command,
    Acquire,
    Arbitrary,
}

/// How far a process has come.
#[derive(Clone, Copy, Debug, PartialEq, Eq, Structural)]
pub enum ProcessStatus {
    Pending,
    Running,
    Success,
    Failure,
    Cancelled,
}

/// Why an operation on the tree is refused.
#[derive(Clone, Copy, Debug, PartialEq, Eq, Structural)]
pub enum TreeError {
    /// No process has the given identifier.
    UnknownProcess,
    /// The process is not of the kind that the operation is for.
    WrongKind,
    /// The status cannot follow the present one.
    IllegalTransition,
    /// The parent has not started.
    ParentNotStarted,
    /// The task still has a method that has not ended.
    MethodActive,
    /// The task has no candidate left, or its candidates were not counted.
    NoCandidate,
    /// The candidates of the task were already counted.
    AlreadyCounted,
    /// The arena cannot hold one process more.
    Full,
}

/// Tells whether a status is terminal.
pub open spec fn terminal(s: ProcessStatus) -> bool {
    s == ProcessStatus::Success || s == ProcessStatus::Failure || s == ProcessStatus::Cancelled
}

/// Tells whether a process of the kind `child` may stand under one of the
/// kind `parent`: a method stands under a task, and under a task stand
/// methods and commands only.
pub open spec fn kinds_fit(child: ProcessKind, parent: ProcessKind) -> bool {
    &&& child == ProcessKind::Method ==> parent == ProcessKind::Task
    &&& parent == ProcessKind::Task ==> child == ProcessKind::Method || child
        == ProcessKind::Command
}

/// Tells whether a new process of the kind `kind` under a process of the
/// kind `parent` takes a candidate of its parent: a method does, and so does
/// the command that a task stands for, which is its only candidate.
pub open spec fn takes_candidate(kind: ProcessKind, parent: ProcessKind) -> bool {
    kind == ProcessKind::Method || (kind == ProcessKind::Command && parent == ProcessKind::Task)
}

/// Tells whether the status `to` may follow `from`: a pending process may
/// start, fail or be cancelled, and a process that runs may end in any way.
pub open spec fn may_follow(from: ProcessStatus, to: ProcessStatus) -> bool {
    match from {
        ProcessStatus::Pending => to == ProcessStatus::Running || to == ProcessStatus::Failure
            || to == ProcessStatus::Cancelled,
        ProcessStatus::Running => terminal(to),
        _ => false,
    }
}

/// One process, as contracts see it.
pub struct ProcessModel {
    pub kind: ProcessKind,
    pub parent: Option<nat>,
    pub label: Seq<char>,
    pub args: Seq<Sexp>,
    pub status: ProcessStatus,
    pub start: Option<nat>,
    pub end: Option<nat>,
    /// For a task: the number of candidate methods not tried yet, once the
    /// candidates have been counted.
    pub remaining: Option<nat>,
}

/// The tree, as contracts see it.
pub struct TreeModel {
    pub nodes: Seq<ProcessModel>,
    /// The latest instant that the tree has recorded.
    pub clock: nat,
}

impl ProcessModel {
    /// The process once it has the status `s` at the instant `at`: a process
    /// that had not started starts then, and one that ends, ends then.
    pub open spec fn stamped(self, s: ProcessStatus, at: nat) -> ProcessModel {
        ProcessModel {
            status: s,
            start: if self.start is None {
                Some(at)
            } else {
                self.start
            },
            end: if terminal(s) {
                Some(at)
            } else {
                self.end
            },
            ..self
        }
    }
}

impl TreeModel {
    /// Tells whether `c` is a child of `p`.
    pub open spec fn child_of(self, c: int, p: int) -> bool {
        0 <= p && 0 <= c < self.nodes.len() && self.nodes[c].parent == Some(p as nat)
    }

    /// Tells whether `a` is `d` or lies on the path from `d` to the root.
    pub open spec fn above(self, a: int, d: int) -> bool
        decreases d,
    {
        if d < 0 || d >= self.nodes.len() {
            false
        } else if a == d {
            true
        } else {
            match self.nodes[d].parent {
                Some(p) => p < d && self.above(a, p as int),
                None => false,
            }
        }
    }

    /// The shape: the root is the process 0 and has no parent; every other
    /// process has one parent, which stands before it, and is no root.
    pub open spec fn shaped(self) -> bool {
        &&& self.nodes.len() >= 1
        &&& self.nodes[0].kind == ProcessKind::Root
        &&& self.nodes[0].parent is None
        &&& forall|i: int|
            1 <= i < self.nodes.len() ==> {
                &&& (#[trigger] self.nodes[i]).kind != ProcessKind::Root
                &&& self.nodes[i].parent is Some
                &&& self.nodes[i].parent->0 < i
            }
    }

    /// The instants: a process that runs has started, one that has ended has
    /// both instants with the start first, a process does not start before
    /// its parent, and no instant lies after the clock.
    pub open spec fn timed(self) -> bool {
        &&& forall|i: int|
            0 <= i < self.nodes.len() ==> {
                let n = #[trigger] self.nodes[i];
                &&& n.status == ProcessStatus::Running ==> n.start is Some
                &&& terminal(n.status) ==> n.start is Some && n.end is Some
                &&& n.end is Some ==> n.start is Some && n.start->0 <= n.end->0 <= self.clock
                &&& n.start is Some ==> n.start->0 <= self.clock
            }
        &&& forall|c: int, p: int|
            #[trigger] self.child_of(c, p) && self.nodes[c].start is Some ==> self.nodes[p].start
                is Some && self.nodes[p].start->0 <= self.nodes[c].start->0
    }

    /// The refinements: the children of a task are its methods, or the
    /// command that the task stands for; the parent of a method is a task;
    /// a task with a child has counted its candidates; and a task has one
    /// child at most that has not ended, during which it runs.
    pub open spec fn refined(self) -> bool {
        &&& forall|c: int, p: int| #[trigger]
            self.child_of(c, p) ==> kinds_fit(self.nodes[c].kind, self.nodes[p].kind)
        &&& forall|i: int, j: int, p: int|
            #[trigger] self.child_of(i, p) && #[trigger] self.child_of(j, p) && i < j
                && self.nodes[p].kind == ProcessKind::Task ==> terminal(self.nodes[i].status)
        &&& forall|c: int, p: int|
            #[trigger] self.child_of(c, p) && self.nodes[p].kind == ProcessKind::Task
                && !terminal(self.nodes[c].status) ==> self.nodes[p].status
                == ProcessStatus::Running
        &&& forall|c: int, p: int|
            #[trigger] self.child_of(c, p) && self.nodes[p].kind == ProcessKind::Task
                ==> self.nodes[p].remaining is Some
    }

    /// Tells whether some child of the task `t` has succeeded.
    pub open spec fn has_success(self, t: int) -> bool {
        exists|c: int| #[trigger] self.child_of(c, t) && self.nodes[c].status
            == ProcessStatus::Success
    }

    /// Tells whether every child of the task `t` has failed.
    pub open spec fn all_failed(self, t: int) -> bool {
        forall|c: int| #[trigger] self.child_of(c, t) ==> self.nodes[c].status
            == ProcessStatus::Failure
    }

    /// The outcome of tasks: a task has succeeded exactly when one of its
    /// children has, a method or the command that it stands for, and has
    /// failed exactly when all its children have and no candidate is left.
    pub open spec fn settled(self) -> bool {
        forall|t: int|
            0 <= t < self.nodes.len() && (#[trigger] self.nodes[t]).kind == ProcessKind::Task ==> {
                &&& self.nodes[t].status == ProcessStatus::Success <==> self.has_success(t)
                &&& self.nodes[t].status == ProcessStatus::Failure <==> self.nodes[t].remaining
                    == Some(0nat) && self.all_failed(t)
            }
    }

    /// What holds of a tree at any time.
    pub open spec fn wf(self) -> bool {
        &&& self.shaped()
        &&& self.timed()
        &&& self.refined()
        &&& self.settled()
        &&& self.nodes.len() <= usize::MAX
        &&& self.clock <= u64::MAX
    }

    /// The instant that the tree records when it is told that it is `now`:
    /// the clock never goes back.
    pub open spec fn instant(self, now: u64) -> nat {
        if now as nat >= self.clock {
            now as nat
        } else {
            self.clock
        }
    }
}

impl TreeModel {
    /// A tree that holds its root only: the root runs from the instant 0.
    pub open spec fn initial() -> TreeModel {
        TreeModel {
            nodes: seq![
                ProcessModel {
                    kind: ProcessKind::Root,
                    parent: None,
                    label: Seq::empty(),
                    args: Seq::empty(),
                    status: ProcessStatus::Running,
                    start: Some(0nat),
                    end: None,
                    remaining: None,
                },
            ],
            clock: 0,
        }
    }

    /// Why a new process of the given kind is refused under `parent`, if it
    /// is: a method goes under a running task that has a candidate left and
    /// no method that has not ended; a command goes under a running task
    /// whose candidates were not counted, which then stands for that
    /// command, or under a process that is no task; anything else goes under
    /// a process that is no task.
    pub open spec fn spawn_error(self, parent: int, kind: ProcessKind) -> Option<TreeError> {
        if parent < 0 || parent >= self.nodes.len() {
            Some(TreeError::UnknownProcess)
        } else if self.nodes.len() >= usize::MAX {
            Some(TreeError::Full)
        } else if kind == ProcessKind::Root {
            Some(TreeError::WrongKind)
        } else if kind == ProcessKind::Method {
            if self.nodes[parent].kind != ProcessKind::Task {
                Some(TreeError::WrongKind)
            } else if self.nodes[parent].status != ProcessStatus::Running {
                Some(TreeError::IllegalTransition)
            } else if self.nodes[parent].remaining is None || self.nodes[parent].remaining
                == Some(0nat) {
                Some(TreeError::NoCandidate)
            } else if exists|c: int| #[trigger] self.child_of(c, parent) && !terminal(
                self.nodes[c].status,
            ) {
                Some(TreeError::MethodActive)
            } else {
                None
            }
        } else if self.nodes[parent].kind == ProcessKind::Task {
            if kind != ProcessKind::Command {
                Some(TreeError::WrongKind)
            } else if self.nodes[parent].status != ProcessStatus::Running {
                Some(TreeError::IllegalTransition)
            } else if self.nodes[parent].remaining is Some {
                Some(TreeError::AlreadyCounted)
            } else {
                None
            }
        } else {
            None
        }
    }

    /// The tree once a pending process has been added under `parent`. A new
    /// method takes one candidate of its task; a command under a task is the
    /// only candidate of the task, and is taken.
    pub open spec fn spawn(
        self,
        parent: int,
        kind: ProcessKind,
        label: Seq<char>,
        args: Seq<Sexp>,
    ) -> TreeModel {
        let node = ProcessModel {
            kind,
            parent: Some(parent as nat),
            label,
            args,
            status: ProcessStatus::Pending,
            start: None,
            end: None,
            remaining: None,
        };
        if kind == ProcessKind::Method {
            let task = self.nodes[parent];
            TreeModel {
                nodes: self.nodes.update(
                    parent,
                    ProcessModel { remaining: Some((task.remaining->0 - 1) as nat), ..task },
                ).push(node),
                ..self
            }
        } else if takes_candidate(kind, self.nodes[parent].kind) {
            let task = self.nodes[parent];
            TreeModel {
                nodes: self.nodes.update(
                    parent,
                    ProcessModel { remaining: Some(0nat), ..task },
                ).push(node),
                ..self
            }
        } else {
            TreeModel { nodes: self.nodes.push(node), ..self }
        }
    }

    /// Why counting the candidates of `t` is refused, if it is.
    pub open spec fn count_error(self, t: int) -> Option<TreeError> {
        if t < 0 || t >= self.nodes.len() {
            Some(TreeError::UnknownProcess)
        } else if self.nodes[t].kind != ProcessKind::Task {
            Some(TreeError::WrongKind)
        } else if self.nodes[t].status != ProcessStatus::Running {
            Some(TreeError::IllegalTransition)
        } else if self.nodes[t].remaining is Some {
            Some(TreeError::AlreadyCounted)
        } else {
            None
        }
    }

    /// The tree once the running task `t` has been told that it has `n`
    /// candidate methods: with none, the task fails at once.
    pub open spec fn count(self, t: int, n: nat, at: nat) -> TreeModel {
        let task = ProcessModel { remaining: Some(n), ..self.nodes[t] };
        if n == 0 {
            TreeModel {
                nodes: self.nodes.update(t, task.stamped(ProcessStatus::Failure, at)),
                clock: at,
            }
        } else {
            TreeModel { nodes: self.nodes.update(t, task), clock: at }
        }
    }

    /// Tells whether the parent of `i` has started; the root has no parent to
    /// wait for.
    pub open spec fn parent_started(self, i: int) -> bool {
        i == 0 || self.nodes[self.nodes[i].parent->0 as int].start is Some
    }

    /// Why giving `i` the status `s` is refused, if it is. A task succeeds
    /// and fails through its methods only.
    pub open spec fn advance_error(self, i: int, s: ProcessStatus) -> Option<TreeError> {
        if i < 0 || i >= self.nodes.len() {
            Some(TreeError::UnknownProcess)
        } else if !may_follow(self.nodes[i].status, s) {
            Some(TreeError::IllegalTransition)
        } else if self.nodes[i].kind == ProcessKind::Task && (s == ProcessStatus::Success || s
            == ProcessStatus::Failure) {
            Some(TreeError::IllegalTransition)
        } else if self.nodes[i].start is None && !self.parent_started(i) {
            Some(TreeError::ParentNotStarted)
        } else {
            None
        }
    }

    /// Tells whether every method of `t` but `c` has failed.
    pub open spec fn others_failed(self, t: int, c: int) -> bool {
        forall|d: int| #[trigger] self.child_of(d, t) && d != c ==> self.nodes[d].status
            == ProcessStatus::Failure
    }

    /// Tells whether `i` stands under a task: it is a method of the task, or
    /// the command that the task stands for.
    pub open spec fn under_task(self, i: int) -> bool {
        self.nodes[i].parent is Some && self.nodes[i].parent->0 < self.nodes.len()
            && self.nodes[self.nodes[i].parent->0 as int].kind == ProcessKind::Task
    }

    /// The status that the task of `i` takes when `i` takes the status `s`:
    /// the task succeeds with its child, fails with the last child that
    /// fails when no candidate is left, and goes on otherwise.
    pub open spec fn task_follows(self, i: int, s: ProcessStatus) -> Option<ProcessStatus> {
        let t = self.nodes[i].parent->0 as int;
        if !self.under_task(i) {
            None
        } else if s == ProcessStatus::Success {
            Some(ProcessStatus::Success)
        } else if s == ProcessStatus::Failure && self.nodes[t].remaining == Some(0nat)
            && self.others_failed(t, i) {
            Some(ProcessStatus::Failure)
        } else {
            None
        }
    }

    /// The tree once `i` has taken the status `s`, other than by
    /// cancellation, at the instant `at`.
    pub open spec fn advance(self, i: int, s: ProcessStatus, at: nat) -> TreeModel {
        let nodes = self.nodes.update(i, self.nodes[i].stamped(s, at));
        match self.task_follows(i, s) {
            Some(ts) => {
                let t = self.nodes[i].parent->0 as int;
                TreeModel { nodes: nodes.update(t, self.nodes[t].stamped(ts, at)), clock: at }
            },
            None => TreeModel { nodes, clock: at },
        }
    }

    /// Why recording the end of `i` is refused, if it is: there is no such
    /// process, it has not started, or it has ended, and what has ended
    /// stays as it is.
    pub open spec fn end_error(self, i: int) -> Option<TreeError> {
        if i < 0 || i >= self.nodes.len() {
            Some(TreeError::UnknownProcess)
        } else if self.nodes[i].start is None || terminal(self.nodes[i].status) {
            Some(TreeError::IllegalTransition)
        } else {
            None
        }
    }

    /// The tree once the instant `at` has been recorded as the end of `i`:
    /// its status stays what it is.
    pub open spec fn ended(self, i: int, at: nat) -> TreeModel {
        TreeModel {
            nodes: self.nodes.update(i, ProcessModel { end: Some(at), ..self.nodes[i] }),
            clock: at,
        }
    }

    /// Why cancelling `i` is refused, if it is.
    pub open spec fn cancel_error(self, i: int) -> Option<TreeError> {
        if i < 0 || i >= self.nodes.len() {
            Some(TreeError::UnknownProcess)
        } else if self.nodes[i].start is None && !self.parent_started(i) {
            Some(TreeError::ParentNotStarted)
        } else {
            None
        }
    }

    /// The tree once `i` and all that lies below it have been cancelled at
    /// the instant `at`: what had ended stays as it was.
    pub open spec fn cancel(self, i: int, at: nat) -> TreeModel {
        TreeModel {
            nodes: Seq::new(
                self.nodes.len(),
                |j: int|
                    if self.above(i, j) && !terminal(self.nodes[j].status) {
                        self.nodes[j].stamped(ProcessStatus::Cancelled, at)
                    } else {
                        self.nodes[j]
                    },
            ),
            clock: at,
        }
    }
}

/// The tree that holds its root only is well formed.
pub proof fn lemma_initial_wf()
    ensures
        TreeModel::initial().wf(),
{
    let m = TreeModel::initial();
    assert(m.nodes.len() == 1);
}

/// What adding a process leaves as it was.
pub open spec fn grown(m: TreeModel, n: TreeModel, parent: int, kind: ProcessKind) -> bool {
    let id = m.nodes.len() as int;
    &&& n.nodes.len() == id + 1
    &&& n.clock == m.clock
    &&& n.nodes[id].kind == kind
    &&& n.nodes[id].parent == Some(parent as nat)
    &&& n.nodes[id].status == ProcessStatus::Pending
    &&& n.nodes[id].start is None
    &&& n.nodes[id].end is None
    &&& n.nodes[id].remaining is None
    &&& forall|i: int|
        0 <= i < id ==> {
            &&& (#[trigger] n.nodes[i]).kind == m.nodes[i].kind
            &&& n.nodes[i].parent == m.nodes[i].parent
            &&& n.nodes[i].status == m.nodes[i].status
            &&& n.nodes[i].start == m.nodes[i].start
            &&& n.nodes[i].end == m.nodes[i].end
            &&& (i != parent || !takes_candidate(kind, m.nodes[parent].kind))
                ==> n.nodes[i].remaining == m.nodes[i].remaining
            &&& (i == parent && takes_candidate(kind, m.nodes[parent].kind))
                ==> n.nodes[i].remaining is Some
        }
}

proof fn lemma_spawn_grown(
    m: TreeModel,
    parent: int,
    kind: ProcessKind,
    label: Seq<char>,
    args: Seq<Sexp>,
)
    requires
        0 <= parent < m.nodes.len(),
    ensures
        grown(m, m.spawn(parent, kind, label, args), parent, kind),
{
}

proof fn lemma_grown_child(m: TreeModel, n: TreeModel, parent: int, kind: ProcessKind, c: int, p: int)
    requires
        m.shaped(),
        grown(m, n, parent, kind),
        0 <= parent < m.nodes.len(),
    ensures
        n.child_of(c, p) <==> (m.child_of(c, p) || (c == m.nodes.len() && p == parent)),
        n.child_of(c, p) ==> 0 <= p < c,
{
    if 0 <= c < m.nodes.len() {
        assert(n.nodes[c].parent == m.nodes[c].parent);
        if c >= 1 {
            assert(m.nodes[c].parent->0 < c);
        }
    }
}

proof fn lemma_grown_shaped(m: TreeModel, n: TreeModel, parent: int, kind: ProcessKind)
    requires
        m.shaped(),
        grown(m, n, parent, kind),
        0 <= parent < m.nodes.len(),
        kind != ProcessKind::Root,
    ensures
        n.shaped(),
{
    assert forall|i: int| 1 <= i < n.nodes.len() implies ({
        &&& (#[trigger] n.nodes[i]).kind != ProcessKind::Root
        &&& n.nodes[i].parent is Some
        &&& n.nodes[i].parent->0 < i
    }) by {
        if i < m.nodes.len() {
            assert(m.nodes[i].kind != ProcessKind::Root);
        }
    }
}

proof fn lemma_grown_timed(m: TreeModel, n: TreeModel, parent: int, kind: ProcessKind)
    requires
        m.shaped(),
        m.timed(),
        grown(m, n, parent, kind),
        0 <= parent < m.nodes.len(),
    ensures
        n.timed(),
{
    assert forall|i: int| 0 <= i < n.nodes.len() implies ({
        let x = #[trigger] n.nodes[i];
        &&& x.status == ProcessStatus::Running ==> x.start is Some
        &&& terminal(x.status) ==> x.start is Some && x.end is Some
        &&& x.end is Some ==> x.start is Some && x.start->0 <= x.end->0 <= n.clock
        &&& x.start is Some ==> x.start->0 <= n.clock
    }) by {
        if i < m.nodes.len() {
            let y = m.nodes[i];
            assert(y.status == ProcessStatus::Running ==> y.start is Some);
        }
    }
    assert forall|c: int, p: int| #[trigger] n.child_of(c, p) && n.nodes[c].start is Some implies n.nodes[p].start
        is Some && n.nodes[p].start->0 <= n.nodes[c].start->0 by {
        lemma_grown_child(m, n, parent, kind, c, p);
        assert(m.child_of(c, p));
        assert(n.nodes[p].start == m.nodes[p].start);
        assert(n.nodes[c].start == m.nodes[c].start);
    }
}

proof fn lemma_grown_refined(m: TreeModel, n: TreeModel, parent: int, kind: ProcessKind)
    requires
        m.shaped(),
        m.refined(),
        grown(m, n, parent, kind),
        m.spawn_error(parent, kind) is None,
    ensures
        n.refined(),
{
    let id = m.nodes.len() as int;
    assert forall|c: int, p: int| #[trigger] n.child_of(c, p) implies kinds_fit(
        n.nodes[c].kind,
        n.nodes[p].kind,
    ) by {
        lemma_grown_child(m, n, parent, kind, c, p);
        assert(n.nodes[p].kind == m.nodes[p].kind);
        if c < id {
            assert(m.child_of(c, p));
            assert(n.nodes[c].kind == m.nodes[c].kind);
        }
    }
    assert forall|i: int, j: int, p: int|
        #[trigger] n.child_of(i, p) && #[trigger] n.child_of(j, p) && i < j && n.nodes[p].kind
            == ProcessKind::Task implies terminal(n.nodes[i].status) by {
        lemma_grown_child(m, n, parent, kind, i, p);
        lemma_grown_child(m, n, parent, kind, j, p);
        assert(m.child_of(i, p));
        assert(n.nodes[i].status == m.nodes[i].status);
        assert(n.nodes[i].kind == m.nodes[i].kind);
        if j == id {
            assert(p == parent);
            assert(m.nodes[parent].kind == ProcessKind::Task);
            assert(takes_candidate(kind, m.nodes[parent].kind));
        } else {
            assert(m.child_of(j, p));
        }
    }
    assert forall|c: int, p: int|
        #[trigger] n.child_of(c, p) && n.nodes[p].kind == ProcessKind::Task && !terminal(
            n.nodes[c].status,
        ) implies n.nodes[p].status == ProcessStatus::Running by {
        lemma_grown_child(m, n, parent, kind, c, p);
        assert(n.nodes[p].status == m.nodes[p].status);
        if c < id {
            assert(m.child_of(c, p));
            assert(n.nodes[c].status == m.nodes[c].status);
            assert(n.nodes[c].kind == m.nodes[c].kind);
        }
    }
    assert forall|c: int, p: int|
        #[trigger] n.child_of(c, p) && n.nodes[p].kind == ProcessKind::Task implies n.nodes[p].remaining
        is Some by {
        lemma_grown_child(m, n, parent, kind, c, p);
        assert(n.nodes[p].kind == m.nodes[p].kind);
        if c < id {
            assert(m.child_of(c, p));
            if p != parent || !takes_candidate(kind, m.nodes[parent].kind) {
                assert(n.nodes[p].remaining == m.nodes[p].remaining);
            }
        }
    }
}

proof fn lemma_grown_children(m: TreeModel, n: TreeModel, parent: int, kind: ProcessKind, t: int)
    requires
        m.shaped(),
        grown(m, n, parent, kind),
        0 <= parent < m.nodes.len(),
        0 <= t < m.nodes.len(),
        t != parent,
    ensures
        m.has_success(t) == n.has_success(t),
        m.all_failed(t) == n.all_failed(t),
{
    let id = m.nodes.len() as int;
    if m.has_success(t) {
        let c = choose|c: int|
            #[trigger] m.child_of(c, t) && m.nodes[c].status == ProcessStatus::Success;
        lemma_grown_child(m, n, parent, kind, c, t);
        assert(n.child_of(c, t) && n.nodes[c].status == ProcessStatus::Success);
    }
    if n.has_success(t) {
        let c = choose|c: int|
            #[trigger] n.child_of(c, t) && n.nodes[c].status == ProcessStatus::Success;
        lemma_grown_child(m, n, parent, kind, c, t);
        assert(m.child_of(c, t) && m.nodes[c].status == ProcessStatus::Success);
    }
    if m.all_failed(t) {
        assert forall|c: int| #[trigger] n.child_of(c, t) implies n.nodes[c].status
            == ProcessStatus::Failure by {
            lemma_grown_child(m, n, parent, kind, c, t);
            assert(m.child_of(c, t));
            assert(m.nodes[c].status == ProcessStatus::Failure);
        }
    }
    if n.all_failed(t) {
        assert forall|c: int| #[trigger] m.child_of(c, t) implies m.nodes[c].status
            == ProcessStatus::Failure by {
            lemma_grown_child(m, n, parent, kind, c, t);
            assert(n.child_of(c, t));
            assert(n.nodes[c].status == ProcessStatus::Failure);
        }
    }
}

proof fn lemma_grown_settled(m: TreeModel, n: TreeModel, parent: int, kind: ProcessKind)
    requires
        m.shaped(),
        m.settled(),
        grown(m, n, parent, kind),
        m.spawn_error(parent, kind) is None,
    ensures
        n.settled(),
{
    let id = m.nodes.len() as int;
    assert forall|t: int|
        0 <= t < n.nodes.len() && (#[trigger] n.nodes[t]).kind == ProcessKind::Task implies ({
        &&& n.nodes[t].status == ProcessStatus::Success <==> n.has_success(t)
        &&& n.nodes[t].status == ProcessStatus::Failure <==> n.nodes[t].remaining == Some(0nat)
            && n.all_failed(t)
    }) by {
        if t == id {
            assert(!n.has_success(t)) by {
                if n.has_success(t) {
                    let c = choose|c: int|
                        #[trigger] n.child_of(c, t) && n.nodes[c].status
                            == ProcessStatus::Success;
                    lemma_grown_child(m, n, parent, kind, c, t);
                }
            }
        } else if t != parent {
            lemma_grown_children(m, n, parent, kind, t);
            assert(m.nodes[t].kind == ProcessKind::Task);
        } else {
            assert(m.nodes[t].kind == ProcessKind::Task);
            assert(takes_candidate(kind, m.nodes[parent].kind));
            assert(m.nodes[t].status == ProcessStatus::Running);
            assert(n.child_of(id, t));
            assert(n.nodes[id].status == ProcessStatus::Pending);
            assert(!n.all_failed(t));
            assert(!m.has_success(t));
            assert(!n.has_success(t)) by {
                if n.has_success(t) {
                    let c = choose|c: int|
                        #[trigger] n.child_of(c, t) && n.nodes[c].status
                            == ProcessStatus::Success;
                    lemma_grown_child(m, n, parent, kind, c, t);
                    assert(m.child_of(c, t) && m.nodes[c].status == ProcessStatus::Success);
                }
            }
        }
    }
}

/// Adding a process keeps the tree well formed.
pub proof fn lemma_spawn_wf(
    m: TreeModel,
    parent: int,
    kind: ProcessKind,
    label: Seq<char>,
    args: Seq<Sexp>,
)
    requires
        m.wf(),
        m.spawn_error(parent, kind) is None,
    ensures
        m.spawn(parent, kind, label, args).wf(),
{
    let n = m.spawn(parent, kind, label, args);
    lemma_spawn_grown(m, parent, kind, label, args);
    lemma_grown_shaped(m, n, parent, kind);
    lemma_grown_timed(m, n, parent, kind);
    lemma_grown_refined(m, n, parent, kind);
    lemma_grown_settled(m, n, parent, kind);
}

/// What a change of statuses leaves as it was: the processes, their kinds
/// and their parents; a process either keeps its status and its instants or
/// takes a status that may follow, stamped at the new clock.
pub open spec fn restamped(m: TreeModel, n: TreeModel) -> bool {
    &&& n.nodes.len() == m.nodes.len()
    &&& m.clock <= n.clock
    &&& forall|i: int|
        0 <= i < m.nodes.len() ==> {
            let x = m.nodes[i];
            let y = #[trigger] n.nodes[i];
            &&& y.kind == x.kind
            &&& y.parent == x.parent
            &&& (y.status == x.status && y.start == x.start && y.end == x.end) || (may_follow(
                x.status,
                y.status,
            ) && y.start == x.stamped(y.status, n.clock).start && y.end == x.stamped(
                y.status,
                n.clock,
            ).end)
        }
}

proof fn lemma_restamped_child(m: TreeModel, n: TreeModel, c: int, p: int)
    requires
        m.shaped(),
        restamped(m, n),
    ensures
        n.child_of(c, p) <==> m.child_of(c, p),
        m.child_of(c, p) ==> 0 <= p < c < m.nodes.len(),
{
    if 0 <= c < m.nodes.len() {
        assert(n.nodes[c].parent == m.nodes[c].parent);
        if c >= 1 {
            assert(m.nodes[c].parent->0 < c);
        }
    }
}

proof fn lemma_restamped_shaped(m: TreeModel, n: TreeModel)
    requires
        m.shaped(),
        restamped(m, n),
    ensures
        n.shaped(),
{
    assert(n.nodes[0].kind == m.nodes[0].kind);
    assert forall|i: int| 1 <= i < n.nodes.len() implies ({
        &&& (#[trigger] n.nodes[i]).kind != ProcessKind::Root
        &&& n.nodes[i].parent is Some
        &&& n.nodes[i].parent->0 < i
    }) by {
        assert(m.nodes[i].kind != ProcessKind::Root);
    }
}

proof fn lemma_restamped_timed(m: TreeModel, n: TreeModel)
    requires
        m.shaped(),
        m.timed(),
        restamped(m, n),
        forall|c: int, p: int|
            #[trigger] m.child_of(c, p) && m.nodes[c].start is None && n.nodes[c].start is Some
                ==> n.nodes[p].start is Some,
    ensures
        n.timed(),
{
    assert forall|i: int| 0 <= i < n.nodes.len() implies ({
        let x = #[trigger] n.nodes[i];
        &&& x.status == ProcessStatus::Running ==> x.start is Some
        &&& terminal(x.status) ==> x.start is Some && x.end is Some
        &&& x.end is Some ==> x.start is Some && x.start->0 <= x.end->0 <= n.clock
        &&& x.start is Some ==> x.start->0 <= n.clock
    }) by {
        let y = m.nodes[i];
        assert(y.status == ProcessStatus::Running ==> y.start is Some);
    }
    assert forall|c: int, p: int| #[trigger] n.child_of(c, p) && n.nodes[c].start is Some implies n.nodes[p].start
        is Some && n.nodes[p].start->0 <= n.nodes[c].start->0 by {
        lemma_restamped_child(m, n, c, p);
        assert(m.child_of(c, p));
        let xc = m.nodes[c];
        let xp = m.nodes[p];
        let yc = n.nodes[c];
        let yp = n.nodes[p];
        assert(xp.start is Some ==> xp.start->0 <= m.clock);
        if xc.start is Some {
            assert(xp.start is Some && xp.start->0 <= xc.start->0);
        }
    }
}

proof fn lemma_restamped_refined(m: TreeModel, n: TreeModel)
    requires
        m.shaped(),
        m.refined(),
        restamped(m, n),
        forall|c: int, p: int|
            #[trigger] m.child_of(c, p) && m.nodes[p].kind == ProcessKind::Task && !terminal(
                n.nodes[c].status,
            ) ==> n.nodes[p].status == ProcessStatus::Running,
        forall|i: int|
            0 <= i < m.nodes.len() && (#[trigger] m.nodes[i]).remaining is Some ==> n.nodes[i].remaining
                is Some,
    ensures
        n.refined(),
{
    assert forall|c: int, p: int| #[trigger] n.child_of(c, p) implies kinds_fit(
        n.nodes[c].kind,
        n.nodes[p].kind,
    ) by {
        lemma_restamped_child(m, n, c, p);
        assert(m.child_of(c, p));
        assert(n.nodes[c].kind == m.nodes[c].kind);
        assert(n.nodes[p].kind == m.nodes[p].kind);
    }
    assert forall|i: int, j: int, p: int|
        #[trigger] n.child_of(i, p) && #[trigger] n.child_of(j, p) && i < j && n.nodes[p].kind
            == ProcessKind::Task implies terminal(n.nodes[i].status) by {
        lemma_restamped_child(m, n, i, p);
        lemma_restamped_child(m, n, j, p);
        assert(m.child_of(i, p) && m.child_of(j, p));
        assert(n.nodes[i].kind == m.nodes[i].kind);
        assert(terminal(m.nodes[i].status));
    }
    assert forall|c: int, p: int|
        #[trigger] n.child_of(c, p) && n.nodes[p].kind == ProcessKind::Task && !terminal(
            n.nodes[c].status,
        ) implies n.nodes[p].status == ProcessStatus::Running by {
        lemma_restamped_child(m, n, c, p);
        assert(m.child_of(c, p));
        assert(n.nodes[c].kind == m.nodes[c].kind);
    }
    assert forall|c: int, p: int|
        #[trigger] n.child_of(c, p) && n.nodes[p].kind == ProcessKind::Task implies n.nodes[p].remaining
        is Some by {
        lemma_restamped_child(m, n, c, p);
        assert(m.child_of(c, p));
        assert(n.nodes[p].kind == m.nodes[p].kind);
        assert(m.nodes[p].remaining is Some);
    }
}

/// Where the methods of `t` keep their statuses, `t` has a method that
/// succeeded, or methods that all failed, after as before.
proof fn lemma_same_children(m: TreeModel, n: TreeModel, t: int)
    requires
        m.shaped(),
        restamped(m, n),
        forall|c: int| #[trigger] m.child_of(c, t) ==> n.nodes[c].status == m.nodes[c].status,
    ensures
        m.has_success(t) == n.has_success(t),
        m.all_failed(t) == n.all_failed(t),
{
    if m.has_success(t) {
        let c = choose|c: int|
            #[trigger] m.child_of(c, t) && m.nodes[c].status == ProcessStatus::Success;
        lemma_restamped_child(m, n, c, t);
        assert(n.child_of(c, t) && n.nodes[c].status == ProcessStatus::Success);
    }
    if n.has_success(t) {
        let c = choose|c: int|
            #[trigger] n.child_of(c, t) && n.nodes[c].status == ProcessStatus::Success;
        lemma_restamped_child(m, n, c, t);
        assert(m.child_of(c, t) && m.nodes[c].status == ProcessStatus::Success);
    }
    if m.all_failed(t) {
        assert forall|c: int| #[trigger] n.child_of(c, t) implies n.nodes[c].status
            == ProcessStatus::Failure by {
            lemma_restamped_child(m, n, c, t);
            assert(m.child_of(c, t));
        }
    }
    if n.all_failed(t) {
        assert forall|c: int| #[trigger] m.child_of(c, t) implies m.nodes[c].status
            == ProcessStatus::Failure by {
            lemma_restamped_child(m, n, c, t);
            assert(n.child_of(c, t));
        }
    }
}

/// Counting the candidates of a task keeps the tree well formed.
pub proof fn lemma_count_wf(m: TreeModel, t: int, k: nat, at: nat)
    requires
        m.wf(),
        m.count_error(t) is None,
        m.clock <= at <= u64::MAX,
    ensures
        m.count(t, k, at).wf(),
{
    let n = m.count(t, k, at);
    assert forall|i: int| 0 <= i < m.nodes.len() && i != t implies #[trigger] n.nodes[i]
        == m.nodes[i] by {}
    assert(restamped(m, n));
    lemma_restamped_shaped(m, n);
    assert forall|c: int, p: int|
        #[trigger] m.child_of(c, p) && m.nodes[c].start is None && n.nodes[c].start
            is Some implies n.nodes[p].start is Some by {
        lemma_restamped_child(m, n, c, p);
        assert(c != t);
    }
    lemma_restamped_timed(m, n);
    assert forall|c: int, p: int|
        #[trigger] m.child_of(c, p) && m.nodes[p].kind == ProcessKind::Task && !terminal(
            n.nodes[c].status,
        ) implies n.nodes[p].status == ProcessStatus::Running by {
        lemma_restamped_child(m, n, c, p);
        if p == t {
            assert(m.nodes[t].remaining is Some);
        }
        if c == t {
            assert(m.nodes[c].kind == ProcessKind::Task);
        }
    }
    lemma_restamped_refined(m, n);
    assert forall|u: int|
        0 <= u < n.nodes.len() && (#[trigger] n.nodes[u]).kind == ProcessKind::Task implies ({
        &&& n.nodes[u].status == ProcessStatus::Success <==> n.has_success(u)
        &&& n.nodes[u].status == ProcessStatus::Failure <==> n.nodes[u].remaining == Some(0nat)
            && n.all_failed(u)
    }) by {
        assert(m.nodes[u].kind == ProcessKind::Task);
        if u == t {
            assert forall|c: int| !(#[trigger] m.child_of(c, t)) by {
                if m.child_of(c, t) {
                    assert(m.nodes[t].remaining is Some);
                }
            }
            assert forall|c: int| !(#[trigger] n.child_of(c, t)) by {
                lemma_restamped_child(m, n, c, t);
            }
            assert(n.all_failed(t));
            assert(!n.has_success(t));
        } else {
            assert forall|c: int| #[trigger] m.child_of(c, u) implies n.nodes[c].status
                == m.nodes[c].status by {
                lemma_restamped_child(m, n, c, u);
                if c == t {
                    assert(kinds_fit(m.nodes[c].kind, m.nodes[u].kind));
                }
            }
            lemma_same_children(m, n, u);
        }
    }
}

/// What a change of one status does: the process takes the status, its
/// task follows where it has to, and nothing else changes.
pub open spec fn advanced(m: TreeModel, n: TreeModel, i: int, s: ProcessStatus, at: nat) -> bool {
    let t = m.nodes[i].parent->0 as int;
    let follows = m.task_follows(i, s);
    &&& n.nodes.len() == m.nodes.len()
    &&& n.clock == at
    &&& n.nodes[i] == m.nodes[i].stamped(s, at)
    &&& follows is Some ==> n.nodes[t] == m.nodes[t].stamped(follows->0, at)
    &&& forall|j: int|
        0 <= j < m.nodes.len() && j != i && !(follows is Some && j == t) ==> #[trigger] n.nodes[j]
            == m.nodes[j]
}

proof fn lemma_advance_advanced(m: TreeModel, i: int, s: ProcessStatus, at: nat)
    requires
        m.shaped(),
        0 <= i < m.nodes.len(),
        m.task_follows(i, s) is Some ==> i >= 1,
    ensures
        advanced(m, m.advance(i, s, at), i, s, at),
{
    if i >= 1 {
        assert(m.nodes[i].parent->0 < i);
    }
}

/// The task of a child that has not ended runs.
proof fn lemma_task_runs(m: TreeModel, i: int)
    requires
        m.shaped(),
        m.refined(),
        0 <= i < m.nodes.len(),
        m.under_task(i),
        !terminal(m.nodes[i].status),
    ensures
        i >= 1,
        m.child_of(i, m.nodes[i].parent->0 as int),
        0 <= m.nodes[i].parent->0 < i,
        m.nodes[m.nodes[i].parent->0 as int].kind == ProcessKind::Task,
        m.nodes[m.nodes[i].parent->0 as int].status == ProcessStatus::Running,
{
    if i >= 1 {
        assert(m.nodes[i].parent->0 < i);
    }
    assert(m.child_of(i, m.nodes[i].parent->0 as int));
}

proof fn lemma_advanced_restamped(m: TreeModel, n: TreeModel, i: int, s: ProcessStatus, at: nat)
    requires
        m.wf(),
        m.advance_error(i, s) is None,
        s != ProcessStatus::Cancelled,
        m.clock <= at,
        advanced(m, n, i, s, at),
    ensures
        restamped(m, n),
        forall|j: int|
            0 <= j < m.nodes.len() && (#[trigger] m.nodes[j]).remaining is Some ==> n.nodes[j].remaining
                is Some,
{
    let t = m.nodes[i].parent->0 as int;
    if m.task_follows(i, s) is Some {
        lemma_task_runs(m, i);
    }
    assert forall|j: int| 0 <= j < m.nodes.len() implies ({
        let x = m.nodes[j];
        let y = #[trigger] n.nodes[j];
        &&& y.kind == x.kind
        &&& y.parent == x.parent
        &&& (y.status == x.status && y.start == x.start && y.end == x.end) || (may_follow(
            x.status,
            y.status,
        ) && y.start == x.stamped(y.status, n.clock).start && y.end == x.stamped(
            y.status,
            n.clock,
        ).end)
    }) by {
        if j != i && !(m.task_follows(i, s) is Some && j == t) {
            assert(n.nodes[j] == m.nodes[j]);
        }
    }
    assert forall|j: int|
        0 <= j < m.nodes.len() && (#[trigger] m.nodes[j]).remaining is Some implies n.nodes[j].remaining
        is Some by {
        if j != i && !(m.task_follows(i, s) is Some && j == t) {
            assert(n.nodes[j] == m.nodes[j]);
        }
    }
}

proof fn lemma_advanced_timed(m: TreeModel, n: TreeModel, i: int, s: ProcessStatus, at: nat)
    requires
        m.wf(),
        m.advance_error(i, s) is None,
        s != ProcessStatus::Cancelled,
        m.clock <= at,
        advanced(m, n, i, s, at),
        restamped(m, n),
    ensures
        n.timed(),
{
    let t = m.nodes[i].parent->0 as int;
    if m.task_follows(i, s) is Some {
        lemma_task_runs(m, i);
    }
    assert forall|c: int, p: int|
        #[trigger] m.child_of(c, p) && m.nodes[c].start is None && n.nodes[c].start
            is Some implies n.nodes[p].start is Some by {
        lemma_restamped_child(m, n, c, p);
        if c == i {
            assert(m.parent_started(i));
            assert(m.nodes[p].start is Some);
            assert(n.nodes[p].start is Some) by {
                if p != i && !(m.task_follows(i, s) is Some && p == t) {
                    assert(n.nodes[p] == m.nodes[p]);
                }
            }
        } else if m.task_follows(i, s) is Some && c == t {
            assert(m.nodes[t].status == ProcessStatus::Running);
            assert(m.nodes[t].start is Some);
        } else {
            assert(n.nodes[c] == m.nodes[c]);
        }
    }
    lemma_restamped_timed(m, n);
}

proof fn lemma_advanced_refined(m: TreeModel, n: TreeModel, i: int, s: ProcessStatus, at: nat)
    requires
        m.wf(),
        m.advance_error(i, s) is None,
        s != ProcessStatus::Cancelled,
        m.clock <= at,
        advanced(m, n, i, s, at),
        restamped(m, n),
        forall|j: int|
            0 <= j < m.nodes.len() && (#[trigger] m.nodes[j]).remaining is Some ==> n.nodes[j].remaining
                is Some,
    ensures
        n.refined(),
{
    let t = m.nodes[i].parent->0 as int;
    let follows = m.task_follows(i, s);
    if follows is Some {
        lemma_task_runs(m, i);
    }
    assert forall|c: int, p: int|
        #[trigger] m.child_of(c, p) && m.nodes[p].kind == ProcessKind::Task && !terminal(
            n.nodes[c].status,
        ) implies n.nodes[p].status == ProcessStatus::Running by {
        lemma_restamped_child(m, n, c, p);
        assert(m.nodes[p].kind == ProcessKind::Task);
        if c != i {
            assert(c != t || follows is None) by {
                if follows is Some && c == t {
                    assert(m.nodes[t].kind == ProcessKind::Task);
                }
            }
            assert(n.nodes[c] == m.nodes[c]);
        }
        assert(!terminal(m.nodes[c].status));
        assert(m.nodes[p].status == ProcessStatus::Running);
        if p == i {
            assert(m.nodes[i].kind == ProcessKind::Task);
            assert(may_follow(ProcessStatus::Running, s));
        } else if follows is Some && p == t {
            if c == i {
                assert(terminal(s));
            } else {
                assert(m.child_of(i, t));
                if c < i {
                    assert(terminal(m.nodes[c].status));
                } else {
                    assert(terminal(m.nodes[i].status));
                }
            }
        } else {
            assert(n.nodes[p] == m.nodes[p]);
        }
    }
    lemma_restamped_refined(m, n);
}

proof fn lemma_advanced_settled(m: TreeModel, n: TreeModel, i: int, s: ProcessStatus, at: nat)
    requires
        m.wf(),
        m.advance_error(i, s) is None,
        s != ProcessStatus::Cancelled,
        m.clock <= at,
        advanced(m, n, i, s, at),
        restamped(m, n),
    ensures
        n.settled(),
{
    let t = m.nodes[i].parent->0 as int;
    let follows = m.task_follows(i, s);
    let method = m.under_task(i);
    assert(!terminal(m.nodes[i].status));
    if method {
        lemma_task_runs(m, i);
    }
    assert forall|u: int|
        0 <= u < n.nodes.len() && (#[trigger] n.nodes[u]).kind == ProcessKind::Task implies ({
        &&& n.nodes[u].status == ProcessStatus::Success <==> n.has_success(u)
        &&& n.nodes[u].status == ProcessStatus::Failure <==> n.nodes[u].remaining == Some(0nat)
            && n.all_failed(u)
    }) by {
        assert(m.nodes[u].kind == ProcessKind::Task);
        if method && u == t {
            assert(!m.has_success(t));
            assert(n.child_of(i, t)) by {
                lemma_restamped_child(m, n, i, t);
            }
            assert forall|d: int| #[trigger] m.child_of(d, t) && d != i implies n.nodes[d]
                == m.nodes[d] by {
                lemma_restamped_child(m, n, d, t);
            }
            if n.has_success(t) {
                let c = choose|c: int|
                    #[trigger] n.child_of(c, t) && n.nodes[c].status == ProcessStatus::Success;
                lemma_restamped_child(m, n, c, t);
                if c != i {
                    assert(m.child_of(c, t));
                    assert(m.nodes[c].status == ProcessStatus::Success);
                }
            }
            if n.all_failed(t) {
                assert(n.nodes[i].status == ProcessStatus::Failure);
                assert forall|d: int| #[trigger] m.child_of(d, t) && d != i implies m.nodes[d].status
                    == ProcessStatus::Failure by {
                    lemma_restamped_child(m, n, d, t);
                    assert(n.child_of(d, t));
                }
                assert(m.others_failed(t, i));
            }
            if follows == Some(ProcessStatus::Failure) {
                assert forall|c: int| #[trigger] n.child_of(c, t) implies n.nodes[c].status
                    == ProcessStatus::Failure by {
                    lemma_restamped_child(m, n, c, t);
                    if c != i {
                        assert(m.child_of(c, t));
                    }
                }
            }
            if follows is None {
                assert(n.nodes[t] == m.nodes[t]);
            }
        } else {
            assert forall|c: int| #[trigger] m.child_of(c, u) implies n.nodes[c].status
                == m.nodes[c].status by {
                lemma_restamped_child(m, n, c, u);
                if c == i {
                    assert(u == t);
                } else if follows is Some && c == t {
                    assert(m.nodes[t].kind == ProcessKind::Task);
                } else {
                    assert(n.nodes[c] == m.nodes[c]);
                }
            }
            lemma_same_children(m, n, u);
            if u == i {
                assert(m.nodes[i].status == ProcessStatus::Pending);
                assert(s == ProcessStatus::Running);
                assert(n.nodes[u].remaining == m.nodes[u].remaining);
            } else {
                assert(!(follows is Some && u == t));
                assert(n.nodes[u] == m.nodes[u]);
            }
        }
    }
}

/// Recording the end of a process that has started keeps the tree well
/// formed.
pub proof fn lemma_ended_wf(m: TreeModel, i: int, at: nat)
    requires
        m.wf(),
        m.end_error(i) is None,
        m.clock <= at <= u64::MAX,
    ensures
        m.ended(i, at).wf(),
{
    let n = m.ended(i, at);
    assert forall|j: int| 0 <= j < m.nodes.len() implies ({
        let x = m.nodes[j];
        let y = #[trigger] n.nodes[j];
        y.kind == x.kind && y.parent == x.parent && y.status == x.status && y.start == x.start
            && y.remaining == x.remaining && (j != i ==> y == x)
    }) by {}
    assert forall|c: int, p: int| n.child_of(c, p) == m.child_of(c, p) by {
        if 0 <= c < m.nodes.len() {
            assert(n.nodes[c].parent == m.nodes[c].parent);
        }
    }
    assert(n.shaped()) by {
        assert(n.nodes[0].kind == m.nodes[0].kind);
        assert forall|j: int| 1 <= j < n.nodes.len() implies ({
            &&& (#[trigger] n.nodes[j]).kind != ProcessKind::Root
            &&& n.nodes[j].parent is Some
            &&& n.nodes[j].parent->0 < j
        }) by {
            assert(m.nodes[j].kind != ProcessKind::Root);
        }
    }
    assert(n.timed()) by {
        assert forall|j: int| 0 <= j < n.nodes.len() implies ({
            let x = #[trigger] n.nodes[j];
            &&& x.status == ProcessStatus::Running ==> x.start is Some
            &&& terminal(x.status) ==> x.start is Some && x.end is Some
            &&& x.end is Some ==> x.start is Some && x.start->0 <= x.end->0 <= n.clock
            &&& x.start is Some ==> x.start->0 <= n.clock
        }) by {
            let y = m.nodes[j];
            assert(y.start is Some ==> y.start->0 <= m.clock);
        }
        assert forall|c: int, p: int| #[trigger]
            n.child_of(c, p) && n.nodes[c].start is Some implies n.nodes[p].start is Some
            && n.nodes[p].start->0 <= n.nodes[c].start->0 by {
            assert(m.child_of(c, p));
            assert(0 <= p < c) by {
                if c >= 1 {
                    assert(m.nodes[c].parent->0 < c);
                }
            }
            assert(n.nodes[p].start == m.nodes[p].start);
        }
    }
    assert(n.refined()) by {
        assert forall|c: int, p: int| #[trigger]
            n.child_of(c, p) implies 0 <= p < c < m.nodes.len() && m.child_of(c, p) by {
            assert(m.child_of(c, p));
            if c >= 1 {
                assert(m.nodes[c].parent->0 < c);
            }
        }
    }
    assert(n.settled()) by {
        assert forall|t: int|
            0 <= t < n.nodes.len() && (#[trigger] n.nodes[t]).kind == ProcessKind::Task implies ({
            &&& n.nodes[t].status == ProcessStatus::Success <==> n.has_success(t)
            &&& n.nodes[t].status == ProcessStatus::Failure <==> n.nodes[t].remaining == Some(0nat)
                && n.all_failed(t)
        }) by {
            assert(m.nodes[t].kind == ProcessKind::Task);
            if m.has_success(t) {
                let c = choose|c: int| #[trigger]
                    m.child_of(c, t) && m.nodes[c].status == ProcessStatus::Success;
                assert(n.child_of(c, t));
                assert(n.nodes[c].status == ProcessStatus::Success);
            }
            if n.has_success(t) {
                let c = choose|c: int| #[trigger]
                    n.child_of(c, t) && n.nodes[c].status == ProcessStatus::Success;
                assert(m.child_of(c, t));
                assert(m.nodes[c].status == ProcessStatus::Success);
            }
            if m.all_failed(t) {
                assert forall|c: int| #[trigger] n.child_of(c, t) implies n.nodes[c].status
                    == ProcessStatus::Failure by {
                    assert(m.child_of(c, t));
                }
            }
            if n.all_failed(t) {
                assert forall|c: int| #[trigger] m.child_of(c, t) implies m.nodes[c].status
                    == ProcessStatus::Failure by {
                    assert(n.child_of(c, t));
                }
            }
        }
    }
}

/// Giving a process a status that may follow keeps the tree well formed.
pub proof fn lemma_advance_wf(m: TreeModel, i: int, s: ProcessStatus, at: nat)
    requires
        m.wf(),
        m.advance_error(i, s) is None,
        s != ProcessStatus::Cancelled,
        m.clock <= at <= u64::MAX,
    ensures
        m.advance(i, s, at).wf(),
{
    let n = m.advance(i, s, at);
    if m.task_follows(i, s) is Some {
        lemma_task_runs(m, i);
    }
    lemma_advance_advanced(m, i, s, at);
    lemma_advanced_restamped(m, n, i, s, at);
    lemma_restamped_shaped(m, n);
    lemma_advanced_timed(m, n, i, s, at);
    lemma_advanced_refined(m, n, i, s, at);
    lemma_advanced_settled(m, n, i, s, at);
}

/// What lies below a process lies below its parent too.
proof fn lemma_above_parent(m: TreeModel, i: int, c: int, p: int)
    requires
        m.shaped(),
        m.child_of(c, p),
    ensures
        0 <= p < c,
        m.above(i, c) <==> (i == c || m.above(i, p)),
{
    if c >= 1 {
        assert(m.nodes[c].parent->0 < c);
    }
}

/// Every process lies below the root.
pub proof fn lemma_above_root(m: TreeModel, j: int)
    requires
        m.shaped(),
        0 <= j < m.nodes.len(),
    ensures
        m.above(0, j),
    decreases j,
{
    if j > 0 {
        let p = m.nodes[j].parent->0 as int;
        assert(m.nodes[j].parent->0 < j);
        lemma_above_root(m, p);
    }
}

proof fn lemma_cancel_restamped(m: TreeModel, i: int, at: nat)
    requires
        m.wf(),
        m.clock <= at,
    ensures
        restamped(m, m.cancel(i, at)),
        forall|j: int|
            0 <= j < m.nodes.len() ==> (#[trigger] m.cancel(i, at).nodes[j]).remaining
                == m.nodes[j].remaining,
{
    let n = m.cancel(i, at);
    assert forall|j: int| 0 <= j < m.nodes.len() implies ({
        let x = m.nodes[j];
        let y = #[trigger] n.nodes[j];
        &&& y.kind == x.kind
        &&& y.parent == x.parent
        &&& (y.status == x.status && y.start == x.start && y.end == x.end) || (may_follow(
            x.status,
            y.status,
        ) && y.start == x.stamped(y.status, n.clock).start && y.end == x.stamped(
            y.status,
            n.clock,
        ).end)
    }) by {}
}

proof fn lemma_cancel_timed(m: TreeModel, i: int, at: nat)
    requires
        m.wf(),
        m.cancel_error(i) is None,
        m.clock <= at,
        restamped(m, m.cancel(i, at)),
    ensures
        m.cancel(i, at).timed(),
{
    let n = m.cancel(i, at);
    assert forall|c: int, p: int|
        #[trigger] m.child_of(c, p) && m.nodes[c].start is None && n.nodes[c].start
            is Some implies n.nodes[p].start is Some by {
        lemma_above_parent(m, i, c, p);
        assert(m.above(i, c) && !terminal(m.nodes[c].status));
        if c == i {
            assert(m.parent_started(i));
            assert(m.nodes[p].start is Some);
        } else {
            assert(m.above(i, p));
            if terminal(m.nodes[p].status) {
                assert(m.nodes[p].start is Some);
            }
        }
    }
    lemma_restamped_timed(m, n);
}

proof fn lemma_cancel_refined(m: TreeModel, i: int, at: nat)
    requires
        m.wf(),
        m.clock <= at,
        restamped(m, m.cancel(i, at)),
    ensures
        m.cancel(i, at).refined(),
{
    let n = m.cancel(i, at);
    assert forall|c: int, p: int|
        #[trigger] m.child_of(c, p) && m.nodes[p].kind == ProcessKind::Task && !terminal(
            n.nodes[c].status,
        ) implies n.nodes[p].status == ProcessStatus::Running by {
        lemma_above_parent(m, i, c, p);
        assert(!terminal(m.nodes[c].status));
        assert(!m.above(i, c));
        assert(!m.above(i, p));
        assert(m.nodes[p].status == ProcessStatus::Running);
    }
    assert forall|j: int|
        0 <= j < m.nodes.len() && (#[trigger] m.nodes[j]).remaining is Some implies n.nodes[j].remaining
        is Some by {}
    lemma_restamped_refined(m, n);
}

proof fn lemma_cancel_settled(m: TreeModel, i: int, at: nat)
    requires
        m.wf(),
        m.clock <= at,
        restamped(m, m.cancel(i, at)),
    ensures
        m.cancel(i, at).settled(),
{
    let n = m.cancel(i, at);
    assert forall|u: int|
        0 <= u < n.nodes.len() && (#[trigger] n.nodes[u]).kind == ProcessKind::Task implies ({
        &&& n.nodes[u].status == ProcessStatus::Success <==> n.has_success(u)
        &&& n.nodes[u].status == ProcessStatus::Failure <==> n.nodes[u].remaining == Some(0nat)
            && n.all_failed(u)
    }) by {
        assert(m.nodes[u].kind == ProcessKind::Task);
        if m.has_success(u) {
            let c = choose|c: int|
                #[trigger] m.child_of(c, u) && m.nodes[c].status == ProcessStatus::Success;
            lemma_restamped_child(m, n, c, u);
            assert(n.child_of(c, u) && n.nodes[c].status == ProcessStatus::Success);
        }
        if n.has_success(u) {
            let c = choose|c: int|
                #[trigger] n.child_of(c, u) && n.nodes[c].status == ProcessStatus::Success;
            lemma_restamped_child(m, n, c, u);
            assert(m.child_of(c, u) && m.nodes[c].status == ProcessStatus::Success);
        }
        if m.all_failed(u) {
            assert forall|c: int| #[trigger] n.child_of(c, u) implies n.nodes[c].status
                == ProcessStatus::Failure by {
                lemma_restamped_child(m, n, c, u);
                assert(m.child_of(c, u));
            }
        }
        if n.all_failed(u) {
            assert forall|c: int| #[trigger] m.child_of(c, u) implies m.nodes[c].status
                == ProcessStatus::Failure by {
                lemma_restamped_child(m, n, c, u);
                assert(n.child_of(c, u));
            }
        }
        assert(n.nodes[u].remaining == m.nodes[u].remaining);
    }
}

/// Cancelling a process and what lies below it keeps the tree well formed.
pub proof fn lemma_cancel_wf(m: TreeModel, i: int, at: nat)
    requires
        m.wf(),
        m.cancel_error(i) is None,
        m.clock <= at <= u64::MAX,
    ensures
        m.cancel(i, at).wf(),
{
    let n = m.cancel(i, at);
    lemma_cancel_restamped(m, i, at);
    lemma_restamped_shaped(m, n);
    lemma_cancel_timed(m, i, at);
    lemma_cancel_refined(m, i, at);
    lemma_cancel_settled(m, i, at);
}

/// A process that has ended did not end before it started, and did not start
/// before its parent.
pub proof fn law_instants_in_order(m: TreeModel, p: int)
    requires
        m.wf(),
        0 <= p < m.nodes.len(),
        terminal(m.nodes[p].status),
    ensures
        m.nodes[p].start is Some,
        m.nodes[p].end is Some,
        m.nodes[p].end->0 >= m.nodes[p].start->0,
        p >= 1 ==> {
            let parent = m.nodes[m.nodes[p].parent->0 as int];
            m.nodes[p].parent is Some && parent.start is Some && m.nodes[p].start->0
                >= parent.start->0
        },
{
    if p >= 1 {
        assert(m.nodes[p].parent->0 < p);
        assert(m.child_of(p, m.nodes[p].parent->0 as int));
    }
}

/// A task has succeeded exactly when one of its children has, a method or
/// the command that it stands for, and has failed exactly when all its
/// children have and no candidate is left.
pub proof fn law_task_outcome(m: TreeModel, t: int)
    requires
        m.wf(),
        0 <= t < m.nodes.len(),
        m.nodes[t].kind == ProcessKind::Task,
    ensures
        m.nodes[t].status == ProcessStatus::Success <==> m.has_success(t),
        m.nodes[t].status == ProcessStatus::Failure <==> m.nodes[t].remaining == Some(0nat)
            && m.all_failed(t),
{
}

/// A task has one child at most that has not ended.
pub proof fn law_one_active_method(m: TreeModel, t: int, a: int, b: int)
    requires
        m.wf(),
        m.nodes[t].kind == ProcessKind::Task,
        m.child_of(a, t),
        m.child_of(b, t),
        a != b,
    ensures
        terminal(m.nodes[a].status) || terminal(m.nodes[b].status),
{
    if a < b {
        assert(terminal(m.nodes[a].status));
    } else {
        assert(terminal(m.nodes[b].status));
    }
}

/// Cancellation converges in one step: once a process is cancelled, it and
/// everything below it has ended, and what had ended before is as it was.
pub proof fn law_cancel_converges(m: TreeModel, i: int, at: nat, j: int)
    requires
        m.wf(),
        m.cancel_error(i) is None,
        0 <= j < m.nodes.len(),
    ensures
        m.above(i, j) ==> terminal(m.cancel(i, at).nodes[j].status),
        terminal(m.nodes[j].status) ==> m.cancel(i, at).nodes[j] == m.nodes[j],
        !m.above(i, j) ==> m.cancel(i, at).nodes[j] == m.nodes[j],
        m.cancel(i, at).cancel(i, at).nodes =~= m.cancel(i, at).nodes,
{
    let n = m.cancel(i, at);
    assert forall|k: int| 0 <= k < n.nodes.len() implies n.above(i, k) == m.above(i, k) by {
        lemma_cancel_same_above(m, i, at, i, k);
    }
}

/// Cancelling moves no process.
proof fn lemma_cancel_same_above(m: TreeModel, i: int, at: nat, a: int, d: int)
    ensures
        m.cancel(i, at).above(a, d) == m.above(a, d),
    decreases d,
{
    let n = m.cancel(i, at);
    if 0 <= d < m.nodes.len() && a != d {
        match m.nodes[d].parent {
            Some(p) => {
                if p < d {
                    lemma_cancel_same_above(m, i, at, a, p as int);
                }
            },
            None => {},
        }
    }
}

/// Once the root is cancelled every process has ended.
pub proof fn law_cancel_root_ends_all(m: TreeModel, at: nat, j: int)
    requires
        m.wf(),
        0 <= j < m.nodes.len(),
    ensures
        m.cancel_error(0) is None,
        terminal(m.cancel(0, at).nodes[j].status),
{
    lemma_above_root(m, j);
}

/// What never changes of a process.
pub struct ProcessInfo {
    pub kind: ProcessKind,
    pub parent: Option<ActingProcessId>,
    pub label: String,
    pub args: Vec<LValue>,
}

/// What changes of a process.
#[derive(Clone, Copy, Debug, PartialEq, Eq, Structural)]
pub struct ProcessState {
    pub status: ProcessStatus,
    pub start: Option<u64>,
    pub end: Option<u64>,
    pub remaining: Option<usize>,
}

/// The model of an optional machine number.
pub open spec fn opt_nat(o: Option<u64>) -> Option<nat> {
    match o {
        Some(v) => Some(v as nat),
        None => None,
    }
}

/// The model of an optional identifier or count.
pub open spec fn opt_index(o: Option<usize>) -> Option<nat> {
    match o {
        Some(v) => Some(v as nat),
        None => None,
    }
}

/// The model of a process made of its two parts.
pub open spec fn process_model(info: ProcessInfo, state: ProcessState) -> ProcessModel {
    ProcessModel {
        kind: info.kind,
        parent: opt_index(info.parent),
        label: info.label@,
        args: models(info.args@),
        status: state.status,
        start: opt_nat(state.start),
        end: opt_nat(state.end),
        remaining: opt_index(state.remaining),
    }
}

/// The acting tree of an engine.
pub struct ActingTree {
    infos: Vec<ProcessInfo>,
    states: Vec<ProcessState>,
    clock: u64,
}

impl View for ActingTree {
    type V = TreeModel;

    closed spec fn view(&self) -> TreeModel {
        TreeModel {
            nodes: Seq::new(
                self.infos@.len(),
                |i: int| process_model(self.infos@[i], self.states@[i]),
            ),
            clock: self.clock as nat,
        }
    }
}

impl ActingTree {
    /// The tree holds one state for each process and is well formed.
    pub closed spec fn wf(self) -> bool {
        self.infos@.len() == self.states@.len() && self@.wf()
    }

    /// A tree that is well formed has a well-formed model.
    pub proof fn lemma_wf(self)
        requires
            self.wf(),
        ensures
            self@.wf(),
    {
    }

    /// A tree that holds its root only.
    pub fn new() -> (t: Self)
        ensures
            t.wf(),
            t@ == TreeModel::initial(),
    {
        let mut infos: Vec<ProcessInfo> = Vec::new();
        infos.push(
            ProcessInfo { kind: ProcessKind::Root, parent: None, label: String::new(), args: Vec::new() },
        );
        let mut states: Vec<ProcessState> = Vec::new();
        states.push(
            ProcessState { status: ProcessStatus::Running, start: Some(0), end: None, remaining: None },
        );
        let t = ActingTree { infos, states, clock: 0 };
        proof {
            assert(t@.nodes[0].args =~= Seq::<Sexp>::empty());
            assert(t@.nodes =~= TreeModel::initial().nodes);
            lemma_initial_wf();
        }
        t
    }

    /// The number of processes.
    pub fn len(&self) -> (n: usize)
        requires
            self.wf(),
        ensures
            n == self@.nodes.len(),
            n >= 1,
    {
        self.infos.len()
    }

    /// The latest instant that the tree has recorded.
    pub fn clock(&self) -> (c: u64)
        ensures
            c == self@.clock,
    {
        self.clock
    }

    /// The status of a process, if there is such a process.
    pub fn status(&self, pid: ActingProcessId) -> (r: Option<ProcessStatus>)
        requires
            self.wf(),
        ensures
            r is Some <==> pid < self@.nodes.len(),
            r matches Some(s) ==> s == self@.nodes[pid as int].status,
    {
        if pid < self.states.len() {
            Some(self.states[pid].status)
        } else {
            None
        }
    }

    /// The kind of a process, if there is such a process.
    pub fn kind(&self, pid: ActingProcessId) -> (r: Option<ProcessKind>)
        requires
            self.wf(),
        ensures
            r is Some <==> pid < self@.nodes.len(),
            r matches Some(k) ==> k == self@.nodes[pid as int].kind,
    {
        if pid < self.infos.len() {
            Some(self.infos[pid].kind)
        } else {
            None
        }
    }

    /// The parent of a process, if there is such a process and it is not the
    /// root.
    pub fn parent(&self, pid: ActingProcessId) -> (r: Option<ActingProcessId>)
        requires
            self.wf(),
        ensures
            r is Some <==> 1 <= pid < self@.nodes.len(),
            r matches Some(p) ==> self@.child_of(pid as int, p as int) && p < pid,
    {
        if pid < self.infos.len() {
            proof {
                if pid >= 1 {
                    assert(self@.nodes[pid as int].parent->0 < pid);
                }
            }
            self.infos[pid].parent
        } else {
            None
        }
    }

    /// The label of a process, if there is such a process.
    pub fn label(&self, pid: ActingProcessId) -> (r: Option<String>)
        requires
            self.wf(),
        ensures
            r is Some <==> pid < self@.nodes.len(),
            r matches Some(l) ==> l@ == self@.nodes[pid as int].label,
    {
        if pid < self.infos.len() {
            Some(self.infos[pid].label.clone())
        } else {
            None
        }
    }

    /// The arguments of a process, if there is such a process.
    pub fn args(&self, pid: ActingProcessId) -> (r: Option<Vec<LValue>>)
        requires
            self.wf(),
        ensures
            r is Some <==> pid < self@.nodes.len(),
            r matches Some(a) ==> models(a@) == self@.nodes[pid as int].args,
    {
        if pid < self.infos.len() {
            Some(clone_values(self.infos[pid].args.as_slice()))
        } else {
            None
        }
    }

    /// The instants at which a process started and ended, as far as it did,
    /// if there is such a process.
    pub fn interval(&self, pid: ActingProcessId) -> (r: Option<(Option<u64>, Option<u64>)>)
        requires
            self.wf(),
        ensures
            r is Some <==> pid < self@.nodes.len(),
            r matches Some(i) ==> opt_nat(i.0) == self@.nodes[pid as int].start && opt_nat(i.1)
                == self@.nodes[pid as int].end,
    {
        if pid < self.states.len() {
            Some((self.states[pid].start, self.states[pid].end))
        } else {
            None
        }
    }

    /// The number of candidate methods that a task has not tried yet, once
    /// its candidates have been counted.
    pub fn remaining(&self, pid: ActingProcessId) -> (r: Option<usize>)
        requires
            self.wf(),
        ensures
            r is Some <==> pid < self@.nodes.len() && self@.nodes[pid as int].remaining is Some,
            r matches Some(n) ==> Some(n as nat) == self@.nodes[pid as int].remaining,
    {
        if pid < self.states.len() {
            self.states[pid].remaining
        } else {
            None
        }
    }

    /// The children of a process, in the order in which they were added.
    pub fn children(&self, pid: ActingProcessId) -> (r: Vec<ActingProcessId>)
        requires
            self.wf(),
        ensures
            forall|k: int| 0 <= k < r@.len() ==> self@.child_of(#[trigger] r@[k] as int, pid as int),
            forall|c: int| #[trigger] self@.child_of(c, pid as int) ==> r@.contains(c as usize),
            forall|a: int, b: int| 0 <= a < b < r@.len() ==> r@[a] < r@[b],
    {
        let mut r: Vec<ActingProcessId> = Vec::new();
        let mut j: usize = 0;
        while j < self.infos.len()
            invariant
                j <= self.infos.len(),
                self.infos@.len() == self@.nodes.len(),
                forall|k: int|
                    0 <= k < r@.len() ==> self@.child_of(#[trigger] r@[k] as int, pid as int)
                        && r@[k] < j,
                forall|c: int|
                    0 <= c < j && #[trigger] self@.child_of(c, pid as int) ==> r@.contains(c as usize),
                forall|a: int, b: int| 0 <= a < b < r@.len() ==> r@[a] < r@[b],
            decreases self.infos.len() - j,
        {
            let ghost before = r@;
            match self.infos[j].parent {
                Some(p) => {
                    if p == pid {
                        r.push(j);
                        proof {
                            assert(r@[before.len() as int] == j);
                            assert forall|c: int|
                                0 <= c < j + 1 && #[trigger] self@.child_of(
                                    c,
                                    pid as int,
                                ) implies r@.contains(c as usize) by {
                                if c < j {
                                    let k = choose|k: int|
                                        0 <= k < before.len() && before[k] == c as usize;
                                    assert(r@[k] == c as usize);
                                }
                            }
                        }
                    }
                },
                None => {},
            }
            j += 1;
        }
        r
    }

    /// The path from the parent of a process up to the root, nearest first.
    /// The root and an unknown process have none.
    pub fn ancestors(&self, pid: ActingProcessId) -> (r: Vec<ActingProcessId>)
        requires
            self.wf(),
        ensures
            pid >= self@.nodes.len() || pid == 0 ==> r@.len() == 0,
            1 <= pid < self@.nodes.len() ==> r@.len() >= 1 && self@.child_of(
                pid as int,
                r@[0] as int,
            ) && r@[r@.len() - 1] == 0,
            forall|k: int|
                0 <= k < r@.len() - 1 ==> #[trigger] self@.child_of(r@[k] as int, r@[k + 1] as int),
    {
        let mut r: Vec<ActingProcessId> = Vec::new();
        if pid >= self.infos.len() {
            return r;
        }
        let mut cur: usize = pid;
        while cur != 0
            invariant
                cur < self.infos.len(),
                self.infos@.len() == self@.nodes.len(),
                self@.shaped(),
                cur <= pid,
                cur == pid ==> r@.len() == 0,
                cur != pid ==> r@.len() >= 1 && r@[r@.len() - 1] == cur && self@.child_of(
                    pid as int,
                    r@[0] as int,
                ),
                forall|k: int|
                    0 <= k < r@.len() - 1 ==> #[trigger] self@.child_of(
                        r@[k] as int,
                        r@[k + 1] as int,
                    ),
            decreases cur,
        {
            proof {
                assert(self@.nodes[cur as int].parent->0 < cur);
            }
            let p = match self.infos[cur].parent {
                Some(p) => p,
                None => 0,
            };
            assert(self@.child_of(cur as int, p as int));
            let ghost before = r@;
            r.push(p);
            proof {
                assert forall|k: int| 0 <= k < r@.len() - 1 implies #[trigger] self@.child_of(
                    r@[k] as int,
                    r@[k + 1] as int,
                ) by {
                    if k < before.len() - 1 {
                        assert(self@.child_of(before[k] as int, before[k + 1] as int));
                    }
                }
            }
            cur = p;
        }
        r
    }

    /// The process `pid` and all that lies below it, in the order of the
    /// arena.
    pub fn subtree(&self, pid: ActingProcessId) -> (r: Vec<ActingProcessId>)
        requires
            self.wf(),
        ensures
            forall|k: int| 0 <= k < r@.len() ==> self@.above(pid as int, #[trigger] r@[k] as int),
            forall|j: int|
                0 <= j < self@.nodes.len() && #[trigger] self@.above(pid as int, j) ==> r@.contains(
                    j as usize,
                ),
            forall|a: int, b: int| 0 <= a < b < r@.len() ==> r@[a] < r@[b],
    {
        let marks = self.below(pid);
        let mut r: Vec<ActingProcessId> = Vec::new();
        let mut j: usize = 0;
        while j < marks.len()
            invariant
                j <= marks.len(),
                marks@.len() == self@.nodes.len(),
                forall|k: int| 0 <= k < marks@.len() ==> marks@[k] == self@.above(pid as int, k),
                forall|k: int|
                    0 <= k < r@.len() ==> self@.above(pid as int, #[trigger] r@[k] as int) && r@[k]
                        < j,
                forall|c: int|
                    0 <= c < j && #[trigger] self@.above(pid as int, c) ==> r@.contains(c as usize),
                forall|a: int, b: int| 0 <= a < b < r@.len() ==> r@[a] < r@[b],
            decreases marks.len() - j,
        {
            let ghost before = r@;
            if marks[j] {
                r.push(j);
                proof {
                    assert(r@[before.len() as int] == j);
                    assert forall|c: int|
                        0 <= c < j + 1 && #[trigger] self@.above(pid as int, c) implies r@.contains(
                        c as usize,
                    ) by {
                        if c < j {
                            let k = choose|k: int| 0 <= k < before.len() && before[k] == c as usize;
                            assert(r@[k] == c as usize);
                        }
                    }
                }
            }
            j += 1;
        }
        r
    }

    /// For each process, whether it is `pid` or lies below it.
    pub fn below(&self, pid: ActingProcessId) -> (marks: Vec<bool>)
        requires
            self.wf(),
        ensures
            marks@.len() == self@.nodes.len(),
            forall|k: int| 0 <= k < marks@.len() ==> marks@[k] == self@.above(pid as int, k),
    {
        let mut marks: Vec<bool> = Vec::new();
        let mut j: usize = 0;
        while j < self.infos.len()
            invariant
                j <= self.infos.len(),
                marks@.len() == j,
                self.infos@.len() == self@.nodes.len(),
                self@.shaped(),
                forall|k: int| 0 <= k < j ==> marks@[k] == self@.above(pid as int, k),
            decreases self.infos.len() - j,
        {
            let m = if j == pid {
                true
            } else {
                match self.infos[j].parent {
                    Some(p) => {
                        proof {
                            if j >= 1 {
                                assert(self@.nodes[j as int].parent->0 < j);
                            }
                        }
                        if p < j {
                            marks[p]
                        } else {
                            false
                        }
                    },
                    None => false,
                }
            };
            marks.push(m);
            j += 1;
        }
        marks
    }
}

/// Tells whether a status is terminal.
pub fn is_terminal(s: ProcessStatus) -> (b: bool)
    ensures
        b == terminal(s),
{
    match s {
        ProcessStatus::Success | ProcessStatus::Failure | ProcessStatus::Cancelled => true,
        _ => false,
    }
}

/// Tells whether the status `to` may follow `from`.
pub fn can_follow(from: ProcessStatus, to: ProcessStatus) -> (b: bool)
    ensures
        b == may_follow(from, to),
{
    match from {
        ProcessStatus::Pending => match to {
            ProcessStatus::Running | ProcessStatus::Failure | ProcessStatus::Cancelled => true,
            _ => false,
        },
        ProcessStatus::Running => is_terminal(to),
        _ => false,
    }
}

/// The state once it has the status `s` at the instant `at`.
fn stamp(state: ProcessState, s: ProcessStatus, at: u64) -> (r: ProcessState)
    ensures
        forall|info: ProcessInfo| #[trigger]
            process_model(info, r) == process_model(info, state).stamped(s, at as nat),
{
    ProcessState {
        status: s,
        start: match state.start {
            None => Some(at),
            Some(v) => Some(v),
        },
        end: if is_terminal(s) {
            Some(at)
        } else {
            state.end
        },
        remaining: state.remaining,
    }
}

impl ActingTree {
    /// The instant that the tree records when it is told that it is `now`.
    fn instant(&self, now: u64) -> (at: u64)
        ensures
            at == self@.instant(now),
            self@.clock <= at,
    {
        if now >= self.clock {
            now
        } else {
            self.clock
        }
    }

    /// Tells whether some child of `parent` has not ended.
    fn has_active_child(&self, parent: ActingProcessId) -> (b: bool)
        requires
            self.wf(),
        ensures
            b == exists|c: int| #[trigger]
                self@.child_of(c, parent as int) && !terminal(self@.nodes[c].status),
    {
        let mut j: usize = 0;
        while j < self.infos.len()
            invariant
                j <= self.infos.len(),
                self.infos@.len() == self.states@.len(),
                self.infos@.len() == self@.nodes.len(),
                forall|c: int|
                    0 <= c < j && #[trigger] self@.child_of(c, parent as int) ==> terminal(
                        self@.nodes[c].status,
                    ),
            decreases self.infos.len() - j,
        {
            match self.infos[j].parent {
                Some(p) => {
                    if p == parent && !is_terminal(self.states[j].status) {
                        assert(self@.child_of(j as int, parent as int));
                        return true;
                    }
                },
                None => {},
            }
            j += 1;
        }
        false
    }

    /// Tells whether every child of `t` but `c` has failed.
    fn others_have_failed(&self, t: ActingProcessId, c: ActingProcessId) -> (b: bool)
        requires
            self.wf(),
        ensures
            b == self@.others_failed(t as int, c as int),
    {
        let mut j: usize = 0;
        while j < self.infos.len()
            invariant
                j <= self.infos.len(),
                self.infos@.len() == self.states@.len(),
                self.infos@.len() == self@.nodes.len(),
                forall|d: int|
                    0 <= d < j && #[trigger] self@.child_of(d, t as int) && d != c
                        ==> self@.nodes[d].status == ProcessStatus::Failure,
            decreases self.infos.len() - j,
        {
            match self.infos[j].parent {
                Some(p) => {
                    if p == t && j != c {
                        match self.states[j].status {
                            ProcessStatus::Failure => {},
                            _ => {
                                assert(self@.child_of(j as int, t as int));
                                return false;
                            },
                        }
                    }
                },
                None => {},
            }
            j += 1;
        }
        true
    }

    /// Adds a pending process of the given kind under `parent`.
    fn spawn(&mut self, parent: ActingProcessId, kind: ProcessKind, label: &str, args: Vec<LValue>) -> (r:
        Result<ActingProcessId, TreeError>)
        requires
            old(self).wf(),
        ensures
            final(self).wf(),
            r is Err <==> old(self)@.spawn_error(parent as int, kind) is Some,
            r matches Err(e) ==> Some(e) == old(self)@.spawn_error(parent as int, kind) && final(self)@
                == old(self)@,
            r matches Ok(id) ==> id == old(self)@.nodes.len() && final(self)@ == old(self)@.spawn(
                parent as int,
                kind,
                label@,
                models(args@),
            ),
    {
        if parent >= self.infos.len() {
            return Err(TreeError::UnknownProcess);
        }
        if self.infos.len() == usize::MAX {
            return Err(TreeError::Full);
        }
        match kind {
            ProcessKind::Root => { return Err(TreeError::WrongKind); },
            ProcessKind::Method => {
                match self.infos[parent].kind {
                    ProcessKind::Task => {},
                    _ => { return Err(TreeError::WrongKind); },
                }
                match self.states[parent].status {
                    ProcessStatus::Running => {},
                    _ => { return Err(TreeError::IllegalTransition); },
                }
                match self.states[parent].remaining {
                    None => { return Err(TreeError::NoCandidate); },
                    Some(n) => {
                        if n == 0 {
                            return Err(TreeError::NoCandidate);
                        }
                    },
                }
                if self.has_active_child(parent) {
                    return Err(TreeError::MethodActive);
                }
            },
            ProcessKind::Command => {
                match self.infos[parent].kind {
                    ProcessKind::Task => {
                        match self.states[parent].status {
                            ProcessStatus::Running => {},
                            _ => { return Err(TreeError::IllegalTransition); },
                        }
                        if self.states[parent].remaining.is_some() {
                            return Err(TreeError::AlreadyCounted);
                        }
                    },
                    _ => {},
                }
            },
            _ => {
                match self.infos[parent].kind {
                    ProcessKind::Task => { return Err(TreeError::WrongKind); },
                    _ => {},
                }
            },
        }
        let ghost before = self@;
        let id = self.infos.len();
        let under_task = match self.infos[parent].kind {
            ProcessKind::Task => true,
            _ => false,
        };
        match kind {
            ProcessKind::Method => {
                let st = self.states[parent];
                let n = match st.remaining {
                    Some(n) => n,
                    None => 1,
                };
                self.states.set(parent, ProcessState { remaining: Some(n - 1), ..st });
            },
            ProcessKind::Command => {
                if under_task {
                    let st = self.states[parent];
                    self.states.set(parent, ProcessState { remaining: Some(0), ..st });
                }
            },
            _ => {},
        }
        self.infos.push(ProcessInfo { kind, parent: Some(parent), label: String::from_str(label), args });
        self.states.push(
            ProcessState { status: ProcessStatus::Pending, start: None, end: None, remaining: None },
        );
        proof {
            assert(self@.nodes =~= before.spawn(parent as int, kind, label@, models(args@)).nodes);
            lemma_spawn_wf(before, parent as int, kind, label@, models(args@));
        }
        Ok(id)
    }

    /// Adds a pending task under `parent`, which is no task itself.
    pub fn new_task(&mut self, parent: ActingProcessId, label: &str, args: Vec<LValue>) -> (r: Result<
        ActingProcessId,
        TreeError,
    >)
        requires
            old(self).wf(),
        ensures
            final(self).wf(),
            r is Err <==> old(self)@.spawn_error(parent as int, ProcessKind::Task) is Some,
            r matches Err(e) ==> Some(e) == old(self)@.spawn_error(parent as int, ProcessKind::Task)
                && final(self)@ == old(self)@,
            r matches Ok(id) ==> id == old(self)@.nodes.len() && final(self)@ == old(self)@.spawn(
                parent as int,
                ProcessKind::Task,
                label@,
                models(args@),
            ),
    {
        self.spawn(parent, ProcessKind::Task, label, args)
    }

    /// Adds a pending method under the running task `task`, which gives one
    /// of its candidates for it and has no method that has not ended.
    pub fn new_method(&mut self, task: ActingProcessId, label: &str, args: Vec<LValue>) -> (r: Result<
        ActingProcessId,
        TreeError,
    >)
        requires
            old(self).wf(),
        ensures
            final(self).wf(),
            r is Err <==> old(self)@.spawn_error(task as int, ProcessKind::Method) is Some,
            r matches Err(e) ==> Some(e) == old(self)@.spawn_error(task as int, ProcessKind::Method)
                && final(self)@ == old(self)@,
            r matches Ok(id) ==> id == old(self)@.nodes.len() && final(self)@ == old(self)@.spawn(
                task as int,
                ProcessKind::Method,
                label@,
                models(args@),
            ),
    {
        self.spawn(task, ProcessKind::Method, label, args)
    }

    /// Adds a pending command under `parent`.
    ///
    /// A command that the body of a method runs stands under that method. A
    /// task that names a command stands for that command: the command goes
    /// directly under the running task, which must not have counted
    /// candidates, and is then its only candidate; the task succeeds or
    /// fails with the command, and takes no method.
    pub fn new_command(&mut self, parent: ActingProcessId, label: &str, args: Vec<LValue>) -> (r:
        Result<ActingProcessId, TreeError>)
        requires
            old(self).wf(),
        ensures
            final(self).wf(),
            r is Err <==> old(self)@.spawn_error(parent as int, ProcessKind::Command) is Some,
            r matches Err(e) ==> Some(e) == old(self)@.spawn_error(
                parent as int,
                ProcessKind::Command,
            ) && final(self)@ == old(self)@,
            r matches Ok(id) ==> id == old(self)@.nodes.len() && final(self)@ == old(self)@.spawn(
                parent as int,
                ProcessKind::Command,
                label@,
                models(args@),
            ),
    {
        self.spawn(parent, ProcessKind::Command, label, args)
    }

    /// Adds a pending acquisition of `amount` units of `resource` under
    /// `parent`, which is no task. The amount is the one argument of the
    /// process.
    pub fn new_acquire(&mut self, parent: ActingProcessId, resource: &str, amount: usize) -> (r:
        Result<ActingProcessId, TreeError>)
        requires
            old(self).wf(),
        ensures
            final(self).wf(),
            r is Err <==> old(self)@.spawn_error(parent as int, ProcessKind::Acquire) is Some,
            r matches Err(e) ==> Some(e) == old(self)@.spawn_error(
                parent as int,
                ProcessKind::Acquire,
            ) && final(self)@ == old(self)@,
            r matches Ok(id) ==> id == old(self)@.nodes.len() && final(self)@ == old(self)@.spawn(
                parent as int,
                ProcessKind::Acquire,
                resource@,
                seq![Sexp::Number(crate::lvalue::LNumber::Usize(amount))],
            ),
    {
        let mut args: Vec<LValue> = Vec::new();
        args.push(LValue::Number(crate::lvalue::LNumber::Usize(amount)));
        assert(models(args@) =~= seq![Sexp::Number(crate::lvalue::LNumber::Usize(amount))]);
        self.spawn(parent, ProcessKind::Acquire, resource, args)
    }

    /// Adds under `parent`, which is no task, the record of an arbitrary
    /// choice: its arguments are the value chosen, then the candidates.
    pub fn new_arbitrary(&mut self, parent: ActingProcessId, candidates: Vec<LValue>, chosen: LValue) -> (r:
        Result<ActingProcessId, TreeError>)
        requires
            old(self).wf(),
        ensures
            final(self).wf(),
            r is Err <==> old(self)@.spawn_error(parent as int, ProcessKind::Arbitrary) is Some,
            r matches Err(e) ==> Some(e) == old(self)@.spawn_error(
                parent as int,
                ProcessKind::Arbitrary,
            ) && final(self)@ == old(self)@,
            r matches Ok(id) ==> id == old(self)@.nodes.len() && final(self)@ == old(self)@.spawn(
                parent as int,
                ProcessKind::Arbitrary,
                "arbitrary"@,
                seq![chosen@] + models(candidates@),
            ),
    {
        let mut args: Vec<LValue> = Vec::new();
        args.push(chosen);
        let mut candidates = candidates;
        let ghost c0 = candidates@;
        args.append(&mut candidates);
        assert(models(args@) =~= seq![chosen@] + models(c0));
        self.spawn(parent, ProcessKind::Arbitrary, "arbitrary", args)
    }

    /// Tells the running task `task` that it has `n` candidate methods. With
    /// none, the task fails at once.
    pub fn set_candidates(&mut self, task: ActingProcessId, n: usize, now: u64) -> (r: Result<
        (),
        TreeError,
    >)
        requires
            old(self).wf(),
        ensures
            final(self).wf(),
            r is Err <==> old(self)@.count_error(task as int) is Some,
            r matches Err(e) ==> Some(e) == old(self)@.count_error(task as int) && final(self)@
                == old(self)@,
            r is Ok ==> final(self)@ == old(self)@.count(
                task as int,
                n as nat,
                old(self)@.instant(now),
            ),
    {
        if task >= self.infos.len() {
            return Err(TreeError::UnknownProcess);
        }
        match self.infos[task].kind {
            ProcessKind::Task => {},
            _ => { return Err(TreeError::WrongKind); },
        }
        match self.states[task].status {
            ProcessStatus::Running => {},
            _ => { return Err(TreeError::IllegalTransition); },
        }
        if self.states[task].remaining.is_some() {
            return Err(TreeError::AlreadyCounted);
        }
        let ghost before = self@;
        let at = self.instant(now);
        let counted = ProcessState { remaining: Some(n), ..self.states[task] };
        if n == 0 {
            self.states.set(task, stamp(counted, ProcessStatus::Failure, at));
        } else {
            self.states.set(task, counted);
        }
        self.clock = at;
        proof {
            assert(process_model(self.infos@[task as int], counted) == (ProcessModel {
                remaining: Some(n as nat),
                ..before.nodes[task as int]
            }));
            assert(self@.nodes =~= before.count(task as int, n as nat, at as nat).nodes);
            lemma_count_wf(before, task as int, n as nat, at as nat);
        }
        Ok(())
    }

    /// Cancels the process `pid` and all that lies below it: what has not
    /// ended becomes cancelled at the instant recorded for `now`, what has
    /// ended stays as it was.
    pub fn cancel(&mut self, pid: ActingProcessId, now: u64) -> (r: Result<(), TreeError>)
        requires
            old(self).wf(),
        ensures
            final(self).wf(),
            r is Err <==> old(self)@.cancel_error(pid as int) is Some,
            r matches Err(e) ==> Some(e) == old(self)@.cancel_error(pid as int) && final(self)@
                == old(self)@,
            r is Ok ==> final(self)@ == old(self)@.cancel(pid as int, old(self)@.instant(now)),
    {
        if pid >= self.infos.len() {
            return Err(TreeError::UnknownProcess);
        }
        if self.states[pid].start.is_none() && pid != 0 {
            proof {
                assert(self@.nodes[pid as int].parent->0 < pid);
            }
            let started = match self.infos[pid].parent {
                Some(p) => self.states[p].start.is_some(),
                None => true,
            };
            if !started {
                return Err(TreeError::ParentNotStarted);
            }
        }
        let ghost before = self@;
        let at = self.instant(now);
        let marks = self.below(pid);
        let mut j: usize = 0;
        while j < self.states.len()
            invariant
                j <= self.states.len(),
                self.infos@.len() == self.states@.len(),
                self.infos@ == old(self).infos@,
                self.states@.len() == before.nodes.len(),
                marks@.len() == before.nodes.len(),
                before == old(self)@,
                forall|k: int| 0 <= k < marks@.len() ==> marks@[k] == before.above(pid as int, k),
                forall|k: int|
                    0 <= k < j ==> process_model(self.infos@[k], #[trigger] self.states@[k])
                        == before.cancel(pid as int, at as nat).nodes[k],
                forall|k: int| j <= k < self.states@.len() ==> #[trigger] self.states@[k] == old(
                    self,
                ).states@[k],
            decreases self.states.len() - j,
        {
            let st = self.states[j];
            if marks[j] && !is_terminal(st.status) {
                self.states.set(j, stamp(st, ProcessStatus::Cancelled, at));
            }
            j += 1;
        }
        self.clock = at;
        proof {
            assert(self@.nodes =~= before.cancel(pid as int, at as nat).nodes);
            lemma_cancel_wf(before, pid as int, at as nat);
        }
        Ok(())
    }

    /// Gives the process `pid` the status `status` at the instant recorded
    /// for `now`. Cancelling goes down the tree, as `cancel` does. A task
    /// takes its outcome from its methods: it succeeds with the method that
    /// succeeds, and fails with the last method that fails when no candidate
    /// is left.
    pub fn set_status(&mut self, pid: ActingProcessId, status: ProcessStatus, now: u64) -> (r: Result<
        (),
        TreeError,
    >)
        requires
            old(self).wf(),
        ensures
            final(self).wf(),
            status == ProcessStatus::Cancelled ==> (r is Err <==> old(self)@.cancel_error(pid as int)
                is Some || (pid < old(self)@.nodes.len() && terminal(
                old(self)@.nodes[pid as int].status,
            ))),
            status == ProcessStatus::Cancelled && r is Ok ==> final(self)@ == old(self)@.cancel(
                pid as int,
                old(self)@.instant(now),
            ),
            status != ProcessStatus::Cancelled ==> (r is Err <==> old(self)@.advance_error(
                pid as int,
                status,
            ) is Some),
            status != ProcessStatus::Cancelled ==> (r matches Err(e) ==> Some(e) == old(
                self,
            )@.advance_error(pid as int, status)),
            status != ProcessStatus::Cancelled && r is Ok ==> final(self)@ == old(self)@.advance(
                pid as int,
                status,
                old(self)@.instant(now),
            ),
            r is Err ==> final(self)@ == old(self)@,
    {
        if pid >= self.infos.len() {
            return Err(TreeError::UnknownProcess);
        }
        let st = self.states[pid];
        if !can_follow(st.status, status) {
            return Err(TreeError::IllegalTransition);
        }
        match status {
            ProcessStatus::Cancelled => { return self.cancel(pid, now); },
            _ => {},
        }
        let kind = self.infos[pid].kind;
        match kind {
            ProcessKind::Task => {
                match status {
                    ProcessStatus::Success | ProcessStatus::Failure => {
                        return Err(TreeError::IllegalTransition);
                    },
                    _ => {},
                }
            },
            _ => {},
        }
        proof {
            if pid >= 1 {
                assert(self@.nodes[pid as int].parent->0 < pid);
            }
        }
        let parent: usize = match self.infos[pid].parent {
            Some(p) => p,
            None => 0,
        };
        if st.start.is_none() && pid != 0 {
            if self.states[parent].start.is_none() {
                return Err(TreeError::ParentNotStarted);
            }
        }
        let ghost before = self@;
        let at = self.instant(now);
        let under_task = pid != 0 && match self.infos[parent].kind {
            ProcessKind::Task => true,
            _ => false,
        };
        let follows: Option<ProcessStatus> = match under_task {
            true => {
                match status {
                    ProcessStatus::Success => Some(ProcessStatus::Success),
                    ProcessStatus::Failure => {
                        let none_left = match self.states[parent].remaining {
                            Some(n) => n == 0,
                            None => false,
                        };
                        if none_left && self.others_have_failed(parent, pid) {
                            Some(ProcessStatus::Failure)
                        } else {
                            None
                        }
                    },
                    _ => None,
                }
            },
            false => None,
        };
        assert(follows == before.task_follows(pid as int, status));
        proof {
            if follows is Some {
                lemma_task_runs(before, pid as int);
            }
        }
        self.states.set(pid, stamp(st, status, at));
        match follows {
            Some(ts) => {
                let pst = self.states[parent];
                self.states.set(parent, stamp(pst, ts, at));
            },
            None => {},
        }
        self.clock = at;
        proof {
            assert(self@.nodes =~= before.advance(pid as int, status, at as nat).nodes);
            lemma_advance_wf(before, pid as int, status, at as nat);
        }
        Ok(())
    }

    /// Records the instant of `now` as the end of the process `pid`, which
    /// has to have started and not to have ended. The status of the process
    /// stays what it is: a process takes its outcome from `set_status`.
    pub fn set_end(&mut self, pid: ActingProcessId, now: u64) -> (r: Result<(), TreeError>)
        requires
            old(self).wf(),
        ensures
            final(self).wf(),
            r is Err <==> old(self)@.end_error(pid as int) is Some,
            r matches Err(e) ==> Some(e) == old(self)@.end_error(pid as int) && final(self)@
                == old(self)@,
            r is Ok ==> final(self)@ == old(self)@.ended(pid as int, old(self)@.instant(now)),
    {
        if pid >= self.infos.len() {
            return Err(TreeError::UnknownProcess);
        }
        if self.states[pid].start.is_none() || is_terminal(self.states[pid].status) {
            return Err(TreeError::IllegalTransition);
        }
        let ghost before = self@;
        let at = self.instant(now);
        let closed = ProcessState { end: Some(at), ..self.states[pid] };
        self.states.set(pid, closed);
        self.clock = at;
        proof {
            assert(self@.nodes =~= before.ended(pid as int, at as nat).nodes);
            lemma_ended_wf(before, pid as int, at as nat);
        }
        Ok(())
    }

    /// Starts the pending process `pid`: it runs from the instant recorded
    /// for `now`.
    pub fn set_start(&mut self, pid: ActingProcessId, now: u64) -> (r: Result<(), TreeError>)
        requires
            old(self).wf(),
        ensures
            final(self).wf(),
            r is Err <==> old(self)@.advance_error(pid as int, ProcessStatus::Running) is Some,
            r matches Err(e) ==> Some(e) == old(self)@.advance_error(
                pid as int,
                ProcessStatus::Running,
            ) && final(self)@ == old(self)@,
            r is Ok ==> final(self)@ == old(self)@.advance(
                pid as int,
                ProcessStatus::Running,
                old(self)@.instant(now),
            ),
    {
        self.set_status(pid, ProcessStatus::Running, now)
    }
}

} // verus!
