//! The kinds of errors of the acting core, their stable codes, and the trace
//! of processes that an error carries.
use crate::acting_tree::{ActingProcessId, ActingTree};
use vstd::prelude::*;

verus! {

/// What went wrong.
#[derive(Clone, Copy, Debug, PartialEq, Eq, Structural)]
pub enum ErrorKind {
    /// An invariant of the engine is broken: unbalanced acquire and release,
    /// a ticket used twice.
    Programming,
    /// The domain is malformed.
    Domain,
    /// A task has no applicable method.
    NoApplicableMethod,
    /// A check of a method body was false.
    CheckFailed,
    /// The platform reported the failure of a command.
    CommandFailure,
    /// The process was cancelled.
    Cancellation,
    /// The planner found no plan.
    PlannerUnsat,
    /// The planner ran out of time.
    PlannerTimeout,
    /// The planner was interrupted.
    PlannerInterrupt,
}

/// The code of a kind of error. Codes do not change from one version of the
/// engine to the next.
pub open spec fn code_of(k: ErrorKind) -> int {
    match k {
        ErrorKind::Programming => 100,
        ErrorKind::Domain => 200,
        ErrorKind::NoApplicableMethod => 301,
        ErrorKind::CheckFailed => 302,
        ErrorKind::CommandFailure => 400,
        ErrorKind::Cancellation => 500,
        ErrorKind::PlannerUnsat => 601,
        ErrorKind::PlannerTimeout => 602,
        ErrorKind::PlannerInterrupt => 603,
    }
}

/// Tells whether the engine goes on after an error of the kind `k`: it does
/// not after an error of programming or of the domain.
pub open spec fn recoverable(k: ErrorKind) -> bool {
    k != ErrorKind::Programming && k != ErrorKind::Domain
}

impl ErrorKind {
    /// The code of the kind.
    pub fn code(&self) -> (c: u16)
        ensures
            c == code_of(*self),
    {
        match self {
            ErrorKind::Programming => 100,
            ErrorKind::Domain => 200,
            ErrorKind::NoApplicableMethod => 301,
            ErrorKind::CheckFailed => 302,
            ErrorKind::CommandFailure => 400,
            ErrorKind::Cancellation => 500,
            ErrorKind::PlannerUnsat => 601,
            ErrorKind::PlannerTimeout => 602,
            ErrorKind::PlannerInterrupt => 603,
        }
    }

    /// Tells whether the engine goes on after an error of this kind.
    pub fn is_recoverable(&self) -> (b: bool)
        ensures
            b == recoverable(*self),
    {
        match self {
            ErrorKind::Programming | ErrorKind::Domain => false,
            _ => true,
        }
    }
}

/// An error of the acting core: its kind and the processes that enclose the
/// place where it was raised, innermost first.
pub struct ActingError {
    pub kind: ErrorKind,
    pub trace: Vec<ActingProcessId>,
}

impl ActingError {
    /// The error of the kind `kind` raised in the process `pid`: its trace is
    /// the process and the path from its parent up to the root. A process
    /// that the tree does not know is alone in its trace.
    pub fn raised_in(kind: ErrorKind, tree: &ActingTree, pid: ActingProcessId) -> (e: Self)
        requires
            tree.wf(),
        ensures
            e.kind == kind,
            e.trace@.len() >= 1,
            e.trace@[0] == pid,
            1 <= pid < tree@.nodes.len() ==> e.trace@.len() >= 2 && e.trace@[e.trace@.len() - 1]
                == 0 && tree@.child_of(pid as int, e.trace@[1] as int),
            forall|k: int|
                1 <= k < e.trace@.len() - 1 ==> #[trigger] tree@.child_of(
                    e.trace@[k] as int,
                    e.trace@[k + 1] as int,
                ),
    {
        let mut trace: Vec<ActingProcessId> = Vec::new();
        trace.push(pid);
        let mut up = tree.ancestors(pid);
        let ghost path = up@;
        trace.append(&mut up);
        proof {
            assert forall|k: int| 1 <= k < trace@.len() - 1 implies #[trigger] tree@.child_of(
                trace@[k] as int,
                trace@[k + 1] as int,
            ) by {
                assert(trace@[k] == path[k - 1]);
                assert(trace@[k + 1] == path[k]);
                assert(tree@.child_of(path[k - 1] as int, path[k - 1 + 1] as int));
            }
        }
        ActingError { kind, trace }
    }
}

} // verus!
