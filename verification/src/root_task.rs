//! The root of the acting tree and the tasks that were submitted to it.
use crate::acting_tree::ActingProcessId;
use vstd::prelude::*;

verus! {

/// The root process: it holds the top-level tasks in the order in which they
/// were submitted.
pub struct RootProcess {
    _id: ActingProcessId,
    tasks: Vec<ActingProcessId>,
}

impl View for RootProcess {
    type V = Seq<ActingProcessId>;

    /// The top-level tasks, in the order in which they were submitted.
    closed spec fn view(&self) -> Seq<ActingProcessId> {
        self.tasks@
    }
}

impl RootProcess {
    /// The identifier of the root: it is always 0.
    pub closed spec fn id(self) -> nat {
        self._id as nat
    }

    /// A root without tasks.
    pub fn new() -> (r: Self)
        ensures
            r@ == Seq::<ActingProcessId>::empty(),
            r.id() == 0,
    {
        Self { _id: 0, tasks: vec![] }
    }

    /// The number of top-level tasks.
    pub fn n_task(&self) -> (n: usize)
        ensures
            n == self@.len(),
    {
        self.tasks.len()
    }

    /// The top-level task of the given rank, if there is one.
    pub fn nth_task(&self, rank: usize) -> (r: Option<ActingProcessId>)
        ensures
            rank < self@.len() ==> r == Some(self@[rank as int]),
            rank >= self@.len() ==> r is None,
    {
        if rank < self.tasks.len() {
            Some(self.tasks[rank])
        } else {
            None
        }
    }

    /// Records one more top-level task, behind those that are there.
    pub fn add_top_level_task(&mut self, id: ActingProcessId)
        ensures
            final(self)@ == old(self)@.push(id),
            final(self).id() == old(self).id(),
    {
        self.tasks.push(id)
    }

    /// The printed form of the root.
    pub fn to_string(&self) -> (s: String)
        ensures
            s@ == "(0) Root"@,
    {
        String::from_str("(0) Root")
    }
}

} // verus!
