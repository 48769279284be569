//! The loop that drives the solver: the depth to which the problem is
//! populated, the bound on the cost, and when to stop.
//!
//! The solver itself runs elsewhere. This module decides what to ask of it
//! next from what it answered last.
use vstd::prelude::*;

verus! {

/// The cost that is above every cost that the solver can give.
pub const COST_CEILING: i64 = 2147483648;

/// The subtask `task_id` of the chronicle instance `instance_id`.
#[derive(Clone, Copy, Debug, PartialEq, Eq, Structural)]
pub struct TaskId {
    pub instance_id: usize,
    pub task_id: usize,
}

/// Where a chronicle instance comes from.
#[derive(Clone, Copy, Debug, PartialEq, Eq, Structural)]
pub enum ChronicleOrigin {
    /// The instance is part of the problem as it was stated.
    Original,
    /// The instance refines a subtask with the template `template_id`.
    Refinement { refined: TaskId, template_id: usize },
}

/// What the loop needs to know of a chronicle instance: where it comes from
/// and how many subtasks it has.
#[derive(Clone, Copy, Debug, PartialEq, Eq, Structural)]
pub struct InstanceInfo {
    pub origin: ChronicleOrigin,
    pub n_subtasks: usize,
}

/// Tells whether some instance refines the subtask `task_id` of the instance
/// `instance_id` with the first template.
pub open spec fn refined_in(s: Seq<InstanceInfo>, instance_id: int, task_id: int) -> bool {
    exists|k: int|
        0 <= k < s.len() && (#[trigger] s[k]).origin == (ChronicleOrigin::Refinement {
            refined: TaskId { instance_id: instance_id as usize, task_id: task_id as usize },
            template_id: 0,
        })
}

/// Tells whether every subtask of every instance is refined.
pub open spec fn fully_populated(s: Seq<InstanceInfo>) -> bool {
    forall|i: int, t: int|
        0 <= i < s.len() && 0 <= t < s[i].n_subtasks ==> #[trigger] refined_in(s, i, t)
}

/// Tells whether some instance refines the given subtask with the first
/// template.
fn is_refined(instances: &Vec<InstanceInfo>, instance_id: usize, task_id: usize) -> (b: bool)
    ensures
        b == refined_in(instances@, instance_id as int, task_id as int),
{
    let wanted = ChronicleOrigin::Refinement {
        refined: TaskId { instance_id, task_id },
        template_id: 0,
    };
    let mut k: usize = 0;
    while k < instances.len()
        invariant
            k <= instances.len(),
            wanted == (ChronicleOrigin::Refinement {
                refined: TaskId { instance_id, task_id },
                template_id: 0,
            }),
            forall|j: int| 0 <= j < k ==> (#[trigger] instances@[j]).origin != wanted,
        decreases instances.len() - k,
    {
        if instances[k].origin == wanted {
            return true;
        }
        k += 1;
    }
    false
}

/// Tells whether every subtask of every instance is refined: the problem
/// cannot be populated any further.
pub fn is_fully_populated(instances: &Vec<InstanceInfo>) -> (b: bool)
    ensures
        b == fully_populated(instances@),
{
    let mut i: usize = 0;
    while i < instances.len()
        invariant
            i <= instances.len(),
            forall|a: int, t: int|
                0 <= a < i && 0 <= t < instances@[a].n_subtasks ==> #[trigger] refined_in(
                    instances@,
                    a,
                    t,
                ),
        decreases instances.len() - i,
    {
        let mut t: usize = 0;
        while t < instances[i].n_subtasks
            invariant
                i < instances.len(),
                t <= instances@[i as int].n_subtasks,
                forall|u: int| 0 <= u < t ==> #[trigger] refined_in(instances@, i as int, u),
            decreases instances[i as int].n_subtasks - t,
        {
            if !is_refined(instances, i, t) {
                return false;
            }
            t += 1;
        }
        i += 1;
    }
    true
}

/// What the solver answered.
#[derive(Clone, Copy, Debug, PartialEq, Eq, Structural)]
pub enum SolverAnswer {
    /// No solution under the bound.
    Unsat,
    /// A solution, with its cost when a metric is optimised.
    Sat(Option<i64>),
    /// The solver ran out of time.
    Timeout,
    /// The solver was interrupted.
    Interrupt,
}

/// What the loop returns.
#[derive(Clone, Copy, Debug, PartialEq, Eq, Structural)]
pub enum PlanningResult {
    /// The solution found at the given depth.
    Solution { depth: u32, cost: Option<i64> },
    Unsat,
    Timeout,
    Interrupt,
}

/// What to do next.
#[derive(Clone, Copy, Debug, PartialEq, Eq, Structural)]
pub enum PlannerStep {
    /// Populate the problem by one layer more and solve it at `depth` with
    /// costs up to `bound`.
    Solve { depth: u32, bound: i64 },
    /// Stop with the given result.
    Return(PlanningResult),
}

/// The state of the loop.
#[derive(Clone, Copy, Debug, PartialEq, Eq, Structural)]
pub struct PlannerState {
    /// The depth that is being solved.
    pub depth: u32,
    /// The last depth to try.
    pub max_depth: u32,
    /// The cost that a new solution has to stay below.
    pub best_cost: i64,
    /// Whether a metric is optimised.
    pub optimising: bool,
}

impl PlannerState {
    /// Tells whether a solution of the given cost improves on what is
    /// known and whether the search may go on for a better one: a metric is
    /// optimised, the last depth is not reached, the problem can still be
    /// populated, and a bound below the cost can still be held.
    pub open spec fn improves(self, cost: Option<i64>, fully: bool) -> bool {
        self.optimising && self.depth < self.max_depth && !fully && cost is Some && i64::MIN
            < cost->0 < self.best_cost
    }

    /// What follows an answer of the solver, given whether the problem was
    /// fully populated when it was solved.
    ///
    /// Without solution, the search stops when the problem was fully
    /// populated or the last depth is reached, and goes one layer deeper
    /// otherwise. A solution that improves on the bound tightens the bound
    /// and the search goes deeper. Any other solution, a timeout and an
    /// interruption end the search.
    pub open spec fn next(self, answer: SolverAnswer, fully: bool) -> (PlannerState, PlannerStep) {
        match answer {
            SolverAnswer::Unsat => if fully || self.depth >= self.max_depth {
                (self, PlannerStep::Return(PlanningResult::Unsat))
            } else {
                let s = PlannerState { depth: (self.depth + 1) as u32, ..self };
                (s, PlannerStep::Solve { depth: s.depth, bound: (s.best_cost - 1) as i64 })
            },
            SolverAnswer::Sat(cost) => if self.improves(cost, fully) {
                let s = PlannerState {
                    depth: (self.depth + 1) as u32,
                    best_cost: cost->0,
                    ..self
                };
                (s, PlannerStep::Solve { depth: s.depth, bound: (s.best_cost - 1) as i64 })
            } else {
                (self, PlannerStep::Return(PlanningResult::Solution { depth: self.depth, cost }))
            },
            SolverAnswer::Timeout => (self, PlannerStep::Return(PlanningResult::Timeout)),
            SolverAnswer::Interrupt => (self, PlannerStep::Return(PlanningResult::Interrupt)),
        }
    }

    /// The bound never falls below the least cost.
    pub open spec fn wf(self) -> bool {
        self.best_cost > i64::MIN && self.depth <= self.max_depth
    }

    /// The state in which the loop starts, and its first request: the first
    /// depth, with every cost allowed. Nothing is to solve when the first
    /// depth lies beyond the last.
    pub fn start(min_depth: u32, max_depth: u32, optimising: bool) -> (r: (PlannerState, PlannerStep))
        ensures
            r.0 == (PlannerState {
                depth: if min_depth <= max_depth {
                    min_depth
                } else {
                    max_depth
                },
                max_depth,
                best_cost: COST_CEILING,
                optimising,
            }),
            r.0.wf(),
            r.1 == (if min_depth <= max_depth {
                PlannerStep::Solve { depth: min_depth, bound: (COST_CEILING - 1) as i64 }
            } else {
                PlannerStep::Return(PlanningResult::Unsat)
            }),
    {
        if min_depth <= max_depth {
            (
                PlannerState { depth: min_depth, max_depth, best_cost: COST_CEILING, optimising },
                PlannerStep::Solve { depth: min_depth, bound: COST_CEILING - 1 },
            )
        } else {
            (
                PlannerState { depth: max_depth, max_depth, best_cost: COST_CEILING, optimising },
                PlannerStep::Return(PlanningResult::Unsat),
            )
        }
    }

    /// Takes the answer of the solver and decides what to do next.
    pub fn on_answer(&mut self, answer: SolverAnswer, fully: bool) -> (step: PlannerStep)
        requires
            old(self).wf(),
        ensures
            final(self).wf(),
            (*final(self), step) == old(self).next(answer, fully),
    {
        match answer {
            SolverAnswer::Unsat => {
                if fully || self.depth >= self.max_depth {
                    PlannerStep::Return(PlanningResult::Unsat)
                } else {
                    self.depth = self.depth + 1;
                    PlannerStep::Solve { depth: self.depth, bound: self.best_cost - 1 }
                }
            },
            SolverAnswer::Sat(cost) => {
                let improved = match cost {
                    Some(c) => self.optimising && self.depth < self.max_depth && !fully && c
                        < self.best_cost && c > i64::MIN,
                    None => false,
                };
                if improved {
                    self.depth = self.depth + 1;
                    self.best_cost = match cost {
                        Some(c) => c,
                        None => self.best_cost,
                    };
                    PlannerStep::Solve { depth: self.depth, bound: self.best_cost - 1 }
                } else {
                    PlannerStep::Return(PlanningResult::Solution { depth: self.depth, cost })
                }
            },
            SolverAnswer::Timeout => PlannerStep::Return(PlanningResult::Timeout),
            SolverAnswer::Interrupt => PlannerStep::Return(PlanningResult::Interrupt),
        }
    }
}

/// The bound only ever tightens, and the depth only ever grows: the loop
/// asks the solver for strictly better solutions at deeper and deeper
/// populations, and so comes to an end.
pub proof fn law_bound_tightens(s: PlannerState, answer: SolverAnswer, fully: bool)
    requires
        s.wf(),
    ensures
        s.next(answer, fully).0.best_cost <= s.best_cost,
        s.next(answer, fully).0.depth >= s.depth,
        s.next(answer, fully).0.depth <= s.max_depth,
        s.next(answer, fully).1 is Solve ==> s.next(answer, fully).0.depth == s.depth + 1,
        s.next(answer, fully).1 is Return ==> s.next(answer, fully).0 == s,
{
}

} // verus!
