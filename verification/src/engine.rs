//! The main loop of an engine, as decisions: what to do when a job comes in,
//! when the engine is killed, and how the way of selecting methods falls
//! back.
use crate::config::SelectMode;
use crate::lvalue::LValue;
use vstd::prelude::*;

verus! {

/// Identifier of a job: its rank among the jobs that the engine took in.
pub type JobId = usize;

/// What the loop is told.
pub enum EngineEvent {
    /// A task value was submitted.
    Job(LValue),
    /// The engine was killed.
    Killed,
    /// No more job can come in.
    Closed,
}

/// What the loop has to do.
pub enum EngineAction {
    /// Evaluate the task value under the given job, with an interruption
    /// handle of its own.
    Spawn { job: JobId, task: LValue },
    /// Interrupt the jobs `0..n`.
    InterruptAll { n: usize },
    /// Leave the loop.
    Stop,
    /// Nothing: the job is refused because no identifier is left.
    Refuse,
}

/// The state of the loop: the number of jobs taken in so far.
#[derive(Clone, Copy, Debug, PartialEq, Eq, Structural)]
pub struct EngineState {
    pub jobs: usize,
}

impl EngineState {
    /// The state in which the loop starts.
    pub fn new() -> (s: Self)
        ensures
            s.jobs == 0,
    {
        EngineState { jobs: 0 }
    }

    /// Takes an event and returns what to do: a job is given the next
    /// identifier and handed to the executor; a kill interrupts every job
    /// taken in so far; the closing of the channel ends the loop.
    pub fn on_event(&mut self, event: EngineEvent) -> (action: EngineAction)
        ensures
            match event {
                EngineEvent::Job(task) => if old(self).jobs < usize::MAX {
                    &&& final(self).jobs == old(self).jobs + 1
                    &&& action matches EngineAction::Spawn { job, task: t }
                    &&& job == old(self).jobs
                    &&& t@ == task@
                } else {
                    *final(self) == *old(self) && action is Refuse
                },
                EngineEvent::Killed => *final(self) == *old(self) && (action
                    matches EngineAction::InterruptAll { n } && n == old(self).jobs),
                EngineEvent::Closed => *final(self) == *old(self) && action is Stop,
            },
    {
        match event {
            EngineEvent::Job(task) => {
                if self.jobs == usize::MAX {
                    EngineAction::Refuse
                } else {
                    let job = self.jobs;
                    self.jobs = self.jobs + 1;
                    EngineAction::Spawn { job, task }
                }
            },
            EngineEvent::Killed => EngineAction::InterruptAll { n: self.jobs },
            EngineEvent::Closed => EngineAction::Stop,
        }
    }
}

/// Tells whether a way of selecting methods needs the domain converted into
/// chronicles.
pub open spec fn needs_conversion(mode: SelectMode) -> bool {
    mode == SelectMode::PlannerAries
}

/// The way of selecting methods once the conversion of the domain was
/// tried: a mode that plans with chronicles falls back to the greedy mode
/// when the domain could not be converted.
pub fn select_mode_after_conversion(mode: SelectMode, converted: bool) -> (m: SelectMode)
    ensures
        m == (if needs_conversion(mode) && !converted {
            SelectMode::Greedy
        } else {
            mode
        }),
{
    match mode {
        SelectMode::PlannerAries => {
            if converted {
                mode
            } else {
                SelectMode::Greedy
            }
        },
        _ => mode,
    }
}

} // verus!
