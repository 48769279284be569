//! What is set for one engine: the debug flag, the way methods are selected
//! and the bounds of the planner.
use vstd::prelude::*;

verus! {

/// How the candidate methods of a task are ranked.
#[derive(Clone, Copy, Debug, PartialEq, Eq, Structural)]
pub enum SelectMode {
    Greedy,
    Cost,
    PlannerAries,
    PlannerUpom,
    HeuristicScore,
}

/// What the planner optimises.
#[derive(Clone, Copy, Debug, PartialEq, Eq, Structural)]
pub enum OptimisationMetric {
    NoMetric,
    Makespan,
    Cost,
}

/// The settings of one engine.
#[derive(Clone, Copy, Debug, PartialEq, Eq, Structural)]
pub struct EngineConfig {
    pub debug: bool,
    pub select: SelectMode,
    pub min_depth: usize,
    pub max_depth: usize,
    pub metric: OptimisationMetric,
}

impl EngineConfig {
    /// Greedy selection, no debugging, no planning depth, no metric.
    pub fn new() -> (c: Self)
        ensures
            c == (EngineConfig {
                debug: false,
                select: SelectMode::Greedy,
                min_depth: 0,
                max_depth: 0,
                metric: OptimisationMetric::NoMetric,
            }),
    {
        EngineConfig {
            debug: false,
            select: SelectMode::Greedy,
            min_depth: 0,
            max_depth: 0,
            metric: OptimisationMetric::NoMetric,
        }
    }
}

/// Turns debugging on for the engine.
pub fn activate_debug(config: &mut EngineConfig)
    ensures
        *final(config) == (EngineConfig { debug: true, ..*old(config) }),
{
    config.debug = true;
}

/// Tells whether debugging is on for the engine.
pub fn get_debug(config: &EngineConfig) -> (b: bool)
    ensures
        b == config.debug,
{
    config.debug
}

/// The module that gives access to the conversion of a domain, for
/// debugging.
pub struct ModDebugConversion {}

impl Default for ModDebugConversion {
    fn default() -> Self {
        ModDebugConversion {  }
    }
}

} // verus!
