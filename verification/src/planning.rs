//! The planner bridge: symbols, chronicles and the conversion of domain
//! bodies into them.
pub mod atom;
pub mod chronicle;
pub mod conversion;
pub mod expression_chronicle;
pub mod format;
pub mod idset;
pub mod lit;
pub mod planner;
pub mod planning_domain;
pub mod pre_processing;
pub mod problem;
pub mod reachable;
pub mod sym_table;
pub mod template;
