//! An acting engine for hierarchical task refinement: the value language of
//! the domain bodies, the typed instance store, the acting tree, the resource
//! arbiter, the monitor service and the bridge towards a chronicle planner.
pub mod acquisitions;
pub mod acting_tree;
pub mod benchmark;
pub mod commit;
pub mod config;
pub mod domain;
pub mod engine;
pub mod equality;
pub mod error;
pub mod facts;
pub mod flow;
pub mod functions;
pub mod instance;
pub mod lmodule;
pub mod lruntimeerror;
pub mod lvalue;
pub mod monitor;
pub mod planning;
pub mod platform;
pub mod quoting;
pub mod refinement;
pub mod resource;
pub mod resource_manager;
pub mod root_task;
pub mod select;
pub mod state;
pub mod state_update;
pub mod static_eval;
pub mod strmap;
pub mod sym_table_id;
pub mod text;
