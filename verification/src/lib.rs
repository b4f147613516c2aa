//! Explicitly initialized global values with dependency-ordered start-up.
//!
//! A program declares a set of named values whose initialization expressions
//! may refer to each other. Before it reads any of them it runs them all,
//! once, in an order in which each comes after the values it refers to.
//! Expressions that suspend run concurrently where they do not wait for each
//! other.
//!
//! This library holds the rules of such a run and their proofs.
//!
//! - [`registry`] describes a task: the name it provides, whether its action
//!   is immediate or suspending, and the names it refers to.
//! - [`resolve`] turns a task list into its dependency graph, or finds the
//!   name that two tasks provide.
//! - [`schedule`] decides, state by state, what a run does next. It performs
//!   nothing: a driver asks [`schedule::Scheduler::next`], runs or awaits
//!   what it is told to, and reports each ended action with
//!   [`schedule::Scheduler::complete`].
//! - [`model`] is the mathematical state machine that the scheduler
//!   implements, [`preserve`] shows that its transitions keep the run
//!   invariant, and [`laws`] states what follows for every run.
//! - [`options`] is the configuration that one run takes, [`cell`] the
//!   write-once storage of a value, [`error`] the error of a run,
//!   [`symbol`] the name of a value, and [`naming`] the naming rules of the
//!   declarations that are generated for a value.

pub mod cell;
pub mod error;
pub mod laws;
pub mod model;
pub mod naming;
pub mod options;
pub mod preserve;
pub mod registry;
pub mod resolve;
pub mod schedule;
pub mod symbol;

pub use crate::cell::InitStatic;
pub use crate::cell::MaybeInitStatic;
pub use crate::error::InitError;
pub use crate::options::is_initialized;
pub use crate::options::set_debug;
pub use crate::registry::Init;
pub use crate::registry::InitFn;
pub use crate::symbol::Symbol;
