//! Task descriptors: what a caller registers before a run.

use vstd::prelude::*;
use crate::symbol::Symbol;
use crate::symbol::SymbolView;

verus! {

/// How a task's action executes.
#[derive(Debug, Clone, Copy, PartialEq, Eq, Structural)]
pub enum InitFn {
    /// The action runs to completion on the driver's own flow of control.
    Sync,
    /// The action may suspend; it runs concurrently with other such tasks.
    Async,
}

/// The mathematical value of an [`Init`].
pub struct InitView {
    pub symbol: SymbolView,
    pub init: InitFn,
    pub deps: Seq<Option<SymbolView>>,
}

/// One registered initialization task.
///
/// The task provides the name `symbol`. Each entry of `deps` is a reference
/// that the task's action makes: `Some` name of another declared value, or
/// `None` where the reference is to something that is no declared value.
#[derive(Debug)]
pub struct Init {
    pub symbol: &'static Symbol,
    pub init: InitFn,
    pub deps: Vec<Option<&'static Symbol>>,
}

/// The mathematical value of one dependency reference.
pub open spec fn dep_view(d: Option<&'static Symbol>) -> Option<SymbolView> {
    match d {
        Some(s) => Some(s@),
        None => None,
    }
}

impl View for Init {
    type V = InitView;

    open spec fn view(&self) -> InitView {
        InitView {
            symbol: self.symbol@,
            init: self.init,
            deps: self.deps@.map_values(|d: Option<&'static Symbol>| dep_view(d)),
        }
    }
}

/// The mathematical value of a task list.
pub open spec fn tasks_view(tasks: Seq<Init>) -> Seq<InitView> {
    tasks.map_values(|t: Init| t@)
}

} // verus!
