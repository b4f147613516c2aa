//! The scheduler as a mathematical state machine.
//!
//! A [`Model`] is the state of one run: the dependency graph, which tasks
//! have started and completed, the tasks of the current layer that are still
//! to be dispatched, and the history of the run. [`plan`] says what the
//! scheduler does next in a state; [`dispatched`] and [`completed`] are the
//! two transitions.

use vstd::prelude::*;
use crate::symbol::Symbol;

verus! {

/// One entry of a run's history.
pub enum Moment {
    /// The action of the task with this index began.
    Started(int),
    /// The action of the task with this index completed successfully.
    Completed(int),
}

/// The state of one run.
pub struct Model {
    /// The name of each task.
    pub names: Seq<&'static Symbol>,
    /// For each task, whether it is immediate (`true`) or suspending.
    pub sync: Seq<bool>,
    /// For each task, the tasks it must wait for.
    pub edges: Seq<Set<int>>,
    /// The tasks whose action has begun.
    pub started: Set<int>,
    /// The tasks whose action has completed successfully.
    pub completed: Set<int>,
    /// The tasks of the current layer that are still to be dispatched, in
    /// the order in which they will be.
    pub queue: Seq<int>,
    /// What has happened so far, oldest first.
    pub history: Seq<Moment>,
}

/// What the scheduler does next.
pub enum Plan {
    /// Dispatch the task with this index: run it if immediate, begin it if
    /// suspending.
    Dispatch(int),
    /// Nothing can be dispatched; wait for a running task to complete.
    Wait,
    /// Nothing is ready or running, yet tasks remain: they wait for each
    /// other.
    Circular,
    /// Every task has completed.
    Done,
}

impl Model {
    /// The number of tasks.
    pub open spec fn len(self) -> int {
        self.names.len() as int
    }

    /// Task `i` has not started and everything it waits for has completed.
    pub open spec fn ready(self, i: int) -> bool {
        &&& 0 <= i < self.len()
        &&& !self.started.contains(i)
        &&& self.edges[i].subset_of(self.completed)
    }

    /// Task `i` has started and not completed.
    pub open spec fn running(self, i: int) -> bool {
        self.started.contains(i) && !self.completed.contains(i)
    }

    /// The ready tasks of one kind with index below `k`, in registration
    /// order.
    pub open spec fn ready_of_kind(self, sync: bool, k: int) -> Seq<int>
        decreases k,
    {
        if k <= 0 {
            Seq::empty()
        } else if self.ready(k - 1) && self.sync[k - 1] == sync {
            self.ready_of_kind(sync, k - 1).push(k - 1)
        } else {
            self.ready_of_kind(sync, k - 1)
        }
    }

    /// The layer of a state: its ready immediate tasks in registration order,
    /// then its ready suspending tasks in registration order.
    pub open spec fn layer(self) -> Seq<int> {
        self.ready_of_kind(true, self.len()) + self.ready_of_kind(false, self.len())
    }

    /// The names of the tasks with index below `k` that have not started, in
    /// registration order.
    pub open spec fn unstarted_names(self, k: int) -> Seq<&'static Symbol>
        decreases k,
    {
        if k <= 0 {
            Seq::empty()
        } else if !self.started.contains(k - 1) {
            self.unstarted_names(k - 1).push(self.names[k - 1])
        } else {
            self.unstarted_names(k - 1)
        }
    }

    /// The tasks that the scheduler dispatches before it looks at the graph
    /// again: what is left of the current layer or, once that is used up, the
    /// next layer.
    pub open spec fn pending(self) -> Seq<int> {
        if self.queue.len() > 0 {
            self.queue
        } else {
            self.layer()
        }
    }

    /// What the scheduler does next in this state.
    pub open spec fn plan(self) -> Plan {
        if self.pending().len() > 0 {
            Plan::Dispatch(self.pending()[0])
        } else if exists|i: int| self.running(i) {
            Plan::Wait
        } else if exists|i: int| 0 <= i < self.len() && !self.started.contains(i) {
            Plan::Circular
        } else {
            Plan::Done
        }
    }

    /// The state after the scheduler has dispatched the first pending task.
    pub open spec fn dispatched(self) -> Model {
        let i = self.pending()[0];
        Model {
            started: self.started.insert(i),
            queue: self.pending().drop_first(),
            history: self.history.push(Moment::Started(i)),
            ..self
        }
    }

    /// The state after task `i` has completed successfully.
    pub open spec fn completed(self, i: int) -> Model {
        Model {
            completed: self.completed.insert(i),
            history: self.history.push(Moment::Completed(i)),
            ..self
        }
    }

    /// The state in which a run over the given graph begins.
    pub open spec fn initial(
        names: Seq<&'static Symbol>,
        sync: Seq<bool>,
        edges: Seq<Set<int>>,
    ) -> Model {
        Model {
            names,
            sync,
            edges,
            started: Set::empty(),
            completed: Set::empty(),
            queue: Seq::empty(),
            history: Seq::empty(),
        }
    }

    /// The graph is well-formed: one kind and one edge set per task, and
    /// every edge leads to a task.
    pub open spec fn graph_ok(self) -> bool {
        &&& self.sync.len() == self.len()
        &&& self.edges.len() == self.len()
        &&& forall|i: int, d: int|
            0 <= i < self.len() && #[trigger] self.edges[i].contains(d) ==> 0 <= d < self.len()
    }

    /// What is queued is ready and queued once.
    pub open spec fn queue_ok(self) -> bool {
        &&& forall|p: int| 0 <= p < self.queue.len() ==> self.ready(#[trigger] self.queue[p])
        &&& forall|p: int, q: int|
            0 <= p < q < self.queue.len() ==> #[trigger] self.queue[p] != #[trigger] self.queue[q]
    }

    /// The `p`-th entry of the history is the start of task `i`.
    pub open spec fn started_at(self, p: int, i: int) -> bool {
        0 <= p < self.history.len() && self.history[p] == Moment::Started(i)
    }

    /// The `p`-th entry of the history is the completion of task `i`.
    pub open spec fn completed_at(self, p: int, i: int) -> bool {
        0 <= p < self.history.len() && self.history[p] == Moment::Completed(i)
    }

    /// The history records exactly what has started and completed, each once;
    /// a task's start follows the completion of everything it waits for, and
    /// its completion follows its start.
    pub open spec fn history_ok(self) -> bool {
        &&& forall|i: int|
            #[trigger] self.started.contains(i) ==> exists|p: int| #[trigger] self.started_at(p, i)
        &&& forall|p: int, i: int| #[trigger] self.started_at(p, i) ==> self.started.contains(i)
        &&& forall|i: int|
            #[trigger] self.completed.contains(i) ==> exists|p: int| #[trigger]
                self.completed_at(p, i)
        &&& forall|p: int, i: int| #[trigger]
            self.completed_at(p, i) ==> self.completed.contains(i)
        &&& forall|p: int, q: int, i: int|
            #[trigger] self.started_at(p, i) && #[trigger] self.started_at(q, i) ==> p == q
        &&& forall|p: int, q: int, i: int|
            #[trigger] self.completed_at(p, i) && #[trigger] self.completed_at(q, i) ==> p == q
        &&& forall|p: int, k: int, d: int|
            #[trigger] self.started_at(p, k) && 0 <= k < self.len() && #[trigger] self.edges[k].contains(
                d,
            ) ==> exists|q: int| q < p && #[trigger] self.completed_at(q, d)
        &&& forall|q: int, d: int| #[trigger]
            self.completed_at(q, d) ==> exists|p: int| p < q && #[trigger] self.started_at(p, d)
    }

    /// `rank` orders the tasks so that each comes after all it waits for.
    pub open spec fn ranked(self, rank: Seq<nat>) -> bool {
        &&& rank.len() == self.len()
        &&& forall|i: int, d: int|
            0 <= i < self.len() && #[trigger] self.edges[i].contains(d) && 0 <= d < self.len()
                ==> rank[d] < rank[i]
    }

    /// The graph has no cycle: its tasks can be put in an order in which each
    /// comes after all it waits for.
    pub open spec fn acyclic(self) -> bool {
        exists|rank: Seq<nat>| self.ranked(rank)
    }

    /// `path` leads along edges: each of its tasks waits for the next.
    pub open spec fn chain(self, path: Seq<int>) -> bool {
        &&& forall|j: int| 0 <= j < path.len() ==> 0 <= #[trigger] path[j] < self.len()
        &&& forall|j: int|
            0 <= j < path.len() - 1 ==> self.edges[#[trigger] path[j]].contains(path[j + 1])
    }

    /// The invariant of a run.
    pub open spec fn wf(self) -> bool {
        &&& self.graph_ok()
        &&& forall|i: int| self.started.contains(i) ==> 0 <= i < self.len()
        &&& self.completed.subset_of(self.started)
        &&& self.queue_ok()
        &&& self.history_ok()
    }
}

} // verus!
