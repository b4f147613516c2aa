//! The layered scheduler.
//!
//! A [`Scheduler`] holds the state of one run and decides; it performs
//! nothing itself. Its driver asks [`Scheduler::next`] what to do, does it,
//! and reports each completed action with [`Scheduler::complete`].

use vstd::prelude::*;
use crate::error::InitError;
use crate::model::Model;
use crate::model::Moment;
use crate::model::Plan;
use crate::options::Config;
use crate::options::InitOptions;
use crate::preserve::lemma_completed_wf;
use crate::preserve::lemma_dispatched_wf;
use crate::preserve::lemma_initial_wf;
use crate::preserve::lemma_layer;
use crate::preserve::lemma_requeued_wf;
use crate::preserve::lemma_unstarted_names;
use crate::registry::Init;
use crate::registry::InitFn;
use crate::registry::tasks_view;
use crate::resolve::first_clash;
use crate::resolve::graph_of;
use crate::resolve::index_set;
use crate::resolve::resolve;
use crate::resolve::unambiguous;
use crate::symbol::Symbol;
use crate::symbol::symbol_text;
use vstd::string::StringExecFns;

verus! {

/// Where a task stands in a run.
#[derive(Debug, Clone, Copy, PartialEq, Eq, Structural)]
enum Status {
    /// Its action has not begun.
    Waiting,
    /// Its action has begun and has not completed.
    Running,
    /// Its action has completed successfully.
    Done,
}

/// What the driver is to do next.
#[derive(Debug)]
pub enum Step {
    /// Run the action of this immediate task to its end, then report it.
    Run(usize),
    /// Begin the action of this suspending task; report it when it ends.
    Spawn(usize),
    /// Wait until one of the begun actions ends, then report it.
    Wait,
    /// The run is over, with this result.
    Finished(Result<(), InitError>),
}

/// The names of a task list.
pub open spec fn task_names(tasks: Seq<Init>) -> Seq<&'static Symbol> {
    tasks.map_values(|t: Init| t.symbol)
}

/// For each task of a list, whether it is immediate.
pub open spec fn task_kinds(tasks: Seq<Init>) -> Seq<bool> {
    tasks.map_values(|t: Init| t.init == InitFn::Sync)
}

/// The note for the dispatch of a task.
pub open spec fn begin_text(sync: bool, name: &'static Symbol) -> Seq<char> {
    if sync {
        "init_static: sync "@ + symbol_text(name@)
    } else {
        "init_static: async begin "@ + symbol_text(name@)
    }
}

/// The note for the end of a suspending task.
pub open spec fn end_text(name: &'static Symbol) -> Seq<char> {
    "init_static: async end "@ + symbol_text(name@)
}

/// A list of indices as mathematical integers.
pub open spec fn as_ints(list: Seq<usize>) -> Seq<int> {
    list.map_values(|i: usize| i as int)
}

/// The state of one run.
pub struct Scheduler {
    names: Vec<&'static Symbol>,
    sync: Vec<bool>,
    edges: Vec<Vec<usize>>,
    status: Vec<Status>,
    queue: Vec<usize>,
    cursor: usize,
    options: InitOptions,
    history: Ghost<Seq<Moment>>,
}

impl View for Scheduler {
    type V = Model;

    closed spec fn view(&self) -> Model {
        Model {
            names: self.names@,
            sync: self.sync@,
            edges: Seq::new(self.edges@.len(), |i: int| index_set(self.edges@[i]@)),
            started: Set::new(
                |i: int| 0 <= i < self.status@.len() && self.status@[i] != Status::Waiting,
            ),
            completed: Set::new(
                |i: int| 0 <= i < self.status@.len() && self.status@[i] == Status::Done,
            ),
            queue: as_ints(self.queue@.subrange(self.cursor as int, self.queue@.len() as int)),
            history: self.history@,
        }
    }
}

impl Scheduler {
    /// The representation is consistent.
    pub closed spec fn inv(&self) -> bool {
        &&& self.sync@.len() == self.names@.len()
        &&& self.edges@.len() == self.names@.len()
        &&& self.status@.len() == self.names@.len()
        &&& self.cursor <= self.queue@.len()
        &&& forall|p: int| 0 <= p < self.queue@.len() ==> #[trigger] self.queue@[p] < self.names@.len()
        &&& forall|i: int, p: int|
            0 <= i < self.edges@.len() && 0 <= p < self.edges@[i]@.len() ==> #[trigger] self.edges@[i]@[p]
                < self.names@.len()
    }

    /// The options that the run was begun with.
    pub closed spec fn options(&self) -> InitOptions {
        self.options
    }

    /// The representation is consistent and the state meets the invariant of
    /// a run.
    pub open spec fn wf(&self) -> bool {
        self.inv() && self@.wf()
    }

    /// Resolves the task list and sets up a run over it.
    ///
    /// Fails, before anything has run, where two tasks provide the same name.
    /// Otherwise the run begins with nothing started, over the graph that has
    /// an edge for every reference to a name that a task provides.
    pub fn new(tasks: &Vec<Init>, options: InitOptions) -> (r: Result<Scheduler, InitError>)
        ensures
            match r {
                Ok(s) => s.wf() && unambiguous(tasks_view(tasks@)) && s.options() == options && s@
                    == Model::initial(
                    task_names(tasks@),
                    task_kinds(tasks@),
                    graph_of(tasks_view(tasks@)),
                ),
                Err(e) => exists|j: int|
                    #![trigger tasks@[j]]
                    first_clash(tasks_view(tasks@), j) && e == (InitError::Ambiguous {
                        symbol: tasks@[j].symbol,
                    }),
            },
    {
        let graph = match resolve(tasks) {
            Ok(g) => g,
            Err(e) => {
                return Err(e);
            },
        };
        let ghost model = tasks_view(tasks@);
        let mut names: Vec<&'static Symbol> = Vec::new();
        let mut sync: Vec<bool> = Vec::new();
        let mut status: Vec<Status> = Vec::new();
        let mut i: usize = 0;
        while i < tasks.len()
            invariant
                i <= tasks.len(),
                names@ == task_names(tasks@).take(i as int),
                sync@ == task_kinds(tasks@).take(i as int),
                status@.len() == i,
                forall|k: int| 0 <= k < i ==> #[trigger] status@[k] == Status::Waiting,
            decreases tasks.len() - i,
        {
            names.push(tasks[i].symbol);
            sync.push(
                match tasks[i].init {
                    InitFn::Sync => true,
                    InitFn::Async => false,
                },
            );
            status.push(Status::Waiting);
            proof {
                assert(names@ =~= task_names(tasks@).take(i + 1));
                assert(sync@ =~= task_kinds(tasks@).take(i + 1));
            }
            i += 1;
        }
        let s = Scheduler {
            names,
            sync,
            edges: graph.edges,
            status,
            queue: Vec::new(),
            cursor: 0,
            options,
            history: Ghost(Seq::empty()),
        };
        proof {
            let start = Model::initial(task_names(tasks@), task_kinds(tasks@), graph_of(model));
            assert(task_names(tasks@).take(i as int) =~= task_names(tasks@));
            assert(task_kinds(tasks@).take(i as int) =~= task_kinds(tasks@));
            assert(graph@ == graph_of(model));
            assert(s@.edges =~= graph@);
            assert(s@.started =~= Set::<int>::empty());
            assert(s@.completed =~= Set::<int>::empty());
            assert(s@.queue =~= Seq::<int>::empty());
            assert(s@ == start);
            assert(start.graph_ok());
            lemma_initial_wf(task_names(tasks@), task_kinds(tasks@), graph_of(model));
            assert forall|a: int, p: int|
                0 <= a < s.edges@.len() && 0 <= p < s.edges@[a]@.len() implies #[trigger] s.edges@[a]@[p]
                < s.names@.len() by {
                assert(graph@[a] == index_set(s.edges@[a]@));
                assert(index_set(s.edges@[a]@).contains(s.edges@[a]@[p] as int));
                assert(graph_of(model)[a].contains(s.edges@[a]@[p] as int));
            }
        }
        Ok(s)
    }

    /// Begins the one run that `config` allows: takes its options, resolves
    /// the task list and sets up the run.
    ///
    /// The options must still be there. They are gone afterwards, whether
    /// the task list was accepted or not, so that no second run can begin.
    pub fn start(config: &mut Config, tasks: &Vec<Init>) -> (r: Result<Scheduler, InitError>)
        requires
            old(config)@ is Some,
        ensures
            final(config)@ is None,
            match r {
                Ok(s) => s.wf() && unambiguous(tasks_view(tasks@)) && Some(s.options()) == old(
                    config,
                )@ && s@ == Model::initial(
                    task_names(tasks@),
                    task_kinds(tasks@),
                    graph_of(tasks_view(tasks@)),
                ),
                Err(e) => exists|j: int|
                    #![trigger tasks@[j]]
                    first_clash(tasks_view(tasks@), j) && e == (InitError::Ambiguous {
                        symbol: tasks@[j].symbol,
                    }),
            },
    {
        let options = config.consume();
        Scheduler::new(tasks, options)
    }

    /// Whether the run reports the begin and end of each task.
    pub fn debug(&self) -> (on: bool)
        ensures
            on == self.options().debug,
    {
        self.options.debug
    }

    /// The diagnostic note for the dispatch of task `i`, where the run
    /// reports: one line for an immediate task, the first of two for a
    /// suspending one.
    pub fn begin_note(&self, i: usize) -> (note: Option<String>)
        requires
            self.wf(),
            i < self@.len(),
        ensures
            note is Some == self.options().debug,
            note matches Some(text) ==> text@ == begin_text(
                self@.sync[i as int],
                self@.names[i as int],
            ),
    {
        if !self.options.debug {
            return None;
        }
        let mut text = String::new();
        if self.sync[i] {
            text.append("init_static: sync ");
        } else {
            text.append("init_static: async begin ");
        }
        self.names[i].write_to(&mut text);
        assert(text@ =~= begin_text(self@.sync[i as int], self@.names[i as int]));
        Some(text)
    }

    /// The diagnostic note for the end of task `i`, where the run reports
    /// and the task is a suspending one.
    pub fn end_note(&self, i: usize) -> (note: Option<String>)
        requires
            self.wf(),
            i < self@.len(),
        ensures
            note is Some == (self.options().debug && !self@.sync[i as int]),
            note matches Some(text) ==> text@ == end_text(self@.names[i as int]),
    {
        if !self.options.debug || self.sync[i] {
            return None;
        }
        let mut text = String::new();
        text.append("init_static: async end ");
        self.names[i].write_to(&mut text);
        assert(text@ =~= end_text(self@.names[i as int]));
        Some(text)
    }

    /// The number of tasks.
    pub fn len(&self) -> (n: usize)
        requires
            self.wf(),
        ensures
            n == self@.len(),
    {
        self.names.len()
    }

    /// The name of task `i`.
    pub fn name(&self, i: usize) -> (s: &'static Symbol)
        requires
            self.wf(),
            i < self@.len(),
        ensures
            s == self@.names[i as int],
    {
        self.names[i]
    }

    /// Whether task `i` is immediate.
    pub fn is_sync(&self, i: usize) -> (b: bool)
        requires
            self.wf(),
            i < self@.len(),
        ensures
            b == self@.sync[i as int],
    {
        self.sync[i]
    }

    /// Whether the action of task `i` has begun and has not completed.
    pub fn is_running(&self, i: usize) -> (b: bool)
        requires
            self.wf(),
        ensures
            b == self@.running(i as int),
    {
        i < self.status.len() && self.status[i] == Status::Running
    }

    /// Whether task `i` has not started while all it waits for has completed.
    pub fn is_ready(&self, i: usize) -> (b: bool)
        requires
            self.wf(),
        ensures
            b == self@.ready(i as int),
    {
        if i >= self.status.len() || self.status[i] != Status::Waiting {
            return false;
        }
        let deps = &self.edges[i];
        let mut p: usize = 0;
        while p < deps.len()
            invariant
                self.inv(),
                i < self.status@.len(),
                *deps == self.edges@[i as int],
                p <= deps.len(),
                forall|q: int| 0 <= q < p ==> self@.completed.contains(#[trigger] deps@[q] as int),
            decreases deps.len() - p,
        {
            let d = deps[p];
            if self.status[d] != Status::Done {
                proof {
                    assert(index_set(deps@).contains(d as int));
                    assert(self@.edges[i as int].contains(d as int));
                    assert(!self@.completed.contains(d as int));
                }
                return false;
            }
            p += 1;
        }
        proof {
            assert forall|k: int| self@.edges[i as int].contains(k) implies self@.completed.contains(
                k,
            ) by {
                let q = choose|q: int| 0 <= q < deps@.len() && #[trigger] deps@[q] == k;
                assert(self@.completed.contains(deps@[q] as int));
            }
        }
        true
    }

    /// Appends to `list` the ready tasks of one kind, in registration order.
    fn push_ready(&self, sync: bool, list: &mut Vec<usize>)
        requires
            self.wf(),
            forall|p: int| 0 <= p < old(list)@.len() ==> #[trigger] old(list)@[p] < self@.len(),
        ensures
            as_ints(final(list)@) == as_ints(old(list)@) + self@.ready_of_kind(sync, self@.len()),
            forall|p: int| 0 <= p < final(list)@.len() ==> #[trigger] final(list)@[p] < self@.len(),
    {
        let mut i: usize = 0;
        assert(as_ints(list@) =~= as_ints(old(list)@) + self@.ready_of_kind(sync, 0));
        while i < self.names.len()
            invariant
                self.wf(),
                i <= self.names@.len(),
                self.names@.len() == self@.len(),
                as_ints(list@) == as_ints(old(list)@) + self@.ready_of_kind(sync, i as int),
                forall|p: int| 0 <= p < list@.len() ==> #[trigger] list@[p] < self@.len(),
            decreases self.names.len() - i,
        {
            let ghost before = list@;
            if self.sync[i] == sync && self.is_ready(i) {
                list.push(i);
                assert(as_ints(list@) =~= as_ints(before).push(i as int));
            }
            assert(as_ints(list@) =~= as_ints(old(list)@) + self@.ready_of_kind(sync, i + 1));
            i += 1;
        }
    }

    /// The names of the tasks that have not started, in registration order.
    fn unstarted(&self) -> (names: Vec<&'static Symbol>)
        requires
            self.wf(),
        ensures
            names@ == self@.unstarted_names(self@.len()),
    {
        let mut names: Vec<&'static Symbol> = Vec::new();
        let mut i: usize = 0;
        while i < self.names.len()
            invariant
                self.wf(),
                i <= self.names@.len(),
                self.names@.len() == self@.len(),
                names@ == self@.unstarted_names(i as int),
            decreases self.names.len() - i,
        {
            if self.status[i] == Status::Waiting {
                names.push(self.names[i]);
            }
            i += 1;
        }
        names
    }

    /// Whether any action has begun and not completed.
    fn any_running(&self) -> (b: bool)
        requires
            self.wf(),
        ensures
            b == exists|i: int| self@.running(i),
    {
        let mut i: usize = 0;
        while i < self.status.len()
            invariant
                self.wf(),
                i <= self.status@.len(),
                forall|k: int| 0 <= k < i ==> !self@.running(k),
            decreases self.status.len() - i,
        {
            if self.status[i] == Status::Running {
                assert(self@.running(i as int));
                return true;
            }
            i += 1;
        }
        proof {
            assert forall|k: int| !self@.running(k) by {
                if self@.started.contains(k) {
                    assert(0 <= k < self.status@.len());
                }
            }
        }
        false
    }

    /// Decides what the driver is to do next.
    ///
    /// While tasks are pending, the first of them is dispatched: `Run` for an
    /// immediate task, `Spawn` for a suspending one, and the task counts as
    /// started. Where nothing is pending, the driver waits if any action is
    /// still running; else the run is over: with the names of the tasks that
    /// never started if there are any, and successfully if there are none.
    pub fn next(&mut self) -> (step: Step)
        requires
            old(self).wf(),
        ensures
            final(self).wf(),
            final(self).options() == old(self).options(),
            match step {
                Step::Run(i) => old(self)@.plan() == Plan::Dispatch(i as int) && old(
                    self,
                )@.sync[i as int] && final(self)@ == old(self)@.dispatched(),
                Step::Spawn(i) => old(self)@.plan() == Plan::Dispatch(i as int) && !old(
                    self,
                )@.sync[i as int] && final(self)@ == old(self)@.dispatched(),
                Step::Wait => old(self)@.plan() == Plan::Wait && final(self)@ == old(self)@,
                Step::Finished(Ok(_)) => old(self)@.plan() == Plan::Done && final(self)@ == old(
                    self,
                )@,
                Step::Finished(Err(e)) => {
                    &&& old(self)@.plan() == Plan::Circular
                    &&& final(self)@ == old(self)@
                    &&& e matches InitError::Circular { symbols }
                    &&& symbols@ == old(self)@.unstarted_names(old(self)@.len())
                },
            },
    {
        let ghost before = self@;
        if self.cursor >= self.queue.len() {
            let mut layer: Vec<usize> = Vec::new();
            self.push_ready(true, &mut layer);
            let ghost immediate = layer@;
            self.push_ready(false, &mut layer);
            proof {
                assert(as_ints(immediate) =~= before.ready_of_kind(true, before.len()));
                assert(as_ints(layer@) =~= before.layer());
                assert(before.queue =~= Seq::<int>::empty());
                lemma_layer(before);
            }
            self.queue = layer;
            self.cursor = 0;
            proof {
                assert(self.queue@.subrange(0, self.queue@.len() as int) =~= self.queue@);
                assert(self@.queue == before.pending());
                assert(self@ == (Model { queue: before.pending(), ..before }));
                lemma_requeued_wf(before);
            }
        } else {
            proof {
                assert(before.queue.len() > 0);
            }
        }
        assert(self@.pending() == before.pending());
        assert(self@.queue == before.pending());
        assert(self.wf());
        if self.cursor < self.queue.len() {
            let i = self.queue[self.cursor];
            let ghost mid = self@;
            proof {
                assert(mid.queue[0] == i as int);
                assert(mid.dispatched() == before.dispatched());
                lemma_dispatched_wf(mid);
            }
            self.cursor = self.cursor + 1;
            self.status.set(i, Status::Running);
            proof {
                self.history@ = self.history@.push(Moment::Started(i as int));
                assert(self@.started =~= mid.started.insert(i as int));
                assert(self@.completed =~= mid.completed);
                assert(self@.queue =~= mid.queue.drop_first());
                assert(self@ == mid.dispatched());
            }
            return if self.sync[i] {
                Step::Run(i)
            } else {
                Step::Spawn(i)
            };
        }
        proof {
            assert(before.pending().len() == 0);
            assert(self@.queue =~= before.queue);
            assert(self@ == before);
        }
        if self.any_running() {
            return Step::Wait;
        }
        let names = self.unstarted();
        proof {
            lemma_unstarted_names(self@, self@.len());
        }
        if names.len() > 0 {
            Step::Finished(Err(InitError::Circular { symbols: names }))
        } else {
            Step::Finished(Ok(()))
        }
    }

    /// Records that the action of the running task `i` has ended.
    ///
    /// After a success the task counts as completed, and the run goes on.
    /// After a failure the run is over: the scheduler is used up, and the
    /// action's error comes back as the run's error.
    pub fn complete(self, i: usize, outcome: Result<(), anyhow::Error>) -> (r: Result<
        Scheduler,
        InitError,
    >)
        requires
            self.wf(),
            self@.running(i as int),
        ensures
            match outcome {
                Ok(_) => {
                    &&& r matches Ok(s)
                    &&& s.wf()
                    &&& s.options() == self.options()
                    &&& s@ == self@.completed(i as int)
                },
                Err(e) => r == Err::<Scheduler, InitError>(InitError::Execution(e)),
            },
    {
        match outcome {
            Ok(_) => {
                let mut s = self;
                let ghost before = s@;
                s.status.set(i, Status::Done);
                proof {
                    s.history@ = s.history@.push(Moment::Completed(i as int));
                    lemma_completed_wf(before, i as int);
                    assert(s@.started =~= before.started);
                    assert(s@.completed =~= before.completed.insert(i as int));
                    assert(s@ == before.completed(i as int));
                }
                Ok(s)
            },
            Err(e) => Err(InitError::Execution(e)),
        }
    }
}

} // verus!
