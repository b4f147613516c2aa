//! What holds of every run.
//!
//! Each law is stated of an arbitrary state that meets the run invariant,
//! which the scheduler establishes when a run begins and keeps with every
//! step. The history of a state gives its moments their order in time.

use vstd::prelude::*;
use vstd::relations::injective_on;
use vstd::set_lib::lemma_int_range;
use vstd::set_lib::lemma_len_subset;
use vstd::set_lib::lemma_map_size;
use vstd::set_lib::set_int_range;
use crate::model::Model;
use crate::model::Moment;
use crate::model::Plan;
use crate::preserve::lemma_layer;
use crate::registry::InitView;
use crate::resolve::clashes;
use crate::resolve::edge;
use crate::resolve::edges_of;
use crate::resolve::first_clash;
use crate::resolve::graph_of;
use crate::resolve::provides;
use crate::resolve::unambiguous;
use crate::symbol::Symbol;

verus! {

/// A task starts only after everything it waits for has completed: the
/// completion stands earlier in the history than the start.
pub proof fn law_dependencies_complete_first(m: Model, p: int, k: int, d: int)
    requires
        m.wf(),
        m.started_at(p, k),
        0 <= k < m.len(),
        m.edges[k].contains(d),
    ensures
        exists|q: int| q < p && #[trigger] m.completed_at(q, d),
{
}

/// No task starts twice, none completes twice, and a task completes only
/// after it has started.
pub proof fn law_at_most_once(m: Model, p: int, q: int, i: int)
    requires
        m.wf(),
    ensures
        m.started_at(p, i) && m.started_at(q, i) ==> p == q,
        m.completed_at(p, i) && m.completed_at(q, i) ==> p == q,
        m.completed_at(q, i) ==> exists|s: int| s < q && #[trigger] m.started_at(s, i),
{
}

/// A dispatch starts a task that had not started, and all that the task
/// waits for has completed by then.
pub proof fn law_dispatch_starts_ready(m: Model, i: int)
    requires
        m.wf(),
        m.plan() == Plan::Dispatch(i),
    ensures
        m.ready(i),
        m.dispatched().wf(),
        m.dispatched().started == m.started.insert(i),
        m.dispatched().completed == m.completed,
        m.dispatched().started_at(m.history.len() as int, i),
{
    crate::preserve::lemma_dispatched_wf(m);
}

/// Over a ranked graph, in a state where nothing is ready and nothing runs,
/// every task has started.
proof fn lemma_all_started_when_idle(m: Model, rank: Seq<nat>, u: int)
    requires
        m.wf(),
        m.ranked(rank),
        0 <= u < m.len(),
        forall|i: int| !m.ready(i),
        forall|i: int| !m.running(i),
    ensures
        m.started.contains(u),
    decreases rank[u],
{
    if !m.started.contains(u) {
        assert(!m.ready(u));
        assert(!m.edges[u].subset_of(m.completed));
        let d = choose|d: int| m.edges[u].contains(d) && !m.completed.contains(d);
        assert(0 <= d < m.len());
        lemma_all_started_when_idle(m, rank, d);
        assert(m.running(d));
    }
}

/// Over a graph without a cycle the scheduler never reports a circular
/// dependency.
pub proof fn law_acyclic_never_circular(m: Model)
    requires
        m.wf(),
        m.acyclic(),
    ensures
        m.plan() != Plan::Circular,
{
    if m.plan() == Plan::Circular {
        let rank = choose|rank: Seq<nat>| m.ranked(rank);
        lemma_layer(m);
        assert forall|i: int| !m.ready(i) by {
            if m.ready(i) {
                assert(m.layer().contains(i));
                if m.queue.len() == 0 {
                    assert(m.pending() == m.layer());
                }
            }
        }
        assert forall|i: int| !m.running(i) by {}
        let u = choose|u: int| 0 <= u < m.len() && !m.started.contains(u);
        lemma_all_started_when_idle(m, rank, u);
    }
}

/// When the scheduler reports success every task has started and completed.
pub proof fn law_done_all_completed(m: Model, i: int)
    requires
        m.wf(),
        m.plan() == Plan::Done,
        0 <= i < m.len(),
    ensures
        m.started.contains(i),
        m.completed.contains(i),
        exists|p: int, q: int| p < q && #[trigger] m.started_at(p, i) && #[trigger] m.completed_at(
            q,
            i,
        ),
{
    assert(!m.running(i));
    let q = choose|q: int| #[trigger] m.completed_at(q, i);
    let p = choose|p: int| p < q && #[trigger] m.started_at(p, i);
    assert(m.started_at(p, i) && m.completed_at(q, i));
}

/// A task that waits, directly or through others, for a task that has not
/// completed has not started. So nothing that depends on a failed task ever
/// starts.
pub proof fn law_unfinished_blocks_dependents(m: Model, path: Seq<int>)
    requires
        m.wf(),
        path.len() >= 2,
        m.chain(path),
        !m.completed.contains(path.last()),
    ensures
        !m.started.contains(path[0]),
    decreases path.len(),
{
    let k = path[0];
    let d = path[1];
    assert(m.edges[k].contains(d));
    if path.len() > 2 {
        let rest = path.drop_first();
        assert forall|j: int| 0 <= j < rest.len() implies 0 <= #[trigger] rest[j] < m.len() by {
            assert(rest[j] == path[j + 1]);
        }
        assert forall|j: int| 0 <= j < rest.len() - 1 implies m.edges[#[trigger] rest[j]].contains(
            rest[j + 1],
        ) by {
            assert(rest[j] == path[j + 1]);
            assert(rest[j + 1] == path[j + 2]);
        }
        assert(rest.last() == path.last());
        law_unfinished_blocks_dependents(m, rest);
        assert(!m.started.contains(d));
    }
    if m.started.contains(k) {
        let p = choose|p: int| #[trigger] m.started_at(p, k);
        let q = choose|q: int| q < p && #[trigger] m.completed_at(q, d);
        assert(m.completed.contains(d));
    }
}

/// Two tasks that wait for each other never start.
pub proof fn law_two_cycle_never_starts(m: Model, a: int, b: int)
    requires
        m.wf(),
        0 <= a < m.len(),
        0 <= b < m.len(),
        m.edges[a].contains(b),
        m.edges[b].contains(a),
    ensures
        !m.started.contains(a),
        !m.started.contains(b),
        m.plan() != Plan::Done,
        m.unstarted_names(m.len()).contains(m.names[a]),
        m.unstarted_names(m.len()).contains(m.names[b]),
{
    if m.started.contains(a) {
        let pa = choose|p: int| #[trigger] m.started_at(p, a);
        let qb = choose|q: int| q < pa && #[trigger] m.completed_at(q, b);
        let pb = choose|p: int| p < qb && #[trigger] m.started_at(p, b);
        let qa = choose|q: int| q < pb && #[trigger] m.completed_at(q, a);
        let pa2 = choose|p: int| p < qa && #[trigger] m.started_at(p, a);
        assert(m.started_at(pa, a) && m.started_at(pa2, a));
    }
    if m.started.contains(b) {
        let pb = choose|p: int| #[trigger] m.started_at(p, b);
        let qa = choose|q: int| q < pb && #[trigger] m.completed_at(q, a);
        let pa = choose|p: int| p < qa && #[trigger] m.started_at(p, a);
        assert(m.started.contains(a));
    }
    law_unstarted_are_named(m, m.len(), a);
    law_unstarted_are_named(m, m.len(), b);
}

/// The names of the unstarted tasks hold the name of each unstarted task.
pub proof fn law_unstarted_are_named(m: Model, k: int, i: int)
    requires
        0 <= i < k,
        !m.started.contains(i),
    ensures
        m.unstarted_names(k).contains(m.names[i]),
    decreases k,
{
    let names = m.unstarted_names(k);
    if i == k - 1 {
        assert(names[names.len() - 1] == m.names[i]);
    } else {
        law_unstarted_are_named(m, k - 1, i);
        let shorter = m.unstarted_names(k - 1);
        let p = choose|p: int| 0 <= p < shorter.len() && shorter[p] == m.names[i];
        assert(names[p] == m.names[i]);
    }
}

/// Two tasks with the same name make the task list ambiguous, whichever of
/// the two was registered first: some task is the first to repeat a name.
pub proof fn law_same_name_is_ambiguous(tasks: Seq<InitView>, i: int, j: int)
    requires
        0 <= i < tasks.len(),
        0 <= j < tasks.len(),
        i != j,
        tasks[i].symbol == tasks[j].symbol,
    ensures
        !unambiguous(tasks),
        exists|c: int| first_clash(tasks, c),
{
    let lo = if i < j { i } else { j };
    let hi = if i < j { j } else { i };
    assert(provides(tasks, lo, tasks[hi].symbol));
    assert(clashes(tasks, hi));
    lemma_first_clash(tasks, hi);
}

/// `order` lists the index `i`.
pub open spec fn lists(order: Seq<int>, i: int) -> bool {
    exists|k: int| 0 <= k < order.len() && #[trigger] order[k] == i
}

/// `order` lists every index below `n` once.
pub open spec fn reorders(order: Seq<int>, n: int) -> bool {
    &&& order.len() == n
    &&& forall|k: int| 0 <= k < n ==> 0 <= #[trigger] order[k] < n
    &&& forall|a: int, b: int| 0 <= a < b < n ==> #[trigger] order[a] != #[trigger] order[b]
    &&& forall|i: int| 0 <= i < n ==> #[trigger] lists(order, i)
}

/// Whether a task list is ambiguous does not depend on the order in which
/// its tasks were registered.
pub proof fn law_ambiguity_ignores_order(
    tasks: Seq<InitView>,
    other: Seq<InitView>,
    order: Seq<int>,
)
    requires
        other.len() == tasks.len(),
        reorders(order, tasks.len() as int),
        forall|k: int| 0 <= k < other.len() ==> #[trigger] other[k] == tasks[order[k]],
    ensures
        unambiguous(other) <==> unambiguous(tasks),
{
    if !unambiguous(other) {
        let (a, b) = choose|a: int, b: int|
            0 <= a < b < other.len() && #[trigger] provides(other, a, #[trigger] other[b].symbol);
        assert(other[a] == tasks[order[a]]);
        assert(other[b] == tasks[order[b]]);
        law_same_name_is_ambiguous(tasks, order[a], order[b]);
    }
    if !unambiguous(tasks) {
        let (i, j) = choose|i: int, j: int|
            0 <= i < j < tasks.len() && #[trigger] provides(tasks, i, #[trigger] tasks[j].symbol);
        assert(lists(order, i) && lists(order, j));
        let a = choose|k: int| 0 <= k < order.len() && #[trigger] order[k] == i;
        let b = choose|k: int| 0 <= k < order.len() && #[trigger] order[k] == j;
        assert(other[a] == tasks[order[a]]);
        assert(other[b] == tasks[order[b]]);
        law_same_name_is_ambiguous(other, a, b);
    }
}

/// Below any task that repeats a name stands the first that does.
proof fn lemma_first_clash(tasks: Seq<InitView>, c: int)
    requires
        0 <= c < tasks.len(),
        clashes(tasks, c),
    ensures
        exists|f: int| first_clash(tasks, f),
    decreases c,
{
    if exists|k: int| 0 <= k < c && clashes(tasks, k) {
        let k = choose|k: int| 0 <= k < c && clashes(tasks, k);
        lemma_first_clash(tasks, k);
    } else {
        assert(first_clash(tasks, c));
    }
}

/// A task list is ambiguous exactly when some task is the first to repeat a
/// name.
pub proof fn law_ambiguous_iff_clash(tasks: Seq<InitView>)
    ensures
        !unambiguous(tasks) <==> exists|c: int| first_clash(tasks, c),
{
    if !unambiguous(tasks) {
        let (i, j) = choose|i: int, j: int|
            0 <= i < j < tasks.len() && #[trigger] provides(tasks, i, #[trigger] tasks[j].symbol);
        law_same_name_is_ambiguous(tasks, i, j);
    }
    if exists|c: int| first_clash(tasks, c) {
        let c = choose|c: int| first_clash(tasks, c);
        let i = choose|i: int| 0 <= i < c && #[trigger] provides(tasks, i, tasks[c].symbol);
        assert(provides(tasks, i, tasks[c].symbol));
    }
}

/// A reference to a name that no task provides makes no edge: a task whose
/// references all lead outside the run waits for nothing and is ready when
/// the run begins.
pub proof fn law_external_references_ignored(
    names: Seq<&'static Symbol>,
    sync: Seq<bool>,
    tasks: Seq<InitView>,
    i: int,
)
    requires
        names.len() == tasks.len(),
        0 <= i < tasks.len(),
        forall|d: int, k: int|
            0 <= d < tasks[i].deps.len() && tasks[i].deps[d] is Some ==> !#[trigger] provides(
                tasks,
                k,
                #[trigger] tasks[i].deps[d]->0,
            ),
    ensures
        edges_of(tasks, i) == Set::<int>::empty(),
        Model::initial(names, sync, graph_of(tasks)).ready(i),
{
    assert forall|k: int| !edges_of(tasks, i).contains(k) by {
        if edge(tasks, i, k) {
            let d = choose|d: int|
                0 <= d < tasks[i].deps.len() && #[trigger] tasks[i].deps[d] == Some(
                    tasks[k].symbol,
                );
            assert(provides(tasks, k, tasks[i].deps[d]->0));
        }
    }
    assert(edges_of(tasks, i) =~= Set::<int>::empty());
}

/// A number for each moment, different for different moments of a run over
/// `n` tasks: a start counts as its task, a completion as `n` more.
pub open spec fn moment_code(moment: Moment, n: int) -> int {
    match moment {
        Moment::Started(i) => i,
        Moment::Completed(i) => n + i,
    }
}

/// A run is over after at most two moments for each task: its start and its
/// completion. So every run ends.
pub proof fn law_run_is_bounded(m: Model)
    requires
        m.wf(),
    ensures
        m.history.len() <= 2 * m.len(),
{
    let n = m.len();
    let moments = set_int_range(0, m.history.len() as int);
    let code = |p: int| moment_code(m.history[p], n);
    let codes = moments.map(code);
    lemma_int_range(0, m.history.len() as int);
    lemma_int_range(0, 2 * n);
    assert forall|p: int| moments.contains(p) implies 0 <= #[trigger] code(p) < 2 * n by {
        match m.history[p] {
            Moment::Started(i) => {
                assert(m.started_at(p, i));
            },
            Moment::Completed(i) => {
                assert(m.completed_at(p, i));
                assert(m.started.contains(i));
            },
        }
    }
    assert(injective_on(code, moments)) by {
        assert forall|p: int, q: int|
            moments.contains(p) && moments.contains(q) && #[trigger] code(p) == #[trigger] code(
                q,
            ) implies p == q by {
            assert(0 <= code(p) < 2 * n);
            assert(0 <= code(q) < 2 * n);
            match m.history[p] {
                Moment::Started(i) => {
                    assert(m.started_at(p, i));
                    match m.history[q] {
                        Moment::Started(j) => {
                            assert(m.started_at(q, j));
                        },
                        Moment::Completed(j) => {
                            assert(m.completed_at(q, j));
                            assert(m.started.contains(j));
                        },
                    }
                },
                Moment::Completed(i) => {
                    assert(m.completed_at(p, i));
                    assert(m.started.contains(i));
                    match m.history[q] {
                        Moment::Started(j) => {
                            assert(m.started_at(q, j));
                        },
                        Moment::Completed(j) => {
                            assert(m.completed_at(q, j));
                        },
                    }
                },
            }
        }
    }
    lemma_map_size(moments, codes, code);
    assert(codes.subset_of(set_int_range(0, 2 * n))) by {
        assert forall|c: int| codes.contains(c) implies set_int_range(0, 2 * n).contains(c) by {
            let p = choose|p: int| moments.contains(p) && c == code(p);
            assert(0 <= code(p) < 2 * n);
        }
    }
    lemma_len_subset(codes, set_int_range(0, 2 * n));
}

/// Each transition adds one moment to the history, so that a run makes
/// progress with every dispatch and every completion.
pub proof fn law_transitions_advance(m: Model, i: int)
    ensures
        m.dispatched().history.len() == m.history.len() + 1,
        m.completed(i).history.len() == m.history.len() + 1,
{
}

/// Where the scheduler waits, an action is running whose end can be
/// reported; where it reports a circular dependency, a task is named.
pub proof fn law_wait_and_circular_have_cause(m: Model)
    requires
        m.wf(),
    ensures
        m.plan() == Plan::Wait ==> exists|i: int| m.running(i),
        m.plan() == Plan::Circular ==> m.unstarted_names(m.len()).len() > 0,
{
    if m.plan() == Plan::Circular {
        crate::preserve::lemma_unstarted_names(m, m.len());
    }
}

/// `pick` names, in every state where an action is running, one of the
/// running tasks: the one whose action ends next.
pub open spec fn picks_running(pick: spec_fn(Model) -> int) -> bool {
    forall|m: Model| (exists|i: int| m.running(i)) ==> m.running(#[trigger] pick(m))
}

/// The state that a driver reaches from `m` in at most `steps` steps when
/// every action succeeds: it runs an immediate task to its end at once,
/// begins a suspending one, and where it has to wait, the action of the task
/// that `pick` names ends.
pub open spec fn driven(m: Model, pick: spec_fn(Model) -> int, steps: nat) -> Model
    decreases steps,
{
    if steps == 0 {
        m
    } else {
        match m.plan() {
            Plan::Dispatch(i) => if m.sync[i] {
                driven(m.dispatched().completed(i), pick, (steps - 1) as nat)
            } else {
                driven(m.dispatched(), pick, (steps - 1) as nat)
            },
            Plan::Wait => driven(m.completed(pick(m)), pick, (steps - 1) as nat),
            Plan::Circular => m,
            Plan::Done => m,
        }
    }
}

/// Over a graph without a cycle, a run in which every action succeeds ends in
/// success, in whatever order the running actions end: after at most two
/// steps for each task the scheduler reports that all is done, and the state
/// reached meets the invariant, so that every task has started and completed
/// once, each after all that it waits for.
pub proof fn law_acyclic_run_succeeds(m: Model, pick: spec_fn(Model) -> int, steps: nat)
    requires
        m.wf(),
        m.acyclic(),
        picks_running(pick),
        steps + m.history.len() >= 2 * m.len(),
    ensures
        driven(m, pick, steps).wf(),
        driven(m, pick, steps).plan() == Plan::Done,
        driven(m, pick, steps).edges == m.edges,
        driven(m, pick, steps).names == m.names,
    decreases steps,
{
    law_acyclic_never_circular(m);
    law_run_is_bounded(m);
    match m.plan() {
        Plan::Dispatch(i) => {
            crate::preserve::lemma_dispatched_wf(m);
            let begun = m.dispatched();
            law_run_is_bounded(begun);
            if m.sync[i] {
                assert(begun.running(i));
                crate::preserve::lemma_completed_wf(begun, i);
                let ended = begun.completed(i);
                law_run_is_bounded(ended);
                lemma_same_graph_acyclic(m, ended);
                law_acyclic_run_succeeds(ended, pick, (steps - 1) as nat);
            } else {
                lemma_same_graph_acyclic(m, begun);
                law_acyclic_run_succeeds(begun, pick, (steps - 1) as nat);
            }
        },
        Plan::Wait => {
            let i = pick(m);
            assert(m.running(i));
            crate::preserve::lemma_completed_wf(m, i);
            let ended = m.completed(i);
            law_run_is_bounded(ended);
            lemma_same_graph_acyclic(m, ended);
            law_acyclic_run_succeeds(ended, pick, (steps - 1) as nat);
        },
        Plan::Circular => {},
        Plan::Done => {},
    }
}

/// Whether a graph has a cycle depends on its tasks and edges only.
proof fn lemma_same_graph_acyclic(m: Model, n: Model)
    requires
        m.acyclic(),
        n.edges == m.edges,
        n.names == m.names,
    ensures
        n.acyclic(),
{
    let rank = choose|rank: Seq<nat>| m.ranked(rank);
    assert(n.ranked(rank));
}

} // verus!
