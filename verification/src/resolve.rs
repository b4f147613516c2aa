//! Identity resolution: from a task list to its dependency graph.
//!
//! Every task provides one name, its symbol. A reference to a name that no
//! task provides is a reference to something outside the run and makes no
//! edge. A name with two providers is an error, found before anything runs.

use vstd::prelude::*;
use crate::error::InitError;
use crate::registry::Init;
use crate::registry::InitView;
use crate::registry::tasks_view;
use crate::symbol::Symbol;
use crate::symbol::SymbolView;

verus! {

/// Task `k` provides `name`.
pub open spec fn provides(tasks: Seq<InitView>, k: int, name: SymbolView) -> bool {
    0 <= k < tasks.len() && tasks[k].symbol == name
}

/// An earlier task provides the name that task `j` provides.
pub open spec fn clashes(tasks: Seq<InitView>, j: int) -> bool {
    exists|i: int| 0 <= i < j && #[trigger] provides(tasks, i, tasks[j].symbol)
}

/// No name has two providers.
pub open spec fn unambiguous(tasks: Seq<InitView>) -> bool {
    forall|i: int, j: int|
        0 <= i < j < tasks.len() ==> !#[trigger] provides(tasks, i, #[trigger] tasks[j].symbol)
}

/// Task `j` is the first, in registration order, that repeats an earlier name.
pub open spec fn first_clash(tasks: Seq<InitView>, j: int) -> bool {
    &&& 0 <= j < tasks.len()
    &&& clashes(tasks, j)
    &&& forall|k: int| 0 <= k < j ==> !#[trigger] clashes(tasks, k)
}

/// The task `t` refers to `name`.
pub open spec fn refers_to(t: InitView, name: SymbolView) -> bool {
    exists|d: int| 0 <= d < t.deps.len() && #[trigger] t.deps[d] == Some(name)
}

/// Task `i` must wait for task `k`: `i` refers to the name that `k` provides.
pub open spec fn edge(tasks: Seq<InitView>, i: int, k: int) -> bool {
    0 <= i < tasks.len() && 0 <= k < tasks.len() && refers_to(tasks[i], tasks[k].symbol)
}

/// The tasks that task `i` must wait for.
pub open spec fn edges_of(tasks: Seq<InitView>, i: int) -> Set<int> {
    Set::new(|k: int| edge(tasks, i, k))
}

/// The dependency graph of a task list: for each task, the tasks it waits for.
pub open spec fn graph_of(tasks: Seq<InitView>) -> Seq<Set<int>> {
    Seq::new(tasks.len(), |i: int| edges_of(tasks, i))
}

/// The members of an index list, as a set.
pub open spec fn index_set(list: Seq<usize>) -> Set<int> {
    Set::new(|k: int| exists|p: int| 0 <= p < list.len() && #[trigger] list[p] == k)
}

/// A dependency graph: for each task, the indices of the tasks it waits for.
#[derive(Debug)]
pub struct Graph {
    pub edges: Vec<Vec<usize>>,
}

impl View for Graph {
    type V = Seq<Set<int>>;

    open spec fn view(&self) -> Seq<Set<int>> {
        Seq::new(self.edges@.len(), |i: int| index_set(self.edges@[i]@))
    }
}

/// Checks that no two tasks provide the same name.
///
/// Fails with the name of the first task, in registration order, that
/// repeats the name of an earlier one.
pub fn check_names(tasks: &Vec<Init>) -> (r: Result<(), InitError>)
    ensures
        match r {
            Ok(_) => unambiguous(tasks_view(tasks@)),
            Err(e) => exists|j: int|
                #![trigger tasks@[j]]
                first_clash(tasks_view(tasks@), j) && e == (InitError::Ambiguous {
                    symbol: tasks@[j].symbol,
                }),
        },
{
    let ghost model = tasks_view(tasks@);
    let mut j: usize = 0;
    while j < tasks.len()
        invariant
            j <= tasks.len(),
            model == tasks_view(tasks@),
            forall|k: int| 0 <= k < j ==> !#[trigger] clashes(model, k),
        decreases tasks.len() - j,
    {
        let mut i: usize = 0;
        while i < j
            invariant
                i <= j < tasks.len(),
                model == tasks_view(tasks@),
                forall|k: int| 0 <= k < j ==> !#[trigger] clashes(model, k),
                forall|h: int| 0 <= h < i ==> !#[trigger] provides(model, h, model[j as int].symbol),
            decreases j - i,
        {
            if tasks[i].symbol.same(tasks[j].symbol) {
                proof {
                    assert(provides(model, i as int, model[j as int].symbol));
                    assert(first_clash(model, j as int));
                }
                return Err(InitError::Ambiguous { symbol: tasks[j].symbol });
            }
            i += 1;
        }
        j += 1;
    }
    proof {
        assert forall|a: int, b: int| 0 <= a < b < model.len() implies !#[trigger] provides(
            model,
            a,
            #[trigger] model[b].symbol,
        ) by {
            assert(!clashes(model, b));
        }
    }
    Ok(())
}

/// Resolves one reference of the task named `dependent` to the name `name`.
///
/// No provider: the reference leaves the run, `None`. One provider: its
/// index. Two or more: an error that names the task and the contended name.
pub fn resolve_dependency(
    tasks: &Vec<Init>,
    dependent: &'static Symbol,
    name: &'static Symbol,
) -> (r: Result<Option<usize>, InitError>)
    ensures
        match r {
            Ok(None) => forall|k: int| !#[trigger] provides(tasks_view(tasks@), k, name@),
            Ok(Some(p)) => provides(tasks_view(tasks@), p as int, name@) && forall|k: int| #[trigger]
                provides(tasks_view(tasks@), k, name@) ==> k == p,
            Err(e) => e == (InitError::AmbiguousDependency { dependent, symbol: name })
                && exists|a: int, b: int|
                a != b && #[trigger] provides(tasks_view(tasks@), a, name@) && #[trigger] provides(
                    tasks_view(tasks@),
                    b,
                    name@,
                ),
        },
{
    let ghost model = tasks_view(tasks@);
    let mut found: Option<usize> = None;
    let mut k: usize = 0;
    while k < tasks.len()
        invariant
            k <= tasks.len(),
            model == tasks_view(tasks@),
            match found {
                None => forall|h: int| 0 <= h < k ==> !#[trigger] provides(model, h, name@),
                Some(p) => p < k && provides(model, p as int, name@) && forall|h: int|
                    0 <= h < k && #[trigger] provides(model, h, name@) ==> h == p,
            },
        decreases tasks.len() - k,
    {
        if tasks[k].symbol.same(name) {
            assert(provides(model, k as int, name@));
            match found {
                Some(p) => {
                    assert(provides(model, p as int, name@));
                    return Err(InitError::AmbiguousDependency { dependent, symbol: name });
                },
                None => {
                    found = Some(k);
                },
            }
        }
        k += 1;
    }
    Ok(found)
}

/// One of the first `n` references of `t` is to `name`.
pub open spec fn refers_before(t: InitView, name: SymbolView, n: int) -> bool {
    exists|d: int| 0 <= d < n && #[trigger] t.deps[d] == Some(name)
}

/// The tasks that task `i` must wait for on account of its first `n`
/// references.
pub open spec fn edges_before(tasks: Seq<InitView>, i: int, n: int) -> Set<int> {
    Set::new(|k: int| 0 <= k < tasks.len() && refers_before(tasks[i], tasks[k].symbol, n))
}

/// All references of a task together make its edges.
proof fn lemma_edges_all(tasks: Seq<InitView>, i: int)
    requires
        0 <= i < tasks.len(),
    ensures
        edges_before(tasks, i, tasks[i].deps.len() as int) == edges_of(tasks, i),
{
    let t = tasks[i];
    assert forall|k: int|
        edges_before(tasks, i, t.deps.len() as int).contains(k) <==> edges_of(tasks, i).contains(
            k,
        ) by {
        if 0 <= k < tasks.len() {
            let name = tasks[k].symbol;
            if refers_before(t, name, t.deps.len() as int) {
                let w = choose|w: int| 0 <= w < t.deps.len() && #[trigger] t.deps[w] == Some(name);
                assert(refers_to(t, name));
            }
            if refers_to(t, name) {
                let w = choose|w: int| 0 <= w < t.deps.len() && #[trigger] t.deps[w] == Some(name);
                assert(refers_before(t, name, t.deps.len() as int));
            }
        }
    }
    assert(edges_before(tasks, i, t.deps.len() as int) =~= edges_of(tasks, i));
}

/// A reference without a provider adds no edge.
proof fn lemma_edges_skip(tasks: Seq<InitView>, i: int, n: int)
    requires
        0 <= i < tasks.len(),
        0 <= n < tasks[i].deps.len(),
        forall|k: int|
            tasks[i].deps[n] is Some ==> !#[trigger] provides(tasks, k, tasks[i].deps[n]->0),
    ensures
        edges_before(tasks, i, n + 1) == edges_before(tasks, i, n),
{
    let t = tasks[i];
    assert forall|k: int|
        edges_before(tasks, i, n + 1).contains(k) <==> edges_before(tasks, i, n).contains(k) by {
        if 0 <= k < tasks.len() {
            let name = tasks[k].symbol;
            if refers_before(t, name, n + 1) {
                let w = choose|w: int| 0 <= w < n + 1 && #[trigger] t.deps[w] == Some(name);
                if w == n {
                    assert(provides(tasks, k, t.deps[n]->0));
                }
                assert(refers_before(t, name, n));
            }
            if refers_before(t, name, n) {
                let w = choose|w: int| 0 <= w < n && #[trigger] t.deps[w] == Some(name);
                assert(refers_before(t, name, n + 1));
            }
        }
    }
    assert(edges_before(tasks, i, n + 1) =~= edges_before(tasks, i, n));
}

/// A reference with the one provider `p` adds the edge to `p`.
proof fn lemma_edges_add(tasks: Seq<InitView>, i: int, n: int, p: int)
    requires
        0 <= i < tasks.len(),
        0 <= n < tasks[i].deps.len(),
        tasks[i].deps[n] is Some,
        provides(tasks, p, tasks[i].deps[n]->0),
        forall|k: int| #[trigger] provides(tasks, k, tasks[i].deps[n]->0) ==> k == p,
    ensures
        edges_before(tasks, i, n + 1) == edges_before(tasks, i, n).insert(p),
{
    let t = tasks[i];
    assert forall|k: int|
        edges_before(tasks, i, n + 1).contains(k) <==> edges_before(tasks, i, n).insert(
            p,
        ).contains(k) by {
        if 0 <= k < tasks.len() {
            let name = tasks[k].symbol;
            if refers_before(t, name, n + 1) {
                let w = choose|w: int| 0 <= w < n + 1 && #[trigger] t.deps[w] == Some(name);
                if w == n {
                    assert(provides(tasks, k, name));
                } else {
                    assert(refers_before(t, name, n));
                }
            }
            if refers_before(t, name, n) {
                let w = choose|w: int| 0 <= w < n && #[trigger] t.deps[w] == Some(name);
                assert(refers_before(t, name, n + 1));
            }
            if k == p {
                assert(t.deps[n] == Some(name));
                assert(refers_before(t, name, n + 1));
            }
        }
    }
    assert(edges_before(tasks, i, n + 1) =~= edges_before(tasks, i, n).insert(p));
}

/// Appending an index to a list adds it to the list's set.
proof fn lemma_index_set_push(list: Seq<usize>, p: usize)
    ensures
        index_set(list.push(p)) == index_set(list).insert(p as int),
{
    let more = list.push(p);
    assert forall|k: int| index_set(more).contains(k) <==> index_set(list).insert(
        p as int,
    ).contains(k) by {
        if index_set(more).contains(k) {
            let q = choose|q: int| 0 <= q < more.len() && #[trigger] more[q] == k;
            if q < list.len() {
                assert(list[q] == k);
            }
        }
        if index_set(list).contains(k) {
            let q = choose|q: int| 0 <= q < list.len() && #[trigger] list[q] == k;
            assert(more[q] == k);
        }
        if k == p {
            assert(more[list.len() as int] == k);
        }
    }
    assert(index_set(more) =~= index_set(list).insert(p as int));
}

/// Resolves a task list to its dependency graph.
///
/// Fails, before anything has run, where two tasks provide the same name;
/// the error carries the name of the first task that repeats an earlier one.
/// Otherwise every reference has at most one provider, and the graph holds an
/// edge for each reference that has one.
pub fn resolve(tasks: &Vec<Init>) -> (r: Result<Graph, InitError>)
    ensures
        match r {
            Ok(g) => unambiguous(tasks_view(tasks@)) && g@ == graph_of(tasks_view(tasks@)),
            Err(e) => exists|j: int|
                #![trigger tasks@[j]]
                first_clash(tasks_view(tasks@), j) && e == (InitError::Ambiguous {
                    symbol: tasks@[j].symbol,
                }),
        },
{
    match check_names(tasks) {
        Ok(_) => {},
        Err(e) => {
            return Err(e);
        },
    }
    let ghost model = tasks_view(tasks@);
    let mut edges: Vec<Vec<usize>> = Vec::new();
    let mut i: usize = 0;
    while i < tasks.len()
        invariant
            i <= tasks.len(),
            model == tasks_view(tasks@),
            unambiguous(model),
            edges@.len() == i,
            forall|h: int| 0 <= h < i ==> index_set(#[trigger] edges@[h]@) == edges_of(model, h),
        decreases tasks.len() - i,
    {
        let task = &tasks[i];
        let mut list: Vec<usize> = Vec::new();
        let mut d: usize = 0;
        assert(index_set(list@) =~= edges_before(model, i as int, 0));
        while d < task.deps.len()
            invariant
                d <= task.deps.len(),
                i < tasks.len(),
                *task == tasks@[i as int],
                model == tasks_view(tasks@),
                unambiguous(model),
                index_set(list@) == edges_before(model, i as int, d as int),
            decreases task.deps.len() - d,
        {
            assert(model[i as int].deps[d as int] == crate::registry::dep_view(task.deps@[d as int]));
            match task.deps[d] {
                Some(name) => {
                    match resolve_dependency(tasks, task.symbol, name) {
                        Ok(Some(p)) => {
                            proof {
                                lemma_index_set_push(list@, p);
                                lemma_edges_add(model, i as int, d as int, p as int);
                            }
                            list.push(p);
                        },
                        Ok(None) => {
                            proof {
                                lemma_edges_skip(model, i as int, d as int);
                            }
                        },
                        Err(e) => {
                            proof {
                                let (a, b) = choose|a: int, b: int|
                                    a != b && #[trigger] provides(model, a, name@)
                                        && #[trigger] provides(model, b, name@);
                                if a < b {
                                    assert(provides(model, a, model[b].symbol));
                                } else {
                                    assert(provides(model, b, model[a].symbol));
                                }
                            }
                            return Err(e);
                        },
                    }
                },
                None => {
                    proof {
                        lemma_edges_skip(model, i as int, d as int);
                    }
                },
            }
            d += 1;
        }
        proof {
            lemma_edges_all(model, i as int);
        }
        edges.push(list);
        i += 1;
    }
    let g = Graph { edges };
    assert(g@ =~= graph_of(model));
    Ok(g)
}

} // verus!
