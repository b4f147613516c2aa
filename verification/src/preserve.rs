//! The run invariant holds at the start and is kept by every transition.

use vstd::prelude::*;
use crate::model::Model;
use crate::model::Moment;
use crate::symbol::Symbol;

verus! {

/// A run begins in a state that meets the invariant.
pub proof fn lemma_initial_wf(names: Seq<&'static Symbol>, sync: Seq<bool>, edges: Seq<Set<int>>)
    requires
        Model::initial(names, sync, edges).graph_ok(),
    ensures
        Model::initial(names, sync, edges).wf(),
{
}

/// What `ready_of_kind` lists: exactly the ready tasks of the kind below
/// `k`, each once, in ascending order.
pub proof fn lemma_ready_of_kind(m: Model, sync: bool, k: int)
    ensures
        forall|p: int|
            0 <= p < m.ready_of_kind(sync, k).len() ==> {
                let i = #[trigger] m.ready_of_kind(sync, k)[p];
                m.ready(i) && m.sync[i] == sync && i < k
            },
        forall|p: int, q: int|
            0 <= p < q < m.ready_of_kind(sync, k).len() ==> #[trigger] m.ready_of_kind(sync, k)[p]
                < #[trigger] m.ready_of_kind(sync, k)[q],
        forall|i: int|
            0 <= i < k && m.ready(i) && m.sync[i] == sync ==> #[trigger] m.ready_of_kind(
                sync,
                k,
            ).contains(i),
    decreases k,
{
    if k > 0 {
        lemma_ready_of_kind(m, sync, k - 1);
        let shorter = m.ready_of_kind(sync, k - 1);
        let list = m.ready_of_kind(sync, k);
        assert forall|i: int| 0 <= i < k && m.ready(i) && m.sync[i] == sync implies list.contains(
            i,
        ) by {
            if i < k - 1 {
                assert(shorter.contains(i));
                let p = choose|p: int| 0 <= p < shorter.len() && shorter[p] == i;
                assert(list[p] == i);
            } else {
                assert(list[list.len() - 1] == i);
            }
        }
    }
}

/// Every task of a layer is ready, and none occurs in it twice.
pub proof fn lemma_layer(m: Model)
    ensures
        forall|p: int| 0 <= p < m.layer().len() ==> m.ready(#[trigger] m.layer()[p]),
        forall|p: int, q: int|
            0 <= p < q < m.layer().len() ==> #[trigger] m.layer()[p] != #[trigger] m.layer()[q],
        forall|i: int| m.ready(i) ==> #[trigger] m.layer().contains(i),
{
    lemma_ready_of_kind(m, true, m.len());
    lemma_ready_of_kind(m, false, m.len());
    let a = m.ready_of_kind(true, m.len());
    let b = m.ready_of_kind(false, m.len());
    assert forall|p: int| 0 <= p < m.layer().len() implies m.ready(#[trigger] m.layer()[p]) by {
        if p < a.len() {
            assert(m.layer()[p] == a[p]);
        } else {
            assert(m.layer()[p] == b[p - a.len()]);
        }
    }
    assert forall|p: int, q: int| 0 <= p < q < m.layer().len() implies #[trigger] m.layer()[p]
        != #[trigger] m.layer()[q] by {
        if q < a.len() {
            assert(m.layer()[p] == a[p] && m.layer()[q] == a[q]);
        } else if p < a.len() {
            assert(m.layer()[p] == a[p] && m.layer()[q] == b[q - a.len()]);
            assert(m.sync[a[p]] == true);
            assert(m.sync[b[q - a.len()]] == false);
        } else {
            assert(m.layer()[p] == b[p - a.len()] && m.layer()[q] == b[q - a.len()]);
        }
    }
    assert forall|i: int| m.ready(i) implies #[trigger] m.layer().contains(i) by {
        if m.sync[i] {
            assert(a.contains(i));
            let p = choose|p: int| 0 <= p < a.len() && a[p] == i;
            assert(m.layer()[p] == i);
        } else {
            assert(b.contains(i));
            let p = choose|p: int| 0 <= p < b.len() && b[p] == i;
            assert(m.layer()[a.len() + p] == i);
        }
    }
}

/// What is pending is ready and pending once.
pub proof fn lemma_pending(m: Model)
    requires
        m.wf(),
    ensures
        forall|p: int| 0 <= p < m.pending().len() ==> m.ready(#[trigger] m.pending()[p]),
        forall|p: int, q: int|
            0 <= p < q < m.pending().len() ==> #[trigger] m.pending()[p]
                != #[trigger] m.pending()[q],
{
    lemma_layer(m);
}

/// Dispatching the first pending task keeps the invariant.
pub proof fn lemma_dispatched_wf(m: Model)
    requires
        m.wf(),
        m.pending().len() > 0,
    ensures
        m.dispatched().wf(),
        m.ready(m.pending()[0]),
{
    lemma_pending(m);
    let i = m.pending()[0];
    let n = m.dispatched();
    let end = m.history.len() as int;
    assert(m.ready(i));
    assert(n.history[end] == Moment::Started(i));
    assert(n.started_at(end, i));
    assert forall|p: int, k: int| n.started_at(p, k) implies m.started_at(p, k) || (p == end && k
        == i) by {}
    assert forall|p: int, k: int| n.completed_at(p, k) implies m.completed_at(p, k) by {}
    assert forall|p: int, k: int| m.started_at(p, k) implies n.started_at(p, k) by {}
    assert forall|p: int, k: int| m.completed_at(p, k) implies n.completed_at(p, k) by {}
    // what is still queued stays ready
    assert forall|p: int| 0 <= p < n.queue.len() implies n.ready(#[trigger] n.queue[p]) by {
        assert(n.queue[p] == m.pending()[p + 1]);
        assert(m.ready(m.pending()[p + 1]));
        assert(m.pending()[0] != m.pending()[p + 1]);
    }
    assert forall|p: int, q: int| 0 <= p < q < n.queue.len() implies #[trigger] n.queue[p]
        != #[trigger] n.queue[q] by {
        assert(n.queue[p] == m.pending()[p + 1]);
        assert(n.queue[q] == m.pending()[q + 1]);
    }
    assert(n.queue_ok());
    // the history
    assert forall|k: int| #[trigger] n.started.contains(k) implies exists|p: int| #[trigger]
        n.started_at(p, k) by {
        if k == i {
            assert(n.started_at(end, k));
        } else {
            let p = choose|p: int| #[trigger] m.started_at(p, k);
            assert(n.started_at(p, k));
        }
    }
    assert forall|k: int| #[trigger] n.completed.contains(k) implies exists|p: int| #[trigger]
        n.completed_at(p, k) by {
        let p = choose|p: int| #[trigger] m.completed_at(p, k);
        assert(n.completed_at(p, k));
    }
    assert forall|p: int, q: int, k: int| #[trigger]
        n.started_at(p, k) && #[trigger] n.started_at(q, k) implies p == q by {
        if m.started_at(p, k) && !m.started_at(q, k) {
        }
    }
    assert forall|p: int, k: int, d: int| #[trigger]
        n.started_at(p, k) && 0 <= k < n.len() && #[trigger] n.edges[k].contains(
            d,
        ) implies exists|q: int| q < p && #[trigger] n.completed_at(q, d) by {
        if m.started_at(p, k) {
            let q = choose|q: int| q < p && #[trigger] m.completed_at(q, d);
            assert(n.completed_at(q, d));
        } else {
            assert(m.completed.contains(d));
            let q = choose|q: int| #[trigger] m.completed_at(q, d);
            assert(n.completed_at(q, d));
        }
    }
    assert forall|q: int, d: int| #[trigger] n.completed_at(q, d) implies exists|p: int|
        p < q && #[trigger] n.started_at(p, d) by {
        assert(m.completed_at(q, d));
        let p = choose|p: int| p < q && #[trigger] m.started_at(p, d);
        assert(n.started_at(p, d));
    }
    assert(n.history_ok());
}

/// The successful completion of a running task keeps the invariant.
pub proof fn lemma_completed_wf(m: Model, i: int)
    requires
        m.wf(),
        m.running(i),
    ensures
        m.completed(i).wf(),
{
    let n = m.completed(i);
    let end = m.history.len() as int;
    assert(n.history[end] == Moment::Completed(i));
    assert(n.completed_at(end, i));
    assert forall|p: int, k: int| n.completed_at(p, k) implies m.completed_at(p, k) || (p == end
        && k == i) by {}
    assert forall|p: int, k: int| n.started_at(p, k) implies m.started_at(p, k) by {}
    assert forall|p: int, k: int| m.started_at(p, k) implies n.started_at(p, k) by {}
    assert forall|p: int, k: int| m.completed_at(p, k) implies n.completed_at(p, k) by {}
    assert forall|p: int| 0 <= p < n.queue.len() implies n.ready(#[trigger] n.queue[p]) by {
        assert(m.ready(m.queue[p]));
    }
    assert(n.queue_ok());
    assert forall|k: int| #[trigger] n.started.contains(k) implies exists|p: int| #[trigger]
        n.started_at(p, k) by {
        let p = choose|p: int| #[trigger] m.started_at(p, k);
        assert(n.started_at(p, k));
    }
    assert forall|k: int| #[trigger] n.completed.contains(k) implies exists|p: int| #[trigger]
        n.completed_at(p, k) by {
        if k == i {
            assert(n.completed_at(end, k));
        } else {
            let p = choose|p: int| #[trigger] m.completed_at(p, k);
            assert(n.completed_at(p, k));
        }
    }
    assert forall|p: int, q: int, k: int| #[trigger]
        n.completed_at(p, k) && #[trigger] n.completed_at(q, k) implies p == q by {
        if m.completed_at(p, k) && !m.completed_at(q, k) {
        }
    }
    assert forall|p: int, k: int, d: int| #[trigger]
        n.started_at(p, k) && 0 <= k < n.len() && #[trigger] n.edges[k].contains(
            d,
        ) implies exists|q: int| q < p && #[trigger] n.completed_at(q, d) by {
        assert(m.started_at(p, k));
        let q = choose|q: int| q < p && #[trigger] m.completed_at(q, d);
        assert(n.completed_at(q, d));
    }
    assert forall|q: int, d: int| #[trigger] n.completed_at(q, d) implies exists|p: int|
        p < q && #[trigger] n.started_at(p, d) by {
        if m.completed_at(q, d) {
            let p = choose|p: int| p < q && #[trigger] m.started_at(p, d);
            assert(n.started_at(p, d));
        } else {
            let p = choose|p: int| #[trigger] m.started_at(p, i);
            assert(n.started_at(p, d));
        }
    }
    assert(n.history_ok());
}

/// Taking the next layer into the queue, once the queue is used up, keeps
/// the invariant and changes nothing of what is pending.
pub proof fn lemma_requeued_wf(m: Model)
    requires
        m.wf(),
    ensures
        (Model { queue: m.pending(), ..m }).wf(),
        (Model { queue: m.pending(), ..m }).pending() == m.pending(),
{
    let n = Model { queue: m.pending(), ..m };
    lemma_pending(m);
    if m.pending().len() == 0 {
        assert(m.queue =~= m.pending());
        assert(n == m);
    } else {
        assert forall|p: int, k: int| n.started_at(p, k) <==> m.started_at(p, k) by {}
        assert forall|p: int, k: int| n.completed_at(p, k) <==> m.completed_at(p, k) by {}
        assert forall|p: int| 0 <= p < n.queue.len() implies n.ready(#[trigger] n.queue[p]) by {
            assert(m.ready(m.pending()[p]));
        }
        assert(n.queue_ok());
        assert forall|k: int| #[trigger] n.started.contains(k) implies exists|p: int| #[trigger]
            n.started_at(p, k) by {
            let p = choose|p: int| #[trigger] m.started_at(p, k);
            assert(n.started_at(p, k));
        }
        assert forall|k: int| #[trigger] n.completed.contains(k) implies exists|p: int| #[trigger]
            n.completed_at(p, k) by {
            let p = choose|p: int| #[trigger] m.completed_at(p, k);
            assert(n.completed_at(p, k));
        }
        assert forall|p: int, k: int, d: int| #[trigger]
            n.started_at(p, k) && 0 <= k < n.len() && #[trigger] n.edges[k].contains(
                d,
            ) implies exists|q: int| q < p && #[trigger] n.completed_at(q, d) by {
            assert(m.started_at(p, k));
            let q = choose|q: int| q < p && #[trigger] m.completed_at(q, d);
            assert(n.completed_at(q, d));
        }
        assert forall|q: int, d: int| #[trigger] n.completed_at(q, d) implies exists|p: int|
            p < q && #[trigger] n.started_at(p, d) by {
            assert(m.completed_at(q, d));
            let p = choose|p: int| p < q && #[trigger] m.started_at(p, d);
            assert(n.started_at(p, d));
        }
        assert(n.history_ok());
    }
}

/// Names are listed exactly where a task has not started.
pub proof fn lemma_unstarted_names(m: Model, k: int)
    ensures
        m.unstarted_names(k).len() > 0 <==> exists|i: int| 0 <= i < k && !m.started.contains(i),
    decreases k,
{
    if k > 0 {
        lemma_unstarted_names(m, k - 1);
        if m.unstarted_names(k - 1).len() > 0 {
            let i = choose|i: int| 0 <= i < k - 1 && !m.started.contains(i);
            assert(0 <= i < k && !m.started.contains(i));
        }
    }
}

} // verus!
