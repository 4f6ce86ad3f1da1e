//! The topological sorter: in-degree elimination over the dependency graph.
//!
//! The histogram counts, for every library index, how many edges point at it
//! (how many other libraries depend on it).  Indices with no incoming edge
//! are emitted first; each emission decrements the histogram entry of every
//! edge target reachable from the emitted node, pushing newly-zeroed nodes
//! onto a work stack, so a node is emitted only once everything that depends
//! on it has been emitted.  The caller reverses the result to place
//! dependencies before dependents.

use vstd::prelude::*;

verus! {

/// The number of edges in `edges` pointing at `v` whose source has not been
/// emitted yet (is not in `order`).
pub open spec fn cnt_pending(edges: Seq<(usize, usize)>, order: Seq<usize>, v: usize) -> nat
    decreases edges.len(),
{
    if edges.len() == 0 {
        0
    } else {
        cnt_pending(edges.drop_last(), order, v) + if edges.last().1 == v && !order.contains(
            edges.last().0,
        ) {
            1nat
        } else {
            0nat
        }
    }
}

/// The number of edges in `edges` from `cur` to `v`.
pub open spec fn cnt_from(edges: Seq<(usize, usize)>, cur: usize, v: usize) -> nat
    decreases edges.len(),
{
    if edges.len() == 0 {
        0
    } else {
        cnt_from(edges.drop_last(), cur, v) + if edges.last().0 == cur && edges.last().1 == v {
            1nat
        } else {
            0nat
        }
    }
}

pub open spec fn sum_hist(hist: Seq<nat>) -> nat
    decreases hist.len(),
{
    if hist.len() == 0 {
        0
    } else {
        sum_hist(hist.drop_last()) + hist.last()
    }
}

/// Walking `edges` once for the freshly emitted node `cur`: each pending
/// edge out of `cur` decrements its target's histogram entry, and a target
/// reaching zero is pushed onto the stack.
pub open spec fn process_edges(
    edges: Seq<(usize, usize)>,
    cur: usize,
    hist: Seq<nat>,
    stack: Seq<usize>,
) -> (Seq<nat>, Seq<usize>)
    decreases edges.len(),
{
    if edges.len() == 0 {
        (hist, stack)
    } else {
        let done = process_edges(edges.drop_last(), cur, hist, stack);
        let h = done.0;
        let s = done.1;
        let e = edges.last();
        if e.0 == cur && e.1 < h.len() && h[e.1 as int] > 0 {
            let h2 = h.update(e.1 as int, (h[e.1 as int] - 1) as nat);
            if h2[e.1 as int] == 0 {
                (h2, s.push(e.1))
            } else {
                (h2, s)
            }
        } else {
            (h, s)
        }
    }
}

pub proof fn lemma_sum_update(hist: Seq<nat>, i: int)
    requires
        0 <= i < hist.len(),
        hist[i] > 0,
    ensures
        sum_hist(hist.update(i, (hist[i] - 1) as nat)) + 1 == sum_hist(hist),
    decreases hist.len(),
{
    let upd = hist.update(i, (hist[i] - 1) as nat);
    if i == hist.len() - 1 {
        assert(upd.drop_last() =~= hist.drop_last());
    } else {
        assert(upd.drop_last() =~= hist.drop_last().update(i, (hist[i] - 1) as nat));
        lemma_sum_update(hist.drop_last(), i);
    }
}

pub proof fn lemma_process_measure(
    edges: Seq<(usize, usize)>,
    cur: usize,
    hist: Seq<nat>,
    stack: Seq<usize>,
)
    ensures
        ({
            let done = process_edges(edges, cur, hist, stack);
            done.1.len() + sum_hist(done.0) <= stack.len() + sum_hist(hist)
        }),
    decreases edges.len(),
{
    if edges.len() > 0 {
        lemma_process_measure(edges.drop_last(), cur, hist, stack);
        let done = process_edges(edges.drop_last(), cur, hist, stack);
        let e = edges.last();
        if e.0 == cur && e.1 < done.0.len() && done.0[e.1 as int] > 0 {
            lemma_sum_update(done.0, e.1 as int);
        }
    }
}

/// One emission per iteration: pop a ready node, emit it, and process its
/// outgoing edges; stop when no node is ready.
pub open spec fn kahn_loop(
    edges: Seq<(usize, usize)>,
    hist: Seq<nat>,
    stack: Seq<usize>,
    order: Seq<usize>,
) -> Seq<usize>
    decreases stack.len() + sum_hist(hist),
    via kahn_loop_decreases
{
    if stack.len() == 0 {
        order
    } else {
        let cur = stack.last();
        let done = process_edges(edges, cur, hist, stack.drop_last());
        kahn_loop(edges, done.0, done.1, order.push(cur))
    }
}

#[via_fn]
proof fn kahn_loop_decreases(
    edges: Seq<(usize, usize)>,
    hist: Seq<nat>,
    stack: Seq<usize>,
    order: Seq<usize>,
)
{
    if stack.len() > 0 {
        lemma_process_measure(edges, stack.last(), hist, stack.drop_last());
    }
}

/// The initial histogram: for every index below `n`, the number of edges
/// pointing at it.
pub open spec fn spec_init_hist(edges: Seq<(usize, usize)>, n: nat) -> Seq<nat> {
    Seq::new(n, |v: int| cnt_pending(edges, Seq::empty(), v as usize))
}

/// The initially ready nodes: the indices with histogram zero, ascending.
pub open spec fn spec_init_stack(hist: Seq<nat>) -> Seq<usize>
    decreases hist.len(),
{
    if hist.len() == 0 {
        Seq::empty()
    } else {
        spec_init_stack(hist.drop_last()) + if hist.last() == 0 {
            seq![(hist.len() - 1) as usize]
        } else {
            Seq::empty()
        }
    }
}

/// The emission order of the sorter over `n` nodes: dependents before the
/// libraries they depend on.
pub open spec fn spec_topo_order(edges: Seq<(usize, usize)>, n: nat) -> Seq<usize> {
    let hist = spec_init_hist(edges, n);
    kahn_loop(edges, hist, spec_init_stack(hist), Seq::empty())
}

/// The emission order mapped back to library root paths.
pub open spec fn spec_sorted_paths(
    libs: Seq<Seq<Seq<char>>>,
    edges: Seq<(usize, usize)>,
) -> Seq<Seq<Seq<char>>> {
    spec_topo_order(edges, libs.len()).map_values(|v: usize| libs[v as int])
}

pub open spec fn edges_wf(edges: Seq<(usize, usize)>, n: nat) -> bool {
    forall|k: int| 0 <= k < edges.len() ==> (#[trigger] edges[k]).0 < n && edges[k].1 < n
}

/// Computes the emission order of the in-degree elimination.
pub fn topo_order(edges: &Vec<(usize, usize)>, n: usize) -> (r: Vec<usize>)
    requires
        edges_wf(edges@, n as nat),
    ensures
        r@ == spec_topo_order(edges@, n as nat),
        forall|j: int| 0 <= j < r@.len() ==> (#[trigger] r@[j]) < n,
{
    let ghost init_h = spec_init_hist(edges@, n as nat);
    let mut hist: Vec<usize> = Vec::new();
    while hist.len() < n
        invariant
            hist@.len() <= n,
            forall|v: int| 0 <= v < hist@.len() ==> hist@[v] == 0,
        decreases n - hist.len(),
    {
        hist.push(0);
    }
    let mut k: usize = 0;
    while k < edges.len()
        invariant
            edges_wf(edges@, n as nat),
            hist@.len() == n,
            k <= edges@.len(),
            forall|v: int|
                0 <= v < n ==> hist@[v] == cnt_pending(edges@.take(k as int), Seq::empty(),
                v as usize),
            forall|v: int| 0 <= v < n ==> hist@[v] <= k,
        decreases edges@.len() - k,
    {
        proof {
            assert(edges@.take(k + 1).drop_last() =~= edges@.take(k as int));
            assert(edges@.take(k + 1).last() == edges@[k as int]);
        }
        let t = edges[k].1;
        hist[t] = hist[t] + 1;
        k += 1;
    }
    proof {
        assert(edges@.take(edges@.len() as int) =~= edges@);
        assert(hist@.map_values(|x: usize| x as nat) =~= init_h);
    }
    let mut stack: Vec<usize> = Vec::new();
    let mut v: usize = 0;
    while v < n
        invariant
            hist@.len() == n,
            v <= n,
            stack@ =~= spec_init_stack(hist@.map_values(|x: usize| x as nat).take(v as int)),
            forall|j: int| 0 <= j < stack@.len() ==> (#[trigger] stack@[j]) < n,
        decreases n - v,
    {
        proof {
            let hv = hist@.map_values(|x: usize| x as nat);
            assert(hv.take(v + 1).drop_last() =~= hv.take(v as int));
            assert(hv.take(v + 1).last() == hv[v as int]);
        }
        if hist[v] == 0 {
            stack.push(v);
        }
        v += 1;
    }
    proof {
        let hv = hist@.map_values(|x: usize| x as nat);
        assert(hv.take(n as int) =~= hv);
        assert(hv =~= init_h);
        assert(stack@ =~= spec_init_stack(init_h));
    }
    let mut order: Vec<usize> = Vec::new();
    while stack.len() > 0
        invariant
            edges_wf(edges@, n as nat),
            hist@.len() == n,
            forall|j: int| 0 <= j < stack@.len() ==> (#[trigger] stack@[j]) < n,
            forall|j: int| 0 <= j < order@.len() ==> (#[trigger] order@[j]) < n,
            kahn_loop(edges@, hist@.map_values(|x: usize| x as nat), stack@, order@)
                == spec_topo_order(edges@, n as nat),
        decreases stack@.len() + sum_hist(hist@.map_values(|x: usize| x as nat)),
    {
        let ghost pre_h = hist@.map_values(|x: usize| x as nat);
        let ghost pre_stack = stack@;
        let ghost pre_order = order@;
        let cur = stack.pop().unwrap();
        order.push(cur);
        let ghost stack0 = stack@;
        let mut k: usize = 0;
        while k < edges.len()
            invariant
                edges_wf(edges@, n as nat),
                hist@.len() == n,
                k <= edges@.len(),
                forall|j: int| 0 <= j < stack@.len() ==> (#[trigger] stack@[j]) < n,
                (hist@.map_values(|x: usize| x as nat), stack@) == process_edges(
                    edges@.take(k as int),
                    cur,
                    pre_h,
                    stack0,
                ),
            decreases edges@.len() - k,
        {
            proof {
                assert(edges@.take(k + 1).drop_last() =~= edges@.take(k as int));
                assert(edges@.take(k + 1).last() == edges@[k as int]);
            }
            let ghost mid_h = hist@.map_values(|x: usize| x as nat);
            let e0 = edges[k].0;
            let t = edges[k].1;
            if e0 == cur {
                if hist[t] > 0 {
                    hist[t] = hist[t] - 1;
                    proof {
                        assert(hist@.map_values(|x: usize| x as nat) =~= mid_h.update(
                            t as int,
                            (mid_h[t as int] - 1) as nat,
                        ));
                    }
                    if hist[t] == 0 {
                        stack.push(t);
                    }
                }
            }
            proof {
                assert((hist@.map_values(|x: usize| x as nat), stack@) == process_edges(
                    edges@.take(k + 1),
                    cur,
                    pre_h,
                    stack0,
                ));
            }
            k += 1;
        }
        proof {
            assert(edges@.take(edges@.len() as int) =~= edges@);
            assert(pre_stack.drop_last() =~= stack0);
            assert(pre_stack.last() == cur);
            assert(order@ =~= pre_order.push(cur));
            lemma_process_measure(edges@, cur, pre_h, stack0);
        }
    }
    proof {
        assert(kahn_loop(edges@, hist@.map_values(|x: usize| x as nat), stack@, order@)
            == order@);
    }
    order
}

} // verus!
