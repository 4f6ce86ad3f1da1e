//! What the sorter's emission order guarantees: every node is emitted after
//! all the edges pointing at it have been discharged, so dependents always
//! precede the libraries they depend on, and — on an acyclic graph — every
//! node is emitted.

use vstd::prelude::*;
use vstd::seq_lib::*;
use vstd::set_lib::*;
use crate::topo::{
    cnt_from, cnt_pending, edges_wf, kahn_loop, process_edges, spec_init_hist, spec_init_stack,
    spec_topo_order, sum_hist, lemma_process_measure,
};

verus! {

proof fn lemma_push_contains(s: Seq<usize>, x: usize, y: usize)
    ensures
        s.push(x).contains(y) <==> (s.contains(y) || x == y),
{
    if s.contains(y) {
        let i = choose|i: int| 0 <= i < s.len() && s[i] == y;
        assert(s.push(x)[i] == y);
    }
    if x == y {
        assert(s.push(x)[s.len() as int] == y);
    }
    if s.push(x).contains(y) && x != y {
        let i = choose|i: int| 0 <= i < s.push(x).len() && s.push(x)[i] == y;
        assert(0 <= i < s.len());
        assert(s[i] == y);
    }
}

proof fn lemma_push_no_dups(s: Seq<usize>, x: usize)
    requires
        s.no_duplicates(),
        !s.contains(x),
    ensures
        s.push(x).no_duplicates(),
{
    assert forall|i: int, j: int|
        0 <= i < s.push(x).len() && 0 <= j < s.push(x).len() && i != j implies s.push(x)[i]
        != s.push(x)[j] by {
        if i < s.len() && j < s.len() {
        } else if i < s.len() {
            assert(s[i] == s.push(x)[i]);
        } else if j < s.len() {
            assert(s[j] == s.push(x)[j]);
        }
    }
}

proof fn lemma_drop_last_no_dups(s: Seq<usize>)
    requires
        s.len() > 0,
        s.no_duplicates(),
    ensures
        s.drop_last().no_duplicates(),
        !s.drop_last().contains(s.last()),
{
    if s.drop_last().contains(s.last()) {
        let i = choose|i: int| 0 <= i < s.len() - 1 && s.drop_last()[i] == s.last();
        assert(s[i] == s[s.len() - 1]);
        assert(false);
    }
}

/// An un-emitted dependent keeps an edge pending at its target.
proof fn lemma_edge_target_pending(edges: Seq<(usize, usize)>, order: Seq<usize>, m: int)
    requires
        0 <= m < edges.len(),
        !order.contains(edges[m].0),
    ensures
        cnt_pending(edges, order, edges[m].1) >= 1,
    decreases edges.len(),
{
    if m == edges.len() - 1 {
    } else {
        assert(edges.drop_last()[m] == edges[m]);
        lemma_edge_target_pending(edges.drop_last(), order, m);
    }
}

/// A positive pending count names a pending edge.
pub proof fn lemma_pending_edge_exists(edges: Seq<(usize, usize)>, order: Seq<usize>, v: usize)
    requires
        cnt_pending(edges, order, v) > 0,
    ensures
        exists|m: int|
            0 <= m < edges.len() && (#[trigger] edges[m]).1 == v && !order.contains(edges[m].0),
    decreases edges.len(),
{
    if edges.len() > 0 {
        let e = edges.last();
        if e.1 == v && !order.contains(e.0) {
            assert(edges[edges.len() - 1] == e);
        } else {
            lemma_pending_edge_exists(edges.drop_last(), order, v);
            let m = choose|m: int|
                0 <= m < edges.drop_last().len() && (#[trigger] edges.drop_last()[m]).1 == v
                    && !order.contains(edges.drop_last()[m].0);
            assert(edges[m] == edges.drop_last()[m]);
        }
    }
}

proof fn lemma_cnt_from_le_pending(
    edges: Seq<(usize, usize)>,
    order: Seq<usize>,
    cur: usize,
    v: usize,
)
    requires
        !order.contains(cur),
    ensures
        cnt_from(edges, cur, v) <= cnt_pending(edges, order, v),
    decreases edges.len(),
{
    if edges.len() > 0 {
        lemma_cnt_from_le_pending(edges.drop_last(), order, cur, v);
    }
}

proof fn lemma_cnt_pending_push(
    edges: Seq<(usize, usize)>,
    order: Seq<usize>,
    cur: usize,
    v: usize,
)
    requires
        !order.contains(cur),
    ensures
        cnt_pending(edges, order.push(cur), v) + cnt_from(edges, cur, v) == cnt_pending(
            edges,
            order,
            v,
        ),
    decreases edges.len(),
{
    if edges.len() > 0 {
        lemma_cnt_pending_push(edges.drop_last(), order, cur, v);
        let e = edges.last();
        lemma_push_contains(order, cur, e.0);
    }
}

/// What one pass over the edges does: each pending edge out of `cur`
/// decrements its target, and exactly the targets falling to zero join the
/// stack.
proof fn lemma_process_chars(
    edges: Seq<(usize, usize)>,
    cur: usize,
    hist: Seq<nat>,
    stack: Seq<usize>,
    n: nat,
)
    requires
        n <= usize::MAX,
        hist.len() == n,
        edges_wf(edges, n),
        forall|v: usize| v < n ==> hist[v as int] >= cnt_from(edges, cur, v),
        stack.no_duplicates(),
        forall|x: usize| stack.contains(x) ==> x < n && hist[x as int] == 0,
    ensures
        ({
            let done = process_edges(edges, cur, hist, stack);
            &&& done.0.len() == n
            &&& forall|v: usize|
                v < n ==> done.0[v as int] == hist[v as int] - cnt_from(edges, cur, v)
            &&& forall|x: usize|
                #[trigger] done.1.contains(x) <==> (stack.contains(x) || (x < n
                    && hist[x as int] > 0 && done.0[x as int] == 0))
            &&& done.1.no_duplicates()
        }),
    decreases edges.len(),
{
    if edges.len() == 0 {
    } else {
        let rest = edges.drop_last();
        assert(forall|k: int| 0 <= k < rest.len() ==> rest[k] == edges[k]);
        assert forall|v: usize| v < n implies hist[v as int] >= cnt_from(rest, cur, v) by {
            assert(cnt_from(edges, cur, v) >= cnt_from(rest, cur, v));
        }
        lemma_process_chars(rest, cur, hist, stack, n);
        let mid = process_edges(rest, cur, hist, stack);
        let h = mid.0;
        let s = mid.1;
        let e = edges.last();
        assert(e == edges[edges.len() - 1]);
        assert(e.1 < n);
        if e.0 == cur {
            assert(cnt_from(edges, cur, e.1) == cnt_from(rest, cur, e.1) + 1);
            assert(h[e.1 as int] == hist[e.1 as int] - cnt_from(rest, cur, e.1));
            assert(h[e.1 as int] > 0);
            let h2 = h.update(e.1 as int, (h[e.1 as int] - 1) as nat);
            assert forall|v: usize|
                v < n implies h2[v as int] == hist[v as int] - cnt_from(edges, cur, v) by {
                if v != e.1 {
                    assert(cnt_from(edges, cur, v) == cnt_from(rest, cur, v));
                }
            }
            if h2[e.1 as int] == 0 {
                assert(!s.contains(e.1));
                lemma_push_no_dups(s, e.1);
                assert forall|x: usize|
                    #[trigger] s.push(e.1).contains(x) <==> (stack.contains(x) || (x < n && hist[x as int] > 0 && h2[x as int] == 0)) by {
                    lemma_push_contains(s, e.1, x);
                    if x != e.1 && x < n {
                        assert(h2[x as int] == h[x as int]);
                    } else if x == e.1 {
                        assert(hist[x as int] > 0);
                    }
                }
            } else {
                assert forall|x: usize|
                    #[trigger] s.contains(x) <==> (stack.contains(x) || (x < n && hist[x as int]
                        > 0 && h2[x as int] == 0)) by {
                    if x != e.1 && x < n {
                        assert(h2[x as int] == h[x as int]);
                    } else if x == e.1 {
                        assert(!s.contains(e.1));
                        assert(h2[e.1 as int] != 0);
                    }
                }
            }
        } else {
            assert forall|v: usize|
                v < n implies #[trigger] cnt_from(edges, cur, v) == cnt_from(rest, cur, v) by {}
        }
    }
}

/// The loop invariant of the elimination: the histogram tracks the pending
/// counts, the stack holds exactly the ready un-emitted nodes, and the
/// emitted order respects every discharged edge.
pub open spec fn kahn_inv(
    edges: Seq<(usize, usize)>,
    n: nat,
    hist: Seq<nat>,
    stack: Seq<usize>,
    order: Seq<usize>,
) -> bool {
    &&& n <= usize::MAX
    &&& hist.len() == n
    &&& edges_wf(edges, n)
    &&& stack.no_duplicates()
    &&& order.no_duplicates()
    &&& forall|x: usize| #[trigger] stack.contains(x) ==> x < n && !order.contains(x)
    &&& forall|k: int| 0 <= k < order.len() ==> (#[trigger] order[k]) < n
    &&& forall|v: usize| v < n ==> hist[v as int] == cnt_pending(edges, order, v)
    &&& forall|x: usize|
        stack.contains(x) || #[trigger] order.contains(x) ==> cnt_pending(edges, order, x) == 0
    &&& forall|v: usize|
        v < n && #[trigger] cnt_pending(edges, order, v) == 0 ==> (stack.contains(v)
            || order.contains(v))
    &&& forall|m: int, j: int|
        0 <= m < edges.len() && 0 <= j < order.len() && (#[trigger] edges[m]).1 == (
        #[trigger] order[j]) ==> exists|i: int| 0 <= i < j && order[i] == edges[m].0
    &&& forall|m: int|
        0 <= m < edges.len() && stack.contains((#[trigger] edges[m]).1) ==> order.contains(
            edges[m].0,
        )
}

/// What the emission order guarantees: indices in range, no repetitions,
/// every emitted node preceded by all its dependents, and every un-emitted
/// node stuck behind an un-emitted dependent.
pub open spec fn sort_props(edges: Seq<(usize, usize)>, n: nat, r: Seq<usize>) -> bool {
    &&& forall|k: int| 0 <= k < r.len() ==> (#[trigger] r[k]) < n
    &&& r.no_duplicates()
    &&& forall|m: int, j: int|
        0 <= m < edges.len() && 0 <= j < r.len() && (#[trigger] edges[m]).1 == (#[trigger] r[j])
            ==> exists|i: int| 0 <= i < j && r[i] == edges[m].0
    &&& forall|v: usize| v < n && !(#[trigger] r.contains(v)) ==> cnt_pending(edges, r, v) > 0
}

proof fn lemma_kahn_inv(
    edges: Seq<(usize, usize)>,
    n: nat,
    hist: Seq<nat>,
    stack: Seq<usize>,
    order: Seq<usize>,
)
    requires
        kahn_inv(edges, n, hist, stack, order),
    ensures
        sort_props(edges, n, kahn_loop(edges, hist, stack, order)),
    decreases stack.len() + sum_hist(hist),
{
    if stack.len() == 0 {
        let r = kahn_loop(edges, hist, stack, order);
        assert(r == order);
        assert forall|v: usize| v < n && !(#[trigger] r.contains(v)) implies cnt_pending(
            edges,
            r,
            v,
        ) > 0 by {
            assert(hist[v as int] == cnt_pending(edges, order, v));
            if cnt_pending(edges, order, v) == 0 {
                assert(stack.contains(v) || order.contains(v));
                assert(false);
            }
        }
    } else {
        let cur = stack.last();
        assert(stack[stack.len() - 1] == cur);
        assert(stack.contains(cur));
        let stack0 = stack.drop_last();
        lemma_drop_last_no_dups(stack);
        assert(forall|x: usize| #[trigger] stack0.contains(x) ==> stack.contains(x)) by {
            assert forall|x: usize| #[trigger] stack0.contains(x) implies stack.contains(x) by {
                let i = choose|i: int| 0 <= i < stack0.len() && stack0[i] == x;
                assert(stack[i] == x);
            }
        }
        assert forall|v: usize| v < n implies hist[v as int] >= cnt_from(edges, cur, v) by {
            lemma_cnt_from_le_pending(edges, order, cur, v);
        }
        lemma_process_chars(edges, cur, hist, stack0, n);
        let done = process_edges(edges, cur, hist, stack0);
        let h = done.0;
        let s = done.1;
        let order2 = order.push(cur);
        assert(order2[order.len() as int] == cur);
        assert(order2.contains(cur));
        lemma_push_no_dups(order, cur);
        assert(forall|k: int| 0 <= k < order.len() ==> order2[k] == (#[trigger] order[k]));

        assert forall|v: usize|
            v < n implies h[v as int] == cnt_pending(edges, order2, v) by {
            lemma_cnt_pending_push(edges, order, cur, v);
        }
        assert forall|x: usize| #[trigger] s.contains(x) implies x < n && !order2.contains(
            x,
        ) by {
            lemma_push_contains(order, cur, x);
            if stack0.contains(x) {
                assert(stack.contains(x));
                assert(!order.contains(x));
                assert(x != cur);
            } else {
                assert(x < n && hist[x as int] > 0 && h[x as int] == 0);
                if order.contains(x) {
                    assert(cnt_pending(edges, order, x) == 0);
                    assert(false);
                }
                if x == cur {
                    assert(cnt_pending(edges, order, cur) == 0);
                    assert(false);
                }
            }
        }
        assert forall|x: usize|
            s.contains(x) || #[trigger] order2.contains(x) implies cnt_pending(
            edges,
            order2,
            x,
        ) == 0 by {
            lemma_push_contains(order, cur, x);
            if s.contains(x) {
                assert(h[x as int] == 0);
            } else if order.contains(x) || x == cur {
                assert(cnt_pending(edges, order, x) == 0);
                lemma_cnt_pending_push(edges, order, cur, x);
            }
        }
        assert forall|v: usize|
            v < n && #[trigger] cnt_pending(edges, order2, v) == 0 implies (s.contains(v)
            || order2.contains(v)) by {
            lemma_push_contains(order, cur, v);
            assert(h[v as int] == 0);
            if hist[v as int] == 0 {
                assert(cnt_pending(edges, order, v) == 0);
                assert(stack.contains(v) || order.contains(v));
                if stack.contains(v) {
                    if v == cur {
                    } else {
                        let i = choose|i: int| 0 <= i < stack.len() && stack[i] == v;
                        assert(i < stack.len() - 1);
                        assert(stack0[i] == v);
                        assert(stack0.contains(v));
                        assert(s.contains(v));
                    }
                }
            } else {
                assert(s.contains(v));
            }
        }
        assert forall|m: int, j: int|
            0 <= m < edges.len() && 0 <= j < order2.len() && (#[trigger] edges[m]).1 == (
            #[trigger] order2[j]) implies exists|i: int| 0 <= i < j && order2[i] == edges[m].0 by {
            if j < order.len() {
                assert(order[j] == edges[m].1);
                let i = choose|i: int| 0 <= i < j && order[i] == edges[m].0;
                assert(order2[i] == edges[m].0);
            } else {
                assert(order2[j] == cur);
                assert(stack.contains(edges[m].1));
                assert(order.contains(edges[m].0));
                let i = choose|i: int| 0 <= i < order.len() && order[i] == edges[m].0;
                assert(order2[i] == edges[m].0);
            }
        }
        assert forall|m: int|
            0 <= m < edges.len() && s.contains((#[trigger] edges[m]).1) implies order2.contains(
            edges[m].0,
        ) by {
            let t = edges[m].1;
            if stack0.contains(t) {
                assert(stack.contains(t));
                assert(order.contains(edges[m].0));
                lemma_push_contains(order, cur, edges[m].0);
            } else {
                assert(h[t as int] == 0);
                assert(cnt_pending(edges, order2, t) == 0);
                if !order2.contains(edges[m].0) {
                    lemma_edge_target_pending(edges, order2, m);
                    assert(false);
                }
            }
        }
        assert(kahn_inv(edges, n, h, s, order2));
        lemma_process_measure(edges, cur, hist, stack0);
        lemma_kahn_inv(edges, n, h, s, order2);
        assert(kahn_loop(edges, hist, stack, order) == kahn_loop(edges, h, s, order2));
    }
}

proof fn lemma_init_stack_props(hist: Seq<nat>)
    requires
        hist.len() <= usize::MAX,
    ensures
        forall|x: usize|
            #[trigger] spec_init_stack(hist).contains(x) <==> (x < hist.len() && hist[x as int]
                == 0),
        spec_init_stack(hist).no_duplicates(),
    decreases hist.len(),
{
    if hist.len() > 0 {
        let rest = hist.drop_last();
        lemma_init_stack_props(rest);
        let prev = spec_init_stack(rest);
        let whole = spec_init_stack(hist);
        if hist.last() == 0 {
            assert(whole =~= prev.push((hist.len() - 1) as usize));
            assert(!prev.contains((hist.len() - 1) as usize));
            lemma_push_no_dups(prev, (hist.len() - 1) as usize);
            assert forall|x: usize|
                #[trigger] whole.contains(x) <==> (x < hist.len() && hist[x as int] == 0) by {
                lemma_push_contains(prev, (hist.len() - 1) as usize, x);
                if x < hist.len() - 1 {
                    assert(rest[x as int] == hist[x as int]);
                }
            }
        } else {
            assert(whole =~= prev);
            assert forall|x: usize|
                #[trigger] whole.contains(x) <==> (x < hist.len() && hist[x as int] == 0) by {
                if x < hist.len() - 1 {
                    assert(rest[x as int] == hist[x as int]);
                }
            }
        }
    }
}

/// The sorter's guarantees, over the emission order itself.
pub proof fn lemma_topo_order_props(edges: Seq<(usize, usize)>, n: nat)
    requires
        n <= usize::MAX,
        edges_wf(edges, n),
    ensures
        sort_props(edges, n, spec_topo_order(edges, n)),
{
    let hist = spec_init_hist(edges, n);
    let stack = spec_init_stack(hist);
    let order = Seq::<usize>::empty();
    assert(forall|v: usize| v < n ==> hist[v as int] == cnt_pending(edges, order, v));
    lemma_init_stack_props(hist);
    assert forall|x: usize| #[trigger] stack.contains(x) implies x < n && !order.contains(x) by {}
    assert forall|m: int|
        0 <= m < edges.len() && stack.contains((#[trigger] edges[m]).1) implies order.contains(
        edges[m].0,
    ) by {
        assert(cnt_pending(edges, order, edges[m].1) == 0);
        lemma_edge_target_pending(edges, order, m);
        assert(false);
    }
    assert(kahn_inv(edges, n, hist, stack, order));
    lemma_kahn_inv(edges, n, hist, stack, order);
}

} // verus!
