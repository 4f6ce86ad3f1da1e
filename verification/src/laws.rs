//! The ordering guarantees of the whole pipeline, proved once and for all:
//! on an acyclic graph the sorter emits every library, the reversed order
//! places every library before everything that transitively depends on it,
//! and the reversed order opens with a library that depends on nothing.

use vstd::prelude::*;
use vstd::seq_lib::*;
use vstd::set_lib::*;
use crate::sort_props::lemma_topo_order_props;
use crate::topo::{cnt_pending, edges_wf, spec_topo_order};

verus! {

/// Some edge of `edges` runs from `a` to `b`.
pub open spec fn spec_has_edge(edges: Seq<(usize, usize)>, a: usize, b: usize) -> bool {
    exists|m: int| 0 <= m < edges.len() && (#[trigger] edges[m]).0 == a && edges[m].1 == b
}

/// `p` walks along edges of the graph.
pub open spec fn spec_is_chain(edges: Seq<(usize, usize)>, p: Seq<usize>) -> bool {
    p.len() >= 1 && forall|k: int|
        0 <= k < p.len() - 1 ==> spec_has_edge(edges, #[trigger] p[k], p[k + 1])
}

/// No walk returns to its starting point.
pub open spec fn spec_acyclic(edges: Seq<(usize, usize)>) -> bool {
    forall|p: Seq<usize>|
        !(#[trigger] spec_is_chain(edges, p) && p.len() >= 2 && p.first() == p.last())
}

/// `a` depends on `b`, directly or through other libraries.
pub open spec fn spec_depends_on(edges: Seq<(usize, usize)>, a: usize, b: usize) -> bool {
    exists|p: Seq<usize>|
        #[trigger] spec_is_chain(edges, p) && p.len() >= 2 && p.first() == a && p.last() == b
}

/// From an un-emitted node, a chain of un-emitted nodes of any requested
/// length can be walked backwards along pending edges.
proof fn lemma_build_chain(
    edges: Seq<(usize, usize)>,
    n: nat,
    r: Seq<usize>,
    v: usize,
    len: nat,
)
    requires
        edges_wf(edges, n),
        forall|u: usize| u < n && !(#[trigger] r.contains(u)) ==> cnt_pending(edges, r, u) > 0,
        v < n,
        !r.contains(v),
        len >= 1,
    ensures
        exists|p: Seq<usize>|
            #[trigger] spec_is_chain(edges, p) && p.len() == len && p.last() == v && forall|k: int|
                0 <= k < p.len() ==> p[k] < n && !r.contains(#[trigger] p[k]),
    decreases len,
{
    if len == 1 {
        let p = seq![v];
        assert(spec_is_chain(edges, p));
        assert(p.last() == v);
        assert(forall|k: int| 0 <= k < p.len() ==> p[k] < n && !r.contains(#[trigger] p[k]));
    } else {
        lemma_build_chain(edges, n, r, v, (len - 1) as nat);
        let p = choose|p: Seq<usize>|
            #[trigger] spec_is_chain(edges, p) && p.len() == len - 1 && p.last() == v && forall|
                k: int,
            | 0 <= k < p.len() ==> p[k] < n && !r.contains(#[trigger] p[k]);
        let front = p.first();
        assert(cnt_pending(edges, r, front) > 0);
        crate::sort_props::lemma_pending_edge_exists(edges, r, front);
        let m = choose|m: int|
            0 <= m < edges.len() && (#[trigger] edges[m]).1 == front && !r.contains(edges[m].0);
        let f = edges[m].0;
        let p2 = seq![f] + p;
        assert(p2.len() == len);
        assert(p2[0] == f);
        assert(forall|k: int| 1 <= k < p2.len() ==> p2[k] == p[k - 1]);
        assert(p2.last() == v);
        assert forall|k: int| 0 <= k < p2.len() - 1 implies spec_has_edge(
            edges,
            #[trigger] p2[k],
            p2[k + 1],
        ) by {
            if k == 0 {
                assert(edges[m].0 == f && edges[m].1 == front);
                assert(p2[1] == p[0] == front);
            } else {
                assert(spec_has_edge(edges, p[k - 1], p[k]));
            }
        }
        assert(spec_is_chain(edges, p2));
        assert(forall|k: int| 0 <= k < p2.len() ==> p2[k] < n && !r.contains(#[trigger] p2[k]));
    }
}

/// A sequence of more than `n` values below `n` repeats one of them.
proof fn lemma_pigeonhole(p: Seq<usize>, n: nat)
    requires
        forall|k: int| 0 <= k < p.len() ==> (#[trigger] p[k]) < n,
        p.len() > n,
    ensures
        exists|i: int, j: int| 0 <= i < j < p.len() && p[i] == p[j],
{
    if forall|i: int, j: int| 0 <= i < j < p.len() ==> (#[trigger] p[i]) != (#[trigger] p[j]) {
        assert(p.no_duplicates());
        let ints = p.map_values(|v: usize| v as int);
        assert(ints.no_duplicates()) by {
            assert forall|i: int, j: int|
                0 <= i < ints.len() && 0 <= j < ints.len() && i != j implies ints[i]
                != ints[j] by {
                assert(p[i] != p[j]);
            }
        }
        ints.unique_seq_to_set();
        let range = set_int_range(0, n as int);
        lemma_int_range(0, n as int);
        assert(ints.to_set().subset_of(range)) by {
            assert forall|x: int| ints.to_set().contains(x) implies range.contains(x) by {
                let k = choose|k: int| 0 <= k < ints.len() && ints[k] == x;
                assert(p[k] < n);
            }
        }
        lemma_len_subset(ints.to_set(), range);
        assert(ints.to_set().len() <= n);
        assert(false);
    }
}

/// On an acyclic graph the sorter emits every library: nothing is silently
/// dropped.
pub proof fn lemma_acyclic_complete(edges: Seq<(usize, usize)>, n: nat)
    requires
        n <= usize::MAX,
        edges_wf(edges, n),
        spec_acyclic(edges),
    ensures
        forall|v: usize| v < n ==> #[trigger] spec_topo_order(edges, n).contains(v),
{
    lemma_topo_order_props(edges, n);
    let r = spec_topo_order(edges, n);
    assert forall|v: usize| v < n implies #[trigger] r.contains(v) by {
        if !r.contains(v) {
            lemma_build_chain(edges, n, r, v, n + 1);
            let p = choose|p: Seq<usize>|
                #[trigger] spec_is_chain(edges, p) && p.len() == n + 1 && p.last() == v && forall|
                    k: int,
                | 0 <= k < p.len() ==> p[k] < n && !r.contains(#[trigger] p[k]);
            lemma_pigeonhole(p, n);
            let (i, j) = choose|i: int, j: int| 0 <= i < j < p.len() && p[i] == p[j];
            let c = p.subrange(i, j + 1);
            assert(c.len() >= 2);
            assert(c.first() == p[i] && c.last() == p[j]);
            assert forall|k: int| 0 <= k < c.len() - 1 implies spec_has_edge(
                edges,
                #[trigger] c[k],
                c[k + 1],
            ) by {
                assert(c[k] == p[i + k] && c[k + 1] == p[i + k + 1]);
                assert(spec_has_edge(edges, p[i + k], p[i + k + 1]));
            }
            assert(spec_is_chain(edges, c));
            assert(false);
        }
    }
}

/// In the sorter's reversed output, every library stands before every
/// library that transitively depends on it (under the acyclicity
/// precondition): whenever `a` depends on `b`, `b`'s position in the
/// reversed order lies before `a`'s.
pub proof fn lemma_reversed_order_respects_dependencies(
    edges: Seq<(usize, usize)>,
    n: nat,
    a: usize,
    b: usize,
)
    requires
        n <= usize::MAX,
        edges_wf(edges, n),
        spec_acyclic(edges),
        a < n,
        b < n,
        spec_depends_on(edges, a, b),
    ensures
        spec_topo_order(edges, n).reverse().contains(a),
        spec_topo_order(edges, n).reverse().contains(b),
        forall|ia: int, ib: int|
            #![trigger spec_topo_order(edges, n).reverse()[ia], spec_topo_order(edges, n).reverse()[ib]]
            0 <= ia < spec_topo_order(edges, n).reverse().len() && 0 <= ib < spec_topo_order(
                edges,
                n,
            ).reverse().len() && spec_topo_order(edges, n).reverse()[ia] == a && spec_topo_order(
                edges,
                n,
            ).reverse()[ib] == b ==> ib < ia,
{
    lemma_topo_order_props(edges, n);
    lemma_acyclic_complete(edges, n);
    let r = spec_topo_order(edges, n);
    let p = choose|p: Seq<usize>|
        #[trigger] spec_is_chain(edges, p) && p.len() >= 2 && p.first() == a && p.last() == b;
    lemma_chain_positions(edges, n, p);
    let rev = r.reverse();
    assert(r.contains(a));
    let ja = choose|j: int| 0 <= j < r.len() && r[j] == a;
    assert(rev[r.len() - 1 - ja] == a);
    assert(rev.contains(a));
    assert(r.contains(b));
    let jb = choose|j: int| 0 <= j < r.len() && r[j] == b;
    assert(rev[r.len() - 1 - jb] == b);
    assert(rev.contains(b));
    assert forall|ia: int, ib: int|
        0 <= ia < rev.len() && 0 <= ib < rev.len() && rev[ia] == a && rev[ib] == b implies ib
        < ia by {
        assert(r[r.len() - 1 - ia] == a);
        assert(r[r.len() - 1 - ib] == b);
    }
}

/// Along any chain, emission positions strictly increase: each node of the
/// chain is emitted before the next one.
proof fn lemma_chain_positions(edges: Seq<(usize, usize)>, n: nat, p: Seq<usize>)
    requires
        n <= usize::MAX,
        edges_wf(edges, n),
        spec_acyclic(edges),
        spec_is_chain(edges, p),
        p.len() >= 1,
        forall|k: int| 0 <= k < p.len() ==> (#[trigger] p[k]) < n,
    ensures
        forall|ia: int, ib: int|
            #![trigger spec_topo_order(edges, n)[ia], spec_topo_order(edges, n)[ib]]
            0 <= ia < spec_topo_order(edges, n).len() && 0 <= ib < spec_topo_order(edges, n).len()
                && spec_topo_order(edges, n)[ia] == p.first() && spec_topo_order(edges, n)[ib]
                == p.last() && p.len() >= 2 ==> ia < ib,
    decreases p.len(),
{
    lemma_topo_order_props(edges, n);
    lemma_acyclic_complete(edges, n);
    let r = spec_topo_order(edges, n);
    if p.len() >= 2 {
        let q = p.drop_last();
        assert(forall|k: int| 0 <= k < q.len() ==> q[k] == p[k]);
        assert(spec_is_chain(edges, q)) by {
            assert forall|k: int| 0 <= k < q.len() - 1 implies spec_has_edge(
                edges,
                #[trigger] q[k],
                q[k + 1],
            ) by {
                assert(spec_has_edge(edges, p[k], p[k + 1]));
            }
        }
        lemma_chain_positions(edges, n, q);
        let x = q.last();
        let y = p.last();
        assert(spec_has_edge(edges, p[p.len() - 2], p[p.len() - 1]));
        let m = choose|m: int|
            0 <= m < edges.len() && (#[trigger] edges[m]).0 == x && edges[m].1 == y;
        assert forall|ia: int, ib: int|
            0 <= ia < r.len() && 0 <= ib < r.len() && r[ia] == p.first() && r[ib] == p.last()
                && p.len() >= 2 implies ia < ib by {
            assert(r.contains(x));
            let jx = choose|j: int| 0 <= j < r.len() && r[j] == x;
            assert(r[jx] == x);
            assert(edges[m].1 == r[ib]);
            let i0 = choose|i: int| 0 <= i < ib && r[i] == edges[m].0;
            assert(r[i0] == x);
            assert(i0 == jx) by {
                if i0 != jx {
                    assert(r[i0] != r[jx]);
                    assert(false);
                }
            }
            if q.len() >= 2 {
                assert(r[ia] == q.first());
                assert(ia < jx);
            } else {
                assert(p.first() == x);
                assert(ia == jx) by {
                    if ia != jx {
                        assert(r[ia] != r[jx]);
                        assert(false);
                    }
                }
            }
        }
    }
}

/// The first library of the reversed sorted order depends on nothing: no
/// edge leaves it (under the acyclicity precondition, with at least one
/// library present).
pub proof fn lemma_reversed_order_first_has_no_deps(edges: Seq<(usize, usize)>, n: nat)
    requires
        0 < n <= usize::MAX,
        edges_wf(edges, n),
        spec_acyclic(edges),
    ensures
        spec_topo_order(edges, n).len() > 0,
        forall|m: int|
            0 <= m < edges.len() ==> (#[trigger] edges[m]).0 != spec_topo_order(
                edges,
                n,
            ).reverse().first(),
{
    lemma_topo_order_props(edges, n);
    lemma_acyclic_complete(edges, n);
    let r = spec_topo_order(edges, n);
    assert(r.contains(0usize));
    assert(r.len() > 0);
    let last = r[r.len() - 1];
    assert(r.reverse().first() == last);
    assert forall|m: int| 0 <= m < edges.len() implies (#[trigger] edges[m]).0 != last by {
        if edges[m].0 == last {
            let t = edges[m].1;
            assert(t < n);
            assert(r.contains(t));
            let jt = choose|j: int| 0 <= j < r.len() && r[j] == t;
            assert(r[jt] == edges[m].1);
            let i0 = choose|i: int| 0 <= i < jt && r[i] == edges[m].0;
            assert(r[i0] == last && r[r.len() - 1] == last);
            assert(i0 == r.len() - 1) by {
                if i0 != r.len() - 1 {
                    assert(r[i0] != r[r.len() - 1]);
                    assert(false);
                }
            }
            assert(false);
        }
    }
}

} // verus!
