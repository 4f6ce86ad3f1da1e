//! The in-tree dependency graph of the library crates: nodes are indices
//! into the library list, and an edge `(from, to)` records that the library
//! at `from` names the library at `to` as a path dependency.

use vstd::prelude::*;
use vstd::string::*;
use crate::manifest::{manifest_dep_paths, read_manifest_dep_paths};
use crate::paths::{normalize, segs_eq, spec_is_abs, spec_normalize};
use crate::strutil::{split_on, split_slash, str_eq};
use crate::topo;

verus! {

/// Raised when a library's manifest cannot be parsed; the whole run stops,
/// since dependency resolution would be unreliable.
pub struct ManifestError {
    /// The index, in the library list, of the crate whose manifest failed.
    pub lib_index: usize,
}

/// A dependency path joined to its crate's root and normalized lexically.
/// An absolute root's leading marker segment is held fixed and only the
/// tail is normalized, so the result stays absolute and `..` never climbs
/// past the root.
pub open spec fn spec_resolve(lib: Seq<Seq<char>>, dep: Seq<char>) -> Seq<Seq<char>> {
    if spec_is_abs(lib) {
        seq![Seq::<char>::empty()] + spec_normalize(lib.skip(1) + split_on(dep, '/'))
    } else {
        spec_normalize(lib + split_on(dep, '/'))
    }
}

/// The first index in `libs` holding exactly the path `p`, if any.
pub open spec fn spec_find_lib(libs: Seq<Seq<Seq<char>>>, p: Seq<Seq<char>>) -> Option<int>
    decreases libs.len(),
{
    if libs.len() == 0 {
        None
    } else if libs[0] == p {
        Some(0int)
    } else {
        match spec_find_lib(libs.skip(1), p) {
            None => None,
            Some(j) => Some(j + 1),
        }
    }
}

pub proof fn lemma_find_lib_spec(libs: Seq<Seq<Seq<char>>>, p: Seq<Seq<char>>)
    ensures
        match spec_find_lib(libs, p) {
            Some(j) => 0 <= j < libs.len() && libs[j] == p && forall|k: int|
                0 <= k < j ==> libs[k] != p,
            None => forall|k: int| 0 <= k < libs.len() ==> libs[k] != p,
        },
    decreases libs.len(),
{
    if libs.len() > 0 && libs[0] != p {
        lemma_find_lib_spec(libs.skip(1), p);
        assert(forall|k: int| 0 <= k < libs.len() - 1 ==> libs.skip(1)[k] == libs[k + 1]);
        match spec_find_lib(libs.skip(1), p) {
            None => {
                assert forall|k: int| 0 <= k < libs.len() implies libs[k] != p by {
                    if k >= 1 {
                        assert(libs.skip(1)[k - 1] == libs[k]);
                    }
                }
            },
            Some(j) => {
                assert(libs.skip(1)[j] == libs[j + 1]);
                assert forall|k: int| 0 <= k < j + 1 implies libs[k] != p by {
                    if k >= 1 {
                        assert(libs.skip(1)[k - 1] == libs[k]);
                    }
                }
            },
        }
    }
}

/// The edges contributed by the first `k` dependency paths of the library at
/// index `i`: one edge per path that resolves to a known library root.
pub open spec fn spec_dep_edges(
    libs: Seq<Seq<Seq<char>>>,
    i: usize,
    deps: Seq<Option<Seq<char>>>,
) -> Seq<(usize, usize)>
    decreases deps.len(),
{
    if deps.len() == 0 {
        Seq::empty()
    } else {
        let init = spec_dep_edges(libs, i, deps.drop_last());
        match deps.last() {
            None => init,
            Some(p) => match spec_find_lib(libs, spec_resolve(libs[i as int], p)) {
                None => init,
                Some(j) => init.push((i, j as usize)),
            },
        }
    }
}

/// The edge list of the whole graph, over the first `n` libraries, assuming
/// every manifest parsed.
pub open spec fn spec_graph_edges(
    libs: Seq<Seq<Seq<char>>>,
    manifests: Seq<Seq<u8>>,
    n: int,
) -> Seq<(usize, usize)>
    decreases n,
{
    if n <= 0 {
        Seq::empty()
    } else {
        spec_graph_edges(libs, manifests, n - 1) + (match manifest_dep_paths(
            manifests[n - 1],
        ) {
            None => Seq::empty(),
            Some(deps) => spec_dep_edges(libs, (n - 1) as usize, deps),
        })
    }
}

/// The library list plus the directed dependency edges among its entries.
pub struct Graph {
    /// The library crate roots, in scan order.
    pub libs: Vec<Vec<String>>,
    /// Edges `(from, to)`: the library at `from` depends on the one at `to`.
    pub edges: Vec<(usize, usize)>,
}

impl Graph {
    /// Every edge points at library indices.
    pub open spec fn wf(&self) -> bool {
        forall|k: int|
            0 <= k < self.edges@.len() ==> (#[trigger] self.edges@[k]).0 < self.libs@.len()
                && self.edges@[k].1 < self.libs@.len()
    }

    /// Builds the dependency graph of `libs`, reading each library's
    /// dependency paths out of the matching entry of `manifests`.  Fails,
    /// naming the first offending library, exactly when some manifest does
    /// not parse; in that case nothing else is reported.
    pub fn from_libs(libs: Vec<Vec<String>>, manifests: &Vec<Vec<u8>>) -> (r: Result<
        Graph,
        ManifestError,
    >)
        requires
            manifests@.len() == libs@.len(),
        ensures
            match r {
                Ok(g) => {
                    &&& g.libs == libs
                    &&& g.wf()
                    &&& forall|k: int|
                        0 <= k < manifests@.len() ==> (#[trigger] manifest_dep_paths(
                            manifests.deep_view()[k],
                        )) is Some
                    &&& g.edges@ == spec_graph_edges(
                        libs.deep_view(),
                        manifests.deep_view(),
                        libs@.len() as int,
                    )
                },
                Err(e) => {
                    &&& e.lib_index < manifests@.len()
                    &&& manifest_dep_paths(manifests.deep_view()[e.lib_index as int]) is None
                    &&& forall|k: int|
                        0 <= k < e.lib_index ==> (#[trigger] manifest_dep_paths(
                            manifests.deep_view()[k],
                        )) is Some
                },
            },
    {
        let n = libs.len();
        let mut edges: Vec<(usize, usize)> = Vec::new();
        let mut i: usize = 0;
        while i < n
            invariant
                n == libs@.len(),
                manifests@.len() == n,
                i <= n,
                edges@ =~= spec_graph_edges(libs.deep_view(), manifests.deep_view(), i as int),
                forall|k: int|
                    0 <= k < i ==> (#[trigger] manifest_dep_paths(manifests.deep_view()[k]))
                        is Some,
                forall|k: int|
                    0 <= k < edges@.len() ==> (#[trigger] edges@[k]).0 < n && edges@[k].1 < n,
            decreases n - i,
        {
            proof {
                assert(manifests.deep_view()[i as int] == manifests@[i as int]@);
            }
            match read_manifest_dep_paths(manifests[i].as_slice()) {
                None => {
                    return Err(ManifestError { lib_index: i });
                },
                Some(paths) => {
                    let ghost deps = paths.deep_view();
                    let mut d: usize = 0;
                    while d < paths.len()
                        invariant
                            n == libs@.len(),
                            i < n,
                            d <= paths@.len(),
                            deps == paths.deep_view(),
                            manifest_dep_paths(manifests.deep_view()[i as int]) == Some(deps),
                            edges@ =~= spec_graph_edges(
                                libs.deep_view(),
                                manifests.deep_view(),
                                i as int,
                            ) + spec_dep_edges(libs.deep_view(), i, deps.take(d as int)),
                            forall|k: int|
                                0 <= k < edges@.len() ==> (#[trigger] edges@[k]).0 < n
                                    && edges@[k].1 < n,
                        decreases paths@.len() - d,
                    {
                        proof {
                            assert(deps.take(d + 1).drop_last() =~= deps.take(d as int));
                            assert(deps.take(d + 1).last() == deps[d as int]);
                            assert(deps[d as int] == paths@[d as int].deep_view());
                        }
                        match &paths[d] {
                            None => {},
                            Some(p) => {
                                let resolved = resolve_dep(&libs[i], p.as_str());
                                proof {
                                    assert(libs.deep_view()[i as int] == libs@[i as int].deep_view());
                                }
                                match find_lib(&libs, &resolved) {
                                    None => {},
                                    Some(j) => {
                                        edges.push((i, j));
                                    },
                                }
                            },
                        }
                        d += 1;
                    }
                    proof {
                        assert(deps.take(deps.len() as int) =~= deps);
                        assert(spec_graph_edges(libs.deep_view(), manifests.deep_view(), i + 1)
                            =~= spec_graph_edges(libs.deep_view(), manifests.deep_view(), i as int)
                            + spec_dep_edges(libs.deep_view(), i, deps));
                    }
                },
            }
            i += 1;
        }
        Ok(Graph { libs, edges })
    }

    /// Orders the libraries so that a library is emitted only after every
    /// library that depends on it; the caller reverses the result to obtain
    /// a dependencies-before-dependents build order.  Libraries caught in a
    /// dependency cycle never become ready and are silently left out.
    pub fn get_topologically_sorted_libs(&self) -> (r: Vec<Vec<String>>)
        requires
            self.wf(),
        ensures
            r.deep_view() == topo::spec_sorted_paths(
                self.libs.deep_view(),
                self.edges@,
            ),
    {
        let order = topo::topo_order(&self.edges, self.libs.len());
        let mut r: Vec<Vec<String>> = Vec::new();
        let mut i: usize = 0;
        while i < order.len()
            invariant
                order@ == topo::spec_topo_order(self.edges@, self.libs@.len() as nat),
                forall|k: int| 0 <= k < order@.len() ==> (#[trigger] order@[k]) < self.libs@.len(),
                i <= order@.len(),
                r.deep_view() =~= topo::spec_sorted_paths(
                    self.libs.deep_view(),
                    self.edges@,
                ).take(i as int),
            decreases order@.len() - i,
        {
            let ghost prevd = r.deep_view();
            r.push(self.libs[order[i]].clone());
            proof {
                let k = i as int;
                assert(r.deep_view() =~= prevd.push(self.libs@[order@[k] as int].deep_view()));
                assert(self.libs.deep_view()[order@[k] as int]
                    == self.libs@[order@[k] as int].deep_view());
                let all = topo::spec_sorted_paths(self.libs.deep_view(), self.edges@);
                assert(all.take(k + 1) =~= all.take(k).push(all[k]));
                assert(r.deep_view() =~= all.take(k + 1));
            }
            i += 1;
        }
        proof {
            let all = topo::spec_sorted_paths(self.libs.deep_view(), self.edges@);
            assert(all.take(all.len() as int) =~= all);
        }
        r
    }
}

/// Resolves one dependency path against its crate's root directory.
fn resolve_dep(lib: &Vec<String>, dep: &str) -> (r: Vec<String>)
    ensures
        r.deep_view() == spec_resolve(lib.deep_view(), dep@),
{
    let ghost libd = lib.deep_view();
    let is_abs = lib.len() > 0 && str_eq(lib[0].as_str(), "");
    proof {
        reveal_strlit("");
        assert(""@ =~= Seq::<char>::empty());
        if libd.len() > 0 {
            assert(libd[0] == lib@[0]@);
        }
        assert(is_abs == spec_is_abs(libd));
    }
    let start: usize = if is_abs {
        1
    } else {
        0
    };
    let mut joined: Vec<String> = Vec::new();
    let mut i: usize = start;
    while i < lib.len()
        invariant
            libd == lib.deep_view(),
            start <= i <= libd.len() || (start > libd.len() && i == start),
            start <= libd.len() ==> joined.deep_view() =~= libd.subrange(start as int, i as int),
            start > libd.len() ==> joined.deep_view() =~= Seq::<Seq<char>>::empty(),
        decreases lib.len() - i,
    {
        let ghost prevd = joined.deep_view();
        joined.push(lib[i].clone());
        proof {
            let k = i as int;
            assert(joined.deep_view() =~= prevd.push(lib@[k]@));
            assert(libd[k] == lib@[k]@);
            assert(libd.subrange(start as int, k + 1) =~= libd.subrange(start as int, k).push(
                libd[k],
            ));
        }
        i += 1;
    }
    proof {
        assert(joined.deep_view() =~= libd.skip(start as int));
    }
    let mut parts = split_slash(dep);
    let ghost joined0 = joined.deep_view();
    let mut j: usize = 0;
    while j < parts.len()
        invariant
            j <= parts@.len(),
            parts.deep_view() == split_on(dep@, '/'),
            joined.deep_view() =~= joined0 + parts.deep_view().take(j as int),
        decreases parts@.len() - j,
    {
        let ghost prevd = joined.deep_view();
        joined.push(parts[j].clone());
        proof {
            let k = j as int;
            assert(joined.deep_view() =~= prevd.push(parts@[k]@));
            assert(parts.deep_view()[k] == parts@[k]@);
            assert(joined0 + parts.deep_view().take(k + 1) =~= (joined0
                + parts.deep_view().take(k)).push(parts.deep_view()[k]));
        }
        j += 1;
    }
    proof {
        assert(parts.deep_view().take(parts@.len() as int) =~= parts.deep_view());
        assert(joined.deep_view() =~= libd.skip(start as int) + split_on(dep@, '/'));
    }
    let tail = normalize(&joined);
    if is_abs {
        let ghost taild = tail.deep_view();
        let mut r: Vec<String> = Vec::new();
        r.push(String::new());
        proof {
            assert(r.deep_view() =~= seq![Seq::<char>::empty()]);
        }
        let mut t: usize = 0;
        while t < tail.len()
            invariant
                t <= taild.len(),
                taild == tail.deep_view(),
                r.deep_view() =~= seq![Seq::<char>::empty()] + taild.take(t as int),
            decreases tail.len() - t,
        {
            let ghost prevd = r.deep_view();
            r.push(tail[t].clone());
            proof {
                let k = t as int;
                assert(r.deep_view() =~= prevd.push(tail@[k]@));
                assert(taild[k] == tail@[k]@);
                assert(seq![Seq::<char>::empty()] + taild.take(k + 1) =~= (seq![
                    Seq::<char>::empty(),
                ] + taild.take(k)).push(taild[k]));
            }
            t += 1;
        }
        proof {
            assert(taild.take(taild.len() as int) =~= taild);
            assert(r.deep_view() =~= spec_resolve(libd, dep@));
        }
        r
    } else {
        proof {
            assert(libd.skip(0) =~= libd);
            assert(tail.deep_view() == spec_resolve(libd, dep@));
        }
        tail
    }
}

/// Looks a resolved path up among the known library roots, returning the
/// first index whose root is exactly that path.
fn find_lib(libs: &Vec<Vec<String>>, p: &Vec<String>) -> (r: Option<usize>)
    ensures
        match r {
            Some(j) => j < libs@.len() && spec_find_lib(libs.deep_view(), p.deep_view())
                == Some(j as int),
            None => spec_find_lib(libs.deep_view(), p.deep_view()) is None,
        },
{
    let mut i: usize = 0;
    while i < libs.len()
        invariant
            i <= libs@.len(),
            forall|k: int| 0 <= k < i ==> libs.deep_view()[k] != p.deep_view(),
        decreases libs@.len() - i,
    {
        if segs_eq(&libs[i], p) {
            proof {
                lemma_find_lib_spec(libs.deep_view(), p.deep_view());
                assert(libs.deep_view().len() == libs@.len());
                assert(libs.deep_view()[i as int] == libs@[i as int].deep_view());
                match spec_find_lib(libs.deep_view(), p.deep_view()) {
                    None => {
                        assert(false);
                    },
                    Some(j) => {
                        if j < i {
                            assert(libs.deep_view()[j] == p.deep_view());
                            assert(false);
                        } else if j > i {
                            assert(false);
                        }
                    },
                }
            }
            return Some(i);
        }
        proof {
            assert(libs.deep_view()[i as int] == libs@[i as int].deep_view());
        }
        i += 1;
    }
    proof {
        lemma_find_lib_spec(libs.deep_view(), p.deep_view());
        assert(libs.deep_view().len() == libs@.len());
        match spec_find_lib(libs.deep_view(), p.deep_view()) {
            None => {},
            Some(j) => {
                assert(libs.deep_view()[j] != p.deep_view());
                assert(false);
            },
        }
    }
    None
}

} // verus!
