//! The whole run as one function of its inputs: scan results and manifest
//! bytes in, script text out.  Stating the run this way pins down that it is
//! deterministic: the output is a mathematical function of the walked
//! entries, the manifest bytes and the configuration.

use vstd::prelude::*;
use vstd::string::*;
use crate::dockerfile::{generate_dockerfile, spec_dockerfile, Cli};
use crate::graph::{spec_graph_edges, Graph, ManifestError};
use crate::manifest::manifest_dep_paths;
use crate::paths::is_seg_prefix;
use crate::scan::{get_crate_libs_and_bins, spec_scan, ScanEntry};
use crate::topo::spec_sorted_paths;

verus! {

/// Every manifest of the run parses.
pub open spec fn spec_all_manifests_parse(manifests: Seq<Seq<u8>>) -> bool {
    forall|k: int| 0 <= k < manifests.len() ==> (#[trigger] manifest_dep_paths(manifests[k])) is Some
}

/// The library build order of the run: the sorter's emission order over the
/// dependency graph, reversed, so dependencies come before dependents.
pub open spec fn spec_build_order(
    libs: Seq<Seq<Seq<char>>>,
    manifests: Seq<Seq<u8>>,
) -> Seq<Seq<Seq<char>>> {
    spec_sorted_paths(libs, spec_graph_edges(libs, manifests, libs.len() as int)).reverse()
}

/// The script text of the whole run, when every manifest parses.
pub open spec fn spec_pipeline(
    root: Seq<Seq<char>>,
    entries: Seq<ScanEntry>,
    manifests: Seq<Seq<u8>>,
    builder: Seq<char>,
    runner: Option<Seq<char>>,
    app_path: Seq<char>,
    user: Seq<char>,
    cmd: Option<Seq<char>>,
    entry: Option<Seq<char>>,
) -> Seq<char> {
    let libs = spec_scan(root, entries, true);
    let bins = spec_scan(root, entries, false);
    spec_dockerfile(
        root,
        builder,
        runner,
        app_path,
        user,
        cmd,
        entry,
        spec_build_order(libs, manifests),
        bins,
    )
}

/// Runs the whole pipeline on the walked entries: classify the crates,
/// build the dependency graph from the manifest bytes (one entry per
/// discovered library, in scan order), sort, reverse, and emit the script.
/// Fails, naming the first offending library, exactly when one of the
/// manifests does not parse.
pub fn run_pipeline(
    root_dir: &Vec<String>,
    entries: &Vec<ScanEntry>,
    manifests: &Vec<Vec<u8>>,
    cli: &Cli,
) -> (r: Result<String, ManifestError>)
    requires
        root_dir.deep_view().len() >= 1,
        manifests@.len() == spec_scan(root_dir.deep_view(), entries@, true).len(),
        forall|k: int|
            0 <= k < spec_scan(root_dir.deep_view(), entries@, true).len() ==> is_seg_prefix(
                root_dir.deep_view(),
                #[trigger] spec_scan(root_dir.deep_view(), entries@, true)[k],
            ),
        forall|k: int|
            0 <= k < spec_scan(root_dir.deep_view(), entries@, false).len() ==> is_seg_prefix(
                root_dir.deep_view(),
                #[trigger] spec_scan(root_dir.deep_view(), entries@, false)[k],
            ),
    ensures
        match r {
            Ok(s) => spec_all_manifests_parse(manifests.deep_view()) && s@ == spec_pipeline(
                root_dir.deep_view(),
                entries@,
                manifests.deep_view(),
                cli.builder_image@,
                cli.runner_image.deep_view(),
                cli.app_path@,
                cli.user@,
                cli.cmd.deep_view(),
                cli.entrypoint.deep_view(),
            ),
            Err(e) => {
                &&& e.lib_index < manifests@.len()
                &&& manifest_dep_paths(manifests.deep_view()[e.lib_index as int]) is None
                &&& forall|k: int|
                    0 <= k < e.lib_index ==> (#[trigger] manifest_dep_paths(
                        manifests.deep_view()[k],
                    )) is Some
            },
        },
{
    let ghost rootd = root_dir.deep_view();
    let scanned = get_crate_libs_and_bins(root_dir, entries);
    let libs = scanned.0;
    let bins = scanned.1;
    let graph = match Graph::from_libs(libs, manifests) {
        Ok(g) => g,
        Err(e) => {
            return Err(e);
        },
    };
    let sorted = graph.get_topologically_sorted_libs();
    let mut build_order: Vec<Vec<String>> = Vec::new();
    let mut i: usize = sorted.len();
    while i > 0
        invariant
            i <= sorted@.len(),
            build_order.deep_view() =~= sorted.deep_view().skip(i as int).reverse(),
        decreases i,
    {
        i = i - 1;
        let ghost prevd = build_order.deep_view();
        build_order.push(sorted[i].clone());
        proof {
            assert(build_order.deep_view() =~= prevd.push(sorted@[i as int].deep_view()));
            assert(sorted.deep_view()[i as int] == sorted@[i as int].deep_view());
            assert(build_order.deep_view() =~= sorted.deep_view().skip(i as int).reverse());
        }
    }
    proof {
        assert(build_order.deep_view() =~= sorted.deep_view().reverse());
        let libsd = spec_scan(rootd, entries@, true);
        assert(build_order.deep_view() == spec_build_order(libsd, manifests.deep_view()));
        assert forall|k: int|
            0 <= k < build_order.deep_view().len() implies is_seg_prefix(
            rootd,
            #[trigger] build_order.deep_view()[k],
        ) by {
            let edgesd = spec_graph_edges(libsd, manifests.deep_view(), libsd.len() as int);
            assert(libsd.len() == manifests@.len());
            assert(vstd::std_specs::vec::spec_vec_len(manifests) == manifests@.len());
            crate::sort_props::lemma_topo_order_props(edgesd, libsd.len() as nat);
            let ord = crate::topo::spec_topo_order(edgesd, libsd.len() as nat);
            let srt = sorted.deep_view();
            let kk = srt.len() - 1 - k;
            assert(build_order.deep_view()[k] == srt[kk]);
            assert(srt[kk] == libsd[ord[kk] as int]);
            assert(is_seg_prefix(rootd, libsd[ord[kk] as int]));
        }
    }
    let contents = generate_dockerfile(root_dir, cli, &build_order, &bins);
    Ok(contents)
}

/// Re-running the pipeline on an unchanged tree with identical
/// configuration yields byte-identical script text: the output is a
/// function of the walked entries, the manifest bytes and the
/// configuration, and of nothing else.
pub proof fn lemma_pipeline_deterministic(
    root1: Seq<Seq<char>>,
    entries1: Seq<ScanEntry>,
    manifests1: Seq<Seq<u8>>,
    builder1: Seq<char>,
    runner1: Option<Seq<char>>,
    app_path1: Seq<char>,
    user1: Seq<char>,
    cmd1: Option<Seq<char>>,
    entry1: Option<Seq<char>>,
    root2: Seq<Seq<char>>,
    entries2: Seq<ScanEntry>,
    manifests2: Seq<Seq<u8>>,
    builder2: Seq<char>,
    runner2: Option<Seq<char>>,
    app_path2: Seq<char>,
    user2: Seq<char>,
    cmd2: Option<Seq<char>>,
    entry2: Option<Seq<char>>,
)
    requires
        root1 == root2,
        entries1 == entries2,
        manifests1 == manifests2,
        builder1 == builder2,
        runner1 == runner2,
        app_path1 == app_path2,
        user1 == user2,
        cmd1 == cmd2,
        entry1 == entry2,
    ensures
        spec_pipeline(root1, entries1, manifests1, builder1, runner1, app_path1, user1, cmd1,
        entry1) == spec_pipeline(root2, entries2, manifests2, builder2, runner2, app_path2, user2,
        cmd2, entry2),
{
}

} // verus!
