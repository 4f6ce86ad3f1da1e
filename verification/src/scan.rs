//! Classification of the entries met while walking the source tree into
//! library-crate roots and binary-crate roots.
//!
//! The filesystem walk itself happens outside the library; it reports each
//! entry as a plain record of its path segments and whether it is a file.

use vstd::prelude::*;
use vstd::string::*;
use crate::paths::{entry_root_directory, spec_entry_root};
use crate::predicates::{
    bin_entry_name, entry_predicate, is_hidden, lib_entry_name, spec_entry_predicate,
    spec_is_hidden,
};
use crate::strutil::str_eq;

verus! {

/// One entry reported by the directory walk.
pub struct ScanEntry {
    /// The entry's path, as segments, starting with the scan root's segments.
    pub path: Vec<String>,
    /// Whether the entry is a regular file.
    pub is_file: bool,
}

/// An entry counts as a crate entry point when it is a file named like an
/// entry file and no path component below the scan root is hidden.
pub open spec fn spec_qualifies(root_len: int, e: ScanEntry) -> bool {
    &&& e.path.deep_view().len() > 0
    &&& spec_entry_predicate(e.is_file, e.path.deep_view().last())
    &&& forall|k: int|
        root_len <= k < e.path.deep_view().len() ==> !spec_is_hidden(e.path.deep_view()[k])
}

/// The crate roots of the qualifying entries, in traversal order: the
/// library roots when `want_lib` holds, the binary roots otherwise.
pub open spec fn spec_scan(
    root: Seq<Seq<char>>,
    entries: Seq<ScanEntry>,
    want_lib: bool,
) -> Seq<Seq<Seq<char>>>
    decreases entries.len(),
{
    if entries.len() == 0 {
        Seq::empty()
    } else {
        let init = spec_scan(root, entries.drop_last(), want_lib);
        let e = entries.last();
        if spec_qualifies(root.len() as int, e) && ((e.path.deep_view().last()
            == lib_entry_name()) == want_lib) {
            init.push(spec_entry_root(e.path.deep_view()))
        } else {
            init
        }
    }
}

/// Decides whether one walked entry qualifies as a crate entry point.
fn qualifies(root_len: usize, e: &ScanEntry) -> (r: bool)
    ensures
        r == spec_qualifies(root_len as int, *e),
{
    if e.path.len() == 0 {
        return false;
    }
    let name = &e.path[e.path.len() - 1];
    proof {
        assert(e.path.deep_view().last() == e.path@[e.path@.len() - 1]@);
    }
    if !entry_predicate(e.is_file, name.as_str()) {
        return false;
    }
    let mut k: usize = root_len;
    while k < e.path.len()
        invariant
            root_len <= k,
            forall|j: int|
                root_len <= j < k && j < e.path.deep_view().len() ==> !spec_is_hidden(
                    e.path.deep_view()[j],
                ),
        decreases e.path.len() - k,
    {
        if is_hidden(e.path[k].as_str()) {
            proof {
                assert(e.path.deep_view()[k as int] == e.path@[k as int]@);
            }
            return false;
        }
        proof {
            assert(e.path.deep_view()[k as int] == e.path@[k as int]@);
        }
        k += 1;
    }
    true
}

/// Walks the reported entries in order and returns the library-crate roots
/// and the binary-crate roots, each as the entry-point file's directory with
/// the two trailing segments removed.
pub fn get_crate_libs_and_bins(root: &Vec<String>, entries: &Vec<ScanEntry>) -> (r: (
    Vec<Vec<String>>,
    Vec<Vec<String>>,
))
    ensures
        r.0.deep_view() == spec_scan(root.deep_view(), entries@, true),
        r.1.deep_view() == spec_scan(root.deep_view(), entries@, false),
{
    let mut libs: Vec<Vec<String>> = Vec::new();
    let mut bins: Vec<Vec<String>> = Vec::new();
    let root_len = root.len();
    let mut i: usize = 0;
    while i < entries.len()
        invariant
            root_len == root.deep_view().len(),
            i <= entries.len(),
            libs.deep_view() =~= spec_scan(root.deep_view(), entries@.take(i as int), true),
            bins.deep_view() =~= spec_scan(root.deep_view(), entries@.take(i as int), false),
        decreases entries.len() - i,
    {
        let e = &entries[i];
        proof {
            assert(entries@.take(i + 1).drop_last() =~= entries@.take(i as int));
            assert(entries@.take(i + 1).last() == entries@[i as int]);
        }
        if qualifies(root_len, e) {
            let name = &e.path[e.path.len() - 1];
            let root_dir = entry_root_directory(&e.path);
            proof {
                assert(e.path.deep_view().last() == e.path@[e.path@.len() - 1]@);
            }
            if str_eq(name.as_str(), "lib.rs") {
                let ghost prevd = libs.deep_view();
                libs.push(root_dir);
                proof {
                    assert(libs.deep_view() =~= prevd.push(spec_entry_root(e.path.deep_view())));
                }
            } else {
                let ghost prevd = bins.deep_view();
                bins.push(root_dir);
                proof {
                    assert(bins.deep_view() =~= prevd.push(spec_entry_root(e.path.deep_view())));
                }
            }
        }
        proof {
            assert(libs.deep_view() =~= spec_scan(root.deep_view(), entries@.take(i + 1), true));
            assert(bins.deep_view() =~= spec_scan(root.deep_view(), entries@.take(i + 1), false));
        }
        i += 1;
    }
    proof {
        assert(entries@.take(entries@.len() as int) =~= entries@);
    }
    (libs, bins)
}

} // verus!
