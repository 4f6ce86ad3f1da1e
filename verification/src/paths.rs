//! Operations on paths modelled as vectors of segments.

use vstd::prelude::*;
use vstd::string::*;
use crate::strutil::{join_slash, join_segments, str_eq};

verus! {

/// The manifest filename found at every crate root.
pub open spec fn manifest_name() -> Seq<char> {
    "Cargo.toml"@
}

/// `a` is a (segment-wise) prefix of `b`.
pub open spec fn is_seg_prefix(a: Seq<Seq<char>>, b: Seq<Seq<char>>) -> bool {
    a.len() <= b.len() && a == b.take(a.len() as int)
}

/// An absolute path carries a leading empty marker segment (so joining its
/// segments with `/` reproduces the leading slash).
pub open spec fn spec_is_abs(p: Seq<Seq<char>>) -> bool {
    p.len() > 0 && p[0] == Seq::<char>::empty()
}

/// Compares two segment paths for equality.
pub fn segs_eq(a: &Vec<String>, b: &Vec<String>) -> (r: bool)
    ensures
        r == (a.deep_view() == b.deep_view()),
{
    if a.len() != b.len() {
        proof {
            assert(a.deep_view().len() != b.deep_view().len());
        }
        return false;
    }
    let mut i: usize = 0;
    while i < a.len()
        invariant
            a.len() == b.len(),
            i <= a.len(),
            forall|k: int| 0 <= k < i ==> a.deep_view()[k] == b.deep_view()[k],
        decreases a.len() - i,
    {
        if !str_eq(a[i].as_str(), b[i].as_str()) {
            proof {
                let k = i as int;
                assert(a.deep_view()[k] == a@[k]@);
                assert(b.deep_view()[k] == b@[k]@);
                assert(a.deep_view() != b.deep_view());
            }
            return false;
        }
        i += 1;
    }
    proof {
        assert(a.deep_view() =~= b.deep_view());
    }
    true
}

/// The crate root of an entry-point file: the entry lives at
/// `<crate>/src/<entry file>`, so the two trailing segments are removed
/// (removing nothing once the path runs out).
pub open spec fn spec_entry_root(path: Seq<Seq<char>>) -> Seq<Seq<char>> {
    if path.len() >= 2 {
        path.take(path.len() - 2)
    } else if path.len() == 1 {
        path.take(0)
    } else {
        path
    }
}

/// Removes the two trailing segments below the crate root convention.
pub fn entry_root_directory(path: &Vec<String>) -> (r: Vec<String>)
    ensures
        r.deep_view() == spec_entry_root(path.deep_view()),
{
    let mut r: Vec<String> = Vec::new();
    let keep: usize = if path.len() >= 2 {
        path.len() - 2
    } else {
        0
    };
    let mut i: usize = 0;
    while i < keep
        invariant
            keep <= path.len(),
            i <= keep,
            r.deep_view() =~= path.deep_view().take(i as int),
        decreases keep - i,
    {
        let ghost prevd = r.deep_view();
        r.push(path[i].clone());
        proof {
            let k = i as int;
            assert(r.deep_view() =~= prevd.push(path@[k]@));
            assert(path.deep_view()[k] == path@[k]@);
            assert(path.deep_view().take(k + 1) =~= path.deep_view().take(k).push(path.deep_view()[k]));
            assert(r.deep_view() =~= path.deep_view().take(k + 1));
        }
        i += 1;
    }
    proof {
        assert(r.deep_view() =~= spec_entry_root(path.deep_view()));
    }
    r
}

/// The textual path of a crate's manifest file: the crate root joined with
/// `/`, with the manifest filename appended.
pub open spec fn spec_cargo_toml_path(path: Seq<Seq<char>>) -> Seq<char> {
    join_slash(path.push(manifest_name()))
}

/// Renders the manifest-file path of the crate rooted at `buf`.
pub fn get_cargo_toml_path(buf: &Vec<String>) -> (r: String)
    ensures
        r@ == spec_cargo_toml_path(buf.deep_view()),
{
    let mut segs: Vec<String> = Vec::new();
    let mut i: usize = 0;
    while i < buf.len()
        invariant
            i <= buf.len(),
            segs.deep_view() =~= buf.deep_view().take(i as int),
        decreases buf.len() - i,
    {
        let ghost prevd = segs.deep_view();
        segs.push(buf[i].clone());
        proof {
            let k = i as int;
            assert(segs.deep_view() =~= prevd.push(buf@[k]@));
            assert(buf.deep_view()[k] == buf@[k]@);
            assert(buf.deep_view().take(k + 1) =~= buf.deep_view().take(k).push(buf.deep_view()[k]));
            assert(segs.deep_view() =~= buf.deep_view().take(k + 1));
        }
        i += 1;
    }
    let ghost prevd = segs.deep_view();
    segs.push(String::from_str("Cargo.toml"));
    proof {
        assert(prevd =~= buf.deep_view());
        assert(segs.deep_view() =~= prevd.push("Cargo.toml"@));
        assert(segs.deep_view() =~= buf.deep_view().push(manifest_name()));
    }
    join_segments(&segs)
}

/// One step of lexical normalization of a relative segment path: `.` and
/// empty segments vanish, `..` removes the segment before it (when there is
/// one), anything else is kept.  An absolute path's leading marker segment
/// is not handled here: the dependency resolver holds it fixed and
/// normalizes only the tail, so `..` never climbs past the root.
pub open spec fn norm_step(acc: Seq<Seq<char>>, seg: Seq<char>) -> Seq<Seq<char>> {
    if seg == ""@ || seg == "."@ {
        acc
    } else if seg == ".."@ {
        if acc.len() > 0 {
            acc.drop_last()
        } else {
            acc
        }
    } else {
        acc.push(seg)
    }
}

/// Lexical normalization of a segment path, left to right.
pub open spec fn spec_normalize(segs: Seq<Seq<char>>) -> Seq<Seq<char>>
    decreases segs.len(),
{
    if segs.len() == 0 {
        Seq::empty()
    } else {
        norm_step(spec_normalize(segs.drop_last()), segs.last())
    }
}

/// Normalizes a relative segment path lexically, resolving `.` and `..`
/// segments and dropping empty ones.
pub fn normalize(segs: &Vec<String>) -> (r: Vec<String>)
    ensures
        r.deep_view() == spec_normalize(segs.deep_view()),
{
    let mut r: Vec<String> = Vec::new();
    let mut i: usize = 0;
    while i < segs.len()
        invariant
            i <= segs.len(),
            r.deep_view() =~= spec_normalize(segs.deep_view().take(i as int)),
        decreases segs.len() - i,
    {
        let s = &segs[i];
        if str_eq(s.as_str(), "") || str_eq(s.as_str(), ".") {
        } else if str_eq(s.as_str(), "..") {
            if r.len() > 0 {
                r.pop();
            }
        } else {
            r.push(s.clone());
        }
        proof {
            assert(segs.deep_view().take(i + 1).drop_last() =~= segs.deep_view().take(i as int));
            assert(segs.deep_view().take(i + 1).last() == segs.deep_view()[i as int]);
            assert(r.deep_view() =~= spec_normalize(segs.deep_view().take(i + 1)));
        }
        i += 1;
    }
    proof {
        assert(segs.deep_view().take(segs.len() as int) =~= segs.deep_view());
    }
    r
}

} // verus!
