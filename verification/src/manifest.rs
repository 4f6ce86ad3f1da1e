//! The one place where the library leans on an outside crate: reading the
//! dependency paths out of a crate manifest.

use vstd::prelude::*;

verus! {

/// What reading the `[dependencies]` paths out of manifest bytes yields:
/// `None` when the bytes do not parse as a manifest; otherwise, for each
/// dependency entry in the table's name-sorted order, its `path` field when
/// the entry is given in detailed form with a path, and `None` for
/// version-only or inherited entries.
pub uninterp spec fn manifest_dep_paths(bytes: Seq<u8>) -> Option<Seq<Option<Seq<char>>>>;

/// Relies on `cargo_toml::Manifest::from_slice` to parse the manifest bytes
/// (returning `Err` exactly when they are not a well-formed manifest) and on
/// `cargo_toml::Dependency::detail` to expose a dependency's detailed form;
/// both are functions of the bytes alone, and `[dependencies]` is a map
/// sorted by dependency name, so the sequence of extracted paths is
/// determined by the bytes too.
#[verifier::external_body]
pub fn read_manifest_dep_paths(bytes: &[u8]) -> (r: Option<Vec<Option<String>>>)
    ensures
        r.deep_view() == manifest_dep_paths(bytes@),
{
    match cargo_toml::Manifest::from_slice(bytes) {
        Ok(m) => Some(
            m.dependencies.values().map(|d| d.detail().and_then(|t| t.path.clone())).collect(),
        ),
        Err(_) => None,
    }
}

} // verus!
