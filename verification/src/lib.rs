//! Discover the crates inside a multi-crate source tree, order the libraries
//! by their in-tree path dependencies, and emit a multi-stage Dockerfile that
//! builds each crate as its own cached layer.
//!
//! Filesystem paths are modelled throughout as vectors of path segments
//! (`Vec<String>`); an absolute path carries a leading empty segment, so that
//! joining segments with `/` reproduces the textual path.

pub mod dockerfile;
pub mod graph;
pub mod laws;
pub mod manifest;
pub mod paths;
pub mod pipeline;
pub mod predicates;
pub mod scan;
pub mod sort_props;
pub mod strutil;
pub mod topo;
