//! Predicates that classify entries met while walking the source tree.
//!
//! The walk itself happens outside the library; these predicates are applied
//! to the plain file names and paths it reports.

use vstd::prelude::*;
use vstd::string::*;
use crate::strutil::str_eq;

verus! {

/// The filename that marks a directory as a library crate root.
pub open spec fn lib_entry_name() -> Seq<char> {
    "lib.rs"@
}

/// The filename that marks a directory as a binary crate root.
pub open spec fn bin_entry_name() -> Seq<char> {
    "main.rs"@
}

pub open spec fn spec_is_hidden(name: Seq<char>) -> bool {
    name.len() > 0 && name[0] == '.'
}

/// A file or directory name is hidden when it starts with a dot.
pub fn is_hidden(name: &str) -> (r: bool)
    ensures
        r == spec_is_hidden(name@),
{
    if name.unicode_len() == 0 {
        return false;
    }
    name.get_char(0) == '.'
}

pub open spec fn spec_is_entry_of_interest(name: Seq<char>) -> bool {
    name == bin_entry_name() || name == lib_entry_name()
}

/// A file name marks a crate entry point when it is exactly the binary-entry
/// or the library-entry filename.
pub fn is_entry_of_interest(name: &str) -> (r: bool)
    ensures
        r == spec_is_entry_of_interest(name@),
{
    str_eq(name, "main.rs") || str_eq(name, "lib.rs")
}

pub open spec fn spec_entry_predicate(is_file: bool, name: Seq<char>) -> bool {
    is_file && spec_is_entry_of_interest(name)
}

/// An entry is a crate entry point when it is a file with one of the two
/// entry filenames.
pub fn entry_predicate(is_file: bool, name: &str) -> (r: bool)
    ensures
        r == spec_entry_predicate(is_file, name@),
{
    is_file && is_entry_of_interest(name)
}

} // verus!
