//! Filesystem paths, which the library builds but never touches.

use std::path::PathBuf;
use vstd::prelude::*;

verus! {

/// `std::path::PathBuf`, carried through the library as an opaque value.
#[verifier::external_type_specification]
#[verifier::external_body]
pub struct ExPathBuf(PathBuf);

/// The path that `PathBuf::join` gives for `base` and the component `part`.
pub uninterp spec fn joined(base: PathBuf, part: Seq<char>) -> PathBuf;

/// `Path::join`: `base` with `part` adjoined. The result depends on the two arguments
/// alone; how it depends on them (separators, absolute parts) is left to the name `joined`.
#[verifier::external_body]
pub(crate) fn join_path(base: &PathBuf, part: &str) -> (r: PathBuf)
    ensures
        r == joined(*base, part@),
{
    base.join(part)
}

} // verus!
