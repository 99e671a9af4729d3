//! Paths as sequences of components.

use std::path::PathBuf;
use vstd::prelude::*;

verus! {

/// Declares `std::path::PathBuf`.
#[verifier::external_type_specification]
#[verifier::external_body]
pub struct ExPathBuf(std::path::PathBuf);

/// What a path holds: the segments of the path between separators, a drive prefix counting as
/// one, as lossy text.
pub uninterp spec fn components(path: PathBuf) -> Seq<Seq<char>>;

/// Whether `name` is one ordinary path component on every platform: not empty, not `.` or `..`,
/// and without separators or a drive letter's colon.
pub open spec fn is_plain_name(name: Seq<char>) -> bool {
    &&& name.len() > 0
    &&& !name.contains('/')
    &&& !name.contains('\\')
    &&& !name.contains(':')
    &&& name != seq!['.']
    &&& name != seq!['.', '.']
}

/// The path `dir/name`.
///
/// Trusted: `Path::join` adjoins a relative path to a directory, so that an ordinary name becomes
/// one more component behind those of the directory.
#[verifier::external_body]
pub(crate) fn join(dir: &PathBuf, name: &str) -> (path: PathBuf)
    requires
        is_plain_name(name@),
    ensures
        components(path) == components(*dir).push(name@),
{
    dir.join(name)
}

} // verus!
