//! File-system paths, carried through the library as opaque values.
use vstd::prelude::*;

verus! {

/// `std::path::PathBuf`, opaque: the library only stores paths, compares
/// them for identity in its contracts, and hands them back.
#[verifier::external_type_specification]
#[verifier::external_body]
pub struct ExPathBuf(std::path::PathBuf);

/// `Clone` for `PathBuf`: the contract claims that the copy is the same
/// path as the original.
pub assume_specification[ <std::path::PathBuf as Clone>::clone ](p: &std::path::PathBuf) -> (r:
    std::path::PathBuf)
    ensures
        r == *p,
;

} // verus!
