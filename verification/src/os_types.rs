//! std types that the library's data carries through unchanged.
use vstd::prelude::*;

verus! {

/// std's owned filesystem path; the library stores paths and hands them back
/// without looking inside.
#[verifier::external_type_specification]
#[verifier::external_body]
pub struct ExPathBuf(std::path::PathBuf);

/// std's `Clone` for `PathBuf`, used by the derived `Clone` of the types
/// that hold paths; nothing is claimed of the copy.
pub assume_specification[ <std::path::PathBuf as std::clone::Clone>::clone ](
    p: &std::path::PathBuf,
) -> std::path::PathBuf;

} // verus!
