//! Checks on the paths of a merge before anything is opened.
use vstd::prelude::*;

use crate::version::error::Error;

verus! {

/// Whether two paths name the same location, as `Path`'s `==` compares
/// them (component by component).
pub uninterp spec fn same_path(a: Seq<char>, b: Seq<char>) -> bool;

/// `Path::new(a) == Path::new(b)`: compares the paths component by
/// component; its result is named by `same_path`.
#[verifier::external_body]
fn path_eq(a: &str, b: &str) -> (r: bool)
    ensures
        r == same_path(a@, b@),
{
    std::path::Path::new(a) == std::path::Path::new(b)
}

/// Checks the paths of a merge, given which of them exist: the inputs must
/// differ, the output must be neither input, both inputs must exist and the
/// output must not. The first failed check decides the error.
pub fn validate_merge_paths(
    left: &str,
    right: &str,
    output: &str,
    left_exists: bool,
    right_exists: bool,
    output_exists: bool,
) -> (r: Result<(), Error>)
    ensures
        same_path(left@, right@) ==> (r matches Err(Error::InvalidInput(m)) && m@
            == "left and right databases must be different"@),
        !same_path(left@, right@) && (same_path(output@, left@) || same_path(output@, right@)) ==> (r matches Err(
            Error::OutputInputCollision,
        )),
        !same_path(left@, right@) && !same_path(output@, left@) && !same_path(output@, right@) ==> {
            &&& !left_exists ==> (r matches Err(Error::LeftDatabaseMissing(p)) && p@ == left@)
            &&& left_exists && !right_exists ==> (r matches Err(Error::RightDatabaseMissing(p)) && p@
                == right@)
            &&& left_exists && right_exists && output_exists ==> (r matches Err(Error::OutputExists(p))
                && p@ == output@)
            &&& left_exists && right_exists && !output_exists ==> r is Ok
        },
{
    if path_eq(left, right) {
        return Err(Error::InvalidInput("left and right databases must be different".to_owned()));
    }
    if path_eq(output, left) || path_eq(output, right) {
        return Err(Error::OutputInputCollision);
    }
    if !left_exists {
        return Err(Error::LeftDatabaseMissing(left.to_owned()));
    }
    if !right_exists {
        return Err(Error::RightDatabaseMissing(right.to_owned()));
    }
    if output_exists {
        return Err(Error::OutputExists(output.to_owned()));
    }
    Ok(())
}

} // verus!
