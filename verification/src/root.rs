//! Finding the `.cubil/` directory by walking upward.
use vstd::prelude::*;

use crate::error::CubilError;

verus! {

/// One step of the upward search for `.cubil/`, given whether the current
/// directory holds a `.cubil` directory and whether it has a parent:
/// `Ok(true)` when it is found here, `Ok(false)` to go on in the parent, and
/// [`CubilError::RootNotFound`] at the top of the file system.
pub fn root_step(found_here: bool, has_parent: bool) -> (r: Result<bool, CubilError>)
    ensures
        found_here ==> r matches Ok(true),
        !found_here && has_parent ==> r matches Ok(false),
        !found_here && !has_parent ==> r matches Err(CubilError::RootNotFound),
{
    if found_here {
        Ok(true)
    } else if has_parent {
        Ok(false)
    } else {
        Err(CubilError::RootNotFound)
    }
}

} // verus!
