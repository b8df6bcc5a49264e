//! `cubil mv`: move a task to another status folder.
use std::path::PathBuf;
use vstd::prelude::*;

use crate::error::CubilError;
use crate::slug::{resolve_slug, statuses_of, with_slug, TaskEntry};

verus! {

/// Finds task `slug` for a move to `status`: `None` when it is already
/// there (nothing to do), else its current path. Errors as
/// [`resolve_slug`] does when the slug is missing or ambiguous.
pub fn plan(entries: Vec<TaskEntry>, slug: &str, status: &str) -> (r: Result<Option<PathBuf>, CubilError>)
    ensures
        ({
            let hits = with_slug(entries@, slug@);
            &&& hits.len() == 0 ==> (r matches Err(CubilError::SlugNotFound(s)) && s@ == slug@)
            &&& hits.len() > 1 ==> (r matches Err(CubilError::SlugAmbiguous { slug: s, statuses })
                && s@ == slug@ && crate::error::texts(statuses@) == statuses_of(hits))
            &&& hits.len() == 1 && hits[0].status@ == status@ ==> (r matches Ok(None))
            &&& hits.len() == 1 && hits[0].status@ != status@ ==> (r matches Ok(Some(p)) && p
                == hits[0].path)
        }),
{
    let (current_status, current_path) = match resolve_slug(entries, slug) {
        Ok(found) => found,
        Err(e) => {
            return Err(e);
        },
    };
    if current_status == status.to_owned() {
        return Ok(None);
    }
    Ok(Some(current_path))
}

/// Checks the destination of a move of `slug` into `status`, given whether
/// the folder exists and whether a file of that name is already in it:
/// users create status folders themselves
/// ([`CubilError::StatusMissing`]), and a move never overwrites
/// ([`CubilError::SlugCollision`]).
pub fn check_destination(slug: &str, status: &str, dir_exists: bool, file_exists: bool) -> (r: Result<(), CubilError>)
    ensures
        !dir_exists ==> (r matches Err(CubilError::StatusMissing(s)) && s@ == status@),
        dir_exists && file_exists ==> (r matches Err(CubilError::SlugCollision { slug: s, status: t })
            && s@ == slug@ && t@ == status@),
        dir_exists && !file_exists ==> r is Ok,
{
    if !dir_exists {
        return Err(CubilError::StatusMissing(status.to_owned()));
    }
    if file_exists {
        return Err(CubilError::SlugCollision { slug: slug.to_owned(), status: status.to_owned() });
    }
    Ok(())
}

} // verus!
