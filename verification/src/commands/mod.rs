//! The commands of the `cubil` tool: what each decides, given what was read.
pub mod edit;
pub mod finish;
pub mod init;
pub mod list;
pub mod mv;
pub mod new;
pub mod roadmap;
pub mod start;

use std::path::PathBuf;
use vstd::prelude::*;

use crate::error::CubilError;
use crate::slug::{resolve_slug, statuses_of, with_slug, TaskEntry};

verus! {

/// Checks a move of task `slug` from status `expected` to status `target`:
/// the task must be found exactly once ([`CubilError::SlugNotFound`],
/// [`CubilError::SlugAmbiguous`]) and must be in `expected`
/// ([`CubilError::StatusMismatch`] otherwise). Returns the task's path and
/// the folder to move it to.
pub fn transition(entries: Vec<TaskEntry>, slug: &str, expected: &str, target: &str) -> (r: Result<(PathBuf, String), CubilError>)
    ensures
        ({
            let hits = with_slug(entries@, slug@);
            &&& hits.len() == 0 ==> (r matches Err(CubilError::SlugNotFound(s)) && s@ == slug@)
            &&& hits.len() > 1 ==> (r matches Err(CubilError::SlugAmbiguous { slug: s, statuses })
                && s@ == slug@ && crate::error::texts(statuses@) == statuses_of(hits))
            &&& hits.len() == 1 && hits[0].status@ == expected@ ==> (r matches Ok((p, t)) && p
                == hits[0].path && t@ == target@)
            &&& hits.len() == 1 && hits[0].status@ != expected@ ==> (r matches Err(
                CubilError::StatusMismatch { slug: s, expected: e, actual },
            ) && s@ == slug@ && e@ == expected@ && actual@ == hits[0].status@)
        }),
{
    let (current_status, current_path) = match resolve_slug(entries, slug) {
        Ok(found) => found,
        Err(e) => {
            return Err(e);
        },
    };
    if current_status != expected.to_owned() {
        return Err(
            CubilError::StatusMismatch {
                slug: slug.to_owned(),
                expected: expected.to_owned(),
                actual: current_status,
            },
        );
    }
    Ok((current_path, target.to_owned()))
}

} // verus!
