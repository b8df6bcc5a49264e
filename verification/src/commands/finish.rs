//! `cubil finish`: move a task from `doing/` to `done/`.
use std::path::PathBuf;
use vstd::prelude::*;

use crate::commands::transition;
use crate::error::CubilError;
use crate::slug::{statuses_of, with_slug, TaskEntry};

verus! {

/// Checks that task `slug` can move from `doing/` to `done/`; returns
/// its path and `"done"`.
pub fn run(entries: Vec<TaskEntry>, slug: &str) -> (r: Result<(PathBuf, String), CubilError>)
    ensures
        ({
            let hits = with_slug(entries@, slug@);
            &&& hits.len() == 0 ==> (r matches Err(CubilError::SlugNotFound(s)) && s@ == slug@)
            &&& hits.len() > 1 ==> (r matches Err(CubilError::SlugAmbiguous { slug: s, statuses })
                && s@ == slug@ && crate::error::texts(statuses@) == statuses_of(hits))
            &&& hits.len() == 1 && hits[0].status@ == "doing"@ ==> (r matches Ok((p, t)) && p
                == hits[0].path && t@ == "done"@)
            &&& hits.len() == 1 && hits[0].status@ != "doing"@ ==> (r matches Err(
                CubilError::StatusMismatch { slug: s, expected: e, actual },
            ) && s@ == slug@ && e@ == "doing"@ && actual@ == hits[0].status@)
        }),
{
    transition(entries, slug, "doing", "done")
}

} // verus!
