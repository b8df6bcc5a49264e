//! `cubil start`: move a task from `backlog/` to `doing/`.
use std::path::PathBuf;
use vstd::prelude::*;

use crate::commands::transition;
use crate::error::CubilError;
use crate::slug::{statuses_of, with_slug, TaskEntry};

verus! {

/// Checks that task `slug` can move from `backlog/` to `doing/`; returns
/// its path and `"doing"`.
pub fn run(entries: Vec<TaskEntry>, slug: &str) -> (r: Result<(PathBuf, String), CubilError>)
    ensures
        ({
            let hits = with_slug(entries@, slug@);
            &&& hits.len() == 0 ==> (r matches Err(CubilError::SlugNotFound(s)) && s@ == slug@)
            &&& hits.len() > 1 ==> (r matches Err(CubilError::SlugAmbiguous { slug: s, statuses })
                && s@ == slug@ && crate::error::texts(statuses@) == statuses_of(hits))
            &&& hits.len() == 1 && hits[0].status@ == "backlog"@ ==> (r matches Ok((p, t)) && p
                == hits[0].path && t@ == "doing"@)
            &&& hits.len() == 1 && hits[0].status@ != "backlog"@ ==> (r matches Err(
                CubilError::StatusMismatch { slug: s, expected: e, actual },
            ) && s@ == slug@ && e@ == "backlog"@ && actual@ == hits[0].status@)
        }),
{
    transition(entries, slug, "backlog", "doing")
}

} // verus!
