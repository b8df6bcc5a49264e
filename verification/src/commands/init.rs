//! `cubil init`: the folders a new `.cubil/` starts with.
use std::path::PathBuf;
use vstd::prelude::*;

use crate::error::{texts, CubilError};

verus! {

/// The folders that `cubil init` creates under `.cubil/`, each with an
/// empty `.gitkeep`: the three default status folders and `roadmaps/`.
pub fn init_folders() -> (r: Vec<String>)
    ensures
        texts(r@) == seq!["backlog"@, "doing"@, "done"@, "roadmaps"@],
{
    let r = vec![
        "backlog".to_owned(),
        "doing".to_owned(),
        "done".to_owned(),
        "roadmaps".to_owned(),
    ];
    assert(texts(r@) =~= seq!["backlog"@, "doing"@, "done"@, "roadmaps"@]);
    r
}

/// `.cubil` at `root` can be initialized unless something that is not a
/// directory is already there ([`CubilError::RootIsFile`]).
pub fn check_root(root: PathBuf, exists: bool, is_dir: bool) -> (r: Result<PathBuf, CubilError>)
    ensures
        exists && !is_dir ==> (r matches Err(CubilError::RootIsFile(p)) && p == root),
        !(exists && !is_dir) ==> r == Ok::<PathBuf, CubilError>(root),
{
    if exists && !is_dir {
        return Err(CubilError::RootIsFile(root));
    }
    Ok(root)
}

} // verus!
