//! The errors that cubil reports, and the text it prints for each.
use std::path::PathBuf;
use vstd::prelude::*;

use crate::text::{push_str, string_of};

verus! {

#[verifier::external_type_specification]
#[verifier::external_body]
pub struct ExPathBuf(std::path::PathBuf);

#[verifier::external_type_specification]
#[verifier::external_body]
pub struct ExIoError(std::io::Error);

#[derive(Debug)]
pub enum CubilError {
    RootNotFound,
    RootIsFile(PathBuf),
    SlugNotFound(String),
    SlugAmbiguous { slug: String, statuses: Vec<String> },
    SlugCollision { slug: String, status: String },
    StatusMismatch { slug: String, expected: String, actual: String },
    InvalidSlug,
    StatusMissing(String),
    RoadmapNotFound(String),
    RoadmapExists(String),
    MilestoneNotFound { roadmap: String, milestone: String, available: Vec<String> },
    MilestoneAmbiguous { roadmap: String, milestone: String },
    TaskAlreadyInRoadmap { roadmap: String, task: String },
    Io(std::io::Error),
    Update(String),
}

/// The texts of `list`, in order, with `sep` between consecutive ones
/// (`[String]::join`).
pub open spec fn join(list: Seq<Seq<char>>, sep: Seq<char>) -> Seq<char>
    decreases list.len(),
{
    if list.len() == 0 {
        Seq::empty()
    } else if list.len() == 1 {
        list[0]
    } else {
        join(list.drop_last(), sep) + sep + list.last()
    }
}

/// The views of a list of strings.
pub open spec fn texts(list: Seq<String>) -> Seq<Seq<char>> {
    list.map_values(|s: String| s@)
}

/// Appends `list.join(sep)` to `out`.
pub fn push_joined(out: &mut Vec<char>, list: &Vec<String>, sep: &str)
    ensures
        final(out)@ == old(out)@ + join(texts(list@), sep@),
{
    let mut i: usize = 0;
    while i < list.len()
        invariant
            i <= list@.len(),
            out@ == old(out)@ + join(texts(list@).take(i as int), sep@),
        decreases list@.len() - i,
    {
        let ghost before = out@;
        if i > 0 {
            push_str(out, sep);
        }
        push_str(out, list[i].as_str());
        proof {
            let t = texts(list@);
            assert(t.take(i + 1).drop_last() =~= t.take(i as int));
            assert(t.take(i + 1).last() == list@[i as int]@);
            if i == 0 {
                assert(join(t.take(0), sep@) =~= Seq::<char>::empty());
                assert(join(t.take(1), sep@) == t.take(1)[0]);
                assert(out@ =~= old(out)@ + join(t.take(i + 1), sep@));
            } else {
                assert(out@ =~= old(out)@ + join(t.take(i + 1), sep@));
            }
        }
        i = i + 1;
    }
    proof {
        assert(texts(list@).take(list@.len() as int) =~= texts(list@));
    }
}

/// What `io::Error`'s `Display` writes (the operating system's wording).
#[verifier::external_body]
fn io_error_text(e: &std::io::Error) -> (s: String) {
    e.to_string()
}

/// What `Path::display` writes for `p`: its text, with any part that is
/// not valid Unicode replaced. It depends on the path alone.
pub uninterp spec fn path_display(p: PathBuf) -> Seq<char>;

/// What `Path::display` writes for `p`; its result is named
/// [`path_display`].
#[verifier::external_body]
fn path_text(p: &PathBuf) -> (s: String)
    ensures
        s@ == path_display(*p),
{
    p.display().to_string()
}

impl CubilError {
    /// The text shown to the user for this error.
    pub fn message(&self) -> (r: String)
        ensures
            match self {
                CubilError::RootNotFound => r@ == "no .cubil/ directory found (run `cubil init` first)"@,
                CubilError::RootIsFile(p) => r@ == ".cubil exists as a file, not a directory: "@
                    + path_display(*p),
                CubilError::SlugNotFound(s) => r@ == "task not found: "@ + s@,
                CubilError::SlugAmbiguous { slug, statuses } => r@ == "slug `"@ + slug@
                    + "` exists in multiple statuses: "@ + join(texts(statuses@), ", "@),
                CubilError::SlugCollision { slug, status } => r@ == "slug `"@ + slug@
                    + "` already exists in "@ + status@ + "/"@,
                CubilError::StatusMismatch { slug, expected, actual } => r@ == "task `"@ + slug@
                    + "` is in `"@ + actual@ + "`, not `"@ + expected@ + "`"@,
                CubilError::InvalidSlug => r@ == "title produced an empty slug"@,
                CubilError::StatusMissing(s) => r@ == "status folder missing: "@ + s@,
                CubilError::RoadmapNotFound(s) => r@ == "roadmap not found: "@ + s@,
                CubilError::RoadmapExists(s) => r@ == "roadmap already exists: "@ + s@,
                CubilError::MilestoneNotFound { roadmap, milestone, available } => if available@.len()
                    == 0 {
                    r@ == "roadmap `"@ + roadmap@ + "` has no milestone `"@ + milestone@
                        + "` (no milestones defined)"@
                } else {
                    r@ == "roadmap `"@ + roadmap@ + "` has no milestone `"@ + milestone@
                        + "` (available: "@ + join(texts(available@), ", "@) + ")"@
                },
                CubilError::MilestoneAmbiguous { roadmap, milestone } => r@ == "roadmap `"@
                    + roadmap@ + "` has multiple milestones named `"@ + milestone@ + "`"@,
                CubilError::TaskAlreadyInRoadmap { roadmap, task } => r@ == "task `"@ + task@
                    + "` is already in roadmap `"@ + roadmap@ + "`"@,
                CubilError::Io(_) => r@.len() >= "io error: "@.len() && r@.take(
                    "io error: "@.len() as int,
                ) == "io error: "@,
                CubilError::Update(msg) => r@ == msg@,
            },
    {
        let mut out: Vec<char> = Vec::new();
        match self {
            CubilError::RootNotFound => {
                push_str(&mut out, "no .cubil/ directory found (run `cubil init` first)");
            },
            CubilError::RootIsFile(p) => {
                push_str(&mut out, ".cubil exists as a file, not a directory: ");
                let t = path_text(p);
                push_str(&mut out, t.as_str());
            },
            CubilError::SlugNotFound(s) => {
                push_str(&mut out, "task not found: ");
                push_str(&mut out, s.as_str());
            },
            CubilError::SlugAmbiguous { slug, statuses } => {
                push_str(&mut out, "slug `");
                push_str(&mut out, slug.as_str());
                push_str(&mut out, "` exists in multiple statuses: ");
                push_joined(&mut out, statuses, ", ");
            },
            CubilError::SlugCollision { slug, status } => {
                push_str(&mut out, "slug `");
                push_str(&mut out, slug.as_str());
                push_str(&mut out, "` already exists in ");
                push_str(&mut out, status.as_str());
                push_str(&mut out, "/");
            },
            CubilError::StatusMismatch { slug, expected, actual } => {
                push_str(&mut out, "task `");
                push_str(&mut out, slug.as_str());
                push_str(&mut out, "` is in `");
                push_str(&mut out, actual.as_str());
                push_str(&mut out, "`, not `");
                push_str(&mut out, expected.as_str());
                push_str(&mut out, "`");
            },
            CubilError::InvalidSlug => {
                push_str(&mut out, "title produced an empty slug");
            },
            CubilError::StatusMissing(s) => {
                push_str(&mut out, "status folder missing: ");
                push_str(&mut out, s.as_str());
            },
            CubilError::RoadmapNotFound(s) => {
                push_str(&mut out, "roadmap not found: ");
                push_str(&mut out, s.as_str());
            },
            CubilError::RoadmapExists(s) => {
                push_str(&mut out, "roadmap already exists: ");
                push_str(&mut out, s.as_str());
            },
            CubilError::MilestoneNotFound { roadmap, milestone, available } => {
                push_str(&mut out, "roadmap `");
                push_str(&mut out, roadmap.as_str());
                push_str(&mut out, "` has no milestone `");
                push_str(&mut out, milestone.as_str());
                if available.len() == 0 {
                    push_str(&mut out, "` (no milestones defined)");
                } else {
                    push_str(&mut out, "` (available: ");
                    push_joined(&mut out, available, ", ");
                    push_str(&mut out, ")");
                }
            },
            CubilError::MilestoneAmbiguous { roadmap, milestone } => {
                push_str(&mut out, "roadmap `");
                push_str(&mut out, roadmap.as_str());
                push_str(&mut out, "` has multiple milestones named `");
                push_str(&mut out, milestone.as_str());
                push_str(&mut out, "`");
            },
            CubilError::TaskAlreadyInRoadmap { roadmap, task } => {
                push_str(&mut out, "task `");
                push_str(&mut out, task.as_str());
                push_str(&mut out, "` is already in roadmap `");
                push_str(&mut out, roadmap.as_str());
                push_str(&mut out, "`");
            },
            CubilError::Io(e) => {
                push_str(&mut out, "io error: ");
                let t = io_error_text(e);
                push_str(&mut out, t.as_str());
                proof {
                    assert(out@.take("io error: "@.len() as int) =~= "io error: "@);
                }
            },
            CubilError::Update(msg) => {
                push_str(&mut out, msg.as_str());
            },
        }
        string_of(&out)
    }
}

impl From<std::io::Error> for CubilError {
    fn from(e: std::io::Error) -> (r: Self) {
        CubilError::Io(e)
    }
}

impl vstd::std_specs::convert::FromSpecImpl<std::io::Error> for CubilError {
    open spec fn obeys_from_spec() -> bool {
        true
    }

    open spec fn from_spec(e: std::io::Error) -> Self {
        CubilError::Io(e)
    }
}

} // verus!
