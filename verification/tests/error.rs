use std::path::PathBuf;

use cubil::error::CubilError;

#[test]
fn messages_match_each_variant() {
    assert_eq!(
        CubilError::RootNotFound.message(),
        "no .cubil/ directory found (run `cubil init` first)"
    );
    assert_eq!(
        CubilError::RootIsFile(PathBuf::from("/x/.cubil")).message(),
        format!(".cubil exists as a file, not a directory: {}", PathBuf::from("/x/.cubil").display())
    );
    assert_eq!(CubilError::SlugNotFound("a".into()).message(), "task not found: a");
    assert_eq!(
        CubilError::SlugAmbiguous { slug: "a".into(), statuses: vec!["x".into(), "y".into()] }
            .message(),
        "slug `a` exists in multiple statuses: x, y"
    );
    assert_eq!(
        CubilError::SlugCollision { slug: "a".into(), status: "doing".into() }.message(),
        "slug `a` already exists in doing/"
    );
    assert_eq!(
        CubilError::StatusMismatch { slug: "a".into(), expected: "b".into(), actual: "c".into() }
            .message(),
        "task `a` is in `c`, not `b`"
    );
    assert_eq!(CubilError::InvalidSlug.message(), "title produced an empty slug");
    assert_eq!(CubilError::StatusMissing("s".into()).message(), "status folder missing: s");
    assert_eq!(CubilError::RoadmapNotFound("r".into()).message(), "roadmap not found: r");
    assert_eq!(CubilError::RoadmapExists("r".into()).message(), "roadmap already exists: r");
    assert_eq!(CubilError::Update("boom".into()).message(), "boom");
}

#[test]
fn milestone_and_roadmap_messages() {
    let e = CubilError::MilestoneNotFound {
        roadmap: "r".into(),
        milestone: "Z".into(),
        available: vec!["A".into(), "B".into()],
    };
    let none = CubilError::MilestoneNotFound {
        roadmap: "r".into(),
        milestone: "Z".into(),
        available: vec![],
    };
    let amb = CubilError::MilestoneAmbiguous { roadmap: "r".into(), milestone: "A".into() };
    let dup = CubilError::TaskAlreadyInRoadmap { roadmap: "r".into(), task: "t".into() };
    assert_eq!(e.message(), "roadmap `r` has no milestone `Z` (available: A, B)");
    assert_eq!(none.message(), "roadmap `r` has no milestone `Z` (no milestones defined)");
    assert_eq!(amb.message(), "roadmap `r` has multiple milestones named `A`");
    assert_eq!(dup.message(), "task `t` is already in roadmap `r`");
}
