use cubil::error::CubilError;
use cubil::root::root_step;

#[test]
fn root_search_steps() {
    assert!(matches!(root_step(true, true), Ok(true)));
    assert!(matches!(root_step(true, false), Ok(true)));
    assert!(matches!(root_step(false, true), Ok(false)));
    assert!(matches!(root_step(false, false), Err(CubilError::RootNotFound)));
}
