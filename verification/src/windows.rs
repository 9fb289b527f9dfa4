use vstd::prelude::*;
use crate::error::EngineError;

verus! {

/// What the window that loads a topography remembers between frames: the
/// path typed in, and how the last load ended.
#[derive(Clone, Debug, PartialEq, Eq)]
pub struct LoadTopographyState {
    pub topography: String,
    pub load_files_result: Option<Result<(), EngineError>>,
}

impl Default for LoadTopographyState {
    fn default() -> (state: LoadTopographyState)
        ensures
            state.topography@ == Seq::<char>::empty(),
            state.load_files_result is None,
    {
        LoadTopographyState { topography: String::new(), load_files_result: None }
    }
}

/// The window that loads a topography.
#[derive(Clone, Copy, Debug, PartialEq, Eq, Structural)]
pub struct LoadTopography;

/// The window that starts a new project.
#[derive(Clone, Copy, Debug, PartialEq, Eq, Structural)]
pub struct NewProject;

/// The window that lists the resources of the scene.
#[derive(Clone, Copy, Debug, PartialEq, Eq, Structural)]
pub struct ResourcesWindow;

} // verus!
