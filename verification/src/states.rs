use vstd::prelude::*;

verus! {

/// The states of the application as a whole.
#[derive(Clone, Copy, Debug, PartialEq, Eq, Hash, Structural)]
pub enum AppState {
    Loading,
    Initialising,
    Running,
}

impl Default for AppState {
    fn default() -> (state: AppState)
        ensures
            state == AppState::Loading,
    {
        AppState::Loading
    }
}

impl AppState {
    /// The name of this kind of state.
    pub fn name() -> (name: &'static str)
        ensures
            name@ == "AppState"@,
    {
        "AppState"
    }
}

/// Whether the world is being generated.
#[derive(Clone, Copy, Debug, PartialEq, Eq, Hash, Structural)]
pub enum GenerationState {
    Done,
    Generating,
}

impl Default for GenerationState {
    fn default() -> (state: GenerationState)
        ensures
            state == GenerationState::Done,
    {
        GenerationState::Done
    }
}

impl GenerationState {
    /// The name of this kind of state.
    pub fn name() -> (name: &'static str)
        ensures
            name@ == "GenerationState"@,
    {
        "GenerationState"
    }
}

} // verus!
