//! Plain state shared with the surrounding user interface.

use vstd::prelude::*;

verus! {

/// Frame statistics and the toggles the overlay shows.
pub struct UiState {
    pub fps: usize,
    pub show_fps: bool,
    pub vsync: bool,
}

impl UiState {
    /// The initial overlay: no frames counted yet, the counter shown, and
    /// vertical sync on.
    pub fn new() -> (r: UiState)
        ensures
            r.fps == 0,
            r.show_fps,
            r.vsync,
    {
        UiState { fps: 0, show_fps: true, vsync: true }
    }
}

} // verus!
