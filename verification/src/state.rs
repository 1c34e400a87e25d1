//! The two application states and the rule that moves between them.

use vstd::prelude::*;

verus! {

/// Which screen the application shows.
#[derive(Clone, Copy, PartialEq, Eq, Debug, Hash, Structural)]
pub enum AppState {
    /// The menu, shown at start and after leaving a session.
    Menu,
    /// A running simulation session.
    Simulation,
}

impl Default for AppState {
    fn default() -> (s: Self)
        ensures
            s == AppState::Menu,
    {
        AppState::Menu
    }
}

/// What the exit signal asks for: the menu if the signal is given, else
/// no change of state.
pub fn handle_input(exit_requested: bool) -> (next: Option<AppState>)
    ensures
        next == (if exit_requested {
            Some(AppState::Menu)
        } else {
            None
        }),
{
    if exit_requested {
        Some(AppState::Menu)
    } else {
        None
    }
}

} // verus!
