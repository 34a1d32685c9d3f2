//! The sub-states of the game and the status by which one hands over to
//! another.

use vstd::prelude::*;
use vstd::string::*;

verus! {

/// What a sub-state asks of the game: to hand over to the sub-state with the
/// given identifier, or to end.
#[derive(Clone, PartialEq, Debug)]
pub enum Status {
    Transition { id: &'static str },
    Quit,
}

/// A part of the game that can ask to be left.
pub trait SubState {
    /// The status that is pending, if any.
    fn get_status(&mut self) -> Option<Status>;
}

/// The sub-states that the game has.
#[derive(Clone, Copy, PartialEq, Eq, Structural, Debug)]
pub enum StateKind {
    Menu,
    MapGen,
    About,
}

/// The identifier of a sub-state.
pub open spec fn state_name(kind: StateKind) -> Seq<char> {
    match kind {
        StateKind::Menu => "menu"@,
        StateKind::MapGen => "mapgen"@,
        StateKind::About => "about"@,
    }
}

/// The sub-state that an identifier names.
pub open spec fn state_of_id(id: Seq<char>) -> Option<StateKind> {
    if id == "menu"@ {
        Some(StateKind::Menu)
    } else if id == "mapgen"@ {
        Some(StateKind::MapGen)
    } else if id == "about"@ {
        Some(StateKind::About)
    } else {
        None
    }
}

/// What is said of an identifier that names no sub-state.
pub open spec fn unknown_state_message(id: Seq<char>) -> Seq<char> {
    "No sub-state was found with ID "@ + id + "!"@
}

impl StateKind {
    /// The identifier of the sub-state.
    pub fn id(&self) -> (id: &'static str)
        ensures
            id@ == state_name(*self),
    {
        match self {
            StateKind::Menu => "menu",
            StateKind::MapGen => "mapgen",
            StateKind::About => "about",
        }
    }
}

} // verus!
