//! From the identifier of a sub-state to the sub-state.

use crate::substate::{state_of_id, unknown_state_message, StateKind};
use vstd::prelude::*;
use vstd::string::*;

verus! {

/// The sub-state that `id` names, or, for an identifier that names none, a
/// message that says so.
pub fn from_id(id: &'static str) -> (found: Result<StateKind, String>)
    ensures
        match found {
            Ok(kind) => state_of_id(id@) == Some(kind),
            Err(message) => state_of_id(id@) is None && message@ == unknown_state_message(id@),
        },
{
    let name = String::from_str(id);
    if name == String::from_str("menu") {
        Ok(StateKind::Menu)
    } else if name == String::from_str("mapgen") {
        Ok(StateKind::MapGen)
    } else if name == String::from_str("about") {
        Ok(StateKind::About)
    } else {
        Err(String::from_str("No sub-state was found with ID ").concat(id).concat("!"))
    }
}

} // verus!
