//! A keyboard-driven menu tree for the terminal: the menu model, the hotkey
//! assignment that runs while a tree is built, and the navigation state machine.
use vstd::prelude::*;

pub mod menu;
pub mod state;
mod strings;

verus! {

} // verus!
