//! The decision core of the interactive menu: what one line of input
//! asks for. Reading the line, prompting and printing stay with the
//! surrounding program.

use vstd::prelude::*;
use crate::dice::Dices;
use crate::text::{spec_parse_u8, str_eq, parse_u8};

verus! {

/// What a line of menu input asks for.
#[derive(Clone, Copy, Debug, PartialEq, Eq, Structural)]
pub enum MenuAction {
    /// End the session (`exit` or `e`).
    Quit,
    /// Show the usage information (`help` or `h`).
    Help,
    /// The line is no whole number.
    NotANumber,
    /// A side count that the catalog does not allow.
    NotAllowed,
    /// Roll dice with this many sides.
    Roll(u8),
}

/// The decision the menu takes on one line of input.
pub open spec fn spec_handle_input(input: Seq<char>, allowed: Seq<u8>) -> MenuAction {
    if input == "exit"@ || input == "e"@ {
        MenuAction::Quit
    } else if input == "help"@ || input == "h"@ {
        MenuAction::Help
    } else {
        match spec_parse_u8(input) {
            None => MenuAction::NotANumber,
            Some(sides) => if allowed.contains(sides) {
                MenuAction::Roll(sides)
            } else {
                MenuAction::NotAllowed
            },
        }
    }
}

/// Decide what one line of menu input asks for: quitting, help, or a
/// roll of an allowed die.
pub fn handle_input(input: &str, allowed: &Dices) -> (a: MenuAction)
    ensures
        a == spec_handle_input(input@, allowed.dices@),
{
    if str_eq(input, "exit") || str_eq(input, "e") {
        MenuAction::Quit
    } else if str_eq(input, "help") || str_eq(input, "h") {
        MenuAction::Help
    } else {
        match parse_u8(input) {
            None => MenuAction::NotANumber,
            Some(sides) => if allowed.allows(sides) {
                MenuAction::Roll(sides)
            } else {
                MenuAction::NotAllowed
            },
        }
    }
}

} // verus!
