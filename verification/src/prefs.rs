//! The user preferences that the menu honors; they are loaded from a
//! configuration file by the surrounding program.

use vstd::prelude::*;

verus! {

/// The persisted settings.
pub struct Settings {
    pub old_style: bool,
    pub no_tutorial: bool,
    pub no_summary_message: bool,
    pub no_select_dice_select: bool,
    pub number_instead: bool,
}

impl Default for Settings {
    /// The stock settings: the old report style and the plain number
    /// entry for colored dice are on, nothing is suppressed.
    fn default() -> (s: Settings)
        ensures
            s.old_style,
            !s.no_tutorial,
            !s.no_summary_message,
            !s.no_select_dice_select,
            s.number_instead,
    {
        Settings {
            old_style: true,
            no_tutorial: false,
            no_summary_message: false,
            no_select_dice_select: false,
            number_instead: true,
        }
    }
}

} // verus!
