//! What dialogs and menus report.

use vstd::prelude::*;

verus! {

/// What a dialog reports of the user.
#[derive(Clone, Copy, Debug, PartialEq, Eq, Structural)]
pub enum PromptEvent {
    /// The selection has moved.
    Update,
    /// The selected entry was chosen.
    Validate,
    /// The dialog was dismissed.
    Abort,
}

/// What becomes of an event in a menu.
#[derive(Clone, Copy, Debug, PartialEq, Eq, Structural)]
pub enum MenuResult {
    Ignored,
    Consumed,
    /// The entry with this index was chosen: report it and close the menu.
    Validate(usize),
    /// The menu was dismissed at this entry: report it and close the menu.
    Abort(usize),
}

} // verus!
