//! The command `delete`.

use vstd::prelude::*;
use crate::execcommand::basecommand::{delete_the_selection, CommandAction, Selection};

verus! {

/// The command `delete`.
#[derive(Clone, Copy, Debug, PartialEq, Eq, Structural)]
pub struct DeleteCommand {}

impl DeleteCommand {
    /// What the command does on `selection`: it always succeeds, and where
    /// the active range is not collapsed it has the selection deleted.
    pub open spec fn action(selection: Selection) -> CommandAction {
        if selection.active_range is Some && !selection.active_range->0.collapsed {
            CommandAction::DeleteContents
        } else {
            CommandAction::Nothing
        }
    }

    /// Runs the command. A selection without an active range is no input
    /// for it: a command runs only when it is enabled.
    pub fn execute(&self, selection: &Selection) -> (result: (bool, CommandAction))
        requires
            selection.active_range is Some,
        ensures
            result.0,
            result.1 == Self::action(*selection),
    {
        match &selection.active_range {
            Some(active_range) => {
                if !active_range.collapsed {
                    return (true, delete_the_selection(selection, active_range));
                }
                (true, CommandAction::Nothing)
            },
            None => (true, CommandAction::Nothing),
        }
    }
}

} // verus!
