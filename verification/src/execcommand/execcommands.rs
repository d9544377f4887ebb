//! Looking a command up by its name, and running it if it may run.

use vstd::prelude::*;
use vstd::string::StringExecFns;
use crate::execcommand::basecommand::{ActiveRange, Boundary, CommandAction, Selection};
use crate::execcommand::commands::delete::DeleteCommand;

verus! {

/// A node at one end of a range lets a command run: it can be edited, or it
/// is an editing host.
pub open spec fn boundary_allows_editing(boundary: Boundary) -> bool {
    boundary.editable || boundary.editing_host
}

/// A command is enabled: there is a selection, it has an active range, and
/// both ends of that range allow editing.
pub open spec fn is_enabled(selection: Option<Selection>) -> bool {
    &&& selection is Some
    &&& selection->0.active_range is Some
    &&& boundary_allows_editing(selection->0.active_range->0.start)
    &&& boundary_allows_editing(selection->0.active_range->0.end)
}

/// A command of that name is supported: the one command there is, `delete`.
pub open spec fn is_supported(command_id: Seq<char>) -> bool {
    command_id == "delete"@
}

/// The selection, if a command is enabled on it.
pub fn selection_if_command_is_enabled(selection: Option<Selection>) -> (enabled: Option<
    Selection,
>)
    ensures
        enabled == if is_enabled(selection) {
            selection
        } else {
            None
        },
{
    let selection = selection?;
    let range: ActiveRange = selection.active_range?;
    if !range.start.editable && !range.start.editing_host {
        return None;
    }
    if !range.end.editable && !range.end.editing_host {
        return None;
    }
    Some(selection)
}

/// The command of that name, if there is one.
pub fn command_if_command_is_supported(command_id: &str) -> (command: Option<DeleteCommand>)
    ensures
        command == if is_supported(command_id@) {
            Some(DeleteCommand {  })
        } else {
            None
        },
{
    if String::from_str(command_id) == String::from_str("delete") {
        Some(DeleteCommand {  })
    } else {
        None
    }
}

/// The command of that name together with the selection, if the command is
/// both supported and enabled.
pub fn check_support_and_enabled(command_id: &str, selection: Option<Selection>) -> (both: Option<
    (DeleteCommand, Selection),
>)
    ensures
        both == if is_supported(command_id@) && is_enabled(selection) {
            Some((DeleteCommand {  }, selection->0))
        } else {
            None
        },
{
    let command = command_if_command_is_supported(command_id)?;
    let selection = selection_if_command_is_enabled(selection)?;
    Some((command, selection))
}

/// Runs the command of that name on the selection. The answer is whether
/// it ran, and with it goes what the caller has to do to the document. A
/// command that is not supported or not enabled does not run and asks for
/// nothing.
pub fn exec_command_for_command_id(
    command_id: &str,
    value: &str,
    selection: Option<Selection>,
) -> (result: (bool, CommandAction))
    ensures
        result.0 == (is_supported(command_id@) && is_enabled(selection)),
        result.1 == if result.0 {
            DeleteCommand::action(selection->0)
        } else {
            CommandAction::Nothing
        },
{
    let (command, selection) = match check_support_and_enabled(command_id, selection) {
        Some(both) => both,
        None => {
            return (false, CommandAction::Nothing);
        },
    };
    let (result, action) = command.execute(&selection);
    if !result {
        return (false, CommandAction::Nothing);
    }
    (true, action)
}

} // verus!
