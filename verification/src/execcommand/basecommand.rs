//! What every editing command works on and hands back.

use vstd::prelude::*;

verus! {

/// One end of a range: what is known of the node that holds it.
#[derive(Clone, Copy, Debug, PartialEq, Eq, Structural)]
pub struct Boundary {
    /// The node can be edited.
    pub editable: bool,
    /// The node is an editing host.
    pub editing_host: bool,
}

/// The active range of a selection.
#[derive(Clone, Copy, Debug, PartialEq, Eq, Structural)]
pub struct ActiveRange {
    pub start: Boundary,
    pub end: Boundary,
    /// Start and end are the same point.
    pub collapsed: bool,
}

/// The selection of a document.
#[derive(Clone, Copy, Debug, PartialEq, Eq, Structural)]
pub struct Selection {
    pub active_range: Option<ActiveRange>,
}

/// What a command asks the caller to do to the document.
#[derive(Clone, Copy, Debug, PartialEq, Eq, Structural)]
pub enum CommandAction {
    /// Nothing.
    Nothing,
    /// Delete what the active range holds.
    DeleteContents,
}

/// What deleting the selection asks of the document: that the contents of
/// the active range be deleted.
pub fn delete_the_selection(selection: &Selection, active_range: &ActiveRange) -> (action:
    CommandAction)
    ensures
        action == CommandAction::DeleteContents,
{
    CommandAction::DeleteContents
}

} // verus!
