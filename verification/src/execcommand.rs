//! Editing commands: which ones there are, when one may run, and what
//! running it asks of the document.
//!
//! Nothing here touches a document. A selection comes in as plain values,
//! and what a command wants done to the document goes out as a
//! [`CommandAction`] for the caller to carry out.

pub mod basecommand;
pub mod commands;
pub mod execcommands;
