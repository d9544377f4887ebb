//! The commands, one module each.

pub mod delete;
