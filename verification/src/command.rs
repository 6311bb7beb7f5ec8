//! Undoable graph operations.
//!
//! Every mutation the user can make goes through a command so that it can
//! be undone, and so that its rollback rules live next to the mutation.
//! A command that touches several links is all-or-nothing: it records what
//! it changed and puts it back when a later step fails.

pub mod error;
pub mod transaction;
pub mod connect;
pub mod disconnect;
pub mod reroute;
pub mod stack;
