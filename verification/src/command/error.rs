//! What a command can refuse to do, and why.

use vstd::prelude::*;
use crate::backend::{spec_backend_message, BackendError};
use crate::text::{append_chars, append_str, decimal_chars, spec_decimal_chars, string_from_chars};

verus! {

#[derive(Debug)]
pub enum CommandError {
    /// The backend refused an operation; nothing was left half done.
    Backend(BackendError),
    /// The command has no record of what it would undo.
    MissingUndoLink,
    /// A group operation failed partway *and* the rollback could not put the
    /// graph back. The command is not on the undo stack (it never
    /// completed), so nothing else will offer to repair it.
    PartiallyApplied { operation: &'static str, cause: String, stranded: usize },
}

impl From<BackendError> for CommandError {
    fn from(error: BackendError) -> (converted: Self) {
        CommandError::Backend(error)
    }
}

impl vstd::std_specs::convert::FromSpecImpl<BackendError> for CommandError {
    open spec fn obeys_from_spec() -> bool {
        true
    }

    open spec fn from_spec(v: BackendError) -> Self {
        CommandError::Backend(v)
    }
}

/// What each command error says.
pub open spec fn spec_command_message(error: CommandError) -> Seq<char> {
    match error {
        CommandError::Backend(backend) => spec_backend_message(backend),
        CommandError::MissingUndoLink => "command has no link to undo"@,
        CommandError::PartiallyApplied { operation, cause, stranded } => operation@
            + " failed and could not be rolled back: "@ + cause@ + "; "@ + spec_decimal_chars(
            stranded as nat,
        ) + " item(s) were left changed"@,
    }
}

impl CommandError {
    /// The error's message.
    pub fn message(&self) -> (text: String)
        ensures
            text@ == spec_command_message(*self),
    {
        match self {
            CommandError::Backend(backend) => backend.message(),
            CommandError::MissingUndoLink => "command has no link to undo".to_owned(),
            CommandError::PartiallyApplied { operation, cause, stranded } => {
                let mut t: Vec<char> = Vec::new();
                append_str(&mut t, operation);
                append_str(&mut t, " failed and could not be rolled back: ");
                append_str(&mut t, cause.as_str());
                append_str(&mut t, "; ");
                let digits = decimal_chars(*stranded as u64);
                append_chars(&mut t, digits.as_slice());
                append_str(&mut t, " item(s) were left changed");
                string_from_chars(t.as_slice())
            },
        }
    }
}

} // verus!
