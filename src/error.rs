//! The ways in which a validation request can fail.
use vstd::prelude::*;

verus! {

/// A failed request, by kind, with a human-readable description.
#[derive(Debug, PartialEq, Eq)]
pub enum CommandError {
    /// The content could not be read.
    Io(String),
    /// The JSON text is malformed.
    Json(String),
    /// The DDL text is malformed, or its first statement does not create a table.
    Sql(String),
    /// Anything else, such as a cancelled selection.
    Generic(String),
}

impl CommandError {
    /// The description that the error carries.
    pub fn message(&self) -> (r: &String)
        ensures
            match self {
                CommandError::Io(m) => r == m,
                CommandError::Json(m) => r == m,
                CommandError::Sql(m) => r == m,
                CommandError::Generic(m) => r == m,
            },
    {
        match self {
            CommandError::Io(m) => m,
            CommandError::Json(m) => m,
            CommandError::Sql(m) => m,
            CommandError::Generic(m) => m,
        }
    }
}

} // verus!
