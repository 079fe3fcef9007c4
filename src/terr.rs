//! The failures the library reports.
use vstd::prelude::*;

verus! {

/// A failure, with a message for display.
#[derive(Debug, Clone, PartialEq, Eq)]
pub enum TodoError {
    /// A value (first) that a setting (second) cannot take.
    InvalidValue(String, String),
    SaveFailed,
    LoadFailed,
    AppendFailed,
    FileWriteFailed,
    NotCommand,
    /// An input or output failure, described.
    IOError(String),
}

/// The message of an error.
pub open spec fn error_text(e: TodoError) -> Seq<char> {
    match e {
        TodoError::InvalidValue(v, n) => "invalid value "@ + v@ + " for "@ + n@,
        TodoError::SaveFailed => "failed to save todo list"@,
        TodoError::LoadFailed => "failed to load todo list"@,
        TodoError::AppendFailed => "failed to append to file"@,
        TodoError::FileWriteFailed => "failed to write todo list"@,
        TodoError::NotCommand => "first argument must be a command"@,
        TodoError::IOError(d) => "I/O Error: "@ + d@,
    }
}

impl TodoError {
    /// The message of the error (see [`error_text`]).
    pub fn message(&self) -> (r: String)
        ensures
            r@ == error_text(*self),
    {
        match self {
            TodoError::InvalidValue(v, n) => {
                let r = String::from_str("invalid value ").concat(v.as_str()).concat(" for ").concat(n.as_str());
                r
            },
            TodoError::SaveFailed => String::from_str("failed to save todo list"),
            TodoError::LoadFailed => String::from_str("failed to load todo list"),
            TodoError::AppendFailed => String::from_str("failed to append to file"),
            TodoError::FileWriteFailed => String::from_str("failed to write todo list"),
            TodoError::NotCommand => String::from_str("first argument must be a command"),
            TodoError::IOError(d) => String::from_str("I/O Error: ").concat(d.as_str()),
        }
    }
}

} // verus!
