//! Error taxonomy for the vault core.
//!
//! Every operation reports a typed outcome. Authentication failure is one
//! undifferentiated condition: a wrong master password and a corrupted or
//! tampered vault file are deliberately indistinguishable to the caller.

use vstd::prelude::*;

verus! {

/// The mathematical value of an error.
pub ghost enum AppErrorView {
    InvalidCommand,
    InvalidArgument(Seq<char>),
    MissingArgument(Seq<char>),
    Other(Seq<char>),
}

/// The failure conditions a caller of the vault core can observe.
#[derive(Debug, PartialEq, Eq)]
pub enum AppError {
    /// The command line did not name a known command.
    InvalidCommand,
    /// A named argument was present but malformed; carries the argument name.
    InvalidArgument(String),
    /// A required argument was absent; carries the argument name.
    MissingArgument(String),
    /// Any other reported condition, described by its message.
    Other(String),
}

impl View for AppError {
    type V = AppErrorView;

    open spec fn view(&self) -> AppErrorView {
        match self {
            AppError::InvalidCommand => AppErrorView::InvalidCommand,
            AppError::InvalidArgument(arg) => AppErrorView::InvalidArgument(arg@),
            AppError::MissingArgument(arg) => AppErrorView::MissingArgument(arg@),
            AppError::Other(err) => AppErrorView::Other(err@),
        }
    }
}

impl AppError {
    /// The user-facing message for this error.
    pub fn message(&self) -> (r: String)
        ensures
            r@ == self.spec_message(),
    {
        match self {
            AppError::InvalidCommand => "Invalid command".to_owned(),
            AppError::InvalidArgument(arg) => {
                let mut s = "Invalid argument: <".to_owned();
                s.append(arg.as_str());
                s.append(">");
                s
            },
            AppError::MissingArgument(arg) => {
                let mut s = "Missing argument: <".to_owned();
                s.append(arg.as_str());
                s.append(">");
                s
            },
            AppError::Other(err) => {
                let mut s = "Error: ".to_owned();
                s.append(err.as_str());
                s
            },
        }
    }

    /// What `message` returns, as a sequence of characters.
    pub open spec fn spec_message(&self) -> Seq<char> {
        match self {
            AppError::InvalidCommand => "Invalid command"@,
            AppError::InvalidArgument(arg) => "Invalid argument: <"@ + arg@ + ">"@,
            AppError::MissingArgument(arg) => "Missing argument: <"@ + arg@ + ">"@,
            AppError::Other(err) => "Error: "@ + err@,
        }
    }
}

} // verus!
