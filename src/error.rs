//! The ways a file operation can fail.
use vstd::prelude::*;

verus! {

#[derive(Clone, Copy, Debug, PartialEq, Eq, Structural)]
pub enum OpError {
    /// The path would leave the sandbox root.
    PathEscape,
    /// The path does not exist.
    NotFound,
    /// The path names a file where a directory was needed.
    NotADirectory,
    /// The directory to create exists already.
    AlreadyExists,
    /// The filesystem refused the operation.
    IoError,
    /// The caller's credential does not match the shared secret.
    Unauthorized,
}

impl OpError {
    /// A short description of the failure.
    pub fn message(&self) -> (r: String)
        ensures
            r@.len() > 0,
    {
        let r = match self {
            OpError::PathEscape => String::from_str("path escapes the root"),
            OpError::NotFound => String::from_str("not found"),
            OpError::NotADirectory => String::from_str("not a directory"),
            OpError::AlreadyExists => String::from_str("already exists"),
            OpError::IoError => String::from_str("i/o error"),
            OpError::Unauthorized => String::from_str("unauthorized"),
        };
        proof {
            reveal_strlit("path escapes the root");
            reveal_strlit("not found");
            reveal_strlit("not a directory");
            reveal_strlit("already exists");
            reveal_strlit("i/o error");
            reveal_strlit("unauthorized");
        }
        r
    }
}

} // verus!
