//! The source of code being interpreted, and how errors end a run.

use vstd::prelude::*;

verus! {

/// Where the code being interpreted comes from.
#[derive(Debug)]
pub enum Context {
    /// Code typed into an interactive shell, line by line.
    Repl,
    /// Code read from a file with the given name.
    File(String),
}

impl Context {
    /// Whether a run should end after an error: interactive sessions
    /// continue, file runs stop.
    pub fn exit_on_error(&self) -> (r: bool)
        ensures
            r == (self is File),
    {
        match self {
            Context::Repl => false,
            Context::File(_) => true,
        }
    }
}

} // verus!
