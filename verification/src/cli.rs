//! Interpreter invocation options. Reading them from the environment
//! belongs to the driver.

use vstd::prelude::*;

verus! {

/// How the interpreter was asked to run.
#[derive(Debug)]
pub struct Options {
    /// Path to an executable script, if one was named.
    pub file_name: Option<String>,
    /// Enter an interactive shell once the script has run.
    pub interactive: bool,
    /// Disable colored output.
    pub no_color: bool,
}

impl Default for Options {
    /// No script, not interactive, colors on.
    fn default() -> (r: Self)
        ensures
            r.file_name is None,
            !r.interactive,
            !r.no_color,
    {
        Self { file_name: None, interactive: false, no_color: false }
    }
}

} // verus!
