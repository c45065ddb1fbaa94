//! The source context of a quoted line, for diagnostics.

use vstd::prelude::*;

verus! {

/// Where a quoted line comes from: a source name, the line number, and the
/// line itself.
#[derive(Debug)]
pub struct Context<'a> {
    pub source: &'a str,
    pub line_no: usize,
    pub line: &'a str,
}

impl<'a> Context<'a> {
    pub fn new(source: &'a str, line_no: usize, line: &'a str) -> (r: Self)
        ensures
            r.source@ == source@,
            r.line_no == line_no,
            r.line@ == line@,
    {
        Self { source, line_no, line }
    }

    pub fn source(&self) -> (r: &'a str)
        ensures
            r@ == self.source@,
    {
        self.source
    }

    pub fn line_no(&self) -> (r: usize)
        ensures
            r == self.line_no,
    {
        self.line_no
    }

    pub fn line(&self) -> (r: &'a str)
        ensures
            r@ == self.line@,
    {
        self.line
    }
}

} // verus!
