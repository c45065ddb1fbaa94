//! Semantic errors the interpreter can report about a parsed line.

use vstd::prelude::*;
use crate::span::Span;

verus! {

/// A semantic error in an otherwise well-formed line.
#[derive(Debug, Clone, Copy, PartialEq, Eq, Structural)]
pub enum Error {
    /// An indented rule line outside any free-variable scope block.
    UnexpectedIndent,
    /// A freed variable used inside a question.
    FreedVarInQuestion { span: Span },
}

} // verus!
